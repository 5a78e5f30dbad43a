//! The project store: identifier-to-file resolution backed by a repairable
//! in-memory index, collision-safe slugged file naming, and save/delete
//! with rename semantics. The store operates on an explicit model of the
//! projects directory (file name to contents, in platform scan order); the
//! host applies the resulting state to disk.
use vstd::prelude::*;
use vstd::string::StringExecFns;
use crate::errors::{api_error, api_error_msg, ApiError};
use crate::json::{json_of, parse_json, spec_str_field, JVal};
use crate::kv::{
    lemma_sm_get_put_same, lemma_sm_has_exists, lemma_sm_idx, sm_get, sm_has, sm_idx, sm_put,
    sm_remove, sm_wf, StrMap,
};
use crate::sanitize::{json_suffix, project_file_name_from_slug};
use crate::text::{
    ends_with_seq, ends_with_str, lemma_spec_dec_len, lemma_spec_dec_injective, spec_dec,
    starts_with_seq, starts_with_str, str_eq, u64_to_dec,
};

verus! {

/// The k-th candidate file name for a slug: `slug.json` first, then
/// `slug__2.json`, `slug__3.json`, and so on.
pub open spec fn candidate_name(slug: Seq<char>, k: u64) -> Seq<char> {
    if k == 1 {
        slug + json_suffix()
    } else {
        slug + seq!['_', '_'] + spec_dec(k) + json_suffix()
    }
}

/// Distinct candidate numbers give distinct file names.
pub proof fn lemma_candidate_injective(slug: Seq<char>, j: u64, k: u64)
    requires
        1 <= j,
        1 <= k,
        candidate_name(slug, j) == candidate_name(slug, k),
    ensures
        j == k,
{
    lemma_spec_dec_len(j);
    lemma_spec_dec_len(k);
    if j == 1 && k == 1 {
    } else if j == 1 {
        assert(candidate_name(slug, j).len() == slug.len() + 5);
        assert(candidate_name(slug, k).len() >= slug.len() + 8);
    } else if k == 1 {
        assert(candidate_name(slug, k).len() == slug.len() + 5);
        assert(candidate_name(slug, j).len() >= slug.len() + 8);
    } else {
        let dj = spec_dec(j);
        let dk = spec_dec(k);
        assert(candidate_name(slug, j).len() == slug.len() + 2 + dj.len() + 5);
        assert(candidate_name(slug, k).len() == slug.len() + 2 + dk.len() + 5);
        assert(dj.len() == dk.len());
        assert forall|i: int| 0 <= i < dj.len() implies dj[i] == dk[i] by {
            assert(candidate_name(slug, j)[slug.len() + 2 + i] == dj[i]);
            assert(candidate_name(slug, k)[slug.len() + 2 + i] == dk[i]);
        }
        assert(dj =~= dk);
        lemma_spec_dec_injective(j, k);
    }
}

/// The candidate file name as a string.
fn candidate_string(slug: &str, k: u64) -> (r: String)
    requires
        k >= 1,
    ensures
        r@ == candidate_name(slug@, k),
{
    if k == 1 {
        project_file_name_from_slug(slug)
    } else {
        proof {
            reveal_strlit("__");
            assert("__"@ =~= seq!['_', '_']);
            reveal_strlit(".json");
            assert(".json"@ =~= json_suffix());
        }
        let mut s = slug.to_owned();
        s.append("__");
        let d = u64_to_dec(k);
        s.append(d.as_str());
        s.append(".json");
        proof {
            assert(s@ =~= candidate_name(slug@, k));
        }
        s
    }
}

/// If the first k candidates are all taken, the directory holds at least k
/// files.
proof fn lemma_occupied_bound(entries: Seq<(Seq<char>, Seq<char>)>, slug: Seq<char>, k: u64)
    requires
        1 <= k,
        forall|j: u64| 1 <= j <= k ==> sm_has(entries, #[trigger] candidate_name(slug, j)),
    ensures
        k <= entries.len(),
{
    broadcast use vstd::seq_lib::seq_to_set_is_finite;

    let cands = Seq::new(k as nat, |i: int| candidate_name(slug, (i + 1) as u64));
    let keys = entries.map_values(|e: (Seq<char>, Seq<char>)| e.0);
    assert forall|p: int, q: int|
        0 <= p < cands.len() && 0 <= q < cands.len() && p != q implies cands[p] != cands[q] by {
        if cands[p] == cands[q] {
            lemma_candidate_injective(slug, (p + 1) as u64, (q + 1) as u64);
        }
    }
    assert(cands.no_duplicates());
    assert forall|i: int| 0 <= i < cands.len() implies keys.contains(cands[i]) by {
        assert(sm_has(entries, candidate_name(slug, (i + 1) as u64)));
        lemma_sm_has_exists(entries, cands[i]);
        let l = choose|l: int| 0 <= l < entries.len() && (#[trigger] entries[l].0) == cands[i];
        assert(keys[l] == cands[i]);
    }
    cands.unique_seq_to_set();
    keys.lemma_cardinality_of_set();
    assert(cands.to_set().subset_of(keys.to_set())) by {
        assert forall|x: Seq<char>| cands.to_set().contains(x) implies keys.to_set().contains(
            x,
        ) by {
            assert(cands.contains(x));
            let i = choose|i: int| 0 <= i < cands.len() && cands[i] == x;
            assert(keys.contains(cands[i]));
        }
    }
    vstd::set_lib::lemma_len_subset(cands.to_set(), keys.to_set());
}

/// The first free candidate file name for a slug, as chosen by
/// reserve_project_file_name.
pub open spec fn reserved_name(dir: Seq<(Seq<char>, Seq<char>)>, slug: Seq<char>) -> Seq<char> {
    let k = choose|k: u64|
        1 <= k && !sm_has(dir, #[trigger] candidate_name(slug, k)) && (forall|j: u64|
            1 <= j < k ==> sm_has(dir, #[trigger] candidate_name(slug, j)));
    candidate_name(slug, k)
}

/// A candidate number that is free while all before it are taken pins the
/// reserved name.
proof fn lemma_reserved_unique(dir: Seq<(Seq<char>, Seq<char>)>, slug: Seq<char>, k: u64)
    requires
        1 <= k,
        !sm_has(dir, candidate_name(slug, k)),
        forall|j: u64| 1 <= j < k ==> sm_has(dir, #[trigger] candidate_name(slug, j)),
    ensures
        reserved_name(dir, slug) == candidate_name(slug, k),
        !sm_has(dir, reserved_name(dir, slug)),
{
    let k2 = choose|k2: u64|
        1 <= k2 && !sm_has(dir, #[trigger] candidate_name(slug, k2)) && (forall|j: u64|
            1 <= j < k2 ==> sm_has(dir, #[trigger] candidate_name(slug, j)));
    assert(1 <= k2 && !sm_has(dir, candidate_name(slug, k2)) && (forall|j: u64|
        1 <= j < k2 ==> sm_has(dir, #[trigger] candidate_name(slug, j))));
    if k < k2 {
        assert(sm_has(dir, candidate_name(slug, k)));
    } else if k2 < k {
        assert(sm_has(dir, candidate_name(slug, k2)));
    }
}

/// Reserves a collision-free file name for a slug: `slug.json` when free,
/// otherwise `slug__2.json`, `slug__3.json`, ... — the first name not
/// taken in the directory. Deterministic in the directory contents.
pub fn reserve_project_file_name(dir: &StrMap, preferred_slug: &str) -> (r: String)
    requires
        dir@.len() < usize::MAX,
    ensures
        r@ == reserved_name(dir@, preferred_slug@),
        !sm_has(dir@, r@),
{
    let n = dir.len();
    let mut k: usize = 1;
    loop
        invariant
            dir@.len() < usize::MAX,
            n == dir@.len(),
            1 <= k <= n + 1,
            forall|j: u64|
                1 <= j < k as u64 ==> sm_has(dir@, #[trigger] candidate_name(
                    preferred_slug@,
                    j,
                )),
        decreases n + 1 - k,
    {
        let name = candidate_string(preferred_slug, k as u64);
        if !dir.has(name.as_str()) {
            proof {
                lemma_reserved_unique(dir@, preferred_slug@, k as u64);
            }
            return name;
        }
        proof {
            assert(forall|j: u64|
                1 <= j <= k as u64 ==> sm_has(dir@, #[trigger] candidate_name(
                    preferred_slug@,
                    j,
                )));
            lemma_occupied_bound(dir@, preferred_slug@, k as u64);
        }
        k = k + 1;
    }
}

/// The in-order directory scan for a project identifier: the first JSON
/// file whose `id` field equals the identifier; a malformed JSON file ends
/// the scan with an error.
pub open spec fn scan_for_id(files: Seq<(Seq<char>, Seq<char>)>, id: Seq<char>) -> Result<
    Option<Seq<char>>,
    (),
>
    decreases files.len(),
{
    if files.len() == 0 {
        Ok(None)
    } else if !ends_with_seq(files[0].0, json_suffix()) {
        scan_for_id(files.drop_first(), id)
    } else {
        match json_of(files[0].1) {
            None => Err(()),
            Some(v) => if spec_str_field(v, "id"@) == Some(id) {
                Ok(Some(files[0].0))
            } else {
                scan_for_id(files.drop_first(), id)
            },
        }
    }
}

/// Whether the index maps the identifier to a file that still exists.
pub open spec fn is_cache_hit(
    dir: Seq<(Seq<char>, Seq<char>)>,
    idx: Seq<(Seq<char>, Seq<char>)>,
    id: Seq<char>,
) -> bool {
    match sm_get(idx, id) {
        Some(n) => sm_has(dir, n),
        None => false,
    }
}

/// What resolving an identifier yields: the still-existing cached file
/// name when the index has one, otherwise the result of a full scan.
pub open spec fn resolve_spec(
    dir: Seq<(Seq<char>, Seq<char>)>,
    idx: Seq<(Seq<char>, Seq<char>)>,
    id: Seq<char>,
) -> Result<Option<Seq<char>>, ()> {
    match sm_get(idx, id) {
        Some(n) => if sm_has(dir, n) {
            Ok(Some(n))
        } else {
            scan_for_id(dir, id)
        },
        None => scan_for_id(dir, id),
    }
}

/// The index after a resolution: repaired with the scanned file name when
/// the cache missed and the scan found one, otherwise unchanged.
pub open spec fn resolve_index_post(
    dir: Seq<(Seq<char>, Seq<char>)>,
    idx: Seq<(Seq<char>, Seq<char>)>,
    id: Seq<char>,
) -> Seq<(Seq<char>, Seq<char>)> {
    if is_cache_hit(dir, idx, id) {
        idx
    } else {
        match scan_for_id(dir, id) {
            Ok(Some(n)) => sm_put(idx, id, n),
            _ => idx,
        }
    }
}

/// A found scan result names a file of the directory.
pub proof fn lemma_scan_found_has(files: Seq<(Seq<char>, Seq<char>)>, id: Seq<char>)
    ensures
        scan_for_id(files, id) matches Ok(Some(n)) ==> sm_has(files, n),
    decreases files.len(),
{
    if files.len() > 0 {
        lemma_scan_found_has(files.drop_first(), id);
        match scan_for_id(files, id) {
            Ok(opt) => match opt {
                Some(n) => {
                    if sm_has(files.drop_first(), n) {
                        lemma_sm_has_exists(files.drop_first(), n);
                        let i = choose|i: int|
                            0 <= i < files.drop_first().len()
                                && (#[trigger] files.drop_first()[i].0) == n;
                        assert(files[i + 1].0 == n);
                        lemma_sm_has_exists(files, n);
                    } else {
                        assert(files[0].0 == n);
                        lemma_sm_has_exists(files, n);
                    }
                },
                None => {
                },
            },
            Err(_) => {
            },
        }
    }
}

/// Resolves a project identifier to its current file name. The cached name
/// is used when its file still exists; otherwise every JSON file in the
/// directory is scanned in order, comparing its `id` field, and the index
/// entry is repaired on a match. `None` only after a full scan fails.
pub fn resolve_project_path_by_id(dir: &StrMap, index: &mut StrMap, project_id: &str) -> (r:
    Result<Option<String>, ApiError>)
    ensures
        final(index)@ == resolve_index_post(dir@, old(index)@, project_id@),
        match r {
            Ok(opt) => match opt {
                Some(name) => resolve_spec(dir@, old(index)@, project_id@) == Ok::<_, ()>(
                    Some(name@),
                ),
                None => resolve_spec(dir@, old(index)@, project_id@) == Ok::<_, ()>(
                    None::<Seq<char>>,
                ),
            },
            Err(e) => resolve_spec(dir@, old(index)@, project_id@) is Err && e.code@
                == "PROJECT_READ_FAILED"@,
        },
{
    proof {
        reveal_strlit(".json");
        assert(".json"@ =~= json_suffix());
    }
    let cached: Option<String> = match index.get(project_id) {
        Some(name) => Some(name.clone()),
        None => None,
    };
    if let Some(name) = cached {
        if dir.has(name.as_str()) {
            return Ok(Some(name));
        }
    }
    proof {
        assert(!is_cache_hit(dir@, old(index)@, project_id@));
        assert(resolve_spec(dir@, old(index)@, project_id@) == scan_for_id(dir@, project_id@));
        assert(dir@.skip(0) =~= dir@);
    }
    let n = dir.len();
    let mut i: usize = 0;
    while i < n
        invariant
            n == dir@.len(),
            i <= n,
            index@ == old(index)@,
            !is_cache_hit(dir@, old(index)@, project_id@),
            resolve_spec(dir@, old(index)@, project_id@) == scan_for_id(dir@, project_id@),
            scan_for_id(dir@, project_id@) == scan_for_id(dir@.skip(i as int), project_id@),
            ".json"@ =~= json_suffix(),
        decreases n - i,
    {
        proof {
            assert(dir@.skip(i as int)[0] == dir@[i as int]);
            assert(dir@.skip(i as int).drop_first() =~= dir@.skip(i as int + 1));
        }
        let name = dir.key_at(i);
        if ends_with_str(name.as_str(), ".json") {
            let data = dir.val_at(i);
            match parse_json(data.as_str()) {
                None => {
                    return Err(api_error("PROJECT_READ_FAILED", "Invalid project JSON"));
                },
                Some(v) => {
                    let id_field = v.str_field("id");
                    let found = match id_field {
                        Some(s) => str_eq(s.as_str(), project_id),
                        None => false,
                    };
                    if found {
                        let name_owned = name.clone();
                        index.put(project_id.to_owned(), name_owned.clone());
                        return Ok(Some(name_owned));
                    }
                },
            }
        }
        i = i + 1;
    }
    proof {
        assert(dir@.skip(i as int).len() == 0);
    }
    Ok(None)
}

/// The slug recorded in a project document, when the document parses and
/// carries one.
/// Whether the document carries a usable slug: present, a string, and
/// non-empty. Saving requires one.
pub open spec fn has_nonempty_slug(json: Seq<char>) -> bool {
    doc_slug(json) matches Some(sl) && sl.len() > 0
}

pub open spec fn doc_slug(json: Seq<char>) -> Option<Seq<char>> {
    match json_of(json) {
        Some(v) => spec_str_field(v, "slug"@),
        None => None,
    }
}

/// The slug a project document records, for artifact cleanup after a
/// delete.
pub fn project_slug(text: &str) -> (r: Option<String>)
    ensures
        match r {
            Some(s) => doc_slug(text@) == Some(s@),
            None => doc_slug(text@) is None,
        },
{
    match parse_json(text) {
        Some(v) => v.str_field("slug"),
        None => None,
    }
}

/// Whether an existing file name is kept for a slug on save: it is already
/// the preferred `slug.json`, or carries a `slug__` collision prefix.
pub open spec fn preferred_keep(existing: Seq<char>, slug: Seq<char>) -> bool {
    existing == slug + json_suffix() || starts_with_seq(existing, slug + seq!['_', '_'])
}

/// The view of an optional borrowed string.
pub open spec fn opt_view(o: Option<&str>) -> Option<Seq<char>> {
    match o {
        Some(s) => Some(s@),
        None => None,
    }
}

/// What saving a document does: the new directory contents, the new index,
/// and the file name written, or failure. The target file is the resolved
/// current file when its name already fits the slug, else a freshly
/// reserved name; the document is written there, the old file (if
/// different) is removed, a diverging legacy identifier's file is removed,
/// and the index maps the identifier to the target last.
pub open spec fn save_spec(
    dir0: Seq<(Seq<char>, Seq<char>)>,
    idx0: Seq<(Seq<char>, Seq<char>)>,
    id: Seq<char>,
    json: Seq<char>,
    legacy: Option<Seq<char>>,
) -> Result<(Seq<(Seq<char>, Seq<char>)>, Seq<(Seq<char>, Seq<char>)>, Seq<char>), ()> {
    if !has_nonempty_slug(json) {
        Err(())
    } else {
        let slug = doc_slug(json)->0;
        match resolve_spec(dir0, idx0, id) {
            Err(_) => Err(()),
            Ok(existing_opt) => {
                let idx1 = resolve_index_post(dir0, idx0, id);
                let target = match existing_opt {
                    Some(e) => if preferred_keep(e, slug) {
                        e
                    } else {
                        reserved_name(dir0, slug)
                    },
                    None => reserved_name(dir0, slug),
                };
                let dir1 = sm_put(dir0, target, json);
                let dir2 = match existing_opt {
                    Some(e) => if e != target {
                        sm_remove(dir1, e)
                    } else {
                        dir1
                    },
                    None => dir1,
                };
                match legacy {
                    Some(lid) => if lid != id {
                        match resolve_spec(dir2, idx1, lid) {
                            Err(_) => Err(()),
                            Ok(Some(lp)) => Ok(
                                (
                                    sm_remove(dir2, lp),
                                    sm_put(resolve_index_post(dir2, idx1, lid), id, target),
                                    target,
                                ),
                            ),
                            Ok(None) => Ok(
                                (dir2, sm_put(resolve_index_post(dir2, idx1, lid), id, target), target),
                            ),
                        }
                    } else {
                        Ok((dir2, sm_put(idx1, id, target), target))
                    },
                    None => Ok((dir2, sm_put(idx1, id, target), target)),
                }
            },
        }
    }
}

/// Saves a project document: requires a non-empty parsed `slug`, reuses
/// the current file when its name still fits the slug and reserves a
/// collision-free one otherwise, writes the document there verbatim,
/// removes the old file on rename, removes a diverging legacy
/// identifier's file, and updates the index last.
pub fn save_project(
    dir: &mut StrMap,
    index: &mut StrMap,
    project_id: &str,
    json: &str,
    legacy_project_id: Option<&str>,
) -> (r: Result<(), ApiError>)
    requires
        old(dir)@.len() < usize::MAX,
    ensures
        match r {
            Ok(_) => {
                &&& save_spec(old(dir)@, old(index)@, project_id@, json@, opt_view(
                    legacy_project_id,
                )) matches Ok(t)
                &&& final(dir)@ == t.0
                &&& final(index)@ == t.1
            },
            Err(e) => {
                &&& save_spec(old(dir)@, old(index)@, project_id@, json@, opt_view(
                    legacy_project_id,
                )) is Err
                &&& (e.code@ == "PROJECT_SAVE_FAILED"@ || e.code@ == "PROJECT_READ_FAILED"@)
                &&& (!has_nonempty_slug(json@) ==> final(dir)@ == old(dir)@ && final(index)@
                    == old(index)@ && e.code@ == "PROJECT_SAVE_FAILED"@)
                &&& (has_nonempty_slug(json@) && resolve_spec(old(dir)@, old(index)@, project_id@)
                    is Err ==> final(dir)@ == old(dir)@ && final(index)@ == old(index)@
                    && e.code@ == "PROJECT_READ_FAILED"@)
            },
        },
{
    let parsed = match parse_json(json) {
        Some(v) => v,
        None => {
            return Err(api_error("PROJECT_SAVE_FAILED", "Invalid project JSON payload"));
        },
    };
    let slug = match parsed.str_field("slug") {
        Some(s) => s,
        None => {
            return Err(api_error("PROJECT_SAVE_FAILED", "Project slug is required."));
        },
    };
    if slug.as_str().unicode_len() == 0 {
        return Err(api_error("PROJECT_SAVE_FAILED", "Project slug is required."));
    }
    let existing = match resolve_project_path_by_id(dir, index, project_id) {
        Ok(opt) => opt,
        Err(e) => {
            return Err(e);
        },
    };
    let preferred = project_file_name_from_slug(slug.as_str());
    let mut slug_prefix = slug.clone();
    slug_prefix.append("__");
    proof {
        reveal_strlit("__");
        assert("__"@ =~= seq!['_', '_']);
    }
    let target: String = match &existing {
        Some(existing_name) => {
            if str_eq(existing_name.as_str(), preferred.as_str()) || crate::text::starts_with_str(
                existing_name.as_str(),
                slug_prefix.as_str(),
            ) {
                existing_name.clone()
            } else {
                reserve_project_file_name(dir, slug.as_str())
            }
        },
        None => reserve_project_file_name(dir, slug.as_str()),
    };
    dir.put(target.clone(), json.to_owned());
    if let Some(existing_name) = &existing {
        if !str_eq(existing_name.as_str(), target.as_str()) {
            dir.remove(existing_name.as_str());
        }
    }
    if let Some(legacy_id) = legacy_project_id {
        if !str_eq(legacy_id, project_id) {
            match resolve_project_path_by_id(dir, index, legacy_id) {
                Ok(Some(legacy_path)) => {
                    dir.remove(legacy_path.as_str());
                },
                Ok(None) => {
                },
                Err(e) => {
                    return Err(e);
                },
            }
        }
    }
    index.put(project_id.to_owned(), target);
    Ok(())
}

/// Deletes a project permanently: resolves the identifier, removes the
/// project file, and evicts the index entry. Returns the removed
/// document's contents, from which artifact cleanup is derived.
pub fn delete_project_permanently(dir: &mut StrMap, index: &mut StrMap, project_id: &str) -> (r:
    Result<String, ApiError>)
    ensures
        match r {
            Ok(text) => {
                &&& resolve_spec(old(dir)@, old(index)@, project_id@) matches Ok(Some(n))
                &&& sm_get(old(dir)@, n) == Some(text@)
                &&& final(dir)@ == sm_remove(old(dir)@, n)
                &&& final(index)@ == sm_remove(
                    resolve_index_post(old(dir)@, old(index)@, project_id@),
                    project_id@,
                )
            },
            Err(e) => {
                &&& !(resolve_spec(old(dir)@, old(index)@, project_id@) matches Ok(Some(_)))
                &&& final(dir)@ == old(dir)@
                &&& final(index)@ == resolve_index_post(old(dir)@, old(index)@, project_id@)
                &&& (e.code@ == "PROJECT_DELETE_FAILED"@ || e.code@ == "PROJECT_READ_FAILED"@)
                &&& (resolve_spec(old(dir)@, old(index)@, project_id@) == Ok::<_, ()>(
                    None::<Seq<char>>,
                ) ==> e.code@ == "PROJECT_DELETE_FAILED"@ && e.message@ == "Project not found: "@
                    + project_id@)
            },
        },
{
    let resolved = match resolve_project_path_by_id(dir, index, project_id) {
        Ok(opt) => opt,
        Err(e) => {
            return Err(e);
        },
    };
    match resolved {
        Some(name) => {
            proof {
                lemma_scan_found_has(old(dir)@, project_id@);
            }
            let text = match dir.get(name.as_str()) {
                Some(data) => data.clone(),
                None => {
                    proof {
                        assert(false);
                    }
                    String::new()
                },
            };
            dir.remove(name.as_str());
            index.remove(project_id);
            Ok(text)
        },
        None => {
            let mut m = "Project not found: ".to_owned();
            m.append(project_id);
            proof {
                assert(m@ =~= "Project not found: "@ + project_id@);
            }
            Err(api_error_msg("PROJECT_DELETE_FAILED", m))
        },
    }
}

/// Deletes a project; deletion is always permanent here.
pub fn delete_project(dir: &mut StrMap, index: &mut StrMap, project_id: &str) -> (r: Result<
    String,
    ApiError,
>)
    ensures
        match r {
            Ok(text) => {
                &&& resolve_spec(old(dir)@, old(index)@, project_id@) matches Ok(Some(n))
                &&& sm_get(old(dir)@, n) == Some(text@)
                &&& final(dir)@ == sm_remove(old(dir)@, n)
                &&& final(index)@ == sm_remove(
                    resolve_index_post(old(dir)@, old(index)@, project_id@),
                    project_id@,
                )
            },
            Err(e) => {
                &&& !(resolve_spec(old(dir)@, old(index)@, project_id@) matches Ok(Some(_)))
                &&& final(dir)@ == old(dir)@
                &&& final(index)@ == resolve_index_post(old(dir)@, old(index)@, project_id@)
                &&& (e.code@ == "PROJECT_DELETE_FAILED"@ || e.code@ == "PROJECT_READ_FAILED"@)
                &&& (resolve_spec(old(dir)@, old(index)@, project_id@) == Ok::<_, ()>(
                    None::<Seq<char>>,
                ) ==> e.code@ == "PROJECT_DELETE_FAILED"@ && e.message@ == "Project not found: "@
                    + project_id@)
            },
        },
{
    delete_project_permanently(dir, index, project_id)
}

/// Reads a project document by identifier: the contents of the file the
/// identifier resolves to, verbatim.
pub fn read_project(dir: &StrMap, index: &mut StrMap, project_id: &str) -> (r: Result<
    String,
    ApiError,
>)
    ensures
        final(index)@ == resolve_index_post(dir@, old(index)@, project_id@),
        match r {
            Ok(text) => resolve_spec(dir@, old(index)@, project_id@) matches Ok(Some(n))
                && sm_get(dir@, n) == Some(text@),
            Err(e) => {
                &&& !(resolve_spec(dir@, old(index)@, project_id@) matches Ok(Some(_)))
                &&& e.code@ == "PROJECT_READ_FAILED"@
                &&& (resolve_spec(dir@, old(index)@, project_id@) == Ok::<_, ()>(
                    None::<Seq<char>>,
                ) ==> e.message@ == "Project not found: "@ + project_id@)
            },
        },
{
    let resolved = match resolve_project_path_by_id(dir, index, project_id) {
        Ok(opt) => opt,
        Err(e) => {
            return Err(e);
        },
    };
    match resolved {
        Some(name) => {
            proof {
                lemma_scan_found_has(dir@, project_id@);
            }
            match dir.get(name.as_str()) {
                Some(data) => Ok(data.clone()),
                None => {
                    proof {
                        assert(false);
                    }
                    Err(api_error("PROJECT_READ_FAILED", "Project file missing"))
                },
            }
        },
        None => {
            let mut m = "Project not found: ".to_owned();
            m.append(project_id);
            proof {
                assert(m@ =~= "Project not found: "@ + project_id@);
            }
            Err(api_error_msg("PROJECT_READ_FAILED", m))
        },
    }
}

/// Law: saving a document and then reading the same identifier returns
/// the saved text byte-identically. The identifier resolves through the
/// index entry the save wrote, to the file holding exactly the saved text.
pub proof fn lemma_save_then_read(
    dir0: Seq<(Seq<char>, Seq<char>)>,
    idx0: Seq<(Seq<char>, Seq<char>)>,
    id: Seq<char>,
    json: Seq<char>,
    dirf: Seq<(Seq<char>, Seq<char>)>,
    idxf: Seq<(Seq<char>, Seq<char>)>,
    target: Seq<char>,
)
    requires
        save_spec(dir0, idx0, id, json, None) == Ok::<_, ()>((dirf, idxf, target)),
    ensures
        resolve_spec(dirf, idxf, id) == Ok::<_, ()>(Some(target)),
        sm_get(dirf, target) == Some(json),
{
    let slug = doc_slug(json)->0;
    let idx1 = resolve_index_post(dir0, idx0, id);
    let dir1 = sm_put(dir0, target, json);
    lemma_sm_get_put_same(dir0, target, json);
    crate::kv::lemma_sm_get_put_same(idx1, id, target);
    match resolve_spec(dir0, idx0, id) {
        Ok(existing_opt) => {
            match existing_opt {
                Some(e) => {
                    if e != target {
                        crate::kv::lemma_sm_remove_other(dir1, e, target);
                    }
                },
                None => {
                },
            }
        },
        Err(_) => {
        },
    }
    assert(sm_get(dirf, target) == Some(json));
    assert(sm_get(idxf, id) == Some(target));
    assert(sm_has(dirf, target));
}

/// Law: re-saving under a changed slug renames the file. The old file name
/// is gone, the identifier resolves to the new name, the new file holds
/// exactly the new text, and no file but the new one can carry the
/// identifier, provided the old directory carried it only in the resolved
/// file.
pub proof fn lemma_rename_leaves_no_old_file(
    dir0: Seq<(Seq<char>, Seq<char>)>,
    idx0: Seq<(Seq<char>, Seq<char>)>,
    id: Seq<char>,
    json: Seq<char>,
    dirf: Seq<(Seq<char>, Seq<char>)>,
    idxf: Seq<(Seq<char>, Seq<char>)>,
    target: Seq<char>,
    existing: Seq<char>,
)
    requires
        sm_wf(dir0),
        dir0.len() < usize::MAX,
        save_spec(dir0, idx0, id, json, None) == Ok::<_, ()>((dirf, idxf, target)),
        resolve_spec(dir0, idx0, id) == Ok::<_, ()>(Some(existing)),
        existing != target,
        forall|i: int|
            0 <= i < dir0.len() && spec_doc_id((#[trigger] dir0[i]).1) == Some(id) ==> dir0[i].0
                == existing,
    ensures
        !sm_has(dirf, existing),
        resolve_spec(dirf, idxf, id) == Ok::<_, ()>(Some(target)),
        sm_get(dirf, target) == Some(json),
        sm_wf(dirf),
        forall|i: int|
            0 <= i < dirf.len() && (#[trigger] dirf[i]).0 != target ==> spec_doc_id(dirf[i].1)
                != Some(id),
{
    let dir1 = sm_put(dir0, target, json);
    lemma_save_then_read(dir0, idx0, id, json, dirf, idxf, target);
    // target was freshly reserved, so the write appended a new entry
    lemma_reserved_is_free(dir0, idx0, id, json, target, existing);
    crate::kv::lemma_sm_has_exists(dir0, target);
    assert(dir1 == dir0.push((target, json)));
    assert(dirf == sm_remove(dir1, existing));
    lemma_removed_entry_facts(dir0, dirf, existing, target, json, id);
}

/// After appending a fresh target entry and removing the old file, the old
/// name is gone and only the target entry can carry the identifier.
proof fn lemma_removed_entry_facts(
    dir0: Seq<(Seq<char>, Seq<char>)>,
    dirf: Seq<(Seq<char>, Seq<char>)>,
    existing: Seq<char>,
    target: Seq<char>,
    json: Seq<char>,
    id: Seq<char>,
)
    requires
        sm_wf(dir0),
        !sm_has(dir0, target),
        existing != target,
        dirf == sm_remove(dir0.push((target, json)), existing),
        forall|i: int|
            0 <= i < dir0.len() && spec_doc_id((#[trigger] dir0[i]).1) == Some(id) ==> dir0[i].0
                == existing,
    ensures
        !sm_has(dirf, existing),
        sm_wf(dirf),
        forall|i: int|
            0 <= i < dirf.len() && (#[trigger] dirf[i]).0 != target ==> spec_doc_id(dirf[i].1)
                != Some(id),
{
    let dir1 = dir0.push((target, json));
    crate::kv::lemma_sm_has_exists(dir0, target);
    crate::kv::lemma_sm_put_wf(dir0, target, json);
    assert(dir1 == sm_put(dir0, target, json));
    crate::kv::lemma_sm_remove_wf(dir1, existing);
    crate::kv::lemma_sm_remove_absent(dir1, existing);
    crate::kv::lemma_sm_idx(dir1, existing);
    let i0 = crate::kv::sm_idx(dir1, existing);
    if !sm_has(dir1, existing) {
        assert(dirf == dir1);
        assert forall|i: int|
            0 <= i < dirf.len() && (#[trigger] dirf[i]).0 != target implies spec_doc_id(
            dirf[i].1,
        ) != Some(id) by {
            if i < dir0.len() {
                assert(dirf[i] == dir0[i]);
                if spec_doc_id(dir0[i].1) == Some(id) {
                    assert(dir0[i].0 == existing);
                    crate::kv::lemma_sm_has_exists(dir1, existing);
                    assert(dir1[i].0 == existing);
                }
            } else {
                assert(dirf[i] == (target, json));
            }
        }
    } else {
        assert(dirf == dir1.remove(i0));
        assert forall|i: int|
            0 <= i < dirf.len() && (#[trigger] dirf[i]).0 != target implies spec_doc_id(
            dirf[i].1,
        ) != Some(id) by {
            let si = if i < i0 {
                i
            } else {
                i + 1
            };
            assert(dirf[i] == dir1[si]);
            if si < dir0.len() {
                assert(dirf[i] == dir0[si]);
                if spec_doc_id(dir0[si].1) == Some(id) {
                    assert(dir0[si].0 == existing);
                    assert(dirf[i].0 == existing);
                    crate::kv::lemma_sm_has_exists(dirf, existing);
                }
            } else {
                assert(dirf[i] == (target, json));
            }
        }
    }
}

/// Law: when the saved document records the identifier it is saved under,
/// and the old directory carried that identifier only in the resolved
/// file, a slug rename leaves exactly one file carrying the identifier —
/// the freshly written one. The identifier stays uniquely resolvable.
pub proof fn lemma_rename_keeps_id_unique(
    dir0: Seq<(Seq<char>, Seq<char>)>,
    idx0: Seq<(Seq<char>, Seq<char>)>,
    id: Seq<char>,
    json: Seq<char>,
    dirf: Seq<(Seq<char>, Seq<char>)>,
    idxf: Seq<(Seq<char>, Seq<char>)>,
    target: Seq<char>,
    existing: Seq<char>,
)
    requires
        sm_wf(dir0),
        dir0.len() < usize::MAX,
        save_spec(dir0, idx0, id, json, None) == Ok::<_, ()>((dirf, idxf, target)),
        resolve_spec(dir0, idx0, id) == Ok::<_, ()>(Some(existing)),
        existing != target,
        forall|i: int|
            0 <= i < dir0.len() && spec_doc_id((#[trigger] dir0[i]).1) == Some(id) ==> dir0[i].0
                == existing,
        spec_doc_id(json) == Some(id),
    ensures
        sm_has(dirf, target),
        forall|i: int|
            0 <= i < dirf.len() ==> ((spec_doc_id((#[trigger] dirf[i]).1) == Some(id))
                <==> dirf[i].0 == target),
{
    lemma_rename_leaves_no_old_file(dir0, idx0, id, json, dirf, idxf, target, existing);
    lemma_save_then_read(dir0, idx0, id, json, dirf, idxf, target);
    lemma_sm_idx(dirf, target);
    let j0 = sm_idx(dirf, target);
    assert(dirf[j0].1 == json);
    assert forall|i: int|
        0 <= i < dirf.len() implies ((spec_doc_id((#[trigger] dirf[i]).1) == Some(id)) <==> dirf[
        i].0 == target) by {
        if dirf[i].0 == target {
            if i != j0 {
                assert(dirf[j0].0 == dirf[i].0);
            }
            assert(dirf[i].1 == json);
        }
    }
}

/// The identifier recorded in a document, when it parses and carries one.
pub open spec fn spec_doc_id(json: Seq<char>) -> Option<Seq<char>> {
    match json_of(json) {
        Some(v) => spec_str_field(v, "id"@),
        None => None,
    }
}

/// In a successful renaming save, the target is the freshly reserved name,
/// which no file of the old directory used.
proof fn lemma_reserved_is_free(
    dir0: Seq<(Seq<char>, Seq<char>)>,
    idx0: Seq<(Seq<char>, Seq<char>)>,
    id: Seq<char>,
    json: Seq<char>,
    target: Seq<char>,
    existing: Seq<char>,
)
    requires
        dir0.len() < usize::MAX,
        save_spec(dir0, idx0, id, json, None) matches Ok(t) && t.2 == target,
        resolve_spec(dir0, idx0, id) == Ok::<_, ()>(Some(existing)),
        existing != target,
    ensures
        !sm_has(dir0, target),
{
    let slug = doc_slug(json)->0;
    if preferred_keep(existing, slug) {
        assert(target == existing);
    } else {
        assert(target == reserved_name(dir0, slug));
        lemma_free_candidate_from(dir0, slug, 1);
        let k = choose|k: u64|
            1 <= k && !sm_has(dir0, #[trigger] candidate_name(slug, k)) && (forall|j: u64|
                1 <= j < k ==> sm_has(dir0, #[trigger] candidate_name(slug, j)));
        assert(!sm_has(dir0, candidate_name(slug, k)));
    }
}

/// Some candidate name at or above `k` is free while everything below it
/// is taken: the candidates are pairwise distinct, so the directory cannot
/// hold them all.
proof fn lemma_free_candidate_from(dir: Seq<(Seq<char>, Seq<char>)>, slug: Seq<char>, k: u64)
    requires
        dir.len() < usize::MAX,
        1 <= k <= dir.len() + 1,
        forall|j: u64| 1 <= j < k ==> sm_has(dir, #[trigger] candidate_name(slug, j)),
    ensures
        exists|k2: u64|
            1 <= k2 && !sm_has(dir, #[trigger] candidate_name(slug, k2)) && (forall|j: u64|
                1 <= j < k2 ==> sm_has(dir, #[trigger] candidate_name(slug, j))),
    decreases dir.len() + 1 - k,
{
    if !sm_has(dir, candidate_name(slug, k)) {
        assert(1 <= k && !sm_has(dir, candidate_name(slug, k)) && (forall|j: u64|
            1 <= j < k ==> sm_has(dir, #[trigger] candidate_name(slug, j))));
    } else {
        assert(forall|j: u64|
            1 <= j <= k ==> sm_has(dir, #[trigger] candidate_name(slug, j)));
        lemma_occupied_bound(dir, slug, k);
        assert(k <= dir.len());
        lemma_free_candidate_from(dir, slug, (k + 1) as u64);
    }
}


} // verus!
