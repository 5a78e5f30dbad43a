//! Listing of stored documents: project summaries sorted by most recent
//! update, and band options sorted by name.
use vstd::prelude::*;
use vstd::string::StringExecFns;
use crate::errors::{api_error, ApiError};
use crate::json::{json_of, parse_json, spec_str_field, JVal};
use crate::kv::{sm_put, StrMap};
use crate::sanitize::json_suffix;
use crate::sorting::{
    insert_asc, insert_desc, key_views, opt_key_view, opt_key_views, sort_asc, sort_asc_exec,
    sort_desc, sort_desc_exec, strip_keys, strip_keys_exec, strip_opt_keys, strip_opt_keys_exec,
};
use crate::text::{ends_with_str, lower_seq, str_to_chars, string_from_chars, to_lower};

verus! {

/// A read-only projection of a stored project document, for listing.
#[derive(Debug)]
pub struct ProjectSummary {
    pub id: String,
    pub slug: Option<String>,
    pub display_name: Option<String>,
    pub band_ref: Option<String>,
    pub event_date: Option<String>,
    pub event_venue: Option<String>,
    pub purpose: Option<String>,
    pub created_at: Option<String>,
    pub updated_at: Option<String>,
}

/// The view of a project summary: every field as its character content.
pub struct SummaryV {
    pub id: Seq<char>,
    pub slug: Option<Seq<char>>,
    pub display_name: Option<Seq<char>>,
    pub band_ref: Option<Seq<char>>,
    pub event_date: Option<Seq<char>>,
    pub event_venue: Option<Seq<char>>,
    pub purpose: Option<Seq<char>>,
    pub created_at: Option<Seq<char>>,
    pub updated_at: Option<Seq<char>>,
}

impl View for ProjectSummary {
    type V = SummaryV;

    open spec fn view(&self) -> SummaryV {
        SummaryV {
            id: self.id@,
            slug: opt_key_view(self.slug),
            display_name: opt_key_view(self.display_name),
            band_ref: opt_key_view(self.band_ref),
            event_date: opt_key_view(self.event_date),
            event_venue: opt_key_view(self.event_venue),
            purpose: opt_key_view(self.purpose),
            created_at: opt_key_view(self.created_at),
            updated_at: opt_key_view(self.updated_at),
        }
    }
}

/// The suffix appended to a bare event date to read it as a day-granularity
/// timestamp.
pub open spec fn day_suffix() -> Seq<char> {
    seq!['T', '0', '0', ':', '0', '0', ':', '0', '0', 'Z']
}

/// The summary a stored file yields: recognized fields are taken from the
/// parsed document; a missing `id` falls back to the file's base name; the
/// effective update time falls back to the event date at day granularity.
pub open spec fn summary_of(name: Seq<char>, v: JVal) -> SummaryV {
    SummaryV {
        id: match spec_str_field(v, "id"@) {
            Some(s) => s,
            None => name.take(name.len() - json_suffix().len()),
        },
        slug: spec_str_field(v, "slug"@),
        display_name: spec_str_field(v, "displayName"@),
        band_ref: spec_str_field(v, "bandRef"@),
        event_date: spec_str_field(v, "eventDate"@),
        event_venue: spec_str_field(v, "eventVenue"@),
        purpose: spec_str_field(v, "purpose"@),
        created_at: spec_str_field(v, "createdAt"@),
        updated_at: match spec_str_field(v, "updatedAt"@) {
            Some(u) => Some(u),
            None => match spec_str_field(v, "eventDate"@) {
                Some(d) => Some(d + day_suffix()),
                None => None,
            },
        },
    }
}

/// The summaries of every JSON file of the directory, in scan order; a
/// malformed file ends the listing with an error.
pub open spec fn summaries_scan(files: Seq<(Seq<char>, Seq<char>)>) -> Result<Seq<SummaryV>, ()>
    decreases files.len(),
{
    if files.len() == 0 {
        Ok(Seq::empty())
    } else if !crate::text::ends_with_seq(files[0].0, json_suffix()) {
        summaries_scan(files.drop_first())
    } else {
        match json_of(files[0].1) {
            None => Err(()),
            Some(v) => match summaries_scan(files.drop_first()) {
                Ok(rest) => Ok(seq![summary_of(files[0].0, v)] + rest),
                Err(e) => Err(e),
            },
        }
    }
}

/// The index after a listing: every JSON file seen before a parse error
/// maps its summary identifier to its file name.
pub open spec fn listing_index(
    files: Seq<(Seq<char>, Seq<char>)>,
    idx: Seq<(Seq<char>, Seq<char>)>,
) -> Seq<(Seq<char>, Seq<char>)>
    decreases files.len(),
{
    if files.len() == 0 {
        idx
    } else if !crate::text::ends_with_seq(files[0].0, json_suffix()) {
        listing_index(files.drop_first(), idx)
    } else {
        match json_of(files[0].1) {
            None => idx,
            Some(v) => listing_index(
                files.drop_first(),
                sm_put(idx, summary_of(files[0].0, v).id, files[0].0),
            ),
        }
    }
}

/// The summaries keyed by their effective update time, for sorting.
pub open spec fn keyed_summaries(svs: Seq<SummaryV>) -> Seq<(Option<Seq<char>>, SummaryV)> {
    svs.map_values(|sv: SummaryV| (sv.updated_at, sv))
}

/// The views of listed summaries.
pub open spec fn summary_views(s: Seq<ProjectSummary>) -> Seq<SummaryV> {
    s.map_values(|p: ProjectSummary| p@)
}

/// Lists every stored project as a summary, sorted descending by effective
/// update time (the explicit update time, or the event date at day
/// granularity), repairing the index along the way. A malformed document
/// fails the listing; a missing directory is an empty model and yields an
/// empty list.
pub fn list_projects(dir: &StrMap, index: &mut StrMap) -> (r: Result<Vec<ProjectSummary>, ApiError>)
    ensures
        final(index)@ == listing_index(dir@, old(index)@),
        match r {
            Ok(list) => summaries_scan(dir@) matches Ok(svs) && summary_views(list@)
                == strip_opt_keys(sort_desc(keyed_summaries(svs))),
            Err(e) => summaries_scan(dir@) is Err && e.code@ == "PROJECT_LIST_FAILED"@,
        },
{
    proof {
        reveal_strlit(".json");
        assert(".json"@ =~= json_suffix());
        assert(dir@.skip(0) =~= dir@);
    }
    let mut pairs: Vec<(Option<String>, ProjectSummary)> = Vec::new();
    let n = dir.len();
    let mut i: usize = 0;
    while i < n
        invariant
            n == dir@.len(),
            i <= n,
            ".json"@ =~= json_suffix(),
            listing_index(dir@, old(index)@) == listing_index(dir@.skip(i as int), index@),
            forall|j: int|
                0 <= j < pairs@.len() ==> opt_key_view((#[trigger] pairs@[j]).0)
                    == pairs@[j].1@.updated_at,
            match summaries_scan(dir@.skip(i as int)) {
                Ok(rest) => summaries_scan(dir@) == Ok::<_, ()>(
                    summary_views(crate::sorting::strip_opt_keys(opt_key_views(pairs@))) + rest,
                ),
                Err(_) => summaries_scan(dir@) is Err,
            },
        decreases n - i,
    {
        proof {
            assert(dir@.skip(i as int)[0] == dir@[i as int]);
            assert(dir@.skip(i as int).drop_first() =~= dir@.skip(i as int + 1));
        }
        let name = dir.key_at(i);
        if ends_with_str(name.as_str(), ".json") {
            let data = dir.val_at(i);
            match parse_json(data.as_str()) {
                None => {
                    return Err(api_error("PROJECT_LIST_FAILED", "Invalid project JSON"));
                },
                Some(v) => {
                    let ghost prev_pairs = pairs@;
                    let id: String = match v.str_field("id") {
                        Some(s) => s,
                        None => {
                            let nc = str_to_chars(name.as_str());
                            let mut stem: Vec<char> = Vec::new();
                            let mut k: usize = 0;
                            while k < nc.len() - 5
                                invariant
                                    nc@.len() >= 5,
                                    k <= nc@.len() - 5,
                                    stem@ =~= nc@.take(k as int),
                                decreases nc@.len() - 5 - k,
                            {
                                stem.push(nc[k]);
                                k = k + 1;
                            }
                            string_from_chars(&stem)
                        },
                    };
                    let event_date = v.str_field("eventDate");
                    let updated_at: Option<String> = match v.str_field("updatedAt") {
                        Some(u) => Some(u),
                        None => match &event_date {
                            Some(d) => {
                                let mut u = d.clone();
                                u.append("T00:00:00Z");
                                proof {
                                    reveal_strlit("T00:00:00Z");
                                    assert("T00:00:00Z"@ =~= day_suffix());
                                }
                                Some(u)
                            },
                            None => None,
                        },
                    };
                    let key: Option<String> = match &updated_at {
                        Some(u) => Some(u.clone()),
                        None => None,
                    };
                    index.put(id.clone(), name.clone());
                    let summary = ProjectSummary {
                        id,
                        slug: v.str_field("slug"),
                        display_name: v.str_field("displayName"),
                        band_ref: v.str_field("bandRef"),
                        event_date,
                        event_venue: v.str_field("eventVenue"),
                        purpose: v.str_field("purpose"),
                        created_at: v.str_field("createdAt"),
                        updated_at,
                    };
                    proof {
                        assert(summary@ == summary_of(dir@[i as int].0, v));
                    }
                    pairs.push((key, summary));
                    proof {
                        assert(strip_opt_keys(opt_key_views(pairs@)) =~= strip_opt_keys(
                            opt_key_views(prev_pairs),
                        ).push(summary));
                        assert(summary_views(strip_opt_keys(opt_key_views(pairs@))) =~=
                            summary_views(strip_opt_keys(opt_key_views(prev_pairs))).push(
                            summary@,
                        ));
                        match summaries_scan(dir@.skip(i as int + 1)) {
                            Ok(rest) => {
                                assert(summary_views(
                                    strip_opt_keys(opt_key_views(prev_pairs)),
                                ).push(summary@) + rest =~= summary_views(
                                    strip_opt_keys(opt_key_views(prev_pairs)),
                                ) + (seq![summary_of(dir@[i as int].0, v)] + rest));
                            },
                            Err(_) => {
                            },
                        }
                    }
                },
            }
        }
        i = i + 1;
    }
    proof {
        assert(dir@.skip(i as int).len() == 0);
        assert(summary_views(strip_opt_keys(opt_key_views(pairs@))) + Seq::<SummaryV>::empty()
            =~= summary_views(strip_opt_keys(opt_key_views(pairs@))));
    }
    let ghost all_pairs = pairs@;
    let sorted = sort_desc_exec(pairs);
    let list = strip_opt_keys_exec(sorted);
    proof {
        lemma_sort_desc_summary_views(opt_key_views(all_pairs));
        assert(keyed_summaries(summary_views(strip_opt_keys(opt_key_views(all_pairs)))) =~=
            opt_key_views(all_pairs).map_values(
            |p: (Option<Seq<char>>, ProjectSummary)| (p.0, p.1@),
        ));
    }
    Ok(list)
}

/// A band offered for selection: identity, display name, and optional code.
#[derive(Debug)]
pub struct BandOption {
    pub id: String,
    pub name: String,
    pub code: Option<String>,
}

/// The view of a band option.
pub struct BandOptionV {
    pub id: Seq<char>,
    pub name: Seq<char>,
    pub code: Option<Seq<char>>,
}

impl View for BandOption {
    type V = BandOptionV;

    open spec fn view(&self) -> BandOptionV {
        BandOptionV { id: self.id@, name: self.name@, code: opt_key_view(self.code) }
    }
}

/// The band options of every JSON file of the directory, in scan order:
/// records without an `id` or `name` are skipped; a malformed file ends the
/// listing with an error.
pub open spec fn band_options_scan(files: Seq<(Seq<char>, Seq<char>)>) -> Result<
    Seq<BandOptionV>,
    (),
>
    decreases files.len(),
{
    if files.len() == 0 {
        Ok(Seq::empty())
    } else if !crate::text::ends_with_seq(files[0].0, json_suffix()) {
        band_options_scan(files.drop_first())
    } else {
        match json_of(files[0].1) {
            None => Err(()),
            Some(v) => {
                let id = spec_str_field(v, "id"@);
                let name = spec_str_field(v, "name"@);
                match band_options_scan(files.drop_first()) {
                    Ok(rest) => {
                        if (id matches Some(i) && i.len() > 0) && (name matches Some(m) && m.len()
                            > 0) {
                            Ok(
                                seq![
                                    BandOptionV {
                                        id: id->0,
                                        name: name->0,
                                        code: spec_str_field(v, "code"@),
                                    },
                                ] + rest,
                            )
                        } else {
                            Ok(rest)
                        }
                    },
                    Err(e) => Err(e),
                }
            },
        }
    }
}

/// The band options keyed by lower-cased name, for sorting.
pub open spec fn keyed_band_options(bvs: Seq<BandOptionV>) -> Seq<(Seq<char>, BandOptionV)> {
    bvs.map_values(|bv: BandOptionV| (lower_seq(bv.name), bv))
}

/// The views of listed band options.
pub open spec fn band_option_views(s: Seq<BandOption>) -> Seq<BandOptionV> {
    s.map_values(|b: BandOption| b@)
}

/// The view of a band option, as a spec function for mapping.
pub open spec fn band_option_view_fn() -> spec_fn(BandOption) -> BandOptionV {
    |b: BandOption| b@
}

/// Lists the bands stored as JSON documents, sorted by lower-cased name;
/// records without an identifier or name are skipped, and a malformed
/// document fails the listing.
pub fn list_bands(dir: &StrMap) -> (r: Result<Vec<BandOption>, ApiError>)
    ensures
        match r {
            Ok(list) => band_options_scan(dir@) matches Ok(bvs) && band_option_views(list@)
                == strip_keys(sort_asc(keyed_band_options(bvs))),
            Err(e) => band_options_scan(dir@) is Err && e.code@ == "BAND_LIST_FAILED"@,
        },
{
    proof {
        reveal_strlit(".json");
        assert(".json"@ =~= json_suffix());
        assert(dir@.skip(0) =~= dir@);
    }
    let mut pairs: Vec<(String, BandOption)> = Vec::new();
    let n = dir.len();
    let mut i: usize = 0;
    while i < n
        invariant
            n == dir@.len(),
            i <= n,
            ".json"@ =~= json_suffix(),
            forall|j: int|
                0 <= j < pairs@.len() ==> (#[trigger] pairs@[j]).0@ == lower_seq(pairs@[j].1@.name),
            match band_options_scan(dir@.skip(i as int)) {
                Ok(rest) => band_options_scan(dir@) == Ok::<_, ()>(
                    band_option_views(crate::sorting::strip_keys(key_views(pairs@))) + rest,
                ),
                Err(_) => band_options_scan(dir@) is Err,
            },
        decreases n - i,
    {
        proof {
            assert(dir@.skip(i as int)[0] == dir@[i as int]);
            assert(dir@.skip(i as int).drop_first() =~= dir@.skip(i as int + 1));
        }
        let name = dir.key_at(i);
        if ends_with_str(name.as_str(), ".json") {
            let data = dir.val_at(i);
            match parse_json(data.as_str()) {
                None => {
                    return Err(api_error("BAND_LIST_FAILED", "Invalid band JSON"));
                },
                Some(v) => {
                    let ghost prev_pairs = pairs@;
                    let band_id = v.str_field("id");
                    let band_name = v.str_field("name");
                    let keep = match (&band_id, &band_name) {
                        (Some(bi), Some(bn)) => bi.as_str().unicode_len() > 0
                            && bn.as_str().unicode_len() > 0,
                        _ => false,
                    };
                    if keep {
                        let bi = match band_id {
                            Some(x) => x,
                            None => {
                                proof {
                                    assert(false);
                                }
                                String::new()
                            },
                        };
                        let bn = match band_name {
                            Some(x) => x,
                            None => {
                                proof {
                                    assert(false);
                                }
                                String::new()
                            },
                        };
                        let key = to_lower(bn.as_str());
                        let opt = BandOption { id: bi, name: bn, code: v.str_field("code") };
                        pairs.push((key, opt));
                        proof {
                            assert(strip_keys(key_views(pairs@)) =~= strip_keys(
                                key_views(prev_pairs),
                            ).push(opt));
                            assert(band_option_views(strip_keys(key_views(pairs@))) =~=
                                band_option_views(strip_keys(key_views(prev_pairs))).push(opt@));
                            match band_options_scan(dir@.skip(i as int + 1)) {
                                Ok(rest) => {
                                    assert(band_option_views(
                                        strip_keys(key_views(prev_pairs)),
                                    ).push(opt@) + rest =~= band_option_views(
                                        strip_keys(key_views(prev_pairs)),
                                    ) + (seq![opt@] + rest));
                                },
                                Err(_) => {
                                },
                            }
                        }
                    }
                },
            }
        }
        i = i + 1;
    }
    proof {
        assert(dir@.skip(i as int).len() == 0);
        assert(band_option_views(strip_keys(key_views(pairs@))) + Seq::<BandOptionV>::empty()
            =~= band_option_views(strip_keys(key_views(pairs@))));
    }
    let ghost all_pairs = pairs@;
    let sorted = sort_asc_exec(pairs);
    let list = strip_keys_exec(sorted);
    proof {
        crate::sorting::lemma_sort_asc_map(key_views(all_pairs), band_option_view_fn());
        assert(keyed_band_options(band_option_views(strip_keys(key_views(all_pairs)))) =~=
            crate::sorting::map_payload(key_views(all_pairs), band_option_view_fn()));
        assert(band_option_views(list@) =~= strip_keys(
            crate::sorting::map_payload(sort_asc(key_views(all_pairs)), band_option_view_fn()),
        ));
    }
    Ok(list)
}

/// The payload views of optionally keyed summaries.
pub open spec fn desc_pair_views(s: Seq<(Option<Seq<char>>, ProjectSummary)>) -> Seq<
    (Option<Seq<char>>, SummaryV),
> {
    s.map_values(|p: (Option<Seq<char>>, ProjectSummary)| (p.0, p.1@))
}

/// Sorting commutes with taking summary views: the sorted views are the
/// views of the sorted summaries.
proof fn lemma_sort_desc_summary_views(s: Seq<(Option<Seq<char>>, ProjectSummary)>)
    ensures
        desc_pair_views(sort_desc(s)) == sort_desc(desc_pair_views(s)),
        summary_views(strip_opt_keys(sort_desc(s))) == strip_opt_keys(sort_desc(desc_pair_views(s))),
    decreases s.len(),
{
    if s.len() == 0 {
        assert(desc_pair_views(sort_desc(s)) =~= sort_desc(desc_pair_views(s)));
    } else {
        lemma_sort_desc_summary_views(s.drop_last());
        assert(desc_pair_views(s.drop_last()) =~= desc_pair_views(s).drop_last());
        lemma_insert_desc_summary_views(sort_desc(s.drop_last()), s.last());
        assert(desc_pair_views(s).last() == (s.last().0, s.last().1@));
        assert(desc_pair_views(sort_desc(s)) =~= sort_desc(desc_pair_views(s)));
    }
    assert(summary_views(strip_opt_keys(sort_desc(s))) =~= strip_opt_keys(
        desc_pair_views(sort_desc(s)),
    ));
}

/// Insertion commutes with taking summary views.
proof fn lemma_insert_desc_summary_views(
    s: Seq<(Option<Seq<char>>, ProjectSummary)>,
    x: (Option<Seq<char>>, ProjectSummary),
)
    ensures
        desc_pair_views(insert_desc(s, x)) == insert_desc(desc_pair_views(s), (x.0, x.1@)),
    decreases s.len(),
{
    if s.len() == 0 {
        assert(desc_pair_views(insert_desc(s, x)) =~= insert_desc(desc_pair_views(s), (x.0, x.1@)));
    } else {
        assert(desc_pair_views(s).last() == (s.last().0, s.last().1@));
        if crate::sorting::opt_key_ge(s.last().0, x.0) {
            assert(desc_pair_views(insert_desc(s, x)) =~= insert_desc(
                desc_pair_views(s),
                (x.0, x.1@),
            ));
        } else {
            lemma_insert_desc_summary_views(s.drop_last(), x);
            assert(desc_pair_views(s.drop_last()) =~= desc_pair_views(s).drop_last());
            assert(desc_pair_views(insert_desc(s, x)) =~= insert_desc(
                desc_pair_views(s),
                (x.0, x.1@),
            ));
        }
    }
}

} // verus!
