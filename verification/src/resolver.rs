//! Band setup resolution: finding the band record, building the global
//! per-role roster of musicians, inferring monitoring defaults, applying a
//! band-specific membership restriction, normalizing legacy default-lineup
//! keys, decoding headcount constraints, and flagging missing references.
use vstd::prelude::*;
use vstd::string::StringExecFns;
use crate::errors::{api_error, api_error_msg, ApiError};
use crate::json::{json_of, parse_json, spec_get, spec_str_field, JVal};
use crate::kv::{sm_get, sm_has, StrMap};
use crate::library::RoleCountConstraint;
use crate::text::{contains_seq, contains_str, lower_seq, to_lower, trim_spec, trim_str};

verus! {

/// The kind of monitoring a musician prefers.
#[derive(PartialEq, Eq, Structural, Clone, Copy, Debug)]
pub enum MonitorType {
    IemWireless,
    IemWired,
    Wedge,
}

/// Mono or stereo monitoring.
#[derive(PartialEq, Eq, Structural, Clone, Copy, Debug)]
pub enum MonitorMode {
    Stereo,
    Mono,
}

/// An inferred monitoring configuration.
#[derive(PartialEq, Eq, Structural, Clone, Copy, Debug)]
pub struct MonitoringDefault {
    pub monitor_type: MonitorType,
    pub mode: MonitorMode,
    pub mix_count: u64,
}

/// What a free-text monitor preset reference classifies to: "wireless"
/// anywhere means wireless in-ears, otherwise "iem" means wired in-ears,
/// otherwise a wedge; "stereo" anywhere selects stereo; a wedge carries one
/// mix, in-ears two. Matching is case-insensitive on the trimmed text.
pub open spec fn spec_infer_monitoring(r: Seq<char>) -> MonitoringDefault {
    let n = lower_seq(trim_spec(r));
    let t = if contains_seq(n, "wireless"@) {
        MonitorType::IemWireless
    } else if contains_seq(n, "iem"@) {
        MonitorType::IemWired
    } else {
        MonitorType::Wedge
    };
    MonitoringDefault {
        monitor_type: t,
        mode: if contains_seq(n, "stereo"@) {
            MonitorMode::Stereo
        } else {
            MonitorMode::Mono
        },
        mix_count: if t is Wedge {
            1
        } else {
            2
        },
    }
}

/// Classifies a free-text monitor preset reference into a monitoring
/// configuration.
pub fn infer_monitoring_default_from_ref(monitor_ref: &str) -> (r: MonitoringDefault)
    ensures
        r == spec_infer_monitoring(monitor_ref@),
{
    let trimmed = trim_str(monitor_ref);
    let normalized = to_lower(trimmed.as_str());
    let monitor_type = if contains_str(normalized.as_str(), "wireless") {
        MonitorType::IemWireless
    } else if contains_str(normalized.as_str(), "iem") {
        MonitorType::IemWired
    } else {
        MonitorType::Wedge
    };
    let mode = if contains_str(normalized.as_str(), "stereo") {
        MonitorMode::Stereo
    } else {
        MonitorMode::Mono
    };
    let mix_count: u64 = match monitor_type {
        MonitorType::Wedge => 1,
        _ => 2,
    };
    MonitoringDefault { monitor_type, mode, mix_count }
}

/// The view of a JSON object's entry list: key contents paired with values.
pub open spec fn lineup_view(entries: Seq<(String, JVal)>) -> Seq<(Seq<char>, JVal)> {
    entries.map_values(|e: (String, JVal)| (e.0@, e.1))
}

/// Whether a key is one of the vocal-lineup spellings folded by
/// normalization.
pub open spec fn is_vocs_key(k: Seq<char>) -> bool {
    k == "lead_vocs"@ || k == "lead_voc"@ || k == "vocs"@
}

/// The entries that are not vocal-lineup spellings, in order.
pub open spec fn lineup_base(s: Seq<(Seq<char>, JVal)>) -> Seq<(Seq<char>, JVal)>
    decreases s.len(),
{
    if s.len() == 0 {
        Seq::empty()
    } else if is_vocs_key(s.last().0) {
        lineup_base(s.drop_last())
    } else {
        lineup_base(s.drop_last()).push(s.last())
    }
}

/// The vocal value the normalization keeps: the legacy `lead_vocs` entry
/// wins, then `lead_voc`, then an existing `vocs` entry.
pub open spec fn lineup_vocs_value(s: Seq<(Seq<char>, JVal)>) -> Option<JVal> {
    match sm_get(s, "lead_vocs"@) {
        Some(v) => Some(v),
        None => match sm_get(s, "lead_voc"@) {
            Some(v) => Some(v),
            None => sm_get(s, "vocs"@),
        },
    }
}

/// The normalized entry list: all vocal-lineup spellings are folded into
/// one canonical `vocs` entry at the end, other entries keep their order.
pub open spec fn normalize_lineup_entries(s: Seq<(Seq<char>, JVal)>) -> Seq<(Seq<char>, JVal)> {
    match lineup_vocs_value(s) {
        Some(v) => lineup_base(s).push(("vocs"@, v)),
        None => lineup_base(s),
    }
}

/// What normalizing a default-lineup value yields: objects have their
/// vocal-lineup keys folded; anything else passes through unchanged.
pub open spec fn normalize_lineup_post(input: Option<JVal>, r: Option<JVal>) -> bool {
    match input {
        Some(JVal::Obj(e)) => r matches Some(JVal::Obj(e2)) && lineup_view(e2@)
            == normalize_lineup_entries(lineup_view(e@)),
        _ => r == input,
    }
}

/// Folds the legacy vocal-lineup key spellings (`lead_vocs`, `lead_voc`)
/// of a default-lineup object into the single canonical `vocs` key; the
/// legacy value wins over an existing `vocs` value. Non-objects pass
/// through unchanged.
#[verifier::loop_isolation(false)]
pub fn normalize_default_lineup_keys(default_lineup: Option<JVal>) -> (r: Option<JVal>)
    ensures
        normalize_lineup_post(default_lineup, r),
{
    proof {
        lemma_vocs_keys_distinct();
        reveal_strlit("lead_vocs");
        reveal_strlit("lead_voc");
        assert("lead_vocs"@.len() == 9);
        assert("lead_voc"@.len() == 8);
        assert("lead_vocs"@ != "lead_voc"@);
    }
    let entries: Vec<(String, JVal)> = match default_lineup {
        Some(JVal::Obj(e)) => e,
        other => {
            return other;
        },
    };
    let ghost orig = lineup_view(entries@);
    let mut entries = entries;
    let mut base: Vec<(String, JVal)> = Vec::new();
    let mut lead_vocs: Option<JVal> = None;
    let mut lead_voc: Option<JVal> = None;
    let mut vocs: Option<JVal> = None;
    while entries.len() > 0
        invariant
            entries@.len() <= orig.len(),
            lineup_view(entries@) =~= orig.skip(orig.len() - entries@.len()),
            lineup_view(base@) =~= lineup_base(orig.take(orig.len() - entries@.len())),
            lead_vocs == sm_get(orig.take(orig.len() - entries@.len()), "lead_vocs"@),
            lead_voc == sm_get(orig.take(orig.len() - entries@.len()), "lead_voc"@),
            vocs == sm_get(orig.take(orig.len() - entries@.len()), "vocs"@),
        decreases entries@.len(),
    {
        let ghost done = orig.len() - entries@.len();
        proof {
            assert(lineup_view(entries@)[0] == orig.skip(done as int)[0]);
            assert(orig.skip(done as int)[0] == orig[done as int]);
            assert(orig.take(done + 1).drop_last() =~= orig.take(done as int));
            assert(orig.take(done + 1).last() == orig[done as int]);
            lemma_sm_get_extend(orig, done as int, "lead_vocs"@);
            lemma_sm_get_extend(orig, done as int, "lead_voc"@);
            lemma_sm_get_extend(orig, done as int, "vocs"@);
        }
        let ghost prev_entries = entries@;
        let e = entries.remove(0);
        proof {
            assert(lineup_view(prev_entries)[0] == (prev_entries[0].0@, prev_entries[0].1));
            assert((e.0@, e.1) == orig[done as int]);
            assert forall|j: int| 0 <= j < entries@.len() implies lineup_view(entries@)[j]
                == orig[done + 1 + j] by {
                assert(entries@[j] == prev_entries[j + 1]);
                assert(lineup_view(prev_entries)[j + 1] == orig.skip(done as int)[j + 1]);
            }
        }
        let k = e.0;
        let v = e.1;
        if crate::text::str_eq(k.as_str(), "lead_vocs") {
            if lead_vocs.is_none() {
                lead_vocs = Some(v);
            }
        } else if crate::text::str_eq(k.as_str(), "lead_voc") {
            if lead_voc.is_none() {
                lead_voc = Some(v);
            }
        } else if crate::text::str_eq(k.as_str(), "vocs") {
            if vocs.is_none() {
                vocs = Some(v);
            }
        } else {
            base.push((k, v));
        }
        proof {
            assert(lineup_view(entries@) =~= orig.skip(orig.len() - entries@.len()));
            assert(lineup_view(base@) =~= lineup_base(orig.take(orig.len() - entries@.len())));
        }
    }
    proof {
        assert(orig.take(orig.len() as int) =~= orig);
    }
    let picked: Option<JVal> = match lead_vocs {
        Some(v) => Some(v),
        None => match lead_voc {
            Some(v) => Some(v),
            None => vocs,
        },
    };
    let mut out = base;
    match picked {
        Some(v) => {
            let ghost prev = out@;
            out.push(("vocs".to_owned(), v));
            proof {
                assert(lineup_view(out@) =~= lineup_view(prev).push(("vocs"@, v)));
            }
            Some(JVal::Obj(out))
        },
        None => Some(JVal::Obj(out)),
    }
}

/// Looking a key up in one more entry: the earlier entries win.
proof fn lemma_sm_get_extend(orig: Seq<(Seq<char>, JVal)>, done: int, k: Seq<char>)
    requires
        0 <= done < orig.len(),
    ensures
        sm_get(orig.take(done + 1), k) == if sm_has(orig.take(done), k) {
            sm_get(orig.take(done), k)
        } else if orig[done].0 == k {
            Some(orig[done].1)
        } else {
            None::<JVal>
        },
{
    let p = orig.take(done);
    let q = orig.take(done + 1);
    assert(q =~= p.push(orig[done]));
    crate::kv::lemma_sm_idx(p, k);
    crate::kv::lemma_sm_idx(q, k);
    if sm_has(p, k) {
        let i = crate::kv::sm_idx(p, k);
        assert(q[i].0 == k);
        assert(forall|j: int| 0 <= j < i ==> q[j] == p[j]);
        crate::kv::lemma_sm_idx_unique(q, k, i);
    } else if orig[done].0 == k {
        assert(q[done].0 == k);
        assert forall|j: int| 0 <= j < done implies q[j].0 != k by {
            assert(q[j] == p[j]);
        }
        crate::kv::lemma_sm_idx_unique(q, k, done);
    } else {
        crate::kv::lemma_sm_has_exists(q, k);
        if sm_has(q, k) {
            let i = choose|i: int| 0 <= i < q.len() && (#[trigger] q[i].0) == k;
            if i < done {
                assert(p[i].0 == k);
                crate::kv::lemma_sm_has_exists(p, k);
            }
        }
    }
}

/// Law: normalization is idempotent — a normalized lineup object passes
/// through normalization unchanged.
pub proof fn lemma_normalize_idempotent(s: Seq<(Seq<char>, JVal)>)
    ensures
        normalize_lineup_entries(normalize_lineup_entries(s)) == normalize_lineup_entries(s),
{
    let base = lineup_base(s);
    lemma_lineup_base_no_vocs(s);
    match lineup_vocs_value(s) {
        Some(v) => {
            let n = base.push(("vocs"@, v));
            lemma_base_of_clean_push(base, ("vocs"@, v));
            assert(lineup_base(n) == base);
            assert(!sm_has(n, "lead_vocs"@) && !sm_has(n, "lead_voc"@)) by {
                crate::kv::lemma_sm_has_exists(n, "lead_vocs"@);
                crate::kv::lemma_sm_has_exists(n, "lead_voc"@);
                assert(n[n.len() - 1].0 == "vocs"@);
                assert(forall|i: int| 0 <= i < base.len() ==> n[i] == base[i]);
                lemma_vocs_keys_distinct();
            }
            assert(sm_get(n, "vocs"@) == Some(v)) by {
                crate::kv::lemma_sm_idx(base, "vocs"@);
                crate::kv::lemma_sm_has_exists(base, "vocs"@);
                assert(n[base.len() as int].0 == "vocs"@);
                assert forall|j: int| 0 <= j < base.len() implies n[j].0 != "vocs"@ by {
                    assert(n[j] == base[j]);
                }
                crate::kv::lemma_sm_idx_unique(n, "vocs"@, base.len() as int);
            }
            assert(lineup_vocs_value(n) == Some(v));
        },
        None => {
            assert(!sm_has(base, "lead_vocs"@) && !sm_has(base, "lead_voc"@) && !sm_has(
                base,
                "vocs"@,
            )) by {
                crate::kv::lemma_sm_has_exists(base, "lead_vocs"@);
                crate::kv::lemma_sm_has_exists(base, "lead_voc"@);
                crate::kv::lemma_sm_has_exists(base, "vocs"@);
            }
            lemma_base_of_clean(base);
            assert(lineup_vocs_value(base) is None);
        },
    }
}

/// The three vocal-lineup spellings are distinct keys.
proof fn lemma_vocs_keys_distinct()
    ensures
        "vocs"@ != "lead_vocs"@,
        "vocs"@ != "lead_voc"@,
{
    reveal_strlit("vocs");
    reveal_strlit("lead_vocs");
    reveal_strlit("lead_voc");
    assert("vocs"@.len() == 4);
    assert("lead_vocs"@.len() == 9);
    assert("lead_voc"@.len() == 8);
}

/// The base of a lineup holds no vocal-lineup spelling.
proof fn lemma_lineup_base_no_vocs(s: Seq<(Seq<char>, JVal)>)
    ensures
        forall|i: int|
            0 <= i < lineup_base(s).len() ==> !is_vocs_key(#[trigger] lineup_base(s)[i].0),
    decreases s.len(),
{
    if s.len() > 0 {
        lemma_lineup_base_no_vocs(s.drop_last());
        if !is_vocs_key(s.last().0) {
            assert forall|i: int| 0 <= i < lineup_base(s).len() implies !is_vocs_key(
                #[trigger] lineup_base(s)[i].0,
            ) by {
                if i < lineup_base(s.drop_last()).len() {
                    assert(lineup_base(s)[i] == lineup_base(s.drop_last())[i]);
                }
            }
        }
    }
}

/// A list free of vocal-lineup spellings is its own base.
proof fn lemma_base_of_clean(s: Seq<(Seq<char>, JVal)>)
    requires
        forall|i: int| 0 <= i < s.len() ==> !is_vocs_key((#[trigger] s[i]).0),
    ensures
        lineup_base(s) == s,
    decreases s.len(),
{
    if s.len() > 0 {
        assert(!is_vocs_key(s[s.len() - 1].0));
        assert forall|i: int| 0 <= i < s.drop_last().len() implies !is_vocs_key(
            (#[trigger] s.drop_last()[i]).0,
        ) by {
            assert(s.drop_last()[i] == s[i]);
        }
        lemma_base_of_clean(s.drop_last());
        assert(lineup_base(s) =~= s);
    } else {
        assert(lineup_base(s) =~= s);
    }
}

/// Appending one vocal-spelling entry to a clean list leaves the base the
/// clean list itself.
proof fn lemma_base_of_clean_push(s: Seq<(Seq<char>, JVal)>, x: (Seq<char>, JVal))
    requires
        forall|i: int| 0 <= i < s.len() ==> !is_vocs_key((#[trigger] s[i]).0),
        is_vocs_key(x.0),
    ensures
        lineup_base(s.push(x)) == s,
{
    assert(s.push(x).last() == x);
    assert(s.push(x).drop_last() =~= s);
    lemma_base_of_clean(s);
}

/// What a musician is known as and where it plays by default.
#[derive(Debug)]
pub struct MusicianInfo {
    pub name: String,
    pub role: String,
}

/// The view of a musician's roster info.
pub struct MusInfoV {
    pub name: Seq<char>,
    pub role: Seq<char>,
}

impl View for MusicianInfo {
    type V = MusInfoV;

    open spec fn view(&self) -> MusInfoV {
        MusInfoV { name: self.name@, role: self.role@ }
    }
}

/// An eligible performer offered for a role.
#[derive(Debug)]
pub struct MemberOption {
    pub id: String,
    pub name: String,
}

/// The view of a member option.
pub struct MemberV {
    pub id: Seq<char>,
    pub name: Seq<char>,
}

impl View for MemberOption {
    type V = MemberV;

    open spec fn view(&self) -> MemberV {
        MemberV { id: self.id@, name: self.name@ }
    }
}

/// The view of a musician-info association list.
pub open spec fn mus_assoc_view(s: Seq<(String, MusicianInfo)>) -> Seq<(Seq<char>, MusInfoV)> {
    s.map_values(|e: (String, MusicianInfo)| (e.0@, e.1@))
}

/// The view of a monitoring-default association list.
pub open spec fn def_assoc_view(s: Seq<(String, MonitoringDefault)>) -> Seq<
    (Seq<char>, MonitoringDefault),
> {
    s.map_values(|e: (String, MonitoringDefault)| (e.0@, e.1))
}

/// The view of an id-to-name entry list.
pub open spec fn entry_views(s: Seq<(String, String)>) -> Seq<(Seq<char>, Seq<char>)> {
    s.map_values(|e: (String, String)| (e.0@, e.1@))
}

/// First value under a key of a musician-info association list.
fn mus_assoc_get<'a>(m: &'a Vec<(String, MusicianInfo)>, k: &str) -> (r: Option<
    &'a MusicianInfo,
>)
    ensures
        match r {
            Some(v) => sm_get(mus_assoc_view(m@), k@) == Some(v@),
            None => sm_get(mus_assoc_view(m@), k@) is None,
        },
{
    proof {
        assert(mus_assoc_view(m@).skip(0) =~= mus_assoc_view(m@));
    }
    let ghost mv = mus_assoc_view(m@);
    let mut i: usize = 0;
    while i < m.len()
        invariant
            mv == mus_assoc_view(m@),
            i <= m@.len(),
            mv.len() == m@.len(),
            crate::kv::sm_idx(mv, k@) == if sm_has(mv.skip(i as int), k@) {
                crate::kv::sm_idx(mv.skip(i as int), k@) + i
            } else {
                -1
            },
        decreases m@.len() - i,
    {
        proof {
            assert(mv.skip(i as int)[0] == mv[i as int]);
            assert(mv.skip(i as int).drop_first() =~= mv.skip(i as int + 1));
        }
        if crate::text::str_eq(m[i].0.as_str(), k) {
            proof {
                crate::kv::lemma_sm_idx(mv, k@);
            }
            return Some(&m[i].1);
        }
        i = i + 1;
    }
    proof {
        assert(mv.skip(i as int).len() == 0);
    }
    None
}

/// Position of the first entry with the key in a musician-info list.
fn mus_assoc_idx(m: &Vec<(String, MusicianInfo)>, k: &str) -> (r: Option<usize>)
    ensures
        match r {
            Some(i) => crate::kv::sm_idx(mus_assoc_view(m@), k@) == i as int && sm_has(
                mus_assoc_view(m@),
                k@,
            ),
            None => !sm_has(mus_assoc_view(m@), k@),
        },
{
    proof {
        assert(mus_assoc_view(m@).skip(0) =~= mus_assoc_view(m@));
    }
    let ghost mv = mus_assoc_view(m@);
    let mut i: usize = 0;
    while i < m.len()
        invariant
            mv == mus_assoc_view(m@),
            i <= m@.len(),
            mv.len() == m@.len(),
            crate::kv::sm_idx(mv, k@) == if sm_has(mv.skip(i as int), k@) {
                crate::kv::sm_idx(mv.skip(i as int), k@) + i
            } else {
                -1
            },
        decreases m@.len() - i,
    {
        proof {
            assert(mv.skip(i as int)[0] == mv[i as int]);
            assert(mv.skip(i as int).drop_first() =~= mv.skip(i as int + 1));
        }
        if crate::text::str_eq(m[i].0.as_str(), k) {
            return Some(i);
        }
        i = i + 1;
    }
    proof {
        assert(mv.skip(i as int).len() == 0);
    }
    None
}

/// Sets a key of a musician-info association list: replaces the first
/// matching entry or appends.
fn mus_assoc_put(m: Vec<(String, MusicianInfo)>, k: String, v: MusicianInfo) -> (r: Vec<
    (String, MusicianInfo),
>)
    ensures
        mus_assoc_view(r@) == crate::kv::sm_put(mus_assoc_view(m@), k@, v@),
{
    let ghost mv = mus_assoc_view(m@);
    let mut m = m;
    let idx = mus_assoc_idx(&m, k.as_str());
    match idx {
        Some(i) => {
            proof {
                crate::kv::lemma_sm_idx(mv, k@);
            }
            m[i] = (k, v);
            proof {
                assert(mus_assoc_view(m@) =~= crate::kv::sm_put(mv, k@, v@));
            }
        },
        None => {
            m.push((k, v));
            proof {
                assert(mus_assoc_view(m@) =~= crate::kv::sm_put(mv, k@, v@));
            }
        },
    }
    m
}

/// Position of the first entry with the key in a monitoring-default list.
fn def_assoc_idx(m: &Vec<(String, MonitoringDefault)>, k: &str) -> (r: Option<usize>)
    ensures
        match r {
            Some(i) => crate::kv::sm_idx(def_assoc_view(m@), k@) == i as int && sm_has(
                def_assoc_view(m@),
                k@,
            ),
            None => !sm_has(def_assoc_view(m@), k@),
        },
{
    proof {
        assert(def_assoc_view(m@).skip(0) =~= def_assoc_view(m@));
    }
    let ghost mv = def_assoc_view(m@);
    let mut i: usize = 0;
    while i < m.len()
        invariant
            mv == def_assoc_view(m@),
            i <= m@.len(),
            mv.len() == m@.len(),
            crate::kv::sm_idx(mv, k@) == if sm_has(mv.skip(i as int), k@) {
                crate::kv::sm_idx(mv.skip(i as int), k@) + i
            } else {
                -1
            },
        decreases m@.len() - i,
    {
        proof {
            assert(mv.skip(i as int)[0] == mv[i as int]);
            assert(mv.skip(i as int).drop_first() =~= mv.skip(i as int + 1));
        }
        if crate::text::str_eq(m[i].0.as_str(), k) {
            return Some(i);
        }
        i = i + 1;
    }
    proof {
        assert(mv.skip(i as int).len() == 0);
    }
    None
}

/// Sets a key of a monitoring-default association list.
fn def_assoc_put(m: Vec<(String, MonitoringDefault)>, k: String, v: MonitoringDefault) -> (r: Vec<
    (String, MonitoringDefault),
>)
    ensures
        def_assoc_view(r@) == crate::kv::sm_put(def_assoc_view(m@), k@, v),
{
    let ghost mv = def_assoc_view(m@);
    let mut m = m;
    let idx = def_assoc_idx(&m, k.as_str());
    match idx {
        Some(i) => {
            proof {
                crate::kv::lemma_sm_idx(mv, k@);
            }
            m[i] = (k, v);
            proof {
                assert(def_assoc_view(m@) =~= crate::kv::sm_put(mv, k@, v));
            }
        },
        None => {
            m.push((k, v));
            proof {
                assert(def_assoc_view(m@) =~= crate::kv::sm_put(mv, k@, v));
            }
        },
    }
    m
}

/// The identifier recorded in a musician document, or empty.
pub open spec fn mus_id(v: JVal) -> Seq<char> {
    match spec_str_field(v, "id"@) {
        Some(s) => s,
        None => Seq::empty(),
    }
}

/// The display name of a musician: "<lastName> <firstName>", trimmed.
pub open spec fn mus_name(v: JVal) -> Seq<char> {
    trim_spec(
        (match spec_str_field(v, "lastName"@) {
            Some(s) => s,
            None => Seq::empty(),
        }) + seq![' '] + (match spec_str_field(v, "firstName"@) {
            Some(s) => s,
            None => Seq::empty(),
        }),
    )
}

/// The first preset tagged "monitor" that carries a string reference.
pub open spec fn monitor_ref_scan(items: Seq<JVal>) -> Option<Seq<char>>
    decreases items.len(),
{
    if items.len() == 0 {
        None
    } else if spec_str_field(items[0], "kind"@) == Some("monitor"@) && spec_str_field(
        items[0],
        "ref"@,
    ) is Some {
        spec_str_field(items[0], "ref"@)
    } else {
        monitor_ref_scan(items.drop_first())
    }
}

/// The monitor preset reference of a musician document, if any.
pub open spec fn mus_monitor_ref(v: JVal) -> Option<Seq<char>> {
    match spec_get(v, "presets"@) {
        Some(JVal::Arr(a)) => monitor_ref_scan(a@),
        _ => None,
    }
}

/// Finds a musician's monitor preset reference.
fn monitor_ref_of(v: &JVal) -> (r: Option<String>)
    ensures
        match r {
            Some(s) => mus_monitor_ref(*v) == Some(s@),
            None => mus_monitor_ref(*v) is None,
        },
{
    let presets = match v.get("presets") {
        Some(p) => p,
        None => {
            return None;
        },
    };
    let items = match presets {
        JVal::Arr(a) => a,
        _ => {
            return None;
        },
    };
    proof {
        assert(items@.skip(0) =~= items@);
    }
    let mut i: usize = 0;
    while i < items.len()
        invariant
            mus_monitor_ref(*v) == monitor_ref_scan(items@.skip(i as int)),
            i <= items@.len(),
        decreases items@.len() - i,
    {
        proof {
            assert(items@.skip(i as int)[0] == items@[i as int]);
            assert(items@.skip(i as int).drop_first() =~= items@.skip(i as int + 1));
        }
        let kind = items[i].str_field("kind");
        let is_monitor = match &kind {
            Some(s) => crate::text::str_eq(s.as_str(), "monitor"),
            None => false,
        };
        if is_monitor {
            match items[i].str_field("ref") {
                Some(reference) => {
                    return Some(reference);
                },
                None => {
                },
            }
        }
        i = i + 1;
    }
    proof {
        assert(items@.skip(i as int).len() == 0);
    }
    None
}

/// Whether a band document answers a requested reference: by exact
/// (trimmed) id, case-insensitive code, or case-insensitive id.
pub open spec fn band_matches(v: JVal, requested: Seq<char>) -> bool {
    let cid = trim_spec(
        match spec_str_field(v, "id"@) {
            Some(s) => s,
            None => Seq::empty(),
        },
    );
    let ccode = trim_spec(
        match spec_str_field(v, "code"@) {
            Some(s) => s,
            None => Seq::empty(),
        },
    );
    ||| cid == requested
    ||| lower_seq(ccode) == lower_seq(requested)
    ||| lower_seq(cid) == lower_seq(requested)
}

/// The in-order scan for a band: the first JSON file matching the
/// reference; a malformed file before a match ends the scan with an error.
pub open spec fn band_scan(files: Seq<(Seq<char>, Seq<char>)>, requested: Seq<char>) -> Result<
    Option<JVal>,
    (),
>
    decreases files.len(),
{
    if files.len() == 0 {
        Ok(None)
    } else if !crate::text::ends_with_seq(files[0].0, crate::sanitize::json_suffix()) {
        band_scan(files.drop_first(), requested)
    } else {
        match json_of(files[0].1) {
            None => Err(()),
            Some(v) => if band_matches(v, requested) {
                Ok(Some(v))
            } else {
                band_scan(files.drop_first(), requested)
            },
        }
    }
}

/// Finds the band record a reference names: files are scanned in order and
/// matched by exact trimmed id, case-insensitive code, or case-insensitive
/// id; the first match wins.
pub fn find_band(files: &StrMap, band_id: &str) -> (r: Result<JVal, ApiError>)
    ensures
        match r {
            Ok(v) => band_scan(files@, trim_spec(band_id@)) == Ok::<_, ()>(Some(v)),
            Err(e) => match band_scan(files@, trim_spec(band_id@)) {
                Ok(opt) => opt is None && e.code@ == "BAND_NOT_FOUND"@ && e.message@
                    == "Band not found for reference '"@ + trim_spec(band_id@)
                    + "' (checked id and code)"@,
                Err(_) => e.code@ == "BAND_SETUP_LOAD_FAILED"@,
            },
        },
{
    proof {
        reveal_strlit(".json");
        assert(".json"@ =~= crate::sanitize::json_suffix());
        assert(files@.skip(0) =~= files@);
    }
    let requested = trim_str(band_id);
    let requested_lower = to_lower(requested.as_str());
    let n = files.len();
    let mut i: usize = 0;
    while i < n
        invariant
            n == files@.len(),
            i <= n,
            requested@ == trim_spec(band_id@),
            requested_lower@ == lower_seq(trim_spec(band_id@)),
            ".json"@ =~= crate::sanitize::json_suffix(),
            band_scan(files@, trim_spec(band_id@)) == band_scan(
                files@.skip(i as int),
                trim_spec(band_id@),
            ),
        decreases n - i,
    {
        proof {
            assert(files@.skip(i as int)[0] == files@[i as int]);
            assert(files@.skip(i as int).drop_first() =~= files@.skip(i as int + 1));
        }
        let name = files.key_at(i);
        if crate::text::ends_with_str(name.as_str(), ".json") {
            let data = files.val_at(i);
            match parse_json(data.as_str()) {
                None => {
                    return Err(api_error("BAND_SETUP_LOAD_FAILED", "Invalid band JSON"));
                },
                Some(v) => {
                    let cid_raw = match v.str_field("id") {
                        Some(s) => s,
                        None => String::new(),
                    };
                    let ccode_raw = match v.str_field("code") {
                        Some(s) => s,
                        None => String::new(),
                    };
                    let cid = trim_str(cid_raw.as_str());
                    let ccode = trim_str(ccode_raw.as_str());
                    let cid_lower = to_lower(cid.as_str());
                    let ccode_lower = to_lower(ccode.as_str());
                    let hit = crate::text::str_eq(cid.as_str(), requested.as_str())
                        || crate::text::str_eq(ccode_lower.as_str(), requested_lower.as_str())
                        || crate::text::str_eq(cid_lower.as_str(), requested_lower.as_str());
                    if hit {
                        return Ok(v);
                    }
                    proof {
                        assert(!band_matches(v, trim_spec(band_id@)));
                    }
                },
            }
        }
        i = i + 1;
    }
    proof {
        assert(files@.skip(i as int).len() == 0);
    }
    let mut m = "Band not found for reference '".to_owned();
    m.append(requested.as_str());
    m.append("' (checked id and code)");
    proof {
        assert(m@ =~= "Band not found for reference '"@ + trim_spec(band_id@)
            + "' (checked id and code)"@);
    }
    Err(api_error_msg("BAND_NOT_FOUND", m))
}

/// The views of listed member options.
pub open spec fn member_views(s: Seq<MemberOption>) -> Seq<MemberV> {
    s.map_values(|m: MemberOption| m@)
}

/// One role directory folded into the roster: every JSON musician file, in
/// order, contributes its display name to the role's member list, its
/// current name and role to the by-id table (later files win), and an
/// inferred monitoring default when it carries a monitor preset. Files
/// without an id are skipped; a malformed file ends the scan with an error.
pub open spec fn role_scan(
    files: Seq<(Seq<char>, Seq<char>)>,
    role: Seq<char>,
    by_id: Seq<(Seq<char>, MusInfoV)>,
    defaults: Seq<(Seq<char>, MonitoringDefault)>,
) -> Result<
    (Seq<(Seq<char>, MusInfoV)>, Seq<(Seq<char>, MonitoringDefault)>, Seq<MemberV>),
    (),
>
    decreases files.len(),
{
    if files.len() == 0 {
        Ok((by_id, defaults, Seq::empty()))
    } else if !crate::text::ends_with_seq(files[0].0, crate::sanitize::json_suffix()) {
        role_scan(files.drop_first(), role, by_id, defaults)
    } else {
        match json_of(files[0].1) {
            None => Err(()),
            Some(v) => {
                if mus_id(v).len() == 0 {
                    role_scan(files.drop_first(), role, by_id, defaults)
                } else {
                    let id = mus_id(v);
                    let nm = mus_name(v);
                    let defaults2 = match mus_monitor_ref(v) {
                        Some(mr) => crate::kv::sm_put(defaults, id, spec_infer_monitoring(mr)),
                        None => defaults,
                    };
                    let by_id2 = crate::kv::sm_put(by_id, id, MusInfoV { name: nm, role: role });
                    match role_scan(files.drop_first(), role, by_id2, defaults2) {
                        Ok(t) => Ok((t.0, t.1, seq![MemberV { id: id, name: nm }] + t.2)),
                        Err(e) => Err(e),
                    }
                }
            },
        }
    }
}

/// Scans one role directory, extending the by-id and monitoring tables and
/// collecting the role's members in file order.
#[verifier::loop_isolation(false)]
fn scan_role_dir(
    files: &StrMap,
    role: &str,
    by_id: Vec<(String, MusicianInfo)>,
    defaults: Vec<(String, MonitoringDefault)>,
) -> (r: Result<
    (Vec<(String, MusicianInfo)>, Vec<(String, MonitoringDefault)>, Vec<MemberOption>),
    ApiError,
>)
    ensures
        match r {
            Ok(t) => role_scan(files@, role@, mus_assoc_view(by_id@), def_assoc_view(defaults@))
                == Ok::<_, ()>(
                (mus_assoc_view(t.0@), def_assoc_view(t.1@), member_views(t.2@)),
            ),
            Err(e) => role_scan(files@, role@, mus_assoc_view(by_id@), def_assoc_view(defaults@))
                is Err && e.code@ == "BAND_SETUP_LOAD_FAILED"@,
        },
{
    proof {
        reveal_strlit(".json");
        assert(".json"@ =~= crate::sanitize::json_suffix());
        assert(files@.skip(0) =~= files@);
    }
    let ghost bv0 = mus_assoc_view(by_id@);
    let ghost dv0 = def_assoc_view(defaults@);
    let mut by_id = by_id;
    let mut defaults = defaults;
    let mut members: Vec<MemberOption> = Vec::new();
    let n = files.len();
    let mut i: usize = 0;
    while i < n
        invariant
            n == files@.len(),
            i <= n,
            match role_scan(
                files@.skip(i as int),
                role@,
                mus_assoc_view(by_id@),
                def_assoc_view(defaults@),
            ) {
                Ok(t) => role_scan(files@, role@, bv0, dv0) == Ok::<_, ()>(
                    (t.0, t.1, member_views(members@) + t.2),
                ),
                Err(_) => role_scan(files@, role@, bv0, dv0) is Err,
            },
        decreases n - i,
    {
        proof {
            assert(files@.skip(i as int)[0] == files@[i as int]);
            assert(files@.skip(i as int).drop_first() =~= files@.skip(i as int + 1));
        }
        let name = files.key_at(i);
        if crate::text::ends_with_str(name.as_str(), ".json") {
            let data = files.val_at(i);
            match parse_json(data.as_str()) {
                None => {
                    return Err(api_error("BAND_SETUP_LOAD_FAILED", "Invalid musician JSON"));
                },
                Some(v) => {
                    let id: String = match v.str_field("id") {
                        Some(s) => s,
                        None => String::new(),
                    };
                    if id.as_str().unicode_len() > 0 {
                        let last_name = match v.str_field("lastName") {
                            Some(s) => s,
                            None => String::new(),
                        };
                        let first_name = match v.str_field("firstName") {
                            Some(s) => s,
                            None => String::new(),
                        };
                        let mut full = last_name;
                        full.append(" ");
                        full.append(first_name.as_str());
                        proof {
                            reveal_strlit(" ");
                            assert(" "@ =~= seq![' ']);
                        }
                        let display = trim_str(full.as_str());
                        proof {
                            assert(display@ == mus_name(v));
                        }
                        match monitor_ref_of(&v) {
                            Some(mr) => {
                                let md = infer_monitoring_default_from_ref(mr.as_str());
                                defaults = def_assoc_put(defaults, id.clone(), md);
                            },
                            None => {
                            },
                        }
                        by_id = mus_assoc_put(
                            by_id,
                            id.clone(),
                            MusicianInfo { name: display.clone(), role: role.to_owned() },
                        );
                        let ghost prev_members = members@;
                        members.push(MemberOption { id, name: display });
                        proof {
                            assert(member_views(members@) =~= member_views(prev_members).push(
                                MemberV { id: mus_id(v), name: mus_name(v) },
                            ));
                            match role_scan(
                                files@.skip(i as int + 1),
                                role@,
                                mus_assoc_view(by_id@),
                                def_assoc_view(defaults@),
                            ) {
                                Ok(t) => {
                                    assert(member_views(prev_members).push(
                                        MemberV { id: mus_id(v), name: mus_name(v) },
                                    ) + t.2 =~= member_views(prev_members) + (seq![
                                        MemberV { id: mus_id(v), name: mus_name(v) },
                                    ] + t.2));
                                },
                                Err(_) => {
                                },
                            }
                        }
                    }
                },
            }
        }
        i = i + 1;
    }
    proof {
        assert(files@.skip(i as int).len() == 0);
        assert(member_views(members@) + Seq::<MemberV>::empty() =~= member_views(members@));
    }
    Ok((by_id, defaults, members))
}

/// One role directory handed to the resolver: the role name and the files
/// under it.
#[derive(Debug)]
pub struct RoleFiles {
    pub role: String,
    pub files: StrMap,
}

/// The eligible performers of one role.
#[derive(Debug)]
pub struct RoleMembers {
    pub role: String,
    pub members: Vec<MemberOption>,
}

/// The views of a role-member table.
pub open spec fn role_members_views(s: Seq<RoleMembers>) -> Seq<(Seq<char>, Seq<MemberV>)> {
    s.map_values(|rm: RoleMembers| (rm.role@, member_views(rm.members@)))
}

/// The views of the role directories handed to the resolver.
pub open spec fn role_files_views(s: Seq<RoleFiles>) -> Seq<
    (Seq<char>, Seq<(Seq<char>, Seq<char>)>),
> {
    s.map_values(|rf: RoleFiles| (rf.role@, rf.files@))
}

/// The fixed, closed set of stage roles, in canonical order.
pub open spec fn role_names() -> Seq<Seq<char>> {
    seq!["drums"@, "bass"@, "guitar"@, "keys"@, "vocs"@, "talkback"@]
}

/// Members keyed by lower-cased display name, for sorting.
pub open spec fn member_keyed(ms: Seq<MemberV>) -> Seq<(Seq<char>, MemberV)> {
    ms.map_values(|m: MemberV| (lower_seq(m.name), m))
}

/// A role's members sorted by lower-cased display name, stably.
pub open spec fn sorted_members(ms: Seq<MemberV>) -> Seq<MemberV> {
    crate::sorting::strip_keys(crate::sorting::sort_asc(member_keyed(ms)))
}

/// The global roster: every role directory folded in canonical order, each
/// role's members sorted by name and deduplicated by musician id; the
/// by-id and monitoring tables grow across roles, later directories
/// winning on a repeated id.
pub open spec fn roster_scan(
    roles: Seq<(Seq<char>, Seq<(Seq<char>, Seq<char>)>)>,
    by_id: Seq<(Seq<char>, MusInfoV)>,
    defaults: Seq<(Seq<char>, MonitoringDefault)>,
) -> Result<
    (
        Seq<(Seq<char>, MusInfoV)>,
        Seq<(Seq<char>, MonitoringDefault)>,
        Seq<(Seq<char>, Seq<MemberV>)>,
    ),
    (),
>
    decreases roles.len(),
{
    if roles.len() == 0 {
        Ok((by_id, defaults, Seq::empty()))
    } else {
        match role_scan(roles[0].1, roles[0].0, by_id, defaults) {
            Err(e) => Err(e),
            Ok(t) => match roster_scan(roles.drop_first(), t.0, t.1) {
                Ok(t2) => Ok(
                    (
                        t2.0,
                        t2.1,
                        seq![(roles[0].0, dedup_adjacent(sorted_members(t.2)))] + t2.2,
                    ),
                ),
                Err(e) => Err(e),
            },
        }
    }
}

/// The view of a member option, as a spec function for mapping.
pub open spec fn member_view_fn() -> spec_fn(MemberOption) -> MemberV {
    |m: MemberOption| m@
}

/// Sorts a role's members by lower-cased display name, stably.
fn sort_members(ms: Vec<MemberOption>) -> (r: Vec<MemberOption>)
    ensures
        member_views(r@) == sorted_members(member_views(ms@)),
{
    let mut ms = ms;
    let ghost orig = member_views(ms@);
    let mut pairs: Vec<(String, MemberOption)> = Vec::new();
    while ms.len() > 0
        invariant
            pairs@.len() + ms@.len() == orig.len(),
            member_views(ms@) =~= orig.skip(pairs@.len() as int),
            forall|j: int|
                0 <= j < pairs@.len() ==> (#[trigger] pairs@[j]).0@ == lower_seq(pairs@[j].1@.name)
                    && pairs@[j].1@ == orig[j],
        decreases ms@.len(),
    {
        let ghost done = pairs@.len();
        proof {
            assert(member_views(ms@)[0] == ms@[0]@);
            assert(orig.skip(done as int)[0] == orig[done as int]);
        }
        let ghost prev_ms = ms@;
        let m = ms.remove(0);
        proof {
            assert(m@ == orig[done as int]);
            assert forall|j: int| 0 <= j < ms@.len() implies member_views(ms@)[j] == orig[done + 1
                + j] by {
                assert(ms@[j] == prev_ms[j + 1]);
                assert(member_views(prev_ms)[j + 1] == orig.skip(done as int)[j + 1]);
            }
        }
        let key = to_lower(m.name.as_str());
        let ghost prev = pairs@;
        pairs.push((key, m));
        proof {
            assert(member_views(ms@) =~= orig.skip(pairs@.len() as int));
        }
    }
    let ghost all_pairs = pairs@;
    let sorted = crate::sorting::sort_asc_exec(pairs);
    let out = crate::sorting::strip_keys_exec(sorted);
    proof {
        assert(crate::sorting::map_payload(crate::sorting::key_views(all_pairs), member_view_fn())
            =~= member_keyed(orig));
        crate::sorting::lemma_sort_asc_map(crate::sorting::key_views(all_pairs), member_view_fn());
        assert(member_views(out@) =~= crate::sorting::strip_keys(
            crate::sorting::map_payload(
                crate::sorting::sort_asc(crate::sorting::key_views(all_pairs)),
                member_view_fn(),
            ),
        ));
    }
    out
}

/// Builds the global roster from the role directories.
#[verifier::loop_isolation(false)]
#[verifier::rlimit(60)]
fn build_roster(roles: &Vec<RoleFiles>) -> (r: Result<
    (Vec<(String, MusicianInfo)>, Vec<(String, MonitoringDefault)>, Vec<RoleMembers>),
    ApiError,
>)
    ensures
        match r {
            Ok(t) => roster_scan(role_files_views(roles@), Seq::empty(), Seq::empty())
                == Ok::<_, ()>(
                (mus_assoc_view(t.0@), def_assoc_view(t.1@), role_members_views(t.2@)),
            ),
            Err(e) => roster_scan(role_files_views(roles@), Seq::empty(), Seq::empty()) is Err
                && e.code@ == "BAND_SETUP_LOAD_FAILED"@,
        },
{
    let mut by_id: Vec<(String, MusicianInfo)> = Vec::new();
    let mut defaults: Vec<(String, MonitoringDefault)> = Vec::new();
    let mut members: Vec<RoleMembers> = Vec::new();
    proof {
        assert(mus_assoc_view(by_id@) =~= Seq::<(Seq<char>, MusInfoV)>::empty());
        assert(def_assoc_view(defaults@) =~= Seq::<(Seq<char>, MonitoringDefault)>::empty());
        assert(role_files_views(roles@).skip(0) =~= role_files_views(roles@));
    }
    let n = roles.len();
    let mut i: usize = 0;
    while i < n
        invariant
            n == roles@.len(),
            i <= n,
            match roster_scan(
                role_files_views(roles@).skip(i as int),
                mus_assoc_view(by_id@),
                def_assoc_view(defaults@),
            ) {
                Ok(t) => roster_scan(role_files_views(roles@), Seq::empty(), Seq::empty())
                    == Ok::<_, ()>((t.0, t.1, role_members_views(members@) + t.2)),
                Err(_) => roster_scan(role_files_views(roles@), Seq::empty(), Seq::empty())
                    is Err,
            },
        decreases n - i,
    {
        proof {
            assert(role_files_views(roles@).skip(i as int)[0] == role_files_views(roles@)[
                i as int]);
            assert(role_files_views(roles@)[i as int] == (roles@[i as int].role@, roles@[
                i as int].files@));
            assert(role_files_views(roles@).skip(i as int).drop_first() =~= role_files_views(
                roles@,
            ).skip(i as int + 1));
        }
        let rf = &roles[i];
        let ghost bv0 = mus_assoc_view(by_id@);
        let ghost dv0 = def_assoc_view(defaults@);
        let scanned = scan_role_dir(&rf.files, rf.role.as_str(), by_id, defaults);
        match scanned {
            Ok(t) => {
                by_id = t.0;
                defaults = t.1;
                let ghost scanned_views = member_views(t.2@);
                proof {
                    assert(role_scan(roles@[i as int].files@, roles@[i as int].role@, bv0, dv0)
                        == Ok::<_, ()>(
                        (mus_assoc_view(by_id@), def_assoc_view(defaults@), scanned_views),
                    ));
                }
                let sorted = sort_members(t.2);
                let cleaned = dedup_members(sorted);
                proof {
                    assert(member_views(cleaned@) == dedup_adjacent(
                        sorted_members(scanned_views),
                    ));
                }
                let ghost prev = members@;
                members.push(RoleMembers { role: rf.role.clone(), members: cleaned });
                proof {
                    assert(role_members_views(members@) =~= role_members_views(prev).push(
                        (roles@[i as int].role@, member_views(members@.last().members@)),
                    ));
                    assert(role_members_views(members@).last() == (
                        roles@[i as int].role@,
                        dedup_adjacent(sorted_members(scanned_views)),
                    ));
                    let rs_i = roster_scan(role_files_views(roles@).skip(i as int), bv0, dv0);
                    match roster_scan(
                        role_files_views(roles@).skip(i as int + 1),
                        mus_assoc_view(by_id@),
                        def_assoc_view(defaults@),
                    ) {
                        Ok(t2) => {
                            assert(rs_i == Ok::<_, ()>(
                                (
                                    t2.0,
                                    t2.1,
                                    seq![
                                        (
                                            roles@[i as int].role@,
                                            dedup_adjacent(sorted_members(scanned_views)),
                                        ),
                                    ] + t2.2,
                                ),
                            ));
                            assert(role_members_views(prev).push(
                                role_members_views(members@).last(),
                            ) + t2.2 =~= role_members_views(prev) + (seq![
                                role_members_views(members@).last(),
                            ] + t2.2));
                        },
                        Err(_) => {
                            assert(rs_i is Err);
                        },
                    }
                }
            },
            Err(e) => {
                return Err(e);
            },
        }
        i = i + 1;
    }
    proof {
        assert(role_files_views(roles@).skip(i as int).len() == 0);
        assert(role_members_views(members@) + Seq::<(Seq<char>, Seq<MemberV>)>::empty()
            =~= role_members_views(members@));
    }
    Ok((by_id, defaults, members))
}

/// A member added to a role of the table; an unknown role is ignored.
pub open spec fn add_to_role(
    tbl: Seq<(Seq<char>, Seq<MemberV>)>,
    role: Seq<char>,
    m: MemberV,
) -> Seq<(Seq<char>, Seq<MemberV>)> {
    if sm_has(tbl, role) {
        let i = crate::kv::sm_idx(tbl, role);
        tbl.update(i, (tbl[i].0, tbl[i].1.push(m)))
    } else {
        tbl
    }
}

/// A member added to every listed role.
pub open spec fn add_roles(
    tbl: Seq<(Seq<char>, Seq<MemberV>)>,
    rs: Seq<Seq<char>>,
    m: MemberV,
) -> Seq<(Seq<char>, Seq<MemberV>)>
    decreases rs.len(),
{
    if rs.len() == 0 {
        tbl
    } else {
        add_roles(add_to_role(tbl, rs[0], m), rs.drop_first(), m)
    }
}

/// The string items of a JSON array, in order; other items are ignored.
pub open spec fn str_items(a: Seq<JVal>) -> Seq<Seq<char>>
    decreases a.len(),
{
    if a.len() == 0 {
        Seq::empty()
    } else {
        match a[0] {
            JVal::Str(s) => seq![s@] + str_items(a.drop_first()),
            _ => str_items(a.drop_first()),
        }
    }
}

/// The band's explicit member list folded into a role table: each listed
/// musician known to the global roster is assigned to every role of its
/// explicit `roles` list, or to its global default role when no list is
/// given; entries without a known musician id contribute nothing.
pub open spec fn restrict_fold(
    ms: Seq<JVal>,
    by_id: Seq<(Seq<char>, MusInfoV)>,
    tbl: Seq<(Seq<char>, Seq<MemberV>)>,
) -> Seq<(Seq<char>, Seq<MemberV>)>
    decreases ms.len(),
{
    if ms.len() == 0 {
        tbl
    } else {
        let mid = match spec_str_field(ms[0], "musicianId"@) {
            Some(s) => s,
            None => Seq::empty(),
        };
        let tbl2 = if mid.len() == 0 {
            tbl
        } else {
            match sm_get(by_id, mid) {
                None => tbl,
                Some(info) => {
                    let m = MemberV { id: mid, name: info.name };
                    match spec_get(ms[0], "roles"@) {
                        Some(JVal::Arr(rs)) => add_roles(tbl, str_items(rs@), m),
                        _ => add_to_role(tbl, info.role, m),
                    }
                },
            }
        };
        restrict_fold(ms.drop_first(), by_id, tbl2)
    }
}

/// An empty role table over the fixed roles.
pub open spec fn empty_table() -> Seq<(Seq<char>, Seq<MemberV>)> {
    role_names().map_values(|r: Seq<char>| (r, Seq::<MemberV>::empty()))
}

/// Consecutive entries with a repeated musician id collapsed to the first.
pub open spec fn dedup_adjacent(s: Seq<MemberV>) -> Seq<MemberV>
    decreases s.len(),
{
    if s.len() <= 1 {
        s
    } else if s.last().id == s[s.len() - 2].id {
        dedup_adjacent(s.drop_last())
    } else {
        dedup_adjacent(s.drop_last()).push(s.last())
    }
}

/// The members view a band finally offers per role: when the band lists
/// members and any role bucket ends up non-empty, the restricted table —
/// each bucket sorted by name and deduplicated by id — replaces the global
/// roster; an absent or entirely empty restriction keeps the global roster.
pub open spec fn final_members(
    band: JVal,
    by_id: Seq<(Seq<char>, MusInfoV)>,
    global: Seq<(Seq<char>, Seq<MemberV>)>,
) -> Seq<(Seq<char>, Seq<MemberV>)> {
    match spec_get(band, "members"@) {
        Some(JVal::Arr(ms)) => {
            let tbl = restrict_fold(ms@, by_id, empty_table());
            if exists|i: int| 0 <= i < tbl.len() && (#[trigger] tbl[i]).1.len() > 0 {
                tbl.map_values(
                    |e: (Seq<char>, Seq<MemberV>)| (e.0, dedup_adjacent(sorted_members(e.1))),
                )
            } else {
                global
            }
        },
        _ => global,
    }
}

/// Adds a member to a role of the table.
#[verifier::loop_isolation(false)]
fn tbl_add(tbl: Vec<RoleMembers>, role: &str, m: MemberOption) -> (r: Vec<RoleMembers>)
    ensures
        role_members_views(r@) == add_to_role(role_members_views(tbl@), role@, m@),
{
    let ghost tv = role_members_views(tbl@);
    let mut tbl = tbl;
    proof {
        assert(role_members_views(tbl@).skip(0) =~= role_members_views(tbl@));
    }
    let mut i: usize = 0;
    while i < tbl.len()
        invariant
            tv == role_members_views(tbl@),
            i <= tbl@.len(),
            tv.len() == tbl@.len(),
            crate::kv::sm_idx(tv, role@) == if sm_has(tv.skip(i as int), role@) {
                crate::kv::sm_idx(tv.skip(i as int), role@) + i
            } else {
                -1
            },
        decreases tbl@.len() - i,
    {
        proof {
            assert(tv.skip(i as int)[0] == tv[i as int]);
            assert(tv.skip(i as int).drop_first() =~= tv.skip(i as int + 1));
        }
        if crate::text::str_eq(tbl[i].role.as_str(), role) {
            proof {
                crate::kv::lemma_sm_idx(tv, role@);
            }
            let mut e = tbl.remove(i);
            let ghost without = tbl@;
            let ghost prev_members = e.members@;
            e.members.push(m);
            proof {
                assert(member_views(e.members@) =~= member_views(prev_members).push(m@));
            }
            tbl.insert(i, e);
            proof {
                assert(role_members_views(tbl@) =~= add_to_role(tv, role@, m@));
            }
            return tbl;
        }
        i = i + 1;
    }
    proof {
        assert(tv.skip(i as int).len() == 0);
    }
    tbl
}

/// Whether any role bucket of the table is non-empty.
fn tbl_has_any(tbl: &Vec<RoleMembers>) -> (r: bool)
    ensures
        r == exists|i: int|
            0 <= i < role_members_views(tbl@).len()
                && (#[trigger] role_members_views(tbl@)[i]).1.len() > 0,
{
    let mut i: usize = 0;
    while i < tbl.len()
        invariant
            i <= tbl@.len(),
            forall|j: int| 0 <= j < i ==> (#[trigger] role_members_views(tbl@)[j]).1.len() == 0,
        decreases tbl@.len() - i,
    {
        if tbl[i].members.len() > 0 {
            proof {
                assert((role_members_views(tbl@)[i as int]).1.len() > 0);
            }
            return true;
        }
        proof {
            assert((role_members_views(tbl@)[i as int]).1 == member_views(tbl@[i as int].members@));
        }
        i = i + 1;
    }
    false
}

/// Removes consecutive repeats of a musician id, keeping the first.
fn dedup_members(ms: Vec<MemberOption>) -> (r: Vec<MemberOption>)
    ensures
        member_views(r@) == dedup_adjacent(member_views(ms@)),
{
    let mut ms = ms;
    let ghost orig = member_views(ms@);
    let mut out: Vec<MemberOption> = Vec::new();
    let mut prev_id: Option<String> = None;
    while ms.len() > 0
        invariant
            ms@.len() <= orig.len(),
            member_views(ms@) =~= orig.skip(orig.len() - ms@.len()),
            member_views(out@) == dedup_adjacent(orig.take(orig.len() - ms@.len())),
            match prev_id {
                Some(p) => orig.len() > ms@.len() && p@ == orig[orig.len() - ms@.len() - 1].id,
                None => orig.len() == ms@.len(),
            },
        decreases ms@.len(),
    {
        let ghost done = orig.len() - ms@.len();
        let ghost prev_ms = ms@;
        proof {
            assert(member_views(prev_ms)[0] == prev_ms[0]@);
            assert(orig.skip(done as int)[0] == orig[done as int]);
        }
        let m = ms.remove(0);
        proof {
            assert(m@ == orig[done as int]);
            assert forall|j: int| 0 <= j < ms@.len() implies member_views(ms@)[j] == orig[done + 1
                + j] by {
                assert(ms@[j] == prev_ms[j + 1]);
                assert(member_views(prev_ms)[j + 1] == orig.skip(done as int)[j + 1]);
            }
        }
        let is_dup = match &prev_id {
            Some(p) => crate::text::str_eq(p.as_str(), m.id.as_str()),
            None => false,
        };
        prev_id = Some(m.id.clone());
        let ghost prev_out = member_views(out@);
        if !is_dup {
            out.push(m);
        }
        proof {
            let t = orig.take(done + 1);
            assert(t.drop_last() =~= orig.take(done as int));
            assert(t.last() == orig[done as int]);
            if done > 0 {
                assert(t[done - 1] == orig[done - 1]);
            }
            assert(member_views(ms@) =~= orig.skip(orig.len() - ms@.len()));
            if !is_dup {
                assert(member_views(out@) =~= prev_out.push(orig[done as int]));
            }
        }
    }
    proof {
        assert(orig.take(orig.len() as int) =~= orig);
    }
    out
}

/// Applies the band's membership restriction: with a listed member array
/// whose buckets end up non-empty, the restricted, sorted, deduplicated
/// table replaces the global roster.
#[verifier::loop_isolation(false)]
fn restrict_members(
    band: &JVal,
    by_id: &Vec<(String, MusicianInfo)>,
    global: Vec<RoleMembers>,
) -> (r: Vec<RoleMembers>)
    ensures
        role_members_views(r@) == final_members(
            *band,
            mus_assoc_view(by_id@),
            role_members_views(global@),
        ),
{
    let ms: &Vec<JVal> = match band.get("members") {
        Some(m) => match m {
            JVal::Arr(a) => a,
            _ => {
                return global;
            },
        },
        None => {
            return global;
        },
    };
    let mut tbl: Vec<RoleMembers> = Vec::new();
    tbl.push(RoleMembers { role: "drums".to_owned(), members: Vec::new() });
    tbl.push(RoleMembers { role: "bass".to_owned(), members: Vec::new() });
    tbl.push(RoleMembers { role: "guitar".to_owned(), members: Vec::new() });
    tbl.push(RoleMembers { role: "keys".to_owned(), members: Vec::new() });
    tbl.push(RoleMembers { role: "vocs".to_owned(), members: Vec::new() });
    tbl.push(RoleMembers { role: "talkback".to_owned(), members: Vec::new() });
    proof {
        assert(role_members_views(tbl@) =~~= empty_table());
        assert(ms@.skip(0) =~= ms@);
    }
    let n = ms.len();
    let mut i: usize = 0;
    while i < n
        invariant
            n == ms@.len(),
            i <= n,
            restrict_fold(ms@, mus_assoc_view(by_id@), empty_table()) == restrict_fold(
                ms@.skip(i as int),
                mus_assoc_view(by_id@),
                role_members_views(tbl@),
            ),
        decreases n - i,
    {
        proof {
            assert(ms@.skip(i as int)[0] == ms@[i as int]);
            assert(ms@.skip(i as int).drop_first() =~= ms@.skip(i as int + 1));
        }
        let member = &ms[i];
        let mid: String = match member.str_field("musicianId") {
            Some(s) => s,
            None => String::new(),
        };
        if mid.as_str().unicode_len() > 0 {
            match mus_assoc_get(by_id, mid.as_str()) {
                None => {
                },
                Some(info) => {
                    let display = info.name.clone();
                    let default_role = info.role.clone();
                    let ghost mv = MemberV { id: mid@, name: display@ };
                    match member.get("roles") {
                        Some(rv) => match rv {
                            JVal::Arr(rs) => {
                                let ghost t0 = role_members_views(tbl@);
                                proof {
                                    assert(rs@.skip(0) =~= rs@);
                                }
                                let rn = rs.len();
                                let mut j: usize = 0;
                                while j < rn
                                    invariant
                                        rn == rs@.len(),
                                        j <= rn,
                                        add_roles(t0, str_items(rs@), mv) == add_roles(
                                            role_members_views(tbl@),
                                            str_items(rs@.skip(j as int)),
                                            mv,
                                        ),
                                    decreases rn - j,
                                {
                                    proof {
                                        assert(rs@.skip(j as int)[0] == rs@[j as int]);
                                        assert(rs@.skip(j as int).drop_first() =~= rs@.skip(
                                            j as int + 1,
                                        ));
                                    }
                                    let item = &rs[j];
                                    match item.as_str() {
                                        Some(role_s) => {
                                            proof {
                                                assert(str_items(rs@.skip(j as int))[0] == role_s@);
                                                assert(str_items(rs@.skip(j as int)).drop_first()
                                                    =~= str_items(rs@.skip(j as int + 1)));
                                            }
                                            let mo = MemberOption {
                                                id: mid.clone(),
                                                name: display.clone(),
                                            };
                                            tbl = tbl_add(tbl, role_s.as_str(), mo);
                                        },
                                        None => {
                                            proof {
                                                assert(str_items(rs@.skip(j as int)) =~= str_items(
                                                    rs@.skip(j as int + 1),
                                                ));
                                            }
                                        },
                                    }
                                    j = j + 1;
                                }
                                proof {
                                    assert(str_items(rs@.skip(rn as int)).len() == 0);
                                }
                            },
                            _ => {
                                let mo = MemberOption { id: mid.clone(), name: display.clone() };
                                tbl = tbl_add(tbl, default_role.as_str(), mo);
                            },
                        },
                        None => {
                            let mo = MemberOption { id: mid.clone(), name: display.clone() };
                            tbl = tbl_add(tbl, default_role.as_str(), mo);
                        },
                    }
                },
            }
        }
        i = i + 1;
    }
    proof {
        assert(ms@.skip(i as int).len() == 0);
    }
    if tbl_has_any(&tbl) {
        let ghost tv = role_members_views(tbl@);
        let mut tbl = tbl;
        let mut out: Vec<RoleMembers> = Vec::new();
        while tbl.len() > 0
            invariant
                out@.len() + tbl@.len() == tv.len(),
                role_members_views(tbl@) =~= tv.skip(out@.len() as int),
                role_members_views(out@) =~= tv.take(out@.len() as int).map_values(
                    |e: (Seq<char>, Seq<MemberV>)| (e.0, dedup_adjacent(sorted_members(e.1))),
                ),
            decreases tbl@.len(),
        {
            let ghost done = out@.len();
            let ghost prev_tbl = tbl@;
            proof {
                assert(role_members_views(prev_tbl)[0] == (prev_tbl[0].role@, member_views(
                    prev_tbl[0].members@,
                )));
                assert(tv.skip(done as int)[0] == tv[done as int]);
            }
            let e = tbl.remove(0);
            proof {
                assert((e.role@, member_views(e.members@)) == tv[done as int]);
                assert forall|j: int| 0 <= j < tbl@.len() implies role_members_views(tbl@)[j]
                    == tv[done + 1 + j] by {
                    assert(tbl@[j] == prev_tbl[j + 1]);
                    assert(role_members_views(prev_tbl)[j + 1] == tv.skip(done as int)[j + 1]);
                }
            }
            let sorted = sort_members(e.members);
            let cleaned = dedup_members(sorted);
            let ghost prev_out = out@;
            out.push(RoleMembers { role: e.role, members: cleaned });
            proof {
                assert forall|j: int| 0 <= j < out@.len() implies role_members_views(out@)[j]
                    == tv.take(out@.len() as int).map_values(
                    |e2: (Seq<char>, Seq<MemberV>)| (e2.0, dedup_adjacent(sorted_members(e2.1))),
                )[j] by {
                    assert(tv.take(out@.len() as int)[j] == tv[j]);
                    if j < prev_out.len() {
                        assert(out@[j] == prev_out[j]);
                        assert(role_members_views(prev_out)[j] == tv.take(done as int).map_values(
                            |e2: (Seq<char>, Seq<MemberV>)| (
                                e2.0,
                                dedup_adjacent(sorted_members(e2.1)),
                            ),
                        )[j]);
                        assert(tv.take(done as int)[j] == tv[j]);
                    } else {
                        assert(out@[j] == out@.last());
                    }
                }
                assert(role_members_views(out@) =~= tv.take(out@.len() as int).map_values(
                    |e2: (Seq<char>, Seq<MemberV>)| (e2.0, dedup_adjacent(sorted_members(e2.1))),
                ));
                assert(role_members_views(tbl@) =~= tv.skip(out@.len() as int));
            }
        }
        proof {
            assert(tv.take(out@.len() as int) =~= tv);
        }
        out
    } else {
        global
    }
}

/// What a raw per-role constraint decodes to: an object with non-negative
/// integer `min` and `max`, or nothing when malformed.
pub open spec fn decode_rcc(v: JVal) -> Option<RoleCountConstraint> {
    if (spec_get(v, "min"@) matches Some(JVal::Int(m)) && 0 <= m) && (spec_get(v, "max"@)
        matches Some(JVal::Int(x)) && 0 <= x) {
        Some(
            RoleCountConstraint {
                min: (spec_get(v, "min"@)->0->Int_0) as usize,
                max: (spec_get(v, "max"@)->0->Int_0) as usize,
            },
        )
    } else {
        None
    }
}

/// Decoding of a constraint map's entries: any malformed entry fails the
/// whole map.
pub open spec fn decode_cons_fold(entries: Seq<(Seq<char>, JVal)>) -> Result<
    Seq<(Seq<char>, RoleCountConstraint)>,
    (),
>
    decreases entries.len(),
{
    if entries.len() == 0 {
        Ok(Seq::empty())
    } else {
        match decode_rcc(entries[0].1) {
            None => Err(()),
            Some(c) => match decode_cons_fold(entries.drop_first()) {
                Ok(cs) => Ok(seq![(entries[0].0, c)] + cs),
                Err(e) => Err(e),
            },
        }
    }
}

/// The band's typed constraints: an absent field is an empty map, a
/// non-object or malformed entry is a hard error.
pub open spec fn band_constraints(band: JVal) -> Result<Seq<(Seq<char>, RoleCountConstraint)>, ()> {
    match spec_get(band, "constraints"@) {
        None => Ok(Seq::empty()),
        Some(JVal::Obj(e)) => decode_cons_fold(crate::json::obj_entry_views(e@)),
        Some(_) => Err(()),
    }
}

/// The views of a typed constraint list.
pub open spec fn cons_views(s: Seq<(String, RoleCountConstraint)>) -> Seq<
    (Seq<char>, RoleCountConstraint),
> {
    s.map_values(|e: (String, RoleCountConstraint)| (e.0@, e.1))
}

/// Decodes the band's raw per-role constraint map into typed constraints;
/// a malformed entry is a hard error naming the requested band.
#[verifier::loop_isolation(false)]
#[verifier::rlimit(30)]
pub fn decode_constraints(band: &JVal, band_ref: &str) -> (r: Result<
    Vec<(String, RoleCountConstraint)>,
    ApiError,
>)
    ensures
        match r {
            Ok(cs) => band_constraints(*band) == Ok::<_, ()>(cons_views(cs@)),
            Err(e) => band_constraints(*band) is Err && e.code@ == "BAND_SETUP_LOAD_FAILED"@
                && e.message@ == "Invalid constraints for band "@ + band_ref@,
        },
{
    let entries: &Vec<(String, JVal)> = match band.get("constraints") {
        None => {
            let empty: Vec<(String, RoleCountConstraint)> = Vec::new();
            proof {
                assert(cons_views(empty@) =~= Seq::<(Seq<char>, RoleCountConstraint)>::empty());
            }
            return Ok(empty);
        },
        Some(c) => match c {
            JVal::Obj(e) => e,
            _ => {
                let mut m = "Invalid constraints for band ".to_owned();
                m.append(band_ref);
                proof {
                    assert(m@ =~= "Invalid constraints for band "@ + band_ref@);
                }
                return Err(api_error_msg("BAND_SETUP_LOAD_FAILED", m));
            },
        },
    };
    let ghost ev = crate::json::obj_entry_views(entries@);
    proof {
        assert(ev.skip(0) =~= ev);
    }
    let mut out: Vec<(String, RoleCountConstraint)> = Vec::new();
    let n = entries.len();
    let mut i: usize = 0;
    while i < n
        invariant
            n == entries@.len(),
            ev.len() == n,
            i <= n,
            match decode_cons_fold(ev.skip(i as int)) {
                Ok(cs) => decode_cons_fold(ev) == Ok::<_, ()>(cons_views(out@) + cs),
                Err(_) => decode_cons_fold(ev) is Err,
            },
        decreases n - i,
    {
        proof {
            assert(ev.skip(i as int)[0] == ev[i as int]);
            assert(ev[i as int] == (entries@[i as int].0@, entries@[i as int].1));
            assert(ev.skip(i as int).drop_first() =~= ev.skip(i as int + 1));
        }
        let raw = &entries[i].1;
        let min_v: Option<&JVal> = raw.get("min");
        let max_v: Option<&JVal> = raw.get("max");
        let decoded: Option<RoleCountConstraint> = match (min_v, max_v) {
            (Some(JVal::Int(m)), Some(JVal::Int(x))) => {
                if *m >= 0 && *x >= 0 {
                    Some(RoleCountConstraint { min: *m as usize, max: *x as usize })
                } else {
                    None
                }
            },
            _ => None,
        };
        match decoded {
            None => {
                proof {
                    assert(decode_rcc(ev[i as int].1) is None);
                }
                let mut m = "Invalid constraints for band ".to_owned();
                m.append(band_ref);
                proof {
                    assert(m@ =~= "Invalid constraints for band "@ + band_ref@);
                }
                return Err(api_error_msg("BAND_SETUP_LOAD_FAILED", m));
            },
            Some(c) => {
                let ghost prev = out@;
                out.push((entries[i].0.clone(), c));
                proof {
                    assert(decode_rcc(ev[i as int].1) == Some(c));
                    assert(cons_views(out@) =~= cons_views(prev).push((ev[i as int].0, c)));
                    match decode_cons_fold(ev.skip(i as int + 1)) {
                        Ok(cs) => {
                            assert(cons_views(prev).push((ev[i as int].0, c)) + cs =~= cons_views(
                                prev,
                            ) + (seq![(ev[i as int].0, c)] + cs));
                        },
                        Err(_) => {
                        },
                    }
                }
            },
        }
        i = i + 1;
    }
    proof {
        assert(ev.skip(i as int).len() == 0);
        assert(cons_views(out@) + Seq::<(Seq<char>, RoleCountConstraint)>::empty() =~= cons_views(
            out@,
        ));
    }
    Ok(out)
}

/// The text of a missing-reference warning.
pub open spec fn warning_text(req: Seq<char>, role: Seq<char>, id: Seq<char>) -> Seq<char> {
    "Band '"@ + req + "' defaultLineup role '"@ + role + "' references missing musician '"@ + id
        + "'"@
}

/// Builds the text of a missing-reference warning.
fn make_warning(req: &str, role: &str, id: &str) -> (r: String)
    ensures
        r@ == warning_text(req@, role@, id@),
{
    let mut s = "Band '".to_owned();
    s.append(req);
    s.append("' defaultLineup role '");
    s.append(role);
    s.append("' references missing musician '");
    s.append(id);
    s.append("'");
    proof {
        assert(s@ =~= warning_text(req@, role@, id@));
    }
    s
}

/// The musician ids a lineup value references: a single string, or the
/// string items of an array.
pub open spec fn lineup_ids(v: JVal) -> Seq<Seq<char>> {
    match v {
        JVal::Str(s) => seq![s@],
        JVal::Arr(a) => str_items(a@),
        _ => Seq::empty(),
    }
}

/// One warning per referenced id absent from the roster, in order.
pub open spec fn missing_warnings(
    ids: Seq<Seq<char>>,
    by_id: Seq<(Seq<char>, MusInfoV)>,
    req: Seq<char>,
    role: Seq<char>,
) -> Seq<Seq<char>>
    decreases ids.len(),
{
    if ids.len() == 0 {
        Seq::empty()
    } else if !sm_has(by_id, ids[0]) {
        seq![warning_text(req, role, ids[0])] + missing_warnings(ids.drop_first(), by_id, req, role)
    } else {
        missing_warnings(ids.drop_first(), by_id, req, role)
    }
}

/// The warnings of every lineup entry, in entry order.
pub open spec fn warnings_fold(
    entries: Seq<(Seq<char>, JVal)>,
    by_id: Seq<(Seq<char>, MusInfoV)>,
    req: Seq<char>,
) -> Seq<Seq<char>>
    decreases entries.len(),
{
    if entries.len() == 0 {
        Seq::empty()
    } else {
        missing_warnings(lineup_ids(entries[0].1), by_id, req, entries[0].0) + warnings_fold(
            entries.drop_first(),
            by_id,
            req,
        )
    }
}

/// The load warnings a normalized default lineup produces: exactly one per
/// referenced musician id absent from the global roster; a non-object
/// lineup produces none.
pub open spec fn lineup_warnings(
    dl: Option<JVal>,
    by_id: Seq<(Seq<char>, MusInfoV)>,
    req: Seq<char>,
) -> Seq<Seq<char>> {
    match dl {
        Some(JVal::Obj(e)) => warnings_fold(crate::json::obj_entry_views(e@), by_id, req),
        _ => Seq::empty(),
    }
}

/// The views of a warning list.
pub open spec fn warn_views(s: Seq<String>) -> Seq<Seq<char>> {
    s.map_values(|w: String| w@)
}

/// Collects the missing-reference warnings of a normalized default lineup.
#[verifier::loop_isolation(false)]
fn collect_warnings(
    dl: &Option<JVal>,
    by_id: &Vec<(String, MusicianInfo)>,
    requested: &str,
) -> (r: Vec<String>)
    ensures
        warn_views(r@) == lineup_warnings(*dl, mus_assoc_view(by_id@), requested@),
{
    let mut out: Vec<String> = Vec::new();
    let entries: &Vec<(String, JVal)> = match dl {
        Some(v) => match v {
            JVal::Obj(e) => e,
            _ => {
                proof {
                    assert(warn_views(out@) =~= Seq::<Seq<char>>::empty());
                }
                return out;
            },
        },
        None => {
            proof {
                assert(warn_views(out@) =~= Seq::<Seq<char>>::empty());
            }
            return out;
        },
    };
    let ghost ev = crate::json::obj_entry_views(entries@);
    let ghost bv = mus_assoc_view(by_id@);
    proof {
        assert(ev.skip(0) =~= ev);
    }
    let n = entries.len();
    let mut i: usize = 0;
    while i < n
        invariant
            n == entries@.len(),
            ev.len() == n,
            i <= n,
            warnings_fold(ev, bv, requested@) == warn_views(out@) + warnings_fold(
                ev.skip(i as int),
                bv,
                requested@,
            ),
        decreases n - i,
    {
        proof {
            assert(ev.skip(i as int)[0] == ev[i as int]);
            assert(ev[i as int] == (entries@[i as int].0@, entries@[i as int].1));
            assert(ev.skip(i as int).drop_first() =~= ev.skip(i as int + 1));
        }
        let role = &entries[i].0;
        let value = &entries[i].1;
        match value {
            JVal::Str(s) => {
                proof {
                    assert(ev[i as int].1 == JVal::Str(*s));
                    assert(lineup_ids(ev[i as int].1) =~= seq![s@]);
                    assert(lineup_ids(ev[i as int].1) == seq![s@]);
                    assert(seq![s@][0] == s@);
                    assert(seq![s@].drop_first() =~= Seq::<Seq<char>>::empty());
                    assert(missing_warnings(
                        Seq::<Seq<char>>::empty(),
                        bv,
                        requested@,
                        ev[i as int].0,
                    ) =~= Seq::<Seq<char>>::empty());
                }
                let known = match mus_assoc_get(by_id, s.as_str()) {
                    Some(_) => true,
                    None => false,
                };
                if !known {
                    let ghost prev = out@;
                    out.push(make_warning(requested, role.as_str(), s.as_str()));
                    proof {
                        assert(warn_views(out@) =~= warn_views(prev).push(
                            warning_text(requested@, ev[i as int].0, s@),
                        ));
                        assert(warn_views(prev).push(warning_text(requested@, ev[i as int].0, s@))
                            + warnings_fold(ev.skip(i as int + 1), bv, requested@) =~= warn_views(
                            prev,
                        ) + (seq![warning_text(requested@, ev[i as int].0, s@)] + warnings_fold(
                            ev.skip(i as int + 1),
                            bv,
                            requested@,
                        )));
                        assert(missing_warnings(lineup_ids(ev[i as int].1), bv, requested@, ev[
                            i as int].0) =~= seq![warning_text(requested@, ev[i as int].0, s@)]);
                    }
                } else {
                    proof {
                        assert(missing_warnings(lineup_ids(ev[i as int].1), bv, requested@, ev[
                            i as int].0) =~= Seq::<Seq<char>>::empty());
                        assert(warn_views(out@) + (Seq::<Seq<char>>::empty() + warnings_fold(
                            ev.skip(i as int + 1),
                            bv,
                            requested@,
                        )) =~= warn_views(out@) + warnings_fold(
                            ev.skip(i as int + 1),
                            bv,
                            requested@,
                        ));
                    }
                }
            },
            JVal::Arr(items) => {
                proof {
                    assert(items@.skip(0) =~= items@);
                }
                let rn = items.len();
                let mut j: usize = 0;
                while j < rn
                    invariant
                        rn == items@.len(),
                        j <= rn,
                        warnings_fold(ev, bv, requested@) == warn_views(out@) + (missing_warnings(
                            str_items(items@.skip(j as int)),
                            bv,
                            requested@,
                            ev[i as int].0,
                        ) + warnings_fold(ev.skip(i as int + 1), bv, requested@)),
                    decreases rn - j,
                {
                    proof {
                        assert(items@.skip(j as int)[0] == items@[j as int]);
                        assert(items@.skip(j as int).drop_first() =~= items@.skip(j as int + 1));
                    }
                    match &items[j] {
                        JVal::Str(s) => {
                            proof {
                                assert(str_items(items@.skip(j as int))[0] == s@);
                                assert(str_items(items@.skip(j as int)).drop_first() =~= str_items(
                                    items@.skip(j as int + 1),
                                ));
                            }
                            let known = match mus_assoc_get(by_id, s.as_str()) {
                                Some(_) => true,
                                None => false,
                            };
                            if !known {
                                let ghost prev = out@;
                                out.push(make_warning(requested, role.as_str(), s.as_str()));
                                proof {
                                    assert(warn_views(out@) =~= warn_views(prev).push(
                                        warning_text(requested@, ev[i as int].0, s@),
                                    ));
                                    assert(warn_views(prev).push(
                                        warning_text(requested@, ev[i as int].0, s@),
                                    ) + (missing_warnings(
                                        str_items(items@.skip(j as int + 1)),
                                        bv,
                                        requested@,
                                        ev[i as int].0,
                                    ) + warnings_fold(ev.skip(i as int + 1), bv, requested@))
                                        =~= warn_views(prev) + ((seq![
                                        warning_text(requested@, ev[i as int].0, s@),
                                    ] + missing_warnings(
                                        str_items(items@.skip(j as int + 1)),
                                        bv,
                                        requested@,
                                        ev[i as int].0,
                                    )) + warnings_fold(ev.skip(i as int + 1), bv, requested@)));
                                }
                            }
                        },
                        _ => {
                            proof {
                                assert(str_items(items@.skip(j as int)) =~= str_items(
                                    items@.skip(j as int + 1),
                                ));
                            }
                        },
                    }
                    j = j + 1;
                }
                proof {
                    assert(str_items(items@.skip(rn as int)).len() == 0);
                    assert(missing_warnings(
                        str_items(items@.skip(rn as int)),
                        bv,
                        requested@,
                        ev[i as int].0,
                    ) =~= Seq::<Seq<char>>::empty());
                    assert(lineup_ids(ev[i as int].1) == str_items(items@));
                    assert(warn_views(out@) + (Seq::<Seq<char>>::empty() + warnings_fold(
                        ev.skip(i as int + 1),
                        bv,
                        requested@,
                    )) =~= warn_views(out@) + warnings_fold(
                        ev.skip(i as int + 1),
                        bv,
                        requested@,
                    ));
                }
            },
            _ => {
                proof {
                    assert(lineup_ids(ev[i as int].1) =~= Seq::<Seq<char>>::empty());
                    assert(missing_warnings(lineup_ids(ev[i as int].1), bv, requested@, ev[
                        i as int].0) =~= Seq::<Seq<char>>::empty());
                    assert(warn_views(out@) + (Seq::<Seq<char>>::empty() + warnings_fold(
                        ev.skip(i as int + 1),
                        bv,
                        requested@,
                    )) =~= warn_views(out@) + warnings_fold(
                        ev.skip(i as int + 1),
                        bv,
                        requested@,
                    ));
                }
            },
        }
        i = i + 1;
    }
    proof {
        assert(ev.skip(i as int).len() == 0);
        assert(warnings_fold(ev.skip(i as int), bv, requested@) =~= Seq::<Seq<char>>::empty());
        assert(warn_views(out@) + Seq::<Seq<char>>::empty() =~= warn_views(out@));
    }
    out
}

/// The composed setup of a band, as handed to the UI: identity, leader and
/// default contact, typed constraints, raw role-constraint hints, the
/// normalized default lineup, the per-role member roster, inferred
/// monitoring defaults, and non-fatal load warnings.
#[derive(Debug)]
pub struct BandSetupData {
    pub id: String,
    pub name: String,
    pub band_leader: Option<String>,
    pub default_contact_id: Option<String>,
    pub constraints: Vec<(String, RoleCountConstraint)>,
    pub role_constraints: Option<JVal>,
    pub default_lineup: Option<JVal>,
    pub members: Vec<RoleMembers>,
    pub musician_defaults: Vec<(String, MonitoringDefault)>,
    pub load_warnings: Vec<String>,
}

/// Whether a resolved setup is exactly what the band record and the role
/// directories determine.
pub open spec fn setup_matches(
    band: JVal,
    roles_v: Seq<(Seq<char>, Seq<(Seq<char>, Seq<char>)>)>,
    req: Seq<char>,
    setup: BandSetupData,
) -> bool {
    match roster_scan(roles_v, Seq::empty(), Seq::empty()) {
        Ok(ros) => {
            &&& setup.id@ == match spec_str_field(band, "id"@) {
                Some(s) => s,
                None => Seq::<char>::empty(),
            }
            &&& setup.name@ == match spec_str_field(band, "name"@) {
                Some(s) => s,
                None => Seq::<char>::empty(),
            }
            &&& crate::sorting::opt_key_view(setup.band_leader) == spec_str_field(
                band,
                "bandLeader"@,
            )
            &&& crate::sorting::opt_key_view(setup.default_contact_id) == spec_str_field(
                band,
                "defaultContactId"@,
            )
            &&& band_constraints(band) == Ok::<_, ()>(cons_views(setup.constraints@))
            &&& setup.role_constraints == spec_get(band, "roleConstraints"@)
            &&& normalize_lineup_post(spec_get(band, "defaultLineup"@), setup.default_lineup)
            &&& role_members_views(setup.members@) == final_members(band, ros.0, ros.2)
            &&& def_assoc_view(setup.musician_defaults@) == ros.1
            &&& warn_views(setup.load_warnings@) == lineup_warnings(
                setup.default_lineup,
                ros.0,
                req,
            )
        },
        Err(_) => false,
    }
}

/// Resolves a band's setup: looks the band up by reference, builds the
/// global per-role roster with monitoring defaults, applies the band's
/// membership restriction, normalizes the default lineup, decodes the
/// headcount constraints, and flags lineup references missing from the
/// roster. Resolution never writes.
pub fn get_band_setup_data(band_files: &StrMap, roles: &Vec<RoleFiles>, band_id: &str) -> (r:
    Result<BandSetupData, ApiError>)
    ensures
        match r {
            Ok(setup) => band_scan(band_files@, trim_spec(band_id@)) matches Ok(Some(band))
                && setup_matches(band, role_files_views(roles@), trim_spec(band_id@), setup),
            Err(e) => {
                &&& !(band_scan(band_files@, trim_spec(band_id@)) matches Ok(Some(_)))
                    || roster_scan(role_files_views(roles@), Seq::empty(), Seq::empty()) is Err
                    || (band_scan(band_files@, trim_spec(band_id@)) matches Ok(Some(b))
                    && band_constraints(b) is Err)
                &&& (e.code@ == "BAND_NOT_FOUND"@ <==> (band_scan(band_files@, trim_spec(band_id@))
                    matches Ok(opt) && opt is None))
                &&& (e.code@ == "BAND_NOT_FOUND"@ || e.code@ == "BAND_SETUP_LOAD_FAILED"@)
                &&& (band_scan(band_files@, trim_spec(band_id@)) matches Ok(opt) && opt is None
                    ==> e.message@ == "Band not found for reference '"@ + trim_spec(band_id@)
                    + "' (checked id and code)"@)
                &&& (band_scan(band_files@, trim_spec(band_id@)) matches Ok(Some(b)) && !(
                roster_scan(role_files_views(roles@), Seq::empty(), Seq::empty()) is Err)
                    && band_constraints(b) is Err ==> e.message@
                    == "Invalid constraints for band "@ + band_id@)
            },
        },
{
    proof {
        reveal_strlit("BAND_NOT_FOUND");
        reveal_strlit("BAND_SETUP_LOAD_FAILED");
        assert("BAND_NOT_FOUND"@.len() == 14);
        assert("BAND_SETUP_LOAD_FAILED"@.len() == 22);
        assert("BAND_NOT_FOUND"@ != "BAND_SETUP_LOAD_FAILED"@);
    }
    let band = match find_band(band_files, band_id) {
        Ok(v) => v,
        Err(e) => {
            return Err(e);
        },
    };
    let requested = trim_str(band_id);
    let rostered = match build_roster(roles) {
        Ok(t) => t,
        Err(e) => {
            return Err(e);
        },
    };
    let by_id = rostered.0;
    let musician_defaults = rostered.1;
    let global_members = rostered.2;
    let constraints = match decode_constraints(&band, band_id) {
        Ok(cs) => cs,
        Err(e) => {
            return Err(e);
        },
    };
    let id = match band.str_field("id") {
        Some(s) => s,
        None => String::new(),
    };
    let name = match band.str_field("name") {
        Some(s) => s,
        None => String::new(),
    };
    let band_leader = band.str_field("bandLeader");
    let default_contact_id = band.str_field("defaultContactId");
    let members = restrict_members(&band, &by_id, global_members);
    let ghost band0 = band;
    let (band1, role_constraints) = crate::json::take_field(band, "roleConstraints");
    let (_, raw_lineup) = crate::json::take_field(band1, "defaultLineup");
    proof {
        reveal_strlit("roleConstraints");
        reveal_strlit("defaultLineup");
        assert("roleConstraints"@.len() == 15);
        assert("defaultLineup"@.len() == 13);
        assert("roleConstraints"@ != "defaultLineup"@);
        lemma_take_other_field(band0, band1, "roleConstraints"@, "defaultLineup"@);
    }
    let default_lineup = normalize_default_lineup_keys(raw_lineup);
    let load_warnings = collect_warnings(&default_lineup, &by_id, requested.as_str());
    Ok(
        BandSetupData {
            id,
            name,
            band_leader,
            default_contact_id,
            constraints,
            role_constraints,
            default_lineup,
            members,
            musician_defaults,
            load_warnings,
        },
    )
}

/// Removing one field of an object leaves lookups of any other field
/// unchanged.
proof fn lemma_take_other_field(v0: JVal, v1: JVal, removed: Seq<char>, other: Seq<char>)
    requires
        removed != other,
        match v0 {
            JVal::Obj(e) => v1 matches JVal::Obj(e2) && crate::json::obj_entry_views(e2@)
                == crate::kv::sm_remove(crate::json::obj_entry_views(e@), removed),
            _ => v1 == v0,
        },
    ensures
        spec_get(v1, other) == spec_get(v0, other),
{
    match v0 {
        JVal::Obj(e) => {
            match v1 {
                JVal::Obj(e2) => {
                    crate::json::lemma_obj_get_is_sm_get(e@, other);
                    crate::json::lemma_obj_get_is_sm_get(e2@, other);
                    crate::kv::lemma_sm_remove_other(
                        crate::json::obj_entry_views(e@),
                        removed,
                        other,
                    );
                },
                _ => {
                    assert(false);
                },
            }
        },
        _ => {
        },
    }
}


/// Every deduplicated element is an element of the input.
proof fn lemma_dedup_elements(s: Seq<MemberV>)
    ensures
        forall|i: int|
            0 <= i < dedup_adjacent(s).len() ==> exists|j: int|
                0 <= j < s.len() && s[j] == (#[trigger] dedup_adjacent(s)[i]),
    decreases s.len(),
{
    if s.len() > 1 {
        lemma_dedup_elements(s.drop_last());
        let d = dedup_adjacent(s);
        assert forall|i: int|
            0 <= i < d.len() implies exists|j: int| 0 <= j < s.len() && s[j] == (#[trigger] d[
            i]) by {
            if s.last().id == s[s.len() - 2].id || i < dedup_adjacent(s.drop_last()).len() {
                let j = choose|j: int|
                    0 <= j < s.drop_last().len() && s.drop_last()[j] == dedup_adjacent(
                        s.drop_last(),
                    )[i];
                assert(s[j] == d[i]);
            } else {
                assert(d[i] == s.last());
                assert(s[s.len() - 1] == d[i]);
            }
        }
    } else if s.len() == 1 {
        assert(s[0] == dedup_adjacent(s)[0]);
    }
}

/// Deduplication keeps a name-sorted run sorted.
proof fn lemma_dedup_sorted(s: Seq<MemberV>)
    requires
        forall|i: int, j: int|
            0 <= i < j < s.len() ==> crate::text::lex_leq(
                lower_seq(s[i].name),
                lower_seq(s[j].name),
            ),
    ensures
        forall|i: int, j: int|
            0 <= i < j < dedup_adjacent(s).len() ==> crate::text::lex_leq(
                lower_seq(dedup_adjacent(s)[i].name),
                lower_seq(dedup_adjacent(s)[j].name),
            ),
    decreases s.len(),
{
    if s.len() > 1 {
        assert forall|i: int, j: int|
            0 <= i < j < s.drop_last().len() implies crate::text::lex_leq(
            lower_seq(s.drop_last()[i].name),
            lower_seq(s.drop_last()[j].name),
        ) by {
            assert(s.drop_last()[i] == s[i] && s.drop_last()[j] == s[j]);
        }
        lemma_dedup_sorted(s.drop_last());
        if s.last().id == s[s.len() - 2].id {
            assert(dedup_adjacent(s) == dedup_adjacent(s.drop_last()));
            assert forall|i: int, j: int|
                0 <= i < j < dedup_adjacent(s).len() implies crate::text::lex_leq(
                lower_seq(dedup_adjacent(s)[i].name),
                lower_seq(dedup_adjacent(s)[j].name),
            ) by {
                assert(dedup_adjacent(s)[i] == dedup_adjacent(s.drop_last())[i]);
                assert(dedup_adjacent(s)[j] == dedup_adjacent(s.drop_last())[j]);
            }
        } else {
            lemma_dedup_elements(s.drop_last());
            let d = dedup_adjacent(s);
            let t = dedup_adjacent(s.drop_last());
            assert forall|i: int, j: int|
                0 <= i < j < d.len() implies crate::text::lex_leq(
                lower_seq(d[i].name),
                lower_seq(d[j].name),
            ) by {
                if j < t.len() {
                    assert(d[i] == t[i] && d[j] == t[j]);
                } else {
                    assert(d[j] == s.last());
                    assert(d[i] == t[i]);
                    let w = choose|w: int|
                        0 <= w < s.drop_last().len() && s.drop_last()[w] == t[i];
                    assert(s[w] == t[i]);
                    assert(crate::text::lex_leq(lower_seq(s[w].name), lower_seq(s[s.len()
                        - 1].name)));
                }
            }
        }
    }
}

/// Law: a role's offered member list is sorted by lower-cased display
/// name, whatever order the sources supplied, and deduplication keeps that
/// order.
pub proof fn lemma_role_members_sorted(ms: Seq<MemberV>)
    ensures
        forall|i: int, j: int|
            0 <= i < j < sorted_members(ms).len() ==> crate::text::lex_leq(
                lower_seq(sorted_members(ms)[i].name),
                lower_seq(sorted_members(ms)[j].name),
            ),
        forall|i: int, j: int|
            0 <= i < j < dedup_adjacent(sorted_members(ms)).len() ==> crate::text::lex_leq(
                lower_seq(dedup_adjacent(sorted_members(ms))[i].name),
                lower_seq(dedup_adjacent(sorted_members(ms))[j].name),
            ),
{
    let keyed = member_keyed(ms);
    crate::sorting::lemma_sort_asc_sorted(keyed);
    crate::sorting::lemma_sort_asc_elements(keyed);
    let sorted_pairs = crate::sorting::sort_asc(keyed);
    assert forall|i: int| 0 <= i < sorted_pairs.len() implies (#[trigger] sorted_pairs[i]).0
        == lower_seq(sorted_pairs[i].1.name) by {
        let j = choose|j: int| 0 <= j < keyed.len() && keyed[j] == sorted_pairs[i];
        assert(keyed[j] == (lower_seq(ms[j].name), ms[j]));
    }
    assert(forall|i: int|
        0 <= i < sorted_members(ms).len() ==> #[trigger] sorted_members(ms)[i]
            == sorted_pairs[i].1);
    assert forall|i: int, j: int|
        0 <= i < j < sorted_members(ms).len() implies crate::text::lex_leq(
        lower_seq(sorted_members(ms)[i].name),
        lower_seq(sorted_members(ms)[j].name),
    ) by {
        assert(crate::text::lex_leq(sorted_pairs[i].0, sorted_pairs[j].0));
    }
    lemma_dedup_sorted(sorted_members(ms));
}


/// The member table of a roster scan carries exactly the scanned roles, in
/// order.
proof fn lemma_roster_scan_keys(
    roles: Seq<(Seq<char>, Seq<(Seq<char>, Seq<char>)>)>,
    by_id: Seq<(Seq<char>, MusInfoV)>,
    defaults: Seq<(Seq<char>, MonitoringDefault)>,
)
    ensures
        roster_scan(roles, by_id, defaults) matches Ok(t) ==> t.2.len() == roles.len() && (forall|
            i: int,
        | 0 <= i < roles.len() ==> (#[trigger] t.2[i]).0 == roles[i].0),
    decreases roles.len(),
{
    if roles.len() > 0 {
        match role_scan(roles[0].1, roles[0].0, by_id, defaults) {
            Err(_) => {
            },
            Ok(t) => {
                lemma_roster_scan_keys(roles.drop_first(), t.0, t.1);
                match roster_scan(roles.drop_first(), t.0, t.1) {
                    Ok(t2) => {
                        assert forall|i: int|
                            0 <= i < roles.len() implies (#[trigger] (seq![
                            (roles[0].0, dedup_adjacent(sorted_members(t.2))),
                        ] + t2.2)[i]).0 == roles[i].0 by {
                            if i > 0 {
                                assert(t2.2[i - 1].0 == roles.drop_first()[i - 1].0);
                                assert(roles.drop_first()[i - 1] == roles[i]);
                            }
                        }
                    },
                    Err(_) => {
                    },
                }
            },
        }
    }
}

/// Adding members to the restriction table never changes its role keys.
proof fn lemma_add_to_role_keys(
    tbl: Seq<(Seq<char>, Seq<MemberV>)>,
    role: Seq<char>,
    m: MemberV,
)
    ensures
        add_to_role(tbl, role, m).len() == tbl.len(),
        forall|i: int|
            0 <= i < tbl.len() ==> (#[trigger] add_to_role(tbl, role, m)[i]).0 == tbl[i].0,
{
    if sm_has(tbl, role) {
        crate::kv::lemma_sm_idx(tbl, role);
    }
}

/// Adding a member under several roles never changes the table's keys.
proof fn lemma_add_roles_keys(
    tbl: Seq<(Seq<char>, Seq<MemberV>)>,
    rs: Seq<Seq<char>>,
    m: MemberV,
)
    ensures
        add_roles(tbl, rs, m).len() == tbl.len(),
        forall|i: int| 0 <= i < tbl.len() ==> (#[trigger] add_roles(tbl, rs, m)[i]).0 == tbl[i].0,
    decreases rs.len(),
{
    if rs.len() > 0 {
        lemma_add_to_role_keys(tbl, rs[0], m);
        lemma_add_roles_keys(add_to_role(tbl, rs[0], m), rs.drop_first(), m);
    }
}

/// The whole restriction fold never changes the table's role keys.
proof fn lemma_restrict_fold_keys(
    ms: Seq<JVal>,
    by_id: Seq<(Seq<char>, MusInfoV)>,
    tbl: Seq<(Seq<char>, Seq<MemberV>)>,
)
    ensures
        restrict_fold(ms, by_id, tbl).len() == tbl.len(),
        forall|i: int|
            0 <= i < tbl.len() ==> (#[trigger] restrict_fold(ms, by_id, tbl)[i]).0 == tbl[i].0,
    decreases ms.len(),
{
    if ms.len() > 0 {
        let mid = match spec_str_field(ms[0], "musicianId"@) {
            Some(s) => s,
            None => Seq::empty(),
        };
        let tbl2 = if mid.len() == 0 {
            tbl
        } else {
            match sm_get(by_id, mid) {
                None => tbl,
                Some(info) => {
                    let m = MemberV { id: mid, name: info.name };
                    match spec_get(ms[0], "roles"@) {
                        Some(JVal::Arr(rs)) => add_roles(tbl, str_items(rs@), m),
                        _ => add_to_role(tbl, info.role, m),
                    }
                },
            }
        };
        if mid.len() > 0 {
            match sm_get(by_id, mid) {
                None => {
                },
                Some(info) => {
                    let m = MemberV { id: mid, name: info.name };
                    match spec_get(ms[0], "roles"@) {
                        Some(JVal::Arr(rs)) => {
                            lemma_add_roles_keys(tbl, str_items(rs@), m);
                        },
                        _ => {
                            lemma_add_to_role_keys(tbl, info.role, m);
                        },
                    }
                },
            }
        }
        lemma_restrict_fold_keys(ms.drop_first(), by_id, tbl2);
    }
}

/// Law: the resolved setup offers exactly one member list per recognized
/// stage role, in canonical order, whether or not any musician qualifies —
/// provided the role directories supplied are the recognized roles.
pub proof fn lemma_members_closed_role_set(
    band: JVal,
    roles_v: Seq<(Seq<char>, Seq<(Seq<char>, Seq<char>)>)>,
    req: Seq<char>,
    setup: BandSetupData,
)
    requires
        setup_matches(band, roles_v, req, setup),
        roles_v.len() == role_names().len(),
        forall|i: int| 0 <= i < roles_v.len() ==> (#[trigger] roles_v[i]).0 == role_names()[i],
    ensures
        setup.members@.len() == role_names().len(),
        forall|i: int|
            0 <= i < setup.members@.len() ==> (#[trigger] setup.members@[i]).role@
                == role_names()[i],
{
    lemma_roster_scan_keys(roles_v, Seq::empty(), Seq::empty());
    match roster_scan(roles_v, Seq::empty(), Seq::empty()) {
        Ok(ros) => {
            let fm = final_members(band, ros.0, ros.2);
            assert(role_members_views(setup.members@) == fm);
            match spec_get(band, "members"@) {
                Some(JVal::Arr(ms)) => {
                    lemma_restrict_fold_keys(ms@, ros.0, empty_table());
                    let tbl = restrict_fold(ms@, ros.0, empty_table());
                    assert(forall|i: int|
                        0 <= i < empty_table().len() ==> (#[trigger] empty_table()[i]).0
                            == role_names()[i]);
                    if exists|i: int| 0 <= i < tbl.len() && (#[trigger] tbl[i]).1.len() > 0 {
                        assert(fm.len() == tbl.len());
                        assert forall|i: int|
                            0 <= i < setup.members@.len() implies (#[trigger] setup.members@[
                            i]).role@ == role_names()[i] by {
                            assert(fm[i] == (tbl[i].0, dedup_adjacent(sorted_members(tbl[i].1))));
                            assert(role_members_views(setup.members@)[i] == fm[i]);
                            assert(role_members_views(setup.members@)[i].0 == setup.members@[
                                i].role@);
                            assert(tbl[i].0 == empty_table()[i].0);
                            assert(empty_table()[i].0 == role_names()[i]);
                        }
                    } else {
                        assert forall|i: int|
                            0 <= i < setup.members@.len() implies (#[trigger] setup.members@[
                            i]).role@ == role_names()[i] by {
                            assert(role_members_views(setup.members@)[i] == ros.2[i]);
                            assert(role_members_views(setup.members@)[i].0 == setup.members@[
                                i].role@);
                            assert(ros.2[i].0 == roles_v[i].0);
                        }
                    }
                },
                _ => {
                    assert forall|i: int|
                        0 <= i < setup.members@.len() implies (#[trigger] setup.members@[i]).role@
                        == role_names()[i] by {
                        assert(role_members_views(setup.members@)[i] == ros.2[i]);
                        assert(role_members_views(setup.members@)[i].0 == setup.members@[
                            i].role@);
                        assert(ros.2[i].0 == roles_v[i].0);
                    }
                },
            }
        },
        Err(_) => {
        },
    }
}

} // verus!
