//! A structured JSON value: documents are parsed once at the boundary into
//! this explicit representation, and all field extraction and traversal is
//! performed on it in verified code.
use vstd::prelude::*;

verus! {

/// A parsed JSON value. Numbers outside the signed 64-bit range (and
/// fractional numbers) are represented as `Other`: no recognized field of
/// any document here carries them.
#[derive(Debug)]
pub enum JVal {
    Null,
    Bool(bool),
    Int(i64),
    Str(String),
    Arr(Vec<JVal>),
    Obj(Vec<(String, JVal)>),
    Other,
}

/// Declares serde_json::Value so that the parsing boundary below can hold
/// and convert it; values of it are opaque here.
#[verifier::external_type_specification]
#[verifier::external_body]
pub struct ExValue(serde_json::Value);

/// What parsing a text as JSON yields: `None` on malformed input, otherwise
/// the structured value. A function of the text alone.
pub uninterp spec fn json_of(s: Seq<char>) -> Option<JVal>;

/// Converts a parsed serde_json tree into the structured value, variant by
/// variant. Only called by `parse_json` below.
#[verifier::external_body]
fn jval_from(v: &serde_json::Value) -> JVal {
    match v {
        serde_json::Value::Null => JVal::Null,
        serde_json::Value::Bool(b) => JVal::Bool(*b),
        serde_json::Value::Number(n) => match n.as_i64() {
            Some(i) => JVal::Int(i),
            None => JVal::Other,
        },
        serde_json::Value::String(s) => JVal::Str(s.clone()),
        serde_json::Value::Array(a) => JVal::Arr(a.iter().map(|x| jval_from(x)).collect()),
        serde_json::Value::Object(o) => JVal::Obj(
            o.iter().map(|(k, x)| (k.clone(), jval_from(x))).collect(),
        ),
    }
}

/// Relies on serde_json::from_str::<Value>: parses a JSON document, `None`
/// exactly on malformed input; the result is a function of the text alone.
#[verifier::external_body]
pub(crate) fn parse_json(text: &str) -> (r: Option<JVal>)
    ensures
        r == json_of(text@),
{
    match serde_json::from_str::<serde_json::Value>(text) {
        Ok(v) => Some(jval_from(&v)),
        Err(_) => None,
    }
}

/// First value under the given key in an object's entry list.
pub open spec fn spec_obj_get(entries: Seq<(String, JVal)>, key: Seq<char>) -> Option<JVal>
    decreases entries.len(),
{
    if entries.len() == 0 {
        None
    } else if entries[0].0@ == key {
        Some(entries[0].1)
    } else {
        spec_obj_get(entries.drop_first(), key)
    }
}

/// The value of a field of an object value, when the value is an object and
/// the field is present.
pub open spec fn spec_get(v: JVal, key: Seq<char>) -> Option<JVal> {
    match v {
        JVal::Obj(entries) => spec_obj_get(entries@, key),
        _ => None,
    }
}

/// The string content of a field of an object value, when present and a
/// string.
pub open spec fn spec_str_field(v: JVal, key: Seq<char>) -> Option<Seq<char>> {
    match spec_get(v, key) {
        Some(JVal::Str(s)) => Some(s@),
        _ => None,
    }
}

impl JVal {
    /// Looks up a field of an object value.
    pub fn get<'a>(&'a self, key: &str) -> (r: Option<&'a JVal>)
        ensures
            match r {
                Some(x) => spec_get(*self, key@) == Some(*x),
                None => spec_get(*self, key@) is None,
            },
    {
        match self {
            JVal::Obj(entries) => {
                proof {
                    assert(entries@.skip(0) =~= entries@);
                    assert(spec_get(*self, key@) == spec_obj_get(entries@, key@));
                }
                let mut i: usize = 0;
                while i < entries.len()
                    invariant
                        i <= entries.len(),
                        spec_get(*self, key@) == spec_obj_get(entries@, key@),
                        spec_obj_get(entries@, key@) == spec_obj_get(
                            entries@.skip(i as int),
                            key@,
                        ),
                    decreases entries.len() - i,
                {
                    proof {
                        assert(entries@.skip(i as int)[0] == entries@[i as int]);
                        assert(entries@.skip(i as int).drop_first() =~= entries@.skip(
                            i as int + 1,
                        ));
                    }
                    if crate::text::str_eq(entries[i].0.as_str(), key) {
                        proof {
                            assert(entries@.skip(i as int)[0].0@ == key@);
                            assert(spec_obj_get(entries@.skip(i as int), key@) == Some(
                                entries@[i as int].1,
                            ));
                        }
                        return Some(&entries[i].1);
                    }
                    i = i + 1;
                }
                proof {
                    assert(entries@.skip(i as int).len() == 0);
                }
                None
            },
            _ => None,
        }
    }

    /// The string content of this value, when it is a string.
    pub fn as_str<'a>(&'a self) -> (r: Option<&'a String>)
        ensures
            match r {
                Some(s) => self matches JVal::Str(x) && x == s,
                None => !(self matches JVal::Str(_)),
            },
    {
        match self {
            JVal::Str(s) => Some(s),
            _ => None,
        }
    }

    /// The string content of a field of this value, cloned, when the field
    /// is present and a string.
    pub fn str_field(&self, key: &str) -> (r: Option<String>)
        ensures
            match r {
                Some(s) => spec_str_field(*self, key@) == Some(s@),
                None => spec_str_field(*self, key@) is None,
            },
    {
        match self.get(key) {
            Some(v) => match v.as_str() {
                Some(s) => Some(s.clone()),
                None => None,
            },
            None => None,
        }
    }
}

/// The entry views of an object value's entry list.
pub open spec fn obj_entry_views(entries: Seq<(String, JVal)>) -> Seq<(Seq<char>, JVal)> {
    entries.map_values(|e: (String, JVal)| (e.0@, e.1))
}

/// Field lookup coincides with first-match lookup over the entry views.
pub proof fn lemma_obj_get_is_sm_get(entries: Seq<(String, JVal)>, key: Seq<char>)
    ensures
        spec_obj_get(entries, key) == crate::kv::sm_get(obj_entry_views(entries), key),
    decreases entries.len(),
{
    crate::kv::lemma_sm_idx(obj_entry_views(entries), key);
    if entries.len() > 0 {
        assert(obj_entry_views(entries)[0] == (entries[0].0@, entries[0].1));
        if entries[0].0@ != key {
            lemma_obj_get_is_sm_get(entries.drop_first(), key);
            assert(obj_entry_views(entries.drop_first()) =~= obj_entry_views(
                entries,
            ).drop_first());
        }
    }
}

/// Extracts a field of an object value by value: the field's value (moved
/// out), and the value without that entry; the first entry under the key
/// is the one removed. Non-objects pass through with no field.
#[verifier::loop_isolation(false)]
pub fn take_field(v: JVal, key: &str) -> (r: (JVal, Option<JVal>))
    ensures
        match r.1 {
            Some(x) => spec_get(v, key@) == Some(x),
            None => spec_get(v, key@) is None,
        },
        match v {
            JVal::Obj(e) => r.0 matches JVal::Obj(e2) && obj_entry_views(e2@)
                == crate::kv::sm_remove(obj_entry_views(e@), key@),
            _ => r.0 == v,
        },
{
    let entries: Vec<(String, JVal)> = match v {
        JVal::Obj(e) => e,
        other => {
            return (other, None);
        },
    };
    let ghost orig = entries@;
    proof {
        assert(entries@.skip(0) =~= entries@);
        crate::kv::lemma_sm_idx(obj_entry_views(orig), key@);
    }
    let mut entries = entries;
    let mut i: usize = 0;
    while i < entries.len()
        invariant
            entries@ == orig,
            i <= orig.len(),
            spec_obj_get(orig, key@) == spec_obj_get(orig.skip(i as int), key@),
            forall|j: int| 0 <= j < i ==> (#[trigger] orig[j]).0@ != key@,
        decreases orig.len() - i,
    {
        proof {
            assert(orig.skip(i as int)[0] == orig[i as int]);
            assert(orig.skip(i as int).drop_first() =~= orig.skip(i as int + 1));
        }
        if crate::text::str_eq(entries[i].0.as_str(), key) {
            let e = entries.remove(i);
            proof {
                assert(e == orig[i as int]);
                assert(spec_obj_get(orig.skip(i as int), key@) == Some(orig[i as int].1));
                assert forall|j: int| 0 <= j < i implies obj_entry_views(orig)[j].0 != key@ by {
                    assert(obj_entry_views(orig)[j] == (orig[j].0@, orig[j].1));
                }
                crate::kv::lemma_sm_idx_unique(obj_entry_views(orig), key@, i as int);
                assert(obj_entry_views(entries@) =~= crate::kv::sm_remove(
                    obj_entry_views(orig),
                    key@,
                ));
            }
            return (JVal::Obj(entries), Some(e.1));
        }
        i = i + 1;
    }
    proof {
        assert(orig.skip(i as int).len() == 0);
        crate::kv::lemma_sm_has_exists(obj_entry_views(orig), key@);
        if crate::kv::sm_has(obj_entry_views(orig), key@) {
            let w = choose|w: int|
                0 <= w < obj_entry_views(orig).len() && (#[trigger] obj_entry_views(orig)[w].0)
                    == key@;
            assert(obj_entry_views(orig)[w] == (orig[w].0@, orig[w].1));
        }
        assert(obj_entry_views(entries@) =~= crate::kv::sm_remove(obj_entry_views(orig), key@));
    }
    (JVal::Obj(entries), None)
}

/// Structural equality of two JSON values, comparing string contents.
pub open spec fn jval_eqv(a: JVal, b: JVal) -> bool
    decreases a,
{
    match a {
        JVal::Null => b is Null,
        JVal::Bool(x) => b matches JVal::Bool(y) && x == y,
        JVal::Int(x) => b matches JVal::Int(y) && x == y,
        JVal::Str(x) => b matches JVal::Str(y) && x == y,
        JVal::Other => b is Other,
        JVal::Arr(x) => b matches JVal::Arr(y) && x@.len() == y@.len() && (forall|i: int|
            0 <= i < x@.len() ==> jval_eqv(#[trigger] x@[i], y@[i])),
        JVal::Obj(x) => b matches JVal::Obj(y) && x@.len() == y@.len() && (forall|i: int|
            0 <= i < x@.len() ==> (#[trigger] x@[i]).0 == y@[i].0 && jval_eqv(x@[i].1, y@[i].1)),
    }
}

impl JVal {
    /// A structurally equal copy of this value.
    #[verifier::loop_isolation(false)]
    pub fn duplicate(&self) -> (r: JVal)
        ensures
            jval_eqv(r, *self),
        decreases *self,
    {
        match self {
            JVal::Null => JVal::Null,
            JVal::Bool(b) => JVal::Bool(*b),
            JVal::Int(i) => JVal::Int(*i),
            JVal::Str(s) => JVal::Str(s.clone()),
            JVal::Other => JVal::Other,
            JVal::Arr(items) => {
                let mut out: Vec<JVal> = Vec::new();
                let mut i: usize = 0;
                while i < items.len()
                    invariant
                        i <= items@.len(),
                        out@.len() == i,
                        forall|j: int| 0 <= j < i ==> jval_eqv(#[trigger] out@[j], items@[j]),
                    decreases items@.len() - i,
                {
                    proof {
                        assert(*self == JVal::Arr(*items));
                        assert(decreases_to!(*self => *items));
                        vstd::std_specs::vec::axiom_vec_index_decreases(*items, i as int);
                    }
                    let c = items[i].duplicate();
                    out.push(c);
                    i = i + 1;
                }
                JVal::Arr(out)
            },
            JVal::Obj(entries) => {
                let mut out: Vec<(String, JVal)> = Vec::new();
                let mut i: usize = 0;
                while i < entries.len()
                    invariant
                        i <= entries@.len(),
                        out@.len() == i,
                        forall|j: int|
                            0 <= j < i ==> (#[trigger] out@[j]).0 == entries@[j].0 && jval_eqv(
                                out@[j].1,
                                entries@[j].1,
                            ),
                    decreases entries@.len() - i,
                {
                    proof {
                        assert(*self == JVal::Obj(*entries));
                        assert(decreases_to!(*self => *entries));
                        vstd::std_specs::vec::axiom_vec_index_decreases(*entries, i as int);
                        assert(decreases_to!(entries@[i as int] => entries@[i as int].1));
                    }
                    let k = entries[i].0.clone();
                    let c = entries[i].1.duplicate();
                    out.push((k, c));
                    i = i + 1;
                }
                JVal::Obj(out)
            },
        }
    }
}

} // verus!
