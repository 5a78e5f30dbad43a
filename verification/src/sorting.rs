//! Stable sorting of keyed values. Items are paired with a precomputed
//! string key — ascending by key, or descending by optional key — sorted by
//! insertion, and unwrapped again by the caller. The sort order is specified
//! on key views, while the carried values flow through unchanged.
use vstd::prelude::*;
use crate::text::{lex_leq, lex_leq_strs};

verus! {

/// Stable insertion of a keyed value into an ascending-sorted run: the
/// value goes after every element whose key is less than or equal to its
/// own.
pub open spec fn insert_asc<T>(s: Seq<(Seq<char>, T)>, x: (Seq<char>, T)) -> Seq<(Seq<char>, T)>
    decreases s.len(),
{
    if s.len() == 0 {
        seq![x]
    } else if lex_leq(s.last().0, x.0) {
        s.push(x)
    } else {
        insert_asc(s.drop_last(), x).push(s.last())
    }
}

/// Stable ascending insertion sort by key.
pub open spec fn sort_asc<T>(s: Seq<(Seq<char>, T)>) -> Seq<(Seq<char>, T)>
    decreases s.len(),
{
    if s.len() == 0 {
        Seq::empty()
    } else {
        insert_asc(sort_asc(s.drop_last()), s.last())
    }
}

/// The key views of a list of keyed values.
pub open spec fn key_views<T>(s: Seq<(String, T)>) -> Seq<(Seq<char>, T)> {
    s.map_values(|p: (String, T)| (p.0@, p.1))
}

fn insert_asc_exec<T>(v: Vec<(String, T)>, x: (String, T)) -> (r: Vec<(String, T)>)
    ensures
        key_views(r@) == insert_asc(key_views(v@), (x.0@, x.1)),
    decreases v@.len(),
{
    let mut v = v;
    let ghost orig = v@;
    let ghost xv = (x.0@, x.1);
    if v.len() == 0 {
        v.push(x);
        proof {
            assert(key_views(v@) =~= insert_asc(key_views(orig), xv));
        }
        v
    } else {
        let leq = lex_leq_strs(v[v.len() - 1].0.as_str(), x.0.as_str());
        if leq {
            v.push(x);
            proof {
                assert(key_views(orig).last() == (orig.last().0@, orig.last().1));
                assert(key_views(v@) =~= key_views(orig).push(xv));
            }
            v
        } else {
            let last = v.remove(v.len() - 1);
            proof {
                assert(key_views(orig).last() == (orig.last().0@, orig.last().1));
                assert(key_views(v@) =~= key_views(orig).drop_last());
            }
            let mut w = insert_asc_exec(v, x);
            w.push(last);
            proof {
                assert(key_views(w@) =~= insert_asc(key_views(orig).drop_last(), xv).push(
                    key_views(orig).last(),
                ));
            }
            w
        }
    }
}

/// Sorts keyed values ascending by key, stably.
pub fn sort_asc_exec<T>(v: Vec<(String, T)>) -> (r: Vec<(String, T)>)
    ensures
        key_views(r@) == sort_asc(key_views(v@)),
    decreases v@.len(),
{
    let mut v = v;
    if v.len() == 0 {
        proof {
            assert(key_views(v@) =~= sort_asc(key_views(v@)));
        }
        v
    } else {
        let ghost orig = v@;
        let last = v.remove(v.len() - 1);
        proof {
            assert(key_views(v@) =~= key_views(orig).drop_last());
            assert(key_views(orig).last() == (orig.last().0@, orig.last().1));
        }
        insert_asc_exec(sort_asc_exec(v), last)
    }
}

/// An ascending run stays ascending under stable insertion.
proof fn lemma_insert_asc_sorted<T>(s: Seq<(Seq<char>, T)>, x: (Seq<char>, T))
    requires
        forall|i: int, j: int| 0 <= i < j < s.len() ==> lex_leq(s[i].0, s[j].0),
    ensures
        forall|i: int, j: int|
            0 <= i < j < insert_asc(s, x).len() ==> lex_leq(
                insert_asc(s, x)[i].0,
                insert_asc(s, x)[j].0,
            ),
    decreases s.len(),
{
    let r = insert_asc(s, x);
    if s.len() == 0 {
    } else if lex_leq(s.last().0, x.0) {
        assert forall|i: int, j: int| 0 <= i < j < r.len() implies lex_leq(r[i].0, r[j].0) by {
            if j < s.len() {
                assert(r[i] == s[i] && r[j] == s[j]);
            } else {
                assert(r[j] == x);
                if i < s.len() - 1 {
                    assert(lex_leq(s[i].0, s[s.len() - 1].0));
                    crate::text::lemma_lex_trans(s[i].0, s.last().0, x.0);
                }
            }
        }
    } else {
        assert forall|i: int, j: int| 0 <= i < j < s.drop_last().len() implies lex_leq(
            s.drop_last()[i].0,
            s.drop_last()[j].0,
        ) by {
            assert(s.drop_last()[i] == s[i] && s.drop_last()[j] == s[j]);
        }
        lemma_insert_asc_sorted(s.drop_last(), x);
        let t = insert_asc(s.drop_last(), x);
        assert(r == t.push(s.last()));
        lemma_lex_total(s.last().0, x.0);
        assert forall|i: int| 0 <= i < s.drop_last().len() implies lex_leq(
            #[trigger] s.drop_last()[i].0,
            s.last().0,
        ) by {
            assert(s.drop_last()[i] == s[i]);
            assert(lex_leq(s[i].0, s[s.len() - 1].0));
        }
        lemma_insert_asc_last_bound(s.drop_last(), x, s.last().0);
        assert forall|i: int, j: int| 0 <= i < j < r.len() implies lex_leq(r[i].0, r[j].0) by {
            if j < t.len() {
                assert(r[i] == t[i] && r[j] == t[j]);
            } else {
                assert(r[j] == s.last());
                assert(r[i] == t[i]);
                assert(lex_leq(t[i].0, s.last().0));
            }
        }
    }
}

/// Every key of the inserted run is bounded by any upper bound of the old
/// run that also bounds the inserted key.
proof fn lemma_insert_asc_last_bound<T>(s: Seq<(Seq<char>, T)>, x: (Seq<char>, T), b: Seq<char>)
    requires
        forall|i: int| 0 <= i < s.len() ==> lex_leq(s[i].0, b),
        lex_leq(x.0, b),
    ensures
        forall|i: int|
            0 <= i < insert_asc(s, x).len() ==> lex_leq(#[trigger] insert_asc(s, x)[i].0, b),
    decreases s.len(),
{
    let r = insert_asc(s, x);
    if s.len() == 0 {
    } else if lex_leq(s.last().0, x.0) {
        assert forall|i: int| 0 <= i < r.len() implies lex_leq(#[trigger] r[i].0, b) by {
            if i < s.len() {
                assert(r[i] == s[i]);
            } else {
                assert(r[i] == x);
            }
        }
    } else {
        assert forall|i: int| 0 <= i < s.drop_last().len() implies lex_leq(
            #[trigger] s.drop_last()[i].0,
            b,
        ) by {
            assert(s.drop_last()[i] == s[i]);
        }
        lemma_insert_asc_last_bound(s.drop_last(), x, b);
        let t = insert_asc(s.drop_last(), x);
        assert forall|i: int| 0 <= i < r.len() implies lex_leq(#[trigger] r[i].0, b) by {
            if i < t.len() {
                assert(r[i] == t[i]);
                assert(lex_leq(t[i].0, b));
            } else {
                assert(r[i] == s.last());
            }
        }
    }
}

/// Law: the stable sort leaves its keys in ascending lexicographic order.
pub proof fn lemma_sort_asc_sorted<T>(s: Seq<(Seq<char>, T)>)
    ensures
        forall|i: int, j: int|
            0 <= i < j < sort_asc(s).len() ==> lex_leq(sort_asc(s)[i].0, sort_asc(s)[j].0),
    decreases s.len(),
{
    if s.len() > 0 {
        lemma_sort_asc_sorted(s.drop_last());
        lemma_insert_asc_sorted(sort_asc(s.drop_last()), s.last());
    }
}

/// Every element of an inserted run is the inserted value or an element
/// of the old run.
proof fn lemma_insert_asc_elements<T>(s: Seq<(Seq<char>, T)>, x: (Seq<char>, T))
    ensures
        forall|i: int|
            0 <= i < insert_asc(s, x).len() ==> (#[trigger] insert_asc(s, x)[i]) == x || (exists|
                j: int,
            | 0 <= j < s.len() && s[j] == insert_asc(s, x)[i]),
    decreases s.len(),
{
    let r = insert_asc(s, x);
    if s.len() == 0 {
    } else if lex_leq(s.last().0, x.0) {
        assert forall|i: int|
            0 <= i < r.len() implies (#[trigger] r[i]) == x || (exists|j: int|
            0 <= j < s.len() && s[j] == r[i]) by {
            if i < s.len() {
                assert(s[i] == r[i]);
            }
        }
    } else {
        lemma_insert_asc_elements(s.drop_last(), x);
        let t = insert_asc(s.drop_last(), x);
        assert forall|i: int|
            0 <= i < r.len() implies (#[trigger] r[i]) == x || (exists|j: int|
            0 <= j < s.len() && s[j] == r[i]) by {
            if i < t.len() {
                assert(r[i] == t[i]);
                if t[i] != x {
                    let j = choose|j: int| 0 <= j < s.drop_last().len() && s.drop_last()[j] == t[i];
                    assert(s[j] == r[i]);
                }
            } else {
                assert(r[i] == s.last());
                assert(s[s.len() - 1] == r[i]);
            }
        }
    }
}

/// Every element of the sorted run is an element of the input.
pub proof fn lemma_sort_asc_elements<T>(s: Seq<(Seq<char>, T)>)
    ensures
        forall|i: int|
            0 <= i < sort_asc(s).len() ==> exists|j: int|
                0 <= j < s.len() && s[j] == (#[trigger] sort_asc(s)[i]),
    decreases s.len(),
{
    if s.len() > 0 {
        lemma_sort_asc_elements(s.drop_last());
        lemma_insert_asc_elements(sort_asc(s.drop_last()), s.last());
        let r = sort_asc(s);
        assert forall|i: int|
            0 <= i < r.len() implies exists|j: int| 0 <= j < s.len() && s[j] == (#[trigger] r[
            i]) by {
            if r[i] == s.last() {
                assert(s[s.len() - 1] == r[i]);
            } else {
                let j0 = choose|j0: int|
                    0 <= j0 < sort_asc(s.drop_last()).len() && sort_asc(s.drop_last())[j0] == r[i];
                let j = choose|j: int|
                    0 <= j < s.drop_last().len() && s.drop_last()[j] == sort_asc(
                        s.drop_last(),
                    )[j0];
                assert(s[j] == r[i]);
            }
        }
    }
}

/// The lexicographic order is total.
pub proof fn lemma_lex_total(a: Seq<char>, b: Seq<char>)
    ensures
        lex_leq(a, b) || lex_leq(b, a),
    decreases a.len(),
{
    if a.len() > 0 && b.len() > 0 && (a[0] as u32) == (b[0] as u32) {
        lemma_lex_total(a.drop_first(), b.drop_first());
    }
}

/// Whether `a` is at or above `b` in the order on optional keys: an absent
/// key is smallest, present keys compare lexicographically.
pub open spec fn opt_key_ge(a: Option<Seq<char>>, b: Option<Seq<char>>) -> bool {
    match b {
        None => true,
        Some(bs) => match a {
            None => false,
            Some(x) => lex_leq(bs, x),
        },
    }
}

/// Stable insertion of an optionally keyed value into a descending-sorted
/// run: the value goes after every element whose key is at or above its
/// own.
pub open spec fn insert_desc<T>(s: Seq<(Option<Seq<char>>, T)>, x: (Option<Seq<char>>, T)) -> Seq<
    (Option<Seq<char>>, T),
>
    decreases s.len(),
{
    if s.len() == 0 {
        seq![x]
    } else if opt_key_ge(s.last().0, x.0) {
        s.push(x)
    } else {
        insert_desc(s.drop_last(), x).push(s.last())
    }
}

/// Stable descending insertion sort by optional key.
pub open spec fn sort_desc<T>(s: Seq<(Option<Seq<char>>, T)>) -> Seq<(Option<Seq<char>>, T)>
    decreases s.len(),
{
    if s.len() == 0 {
        Seq::empty()
    } else {
        insert_desc(sort_desc(s.drop_last()), s.last())
    }
}

/// The view of an optional string key.
pub open spec fn opt_key_view(o: Option<String>) -> Option<Seq<char>> {
    match o {
        Some(s) => Some(s@),
        None => None,
    }
}

/// The key views of a list of optionally keyed values.
pub open spec fn opt_key_views<T>(s: Seq<(Option<String>, T)>) -> Seq<(Option<Seq<char>>, T)> {
    s.map_values(|p: (Option<String>, T)| (opt_key_view(p.0), p.1))
}

/// Decides the order on optional keys.
fn opt_key_ge_exec(a: &Option<String>, b: &Option<String>) -> (r: bool)
    ensures
        r == opt_key_ge(opt_key_view(*a), opt_key_view(*b)),
{
    match b {
        None => true,
        Some(bs) => match a {
            None => false,
            Some(x) => lex_leq_strs(bs.as_str(), x.as_str()),
        },
    }
}

fn insert_desc_exec<T>(v: Vec<(Option<String>, T)>, x: (Option<String>, T)) -> (r: Vec<
    (Option<String>, T),
>)
    ensures
        opt_key_views(r@) == insert_desc(opt_key_views(v@), (opt_key_view(x.0), x.1)),
    decreases v@.len(),
{
    let mut v = v;
    let ghost orig = v@;
    let ghost xv = (opt_key_view(x.0), x.1);
    if v.len() == 0 {
        v.push(x);
        proof {
            assert(opt_key_views(v@) =~= insert_desc(opt_key_views(orig), xv));
        }
        v
    } else {
        let ge = opt_key_ge_exec(&v[v.len() - 1].0, &x.0);
        if ge {
            v.push(x);
            proof {
                assert(opt_key_views(orig).last() == (opt_key_view(orig.last().0), orig.last().1));
                assert(opt_key_views(v@) =~= opt_key_views(orig).push(xv));
            }
            v
        } else {
            let last = v.remove(v.len() - 1);
            proof {
                assert(opt_key_views(orig).last() == (opt_key_view(orig.last().0), orig.last().1));
                assert(opt_key_views(v@) =~= opt_key_views(orig).drop_last());
            }
            let mut w = insert_desc_exec(v, x);
            w.push(last);
            proof {
                assert(opt_key_views(w@) =~= insert_desc(opt_key_views(orig).drop_last(), xv).push(
                    opt_key_views(orig).last(),
                ));
            }
            w
        }
    }
}

/// Sorts optionally keyed values descending by key, stably.
pub fn sort_desc_exec<T>(v: Vec<(Option<String>, T)>) -> (r: Vec<(Option<String>, T)>)
    ensures
        opt_key_views(r@) == sort_desc(opt_key_views(v@)),
    decreases v@.len(),
{
    let mut v = v;
    if v.len() == 0 {
        proof {
            assert(opt_key_views(v@) =~= sort_desc(opt_key_views(v@)));
        }
        v
    } else {
        let ghost orig = v@;
        let last = v.remove(v.len() - 1);
        proof {
            assert(opt_key_views(v@) =~= opt_key_views(orig).drop_last());
            assert(opt_key_views(orig).last() == (opt_key_view(orig.last().0), orig.last().1));
        }
        insert_desc_exec(sort_desc_exec(v), last)
    }
}

/// The values of a keyed list, keys stripped.
pub open spec fn strip_keys<T>(s: Seq<(Seq<char>, T)>) -> Seq<T> {
    s.map_values(|p: (Seq<char>, T)| p.1)
}

/// A keyed list with every value mapped, keys kept.
pub open spec fn map_payload<T, U>(s: Seq<(Seq<char>, T)>, g: spec_fn(T) -> U) -> Seq<
    (Seq<char>, U),
> {
    s.map_values(|p: (Seq<char>, T)| (p.0, g(p.1)))
}

/// Stable insertion commutes with mapping the carried values.
proof fn lemma_insert_asc_map<T, U>(s: Seq<(Seq<char>, T)>, x: (Seq<char>, T), g: spec_fn(T) -> U)
    ensures
        map_payload(insert_asc(s, x), g) == insert_asc(map_payload(s, g), (x.0, g(x.1))),
    decreases s.len(),
{
    if s.len() == 0 {
        assert(map_payload(insert_asc(s, x), g) =~= insert_asc(map_payload(s, g), (x.0, g(x.1))));
    } else {
        assert(map_payload(s, g).last() == (s.last().0, g(s.last().1)));
        if lex_leq(s.last().0, x.0) {
            assert(map_payload(insert_asc(s, x), g) =~= insert_asc(
                map_payload(s, g),
                (x.0, g(x.1)),
            ));
        } else {
            lemma_insert_asc_map(s.drop_last(), x, g);
            assert(map_payload(s.drop_last(), g) =~= map_payload(s, g).drop_last());
            assert(map_payload(insert_asc(s, x), g) =~= insert_asc(
                map_payload(s, g),
                (x.0, g(x.1)),
            ));
        }
    }
}

/// The stable sort commutes with mapping the carried values.
pub proof fn lemma_sort_asc_map<T, U>(s: Seq<(Seq<char>, T)>, g: spec_fn(T) -> U)
    ensures
        map_payload(sort_asc(s), g) == sort_asc(map_payload(s, g)),
    decreases s.len(),
{
    if s.len() == 0 {
        assert(map_payload(sort_asc(s), g) =~= sort_asc(map_payload(s, g)));
    } else {
        lemma_sort_asc_map(s.drop_last(), g);
        assert(map_payload(s.drop_last(), g) =~= map_payload(s, g).drop_last());
        lemma_insert_asc_map(sort_asc(s.drop_last()), s.last(), g);
        assert(map_payload(s, g).last() == (s.last().0, g(s.last().1)));
    }
}

/// The values of an optionally keyed list, keys stripped.
pub open spec fn strip_opt_keys<T>(s: Seq<(Option<Seq<char>>, T)>) -> Seq<T> {
    s.map_values(|p: (Option<Seq<char>>, T)| p.1)
}

/// Unwraps a keyed list in order.
pub fn strip_keys_exec<T>(v: Vec<(String, T)>) -> (r: Vec<T>)
    ensures
        r@ == strip_keys(key_views(v@)),
{
    let mut v = v;
    let ghost orig = v@;
    let mut r: Vec<T> = Vec::new();
    while v.len() > 0
        invariant
            r@.len() + v@.len() == orig.len(),
            v@ =~= orig.skip(r@.len() as int),
            r@ =~= strip_keys(key_views(orig.take(r@.len() as int))),
        decreases v@.len(),
    {
        let x = v.remove(0);
        proof {
            assert(x == orig[r@.len() as int]);
        }
        r.push(x.1);
        proof {
            assert(v@ =~= orig.skip(r@.len() as int));
            assert(r@ =~= strip_keys(key_views(orig.take(r@.len() as int))));
        }
    }
    proof {
        assert(orig.take(r@.len() as int) =~= orig);
    }
    r
}

/// Unwraps an optionally keyed list in order.
pub fn strip_opt_keys_exec<T>(v: Vec<(Option<String>, T)>) -> (r: Vec<T>)
    ensures
        r@ == strip_opt_keys(opt_key_views(v@)),
{
    let mut v = v;
    let ghost orig = v@;
    let mut r: Vec<T> = Vec::new();
    while v.len() > 0
        invariant
            r@.len() + v@.len() == orig.len(),
            v@ =~= orig.skip(r@.len() as int),
            r@ =~= strip_opt_keys(opt_key_views(orig.take(r@.len() as int))),
        decreases v@.len(),
    {
        let x = v.remove(0);
        proof {
            assert(x == orig[r@.len() as int]);
        }
        r.push(x.1);
        proof {
            assert(v@ =~= orig.skip(r@.len() as int));
            assert(r@ =~= strip_opt_keys(opt_key_views(orig.take(r@.len() as int))));
        }
    }
    proof {
        assert(orig.take(r@.len() as int) =~= orig);
    }
    r
}

} // verus!
