//! An ordered association list from string keys to string values, with
//! first-match lookup. It models both a directory of files (name to
//! contents, in platform scan order) and the in-memory project index
//! (identifier to file name).
use vstd::prelude::*;
use crate::text::str_eq;

verus! {

/// Index of the first entry with the given key, or -1.
pub open spec fn sm_idx<V>(s: Seq<(Seq<char>, V)>, k: Seq<char>) -> int
    decreases s.len(),
{
    if s.len() == 0 {
        -1
    } else if s[0].0 == k {
        0
    } else {
        let r = sm_idx(s.drop_first(), k);
        if r < 0 {
            -1
        } else {
            r + 1
        }
    }
}

/// Whether some entry has the given key.
pub open spec fn sm_has<V>(s: Seq<(Seq<char>, V)>, k: Seq<char>) -> bool {
    sm_idx(s, k) >= 0
}

/// Value of the first entry with the given key.
pub open spec fn sm_get<V>(s: Seq<(Seq<char>, V)>, k: Seq<char>) -> Option<V> {
    if sm_has(s, k) {
        Some(s[sm_idx(s, k)].1)
    } else {
        None
    }
}

/// The list after setting the key: the first matching entry is replaced in
/// place, or a new entry is appended.
pub open spec fn sm_put<V>(s: Seq<(Seq<char>, V)>, k: Seq<char>, v: V) -> Seq<(Seq<char>, V)> {
    if sm_has(s, k) {
        s.update(sm_idx(s, k), (k, v))
    } else {
        s.push((k, v))
    }
}

/// The list after removing the first entry with the given key, if any.
pub open spec fn sm_remove<V>(s: Seq<(Seq<char>, V)>, k: Seq<char>) -> Seq<(Seq<char>, V)> {
    if sm_has(s, k) {
        s.remove(sm_idx(s, k))
    } else {
        s
    }
}

/// The first matching index is in range, matches the key, and nothing
/// before it does.
pub proof fn lemma_sm_idx<V>(s: Seq<(Seq<char>, V)>, k: Seq<char>)
    ensures
        sm_has(s, k) ==> 0 <= sm_idx(s, k) < s.len() && s[sm_idx(s, k)].0 == k,
        forall|j: int| 0 <= j < sm_idx(s, k) ==> s[j].0 != k,
        !sm_has(s, k) ==> forall|j: int| 0 <= j < s.len() ==> s[j].0 != k,
    decreases s.len(),
{
    if s.len() > 0 && s[0].0 != k {
        lemma_sm_idx(s.drop_first(), k);
        assert forall|j: int| 0 <= j < sm_idx(s, k) implies s[j].0 != k by {
            if j > 0 {
                assert(s.drop_first()[j - 1] == s[j]);
                assert(s.drop_first()[j - 1].0 != k);
            }
        }
        if !sm_has(s, k) {
            assert forall|j: int| 0 <= j < s.len() implies s[j].0 != k by {
                if j > 0 {
                    assert(s.drop_first()[j - 1] == s[j]);
                    assert(s.drop_first()[j - 1].0 != k);
                }
            }
        }
    }
}

/// A key occurs somewhere exactly when lookup finds it.
pub proof fn lemma_sm_has_exists<V>(s: Seq<(Seq<char>, V)>, k: Seq<char>)
    ensures
        sm_has(s, k) <==> exists|i: int| 0 <= i < s.len() && (#[trigger] s[i].0) == k,
{
    lemma_sm_idx(s, k);
    if sm_has(s, k) {
        assert(s[sm_idx(s, k)].0 == k);
    }
}

/// Keys are pairwise distinct, as file names in one directory are.
pub open spec fn sm_wf<V>(s: Seq<(Seq<char>, V)>) -> bool {
    forall|i: int, j: int| 0 <= i < j < s.len() ==> (#[trigger] s[i].0) != (#[trigger] s[j].0)
}

/// The first-match index is pinned by its characterization.
pub proof fn lemma_sm_idx_unique<V>(s: Seq<(Seq<char>, V)>, k: Seq<char>, i: int)
    requires
        0 <= i < s.len(),
        s[i].0 == k,
        forall|j: int| 0 <= j < i ==> s[j].0 != k,
    ensures
        sm_idx(s, k) == i,
    decreases s.len(),
{
    if i > 0 {
        lemma_sm_idx_unique(s.drop_first(), k, i - 1);
        assert(forall|j: int|
            0 <= j < s.drop_first().len() ==> #[trigger] s.drop_first()[j] == s[j + 1]);
    }
}

/// Setting a key makes lookup of that key yield the new value.
pub proof fn lemma_sm_get_put_same<V>(s: Seq<(Seq<char>, V)>, k: Seq<char>, v: V)
    ensures
        sm_get(sm_put(s, k, v), k) == Some(v),
        sm_has(sm_put(s, k, v), k),
{
    lemma_sm_idx(s, k);
    let u = sm_put(s, k, v);
    if sm_has(s, k) {
        let i = sm_idx(s, k);
        assert(u[i].0 == k);
        assert(forall|j: int| 0 <= j < i ==> u[j] == s[j]);
        lemma_sm_idx_unique(u, k, i);
    } else {
        assert(u[s.len() as int].0 == k);
        assert(forall|j: int| 0 <= j < s.len() ==> u[j] == s[j]);
        lemma_sm_idx_unique(u, k, s.len() as int);
    }
}

/// Removing one key leaves lookup of any other key unchanged.
pub proof fn lemma_sm_remove_other<V>(s: Seq<(Seq<char>, V)>, k: Seq<char>, k2: Seq<char>)
    requires
        k2 != k,
    ensures
        sm_get(sm_remove(s, k), k2) == sm_get(s, k2),
        sm_has(sm_remove(s, k), k2) == sm_has(s, k2),
{
    lemma_sm_idx(s, k);
    lemma_sm_idx(s, k2);
    if !sm_has(s, k) {
        return ;
    }
    let i0 = sm_idx(s, k);
    let u = sm_remove(s, k);
    assert(forall|j: int| 0 <= j < i0 ==> u[j] == s[j]);
    assert(forall|j: int| i0 <= j < u.len() ==> u[j] == s[j + 1]);
    if sm_has(s, k2) {
        let i2 = sm_idx(s, k2);
        assert(s[i2].0 == k2);
        assert(i2 != i0);
        if i2 < i0 {
            lemma_sm_idx_unique(u, k2, i2);
        } else {
            assert(u[i2 - 1] == s[i2]);
            assert forall|j: int| 0 <= j < i2 - 1 implies u[j].0 != k2 by {
                if j < i0 {
                    assert(u[j] == s[j]);
                } else {
                    assert(u[j] == s[j + 1]);
                }
            }
            lemma_sm_idx_unique(u, k2, i2 - 1);
        }
    } else {
        lemma_sm_has_exists(u, k2);
        if sm_has(u, k2) {
            let i = choose|i: int| 0 <= i < u.len() && (#[trigger] u[i].0) == k2;
            lemma_sm_has_exists(s, k2);
            if i < i0 {
                assert(s[i].0 == k2);
            } else {
                assert(s[i + 1].0 == k2);
            }
        }
    }
}

/// With distinct keys, removing a key removes it entirely.
pub proof fn lemma_sm_remove_absent<V>(s: Seq<(Seq<char>, V)>, k: Seq<char>)
    requires
        sm_wf(s),
    ensures
        !sm_has(sm_remove(s, k), k),
{
    lemma_sm_idx(s, k);
    if sm_has(s, k) {
        let i0 = sm_idx(s, k);
        let u = sm_remove(s, k);
        lemma_sm_has_exists(u, k);
        if sm_has(u, k) {
            let i = choose|i: int| 0 <= i < u.len() && (#[trigger] u[i].0) == k;
            if i < i0 {
                assert(s[i].0 == k);
            } else {
                assert(u[i] == s[i + 1]);
                assert(s[i + 1].0 == k && s[i0].0 == k && i0 < i + 1);
            }
        }
    }
}

/// Setting a key preserves key distinctness.
pub proof fn lemma_sm_put_wf<V>(s: Seq<(Seq<char>, V)>, k: Seq<char>, v: V)
    requires
        sm_wf(s),
    ensures
        sm_wf(sm_put(s, k, v)),
{
    lemma_sm_idx(s, k);
    let u = sm_put(s, k, v);
    if sm_has(s, k) {
        assert forall|i: int, j: int| 0 <= i < j < u.len() implies (#[trigger] u[i].0)
            != (#[trigger] u[j].0) by {
            assert(s[i].0 != s[j].0);
        }
    } else {
        lemma_sm_has_exists(s, k);
        assert forall|i: int, j: int| 0 <= i < j < u.len() implies (#[trigger] u[i].0)
            != (#[trigger] u[j].0) by {
            if j < s.len() {
                assert(s[i].0 != s[j].0);
            } else {
                assert(u[j].0 == k);
                assert(u[i] == s[i]);
            }
        }
    }
}

/// Removing a key preserves key distinctness.
pub proof fn lemma_sm_remove_wf<V>(s: Seq<(Seq<char>, V)>, k: Seq<char>)
    requires
        sm_wf(s),
    ensures
        sm_wf(sm_remove(s, k)),
{
    lemma_sm_idx(s, k);
    if sm_has(s, k) {
        let i0 = sm_idx(s, k);
        let u = sm_remove(s, k);
        assert forall|i: int, j: int| 0 <= i < j < u.len() implies (#[trigger] u[i].0)
            != (#[trigger] u[j].0) by {
            let si = if i < i0 { i } else { i + 1 };
            let sj = if j < i0 { j } else { j + 1 };
            assert(u[i] == s[si] && u[j] == s[sj]);
            assert(s[si].0 != s[sj].0);
        }
    }
}

/// An ordered association list with string keys and values.
#[derive(Debug)]
pub struct StrMap {
    pub entries: Vec<(String, String)>,
}

impl View for StrMap {
    type V = Seq<(Seq<char>, Seq<char>)>;

    open spec fn view(&self) -> Seq<(Seq<char>, Seq<char>)> {
        self.entries@.map_values(|e: (String, String)| (e.0@, e.1@))
    }
}

impl StrMap {
    /// An empty list.
    pub fn new() -> (r: StrMap)
        ensures
            r@ =~= Seq::<(Seq<char>, Seq<char>)>::empty(),
    {
        StrMap { entries: Vec::new() }
    }

    /// Number of entries.
    pub fn len(&self) -> (r: usize)
        ensures
            r == self@.len(),
    {
        self.entries.len()
    }

    /// The key of the entry at a position.
    pub fn key_at(&self, i: usize) -> (r: &String)
        requires
            i < self@.len(),
        ensures
            r@ == self@[i as int].0,
    {
        &self.entries[i].0
    }

    /// The value of the entry at a position.
    pub fn val_at(&self, i: usize) -> (r: &String)
        requires
            i < self@.len(),
        ensures
            r@ == self@[i as int].1,
    {
        &self.entries[i].1
    }

    /// First value under the key, if any.
    pub fn get(&self, k: &str) -> (r: Option<&String>)
        ensures
            match r {
                Some(v) => sm_get(self@, k@) == Some(v@),
                None => sm_get(self@, k@) is None,
            },
    {
        match self.idx_of(k) {
            Some(i) => {
                proof {
                    lemma_sm_idx(self@, k@);
                }
                Some(&self.entries[i].1)
            },
            None => None,
        }
    }

    /// Whether any entry has the key.
    pub fn has(&self, k: &str) -> (r: bool)
        ensures
            r == sm_has(self@, k@),
    {
        match self.idx_of(k) {
            Some(_) => true,
            None => false,
        }
    }

    /// Position of the first entry with the key.
    fn idx_of(&self, k: &str) -> (r: Option<usize>)
        ensures
            match r {
                Some(i) => sm_idx(self@, k@) == i as int && sm_has(self@, k@),
                None => !sm_has(self@, k@),
            },
    {
        proof {
            assert(self@.skip(0) =~= self@);
        }
        let mut i: usize = 0;
        while i < self.entries.len()
            invariant
                i <= self@.len(),
                self@.len() == self.entries@.len(),
                sm_idx(self@, k@) == if sm_has(self@.skip(i as int), k@) {
                    sm_idx(self@.skip(i as int), k@) + i
                } else {
                    -1
                },
            decreases self@.len() - i,
        {
            proof {
                assert(self@.skip(i as int)[0] == self@[i as int]);
                assert(self@[i as int].0 == self.entries@[i as int].0@);
                assert(self@.skip(i as int).drop_first() =~= self@.skip(i as int + 1));
            }
            if str_eq(self.entries[i].0.as_str(), k) {
                return Some(i);
            }
            i = i + 1;
        }
        proof {
            assert(self@.skip(i as int).len() == 0);
        }
        None
    }

    /// Sets a key: replaces the first matching entry or appends a new one.
    pub fn put(&mut self, k: String, v: String)
        ensures
            final(self)@ == sm_put(old(self)@, k@, v@),
    {
        let idx = self.idx_of(k.as_str());
        match idx {
            Some(i) => {
                proof {
                    lemma_sm_idx(self@, k@);
                }
                self.entries[i] = (k, v);
                proof {
                    assert(self@ =~= sm_put(old(self)@, k@, v@));
                }
            },
            None => {
                self.entries.push((k, v));
                proof {
                    assert(self@ =~= sm_put(old(self)@, k@, v@));
                }
            },
        }
    }

    /// Removes the first entry with the key, if any.
    pub fn remove(&mut self, k: &str)
        ensures
            final(self)@ == sm_remove(old(self)@, k@),
    {
        let idx = self.idx_of(k);
        match idx {
            Some(i) => {
                proof {
                    lemma_sm_idx(self@, k@);
                }
                self.entries.remove(i);
                proof {
                    assert(self@ =~= sm_remove(old(self)@, k@));
                }
            },
            None => {
            },
        }
    }
}

} // verus!
