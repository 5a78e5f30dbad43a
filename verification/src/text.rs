//! Verified string utilities: character sequences, ASCII case folding,
//! lexicographic comparison, substring search, trimming, and decimal
//! rendering of integers. All operate on `Seq<char>` views.
use vstd::prelude::*;
use vstd::std_specs::iter::IteratorSpec;

verus! {

/// ASCII lower-casing of one character; other characters are unchanged.
pub open spec fn lower_char(c: char) -> char {
    if 65 <= c as u32 && c as u32 <= 90 {
        ((c as u32) + 32) as char
    } else {
        c
    }
}

/// ASCII lower-casing of a character sequence.
pub open spec fn lower_seq(s: Seq<char>) -> Seq<char> {
    s.map_values(|c: char| lower_char(c))
}

/// Appends one character to a string.
/// Relies on String::push: appends the given char to the end of this String.
#[verifier::external_body]
pub(crate) fn push_char(s: &mut String, c: char)
    ensures
        final(s)@ == old(s)@.push(c),
{
    s.push(c);
}

/// Compares two string slices for equality.
/// Relies on str's PartialEq: equal exactly when the character contents are equal.
#[verifier::external_body]
pub(crate) fn str_eq(a: &str, b: &str) -> (r: bool)
    ensures
        r == (a@ == b@),
{
    a == b
}

/// Collects the characters of a string slice into a vector.
pub fn str_to_chars(s: &str) -> (v: Vec<char>)
    ensures
        v@ == s@,
{
    broadcast use vstd::string::group_string_axioms;

    let mut v: Vec<char> = Vec::new();
    let mut it = s.chars();
    loop
        invariant
            it.obeys_prophetic_iter_laws(),
            it.remaining() =~= s@.skip(v@.len() as int),
            v@.len() <= s@.len(),
            v@ =~= s@.take(v@.len() as int),
        ensures
            v@ =~= s@,
        decreases s@.len() - v@.len(),
    {
        let c = it.next();
        match c {
            Some(c) => {
                v.push(c);
            },
            None => {
                proof {
                    assert(s@.skip(v@.len() as int).len() == 0);
                }
                break;
            },
        }
    }
    v
}

/// Builds a string from a vector of characters.
pub fn string_from_chars(v: &Vec<char>) -> (s: String)
    ensures
        s@ == v@,
{
    let mut s = String::new();
    let mut i: usize = 0;
    while i < v.len()
        invariant
            i <= v.len(),
            s@ =~= v@.take(i as int),
        decreases v.len() - i,
    {
        push_char(&mut s, v[i]);
        i = i + 1;
        proof {
            assert(s@ =~= v@.take(i as int));
        }
    }
    proof {
        assert(v@.take(v.len() as int) =~= v@);
    }
    s
}

/// ASCII lower-casing of a string.
pub fn to_lower(s: &str) -> (r: String)
    ensures
        r@ == lower_seq(s@),
{
    let chars = str_to_chars(s);
    let mut out: Vec<char> = Vec::new();
    let mut i: usize = 0;
    while i < chars.len()
        invariant
            i <= chars.len(),
            chars@ == s@,
            out@ =~= lower_seq(s@).take(i as int),
        decreases chars.len() - i,
    {
        let c = chars[i];
        let cu = c as u32;
        if 65 <= cu && cu <= 90 {
            out.push(((cu + 32) as u8) as char);
        } else {
            out.push(c);
        }
        i = i + 1;
        proof {
            assert(out@ =~= lower_seq(s@).take(i as int));
        }
    }
    proof {
        assert(lower_seq(s@).take(chars@.len() as int) =~= lower_seq(s@));
    }
    string_from_chars(&out)
}

/// Lexicographic order on character sequences, by code point.
pub open spec fn lex_leq(a: Seq<char>, b: Seq<char>) -> bool
    decreases a.len(),
{
    if a.len() == 0 {
        true
    } else if b.len() == 0 {
        false
    } else if (a[0] as u32) < (b[0] as u32) {
        true
    } else if (a[0] as u32) > (b[0] as u32) {
        false
    } else {
        lex_leq(a.drop_first(), b.drop_first())
    }
}

/// Decides the lexicographic order on two strings.
pub fn lex_leq_strs(a: &str, b: &str) -> (r: bool)
    ensures
        r == lex_leq(a@, b@),
{
    let av = str_to_chars(a);
    let bv = str_to_chars(b);
    let mut i: usize = 0;
    proof {
        assert(a@.skip(0) =~= a@);
        assert(b@.skip(0) =~= b@);
    }
    loop
        invariant
            av@ == a@,
            bv@ == b@,
            i <= av.len(),
            i <= bv.len(),
            lex_leq(a@, b@) == lex_leq(a@.skip(i as int), b@.skip(i as int)),
        ensures
            i <= av.len(),
            i <= bv.len(),
            lex_leq(a@, b@) == lex_leq(a@.skip(i as int), b@.skip(i as int)),
            i == av.len() || i == bv.len() || (av@[i as int] as u32) != (bv@[i as int] as u32),
        decreases av.len() - i,
    {
        if i == av.len() || i == bv.len() {
            break ;
        }
        let ca = av[i] as u32;
        let cb = bv[i] as u32;
        if ca != cb {
            break ;
        }
        proof {
            assert(a@.skip(i as int).len() > 0);
            assert(b@.skip(i as int).len() > 0);
            assert(a@.skip(i as int)[0] == a@[i as int]);
            assert(b@.skip(i as int)[0] == b@[i as int]);
            assert(a@.skip(i as int).drop_first() =~= a@.skip(i as int + 1));
            assert(b@.skip(i as int).drop_first() =~= b@.skip(i as int + 1));
        }
        i = i + 1;
    }
    let r = if i == av.len() {
        proof {
            assert(a@.skip(i as int).len() == 0);
        }
        true
    } else if i == bv.len() {
        proof {
            assert(b@.skip(i as int).len() == 0);
            assert(a@.skip(i as int).len() > 0);
        }
        false
    } else {
        proof {
            assert(a@.skip(i as int).len() > 0);
            assert(b@.skip(i as int).len() > 0);
            assert(a@.skip(i as int)[0] == a@[i as int]);
            assert(b@.skip(i as int)[0] == b@[i as int]);
        }
        (av[i] as u32) < (bv[i] as u32)
    };
    r
}

/// The lexicographic order is transitive.
pub proof fn lemma_lex_trans(a: Seq<char>, b: Seq<char>, c: Seq<char>)
    requires
        lex_leq(a, b),
        lex_leq(b, c),
    ensures
        lex_leq(a, c),
    decreases a.len(),
{
    if a.len() > 0 {
        if (a[0] as u32) == (b[0] as u32) && (b[0] as u32) == (c[0] as u32) {
            lemma_lex_trans(a.drop_first(), b.drop_first(), c.drop_first());
        }
    }
}

/// Whether `n` occurs as a contiguous subsequence of `h`.
pub open spec fn contains_seq(h: Seq<char>, n: Seq<char>) -> bool {
    exists|i: int| 0 <= i && i + n.len() <= h.len() && #[trigger] h.subrange(i, i + n.len()) == n
}

/// Whether `p` is a prefix of `h`.
pub open spec fn starts_with_seq(h: Seq<char>, p: Seq<char>) -> bool {
    h.len() >= p.len() && h.subrange(0, p.len() as int) == p
}

/// Whether `p` is a suffix of `h`.
pub open spec fn ends_with_seq(h: Seq<char>, p: Seq<char>) -> bool {
    h.len() >= p.len() && h.subrange(h.len() - p.len(), h.len() as int) == p
}

/// Decides whether the characters of `h` match those of `n` starting at `at`.
fn matches_at(h: &Vec<char>, n: &Vec<char>, at: usize) -> (r: bool)
    requires
        at + n@.len() <= h@.len(),
    ensures
        r == (h@.subrange(at as int, at as int + n@.len()) == n@),
{
    let mut j: usize = 0;
    while j < n.len()
        invariant
            at + n@.len() <= h@.len(),
            h@.len() == h.len(),
            n@.len() == n.len(),
            j <= n.len(),
            forall|k: int| 0 <= k < j ==> h@[at + k] == n@[k],
        decreases n.len() - j,
    {
        if h[at + j] != n[j] {
            proof {
                assert(h@.subrange(at as int, at as int + n@.len())[j as int] != n@[j as int]);
            }
            return false;
        }
        j = j + 1;
    }
    proof {
        assert(h@.subrange(at as int, at as int + n@.len()) =~= n@);
    }
    true
}

/// Decides whether `n` occurs as a contiguous substring of `h`.
pub fn contains_str(h: &str, n: &str) -> (r: bool)
    ensures
        r == contains_seq(h@, n@),
{
    let hv = str_to_chars(h);
    let nv = str_to_chars(n);
    if nv.len() > hv.len() {
        return false;
    }
    if nv.len() == 0 {
        proof {
            assert(h@.subrange(0, 0 + n@.len() as int) =~= n@);
        }
        return true;
    }
    let mut i: usize = 0;
    while i <= hv.len() - nv.len()
        invariant
            hv@ == h@,
            nv@ == n@,
            hv@.len() == hv.len(),
            nv@.len() == nv.len(),
            1 <= nv@.len() <= hv@.len(),
            i <= hv@.len() - nv@.len() + 1,
            forall|k: int|
                0 <= k < i ==> #[trigger] h@.subrange(k, k + n@.len()) != n@,
        decreases hv.len() + 1 - i,
    {
        if matches_at(&hv, &nv, i) {
            return true;
        }
        i = i + 1;
    }
    false
}

/// Decides whether `p` is a prefix of `h`.
pub fn starts_with_str(h: &str, p: &str) -> (r: bool)
    ensures
        r == starts_with_seq(h@, p@),
{
    let hv = str_to_chars(h);
    let pv = str_to_chars(p);
    if pv.len() > hv.len() {
        return false;
    }
    matches_at(&hv, &pv, 0)
}

/// Decides whether `p` is a suffix of `h`.
pub fn ends_with_str(h: &str, p: &str) -> (r: bool)
    ensures
        r == ends_with_seq(h@, p@),
{
    let hv = str_to_chars(h);
    let pv = str_to_chars(p);
    if pv.len() > hv.len() {
        return false;
    }
    matches_at(&hv, &pv, hv.len() - pv.len())
}

/// ASCII whitespace.
pub open spec fn is_ws(c: char) -> bool {
    c as u32 == 32 || (9 <= c as u32 && c as u32 <= 13)
}

/// Decides whether a character is ASCII whitespace.
pub fn is_ws_char(c: char) -> (r: bool)
    ensures
        r == is_ws(c),
{
    let u = c as u32;
    u == 32 || (9 <= u && u <= 13)
}

/// The sequence with leading whitespace removed.
pub open spec fn trim_start_spec(s: Seq<char>) -> Seq<char>
    decreases s.len(),
{
    if s.len() > 0 && is_ws(s[0]) {
        trim_start_spec(s.drop_first())
    } else {
        s
    }
}

/// The sequence with trailing whitespace removed.
pub open spec fn trim_end_spec(s: Seq<char>) -> Seq<char>
    decreases s.len(),
{
    if s.len() > 0 && is_ws(s[s.len() - 1]) {
        trim_end_spec(s.drop_last())
    } else {
        s
    }
}

/// The sequence with leading and trailing whitespace removed.
pub open spec fn trim_spec(s: Seq<char>) -> Seq<char> {
    trim_end_spec(trim_start_spec(s))
}

proof fn lemma_trim_start_skip(s: Seq<char>, lo: int)
    requires
        0 <= lo <= s.len(),
        forall|j: int| 0 <= j < lo ==> is_ws(s[j]),
        lo < s.len() ==> !is_ws(s[lo]),
    ensures
        trim_start_spec(s) == s.skip(lo),
    decreases lo,
{
    if lo == 0 {
        assert(s.skip(0) =~= s);
    } else {
        assert(is_ws(s[0]));
        lemma_trim_start_skip(s.drop_first(), lo - 1);
        assert(s.drop_first().skip(lo - 1) =~= s.skip(lo));
    }
}

proof fn lemma_trim_end_take(s: Seq<char>, hi: int)
    requires
        0 <= hi <= s.len(),
        forall|j: int| hi <= j < s.len() ==> is_ws(s[j]),
        hi > 0 ==> !is_ws(s[hi - 1]),
    ensures
        trim_end_spec(s) == s.take(hi),
    decreases s.len() - hi,
{
    if hi == s.len() {
        assert(s.take(hi) =~= s);
        if s.len() > 0 {
            assert(!is_ws(s[s.len() - 1]));
        }
    } else {
        assert(is_ws(s[s.len() - 1]));
        lemma_trim_end_take(s.drop_last(), hi);
        assert(s.drop_last().take(hi) =~= s.take(hi));
    }
}

/// Removes leading and trailing ASCII whitespace from a string.
pub fn trim_str(s: &str) -> (r: String)
    ensures
        r@ == trim_spec(s@),
{
    let v = str_to_chars(s);
    let mut lo: usize = 0;
    while lo < v.len() && is_ws_char(v[lo])
        invariant
            v@ == s@,
            lo <= v.len(),
            forall|j: int| 0 <= j < lo ==> is_ws(s@[j]),
        decreases v.len() - lo,
    {
        lo = lo + 1;
    }
    proof {
        lemma_trim_start_skip(s@, lo as int);
    }
    let mut hi: usize = v.len();
    while hi > lo && is_ws_char(v[hi - 1])
        invariant
            v@ == s@,
            lo <= hi <= v.len(),
            forall|j: int| 0 <= j < lo ==> is_ws(s@[j]),
            forall|j: int| hi <= j < v@.len() ==> is_ws(s@[j]),
        decreases hi,
    {
        hi = hi - 1;
    }
    let mut out: Vec<char> = Vec::new();
    let mut i: usize = lo;
    while i < hi
        invariant
            v@ == s@,
            lo <= i <= hi <= v@.len(),
            out@ =~= s@.subrange(lo as int, i as int),
        decreases hi - i,
    {
        out.push(v[i]);
        i = i + 1;
    }
    proof {
        let t = s@.skip(lo as int);
        lemma_trim_end_take(t, hi - lo as int);
        assert(t.take(hi - lo as int) =~= s@.subrange(lo as int, hi as int));
        if hi > lo {
            assert(!is_ws(t[hi - lo - 1]));
        }
        assert(forall|j: int| hi - lo <= j < t.len() ==> is_ws(t[j]));
    }
    string_from_chars(&out)
}

/// The decimal digit character for a value below ten.
pub open spec fn dec_digit(d: u64) -> char {
    ((48 + d) as u32) as char
}

/// The decimal rendering of an unsigned integer.
pub open spec fn spec_dec(n: u64) -> Seq<char>
    decreases n,
{
    if n < 10 {
        seq![dec_digit(n)]
    } else {
        spec_dec((n / 10) as u64).push(dec_digit((n % 10) as u64))
    }
}

/// A decimal rendering has at least one digit, and at least two above nine.
pub proof fn lemma_spec_dec_len(n: u64)
    ensures
        spec_dec(n).len() >= 1,
        n >= 10 ==> spec_dec(n).len() >= 2,
    decreases n,
{
    if n >= 10 {
        lemma_spec_dec_len(n / 10);
    }
}

/// The last digit of a rendering is the value's last decimal digit, and
/// dropping it renders the quotient.
proof fn lemma_spec_dec_last(n: u64)
    ensures
        spec_dec(n).last() == dec_digit((n % 10) as u64),
        n >= 10 ==> spec_dec(n).drop_last() == spec_dec((n / 10) as u64),
{
    if n < 10 {
        assert(n % 10 == n);
    } else {
        assert(spec_dec(n).drop_last() =~= spec_dec((n / 10) as u64));
    }
}

/// Distinct values have distinct decimal renderings.
pub proof fn lemma_spec_dec_injective(a: u64, b: u64)
    requires
        spec_dec(a) == spec_dec(b),
    ensures
        a == b,
    decreases a,
{
    lemma_spec_dec_len(a);
    lemma_spec_dec_len(b);
    lemma_spec_dec_last(a);
    lemma_spec_dec_last(b);
    assert(dec_digit((a % 10) as u64) == dec_digit((b % 10) as u64));
    assert((dec_digit((a % 10) as u64) as u32) == 48 + a % 10);
    assert((dec_digit((b % 10) as u64) as u32) == 48 + b % 10);
    assert(a % 10 == b % 10);
    if a < 10 && b < 10 {
        assert(a == b);
    } else if a < 10 {
        assert(spec_dec(a).len() == 1);
        assert(spec_dec(b).len() >= 2);
    } else if b < 10 {
        assert(spec_dec(b).len() == 1);
        assert(spec_dec(a).len() >= 2);
    } else {
        assert(spec_dec((a / 10) as u64) == spec_dec((b / 10) as u64));
        lemma_spec_dec_injective(a / 10, b / 10);
        assert(a == 10 * (a / 10) + a % 10);
        assert(b == 10 * (b / 10) + b % 10);
    }
}

/// Renders an unsigned integer in decimal.
pub fn u64_to_dec(n: u64) -> (r: String)
    ensures
        r@ == spec_dec(n),
    decreases n,
{
    if n < 10 {
        let mut s = String::new();
        push_char(&mut s, ((48 + n) as u8) as char);
        proof {
            assert(s@ =~= seq![dec_digit(n)]);
        }
        s
    } else {
        let mut s = u64_to_dec(n / 10);
        push_char(&mut s, ((48 + n % 10) as u8) as char);
        s
    }
}

} // verus!
