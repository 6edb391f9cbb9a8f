//! Character-level building blocks: decimal rendering, prefix/suffix
//! tests and string assembly.

use vstd::prelude::*;
use vstd::std_specs::iter::IteratorSpec;

verus! {

broadcast use vstd::string::group_string_axioms;

/// The ASCII digit for `d` (meaningful for `0 <= d < 10`).
pub open spec fn digit_char(d: int) -> char {
    if d == 0 { '0' }
    else if d == 1 { '1' }
    else if d == 2 { '2' }
    else if d == 3 { '3' }
    else if d == 4 { '4' }
    else if d == 5 { '5' }
    else if d == 6 { '6' }
    else if d == 7 { '7' }
    else if d == 8 { '8' }
    else { '9' }
}

/// Decimal digits of a natural number, most significant first, no leading zeros.
pub open spec fn nat_decimal(n: nat) -> Seq<char>
    decreases n,
{
    if n < 10 {
        seq![digit_char(n as int)]
    } else {
        nat_decimal(n / 10).push(digit_char((n % 10) as int))
    }
}

/// Decimal rendering of an integer, as `{}` formats it: a `-` sign for negatives.
pub open spec fn int_decimal(n: int) -> Seq<char> {
    if n < 0 {
        seq!['-'] + nat_decimal((-n) as nat)
    } else {
        nat_decimal(n as nat)
    }
}

fn digit(d: u64) -> (c: char)
    requires
        d < 10,
    ensures
        c == digit_char(d as int),
{
    if d == 0 { '0' }
    else if d == 1 { '1' }
    else if d == 2 { '2' }
    else if d == 3 { '3' }
    else if d == 4 { '4' }
    else if d == 5 { '5' }
    else if d == 6 { '6' }
    else if d == 7 { '7' }
    else if d == 8 { '8' }
    else { '9' }
}

/// Appends one character to a `String` (std's `String::push`).
#[verifier::external_body]
pub(crate) fn push_char(s: &mut String, c: char)
    ensures
        final(s)@ == old(s)@.push(c),
{
    s.push(c)
}

/// Appends a string slice.
pub fn push_str(s: &mut String, t: &str)
    ensures
        final(s)@ == old(s)@ + t@,
{
    s.append(t);
}

/// Appends the decimal digits of `n`.
pub fn push_u64(out: &mut String, n: u64)
    ensures
        final(out)@ == old(out)@ + nat_decimal(n as nat),
    decreases n,
{
    if n < 10 {
        push_char(out, digit(n));
        assert(nat_decimal(n as nat) == seq![digit_char(n as int)]);
    } else {
        let ghost before = out@;
        push_u64(out, n / 10);
        push_char(out, digit(n % 10));
        assert(out@ == before + nat_decimal(n as nat));
    }
}

/// Appends `n` rendered as `{}` renders an `i64`.
pub fn push_i64(out: &mut String, n: i64)
    ensures
        final(out)@ == old(out)@ + int_decimal(n as int),
{
    if n < 0 {
        let m: u64 = (0i128 - n as i128) as u64;
        let ghost before = out@;
        push_char(out, '-');
        push_u64(out, m);
        assert(out@ == before + int_decimal(n as int));
    } else {
        push_u64(out, n as u64);
    }
}

/// The characters of `s`, in order.
pub fn chars_of(s: &str) -> (v: Vec<char>)
    ensures
        v@ == s@,
{
    let mut it = s.chars();
    let mut v: Vec<char> = Vec::new();
    loop
        invariant
            v@ + IteratorSpec::remaining(&it) == s@,
            IteratorSpec::decrease(&it) is Some,
        decreases IteratorSpec::decrease(&it)->0,
    {
        let ghost before = IteratorSpec::remaining(&it);
        match it.next() {
            Some(c) => {
                v.push(c);
                assert(v@ + IteratorSpec::remaining(&it) =~= s@);
            },
            None => {
                assert(v@ =~= s@);
                return v;
            },
        }
    }
}


/// The Unicode `White_Space` property, which `char::is_whitespace` tests.
pub open spec fn is_ws(c: char) -> bool {
    ||| ('\u{9}' <= c && c <= '\u{d}')
    ||| c == ' '
    ||| c == '\u{85}'
    ||| c == '\u{a0}'
    ||| c == '\u{1680}'
    ||| ('\u{2000}' <= c && c <= '\u{200a}')
    ||| c == '\u{2028}'
    ||| c == '\u{2029}'
    ||| c == '\u{202f}'
    ||| c == '\u{205f}'
    ||| c == '\u{3000}'
}

/// Whether `c` has the Unicode `White_Space` property.
pub fn is_unicode_whitespace(c: char) -> (b: bool)
    ensures
        b == is_ws(c),
{
    ('\u{9}' <= c && c <= '\u{d}') || c == ' ' || c == '\u{85}' || c == '\u{a0}'
        || c == '\u{1680}' || ('\u{2000}' <= c && c <= '\u{200a}') || c == '\u{2028}'
        || c == '\u{2029}' || c == '\u{202f}' || c == '\u{205f}' || c == '\u{3000}'
}

/// `s` without its leading whitespace.
pub open spec fn trim_start(s: Seq<char>) -> Seq<char>
    decreases s.len(),
{
    if s.len() > 0 && is_ws(s[0]) {
        trim_start(s.drop_first())
    } else {
        s
    }
}

/// `s` without its trailing whitespace.
pub open spec fn trim_end(s: Seq<char>) -> Seq<char>
    decreases s.len(),
{
    if s.len() > 0 && is_ws(s.last()) {
        trim_end(s.drop_last())
    } else {
        s
    }
}

/// `s` without leading and trailing whitespace, as `str::trim` gives it.
#[verifier::opaque]
pub open spec fn trim(s: Seq<char>) -> Seq<char> {
    trim_end(trim_start(s))
}

/// Bounds `(a, b)` such that `v[a..b]` is `v[lo..hi]` trimmed.
pub fn trim_bounds(v: &Vec<char>, lo: usize, hi: usize) -> (r: (usize, usize))
    requires
        lo <= hi <= v@.len(),
    ensures
        lo <= r.0 <= r.1 <= hi,
        v@.subrange(r.0 as int, r.1 as int) == trim(v@.subrange(lo as int, hi as int)),
{
    reveal(trim);
    let mut a = lo;
    while a < hi && is_unicode_whitespace(v[a])
        invariant
            lo <= a <= hi <= v@.len(),
            trim_start(v@.subrange(lo as int, hi as int)) == trim_start(
                v@.subrange(a as int, hi as int),
            ),
        decreases hi - a,
    {
        assert(v@.subrange(a as int, hi as int).drop_first() =~= v@.subrange(
            a + 1,
            hi as int,
        ));
        a = a + 1;
    }
    let mut b = hi;
    while b > a && is_unicode_whitespace(v[b - 1])
        invariant
            lo <= a <= b <= hi <= v@.len(),
            trim_end(v@.subrange(a as int, hi as int)) == trim_end(
                v@.subrange(a as int, b as int),
            ),
        decreases b - a,
    {
        assert(v@.subrange(a as int, b as int).drop_last() =~= v@.subrange(
            a as int,
            b - 1,
        ));
        b = b - 1;
    }
    (a, b)
}

/// Whether `p` occurs in `s` starting at position `i`.
pub open spec fn occurs_at(s: Seq<char>, p: Seq<char>, i: int) -> bool {
    0 <= i && i + p.len() <= s.len() && s.subrange(i, i + p.len()) == p
}

/// Whether `s` begins with `p`.
pub open spec fn has_prefix(s: Seq<char>, p: Seq<char>) -> bool {
    occurs_at(s, p, 0)
}

/// The start of the last occurrence of `p` in `s`, as `str::rfind` finds it.
#[verifier::opaque]
pub open spec fn rfind(s: Seq<char>, p: Seq<char>) -> Option<int> {
    if exists|i: int| occurs_at(s, p, i) {
        Some(choose|i: int| occurs_at(s, p, i) && forall|j: int| occurs_at(s, p, j) ==> j <= i)
    } else {
        None
    }
}

/// The position of the first `c` in `s`.
#[verifier::opaque]
pub open spec fn first_index_of(s: Seq<char>, c: char) -> Option<int> {
    if exists|i: int| 0 <= i < s.len() && s[i] == c {
        Some(choose|i: int| 0 <= i < s.len() && s[i] == c && forall|j: int| 0 <= j < i ==> s[j] != c)
    } else {
        None
    }
}

/// The position of the last `c` in `s`.
#[verifier::opaque]
pub open spec fn last_index_of(s: Seq<char>, c: char) -> Option<int> {
    if exists|i: int| 0 <= i < s.len() && s[i] == c {
        Some(choose|i: int| 0 <= i < s.len() && s[i] == c && forall|j: int| i < j < s.len() ==> s[j] != c)
    } else {
        None
    }
}

/// Whether `p` occurs in `v` at absolute position `i`, looking only inside `v[lo..hi]`.
pub fn occurs_in_window(v: &Vec<char>, lo: usize, hi: usize, p: &Vec<char>, i: usize) -> (b: bool)
    requires
        lo <= i <= hi <= v@.len(),
    ensures
        b == occurs_at(v@.subrange(lo as int, hi as int), p@, i - lo),
{
    if p.len() > hi - i {
        return false;
    }
    let mut k: usize = 0;
    while k < p.len()
        invariant
            lo <= i <= hi <= v@.len(),
            p@.len() <= hi - i,
            0 <= k <= p@.len(),
            forall|m: int| 0 <= m < k ==> v@[i + m] == p@[m],
        decreases p@.len() - k,
    {
        if v[i + k] != p[k] {
            assert(v@.subrange(lo as int, hi as int).subrange(i - lo, i - lo + p@.len())[k as int]
                != p@[k as int]);
            return false;
        }
        k = k + 1;
    }
    assert(v@.subrange(lo as int, hi as int).subrange(i - lo, i - lo + p@.len()) =~= p@);
    true
}

/// The last occurrence of `p` inside `v[lo..hi]`, as an offset from `lo`.
pub fn rfind_in_window(v: &Vec<char>, lo: usize, hi: usize, p: &Vec<char>) -> (r: Option<usize>)
    requires
        lo <= hi <= v@.len(),
    ensures
        match r {
            Some(i) => i + p@.len() <= hi - lo && rfind(v@.subrange(lo as int, hi as int), p@) == Some(
                i as int,
            ),
            None => rfind(v@.subrange(lo as int, hi as int), p@) is None,
        },
{
    reveal(rfind);
    let ghost w = v@.subrange(lo as int, hi as int);
    if p.len() > hi - lo {
        assert(forall|i: int| !occurs_at(w, p@, i));
        return None;
    }
    let mut k: usize = hi - lo - p.len();
    loop
        invariant
            lo <= hi <= v@.len(),
            p@.len() <= hi - lo,
            k <= hi - lo - p@.len(),
            w == v@.subrange(lo as int, hi as int),
            forall|j: int| k < j ==> !occurs_at(w, p@, j),
        decreases k,
    {
        if occurs_in_window(v, lo, hi, p, lo + k) {
            reveal(rfind);
            assert(occurs_at(w, p@, k as int));
            let ghost c = choose|c: int| occurs_at(w, p@, c) && forall|j: int| occurs_at(w, p@, j) ==> j <= c;
            assert(occurs_at(w, p@, c) && forall|j: int| occurs_at(w, p@, j) ==> j <= c);
            return Some(k);
        }
        if k == 0 {
            reveal(rfind);
            assert(forall|i: int| !occurs_at(w, p@, i));
            return None;
        }
        k = k - 1;
    }
}


/// The first `c` inside `v[lo..hi]`, as an offset from `lo`.
pub fn first_index_in_window(v: &Vec<char>, lo: usize, hi: usize, c: char) -> (r: Option<usize>)
    requires
        lo <= hi <= v@.len(),
    ensures
        match r {
            Some(i) => i < hi - lo && first_index_of(v@.subrange(lo as int, hi as int), c) == Some(
                i as int,
            ),
            None => first_index_of(v@.subrange(lo as int, hi as int), c) is None,
        },
{
    reveal(first_index_of);
    let ghost w = v@.subrange(lo as int, hi as int);
    let mut i = lo;
    while i < hi
        invariant
            lo <= i <= hi <= v@.len(),
            w == v@.subrange(lo as int, hi as int),
            forall|j: int| 0 <= j < i - lo ==> w[j] != c,
        decreases hi - i,
    {
        if v[i] == c {
            reveal(first_index_of);
            assert(w[i - lo] == c);
            let ghost k = choose|k: int| 0 <= k < w.len() && w[k] == c && forall|j: int| 0 <= j < k ==> w[j] != c;
            assert(0 <= k < w.len() && w[k] == c && forall|j: int| 0 <= j < k ==> w[j] != c);
            assert(k == i - lo);
            return Some(i - lo);
        }
        i = i + 1;
    }
    None
}

/// The last `c` inside `v[lo..hi]`, as an offset from `lo`.
pub fn last_index_in_window(v: &Vec<char>, lo: usize, hi: usize, c: char) -> (r: Option<usize>)
    requires
        lo <= hi <= v@.len(),
    ensures
        match r {
            Some(i) => i < hi - lo && last_index_of(v@.subrange(lo as int, hi as int), c) == Some(
                i as int,
            ),
            None => last_index_of(v@.subrange(lo as int, hi as int), c) is None,
        },
{
    reveal(last_index_of);
    let ghost w = v@.subrange(lo as int, hi as int);
    let mut i = hi;
    while i > lo
        invariant
            lo <= i <= hi <= v@.len(),
            w == v@.subrange(lo as int, hi as int),
            forall|j: int| i - lo <= j < w.len() ==> w[j] != c,
        decreases i - lo,
    {
        if v[i - 1] == c {
            reveal(last_index_of);
            assert(w[i - 1 - lo] == c);
            let ghost k = choose|k: int| 0 <= k < w.len() && w[k] == c && forall|j: int| k < j < w.len() ==> w[j] != c;
            assert(0 <= k < w.len() && w[k] == c && forall|j: int| k < j < w.len() ==> w[j] != c);
            assert(k == i - 1 - lo);
            return Some(i - 1 - lo);
        }
        i = i - 1;
    }
    None
}


/// Whether `n` occurs somewhere in `h` (as `str::contains` tests; an empty
/// `n` occurs everywhere).
pub open spec fn contains_seq(h: Seq<char>, n: Seq<char>) -> bool {
    exists|i: int| occurs_at(h, n, i)
}

/// Whether `n` occurs somewhere in `h`.
pub fn seq_contains(h: &Vec<char>, n: &Vec<char>) -> (b: bool)
    ensures
        b == contains_seq(h@, n@),
{
    reveal(rfind);
    assert(h@.subrange(0, h@.len() as int) =~= h@);
    rfind_in_window(h, 0, h.len(), n).is_some()
}

/// Whether two string slices hold the same characters.
pub fn str_equals(a: &str, b: &str) -> (r: bool)
    ensures
        r == (a@ == b@),
{
    let x = a.to_owned();
    let y = b.to_owned();
    x == y
}

} // verus!
