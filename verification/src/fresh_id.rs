//! Identifiers in the shape of a random UUID that are guaranteed not to be in
//! use: the fallback when a random identifier collides with an existing one.

use vstd::prelude::*;
use vstd::arithmetic::div_mod::{lemma_fundamental_div_mod, lemma_mod_breakdown, lemma_small_mod};
use vstd::relations::injective_on;
use vstd::set_lib::{lemma_int_range, lemma_len_subset, lemma_map_size, set_int_range};
use crate::foreign::is_hyphenated_v4;
use crate::text::{push_char, push_str};

verus! {

/// `16` to the power `k`.
pub open spec fn p16(k: nat) -> nat
    decreases k,
{
    if k == 0 {
        1
    } else {
        16 * p16((k - 1) as nat)
    }
}

/// The lower-case hex digit of `d` (for `0 <= d < 16`).
pub open spec fn hex_lower(d: int) -> char {
    if d < 10 {
        crate::text::digit_char(d)
    } else if d == 10 {
        'a'
    } else if d == 11 {
        'b'
    } else if d == 12 {
        'c'
    } else if d == 13 {
        'd'
    } else if d == 14 {
        'e'
    } else {
        'f'
    }
}

/// The last `k` hex digits of `i`, most significant first.
pub open spec fn hex_tail(i: nat, k: nat) -> Seq<char>
    decreases k,
{
    if k == 0 {
        Seq::empty()
    } else {
        hex_tail(i / 16, (k - 1) as nat).push(hex_lower((i % 16) as int))
    }
}

/// The `i`-th spare identifier:
/// `00000000-HHHH-4000-8000-LLLLLLLLLLLL`, where `HHHH` and `LLLLLLLLLLLL`
/// are the high 4 and the low 12 hex digits of `i`.
pub open spec fn spare_id(i: nat) -> Seq<char> {
    "00000000-"@ + hex_tail(i / p16(12), 4) + "-4000-8000-"@ + hex_tail(i, 12)
}

proof fn lemma_p16_positive(k: nat)
    ensures
        p16(k) > 0,
    decreases k,
{
    if k > 0 {
        lemma_p16_positive((k - 1) as nat);
    }
}

proof fn lemma_hex_lower(d: int)
    requires
        0 <= d < 16,
    ensures
        crate::foreign::is_lower_hex(hex_lower(d)),
        forall|e: int| 0 <= e < 16 && hex_lower(e) == hex_lower(d) ==> e == d,
{
}

proof fn lemma_hex_tail_shape(i: nat, k: nat)
    ensures
        hex_tail(i, k).len() == k,
        forall|m: int| 0 <= m < k ==> crate::foreign::is_lower_hex(#[trigger] hex_tail(i, k)[m]),
    decreases k,
{
    if k > 0 {
        lemma_hex_tail_shape(i / 16, (k - 1) as nat);
        lemma_hex_lower((i % 16) as int);
    }
}

/// Equal digit tails mean equal remainders.
proof fn lemma_hex_tail_determines(i: nat, j: nat, k: nat)
    requires
        hex_tail(i, k) == hex_tail(j, k),
    ensures
        i % p16(k) == j % p16(k),
    decreases k,
{
    if k == 0 {
        assert(i % 1 == 0 && j % 1 == 0);
    } else {
        let ti = hex_tail(i, k);
        let tj = hex_tail(j, k);
        lemma_hex_tail_shape(i / 16, (k - 1) as nat);
        lemma_hex_tail_shape(j / 16, (k - 1) as nat);
        assert(ti.last() == tj.last());
        lemma_hex_lower((i % 16) as int);
        assert(i % 16 == j % 16);
        assert(ti.drop_last() =~= hex_tail(i / 16, (k - 1) as nat));
        assert(tj.drop_last() =~= hex_tail(j / 16, (k - 1) as nat));
        lemma_hex_tail_determines(i / 16, j / 16, (k - 1) as nat);
        lemma_p16_positive((k - 1) as nat);
        lemma_mod_breakdown(i as int, 16, p16((k - 1) as nat) as int);
        lemma_mod_breakdown(j as int, 16, p16((k - 1) as nat) as int);
    }
}

proof fn lemma_p16_values()
    ensures
        p16(4) == 65536,
        p16(12) == 281474976710656,
{
    reveal_with_fuel(p16, 13);
}

/// Spare identifiers have the shape of a random UUID.
pub proof fn lemma_spare_id_shape(i: nat)
    ensures
        is_hyphenated_v4(spare_id(i)),
{
    reveal_strlit("00000000-");
    reveal_strlit("-4000-8000-");
    let h = hex_tail(i / p16(12), 4);
    let l = hex_tail(i, 12);
    lemma_hex_tail_shape(i / p16(12), 4);
    lemma_hex_tail_shape(i, 12);
    let s = spare_id(i);
    assert(s.len() == 36);
    assert forall|m: int| 0 <= m < 36 && m != 8 && m != 13 && m != 18 && m != 23 implies
        crate::foreign::is_lower_hex(#[trigger] s[m]) by {
        if 9 <= m < 13 {
            assert(s[m] == h[m - 9]);
        } else if 24 <= m {
            assert(s[m] == l[m - 24]);
        }
    }
}

/// Different numbers below 2^64 give different spare identifiers.
pub proof fn lemma_spare_id_injective(i: nat, j: nat)
    requires
        i < 0x1_0000_0000_0000_0000,
        j < 0x1_0000_0000_0000_0000,
        spare_id(i) == spare_id(j),
    ensures
        i == j,
{
    lemma_p16_values();
    let si = spare_id(i);
    let sj = spare_id(j);
    lemma_hex_tail_shape(i / p16(12), 4);
    lemma_hex_tail_shape(j / p16(12), 4);
    lemma_hex_tail_shape(i, 12);
    lemma_hex_tail_shape(j, 12);
    reveal_strlit("00000000-");
    reveal_strlit("-4000-8000-");
    assert(si.subrange(9, 13) =~= hex_tail(i / p16(12), 4));
    assert(sj.subrange(9, 13) =~= hex_tail(j / p16(12), 4));
    assert(si.subrange(24, 36) =~= hex_tail(i, 12));
    assert(sj.subrange(24, 36) =~= hex_tail(j, 12));
    lemma_hex_tail_determines(i / p16(12), j / p16(12), 4);
    lemma_hex_tail_determines(i, j, 12);
    let P: int = 281474976710656;
    lemma_fundamental_div_mod(i as int, P);
    lemma_fundamental_div_mod(j as int, P);
    assert((i as int) / P < 65536);
    assert((j as int) / P < 65536);
    lemma_small_mod(((i as int) / P) as nat, 65536);
    lemma_small_mod(((j as int) / P) as nat, 65536);
}

/// The `c`-th spare identifier is none of `used`.
pub open spec fn spare_unused(used: Seq<Seq<char>>, c: int) -> bool {
    forall|j: int| 0 <= j < used.len() ==> used[j] != spare_id(c as nat)
}

/// Among the spare identifiers `0..=n`, one is not among `n` used ones.
pub proof fn lemma_some_spare_id_unused(used: Seq<Seq<char>>)
    requires
        used.len() <= 0xffff_ffff_ffff_ffff,
    ensures
        exists|c: int| 0 <= c <= used.len() && #[trigger] spare_unused(used, c),
{
    let n = used.len() as int;
    if !(exists|c: int| 0 <= c <= n && #[trigger] spare_unused(used, c)) {
        assert forall|c: int| 0 <= c <= n implies exists|j: int| 0 <= j < n && used[j] == #[trigger] spare_id(c as nat) by {
            assert(!spare_unused(used, c));
        }
        let g = |c: int| choose|j: int| 0 <= j < n && used[j] == spare_id(c as nat);
        let dom = set_int_range(0, n + 1);
        lemma_int_range(0, n + 1);
        lemma_int_range(0, n);
        assert forall|c: int| dom.contains(c) implies 0 <= #[trigger] g(c) < n && used[g(c)] == spare_id(c as nat) by {
            assert(exists|j: int| 0 <= j < n && used[j] == spare_id(c as nat));
        }
        assert(injective_on(g, dom)) by {
            assert forall|c1: int, c2: int| dom.contains(c1) && dom.contains(c2) && #[trigger] g(c1) == #[trigger] g(c2) implies c1 == c2 by {
                lemma_spare_id_injective(c1 as nat, c2 as nat);
            }
        }
        let img = dom.map(g);
        lemma_map_size(dom, img, g);
        assert(img.subset_of(set_int_range(0, n))) by {
            assert forall|x: int| img.contains(x) implies set_int_range(0, n).contains(x) by {
                let c = choose|c: int| dom.contains(c) && g(c) == x;
            }
        }
        lemma_len_subset(img, set_int_range(0, n));
    }
}

fn hex_digit_lower(d: u64) -> (c: char)
    requires
        d < 16,
    ensures
        c == hex_lower(d as int),
{
    if d == 0 { '0' }
    else if d == 1 { '1' }
    else if d == 2 { '2' }
    else if d == 3 { '3' }
    else if d == 4 { '4' }
    else if d == 5 { '5' }
    else if d == 6 { '6' }
    else if d == 7 { '7' }
    else if d == 8 { '8' }
    else if d == 9 { '9' }
    else if d == 10 { 'a' }
    else if d == 11 { 'b' }
    else if d == 12 { 'c' }
    else if d == 13 { 'd' }
    else if d == 14 { 'e' }
    else { 'f' }
}

fn push_hex_tail(out: &mut String, v: u64, k: u64)
    ensures
        final(out)@ == old(out)@ + hex_tail(v as nat, k as nat),
    decreases k,
{
    if k > 0 {
        let ghost before = out@;
        push_hex_tail(out, v / 16, k - 1);
        push_char(out, hex_digit_lower(v % 16));
        assert(out@ =~= before + hex_tail(v as nat, k as nat));
    }
}

/// The `i`-th spare identifier.
pub fn spare_id_string(i: u64) -> (s: String)
    ensures
        s@ == spare_id(i as nat),
{
    proof {
        lemma_p16_values();
    }
    let mut s = String::new();
    push_str(&mut s, "00000000-");
    push_hex_tail(&mut s, i / 281474976710656, 4);
    push_str(&mut s, "-4000-8000-");
    push_hex_tail(&mut s, i, 12);
    assert(s@ =~= spare_id(i as nat));
    s
}

} // verus!
