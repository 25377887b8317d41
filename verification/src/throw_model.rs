//! Mathematical model of the legal throws out of a juggling state,
//! independent of the machine word that carries a state's bits.
//!
//! A throw is a pair `(height, destination)`. When no prop lands on the
//! current beat the only move is a zero throw onto the halved state; when a
//! prop lands, one throw exists per clear bit of the halved state, in
//! increasing height order.

use vstd::arithmetic::power2::{
    lemma_pow2_pos, lemma_pow2_strictly_increases, lemma_pow2_unfold, pow2,
};
use vstd::prelude::*;

use crate::bitmath::{
    bit_at, lemma_half_lt, lemma_popcount_set, lemma_set_bit_bound, popcount,
};

verus! {

/// The throws available for the halved state `shifted`, for landing offsets
/// `p .. mh`, in increasing height order.
pub open spec fn throw_seq(shifted: nat, p: nat, mh: nat) -> Seq<(nat, nat)>
    decreases mh - p,
{
    if p >= mh {
        Seq::empty()
    } else if bit_at(shifted, p) {
        throw_seq(shifted, p + 1, mh)
    } else {
        seq![((p + 1) as nat, (shifted + pow2(p)) as nat)] + throw_seq(shifted, p + 1, mh)
    }
}

/// All legal throws out of the state `bits` under the height bound `mh`.
pub open spec fn transitions_of(bits: nat, mh: nat) -> Seq<(nat, nat)> {
    if bits % 2 == 1 {
        throw_seq(bits / 2, 0, mh)
    } else {
        seq![(0 as nat, bits / 2)]
    }
}

/// Whether throwing at height `h` moves the state `from` to the state `to`.
pub open spec fn is_throw(from: nat, to: nat, h: nat, mh: nat) -> bool {
    if h == 0 {
        from % 2 == 0 && to == from / 2
    } else {
        h <= mh && from % 2 == 1 && !bit_at(from / 2, (h - 1) as nat) && to == from / 2 + pow2(
            (h - 1) as nat,
        )
    }
}

/// How many of the offsets `p .. mh` are clear in `shifted`.
pub open spec fn clear_count(shifted: nat, p: nat, mh: nat) -> nat
    decreases mh - p,
{
    if p >= mh {
        0
    } else {
        (if bit_at(shifted, p) {
            0nat
        } else {
            1nat
        }) + clear_count(shifted, p + 1, mh)
    }
}

/// Each listed throw lands on a clear offset within bounds, targets the
/// halved state with that offset's bit set, and heights grow strictly along
/// the list.
pub proof fn lemma_throw_seq_elems(shifted: nat, p: nat, mh: nat)
    ensures
        forall|t: int|
            0 <= t < throw_seq(shifted, p, mh).len() ==> {
                let (h, d) = #[trigger] throw_seq(shifted, p, mh)[t];
                p + 1 <= h <= mh && !bit_at(shifted, (h - 1) as nat) && d == shifted + pow2(
                    (h - 1) as nat,
                )
            },
        forall|t1: int, t2: int|
            0 <= t1 < t2 < throw_seq(shifted, p, mh).len() ==> throw_seq(shifted, p, mh)[t1].0
                < throw_seq(shifted, p, mh)[t2].0,
        throw_seq(shifted, p, mh).len() == clear_count(shifted, p, mh),
    decreases mh - p,
{
    let s = throw_seq(shifted, p, mh);
    if p >= mh {
    } else {
        lemma_throw_seq_elems(shifted, p + 1, mh);
        let s1 = throw_seq(shifted, p + 1, mh);
        if !bit_at(shifted, p) {
            assert forall|t: int| 0 <= t < s.len() implies {
                let (h, d) = #[trigger] s[t];
                p + 1 <= h <= mh && !bit_at(shifted, (h - 1) as nat) && d == shifted + pow2(
                    (h - 1) as nat,
                )
            } by {
                if t > 0 {
                    assert(s[t] == s1[t - 1]);
                }
            }
            assert forall|t1: int, t2: int| 0 <= t1 < t2 < s.len() implies s[t1].0 < s[t2].0 by {
                if t1 > 0 {
                    assert(s[t1] == s1[t1 - 1] && s[t2] == s1[t2 - 1]);
                } else {
                    assert(s[t2] == s1[t2 - 1]);
                }
            }
        }
    }
}

/// Completeness: every clear offset in range contributes its throw to the
/// list.
pub proof fn lemma_throw_seq_complete(shifted: nat, p: nat, mh: nat, h: nat)
    requires
        p + 1 <= h <= mh,
        !bit_at(shifted, (h - 1) as nat),
    ensures
        throw_seq(shifted, p, mh).contains(((h, (shifted + pow2((h - 1) as nat)) as nat))),
    decreases mh - p,
{
    let s = throw_seq(shifted, p, mh);
    if h == p + 1 {
        assert(s[0] == (h, (shifted + pow2((h - 1) as nat)) as nat));
    } else {
        lemma_throw_seq_complete(shifted, p + 1, mh, h);
        let s1 = throw_seq(shifted, p + 1, mh);
        let i = choose|i: int|
            0 <= i < s1.len() && s1[i] == (h, (shifted + pow2((h - 1) as nat)) as nat);
        if bit_at(shifted, p) {
            assert(s[i] == (h, (shifted + pow2((h - 1) as nat)) as nat));
        } else {
            assert(s[i + 1] == (h, (shifted + pow2((h - 1) as nat)) as nat));
        }
    }
}

/// The throw list of a state contains exactly the pairs that `is_throw`
/// admits.
pub proof fn lemma_transitions_iff(bits: nat, mh: nat, h: nat, d: nat)
    ensures
        transitions_of(bits, mh).contains((h, d)) <==> is_throw(bits, d, h, mh),
{
    let s = transitions_of(bits, mh);
    if bits % 2 == 1 {
        lemma_throw_seq_elems(bits / 2, 0, mh);
        if is_throw(bits, d, h, mh) {
            lemma_throw_seq_complete(bits / 2, 0, mh, h);
        }
        if s.contains((h, d)) {
            let i = choose|i: int| 0 <= i < s.len() && s[i] == (h, d);
            assert(s[i].0 == h && s[i].1 == d);
        }
    } else {
        if s.contains((h, d)) {
            let i = choose|i: int| 0 <= i < s.len() && s[i] == (h, d);
            assert(i == 0);
        }
        if is_throw(bits, d, h, mh) {
            assert(s[0] == (h, d));
        }
    }
}

/// At most one throw height connects an ordered pair of states.
pub proof fn lemma_is_throw_unique(from: nat, to: nat, h1: nat, h2: nat, mh: nat)
    requires
        is_throw(from, to, h1, mh),
        is_throw(from, to, h2, mh),
    ensures
        h1 == h2,
{
    if h1 != 0 && h2 != 0 && h1 != h2 {
        if h1 < h2 {
            lemma_pow2_strictly_increases((h1 - 1) as nat, (h2 - 1) as nat);
        } else {
            lemma_pow2_strictly_increases((h2 - 1) as nat, (h1 - 1) as nat);
        }
        assert(false);
    }
}

/// Every throw out of a valid state preserves the prop count and lands in a
/// valid state; the destinations of one state's throws are pairwise distinct.
pub proof fn lemma_transitions_preserve(bits: nat, mh: nat)
    requires
        bits < pow2(mh),
    ensures
        forall|t: int|
            0 <= t < transitions_of(bits, mh).len() ==> {
                let (h, d) = #[trigger] transitions_of(bits, mh)[t];
                popcount(d) == popcount(bits) && d < pow2(mh) && h <= mh
            },
        forall|t1: int, t2: int|
            0 <= t1 < t2 < transitions_of(bits, mh).len() ==> transitions_of(bits, mh)[t1].1
                != transitions_of(bits, mh)[t2].1,
{
    let s = transitions_of(bits, mh);
    lemma_pow2_pos(mh);
    lemma_half_lt(bits, pow2(mh));
    let shifted = bits / 2;
    if bits % 2 == 1 {
        lemma_throw_seq_elems(shifted, 0, mh);
        assert forall|t: int| 0 <= t < s.len() implies {
            let (h, d) = #[trigger] s[t];
            popcount(d) == popcount(bits) && d < pow2(mh) && h <= mh
        } by {
            let (h, d) = s[t];
            lemma_popcount_set(shifted, (h - 1) as nat);
            lemma_set_bit_bound(shifted, (h - 1) as nat, mh);
            assert(popcount(bits) == popcount(shifted) + 1);
        }
        assert forall|t1: int, t2: int| 0 <= t1 < t2 < s.len() implies s[t1].1 != s[t2].1 by {
            let h1 = s[t1].0;
            let h2 = s[t2].0;
            lemma_pow2_strictly_increases((h1 - 1) as nat, (h2 - 1) as nat);
        }
    } else {
        assert(popcount(bits) == popcount(bits / 2));
    }
}

/// When no prop lands now a state has exactly one transition, the zero
/// throw onto its halved bits. When a prop lands it has one transition per
/// clear bit of the halved state within the bound, with strictly increasing
/// throw heights.
pub proof fn lemma_transitions_count(bits: nat, mh: nat)
    requires
        bits < pow2(mh),
    ensures
        bits % 2 == 0 ==> transitions_of(bits, mh) =~= seq![(0nat, bits / 2)],
        bits % 2 == 1 ==> transitions_of(bits, mh).len() + popcount(bits / 2) == mh,
        forall|t1: int, t2: int|
            0 <= t1 < t2 < transitions_of(bits, mh).len() ==> transitions_of(bits, mh)[t1].0
                < transitions_of(bits, mh)[t2].0,
{
    lemma_pow2_pos(mh);
    lemma_half_lt(bits, pow2(mh));
    if bits % 2 == 1 {
        lemma_throw_seq_elems(bits / 2, 0, mh);
        lemma_clear_count_popcount(bits / 2, mh);
    }
}

/// A state with every slot occupied has exactly one throw: the full-height
/// self-loop.
pub proof fn lemma_transitions_full(mh: nat)
    requires
        mh >= 1,
    ensures
        transitions_of((pow2(mh) - 1) as nat, mh) =~= seq![
            (mh, (pow2(mh) - 1) as nat),
        ],
{
    let full = (pow2(mh) - 1) as nat;
    lemma_pow2_pos(mh);
    lemma_pow2_unfold(mh);
    lemma_pow2_pos((mh - 1) as nat);
    crate::bitmath::lemma_halve_odd((pow2((mh - 1) as nat) - 1) as nat);
    assert(full == 2 * ((pow2((mh - 1) as nat) - 1) as nat) + 1);
    assert(full % 2 == 1 && full / 2 == pow2((mh - 1) as nat) - 1);
    let shifted = full / 2;
    lemma_full_low_set(mh, shifted);
    lemma_throw_seq_elems(shifted, 0, mh);
    crate::bitmath::lemma_bit_at_high(shifted, (mh - 1) as nat, (mh - 1) as nat);
    lemma_throw_seq_complete(shifted, 0, mh, mh);
    let s = throw_seq(shifted, 0, mh);
    let i = choose|i: int| 0 <= i < s.len() && s[i] == (mh, (shifted + pow2((mh - 1) as nat)) as nat);
    assert(shifted + pow2((mh - 1) as nat) == full);
    assert forall|t: int| 0 <= t < s.len() implies s[t] == (mh, full) by {
        let (h, d) = s[t];
        if h < mh {
            assert(bit_at(shifted, (h - 1) as nat));
            assert(false);
        }
    }
    if s.len() >= 2 {
        lemma_throw_seq_elems(shifted, 0, mh);
        assert(s[0].0 < s[1].0);
        assert(false);
    }
    assert(s.len() == 1 && s[0] == (mh, full));
}

/// Below the top offset, every bit of the halved full state is set.
proof fn lemma_full_low_set(mh: nat, shifted: nat)
    requires
        mh >= 1,
        shifted == pow2((mh - 1) as nat) - 1,
    ensures
        forall|q: nat| q < mh - 1 ==> #[trigger] bit_at(shifted, q),
{
    assert forall|q: nat| q < mh - 1 implies #[trigger] bit_at(shifted, q) by {
        lemma_mask_bits((mh - 1) as nat, q);
    }
}

/// Every bit below `k` of the low-bits mask `2^k - 1` is set.
proof fn lemma_mask_bits(k: nat, q: nat)
    requires
        q < k,
    ensures
        bit_at((pow2(k) - 1) as nat, q),
    decreases q,
{
    lemma_pow2_pos(k);
    lemma_pow2_unfold(k);
    lemma_pow2_pos((k - 1) as nat);
    crate::bitmath::lemma_halve_odd((pow2((k - 1) as nat) - 1) as nat);
    assert((pow2(k) - 1) as nat == 2 * ((pow2((k - 1) as nat) - 1) as nat) + 1);
    if q > 0 {
        lemma_mask_bits((k - 1) as nat, (q - 1) as nat);
    }
}

/// The number of clear offsets below `mh` complements the population count of
/// a value below `2^mh`.
pub proof fn lemma_clear_count_popcount(shifted: nat, mh: nat)
    requires
        shifted < pow2(mh),
    ensures
        clear_count(shifted, 0, mh) + popcount(shifted) == mh,
    decreases mh,
{
    if mh == 0 {
        assert(pow2(0) == 1) by { vstd::arithmetic::power2::lemma2_to64(); }
    } else {
        lemma_pow2_unfold(mh);
        lemma_half_lt(shifted, pow2((mh - 1) as nat));
        lemma_clear_count_popcount(shifted / 2, (mh - 1) as nat);
        lemma_clear_count_shift(shifted, 0, (mh - 1) as nat);
        if shifted > 0 {
            assert(popcount(shifted) == popcount(shifted / 2) + shifted % 2);
        }
    }
}

/// Clear counts of a value over upper offsets equal those of its half over
/// the offsets shifted down by one.
proof fn lemma_clear_count_shift(shifted: nat, p: nat, m: nat)
    ensures
        clear_count(shifted, p + 1, m + 1) == clear_count(shifted / 2, p, m),
    decreases m - p,
{
    if p < m {
        lemma_clear_count_shift(shifted, p + 1, m);
    }
}

} // verus!
