//! Mathematical model of the backtracking state enumeration, independent of
//! the machine word that carries a state's bits.
//!
//! `gen_seq(mh, pos, left, cur)` is the sequence of bit patterns emitted by a
//! depth-first walk over positions `pos .. mh`: at each position the walk
//! first leaves the bit at `mh - 1 - pos` clear, then sets it if props remain
//! to place, pruning branches that cannot place all remaining props.

use vstd::arithmetic::power2::{
    lemma2_to64, lemma_pow2_pos, lemma_pow2_strictly_increases, lemma_pow2_unfold, pow2,
};
use vstd::prelude::*;

use crate::bitmath::{
    bit_at, lemma_mod_add_zero, lemma_mod_pow2_bit, lemma_mod_pow2_weaken, lemma_popcount_bound,
    lemma_popcount_pow2, lemma_popcount_set, lemma_popcount_split, lemma_set_bit_bound, popcount,
};
use crate::util::{binom, lemma_binom_above, lemma_binom_pos};

verus! {

/// The bit patterns emitted by the backtracking walk, in emission order.
pub open spec fn gen_seq(mh: nat, pos: nat, left: nat, cur: nat) -> Seq<nat>
    decreases mh - pos,
{
    if pos >= mh {
        if pos == mh && left == 0 {
            seq![cur]
        } else {
            Seq::empty()
        }
    } else if left > mh - pos {
        Seq::empty()
    } else if left > 0 {
        gen_seq(mh, pos + 1, left, cur) + gen_seq(
            mh,
            pos + 1,
            (left - 1) as nat,
            cur + pow2((mh - pos - 1) as nat),
        )
    } else {
        gen_seq(mh, pos + 1, left, cur)
    }
}

/// The walk emits exactly `C(mh - pos, left)` patterns.
pub proof fn lemma_gen_len(mh: nat, pos: nat, left: nat, cur: nat)
    requires
        pos <= mh,
    ensures
        gen_seq(mh, pos, left, cur).len() == binom((mh - pos) as nat, left),
    decreases mh - pos,
{
    let m = (mh - pos) as nat;
    if pos >= mh {
    } else if left > m {
        lemma_binom_above(m, left);
    } else if left > 0 {
        lemma_gen_len(mh, pos + 1, left, cur);
        lemma_gen_len(mh, pos + 1, (left - 1) as nat, cur + pow2((m - 1) as nat));
    } else {
        lemma_gen_len(mh, pos + 1, left, cur);
        assert(binom((m - 1) as nat, 0) == 1);
    }
}

/// Every emitted pattern extends `cur` inside its open window: it lies in
/// `[cur, cur + 2^(mh - pos))`, stays below `2^mh`, and carries exactly
/// `left` additional set bits.
pub proof fn lemma_gen_elems(mh: nat, pos: nat, left: nat, cur: nat)
    requires
        pos <= mh,
        cur % pow2((mh - pos) as nat) == 0,
        cur < pow2(mh),
    ensures
        forall|t: int|
            0 <= t < gen_seq(mh, pos, left, cur).len() ==> {
                let x = #[trigger] gen_seq(mh, pos, left, cur)[t];
                cur <= x < cur + pow2((mh - pos) as nat) && x < pow2(mh) && popcount(x)
                    == popcount(cur) + left
            },
    decreases mh - pos,
{
    let m = (mh - pos) as nat;
    let s = gen_seq(mh, pos, left, cur);
    if pos >= mh {
        if left == 0 {
            lemma_pow2_pos(m);
        }
    } else if left > m {
    } else {
        lemma_pow2_unfold(m);
        lemma_mod_pow2_weaken(cur, m, (m - 1) as nat);
        lemma_gen_elems(mh, pos + 1, left, cur);
        let s1 = gen_seq(mh, pos + 1, left, cur);
        if left > 0 {
            let cur2 = cur + pow2((m - 1) as nat);
            let s2 = gen_seq(mh, pos + 1, (left - 1) as nat, cur2);
            lemma_mod_pow2_bit(cur, m, (m - 1) as nat);
            lemma_set_bit_bound(cur, (m - 1) as nat, mh);
            lemma_popcount_set(cur, (m - 1) as nat);
            vstd::arithmetic::div_mod::lemma_mod_self_0(pow2((m - 1) as nat) as int);
            lemma_mod_add_zero(cur, pow2((m - 1) as nat), pow2((m - 1) as nat));
            lemma_gen_elems(mh, pos + 1, (left - 1) as nat, cur2);
            assert forall|t: int| 0 <= t < s.len() implies {
                let x = #[trigger] s[t];
                cur <= x < cur + pow2(m) && x < pow2(mh) && popcount(x) == popcount(cur) + left
            } by {
                if t < s1.len() {
                    assert(s[t] == s1[t]);
                } else {
                    assert(s[t] == s2[t - s1.len()]);
                }
            }
        } else {
            assert forall|t: int| 0 <= t < s.len() implies {
                let x = #[trigger] s[t];
                cur <= x < cur + pow2(m) && x < pow2(mh) && popcount(x) == popcount(cur) + left
            } by {
                assert(s[t] == s1[t]);
            }
        }
    }
}

/// No pattern is emitted twice.
pub proof fn lemma_gen_distinct(mh: nat, pos: nat, left: nat, cur: nat)
    requires
        pos <= mh,
        cur % pow2((mh - pos) as nat) == 0,
        cur < pow2(mh),
    ensures
        forall|t1: int, t2: int|
            0 <= t1 < t2 < gen_seq(mh, pos, left, cur).len() ==> gen_seq(mh, pos, left, cur)[t1]
                != gen_seq(mh, pos, left, cur)[t2],
    decreases mh - pos,
{
    let m = (mh - pos) as nat;
    let s = gen_seq(mh, pos, left, cur);
    if pos >= mh {
    } else if left > m {
    } else {
        lemma_pow2_unfold(m);
        lemma_mod_pow2_weaken(cur, m, (m - 1) as nat);
        lemma_gen_distinct(mh, pos + 1, left, cur);
        lemma_gen_elems(mh, pos + 1, left, cur);
        let s1 = gen_seq(mh, pos + 1, left, cur);
        if left > 0 {
            let cur2 = cur + pow2((m - 1) as nat);
            let s2 = gen_seq(mh, pos + 1, (left - 1) as nat, cur2);
            lemma_pow2_pos((m - 1) as nat);
            lemma_mod_pow2_bit(cur, m, (m - 1) as nat);
            lemma_set_bit_bound(cur, (m - 1) as nat, mh);
            vstd::arithmetic::div_mod::lemma_mod_self_0(pow2((m - 1) as nat) as int);
            lemma_mod_add_zero(cur, pow2((m - 1) as nat), pow2((m - 1) as nat));
            lemma_gen_distinct(mh, pos + 1, (left - 1) as nat, cur2);
            lemma_gen_elems(mh, pos + 1, (left - 1) as nat, cur2);
            assert forall|t1: int, t2: int| 0 <= t1 < t2 < s.len() implies s[t1] != s[t2] by {
                if t2 < s1.len() {
                    assert(s[t1] == s1[t1] && s[t2] == s1[t2]);
                } else if t1 >= s1.len() {
                    assert(s[t1] == s2[t1 - s1.len()] && s[t2] == s2[t2 - s1.len()]);
                } else {
                    assert(s[t1] == s1[t1] && s[t2] == s2[t2 - s1.len()]);
                    assert(s1[t1] < cur + pow2((m - 1) as nat));
                    assert(s2[t2 - s1.len()] >= cur2);
                }
            }
        } else {
            assert forall|t1: int, t2: int| 0 <= t1 < t2 < s.len() implies s[t1] != s[t2] by {
                assert(s[t1] == s1[t1] && s[t2] == s1[t2]);
            }
        }
    }
}

/// When enough positions remain, the walk emits at least one pattern, and the
/// first one packs all remaining props into the lowest open positions.
pub proof fn lemma_gen_first(mh: nat, pos: nat, left: nat, cur: nat)
    requires
        pos <= mh,
        left <= mh - pos,
    ensures
        gen_seq(mh, pos, left, cur).len() > 0,
        gen_seq(mh, pos, left, cur)[0] == cur + pow2(left) - 1,
    decreases mh - pos,
{
    let m = (mh - pos) as nat;
    let s = gen_seq(mh, pos, left, cur);
    lemma_pow2_pos(left);
    if pos >= mh {
        assert(pow2(0) == 1) by { lemma2_to64(); }
    } else if left < m {
        lemma_gen_first(mh, pos + 1, left, cur);
        let s1 = gen_seq(mh, pos + 1, left, cur);
        assert(s[0] == s1[0]);
    } else {
        let cur2 = cur + pow2((m - 1) as nat);
        lemma_gen_len(mh, pos + 1, left, cur);
        lemma_binom_above((m - 1) as nat, left);
        assert(gen_seq(mh, pos + 1, left, cur).len() == 0);
        lemma_gen_first(mh, pos + 1, (left - 1) as nat, cur2);
        let s2 = gen_seq(mh, pos + 1, (left - 1) as nat, cur2);
        assert(s[0] == s2[0]);
        lemma_pow2_unfold(m);
    }
}

/// Completeness: every pattern that extends `cur` with `left` set bits inside
/// the open window is emitted by the walk.
pub proof fn lemma_gen_complete(mh: nat, pos: nat, left: nat, cur: nat, y: nat)
    requires
        pos <= mh,
        cur % pow2((mh - pos) as nat) == 0,
        cur < pow2(mh),
        y < pow2((mh - pos) as nat),
        popcount(y) == left,
    ensures
        gen_seq(mh, pos, left, cur).contains(cur + y),
    decreases mh - pos,
{
    let m = (mh - pos) as nat;
    let s = gen_seq(mh, pos, left, cur);
    if pos >= mh {
        assert(pow2(0) == 1) by { lemma2_to64(); }
        assert(y == 0 && left == 0);
        assert(s[0] == cur + y);
    } else if left > m {
        lemma_popcount_bound(y, m);
        assert(false);
    } else {
        lemma_pow2_unfold(m);
        lemma_mod_pow2_weaken(cur, m, (m - 1) as nat);
        let s1 = gen_seq(mh, pos + 1, left, cur);
        if y < pow2((m - 1) as nat) {
            lemma_gen_complete(mh, pos + 1, left, cur, y);
            let i = choose|i: int| 0 <= i < s1.len() && s1[i] == cur + y;
            assert(s[i] == cur + y);
        } else {
            let yl = (y - pow2((m - 1) as nat)) as nat;
            vstd::arithmetic::div_mod::lemma_mod_self_0(pow2((m - 1) as nat) as int);
            lemma_popcount_split(pow2((m - 1) as nat), yl, (m - 1) as nat);
            lemma_popcount_pow2((m - 1) as nat);
            assert(left == 1 + popcount(yl));
            let cur2 = cur + pow2((m - 1) as nat);
            lemma_mod_pow2_bit(cur, m, (m - 1) as nat);
            lemma_set_bit_bound(cur, (m - 1) as nat, mh);
            lemma_mod_add_zero(cur, pow2((m - 1) as nat), pow2((m - 1) as nat));
            lemma_gen_complete(mh, pos + 1, (left - 1) as nat, cur2, yl);
            let s2 = gen_seq(mh, pos + 1, (left - 1) as nat, cur2);
            let i = choose|i: int| 0 <= i < s2.len() && s2[i] == cur2 + yl;
            assert(s[s1.len() + i] == cur2 + yl);
            assert(cur2 + yl == cur + y);
        }
    }
}

} // verus!
