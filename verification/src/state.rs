//! Wide juggling state representation: the same bit-packed notation over a
//! 64-bit word.

use vstd::arithmetic::power2::{lemma2_to64_rest, lemma_pow2_pos, pow2};
use vstd::prelude::*;
use vstd::string::StringExecFns;

use crate::bitmath::{
    bit_at, lemma_mod_add_zero, lemma_mod_pow2_bit, lemma_mod_pow2_weaken, lemma_popcount_bound,
    lemma_set_bit_bound, lemma_u64_bit_test, lemma_u64_set_bit, lemma_u64_shr_one,
    lemma_u64_shr_zero, popcount,
};
use crate::enumeration::{
    gen_seq, lemma_gen_distinct, lemma_gen_elems, lemma_gen_first, lemma_gen_len,
};
use crate::state_notation::state::render_state;
use crate::util::binom;

verus! {

type Bits = u64;

/// The widest height bound this representation can carry.
pub const WIDE_MAX_HEIGHT: u8 = 64;

/// Raw state bits are valid under a height bound when no bit at or above the
/// bound is set.
pub open spec fn wide_valid_bits(bits: nat, max_height: nat) -> bool {
    bits < pow2(max_height)
}

/// A juggling state over a 64-bit word; each set bit is a ball scheduled to
/// land at that beat offset.
#[derive(Copy, Clone, Eq, PartialEq, Hash, Debug, Structural)]
pub struct State(Bits);

impl View for State {
    type V = nat;

    closed spec fn view(&self) -> nat {
        self.0 as nat
    }
}

impl State {
    /// Create a new state from raw bits, validating that no bits are set at
    /// or above `max_height`.
    pub fn new(bits: Bits, max_height: u8) -> (r: Result<Self, String>)
        ensures
            r is Ok <==> (max_height <= WIDE_MAX_HEIGHT && wide_valid_bits(
                bits as nat,
                max_height as nat,
            )),
            r matches Ok(s) ==> s@ == bits as nat,
    {
        proof {
            lemma2_to64_rest();
            if max_height < 64 {
                lemma_u64_shr_zero(bits, max_height as u64);
            }
        }
        if max_height > 64 {
            return Err("max_height exceeds 64".to_owned());
        }
        if max_height < 64 && bits >> (max_height as u64) != 0 {
            return Err("bits set above max_height".to_owned());
        }
        Ok(State(bits))
    }

    /// Return the raw bitmask underlying this state.
    pub fn bits(&self) -> (r: Bits)
        ensures
            r as nat == self@,
    {
        self.0
    }

    /// Check whether a ball is scheduled to land at beat offset `pos`.
    pub fn ball_at(&self, pos: u8) -> (r: bool)
        requires
            pos < WIDE_MAX_HEIGHT,
        ensures
            r == bit_at(self@, pos as nat),
    {
        proof {
            lemma_u64_bit_test(self.0, pos as u64);
        }
        (self.0 >> (pos as u64)) & 1 != 0
    }

    /// Count the balls in the air: the number of set bits.
    pub fn num_balls(&self) -> (r: u32)
        ensures
            r as nat == popcount(self@),
    {
        let mut x = self.0;
        let mut count: u32 = 0;
        proof {
            lemma2_to64_rest();
            lemma_popcount_bound(x as nat, 64);
        }
        while x != 0
            invariant
                count + popcount(x as nat) == popcount(self@),
                popcount(self@) <= 64,
            decreases x,
        {
            proof {
                assert(x & 1 == x % 2) by (bit_vector);
                lemma_u64_shr_one(x);
            }
            count = count + (x & 1) as u32;
            x = x >> 1u64;
        }
        count
    }

    /// Format the state using `x` for occupied beats and `0` for empty
    /// beats, most-significant bit first.
    pub fn display(&self, max_height: u8) -> (r: String)
        requires
            max_height <= WIDE_MAX_HEIGHT,
        ensures
            r@ == render_state(self@, max_height as nat, 'x', '0'),
    {
        let ghost target = render_state(self@, max_height as nat, 'x', '0');
        let mut out = String::new();
        let mut j: u8 = 0;
        while j < max_height
            invariant
                j <= max_height,
                max_height <= WIDE_MAX_HEIGHT,
                target == render_state(self@, max_height as nat, 'x', '0'),
                out@ == target.subrange(0, j as int),
            decreases max_height - j,
        {
            if self.ball_at(max_height - 1 - j) {
                out.append("x");
                proof {
                    reveal_strlit("x");
                }
            } else {
                out.append("0");
                proof {
                    reveal_strlit("0");
                }
            }
            proof {
                assert(out@ =~= target.subrange(0, j + 1));
            }
            j = j + 1;
        }
        proof {
            assert(target.subrange(0, max_height as int) =~= target);
        }
        out
    }
}

fn backtrack(max_height: u8, pos: u8, balls_left: u8, current: Bits, states: &mut Vec<State>)
    requires
        max_height <= WIDE_MAX_HEIGHT,
        pos <= max_height,
        (current as nat) % pow2((max_height - pos) as nat) == 0,
        wide_valid_bits(current as nat, max_height as nat),
    ensures
        final(states)@.map_values(|s: State| s@) == old(states)@.map_values(|s: State| s@)
            + gen_seq(max_height as nat, pos as nat, balls_left as nat, current as nat),
    decreases max_height - pos,
{
    let ghost mh = max_height as nat;
    let ghost m = (max_height - pos) as nat;
    let ghost emitted = gen_seq(mh, pos as nat, balls_left as nat, current as nat);
    let remaining = max_height - pos;
    if balls_left > remaining {
        proof {
            assert(emitted =~= Seq::<nat>::empty());
            assert(final(states)@.map_values(|s: State| s@) =~= old(states)@.map_values(
                |s: State| s@,
            ) + emitted);
        }
        return;
    }
    if pos == max_height {
        if balls_left == 0 {
            let ghost pre = states@;
            states.push(State(current));
            proof {
                assert(states@.map_values(|s: State| s@) =~= pre.map_values(|s: State| s@)
                    + emitted);
            }
        }
        proof {
            if balls_left != 0 {
                assert(emitted =~= Seq::<nat>::empty());
            }
            assert(final(states)@.map_values(|s: State| s@) =~= old(states)@.map_values(
                |s: State| s@,
            ) + emitted);
        }
        return;
    }

    proof {
        lemma_mod_pow2_weaken(current as nat, m, (m - 1) as nat);
    }
    backtrack(max_height, pos + 1, balls_left, current, states);

    if balls_left > 0 {
        let sh = max_height - 1 - pos;
        proof {
            lemma_mod_pow2_bit(current as nat, m, sh as nat);
            lemma_u64_set_bit(current, sh as u64);
            lemma_set_bit_bound(current as nat, sh as nat, mh);
            lemma_pow2_pos((m - 1) as nat);
            vstd::arithmetic::div_mod::lemma_mod_self_0(pow2((m - 1) as nat) as int);
            lemma_mod_add_zero(current as nat, pow2(sh as nat), pow2((m - 1) as nat));
        }
        let next = current | (1u64 << (sh as u64));
        backtrack(max_height, pos + 1, balls_left - 1, next, states);
    }
    proof {
        assert(final(states)@.map_values(|s: State| s@) =~= old(states)@.map_values(|s: State| s@)
            + emitted);
    }
}

/// Generate all valid states with exactly `num_balls` set bits within
/// `max_height` positions, in backtracking order with the ground state
/// first.
pub fn generate_states(num_balls: u8, max_height: u8) -> (r: Vec<State>)
    requires
        max_height <= WIDE_MAX_HEIGHT,
    ensures
        r@.map_values(|s: State| s@) == gen_seq(max_height as nat, 0, num_balls as nat, 0),
        r@.len() == binom(max_height as nat, num_balls as nat),
        forall|i: int|
            0 <= i < r@.len() ==> wide_valid_bits(#[trigger] r@[i]@, max_height as nat)
                && popcount(r@[i]@) == num_balls as nat,
        forall|i: int, j: int| 0 <= i < j < r@.len() ==> r@[i]@ != r@[j]@,
        num_balls <= max_height ==> r@.len() > 0 && r@[0]@ == pow2(num_balls as nat) - 1,
{
    let mut states: Vec<State> = Vec::new();
    proof {
        lemma_pow2_pos(max_height as nat);
        vstd::arithmetic::div_mod::lemma_small_mod(0, pow2(max_height as nat));
    }
    backtrack(max_height, 0, num_balls, 0, &mut states);
    proof {
        let mh = max_height as nat;
        let nb = num_balls as nat;
        let view = states@.map_values(|s: State| s@);
        lemma_gen_len(mh, 0, nb, 0);
        lemma_gen_elems(mh, 0, nb, 0);
        lemma_gen_distinct(mh, 0, nb, 0);
        assert(forall|i: int| 0 <= i < states@.len() ==> #[trigger] states@[i]@ == view[i]);
        if num_balls <= max_height {
            lemma_gen_first(mh, 0, nb, 0);
        }
    }
    states
}

} // verus!
