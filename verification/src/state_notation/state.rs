//! Juggling state representation using bit-packed notation.

use vstd::arithmetic::power2::{lemma2_to64, lemma_pow2_pos, pow2};
use vstd::prelude::*;
use vstd::string::StringExecFns;

use crate::bitmath::{
    bit_at, lemma_mod_add_zero, lemma_mod_pow2_bit, lemma_mod_pow2_weaken, lemma_set_bit_bound,
    lemma_u32_bit_test, lemma_u32_set_bit, lemma_u32_shr_zero, popcount,
};
use crate::enumeration::{
    gen_seq, lemma_gen_distinct, lemma_gen_elems, lemma_gen_first, lemma_gen_len,
};
use crate::util::binom;

verus! {

/// The underlying integer type used to represent juggling state bitmasks.
pub type Bits = u32;

/// The maximum allowed throw height, equal to the number of bits in [`Bits`].
pub const MAX_MAX_HEIGHT: u8 = 32;

/// Raw state bits are valid under a height bound when no bit at or above the
/// bound is set.
pub open spec fn valid_bits(bits: nat, max_height: nat) -> bool {
    bits < pow2(max_height)
}

/// The characters of a state rendered over positions `mh - 1` down to `0`,
/// most significant position first.
pub open spec fn render_state(bits: nat, mh: nat, one: char, zero: char) -> Seq<char> {
    Seq::new(
        mh,
        |i: int|
            if bit_at(bits, (mh - 1 - i) as nat) {
                one
            } else {
                zero
            },
    )
}

/// A juggling state represented as a bitmask where each set bit indicates a
/// prop scheduled to land at that beat offset.
///
/// The least significant bit represents the current beat (position 0), and
/// higher bits represent future beats. A state with `num_props` set bits has
/// exactly that many props in the air.
#[derive(Copy, Clone, Eq, PartialEq, Hash, Debug, Structural)]
pub struct State(Bits);

impl View for State {
    type V = nat;

    closed spec fn view(&self) -> nat {
        self.0 as nat
    }
}

impl State {
    /// Create a new state from raw bits, validating that no bits are set at
    /// or above `max_height`.
    pub fn new(bits: Bits, max_height: u8) -> (r: Result<Self, String>)
        ensures
            r is Ok <==> (max_height <= MAX_MAX_HEIGHT && valid_bits(
                bits as nat,
                max_height as nat,
            )),
            r matches Ok(s) ==> s@ == bits as nat,
    {
        proof {
            lemma2_to64();
            if max_height < 32 {
                lemma_u32_shr_zero(bits, max_height as u32);
            }
        }
        if max_height > MAX_MAX_HEIGHT {
            return Err("max_height exceeds the bit-width limit".to_owned());
        }
        if max_height < MAX_MAX_HEIGHT && bits >> (max_height as u32) != 0 {
            return Err("bits set above max_height".to_owned());
        }
        Ok(State(bits))
    }

    /// Create a state directly from raw bits without validation; for internal
    /// use where bit arithmetic already guarantees validity.
    pub(crate) fn from_bits(bits: Bits) -> (r: Self)
        ensures
            r@ == bits as nat,
    {
        State(bits)
    }

    /// Return the raw bitmask underlying this state.
    pub fn bits(&self) -> (r: Bits)
        ensures
            r as nat == self@,
    {
        self.0
    }

    /// Check whether a prop is scheduled to land at beat offset `pos`.
    pub fn prop_at(&self, pos: u8) -> (r: bool)
        requires
            pos < MAX_MAX_HEIGHT,
        ensures
            r == bit_at(self@, pos as nat),
    {
        proof {
            lemma_u32_bit_test(self.0, pos as u32);
        }
        (self.0 >> (pos as u32)) & 1 != 0
    }

    /// Format the state as a human-readable string using `x` for occupied
    /// beats and `0` for empty beats, most-significant bit first.
    pub fn display(&self, max_height: u8) -> (r: String)
        requires
            max_height <= MAX_MAX_HEIGHT,
        ensures
            r@ == render_state(self@, max_height as nat, 'x', '0'),
    {
        let ghost target = render_state(self@, max_height as nat, 'x', '0');
        let mut out = String::new();
        let mut j: u8 = 0;
        while j < max_height
            invariant
                j <= max_height,
                max_height <= MAX_MAX_HEIGHT,
                target == render_state(self@, max_height as nat, 'x', '0'),
                out@ == target.subrange(0, j as int),
            decreases max_height - j,
        {
            if self.prop_at(max_height - 1 - j) {
                out.append("x");
                proof {
                    reveal_strlit("x");
                }
            } else {
                out.append("0");
                proof {
                    reveal_strlit("0");
                }
            }
            proof {
                assert(out@ =~= target.subrange(0, j + 1));
            }
            j = j + 1;
        }
        proof {
            assert(target.subrange(0, max_height as int) =~= target);
        }
        out
    }

    /// Format the state as a binary string (`1`/`0`), most-significant bit
    /// first.
    pub fn to_binary_string(self, max_height: u8) -> (r: String)
        requires
            max_height <= MAX_MAX_HEIGHT,
        ensures
            r@ == render_state(self@, max_height as nat, '1', '0'),
    {
        let ghost target = render_state(self@, max_height as nat, '1', '0');
        let mut out = String::new();
        let mut j: u8 = 0;
        while j < max_height
            invariant
                j <= max_height,
                max_height <= MAX_MAX_HEIGHT,
                target == render_state(self@, max_height as nat, '1', '0'),
                out@ == target.subrange(0, j as int),
            decreases max_height - j,
        {
            if self.prop_at(max_height - 1 - j) {
                out.append("1");
                proof {
                    reveal_strlit("1");
                }
            } else {
                out.append("0");
                proof {
                    reveal_strlit("0");
                }
            }
            proof {
                assert(out@ =~= target.subrange(0, j + 1));
            }
            j = j + 1;
        }
        proof {
            assert(target.subrange(0, max_height as int) =~= target);
        }
        out
    }

    /// Generate all valid states with exactly `num_props` set bits within
    /// `max_height` positions.
    ///
    /// States are returned in a deterministic order produced by backtracking
    /// enumeration. The first state is always the "ground state" (lowest bits
    /// set).
    pub fn generate(num_props: u8, max_height: u8) -> (r: Vec<Self>)
        requires
            max_height <= MAX_MAX_HEIGHT,
        ensures
            r@.map_values(|s: State| s@) == gen_seq(
                max_height as nat,
                0,
                num_props as nat,
                0,
            ),
            r@.len() == binom(max_height as nat, num_props as nat),
            forall|i: int|
                0 <= i < r@.len() ==> valid_bits(#[trigger] r@[i]@, max_height as nat)
                    && popcount(r@[i]@) == num_props as nat,
            forall|i: int, j: int| 0 <= i < j < r@.len() ==> r@[i]@ != r@[j]@,
            num_props <= max_height ==> r@.len() > 0 && r@[0]@ == pow2(num_props as nat) - 1,
    {
        let mut states: Vec<Self> = Vec::new();
        proof {
            lemma_pow2_pos(max_height as nat);
            vstd::arithmetic::div_mod::lemma_small_mod(0, pow2(max_height as nat));
        }
        Self::backtrack(max_height, 0, num_props, 0, &mut states);
        proof {
            let mh = max_height as nat;
            let np = num_props as nat;
            let view = states@.map_values(|s: State| s@);
            lemma_gen_len(mh, 0, np, 0);
            lemma_gen_elems(mh, 0, np, 0);
            lemma_gen_distinct(mh, 0, np, 0);
            assert(forall|i: int|
                0 <= i < states@.len() ==> #[trigger] states@[i]@ == view[i]);
            if num_props <= max_height {
                lemma_gen_first(mh, 0, np, 0);
            }
        }
        states
    }

    fn backtrack(max_height: u8, pos: u8, props_left: u8, current: Bits, states: &mut Vec<Self>)
        requires
            max_height <= MAX_MAX_HEIGHT,
            pos <= max_height,
            (current as nat) % pow2((max_height - pos) as nat) == 0,
            valid_bits(current as nat, max_height as nat),
        ensures
            final(states)@.map_values(|s: State| s@) == old(states)@.map_values(|s: State| s@)
                + gen_seq(max_height as nat, pos as nat, props_left as nat, current as nat),
        decreases max_height - pos,
    {
        let ghost mh = max_height as nat;
        let ghost m = (max_height - pos) as nat;
        let ghost emitted = gen_seq(mh, pos as nat, props_left as nat, current as nat);
        let remaining = max_height - pos;
        if props_left > remaining {
            proof {
                assert(emitted =~= Seq::<nat>::empty());
                assert(final(states)@.map_values(|s: State| s@) =~= old(states)@.map_values(
                    |s: State| s@,
                ) + emitted);
            }
            return;
        }
        if pos == max_height {
            if props_left == 0 {
                let ghost pre = states@;
                states.push(State(current));
                proof {
                    assert(states@.map_values(|s: State| s@) =~= pre.map_values(|s: State| s@)
                        + emitted);
                }
            }
            proof {
                if props_left != 0 {
                    assert(emitted =~= Seq::<nat>::empty());
                }
                assert(final(states)@.map_values(|s: State| s@) =~= old(states)@.map_values(
                    |s: State| s@,
                ) + emitted);
            }
            return;
        }

        proof {
            lemma_mod_pow2_weaken(current as nat, m, (m - 1) as nat);
        }
        let ghost mid = states@;
        Self::backtrack(max_height, pos + 1, props_left, current, states);

        if props_left > 0 {
            let sh = max_height - 1 - pos;
            proof {
                lemma_mod_pow2_bit(current as nat, m, sh as nat);
                lemma_u32_set_bit(current, sh as u32);
                lemma_set_bit_bound(current as nat, sh as nat, mh);
                lemma_pow2_pos((m - 1) as nat);
                vstd::arithmetic::div_mod::lemma_mod_self_0(pow2((m - 1) as nat) as int);
                lemma_mod_add_zero(current as nat, pow2(sh as nat), pow2((m - 1) as nat));
            }
            let next = current | (1u32 << (sh as u32));
            Self::backtrack(max_height, pos + 1, props_left - 1, next, states);
        }
        proof {
            assert(final(states)@.map_values(|s: State| s@) =~= old(states)@.map_values(
                |s: State| s@,
            ) + emitted);
        }
    }
}

} // verus!
