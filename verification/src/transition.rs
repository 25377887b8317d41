//! Transitions between wide juggling states.

use vstd::prelude::*;
use vstd::string::StringExecFns;

use crate::bitmath::{lemma_u64_bit_test, lemma_u64_set_bit, lemma_u64_shr_one};
use crate::state::{wide_valid_bits, State, WIDE_MAX_HEIGHT};
use crate::state_notation::state::render_state;
use crate::state_notation::transition::{dec_chars, u8_decimal};
use crate::throw_model::{throw_seq, transitions_of};
use vstd::arithmetic::power2::pow2;

verus! {

/// A single transition between wide juggling states: source, destination,
/// and the throw height that causes it.
#[derive(Debug)]
pub struct Transition {
    from: State,
    to: State,
    throw_height: u8,
    max_height: u8,
}

impl Transition {
    /// The source state's bit pattern.
    pub closed spec fn spec_from(&self) -> nat {
        self.from@
    }

    /// The destination state's bit pattern.
    pub closed spec fn spec_to(&self) -> nat {
        self.to@
    }

    /// The throw height recorded for this transition.
    pub closed spec fn spec_height(&self) -> nat {
        self.throw_height as nat
    }

    /// The height bound this transition was computed under.
    pub closed spec fn spec_max_height(&self) -> nat {
        self.max_height as nat
    }

    /// Return the source state of this transition.
    pub fn get_from(&self) -> (r: State)
        ensures
            r@ == self.spec_from(),
    {
        self.from
    }

    /// Return the destination state of this transition.
    pub fn get_to(&self) -> (r: State)
        ensures
            r@ == self.spec_to(),
    {
        self.to
    }

    /// Return the throw height that causes this transition.
    pub fn get_throw_height(&self) -> (r: u8)
        ensures
            r as nat == self.spec_height(),
    {
        self.throw_height
    }

    /// Format the transition as its destination state followed by the throw
    /// height in parentheses.
    pub fn display(&self) -> (r: String)
        requires
            self.spec_max_height() <= WIDE_MAX_HEIGHT as nat,
        ensures
            r@ == render_state(self.spec_to(), self.spec_max_height(), 'x', '0') + " ("@
                + dec_chars(self.spec_height()) + ")"@,
    {
        let mut out = self.to.display(self.max_height);
        out.append(" (");
        let digits = u8_decimal(self.throw_height);
        out.append(digits.as_str());
        out.append(")");
        out
    }
}

/// Compute all valid transitions from the given `state` within `max_height`:
/// a single zero-throw when no ball lands now, else one transition per clear
/// bit of the halved state, in increasing height order.
pub fn get_transitions(state: State, max_height: u8) -> (r: Vec<Transition>)
    requires
        max_height <= WIDE_MAX_HEIGHT,
        wide_valid_bits(state@, max_height as nat),
    ensures
        r@.len() == transitions_of(state@, max_height as nat).len(),
        forall|i: int|
            0 <= i < r@.len() ==> (#[trigger] r@[i]).spec_from() == state@
                && r@[i].spec_max_height() == max_height as nat && (
            r@[i].spec_height(),
            r@[i].spec_to(),
            ) == transitions_of(state@, max_height as nat)[i],
{
    let ghost mh = max_height as nat;
    let ghost target = transitions_of(state@, mh);
    let mut transitions: Vec<Transition> = Vec::new();

    let bits = state.bits();
    proof {
        assert(bits & 1 == bits % 2) by (bit_vector);
        lemma_u64_shr_one(bits);
    }
    let rightmost = bits & 1 != 0;
    let shifted = bits >> 1u64;

    if !rightmost {
        let to = match State::new(shifted, max_height) {
            Ok(s) => s,
            // Unreachable: halving a valid state keeps it valid.
            Err(_) => {
                proof {
                    crate::bitmath::lemma_half_lt(state@, pow2(mh));
                    assert(false);
                }
                state
            },
        };
        transitions.push(Transition { from: state, to, throw_height: 0, max_height });
        proof {
            assert(target == seq![(0nat, state@ / 2)]);
            assert(transitions@[0].spec_height() == 0 && transitions@[0].spec_to() == state@ / 2);
        }
    } else {
        let ghost sh = shifted as nat;
        proof {
            assert(transitions@.map_values(|t: Transition| (t.spec_height(), t.spec_to()))
                + throw_seq(sh, 0, mh) =~= throw_seq(sh, 0, mh));
            crate::bitmath::lemma_half_lt(state@, pow2(mh));
        }
        let mut bit_pos: u8 = 0;
        while bit_pos < max_height
            invariant
                max_height <= WIDE_MAX_HEIGHT,
                bit_pos <= max_height,
                sh == shifted as nat,
                target == transitions_of(state@, mh),
                mh == max_height as nat,
                state@ % 2 == 1,
                sh == state@ / 2,
                sh < pow2(mh),
                transitions@.map_values(|t: Transition| (t.spec_height(), t.spec_to()))
                    + throw_seq(sh, bit_pos as nat, mh) == throw_seq(sh, 0, mh),
                forall|i: int|
                    0 <= i < transitions@.len() ==> (#[trigger] transitions@[i]).spec_from()
                        == state@ && transitions@[i].spec_max_height() == mh,
            decreases max_height - bit_pos,
        {
            proof {
                lemma_u64_bit_test(shifted, bit_pos as u64);
            }
            if (shifted >> (bit_pos as u64)) & 1 == 0 {
                proof {
                    lemma_u64_set_bit(shifted, bit_pos as u64);
                    crate::bitmath::lemma_set_bit_bound(sh, bit_pos as nat, mh);
                }
                let new_bits = shifted | (1u64 << (bit_pos as u64));
                let throw_height = bit_pos + 1;
                let to = match State::new(new_bits, max_height) {
                    Ok(s) => s,
                    // Unreachable: setting a clear bit below the bound keeps
                    // the state valid.
                    Err(_) => {
                        proof {
                            assert(false);
                        }
                        state
                    },
                };
                let ghost pre = transitions@;
                transitions.push(Transition { from: state, to, throw_height, max_height });
                proof {
                    assert(transitions@.map_values(
                        |t: Transition| (t.spec_height(), t.spec_to()),
                    ) =~= pre.map_values(|t: Transition| (t.spec_height(), t.spec_to())) + seq![
                        ((throw_height as nat), (new_bits as nat)),
                    ]);
                    assert(throw_seq(sh, bit_pos as nat, mh) == seq![
                        ((throw_height as nat), (new_bits as nat)),
                    ] + throw_seq(sh, bit_pos as nat + 1, mh));
                    assert(transitions@.map_values(
                        |t: Transition| (t.spec_height(), t.spec_to()),
                    ) + throw_seq(sh, bit_pos as nat + 1, mh) =~= throw_seq(sh, 0, mh));
                }
            } else {
                proof {
                    assert(throw_seq(sh, bit_pos as nat, mh) == throw_seq(
                        sh,
                        bit_pos as nat + 1,
                        mh,
                    ));
                }
            }
            bit_pos = bit_pos + 1;
        }
        proof {
            assert(throw_seq(sh, max_height as nat, mh) =~= Seq::<(nat, nat)>::empty());
            assert(transitions@.map_values(|t: Transition| (t.spec_height(), t.spec_to()))
                =~= throw_seq(sh, 0, mh));
            assert(target == throw_seq(sh, 0, mh));
            assert forall|i: int| 0 <= i < transitions@.len() implies (
                (#[trigger] transitions@[i]).spec_height(),
                transitions@[i].spec_to(),
            ) == target[i] by {
                assert(transitions@.map_values(|t: Transition| (t.spec_height(), t.spec_to()))[i]
                    == (transitions@[i].spec_height(), transitions@[i].spec_to()));
            }
        }
    }

    transitions
}

} // verus!
