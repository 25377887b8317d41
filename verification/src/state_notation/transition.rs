//! Transitions between juggling states (throws and catches).

use vstd::prelude::*;

use crate::bitmath::{lemma_u32_bit_test, lemma_u32_set_bit, lemma_u32_shr_one};
use crate::state_notation::state::{render_state, State, MAX_MAX_HEIGHT};
use crate::throw_model::{throw_seq, transitions_of};
use vstd::string::StringExecFns;

verus! {

/// A single transition from one juggling [`State`] to another, representing
/// a throw of a specific height.
///
/// Each transition records the source and destination states, the throw
/// height that caused the transition, and the `max_height` context needed for
/// display formatting.
#[derive(Debug, Copy, Clone)]
pub struct Transition {
    from: State,
    to: State,
    throw_height: u8,
    max_height: u8,
}

impl Transition {
    /// The source state's bit pattern.
    pub closed spec fn spec_from(&self) -> nat {
        self.from@
    }

    /// The destination state's bit pattern.
    pub closed spec fn spec_to(&self) -> nat {
        self.to@
    }

    /// The throw height recorded for this transition.
    pub closed spec fn spec_height(&self) -> nat {
        self.throw_height as nat
    }

    /// The height bound this transition was computed under.
    pub closed spec fn spec_max_height(&self) -> nat {
        self.max_height as nat
    }

    /// Return the source state of this transition.
    pub fn from(&self) -> (r: State)
        ensures
            r@ == self.spec_from(),
    {
        self.from
    }

    /// Return the destination state of this transition.
    pub fn to(&self) -> (r: State)
        ensures
            r@ == self.spec_to(),
    {
        self.to
    }

    /// Return the throw height that causes this transition.
    pub fn throw_height(&self) -> (r: u8)
        ensures
            r as nat == self.spec_height(),
    {
        self.throw_height
    }

    /// Format the transition as its destination state followed by the throw
    /// height in parentheses.
    pub fn display(&self) -> (r: String)
        requires
            self.spec_max_height() <= MAX_MAX_HEIGHT as nat,
        ensures
            r@ == render_state(self.spec_to(), self.spec_max_height(), 'x', '0') + " ("@
                + dec_chars(self.spec_height()) + ")"@,
    {
        let mut out = self.to.display(self.max_height);
        out.append(" (");
        let digits = u8_decimal(self.throw_height);
        out.append(digits.as_str());
        out.append(")");
        out
    }

    /// Compute all valid transitions from the given `state` within
    /// `max_height`.
    ///
    /// If the rightmost bit (position 0) is empty, the only transition is a
    /// zero-throw (time step with no catch). If a prop is landing (rightmost
    /// bit set), one transition is generated for each unoccupied future beat
    /// the prop could be thrown to.
    pub fn from_state(state: State, max_height: u8) -> (r: Vec<Self>)
        requires
            max_height <= MAX_MAX_HEIGHT,
        ensures
            r@.len() == transitions_of(state@, max_height as nat).len(),
            forall|i: int|
                0 <= i < r@.len() ==> (#[trigger] r@[i]).spec_from() == state@
                    && r@[i].spec_max_height() == max_height as nat && (
                r@[i].spec_height(),
                r@[i].spec_to(),
            ) == transitions_of(state@, max_height as nat)[i],
    {
        let ghost mh = max_height as nat;
        let ghost target = transitions_of(state@, mh);
        let mut transitions: Vec<Self> = Vec::new();

        let bits = state.bits();
        proof {
            assert(bits & 1 == bits % 2) by (bit_vector);
            lemma_u32_shr_one(bits);
        }
        let rightmost = bits & 1 != 0;
        let shifted = bits >> 1u32;

        if rightmost {
            let ghost sh = shifted as nat;
            proof {
                assert(transitions@.map_values(|t: Transition| (t.spec_height(), t.spec_to()))
                    + throw_seq(sh, 0, mh) =~= throw_seq(sh, 0, mh));
            }
            let mut bit_pos: u8 = 0;
            while bit_pos < max_height
                invariant
                    max_height <= MAX_MAX_HEIGHT,
                    bit_pos <= max_height,
                    sh == shifted as nat,
                    target == transitions_of(state@, mh),
                    mh == max_height as nat,
                    state@ % 2 == 1,
                    sh == state@ / 2,
                    transitions@.map_values(|t: Transition| (t.spec_height(), t.spec_to()))
                        + throw_seq(sh, bit_pos as nat, mh) == throw_seq(sh, 0, mh),
                    forall|i: int|
                        0 <= i < transitions@.len() ==> (#[trigger] transitions@[i]).spec_from()
                            == state@ && transitions@[i].spec_max_height() == mh,
                decreases max_height - bit_pos,
            {
                proof {
                    lemma_u32_bit_test(shifted, bit_pos as u32);
                }
                if (shifted >> (bit_pos as u32)) & 1 == 0 {
                    proof {
                        lemma_u32_set_bit(shifted, bit_pos as u32);
                    }
                    let new_bits = shifted | (1u32 << (bit_pos as u32));
                    let throw_height = bit_pos + 1;
                    let ghost pre = transitions@;
                    transitions.push(
                        Transition {
                            from: state,
                            to: State::from_bits(new_bits),
                            throw_height,
                            max_height,
                        },
                    );
                    proof {
                        assert(transitions@.map_values(
                            |t: Transition| (t.spec_height(), t.spec_to()),
                        ) =~= pre.map_values(|t: Transition| (t.spec_height(), t.spec_to()))
                            + seq![
                            ((throw_height as nat), (new_bits as nat)),
                        ]);
                        assert(throw_seq(sh, bit_pos as nat, mh) == seq![
                            ((throw_height as nat), (new_bits as nat)),
                        ] + throw_seq(sh, bit_pos as nat + 1, mh));
                        assert(transitions@.map_values(
                            |t: Transition| (t.spec_height(), t.spec_to()),
                        ) + throw_seq(sh, bit_pos as nat + 1, mh) =~= throw_seq(sh, 0, mh));
                    }
                } else {
                    proof {
                        assert(throw_seq(sh, bit_pos as nat, mh) == throw_seq(
                            sh,
                            bit_pos as nat + 1,
                            mh,
                        ));
                    }
                }
                bit_pos = bit_pos + 1;
            }
            proof {
                assert(throw_seq(sh, max_height as nat, mh) =~= Seq::<(nat, nat)>::empty());
                assert(transitions@.map_values(|t: Transition| (t.spec_height(), t.spec_to()))
                    =~= throw_seq(sh, 0, mh));
                assert(target == throw_seq(sh, 0, mh));
                assert forall|i: int| 0 <= i < transitions@.len() implies (
                    (#[trigger] transitions@[i]).spec_height(),
                    transitions@[i].spec_to(),
                ) == target[i] by {
                    assert(transitions@.map_values(
                        |t: Transition| (t.spec_height(), t.spec_to()),
                    )[i] == (transitions@[i].spec_height(), transitions@[i].spec_to()));
                }
            }
        } else {
            transitions.push(
                Transition { from: state, to: State::from_bits(shifted), throw_height: 0, max_height },
            );
            proof {
                assert(target == seq![(0nat, state@ / 2)]);
                assert(transitions@[0].spec_height() == 0 && transitions@[0].spec_to() == state@
                    / 2);
            }
        }

        transitions
    }
}

/// The decimal digits of a number, as characters.
pub open spec fn dec_chars(n: nat) -> Seq<char>
    decreases n,
{
    if n < 10 {
        seq![digit_char(n)]
    } else {
        dec_chars(n / 10).push(digit_char(n % 10))
    }
}

/// The character for one decimal digit.
pub open spec fn digit_char(d: nat) -> char {
    if d == 0 {
        '0'
    } else if d == 1 {
        '1'
    } else if d == 2 {
        '2'
    } else if d == 3 {
        '3'
    } else if d == 4 {
        '4'
    } else if d == 5 {
        '5'
    } else if d == 6 {
        '6'
    } else if d == 7 {
        '7'
    } else if d == 8 {
        '8'
    } else {
        '9'
    }
}

/// Render a `u8` as its decimal digits.
pub fn u8_decimal(n: u8) -> (r: String)
    ensures
        r@ == dec_chars(n as nat),
{
    u64_decimal(n as u64)
}

/// Render a `u64` as its decimal digits.
pub fn u64_decimal(n: u64) -> (r: String)
    ensures
        r@ == dec_chars(n as nat),
    decreases n,
{
    let mut out = if n >= 10 {
        u64_decimal(n / 10)
    } else {
        String::new()
    };
    append_digit(&mut out, (n % 10) as u8);
    proof {
        if n >= 10 {
            assert((n / 10) as nat == n as nat / 10);
            assert((n % 10) as nat == n as nat % 10);
        } else {
            assert(out@ =~= seq![digit_char(n as nat)]);
        }
    }
    out
}

/// Append the character of one decimal digit to a string.
fn append_digit(out: &mut String, d: u8)
    requires
        d < 10,
    ensures
        final(out)@ == old(out)@.push(digit_char(d as nat)),
{
    if d == 0 {
        out.append("0");
        proof { reveal_strlit("0"); }
    } else if d == 1 {
        out.append("1");
        proof { reveal_strlit("1"); }
    } else if d == 2 {
        out.append("2");
        proof { reveal_strlit("2"); }
    } else if d == 3 {
        out.append("3");
        proof { reveal_strlit("3"); }
    } else if d == 4 {
        out.append("4");
        proof { reveal_strlit("4"); }
    } else if d == 5 {
        out.append("5");
        proof { reveal_strlit("5"); }
    } else if d == 6 {
        out.append("6");
        proof { reveal_strlit("6"); }
    } else if d == 7 {
        out.append("7");
        proof { reveal_strlit("7"); }
    } else if d == 8 {
        out.append("8");
        proof { reveal_strlit("8"); }
    } else {
        out.append("9");
        proof { reveal_strlit("9"); }
    }
    proof {
        assert(final(out)@ =~= old(out)@.push(digit_char(d as nat)));
    }
}

} // verus!
