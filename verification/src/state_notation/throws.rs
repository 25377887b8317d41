//! The legal throws out of a juggling state: heights and destinations.

use vstd::prelude::*;

use crate::bitmath::lemma_u32_shr_zero;
use crate::state_notation::state::{valid_bits, State, MAX_MAX_HEIGHT};
use crate::state_notation::transition::Transition;
use crate::throw_model::transitions_of;
use vstd::arithmetic::power2::lemma2_to64;

verus! {

/// A single possible throw from a juggling state: the throw height and the
/// resulting destination state.
#[derive(Debug, Copy, Clone, PartialEq, Eq, Structural)]
pub struct Throw {
    height: u8,
    destination: State,
}

impl Throw {
    /// The throw height recorded in this throw.
    pub closed spec fn spec_height(&self) -> nat {
        self.height as nat
    }

    /// The destination state's bit pattern.
    pub closed spec fn spec_destination(&self) -> nat {
        self.destination@
    }

    /// Return the throw height.
    pub fn height(&self) -> (r: u8)
        ensures
            r as nat == self.spec_height(),
    {
        self.height
    }

    /// Return the state that results from making this throw.
    pub fn destination(&self) -> (r: State)
        ensures
            r@ == self.spec_destination(),
    {
        self.destination
    }
}

/// Compute all valid throws from the given `state` within `max_height`.
///
/// Returns one [`Throw`] per legal throw: if no prop is landing on the
/// current beat the only option is a zero-throw (time step), otherwise one
/// throw exists for each unoccupied future beat the prop could be sent to.
///
/// Fails if `max_height` exceeds [`MAX_MAX_HEIGHT`] or if `state` has bits
/// set at or above `max_height`.
pub fn compute_throws(state: State, max_height: u8) -> (r: Result<Vec<Throw>, String>)
    ensures
        r is Ok <==> (max_height <= MAX_MAX_HEIGHT && valid_bits(state@, max_height as nat)),
        r matches Ok(v) ==> v@.len() == transitions_of(state@, max_height as nat).len()
            && forall|i: int|
            0 <= i < v@.len() ==> ((#[trigger] v@[i]).spec_height(), v@[i].spec_destination())
                == transitions_of(state@, max_height as nat)[i],
{
    let bits = state.bits();
    proof {
        lemma2_to64();
        if max_height < 32 {
            lemma_u32_shr_zero(bits, max_height as u32);
        }
    }
    if max_height > MAX_MAX_HEIGHT {
        return Err("max_height exceeds the bit-width limit".to_owned());
    }
    if max_height < MAX_MAX_HEIGHT && bits >> (max_height as u32) != 0 {
        return Err("state bits exceed max_height".to_owned());
    }

    let transitions = Transition::from_state(state, max_height);
    let mut throws: Vec<Throw> = Vec::new();
    let mut i: usize = 0;
    while i < transitions.len()
        invariant
            i <= transitions@.len(),
            throws@.len() == i,
            transitions@.len() == transitions_of(state@, max_height as nat).len(),
            forall|j: int|
                0 <= j < transitions@.len() ==> (
                (#[trigger] transitions@[j]).spec_height(),
                transitions@[j].spec_to(),
                ) == transitions_of(state@, max_height as nat)[j],
            forall|j: int|
                0 <= j < i ==> ((#[trigger] throws@[j]).spec_height(),
                throws@[j].spec_destination()) == transitions_of(state@, max_height as nat)[j],
        decreases transitions@.len() - i,
    {
        let t = &transitions[i];
        throws.push(Throw { height: t.throw_height(), destination: t.to() });
        i = i + 1;
    }
    Ok(throws)
}

} // verus!
