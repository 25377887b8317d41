//! Request parameters for the transition-table endpoint.

use vstd::prelude::*;

use crate::state_notation;
use crate::state_notation::graph::{param_error, GraphParamsError};
use crate::state_notation::MAX_MAX_HEIGHT;

verus! {

/// The four parameters of a table request: prop count, height bound, and the
/// two serialization switches.
#[derive(Debug, Clone, Copy, PartialEq, Eq, Structural)]
pub struct GraphParams {
    pub num_props: u8,
    pub max_height: u8,
    pub compact: bool,
    pub reversed: bool,
}

impl GraphParams {
    /// The shared admission gate: `num_props <= max_height <= W`.
    pub open spec fn valid(&self) -> bool {
        self.num_props <= self.max_height && self.max_height <= MAX_MAX_HEIGHT
    }

    /// Strip the serialization switches, keeping the combinatorial
    /// parameters.
    pub fn to_library_params(&self) -> (r: state_notation::GraphParams)
        ensures
            r.num_props == self.num_props,
            r.max_height == self.max_height,
    {
        state_notation::GraphParams { num_props: self.num_props, max_height: self.max_height }
    }

    /// Reject the parameter pair unless `num_props <= max_height <= W`.
    pub fn validate(&self) -> (r: Result<(), GraphParamsError>)
        ensures
            r is Ok <==> self.valid(),
            r matches Err(e) ==> e == param_error(self.num_props as nat, self.max_height as nat),
    {
        self.to_library_params().validate()
    }
}

} // verus!
