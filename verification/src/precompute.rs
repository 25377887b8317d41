//! The bulk precomputation sweep: which parameter combinations to warm.
//!
//! The sweep walks `num_props` from 1 to the bit width and, for each,
//! `max_height` from `num_props` to the bit width. Pairs whose state count
//! exceeds a fixed ceiling are skipped. Each remaining pair yields one job
//! per observable serialization variant: both `compact` values, and for the
//! expanded form both `reversed` values — reversal is unobservable on
//! compact output, so no job is emitted for it.

use vstd::prelude::*;

use crate::graph::GraphParams;
use crate::util::{binom, combinations};

verus! {

/// The sweep's upper bound on `num_props` and `max_height`.
pub const SWEEP_MAX_PARAM: u8 = 32;

/// Pairs with more states than this are skipped.
pub const SWEEP_STATE_CEILING: u64 = 10000;

/// One combination the sweep will warm.
#[derive(Debug, Clone, Copy, PartialEq, Eq, Structural)]
pub struct PrecomputeJob {
    pub num_props: u8,
    pub max_height: u8,
    pub compact: bool,
    pub reversed: bool,
}

impl PrecomputeJob {
    /// The request parameters of this job.
    pub fn to_params(&self) -> (r: GraphParams)
        ensures
            r.num_props == self.num_props,
            r.max_height == self.max_height,
            r.compact == self.compact,
            r.reversed == self.reversed,
    {
        GraphParams {
            num_props: self.num_props,
            max_height: self.max_height,
            compact: self.compact,
            reversed: self.reversed,
        }
    }
}

/// Whether the sweep includes a pair: its state count is within the ceiling.
pub open spec fn pair_included(num_props: nat, max_height: nat) -> bool {
    binom(max_height, num_props) <= SWEEP_STATE_CEILING
}

/// The three jobs of one included pair, in sweep order.
pub open spec fn pair_jobs(num_props: u8, max_height: u8) -> Seq<PrecomputeJob> {
    seq![
        PrecomputeJob { num_props, max_height, compact: false, reversed: false },
        PrecomputeJob { num_props, max_height, compact: false, reversed: true },
        PrecomputeJob { num_props, max_height, compact: true, reversed: false },
    ]
}

/// All jobs from position `(np, mh)` onwards, in sweep order.
pub open spec fn jobs_from(np: u8, mh: u8) -> Seq<PrecomputeJob>
    decreases SWEEP_MAX_PARAM + 1 - np, SWEEP_MAX_PARAM + 1 - mh,
{
    if np > SWEEP_MAX_PARAM {
        Seq::empty()
    } else if mh > SWEEP_MAX_PARAM {
        jobs_from((np + 1) as u8, (np + 1) as u8)
    } else {
        (if pair_included(np as nat, mh as nat) {
            pair_jobs(np, mh)
        } else {
            Seq::empty()
        }) + jobs_from(np, (mh + 1) as u8)
    }
}

/// The number of pairs skipped from position `(np, mh)` onwards.
pub open spec fn skipped_from(np: u8, mh: u8) -> nat
    decreases SWEEP_MAX_PARAM + 1 - np, SWEEP_MAX_PARAM + 1 - mh,
{
    if np > SWEEP_MAX_PARAM {
        0
    } else if mh > SWEEP_MAX_PARAM {
        skipped_from((np + 1) as u8, (np + 1) as u8)
    } else {
        (if pair_included(np as nat, mh as nat) {
            0nat
        } else {
            1nat
        }) + skipped_from(np, (mh + 1) as u8)
    }
}

/// Enumerate the full sweep: every job to warm, in order, and the number of
/// skipped pairs.
pub fn precompute_jobs() -> (r: (Vec<PrecomputeJob>, u32))
    ensures
        r.0@ == jobs_from(1, 1),
        r.1 as nat == skipped_from(1, 1),
{
    let mut jobs: Vec<PrecomputeJob> = Vec::new();
    let mut skipped: u32 = 0;
    let mut np: u8 = 1;
    proof {
        assert(jobs@ + jobs_from(1, 1) =~= jobs_from(1, 1));
    }
    while np <= SWEEP_MAX_PARAM
        invariant
            1 <= np <= SWEEP_MAX_PARAM + 1,
            jobs@ + jobs_from(np, np) == jobs_from(1, 1),
            skipped + skipped_from(np, np) == skipped_from(1, 1),
            skipped <= 33 * (np - 1),
        decreases SWEEP_MAX_PARAM + 1 - np,
    {
        let mut mh: u8 = np;
        while mh <= SWEEP_MAX_PARAM
            invariant
                1 <= np <= SWEEP_MAX_PARAM,
                np <= mh <= SWEEP_MAX_PARAM + 1,
                jobs@ + jobs_from(np, mh) == jobs_from(1, 1),
                skipped + skipped_from(np, mh) == skipped_from(1, 1),
                skipped <= 33 * (np - 1) + (mh - np),
            decreases SWEEP_MAX_PARAM + 1 - mh,
        {
            let num_states = combinations(mh as u64, np as u64);
            if num_states > SWEEP_STATE_CEILING {
                skipped = skipped + 1;
                proof {
                    assert(!pair_included(np as nat, mh as nat));
                    assert(jobs@ + jobs_from(np, (mh + 1) as u8) =~= jobs_from(1, 1));
                }
            } else {
                let ghost pre = jobs@;
                jobs.push(
                    PrecomputeJob { num_props: np, max_height: mh, compact: false, reversed: false },
                );
                jobs.push(
                    PrecomputeJob { num_props: np, max_height: mh, compact: false, reversed: true },
                );
                jobs.push(
                    PrecomputeJob { num_props: np, max_height: mh, compact: true, reversed: false },
                );
                proof {
                    assert(pair_included(np as nat, mh as nat));
                    assert(jobs@ =~= pre + pair_jobs(np, mh));
                    assert(jobs@ + jobs_from(np, (mh + 1) as u8) =~= jobs_from(1, 1));
                }
            }
            mh = mh + 1;
        }
        np = np + 1;
    }
    (jobs, skipped)
}

} // verus!
