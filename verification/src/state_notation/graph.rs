//! State transition graph generation from validated parameters.

use vstd::arithmetic::power2::pow2;
use vstd::prelude::*;

use crate::bitmath::popcount;
use crate::enumeration::{gen_seq, lemma_gen_complete};
use crate::state_notation::state::{valid_bits, State, MAX_MAX_HEIGHT};
use crate::state_notation::transition::Transition;
use crate::throw_model::{is_throw, lemma_transitions_iff, lemma_transitions_preserve,
    transitions_of};

verus! {

/// The parameters of one enumeration request: how many props to juggle and
/// the highest allowed throw.
#[derive(Debug, Clone, Copy, PartialEq, Eq, Structural)]
pub struct GraphParams {
    pub num_props: u8,
    pub max_height: u8,
}

/// Why a parameter pair was rejected.
#[derive(Debug, Clone, Copy, PartialEq, Eq, Structural)]
pub enum GraphParamsError {
    /// `max_height` exceeds the bit-width limit.
    MaxHeightTooLarge,
    /// `num_props` exceeds the bit-width limit.
    NumPropsTooLarge,
    /// `max_height` is smaller than `num_props`.
    MaxHeightBelowNumProps,
}

/// The error reported for an invalid parameter pair, checking the height
/// bound first, then the prop count, then their order.
pub open spec fn param_error(num_props: nat, max_height: nat) -> GraphParamsError {
    if max_height > MAX_MAX_HEIGHT as nat {
        GraphParamsError::MaxHeightTooLarge
    } else if num_props > MAX_MAX_HEIGHT as nat {
        GraphParamsError::NumPropsTooLarge
    } else {
        GraphParamsError::MaxHeightBelowNumProps
    }
}

impl GraphParams {
    /// The admission gate shared by the live-query path and the
    /// precomputation sweep.
    pub open spec fn valid(&self) -> bool {
        self.num_props <= self.max_height && self.max_height <= MAX_MAX_HEIGHT
    }

    /// Reject the parameter pair unless `num_props <= max_height <= W`.
    pub fn validate(&self) -> (r: Result<(), GraphParamsError>)
        ensures
            r is Ok <==> self.valid(),
            r matches Err(e) ==> e == param_error(self.num_props as nat, self.max_height as nat),
    {
        if self.max_height > MAX_MAX_HEIGHT {
            return Err(GraphParamsError::MaxHeightTooLarge);
        }
        if self.num_props > MAX_MAX_HEIGHT {
            return Err(GraphParamsError::NumPropsTooLarge);
        }
        if self.max_height < self.num_props {
            return Err(GraphParamsError::MaxHeightBelowNumProps);
        }
        Ok(())
    }
}

/// The bit patterns of all valid states, in enumeration order.
pub open spec fn states_of(num_props: nat, max_height: nat) -> Seq<nat> {
    gen_seq(max_height, 0, num_props, 0)
}

/// The enumeration is exhaustive: every bit pattern below the height bound
/// with exactly `num_props` set bits is among the enumerated states.
pub proof fn lemma_states_complete(num_props: nat, max_height: nat, bits: nat)
    requires
        bits < pow2(max_height),
        popcount(bits) == num_props,
    ensures
        states_of(num_props, max_height).contains(bits),
{
    vstd::arithmetic::power2::lemma_pow2_pos(max_height);
    vstd::arithmetic::div_mod::lemma_small_mod(0, pow2(max_height));
    lemma_gen_complete(max_height, 0, num_props, 0, bits);
}

/// A dense transition table over the enumerated states.
///
/// `cells[i][j]` holds the throw height of the transition from `states[i]`
/// to `states[j]`, or `None` when no such transition exists. `ground_state`
/// is the canonical first enumerated state.
#[derive(Debug)]
pub struct Table {
    pub states: Vec<State>,
    pub cells: Vec<Vec<Option<u8>>>,
    pub ground_state: State,
}

/// Well-formedness of an assembled table for the given parameters.
pub open spec fn table_wf(t: Table, num_props: nat, max_height: nat) -> bool {
    let sview = t.states@.map_values(|s: State| s@);
    &&& sview == states_of(num_props, max_height)
    &&& t.states@.len() > 0
    &&& t.ground_state@ == sview[0]
    &&& t.cells@.len() == t.states@.len()
    &&& forall|i: int| 0 <= i < t.cells@.len() ==> (#[trigger] t.cells@[i])@.len() == t.states@.len()
    &&& forall|i: int, j: int|
        0 <= i < t.cells@.len() && 0 <= j < t.cells@.len() ==> match #[trigger] t.cells@[i]@[j] {
            Some(h) => is_throw(sview[i], sview[j], h as nat, max_height),
            None => forall|h: nat| !is_throw(sview[i], sview[j], h, max_height),
        }
}

/// Find the position of a bit pattern among the enumerated states.
fn find_state(states: &Vec<State>, bits: u32) -> (r: usize)
    requires
        exists|i: int| 0 <= i < states@.len() && states@[i]@ == bits as nat,
    ensures
        r < states@.len(),
        states@[r as int]@ == bits as nat,
{
    let mut i: usize = 0;
    while i < states.len()
        invariant
            i <= states@.len(),
            exists|k: int| 0 <= k < states@.len() && states@[k]@ == bits as nat,
            forall|k: int| 0 <= k < i ==> states@[k]@ != bits as nat,
        decreases states@.len() - i,
    {
        if states[i].bits() == bits {
            return i;
        }
        i = i + 1;
    }
    proof {
        assert(false);
    }
    0
}

/// Enumerate the states for a valid parameter pair and assemble the dense
/// transition table over them.
pub fn compute_table(params: &GraphParams) -> (r: Result<Table, GraphParamsError>)
    ensures
        r is Ok <==> params.valid(),
        r matches Err(e) ==> e == param_error(params.num_props as nat, params.max_height as nat),
        r matches Ok(t) ==> table_wf(t, params.num_props as nat, params.max_height as nat),
{
    match params.validate() {
        Err(e) => {
            return Err(e);
        },
        Ok(()) => {},
    }
    let num_props = params.num_props;
    let max_height = params.max_height;
    let ghost mh = max_height as nat;
    let ghost np = num_props as nat;

    let states = State::generate(num_props, max_height);
    let ghost sview = states@.map_values(|s: State| s@);
    proof {
        assert(forall|i: int| 0 <= i < states@.len() ==> #[trigger] states@[i]@ == sview[i]);
    }
    let n = states.len();
    let mut cells: Vec<Vec<Option<u8>>> = Vec::new();
    let mut i: usize = 0;
    while i < n
        invariant
            n == states@.len(),
            i <= n,
            n > 0,
            num_props <= max_height,
            max_height <= MAX_MAX_HEIGHT,
            mh == max_height as nat,
            np == num_props as nat,
            sview == states@.map_values(|s: State| s@),
            sview == states_of(np, mh),
            forall|k: int| 0 <= k < n ==> #[trigger] states@[k]@ == sview[k],
            forall|k: int|
                0 <= k < n ==> valid_bits(#[trigger] states@[k]@, mh) && popcount(states@[k]@)
                    == np,
            forall|k1: int, k2: int| 0 <= k1 < k2 < n ==> sview[k1] != sview[k2],
            cells@.len() == i,
            forall|k: int| 0 <= k < i ==> (#[trigger] cells@[k])@.len() == n,
            forall|k: int, j: int|
                0 <= k < i && 0 <= j < n ==> match #[trigger] cells@[k]@[j] {
                    Some(h) => is_throw(sview[k], sview[j], h as nat, mh),
                    None => forall|h: nat| !is_throw(sview[k], sview[j], h, mh),
                },
        decreases n - i,
    {
        let mut row: Vec<Option<u8>> = Vec::new();
        let mut z: usize = 0;
        while z < n
            invariant
                z <= n,
                row@.len() == z,
                forall|j: int| 0 <= j < z ==> #[trigger] row@[j] is None,
            decreases n - z,
        {
            row.push(None);
            z = z + 1;
        }

        let ghost ts = transitions_of(sview[i as int], mh);
        let transitions = Transition::from_state(states[i], max_height);
        proof {
            lemma_transitions_preserve(sview[i as int], mh);
        }
        let mut k: usize = 0;
        while k < transitions.len()
            invariant
                n == states@.len(),
                i < n,
                max_height <= MAX_MAX_HEIGHT,
                mh == max_height as nat,
                sview == states@.map_values(|s: State| s@),
                forall|q: int| 0 <= q < n ==> #[trigger] states@[q]@ == sview[q],
                forall|q: int|
                    0 <= q < n ==> valid_bits(#[trigger] states@[q]@, mh) && popcount(states@[q]@)
                        == np,
                forall|k1: int, k2: int| 0 <= k1 < k2 < n ==> sview[k1] != sview[k2],
                sview == states_of(np, mh),
                np == num_props as nat,
                ts == transitions_of(sview[i as int], mh),
                k <= transitions@.len(),
                transitions@.len() == ts.len(),
                forall|t: int|
                    0 <= t < ts.len() ==> ((#[trigger] transitions@[t]).spec_height(),
                    transitions@[t].spec_to()) == ts[t],
                forall|t: int|
                    0 <= t < ts.len() ==> popcount(#[trigger] ts[t].1) == np && ts[t].1 < pow2(mh),
                row@.len() == n,
                forall|j: int|
                    0 <= j < n ==> match #[trigger] row@[j] {
                        Some(h) => exists|t: int| 0 <= t < k && #[trigger] ts[t] == (h as nat, sview[j]),
                        None => forall|t: int| 0 <= t < k ==> (#[trigger] ts[t]).1 != sview[j],
                    },
            decreases transitions@.len() - k,
        {
            let t = &transitions[k];
            let dest = t.to();
            proof {
                vstd::arithmetic::power2::lemma_pow2_pos(mh);
                vstd::arithmetic::div_mod::lemma_small_mod(0, pow2(mh));
                lemma_gen_complete(mh, 0, np, 0, ts[k as int].1);
                assert(sview.contains(ts[k as int].1));
                let w = choose|w: int| 0 <= w < sview.len() && sview[w] == ts[k as int].1;
                assert(states@[w]@ == dest@);
            }
            let j = find_state(&states, dest.bits());
            let h = t.throw_height();
            let ghost prev = row@;
            row[j] = Some(h);
            proof {
                assert(row@ == prev.update(j as int, Some(h)));
                assert forall|q: int| 0 <= q < n implies match #[trigger] row@[q] {
                    Some(hh) => exists|t: int|
                        0 <= t < k + 1 && #[trigger] ts[t] == (hh as nat, sview[q]),
                    None => forall|t: int| 0 <= t < k + 1 ==> (#[trigger] ts[t]).1 != sview[q],
                } by {
                    if q == j {
                        assert(ts[k as int] == (h as nat, sview[j as int]));
                    } else {
                        match prev[q] {
                            Some(hh) => {},
                            None => {
                                assert forall|t: int| 0 <= t < k + 1 implies (#[trigger] ts[t]).1
                                    != sview[q] by {
                                    if t == k {
                                        assert(ts[t].1 == sview[j as int]);
                                    }
                                }
                            },
                        }
                    }
                }
            }
            k = k + 1;
        }
        proof {
            assert forall|j: int| 0 <= j < n implies match #[trigger] row@[j] {
                Some(h) => is_throw(sview[i as int], sview[j], h as nat, mh),
                None => forall|h: nat| !is_throw(sview[i as int], sview[j], h, mh),
            } by {
                match row@[j] {
                    Some(h) => {
                        let t = choose|t: int|
                            0 <= t < ts.len() && #[trigger] ts[t] == (h as nat, sview[j]);
                        assert(ts.contains((h as nat, sview[j])));
                        lemma_transitions_iff(sview[i as int], mh, h as nat, sview[j]);
                    },
                    None => {
                        assert forall|h: nat| !is_throw(sview[i as int], sview[j], h, mh) by {
                            lemma_transitions_iff(sview[i as int], mh, h, sview[j]);
                            if ts.contains((h, sview[j])) {
                                let t = choose|t: int|
                                    0 <= t < ts.len() && ts[t] == (h, sview[j]);
                                assert(ts[t].1 == sview[j]);
                            }
                        }
                    },
                }
            }
        }
        cells.push(row);
        i = i + 1;
    }

    let ground_state = states[0];
    Ok(Table { states, cells, ground_state })
}

/// One directed edge of the transition graph.
#[derive(Debug, Clone, Copy)]
pub struct Edge {
    pub from: State,
    pub to: State,
    pub throw_height: u8,
}

/// The transition graph as an edge list over the enumerated states.
#[derive(Debug)]
pub struct StateGraph {
    pub states: Vec<State>,
    pub edges: Vec<Edge>,
    pub ground_state: State,
}

/// The edges of the graph over the given states, flattened in state order:
/// `(from, to, throw_height)` triples.
pub open spec fn graph_edges(sview: Seq<nat>, mh: nat) -> Seq<(nat, nat, nat)>
    decreases sview.len(),
{
    if sview.len() == 0 {
        Seq::empty()
    } else {
        graph_edges(sview.drop_last(), mh) + transitions_of(sview.last(), mh).map_values(
            |p: (nat, nat)| (sview.last(), p.1, p.0),
        )
    }
}

/// Well-formedness of an assembled edge-list graph for the given parameters.
pub open spec fn graph_wf(g: StateGraph, num_props: nat, max_height: nat) -> bool {
    let sview = g.states@.map_values(|s: State| s@);
    &&& sview == states_of(num_props, max_height)
    &&& g.states@.len() > 0
    &&& g.ground_state@ == sview[0]
    &&& g.edges@.map_values(|e: Edge| (e.from@, e.to@, e.throw_height as nat)) == graph_edges(
        sview,
        max_height,
    )
}

/// Enumerate the states for a valid parameter pair and flatten every state's
/// transitions into one edge list.
pub fn compute_graph(params: &GraphParams) -> (r: Result<StateGraph, GraphParamsError>)
    ensures
        r is Ok <==> params.valid(),
        r matches Err(e) ==> e == param_error(params.num_props as nat, params.max_height as nat),
        r matches Ok(g) ==> graph_wf(g, params.num_props as nat, params.max_height as nat),
{
    match params.validate() {
        Err(e) => {
            return Err(e);
        },
        Ok(()) => {},
    }
    let num_props = params.num_props;
    let max_height = params.max_height;
    let ghost mh = max_height as nat;
    let ghost np = num_props as nat;

    let states = State::generate(num_props, max_height);
    let ghost sview = states@.map_values(|s: State| s@);
    proof {
        assert(forall|i: int| 0 <= i < states@.len() ==> #[trigger] states@[i]@ == sview[i]);
    }
    let n = states.len();
    let mut edges: Vec<Edge> = Vec::new();
    let ghost eview = |e: Edge| (e.from@, e.to@, e.throw_height as nat);
    proof {
        assert(sview.take(0) =~= Seq::<nat>::empty());
        assert(edges@.map_values(eview) =~= graph_edges(sview.take(0), mh));
    }
    let mut i: usize = 0;
    while i < n
        invariant
            n == states@.len(),
            i <= n,
            num_props <= max_height,
            max_height <= MAX_MAX_HEIGHT,
            mh == max_height as nat,
            np == num_props as nat,
            sview == states@.map_values(|s: State| s@),
            sview == states_of(np, mh),
            forall|k: int| 0 <= k < n ==> #[trigger] states@[k]@ == sview[k],
            forall|k: int| 0 <= k < n ==> valid_bits(#[trigger] states@[k]@, mh),
            eview == (|e: Edge| (e.from@, e.to@, e.throw_height as nat)),
            edges@.map_values(eview) == graph_edges(sview.take(i as int), mh),
        decreases n - i,
    {
        let ghost ts = transitions_of(sview[i as int], mh);
        let ghost pre = edges@;
        let transitions = Transition::from_state(states[i], max_height);
        let mut k: usize = 0;
        while k < transitions.len()
            invariant
                i < n,
                n == states@.len(),
                mh == max_height as nat,
                ts == transitions_of(sview[i as int], mh),
                k <= transitions@.len(),
                transitions@.len() == ts.len(),
                forall|t: int|
                    0 <= t < ts.len() ==> ((#[trigger] transitions@[t]).spec_height(),
                    transitions@[t].spec_to()) == ts[t] && transitions@[t].spec_from()
                        == sview[i as int],
                eview == (|e: Edge| (e.from@, e.to@, e.throw_height as nat)),
                pre.map_values(eview) == graph_edges(sview.take(i as int), mh),
                edges@.map_values(eview) =~= pre.map_values(eview) + ts.take(k as int).map_values(
                    |p: (nat, nat)| (sview[i as int], p.1, p.0),
                ),
            decreases transitions@.len() - k,
        {
            let t = &transitions[k];
            let ghost before = edges@;
            edges.push(Edge { from: t.from(), to: t.to(), throw_height: t.throw_height() });
            proof {
                assert(ts.take(k + 1) =~= ts.take(k as int).push(ts[k as int]));
                assert(edges@.map_values(eview) =~= before.map_values(eview) + seq![
                    (sview[i as int], ts[k as int].1, ts[k as int].0),
                ]);
                assert(ts.take(k + 1).map_values(|p: (nat, nat)| (sview[i as int], p.1, p.0))
                    =~= ts.take(k as int).map_values(|p: (nat, nat)| (sview[i as int], p.1, p.0))
                    + seq![(sview[i as int], ts[k as int].1, ts[k as int].0)]);
                assert(edges@.map_values(eview) =~= pre.map_values(eview) + ts.take(
                    k + 1,
                ).map_values(|p: (nat, nat)| (sview[i as int], p.1, p.0)));
            }
            k = k + 1;
        }
        proof {
            assert(ts.take(ts.len() as int) =~= ts);
            assert(sview.take(i + 1).drop_last() =~= sview.take(i as int));
            assert(sview.take(i + 1).last() == sview[i as int]);
            assert(graph_edges(sview.take(i + 1), mh) == graph_edges(sview.take(i as int), mh)
                + ts.map_values(|p: (nat, nat)| (sview[i as int], p.1, p.0)));
            assert(edges@.map_values(eview) =~= graph_edges(sview.take(i + 1), mh));
        }
        i = i + 1;
    }
    proof {
        assert(sview.take(n as int) =~= sview);
    }
    let ground_state = states[0];
    Ok(StateGraph { states, edges, ground_state })
}

} // verus!
