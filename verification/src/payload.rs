//! Serialization of an assembled transition table into its byte payload.
//!
//! The payload is a structured object with six fields — `states`, `cells`,
//! `ground_state`, `num_states`, `max_height`, `num_props` — rendered
//! directly as bytes. In compact mode each state renders as its numeric
//! bitmask; otherwise as a fixed-length binary string, optionally
//! bit-reversed.

use vstd::arithmetic::power2::pow2;
use vstd::prelude::*;

use crate::bitmath::bit_at;
use crate::graph::GraphParams;
use crate::state_notation;
use crate::state_notation::graph::{states_of, table_wf};
use crate::state_notation::state::State;
use crate::throw_model::{is_throw, lemma_is_throw_unique};

verus! {

/// The decimal digits of a number, as ASCII bytes.
pub open spec fn dec_bytes(n: nat) -> Seq<u8>
    decreases n,
{
    if n < 10 {
        seq![(48 + n) as u8]
    } else {
        dec_bytes(n / 10).push((48 + n % 10) as u8)
    }
}

/// The binary rendering of a state: `mh` ASCII digits, most significant
/// position first, or least significant first when `reversed`.
pub open spec fn bin_bytes(bits: nat, mh: nat, reversed: bool) -> Seq<u8> {
    Seq::new(
        mh,
        |i: int|
            {
                let p = if reversed {
                    i
                } else {
                    mh - 1 - i
                };
                if bit_at(bits, p as nat) {
                    '1' as u8
                } else {
                    '0' as u8
                }
            },
    )
}

/// One rendered element of the `states` array.
pub open spec fn state_bytes(bits: nat, mh: nat, compact: bool, reversed: bool) -> Seq<u8> {
    if compact {
        dec_bytes(bits)
    } else {
        seq!['"' as u8] + bin_bytes(bits, mh, reversed) + seq!['"' as u8]
    }
}

/// One rendered cell: the throw height, or the null marker.
pub open spec fn cell_bytes(c: Option<u8>) -> Seq<u8> {
    match c {
        Some(h) => dec_bytes(h as nat),
        None => null_bytes(),
    }
}

/// The null marker.
pub open spec fn null_bytes() -> Seq<u8> {
    seq!['n' as u8, 'u' as u8, 'l' as u8, 'l' as u8]
}

/// Comma-separated concatenation.
pub open spec fn joined(items: Seq<Seq<u8>>) -> Seq<u8>
    decreases items.len(),
{
    if items.len() == 0 {
        Seq::empty()
    } else if items.len() == 1 {
        items[0]
    } else {
        joined(items.drop_last()) + seq![',' as u8] + items.last()
    }
}

/// One rendered row of the `cells` matrix.
pub open spec fn row_bytes(row: Seq<Option<u8>>) -> Seq<u8> {
    seq!['[' as u8] + joined(row.map_values(|c: Option<u8>| cell_bytes(c))) + seq![']' as u8]
}

/// The cell connecting an ordered pair of states: the unique throw height
/// where one exists.
pub open spec fn cell_opt(from: nat, to: nat, mh: nat) -> Option<u8> {
    if exists|h: nat| is_throw(from, to, h, mh) {
        Some((choose|h: nat| is_throw(from, to, h, mh)) as u8)
    } else {
        None
    }
}

/// The full cell matrix over the enumerated states.
pub open spec fn cells_of(sview: Seq<nat>, mh: nat) -> Seq<Seq<Option<u8>>> {
    Seq::new(
        sview.len(),
        |i: int| Seq::new(sview.len(), |j: int| cell_opt(sview[i], sview[j], mh)),
    )
}

pub open spec fn states_header() -> Seq<u8> {
    seq![
        '{' as u8, '"' as u8, 's' as u8, 't' as u8, 'a' as u8, 't' as u8, 'e' as u8, 's' as u8,
        '"' as u8, ':' as u8, '[' as u8,
    ]
}

pub open spec fn cells_header() -> Seq<u8> {
    seq![
        ']' as u8, ',' as u8, '"' as u8, 'c' as u8, 'e' as u8, 'l' as u8, 'l' as u8, 's' as u8,
        '"' as u8, ':' as u8, '[' as u8,
    ]
}

pub open spec fn ground_header() -> Seq<u8> {
    seq![
        ']' as u8, ',' as u8, '"' as u8, 'g' as u8, 'r' as u8, 'o' as u8, 'u' as u8, 'n' as u8,
        'd' as u8, '_' as u8, 's' as u8, 't' as u8, 'a' as u8, 't' as u8, 'e' as u8, '"' as u8,
        ':' as u8,
    ]
}

pub open spec fn num_states_header() -> Seq<u8> {
    seq![
        ',' as u8, '"' as u8, 'n' as u8, 'u' as u8, 'm' as u8, '_' as u8, 's' as u8, 't' as u8,
        'a' as u8, 't' as u8, 'e' as u8, 's' as u8, '"' as u8, ':' as u8,
    ]
}

pub open spec fn max_height_header() -> Seq<u8> {
    seq![
        ',' as u8, '"' as u8, 'm' as u8, 'a' as u8, 'x' as u8, '_' as u8, 'h' as u8, 'e' as u8,
        'i' as u8, 'g' as u8, 'h' as u8, 't' as u8, '"' as u8, ':' as u8,
    ]
}

pub open spec fn num_props_header() -> Seq<u8> {
    seq![
        ',' as u8, '"' as u8, 'n' as u8, 'u' as u8, 'm' as u8, '_' as u8, 'p' as u8, 'r' as u8,
        'o' as u8, 'p' as u8, 's' as u8, '"' as u8, ':' as u8,
    ]
}

/// The entire payload for one validated parameter set. The payload is a pure
/// function of the parameters: any two computations of it yield identical
/// bytes.
pub open spec fn payload_of(np: nat, mh: nat, compact: bool, reversed: bool) -> Seq<u8> {
    let sview = states_of(np, mh);
    let fields = sview.map_values(|b: nat| state_bytes(b, mh, compact, reversed));
    let rows = cells_of(sview, mh).map_values(|row: Seq<Option<u8>>| row_bytes(row));
    states_header() + joined(fields) + cells_header() + joined(rows) + ground_header()
        + state_bytes(sview[0], mh, compact, reversed) + num_states_header() + dec_bytes(
        sview.len(),
    ) + max_height_header() + dec_bytes(mh) + num_props_header() + dec_bytes(np) + seq!['}' as u8]
}

/// Collapsing `reversed` under `compact` loses nothing: on compact output
/// the two `reversed` settings produce byte-identical payloads, so both may
/// safely share one cache entry.
pub proof fn lemma_compact_ignores_reversed(np: nat, mh: nat, r1: bool, r2: bool)
    ensures
        payload_of(np, mh, true, r1) == payload_of(np, mh, true, r2),
{
    let sview = states_of(np, mh);
    assert(sview.map_values(|b: nat| state_bytes(b, mh, true, r1)) =~= sview.map_values(
        |b: nat| state_bytes(b, mh, true, r2),
    ));
}

/// Decimal renderings are nonempty and consist of ASCII digits alone.
pub proof fn lemma_dec_bytes_digits(n: nat)
    ensures
        dec_bytes(n).len() >= 1,
        forall|i: int|
            0 <= i < dec_bytes(n).len() ==> '0' as u8 <= #[trigger] dec_bytes(n)[i] <= '9' as u8,
    decreases n,
{
    if n >= 10 {
        lemma_dec_bytes_digits(n / 10);
    }
}

/// In compact mode a state renders as its numeric value: decimal digits
/// alone. In expanded mode it renders as a quoted string of exactly `mh`
/// binary digits.
pub proof fn lemma_state_bytes_shape(bits: nat, mh: nat, compact: bool, reversed: bool)
    ensures
        compact ==> state_bytes(bits, mh, compact, reversed) == dec_bytes(bits),
        compact ==> forall|i: int|
            0 <= i < state_bytes(bits, mh, compact, reversed).len() ==> '0' as u8 <= #[trigger] state_bytes(
                bits,
                mh,
                compact,
                reversed,
            )[i] <= '9' as u8,
        !compact ==> state_bytes(bits, mh, compact, reversed).len() == mh + 2,
        !compact ==> state_bytes(bits, mh, compact, reversed)[0] == '"' as u8 && state_bytes(
            bits,
            mh,
            compact,
            reversed,
        )[mh as int + 1] == '"' as u8,
        !compact ==> forall|i: int|
            1 <= i <= mh ==> (#[trigger] state_bytes(bits, mh, compact, reversed)[i] == '0' as u8
                || state_bytes(bits, mh, compact, reversed)[i] == '1' as u8),
{
    if compact {
        lemma_dec_bytes_digits(bits);
    }
}

/// With `reversed` set, the expanded rendering of a state is the exact
/// character-reverse of its unreversed rendering.
pub proof fn lemma_reversed_is_reverse(bits: nat, mh: nat)
    ensures
        bin_bytes(bits, mh, true) == bin_bytes(bits, mh, false).reverse(),
{
    assert(bin_bytes(bits, mh, true) =~= bin_bytes(bits, mh, false).reverse());
}

/// At the boundary `num_props == max_height` there is exactly one state —
/// the fully packed one — and the table is 1×1 with its sole cell the
/// full-height self-loop.
pub proof fn lemma_boundary_table(mh: nat)
    requires
        mh <= 32,
    ensures
        states_of(mh, mh).len() == 1,
        states_of(mh, mh)[0] == pow2(mh) - 1,
        cells_of(states_of(mh, mh), mh).len() == 1,
        cells_of(states_of(mh, mh), mh)[0].len() == 1,
        cells_of(states_of(mh, mh), mh)[0][0] == Some(mh as u8),
{
    crate::enumeration::lemma_gen_len(mh, 0, mh, 0);
    crate::util::lemma_binom_all(mh);
    crate::enumeration::lemma_gen_first(mh, 0, mh, 0);
    let full = (pow2(mh) - 1) as nat;
    vstd::arithmetic::power2::lemma_pow2_pos(mh);
    assert(states_of(mh, mh)[0] == full);
    if mh == 0 {
        assert(pow2(0) == 1) by { vstd::arithmetic::power2::lemma2_to64(); }
        assert(is_throw(0, 0, 0, 0));
        let h = choose|h: nat| is_throw(full, full, h, mh);
        lemma_is_throw_unique(full, full, h, 0, mh);
    } else {
        crate::throw_model::lemma_transitions_full(mh);
        crate::throw_model::lemma_transitions_iff(full, mh, mh, full);
        assert(crate::throw_model::transitions_of(full, mh)[0] == (mh, full));
        assert(crate::throw_model::transitions_of(full, mh).contains((mh, full)));
        assert(is_throw(full, full, mh, mh));
        let h = choose|h: nat| is_throw(full, full, h, mh);
        lemma_is_throw_unique(full, full, h, mh, mh);
    }
}

/// Joining one more item appends a comma separator (except before the first)
/// and the item.
proof fn lemma_joined_step(items: Seq<Seq<u8>>, i: int)
    requires
        0 <= i < items.len(),
    ensures
        joined(items.take(i + 1)) == joined(items.take(i)) + (if i == 0 {
            Seq::<u8>::empty()
        } else {
            seq![',' as u8]
        }) + items[i],
{
    if i == 0 {
        assert(items.take(1).len() == 1);
        assert(joined(items.take(1)) == items.take(1)[0]);
        assert(joined(items.take(0)) + Seq::<u8>::empty() + items[0] =~= items[0]);
    } else {
        assert(items.take(i + 1).drop_last() =~= items.take(i));
        assert(items.take(i + 1).last() == items[i]);
    }
}

/// Append the decimal digits of a number.
fn push_dec(out: &mut Vec<u8>, n: u64)
    ensures
        final(out)@ == old(out)@ + dec_bytes(n as nat),
    decreases n,
{
    if n >= 10 {
        push_dec(out, n / 10);
    }
    out.push(48 + (n % 10) as u8);
    proof {
        if n < 10 {
            assert(out@ =~= old(out)@ + dec_bytes(n as nat));
        } else {
            assert((n / 10) as nat == n as nat / 10);
            assert((n % 10) as nat == n as nat % 10);
            assert(out@ =~= old(out)@ + dec_bytes(n as nat));
        }
    }
}

/// Append one rendered state.
fn push_state(out: &mut Vec<u8>, s: State, max_height: u8, compact: bool, reversed: bool)
    requires
        max_height <= state_notation::MAX_MAX_HEIGHT,
    ensures
        final(out)@ == old(out)@ + state_bytes(s@, max_height as nat, compact, reversed),
{
    if compact {
        push_dec(out, s.bits() as u64);
    } else {
        let ghost base = out@;
        let ghost target = bin_bytes(s@, max_height as nat, reversed);
        out.push('"' as u8);
        let mut j: u8 = 0;
        while j < max_height
            invariant
                j <= max_height,
                max_height <= state_notation::MAX_MAX_HEIGHT,
                target == bin_bytes(s@, max_height as nat, reversed),
                out@ == base + seq!['"' as u8] + target.take(j as int),
            decreases max_height - j,
        {
            let p = if reversed {
                j
            } else {
                max_height - 1 - j
            };
            let b: u8 = if s.prop_at(p) {
                '1' as u8
            } else {
                '0' as u8
            };
            out.push(b);
            proof {
                assert(target.take(j + 1) =~= target.take(j as int).push(target[j as int]));
                assert(out@ =~= base + seq!['"' as u8] + target.take(j + 1));
            }
            j = j + 1;
        }
        out.push('"' as u8);
        proof {
            assert(target.take(max_height as int) =~= target);
            assert(out@ =~= base + state_bytes(s@, max_height as nat, compact, reversed));
        }
    }
}

/// Append the null marker.
fn push_null(out: &mut Vec<u8>)
    ensures
        final(out)@ == old(out)@ + null_bytes(),
{
    out.push('n' as u8);
    out.push('u' as u8);
    out.push('l' as u8);
    out.push('l' as u8);
    proof {
        assert(out@ =~= old(out)@ + null_bytes());
    }
}

fn push_states_header(out: &mut Vec<u8>)
    ensures
        final(out)@ == old(out)@ + states_header(),
{
    out.push('{' as u8);
    out.push('"' as u8);
    out.push('s' as u8);
    out.push('t' as u8);
    out.push('a' as u8);
    out.push('t' as u8);
    out.push('e' as u8);
    out.push('s' as u8);
    out.push('"' as u8);
    out.push(':' as u8);
    out.push('[' as u8);
    proof {
        assert(out@ =~= old(out)@ + states_header());
    }
}

fn push_cells_header(out: &mut Vec<u8>)
    ensures
        final(out)@ == old(out)@ + cells_header(),
{
    out.push(']' as u8);
    out.push(',' as u8);
    out.push('"' as u8);
    out.push('c' as u8);
    out.push('e' as u8);
    out.push('l' as u8);
    out.push('l' as u8);
    out.push('s' as u8);
    out.push('"' as u8);
    out.push(':' as u8);
    out.push('[' as u8);
    proof {
        assert(out@ =~= old(out)@ + cells_header());
    }
}

fn push_ground_header(out: &mut Vec<u8>)
    ensures
        final(out)@ == old(out)@ + ground_header(),
{
    out.push(']' as u8);
    out.push(',' as u8);
    out.push('"' as u8);
    out.push('g' as u8);
    out.push('r' as u8);
    out.push('o' as u8);
    out.push('u' as u8);
    out.push('n' as u8);
    out.push('d' as u8);
    out.push('_' as u8);
    out.push('s' as u8);
    out.push('t' as u8);
    out.push('a' as u8);
    out.push('t' as u8);
    out.push('e' as u8);
    out.push('"' as u8);
    out.push(':' as u8);
    proof {
        assert(out@ =~= old(out)@ + ground_header());
    }
}

fn push_num_states_header(out: &mut Vec<u8>)
    ensures
        final(out)@ == old(out)@ + num_states_header(),
{
    out.push(',' as u8);
    out.push('"' as u8);
    out.push('n' as u8);
    out.push('u' as u8);
    out.push('m' as u8);
    out.push('_' as u8);
    out.push('s' as u8);
    out.push('t' as u8);
    out.push('a' as u8);
    out.push('t' as u8);
    out.push('e' as u8);
    out.push('s' as u8);
    out.push('"' as u8);
    out.push(':' as u8);
    proof {
        assert(out@ =~= old(out)@ + num_states_header());
    }
}

fn push_max_height_header(out: &mut Vec<u8>)
    ensures
        final(out)@ == old(out)@ + max_height_header(),
{
    out.push(',' as u8);
    out.push('"' as u8);
    out.push('m' as u8);
    out.push('a' as u8);
    out.push('x' as u8);
    out.push('_' as u8);
    out.push('h' as u8);
    out.push('e' as u8);
    out.push('i' as u8);
    out.push('g' as u8);
    out.push('h' as u8);
    out.push('t' as u8);
    out.push('"' as u8);
    out.push(':' as u8);
    proof {
        assert(out@ =~= old(out)@ + max_height_header());
    }
}

fn push_num_props_header(out: &mut Vec<u8>)
    ensures
        final(out)@ == old(out)@ + num_props_header(),
{
    out.push(',' as u8);
    out.push('"' as u8);
    out.push('n' as u8);
    out.push('u' as u8);
    out.push('m' as u8);
    out.push('_' as u8);
    out.push('p' as u8);
    out.push('r' as u8);
    out.push('o' as u8);
    out.push('p' as u8);
    out.push('s' as u8);
    out.push('"' as u8);
    out.push(':' as u8);
    proof {
        assert(out@ =~= old(out)@ + num_props_header());
    }
}

/// Compute the full byte payload for a validated parameter set: enumerate
/// the states, assemble the transition table, and serialize it.
pub fn compute_table(params: &GraphParams) -> (r: Vec<u8>)
    requires
        params.valid(),
    ensures
        r@ == payload_of(
            params.num_props as nat,
            params.max_height as nat,
            params.compact,
            params.reversed,
        ),
{
    let num_props = params.num_props;
    let max_height = params.max_height;
    let compact = params.compact;
    let reversed = params.reversed;
    let ghost np = num_props as nat;
    let ghost mh = max_height as nat;

    let lib = params.to_library_params();
    let table = match state_notation::graph::compute_table(&lib) {
        Ok(t) => t,
        // Unreachable: assembly succeeds on every valid parameter pair.
        Err(_) => {
            proof {
                assert(false);
            }
            state_notation::graph::Table {
                states: Vec::new(),
                cells: Vec::new(),
                ground_state: State::from_bits(0),
            }
        },
    };
    proof {
        assert(table_wf(table, np, mh));
    }
    let ghost sview = table.states@.map_values(|s: State| s@);
    let ghost fields = sview.map_values(|b: nat| state_bytes(b, mh, compact, reversed));
    let ghost speccells = cells_of(sview, mh);
    let ghost rows = speccells.map_values(|row: Seq<Option<u8>>| row_bytes(row));

    proof {
        assert forall|i: int, j: int|
            0 <= i < sview.len() && 0 <= j < sview.len() implies table.cells@[i]@[j]
            == speccells[i][j] by {
            match table.cells@[i]@[j] {
                Some(h) => {
                    assert(is_throw(sview[i], sview[j], h as nat, mh));
                    let hh = choose|hh: nat| is_throw(sview[i], sview[j], hh, mh);
                    lemma_is_throw_unique(sview[i], sview[j], hh, h as nat, mh);
                },
                None => {},
            }
        }
    }

    let n = table.states.len();
    let mut out: Vec<u8> = Vec::new();
    push_states_header(&mut out);

    let ghost base1 = out@;
    proof {
        assert(fields.take(0) =~= Seq::<Seq<u8>>::empty());
        assert(out@ =~= base1 + joined(fields.take(0)));
    }
    let mut i: usize = 0;
    while i < n
        invariant
            n == table.states@.len(),
            i <= n,
            max_height <= state_notation::MAX_MAX_HEIGHT,
            mh == max_height as nat,
            sview == table.states@.map_values(|s: State| s@),
            fields == sview.map_values(|b: nat| state_bytes(b, mh, compact, reversed)),
            out@ == base1 + joined(fields.take(i as int)),
        decreases n - i,
    {
        if i > 0 {
            out.push(',' as u8);
        }
        push_state(&mut out, table.states[i], max_height, compact, reversed);
        proof {
            assert(table.states@[i as int]@ == sview[i as int]);
            lemma_joined_step(fields, i as int);
            assert(out@ =~= base1 + joined(fields.take(i + 1)));
        }
        i = i + 1;
    }
    proof {
        assert(fields.take(n as int) =~= fields);
    }

    push_cells_header(&mut out);
    let ghost base2 = out@;
    proof {
        assert(rows.take(0) =~= Seq::<Seq<u8>>::empty());
        assert(out@ =~= base2 + joined(rows.take(0)));
    }
    let mut i: usize = 0;
    while i < n
        invariant
            n == table.states@.len(),
            table.cells@.len() == n,
            forall|k: int| 0 <= k < n ==> (#[trigger] table.cells@[k])@.len() == n,
            forall|k: int, j: int|
                0 <= k < n && 0 <= j < n ==> #[trigger] (table.cells@[k]@[j]) == speccells[k][j],
            i <= n,
            mh == max_height as nat,
            sview == table.states@.map_values(|s: State| s@),
            speccells == cells_of(sview, mh),
            rows == speccells.map_values(|row: Seq<Option<u8>>| row_bytes(row)),
            out@ == base2 + joined(rows.take(i as int)),
        decreases n - i,
    {
        if i > 0 {
            out.push(',' as u8);
        }
        let ghost rowbase = out@;
        out.push('[' as u8);
        let ghost cellfields = speccells[i as int].map_values(|c: Option<u8>| cell_bytes(c));
        proof {
            assert(cellfields.take(0) =~= Seq::<Seq<u8>>::empty());
            assert(out@ =~= rowbase + seq!['[' as u8] + joined(cellfields.take(0)));
        }
        let mut j: usize = 0;
        while j < n
            invariant
                n == table.states@.len(),
                table.cells@.len() == n,
                forall|k: int| 0 <= k < n ==> (#[trigger] table.cells@[k])@.len() == n,
                forall|k: int, q: int|
                    0 <= k < n && 0 <= q < n ==> #[trigger] (table.cells@[k]@[q])
                        == speccells[k][q],
                i < n,
                j <= n,
                speccells[i as int].len() == n,
                cellfields == speccells[i as int].map_values(|c: Option<u8>| cell_bytes(c)),
                out@ == rowbase + seq!['[' as u8] + joined(cellfields.take(j as int)),
            decreases n - j,
        {
            if j > 0 {
                out.push(',' as u8);
            }
            match table.cells[i][j] {
                Some(v) => {
                    push_dec(&mut out, v as u64);
                },
                None => {
                    push_null(&mut out);
                },
            }
            proof {
                assert(cell_bytes(speccells[i as int][j as int]) == cellfields[j as int]);
                lemma_joined_step(cellfields, j as int);
                assert(out@ =~= rowbase + seq!['[' as u8] + joined(cellfields.take(j + 1)));
            }
            j = j + 1;
        }
        out.push(']' as u8);
        proof {
            assert(cellfields.take(n as int) =~= cellfields);
            assert(rows[i as int] == row_bytes(speccells[i as int]));
            assert(out@ =~= rowbase + rows[i as int]);
            lemma_joined_step(rows, i as int);
            assert(out@ =~= base2 + joined(rows.take(i + 1)));
        }
        i = i + 1;
    }
    proof {
        assert(rows.take(n as int) =~= rows);
    }

    push_ground_header(&mut out);
    push_state(&mut out, table.ground_state, max_height, compact, reversed);
    push_num_states_header(&mut out);
    push_dec(&mut out, n as u64);
    push_max_height_header(&mut out);
    push_dec(&mut out, max_height as u64);
    push_num_props_header(&mut out);
    push_dec(&mut out, num_props as u64);
    out.push('}' as u8);

    proof {
        assert(table.ground_state@ == sview[0]);
        assert(n as nat == sview.len());
        assert(out@ =~= payload_of(np, mh, compact, reversed));
    }
    out
}

} // verus!
