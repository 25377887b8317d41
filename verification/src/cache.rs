//! Decision logic of the three-tier cache that fronts the table computation.
//!
//! The tiers are probed in strict order — memory, then the optional
//! distributed store, then the durable store — and a payload found at a
//! lower tier is opportunistically written back to the tiers above it,
//! subject to each tier's per-entry size ceiling. The I/O itself lives
//! outside this crate; this module fixes every decision the read path makes:
//! the key, the probe order, and the write-back plan.

use vstd::prelude::*;
use vstd::string::StringExecFns;

use crate::graph::GraphParams;
use crate::state_notation::transition::{dec_chars, u64_decimal, u8_decimal};

verus! {

/// Aggregate capacity budget of the memory tier, in bytes.
pub const MEMORY_MAX_CAPACITY: u64 = 256 * 1024 * 1024;

/// Per-entry ceiling of the memory tier, in bytes.
pub const MEMORY_MAX_ENTRY_SIZE: u32 = 1024 * 1024;

/// Per-entry ceiling of the distributed tier, in bytes.
pub const DISTRIBUTED_MAX_ENTRY_SIZE: usize = 5 * 1024 * 1024;

/// Whether a payload may be admitted to the memory tier.
pub fn fits_in_memory(data: &[u8]) -> (r: bool)
    ensures
        r == (data@.len() <= MEMORY_MAX_ENTRY_SIZE),
{
    data.len() <= MEMORY_MAX_ENTRY_SIZE as usize
}

/// Whether a payload may be written to the distributed tier.
pub fn fits_in_redis(data: &[u8]) -> (r: bool)
    ensures
        r == (data@.len() <= DISTRIBUTED_MAX_ENTRY_SIZE),
{
    data.len() <= DISTRIBUTED_MAX_ENTRY_SIZE
}

/// The characters of a boolean, as written in a cache key.
pub open spec fn bool_chars(b: bool) -> Seq<char> {
    if b {
        "true"@
    } else {
        "false"@
    }
}

/// The cache key of one request: a schema-version tag followed by the
/// parameters, with `reversed` collapsed to `false` whenever `compact` is
/// set, since reversal has no effect on numeric output.
pub open spec fn spec_cache_key(
    schema_version: u64,
    num_props: nat,
    max_height: nat,
    compact: bool,
    reversed: bool,
) -> Seq<char> {
    let effective_reversed = !compact && reversed;
    "table-v"@ + dec_chars(schema_version as nat) + "-"@ + dec_chars(num_props) + "-"@
        + dec_chars(max_height) + "-"@ + bool_chars(compact) + "-"@ + bool_chars(
        effective_reversed,
    )
}

/// Append the key rendering of a boolean.
fn append_bool(out: &mut String, b: bool)
    ensures
        final(out)@ == old(out)@ + bool_chars(b),
{
    if b {
        out.append("true");
    } else {
        out.append("false");
    }
}

/// Derive the deterministic cache key for one request. Identical parameters
/// always yield the identical key, and parameter sets that can only differ
/// in unobservable ways (`reversed` under `compact`) share one key.
pub fn cache_key(schema_version: u64, params: &GraphParams) -> (r: String)
    ensures
        r@ == spec_cache_key(
            schema_version,
            params.num_props as nat,
            params.max_height as nat,
            params.compact,
            params.reversed,
        ),
{
    let effective_reversed = !params.compact && params.reversed;
    let mut key = String::new();
    key.append("table-v");
    let version_digits = u64_decimal(schema_version);
    key.append(version_digits.as_str());
    key.append("-");
    let np_digits = u8_decimal(params.num_props);
    key.append(np_digits.as_str());
    key.append("-");
    let mh_digits = u8_decimal(params.max_height);
    key.append(mh_digits.as_str());
    key.append("-");
    append_bool(&mut key, params.compact);
    key.append("-");
    append_bool(&mut key, effective_reversed);
    proof {
        assert(key@ =~= spec_cache_key(
            schema_version,
            params.num_props as nat,
            params.max_height as nat,
            params.compact,
            params.reversed,
        ));
    }
    key
}

/// Where a read-path payload came from.
#[derive(Debug, Clone, Copy, PartialEq, Eq, Structural)]
pub enum PayloadSource {
    /// Found in the memory tier.
    Memory,
    /// Found in the distributed tier.
    Distributed,
    /// Found in the durable tier.
    Durable,
    /// Computed fresh after a miss on every tier.
    Computed,
}

/// The probes of the read path, in the order they are tried.
#[derive(Debug, Clone, Copy, PartialEq, Eq, Structural)]
pub enum ReadStep {
    /// Probe the memory tier.
    ProbeMemory,
    /// Probe the distributed tier.
    ProbeDistributed,
    /// Probe the durable tier.
    ProbeDurable,
    /// Compute the payload fresh.
    ComputeFresh,
}

/// The first step of every read.
pub fn first_step() -> (r: ReadStep)
    ensures
        r == ReadStep::ProbeMemory,
{
    ReadStep::ProbeMemory
}

/// The step taken after a miss: the next tier in strict order, skipping the
/// distributed tier when none is configured, ending in fresh computation.
pub fn next_step_on_miss(cur: ReadStep, has_distributed: bool) -> (r: ReadStep)
    ensures
        cur == ReadStep::ProbeMemory && has_distributed ==> r == ReadStep::ProbeDistributed,
        cur == ReadStep::ProbeMemory && !has_distributed ==> r == ReadStep::ProbeDurable,
        cur == ReadStep::ProbeDistributed ==> r == ReadStep::ProbeDurable,
        cur == ReadStep::ProbeDurable ==> r == ReadStep::ComputeFresh,
        cur == ReadStep::ComputeFresh ==> r == ReadStep::ComputeFresh,
{
    match cur {
        ReadStep::ProbeMemory => if has_distributed {
            ReadStep::ProbeDistributed
        } else {
            ReadStep::ProbeDurable
        },
        ReadStep::ProbeDistributed => ReadStep::ProbeDurable,
        ReadStep::ProbeDurable => ReadStep::ComputeFresh,
        ReadStep::ComputeFresh => ReadStep::ComputeFresh,
    }
}

/// Which tiers to write after a read, given where the payload came from.
#[derive(Debug, Clone, Copy, PartialEq, Eq, Structural)]
pub struct WritePlan {
    pub write_durable: bool,
    pub write_distributed: bool,
    pub write_memory: bool,
}

/// The write-back plan of the read path: a fresh payload is written through
/// to the durable tier unconditionally; every tier above the source is
/// filled opportunistically, subject to its per-entry ceiling; nothing is
/// ever written back to the tier the payload came from or below it.
pub fn backfill_plan(source: PayloadSource, len: usize, has_distributed: bool) -> (r: WritePlan)
    ensures
        r.write_durable == (source == PayloadSource::Computed),
        r.write_distributed == ((source == PayloadSource::Durable || source
            == PayloadSource::Computed) && has_distributed && len
            <= DISTRIBUTED_MAX_ENTRY_SIZE),
        r.write_memory == (source != PayloadSource::Memory && len <= MEMORY_MAX_ENTRY_SIZE),
{
    let fits_mem = len <= MEMORY_MAX_ENTRY_SIZE as usize;
    let fits_dist = len <= DISTRIBUTED_MAX_ENTRY_SIZE;
    match source {
        PayloadSource::Memory => WritePlan {
            write_durable: false,
            write_distributed: false,
            write_memory: false,
        },
        PayloadSource::Distributed => WritePlan {
            write_durable: false,
            write_distributed: false,
            write_memory: fits_mem,
        },
        PayloadSource::Durable => WritePlan {
            write_durable: false,
            write_distributed: has_distributed && fits_dist,
            write_memory: fits_mem,
        },
        PayloadSource::Computed => WritePlan {
            write_durable: true,
            write_distributed: has_distributed && fits_dist,
            write_memory: fits_mem,
        },
    }
}

/// A model of the three tiers' contents, keyed by cache key.
pub struct CacheModel {
    pub memory: Map<Seq<char>, Seq<u8>>,
    pub distributed: Map<Seq<char>, Seq<u8>>,
    pub durable: Map<Seq<char>, Seq<u8>>,
    pub has_distributed: bool,
}

/// The tier that satisfies a read of `key`, in strict probe order.
pub open spec fn lookup_source(m: CacheModel, key: Seq<char>) -> PayloadSource {
    if m.memory.contains_key(key) {
        PayloadSource::Memory
    } else if m.has_distributed && m.distributed.contains_key(key) {
        PayloadSource::Distributed
    } else if m.durable.contains_key(key) {
        PayloadSource::Durable
    } else {
        PayloadSource::Computed
    }
}

/// The bytes a read of `key` returns, where `fresh` is what the pure
/// computation yields on a full miss.
pub open spec fn read_result(m: CacheModel, key: Seq<char>, fresh: Seq<u8>) -> Seq<u8> {
    match lookup_source(m, key) {
        PayloadSource::Memory => m.memory[key],
        PayloadSource::Distributed => m.distributed[key],
        PayloadSource::Durable => m.durable[key],
        PayloadSource::Computed => fresh,
    }
}

/// The tiers after one read of `key`: the found (or computed) payload is
/// written per the backfill plan.
pub open spec fn after_read(m: CacheModel, key: Seq<char>, fresh: Seq<u8>) -> CacheModel {
    let v = read_result(m, key, fresh);
    let source = lookup_source(m, key);
    let durable = if source == PayloadSource::Computed {
        m.durable.insert(key, v)
    } else {
        m.durable
    };
    let distributed = if (source == PayloadSource::Durable || source == PayloadSource::Computed)
        && m.has_distributed && v.len() <= DISTRIBUTED_MAX_ENTRY_SIZE {
        m.distributed.insert(key, v)
    } else {
        m.distributed
    };
    let memory = if source != PayloadSource::Memory && v.len() <= MEMORY_MAX_ENTRY_SIZE {
        m.memory.insert(key, v)
    } else {
        m.memory
    };
    CacheModel { memory, distributed, durable, has_distributed: m.has_distributed }
}

/// Every tier entry for `key` agrees with the payload `v` that the pure
/// computation yields for it. This holds of every reachable tier state,
/// because entries are only ever written with that computed payload.
pub open spec fn coherent_at(m: CacheModel, key: Seq<char>, v: Seq<u8>) -> bool {
    &&& m.memory.contains_key(key) ==> m.memory[key] == v
    &&& m.distributed.contains_key(key) ==> m.distributed[key] == v
    &&& m.durable.contains_key(key) ==> m.durable[key] == v
}

/// Cache idempotence, first half: on coherent tiers a read returns exactly
/// the computed payload, whichever tier satisfies it, and the tiers stay
/// coherent afterwards. Hence two reads of the same validated parameters
/// return byte-identical payloads.
pub proof fn lemma_read_deterministic(m: CacheModel, key: Seq<char>, v: Seq<u8>)
    requires
        coherent_at(m, key, v),
    ensures
        read_result(m, key, v) == v,
        coherent_at(after_read(m, key, v), key, v),
        read_result(after_read(m, key, v), key, v) == read_result(m, key, v),
{
}

/// Cache idempotence, second half: a payload present only at the durable
/// tier is backfilled by a read, so the next read of the same key is
/// satisfied by a higher tier — the memory tier when the payload fits its
/// ceiling, else the distributed tier when one is configured and the payload
/// fits its ceiling — and still returns the same bytes.
pub proof fn lemma_backfill_visible(m: CacheModel, key: Seq<char>, v: Seq<u8>)
    requires
        coherent_at(m, key, v),
        !m.memory.contains_key(key),
        lookup_source(m, key) == PayloadSource::Durable,
    ensures
        v.len() <= MEMORY_MAX_ENTRY_SIZE ==> lookup_source(after_read(m, key, v), key)
            == PayloadSource::Memory,
        v.len() > MEMORY_MAX_ENTRY_SIZE && m.has_distributed && v.len()
            <= DISTRIBUTED_MAX_ENTRY_SIZE ==> lookup_source(after_read(m, key, v), key)
            == PayloadSource::Distributed,
        read_result(after_read(m, key, v), key, v) == v,
{
    assert(read_result(m, key, v) == v);
}

/// A computed payload is written through: after a full miss the durable tier
/// holds the key, and the read path never needs to recompute it.
pub proof fn lemma_write_through(m: CacheModel, key: Seq<char>, v: Seq<u8>)
    requires
        coherent_at(m, key, v),
        lookup_source(m, key) == PayloadSource::Computed,
    ensures
        after_read(m, key, v).durable.contains_key(key),
        after_read(m, key, v).durable[key] == v,
        lookup_source(after_read(m, key, v), key) != PayloadSource::Computed,
{
}

} // verus!
