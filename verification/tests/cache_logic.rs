use juggling_tools::cache::{
    backfill_plan, cache_key, first_step, fits_in_memory, fits_in_redis, next_step_on_miss,
    PayloadSource, ReadStep,
};
use juggling_tools::graph::GraphParams;

fn params(num_props: u8, max_height: u8, compact: bool, reversed: bool) -> GraphParams {
    GraphParams {
        num_props,
        max_height,
        compact,
        reversed,
    }
}

#[test]
fn cache_key_exact() {
    let key = cache_key(1, &params(3, 5, false, false));
    assert_eq!(key, "table-v1-3-5-false-false");
    let key = cache_key(12, &params(3, 15, false, true));
    assert_eq!(key, "table-v12-3-15-false-true");
}

#[test]
fn cache_key_collapses_reversed_when_compact() {
    let with_reversed = cache_key(1, &params(3, 5, true, true));
    let without = cache_key(1, &params(3, 5, true, false));
    assert_eq!(with_reversed, "table-v1-3-5-true-false");
    assert_eq!(with_reversed, without);
}

#[test]
fn cache_key_deterministic() {
    let a = cache_key(2, &params(4, 9, false, true));
    let b = cache_key(2, &params(4, 9, false, true));
    assert_eq!(a, b);
}

#[test]
fn fits_in_memory_boundary() {
    let at_limit = vec![0u8; 1024 * 1024];
    assert!(fits_in_memory(&at_limit));
    let over_limit = vec![0u8; 1024 * 1024 + 1];
    assert!(!fits_in_memory(&over_limit));
}

#[test]
fn fits_in_redis_boundary() {
    let at_limit = vec![0u8; 5 * 1024 * 1024];
    assert!(fits_in_redis(&at_limit));
    let over_limit = vec![0u8; 5 * 1024 * 1024 + 1];
    assert!(!fits_in_redis(&over_limit));
}

#[test]
fn probe_order_with_distributed_tier() {
    let s0 = first_step();
    assert_eq!(s0, ReadStep::ProbeMemory);
    let s1 = next_step_on_miss(s0, true);
    assert_eq!(s1, ReadStep::ProbeDistributed);
    let s2 = next_step_on_miss(s1, true);
    assert_eq!(s2, ReadStep::ProbeDurable);
    let s3 = next_step_on_miss(s2, true);
    assert_eq!(s3, ReadStep::ComputeFresh);
}

#[test]
fn probe_order_without_distributed_tier() {
    let s0 = first_step();
    let s1 = next_step_on_miss(s0, false);
    assert_eq!(s1, ReadStep::ProbeDurable);
    let s2 = next_step_on_miss(s1, false);
    assert_eq!(s2, ReadStep::ComputeFresh);
}

#[test]
fn backfill_after_memory_hit_writes_nothing() {
    let plan = backfill_plan(PayloadSource::Memory, 100, true);
    assert!(!plan.write_durable);
    assert!(!plan.write_distributed);
    assert!(!plan.write_memory);
}

#[test]
fn backfill_after_distributed_hit_fills_memory_only() {
    let plan = backfill_plan(PayloadSource::Distributed, 100, true);
    assert!(!plan.write_durable);
    assert!(!plan.write_distributed);
    assert!(plan.write_memory);

    let oversized = backfill_plan(PayloadSource::Distributed, 2 * 1024 * 1024, true);
    assert!(!oversized.write_memory);
}

#[test]
fn backfill_after_durable_hit_fills_upper_tiers() {
    let plan = backfill_plan(PayloadSource::Durable, 100, true);
    assert!(!plan.write_durable);
    assert!(plan.write_distributed);
    assert!(plan.write_memory);

    let no_distributed = backfill_plan(PayloadSource::Durable, 100, false);
    assert!(!no_distributed.write_distributed);
    assert!(no_distributed.write_memory);
}

#[test]
fn computed_payload_is_written_through() {
    let plan = backfill_plan(PayloadSource::Computed, 100, true);
    assert!(plan.write_durable);
    assert!(plan.write_distributed);
    assert!(plan.write_memory);

    let huge = backfill_plan(PayloadSource::Computed, 6 * 1024 * 1024, true);
    assert!(huge.write_durable);
    assert!(!huge.write_distributed);
    assert!(!huge.write_memory);
}
