//! The load metric that the runtime reports for admission control.

use vstd::prelude::*;

verus! {

/// Weight of each of the two components of the load metric.
pub const USAGE_SCALE: u16 = 30000;

/// Largest value the load metric can take.
pub const MAX_LOAD: u16 = 60000;

/// Runtime-wide limits, fixed once the runtime is built.
#[derive(Clone, Copy, Debug, PartialEq, Eq, Structural)]
pub struct Config {
    pub max_num_of_instances: usize,
    pub max_inactive_time_ms: u64,
    pub max_isolate_memory_bytes: usize,
    pub high_memory_threshold_bytes: usize,
}

/// Snapshot of the resources one instance reports.
#[derive(Clone, Copy, Debug, PartialEq, Eq, Structural)]
pub struct InstanceStatistics {
    pub used_memory_bytes: usize,
}

/// `floor(min(used / total, 1) * mul)`, where a zero `total` counts as full usage.
pub open spec fn usage_of(used: nat, total: nat, mul: nat) -> nat {
    if total == 0 || used >= total {
        mul
    } else {
        (used * mul) / total
    }
}

/// The composite metric: memory usage against the soft threshold plus the
/// instance count against the capacity, each scaled to `USAGE_SCALE`.
pub open spec fn load_of(total_memory: nat, num_instances: nat, config: Config) -> nat {
    usage_of(total_memory, config.high_memory_threshold_bytes as nat, USAGE_SCALE as nat)
        + usage_of(num_instances, config.max_num_of_instances as nat, USAGE_SCALE as nat)
}

/// A usage never exceeds its multiplier.
pub proof fn lemma_usage_bounded(used: nat, total: nat, mul: nat)
    ensures
        usage_of(used, total, mul) <= mul,
{
    if total != 0 && used < total {
        assert(used * mul <= total * mul) by (nonlinear_arith)
            requires
                used < total,
        ;
        assert((used * mul) / total <= mul) by (nonlinear_arith)
            requires
                used * mul <= total * mul,
                total > 0,
        ;
    }
}

/// Every load lies between 0 and `MAX_LOAD`.
pub proof fn lemma_load_bounded(total_memory: nat, num_instances: nat, config: Config)
    ensures
        load_of(total_memory, num_instances, config) <= MAX_LOAD,
{
    lemma_usage_bounded(
        total_memory,
        config.high_memory_threshold_bytes as nat,
        USAGE_SCALE as nat,
    );
    lemma_usage_bounded(num_instances, config.max_num_of_instances as nat, USAGE_SCALE as nat);
}

/// Scales the fraction `used / total`, saturated at one, to the range `0..=mul`.
pub fn compute_usage_saturating(used: u128, total: usize, mul: u16) -> (usage: u16)
    ensures
        usage == usage_of(used as nat, total as nat, mul as nat),
        usage <= mul,
{
    proof {
        lemma_usage_bounded(used as nat, total as nat, mul as nat);
    }
    if total == 0 || used >= total as u128 {
        mul
    } else {
        assert(used * mul <= usize::MAX * u16::MAX) by (nonlinear_arith)
            requires
                used < total,
                total <= usize::MAX,
                mul <= u16::MAX,
        ;
        let scaled: u128 = used * (mul as u128);
        let usage: u128 = scaled / (total as u128);
        usage as u16
    }
}

/// The load metric for a given total of reported memory and instance count.
pub fn load_metric(total_memory: u128, num_instances: usize, config: &Config) -> (load: u16)
    ensures
        load == load_of(total_memory as nat, num_instances as nat, *config),
        load <= MAX_LOAD,
{
    let memory_usage = compute_usage_saturating(
        total_memory,
        config.high_memory_threshold_bytes,
        USAGE_SCALE,
    );
    let instance_usage = compute_usage_saturating(
        num_instances as u128,
        config.max_num_of_instances,
        USAGE_SCALE,
    );
    memory_usage + instance_usage
}

} // verus!
