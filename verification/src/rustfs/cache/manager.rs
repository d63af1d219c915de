//! Cache tiers and the tier decisions of the cache manager.

use vstd::prelude::*;

use super::metrics::{add_w, ema, CacheMetrics};
use super::policy::{PromotionPolicy, TargetTier};

verus! {

/// Cache tier.
#[derive(Debug, Clone, Copy, PartialEq, Eq, Structural)]
pub enum CacheTier {
    /// L1 - RAM (hot)
    L1,
    /// L2 - NVMe (warm)
    L2,
    /// L3 - Cold storage
    L3,
}

impl CacheTier {
    /// Name of the tier.
    pub fn to_string(&self) -> (r: String)
        ensures
            r@ == match *self {
                CacheTier::L1 => "L1 (RAM)"@,
                CacheTier::L2 => "L2 (NVMe)"@,
                CacheTier::L3 => "L3 (Cold)"@,
            },
    {
        match self {
            CacheTier::L1 => "L1 (RAM)".to_owned(),
            CacheTier::L2 => "L2 (NVMe)".to_owned(),
            CacheTier::L3 => "L3 (Cold)".to_owned(),
        }
    }
}

/// The tier a new entry of `size` bytes is written to: L2 when it is too
/// large for L1, L1 otherwise (new entries are hot).
pub fn determine_target_tier(policy: &PromotionPolicy, size: u64) -> (r: CacheTier)
    ensures
        r == if size > policy.l1_max_size {
            CacheTier::L2
        } else {
            CacheTier::L1
        },
{
    if size > policy.l1_max_size {
        return CacheTier::L2;
    }
    if size < policy.l2_min_size {
        return CacheTier::L1;
    }
    CacheTier::L1
}

/// The metrics after a lookup that found the entry in `hit` (`None`: in no
/// tier), the answering tier's read taking `latency_us` microseconds:
/// every tier consulted before the hit (L1, then L2, then L3) counts a
/// miss, and the hit tier counts a hit and folds in the read latency.
pub open spec fn after_lookup(m: CacheMetrics, hit: Option<CacheTier>, latency_us: u64) -> CacheMetrics {
    match hit {
        Some(CacheTier::L1) => CacheMetrics {
            l1_hits: add_w(m.l1_hits, 1),
            l1_read_latency_us: ema(m.l1_read_latency_us, latency_us),
            ..m
        },
        Some(CacheTier::L2) => CacheMetrics {
            l1_misses: add_w(m.l1_misses, 1),
            l2_hits: add_w(m.l2_hits, 1),
            l2_read_latency_us: ema(m.l2_read_latency_us, latency_us),
            ..m
        },
        Some(CacheTier::L3) => CacheMetrics {
            l1_misses: add_w(m.l1_misses, 1),
            l2_misses: add_w(m.l2_misses, 1),
            l3_hits: add_w(m.l3_hits, 1),
            l3_read_latency_us: ema(m.l3_read_latency_us, latency_us),
            ..m
        },
        None => CacheMetrics {
            l1_misses: add_w(m.l1_misses, 1),
            l2_misses: add_w(m.l2_misses, 1),
            l3_misses: add_w(m.l3_misses, 1),
            ..m
        },
    }
}

/// Records the outcome of a lookup (see `after_lookup`).
pub fn record_lookup(metrics: &mut CacheMetrics, hit: Option<CacheTier>, latency_us: u64)
    ensures
        *final(metrics) == after_lookup(*old(metrics), hit, latency_us),
{
    match hit {
        Some(CacheTier::L1) => {
            metrics.record_l1_hit();
            metrics.record_l1_read_latency(latency_us);
        },
        Some(CacheTier::L2) => {
            metrics.record_l1_miss();
            metrics.record_l2_hit();
            metrics.record_l2_read_latency(latency_us);
        },
        Some(CacheTier::L3) => {
            metrics.record_l1_miss();
            metrics.record_l2_miss();
            metrics.record_l3_hit();
            metrics.record_l3_read_latency(latency_us);
        },
        None => {
            metrics.record_l1_miss();
            metrics.record_l2_miss();
            metrics.record_l3_miss();
        },
    }
}

/// Counts the promotions of an entry found in L3 and moved to `target`:
/// to L1 it passes through L2 (two promotions), to L2 it is one
/// promotion, and an entry that stays in L3 is not counted.
pub fn record_l3_promotion(metrics: &mut CacheMetrics, target: TargetTier)
    ensures
        *final(metrics) == match target {
            TargetTier::L1 => CacheMetrics {
                promotions_l3_to_l2: add_w(old(metrics).promotions_l3_to_l2, 1),
                promotions_l2_to_l1: add_w(old(metrics).promotions_l2_to_l1, 1),
                ..*old(metrics)
            },
            TargetTier::L2 => CacheMetrics {
                promotions_l3_to_l2: add_w(old(metrics).promotions_l3_to_l2, 1),
                ..*old(metrics)
            },
            TargetTier::L3 => *old(metrics),
        },
{
    match target {
        TargetTier::L1 => {
            metrics.record_promotion_l3_to_l2();
            metrics.record_promotion_l2_to_l1();
        },
        TargetTier::L2 => {
            metrics.record_promotion_l3_to_l2();
        },
        TargetTier::L3 => {},
    }
}

} // verus!
