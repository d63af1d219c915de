//! Promotion policy: which tier an entry belongs in, by size and access
//! count.

use vstd::prelude::*;

verus! {

/// Target tier for an entry.
#[derive(Debug, Clone, Copy, PartialEq, Eq, Structural)]
pub enum TargetTier {
    /// L1 (RAM) - hot data
    L1,
    /// L2 (NVMe) - warm data
    L2,
    /// L3 (Cold Storage) - cold data
    L3,
}

/// Promotion policy configuration.
#[derive(Debug, Clone)]
pub struct PromotionPolicy {
    /// Name of the policy
    pub name: String,
    /// Minimum access count to promote L2 -> L1
    pub l1_promotion_threshold: u32,
    /// Minimum access count to promote L3 -> L2
    pub l2_promotion_threshold: u32,
    /// Time window for counting accesses, in seconds
    pub access_window_secs: u64,
    /// Minimum size for L2 (smaller stays in L1)
    pub l2_min_size: u64,
    /// Maximum size for L1 (larger goes to L2)
    pub l1_max_size: u64,
    /// Enable eager promotion (promote on first access)
    pub eager_promotion: bool,
}

/// The tier a policy assigns to an entry: by size first (too large for L1
/// goes to L2, smaller than the L2 minimum stays in L1), then by access
/// count.
pub open spec fn target_tier_spec(p: PromotionPolicy, access_count: u32, size: u64) -> TargetTier {
    if size > p.l1_max_size {
        TargetTier::L2
    } else if size < p.l2_min_size {
        TargetTier::L1
    } else if p.eager_promotion || access_count >= p.l1_promotion_threshold {
        TargetTier::L1
    } else if access_count >= p.l2_promotion_threshold {
        TargetTier::L2
    } else {
        TargetTier::L3
    }
}

impl PromotionPolicy {
    /// Balanced promotion policy (the default).
    pub fn balanced() -> (r: PromotionPolicy)
        ensures
            r.name@ == "Balanced"@,
            r.l1_promotion_threshold == 3,
            r.l2_promotion_threshold == 2,
            r.access_window_secs == 300,
            r.l2_min_size == 4096,
            r.l1_max_size == 67108864,
            !r.eager_promotion,
    {
        PromotionPolicy {
            name: "Balanced".to_owned(),
            l1_promotion_threshold: 3,
            l2_promotion_threshold: 2,
            access_window_secs: 300,
            l2_min_size: 4096,
            l1_max_size: 67108864,
            eager_promotion: false,
        }
    }

    /// Aggressive promotion policy: promotes items quickly to hot tiers.
    pub fn aggressive() -> (r: PromotionPolicy)
        ensures
            r.name@ == "Aggressive"@,
            r.l1_promotion_threshold == 1,
            r.l2_promotion_threshold == 1,
            r.access_window_secs == 60,
            r.l2_min_size == 0,
            r.l1_max_size == 134217728,
            r.eager_promotion,
    {
        PromotionPolicy {
            name: "Aggressive".to_owned(),
            l1_promotion_threshold: 1,
            l2_promotion_threshold: 1,
            access_window_secs: 60,
            l2_min_size: 0,
            l1_max_size: 134217728,
            eager_promotion: true,
        }
    }

    /// Conservative promotion policy: only promotes items with high access
    /// counts.
    pub fn conservative() -> (r: PromotionPolicy)
        ensures
            r.name@ == "Conservative"@,
            r.l1_promotion_threshold == 10,
            r.l2_promotion_threshold == 5,
            r.access_window_secs == 600,
            r.l2_min_size == 16384,
            r.l1_max_size == 33554432,
            !r.eager_promotion,
    {
        PromotionPolicy {
            name: "Conservative".to_owned(),
            l1_promotion_threshold: 10,
            l2_promotion_threshold: 5,
            access_window_secs: 600,
            l2_min_size: 16384,
            l1_max_size: 33554432,
            eager_promotion: false,
        }
    }

    /// The tier for an entry with `access_count` accesses and `size` bytes.
    pub fn target_tier(&self, access_count: u32, size: u64) -> (r: TargetTier)
        ensures
            r == target_tier_spec(*self, access_count, size),
            r == TargetTier::L1 <==> size <= self.l1_max_size && (size < self.l2_min_size || self.eager_promotion
                || access_count >= self.l1_promotion_threshold),
            r == TargetTier::L3 <==> self.l2_min_size <= size <= self.l1_max_size && !self.eager_promotion
                && access_count < self.l1_promotion_threshold && access_count < self.l2_promotion_threshold,
            r == TargetTier::L2 <==> size > self.l1_max_size || (self.l2_min_size <= size && !self.eager_promotion
                && self.l2_promotion_threshold <= access_count < self.l1_promotion_threshold),
    {
        if size > self.l1_max_size {
            return TargetTier::L2;
        }
        if size < self.l2_min_size {
            return TargetTier::L1;
        }
        if self.eager_promotion || access_count >= self.l1_promotion_threshold {
            return TargetTier::L1;
        }
        if access_count >= self.l2_promotion_threshold {
            return TargetTier::L2;
        }
        TargetTier::L3
    }

    /// Whether an entry should move up to L1: it fits L1 and promotion is
    /// eager or it was accessed often enough.
    pub fn should_promote_to_l1(&self, access_count: u32, size: u64) -> (r: bool)
        ensures
            r == (size <= self.l1_max_size && (self.eager_promotion || access_count >= self.l1_promotion_threshold)),
    {
        size <= self.l1_max_size && (self.eager_promotion || access_count >= self.l1_promotion_threshold)
    }

    /// Whether an entry should move up to L2: large enough for L2 and
    /// accessed often enough.
    pub fn should_promote_to_l2(&self, access_count: u32, size: u64) -> (r: bool)
        ensures
            r == (size >= self.l2_min_size && access_count >= self.l2_promotion_threshold),
    {
        size >= self.l2_min_size && access_count >= self.l2_promotion_threshold
    }
}

impl Default for PromotionPolicy {
    fn default() -> (r: Self)
        ensures
            r.name@ == "Balanced"@,
            r.l1_promotion_threshold == 3,
            r.l2_promotion_threshold == 2,
            r.l2_min_size == 4096,
            r.l1_max_size == 67108864,
            !r.eager_promotion,
    {
        PromotionPolicy::balanced()
    }
}

/// Whether an eviction policy with minimum access count `min_access_count`
/// protects an entry accessed `access_count` times from eviction: only a
/// positive minimum protects, and only entries accessed at least that often.
pub fn should_protect(min_access_count: u32, access_count: u32) -> (r: bool)
    ensures
        r == (min_access_count > 0 && access_count >= min_access_count),
{
    access_count >= min_access_count && min_access_count > 0
}

/// An entry that the policy promotes to L1 is sent to L1 by `target_tier`
/// unless it is smaller than the L2 minimum (where it also goes to L1):
/// whenever `should_promote_to_l1` holds, the target tier is L1.
pub proof fn law_promote_to_l1_targets_l1(p: PromotionPolicy, access_count: u32, size: u64)
    requires
        size <= p.l1_max_size,
        p.eager_promotion || access_count >= p.l1_promotion_threshold,
    ensures
        target_tier_spec(p, access_count, size) == TargetTier::L1,
{
}

/// An entry of a size both tiers take, accessed often enough for L2 but not
/// for L1 (and without eager promotion), goes to L2: whenever
/// `should_promote_to_l2` holds and `should_promote_to_l1` does not, within
/// L1's size limit, the target tier is L2.
pub proof fn law_promote_to_l2_targets_l2(p: PromotionPolicy, access_count: u32, size: u64)
    requires
        p.l2_min_size <= size <= p.l1_max_size,
        !p.eager_promotion,
        p.l2_promotion_threshold <= access_count < p.l1_promotion_threshold,
    ensures
        target_tier_spec(p, access_count, size) == TargetTier::L2,
{
}

/// The cold tier is chosen only for an entry that neither promotion applies
/// to, and for every such entry of a size both tiers take.
pub proof fn law_target_l3_exactly_when_not_promoted(p: PromotionPolicy, access_count: u32, size: u64)
    ensures
        target_tier_spec(p, access_count, size) == TargetTier::L3 <==> (p.l2_min_size <= size <= p.l1_max_size
            && !(p.eager_promotion || access_count >= p.l1_promotion_threshold) && !(access_count
            >= p.l2_promotion_threshold)),
{
}

/// Raising the access count never moves an entry to a colder tier: from L1
/// it stays in L1, and from L2 it goes to L2 or L1.
pub proof fn law_target_tier_monotone(p: PromotionPolicy, c1: u32, c2: u32, size: u64)
    requires
        c1 <= c2,
    ensures
        target_tier_spec(p, c1, size) == TargetTier::L1 ==> target_tier_spec(p, c2, size) == TargetTier::L1,
        target_tier_spec(p, c1, size) == TargetTier::L2 ==> target_tier_spec(p, c2, size) != TargetTier::L3,
{
}

} // verus!
