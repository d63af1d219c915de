//! Cache metrics: hit and miss counters per tier, latency averages,
//! promotions and demotions, and throughput samples.

use vstd::prelude::*;

use crate::clock::{elapsed_micros, instant_now};

verus! {

/// 64-bit wrapping addition, as the counters use.
pub open spec fn add_w(a: u64, b: u64) -> u64 {
    vstd::wrapping::u64_specs::wrapping_add(a, b)
}

/// Moving average of latencies with weight 1/10 for the new sample
/// (rounded down); the first sample is taken as it is.
pub open spec fn ema(current: u64, sample: u64) -> u64 {
    if current == 0 {
        sample
    } else {
        ((9 * current + sample) / 10) as u64
    }
}

/// Folds a latency sample into a moving average.
pub fn update_latency_ema(current: u64, sample_us: u64) -> (r: u64)
    ensures
        r == ema(current, sample_us),
{
    if current == 0 {
        return sample_us;
    }
    let v: u128 = (9 * (current as u128) + sample_us as u128) / 10;
    assert(v <= u64::MAX) by (nonlinear_arith)
        requires
            v == (9 * (current as u128) + sample_us as u128) / 10,
            current <= u64::MAX,
            sample_us <= u64::MAX,
    ;
    v as u64
}

/// Cache metrics collector.
#[derive(Debug, Clone, Copy, PartialEq, Eq, Default)]
pub struct CacheMetrics {
    /// L1 hits
    pub l1_hits: u64,
    /// L1 misses
    pub l1_misses: u64,
    /// L1 evictions
    pub l1_evictions: u64,
    /// L1 size in bytes
    pub l1_size_bytes: u64,
    /// L1 entry count
    pub l1_entries: u64,
    /// L2 hits
    pub l2_hits: u64,
    /// L2 misses
    pub l2_misses: u64,
    /// L2 evictions
    pub l2_evictions: u64,
    /// L2 size in bytes
    pub l2_size_bytes: u64,
    /// L2 entry count
    pub l2_entries: u64,
    /// L3 hits
    pub l3_hits: u64,
    /// L3 misses
    pub l3_misses: u64,
    /// L1 read latency (moving average, microseconds)
    pub l1_read_latency_us: u64,
    /// L1 write latency (moving average, microseconds)
    pub l1_write_latency_us: u64,
    /// L2 read latency (moving average, microseconds)
    pub l2_read_latency_us: u64,
    /// L2 write latency (moving average, microseconds)
    pub l2_write_latency_us: u64,
    /// L3 read latency (moving average, microseconds)
    pub l3_read_latency_us: u64,
    /// Promotions from L3 to L2
    pub promotions_l3_to_l2: u64,
    /// Promotions from L2 to L1
    pub promotions_l2_to_l1: u64,
    /// Demotions from L1 to L2
    pub demotions_l1_to_l2: u64,
    /// Demotions from L2 to L3
    pub demotions_l2_to_l3: u64,
    /// Read throughput (bytes per second, sampled)
    pub read_throughput_bps: u64,
    /// Write throughput (bytes per second, sampled)
    pub write_throughput_bps: u64,
}

/// All metrics at zero.
pub open spec fn zero_metrics() -> CacheMetrics {
    CacheMetrics {
        l1_hits: 0,
        l1_misses: 0,
        l1_evictions: 0,
        l1_size_bytes: 0,
        l1_entries: 0,
        l2_hits: 0,
        l2_misses: 0,
        l2_evictions: 0,
        l2_size_bytes: 0,
        l2_entries: 0,
        l3_hits: 0,
        l3_misses: 0,
        l1_read_latency_us: 0,
        l1_write_latency_us: 0,
        l2_read_latency_us: 0,
        l2_write_latency_us: 0,
        l3_read_latency_us: 0,
        promotions_l3_to_l2: 0,
        promotions_l2_to_l1: 0,
        demotions_l1_to_l2: 0,
        demotions_l2_to_l3: 0,
        read_throughput_bps: 0,
        write_throughput_bps: 0,
    }
}

impl CacheMetrics {
    /// All metrics at zero.
    pub fn new() -> (r: CacheMetrics)
        ensures
            r == zero_metrics(),
    {
        CacheMetrics {
            l1_hits: 0,
            l1_misses: 0,
            l1_evictions: 0,
            l1_size_bytes: 0,
            l1_entries: 0,
            l2_hits: 0,
            l2_misses: 0,
            l2_evictions: 0,
            l2_size_bytes: 0,
            l2_entries: 0,
            l3_hits: 0,
            l3_misses: 0,
            l1_read_latency_us: 0,
            l1_write_latency_us: 0,
            l2_read_latency_us: 0,
            l2_write_latency_us: 0,
            l3_read_latency_us: 0,
            promotions_l3_to_l2: 0,
            promotions_l2_to_l1: 0,
            demotions_l1_to_l2: 0,
            demotions_l2_to_l3: 0,
            read_throughput_bps: 0,
            write_throughput_bps: 0,
        }
    }


    /// Records an L1 hit.
    pub fn record_l1_hit(&mut self)
        ensures
            *final(self) == (CacheMetrics { l1_hits: add_w(old(self).l1_hits, 1), ..*old(self) }),
    {
        self.l1_hits = self.l1_hits.wrapping_add(1);
    }


    /// Records an L1 miss.
    pub fn record_l1_miss(&mut self)
        ensures
            *final(self) == (CacheMetrics { l1_misses: add_w(old(self).l1_misses, 1), ..*old(self) }),
    {
        self.l1_misses = self.l1_misses.wrapping_add(1);
    }


    /// Records an L1 eviction.
    pub fn record_l1_eviction(&mut self)
        ensures
            *final(self) == (CacheMetrics { l1_evictions: add_w(old(self).l1_evictions, 1), ..*old(self) }),
    {
        self.l1_evictions = self.l1_evictions.wrapping_add(1);
    }


    /// Sets the L1 size and entry count.
    pub fn update_l1_stats(&mut self, size: u64, entries: u64)
        ensures
            *final(self) == (CacheMetrics { l1_size_bytes: size, l1_entries: entries, ..*old(self) }),
    {
        self.l1_size_bytes = size;
        self.l1_entries = entries;
    }


    /// L1 hits.
    pub fn l1_hits(&self) -> (r: u64)
        ensures
            r == self.l1_hits,
    {
        self.l1_hits
    }


    /// L1 misses.
    pub fn l1_misses(&self) -> (r: u64)
        ensures
            r == self.l1_misses,
    {
        self.l1_misses
    }


    /// Records an L2 hit.
    pub fn record_l2_hit(&mut self)
        ensures
            *final(self) == (CacheMetrics { l2_hits: add_w(old(self).l2_hits, 1), ..*old(self) }),
    {
        self.l2_hits = self.l2_hits.wrapping_add(1);
    }


    /// Records an L2 miss.
    pub fn record_l2_miss(&mut self)
        ensures
            *final(self) == (CacheMetrics { l2_misses: add_w(old(self).l2_misses, 1), ..*old(self) }),
    {
        self.l2_misses = self.l2_misses.wrapping_add(1);
    }


    /// Records an L2 eviction.
    pub fn record_l2_eviction(&mut self)
        ensures
            *final(self) == (CacheMetrics { l2_evictions: add_w(old(self).l2_evictions, 1), ..*old(self) }),
    {
        self.l2_evictions = self.l2_evictions.wrapping_add(1);
    }


    /// Sets the L2 size and entry count.
    pub fn update_l2_stats(&mut self, size: u64, entries: u64)
        ensures
            *final(self) == (CacheMetrics { l2_size_bytes: size, l2_entries: entries, ..*old(self) }),
    {
        self.l2_size_bytes = size;
        self.l2_entries = entries;
    }


    /// L2 hits.
    pub fn l2_hits(&self) -> (r: u64)
        ensures
            r == self.l2_hits,
    {
        self.l2_hits
    }


    /// L2 misses.
    pub fn l2_misses(&self) -> (r: u64)
        ensures
            r == self.l2_misses,
    {
        self.l2_misses
    }


    /// Records an L3 hit.
    pub fn record_l3_hit(&mut self)
        ensures
            *final(self) == (CacheMetrics { l3_hits: add_w(old(self).l3_hits, 1), ..*old(self) }),
    {
        self.l3_hits = self.l3_hits.wrapping_add(1);
    }


    /// Records an L3 miss.
    pub fn record_l3_miss(&mut self)
        ensures
            *final(self) == (CacheMetrics { l3_misses: add_w(old(self).l3_misses, 1), ..*old(self) }),
    {
        self.l3_misses = self.l3_misses.wrapping_add(1);
    }


    /// L3 hits.
    pub fn l3_hits(&self) -> (r: u64)
        ensures
            r == self.l3_hits,
    {
        self.l3_hits
    }


    /// L3 misses.
    pub fn l3_misses(&self) -> (r: u64)
        ensures
            r == self.l3_misses,
    {
        self.l3_misses
    }


    /// Folds an L1 read latency (microseconds) into its average.
    pub fn record_l1_read_latency(&mut self, duration_us: u64)
        ensures
            *final(self) == (CacheMetrics { l1_read_latency_us: ema(old(self).l1_read_latency_us, duration_us), ..*old(self) }),
    {
        self.l1_read_latency_us = update_latency_ema(self.l1_read_latency_us, duration_us);
    }


    /// Folds an L1 write latency (microseconds) into its average.
    pub fn record_l1_write_latency(&mut self, duration_us: u64)
        ensures
            *final(self) == (CacheMetrics { l1_write_latency_us: ema(old(self).l1_write_latency_us, duration_us), ..*old(self) }),
    {
        self.l1_write_latency_us = update_latency_ema(self.l1_write_latency_us, duration_us);
    }


    /// Folds an L2 read latency (microseconds) into its average.
    pub fn record_l2_read_latency(&mut self, duration_us: u64)
        ensures
            *final(self) == (CacheMetrics { l2_read_latency_us: ema(old(self).l2_read_latency_us, duration_us), ..*old(self) }),
    {
        self.l2_read_latency_us = update_latency_ema(self.l2_read_latency_us, duration_us);
    }


    /// Folds an L2 write latency (microseconds) into its average.
    pub fn record_l2_write_latency(&mut self, duration_us: u64)
        ensures
            *final(self) == (CacheMetrics { l2_write_latency_us: ema(old(self).l2_write_latency_us, duration_us), ..*old(self) }),
    {
        self.l2_write_latency_us = update_latency_ema(self.l2_write_latency_us, duration_us);
    }


    /// Folds an L3 read latency (microseconds) into its average.
    pub fn record_l3_read_latency(&mut self, duration_us: u64)
        ensures
            *final(self) == (CacheMetrics { l3_read_latency_us: ema(old(self).l3_read_latency_us, duration_us), ..*old(self) }),
    {
        self.l3_read_latency_us = update_latency_ema(self.l3_read_latency_us, duration_us);
    }


    /// Average L1 read latency, microseconds.
    pub fn l1_read_latency(&self) -> (r: u64)
        ensures
            r == self.l1_read_latency_us,
    {
        self.l1_read_latency_us
    }


    /// Average L1 write latency, microseconds.
    pub fn l1_write_latency(&self) -> (r: u64)
        ensures
            r == self.l1_write_latency_us,
    {
        self.l1_write_latency_us
    }


    /// Average L2 read latency, microseconds.
    pub fn l2_read_latency(&self) -> (r: u64)
        ensures
            r == self.l2_read_latency_us,
    {
        self.l2_read_latency_us
    }


    /// Average L2 write latency, microseconds.
    pub fn l2_write_latency(&self) -> (r: u64)
        ensures
            r == self.l2_write_latency_us,
    {
        self.l2_write_latency_us
    }


    /// Average L3 read latency, microseconds.
    pub fn l3_read_latency(&self) -> (r: u64)
        ensures
            r == self.l3_read_latency_us,
    {
        self.l3_read_latency_us
    }


    /// Records a promotion from L3 to L2.
    pub fn record_promotion_l3_to_l2(&mut self)
        ensures
            *final(self) == (CacheMetrics { promotions_l3_to_l2: add_w(old(self).promotions_l3_to_l2, 1), ..*old(self) }),
    {
        self.promotions_l3_to_l2 = self.promotions_l3_to_l2.wrapping_add(1);
    }


    /// Records a promotion from L2 to L1.
    pub fn record_promotion_l2_to_l1(&mut self)
        ensures
            *final(self) == (CacheMetrics { promotions_l2_to_l1: add_w(old(self).promotions_l2_to_l1, 1), ..*old(self) }),
    {
        self.promotions_l2_to_l1 = self.promotions_l2_to_l1.wrapping_add(1);
    }


    /// Records a demotion from L1 to L2.
    pub fn record_demotion_l1_to_l2(&mut self)
        ensures
            *final(self) == (CacheMetrics { demotions_l1_to_l2: add_w(old(self).demotions_l1_to_l2, 1), ..*old(self) }),
    {
        self.demotions_l1_to_l2 = self.demotions_l1_to_l2.wrapping_add(1);
    }


    /// Records a demotion from L2 to L3.
    pub fn record_demotion_l2_to_l3(&mut self)
        ensures
            *final(self) == (CacheMetrics { demotions_l2_to_l3: add_w(old(self).demotions_l2_to_l3, 1), ..*old(self) }),
    {
        self.demotions_l2_to_l3 = self.demotions_l2_to_l3.wrapping_add(1);
    }


    /// Sets the sampled throughputs.
    pub fn update_throughput(&mut self, read_bps: u64, write_bps: u64)
        ensures
            *final(self) == (CacheMetrics { read_throughput_bps: read_bps, write_throughput_bps: write_bps, ..*old(self) }),
    {
        self.read_throughput_bps = read_bps;
        self.write_throughput_bps = write_bps;
    }


    /// Sampled read throughput.
    pub fn read_throughput(&self) -> (r: u64)
        ensures
            r == self.read_throughput_bps,
    {
        self.read_throughput_bps
    }


    /// Sampled write throughput.
    pub fn write_throughput(&self) -> (r: u64)
        ensures
            r == self.write_throughput_bps,
    {
        self.write_throughput_bps
    }


    /// Resets the hit, miss, eviction, promotion and demotion counters
    /// (sizes, latencies and throughputs are kept).
    pub fn reset(&mut self)
        ensures
            *final(self) == (CacheMetrics {
                l1_hits: 0,
                l1_misses: 0,
                l1_evictions: 0,
                l2_hits: 0,
                l2_misses: 0,
                l2_evictions: 0,
                l3_hits: 0,
                l3_misses: 0,
                promotions_l3_to_l2: 0,
                promotions_l2_to_l1: 0,
                demotions_l1_to_l2: 0,
                demotions_l2_to_l3: 0,
                ..*old(self)
            }),
    {
        self.l1_hits = 0;
        self.l1_misses = 0;
        self.l1_evictions = 0;
        self.l2_hits = 0;
        self.l2_misses = 0;
        self.l2_evictions = 0;
        self.l3_hits = 0;
        self.l3_misses = 0;
        self.promotions_l3_to_l2 = 0;
        self.promotions_l2_to_l1 = 0;
        self.demotions_l1_to_l2 = 0;
        self.demotions_l2_to_l3 = 0;
    }
}

/// Measures the time since it was started.
#[derive(Debug, Clone, Copy)]
pub struct LatencyTracker {
    start: std::time::Instant,
}

impl LatencyTracker {
    /// Starts measuring now.
    pub fn start() -> LatencyTracker {
        LatencyTracker { start: instant_now() }
    }

    /// Microseconds since the start.
    pub fn elapsed(&self) -> u64 {
        elapsed_micros(&self.start)
    }
}

} // verus!
