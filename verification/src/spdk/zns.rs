//! Zoned Namespaces (ZNS) SSDs: zones written append-only from a write
//! pointer and reset as a whole, the allocator that hands zones out, and
//! the manager that appends aligned stripes to them.
//!
//! Zone lifecycle: Empty → Open → Full → (Reset) → Empty.

use vstd::prelude::*;

use super::DmaBuf;
use crate::error::{Error, Result};

verus! {

// =============================================================================
// Constants
// =============================================================================

/// Default zone size (256 MB) - common for ZNS SSDs
pub const DEFAULT_ZONE_SIZE: u64 = 268435456;

/// Minimum zone size (64 MB)
pub const MIN_ZONE_SIZE: u64 = 67108864;

/// Maximum open zones (typical ZNS limit)
pub const DEFAULT_MAX_OPEN_ZONES: usize = 14;

/// Write alignment requirement (typically 4KB for NVMe)
pub const ZNS_WRITE_ALIGNMENT: u64 = 4096;

/// Maximum active zones (zones being written to)
pub const DEFAULT_MAX_ACTIVE_ZONES: usize = 14;

// =============================================================================
// Configuration
// =============================================================================

/// Configuration for ZNS Manager.
#[derive(Debug, Clone, Copy, PartialEq, Eq)]
pub struct ZnsConfig {
    /// Zone size in bytes (must match device)
    pub zone_size: u64,
    /// Maximum number of open zones
    pub max_open_zones: usize,
    /// Maximum number of active zones
    pub max_active_zones: usize,
    /// Write alignment requirement
    pub write_alignment: u64,
    /// Whether to enable zone-aware placement
    pub enable_zone_placement: bool,
    /// Minimum free zones to maintain
    pub min_free_zones: usize,
    /// Whether ZNS is enabled
    pub enabled: bool,
}

/// The default configuration.
pub open spec fn default_zns_config() -> ZnsConfig {
    ZnsConfig {
        zone_size: DEFAULT_ZONE_SIZE,
        max_open_zones: DEFAULT_MAX_OPEN_ZONES,
        max_active_zones: DEFAULT_MAX_ACTIVE_ZONES,
        write_alignment: ZNS_WRITE_ALIGNMENT,
        enable_zone_placement: true,
        min_free_zones: 2,
        enabled: true,
    }
}

impl Default for ZnsConfig {
    fn default() -> (r: Self)
        ensures
            r == default_zns_config(),
    {
        ZnsConfig {
            zone_size: DEFAULT_ZONE_SIZE,
            max_open_zones: DEFAULT_MAX_OPEN_ZONES,
            max_active_zones: DEFAULT_MAX_ACTIVE_ZONES,
            write_alignment: ZNS_WRITE_ALIGNMENT,
            enable_zone_placement: true,
            min_free_zones: 2,
            enabled: true,
        }
    }
}

/// Whether `x` is a power of two.
pub open spec fn is_pow2_u64(x: u64) -> bool {
    x != 0 && x & ((x - 1) as u64) == 0
}

/// Power-of-two test (`u64::is_power_of_two`).
pub fn u64_is_power_of_two(x: u64) -> (r: bool)
    ensures
        r == is_pow2_u64(x),
{
    x != 0 && x & (x - 1) == 0
}

/// Whether a ZNS configuration is acceptable.
pub open spec fn zns_config_valid(c: ZnsConfig) -> bool {
    &&& c.zone_size >= MIN_ZONE_SIZE
    &&& is_pow2_u64(c.zone_size)
    &&& is_pow2_u64(c.write_alignment)
    &&& c.max_open_zones > 0
}

/// Message of a zone size below the minimum (`format!`).
#[verifier::external_body]
fn zone_size_message(min: u64) -> String {
    format!("zone_size must be >= {} bytes", min)
}

impl ZnsConfig {
    /// A configuration for traditional (non-ZNS) SSDs.
    pub fn conventional() -> (r: ZnsConfig)
        ensures
            r == (ZnsConfig { enabled: false, ..default_zns_config() }),
    {
        ZnsConfig { enabled: false, ..Self::default() }
    }

    /// The default configuration with another zone size.
    pub fn with_zone_size(zone_size: u64) -> (r: ZnsConfig)
        ensures
            r == (ZnsConfig { zone_size, ..default_zns_config() }),
    {
        ZnsConfig { zone_size, ..Self::default() }
    }

    /// Checks the configuration.
    pub fn validate(&self) -> (r: Result<()>)
        ensures
            r is Ok <==> zns_config_valid(*self),
            r matches Err(e) ==> e is InvalidEcConfig,
    {
        if self.zone_size < MIN_ZONE_SIZE {
            return Err(Error::InvalidEcConfig(zone_size_message(MIN_ZONE_SIZE)));
        }
        if !u64_is_power_of_two(self.zone_size) {
            return Err(Error::InvalidEcConfig("zone_size must be a power of 2".to_owned()));
        }
        if self.write_alignment == 0 || !u64_is_power_of_two(self.write_alignment) {
            return Err(Error::InvalidEcConfig("write_alignment must be a power of 2".to_owned()));
        }
        if self.max_open_zones == 0 {
            return Err(Error::InvalidEcConfig("max_open_zones must be > 0".to_owned()));
        }
        Ok(())
    }

    /// Number of stripes of `stripe_size` bytes that fit in a zone.
    pub fn stripes_per_zone(&self, stripe_size: u64) -> (r: u64)
        requires
            stripe_size > 0,
        ensures
            r == self.zone_size / stripe_size,
    {
        self.zone_size / stripe_size
    }
}

// =============================================================================
// Zone Types
// =============================================================================

/// State of a ZNS zone.
#[derive(Debug, Clone, Copy, PartialEq, Eq, Structural, Hash)]
pub enum ZoneState {
    /// Zone is empty and ready for writes
    Empty,
    /// Zone is open for writing (has active write pointer)
    Open,
    /// Zone has been closed (no more writes, but data valid)
    Closed,
    /// Zone is full (write pointer at end)
    Full,
    /// Zone is offline or in error state
    Offline,
    /// Zone is being reset
    Resetting,
}

impl Default for ZoneState {
    fn default() -> (r: Self)
        ensures
            r == ZoneState::Empty,
    {
        ZoneState::Empty
    }
}

impl ZoneState {
    /// Display name of the state.
    pub fn to_string(&self) -> (r: String)
        ensures
            r@ == (match *self {
                ZoneState::Empty => "Empty"@,
                ZoneState::Open => "Open"@,
                ZoneState::Closed => "Closed"@,
                ZoneState::Full => "Full"@,
                ZoneState::Offline => "Offline"@,
                ZoneState::Resetting => "Resetting"@,
            }),
    {
        match self {
            ZoneState::Empty => "Empty".to_owned(),
            ZoneState::Open => "Open".to_owned(),
            ZoneState::Closed => "Closed".to_owned(),
            ZoneState::Full => "Full".to_owned(),
            ZoneState::Offline => "Offline".to_owned(),
            ZoneState::Resetting => "Resetting".to_owned(),
        }
    }

    /// Whether writes are allowed: the zone is empty or open.
    pub fn can_write(&self) -> (r: bool)
        ensures
            r == (*self == ZoneState::Empty || *self == ZoneState::Open),
    {
        match self {
            ZoneState::Empty | ZoneState::Open => true,
            _ => false,
        }
    }

    /// Whether the zone can be reset: it is full, closed, open or empty.
    pub fn can_reset(&self) -> (r: bool)
        ensures
            r == (*self == ZoneState::Full || *self == ZoneState::Closed || *self == ZoneState::Open || *self
                == ZoneState::Empty),
    {
        match self {
            ZoneState::Full | ZoneState::Closed | ZoneState::Open | ZoneState::Empty => true,
            _ => false,
        }
    }
}

/// Condition of a zone (for wear leveling and health).
#[derive(Debug, Clone, Copy, PartialEq, Eq, Structural)]
pub enum ZoneCondition {
    Good,
    Degraded,
    ReadOnly,
    Failed,
}

impl Default for ZoneCondition {
    fn default() -> (r: Self)
        ensures
            r == ZoneCondition::Good,
    {
        ZoneCondition::Good
    }
}

/// Information about a single zone.
#[derive(Debug, Clone, PartialEq, Eq)]
pub struct Zone {
    /// Zone ID (index)
    pub id: u64,
    /// Starting LBA of the zone
    pub start_lba: u64,
    /// Zone size in bytes
    pub size: u64,
    /// Current write pointer (offset from start_lba)
    pub write_pointer: u64,
    /// Zone state
    pub state: ZoneState,
    /// Zone condition
    pub condition: ZoneCondition,
    /// Number of times this zone has been reset
    pub reset_count: u64,
    /// Number of stripes written to this zone
    pub stripes_written: u64,
    /// Number of valid (non-garbage) stripes
    pub valid_stripes: u64,
    /// Device this zone belongs to
    pub device_id: String,
}

/// Bytes left in a zone after its write pointer (zero past the end).
pub open spec fn zone_remaining(z: Zone) -> u64 {
    if z.write_pointer <= z.size {
        (z.size - z.write_pointer) as u64
    } else {
        0
    }
}

/// Whether a write of `size` bytes fits in the zone in its state.
pub open spec fn zone_has_space(z: Zone, size: u64) -> bool {
    (z.state == ZoneState::Empty || z.state == ZoneState::Open) && zone_remaining(z) >= size
}

impl Zone {
    /// An empty zone.
    pub fn new(id: u64, start_lba: u64, size: u64, device_id: &str) -> (r: Zone)
        ensures
            r.id == id,
            r.start_lba == start_lba,
            r.size == size,
            r.write_pointer == 0,
            r.state == ZoneState::Empty,
            r.condition == ZoneCondition::Good,
            r.reset_count == 0,
            r.stripes_written == 0,
            r.valid_stripes == 0,
            r.device_id@ == device_id@,
    {
        Zone {
            id,
            start_lba,
            size,
            write_pointer: 0,
            state: ZoneState::Empty,
            condition: ZoneCondition::Good,
            reset_count: 0,
            stripes_written: 0,
            valid_stripes: 0,
            device_id: device_id.to_owned(),
        }
    }

    /// An exact copy of the zone.
    pub fn duplicate(&self) -> (r: Zone)
        ensures
            r == *self,
    {
        Zone {
            id: self.id,
            start_lba: self.start_lba,
            size: self.size,
            write_pointer: self.write_pointer,
            state: self.state,
            condition: self.condition,
            reset_count: self.reset_count,
            stripes_written: self.stripes_written,
            valid_stripes: self.valid_stripes,
            device_id: self.device_id.clone(),
        }
    }

    /// The current write position (absolute LBA).
    pub fn write_position(&self) -> (r: u64)
        requires
            self.start_lba + self.write_pointer <= u64::MAX,
        ensures
            r == self.start_lba + self.write_pointer,
    {
        self.start_lba + self.write_pointer
    }

    /// Remaining space in the zone.
    pub fn remaining_space(&self) -> (r: u64)
        ensures
            r == zone_remaining(*self),
    {
        self.size.saturating_sub(self.write_pointer)
    }

    /// Whether the zone can take a write of `size` bytes.
    pub fn has_space(&self, size: u64) -> (r: bool)
        ensures
            r == zone_has_space(*self, size),
    {
        self.state.can_write() && self.remaining_space() >= size
    }
}

/// Location of a write within a zone.
#[derive(Debug, Clone, PartialEq, Eq)]
pub struct ZoneWriteLocation {
    /// Zone ID
    pub zone_id: u64,
    /// Device ID
    pub device_id: String,
    /// Offset within the zone (from start_lba)
    pub offset: u64,
    /// Length of the write
    pub length: u64,
    /// Absolute LBA of the write
    pub lba: u64,
}

impl ZoneWriteLocation {
    /// The location of a write of `length` bytes at `offset` in `zone`.
    pub fn new(zone: &Zone, offset: u64, length: u64) -> (r: ZoneWriteLocation)
        requires
            zone.start_lba + offset <= u64::MAX,
        ensures
            r.zone_id == zone.id,
            r.device_id == zone.device_id,
            r.offset == offset,
            r.length == length,
            r.lba == zone.start_lba + offset,
    {
        ZoneWriteLocation {
            zone_id: zone.id,
            device_id: zone.device_id.clone(),
            offset,
            length,
            lba: zone.start_lba + offset,
        }
    }
}

// =============================================================================
// Statistics
// =============================================================================

/// Statistics for ZNS operations.
#[derive(Debug, Clone, Copy, PartialEq, Eq, Default)]
pub struct ZnsStats {
    /// Total zones managed
    pub total_zones: u64,
    /// Currently open zones
    pub open_zones: u64,
    /// Full zones
    pub full_zones: u64,
    /// Empty zones
    pub empty_zones: u64,
    /// Total writes performed
    pub writes_total: u64,
    /// Total bytes written
    pub bytes_written: u64,
    /// Zone resets performed
    pub resets_total: u64,
    /// Bytes reclaimed via resets
    pub bytes_reclaimed: u64,
    /// Write alignment padding bytes (overhead)
    pub padding_bytes: u64,
    /// Zone allocation failures
    pub allocation_failures: u64,
}

/// 64-bit wrapping addition, as the counters use.
pub open spec fn add_wrap(a: u64, b: u64) -> u64 {
    vstd::wrapping::u64_specs::wrapping_add(a, b)
}

impl ZnsStats {
    /// All counters at zero.
    pub fn new() -> (r: ZnsStats)
        ensures
            r == (ZnsStats {
                total_zones: 0,
                open_zones: 0,
                full_zones: 0,
                empty_zones: 0,
                writes_total: 0,
                bytes_written: 0,
                resets_total: 0,
                bytes_reclaimed: 0,
                padding_bytes: 0,
                allocation_failures: 0,
            }),
    {
        ZnsStats {
            total_zones: 0,
            open_zones: 0,
            full_zones: 0,
            empty_zones: 0,
            writes_total: 0,
            bytes_written: 0,
            resets_total: 0,
            bytes_reclaimed: 0,
            padding_bytes: 0,
            allocation_failures: 0,
        }
    }

    /// Records a write of `bytes` bytes with `padding` bytes of padding.
    pub fn record_write(&mut self, bytes: u64, padding: u64)
        ensures
            *final(self) == (ZnsStats {
                writes_total: add_wrap(old(self).writes_total, 1),
                bytes_written: add_wrap(old(self).bytes_written, bytes),
                padding_bytes: add_wrap(old(self).padding_bytes, padding),
                ..*old(self)
            }),
    {
        self.writes_total = self.writes_total.wrapping_add(1);
        self.bytes_written = self.bytes_written.wrapping_add(bytes);
        self.padding_bytes = self.padding_bytes.wrapping_add(padding);
    }

    /// Records a zone reset reclaiming `bytes_reclaimed` bytes.
    pub fn record_reset(&mut self, bytes_reclaimed: u64)
        ensures
            *final(self) == (ZnsStats {
                resets_total: add_wrap(old(self).resets_total, 1),
                bytes_reclaimed: add_wrap(old(self).bytes_reclaimed, bytes_reclaimed),
                ..*old(self)
            }),
    {
        self.resets_total = self.resets_total.wrapping_add(1);
        self.bytes_reclaimed = self.bytes_reclaimed.wrapping_add(bytes_reclaimed);
    }

    /// Records an allocation failure.
    pub fn record_allocation_failure(&mut self)
        ensures
            *final(self) == (ZnsStats {
                allocation_failures: add_wrap(old(self).allocation_failures, 1),
                ..*old(self)
            }),
    {
        self.allocation_failures = self.allocation_failures.wrapping_add(1);
    }

    /// Sets the zone counts.
    pub fn update_zone_counts(&mut self, open: u64, full: u64, empty: u64, total: u64)
        ensures
            *final(self) == (ZnsStats {
                open_zones: open,
                full_zones: full,
                empty_zones: empty,
                total_zones: total,
                ..*old(self)
            }),
    {
        self.open_zones = open;
        self.full_zones = full;
        self.empty_zones = empty;
        self.total_zones = total;
    }
}

/// Strategy for selecting zones.
#[derive(Debug, Clone, Copy, PartialEq, Eq, Structural)]
pub enum ZoneSelectionStrategy {
    /// Use the first available zone (simplest)
    FirstFit,
    /// Use the zone with most remaining space
    BestFit,
    /// Rotate through zones (wear leveling)
    RoundRobin,
    /// Prefer zones on less-used devices
    DeviceBalanced,
}

impl Default for ZoneSelectionStrategy {
    fn default() -> (r: Self)
        ensures
            r == ZoneSelectionStrategy::FirstFit,
    {
        ZoneSelectionStrategy::FirstFit
    }
}

// =============================================================================
// Zone Allocator
// =============================================================================

/// Number of zones in state `s`.
pub open spec fn state_count(zones: Seq<Zone>, s: ZoneState) -> nat {
    zones.filter(|z: Zone| z.state == s).len()
}

/// The zone counters of `stats` match `zones`.
pub open spec fn counts_synced(stats: ZnsStats, zones: Seq<Zone>) -> bool {
    &&& stats.open_zones == state_count(zones, ZoneState::Open)
    &&& stats.full_zones == state_count(zones, ZoneState::Full)
    &&& stats.empty_zones == state_count(zones, ZoneState::Empty)
    &&& stats.total_zones == zones.len()
}

/// `stats` has the zone counts of `zones` and otherwise the counters of `base`.
pub open spec fn stats_with_counts(stats: ZnsStats, base: ZnsStats, zones: Seq<Zone>) -> bool {
    &&& counts_synced(stats, zones)
    &&& stats.writes_total == base.writes_total
    &&& stats.bytes_written == base.bytes_written
    &&& stats.resets_total == base.resets_total
    &&& stats.bytes_reclaimed == base.bytes_reclaimed
    &&& stats.padding_bytes == base.padding_bytes
    &&& stats.allocation_failures == base.allocation_failures
}

/// A freshly registered zone.
pub open spec fn fresh_zone(z: Zone, id: int, start_lba: int, size: u64, device: Seq<char>) -> bool {
    &&& z.id == id
    &&& z.start_lba == start_lba
    &&& z.size == size
    &&& z.write_pointer == 0
    &&& z.state == ZoneState::Empty
    &&& z.condition == ZoneCondition::Good
    &&& z.reset_count == 0
    &&& z.stripes_written == 0
    &&& z.valid_stripes == 0
    &&& z.device_id@ == device
}

/// Zone `i` is the first with room for `req` bytes.
pub open spec fn is_first_fit(zones: Seq<Zone>, req: u64, i: int) -> bool {
    &&& 0 <= i < zones.len()
    &&& zone_has_space(zones[i], req)
    &&& forall|j: int| 0 <= j < i ==> !zone_has_space(#[trigger] zones[j], req)
}

/// Zone `i` has the most room among the zones with room for `req` bytes,
/// and is the last such zone.
pub open spec fn is_best_fit(zones: Seq<Zone>, req: u64, i: int) -> bool {
    &&& 0 <= i < zones.len()
    &&& zone_has_space(zones[i], req)
    &&& forall|j: int| 0 <= j < zones.len() && zone_has_space(#[trigger] zones[j], req) ==> zone_remaining(zones[j])
        <= zone_remaining(zones[i])
    &&& forall|j: int| i < j < zones.len() && zone_has_space(#[trigger] zones[j], req) ==> zone_remaining(zones[j])
        < zone_remaining(zones[i])
}

/// Starting from zone `s` and wrapping around, the `k`-th zone is the first
/// with room for `req` bytes.
pub open spec fn is_round_robin_step(zones: Seq<Zone>, req: u64, s: int, k: int) -> bool {
    &&& 0 <= k < zones.len()
    &&& zone_has_space(zones[(s + k) % (zones.len() as int)], req)
    &&& forall|j: int| 0 <= j < k ==> !zone_has_space(#[trigger] zones[(s + j) % (zones.len() as int)], req)
}

/// Number of open zones on device `device`.
pub open spec fn open_on_device(zones: Seq<Zone>, device: Seq<char>) -> nat {
    zones.filter(|z: Zone| z.state == ZoneState::Open && z.device_id@ == device).len()
}

/// Zone `i` has room for `req` bytes and its device has the fewest open
/// zones among such zones; it is the first such zone.
pub open spec fn is_device_balanced(zones: Seq<Zone>, req: u64, i: int) -> bool {
    &&& 0 <= i < zones.len()
    &&& zone_has_space(zones[i], req)
    &&& forall|j: int| 0 <= j < zones.len() && zone_has_space(#[trigger] zones[j], req) ==> open_on_device(
        zones,
        zones[i].device_id@,
    ) <= open_on_device(zones, zones[j].device_id@)
    &&& forall|j: int| 0 <= j < i && zone_has_space(#[trigger] zones[j], req) ==> open_on_device(
        zones,
        zones[i].device_id@,
    ) < open_on_device(zones, zones[j].device_id@)
}

/// Whether some zone has room for `req` bytes.
pub open spec fn any_has_space(zones: Seq<Zone>, req: u64) -> bool {
    exists|j: int| 0 <= j < zones.len() && zone_has_space(#[trigger] zones[j], req)
}

/// The ids without `id`, in order.
pub open spec fn without_id(ids: Seq<u64>, id: u64) -> Seq<u64> {
    ids.filter(|x: u64| x != id)
}

/// Message naming a zone (`format!`).
#[verifier::external_body]
fn zone_message(prefix: &str, zone_id: u64, suffix: &str) -> String {
    format!("{}{}{}", prefix, zone_id, suffix)
}

/// Allocator for managing zone assignments. Zone `i` has id `i`.
#[derive(Debug)]
pub struct ZoneAllocator {
    config: ZnsConfig,
    zones: Vec<Zone>,
    open_zone_ids: Vec<u64>,
    next_zone_hint: u64,
    strategy: ZoneSelectionStrategy,
    stats: ZnsStats,
}

impl ZoneAllocator {
    /// All managed zones; zone `i` has id `i`.
    pub closed spec fn zones(&self) -> Seq<Zone> {
        self.zones@
    }

    /// Ids of the zones opened for writing, in the order they were opened.
    pub closed spec fn open_ids(&self) -> Seq<u64> {
        self.open_zone_ids@
    }

    /// Round-robin position.
    pub closed spec fn hint(&self) -> u64 {
        self.next_zone_hint
    }

    /// Selection strategy.
    pub closed spec fn strategy_spec(&self) -> ZoneSelectionStrategy {
        self.strategy
    }

    /// Configuration.
    pub closed spec fn config_spec(&self) -> ZnsConfig {
        self.config
    }

    /// Counters.
    pub closed spec fn stats_spec(&self) -> ZnsStats {
        self.stats
    }

    /// The configuration is valid, zone `i` has id `i`, and the zone counters
    /// match the zones.
    pub open spec fn wf(&self) -> bool {
        &&& zns_config_valid(self.config_spec())
        &&& forall|i: int| 0 <= i < self.zones().len() ==> (#[trigger] self.zones()[i]).id == i
        &&& counts_synced(self.stats_spec(), self.zones())
    }

    /// An allocator with no zones; fails on an invalid configuration.
    pub fn new(config: ZnsConfig, strategy: ZoneSelectionStrategy) -> (r: Result<ZoneAllocator>)
        ensures
            r is Ok <==> zns_config_valid(config),
            r matches Err(e) ==> e is InvalidEcConfig,
            r matches Ok(a) ==> {
                &&& a.wf()
                &&& a.zones() == Seq::<Zone>::empty()
                &&& a.open_ids() == Seq::<u64>::empty()
                &&& a.hint() == 0
                &&& a.strategy_spec() == strategy
                &&& a.config_spec() == config
                &&& a.stats_spec() == ZnsStats::new_spec()
            },
    {
        match config.validate() {
            Ok(()) => {},
            Err(e) => return Err(e),
        }
        let r = ZoneAllocator {
            config,
            zones: Vec::new(),
            open_zone_ids: Vec::new(),
            next_zone_hint: 0,
            strategy,
            stats: ZnsStats::new(),
        };
        proof {
            reveal(Seq::filter);
        }
        Ok(r)
    }

    /// Recomputes the zone counters from the zones.
    fn update_stats(&mut self)
        ensures
            stats_with_counts(final(self).stats, old(self).stats, old(self).zones@),
            final(self).zones == old(self).zones,
            final(self).open_zone_ids == old(self).open_zone_ids,
            final(self).next_zone_hint == old(self).next_zone_hint,
            final(self).strategy == old(self).strategy,
            final(self).config == old(self).config,
    {
        let mut open: u64 = 0;
        let mut full: u64 = 0;
        let mut empty: u64 = 0;
        let mut i: usize = 0;
        while i < self.zones.len()
            invariant
                0 <= i <= self.zones@.len(),
                open == state_count(self.zones@.subrange(0, i as int), ZoneState::Open),
                full == state_count(self.zones@.subrange(0, i as int), ZoneState::Full),
                empty == state_count(self.zones@.subrange(0, i as int), ZoneState::Empty),
                open + full + empty <= i,
            decreases self.zones@.len() - i,
        {
            proof {
                reveal(Seq::filter);
                assert(self.zones@.subrange(0, i + 1).drop_last() =~= self.zones@.subrange(0, i as int));
            }
            match self.zones[i].state {
                ZoneState::Open => open += 1,
                ZoneState::Full => full += 1,
                ZoneState::Empty => empty += 1,
                _ => {},
            }
            i += 1;
        }
        assert(self.zones@.subrange(0, self.zones@.len() as int) =~= self.zones@);
        let total = self.zones.len() as u64;
        self.stats.update_zone_counts(open, full, empty, total);
    }

    /// Registers `num_zones` zones of the configured size for a device:
    /// they get the next ids and start at LBA `i * zone_size`.
    pub fn register_device(&mut self, device_id: &str, num_zones: u64)
        requires
            old(self).wf(),
            old(self).zones().len() + num_zones <= usize::MAX,
            old(self).zones().len() + num_zones <= u64::MAX,
            num_zones * old(self).config_spec().zone_size <= u64::MAX + old(self).config_spec().zone_size,
        ensures
            final(self).wf(),
            final(self).zones().len() == old(self).zones().len() + num_zones,
            final(self).zones().subrange(0, old(self).zones().len() as int) == old(self).zones(),
            forall|i: int| 0 <= i < num_zones ==> fresh_zone(
                #[trigger] final(self).zones()[old(self).zones().len() + i],
                old(self).zones().len() + i,
                i * old(self).config_spec().zone_size,
                old(self).config_spec().zone_size,
                device_id@,
            ),
            final(self).open_ids() == old(self).open_ids(),
            final(self).hint() == old(self).hint(),
            final(self).strategy_spec() == old(self).strategy_spec(),
            final(self).config_spec() == old(self).config_spec(),
            stats_with_counts(final(self).stats_spec(), old(self).stats_spec(), final(self).zones()),
    {
        let zone_size = self.config.zone_size;
        let base = self.zones.len();
        let mut i: u64 = 0;
        while i < num_zones
            invariant
                base == old(self).zones().len(),
                zone_size == self.config.zone_size,
                zone_size > 0,
                self.config == old(self).config,
                base + num_zones <= usize::MAX,
                base + num_zones <= u64::MAX,
                num_zones * zone_size <= u64::MAX + zone_size,
                0 <= i <= num_zones,
                self.zones@.len() == base + i,
                self.zones@.subrange(0, base as int) == old(self).zones(),
                forall|j: int| 0 <= j < self.zones@.len() ==> (#[trigger] self.zones@[j]).id == j,
                forall|j: int| 0 <= j < i ==> fresh_zone(
                    #[trigger] self.zones@[base + j],
                    base + j,
                    j * zone_size,
                    zone_size,
                    device_id@,
                ),
                self.open_zone_ids == old(self).open_zone_ids,
                self.next_zone_hint == old(self).next_zone_hint,
                self.strategy == old(self).strategy,
                self.stats == old(self).stats,
            decreases num_zones - i,
        {
            let zone_id = self.zones.len() as u64;
            proof {
                assert(i * zone_size < num_zones * zone_size) by (nonlinear_arith)
                    requires
                        i < num_zones,
                        zone_size > 0,
                ;
                assert(i * zone_size <= u64::MAX) by (nonlinear_arith)
                    requires
                        i < num_zones,
                        num_zones * zone_size <= u64::MAX + zone_size,
                        zone_size > 0,
                {
                    assert((i + 1) * zone_size <= num_zones * zone_size);
                }
            }
            let start_lba = i * zone_size;
            let zone = Zone::new(zone_id, start_lba, zone_size, device_id);
            self.zones.push(zone);
            assert(self.zones@.subrange(0, base as int) =~= old(self).zones());
            i += 1;
        }
        self.update_stats();
    }
}

impl ZnsStats {
    /// All counters at zero.
    pub open spec fn new_spec() -> ZnsStats {
        ZnsStats {
            total_zones: 0,
            open_zones: 0,
            full_zones: 0,
            empty_zones: 0,
            writes_total: 0,
            bytes_written: 0,
            resets_total: 0,
            bytes_reclaimed: 0,
            padding_bytes: 0,
            allocation_failures: 0,
        }
    }
}

/// Whether zone `i` is the one the allocator's strategy picks for `req`
/// bytes (round-robin starts at the position `hint` modulo the zone count).
pub open spec fn picks_zone(
    strategy: ZoneSelectionStrategy,
    zones: Seq<Zone>,
    hint: u64,
    req: u64,
    i: int,
) -> bool {
    match strategy {
        ZoneSelectionStrategy::FirstFit => is_first_fit(zones, req, i),
        ZoneSelectionStrategy::BestFit => is_best_fit(zones, req, i),
        ZoneSelectionStrategy::RoundRobin => zones.len() > 0 && exists|k: int|
            #[trigger] is_round_robin_step(zones, req, (hint % (zones.len() as u64)) as int, k) && i == ((hint % (
            zones.len() as u64)) + k) % (zones.len() as int),
        ZoneSelectionStrategy::DeviceBalanced => is_device_balanced(zones, req, i),
    }
}

/// The round-robin position after a selection.
pub open spec fn hint_after(strategy: ZoneSelectionStrategy, zones: Seq<Zone>, hint: u64) -> u64 {
    if strategy == ZoneSelectionStrategy::RoundRobin && zones.len() > 0 {
        add_wrap(hint, 1)
    } else {
        hint
    }
}

/// What allocating a zone for `req` bytes does: refused at the open-zone
/// limit or when no zone has room (each refusal counted), otherwise the zone
/// the strategy picks is opened and its id recorded.
pub open spec fn allocation_outcome(before: ZoneAllocator, after: ZoneAllocator, req: u64, r: Result<Zone>) -> bool {
    &&& before.open_ids().len() >= before.config_spec().max_open_zones ==> {
        &&& r matches Err(Error::Internal(_))
        &&& after.zones() == before.zones()
        &&& after.open_ids() == before.open_ids()
        &&& after.hint() == before.hint()
        &&& after.stats_spec() == (ZnsStats {
            allocation_failures: add_wrap(before.stats_spec().allocation_failures, 1),
            ..before.stats_spec()
        })
    }
    &&& before.open_ids().len() < before.config_spec().max_open_zones ==> {
        &&& after.hint() == hint_after(before.strategy_spec(), before.zones(), before.hint())
        &&& (r is Ok <==> any_has_space(before.zones(), req))
        &&& r is Err ==> {
            &&& r matches Err(Error::Internal(_))
            &&& after.zones() == before.zones()
            &&& after.open_ids() == before.open_ids()
            &&& after.stats_spec() == (ZnsStats {
                allocation_failures: add_wrap(before.stats_spec().allocation_failures, 1),
                ..before.stats_spec()
            })
        }
        &&& r matches Ok(z) ==> exists|i: int|
            #[trigger] picks_zone(
                before.strategy_spec(),
                before.zones(),
                before.hint(),
                req,
                i,
            ) && z == (Zone { state: ZoneState::Open, ..before.zones()[i] }) && after.zones()
                == before.zones().update(i, z) && after.open_ids() == before.open_ids().push(
                i as u64,
            ) && stats_with_counts(after.stats_spec(), before.stats_spec(), after.zones())
    }
}

impl ZoneAllocator {
    fn select_first_fit(&self, req: u64) -> (r: Option<usize>)
        ensures
            r matches Some(i) ==> is_first_fit(self.zones@, req, i as int),
            r is None ==> !any_has_space(self.zones@, req),
    {
        let mut i: usize = 0;
        while i < self.zones.len()
            invariant
                0 <= i <= self.zones@.len(),
                forall|j: int| 0 <= j < i ==> !zone_has_space(#[trigger] self.zones@[j], req),
            decreases self.zones@.len() - i,
        {
            if self.zones[i].has_space(req) {
                return Some(i);
            }
            i += 1;
        }
        None
    }

    fn select_best_fit(&self, req: u64) -> (r: Option<usize>)
        ensures
            r matches Some(i) ==> is_best_fit(self.zones@, req, i as int),
            r is None ==> !any_has_space(self.zones@, req),
    {
        let mut best: Option<usize> = None;
        let mut i: usize = 0;
        while i < self.zones.len()
            invariant
                0 <= i <= self.zones@.len(),
                best is None ==> forall|j: int| 0 <= j < i ==> !zone_has_space(#[trigger] self.zones@[j], req),
                best matches Some(b) ==> {
                    &&& b < i
                    &&& zone_has_space(self.zones@[b as int], req)
                    &&& forall|j: int| 0 <= j < i && zone_has_space(#[trigger] self.zones@[j], req) ==> zone_remaining(
                        self.zones@[j],
                    ) <= zone_remaining(self.zones@[b as int])
                    &&& forall|j: int| b < j < i && zone_has_space(#[trigger] self.zones@[j], req) ==> zone_remaining(
                        self.zones@[j],
                    ) < zone_remaining(self.zones@[b as int])
                },
            decreases self.zones@.len() - i,
        {
            if self.zones[i].has_space(req) {
                match best {
                    None => {
                        best = Some(i);
                    },
                    Some(b) => {
                        if self.zones[i].remaining_space() >= self.zones[b].remaining_space() {
                            best = Some(i);
                        }
                    },
                }
            }
            i += 1;
        }
        best
    }

    fn select_round_robin(&mut self, req: u64) -> (r: Option<usize>)
        ensures
            final(self).zones == old(self).zones,
            final(self).open_zone_ids == old(self).open_zone_ids,
            final(self).strategy == old(self).strategy,
            final(self).config == old(self).config,
            final(self).stats == old(self).stats,
            final(self).next_zone_hint == if old(self).zones@.len() > 0 {
                add_wrap(old(self).next_zone_hint, 1)
            } else {
                old(self).next_zone_hint
            },
            r matches Some(i) ==> picks_zone(
                ZoneSelectionStrategy::RoundRobin,
                old(self).zones@,
                old(self).next_zone_hint,
                req,
                i as int,
            ),
            r is None ==> !any_has_space(old(self).zones@, req),
    {
        let n = self.zones.len();
        if n == 0 {
            return None;
        }
        let total = n as u64;
        let start = (self.next_zone_hint % total) as usize;
        self.next_zone_hint = self.next_zone_hint.wrapping_add(1);
        let ghost zs = self.zones@;
        let mut k: usize = 0;
        while k < n
            invariant
                n == zs.len(),
                total == n,
                n > 0,
                start < n,
                self.zones@ == zs,
                self.zones == old(self).zones,
                self.open_zone_ids == old(self).open_zone_ids,
                self.strategy == old(self).strategy,
                self.config == old(self).config,
                self.stats == old(self).stats,
                self.next_zone_hint == add_wrap(old(self).next_zone_hint, 1),
                start == old(self).next_zone_hint % (n as u64),
                0 <= k <= n,
                forall|j: int| 0 <= j < k ==> !zone_has_space(#[trigger] zs[(start + j) % (n as int)], req),
            decreases n - k,
        {
            let id = if k < n - start { start + k } else { k - (n - start) };
            proof {
                if k < n - start {
                    vstd::arithmetic::div_mod::lemma_small_mod((start + k) as nat, n as nat);
                } else {
                    vstd::arithmetic::div_mod::lemma_fundamental_div_mod_converse(
                        (start + k) as int,
                        n as int,
                        1,
                        (k - (n - start)) as int,
                    );
                }
            }
            if self.zones[id].has_space(req) {
                proof {
                    assert(is_round_robin_step(zs, req, start as int, k as int));
                }
                return Some(id);
            }
            k += 1;
        }
        proof {
            assert forall|j: int| 0 <= j < n implies !zone_has_space(#[trigger] zs[j], req) by {
                let kk = if j >= start { j - start } else { j + n - start };
                if j >= start {
                    vstd::arithmetic::div_mod::lemma_small_mod(j as nat, n as nat);
                } else {
                    vstd::arithmetic::div_mod::lemma_fundamental_div_mod_converse(j + n, n as int, 1, j);
                }
                assert((start + kk) % (n as int) == j);
                assert(!zone_has_space(zs[(start + kk) % (n as int)], req));
            }
        }
        None
    }

    /// Number of open zones on the device of zone `i`.
    fn open_count_on_device(&self, device: &String) -> (r: usize)
        ensures
            r == open_on_device(self.zones@, device@),
    {
        let mut count: usize = 0;
        let mut j: usize = 0;
        while j < self.zones.len()
            invariant
                0 <= j <= self.zones@.len(),
                count == self.zones@.subrange(0, j as int).filter(
                    |z: Zone| z.state == ZoneState::Open && z.device_id@ == device@,
                ).len(),
                count <= j,
            decreases self.zones@.len() - j,
        {
            proof {
                reveal(Seq::filter);
                assert(self.zones@.subrange(0, j + 1).drop_last() =~= self.zones@.subrange(0, j as int));
            }
            if self.zones[j].state == ZoneState::Open && self.zones[j].device_id == *device {
                count += 1;
            }
            j += 1;
        }
        assert(self.zones@.subrange(0, self.zones@.len() as int) =~= self.zones@);
        count
    }

    fn select_device_balanced(&self, req: u64) -> (r: Option<usize>)
        ensures
            r matches Some(i) ==> is_device_balanced(self.zones@, req, i as int),
            r is None ==> !any_has_space(self.zones@, req),
    {
        let mut best: Option<(usize, usize)> = None;
        let mut i: usize = 0;
        while i < self.zones.len()
            invariant
                0 <= i <= self.zones@.len(),
                best is None ==> forall|j: int| 0 <= j < i ==> !zone_has_space(#[trigger] self.zones@[j], req),
                best matches Some(bc) ==> {
                    let b = bc.0 as int;
                    &&& b < i
                    &&& bc.1 == open_on_device(self.zones@, self.zones@[b].device_id@)
                    &&& zone_has_space(self.zones@[b], req)
                    &&& forall|j: int| 0 <= j < i && zone_has_space(#[trigger] self.zones@[j], req) ==> bc.1
                        <= open_on_device(self.zones@, self.zones@[j].device_id@)
                    &&& forall|j: int| 0 <= j < b && zone_has_space(#[trigger] self.zones@[j], req) ==> bc.1
                        < open_on_device(self.zones@, self.zones@[j].device_id@)
                },
            decreases self.zones@.len() - i,
        {
            if self.zones[i].has_space(req) {
                let count = self.open_count_on_device(&self.zones[i].device_id);
                match best {
                    None => {
                        best = Some((i, count));
                    },
                    Some((b, bc)) => {
                        if count < bc {
                            best = Some((i, count));
                        }
                    },
                }
            }
            i += 1;
        }
        match best {
            Some((b, _)) => Some(b),
            None => None,
        }
    }

    /// Opens a zone for a write of `required_space` bytes, chosen by the
    /// allocator's strategy. Fails when the open-zone limit is reached or no
    /// zone has room; each failure is counted.
    pub fn allocate_zone(&mut self, required_space: u64) -> (r: Result<Zone>)
        requires
            old(self).wf(),
        ensures
            final(self).wf(),
            final(self).strategy_spec() == old(self).strategy_spec(),
            final(self).config_spec() == old(self).config_spec(),
            allocation_outcome(*old(self), *final(self), required_space, r),
    {
        if self.open_zone_ids.len() >= self.config.max_open_zones {
            self.stats.record_allocation_failure();
            return Err(Error::Internal(zone_message("Max open zones reached: ", self.config.max_open_zones as u64, "")));
        }
        let choice = match self.strategy {
            ZoneSelectionStrategy::FirstFit => self.select_first_fit(required_space),
            ZoneSelectionStrategy::BestFit => self.select_best_fit(required_space),
            ZoneSelectionStrategy::RoundRobin => self.select_round_robin(required_space),
            ZoneSelectionStrategy::DeviceBalanced => self.select_device_balanced(required_space),
        };
        match choice {
            Some(i) => {
                proof {
                    assert(zone_has_space(old(self).zones@[i as int], required_space));
                    assert(picks_zone(self.strategy, old(self).zones@, old(self).next_zone_hint, required_space, i as int));
                }
                let mut z = self.zones[i].duplicate();
                z.state = ZoneState::Open;
                let zone_id = z.id;
                self.zones.set(i, z.duplicate());
                self.open_zone_ids.push(zone_id);
                proof {
                    assert forall|j: int| 0 <= j < self.zones@.len() implies (#[trigger] self.zones@[j]).id == j by {
                        if j != i {
                            assert(self.zones@[j] == old(self).zones@[j]);
                        }
                    }
                }
                self.update_stats();
                proof {
                    let ii = i as int;
                    assert(z == (Zone { state: ZoneState::Open, ..old(self).zones@[ii] }));
                    assert(self.zones@ == old(self).zones@.update(ii, z));
                    assert(self.open_zone_ids@ == old(self).open_zone_ids@.push(ii as u64));
                    assert(stats_with_counts(self.stats, old(self).stats, self.zones@));
                    assert(picks_zone(old(self).strategy, old(self).zones@, old(self).next_zone_hint, required_space, ii));
                    assert(self.next_zone_hint == hint_after(old(self).strategy, old(self).zones@, old(self).next_zone_hint));
                    assert(any_has_space(old(self).zones(), required_space));
                    assert(picks_zone(old(self).strategy_spec(), old(self).zones(), old(self).hint(), required_space, ii));
                    assert(self.zones() == old(self).zones().update(ii, z));
                    assert(self.open_ids() == old(self).open_ids().push(ii as u64));
                    assert(stats_with_counts(self.stats_spec(), old(self).stats_spec(), self.zones()));
                    assert(z == (Zone { state: ZoneState::Open, ..old(self).zones()[ii] }));
                    assert(exists|i: int|
                        #[trigger] picks_zone(
                            old(self).strategy_spec(),
                            old(self).zones(),
                            old(self).hint(),
                            required_space,
                            i,
                        ) && z == (Zone { state: ZoneState::Open, ..old(self).zones()[i] }) && self.zones()
                            == old(self).zones().update(i, z) && self.open_ids() == old(self).open_ids().push(
                            i as u64,
                        ) && stats_with_counts(self.stats_spec(), old(self).stats_spec(), self.zones()));
                }
                Ok(z)
            },
            None => {
                self.stats.record_allocation_failure();
                Err(Error::Internal("No suitable zone available for allocation".to_owned()))
            },
        }
    }
}

/// Position `k` of the open ids is the first whose zone has room for `req` bytes.
pub open spec fn first_open_with_space(zones: Seq<Zone>, open_ids: Seq<u64>, req: u64, k: int) -> bool {
    &&& 0 <= k < open_ids.len()
    &&& open_ids[k] < zones.len()
    &&& zone_has_space(zones[open_ids[k] as int], req)
    &&& forall|j: int| 0 <= j < k ==> !((#[trigger] open_ids[j]) < zones.len() && zone_has_space(zones[open_ids[j] as int], req))
}

/// The zone after a write of `bytes` bytes plus `padding`: the write pointer
/// advances, one more (valid) stripe, and the zone is full once less than
/// `alignment` bytes remain.
pub open spec fn zone_after_write(z: Zone, bytes: u64, padding: u64, alignment: u64) -> Zone {
    let z1 = Zone {
        write_pointer: (z.write_pointer + bytes + padding) as u64,
        stripes_written: (z.stripes_written + 1) as u64,
        valid_stripes: (z.valid_stripes + 1) as u64,
        ..z
    };
    if write_fills_zone(z, bytes, padding, alignment) {
        Zone { state: ZoneState::Full, ..z1 }
    } else {
        z1
    }
}

/// Whether less than `alignment` bytes remain in the zone after the write.
pub open spec fn write_fills_zone(z: Zone, bytes: u64, padding: u64, alignment: u64) -> bool {
    zone_remaining(Zone { write_pointer: (z.write_pointer + bytes + padding) as u64, ..z }) < alignment
}

/// The ids without `id`.
fn remove_id(ids: &Vec<u64>, id: u64) -> (r: Vec<u64>)
    ensures
        r@ == without_id(ids@, id),
{
    let mut out: Vec<u64> = Vec::new();
    let mut i: usize = 0;
    while i < ids.len()
        invariant
            0 <= i <= ids@.len(),
            out@ == without_id(ids@.subrange(0, i as int), id),
        decreases ids@.len() - i,
    {
        proof {
            reveal(Seq::filter);
            assert(ids@.subrange(0, i + 1).drop_last() =~= ids@.subrange(0, i as int));
        }
        if ids[i] != id {
            out.push(ids[i]);
        }
        i += 1;
    }
    assert(ids@.subrange(0, ids@.len() as int) =~= ids@);
    out
}

impl ZoneAllocator {
    /// An open zone with room for `required_space` bytes, the first in
    /// opening order; without one, a zone is allocated (see `allocate_zone`).
    pub fn get_or_allocate_zone(&mut self, required_space: u64) -> (r: Result<Zone>)
        requires
            old(self).wf(),
        ensures
            final(self).wf(),
            final(self).strategy_spec() == old(self).strategy_spec(),
            final(self).config_spec() == old(self).config_spec(),
            (exists|k: int| first_open_with_space(old(self).zones(), old(self).open_ids(), required_space, k)) ==> {
                &&& exists|k: int|
                    #[trigger] first_open_with_space(old(self).zones(), old(self).open_ids(), required_space, k)
                        && r == Ok::<Zone, Error>(old(self).zones()[old(self).open_ids()[k] as int])
                &&& *final(self) == *old(self)
            },
            !(exists|k: int| first_open_with_space(old(self).zones(), old(self).open_ids(), required_space, k))
                ==> allocation_outcome(*old(self), *final(self), required_space, r),
    {
        let mut k: usize = 0;
        while k < self.open_zone_ids.len()
            invariant
                old(self).wf(),
                self.zones == old(self).zones,
                self.open_zone_ids == old(self).open_zone_ids,
                self.next_zone_hint == old(self).next_zone_hint,
                self.strategy == old(self).strategy,
                self.config == old(self).config,
                self.stats == old(self).stats,
                0 <= k <= self.open_zone_ids@.len(),
                forall|j: int| 0 <= j < k ==> !((#[trigger] self.open_zone_ids@[j]) < self.zones@.len() && zone_has_space(
                    self.zones@[self.open_zone_ids@[j] as int],
                    required_space,
                )),
            decreases self.open_zone_ids@.len() - k,
        {
            let id = self.open_zone_ids[k];
            if id < self.zones.len() as u64 && self.zones[id as usize].has_space(required_space) {
                proof {
                    assert(first_open_with_space(self.zones@, self.open_zone_ids@, required_space, k as int));
                }
                return Ok(self.zones[id as usize].duplicate());
            }
            k += 1;
        }
        proof {
            if exists|kk: int| first_open_with_space(self.zones@, self.open_zone_ids@, required_space, kk) {
                let kk = choose|kk: int| first_open_with_space(self.zones@, self.open_zone_ids@, required_space, kk);
                assert(!(self.open_zone_ids@[kk] < self.zones@.len() && zone_has_space(
                    self.zones@[self.open_zone_ids@[kk] as int],
                    required_space,
                )));
            }
        }
        self.allocate_zone(required_space)
    }

    /// Records a write of `bytes_written` bytes plus `padding` to a zone:
    /// the write pointer advances and the zone counts one more valid
    /// stripe; once less than the write alignment remains the zone is full
    /// and no longer open. Returns the updated zone; an unknown zone is an
    /// error.
    pub fn record_write(&mut self, zone_id: u64, bytes_written: u64, padding: u64) -> (r: Result<Zone>)
        requires
            old(self).wf(),
            zone_id < old(self).zones().len() ==> {
                let z = old(self).zones()[zone_id as int];
                &&& z.write_pointer + bytes_written + padding <= u64::MAX
                &&& z.stripes_written < u64::MAX
                &&& z.valid_stripes < u64::MAX
            },
        ensures
            final(self).wf(),
            final(self).hint() == old(self).hint(),
            final(self).strategy_spec() == old(self).strategy_spec(),
            final(self).config_spec() == old(self).config_spec(),
            zone_id >= old(self).zones().len() ==> (r matches Err(Error::Internal(_)) && *final(self) == *old(self)),
            zone_id < old(self).zones().len() ==> {
                let z = zone_after_write(
                    old(self).zones()[zone_id as int],
                    bytes_written,
                    padding,
                    old(self).config_spec().write_alignment,
                );
                &&& r == Ok::<Zone, Error>(z)
                &&& final(self).zones() == old(self).zones().update(zone_id as int, z)
                &&& final(self).open_ids() == if write_fills_zone(
                    old(self).zones()[zone_id as int],
                    bytes_written,
                    padding,
                    old(self).config_spec().write_alignment,
                ) {
                    without_id(old(self).open_ids(), zone_id)
                } else {
                    old(self).open_ids()
                }
                &&& stats_with_counts(
                    final(self).stats_spec(),
                    ZnsStats {
                        writes_total: add_wrap(old(self).stats_spec().writes_total, 1),
                        bytes_written: add_wrap(old(self).stats_spec().bytes_written, bytes_written),
                        padding_bytes: add_wrap(old(self).stats_spec().padding_bytes, padding),
                        ..old(self).stats_spec()
                    },
                    final(self).zones(),
                )
            },
    {
        if zone_id >= self.zones.len() as u64 {
            return Err(Error::Internal(zone_message("Zone ", zone_id, " not found")));
        }
        let idx = zone_id as usize;
        let mut zone = self.zones[idx].duplicate();
        zone.write_pointer = zone.write_pointer + bytes_written + padding;
        zone.stripes_written = zone.stripes_written + 1;
        zone.valid_stripes = zone.valid_stripes + 1;
        if zone.remaining_space() < self.config.write_alignment {
            zone.state = ZoneState::Full;
            self.open_zone_ids = remove_id(&self.open_zone_ids, zone_id);
        }
        self.zones.set(idx, zone.duplicate());
        proof {
            assert forall|j: int| 0 <= j < self.zones@.len() implies (#[trigger] self.zones@[j]).id == j by {
                if j != idx {
                    assert(self.zones@[j] == old(self).zones@[j]);
                }
            }
        }
        self.stats.record_write(bytes_written, padding);
        self.update_stats();
        Ok(zone)
    }

    /// Marks one stripe of a zone as garbage (the valid count does not go
    /// below zero); an unknown zone is an error.
    pub fn invalidate_stripe(&mut self, zone_id: u64) -> (r: Result<()>)
        requires
            old(self).wf(),
        ensures
            final(self).wf(),
            final(self).open_ids() == old(self).open_ids(),
            final(self).hint() == old(self).hint(),
            final(self).strategy_spec() == old(self).strategy_spec(),
            final(self).config_spec() == old(self).config_spec(),
            final(self).stats_spec() == old(self).stats_spec(),
            zone_id >= old(self).zones().len() ==> (r matches Err(Error::Internal(_)) && final(self).zones() == old(self).zones()),
            zone_id < old(self).zones().len() ==> {
                let z = old(self).zones()[zone_id as int];
                &&& r is Ok
                &&& final(self).zones() == old(self).zones().update(
                    zone_id as int,
                    Zone {
                        valid_stripes: if z.valid_stripes > 0 {
                            (z.valid_stripes - 1) as u64
                        } else {
                            0
                        },
                        ..z
                    },
                )
            },
    {
        if zone_id >= self.zones.len() as u64 {
            return Err(Error::Internal(zone_message("Zone ", zone_id, " not found")));
        }
        let idx = zone_id as usize;
        let mut zone = self.zones[idx].duplicate();
        zone.valid_stripes = zone.valid_stripes.saturating_sub(1);
        self.zones.set(idx, zone);
        proof {
            assert forall|j: int| 0 <= j < self.zones@.len() implies (#[trigger] self.zones@[j]).id == j by {
                if j != idx {
                    assert(self.zones@[j] == old(self).zones@[j]);
                }
            }
            reveal(Seq::filter);
            assert(state_count(self.zones@, ZoneState::Open) == state_count(old(self).zones@, ZoneState::Open)) by {
                lemma_state_count_same(old(self).zones@, self.zones@, ZoneState::Open);
            }
            lemma_state_count_same(old(self).zones@, self.zones@, ZoneState::Full);
            lemma_state_count_same(old(self).zones@, self.zones@, ZoneState::Empty);
        }
        Ok(())
    }

    /// Resets a zone (erasing its data): the write pointer goes back to
    /// zero, the zone is empty again with no stripes, its reset count goes
    /// up and it is no longer open. Returns the bytes reclaimed (the old
    /// write pointer). An unknown zone, or one offline or resetting, is an
    /// error.
    pub fn reset_zone(&mut self, zone_id: u64) -> (r: Result<u64>)
        requires
            old(self).wf(),
            zone_id < old(self).zones().len() ==> old(self).zones()[zone_id as int].reset_count < u64::MAX,
        ensures
            final(self).wf(),
            final(self).hint() == old(self).hint(),
            final(self).strategy_spec() == old(self).strategy_spec(),
            final(self).config_spec() == old(self).config_spec(),
            zone_id >= old(self).zones().len() ==> (r matches Err(Error::Internal(_)) && *final(self) == *old(self)),
            zone_id < old(self).zones().len() ==> {
                let z = old(self).zones()[zone_id as int];
                let can_reset = z.state == ZoneState::Full || z.state == ZoneState::Closed || z.state
                    == ZoneState::Open || z.state == ZoneState::Empty;
                &&& !can_reset ==> (r matches Err(Error::Internal(_)) && *final(self) == *old(self))
                &&& can_reset ==> {
                    &&& r == Ok::<u64, Error>(z.write_pointer)
                    &&& final(self).zones() == old(self).zones().update(
                        zone_id as int,
                        Zone {
                            write_pointer: 0,
                            state: ZoneState::Empty,
                            reset_count: (z.reset_count + 1) as u64,
                            stripes_written: 0,
                            valid_stripes: 0,
                            ..z
                        },
                    )
                    &&& final(self).open_ids() == without_id(old(self).open_ids(), zone_id)
                    &&& stats_with_counts(
                        final(self).stats_spec(),
                        ZnsStats {
                            resets_total: add_wrap(old(self).stats_spec().resets_total, 1),
                            bytes_reclaimed: add_wrap(old(self).stats_spec().bytes_reclaimed, z.write_pointer),
                            ..old(self).stats_spec()
                        },
                        final(self).zones(),
                    )
                }
            },
    {
        if zone_id >= self.zones.len() as u64 {
            return Err(Error::Internal(zone_message("Zone ", zone_id, " not found")));
        }
        let idx = zone_id as usize;
        if !self.zones[idx].state.can_reset() {
            return Err(Error::Internal(zone_message("Zone ", zone_id, " cannot be reset in its current state")));
        }
        let mut zone = self.zones[idx].duplicate();
        let reclaimed = zone.write_pointer;
        zone.write_pointer = 0;
        zone.state = ZoneState::Empty;
        zone.reset_count = zone.reset_count + 1;
        zone.stripes_written = 0;
        zone.valid_stripes = 0;
        self.zones.set(idx, zone);
        self.open_zone_ids = remove_id(&self.open_zone_ids, zone_id);
        proof {
            assert forall|j: int| 0 <= j < self.zones@.len() implies (#[trigger] self.zones@[j]).id == j by {
                if j != idx {
                    assert(self.zones@[j] == old(self).zones@[j]);
                }
            }
        }
        self.stats.record_reset(reclaimed);
        self.update_stats();
        Ok(reclaimed)
    }

    /// The zone with id `zone_id`, if any.
    pub fn get_zone(&self, zone_id: u64) -> (r: Option<Zone>)
        ensures
            r == if zone_id < self.zones().len() {
                Some(self.zones()[zone_id as int])
            } else {
                None::<Zone>
            },
    {
        if zone_id < self.zones.len() as u64 {
            Some(self.zones[zone_id as usize].duplicate())
        } else {
            None
        }
    }

    /// All zones, by id.
    pub fn get_all_zones(&self) -> (r: Vec<Zone>)
        ensures
            r@ == self.zones(),
    {
        let mut out: Vec<Zone> = Vec::new();
        let mut i: usize = 0;
        while i < self.zones.len()
            invariant
                0 <= i <= self.zones@.len(),
                out@ == self.zones@.subrange(0, i as int),
            decreases self.zones@.len() - i,
        {
            out.push(self.zones[i].duplicate());
            assert(out@ =~= self.zones@.subrange(0, i + 1));
            i += 1;
        }
        assert(self.zones@.subrange(0, self.zones@.len() as int) =~= self.zones@);
        out
    }

    /// The counters.
    pub fn stats(&self) -> (r: ZnsStats)
        ensures
            r == self.stats_spec(),
    {
        self.stats
    }
}

/// Zones that keep their states keep the state counts.
proof fn lemma_state_count_same(a: Seq<Zone>, b: Seq<Zone>, s: ZoneState)
    requires
        a.len() == b.len(),
        forall|i: int| 0 <= i < a.len() ==> (#[trigger] a[i]).state == b[i].state,
    ensures
        state_count(a, s) == state_count(b, s),
    decreases a.len(),
{
    reveal(Seq::filter);
    if a.len() > 0 {
        lemma_state_count_same(a.drop_last(), b.drop_last(), s);
    }
}

// =============================================================================
// ZNS Manager
// =============================================================================

/// `size` rounded up to the power-of-two `alignment`: `(size + alignment - 1) & !(alignment - 1)`.
pub open spec fn align_up_u64(size: u64, alignment: u64) -> u64 {
    ((size + alignment - 1) as u64) & !((alignment - 1) as u64)
}

/// Whether appending a write of `aligned` bytes can find a zone: an open
/// zone with room, or room to open one more zone that has room.
pub open spec fn append_has_zone(a: ZoneAllocator, aligned: u64) -> bool {
    ||| exists|k: int| first_open_with_space(a.zones(), a.open_ids(), aligned, k)
    ||| (a.open_ids().len() < a.config_spec().max_open_zones && any_has_space(a.zones(), aligned))
}

/// Every zone's write position and counters stay within 64 bits.
pub open spec fn zones_in_range(zones: Seq<Zone>) -> bool {
    forall|i: int|
        0 <= i < zones.len() ==> {
            &&& (#[trigger] zones[i]).start_lba + zones[i].write_pointer <= u64::MAX
            &&& zones[i].stripes_written < u64::MAX
            &&& zones[i].valid_stripes < u64::MAX
        }
}

/// Manager for ZNS SSD operations: append-only writes, aligned to the
/// configured write alignment, into zones from its allocator.
#[derive(Debug)]
pub struct ZnsManager {
    config: ZnsConfig,
    allocator: ZoneAllocator,
}

impl ZnsManager {
    /// The configuration.
    pub closed spec fn config_spec(&self) -> ZnsConfig {
        self.config
    }

    /// The zone allocator.
    pub closed spec fn allocator_spec(&self) -> ZoneAllocator {
        self.allocator
    }

    /// The allocator is well formed and shares the configuration.
    pub open spec fn wf(&self) -> bool {
        &&& self.allocator_spec().wf()
        &&& self.allocator_spec().config_spec() == self.config_spec()
    }

    /// A manager with a round-robin allocator; fails on an invalid configuration.
    pub fn new(config: ZnsConfig) -> (r: Result<ZnsManager>)
        ensures
            r is Ok <==> zns_config_valid(config),
            r matches Err(e) ==> e is InvalidEcConfig,
            r matches Ok(m) ==> {
                &&& m.wf()
                &&& m.config_spec() == config
                &&& m.allocator_spec().zones() == Seq::<Zone>::empty()
                &&& m.allocator_spec().open_ids() == Seq::<u64>::empty()
                &&& m.allocator_spec().hint() == 0
                &&& m.allocator_spec().strategy_spec() == ZoneSelectionStrategy::RoundRobin
            },
    {
        match config.validate() {
            Ok(()) => {},
            Err(e) => return Err(e),
        }
        let allocator = match ZoneAllocator::new(config, ZoneSelectionStrategy::RoundRobin) {
            Ok(a) => a,
            Err(e) => return Err(e),
        };
        Ok(ZnsManager { config, allocator })
    }

    /// Whether ZNS is enabled.
    pub fn is_enabled(&self) -> (r: bool)
        ensures
            r == self.config_spec().enabled,
    {
        self.config.enabled
    }

    /// The zone size.
    pub fn zone_size(&self) -> (r: u64)
        ensures
            r == self.config_spec().zone_size,
    {
        self.config.zone_size
    }

    /// The write alignment.
    pub fn write_alignment(&self) -> (r: u64)
        ensures
            r == self.config_spec().write_alignment,
    {
        self.config.write_alignment
    }

    /// Registers a ZNS device with `num_zones` zones (see `ZoneAllocator::register_device`).
    pub fn register_device(&mut self, device_id: &str, num_zones: u64)
        requires
            old(self).wf(),
            old(self).allocator_spec().zones().len() + num_zones <= usize::MAX,
            old(self).allocator_spec().zones().len() + num_zones <= u64::MAX,
            num_zones * old(self).config_spec().zone_size <= u64::MAX + old(self).config_spec().zone_size,
        ensures
            final(self).wf(),
            final(self).config_spec() == old(self).config_spec(),
            final(self).allocator_spec().zones().len() == old(self).allocator_spec().zones().len() + num_zones,
            final(self).allocator_spec().zones().subrange(0, old(self).allocator_spec().zones().len() as int)
                == old(self).allocator_spec().zones(),
            forall|i: int| 0 <= i < num_zones ==> fresh_zone(
                #[trigger] final(self).allocator_spec().zones()[old(self).allocator_spec().zones().len() + i],
                old(self).allocator_spec().zones().len() + i,
                i * old(self).config_spec().zone_size,
                old(self).config_spec().zone_size,
                device_id@,
            ),
            final(self).allocator_spec().open_ids() == old(self).allocator_spec().open_ids(),
            final(self).allocator_spec().hint() == old(self).allocator_spec().hint(),
            final(self).allocator_spec().strategy_spec() == old(self).allocator_spec().strategy_spec(),
    {
        self.allocator.register_device(device_id, num_zones);
    }

    /// `size` rounded up to the write alignment.
    pub fn align_size(&self, size: u64) -> (r: u64)
        requires
            self.wf(),
            size + self.config_spec().write_alignment <= u64::MAX,
        ensures
            r == align_up_u64(size, self.config_spec().write_alignment),
            size <= r,
            r < size + self.config_spec().write_alignment,
            r & ((self.config_spec().write_alignment - 1) as u64) == 0,
    {
        let alignment = self.config.write_alignment;
        let y = size + alignment - 1;
        let m = alignment - 1;
        let r = y & !m;
        assert(r <= y && y - r <= m && r & m == 0) by (bit_vector)
            requires
                r == y & !m,
        ;
        r
    }

    /// Whether `size` is a multiple of the write alignment.
    pub fn is_aligned(&self, size: u64) -> (r: bool)
        requires
            self.wf(),
        ensures
            r == (size % self.config_spec().write_alignment == 0),
    {
        size % self.config.write_alignment == 0
    }

    /// The aligned stripe size for zone-friendly placement: the aligned
    /// size if it divides the zone size, else the zone size divided by the
    /// number of aligned stripes that fit.
    pub fn align_to_zone_boundary(&self, size: u64) -> (r: u64)
        requires
            self.wf(),
            size > 0,
            size + self.config_spec().write_alignment <= u64::MAX,
            align_up_u64(size, self.config_spec().write_alignment) <= self.config_spec().zone_size,
        ensures
            ({
                let aligned = align_up_u64(size, self.config_spec().write_alignment);
                r == if self.config_spec().zone_size % aligned == 0 {
                    aligned
                } else {
                    self.config_spec().zone_size / (self.config_spec().zone_size / aligned)
                }
            }),
    {
        let zone_size = self.config.zone_size;
        let aligned = self.align_size(size);
        if zone_size % aligned == 0 {
            aligned
        } else {
            let stripes_per_zone = zone_size / aligned;
            assert(stripes_per_zone >= 1) by (nonlinear_arith)
                requires
                    stripes_per_zone == zone_size / aligned,
                    aligned <= zone_size,
                    aligned > 0,
            ;
            zone_size / stripes_per_zone
        }
    }

    /// Checks that a write of `data` fits `zone`: the zone takes writes and
    /// has room for the data.
    fn do_append_write(&self, zone: &Zone, data: &DmaBuf, padding: u64) -> (r: Result<()>)
        ensures
            r is Ok <==> (zone_has_space(*zone, data@.len() as u64)),
            r matches Err(e) ==> e is Internal,
    {
        if !zone.state.can_write() {
            return Err(Error::Internal(zone_message("Cannot write to zone ", zone.id, " in its current state")));
        }
        if data.len() as u64 > zone.remaining_space() {
            return Err(Error::Internal(zone_message("Not enough space in zone ", zone.id, "")));
        }
        Ok(())
    }

    /// Appends a stripe to a zone: its size is rounded up to the write
    /// alignment, an open zone with room is used (or one allocated), the
    /// data lands at the zone's write pointer, and the write pointer
    /// advances by the aligned size.
    pub fn append_stripe(&mut self, data: &DmaBuf) -> (r: Result<ZoneWriteLocation>)
        requires
            old(self).wf(),
            data@.len() + old(self).config_spec().write_alignment <= u64::MAX,
            zones_in_range(old(self).allocator_spec().zones()),
        ensures
            final(self).wf(),
            final(self).config_spec() == old(self).config_spec(),
            final(self).allocator_spec().zones().len() == old(self).allocator_spec().zones().len(),
            !old(self).config_spec().enabled ==> (r matches Err(Error::Internal(_)) && *final(self) == *old(self)),
            old(self).config_spec().enabled ==> ({
                let aligned = align_up_u64(data@.len() as u64, old(self).config_spec().write_alignment);
                &&& r is Ok <==> append_has_zone(old(self).allocator_spec(), aligned)
                &&& r matches Ok(loc) ==> {
                    let zid = loc.zone_id as int;
                    let before = old(self).allocator_spec().zones()[zid];
                    let after = final(self).allocator_spec().zones()[zid];
                    &&& 0 <= zid < old(self).allocator_spec().zones().len()
                    &&& zone_has_space(before, aligned) || (old(self).allocator_spec().open_ids().len()
                        < old(self).config_spec().max_open_zones && zone_has_space(before, aligned))
                    &&& loc.offset == before.write_pointer
                    &&& loc.length == data@.len()
                    &&& loc.lba == before.start_lba + before.write_pointer
                    &&& loc.device_id == before.device_id
                    &&& after.write_pointer == before.write_pointer + aligned
                    &&& after.stripes_written == before.stripes_written + 1
                    &&& after.valid_stripes == before.valid_stripes + 1
                    &&& forall|j: int| 0 <= j < old(self).allocator_spec().zones().len() && j != zid
                        ==> #[trigger] final(self).allocator_spec().zones()[j] == old(self).allocator_spec().zones()[j]
                }
            }),
    {
        if !self.config.enabled {
            return Err(Error::Internal("ZNS is not enabled".to_owned()));
        }
        let data_size = data.len() as u64;
        let aligned_size = self.align_size(data_size);
        let padding = aligned_size - data_size;
        let ghost a0 = self.allocator;
        let zone = match self.allocator.get_or_allocate_zone(aligned_size) {
            Ok(z) => z,
            Err(e) => {
                proof {
                    if exists|k: int| first_open_with_space(a0.zones(), a0.open_ids(), aligned_size, k) {
                        let k = choose|k: int| first_open_with_space(a0.zones(), a0.open_ids(), aligned_size, k);
                        assert(first_open_with_space(a0.zones(), a0.open_ids(), aligned_size, k));
                    }
                }
                return Err(e);
            },
        };
        let ghost a1 = self.allocator;
        proof {
            assert(zone_has_space(zone, aligned_size) && zone.id < a1.zones().len() && a1.zones()[zone.id as int] == zone
                && a0.zones()[zone.id as int].write_pointer == zone.write_pointer && a0.zones()[zone.id as int].start_lba
                == zone.start_lba && a0.zones()[zone.id as int].size == zone.size && a0.zones()[zone.id as int].device_id
                == zone.device_id && a0.zones()[zone.id as int].stripes_written == zone.stripes_written
                && a0.zones()[zone.id as int].valid_stripes == zone.valid_stripes && forall|j: int|
                0 <= j < a0.zones().len() && j != zone.id ==> #[trigger] a1.zones()[j] == a0.zones()[j]) by {
                if exists|k: int| first_open_with_space(a0.zones(), a0.open_ids(), aligned_size, k) {
                    let k = choose|k: int|
                        #[trigger] first_open_with_space(a0.zones(), a0.open_ids(), aligned_size, k) && zone == a0.zones()[a0.open_ids()[k] as int];
                } else {
                    let i = choose|i: int|
                        #[trigger] picks_zone(a0.strategy_spec(), a0.zones(), a0.hint(), aligned_size, i) && zone == (Zone {
                            state: ZoneState::Open,
                            ..a0.zones()[i]
                        }) && a1.zones() == a0.zones().update(i, zone) && a1.open_ids() == a0.open_ids().push(i as u64)
                            && stats_with_counts(a1.stats_spec(), a0.stats_spec(), a1.zones());
                    assert(zone_has_space(a0.zones()[i], aligned_size)) by {
                        if a0.strategy_spec() == ZoneSelectionStrategy::RoundRobin {
                            let k = choose|k: int|
                                #[trigger] is_round_robin_step(a0.zones(), aligned_size, (a0.hint() % (a0.zones().len() as u64)) as int, k)
                                    && i == ((a0.hint() % (a0.zones().len() as u64)) + k) % (a0.zones().len() as int);
                        }
                    }
                }
            }
        }
        let write_offset = zone.write_pointer;
        let location = ZoneWriteLocation::new(&zone, write_offset, data_size);
        match self.do_append_write(&zone, data, padding) {
            Ok(()) => {},
            Err(e) => return Err(e),
        }
        match self.allocator.record_write(zone.id, data_size, padding) {
            Ok(_) => {},
            Err(e) => return Err(e),
        }
        Ok(location)
    }

    /// Resets a zone to reclaim its space (see `ZoneAllocator::reset_zone`).
    pub fn reset_zone(&mut self, zone_id: u64) -> (r: Result<u64>)
        requires
            old(self).wf(),
            zone_id < old(self).allocator_spec().zones().len() ==> old(self).allocator_spec().zones()[zone_id as int].reset_count
                < u64::MAX,
        ensures
            final(self).wf(),
            final(self).config_spec() == old(self).config_spec(),
            zone_id >= old(self).allocator_spec().zones().len() ==> r is Err,
            zone_id < old(self).allocator_spec().zones().len() ==> {
                let z = old(self).allocator_spec().zones()[zone_id as int];
                let can_reset = z.state == ZoneState::Full || z.state == ZoneState::Closed || z.state
                    == ZoneState::Open || z.state == ZoneState::Empty;
                &&& !can_reset ==> r is Err
                &&& can_reset ==> r == Ok::<u64, Error>(z.write_pointer) && final(self).allocator_spec().zones()[zone_id as int].write_pointer == 0
                    && final(self).allocator_spec().zones()[zone_id as int].state == ZoneState::Empty
            },
    {
        self.allocator.reset_zone(zone_id)
    }

    /// Marks the stripe at `location` as garbage.
    pub fn invalidate_location(&mut self, location: &ZoneWriteLocation) -> (r: Result<()>)
        requires
            old(self).wf(),
        ensures
            final(self).wf(),
            final(self).config_spec() == old(self).config_spec(),
            r is Ok <==> location.zone_id < old(self).allocator_spec().zones().len(),
    {
        self.allocator.invalidate_stripe(location.zone_id)
    }

    /// The zone with id `zone_id`, if any.
    pub fn get_zone(&self, zone_id: u64) -> (r: Option<Zone>)
        ensures
            r == if zone_id < self.allocator_spec().zones().len() {
                Some(self.allocator_spec().zones()[zone_id as int])
            } else {
                None::<Zone>
            },
    {
        self.allocator.get_zone(zone_id)
    }

    /// All zones, by id.
    pub fn get_all_zones(&self) -> (r: Vec<Zone>)
        ensures
            r@ == self.allocator_spec().zones(),
    {
        self.allocator.get_all_zones()
    }

    /// The counters.
    pub fn stats(&self) -> (r: ZnsStats)
        ensures
            r == self.allocator_spec().stats_spec(),
    {
        self.allocator.stats()
    }

    /// The allocator.
    pub fn allocator(&self) -> (r: &ZoneAllocator)
        ensures
            *r == self.allocator_spec(),
    {
        &self.allocator
    }
}

} // verus!
