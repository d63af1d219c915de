//! Counter and gauge metrics.

use vstd::prelude::*;

verus! {

/// A monotonically counting metric (wrapping at `u64::MAX`).
#[derive(Debug, Clone, Copy, PartialEq, Eq, Default)]
pub struct Counter {
    value: u64,
}

impl Counter {
    /// The current value.
    pub closed spec fn value(&self) -> u64 {
        self.value
    }

    /// A counter at zero.
    pub fn new() -> (r: Counter)
        ensures
            r.value() == 0,
    {
        Counter { value: 0 }
    }

    /// Adds one.
    pub fn inc(&mut self)
        ensures
            final(self).value() == vstd::wrapping::u64_specs::wrapping_add(old(self).value(), 1),
    {
        self.value = self.value.wrapping_add(1);
    }

    /// Adds `n`.
    pub fn add(&mut self, n: u64)
        ensures
            final(self).value() == vstd::wrapping::u64_specs::wrapping_add(old(self).value(), n),
    {
        self.value = self.value.wrapping_add(n);
    }

    /// The current value.
    pub fn get(&self) -> (r: u64)
        ensures
            r == self.value(),
    {
        self.value
    }

    /// Sets the counter to zero.
    pub fn reset(&mut self)
        ensures
            final(self).value() == 0,
    {
        self.value = 0;
    }
}

/// A metric that goes up and down (wrapping at the ends of `u64`).
#[derive(Debug, Clone, Copy, PartialEq, Eq, Default)]
pub struct Gauge {
    value: u64,
}

impl Gauge {
    /// The current value.
    pub closed spec fn value(&self) -> u64 {
        self.value
    }

    /// A gauge at zero.
    pub fn new() -> (r: Gauge)
        ensures
            r.value() == 0,
    {
        Gauge { value: 0 }
    }

    /// Sets the value.
    pub fn set(&mut self, value: u64)
        ensures
            final(self).value() == value,
    {
        self.value = value;
    }

    /// Adds one.
    pub fn inc(&mut self)
        ensures
            final(self).value() == vstd::wrapping::u64_specs::wrapping_add(old(self).value(), 1),
    {
        self.value = self.value.wrapping_add(1);
    }

    /// Subtracts one.
    pub fn dec(&mut self)
        ensures
            final(self).value() == vstd::wrapping::u64_specs::wrapping_sub(old(self).value(), 1),
    {
        self.value = self.value.wrapping_sub(1);
    }

    /// The current value.
    pub fn get(&self) -> (r: u64)
        ensures
            r == self.value(),
    {
        self.value
    }
}

/// Incrementing a gauge and then decrementing it restores its value.
pub proof fn law_gauge_inc_dec(v: u64)
    ensures
        vstd::wrapping::u64_specs::wrapping_sub(vstd::wrapping::u64_specs::wrapping_add(v, 1), 1) == v,
{
}

} // verus!
