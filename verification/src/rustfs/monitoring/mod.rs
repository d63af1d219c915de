//! Monitoring: counters, gauges and health checks.

pub mod collector;
pub mod health;
