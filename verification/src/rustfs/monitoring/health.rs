//! Health checks: liveness and readiness probes and their aggregate.

use vstd::prelude::*;

use crate::clock::{elapsed_millis, instant_now};
use crate::rustfs::VERSION;

verus! {

/// Health status.
#[derive(Debug, Clone, Copy, PartialEq, Eq, Structural)]
pub enum HealthStatus {
    /// Service is healthy
    Healthy,
    /// Service is degraded but operational
    Degraded,
    /// Service is unhealthy
    Unhealthy,
}

/// Severity of a status: healthy 0, degraded 1, unhealthy 2.
pub open spec fn severity(s: HealthStatus) -> int {
    match s {
        HealthStatus::Healthy => 0,
        HealthStatus::Degraded => 1,
        HealthStatus::Unhealthy => 2,
    }
}

impl HealthStatus {
    /// Whether the service is operational (healthy or degraded).
    pub fn is_operational(&self) -> (r: bool)
        ensures
            r == (*self is Healthy || *self is Degraded),
    {
        match self {
            HealthStatus::Healthy => true,
            HealthStatus::Degraded => true,
            HealthStatus::Unhealthy => false,
        }
    }

    /// Whether the service is healthy.
    pub fn is_healthy(&self) -> (r: bool)
        ensures
            r == (*self is Healthy),
    {
        *self == HealthStatus::Healthy
    }

    /// Name of the status.
    pub fn to_string(&self) -> (r: String)
        ensures
            r@ == match *self {
                HealthStatus::Healthy => "Healthy"@,
                HealthStatus::Degraded => "Degraded"@,
                HealthStatus::Unhealthy => "Unhealthy"@,
            },
    {
        match self {
            HealthStatus::Healthy => "Healthy".to_owned(),
            HealthStatus::Degraded => "Degraded".to_owned(),
            HealthStatus::Unhealthy => "Unhealthy".to_owned(),
        }
    }
}

/// Result of one health check.
#[derive(Debug, Clone)]
pub struct HealthCheckResult {
    /// Check name
    pub name: String,
    /// Status
    pub status: HealthStatus,
    /// Message
    pub message: Option<String>,
    /// Duration of check, in milliseconds
    pub duration_ms: u64,
}

impl HealthCheckResult {
    /// A healthy result.
    pub fn healthy(name: &str) -> (r: HealthCheckResult)
        ensures
            r.name@ == name@,
            r.status == HealthStatus::Healthy,
            r.message is None,
            r.duration_ms == 0,
    {
        HealthCheckResult { name: name.to_owned(), status: HealthStatus::Healthy, message: None, duration_ms: 0 }
    }

    /// A degraded result with a message.
    pub fn degraded(name: &str, message: &str) -> (r: HealthCheckResult)
        ensures
            r.name@ == name@,
            r.status == HealthStatus::Degraded,
            r.message matches Some(m) && m@ == message@,
            r.duration_ms == 0,
    {
        HealthCheckResult {
            name: name.to_owned(),
            status: HealthStatus::Degraded,
            message: Some(message.to_owned()),
            duration_ms: 0,
        }
    }

    /// An unhealthy result with a message.
    pub fn unhealthy(name: &str, message: &str) -> (r: HealthCheckResult)
        ensures
            r.name@ == name@,
            r.status == HealthStatus::Unhealthy,
            r.message matches Some(m) && m@ == message@,
            r.duration_ms == 0,
    {
        HealthCheckResult {
            name: name.to_owned(),
            status: HealthStatus::Unhealthy,
            message: Some(message.to_owned()),
            duration_ms: 0,
        }
    }

    /// The result with the check's duration set.
    pub fn with_duration(self, duration_ms: u64) -> (r: HealthCheckResult)
        ensures
            r.name == self.name,
            r.status == self.status,
            r.message == self.message,
            r.duration_ms == duration_ms,
    {
        let mut s = self;
        s.duration_ms = duration_ms;
        s
    }
}

/// The worst status among the results (healthy when there are none).
pub open spec fn worst_status(checks: Seq<HealthCheckResult>) -> HealthStatus
    decreases checks.len(),
{
    if checks.len() == 0 {
        HealthStatus::Healthy
    } else {
        let rest = worst_status(checks.drop_last());
        if severity(checks.last().status) >= severity(rest) {
            checks.last().status
        } else {
            rest
        }
    }
}

/// Overall health response.
#[derive(Debug, Clone)]
pub struct HealthResponse {
    /// Overall status
    pub status: HealthStatus,
    /// Individual check results
    pub checks: Vec<HealthCheckResult>,
    /// Version
    pub version: String,
    /// Uptime in seconds
    pub uptime_seconds: u64,
}

impl HealthResponse {
    /// A response over `checks`: the overall status is the worst one.
    pub fn new(checks: Vec<HealthCheckResult>, uptime_seconds: u64) -> (r: HealthResponse)
        ensures
            r.status == worst_status(checks@),
            r.checks@ == checks@,
            r.version@ == VERSION@,
            r.uptime_seconds == uptime_seconds,
    {
        let mut status = HealthStatus::Healthy;
        let mut i: usize = 0;
        while i < checks.len()
            invariant
                0 <= i <= checks@.len(),
                status == worst_status(checks@.subrange(0, i as int)),
            decreases checks@.len() - i,
        {
            proof {
                assert(checks@.subrange(0, i + 1).drop_last() =~= checks@.subrange(0, i as int));
            }
            let s = checks[i].status;
            let rank_s: u8 = match s {
                HealthStatus::Healthy => 0,
                HealthStatus::Degraded => 1,
                HealthStatus::Unhealthy => 2,
            };
            let rank_cur: u8 = match status {
                HealthStatus::Healthy => 0,
                HealthStatus::Degraded => 1,
                HealthStatus::Unhealthy => 2,
            };
            if rank_s >= rank_cur {
                status = s;
            }
            i += 1;
        }
        proof {
            assert(checks@.subrange(0, checks@.len() as int) =~= checks@);
        }
        HealthResponse { status, checks, version: VERSION.to_owned(), uptime_seconds }
    }
}

/// The overall status is at least as severe as every check's, and equals
/// one of them (or is healthy when there are none).
pub proof fn law_worst_status(checks: Seq<HealthCheckResult>)
    ensures
        forall|i: int| 0 <= i < checks.len() ==> severity(#[trigger] checks[i].status) <= severity(worst_status(checks)),
        checks.len() == 0 ==> worst_status(checks) == HealthStatus::Healthy,
        checks.len() > 0 ==> exists|i: int| 0 <= i < checks.len() && #[trigger] checks[i].status == worst_status(checks),
    decreases checks.len(),
{
    if checks.len() > 0 {
        let rest = checks.drop_last();
        law_worst_status(rest);
        assert forall|i: int| 0 <= i < checks.len() implies severity(#[trigger] checks[i].status) <= severity(
            worst_status(checks),
        ) by {
            if i < checks.len() - 1 {
                assert(checks[i] == rest[i]);
            }
        }
        if severity(checks.last().status) >= severity(worst_status(rest)) {
            assert(checks[checks.len() - 1].status == worst_status(checks));
        } else {
            let j = choose|j: int| 0 <= j < rest.len() && #[trigger] rest[j].status == worst_status(rest);
            assert(checks[j] == rest[j]);
        }
    }
}

/// Liveness and readiness of the service.
#[derive(Debug, Clone, Copy)]
pub struct HealthCheck {
    start_time: std::time::Instant,
    live: bool,
    ready: bool,
}

impl HealthCheck {
    /// Liveness flag.
    pub closed spec fn live_spec(&self) -> bool {
        self.live
    }

    /// Readiness flag.
    pub closed spec fn ready_spec(&self) -> bool {
        self.ready
    }

    /// A service that is live and not yet ready.
    pub fn new() -> (r: HealthCheck)
        ensures
            r.live_spec(),
            !r.ready_spec(),
    {
        HealthCheck { start_time: instant_now(), live: true, ready: false }
    }

    /// Milliseconds since the health check was created.
    pub fn uptime(&self) -> u64 {
        elapsed_millis(&self.start_time)
    }

    /// Whether the service is live.
    pub fn is_live(&self) -> (r: bool)
        ensures
            r == self.live_spec(),
    {
        self.live
    }

    /// Whether the service is ready.
    pub fn is_ready(&self) -> (r: bool)
        ensures
            r == self.ready_spec(),
    {
        self.ready
    }

    /// Sets liveness.
    pub fn set_live(&mut self, live: bool)
        ensures
            final(self).live_spec() == live,
            final(self).ready_spec() == old(self).ready_spec(),
    {
        self.live = live;
    }

    /// Sets readiness.
    pub fn set_ready(&mut self, ready: bool)
        ensures
            final(self).ready_spec() == ready,
            final(self).live_spec() == old(self).live_spec(),
    {
        self.ready = ready;
    }

    /// Liveness status: healthy when live, unhealthy otherwise.
    pub fn liveness(&self) -> (r: HealthStatus)
        ensures
            r == if self.live_spec() {
                HealthStatus::Healthy
            } else {
                HealthStatus::Unhealthy
            },
    {
        if self.live {
            HealthStatus::Healthy
        } else {
            HealthStatus::Unhealthy
        }
    }

    /// Readiness status: healthy when ready, unhealthy otherwise.
    pub fn readiness(&self) -> (r: HealthStatus)
        ensures
            r == if self.ready_spec() {
                HealthStatus::Healthy
            } else {
                HealthStatus::Unhealthy
            },
    {
        if self.ready {
            HealthStatus::Healthy
        } else {
            HealthStatus::Unhealthy
        }
    }

    /// Runs the liveness and readiness checks; the overall status is the
    /// worse of the two.
    pub fn check_all(&self) -> (r: HealthResponse)
        ensures
            r.checks@.len() == 2,
            r.checks@[0].name@ == "liveness"@,
            r.checks@[0].status == self.liveness_spec(),
            r.checks@[1].name@ == "readiness"@,
            r.checks@[1].status == self.readiness_spec(),
            r.status == worst_status(r.checks@),
            r.status == if self.live_spec() && self.ready_spec() {
                HealthStatus::Healthy
            } else {
                HealthStatus::Unhealthy
            },
    {
        let mut checks: Vec<HealthCheckResult> = Vec::new();
        checks.push(HealthCheckResult { name: "liveness".to_owned(), status: self.liveness(), message: None, duration_ms: 0 });
        checks.push(HealthCheckResult { name: "readiness".to_owned(), status: self.readiness(), message: None, duration_ms: 0 });
        let up = self.uptime() / 1000;
        let r = HealthResponse::new(checks, up);
        proof {
            let c = r.checks@;
            assert(c.drop_last().drop_last() =~= Seq::<HealthCheckResult>::empty());
            reveal_with_fuel(worst_status, 3);
        }
        r
    }

    /// Liveness status as a spec function.
    pub open spec fn liveness_spec(&self) -> HealthStatus {
        if self.live_spec() {
            HealthStatus::Healthy
        } else {
            HealthStatus::Unhealthy
        }
    }

    /// Readiness status as a spec function.
    pub open spec fn readiness_spec(&self) -> HealthStatus {
        if self.ready_spec() {
            HealthStatus::Healthy
        } else {
            HealthStatus::Unhealthy
        }
    }

    /// The liveness check.
    pub fn liveness_check(&self) -> (r: HealthCheckResult)
        ensures
            r.name@ == "liveness"@,
            r.status == self.liveness_spec(),
            r.message is None,
            r.duration_ms == 0,
    {
        HealthCheckResult { name: "liveness".to_owned(), status: self.liveness(), message: None, duration_ms: 0 }
    }

    /// The readiness check; a service that is not ready says so.
    pub fn readiness_check(&self) -> (r: HealthCheckResult)
        ensures
            r.name@ == "readiness"@,
            r.status == self.readiness_spec(),
            self.ready_spec() ==> r.message is None,
            !self.ready_spec() ==> (r.message matches Some(m) && m@ == "Service not ready"@),
            r.duration_ms == 0,
    {
        HealthCheckResult {
            name: "readiness".to_owned(),
            status: self.readiness(),
            message: if !self.ready {
                Some("Service not ready".to_owned())
            } else {
                None
            },
            duration_ms: 0,
        }
    }
}

} // verus!
