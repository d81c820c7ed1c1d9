//! Health monitoring of agents: a task that stays in progress without a
//! heartbeat for longer than the timeout belongs to a dead agent and goes
//! back to the pending queue.

use vstd::prelude::*;
use std::time::Duration;
use crate::text::{decimal, push_str, u64_to_string};

verus! {

/// Whole seconds of a duration, as `Duration::as_secs` gives them.
pub uninterp spec fn whole_secs(d: Duration) -> u64;

/// A duration of `n` seconds (std `Duration::from_secs`).
#[verifier::external_body]
fn duration_from_secs(n: u64) -> (d: Duration)
    ensures
        whole_secs(d) == n,
{
    Duration::from_secs(n)
}

/// Whole seconds of a duration (std `Duration::as_secs`).
#[verifier::external_body]
fn duration_secs(d: &Duration) -> (n: u64)
    ensures
        n == whole_secs(*d),
{
    d.as_secs()
}

/// Background health checker for agent liveness.
#[derive(Debug, Clone, Copy)]
pub struct HealthMonitor {
    /// How long without a heartbeat before an agent counts as dead.
    heartbeat_timeout: Duration,
    /// Interval between health check cycles.
    check_interval: Duration,
}

impl HealthMonitor {
    /// The heartbeat timeout, in specifications.
    pub closed spec fn timeout(self) -> Duration {
        self.heartbeat_timeout
    }

    /// The check interval, in specifications.
    pub closed spec fn interval(self) -> Duration {
        self.check_interval
    }
}

impl Default for HealthMonitor {
    fn default() -> (m: Self)
        ensures
            whole_secs(m.timeout()) == 120,
            whole_secs(m.interval()) == 30,
    {
        HealthMonitor { heartbeat_timeout: duration_from_secs(120), check_interval: duration_from_secs(30) }
    }
}

impl HealthMonitor {
    /// A health monitor with the given timeout and check interval.
    pub fn new(heartbeat_timeout: Duration, check_interval: Duration) -> (m: Self)
        ensures
            m.timeout() == heartbeat_timeout,
            m.interval() == check_interval,
    {
        HealthMonitor { heartbeat_timeout, check_interval }
    }

    /// The heartbeat timeout.
    pub fn heartbeat_timeout(&self) -> (d: Duration)
        ensures
            d == self.timeout(),
    {
        self.heartbeat_timeout
    }

    /// The interval between checks.
    pub fn check_interval(&self) -> (d: Duration)
        ensures
            d == self.interval(),
    {
        self.check_interval
    }

    /// The SQLite date modifier that reaches back one heartbeat timeout,
    /// such as `-120 seconds`: heartbeats older than it are stale.
    pub fn stale_heartbeat_modifier(&self) -> (s: String)
        ensures
            s@ == "-"@ + decimal(whole_secs(self.timeout()) as nat) + " seconds"@,
    {
        let mut s = String::new();
        push_str(&mut s, "-");
        let n = u64_to_string(duration_secs(&self.heartbeat_timeout));
        push_str(&mut s, n.as_str());
        push_str(&mut s, " seconds");
        s
    }
}

} // verus!
