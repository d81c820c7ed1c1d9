//! What startup recovery found and repaired after an unclean shutdown.

use vstd::prelude::*;

verus! {

/// Report of what was recovered on startup.
#[derive(Debug, Clone, Copy)]
pub struct RecoveryReport {
    /// Dangling two-phase commit transactions cleaned up.
    pub dangling_transactions: usize,
    /// Stuck tasks reset to pending.
    pub stuck_tasks: usize,
    /// Tasks failed for good (retries exhausted).
    pub permanently_failed: usize,
    /// Consistency issues detected.
    pub inconsistencies_found: usize,
}

impl Default for RecoveryReport {
    fn default() -> (r: Self)
        ensures
            r.dangling_transactions == 0,
            r.stuck_tasks == 0,
            r.permanently_failed == 0,
            r.inconsistencies_found == 0,
    {
        RecoveryReport { dangling_transactions: 0, stuck_tasks: 0, permanently_failed: 0, inconsistencies_found: 0 }
    }
}

impl RecoveryReport {
    /// Whether any recovery action was taken: dangling transactions, stuck
    /// tasks, permanently failed tasks or inconsistencies.
    pub fn had_issues(&self) -> (r: bool)
        ensures
            r == (self.dangling_transactions > 0 || self.stuck_tasks > 0 || self.permanently_failed > 0
                || self.inconsistencies_found > 0),
    {
        self.dangling_transactions > 0 || self.stuck_tasks > 0 || self.permanently_failed > 0
            || self.inconsistencies_found > 0
    }
}

} // verus!
