//! The summary of a run, as it is reported when the run is over.

use crate::executor::DeletionRun;
use crate::file_service::FileService;
use crate::run_laws::law_drained_run_accounts_for_all;
use vstd::prelude::*;

verus! {

/// The counts that a run reports.
#[derive(Clone, Copy, Debug, PartialEq, Eq, Structural)]
pub struct RunReport {
    /// The distinct identifiers of the inventory.
    pub total: usize,
    /// The identifiers that the log held at the start.
    pub already_deleted: usize,
    /// The identifiers that were pending at the start.
    pub pending: usize,
    /// The deletions that the service confirmed.
    pub succeeded: usize,
    /// The deletions that were refused or whose task failed.
    pub failed: usize,
}

impl RunReport {
    /// Puts the counts of the work discovery and of the run together. Once
    /// the run is over, every pending identifier has either succeeded or
    /// failed.
    pub fn new(service: &FileService, run: &DeletionRun) -> (report: RunReport)
        requires
            run.wf(),
        ensures
            report.total == service.inventory_count,
            report.already_deleted == service.deleted_count,
            report.pending == run@.ids.len(),
            report.succeeded == run@.succeeded(),
            report.failed == run@.failed(),
            run@.drained() ==> report.succeeded + report.failed == report.pending,
    {
        proof {
            run.lemma_wf();
            if run@.drained() {
                law_drained_run_accounts_for_all(run@);
            }
        }
        let totals = run.totals();
        RunReport {
            total: service.inventory_count,
            already_deleted: service.deleted_count,
            pending: totals.pending,
            succeeded: totals.succeeded,
            failed: totals.failed,
        }
    }
}

} // verus!
