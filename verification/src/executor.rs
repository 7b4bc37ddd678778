//! The deletion run: which task may start, and what follows each outcome.
//!
//! The run does no work of its own. Its driver starts the tasks that
//! `dispatch` hands out, reports how each one ended with `complete`, appends
//! to the log where `complete` says so, and reports the result of the append
//! with `recorded`. The run keeps the number of tasks in flight under the
//! limit and never asks for a log entry unless the deletion was confirmed.

use crate::config::ConfigError;
use crate::identifiers::views;
use crate::run_model::{
    count_of, lemma_count_bound, lemma_count_total, lemma_count_update, lemma_counts_after,
    lemma_initial, OutcomeView, RunView, TaskStatus,
};
use vstd::prelude::*;

verus! {

/// How one deletion task ended.
#[derive(Clone, Debug)]
pub enum DeletionOutcome {
    /// The service confirmed the deletion of the archive.
    Success(String),
    /// The service rejected the deletion of the archive, with a cause.
    RemoteError(String, String),
    /// The task failed before the service answered, with a cause.
    TaskFault(String),
}

impl View for DeletionOutcome {
    type V = OutcomeView;

    open spec fn view(&self) -> OutcomeView {
        match self {
            DeletionOutcome::Success(id) => OutcomeView::Success(id@),
            DeletionOutcome::RemoteError(id, cause) => OutcomeView::RemoteError(id@, cause@),
            DeletionOutcome::TaskFault(cause) => OutcomeView::TaskFault(cause@),
        }
    }
}

/// A task to start: delete the archive `id`, and report the outcome under
/// `ticket`.
#[derive(Debug)]
pub struct Task {
    pub ticket: usize,
    pub id: String,
}

/// What the driver does after a task has ended.
#[derive(Debug)]
pub enum Completion {
    /// The deletion is confirmed: append this identifier to the log, then
    /// report the result of the append.
    Record(String),
    /// The deletion failed: the log stays as it is, and the identifier is
    /// left for a later run.
    Skip,
    /// The report does not belong to a task in flight, or a log entry is
    /// still being written: nothing has changed.
    Rejected,
}

/// The account of a run: how many identifiers it was given and what has
/// become of them.
#[derive(Clone, Copy, Debug, PartialEq, Eq, Structural)]
pub struct RunTotals {
    /// The identifiers that were pending at the start.
    pub pending: usize,
    /// Those that have left the queue.
    pub started: usize,
    /// Those whose remote call is under way.
    pub in_flight: usize,
    /// Those whose deletion the service confirmed.
    pub succeeded: usize,
    /// Those whose deletion was refused or whose task failed.
    pub failed: usize,
    /// Those whose deletion was confirmed and whose log entry could not be
    /// written.
    pub unlogged: usize,
}

/// The state of one deletion run.
#[derive(Debug)]
pub struct DeletionRun {
    ids: Vec<String>,
    status: Vec<TaskStatus>,
    limit: usize,
    started: usize,
    in_flight: usize,
    logging: usize,
    logged: usize,
    unlogged: usize,
    refused: usize,
    faulted: usize,
}

impl View for DeletionRun {
    type V = RunView;

    closed spec fn view(&self) -> RunView {
        RunView { ids: views(self.ids@), status: self.status@, limit: self.limit as nat }
    }
}

impl DeletionRun {
    /// The run is well formed as `RunView::wf` says, and its counters are
    /// right.
    pub closed spec fn wf(&self) -> bool {
        &&& self@.wf()
        &&& self.started == self@.started()
        &&& self.in_flight == self@.in_flight()
        &&& self.logging == self@.logging()
        &&& self.logged == self@.logged()
        &&& self.unlogged == self@.unlogged()
        &&& self.refused == count_of(self.status@, TaskStatus::Refused)
        &&& self.faulted == count_of(self.status@, TaskStatus::Faulted)
    }

    /// A well-formed run has a well-formed view.
    pub proof fn lemma_wf(&self)
        requires
            self.wf(),
        ensures
            self@.wf(),
    {
    }

    /// A run over the pending identifiers `ids` with at most `limit` tasks
    /// in flight. A limit of zero is refused.
    pub fn new(ids: Vec<String>, limit: usize) -> (result: Result<DeletionRun, ConfigError>)
        ensures
            match result {
                Ok(run) => limit > 0 && run.wf() && run@ == RunView::initial(
                    views(ids@),
                    limit as nat,
                ),
                Err(e) => limit == 0 && e == ConfigError::InvalidParallelJobs,
            },
    {
        if limit == 0 {
            return Err(ConfigError::InvalidParallelJobs);
        }
        let mut status: Vec<TaskStatus> = Vec::new();
        let mut i: usize = 0;
        while i < ids.len()
            invariant
                i <= ids.len(),
                status@ == Seq::new(i as nat, |t: int| TaskStatus::Queued),
            decreases ids.len() - i,
        {
            status.push(TaskStatus::Queued);
            i += 1;
        }
        proof {
            lemma_initial(views(ids@), limit as nat);
            assert(status@ == RunView::initial(views(ids@), limit as nat).status);
        }
        Ok(
            DeletionRun {
                ids,
                status,
                limit,
                started: 0,
                in_flight: 0,
                logging: 0,
                logged: 0,
                unlogged: 0,
                refused: 0,
                faulted: 0,
            },
        )
    }

    /// Starts the next task, if one may start: the first identifier that is
    /// still queued, as long as fewer tasks than the limit are in flight.
    pub fn dispatch(&mut self) -> (task: Option<Task>)
        requires
            old(self).wf(),
        ensures
            final(self).wf(),
            final(self)@ == old(self)@.dispatch(),
            final(self)@.in_flight() <= final(self)@.limit,
            match task {
                Some(task) => {
                    &&& old(self)@.can_dispatch()
                    &&& task.ticket == old(self)@.started()
                    &&& task.id@ == old(self)@.ids[task.ticket as int]
                },
                None => !old(self)@.can_dispatch(),
            },
    {
        if self.started < self.ids.len() && self.in_flight < self.limit {
            let ticket = self.started;
            proof {
                lemma_counts_after(self.status@, ticket as int, TaskStatus::InFlight);
                lemma_count_bound(self.status@, TaskStatus::Queued);
                lemma_count_bound(
                    self.status@.update(ticket as int, TaskStatus::InFlight),
                    TaskStatus::Queued,
                );
            }
            self.status.set(ticket, TaskStatus::InFlight);
            self.started = self.started + 1;
            self.in_flight = self.in_flight + 1;
            Some(Task { ticket, id: self.ids[ticket].clone() })
        } else {
            None
        }
    }

    /// Takes the outcome of the task of `ticket` and says what follows. A
    /// log entry is asked for exactly when the outcome is a success.
    pub fn complete(&mut self, ticket: usize, outcome: &DeletionOutcome) -> (next: Completion)
        requires
            old(self).wf(),
        ensures
            final(self).wf(),
            final(self)@ == old(self)@.complete(ticket as int, outcome@),
            match next {
                Completion::Record(id) => {
                    &&& old(self)@.accepts(ticket as int, outcome@)
                    &&& outcome is Success
                    &&& id@ == old(self)@.ids[ticket as int]
                },
                Completion::Skip => {
                    &&& old(self)@.accepts(ticket as int, outcome@)
                    &&& !(outcome is Success)
                },
                Completion::Rejected => !old(self)@.accepts(ticket as int, outcome@),
            },
    {
        if ticket >= self.status.len() || self.logging != 0 {
            return Completion::Rejected;
        }
        match self.status[ticket] {
            TaskStatus::InFlight => {},
            _ => {
                return Completion::Rejected;
            },
        }
        let about = match outcome {
            DeletionOutcome::Success(id) => *id == self.ids[ticket],
            DeletionOutcome::RemoteError(id, _) => *id == self.ids[ticket],
            DeletionOutcome::TaskFault(_) => true,
        };
        if !about {
            return Completion::Rejected;
        }
        proof {
            lemma_counts_after(self.status@, ticket as int, outcome@.status());
            lemma_count_update(
                self.status@,
                ticket as int,
                outcome@.status(),
                TaskStatus::InFlight,
            );
            lemma_count_bound(self.status@, TaskStatus::Queued);
            lemma_count_bound(
                self.status@.update(ticket as int, outcome@.status()),
                TaskStatus::Queued,
            );
            lemma_count_bound(
                self.status@.update(ticket as int, outcome@.status()),
                TaskStatus::Refused,
            );
            lemma_count_bound(
                self.status@.update(ticket as int, outcome@.status()),
                TaskStatus::Faulted,
            );
        }
        self.in_flight = self.in_flight - 1;
        match outcome {
            DeletionOutcome::Success(_) => {
                self.status.set(ticket, TaskStatus::Logging);
                self.logging = 1;
                Completion::Record(self.ids[ticket].clone())
            },
            DeletionOutcome::RemoteError(_, _) => {
                self.status.set(ticket, TaskStatus::Refused);
                self.refused = self.refused + 1;
                Completion::Skip
            },
            DeletionOutcome::TaskFault(_) => {
                self.status.set(ticket, TaskStatus::Faulted);
                self.faulted = self.faulted + 1;
                Completion::Skip
            },
        }
    }

    /// Takes the result of the append for `ticket`: `written` says whether
    /// the log now holds the entry. Returns whether an append for this ticket
    /// was awaited; if not, nothing has changed.
    pub fn recorded(&mut self, ticket: usize, written: bool) -> (awaited: bool)
        requires
            old(self).wf(),
        ensures
            final(self).wf(),
            final(self)@ == old(self)@.recorded(ticket as int, written),
            awaited == old(self)@.awaits_record(ticket as int),
    {
        if ticket >= self.status.len() {
            return false;
        }
        match self.status[ticket] {
            TaskStatus::Logging => {},
            _ => {
                return false;
            },
        }
        let to = if written {
            TaskStatus::Logged
        } else {
            TaskStatus::Unlogged
        };
        proof {
            lemma_counts_after(self.status@, ticket as int, to);
            lemma_count_update(self.status@, ticket as int, to, TaskStatus::Logging);
            lemma_count_bound(self.status@, TaskStatus::Queued);
            lemma_count_bound(self.status@.update(ticket as int, to), TaskStatus::Queued);
            lemma_count_bound(self.status@.update(ticket as int, to), TaskStatus::Logged);
            lemma_count_bound(self.status@.update(ticket as int, to), TaskStatus::Unlogged);
        }
        self.status.set(ticket, to);
        self.logging = self.logging - 1;
        if written {
            self.logged = self.logged + 1;
        } else {
            self.unlogged = self.unlogged + 1;
        }
        true
    }

    /// The account of the run so far.
    pub fn totals(&self) -> (totals: RunTotals)
        requires
            self.wf(),
        ensures
            totals.pending == self@.ids.len(),
            totals.started == self@.started(),
            totals.in_flight == self@.in_flight(),
            totals.succeeded == self@.succeeded(),
            totals.failed == self@.failed(),
            totals.unlogged == self@.unlogged(),
    {
        proof {
            lemma_count_total(self.status@);
        }
        RunTotals {
            pending: self.ids.len(),
            started: self.started,
            in_flight: self.in_flight,
            succeeded: self.logging + self.logged + self.unlogged,
            failed: self.refused + self.faulted,
            unlogged: self.unlogged,
        }
    }

    /// The cap on the number of tasks in flight.
    pub fn limit(&self) -> (limit: usize)
        ensures
            limit == self@.limit,
    {
        self.limit
    }

    /// Where the ticket stands, or `None` if the run has no such ticket.
    pub fn status_of(&self, ticket: usize) -> (status: Option<TaskStatus>)
        requires
            self.wf(),
        ensures
            status == if ticket < self@.status.len() {
                Some(self@.status[ticket as int])
            } else {
                None
            },
    {
        if ticket < self.status.len() {
            Some(self.status[ticket])
        } else {
            None
        }
    }

    /// Whether the run is over: every identifier has had its one attempt, and
    /// no task or append is under way.
    pub fn is_drained(&self) -> (drained: bool)
        requires
            self.wf(),
        ensures
            drained == self@.drained(),
    {
        self.started == self.status.len() && self.in_flight == 0 && self.logging == 0
    }
}

} // verus!
