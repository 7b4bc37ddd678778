//! The deletion run as a mathematical object: one status per pending
//! identifier, and the steps that change it.
//!
//! A ticket is the position of an identifier in the pending sequence. Every
//! ticket starts `Queued`. A dispatch moves the first queued ticket to
//! `InFlight`, as long as fewer than `limit` tickets are in flight. The
//! outcome of the remote call moves an in-flight ticket to `Logging` (the
//! deletion is confirmed and the log entry is being written), `Refused` (the
//! service rejected the deletion) or `Faulted` (the task itself failed). The
//! result of the append moves a `Logging` ticket to `Logged` or `Unlogged`.

use vstd::prelude::*;

verus! {

/// Where one pending identifier stands in the run.
#[derive(Clone, Copy, Debug, PartialEq, Eq, Structural)]
pub enum TaskStatus {
    /// No deletion has been attempted yet.
    Queued,
    /// The remote call is under way.
    InFlight,
    /// The deletion is confirmed; the log entry is being written.
    Logging,
    /// The deletion is confirmed and the log holds the entry.
    Logged,
    /// The deletion is confirmed, and writing the log entry failed.
    Unlogged,
    /// The remote service rejected the deletion.
    Refused,
    /// The task failed before the service gave an answer.
    Faulted,
}

/// The outcome of one deletion task, with identifiers and causes as
/// sequences of characters.
pub enum OutcomeView {
    Success(Seq<char>),
    RemoteError(Seq<char>, Seq<char>),
    TaskFault(Seq<char>),
}

impl OutcomeView {
    /// Whether the outcome, where it names an identifier, names `id`.
    pub open spec fn is_about(self, id: Seq<char>) -> bool {
        match self {
            OutcomeView::Success(named) => named == id,
            OutcomeView::RemoteError(named, _) => named == id,
            OutcomeView::TaskFault(_) => true,
        }
    }

    /// The status that a ticket takes when this outcome arrives.
    pub open spec fn status(self) -> TaskStatus {
        match self {
            OutcomeView::Success(_) => TaskStatus::Logging,
            OutcomeView::RemoteError(_, _) => TaskStatus::Refused,
            OutcomeView::TaskFault(_) => TaskStatus::Faulted,
        }
    }
}

/// The number of tickets with the given status.
pub open spec fn count_of(status: Seq<TaskStatus>, kind: TaskStatus) -> nat
    decreases status.len(),
{
    if status.len() == 0 {
        0
    } else {
        count_of(status.drop_last(), kind) + if status.last() == kind {
            1nat
        } else {
            0nat
        }
    }
}

/// A run: the pending identifiers, the status of each, and the cap on the
/// number of tickets in flight.
pub struct RunView {
    pub ids: Seq<Seq<char>>,
    pub status: Seq<TaskStatus>,
    pub limit: nat,
}

/// What a run has seen and caused so far.
pub struct Tally {
    /// The outcomes taken that were a success.
    pub successes: nat,
    /// The outcomes taken that were a remote error or a task fault.
    pub failures: nat,
    /// The entries that the log has gained.
    pub appends: nat,
    /// The appends that failed.
    pub lost: nat,
}

/// How far a ticket has come: a status is never followed by one of a lower
/// stage, and the last stage is final.
pub open spec fn stage(status: TaskStatus) -> nat {
    match status {
        TaskStatus::Queued => 0,
        TaskStatus::InFlight => 1,
        TaskStatus::Logging => 2,
        _ => 3,
    }
}

/// Something that happens to a run.
pub enum RunEvent {
    /// The driver asks for a task to start.
    Dispatch,
    /// The task of a ticket has ended with an outcome.
    Complete(int, OutcomeView),
    /// The append for a ticket has ended; `true` when the entry was written.
    Recorded(int, bool),
}

impl RunView {
    /// The run before anything has happened.
    pub open spec fn initial(ids: Seq<Seq<char>>, limit: nat) -> RunView {
        RunView { ids, status: Seq::new(ids.len(), |t: int| TaskStatus::Queued), limit }
    }

    /// The number of tickets whose remote call is under way.
    pub open spec fn in_flight(self) -> nat {
        count_of(self.status, TaskStatus::InFlight)
    }

    /// The number of tickets whose log entry is being written.
    pub open spec fn logging(self) -> nat {
        count_of(self.status, TaskStatus::Logging)
    }

    /// The number of tickets that have left the queue.
    pub open spec fn started(self) -> nat {
        (self.status.len() - count_of(self.status, TaskStatus::Queued)) as nat
    }

    /// The number of tickets whose deletion the service confirmed.
    pub open spec fn succeeded(self) -> nat {
        count_of(self.status, TaskStatus::Logging) + count_of(self.status, TaskStatus::Logged)
            + count_of(self.status, TaskStatus::Unlogged)
    }

    /// The number of tickets whose deletion was refused or whose task failed.
    pub open spec fn failed(self) -> nat {
        count_of(self.status, TaskStatus::Refused) + count_of(self.status, TaskStatus::Faulted)
    }

    /// The number of confirmed deletions that the log does not hold.
    pub open spec fn unlogged(self) -> nat {
        count_of(self.status, TaskStatus::Unlogged)
    }

    /// The number of entries that the log has gained.
    pub open spec fn logged(self) -> nat {
        count_of(self.status, TaskStatus::Logged)
    }

    /// What holds of a run at every moment: the cap is positive and kept, at
    /// most one log entry is being written, and the tickets leave the queue
    /// in order.
    pub open spec fn wf(self) -> bool {
        &&& self.status.len() == self.ids.len()
        &&& self.limit > 0
        &&& self.in_flight() <= self.limit
        &&& self.logging() <= 1
        &&& self.started() <= self.status.len()
        &&& forall|t: int|
            0 <= t < self.status.len() ==> (self.status[t] == TaskStatus::Queued <==> t
                >= self.started())
    }

    /// Whether a task may start now.
    pub open spec fn can_dispatch(self) -> bool {
        self.started() < self.ids.len() && self.in_flight() < self.limit
    }

    /// The run after a dispatch: the first queued ticket is in flight, if a
    /// task may start.
    pub open spec fn dispatch(self) -> RunView {
        if self.can_dispatch() {
            RunView {
                status: self.status.update(self.started() as int, TaskStatus::InFlight),
                ..self
            }
        } else {
            self
        }
    }

    /// Whether the run takes `outcome` as the end of the task of `ticket`:
    /// the ticket is in flight, the outcome is about its identifier, and no
    /// log entry is being written.
    pub open spec fn accepts(self, ticket: int, outcome: OutcomeView) -> bool {
        &&& 0 <= ticket < self.status.len()
        &&& self.status[ticket] == TaskStatus::InFlight
        &&& self.logging() == 0
        &&& outcome.is_about(self.ids[ticket])
    }

    /// The run after the task of `ticket` has ended with `outcome`.
    pub open spec fn complete(self, ticket: int, outcome: OutcomeView) -> RunView {
        if self.accepts(ticket, outcome) {
            RunView { status: self.status.update(ticket, outcome.status()), ..self }
        } else {
            self
        }
    }

    /// Whether the log entry of `ticket` is being written.
    pub open spec fn awaits_record(self, ticket: int) -> bool {
        0 <= ticket < self.status.len() && self.status[ticket] == TaskStatus::Logging
    }

    /// The run after the append for `ticket` has ended.
    pub open spec fn recorded(self, ticket: int, written: bool) -> RunView {
        if self.awaits_record(ticket) {
            RunView {
                status: self.status.update(
                    ticket,
                    if written {
                        TaskStatus::Logged
                    } else {
                        TaskStatus::Unlogged
                    },
                ),
                ..self
            }
        } else {
            self
        }
    }

    /// Whether the run is over: every ticket has an outcome, and no log entry
    /// is being written.
    pub open spec fn drained(self) -> bool {
        self.started() == self.status.len() && self.in_flight() == 0 && self.logging() == 0
    }

    /// The run after one event.
    pub open spec fn after(self, event: RunEvent) -> RunView {
        match event {
            RunEvent::Dispatch => self.dispatch(),
            RunEvent::Complete(ticket, outcome) => self.complete(ticket, outcome),
            RunEvent::Recorded(ticket, written) => self.recorded(ticket, written),
        }
    }

    /// The identifiers whose entry the log has gained.
    pub open spec fn logged_ids(self) -> Set<Seq<char>> {
        Set::new(
            |id: Seq<char>|
                exists|t: int|
                    0 <= t < self.status.len() && self.status[t] == TaskStatus::Logged
                        && #[trigger] self.ids[t] == id,
        )
    }

    /// The identifiers whose entries a sequence of events, first to last, has
    /// the driver write to the log, in the order of writing.
    pub open spec fn appended(self, events: Seq<RunEvent>) -> Seq<Seq<char>>
        decreases events.len(),
    {
        if events.len() == 0 {
            Seq::empty()
        } else {
            let before = self.after_all(events.drop_last());
            let so_far = self.appended(events.drop_last());
            match events.last() {
                RunEvent::Recorded(ticket, written) => if written && before.awaits_record(ticket) {
                    so_far.push(before.ids[ticket])
                } else {
                    so_far
                },
                _ => so_far,
            }
        }
    }

    /// What a sequence of events, first to last, has the driver do.
    pub open spec fn tally(self, events: Seq<RunEvent>) -> Tally
        decreases events.len(),
    {
        if events.len() == 0 {
            Tally { successes: 0, failures: 0, appends: 0, lost: 0 }
        } else {
            let before = self.after_all(events.drop_last());
            let so_far = self.tally(events.drop_last());
            match events.last() {
                RunEvent::Dispatch => so_far,
                RunEvent::Complete(ticket, outcome) => if !before.accepts(ticket, outcome) {
                    so_far
                } else if outcome is Success {
                    Tally { successes: so_far.successes + 1, ..so_far }
                } else {
                    Tally { failures: so_far.failures + 1, ..so_far }
                },
                RunEvent::Recorded(ticket, written) => if !before.awaits_record(ticket) {
                    so_far
                } else if written {
                    Tally { appends: so_far.appends + 1, ..so_far }
                } else {
                    Tally { lost: so_far.lost + 1, ..so_far }
                },
            }
        }
    }

    /// The run after a sequence of events, first to last.
    pub open spec fn after_all(self, events: Seq<RunEvent>) -> RunView
        decreases events.len(),
    {
        if events.len() == 0 {
            self
        } else {
            self.after_all(events.drop_last()).after(events.last())
        }
    }
}

/// Changing the status of one ticket moves one unit from the count of its
/// old status to the count of its new one.
pub proof fn lemma_count_update(status: Seq<TaskStatus>, t: int, to: TaskStatus, kind: TaskStatus)
    requires
        0 <= t < status.len(),
    ensures
        count_of(status.update(t, to), kind) + (if status[t] == kind {
            1nat
        } else {
            0nat
        }) == count_of(status, kind) + (if to == kind {
            1nat
        } else {
            0nat
        }),
    decreases status.len(),
{
    let changed = status.update(t, to);
    if t == status.len() - 1 {
        assert(changed.drop_last() == status.drop_last());
    } else {
        assert(changed.drop_last() == status.drop_last().update(t, to));
        lemma_count_update(status.drop_last(), t, to, kind);
    }
}

/// No status is held by more tickets than there are.
pub proof fn lemma_count_bound(status: Seq<TaskStatus>, kind: TaskStatus)
    ensures
        count_of(status, kind) <= status.len(),
    decreases status.len(),
{
    if status.len() > 0 {
        lemma_count_bound(status.drop_last(), kind);
    }
}

/// Every ticket has exactly one status.
pub proof fn lemma_count_total(status: Seq<TaskStatus>)
    ensures
        count_of(status, TaskStatus::Queued) + count_of(status, TaskStatus::InFlight) + count_of(
            status,
            TaskStatus::Logging,
        ) + count_of(status, TaskStatus::Logged) + count_of(status, TaskStatus::Unlogged)
            + count_of(status, TaskStatus::Refused) + count_of(status, TaskStatus::Faulted)
            == status.len(),
    decreases status.len(),
{
    if status.len() > 0 {
        lemma_count_total(status.drop_last());
    }
}

/// A status that no ticket holds has count zero, and the other way round.
pub proof fn lemma_count_zero(status: Seq<TaskStatus>, kind: TaskStatus)
    ensures
        count_of(status, kind) == 0 <==> forall|t: int|
            0 <= t < status.len() ==> status[t] != kind,
    decreases status.len(),
{
    if status.len() > 0 {
        lemma_count_zero(status.drop_last(), kind);
        if count_of(status, kind) == 0 {
            assert forall|t: int| 0 <= t < status.len() implies status[t] != kind by {
                if t < status.len() - 1 {
                    assert(status.drop_last()[t] == status[t]);
                }
            }
        } else if status.last() != kind {
            let t = choose|t: int|
                0 <= t < status.drop_last().len() && status.drop_last()[t] == kind;
            assert(status[t] == kind);
        }
    }
}

/// In a fresh run every ticket is queued.
pub proof fn lemma_initial(ids: Seq<Seq<char>>, limit: nat)
    requires
        limit > 0,
    ensures
        RunView::initial(ids, limit).wf(),
        RunView::initial(ids, limit).started() == 0,
        RunView::initial(ids, limit).in_flight() == 0,
        RunView::initial(ids, limit).succeeded() == 0,
        RunView::initial(ids, limit).failed() == 0,
        RunView::initial(ids, limit).unlogged() == 0,
        RunView::initial(ids, limit).logged() == 0,
{
    let run = RunView::initial(ids, limit);
    lemma_count_total(run.status);
    lemma_count_zero(run.status, TaskStatus::InFlight);
    lemma_count_zero(run.status, TaskStatus::Logging);
    lemma_count_zero(run.status, TaskStatus::Logged);
    lemma_count_zero(run.status, TaskStatus::Unlogged);
    lemma_count_zero(run.status, TaskStatus::Refused);
    lemma_count_zero(run.status, TaskStatus::Faulted);
}

/// What one change of status does to every count.
pub proof fn lemma_counts_after(status: Seq<TaskStatus>, t: int, to: TaskStatus)
    requires
        0 <= t < status.len(),
    ensures
        forall|kind: TaskStatus|
            #[trigger] count_of(status.update(t, to), kind) + (if status[t] == kind {
                1nat
            } else {
                0nat
            }) == count_of(status, kind) + (if to == kind {
                1nat
            } else {
                0nat
            }),
{
    assert forall|kind: TaskStatus|
        #[trigger] count_of(status.update(t, to), kind) + (if status[t] == kind {
            1nat
        } else {
            0nat
        }) == count_of(status, kind) + (if to == kind {
            1nat
        } else {
            0nat
        }) by {
        lemma_count_update(status, t, to, kind);
    }
}

/// Every step keeps the run well formed.
pub proof fn lemma_step_keeps_wf(run: RunView, event: RunEvent)
    requires
        run.wf(),
    ensures
        run.after(event).wf(),
        run.after(event).ids == run.ids,
        run.after(event).limit == run.limit,
{
    let next = run.after(event);
    lemma_count_bound(run.status, TaskStatus::Queued);
    lemma_count_bound(next.status, TaskStatus::Queued);
    match event {
        RunEvent::Dispatch => {
            if run.can_dispatch() {
                let t = run.started() as int;
                assert(run.status[t] == TaskStatus::Queued);
                lemma_counts_after(run.status, t, TaskStatus::InFlight);
            }
        },
        RunEvent::Complete(ticket, outcome) => {
            if run.accepts(ticket, outcome) {
                lemma_counts_after(run.status, ticket, outcome.status());
            }
        },
        RunEvent::Recorded(ticket, written) => {
            if run.awaits_record(ticket) {
                lemma_counts_after(
                    run.status,
                    ticket,
                    if written {
                        TaskStatus::Logged
                    } else {
                        TaskStatus::Unlogged
                    },
                );
            }
        },
    }
}

} // verus!
