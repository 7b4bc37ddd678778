//! What holds of every deletion run, whatever its driver reports and in
//! whatever order.

use crate::run_model::{
    lemma_count_bound, lemma_count_total, lemma_count_zero, lemma_counts_after, lemma_initial,
    lemma_step_keeps_wf, stage, RunEvent, RunView, TaskStatus,
};
use vstd::prelude::*;

verus! {

/// The number of tasks in flight never exceeds the limit, whatever happens
/// and in whatever order.
pub proof fn law_limit_holds_throughout(ids: Seq<Seq<char>>, limit: nat, events: Seq<RunEvent>)
    requires
        limit > 0,
    ensures
        RunView::initial(ids, limit).after_all(events).wf(),
        RunView::initial(ids, limit).after_all(events).in_flight() <= limit,
        RunView::initial(ids, limit).after_all(events).logging() <= 1,
        RunView::initial(ids, limit).after_all(events).ids == ids,
        RunView::initial(ids, limit).after_all(events).limit == limit,
    decreases events.len(),
{
    let start = RunView::initial(ids, limit);
    if events.len() == 0 {
        lemma_initial(ids, limit);
    } else {
        law_limit_holds_throughout(ids, limit, events.drop_last());
        lemma_step_keeps_wf(start.after_all(events.drop_last()), events.last());
    }
}

/// The log gains exactly one entry for each success whose append went
/// through, and none for a remote error or a task fault: the entries gained,
/// the appends that failed and the one that may be under way add up to the
/// successes.
pub proof fn law_one_entry_per_success(ids: Seq<Seq<char>>, limit: nat, events: Seq<RunEvent>)
    requires
        limit > 0,
    ensures
        ({
            let start = RunView::initial(ids, limit);
            let end = start.after_all(events);
            let tally = start.tally(events);
            &&& tally.appends == end.logged()
            &&& tally.lost == end.unlogged()
            &&& tally.successes == tally.appends + tally.lost + end.logging()
            &&& tally.failures == end.failed()
            &&& end.drained() && tally.lost == 0 ==> tally.appends == tally.successes
        }),
    decreases events.len(),
{
    let start = RunView::initial(ids, limit);
    if events.len() == 0 {
        lemma_initial(ids, limit);
    } else {
        law_one_entry_per_success(ids, limit, events.drop_last());
        law_limit_holds_throughout(ids, limit, events.drop_last());
        let before = start.after_all(events.drop_last());
        match events.last() {
            RunEvent::Dispatch => {
                if before.can_dispatch() {
                    lemma_counts_after(
                        before.status,
                        before.started() as int,
                        TaskStatus::InFlight,
                    );
                }
            },
            RunEvent::Complete(ticket, outcome) => {
                if before.accepts(ticket, outcome) {
                    lemma_counts_after(before.status, ticket, outcome.status());
                }
            },
            RunEvent::Recorded(ticket, written) => {
                if before.awaits_record(ticket) {
                    lemma_counts_after(
                        before.status,
                        ticket,
                        if written {
                            TaskStatus::Logged
                        } else {
                            TaskStatus::Unlogged
                        },
                    );
                }
            },
        }
    }
}

/// The entries written to the log are those of the tickets that stand as
/// logged, one entry for each.
pub proof fn law_appended_ids_are_logged_ids(
    ids: Seq<Seq<char>>,
    limit: nat,
    events: Seq<RunEvent>,
)
    requires
        limit > 0,
    ensures
        ({
            let start = RunView::initial(ids, limit);
            let end = start.after_all(events);
            &&& start.appended(events).to_set() == end.logged_ids()
            &&& start.appended(events).len() == end.logged()
        }),
    decreases events.len(),
{
    let start = RunView::initial(ids, limit);
    let end = start.after_all(events);
    if events.len() == 0 {
        lemma_initial(ids, limit);
        lemma_count_zero(start.status, TaskStatus::Logged);
        assert(start.appended(events).to_set() =~= end.logged_ids());
    } else {
        law_appended_ids_are_logged_ids(ids, limit, events.drop_last());
        law_limit_holds_throughout(ids, limit, events.drop_last());
        let before = start.after_all(events.drop_last());
        let so_far = start.appended(events.drop_last());
        match events.last() {
            RunEvent::Dispatch => {
                if before.can_dispatch() {
                    let t = before.started() as int;
                    lemma_counts_after(before.status, t, TaskStatus::InFlight);
                    lemma_logged_ids_unchanged(before, t, TaskStatus::InFlight);
                }
            },
            RunEvent::Complete(ticket, outcome) => {
                if before.accepts(ticket, outcome) {
                    lemma_counts_after(before.status, ticket, outcome.status());
                    lemma_logged_ids_unchanged(before, ticket, outcome.status());
                }
            },
            RunEvent::Recorded(ticket, written) => {
                if before.awaits_record(ticket) {
                    if written {
                        lemma_counts_after(before.status, ticket, TaskStatus::Logged);
                        so_far.lemma_push_to_set_commute(before.ids[ticket]);
                        assert(end.logged_ids() =~= before.logged_ids().insert(
                            before.ids[ticket],
                        )) by {
                            assert forall|id: Seq<char>|
                                before.logged_ids().insert(before.ids[ticket]).contains(
                                    id,
                                ) implies end.logged_ids().contains(id) by {
                                if id == before.ids[ticket] {
                                    assert(end.status[ticket] == TaskStatus::Logged);
                                    assert(end.ids[ticket] == id);
                                } else {
                                    let t = choose|t: int|
                                        0 <= t < before.status.len() && before.status[t]
                                            == TaskStatus::Logged && before.ids[t] == id;
                                    assert(end.status[t] == TaskStatus::Logged);
                                    assert(end.ids[t] == id);
                                }
                            }
                            assert forall|id: Seq<char>|
                                end.logged_ids().contains(id) implies before.logged_ids().insert(
                                    before.ids[ticket],
                                ).contains(id) by {
                                let t = choose|t: int|
                                    0 <= t < end.status.len() && end.status[t]
                                        == TaskStatus::Logged && end.ids[t] == id;
                                if t != ticket {
                                    assert(before.status[t] == TaskStatus::Logged);
                                    assert(before.ids[t] == id);
                                }
                            }
                        }
                    } else {
                        lemma_counts_after(before.status, ticket, TaskStatus::Unlogged);
                        lemma_logged_ids_unchanged(before, ticket, TaskStatus::Unlogged);
                    }
                }
            },
        }
    }
}

/// A change of status that neither starts at `Logged` nor ends there leaves
/// the logged identifiers as they were.
pub proof fn lemma_logged_ids_unchanged(run: RunView, t: int, to: TaskStatus)
    requires
        0 <= t < run.status.len(),
        run.status[t] != TaskStatus::Logged,
        to != TaskStatus::Logged,
    ensures
        (RunView { status: run.status.update(t, to), ..run }).logged_ids() == run.logged_ids(),
{
    let next = RunView { status: run.status.update(t, to), ..run };
    assert forall|id: Seq<char>| run.logged_ids().contains(id) implies next.logged_ids().contains(
        id,
    ) by {
        let k = choose|k: int|
            0 <= k < run.status.len() && run.status[k] == TaskStatus::Logged && run.ids[k] == id;
        assert(next.status[k] == TaskStatus::Logged);
        assert(next.ids[k] == id);
    }
    assert forall|id: Seq<char>| next.logged_ids().contains(id) implies run.logged_ids().contains(
        id,
    ) by {
        let k = choose|k: int|
            0 <= k < next.status.len() && next.status[k] == TaskStatus::Logged && next.ids[k]
                == id;
        assert(run.status[k] == TaskStatus::Logged);
        assert(run.ids[k] == id);
    }
    assert(next.logged_ids() =~= run.logged_ids());
}

/// A ticket only moves forward, and once it has an end it keeps it: no
/// identifier is attempted twice in a run.
pub proof fn law_status_only_advances(run: RunView, event: RunEvent, t: int)
    requires
        run.wf(),
        0 <= t < run.status.len(),
    ensures
        stage(run.after(event).status[t]) >= stage(run.status[t]),
        stage(run.after(event).status[t]) == stage(run.status[t]) ==> run.after(event).status[t]
            == run.status[t],
{
}

/// A run that is not over can always go on: a task may start, or a task or
/// an append is under way whose end the driver can wait for.
pub proof fn law_run_never_stalls(run: RunView)
    requires
        run.wf(),
        !run.drained(),
    ensures
        run.can_dispatch() || run.in_flight() > 0 || run.logging() > 0,
{
}

/// When the run is over, every identifier has had exactly one outcome, and
/// every confirmed deletion has had its append.
pub proof fn law_drained_run_accounts_for_all(run: RunView)
    requires
        run.wf(),
        run.drained(),
    ensures
        run.succeeded() + run.failed() == run.ids.len(),
        run.logged() + run.unlogged() == run.succeeded(),
        forall|t: int| 0 <= t < run.status.len() ==> stage(#[trigger] run.status[t]) == 3,
{
    lemma_count_total(run.status);
    lemma_count_bound(run.status, TaskStatus::Queued);
    lemma_count_zero(run.status, TaskStatus::Queued);
    lemma_count_zero(run.status, TaskStatus::InFlight);
    lemma_count_zero(run.status, TaskStatus::Logging);
}

/// When the run is over and nothing failed, the log has gained the entry of
/// every pending identifier.
pub proof fn law_clean_run_logs_everything(run: RunView)
    requires
        run.wf(),
        run.drained(),
        run.failed() == 0,
        run.unlogged() == 0,
    ensures
        forall|t: int| 0 <= t < run.status.len() ==> #[trigger] run.status[t] == TaskStatus::Logged,
        run.logged_ids() == run.ids.to_set(),
{
    law_drained_run_accounts_for_all(run);
    lemma_count_zero(run.status, TaskStatus::Unlogged);
    lemma_count_zero(run.status, TaskStatus::Refused);
    lemma_count_zero(run.status, TaskStatus::Faulted);
    assert forall|t: int| 0 <= t < run.status.len() implies #[trigger] run.status[t]
        == TaskStatus::Logged by {
        assert(stage(run.status[t]) == 3);
    }
    assert forall|id: Seq<char>| run.ids.to_set().contains(id) implies run.logged_ids().contains(
        id,
    ) by {
        let t = choose|t: int| 0 <= t < run.ids.len() && run.ids[t] == id;
        assert(run.status[t] == TaskStatus::Logged);
    }
    assert(run.logged_ids() =~= run.ids.to_set());
}

/// The log gains entries only for identifiers of the run whose deletion was
/// confirmed: a ticket that was refused or faulted adds none.
pub proof fn law_logged_ids_are_pending_ids(run: RunView)
    requires
        run.wf(),
    ensures
        run.logged_ids().subset_of(run.ids.to_set()),
{
    assert forall|id: Seq<char>| run.logged_ids().contains(id) implies run.ids.to_set().contains(
        id,
    ) by {
        let t = choose|t: int|
            0 <= t < run.status.len() && run.status[t] == TaskStatus::Logged && run.ids[t] == id;
        assert(run.ids.contains(run.ids[t]));
    }
}

} // verus!
