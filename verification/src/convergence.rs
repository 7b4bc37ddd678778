//! Why repeated runs converge: what one run leaves in the log decides what
//! the next run finds pending.
//!
//! In each law `inventory` holds the identifiers of the inventory, `log` is
//! the text of the completion log at the start of a run, and `events` is
//! what happened in the run, first to last. The run starts from the pending
//! identifiers, and its driver appends to the log the entry of each
//! identifier whose append the run reports as written.

use crate::identifiers::{
    law_nothing_pending, law_unlogged_id_is_pending, lemma_pending_ids, pending_ids,
};
use crate::progress_log::{
    entries_of, fits_one_line, law_entries_add_their_lines, lines_of, newline_terminated,
};
use crate::run_laws::{
    law_appended_ids_are_logged_ids, law_clean_run_logs_everything, law_limit_holds_throughout,
    law_logged_ids_are_pending_ids,
};
use crate::run_model::{RunEvent, RunView, TaskStatus};
use vstd::prelude::*;

verus! {

/// The identifiers that a log confirms as deleted.
pub open spec fn completed_in(log: Seq<char>) -> Set<Seq<char>> {
    lines_of(log).to_set()
}

/// Whether each of the identifiers reads back as itself from a line of its
/// own.
pub open spec fn each_fits_one_line(ids: Seq<Seq<char>>) -> bool {
    forall|i: int| 0 <= i < ids.len() ==> fits_one_line(#[trigger] ids[i])
}

/// The run of the pending identifiers, before anything has happened.
pub open spec fn first_run(inventory: Seq<Seq<char>>, log: Seq<char>, limit: nat) -> RunView {
    RunView::initial(pending_ids(inventory, completed_in(log)), limit)
}

/// The log as it stands after the events of a run.
pub open spec fn log_after(
    inventory: Seq<Seq<char>>,
    log: Seq<char>,
    limit: nat,
    events: Seq<RunEvent>,
) -> Seq<char> {
    log + entries_of(first_run(inventory, log, limit).appended(events))
}

/// What a run appends are entries of pending identifiers, so the log reads
/// back as what it held and what the run has logged.
pub proof fn lemma_log_after(
    inventory: Seq<Seq<char>>,
    log: Seq<char>,
    limit: nat,
    events: Seq<RunEvent>,
)
    requires
        limit > 0,
        newline_terminated(log),
        each_fits_one_line(pending_ids(inventory, completed_in(log))),
    ensures
        completed_in(log_after(inventory, log, limit, events)) == completed_in(log).union(
            first_run(inventory, log, limit).after_all(events).logged_ids(),
        ),
        newline_terminated(log_after(inventory, log, limit, events)),
{
    let pending = pending_ids(inventory, completed_in(log));
    let start = first_run(inventory, log, limit);
    let end = start.after_all(events);
    let appended = start.appended(events);
    law_limit_holds_throughout(pending, limit, events);
    law_appended_ids_are_logged_ids(pending, limit, events);
    law_logged_ids_are_pending_ids(end);
    assert forall|i: int| 0 <= i < appended.len() implies fits_one_line(
        #[trigger] appended[i],
    ) by {
        assert(appended.contains(appended[i]));
        assert(appended.to_set().contains(appended[i]));
        assert(pending.to_set().contains(appended[i]));
        let k = choose|k: int| 0 <= k < pending.len() && pending[k] == appended[i];
        assert(fits_one_line(pending[k]));
    }
    law_entries_add_their_lines(log, appended);
}

/// After a run in which no deletion and no append failed, a second run finds
/// nothing pending.
pub proof fn law_second_run_is_empty(
    inventory: Seq<Seq<char>>,
    log: Seq<char>,
    limit: nat,
    events: Seq<RunEvent>,
)
    requires
        limit > 0,
        newline_terminated(log),
        each_fits_one_line(pending_ids(inventory, completed_in(log))),
        first_run(inventory, log, limit).after_all(events).drained(),
        first_run(inventory, log, limit).after_all(events).failed() == 0,
        first_run(inventory, log, limit).after_all(events).unlogged() == 0,
    ensures
        pending_ids(inventory, completed_in(log_after(inventory, log, limit, events))).len() == 0,
{
    let pending = pending_ids(inventory, completed_in(log));
    let end = first_run(inventory, log, limit).after_all(events);
    let after = completed_in(log_after(inventory, log, limit, events));
    lemma_log_after(inventory, log, limit, events);
    law_limit_holds_throughout(pending, limit, events);
    law_clean_run_logs_everything(end);
    lemma_pending_ids(inventory, completed_in(log));
    assert forall|id: Seq<char>| inventory.to_set().contains(id) implies after.contains(id) by {
        if !completed_in(log).contains(id) {
            assert(pending.to_set().contains(id));
        }
    }
    law_nothing_pending(inventory, after);
}

/// An identifier whose entry the log did not gain is pending again in the
/// next run: one that was refused, one whose task faulted, one whose append
/// failed after a confirmed deletion, and one that was never started because
/// the run was cut short.
pub proof fn law_unfinished_id_is_retried(
    inventory: Seq<Seq<char>>,
    log: Seq<char>,
    limit: nat,
    events: Seq<RunEvent>,
    ticket: int,
)
    requires
        limit > 0,
        newline_terminated(log),
        each_fits_one_line(pending_ids(inventory, completed_in(log))),
        0 <= ticket < pending_ids(inventory, completed_in(log)).len(),
        first_run(inventory, log, limit).after_all(events).status[ticket] != TaskStatus::Logged,
    ensures
        pending_ids(inventory, completed_in(log_after(inventory, log, limit, events))).contains(
            pending_ids(inventory, completed_in(log))[ticket],
        ),
{
    let pending = pending_ids(inventory, completed_in(log));
    let end = first_run(inventory, log, limit).after_all(events);
    let after = completed_in(log_after(inventory, log, limit, events));
    let id = pending[ticket];
    lemma_log_after(inventory, log, limit, events);
    law_limit_holds_throughout(pending, limit, events);
    lemma_pending_ids(inventory, completed_in(log));
    assert(pending.contains(id));
    assert(pending.to_set().contains(id));
    assert(inventory.to_set().contains(id));
    assert(inventory.contains(id));
    if end.logged_ids().contains(id) {
        let t = choose|t: int|
            0 <= t < end.status.len() && end.status[t] == TaskStatus::Logged && end.ids[t] == id;
        assert(t != ticket);
    }
    law_unlogged_id_is_pending(inventory, after, id);
}

/// The log only grows: what was completed before a run is completed after
/// it, however the run went, and is never pending again.
pub proof fn law_completed_stays_completed(
    inventory: Seq<Seq<char>>,
    log: Seq<char>,
    limit: nat,
    events: Seq<RunEvent>,
)
    requires
        limit > 0,
        newline_terminated(log),
        each_fits_one_line(pending_ids(inventory, completed_in(log))),
    ensures
        completed_in(log).subset_of(completed_in(log_after(inventory, log, limit, events))),
        pending_ids(
            inventory,
            completed_in(log_after(inventory, log, limit, events)),
        ).to_set().subset_of(pending_ids(inventory, completed_in(log)).to_set()),
{
    lemma_log_after(inventory, log, limit, events);
    lemma_pending_ids(inventory, completed_in(log));
    lemma_pending_ids(inventory, completed_in(log_after(inventory, log, limit, events)));
}

} // verus!
