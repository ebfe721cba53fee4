//! Streams of command events and what holds of the ledger and the ranking
//! after any such stream.

use crate::command::{
    elapsed_of, summary_of, CommandAnomaly, CommandStatistics, CommandStatuSuccessful,
    CommandStatus, CommandStatusFailed, FinishedCommandInfo,
};
use crate::metric::{
    completion_anomaly, finished_are_ranked, keyed_by_id, ledger_completed, ledger_started,
    slowest_completed, start_anomaly, DatabaseMetric,
};
use crate::ranking::{lemma_rank_insert, lemma_rank_position_bounds, ranked, top_slowest};
use mongodb::bson::Document;
use vstd::prelude::*;

verus! {

/// One event of a command's lifecycle as the driver reports it.
#[derive(Debug, PartialEq)]
pub enum CommandEvent {
    Started { request_id: i32, name: String, command: Document, observed_at: usize },
    Failed { request_id: i32, time_taken: u64, message: String },
    Succeeded { request_id: i32, time_taken: u64, reply: Document },
}

/// The ledger and the ranking taken together.
pub struct MetricState {
    pub ledger: Map<i32, CommandStatistics>,
    pub slowest: Seq<FinishedCommandInfo>,
}

impl DatabaseMetric {
    /// The ledger and the ranking of this store.
    pub open spec fn state(&self) -> MetricState {
        MetricState { ledger: self.ledger(), slowest: self.slowest() }
    }
}

/// The state before any event.
pub open spec fn initial_state() -> MetricState {
    MetricState { ledger: Map::empty(), slowest: Seq::empty() }
}

/// The id an event speaks of.
pub open spec fn event_id(event: CommandEvent) -> i32 {
    match event {
        CommandEvent::Started { request_id, .. } => request_id,
        CommandEvent::Failed { request_id, .. } => request_id,
        CommandEvent::Succeeded { request_id, .. } => request_id,
    }
}

/// The state that follows `state` when `event` arrives.
pub open spec fn step(state: MetricState, event: CommandEvent) -> MetricState {
    match event {
        CommandEvent::Started { request_id, name, command, observed_at } => MetricState {
            ledger: ledger_started(state.ledger, request_id, name, command, observed_at),
            slowest: state.slowest,
        },
        CommandEvent::Failed { request_id, time_taken, message } => MetricState {
            ledger: ledger_completed(
                state.ledger,
                request_id,
                CommandStatus::FAILED(CommandStatusFailed { time_taken, message }),
            ),
            slowest: slowest_completed(state.ledger, state.slowest, request_id, time_taken),
        },
        CommandEvent::Succeeded { request_id, time_taken, reply } => MetricState {
            ledger: ledger_completed(
                state.ledger,
                request_id,
                CommandStatus::SUCCESSFUL(CommandStatuSuccessful { time_taken, reply }),
            ),
            slowest: slowest_completed(state.ledger, state.slowest, request_id, time_taken),
        },
    }
}

/// The anomaly that `event` raises when it arrives in `state`, if any.
pub open spec fn reported(state: MetricState, event: CommandEvent) -> Option<CommandAnomaly> {
    match event {
        CommandEvent::Started { request_id, .. } => start_anomaly(state.ledger, request_id),
        CommandEvent::Failed { request_id, .. } => completion_anomaly(state.ledger, request_id),
        CommandEvent::Succeeded { request_id, .. } => completion_anomaly(state.ledger, request_id),
    }
}

/// The state after every event of `events` has arrived in order, starting
/// from `state`.
pub open spec fn replay(state: MetricState, events: Seq<CommandEvent>) -> MetricState
    decreases events.len(),
{
    if events.len() == 0 {
        state
    } else {
        step(replay(state, events.drop_last()), events.last())
    }
}

impl DatabaseMetric {
    /// Takes in one event: the store moves on as `step` says, and the
    /// anomaly that the event raises, if any, is handed back. A start event
    /// is filed as observed at the time it carries.
    pub fn record_event(&mut self, event: CommandEvent) -> (anomaly: Option<CommandAnomaly>)
        ensures
            final(self).state() == step(old(self).state(), event),
            anomaly == reported(old(self).state(), event),
    {
        match event {
            CommandEvent::Started { request_id, name, command, observed_at } => {
                self.add_init_command_at(request_id, name, command, observed_at)
            },
            CommandEvent::Failed { request_id, time_taken, message } => {
                self.add_failed_command(request_id, time_taken, message)
            },
            CommandEvent::Succeeded { request_id, time_taken, reply } => {
                self.add_successful_command(request_id, time_taken, reply)
            },
        }
    }
}

/// The ranking is ordered, records sit under their own ids and every
/// finished record has its summary in the ranking.
pub open spec fn consistent(state: MetricState) -> bool {
    &&& ranked(state.slowest)
    &&& keyed_by_id(state.ledger)
    &&& finished_are_ranked(state.ledger, state.slowest)
}

/// No event breaks the consistency of ledger and ranking, whatever its kind
/// and whether or not it pairs up with another event.
pub proof fn lemma_step_consistent(state: MetricState, event: CommandEvent)
    requires
        consistent(state),
    ensures
        consistent(step(state, event)),
{
    let next = step(state, event);
    match event {
        CommandEvent::Started { request_id, name, command, observed_at } => {
        },
        CommandEvent::Failed { request_id, time_taken, message } => {
            if state.ledger.contains_key(request_id) {
                lemma_rank_insert(
                    state.slowest,
                    summary_of(state.ledger[request_id], time_taken),
                );
                assert forall|id: i32| #[trigger] next.ledger.contains_key(id) implies match elapsed_of(
                    next.ledger[id].status,
                ) {
                    Some(taken) => next.slowest.contains(summary_of(next.ledger[id], taken)),
                    None => true,
                } by {
                    if id != request_id {
                        assert(state.ledger.contains_key(id));
                    }
                }
            }
        },
        CommandEvent::Succeeded { request_id, time_taken, reply } => {
            if state.ledger.contains_key(request_id) {
                lemma_rank_insert(
                    state.slowest,
                    summary_of(state.ledger[request_id], time_taken),
                );
                assert forall|id: i32| #[trigger] next.ledger.contains_key(id) implies match elapsed_of(
                    next.ledger[id].status,
                ) {
                    Some(taken) => next.slowest.contains(summary_of(next.ledger[id], taken)),
                    None => true,
                } by {
                    if id != request_id {
                        assert(state.ledger.contains_key(id));
                    }
                }
            }
        },
    }
}

/// After any stream of events, from the start, ledger and ranking are
/// consistent.
pub proof fn lemma_replay_consistent(events: Seq<CommandEvent>)
    ensures
        consistent(replay(initial_state(), events)),
    decreases events.len(),
{
    if events.len() > 0 {
        lemma_replay_consistent(events.drop_last());
        lemma_step_consistent(replay(initial_state(), events.drop_last()), events.last());
    }
}

/// An id that the ledger holds stays in it, whatever events follow.
pub proof fn lemma_ids_stay(state: MetricState, events: Seq<CommandEvent>, request_id: i32)
    requires
        state.ledger.contains_key(request_id),
    ensures
        replay(state, events).ledger.contains_key(request_id),
    decreases events.len(),
{
    if events.len() > 0 {
        lemma_ids_stay(state, events.drop_last(), request_id);
    }
}

/// Every id that a start event of the stream names is in the ledger afterwards.
pub proof fn lemma_started_are_filed(state: MetricState, events: Seq<CommandEvent>, index: int)
    requires
        0 <= index < events.len(),
        events[index] is Started,
    ensures
        replay(state, events).ledger.contains_key(event_id(events[index])),
    decreases events.len(),
{
    if index < events.len() - 1 {
        lemma_started_are_filed(state, events.drop_last(), index);
    }
}

/// Replaying one stream and then another is replaying the two joined.
pub proof fn lemma_replay_joined(
    state: MetricState,
    first: Seq<CommandEvent>,
    second: Seq<CommandEvent>,
)
    ensures
        replay(state, first + second) == replay(replay(state, first), second),
    decreases second.len(),
{
    if second.len() == 0 {
        assert(first + second =~= first);
    } else {
        assert((first + second).drop_last() =~= first + second.drop_last());
        assert((first + second).last() == second.last());
        lemma_replay_joined(state, first, second.drop_last());
    }
}

/// A stream of completions whose ids the ledger holds adds one ranking
/// entry for each of them.
pub proof fn lemma_completions_are_ranked(state: MetricState, completions: Seq<CommandEvent>)
    requires
        forall|i: int|
            0 <= i < completions.len() ==> !(completions[i] is Started)
                && state.ledger.contains_key(event_id(#[trigger] completions[i])),
    ensures
        replay(state, completions).slowest.len() == state.slowest.len() + completions.len(),
        forall|i: int|
            0 <= i < completions.len() ==> reported(
                replay(state, completions.take(i)),
                #[trigger] completions[i],
            ) is None,
    decreases completions.len(),
{
    if completions.len() > 0 {
        let earlier = completions.drop_last();
        let last = completions.last();
        assert forall|i: int| 0 <= i < earlier.len() implies !(earlier[i] is Started)
            && state.ledger.contains_key(event_id(#[trigger] earlier[i])) by {
            assert(earlier[i] == completions[i]);
        }
        lemma_completions_are_ranked(state, earlier);
        lemma_ids_stay(state, earlier, event_id(last));
        let before = replay(state, earlier);
        match last {
            CommandEvent::Started { .. } => {
            },
            CommandEvent::Failed { time_taken, .. } => {
                lemma_rank_position_bounds(before.slowest, time_taken);
            },
            CommandEvent::Succeeded { time_taken, .. } => {
                lemma_rank_position_bounds(before.slowest, time_taken);
            },
        }
        assert forall|i: int| 0 <= i < completions.len() implies reported(
            replay(state, completions.take(i)),
            #[trigger] completions[i],
        ) is None by {
            if i < earlier.len() {
                assert(completions.take(i) =~= earlier.take(i));
                assert(earlier[i] == completions[i]);
            } else {
                assert(completions.take(i) =~= earlier);
            }
        }
    }
}

/// Start events followed by completion events that each name a started id:
/// the `n` slowest are then as many as asked for, or as many as completed if
/// that is fewer, and they are ordered slowest first.
pub proof fn lemma_top_after_paired_run(
    starts: Seq<CommandEvent>,
    completions: Seq<CommandEvent>,
    n: nat,
)
    requires
        forall|i: int| 0 <= i < starts.len() ==> #[trigger] starts[i] is Started,
        forall|i: int|
            0 <= i < completions.len() ==> !(#[trigger] completions[i] is Started) && exists|
                j: int,
            |
                0 <= j < starts.len() && event_id(starts[j]) == event_id(completions[i]),
    ensures
        ({
            let top = top_slowest(replay(initial_state(), starts + completions).slowest, n);
            &&& top.len() == if n <= completions.len() {
                n
            } else {
                completions.len()
            }
            &&& ranked(top)
        }),
{
    let opened = replay(initial_state(), starts);
    lemma_starts_rank_nothing(initial_state(), starts);
    assert forall|i: int| 0 <= i < completions.len() implies !(completions[i] is Started)
        && opened.ledger.contains_key(event_id(#[trigger] completions[i])) by {
        let j = choose|j: int|
            0 <= j < starts.len() && event_id(starts[j]) == event_id(completions[i]);
        lemma_started_are_filed(initial_state(), starts, j);
    }
    lemma_completions_are_ranked(opened, completions);
    lemma_replay_joined(initial_state(), starts, completions);
    lemma_replay_consistent(starts + completions);
}

/// Start events leave the ranking as it is.
pub proof fn lemma_starts_rank_nothing(state: MetricState, starts: Seq<CommandEvent>)
    requires
        forall|i: int| 0 <= i < starts.len() ==> #[trigger] starts[i] is Started,
    ensures
        replay(state, starts).slowest == state.slowest,
    decreases starts.len(),
{
    if starts.len() > 0 {
        assert(starts.last() is Started);
        assert forall|i: int| 0 <= i < starts.drop_last().len() implies #[trigger] starts.drop_last()[i] is Started by {
            assert(starts.drop_last()[i] == starts[i]);
        }
        lemma_starts_rank_nothing(state, starts.drop_last());
    }
}

/// A start event for an id, followed at once by another for the same id:
/// the second raises exactly the duplicate-start anomaly, with the first
/// one's record attached, and the ledger then holds the second one's record
/// under that id and nothing else that it did not hold before.
pub proof fn lemma_duplicate_start(state: MetricState, first: CommandEvent, second: CommandEvent)
    requires
        first is Started,
        second is Started,
        event_id(first) == event_id(second),
    ensures
        reported(step(state, first), second) == Some(
            CommandAnomaly::DuplicateStart(step(state, first).ledger[event_id(first)]),
        ),
        step(state, first).ledger[event_id(first)].status == CommandStatus::STARTED,
        step(step(state, first), second).ledger.dom() == state.ledger.dom().insert(
            event_id(first),
        ),
        step(step(state, first), second).ledger == step(state, second).ledger,
        step(step(state, first), second).slowest == state.slowest,
{
    assert(step(step(state, first), second).ledger =~= step(state, second).ledger);
    assert(step(step(state, first), second).ledger.dom() =~= state.ledger.dom().insert(
        event_id(first),
    ));
}

/// A completion event for an id that the ledger does not hold raises the
/// orphan-completion anomaly and changes neither ledger nor ranking.
pub proof fn lemma_orphan_completion(state: MetricState, event: CommandEvent)
    requires
        !(event is Started),
        !state.ledger.contains_key(event_id(event)),
    ensures
        reported(state, event) == Some(CommandAnomaly::OrphanCompletion(event_id(event))),
        step(state, event) == state,
{
}

} // verus!
