//! The command ledger with its ranking of the slowest finished commands.

use crate::clock::current_millis;
use crate::command::{
    elapsed_of, started_record, summary_of, with_status, CommandAnomaly, CommandStatistics,
    CommandStatuSuccessful, CommandStatus, CommandStatusFailed, FinishedCommandInfo,
};
use crate::ranking::{lemma_rank_insert, rank_insert, ranked, top_slowest, SlowestIndex};
use crate::statistics::{bucket_of, lemma_tally_step, per_second, tally};
use crate::command::status_slot;
use mongodb::bson::Document;
use std::collections::HashMap;
use vstd::prelude::*;
use vstd::std_specs::iter::IteratorSpec;

verus! {

broadcast use vstd::std_specs::hash::group_hash_axioms;

/// The ledger after a start event: a fresh record is filed under
/// `request_id`, in place of any record that was there.
pub open spec fn ledger_started(
    ledger: Map<i32, CommandStatistics>,
    request_id: i32,
    name: String,
    command: Document,
    observed_at: usize,
) -> Map<i32, CommandStatistics> {
    ledger.insert(request_id, started_record(request_id, name, command, observed_at))
}

/// What a start event for `request_id` reports: a duplicate start, with the
/// record it replaces, exactly when the ledger already holds that id.
pub open spec fn start_anomaly(ledger: Map<i32, CommandStatistics>, request_id: i32) -> Option<
    CommandAnomaly,
> {
    if ledger.contains_key(request_id) {
        Some(CommandAnomaly::DuplicateStart(ledger[request_id]))
    } else {
        None
    }
}

/// The ledger after a completion event for `request_id`: the record filed
/// under it takes `status`; without such a record nothing changes.
pub open spec fn ledger_completed(
    ledger: Map<i32, CommandStatistics>,
    request_id: i32,
    status: CommandStatus,
) -> Map<i32, CommandStatistics> {
    if ledger.contains_key(request_id) {
        ledger.insert(request_id, with_status(ledger[request_id], status))
    } else {
        ledger
    }
}

/// The ranking after a completion event for `request_id`: the summary of the
/// record filed under it is added; without such a record nothing changes.
pub open spec fn slowest_completed(
    ledger: Map<i32, CommandStatistics>,
    slowest: Seq<FinishedCommandInfo>,
    request_id: i32,
    time_taken: u64,
) -> Seq<FinishedCommandInfo> {
    if ledger.contains_key(request_id) {
        rank_insert(slowest, summary_of(ledger[request_id], time_taken))
    } else {
        slowest
    }
}

/// What a completion event for `request_id` reports: an orphan completion
/// exactly when the ledger holds no record under that id.
pub open spec fn completion_anomaly(ledger: Map<i32, CommandStatistics>, request_id: i32) -> Option<
    CommandAnomaly,
> {
    if ledger.contains_key(request_id) {
        None
    } else {
        Some(CommandAnomaly::OrphanCompletion(request_id))
    }
}

/// Every record is filed under its own id.
pub open spec fn keyed_by_id(ledger: Map<i32, CommandStatistics>) -> bool {
    forall|id: i32| #[trigger] ledger.contains_key(id) ==> ledger[id].request_id == id
}

/// Every finished record of the ledger has its summary in the ranking.
pub open spec fn finished_are_ranked(
    ledger: Map<i32, CommandStatistics>,
    slowest: Seq<FinishedCommandInfo>,
) -> bool {
    forall|id: i32| #[trigger]
        ledger.contains_key(id) ==> match elapsed_of(ledger[id].status) {
            Some(time_taken) => slowest.contains(summary_of(ledger[id], time_taken)),
            None => true,
        }
}

/// Ledger of commands together with the ranking of the finished ones.
pub struct DatabaseMetric {
    commands: HashMap<i32, CommandStatistics>,
    slowest_commands: SlowestIndex,
}

impl DatabaseMetric {
    #[verifier::type_invariant]
    spec fn consistent(&self) -> bool {
        &&& ranked(self.slowest_commands@)
        &&& keyed_by_id(self.commands@)
        &&& finished_are_ranked(self.commands@, self.slowest_commands@)
    }

    /// The ledger: each known request id with its record.
    pub closed spec fn ledger(&self) -> Map<i32, CommandStatistics> {
        self.commands@
    }

    /// The ranking of finished commands, slowest first.
    pub closed spec fn slowest(&self) -> Seq<FinishedCommandInfo> {
        self.slowest_commands@
    }

    /// A metric store with an empty ledger and an empty ranking.
    pub fn new() -> (metric: Self)
        ensures
            metric.ledger() == Map::<i32, CommandStatistics>::empty(),
            metric.slowest() == Seq::<FinishedCommandInfo>::empty(),
    {
        DatabaseMetric { commands: HashMap::new(), slowest_commands: SlowestIndex::new() }
    }

    /// Files a command that started at `observed_at` (milliseconds since the
    /// epoch) under `request_id`. A record already filed under that id is
    /// replaced and handed back as a duplicate-start anomaly.
    pub fn add_init_command_at(
        &mut self,
        request_id: i32,
        name: String,
        command: Document,
        observed_at: usize,
    ) -> (anomaly: Option<CommandAnomaly>)
        ensures
            final(self).ledger() == ledger_started(
                old(self).ledger(),
                request_id,
                name,
                command,
                observed_at,
            ),
            final(self).slowest() == old(self).slowest(),
            anomaly == start_anomaly(old(self).ledger(), request_id),
    {
        proof {
            use_type_invariant(&*self);
        }
        let mut commands: HashMap<i32, CommandStatistics> = HashMap::new();
        core::mem::swap(&mut self.commands, &mut commands);
        let record = CommandStatistics::started_at(request_id, name, command, observed_at);
        let replaced = commands.insert(request_id, record);
        self.commands = commands;
        match replaced {
            Some(previous) => Some(CommandAnomaly::DuplicateStart(previous)),
            None => None,
        }
    }

    /// Applies a completion: the record filed under `request_id` takes
    /// `status`, and its summary enters the ranking. Without such a record
    /// nothing changes and the orphan is reported.
    fn complete(&mut self, request_id: i32, time_taken: u64, status: CommandStatus) -> (anomaly:
        Option<CommandAnomaly>)
        requires
            elapsed_of(status) == Some(time_taken),
        ensures
            final(self).ledger() == ledger_completed(old(self).ledger(), request_id, status),
            final(self).slowest() == slowest_completed(
                old(self).ledger(),
                old(self).slowest(),
                request_id,
                time_taken,
            ),
            anomaly == completion_anomaly(old(self).ledger(), request_id),
    {
        proof {
            use_type_invariant(&*self);
        }
        let mut commands: HashMap<i32, CommandStatistics> = HashMap::new();
        core::mem::swap(&mut self.commands, &mut commands);
        let ghost before = commands@;
        match commands.remove(&request_id) {
            Some(record) => {
                let mut slowest = SlowestIndex::new();
                core::mem::swap(&mut self.slowest_commands, &mut slowest);
                let ghost ranking = slowest@;
                let entry = FinishedCommandInfo::new(
                    time_taken,
                    record.name.clone(),
                    record.command.clone(),
                );
                slowest.insert(entry);
                let finished = CommandStatistics {
                    request_id: record.request_id,
                    name: record.name,
                    status,
                    command: record.command,
                    intercepted_time: record.intercepted_time,
                };
                let _ = commands.insert(request_id, finished);
                proof {
                    lemma_rank_insert(ranking, entry);
                    assert(commands@ =~= before.insert(request_id, finished));
                    assert(finished_are_ranked(commands@, slowest@)) by {
                        assert forall|id: i32| #[trigger]
                            commands@.contains_key(id) implies match elapsed_of(
                            commands@[id].status,
                        ) {
                            Some(taken) => slowest@.contains(summary_of(commands@[id], taken)),
                            None => true,
                        } by {
                            if id != request_id {
                                assert(before.contains_key(id));
                            }
                        }
                    }
                }
                *self = DatabaseMetric { commands, slowest_commands: slowest };
                None
            },
            None => {
                assert(commands@ =~= before);
                self.commands = commands;
                Some(CommandAnomaly::OrphanCompletion(request_id))
            },
        }
    }

    /// Records that the command filed under `request_id` failed after
    /// `time_taken` nanoseconds with `message`. The record takes the failed
    /// status and its summary enters the ranking. An id the ledger does not
    /// hold changes nothing and is reported as an orphan completion.
    pub fn add_failed_command(&mut self, request_id: i32, time_taken: u64, message: String) -> (anomaly:
        Option<CommandAnomaly>)
        ensures
            final(self).ledger() == ledger_completed(
                old(self).ledger(),
                request_id,
                CommandStatus::FAILED(CommandStatusFailed { time_taken, message }),
            ),
            final(self).slowest() == slowest_completed(
                old(self).ledger(),
                old(self).slowest(),
                request_id,
                time_taken,
            ),
            anomaly == completion_anomaly(old(self).ledger(), request_id),
    {
        self.complete(
            request_id,
            time_taken,
            CommandStatus::FAILED(CommandStatusFailed { time_taken, message }),
        )
    }

    /// Records that the command filed under `request_id` succeeded after
    /// `time_taken` nanoseconds with `reply`. The record takes the successful
    /// status and its summary enters the ranking. An id the ledger does not
    /// hold changes nothing and is reported as an orphan completion.
    pub fn add_successful_command(&mut self, request_id: i32, time_taken: u64, reply: Document) -> (anomaly:
        Option<CommandAnomaly>)
        ensures
            final(self).ledger() == ledger_completed(
                old(self).ledger(),
                request_id,
                CommandStatus::SUCCESSFUL(CommandStatuSuccessful { time_taken, reply }),
            ),
            final(self).slowest() == slowest_completed(
                old(self).ledger(),
                old(self).slowest(),
                request_id,
                time_taken,
            ),
            anomaly == completion_anomaly(old(self).ledger(), request_id),
    {
        self.complete(
            request_id,
            time_taken,
            CommandStatus::SUCCESSFUL(CommandStatuSuccessful { time_taken, reply }),
        )
    }

    /// The `n` slowest finished commands, slowest first; all of them when
    /// fewer than `n` have finished.
    pub fn get_n_slowest_commands(&self, n: usize) -> (top: Vec<FinishedCommandInfo>)
        ensures
            top@ == top_slowest(self.slowest(), n as nat),
            top@.len() == if n <= self.slowest().len() { n as nat } else { self.slowest().len() },
            ranked(top@),
    {
        self.slowest_commands.top_n_slowest(n)
    }

    /// The per-second statistics of the ledger over the `count` seconds that
    /// end at `now` (milliseconds since the epoch): `count` triples, oldest
    /// second first, each counting the started, failed and successful
    /// commands observed in that second.
    pub fn get_commands_statistics_at(&self, now: usize, count: usize) -> (stats: Vec<
        (usize, usize, usize),
    >)
        ensures
            per_second(self.ledger(), now, count, stats@),
    {
        let mut stats: Vec<(usize, usize, usize)> = Vec::new();
        let mut filled: usize = 0;
        while filled < count
            invariant
                filled <= count,
                stats@.len() == filled,
                forall|bucket: int| 0 <= bucket < filled ==> stats@[bucket] == (0usize, 0usize, 0usize),
            decreases count - filled,
        {
            stats.push((0usize, 0usize, 0usize));
            filled += 1;
        }
        let total = self.commands.len();
        let ghost ledger = self.commands@;
        let ghost all = vstd::std_specs::hash::spec_hash_map_iter(&self.commands).remaining();
        let ghost mut seen: Set<i32> = Set::empty();
        proof {
            vstd::std_specs::hash::axiom_spec_hash_map_iter(&self.commands);
            assert forall|bucket: int, slot: int| #[trigger]
                tally(ledger, seen, now, count, bucket, slot) == 0 by {
                assert(seen.filter(
                    |id: i32|
                        ledger.contains_key(id) && bucket_of(
                            ledger[id].intercepted_time,
                            now,
                            count,
                        ) == Some(bucket) && status_slot(ledger[id].status) == slot,
                ) =~= Set::<i32>::empty());
            }
        }
        for pair in records: self.commands.iter()
            invariant
                ledger == self.commands@,
                records.seq() == all,
                all.len() == total,
                all.no_duplicates(),
                forall|i: int|
                    0 <= i < all.len() ==> ledger.contains_key(*all[i].0) && ledger[*all[i].0]
                        == *all[i].1,
                seen.finite(),
                seen.len() == records.index(),
                forall|id: i32|
                    seen.contains(id) <==> exists|i: int|
                        0 <= i < records.index() && *all[i].0 == id,
                stats@.len() == count,
                forall|bucket: int|
                    0 <= bucket < count ==> {
                        &&& (#[trigger] stats@[bucket]).0 == tally(ledger, seen, now, count, bucket, 0)
                        &&& stats@[bucket].1 == tally(ledger, seen, now, count, bucket, 1)
                        &&& stats@[bucket].2 == tally(ledger, seen, now, count, bucket, 2)
                    },
        {
            let (id, record) = pair;
            let ghost visited = records.index();
            proof {
                assert(pair == all[visited]);
                assert(!seen.contains(*id)) by {
                    if seen.contains(*id) {
                        let i = choose|i: int| 0 <= i < visited && *all[i].0 == *id;
                        assert(ledger[*all[i].0] == *all[i].1);
                        assert(all[i] == all[visited]);
                    }
                }
                assert forall|bucket: int, slot: int|
                    tally(ledger, seen.insert(*id), now, count, bucket, slot) == (#[trigger] tally(
                        ledger,
                        seen,
                        now,
                        count,
                        bucket,
                        slot,
                    )) + if bucket_of(ledger[*id].intercepted_time, now, count) == Some(bucket)
                        && status_slot(ledger[*id].status) == slot {
                        1nat
                    } else {
                        0nat
                    } && tally(ledger, seen, now, count, bucket, slot) <= seen.len() by {
                    lemma_tally_step(ledger, seen, *id, now, count, bucket, slot);
                }
            }
            let observed = record.intercepted_time;
            if count > 0 && observed <= now {
                let age: u128 = (now - observed) as u128;
                let span: u128 = (count as u128) * 1000;
                if age <= span {
                    let whole: u128 = (span - age) / 1000;
                    let bucket: usize = if whole < count as u128 {
                        whole as usize
                    } else {
                        count - 1
                    };
                    assert(bucket_of(observed, now, count) == Some(bucket as int));
                    let (started, failed, successful) = stats[bucket];
                    let updated = match record.status {
                        CommandStatus::STARTED => (started + 1, failed, successful),
                        CommandStatus::FAILED(_) => (started, failed + 1, successful),
                        CommandStatus::SUCCESSFUL(_) => (started, failed, successful + 1),
                    };
                    stats.set(bucket, updated);
                } else {
                    assert(bucket_of(observed, now, count) is None);
                }
            } else {
                assert(bucket_of(observed, now, count) is None);
            }
            proof {
                let earlier = seen;
                seen = seen.insert(*id);
                assert forall|other: i32|
                    seen.contains(other) <==> exists|i: int|
                        0 <= i < visited + 1 && *all[i].0 == other by {
                    if earlier.contains(other) {
                        let i = choose|i: int| 0 <= i < visited && *all[i].0 == other;
                        assert(0 <= i < visited + 1 && *all[i].0 == other);
                    }
                    if other == *id {
                        assert(0 <= visited < visited + 1 && *all[visited].0 == other);
                    }
                }
            }
        }
        proof {
            assert(seen =~= ledger.dom()) by {
                assert forall|id: i32| ledger.contains_key(id) implies seen.contains(id) by {
                    let pair = (&id, &ledger[id]);
                    assert(all.contains(pair));
                    let i = choose|i: int| 0 <= i < all.len() && all[i] == pair;
                    assert(*all[i].0 == id);
                }
            }
        }
        stats
    }

    /// Files a command that starts now: as `add_init_command_at` with the
    /// system clock's reading as the time of observation.
    pub fn add_init_command(&mut self, request_id: i32, name: String, command: Document) -> (anomaly:
        Option<CommandAnomaly>)
        ensures
            exists|observed_at: usize|
                final(self).ledger() == #[trigger] ledger_started(
                    old(self).ledger(),
                    request_id,
                    name,
                    command,
                    observed_at,
                ),
            final(self).slowest() == old(self).slowest(),
            anomaly == start_anomaly(old(self).ledger(), request_id),
    {
        let observed_at = current_millis();
        self.add_init_command_at(request_id, name, command, observed_at)
    }

    /// The per-second statistics over the `count` seconds that end now: as
    /// `get_commands_statistics_at` with the system clock's reading.
    pub fn get_commands_statistics_per_sec(&self, count: usize) -> (stats: Vec<(usize, usize, usize)>)
        ensures
            exists|now: usize| #[trigger] per_second(self.ledger(), now, count, stats@),
            stats@.len() == count,
    {
        let now = current_millis();
        self.get_commands_statistics_at(now, count)
    }

    /// A copy of the record filed under `request_id`, if there is one.
    pub fn get_command(&self, request_id: i32) -> (record: Option<CommandStatistics>)
        ensures
            record == if self.ledger().contains_key(request_id) {
                Some(self.ledger()[request_id])
            } else {
                None::<CommandStatistics>
            },
    {
        match self.commands.get(&request_id) {
            Some(found) => Some(found.clone()),
            None => None,
        }
    }

    /// A copy of the ledger.
    pub fn snapshot(&self) -> (copy: HashMap<i32, CommandStatistics>)
        ensures
            copy@ == self.ledger(),
    {
        self.commands.clone()
    }
}

impl Default for DatabaseMetric {
    fn default() -> (metric: Self)
        ensures
            metric.ledger() == Map::<i32, CommandStatistics>::empty(),
            metric.slowest() == Seq::<FinishedCommandInfo>::empty(),
    {
        DatabaseMetric::new()
    }
}

} // verus!
