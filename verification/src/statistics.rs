//! Per-second statistics over a trailing window of the ledger.

use crate::command::{status_slot, CommandStatistics};
use vstd::prelude::*;

verus! {

/// The one-second bucket of a trailing window of `window` seconds ending at
/// `now` that a command observed at `observed_at` falls into. The window
/// spans the milliseconds from `now - window * 1000` to `now`, both included;
/// bucket 0 is the oldest second, and a command observed at `now` itself
/// counts in the last bucket. A command outside the window has no bucket.
pub open spec fn bucket_of(observed_at: usize, now: usize, window: usize) -> Option<int> {
    let start = now - window * 1000;
    if window > 0 && start <= observed_at <= now {
        let whole = (observed_at - start) / 1000;
        Some(if whole < window { whole } else { window - 1 })
    } else {
        None
    }
}

/// How many of the ids in `ids` the ledger files with a record that falls
/// into `bucket` and is tallied under `slot`.
pub open spec fn tally(
    ledger: Map<i32, CommandStatistics>,
    ids: Set<i32>,
    now: usize,
    window: usize,
    bucket: int,
    slot: int,
) -> nat {
    ids.filter(
        |id: i32|
            ledger.contains_key(id) && bucket_of(ledger[id].intercepted_time, now, window) == Some(
                bucket,
            ) && status_slot(ledger[id].status) == slot,
    ).len()
}

/// The statistics of a ledger over the `window` seconds that end at `now`:
/// one triple per second, oldest first, counting the commands observed in
/// that second that are started, failed and successful.
pub open spec fn per_second(
    ledger: Map<i32, CommandStatistics>,
    now: usize,
    window: usize,
    stats: Seq<(usize, usize, usize)>,
) -> bool {
    &&& stats.len() == window
    &&& forall|bucket: int|
        0 <= bucket < window ==> {
            &&& (#[trigger] stats[bucket]).0 == tally(ledger, ledger.dom(), now, window, bucket, 0)
            &&& stats[bucket].1 == tally(ledger, ledger.dom(), now, window, bucket, 1)
            &&& stats[bucket].2 == tally(ledger, ledger.dom(), now, window, bucket, 2)
        }
}

/// Looking at one more id changes a tally by one exactly when that id's
/// record falls into the bucket and slot being tallied.
pub proof fn lemma_tally_step(
    ledger: Map<i32, CommandStatistics>,
    ids: Set<i32>,
    id: i32,
    now: usize,
    window: usize,
    bucket: int,
    slot: int,
)
    requires
        ids.finite(),
        !ids.contains(id),
        ledger.contains_key(id),
    ensures
        tally(ledger, ids.insert(id), now, window, bucket, slot) == tally(
            ledger,
            ids,
            now,
            window,
            bucket,
            slot,
        ) + if bucket_of(ledger[id].intercepted_time, now, window) == Some(bucket) && status_slot(
            ledger[id].status,
        ) == slot {
            1nat
        } else {
            0nat
        },
        tally(ledger, ids, now, window, bucket, slot) <= ids.len(),
{
    let chosen = |other: i32|
        ledger.contains_key(other) && bucket_of(ledger[other].intercepted_time, now, window)
            == Some(bucket) && status_slot(ledger[other].status) == slot;
    ids.lemma_len_filter(chosen);
    if chosen(id) {
        assert(ids.insert(id).filter(chosen) =~= ids.filter(chosen).insert(id));
    } else {
        assert(ids.insert(id).filter(chosen) =~= ids.filter(chosen));
    }
}

} // verus!
