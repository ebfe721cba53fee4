//! The ranking of finished commands: a sequence ordered slowest first.

use crate::command::FinishedCommandInfo;
use vstd::prelude::*;

verus! {

/// Slowest first: no entry takes longer than one before it.
pub open spec fn ranked(slowest: Seq<FinishedCommandInfo>) -> bool {
    forall|i: int, j: int|
        0 <= i <= j < slowest.len() ==> slowest[i].time_taken >= slowest[j].time_taken
}

/// Where an entry of `time_taken` goes into a ranking: behind the leading
/// run of entries that took at least as long.
pub open spec fn rank_position(slowest: Seq<FinishedCommandInfo>, time_taken: u64) -> nat
    decreases slowest.len(),
{
    if slowest.len() == 0 || slowest[0].time_taken < time_taken {
        0
    } else {
        1 + rank_position(slowest.drop_first(), time_taken)
    }
}

/// The ranking after `entry` has been added.
pub open spec fn rank_insert(slowest: Seq<FinishedCommandInfo>, entry: FinishedCommandInfo) -> Seq<
    FinishedCommandInfo,
> {
    slowest.insert(rank_position(slowest, entry.time_taken) as int, entry)
}

/// The first `n` entries of a ranking, or all of it when it holds fewer.
pub open spec fn top_slowest(slowest: Seq<FinishedCommandInfo>, n: nat) -> Seq<FinishedCommandInfo> {
    if n <= slowest.len() {
        slowest.take(n as int)
    } else {
        slowest
    }
}

/// `rank_position` stops at the first entry that took less time than
/// `time_taken`: everything before it took at least as long.
pub proof fn lemma_rank_position_bounds(slowest: Seq<FinishedCommandInfo>, time_taken: u64)
    ensures
        rank_position(slowest, time_taken) <= slowest.len(),
        forall|i: int|
            0 <= i < rank_position(slowest, time_taken) ==> slowest[i].time_taken >= time_taken,
        rank_position(slowest, time_taken) < slowest.len() ==> slowest[rank_position(
            slowest,
            time_taken,
        ) as int].time_taken < time_taken,
    decreases slowest.len(),
{
    if slowest.len() == 0 || slowest[0].time_taken < time_taken {
    } else {
        let rest = slowest.drop_first();
        lemma_rank_position_bounds(rest, time_taken);
        assert forall|i: int| 0 <= i < rank_position(slowest, time_taken) implies slowest[i].time_taken
            >= time_taken by {
            if i > 0 {
                assert(slowest[i] == rest[i - 1]);
            }
        }
        let at = rank_position(rest, time_taken) as int;
        if at < rest.len() {
            assert(slowest[at + 1] == rest[at]);
        }
    }
}

/// A position behind entries that took at least `time_taken` and in front of
/// one that took less is the position `rank_position` computes.
pub proof fn lemma_rank_position_is(
    slowest: Seq<FinishedCommandInfo>,
    time_taken: u64,
    position: int,
)
    requires
        0 <= position <= slowest.len(),
        forall|i: int| 0 <= i < position ==> slowest[i].time_taken >= time_taken,
        position < slowest.len() ==> slowest[position].time_taken < time_taken,
    ensures
        rank_position(slowest, time_taken) == position,
    decreases position,
{
    if position > 0 {
        let rest = slowest.drop_first();
        assert forall|i: int| 0 <= i < position - 1 implies rest[i].time_taken >= time_taken by {
            assert(rest[i] == slowest[i + 1]);
        }
        if position - 1 < rest.len() {
            assert(rest[position - 1] == slowest[position]);
        }
        lemma_rank_position_is(rest, time_taken, position - 1);
    }
}

/// Adding an entry to a ranking keeps it ordered slowest first, keeps every
/// entry that was there in its relative place and adds exactly the new one.
pub proof fn lemma_rank_insert(slowest: Seq<FinishedCommandInfo>, entry: FinishedCommandInfo)
    requires
        ranked(slowest),
    ensures
        ranked(rank_insert(slowest, entry)),
        rank_insert(slowest, entry).len() == slowest.len() + 1,
        rank_insert(slowest, entry).contains(entry),
        forall|other: FinishedCommandInfo|
            slowest.contains(other) ==> rank_insert(slowest, entry).contains(other),
        rank_insert(slowest, entry).to_multiset() == slowest.to_multiset().insert(entry),
{
    let at = rank_position(slowest, entry.time_taken) as int;
    let after = rank_insert(slowest, entry);
    lemma_rank_position_bounds(slowest, entry.time_taken);
    assert forall|i: int, j: int| 0 <= i <= j < after.len() implies after[i].time_taken
        >= after[j].time_taken by {
        if j > at {
            assert(after[j] == slowest[j - 1]);
            assert(slowest[at].time_taken >= slowest[j - 1].time_taken);
        }
        if i > at {
            assert(after[i] == slowest[i - 1]);
        }
    }
    assert(after[at] == entry);
    assert forall|other: FinishedCommandInfo| slowest.contains(other) implies after.contains(
        other,
    ) by {
        let k = choose|k: int| 0 <= k < slowest.len() && slowest[k] == other;
        if k < at {
            assert(after[k] == other);
        } else {
            assert(after[k + 1] == other);
        }
    }
    vstd::seq_lib::to_multiset_insert(slowest, at, entry);
}

/// Index of the finished commands by the time they took, slowest first. An
/// entry is added when a command finishes and never changes afterwards;
/// entries that took equally long are all kept, the earlier added in front.
pub struct SlowestIndex {
    entries: Vec<FinishedCommandInfo>,
}

impl View for SlowestIndex {
    type V = Seq<FinishedCommandInfo>;

    closed spec fn view(&self) -> Seq<FinishedCommandInfo> {
        self.entries@
    }
}

impl SlowestIndex {
    #[verifier::type_invariant]
    spec fn ordered(&self) -> bool {
        ranked(self.entries@)
    }

    /// An index without entries.
    pub fn new() -> (index: Self)
        ensures
            index@ == Seq::<FinishedCommandInfo>::empty(),
    {
        SlowestIndex { entries: Vec::new() }
    }

    /// How many entries the index holds.
    pub fn len(&self) -> (count: usize)
        ensures
            count == self@.len(),
    {
        self.entries.len()
    }

    /// Finds by bisection where an entry of `time_taken` goes.
    fn slot(entries: &Vec<FinishedCommandInfo>, time_taken: u64) -> (slot: usize)
        requires
            ranked(entries@),
        ensures
            slot == rank_position(entries@, time_taken),
            slot <= entries@.len(),
    {
        let mut low: usize = 0;
        let mut high: usize = entries.len();
        while low < high
            invariant
                low <= high <= entries@.len(),
                ranked(entries@),
                forall|i: int| 0 <= i < low ==> entries@[i].time_taken >= time_taken,
                forall|i: int| high <= i < entries@.len() ==> entries@[i].time_taken < time_taken,
            decreases high - low,
        {
            let middle: usize = low + (high - low) / 2;
            if entries[middle].time_taken >= time_taken {
                low = middle + 1;
            } else {
                high = middle;
            }
        }
        proof {
            lemma_rank_position_is(entries@, time_taken, low as int);
        }
        low
    }

    /// Adds `entry` behind the entries that took at least as long and in
    /// front of those that took less.
    pub fn insert(&mut self, entry: FinishedCommandInfo)
        ensures
            final(self)@ == rank_insert(old(self)@, entry),
            ranked(old(self)@),
            ranked(final(self)@),
    {
        proof {
            use_type_invariant(&*self);
            lemma_rank_insert(self.entries@, entry);
        }
        let mut entries: Vec<FinishedCommandInfo> = Vec::new();
        core::mem::swap(&mut self.entries, &mut entries);
        let slot = Self::slot(&entries, entry.time_taken);
        entries.insert(slot, entry);
        self.entries = entries;
    }

    /// The `n` slowest entries, slowest first; all entries when the index
    /// holds fewer than `n`.
    pub fn top_n_slowest(&self, n: usize) -> (top: Vec<FinishedCommandInfo>)
        ensures
            top@ == top_slowest(self@, n as nat),
            top@.len() == if n <= self@.len() {
                n as nat
            } else {
                self@.len()
            },
            ranked(top@),
            ranked(self@),
    {
        proof {
            use_type_invariant(self);
        }
        let total = self.entries.len();
        let wanted: usize = if n <= total {
            n
        } else {
            total
        };
        let mut top: Vec<FinishedCommandInfo> = Vec::new();
        let mut i: usize = 0;
        while i < wanted
            invariant
                i <= wanted <= self.entries@.len(),
                top@ == self.entries@.take(i as int),
            decreases wanted - i,
        {
            top.push(self.entries[i].clone());
            i += 1;
            assert(top@ =~= self.entries@.take(i as int));
        }
        top
    }
}

impl Default for SlowestIndex {
    fn default() -> (index: Self)
        ensures
            index@ == Seq::<FinishedCommandInfo>::empty(),
    {
        SlowestIndex::new()
    }
}

} // verus!
