//! A bounded window over the most recent server heartbeats.

use vstd::prelude::*;

verus! {

/// Number of samples the heartbeat window retains.
pub const HEARTBEAT_CAPACITY: usize = 20;

/// One finished heartbeat with its latency in nanoseconds.
#[derive(Clone, Copy, Debug, PartialEq, Eq, Structural)]
pub enum FinishedHeartbeat {
    SUCCEEDED(usize),
    FAILED(usize),
}

/// The last `limit` elements of `samples`, or all of them when there are fewer.
pub open spec fn last_samples(samples: Seq<FinishedHeartbeat>, limit: nat) -> Seq<
    FinishedHeartbeat,
> {
    if samples.len() <= limit {
        samples
    } else {
        samples.subrange(samples.len() - limit, samples.len() as int)
    }
}

/// The window that results from recording `sample` into `window`.
pub open spec fn window_push(window: Seq<FinishedHeartbeat>, sample: FinishedHeartbeat) -> Seq<
    FinishedHeartbeat,
> {
    last_samples(window.push(sample), HEARTBEAT_CAPACITY as nat)
}

/// The window after recording every sample of `stream` in order, starting empty.
pub open spec fn window_after(stream: Seq<FinishedHeartbeat>) -> Seq<FinishedHeartbeat>
    decreases stream.len(),
{
    if stream.len() == 0 {
        Seq::empty()
    } else {
        window_push(window_after(stream.drop_last()), stream.last())
    }
}

/// How a sample is reported as a pair: the latency stands in the first
/// component for a success and in the second for a failure.
pub open spec fn split_sample(sample: FinishedHeartbeat) -> (usize, usize) {
    match sample {
        FinishedHeartbeat::SUCCEEDED(latency) => (latency, 0usize),
        FinishedHeartbeat::FAILED(latency) => (0usize, latency),
    }
}

/// How a sample is reported as an outcome flag and a latency.
pub open spec fn flag_sample(sample: FinishedHeartbeat) -> (bool, usize) {
    match sample {
        FinishedHeartbeat::SUCCEEDED(latency) => (true, latency),
        FinishedHeartbeat::FAILED(latency) => (false, latency),
    }
}

/// Recording a sample never lets a window grow past its capacity, however
/// long it was before.
pub proof fn lemma_window_push_bounded(window: Seq<FinishedHeartbeat>, sample: FinishedHeartbeat)
    ensures
        window_push(window, sample).len() <= HEARTBEAT_CAPACITY,
        window_push(window, sample).len() > 0,
        window_push(window, sample).last() == sample,
{
}

/// However many samples are recorded, the window holds the most recent
/// ones, as many as its capacity allows, and never more than that.
pub proof fn lemma_window_is_recent(stream: Seq<FinishedHeartbeat>)
    ensures
        window_after(stream) == last_samples(stream, HEARTBEAT_CAPACITY as nat),
        window_after(stream).len() <= HEARTBEAT_CAPACITY,
    decreases stream.len(),
{
    if stream.len() > 0 {
        lemma_window_is_recent(stream.drop_last());
        assert(stream.drop_last().push(stream.last()) =~= stream);
        assert(window_after(stream) =~= last_samples(stream, HEARTBEAT_CAPACITY as nat));
    }
}

/// Sliding window of heartbeat samples, oldest first.
pub struct DatabaseHeartbeat {
    duration: Vec<FinishedHeartbeat>,
}

impl View for DatabaseHeartbeat {
    type V = Seq<FinishedHeartbeat>;

    closed spec fn view(&self) -> Seq<FinishedHeartbeat> {
        self.duration@
    }
}

impl DatabaseHeartbeat {
    #[verifier::type_invariant]
    spec fn bounded(&self) -> bool {
        self.duration@.len() <= HEARTBEAT_CAPACITY
    }

    /// An empty window.
    pub fn new() -> (window: Self)
        ensures
            window@ == Seq::<FinishedHeartbeat>::empty(),
    {
        DatabaseHeartbeat { duration: Vec::new() }
    }

    /// Records `sample`, dropping the oldest sample first when the window is full.
    fn record(&mut self, sample: FinishedHeartbeat)
        ensures
            final(self)@ == window_push(old(self)@, sample),
            final(self)@.len() <= HEARTBEAT_CAPACITY,
    {
        proof {
            use_type_invariant(&*self);
        }
        let mut samples: Vec<FinishedHeartbeat> = Vec::new();
        core::mem::swap(&mut self.duration, &mut samples);
        if samples.len() >= HEARTBEAT_CAPACITY {
            let _ = samples.remove(0);
        }
        samples.push(sample);
        assert(samples@ =~= window_push(old(self).duration@, sample));
        self.duration = samples;
    }

    /// Records a heartbeat that succeeded after `latency` nanoseconds.
    pub fn add_succeeded_event(&mut self, latency: usize)
        ensures
            final(self)@ == window_push(old(self)@, FinishedHeartbeat::SUCCEEDED(latency)),
            final(self)@.len() <= HEARTBEAT_CAPACITY,
    {
        self.record(FinishedHeartbeat::SUCCEEDED(latency));
    }

    /// Records a heartbeat that failed after `latency` nanoseconds.
    pub fn add_failed_event(&mut self, latency: usize)
        ensures
            final(self)@ == window_push(old(self)@, FinishedHeartbeat::FAILED(latency)),
            final(self)@.len() <= HEARTBEAT_CAPACITY,
    {
        self.record(FinishedHeartbeat::FAILED(latency));
    }

    /// The retained samples, oldest first, each as a
    /// `(success latency, failure latency)` pair with the unused side zero.
    pub fn get_connection_heartbeat(&self) -> (pairs: Vec<(usize, usize)>)
        ensures
            pairs@ == self@.map_values(|sample: FinishedHeartbeat| split_sample(sample)),
            pairs@.len() <= HEARTBEAT_CAPACITY,
    {
        proof {
            use_type_invariant(self);
        }
        let mut pairs: Vec<(usize, usize)> = Vec::new();
        let mut i: usize = 0;
        while i < self.duration.len()
            invariant
                i <= self.duration@.len(),
                pairs@ == self.duration@.take(i as int).map_values(
                    |sample: FinishedHeartbeat| split_sample(sample),
                ),
            decreases self.duration@.len() - i,
        {
            let pair = match self.duration[i] {
                FinishedHeartbeat::SUCCEEDED(latency) => (latency, 0usize),
                FinishedHeartbeat::FAILED(latency) => (0usize, latency),
            };
            pairs.push(pair);
            i += 1;
            assert(pairs@ =~= self.duration@.take(i as int).map_values(
                |sample: FinishedHeartbeat| split_sample(sample),
            ));
        }
        assert(self.duration@.take(i as int) =~= self.duration@);
        pairs
    }

    /// The retained samples, oldest first, each as whether the heartbeat
    /// succeeded and its latency in nanoseconds.
    pub fn recent_heartbeats(&self) -> (samples: Vec<(bool, usize)>)
        ensures
            samples@ == self@.map_values(|sample: FinishedHeartbeat| flag_sample(sample)),
            samples@.len() <= HEARTBEAT_CAPACITY,
    {
        proof {
            use_type_invariant(self);
        }
        let mut samples: Vec<(bool, usize)> = Vec::new();
        let mut i: usize = 0;
        while i < self.duration.len()
            invariant
                i <= self.duration@.len(),
                samples@ == self.duration@.take(i as int).map_values(
                    |sample: FinishedHeartbeat| flag_sample(sample),
                ),
            decreases self.duration@.len() - i,
        {
            let sample = match self.duration[i] {
                FinishedHeartbeat::SUCCEEDED(latency) => (true, latency),
                FinishedHeartbeat::FAILED(latency) => (false, latency),
            };
            samples.push(sample);
            i += 1;
            assert(samples@ =~= self.duration@.take(i as int).map_values(
                |sample: FinishedHeartbeat| flag_sample(sample),
            ));
        }
        assert(self.duration@.take(i as int) =~= self.duration@);
        samples
    }
}

impl Default for DatabaseHeartbeat {
    fn default() -> (window: Self)
        ensures
            window@ == Seq::<FinishedHeartbeat>::empty(),
    {
        DatabaseHeartbeat::new()
    }
}

} // verus!
