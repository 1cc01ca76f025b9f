//! The order in which a measurement ran operations, waited for its backend and read the host
//! clock. A timeline only grows through the calls below, each of which does what it records.

use vstd::prelude::*;

use core::time::Duration;

use crate::instrument::operation::{elapsed_since, instant_now, OperationTimer};

verus! {

/// One step of a measurement.
pub enum TimelineEvent {
    /// The measured operation was run once.
    Operation,
    /// The backend was asked to wait for all work handed to it.
    Synchronize,
    /// The host clock was read, giving this instant.
    ClockRead(std::time::Instant),
    /// The host clock was read again, and this much time had passed since this instant.
    ElapsedSince(std::time::Instant, Duration),
}

/// `count` runs of the operation in a row.
pub open spec fn operations(count: nat) -> Seq<TimelineEvent> {
    Seq::new(count, |i: int| TimelineEvent::Operation)
}

/// How many runs of the operation `events` holds.
pub open spec fn operations_in(events: Seq<TimelineEvent>) -> nat
    decreases events.len(),
{
    if events.len() == 0 {
        0
    } else {
        operations_in(events.drop_last()) + if events.last() is Operation {
            1nat
        } else {
            0nat
        }
    }
}

/// Runs of the operation add up over consecutive stretches of a timeline.
pub proof fn lemma_operations_in_add(a: Seq<TimelineEvent>, b: Seq<TimelineEvent>)
    ensures
        operations_in(a + b) == operations_in(a) + operations_in(b),
    decreases b.len(),
{
    if b.len() == 0 {
        assert(a + b =~= a);
    } else {
        lemma_operations_in_add(a, b.drop_last());
        assert((a + b).drop_last() =~= a + b.drop_last());
    }
}

/// `count` runs in a row are `count` runs.
pub proof fn lemma_operations_in_operations(count: nat)
    ensures
        operations_in(operations(count)) == count,
    decreases count,
{
    if count > 0 {
        lemma_operations_in_operations((count - 1) as nat);
        assert(operations(count).drop_last() =~= operations((count - 1) as nat));
    }
}

/// The steps a measurement has taken so far, in order.
pub struct Timeline {
    events: Ghost<Seq<TimelineEvent>>,
}

impl Timeline {
    pub closed spec fn events(&self) -> Seq<TimelineEvent> {
        self.events@
    }

    /// A measurement that has not started.
    pub fn new() -> (r: Self)
        ensures
            r.events() == Seq::<TimelineEvent>::empty(),
    {
        Timeline { events: Ghost(Seq::empty()) }
    }

    /// Reads the host clock.
    pub fn read_clock(&mut self) -> (r: std::time::Instant)
        ensures
            final(self).events() == old(self).events().push(TimelineEvent::ClockRead(r)),
    {
        let r = instant_now();
        self.events = Ghost(self.events@.push(TimelineEvent::ClockRead(r)));
        r
    }

    /// The time passed on the host clock since `start`.
    pub fn elapsed_since(&mut self, start: &std::time::Instant) -> (d: Duration)
        ensures
            final(self).events() == old(self).events().push(TimelineEvent::ElapsedSince(*start, d)),
    {
        let d = elapsed_since(start);
        self.events = Ghost(self.events@.push(TimelineEvent::ElapsedSince(*start, d)));
        d
    }

    /// Waits for all work handed to `backend`.
    pub fn synchronize<B: OperationTimer>(&mut self, backend: &B) -> (r: Result<(), B::Error>)
        ensures
            final(self).events() == old(self).events().push(TimelineEvent::Synchronize),
    {
        let r = backend.synchronize();
        self.events = Ghost(self.events@.push(TimelineEvent::Synchronize));
        r
    }

    /// Runs `operation` once on `backend`.
    pub fn run<B, T, E, Op: Fn(&B) -> Result<T, E>>(&mut self, operation: &Op, backend: &B) -> (r: Result<T, E>)
        requires
            call_requires(*operation, (backend,)),
        ensures
            call_ensures(*operation, (backend,), r),
            final(self).events() == old(self).events().push(TimelineEvent::Operation),
    {
        let r = operation(backend);
        self.events = Ghost(self.events@.push(TimelineEvent::Operation));
        r
    }

    /// Runs `operation`, which can run only once, on `backend`.
    pub fn run_once<B, T, E, Op: FnOnce(&B) -> Result<T, E>>(&mut self, operation: Op, backend: &B) -> (r: Result<T, E>)
        requires
            call_requires(operation, (backend,)),
        ensures
            call_ensures(operation, (backend,), r),
            final(self).events() == old(self).events().push(TimelineEvent::Operation),
    {
        let r = operation(backend);
        self.events = Ghost(self.events@.push(TimelineEvent::Operation));
        r
    }
}

} // verus!
