//! Capturing timed runs of an operation: warmups, then a sample of every few operations.

use vstd::prelude::*;

use core::time::Duration;

use crate::instrument::timeline::{
    lemma_operations_in_add, lemma_operations_in_operations, operations, operations_in, Timeline, TimelineEvent,
};

verus! {

/// Warmup operations run before a capture, unless configured otherwise.
pub const DEFAULT_WARMUP_OPERATIONS: usize = 3;

/// The clock that a backend's timings come from.
#[derive(Clone, Copy, Debug, PartialEq, Eq, Structural)]
pub enum TimingClock {
    HostWall,
    CudaStream,
}

/// A backend that can time its own operations.
pub trait OperationTimer {
    type Error;
    type Marker;

    /// The clock that timings of this kind of backend come from.
    spec fn clock_spec() -> TimingClock;

    /// The clock that `mark` reads.
    fn clock(&self) -> (c: TimingClock)
        ensures
            c == Self::clock_spec(),
    ;

    /// A point in time on this backend's clock.
    fn mark(&self) -> Result<Self::Marker, Self::Error>;

    /// The time this backend measures from mark `start` to mark `end`.
    spec fn elapsed_spec(&self, start: Self::Marker, end: Self::Marker) -> Duration;

    /// The time between two marks.
    fn elapsed(&self, start: Self::Marker, end: Self::Marker) -> (r: Result<Duration, Self::Error>)
        ensures
            r matches Ok(d) ==> d == self.elapsed_spec(start, end),
    ;

    /// Waits until all work handed to the backend has finished.
    fn synchronize(&self) -> Result<(), Self::Error>;
}

/// A reading of the host's monotonic clock, `std::time::Instant`, carried through verified code
/// without looking inside.
#[verifier::external_type_specification]
#[verifier::external_body]
pub struct ExInstant(std::time::Instant);

/// The current time of the host's monotonic clock (`std::time::Instant::now`). Nothing is stated
/// of the value: it depends on when the call is made.
#[verifier::external_body]
pub(crate) fn instant_now() -> std::time::Instant {
    std::time::Instant::now()
}

/// The time passed on the host's monotonic clock since `start` (`Instant::elapsed`). Nothing is
/// stated of the value: it depends on when the call is made.
#[verifier::external_body]
pub(crate) fn elapsed_since(start: &std::time::Instant) -> Duration {
    start.elapsed()
}

/// What `end.duration_since(earlier)` gives for two readings of the host's monotonic clock: a
/// function of the two readings alone.
pub uninterp spec fn instant_duration_since(end: std::time::Instant, earlier: std::time::Instant) -> Duration;

/// The time from `start` to `end` on the host's monotonic clock, zero if `end` is earlier
/// (`Instant::duration_since`). It is stated to be a function of the two readings alone;
/// nothing is stated of its value.
#[verifier::external_body]
pub(crate) fn duration_between(start: std::time::Instant, end: std::time::Instant) -> (d: Duration)
    ensures
        d == instant_duration_since(end, start),
{
    end.duration_since(start)
}

/// Operation `index` is timed when it falls on a multiple of `sample_every`.
pub open spec fn is_sampled(index: int, sample_every: int) -> bool {
    index % sample_every == 0
}

/// How many of the first `count` operations are timed: `count / sample_every`, rounded up.
pub open spec fn sampled_among(count: int, sample_every: int) -> int {
    if count % sample_every == 0 {
        count / sample_every
    } else {
        count / sample_every + 1
    }
}

/// One more operation adds one timed operation exactly when it is sampled.
pub proof fn lemma_sampled_step(index: int, sample_every: int)
    requires
        index >= 0,
        sample_every > 0,
    ensures
        sampled_among(index + 1, sample_every) == sampled_among(index, sample_every) + if is_sampled(
            index,
            sample_every,
        ) {
            1int
        } else {
            0int
        },
{
    let q = index / sample_every;
    let r = index % sample_every;
    vstd::arithmetic::div_mod::lemma_fundamental_div_mod(index, sample_every);
    assert(index == q * sample_every + r) by (nonlinear_arith)
        requires
            index == sample_every * q + r,
    ;
    if r + 1 < sample_every {
        vstd::arithmetic::div_mod::lemma_fundamental_div_mod_converse(index + 1, sample_every, q, r + 1);
    } else {
        assert(index + 1 == (q + 1) * sample_every + 0) by (nonlinear_arith)
            requires
                index == q * sample_every + r,
                r + 1 == sample_every,
        ;
        vstd::arithmetic::div_mod::lemma_fundamental_div_mod_converse(index + 1, sample_every, q + 1, 0);
    }
}

/// At least one of a positive number of operations is timed: the first.
pub proof fn lemma_sampled_positive(count: int, sample_every: int)
    requires
        count > 0,
        sample_every > 0,
    ensures
        sampled_among(count, sample_every) >= 1,
{
    vstd::arithmetic::div_mod::lemma_fundamental_div_mod(count, sample_every);
    if count % sample_every == 0 {
        assert(count / sample_every >= 1) by (nonlinear_arith)
            requires
                count == sample_every * (count / sample_every) + count % sample_every,
                count % sample_every == 0,
                count > 0,
                sample_every > 0,
        ;
    } else {
        vstd::arithmetic::div_mod::lemma_div_pos_is_pos(count, sample_every);
    }
}

/// Whether operation `index` is timed when every `sample_every`-th one is.
pub fn sampled(index: usize, sample_every: usize) -> (r: bool)
    requires
        sample_every > 0,
    ensures
        r == is_sampled(index as int, sample_every as int),
{
    index % sample_every == 0
}

/// How many of `count` operations are timed when every `sample_every`-th one is.
pub fn sample_count_for(count: usize, sample_every: usize) -> (r: usize)
    requires
        sample_every > 0,
    ensures
        r == sampled_among(count as int, sample_every as int),
{
    let q = count / sample_every;
    if count % sample_every == 0 {
        q
    } else {
        proof {
            vstd::arithmetic::div_mod::lemma_fundamental_div_mod(count as int, sample_every as int);
            assert(q < count) by (nonlinear_arith)
                requires
                    count == sample_every * q + count % sample_every,
                    count % sample_every > 0,
                    sample_every > 0,
                    q >= 0,
            ;
        }
        q + 1
    }
}

/// How many operations to warm up with, how many to run, and how often to time one.
#[derive(Clone, Copy, Debug)]
pub struct CaptureConfig {
    warmup_operations: usize,
    operation_count: usize,
    sample_every: usize,
}

impl CaptureConfig {
    #[verifier::type_invariant]
    spec fn counts_positive(self) -> bool {
        self.operation_count > 0 && self.sample_every > 0
    }

    pub closed spec fn warmup_spec(self) -> usize {
        self.warmup_operations
    }

    pub closed spec fn count_spec(self) -> usize {
        self.operation_count
    }

    pub closed spec fn every_spec(self) -> usize {
        self.sample_every
    }

    /// Runs `operation_count` operations after `warmup_operations` warmups, timing every
    /// `sample_every`-th; both counts are positive.
    pub fn new(warmup_operations: usize, operation_count: usize, sample_every: usize) -> (r: Self)
        requires
            operation_count > 0,
            sample_every > 0,
        ensures
            r.warmup_spec() == warmup_operations,
            r.count_spec() == operation_count,
            r.every_spec() == sample_every,
    {
        CaptureConfig { warmup_operations, operation_count, sample_every }
    }

    pub fn warmup_operations(self) -> (r: usize)
        ensures
            r == self.warmup_spec(),
    {
        self.warmup_operations
    }

    pub fn operation_count(self) -> (r: usize)
        ensures
            r == self.count_spec(),
            r > 0,
    {
        proof {
            use_type_invariant(&self);
        }
        self.operation_count
    }

    pub fn sample_every(self) -> (r: usize)
        ensures
            r == self.every_spec(),
            r > 0,
    {
        proof {
            use_type_invariant(&self);
        }
        self.sample_every
    }
}

/// The steps of a capture of `warmups` warmup operations and `count` measured ones: the
/// warmups, a wait for the backend, a clock reading `start`, the measured operations, another
/// wait for the backend, and the time passed since `start`, which is `total`.
pub open spec fn capture_timeline(
    events: Seq<TimelineEvent>,
    warmups: nat,
    count: nat,
    start: std::time::Instant,
    total: Duration,
) -> bool {
    events == operations(warmups) + seq![TimelineEvent::Synchronize, TimelineEvent::ClockRead(start)] + operations(
        count,
    ) + seq![TimelineEvent::Synchronize, TimelineEvent::ElapsedSince(start, total)]
}

/// The total time of a capture covers the measured operations and no warmup: it is the time
/// passed since a clock reading that every warmup operation, and a wait for the backend, came
/// before, and it is read after every measured operation and another wait for the backend.
pub proof fn lemma_capture_total_covers_measured_operations(
    events: Seq<TimelineEvent>,
    warmups: nat,
    count: nat,
    start: std::time::Instant,
    total: Duration,
)
    requires
        capture_timeline(events, warmups, count, start, total),
    ensures
        events.len() == warmups + count + 4,
        events[warmups + 1int] == TimelineEvent::ClockRead(start),
        events[events.len() - 1] == TimelineEvent::ElapsedSince(start, total),
        events[warmups as int] == TimelineEvent::Synchronize,
        events[events.len() - 2] == TimelineEvent::Synchronize,
        operations_in(events.take(warmups + 1int)) == warmups,
        operations_in(events.skip(warmups + 1int)) == count,
{
    let sync = seq![TimelineEvent::Synchronize];
    let read = seq![TimelineEvent::ClockRead(start)];
    let end = seq![TimelineEvent::Synchronize, TimelineEvent::ElapsedSince(start, total)];
    reveal_with_fuel(operations_in, 3);
    assert(events.take(warmups + 1int) =~= operations(warmups) + sync);
    assert(events.skip(warmups + 1int) =~= read + operations(count) + end);
    lemma_operations_in_operations(warmups);
    lemma_operations_in_operations(count);
    lemma_operations_in_add(operations(warmups), sync);
    lemma_operations_in_add(read, operations(count));
    lemma_operations_in_add(read + operations(count), end);
    assert(operations_in(sync) == 0) by {
        assert(sync.drop_last() =~= Seq::<TimelineEvent>::empty());
    }
    assert(operations_in(read) == 0) by {
        assert(read.drop_last() =~= Seq::<TimelineEvent>::empty());
    }
    assert(operations_in(end) == 0) by {
        assert(end.drop_last() =~= seq![TimelineEvent::Synchronize]);
        assert(end.drop_last().drop_last() =~= Seq::<TimelineEvent>::empty());
    }
}

/// What one timed operation returned, and how long it took.
#[derive(Debug)]
pub struct OperationMetric<T> {
    result: T,
    elapsed: Duration,
}

impl<T> OperationMetric<T> {
    pub closed spec fn result_spec(&self) -> T {
        self.result
    }

    pub closed spec fn elapsed_spec(&self) -> Duration {
        self.elapsed
    }

    pub fn result(&self) -> (r: &T)
        ensures
            *r == self.result_spec(),
    {
        &self.result
    }

    pub fn elapsed(&self) -> (r: Duration)
        ensures
            r == self.elapsed_spec(),
    {
        self.elapsed
    }

    pub fn into_result(self) -> (r: T)
        ensures
            r == self.result_spec(),
    {
        self.result
    }
}

/// The timed operations of one capture, with the total time it took.
pub struct OperationMetrics<T, M> {
    metrics: Vec<OperationMetric<T>>,
    /// The marks taken around each timed operation, in order.
    marks: Ghost<Seq<(M, M)>>,
    total_elapsed: Duration,
    config: CaptureConfig,
    clock: TimingClock,
    /// The steps the capture took.
    timeline: Timeline,
    /// The clock reading that the total time is measured from.
    clock_start: Ghost<std::time::Instant>,
}

impl<T, M> OperationMetrics<T, M> {
    pub closed spec fn samples(&self) -> Seq<OperationMetric<T>> {
        self.metrics@
    }

    /// The marks taken right before and right after each timed operation.
    pub closed spec fn sample_marks(&self) -> Seq<(M, M)> {
        self.marks@
    }

    pub closed spec fn config_spec(&self) -> CaptureConfig {
        self.config
    }

    pub closed spec fn clock_spec(&self) -> TimingClock {
        self.clock
    }

    pub closed spec fn total_elapsed_spec(&self) -> Duration {
        self.total_elapsed
    }

    /// The steps the capture took, in order.
    pub closed spec fn timeline(&self) -> Seq<TimelineEvent> {
        self.timeline.events()
    }

    /// The clock reading that the total time is measured from.
    pub closed spec fn clock_start(&self) -> std::time::Instant {
        self.clock_start@
    }

    /// Runs `config.warmup_operations()` untimed operations, waits for the backend, then runs
    /// `config.operation_count()` operations, timing operation `i` between two marks when `i`
    /// is a multiple of `config.sample_every()`, and waits for the backend again. The first
    /// error, from the operation or the backend, ends the capture.
    pub fn capture<B: OperationTimer<Marker = M>, E: From<B::Error>, Operation: Fn(&B) -> Result<T, E>>(
        backend: &B,
        config: CaptureConfig,
        operation: Operation,
    ) -> (r: Result<Self, E>)
        requires
            call_requires(operation, (backend,)),
        ensures
            r matches Ok(metrics) ==> {
                &&& metrics.config_spec() == config
                &&& metrics.clock_spec() == B::clock_spec()
                &&& metrics.samples().len() == sampled_among(config.count_spec() as int, config.every_spec() as int)
                &&& metrics.samples().len() >= 1
                &&& capture_timeline(
                    metrics.timeline(),
                    config.warmup_spec() as nat,
                    config.count_spec() as nat,
                    metrics.clock_start(),
                    metrics.total_elapsed_spec(),
                )
                &&& metrics.sample_marks().len() == metrics.samples().len()
                &&& forall|i: int|
                    0 <= i < metrics.samples().len() ==> (#[trigger] metrics.samples()[i]).elapsed_spec()
                        == backend.elapsed_spec(metrics.sample_marks()[i].0, metrics.sample_marks()[i].1)
                &&& forall|i: int|
                    0 <= i < metrics.samples().len() ==> call_ensures(
                        operation,
                        (backend,),
                        Ok::<T, E>(#[trigger] metrics.samples()[i].result_spec()),
                    )
            },
            r matches Err(e) ==> call_ensures(operation, (backend,), Err::<T, E>(e)) || exists|
                cause: B::Error,
            | #[trigger] call_ensures(E::from, (cause,), e),
    {
        let mut timeline = Timeline::new();
        let warmups = config.warmup_operations();
        let mut w: usize = 0;
        while w < warmups
            invariant
                w <= warmups,
                call_requires(operation, (backend,)),
                timeline.events() == operations(w as nat),
            decreases warmups - w,
        {
            match timeline.run(&operation, backend) {
                Ok(_) => {},
                Err(e) => return Err(e),
            }
            assert(timeline.events() =~= operations((w + 1) as nat));
            w = w + 1;
        }
        match timeline.synchronize(backend) {
            Ok(()) => {},
            Err(e) => return Err(E::from(e)),
        }
        let count = config.operation_count();
        let every = config.sample_every();
        let mut metrics: Vec<OperationMetric<T>> = Vec::with_capacity(sample_count_for(count, every));
        let total_start = timeline.read_clock();
        let ghost warmed = timeline.events();
        assert(warmed =~= operations(warmups as nat) + seq![
            TimelineEvent::Synchronize,
            TimelineEvent::ClockRead(total_start),
        ]);
        assert(timeline.events() =~= warmed + operations(0));
        let ghost mut marks: Seq<(M, M)> = Seq::empty();
        let mut index: usize = 0;
        while index < count
            invariant
                index <= count,
                every > 0,
                metrics@.len() == sampled_among(index as int, every as int),
                marks.len() == metrics@.len(),
                forall|i: int|
                    0 <= i < metrics@.len() ==> (#[trigger] metrics@[i]).elapsed == backend.elapsed_spec(
                        marks[i].0,
                        marks[i].1,
                    ),
                call_requires(operation, (backend,)),
                forall|i: int|
                    0 <= i < metrics@.len() ==> call_ensures(
                        operation,
                        (backend,),
                        Ok::<T, E>(#[trigger] metrics@[i].result),
                    ),
                timeline.events() == warmed + operations(index as nat),
            decreases count - index,
        {
            proof {
                lemma_sampled_step(index as int, every as int);
            }
            if sampled(index, every) {
                let start = match backend.mark() {
                    Ok(m) => m,
                    Err(e) => return Err(E::from(e)),
                };
                let result = match timeline.run(&operation, backend) {
                    Ok(v) => v,
                    Err(e) => return Err(e),
                };
                let end = match backend.mark() {
                    Ok(m) => m,
                    Err(e) => return Err(E::from(e)),
                };
                let ghost pair = (start, end);
                let elapsed = match backend.elapsed(start, end) {
                    Ok(d) => d,
                    Err(e) => return Err(E::from(e)),
                };
                metrics.push(OperationMetric { result, elapsed });
                proof {
                    marks = marks.push(pair);
                }
            } else {
                match timeline.run(&operation, backend) {
                    Ok(_) => {},
                    Err(e) => return Err(e),
                }
            }
            assert(timeline.events() =~= warmed + operations((index + 1) as nat));
            index = index + 1;
        }
        match timeline.synchronize(backend) {
            Ok(()) => {},
            Err(e) => return Err(E::from(e)),
        }
        proof {
            lemma_sampled_positive(count as int, every as int);
        }
        let total_elapsed = timeline.elapsed_since(&total_start);
        let clock = backend.clock();
        assert(timeline.events() =~= operations(warmups as nat) + seq![
            TimelineEvent::Synchronize,
            TimelineEvent::ClockRead(total_start),
        ] + operations(count as nat) + seq![
            TimelineEvent::Synchronize,
            TimelineEvent::ElapsedSince(total_start, total_elapsed),
        ]);
        Ok(
            OperationMetrics {
                metrics,
                marks: Ghost(marks),
                total_elapsed,
                config,
                clock,
                timeline,
                clock_start: Ghost(total_start),
            },
        )
    }

    /// The timed operations, in the order they ran.
    pub fn iter(&self) -> (r: core::slice::Iter<'_, OperationMetric<T>>)
        ensures
            vstd::std_specs::slice::into_iter_elts(r) == self.samples(),
    {
        broadcast use vstd::std_specs::slice::axiom_spec_slice_iter;
        let r = self.metrics.as_slice().iter();
        proof {
            assert(vstd::std_specs::iter::IteratorSpec::remaining(&r).unref() =~= self.metrics@);
        }
        r
    }

    /// The timed operations, in the order they ran.
    pub fn samples_slice(&self) -> (r: &[OperationMetric<T>])
        ensures
            r@ == self.samples(),
    {
        self.metrics.as_slice()
    }

    pub fn sample_count(&self) -> (r: usize)
        ensures
            r == self.samples().len(),
    {
        self.metrics.len()
    }

    pub fn operation_count(&self) -> (r: usize)
        ensures
            r == self.config_spec().count_spec(),
    {
        self.config.operation_count()
    }

    pub fn warmup_operations(&self) -> (r: usize)
        ensures
            r == self.config_spec().warmup_spec(),
    {
        self.config.warmup_operations()
    }

    pub fn sample_every(&self) -> (r: usize)
        ensures
            r == self.config_spec().every_spec(),
    {
        self.config.sample_every()
    }

    pub fn total_elapsed(&self) -> (r: Duration)
        ensures
            r == self.total_elapsed_spec(),
    {
        self.total_elapsed
    }

    pub fn clock(&self) -> (r: TimingClock)
        ensures
            r == self.clock_spec(),
    {
        self.clock
    }
}

} // verus!
