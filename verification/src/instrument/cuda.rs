//! Timings of device kernels, measured between marks recorded on the device's stream.

use vstd::prelude::*;

use core::time::Duration;

use crate::instrument::operation::{lemma_sampled_step, sample_count_for, sampled, sampled_among, OperationTimer};
use crate::instrument::timeline::{
    lemma_operations_in_add, lemma_operations_in_operations, operations, operations_in, Timeline, TimelineEvent,
};

verus! {

/// One timed kernel run: what it returned, if it was kept, and how long it took.
#[derive(Debug)]
pub struct KernelMetric<T> {
    result: Option<T>,
    elapsed: Duration,
}

impl<T> KernelMetric<T> {
    pub closed spec fn result_spec(&self) -> Option<T> {
        self.result
    }

    pub closed spec fn elapsed_spec(&self) -> Duration {
        self.elapsed
    }

    pub fn result(&self) -> (r: Option<&T>)
        ensures
            r == match self.result_spec() {
                Some(v) => Some(&v),
                None => None::<&T>,
            },
    {
        match &self.result {
            Some(v) => Some(v),
            None => None,
        }
    }

    pub fn elapsed(&self) -> (r: Duration)
        ensures
            r == self.elapsed_spec(),
    {
        self.elapsed
    }

    pub fn into_result(self) -> (r: Option<T>)
        ensures
            r == self.result_spec(),
    {
        self.result
    }
}

/// The steps of a measurement of one run: a clock reading `start`, the run, and the time
/// passed since `start`, which is `total`.
pub open spec fn single_run_timeline(events: Seq<TimelineEvent>, start: std::time::Instant, total: Duration) -> bool {
    events == seq![
        TimelineEvent::ClockRead(start),
        TimelineEvent::Operation,
        TimelineEvent::ElapsedSince(start, total),
    ]
}

/// The steps of a measurement of `count` runs: a clock reading `start`, the runs, a wait for
/// the backend, and the time passed since `start`, which is `total`.
pub open spec fn device_timeline(events: Seq<TimelineEvent>, count: nat, start: std::time::Instant, total: Duration) -> bool {
    events == seq![TimelineEvent::ClockRead(start)] + operations(count) + seq![
        TimelineEvent::Synchronize,
        TimelineEvent::ElapsedSince(start, total),
    ]
}

/// The steps of a measurement of `count` runs timed as one: a clock reading `start`, the runs,
/// and the time passed since `start`, which is `total`.
pub open spec fn runs_timeline(events: Seq<TimelineEvent>, count: nat, start: std::time::Instant, total: Duration) -> bool {
    events == seq![TimelineEvent::ClockRead(start)] + operations(count) + seq![TimelineEvent::ElapsedSince(start, total)]
}

/// The total time of a measurement of `count` runs covers every run it launched: it is the time
/// passed since a clock reading taken before the first run, read after the last run and after
/// the backend has been waited for, so no launched run is still pending when it is read.
pub proof fn lemma_device_total_covers_every_run(
    events: Seq<TimelineEvent>,
    count: nat,
    start: std::time::Instant,
    total: Duration,
)
    requires
        device_timeline(events, count, start, total),
    ensures
        events.len() == count + 3,
        events[0] == TimelineEvent::ClockRead(start),
        events[events.len() - 1] == TimelineEvent::ElapsedSince(start, total),
        events[events.len() - 2] == TimelineEvent::Synchronize,
        operations_in(events) == count,
        forall|i: int| 0 <= i < events.len() && #[trigger] events[i] is Operation ==> 0 < i < events.len() - 2,
{
    reveal_with_fuel(operations_in, 3);
    let read = seq![TimelineEvent::ClockRead(start)];
    let end = seq![TimelineEvent::Synchronize, TimelineEvent::ElapsedSince(start, total)];
    lemma_operations_in_operations(count);
    lemma_operations_in_add(read, operations(count));
    lemma_operations_in_add(read + operations(count), end);
    assert(read.drop_last() =~= Seq::<TimelineEvent>::empty());
    assert(end.drop_last() =~= seq![TimelineEvent::Synchronize]);
    assert(end.drop_last().drop_last() =~= Seq::<TimelineEvent>::empty());
}

/// The timed kernel runs of one measurement, the host time it took, and how many runs it
/// covered.
pub struct CudaKernelMetrics<T, M> {
    metrics: Vec<KernelMetric<T>>,
    /// The marks taken around each timed run, in order.
    marks: Ghost<Seq<(M, M)>>,
    total_elapsed: Duration,
    count: usize,
    /// The steps the measurement took.
    timeline: Timeline,
    /// The clock reading that the total time is measured from.
    clock_start: Ghost<std::time::Instant>,
}

impl<T, M> CudaKernelMetrics<T, M> {
    pub closed spec fn samples(&self) -> Seq<KernelMetric<T>> {
        self.metrics@
    }

    /// The marks taken right before and right after each timed run.
    pub closed spec fn sample_marks(&self) -> Seq<(M, M)> {
        self.marks@
    }

    pub closed spec fn count_spec(&self) -> usize {
        self.count
    }

    pub closed spec fn total_elapsed_spec(&self) -> Duration {
        self.total_elapsed
    }

    /// The steps the measurement took, in order.
    pub closed spec fn timeline(&self) -> Seq<TimelineEvent> {
        self.timeline.events()
    }

    /// The clock reading that the total time is measured from.
    pub closed spec fn clock_start(&self) -> std::time::Instant {
        self.clock_start@
    }

    /// Times one run of `operation` between two marks on `backend`, keeping what it returned.
    pub fn instrument<B: OperationTimer<Marker = M>, E: From<B::Error>, GpuOp: FnOnce(&B) -> Result<T, E>>(
        backend: &B,
        operation: GpuOp,
    ) -> (r: Result<Self, E>)
        requires
            call_requires(operation, (backend,)),
        ensures
            r matches Ok(metrics) ==> {
                &&& metrics.count_spec() == 1
                &&& single_run_timeline(metrics.timeline(), metrics.clock_start(), metrics.total_elapsed_spec())
                &&& metrics.samples().len() == 1
                &&& metrics.sample_marks().len() == 1
                &&& metrics.samples()[0].result_spec() matches Some(v) && call_ensures(
                    operation,
                    (backend,),
                    Ok::<T, E>(v),
                )
                &&& metrics.samples()[0].elapsed_spec() == backend.elapsed_spec(
                    metrics.sample_marks()[0].0,
                    metrics.sample_marks()[0].1,
                )
            },
            r matches Err(e) ==> call_ensures(operation, (backend,), Err::<T, E>(e)) || exists|
                cause: B::Error,
            | #[trigger] call_ensures(E::from, (cause,), e),
    {
        let mut timeline = Timeline::new();
        let start_time = timeline.read_clock();
        let start = match backend.mark() {
            Ok(m) => m,
            Err(e) => return Err(E::from(e)),
        };
        let result = match timeline.run_once(operation, backend) {
            Ok(v) => v,
            Err(e) => return Err(e),
        };
        let end = match backend.mark() {
            Ok(m) => m,
            Err(e) => return Err(E::from(e)),
        };
        let ghost pair = (start, end);
        let ghost single: Seq<(M, M)> = seq![pair];
        let elapsed = match backend.elapsed(start, end) {
            Ok(d) => d,
            Err(e) => return Err(E::from(e)),
        };
        let total_elapsed = timeline.elapsed_since(&start_time);
        let mut metrics: Vec<KernelMetric<T>> = Vec::new();
        metrics.push(KernelMetric { result: Some(result), elapsed });
        assert(timeline.events() =~= seq![
            TimelineEvent::ClockRead(start_time),
            TimelineEvent::Operation,
            TimelineEvent::ElapsedSince(start_time, total_elapsed),
        ]);
        Ok(
            CudaKernelMetrics {
                metrics,
                marks: Ghost(single),
                total_elapsed,
                count: 1,
                timeline,
                clock_start: Ghost(start_time),
            },
        )
    }

    /// Runs `operation` `count` times, timing run `i` between two marks when `i` is a multiple
    /// of `sample_every` (every run when it is `None`), then waits for the backend. The first
    /// error ends the measurement.
    pub fn instrument_many<B: OperationTimer<Marker = M>, E: From<B::Error>, GpuOp: Fn(&B) -> Result<T, E>>(
        backend: &B,
        operation: GpuOp,
        count: usize,
        sample_every: Option<usize>,
    ) -> (r: Result<Self, E>)
        requires
            count > 0,
            sample_every matches Some(every) ==> every > 0,
            call_requires(operation, (backend,)),
        ensures
            r matches Ok(metrics) ==> {
                &&& metrics.count_spec() == count
                &&& device_timeline(metrics.timeline(), count as nat, metrics.clock_start(), metrics.total_elapsed_spec())
                &&& metrics.samples().len() == sampled_among(
                    count as int,
                    match sample_every {
                        Some(every) => every as int,
                        None => 1int,
                    },
                )
                &&& metrics.sample_marks().len() == metrics.samples().len()
                &&& forall|i: int|
                    0 <= i < metrics.samples().len() ==> (#[trigger] metrics.samples()[i]).elapsed_spec()
                        == backend.elapsed_spec(metrics.sample_marks()[i].0, metrics.sample_marks()[i].1)
                &&& forall|i: int|
                    0 <= i < metrics.samples().len() ==> ((#[trigger] metrics.samples()[i]).result_spec() matches Some(
                        v,
                    ) && call_ensures(operation, (backend,), Ok::<T, E>(v)))
            },
            r matches Err(e) ==> call_ensures(operation, (backend,), Err::<T, E>(e)) || exists|
                cause: B::Error,
            | #[trigger] call_ensures(E::from, (cause,), e),
    {
        let every = match sample_every {
            Some(every) => every,
            None => 1,
        };
        let mut metrics: Vec<KernelMetric<T>> = Vec::with_capacity(sample_count_for(count, every));
        let ghost mut marks: Seq<(M, M)> = Seq::empty();
        let mut timeline = Timeline::new();
        let start_time = timeline.read_clock();
        let ghost started = timeline.events();
        assert(timeline.events() =~= started + operations(0));
        let mut index: usize = 0;
        while index < count
            invariant
                index <= count,
                every > 0,
                started == seq![TimelineEvent::ClockRead(start_time)],
                timeline.events() == started + operations(index as nat),
                metrics@.len() == sampled_among(index as int, every as int),
                marks.len() == metrics@.len(),
                forall|i: int|
                    0 <= i < metrics@.len() ==> (#[trigger] metrics@[i]).elapsed == backend.elapsed_spec(
                        marks[i].0,
                        marks[i].1,
                    ),
                call_requires(operation, (backend,)),
                forall|i: int|
                    0 <= i < metrics@.len() ==> ((#[trigger] metrics@[i]).result matches Some(v)
                        && call_ensures(operation, (backend,), Ok::<T, E>(v))),
            decreases count - index,
        {
            proof {
                lemma_sampled_step(index as int, every as int);
            }
            if sampled(index, every) {
                let start = match backend.mark() {
                    Ok(m) => m,
                    Err(e) => return Err(E::from(e)),
                };
                let result = match timeline.run(&operation, backend) {
                    Ok(v) => v,
                    Err(e) => return Err(e),
                };
                let end = match backend.mark() {
                    Ok(m) => m,
                    Err(e) => return Err(E::from(e)),
                };
                let ghost pair = (start, end);
                let elapsed = match backend.elapsed(start, end) {
                    Ok(d) => d,
                    Err(e) => return Err(E::from(e)),
                };
                metrics.push(KernelMetric { result: Some(result), elapsed });
                proof {
                    marks = marks.push(pair);
                }
            } else {
                match timeline.run(&operation, backend) {
                    Ok(_) => {},
                    Err(e) => return Err(e),
                }
            }
            assert(timeline.events() =~= started + operations((index + 1) as nat));
            index = index + 1;
        }
        match timeline.synchronize(backend) {
            Ok(()) => {},
            Err(e) => return Err(E::from(e)),
        }
        let total_elapsed = timeline.elapsed_since(&start_time);
        assert(timeline.events() =~= seq![TimelineEvent::ClockRead(start_time)] + operations(count as nat) + seq![
            TimelineEvent::Synchronize,
            TimelineEvent::ElapsedSince(start_time, total_elapsed),
        ]);
        Ok(
            CudaKernelMetrics {
                metrics,
                marks: Ghost(marks),
                total_elapsed,
                count,
                timeline,
                clock_start: Ghost(start_time),
            },
        )
    }

    /// Runs `operation` `count` times between two marks and keeps the time between them, as
    /// one measurement without a result.
    pub fn instrument_over_many<B: OperationTimer<Marker = M>, E: From<B::Error>, GpuOp: Fn(&B) -> Result<T, E>>(
        backend: &B,
        operation: GpuOp,
        count: usize,
    ) -> (r: Result<Self, E>)
        requires
            count > 0,
            call_requires(operation, (backend,)),
        ensures
            r matches Ok(metrics) ==> {
                &&& metrics.count_spec() == count
                &&& runs_timeline(metrics.timeline(), count as nat, metrics.clock_start(), metrics.total_elapsed_spec())
                &&& metrics.samples().len() == 1
                &&& metrics.sample_marks().len() == 1
                &&& metrics.samples()[0].result_spec() is None
                &&& metrics.samples()[0].elapsed_spec() == backend.elapsed_spec(
                    metrics.sample_marks()[0].0,
                    metrics.sample_marks()[0].1,
                )
            },
            r matches Err(e) ==> call_ensures(operation, (backend,), Err::<T, E>(e)) || exists|
                cause: B::Error,
            | #[trigger] call_ensures(E::from, (cause,), e),
    {
        let mut timeline = Timeline::new();
        let start_time = timeline.read_clock();
        let ghost started = timeline.events();
        assert(timeline.events() =~= started + operations(0));
        let start = match backend.mark() {
            Ok(m) => m,
            Err(e) => return Err(E::from(e)),
        };
        let mut index: usize = 0;
        while index < count
            invariant
                index <= count,
                call_requires(operation, (backend,)),
                started == seq![TimelineEvent::ClockRead(start_time)],
                timeline.events() == started + operations(index as nat),
            decreases count - index,
        {
            match timeline.run(&operation, backend) {
                Ok(_) => {},
                Err(e) => return Err(e),
            }
            assert(timeline.events() =~= started + operations((index + 1) as nat));
            index = index + 1;
        }
        let end = match backend.mark() {
            Ok(m) => m,
            Err(e) => return Err(E::from(e)),
        };
        let ghost pair = (start, end);
        let ghost single: Seq<(M, M)> = seq![pair];
        let elapsed = match backend.elapsed(start, end) {
            Ok(d) => d,
            Err(e) => return Err(E::from(e)),
        };
        let total_elapsed = timeline.elapsed_since(&start_time);
        let mut metrics: Vec<KernelMetric<T>> = Vec::new();
        metrics.push(KernelMetric { result: None, elapsed });
        assert(timeline.events() =~= seq![TimelineEvent::ClockRead(start_time)] + operations(count as nat) + seq![
            TimelineEvent::ElapsedSince(start_time, total_elapsed),
        ]);
        Ok(
            CudaKernelMetrics {
                metrics,
                marks: Ghost(single),
                total_elapsed,
                count,
                timeline,
                clock_start: Ghost(start_time),
            },
        )
    }

    /// The timed runs, in the order they ran.
    pub fn iter(&self) -> (r: core::slice::Iter<'_, KernelMetric<T>>)
        ensures
            vstd::std_specs::slice::into_iter_elts(r) == self.samples(),
    {
        broadcast use vstd::std_specs::slice::axiom_spec_slice_iter;
        let r = self.metrics.as_slice().iter();
        proof {
            assert(vstd::std_specs::iter::IteratorSpec::remaining(&r).unref() =~= self.metrics@);
        }
        r
    }

    pub fn sample_count(&self) -> (r: usize)
        ensures
            r == self.samples().len(),
    {
        self.metrics.len()
    }

    pub fn operation_count(&self) -> (r: usize)
        ensures
            r == self.count_spec(),
    {
        self.count
    }

    pub fn total_elapsed(&self) -> (r: Duration)
        ensures
            r == self.total_elapsed_spec(),
    {
        self.total_elapsed
    }
}

} // verus!
