use std::cell::Cell;
use std::convert::Infallible;
use std::time::Duration;

use psyduck::args::{GeneratorArgs, MatrixSize, Target};
use psyduck::generator::Generator;
use psyduck::instrument::benchmark::{
    Benchmark, BenchmarkError, BenchmarkSchemaVersion, BenchmarkShape, BenchmarkTarget, CaptureReport,
    OperationWork,
};
use psyduck::instrument::cuda::{CudaKernelMetrics, KernelMetric};
use psyduck::instrument::operation::{
    sample_count_for, sampled, CaptureConfig, OperationMetrics, OperationTimer, TimingClock,
};
use psyduck::instrument::registry::{validate_metric_attributes, MetricAttributeError, MetricType};
use psyduck::model::host::HostModelBackend;

struct FakeTimer {
    marker: Cell<u64>,
    synchronizations: Cell<usize>,
}

impl OperationTimer for FakeTimer {
    type Error = Infallible;
    type Marker = u64;

    fn clock_spec() -> TimingClock {
        TimingClock::HostWall
    }

    fn clock(&self) -> TimingClock {
        TimingClock::HostWall
    }

    fn mark(&self) -> Result<Self::Marker, Self::Error> {
        let marker = self.marker.get();
        self.marker.set(marker + 10);
        Ok(marker)
    }

    fn elapsed_spec(&self, start: Self::Marker, end: Self::Marker) -> Duration {
        Duration::from_micros(end - start)
    }

    fn elapsed(&self, start: Self::Marker, end: Self::Marker) -> Result<Duration, Self::Error> {
        Ok(Duration::from_micros(end - start))
    }

    fn synchronize(&self) -> Result<(), Self::Error> {
        self.synchronizations.set(self.synchronizations.get() + 1);
        Ok(())
    }
}

#[test]
fn warms_up_and_samples_at_the_configured_rate() {
    let timer = FakeTimer { marker: Cell::new(0), synchronizations: Cell::new(0) };
    let operations = Cell::new(0);
    let metrics = OperationMetrics::capture(&timer, CaptureConfig::new(2, 5, 2), |_| {
        operations.set(operations.get() + 1);
        Ok::<_, Infallible>(())
    })
    .unwrap();

    assert_eq!(operations.get(), 7);
    assert_eq!(metrics.operation_count(), 5);
    assert_eq!(metrics.sample_count(), 3);
    assert!(metrics.iter().all(|metric| metric.elapsed() == Duration::from_micros(10)));
    assert_eq!(timer.synchronizations.get(), 2);
}

#[test]
fn samples_keep_the_results_of_the_timed_operations() {
    let timer = FakeTimer { marker: Cell::new(0), synchronizations: Cell::new(0) };
    let counter = Cell::new(0);
    let metrics = OperationMetrics::capture(&timer, CaptureConfig::new(1, 7, 3), |_| {
        counter.set(counter.get() + 1);
        Ok::<_, Infallible>(counter.get())
    })
    .unwrap();

    // One warmup (call 1), then calls 2..=8; operations 0, 3 and 6 are timed.
    let results: Vec<i32> = metrics.iter().map(|metric| *metric.result()).collect();
    assert_eq!(results, vec![2, 5, 8]);
    assert_eq!(metrics.clock(), TimingClock::HostWall);
    assert_eq!(metrics.warmup_operations(), 1);
    assert_eq!(metrics.sample_every(), 3);

    let report = CaptureReport::from_metrics(&metrics);
    assert_eq!(
        (report.operation_count, report.sample_count, report.sample_every, report.warmup_operations),
        (7, 3, 3, 1)
    );
}

#[test]
fn a_failing_operation_ends_the_capture() {
    let timer = FakeTimer { marker: Cell::new(0), synchronizations: Cell::new(0) };
    let calls = Cell::new(0);
    let result = OperationMetrics::capture(&timer, CaptureConfig::new(0, 5, 1), |_| {
        calls.set(calls.get() + 1);
        if calls.get() == 3 {
            Err(Failure("third call fails"))
        } else {
            Ok(())
        }
    });
    assert_eq!(result.err(), Some(Failure("third call fails")));
    assert_eq!(calls.get(), 3);
}

#[derive(Debug, PartialEq)]
struct Failure(&'static str);

impl From<Infallible> for Failure {
    fn from(never: Infallible) -> Self {
        match never {}
    }
}

#[test]
fn sampling_rounds_the_sample_count_up() {
    assert_eq!(sample_count_for(5, 2), 3);
    assert_eq!(sample_count_for(6, 2), 3);
    assert_eq!(sample_count_for(1, 4), 1);
    assert!(sampled(0, 3));
    assert!(!sampled(4, 3));
    assert!(sampled(6, 3));
}

#[test]
fn the_host_backend_times_with_the_wall_clock() {
    let backend = HostModelBackend::<i32>::new();
    assert_eq!(backend.clock(), TimingClock::HostWall);
    let start = backend.mark().unwrap();
    let end = backend.mark().unwrap();
    assert!(backend.elapsed(start, end).is_ok());
    assert!(backend.synchronize().is_ok());
}

#[test]
fn counts_the_work_of_a_product() {
    let work = OperationWork::matmul(4, 4, 4, 4);
    assert_eq!(work.floating_point_operations(), 128);
    assert_eq!(work.algorithmic_bytes(), Some(192));

    let work = OperationWork::matmul(2, 3, 5, 8);
    assert_eq!(work.floating_point_operations(), 60);
    assert_eq!(work.algorithmic_bytes(), Some(8 * (10 + 15 + 6)));

    let given = OperationWork::new(7, None);
    assert_eq!(given.floating_point_operations(), 7);
    assert_eq!(given.algorithmic_bytes(), None);
}

#[test]
fn metric_dimensions_must_fit_an_i64() {
    assert_eq!(Benchmark::metric_dimension("m", 42).unwrap(), 42);
    assert_eq!(
        Benchmark::metric_dimensions(BenchmarkShape { m: 1, n: 2, k: 3 }).unwrap(),
        (1, 2, 3)
    );
    if usize::BITS == 64 {
        match Benchmark::metric_dimensions(BenchmarkShape { m: 1, n: usize::MAX, k: usize::MAX }) {
            Err(BenchmarkError::InvalidDimension { name, value }) => {
                assert_eq!(name, "n");
                assert_eq!(value, usize::MAX);
            }
            other => panic!("expected an invalid dimension, got {other:?}"),
        }
    }
    assert_eq!(BenchmarkSchemaVersion::V1.number(), 1);
}

#[test]
fn kernel_metrics_keep_their_samples() {
    let timer = FakeTimer { marker: Cell::new(0), synchronizations: Cell::new(0) };
    let counter = Cell::new(0);
    let metrics = CudaKernelMetrics::instrument_many(
        &timer,
        |_| {
            counter.set(counter.get() + 1);
            Ok::<_, Infallible>(counter.get())
        },
        5,
        Some(2),
    )
    .unwrap();
    assert_eq!(metrics.sample_count(), 3);
    assert_eq!(metrics.operation_count(), 5);
    let results: Vec<Option<i32>> = metrics.iter().map(|m| m.result().copied()).collect();
    assert_eq!(results, vec![Some(1), Some(3), Some(5)]);
    assert!(metrics.iter().all(|m| m.elapsed() == Duration::from_micros(10)));
    assert_eq!(timer.synchronizations.get(), 1);

    let every = CudaKernelMetrics::instrument_many(&timer, |_| Ok::<_, Infallible>(()), 3, None).unwrap();
    assert_eq!(every.sample_count(), 3);

    let single = CudaKernelMetrics::instrument(&timer, |_| Ok::<_, Infallible>(7)).unwrap();
    assert_eq!(single.sample_count(), 1);
    assert_eq!(single.operation_count(), 1);
    assert_eq!(single.iter().next().unwrap().result(), Some(&7));

    let calls = Cell::new(0);
    let together = CudaKernelMetrics::instrument_over_many(
        &timer,
        |_| {
            calls.set(calls.get() + 1);
            Ok::<_, Infallible>(())
        },
        4,
    )
    .unwrap();
    assert_eq!(calls.get(), 4);
    assert_eq!(together.sample_count(), 1);
    assert_eq!(together.operation_count(), 4);
    let only = together.iter().next().unwrap();
    assert_eq!(only.result(), None);
    assert_eq!(only.elapsed(), Duration::from_micros(10));
}

#[test]
fn metric_types_round_trip_through_their_names() {
    let all = [
        MetricType::U64Counter,
        MetricType::F64Counter,
        MetricType::U64ObservableCounter,
        MetricType::F64ObservableCounter,
        MetricType::I64UpDownCounter,
        MetricType::F64UpDownCounter,
        MetricType::I64ObservableUpDownCounter,
        MetricType::F64ObservableUpDownCounter,
        MetricType::U64ObservableGauge,
        MetricType::I64ObservableGauge,
        MetricType::F64ObservableGauge,
        MetricType::U64Gauge,
        MetricType::I64Gauge,
        MetricType::F64Gauge,
        MetricType::F64Histogram,
        MetricType::U64Histogram,
    ];
    for metric_type in all {
        assert_eq!(MetricType::from_name(metric_type.name()), Some(metric_type));
    }
    assert_eq!(MetricType::from_name("f64_histogram"), Some(MetricType::F64Histogram));
    assert_eq!(MetricType::from_name("histogram"), None);
    assert!(MetricType::U64Histogram.is_histogram());
    assert!(!MetricType::U64Gauge.is_histogram());
}

#[test]
fn arguments_choose_the_target_size_and_generator() {
    assert_eq!(BenchmarkTarget::from(Target::Host), BenchmarkTarget::Host);
    assert_eq!(BenchmarkTarget::from(Target::Device), BenchmarkTarget::Device);
    assert_eq!(MatrixSize::N4.get(), 4);
    assert_eq!(MatrixSize::N2048.get(), 2048);
    assert_eq!(MatrixSize::N4096.get(), 4096);
    assert_eq!(GeneratorArgs::into_generator(None), Generator::Deterministic(None));
    assert_eq!(
        GeneratorArgs::into_generator(Some(GeneratorArgs::Deterministic { seed: None })),
        Generator::Deterministic(None)
    );
    assert_eq!(
        GeneratorArgs::into_generator(Some(GeneratorArgs::Deterministic { seed: Some(5) })),
        Generator::Deterministic(Some(5))
    );
    assert_eq!(
        GeneratorArgs::into_generator(Some(GeneratorArgs::NonDeterministic)),
        Generator::NonDeterministic
    );
}

#[test]
fn metric_declarations_are_checked_in_order() {
    assert_eq!(
        validate_metric_attributes(true, Some(MetricType::F64Histogram), true),
        Ok(MetricType::F64Histogram)
    );
    assert_eq!(validate_metric_attributes(true, Some(MetricType::U64Counter), false), Ok(MetricType::U64Counter));
    assert_eq!(validate_metric_attributes(true, None, false), Err(MetricAttributeError::MissingInstrument));
    assert_eq!(validate_metric_attributes(false, None, true), Err(MetricAttributeError::MissingInstrument));
    assert_eq!(
        validate_metric_attributes(true, Some(MetricType::U64Gauge), true),
        Err(MetricAttributeError::BoundariesOnNonHistogram)
    );
    assert_eq!(
        validate_metric_attributes(false, Some(MetricType::U64Gauge), true),
        Err(MetricAttributeError::BoundariesOnNonHistogram)
    );
    assert_eq!(
        validate_metric_attributes(false, Some(MetricType::U64Histogram), true),
        Err(MetricAttributeError::MissingName)
    );
}
