//! The kinds of instrument a metrics registry can declare, by their builder names.

use vstd::prelude::*;

verus! {

/// A kind of OpenTelemetry instrument.
#[derive(Clone, Copy, Debug, PartialEq, Eq, Structural)]
pub enum MetricType {
    U64Counter,
    F64Counter,
    U64ObservableCounter,
    F64ObservableCounter,
    I64UpDownCounter,
    F64UpDownCounter,
    I64ObservableUpDownCounter,
    F64ObservableUpDownCounter,
    U64ObservableGauge,
    I64ObservableGauge,
    F64ObservableGauge,
    U64Gauge,
    I64Gauge,
    F64Gauge,
    F64Histogram,
    U64Histogram,
}

impl MetricType {
    /// The name of the meter method that builds this kind of instrument.
    pub open spec fn name_spec(self) -> &'static str {
        match self {
            MetricType::U64Counter => "u64_counter",
            MetricType::F64Counter => "f64_counter",
            MetricType::U64ObservableCounter => "u64_observable_counter",
            MetricType::F64ObservableCounter => "f64_observable_counter",
            MetricType::I64UpDownCounter => "i64_up_down_counter",
            MetricType::F64UpDownCounter => "f64_up_down_counter",
            MetricType::I64ObservableUpDownCounter => "i64_observable_up_down_counter",
            MetricType::F64ObservableUpDownCounter => "f64_observable_up_down_counter",
            MetricType::U64ObservableGauge => "u64_observable_gauge",
            MetricType::I64ObservableGauge => "i64_observable_gauge",
            MetricType::F64ObservableGauge => "f64_observable_gauge",
            MetricType::U64Gauge => "u64_gauge",
            MetricType::I64Gauge => "i64_gauge",
            MetricType::F64Gauge => "f64_gauge",
            MetricType::F64Histogram => "f64_histogram",
            MetricType::U64Histogram => "u64_histogram",
        }
    }

    /// Whether instruments of this kind take bucket boundaries.
    pub fn is_histogram(&self) -> (r: bool)
        ensures
            r == (*self == MetricType::F64Histogram || *self == MetricType::U64Histogram),
    {
        match self {
            MetricType::F64Histogram => true,
            MetricType::U64Histogram => true,
            _ => false,
        }
    }

    /// The name of the meter method that builds this kind of instrument.
    pub fn name(self) -> (r: &'static str)
        ensures
            r == self.name_spec(),
    {
        match self {
            MetricType::U64Counter => "u64_counter",
            MetricType::F64Counter => "f64_counter",
            MetricType::U64ObservableCounter => "u64_observable_counter",
            MetricType::F64ObservableCounter => "f64_observable_counter",
            MetricType::I64UpDownCounter => "i64_up_down_counter",
            MetricType::F64UpDownCounter => "f64_up_down_counter",
            MetricType::I64ObservableUpDownCounter => "i64_observable_up_down_counter",
            MetricType::F64ObservableUpDownCounter => "f64_observable_up_down_counter",
            MetricType::U64ObservableGauge => "u64_observable_gauge",
            MetricType::I64ObservableGauge => "i64_observable_gauge",
            MetricType::F64ObservableGauge => "f64_observable_gauge",
            MetricType::U64Gauge => "u64_gauge",
            MetricType::I64Gauge => "i64_gauge",
            MetricType::F64Gauge => "f64_gauge",
            MetricType::F64Histogram => "f64_histogram",
            MetricType::U64Histogram => "u64_histogram",
        }
    }

    /// The kind whose builder is called `name`, if there is one.
    pub fn from_name(name: &str) -> (r: Option<MetricType>)
        ensures
            r matches Some(t) ==> t.name_spec()@ == name@,
            forall|t: MetricType| #[trigger] t.name_spec()@ == name@ ==> r == Some(t),
            r is None ==> forall|t: MetricType| #[trigger] t.name_spec()@ != name@,
    {
        let all = [
            MetricType::U64Counter,
            MetricType::F64Counter,
            MetricType::U64ObservableCounter,
            MetricType::F64ObservableCounter,
            MetricType::I64UpDownCounter,
            MetricType::F64UpDownCounter,
            MetricType::I64ObservableUpDownCounter,
            MetricType::F64ObservableUpDownCounter,
            MetricType::U64ObservableGauge,
            MetricType::I64ObservableGauge,
            MetricType::F64ObservableGauge,
            MetricType::U64Gauge,
            MetricType::I64Gauge,
            MetricType::F64Gauge,
            MetricType::F64Histogram,
            MetricType::U64Histogram,
        ];
        proof {
            assert forall|t: MetricType| #[trigger] listed(all@, t) by {
                match t {
                    MetricType::U64Counter => assert(all@[0] == t),
                    MetricType::F64Counter => assert(all@[1] == t),
                    MetricType::U64ObservableCounter => assert(all@[2] == t),
                    MetricType::F64ObservableCounter => assert(all@[3] == t),
                    MetricType::I64UpDownCounter => assert(all@[4] == t),
                    MetricType::F64UpDownCounter => assert(all@[5] == t),
                    MetricType::I64ObservableUpDownCounter => assert(all@[6] == t),
                    MetricType::F64ObservableUpDownCounter => assert(all@[7] == t),
                    MetricType::U64ObservableGauge => assert(all@[8] == t),
                    MetricType::I64ObservableGauge => assert(all@[9] == t),
                    MetricType::F64ObservableGauge => assert(all@[10] == t),
                    MetricType::U64Gauge => assert(all@[11] == t),
                    MetricType::I64Gauge => assert(all@[12] == t),
                    MetricType::F64Gauge => assert(all@[13] == t),
                    MetricType::F64Histogram => assert(all@[14] == t),
                    MetricType::U64Histogram => assert(all@[15] == t),
                }
            }
        }
        let mut i: usize = 0;
        while i < all.len()
            invariant
                i <= all@.len(),
                all@.len() == 16,
                forall|t: MetricType| #[trigger] listed(all@, t),
                forall|j: int| 0 <= j < i ==> (#[trigger] all@[j]).name_spec()@ != name@,
            decreases all@.len() - i,
        {
            let candidate = all[i];
            if same_text(name, candidate.name()) {
                proof {
                    assert forall|t: MetricType| #[trigger] t.name_spec()@ == name@ implies Some(candidate) == Some(t) by {
                        lemma_name_injective(t, candidate);
                    }
                }
                return Some(candidate);
            }
            i = i + 1;
        }
        proof {
            assert forall|t: MetricType| #[trigger] t.name_spec()@ != name@ by {
                assert(listed(all@, t));
                let j = choose|j: int| 0 <= j < all@.len() && all@[j] == t;
                assert(all@[j].name_spec()@ != name@);
            }
        }
        None
    }
}

/// Why the attributes of a metric declaration were refused.
#[derive(Clone, Copy, Debug, PartialEq, Eq, Structural)]
pub enum MetricAttributeError {
    /// No `instrument` attribute was given.
    MissingInstrument,
    /// `boundaries` was given for an instrument that is not a histogram.
    BoundariesOnNonHistogram,
    /// No `name` attribute was given.
    MissingName,
}

/// What the checks on a metric declaration give, in their order: an instrument must be
/// given, bucket boundaries only for a histogram, and a name must be given.
pub open spec fn metric_attributes_outcome(has_name: bool, instrument: Option<MetricType>, has_boundaries: bool) -> Result<
    MetricType,
    MetricAttributeError,
> {
    match instrument {
        None => Err(MetricAttributeError::MissingInstrument),
        Some(t) => if has_boundaries && !(t == MetricType::F64Histogram || t == MetricType::U64Histogram) {
            Err(MetricAttributeError::BoundariesOnNonHistogram)
        } else if !has_name {
            Err(MetricAttributeError::MissingName)
        } else {
            Ok(t)
        },
    }
}

/// Checks the attributes of a metric declaration once all of them were read, and gives its
/// instrument.
pub fn validate_metric_attributes(has_name: bool, instrument: Option<MetricType>, has_boundaries: bool) -> (r: Result<
    MetricType,
    MetricAttributeError,
>)
    ensures
        r == metric_attributes_outcome(has_name, instrument, has_boundaries),
{
    let instrument = match instrument {
        Some(t) => t,
        None => return Err(MetricAttributeError::MissingInstrument),
    };
    if has_boundaries && !instrument.is_histogram() {
        return Err(MetricAttributeError::BoundariesOnNonHistogram);
    }
    if !has_name {
        return Err(MetricAttributeError::MissingName);
    }
    Ok(instrument)
}

/// The length and first character of each builder name.
spec fn name_key(t: MetricType) -> (nat, char) {
    match t {
        MetricType::U64Counter => (11nat, 'u'),
        MetricType::F64Counter => (11nat, 'f'),
        MetricType::U64ObservableCounter => (22nat, 'u'),
        MetricType::F64ObservableCounter => (22nat, 'f'),
        MetricType::I64UpDownCounter => (19nat, 'i'),
        MetricType::F64UpDownCounter => (19nat, 'f'),
        MetricType::I64ObservableUpDownCounter => (30nat, 'i'),
        MetricType::F64ObservableUpDownCounter => (30nat, 'f'),
        MetricType::U64ObservableGauge => (20nat, 'u'),
        MetricType::I64ObservableGauge => (20nat, 'i'),
        MetricType::F64ObservableGauge => (20nat, 'f'),
        MetricType::U64Gauge => (9nat, 'u'),
        MetricType::I64Gauge => (9nat, 'i'),
        MetricType::F64Gauge => (9nat, 'f'),
        MetricType::F64Histogram => (13nat, 'f'),
        MetricType::U64Histogram => (13nat, 'u'),
    }
}

proof fn lemma_name_key(t: MetricType)
    ensures
        t.name_spec()@.len() == name_key(t).0,
        t.name_spec()@[0] == name_key(t).1,
{
    match t {
        MetricType::U64Counter => {
            reveal_strlit("u64_counter");
        },
        MetricType::F64Counter => {
            reveal_strlit("f64_counter");
        },
        MetricType::U64ObservableCounter => {
            reveal_strlit("u64_observable_counter");
        },
        MetricType::F64ObservableCounter => {
            reveal_strlit("f64_observable_counter");
        },
        MetricType::I64UpDownCounter => {
            reveal_strlit("i64_up_down_counter");
        },
        MetricType::F64UpDownCounter => {
            reveal_strlit("f64_up_down_counter");
        },
        MetricType::I64ObservableUpDownCounter => {
            reveal_strlit("i64_observable_up_down_counter");
        },
        MetricType::F64ObservableUpDownCounter => {
            reveal_strlit("f64_observable_up_down_counter");
        },
        MetricType::U64ObservableGauge => {
            reveal_strlit("u64_observable_gauge");
        },
        MetricType::I64ObservableGauge => {
            reveal_strlit("i64_observable_gauge");
        },
        MetricType::F64ObservableGauge => {
            reveal_strlit("f64_observable_gauge");
        },
        MetricType::U64Gauge => {
            reveal_strlit("u64_gauge");
        },
        MetricType::I64Gauge => {
            reveal_strlit("i64_gauge");
        },
        MetricType::F64Gauge => {
            reveal_strlit("f64_gauge");
        },
        MetricType::F64Histogram => {
            reveal_strlit("f64_histogram");
        },
        MetricType::U64Histogram => {
            reveal_strlit("u64_histogram");
        },
    }
}

/// Different kinds of instrument have different builder names.
pub proof fn lemma_name_injective(t1: MetricType, t2: MetricType)
    requires
        t1.name_spec()@ == t2.name_spec()@,
    ensures
        t1 == t2,
{
    lemma_name_key(t1);
    lemma_name_key(t2);
}

/// `t` occurs in `all`.
spec fn listed(all: Seq<MetricType>, t: MetricType) -> bool {
    exists|j: int| 0 <= j < all.len() && all[j] == t
}

/// Whether two strings hold the same characters.
fn same_text(a: &str, b: &str) -> (r: bool)
    ensures
        r == (a@ == b@),
{
    let n = a.unicode_len();
    if n != b.unicode_len() {
        return false;
    }
    let mut i: usize = 0;
    while i < n
        invariant
            i <= n,
            n == a@.len(),
            n == b@.len(),
            forall|j: int| 0 <= j < i ==> a@[j] == b@[j],
        decreases n - i,
    {
        if a.get_char(i) != b.get_char(i) {
            return false;
        }
        i = i + 1;
    }
    assert(a@ =~= b@);
    true
}

} // verus!
