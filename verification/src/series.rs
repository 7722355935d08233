//! One metric series: what identifies it, and what it has accumulated.
use core::ops::Add;

use vstd::prelude::*;

use crate::labels::LabelMap;
use crate::metric::{MetricKind, MetricValue};
use crate::order::{compare_text, Comparison};
use crate::sorted_map::Ranked;

verus! {

/// Identifier for one Prometheus series: name and label set. The labels stand
/// in the order of their names.
#[derive(Debug)]
pub struct SeriesKey {
    pub name: String,
    pub labels: Vec<(String, String)>,
}

/// What a `SeriesKey` holds.
pub struct KeyModel {
    pub name: Seq<char>,
    pub labels: Seq<(Seq<char>, Seq<char>)>,
}

impl View for SeriesKey {
    type V = KeyModel;

    open spec fn view(&self) -> KeyModel {
        KeyModel { name: self.name@, labels: crate::text::label_views(self.labels@) }
    }
}

/// The key of the series with the given name and labels.
pub open spec fn series_key(name: Seq<char>, labels: Map<Seq<char>, Seq<char>>) -> KeyModel {
    KeyModel { name, labels: crate::sorted_map::listing_of::<String, Seq<char>>(labels) }
}

impl SeriesKey {
    pub fn new(name: String, labels: LabelMap) -> (key: Self)
        ensures
            key@ == series_key(name@, labels@),
            crate::sorted_map::is_listing::<String, Seq<char>>(labels@, key@.labels),
    {
        let labels = labels.into_entries();
        SeriesKey { name, labels }
    }
}

/// The order of labels: by name, then by value.
pub open spec fn label_before() -> spec_fn((Seq<char>, Seq<char>), (Seq<char>, Seq<char>)) -> bool {
    |a: (Seq<char>, Seq<char>), b: (Seq<char>, Seq<char>)|
        crate::order::text_before(a.0, b.0) || (a.0 == b.0 && crate::order::text_before(a.1, b.1))
}

/// The order of series: by name, then by labels.
pub open spec fn key_before(a: KeyModel, b: KeyModel) -> bool {
    crate::order::text_before(a.name, b.name) || (a.name == b.name && crate::order::lex_before(
        a.labels,
        b.labels,
        label_before(),
    ))
}

proof fn lemma_label_order()
    ensures
        crate::order::strict_order(label_before()),
{
    crate::order::lemma_text_order();
}

/// Compares two label sets in the lexicographic order.
fn compare_labels(a: &Vec<(String, String)>, b: &Vec<(String, String)>) -> (c: Comparison)
    ensures
        c is Before <==> crate::order::lex_before(
            crate::text::label_views(a@),
            crate::text::label_views(b@),
            label_before(),
        ),
        c is Same <==> crate::text::label_views(a@) == crate::text::label_views(b@),
        c is After <==> crate::order::lex_before(
            crate::text::label_views(b@),
            crate::text::label_views(a@),
            label_before(),
        ),
{
    let ghost l = crate::text::label_views(a@);
    let ghost r = crate::text::label_views(b@);
    let ghost less = label_before();
    proof {
        lemma_label_order();
        crate::order::lemma_text_order();
        crate::order::lemma_lex_irreflexive(l, less);
        assert(l.take(0) =~= r.take(0));
        if crate::order::lex_before(l, r, less) && crate::order::lex_before(r, l, less) {
            crate::order::lemma_lex_transitive(l, r, l, less);
        }
    }
    let mut i: usize = 0;
    loop
        invariant
            i <= a.len(),
            i <= b.len(),
            l == crate::text::label_views(a@),
            r == crate::text::label_views(b@),
            less == label_before(),
            crate::order::strict_order(less),
            l.take(i as int) == r.take(i as int),
            !crate::order::lex_before(l, l, less),
            !(crate::order::lex_before(l, r, less) && crate::order::lex_before(r, l, less)),
        decreases a.len() - i,
    {
        proof {
            crate::order::lemma_lex_skip(l, r, i as int, less);
            crate::order::lemma_lex_skip(r, l, i as int, less);
        }
        if i == a.len() {
            assert(l.take(i as int) =~= l);
            if i == b.len() {
                assert(r.take(i as int) =~= r);
                return Comparison::Same;
            }
            assert(crate::order::lex_before(l.skip(i as int), r.skip(i as int), less));
            return Comparison::Before;
        }
        if i == b.len() {
            assert(crate::order::lex_before(r.skip(i as int), l.skip(i as int), less));
            return Comparison::After;
        }
        let names = compare_text(a[i].0.as_str(), b[i].0.as_str());
        let values = compare_text(a[i].1.as_str(), b[i].1.as_str());
        assert(l.skip(i as int)[0] == (a@[i as int].0@, a@[i as int].1@));
        assert(r.skip(i as int)[0] == (b@[i as int].0@, b@[i as int].1@));
        match names {
            Comparison::Before => {
                return Comparison::Before;
            },
            Comparison::After => {
                return Comparison::After;
            },
            Comparison::Same => {},
        }
        match values {
            Comparison::Before => {
                return Comparison::Before;
            },
            Comparison::After => {
                return Comparison::After;
            },
            Comparison::Same => {},
        }
        proof {
            assert(l.take(i + 1) =~= l.take(i as int).push(l[i as int]));
            assert(r.take(i + 1) =~= r.take(i as int).push(r[i as int]));
        }
        i += 1;
    }
}

impl Ranked for SeriesKey {
    open spec fn before(a: KeyModel, b: KeyModel) -> bool {
        key_before(a, b)
    }

    proof fn lemma_order() {
        crate::order::lemma_text_order();
        lemma_label_order();
        let less = label_before();
        assert forall|a: KeyModel| !#[trigger] key_before(a, a) by {
            crate::order::lemma_lex_irreflexive(a.labels, less);
        }
        assert forall|a: KeyModel, b: KeyModel, c: KeyModel| #[trigger]
            key_before(a, b) && #[trigger] key_before(b, c) implies key_before(a, c) by {
            if crate::order::lex_before(a.labels, b.labels, less) && crate::order::lex_before(
                b.labels,
                c.labels,
                less,
            ) {
                crate::order::lemma_lex_transitive(a.labels, b.labels, c.labels, less);
            }
        }
        assert forall|a: KeyModel, b: KeyModel| #[trigger]
            key_before(a, b) || a == b || key_before(b, a) by {
            crate::order::lemma_lex_total(a.labels, b.labels, less);
        }
    }

    fn rank(&self, other: &Self) -> (c: Comparison) {
        proof {
            Self::lemma_order();
            crate::order::lemma_text_order();
        }
        let names = compare_text(self.name.as_str(), other.name.as_str());
        match names {
            Comparison::Same => compare_labels(&self.labels, &other.labels),
            _ => names,
        }
    }
}

/// The sum of two integers, held at the bounds of `i64`.
pub open spec fn saturating_sum(a: i64, b: i64) -> i64 {
    if a + b > i64::MAX {
        i64::MAX
    } else if a + b < i64::MIN {
        i64::MIN
    } else {
        (a + b) as i64
    }
}

/// The sum of two counts, held at the bound of `u64`.
pub open spec fn saturating_count(a: u64, b: u64) -> u64 {
    if a + b > u64::MAX {
        u64::MAX
    } else {
        (a + b) as u64
    }
}

/// Adds two integers, held at the bounds of `i64`.
fn add_saturating(a: i64, b: i64) -> (sum: i64)
    ensures
        sum == saturating_sum(a, b),
{
    match a.checked_add(b) {
        Some(sum) => sum,
        None => if b > 0 {
            i64::MAX
        } else {
            i64::MIN
        },
    }
}

/// The last sample of a gauge.
#[derive(Debug, Clone, Copy)]
#[allow(inconsistent_fields)]
pub enum GaugeReading<N> {
    F64 { value: N },
    I64 { value: i64 },
}

/// Per-series accumulator. A counter sums floating-point and integer samples
/// apart. A histogram keeps no observation, only their count and sum.
#[derive(Debug, Clone, Copy)]
pub enum SeriesValue<N> {
    Counter { sum_f64: N, sum_i64: i64 },
    Gauge { last: GaugeReading<N> },
    Histogram { count: u64, sum: N },
}

impl<N> SeriesValue<N> {
    /// The kind of metric that this accumulates.
    pub open spec fn metric_kind(self) -> MetricKind {
        match self {
            SeriesValue::Counter { .. } => MetricKind::Counter,
            SeriesValue::Gauge { .. } => MetricKind::Gauge,
            SeriesValue::Histogram { .. } => MetricKind::Histogram,
        }
    }

    /// The name of the kind of metric that this accumulates.
    pub fn kind(&self) -> (name: &'static str)
        ensures
            name@ == self.metric_kind().name(),
    {
        match self {
            SeriesValue::Counter { .. } => "counter",
            SeriesValue::Gauge { .. } => "gauge",
            SeriesValue::Histogram { .. } => "histogram",
        }
    }
}

impl<N: Copy + Default + Add<Output = N>> SeriesValue<N> {
    /// The numbers that the sample `value` makes this accumulator add can be
    /// added. This holds of any two floating-point numbers.
    pub open spec fn addable(self, value: MetricValue<N>) -> bool {
        match (self, value) {
            (SeriesValue::Counter { sum_f64, .. }, MetricValue::F64 { value }) => call_requires(
                N::add,
                (sum_f64, value),
            ),
            (SeriesValue::Histogram { sum, .. }, MetricValue::F64 { value }) => call_requires(
                N::add,
                (sum, value),
            ),
            (
                SeriesValue::Histogram { sum, .. },
                MetricValue::Histogram { sum: more_sum, .. },
            ) => call_requires(N::add, (sum, more_sum)),
            _ => true,
        }
    }

    /// `after` is what a sample `value` that fits makes of this accumulator: a
    /// counter adds it, a gauge takes it in place of the last one, a histogram
    /// adds its count and sum, or counts it as one observation.
    pub open spec fn merged(self, value: MetricValue<N>, after: Self) -> bool {
        match (self, value) {
            (SeriesValue::Counter { sum_f64, sum_i64 }, MetricValue::F64 { value }) => {
                &&& after is Counter
                &&& call_ensures(N::add, (sum_f64, value), after->sum_f64)
                &&& after->sum_i64 == sum_i64
            },
            (SeriesValue::Counter { sum_f64, sum_i64 }, MetricValue::I64 { value }) => {
                &&& after is Counter
                &&& after->sum_f64 == sum_f64
                &&& after->sum_i64 == saturating_sum(sum_i64, value)
            },
            (SeriesValue::Gauge { .. }, MetricValue::F64 { value }) => {
                after == (SeriesValue::Gauge { last: GaugeReading::F64 { value } })
            },
            (SeriesValue::Gauge { .. }, MetricValue::I64 { value }) => {
                after == (SeriesValue::Gauge { last: GaugeReading::<N>::I64 { value } })
            },
            (
                SeriesValue::Histogram { count, sum },
                MetricValue::Histogram { count: more, sum: more_sum, .. },
            ) => {
                &&& after is Histogram
                &&& after->count == saturating_count(count, more)
                &&& call_ensures(N::add, (sum, more_sum), after->sum)
            },
            (SeriesValue::Histogram { count, sum }, MetricValue::F64 { value }) => {
                &&& after is Histogram
                &&& after->count == saturating_count(count, 1)
                &&& call_ensures(N::add, (sum, value), after->sum)
            },
            _ => false,
        }
    }

    /// `first` is what the first sample of a series makes, where it fits.
    pub open spec fn seeded(kind: MetricKind, value: MetricValue<N>, first: Self) -> bool {
        match (kind, value) {
            (MetricKind::Counter, MetricValue::F64 { value }) => {
                first == (SeriesValue::Counter { sum_f64: value, sum_i64: 0 })
            },
            (MetricKind::Counter, MetricValue::I64 { value }) => {
                &&& first is Counter
                &&& call_ensures(N::default, (), first->sum_f64)
                &&& first->sum_i64 == value
            },
            (MetricKind::Gauge, MetricValue::F64 { value }) => {
                first == (SeriesValue::Gauge { last: GaugeReading::F64 { value } })
            },
            (MetricKind::Gauge, MetricValue::I64 { value }) => {
                first == (SeriesValue::Gauge { last: GaugeReading::<N>::I64 { value } })
            },
            (MetricKind::Histogram, MetricValue::Histogram { count, sum, .. }) => {
                first == (SeriesValue::Histogram { count, sum })
            },
            (MetricKind::Histogram, MetricValue::F64 { value }) => {
                first == (SeriesValue::Histogram { count: 1, sum: value })
            },
            _ => false,
        }
    }

    /// Folds one more sample into the accumulator.
    pub fn merge(&mut self, value: &MetricValue<N>) -> (result: Result<(), &'static str>)
        requires
            old(self).addable(*value),
        ensures
            result is Ok <==> old(self).metric_kind().fits(*value),
            result is Ok ==> old(self).merged(*value, *final(self)),
            result matches Err(reason) ==> *final(self) == *old(self) && reason@
                == "metric kind / value mismatch"@,
    {
        match (*self, value) {
            (SeriesValue::Counter { sum_f64, sum_i64 }, MetricValue::F64 { value }) => {
                *self = SeriesValue::Counter { sum_f64: sum_f64 + *value, sum_i64 };
                Ok(())
            },
            (SeriesValue::Counter { sum_f64, sum_i64 }, MetricValue::I64 { value }) => {
                *self = SeriesValue::Counter { sum_f64, sum_i64: add_saturating(sum_i64, *value) };
                Ok(())
            },
            (SeriesValue::Gauge { .. }, MetricValue::F64 { value }) => {
                *self = SeriesValue::Gauge { last: GaugeReading::F64 { value: *value } };
                Ok(())
            },
            (SeriesValue::Gauge { .. }, MetricValue::I64 { value }) => {
                *self = SeriesValue::Gauge { last: GaugeReading::I64 { value: *value } };
                Ok(())
            },
            (
                SeriesValue::Histogram { count, sum },
                MetricValue::Histogram { count: more, sum: more_sum, .. },
            ) => {
                *self = SeriesValue::Histogram {
                    count: count.saturating_add(*more),
                    sum: sum + *more_sum,
                };
                Ok(())
            },
            (SeriesValue::Histogram { count, sum }, MetricValue::F64 { value }) => {
                *self = SeriesValue::Histogram {
                    count: count.saturating_add(1),
                    sum: sum + *value,
                };
                Ok(())
            },
            _ => Err("metric kind / value mismatch"),
        }
    }

    /// The accumulator that the first sample of a series makes.
    pub fn seed(kind: MetricKind, value: &MetricValue<N>) -> (first: Option<Self>)
        ensures
            first is Some <==> kind.fits(*value),
            first matches Some(s) ==> Self::seeded(kind, *value, s),
    {
        match (kind, value) {
            (MetricKind::Counter, MetricValue::F64 { value }) => {
                Some(SeriesValue::Counter { sum_f64: *value, sum_i64: 0 })
            },
            (MetricKind::Counter, MetricValue::I64 { value }) => {
                Some(SeriesValue::Counter { sum_f64: N::default(), sum_i64: *value })
            },
            (MetricKind::Gauge, MetricValue::F64 { value }) => {
                Some(SeriesValue::Gauge { last: GaugeReading::F64 { value: *value } })
            },
            (MetricKind::Gauge, MetricValue::I64 { value }) => {
                Some(SeriesValue::Gauge { last: GaugeReading::I64 { value: *value } })
            },
            (MetricKind::Histogram, MetricValue::Histogram { count, sum, .. }) => {
                Some(SeriesValue::Histogram { count: *count, sum: *sum })
            },
            (MetricKind::Histogram, MetricValue::F64 { value }) => {
                Some(SeriesValue::Histogram { count: 1, sum: *value })
            },
            _ => None,
        }
    }
}

/// One sample makes alike accumulators of alike ones.
pub proof fn law_alike_values_merge_alike<N: Copy + Default + Add<Output = N>, B: Fn(N) -> u64>(
    a: SeriesValue<N>,
    b: SeriesValue<N>,
    sample: MetricValue<N>,
    after_a: SeriesValue<N>,
    after_b: SeriesValue<N>,
    bits: &B,
)
    requires
        crate::alike::adds_alike::<N, B>(bits),
        crate::alike::values_alike(a, b, bits),
        a.merged(sample, after_a),
        b.merged(sample, after_b),
    ensures
        crate::alike::values_alike(after_a, after_b, bits),
{
}

/// A bare floating-point sample on a histogram is a batch of one observation:
/// both are taken in, and whatever accumulator one can leave, the other can.
pub proof fn law_bare_sample_is_one_observation<N: Copy + Default + Add<Output = N>>(
    histogram: SeriesValue<N>,
    value: N,
    observations: Vec<N>,
    after: SeriesValue<N>,
)
    requires
        histogram is Histogram,
    ensures
        histogram.metric_kind().fits(MetricValue::F64 { value }),
        histogram.metric_kind().fits(
            MetricValue::Histogram { count: 1, sum: value, observations },
        ),
        histogram.merged(MetricValue::F64 { value }, after) <==> histogram.merged(
            MetricValue::Histogram { count: 1, sum: value, observations },
            after,
        ),
{
}

/// A bare floating-point sample and a batch of one observation leave the same
/// count and, where addition gives alike results, alike sums.
pub proof fn law_bare_sample_adds_like_one_observation<
    N: Copy + Default + Add<Output = N>,
    B: Fn(N) -> u64,
>(
    a: SeriesValue<N>,
    b: SeriesValue<N>,
    value: N,
    observations: Vec<N>,
    after_a: SeriesValue<N>,
    after_b: SeriesValue<N>,
    bits: &B,
)
    requires
        a is Histogram,
        crate::alike::values_alike(a, b, bits),
        a.merged(MetricValue::F64 { value }, after_a),
        b.merged(MetricValue::Histogram { count: 1, sum: value, observations }, after_b),
    ensures
        after_a is Histogram,
        after_b is Histogram,
        after_a->count == after_b->count,
        crate::alike::adds_alike::<N, B>(bits) ==> crate::alike::values_alike(
            after_a,
            after_b,
            bits,
        ),
{
}

/// One metric series in the registry: kind, unit and accumulator.
#[derive(Debug)]
pub struct Series<N> {
    pub kind: MetricKind,
    pub unit: Option<String>,
    pub value: SeriesValue<N>,
}

/// What a `Series` holds.
pub struct SeriesModel<N> {
    pub kind: MetricKind,
    pub unit: Option<Seq<char>>,
    pub value: SeriesValue<N>,
}

impl<N> View for Series<N> {
    type V = SeriesModel<N>;

    open spec fn view(&self) -> SeriesModel<N> {
        SeriesModel {
            kind: self.kind,
            unit: crate::metric::unit_view(self.unit),
            value: self.value,
        }
    }
}

} // verus!
