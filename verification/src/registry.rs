//! The registry: every series by its key, and the count of dropped samples.
use core::ops::Add;

use vstd::prelude::*;

use crate::metric::MetricPoint;
use crate::series::{KeyModel, Series, SeriesKey, SeriesModel, SeriesValue};
use crate::sorted_map::SortedMap;

verus! {

/// Every series by its key, and how many samples were dropped.
#[derive(Debug)]
pub struct Registry<N> {
    series: SortedMap<SeriesKey, Series<N>>,
    rejected_kind_mismatch: u64,
}

/// What a `Registry` holds.
pub struct RegistryModel<N> {
    pub series: Map<KeyModel, SeriesModel<N>>,
    pub rejected: u64,
}

/// What became of a sample.
#[derive(Debug)]
pub enum EmitOutcome {
    /// It was the first one of its series.
    Started,
    /// It was folded into its series.
    Merged,
    /// It was dropped: the series has another kind.
    KindMismatch { metric_name: String, existing: &'static str },
    /// It was dropped: its value does not fit its kind.
    ValueMismatch,
}

impl<N> RegistryModel<N> {
    /// A registry that has seen no sample.
    pub open spec fn fresh() -> Self {
        RegistryModel { series: Map::empty(), rejected: 0 }
    }

    /// One more sample is counted as dropped, and nothing else changes.
    pub open spec fn with_rejection(self) -> Self {
        RegistryModel {
            series: self.series,
            rejected: crate::series::saturating_count(self.rejected, 1),
        }
    }

    /// The series under `key` is replaced.
    pub open spec fn with_series(self, key: KeyModel, series: SeriesModel<N>) -> Self {
        RegistryModel { series: self.series.insert(key, series), rejected: self.rejected }
    }

    /// The sample is of another kind than the series it belongs to.
    pub open spec fn kind_clash(self, key: KeyModel, metric: MetricPoint<N>) -> bool {
        self.series.contains_key(key) && self.series[key].kind != metric.kind
    }

    /// The accumulator that the sample goes to, or would have to start, takes
    /// its value.
    pub open spec fn takes(self, key: KeyModel, metric: MetricPoint<N>) -> bool {
        if self.series.contains_key(key) {
            self.series[key].value.metric_kind().fits(metric.value)
        } else {
            metric.kind.fits(metric.value)
        }
    }

    /// The sample is not dropped.
    pub open spec fn accepts(self, key: KeyModel, metric: MetricPoint<N>) -> bool {
        !self.kind_clash(key, metric) && self.takes(key, metric)
    }

    /// Every series' accumulator is of the series' kind.
    pub open spec fn coherent(self) -> bool {
        forall|key: KeyModel| #[trigger]
            self.series.contains_key(key) ==> self.series[key].value.metric_kind()
                == self.series[key].kind
    }
}

impl<N: Copy + Default + Add<Output = N>> RegistryModel<N> {
    /// The numbers that the sample makes its series add can be added.
    pub open spec fn addable(self, key: KeyModel, metric: MetricPoint<N>) -> bool {
        self.series.contains_key(key) && self.series[key].kind == metric.kind
            ==> self.series[key].value.addable(metric.value)
    }

    /// `post` is what the sample makes of this registry: an accepted sample
    /// starts its series or is folded into it, any other is counted as dropped.
    pub open spec fn emitted(self, key: KeyModel, metric: MetricPoint<N>, post: Self) -> bool {
        if !self.accepts(key, metric) {
            post == self.with_rejection()
        } else if self.series.contains_key(key) {
            let series = self.series[key];
            let value = post.series[key].value;
            &&& series.value.merged(metric.value, value)
            &&& post == self.with_series(
                key,
                SeriesModel { kind: series.kind, unit: series.unit, value },
            )
        } else {
            let value = post.series[key].value;
            &&& SeriesValue::seeded(metric.kind, metric.value, value)
            &&& post == self.with_series(
                key,
                SeriesModel {
                    kind: metric.kind,
                    unit: crate::metric::unit_view(metric.unit),
                    value,
                },
            )
        }
    }
}

/// `outcome` tells what became of the sample.
pub open spec fn is_outcome<N>(
    pre: RegistryModel<N>,
    key: KeyModel,
    metric: MetricPoint<N>,
    outcome: EmitOutcome,
) -> bool {
    match outcome {
        EmitOutcome::Started => pre.accepts(key, metric) && !pre.series.contains_key(key),
        EmitOutcome::Merged => pre.accepts(key, metric) && pre.series.contains_key(key),
        EmitOutcome::KindMismatch { metric_name, existing } => {
            &&& pre.kind_clash(key, metric)
            &&& metric_name@ == key.name
            &&& existing@ == pre.series[key].value.metric_kind().name()
        },
        EmitOutcome::ValueMismatch => !pre.kind_clash(key, metric) && !pre.takes(key, metric),
    }
}

impl<N> View for Registry<N> {
    type V = RegistryModel<N>;

    closed spec fn view(&self) -> RegistryModel<N> {
        RegistryModel { series: self.series@, rejected: self.rejected_kind_mismatch }
    }
}

impl<N> Registry<N> {
    #[verifier::type_invariant]
    spec fn accumulates_by_kind(&self) -> bool {
        self@.coherent()
    }

    pub fn new() -> (registry: Self)
        ensures
            registry@ == RegistryModel::<N>::fresh(),
    {
        Registry { series: SortedMap::new(), rejected_kind_mismatch: 0 }
    }

    /// Puts a series whose accumulator is of its kind under its key.
    fn put(&mut self, key: SeriesKey, series: Series<N>)
        requires
            series.value.metric_kind() == series.kind,
        ensures
            final(self)@ == old(self)@.with_series(key@, series@),
            final(self)@.coherent(),
    {
        proof {
            use_type_invariant(&*self);
        }
        let mut all: SortedMap<SeriesKey, Series<N>> = SortedMap::new();
        std::mem::swap(&mut all, &mut self.series);
        all.insert(key, series);
        self.series = all;
    }

    /// The number of dropped samples.
    pub fn rejected(&self) -> (count: u64)
        ensures
            count == self@.rejected,
    {
        self.rejected_kind_mismatch
    }

    /// The series, in the order of their keys.
    pub fn series(&self) -> (series: &SortedMap<SeriesKey, Series<N>>)
        ensures
            series@ == self@.series,
            self@.coherent(),
    {
        proof {
            use_type_invariant(self);
        }
        &self.series
    }
}

impl<N: Copy + Default + Add<Output = N>> Registry<N> {
    /// Takes in one sample of the series under `key`.
    pub fn record(&mut self, key: SeriesKey, metric: &MetricPoint<N>) -> (outcome: EmitOutcome)
        requires
            old(self)@.addable(key@, *metric),
        ensures
            old(self)@.emitted(key@, *metric, final(self)@),
            is_outcome(old(self)@, key@, *metric, outcome),
            old(self)@.coherent(),
            final(self)@.coherent(),
    {
        proof {
            use_type_invariant(&*self);
        }
        match self.series.get(&key) {
            Some(series) => {
                if series.kind != metric.kind {
                    let existing = series.value.kind();
                    self.rejected_kind_mismatch = self.rejected_kind_mismatch.saturating_add(1);
                    return EmitOutcome::KindMismatch { metric_name: key.name, existing };
                }
                let mut value = series.value;
                if value.merge(&metric.value).is_err() {
                    self.rejected_kind_mismatch = self.rejected_kind_mismatch.saturating_add(1);
                    return EmitOutcome::ValueMismatch;
                }
                let merged = Series { kind: series.kind, unit: series.unit.clone(), value };
                self.put(key, merged);
                EmitOutcome::Merged
            },
            None => {
                match SeriesValue::seed(metric.kind, &metric.value) {
                    Some(value) => {
                        let first = Series {
                            kind: metric.kind,
                            unit: metric.unit.clone(),
                            value,
                        };
                        self.put(key, first);
                        EmitOutcome::Started
                    },
                    None => {
                        self.rejected_kind_mismatch = self.rejected_kind_mismatch.saturating_add(
                            1,
                        );
                        EmitOutcome::ValueMismatch
                    },
                }
            },
        }
    }
}

} // verus!
