//! Metric samples as the gateway emits them.
use vstd::prelude::*;

use crate::labels::LabelMap;

verus! {

/// What a metric measures.
#[derive(Debug, Clone, Copy, PartialEq, Eq, Structural)]
pub enum MetricKind {
    Counter,
    Gauge,
    Histogram,
}

/// The value of one sample; `N` is the floating-point type.
#[derive(Debug, Clone)]
#[allow(inconsistent_fields)]
pub enum MetricValue<N> {
    F64 { value: N },
    I64 { value: i64 },
    Histogram { count: u64, sum: N, observations: Vec<N> },
}

/// One sample of one metric.
#[derive(Debug, Clone)]
pub struct MetricPoint<N> {
    pub name: String,
    pub unit: Option<String>,
    pub kind: MetricKind,
    pub value: MetricValue<N>,
    pub labels: LabelMap,
    pub timestamp_ns: u64,
}

impl MetricKind {
    /// The kind's name in an exposition.
    pub open spec fn name(self) -> Seq<char> {
        match self {
            MetricKind::Counter => "counter"@,
            MetricKind::Gauge => "gauge"@,
            MetricKind::Histogram => "histogram"@,
        }
    }

    /// Whether a sample of this kind can have the value `value`: counters and
    /// gauges take plain numbers, histograms take a batch of observations or a
    /// single floating-point one.
    pub open spec fn fits<N>(self, value: MetricValue<N>) -> bool {
        match value {
            MetricValue::F64 { .. } => true,
            MetricValue::I64 { .. } => self != MetricKind::Histogram,
            MetricValue::Histogram { .. } => self == MetricKind::Histogram,
        }
    }

    /// The kind's name in an exposition.
    pub fn label(self) -> (name: &'static str)
        ensures
            name@ == self.name(),
    {
        match self {
            MetricKind::Counter => "counter",
            MetricKind::Gauge => "gauge",
            MetricKind::Histogram => "histogram",
        }
    }
}

/// The text of an optional unit.
pub open spec fn unit_view(unit: Option<String>) -> Option<Seq<char>> {
    match unit {
        Some(u) => Some(u@),
        None => None,
    }
}

} // verus!
