//! States that differ at most in which NaN they hold.
//!
//! Floating-point addition gives one result, except that it is left open which
//! of the NaNs comes out where the sum is no number. An exposition shows all of
//! them as `NaN`. `bits` gives the bits of a floating-point value.
use core::ops::Add;

use vstd::prelude::*;

use crate::registry::RegistryModel;
use crate::series::{GaugeReading, KeyModel, SeriesModel, SeriesValue};
use crate::sink::SinkModel;

verus! {

/// `x` is no number.
pub open spec fn no_number<N, B: Fn(N) -> u64>(x: N, bits: &B) -> bool {
    forall|b: u64| #[trigger] call_ensures(bits, (x,), b) ==> crate::number::is_nan(b)
}

/// `x` and `y` are the same, or neither is a number.
pub open spec fn numbers_alike<N, B: Fn(N) -> u64>(x: N, y: N, bits: &B) -> bool {
    x == y || (no_number(x, bits) && no_number(y, bits))
}

/// Addition gives alike results of alike numbers. This holds of floating-point
/// numbers.
pub open spec fn adds_alike<N: Add<Output = N>, B: Fn(N) -> u64>(bits: &B) -> bool {
    forall|a: N, b: N, c: N, d: N, r: N, s: N| #[trigger]
        call_ensures(N::add, (a, b), r) && #[trigger] call_ensures(N::add, (c, d), s)
            && numbers_alike(a, c, bits) && numbers_alike(b, d, bits) ==> numbers_alike(r, s, bits)
}

/// Any two default numbers are alike. This holds of floating-point numbers.
pub open spec fn defaults_alike<N: Default, B: Fn(N) -> u64>(bits: &B) -> bool {
    forall|r: N, s: N| #[trigger]
        call_ensures(N::default, (), r) && #[trigger] call_ensures(N::default, (), s)
            ==> numbers_alike(r, s, bits)
}

/// Two accumulators hold the same, up to alike numbers.
pub open spec fn values_alike<N, B: Fn(N) -> u64>(
    a: SeriesValue<N>,
    b: SeriesValue<N>,
    bits: &B,
) -> bool {
    match (a, b) {
        (
            SeriesValue::Counter { sum_f64, sum_i64 },
            SeriesValue::Counter { sum_f64: other_f64, sum_i64: other_i64 },
        ) => numbers_alike(sum_f64, other_f64, bits) && sum_i64 == other_i64,
        (
            SeriesValue::Gauge { last: GaugeReading::F64 { value } },
            SeriesValue::Gauge { last: GaugeReading::F64 { value: other } },
        ) => numbers_alike(value, other, bits),
        (
            SeriesValue::Histogram { count, sum },
            SeriesValue::Histogram { count: other_count, sum: other_sum },
        ) => count == other_count && numbers_alike(sum, other_sum, bits),
        _ => a == b,
    }
}

/// Two series hold the same, up to alike numbers.
pub open spec fn series_alike<N, B: Fn(N) -> u64>(
    a: SeriesModel<N>,
    b: SeriesModel<N>,
    bits: &B,
) -> bool {
    a.kind == b.kind && a.unit == b.unit && values_alike(a.value, b.value, bits)
}

/// Two registries hold the same, up to alike numbers.
pub open spec fn registries_alike<N, B: Fn(N) -> u64>(
    a: RegistryModel<N>,
    b: RegistryModel<N>,
    bits: &B,
) -> bool {
    &&& a.rejected == b.rejected
    &&& a.series.dom() == b.series.dom()
    &&& forall|key: KeyModel| #[trigger]
        a.series.contains_key(key) ==> series_alike(a.series[key], b.series[key], bits)
}

/// Two sinks hold the same, up to alike numbers.
pub open spec fn sinks_alike<N, B: Fn(N) -> u64>(
    a: SinkModel<N>,
    b: SinkModel<N>,
    bits: &B,
) -> bool {
    &&& a.namespace == b.namespace
    &&& a.global_labels == b.global_labels
    &&& registries_alike(a.registry, b.registry, bits)
}

} // verus!
