//! What holds of the sink's state, over any number of samples.
use core::ops::Add;

use vstd::prelude::*;

use crate::metric::{MetricKind, MetricPoint, MetricValue};
use crate::registry::RegistryModel;
use crate::series::{GaugeReading, KeyModel, SeriesValue};
use crate::sink::{PrometheusSinkConfig, SinkModel};

verus! {

/// `states` are what a sink goes through as it takes in `metrics`.
pub open spec fn is_run<N: Copy + Default + Add<Output = N>>(
    states: Seq<SinkModel<N>>,
    metrics: Seq<MetricPoint<N>>,
) -> bool {
    &&& states.len() == metrics.len() + 1
    &&& forall|i: int|
        0 <= i < metrics.len() ==> states[i].emitted(#[trigger] metrics[i], states[i + 1])
}

/// A run without its last sample is a run, and the last sample follows it.
pub proof fn lemma_run_step<N: Copy + Default + Add<Output = N>>(
    states: Seq<SinkModel<N>>,
    metrics: Seq<MetricPoint<N>>,
)
    requires
        is_run(states, metrics),
        metrics.len() > 0,
    ensures
        is_run(states.drop_last(), metrics.drop_last()),
        states.drop_last()[0] == states[0],
        states.drop_last().last().emitted(metrics.last(), states.last()),
{
    let n = metrics.len() - 1;
    assert(states[n].emitted(metrics[n], states[n + 1]));
    assert forall|i: int| 0 <= i < metrics.drop_last().len() implies states.drop_last()[i].emitted(
        #[trigger] metrics.drop_last()[i],
        states.drop_last()[i + 1],
    ) by {
        assert(metrics.drop_last()[i] == metrics[i]);
    }
}

/// The configuration stays as it is.
pub proof fn law_configuration_stays<N: Copy + Default + Add<Output = N>>(
    states: Seq<SinkModel<N>>,
    metrics: Seq<MetricPoint<N>>,
)
    requires
        is_run(states, metrics),
    ensures
        states.last().namespace == states[0].namespace,
        states.last().global_labels == states[0].global_labels,
        forall|metric: MetricPoint<N>| #[trigger]
            states.last().key_of(metric) == states[0].key_of(metric),
    decreases metrics.len(),
{
    if metrics.len() > 0 {
        lemma_run_step(states, metrics);
        law_configuration_stays(states.drop_last(), metrics.drop_last());
    }
}

/// A sample that is not accepted leaves every series as it is and is counted;
/// an accepted one is not counted.
pub proof fn law_dropped_samples_are_counted<N: Copy + Default + Add<Output = N>>(
    pre: SinkModel<N>,
    metric: MetricPoint<N>,
    post: SinkModel<N>,
)
    requires
        pre.emitted(metric, post),
    ensures
        pre.registry.accepts(pre.key_of(metric), metric) ==> post.registry.rejected
            == pre.registry.rejected,
        !pre.registry.accepts(pre.key_of(metric), metric) ==> {
            &&& post.registry.series == pre.registry.series
            &&& post.registry.rejected == crate::series::saturating_count(pre.registry.rejected, 1)
        },
{
}

/// A sample of another kind than its series, or whose value does not fit its
/// kind, is dropped; every other sample is accepted.
pub proof fn law_accepted_samples<N>(
    registry: RegistryModel<N>,
    key: KeyModel,
    metric: MetricPoint<N>,
)
    requires
        registry.coherent(),
    ensures
        registry.accepts(key, metric) <==> {
            &&& metric.kind.fits(metric.value)
            &&& registry.series.contains_key(key) ==> registry.series[key].kind == metric.kind
        },
{
}

/// How many samples of a run were dropped.
pub open spec fn dropped<N>(states: Seq<SinkModel<N>>, metrics: Seq<MetricPoint<N>>) -> nat
    decreases metrics.len(),
{
    if metrics.len() == 0 {
        0
    } else {
        let last = metrics.len() - 1;
        let before = dropped(states, metrics.drop_last());
        if states[last].registry.accepts(states[last].key_of(metrics[last]), metrics[last]) {
            before
        } else {
            before + 1
        }
    }
}

proof fn lemma_dropped_prefix<N>(
    states: Seq<SinkModel<N>>,
    shorter: Seq<SinkModel<N>>,
    metrics: Seq<MetricPoint<N>>,
)
    requires
        metrics.len() <= shorter.len() <= states.len(),
        forall|i: int| 0 <= i < shorter.len() ==> shorter[i] == states[i],
    ensures
        dropped(states, metrics) == dropped(shorter, metrics),
    decreases metrics.len(),
{
    if metrics.len() > 0 {
        lemma_dropped_prefix(states, shorter, metrics.drop_last());
    }
}

/// The meta-metric counts the dropped samples, up to the bound of `u64`.
pub proof fn law_meta_metric_counts_drops<N: Copy + Default + Add<Output = N>>(
    states: Seq<SinkModel<N>>,
    metrics: Seq<MetricPoint<N>>,
)
    requires
        is_run(states, metrics),
    ensures
        states.last().registry.rejected == if states[0].registry.rejected + dropped(states, metrics)
            > u64::MAX {
            u64::MAX as int
        } else {
            states[0].registry.rejected + dropped(states, metrics)
        },
    decreases metrics.len(),
{
    if metrics.len() > 0 {
        lemma_run_step(states, metrics);
        law_meta_metric_counts_drops(states.drop_last(), metrics.drop_last());
        lemma_dropped_prefix(states, states.drop_last(), metrics.drop_last());
        law_dropped_samples_are_counted(
            states.drop_last().last(),
            metrics.last(),
            states.last(),
        );
    }
}

/// A sample changes no series but its own.
pub proof fn law_other_series_stay<N: Copy + Default + Add<Output = N>>(
    pre: SinkModel<N>,
    metric: MetricPoint<N>,
    post: SinkModel<N>,
    key: KeyModel,
)
    requires
        pre.emitted(metric, post),
        key != pre.key_of(metric),
    ensures
        post.registry.series.contains_key(key) <==> pre.registry.series.contains_key(key),
        pre.registry.series.contains_key(key) ==> post.registry.series[key]
            == pre.registry.series[key],
{
}

/// An established series stays, with its kind and its unit, whatever samples
/// follow.
pub proof fn law_established_series_stay<N: Copy + Default + Add<Output = N>>(
    states: Seq<SinkModel<N>>,
    metrics: Seq<MetricPoint<N>>,
    key: KeyModel,
)
    requires
        is_run(states, metrics),
        states[0].registry.series.contains_key(key),
    ensures
        states.last().registry.series.contains_key(key),
        states.last().registry.series[key].kind == states[0].registry.series[key].kind,
        states.last().registry.series[key].unit == states[0].registry.series[key].unit,
    decreases metrics.len(),
{
    if metrics.len() > 0 {
        lemma_run_step(states, metrics);
        law_established_series_stay(states.drop_last(), metrics.drop_last(), key);
    }
}

/// From a fresh sink on, every series' accumulator is of the series' kind, and
/// the registry is finite.
pub proof fn law_series_are_coherent<N: Copy + Default + Add<Output = N>>(
    states: Seq<SinkModel<N>>,
    metrics: Seq<MetricPoint<N>>,
)
    requires
        is_run(states, metrics),
        states[0].registry.coherent(),
        states[0].registry.series.dom().finite(),
    ensures
        states.last().registry.coherent(),
        states.last().registry.series.dom().finite(),
    decreases metrics.len(),
{
    if metrics.len() > 0 {
        lemma_run_step(states, metrics);
        law_series_are_coherent(states.drop_last(), metrics.drop_last());
    }
}

/// A fresh sink is coherent.
pub proof fn law_fresh_sink_is_coherent<N>(config: PrometheusSinkConfig)
    ensures
        SinkModel::<N>::configured(config).registry.coherent(),
        SinkModel::<N>::configured(config).registry.series.dom().finite(),
{
}

/// The samples of a run that the series under `key` has taken in, in their
/// order.
pub open spec fn taken_samples<N>(
    states: Seq<SinkModel<N>>,
    metrics: Seq<MetricPoint<N>>,
    key: KeyModel,
) -> Seq<MetricPoint<N>>
    decreases metrics.len(),
{
    if metrics.len() == 0 {
        Seq::empty()
    } else {
        let last = metrics.len() - 1;
        let before = taken_samples(states, metrics.drop_last(), key);
        if states[last].key_of(metrics[last]) == key && states[last].registry.accepts(
            key,
            metrics[last],
        ) {
            before.push(metrics[last])
        } else {
            before
        }
    }
}

/// What a series takes in of a run does not depend on later states.
pub proof fn lemma_taken_prefix<N>(
    states: Seq<SinkModel<N>>,
    shorter: Seq<SinkModel<N>>,
    metrics: Seq<MetricPoint<N>>,
    key: KeyModel,
)
    requires
        metrics.len() <= shorter.len() <= states.len(),
        forall|i: int| 0 <= i < shorter.len() ==> shorter[i] == states[i],
    ensures
        taken_samples(states, metrics, key) == taken_samples(shorter, metrics, key),
    decreases metrics.len(),
{
    if metrics.len() > 0 {
        lemma_taken_prefix(states, shorter, metrics.drop_last(), key);
    }
}

/// A series that has not started before a run exists exactly if the run has a
/// sample that it takes in. It is of the first such sample's kind and unit, and
/// it takes in no sample of another kind.
pub proof fn law_first_sample_establishes_series<N: Copy + Default + Add<Output = N>>(
    states: Seq<SinkModel<N>>,
    metrics: Seq<MetricPoint<N>>,
    key: KeyModel,
)
    requires
        is_run(states, metrics),
        !states[0].registry.series.contains_key(key),
    ensures
        ({
            let taken = taken_samples(states, metrics, key);
            let registry = states.last().registry;
            &&& registry.series.contains_key(key) <==> taken.len() > 0
            &&& taken.len() > 0 ==> {
                &&& registry.series[key].kind == taken[0].kind
                &&& registry.series[key].unit == crate::metric::unit_view(taken[0].unit)
                &&& registry.series[key].value.metric_kind() == taken[0].kind
            }
            &&& forall|i: int|
                0 <= i < taken.len() ==> (#[trigger] taken[i]).kind == taken[0].kind
                    && taken[0].kind.fits(taken[i].value)
        }),
    decreases metrics.len(),
{
    if metrics.len() > 0 {
        lemma_run_step(states, metrics);
        let before = states.drop_last();
        let fewer = metrics.drop_last();
        law_first_sample_establishes_series(before, fewer, key);
        lemma_taken_prefix(states, before, fewer, key);
    }
}

/// What the last sample of a run does to a series: the series takes it in, or
/// stays as it is.
proof fn lemma_taken_step<N: Copy + Default + Add<Output = N>>(
    states: Seq<SinkModel<N>>,
    metrics: Seq<MetricPoint<N>>,
    key: KeyModel,
)
    requires
        is_run(states, metrics),
        metrics.len() > 0,
        !states[0].registry.series.contains_key(key),
    ensures
        ({
            let before = states.drop_last().last().registry;
            let after = states.last().registry;
            let fewer = taken_samples(states.drop_last(), metrics.drop_last(), key);
            let taken = taken_samples(states, metrics, key);
            &&& is_run(states.drop_last(), metrics.drop_last())
            &&& states.drop_last()[0] == states[0]
            &&& before.series.contains_key(key) <==> fewer.len() > 0
            &&& after.series.contains_key(key) <==> taken.len() > 0
            &&& {
                ||| taken == fewer && (taken.len() > 0 ==> after.series[key] == before.series[key])
                ||| {
                    &&& taken == fewer.push(metrics.last())
                    &&& taken[0].kind.fits(metrics.last().value)
                    &&& fewer.len() == 0 ==> SeriesValue::seeded(
                        taken[0].kind,
                        metrics.last().value,
                        after.series[key].value,
                    )
                    &&& fewer.len() > 0 ==> fewer[0] == taken[0]
                        && before.series[key].value.metric_kind() == taken[0].kind
                        && before.series[key].value.merged(
                        metrics.last().value,
                        after.series[key].value,
                    )
                }
            }
        }),
{
    lemma_run_step(states, metrics);
    let before = states.drop_last();
    law_first_sample_establishes_series(before, metrics.drop_last(), key);
    law_first_sample_establishes_series(states, metrics, key);
    lemma_taken_prefix(states, before, metrics.drop_last(), key);
}

/// The sum of the integer samples.
pub open spec fn integer_total<N>(metrics: Seq<MetricPoint<N>>) -> int
    decreases metrics.len(),
{
    if metrics.len() == 0 {
        0
    } else {
        integer_total(metrics.drop_last()) + match metrics.last().value {
            MetricValue::I64 { value } => value as int,
            _ => 0int,
        }
    }
}

proof fn lemma_integer_total_remove<N>(metrics: Seq<MetricPoint<N>>, i: int)
    requires
        0 <= i < metrics.len(),
    ensures
        integer_total(metrics) == integer_total(metrics.remove(i)) + integer_total(
            seq![metrics[i]],
        ),
    decreases metrics.len(),
{
    let last = metrics.len() - 1;
    assert(seq![metrics[i]].drop_last() =~= Seq::empty());
    assert(integer_total(seq![metrics[i]].drop_last()) == 0);
    if i == last {
        assert(metrics.remove(i) =~= metrics.drop_last());
    } else {
        lemma_integer_total_remove(metrics.drop_last(), i);
        assert(metrics.remove(i).drop_last() =~= metrics.drop_last().remove(i));
        assert(metrics.remove(i).last() == metrics.last());
    }
}

/// The sum of the integer samples does not depend on their order.
pub proof fn law_integer_total_ignores_order<N>(
    a: Seq<MetricPoint<N>>,
    b: Seq<MetricPoint<N>>,
)
    requires
        a.to_multiset() == b.to_multiset(),
    ensures
        integer_total(a) == integer_total(b),
    decreases a.len(),
{
    a.to_multiset_ensures();
    b.to_multiset_ensures();
    if a.len() > 0 {
        let last = a.len() - 1;
        let x = a[last];
        assert(a.contains(x));
        assert(b.to_multiset().contains(x));
        let i = choose|i: int| 0 <= i < b.len() && b[i] == x;
        assert(b.contains(x));
        assert(a.remove(last).to_multiset() =~= b.remove(i).to_multiset());
        law_integer_total_ignores_order(a.remove(last), b.remove(i));
        lemma_integer_total_remove(a, last);
        lemma_integer_total_remove(b, i);
    }
}

/// A counter accumulates: its integer part is the sum of the integer samples
/// that it has taken in, as long as that sum stays in range.
pub proof fn law_counter_sums_integers<N: Copy + Default + Add<Output = N>>(
    states: Seq<SinkModel<N>>,
    metrics: Seq<MetricPoint<N>>,
    key: KeyModel,
)
    requires
        is_run(states, metrics),
        !states[0].registry.series.contains_key(key),
        taken_samples(states, metrics, key).len() > 0,
        taken_samples(states, metrics, key)[0].kind == MetricKind::Counter,
        forall|n: int|
            0 <= n <= taken_samples(states, metrics, key).len() ==> i64::MIN
                <= #[trigger] integer_total(taken_samples(states, metrics, key).take(n))
                <= i64::MAX,
    ensures
        states.last().registry.series.contains_key(key),
        states.last().registry.series[key].value matches SeriesValue::Counter { sum_i64, .. }
            && sum_i64 == integer_total(taken_samples(states, metrics, key)),
    decreases metrics.len(),
{
    lemma_taken_step(states, metrics, key);
    let taken = taken_samples(states, metrics, key);
    let fewer = taken_samples(states.drop_last(), metrics.drop_last(), key);
    assert(taken.take(taken.len() as int) =~= taken);
    if taken == fewer {
        law_counter_sums_integers(states.drop_last(), metrics.drop_last(), key);
    } else {
        assert(taken.drop_last() =~= fewer);
        if fewer.len() == 0 {
            assert(integer_total(fewer) == 0);
        } else {
            assert forall|n: int| 0 <= n <= fewer.len() implies i64::MIN
                <= #[trigger] integer_total(fewer.take(n)) <= i64::MAX by {
                assert(fewer.take(n) =~= taken.take(n));
            }
            law_counter_sums_integers(states.drop_last(), metrics.drop_last(), key);
        }
    }
}

/// `totals` are the sums of `values`, added one by one in their order.
pub open spec fn are_running_sums<N: Add<Output = N>>(values: Seq<N>, totals: Seq<N>) -> bool {
    &&& totals.len() == values.len() > 0
    &&& totals[0] == values[0]
    &&& forall|i: int|
        0 < i < values.len() ==> call_ensures(
            N::add,
            (totals[i - 1], values[i]),
            #[trigger] totals[i],
        )
}

/// `total` is the sum of `values`, added one by one in their order.
pub open spec fn is_running_sum<N: Add<Output = N>>(values: Seq<N>, total: N) -> bool {
    exists|totals: Seq<N>| #[trigger] are_running_sums(values, totals) && totals.last() == total
}

proof fn lemma_running_sum_start<N: Add<Output = N>>(value: N)
    ensures
        is_running_sum(seq![value], value),
{
    assert(are_running_sums(seq![value], seq![value]));
}

proof fn lemma_running_sum_step<N: Add<Output = N>>(
    values: Seq<N>,
    before: N,
    value: N,
    total: N,
)
    requires
        is_running_sum(values, before),
        call_ensures(N::add, (before, value), total),
    ensures
        is_running_sum(values.push(value), total),
{
    let totals = choose|totals: Seq<N>| #[trigger]
        are_running_sums(values, totals) && totals.last() == before;
    let more = totals.push(total);
    assert forall|i: int| 0 < i < values.push(value).len() implies call_ensures(
        N::add,
        (more[i - 1], values.push(value)[i]),
        #[trigger] more[i],
    ) by {
        if i < values.len() {
            assert(more[i] == totals[i] && more[i - 1] == totals[i - 1]);
        }
    }
    assert(are_running_sums(values.push(value), more));
}

/// The floating-point samples, in their order.
pub open spec fn float_samples<N>(metrics: Seq<MetricPoint<N>>) -> Seq<N>
    decreases metrics.len(),
{
    if metrics.len() == 0 {
        Seq::empty()
    } else {
        match metrics.last().value {
            MetricValue::F64 { value } => float_samples(metrics.drop_last()).push(value),
            _ => float_samples(metrics.drop_last()),
        }
    }
}

/// `total` is the sum of the floating-point samples; where an integer sample
/// came first, it starts from the default number.
pub open spec fn is_counter_sum<N: Default + Add<Output = N>>(
    metrics: Seq<MetricPoint<N>>,
    total: N,
) -> bool {
    if metrics[0].value is F64 {
        is_running_sum(float_samples(metrics), total)
    } else {
        exists|zero: N| #[trigger]
            call_ensures(N::default, (), zero) && is_running_sum(
                seq![zero] + float_samples(metrics),
                total,
            )
    }
}

/// A counter accumulates: its floating-point part is the running sum of the
/// floating-point samples that it has taken in.
pub proof fn law_counter_sums_floats<N: Copy + Default + Add<Output = N>>(
    states: Seq<SinkModel<N>>,
    metrics: Seq<MetricPoint<N>>,
    key: KeyModel,
)
    requires
        is_run(states, metrics),
        !states[0].registry.series.contains_key(key),
        taken_samples(states, metrics, key).len() > 0,
        taken_samples(states, metrics, key)[0].kind == MetricKind::Counter,
    ensures
        states.last().registry.series.contains_key(key),
        states.last().registry.series[key].value matches SeriesValue::Counter { sum_f64, .. }
            && is_counter_sum(taken_samples(states, metrics, key), sum_f64),
    decreases metrics.len(),
{
    lemma_taken_step(states, metrics, key);
    let taken = taken_samples(states, metrics, key);
    let fewer = taken_samples(states.drop_last(), metrics.drop_last(), key);
    let total = states.last().registry.series[key].value->sum_f64;
    if taken == fewer {
        law_counter_sums_floats(states.drop_last(), metrics.drop_last(), key);
    } else {
        assert(taken.drop_last() =~= fewer);
        if fewer.len() == 0 {
            assert(float_samples(fewer) =~= Seq::<N>::empty());
            lemma_running_sum_start(total);
            if taken[0].value is F64 {
                assert(float_samples(taken) =~= seq![total]);
            } else {
                assert(seq![total] + float_samples(taken) =~= seq![total]);
            }
        } else {
            law_counter_sums_floats(states.drop_last(), metrics.drop_last(), key);
            let before = states.drop_last().last().registry.series[key].value->sum_f64;
            if let MetricValue::F64 { value } = metrics.last().value {
                if taken[0].value is F64 {
                    lemma_running_sum_step(float_samples(fewer), before, value, total);
                } else {
                    let zero = choose|zero: N| #[trigger]
                        call_ensures(N::default, (), zero) && is_running_sum(
                            seq![zero] + float_samples(fewer),
                            before,
                        );
                    lemma_running_sum_step(
                        seq![zero] + float_samples(fewer),
                        before,
                        value,
                        total,
                    );
                    assert((seq![zero] + float_samples(fewer)).push(value) =~= seq![zero]
                        + float_samples(taken));
                }
            }
        }
    }
}

/// The gauge reading of a sample.
pub open spec fn gauge_reading<N>(value: MetricValue<N>) -> GaugeReading<N> {
    match value {
        MetricValue::F64 { value } => GaugeReading::F64 { value },
        MetricValue::I64 { value } => GaugeReading::I64 { value },
        MetricValue::Histogram { sum, .. } => GaugeReading::F64 { value: sum },
    }
}

/// After any samples, a gauge holds the last one that it has taken in, and it
/// takes in plain numbers only.
pub proof fn law_gauge_holds_last_sample<N: Copy + Default + Add<Output = N>>(
    states: Seq<SinkModel<N>>,
    metrics: Seq<MetricPoint<N>>,
    key: KeyModel,
)
    requires
        is_run(states, metrics),
        !states[0].registry.series.contains_key(key),
        taken_samples(states, metrics, key).len() > 0,
        taken_samples(states, metrics, key)[0].kind == MetricKind::Gauge,
    ensures
        states.last().registry.series.contains_key(key),
        !(taken_samples(states, metrics, key).last().value is Histogram),
        states.last().registry.series[key].value == (SeriesValue::Gauge {
            last: gauge_reading(taken_samples(states, metrics, key).last().value),
        }),
    decreases metrics.len(),
{
    lemma_taken_step(states, metrics, key);
    let taken = taken_samples(states, metrics, key);
    let fewer = taken_samples(states.drop_last(), metrics.drop_last(), key);
    if taken == fewer {
        law_gauge_holds_last_sample(states.drop_last(), metrics.drop_last(), key);
    }
}

/// The last value of a gauge wins: after an accepted sample, whether it is a
/// floating-point or an integer one, the gauge holds and shows that sample
/// alone.
pub proof fn law_last_gauge_value_wins<N: Copy + Default + Add<Output = N>, W: Fn(i64) -> N>(
    pre: SinkModel<N>,
    metric: MetricPoint<N>,
    post: SinkModel<N>,
    widen: &W,
)
    requires
        pre.registry.coherent(),
        pre.emitted(metric, post),
        metric.kind == MetricKind::Gauge,
        pre.registry.accepts(pre.key_of(metric), metric),
    ensures
        post.registry.series.contains_key(pre.key_of(metric)),
        metric.value is F64 || metric.value is I64,
        metric.value matches MetricValue::F64 { value } ==> {
            let held = post.registry.series[pre.key_of(metric)].value;
            &&& held == (SeriesValue::Gauge { last: GaugeReading::F64 { value } })
            &&& forall|x: N| #[trigger]
                crate::exposition::is_reading(held, widen, x) <==> x == value
        },
        metric.value matches MetricValue::I64 { value } ==> {
            let held = post.registry.series[pre.key_of(metric)].value;
            &&& held == (SeriesValue::Gauge { last: GaugeReading::<N>::I64 { value } })
            &&& forall|x: N| #[trigger]
                crate::exposition::is_reading(held, widen, x) <==> call_ensures(
                    widen,
                    (value,),
                    x,
                )
        },
{
}

/// How many observations the samples stand for.
pub open spec fn observation_total<N>(metrics: Seq<MetricPoint<N>>) -> nat
    decreases metrics.len(),
{
    if metrics.len() == 0 {
        0
    } else {
        observation_total(metrics.drop_last()) + match metrics.last().value {
            MetricValue::Histogram { count, .. } => count as nat,
            _ => 1nat,
        }
    }
}

/// The sums that the samples of a histogram contribute, in their order.
pub open spec fn observed_sums<N>(metrics: Seq<MetricPoint<N>>) -> Seq<N>
    decreases metrics.len(),
{
    if metrics.len() == 0 {
        Seq::empty()
    } else {
        match metrics.last().value {
            MetricValue::F64 { value } => observed_sums(metrics.drop_last()).push(value),
            MetricValue::Histogram { sum, .. } => observed_sums(metrics.drop_last()).push(sum),
            MetricValue::I64 { .. } => observed_sums(metrics.drop_last()),
        }
    }
}

/// A histogram adds up count and sum: its count is the number of observations
/// that it has taken in, up to the bound of `u64`, and its sum is the running
/// sum of the samples' sums.
pub proof fn law_histogram_adds_up<N: Copy + Default + Add<Output = N>>(
    states: Seq<SinkModel<N>>,
    metrics: Seq<MetricPoint<N>>,
    key: KeyModel,
)
    requires
        is_run(states, metrics),
        !states[0].registry.series.contains_key(key),
        taken_samples(states, metrics, key).len() > 0,
        taken_samples(states, metrics, key)[0].kind == MetricKind::Histogram,
    ensures
        states.last().registry.series.contains_key(key),
        states.last().registry.series[key].value matches SeriesValue::Histogram { count, sum } && {
            let observed = observation_total(taken_samples(states, metrics, key));
            &&& count == if observed > u64::MAX {
                u64::MAX as nat
            } else {
                observed
            }
            &&& is_running_sum(observed_sums(taken_samples(states, metrics, key)), sum)
        },
    decreases metrics.len(),
{
    lemma_taken_step(states, metrics, key);
    let taken = taken_samples(states, metrics, key);
    let fewer = taken_samples(states.drop_last(), metrics.drop_last(), key);
    let total = states.last().registry.series[key].value->sum;
    if taken == fewer {
        law_histogram_adds_up(states.drop_last(), metrics.drop_last(), key);
    } else {
        assert(taken.drop_last() =~= fewer);
        if fewer.len() == 0 {
            assert(observation_total(fewer) == 0);
            assert(observed_sums(fewer) =~= Seq::<N>::empty());
            lemma_running_sum_start(total);
            assert(observed_sums(taken) =~= seq![total]);
        } else {
            law_histogram_adds_up(states.drop_last(), metrics.drop_last(), key);
            let before = states.drop_last().last().registry.series[key].value->sum;
            lemma_running_sum_step(
                observed_sums(fewer),
                before,
                observed_sums(taken).last(),
                total,
            );
            assert(observed_sums(taken) =~= observed_sums(fewer).push(observed_sums(taken).last()));
        }
    }
}

/// Two samples differ at most in the individual observations and in the time.
pub open spec fn same_aggregates<N>(a: MetricPoint<N>, b: MetricPoint<N>) -> bool {
    &&& a.name@ == b.name@
    &&& crate::metric::unit_view(a.unit) == crate::metric::unit_view(b.unit)
    &&& a.kind == b.kind
    &&& a.labels@ == b.labels@
    &&& match (a.value, b.value) {
        (
            MetricValue::Histogram { count, sum, .. },
            MetricValue::Histogram { count: other_count, sum: other_sum, .. },
        ) => count == other_count && sum == other_sum,
        _ => a.value == b.value,
    }
}

/// Individual observations and timestamps are not retained: they make no
/// difference to the sink.
pub proof fn law_observations_are_not_retained<N: Copy + Default + Add<Output = N>>(
    pre: SinkModel<N>,
    a: MetricPoint<N>,
    b: MetricPoint<N>,
    post: SinkModel<N>,
)
    requires
        same_aggregates(a, b),
    ensures
        pre.emitted(a, post) <==> pre.emitted(b, post),
{
    assert(pre.key_of(a) == pre.key_of(b));
}

/// Samples of different series do not depend on the order in which they come.
pub proof fn law_series_are_independent<N: Copy + Default + Add<Output = N>>(
    pre: SinkModel<N>,
    a: MetricPoint<N>,
    mid: SinkModel<N>,
    b: MetricPoint<N>,
    post: SinkModel<N>,
)
    requires
        pre.emitted(a, mid),
        mid.emitted(b, post),
        pre.key_of(a) != pre.key_of(b),
    ensures
        exists|other: SinkModel<N>| #[trigger] pre.emitted(b, other) && other.emitted(a, post),
{
    let ka = pre.key_of(a);
    let kb = pre.key_of(b);
    assert(mid.key_of(b) == kb);
    let registry = if pre.registry.accepts(kb, b) {
        pre.registry.with_series(kb, post.registry.series[kb])
    } else {
        pre.registry.with_rejection()
    };
    let other = SinkModel {
        namespace: pre.namespace,
        global_labels: pre.global_labels,
        registry,
    };
    assert(other.key_of(a) == ka);
    assert(mid.registry.accepts(kb, b) == pre.registry.accepts(kb, b));
    assert(other.registry.accepts(ka, a) == pre.registry.accepts(ka, a));
    assert(pre.emitted(b, other));
    if pre.registry.accepts(ka, a) {
        assert(post.registry.series[ka] == mid.registry.series[ka]);
        if pre.registry.accepts(kb, b) {
            assert(post.registry.series =~= other.registry.series.insert(
                ka,
                post.registry.series[ka],
            ));
        }
    }
    assert(other.emitted(a, post));
}

/// Alike sinks stay alike: two samples that differ at most in the individual
/// observations and in the time leave alike sinks.
pub proof fn law_alike_sinks_stay_alike<N: Copy + Default + Add<Output = N>, B: Fn(N) -> u64>(
    pre_a: SinkModel<N>,
    pre_b: SinkModel<N>,
    a: MetricPoint<N>,
    b: MetricPoint<N>,
    after_a: SinkModel<N>,
    after_b: SinkModel<N>,
    bits: &B,
)
    requires
        crate::alike::adds_alike::<N, B>(bits),
        crate::alike::defaults_alike::<N, B>(bits),
        crate::alike::sinks_alike(pre_a, pre_b, bits),
        same_aggregates(a, b),
        pre_a.emitted(a, after_a),
        pre_b.emitted(b, after_b),
    ensures
        crate::alike::sinks_alike(after_a, after_b, bits),
{
    law_observations_are_not_retained(pre_b, a, b, after_b);
    let key = pre_a.key_of(a);
    assert(pre_b.key_of(a) == key);
    assert(pre_a.registry.accepts(key, a) == pre_b.registry.accepts(key, a));
    if pre_a.registry.accepts(key, a) {
        let x = after_a.registry.series[key].value;
        let y = after_b.registry.series[key].value;
        if pre_a.registry.series.contains_key(key) {
            crate::series::law_alike_values_merge_alike(
                pre_a.registry.series[key].value,
                pre_b.registry.series[key].value,
                a.value,
                x,
                y,
                bits,
            );
        }
        assert(crate::alike::values_alike(x, y, bits));
    }
}

/// Alike sinks that are given the same samples end alike.
pub proof fn law_alike_runs_end_alike<N: Copy + Default + Add<Output = N>, B: Fn(N) -> u64>(
    a: Seq<SinkModel<N>>,
    b: Seq<SinkModel<N>>,
    metrics: Seq<MetricPoint<N>>,
    bits: &B,
)
    requires
        crate::alike::adds_alike::<N, B>(bits),
        crate::alike::defaults_alike::<N, B>(bits),
        is_run(a, metrics),
        is_run(b, metrics),
        crate::alike::sinks_alike(a[0], b[0], bits),
    ensures
        crate::alike::sinks_alike(a.last(), b.last(), bits),
    decreases metrics.len(),
{
    if metrics.len() > 0 {
        lemma_run_step(a, metrics);
        lemma_run_step(b, metrics);
        law_alike_runs_end_alike(a.drop_last(), b.drop_last(), metrics.drop_last(), bits);
        law_alike_sinks_stay_alike(
            a.drop_last().last(),
            b.drop_last().last(),
            metrics.last(),
            metrics.last(),
            a.last(),
            b.last(),
            bits,
        );
    }
}

/// Samples of different series, dropped ones included, leave alike sinks in
/// either order.
pub proof fn law_series_commute<N: Copy + Default + Add<Output = N>, B: Fn(N) -> u64>(
    pre_a: SinkModel<N>,
    pre_b: SinkModel<N>,
    a: MetricPoint<N>,
    b: MetricPoint<N>,
    after_a: SinkModel<N>,
    after_ab: SinkModel<N>,
    after_b: SinkModel<N>,
    after_ba: SinkModel<N>,
    bits: &B,
)
    requires
        crate::alike::adds_alike::<N, B>(bits),
        crate::alike::defaults_alike::<N, B>(bits),
        crate::alike::sinks_alike(pre_a, pre_b, bits),
        pre_a.key_of(a) != pre_a.key_of(b),
        pre_a.emitted(a, after_a),
        after_a.emitted(b, after_ab),
        pre_b.emitted(b, after_b),
        after_b.emitted(a, after_ba),
    ensures
        crate::alike::sinks_alike(after_ab, after_ba, bits),
{
    law_series_are_independent(pre_a, a, after_a, b, after_ab);
    let other = choose|other: SinkModel<N>| #[trigger]
        pre_a.emitted(b, other) && other.emitted(a, after_ab);
    law_alike_sinks_stay_alike(pre_a, pre_b, b, b, other, after_b, bits);
    law_alike_sinks_stay_alike(other, after_b, a, a, after_ab, after_ba, bits);
}

/// Two samples belong to one series exactly if their names and their labels,
/// after projection, are the same.
pub proof fn law_series_identity<N>(
    sink: SinkModel<N>,
    a: MetricPoint<N>,
    b: MetricPoint<N>,
)
    requires
        sink.global_labels.dom().finite(),
        a.labels@.dom().finite(),
        b.labels@.dom().finite(),
    ensures
        sink.key_of(a) == sink.key_of(b) <==> {
            &&& sink.name_of(a) == sink.name_of(b)
            &&& sink.labels_of(a) == sink.labels_of(b)
        },
{
    let la = sink.labels_of(a);
    let lb = sink.labels_of(b);
    assert(la.dom() =~= sink.global_labels.dom().union(a.labels@.dom()));
    assert(lb.dom() =~= sink.global_labels.dom().union(b.labels@.dom()));
    crate::sorted_map::lemma_finite_listing::<String, Seq<char>>(la);
    crate::sorted_map::lemma_finite_listing::<String, Seq<char>>(lb);
    if sink.key_of(a) == sink.key_of(b) {
        crate::sorted_map::lemma_listed_maps_agree::<String, Seq<char>>(
            la,
            lb,
            sink.key_of(a).labels,
        );
    }
}

/// Every series carries every global label, with the sample's own value where
/// the sample has a label of that name.
pub proof fn law_sample_labels_win<N>(
    sink: SinkModel<N>,
    metric: MetricPoint<N>,
    name: Seq<char>,
)
    ensures
        sink.labels_of(metric).contains_key(name) <==> sink.global_labels.contains_key(name)
            || metric.labels@.contains_key(name),
        metric.labels@.contains_key(name) ==> sink.labels_of(metric)[name] == metric.labels@[name],
        sink.global_labels.contains_key(name) && !metric.labels@.contains_key(name)
            ==> sink.labels_of(metric)[name] == sink.global_labels[name],
{
}

} // verus!
