//! What a sample does to a sink: which samples are kept, under which key, and
//! what the series then holds.
use core::ops::Add;

use vstd::prelude::*;

use crate::metric::{MetricKind, MetricPoint, MetricValue};
use crate::plugin::{PluginClass, PluginManifest};
use crate::registry::{EmitOutcome, RegistryModel};
use crate::series::{GaugeReading, KeyModel, Series, SeriesModel, SeriesValue};
use crate::sink::{PrometheusSinkConfig, SinkModel};

verus! {

/// Which values a kind takes, whatever the numbers are: counters and gauges take
/// plain numbers, histograms take floating-point numbers and batches.
pub proof fn law_which_values_fit<N>(i: i64, x: N, count: u64, sum: N, observations: Vec<N>)
    ensures
        MetricKind::Counter.fits(MetricValue::<N>::I64 { value: i }),
        MetricKind::Counter.fits(MetricValue::F64 { value: x }),
        !MetricKind::Counter.fits(MetricValue::Histogram { count, sum, observations }),
        MetricKind::Gauge.fits(MetricValue::<N>::I64 { value: i }),
        MetricKind::Gauge.fits(MetricValue::F64 { value: x }),
        !MetricKind::Gauge.fits(MetricValue::Histogram { count, sum, observations }),
        !MetricKind::Histogram.fits(MetricValue::<N>::I64 { value: i }),
        MetricKind::Histogram.fits(MetricValue::F64 { value: x }),
        MetricKind::Histogram.fits(MetricValue::Histogram { count, sum, observations }),
{
}

/// The names of the kinds, and the kind of each accumulator.
pub proof fn law_kinds<N>(value: SeriesValue<N>)
    ensures
        MetricKind::Counter.name() == "counter"@,
        MetricKind::Gauge.name() == "gauge"@,
        MetricKind::Histogram.name() == "histogram"@,
        value.metric_kind() == MetricKind::Counter <==> value is Counter,
        value.metric_kind() == MetricKind::Gauge <==> value is Gauge,
        value.metric_kind() == MetricKind::Histogram <==> value is Histogram,
{
}

/// The model of a series has its kind, its unit's text and its accumulator.
pub proof fn law_series_model<N>(series: Series<N>)
    ensures
        series@.kind == series.kind,
        series@.value == series.value,
        series.unit is None <==> series@.unit is None,
        series.unit matches Some(u) ==> series@.unit == Some(u@),
{
}

/// Integers add up; a sum that is out of range is held at the bound that it
/// passes.
pub proof fn law_integers_saturate(a: i64, b: i64, n: u64, m: u64)
    ensures
        i64::MIN <= a + b <= i64::MAX ==> crate::series::saturating_sum(a, b) == a + b,
        a + b > i64::MAX ==> crate::series::saturating_sum(a, b) == i64::MAX,
        a + b < i64::MIN ==> crate::series::saturating_sum(a, b) == i64::MIN,
        n + m <= u64::MAX ==> crate::series::saturating_count(n, m) == n + m,
        n + m > u64::MAX ==> crate::series::saturating_count(n, m) == u64::MAX,
{
}

/// A counter adds an integer to its integer part and a floating-point number to
/// its floating-point part, and leaves the other part as it is.
pub proof fn law_counter_merge<N: Copy + Default + Add<Output = N>>(
    sum_f64: N,
    sum_i64: i64,
    sample: MetricValue<N>,
    after: SeriesValue<N>,
)
    requires
        (SeriesValue::Counter { sum_f64, sum_i64 }).merged(sample, after),
    ensures
        after is Counter,
        !(sample is Histogram),
        sample matches MetricValue::I64 { value } ==> {
            &&& after->sum_f64 == sum_f64
            &&& i64::MIN <= sum_i64 + value <= i64::MAX ==> after->sum_i64 == sum_i64 + value
            &&& sum_i64 + value > i64::MAX ==> after->sum_i64 == i64::MAX
            &&& sum_i64 + value < i64::MIN ==> after->sum_i64 == i64::MIN
        },
        sample matches MetricValue::F64 { value } ==> {
            &&& after->sum_i64 == sum_i64
            &&& call_ensures(N::add, (sum_f64, value), after->sum_f64)
        },
{
}

/// A gauge holds the sample in place of what it held.
pub proof fn law_gauge_merge<N: Copy + Default + Add<Output = N>>(
    last: GaugeReading<N>,
    sample: MetricValue<N>,
    after: SeriesValue<N>,
)
    requires
        (SeriesValue::Gauge { last }).merged(sample, after),
    ensures
        !(sample is Histogram),
        sample matches MetricValue::I64 { value } ==> after == (SeriesValue::Gauge {
            last: GaugeReading::<N>::I64 { value },
        }),
        sample matches MetricValue::F64 { value } ==> after == (SeriesValue::Gauge {
            last: GaugeReading::F64 { value },
        }),
{
}

/// A histogram adds the batch's count to its count and the batch's sum to its
/// sum; a plain number counts as one.
pub proof fn law_histogram_merge<N: Copy + Default + Add<Output = N>>(
    count: u64,
    sum: N,
    sample: MetricValue<N>,
    after: SeriesValue<N>,
)
    requires
        (SeriesValue::Histogram { count, sum }).merged(sample, after),
    ensures
        after is Histogram,
        !(sample is I64),
        sample matches MetricValue::Histogram { count: more, sum: more_sum, .. } ==> {
            &&& count + more <= u64::MAX ==> after->count == count + more
            &&& count + more > u64::MAX ==> after->count == u64::MAX
            &&& call_ensures(N::add, (sum, more_sum), after->sum)
        },
        sample matches MetricValue::F64 { value } ==> {
            &&& count < u64::MAX ==> after->count == count + 1
            &&& count == u64::MAX ==> after->count == u64::MAX
            &&& call_ensures(N::add, (sum, value), after->sum)
        },
{
}

/// The first sample of a series is what the series holds: a counter has it in
/// the part of its type, with zero in the other, a histogram has one observation
/// or the batch.
pub proof fn law_first_sample<N: Copy + Default + Add<Output = N>>(
    kind: MetricKind,
    sample: MetricValue<N>,
    first: SeriesValue<N>,
)
    requires
        SeriesValue::seeded(kind, sample, first),
    ensures
        kind == MetricKind::Counter ==> first is Counter && !(sample is Histogram),
        kind == MetricKind::Gauge ==> first is Gauge && !(sample is Histogram),
        kind == MetricKind::Histogram ==> first is Histogram && !(sample is I64),
        kind == MetricKind::Counter ==> (sample matches MetricValue::I64 { value }
            ==> first->sum_i64 == value && call_ensures(N::default, (), first->sum_f64)),
        kind == MetricKind::Counter ==> (sample matches MetricValue::F64 { value }
            ==> first->sum_i64 == 0 && first->sum_f64 == value),
        kind == MetricKind::Gauge ==> (sample matches MetricValue::I64 { value } ==> first->last
            == (GaugeReading::<N>::I64 { value })),
        kind == MetricKind::Gauge ==> (sample matches MetricValue::F64 { value } ==> first->last
            == (GaugeReading::F64 { value })),
        kind == MetricKind::Histogram ==> (sample matches MetricValue::Histogram { count, sum, .. }
            ==> first->count == count && first->sum == sum),
        kind == MetricKind::Histogram ==> (sample matches MetricValue::F64 { value }
            ==> first->count == 1 && first->sum == value),
{
}

/// Every accumulator is of its series' kind.
pub open spec fn holds_its_kinds<N>(registry: RegistryModel<N>) -> bool {
    forall|key: KeyModel| #[trigger]
        registry.series.contains_key(key) ==> {
            let series = registry.series[key];
            &&& series.kind == MetricKind::Counter <==> series.value is Counter
            &&& series.kind == MetricKind::Gauge <==> series.value is Gauge
            &&& series.kind == MetricKind::Histogram <==> series.value is Histogram
        }
}

/// In a coherent registry, every accumulator is of its series' kind.
pub proof fn law_coherent_registry_holds_its_kinds<N>(registry: RegistryModel<N>)
    ensures
        registry.coherent() <==> holds_its_kinds(registry),
{
    if holds_its_kinds(registry) {
        assert forall|key: KeyModel| #[trigger]
            registry.series.contains_key(key) implies registry.series[key].value.metric_kind()
            == registry.series[key].kind by {
            law_kinds(registry.series[key].value);
        }
    }
}

/// A sample whose value suits its kind, and whose kind is that of the series it
/// belongs to, is kept: its series is there afterwards, with the kind and the
/// unit that it had or else those of the sample, and nothing else changes. Any
/// other sample adds one to the count of dropped ones, and nothing else changes.
pub proof fn law_sample_is_kept_or_dropped<N: Copy + Default + Add<Output = N>>(
    pre: RegistryModel<N>,
    key: KeyModel,
    metric: MetricPoint<N>,
    post: RegistryModel<N>,
)
    requires
        holds_its_kinds(pre),
        pre.emitted(key, metric, post),
    ensures
        ({
            let before = pre.series;
            let after = post.series;
            let suits = if metric.kind == MetricKind::Histogram {
                !(metric.value is I64)
            } else {
                !(metric.value is Histogram)
            };
            if suits && (before.contains_key(key) ==> before[key].kind == metric.kind) {
                &&& post.rejected == pre.rejected
                &&& after.contains_key(key)
                &&& after[key].kind == metric.kind
                &&& before.contains_key(key) ==> after[key].unit == before[key].unit
                &&& !before.contains_key(key) && metric.unit is None ==> after[key].unit is None
                &&& !before.contains_key(key) ==> (metric.unit matches Some(u) ==> after[key].unit
                    == Some(u@))
                &&& after.remove(key) == before.remove(key)
            } else {
                &&& after == before
                &&& pre.rejected < u64::MAX ==> post.rejected == pre.rejected + 1
                &&& pre.rejected == u64::MAX ==> post.rejected == u64::MAX
            }
        }),
{
    if pre.series.contains_key(key) {
        law_kinds(pre.series[key].value);
    }
    assert(post.series.remove(key) =~= pre.series.remove(key));
}

/// A gauge sample that finds no series, or a gauge, is what the gauge holds
/// afterwards, whatever the number is, and is not counted as dropped.
pub proof fn law_gauge_holds_the_sample<N: Copy + Default + Add<Output = N>>(
    pre: RegistryModel<N>,
    key: KeyModel,
    metric: MetricPoint<N>,
    post: RegistryModel<N>,
)
    requires
        pre.emitted(key, metric, post),
        metric.kind == MetricKind::Gauge,
        !(metric.value is Histogram),
        pre.series.contains_key(key) ==> {
            let series = pre.series[key];
            series.kind == MetricKind::Gauge && series.value is Gauge
        },
    ensures
        post.rejected == pre.rejected,
        post.series.contains_key(key),
        metric.value matches MetricValue::I64 { value } ==> post.series[key].value
            == (SeriesValue::Gauge { last: GaugeReading::<N>::I64 { value } }),
        metric.value matches MetricValue::F64 { value } ==> post.series[key].value
            == (SeriesValue::Gauge { last: GaugeReading::F64 { value } }),
{
}

/// A counter sample that finds a counter is added to the part of its type.
pub proof fn law_counter_adds_the_sample<N: Copy + Default + Add<Output = N>>(
    pre: RegistryModel<N>,
    key: KeyModel,
    metric: MetricPoint<N>,
    post: RegistryModel<N>,
)
    requires
        pre.emitted(key, metric, post),
        metric.kind == MetricKind::Counter,
        !(metric.value is Histogram),
        pre.series.contains_key(key),
        pre.series[key].kind == MetricKind::Counter,
        pre.series[key].value is Counter,
    ensures
        ({
            let before = pre.series[key].value;
            let after = post.series[key].value;
            &&& post.rejected == pre.rejected
            &&& post.series.contains_key(key)
            &&& after is Counter
            &&& metric.value matches MetricValue::I64 { value } ==> {
                &&& after->sum_f64 == before->sum_f64
                &&& i64::MIN <= before->sum_i64 + value <= i64::MAX ==> after->sum_i64
                    == before->sum_i64 + value
                &&& before->sum_i64 + value > i64::MAX ==> after->sum_i64 == i64::MAX
                &&& before->sum_i64 + value < i64::MIN ==> after->sum_i64 == i64::MIN
            }
            &&& metric.value matches MetricValue::F64 { value } ==> {
                &&& after->sum_i64 == before->sum_i64
                &&& call_ensures(N::add, (before->sum_f64, value), after->sum_f64)
            }
        }),
{
}

/// A histogram sample that finds a histogram adds its count and its sum; a plain
/// number counts as one.
pub proof fn law_histogram_adds_the_sample<N: Copy + Default + Add<Output = N>>(
    pre: RegistryModel<N>,
    key: KeyModel,
    metric: MetricPoint<N>,
    post: RegistryModel<N>,
)
    requires
        pre.emitted(key, metric, post),
        metric.kind == MetricKind::Histogram,
        !(metric.value is I64),
        pre.series.contains_key(key),
        pre.series[key].kind == MetricKind::Histogram,
        pre.series[key].value is Histogram,
    ensures
        ({
            let before = pre.series[key].value;
            let after = post.series[key].value;
            let (more, sum) = match metric.value {
                MetricValue::Histogram { count, sum, .. } => (count as int, sum),
                MetricValue::F64 { value } => (1int, value),
                MetricValue::I64 { .. } => (0int, before->sum),
            };
            &&& post.rejected == pre.rejected
            &&& post.series.contains_key(key)
            &&& after is Histogram
            &&& before->count + more <= u64::MAX ==> after->count == before->count + more
            &&& before->count + more > u64::MAX ==> after->count == u64::MAX
            &&& call_ensures(N::add, (before->sum, sum), after->sum)
        }),
{
}

/// The first sample of a series starts it, with what the sample says.
pub proof fn law_first_sample_starts_the_series<N: Copy + Default + Add<Output = N>>(
    pre: RegistryModel<N>,
    key: KeyModel,
    metric: MetricPoint<N>,
    post: RegistryModel<N>,
)
    requires
        pre.emitted(key, metric, post),
        !pre.series.contains_key(key),
        metric.kind == MetricKind::Histogram ==> !(metric.value is I64),
        metric.kind != MetricKind::Histogram ==> !(metric.value is Histogram),
    ensures
        ({
            let after = post.series[key].value;
            &&& post.rejected == pre.rejected
            &&& post.series.contains_key(key)
            &&& match (metric.kind, metric.value) {
                (MetricKind::Counter, MetricValue::I64 { value }) => after is Counter
                    && after->sum_i64 == value && call_ensures(N::default, (), after->sum_f64),
                (MetricKind::Counter, MetricValue::F64 { value }) => after is Counter
                    && after->sum_i64 == 0 && after->sum_f64 == value,
                (MetricKind::Gauge, MetricValue::I64 { value }) => after == (SeriesValue::Gauge {
                    last: GaugeReading::<N>::I64 { value },
                }),
                (MetricKind::Gauge, MetricValue::F64 { value }) => after == (SeriesValue::Gauge {
                    last: GaugeReading::F64 { value },
                }),
                (MetricKind::Histogram, MetricValue::Histogram { count, sum, .. }) => after is Histogram
                    && after->count == count && after->sum == sum,
                (MetricKind::Histogram, MetricValue::F64 { value }) => after is Histogram
                    && after->count == 1 && after->sum == value,
                _ => false,
            }
        }),
{
}

/// The outcome says what became of the sample: it started its series, was folded
/// into it, or was dropped because of the series' kind or of its own value.
pub proof fn law_outcome<N>(
    pre: RegistryModel<N>,
    key: KeyModel,
    metric: MetricPoint<N>,
    outcome: EmitOutcome,
)
    requires
        holds_its_kinds(pre),
        crate::registry::is_outcome(pre, key, metric, outcome),
    ensures
        ({
            let known = pre.series.contains_key(key);
            let kind = pre.series[key].kind;
            let suits = if metric.kind == MetricKind::Histogram {
                !(metric.value is I64)
            } else {
                !(metric.value is Histogram)
            };
            &&& outcome is Started <==> !known && suits
            &&& outcome is Merged <==> known && kind == metric.kind && suits
            &&& outcome is KindMismatch <==> known && kind != metric.kind
            &&& outcome is ValueMismatch <==> !suits && (known ==> kind == metric.kind)
            &&& outcome matches EmitOutcome::KindMismatch { metric_name, existing } ==> {
                &&& metric_name@ == key.name
                &&& kind == MetricKind::Counter ==> existing@ == "counter"@
                &&& kind == MetricKind::Gauge ==> existing@ == "gauge"@
                &&& kind == MetricKind::Histogram ==> existing@ == "histogram"@
            }
        }),
{
    if pre.series.contains_key(key) {
        law_kinds(pre.series[key].value);
    }
}

/// A sink keeps its configuration, and does to its registry what the registry
/// does with the sample under the sample's key.
pub proof fn law_sink_hands_the_sample_on<N: Copy + Default + Add<Output = N>>(
    pre: SinkModel<N>,
    metric: MetricPoint<N>,
    post: SinkModel<N>,
)
    ensures
        pre.emitted(metric, post) <==> {
            &&& post.namespace == pre.namespace
            &&& post.global_labels == pre.global_labels
            &&& pre.registry.emitted(pre.key_of(metric), metric, post.registry)
        },
{
}

/// A metric without a namespace keeps its name. Under a namespace its name is
/// the namespace, one underscore and the metric's own name.
pub proof fn law_projected_name(namespace: Seq<char>, name: Seq<char>)
    ensures
        ({
            let projected = crate::sink::projected_name(namespace, name);
            &&& namespace.len() == 0 ==> projected == name
            &&& namespace.len() > 0 ==> {
                &&& projected.len() == namespace.len() + 1 + name.len()
                &&& projected.take(namespace.len() as int) == namespace
                &&& projected[namespace.len() as int] == '_'
                &&& projected.skip(namespace.len() as int + 1) == name
            }
        }),
{
    reveal_strlit("_");
    let projected = crate::sink::projected_name(namespace, name);
    if namespace.len() > 0 {
        assert(projected.take(namespace.len() as int) =~= namespace);
        assert(projected.skip(namespace.len() as int + 1) =~= name);
    }
}

/// A sample goes to the series of its name, prefixed with the namespace, and of
/// its labels together with the global ones, in the order of the labels' names.
/// Of a global label and one of the sample, the sample's own wins.
pub proof fn law_sample_key<N>(sink: SinkModel<N>, metric: MetricPoint<N>)
    requires
        sink.global_labels.dom().finite(),
        metric.labels@.dom().finite(),
    ensures
        ({
            let key = sink.key_of(metric);
            let prefix = sink.namespace;
            &&& key.name == sink.name_of(metric)
            &&& prefix.len() == 0 ==> key.name == metric.name@
            &&& prefix.len() > 0 ==> {
                &&& key.name.len() == prefix.len() + 1 + metric.name@.len()
                &&& key.name.take(prefix.len() as int) == prefix
                &&& key.name[prefix.len() as int] == '_'
                &&& key.name.skip(prefix.len() as int + 1) == metric.name@
            }
            &&& forall|l: Seq<char>|
                sink.global_labels.contains_key(l) || metric.labels@.contains_key(l) <==> exists|
                    i: int,
                |
                    0 <= i < key.labels.len() && #[trigger] key.labels[i].0 == l
            &&& forall|i: int|
                0 <= i < key.labels.len() ==> (#[trigger] key.labels[i]).1
                    == if metric.labels@.contains_key(key.labels[i].0) {
                    metric.labels@[key.labels[i].0]
                } else {
                    sink.global_labels[key.labels[i].0]
                }
            &&& forall|i: int, j: int|
                0 <= i < j < key.labels.len() ==> crate::order::text_before(
                    #[trigger] key.labels[i].0,
                    #[trigger] key.labels[j].0,
                )
        }),
{
    let key = sink.key_of(metric);
    let labels = sink.labels_of(metric);
    law_projected_name(sink.namespace, metric.name@);
    assert(labels.dom() =~= sink.global_labels.dom().union(metric.labels@.dom()));
    crate::text_laws::law_series_key(sink.name_of(metric), labels);
    assert forall|l: Seq<char>|
        sink.global_labels.contains_key(l) || metric.labels@.contains_key(l) <==> exists|i: int|
            0 <= i < key.labels.len() && #[trigger] key.labels[i].0 == l by {
        assert(labels.contains_key(l) <==> sink.global_labels.contains_key(l)
            || metric.labels@.contains_key(l));
        if exists|i: int| 0 <= i < key.labels.len() && #[trigger] key.labels[i].0 == l {
            let i = choose|i: int| 0 <= i < key.labels.len() && #[trigger] key.labels[i].0 == l;
            assert(labels.contains_key(key.labels[i].0));
        }
    }
    assert forall|i: int| 0 <= i < key.labels.len() implies (#[trigger] key.labels[i]).1
        == if metric.labels@.contains_key(key.labels[i].0) {
        metric.labels@[key.labels[i].0]
    } else {
        sink.global_labels[key.labels[i].0]
    } by {
        assert(labels.contains_key(key.labels[i].0));
    }
}

/// A new sink has the namespace and the labels of its configuration, no series
/// and no dropped sample. The default configuration has neither namespace nor
/// labels, and an absent block is an empty text, `{}` or `null`.
pub proof fn law_new_sink<N>(config: PrometheusSinkConfig, block: Seq<char>)
    ensures
        SinkModel::<N>::configured(config).namespace == config.namespace@,
        SinkModel::<N>::configured(config).global_labels == config.global_labels@,
        SinkModel::<N>::configured(config).registry.series == Map::<
            KeyModel,
            SeriesModel<N>,
        >::empty(),
        SinkModel::<N>::configured(config).registry.rejected == 0,
        SinkModel::<N>::unconfigured().namespace.len() == 0,
        SinkModel::<N>::unconfigured().global_labels == Map::<Seq<char>, Seq<char>>::empty(),
        SinkModel::<N>::unconfigured().registry.series == Map::<
            KeyModel,
            SeriesModel<N>,
        >::empty(),
        SinkModel::<N>::unconfigured().registry.rejected == 0,
        config.is_default() <==> config.namespace@.len() == 0 && config.global_labels@ == Map::<
            Seq<char>,
            Seq<char>,
        >::empty(),
        crate::sink::is_absent_block(block) <==> block.len() == 0 || block == seq!['{', '}']
            || block == seq!['n', 'u', 'l', 'l'],
{
    reveal_strlit("");
    reveal_strlit("{}");
    reveal_strlit("null");
    assert("{}"@ =~= seq!['{', '}']);
    assert("null"@ =~= seq!['n', 'u', 'l', 'l']);
    assert(block.len() == 0 ==> block =~= ""@);
    assert(config.namespace@.len() == 0 ==> config.namespace@ =~= Seq::<char>::empty());
}

/// The manifest names the plugin, says that it is a metrics sink, and asks for
/// no capability.
pub proof fn law_manifest(manifest: PluginManifest)
    requires
        manifest.describes_sink(),
    ensures
        manifest.id@ == "dev.mcpg.observability.prometheus"@,
        manifest.id@ == crate::plugin::PLUGIN_ID@,
        manifest.version@ == crate::plugin::PLUGIN_VERSION@,
        manifest.name@ == "Prometheus Metrics Exporter"@,
        manifest.plugin_class == PluginClass::MetricsSink,
        manifest.protocol_version@ == "1.0"@,
        manifest.license is None,
        manifest.required_capabilities@.len() == 0,
        manifest.tags@.len() == 0,
        manifest.provides@.len() == 0,
        manifest.provides_schemes@.len() == 0,
        manifest.module_path_prefix@ == "mcpg_plugin_observability_prometheus"@,
        manifest.backend_profile is None,
{
}

/// Where any two numbers can be added, every sample can be taken in, and where
/// every integer can be widened too, every registry can be rendered.
pub proof fn law_everything_can_be_taken_in<
    N: Copy + Default + Add<Output = N>,
    W: Fn(i64) -> N,
>(
    registry: RegistryModel<N>,
    key: KeyModel,
    metric: MetricPoint<N>,
    value: SeriesValue<N>,
    widen: &W,
)
    requires
        forall|a: N, b: N| #[trigger] call_requires(N::add, (a, b)),
    ensures
        value.addable(metric.value),
        registry.addable(key, metric),
        (forall|i: i64| #[trigger] call_requires(widen, (i,)))
            ==> crate::exposition::is_readable(value, widen)
            && crate::exposition::is_readable_registry(registry, widen),
{
}

} // verus!
