//! The metrics sink: an in-memory accumulator of metric samples that renders
//! itself in the Prometheus text-exposition format.
use core::fmt::Display;
use core::ops::Add;

use vstd::prelude::*;
use vstd::string::StringExecFns;

use crate::labels::LabelMap;
use crate::metric::MetricPoint;
use crate::order::{compare_text, Comparison};
use crate::plugin::{MetricsError, PluginManifest};
use crate::registry::{EmitOutcome, Registry, RegistryModel};
use crate::series::{KeyModel, SeriesKey, SeriesModel};
use crate::sorted_map::SortedMap;

verus! {

/// Operator configuration. Both fields have defaults, so that a sink works
/// without further configuration.
#[derive(Debug, Clone)]
pub struct PrometheusSinkConfig {
    /// Prefix of every metric name, rendered as `<namespace>_<name>`. The empty
    /// string disables prefixing.
    pub namespace: String,
    /// Labels added to every series.
    pub global_labels: LabelMap,
}

impl PrometheusSinkConfig {
    /// No prefix and no labels.
    pub open spec fn is_default(self) -> bool {
        self.namespace@ == Seq::<char>::empty() && self.global_labels@ == Map::<
            Seq<char>,
            Seq<char>,
        >::empty()
    }
}

impl Default for PrometheusSinkConfig {
    fn default() -> (config: Self)
        ensures
            config.is_default(),
    {
        PrometheusSinkConfig { namespace: String::new(), global_labels: SortedMap::new() }
    }
}

/// A metrics sink whose floating-point samples are of type `N`.
#[derive(Debug)]
pub struct PrometheusSink<N> {
    manifest: PluginManifest,
    config: PrometheusSinkConfig,
    registry: Registry<N>,
}

/// What a `PrometheusSink` holds.
pub struct SinkModel<N> {
    pub namespace: Seq<char>,
    pub global_labels: Map<Seq<char>, Seq<char>>,
    pub registry: RegistryModel<N>,
}

/// A metric name under a namespace.
pub open spec fn projected_name(namespace: Seq<char>, name: Seq<char>) -> Seq<char> {
    if namespace.len() == 0 {
        name
    } else {
        namespace + "_"@ + name
    }
}

impl<N> SinkModel<N> {
    /// A sink with the given configuration that has seen no sample.
    pub open spec fn configured(config: PrometheusSinkConfig) -> Self {
        SinkModel {
            namespace: config.namespace@,
            global_labels: config.global_labels@,
            registry: RegistryModel::fresh(),
        }
    }

    /// A sink with the default configuration that has seen no sample.
    pub open spec fn unconfigured() -> Self {
        SinkModel {
            namespace: Seq::empty(),
            global_labels: Map::empty(),
            registry: RegistryModel::fresh(),
        }
    }

    /// The name under which a metric is kept.
    pub open spec fn name_of(self, metric: MetricPoint<N>) -> Seq<char> {
        projected_name(self.namespace, metric.name@)
    }

    /// The labels of a sample: its own and the global ones, of which its own
    /// win.
    pub open spec fn labels_of(self, metric: MetricPoint<N>) -> Map<Seq<char>, Seq<char>> {
        self.global_labels.union_prefer_right(metric.labels@)
    }

    /// The series that a sample belongs to.
    pub open spec fn key_of(self, metric: MetricPoint<N>) -> KeyModel {
        crate::series::series_key(self.name_of(metric), self.labels_of(metric))
    }
}

impl<N: Copy + Default + Add<Output = N>> SinkModel<N> {
    /// `post` is what the sample makes of this sink.
    pub open spec fn emitted(self, metric: MetricPoint<N>, post: Self) -> bool {
        &&& post.namespace == self.namespace
        &&& post.global_labels == self.global_labels
        &&& self.registry.emitted(self.key_of(metric), metric, post.registry)
    }
}

impl<N> View for PrometheusSink<N> {
    type V = SinkModel<N>;

    closed spec fn view(&self) -> SinkModel<N> {
        SinkModel {
            namespace: self.config.namespace@,
            global_labels: self.config.global_labels@,
            registry: self.registry@,
        }
    }
}

/// An empty or absent configuration block.
pub open spec fn is_absent_block(config_json: Seq<char>) -> bool {
    config_json == ""@ || config_json == "{}"@ || config_json == "null"@
}

impl<N> PrometheusSink<N> {
    /// The manifest that the sink was built with.
    pub closed spec fn manifest_held(&self) -> PluginManifest {
        self.manifest
    }

    /// Builds the plugin from the operator's configuration block and from what
    /// parsing it gave. An empty or absent block yields the defaults; any other
    /// block that does not parse refuses the plugin, with the parser's reason.
    pub fn from_config_json(
        config_json: &str,
        parsed: Result<PrometheusSinkConfig, String>,
    ) -> (result: Result<Self, String>)
        ensures
            result is Ok <==> is_absent_block(config_json@) || parsed is Ok,
            result matches Ok(sink) ==> sink.manifest_held().describes_sink(),
            result matches Ok(sink) ==> sink@ == if is_absent_block(config_json@) {
                SinkModel::<N>::unconfigured()
            } else {
                SinkModel::<N>::configured(parsed->Ok_0)
            },
            result matches Err(reason) ==> reason@ == parsed->Err_0@,
    {
        let empty = compare_text(config_json, "");
        let braces = compare_text(config_json, "{}");
        let null = compare_text(config_json, "null");
        match (empty, braces, null) {
            (Comparison::Same, _, _) | (_, Comparison::Same, _) | (_, _, Comparison::Same) => {
                Ok(Self::with_config(PrometheusSinkConfig::default()))
            },
            _ => match parsed {
                Ok(config) => Ok(Self::with_config(config)),
                Err(reason) => Err(reason),
            },
        }
    }

    /// Builds the plugin with the given configuration.
    pub fn with_config(config: PrometheusSinkConfig) -> (sink: Self)
        ensures
            sink@ == SinkModel::<N>::configured(config),
            sink.manifest_held().describes_sink(),
    {
        PrometheusSink { manifest: PluginManifest::of_sink(), config, registry: Registry::new() }
    }

    /// Applies the configuration: prefixes the metric name with the namespace
    /// and merges the global labels into the sample's labels.
    pub fn project(&self, metric: &MetricPoint<N>) -> (projected: (String, LabelMap))
        ensures
            projected.0@ == self@.name_of(*metric),
            projected.1@ == self@.labels_of(*metric),
    {
        let name = if self.config.namespace.as_str().is_empty() {
            metric.name.clone()
        } else {
            self.config.namespace.clone().concat("_").concat(metric.name.as_str())
        };
        let mut labels = self.config.global_labels.clone();
        labels.overlay(&metric.labels);
        (name, labels)
    }

    pub fn manifest(&self) -> (manifest: &PluginManifest)
        ensures
            *manifest == self.manifest_held(),
    {
        &self.manifest
    }

    pub fn config(&self) -> (config: &PrometheusSinkConfig)
        ensures
            config.namespace@ == self@.namespace,
            config.global_labels@ == self@.global_labels,
    {
        &self.config
    }

    /// The number of samples that were dropped.
    pub fn rejected_kind_mismatch(&self) -> (count: u64)
        ensures
            count == self@.registry.rejected,
    {
        self.registry.rejected()
    }

    /// Samples are taken in at once, so there is nothing to flush.
    pub fn flush(&self, _timeout_ms: u64) -> (result: Result<(), MetricsError>)
        ensures
            result is Ok,
    {
        Ok(())
    }
}

impl<N: Copy + Default + Add<Output = N>> PrometheusSink<N> {
    /// Takes in one sample.
    pub fn emit(&mut self, metric: &MetricPoint<N>) -> (outcome: EmitOutcome)
        requires
            old(self)@.registry.addable(old(self)@.key_of(*metric), *metric),
        ensures
            old(self)@.emitted(*metric, final(self)@),
            crate::registry::is_outcome(
                old(self)@.registry,
                old(self)@.key_of(*metric),
                *metric,
                outcome,
            ),
            old(self)@.registry.coherent(),
            final(self)@.registry.coherent(),
            final(self).manifest_held() == old(self).manifest_held(),
    {
        let (name, labels) = self.project(metric);
        let key = SeriesKey::new(name, labels);
        self.registry.record(key, metric)
    }
}

impl<N: Copy + Add<Output = N> + Display> PrometheusSink<N> {
    /// Writes the text exposition of the registry. `widen` gives the
    /// floating-point value of an integer, `bits` the IEEE 754 bits of a
    /// floating-point value.
    pub fn render<W: Fn(i64) -> N, B: Fn(N) -> u64>(&self, widen: W, bits: B) -> (text: String)
        requires
            crate::exposition::is_readable_registry(self@.registry, &widen),
            forall|x: N| #[trigger] call_requires(bits, (x,)),
        ensures
            crate::exposition::is_exposition(self@.registry, &widen, &bits, text@),
            crate::exposition::reads_as_one(&widen, &bits) ==> forall|other: Seq<char>| #[trigger]
                crate::exposition::is_exposition(self@.registry, &widen, &bits, other) ==> other
                    == text@,
            self@.registry.series.dom().finite(),
            crate::sorted_map::is_listing::<SeriesKey, SeriesModel<N>>(
                self@.registry.series,
                self@.registry.listing(),
            ),
            self@.registry.coherent(),
    {
        assert(self@.registry == self.registry@);
        self.registry.render(&widen, &bits)
    }

    /// The text exposition, which a Prometheus sink always has.
    pub fn render_text_exposition<W: Fn(i64) -> N, B: Fn(N) -> u64>(
        &self,
        widen: W,
        bits: B,
    ) -> (text: Option<String>)
        requires
            crate::exposition::is_readable_registry(self@.registry, &widen),
            forall|x: N| #[trigger] call_requires(bits, (x,)),
        ensures
            text is Some,
            crate::exposition::is_exposition(self@.registry, &widen, &bits, text->0@),
            crate::exposition::reads_as_one(&widen, &bits) ==> forall|other: Seq<char>| #[trigger]
                crate::exposition::is_exposition(self@.registry, &widen, &bits, other) ==> other
                    == text->0@,
            self@.registry.series.dom().finite(),
            crate::sorted_map::is_listing::<SeriesKey, SeriesModel<N>>(
                self@.registry.series,
                self@.registry.listing(),
            ),
            self@.registry.coherent(),
    {
        Some(self.render(widen, bits))
    }
}

} // verus!
