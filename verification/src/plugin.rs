//! How the plugin describes itself to the gateway.
use vstd::prelude::*;

verus! {

/// Plugin id: operators reference this in
/// `observability.metrics.sinks[].kind`.
pub const PLUGIN_ID: &'static str = "dev.mcpg.observability.prometheus";

/// The version of this package.
pub const PLUGIN_VERSION: &'static str = "0.1.0";

/// The name shown to operators.
pub const PLUGIN_NAME: &'static str = "Prometheus Metrics Exporter";

/// The version of the plugin protocol that the plugin speaks.
pub const PROTOCOL_VERSION: &'static str = "1.0";

/// The prefix of the module paths of this package.
pub const MODULE_PATH_PREFIX: &'static str = "mcpg_plugin_observability_prometheus";

/// The descriptor that ships with the plugin.
pub const DESCRIPTOR_YAML: &'static str =
    "id: dev.mcpg.observability.prometheus\nname: Prometheus Metrics Exporter\nclass: metrics_sink\nprotocol_version: \"1.0\"\n";

/// What a plugin does for the gateway.
#[derive(Debug, Clone, Copy, PartialEq, Eq, Structural)]
pub enum PluginClass {
    MetricsSink,
}

/// What the gateway is told of a plugin.
#[derive(Debug, Clone)]
pub struct PluginManifest {
    pub id: String,
    pub version: String,
    pub name: String,
    pub plugin_class: PluginClass,
    pub protocol_version: String,
    pub license: Option<String>,
    pub required_capabilities: Vec<String>,
    pub tags: Vec<String>,
    pub provides: Vec<String>,
    pub provides_schemes: Vec<String>,
    pub module_path_prefix: String,
    pub backend_profile: Option<String>,
}

impl PluginManifest {
    /// This is the manifest of this plugin: a metrics sink that needs no
    /// capability and provides nothing else.
    pub open spec fn describes_sink(self) -> bool {
        &&& self.id@ == PLUGIN_ID@
        &&& self.version@ == PLUGIN_VERSION@
        &&& self.name@ == PLUGIN_NAME@
        &&& self.plugin_class == PluginClass::MetricsSink
        &&& self.protocol_version@ == PROTOCOL_VERSION@
        &&& self.license is None
        &&& self.required_capabilities@.len() == 0
        &&& self.tags@.len() == 0
        &&& self.provides@.len() == 0
        &&& self.provides_schemes@.len() == 0
        &&& self.module_path_prefix@ == MODULE_PATH_PREFIX@
        &&& self.backend_profile is None
    }

    /// The manifest of this plugin.
    pub fn of_sink() -> (manifest: Self)
        ensures
            manifest.describes_sink(),
    {
        PluginManifest {
            id: PLUGIN_ID.to_owned(),
            version: PLUGIN_VERSION.to_owned(),
            name: PLUGIN_NAME.to_owned(),
            plugin_class: PluginClass::MetricsSink,
            protocol_version: PROTOCOL_VERSION.to_owned(),
            license: None,
            required_capabilities: Vec::new(),
            tags: Vec::new(),
            provides: Vec::new(),
            provides_schemes: Vec::new(),
            module_path_prefix: MODULE_PATH_PREFIX.to_owned(),
            backend_profile: None,
        }
    }
}

/// Why a metrics sink could not deliver.
#[derive(Debug, Clone)]
pub struct MetricsError {
    pub reason: String,
}

/// The milliseconds of a timeout, held at the bound of `u64`.
pub fn timeout_millis(millis: u128) -> (ms: u64)
    ensures
        ms == if millis > u64::MAX {
            u64::MAX as int
        } else {
            millis as int
        },
{
    if millis > u64::MAX as u128 {
        u64::MAX
    } else {
        millis as u64
    }
}

} // verus!
