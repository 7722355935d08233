//! Pure metrics sink that accumulates metric samples into an in-memory registry
//! and renders Prometheus text-exposition format on demand.
//!
//! It is a self-contained accumulator: several sinks run in parallel, and each
//! renders its own numbers only.
//!
//! - [`sink::PrometheusSink::emit`] updates the registry. Counters accumulate,
//!   gauges replace, histograms add up count and sum.
//! - [`sink::PrometheusSink::render`] writes the exposition, version 0.0.4.
pub mod alike;
pub mod exposition;
pub mod labels;
pub mod laws;
pub mod line_laws;
pub mod metric;
pub mod number;
pub mod order;
pub mod plugin;
pub mod registry;
pub mod render_laws;
pub mod sample_laws;
pub mod series;
pub mod sink;
pub mod sorted_map;
pub mod text;
pub mod text_laws;

pub use plugin::{DESCRIPTOR_YAML, PLUGIN_ID};
pub use sink::{PrometheusSink, PrometheusSinkConfig};
