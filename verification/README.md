# Prometheus Metrics Exporter

`dev.mcpg.observability.prometheus`: a metrics sink that accumulates metric
samples in memory and renders them in the Prometheus text-exposition format,
version 0.0.4. The library is written in Verus; its contracts are proved.

## What it does

- Accumulates counters (sum), gauges (last value wins) and histograms (count and
  sum) per series, that is per name and label set.
- Prefixes metric names with an optional namespace and merges global labels into
  every series; a sample's own label of the same name wins.
- Renders `# HELP`, `# TYPE` and, where there is a unit, `# UNIT` ahead of each
  series, and escapes backslashes, double quotes and newlines in label values.
- Drops a sample whose kind disagrees with its series, or whose value does not
  fit its kind, and counts it on `mcpg_prometheus_sink_kind_mismatch_total`,
  which is always rendered.

## Layout

| Module | Content |
|---|---|
| `sink` | configuration and `PrometheusSink` |
| `registry` | the series by key, and what one sample does to them |
| `series` | series keys and accumulators |
| `exposition` | the text format |
| `text`, `number` | label sets; counts and floating-point values |
| `labels`, `sorted_map`, `order` | maps in key order, and the order itself |
| `metric`, `plugin` | samples; how the plugin describes itself |
| `laws`, `render_laws` | what holds over any number of samples, and of the texts |
| `alike` | states that differ at most in which NaN they hold |

`app/` holds what surrounds the library: JSON configuration blocks, locking,
logging and the gateway's plugin traits.

The sink is generic in its floating-point type `N`, which `app/` sets to `f64`.
Sums go through the type's own `+`, and texts of numbers other than whole ones,
infinities and NaN through its own `Display`. The library reads a value's class
from its IEEE 754 bits, which the caller of `render` supplies. Which of the NaNs
a sum is makes no difference to the text: laws that compare states or texts ask
of `+` only what holds up to that.
