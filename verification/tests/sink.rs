use mcpg_plugin_observability_prometheus::labels::LabelMap;
use mcpg_plugin_observability_prometheus::metric::{MetricKind, MetricPoint, MetricValue};
use mcpg_plugin_observability_prometheus::plugin::{
    timeout_millis, PluginClass, MODULE_PATH_PREFIX, PLUGIN_NAME, PLUGIN_VERSION,
};
use mcpg_plugin_observability_prometheus::registry::EmitOutcome;
use mcpg_plugin_observability_prometheus::{
    PrometheusSink, PrometheusSinkConfig, DESCRIPTOR_YAML, PLUGIN_ID,
};

const META_HELP: &str = "# HELP mcpg_prometheus_sink_kind_mismatch_total Samples dropped because the metric kind did not match the established series kind.\n# TYPE mcpg_prometheus_sink_kind_mismatch_total counter\n";

type Sink = PrometheusSink<f64>;

fn labels(pairs: &[(&str, &str)]) -> LabelMap {
    let owned: Vec<(String, String)> = pairs
        .iter()
        .map(|(k, v)| (String::from(*k), String::from(*v)))
        .collect();
    LabelMap::from_pairs(&owned)
}

fn point_counter(name: &str, pairs: &[(&str, &str)], value: i64) -> MetricPoint<f64> {
    MetricPoint {
        name: name.into(),
        unit: None,
        kind: MetricKind::Counter,
        value: MetricValue::I64 { value },
        labels: labels(pairs),
        timestamp_ns: 0,
    }
}

fn point_gauge_f64(name: &str, value: f64) -> MetricPoint<f64> {
    MetricPoint {
        name: name.into(),
        unit: None,
        kind: MetricKind::Gauge,
        value: MetricValue::F64 { value },
        labels: LabelMap::new(),
        timestamp_ns: 0,
    }
}

fn point(name: &str, kind: MetricKind, value: MetricValue<f64>) -> MetricPoint<f64> {
    MetricPoint {
        name: name.into(),
        unit: None,
        kind,
        value,
        labels: LabelMap::new(),
        timestamp_ns: 0,
    }
}

fn render(sink: &Sink) -> String {
    sink.render(|v| v as f64, |x: f64| x.to_bits())
}

fn default_sink() -> Sink {
    PrometheusSink::with_config(Default::default())
}

#[test]
fn manifest_carries_metrics_sink_class() {
    let sink = default_sink();
    assert_eq!(sink.manifest().id, PLUGIN_ID);
    assert_eq!(sink.manifest().plugin_class, PluginClass::MetricsSink);
    assert_eq!(sink.manifest().protocol_version, "1.0");
}

#[test]
fn manifest_declares_no_capabilities() {
    let sink = default_sink();
    let manifest = sink.manifest();
    assert_eq!(manifest.name, PLUGIN_NAME);
    assert_eq!(manifest.version, PLUGIN_VERSION);
    assert_eq!(manifest.module_path_prefix, MODULE_PATH_PREFIX);
    assert_eq!(MODULE_PATH_PREFIX, "mcpg_plugin_observability_prometheus");
    assert!(manifest.license.is_none());
    assert!(manifest.required_capabilities.is_empty());
    assert!(manifest.tags.is_empty());
    assert!(manifest.provides.is_empty());
    assert!(manifest.provides_schemes.is_empty());
    assert!(manifest.backend_profile.is_none());
}

#[test]
fn default_config_has_no_namespace_and_no_labels() {
    let config = PrometheusSinkConfig::default();
    assert!(config.namespace.is_empty());
    assert!(config.global_labels.is_empty());
}

#[test]
fn from_config_json_empty_block_yields_defaults() {
    // An empty / absent / unit config block is an opt-out, not a
    // typo: it still yields a working sink with default config.
    for empty in ["", "{}", "null"] {
        let sink = Sink::from_config_json(empty, Err(String::from("not parsed"))).unwrap();
        assert!(
            sink.config().namespace.is_empty(),
            "empty config {empty:?} should yield default namespace"
        );
        assert!(
            sink.config().global_labels.is_empty(),
            "empty config {empty:?} should yield default labels"
        );
    }
}

#[test]
fn malformed_config_block_refuses_the_plugin() {
    let reason = match serde_json::from_str::<serde_json::Value>("not json") {
        Ok(_) => panic!("this does not parse"),
        Err(error) => format!("{error}"),
    };
    let refused = Sink::from_config_json("not json", Err(reason.clone()));
    assert_eq!(refused.err(), Some(reason));
}

#[test]
fn parsed_config_block_is_used() {
    let config = PrometheusSinkConfig {
        namespace: "mcpg".into(),
        global_labels: labels(&[("env", "prod")]),
    };
    let sink = Sink::from_config_json("{\"namespace\":\"mcpg\"}", Ok(config)).unwrap();
    assert_eq!(sink.config().namespace, "mcpg");
    assert_eq!(sink.config().global_labels.len(), 1);
}

#[test]
fn counter_accumulates_across_samples() {
    let mut sink = default_sink();
    sink.emit(&point_counter("requests_total", &[], 1));
    sink.emit(&point_counter("requests_total", &[], 4));
    let out = render(&sink);
    assert!(
        out.contains("requests_total 5"),
        "counter should accumulate; got:\n{out}"
    );
}

#[test]
fn gauge_replaces_with_latest_sample() {
    let mut sink = default_sink();
    sink.emit(&point_gauge_f64("active_sessions", 3.0));
    sink.emit(&point_gauge_f64("active_sessions", 7.5));
    let out = render(&sink);
    assert!(
        out.contains("active_sessions 7.5"),
        "gauge should reflect last sample; got:\n{out}"
    );
    assert!(
        !out.contains("active_sessions 3"),
        "gauge should not retain prior sample; got:\n{out}"
    );
}

#[test]
fn labels_render_in_braces_and_escape_special_chars() {
    let mut sink = default_sink();
    sink.emit(&point_counter(
        "tool_calls_total",
        &[("tool", r#"weird "name""#), ("env", "prod")],
        1,
    ));
    let out = render(&sink);
    assert!(
        out.contains(r#"tool_calls_total{env="prod",tool="weird \"name\""} 1"#),
        "labels should be quoted + escaped; got:\n{out}"
    );
}

#[test]
fn namespace_prefixes_metric_names() {
    let mut sink = Sink::with_config(PrometheusSinkConfig {
        namespace: "mcpg".into(),
        global_labels: LabelMap::new(),
    });
    sink.emit(&point_counter("requests_total", &[], 1));
    let out = render(&sink);
    assert!(
        out.contains("mcpg_requests_total 1"),
        "namespace should be prepended; got:\n{out}"
    );
}

#[test]
fn global_labels_added_to_every_series() {
    let mut sink = Sink::with_config(PrometheusSinkConfig {
        namespace: String::new(),
        global_labels: labels(&[("env", "prod")]),
    });
    sink.emit(&point_counter("up", &[], 1));
    let out = render(&sink);
    assert!(
        out.contains(r#"up{env="prod"} 1"#),
        "global label should be applied; got:\n{out}"
    );
}

#[test]
fn per_sample_labels_override_global_labels() {
    let mut sink = Sink::with_config(PrometheusSinkConfig {
        namespace: String::new(),
        global_labels: labels(&[("env", "global")]),
    });
    sink.emit(&point_counter("up", &[("env", "override")], 1));
    let out = render(&sink);
    assert!(
        out.contains(r#"up{env="override"} 1"#),
        "per-sample label should win; got:\n{out}"
    );
}

#[test]
fn kind_mismatch_drops_sample_and_increments_meta() {
    let mut sink = default_sink();
    sink.emit(&point_counter("flips", &[], 1));
    // Now emit a Gauge to the same series; it should be rejected.
    sink.emit(&point_gauge_f64("flips", 99.0));
    let out = render(&sink);
    assert!(
        out.contains("flips 1"),
        "original counter sample should still be in the output; got:\n{out}"
    );
    assert!(
        !out.contains("99"),
        "gauge sample on counter series should be dropped; got:\n{out}"
    );
    assert!(
        out.contains("mcpg_prometheus_sink_kind_mismatch_total 1"),
        "meta-metric should record the rejection; got:\n{out}"
    );
}

#[test]
fn render_emits_help_and_type_lines() {
    let mut sink = default_sink();
    sink.emit(&point_counter("ops", &[], 1));
    let out = render(&sink);
    assert!(out.contains("# HELP ops counter metric."));
    assert!(out.contains("# TYPE ops counter"));
}

#[test]
fn histogram_accumulates_count_and_sum() {
    let mut sink = default_sink();
    let m = MetricPoint {
        name: "request_ms".into(),
        unit: Some("ms".into()),
        kind: MetricKind::Histogram,
        value: MetricValue::Histogram {
            count: 2,
            sum: 30.0,
            observations: vec![10.0, 20.0],
        },
        labels: LabelMap::new(),
        timestamp_ns: 0,
    };
    sink.emit(&m);
    sink.emit(&m);
    let out = render(&sink);
    assert!(
        out.contains("request_ms_count 4"),
        "histogram counts merge; got:\n{out}"
    );
    assert!(
        out.contains("request_ms_sum 60"),
        "histogram sums merge; got:\n{out}"
    );
}

#[test]
fn flush_is_noop_ok() {
    let sink = default_sink();
    assert!(sink.flush(0).is_ok());
}

#[test]
fn render_text_exposition_returns_some_payload_after_emit() {
    let mut sink = default_sink();
    let pre = sink
        .render_text_exposition(|v| v as f64, |x: f64| x.to_bits())
        .expect("Prometheus sink renders empty snapshot pre-emit");
    assert!(
        pre.contains("mcpg_prometheus_sink_kind_mismatch_total"),
        "meta-metric should be present pre-emit; got:\n{pre}"
    );
    sink.emit(&point_counter("requests_total", &[], 1));
    let post = sink
        .render_text_exposition(|v| v as f64, |x: f64| x.to_bits())
        .expect("post-emit snapshot is Some");
    assert!(
        post.contains("requests_total 1"),
        "render_text_exposition should include the emitted sample; got:\n{post}"
    );
}

#[test]
fn descriptor_yaml_id_matches_plugin_id_const() {
    assert!(
        DESCRIPTOR_YAML.contains(&format!("id: {PLUGIN_ID}")),
        "descriptor YAML id should match PLUGIN_ID const"
    );
    assert!(
        DESCRIPTOR_YAML.contains("class: metrics_sink"),
        "descriptor YAML class should be metrics_sink"
    );
}

#[test]
fn fresh_exposition_is_the_meta_metric_at_zero() {
    let out = render(&default_sink());
    assert_eq!(
        out,
        format!("{META_HELP}mcpg_prometheus_sink_kind_mismatch_total 0\n")
    );
}

#[test]
fn exposition_of_every_kind_in_order() {
    let mut sink = Sink::with_config(PrometheusSinkConfig {
        namespace: "gw".into(),
        global_labels: labels(&[("region", "eu"), ("env", "prod")]),
    });
    let mut histogram = point(
        "wait_ms",
        MetricKind::Histogram,
        MetricValue::Histogram {
            count: 3,
            sum: 4.5,
            observations: vec![1.0, 1.5, 2.0],
        },
    );
    histogram.unit = Some("ms".into());
    assert!(matches!(sink.emit(&histogram), EmitOutcome::Started));
    assert!(matches!(
        sink.emit(&point_gauge_f64("load", 0.25)),
        EmitOutcome::Started
    ));
    assert!(matches!(
        sink.emit(&point_counter("calls", &[("tool", "b"), ("env", "dev")], 2)),
        EmitOutcome::Started
    ));
    assert!(matches!(
        sink.emit(&point_counter("calls", &[("tool", "a")], -1)),
        EmitOutcome::Started
    ));
    let expected = String::from(
        "# HELP gw_calls counter metric.\n\
         # TYPE gw_calls counter\n\
         gw_calls{env=\"dev\",region=\"eu\",tool=\"b\"} 2\n\
         \n\
         # HELP gw_calls counter metric.\n\
         # TYPE gw_calls counter\n\
         gw_calls{env=\"prod\",region=\"eu\",tool=\"a\"} -1\n\
         \n\
         # HELP gw_load gauge metric.\n\
         # TYPE gw_load gauge\n\
         gw_load{env=\"prod\",region=\"eu\"} 0.25\n\
         \n\
         # HELP gw_wait_ms histogram metric.\n\
         # TYPE gw_wait_ms histogram\n\
         # UNIT gw_wait_ms ms\n\
         gw_wait_ms_count{env=\"prod\",region=\"eu\"} 3\n\
         gw_wait_ms_sum{env=\"prod\",region=\"eu\"} 4.5\n\
         \n",
    ) + META_HELP
        + "mcpg_prometheus_sink_kind_mismatch_total 0\n";
    assert_eq!(render(&sink), expected);
}

#[test]
fn counter_adds_integer_and_float_parts() {
    let mut sink = default_sink();
    sink.emit(&point_counter("work", &[], 2));
    let float = point("work", MetricKind::Counter, MetricValue::F64 { value: 0.5 });
    assert!(matches!(sink.emit(&float), EmitOutcome::Merged));
    sink.emit(&point_counter("work", &[], 3));
    assert!(render(&sink).contains("\nwork 5.5\n"));
}

#[test]
fn counter_started_by_a_float_adds_up() {
    let mut sink = default_sink();
    for value in [1.5, 2.25, -0.75] {
        sink.emit(&point("work", MetricKind::Counter, MetricValue::F64 { value }));
    }
    assert!(render(&sink).contains("\nwork 3\n"));
}

#[test]
fn integer_counter_saturates() {
    let mut sink = default_sink();
    sink.emit(&point_counter("big", &[], i64::MAX));
    sink.emit(&point_counter("big", &[], 1));
    sink.emit(&point_counter("small", &[], i64::MIN));
    sink.emit(&point_counter("small", &[], -1));
    let out = render(&sink);
    assert!(out.contains(&format!("\nbig {}\n", i64::MAX as f64)));
    assert!(out.contains(&format!("\nsmall {}\n", i64::MIN as f64)));
}

#[test]
fn last_gauge_value_wins_across_number_types() {
    let mut sink = default_sink();
    sink.emit(&point_gauge_f64("depth", 3.5));
    sink.emit(&point("depth", MetricKind::Gauge, MetricValue::I64 { value: 7 }));
    let out = render(&sink);
    assert!(out.contains("\ndepth 7\n"), "integer sample came last; got:\n{out}");
    assert!(!out.contains("3.5"));
    sink.emit(&point_gauge_f64("depth", -2.5));
    let out = render(&sink);
    assert!(out.contains("\ndepth -2.5\n"), "float sample came last; got:\n{out}");
}

#[test]
fn gauge_starts_from_an_integer() {
    let mut sink = default_sink();
    sink.emit(&point("depth", MetricKind::Gauge, MetricValue::I64 { value: -4 }));
    assert!(render(&sink).contains("\ndepth -4\n"));
}

#[test]
fn single_float_observation_counts_as_one() {
    let mut sink = default_sink();
    let one = point("lat", MetricKind::Histogram, MetricValue::F64 { value: 0.5 });
    sink.emit(&one);
    let batch = point(
        "lat",
        MetricKind::Histogram,
        MetricValue::Histogram {
            count: 2,
            sum: 1.0,
            observations: vec![],
        },
    );
    sink.emit(&batch);
    sink.emit(&one);
    let out = render(&sink);
    assert!(out.contains("\nlat_count 4\nlat_sum 2\n"), "got:\n{out}");
}

#[test]
fn histogram_count_saturates() {
    let mut sink = default_sink();
    let full = point(
        "lat",
        MetricKind::Histogram,
        MetricValue::Histogram {
            count: u64::MAX,
            sum: 1.0,
            observations: vec![],
        },
    );
    sink.emit(&full);
    sink.emit(&full);
    assert!(render(&sink).contains("\nlat_count 18446744073709551615\nlat_sum 2\n"));
}

#[test]
fn observations_and_time_make_no_difference() {
    let mut plain = default_sink();
    let mut detailed = default_sink();
    let mut sample = point(
        "lat",
        MetricKind::Histogram,
        MetricValue::Histogram {
            count: 2,
            sum: 3.0,
            observations: vec![],
        },
    );
    plain.emit(&sample);
    sample.value = MetricValue::Histogram {
        count: 2,
        sum: 3.0,
        observations: vec![1.0, 2.0],
    };
    sample.timestamp_ns = 99;
    detailed.emit(&sample);
    assert_eq!(render(&plain), render(&detailed));
}

#[test]
fn values_that_do_not_fit_their_kind_are_dropped() {
    let mut sink = default_sink();
    let batch = MetricValue::Histogram {
        count: 1,
        sum: 1.0,
        observations: vec![1.0],
    };
    let first = point("a", MetricKind::Counter, batch.clone());
    assert!(matches!(sink.emit(&first), EmitOutcome::ValueMismatch));
    let integer = point("h", MetricKind::Histogram, MetricValue::I64 { value: 1 });
    assert!(matches!(sink.emit(&integer), EmitOutcome::ValueMismatch));
    sink.emit(&point_gauge_f64("g", 1.0));
    let later = point("g", MetricKind::Gauge, batch);
    assert!(matches!(sink.emit(&later), EmitOutcome::ValueMismatch));
    assert_eq!(sink.rejected_kind_mismatch(), 3);
    let out = render(&sink);
    assert!(!out.contains("# TYPE a "));
    assert!(!out.contains("# TYPE h "));
    assert!(out.contains("\ng 1\n"));
    assert!(out.ends_with("mcpg_prometheus_sink_kind_mismatch_total 3\n"));
}

#[test]
fn kind_mismatch_names_the_series_and_its_kind() {
    let mut sink = Sink::with_config(PrometheusSinkConfig {
        namespace: "ns".into(),
        global_labels: LabelMap::new(),
    });
    sink.emit(&point_counter("flips", &[], 1));
    match sink.emit(&point_gauge_f64("flips", 2.0)) {
        EmitOutcome::KindMismatch { metric_name, existing } => {
            assert_eq!(metric_name, "ns_flips");
            assert_eq!(existing, "counter");
        }
        other => panic!("expected a kind mismatch, got {other:?}"),
    }
}

#[test]
fn one_name_with_other_labels_is_another_series() {
    let mut sink = default_sink();
    sink.emit(&point_counter("calls", &[("tool", "a")], 1));
    sink.emit(&point_counter("calls", &[("tool", "b")], 2));
    sink.emit(&point_counter("calls", &[("tool", "a")], 10));
    let out = render(&sink);
    assert!(out.contains("calls{tool=\"a\"} 11\n"));
    assert!(out.contains("calls{tool=\"b\"} 2\n"));
}

#[test]
fn label_order_of_a_sample_does_not_matter() {
    let mut sink = default_sink();
    sink.emit(&point_counter("calls", &[("a", "1"), ("b", "2")], 1));
    sink.emit(&point_counter("calls", &[("b", "2"), ("a", "1")], 1));
    let out = render(&sink);
    assert!(out.contains("calls{a=\"1\",b=\"2\"} 2\n"));
    assert_eq!(out.matches("# TYPE calls ").count(), 1);
}

#[test]
fn emission_order_of_different_series_does_not_matter() {
    let mut one = default_sink();
    let mut other = default_sink();
    one.emit(&point_counter("b", &[], 1));
    one.emit(&point_gauge_f64("a", 2.5));
    other.emit(&point_gauge_f64("a", 2.5));
    other.emit(&point_counter("b", &[], 1));
    assert_eq!(render(&one), render(&other));
}

#[test]
fn unit_line_follows_the_type_line() {
    let mut sink = default_sink();
    let mut gauge = point_gauge_f64("size", 1.0);
    gauge.unit = Some("bytes".into());
    sink.emit(&gauge);
    gauge.unit = None;
    gauge.value = MetricValue::F64 { value: 2.0 };
    sink.emit(&gauge);
    assert!(render(&sink).starts_with(
        "# HELP size gauge metric.\n# TYPE size gauge\n# UNIT size bytes\nsize 2\n\n"
    ));
}

#[test]
fn special_floats_are_rendered_for_prometheus() {
    let cases = [
        (f64::NAN, "NaN"),
        (-f64::NAN, "NaN"),
        (f64::INFINITY, "+Inf"),
        (f64::NEG_INFINITY, "-Inf"),
        (0.0, "0"),
        (-0.0, "-0"),
        (1.0, "1"),
        (-3.0, "-3"),
        (0.1, "0.1"),
        (1.5e-7, "0.00000015"),
        (999_999_999_999_999.0, "999999999999999"),
        (-999_999_999_999_999.0, "-999999999999999"),
        (1e15, "1000000000000000"),
        (999_999_999_999_999.5, "999999999999999.5"),
        (1e21, "1000000000000000000000"),
        (2.5e10, "25000000000"),
    ];
    for (value, expected) in cases {
        let mut sink = default_sink();
        sink.emit(&point_gauge_f64("v", value));
        let out = render(&sink);
        let shown = if value.is_nan() {
            String::from("NaN")
        } else if value.is_infinite() {
            if value > 0.0 {
                String::from("+Inf")
            } else {
                String::from("-Inf")
            }
        } else if value.fract() == 0.0 && value.abs() < 1e15 {
            format!("{value:.0}")
        } else {
            format!("{value}")
        };
        assert!(out.contains(&format!("\nv {shown}\n")), "got:\n{out}");
        assert_eq!(shown, expected);
    }
}

#[test]
fn dropped_samples_leave_other_series_alone() {
    let mut sink = default_sink();
    sink.emit(&point_counter("a", &[], 1));
    sink.emit(&point_counter("b", &[], 2));
    let before = render(&sink);
    sink.emit(&point_gauge_f64("a", 5.0));
    let after = render(&sink);
    assert_eq!(
        before.replace("mismatch_total 0\n", "mismatch_total 1\n"),
        after
    );
}

#[test]
fn label_values_do_not_break_their_line() {
    let mut sink = default_sink();
    sink.emit(&point_counter("a", &[("l", "x\ny\"} 9\nb 1")], 1));
    let out = render(&sink);
    assert!(out.contains("\na{l=\"x\\ny\\\"} 9\\nb 1\"} 1\n"), "got:\n{out}");
}

#[test]
fn rendering_and_flushing_change_nothing() {
    let mut sink = default_sink();
    sink.emit(&point_counter("a", &[("l", "v")], 3));
    sink.emit(&point_gauge_f64("g", 0.1));
    sink.emit(&point_gauge_f64("a", 0.1));
    let first = render(&sink);
    for timeout in [0, 1, u64::MAX] {
        assert!(sink.flush(timeout).is_ok());
        assert_eq!(render(&sink), first);
    }
    assert_eq!(
        sink.render_text_exposition(|v| v as f64, |x: f64| x.to_bits()),
        Some(first)
    );
}

#[test]
fn bare_float_is_a_batch_of_one() {
    let mut bare = default_sink();
    let mut batch = default_sink();
    for value in [0.1, 0.2, 0.7] {
        bare.emit(&point("h", MetricKind::Histogram, MetricValue::F64 { value }));
        batch.emit(&point(
            "h",
            MetricKind::Histogram,
            MetricValue::Histogram {
                count: 1,
                sum: value,
                observations: vec![value],
            },
        ));
    }
    assert_eq!(render(&bare), render(&batch));
}

fn float_sample(name: &str, kind: MetricKind, value: f64) -> MetricPoint<f64> {
    point(name, kind, MetricValue::F64 { value })
}

#[test]
fn sums_that_are_no_number_render_alike() {
    let mut sink = default_sink();
    sink.emit(&float_sample("c", MetricKind::Counter, f64::INFINITY));
    sink.emit(&float_sample("c", MetricKind::Counter, f64::NEG_INFINITY));
    sink.emit(&float_sample("h", MetricKind::Histogram, -f64::NAN));
    sink.emit(&float_sample("h", MetricKind::Histogram, 1.0));
    let first = render(&sink);
    assert!(first.contains("\nc NaN\n"), "got:\n{first}");
    assert!(first.contains("\nh_count 2\nh_sum NaN\n"), "got:\n{first}");
    assert_eq!(render(&sink), first);
    sink.emit(&float_sample("c", MetricKind::Gauge, 1.0));
    assert_eq!(
        render(&sink),
        first.replace("mismatch_total 0\n", "mismatch_total 1\n")
    );
}

#[test]
fn samples_of_different_series_commute() {
    let samples = [
        float_sample("c", MetricKind::Counter, f64::NAN),
        float_sample("h", MetricKind::Histogram, 0.1),
        float_sample("g", MetricKind::Gauge, 2.5),
        point("x", MetricKind::Histogram, MetricValue::I64 { value: 1 }),
    ];
    let mut one = default_sink();
    let mut two = default_sink();
    for _ in 0..2 {
        for sample in samples.iter() {
            one.emit(sample);
        }
        for sample in samples.iter().rev() {
            two.emit(sample);
        }
    }
    assert_eq!(render(&one), render(&two));
    assert_eq!(one.rejected_kind_mismatch(), 2);
    assert!(render(&one).contains("\nc NaN\n"));
}

#[test]
fn observations_and_timestamps_are_not_retained() {
    let mut one = default_sink();
    let mut two = default_sink();
    for sum in [0.5, f64::NAN, 1.0] {
        let mut batch = point(
            "h",
            MetricKind::Histogram,
            MetricValue::Histogram {
                count: 2,
                sum,
                observations: vec![sum, 0.0],
            },
        );
        one.emit(&batch);
        batch.timestamp_ns = 7;
        batch.value = MetricValue::Histogram {
            count: 2,
            sum,
            observations: Vec::new(),
        };
        two.emit(&batch);
        assert_eq!(render(&one), render(&two));
    }
    assert!(render(&one).contains("\nh_count 6\nh_sum NaN\n"));
}

#[test]
fn integer_counter_shows_its_sum_whatever_the_order() {
    for values in [[5, -7, 40], [40, 5, -7], [-7, 40, 5]] {
        let mut sink = default_sink();
        for value in values {
            sink.emit(&point_counter("n", &[("l", "v")], value));
        }
        assert_eq!(
            render(&sink),
            format!(
                "# HELP n counter metric.\n# TYPE n counter\nn{{l=\"v\"}} 38\n\n{META_HELP}mcpg_prometheus_sink_kind_mismatch_total 0\n"
            )
        );
    }
    let mut sink = default_sink();
    sink.emit(&point_counter("n", &[], -999_999_999_999_999));
    assert!(render(&sink).contains("\nn -999999999999999\n"));
    sink.emit(&point_counter("n", &[], 999_999_999_999_999));
    assert!(render(&sink).contains("\nn 0\n"));
}

#[test]
fn sinks_do_not_share_state() {
    let mut one = default_sink();
    let two = default_sink();
    one.emit(&point_counter("a", &[], 1));
    assert!(!render(&two).contains("# TYPE a "));
}

#[test]
fn long_timeouts_are_held_at_the_bound() {
    assert_eq!(timeout_millis(0), 0);
    assert_eq!(timeout_millis(1500), 1500);
    assert_eq!(timeout_millis(u64::MAX as u128 + 1), u64::MAX);
}
