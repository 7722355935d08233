use mcpg_plugin_observability_prometheus::exposition::format_series;
use mcpg_plugin_observability_prometheus::labels::LabelMap;
use mcpg_plugin_observability_prometheus::metric::{MetricKind, MetricValue};
use mcpg_plugin_observability_prometheus::number::{format_bits, format_count, format_float};
use mcpg_plugin_observability_prometheus::order::{compare_text, Comparison};
use mcpg_plugin_observability_prometheus::series::{Series, SeriesKey, SeriesValue};
use mcpg_plugin_observability_prometheus::text::{escape, format_label_set};

fn owned(pairs: &[(&str, &str)]) -> Vec<(String, String)> {
    pairs
        .iter()
        .map(|(k, v)| (String::from(*k), String::from(*v)))
        .collect()
}

#[test]
fn texts_are_ordered_by_code_point() {
    assert_eq!(compare_text("", ""), Comparison::Same);
    assert_eq!(compare_text("", "a"), Comparison::Before);
    assert_eq!(compare_text("ab", "a"), Comparison::After);
    assert_eq!(compare_text("a", "b"), Comparison::Before);
    assert_eq!(compare_text("B", "a"), Comparison::Before);
    assert_eq!(compare_text("z", "\u{e9}"), Comparison::Before);
    assert_eq!(compare_text("\u{10000}", "\u{ffff}"), Comparison::After);
    for a in ["", "a", "ab", "b", "\u{e9}", "\u{ffff}", "\u{10000}x"] {
        for b in ["", "a", "ab", "b", "\u{e9}", "\u{ffff}", "\u{10000}x"] {
            let expected = if a < b {
                Comparison::Before
            } else if a == b {
                Comparison::Same
            } else {
                Comparison::After
            };
            assert_eq!(compare_text(a, b), expected);
        }
    }
}

#[test]
fn label_values_are_escaped() {
    assert_eq!(escape("plain"), "plain");
    assert_eq!(escape(""), "");
    assert_eq!(escape("a\\b"), "a\\\\b");
    assert_eq!(escape("say \"hi\""), "say \\\"hi\\\"");
    assert_eq!(escape("two\nlines"), "two\\nlines");
    assert_eq!(escape("\\n"), "\\\\n");
    assert_eq!(escape("\u{e9}\t"), "\u{e9}\t");
    for value in ["\\\"\n", "\n\n\\", "\\\\n", "x\"y"] {
        let replaced = value
            .replace('\\', "\\\\")
            .replace('"', "\\\"")
            .replace('\n', "\\n");
        assert_eq!(escape(value), replaced);
    }
}

#[test]
fn label_sets_are_braced_and_joined() {
    assert_eq!(format_label_set(&owned(&[])), "");
    assert_eq!(format_label_set(&owned(&[("a", "1")])), "{a=\"1\"}");
    assert_eq!(
        format_label_set(&owned(&[("a", "1"), ("b", "x\ny"), ("c", "")])),
        "{a=\"1\",b=\"x\\ny\",c=\"\"}"
    );
}

#[test]
fn series_key_sorts_its_labels() {
    let labels = LabelMap::from_pairs(&owned(&[("z", "1"), ("a", "2"), ("m", "3"), ("a", "4")]));
    let key = SeriesKey::new(String::from("n"), labels);
    assert_eq!(key.name, "n");
    assert_eq!(key.labels, owned(&[("a", "4"), ("m", "3"), ("z", "1")]));
}

#[test]
fn label_map_is_a_map() {
    let mut labels = LabelMap::new();
    assert!(labels.is_empty());
    labels.insert(String::from("b"), String::from("1"));
    labels.insert(String::from("a"), String::from("2"));
    labels.insert(String::from("b"), String::from("3"));
    assert_eq!(labels.len(), 2);
    assert_eq!(labels.get(&String::from("b")), Some(&String::from("3")));
    assert_eq!(labels.get(&String::from("c")), None);
    assert_eq!(labels.entry(0).0, "a");
    let mut over = labels.clone();
    over.overlay(&LabelMap::from_pairs(&owned(&[("a", "9"), ("c", "8")])));
    assert_eq!(
        over.into_entries(),
        owned(&[("a", "9"), ("b", "3"), ("c", "8")])
    );
}

#[test]
fn counts_are_written_in_decimal() {
    for n in [0, 7, 10, 99, 100, 1234567890, u64::MAX] {
        assert_eq!(format_count(n), format!("{n}"));
    }
}

#[test]
fn only_other_numbers_keep_their_shown_text() {
    let shown = || String::from("shown");
    assert_eq!(format_bits(f64::NAN.to_bits(), shown()), "NaN");
    assert_eq!(format_bits(f64::INFINITY.to_bits(), shown()), "+Inf");
    assert_eq!(format_bits(f64::NEG_INFINITY.to_bits(), shown()), "-Inf");
    assert_eq!(format_bits((-0.0f64).to_bits(), shown()), "-0");
    assert_eq!(format_bits(42.0f64.to_bits(), shown()), "42");
    assert_eq!(format_bits(4503599627370496.0f64.to_bits(), shown()), "shown");
    assert_eq!(format_bits(1e15f64.to_bits(), shown()), "shown");
    assert_eq!(format_bits(0.5f64.to_bits(), shown()), "shown");
    assert_eq!(format_bits(1.5f64.to_bits(), shown()), "shown");
    assert_eq!(format_bits(1u64, shown()), "shown");
    assert_eq!(format_bits(f64::MAX.to_bits(), shown()), "shown");
}

#[test]
fn floats_are_written_for_an_exposition() {
    for value in [2.5f64, 1e300, 5e-324, 123456.789, -1.0, 65536.0, 1e14] {
        let expected = if value.fract() == 0.0 && value.abs() < 1e15 {
            format!("{value:.0}")
        } else {
            format!("{value}")
        };
        assert_eq!(format_float(value, value.to_bits()), expected);
    }
}

#[test]
fn accumulators_name_their_kind() {
    let counter = SeriesValue::<f64>::seed(MetricKind::Counter, &MetricValue::I64 { value: 1 });
    let gauge = SeriesValue::<f64>::seed(MetricKind::Gauge, &MetricValue::F64 { value: 1.0 });
    let histogram = SeriesValue::<f64>::seed(MetricKind::Histogram, &MetricValue::F64 { value: 1.0 });
    assert_eq!(counter.map(|v| v.kind()), Some("counter"));
    assert_eq!(gauge.map(|v| v.kind()), Some("gauge"));
    assert_eq!(histogram.map(|v| v.kind()), Some("histogram"));
    assert_eq!(MetricKind::Gauge.label(), "gauge");
}

#[test]
fn merge_reports_a_value_that_does_not_fit() {
    let mut counter = SeriesValue::Counter { sum_f64: 1.0f64, sum_i64: 2 };
    let batch = MetricValue::Histogram { count: 1, sum: 1.0, observations: vec![] };
    assert_eq!(counter.merge(&batch), Err("metric kind / value mismatch"));
    assert!(matches!(counter, SeriesValue::Counter { sum_i64: 2, .. }));
    assert_eq!(counter.merge(&MetricValue::I64 { value: 40 }), Ok(()));
    assert!(matches!(counter, SeriesValue::Counter { sum_i64: 42, .. }));
}

#[test]
fn a_series_is_written_with_the_given_number() {
    let key = SeriesKey::new(String::from("n"), LabelMap::from_pairs(&owned(&[("l", "v")])));
    let series = Series {
        kind: MetricKind::Gauge,
        unit: Some(String::from("s")),
        value: SeriesValue::Counter { sum_f64: 0.0f64, sum_i64: 0 },
    };
    assert_eq!(
        format_series(&key, &series, "12"),
        "# HELP n gauge metric.\n# TYPE n gauge\n# UNIT n s\nn{l=\"v\"} 12\n\n"
    );
}
