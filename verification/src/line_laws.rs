//! The lines of an exposition: which stand there, and what they show.
use core::fmt::Display;
use core::ops::Add;

use vstd::prelude::*;

use crate::metric::{MetricKind, MetricPoint, MetricValue};
use crate::registry::RegistryModel;
use crate::series::{GaugeReading, KeyModel, SeriesKey, SeriesModel, SeriesValue};
use crate::sink::SinkModel;

verus! {

/// The lines ahead of a series say its name and its kind, and its unit where it
/// has one.
pub proof fn law_header_lines(name: Seq<char>, kind: Seq<char>, unit: Seq<char>)
    ensures
        crate::exposition::header_text(name, kind, None) == "# HELP "@ + name + " "@ + kind
            + " metric.\n# TYPE "@ + name + " "@ + kind + "\n"@,
        crate::exposition::header_text(name, kind, Some(unit)) == "# HELP "@ + name + " "@ + kind
            + " metric.\n# TYPE "@ + name + " "@ + kind + "\n# UNIT "@ + name + " "@ + unit + "\n"@,
{
    reveal_strlit(" metric.\n");
    reveal_strlit("# TYPE ");
    reveal_strlit(" metric.\n# TYPE ");
    reveal_strlit("\n");
    reveal_strlit("# UNIT ");
    reveal_strlit("\n# UNIT ");
    assert(" metric.\n"@ + "# TYPE "@ =~= " metric.\n# TYPE "@);
    assert("\n"@ + "# UNIT "@ =~= "\n# UNIT "@);
    let front = "# HELP "@ + name + " "@ + kind;
    let joined = front + " metric.\n# TYPE "@;
    assert(front + " metric.\n"@ + "# TYPE "@ =~= joined);
    let both = joined + name + " "@ + kind;
    assert(both + "\n"@ + "# UNIT "@ =~= both + "\n# UNIT "@);
}

/// A sample line is the name with its suffix, the label set, a space, the number
/// and the end of the line.
pub proof fn law_sample_line_parts(
    name: Seq<char>,
    suffix: Seq<char>,
    labels: Seq<(Seq<char>, Seq<char>)>,
    number: Seq<char>,
)
    ensures
        crate::exposition::sample_line(name, suffix, labels, number) == name + suffix
            + crate::text::label_set_text(labels) + seq![' '] + number + seq!['\n'],
{
    reveal_strlit(" ");
    reveal_strlit("\n");
    assert(" "@ =~= seq![' ']);
    assert("\n"@ =~= seq!['\n']);
}

/// A histogram has a line with its count, whatever the count is, and then one
/// with its sum.
pub proof fn law_histogram_lines<N>(
    key: KeyModel,
    count: u64,
    sum: N,
    number: Seq<char>,
) -> (digits: Seq<char>)
    ensures
        crate::text_laws::has_digits_of(digits, count as nat),
        crate::exposition::samples_text(key, SeriesValue::Histogram { count, sum }, number)
            == key.name + "_count"@ + crate::text::label_set_text(key.labels) + seq![' '] + digits
            + seq!['\n'] + (key.name + "_sum"@ + crate::text::label_set_text(key.labels) + seq![' ']
            + number + seq!['\n']),
{
    let digits = crate::number::decimal(count as nat);
    crate::text_laws::law_decimal_has_the_digits(count as nat);
    law_sample_line_parts(key.name, "_count"@, key.labels, digits);
    law_sample_line_parts(key.name, "_sum"@, key.labels, number);
    digits
}

/// A counter and a gauge have one line, under the series' name.
pub proof fn law_plain_lines<N>(
    key: KeyModel,
    sum_f64: N,
    sum_i64: i64,
    last: GaugeReading<N>,
    number: Seq<char>,
)
    ensures
        crate::exposition::samples_text(key, SeriesValue::Counter { sum_f64, sum_i64 }, number)
            == key.name + crate::text::label_set_text(key.labels) + seq![' '] + number + seq!['\n'],
        crate::exposition::samples_text(key, SeriesValue::Gauge { last }, number) == key.name
            + crate::text::label_set_text(key.labels) + seq![' '] + number + seq!['\n'],
{
    reveal_strlit("");
    law_sample_line_parts(key.name, ""@, key.labels, number);
    assert(key.name + ""@ =~= key.name);
}

/// A series is its header, under its kind's name, its samples and an empty line.
pub proof fn law_series_lines<N>(key: KeyModel, series: SeriesModel<N>, number: Seq<char>)
    ensures
        ({
            let samples = crate::exposition::samples_text(key, series.value, number);
            let kind = match series.kind {
                MetricKind::Counter => "counter"@,
                MetricKind::Gauge => "gauge"@,
                MetricKind::Histogram => "histogram"@,
            };
            let lead = "# HELP "@ + key.name + " "@ + kind + " metric.\n# TYPE "@ + key.name + " "@
                + kind;
            crate::exposition::series_text(key, series, number) == match series.unit {
                Some(unit) => lead + "\n# UNIT "@ + key.name + " "@ + unit + "\n"@,
                None => lead + "\n"@,
            } + samples + seq!['\n']
        }),
{
    reveal_strlit("\n");
    assert("\n"@ =~= seq!['\n']);
    match series.unit {
        Some(unit) => {
            law_header_lines(key.name, series.kind.name(), unit);
        },
        None => {
            law_header_lines(key.name, series.kind.name(), Seq::empty());
        },
    }
}

/// The series stand one after the other, and where there is none, nothing does.
pub proof fn law_series_follow_each_other<N>(
    listing: Seq<(KeyModel, SeriesModel<N>)>,
    key: KeyModel,
    series: SeriesModel<N>,
    numbers: Seq<Seq<char>>,
)
    ensures
        crate::exposition::all_series_text(Seq::<(KeyModel, SeriesModel<N>)>::empty(), numbers)
            == Seq::<char>::empty(),
        crate::exposition::all_series_text(listing.push((key, series)), numbers)
            == crate::exposition::all_series_text(listing, numbers)
            + crate::exposition::series_text(key, series, numbers[listing.len() as int]),
{
    assert(listing.push((key, series)).drop_last() =~= listing);
}

/// The meta-metric is a counter of its own, and shows how many samples were
/// dropped.
pub proof fn law_meta_lines(rejected: u64) -> (digits: Seq<char>)
    ensures
        crate::text_laws::has_digits_of(digits, rejected as nat),
        crate::exposition::meta_text(rejected)
            == "# HELP mcpg_prometheus_sink_kind_mismatch_total Samples dropped because the metric kind did not match the established series kind.\n"@
            + "# TYPE mcpg_prometheus_sink_kind_mismatch_total counter\n"@
            + "mcpg_prometheus_sink_kind_mismatch_total "@ + digits + seq!['\n'],
{
    reveal_strlit("\n");
    assert("\n"@ =~= seq!['\n']);
    let digits = crate::number::decimal(rejected as nat);
    crate::text_laws::law_decimal_has_the_digits(rejected as nat);
    digits
}

/// The listing of a registry has each of its series once, in the order of their
/// names and labels.
pub proof fn law_registry_listing<N>(registry: RegistryModel<N>)
    requires
        registry.series.dom().finite(),
    ensures
        ({
            let listing = registry.listing();
            &&& listing.len() == registry.series.len()
            &&& forall|i: int|
                0 <= i < listing.len() ==> registry.series.contains_key(#[trigger] listing[i].0)
                    && registry.series[listing[i].0] == listing[i].1
            &&& forall|key: KeyModel| #[trigger]
                registry.series.contains_key(key) ==> exists|i: int|
                    0 <= i < listing.len() && #[trigger] listing[i].0 == key
            &&& forall|i: int, j: int|
                0 <= i < j < listing.len() ==> crate::series::key_before(
                    #[trigger] listing[i].0,
                    #[trigger] listing[j].0,
                )
        }),
{
    let listing = registry.listing();
    crate::render_laws::law_series_are_in_order(registry);
    crate::sorted_map::lemma_finite_listing::<SeriesKey, SeriesModel<N>>(registry.series);
    assert forall|i: int| 0 <= i < listing.len() implies registry.series.contains_key(
        #[trigger] listing[i].0,
    ) && registry.series[listing[i].0] == listing[i].1 by {
        assert(registry.series.contains_key(listing[i].0));
    }
}

/// What a series shows: a counter the sum of both parts, a gauge its last sample,
/// a histogram its sum.
pub proof fn law_reading<N: Copy + Add<Output = N>, W: Fn(i64) -> N>(
    series: SeriesValue<N>,
    widen: &W,
    value: N,
)
    requires
        crate::exposition::is_reading(series, widen, value),
    ensures
        series matches SeriesValue::Counter { sum_f64, sum_i64 } ==> exists|wide: N| #[trigger]
            call_ensures(widen, (sum_i64,), wide) && call_ensures(N::add, (sum_f64, wide), value),
        series matches SeriesValue::Gauge { last } ==> match last {
            GaugeReading::F64 { value: held } => value == held,
            GaugeReading::I64 { value: held } => call_ensures(widen, (held,), value),
        },
        series matches SeriesValue::Histogram { sum, .. } ==> value == sum,
{
}

/// The text of a number is that of its bits, or what `Display` gives of it.
pub proof fn law_shown_number<N: Display, B: Fn(N) -> u64>(value: N, bits: &B, text: Seq<char>)
    requires
        crate::exposition::is_shown(value, bits, text),
    ensures
        exists|b: u64, shown: String|
            #[trigger] call_ensures(bits, (value,), b) && #[trigger]
                vstd::string::to_string_from_display_ensures::<N>(&value, shown) && text
                == crate::number::float_text(b, shown@),
{
    let b = choose|b: u64| #[trigger]
        call_ensures(bits, (value,), b) && crate::number::is_float_text(value, b, text);
    crate::text_laws::law_number_text(value, b, text);
    let shown = choose|shown: String| #[trigger]
        vstd::string::to_string_from_display_ensures::<N>(&value, shown) && text
            == crate::number::float_text(b, shown@);
    assert(call_ensures(bits, (value,), b));
    assert(vstd::string::to_string_from_display_ensures::<N>(&value, shown));
}

/// The number text of a series is that of a number that the series shows.
pub proof fn law_reading_text<
    N: Copy + Add<Output = N> + Display,
    W: Fn(i64) -> N,
    B: Fn(N) -> u64,
>(series: SeriesValue<N>, widen: &W, bits: &B, text: Seq<char>)
    requires
        crate::exposition::is_reading_text(series, widen, bits, text),
    ensures
        exists|value: N| #[trigger]
            crate::exposition::is_reading(series, widen, value) && crate::exposition::is_shown(
                value,
                bits,
                text,
            ),
{
}

/// An exposition is the series in the order of their keys, each with the number
/// that it shows, and the meta-metric behind them.
pub proof fn law_exposition_parts<
    N: Copy + Add<Output = N> + Display,
    W: Fn(i64) -> N,
    B: Fn(N) -> u64,
>(registry: RegistryModel<N>, widen: &W, bits: &B, text: Seq<char>) -> (numbers: Seq<Seq<char>>)
    requires
        crate::exposition::is_exposition(registry, widen, bits, text),
    ensures
        numbers.len() == registry.listing().len(),
        text == crate::exposition::all_series_text(registry.listing(), numbers)
            + crate::exposition::meta_text(registry.rejected),
        forall|i: int|
            0 <= i < numbers.len() ==> crate::exposition::is_reading_text(
                registry.listing()[i].1.value,
                widen,
                bits,
                #[trigger] numbers[i],
            ),
{
    let numbers = choose|numbers: Seq<Seq<char>>| #[trigger]
        crate::exposition::are_reading_texts(registry, widen, bits, numbers) && text
            == registry.exposition(numbers);
    numbers
}

/// Every series of a registry stands in its exposition, with a number that it
/// shows.
pub proof fn law_series_is_rendered<
    N: Copy + Add<Output = N> + Display,
    W: Fn(i64) -> N,
    B: Fn(N) -> u64,
>(registry: RegistryModel<N>, key: KeyModel, widen: &W, bits: &B, text: Seq<char>) -> (number: Seq<
    char,
>)
    requires
        registry.series.dom().finite(),
        registry.series.contains_key(key),
        crate::exposition::is_exposition(registry, widen, bits, text),
    ensures
        crate::render_laws::has_part(
            text,
            crate::exposition::series_text(key, registry.series[key], number),
        ),
        exists|value: N| #[trigger]
            crate::exposition::is_reading(registry.series[key].value, widen, value)
                && crate::exposition::is_shown(value, bits, number),
{
    let numbers = law_exposition_parts(registry, widen, bits, text);
    crate::render_laws::law_every_series_is_rendered(registry, numbers, key);
    let i = choose|i: int|
        0 <= i < registry.listing().len() && #[trigger] registry.listing()[i] == (
            key,
            registry.series[key],
        ) && crate::render_laws::has_part(
            registry.exposition(numbers),
            crate::exposition::series_text(key, registry.series[key], numbers[i]),
        );
    law_reading_text(registry.listing()[i].1.value, widen, bits, numbers[i]);
    numbers[i]
}

/// A histogram's count and sum stand in the exposition, each on its line.
pub proof fn law_histogram_is_rendered<
    N: Copy + Add<Output = N> + Display,
    W: Fn(i64) -> N,
    B: Fn(N) -> u64,
>(
    registry: RegistryModel<N>,
    key: KeyModel,
    count: u64,
    sum: N,
    widen: &W,
    bits: &B,
    text: Seq<char>,
) -> (shown: (Seq<char>, Seq<char>))
    requires
        registry.series.dom().finite(),
        registry.series.contains_key(key),
        registry.series[key].value == (SeriesValue::Histogram { count, sum }),
        crate::exposition::is_exposition(registry, widen, bits, text),
    ensures
        crate::text_laws::has_digits_of(shown.0, count as nat),
        crate::exposition::is_shown(sum, bits, shown.1),
        crate::render_laws::has_part(
            text,
            key.name + "_count"@ + crate::text::label_set_text(key.labels) + seq![' '] + shown.0
                + seq!['\n'] + (key.name + "_sum"@ + crate::text::label_set_text(key.labels)
                + seq![' '] + shown.1 + seq!['\n']),
        ),
{
    let series = registry.series[key];
    let number = law_series_is_rendered(registry, key, widen, bits, text);
    let digits = law_histogram_lines(key, count, sum, number);
    let value = choose|value: N| #[trigger]
        crate::exposition::is_reading(series.value, widen, value) && crate::exposition::is_shown(
            value,
            bits,
            number,
        );
    law_reading(series.value, widen, value);
    lemma_samples_are_part(text, key, series, number);
    (digits, number)
}

/// A gauge's last sample stands in the exposition, on the gauge's line.
pub proof fn law_gauge_is_rendered<
    N: Copy + Add<Output = N> + Display,
    W: Fn(i64) -> N,
    B: Fn(N) -> u64,
>(
    registry: RegistryModel<N>,
    key: KeyModel,
    last: GaugeReading<N>,
    widen: &W,
    bits: &B,
    text: Seq<char>,
) -> (number: Seq<char>)
    requires
        registry.series.dom().finite(),
        registry.series.contains_key(key),
        registry.series[key].value == (SeriesValue::Gauge { last }),
        crate::exposition::is_exposition(registry, widen, bits, text),
    ensures
        last matches GaugeReading::F64 { value } ==> crate::exposition::is_shown(
            value,
            bits,
            number,
        ),
        last matches GaugeReading::I64 { value } ==> exists|wide: N| #[trigger]
            call_ensures(widen, (value,), wide) && crate::exposition::is_shown(wide, bits, number),
        crate::render_laws::has_part(
            text,
            key.name + crate::text::label_set_text(key.labels) + seq![' '] + number + seq!['\n'],
        ),
{
    let series = registry.series[key];
    let number = law_series_is_rendered(registry, key, widen, bits, text);
    let value = choose|value: N| #[trigger]
        crate::exposition::is_reading(series.value, widen, value) && crate::exposition::is_shown(
            value,
            bits,
            number,
        );
    law_reading(series.value, widen, value);
    law_plain_lines(key, value, 0, last, number);
    lemma_samples_are_part(text, key, series, number);
    number
}

/// The sum of both parts of a counter stands in the exposition, on the counter's
/// line.
pub proof fn law_counter_is_rendered<
    N: Copy + Add<Output = N> + Display,
    W: Fn(i64) -> N,
    B: Fn(N) -> u64,
>(
    registry: RegistryModel<N>,
    key: KeyModel,
    sum_f64: N,
    sum_i64: i64,
    widen: &W,
    bits: &B,
    text: Seq<char>,
) -> (number: Seq<char>)
    requires
        registry.series.dom().finite(),
        registry.series.contains_key(key),
        registry.series[key].value == (SeriesValue::Counter { sum_f64, sum_i64 }),
        crate::exposition::is_exposition(registry, widen, bits, text),
    ensures
        exists|wide: N, sum: N| #[trigger]
            call_ensures(widen, (sum_i64,), wide) && #[trigger] call_ensures(
                N::add,
                (sum_f64, wide),
                sum,
            ) && crate::exposition::is_shown(sum, bits, number),
        crate::render_laws::has_part(
            text,
            key.name + crate::text::label_set_text(key.labels) + seq![' '] + number + seq!['\n'],
        ),
{
    let series = registry.series[key];
    let number = law_series_is_rendered(registry, key, widen, bits, text);
    let value = choose|value: N| #[trigger]
        crate::exposition::is_reading(series.value, widen, value) && crate::exposition::is_shown(
            value,
            bits,
            number,
        );
    law_reading(series.value, widen, value);
    law_plain_lines(key, sum_f64, sum_i64, GaugeReading::<N>::I64 { value: 0 }, number);
    lemma_samples_are_part(text, key, series, number);
    number
}

/// What has a series in it has the samples of the series in it.
proof fn lemma_samples_are_part<N>(
    text: Seq<char>,
    key: KeyModel,
    series: SeriesModel<N>,
    number: Seq<char>,
)
    requires
        crate::render_laws::has_part(
            text,
            crate::exposition::series_text(key, series, number),
        ),
    ensures
        crate::render_laws::has_part(
            text,
            crate::exposition::samples_text(key, series.value, number),
        ),
{
    let block = crate::exposition::series_text(key, series, number);
    let header = crate::exposition::header_text(key.name, series.kind.name(), series.unit);
    let samples = crate::exposition::samples_text(key, series.value, number);
    let (before, after) = choose|before: Seq<char>, after: Seq<char>|
        text == #[trigger] (before + block + after);
    assert(text =~= (before + header) + samples + ("\n"@ + after));
}

/// The sample's value suits the kind.
pub open spec fn suits<N>(kind: MetricKind, value: MetricValue<N>) -> bool {
    match kind {
        MetricKind::Histogram => !(value is I64),
        _ => !(value is Histogram),
    }
}

/// A fresh sink that is given samples of one series, of one kind and with values
/// that suit it, takes in each of them, drops none and has no other series.
pub proof fn law_fitting_samples_are_all_taken<N: Copy + Default + Add<Output = N>>(
    states: Seq<SinkModel<N>>,
    metrics: Seq<MetricPoint<N>>,
    key: KeyModel,
    kind: MetricKind,
)
    requires
        crate::laws::is_run(states, metrics),
        states[0].registry.series == Map::<KeyModel, SeriesModel<N>>::empty(),
        forall|i: int|
            0 <= i < metrics.len() ==> states[0].key_of(#[trigger] metrics[i]) == key
                && metrics[i].kind == kind && suits(kind, metrics[i].value),
    ensures
        crate::laws::taken_samples(states, metrics, key) == metrics,
        states.last().registry.rejected == states[0].registry.rejected,
        forall|k: KeyModel| #[trigger]
            states.last().registry.series.contains_key(k) <==> metrics.len() > 0 && k == key,
        metrics.len() > 0 ==> states.last().registry.series[key].kind == kind
            && states.last().registry.series[key].unit == crate::metric::unit_view(metrics[0].unit),
    decreases metrics.len(),
{
    if metrics.len() > 0 {
        let before = states.drop_last();
        let fewer = metrics.drop_last();
        let last = metrics.len() - 1;
        crate::laws::lemma_run_step(states, metrics);
        assert forall|i: int| 0 <= i < fewer.len() implies before[0].key_of(#[trigger] fewer[i])
            == key && fewer[i].kind == kind && suits(kind, fewer[i].value) by {
            assert(fewer[i] == metrics[i]);
        }
        law_fitting_samples_are_all_taken(before, fewer, key, kind);
        crate::laws::lemma_taken_prefix(states, before, fewer, key);
        crate::laws::law_configuration_stays(before, fewer);
        crate::laws::law_first_sample_establishes_series(before, fewer, key);
        assert(states[0].key_of(metrics[last]) == key);
        assert(before.last().key_of(metrics[last]) == key);
        if fewer.len() > 0 {
            assert(fewer[0] == metrics[0]);
        }
        assert(before.last().registry.accepts(key, metrics[last]));
        assert(fewer.push(metrics[last]) =~= metrics);
        crate::laws::law_first_sample_establishes_series(states, metrics, key);
    }
}

/// The exposition of a registry with one series and no dropped sample.
proof fn lemma_one_series_text<
    N: Copy + Add<Output = N> + Display,
    W: Fn(i64) -> N,
    B: Fn(N) -> u64,
>(registry: RegistryModel<N>, key: KeyModel, widen: &W, bits: &B, text: Seq<char>) -> (number: Seq<
    char,
>)
    requires
        forall|k: KeyModel| #[trigger] registry.series.contains_key(k) <==> k == key,
        crate::exposition::is_exposition(registry, widen, bits, text),
    ensures
        text == crate::exposition::series_text(key, registry.series[key], number)
            + crate::exposition::meta_text(registry.rejected),
        exists|value: N| #[trigger]
            crate::exposition::is_reading(registry.series[key].value, widen, value)
                && crate::exposition::is_shown(value, bits, number),
{
    let series = registry.series[key];
    let none = Seq::<(KeyModel, SeriesModel<N>)>::empty();
    let only = none.push((key, series));
    assert(registry.series.contains_key(key));
    assert(only[0].0 == key);
    assert(crate::sorted_map::is_listing::<SeriesKey, SeriesModel<N>>(registry.series, only));
    crate::sorted_map::lemma_listing_unique::<SeriesKey, SeriesModel<N>>(registry.series, only);
    let numbers = law_exposition_parts(registry, widen, bits, text);
    law_series_follow_each_other(none, key, series, numbers);
    let block = crate::exposition::series_text(key, series, numbers[0]);
    assert(Seq::<char>::empty() + block =~= block);
    law_reading_text(registry.listing()[0].1.value, widen, bits, numbers[0]);
    numbers[0]
}

/// A fresh sink that is given samples of one histogram renders its header, a
/// line with the number of observations, a line with their sum, and the
/// meta-metric at zero.
pub proof fn law_histogram_text<
    N: Copy + Default + Add<Output = N> + Display,
    W: Fn(i64) -> N,
    B: Fn(N) -> u64,
>(
    states: Seq<SinkModel<N>>,
    metrics: Seq<MetricPoint<N>>,
    key: KeyModel,
    widen: &W,
    bits: &B,
    text: Seq<char>,
) -> (shown: (Seq<char>, Seq<char>))
    requires
        crate::laws::is_run(states, metrics),
        states[0].registry == RegistryModel::<N>::fresh(),
        metrics.len() > 0,
        forall|i: int|
            0 <= i < metrics.len() ==> states[0].key_of(#[trigger] metrics[i]) == key
                && metrics[i].kind == MetricKind::Histogram && !(metrics[i].value is I64),
        crate::exposition::is_exposition(states.last().registry, widen, bits, text),
    ensures
        crate::laws::observation_total(metrics) <= u64::MAX ==> crate::text_laws::has_digits_of(
            shown.0,
            crate::laws::observation_total(metrics),
        ),
        crate::laws::observation_total(metrics) > u64::MAX ==> crate::text_laws::has_digits_of(
            shown.0,
            u64::MAX as nat,
        ),
        exists|sum: N| #[trigger]
            crate::laws::is_running_sum(crate::laws::observed_sums(metrics), sum)
                && crate::exposition::is_shown(sum, bits, shown.1),
        text == crate::exposition::header_text(
            key.name,
            "histogram"@,
            crate::metric::unit_view(metrics[0].unit),
        ) + (key.name + "_count"@ + crate::text::label_set_text(key.labels) + seq![' '] + shown.0
            + seq!['\n'] + (key.name + "_sum"@ + crate::text::label_set_text(key.labels)
            + seq![' '] + shown.1 + seq!['\n'])) + seq!['\n'] + crate::exposition::meta_text(0),
{
    assert forall|i: int| 0 <= i < metrics.len() implies states[0].key_of(#[trigger] metrics[i])
        == key && metrics[i].kind == MetricKind::Histogram && suits(
        MetricKind::Histogram,
        metrics[i].value,
    ) by {}
    law_fitting_samples_are_all_taken(states, metrics, key, MetricKind::Histogram);
    crate::laws::law_histogram_adds_up(states, metrics, key);
    let registry = states.last().registry;
    let series = registry.series[key];
    let number = lemma_one_series_text(registry, key, widen, bits, text);
    let value = choose|value: N| #[trigger]
        crate::exposition::is_reading(series.value, widen, value) && crate::exposition::is_shown(
            value,
            bits,
            number,
        );
    law_reading(series.value, widen, value);
    let digits = law_histogram_lines(key, series.value->count, series.value->sum, number);
    reveal_strlit("\n");
    assert("\n"@ =~= seq!['\n']);
    assert(crate::laws::is_running_sum(crate::laws::observed_sums(metrics), value));
    (digits, number)
}

/// A fresh sink that is given samples of one gauge renders its header, one line
/// with the last sample, and the meta-metric at zero.
pub proof fn law_gauge_text<
    N: Copy + Default + Add<Output = N> + Display,
    W: Fn(i64) -> N,
    B: Fn(N) -> u64,
>(
    states: Seq<SinkModel<N>>,
    metrics: Seq<MetricPoint<N>>,
    key: KeyModel,
    widen: &W,
    bits: &B,
    text: Seq<char>,
) -> (number: Seq<char>)
    requires
        crate::laws::is_run(states, metrics),
        states[0].registry == RegistryModel::<N>::fresh(),
        metrics.len() > 0,
        forall|i: int|
            0 <= i < metrics.len() ==> states[0].key_of(#[trigger] metrics[i]) == key
                && metrics[i].kind == MetricKind::Gauge && !(metrics[i].value is Histogram),
        crate::exposition::is_exposition(states.last().registry, widen, bits, text),
    ensures
        metrics.last().value matches MetricValue::F64 { value } ==> crate::exposition::is_shown(
            value,
            bits,
            number,
        ),
        metrics.last().value matches MetricValue::I64 { value } ==> exists|wide: N| #[trigger]
            call_ensures(widen, (value,), wide) && crate::exposition::is_shown(wide, bits, number),
        text == crate::exposition::header_text(
            key.name,
            "gauge"@,
            crate::metric::unit_view(metrics[0].unit),
        ) + (key.name + crate::text::label_set_text(key.labels) + seq![' '] + number + seq!['\n'])
            + seq!['\n'] + crate::exposition::meta_text(0),
{
    assert forall|i: int| 0 <= i < metrics.len() implies states[0].key_of(#[trigger] metrics[i])
        == key && metrics[i].kind == MetricKind::Gauge && suits(
        MetricKind::Gauge,
        metrics[i].value,
    ) by {}
    law_fitting_samples_are_all_taken(states, metrics, key, MetricKind::Gauge);
    crate::laws::law_gauge_holds_last_sample(states, metrics, key);
    let registry = states.last().registry;
    let series = registry.series[key];
    let number = lemma_one_series_text(registry, key, widen, bits, text);
    let value = choose|value: N| #[trigger]
        crate::exposition::is_reading(series.value, widen, value) && crate::exposition::is_shown(
            value,
            bits,
            number,
        );
    law_reading(series.value, widen, value);
    law_plain_lines(key, value, 0, series.value->last, number);
    reveal_strlit("\n");
    assert("\n"@ =~= seq!['\n']);
    number
}

} // verus!
