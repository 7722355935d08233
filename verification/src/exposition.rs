//! The Prometheus text-exposition format, version 0.0.4.
use core::fmt::Display;
use core::ops::Add;

use vstd::prelude::*;
use vstd::string::StringExecFns;

use crate::number::{format_count, format_float};
use crate::registry::{Registry, RegistryModel};
use crate::series::{GaugeReading, KeyModel, Series, SeriesKey, SeriesModel, SeriesValue};
use crate::text::format_label_set;

verus! {

/// The lines ahead of a series: `# HELP`, `# TYPE`, and `# UNIT` where the
/// series has a unit.
pub open spec fn header_text(
    name: Seq<char>,
    kind: Seq<char>,
    unit: Option<Seq<char>>,
) -> Seq<char> {
    let help = "# HELP "@ + name + " "@ + kind + " metric.\n"@;
    let both = help + "# TYPE "@ + name + " "@ + kind + "\n"@;
    match unit {
        Some(u) => both + "# UNIT "@ + name + " "@ + u + "\n"@,
        None => both,
    }
}

/// One sample line.
pub open spec fn sample_line(
    name: Seq<char>,
    suffix: Seq<char>,
    labels: Seq<(Seq<char>, Seq<char>)>,
    number: Seq<char>,
) -> Seq<char> {
    name + suffix + crate::text::label_set_text(labels) + " "@ + number + "\n"@
}

/// The sample lines of a series, where `number` is the text of its
/// floating-point value: one line, or `_count` and `_sum` for a histogram.
pub open spec fn samples_text<N>(
    key: KeyModel,
    value: SeriesValue<N>,
    number: Seq<char>,
) -> Seq<char> {
    match value {
        SeriesValue::Histogram { count, .. } => {
            sample_line(key.name, "_count"@, key.labels, crate::number::decimal(count as nat))
                + sample_line(key.name, "_sum"@, key.labels, number)
        },
        _ => sample_line(key.name, ""@, key.labels, number),
    }
}

/// A series in the exposition: its header, its samples and an empty line.
pub open spec fn series_text<N>(
    key: KeyModel,
    series: SeriesModel<N>,
    number: Seq<char>,
) -> Seq<char> {
    header_text(key.name, series.kind.name(), series.unit) + samples_text(
        key,
        series.value,
        number,
    ) + "\n"@
}

/// The series one after the other.
pub open spec fn all_series_text<N>(
    listing: Seq<(KeyModel, SeriesModel<N>)>,
    numbers: Seq<Seq<char>>,
) -> Seq<char>
    decreases listing.len(),
{
    if listing.len() == 0 {
        Seq::empty()
    } else {
        all_series_text(listing.drop_last(), numbers) + series_text(
            listing.last().0,
            listing.last().1,
            numbers[listing.len() - 1],
        )
    }
}

/// The meta-metric that counts the dropped samples.
pub open spec fn meta_text(rejected: u64) -> Seq<char> {
    "# HELP mcpg_prometheus_sink_kind_mismatch_total Samples dropped because the metric kind did not match the established series kind.\n"@
        + "# TYPE mcpg_prometheus_sink_kind_mismatch_total counter\n"@
        + "mcpg_prometheus_sink_kind_mismatch_total "@ + crate::number::decimal(rejected as nat)
        + "\n"@
}

impl<N> RegistryModel<N> {
    /// The series in the order of their keys.
    pub open spec fn listing(self) -> Seq<(KeyModel, SeriesModel<N>)> {
        crate::sorted_map::listing_of::<SeriesKey, SeriesModel<N>>(self.series)
    }

    /// The exposition of the registry, where `numbers` are the texts of the
    /// series' floating-point values.
    pub open spec fn exposition(self, numbers: Seq<Seq<char>>) -> Seq<char> {
        all_series_text(self.listing(), numbers) + meta_text(self.rejected)
    }
}

/// `text` is the exposition's text for `value`, where `bits` gives the bits of
/// a floating-point value.
pub open spec fn is_shown<N: Display, B: Fn(N) -> u64>(
    value: N,
    bits: &B,
    text: Seq<char>,
) -> bool {
    exists|b: u64| #[trigger]
        call_ensures(bits, (value,), b) && crate::number::is_float_text(value, b, text)
}

/// `value` is the number that a series shows, where `widen` gives the
/// floating-point value of an integer: the sum of both parts of a counter, the
/// last sample of a gauge, the sum of a histogram.
pub open spec fn is_reading<N: Copy + Add<Output = N>, W: Fn(i64) -> N>(
    series: SeriesValue<N>,
    widen: &W,
    value: N,
) -> bool {
    match series {
        SeriesValue::Counter { sum_f64, sum_i64 } => exists|wide: N| #[trigger]
            call_ensures(widen, (sum_i64,), wide) && call_ensures(N::add, (sum_f64, wide), value),
        SeriesValue::Gauge { last: GaugeReading::F64 { value: last } } => value == last,
        SeriesValue::Gauge { last: GaugeReading::I64 { value: last } } => call_ensures(
            widen,
            (last,),
            value,
        ),
        SeriesValue::Histogram { sum, .. } => value == sum,
    }
}

/// The number that a series shows can be computed: `widen` takes its integer,
/// and both parts of a counter can be added. The latter holds of any two
/// floating-point numbers.
pub open spec fn is_readable<N: Copy + Add<Output = N>, W: Fn(i64) -> N>(
    series: SeriesValue<N>,
    widen: &W,
) -> bool {
    match series {
        SeriesValue::Counter { sum_f64, sum_i64 } => {
            &&& call_requires(widen, (sum_i64,))
            &&& forall|wide: N| #[trigger]
                call_ensures(widen, (sum_i64,), wide) ==> call_requires(N::add, (sum_f64, wide))
        },
        SeriesValue::Gauge { last: GaugeReading::I64 { value } } => call_requires(widen, (value,)),
        _ => true,
    }
}

/// The number of every series can be computed.
pub open spec fn is_readable_registry<N: Copy + Add<Output = N>, W: Fn(i64) -> N>(
    registry: RegistryModel<N>,
    widen: &W,
) -> bool {
    forall|key: KeyModel| #[trigger]
        registry.series.contains_key(key) ==> is_readable(registry.series[key].value, widen)
}

/// `text` is the text of the number that a series shows.
pub open spec fn is_reading_text<
    N: Copy + Add<Output = N> + Display,
    W: Fn(i64) -> N,
    B: Fn(N) -> u64,
>(series: SeriesValue<N>, widen: &W, bits: &B, text: Seq<char>) -> bool {
    exists|value: N| #[trigger]
        is_reading(series, widen, value) && is_shown(value, bits, text)
}

/// `numbers` are the texts of the numbers that the series of a registry show.
pub open spec fn are_reading_texts<
    N: Copy + Add<Output = N> + Display,
    W: Fn(i64) -> N,
    B: Fn(N) -> u64,
>(registry: RegistryModel<N>, widen: &W, bits: &B, numbers: Seq<Seq<char>>) -> bool {
    let listing = registry.listing();
    &&& numbers.len() == listing.len()
    &&& forall|i: int|
        0 <= i < listing.len() ==> is_reading_text(
            listing[i].1.value,
            widen,
            bits,
            #[trigger] numbers[i],
        )
}

/// `text` is an exposition of the registry, with the numbers that its series
/// show.
pub open spec fn is_exposition<
    N: Copy + Add<Output = N> + Display,
    W: Fn(i64) -> N,
    B: Fn(N) -> u64,
>(registry: RegistryModel<N>, widen: &W, bits: &B, text: Seq<char>) -> bool {
    exists|numbers: Seq<Seq<char>>| #[trigger]
        are_reading_texts(registry, widen, bits, numbers) && text == registry.exposition(numbers)
}

/// Addition, `widen`, `bits` and `Display` each give one result, except that a
/// sum may be any of the values that are no number, and so may the bits of such
/// a value. This holds of floating-point numbers.
pub open spec fn reads_as_one<
    N: Copy + Add<Output = N> + Display,
    W: Fn(i64) -> N,
    B: Fn(N) -> u64,
>(widen: &W, bits: &B) -> bool {
    &&& forall|a: N, b: N, r: N, s: N| #[trigger]
        call_ensures(N::add, (a, b), r) && #[trigger] call_ensures(N::add, (a, b), s)
            ==> crate::alike::numbers_alike(r, s, bits)
    &&& forall|i: i64, r: N, s: N| #[trigger]
        call_ensures(widen, (i,), r) && #[trigger] call_ensures(widen, (i,), s) ==> r == s
    &&& forall|x: N, r: u64, s: u64| #[trigger]
        call_ensures(bits, (x,), r) && #[trigger] call_ensures(bits, (x,), s) ==> r == s || (
        crate::number::is_nan(r) && crate::number::is_nan(s))
    &&& forall|x: N, r: String, s: String| #[trigger]
        vstd::string::to_string_from_display_ensures::<N>(&x, r)
            && #[trigger] vstd::string::to_string_from_display_ensures::<N>(&x, s) ==> r@ == s@
}

/// Alike numbers have one text.
pub proof fn lemma_alike_numbers_have_one_text<
    N: Copy + Add<Output = N> + Display,
    W: Fn(i64) -> N,
    B: Fn(N) -> u64,
>(x: N, y: N, widen: &W, bits: &B, a: Seq<char>, b: Seq<char>)
    requires
        reads_as_one(widen, bits),
        crate::alike::numbers_alike(x, y, bits),
        is_shown(x, bits, a),
        is_shown(y, bits, b),
    ensures
        a == b,
{
    let p = choose|p: u64| #[trigger]
        call_ensures(bits, (x,), p) && crate::number::is_float_text(x, p, a);
    let q = choose|q: u64| #[trigger]
        call_ensures(bits, (y,), q) && crate::number::is_float_text(y, q, b);
    assert(p == q || (crate::number::is_nan(p) && crate::number::is_nan(q)));
    let r = choose|r: String| #[trigger]
        vstd::string::to_string_from_display_ensures::<N>(&x, r) && a == crate::number::float_text(
            p,
            r@,
        );
    let s = choose|s: String| #[trigger]
        vstd::string::to_string_from_display_ensures::<N>(&y, s) && b == crate::number::float_text(
            q,
            s@,
        );
    if !crate::number::is_nan(p) {
        assert(x == y);
        assert(r@ == s@);
    }
}

proof fn lemma_one_reading_text<
    N: Copy + Add<Output = N> + Display,
    W: Fn(i64) -> N,
    B: Fn(N) -> u64,
>(series: SeriesValue<N>, widen: &W, bits: &B, a: Seq<char>, b: Seq<char>)
    requires
        reads_as_one(widen, bits),
        is_reading_text(series, widen, bits, a),
        is_reading_text(series, widen, bits, b),
    ensures
        a == b,
{
    let x = choose|x: N| #[trigger]
        is_reading(series, widen, x) && is_shown(x, bits, a);
    let y = choose|y: N| #[trigger]
        is_reading(series, widen, y) && is_shown(y, bits, b);
    assert(crate::alike::numbers_alike(x, y, bits));
    lemma_alike_numbers_have_one_text(x, y, widen, bits, a, b);
}

/// The texts of the numbers that the series of one registry show are the same.
pub proof fn lemma_one_number_sequence<
    N: Copy + Add<Output = N> + Display,
    W: Fn(i64) -> N,
    B: Fn(N) -> u64,
>(registry: RegistryModel<N>, widen: &W, bits: &B, a: Seq<Seq<char>>, b: Seq<Seq<char>>)
    requires
        reads_as_one(widen, bits),
        are_reading_texts(registry, widen, bits, a),
        are_reading_texts(registry, widen, bits, b),
    ensures
        a == b,
{
    assert forall|i: int| 0 <= i < a.len() implies a[i] == b[i] by {
        lemma_one_reading_text(registry.listing()[i].1.value, widen, bits, a[i], b[i]);
    }
    assert(a =~= b);
}

/// Rendering is a snapshot: one state of the registry has one exposition, however
/// often and by whichever function it is rendered.
pub proof fn law_one_state_has_one_text<
    N: Copy + Add<Output = N> + Display,
    W: Fn(i64) -> N,
    B: Fn(N) -> u64,
>(registry: RegistryModel<N>, widen: &W, bits: &B, a: Seq<char>, b: Seq<char>)
    requires
        reads_as_one(widen, bits),
        is_exposition(registry, widen, bits, a),
        is_exposition(registry, widen, bits, b),
    ensures
        a == b,
{
    let m = choose|m: Seq<Seq<char>>| #[trigger]
        are_reading_texts(registry, widen, bits, m) && a == registry.exposition(m);
    let n = choose|n: Seq<Seq<char>>| #[trigger]
        are_reading_texts(registry, widen, bits, n) && b == registry.exposition(n);
    lemma_one_number_sequence(registry, widen, bits, m, n);
}

/// The texts of a sequence of strings.
pub open spec fn string_views(strings: Seq<String>) -> Seq<Seq<char>> {
    strings.map_values(|s: String| s@)
}

/// Writes the lines ahead of a series.
fn format_header(name: &String, kind: &str, unit: &Option<String>) -> (text: String)
    ensures
        text@ == header_text(name@, kind@, crate::metric::unit_view(*unit)),
{
    let mut text = "# HELP ".to_owned();
    text.append(name.as_str());
    text.append(" ");
    text.append(kind);
    text.append(" metric.\n");
    text.append("# TYPE ");
    text.append(name.as_str());
    text.append(" ");
    text.append(kind);
    text.append("\n");
    if let Some(unit) = unit {
        text.append("# UNIT ");
        text.append(name.as_str());
        text.append(" ");
        text.append(unit.as_str());
        text.append("\n");
    }
    text
}

/// Writes one sample line.
fn format_sample(key: &SeriesKey, suffix: &str, number: &str) -> (text: String)
    ensures
        text@ == sample_line(key@.name, suffix@, key@.labels, number@),
{
    let mut text = key.name.clone();
    text.append(suffix);
    let labels = format_label_set(key.labels.as_slice());
    text.append(labels.as_str());
    text.append(" ");
    text.append(number);
    text.append("\n");
    text
}

/// Writes one series, given the text of its floating-point value.
pub fn format_series<N>(key: &SeriesKey, series: &Series<N>, number: &str) -> (text: String)
    ensures
        text@ == series_text(key@, series@, number@),
{
    let mut text = format_header(&key.name, series.kind.label(), &series.unit);
    match &series.value {
        SeriesValue::Histogram { count, .. } => {
            let count_text = format_count(*count);
            let mut samples = format_sample(key, "_count", count_text.as_str());
            let sum = format_sample(key, "_sum", number);
            samples.append(sum.as_str());
            text.append(samples.as_str());
        },
        _ => {
            let sample = format_sample(key, "", number);
            text.append(sample.as_str());
        },
    }
    text.append("\n");
    text
}

/// Writes the meta-metric that counts the dropped samples.
fn format_meta(rejected: u64) -> (text: String)
    ensures
        text@ == meta_text(rejected),
{
    let mut text =
        "# HELP mcpg_prometheus_sink_kind_mismatch_total Samples dropped because the metric kind did not match the established series kind.\n".to_owned();
    text.append("# TYPE mcpg_prometheus_sink_kind_mismatch_total counter\n");
    text.append("mcpg_prometheus_sink_kind_mismatch_total ");
    let count = format_count(rejected);
    text.append(count.as_str());
    text.append("\n");
    text
}

impl<N> Registry<N> {
    /// Writes the exposition, given the texts of the series' floating-point
    /// values in the order of the series.
    pub fn render_with(&self, numbers: &Vec<String>) -> (text: String)
        requires
            numbers@.len() == self@.listing().len(),
        ensures
            text@ == self@.exposition(string_views(numbers@)),
            self@.series.dom().finite(),
            crate::sorted_map::is_listing::<SeriesKey, SeriesModel<N>>(
                self@.series,
                self@.listing(),
            ),
            self@.coherent(),
    {
        let ghost listing = self@.listing();
        let ghost views = string_views(numbers@);
        let series = self.series();
        let count: usize = series.len();
        let mut text = String::new();
        let mut i: usize = 0;
        assert(listing.take(0) =~= Seq::empty());
        while i < count
            invariant
                i <= count,
                count == listing.len(),
                count == numbers@.len(),
                series@ == self@.series,
                listing == self@.listing(),
                views == string_views(numbers@),
                text@ == all_series_text(listing.take(i as int), views),
            decreases count - i,
        {
            let entry = series.entry(i);
            let block = format_series(&entry.0, &entry.1, numbers[i].as_str());
            text.append(block.as_str());
            proof {
                let taken = listing.take(i + 1);
                assert(taken.drop_last() =~= listing.take(i as int));
                assert(taken.last() == listing[i as int]);
                assert(entry@ == listing[i as int]);
                assert(views[i as int] == numbers@[i as int]@);
            }
            i += 1;
        }
        assert(listing.take(i as int) =~= listing);
        let meta = format_meta(self.rejected());
        text.append(meta.as_str());
        text
    }
}

/// Writes the number that a series shows.
fn format_reading<N: Copy + Add<Output = N> + Display, W: Fn(i64) -> N, B: Fn(N) -> u64>(
    series: &SeriesValue<N>,
    widen: &W,
    bits: &B,
) -> (text: String)
    requires
        is_readable(*series, widen),
        forall|x: N| #[trigger] call_requires(bits, (x,)),
    ensures
        is_reading_text(*series, widen, bits, text@),
{
    let value = match series {
        SeriesValue::Counter { sum_f64, sum_i64 } => {
            let wide = widen(*sum_i64);
            let total = *sum_f64 + wide;
            assert(is_reading(*series, widen, total));
            total
        },
        SeriesValue::Gauge { last: GaugeReading::F64 { value } } => *value,
        SeriesValue::Gauge { last: GaugeReading::I64 { value } } => widen(*value),
        SeriesValue::Histogram { sum, .. } => *sum,
    };
    assert(is_reading(*series, widen, value));
    let text = format_float(value, bits(value));
    assert(is_shown(value, bits, text@));
    text
}

impl<N: Copy + Add<Output = N> + Display> Registry<N> {
    /// Writes the exposition. `widen` gives the floating-point value of an
    /// integer, `bits` the IEEE 754 bits of a floating-point value.
    pub fn render<W: Fn(i64) -> N, B: Fn(N) -> u64>(&self, widen: &W, bits: &B) -> (text: String)
        requires
            is_readable_registry(self@, widen),
            forall|x: N| #[trigger] call_requires(bits, (x,)),
        ensures
            is_exposition(self@, widen, bits, text@),
            reads_as_one(widen, bits) ==> forall|other: Seq<char>| #[trigger]
                is_exposition(self@, widen, bits, other) ==> other == text@,
            self@.series.dom().finite(),
            crate::sorted_map::is_listing::<SeriesKey, SeriesModel<N>>(
                self@.series,
                self@.listing(),
            ),
            self@.coherent(),
    {
        let ghost listing = self@.listing();
        let series = self.series();
        let count: usize = series.len();
        let mut numbers: Vec<String> = Vec::new();
        let mut i: usize = 0;
        while i < count
            invariant
                i <= count,
                count == listing.len(),
                series@ == self@.series,
                listing == self@.listing(),
                numbers@.len() == i,
                crate::sorted_map::is_listing::<SeriesKey, SeriesModel<N>>(self@.series, listing),
                is_readable_registry(self@, widen),
                forall|x: N| #[trigger] call_requires(bits, (x,)),
                forall|j: int|
                    0 <= j < i ==> is_reading_text(
                        listing[j].1.value,
                        widen,
                        bits,
                        #[trigger] numbers@[j]@,
                    ),
            decreases count - i,
        {
            let entry = series.entry(i);
            assert(entry@ == listing[i as int]);
            assert(self@.series.contains_key(listing[i as int].0));
            let number = format_reading(&entry.1.value, widen, bits);
            numbers.push(number);
            i += 1;
        }
        let ghost views = string_views(numbers@);
        assert forall|j: int| 0 <= j < listing.len() implies is_reading_text(
            listing[j].1.value,
            widen,
            bits,
            #[trigger] views[j],
        ) by {
            assert(views[j] == numbers@[j]@);
        }
        assert(are_reading_texts(self@, widen, bits, views));
        let text = self.render_with(&numbers);
        proof {
            assert(is_exposition(self@, widen, bits, text@));
            if reads_as_one(widen, bits) {
                assert forall|other: Seq<char>| #[trigger]
                    is_exposition(self@, widen, bits, other) implies other == text@ by {
                    law_one_state_has_one_text(self@, widen, bits, other, text@);
                }
            }
        }
        text
    }
}

} // verus!
