//! What holds of the texts that a sink renders.
use core::fmt::Display;
use core::ops::Add;

use vstd::prelude::*;

use crate::metric::{MetricKind, MetricPoint, MetricValue};
use crate::registry::RegistryModel;
use crate::series::{KeyModel, SeriesKey, SeriesModel, SeriesValue};
use crate::sink::{PrometheusSinkConfig, SinkModel};

verus! {

/// The exposition of a sink that has seen no sample is the meta-metric, at
/// zero.
pub proof fn law_fresh_exposition<N>(config: PrometheusSinkConfig, numbers: Seq<Seq<char>>)
    ensures
        SinkModel::<N>::configured(config).registry.exposition(numbers)
            == crate::exposition::meta_text(0),
{
    let registry = SinkModel::<N>::configured(config).registry;
    let none = Seq::<(KeyModel, SeriesModel<N>)>::empty();
    assert(crate::sorted_map::is_listing::<SeriesKey, SeriesModel<N>>(registry.series, none));
    crate::sorted_map::lemma_listing_unique::<SeriesKey, SeriesModel<N>>(registry.series, none);
    assert(registry.exposition(numbers) =~= crate::exposition::meta_text(0));
}

/// `whole` has `part` in it.
pub open spec fn has_part(whole: Seq<char>, part: Seq<char>) -> bool {
    exists|before: Seq<char>, after: Seq<char>| whole == #[trigger] (before + part + after)
}

proof fn lemma_series_has_part<N>(
    listing: Seq<(KeyModel, SeriesModel<N>)>,
    numbers: Seq<Seq<char>>,
    i: int,
)
    requires
        0 <= i < listing.len(),
    ensures
        has_part(
            crate::exposition::all_series_text(listing, numbers),
            crate::exposition::series_text(listing[i].0, listing[i].1, numbers[i]),
        ),
    decreases listing.len(),
{
    let whole = crate::exposition::all_series_text(listing, numbers);
    let fewer = crate::exposition::all_series_text(listing.drop_last(), numbers);
    let part = crate::exposition::series_text(listing[i].0, listing[i].1, numbers[i]);
    let last = crate::exposition::series_text(
        listing.last().0,
        listing.last().1,
        numbers[listing.len() - 1],
    );
    if i == listing.len() - 1 {
        assert(whole =~= fewer + part + Seq::<char>::empty());
    } else {
        lemma_series_has_part(listing.drop_last(), numbers, i);
        let (before, after) = choose|before: Seq<char>, after: Seq<char>|
            fewer == #[trigger] (before + part + after);
        assert(whole =~= before + part + (after + last));
    }
}

/// Every series is rendered, with its header ahead of its samples.
pub proof fn law_every_series_is_rendered<N>(
    registry: RegistryModel<N>,
    numbers: Seq<Seq<char>>,
    key: KeyModel,
)
    requires
        registry.series.dom().finite(),
        registry.series.contains_key(key),
    ensures
        exists|i: int|
            0 <= i < registry.listing().len() && #[trigger] registry.listing()[i] == (
                key,
                registry.series[key],
            ) && has_part(
                registry.exposition(numbers),
                crate::exposition::series_text(key, registry.series[key], numbers[i]),
            ),
{
    let listing = registry.listing();
    let all = crate::exposition::all_series_text(listing, numbers);
    let meta = crate::exposition::meta_text(registry.rejected);
    crate::sorted_map::lemma_finite_listing::<SeriesKey, SeriesModel<N>>(registry.series);
    let i = choose|i: int| 0 <= i < listing.len() && #[trigger] listing[i].0 == key;
    assert(registry.series.contains_key(listing[i].0));
    assert(listing[i] == (key, registry.series[key]));
    lemma_series_has_part(listing, numbers, i);
    let part = crate::exposition::series_text(key, registry.series[key], numbers[i]);
    let (before, after) = choose|before: Seq<char>, after: Seq<char>|
        all == #[trigger] (before + part + after);
    assert(registry.exposition(numbers) =~= before + part + (after + meta));
}

/// Every exposition ends with the meta-metric, whatever its count.
pub proof fn law_meta_metric_is_always_rendered<N>(
    registry: RegistryModel<N>,
    numbers: Seq<Seq<char>>,
)
    ensures
        ({
            let text = registry.exposition(numbers);
            let meta = crate::exposition::meta_text(registry.rejected);
            &&& text.len() >= meta.len()
            &&& text.skip(text.len() - meta.len()) == meta
        }),
{
    let text = registry.exposition(numbers);
    let meta = crate::exposition::meta_text(registry.rejected);
    assert(text.skip(text.len() - meta.len()) =~= meta);
}

/// A sample is one line: where the name, the label names and the number hold no
/// newline, the only newline of its text ends it, whatever the label values
/// hold.
pub proof fn law_sample_is_one_line(
    name: Seq<char>,
    suffix: Seq<char>,
    labels: Seq<(Seq<char>, Seq<char>)>,
    number: Seq<char>,
)
    requires
        !name.contains('\n'),
        !suffix.contains('\n'),
        forall|i: int| 0 <= i < labels.len() ==> !(#[trigger] labels[i]).0.contains('\n'),
        !number.contains('\n'),
    ensures
        crate::exposition::sample_line(name, suffix, labels, number).len() > 0,
        crate::exposition::sample_line(name, suffix, labels, number).last() == '\n',
        !crate::exposition::sample_line(name, suffix, labels, number).drop_last().contains('\n'),
{
    reveal_strlit(" ");
    reveal_strlit("\n");
    crate::text::law_label_set_is_one_line(labels);
    let set = crate::text::label_set_text(labels);
    let line = crate::exposition::sample_line(name, suffix, labels, number);
    let body = name + suffix + set + " "@ + number;
    assert(line.drop_last() =~= body);
    assert forall|i: int| 0 <= i < body.len() implies body[i] != '\n' by {
        let a = name.len() as int;
        let b = a + suffix.len();
        let c = b + set.len();
        if i < a {
            assert(body[i] == name[i] && name.contains(name[i]));
        } else if i < b {
            assert(body[i] == suffix[i - a] && suffix.contains(suffix[i - a]));
        } else if i < c {
            assert(body[i] == set[i - b] && set.contains(set[i - b]));
        } else if i > c {
            assert(body[i] == number[i - c - 1] && number.contains(number[i - c - 1]));
        }
    }
}

/// The series of an exposition stand in the order of their names and labels,
/// each once.
pub proof fn law_series_are_in_order<N>(registry: RegistryModel<N>)
    requires
        registry.series.dom().finite(),
    ensures
        registry.listing().len() == registry.series.len(),
        forall|i: int, j: int|
            0 <= i < j < registry.listing().len() ==> crate::series::key_before(
                #[trigger] registry.listing()[i].0,
                #[trigger] registry.listing()[j].0,
            ),
{
    crate::sorted_map::lemma_finite_listing::<SeriesKey, SeriesModel<N>>(registry.series);
    crate::sorted_map::lemma_listing_len::<SeriesKey, SeriesModel<N>>(
        registry.series,
        registry.listing(),
    );
    assert forall|i: int, j: int|
        0 <= i < j < registry.listing().len() implies crate::series::key_before(
        #[trigger] registry.listing()[i].0,
        #[trigger] registry.listing()[j].0,
    ) by {
        assert(<SeriesKey as crate::sorted_map::Ranked>::before(
            registry.listing()[i].0,
            registry.listing()[j].0,
        ));
    }
}

/// A dropped sample leaves the series whatever text they can have, and counts
/// one more on the last line.
pub proof fn law_dropped_sample_keeps_the_series<
    N: Copy + Default + Add<Output = N> + Display,
    W: Fn(i64) -> N,
    B: Fn(N) -> u64,
>(
    pre: SinkModel<N>,
    metric: MetricPoint<N>,
    post: SinkModel<N>,
    widen: &W,
    bits: &B,
    series: Seq<char>,
)
    requires
        pre.emitted(metric, post),
        !pre.registry.accepts(pre.key_of(metric), metric),
    ensures
        crate::exposition::is_exposition(
            pre.registry,
            widen,
            bits,
            series + crate::exposition::meta_text(pre.registry.rejected),
        ) <==> crate::exposition::is_exposition(
            post.registry,
            widen,
            bits,
            series + crate::exposition::meta_text(
                crate::series::saturating_count(pre.registry.rejected, 1),
            ),
        ),
{
    let before = series + crate::exposition::meta_text(pre.registry.rejected);
    let after = series + crate::exposition::meta_text(post.registry.rejected);
    assert(post.registry.listing() == pre.registry.listing());
    if crate::exposition::is_exposition(pre.registry, widen, bits, before) {
        let m = choose|m: Seq<Seq<char>>| #[trigger]
            crate::exposition::are_reading_texts(pre.registry, widen, bits, m) && before
                == pre.registry.exposition(m);
        lemma_same_ending(
            series,
            crate::exposition::all_series_text(pre.registry.listing(), m),
            crate::exposition::meta_text(pre.registry.rejected),
        );
        assert(crate::exposition::are_reading_texts(post.registry, widen, bits, m));
        assert(after == post.registry.exposition(m));
    }
    if crate::exposition::is_exposition(post.registry, widen, bits, after) {
        let m = choose|m: Seq<Seq<char>>| #[trigger]
            crate::exposition::are_reading_texts(post.registry, widen, bits, m) && after
                == post.registry.exposition(m);
        lemma_same_ending(
            series,
            crate::exposition::all_series_text(post.registry.listing(), m),
            crate::exposition::meta_text(post.registry.rejected),
        );
        assert(crate::exposition::are_reading_texts(pre.registry, widen, bits, m));
        assert(before == pre.registry.exposition(m));
    }
}

/// Two texts that are the same with one ending are the same without it.
proof fn lemma_same_ending(a: Seq<char>, b: Seq<char>, ending: Seq<char>)
    requires
        a + ending == b + ending,
    ensures
        a == b,
{
    assert((a + ending).len() == (b + ending).len());
    assert(a =~= (a + ending).take(a.len() as int));
    assert(b =~= (b + ending).take(b.len() as int));
}

/// A dropped sample changes the count on the last line and nothing else.
pub proof fn law_dropped_sample_changes_the_count_only<
    N: Copy + Default + Add<Output = N> + Display,
    W: Fn(i64) -> N,
    B: Fn(N) -> u64,
>(
    pre: SinkModel<N>,
    metric: MetricPoint<N>,
    post: SinkModel<N>,
    widen: &W,
    bits: &B,
    before: Seq<char>,
    after: Seq<char>,
)
    requires
        crate::exposition::reads_as_one(widen, bits),
        pre.emitted(metric, post),
        !pre.registry.accepts(pre.key_of(metric), metric),
        crate::exposition::is_exposition(pre.registry, widen, bits, before),
        crate::exposition::is_exposition(post.registry, widen, bits, after),
    ensures
        exists|series: Seq<char>|
            before == #[trigger] (series + crate::exposition::meta_text(pre.registry.rejected))
                && after == series + crate::exposition::meta_text(
                crate::series::saturating_count(pre.registry.rejected, 1),
            ),
{
    let m = choose|m: Seq<Seq<char>>| #[trigger]
        crate::exposition::are_reading_texts(pre.registry, widen, bits, m) && before
            == pre.registry.exposition(m);
    let n = choose|n: Seq<Seq<char>>| #[trigger]
        crate::exposition::are_reading_texts(post.registry, widen, bits, n) && after
            == post.registry.exposition(n);
    assert(post.registry.series == pre.registry.series);
    assert(post.registry.listing() == pre.registry.listing());
    assert(crate::exposition::are_reading_texts(pre.registry, widen, bits, n));
    crate::exposition::lemma_one_number_sequence(pre.registry, widen, bits, m, n);
    let series = crate::exposition::all_series_text(pre.registry.listing(), m);
    assert(before == series + crate::exposition::meta_text(pre.registry.rejected));
}

/// The listings of alike registries have the same keys, with alike series.
proof fn lemma_alike_listings<N, B: Fn(N) -> u64>(
    a: RegistryModel<N>,
    b: RegistryModel<N>,
    bits: &B,
)
    requires
        crate::alike::registries_alike(a, b, bits),
        a.series.dom().finite(),
    ensures
        a.listing().len() == b.listing().len(),
        forall|i: int|
            0 <= i < a.listing().len() ==> (#[trigger] a.listing()[i]).0 == b.listing()[i].0
                && crate::alike::series_alike(a.listing()[i].1, b.listing()[i].1, bits),
{
    crate::sorted_map::lemma_finite_listing::<SeriesKey, SeriesModel<N>>(a.series);
    let listing = a.listing();
    let other = Seq::new(listing.len(), |i: int| (listing[i].0, b.series[listing[i].0]));
    assert forall|i: int| 0 <= i < other.len() implies #[trigger] b.series.contains_key(other[i].0)
        && b.series[other[i].0] == other[i].1 by {
        assert(a.series.contains_key(listing[i].0));
    }
    assert forall|key: KeyModel| #[trigger] b.series.contains_key(key) implies exists|i: int|
        0 <= i < other.len() && #[trigger] other[i].0 == key by {
        assert(a.series.contains_key(key));
        let i = choose|i: int| 0 <= i < listing.len() && #[trigger] listing[i].0 == key;
        assert(other[i].0 == key);
    }
    assert(crate::sorted_map::is_listing::<SeriesKey, SeriesModel<N>>(b.series, other));
    crate::sorted_map::lemma_listing_unique::<SeriesKey, SeriesModel<N>>(b.series, other);
    assert forall|i: int| 0 <= i < listing.len() implies (#[trigger] listing[i]).0
        == b.listing()[i].0 && crate::alike::series_alike(
        listing[i].1,
        b.listing()[i].1,
        bits,
    ) by {
        assert(b.listing()[i] == other[i]);
        assert(a.series.contains_key(listing[i].0));
    }
}

/// Alike accumulators show one text.
proof fn lemma_alike_values_read_alike<
    N: Copy + Add<Output = N> + Display,
    W: Fn(i64) -> N,
    B: Fn(N) -> u64,
>(v: SeriesValue<N>, w: SeriesValue<N>, widen: &W, bits: &B, a: Seq<char>, b: Seq<char>)
    requires
        crate::exposition::reads_as_one(widen, bits),
        crate::alike::adds_alike::<N, B>(bits),
        crate::alike::values_alike(v, w, bits),
        crate::exposition::is_reading_text(v, widen, bits, a),
        crate::exposition::is_reading_text(w, widen, bits, b),
    ensures
        a == b,
{
    let x = choose|x: N| #[trigger]
        crate::exposition::is_reading(v, widen, x) && crate::exposition::is_shown(x, bits, a);
    let y = choose|y: N| #[trigger]
        crate::exposition::is_reading(w, widen, y) && crate::exposition::is_shown(y, bits, b);
    assert(crate::alike::numbers_alike(x, y, bits));
    crate::exposition::lemma_alike_numbers_have_one_text(x, y, widen, bits, a, b);
}

/// Series that are alike have one text.
proof fn lemma_alike_series_text<N, B: Fn(N) -> u64>(
    a: Seq<(KeyModel, SeriesModel<N>)>,
    b: Seq<(KeyModel, SeriesModel<N>)>,
    numbers: Seq<Seq<char>>,
    bits: &B,
)
    requires
        a.len() == b.len(),
        forall|i: int|
            0 <= i < a.len() ==> (#[trigger] a[i]).0 == b[i].0 && crate::alike::series_alike(
                a[i].1,
                b[i].1,
                bits,
            ),
    ensures
        crate::exposition::all_series_text(a, numbers) == crate::exposition::all_series_text(
            b,
            numbers,
        ),
    decreases a.len(),
{
    if a.len() > 0 {
        let last = a.len() - 1;
        assert(a[last].0 == b[last].0);
        assert forall|i: int| 0 <= i < a.drop_last().len() implies (#[trigger] a.drop_last()[i]).0
            == b.drop_last()[i].0 && crate::alike::series_alike(
            a.drop_last()[i].1,
            b.drop_last()[i].1,
            bits,
        ) by {
            assert(a.drop_last()[i] == a[i]);
        }
        lemma_alike_series_text(a.drop_last(), b.drop_last(), numbers, bits);
        assert(crate::exposition::series_text(a.last().0, a.last().1, numbers[last])
            == crate::exposition::series_text(b.last().0, b.last().1, numbers[last]));
    }
}

/// Registries that differ at most in which NaN they hold have one exposition.
pub proof fn law_alike_registries_have_one_text<
    N: Copy + Add<Output = N> + Display,
    W: Fn(i64) -> N,
    B: Fn(N) -> u64,
>(
    a: RegistryModel<N>,
    b: RegistryModel<N>,
    widen: &W,
    bits: &B,
    text_a: Seq<char>,
    text_b: Seq<char>,
)
    requires
        crate::exposition::reads_as_one(widen, bits),
        crate::alike::adds_alike::<N, B>(bits),
        crate::alike::registries_alike(a, b, bits),
        a.series.dom().finite(),
        crate::exposition::is_exposition(a, widen, bits, text_a),
        crate::exposition::is_exposition(b, widen, bits, text_b),
    ensures
        text_a == text_b,
{
    let m = choose|m: Seq<Seq<char>>| #[trigger]
        crate::exposition::are_reading_texts(a, widen, bits, m) && text_a == a.exposition(m);
    let n = choose|n: Seq<Seq<char>>| #[trigger]
        crate::exposition::are_reading_texts(b, widen, bits, n) && text_b == b.exposition(n);
    lemma_alike_listings(a, b, bits);
    assert forall|i: int| 0 <= i < m.len() implies m[i] == n[i] by {
        assert(a.listing()[i].0 == b.listing()[i].0);
        lemma_alike_values_read_alike(
            a.listing()[i].1.value,
            b.listing()[i].1.value,
            widen,
            bits,
            m[i],
            n[i],
        );
    }
    assert(m =~= n);
    lemma_alike_series_text(a.listing(), b.listing(), m, bits);
}

/// Individual observations and timestamps make no difference: sinks that are
/// alike stay alike, and have one text.
pub proof fn law_same_aggregates_render_alike<
    N: Copy + Default + Add<Output = N> + Display,
    W: Fn(i64) -> N,
    B: Fn(N) -> u64,
>(
    pre_a: SinkModel<N>,
    pre_b: SinkModel<N>,
    a: MetricPoint<N>,
    b: MetricPoint<N>,
    after_a: SinkModel<N>,
    after_b: SinkModel<N>,
    widen: &W,
    bits: &B,
    text_a: Seq<char>,
    text_b: Seq<char>,
)
    requires
        crate::exposition::reads_as_one(widen, bits),
        crate::alike::adds_alike::<N, B>(bits),
        crate::alike::defaults_alike::<N, B>(bits),
        crate::alike::sinks_alike(pre_a, pre_b, bits),
        crate::laws::same_aggregates(a, b),
        pre_a.emitted(a, after_a),
        pre_b.emitted(b, after_b),
        after_a.registry.series.dom().finite(),
        crate::exposition::is_exposition(after_a.registry, widen, bits, text_a),
        crate::exposition::is_exposition(after_b.registry, widen, bits, text_b),
    ensures
        crate::alike::sinks_alike(after_a, after_b, bits),
        text_a == text_b,
{
    crate::laws::law_alike_sinks_stay_alike(pre_a, pre_b, a, b, after_a, after_b, bits);
    law_alike_registries_have_one_text(
        after_a.registry,
        after_b.registry,
        widen,
        bits,
        text_a,
        text_b,
    );
}

/// Samples of different series, dropped ones included, leave alike sinks and one
/// text in either order.
pub proof fn law_either_order_renders_alike<
    N: Copy + Default + Add<Output = N> + Display,
    W: Fn(i64) -> N,
    B: Fn(N) -> u64,
>(
    pre_a: SinkModel<N>,
    pre_b: SinkModel<N>,
    a: MetricPoint<N>,
    b: MetricPoint<N>,
    after_a: SinkModel<N>,
    after_ab: SinkModel<N>,
    after_b: SinkModel<N>,
    after_ba: SinkModel<N>,
    widen: &W,
    bits: &B,
    text_ab: Seq<char>,
    text_ba: Seq<char>,
)
    requires
        crate::exposition::reads_as_one(widen, bits),
        crate::alike::adds_alike::<N, B>(bits),
        crate::alike::defaults_alike::<N, B>(bits),
        crate::alike::sinks_alike(pre_a, pre_b, bits),
        pre_a.key_of(a) != pre_a.key_of(b),
        pre_a.emitted(a, after_a),
        after_a.emitted(b, after_ab),
        pre_b.emitted(b, after_b),
        after_b.emitted(a, after_ba),
        after_ab.registry.series.dom().finite(),
        crate::exposition::is_exposition(after_ab.registry, widen, bits, text_ab),
        crate::exposition::is_exposition(after_ba.registry, widen, bits, text_ba),
    ensures
        crate::alike::sinks_alike(after_ab, after_ba, bits),
        text_ab == text_ba,
{
    crate::laws::law_series_commute(
        pre_a,
        pre_b,
        a,
        b,
        after_a,
        after_ab,
        after_b,
        after_ba,
        bits,
    );
    law_alike_registries_have_one_text(
        after_ab.registry,
        after_ba.registry,
        widen,
        bits,
        text_ab,
        text_ba,
    );
}

/// A whole number in decimal notation, with a minus sign where it is negative.
pub open spec fn signed_decimal(n: int) -> Seq<char> {
    if n < 0 {
        "-"@ + crate::number::decimal((-n) as nat)
    } else {
        crate::number::decimal(n as nat)
    }
}

/// The magnitude of a whole number is below the limit.
pub open spec fn is_small(n: int) -> bool {
    -crate::number::whole_limit() < n < crate::number::whole_limit()
}

/// Integers of small magnitude pass unchanged through `widen` and an addition to
/// the default number, and `bits` gives the bits of such a sum. This holds of
/// floating-point numbers, whose default is positive zero.
pub open spec fn keeps_integers<N: Copy + Default + Add<Output = N>, W: Fn(i64) -> N, B: Fn(N) -> u64>(
    widen: &W,
    bits: &B,
) -> bool {
    forall|i: i64, zero: N, wide: N, sum: N, b: u64|
        is_small(i as int) && #[trigger] call_ensures(N::default, (), zero)
            && #[trigger] call_ensures(widen, (i,), wide) && #[trigger] call_ensures(
            N::add,
            (zero, wide),
            sum,
        ) && #[trigger] call_ensures(bits, (sum,), b) ==> {
            &&& crate::number::has_magnitude(
                b,
                (if i < 0 {
                    -i
                } else {
                    i as int
                }) as nat,
            )
            &&& crate::number::is_negative(b) <==> i < 0
        }
}

/// Every sample is an integer sample.
pub open spec fn all_integers<N>(metrics: Seq<MetricPoint<N>>) -> bool {
    forall|i: int| 0 <= i < metrics.len() ==> (#[trigger] metrics[i]).value is I64
}

proof fn lemma_no_float_samples<N>(metrics: Seq<MetricPoint<N>>)
    requires
        all_integers(metrics),
    ensures
        crate::laws::float_samples(metrics).len() == 0,
    decreases metrics.len(),
{
    if metrics.len() > 0 {
        assert(metrics[metrics.len() - 1].value is I64);
        assert forall|i: int| 0 <= i < metrics.drop_last().len() implies (
        #[trigger] metrics.drop_last()[i]).value is I64 by {
            assert(metrics.drop_last()[i] == metrics[i]);
        }
        lemma_no_float_samples(metrics.drop_last());
    }
}

/// The number of a counter whose float part is the default and whose integer
/// part is small is written as that integer.
proof fn lemma_integer_reading<
    N: Copy + Default + Add<Output = N> + Display,
    W: Fn(i64) -> N,
    B: Fn(N) -> u64,
>(sum_f64: N, sum_i64: i64, widen: &W, bits: &B, text: Seq<char>)
    requires
        keeps_integers::<N, W, B>(widen, bits),
        call_ensures(N::default, (), sum_f64),
        is_small(sum_i64 as int),
        crate::exposition::is_reading_text(
            SeriesValue::Counter { sum_f64, sum_i64 },
            widen,
            bits,
            text,
        ),
    ensures
        text == signed_decimal(sum_i64 as int),
{
    let series = SeriesValue::Counter { sum_f64, sum_i64 };
    let sum = choose|sum: N| #[trigger]
        crate::exposition::is_reading(series, widen, sum) && crate::exposition::is_shown(
            sum,
            bits,
            text,
        );
    let wide = choose|wide: N| #[trigger]
        call_ensures(widen, (sum_i64,), wide) && call_ensures(N::add, (sum_f64, wide), sum);
    let b = choose|b: u64| #[trigger]
        call_ensures(bits, (sum,), b) && crate::number::is_float_text(sum, b, text);
    let shown = choose|shown: String| #[trigger]
        vstd::string::to_string_from_display_ensures::<N>(&sum, shown) && text
            == crate::number::float_text(b, shown@);
    let n = (if sum_i64 < 0 {
        -sum_i64
    } else {
        sum_i64 as int
    }) as nat;
    assert(crate::number::has_magnitude(b, n));
    crate::number::law_whole_numbers_have_no_point(b, n, shown@);
}

/// A counter that has taken in integers only, in whatever company of other
/// samples, holds their sum, and the default number beside it.
pub proof fn law_integer_counter_holds_sum<N: Copy + Default + Add<Output = N>>(
    states: Seq<SinkModel<N>>,
    metrics: Seq<MetricPoint<N>>,
    key: KeyModel,
)
    requires
        crate::laws::is_run(states, metrics),
        !states[0].registry.series.contains_key(key),
        crate::laws::taken_samples(states, metrics, key).len() > 0,
        crate::laws::taken_samples(states, metrics, key)[0].kind == MetricKind::Counter,
        all_integers(crate::laws::taken_samples(states, metrics, key)),
        forall|n: int|
            0 <= n <= crate::laws::taken_samples(states, metrics, key).len() ==> i64::MIN
                <= #[trigger] crate::laws::integer_total(
                crate::laws::taken_samples(states, metrics, key).take(n),
            ) <= i64::MAX,
    ensures
        states.last().registry.series.contains_key(key),
        states.last().registry.series[key].value matches SeriesValue::Counter { sum_f64, sum_i64 }
            && call_ensures(N::default, (), sum_f64) && sum_i64 == crate::laws::integer_total(
            crate::laws::taken_samples(states, metrics, key),
        ),
{
    let taken = crate::laws::taken_samples(states, metrics, key);
    crate::laws::law_counter_sums_integers(states, metrics, key);
    crate::laws::law_counter_sums_floats(states, metrics, key);
    lemma_no_float_samples(taken);
    let value = states.last().registry.series[key].value;
    assert(taken[0].value is I64);
    let zero = choose|zero: N| #[trigger]
        call_ensures(N::default, (), zero) && crate::laws::is_running_sum(
            seq![zero] + crate::laws::float_samples(taken),
            value->sum_f64,
        );
    assert(seq![zero] + crate::laws::float_samples(taken) =~= seq![zero]);
    let totals = choose|totals: Seq<N>| #[trigger]
        crate::laws::are_running_sums(seq![zero], totals) && totals.last() == value->sum_f64;
    assert(value->sum_f64 == zero);
}

/// The sample line of a counter that has taken in integers only, in whatever
/// company of other samples, shows their sum in decimal notation.
pub proof fn law_integer_counter_shows_sum<
    N: Copy + Default + Add<Output = N> + Display,
    W: Fn(i64) -> N,
    B: Fn(N) -> u64,
>(
    states: Seq<SinkModel<N>>,
    metrics: Seq<MetricPoint<N>>,
    key: KeyModel,
    widen: &W,
    bits: &B,
    number: Seq<char>,
)
    requires
        keeps_integers::<N, W, B>(widen, bits),
        crate::laws::is_run(states, metrics),
        !states[0].registry.series.contains_key(key),
        crate::laws::taken_samples(states, metrics, key).len() > 0,
        crate::laws::taken_samples(states, metrics, key)[0].kind == MetricKind::Counter,
        all_integers(crate::laws::taken_samples(states, metrics, key)),
        forall|n: int|
            0 <= n <= crate::laws::taken_samples(states, metrics, key).len() ==> i64::MIN
                <= #[trigger] crate::laws::integer_total(
                crate::laws::taken_samples(states, metrics, key).take(n),
            ) <= i64::MAX,
        is_small(crate::laws::integer_total(crate::laws::taken_samples(states, metrics, key))),
        crate::exposition::is_reading_text(
            states.last().registry.series[key].value,
            widen,
            bits,
            number,
        ),
    ensures
        states.last().registry.series.contains_key(key),
        number == signed_decimal(
            crate::laws::integer_total(crate::laws::taken_samples(states, metrics, key)),
        ),
        crate::exposition::samples_text(key, states.last().registry.series[key].value, number)
            == crate::exposition::sample_line(
            key.name,
            ""@,
            key.labels,
            signed_decimal(
                crate::laws::integer_total(crate::laws::taken_samples(states, metrics, key)),
            ),
        ),
{
    law_integer_counter_holds_sum(states, metrics, key);
    let value = states.last().registry.series[key].value;
    lemma_integer_reading(value->sum_f64, value->sum_i64, widen, bits, number);
}

/// A fresh sink that is given integer samples of one counter takes in each of
/// them, drops none and has no other series.
proof fn lemma_integer_counter_run<N: Copy + Default + Add<Output = N>>(
    states: Seq<SinkModel<N>>,
    metrics: Seq<MetricPoint<N>>,
    key: KeyModel,
)
    requires
        crate::laws::is_run(states, metrics),
        states[0].registry == RegistryModel::<N>::fresh(),
        all_integers(metrics),
        forall|i: int|
            0 <= i < metrics.len() ==> states[0].key_of(#[trigger] metrics[i]) == key
                && metrics[i].kind == MetricKind::Counter,
    ensures
        crate::laws::taken_samples(states, metrics, key) == metrics,
        states.last().registry.rejected == 0,
        forall|k: KeyModel| #[trigger]
            states.last().registry.series.contains_key(k) <==> metrics.len() > 0 && k == key,
    decreases metrics.len(),
{
    if metrics.len() > 0 {
        let before = states.drop_last();
        let fewer = metrics.drop_last();
        let last = metrics.len() - 1;
        crate::laws::lemma_run_step(states, metrics);
        assert forall|i: int| 0 <= i < fewer.len() implies (#[trigger] fewer[i]).value is I64
            && before[0].key_of(fewer[i]) == key && fewer[i].kind == MetricKind::Counter by {
            assert(fewer[i] == metrics[i]);
        }
        lemma_integer_counter_run(before, fewer, key);
        crate::laws::lemma_taken_prefix(states, before, fewer, key);
        crate::laws::law_configuration_stays(before, fewer);
        crate::laws::law_first_sample_establishes_series(before, fewer, key);
        assert(states[0].key_of(metrics[last]) == key);
        assert(before.last().key_of(metrics[last]) == key);
        assert(metrics[last].value is I64);
        if fewer.len() > 0 {
            assert(fewer[0] == metrics[0]);
        }
        assert(before.last().registry.accepts(key, metrics[last]));
        assert(fewer.push(metrics[last]) =~= metrics);
    }
}

/// A fresh sink that is given integer samples of one counter renders one series
/// with one sample line, and the meta-metric at zero. The line shows the number
/// of a counter that holds the samples' sum, and the default number beside it.
pub proof fn law_integer_counter_is_one_line<
    N: Copy + Default + Add<Output = N> + Display,
    W: Fn(i64) -> N,
    B: Fn(N) -> u64,
>(
    states: Seq<SinkModel<N>>,
    metrics: Seq<MetricPoint<N>>,
    key: KeyModel,
    widen: &W,
    bits: &B,
    text: Seq<char>,
) -> (number: Seq<char>)
    requires
        crate::laws::is_run(states, metrics),
        states[0].registry == RegistryModel::<N>::fresh(),
        metrics.len() > 0,
        all_integers(metrics),
        forall|i: int|
            0 <= i < metrics.len() ==> states[0].key_of(#[trigger] metrics[i]) == key
                && metrics[i].kind == MetricKind::Counter,
        forall|n: int|
            0 <= n <= metrics.len() ==> i64::MIN <= #[trigger] crate::laws::integer_total(
                metrics.take(n),
            ) <= i64::MAX,
        crate::exposition::is_exposition(states.last().registry, widen, bits, text),
    ensures
        text == crate::exposition::header_text(
            key.name,
            "counter"@,
            crate::metric::unit_view(metrics[0].unit),
        ) + crate::exposition::sample_line(key.name, ""@, key.labels, number) + "\n"@
            + crate::exposition::meta_text(0),
        exists|zero: N| #[trigger]
            call_ensures(N::default, (), zero) && crate::exposition::is_reading_text(
                SeriesValue::Counter {
                    sum_f64: zero,
                    sum_i64: crate::laws::integer_total(metrics) as i64,
                },
                widen,
                bits,
                number,
            ),
{
    let registry = states.last().registry;
    lemma_integer_counter_run(states, metrics, key);
    crate::laws::law_first_sample_establishes_series(states, metrics, key);
    let numbers = choose|numbers: Seq<Seq<char>>| #[trigger]
        crate::exposition::are_reading_texts(registry, widen, bits, numbers) && text
            == registry.exposition(numbers);
    let series = registry.series[key];
    let only = seq![(key, series)];
    assert(registry.series.contains_key(key));
    assert(only[0].0 == key);
    assert(crate::sorted_map::is_listing::<SeriesKey, SeriesModel<N>>(registry.series, only));
    crate::sorted_map::lemma_listing_unique::<SeriesKey, SeriesModel<N>>(registry.series, only);
    assert(registry.listing() == only);
    assert(numbers.len() == 1);
    assert(crate::exposition::is_reading_text(only[0].1.value, widen, bits, numbers[0]));
    law_integer_counter_holds_sum(states, metrics, key);
    assert(only.drop_last() =~= Seq::empty());
    assert(crate::exposition::all_series_text(only.drop_last(), numbers) =~= Seq::<char>::empty());
    assert(crate::exposition::all_series_text(only, numbers) =~= crate::exposition::series_text(
        key,
        series,
        numbers[0],
    ));
    assert(only.last() == (key, series));
    let zero = series.value->sum_f64;
    assert(series.value == (SeriesValue::Counter {
        sum_f64: zero,
        sum_i64: crate::laws::integer_total(metrics) as i64,
    }));
    assert(call_ensures(N::default, (), zero));
    numbers[0]
}

/// A fresh sink that is given integer samples of one counter renders one series,
/// with one sample line that shows their sum, and the meta-metric at zero.
pub proof fn law_integer_counter_text<
    N: Copy + Default + Add<Output = N> + Display,
    W: Fn(i64) -> N,
    B: Fn(N) -> u64,
>(
    states: Seq<SinkModel<N>>,
    metrics: Seq<MetricPoint<N>>,
    key: KeyModel,
    widen: &W,
    bits: &B,
    text: Seq<char>,
)
    requires
        keeps_integers::<N, W, B>(widen, bits),
        crate::laws::is_run(states, metrics),
        states[0].registry == RegistryModel::<N>::fresh(),
        metrics.len() > 0,
        all_integers(metrics),
        forall|i: int|
            0 <= i < metrics.len() ==> states[0].key_of(#[trigger] metrics[i]) == key
                && metrics[i].kind == MetricKind::Counter,
        forall|n: int|
            0 <= n <= metrics.len() ==> i64::MIN <= #[trigger] crate::laws::integer_total(
                metrics.take(n),
            ) <= i64::MAX,
        is_small(crate::laws::integer_total(metrics)),
        crate::exposition::is_exposition(states.last().registry, widen, bits, text),
    ensures
        text == crate::exposition::header_text(
            key.name,
            "counter"@,
            crate::metric::unit_view(metrics[0].unit),
        ) + crate::exposition::sample_line(
            key.name,
            ""@,
            key.labels,
            signed_decimal(crate::laws::integer_total(metrics)),
        ) + "\n"@ + crate::exposition::meta_text(0),
{
    let number = law_integer_counter_is_one_line(states, metrics, key, widen, bits, text);
    let total = crate::laws::integer_total(metrics) as i64;
    let zero = choose|zero: N| #[trigger]
        call_ensures(N::default, (), zero) && crate::exposition::is_reading_text(
            SeriesValue::Counter { sum_f64: zero, sum_i64: total },
            widen,
            bits,
            number,
        );
    lemma_integer_reading(zero, total, widen, bits, number);
}

} // verus!
