//! What a reader finds in the texts of numbers, labels and keys, and how texts
//! are ordered.
use core::fmt::Display;

use vstd::prelude::*;

use crate::series::{KeyModel, SeriesKey};

verus! {

/// `text` has the decimal digits of `n`, from the highest to that of the ones,
/// without leading zeros.
pub open spec fn has_digits_of(text: Seq<char>, n: nat) -> bool {
    &&& text.len() > 0
    &&& n < vstd::arithmetic::power::pow(10, text.len())
    &&& text.len() > 1 ==> vstd::arithmetic::power::pow(10, (text.len() - 1) as nat) <= n
    &&& forall|i: int|
        0 <= i < text.len() ==> (#[trigger] text[i]) as int == '0' as int + (n as int
            / vstd::arithmetic::power::pow(10, (text.len() - 1 - i) as nat)) % 10
}

/// A count is written with its decimal digits.
pub proof fn law_decimal_has_the_digits(n: nat)
    ensures
        has_digits_of(crate::number::decimal(n), n),
    decreases n,
{
    let text = crate::number::decimal(n);
    vstd::arithmetic::power::lemma_pow0(10);
    vstd::arithmetic::power::lemma_pow1(10);
    if n < 10 {
        assert(text.len() == 1);
        assert(text[0] as int == 48 + n);
        assert((n as int / 1) % 10 == n as int);
    } else {
        let q = n / 10;
        let before = crate::number::decimal(q);
        law_decimal_has_the_digits(q);
        let len = before.len();
        assert(text.len() == len + 1);
        vstd::arithmetic::power::lemma_pow_adds(10, 1, len);
        vstd::arithmetic::power::lemma_pow_adds(10, 1, (len - 1) as nat);
        assert(1 + (len - 1) as nat == len);
        assert(vstd::arithmetic::power::pow(10, len + 1) == 10 * vstd::arithmetic::power::pow(
            10,
            len,
        ));
        if len == 1 {
            assert(vstd::arithmetic::power::pow(10, len) == 10);
        }
        assert forall|i: int| 0 <= i < text.len() implies (#[trigger] text[i]) as int == '0' as int
            + (n as int / vstd::arithmetic::power::pow(10, (text.len() - 1 - i) as nat)) % 10 by {
            if i < len {
                assert(text[i] == before[i]);
                let e = (len - 1 - i) as nat;
                let p = vstd::arithmetic::power::pow(10, e);
                vstd::arithmetic::power::lemma_pow_positive(10, e);
                vstd::arithmetic::power::lemma_pow_adds(10, 1, e);
                assert(1 + e == (text.len() - 1 - i) as nat);
                vstd::arithmetic::div_mod::lemma_div_denominator(n as int, 10, p);
            } else {
                assert(text[i] as int == 48 + n % 10);
                assert(n as int / 1 == n as int);
            }
        }
    }
}

/// Two texts with the digits of one number are the same.
pub proof fn law_digits_are_unique(a: Seq<char>, b: Seq<char>, n: nat)
    requires
        has_digits_of(a, n),
        has_digits_of(b, n),
    ensures
        a == b,
{
    if a.len() < b.len() {
        vstd::arithmetic::power::lemma_pow_increases(10, a.len(), (b.len() - 1) as nat);
    } else if b.len() < a.len() {
        vstd::arithmetic::power::lemma_pow_increases(10, b.len(), (a.len() - 1) as nat);
    }
    assert(a =~= b);
}

/// The binary64 value with the bits `bits` is finite, and is `n` or `-n`. Both
/// sides are multiplied by the 1075th power of two.
pub open spec fn is_whole(bits: u64, n: nat) -> bool {
    let exponent = (bits as int / 0x10_0000_0000_0000) % 0x800;
    let fraction = bits as int % 0x10_0000_0000_0000;
    &&& exponent != 0x7ff
    &&& n * vstd::arithmetic::power2::pow2(1075) == if exponent == 0 {
        2 * fraction
    } else {
        (0x10_0000_0000_0000 + fraction) * vstd::arithmetic::power2::pow2(exponent as nat)
    }
}

proof fn lemma_whole_is_magnitude(bits: u64, n: nat)
    ensures
        is_whole(bits, n) <==> crate::number::has_magnitude(bits, n),
{
    let e = (bits as int / 0x10_0000_0000_0000) % 0x800;
    let f = bits as int % 0x10_0000_0000_0000;
    if e == 0 {
        let p = vstd::arithmetic::power2::pow2(1074);
        vstd::arithmetic::power2::lemma_pow2_unfold(1075);
        assert(n * (2 * p) == 2 * (n * p)) by (nonlinear_arith);
    } else if e < 1075 {
        let s = 0x10_0000_0000_0000 + f;
        let p = vstd::arithmetic::power2::pow2(e as nat);
        let q = vstd::arithmetic::power2::pow2((1075 - e) as nat);
        vstd::arithmetic::power2::lemma_pow2_pos(e as nat);
        vstd::arithmetic::power2::lemma_pow2_adds(e as nat, (1075 - e) as nat);
        assert(e as nat + (1075 - e) as nat == 1075);
        assert(n * (p * q) == p * (n * q)) by (nonlinear_arith);
        assert(s * p == p * s) by (nonlinear_arith);
        if p * (n * q) == p * s {
            vstd::arithmetic::mul::lemma_mul_equality_converse(p as int, n * q as int, s);
        }
    } else if e != 0x7ff {
        let s = 0x10_0000_0000_0000 + f;
        let p = vstd::arithmetic::power2::pow2(1075);
        let q = vstd::arithmetic::power2::pow2((e - 1075) as nat);
        vstd::arithmetic::power2::lemma_pow2_pos(1075);
        vstd::arithmetic::power2::lemma_pow2_adds(1075, (e - 1075) as nat);
        assert(1075 + (e - 1075) as nat == e as nat);
        assert(s * (p * q) == p * (s * q)) by (nonlinear_arith);
        assert(n * p == p * n) by (nonlinear_arith);
        if p * (s * q) == p * n {
            vstd::arithmetic::mul::lemma_mul_equality_converse(p as int, s * q as int, n as int);
        }
    }
}

/// What is no number, and what is infinite, is written as Prometheus expects it,
/// whatever `Display` gives.
pub proof fn law_special_numbers(bits: u64, shown: Seq<char>)
    requires
        (bits as int / 0x10_0000_0000_0000) % 0x800 == 0x7ff,
    ensures
        bits as int % 0x10_0000_0000_0000 != 0 ==> crate::number::float_text(bits, shown) == "NaN"@,
        bits as int % 0x10_0000_0000_0000 == 0 && bits < 0x8000_0000_0000_0000
            ==> crate::number::float_text(bits, shown) == "+Inf"@,
        bits as int % 0x10_0000_0000_0000 == 0 && bits >= 0x8000_0000_0000_0000
            ==> crate::number::float_text(bits, shown) == "-Inf"@,
{
}

/// A whole number below 10^15 is written with its digits, behind a minus sign
/// where the sign bit is set, whatever `Display` gives.
pub proof fn law_whole_numbers(bits: u64, n: nat, shown: Seq<char>)
    requires
        is_whole(bits, n),
        n < 1_000_000_000_000_000,
    ensures
        bits < 0x8000_0000_0000_0000 ==> has_digits_of(crate::number::float_text(bits, shown), n),
        bits >= 0x8000_0000_0000_0000 ==> {
            let text = crate::number::float_text(bits, shown);
            text.len() > 0 && text[0] == '-' && has_digits_of(text.drop_first(), n)
        },
{
    lemma_whole_is_magnitude(bits, n);
    law_decimal_has_the_digits(n);
    crate::number::law_whole_numbers_have_no_point(bits, n, shown);
    let text = crate::number::float_text(bits, shown);
    reveal_strlit("-");
    if bits >= 0x8000_0000_0000_0000 {
        assert(text == "-"@ + crate::number::decimal(n));
        assert(text.drop_first() =~= crate::number::decimal(n));
    }
}

/// Every other finite number is written as `Display` gives it.
pub proof fn law_other_numbers(bits: u64, shown: Seq<char>)
    requires
        (bits as int / 0x10_0000_0000_0000) % 0x800 != 0x7ff,
        forall|n: nat| n < 1_000_000_000_000_000 ==> !#[trigger] is_whole(bits, n),
    ensures
        crate::number::float_text(bits, shown) == shown,
{
    assert forall|n: nat| n < crate::number::whole_limit() implies !#[trigger]
        crate::number::has_magnitude(bits, n) by {
        lemma_whole_is_magnitude(bits, n);
        assert(!is_whole(bits, n));
    }
}

/// `NaN` is written of nothing but what is no number, or what `Display` shows as
/// that; and so of the infinities.
pub proof fn law_special_texts_mean_special_numbers(bits: u64, shown: Seq<char>)
    ensures
        ({
            let text = crate::number::float_text(bits, shown);
            let special = (bits as int / 0x10_0000_0000_0000) % 0x800 == 0x7ff;
            let fraction = bits as int % 0x10_0000_0000_0000;
            &&& text == "NaN"@ && shown != "NaN"@ ==> special && fraction != 0
            &&& text == "+Inf"@ && shown != "+Inf"@ ==> special && fraction == 0 && bits
                < 0x8000_0000_0000_0000
            &&& text == "-Inf"@ && shown != "-Inf"@ ==> special && fraction == 0 && bits
                >= 0x8000_0000_0000_0000
        }),
{
    let text = crate::number::float_text(bits, shown);
    reveal_strlit("NaN");
    reveal_strlit("+Inf");
    reveal_strlit("-Inf");
    assert("NaN"@[0] == 'N' && "+Inf"@[0] == '+' && "-Inf"@[1] == 'I');
    if (bits as int / 0x10_0000_0000_0000) % 0x800 == 0x7ff {
        law_special_numbers(bits, shown);
        assert("NaN"@.len() == 3 && "+Inf"@.len() == 4 && "-Inf"@.len() == 4);
        assert("-Inf"@[0] == '-');
    } else if exists|n: nat| n < 1_000_000_000_000_000 && #[trigger] is_whole(bits, n) {
        let n = choose|n: nat| n < 1_000_000_000_000_000 && #[trigger] is_whole(bits, n);
        law_whole_numbers(bits, n, shown);
        if bits < 0x8000_0000_0000_0000 {
            assert('0' as int <= text[0] as int <= '9' as int);
        } else {
            assert(text.drop_first()[0] == text[1]);
            assert('0' as int <= text[1] as int <= '9' as int);
        }
    } else {
        law_other_numbers(bits, shown);
    }
}

/// The text of a number is that of its bits, or what `Display` gives of the
/// number.
pub proof fn law_number_text<N: Display>(value: N, bits: u64, text: Seq<char>)
    requires
        crate::number::is_float_text(value, bits, text),
    ensures
        exists|shown: String| #[trigger]
            vstd::string::to_string_from_display_ensures::<N>(&value, shown) && text
                == crate::number::float_text(bits, shown@),
{
}

/// Escaping goes character by character.
pub proof fn law_escape_goes_by_character(a: Seq<char>, b: Seq<char>)
    ensures
        crate::text::escaped(a + b) == crate::text::escaped(a) + crate::text::escaped(b),
    decreases a.len(),
{
    if a.len() == 0 {
        assert(a + b =~= b);
        assert(crate::text::escaped(a) + crate::text::escaped(b) =~= crate::text::escaped(b));
    } else {
        law_escape_goes_by_character(a.drop_first(), b);
        assert((a + b).drop_first() =~= a.drop_first() + b);
        assert(crate::text::escaped(a + b) =~= crate::text::escaped(a) + crate::text::escaped(b));
    }
}

/// A backslash, a double quote and a newline are escaped, and no other character.
pub proof fn law_escape_of_a_character(c: char)
    ensures
        crate::text::escaped(seq![c]) == if c == '\\' {
            seq!['\\', '\\']
        } else if c == '"' {
            seq!['\\', '"']
        } else if c == '\n' {
            seq!['\\', 'n']
        } else {
            seq![c]
        },
{
    assert(seq![c].drop_first() =~= Seq::<char>::empty());
    assert(crate::text::escaped(seq![c].drop_first()) =~= Seq::<char>::empty());
    assert(crate::text::escaped(seq![c]) =~= crate::text::escape_char(c));
}

/// A value without a backslash, a double quote and a newline is written as it is.
pub proof fn law_plain_values_stay(value: Seq<char>)
    requires
        !value.contains('\\'),
        !value.contains('"'),
        !value.contains('\n'),
    ensures
        crate::text::escaped(value) == value,
    decreases value.len(),
{
    if value.len() > 0 {
        let rest = value.drop_first();
        assert(value.contains(value[0]));
        assert forall|c: char| rest.contains(c) implies value.contains(c) by {
            let i = choose|i: int| 0 <= i < rest.len() && rest[i] == c;
            assert(value[i + 1] == c);
        }
        law_plain_values_stay(rest);
        law_escape_goes_by_character(seq![value[0]], rest);
        law_escape_of_a_character(value[0]);
        assert(seq![value[0]] + rest =~= value);
    } else {
        assert(crate::text::escaped(value) =~= value);
    }
}

/// Escaping adds one character for each backslash, double quote and newline.
pub proof fn law_escape_adds_backslashes(value: Seq<char>)
    ensures
        crate::text::escaped(value).len() == value.len() + value.filter(
            |c: char| c == '\\' || c == '"' || c == '\n',
        ).len(),
    decreases value.len(),
{
    let special = |c: char| c == '\\' || c == '"' || c == '\n';
    reveal(Seq::filter);
    if value.len() > 0 {
        let before = value.drop_last();
        let last = value.last();
        law_escape_adds_backslashes(before);
        law_escape_goes_by_character(before, seq![last]);
        law_escape_of_a_character(last);
        assert(before + seq![last] =~= value);
    }
}

/// No label has no text. A single label stands in braces, its value in quotes
/// and escaped.
pub proof fn law_label_set_of_one(name: Seq<char>, value: Seq<char>)
    ensures
        crate::text::label_set_text(Seq::empty()) == Seq::<char>::empty(),
        crate::text::label_set_text(seq![(name, value)]) == seq!['{'] + name + seq!['=', '"']
            + crate::text::escaped(value) + seq!['"', '}'],
{
    reveal_strlit("{");
    reveal_strlit("}");
    reveal_strlit("=\"");
    reveal_strlit("\"");
    let text = crate::text::label_set_text(seq![(name, value)]);
    assert(text =~= seq!['{'] + name + seq!['=', '"'] + crate::text::escaped(value)
        + seq!['"', '}']);
}

/// One more label stands behind a comma, in front of the closing brace.
pub proof fn law_label_set_of_one_more(
    labels: Seq<(Seq<char>, Seq<char>)>,
    name: Seq<char>,
    value: Seq<char>,
)
    requires
        labels.len() > 0,
    ensures
        crate::text::label_set_text(labels).len() > 0,
        crate::text::label_set_text(labels.push((name, value))) == crate::text::label_set_text(
            labels,
        ).drop_last() + seq![','] + name + seq!['=', '"'] + crate::text::escaped(value)
            + seq!['"', '}'],
{
    reveal_strlit("{");
    reveal_strlit("}");
    reveal_strlit("=\"");
    reveal_strlit("\"");
    reveal_strlit(",");
    let more = labels.push((name, value));
    assert(more.drop_last() =~= labels);
    let joined = crate::text::joined_labels(labels);
    assert(crate::text::label_set_text(labels).drop_last() =~= "{"@ + joined);
    assert(crate::text::label_set_text(more) =~= crate::text::label_set_text(labels).drop_last()
        + seq![','] + name + seq!['=', '"'] + crate::text::escaped(value) + seq!['"', '}']);
}

/// The views of labels and of texts are those of their parts, one for one.
pub proof fn law_views(labels: Seq<(String, String)>, texts: Seq<String>, key: SeriesKey)
    ensures
        crate::text::label_views(labels).len() == labels.len(),
        forall|i: int|
            0 <= i < labels.len() ==> #[trigger] crate::text::label_views(labels)[i] == (
                labels[i].0@,
                labels[i].1@,
            ),
        crate::exposition::string_views(texts).len() == texts.len(),
        forall|i: int|
            0 <= i < texts.len() ==> #[trigger] crate::exposition::string_views(texts)[i]
                == texts[i]@,
        key@.name == key.name@,
        key@.labels.len() == key.labels@.len(),
        forall|i: int|
            0 <= i < key.labels@.len() ==> #[trigger] key@.labels[i] == (
                key.labels@[i].0@,
                key.labels@[i].1@,
            ),
{
}

/// The lexicographic order: at the first position where the sequences differ,
/// the first one ends or is less.
proof fn lemma_lex_first_difference<T>(a: Seq<T>, b: Seq<T>, less: spec_fn(T, T) -> bool)
    requires
        crate::order::strict_order(less),
    ensures
        crate::order::lex_before(a, b, less) <==> exists|i: int|
            0 <= i <= a.len() && i < b.len() && #[trigger] a.take(i) == b.take(i) && (i < a.len()
                ==> less(a[i], b[i])),
    decreases a.len(),
{
    if crate::order::lex_before(a, b, less) {
        lemma_lex_difference_exists(a, b, less);
    }
    if exists|i: int|
        0 <= i <= a.len() && i < b.len() && #[trigger] a.take(i) == b.take(i) && (i < a.len()
            ==> less(a[i], b[i])) {
        let i = choose|i: int|
            0 <= i <= a.len() && i < b.len() && #[trigger] a.take(i) == b.take(i) && (i < a.len()
                ==> less(a[i], b[i]));
        crate::order::lemma_lex_skip(a, b, i, less);
        if i < a.len() {
            assert(a.skip(i)[0] == a[i] && b.skip(i)[0] == b[i]);
        }
    }
}

proof fn lemma_lex_difference_exists<T>(a: Seq<T>, b: Seq<T>, less: spec_fn(T, T) -> bool)
    requires
        crate::order::lex_before(a, b, less),
    ensures
        exists|i: int|
            0 <= i <= a.len() && i < b.len() && #[trigger] a.take(i) == b.take(i) && (i < a.len()
                ==> less(a[i], b[i])),
    decreases a.len(),
{
    if a.len() == 0 || less(a[0], b[0]) {
        assert(a.take(0) =~= b.take(0));
    } else {
        let c = a.drop_first();
        let d = b.drop_first();
        lemma_lex_difference_exists(c, d, less);
        let i = choose|i: int|
            0 <= i <= c.len() && i < d.len() && #[trigger] c.take(i) == d.take(i) && (i < c.len()
                ==> less(c[i], d[i]));
        assert(a.take(i + 1) =~= seq![a[0]] + c.take(i));
        assert(b.take(i + 1) =~= seq![b[0]] + d.take(i));
        if i < c.len() {
            assert(c[i] == a[i + 1] && d[i] == b[i + 1]);
        }
    }
}

/// Texts are ordered by code point: at the first position where two texts
/// differ, the one that comes first ends or has the lower code point.
pub proof fn law_text_order(a: Seq<char>, b: Seq<char>)
    ensures
        crate::order::text_before(a, b) <==> exists|i: int|
            0 <= i <= a.len() && i < b.len() && #[trigger] a.take(i) == b.take(i) && (i < a.len()
                ==> (a[i] as int) < (b[i] as int)),
{
    crate::order::lemma_char_order();
    lemma_lex_first_difference(a, b, crate::order::char_before());
}

/// Series are ordered by name; of one name, at the first position where their
/// labels differ, the one that comes first ends or has the lower label, by name
/// and then by value.
pub proof fn law_key_order(a: KeyModel, b: KeyModel)
    ensures
        crate::series::key_before(a, b) <==> {
            ||| crate::order::text_before(a.name, b.name)
            ||| a.name == b.name && exists|i: int|
                0 <= i <= a.labels.len() && i < b.labels.len() && #[trigger] a.labels.take(i)
                    == b.labels.take(i) && (i < a.labels.len() ==> {
                    ||| crate::order::text_before(a.labels[i].0, b.labels[i].0)
                    ||| a.labels[i].0 == b.labels[i].0 && crate::order::text_before(
                        a.labels[i].1,
                        b.labels[i].1,
                    )
                })
        },
{
    crate::order::lemma_text_order();
    let less = crate::series::label_before();
    assert(crate::order::strict_order(less));
    lemma_lex_first_difference(a.labels, b.labels, less);
}

/// A series key has the given name, and each of the given labels once, in the
/// order of their names.
pub proof fn law_series_key(name: Seq<char>, labels: Map<Seq<char>, Seq<char>>)
    requires
        labels.dom().finite(),
    ensures
        ({
            let key = crate::series::series_key(name, labels);
            &&& key.name == name
            &&& key.labels.len() == labels.len()
            &&& forall|i: int|
                0 <= i < key.labels.len() ==> labels.contains_key(#[trigger] key.labels[i].0)
                    && labels[key.labels[i].0] == key.labels[i].1
            &&& forall|l: Seq<char>| #[trigger]
                labels.contains_key(l) ==> exists|i: int|
                    0 <= i < key.labels.len() && #[trigger] key.labels[i].0 == l
            &&& forall|i: int, j: int|
                0 <= i < j < key.labels.len() ==> crate::order::text_before(
                    #[trigger] key.labels[i].0,
                    #[trigger] key.labels[j].0,
                )
        }),
{
    let key = crate::series::series_key(name, labels);
    crate::sorted_map::lemma_finite_listing::<String, Seq<char>>(labels);
    crate::sorted_map::lemma_listing_len::<String, Seq<char>>(labels, key.labels);
    assert forall|i: int| 0 <= i < key.labels.len() implies labels.contains_key(
        #[trigger] key.labels[i].0,
    ) && labels[key.labels[i].0] == key.labels[i].1 by {
        assert(labels.contains_key(key.labels[i].0));
    }
    assert forall|i: int, j: int| 0 <= i < j < key.labels.len() implies crate::order::text_before(
        #[trigger] key.labels[i].0,
        #[trigger] key.labels[j].0,
    ) by {
        assert(<String as crate::sorted_map::Ranked>::before(key.labels[i].0, key.labels[j].0));
    }
}

/// Given labels have the names that are given, and no other.
pub proof fn law_given_label_names(pairs: Seq<(Seq<char>, Seq<char>)>, name: Seq<char>)
    ensures
        crate::labels::labels_given(pairs).contains_key(name) <==> exists|i: int|
            0 <= i < pairs.len() && #[trigger] pairs[i].0 == name,
    decreases pairs.len(),
{
    if pairs.len() > 0 {
        let before = pairs.drop_last();
        let last = pairs.len() - 1;
        law_given_label_names(before, name);
        if pairs[last].0 != name {
            if exists|i: int| 0 <= i < before.len() && #[trigger] before[i].0 == name {
                let i = choose|i: int| 0 <= i < before.len() && #[trigger] before[i].0 == name;
                assert(pairs[i].0 == name);
            }
            if exists|i: int| 0 <= i < pairs.len() && #[trigger] pairs[i].0 == name {
                let i = choose|i: int| 0 <= i < pairs.len() && #[trigger] pairs[i].0 == name;
                assert(before[i].0 == name);
            }
        }
    }
}

/// Of the values that are given for one name, the last one holds.
pub proof fn law_last_given_value_holds(pairs: Seq<(Seq<char>, Seq<char>)>, i: int)
    requires
        0 <= i < pairs.len(),
        forall|j: int| i < j < pairs.len() ==> #[trigger] pairs[j].0 != pairs[i].0,
    ensures
        crate::labels::labels_given(pairs).contains_key(pairs[i].0),
        crate::labels::labels_given(pairs)[pairs[i].0] == pairs[i].1,
    decreases pairs.len(),
{
    let before = pairs.drop_last();
    let last = pairs.len() - 1;
    if i < last {
        assert(pairs[last].0 != pairs[i].0);
        assert forall|j: int| i < j < before.len() implies #[trigger] before[j].0
            != before[i].0 by {
            assert(pairs[j].0 != pairs[i].0);
        }
        law_last_given_value_holds(before, i);
    }
}

} // verus!
