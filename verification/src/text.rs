//! The text of a label set.
use vstd::prelude::*;
use vstd::string::StringExecFns;

verus! {

/// [`String::push`] appends the given character to the end of the string.
pub assume_specification[ String::push ](s: &mut String, c: char)
    ensures
        final(s)@ == old(s)@.push(c),
;

/// How a character stands in a quoted label value.
pub open spec fn escape_char(c: char) -> Seq<char> {
    if c == '\\' {
        seq!['\\', '\\']
    } else if c == '"' {
        seq!['\\', '"']
    } else if c == '\n' {
        seq!['\\', 'n']
    } else {
        seq![c]
    }
}

/// A label value with every backslash, double quote and newline escaped.
pub open spec fn escaped(value: Seq<char>) -> Seq<char>
    decreases value.len(),
{
    if value.len() == 0 {
        Seq::empty()
    } else {
        escape_char(value[0]) + escaped(value.drop_first())
    }
}

/// `name="value"`, with the value escaped.
pub open spec fn label_text(label: (Seq<char>, Seq<char>)) -> Seq<char> {
    label.0 + "=\""@ + escaped(label.1) + "\""@
}

/// The labels, with a comma between each two.
pub open spec fn joined_labels(labels: Seq<(Seq<char>, Seq<char>)>) -> Seq<char>
    decreases labels.len(),
{
    if labels.len() == 0 {
        Seq::empty()
    } else if labels.len() == 1 {
        label_text(labels[0])
    } else {
        joined_labels(labels.drop_last()) + ","@ + label_text(labels.last())
    }
}

/// The labels in braces, or nothing where there is no label.
pub open spec fn label_set_text(labels: Seq<(Seq<char>, Seq<char>)>) -> Seq<char> {
    if labels.len() == 0 {
        Seq::empty()
    } else {
        "{"@ + joined_labels(labels) + "}"@
    }
}

/// The names and values of a sequence of labels.
pub open spec fn label_views(labels: Seq<(String, String)>) -> Seq<(Seq<char>, Seq<char>)> {
    labels.map_values(|label: (String, String)| label@)
}

/// Escapes a label value.
pub fn escape(value: &str) -> (text: String)
    ensures
        text@ == escaped(value@),
{
    let mut text = String::new();
    let mut rest = value.chars();
    let ghost mut n: int = 0;
    assert(value@.skip(0) =~= value@);
    assert(text@ + escaped(value@) =~= escaped(value@));
    loop
        invariant
            0 <= n <= value@.len(),
            vstd::std_specs::iter::IteratorSpec::remaining(&rest) == value@.skip(n),
            text@ + escaped(value@.skip(n)) == escaped(value@),
        decreases value@.len() - n,
    {
        match rest.next() {
            None => {
                assert(text@ + escaped(value@.skip(n)) =~= text@);
                return text;
            },
            Some(c) => {
                let ghost before = text@;
                if c == '\\' {
                    text.push('\\');
                    text.push('\\');
                } else if c == '"' {
                    text.push('\\');
                    text.push('"');
                } else if c == '\n' {
                    text.push('\\');
                    text.push('n');
                } else {
                    text.push(c);
                }
                proof {
                    assert(c == value@[n]);
                    assert(value@.skip(n).drop_first() =~= value@.skip(n + 1));
                    assert(text@ =~= before + escape_char(c));
                    assert(text@ + escaped(value@.skip(n + 1)) =~= before + (escape_char(c)
                        + escaped(value@.skip(n + 1))));
                    n = n + 1;
                }
            },
        }
    }
}

/// Renders the labels of a series: `{a="x",b="y"}`, or nothing where there is
/// no label.
pub fn format_label_set(labels: &[(String, String)]) -> (text: String)
    ensures
        text@ == label_set_text(label_views(labels@)),
{
    let ghost views = label_views(labels@);
    if labels.len() == 0 {
        return String::new();
    }
    let mut text = "{".to_owned();
    let mut i: usize = 0;
    assert(text@ =~= "{"@ + joined_labels(views.take(0)));
    while i < labels.len()
        invariant
            i <= labels.len(),
            views == label_views(labels@),
            text@ == "{"@ + joined_labels(views.take(i as int)),
        decreases labels.len() - i,
    {
        let ghost before = text@;
        let ghost done = joined_labels(views.take(i as int));
        if i > 0 {
            text.append(",");
        }
        text.append(labels[i].0.as_str());
        text.append("=\"");
        let value = escape(labels[i].1.as_str());
        text.append(value.as_str());
        text.append("\"");
        proof {
            let label = views[i as int];
            assert(label == (labels@[i as int].0@, labels@[i as int].1@));
            let taken = views.take(i + 1);
            assert(taken.drop_last() =~= views.take(i as int));
            assert(taken.last() == label);
            if i > 0 {
                assert(text@ =~= "{"@ + (done + ","@ + label_text(label)));
            } else {
                assert(text@ =~= "{"@ + label_text(label));
            }
        }
        i += 1;
    }
    assert(views.take(i as int) =~= views);
    text.append("}");
    text
}

/// What an escaped text stands for.
pub open spec fn unescaped(text: Seq<char>) -> Seq<char>
    decreases text.len(),
{
    if text.len() == 0 {
        Seq::empty()
    } else if text[0] == '\\' && text.len() > 1 {
        seq![
            if text[1] == 'n' {
                '\n'
            } else {
                text[1]
            },
        ] + unescaped(text.skip(2))
    } else {
        seq![text[0]] + unescaped(text.drop_first())
    }
}

/// Escaping loses nothing: a reader gets the label value back.
pub proof fn law_escape_is_lossless(value: Seq<char>)
    ensures
        unescaped(escaped(value)) == value,
    decreases value.len(),
{
    if value.len() > 0 {
        let c = value[0];
        let rest = value.drop_first();
        law_escape_is_lossless(rest);
        let text = escaped(value);
        if escape_char(c).len() == 2 {
            assert(text.skip(2) =~= escaped(rest));
        } else {
            assert(text.drop_first() =~= escaped(rest));
        }
        assert(unescaped(text) =~= seq![c] + rest);
        assert(seq![c] + rest =~= value);
    } else {
        assert(unescaped(escaped(value)) =~= value);
    }
}

/// The position `i` of `text` is the second half of an escape.
pub open spec fn is_escape_tail(text: Seq<char>, i: int) -> bool
    decreases i,
{
    0 < i < text.len() && text[i - 1] == '\\' && !is_escape_tail(text, i - 1)
}

/// A whole character or a whole escape in front of a text does not change which
/// positions of the text end an escape.
proof fn lemma_escape_tail_shift(head: Seq<char>, tail: Seq<char>, i: int)
    requires
        0 <= i < tail.len(),
        head.len() == 1 && head[0] != '\\' || head.len() == 2 && head[0] == '\\',
    ensures
        is_escape_tail(head + tail, head.len() + i) == is_escape_tail(tail, i),
    decreases i,
{
    let text = head + tail;
    let n = head.len() as int;
    if i > 0 {
        lemma_escape_tail_shift(head, tail, i - 1);
        assert(text[n + i - 1] == tail[i - 1]);
    } else if n == 2 {
        assert(!is_escape_tail(text, 0));
        assert(is_escape_tail(text, 1));
        assert(!is_escape_tail(text, 2));
    } else {
        assert(text[0] == head[0]);
        assert(!is_escape_tail(text, 1));
    }
}

/// An escaped text holds no newline, and no double quote but in an escape, so
/// that it neither ends its line nor its quotes.
pub proof fn law_escaped_text_stays_quoted(value: Seq<char>)
    ensures
        !escaped(value).contains('\n'),
        forall|i: int|
            0 <= i < escaped(value).len() && #[trigger] escaped(value)[i] == '"' ==> is_escape_tail(
                escaped(value),
                i,
            ),
    decreases value.len(),
{
    if value.len() > 0 {
        let head = escape_char(value[0]);
        let tail = escaped(value.drop_first());
        law_escaped_text_stays_quoted(value.drop_first());
        let text = escaped(value);
        assert forall|i: int| 0 <= i < text.len() implies text[i] != '\n' by {
            if i >= head.len() {
                assert(text[i] == tail[i - head.len()]);
                assert(tail.contains(tail[i - head.len()]));
            }
        }
        assert forall|i: int|
            0 <= i < text.len() && #[trigger] text[i] == '"' implies is_escape_tail(text, i) by {
            if i >= head.len() {
                assert(text[i] == tail[i - head.len()]);
                lemma_escape_tail_shift(head, tail, i - head.len());
            } else {
                assert(i == 1);
                assert(!is_escape_tail(text, 0));
            }
        }
    }
}

/// A label set stays on its line where the label names do.
pub proof fn law_label_set_is_one_line(labels: Seq<(Seq<char>, Seq<char>)>)
    requires
        forall|i: int| 0 <= i < labels.len() ==> !(#[trigger] labels[i]).0.contains('\n'),
    ensures
        !label_set_text(labels).contains('\n'),
{
    reveal_strlit("{");
    reveal_strlit("}");
    lemma_joined_labels_one_line(labels);
    let joined = joined_labels(labels);
    assert forall|i: int| 0 <= i < label_set_text(labels).len() implies label_set_text(labels)[i]
        != '\n' by {
        if 1 <= i < 1 + joined.len() {
            assert(label_set_text(labels)[i] == joined[i - 1]);
            assert(joined.contains(joined[i - 1]));
        }
    }
}

proof fn lemma_label_one_line(label: (Seq<char>, Seq<char>))
    requires
        !label.0.contains('\n'),
    ensures
        !label_text(label).contains('\n'),
{
    reveal_strlit("=\"");
    reveal_strlit("\"");
    law_escaped_text_stays_quoted(label.1);
    let text = label_text(label);
    let value = escaped(label.1);
    let n = label.0.len() as int;
    assert forall|i: int| 0 <= i < text.len() implies text[i] != '\n' by {
        if i < n {
            assert(text[i] == label.0[i]);
            assert(label.0.contains(label.0[i]));
        } else if n + 2 <= i < n + 2 + value.len() {
            assert(text[i] == value[i - n - 2]);
            assert(value.contains(value[i - n - 2]));
        }
    }
}

proof fn lemma_joined_labels_one_line(labels: Seq<(Seq<char>, Seq<char>)>)
    requires
        forall|i: int| 0 <= i < labels.len() ==> !(#[trigger] labels[i]).0.contains('\n'),
    ensures
        !joined_labels(labels).contains('\n'),
    decreases labels.len(),
{
    if labels.len() > 0 {
        let n = labels.len() - 1;
        lemma_label_one_line(labels[n]);
        if labels.len() > 1 {
            reveal_strlit(",");
            assert forall|i: int| 0 <= i < labels.drop_last().len() implies !(
            #[trigger] labels.drop_last()[i]).0.contains('\n') by {
                assert(labels.drop_last()[i] == labels[i]);
            }
            lemma_joined_labels_one_line(labels.drop_last());
            let before = joined_labels(labels.drop_last());
            let last = label_text(labels[n]);
            let text = joined_labels(labels);
            assert forall|i: int| 0 <= i < text.len() implies text[i] != '\n' by {
                if i < before.len() {
                    assert(text[i] == before[i]);
                    assert(before.contains(before[i]));
                } else if i > before.len() {
                    assert(text[i] == last[i - before.len() - 1]);
                    assert(last.contains(last[i - before.len() - 1]));
                }
            }
        }
    }
}

} // verus!
