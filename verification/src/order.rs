//! Strict total orders: the lexicographic order on sequences, and the order by
//! which texts are compared.
use vstd::prelude::*;

verus! {

/// How the first of two values stands to the second.
#[derive(Debug, Clone, Copy, PartialEq, Eq, Structural)]
pub enum Comparison {
    Before,
    Same,
    After,
}

/// `less` is irreflexive, transitive and total.
pub open spec fn strict_order<T>(less: spec_fn(T, T) -> bool) -> bool {
    &&& forall|a: T| !#[trigger] less(a, a)
    &&& forall|a: T, b: T, c: T| #[trigger] less(a, b) && #[trigger] less(b, c) ==> less(a, c)
    &&& forall|a: T, b: T| #[trigger] less(a, b) || a == b || less(b, a)
}

/// The lexicographic order: a proper prefix comes first, otherwise the first
/// position at which the sequences differ decides.
pub open spec fn lex_before<T>(a: Seq<T>, b: Seq<T>, less: spec_fn(T, T) -> bool) -> bool
    decreases a.len(),
{
    if b.len() == 0 {
        false
    } else if a.len() == 0 {
        true
    } else {
        less(a[0], b[0]) || (a[0] == b[0] && lex_before(a.drop_first(), b.drop_first(), less))
    }
}

/// The order of the code charts.
pub open spec fn char_before() -> spec_fn(char, char) -> bool {
    |a: char, b: char| (a as int) < (b as int)
}

/// The order of texts: lexicographic by code point.
pub open spec fn text_before(a: Seq<char>, b: Seq<char>) -> bool {
    lex_before(a, b, char_before())
}

pub proof fn lemma_char_order()
    ensures
        strict_order(char_before()),
{
}

pub proof fn lemma_lex_irreflexive<T>(a: Seq<T>, less: spec_fn(T, T) -> bool)
    requires
        strict_order(less),
    ensures
        !lex_before(a, a, less),
    decreases a.len(),
{
    if a.len() > 0 {
        lemma_lex_irreflexive(a.drop_first(), less);
    }
}

pub proof fn lemma_lex_transitive<T>(
    a: Seq<T>,
    b: Seq<T>,
    c: Seq<T>,
    less: spec_fn(T, T) -> bool,
)
    requires
        strict_order(less),
        lex_before(a, b, less),
        lex_before(b, c, less),
    ensures
        lex_before(a, c, less),
    decreases a.len(),
{
    if a.len() > 0 && a[0] == b[0] && b[0] == c[0] && !less(a[0], b[0]) && !less(b[0], c[0]) {
        lemma_lex_transitive(a.drop_first(), b.drop_first(), c.drop_first(), less);
    }
}

pub proof fn lemma_lex_total<T>(a: Seq<T>, b: Seq<T>, less: spec_fn(T, T) -> bool)
    requires
        strict_order(less),
    ensures
        lex_before(a, b, less) || a == b || lex_before(b, a, less),
    decreases a.len(),
{
    if a.len() > 0 && b.len() > 0 {
        lemma_lex_total(a.drop_first(), b.drop_first(), less);
        if a[0] == b[0] && a.drop_first() == b.drop_first() {
            assert(a =~= seq![a[0]] + a.drop_first());
            assert(b =~= seq![b[0]] + b.drop_first());
        }
        assert(less(a[0], b[0]) || a[0] == b[0] || less(b[0], a[0]));
    } else {
        assert(a.len() == 0 && b.len() == 0 ==> a =~= b);
    }
}

/// A shared prefix does not decide the lexicographic order.
pub proof fn lemma_lex_skip<T>(a: Seq<T>, b: Seq<T>, n: int, less: spec_fn(T, T) -> bool)
    requires
        strict_order(less),
        0 <= n <= a.len(),
        n <= b.len(),
        a.take(n) == b.take(n),
    ensures
        lex_before(a, b, less) == lex_before(a.skip(n), b.skip(n), less),
    decreases n,
{
    if n == 0 {
        assert(a.skip(0) =~= a);
        assert(b.skip(0) =~= b);
    } else {
        assert(a[0] == a.take(n)[0] && b[0] == b.take(n)[0]);
        assert(a.drop_first().take(n - 1) =~= a.take(n).drop_first());
        assert(b.drop_first().take(n - 1) =~= b.take(n).drop_first());
        lemma_lex_skip(a.drop_first(), b.drop_first(), n - 1, less);
        assert(a.drop_first().skip(n - 1) =~= a.skip(n));
        assert(b.drop_first().skip(n - 1) =~= b.skip(n));
    }
}

/// The order of texts is a strict total order.
pub proof fn lemma_text_order()
    ensures
        forall|a: Seq<char>| !#[trigger] text_before(a, a),
        forall|a: Seq<char>, b: Seq<char>, c: Seq<char>| #[trigger]
            text_before(a, b) && #[trigger] text_before(b, c) ==> text_before(a, c),
        forall|a: Seq<char>, b: Seq<char>| #[trigger]
            text_before(a, b) || a == b || text_before(b, a),
{
    lemma_char_order();
    assert forall|a: Seq<char>| !#[trigger] text_before(a, a) by {
        lemma_lex_irreflexive(a, char_before());
    }
    assert forall|a: Seq<char>, b: Seq<char>, c: Seq<char>| #[trigger]
        text_before(a, b) && #[trigger] text_before(b, c) implies text_before(a, c) by {
        lemma_lex_transitive(a, b, c, char_before());
    }
    assert forall|a: Seq<char>, b: Seq<char>| #[trigger]
        text_before(a, b) || a == b || text_before(b, a) by {
        lemma_lex_total(a, b, char_before());
    }
}

/// Compares two texts by code point.
pub fn compare_text(a: &str, b: &str) -> (c: Comparison)
    ensures
        c is Before <==> text_before(a@, b@),
        c is Same <==> a@ == b@,
        c is After <==> text_before(b@, a@),
{
    proof {
        lemma_text_order();
        lemma_char_order();
    }
    let mut left = a.chars();
    let mut right = b.chars();
    let ghost mut n: int = 0;
    assert(a@.skip(0) =~= a@);
    assert(b@.skip(0) =~= b@);
    assert(a@.take(0) =~= b@.take(0));
    loop
        invariant
            0 <= n <= a@.len(),
            n <= b@.len(),
            a@.take(n) == b@.take(n),
            vstd::std_specs::iter::IteratorSpec::remaining(&left) == a@.skip(n),
            vstd::std_specs::iter::IteratorSpec::remaining(&right) == b@.skip(n),
            strict_order(char_before()),
            forall|x: Seq<char>| !#[trigger] text_before(x, x),
            forall|x: Seq<char>, y: Seq<char>, z: Seq<char>| #[trigger]
                text_before(x, y) && #[trigger] text_before(y, z) ==> text_before(x, z),
        decreases a@.len() - n,
    {
        proof {
            lemma_lex_skip(a@, b@, n, char_before());
            lemma_lex_skip(b@, a@, n, char_before());
        }
        match (left.next(), right.next()) {
            (None, None) => {
                assert(a@ =~= a@.take(n));
                assert(b@ =~= b@.take(n));
                return Comparison::Same;
            },
            (None, Some(_)) => {
                return Comparison::Before;
            },
            (Some(_), None) => {
                return Comparison::After;
            },
            (Some(x), Some(y)) => {
                if x < y {
                    return Comparison::Before;
                }
                if y < x {
                    return Comparison::After;
                }
                proof {
                    assert(x == a@[n] && y == b@[n]);
                    assert(a@.take(n + 1) =~= a@.take(n).push(x));
                    assert(b@.take(n + 1) =~= b@.take(n).push(y));
                    assert(a@.skip(n).drop_first() =~= a@.skip(n + 1));
                    assert(b@.skip(n).drop_first() =~= b@.skip(n + 1));
                    n = n + 1;
                }
            },
        }
    }
}

} // verus!
