//! A map whose entries are kept in the order of their keys.
use vstd::prelude::*;

use crate::order::{compare_text, Comparison};

verus! {

/// A key type with a strict total order on its views.
pub trait Ranked: View + Sized {
    spec fn before(a: Self::V, b: Self::V) -> bool;

    proof fn lemma_order()
        ensures
            forall|a: Self::V| !#[trigger] Self::before(a, a),
            forall|a: Self::V, b: Self::V, c: Self::V| #[trigger]
                Self::before(a, b) && #[trigger] Self::before(b, c) ==> Self::before(a, c),
            forall|a: Self::V, b: Self::V| #[trigger]
                Self::before(a, b) || a == b || Self::before(b, a),
    ;

    fn rank(&self, other: &Self) -> (c: Comparison)
        ensures
            c is Before <==> Self::before(self@, other@),
            c is Same <==> self@ == other@,
            c is After <==> Self::before(other@, self@),
    ;
}

impl Ranked for String {
    open spec fn before(a: Seq<char>, b: Seq<char>) -> bool {
        crate::order::text_before(a, b)
    }

    proof fn lemma_order() {
        crate::order::lemma_text_order();
    }

    fn rank(&self, other: &Self) -> (c: Comparison) {
        compare_text(self.as_str(), other.as_str())
    }
}

/// The keys of `l` strictly increase.
pub open spec fn increasing<K: Ranked, W>(l: Seq<(K::V, W)>) -> bool {
    forall|i: int, j: int| 0 <= i < j < l.len() ==> K::before(#[trigger] l[i].0, #[trigger] l[j].0)
}

/// `l` lists the entries of `m`, each once, in the order of the keys.
pub open spec fn is_listing<K: Ranked, W>(m: Map<K::V, W>, l: Seq<(K::V, W)>) -> bool {
    &&& increasing::<K, W>(l)
    &&& forall|i: int|
        0 <= i < l.len() ==> #[trigger] m.contains_key(l[i].0) && m[l[i].0] == l[i].1
    &&& forall|k: K::V| #[trigger]
        m.contains_key(k) ==> exists|i: int| 0 <= i < l.len() && #[trigger] l[i].0 == k
}

/// The entries of `m` in the order of the keys.
pub open spec fn listing_of<K: Ranked, W>(m: Map<K::V, W>) -> Seq<(K::V, W)> {
    choose|l: Seq<(K::V, W)>| is_listing::<K, W>(m, l)
}

/// Two listings of one map are the same.
pub proof fn lemma_listings_agree<K: Ranked, W>(
    m: Map<K::V, W>,
    l1: Seq<(K::V, W)>,
    l2: Seq<(K::V, W)>,
)
    requires
        is_listing::<K, W>(m, l1),
        is_listing::<K, W>(m, l2),
    ensures
        l1 == l2,
    decreases l1.len(),
{
    K::lemma_order();
    if l1.len() == 0 {
        if l2.len() > 0 {
            assert(m.contains_key(l2[0].0));
        }
        assert(l1 =~= l2);
    } else {
        assert(m.contains_key(l1[0].0));
        let j = choose|j: int| 0 <= j < l2.len() && #[trigger] l2[j].0 == l1[0].0;
        assert(m.contains_key(l2[0].0));
        let i = choose|i: int| 0 <= i < l1.len() && #[trigger] l1[i].0 == l2[0].0;
        assert(i == 0 && j == 0);
        let k = l1[0].0;
        let rest = m.remove(k);
        let t1 = l1.drop_first();
        let t2 = l2.drop_first();
        assert forall|n: int| 0 <= n < t1.len() implies #[trigger] rest.contains_key(t1[n].0)
            && rest[t1[n].0] == t1[n].1 by {
            assert(t1[n] == l1[n + 1]);
            assert(m.contains_key(l1[n + 1].0));
            assert(K::before(l1[0].0, l1[n + 1].0));
        }
        assert forall|n: int| 0 <= n < t2.len() implies #[trigger] rest.contains_key(t2[n].0)
            && rest[t2[n].0] == t2[n].1 by {
            assert(t2[n] == l2[n + 1]);
            assert(m.contains_key(l2[n + 1].0));
            assert(K::before(l2[0].0, l2[n + 1].0));
        }
        assert forall|q: K::V| #[trigger] rest.contains_key(q) implies exists|n: int|
            0 <= n < t1.len() && #[trigger] t1[n].0 == q by {
            assert(m.contains_key(q));
            let n = choose|n: int| 0 <= n < l1.len() && #[trigger] l1[n].0 == q;
            assert(t1[n - 1].0 == q);
        }
        assert forall|q: K::V| #[trigger] rest.contains_key(q) implies exists|n: int|
            0 <= n < t2.len() && #[trigger] t2[n].0 == q by {
            assert(m.contains_key(q));
            let n = choose|n: int| 0 <= n < l2.len() && #[trigger] l2[n].0 == q;
            assert(t2[n - 1].0 == q);
        }
        assert(increasing::<K, W>(t1));
        assert(increasing::<K, W>(t2));
        lemma_listings_agree::<K, W>(rest, t1, t2);
        assert(m.contains_key(l1[0].0) && m.contains_key(l2[0].0));
        assert(l1[0] == l2[0]);
        assert(l1 =~= seq![l1[0]] + t1);
        assert(l2 =~= seq![l2[0]] + t2);
    }
}

/// A listing of `m` is `listing_of(m)`.
pub proof fn lemma_listing_unique<K: Ranked, W>(m: Map<K::V, W>, l: Seq<(K::V, W)>)
    requires
        is_listing::<K, W>(m, l),
    ensures
        listing_of::<K, W>(m) == l,
        is_listing::<K, W>(m, listing_of::<K, W>(m)),
{
    lemma_listings_agree::<K, W>(m, l, listing_of::<K, W>(m));
}

/// The map that an increasing sequence of entries lists.
pub open spec fn map_of<A, B>(l: Seq<(A, B)>) -> Map<A, B> {
    Map::new(
        |k: A| exists|i: int| 0 <= i < l.len() && #[trigger] l[i].0 == k,
        |k: A| l[choose|i: int| 0 <= i < l.len() && #[trigger] l[i].0 == k].1,
    )
}

pub proof fn lemma_map_of<K: Ranked, W>(l: Seq<(K::V, W)>)
    requires
        increasing::<K, W>(l),
    ensures
        is_listing::<K, W>(map_of(l), l),
{
    K::lemma_order();
    let m = map_of(l);
    assert forall|i: int| 0 <= i < l.len() implies #[trigger] m.contains_key(l[i].0)
        && m[l[i].0] == l[i].1 by {
        let k = l[i].0;
        let j = choose|j: int| 0 <= j < l.len() && #[trigger] l[j].0 == k;
        assert(l[i].0 == k);
        assert(0 <= j < l.len() && l[j].0 == k);
        if i < j {
            assert(K::before(l[i].0, l[j].0));
        }
        if j < i {
            assert(K::before(l[j].0, l[i].0));
        }
    }
}

/// One listing belongs to one map.
pub proof fn lemma_listed_maps_agree<K: Ranked, W>(
    m1: Map<K::V, W>,
    m2: Map<K::V, W>,
    l: Seq<(K::V, W)>,
)
    requires
        is_listing::<K, W>(m1, l),
        is_listing::<K, W>(m2, l),
    ensures
        m1 == m2,
{
    assert forall|k: K::V| m1.contains_key(k) == m2.contains_key(k) by {
        if m1.contains_key(k) {
            let i = choose|i: int| 0 <= i < l.len() && #[trigger] l[i].0 == k;
            assert(m2.contains_key(l[i].0));
        }
        if m2.contains_key(k) {
            let i = choose|i: int| 0 <= i < l.len() && #[trigger] l[i].0 == k;
            assert(m1.contains_key(l[i].0));
        }
    }
    assert forall|k: K::V| m1.contains_key(k) implies m1[k] == m2[k] by {
        let i = choose|i: int| 0 <= i < l.len() && #[trigger] l[i].0 == k;
        assert(m1.contains_key(l[i].0) && m2.contains_key(l[i].0));
    }
    assert(m1 =~= m2);
}

/// A map has as many entries as its listing.
pub proof fn lemma_listing_len<K: Ranked, W>(m: Map<K::V, W>, l: Seq<(K::V, W)>)
    requires
        is_listing::<K, W>(m, l),
    ensures
        m.dom().finite(),
        m.len() == l.len(),
{
    K::lemma_order();
    let keys = l.map_values(|e: (K::V, W)| e.0);
    assert(keys.no_duplicates()) by {
        assert forall|i: int, j: int| 0 <= i < j < keys.len() implies keys[i] != keys[j] by {
            assert(K::before(l[i].0, l[j].0));
        }
    }
    assert forall|k: K::V| keys.to_set().contains(k) == m.dom().contains(k) by {
        if keys.contains(k) {
            let i = choose|i: int| 0 <= i < keys.len() && keys[i] == k;
            assert(m.contains_key(l[i].0));
        }
        if m.contains_key(k) {
            let i = choose|i: int| 0 <= i < l.len() && #[trigger] l[i].0 == k;
            assert(keys[i] == k);
        }
    }
    assert(keys.to_set() =~= m.dom());
    keys.unique_seq_to_set();
    vstd::seq_lib::seq_to_set_is_finite(keys);
}

/// An entry set at its key's position, or inserted there, goes into the map.
proof fn lemma_inserted<K: Ranked, W>(l: Seq<(K::V, W)>, p: int, found: bool, entry: (K::V, W))
    requires
        increasing::<K, W>(l),
        0 <= p <= l.len(),
        forall|i: int| 0 <= i < p ==> K::before(#[trigger] l[i].0, entry.0),
        found ==> p < l.len() && l[p].0 == entry.0,
        !found ==> forall|i: int| p <= i < l.len() ==> K::before(entry.0, #[trigger] l[i].0),
    ensures
        ({
            let after = if found {
                l.update(p, entry)
            } else {
                l.insert(p, entry)
            };
            &&& increasing::<K, W>(after)
            &&& map_of(after) == map_of(l).insert(entry.0, entry.1)
        }),
{
    K::lemma_order();
    lemma_map_of::<K, W>(l);
    let after = if found {
        l.update(p, entry)
    } else {
        l.insert(p, entry)
    };
    let m = map_of(l).insert(entry.0, entry.1);
    assert(increasing::<K, W>(after));
    lemma_map_of::<K, W>(after);
    assert forall|i: int| 0 <= i < after.len() implies #[trigger] m.contains_key(after[i].0)
        && m[after[i].0] == after[i].1 by {
        if i == p {
        } else if found || i < p {
            assert(after[i] == l[i]);
            assert(map_of(l).contains_key(l[i].0));
            if found && i > p {
                assert(K::before(l[p].0, l[i].0));
            }
        } else {
            assert(after[i] == l[i - 1]);
            assert(map_of(l).contains_key(l[i - 1].0));
        }
    }
    assert forall|k: K::V| #[trigger] m.contains_key(k) implies exists|i: int|
        0 <= i < after.len() && #[trigger] after[i].0 == k by {
        if k == entry.0 {
            assert(after[p].0 == k);
        } else {
            assert(map_of(l).contains_key(k));
            let i = choose|i: int| 0 <= i < l.len() && #[trigger] l[i].0 == k;
            if found || i < p {
                assert(after[i].0 == k);
            } else {
                assert(after[i + 1].0 == k);
            }
        }
    }
    lemma_listed_maps_agree::<K, W>(m, map_of(after), after);
}

/// A key that `l` does not hold has a place in `l`.
proof fn lemma_place<K: Ranked, W>(l: Seq<(K::V, W)>, k: K::V) -> (p: int)
    requires
        increasing::<K, W>(l),
        forall|i: int| 0 <= i < l.len() ==> #[trigger] l[i].0 != k,
    ensures
        0 <= p <= l.len(),
        forall|i: int| 0 <= i < p ==> K::before(#[trigger] l[i].0, k),
        forall|i: int| p <= i < l.len() ==> K::before(k, #[trigger] l[i].0),
    decreases l.len(),
{
    K::lemma_order();
    if l.len() == 0 {
        0
    } else {
        let rest = l.drop_last();
        assert(forall|i: int| 0 <= i < rest.len() ==> rest[i] == l[i]);
        assert(increasing::<K, W>(rest));
        let p = lemma_place::<K, W>(rest, k);
        if K::before(l.last().0, k) {
            assert forall|i: int| 0 <= i < l.len() implies K::before(#[trigger] l[i].0, k) by {
                if i < rest.len() {
                    assert(K::before(l[i].0, l.last().0));
                }
            }
            l.len() as int
        } else {
            assert(K::before(k, l.last().0));
            assert forall|i: int| 0 <= i < p implies K::before(#[trigger] l[i].0, k) by {
                assert(rest[i].0 == l[i].0);
            }
            assert forall|i: int| p <= i < l.len() implies K::before(k, #[trigger] l[i].0) by {
                if i < rest.len() {
                    assert(rest[i].0 == l[i].0);
                }
            }
            p
        }
    }
}

/// A finite map has a listing.
pub proof fn lemma_finite_listing<K: Ranked, W>(m: Map<K::V, W>)
    requires
        m.dom().finite(),
    ensures
        is_listing::<K, W>(m, listing_of::<K, W>(m)),
    decreases m.dom().len(),
{
    if m.dom().len() == 0 {
        assert(m.dom() =~= Set::empty());
        let l = Seq::<(K::V, W)>::empty();
        assert forall|k: K::V| !#[trigger] m.contains_key(k) by {
            assert(m.contains_key(k) == m.dom().contains(k));
        }
        assert(is_listing::<K, W>(m, l));
        lemma_listing_unique::<K, W>(m, l);
    } else {
        let k = m.dom().choose();
        let rest = m.remove(k);
        assert(rest.dom() =~= m.dom().remove(k));
        lemma_finite_listing::<K, W>(rest);
        let l = listing_of::<K, W>(rest);
        assert forall|i: int| 0 <= i < l.len() implies #[trigger] l[i].0 != k by {
            assert(rest.contains_key(l[i].0));
        }
        let p = lemma_place::<K, W>(l, k);
        lemma_inserted::<K, W>(l, p, false, (k, m[k]));
        lemma_map_of::<K, W>(l);
        lemma_listed_maps_agree::<K, W>(rest, map_of(l), l);
        let after = l.insert(p, (k, m[k]));
        lemma_map_of::<K, W>(after);
        assert(rest.insert(k, m[k]) =~= m);
        lemma_listing_unique::<K, W>(m, after);
    }
}

/// A map from keys to values, held as entries in the order of their keys.
#[derive(Debug)]
pub struct SortedMap<K: Ranked, V: View> {
    entries: Vec<(K, V)>,
}

impl<K: Ranked, V: View> SortedMap<K, V> {
    /// The entries as they are held.
    pub closed spec fn listing(&self) -> Seq<(K::V, V::V)> {
        self.entries@.map_values(|e: (K, V)| e@)
    }

    #[verifier::type_invariant]
    spec fn ordered(&self) -> bool {
        increasing::<K, V::V>(self.listing())
    }
}

impl<K: Ranked, V: View> View for SortedMap<K, V> {
    type V = Map<K::V, V::V>;

    closed spec fn view(&self) -> Map<K::V, V::V> {
        map_of(self.listing())
    }
}

impl<K: Ranked, V: View> SortedMap<K, V> {
    pub fn new() -> (m: Self)
        ensures
            m@ == Map::<K::V, V::V>::empty(),
    {
        let m = SortedMap { entries: Vec::new() };
        assert(m@ =~= Map::<K::V, V::V>::empty());
        m
    }

    /// The number of entries.
    pub fn len(&self) -> (n: usize)
        ensures
            n == self@.len(),
            self@.dom().finite(),
            n == listing_of::<K, V::V>(self@).len(),
            is_listing::<K, V::V>(self@, listing_of::<K, V::V>(self@)),
    {
        proof {
            use_type_invariant(self);
            lemma_map_of::<K, V::V>(self.listing());
            lemma_listing_unique::<K, V::V>(self@, self.listing());
            lemma_listing_len::<K, V::V>(self@, self.listing());
        }
        self.entries.len()
    }

    /// Whether there is no entry.
    pub fn is_empty(&self) -> (empty: bool)
        ensures
            empty <==> self@ == Map::<K::V, V::V>::empty(),
    {
        proof {
            use_type_invariant(self);
            lemma_map_of::<K, V::V>(self.listing());
            if self.listing().len() == 0 {
                assert(self@ =~= Map::<K::V, V::V>::empty());
            } else {
                assert(self@.contains_key(self.listing()[0].0));
            }
        }
        self.entries.len() == 0
    }

    /// The entries, in the order of their keys.
    pub fn into_entries(self) -> (entries: Vec<(K, V)>)
        ensures
            entries@.map_values(|e: (K, V)| e@) == listing_of::<K, V::V>(self@),
            is_listing::<K, V::V>(self@, listing_of::<K, V::V>(self@)),
    {
        proof {
            use_type_invariant(&self);
            lemma_map_of::<K, V::V>(self.listing());
            lemma_listing_unique::<K, V::V>(self@, self.listing());
        }
        self.entries
    }

    /// The entry at `index` in the order of the keys.
    pub fn entry(&self, index: usize) -> (e: &(K, V))
        requires
            index < listing_of::<K, V::V>(self@).len(),
        ensures
            e@ == listing_of::<K, V::V>(self@)[index as int],
    {
        proof {
            use_type_invariant(self);
            lemma_map_of::<K, V::V>(self.listing());
            lemma_listing_unique::<K, V::V>(self@, self.listing());
        }
        &self.entries[index]
    }

    /// The position of `key`: with `true` where its entry stands, with `false`
    /// where it would have to be inserted.
    fn find(&self, key: &K) -> (p: (usize, bool))
        ensures
            p.0 <= self.listing().len(),
            forall|i: int| 0 <= i < p.0 ==> K::before(#[trigger] self.listing()[i].0, key@),
            p.1 ==> p.0 < self.listing().len() && self.listing()[p.0 as int].0 == key@,
            !p.1 ==> forall|i: int|
                p.0 <= i < self.listing().len() ==> K::before(key@, #[trigger] self.listing()[i].0),
    {
        proof {
            use_type_invariant(self);
            K::lemma_order();
        }
        let ghost l = self.listing();
        let mut low: usize = 0;
        let mut high: usize = self.entries.len();
        while low < high
            invariant
                low <= high <= self.entries.len(),
                l == self.listing(),
                l.len() == self.entries.len(),
                increasing::<K, V::V>(l),
                forall|a: K::V, b: K::V, c: K::V| #[trigger]
                    K::before(a, b) && #[trigger] K::before(b, c) ==> K::before(a, c),
                forall|i: int| 0 <= i < low ==> K::before(#[trigger] l[i].0, key@),
                forall|i: int| high <= i < l.len() ==> K::before(key@, #[trigger] l[i].0),
            decreases high - low,
        {
            let middle: usize = low + (high - low) / 2;
            assert(l[middle as int].0 == self.entries@[middle as int].0@);
            match self.entries[middle].0.rank(key) {
                Comparison::Before => {
                    low = middle + 1;
                },
                Comparison::Same => {
                    return (middle, true);
                },
                Comparison::After => {
                    high = middle;
                },
            }
        }
        (low, false)
    }

    /// The value of `key`.
    pub fn get(&self, key: &K) -> (value: Option<&V>)
        ensures
            value is Some <==> self@.contains_key(key@),
            value matches Some(v) ==> v@ == self@[key@],
    {
        let p = self.find(key);
        proof {
            use_type_invariant(self);
            K::lemma_order();
            lemma_map_of::<K, V::V>(self.listing());
        }
        if p.1 {
            assert(self.listing()[p.0 as int] == self.entries@[p.0 as int]@);
            Some(&self.entries[p.0].1)
        } else {
            None
        }
    }

    /// Gives `key` the value `value`, in place of one that it had.
    pub fn insert(&mut self, key: K, value: V)
        ensures
            final(self)@ == old(self)@.insert(key@, value@),
    {
        let p = self.find(&key);
        let ghost before = self.listing();
        proof {
            use_type_invariant(&*self);
            K::lemma_order();
            lemma_map_of::<K, V::V>(before);
        }
        let mut entries: Vec<(K, V)> = Vec::new();
        std::mem::swap(&mut entries, &mut self.entries);
        let ghost entry = (key@, value@);
        if p.1 {
            entries.set(p.0, (key, value));
        } else {
            entries.insert(p.0, (key, value));
        }
        let ghost after = entries@.map_values(|e: (K, V)| e@);
        proof {
            if p.1 {
                assert(after =~= before.update(p.0 as int, entry));
            } else {
                assert(after =~= before.insert(p.0 as int, entry));
            }
            lemma_inserted::<K, V::V>(before, p.0 as int, p.1, entry);
        }
        self.entries = entries;
    }
}

impl Clone for SortedMap<String, String> {
    fn clone(&self) -> (m: Self)
        ensures
            m@ == self@,
    {
        let mut entries: Vec<(String, String)> = Vec::new();
        let mut i: usize = 0;
        while i < self.entries.len()
            invariant
                i <= self.entries.len(),
                entries@.len() == i,
                forall|j: int| 0 <= j < i ==> #[trigger] entries@[j] == self.entries@[j],
            decreases self.entries.len() - i,
        {
            entries.push((self.entries[i].0.clone(), self.entries[i].1.clone()));
            i += 1;
        }
        proof {
            use_type_invariant(self);
            assert(entries@ =~= self.entries@);
        }
        SortedMap { entries }
    }
}

} // verus!
