//! Label sets by name.
use vstd::prelude::*;

use crate::sorted_map::SortedMap;

verus! {

/// The labels of a sample or of a configuration: a value for each name.
pub type LabelMap = SortedMap<String, String>;

/// The labels that a sequence of names and values gives; of two values for one
/// name the later one holds.
pub open spec fn labels_given(pairs: Seq<(Seq<char>, Seq<char>)>) -> Map<Seq<char>, Seq<char>>
    decreases pairs.len(),
{
    if pairs.len() == 0 {
        Map::empty()
    } else {
        labels_given(pairs.drop_last()).insert(pairs.last().0, pairs.last().1)
    }
}

impl SortedMap<String, String> {
    /// The labels with the given names and values.
    pub fn from_pairs(pairs: &[(String, String)]) -> (labels: LabelMap)
        ensures
            labels@ == labels_given(crate::text::label_views(pairs@)),
    {
        let ghost views = crate::text::label_views(pairs@);
        let mut labels: LabelMap = SortedMap::new();
        let mut i: usize = 0;
        assert(views.take(0) =~= Seq::empty());
        while i < pairs.len()
            invariant
                i <= pairs.len(),
                views == crate::text::label_views(pairs@),
                labels@ == labels_given(views.take(i as int)),
            decreases pairs.len() - i,
        {
            labels.insert(pairs[i].0.clone(), pairs[i].1.clone());
            proof {
                let taken = views.take(i + 1);
                assert(taken.drop_last() =~= views.take(i as int));
                assert(taken.last() == views[i as int]);
            }
            i += 1;
        }
        assert(views.take(i as int) =~= views);
        labels
    }

    /// Adds the labels of `over`, which win over labels of the same name.
    pub fn overlay(&mut self, over: &LabelMap)
        ensures
            final(self)@ == old(self)@.union_prefer_right(over@),
    {
        let ghost base = self@;
        let ghost listed = crate::sorted_map::listing_of::<String, Seq<char>>(over@);
        let count: usize = over.len();
        let mut i: usize = 0;
        while i < count
            invariant
                i <= count,
                count == listed.len(),
                listed == crate::sorted_map::listing_of::<String, Seq<char>>(over@),
                crate::sorted_map::is_listing::<String, Seq<char>>(over@, listed),
                forall|k: Seq<char>| #[trigger]
                    self@.contains_key(k) <==> base.contains_key(k) || exists|j: int|
                        0 <= j < i && #[trigger] listed[j].0 == k,
                forall|j: int| 0 <= j < i ==> #[trigger] self@[listed[j].0] == listed[j].1,
                forall|k: Seq<char>| #[trigger]
                    self@.contains_key(k) && !over@.contains_key(k) ==> self@[k] == base[k],
            decreases count - i,
        {
            let ghost before = self@;
            let entry = over.entry(i);
            assert(entry@ == listed[i as int]);
            assert(over@.contains_key(listed[i as int].0));
            self.insert(entry.0.clone(), entry.1.clone());
            proof {
                <String as crate::sorted_map::Ranked>::lemma_order();
                assert(self@ == before.insert(listed[i as int].0, listed[i as int].1));
                assert forall|j: int| 0 <= j < i + 1 implies #[trigger] self@[listed[j].0]
                    == listed[j].1 by {
                    if j < i {
                        assert(crate::order::text_before(listed[j].0, listed[i as int].0));
                    }
                }
                assert forall|k: Seq<char>| #[trigger]
                    self@.contains_key(k) <==> base.contains_key(k) || exists|j: int|
                        0 <= j < i + 1 && #[trigger] listed[j].0 == k by {
                    if k == listed[i as int].0 {
                    } else if before.contains_key(k) && !base.contains_key(k) {
                        let j = choose|j: int| 0 <= j < i && #[trigger] listed[j].0 == k;
                        assert(listed[j].0 == k);
                    }
                }
            }
            i += 1;
        }
        proof {
            assert forall|k: Seq<char>| over@.contains_key(k) implies self@.contains_key(k)
                && self@[k] == over@[k] by {
                let j = choose|j: int| 0 <= j < listed.len() && #[trigger] listed[j].0 == k;
                assert(self@[listed[j].0] == listed[j].1);
                assert(over@.contains_key(listed[j].0));
            }
            assert forall|k: Seq<char>| self@.contains_key(k) implies base.contains_key(k)
                || over@.contains_key(k) by {
                if !base.contains_key(k) {
                    let j = choose|j: int| 0 <= j < listed.len() && #[trigger] listed[j].0 == k;
                    assert(over@.contains_key(listed[j].0));
                }
            }
            assert(self@ =~= base.union_prefer_right(over@));
        }
    }
}

} // verus!
