//! Sets of texts.
use crate::text;
use vstd::prelude::*;

verus! {

/// The characters of each text of `items`.
pub open spec fn texts(items: Seq<String>) -> Seq<Seq<char>> {
    items.map_values(|s: String| s@)
}

/// A longer list stands for the set with one text more.
pub proof fn lemma_push_to_set(before: Seq<Seq<char>>, added: Seq<char>)
    ensures
        before.push(added).to_set() == before.to_set().insert(added),
{
    assert forall|k: Seq<char>| #[trigger] before.push(added).contains(k) <==> (before.contains(k) || k
        == added) by {
        if before.contains(k) {
            let j = choose|j: int| 0 <= j < before.len() && before[j] == k;
            assert(before.push(added)[j] == k);
        }
        assert(before.push(added)[before.len() as int] == added);
    }
    assert(before.push(added).to_set() =~= before.to_set().insert(added));
}

/// A set of texts, listed in the order in which they came.
#[derive(Debug)]
pub struct TextSet {
    items: Vec<String>,
}

impl View for TextSet {
    type V = Set<Seq<char>>;

    closed spec fn view(&self) -> Set<Seq<char>> {
        texts(self.items@).to_set()
    }
}

impl TextSet {
    #[verifier::type_invariant]
    spec fn each_once(self) -> bool {
        texts(self.items@).no_duplicates()
    }

    /// The texts in the order in which they came.
    pub closed spec fn listed(&self) -> Seq<Seq<char>> {
        texts(self.items@)
    }

    /// The set without a text.
    pub fn new() -> (r: Self)
        ensures
            r@ == Set::<Seq<char>>::empty(),
            r.listed() == Seq::<Seq<char>>::empty(),
    {
        let r = TextSet { items: Vec::new() };
        assert(texts(r.items@) =~= Seq::<Seq<char>>::empty());
        assert(r@ =~= Set::<Seq<char>>::empty());
        r
    }

    /// Whether the set holds `item`.
    pub fn contains(&self, item: &String) -> (held: bool)
        ensures
            held == self@.contains(item@),
    {
        let held = text::holds_text(&self.items, item);
        proof {
            if held {
                let j = choose|j: int|
                    0 <= j < self.items@.len() && (#[trigger] self.items@[j])@ == item@;
                assert(texts(self.items@)[j] == item@);
            } else if texts(self.items@).contains(item@) {
                let j = choose|j: int|
                    0 <= j < texts(self.items@).len() && texts(self.items@)[j] == item@;
                assert(self.items@[j]@ == item@);
            }
        }
        held
    }

    /// Adds `item`, and says whether it is new.
    pub fn insert(&mut self, item: String) -> (fresh: bool)
        ensures
            final(self)@ == old(self)@.insert(item@),
            fresh == !old(self)@.contains(item@),
            final(self).listed() == if fresh {
                old(self).listed().push(item@)
            } else {
                old(self).listed()
            },
    {
        proof {
            use_type_invariant(&*self);
        }
        if self.contains(&item) {
            assert(self@ =~= old(self)@.insert(item@));
            return false;
        }
        let ghost before = texts(self.items@);
        let ghost added = item@;
        proof {
            assert(texts(self.items@.push(item)) =~= before.push(added));
            assert(before.push(added).no_duplicates()) by {
                assert(!before.contains(added));
            }
            lemma_push_to_set(before, added);
        }
        let mut items: Vec<String> = Vec::new();
        std::mem::swap(&mut items, &mut self.items);
        items.push(item);
        self.items = items;
        true
    }

    /// Adds every text of `other`.
    pub fn extend(&mut self, other: &TextSet)
        ensures
            final(self)@ == old(self)@.union(other@),
    {
        let ghost start = self@;
        let mut i: usize = 0;
        proof {
            assert(texts(other.items@).take(0).to_set() =~= Set::<Seq<char>>::empty());
            assert(start.union(Set::<Seq<char>>::empty()) =~= start);
        }
        while i < other.items.len()
            invariant
                i <= other.items.len(),
                self@ == start.union(texts(other.items@).take(i as int).to_set()),
            decreases other.items.len() - i,
        {
            let ghost all = texts(other.items@);
            proof {
                assert(all.take(i + 1) =~= all.take(i as int).push(all[i as int]));
                lemma_push_to_set(all.take(i as int), all[i as int]);
            }
            let _fresh = self.insert(other.items[i].clone());
            assert(self@ =~= start.union(all.take(i + 1).to_set()));
            i += 1;
        }
        assert(texts(other.items@).take(i as int) =~= texts(other.items@));
    }

    /// Removes `item`.
    pub fn remove(&mut self, item: &String)
        ensures
            final(self)@ == old(self)@.remove(item@),
    {
        proof {
            use_type_invariant(&*self);
        }
        let mut i: usize = 0;
        while i < self.items.len()
            invariant
                i <= self.items.len(),
                *self == *old(self),
                forall|j: int| 0 <= j < i ==> (#[trigger] self.items@[j])@ != item@,
            decreases self.items.len() - i,
        {
            if self.items[i] == *item {
                let ghost before = texts(self.items@);
                proof {
                    use_type_invariant(&*self);
                    let after = before.remove(i as int);
                    assert(texts(self.items@.remove(i as int)) =~= after);
                    assert(after.to_set() =~= before.to_set().remove(item@)) by {
                        assert(before[i as int] == item@);
                        assert forall|k: Seq<char>| after.contains(k) <==> (before.contains(k) && k
                            != item@) by {
                            if after.contains(k) {
                                let j = choose|j: int| 0 <= j < after.len() && after[j] == k;
                                if j < i {
                                    assert(before[j] == k);
                                } else {
                                    assert(before[j + 1] == k);
                                }
                            }
                            if before.contains(k) && k != item@ {
                                let j = choose|j: int| 0 <= j < before.len() && before[j] == k;
                                if j < i {
                                    assert(after[j] == k);
                                } else {
                                    assert(after[j - 1] == k);
                                }
                            }
                        }
                    }
                }
                let mut items: Vec<String> = Vec::new();
                std::mem::swap(&mut items, &mut self.items);
                let _removed = items.remove(i);
                self.items = items;
                return ;
            }
            i += 1;
        }
        proof {
            if self@.contains(item@) {
                let j = choose|j: int| 0 <= j < texts(self.items@).len() && texts(self.items@)[j] == item@;
                assert(self.items@[j]@ == item@);
            }
            assert(self@ =~= old(self)@.remove(item@));
        }
    }

    /// How many texts the set holds.
    pub fn len(&self) -> (n: usize)
        ensures
            n == self@.len(),
            n == self.listed().len(),
            self@.finite(),
    {
        proof {
            use_type_invariant(self);
            texts(self.items@).unique_seq_to_set();
        }
        self.items.len()
    }

    /// The texts, each once, in the order in which they came.
    pub fn to_vec(&self) -> (items: Vec<String>)
        ensures
            texts(items@) == self.listed(),
            texts(items@).no_duplicates(),
            texts(items@).to_set() == self@,
    {
        proof {
            use_type_invariant(self);
        }
        let mut items: Vec<String> = Vec::new();
        let mut i: usize = 0;
        while i < self.items.len()
            invariant
                i <= self.items.len(),
                items@ == self.items@.take(i as int),
            decreases self.items.len() - i,
        {
            items.push(self.items[i].clone());
            assert(self.items@.take(i + 1) =~= self.items@.take(i as int).push(self.items@[i as int]));
            i += 1;
        }
        assert(self.items@.take(i as int) =~= self.items@);
        items
    }
}

impl Clone for TextSet {
    fn clone(&self) -> (r: Self)
        ensures
            r@ == self@,
            r.listed() == self.listed(),
    {
        TextSet { items: self.to_vec() }
    }
}

} // verus!
