//! Tables that hold one value for each of some texts.
use crate::textset;
use vstd::prelude::*;

verus! {

/// A table from texts to values.
#[derive(Debug)]
pub struct TextTable<T: Copy> {
    keys: Vec<String>,
    values: Vec<T>,
}

impl<T: Copy> View for TextTable<T> {
    type V = Map<Seq<char>, T>;

    closed spec fn view(&self) -> Map<Seq<char>, T> {
        table_of(textset::texts(self.keys@), self.values@)
    }
}

/// The table with the key `keys[i]` and the value `values[i]` for each `i`.
spec fn table_of<T>(keys: Seq<Seq<char>>, values: Seq<T>) -> Map<Seq<char>, T> {
    Map::new(|k: Seq<char>| keys.contains(k), |k: Seq<char>| values[keys.index_of(k)])
}

proof fn lemma_entry<T>(keys: Seq<Seq<char>>, values: Seq<T>, i: int)
    requires
        keys.no_duplicates(),
        0 <= i < keys.len(),
    ensures
        table_of(keys, values).contains_key(keys[i]),
        table_of(keys, values)[keys[i]] == values[i],
{
    assert(keys.contains(keys[i]));
    assert(keys.index_of(keys[i]) == i);
}

impl<T: Copy> TextTable<T> {
    #[verifier::type_invariant]
    spec fn each_once(self) -> bool {
        &&& self.keys@.len() == self.values@.len()
        &&& textset::texts(self.keys@).no_duplicates()
    }

    /// The table without an entry.
    pub fn new() -> (r: Self)
        ensures
            r@ == Map::<Seq<char>, T>::empty(),
    {
        let r = TextTable { keys: Vec::new(), values: Vec::new() };
        assert(r@ =~= Map::<Seq<char>, T>::empty());
        r
    }

    /// Where `key` stands.
    fn position(&self, key: &String) -> (r: Option<usize>)
        ensures
            match r {
                Some(i) => i < self.keys@.len() && self.keys@[i as int]@ == key@,
                None => !textset::texts(self.keys@).contains(key@),
            },
    {
        let mut i: usize = 0;
        while i < self.keys.len()
            invariant
                i <= self.keys.len(),
                forall|j: int| 0 <= j < i ==> (#[trigger] self.keys@[j])@ != key@,
            decreases self.keys.len() - i,
        {
            if self.keys[i] == *key {
                return Some(i);
            }
            i += 1;
        }
        proof {
            if textset::texts(self.keys@).contains(key@) {
                let j = choose|j: int| 0 <= j < textset::texts(self.keys@).len() && textset::texts(self.keys@)[j] == key@;
                assert(self.keys@[j]@ == key@);
            }
        }
        None
    }

    /// The value for `key`.
    pub fn get(&self, key: &String) -> (r: Option<T>)
        ensures
            r == if self@.contains_key(key@) {
                Some(self@[key@])
            } else {
                None
            },
    {
        proof {
            use_type_invariant(self);
        }
        match self.position(key) {
            Some(i) => {
                proof {
                    lemma_entry(textset::texts(self.keys@), self.values@, i as int);
                    assert(textset::texts(self.keys@)[i as int] == key@);
                }
                Some(self.values[i])
            },
            None => None,
        }
    }

    /// Makes `value` the value for `key`.
    pub fn insert(&mut self, key: String, value: T)
        ensures
            final(self)@ == old(self)@.insert(key@, value),
    {
        proof {
            use_type_invariant(&*self);
        }
        let ghost before_keys = textset::texts(self.keys@);
        let ghost before_values = self.values@;
        let at = self.position(&key);
        let mut taken = TextTable { keys: Vec::new(), values: Vec::new() };
        std::mem::swap(&mut taken, self);
        proof {
            use_type_invariant(&taken);
        }
        let TextTable { keys: held_keys, values: held_values } = taken;
        let mut keys = held_keys;
        let mut values = held_values;
        match at {
            Some(i) => {
                values.set(i, value);
                proof {
                    let after = table_of(before_keys, values@);
                    let wanted = table_of(before_keys, before_values).insert(key@, value);
                    assert(before_keys[i as int] == key@);
                    assert(before_keys.contains(key@));
                    assert(after.dom() =~= wanted.dom());
                    assert forall|k: Seq<char>| #[trigger] before_keys.contains(k) implies after[k]
                        == wanted[k] by {
                        let j = choose|j: int| 0 <= j < before_keys.len() && before_keys[j] == k;
                        lemma_entry(before_keys, values@, j);
                        lemma_entry(before_keys, before_values, j);
                    }
                    assert(after =~= wanted);
                }
            },
            None => {
                proof {
                    let after_keys = before_keys.push(key@);
                    let after_values = before_values.push(value);
                    assert(textset::texts(keys@.push(key)) =~= after_keys);
                    assert(after_keys.no_duplicates());
                    let after = table_of(after_keys, after_values);
                    let wanted = table_of(before_keys, before_values).insert(key@, value);
                    assert forall|k: Seq<char>| #[trigger] after_keys.contains(k) <==> (
                    before_keys.contains(k) || k == key@) by {
                        if before_keys.contains(k) {
                            let j = choose|j: int| 0 <= j < before_keys.len() && before_keys[j] == k;
                            assert(after_keys[j] == k);
                        }
                        assert(after_keys[before_keys.len() as int] == key@);
                    }
                    assert(after.dom() =~= wanted.dom());
                    assert forall|k: Seq<char>| #[trigger] after_keys.contains(k) implies after[k]
                        == wanted[k] by {
                        let j = choose|j: int| 0 <= j < after_keys.len() && after_keys[j] == k;
                        lemma_entry(after_keys, after_values, j);
                        if j < before_keys.len() {
                            assert(before_keys[j] == k);
                            lemma_entry(before_keys, before_values, j);
                        }
                    }
                    assert(after =~= wanted);
                }
                keys.push(key);
                values.push(value);
            },
        }
        *self = TextTable { keys, values };
    }

    /// Removes the entry for `key`.
    pub fn remove(&mut self, key: &String)
        ensures
            final(self)@ == old(self)@.remove(key@),
    {
        proof {
            use_type_invariant(&*self);
        }
        match self.position(key) {
            None => {
                assert(self@ =~= old(self)@.remove(key@));
            },
            Some(i) => {
                let ghost before_keys = textset::texts(self.keys@);
                let ghost before_values = self.values@;
                let mut taken = TextTable { keys: Vec::new(), values: Vec::new() };
                std::mem::swap(&mut taken, self);
                proof {
                    use_type_invariant(&taken);
                    let after_keys = before_keys.remove(i as int);
                    let after_values = before_values.remove(i as int);
                    assert(textset::texts(taken.keys@.remove(i as int)) =~= after_keys);
                    assert(after_keys.no_duplicates());
                    assert(before_keys[i as int] == key@);
                    let after = table_of(after_keys, after_values);
                    let wanted = table_of(before_keys, before_values).remove(key@);
                    assert forall|k: Seq<char>| #[trigger] after_keys.contains(k) <==> (
                    before_keys.contains(k) && k != key@) by {
                        if after_keys.contains(k) {
                            let j = choose|j: int| 0 <= j < after_keys.len() && after_keys[j] == k;
                            if j < i {
                                assert(before_keys[j] == k);
                            } else {
                                assert(before_keys[j + 1] == k);
                            }
                        }
                        if before_keys.contains(k) && k != key@ {
                            let j = choose|j: int| 0 <= j < before_keys.len() && before_keys[j] == k;
                            if j < i {
                                assert(after_keys[j] == k);
                            } else {
                                assert(after_keys[j - 1] == k);
                            }
                        }
                    }
                    assert(after.dom() =~= wanted.dom());
                    assert forall|k: Seq<char>| #[trigger] after_keys.contains(k) implies after[k]
                        == wanted[k] by {
                        let j = choose|j: int| 0 <= j < after_keys.len() && after_keys[j] == k;
                        lemma_entry(after_keys, after_values, j);
                        let b = if j < i { j } else { j + 1 };
                        assert(before_keys[b] == k);
                        lemma_entry(before_keys, before_values, b);
                    }
                    assert(after =~= wanted);
                }
                let TextTable { keys: held_keys, values: held_values } = taken;
                let mut keys = held_keys;
                let mut values = held_values;
                let _key = keys.remove(i);
                let _value = values.remove(i);
                *self = TextTable { keys, values };
            },
        }
    }
}

} // verus!
