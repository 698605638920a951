//! A set of strings, kept in the order in which they first came.

use vstd::prelude::*;

verus! {

/// Distinct strings. The field holds no string twice.
#[derive(Debug)]
pub struct StringSet {
    values: Vec<String>,
}

/// The text of each string of `values`.
pub open spec fn texts(values: Seq<String>) -> Seq<Seq<char>> {
    values.map_values(|value: String| value@)
}

impl View for StringSet {
    type V = Set<Seq<char>>;

    closed spec fn view(&self) -> Set<Seq<char>> {
        texts(self.values@).to_set()
    }
}

impl StringSet {
    #[verifier::type_invariant]
    spec fn no_string_twice(self) -> bool {
        texts(self.values@).no_duplicates()
    }

    /// The empty set.
    pub fn new() -> (set: StringSet)
        ensures
            set@ == Set::<Seq<char>>::empty(),
    {
        let values: Vec<String> = Vec::new();
        assert(texts(values@).to_set() =~= Set::<Seq<char>>::empty());
        StringSet { values }
    }

    /// The strings of `values`, each once.
    pub fn from_values(values: Vec<String>) -> (set: StringSet)
        ensures
            set@ == texts(values@).to_set(),
    {
        let mut set = StringSet::new();
        assert(texts(values@.take(0)).to_set() =~= Set::<Seq<char>>::empty());
        for i in 0..values.len()
            invariant
                set@ == texts(values@.take(i as int)).to_set(),
        {
            proof {
                lemma_texts_take(values@, i as int);
            }
            set.insert(values[i].clone());
        }
        assert(values@.take(values@.len() as int) =~= values@);
        set
    }

    /// How many strings the set holds.
    pub fn len(&self) -> (count: usize)
        ensures
            self@.finite(),
            count == self@.len(),
    {
        proof {
            use_type_invariant(self);
            texts(self.values@).unique_seq_to_set();
        }
        self.values.len()
    }

    /// The strings of the set, each once.
    pub fn values(&self) -> (values: &Vec<String>)
        ensures
            texts(values@).to_set() == self@,
            texts(values@).no_duplicates(),
    {
        proof {
            use_type_invariant(self);
        }
        &self.values
    }

    /// Whether `value` is in the set.
    pub fn contains(&self, value: &String) -> (found: bool)
        ensures
            found == self@.contains(value@),
    {
        for i in 0..self.values.len()
            invariant
                forall|j: int| 0 <= j < i ==> #[trigger] texts(self.values@)[j] != value@,
        {
            if self.values[i] == *value {
                assert(texts(self.values@)[i as int] == value@);
                assert(texts(self.values@).contains(value@));
                return true;
            }
        }
        assert(!texts(self.values@).contains(value@));
        false
    }

    /// Puts `value` into the set. Says whether it was not there before.
    pub fn insert(&mut self, value: String) -> (added: bool)
        ensures
            final(self)@ == old(self)@.insert(value@),
            added == !old(self)@.contains(value@),
    {
        if self.contains(&value) {
            assert(self@.insert(value@) =~= self@);
            return false;
        }
        proof {
            use_type_invariant(&*self);
        }
        let ghost before = self.values@;
        let mut values: Vec<String> = Vec::new();
        std::mem::swap(&mut values, &mut self.values);
        proof {
            assert(texts(before.push(value)) =~= texts(before).push(value@));
            texts(before).lemma_push_to_set_commute(value@);
            assert(!texts(before).contains(value@));
        }
        values.push(value);
        self.values = values;
        true
    }

    /// Puts every string of `other` into the set.
    pub fn extend(&mut self, other: &StringSet)
        ensures
            final(self)@ == old(self)@.union(other@),
    {
        assert(other.values@.take(0).len() == 0);
        assert(self@.union(texts(other.values@.take(0)).to_set()) =~= self@);
        for i in 0..other.values.len()
            invariant
                self@ == old(self)@.union(texts(other.values@.take(i as int)).to_set()),
        {
            proof {
                lemma_texts_take(other.values@, i as int);
            }
            let ghost before = self@;
            self.insert(other.values[i].clone());
            assert(self@ =~= old(self)@.union(texts(other.values@.take(i + 1)).to_set()));
        }
        assert(other.values@.take(other.values@.len() as int) =~= other.values@);
    }
}

impl Clone for StringSet {
    fn clone(&self) -> (copy: StringSet)
        ensures
            copy@ == self@,
    {
        let mut copy = StringSet::new();
        copy.extend(self);
        assert(copy@ =~= self@);
        copy
    }
}

proof fn lemma_texts_take(values: Seq<String>, i: int)
    requires
        0 <= i < values.len(),
    ensures
        texts(values.take(i + 1)).to_set() == texts(values.take(i)).to_set().insert(values[i]@),
{
    assert(texts(values.take(i + 1)) =~= texts(values.take(i)).push(values[i]@));
    texts(values.take(i)).lemma_push_to_set_commute(values[i]@);
}

} // verus!
