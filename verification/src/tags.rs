//! The tags of a metric: a map from names to values, listed in ascending order of the names.

use vstd::prelude::*;
use vstd::utf8::{encode_utf8, encode_utf8_decode_utf8};

verus! {

/// Tags. The field lists them in ascending order of the names, each name once.
#[derive(Debug)]
pub struct Tags {
    pairs: Vec<(String, String)>,
}

/// The texts of a list of names and values.
pub open spec fn tag_texts(pairs: Seq<(String, String)>) -> Seq<(Seq<char>, Seq<char>)> {
    pairs.map_values(|pair: (String, String)| (pair.0@, pair.1@))
}

/// Whether `a` and `b` agree up to `k`, and `a` ends there or goes on with a smaller byte.
pub open spec fn comes_first_at(a: Seq<u8>, b: Seq<u8>, k: int) -> bool {
    &&& 0 <= k <= a.len()
    &&& k < b.len()
    &&& forall|j: int| 0 <= j < k ==> #[trigger] a[j] == b[j]
    &&& k == a.len() || a[k] < b[k]
}

/// Whether the text `a` comes before the text `b`: by their bytes, as strings are ordered.
pub open spec fn comes_first(a: Seq<char>, b: Seq<char>) -> bool {
    exists|k: int| comes_first_at(encode_utf8(a), encode_utf8(b), k)
}

/// Whether the names ascend. No name occurs twice then.
pub open spec fn ascending(tags: Seq<(Seq<char>, Seq<char>)>) -> bool {
    forall|i: int, j: int|
        0 <= i < j < tags.len() ==> comes_first((#[trigger] tags[i]).0, (#[trigger] tags[j]).0)
}

/// The map from names to values that a list gives. Of two values for one name the later counts.
pub open spec fn tag_map(tags: Seq<(Seq<char>, Seq<char>)>) -> Map<Seq<char>, Seq<char>>
    decreases tags.len(),
{
    if tags.len() == 0 {
        Map::empty()
    } else {
        tag_map(tags.drop_last()).insert(tags.last().0, tags.last().1)
    }
}

impl View for Tags {
    type V = Seq<(Seq<char>, Seq<char>)>;

    closed spec fn view(&self) -> Seq<(Seq<char>, Seq<char>)> {
        tag_texts(self.pairs@)
    }
}

impl Tags {
    #[verifier::type_invariant]
    spec fn names_ascend(self) -> bool {
        ascending(tag_texts(self.pairs@))
    }

    /// No tags.
    pub fn new() -> (tags: Tags)
        ensures
            tags@ == Seq::<(Seq<char>, Seq<char>)>::empty(),
    {
        let pairs: Vec<(String, String)> = Vec::new();
        assert(tag_texts(pairs@) =~= seq![]);
        Tags { pairs }
    }

    /// The tags that a list of names and values gives. Of two values for one name the later counts.
    pub fn from_pairs(pairs: Vec<(String, String)>) -> (tags: Tags)
        ensures
            ascending(tags@),
            tag_map(tags@) == tag_map(tag_texts(pairs@)),
    {
        let mut tags = Tags::new();
        assert(tag_texts(pairs@).take(0) =~= seq![]);
        for i in 0..pairs.len()
            invariant
                ascending(tags@),
                tag_map(tags@) == tag_map(tag_texts(pairs@).take(i as int)),
        {
            tags.insert(pairs[i].0.clone(), pairs[i].1.clone());
            assert(tag_texts(pairs@).take(i + 1).drop_last() =~= tag_texts(pairs@).take(i as int));
        }
        assert(tag_texts(pairs@).take(pairs@.len() as int) =~= tag_texts(pairs@));
        tags
    }

    /// The names and their values, in ascending order of the names.
    pub fn pairs(&self) -> (pairs: &Vec<(String, String)>)
        ensures
            tag_texts(pairs@) == self@,
            ascending(self@),
    {
        proof {
            use_type_invariant(self);
        }
        &self.pairs
    }

    /// Gives the tag `name` the value `value`, in place of the value that it had.
    pub fn insert(&mut self, name: String, value: String)
        ensures
            ascending(final(self)@),
            tag_map(final(self)@) == tag_map(old(self)@).insert(name@, value@),
    {
        proof {
            use_type_invariant(&*self);
        }
        let mut pairs: Vec<(String, String)> = Vec::new();
        assert(tag_texts(pairs@) =~= seq![]);
        std::mem::swap(&mut pairs, &mut self.pairs);
        let ghost before = tag_texts(pairs@);
        let ghost pair = (name@, value@);
        let mut i: usize = 0;
        while i < pairs.len() && is_before(&pairs[i].0, &name)
            invariant
                i <= pairs.len(),
                tag_texts(pairs@) == before,
                forall|j: int| 0 <= j < i ==> comes_first((#[trigger] before[j]).0, name@),
            decreases pairs.len() - i,
        {
            assert(before[i as int].0 == pairs@[i as int].0@);
            i = i + 1;
        }
        if i < pairs.len() && pairs[i].0 == name {
            pairs.set(i, (name, value));
            assert(tag_texts(pairs@) =~= before.update(i as int, pair));
            proof {
                lemma_tags_replaced(before, i as int, pair);
            }
        } else {
            proof {
                if i < pairs.len() {
                    assert(before[i as int].0 == pairs@[i as int].0@);
                    lemma_one_comes_first(name@, before[i as int].0);
                }
                lemma_tags_added(before, i as int, pair);
            }
            pairs.insert(i, (name, value));
            assert(tag_texts(pairs@) =~= before.insert(i as int, pair));
        }
        self.pairs = pairs;
    }
}

impl Clone for Tags {
    fn clone(&self) -> (copy: Tags)
        ensures
            copy@ == self@,
            ascending(copy@),
    {
        proof {
            use_type_invariant(self);
        }
        let mut pairs: Vec<(String, String)> = Vec::new();
        assert(tag_texts(pairs@) =~= self@.take(0));
        for i in 0..self.pairs.len()
            invariant
                tag_texts(pairs@) == self@.take(i as int),
        {
            let ghost before = pairs@;
            pairs.push((self.pairs[i].0.clone(), self.pairs[i].1.clone()));
            assert(tag_texts(pairs@) =~= tag_texts(before).push(self@[i as int]));
            assert(self@.take(i + 1) =~= self@.take(i as int).push(self@[i as int]));
        }
        assert(self@.take(self.pairs@.len() as int) =~= self@);
        Tags { pairs }
    }
}

/// Whether two lists of tags are the same.
pub(crate) fn same_tags(one: &Tags, other: &Tags) -> (same: bool)
    ensures
        same == (one@ == other@),
{
    if one.pairs.len() != other.pairs.len() {
        assert(one@.len() != other@.len());
        return false;
    }
    for i in 0..one.pairs.len()
        invariant
            one.pairs.len() == other.pairs.len(),
            forall|j: int| 0 <= j < i ==> #[trigger] one@[j] == other@[j],
    {
        if !(one.pairs[i].0 == other.pairs[i].0 && one.pairs[i].1 == other.pairs[i].1) {
            assert(one@[i as int] != other@[i as int]);
            return false;
        }
    }
    assert(one@ =~= other@);
    true
}

/// Whether `a` comes before `b`.
fn is_before(a: &String, b: &String) -> (answer: bool)
    ensures
        answer == comes_first(a@, b@),
{
    let x = a.as_str().as_bytes();
    let y = b.as_str().as_bytes();
    let mut i: usize = 0;
    while i < x.len() && i < y.len() && x[i] == y[i]
        invariant
            i <= x.len(),
            i <= y.len(),
            forall|j: int| 0 <= j < i ==> #[trigger] x@[j] == y@[j],
        decreases x.len() - i,
    {
        i = i + 1;
    }
    let answer = i < y.len() && (i == x.len() || x[i] < y[i]);
    proof {
        if answer {
            assert(comes_first_at(x@, y@, i as int));
        } else {
            assert forall|k: int| !comes_first_at(x@, y@, k) by {
                if comes_first_at(x@, y@, k) {
                    if k < i {
                        assert(x@[k] == y@[k]);
                    } else if i < k {
                        assert(x@[i as int] == y@[i as int]);
                    }
                }
            }
        }
    }
    answer
}

/// No text comes before itself, and of two only one comes before the other.
pub(crate) proof fn lemma_comes_first_is_strict(a: Seq<char>, b: Seq<char>)
    ensures
        !comes_first(a, a),
        comes_first(a, b) ==> !comes_first(b, a),
{
    let x = encode_utf8(a);
    let y = encode_utf8(b);
    if comes_first(a, a) {
        let k = choose|k: int| comes_first_at(x, x, k);
        assert(comes_first_at(x, x, k));
    }
    if comes_first(a, b) && comes_first(b, a) {
        let k = choose|k: int| comes_first_at(x, y, k);
        let l = choose|l: int| comes_first_at(y, x, l);
        assert(comes_first_at(x, y, k) && comes_first_at(y, x, l));
        if k < l {
            assert(y[k] == x[k]);
        } else if l < k {
            assert(x[l] == y[l]);
        }
    }
}

/// What comes before a text comes before all that the text comes before.
pub(crate) proof fn lemma_comes_first_is_transitive(a: Seq<char>, b: Seq<char>, c: Seq<char>)
    requires
        comes_first(a, b),
        comes_first(b, c),
    ensures
        comes_first(a, c),
{
    let x = encode_utf8(a);
    let y = encode_utf8(b);
    let z = encode_utf8(c);
    let k = choose|k: int| comes_first_at(x, y, k);
    let l = choose|l: int| comes_first_at(y, z, l);
    assert(comes_first_at(x, y, k) && comes_first_at(y, z, l));
    let m = if k < l { k } else { l };
    assert forall|j: int| 0 <= j < m implies #[trigger] x[j] == z[j] by {
        assert(x[j] == y[j]);
        assert(y[j] == z[j]);
    }
    if k < l {
        assert(y[k] == z[k]);
    } else if l < k {
        assert(x[l] == y[l]);
    }
    assert(comes_first_at(x, z, m));
}

/// Of two texts one comes before the other.
pub(crate) proof fn lemma_one_comes_first(a: Seq<char>, b: Seq<char>)
    requires
        a != b,
    ensures
        comes_first(a, b) || comes_first(b, a),
{
    encode_utf8_decode_utf8(a);
    encode_utf8_decode_utf8(b);
    lemma_first_difference(encode_utf8(a), encode_utf8(b), 0);
}

proof fn lemma_first_difference(x: Seq<u8>, y: Seq<u8>, from: int)
    requires
        x != y,
        0 <= from <= x.len(),
        from <= y.len(),
        forall|j: int| 0 <= j < from ==> #[trigger] x[j] == y[j],
    ensures
        exists|k: int| comes_first_at(x, y, k) || comes_first_at(y, x, k),
    decreases x.len() - from,
{
    if from < x.len() && from < y.len() && x[from] == y[from] {
        lemma_first_difference(x, y, from + 1);
    } else {
        if from == x.len() && from == y.len() {
            assert(x =~= y);
        }
        assert(comes_first_at(x, y, from) || comes_first_at(y, x, from));
    }
}

/// The map of an ascending list has its names, and for each of them the value in the list.
pub(crate) proof fn lemma_tag_map(tags: Seq<(Seq<char>, Seq<char>)>)
    requires
        ascending(tags),
    ensures
        forall|i: int|
            0 <= i < tags.len() ==> {
                &&& tag_map(tags).contains_key((#[trigger] tags[i]).0)
                &&& tag_map(tags)[tags[i].0] == tags[i].1
            },
        forall|name: Seq<char>| #[trigger]
            tag_map(tags).contains_key(name) ==> exists|i: int|
                0 <= i < tags.len() && (#[trigger] tags[i]).0 == name,
    decreases tags.len(),
{
    if tags.len() > 0 {
        let init = tags.drop_last();
        let last = tags.len() - 1;
        lemma_tag_map(init);
        assert forall|i: int| 0 <= i < tags.len() implies {
            &&& tag_map(tags).contains_key((#[trigger] tags[i]).0)
            &&& tag_map(tags)[tags[i].0] == tags[i].1
        } by {
            if i < last {
                assert(init[i] == tags[i]);
                assert(comes_first(tags[i].0, tags[last].0));
                lemma_comes_first_is_strict(tags[i].0, tags[last].0);
            }
        }
        assert forall|name: Seq<char>| #[trigger] tag_map(tags).contains_key(name) implies exists|
            i: int,
        | 0 <= i < tags.len() && (#[trigger] tags[i]).0 == name by {
            assert(tags[last] == tags.last());
            if name != tags[last].0 {
                assert(tag_map(init).contains_key(name));
                let i = choose|i: int| 0 <= i < init.len() && (#[trigger] init[i]).0 == name;
                assert(tags[i].0 == name);
            }
        }
    }
}

proof fn lemma_tags_replaced(
    tags: Seq<(Seq<char>, Seq<char>)>,
    i: int,
    pair: (Seq<char>, Seq<char>),
)
    requires
        ascending(tags),
        0 <= i < tags.len(),
        tags[i].0 == pair.0,
    ensures
        ascending(tags.update(i, pair)),
        tag_map(tags.update(i, pair)) == tag_map(tags).insert(pair.0, pair.1),
{
    let after = tags.update(i, pair);
    assert forall|j: int, k: int| 0 <= j < k < after.len() implies comes_first(
        (#[trigger] after[j]).0,
        (#[trigger] after[k]).0,
    ) by {
        assert(comes_first(tags[j].0, tags[k].0));
    }
    lemma_tag_map(tags);
    lemma_tag_map(after);
    let map = tag_map(tags).insert(pair.0, pair.1);
    assert forall|name: Seq<char>| tag_map(after).contains_key(name) <==> map.contains_key(name) by {
        if tag_map(after).contains_key(name) {
            let j = choose|j: int| 0 <= j < after.len() && (#[trigger] after[j]).0 == name;
            assert(tags[j].0 == name);
        }
        if map.contains_key(name) && name != pair.0 {
            let j = choose|j: int| 0 <= j < tags.len() && (#[trigger] tags[j]).0 == name;
            assert(after[j].0 == name);
        }
        assert(after[i].0 == pair.0);
    }
    assert forall|name: Seq<char>| tag_map(after).contains_key(name) implies tag_map(after)[name]
        == map[name] by {
        let j = choose|j: int| 0 <= j < after.len() && (#[trigger] after[j]).0 == name;
        assert(tag_map(after)[after[j].0] == after[j].1);
        assert(tag_map(tags)[tags[j].0] == tags[j].1);
        if j != i {
            if j < i {
                assert(comes_first(tags[j].0, tags[i].0));
            } else {
                assert(comes_first(tags[i].0, tags[j].0));
            }
            lemma_comes_first_is_strict(tags[j].0, tags[i].0);
        }
    }
    assert(tag_map(after) =~= map);
}

proof fn lemma_tags_added(
    tags: Seq<(Seq<char>, Seq<char>)>,
    i: int,
    pair: (Seq<char>, Seq<char>),
)
    requires
        ascending(tags),
        0 <= i <= tags.len(),
        forall|j: int| 0 <= j < i ==> comes_first((#[trigger] tags[j]).0, pair.0),
        i < tags.len() ==> comes_first(pair.0, tags[i].0),
    ensures
        ascending(tags.insert(i, pair)),
        tag_map(tags.insert(i, pair)) == tag_map(tags).insert(pair.0, pair.1),
{
    let after = tags.insert(i, pair);
    assert forall|j: int| i <= j < tags.len() implies comes_first(
        pair.0,
        (#[trigger] tags[j]).0,
    ) by {
        if i < j {
            assert(comes_first(tags[i].0, tags[j].0));
            lemma_comes_first_is_transitive(pair.0, tags[i].0, tags[j].0);
        }
    }
    assert forall|j: int, k: int| 0 <= j < k < after.len() implies comes_first(
        (#[trigger] after[j]).0,
        (#[trigger] after[k]).0,
    ) by {
        let a = if j < i { j } else { j - 1 };
        let b = if k < i { k } else { k - 1 };
        if j != i {
            assert(after[j] == tags[a]);
        }
        if k != i {
            assert(after[k] == tags[b]);
        }
    }
    lemma_tag_map(tags);
    lemma_tag_map(after);
    let map = tag_map(tags).insert(pair.0, pair.1);
    assert(after[i] == pair);
    assert forall|name: Seq<char>| tag_map(after).contains_key(name) <==> map.contains_key(name) by {
        if tag_map(after).contains_key(name) && name != pair.0 {
            let j = choose|j: int| 0 <= j < after.len() && (#[trigger] after[j]).0 == name;
            let a = if j < i { j } else { j - 1 };
            assert(tags[a].0 == name);
        }
        if map.contains_key(name) && name != pair.0 {
            let j = choose|j: int| 0 <= j < tags.len() && (#[trigger] tags[j]).0 == name;
            let b = if j < i { j } else { j + 1 };
            assert(after[b].0 == name);
        }
    }
    assert forall|name: Seq<char>| tag_map(after).contains_key(name) implies tag_map(after)[name]
        == map[name] by {
        let j = choose|j: int| 0 <= j < after.len() && (#[trigger] after[j]).0 == name;
        assert(tag_map(after)[after[j].0] == after[j].1);
        if j != i {
            let a = if j < i { j } else { j - 1 };
            assert(after[j] == tags[a]);
            assert(tag_map(tags)[tags[a].0] == tags[a].1);
            lemma_comes_first_is_strict(tags[a].0, pair.0);
            lemma_comes_first_is_strict(pair.0, tags[a].0);
        }
    }
    assert(tag_map(after) =~= map);
}

} // verus!
