//! Metrics: what an event carries and what the exporter keeps of each series.

use std::hash::{Hash, Hasher};
use vstd::prelude::*;

use crate::feeding::feed;
use crate::string_set::StringSet;
use crate::tags::{ascending, same_tags, tag_texts, Tags};

verus! {

/// Whether a metric adds to what its series held before or takes its place.
#[derive(Clone, Copy, Debug, PartialEq, Eq, Structural)]
pub enum MetricKind {
    Incremental,
    Absolute,
}

/// What a metric has measured.
#[derive(Debug)]
pub enum MetricValue {
    /// The distinct strings seen.
    StringSet { values: StringSet },
    /// Numbers. `shape` tells the sort of value (a counter, a gauge, a histogram with certain
    /// bounds, and so on): only values of one shape can be added up. `data` holds the bit patterns
    /// of the numbers, which nothing here takes apart.
    Numeric { shape: Vec<u64>, data: Vec<u64> },
}

/// A metric as an event carries it.
#[derive(Debug)]
pub struct Metric {
    pub name: String,
    pub namespace: Option<String>,
    /// Milliseconds since the Unix epoch.
    pub timestamp: Option<i64>,
    pub tags: Option<Tags>,
    pub kind: MetricKind,
    pub value: MetricValue,
}

/// The value of a metric, as contracts speak of it.
#[verifier::ext_equal]
pub ghost enum ValueView {
    StringSet { values: Set<Seq<char>> },
    Numeric { shape: Seq<u64>, data: Seq<u64> },
}

/// A metric, as contracts speak of it.
#[verifier::ext_equal]
pub ghost struct MetricView {
    pub name: Seq<char>,
    pub namespace: Option<Seq<char>>,
    pub timestamp: Option<i64>,
    pub tags: Option<Seq<(Seq<char>, Seq<char>)>>,
    pub kind: MetricKind,
    pub value: ValueView,
}

/// The sort of a value: a set, or numbers of a certain shape.
#[verifier::ext_equal]
pub ghost enum Shape {
    StringSet,
    Numeric { shape: Seq<u64> },
}

/// What makes two metrics belong together: everything but what was measured and when.
#[verifier::ext_equal]
pub ghost struct Series {
    pub name: Seq<char>,
    pub namespace: Option<Seq<char>>,
    pub tags: Option<Seq<(Seq<char>, Seq<char>)>>,
    pub kind: MetricKind,
    pub shape: Shape,
}

pub open spec fn text(value: Option<String>) -> Option<Seq<char>> {
    match value {
        Some(value) => Some(value@),
        None => None,
    }
}

pub open spec fn tags_of(tags: Option<Tags>) -> Option<Seq<(Seq<char>, Seq<char>)>> {
    match tags {
        Some(tags) => Some(tags@),
        None => None,
    }
}

/// The names and values of tags, one after the other.
pub open spec fn tag_parts(tags: Seq<(Seq<char>, Seq<char>)>) -> Seq<Seq<char>>
    decreases tags.len(),
{
    if tags.len() == 0 {
        seq![]
    } else {
        tag_parts(tags.drop_last()).push(tags.last().0).push(tags.last().1)
    }
}

/// The texts of `parts`.
pub open spec fn part_texts(parts: Seq<&String>) -> Seq<Seq<char>> {
    parts.map_values(|part: &String| part@)
}

impl View for MetricValue {
    type V = ValueView;

    open spec fn view(&self) -> ValueView {
        match self {
            MetricValue::StringSet { values } => ValueView::StringSet { values: values@ },
            MetricValue::Numeric { shape, data } => ValueView::Numeric {
                shape: shape@,
                data: data@,
            },
        }
    }
}

impl View for Metric {
    type V = MetricView;

    open spec fn view(&self) -> MetricView {
        MetricView {
            name: self.name@,
            namespace: text(self.namespace),
            timestamp: self.timestamp,
            tags: tags_of(self.tags),
            kind: self.kind,
            value: self.value@,
        }
    }
}

impl ValueView {
    pub open spec fn shape(self) -> Shape {
        match self {
            ValueView::StringSet { .. } => Shape::StringSet,
            ValueView::Numeric { shape, .. } => Shape::Numeric { shape },
        }
    }

    /// This value and `other` together. Two sets give their union. Numbers of one shape give
    /// `total`, which stands for their sum. A value of another shape adds nothing.
    pub open spec fn plus(self, other: ValueView, total: Seq<u64>) -> ValueView {
        match (self, other) {
            (ValueView::StringSet { values }, ValueView::StringSet { values: more }) => ValueView::StringSet {
                values: values.union(more),
            },
            (
                ValueView::Numeric { shape, .. },
                ValueView::Numeric { shape: other_shape, .. },
            ) if shape == other_shape => ValueView::Numeric { shape, data: total },
            _ => self,
        }
    }

    /// The numbers of the value; none for a set.
    pub open spec fn numbers(self) -> Seq<u64> {
        match self {
            ValueView::StringSet { .. } => seq![],
            ValueView::Numeric { data, .. } => data,
        }
    }
}

impl MetricView {
    pub open spec fn series(self) -> Series {
        Series {
            name: self.name,
            namespace: self.namespace,
            tags: self.tags,
            kind: self.kind,
            shape: self.value.shape(),
        }
    }

    /// Whether the tags are listed in ascending order of their names, each name once. The type of
    /// a metric's tags sees to it.
    pub open spec fn has_ascending_tags(self) -> bool {
        self.tags matches Some(tags) ==> ascending(tags)
    }

    /// What the hash of the metric is made of: the name, the namespace and the tags.
    pub open spec fn hash_parts(self) -> Seq<Seq<char>> {
        seq![self.name] + (match self.namespace {
            Some(namespace) => seq![namespace],
            None => seq![],
        }) + (match self.tags {
            Some(tags) => tag_parts(tags),
            None => seq![],
        })
    }

    pub open spec fn to_absolute(self) -> MetricView {
        MetricView { kind: MetricKind::Absolute, ..self }
    }

    pub open spec fn reset(self) -> MetricView {
        MetricView { value: ValueView::StringSet { values: Set::empty() }, ..self }
    }

    pub open spec fn plus(self, other: MetricView, total: Seq<u64>) -> MetricView {
        MetricView { value: self.value.plus(other.value, total), ..self }
    }
}

impl MetricValue {
    /// Whether the value is a set of strings.
    pub fn is_set(&self) -> (answer: bool)
        ensures
            answer == (self@ is StringSet),
    {
        match self {
            MetricValue::StringSet { .. } => true,
            MetricValue::Numeric { .. } => false,
        }
    }
}

impl Clone for MetricValue {
    fn clone(&self) -> (copy: MetricValue)
        ensures
            copy@ == self@,
    {
        match self {
            MetricValue::StringSet { values } => MetricValue::StringSet { values: values.clone() },
            MetricValue::Numeric { shape, data } => MetricValue::Numeric {
                shape: copy_numbers(shape),
                data: copy_numbers(data),
            },
        }
    }
}

impl Metric {
    /// The same metric, to take the place of what its series held.
    pub fn to_absolute(&self) -> (absolute: Metric)
        ensures
            absolute@ == self@.to_absolute(),
            absolute@.has_ascending_tags(),
    {
        Metric {
            name: self.name.clone(),
            namespace: copy_text(&self.namespace),
            timestamp: self.timestamp,
            tags: copy_tags(&self.tags),
            kind: MetricKind::Absolute,
            value: self.value.clone(),
        }
    }

    /// Empties the set that the metric holds.
    pub fn reset(&mut self)
        requires
            old(self)@.value is StringSet,
        ensures
            final(self)@ == old(self)@.reset(),
    {
        self.value = MetricValue::StringSet { values: StringSet::new() };
    }

    /// Adds what `other` has measured. `total` is the sum of the numbers of both, if they hold
    /// numbers of one shape, and is not used otherwise.
    pub fn add(&mut self, other: &Metric, total: Vec<u64>)
        ensures
            final(self)@ == old(self)@.plus(other@, total@),
    {
        let mut value = MetricValue::Numeric { shape: Vec::new(), data: Vec::new() };
        std::mem::swap(&mut value, &mut self.value);
        self.value = match (value, &other.value) {
            (MetricValue::StringSet { values }, MetricValue::StringSet { values: more }) => {
                let mut values = values;
                values.extend(more);
                MetricValue::StringSet { values }
            },
            (
                MetricValue::Numeric { shape, data },
                MetricValue::Numeric { shape: other_shape, .. },
            ) => {
                if same_numbers(&shape, other_shape) {
                    MetricValue::Numeric { shape, data: total }
                } else {
                    MetricValue::Numeric { shape, data }
                }
            },
            (value, _) => value,
        };
    }
}

/// A metric that is found again by its series.
#[derive(Debug)]
pub struct MetricEntry {
    pub metric: Metric,
}

impl View for MetricEntry {
    type V = MetricView;

    open spec fn view(&self) -> MetricView {
        self.metric@
    }
}

impl MetricEntry {
    pub fn new(metric: Metric) -> (entry: MetricEntry)
        ensures
            entry.metric == metric,
    {
        MetricEntry { metric }
    }

    pub fn get_ref(&self) -> (metric: &Metric)
        ensures
            *metric == self.metric,
    {
        &self.metric
    }

    pub fn get_mut(&mut self) -> (metric: &mut Metric)
        ensures
            *metric == old(self).metric,
            final(self).metric == *final(metric),
    {
        &mut self.metric
    }

    /// What the hash of the entry is made of.
    pub fn hash_parts(&self) -> (parts: Vec<&String>)
        ensures
            part_texts(parts@) == self@.hash_parts(),
    {
        let mut parts: Vec<&String> = Vec::new();
        parts.push(&self.metric.name);
        assert(part_texts(parts@) =~= seq![self@.name]);
        if let Some(namespace) = &self.metric.namespace {
            let ghost before = parts@;
            parts.push(namespace);
            assert(part_texts(parts@) =~= part_texts(before).push(namespace@));
        }
        let ghost head = part_texts(parts@);
        assert(head =~= seq![self@.name] + (match self@.namespace {
            Some(namespace) => seq![namespace],
            None => seq![],
        }));
        match &self.metric.tags {
            Some(tags) => {
                push_tags(&mut parts, tags);
            },
            None => {},
        }
        assert(part_texts(parts@) =~= self@.hash_parts());
        parts
    }
}

impl PartialEq for MetricEntry {
    fn eq(&self, other: &MetricEntry) -> (same: bool) {
        same_series(&self.metric, &other.metric)
    }
}

impl vstd::std_specs::cmp::PartialEqSpecImpl for MetricEntry {
    open spec fn obeys_eq_spec() -> bool {
        true
    }

    open spec fn eq_spec(&self, other: &MetricEntry) -> bool {
        self@.series() == other@.series()
    }
}

impl Eq for MetricEntry {

}

/// Whether `states` are the states of a hasher that goes from `before` to `after` in `steps` steps.
pub open spec fn leads<H: Hasher>(states: Seq<H>, steps: nat, before: H, after: H) -> bool {
    &&& states.len() == steps + 1
    &&& states[0] == before
    &&& states[steps as int] == after
}

/// Whether `i` is the number of a step: steps are counted from 0.
pub open spec fn is_step(i: int) -> bool {
    0 <= i
}

impl Hash for MetricEntry {
    /// Feeds the parts that `hash_parts` gives to the hasher, one after the other, and nothing else.
    fn hash<H: Hasher>(&self, state: &mut H)
        ensures
            exists|states: Seq<H>|
                {
                    &&& #[trigger] leads(
                        states,
                        self@.hash_parts().len(),
                        *old(state),
                        *final(state),
                    )
                    &&& forall|i: int| #[trigger]
                        is_step(i) && i < self@.hash_parts().len() ==> exists|part: String, r: &mut H|
                            {
                                &&& part@ == self@.hash_parts()[i]
                                &&& *r == states[i]
                                &&& *final(r) == states[i + 1]
                                &&& #[trigger] call_ensures(feed::<H>, (&part, r), ())
                            }
                },
    {
        let parts = self.hash_parts();
        let ghost mut states: Seq<H> = seq![*state];
        for i in 0..parts.len()
            invariant
                part_texts(parts@) == self@.hash_parts(),
                leads(states, i as nat, *old(state), *state),
                forall|j: int| #[trigger]
                    is_step(j) && j < i ==> exists|part: String, r: &mut H|
                        {
                            &&& part@ == self@.hash_parts()[j]
                            &&& *r == states[j]
                            &&& *final(r) == states[j + 1]
                            &&& #[trigger] call_ensures(feed::<H>, (&part, r), ())
                        },
        {
            let ghost before = states;
            assert(part_texts(parts@)[i as int] == parts@[i as int]@);
            feed(parts[i], state);
            proof {
                states = states.push(*state);
                assert forall|j: int| #[trigger] is_step(j) && j < i + 1 implies exists|
                    part: String,
                    r: &mut H,
                |
                    {
                        &&& part@ == self@.hash_parts()[j]
                        &&& *r == states[j]
                        &&& *final(r) == states[j + 1]
                        &&& #[trigger] call_ensures(feed::<H>, (&part, r), ())
                    } by {
                    if j < i {
                        assert(states[j] == before[j] && states[j + 1] == before[j + 1]);
                    }
                }
            }
        }
        assert(part_texts(parts@).len() == parts@.len());
    }
}

/// Whether two metrics belong to one series.
fn same_series(one: &Metric, other: &Metric) -> (same: bool)
    ensures
        same == (one@.series() == other@.series()),
{
    one.name == other.name && same_text(&one.namespace, &other.namespace) && same_tag_lists(
        &one.tags,
        &other.tags,
    ) && one.kind == other.kind && same_shape(&one.value, &other.value)
}

fn same_shape(one: &MetricValue, other: &MetricValue) -> (same: bool)
    ensures
        same == (one@.shape() == other@.shape()),
{
    match (one, other) {
        (MetricValue::StringSet { .. }, MetricValue::StringSet { .. }) => true,
        (
            MetricValue::Numeric { shape, .. },
            MetricValue::Numeric { shape: other_shape, .. },
        ) => same_numbers(shape, other_shape),
        _ => false,
    }
}

fn same_text(one: &Option<String>, other: &Option<String>) -> (same: bool)
    ensures
        same == (text(*one) == text(*other)),
{
    match (one, other) {
        (Some(one), Some(other)) => *one == *other,
        (None, None) => true,
        _ => false,
    }
}

fn same_tag_lists(one: &Option<Tags>, other: &Option<Tags>) -> (same: bool)
    ensures
        same == (tags_of(*one) == tags_of(*other)),
{
    match (one, other) {
        (Some(one), Some(other)) => same_tags(one, other),
        (None, None) => true,
        _ => false,
    }
}

/// Puts the names and values of `tags` at the end of `parts`.
fn push_tags<'a>(parts: &mut Vec<&'a String>, tags: &'a Tags)
    ensures
        part_texts(final(parts)@) == part_texts(old(parts)@) + tag_parts(tags@),
{
    let pairs = tags.pairs();
    assert(part_texts(parts@) =~= part_texts(old(parts)@) + tag_parts(tags@.take(0)));
    for i in 0..pairs.len()
        invariant
            tag_texts(pairs@) == tags@,
            part_texts(parts@) == part_texts(old(parts)@) + tag_parts(tags@.take(i as int)),
    {
        let ghost before = parts@;
        let ghost tag = tags@[i as int];
        assert(tag == (pairs@[i as int].0@, pairs@[i as int].1@));
        parts.push(&pairs[i].0);
        parts.push(&pairs[i].1);
        assert(tags@.take(i + 1).drop_last() =~= tags@.take(i as int));
        assert(part_texts(parts@) =~= part_texts(before).push(tag.0).push(tag.1));
        assert(part_texts(parts@) =~= part_texts(old(parts)@) + tag_parts(tags@.take(i + 1)));
    }
    assert(tags@.take(pairs@.len() as int) =~= tags@);
}

/// Whether two lists hold the same numbers.
fn same_numbers(one: &Vec<u64>, other: &Vec<u64>) -> (same: bool)
    ensures
        same == (one@ == other@),
{
    if one.len() != other.len() {
        return false;
    }
    for i in 0..one.len()
        invariant
            one.len() == other.len(),
            forall|j: int| 0 <= j < i ==> #[trigger] one@[j] == other@[j],
    {
        if one[i] != other[i] {
            assert(one@[i as int] != other@[i as int]);
            return false;
        }
    }
    assert(one@ =~= other@);
    true
}

pub(crate) fn copy_text(value: &Option<String>) -> (copy: Option<String>)
    ensures
        text(copy) == text(*value),
{
    match value {
        Some(value) => Some(value.clone()),
        None => None,
    }
}

pub(crate) fn copy_numbers(values: &Vec<u64>) -> (copy: Vec<u64>)
    ensures
        copy@ == values@,
{
    let copy: Vec<u64> = values.clone();
    assert(copy@ =~= values@);
    copy
}

fn copy_tags(tags: &Option<Tags>) -> (copy: Option<Tags>)
    ensures
        tags_of(copy) == tags_of(*tags),
        tags_of(copy) matches Some(list) ==> ascending(list),
{
    match tags {
        Some(tags) => Some(tags.clone()),
        None => None,
    }
}

} // verus!
