//! What makes two metrics one series.

use std::hash::Hasher;
use vstd::prelude::*;
use vstd::std_specs::cmp::PartialEqSpec;
use vstd::utf8::encode_utf8;

use crate::expiring::ExpiringMetric;
use crate::feeding::feed;
use crate::metric::{
    is_step, leads, part_texts, tag_parts, Metric, MetricEntry, MetricValue, MetricView,
};
use crate::tags::{
    ascending, comes_first, comes_first_at, lemma_comes_first_is_strict, lemma_tag_map, tag_map,
};

verus! {

/// To be equal, as the set of metrics goes by, is an equivalence.
pub proof fn law_equality_is_an_equivalence(
    a: ExpiringMetric,
    b: ExpiringMetric,
    c: ExpiringMetric,
)
    ensures
        a.eq_spec(&a),
        a.eq_spec(&b) ==> b.eq_spec(&a),
        a.eq_spec(&b) && b.eq_spec(&c) ==> a.eq_spec(&c),
{
}

/// What was measured, when, and when it is flushed do not matter for whether two metrics are equal,
/// as long as the values are of one shape.
pub proof fn law_equality_ignores_measurements(a: ExpiringMetric, b: ExpiringMetric)
    requires
        b@.metric == (MetricView {
            timestamp: b@.metric.timestamp,
            value: b@.metric.value,
            ..a@.metric
        }),
        b@.metric.value.shape() == a@.metric.value.shape(),
    ensures
        a.eq_spec(&b),
{
}

/// Equal metrics hash alike: they hand the hasher the same parts in the same order, so wherever the
/// hash of one may take a hasher, the hash of the other may take it too.
pub proof fn law_equal_metrics_hash_alike<H: Hasher>(
    a: ExpiringMetric,
    b: ExpiringMetric,
    before: H,
    after: H,
)
    requires
        a.eq_spec(&b),
        exists|states: Seq<H>|
            {
                &&& #[trigger] leads(states, a@.metric.hash_parts().len(), before, after)
                &&& forall|i: int| #[trigger]
                    is_step(i) && i < a@.metric.hash_parts().len() ==> exists|part: String, r: &mut H|
                        {
                            &&& part@ == a@.metric.hash_parts()[i]
                            &&& *r == states[i]
                            &&& *final(r) == states[i + 1]
                            &&& #[trigger] call_ensures(feed::<H>, (&part, r), ())
                        }
            },
    ensures
        a@.metric.hash_parts() == b@.metric.hash_parts(),
        exists|states: Seq<H>|
            {
                &&& #[trigger] leads(states, b@.metric.hash_parts().len(), before, after)
                &&& forall|i: int| #[trigger]
                    is_step(i) && i < b@.metric.hash_parts().len() ==> exists|part: String, r: &mut H|
                        {
                            &&& part@ == b@.metric.hash_parts()[i]
                            &&& *r == states[i]
                            &&& *final(r) == states[i + 1]
                            &&& #[trigger] call_ensures(feed::<H>, (&part, r), ())
                        }
            },
{
}

/// When a metric is flushed does not matter for its hash: the hasher goes where the hash of the
/// entry alone may take it.
pub proof fn law_flush_is_not_hashed<H: Hasher>(
    metric: ExpiringMetric,
    entry: MetricEntry,
    before: H,
    after: H,
)
    requires
        entry@ == metric@.metric,
        exists|states: Seq<H>|
            {
                &&& #[trigger] leads(states, metric@.metric.hash_parts().len(), before, after)
                &&& forall|i: int| #[trigger]
                    is_step(i) && i < metric@.metric.hash_parts().len() ==> exists|part: String, r: &mut H|
                        {
                            &&& part@ == metric@.metric.hash_parts()[i]
                            &&& *r == states[i]
                            &&& *final(r) == states[i + 1]
                            &&& #[trigger] call_ensures(feed::<H>, (&part, r), ())
                        }
            },
    ensures
        exists|states: Seq<H>|
            {
                &&& #[trigger] leads(states, entry@.hash_parts().len(), before, after)
                &&& forall|i: int| #[trigger]
                    is_step(i) && i < entry@.hash_parts().len() ==> exists|part: String, r: &mut H|
                        {
                            &&& part@ == entry@.hash_parts()[i]
                            &&& *r == states[i]
                            &&& *final(r) == states[i + 1]
                            &&& #[trigger] call_ensures(feed::<H>, (&part, r), ())
                        }
            },
{
}

/// Tags can be listed in one way only: lists in ascending order that give the same map are the
/// same.
pub proof fn law_one_list_of_tags(
    a: Seq<(Seq<char>, Seq<char>)>,
    b: Seq<(Seq<char>, Seq<char>)>,
)
    requires
        ascending(a),
        ascending(b),
        tag_map(a) == tag_map(b),
    ensures
        a == b,
    decreases a.len(),
{
    lemma_tag_map(a);
    lemma_tag_map(b);
    if a.len() == 0 {
        if b.len() > 0 {
            assert(tag_map(a).contains_key(b[0].0));
        }
        assert(a =~= b);
    } else {
        assert(tag_map(b).contains_key(a[0].0));
        let p = a.len() - 1;
        let q = b.len() - 1;
        assert(tag_map(b).contains_key(a[p].0));
        assert(tag_map(a).contains_key(b[q].0));
        let j = choose|j: int| 0 <= j < b.len() && (#[trigger] b[j]).0 == a[p].0;
        let i = choose|i: int| 0 <= i < a.len() && (#[trigger] a[i]).0 == b[q].0;
        if j < q {
            assert(comes_first(b[j].0, b[q].0));
            if i < p {
                assert(comes_first(a[i].0, a[p].0));
            }
            lemma_comes_first_is_strict(a[p].0, a[i].0);
        }
        assert(a[p].0 == b[q].0);
        assert(tag_map(a)[a[p].0] == a[p].1 && tag_map(b)[b[q].0] == b[q].1);
        lemma_map_of_all_but_the_last(a);
        lemma_map_of_all_but_the_last(b);
        law_one_list_of_tags(a.drop_last(), b.drop_last());
        assert(a =~= a.drop_last().push(a[p]));
        assert(b =~= b.drop_last().push(b[q]));
    }
}

proof fn lemma_map_of_all_but_the_last(tags: Seq<(Seq<char>, Seq<char>)>)
    requires
        ascending(tags),
        tags.len() > 0,
    ensures
        ascending(tags.drop_last()),
        tag_map(tags.drop_last()) == tag_map(tags).remove(tags.last().0),
{
    let init = tags.drop_last();
    let last = tags.len() - 1;
    assert forall|i: int, j: int| 0 <= i < j < init.len() implies comes_first(
        (#[trigger] init[i]).0,
        (#[trigger] init[j]).0,
    ) by {
        assert(comes_first(tags[i].0, tags[j].0));
    }
    lemma_tag_map(init);
    if tag_map(init).contains_key(tags.last().0) {
        let i = choose|i: int| 0 <= i < init.len() && (#[trigger] init[i]).0 == tags.last().0;
        assert(comes_first(tags[i].0, tags[last].0));
        lemma_comes_first_is_strict(tags[i].0, tags[i].0);
    }
    assert(tag_map(init) =~= tag_map(tags).remove(tags.last().0));
}

/// The order in which the tags of a metric were given does not matter: metrics with the same map of
/// tags that agree in everything else belong to one series.
pub proof fn law_order_of_tags_does_not_matter(
    a: MetricView,
    b: MetricView,
    a_tags: Seq<(Seq<char>, Seq<char>)>,
    b_tags: Seq<(Seq<char>, Seq<char>)>,
)
    requires
        a.has_ascending_tags(),
        b.has_ascending_tags(),
        a.tags == Some(a_tags),
        b.tags == Some(b_tags),
        tag_map(a_tags) == tag_map(b_tags),
        b == (MetricView {
            tags: b.tags,
            timestamp: b.timestamp,
            value: b.value,
            ..a
        }),
        a.value.shape() == b.value.shape(),
    ensures
        a.series() == b.series(),
{
    law_one_list_of_tags(a_tags, b_tags);
}

/// Reading a metric as absolute, emptying its set and adding to it leave its tags in order.
pub proof fn law_tags_stay_in_order(metric: MetricView, other: MetricView, total: Seq<u64>)
    requires
        metric.has_ascending_tags(),
    ensures
        metric.to_absolute().has_ascending_tags(),
        metric.reset().has_ascending_tags(),
        metric.plus(other, total).has_ascending_tags(),
{
}

/// Whether two metrics agree in all that tells series apart: the name, the namespace, every tag, the
/// kind, and the sort of the value.
pub open spec fn agree(a: Metric, b: Metric) -> bool {
    &&& a.name@ == b.name@
    &&& match (a.namespace, b.namespace) {
        (Some(x), Some(y)) => x@ == y@,
        (None, None) => true,
        _ => false,
    }
    &&& match (a.tags, b.tags) {
        (Some(x), Some(y)) => x@ == y@,
        (None, None) => true,
        _ => false,
    }
    &&& a.kind == b.kind
    &&& match (a.value, b.value) {
        (MetricValue::StringSet { .. }, MetricValue::StringSet { .. }) => true,
        (MetricValue::Numeric { shape: x, .. }, MetricValue::Numeric { shape: y, .. }) => x@ == y@,
        _ => false,
    }
}

/// Two metrics are equal, as the set of metrics goes by, exactly if they agree in the name, the
/// namespace, every tag, the kind, and the sort of the value: a difference in any of these splits
/// them.
pub proof fn law_what_splits_series(a: ExpiringMetric, b: ExpiringMetric)
    ensures
        <ExpiringMetric as PartialEqSpec>::obeys_eq_spec(),
        a.eq_spec(&b) <==> agree(a.inner.metric, b.inner.metric),
{
    lemma_series(a.inner.metric, b.inner.metric);
}

/// Two entries are equal exactly if their metrics agree in the name, the namespace, every tag, the
/// kind, and the sort of the value.
pub proof fn law_what_splits_entries(a: MetricEntry, b: MetricEntry)
    ensures
        <MetricEntry as PartialEqSpec>::obeys_eq_spec(),
        a.eq_spec(&b) <==> agree(a.metric, b.metric),
{
    lemma_series(a.metric, b.metric);
}

proof fn lemma_series(a: Metric, b: Metric)
    ensures
        a@.series() == b@.series() <==> agree(a, b),
{
    assert(a@.series().shape == a@.value.shape() && b@.series().shape == b@.value.shape());
}

/// The hash is made of the name, then the namespace if there is one, then the name and the value of
/// every tag, and of nothing else.
pub proof fn law_what_is_hashed(metric: MetricView)
    ensures
        ({
            let parts = metric.hash_parts();
            let from: int = if metric.namespace is Some { 2 } else { 1 };
            &&& parts.len() == from + (match metric.tags {
                Some(tags) => 2 * tags.len(),
                None => 0,
            })
            &&& parts[0] == metric.name
            &&& metric.namespace matches Some(namespace) ==> parts[1] == namespace
            &&& metric.tags matches Some(tags) ==> forall|i: int|
                0 <= i < tags.len() ==> {
                    &&& parts[from + 2 * i] == (#[trigger] tags[i]).0
                    &&& parts[from + 2 * i + 1] == tags[i].1
                }
        }),
{
    match metric.tags {
        Some(tags) => {
            lemma_tag_parts(tags);
        },
        None => {},
    }
}

proof fn lemma_tag_parts(tags: Seq<(Seq<char>, Seq<char>)>)
    ensures
        tag_parts(tags).len() == 2 * tags.len(),
        forall|i: int|
            0 <= i < tags.len() ==> {
                &&& tag_parts(tags)[2 * i] == (#[trigger] tags[i]).0
                &&& tag_parts(tags)[2 * i + 1] == tags[i].1
            },
    decreases tags.len(),
{
    if tags.len() > 0 {
        let init = tags.drop_last();
        lemma_tag_parts(init);
        assert forall|i: int| 0 <= i < tags.len() implies {
            &&& tag_parts(tags)[2 * i] == (#[trigger] tags[i]).0
            &&& tag_parts(tags)[2 * i + 1] == tags[i].1
        } by {
            if i < init.len() {
                assert(init[i] == tags[i]);
                assert(tag_parts(init)[2 * i] == tags[i].0);
            }
        }
    }
}

/// The texts of parts are those of the strings, one for one.
pub proof fn law_texts_of_parts(parts: Seq<&String>)
    ensures
        part_texts(parts).len() == parts.len(),
        forall|i: int| 0 <= i < parts.len() ==> #[trigger] part_texts(parts)[i] == parts[i]@,
{
}

/// The states that lead a hasher from one state to another begin with the one and end with the
/// other, and there is one more of them than steps; every number from 0 on is that of a step.
pub proof fn law_steps_of_a_hasher<H: Hasher>(
    states: Seq<H>,
    steps: nat,
    before: H,
    after: H,
    i: int,
)
    ensures
        leads(states, steps, before, after) <==> {
            &&& states.len() == steps + 1
            &&& states[0] == before
            &&& states[steps as int] == after
        },
        is_step(i) <==> 0 <= i,
{
}

/// A name comes before another exactly if, after some bytes that they have in common, it ends or
/// goes on with a smaller byte.
pub proof fn law_order_of_names(a: Seq<char>, b: Seq<char>)
    ensures
        ({
            let x = encode_utf8(a);
            let y = encode_utf8(b);
            comes_first(a, b) <==> exists|k: int|
                {
                    &&& 0 <= k <= x.len()
                    &&& k < y.len()
                    &&& #[trigger] x.take(k) == y.take(k)
                    &&& k == x.len() || x[k] < y[k]
                }
        }),
{
    let x = encode_utf8(a);
    let y = encode_utf8(b);
    if comes_first(a, b) {
        let k = choose|k: int| comes_first_at(x, y, k);
        assert(comes_first_at(x, y, k));
        assert(x.take(k) =~= y.take(k));
    }
    if exists|k: int|
        {
            &&& 0 <= k <= x.len()
            &&& k < y.len()
            &&& #[trigger] x.take(k) == y.take(k)
            &&& k == x.len() || x[k] < y[k]
        } {
        let k = choose|k: int|
            {
                &&& 0 <= k <= x.len()
                &&& k < y.len()
                &&& #[trigger] x.take(k) == y.take(k)
                &&& k == x.len() || x[k] < y[k]
            };
        assert forall|j: int| 0 <= j < k implies #[trigger] x[j] == y[j] by {
            assert(x.take(k)[j] == y.take(k)[j]);
        }
        assert(comes_first_at(x, y, k));
    }
}

/// In tags that are in order the names ascend byte by byte, whichever two are compared, so that
/// none occurs twice.
pub proof fn law_names_ascend(
    metric: MetricView,
    tags: Seq<(Seq<char>, Seq<char>)>,
    i: int,
    j: int,
)
    requires
        metric.has_ascending_tags(),
        metric.tags == Some(tags),
        0 <= i < j < tags.len(),
    ensures
        tags[i].0 != tags[j].0,
        ({
            let x = encode_utf8(tags[i].0);
            let y = encode_utf8(tags[j].0);
            exists|k: int|
                {
                    &&& 0 <= k <= x.len()
                    &&& k < y.len()
                    &&& #[trigger] x.take(k) == y.take(k)
                    &&& k == x.len() || x[k] < y[k]
                }
        }),
{
    assert(comes_first(tags[i].0, tags[j].0));
    lemma_comes_first_is_strict(tags[i].0, tags[j].0);
    law_order_of_names(tags[i].0, tags[j].0);
}

/// A list gives a value for the names that are in it, and for no other.
pub proof fn law_only_listed_names_have_a_value(
    tags: Seq<(Seq<char>, Seq<char>)>,
    name: Seq<char>,
)
    ensures
        tag_map(tags).contains_key(name) <==> exists|i: int|
            0 <= i < tags.len() && (#[trigger] tags[i]).0 == name,
    decreases tags.len(),
{
    if tags.len() > 0 {
        let init = tags.drop_last();
        let last = tags.len() - 1;
        assert(tags[last] == tags.last());
        law_only_listed_names_have_a_value(init, name);
        if tags[last].0 != name {
            if tag_map(tags).contains_key(name) {
                let i = choose|i: int| 0 <= i < init.len() && (#[trigger] init[i]).0 == name;
                assert(tags[i].0 == name);
            }
            if exists|i: int| 0 <= i < tags.len() && (#[trigger] tags[i]).0 == name {
                let i = choose|i: int| 0 <= i < tags.len() && (#[trigger] tags[i]).0 == name;
                assert(init[i].0 == name);
            }
        }
    }
}

/// Of the values that a list gives for one name the last counts.
pub proof fn law_last_value_of_a_name_counts(tags: Seq<(Seq<char>, Seq<char>)>, i: int)
    requires
        0 <= i < tags.len(),
        forall|j: int| i < j < tags.len() ==> (#[trigger] tags[j]).0 != tags[i].0,
    ensures
        tag_map(tags)[tags[i].0] == tags[i].1,
    decreases tags.len(),
{
    let init = tags.drop_last();
    let last = tags.len() - 1;
    assert(tags[last] == tags.last());
    if i < last {
        assert(init[i] == tags[i]);
        assert(tags[last].0 != tags[i].0);
        assert forall|j: int| i < j < init.len() implies (#[trigger] init[j]).0 != init[i].0 by {
            assert(tags[j].0 != tags[i].0);
        }
        law_last_value_of_a_name_counts(init, i);
    }
}

} // verus!
