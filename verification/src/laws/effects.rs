//! What a metric that comes in changes, field by field.

use vstd::prelude::*;

use crate::config::ConfigView;
use crate::expiring::ExpiringView;
use crate::exporter::{ingested, is_valid, may_sum_to, needs_sum, ExporterView, PrometheusExporter};
use crate::laws::ingesting::{law_one_place_per_series, lemma_swap_removed};
use crate::metric::{MetricKind, MetricView, Series, ValueView};
use crate::store::{holds, is_at, position, swap_removed};

verus! {

/// Whether two metrics are of one series, whatever their kinds: they agree in name, namespace, all
/// tags, and the sort of their values.
pub open spec fn alike(a: MetricView, b: MetricView) -> bool {
    &&& a.name == b.name
    &&& a.namespace == b.namespace
    &&& a.tags == b.tags
    &&& match (a.value, b.value) {
        (ValueView::StringSet { .. }, ValueView::StringSet { .. }) => true,
        (ValueView::Numeric { shape: s, .. }, ValueView::Numeric { shape: t, .. }) => s == t,
        _ => false,
    }
}

/// Whether all of `entries` are absolute and no two of them are alike.
pub open spec fn kept_apart(entries: Seq<ExpiringView>) -> bool {
    &&& forall|i: int| 0 <= i < entries.len() ==> (#[trigger] entries[i]).metric.kind is Absolute
    &&& forall|i: int, j: int|
        0 <= i < j < entries.len() ==> !alike(
            (#[trigger] entries[i]).metric,
            (#[trigger] entries[j]).metric,
        )
}

/// Two metrics belong to one series exactly if they agree in name, namespace, all tags, kind, and
/// the sort of their values.
pub proof fn law_what_makes_a_series(a: MetricView, b: MetricView)
    ensures
        a.series() == b.series() <==> {
            &&& a.name == b.name
            &&& a.namespace == b.namespace
            &&& a.tags == b.tags
            &&& a.kind == b.kind
            &&& match (a.value, b.value) {
                (ValueView::StringSet { .. }, ValueView::StringSet { .. }) => true,
                (ValueView::Numeric { shape: s, .. }, ValueView::Numeric { shape: t, .. }) => s
                    == t,
                _ => false,
            }
        },
{
    assert(a.series().shape == a.value.shape());
}

/// An exporter is well-formed exactly if all that it keeps is absolute, and no two of them agree in
/// name, namespace, all tags and the sort of their values.
pub proof fn law_what_may_be_kept(exporter: PrometheusExporter)
    ensures
        exporter.well_formed() <==> kept_apart(exporter@.entries),
{
    lemma_kept_apart(exporter@.entries);
}

proof fn lemma_kept_apart(entries: Seq<ExpiringView>)
    ensures
        is_valid(entries) <==> kept_apart(entries),
{
    if is_valid(entries) {
        assert forall|i: int, j: int| 0 <= i < j < entries.len() implies !alike(
            (#[trigger] entries[i]).metric,
            (#[trigger] entries[j]).metric,
        ) by {
            law_what_makes_a_series(entries[i].metric, entries[j].metric);
            assert(entries[i].series() != entries[j].series());
        }
    }
    if kept_apart(entries) {
        assert forall|i: int, j: int| 0 <= i < j < entries.len() implies (
        #[trigger] entries[i]).series() != (#[trigger] entries[j]).series() by {
            law_what_makes_a_series(entries[i].metric, entries[j].metric);
        }
    }
}

/// Where `entries` holds something like `item`, that is the position of its series.
proof fn lemma_alike_is_found(entries: Seq<ExpiringView>, item: MetricView, i: int)
    requires
        kept_apart(entries),
        0 <= i < entries.len(),
        alike(entries[i].metric, item),
    ensures
        is_valid(entries),
        holds(entries, item.to_absolute().series()),
        position(entries, item.to_absolute().series()) == i,
{
    lemma_kept_apart(entries);
    law_what_makes_a_series(entries[i].metric, item.to_absolute());
    assert(is_at(entries, item.to_absolute().series(), i));
    law_one_place_per_series(entries, item.to_absolute().series(), i);
}

/// A metric comes in of which nothing like it is kept: it is put last, read as absolute, to be
/// flushed as many seconds after it came in as the configuration says. Nothing else changes.
pub proof fn law_something_new_comes_in<F: Fn(&Vec<u64>, &Vec<u64>) -> Vec<u64>>(
    before: ExporterView,
    item: MetricView,
    now: int,
    sum: F,
    after: ExporterView,
)
    requires
        kept_apart(before.entries),
        before.may_ingest(item, now, sum, after),
        forall|i: int|
            0 <= i < before.entries.len() ==> !alike((#[trigger] before.entries[i]).metric, item),
    ensures
        after == (ExporterView {
            entries: before.entries.push(
                ExpiringView {
                    metric: MetricView { kind: MetricKind::Absolute, ..item },
                    next_flush: now + before.config.flush_period_secs * 1_000_000_000,
                },
            ),
            ..before
        }),
{
    let series = item.to_absolute().series();
    if holds(before.entries, series) {
        let i = position(before.entries, series);
        assert(is_at(before.entries, series, i));
        law_what_makes_a_series(before.entries[i].metric, item.to_absolute());
    }
}

/// An absolute metric comes in of which something like it is kept: it takes the place of that, to be
/// flushed as many seconds after it came in as the configuration says. Nothing else changes.
pub proof fn law_an_absolute_metric_comes_in<F: Fn(&Vec<u64>, &Vec<u64>) -> Vec<u64>>(
    before: ExporterView,
    item: MetricView,
    now: int,
    sum: F,
    after: ExporterView,
    i: int,
)
    requires
        kept_apart(before.entries),
        before.may_ingest(item, now, sum, after),
        item.kind is Absolute,
        0 <= i < before.entries.len(),
        alike(before.entries[i].metric, item),
    ensures
        after == (ExporterView {
            entries: before.entries.update(
                i,
                ExpiringView {
                    metric: item,
                    next_flush: now + before.config.flush_period_secs * 1_000_000_000,
                },
            ),
            ..before
        }),
{
    lemma_alike_is_found(before.entries, item, i);
    assert(item.to_absolute() == item);
}

/// Whether `after` is `before` without position `i`, which the last one has taken, and with `entry`
/// put last.
pub open spec fn moved_last(
    before: Seq<ExpiringView>,
    i: int,
    entry: ExpiringView,
    after: Seq<ExpiringView>,
) -> bool {
    &&& after.len() == before.len()
    &&& after[after.len() - 1] == entry
    &&& forall|j: int|
        #![trigger after[j]]
        0 <= j < before.len() - 1 && j != i ==> after[j] == before[j]
    &&& i < before.len() - 1 ==> after[i] == before[before.len() - 1]
}

/// An increment of numbers comes in of which something like it is kept: the numbers that are kept
/// are then what `sum` gives for those that were kept and those of the increment, however many there
/// are. Nothing else of that metric changes, and nothing of any other.
pub proof fn law_an_increment_of_numbers_comes_in<F: Fn(&Vec<u64>, &Vec<u64>) -> Vec<u64>>(
    before: ExporterView,
    item: MetricView,
    now: int,
    sum: F,
    after: ExporterView,
    i: int,
)
    requires
        kept_apart(before.entries),
        before.may_ingest(item, now, sum, after),
        item.kind is Incremental,
        item.value is Numeric,
        0 <= i < before.entries.len(),
        alike(before.entries[i].metric, item),
    ensures
        after == (ExporterView { entries: after.entries, ..before }),
        exists|a: Vec<u64>, b: Vec<u64>, t: Vec<u64>|
            {
                &&& #[trigger] call_ensures(sum, (&a, &b), t)
                &&& a@ == before.entries[i].metric.value->data
                &&& b@ == item.value->data
                &&& moved_last(
                    before.entries,
                    i,
                    ExpiringView {
                        metric: MetricView {
                            value: ValueView::Numeric { shape: item.value->shape, data: t@ },
                            ..before.entries[i].metric
                        },
                        ..before.entries[i]
                    },
                    after.entries,
                )
            },
{
    let entries = before.entries;
    let series = item.to_absolute().series();
    lemma_alike_is_found(entries, item, i);
    lemma_swap_removed(entries, i);
    assert(needs_sum(entries, item));
    let next_flush = now + before.config.flush_period();
    let total = choose|total: Seq<u64>|
        {
            &&& needs_sum(entries, item) ==> may_sum_to(
                sum,
                entries[position(entries, series)].metric.value.numbers(),
                item.value.numbers(),
                total,
            )
            &&& after == (ExporterView {
                entries: #[trigger] ingested(entries, item, now, next_flush, total),
                ..before
            })
        };
    let (a, b, t) = choose|a: Vec<u64>, b: Vec<u64>, t: Vec<u64>|
        {
            &&& a@ == entries[i].metric.value.numbers()
            &&& b@ == item.value.numbers()
            &&& t@ == total
            &&& #[trigger] call_ensures(sum, (&a, &b), t)
        };
    assert(call_ensures(sum, (&a, &b), t));
    assert(after.entries == swap_removed(entries, i).push(
        entries[i].accumulate(item, now, next_flush, total),
    ));
}

/// An increment of a set comes in at a moment up to the flush of what is kept of it: its strings are
/// then kept besides those that were. Nothing else of that metric changes, its flush included, and
/// nothing of any other.
pub proof fn law_an_increment_of_a_live_set_comes_in<F: Fn(&Vec<u64>, &Vec<u64>) -> Vec<u64>>(
    before: ExporterView,
    item: MetricView,
    now: int,
    sum: F,
    after: ExporterView,
    i: int,
)
    requires
        kept_apart(before.entries),
        before.may_ingest(item, now, sum, after),
        item.kind is Incremental,
        item.value is StringSet,
        0 <= i < before.entries.len(),
        alike(before.entries[i].metric, item),
        now <= before.entries[i].next_flush,
    ensures
        after == (ExporterView { entries: after.entries, ..before }),
        moved_last(
            before.entries,
            i,
            ExpiringView {
                metric: MetricView {
                    value: ValueView::StringSet {
                        values: before.entries[i].metric.value->values.union(item.value->values),
                    },
                    ..before.entries[i].metric
                },
                ..before.entries[i]
            },
            after.entries,
        ),
{
    lemma_alike_is_found(before.entries, item, i);
    lemma_swap_removed(before.entries, i);
}

/// An increment of a set comes in at a moment past the flush of what is kept of it: its strings are
/// then all that is kept of it, to be flushed as many seconds after that moment as the configuration
/// says. Nothing else of that metric changes, and nothing of any other.
pub proof fn law_an_increment_of_an_expired_set_comes_in<F: Fn(&Vec<u64>, &Vec<u64>) -> Vec<u64>>(
    before: ExporterView,
    item: MetricView,
    now: int,
    sum: F,
    after: ExporterView,
    i: int,
)
    requires
        kept_apart(before.entries),
        before.may_ingest(item, now, sum, after),
        item.kind is Incremental,
        item.value is StringSet,
        0 <= i < before.entries.len(),
        alike(before.entries[i].metric, item),
        now > before.entries[i].next_flush,
    ensures
        after == (ExporterView { entries: after.entries, ..before }),
        moved_last(
            before.entries,
            i,
            ExpiringView {
                metric: MetricView { value: item.value, ..before.entries[i].metric },
                next_flush: now + before.config.flush_period_secs * 1_000_000_000,
            },
            after.entries,
        ),
{
    lemma_alike_is_found(before.entries, item, i);
    lemma_swap_removed(before.entries, i);
    assert(Set::<Seq<char>>::empty().union(item.value->values) =~= item.value->values);
}

/// Two increments of one set come in, the first of them as something new. If the second comes no
/// later than the configured seconds after the first, the strings of both are kept; if it comes
/// later, those of the second alone.
pub proof fn law_a_set_comes_in_twice<F: Fn(&Vec<u64>, &Vec<u64>) -> Vec<u64>>(
    before: ExporterView,
    first: MetricView,
    then: int,
    between: ExporterView,
    second: MetricView,
    now: int,
    after: ExporterView,
    sum: F,
)
    requires
        kept_apart(before.entries),
        forall|i: int|
            0 <= i < before.entries.len() ==> !alike((#[trigger] before.entries[i]).metric, first),
        before.may_ingest(first, then, sum, between),
        between.may_ingest(second, now, sum, after),
        alike(first, second),
        second.kind is Incremental,
        second.value is StringSet,
    ensures
        after.entries.len() == before.entries.len() + 1,
        after.entries[before.entries.len() as int].metric.value is StringSet,
        forall|text: Seq<char>| #[trigger]
            after.entries[before.entries.len() as int].metric.value->values.contains(text) <==> {
                ||| second.value->values.contains(text)
                ||| {
                    &&& now <= then + before.config.flush_period_secs * 1_000_000_000
                    &&& first.value->values.contains(text)
                }
            },
{
    let n = before.entries.len() as int;
    law_something_new_comes_in(before, first, then, sum, between);
    assert(between.entries[n].metric == (MetricView { kind: MetricKind::Absolute, ..first }));
    assert(kept_apart(between.entries));
    if now <= between.entries[n].next_flush {
        law_an_increment_of_a_live_set_comes_in(between, second, now, sum, after, n);
    } else {
        law_an_increment_of_an_expired_set_comes_in(between, second, now, sum, after, n);
    }
}

/// Two metrics that differ in name, namespace, any tag or the sort of their values are never kept
/// as one: once both have come in, whatever their kinds, each is there.
pub proof fn law_different_metrics_stay_apart<F: Fn(&Vec<u64>, &Vec<u64>) -> Vec<u64>>(
    before: ExporterView,
    first: MetricView,
    then: int,
    between: ExporterView,
    second: MetricView,
    now: int,
    after: ExporterView,
    sum: F,
)
    requires
        before.entries.len() == 0,
        before.may_ingest(first, then, sum, between),
        between.may_ingest(second, now, sum, after),
        !alike(first, second),
    ensures
        after.entries.len() == 2,
        after.entries[0].metric == (MetricView { kind: MetricKind::Absolute, ..first }),
        after.entries[1].metric == (MetricView { kind: MetricKind::Absolute, ..second }),
{
    law_something_new_comes_in(before, first, then, sum, between);
    law_something_new_comes_in(between, second, now, sum, after);
}

/// A flush period is as many billions of nanoseconds as the configuration has seconds.
pub proof fn law_flush_period(config: ConfigView)
    ensures
        config.flush_period() == config.flush_period_secs * 1_000_000_000,
{
}

/// An entry is at a position exactly if the position is one, and its series is there.
pub proof fn law_places(entries: Seq<ExpiringView>, series: Series, i: int)
    ensures
        is_at(entries, series, i) <==> 0 <= i < entries.len() && entries[i].metric.series()
            == series,
        is_at(entries, series, i) ==> holds(entries, series),
        holds(entries, series) <==> exists|j: int|
            0 <= j < entries.len() && (#[trigger] entries[j]).metric.series() == series,
{
    if holds(entries, series) {
        let j = position(entries, series);
        assert(is_at(entries, series, j));
        assert(entries[j].metric.series() == series);
    }
    if exists|j: int| 0 <= j < entries.len() && (#[trigger] entries[j]).metric.series() == series {
        let j = choose|j: int|
            0 <= j < entries.len() && (#[trigger] entries[j]).metric.series() == series;
        assert(is_at(entries, series, j));
    }
}

/// Taken out, an entry is gone, the last one is where it was, and all others are where they were.
pub proof fn law_taking_out(entries: Seq<ExpiringView>, i: int)
    requires
        0 <= i < entries.len(),
    ensures
        swap_removed(entries, i).len() == entries.len() - 1,
        forall|j: int|
            #![trigger swap_removed(entries, i)[j]]
            0 <= j < entries.len() - 1 && j != i ==> swap_removed(entries, i)[j] == entries[j],
        i < entries.len() - 1 ==> swap_removed(entries, i)[i] == entries[entries.len() - 1],
{
}

} // verus!
