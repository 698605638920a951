//! What taking in a metric does to what the exporter keeps.

use vstd::prelude::*;

use crate::expiring::ExpiringView;
use crate::exporter::{ingested, is_valid};
use crate::metric::{MetricView, Series};
use crate::store::{holds, is_at, position, swap_removed};

verus! {

/// A series is kept in one place at most.
pub proof fn law_one_place_per_series(entries: Seq<ExpiringView>, series: Series, i: int)
    requires
        is_valid(entries),
        is_at(entries, series, i),
    ensures
        holds(entries, series),
        position(entries, series) == i,
{
    let p = position(entries, series);
    assert(is_at(entries, series, p));
    if p < i {
        assert(entries[p].series() != entries[i].series());
    } else if i < p {
        assert(entries[i].series() != entries[p].series());
    }
}

/// Taking one series out leaves each of the others, once.
pub(crate) proof fn lemma_swap_removed(entries: Seq<ExpiringView>, i: int)
    requires
        is_valid(entries),
        0 <= i < entries.len(),
    ensures
        is_valid(swap_removed(entries, i)),
        !holds(swap_removed(entries, i), entries[i].series()),
        swap_removed(entries, i).len() == entries.len() - 1,
        forall|j: int|
            #![trigger swap_removed(entries, i)[j]]
            0 <= j < entries.len() - 1 ==> swap_removed(entries, i)[j] == entries[if j == i {
                entries.len() - 1
            } else {
                j
            }],
{
    let rest = swap_removed(entries, i);
    let last = entries.len() - 1;
    assert forall|j: int, k: int| 0 <= j < k < rest.len() implies (#[trigger] rest[j]).series() != (
    #[trigger] rest[k]).series() by {
        let a = if j == i { last } else { j };
        let b = if k == i { last } else { k };
        assert(rest[j] == entries[a] && rest[k] == entries[b]);
        if a < b {
            assert(entries[a].series() != entries[b].series());
        } else {
            assert(entries[b].series() != entries[a].series());
        }
    }
    assert forall|j: int| !is_at(rest, entries[i].series(), j) by {
        if is_at(rest, entries[i].series(), j) {
            let a = if j == i { last } else { j };
            assert(rest[j] == entries[a]);
            if a < i {
                assert(entries[a].series() != entries[i].series());
            } else {
                assert(entries[i].series() != entries[a].series());
            }
        }
    }
    assert forall|j: int| 0 <= j < rest.len() implies (
    #[trigger] rest[j]).metric.kind is Absolute by {
        let a = if j == i { last } else { j };
        assert(rest[j] == entries[a]);
    }
}

/// Whatever comes in, the exporter goes on keeping one metric of each series, all of them absolute.
pub proof fn law_ingesting_keeps_validity(
    entries: Seq<ExpiringView>,
    item: MetricView,
    now: int,
    next_flush: int,
    total: Seq<u64>,
)
    requires
        is_valid(entries),
    ensures
        is_valid(ingested(entries, item, now, next_flush, total)),
{
    let series = item.to_absolute().series();
    let after = ingested(entries, item, now, next_flush, total);
    if holds(entries, series) {
        let i = position(entries, series);
        assert(is_at(entries, series, i));
        if item.kind is Incremental {
            lemma_swap_removed(entries, i);
            let rest = swap_removed(entries, i);
            let sum = entries[i].accumulate(item, now, next_flush, total);
            assert(sum.series() == series);
            assert forall|j: int| 0 <= j < rest.len() implies (
            #[trigger] rest[j]).series() != series by {
                assert(!is_at(rest, series, j));
            }
        }
    } else {
        assert forall|j: int| 0 <= j < entries.len() implies (
        #[trigger] entries[j]).series() != series by {
            assert(!is_at(entries, series, j));
        }
    }
}

/// What is kept of the series of `item` once `item` has come in.
pub open spec fn outcome(
    entries: Seq<ExpiringView>,
    item: MetricView,
    now: int,
    next_flush: int,
    total: Seq<u64>,
) -> ExpiringView {
    let series = item.to_absolute().series();
    if item.kind is Incremental && holds(entries, series) {
        entries[position(entries, series)].accumulate(item, now, next_flush, total)
    } else {
        ExpiringView { metric: item.to_absolute(), next_flush }
    }
}

/// Taking in `item` leaves every other series as it was, and brings none but its own.
pub proof fn law_other_series_stay(
    entries: Seq<ExpiringView>,
    item: MetricView,
    now: int,
    next_flush: int,
    total: Seq<u64>,
    other: ExpiringView,
)
    requires
        is_valid(entries),
        other.series() != item.to_absolute().series(),
    ensures
        ingested(entries, item, now, next_flush, total).contains(other) <==> entries.contains(
            other,
        ),
{
    let series = item.to_absolute().series();
    let after = ingested(entries, item, now, next_flush, total);
    let i = position(entries, series);
    if holds(entries, series) {
        assert(is_at(entries, series, i));
    }
    if holds(entries, series) && item.kind is Incremental {
        lemma_swap_removed(entries, i);
        let rest = swap_removed(entries, i);
        assert(entries[i].accumulate(item, now, next_flush, total).series() == series);
        if entries.contains(other) {
            let k = choose|k: int| 0 <= k < entries.len() && entries[k] == other;
            let j = if k == entries.len() - 1 { i } else { k };
            assert(rest[j] == other);
            assert(after[j] == other);
        }
        if after.contains(other) {
            let j = choose|j: int| 0 <= j < after.len() && after[j] == other;
            assert(j < rest.len());
            assert(after[j] == rest[j]);
        }
    } else {
        if entries.contains(other) {
            let k = choose|k: int| 0 <= k < entries.len() && entries[k] == other;
            assert(after[k] == other);
        }
        if after.contains(other) {
            let j = choose|j: int| 0 <= j < after.len() && after[j] == other;
            assert(j < entries.len() && j != i || !holds(entries, series) && j < entries.len());
            assert(entries[j] == other);
        }
    }
}

/// Once `item` has come in, its series is kept, and what is kept of it is `outcome`.
pub proof fn law_item_is_kept(
    entries: Seq<ExpiringView>,
    item: MetricView,
    now: int,
    next_flush: int,
    total: Seq<u64>,
)
    requires
        is_valid(entries),
    ensures
        ({
            let after = ingested(entries, item, now, next_flush, total);
            let kept = outcome(entries, item, now, next_flush, total);
            &&& kept.series() == item.to_absolute().series()
            &&& holds(after, kept.series())
            &&& after[position(after, kept.series())] == kept
            &&& after.contains(kept)
        }),
{
    let series = item.to_absolute().series();
    let after = ingested(entries, item, now, next_flush, total);
    let kept = outcome(entries, item, now, next_flush, total);
    let i = position(entries, series);
    if holds(entries, series) {
        assert(is_at(entries, series, i));
    }
    let j = if holds(entries, series) && item.kind is Absolute { i } else { after.len() - 1 };
    assert(after[j] == kept);
    assert(is_at(after, series, j));
    law_ingesting_keeps_validity(entries, item, now, next_flush, total);
    law_one_place_per_series(after, series, j);
}

/// The exporter keeps one metric more if the series of `item` was not kept, and as many as before
/// if it was.
pub proof fn law_only_new_series_add_to_the_count(
    entries: Seq<ExpiringView>,
    item: MetricView,
    now: int,
    next_flush: int,
    total: Seq<u64>,
)
    requires
        is_valid(entries),
    ensures
        ingested(entries, item, now, next_flush, total).len() == entries.len() + if holds(
            entries,
            item.to_absolute().series(),
        ) {
            0int
        } else {
            1int
        },
{
    let series = item.to_absolute().series();
    if holds(entries, series) {
        assert(is_at(entries, series, position(entries, series)));
    }
}

/// A set that has expired starts over: an increment leaves it with the strings of the increment and
/// nothing else, and puts its flush off.
pub proof fn law_expired_set_starts_over(
    entries: Seq<ExpiringView>,
    item: MetricView,
    now: int,
    next_flush: int,
    total: Seq<u64>,
)
    requires
        is_valid(entries),
        item.kind is Incremental,
        item.value is StringSet,
        holds(entries, item.to_absolute().series()),
        entries[position(entries, item.to_absolute().series())].is_expired(now),
    ensures
        ({
            let kept = outcome(entries, item, now, next_flush, total);
            &&& kept.metric.value == item.value
            &&& kept.next_flush == next_flush
        }),
{
    let kept = outcome(entries, item, now, next_flush, total);
    assert(kept.metric.value->values =~= item.value->values);
}

/// A set that has not expired grows: an increment adds its strings to it and leaves its flush where
/// it was.
pub proof fn law_live_set_grows(
    entries: Seq<ExpiringView>,
    item: MetricView,
    now: int,
    next_flush: int,
    total: Seq<u64>,
)
    requires
        is_valid(entries),
        item.kind is Incremental,
        item.value is StringSet,
        holds(entries, item.to_absolute().series()),
        !entries[position(entries, item.to_absolute().series())].is_expired(now),
    ensures
        ({
            let before = entries[position(entries, item.to_absolute().series())];
            let kept = outcome(entries, item, now, next_flush, total);
            &&& before.metric.value is StringSet
            &&& kept.metric.value is StringSet
            &&& kept.metric.value->values == before.metric.value->values.union(
                item.value->values,
            )
            &&& kept.next_flush == before.next_flush
        }),
{
    let series = item.to_absolute().series();
    assert(is_at(entries, series, position(entries, series)));
}

/// Numbers never start over: an increment of numbers leaves the sum, whether or not what was kept
/// had expired, and the flush where it was.
pub proof fn law_numbers_never_start_over(
    entries: Seq<ExpiringView>,
    item: MetricView,
    now: int,
    next_flush: int,
    total: Seq<u64>,
)
    requires
        is_valid(entries),
        item.kind is Incremental,
        item.value is Numeric,
        holds(entries, item.to_absolute().series()),
    ensures
        ({
            let before = entries[position(entries, item.to_absolute().series())];
            let kept = outcome(entries, item, now, next_flush, total);
            &&& kept.metric.value.shape() == item.value.shape()
            &&& kept.metric.value.numbers() == total
            &&& kept.next_flush == before.next_flush
        }),
{
    let series = item.to_absolute().series();
    assert(is_at(entries, series, position(entries, series)));
}

/// Of two absolute metrics of one series, one after the other, the second alone counts.
pub proof fn law_last_absolute_counts(
    entries: Seq<ExpiringView>,
    first: MetricView,
    first_now: int,
    first_flush: int,
    second: MetricView,
    second_now: int,
    second_flush: int,
    total: Seq<u64>,
)
    requires
        is_valid(entries),
        first.kind is Absolute,
        second.kind is Absolute,
        first.series() == second.series(),
    ensures
        ingested(
            ingested(entries, first, first_now, first_flush, total),
            second,
            second_now,
            second_flush,
            total,
        ) == ingested(entries, second, second_now, second_flush, total),
{
    let series = first.series();
    assert(first.to_absolute() == first && second.to_absolute() == second);
    let between = ingested(entries, first, first_now, first_flush, total);
    law_ingesting_keeps_validity(entries, first, first_now, first_flush, total);
    let j = if holds(entries, series) { position(entries, series) } else { entries.len() as int };
    if holds(entries, series) {
        assert(is_at(entries, series, j));
    }
    assert(is_at(between, series, j));
    law_one_place_per_series(between, series, j);
    assert(ingested(between, second, second_now, second_flush, total) =~= ingested(
        entries,
        second,
        second_now,
        second_flush,
        total,
    ));
}

/// An absolute metric of a series that is kept leaves the order of the series as it was.
pub proof fn law_absolute_keeps_order(
    entries: Seq<ExpiringView>,
    item: MetricView,
    now: int,
    next_flush: int,
    total: Seq<u64>,
    i: int,
)
    requires
        is_valid(entries),
        item.kind is Absolute,
        holds(entries, item.series()),
        0 <= i < entries.len(),
    ensures
        ingested(entries, item, now, next_flush, total)[i].series() == entries[i].series(),
{
    assert(item.to_absolute() == item);
    assert(is_at(entries, item.series(), position(entries, item.series())));
}

/// What an increment leaves of its series is kept last.
pub proof fn law_increment_goes_last(
    entries: Seq<ExpiringView>,
    item: MetricView,
    now: int,
    next_flush: int,
    total: Seq<u64>,
)
    requires
        is_valid(entries),
        item.kind is Incremental,
    ensures
        ingested(entries, item, now, next_flush, total).len() > 0,
        ingested(entries, item, now, next_flush, total).last() == outcome(
            entries,
            item,
            now,
            next_flush,
            total,
        ),
{
}

/// A metric has not expired at its flush, nor before.
pub proof fn law_no_expiry_up_to_the_flush(entry: ExpiringView, time: int)
    requires
        time <= entry.next_flush,
    ensures
        !entry.is_expired(time),
{
}

/// What has expired stays expired as time goes by.
pub proof fn law_expiry_lasts(entry: ExpiringView, time: int, later: int)
    requires
        entry.is_expired(time),
        time <= later,
    ensures
        entry.is_expired(later),
{
}

/// What is kept of a set to which something has just come in has not expired.
pub proof fn law_set_is_live_when_something_comes_in(
    entries: Seq<ExpiringView>,
    item: MetricView,
    now: int,
    next_flush: int,
    total: Seq<u64>,
)
    requires
        is_valid(entries),
        item.value is StringSet,
        now <= next_flush,
    ensures
        !outcome(entries, item, now, next_flush, total).is_expired(now),
{
}

} // verus!
