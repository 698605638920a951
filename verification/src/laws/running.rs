//! What holds after any number of events.

use vstd::prelude::*;

use crate::expiring::ExpiringView;
use crate::exporter::{ingested, is_valid, ExporterView};
use crate::http::{answer, Encoding, RequestView};
use crate::laws::answering::law_only_kept_metrics_are_shown;
use crate::laws::ingesting::{
    law_ingesting_keeps_validity, law_item_is_kept, law_one_place_per_series,
    law_other_series_stay, outcome,
};
use crate::metric::{MetricView, Series};
use crate::store::{holds, is_at, position};

verus! {

/// A metric that came in at `now`. `total` stands for the sum of its numbers and those that were
/// kept, where they are added up.
pub ghost struct Event {
    pub item: MetricView,
    pub now: int,
    pub total: Seq<u64>,
}

/// What is kept once `events` have come in, one after the other, where nothing was kept before and
/// the flush period is `period`.
pub open spec fn kept_after(events: Seq<Event>, period: int) -> Seq<ExpiringView>
    decreases events.len(),
{
    if events.len() == 0 {
        seq![]
    } else {
        let event = events.last();
        ingested(
            kept_after(events.drop_last(), period),
            event.item,
            event.now,
            event.now + period,
            event.total,
        )
    }
}

/// Whether the clock never went back.
pub open spec fn in_order(events: Seq<Event>) -> bool {
    forall|i: int, j: int| 0 <= i <= j < events.len() ==> (#[trigger] events[i]).now <= (
    #[trigger] events[j]).now
}

/// Whether event `k` put `value` into the set of `series` at a moment between `from` and `to`.
pub open spec fn brought(
    events: Seq<Event>,
    k: int,
    series: Series,
    value: Seq<char>,
    from: int,
    to: int,
) -> bool {
    &&& 0 <= k < events.len()
    &&& events[k].item.to_absolute().series() == series
    &&& events[k].item.value is StringSet
    &&& events[k].item.value->values.contains(value)
    &&& from <= events[k].now <= to
}

/// After any events the exporter keeps one metric of each series, all of them absolute.
pub proof fn law_always_valid(events: Seq<Event>, period: int)
    ensures
        is_valid(kept_after(events, period)),
    decreases events.len(),
{
    if events.len() > 0 {
        let event = events.last();
        law_always_valid(events.drop_last(), period);
        law_ingesting_keeps_validity(
            kept_after(events.drop_last(), period),
            event.item,
            event.now,
            event.now + period,
            event.total,
        );
    }
}

/// A series is kept if and only if a metric of it has come in: none is ever dropped, and none
/// appears by itself.
pub proof fn law_series_are_kept_for_good(events: Seq<Event>, period: int, series: Series)
    ensures
        holds(kept_after(events, period), series) <==> exists|k: int|
            0 <= k < events.len() && (#[trigger] events[k]).item.to_absolute().series() == series,
    decreases events.len(),
{
    let after = kept_after(events, period);
    if events.len() == 0 {
        assert(!holds(after, series));
    } else {
        let init = events.drop_last();
        let event = events.last();
        let before = kept_after(init, period);
        law_always_valid(init, period);
        law_series_are_kept_for_good(init, period, series);
        if event.item.to_absolute().series() == series {
            law_item_is_kept(before, event.item, event.now, event.now + period, event.total);
            assert(events[events.len() - 1].item.to_absolute().series() == series);
        } else {
            if holds(before, series) {
                let i = position(before, series);
                assert(is_at(before, series, i));
                law_other_series_stay(
                    before,
                    event.item,
                    event.now,
                    event.now + period,
                    event.total,
                    before[i],
                );
                assert(before.contains(before[i]));
                let j = choose|j: int| 0 <= j < after.len() && after[j] == before[i];
                assert(is_at(after, series, j));
                let k = choose|k: int|
                    0 <= k < init.len() && (#[trigger] init[k]).item.to_absolute().series()
                        == series;
                assert(events[k] == init[k]);
            }
            if holds(after, series) {
                let j = position(after, series);
                assert(is_at(after, series, j));
                law_other_series_stay(
                    before,
                    event.item,
                    event.now,
                    event.now + period,
                    event.total,
                    after[j],
                );
                assert(after.contains(after[j]));
                let i = choose|i: int| 0 <= i < before.len() && before[i] == after[j];
                assert(is_at(before, series, i));
            }
            if exists|k: int|
                0 <= k < events.len() && (#[trigger] events[k]).item.to_absolute().series()
                    == series {
                let k = choose|k: int|
                    0 <= k < events.len() && (#[trigger] events[k]).item.to_absolute().series()
                        == series;
                assert(init[k] == events[k]);
            }
        }
    }
}

/// A set cannot grow without end: all that it holds came in within one flush period, the one that
/// ends with its flush.
pub proof fn law_sets_hold_one_flush_period(
    events: Seq<Event>,
    period: int,
    i: int,
    value: Seq<char>,
)
    requires
        in_order(events),
        0 <= period,
        0 <= i < kept_after(events, period).len(),
        kept_after(events, period)[i].metric.value is StringSet,
        kept_after(events, period)[i].metric.value->values.contains(value),
    ensures
        exists|k: int| #[trigger]
            brought(
                events,
                k,
                kept_after(events, period)[i].series(),
                value,
                kept_after(events, period)[i].next_flush - period,
                kept_after(events, period)[i].next_flush,
            ),
    decreases events.len(),
{
    let after = kept_after(events, period);
    let entry = after[i];
    let init = events.drop_last();
    let event = events.last();
    let last = events.len() - 1;
    let before = kept_after(init, period);
    let series = entry.series();
    let from = entry.next_flush - period;
    law_always_valid(init, period);
    law_always_valid(events, period);
    assert(in_order(init)) by {
        assert forall|a: int, b: int| 0 <= a <= b < init.len() implies (#[trigger] init[a]).now <= (
        #[trigger] init[b]).now by {
            assert(init[a] == events[a] && init[b] == events[b]);
        }
    }
    if event.item.to_absolute().series() == series {
        let kept = outcome(before, event.item, event.now, event.now + period, event.total);
        law_item_is_kept(before, event.item, event.now, event.now + period, event.total);
        assert(is_at(after, series, i));
        law_one_place_per_series(after, series, i);
        assert(entry == kept);
        if holds(before, series) && event.item.kind is Incremental {
            let p = position(before, series);
            assert(is_at(before, series, p));
            if before[p].is_expired(event.now) || event.item.value->values.contains(value) {
                if !before[p].is_expired(event.now) {
                    law_flush_is_a_period_after_an_event(init, period, p);
                    let k = choose|k: int|
                        0 <= k < init.len() && (#[trigger] init[k]).now == before[p].next_flush
                            - period;
                    assert(events[k] == init[k]);
                    assert(events[k].now <= events[last].now);
                }
                assert(brought(events, last, series, value, from, entry.next_flush));
            } else {
                law_sets_hold_one_flush_period(init, period, p, value);
                let k = choose|k: int| #[trigger]
                    brought(init, k, series, value, from, entry.next_flush);
                assert(events[k] == init[k]);
                assert(brought(events, k, series, value, from, entry.next_flush));
            }
        } else {
            assert(brought(events, last, series, value, from, entry.next_flush));
        }
    } else {
        assert(after.contains(entry));
        law_other_series_stay(
            before,
            event.item,
            event.now,
            event.now + period,
            event.total,
            entry,
        );
        let p = choose|p: int| 0 <= p < before.len() && before[p] == entry;
        law_sets_hold_one_flush_period(init, period, p, value);
        let k = choose|k: int| #[trigger]
            brought(init, k, series, value, from, entry.next_flush);
        assert(events[k] == init[k]);
        assert(brought(events, k, series, value, from, entry.next_flush));
    }
}

/// The flush of what is kept is a period after one of the events.
pub proof fn law_flush_is_a_period_after_an_event(events: Seq<Event>, period: int, i: int)
    requires
        0 <= i < kept_after(events, period).len(),
    ensures
        exists|k: int|
            0 <= k < events.len() && (#[trigger] events[k]).now == kept_after(
                events,
                period,
            )[i].next_flush - period,
    decreases events.len(),
{
    let after = kept_after(events, period);
    let entry = after[i];
    let init = events.drop_last();
    let event = events.last();
    let before = kept_after(init, period);
    let series = event.item.to_absolute().series();
    law_always_valid(init, period);
    law_always_valid(events, period);
    if entry.next_flush == event.now + period {
        assert(events[events.len() - 1].now == entry.next_flush - period);
    } else {
        let p = if entry.series() == series {
            law_item_is_kept(before, event.item, event.now, event.now + period, event.total);
            assert(is_at(after, series, i));
            law_one_place_per_series(after, series, i);
            assert(is_at(before, series, position(before, series)));
            position(before, series)
        } else {
            assert(after.contains(entry));
            law_other_series_stay(
                before,
                event.item,
                event.now,
                event.now + period,
                event.total,
                entry,
            );
            choose|p: int| 0 <= p < before.len() && before[p] == entry
        };
        law_flush_is_a_period_after_an_event(init, period, p);
        let k = choose|k: int|
            0 <= k < init.len() && (#[trigger] init[k]).now == before[p].next_flush - period;
        assert(events[k] == init[k]);
    }
}

/// Whoever asks for the metrics after any events is shown one value of each series of which a
/// metric has come in.
pub proof fn law_every_series_is_shown(
    events: Seq<Event>,
    period: int,
    k: int,
    request: RequestView,
    encoding: Encoding,
    time: int,
)
    requires
        0 <= k < events.len(),
        request.is_scrape(),
    ensures
        ({
            let series = events[k].item.to_absolute().series();
            let kept = kept_after(events, period);
            let sample = encoding.sample(kept[position(kept, series)], time);
            let body = answer(request, encoding, kept, time).body;
            &&& sample.metric().series() == series
            &&& body.contains(sample)
            &&& forall|j: int|
                0 <= j < body.len() && (#[trigger] body[j]) is Sample && body[j].metric().series()
                    == series ==> body[j] == sample
        }),
{
    let series = events[k].item.to_absolute().series();
    let kept = kept_after(events, period);
    let p = position(kept, series);
    let sample = encoding.sample(kept[p], time);
    let body = answer(request, encoding, kept, time).body;
    law_always_valid(events, period);
    law_series_are_kept_for_good(events, period, series);
    assert(is_at(kept, series, p));
    law_only_kept_metrics_are_shown(encoding, kept, time, sample);
    assert forall|j: int|
        0 <= j < body.len() && (#[trigger] body[j]) is Sample && body[j].metric().series()
            == series implies body[j] == sample by {
        assert(body.contains(body[j]));
        law_only_kept_metrics_are_shown(encoding, kept, time, body[j]);
        let i = choose|i: int|
            0 <= i < kept.len() && body[j] == encoding.sample(#[trigger] kept[i], time);
        assert(is_at(kept, series, i));
        law_one_place_per_series(kept, series, i);
    }
}

/// A server is started once: none is needed after that, whatever comes in.
pub proof fn law_server_is_started_once<F: Fn(&Vec<u64>, &Vec<u64>) -> Vec<u64>>(
    exporter: ExporterView,
    item: MetricView,
    now: int,
    sum: F,
    after: ExporterView,
)
    requires
        exporter.with_server().may_ingest(item, now, sum, after),
    ensures
        !exporter.with_server().needs_server(),
        !after.needs_server(),
{
}

} // verus!
