//! What the answers show.

use vstd::prelude::*;

use crate::config::ConfigView;
use crate::expiring::ExpiringView;
use crate::exporter::{ingested, is_valid};
use crate::http::{answer, exposition, has_name, lemma_has_name_push, Encoding, RequestView, StepView};
use crate::laws::ingesting::{
    law_ingesting_keeps_validity, law_item_is_kept, law_one_place_per_series, outcome,
};
use crate::metric::MetricView;
use crate::store::is_at;

verus! {

/// The steps that write a value.
pub open spec fn samples(steps: Seq<StepView>) -> Seq<StepView> {
    steps.filter(|step: StepView| step is Sample)
}

/// The steps that write the header of `name`.
pub open spec fn headers_of(steps: Seq<StepView>, name: Seq<char>) -> Seq<StepView> {
    steps.filter(|step: StepView| step is Header && step.metric().name == name)
}

/// Every metric that is kept is shown once, in the order in which they are kept, with the mark that
/// tells whether it has expired.
pub proof fn law_every_metric_is_shown_once(
    encoding: Encoding,
    entries: Seq<ExpiringView>,
    now: int,
)
    ensures
        samples(exposition(encoding, entries, now)) == Seq::new(
            entries.len(),
            |i: int| encoding.sample(entries[i], now),
        ),
    decreases entries.len(),
{
    let shown = Seq::new(entries.len(), |i: int| encoding.sample(entries[i], now));
    reveal(Seq::filter);
    if entries.len() == 0 {
        assert(samples(exposition(encoding, entries, now)) =~= shown);
    } else {
        let init = entries.drop_last();
        let before = exposition(encoding, init, now);
        let entry = entries.last();
        law_every_metric_is_shown_once(encoding, init, now);
        let sample = encoding.sample(entry, now);
        let header = encoding.header(entry);
        assert(before.push(header).drop_last() =~= before);
        assert(before.push(sample).drop_last() =~= before);
        assert(before.push(header).push(sample).drop_last() =~= before.push(header));
        assert(samples(before.push(header)) == samples(before));
        assert(samples(exposition(encoding, entries, now)) =~= samples(before).push(sample));
        assert(samples(before).push(sample) =~= shown);
    }
}

/// The header of a name is written once if a metric of that name is kept, and not at all otherwise.
pub proof fn law_headers_only_once(
    encoding: Encoding,
    entries: Seq<ExpiringView>,
    now: int,
    name: Seq<char>,
)
    ensures
        headers_of(exposition(encoding, entries, now), name).len() == if has_name(entries, name) {
            1nat
        } else {
            0nat
        },
    decreases entries.len(),
{
    reveal(Seq::filter);
    if entries.len() > 0 {
        let init = entries.drop_last();
        let before = exposition(encoding, init, now);
        let entry = entries.last();
        law_headers_only_once(encoding, init, now, name);
        lemma_has_name_push(init, entry, name);
        assert(init.push(entry) =~= entries);
        let sample = encoding.sample(entry, now);
        let header = encoding.header(entry);
        assert(before.push(header).drop_last() =~= before);
        assert(before.push(sample).drop_last() =~= before);
        assert(before.push(header).push(sample).drop_last() =~= before.push(header));
        assert(headers_of(before.push(sample), name) == headers_of(before, name));
        assert(headers_of(before.push(header).push(sample), name) == headers_of(
            before.push(header),
            name,
        ));
    }
}

/// No value is written before the header of its name.
pub proof fn law_header_comes_first(
    encoding: Encoding,
    entries: Seq<ExpiringView>,
    now: int,
    k: int,
)
    requires
        0 <= k < exposition(encoding, entries, now).len(),
        exposition(encoding, entries, now)[k] is Sample,
    ensures
        exists|j: int|
            {
                &&& 0 <= j < k
                &&& (#[trigger] exposition(encoding, entries, now)[j]) is Header
                &&& exposition(encoding, entries, now)[j].metric().name == exposition(
                    encoding,
                    entries,
                    now,
                )[k].metric().name
            },
    decreases entries.len(),
{
    let steps = exposition(encoding, entries, now);
    let init = entries.drop_last();
    let before = exposition(encoding, init, now);
    let name = steps[k].metric().name;
    if k < before.len() {
        assert(steps[k] == before[k]);
        law_header_comes_first(encoding, init, now, k);
        let j = choose|j: int|
            {
                &&& 0 <= j < k
                &&& (#[trigger] before[j]) is Header
                &&& before[j].metric().name == name
            };
        assert(steps[j] == before[j]);
    } else if has_name(init, name) {
        lemma_header_is_there(encoding, init, now, name);
        let j = choose|j: int|
            {
                &&& 0 <= j < before.len()
                &&& (#[trigger] before[j]) is Header
                &&& before[j].metric().name == name
            };
        assert(steps[j] == before[j]);
    } else {
        assert(steps[before.len() as int] is Header);
    }
}

/// A name that is kept has a header.
proof fn lemma_header_is_there(
    encoding: Encoding,
    entries: Seq<ExpiringView>,
    now: int,
    name: Seq<char>,
)
    requires
        has_name(entries, name),
    ensures
        exists|j: int|
            {
                &&& 0 <= j < exposition(encoding, entries, now).len()
                &&& (#[trigger] exposition(encoding, entries, now)[j]) is Header
                &&& exposition(encoding, entries, now)[j].metric().name == name
            },
    decreases entries.len(),
{
    let steps = exposition(encoding, entries, now);
    let init = entries.drop_last();
    let before = exposition(encoding, init, now);
    assert(init.push(entries.last()) =~= entries);
    lemma_has_name_push(init, entries.last(), name);
    if has_name(init, name) {
        lemma_header_is_there(encoding, init, now, name);
        let j = choose|j: int|
            {
                &&& 0 <= j < before.len()
                &&& (#[trigger] before[j]) is Header
                &&& before[j].metric().name == name
            };
        assert(steps[j] == before[j]);
    } else {
        assert(steps[before.len() as int] is Header);
    }
}

/// A header is followed by the value of the metric that it was written for.
pub proof fn law_header_is_followed_by_its_value(
    encoding: Encoding,
    entries: Seq<ExpiringView>,
    now: int,
    k: int,
)
    requires
        0 <= k < exposition(encoding, entries, now).len(),
        exposition(encoding, entries, now)[k] is Header,
    ensures
        k + 1 < exposition(encoding, entries, now).len(),
        exposition(encoding, entries, now)[k + 1] is Sample,
        exposition(encoding, entries, now)[k + 1].metric() == exposition(
            encoding,
            entries,
            now,
        )[k].metric(),
    decreases entries.len(),
{
    let before = exposition(encoding, entries.drop_last(), now);
    if k < before.len() {
        law_header_is_followed_by_its_value(encoding, entries.drop_last(), now, k);
    }
}

/// A step writes a value if and only if it is the value of a metric that is kept.
pub proof fn law_only_kept_metrics_are_shown(
    encoding: Encoding,
    entries: Seq<ExpiringView>,
    now: int,
    step: StepView,
)
    requires
        step is Sample,
    ensures
        exposition(encoding, entries, now).contains(step) <==> exists|i: int|
            0 <= i < entries.len() && step == encoding.sample(#[trigger] entries[i], now),
{
    let steps = exposition(encoding, entries, now);
    let pred = |step: StepView| step is Sample;
    law_every_metric_is_shown_once(encoding, entries, now);
    let shown = samples(steps);
    if steps.contains(step) {
        let k = choose|k: int| 0 <= k < steps.len() && steps[k] == step;
        steps.lemma_filter_contains(pred, k);
        let i = choose|i: int| 0 <= i < shown.len() && shown[i] == step;
        assert(step == encoding.sample(entries[i], now));
    }
    if exists|i: int| 0 <= i < entries.len() && step == encoding.sample(#[trigger] entries[i], now) {
        let i = choose|i: int|
            0 <= i < entries.len() && step == encoding.sample(#[trigger] entries[i], now);
        assert(shown[i] == step);
        assert(steps.filter(pred).contains(step));
        steps.lemma_filter_contains_rev(pred, step);
    }
}

/// A request for anything but the metrics is told that it is not there, and learns nothing of what
/// is kept.
pub proof fn law_refused_request_learns_nothing(
    request: RequestView,
    encoding: Encoding,
    entries: Seq<ExpiringView>,
    now: int,
)
    requires
        !request.is_scrape(),
    ensures
        answer(request, encoding, entries, now).status == 404,
        answer(request, encoding, entries, now).content_type is None,
        answer(request, encoding, entries, now).body.len() == 0,
{
}

/// Once a metric has come in, whoever asks for the metrics at `time` is shown what is kept of its
/// series, and nothing else of that series.
pub proof fn law_what_comes_in_is_shown(
    entries: Seq<ExpiringView>,
    item: MetricView,
    now: int,
    next_flush: int,
    total: Seq<u64>,
    request: RequestView,
    encoding: Encoding,
    time: int,
)
    requires
        is_valid(entries),
        request.is_scrape(),
    ensures
        ({
            let after = ingested(entries, item, now, next_flush, total);
            let kept = outcome(entries, item, now, next_flush, total);
            let body = answer(request, encoding, after, time).body;
            &&& answer(request, encoding, after, time).status == 200
            &&& body.contains(encoding.sample(kept, time))
            &&& forall|k: int|
                0 <= k < body.len() && (#[trigger] body[k]) is Sample && body[k].metric().series()
                    == kept.series() ==> body[k] == encoding.sample(kept, time)
        }),
{
    let after = ingested(entries, item, now, next_flush, total);
    let kept = outcome(entries, item, now, next_flush, total);
    let body = answer(request, encoding, after, time).body;
    law_item_is_kept(entries, item, now, next_flush, total);
    law_ingesting_keeps_validity(entries, item, now, next_flush, total);
    let i = choose|i: int| 0 <= i < after.len() && after[i] == kept;
    law_only_kept_metrics_are_shown(encoding, after, time, encoding.sample(kept, time));
    assert(encoding.sample(after[i], time) == encoding.sample(kept, time));
    assert forall|k: int|
        0 <= k < body.len() && (#[trigger] body[k]) is Sample && body[k].metric().series()
            == kept.series() implies body[k] == encoding.sample(kept, time) by {
        assert(body.contains(body[k]));
        law_only_kept_metrics_are_shown(encoding, after, time, body[k]);
        let j = choose|j: int|
            0 <= j < after.len() && body[k] == encoding.sample(#[trigger] after[j], time);
        assert(is_at(after, kept.series(), j));
        law_one_place_per_series(after, kept.series(), j);
    }
}

/// Whoever asks for the metrics gets them, as text of the format's version: every metric that is
/// kept is written once, in order, with the whole list of buckets and of quantiles, and is marked as
/// expired exactly if its flush lies before now.
pub proof fn law_what_is_answered(
    request: RequestView,
    encoding: Encoding,
    entries: Seq<ExpiringView>,
    now: int,
)
    requires
        request.method == "GET"@,
        request.path == "/metrics"@,
    ensures
        answer(request, encoding, entries, now).status == 200,
        answer(request, encoding, entries, now).content_type == Some("text/plain; version=0.0.4"@),
        answer(request, encoding, entries, now).body.filter(|step: StepView| step is Sample)
            == Seq::new(
            entries.len(),
            |i: int|
                StepView::Sample {
                    namespace: encoding.namespace,
                    buckets: encoding.buckets,
                    quantiles: encoding.quantiles,
                    expired: entries[i].next_flush < now,
                    metric: entries[i].metric,
                },
        ),
{
    law_every_metric_is_shown_once(encoding, entries, now);
    assert(samples(exposition(encoding, entries, now)) =~= Seq::new(
        entries.len(),
        |i: int|
            StepView::Sample {
                namespace: encoding.namespace,
                buckets: encoding.buckets,
                quantiles: encoding.quantiles,
                expired: entries[i].next_flush < now,
                metric: entries[i].metric,
            },
    ));
}

/// A request with another method or for another path is told that it is not there.
pub proof fn law_what_is_refused(
    request: RequestView,
    encoding: Encoding,
    entries: Seq<ExpiringView>,
    now: int,
)
    requires
        request.method != "GET"@ || request.path != "/metrics"@,
    ensures
        answer(request, encoding, entries, now).status == 404,
        answer(request, encoding, entries, now).content_type is None,
        answer(request, encoding, entries, now).body.len() == 0,
{
}

/// What the encoder is given is what is configured: the namespace, all buckets and all quantiles.
pub proof fn law_what_the_encoder_is_given(config: ConfigView)
    ensures
        config.encoding().namespace == config.default_namespace,
        config.encoding().buckets == config.buckets,
        config.encoding().quantiles == config.quantiles,
{
}

/// Every step of an answer is about a metric that is kept, with the configured namespace; if it
/// writes a value, it also has exactly the configured buckets and quantiles, however many there are,
/// and tells whether the flush of that metric lies before now.
pub proof fn law_steps_are_as_configured(
    request: RequestView,
    config: ConfigView,
    entries: Seq<ExpiringView>,
    now: int,
    k: int,
)
    requires
        0 <= k < answer(request, config.encoding(), entries, now).body.len(),
    ensures
        match answer(request, config.encoding(), entries, now).body[k] {
            StepView::Header { namespace, metric } => {
                &&& namespace == config.default_namespace
                &&& exists|i: int|
                    0 <= i < entries.len() && metric == (#[trigger] entries[i]).metric
            },
            StepView::Sample { namespace, buckets, quantiles, expired, metric } => {
                &&& namespace == config.default_namespace
                &&& buckets == config.buckets
                &&& quantiles == config.quantiles
                &&& exists|i: int|
                    {
                        &&& 0 <= i < entries.len()
                        &&& metric == (#[trigger] entries[i]).metric
                        &&& expired == (entries[i].next_flush < now)
                    }
            },
        },
    decreases entries.len(),
{
    let encoding = config.encoding();
    let init = entries.drop_last();
    let before = exposition(encoding, init, now);
    if k < before.len() {
        law_steps_are_as_configured(request, config, init, now, k);
        assert(exposition(encoding, entries, now)[k] == before[k]);
        assert(forall|i: int| 0 <= i < init.len() ==> #[trigger] init[i] == entries[i]);
    } else {
        let last = entries[entries.len() - 1];
        assert(entries.last() == last);
    }
}

/// Whether one of the first `k` steps writes a value of the name `name`.
pub open spec fn written_before(steps: Seq<StepView>, k: int, name: Seq<char>) -> bool {
    exists|j: int|
        {
            &&& 0 <= j < k
            &&& (#[trigger] steps[j]) is Sample
            &&& steps[j]->Sample_metric.name == name
        }
}

proof fn lemma_written(
    encoding: Encoding,
    entries: Seq<ExpiringView>,
    now: int,
    name: Seq<char>,
)
    ensures
        has_name(entries, name) <==> written_before(
            exposition(encoding, entries, now),
            exposition(encoding, entries, now).len() as int,
            name,
        ),
    decreases entries.len(),
{
    if entries.len() > 0 {
        let steps = exposition(encoding, entries, now);
        let init = entries.drop_last();
        let before = exposition(encoding, init, now);
        lemma_written(encoding, init, now, name);
        lemma_has_name_push(init, entries.last(), name);
        assert(init.push(entries.last()) =~= entries);
        assert(forall|j: int| 0 <= j < before.len() ==> #[trigger] steps[j] == before[j]);
        let last = steps[steps.len() - 1];
        assert(last is Sample && last->Sample_metric == entries.last().metric);
        if has_name(init, name) {
            let j = choose|j: int|
                {
                    &&& 0 <= j < before.len()
                    &&& (#[trigger] before[j]) is Sample
                    &&& before[j]->Sample_metric.name == name
                };
            assert(steps[j] == before[j]);
        }
        if written_before(steps, steps.len() as int, name) {
            let j = choose|j: int|
                {
                    &&& 0 <= j < steps.len()
                    &&& (#[trigger] steps[j]) is Sample
                    &&& steps[j]->Sample_metric.name == name
                };
            if j < before.len() {
                assert(before[j] == steps[j]);
            }
        }
    }
}

/// A header stands right before the first value of its name, for the metric whose value that is,
/// and nowhere else.
pub proof fn law_where_headers_stand(
    request: RequestView,
    encoding: Encoding,
    entries: Seq<ExpiringView>,
    now: int,
    k: int,
)
    requires
        0 <= k < answer(request, encoding, entries, now).body.len(),
    ensures
        ({
            let body = answer(request, encoding, entries, now).body;
            match body[k] {
                StepView::Header { metric, .. } => {
                    &&& k + 1 < body.len()
                    &&& body[k + 1] is Sample
                    &&& body[k + 1]->Sample_metric == metric
                    &&& !written_before(body, k, metric.name)
                },
                StepView::Sample { metric, .. } => {
                    written_before(body, k, metric.name) || {
                        &&& 0 < k
                        &&& body[k - 1] is Header
                        &&& body[k - 1]->Header_namespace == encoding.namespace
                        &&& body[k - 1]->Header_metric == metric
                    }
                },
            }
        }),
    decreases entries.len(),
{
    let body = exposition(encoding, entries, now);
    let init = entries.drop_last();
    let before = exposition(encoding, init, now);
    let n = before.len() as int;
    assert(forall|j: int| 0 <= j < n ==> #[trigger] body[j] == before[j]);
    if k < n {
        law_where_headers_stand(request, encoding, init, now, k);
        let name = body[k].metric().name;
        assert(written_before(body, k, name) <==> written_before(before, k, name)) by {
            assert(forall|j: int| 0 <= j < k ==> #[trigger] before[j] == body[j]);
        }
    } else {
        let name = entries.last().metric.name;
        lemma_written(encoding, init, now, name);
        if written_before(before, n, name) {
            let j = choose|j: int|
                {
                    &&& 0 <= j < n
                    &&& (#[trigger] before[j]) is Sample
                    &&& before[j]->Sample_metric.name == name
                };
            assert(body[j] == before[j]);
        } else if written_before(body, n, name) {
            let j = choose|j: int|
                {
                    &&& 0 <= j < n
                    &&& (#[trigger] body[j]) is Sample
                    &&& body[j]->Sample_metric.name == name
                };
            assert(before[j] == body[j]);
        }
    }
}

} // verus!
