//! What the words of the contracts mean: the views of values show everything that the values hold,
//! and each operation on views says field by field what it gives.

use std::time::{Duration, Instant};
use vstd::prelude::*;

use crate::clock::{Clock, MAX_NANOS};
use crate::config::{BuildError, ConfigView, PrometheusExporterConfig};
use crate::expiring::{ExpiringMetric, ExpiringView};
use crate::exporter::{ExporterView, PrometheusExporter};
use crate::http::{str_text, Request, Response, Step, StepView};
use crate::metric::{Metric, MetricEntry, MetricKind, MetricValue, MetricView, ValueView};
use crate::string_set::texts;
use crate::tags::tag_texts;

verus! {

/// The view of a value shows the strings of a set, and the shape and all numbers of anything else.
pub proof fn law_view_of_a_value(value: MetricValue)
    ensures
        match value {
            MetricValue::StringSet { values } => value@ == (ValueView::StringSet {
                values: values@,
            }),
            MetricValue::Numeric { shape, data } => value@ == (ValueView::Numeric {
                shape: shape@,
                data: data@,
            }),
        },
{
}

/// The view of a metric shows each of its fields.
pub proof fn law_view_of_a_metric(metric: Metric)
    ensures
        metric@.name == metric.name@,
        match metric.namespace {
            Some(namespace) => metric@.namespace == Some(namespace@),
            None => metric@.namespace is None,
        },
        metric@.timestamp == metric.timestamp,
        match metric.tags {
            Some(tags) => metric@.tags == Some(tags@),
            None => metric@.tags is None,
        },
        metric@.kind == metric.kind,
        metric@.value == metric.value@,
{
}

/// The view of an entry is that of its metric.
pub proof fn law_view_of_an_entry(entry: MetricEntry)
    ensures
        entry@ == entry.metric@,
{
}

/// The view of an expiring metric shows the metric and the moment of its flush.
pub proof fn law_view_of_an_expiring_metric(entry: ExpiringMetric)
    ensures
        entry@.metric == entry.inner.metric@,
        entry@.next_flush == entry.next_flush,
{
}

/// The texts of strings are those strings, one for one.
pub proof fn law_texts_of_strings(values: Seq<String>)
    ensures
        texts(values).len() == values.len(),
        forall|i: int| 0 <= i < values.len() ==> #[trigger] texts(values)[i] == values[i]@,
{
}

/// The texts of tags are those tags, one for one.
pub proof fn law_texts_of_tags(pairs: Seq<(String, String)>)
    ensures
        tag_texts(pairs).len() == pairs.len(),
        forall|i: int|
            0 <= i < pairs.len() ==> #[trigger] tag_texts(pairs)[i] == (pairs[i].0@, pairs[i].1@),
{
}

/// The view of a configuration shows each of its fields.
pub proof fn law_view_of_a_configuration(config: PrometheusExporterConfig)
    ensures
        match config.default_namespace {
            Some(namespace) => config@.default_namespace == Some(namespace@),
            None => config@.default_namespace is None,
        },
        config@.address == config.address,
        config@.buckets == config.buckets@,
        config@.quantiles == config.quantiles@,
        config@.flush_period_secs == config.flush_period_secs,
{
}

/// The view of a request shows its method and its path.
pub proof fn law_view_of_a_request(request: Request)
    ensures
        request@.method == request.method@,
        request@.path == request.path@,
{
}

/// The view of a step shows each of its fields.
pub proof fn law_view_of_a_step<'a>(step: Step<'a>)
    ensures
        match step {
            Step::Header { namespace, metric } => {
                &&& step@ is Header
                &&& match namespace {
                    Some(namespace) => step@->Header_namespace == Some(namespace@),
                    None => step@->Header_namespace is None,
                }
                &&& step@->Header_metric == metric@
            },
            Step::Sample { namespace, buckets, quantiles, expired, metric } => {
                &&& step@ is Sample
                &&& match namespace {
                    Some(namespace) => step@->Sample_namespace == Some(namespace@),
                    None => step@->Sample_namespace is None,
                }
                &&& step@->buckets == buckets@
                &&& step@->quantiles == quantiles@
                &&& step@->expired == expired
                &&& step@->Sample_metric == metric@
            },
        },
{
}

/// The text of an optional string is the text of the string.
pub proof fn law_text_of_an_optional_string(value: Option<&str>)
    ensures
        match value {
            Some(value) => str_text(Some(value)) == Some(value@),
            None => str_text(None) is None,
        },
{
}

/// The view of an answer shows its status, its content type and every step of its body, in order.
pub proof fn law_view_of_an_answer<'a>(response: Response<'a>)
    ensures
        response@.status == response.status,
        match response.content_type {
            Some(content_type) => response@.content_type == Some(content_type@),
            None => response@.content_type is None,
        },
        response@.body.len() == response.body@.len(),
        forall|i: int|
            0 <= i < response.body@.len() ==> #[trigger] response@.body[i] == response.body@[i]@,
{
}

/// What a clock may tell is the nanoseconds of a duration that has elapsed since its start.
pub proof fn law_clock_tells_what_has_elapsed(clock: Clock, nanos: u128)
    requires
        clock.may_tell(nanos),
    ensures
        exists|elapsed: Duration|
            {
                &&& #[trigger] call_ensures(
                    Instant::elapsed,
                    (&clock.started_at(),),
                    elapsed,
                )
                &&& call_ensures(Duration::as_nanos, (&elapsed,), nanos)
            },
{
    let elapsed = choose|elapsed: Duration|
        {
            &&& #[trigger] clock.may_have_run_for(elapsed)
            &&& call_ensures(Duration::as_nanos, (&elapsed,), nanos)
        };
    assert(call_ensures(Instant::elapsed, (&clock.started_at(),), elapsed));
}

/// The latest moment that a clock tells is the longest duration there is: `u64::MAX` seconds and
/// 999,999,999 nanoseconds.
pub proof fn law_latest_moment(seconds: u64, nanos: u32)
    requires
        nanos < 1_000_000_000,
    ensures
        seconds * 1_000_000_000 + nanos <= MAX_NANOS,
        seconds * 1_000_000_000 + nanos == MAX_NANOS <==> seconds == u64::MAX && nanos
            == 999_999_999,
{
}

/// A new exporter has its configuration, keeps nothing, has not started its server, and goes by a
/// clock that has just been started. The clock that it goes by is that of its view.
pub proof fn law_new_exporter(exporter: PrometheusExporter, config: ConfigView)
    requires
        exporter.is_new(config),
    ensures
        exporter@.config == config,
        exporter@.entries.len() == 0,
        !exporter@.server_running,
        call_ensures(Instant::now, (), exporter@.clock.started_at()),
        exporter.time() == exporter@.clock,
{
}

/// An exporter goes by the clock of its view.
pub proof fn law_time_of_an_exporter(exporter: PrometheusExporter)
    ensures
        exporter.time() == exporter@.clock,
{
}

/// A server has to be started exactly if none runs, whatever the configuration and whatever is
/// kept. Once it has been started it runs, and nothing else has changed.
pub proof fn law_server_is_needed_until_it_runs(exporter: ExporterView)
    ensures
        exporter.needs_server() <==> !exporter.server_running,
        exporter.with_server().server_running,
        exporter.with_server().config == exporter.config,
        exporter.with_server().clock == exporter.clock,
        exporter.with_server().entries == exporter.entries,
{
}

/// Every new exporter needs a server, whatever its configuration.
pub proof fn law_new_exporter_needs_a_server(exporter: PrometheusExporter, config: ConfigView)
    requires
        exporter.is_new(config),
    ensures
        exporter@.needs_server(),
{
}

/// No exporter is built with a flush period of no seconds, whatever the check of the quantiles has
/// said; with any other it is built exactly if the check has passed.
pub proof fn law_what_can_be_built<E>(config: ConfigView, check: Result<(), E>)
    ensures
        config.flush_period_secs == 0 ==> config.build_error(check) == Some(
            BuildError::<E>::FlushPeriodTooShort { min: 1 },
        ),
        config.flush_period_secs >= 1 ==> match check {
            Ok(_) => config.build_error(check) is None,
            Err(error) => config.build_error(check) == Some(
                BuildError::<E>::InvalidQuantiles { error },
            ),
        },
{
}

/// Read as absolute, a metric is what it was but for its kind.
pub proof fn law_reading_as_absolute(metric: MetricView)
    ensures
        metric.to_absolute().kind is Absolute,
        metric.to_absolute() == (MetricView { kind: MetricKind::Absolute, ..metric }),
{
}

/// Emptied, a metric is what it was but for holding a set without strings.
pub proof fn law_emptying(metric: MetricView)
    ensures
        metric.reset() == (MetricView {
            value: ValueView::StringSet { values: Set::empty() },
            ..metric
        }),
{
}

/// Adding changes the value alone: two sets give their union, numbers of one shape give their total,
/// and values of different sorts leave the first.
pub proof fn law_adding(metric: MetricView, other: MetricView, total: Seq<u64>)
    ensures
        ({
            let sum = metric.plus(other, total);
            &&& sum == (MetricView { value: sum.value, ..metric })
            &&& match (metric.value, other.value) {
                (ValueView::StringSet { values: a }, ValueView::StringSet { values: b }) => {
                    &&& sum.value is StringSet
                    &&& forall|text: Seq<char>| #[trigger]
                        sum.value->values.contains(text) <==> a.contains(text) || b.contains(text)
                },
                (
                    ValueView::Numeric { shape: a, data },
                    ValueView::Numeric { shape: b, .. },
                ) => sum.value == (ValueView::Numeric {
                    shape: a,
                    data: if a == b {
                        total
                    } else {
                        data
                    },
                }),
                _ => sum.value == metric.value,
            }
        }),
{
}

/// A metric has expired at a moment exactly if its flush lies before that moment.
pub proof fn law_expired_once_the_flush_is_past(entry: ExpiringView, time: int)
    ensures
        entry.is_expired(time) <==> entry.next_flush < time,
{
}

} // verus!
