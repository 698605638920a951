//! The exporter: what it keeps of the metrics that come in, and when it starts its server.

use indexmap::IndexSet;
use std::time::Instant;
use vstd::prelude::*;

use crate::clock::{Clock, MAX_NANOS, NANOS_PER_SEC};
use crate::config::{ConfigView, ListenAddress, PrometheusExporterConfig};
use crate::expiring::{ExpiringMetric, ExpiringView};
use crate::http::{answer, handle, Encoding, Request, Response};
use crate::laws::ingesting::{
    law_ingesting_keeps_validity, law_one_place_per_series, lemma_swap_removed,
};
use crate::metric::{Metric, MetricKind, MetricValue, MetricView};
use crate::store::{distinct, holds, is_at, new_set, position, stored, swap_removed};

verus! {

/// An exporter of metrics.
#[derive(Debug)]
pub struct PrometheusExporter {
    server_running: bool,
    config: PrometheusExporterConfig,
    clock: Clock,
    metrics: IndexSet<ExpiringMetric>,
}

/// An exporter, as contracts speak of it: its configuration, the clock that it goes by, what it has
/// kept, in order, and whether its server has been started.
#[verifier::ext_equal]
pub ghost struct ExporterView {
    pub config: ConfigView,
    pub clock: Clock,
    pub entries: Seq<ExpiringView>,
    pub server_running: bool,
}

impl ConfigView {
    /// The flush period, in nanoseconds.
    pub open spec fn flush_period(self) -> int {
        self.flush_period_secs * NANOS_PER_SEC
    }

    /// What the encoder is given.
    pub open spec fn encoding(self) -> Encoding {
        Encoding {
            namespace: self.default_namespace,
            buckets: self.buckets,
            quantiles: self.quantiles,
        }
    }
}

impl ExporterView {
    /// Whether a server has to be started.
    pub open spec fn needs_server(self) -> bool {
        !self.server_running
    }

    pub open spec fn with_server(self) -> ExporterView {
        ExporterView { server_running: true, ..self }
    }

    /// Whether an exporter may be `after` once `item` has come in at `now`, where it was `self`
    /// before, and `sum` adds up the numbers.
    pub open spec fn may_ingest<F: Fn(&Vec<u64>, &Vec<u64>) -> Vec<u64>>(
        self,
        item: MetricView,
        now: int,
        sum: F,
        after: ExporterView,
    ) -> bool {
        let kept = self.entries[position(self.entries, item.to_absolute().series())];
        let next_flush = now + self.config.flush_period();
        exists|total: Seq<u64>|
            {
                &&& needs_sum(self.entries, item) ==> may_sum_to(
                    sum,
                    kept.metric.value.numbers(),
                    item.value.numbers(),
                    total,
                )
                &&& after == (ExporterView {
                    entries: #[trigger] ingested(self.entries, item, now, next_flush, total),
                    ..self
                })
            }
    }
}

impl View for PrometheusExporter {
    type V = ExporterView;

    closed spec fn view(&self) -> ExporterView {
        ExporterView {
            config: self.config@,
            clock: self.clock,
            entries: stored(self.metrics),
            server_running: self.server_running,
        }
    }
}

impl ExpiringView {
    /// What is kept of a series that held `self`, once the increment `item` has come in at `now`.
    /// A set that has expired first loses what it held and is put off to `next_flush`.
    pub open spec fn accumulate(
        self,
        item: MetricView,
        now: int,
        next_flush: int,
        total: Seq<u64>,
    ) -> ExpiringView {
        if item.value is StringSet && self.is_expired(now) {
            ExpiringView { metric: self.metric.reset().plus(item, total), next_flush }
        } else {
            ExpiringView { metric: self.metric.plus(item, total), ..self }
        }
    }
}

/// What is kept once `item` has come in at `now`, where `entries` was kept before, and what comes
/// in now is to be flushed at `next_flush`. `total` stands for the sum of the numbers that the
/// series held and those of `item`, where they are added up.
///
/// A series that was not kept is put last. An absolute metric of a series that was kept takes the
/// place of what was kept. An increment is added to what was kept; the sum is put last, and what
/// was last moves to where the series was.
pub open spec fn ingested(
    entries: Seq<ExpiringView>,
    item: MetricView,
    now: int,
    next_flush: int,
    total: Seq<u64>,
) -> Seq<ExpiringView> {
    let fresh = ExpiringView { metric: item.to_absolute(), next_flush };
    let i = position(entries, fresh.series());
    if !holds(entries, fresh.series()) {
        entries.push(fresh)
    } else {
        match item.kind {
            MetricKind::Absolute => entries.update(i, fresh),
            MetricKind::Incremental => swap_removed(entries, i).push(
                entries[i].accumulate(item, now, next_flush, total),
            ),
        }
    }
}

/// Whether `item` is an increment of numbers that have to be added up with numbers that are kept.
pub open spec fn needs_sum(entries: Seq<ExpiringView>, item: MetricView) -> bool {
    &&& item.kind is Incremental
    &&& item.value is Numeric
    &&& holds(entries, item.to_absolute().series())
}

/// Whether `sum` may give `total` for the sum of `kept` and `increment`.
pub open spec fn may_sum_to<F: Fn(&Vec<u64>, &Vec<u64>) -> Vec<u64>>(
    sum: F,
    kept: Seq<u64>,
    increment: Seq<u64>,
    total: Seq<u64>,
) -> bool {
    exists|a: Vec<u64>, b: Vec<u64>, t: Vec<u64>|
        {
            &&& a@ == kept
            &&& b@ == increment
            &&& t@ == total
            &&& #[trigger] call_ensures(sum, (&a, &b), t)
        }
}

/// What every exporter keeps: one metric of each series, all of them absolute.
pub open spec fn is_valid(entries: Seq<ExpiringView>) -> bool {
    &&& distinct(entries)
    &&& forall|i: int| 0 <= i < entries.len() ==> (#[trigger] entries[i]).metric.kind is Absolute
}

impl PrometheusExporter {
    /// Whether the exporter keeps what an exporter may keep.
    pub open spec fn well_formed(&self) -> bool {
        is_valid(self@.entries)
    }

    /// The clock that the exporter goes by.
    pub open spec fn time(&self) -> Clock {
        self@.clock
    }

    /// Whether the exporter has `config`, keeps nothing yet, has not started its server, and goes
    /// by a clock that was started at a moment that `Instant::now` gives.
    pub open spec fn is_new(&self, config: ConfigView) -> bool {
        &&& self.well_formed()
        &&& self@ == (ExporterView {
            config,
            clock: self.time(),
            entries: seq![],
            server_running: false,
        })
        &&& call_ensures(Instant::now, (), self.time().started_at())
    }

    /// An exporter that keeps nothing yet.
    pub fn new(config: PrometheusExporterConfig) -> (exporter: PrometheusExporter)
        ensures
            exporter.is_new(config@),
    {
        PrometheusExporter {
            server_running: false,
            config,
            clock: Clock::start(),
            metrics: new_set(),
        }
    }

    /// Starts a server, if none has been started: `start` is given the address and says whether
    /// it has started one. If it has not, the exporter stays without a server, and a later call
    /// tries again. Gives back what `start` has said; `None` if it was not asked.
    pub fn start_server_if_needed<T, E, F: FnOnce(ListenAddress) -> Result<T, E>>(
        &mut self,
        start: F,
    ) -> (started: Option<Result<T, E>>)
        requires
            call_requires(start, (old(self)@.config.address,)),
        ensures
            started is Some <==> old(self)@.needs_server(),
            started is Some <==> !old(self)@.server_running,
            started matches Some(result) ==> call_ensures(
                start,
                (old(self)@.config.address,),
                result,
            ),
            final(self)@ == if started matches Some(Ok(_)) {
                old(self)@.with_server()
            } else {
                old(self)@
            },
            final(self)@.server_running == (old(self)@.server_running || started matches Some(Ok(_))),
            final(self)@.config == old(self)@.config,
            final(self)@.entries == old(self)@.entries,
            final(self).time() == old(self).time(),
    {
        if self.server_running {
            return None;
        }
        let result = start(self.config.address);
        if result.is_ok() {
            self.server_running = true;
        }
        Some(result)
    }

    /// Takes in `item`, which came at `now`. `sum` adds up the numbers that are kept of a series
    /// and those of an increment. Gives back how many events to acknowledge.
    pub fn run_event_at<F: Fn(&Vec<u64>, &Vec<u64>) -> Vec<u64>>(
        &mut self,
        item: Metric,
        now: u128,
        sum: F,
    ) -> (acknowledged: usize)
        requires
            old(self).well_formed(),
            now + old(self)@.config.flush_period() <= u128::MAX,
            forall|a: &Vec<u64>, b: &Vec<u64>| call_requires(sum, (a, b)),
        ensures
            acknowledged == 1,
            final(self).well_formed(),
            final(self).time() == old(self).time(),
            old(self)@.may_ingest(item@, now as int, sum, final(self)@),
    {
        let next_flush: u128 = now + self.config.flush_period_secs as u128 * NANOS_PER_SEC;
        let ghost entries = stored(self.metrics);
        let ghost series = item@.to_absolute().series();
        let ghost mut numbers: Seq<u64> = seq![];
        let ghost view = item@;
        match item.kind {
            MetricKind::Incremental => {
                let new = ExpiringMetric::new(item.to_absolute(), next_flush);
                match crate::store::take(&mut self.metrics, &new) {
                    Some(taken) => {
                        let mut entry = taken;
                        let ghost before = entry@;
                        proof {
                            let i = choose|i: int|
                                {
                                    &&& #[trigger] is_at(entries, series, i)
                                    &&& before == entries[i]
                                    &&& stored(self.metrics) == swap_removed(entries, i)
                                };
                            law_one_place_per_series(entries, series, i);
                            lemma_swap_removed(entries, i);
                        }
                        if item.value.is_set() && entry.is_expired(now) {
                            // sets need to be expired from time to time
                            // because otherwise they could grow without end
                            entry.get_mut().reset();
                            entry.next_flush = next_flush;
                        }
                        let total: Vec<u64> = match (&entry.get_ref().value, &item.value) {
                            (
                                MetricValue::Numeric { data: kept, .. },
                                MetricValue::Numeric { data: increment, .. },
                            ) => sum(kept, increment),
                            _ => Vec::new(),
                        };
                        proof {
                            numbers = total@;
                        }
                        entry.get_mut().add(&item, total);
                        assert(entry@ == before.accumulate(
                            view,
                            now as int,
                            next_flush as int,
                            numbers,
                        ));
                        crate::store::insert(&mut self.metrics, entry);
                    },
                    None => {
                        crate::store::insert(&mut self.metrics, new);
                    },
                }
            },
            MetricKind::Absolute => {
                let new = ExpiringMetric::new(item, next_flush);
                let replaced = crate::store::replace(&mut self.metrics, new);
                proof {
                    if replaced is Some {
                        let i = choose|i: int|
                            {
                                &&& #[trigger] is_at(entries, series, i)
                                &&& stored(self.metrics) == entries.update(i, new@)
                            };
                        law_one_place_per_series(entries, series, i);
                    }
                }
            },
        }
        proof {
            law_ingesting_keeps_validity(entries, view, now as int, next_flush as int, numbers);
            assert(stored(self.metrics) == ingested(
                entries,
                view,
                now as int,
                next_flush as int,
                numbers,
            ));
        }
        1
    }

    /// Takes in `item`, which has come now, as `run_event_at` does.
    pub fn run_event<F: Fn(&Vec<u64>, &Vec<u64>) -> Vec<u64>>(
        &mut self,
        item: Metric,
        sum: F,
    ) -> (acknowledged: usize)
        requires
            old(self).well_formed(),
            forall|a: &Vec<u64>, b: &Vec<u64>| call_requires(sum, (a, b)),
        ensures
            acknowledged == 1,
            final(self).well_formed(),
            final(self).time() == old(self).time(),
            exists|now: u128|
                {
                    &&& #[trigger] old(self).time().may_tell(now)
                    &&& now <= MAX_NANOS
                    &&& old(self)@.may_ingest(item@, now as int, sum, final(self)@)
                },
    {
        let now: u128 = self.clock.now();
        assert(self.time().may_tell(now));
        self.run_event_at(item, now, sum)
    }

    /// The answer to `req` at `now`.
    pub fn respond_at(&self, req: &Request, now: u128) -> (response: Response<'_>)
        ensures
            response@ == answer(req@, self@.config.encoding(), self@.entries, now as int),
    {
        let default_namespace = match &self.config.default_namespace {
            Some(namespace) => Some(namespace.as_str()),
            None => None,
        };
        handle(
            req,
            default_namespace,
            self.config.buckets.as_slice(),
            self.config.quantiles.as_slice(),
            &self.metrics,
            now,
        )
    }

    /// The answer to `req`, now.
    pub fn respond(&self, req: &Request) -> (response: Response<'_>)
        ensures
            exists|now: u128|
                {
                    &&& #[trigger] self.time().may_tell(now)
                    &&& now <= MAX_NANOS
                    &&& response@ == answer(
                        req@,
                        self@.config.encoding(),
                        self@.entries,
                        now as int,
                    )
                },
    {
        let now: u128 = self.clock.now();
        assert(self.time().may_tell(now));
        self.respond_at(req, now)
    }
}

} // verus!
