//! Metrics that expire.

use std::hash::{Hash, Hasher};
use vstd::prelude::*;

use crate::feeding::feed;
use crate::metric::{is_step, leads, Metric, MetricEntry, MetricView, Series};

verus! {

/// A metric and the moment after which it counts as expired. Moments are nanoseconds of a clock
/// that never goes back.
#[derive(Debug)]
pub struct ExpiringMetric {
    pub inner: MetricEntry,
    pub next_flush: u128,
}

/// An expiring metric, as contracts speak of it.
#[verifier::ext_equal]
pub ghost struct ExpiringView {
    pub metric: MetricView,
    pub next_flush: int,
}

impl View for ExpiringMetric {
    type V = ExpiringView;

    open spec fn view(&self) -> ExpiringView {
        ExpiringView { metric: self.inner@, next_flush: self.next_flush as int }
    }
}

impl ExpiringView {
    pub open spec fn is_expired(self, time: int) -> bool {
        self.next_flush < time
    }

    pub open spec fn series(self) -> Series {
        self.metric.series()
    }
}

impl ExpiringMetric {
    /// A metric that expires after `next_flush`.
    pub fn new(metric: Metric, next_flush: u128) -> (entry: ExpiringMetric)
        ensures
            entry@ == (ExpiringView { metric: metric@, next_flush: next_flush as int }),
            entry.inner.metric == metric,
    {
        ExpiringMetric { inner: MetricEntry::new(metric), next_flush }
    }

    /// Whether the metric has expired at `time`.
    pub fn is_expired(&self, time: u128) -> (expired: bool)
        ensures
            expired == self@.is_expired(time as int),
    {
        self.next_flush < time
    }

    /// The metric.
    pub fn get_ref(&self) -> (metric: &Metric)
        ensures
            *metric == self.inner.metric,
            metric@ == self@.metric,
    {
        self.inner.get_ref()
    }

    /// The metric, to be changed. When it expires stays as it was.
    pub fn get_mut(&mut self) -> (metric: &mut Metric)
        ensures
            *metric == old(self).inner.metric,
            metric@ == old(self)@.metric,
            final(self).inner.metric == *final(metric),
            final(self).next_flush == old(self).next_flush,
    {
        self.inner.get_mut()
    }
}

impl PartialEq for ExpiringMetric {
    /// Two expiring metrics are equal if they belong to one series.
    fn eq(&self, other: &ExpiringMetric) -> (same: bool) {
        self.inner == other.inner
    }
}

impl vstd::std_specs::cmp::PartialEqSpecImpl for ExpiringMetric {
    open spec fn obeys_eq_spec() -> bool {
        true
    }

    open spec fn eq_spec(&self, other: &ExpiringMetric) -> bool {
        self@.series() == other@.series()
    }
}

impl Eq for ExpiringMetric {

}

impl Hash for ExpiringMetric {
    /// Feeds the parts of the metric to the hasher, one after the other, and nothing else: when the
    /// metric is flushed does not matter.
    fn hash<H: Hasher>(&self, state: &mut H)
        ensures
            exists|states: Seq<H>|
                {
                    &&& #[trigger] leads(
                        states,
                        self@.metric.hash_parts().len(),
                        *old(state),
                        *final(state),
                    )
                    &&& forall|i: int| #[trigger]
                        is_step(i) && i < self@.metric.hash_parts().len() ==> exists|
                            part: String,
                            r: &mut H,
                        |
                            {
                                &&& part@ == self@.metric.hash_parts()[i]
                                &&& *r == states[i]
                                &&& *final(r) == states[i + 1]
                                &&& #[trigger] call_ensures(feed::<H>, (&part, r), ())
                            }
                },
    {
        self.inner.hash(state)
    }
}

} // verus!
