//! The set in which the exporter keeps its metrics: an `IndexSet`, which holds one metric of each
//! series and keeps them in order.
//!
//! What is said here of the set's methods rests on the equality of `ExpiringMetric`, which is
//! proved to go by series, and on its hash, which is proved to feed a hasher parts of the series
//! alone.

use indexmap::IndexSet;
use vstd::prelude::*;

use crate::expiring::{ExpiringMetric, ExpiringView};
use crate::metric::Series;

verus! {

/// The set of the `indexmap` crate.
#[verifier::external_type_specification]
#[verifier::external_body]
#[verifier::reject_recursive_types(T)]
#[verifier::reject_recursive_types(S)]
pub struct ExIndexSet<T, S>(indexmap::IndexSet<T, S>);

/// What the set holds, in its order.
pub uninterp spec fn stored(set: IndexSet<ExpiringMetric>) -> Seq<ExpiringView>;

/// Whether position `i` of `entries` holds a metric of `series`.
pub open spec fn is_at(entries: Seq<ExpiringView>, series: Series, i: int) -> bool {
    0 <= i < entries.len() && entries[i].series() == series
}

/// Whether `entries` holds a metric of `series`.
pub open spec fn holds(entries: Seq<ExpiringView>, series: Series) -> bool {
    exists|i: int| is_at(entries, series, i)
}

/// Where `entries` holds a metric of `series`.
pub open spec fn position(entries: Seq<ExpiringView>, series: Series) -> int {
    choose|i: int| is_at(entries, series, i)
}

/// Whether no series occurs twice.
pub open spec fn distinct(entries: Seq<ExpiringView>) -> bool {
    forall|i: int, j: int|
        0 <= i < j < entries.len() ==> (#[trigger] entries[i]).series() != (
        #[trigger] entries[j]).series()
}

/// `entries` without position `i`, which the last entry takes.
pub open spec fn swap_removed(entries: Seq<ExpiringView>, i: int) -> Seq<ExpiringView> {
    if i == entries.len() - 1 {
        entries.drop_last()
    } else {
        entries.drop_last().update(i, entries.last())
    }
}

/// `IndexSet::new`: a set that holds nothing.
#[verifier::external_body]
pub(crate) fn new_set() -> (set: IndexSet<ExpiringMetric>)
    ensures
        stored(set) == Seq::<ExpiringView>::empty(),
{
    IndexSet::new()
}

/// `IndexSet::len`: how many metrics the set holds.
#[verifier::external_body]
pub(crate) fn len(set: &IndexSet<ExpiringMetric>) -> (count: usize)
    ensures
        count == stored(*set).len(),
{
    set.len()
}

/// `IndexSet::get_index`: the metric at a position, in the order of the set; `None` past the end.
#[verifier::external_body]
pub(crate) fn get_index(set: &IndexSet<ExpiringMetric>, index: usize) -> (found: Option<
    &ExpiringMetric,
>)
    ensures
        found is Some <==> index < stored(*set).len(),
        found matches Some(entry) ==> entry@ == stored(*set)[index as int],
{
    set.get_index(index)
}

/// `IndexSet::take`: takes a metric that is equal to `value` (so, of its series) out of the set,
/// if there is one. The last metric of the set moves to where it was.
#[verifier::external_body]
pub(crate) fn take(set: &mut IndexSet<ExpiringMetric>, value: &ExpiringMetric) -> (taken: Option<
    ExpiringMetric,
>)
    ensures
        taken is Some <==> holds(stored(*old(set)), value@.series()),
        taken matches Some(entry) ==> exists|i: int|
            {
                &&& #[trigger] is_at(stored(*old(set)), value@.series(), i)
                &&& entry@ == stored(*old(set))[i]
                &&& stored(*final(set)) == swap_removed(stored(*old(set)), i)
            },
        taken is None ==> stored(*final(set)) == stored(*old(set)),
{
    set.take(value)
}

/// `IndexSet::insert`: puts `value` last, unless the set holds a metric that is equal to it (so, of
/// its series). Then the set stays as it is. Says whether `value` was put in.
#[verifier::external_body]
pub(crate) fn insert(set: &mut IndexSet<ExpiringMetric>, value: ExpiringMetric) -> (added: bool)
    ensures
        added == !holds(stored(*old(set)), value@.series()),
        added ==> stored(*final(set)) == stored(*old(set)).push(value@),
        !added ==> stored(*final(set)) == stored(*old(set)),
{
    set.insert(value)
}

/// `IndexSet::replace`: puts `value` where the set holds a metric that is equal to it (so, of its
/// series) and gives that metric back; puts `value` last if there is none.
#[verifier::external_body]
pub(crate) fn replace(set: &mut IndexSet<ExpiringMetric>, value: ExpiringMetric) -> (replaced:
    Option<ExpiringMetric>)
    ensures
        replaced is Some <==> holds(stored(*old(set)), value@.series()),
        replaced matches Some(entry) ==> exists|i: int|
            {
                &&& #[trigger] is_at(stored(*old(set)), value@.series(), i)
                &&& entry@ == stored(*old(set))[i]
                &&& stored(*final(set)) == stored(*old(set)).update(i, value@)
            },
        replaced is None ==> stored(*final(set)) == stored(*old(set)).push(value@),
{
    set.replace(value)
}

} // verus!
