//! Trusted bindings to the outside crates the engine leans on: the random
//! event identifiers of `uuid`, the wall clock of `chrono`, and the shared
//! handles of `std::sync` that the application threads its collaborators
//! through. Verus believes the contracts stated here; everything else in
//! this crate is proved against them.

use vstd::prelude::*;

use std::sync::Arc;
use std::sync::Mutex;

use vstd::multiset::Multiset;

use crate::util::{ts_valid, TS_MAX};

verus! {

/// A value shared behind a mutex, as the application hands the storage
/// collaborator around.
pub type Shared<T> = Arc<Mutex<T>>;

#[verifier::external_type_specification]
#[verifier::external_body]
#[verifier::reject_recursive_types(T)]
pub struct ExMutex<T: ?Sized>(Mutex<T>);

/// Relies on std::sync::Mutex::new: wraps the value in a lock; nothing is
/// promised of the opaque lock state.
pub assume_specification<T>[ Mutex::<T>::new ](t: T) -> Mutex<T>;

/// Wrap a value for shared ownership across threads.
pub fn shared<T>(t: T) -> Shared<T> {
    Arc::new(Mutex::new(t))
}

/// Relies on uuid::Uuid::new_v4 and its hyphenated formatter: a fresh
/// random identifier rendered in the 36-character hyphenated form. The
/// result depends on the generator's randomness, so nothing beyond its
/// shape can be promised.
#[verifier::external_body]
pub fn new_event_id() -> (r: String)
    ensures
        r@.len() == 36,
{
    uuid::Uuid::new_v4().hyphenated().to_string()
}

/// Relies on chrono::Utc::now and DateTime::timestamp: the current wall
/// clock as whole seconds since the Unix epoch, non-negative whenever the
/// call returns (chrono panics if the system clock predates the epoch).
#[verifier::external_body]
fn utc_now_secs_raw() -> (r: i64)
    ensures
        r >= 0,
{
    chrono::Utc::now().timestamp()
}

/// The current wall-clock time shifted into the display timezone, clamped
/// into the engine's working range.
pub fn now_in_offset(tz_offset: i64) -> (r: i64)
    requires
        -50400 <= tz_offset <= 50400,
    ensures
        ts_valid(r),
{
    let u = utc_now_secs_raw();
    let capped: i64 = if u > TS_MAX {
        TS_MAX
    } else {
        u
    };
    let shifted: i64 = capped + tz_offset;
    if shifted < 0 {
        0
    } else if shifted > TS_MAX {
        TS_MAX
    } else {
        shifted
    }
}

#[verifier::external_type_specification]
#[verifier::external_body]
#[verifier::reject_recursive_types(K)]
#[verifier::reject_recursive_types(V)]
pub struct ExIntervalTree<K, V>(intervaltree::IntervalTree<K, V>);

/// What an interval tree of plain `(start, end, value)` intervals holds.
pub uninterp spec fn tree_items(t: intervaltree::IntervalTree<i64, u64>) -> Multiset<
    (i64, i64, u64),
>;

/// Relies on intervaltree's FromIterator: the tree stores exactly the given
/// intervals.
#[verifier::external_body]
pub fn interval_tree_from(items: &Vec<(i64, i64, u64)>) -> (t: intervaltree::IntervalTree<
    i64,
    u64,
>)
    ensures
        tree_items(t) == items@.to_multiset(),
{
    items.iter().map(|it| (it.0..it.1, it.2)).collect()
}

/// Relies on IntervalTree::query: it yields each stored interval strictly
/// overlapping `[lo, hi)` exactly once, in no particular order.
#[verifier::external_body]
pub fn interval_tree_query(
    t: &intervaltree::IntervalTree<i64, u64>,
    lo: i64,
    hi: i64,
) -> (r: Vec<(i64, i64, u64)>)
    ensures
        forall|x: (i64, i64, u64)|
            (#[trigger] r@.to_multiset().count(x)) == (if lo < x.1 && x.0 < hi {
                tree_items(*t).count(x)
            } else {
                0
            }),
{
    t.query(lo..hi).map(|e| (e.range.start, e.range.end, e.value)).collect()
}

} // verus!
