//! Pull-based signals: values that change over time and are read inside a
//! transaction.
use std::sync::atomic::AtomicBool;
use vstd::prelude::*;

verus! {

/// A changing value over time; like a stream of values that never ends.
///
/// `uuid` names the transaction being evaluated: a signal read twice within
/// one transaction returns the same value.
pub trait Signal: Sized {
    type Item;

    /// The value of the signal within transaction `uuid`.
    fn poll(&mut self, uuid: u32) -> Self::Item;

    /// Transaction `uuid` has ended: release what was kept for it.
    fn transaction_end(&mut self, uuid: u32);

    /// The current value, outside any transaction.
    fn value(&self) -> Self::Item;
}

/// A signal together with the callback run on each change of its value and
/// the value it last reported.
pub struct ValueStream<A, B, I> {
    pub signal: A,
    pub old: Option<I>,
    pub f: B,
}

/// Guards a reactive graph against re-entrant updates.
pub struct GraphLock {
    pub locked: AtomicBool,
    pub id: u32,
}

/// A fresh, unlocked lock whose id follows the last one handed out, which
/// `last` records.
pub fn new_lock(last: &mut u32) -> (r: GraphLock)
    requires
        *old(last) < u32::MAX,
    ensures
        r.id == *old(last) + 1,
        *final(last) == r.id,
{
    *last = *last + 1;
    GraphLock { locked: AtomicBool::new(false), id: *last }
}

} // verus!
