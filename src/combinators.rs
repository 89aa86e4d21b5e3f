//! Combinations of signals.
use crate::signal::Signal;
use std::sync::Arc;
use vstd::prelude::*;

verus! {

/// A combination of two signals: both are read and the callback is applied
/// to the pair of values.
pub struct CombinedMap<A, B, C> {
    pub signal_a: A,
    pub signal_b: B,
    pub callback: Arc<C>,
}

impl<A: Signal, B: Signal, C> CombinedMap<A, B, C> {
    pub fn new(signal_a: A, signal_b: B, f: C) -> (r: Self)
        ensures
            r.signal_a == signal_a,
            r.signal_b == signal_b,
            *r.callback == f,
    {
        Self { signal_a, signal_b, callback: Arc::new(f) }
    }
}

} // verus!
