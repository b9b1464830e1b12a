//! A block of eight shared counters used to load the cache during the probe.

use std::sync::atomic::AtomicUsize;
use std::sync::atomic::Ordering;
use vstd::prelude::*;

verus! {

/// Eight counters that any thread may bump or read at any time.
pub struct DummyData([AtomicUsize; 8]);

/// `std::hint::black_box`: documented as the identity function that the
/// optimizer must treat as opaque, so it hands its argument back unchanged.
#[verifier::external_body]
fn black_box_usize(x: usize) -> (r: usize)
    ensures
        r == x,
{
    std::hint::black_box(x)
}

impl DummyData {
    /// Eight counters, each starting at zero.
    pub fn new() -> (d: Self) {
        Self(
            [
                AtomicUsize::new(0),
                AtomicUsize::new(0),
                AtomicUsize::new(0),
                AtomicUsize::new(0),
                AtomicUsize::new(0),
                AtomicUsize::new(0),
                AtomicUsize::new(0),
                AtomicUsize::new(0),
            ],
        )
    }

    /// Adds one to every counter (wrapping, with relaxed ordering).
    pub fn dummy_write(&self) {
        let mut i: usize = 0;
        while i < 8
            invariant
                0 <= i <= 8,
            decreases 8 - i,
        {
            self.0[i].fetch_add(1, Ordering::Relaxed);
            i += 1;
        }
    }

    /// The sum of the eight counters as read one after another (with relaxed
    /// ordering), added with wrap-around.
    pub fn dummy_read(&self) -> (total: usize) {
        let mut accum: usize = 0;
        let mut i: usize = 0;
        while i < 8
            invariant
                0 <= i <= 8,
            decreases 8 - i,
        {
            accum = accum.wrapping_add(self.0[i].load(Ordering::Relaxed));
            i += 1;
        }
        black_box_usize(accum);
        accum
    }
}

} // verus!
