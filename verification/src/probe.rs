//! The decisions of the memory-ordering probes: when a round reports, and
//! what a round's observations say about the order of stores.

use vstd::prelude::*;

verus! {

/// One in this many rounds writes a summary (the rounds whose index is a
/// multiple of it).
pub const REPORT_PERIOD: usize = 0x8000;

/// What one round of a probe observed.
#[derive(Debug, Clone, Copy, PartialEq, Eq, Structural)]
pub enum Outcome {
    /// The stores were seen in program order.
    Ordered,
    /// A reordering of stores was observed.
    Unordered,
}

/// Whether round `i` writes a summary: its low fifteen bits are zero.
pub fn is_report_round(i: usize) -> (report: bool)
    ensures
        report == (i % REPORT_PERIOD == 0),
{
    let r = i & 0x7fff == 0;
    assert((i & 0x7fff == 0) == (i % 0x8000 == 0)) by (bit_vector);
    r
}

/// The outcome of a store-buffering round: each thread stored to its own
/// location and then read the other's. Both reads seeing the initial value
/// is only possible when a store was ordered after the following load.
pub fn store_buffer_outcome(x_read_initial: bool, y_read_initial: bool) -> (o: Outcome)
    ensures
        (o == Outcome::Unordered) == (x_read_initial && y_read_initial),
{
    if x_read_initial && y_read_initial {
        Outcome::Unordered
    } else {
        Outcome::Ordered
    }
}

/// The outcome of a message-passing round: the reader saw the flag of round
/// `round` set and then read the data; any value other than the round's own
/// means the data store was seen after the flag store.
pub fn message_passing_outcome(round: usize, observed: usize) -> (o: Outcome)
    ensures
        (o == Outcome::Ordered) == (observed == round),
{
    if observed == round {
        Outcome::Ordered
    } else {
        Outcome::Unordered
    }
}

} // verus!
