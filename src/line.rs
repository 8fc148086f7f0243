//! What the caller hands back after performing a line operation.
use vstd::prelude::*;

verus! {

/// The outcome of the line operation that an engine asked for last.
pub enum Reply<E> {
    /// The line was driven, or the tick arrived.
    Done,
    /// The line was sampled: `true` when it read high.
    Level(bool),
    /// The pin operation failed; the platform's error is carried as it is.
    Fault(E),
    /// The timer failed while a tick was awaited.
    TimerFault,
}

/// A reply that reports the sampled line high.
pub open spec fn reads_high<E>(r: Reply<E>) -> bool {
    r matches Reply::Level(true)
}

/// Whether `r` reports the sampled line high.
pub fn is_high<E>(r: &Reply<E>) -> (h: bool)
    ensures
        h == reads_high(*r),
{
    matches!(r, Reply::Level(true))
}

} // verus!
