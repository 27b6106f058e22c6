//! The cancellation flag: one atomic boolean shared by the workers of a
//! search. It starts lowered and is raised once, by the worker that finds a
//! match. Relaxed ordering is enough: the flag only saves work.

use std::sync::atomic::AtomicBool;
use std::sync::atomic::Ordering;
use vstd::prelude::*;

verus! {

/// Whether the flag is seen raised.
pub(crate) fn is_raised(flag: &AtomicBool) -> bool {
    flag.load(Ordering::Relaxed)
}

/// Tries to raise the flag. Returns whether this call raised it: `false`
/// means that it was raised already.
pub(crate) fn raise(flag: &AtomicBool) -> bool {
    match flag.compare_exchange(false, true, Ordering::Relaxed, Ordering::Relaxed) {
        Ok(_) => true,
        Err(_) => false,
    }
}

} // verus!
