//! Building blocks of a small sound-synthesis toolkit: delay lines, event
//! queues, voice allocation and the discrete parts of the synthesizer model.
pub mod contrib;
pub mod event_queue;
pub mod nodes;
pub mod ring_buffer;
pub mod synth;
pub mod unsafe_wrapper;

use vstd::prelude::*;

verus! {

/// Holds of a value that `T::default()` may return.
pub open spec fn is_default<T: Default>(x: T) -> bool {
    call_ensures(T::default, (), x)
}

} // verus!
