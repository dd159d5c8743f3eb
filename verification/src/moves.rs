//! The three ways a value can be handed to a function: by value, by shared
//! reference and by mutable reference.

use vstd::prelude::*;

verus! {

/// Takes ownership of `value` and drops it. The caller cannot use the value
/// afterwards.
pub fn sink<T>(value: T) {
    let _ = value;
}

/// Borrows `value` for the duration of the call. The caller keeps the value.
pub fn sink_ref<T>(value: &T) {
    let _ = value;
}

/// Borrows `value` mutably for the duration of the call and leaves it as it
/// was.
pub fn sink_ref_mut<T>(value: &mut T)
    ensures
        *final(value) == *old(value),
{
}

} // verus!
