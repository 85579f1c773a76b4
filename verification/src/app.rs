//! Application context and element event payloads.

use vstd::prelude::*;

verus! {

/// The application as seen by an element's event listener.
pub struct AppContext {}

impl AppContext {
    /// Ask for the view to be rebuilt. The current application does not act on the request.
    pub fn request_rebuild(&mut self)
        ensures
            *final(self) == *old(self),
    {
    }
}

pub struct MouseDownEvent {}

pub struct MouseUpEvent {}

pub struct MouseEnterEvent {}

pub struct MouseLeaveEvent {}

} // verus!
