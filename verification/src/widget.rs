//! The host-facing widget contract: any type rendering a block of text
//! into the dashboard implements it.

use vstd::prelude::*;

verus! {

/// A renderable unit of the host's screen. Implementors supply
/// `display`; the title, the periodic refresh hook and the input hook
/// default to doing nothing.
pub trait Widget {
    /// Renders the widget into a text block for the given geometry.
    fn display(&mut self, height: i32, width: i32) -> String;

    /// The window title to set, when one is wanted.
    fn title(&mut self) -> Option<String> {
        Option::None
    }

    /// Called at the host's refresh cadence, whether or not the widget
    /// is visible or focused.
    fn on_update(&mut self) {
    }

    /// Called with each key the user sends while the widget accepts
    /// input and holds focus.
    fn on_input(&mut self, _key: String) {
    }
}

} // verus!
