//! The plugin contract: what a host loads and drives to fill one
//! window of the dashboard.

use vstd::prelude::*;

verus! {

/// A loadable display unit. Implementors supply `display`; the data
/// refresh and input hooks default to doing nothing.
pub trait Plugin {
    /// Renders the plugin's window for the given geometry.
    fn display(&mut self, height: i32, width: i32) -> String;

    /// Called on every pass of the host's data refresh loop.
    fn update(&mut self) {
    }

    /// The time between two refresh passes, in milliseconds.
    fn refresh_rate(&self) -> i32 {
        333
    }

    /// Called with each key the user sends while the plugin holds
    /// focus.
    fn on_input(&mut self, _key: String) {
    }
}

} // verus!
