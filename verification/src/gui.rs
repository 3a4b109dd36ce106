//! Editor application state.

use vstd::prelude::*;

verus! {

/// Top-level application state. It holds nothing yet; project state arrives
/// with the timeline.
#[derive(Debug, Clone, Copy, PartialEq, Eq, Structural)]
pub struct V1000App;

impl Default for V1000App {
    /// The empty application state.
    fn default() -> (app: V1000App)
        ensures
            app == V1000App,
    {
        V1000App
    }
}

} // verus!
