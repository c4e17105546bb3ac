//! The state of the menu-driven front end.
use vstd::prelude::*;

use crate::window::WindowManager;

verus! {

/// The menu-driven front end, over the windows it knows.
pub struct InteractiveMode {
    pub window_manager: WindowManager,
}

impl InteractiveMode {
    /// A front end over `window_manager`.
    pub fn new(window_manager: WindowManager) -> (r: InteractiveMode)
        ensures
            r.window_manager@ == window_manager@,
    {
        InteractiveMode { window_manager }
    }
}

} // verus!
