//! The state behind a window picker: the listed windows and the one chosen.
use vstd::prelude::*;

verus! {

/// One entry of the picker.
#[derive(Debug, Clone)]
pub struct WindowInfo {
    pub id: u64,
    pub title: String,
    pub class_name: String,
}

/// The listed windows and the position of the chosen one, if any.
pub struct WindowList {
    pub windows: Vec<WindowInfo>,
    pub selected_window: Option<usize>,
}

impl WindowList {
    /// An empty list with nothing chosen.
    pub fn new() -> (r: WindowList)
        ensures
            r.windows@.len() == 0,
            r.selected_window is None,
    {
        WindowList { windows: Vec::new(), selected_window: None }
    }

    /// Replaces the listed windows; the earlier choice no longer applies.
    pub fn update_windows(&mut self, windows: Vec<WindowInfo>)
        ensures
            final(self).windows@ == windows@,
            final(self).selected_window is None,
    {
        self.windows = windows;
        self.selected_window = None;
    }

    /// Chooses the window at `index`.
    pub fn select(&mut self, index: usize)
        requires
            index < old(self).windows@.len(),
        ensures
            final(self).windows@ == old(self).windows@,
            final(self).selected_window == Some(index),
    {
        self.selected_window = Some(index);
    }
}

} // verus!
