//! Descriptions of the windows that the remote host reports.
use vstd::prelude::*;
use vstd::string::*;

use crate::filter::{title_matches, title_passes};
use crate::handle::{format_window_handle, hex_upper};

verus! {

/// One window on the remote host. Its identity is its handle.
#[derive(Debug, Clone)]
pub struct WindowInfo {
    pub handle: u64,
    pub title: String,
    pub class_name: String,
}

/// What a window description holds, as plain values.
pub struct WindowView {
    pub handle: u64,
    pub title: Seq<char>,
    pub class_name: Seq<char>,
}

impl View for WindowInfo {
    type V = WindowView;

    open spec fn view(&self) -> WindowView {
        WindowView { handle: self.handle, title: self.title@, class_name: self.class_name@ }
    }
}

impl WindowInfo {
    /// One line: the handle, the class in brackets, then the title.
    pub fn display(&self) -> (r: String)
        ensures
            r@ == seq!['0', 'x'] + hex_upper(self.handle as nat) + " ["@ + self.class_name@ + "] - "@
                + self.title@,
    {
        let mut out = format_window_handle(self.handle);
        out.append(" [");
        out.append(self.class_name.as_str());
        out.append("] - ");
        out.append(self.title.as_str());
        out
    }

    /// Three labelled lines: handle, title and class.
    pub fn display_verbose(&self) -> (r: String)
        ensures
            r@ == "Window Handle: "@ + seq!['0', 'x'] + hex_upper(self.handle as nat) + "\nTitle: "@
                + self.title@ + "\nClass: "@ + self.class_name@ + "\n"@,
    {
        let mut out = String::from_str("Window Handle: ");
        let handle = format_window_handle(self.handle);
        out.append(handle.as_str());
        out.append("\nTitle: ");
        out.append(self.title.as_str());
        out.append("\nClass: ");
        out.append(self.class_name.as_str());
        out.append("\n");
        out
    }
}

/// The views of a list of windows, in order.
pub open spec fn windows_view(ws: Seq<WindowInfo>) -> Seq<WindowView> {
    ws.map_values(|w: WindowInfo| w@)
}

/// The windows last reported by the remote host.
pub struct WindowManager {
    windows: Vec<WindowInfo>,
}

impl View for WindowManager {
    type V = Seq<WindowView>;

    closed spec fn view(&self) -> Seq<WindowView> {
        windows_view(self.windows@)
    }
}

impl WindowManager {
    /// A manager that knows no window yet.
    pub fn new() -> (r: WindowManager)
        ensures
            r@ == Seq::<WindowView>::empty(),
    {
        let r = WindowManager { windows: Vec::new() };
        assert(r@ =~= Seq::<WindowView>::empty());
        r
    }

    /// Replaces the known windows with `windows`, in their order.
    pub fn update_windows(&mut self, windows: Vec<WindowInfo>)
        ensures
            final(self)@ == windows_view(windows@),
    {
        self.windows = windows;
    }

    /// The known windows.
    pub fn windows(&self) -> (r: &Vec<WindowInfo>)
        ensures
            windows_view(r@) == self@,
    {
        &self.windows
    }

    /// The positions of the known windows whose titles pass `filter`
    /// (ignoring case), in increasing order.
    pub fn matching_windows(&self, filter: Option<&str>) -> (r: Vec<usize>)
        ensures
            forall|k: int| 0 <= k < r@.len() ==> (#[trigger] r@[k]) < self@.len(),
            forall|k: int, l: int| 0 <= k < l < r@.len() ==> r@[k] < r@[l],
            forall|i: int|
                0 <= i < self@.len() ==> (r@.contains(i as usize) <==> title_matches(
                    #[trigger] self@[i].title,
                    match filter {
                        Some(f) => Some(f@),
                        None => None,
                    },
                )),
    {
        let ghost fv = match filter {
            Some(f) => Some(f@),
            None => None,
        };
        let mut out: Vec<usize> = Vec::new();
        let mut i: usize = 0;
        while i < self.windows.len()
            invariant
                i <= self.windows@.len(),
                self@ == windows_view(self.windows@),
                fv == match filter {
                    Some(f) => Some(f@),
                    None => None,
                },
                forall|k: int| 0 <= k < out@.len() ==> (#[trigger] out@[k]) < i,
                forall|k: int, l: int| 0 <= k < l < out@.len() ==> out@[k] < out@[l],
                forall|j: int|
                    0 <= j < i ==> (out@.contains(j as usize) <==> title_matches(
                        #[trigger] self@[j].title,
                        fv,
                    )),
            decreases self.windows@.len() - i,
        {
            let pass = title_passes(self.windows[i].title.as_str(), filter);
            let ghost before = out@;
            if pass {
                out.push(i);
                proof {
                    assert forall|j: int| 0 <= j < i + 1 implies (out@.contains(j as usize)
                        <==> title_matches(#[trigger] self@[j].title, fv)) by {
                        if j < i {
                            if before.contains(j as usize) {
                                let k = choose|k: int| 0 <= k < before.len() && before[k] == j as usize;
                                assert(out@[k] == j as usize);
                            }
                            if out@.contains(j as usize) {
                                let k = choose|k: int| 0 <= k < out@.len() && out@[k] == j as usize;
                                if k == before.len() {
                                } else {
                                    assert(before[k] == j as usize);
                                }
                            }
                        } else {
                            assert(out@[before.len() as int] == i);
                        }
                    }
                }
            } else {
                proof {
                    assert(!out@.contains(i));
                }
            }
            i = i + 1;
        }
        out
    }

    /// The position of the first known window whose handle is `handle`.
    pub fn find_window(&self, handle: u64) -> (r: Option<usize>)
        ensures
            match r {
                Some(i) => i < self@.len() && self@[i as int].handle == handle && forall|j: int|
                    0 <= j < i ==> (#[trigger] self@[j]).handle != handle,
                None => forall|j: int| 0 <= j < self@.len() ==> (#[trigger] self@[j]).handle != handle,
            },
    {
        let mut i: usize = 0;
        while i < self.windows.len()
            invariant
                i <= self.windows@.len(),
                self@ == windows_view(self.windows@),
                forall|j: int| 0 <= j < i ==> (#[trigger] self@[j]).handle != handle,
            decreases self.windows@.len() - i,
        {
            if self.windows[i].handle == handle {
                return Some(i);
            }
            i = i + 1;
        }
        None
    }
}

} // verus!
