//! Helpers for a drawing-file export: the application-state record a
//! drawing file carries, and a small arithmetic helper.

use vstd::prelude::*;

verus! {

use vstd::string::StringExecFns;

pub fn add(left: usize, right: usize) -> (sum: usize)
    requires
        left + right <= usize::MAX,
    ensures
        sum == left + right,
{
    left + right
}

/// Editor settings that a drawing file records.
pub struct AppState {
    pub grid_size: i32,
    pub view_background_color: String,
}

impl Default for AppState {
    fn default() -> (s: Self)
        ensures
            s.grid_size == 20,
            s.view_background_color@ == "#ffffff"@,
    {
        AppState { grid_size: 20, view_background_color: String::from_str("#ffffff") }
    }
}

} // verus!
