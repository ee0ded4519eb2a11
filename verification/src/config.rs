//! Application configuration values.

use vstd::prelude::*;

verus! {

/// The colour theme of the application window.
#[derive(Debug, Clone, Copy, PartialEq, Eq, Structural)]
pub enum Theme {
    Light,
    Dark,
    System,
}

impl Default for Theme {
    /// The system's theme.
    fn default() -> (t: Theme)
        ensures
            t == Theme::System,
    {
        Theme::System
    }
}

} // verus!
