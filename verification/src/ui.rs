//! Layout constants and the tabs of the interface.

use vstd::prelude::*;

verus! {

/// Margin around most widgets, in pixels.
pub const DEFAULT_MARGIN: i32 = 10;

/// Spacing between sections of a pane, in pixels.
pub const SECTION_SPACING: i32 = 10;

/// Spacing between tags and small buttons, in pixels.
pub const TAG_SPACING: i32 = 5;

/// Margin of a list row, in pixels.
pub const LIST_ROW_MARGIN: i32 = 5;

/// Margin below a header, in pixels.
pub const HEADER_MARGIN: i32 = 15;

/// Margin above a details section, in pixels.
pub const DETAILS_MARGIN: i32 = 20;

/// The tabs of the main window.
#[derive(Debug, Clone, Copy, PartialEq, Eq, Structural)]
pub enum Tab {
    Recipes,
    Pantry,
    KnowledgeBase,
    Settings,
}

impl Tab {
    /// The name of the tab's page in the main window's stack.
    pub fn page_name(&self) -> (s: &'static str)
        ensures
            s@ == match *self {
                Tab::Recipes => "recipes"@,
                Tab::Pantry => "pantry"@,
                Tab::KnowledgeBase => "kb"@,
                Tab::Settings => "settings"@,
            },
    {
        match self {
            Tab::Recipes => "recipes",
            Tab::Pantry => "pantry",
            Tab::KnowledgeBase => "kb",
            Tab::Settings => "settings",
        }
    }

    /// The tab of the sidebar button at this position: the four tab buttons
    /// come first, in the order of the tabs; other positions have none.
    pub fn of_sidebar_button(i: usize) -> (t: Option<Tab>)
        ensures
            i == 0 ==> t == Some(Tab::Recipes),
            i == 1 ==> t == Some(Tab::Pantry),
            i == 2 ==> t == Some(Tab::KnowledgeBase),
            i == 3 ==> t == Some(Tab::Settings),
            i > 3 ==> t is None,
    {
        if i == 0 {
            Some(Tab::Recipes)
        } else if i == 1 {
            Some(Tab::Pantry)
        } else if i == 2 {
            Some(Tab::KnowledgeBase)
        } else if i == 3 {
            Some(Tab::Settings)
        } else {
            None
        }
    }
}

} // verus!
