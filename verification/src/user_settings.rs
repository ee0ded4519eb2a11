//! The user's settings: language, data directory and theme.

use vstd::prelude::*;
use crate::text::same_text;

verus! {

/// The colour theme chosen in the settings.
#[derive(Debug, Clone, Copy, PartialEq, Eq, Structural)]
pub enum Theme {
    System,
    Light,
    Dark,
}

impl Default for Theme {
    /// The system's theme.
    fn default() -> (t: Theme)
        ensures
            t == Theme::System,
    {
        Theme::System
    }
}

/// The settings that the application keeps between runs.
#[derive(Debug, Clone)]
pub struct UserSettings {
    pub language: String,
    pub data_dir: Option<String>,
    pub theme: Theme,
}

impl Default for UserSettings {
    /// English, no data directory chosen, the system's theme.
    fn default() -> (s: UserSettings)
        ensures
            s.language@ == "en"@,
            s.data_dir is None,
            s.theme == Theme::System,
    {
        UserSettings { language: String::from_str("en"), data_dir: None, theme: Theme::System }
    }
}

impl Theme {
    /// The name of the theme in the settings pane.
    pub fn label(&self) -> (s: &'static str)
        ensures
            s@ == match *self {
                Theme::System => "System"@,
                Theme::Light => "Light"@,
                Theme::Dark => "Dark"@,
            },
    {
        match self {
            Theme::System => "System",
            Theme::Light => "Light",
            Theme::Dark => "Dark",
        }
    }

    /// The theme chosen in the settings pane by its name: "Light" and "Dark"
    /// name those themes, anything else the system's.
    pub fn from_label(label: &str) -> (t: Theme)
        ensures
            t == if label@ == "Light"@ {
                Theme::Light
            } else if label@ == "Dark"@ {
                Theme::Dark
            } else {
                Theme::System
            },
    {
        if same_text(label, "Light") {
            Theme::Light
        } else if same_text(label, "Dark") {
            Theme::Dark
        } else {
            Theme::System
        }
    }

    /// The GTK theme that shows this theme, and whether GTK should prefer a
    /// dark variant: the dark theme uses "Adwaita-dark" and prefers dark, the
    /// others "Adwaita" without.
    pub fn gtk_theme(&self) -> (r: (&'static str, bool))
        ensures
            *self == Theme::Dark ==> r.0@ == "Adwaita-dark"@ && r.1,
            *self != Theme::Dark ==> r.0@ == "Adwaita"@ && !r.1,
    {
        match self {
            Theme::Dark => ("Adwaita-dark", true),
            _ => ("Adwaita", false),
        }
    }
}

/// The data directory that the application opens: the one chosen in the
/// settings; else the one that the environment names; else the default.
pub fn resolve_data_dir(settings: &UserSettings, from_env: Option<String>, default: String) -> (d:
    String)
    ensures
        match settings.data_dir {
            Some(s) => d == s,
            None => match from_env {
                Some(e) => d == e,
                None => d == default,
            },
        },
{
    match &settings.data_dir {
        Some(s) => s.clone(),
        None => match from_env {
            Some(e) => e,
            None => default,
        },
    }
}

} // verus!
