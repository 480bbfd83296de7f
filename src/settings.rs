//! The application's settings.

use vstd::prelude::*;

verus! {

/// Look, start-up and hotkey settings.
#[derive(Debug)]
pub struct AppSettings {
    /// `light`, `dark` or `system`.
    pub theme: String,
    pub auto_start: bool,
    pub show_hotkey: String,
}

impl Clone for AppSettings {
    fn clone(&self) -> (r: Self)
        ensures
            r == *self,
    {
        AppSettings {
            theme: self.theme.clone(),
            auto_start: self.auto_start,
            show_hotkey: self.show_hotkey.clone(),
        }
    }
}

impl Default for AppSettings {
    /// The system theme, no start with the session, `Ctrl+Shift+E` to show the window.
    fn default() -> (r: Self)
        ensures
            r.theme@ == "system"@,
            !r.auto_start,
            r.show_hotkey@ == "Ctrl+Shift+E"@,
    {
        AppSettings {
            theme: String::from_str("system"),
            auto_start: false,
            show_hotkey: String::from_str("Ctrl+Shift+E"),
        }
    }
}

} // verus!
