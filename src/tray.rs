//! What the entries of the tray menu do.

use vstd::prelude::*;

use crate::text::{chars_of, equals_str};

verus! {

/// The label of the entry that shows or hides the window.
pub const TOGGLE_LABEL: &'static str = "显示/隐藏";

/// The label of the entry that opens the settings.
pub const SETTINGS_LABEL: &'static str = "设置";

/// The label of the entry that quits.
pub const QUIT_LABEL: &'static str = "退出";

/// What a menu entry asks for.
#[derive(Clone, Copy, Debug, PartialEq, Eq, Structural)]
pub enum MenuAction {
    ToggleWindow,
    ShowSettings,
    Quit,
    Ignore,
}

/// The action of the menu entry with identifier `id`.
pub fn menu_action(id: &str) -> (r: MenuAction)
    ensures
        id@ == TOGGLE_LABEL@ ==> r == MenuAction::ToggleWindow,
        id@ == SETTINGS_LABEL@ ==> r == MenuAction::ShowSettings,
        id@ == QUIT_LABEL@ ==> r == MenuAction::Quit,
        id@ != TOGGLE_LABEL@ && id@ != SETTINGS_LABEL@ && id@ != QUIT_LABEL@ ==> r
            == MenuAction::Ignore,
{
    let v = chars_of(id);
    proof {
        reveal_strlit("显示/隐藏");
        reveal_strlit("设置");
        reveal_strlit("退出");
        assert(TOGGLE_LABEL@.len() != SETTINGS_LABEL@.len());
        assert(TOGGLE_LABEL@.len() != QUIT_LABEL@.len());
        assert(SETTINGS_LABEL@[0] != QUIT_LABEL@[0]);
    }
    if equals_str(&v, TOGGLE_LABEL) {
        MenuAction::ToggleWindow
    } else if equals_str(&v, SETTINGS_LABEL) {
        MenuAction::ShowSettings
    } else if equals_str(&v, QUIT_LABEL) {
        MenuAction::Quit
    } else {
        MenuAction::Ignore
    }
}

} // verus!
