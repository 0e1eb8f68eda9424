//! The menu-bar item of the GUI: its menu, and what each menu entry and a
//! click on the icon do. The desktop shell draws the menu and performs the
//! action.
use vstd::prelude::*;

use crate::text::{chars_eq, chars_of};

verus! {

/// What the GUI does in answer to the menu-bar item.
#[derive(Debug, Clone, Copy, PartialEq, Eq, Structural)]
pub enum TrayAction {
    /// Reveal and focus the main window.
    ShowWindow,
    /// Reveal the window on the statistics page.
    ShowStatistics,
    /// Run one schedule reconcile now.
    Reconcile,
    /// Quit the app.
    Quit,
}

/// The menu's entries, in order, as `(id, label)`; a separator stands
/// before the last one.
pub open spec fn menu_spec() -> Seq<(Seq<char>, Seq<char>)> {
    seq![
        ("show"@, "Show Blocker"@),
        ("stats"@, "Statistics\u{2026}"@),
        ("reconcile"@, "Reconcile schedule now"@),
        ("quit"@, "Quit Blocker"@),
    ]
}

/// The action of the menu entry with id `id`, if any.
pub open spec fn action_of(id: Seq<char>) -> Option<TrayAction> {
    if id == "show"@ {
        Some(TrayAction::ShowWindow)
    } else if id == "stats"@ {
        Some(TrayAction::ShowStatistics)
    } else if id == "reconcile"@ {
        Some(TrayAction::Reconcile)
    } else if id == "quit"@ {
        Some(TrayAction::Quit)
    } else {
        None
    }
}

/// The menu's entries as `(id, label)`.
pub fn menu_entries() -> (r: Vec<(&'static str, &'static str)>)
    ensures
        r@.len() == menu_spec().len(),
        forall|i: int|
            0 <= i < r@.len() ==> (#[trigger] r@[i]).0@ == menu_spec()[i].0 && r@[i].1@
                == menu_spec()[i].1,
{
    let mut r: Vec<(&'static str, &'static str)> = Vec::new();
    r.push(("show", "Show Blocker"));
    r.push(("stats", "Statistics\u{2026}"));
    r.push(("reconcile", "Reconcile schedule now"));
    r.push(("quit", "Quit Blocker"));
    r
}

/// The action of a menu entry, by its id; `None` for an unknown id.
pub fn menu_action(id: &str) -> (r: Option<TrayAction>)
    ensures
        r == action_of(id@),
{
    let id = chars_of(id);
    if chars_eq(&id, &chars_of("show")) {
        Some(TrayAction::ShowWindow)
    } else if chars_eq(&id, &chars_of("stats")) {
        Some(TrayAction::ShowStatistics)
    } else if chars_eq(&id, &chars_of("reconcile")) {
        Some(TrayAction::Reconcile)
    } else if chars_eq(&id, &chars_of("quit")) {
        Some(TrayAction::Quit)
    } else {
        None
    }
}

/// The action of a click on the icon: releasing the left button reveals
/// the window (the menu opens on a right click).
pub fn click_action(left_button: bool, released: bool) -> (r: Option<TrayAction>)
    ensures
        r == (if left_button && released {
            Some(TrayAction::ShowWindow)
        } else {
            None
        }),
{
    if left_button && released {
        Some(TrayAction::ShowWindow)
    } else {
        None
    }
}

/// The window that closing hides instead of closing, so the app stays in
/// the menu bar and its scheduler keeps running.
pub const MAIN_WINDOW: &'static str = "main";

/// Whether a request to close the window labelled `label` hides it rather
/// than closing it.
pub fn hides_on_close(label: &str) -> (r: bool)
    ensures
        r == (label@ == MAIN_WINDOW@),
{
    chars_eq(&chars_of(label), &chars_of(MAIN_WINDOW))
}

/// The page the statistics action navigates to.
pub const STATISTICS_ROUTE: &'static str = "/stats";

} // verus!
