//! The colour theme of the page layout.
use vstd::prelude::*;

verus! {

/// The two colour themes.
#[derive(PartialEq, Eq, Structural, Clone, Copy)]
pub enum Theme {
    Dark,
    Light,
}

/// The theme that the toggle button switches to.
pub open spec fn spec_toggled(t: Theme) -> Theme {
    match t {
        Theme::Dark => Theme::Light,
        Theme::Light => Theme::Dark,
    }
}

/// The caption of the toggle button while `t` is shown.
pub open spec fn spec_toggle_label(t: Theme) -> Seq<char> {
    match t {
        Theme::Dark => "Switch to Light Theme"@,
        Theme::Light => "Switch to Dark Theme"@,
    }
}

impl Theme {
    /// The theme shown when the page opens.
    pub fn initial() -> (r: Theme)
        ensures
            r == Theme::Dark,
    {
        Theme::Dark
    }

    /// The theme after one press of the toggle button.
    pub fn toggled(&self) -> (r: Theme)
        ensures
            r == spec_toggled(*self),
    {
        match self {
            Theme::Dark => Theme::Light,
            Theme::Light => Theme::Dark,
        }
    }

    /// The caption of the toggle button while this theme is shown.
    pub fn toggle_label(&self) -> (r: &'static str)
        ensures
            r@ == spec_toggle_label(*self),
    {
        match self {
            Theme::Dark => "Switch to Light Theme",
            Theme::Light => "Switch to Dark Theme",
        }
    }
}

/// Pressing the toggle twice brings back the theme one started from, and
/// one press always changes it.
pub proof fn lemma_toggle_twice(t: Theme)
    ensures
        spec_toggled(spec_toggled(t)) == t,
        spec_toggled(t) != t,
{
}

} // verus!
