//! Hotkey entries shared by the bottom bar and the help overlay, and how
//! each one looks given the state of the session.

use vstd::prelude::*;
use crate::session::Session;

verus! {

/// How a hotkey should appear in the bottom bar.
#[derive(Debug, Clone, Copy, PartialEq, Eq, Structural)]
pub enum HotkeyAppearance {
    /// Standard bracket styling.
    Normal,
    /// Bright / highlighted.
    Highlighted,
    /// Muted / dimmed.
    Dimmed,
}

/// A rule that picks a hotkey's appearance from the session.
#[derive(Debug, Clone, Copy, PartialEq, Eq, Structural)]
pub enum HotkeyStyle {
    /// Dimmed while nothing is selected, highlighted once something is.
    CleanSelection,
}

/// A single hotkey entry displayed in both the status bar and the help panel.
#[derive(Debug, Clone, Copy)]
pub struct HotkeyDef {
    /// Key symbol as shown in the interface (e.g. `"␣"`, `"⇥"`, `"esc"`).
    pub key: &'static str,
    /// Short label for the bottom bar (e.g. `"select"`, `"back"`).
    pub label: &'static str,
    /// Longer description for the help overlay.
    pub desc: &'static str,
    /// Show in the bottom status bar; when `false`, only in help.
    pub bar: bool,
    /// The rule for its appearance; `Normal` styling when none.
    pub style: Option<HotkeyStyle>,
}

/// The appearance a style rule gives, with `nothing_selected` telling
/// whether the selection is empty.
pub open spec fn style_appearance(style: Option<HotkeyStyle>, nothing_selected: bool) -> HotkeyAppearance {
    match style {
        None => HotkeyAppearance::Normal,
        Some(HotkeyStyle::CleanSelection) => if nothing_selected {
            HotkeyAppearance::Dimmed
        } else {
            HotkeyAppearance::Highlighted
        },
    }
}

/// A hotkey shown in the bar and in help, with normal styling.
pub fn hk(key: &'static str, label: &'static str, desc: &'static str) -> (r: HotkeyDef)
    ensures
        r.key == key && r.label == label && r.desc == desc,
        r.bar,
        r.style == None::<HotkeyStyle>,
{
    HotkeyDef { key, label, desc, bar: true, style: None }
}

/// A hotkey shown in help only, with normal styling.
pub fn hk_help(key: &'static str, label: &'static str, desc: &'static str) -> (r: HotkeyDef)
    ensures
        r.key == key && r.label == label && r.desc == desc,
        !r.bar,
        r.style == None::<HotkeyStyle>,
{
    HotkeyDef { key, label, desc, bar: false, style: None }
}

impl HotkeyDef {
    /// How the hotkey looks in the session's current state.
    pub fn appearance(&self, s: &Session) -> (r: HotkeyAppearance)
        ensures
            r == style_appearance(self.style, s.selected_items.entries().len() == 0),
    {
        match self.style {
            None => HotkeyAppearance::Normal,
            Some(HotkeyStyle::CleanSelection) => if s.selected_items.is_empty() {
                HotkeyAppearance::Dimmed
            } else {
                HotkeyAppearance::Highlighted
            },
        }
    }
}

} // verus!
