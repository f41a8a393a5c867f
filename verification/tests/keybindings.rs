use freespace::keybindings::{hk, hk_help, HotkeyAppearance, HotkeyDef, HotkeyStyle};
use freespace::session::Session;

#[test]
fn hk_is_shown_in_bar() {
    let d = hk("a", "all", "Select all items");
    assert_eq!((d.key, d.label, d.desc, d.bar), ("a", "all", "Select all items", true));
    assert!(d.style.is_none());
}

#[test]
fn hk_help_is_help_only() {
    let d = hk_help("q", "quit", "Quit application");
    assert_eq!((d.key, d.label, d.desc, d.bar), ("q", "quit", "Quit application", false));
    assert!(d.style.is_none());
}

#[test]
fn plain_hotkey_looks_normal() {
    let s = Session::new(vec![]);
    assert!(hk("?", "help", "Toggle help overlay").appearance(&s) == HotkeyAppearance::Normal);
}

#[test]
fn clean_hotkey_follows_selection() {
    let clean = HotkeyDef {
        key: "c",
        label: "clean",
        desc: "Clean selected items",
        bar: true,
        style: Some(HotkeyStyle::CleanSelection),
    };
    let mut s = Session::new(vec![]);
    assert!(clean.appearance(&s) == HotkeyAppearance::Dimmed);
    s.selected_items.insert("/tmp/x".to_string());
    assert!(clean.appearance(&s) == HotkeyAppearance::Highlighted);
}
