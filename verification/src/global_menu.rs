//! The global right-click menu's settings: whether it opens at all, the entries it
//! shows (the standard Cut / Copy / Paste / Select All set unless replaced) and
//! the style of its surface.
use vstd::prelude::*;
use crate::editor::KeyInput;
use crate::menu::{ActionId, MenuEntry, MenuItem};

verus! {

/// The standard entries' callbacks: each sends one editing key to the focused editor.
pub const STD_CUT: ActionId = 1;
pub const STD_COPY: ActionId = 2;
pub const STD_PASTE: ActionId = 3;
pub const STD_SELECT_ALL: ActionId = 4;

/// The global menu's settings; `S` is the surface style.
pub struct MenuConfig<S> {
    pub enabled: bool,
    /// `None`: the standard set; `Some`: the developer's own entries, used verbatim.
    pub entries: Option<Vec<MenuEntry>>,
    pub style: Option<S>,
}

/// Which entries an opened global menu shows.
pub enum MenuSource<'a> {
    /// The developer's entries.
    Custom(&'a Vec<MenuEntry>),
    /// The standard set, built for the current focus.
    Standard(Vec<MenuEntry>),
}

/// The settings at start-up: enabled, the standard entries, no style.
pub fn global_menu_config<S>() -> (r: MenuConfig<S>)
    ensures
        r.enabled,
        r.entries is None,
        r.style is None,
{
    MenuConfig { enabled: true, entries: None, style: None }
}

/// Enable or disable the global right-click menu.
pub fn set_global_menu_enabled<S>(cfg: &mut MenuConfig<S>, enabled: bool)
    ensures
        final(cfg).enabled == enabled,
        final(cfg).entries == old(cfg).entries,
        final(cfg).style == old(cfg).style,
{
    cfg.enabled = enabled;
}

/// Whether the global right-click menu is enabled.
pub fn is_global_menu_enabled<S>(cfg: &MenuConfig<S>) -> (r: bool)
    ensures
        r == cfg.enabled,
{
    cfg.enabled
}

/// Replace the menu's entries entirely (restore the standard set with
/// [`reset_global_menu`]).
pub fn set_global_menu<S>(cfg: &mut MenuConfig<S>, entries: Vec<MenuEntry>)
    ensures
        final(cfg).entries == Some(entries),
        final(cfg).enabled == old(cfg).enabled,
        final(cfg).style == old(cfg).style,
{
    cfg.entries = Some(entries);
}

/// Restore the standard Cut / Copy / Paste / Select All entries.
pub fn reset_global_menu<S>(cfg: &mut MenuConfig<S>)
    ensures
        final(cfg).entries is None,
        final(cfg).enabled == old(cfg).enabled,
        final(cfg).style == old(cfg).style,
{
    cfg.entries = None;
}

/// Style the menu surface.
pub fn set_global_menu_style<S>(cfg: &mut MenuConfig<S>, style: S)
    ensures
        final(cfg).style == Some(style),
        final(cfg).enabled == old(cfg).enabled,
        final(cfg).entries == old(cfg).entries,
{
    cfg.style = Some(style);
}

/// A standard entry: `label`, its shortcut hint, enabled only while an editor
/// holds focus.
pub open spec fn std_item_ok(e: MenuEntry, label: Seq<char>, shortcut: Seq<char>, action: ActionId, editor_focused: bool) -> bool {
    match e {
        MenuEntry::Item(it) => {
            &&& it.label@ == label
            &&& it.icon is None
            &&& it.shortcut matches Some(s) && s@ == shortcut
            &&& it.on_select == Some(action)
            &&& it.disabled == !editor_focused
            &&& !it.destructive
        },
        _ => false,
    }
}

fn std_item(label: &str, shortcut: &str, action: ActionId, editor_focused: bool) -> (r: MenuEntry)
    ensures
        std_item_ok(r, label@, shortcut@, action, editor_focused),
{
    MenuEntry::Item(
        MenuItem {
            label: label.to_string(),
            icon: None,
            shortcut: Some(shortcut.to_string()),
            on_select: Some(action),
            disabled: !editor_focused,
            destructive: false,
        },
    )
}

/// The standard entries — Cut, Copy, Paste, a separator, Select All — each
/// disabled while no editor holds focus.
pub fn standard_entries(editor_focused: bool) -> (r: Vec<MenuEntry>)
    ensures
        r@.len() == 5,
        std_item_ok(r@[0], "Cut"@, "⌘X"@, STD_CUT, editor_focused),
        std_item_ok(r@[1], "Copy"@, "⌘C"@, STD_COPY, editor_focused),
        std_item_ok(r@[2], "Paste"@, "⌘V"@, STD_PASTE, editor_focused),
        r@[3] is Separator,
        std_item_ok(r@[4], "Select All"@, "⌘A"@, STD_SELECT_ALL, editor_focused),
{
    let mut r: Vec<MenuEntry> = Vec::new();
    r.push(std_item("Cut", "⌘X", STD_CUT, editor_focused));
    r.push(std_item("Copy", "⌘C", STD_COPY, editor_focused));
    r.push(std_item("Paste", "⌘V", STD_PASTE, editor_focused));
    r.push(MenuEntry::Separator);
    r.push(std_item("Select All", "⌘A", STD_SELECT_ALL, editor_focused));
    r
}

/// The editing key a standard entry sends to the focused editor.
pub fn standard_key(action: ActionId) -> (r: Option<KeyInput>)
    ensures
        action == STD_CUT ==> r == Some(KeyInput::Cut),
        action == STD_COPY ==> r == Some(KeyInput::Copy),
        action == STD_PASTE ==> r == Some(KeyInput::Paste),
        action == STD_SELECT_ALL ==> r == Some(KeyInput::SelectAll),
        !(action == STD_CUT || action == STD_COPY || action == STD_PASTE || action
            == STD_SELECT_ALL) ==> r is None,
{
    if action == STD_CUT {
        Some(KeyInput::Cut)
    } else if action == STD_COPY {
        Some(KeyInput::Copy)
    } else if action == STD_PASTE {
        Some(KeyInput::Paste)
    } else if action == STD_SELECT_ALL {
        Some(KeyInput::SelectAll)
    } else {
        None
    }
}

/// What a right-click that nothing else claimed opens: nothing while the menu is
/// disabled, the developer's entries when set, else the standard set (rebuilt for
/// the current focus).
pub fn show<'a, S>(cfg: &'a MenuConfig<S>, editor_focused: bool) -> (r: Option<MenuSource<'a>>)
    ensures
        !cfg.enabled ==> r is None,
        cfg.enabled ==> match cfg.entries {
            Some(v) => r matches Some(MenuSource::Custom(w)) && *w == v,
            None => r matches Some(MenuSource::Standard(s)) && s@.len() == 5 && std_item_ok(
                s@[0],
                "Cut"@,
                "⌘X"@,
                STD_CUT,
                editor_focused,
            ) && std_item_ok(s@[1], "Copy"@, "⌘C"@, STD_COPY, editor_focused) && std_item_ok(
                s@[2],
                "Paste"@,
                "⌘V"@,
                STD_PASTE,
                editor_focused,
            ) && s@[3] is Separator && std_item_ok(
                s@[4],
                "Select All"@,
                "⌘A"@,
                STD_SELECT_ALL,
                editor_focused,
            ),
        },
{
    if !cfg.enabled {
        return None;
    }
    match &cfg.entries {
        Some(v) => Some(MenuSource::Custom(v)),
        None => Some(MenuSource::Standard(standard_entries(editor_focused))),
    }
}

} // verus!
