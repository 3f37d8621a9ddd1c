//! The data model of a native OS menu bar, built from the same [`MenuEntry`]
//! vocabulary as the in-window menus.
//!
//! A menu item's shortcut hint is turned into the accelerator string the OS menu
//! accepts by a converter the caller hands in; a hint it cannot convert gives
//! no accelerator rather than an error.
use vstd::prelude::*;
use crate::menu::{ActionId, MenuEntry};

verus! {

/// One resolved row of a native menu.
#[derive(Debug)]
pub enum NativeEntry {
    /// A clickable command.
    Item {
        label: String,
        /// The accelerator (e.g. `"Control+KeyS"`), if the authored shortcut
        /// converted; `None` means "no accelerator", never "invalid".
        accelerator: Option<String>,
        enabled: bool,
        on_select: Option<ActionId>,
    },
    /// A divider.
    Separator,
    /// A toggleable command; `on_toggle` receives the new checked state.
    Check {
        label: String,
        checked: bool,
        accelerator: Option<String>,
        enabled: bool,
        on_toggle: ActionId,
    },
    /// A nested submenu (native menus allow any depth).
    Submenu { label: String, entries: Vec<NativeEntry> },
}

/// One top-level menu (`File`, `Edit`, …).
#[derive(Debug)]
pub struct NativeMenu {
    pub label: String,
    pub entries: Vec<NativeEntry>,
}

/// A whole native menu bar.
#[derive(Debug)]
pub struct MenuBar {
    pub menus: Vec<NativeMenu>,
}

/// The accelerator of a row authored with shortcut hint `shortcut`: none without a
/// hint, else what the converter returns for it.
pub open spec fn accel_ok<F: Fn(&String) -> Option<String>>(
    shortcut: Option<String>,
    accelerator: Option<String>,
    f: F,
) -> bool {
    match shortcut {
        None => accelerator is None,
        Some(s) => f.ensures((&s,), accelerator),
    }
}

/// `n` is the native form of `e`: items keep label, callback and enablement; a
/// section label becomes a disabled item with the same text (native menus have no
/// section rows); check items are enabled and carry no accelerator; submenus
/// convert entry by entry.
pub open spec fn native_ok<F: Fn(&String) -> Option<String>>(e: MenuEntry, n: NativeEntry, f: F) -> bool
    decreases e,
{
    match e {
        MenuEntry::Item(it) => match n {
            NativeEntry::Item { label, accelerator, enabled, on_select } => {
                &&& label@ == it.label@
                &&& enabled == !it.disabled
                &&& on_select == it.on_select
                &&& accel_ok(it.shortcut, accelerator, f)
            },
            _ => false,
        },
        MenuEntry::Label(l) => match n {
            NativeEntry::Item { label, accelerator, enabled, on_select } => {
                &&& label@ == l@
                &&& accelerator is None
                &&& !enabled
                &&& on_select is None
            },
            _ => false,
        },
        MenuEntry::Separator => n is Separator,
        MenuEntry::Check { label, checked, on_toggle } => match n {
            NativeEntry::Check { label: l2, checked: c2, accelerator, enabled, on_toggle: t2 } => {
                &&& l2@ == label@
                &&& c2 == checked
                &&& accelerator is None
                &&& enabled
                &&& t2 == on_toggle
            },
            _ => false,
        },
        MenuEntry::Sub { label, entries } => match n {
            NativeEntry::Submenu { label: l2, entries: ns } => {
                &&& l2@ == label@
                &&& ns@.len() == entries@.len()
                &&& forall|i: int|
                    0 <= i < entries@.len() ==> native_ok(#[trigger] entries@[i], ns@[i], f)
            },
            _ => false,
        },
    }
}

/// The converter can be called on any hint.
pub open spec fn total<F: Fn(&String) -> Option<String>>(f: F) -> bool {
    forall|s: &String| #[trigger] f.requires((s,))
}

fn clone_string(s: &String) -> (r: String)
    ensures
        r@ == s@,
{
    s.clone()
}

/// Convert one authored entry into its native form.
fn to_native<F: Fn(&String) -> Option<String>>(e: &MenuEntry, f: &F) -> (n: NativeEntry)
    requires
        total(*f),
    ensures
        native_ok(*e, n, *f),
    decreases e,
{
    match e {
        MenuEntry::Item(it) => {
            let accelerator = match &it.shortcut {
                Some(s) => {
                    f(s)
                },
                None => None,
            };
            NativeEntry::Item {
                label: clone_string(&it.label),
                accelerator,
                enabled: !it.disabled,
                on_select: it.on_select,
            }
        },
        MenuEntry::Separator => NativeEntry::Separator,
        MenuEntry::Label(l) => NativeEntry::Item {
            label: clone_string(l),
            accelerator: None,
            enabled: false,
            on_select: None,
        },
        MenuEntry::Check { label, checked, on_toggle } => NativeEntry::Check {
            label: clone_string(label),
            checked: *checked,
            accelerator: None,
            enabled: true,
            on_toggle: *on_toggle,
        },
        MenuEntry::Sub { label, entries } => {
            let mut ns: Vec<NativeEntry> = Vec::new();
            let mut i: usize = 0;
            proof {
                assert(decreases_to!(*e => *entries));
            }
            while i < entries.len()
                invariant
                    i <= entries.len(),
                    total(*f),
                    decreases_to!(*e => *entries),
                    ns@.len() == i,
                    forall|j: int| 0 <= j < i ==> native_ok(#[trigger] entries@[j], ns@[j], *f),
                decreases entries.len() - i,
            {
                proof {
                    assert(decreases_to!(*entries => entries@));
                    assert(decreases_to!(entries@ => entries@[i as int]));
                }
                let n = to_native(&entries[i], f);
                ns.push(n);
                i = i + 1;
            }
            NativeEntry::Submenu { label: clone_string(label), entries: ns }
        },
    }
}

/// Build one top-level menu from its label and entries, converting each item's
/// shortcut hint with `accel`.
pub fn menu<F: Fn(&String) -> Option<String>>(label: String, entries: &Vec<MenuEntry>, accel: &F) -> (r: NativeMenu)
    requires
        total(*accel),
    ensures
        r.label@ == label@,
        r.entries@.len() == entries@.len(),
        forall|i: int| 0 <= i < entries@.len() ==> native_ok(#[trigger] entries@[i], r.entries@[i], *accel),
{
    let mut ns: Vec<NativeEntry> = Vec::new();
    let mut i: usize = 0;
    while i < entries.len()
        invariant
            i <= entries.len(),
            total(*accel),
            ns@.len() == i,
            forall|j: int| 0 <= j < i ==> native_ok(#[trigger] entries@[j], ns@[j], *accel),
        decreases entries.len() - i,
    {
        let n = to_native(&entries[i], accel);
        ns.push(n);
        i = i + 1;
    }
    NativeMenu { label, entries: ns }
}

/// Assemble top-level menus into a bar, in order.
pub fn menu_bar(menus: Vec<NativeMenu>) -> (r: MenuBar)
    ensures
        r.menus == menus,
{
    MenuBar { menus }
}

} // verus!
