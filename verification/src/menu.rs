//! The action menu's model: entries (items, section labels, separators, check
//! items, submenus), which rows the keyboard can reach, what each row runs, and
//! the keyboard state machine of an open menu with one level of submenu.
//!
//! Callbacks are referred to by [`ActionId`]: the owner keeps the closures and
//! runs the one a reply names.
use vstd::prelude::*;
use crate::editor::{KeyInput, Motion};
use crate::list_nav::{ListNav, NavReply, handle_active, handle_reply};

verus! {

broadcast use vstd::seq_lib::group_seq_properties;

/// A callback registered by the menu's owner.
pub type ActionId = u64;

/// A single actionable menu item.
#[derive(Clone, Debug)]
pub struct MenuItem {
    pub label: String,
    /// A leading icon glyph.
    pub icon: Option<u32>,
    /// A keyboard-shortcut hint (e.g. `"⇧⌘P"`).
    pub shortcut: Option<String>,
    pub on_select: Option<ActionId>,
    pub disabled: bool,
    pub destructive: bool,
}

/// One row of a menu.
#[derive(Debug)]
pub enum MenuEntry {
    Item(MenuItem),
    /// A small section header.
    Label(String),
    /// A hairline divider between groups.
    Separator,
    /// A toggleable item that shows a check when on; `on_toggle` receives the new state.
    Check { label: String, checked: bool, on_toggle: ActionId },
    /// A submenu opened beside its row.
    Sub { label: String, entries: Vec<MenuEntry> },
}

/// A keyboard-reachable row: a runnable row (by its index among the runnable rows)
/// or a submenu row (by its index among the submenus).
#[derive(Clone, Copy, Debug, PartialEq, Eq, Structural)]
pub enum RowTarget {
    Action(usize),
    Sub(usize),
}

/// What running a runnable row does.
#[derive(Clone, Copy, Debug, PartialEq, Eq, Structural)]
pub enum MenuRun {
    /// Run the item's callback (if any), then close the menu.
    Select(Option<ActionId>),
    /// Toggle a check item: call its callback with the new state, then close.
    Toggle(ActionId, bool),
}

/// How one entry is drawn: highlighted by the keyboard, and its keyboard row.
#[derive(Clone, Copy, Debug, PartialEq, Eq, Structural)]
pub struct RowView {
    pub nav_row: Option<usize>,
    pub highlighted: bool,
}

/// An item labelled `label`: no icon, no shortcut, no callback, enabled.
pub fn menu_item(label: String) -> (r: MenuItem)
    ensures
        r.label@ == label@,
        r.icon is None,
        r.shortcut is None,
        r.on_select is None,
        !r.disabled,
        !r.destructive,
{
    MenuItem { label, icon: None, shortcut: None, on_select: None, disabled: false, destructive: false }
}

impl MenuItem {
    /// A leading icon.
    pub fn icon(self, icon: u32) -> (r: MenuItem)
        ensures
            r.icon == Some(icon),
            r.label@ == self.label@,
            r.shortcut == self.shortcut,
            r.on_select == self.on_select,
            r.disabled == self.disabled,
            r.destructive == self.destructive,
    {
        MenuItem { icon: Some(icon), ..self }
    }

    /// A trailing keyboard-shortcut hint.
    pub fn shortcut(self, s: String) -> (r: MenuItem)
        ensures
            r.shortcut == Some(s),
            r.label@ == self.label@,
            r.icon == self.icon,
            r.on_select == self.on_select,
            r.disabled == self.disabled,
            r.destructive == self.destructive,
    {
        MenuItem { shortcut: Some(s), ..self }
    }

    /// The callback to run when chosen (the menu then closes).
    pub fn on_select(self, action: ActionId) -> (r: MenuItem)
        ensures
            r.on_select == Some(action),
            r.label@ == self.label@,
            r.icon == self.icon,
            r.shortcut == self.shortcut,
            r.disabled == self.disabled,
            r.destructive == self.destructive,
    {
        MenuItem { on_select: Some(action), ..self }
    }

    /// Dim and disable the item.
    pub fn disabled(self, yes: bool) -> (r: MenuItem)
        ensures
            r.disabled == yes,
            r.label@ == self.label@,
            r.icon == self.icon,
            r.shortcut == self.shortcut,
            r.on_select == self.on_select,
            r.destructive == self.destructive,
    {
        MenuItem { disabled: yes, ..self }
    }

    /// Draw in the destructive color.
    pub fn destructive(self) -> (r: MenuItem)
        ensures
            r.destructive,
            r.label@ == self.label@,
            r.icon == self.icon,
            r.shortcut == self.shortcut,
            r.on_select == self.on_select,
            r.disabled == self.disabled,
    {
        MenuItem { destructive: true, ..self }
    }
}

/// A section label entry.
pub fn menu_label(label: String) -> (r: MenuEntry)
    ensures
        r == MenuEntry::Label(label),
{
    MenuEntry::Label(label)
}

/// A divider entry.
pub fn menu_separator() -> (r: MenuEntry)
    ensures
        r is Separator,
{
    MenuEntry::Separator
}

/// A checkbox entry.
pub fn menu_check(label: String, checked: bool, on_toggle: ActionId) -> (r: MenuEntry)
    ensures
        r == (MenuEntry::Check { label, checked, on_toggle }),
{
    MenuEntry::Check { label, checked, on_toggle }
}

/// A submenu entry.
pub fn menu_sub(label: String, entries: Vec<MenuEntry>) -> (r: MenuEntry)
    ensures
        r == (MenuEntry::Sub { label, entries }),
{
    MenuEntry::Sub { label, entries }
}

// ---------------------------------------------------------------------------
// Rows
// ---------------------------------------------------------------------------

/// An enabled item or a check item: Enter runs it.
pub open spec fn is_runnable(e: MenuEntry) -> bool {
    match e {
        MenuEntry::Item(it) => !it.disabled,
        MenuEntry::Check { .. } => true,
        _ => false,
    }
}

/// A row the keyboard can reach: a runnable row or a submenu row.
pub open spec fn is_navigable(e: MenuEntry) -> bool {
    is_runnable(e) || e is Sub
}

/// How many runnable rows `s` has.
pub open spec fn count_runnable(s: Seq<MenuEntry>) -> nat
    decreases s.len(),
{
    if s.len() == 0 {
        0
    } else {
        count_runnable(s.drop_last()) + if is_runnable(s.last()) { 1nat } else { 0nat }
    }
}

/// How many submenu rows `s` has.
pub open spec fn count_subs(s: Seq<MenuEntry>) -> nat
    decreases s.len(),
{
    if s.len() == 0 {
        0
    } else {
        count_subs(s.drop_last()) + if s.last() is Sub { 1nat } else { 0nat }
    }
}

/// The keyboard-reachable rows of `s`, in order.
pub open spec fn navigable_spec(s: Seq<MenuEntry>) -> Seq<RowTarget>
    decreases s.len(),
{
    if s.len() == 0 {
        Seq::empty()
    } else {
        let p = navigable_spec(s.drop_last());
        let e = s.last();
        if is_runnable(e) {
            p.push(RowTarget::Action(count_runnable(s.drop_last()) as usize))
        } else if e is Sub {
            p.push(RowTarget::Sub(count_subs(s.drop_last()) as usize))
        } else {
            p
        }
    }
}

/// What a runnable entry runs.
pub open spec fn run_of(e: MenuEntry) -> MenuRun {
    match e {
        MenuEntry::Item(it) => MenuRun::Select(it.on_select),
        MenuEntry::Check { checked, on_toggle, .. } => MenuRun::Toggle(on_toggle, !checked),
        _ => MenuRun::Select(None),
    }
}

/// What each runnable row of `s` runs, in order.
pub open spec fn actions_spec(s: Seq<MenuEntry>) -> Seq<MenuRun>
    decreases s.len(),
{
    if s.len() == 0 {
        Seq::empty()
    } else {
        let p = actions_spec(s.drop_last());
        if is_runnable(s.last()) {
            p.push(run_of(s.last()))
        } else {
            p
        }
    }
}

/// The entry lists of the submenus of `s`, in order.
pub open spec fn subs_spec(s: Seq<MenuEntry>) -> Seq<Seq<MenuEntry>>
    decreases s.len(),
{
    if s.len() == 0 {
        Seq::empty()
    } else {
        let p = subs_spec(s.drop_last());
        match s.last() {
            MenuEntry::Sub { entries, .. } => p.push(entries@),
            _ => p,
        }
    }
}

/// Any row carries an icon or a check: every row then reserves the leading gutter.
pub open spec fn gutter_spec(s: Seq<MenuEntry>) -> bool {
    exists|i: int|
        0 <= i < s.len() && (match #[trigger] s[i] {
            MenuEntry::Item(it) => it.icon is Some,
            MenuEntry::Check { .. } => true,
            _ => false,
        })
}

/// How entry `j` of `s` is drawn with `active` the keyboard row.
pub open spec fn row_view_spec(s: Seq<MenuEntry>, j: int, active: Option<usize>) -> RowView {
    if is_navigable(s[j]) {
        let n = (count_runnable(s.take(j)) + count_subs(s.take(j))) as usize;
        RowView { nav_row: Some(n), highlighted: active == Some(n) }
    } else {
        RowView { nav_row: None, highlighted: false }
    }
}

proof fn lemma_take_step(s: Seq<MenuEntry>, i: int)
    requires
        0 <= i < s.len(),
    ensures
        s.take(i + 1).drop_last() == s.take(i),
        s.take(i + 1).last() == s[i],
{
    assert(s.take(i + 1).drop_last() =~= s.take(i));
}

/// The navigable rows number the runnable rows plus the submenu rows.
proof fn lemma_navigable_len(s: Seq<MenuEntry>)
    ensures
        navigable_spec(s).len() == count_runnable(s) + count_subs(s),
        actions_spec(s).len() == count_runnable(s),
        subs_spec(s).len() == count_subs(s),
    decreases s.len(),
{
    if s.len() > 0 {
        lemma_navigable_len(s.drop_last());
    }
}

proof fn lemma_counts_bounded(s: Seq<MenuEntry>)
    ensures
        count_runnable(s) + count_subs(s) <= s.len(),
    decreases s.len(),
{
    if s.len() > 0 {
        lemma_counts_bounded(s.drop_last());
    }
}

/// The keyboard-reachable rows in order: runnable rows map to their action
/// index, submenu rows to their submenu index.
pub fn navigable(entries: &Vec<MenuEntry>) -> (r: Vec<RowTarget>)
    ensures
        r@ == navigable_spec(entries@),
{
    let mut r: Vec<RowTarget> = Vec::new();
    let mut act: usize = 0;
    let mut sub: usize = 0;
    let mut i: usize = 0;
    while i < entries.len()
        invariant
            i <= entries.len(),
            r@ == navigable_spec(entries@.take(i as int)),
            act == count_runnable(entries@.take(i as int)),
            sub == count_subs(entries@.take(i as int)),
        decreases entries.len() - i,
    {
        proof {
            lemma_take_step(entries@, i as int);
            lemma_counts_bounded(entries@.take(i as int));
        }
        match &entries[i] {
            MenuEntry::Item(it) => {
                if !it.disabled {
                    r.push(RowTarget::Action(act));
                    act = act + 1;
                }
            },
            MenuEntry::Check { .. } => {
                r.push(RowTarget::Action(act));
                act = act + 1;
            },
            MenuEntry::Sub { .. } => {
                r.push(RowTarget::Sub(sub));
                sub = sub + 1;
            },
            _ => {},
        }
        i = i + 1;
    }
    assert(entries@.take(i as int) =~= entries@);
    r
}

/// One run per runnable row (enabled items and check items), in entry order.
pub fn actions(entries: &Vec<MenuEntry>) -> (r: Vec<MenuRun>)
    ensures
        r@ == actions_spec(entries@),
{
    let mut r: Vec<MenuRun> = Vec::new();
    let mut i: usize = 0;
    while i < entries.len()
        invariant
            i <= entries.len(),
            r@ == actions_spec(entries@.take(i as int)),
        decreases entries.len() - i,
    {
        proof {
            lemma_take_step(entries@, i as int);
        }
        match &entries[i] {
            MenuEntry::Item(it) => {
                if !it.disabled {
                    r.push(MenuRun::Select(it.on_select));
                }
            },
            MenuEntry::Check { checked, on_toggle, .. } => {
                r.push(MenuRun::Toggle(*on_toggle, !*checked));
            },
            _ => {},
        }
        i = i + 1;
    }
    assert(entries@.take(i as int) =~= entries@);
    r
}

/// The entries of submenu `si` (counting the submenu rows in order).
pub fn nth_sub(entries: &Vec<MenuEntry>, si: usize) -> (r: Option<&Vec<MenuEntry>>)
    ensures
        match r {
            Some(v) => si < subs_spec(entries@).len() && v@ == subs_spec(entries@)[si as int],
            None => si >= subs_spec(entries@).len(),
        },
{
    let mut seen: usize = 0;
    let mut i: usize = 0;
    while i < entries.len()
        invariant
            i <= entries.len(),
            seen == subs_spec(entries@.take(i as int)).len(),
            seen <= si,
        decreases entries.len() - i,
    {
        proof {
            lemma_take_step(entries@, i as int);
            lemma_navigable_len(entries@.take(i as int));
            lemma_counts_bounded(entries@.take(i as int));
        }
        match &entries[i] {
            MenuEntry::Sub { entries: inner, .. } => {
                if seen == si {
                    proof {
                        lemma_sub_prefix(entries@, i as int + 1);
                        assert(subs_spec(entries@.take(i as int + 1))[si as int] == inner@);
                    }
                    return Some(inner);
                }
                seen = seen + 1;
            },
            _ => {},
        }
        i = i + 1;
    }
    assert(entries@.take(i as int) =~= entries@);
    None
}

/// A prefix's submenus are a prefix of the whole list's submenus.
proof fn lemma_sub_prefix(s: Seq<MenuEntry>, k: int)
    requires
        0 <= k <= s.len(),
    ensures
        subs_spec(s.take(k)).len() <= subs_spec(s).len(),
        forall|j: int|
            0 <= j < subs_spec(s.take(k)).len() ==> subs_spec(s)[j] == #[trigger] subs_spec(
                s.take(k),
            )[j],
    decreases s.len() - k,
{
    if k < s.len() {
        lemma_sub_prefix(s, k + 1);
        lemma_take_step(s, k);
        assert forall|j: int| 0 <= j < subs_spec(s.take(k)).len() implies subs_spec(s)[j]
            == #[trigger] subs_spec(s.take(k))[j] by {
            assert(subs_spec(s.take(k + 1))[j] == subs_spec(s.take(k))[j]);
        }
    } else {
        assert(s.take(k) =~= s);
    }
}

/// Whether any row carries an icon or is a check item.
pub fn reserve_gutter(entries: &Vec<MenuEntry>) -> (r: bool)
    ensures
        r == gutter_spec(entries@),
{
    let mut i: usize = 0;
    while i < entries.len()
        invariant
            i <= entries.len(),
            forall|j: int|
                0 <= j < i ==> !(match #[trigger] entries@[j] {
                    MenuEntry::Item(it) => it.icon is Some,
                    MenuEntry::Check { .. } => true,
                    _ => false,
                }),
        decreases entries.len() - i,
    {
        match &entries[i] {
            MenuEntry::Item(it) => {
                if it.icon.is_some() {
                    return true;
                }
            },
            MenuEntry::Check { .. } => {
                return true;
            },
            _ => {},
        }
        i = i + 1;
    }
    false
}

/// How each entry is drawn with `active` the keyboard row: each navigable entry
/// gets the next keyboard row, and only that row's entry is highlighted.
pub fn row_views(entries: &Vec<MenuEntry>, active: Option<usize>) -> (r: Vec<RowView>)
    ensures
        r@.len() == entries@.len(),
        forall|j: int| 0 <= j < entries@.len() ==> r@[j] == row_view_spec(entries@, j, active),
{
    let mut r: Vec<RowView> = Vec::new();
    let mut n: usize = 0;
    let mut i: usize = 0;
    while i < entries.len()
        invariant
            i <= entries.len(),
            r@.len() == i,
            n == count_runnable(entries@.take(i as int)) + count_subs(entries@.take(i as int)),
            forall|j: int| 0 <= j < i ==> r@[j] == row_view_spec(entries@, j, active),
        decreases entries.len() - i,
    {
        proof {
            lemma_take_step(entries@, i as int);
            lemma_counts_bounded(entries@.take(i as int));
        }
        let nav = match &entries[i] {
            MenuEntry::Item(it) => !it.disabled,
            MenuEntry::Check { .. } => true,
            MenuEntry::Sub { .. } => true,
            _ => false,
        };
        if nav {
            let hl = match active {
                Some(a) => a == n,
                None => false,
            };
            r.push(RowView { nav_row: Some(n), highlighted: hl });
            n = n + 1;
        } else {
            r.push(RowView { nav_row: None, highlighted: false });
        }
        i = i + 1;
    }
    r
}

// ---------------------------------------------------------------------------
// Keyboard
// ---------------------------------------------------------------------------

/// The keyboard state of an open menu: the parent's active row, the submenu
/// panel's active row, and which submenu is open.
#[derive(Clone, Copy, Debug, PartialEq, Eq, Structural)]
pub struct MenuNav {
    pub nav: ListNav,
    pub child: ListNav,
    pub open_sub: Option<usize>,
}

/// What a key asks of the menu's owner.
#[derive(Clone, Copy, Debug, PartialEq, Eq, Structural)]
pub enum MenuReply {
    /// The key is not the menu's.
    Ignored,
    /// The key moved a highlight (or did nothing visible).
    Moved,
    /// Run the parent menu's action `a` (an index into [`actions`]).
    Run(usize),
    /// Run action `a` of open submenu `si`.
    RunChild(usize, usize),
    /// Open submenu `si` beside its row.
    OpenSub(usize),
    /// Close the submenu panel.
    CloseSub,
    /// Close the whole menu.
    Dismiss,
}

/// A key's effect on an open menu over `entries`; `child_shown` tells whether
/// the submenu panel is still on screen.
pub open spec fn menu_key_spec(m: MenuNav, entries: Seq<MenuEntry>, child_shown: bool, k: KeyInput) -> (
    MenuNav,
    MenuReply,
) {
    let rows = navigable_spec(entries);
    match m.open_sub {
        Some(si) if child_shown => {
            match k {
                KeyInput::Move { motion: Motion::Left, .. } => (
                    MenuNav { nav: m.nav, child: ListNav { active: None }, open_sub: None },
                    MenuReply::CloseSub,
                ),
                KeyInput::Escape => (m, MenuReply::Dismiss),
                _ => {
                    let len = if si < subs_spec(entries).len() {
                        count_runnable(subs_spec(entries)[si as int])
                    } else {
                        0
                    };
                    let a = handle_active(m.child.active, len as usize, k);
                    let rep = handle_reply(m.child.active, len as usize, k);
                    (
                        MenuNav { nav: m.nav, child: ListNav { active: a }, open_sub: m.open_sub },
                        match rep.pick {
                            Some(row) => MenuReply::RunChild(si, row),
                            None => if rep.consumed { MenuReply::Moved } else { MenuReply::Ignored },
                        },
                    )
                },
            }
        },
        _ => {
            let right_sub: Option<usize> = match k {
                KeyInput::Move { motion: Motion::Right, .. } => match m.nav.active {
                    Some(row) => if row < rows.len() {
                        match rows[row as int] {
                            RowTarget::Sub(si) => Some(si),
                            _ => None,
                        }
                    } else {
                        None
                    },
                    None => None,
                },
                _ => None,
            };
            match right_sub {
                Some(si) => (
                    MenuNav { nav: m.nav, child: m.child, open_sub: Some(si) },
                    MenuReply::OpenSub(si),
                ),
                None => {
                    let a = handle_active(m.nav.active, rows.len() as usize, k);
                    let rep = handle_reply(m.nav.active, rows.len() as usize, k);
                    (
                        MenuNav { nav: ListNav { active: a }, child: m.child, open_sub: m.open_sub },
                        match rep.pick {
                            Some(row) => match rows[row as int] {
                                RowTarget::Action(ai) => MenuReply::Run(ai),
                                RowTarget::Sub(_) => MenuReply::Moved,
                            },
                            None => if rep.escape {
                                MenuReply::Dismiss
                            } else if rep.consumed {
                                MenuReply::Moved
                            } else {
                                MenuReply::Ignored
                            },
                        },
                    )
                },
            }
        },
    }
}

/// Every keyboard row names an existing target.
proof fn lemma_navigable_targets(s: Seq<MenuEntry>)
    ensures
        forall|r: int|
            0 <= r < navigable_spec(s).len() ==> match #[trigger] navigable_spec(s)[r] {
                RowTarget::Action(a) => a < count_runnable(s),
                RowTarget::Sub(si) => si < count_subs(s),
            },
    decreases s.len(),
{
    if s.len() > 0 {
        lemma_navigable_targets(s.drop_last());
        lemma_navigable_len(s.drop_last());
    }
}

/// A key never asks to run an action that is not there: a parent run names one of
/// the menu's actions, a submenu run one of that submenu's actions, and an opened
/// submenu exists.
pub proof fn menu_replies_name_existing_targets(
    m: MenuNav,
    entries: Seq<MenuEntry>,
    child_shown: bool,
    k: KeyInput,
)
    ensures
        match menu_key_spec(m, entries, child_shown, k).1 {
            MenuReply::Run(a) => a < actions_spec(entries).len(),
            MenuReply::RunChild(si, row) => si < subs_spec(entries).len() && row < actions_spec(
                subs_spec(entries)[si as int],
            ).len(),
            MenuReply::OpenSub(si) => si < subs_spec(entries).len(),
            _ => true,
        },
{
    lemma_navigable_targets(entries);
    lemma_navigable_len(entries);
    match m.open_sub {
        Some(si) => {
            if si < subs_spec(entries).len() {
                lemma_navigable_len(subs_spec(entries)[si as int]);
            }
        },
        None => {},
    }
}

/// Escape closes the whole menu, whether or not a submenu panel is open; Left
/// closes only a shown submenu panel, leaving the menu open with no submenu.
pub proof fn escape_closes_the_whole_menu(
    m: MenuNav,
    entries: Seq<MenuEntry>,
    child_shown: bool,
    extend: bool,
)
    ensures
        menu_key_spec(m, entries, child_shown, KeyInput::Escape).1 == MenuReply::Dismiss,
        m.open_sub is Some && child_shown ==> {
            let (after, reply) = menu_key_spec(
                m,
                entries,
                child_shown,
                KeyInput::Move { motion: Motion::Left, extend },
            );
            &&& reply == MenuReply::CloseSub
            &&& after.open_sub is None
            &&& after.nav == m.nav
        },
{
}

/// Every keyboard row does what its entry says: the row number drawn for a
/// reachable entry `j` leads, for a runnable entry, to an action that runs exactly
/// that entry's own action, and for a submenu entry to that submenu's own entries.
pub proof fn each_row_runs_its_own_entry(s: Seq<MenuEntry>, j: int)
    requires
        0 <= j < s.len(),
        s.len() <= usize::MAX,
        is_navigable(s[j]),
    ensures
        ({
            let n = row_view_spec(s, j, None).nav_row->0;
            &&& row_view_spec(s, j, None).nav_row is Some
            &&& 0 <= n < navigable_spec(s).len()
            &&& is_runnable(s[j]) ==> (navigable_spec(s)[n as int] matches RowTarget::Action(a) && a
                < actions_spec(s).len() && actions_spec(s)[a as int] == run_of(s[j]))
            &&& s[j] matches MenuEntry::Sub { entries, .. } ==> (navigable_spec(s)[n as int] matches RowTarget::Sub(
                si,
            ) && si < subs_spec(s).len() && subs_spec(s)[si as int] == entries@)
        }),
    decreases s.len(),
{
    let d = s.drop_last();
    lemma_navigable_len(s);
    lemma_navigable_len(d);
    lemma_counts_bounded(s);
    lemma_counts_bounded(d);
    if j == s.len() - 1 {
        assert(s.take(j) =~= d);
    } else {
        assert(s.take(j) =~= d.take(j));
        assert(d[j] == s[j]);
        each_row_runs_its_own_entry(d, j);
    }
}

impl MenuNav {
    /// A freshly opened menu: nothing active, no submenu open.
    pub fn new() -> (r: MenuNav)
        ensures
            r.nav.active is None,
            r.child.active is None,
            r.open_sub is None,
    {
        MenuNav { nav: ListNav { active: None }, child: ListNav { active: None }, open_sub: None }
    }

    /// Handle a key. While a submenu panel is shown it owns the keyboard: Left
    /// closes it, Escape closes everything, Up/Down/Enter drive its rows.
    /// Otherwise Right opens the submenu under the active row, and Up/Down/Enter/
    /// Escape drive the parent's rows.
    pub fn key(&mut self, entries: &Vec<MenuEntry>, child_shown: bool, k: &KeyInput) -> (r: MenuReply)
        requires
            entries@.len() < usize::MAX,
        ensures
            (*final(self), r) == menu_key_spec(*old(self), entries@, child_shown, *k),
    {
        let rows = navigable(entries);
        proof {
            lemma_navigable_len(entries@);
            lemma_counts_bounded(entries@);
        }
        match self.open_sub {
            Some(si) => {
                if child_shown {
                    match k {
                        KeyInput::Move { motion: Motion::Left, .. } => {
                            self.child = ListNav { active: None };
                            self.open_sub = None;
                            return MenuReply::CloseSub;
                        },
                        KeyInput::Escape => {
                            return MenuReply::Dismiss;
                        },
                        _ => {},
                    }
                    let len = match nth_sub(entries, si) {
                        Some(inner) => {
                            let acts = actions(inner);
                            proof {
                                lemma_navigable_len(inner@);
                            }
                            acts.len()
                        },
                        None => 0,
                    };
                    let rep = self.child.handle(len, k);
                    return match rep.pick {
                        Some(row) => MenuReply::RunChild(si, row),
                        None => if rep.consumed { MenuReply::Moved } else { MenuReply::Ignored },
                    };
                }
            },
            None => {},
        }
        let right_sub: Option<usize> = match k {
            KeyInput::Move { motion: Motion::Right, .. } => match self.nav.active {
                Some(row) => if row < rows.len() {
                    match rows[row] {
                        RowTarget::Sub(si) => Some(si),
                        _ => None,
                    }
                } else {
                    None
                },
                None => None,
            },
            _ => None,
        };
        match right_sub {
            Some(si) => {
                self.open_sub = Some(si);
                MenuReply::OpenSub(si)
            },
            None => {
                let rep: NavReply = self.nav.handle(rows.len(), k);
                match rep.pick {
                    Some(row) => match rows[row] {
                        RowTarget::Action(ai) => MenuReply::Run(ai),
                        RowTarget::Sub(_) => MenuReply::Moved,
                    },
                    None => if rep.escape {
                        MenuReply::Dismiss
                    } else if rep.consumed {
                        MenuReply::Moved
                    } else {
                        MenuReply::Ignored
                    },
                }
            },
        }
    }
}

} // verus!
