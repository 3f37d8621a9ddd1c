//! Modal dialogs: one per window, opened with a fresh id, closed by id (or `0` for
//! whatever is open), and dismissed by Escape / an outside click only when
//! dismissible. The dialog's content and callbacks stay with the caller, keyed by
//! the id; this module keeps which dialog each window shows.
use vstd::prelude::*;
use crate::per_window::WindowSlots;
use crate::menu::ActionId;

verus! {

/// Identifies an open dialog.
pub type DialogId = u64;

/// The live modal of a window.
#[derive(Clone, Copy, Debug, PartialEq, Eq, Structural)]
pub struct DialogEntry {
    pub id: DialogId,
    /// Whether Escape / an outside click closes it.
    pub dismissible: bool,
}

/// The dialog service: the next id and each window's modal.
pub struct Dialogs {
    next_id: DialogId,
    modal: WindowSlots<Option<DialogEntry>>,
}

impl Dialogs {
    /// The id the next dialog gets.
    pub closed spec fn next_id(&self) -> DialogId {
        self.next_id
    }

    /// Each window's modal (a window without a slot has none).
    pub closed spec fn modals(&self) -> Map<u32, Option<DialogEntry>> {
        self.modal@
    }

    /// No dialogs yet; ids start at 1.
    pub fn new() -> (r: Dialogs)
        ensures
            r.next_id() == 1,
            r.modals() == Map::<u32, Option<DialogEntry>>::empty(),
    {
        Dialogs { next_id: 1, modal: WindowSlots::new() }
    }
}

/// The modal window `w` shows, if any.
pub open spec fn modal_of(d: &Dialogs, w: u32) -> Option<DialogEntry> {
    if d.modals().contains_key(w) {
        d.modals()[w]
    } else {
        None
    }
}

/// The modal of window `w` in a map of modals (none without a slot).
pub open spec fn entry_of(m: Map<u32, Option<DialogEntry>>, w: u32) -> Option<DialogEntry> {
    if m.contains_key(w) {
        m[w]
    } else {
        None
    }
}

/// One operation on the dialog service, as it bears on the windows' modals.
pub enum DialogOp {
    Init { window: u32 },
    Open { window: u32, id: DialogId, dismissible: bool },
    Close { window: u32, id: DialogId },
    Dismiss { window: u32 },
    Drop { window: u32 },
}

/// The windows' modals after `op`.
pub open spec fn modals_after(m: Map<u32, Option<DialogEntry>>, op: DialogOp) -> Map<
    u32,
    Option<DialogEntry>,
> {
    match op {
        DialogOp::Init { window } => if m.contains_key(window) {
            m
        } else {
            m.insert(window, None)
        },
        DialogOp::Open { window, id, dismissible } => m.insert(
            window,
            Some(DialogEntry { id, dismissible }),
        ),
        DialogOp::Close { window, id } => match entry_of(m, window) {
            Some(e) => if id == 0 || e.id == id {
                m.insert(window, None)
            } else {
                m
            },
            None => m,
        },
        DialogOp::Dismiss { window } => match entry_of(m, window) {
            Some(e) => if e.dismissible {
                m.insert(window, None)
            } else {
                m
            },
            None => m,
        },
        DialogOp::Drop { window } => m.remove(window),
    }
}

/// The modals after each operation of `ops` in turn.
pub open spec fn modals_after_all(m: Map<u32, Option<DialogEntry>>, ops: Seq<DialogOp>) -> Map<
    u32,
    Option<DialogEntry>,
>
    decreases ops.len(),
{
    if ops.len() == 0 {
        m
    } else {
        modals_after(modals_after_all(m, ops.drop_last()), ops.last())
    }
}

/// Whether `op` ends window `w`'s dialog `e`: closing it by its id or by `0`,
/// dismissing it while it is dismissible, or dropping the window.
pub open spec fn ends_dialog(op: DialogOp, w: u32, e: DialogEntry) -> bool {
    match op {
        DialogOp::Close { window, id } => window == w && (id == 0 || id == e.id),
        DialogOp::Dismiss { window } => window == w && e.dismissible,
        DialogOp::Drop { window } => window == w,
        _ => false,
    }
}

/// Create window `window`'s modal slot (call once at startup for the main window).
pub fn init(d: &mut Dialogs, window: u32)
    ensures
        final(d).modals() == modals_after(old(d).modals(), DialogOp::Init { window }),
        final(d).next_id() == old(d).next_id(),
        final(d).modals() == (if old(d).modals().contains_key(window) {
            old(d).modals()
        } else {
            old(d).modals().insert(window, None)
        }),
{
    if d.modal.get(window).is_none() {
        d.modal.set(window, None);
    }
}

/// Forget a closed window's modal state.
pub fn drop_window(d: &mut Dialogs, window: u32)
    ensures
        final(d).modals() == modals_after(old(d).modals(), DialogOp::Drop { window }),
        final(d).next_id() == old(d).next_id(),
        final(d).modals() == old(d).modals().remove(window),
{
    d.modal.remove(window);
}

/// Whether a dialog is currently open in window `window`.
pub fn is_open(d: &Dialogs, window: u32) -> (r: bool)
    ensures
        r == modal_of(d, window) is Some,
{
    match d.modal.get(window) {
        Some(Some(_)) => true,
        _ => false,
    }
}

/// Show a dialog in window `window`, replacing any that's open. Returns its id.
pub fn open(d: &mut Dialogs, window: u32, dismissible: bool) -> (r: DialogId)
    requires
        old(d).next_id() < u64::MAX,
    ensures
        final(d).modals() == modals_after(old(d).modals(), DialogOp::Open { window, id: r, dismissible }),
        r == old(d).next_id(),
        final(d).next_id() == old(d).next_id() + 1,
        final(d).modals() == old(d).modals().insert(
            window,
            Some(DialogEntry { id: r, dismissible }),
        ),
{
    let id = d.next_id;
    d.next_id = id + 1;
    d.modal.set(window, Some(DialogEntry { id, dismissible }));
    id
}

/// Close the open dialog of window `window` when it matches `id` (`0` closes whatever
/// is open). Returns the closed dialog, whose `on_close` the caller then fires.
pub fn close_dialog(d: &mut Dialogs, window: u32, id: DialogId) -> (r: Option<DialogEntry>)
    ensures
        final(d).modals() == modals_after(old(d).modals(), DialogOp::Close { window, id }),
        final(d).next_id() == old(d).next_id(),
        r == (match modal_of(old(d), window) {
            Some(e) => if id == 0 || e.id == id {
                Some(e)
            } else {
                None
            },
            None => None,
        }),
        r is Some ==> final(d).modals() == old(d).modals().insert(window, None),
        r is None ==> final(d).modals() == old(d).modals(),
{
    match d.modal.get(window) {
        Some(Some(e)) => {
            if id == 0 || e.id == id {
                d.modal.set(window, None);
                Some(e)
            } else {
                None
            }
        },
        _ => None,
    }
}

/// Close the open dialog of window `window` if it's dismissible (the Escape /
/// outside-click path). Returns the closed dialog.
pub fn dismiss_top(d: &mut Dialogs, window: u32) -> (r: Option<DialogEntry>)
    ensures
        final(d).modals() == modals_after(old(d).modals(), DialogOp::Dismiss { window }),
        final(d).next_id() == old(d).next_id(),
        r == (match modal_of(old(d), window) {
            Some(e) => if e.dismissible {
                Some(e)
            } else {
                None
            },
            None => None,
        }),
        r is Some ==> final(d).modals() == old(d).modals().insert(window, None),
        r is None ==> final(d).modals() == old(d).modals(),
{
    match d.modal.get(window) {
        Some(Some(e)) => {
            if e.dismissible {
                close_dialog(d, window, e.id)
            } else {
                None
            }
        },
        _ => None,
    }
}

/// A confirmation modal's settings: title + description + Cancel/Confirm labels.
/// Unlike a plain dialog it is **non-dismissible by default**.
#[derive(Clone, Debug)]
pub struct AlertDialog {
    pub title: String,
    pub description: String,
    pub confirm: String,
    pub cancel: String,
    pub destructive: bool,
    pub dismissible: bool,
    /// Called after Confirm closed the dialog.
    pub on_confirm: Option<ActionId>,
    /// Called after Cancel closed the dialog.
    pub on_cancel: Option<ActionId>,
}

/// Create an [`AlertDialog`] with the given title (confirm "Continue", cancel
/// "Cancel", not destructive, not dismissible).
pub fn alert_dialog(title: String) -> (r: AlertDialog)
    ensures
        r.title@ == title@,
        r.description@ == Seq::<char>::empty(),
        r.confirm@ == "Continue"@,
        r.cancel@ == "Cancel"@,
        !r.destructive,
        !r.dismissible,
        r.on_confirm is None,
        r.on_cancel is None,
{
    AlertDialog {
        title,
        description: String::new(),
        confirm: "Continue".to_string(),
        cancel: "Cancel".to_string(),
        destructive: false,
        dismissible: false,
        on_confirm: None,
        on_cancel: None,
    }
}

impl AlertDialog {
    pub fn description(self, s: String) -> (r: AlertDialog)
        ensures
            r.description@ == s@,
            r.title@ == self.title@ && r.confirm@ == self.confirm@ && r.cancel@ == self.cancel@,
            r.destructive == self.destructive && r.dismissible == self.dismissible,
            r.on_confirm == self.on_confirm && r.on_cancel == self.on_cancel,
    {
        AlertDialog { description: s, ..self }
    }

    /// The confirm button label (default "Continue").
    pub fn confirm(self, s: String) -> (r: AlertDialog)
        ensures
            r.confirm@ == s@,
            r.title@ == self.title@ && r.description@ == self.description@ && r.cancel@
                == self.cancel@,
            r.destructive == self.destructive && r.dismissible == self.dismissible,
            r.on_confirm == self.on_confirm && r.on_cancel == self.on_cancel,
    {
        AlertDialog { confirm: s, ..self }
    }

    /// The cancel button label (default "Cancel").
    pub fn cancel(self, s: String) -> (r: AlertDialog)
        ensures
            r.cancel@ == s@,
            r.title@ == self.title@ && r.description@ == self.description@ && r.confirm@
                == self.confirm@,
            r.destructive == self.destructive && r.dismissible == self.dismissible,
            r.on_confirm == self.on_confirm && r.on_cancel == self.on_cancel,
    {
        AlertDialog { cancel: s, ..self }
    }

    /// Style the confirm button as destructive.
    pub fn destructive(self, destructive: bool) -> (r: AlertDialog)
        ensures
            r.destructive == destructive,
            r.title@ == self.title@ && r.description@ == self.description@ && r.confirm@
                == self.confirm@ && r.cancel@ == self.cancel@,
            r.dismissible == self.dismissible,
            r.on_confirm == self.on_confirm && r.on_cancel == self.on_cancel,
    {
        AlertDialog { destructive, ..self }
    }

    /// Allow Escape / outside-click to dismiss (default `false`).
    pub fn dismissible(self, dismissible: bool) -> (r: AlertDialog)
        ensures
            r.dismissible == dismissible,
            r.title@ == self.title@ && r.description@ == self.description@ && r.confirm@
                == self.confirm@ && r.cancel@ == self.cancel@,
            r.destructive == self.destructive,
            r.on_confirm == self.on_confirm && r.on_cancel == self.on_cancel,
    {
        AlertDialog { dismissible, ..self }
    }

    /// The callback Confirm fires.
    pub fn on_confirm(self, action: ActionId) -> (r: AlertDialog)
        ensures
            r.on_confirm == Some(action),
            r.on_cancel == self.on_cancel,
            r.title@ == self.title@ && r.description@ == self.description@ && r.confirm@
                == self.confirm@ && r.cancel@ == self.cancel@,
            r.destructive == self.destructive && r.dismissible == self.dismissible,
    {
        AlertDialog { on_confirm: Some(action), ..self }
    }

    /// The callback Cancel fires.
    pub fn on_cancel(self, action: ActionId) -> (r: AlertDialog)
        ensures
            r.on_cancel == Some(action),
            r.on_confirm == self.on_confirm,
            r.title@ == self.title@ && r.description@ == self.description@ && r.confirm@
                == self.confirm@ && r.cancel@ == self.cancel@,
            r.destructive == self.destructive && r.dismissible == self.dismissible,
    {
        AlertDialog { on_cancel: Some(action), ..self }
    }

    /// A press of Confirm (`confirmed`) or Cancel in window `window`: the window's
    /// modal closes, then the button's callback (returned) fires.
    pub fn respond(&self, d: &mut Dialogs, window: u32, confirmed: bool) -> (r: Option<ActionId>)
        ensures
            final(d).modals() == modals_after(old(d).modals(), DialogOp::Close { window, id: 0 }),
            r == if confirmed { self.on_confirm } else { self.on_cancel },
            final(d).next_id() == old(d).next_id(),
            modal_of(old(d), window) is Some ==> final(d).modals() == old(d).modals().insert(
                window,
                None,
            ),
            modal_of(old(d), window) is None ==> final(d).modals() == old(d).modals(),
    {
        close_dialog(d, window, 0);
        if confirmed {
            self.on_confirm
        } else {
            self.on_cancel
        }
    }

    /// Open the alert as window `window`'s modal; returns its id.
    pub fn open(&self, d: &mut Dialogs, window: u32) -> (r: DialogId)
        requires
            old(d).next_id() < u64::MAX,
        ensures
            r == old(d).next_id(),
            final(d).next_id() == old(d).next_id() + 1,
            final(d).modals() == old(d).modals().insert(
                window,
                Some(DialogEntry { id: r, dismissible: self.dismissible }),
            ),
    {
        open(d, window, self.dismissible)
    }
}

/// One operation and a window's dialog `e`: an operation that ends it leaves the
/// window without a dialog; any other leaves a dialog showing there, `e` itself unless
/// the operation opened another dialog in that window.
pub proof fn one_step_keeps_or_ends_a_dialog(m: Map<u32, Option<DialogEntry>>, w: u32, op: DialogOp)
    requires
        entry_of(m, w) is Some,
    ensures
        ends_dialog(op, w, entry_of(m, w)->0) ==> entry_of(modals_after(m, op), w) is None,
        !ends_dialog(op, w, entry_of(m, w)->0) ==> entry_of(modals_after(m, op), w) is Some,
        !ends_dialog(op, w, entry_of(m, w)->0) && !(op matches DialogOp::Open { window, .. } && window == w)
            ==> entry_of(modals_after(m, op), w) == entry_of(m, w),
{
}

/// An open dialog shows until something ends it: after any run of operations in
/// which no step closes the window's current dialog by its id or by `0`, dismisses it
/// while it is dismissible, or drops the window, the window still shows a dialog.
pub proof fn dialog_stays_open_until_ended(
    m: Map<u32, Option<DialogEntry>>,
    w: u32,
    ops: Seq<DialogOp>,
)
    requires
        entry_of(m, w) is Some,
        forall|k: int|
            0 <= k < ops.len() ==> !ends_dialog(
                #[trigger] ops[k],
                w,
                entry_of(modals_after_all(m, ops.take(k)), w)->0,
            ),
    ensures
        entry_of(modals_after_all(m, ops), w) is Some,
    decreases ops.len(),
{
    if ops.len() > 0 {
        let init = ops.drop_last();
        assert forall|k: int| 0 <= k < init.len() implies !ends_dialog(
            #[trigger] init[k],
            w,
            entry_of(modals_after_all(m, init.take(k)), w)->0,
        ) by {
            assert(init.take(k) =~= ops.take(k));
            assert(init[k] == ops[k]);
        }
        dialog_stays_open_until_ended(m, w, init);
        let k = ops.len() - 1;
        assert(ops.take(k) =~= init);
        assert(!ends_dialog(ops[k], w, entry_of(modals_after_all(m, init), w)->0));
        one_step_keeps_or_ends_a_dialog(modals_after_all(m, init), w, ops.last());
    }
}

} // verus!
