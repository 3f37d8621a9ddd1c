//! Sheets: an edge-anchored modal panel per window. Closing first marks the sheet
//! as leaving (it reports closed at once and slides out) and removes it when the
//! exit tween ends; the panel's content, callbacks and motion stay with the caller.
use vstd::prelude::*;
use crate::per_window::WindowSlots;

pub use crate::side::Side;

verus! {

/// Identifies an open sheet.
pub type SheetId = u64;

/// A window's sheet.
#[derive(Clone, Copy, Debug, PartialEq, Eq, Structural)]
pub struct SheetEntry {
    pub id: SheetId,
    pub side: Side,
    pub dismissible: bool,
    /// Closing started: the panel is sliding out and goes away after the tween.
    pub leaving: bool,
}

/// The sheet service: the next id and each window's sheet.
pub struct Sheets {
    next_id: SheetId,
    slot: WindowSlots<Option<SheetEntry>>,
}

impl Sheets {
    /// The id the next sheet gets.
    pub closed spec fn next_id(&self) -> SheetId {
        self.next_id
    }

    /// Each window's sheet (a window without a slot has none).
    pub closed spec fn sheets(&self) -> Map<u32, Option<SheetEntry>> {
        self.slot@
    }

    /// No sheets yet; ids start at 1.
    pub fn new() -> (r: Sheets)
        ensures
            r.next_id() == 1,
            r.sheets() == Map::<u32, Option<SheetEntry>>::empty(),
    {
        Sheets { next_id: 1, slot: WindowSlots::new() }
    }
}

/// The sheet window `w` holds, if any.
pub open spec fn sheet_of(s: &Sheets, w: u32) -> Option<SheetEntry> {
    if s.sheets().contains_key(w) {
        s.sheets()[w]
    } else {
        None
    }
}

/// The deferred-removal timer key for a window's sheet.
pub fn removal_key(window: u32) -> (r: u64)
    ensures
        r == (0x7042_0000_0000_0000u64 ^ (window as u64)),
{
    0x7042_0000_0000_0000u64 ^ (window as u64)
}

/// Create window `window`'s sheet slot (call once at startup for the main window).
pub fn init(s: &mut Sheets, window: u32)
    ensures
        final(s).next_id() == old(s).next_id(),
        final(s).sheets() == (if old(s).sheets().contains_key(window) {
            old(s).sheets()
        } else {
            old(s).sheets().insert(window, None)
        }),
{
    if s.slot.get(window).is_none() {
        s.slot.set(window, None);
    }
}

/// Forget a closed window's sheet state.
pub fn drop_window(s: &mut Sheets, window: u32)
    ensures
        final(s).next_id() == old(s).next_id(),
        final(s).sheets() == old(s).sheets().remove(window),
{
    s.slot.remove(window);
}

/// Whether a sheet is open (and not already closing) in window `window`.
pub fn is_open(s: &Sheets, window: u32) -> (r: bool)
    ensures
        r == (sheet_of(s, window) matches Some(e) && !e.leaving),
{
    match s.slot.get(window) {
        Some(Some(e)) => !e.leaving,
        _ => false,
    }
}

/// Whether window `window` still renders a sheet (open, or sliding out).
pub fn is_present(s: &Sheets, window: u32) -> (r: bool)
    ensures
        r == sheet_of(s, window) is Some,
{
    match s.slot.get(window) {
        Some(Some(_)) => true,
        _ => false,
    }
}

/// Open a sheet in window `window` (replacing any open one). Returns its id.
pub fn open(s: &mut Sheets, window: u32, side: Side, dismissible: bool) -> (r: SheetId)
    requires
        old(s).next_id() < u64::MAX,
    ensures
        r == old(s).next_id(),
        final(s).next_id() == old(s).next_id() + 1,
        final(s).sheets() == old(s).sheets().insert(
            window,
            Some(SheetEntry { id: r, side, dismissible, leaving: false }),
        ),
{
    let id = s.next_id;
    s.next_id = id + 1;
    s.slot.set(window, Some(SheetEntry { id, side, dismissible, leaving: false }));
    id
}

/// Begin closing window `window`'s sheet when it matches `id` (`0` matches any): it
/// is marked leaving and returned (the caller fires `on_close`, slides it out and
/// arms the removal). A sheet already leaving is left alone.
pub fn close_sheet(s: &mut Sheets, window: u32, id: SheetId) -> (r: Option<SheetEntry>)
    ensures
        final(s).next_id() == old(s).next_id(),
        r == (match sheet_of(old(s), window) {
            Some(e) => if (id == 0 || e.id == id) && !e.leaving {
                Some(e)
            } else {
                None
            },
            None => None,
        }),
        r matches Some(e) ==> final(s).sheets() == old(s).sheets().insert(
            window,
            Some(SheetEntry { leaving: true, ..e }),
        ),
        r is None ==> final(s).sheets() == old(s).sheets(),
{
    match s.slot.get(window) {
        Some(Some(e)) => {
            if (id != 0 && e.id != id) || e.leaving {
                return None;
            }
            s.slot.set(window, Some(SheetEntry { leaving: true, ..e }));
            Some(e)
        },
        _ => None,
    }
}

/// The exit tween ended: remove window `window`'s sheet if it is still the sheet
/// `closing` (a newer sheet opened meanwhile stays). Returns whether it was removed.
pub fn finish_close(s: &mut Sheets, window: u32, closing: SheetId) -> (r: bool)
    ensures
        final(s).next_id() == old(s).next_id(),
        r == (sheet_of(old(s), window) matches Some(e) && e.id == closing),
        r ==> final(s).sheets() == old(s).sheets().insert(window, None),
        !r ==> final(s).sheets() == old(s).sheets(),
{
    match s.slot.get(window) {
        Some(Some(e)) => {
            if e.id == closing {
                s.slot.set(window, None);
                true
            } else {
                false
            }
        },
        _ => false,
    }
}

/// Close window `window`'s sheet if it's dismissible and not already leaving
/// (Escape / scrim click).
pub fn dismiss_top(s: &mut Sheets, window: u32) -> (r: Option<SheetEntry>)
    ensures
        final(s).next_id() == old(s).next_id(),
        r == (match sheet_of(old(s), window) {
            Some(e) => if e.dismissible && !e.leaving {
                Some(e)
            } else {
                None
            },
            None => None,
        }),
        r matches Some(e) ==> final(s).sheets() == old(s).sheets().insert(
            window,
            Some(SheetEntry { leaving: true, ..e }),
        ),
        r is None ==> final(s).sheets() == old(s).sheets(),
{
    match s.slot.get(window) {
        Some(Some(e)) => {
            if e.dismissible && !e.leaving {
                close_sheet(s, window, e.id)
            } else {
                None
            }
        },
        _ => None,
    }
}

/// Closing is deferred: right after a close the sheet reports closed but is still
/// rendered; once its exit tween ends it is gone. A second close during the exit is a
/// no-op.
pub proof fn close_defers_removal(e: SheetEntry, m: Map<u32, Option<SheetEntry>>, window: u32)
    requires
        !e.leaving,
    ensures
        ({
            let closing = m.insert(window, Some(SheetEntry { leaving: true, ..e }));
            let gone = closing.insert(window, None);
            &&& closing[window] matches Some(x) && x.leaving
            &&& closing[window] is Some
            &&& gone[window] is None
        }),
{
}

} // verus!
