//! Keyboard navigation over a list of rows (menus, the command palette, the
//! combobox list): an active-row index that Up/Down move, Enter picks and
//! Escape dismisses.
use vstd::prelude::*;
use crate::editor::{KeyInput, Motion};

verus! {

/// The active-row model of a keyboard-navigable list.
#[derive(Clone, Copy, Debug, PartialEq, Eq, Structural)]
pub struct ListNav {
    pub active: Option<usize>,
}

/// What a key did to the list.
#[derive(Clone, Copy, Debug, PartialEq, Eq, Structural)]
pub struct NavReply {
    /// The list took the key (the field must not edit with it).
    pub consumed: bool,
    /// Enter picked this row.
    pub pick: Option<usize>,
    /// Escape asks the owner to dismiss the list.
    pub escape: bool,
}

/// The active row kept within `len` rows after the list was re-filtered.
pub open spec fn clamp_spec(a: Option<usize>, len: usize) -> Option<usize> {
    if len == 0 {
        None
    } else {
        match a {
            Some(i) => if i >= len { Some((len - 1) as usize) } else { Some(i) },
            None => None,
        }
    }
}

/// The active row after a Down key over `len` rows (from none: the first).
pub open spec fn down_spec(a: Option<usize>, len: usize) -> Option<usize> {
    if len == 0 {
        a
    } else {
        match a {
            None => Some(0),
            Some(i) => if i + 1 < len { Some((i + 1) as usize) } else { Some((len - 1) as usize) },
        }
    }
}

/// The active row after an Up key over `len` rows (from none: the last).
pub open spec fn up_spec(a: Option<usize>, len: usize) -> Option<usize> {
    if len == 0 {
        a
    } else {
        match a {
            None => Some((len - 1) as usize),
            Some(i) => if i == 0 { Some(0) } else { Some((i - 1) as usize) },
        }
    }
}

/// The active row after key `k`.
pub open spec fn handle_active(a: Option<usize>, len: usize, k: KeyInput) -> Option<usize> {
    match k {
        KeyInput::Move { motion: Motion::Down, .. } => down_spec(a, len),
        KeyInput::Move { motion: Motion::Up, .. } => up_spec(a, len),
        _ => a,
    }
}

/// The reply to key `k`.
pub open spec fn handle_reply(a: Option<usize>, len: usize, k: KeyInput) -> NavReply {
    match k {
        KeyInput::Move { motion: Motion::Down, .. } => NavReply { consumed: true, pick: None, escape: false },
        KeyInput::Move { motion: Motion::Up, .. } => NavReply { consumed: true, pick: None, escape: false },
        KeyInput::Enter => NavReply {
            consumed: true,
            pick: match a {
                Some(i) => if i < len { Some(i) } else { None },
                None => None,
            },
            escape: false,
        },
        KeyInput::Escape => NavReply { consumed: true, pick: None, escape: true },
        _ => NavReply { consumed: false, pick: None, escape: false },
    }
}

/// No active row, or one of the `len` rows.
pub open spec fn in_range(a: Option<usize>, len: usize) -> bool {
    match a {
        Some(i) => i < len,
        None => true,
    }
}

/// A list with no active row yet.
pub fn list_nav() -> (r: ListNav)
    ensures
        r.active is None,
{
    ListNav { active: None }
}

impl ListNav {
    /// The active row.
    pub fn active(&self) -> (r: Option<usize>)
        ensures
            r == self.active,
    {
        self.active
    }

    /// Set the active row (a mouse hover syncing the keyboard cursor).
    pub fn set_active(&mut self, i: Option<usize>)
        ensures
            final(self).active == i,
    {
        self.active = i;
    }

    /// Keep the active row in range after the list was re-filtered to `len` rows:
    /// cleared when the list is empty, clamped to the last row otherwise.
    pub fn clamp(&mut self, len: usize)
        ensures
            final(self).active == clamp_spec(old(self).active, len),
    {
        if len == 0 {
            self.active = None;
        } else {
            match self.active {
                Some(i) => {
                    if i >= len {
                        self.active = Some(len - 1);
                    }
                },
                None => {},
            }
        }
    }

    /// Handle a key over `len` rows: Up/Down move the active row (Down from none
    /// selects the first row, Up from none the last), Enter picks the active row,
    /// Escape asks for dismissal. Every other key is left to the field.
    pub fn handle(&mut self, len: usize, k: &KeyInput) -> (r: NavReply)
        ensures
            final(self).active == handle_active(old(self).active, len, *k),
            r == handle_reply(old(self).active, len, *k),
    {
        match k {
            KeyInput::Move { motion: Motion::Down, .. } => {
                if len > 0 {
                    let next = match self.active {
                        None => 0,
                        Some(i) => if i < len - 1 { i + 1 } else { len - 1 },
                    };
                    self.active = Some(next);
                }
                NavReply { consumed: true, pick: None, escape: false }
            },
            KeyInput::Move { motion: Motion::Up, .. } => {
                if len > 0 {
                    let next = match self.active {
                        None => len - 1,
                        Some(i) => if i == 0 { 0 } else { i - 1 },
                    };
                    self.active = Some(next);
                }
                NavReply { consumed: true, pick: None, escape: false }
            },
            KeyInput::Enter => {
                let pick = match self.active {
                    Some(i) => if i < len { Some(i) } else { None },
                    None => None,
                };
                NavReply { consumed: true, pick, escape: false }
            },
            KeyInput::Escape => NavReply { consumed: true, pick: None, escape: true },
            _ => NavReply { consumed: false, pick: None, escape: false },
        }
    }
}

/// Once clamped to `len` rows, the active row stays one of them through any key,
/// and a pick is always the active row.
pub proof fn navigation_stays_in_range(a: Option<usize>, len: usize, k: KeyInput)
    ensures
        in_range(clamp_spec(a, len), len),
        in_range(a, len) ==> in_range(handle_active(a, len, k), len),
        handle_reply(a, len, k).pick is Some ==> handle_reply(a, len, k).pick == a
            && in_range(a, len),
{
}

/// Up and Down move the active row by exactly one: Up from row `i > 0` makes row
/// `i - 1` active, Down from row `i` below the last makes row `i + 1` active, the
/// first and last rows stay put at their end, and Down right after Up (or Up right
/// after Down) away from the ends returns to the row it started from.
pub proof fn up_and_down_step_one_row(i: usize, len: usize, extend: bool)
    ensures
        0 < i < len ==> handle_active(Some(i), len, KeyInput::Move { motion: Motion::Up, extend })
            == Some((i - 1) as usize),
        i + 1 < len ==> handle_active(Some(i), len, KeyInput::Move { motion: Motion::Down, extend })
            == Some((i + 1) as usize),
        0 < len ==> handle_active(Some(0), len, KeyInput::Move { motion: Motion::Up, extend }) == Some(
            0usize,
        ),
        0 < len ==> handle_active(Some((len - 1) as usize), len, KeyInput::Move { motion: Motion::Down, extend })
            == Some((len - 1) as usize),
        0 < i < len ==> handle_active(
            handle_active(Some(i), len, KeyInput::Move { motion: Motion::Up, extend }),
            len,
            KeyInput::Move { motion: Motion::Down, extend },
        ) == Some(i),
        i + 1 < len ==> handle_active(
            handle_active(Some(i), len, KeyInput::Move { motion: Motion::Down, extend }),
            len,
            KeyInput::Move { motion: Motion::Up, extend },
        ) == Some(i),
{
}

/// What the other list keys do: Down from no active row selects the first row and
/// Up the last; Enter picks the active row when it is one of the rows (and nothing
/// otherwise) without moving it; Escape asks for dismissal; and any other key is
/// left to the field untouched.
pub proof fn enter_picks_and_escape_dismisses(a: Option<usize>, len: usize, k: KeyInput, extend: bool)
    ensures
        0 < len ==> handle_active(None, len, KeyInput::Move { motion: Motion::Down, extend }) == Some(
            0usize,
        ),
        0 < len ==> handle_active(None, len, KeyInput::Move { motion: Motion::Up, extend }) == Some(
            (len - 1) as usize,
        ),
        handle_reply(a, len, KeyInput::Enter).pick == (if a matches Some(i) && i < len {
            a
        } else {
            None
        }),
        handle_active(a, len, KeyInput::Enter) == a,
        handle_reply(a, len, KeyInput::Enter).consumed && !handle_reply(a, len, KeyInput::Enter).escape,
        handle_reply(a, len, KeyInput::Escape).escape && handle_reply(a, len, KeyInput::Escape).pick is None,
        !(k is Move || k is Enter || k is Escape) ==> handle_active(a, len, k) == a && !handle_reply(
            a,
            len,
            k,
        ).consumed && handle_reply(a, len, k).pick is None && !handle_reply(a, len, k).escape,
{
}

} // verus!
