//! The pointer protocol of buttons and pressable regions: hover, press and the
//! highlight (pressed) reports their owners receive. Tints and animation stay
//! with the renderer; this module keeps which state the control is in and what
//! each pointer event reports.
use vstd::prelude::*;

verus! {

/// Which control handles the pointer.
#[derive(Clone, Copy, Debug, PartialEq, Eq, Structural)]
pub enum PressKind {
    /// A button: its highlight report follows every press and release.
    Button,
    /// A pressable region: a release ends the press without a highlight report.
    Pressable,
}

/// A pointer event over the control.
#[derive(Clone, Copy, Debug, PartialEq, Eq, Structural)]
pub enum PointerEvent {
    Enter,
    Exit,
    Down,
    Up,
}

/// The control's pointer state.
#[derive(Clone, Copy, Debug, PartialEq, Eq, Structural)]
pub struct PressState {
    pub hovered: bool,
    pub pressed: bool,
}

/// What a pointer event reports to the owner.
#[derive(Clone, Copy, Debug, PartialEq, Eq, Structural)]
pub struct PressReply {
    /// The new hover state, when it is to be reported (`on_hover`).
    pub hover: Option<bool>,
    /// The new highlight state, when it is to be reported (`on_highlight_changed`).
    pub highlight: Option<bool>,
    /// The control asks for keyboard focus (a click focuses it).
    pub focus: bool,
}

/// A reply that reports nothing.
pub open spec fn silent() -> PressReply {
    PressReply { hover: None, highlight: None, focus: false }
}

/// The state and reply after `ev`. An inert control (disabled, or a loading button)
/// ignores the pointer. Entering hovers; leaving ends hover and any press (reporting
/// the highlight's end if it was pressed); a press highlights and asks for focus; a
/// release ends the press, reported by a button only.
pub open spec fn press_spec(kind: PressKind, inert: bool, st: PressState, ev: PointerEvent) -> (
    PressState,
    PressReply,
) {
    if inert {
        (st, silent())
    } else {
        match ev {
            PointerEvent::Enter => (
                PressState { hovered: true, ..st },
                PressReply { hover: Some(true), ..silent() },
            ),
            PointerEvent::Exit => (
                PressState { hovered: false, pressed: false },
                PressReply {
                    hover: Some(false),
                    highlight: if st.pressed {
                        Some(false)
                    } else {
                        None
                    },
                    focus: false,
                },
            ),
            PointerEvent::Down => (
                PressState { pressed: true, ..st },
                PressReply { hover: None, highlight: Some(true), focus: true },
            ),
            PointerEvent::Up => (
                PressState { pressed: false, ..st },
                PressReply {
                    highlight: if kind == PressKind::Button {
                        Some(false)
                    } else {
                        None
                    },
                    ..silent()
                },
            ),
        }
    }
}

/// A control that is neither hovered nor pressed.
pub fn press_state() -> (r: PressState)
    ensures
        r == (PressState { hovered: false, pressed: false }),
{
    PressState { hovered: false, pressed: false }
}

/// Handle pointer event `ev` (see [`press_spec`]).
pub fn pointer(kind: PressKind, inert: bool, st: &mut PressState, ev: PointerEvent) -> (r: PressReply)
    ensures
        (*final(st), r) == press_spec(kind, inert, *old(st), ev),
{
    if inert {
        return PressReply { hover: None, highlight: None, focus: false };
    }
    match ev {
        PointerEvent::Enter => {
            st.hovered = true;
            PressReply { hover: Some(true), highlight: None, focus: false }
        },
        PointerEvent::Exit => {
            let was = st.pressed;
            st.hovered = false;
            st.pressed = false;
            PressReply {
                hover: Some(false),
                highlight: if was {
                    Some(false)
                } else {
                    None
                },
                focus: false,
            }
        },
        PointerEvent::Down => {
            st.pressed = true;
            PressReply { hover: None, highlight: Some(true), focus: true }
        },
        PointerEvent::Up => {
            st.pressed = false;
            let highlight = match kind {
                PressKind::Button => Some(false),
                PressKind::Pressable => None,
            };
            PressReply { hover: None, highlight, focus: false }
        },
    }
}

/// The highlight reports never contradict the press: a reported highlight is the
/// new pressed state, and a button reports every change of its pressed state.
/// Leaving the control always ends hover and press.
pub proof fn highlight_follows_the_press(kind: PressKind, inert: bool, st: PressState, ev: PointerEvent)
    ensures
        ({
            let (next, reply) = press_spec(kind, inert, st, ev);
            &&& reply.highlight matches Some(h) ==> h == next.pressed
            &&& kind == PressKind::Button && next.pressed != st.pressed ==> reply.highlight
                == Some(next.pressed)
            &&& reply.hover matches Some(h) ==> h == next.hovered
            &&& inert ==> next == st && reply == silent()
            &&& !inert && ev == PointerEvent::Exit ==> !next.hovered && !next.pressed
        }),
{
}

} // verus!
