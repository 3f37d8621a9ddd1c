//! The text editor's state machine: value, selection (anchor + focus), IME
//! preedit and undo/redo history, driven one [`KeyInput`] at a time.
//!
//! Positions are character offsets into the value. The outside world supplies
//! what only it knows: the clipboard text (for a paste) and the text layout's
//! answer for a caret motion (when a shaped layout is available); the editor
//! reports what it wants done outside (copy to the clipboard, drop focus).
use vstd::prelude::*;
use crate::text::{
    is_ws, is_whitespace, copy_chars, slice_range, append_chars, chars_eq, chars_of, string_of,
};
use crate::text_field::{
    CharFilter, filter_allows, currency_spec, currency_chars_mask, ordered,
};
use crate::date_format::{DateFormat, mask_spec, at_most};
use crate::time_field::{mask_time_spec, mask_time_chars};

verus! {

broadcast use vstd::seq_lib::group_seq_properties;

/// An input mask applied after each edit.
#[derive(Clone, Copy, Debug, PartialEq, Eq, Structural)]
pub enum Mask {
    /// Currency formatting (`$1,234.56`).
    Currency,
    /// A date in the given format (`MM/DD/YYYY`, …).
    Date(DateFormat),
    /// A 24-hour time (`HH:MM`).
    Time,
}

/// What a mask makes of a value.
#[verifier::opaque]
pub open spec fn mask_apply(m: Mask, v: Seq<char>) -> Seq<char> {
    match m {
        Mask::Currency => currency_spec(v),
        Mask::Date(f) => mask_spec(f, v),
        Mask::Time => mask_time_spec(v),
    }
}

/// Applies a mask to a value.
pub fn apply_mask(m: Mask, v: &[char]) -> (r: Vec<char>)
    ensures
        r@ == mask_apply(m, v@),
{
    reveal(mask_apply);
    match m {
        Mask::Currency => currency_chars_mask(v),
        Mask::Date(f) => f.mask_chars(v),
        Mask::Time => mask_time_chars(v),
    }
}

/// A caret motion.
#[derive(Clone, Copy, Debug, PartialEq, Eq, Structural)]
pub enum Motion {
    Left,
    Right,
    WordLeft,
    WordRight,
    LineStart,
    LineEnd,
    DocStart,
    DocEnd,
    Up,
    Down,
}

/// One editing command.
#[derive(Clone, Debug)]
pub enum KeyInput {
    /// Type text.
    Insert(Vec<char>),
    /// Enter: a newline in a multiline editor, a submit otherwise.
    Enter,
    Backspace,
    Delete,
    DeleteWordBack,
    DeleteWordForward,
    /// Move the caret; with `extend` the anchor stays (a selection grows).
    Move { motion: Motion, extend: bool },
    SelectAll,
    Copy,
    Cut,
    /// Insert the clipboard text, through the same line-break rule, filter and
    /// length cap as typed text.
    Paste,
    Undo,
    Redo,
    /// Leave the editor (drops focus).
    Escape,
    /// An IME composition update (not committed yet).
    Preedit(Vec<char>),
}

/// One undo/redo snapshot: text + selection.
pub type Snap = (Vec<char>, usize, usize);

/// The most snapshots the undo history keeps.
pub const UNDO_LIMIT: usize = 200;

/// The editor state.
pub struct Editor {
    pub value: Vec<char>,
    pub anchor: usize,
    pub focus: usize,
    /// IME composition text (empty when not composing).
    pub preedit: Vec<char>,
    pub undo: Vec<Snap>,
    pub redo: Vec<Snap>,
    pub multiline: bool,
}

/// What an edit asks of the outside world, and what it did.
#[derive(Clone, Debug)]
pub struct EditOutcome {
    /// The text changed.
    pub changed: bool,
    /// Enter was pressed in a single-line editor.
    pub submitted: bool,
    /// Text to write to the clipboard.
    pub copied: Option<Vec<char>>,
    /// The editor asks to drop keyboard focus.
    pub blur: bool,
}

/// A snapshot as values.
pub type SnapView = (Seq<char>, usize, usize);

/// The editor state as values.
pub struct EditorView {
    pub value: Seq<char>,
    pub anchor: usize,
    pub focus: usize,
    pub preedit: Seq<char>,
    pub undo: Seq<SnapView>,
    pub redo: Seq<SnapView>,
    pub multiline: bool,
}

/// An edit outcome as values.
pub struct OutcomeView {
    pub changed: bool,
    pub submitted: bool,
    pub copied: Option<Seq<char>>,
    pub blur: bool,
}

/// The snapshots as values.
pub open spec fn snaps_view(s: Seq<Snap>) -> Seq<SnapView> {
    s.map_values(|x: Snap| (x.0@, x.1, x.2))
}

impl View for Editor {
    type V = EditorView;

    open spec fn view(&self) -> EditorView {
        EditorView {
            value: self.value@,
            anchor: self.anchor,
            focus: self.focus,
            preedit: self.preedit@,
            undo: snaps_view(self.undo@),
            redo: snaps_view(self.redo@),
            multiline: self.multiline,
        }
    }
}

impl View for EditOutcome {
    type V = OutcomeView;

    open spec fn view(&self) -> OutcomeView {
        OutcomeView {
            changed: self.changed,
            submitted: self.submitted,
            copied: match self.copied {
                Some(c) => Some(c@),
                None => None,
            },
            blur: self.blur,
        }
    }
}

// ---------------------------------------------------------------------------
// Caret motions
// ---------------------------------------------------------------------------

/// Back over whitespace from `i`.
pub open spec fn skip_ws_left(v: Seq<char>, i: int) -> int
    decreases i,
{
    if i <= 0 || i > v.len() {
        if i <= 0 { 0 } else { i }
    } else if is_ws(v[i - 1]) {
        skip_ws_left(v, i - 1)
    } else {
        i
    }
}

/// Back over non-whitespace from `i`.
pub open spec fn skip_word_left(v: Seq<char>, i: int) -> int
    decreases i,
{
    if i <= 0 || i > v.len() {
        if i <= 0 { 0 } else { i }
    } else if !is_ws(v[i - 1]) {
        skip_word_left(v, i - 1)
    } else {
        i
    }
}

/// Forward over whitespace from `i`.
pub open spec fn skip_ws_right(v: Seq<char>, i: int) -> int
    decreases v.len() - i,
{
    if i < 0 || i >= v.len() {
        i
    } else if is_ws(v[i]) {
        skip_ws_right(v, i + 1)
    } else {
        i
    }
}

/// Forward over non-whitespace from `i`.
pub open spec fn skip_word_right(v: Seq<char>, i: int) -> int
    decreases v.len() - i,
{
    if i < 0 || i >= v.len() {
        i
    } else if !is_ws(v[i]) {
        skip_word_right(v, i + 1)
    } else {
        i
    }
}

/// Word-left by character class: skip whitespace, then the word before it.
pub open spec fn word_left(v: Seq<char>, i: int) -> int {
    skip_word_left(v, skip_ws_left(v, i))
}

/// Word-right by character class: skip whitespace, then the word after it.
pub open spec fn word_right(v: Seq<char>, i: int) -> int {
    skip_word_right(v, skip_ws_right(v, i))
}

proof fn lemma_skip_left_bounds(v: Seq<char>, i: int)
    requires
        0 <= i <= v.len(),
    ensures
        0 <= skip_ws_left(v, i) <= i,
        0 <= skip_word_left(v, i) <= i,
    decreases i,
{
    if i > 0 {
        lemma_skip_left_bounds(v, i - 1);
    }
}

proof fn lemma_skip_right_bounds(v: Seq<char>, i: int)
    requires
        0 <= i <= v.len(),
    ensures
        i <= skip_ws_right(v, i) <= v.len(),
        i <= skip_word_right(v, i) <= v.len(),
    decreases v.len() - i,
{
    if i < v.len() {
        lemma_skip_right_bounds(v, i + 1);
    }
}

proof fn lemma_skip_ws_right_run(v: Seq<char>, i: int)
    requires
        0 <= i <= v.len(),
    ensures
        forall|k: int| i <= k < skip_ws_right(v, i) ==> is_ws(#[trigger] v[k]),
        skip_ws_right(v, i) == v.len() || !is_ws(v[skip_ws_right(v, i)]),
    decreases v.len() - i,
{
    if i < v.len() && is_ws(v[i]) {
        lemma_skip_ws_right_run(v, i + 1);
    }
}

proof fn lemma_skip_word_right_run(v: Seq<char>, i: int)
    requires
        0 <= i <= v.len(),
    ensures
        forall|k: int| i <= k < skip_word_right(v, i) ==> !is_ws(#[trigger] v[k]),
        skip_word_right(v, i) == v.len() || is_ws(v[skip_word_right(v, i)]),
    decreases v.len() - i,
{
    if i < v.len() && !is_ws(v[i]) {
        lemma_skip_word_right_run(v, i + 1);
    }
}

proof fn lemma_skip_ws_left_run(v: Seq<char>, i: int)
    requires
        0 <= i <= v.len(),
    ensures
        forall|k: int| skip_ws_left(v, i) <= k < i ==> is_ws(#[trigger] v[k]),
        skip_ws_left(v, i) == 0 || !is_ws(v[skip_ws_left(v, i) - 1]),
    decreases i,
{
    if i > 0 && is_ws(v[i - 1]) {
        lemma_skip_ws_left_run(v, i - 1);
    }
}

proof fn lemma_skip_word_left_run(v: Seq<char>, i: int)
    requires
        0 <= i <= v.len(),
    ensures
        forall|k: int| skip_word_left(v, i) <= k < i ==> !is_ws(#[trigger] v[k]),
        skip_word_left(v, i) == 0 || is_ws(v[skip_word_left(v, i) - 1]),
    decreases i,
{
    if i > 0 && !is_ws(v[i - 1]) {
        lemma_skip_word_left_run(v, i - 1);
    }
}

/// `v[lo..mid]` is whitespace running up to a word (or the end), and `v[mid..hi]` is
/// that whole word, running up to whitespace (or the end).
pub open spec fn space_then_word(v: Seq<char>, lo: int, mid: int, hi: int) -> bool {
    &&& 0 <= lo <= mid <= hi <= v.len()
    &&& forall|k: int| lo <= k < mid ==> is_ws(#[trigger] v[k])
    &&& mid == v.len() || !is_ws(v[mid])
    &&& forall|k: int| mid <= k < hi ==> !is_ws(#[trigger] v[k])
    &&& hi == v.len() || is_ws(v[hi])
}

/// `v[lo..mid]` is a whole word, starting after whitespace (or at the start), and
/// `v[mid..hi]` is the whitespace after it.
pub open spec fn word_then_space(v: Seq<char>, lo: int, mid: int, hi: int) -> bool {
    &&& 0 <= lo <= mid <= hi <= v.len()
    &&& lo == 0 || is_ws(v[lo - 1])
    &&& forall|k: int| lo <= k < mid ==> !is_ws(#[trigger] v[k])
    &&& mid == 0 || !is_ws(v[mid - 1])
    &&& forall|k: int| mid <= k < hi ==> is_ws(#[trigger] v[k])
}

/// Word-right from `i` crosses the whitespace after `i` and then the whole word after
/// it (neither run can be extended), so the caret moves strictly forward unless it
/// is at the end already.
pub proof fn word_right_crosses_the_next_word(v: Seq<char>, i: int)
    requires
        0 <= i <= v.len(),
    ensures
        exists|mid: int| #[trigger] space_then_word(v, i, mid, word_right(v, i)),
        i < v.len() ==> word_right(v, i) > i,
{
    let j = skip_ws_right(v, i);
    lemma_skip_right_bounds(v, i);
    lemma_skip_right_bounds(v, j);
    lemma_skip_ws_right_run(v, i);
    lemma_skip_word_right_run(v, j);
    assert(space_then_word(v, i, j, word_right(v, i)));
}

/// Word-left from `i` crosses the whitespace before `i` and then the whole word
/// before it (neither run can be extended), so the caret moves strictly back unless
/// it is at the start already.
pub proof fn word_left_crosses_the_previous_word(v: Seq<char>, i: int)
    requires
        0 <= i <= v.len(),
    ensures
        exists|mid: int| #[trigger] word_then_space(v, word_left(v, i), mid, i),
        i > 0 ==> word_left(v, i) < i,
{
    let j = skip_ws_left(v, i);
    lemma_skip_left_bounds(v, i);
    lemma_skip_left_bounds(v, j);
    lemma_skip_ws_left_run(v, i);
    lemma_skip_word_left_run(v, j);
    assert(word_then_space(v, word_left(v, i), j, i));
}

/// Word-left over characters (used when no shaped layout is available).
pub fn pure_word_left(s: &[char], i: usize) -> (r: usize)
    requires
        i <= s@.len(),
    ensures
        r == word_left(s@, i as int),
        r <= i,
{
    let mut i = i;
    let ghost i0 = i as int;
    while i > 0 && is_whitespace(s[i - 1])
        invariant
            i <= s@.len(),
            skip_ws_left(s@, i as int) == skip_ws_left(s@, i0),
        decreases i,
    {
        i = i - 1;
    }
    let ghost k = i as int;
    assert(skip_ws_left(s@, k) == k);
    while i > 0 && !is_whitespace(s[i - 1])
        invariant
            i <= s@.len(),
            skip_word_left(s@, i as int) == skip_word_left(s@, k),
        decreases i,
    {
        i = i - 1;
    }
    proof {
        lemma_skip_left_bounds(s@, i0);
        lemma_skip_left_bounds(s@, k);
    }
    i
}

/// Word-right over characters (used when no shaped layout is available).
pub fn pure_word_right(s: &[char], i: usize) -> (r: usize)
    requires
        i <= s@.len(),
    ensures
        r == word_right(s@, i as int),
        i <= r <= s@.len(),
{
    let mut i = i;
    let ghost i0 = i as int;
    while i < s.len() && is_whitespace(s[i])
        invariant
            i0 <= i <= s@.len(),
            skip_ws_right(s@, i as int) == skip_ws_right(s@, i0),
        decreases s@.len() - i,
    {
        i = i + 1;
    }
    let ghost k = i as int;
    assert(skip_ws_right(s@, k) == k);
    while i < s.len() && !is_whitespace(s[i])
        invariant
            k <= i <= s@.len(),
            skip_word_right(s@, i as int) == skip_word_right(s@, k),
        decreases s@.len() - i,
    {
        i = i + 1;
    }
    i
}

/// Whether a motion asks the text layout first (it knows lines, bidi and clusters).
pub open spec fn uses_layout(m: Motion, multiline: bool) -> bool {
    match m {
        Motion::LineStart | Motion::LineEnd => multiline,
        Motion::DocStart | Motion::DocEnd => false,
        _ => true,
    }
}

/// Where a motion lands without a layout.
pub open spec fn fallback_target(v: Seq<char>, f: int, m: Motion) -> int {
    match m {
        Motion::Left => if f > 0 { f - 1 } else { 0 },
        Motion::Right => if f < v.len() { f + 1 } else { v.len() as int },
        Motion::WordLeft => word_left(v, f),
        Motion::WordRight => word_right(v, f),
        Motion::LineStart | Motion::DocStart | Motion::Up => 0,
        Motion::LineEnd | Motion::DocEnd | Motion::Down => v.len() as int,
    }
}

/// The new `(anchor, focus)` after a motion: the layout's answer when it is asked
/// and has one, else the character-class fallback (keeping the anchor when
/// extending).
pub open spec fn resolve_spec(
    v: Seq<char>,
    a: usize,
    f: usize,
    m: Motion,
    extend: bool,
    multiline: bool,
    laid: Option<(usize, usize)>,
) -> (usize, usize) {
    if uses_layout(m, multiline) && laid is Some {
        laid->0
    } else {
        let t = fallback_target(v, f as int, m) as usize;
        if extend {
            (a, t)
        } else {
            (t, t)
        }
    }
}

/// Resolve a caret/selection motion, preferring the layout's answer `laid` and
/// falling back to pure logic when none is available.
pub fn resolve_motion(
    v: &[char],
    a: usize,
    f: usize,
    motion: Motion,
    extend: bool,
    multiline: bool,
    laid: Option<(usize, usize)>,
) -> (r: (usize, usize))
    requires
        f <= v@.len(),
    ensures
        r == resolve_spec(v@, a, f, motion, extend, multiline, laid),
        !(uses_layout(motion, multiline) && laid is Some) ==> r.1 <= v@.len(),
{
    let asks = match motion {
        Motion::LineStart | Motion::LineEnd => multiline,
        Motion::DocStart | Motion::DocEnd => false,
        _ => true,
    };
    if asks {
        if let Some(r) = laid {
            return r;
        }
    }
    let target = match motion {
        Motion::Left => if f > 0 {
            f - 1
        } else {
            0
        },
        Motion::Right => if f < v.len() {
            f + 1
        } else {
            v.len()
        },
        Motion::WordLeft => pure_word_left(v, f),
        Motion::WordRight => pure_word_right(v, f),
        Motion::LineStart | Motion::DocStart | Motion::Up => 0,
        Motion::LineEnd | Motion::DocEnd | Motion::Down => v.len(),
    };
    if extend {
        (a, target)
    } else {
        (target, target)
    }
}

// ---------------------------------------------------------------------------
// The edit specification
// ---------------------------------------------------------------------------

/// `t` without line breaks (`\n`, `\r`).
pub open spec fn strip_newlines(t: Seq<char>) -> Seq<char> {
    t.filter(|c: char| c != '\n' && c != '\r')
}

/// `v` with `v[lo..hi]` replaced by `t`.
pub open spec fn splice(v: Seq<char>, lo: int, hi: int, t: Seq<char>) -> Seq<char> {
    v.take(lo) + t + v.skip(hi)
}

/// `a - b`, or 0 when `b > a`.
pub open spec fn sat_sub(a: int, b: int) -> nat {
    if a > b {
        (a - b) as nat
    } else {
        0
    }
}

/// The text an insert actually adds: line breaks dropped (single-line), filtered,
/// and cut to what the length cap leaves room for.
pub open spec fn insert_text(
    t: Seq<char>,
    multiline: bool,
    filter: Option<CharFilter>,
    max_length: Option<usize>,
    len: int,
    sel: int,
) -> Seq<char> {
    let t1 = if multiline {
        t
    } else {
        strip_newlines(t)
    };
    let t2 = match filter {
        Some(fl) => t1.filter(|c: char| filter_allows(fl, c)),
        None => t1,
    };
    match max_length {
        Some(mx) => at_most(t2, sat_sub(mx as int, len - sel)),
        None => t2,
    }
}

/// Records an undo snapshot (dropping the oldest past the limit) and clears redo.
pub open spec fn with_undo(st: EditorView, v: Seq<char>, a: usize, f: usize) -> EditorView {
    let u = st.undo.push((v, a, f));
    EditorView {
        undo: if u.len() > UNDO_LIMIT {
            u.drop_first()
        } else {
            u
        },
        redo: Seq::empty(),
        ..st
    }
}

/// The state after an edit step: the mask reformats a changed value (caret to the
/// end when it differs), then the selection is clamped to the value.
pub open spec fn finish(
    st: EditorView,
    v: Seq<char>,
    a: int,
    f: int,
    changed: bool,
    format: Option<Mask>,
) -> EditorView {
    let (v2, a2, f2) = if changed && format is Some && mask_apply(format->0, v) != v {
        let fm = mask_apply(format->0, v);
        (fm, fm.len() as int, fm.len() as int)
    } else {
        (v, a, f)
    };
    EditorView {
        value: v2,
        anchor: (if a2 <= v2.len() { a2 } else { v2.len() as int }) as usize,
        focus: (if f2 <= v2.len() { f2 } else { v2.len() as int }) as usize,
        ..st
    }
}

/// No effect on the outside world.
pub open spec fn quiet(changed: bool) -> OutcomeView {
    OutcomeView { changed, submitted: false, copied: None, blur: false }
}

/// The result of one editing command on state `st`: the new state and the outcome.
pub open spec fn apply_spec(
    st: EditorView,
    cmd: KeyInput,
    filter: Option<CharFilter>,
    max_length: Option<usize>,
    format: Option<Mask>,
    clip: Seq<char>,
    laid: Option<(usize, usize)>,
) -> (EditorView, OutcomeView) {
    if cmd is Preedit {
        (EditorView { preedit: cmd->Preedit_0@, ..st }, quiet(false))
    } else {
        let st1 = EditorView { preedit: Seq::empty(), ..st };
        let v = st.value;
        let len = v.len() as int;
        let a = if st.anchor <= len { st.anchor as int } else { len };
        let f = if st.focus <= len { st.focus as int } else { len };
        let s0 = if a <= f { a } else { f };
        let s1 = if a <= f { f } else { a };
        let has_sel = s0 != s1;
        let au = a as usize;
        let fu = f as usize;
        match cmd {
            KeyInput::Insert(t) => {
                let ins = insert_text(t@, st.multiline, filter, max_length, len, s1 - s0);
                if ins.len() == 0 {
                    (st1, quiet(false))
                } else {
                    let c = s0 + ins.len();
                    (
                        finish(with_undo(st1, v, au, fu), splice(v, s0, s1, ins), c, c, true, format),
                        quiet(true),
                    )
                }
            },
            KeyInput::Enter => {
                if st.multiline {
                    (
                        finish(
                            with_undo(st1, v, au, fu),
                            splice(v, s0, s1, seq!['\n']),
                            s0 + 1,
                            s0 + 1,
                            true,
                            format,
                        ),
                        quiet(true),
                    )
                } else {
                    (
                        finish(st1, v, a, f, false, format),
                        OutcomeView { changed: false, submitted: true, copied: None, blur: false },
                    )
                }
            },
            KeyInput::Backspace => {
                let su = with_undo(st1, v, au, fu);
                if has_sel {
                    (finish(su, splice(v, s0, s1, Seq::empty()), s0, s0, true, format), quiet(true))
                } else if f > 0 {
                    (
                        finish(su, splice(v, f - 1, f, Seq::empty()), f - 1, f - 1, true, format),
                        quiet(true),
                    )
                } else {
                    (finish(su, v, a, f, false, format), quiet(false))
                }
            },
            KeyInput::Delete => {
                let su = with_undo(st1, v, au, fu);
                if has_sel {
                    (finish(su, splice(v, s0, s1, Seq::empty()), s0, s0, true, format), quiet(true))
                } else if f < len {
                    (finish(su, splice(v, f, f + 1, Seq::empty()), a, f, true, format), quiet(true))
                } else {
                    (finish(su, v, a, f, false, format), quiet(false))
                }
            },
            KeyInput::DeleteWordBack => {
                let su = with_undo(st1, v, au, fu);
                if has_sel {
                    (finish(su, splice(v, s0, s1, Seq::empty()), s0, s0, true, format), quiet(true))
                } else {
                    let t = resolve_spec(v, fu, fu, Motion::WordLeft, false, st.multiline, laid).1 as int;
                    let lo = if t <= f { t } else { f };
                    let hi = if t <= f { f } else { t };
                    (finish(su, splice(v, lo, hi, Seq::empty()), lo, lo, true, format), quiet(true))
                }
            },
            KeyInput::DeleteWordForward => {
                let su = with_undo(st1, v, au, fu);
                if has_sel {
                    (finish(su, splice(v, s0, s1, Seq::empty()), s0, s0, true, format), quiet(true))
                } else {
                    let t = resolve_spec(v, fu, fu, Motion::WordRight, false, st.multiline, laid).1 as int;
                    let lo = if f <= t { f } else { t };
                    let hi = if f <= t { t } else { f };
                    (finish(su, splice(v, lo, hi, Seq::empty()), lo, lo, true, format), quiet(true))
                }
            },
            KeyInput::Move { motion, extend } => {
                let r = resolve_spec(v, au, fu, motion, extend, st.multiline, laid);
                (finish(st1, v, r.0 as int, r.1 as int, false, format), quiet(false))
            },
            KeyInput::SelectAll => (finish(st1, v, 0, len, false, format), quiet(false)),
            KeyInput::Copy => (
                finish(st1, v, a, f, false, format),
                OutcomeView {
                    changed: false,
                    submitted: false,
                    copied: if has_sel {
                        Some(v.subrange(s0, s1))
                    } else {
                        None
                    },
                    blur: false,
                },
            ),
            KeyInput::Cut => {
                if has_sel {
                    (
                        finish(
                            with_undo(st1, v, au, fu),
                            splice(v, s0, s1, Seq::empty()),
                            s0,
                            s0,
                            true,
                            format,
                        ),
                        OutcomeView {
                            changed: true,
                            submitted: false,
                            copied: Some(v.subrange(s0, s1)),
                            blur: false,
                        },
                    )
                } else {
                    (finish(st1, v, a, f, false, format), quiet(false))
                }
            },
            KeyInput::Paste => {
                let p = insert_text(clip, st.multiline, filter, max_length, len, s1 - s0);
                if p.len() > 0 {
                    let c = s0 + p.len();
                    (
                        finish(with_undo(st1, v, au, fu), splice(v, s0, s1, p), c, c, true, format),
                        quiet(true),
                    )
                } else {
                    (finish(st1, v, a, f, false, format), quiet(false))
                }
            },
            KeyInput::Undo => {
                if st.undo.len() > 0 {
                    let (pv, pa, pf) = st.undo.last();
                    let st2 = EditorView {
                        undo: st.undo.drop_last(),
                        redo: st.redo.push((v, au, fu)),
                        ..st1
                    };
                    (finish(st2, pv, pa as int, pf as int, true, format), quiet(true))
                } else {
                    (finish(st1, v, a, f, false, format), quiet(false))
                }
            },
            KeyInput::Redo => {
                if st.redo.len() > 0 {
                    let (nv, na, nf) = st.redo.last();
                    let st2 = EditorView {
                        undo: st.undo.push((v, au, fu)),
                        redo: st.redo.drop_last(),
                        ..st1
                    };
                    (finish(st2, nv, na as int, nf as int, true, format), quiet(true))
                } else {
                    (finish(st1, v, a, f, false, format), quiet(false))
                }
            },
            KeyInput::Escape => (
                st1,
                OutcomeView { changed: false, submitted: false, copied: None, blur: true },
            ),
            KeyInput::Preedit(_) => (st1, quiet(false)),
        }
    }
}

// ---------------------------------------------------------------------------
// The editor
// ---------------------------------------------------------------------------

/// Whether the selection (each end clamped to the value) is empty.
pub open spec fn no_selection(st: EditorView) -> bool {
    let len = st.value.len();
    let a = if st.anchor <= len { st.anchor as int } else { len as int };
    let f = if st.focus <= len { st.focus as int } else { len as int };
    a == f
}

/// What an edit command needs of the layout's answer: a word deletion without a
/// selection cuts up to that answer, which must lie within the value.
pub open spec fn layout_fits(st: EditorView, cmd: KeyInput, laid: Option<(usize, usize)>) -> bool {
    (cmd is DeleteWordBack || cmd is DeleteWordForward) && no_selection(st) ==> (laid matches Some(
        p,
    ) ==> p.1 <= st.value.len())
}

fn strip_nl(t: &[char]) -> (r: Vec<char>)
    ensures
        r@ == strip_newlines(t@),
{
    let mut out: Vec<char> = Vec::new();
    let mut i: usize = 0;
    while i < t.len()
        invariant
            i <= t@.len(),
            out@ == t@.take(i as int).filter(|c: char| c != '\n' && c != '\r'),
        decreases t@.len() - i,
    {
        proof {
            assert(t@.take(i + 1) =~= t@.take(i as int).push(t@[i as int]));
            t@.take(i as int).lemma_filter_push(t@[i as int], |c: char| c != '\n' && c != '\r');
        }
        if t[i] != '\n' && t[i] != '\r' {
            out.push(t[i]);
        }
        i = i + 1;
    }
    assert(t@.take(t@.len() as int) =~= t@);
    out
}

fn keep_allowed(t: &[char], fl: CharFilter) -> (r: Vec<char>)
    ensures
        r@ == t@.filter(|c: char| filter_allows(fl, c)),
{
    let mut out: Vec<char> = Vec::new();
    let mut i: usize = 0;
    while i < t.len()
        invariant
            i <= t@.len(),
            out@ == t@.take(i as int).filter(|c: char| filter_allows(fl, c)),
        decreases t@.len() - i,
    {
        proof {
            assert(t@.take(i + 1) =~= t@.take(i as int).push(t@[i as int]));
            t@.take(i as int).lemma_filter_push(t@[i as int], |c: char| filter_allows(fl, c));
        }
        if fl.allows(t[i]) {
            out.push(t[i]);
        }
        i = i + 1;
    }
    assert(t@.take(t@.len() as int) =~= t@);
    out
}

fn splice_chars(v: &[char], lo: usize, hi: usize, t: &[char]) -> (r: Vec<char>)
    requires
        lo <= hi <= v@.len(),
    ensures
        r@ == splice(v@, lo as int, hi as int, t@),
{
    let mut out = slice_range(v, 0, lo);
    append_chars(&mut out, t);
    let tail = slice_range(v, hi, v.len());
    append_chars(&mut out, &tail);
    proof {
        assert(out@ =~= splice(v@, lo as int, hi as int, t@));
    }
    out
}

/// The text an insert actually adds (see [`insert_text`]).
fn insert_piece(
    t: &[char],
    multiline: bool,
    filter: Option<CharFilter>,
    max_length: Option<usize>,
    len: usize,
    sel: usize,
) -> (r: Vec<char>)
    requires
        sel <= len,
    ensures
        r@ == insert_text(t@, multiline, filter, max_length, len as int, sel as int),
{
    let t1 = if multiline {
        copy_chars(t)
    } else {
        strip_nl(t)
    };
    let t2 = match filter {
        Some(fl) => keep_allowed(&t1, fl),
        None => t1,
    };
    match max_length {
        Some(mx) => {
            let used = len - sel;
            let room = if mx > used {
                mx - used
            } else {
                0
            };
            if t2.len() <= room {
                t2
            } else {
                slice_range(&t2, 0, room)
            }
        },
        None => t2,
    }
}

fn copy_snap(s: &Snap) -> (r: Snap)
    ensures
        r.0@ == s.0@,
        r.1 == s.1,
        r.2 == s.2,
{
    (copy_chars(&s.0), s.1, s.2)
}

impl Editor {
    /// Record an undo snapshot (capped at [`UNDO_LIMIT`]) and clear the redo history.
    fn push_undo(&mut self, v: &[char], a: usize, f: usize)
        ensures
            final(self)@ == with_undo(old(self)@, v@, a, f),
    {
        let ghost before = self@;
        self.undo.push((copy_chars(v), a, f));
        proof {
            assert(snaps_view(self.undo@) =~= before.undo.push((v@, a, f)));
        }
        if self.undo.len() > UNDO_LIMIT {
            self.undo.remove(0);
            proof {
                assert(snaps_view(self.undo@) =~= before.undo.push((v@, a, f)).drop_first());
            }
        }
        self.redo = Vec::new();
        proof {
            assert(snaps_view(self.redo@) =~= Seq::<SnapView>::empty());
        }
    }

    /// Store an edit step's value and selection (masked and clamped, see [`finish`]).
    fn finish(&mut self, v: Vec<char>, a: usize, f: usize, changed: bool, format: Option<Mask>)
        ensures
            final(self)@ == finish(old(self)@, v@, a as int, f as int, changed, format),
    {
        let mut v = v;
        let mut a = a;
        let mut f = f;
        if changed {
            if let Some(m) = format {
                let formatted = apply_mask(m, &v);
                if !chars_eq(&formatted, &v) {
                    v = formatted;
                    a = v.len();
                    f = v.len();
                }
            }
        }
        if a > v.len() {
            a = v.len();
        }
        if f > v.len() {
            f = v.len();
        }
        self.value = v;
        self.anchor = a;
        self.focus = f;
    }

    /// Clears the preedit and reads the value with the selection clamped to it.
    fn begin(&mut self) -> (r: (Vec<char>, usize, usize, usize, usize))
        ensures
            final(self)@ == (EditorView { preedit: Seq::empty(), ..old(self)@ }),
            r.0@ == old(self)@.value,
            r.1 == (if old(self).anchor <= old(self).value@.len() {
                old(self).anchor
            } else {
                old(self).value@.len() as usize
            }),
            r.2 == (if old(self).focus <= old(self).value@.len() {
                old(self).focus
            } else {
                old(self).value@.len() as usize
            }),
            r.3 == (if r.1 <= r.2 { r.1 } else { r.2 }),
            r.4 == (if r.1 <= r.2 { r.2 } else { r.1 }),
    {
        self.preedit = Vec::new();
        let v = copy_chars(&self.value);
        let len = v.len();
        let a = if self.anchor <= len {
            self.anchor
        } else {
            len
        };
        let f = if self.focus <= len {
            self.focus
        } else {
            len
        };
        let (s0, s1) = ordered(a, f);
        (v, a, f, s0, s1)
    }

    fn apply_insert(
        &mut self,
        t: Vec<char>,
        filter: Option<CharFilter>,
        max_length: Option<usize>,
        format: Option<Mask>,
    ) -> (r: EditOutcome)
        ensures
            (final(self)@, r@) == apply_spec(
                old(self)@,
                KeyInput::Insert(t),
                filter,
                max_length,
                format,
                Seq::empty(),
                None,
            ),
    {
        let ghost st = self@;
        let (v, a, f, s0, s1) = self.begin();
        let len = v.len();
        let t3 = insert_piece(&t, self.multiline, filter, max_length, len, s1 - s0);
        if t3.len() == 0 {
            return EditOutcome { changed: false, submitted: false, copied: None, blur: false };
        }
        self.push_undo(&v, a, f);
        let nv = splice_chars(&v, s0, s1, &t3);
        let c = nv.len() - (len - s1);
        self.finish(nv, c, c, true, format);
        EditOutcome { changed: true, submitted: false, copied: None, blur: false }
    }

    fn apply_enter(&mut self, format: Option<Mask>) -> (r: EditOutcome)
        ensures
            (final(self)@, r@) == apply_spec(old(self)@, KeyInput::Enter, None, None, format, Seq::empty(), None),
    {
        let (v, a, f, s0, s1) = self.begin();
        let len = v.len();
        if self.multiline {
            self.push_undo(&v, a, f);
            let mut nl: Vec<char> = Vec::new();
            nl.push('\n');
            let nv = splice_chars(&v, s0, s1, &nl);
            let c = nv.len() - (len - s1);
            self.finish(nv, c, c, true, format);
            EditOutcome { changed: true, submitted: false, copied: None, blur: false }
        } else {
            self.finish(v, a, f, false, format);
            EditOutcome { changed: false, submitted: true, copied: None, blur: false }
        }
    }

    fn apply_backspace(&mut self, format: Option<Mask>) -> (r: EditOutcome)
        ensures
            (final(self)@, r@) == apply_spec(old(self)@, KeyInput::Backspace, None, None, format, Seq::empty(), None),
    {
        let (v, a, f, s0, s1) = self.begin();
        self.push_undo(&v, a, f);
        if s0 != s1 {
            let nv = splice_chars(&v, s0, s1, &[]);
            self.finish(nv, s0, s0, true, format);
            EditOutcome { changed: true, submitted: false, copied: None, blur: false }
        } else if f > 0 {
            let nv = splice_chars(&v, f - 1, f, &[]);
            self.finish(nv, f - 1, f - 1, true, format);
            EditOutcome { changed: true, submitted: false, copied: None, blur: false }
        } else {
            self.finish(v, a, f, false, format);
            EditOutcome { changed: false, submitted: false, copied: None, blur: false }
        }
    }

    fn apply_delete(&mut self, format: Option<Mask>) -> (r: EditOutcome)
        ensures
            (final(self)@, r@) == apply_spec(old(self)@, KeyInput::Delete, None, None, format, Seq::empty(), None),
    {
        let (v, a, f, s0, s1) = self.begin();
        let len = v.len();
        self.push_undo(&v, a, f);
        if s0 != s1 {
            let nv = splice_chars(&v, s0, s1, &[]);
            self.finish(nv, s0, s0, true, format);
            EditOutcome { changed: true, submitted: false, copied: None, blur: false }
        } else if f < len {
            let nv = splice_chars(&v, f, f + 1, &[]);
            self.finish(nv, a, f, true, format);
            EditOutcome { changed: true, submitted: false, copied: None, blur: false }
        } else {
            self.finish(v, a, f, false, format);
            EditOutcome { changed: false, submitted: false, copied: None, blur: false }
        }
    }

    fn apply_delete_word(&mut self, back: bool, format: Option<Mask>, laid: Option<(usize, usize)>) -> (r: EditOutcome)
        requires
            layout_fits(old(self)@, if back { KeyInput::DeleteWordBack } else { KeyInput::DeleteWordForward }, laid),
        ensures
            (final(self)@, r@) == apply_spec(
                old(self)@,
                if back { KeyInput::DeleteWordBack } else { KeyInput::DeleteWordForward },
                None,
                None,
                format,
                Seq::empty(),
                laid,
            ),
    {
        let (v, a, f, s0, s1) = self.begin();
        self.push_undo(&v, a, f);
        if s0 != s1 {
            let nv = splice_chars(&v, s0, s1, &[]);
            self.finish(nv, s0, s0, true, format);
        } else if back {
            let t = resolve_motion(&v, f, f, Motion::WordLeft, false, self.multiline, laid).1;
            let (lo, hi) = ordered(t, f);
            let nv = splice_chars(&v, lo, hi, &[]);
            self.finish(nv, lo, lo, true, format);
        } else {
            let t = resolve_motion(&v, f, f, Motion::WordRight, false, self.multiline, laid).1;
            let (lo, hi) = ordered(f, t);
            let nv = splice_chars(&v, lo, hi, &[]);
            self.finish(nv, lo, lo, true, format);
        }
        EditOutcome { changed: true, submitted: false, copied: None, blur: false }
    }

    fn apply_move(
        &mut self,
        motion: Motion,
        extend: bool,
        format: Option<Mask>,
        laid: Option<(usize, usize)>,
    ) -> (r: EditOutcome)
        ensures
            (final(self)@, r@) == apply_spec(
                old(self)@,
                KeyInput::Move { motion, extend },
                None,
                None,
                format,
                Seq::empty(),
                laid,
            ),
    {
        let (v, a, f, s0, s1) = self.begin();
        let (na, nf) = resolve_motion(&v, a, f, motion, extend, self.multiline, laid);
        self.finish(v, na, nf, false, format);
        EditOutcome { changed: false, submitted: false, copied: None, blur: false }
    }

    fn apply_select_all(&mut self, format: Option<Mask>) -> (r: EditOutcome)
        ensures
            (final(self)@, r@) == apply_spec(old(self)@, KeyInput::SelectAll, None, None, format, Seq::empty(), None),
    {
        let (v, a, f, s0, s1) = self.begin();
        let len = v.len();
        self.finish(v, 0, len, false, format);
        EditOutcome { changed: false, submitted: false, copied: None, blur: false }
    }

    fn apply_copy(&mut self, cut: bool, format: Option<Mask>) -> (r: EditOutcome)
        ensures
            (final(self)@, r@) == apply_spec(
                old(self)@,
                if cut { KeyInput::Cut } else { KeyInput::Copy },
                None,
                None,
                format,
                Seq::empty(),
                None,
            ),
    {
        let (v, a, f, s0, s1) = self.begin();
        if s0 != s1 {
            let copied = slice_range(&v, s0, s1);
            if cut {
                self.push_undo(&v, a, f);
                let nv = splice_chars(&v, s0, s1, &[]);
                self.finish(nv, s0, s0, true, format);
                EditOutcome { changed: true, submitted: false, copied: Some(copied), blur: false }
            } else {
                self.finish(v, a, f, false, format);
                EditOutcome { changed: false, submitted: false, copied: Some(copied), blur: false }
            }
        } else {
            self.finish(v, a, f, false, format);
            EditOutcome { changed: false, submitted: false, copied: None, blur: false }
        }
    }

    fn apply_paste(
        &mut self,
        filter: Option<CharFilter>,
        max_length: Option<usize>,
        format: Option<Mask>,
        clip: &[char],
    ) -> (r: EditOutcome)
        ensures
            (final(self)@, r@) == apply_spec(
                old(self)@,
                KeyInput::Paste,
                filter,
                max_length,
                format,
                clip@,
                None,
            ),
    {
        let (v, a, f, s0, s1) = self.begin();
        let len = v.len();
        let p = insert_piece(clip, self.multiline, filter, max_length, len, s1 - s0);
        if p.len() > 0 {
            self.push_undo(&v, a, f);
            let nv = splice_chars(&v, s0, s1, &p);
            let c = nv.len() - (len - s1);
            self.finish(nv, c, c, true, format);
            EditOutcome { changed: true, submitted: false, copied: None, blur: false }
        } else {
            self.finish(v, a, f, false, format);
            EditOutcome { changed: false, submitted: false, copied: None, blur: false }
        }
    }

    fn apply_history(&mut self, undo: bool, format: Option<Mask>) -> (r: EditOutcome)
        ensures
            (final(self)@, r@) == apply_spec(
                old(self)@,
                if undo { KeyInput::Undo } else { KeyInput::Redo },
                None,
                None,
                format,
                Seq::empty(),
                None,
            ),
    {
        let (v, a, f, s0, s1) = self.begin();
        if undo && self.undo.len() > 0 {
            let last = self.undo.len() - 1;
            let snap = copy_snap(&self.undo[last]);
            let ghost before = self@;
            self.redo.push((copy_chars(&v), a, f));
            self.undo.pop();
            proof {
                assert(snaps_view(self.redo@) =~= before.redo.push((v@, a, f)));
                assert(snaps_view(self.undo@) =~= before.undo.drop_last());
            }
            let (pv, pa, pf) = snap;
            self.finish(pv, pa, pf, true, format);
            EditOutcome { changed: true, submitted: false, copied: None, blur: false }
        } else if !undo && self.redo.len() > 0 {
            let last = self.redo.len() - 1;
            let snap = copy_snap(&self.redo[last]);
            let ghost before = self@;
            self.undo.push((copy_chars(&v), a, f));
            self.redo.pop();
            proof {
                assert(snaps_view(self.undo@) =~= before.undo.push((v@, a, f)));
                assert(snaps_view(self.redo@) =~= before.redo.drop_last());
            }
            let (nv, na, nf) = snap;
            self.finish(nv, na, nf, true, format);
            EditOutcome { changed: true, submitted: false, copied: None, blur: false }
        } else {
            self.finish(v, a, f, false, format);
            EditOutcome { changed: false, submitted: false, copied: None, blur: false }
        }
    }

    /// Apply one editing command. `filter` restricts insertable characters,
    /// `max_length` caps the total character count, `format` re-masks the value after
    /// a change, `clip` is the clipboard text (for a paste) and `laid` the text
    /// layout's answer for the command's caret motion, if it has one.
    pub fn apply(
        &mut self,
        cmd: KeyInput,
        filter: Option<CharFilter>,
        max_length: Option<usize>,
        format: Option<Mask>,
        clip: &[char],
        laid: Option<(usize, usize)>,
    ) -> (r: EditOutcome)
        requires
            layout_fits(old(self)@, cmd, laid),
        ensures
            (final(self)@, r@) == apply_spec(old(self)@, cmd, filter, max_length, format, clip@, laid),
    {
        match cmd {
            KeyInput::Preedit(t) => {
                self.preedit = t;
                EditOutcome { changed: false, submitted: false, copied: None, blur: false }
            },
            KeyInput::Insert(t) => self.apply_insert(t, filter, max_length, format),
            KeyInput::Enter => self.apply_enter(format),
            KeyInput::Backspace => self.apply_backspace(format),
            KeyInput::Delete => self.apply_delete(format),
            KeyInput::DeleteWordBack => self.apply_delete_word(true, format, laid),
            KeyInput::DeleteWordForward => self.apply_delete_word(false, format, laid),
            KeyInput::Move { motion, extend } => self.apply_move(motion, extend, format, laid),
            KeyInput::SelectAll => self.apply_select_all(format),
            KeyInput::Copy => self.apply_copy(false, format),
            KeyInput::Cut => self.apply_copy(true, format),
            KeyInput::Paste => self.apply_paste(filter, max_length, format, clip),
            KeyInput::Undo => self.apply_history(true, format),
            KeyInput::Redo => self.apply_history(false, format),
            KeyInput::Escape => {
                self.preedit = Vec::new();
                EditOutcome { changed: false, submitted: false, copied: None, blur: true }
            },
        }
    }
}

impl Editor {
    /// A pointer press placed the caret at layout position `hit` (the start when
    /// the layout has no answer), clamped to the text; with `extend` (Shift held)
    /// the anchor stays and the selection grows.
    pub fn place_caret(&mut self, hit: Option<usize>, extend: bool)
        ensures
            ({
                let p = match hit {
                    Some(h) => if h < old(self).value.len() { h } else { old(self).value.len() },
                    None => 0,
                };
                &&& final(self).focus == p
                &&& final(self).anchor == if extend { old(self).anchor } else { p }
                &&& final(self).value@ == old(self).value@
                &&& final(self).preedit@ == old(self).preedit@
                &&& final(self).undo@ == old(self).undo@
                &&& final(self).redo@ == old(self).redo@
                &&& final(self).multiline == old(self).multiline
            }),
    {
        let len = self.value.len();
        let p = match hit {
            Some(h) => if h < len { h } else { len },
            None => 0,
        };
        if !extend {
            self.anchor = p;
        }
        self.focus = p;
    }

    /// A search field's clear button: the text empties and the caret goes to the
    /// start (the history is kept).
    pub fn clear(&mut self)
        ensures
            final(self).value@ == Seq::<char>::empty(),
            final(self).anchor == 0,
            final(self).focus == 0,
            final(self).preedit@ == old(self).preedit@,
            final(self).undo@ == old(self).undo@,
            final(self).redo@ == old(self).redo@,
            final(self).multiline == old(self).multiline,
    {
        self.value = Vec::new();
        self.anchor = 0;
        self.focus = 0;
    }
}

/// A text field callback, fired after a key.
#[derive(Clone, Copy, Debug, PartialEq, Eq, Structural)]
pub enum FieldEvent {
    /// `on_changed`, with the new text.
    Changed,
    /// `on_editing_complete`.
    EditingComplete,
    /// `on_submit`, with the text.
    Submit,
}

/// Which of a field's callbacks are set.
#[derive(Clone, Copy, Debug, PartialEq, Eq, Structural)]
pub struct FieldCallbacks {
    pub on_changed: bool,
    pub on_editing_complete: bool,
    pub on_submit: bool,
}

/// The callbacks an edit outcome fires, in order: `on_changed` when the text
/// changed, then on a submit `on_editing_complete` followed by `on_submit` (each only
/// when set).
pub open spec fn field_events(o: OutcomeView, cb: FieldCallbacks) -> Seq<FieldEvent> {
    (if o.changed && cb.on_changed {
        seq![FieldEvent::Changed]
    } else {
        Seq::empty()
    }) + (if o.submitted && cb.on_editing_complete {
        seq![FieldEvent::EditingComplete]
    } else {
        Seq::empty()
    }) + (if o.submitted && cb.on_submit {
        seq![FieldEvent::Submit]
    } else {
        Seq::empty()
    })
}

/// A key reaching a live text field. The list-navigation consumer, if the field has
/// one, sees the key first: `consumed` is its answer, and a consumed key leaves the
/// field alone and fires nothing. Otherwise the editor applies the key and the
/// callbacks of [`field_events`] fire, in that order.
pub fn field_key(
    ed: &mut Editor,
    k: KeyInput,
    consumed: bool,
    filter: Option<CharFilter>,
    max_length: Option<usize>,
    format: Option<Mask>,
    clip: &[char],
    laid: Option<(usize, usize)>,
    cb: FieldCallbacks,
) -> (r: (Option<EditOutcome>, Vec<FieldEvent>))
    requires
        !consumed ==> layout_fits(old(ed)@, k, laid),
    ensures
        consumed ==> final(ed)@ == old(ed)@ && r.0 is None && r.1@ == Seq::<FieldEvent>::empty(),
        !consumed ==> (r.0 matches Some(o) && (final(ed)@, o@) == apply_spec(
            old(ed)@,
            k,
            filter,
            max_length,
            format,
            clip@,
            laid,
        ) && r.1@ == field_events(o@, cb)),
{
    let mut events: Vec<FieldEvent> = Vec::new();
    if consumed {
        return (None, events);
    }
    let o = ed.apply(k, filter, max_length, format, clip, laid);
    if o.changed && cb.on_changed {
        events.push(FieldEvent::Changed);
    }
    if o.submitted {
        if cb.on_editing_complete {
            events.push(FieldEvent::EditingComplete);
        }
        if cb.on_submit {
            events.push(FieldEvent::Submit);
        }
    }
    proof {
        assert(events@ =~= field_events(o@, cb));
    }
    (Some(o), events)
}

/// The characters of `t` a caller's filter kept, `keep[i]` being its answer for `t[i]`.
pub open spec fn kept_by(t: Seq<char>, keep: Seq<bool>) -> Seq<char>
    decreases t.len(),
{
    if t.len() == 0 || keep.len() == 0 {
        Seq::empty()
    } else {
        let rest = kept_by(t.drop_last(), keep.drop_last());
        if keep.last() {
            rest.push(t.last())
        } else {
            rest
        }
    }
}

/// `keep` holds, for each character of `t`, an answer the filter `f` may give for it.
pub open spec fn answers_of<F: Fn(char) -> bool>(f: F, t: Seq<char>, keep: Seq<bool>) -> bool {
    &&& keep.len() == t.len()
    &&& forall|i: int| 0 <= i < t.len() ==> call_ensures(f, (t[i],), #[trigger] keep[i])
}

/// The characters of `t` that `f` accepts, asked in order.
fn keep_chars<F: Fn(char) -> bool>(f: &F, t: &[char]) -> (r: Vec<char>)
    requires
        forall|c: char| call_requires(*f, (c,)),
    ensures
        exists|keep: Seq<bool>| answers_of(*f, t@, keep) && r@ == kept_by(t@, keep),
{
    let ghost mut keep: Seq<bool> = Seq::empty();
    let mut out: Vec<char> = Vec::new();
    let mut i: usize = 0;
    while i < t.len()
        invariant
            i <= t@.len(),
            forall|c: char| call_requires(*f, (c,)),
            answers_of(*f, t@.take(i as int), keep),
            out@ == kept_by(t@.take(i as int), keep),
        decreases t@.len() - i,
    {
        let c = t[i];
        let b = f(c);
        proof {
            let prev = keep;
            keep = keep.push(b);
            assert(t@.take(i + 1).drop_last() =~= t@.take(i as int));
            assert(keep.drop_last() =~= prev);
            assert forall|j: int| 0 <= j < i + 1 implies call_ensures(
                *f,
                (t@.take(i + 1)[j],),
                #[trigger] keep[j],
            ) by {
                if j < i {
                    assert(keep[j] == prev[j]);
                    assert(t@.take(i + 1)[j] == t@.take(i as int)[j]);
                }
            }
        }
        if b {
            out.push(c);
        }
        i = i + 1;
    }
    proof {
        assert(t@.take(t@.len() as int) =~= t@);
    }
    out
}

/// The text a typed or pasted command brings: `t` for an insert, the clipboard text
/// for a paste, without line breaks in a single-line editor.
pub open spec fn brought_text(cmd: KeyInput, clip: Seq<char>, multiline: bool) -> Seq<char> {
    let text = match cmd {
        KeyInput::Insert(t) => t@,
        _ => clip,
    };
    if multiline {
        text
    } else {
        strip_newlines(text)
    }
}

impl Editor {
    /// [`Editor::apply`] with a filter of the caller's own in place of a fixed kind:
    /// typed or pasted text loses its line breaks (single-line), keeps the
    /// characters `filter` accepts (asked once each, in order), and is cut to the
    /// length cap. Other commands behave as with no filter.
    #[verifier::rlimit(100)]
    #[verifier::spinoff_prover]
    pub fn apply_filtered<F: Fn(char) -> bool>(
        &mut self,
        cmd: KeyInput,
        filter: &F,
        max_length: Option<usize>,
        format: Option<Mask>,
        clip: &[char],
        laid: Option<(usize, usize)>,
    ) -> (r: EditOutcome)
        requires
            layout_fits(old(self)@, cmd, laid),
            forall|c: char| call_requires(*filter, (c,)),
        ensures
            !(cmd is Insert || cmd is Paste) ==> (final(self)@, r@) == apply_spec(
                old(self)@,
                cmd,
                None,
                max_length,
                format,
                clip@,
                laid,
            ),
            cmd is Insert ==> exists|keep: Seq<bool>, kept: Vec<char>|
                #![trigger answers_of(*filter, brought_text(cmd, clip@, old(self).multiline), keep), kept@]
                answers_of(*filter, brought_text(cmd, clip@, old(self).multiline), keep) && kept@
                    == kept_by(brought_text(cmd, clip@, old(self).multiline), keep) && (
                final(self)@,
                r@,
            ) == apply_spec(old(self)@, KeyInput::Insert(kept), None, max_length, format, clip@, laid),
            cmd is Paste ==> exists|keep: Seq<bool>|
                #![trigger answers_of(*filter, brought_text(cmd, clip@, old(self).multiline), keep)]
                answers_of(*filter, brought_text(cmd, clip@, old(self).multiline), keep) && (
                final(self)@,
                r@,
            ) == apply_spec(
                old(self)@,
                KeyInput::Paste,
                None,
                max_length,
                format,
                kept_by(brought_text(cmd, clip@, old(self).multiline), keep),
                laid,
            ),
    {
        let ghost st = self@;
        match cmd {
            KeyInput::Insert(t) => {
                let t1 = if self.multiline {
                    copy_chars(&t)
                } else {
                    strip_nl(&t)
                };
                proof {
                    assert(t1@ == brought_text(cmd, clip@, st.multiline));
                }
                let kept = keep_chars(filter, &t1);
                let ghost keep = choose|keep: Seq<bool>|
                    answers_of(*filter, t1@, keep) && kept@ == kept_by(t1@, keep);
                let ghost kc: Vec<char> = kept;
                let r = self.apply(KeyInput::Insert(kept), None, max_length, format, clip, laid);
                proof {
                    assert(answers_of(*filter, brought_text(cmd, clip@, st.multiline), keep));
                    assert(kc@ == kept_by(brought_text(cmd, clip@, st.multiline), keep));
                }
                r
            },
            KeyInput::Paste => {
                let t1 = if self.multiline {
                    copy_chars(clip)
                } else {
                    strip_nl(clip)
                };
                proof {
                    assert(t1@ == brought_text(cmd, clip@, st.multiline));
                }
                let kept = keep_chars(filter, &t1);
                let ghost keep = choose|keep: Seq<bool>|
                    answers_of(*filter, t1@, keep) && kept@ == kept_by(t1@, keep);
                let r = self.apply(KeyInput::Paste, None, max_length, format, &kept, laid);
                proof {
                    assert(answers_of(*filter, brought_text(cmd, clip@, st.multiline), keep));
                }
                r
            },
            _ => self.apply(cmd, None, max_length, format, clip, laid),
        }
    }
}

/// The state after a formatter turned the value into `fm`: when `fm` differs, it
/// becomes the value with the caret at its end.
pub open spec fn reformatted(st: EditorView, fm: Seq<char>) -> EditorView {
    if fm != st.value {
        EditorView { value: fm, anchor: fm.len() as usize, focus: fm.len() as usize, ..st }
    } else {
        st
    }
}

impl Editor {
    /// Input masking with a formatter of the caller's own (run after
    /// [`Editor::apply_filtered`] or [`Editor::apply`] with no fixed mask): when the
    /// edit `changed` the text, `format` gets the value, and a different result
    /// replaces it with the caret at its end. Nothing happens without a change.
    pub fn reformat_with<G: Fn(&str) -> String>(&mut self, changed: bool, format: &G)
        requires
            forall|s: &str| call_requires(*format, (s,)),
        ensures
            !changed ==> final(self)@ == old(self)@,
            changed ==> exists|arg: &str, out: String|
                #![trigger call_ensures(*format, (arg,), out)]
                arg@ == old(self)@.value && call_ensures(*format, (arg,), out) && final(self)@
                    == reformatted(old(self)@, out@),
    {
        if !changed {
            return;
        }
        let s = string_of(&self.value);
        let arg = s.as_str();
        let out = format(arg);
        let fm = chars_of(out.as_str());
        if !chars_eq(&fm, &self.value) {
            let n = fm.len();
            self.value = fm;
            self.anchor = n;
            self.focus = n;
        }
        proof {
            assert(arg@ == old(self)@.value);
        }
    }
}

// ---------------------------------------------------------------------------
// Laws
// ---------------------------------------------------------------------------

/// The selection lies within the text.
pub open spec fn selection_in_text(st: EditorView) -> bool {
    st.anchor <= st.value.len() && st.focus <= st.value.len()
}

proof fn lemma_finish_in_text()
    ensures
        forall|st: EditorView, v: Seq<char>, a: int, f: int, c: bool, fm: Option<Mask>|
            a >= 0 && f >= 0 ==> #[trigger] selection_in_text(finish(st, v, a, f, c, fm)),
{
}

/// Every command keeps the selection within the text.
#[verifier::rlimit(100)]
#[verifier::spinoff_prover]
pub proof fn edits_keep_selection_in_text(
    st: EditorView,
    cmd: KeyInput,
    filter: Option<CharFilter>,
    max_length: Option<usize>,
    format: Option<Mask>,
    clip: Seq<char>,
    laid: Option<(usize, usize)>,
)
    requires
        selection_in_text(st),
    ensures
        selection_in_text(apply_spec(st, cmd, filter, max_length, format, clip, laid).0),
{
    lemma_finish_in_text();
    let v = st.value;
    match cmd {
        KeyInput::DeleteWordBack => {
            lemma_skip_left_bounds(v, st.focus as int);
            lemma_skip_left_bounds(v, skip_ws_left(v, st.focus as int));
        },
        KeyInput::DeleteWordForward => {
            lemma_skip_right_bounds(v, st.focus as int);
            lemma_skip_right_bounds(v, skip_ws_right(v, st.focus as int));
        },
        KeyInput::Move { motion, extend } => {
            lemma_skip_left_bounds(v, st.focus as int);
            lemma_skip_left_bounds(v, skip_ws_left(v, st.focus as int));
            lemma_skip_right_bounds(v, st.focus as int);
            lemma_skip_right_bounds(v, skip_ws_right(v, st.focus as int));
        },
        _ => {},
    }
}

/// A text-changing edit (other than undo/redo) records the state before it.
#[verifier::rlimit(100)]
#[verifier::spinoff_prover]
proof fn lemma_edit_records_undo(
    st: EditorView,
    cmd: KeyInput,
    filter: Option<CharFilter>,
    max_length: Option<usize>,
    format: Option<Mask>,
    clip: Seq<char>,
    laid: Option<(usize, usize)>,
)
    requires
        selection_in_text(st),
        !(cmd is Undo),
        !(cmd is Redo),
        apply_spec(st, cmd, filter, max_length, format, clip, laid).1.changed,
    ensures
        apply_spec(st, cmd, filter, max_length, format, clip, laid).0.undo.len() > 0,
        apply_spec(st, cmd, filter, max_length, format, clip, laid).0.undo.last() == (
            st.value,
            st.anchor,
            st.focus,
        ),
{
    match cmd {
        KeyInput::Insert(t) => {},
        KeyInput::Enter => {},
        KeyInput::Backspace => {},
        KeyInput::Delete => {},
        KeyInput::DeleteWordBack => {},
        KeyInput::DeleteWordForward => {},
        KeyInput::Cut => {},
        KeyInput::Paste => {},
        _ => {},
    }
}

/// What a typed or pasted text contributes: only characters the filter allows, and
/// no more than the length cap leaves room for.
proof fn lemma_insert_text_bounds(
    t: Seq<char>,
    multiline: bool,
    filter: Option<CharFilter>,
    mx: usize,
    len: int,
    sel: int,
)
    requires
        0 <= sel <= len <= mx,
    ensures
        insert_text(t, multiline, filter, Some(mx), len, sel).len() <= mx - (len - sel),
        filter matches Some(fl) ==> forall|i: int|
            0 <= i < insert_text(t, multiline, filter, Some(mx), len, sel).len() ==> filter_allows(
                fl,
                #[trigger] insert_text(t, multiline, filter, Some(mx), len, sel)[i],
            ),
{
    let t1 = if multiline {
        t
    } else {
        strip_newlines(t)
    };
    if let Some(fl) = filter {
        let pred = |c: char| filter_allows(fl, c);
        let t2 = t1.filter(pred);
        let ins = insert_text(t, multiline, filter, Some(mx), len, sel);
        assert forall|i: int| 0 <= i < ins.len() implies filter_allows(fl, #[trigger] ins[i]) by {
            t1.lemma_filter_pred(pred, i);
            assert(ins[i] == t2[i]);
        }
    }
}

/// Typed or pasted text is held to the filter and the length cap: the selection is
/// replaced by characters the filter allows (the value is left as it is when none
/// remain), and a value within `max_length` stays within it (with no mask
/// reformatting the value).
pub proof fn inserts_respect_filter_and_cap(
    st: EditorView,
    cmd: KeyInput,
    filter: Option<CharFilter>,
    mx: usize,
    clip: Seq<char>,
    laid: Option<(usize, usize)>,
)
    requires
        selection_in_text(st),
        st.value.len() <= mx,
        cmd is Insert || cmd is Paste,
    ensures
        ({
            let after = apply_spec(st, cmd, filter, Some(mx), None, clip, laid).0;
            let v = st.value;
            let s0 = if st.anchor <= st.focus { st.anchor as int } else { st.focus as int };
            let s1 = if st.anchor <= st.focus { st.focus as int } else { st.anchor as int };
            let text = match cmd {
                KeyInput::Insert(t) => t@,
                _ => clip,
            };
            let ins = insert_text(text, st.multiline, filter, Some(mx), v.len() as int, s1 - s0);
            &&& after.value.len() <= mx
            &&& ins.len() == 0 ==> after.value == v
            &&& ins.len() > 0 ==> after.value == splice(v, s0, s1, ins)
            &&& filter matches Some(fl) ==> forall|i: int|
                0 <= i < ins.len() ==> filter_allows(fl, #[trigger] ins[i])
        }),
{
    let v = st.value;
    let s0 = if st.anchor <= st.focus { st.anchor as int } else { st.focus as int };
    let s1 = if st.anchor <= st.focus { st.focus as int } else { st.anchor as int };
    let text = match cmd {
        KeyInput::Insert(t) => t@,
        _ => clip,
    };
    lemma_insert_text_bounds(text, st.multiline, filter, mx, v.len() as int, s1 - s0);
}

/// Undo brings back the last recorded state (when its selection lies in its text and
/// the mask leaves its text as it is), and records the current state for redo.
#[verifier::rlimit(100)]
#[verifier::spinoff_prover]
proof fn lemma_undo_restores(st: EditorView, format: Option<Mask>, laid: Option<(usize, usize)>)
    requires
        selection_in_text(st),
        st.undo.len() > 0,
        st.undo.last().1 <= st.undo.last().0.len(),
        st.undo.last().2 <= st.undo.last().0.len(),
        format matches Some(m) ==> mask_apply(m, st.undo.last().0) == st.undo.last().0,
    ensures
        ({
            let back = apply_spec(st, KeyInput::Undo, None, None, format, Seq::empty(), laid).0;
            &&& back.value == st.undo.last().0
            &&& back.anchor == st.undo.last().1
            &&& back.focus == st.undo.last().2
            &&& back.redo.last() == (st.value, st.anchor, st.focus)
        }),
{
}

/// Undo right after a text-changing edit restores the text and the selection from
/// before the edit, and keeps the edited state for redo (with a mask, for a text the
/// mask leaves as it is).
pub proof fn undo_reverts_an_edit(
    st: EditorView,
    cmd: KeyInput,
    filter: Option<CharFilter>,
    max_length: Option<usize>,
    format: Option<Mask>,
    clip: Seq<char>,
    laid: Option<(usize, usize)>,
    laid2: Option<(usize, usize)>,
)
    requires
        selection_in_text(st),
        format matches Some(m) ==> mask_apply(m, st.value) == st.value,
        !(cmd is Undo),
        !(cmd is Redo),
        apply_spec(st, cmd, filter, max_length, format, clip, laid).1.changed,
    ensures
        ({
            let edited = apply_spec(st, cmd, filter, max_length, format, clip, laid).0;
            let back = apply_spec(edited, KeyInput::Undo, None, None, format, Seq::empty(), laid2).0;
            &&& back.value == st.value
            &&& back.anchor == st.anchor
            &&& back.focus == st.focus
            &&& back.redo.last() == (edited.value, edited.anchor, edited.focus)
        }),
{
    let edited = apply_spec(st, cmd, filter, max_length, format, clip, laid).0;
    lemma_edit_records_undo(st, cmd, filter, max_length, format, clip, laid);
    edits_keep_selection_in_text(st, cmd, filter, max_length, format, clip, laid);
    lemma_undo_restores(edited, format, laid2);
}

/// Redo brings back the last undone state (when the mask leaves its text as it is),
/// and records the current state for undo.
#[verifier::rlimit(100)]
#[verifier::spinoff_prover]
proof fn lemma_redo_restores(st: EditorView, format: Option<Mask>, laid: Option<(usize, usize)>)
    requires
        st.redo.len() > 0,
        st.redo.last().1 <= st.redo.last().0.len(),
        st.redo.last().2 <= st.redo.last().0.len(),
        format matches Some(m) ==> mask_apply(m, st.redo.last().0) == st.redo.last().0,
    ensures
        ({
            let fwd = apply_spec(st, KeyInput::Redo, None, None, format, Seq::empty(), laid).0;
            &&& fwd.value == st.redo.last().0
            &&& fwd.anchor == st.redo.last().1
            &&& fwd.focus == st.redo.last().2
            &&& fwd.undo.last() == (
                st.value,
                (if st.anchor <= st.value.len() { st.anchor as int } else { st.value.len() as int }) as usize,
                (if st.focus <= st.value.len() { st.focus as int } else { st.value.len() as int }) as usize,
            )
        }),
{
}

/// Redo right after an undo brings back the text and selection the undo replaced
/// (with a mask, for texts the mask leaves as they are).
pub proof fn redo_reverts_an_undo(
    st: EditorView,
    format: Option<Mask>,
    laid: Option<(usize, usize)>,
    laid2: Option<(usize, usize)>,
)
    requires
        selection_in_text(st),
        format matches Some(m) ==> mask_apply(m, st.value) == st.value && mask_apply(
            m,
            st.undo.last().0,
        ) == st.undo.last().0,
        st.undo.len() > 0,
        st.undo.last().1 <= st.undo.last().0.len(),
        st.undo.last().2 <= st.undo.last().0.len(),
    ensures
        ({
            let undone = apply_spec(st, KeyInput::Undo, None, None, format, Seq::empty(), laid).0;
            let redone = apply_spec(undone, KeyInput::Redo, None, None, format, Seq::empty(), laid2).0;
            &&& redone.value == st.value
            &&& redone.anchor == st.anchor
            &&& redone.focus == st.focus
            &&& redone.undo.last() == st.undo.last()
        }),
{
    let undone = apply_spec(st, KeyInput::Undo, None, None, format, Seq::empty(), laid).0;
    lemma_undo_restores(st, format, laid);
    assert(undone.redo.len() > 0);
    lemma_redo_restores(undone, format, laid2);
}

/// The deleting keys at a caret `f` (no selection, no mask): Backspace removes the
/// character before the caret and steps back onto its place, Delete removes the
/// character after it and keeps the caret; at the start (end) of the text they change
/// nothing.
pub proof fn deletes_remove_one_character(
    st: EditorView,
    filter: Option<CharFilter>,
    max_length: Option<usize>,
    clip: Seq<char>,
    laid: Option<(usize, usize)>,
)
    requires
        st.anchor == st.focus,
        st.focus <= st.value.len(),
    ensures
        ({
            let v = st.value;
            let f = st.focus as int;
            let (b, rb) = apply_spec(st, KeyInput::Backspace, filter, max_length, None, clip, laid);
            let (d, rd) = apply_spec(st, KeyInput::Delete, filter, max_length, None, clip, laid);
            &&& f > 0 ==> b.value == v.take(f - 1) + v.skip(f) && b.focus == f - 1 && b.anchor == f - 1
                && rb.changed
            &&& f == 0 ==> b.value == v && !rb.changed
            &&& f < v.len() ==> d.value == v.take(f) + v.skip(f + 1) && d.focus == f && d.anchor == f
                && rd.changed
            &&& f == v.len() ==> d.value == v && !rd.changed
        }),
{
    let v = st.value;
    let f = st.focus as int;
    if f > 0 {
        assert(splice(v, f - 1, f, Seq::empty()) =~= v.take(f - 1) + v.skip(f));
    }
    if f < v.len() {
        assert(splice(v, f, f + 1, Seq::empty()) =~= v.take(f) + v.skip(f + 1));
    }
}

/// Typing text at a caret `f` (no selection, no filter, cap or mask, and text with no
/// line breaks) puts it between the text before and after the caret, with the caret
/// right after it; typing nothing changes nothing.
pub proof fn typing_inserts_at_the_caret(
    st: EditorView,
    t: Vec<char>,
    clip: Seq<char>,
    laid: Option<(usize, usize)>,
)
    requires
        st.anchor == st.focus,
        st.focus <= st.value.len(),
        st.value.len() + t@.len() <= usize::MAX,
        forall|k: int| 0 <= k < t@.len() ==> #[trigger] t@[k] != '\n' && t@[k] != '\r',
    ensures
        ({
            let v = st.value;
            let f = st.focus as int;
            let (after, r) = apply_spec(st, KeyInput::Insert(t), None, None, None, clip, laid);
            &&& t@.len() > 0 ==> after.value == v.take(f) + t@ + v.skip(f) && after.focus == f
                + t@.len() && after.anchor == after.focus && r.changed
            &&& t@.len() == 0 ==> after.value == v && !r.changed
        }),
{
    let tt = t@;
    let v = st.value;
    let f = st.focus as int;
    assert(strip_newlines(tt) =~= tt) by {
        lemma_filter_keeps_all(tt);
    }
    assert(insert_text(tt, st.multiline, None, None, v.len() as int, 0) == tt);
    assert(splice(v, f, f, tt) =~= v.take(f) + tt + v.skip(f));
}

proof fn lemma_filter_keeps_all(t: Seq<char>)
    requires
        forall|k: int| 0 <= k < t.len() ==> #[trigger] t[k] != '\n' && t[k] != '\r',
    ensures
        t.filter(|c: char| c != '\n' && c != '\r') == t,
    decreases t.len(),
{
    reveal(Seq::filter);
    if t.len() > 0 {
        let d = t.drop_last();
        assert forall|k: int| 0 <= k < d.len() implies #[trigger] d[k] != '\n' && d[k] != '\r' by {
            assert(d[k] == t[k]);
        }
        lemma_filter_keeps_all(d);
        assert(d.push(t.last()) =~= t);
    }
}

/// The selection keys over a selection `[s0, s1)` (no mask): Copy hands out the
/// selected text and changes nothing, Cut hands it out and removes it (the caret at
/// `s0`), and Select All selects the whole text.
pub proof fn copy_cut_and_select_all(
    st: EditorView,
    filter: Option<CharFilter>,
    max_length: Option<usize>,
    clip: Seq<char>,
    laid: Option<(usize, usize)>,
)
    requires
        selection_in_text(st),
        st.value.len() <= usize::MAX,
    ensures
        ({
            let v = st.value;
            let s0 = if st.anchor <= st.focus { st.anchor as int } else { st.focus as int };
            let s1 = if st.anchor <= st.focus { st.focus as int } else { st.anchor as int };
            let (c, rc) = apply_spec(st, KeyInput::Copy, filter, max_length, None, clip, laid);
            let (x, rx) = apply_spec(st, KeyInput::Cut, filter, max_length, None, clip, laid);
            let (a, _) = apply_spec(st, KeyInput::SelectAll, filter, max_length, None, clip, laid);
            &&& s0 < s1 ==> rc.copied == Some(v.subrange(s0, s1)) && c.value == v && !rc.changed
            &&& s0 < s1 ==> rx.copied == Some(v.subrange(s0, s1)) && x.value == v.take(s0) + v.skip(s1)
                && x.focus == s0 && x.anchor == s0 && rx.changed
            &&& s0 == s1 ==> rc.copied is None && rx.copied is None && x.value == v
            &&& a.value == v && a.anchor == 0 && a.focus == v.len()
        }),
{
    let v = st.value;
    let s0 = if st.anchor <= st.focus { st.anchor as int } else { st.focus as int };
    let s1 = if st.anchor <= st.focus { st.focus as int } else { st.anchor as int };
    assert(splice(v, s0, s1, Seq::empty()) =~= v.take(s0) + v.skip(s1));
}

/// Plain caret motions without a layout answer: Left and Right move one character
/// (stopping at the ends), Home and End of the document go to the ends; the text
/// stays; without Shift the selection collapses onto the new caret, with Shift the
/// anchor stays.
pub proof fn plain_motions_move_the_caret(st: EditorView, m: Motion, extend: bool)
    requires
        selection_in_text(st),
        st.value.len() <= usize::MAX,
    ensures
        ({
            let v = st.value;
            let f = st.focus as int;
            let after = apply_spec(
                st,
                KeyInput::Move { motion: m, extend },
                None,
                None,
                None,
                Seq::empty(),
                None,
            ).0;
            &&& m is Left ==> after.focus == (if f > 0 { f - 1 } else { 0 })
            &&& m is Right ==> after.focus == (if f < v.len() { f + 1 } else { v.len() as int })
            &&& m is DocStart ==> after.focus == 0
            &&& m is DocEnd ==> after.focus == v.len()
            &&& after.value == v
            &&& !extend ==> after.anchor == after.focus
            &&& extend ==> after.anchor == st.anchor
        }),
{
    let v = st.value;
    let f = st.focus as int;
    lemma_skip_left_bounds(v, f);
    lemma_skip_left_bounds(v, skip_ws_left(v, f));
    lemma_skip_right_bounds(v, f);
    lemma_skip_right_bounds(v, skip_ws_right(v, f));
    assert(0 <= fallback_target(v, f, m) <= v.len());
}

/// The field's callbacks after a key: `on_changed` fires exactly when the text
/// changed (and it is set), `on_editing_complete` and `on_submit` exactly on a
/// submit (when set), each at most once, with `on_changed` first and
/// `on_editing_complete` before `on_submit`.
pub proof fn field_callbacks_fire_in_order(o: OutcomeView, cb: FieldCallbacks)
    ensures
        ({
            let ev = field_events(o, cb);
            &&& ev.contains(FieldEvent::Changed) <==> o.changed && cb.on_changed
            &&& ev.contains(FieldEvent::EditingComplete) <==> o.submitted && cb.on_editing_complete
            &&& ev.contains(FieldEvent::Submit) <==> o.submitted && cb.on_submit
            &&& ev.len() == (if o.changed && cb.on_changed { 1int } else { 0 }) + (if o.submitted
                && cb.on_editing_complete {
                1int
            } else {
                0
            }) + (if o.submitted && cb.on_submit {
                1int
            } else {
                0
            })
            &&& forall|i: int, j: int|
                0 <= i < j < ev.len() ==> !(#[trigger] ev[i] == FieldEvent::Submit) && !(#[trigger] ev[j]
                    == FieldEvent::Changed)
        }),
{
    let ev = field_events(o, cb);
    let a: Seq<FieldEvent> = if o.changed && cb.on_changed {
        seq![FieldEvent::Changed]
    } else {
        Seq::empty()
    };
    let b: Seq<FieldEvent> = if o.submitted && cb.on_editing_complete {
        seq![FieldEvent::EditingComplete]
    } else {
        Seq::empty()
    };
    let c: Seq<FieldEvent> = if o.submitted && cb.on_submit {
        seq![FieldEvent::Submit]
    } else {
        Seq::empty()
    };
    assert(ev == a + b + c);
    assert(ev.contains(FieldEvent::Changed) ==> o.changed && cb.on_changed) by {
        if ev.contains(FieldEvent::Changed) {
            let k = choose|k: int| 0 <= k < ev.len() && ev[k] == FieldEvent::Changed;
            if !(o.changed && cb.on_changed) {
                assert(ev[k] == (b + c)[k]);
            }
        }
    }
    assert(o.changed && cb.on_changed ==> ev.contains(FieldEvent::Changed)) by {
        if o.changed && cb.on_changed {
            assert(ev[0] == FieldEvent::Changed);
        }
    }
    assert(ev.contains(FieldEvent::EditingComplete) <==> o.submitted && cb.on_editing_complete) by {
        if ev.contains(FieldEvent::EditingComplete) {
            let k = choose|k: int| 0 <= k < ev.len() && ev[k] == FieldEvent::EditingComplete;
            assert(k >= a.len());
            if !(o.submitted && cb.on_editing_complete) {
                assert(ev[k] == c[k - a.len()]);
            }
        }
        if o.submitted && cb.on_editing_complete {
            assert(ev[a.len() as int] == FieldEvent::EditingComplete);
        }
    }
    assert(ev.contains(FieldEvent::Submit) <==> o.submitted && cb.on_submit) by {
        if ev.contains(FieldEvent::Submit) {
            let k = choose|k: int| 0 <= k < ev.len() && ev[k] == FieldEvent::Submit;
            assert(k >= a.len() + b.len());
        }
        if o.submitted && cb.on_submit {
            assert(ev[(a.len() + b.len()) as int] == FieldEvent::Submit);
        }
    }
}

} // verus!
