//! A segmented one-time-code input: `len` cells over one code string. Typed or
//! pasted characters append (control characters dropped, never past `len`),
//! Backspace deletes the last one, Left/Right move the active cell; the owner is
//! told after every change, and once more when all cells are filled.
use vstd::prelude::*;
use crate::editor::{KeyInput, Motion};
use crate::menu::ActionId;
use crate::text::{is_ctrl, is_control};

verus! {

broadcast use vstd::seq_lib::group_seq_properties;

/// A one-time-code input's settings.
#[derive(Clone, Copy, Debug, PartialEq, Eq, Structural)]
pub struct InputOtp {
    /// The number of cells (at least one).
    pub len: usize,
    /// A separator after every `group_size` cells (`0`: none).
    pub group_size: usize,
    /// Show each entered character as `•`.
    pub obscured: bool,
    pub disabled: bool,
    pub autofocus: bool,
    /// Called with the code on every change.
    pub on_changed: Option<ActionId>,
    /// Called once the code fills every cell.
    pub on_complete: Option<ActionId>,
}

/// The code entered so far and the active cell.
#[derive(Clone, Debug)]
pub struct OtpState {
    pub code: Vec<char>,
    pub active: usize,
}

/// What a key asks of the owner.
#[derive(Clone, Copy, Debug, PartialEq, Eq, Structural)]
pub struct OtpReply {
    /// Report the code through `on_changed`.
    pub changed: bool,
    /// Report the code through `on_complete`: every cell is filled.
    pub complete: bool,
}

/// One drawn cell.
#[derive(Clone, Copy, Debug, PartialEq, Eq, Structural)]
pub struct OtpCell {
    /// The glyph shown (`•` when obscured), none for an empty cell.
    pub glyph: Option<char>,
    /// The focused input's active cell (drawn with the ring).
    pub active: bool,
    /// A group separator stands before this cell.
    pub separator_before: bool,
}

/// An input with `len` cells (at least one), no grouping, not obscured, enabled.
pub fn input_otp(len: usize) -> (r: InputOtp)
    ensures
        r.len == if len == 0 { 1 } else { len },
        r.group_size == 0,
        !r.obscured && !r.disabled && !r.autofocus,
        r.on_changed is None && r.on_complete is None,
{
    InputOtp {
        len: if len == 0 { 1 } else { len },
        group_size: 0,
        obscured: false,
        disabled: false,
        autofocus: false,
        on_changed: None,
        on_complete: None,
    }
}

impl InputOtp {
    /// A separator after every `n` cells.
    pub fn group_size(self, n: usize) -> (r: InputOtp)
        ensures
            r == (InputOtp { group_size: n, ..self }),
    {
        InputOtp { group_size: n, ..self }
    }

    /// Show each entered character as `•`.
    pub fn obscured(self, yes: bool) -> (r: InputOtp)
        ensures
            r == (InputOtp { obscured: yes, ..self }),
    {
        InputOtp { obscured: yes, ..self }
    }

    pub fn disabled(self, yes: bool) -> (r: InputOtp)
        ensures
            r == (InputOtp { disabled: yes, ..self }),
    {
        InputOtp { disabled: yes, ..self }
    }

    pub fn autofocus(self) -> (r: InputOtp)
        ensures
            r == (InputOtp { autofocus: true, ..self }),
    {
        InputOtp { autofocus: true, ..self }
    }

    /// The callback told the code on every change.
    pub fn on_changed(self, action: ActionId) -> (r: InputOtp)
        ensures
            r == (InputOtp { on_changed: Some(action), ..self }),
    {
        InputOtp { on_changed: Some(action), ..self }
    }

    /// The callback told the code once it fills every cell.
    pub fn on_complete(self, action: ActionId) -> (r: InputOtp)
        ensures
            r == (InputOtp { on_complete: Some(action), ..self }),
    {
        InputOtp { on_complete: Some(action), ..self }
    }
}

/// The characters of `t` that are not control characters.
pub open spec fn printable(t: Seq<char>) -> Seq<char> {
    t.filter(|c: char| !is_ctrl(c))
}

/// `s` with the printable characters of `t` appended, never past `len` characters.
pub open spec fn fill(s: Seq<char>, t: Seq<char>, len: nat) -> Seq<char> {
    if s.len() >= len {
        s
    } else {
        let p = printable(t);
        let room = (len - s.len()) as nat;
        s + p.take(if p.len() < room { p.len() as int } else { room as int })
    }
}

/// The state and reply after key `k` on an input of `len` cells (`clip` is the
/// clipboard text, read for a paste).
pub open spec fn otp_key_spec(code: Seq<char>, active: usize, len: usize, k: KeyInput, clip: Seq<char>) -> (
    Seq<char>,
    usize,
    OtpReply,
) {
    match k {
        KeyInput::Move { motion, .. } => {
            let a = match motion {
                Motion::Left => if active == 0 { 0 } else { (active - 1) as usize },
                Motion::Right => if active + 1 < len { (active + 1) as usize } else { (len - 1) as usize },
                _ => active,
            };
            (code, a, OtpReply { changed: false, complete: false })
        },
        _ => {
            let s = match k {
                KeyInput::Insert(t) => fill(code, t@, len as nat),
                KeyInput::Paste => fill(code, clip, len as nat),
                KeyInput::Backspace => if code.len() == 0 { code } else { code.drop_last() },
                _ => code,
            };
            let a = if s.len() < len { s.len() as usize } else { (len - 1) as usize };
            (s, a, OtpReply { changed: true, complete: s.len() == len })
        },
    }
}

/// Drawn cell `i` of `len`: the code's `i`-th character (or `•`), the active ring
/// while focused, a separator before each new group.
pub open spec fn cell_spec(otp: InputOtp, code: Seq<char>, active: usize, focused: bool, i: int) -> OtpCell {
    OtpCell {
        glyph: if i < code.len() {
            Some(if otp.obscured { '•' } else { code[i] })
        } else {
            None
        },
        active: focused && i == active,
        separator_before: otp.group_size > 0 && i > 0 && i % (otp.group_size as int) == 0,
    }
}

proof fn lemma_filter_push(t: Seq<char>, i: int)
    requires
        0 <= i < t.len(),
    ensures
        printable(t.take(i + 1)) == if is_ctrl(t[i]) {
            printable(t.take(i))
        } else {
            printable(t.take(i)).push(t[i])
        },
{
    reveal(Seq::filter);
    assert(t.take(i + 1).drop_last() =~= t.take(i));
}

/// Append the printable characters of `t` to `s` until `s` holds `len` characters.
fn fill_exec(s: &mut Vec<char>, t: &[char], len: usize)
    requires
        old(s)@.len() <= len,
    ensures
        final(s)@ == fill(old(s)@, t@, len as nat),
{
    let ghost s0 = s@;
    let mut i: usize = 0;
    while i < t.len() && s.len() < len
        invariant
            i <= t.len(),
            s0.len() <= len,
            s@ == if s0.len() + printable(t@.take(i as int)).len() <= len {
                s0 + printable(t@.take(i as int))
            } else {
                s0 + printable(t@.take(i as int)).take(len - s0.len())
            },
            s@.len() <= len,
        decreases t.len() - i,
    {
        proof {
            lemma_filter_push(t@, i as int);
        }
        let c = t[i];
        if !is_control(c) {
            s.push(c);
        }
        i = i + 1;
    }
    proof {
        let p = printable(t@);
        let pi = printable(t@.take(i as int));
        lemma_printable_prefix(t@, i as int);
        if i == t.len() {
            assert(t@.take(i as int) =~= t@);
            assert(p.take(p.len() as int) =~= p);
        } else {
            // The code is full: the rest of `t` cannot change it.
            assert(p.take(len - s0.len()) =~= pi.take(len - s0.len()));
        }
    }
}

/// The printable characters of a prefix are a prefix of the printable characters.
proof fn lemma_printable_prefix(t: Seq<char>, i: int)
    requires
        0 <= i <= t.len(),
    ensures
        printable(t.take(i)).len() <= printable(t).len(),
        printable(t.take(i)) == printable(t).take(printable(t.take(i)).len() as int),
    decreases t.len() - i,
{
    if i < t.len() {
        lemma_printable_prefix(t, i + 1);
        lemma_filter_push(t, i);
        assert(printable(t.take(i)) =~= printable(t.take(i + 1)).take(
            printable(t.take(i)).len() as int,
        ));
    } else {
        assert(t.take(i) =~= t);
    }
}

impl InputOtp {
    /// Handle a key: typed or pasted characters append (control characters
    /// dropped, never past `len`), Backspace deletes the last character, Left/Right
    /// move the active cell. Every key but a move reports the code and puts the
    /// active cell on the first empty one (the last cell once full).
    pub fn key(&self, st: &mut OtpState, k: &KeyInput, clip: &[char]) -> (r: OtpReply)
        requires
            self.len >= 1,
        ensures
            (final(st).code@, final(st).active, r) == otp_key_spec(
                old(st).code@,
                old(st).active,
                self.len,
                *k,
                clip@,
            ),
    {
        let len = self.len;
        match k {
            KeyInput::Move { motion, .. } => {
                let a = st.active;
                st.active = match motion {
                    Motion::Left => if a == 0 { 0 } else { a - 1 },
                    Motion::Right => if a < len - 1 { a + 1 } else { len - 1 },
                    _ => a,
                };
                return OtpReply { changed: false, complete: false };
            },
            _ => {},
        }
        match k {
            KeyInput::Insert(t) => {
                if st.code.len() <= len {
                    fill_exec(&mut st.code, t.as_slice(), len);
                }
            },
            KeyInput::Paste => {
                if st.code.len() <= len {
                    fill_exec(&mut st.code, clip, len);
                }
            },
            KeyInput::Backspace => {
                if st.code.len() > 0 {
                    st.code.pop();
                }
            },
            _ => {},
        }
        let n = st.code.len();
        st.active = if n < len { n } else { len - 1 };
        OtpReply { changed: true, complete: n == len }
    }

    /// The cells as drawn for `st` (`focused`: the input holds keyboard focus).
    pub fn cells(&self, st: &OtpState, focused: bool) -> (r: Vec<OtpCell>)
        ensures
            r@.len() == self.len,
            forall|i: int| 0 <= i < self.len ==> r@[i] == cell_spec(*self, st.code@, st.active, focused, i),
    {
        let mut r: Vec<OtpCell> = Vec::new();
        let mut i: usize = 0;
        while i < self.len
            invariant
                i <= self.len,
                r@.len() == i,
                forall|j: int| 0 <= j < i ==> r@[j] == cell_spec(*self, st.code@, st.active, focused, j),
            decreases self.len - i,
        {
            let glyph = if i < st.code.len() {
                Some(if self.obscured { '•' } else { st.code[i] })
            } else {
                None
            };
            let sep = self.group_size > 0 && i > 0 && i % self.group_size == 0;
            r.push(OtpCell { glyph, active: focused && i == st.active, separator_before: sep });
            i = i + 1;
        }
        r
    }
}

/// The code never grows past the cells, and the active cell is always one of them.
pub proof fn code_fits_the_cells(code: Seq<char>, active: usize, len: usize, k: KeyInput, clip: Seq<char>)
    requires
        len >= 1,
        code.len() <= len,
        active < len,
    ensures
        ({
            let (c2, a2, r) = otp_key_spec(code, active, len, k, clip);
            &&& c2.len() <= len
            &&& a2 < len
            &&& r.complete ==> c2.len() == len
        }),
{
}

/// The code and active cell after each key of `keys` in turn (each key with the
/// clipboard text a paste would read), starting from `code` and `active`.
pub open spec fn otp_run(code: Seq<char>, active: usize, len: usize, keys: Seq<(KeyInput, Seq<char>)>) -> (
    Seq<char>,
    usize,
)
    decreases keys.len(),
{
    if keys.len() == 0 {
        (code, active)
    } else {
        let prev = otp_run(code, active, len, keys.drop_last());
        let next = otp_key_spec(prev.0, prev.1, len, keys.last().0, keys.last().1);
        (next.0, next.1)
    }
}

/// Over any run of keys, from a fresh input (no code, first cell active) or any state
/// within the cells, the code stays within the cells and the active cell among them.
pub proof fn key_runs_keep_the_code_in_the_cells(
    code: Seq<char>,
    active: usize,
    len: usize,
    keys: Seq<(KeyInput, Seq<char>)>,
)
    requires
        len >= 1,
        code.len() <= len,
        active < len,
    ensures
        otp_run(code, active, len, keys).0.len() <= len,
        otp_run(code, active, len, keys).1 < len,
    decreases keys.len(),
{
    if keys.len() > 0 {
        key_runs_keep_the_code_in_the_cells(code, active, len, keys.drop_last());
        let prev = otp_run(code, active, len, keys.drop_last());
        code_fits_the_cells(prev.0, prev.1, len, keys.last().0, keys.last().1);
    }
}

/// Cells fall into groups of `group_size`: with `g > 0`, a separator stands before
/// cell `i > 0` exactly when `i` is a whole number of groups in (`i == k * g` for some
/// `k`), so the pattern repeats every `g` cells; the first cell and an ungrouped
/// input have none.
pub proof fn separators_split_the_cells_into_groups(
    otp: InputOtp,
    code: Seq<char>,
    active: usize,
    focused: bool,
    i: int,
)
    ensures
        otp.group_size > 0 && i > 0 ==> (cell_spec(otp, code, active, focused, i).separator_before
            <==> exists|k: int| k >= 1 && #[trigger] (k * otp.group_size) == i),
        otp.group_size > 0 && i > 0 ==> cell_spec(
            otp,
            code,
            active,
            focused,
            i + otp.group_size,
        ).separator_before == cell_spec(otp, code, active, focused, i).separator_before,
        !cell_spec(otp, code, active, focused, 0).separator_before,
        otp.group_size == 0 ==> !cell_spec(otp, code, active, focused, i).separator_before,
{
    let g = otp.group_size as int;
    if g > 0 && i > 0 {
        vstd::arithmetic::div_mod::lemma_fundamental_div_mod(i, g);
        if i % g == 0 {
            let k = i / g;
            assert(k * g == i) by (nonlinear_arith)
                requires
                    i == g * (i / g) + i % g,
                    i % g == 0,
                    k == i / g,
            ;
            assert(k >= 1) by (nonlinear_arith)
                requires
                    k * g == i,
                    g > 0,
                    i > 0,
            ;
        }
        if exists|k: int| k >= 1 && #[trigger] (k * g) == i {
            let k = choose|k: int| k >= 1 && #[trigger] (k * g) == i;
            vstd::arithmetic::div_mod::lemma_mod_multiples_basic(k, g);
        }
        vstd::arithmetic::div_mod::lemma_mod_add_multiples_vanish(i, g);
    }
}

/// What each key does to the code: typed or pasted text appends only characters
/// that are not control characters, as many as fit (the code grows to
/// `min(len, code + printable text)`) and keeps the code entered so far in front;
/// Backspace removes exactly the last character; Left/Right leave the code alone and
/// report nothing. Every other key reports the code, and reports it complete exactly
/// when every cell is filled; the active cell is then the first empty one (the last
/// cell once full).
pub proof fn otp_keys_edit_the_code(code: Seq<char>, active: usize, len: usize, k: KeyInput, clip: Seq<char>)
    requires
        len >= 1,
        code.len() <= len,
    ensures
        ({
            let (c2, a2, r) = otp_key_spec(code, active, len, k, clip);
            let text = match k {
                KeyInput::Insert(t) => t@,
                _ => clip,
            };
            &&& (k is Insert || k is Paste) ==> {
                &&& c2.take(code.len() as int) == code
                &&& forall|i: int| code.len() <= i < c2.len() ==> !is_ctrl(#[trigger] c2[i])
                &&& c2.len() == (if code.len() + printable(text).len() <= len {
                    (code.len() + printable(text).len()) as int
                } else {
                    len as int
                })
            }
            &&& k is Backspace ==> c2.len() == (if code.len() == 0 { 0 } else { code.len() - 1 })
                && c2 == code.take(c2.len() as int)
            &&& k is Move ==> c2 == code && !r.changed && !r.complete
            &&& !(k is Move) ==> r.changed && (r.complete <==> c2.len() == len) && a2 == (if c2.len()
                < len {
                c2.len() as int
            } else {
                len - 1
            })
        }),
{
    let text = match k {
        KeyInput::Insert(t) => t@,
        _ => clip,
    };
    if k is Insert || k is Paste {
        let p = printable(text);
        let c2 = fill(code, text, len as nat);
        assert(c2.take(code.len() as int) =~= code);
        assert forall|i: int| code.len() <= i < c2.len() implies !is_ctrl(#[trigger] c2[i]) by {
            text.lemma_filter_pred(|c: char| !is_ctrl(c), i - code.len());
        }
    }
    if k is Backspace && code.len() > 0 {
        assert(code.drop_last() =~= code.take(code.len() - 1));
    }
}

} // verus!
