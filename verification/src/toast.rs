//! Toasts: transient notifications stacked per window, newest last. Dismissing marks
//! a toast as leaving (it animates out) and removes it once the exit tween ends; at
//! most [`MAX_VISIBLE`] of a window's newest toasts show at once. Titles, actions and
//! timers stay with the caller, keyed by the toast's id.
use vstd::prelude::*;
use std::collections::HashMap;

verus! {

broadcast use vstd::seq_lib::group_seq_properties;

/// Identifies a shown toast.
pub type ToastId = u64;

/// The most a window's stack shows at once; older toasts queue behind these.
pub const MAX_VISIBLE: usize = 3;

/// The tone of a toast — sets the leading icon + accent.
#[derive(Clone, Copy, Debug, PartialEq, Eq, Structural)]
pub enum ToastVariant {
    Default,
    Success,
    Warning,
    Destructive,
}

impl Default for ToastVariant {
    fn default() -> (r: ToastVariant)
        ensures
            r == ToastVariant::Default,
    {
        ToastVariant::Default
    }
}

/// One shown toast.
#[derive(Clone, Copy, Debug, PartialEq, Eq, Structural)]
pub struct ToastRecord {
    pub window: u32,
    pub id: ToastId,
    pub variant: ToastVariant,
    pub dismissible: bool,
    /// Dismissal started: the card animates out and is removed after the tween.
    pub leaving: bool,
}

/// The toast service: the next id and each window's stack, oldest first.
pub struct Toasts {
    next_id: ToastId,
    stacks: HashMap<u32, Vec<ToastRecord>>,
}

impl Toasts {
    /// The id the next toast gets.
    pub closed spec fn next_id(&self) -> ToastId {
        self.next_id
    }

    /// Each window's stack of toasts, oldest first.
    pub closed spec fn stacks(&self) -> Map<u32, Seq<ToastRecord>> {
        self.stacks@.map_values(|v: Vec<ToastRecord>| v@)
    }

    /// No toasts yet; ids start at 1.
    pub fn new() -> (r: Toasts)
        ensures
            r.next_id() == 1,
            r.stacks() == Map::<u32, Seq<ToastRecord>>::empty(),
    {
        let r = Toasts { next_id: 1, stacks: HashMap::new() };
        assert(r.stacks() =~= Map::<u32, Seq<ToastRecord>>::empty());
        r
    }
}

/// The toasts of window `w`, oldest first (none without a stack).
pub open spec fn stack_of(t: &Toasts, w: u32) -> Seq<ToastRecord> {
    if t.stacks().contains_key(w) {
        t.stacks()[w]
    } else {
        Seq::empty()
    }
}

/// The first toast with id `id` at index `i` or later.
pub open spec fn find_from(s: Seq<ToastRecord>, id: ToastId, i: int) -> Option<int>
    decreases s.len() - i,
{
    if i < 0 || i >= s.len() {
        None
    } else if s[i].id == id {
        Some(i)
    } else {
        find_from(s, id, i + 1)
    }
}

/// The first toast with id `id`.
pub open spec fn find_toast(s: Seq<ToastRecord>, id: ToastId) -> Option<int> {
    find_from(s, id, 0)
}

/// A toast found from index `i` on lies at `i` or later and has id `id`, and no
/// toast between `i` and it has that id; with `i == 0` this is where
/// [`find_toast`] points.
pub proof fn lemma_find_from_bounds(s: Seq<ToastRecord>, id: ToastId, i: int)
    requires
        0 <= i,
    ensures
        find_from(s, id, i) matches Some(k) ==> i <= k < s.len() && s[k].id == id && forall|j: int|
            i <= j < k ==> #[trigger] s[j].id != id,
        find_from(s, id, i) is None ==> forall|j: int| i <= j < s.len() ==> #[trigger] s[j].id != id,
    decreases s.len() - i,
{
    if i < s.len() && s[i].id != id {
        lemma_find_from_bounds(s, id, i + 1);
    }
}

/// The auto-dismiss timer key of a toast.
pub fn timer_key(id: ToastId) -> (r: u64)
    ensures
        r == (0x7040_0000_0000_0000u64 ^ id),
{
    0x7040_0000_0000_0000u64 ^ id
}

/// The deferred-removal timer key of a toast (distinct from the auto-dismiss one).
pub fn removal_key(id: ToastId) -> (r: u64)
    ensures
        r == (0x7041_0000_0000_0000u64 ^ id),
{
    0x7041_0000_0000_0000u64 ^ id
}

fn copy_records(v: &Vec<ToastRecord>) -> (r: Vec<ToastRecord>)
    ensures
        r@ == v@,
{
    let mut out: Vec<ToastRecord> = Vec::new();
    let mut i: usize = 0;
    while i < v.len()
        invariant
            i <= v@.len(),
            out@ == v@.take(i as int),
        decreases v@.len() - i,
    {
        proof {
            assert(v@.take(i + 1) =~= v@.take(i as int).push(v@[i as int]));
        }
        out.push(v[i]);
        i = i + 1;
    }
    assert(v@.take(v@.len() as int) =~= v@);
    out
}

/// A copy of window `window`'s stack.
fn stack_copy(t: &Toasts, window: u32) -> (r: Vec<ToastRecord>)
    ensures
        r@ == stack_of(t, window),
{
    match t.stacks.get(&window) {
        Some(v) => copy_records(v),
        None => Vec::new(),
    }
}

/// Store `s` as window `window`'s stack.
fn put_stack(t: &mut Toasts, window: u32, s: Vec<ToastRecord>)
    ensures
        final(t).next_id() == old(t).next_id(),
        final(t).stacks() == old(t).stacks().insert(window, s@),
{
    let ghost v = s@;
    t.stacks.insert(window, s);
    assert(t.stacks() =~= old(t).stacks().insert(window, v));
}

/// Show a toast in window `window`; returns its id.
pub fn show(t: &mut Toasts, window: u32, variant: ToastVariant, dismissible: bool) -> (r: ToastId)
    requires
        old(t).next_id() < u64::MAX,
    ensures
        r == old(t).next_id(),
        final(t).next_id() == old(t).next_id() + 1,
        final(t).stacks() == old(t).stacks().insert(
            window,
            stack_of(old(t), window).push(
                ToastRecord { window, id: r, variant, dismissible, leaving: false },
            ),
        ),
{
    let id = t.next_id;
    t.next_id = id + 1;
    let mut s = stack_copy(t, window);
    s.push(ToastRecord { window, id, variant, dismissible, leaving: false });
    put_stack(t, window, s);
    id
}

/// Whether any toast is currently showing in window `window`.
pub fn any_open(t: &Toasts, window: u32) -> (r: bool)
    ensures
        r == (stack_of(t, window).len() > 0),
{
    match t.stacks.get(&window) {
        Some(v) => v.len() > 0,
        None => false,
    }
}

/// The index of toast `id` in `s`, if there.
fn position(s: &Vec<ToastRecord>, id: ToastId) -> (r: Option<usize>)
    ensures
        r matches Some(i) ==> find_toast(s@, id) == Some(i as int) && i < s@.len(),
        r is None ==> find_toast(s@, id) is None,
{
    let mut i: usize = 0;
    while i < s.len()
        invariant
            i <= s@.len(),
            find_toast(s@, id) == find_from(s@, id, i as int),
        decreases s@.len() - i,
    {
        if s[i].id == id {
            return Some(i);
        }
        i = i + 1;
    }
    None
}

/// Begin dismissing window `window`'s toast `id`: it is marked leaving and `true` is
/// returned (the caller stops its countdown and arms the removal). Absent or already
/// leaving: nothing happens.
pub fn dismiss_toast(t: &mut Toasts, window: u32, id: ToastId) -> (r: bool)
    ensures
        final(t).next_id() == old(t).next_id(),
        r == (find_toast(stack_of(old(t), window), id) matches Some(i) && !stack_of(
            old(t),
            window,
        )[i].leaving),
        r ==> final(t).stacks() == old(t).stacks().insert(
            window,
            stack_of(old(t), window).update(
                find_toast(stack_of(old(t), window), id)->0,
                ToastRecord {
                    leaving: true,
                    ..stack_of(old(t), window)[find_toast(stack_of(old(t), window), id)->0]
                },
            ),
        ),
        !r ==> final(t).stacks() == old(t).stacks(),
{
    let mut s = stack_copy(t, window);
    match position(&s, id) {
        Some(i) => {
            if s[i].leaving {
                return false;
            }
            let rec = s[i];
            s.set(i, ToastRecord { leaving: true, ..rec });
            put_stack(t, window, s);
            true
        },
        None => false,
    }
}

/// Remove window `window`'s toast `id` for real (after its exit tween).
pub fn remove_toast(t: &mut Toasts, window: u32, id: ToastId)
    ensures
        final(t).next_id() == old(t).next_id(),
        old(t).stacks().contains_key(window) ==> final(t).stacks() == old(t).stacks().insert(
            window,
            stack_of(old(t), window).filter(|r: ToastRecord| r.id != id),
        ),
        !old(t).stacks().contains_key(window) ==> final(t).stacks() == old(t).stacks(),
{
    if t.stacks.get(&window).is_none() {
        return;
    }
    let s = stack_copy(t, window);
    let ghost recs = s@;
    let mut kept: Vec<ToastRecord> = Vec::new();
    let mut i: usize = 0;
    while i < s.len()
        invariant
            recs == s@,
            i <= recs.len(),
            kept@ == recs.take(i as int).filter(|r: ToastRecord| r.id != id),
        decreases recs.len() - i,
    {
        proof {
            assert(recs.take(i + 1) =~= recs.take(i as int).push(recs[i as int]));
            recs.take(i as int).lemma_filter_push(recs[i as int], |r: ToastRecord| r.id != id);
        }
        if s[i].id != id {
            kept.push(s[i]);
        }
        i = i + 1;
    }
    proof {
        assert(recs.take(recs.len() as int) =~= recs);
    }
    put_stack(t, window, kept);
}

/// Forget a closed window's toast stack.
pub fn drop_window(t: &mut Toasts, window: u32)
    ensures
        final(t).next_id() == old(t).next_id(),
        final(t).stacks() == old(t).stacks().remove(window),
{
    t.stacks.remove(&window);
    assert(t.stacks() =~= old(t).stacks().remove(window));
}

/// The toasts window `window` shows: its newest [`MAX_VISIBLE`], oldest first.
pub fn visible(t: &Toasts, window: u32) -> (r: Vec<ToastRecord>)
    ensures
        r@ == (if stack_of(t, window).len() <= MAX_VISIBLE {
            stack_of(t, window)
        } else {
            stack_of(t, window).skip(stack_of(t, window).len() - MAX_VISIBLE)
        }),
{
    let mine = stack_copy(t, window);
    if mine.len() <= MAX_VISIBLE {
        return mine;
    }
    let from = mine.len() - MAX_VISIBLE;
    let mut out: Vec<ToastRecord> = Vec::new();
    let mut k: usize = from;
    while k < mine.len()
        invariant
            from <= k <= mine@.len(),
            out@ == mine@.subrange(from as int, k as int),
        decreases mine@.len() - k,
    {
        out.push(mine[k]);
        k = k + 1;
    }
    proof {
        assert(out@ =~= mine@.skip(from as int));
    }
    out
}

proof fn lemma_find_from_update(s: Seq<ToastRecord>, id: ToastId, i: int, k: int, x: ToastRecord)
    requires
        0 <= i <= k < s.len(),
        find_from(s, id, i) == Some(k),
        x.id == id,
    ensures
        find_from(s.update(k, x), id, i) == Some(k),
    decreases k - i,
{
    if i < k {
        lemma_find_from_update(s, id, i + 1, k, x);
    }
}

/// Dismissing a toast marks it leaving and keeps it findable, so a second dismissal
/// finds it already leaving and does nothing.
pub proof fn dismiss_is_idempotent(s: Seq<ToastRecord>, id: ToastId)
    requires
        find_toast(s, id) is Some,
    ensures
        ({
            let i = find_toast(s, id)->0;
            let after = s.update(i, ToastRecord { leaving: true, ..s[i] });
            &&& find_toast(after, id) == Some(i)
            &&& after[i].leaving
        }),
{
    lemma_find_from_bounds(s, id, 0);
    let i = find_toast(s, id)->0;
    lemma_find_from_update(s, id, 0, i, ToastRecord { leaving: true, ..s[i] });
}

/// A dismissed toast stays in its window's stack until it is removed: dismissing
/// marks it leaving without taking it out, so the window still holds as many toasts
/// as before (and [`any_open`] stays true).
pub proof fn dismissed_toast_stays_until_removed(s: Seq<ToastRecord>, id: ToastId)
    requires
        find_toast(s, id) is Some,
    ensures
        ({
            let i = find_toast(s, id)->0;
            let after = s.update(i, ToastRecord { leaving: true, ..s[i] });
            &&& after.len() == s.len()
            &&& after.len() > 0
            &&& after[i].id == id
        }),
{
    lemma_find_from_bounds(s, id, 0);
}

/// Removing toast `id` leaves the window no toast with that id, and keeps every
/// other toast; when it was the window's only toast, the window has none left (and
/// [`any_open`] turns false).
pub proof fn removed_toast_is_gone(s: Seq<ToastRecord>, id: ToastId)
    ensures
        ({
            let rest = s.filter(|r: ToastRecord| r.id != id);
            &&& forall|k: int| 0 <= k < rest.len() ==> #[trigger] rest[k].id != id
            &&& forall|k: int| 0 <= k < s.len() && s[k].id != id ==> rest.contains(#[trigger] s[k])
            &&& (s.len() == 1 && s[0].id == id) ==> rest.len() == 0
        }),
{
    let q = |r: ToastRecord| r.id != id;
    let rest = s.filter(q);
    assert forall|k: int| 0 <= k < rest.len() implies #[trigger] rest[k].id != id by {
        s.lemma_filter_pred(q, k);
    }
    assert forall|k: int| 0 <= k < s.len() && s[k].id != id implies rest.contains(#[trigger] s[k]) by {
        s.lemma_filter_contains(q, k);
    }
    if s.len() == 1 && s[0].id == id && rest.len() > 0 {
        s.lemma_filter_pred(q, 0);
        assert(rest.contains(rest[0]));
        s.lemma_filter_contains_rev(q, rest[0]);
        assert(false);
    }
}

} // verus!
