//! The per-window overlay layer: one transient overlay (a dropdown, menu or popover,
//! optionally with a submenu panel beside it) and one click-through passive overlay
//! (a tooltip or hover card) per window. The panels' content and geometry stay with
//! the caller; this module keeps which window shows what.
use vstd::prelude::*;
use crate::per_window::WindowSlots;

verus! {

broadcast use vstd::seq_lib::group_seq_properties;

/// A window's open overlay.
#[derive(Clone, Copy, Debug, PartialEq, Eq, Structural)]
pub struct OverlayEntry {
    /// Opened with an aliveness probe (torn down once its opener unmounts).
    pub guarded: bool,
    /// A submenu panel is showing beside it.
    pub child: bool,
}

/// The overlay service: each window's overlay and passive overlay.
pub struct Overlays {
    overlay: WindowSlots<Option<OverlayEntry>>,
    passive: WindowSlots<bool>,
}

impl Overlays {
    /// Each window's overlay (a window without a slot has none).
    pub closed spec fn overlays(&self) -> Map<u32, Option<OverlayEntry>> {
        self.overlay@
    }

    /// Each window's passive layer (`true` while a passive overlay shows).
    pub closed spec fn passives(&self) -> Map<u32, bool> {
        self.passive@
    }

    /// Finitely many windows have overlay or passive state.
    pub proof fn lemma_finite(&self)
        ensures
            self.overlays().dom().finite(),
            self.passives().dom().finite(),
    {
        self.overlay.lemma_finite();
        self.passive.lemma_finite();
    }

    /// No overlays yet.
    pub fn new() -> (r: Overlays)
        ensures
            r.overlays() == Map::<u32, Option<OverlayEntry>>::empty(),
            r.passives() == Map::<u32, bool>::empty(),
    {
        Overlays { overlay: WindowSlots::new(), passive: WindowSlots::new() }
    }
}

/// The overlay window `w` shows, if any.
pub open spec fn overlay_of(o: &Overlays, w: u32) -> Option<OverlayEntry> {
    if o.overlays().contains_key(w) {
        o.overlays()[w]
    } else {
        None
    }
}

/// Whether window `w` shows a passive overlay.
pub open spec fn passive_of(o: &Overlays, w: u32) -> bool {
    o.passives().contains_key(w) && o.passives()[w]
}

/// One operation on the overlay service.
pub enum OverlayOp {
    Init { window: u32 },
    ShowOverlay { window: u32, guarded: bool },
    HideOverlay { window: u32 },
    GcDead { window: u32, alive: bool },
    SetChild { window: u32 },
    ClearChild { window: u32 },
    Drop { window: u32 },
    ShowPassive { window: u32 },
    HidePassive { window: u32 },
}

/// The windows' passive layers after `op`: only showing or hiding a passive overlay,
/// and dropping a window, touch them.
pub open spec fn passives_after(m: Map<u32, bool>, op: OverlayOp) -> Map<u32, bool> {
    match op {
        OverlayOp::Drop { window } => m.remove(window),
        OverlayOp::ShowPassive { window } => m.insert(window, true),
        OverlayOp::HidePassive { window } => m.insert(window, false),
        _ => m,
    }
}

/// The passive layers after each operation of `ops` in turn.
pub open spec fn passives_after_all(m: Map<u32, bool>, ops: Seq<OverlayOp>) -> Map<u32, bool>
    decreases ops.len(),
{
    if ops.len() == 0 {
        m
    } else {
        passives_after(passives_after_all(m, ops.drop_last()), ops.last())
    }
}

/// Whether window `w` shows a passive overlay in the passive layers `m`.
pub open spec fn passive_in(m: Map<u32, bool>, w: u32) -> bool {
    m.contains_key(w) && m[w]
}

/// Create window `window`'s overlay slot (call once at startup for the main window).
pub fn init(o: &mut Overlays, window: u32)
    ensures
        final(o).passives() == passives_after(old(o).passives(), OverlayOp::Init { window }),
        final(o).passives() == old(o).passives(),
        final(o).overlays() == (if old(o).overlays().contains_key(window) {
            old(o).overlays()
        } else {
            old(o).overlays().insert(window, None)
        }),
{
    if o.overlay.get(window).is_none() {
        o.overlay.set(window, None);
    }
}

/// Whether an overlay is currently open in window `window`.
pub fn is_open(o: &Overlays, window: u32) -> (r: bool)
    ensures
        r == overlay_of(o, window) is Some,
{
    match o.overlay.get(window) {
        Some(Some(_)) => true,
        _ => false,
    }
}

/// Show an overlay in window `window`, replacing any current one; `guarded` when it
/// comes with an aliveness probe.
pub fn show_overlay(o: &mut Overlays, window: u32, guarded: bool)
    ensures
        final(o).passives() == passives_after(old(o).passives(), OverlayOp::ShowOverlay { window, guarded }),
        final(o).passives() == old(o).passives(),
        final(o).overlays() == old(o).overlays().insert(
            window,
            Some(OverlayEntry { guarded, child: false }),
        ),
{
    o.overlay.set(window, Some(OverlayEntry { guarded, child: false }));
}

/// Dismiss window `window`'s overlay, if any.
pub fn hide_overlay(o: &mut Overlays, window: u32)
    ensures
        final(o).passives() == passives_after(old(o).passives(), OverlayOp::HideOverlay { window }),
        final(o).passives() == old(o).passives(),
        final(o).overlays() == old(o).overlays().insert(window, None),
{
    o.overlay.set(window, None);
}

/// Tear down window `window`'s overlay if its opener unmounted: `alive` is what the
/// overlay's probe reports. Returns whether it was torn down.
pub fn gc_dead(o: &mut Overlays, window: u32, alive: bool) -> (r: bool)
    ensures
        final(o).passives() == passives_after(old(o).passives(), OverlayOp::GcDead { window, alive }),
        final(o).passives() == old(o).passives(),
        r == (overlay_of(old(o), window) matches Some(e) && e.guarded && !alive),
        r ==> final(o).overlays() == old(o).overlays().insert(window, None),
        !r ==> final(o).overlays() == old(o).overlays(),
{
    match o.overlay.get(window) {
        Some(Some(e)) => {
            if e.guarded && !alive {
                o.overlay.set(window, None);
                true
            } else {
                false
            }
        },
        _ => false,
    }
}

/// Attach (or replace) the open overlay's child panel. A no-op if no overlay is open.
pub fn set_child(o: &mut Overlays, window: u32)
    ensures
        final(o).passives() == passives_after(old(o).passives(), OverlayOp::SetChild { window }),
        final(o).passives() == old(o).passives(),
        overlay_of(old(o), window) matches Some(e) ==> final(o).overlays() == old(o).overlays().insert(
            window,
            Some(OverlayEntry { child: true, ..e }),
        ),
        overlay_of(old(o), window) is None ==> final(o).overlays() == old(o).overlays(),
{
    match o.overlay.get(window) {
        Some(Some(e)) => o.overlay.set(window, Some(OverlayEntry { child: true, ..e })),
        _ => {},
    }
}

/// Dismiss the open overlay's child panel (the overlay itself stays).
pub fn clear_child(o: &mut Overlays, window: u32)
    ensures
        final(o).passives() == passives_after(old(o).passives(), OverlayOp::ClearChild { window }),
        final(o).passives() == old(o).passives(),
        overlay_of(old(o), window) matches Some(e) ==> final(o).overlays() == old(o).overlays().insert(
            window,
            Some(OverlayEntry { child: false, ..e }),
        ),
        overlay_of(old(o), window) is None ==> final(o).overlays() == old(o).overlays(),
{
    match o.overlay.get(window) {
        Some(Some(e)) => o.overlay.set(window, Some(OverlayEntry { child: false, ..e })),
        _ => {},
    }
}

/// Whether the open overlay has a child panel (a submenu is showing).
pub fn child_is_open(o: &Overlays, window: u32) -> (r: bool)
    ensures
        r == (overlay_of(o, window) matches Some(e) && e.child),
{
    match o.overlay.get(window) {
        Some(Some(e)) => e.child,
        _ => false,
    }
}

/// Forget a closed window's overlay and passive state.
pub fn drop_window(o: &mut Overlays, window: u32)
    ensures
        final(o).passives() == passives_after(old(o).passives(), OverlayOp::Drop { window }),
        final(o).overlays() == old(o).overlays().remove(window),
        final(o).passives() == old(o).passives().remove(window),
{
    o.overlay.remove(window);
    o.passive.remove(window);
}

/// Show a click-through passive overlay in window `window`, replacing any current one.
pub fn show_passive(o: &mut Overlays, window: u32)
    ensures
        final(o).passives() == passives_after(old(o).passives(), OverlayOp::ShowPassive { window }),
        final(o).overlays() == old(o).overlays(),
        final(o).passives() == old(o).passives().insert(window, true),
{
    o.passive.set(window, true);
}

/// Dismiss window `window`'s passive overlay, if any.
pub fn hide_passive(o: &mut Overlays, window: u32)
    ensures
        final(o).passives() == passives_after(old(o).passives(), OverlayOp::HidePassive { window }),
        final(o).overlays() == old(o).overlays(),
        final(o).passives() == old(o).passives().insert(window, false),
{
    o.passive.set(window, false);
}

/// Whether a passive overlay is currently showing in window `window`.
pub fn passive_is_open(o: &Overlays, window: u32) -> (r: bool)
    ensures
        r == passive_of(o, window),
{
    match o.passive.get(window) {
        Some(b) => b,
        None => false,
    }
}

/// The windows with an open overlay.
pub open spec fn open_windows(m: Map<u32, Option<OverlayEntry>>) -> Set<u32> {
    m.dom().filter(|w: u32| m[w] is Some)
}

/// The windows showing a passive overlay.
pub open spec fn passive_windows(m: Map<u32, bool>) -> Set<u32> {
    m.dom().filter(|w: u32| m[w])
}

/// Number of windows with an open overlay.
pub fn census_overlays(o: &Overlays) -> (r: usize)
    ensures
        r == open_windows(o.overlays()).len(),
{
    let ws = o.overlay.windows();
    let ghost m = o.overlays();
    let ghost p = |w: u32| m[w] is Some;
    let ghost mut seen: Set<u32> = Set::empty();
    let mut n: usize = 0;
    let mut i: usize = 0;
    proof {
        assert(seen.filter(p) =~= Set::<u32>::empty());
    }
    while i < ws.len()
        invariant
            m == o.overlays(),
            p == (|w: u32| m[w] is Some),
            forall|w: u32| m.contains_key(w) <==> ws@.contains(w),
            forall|a: int, b: int| 0 <= a < b < ws@.len() ==> ws@[a] != ws@[b],
            i <= ws@.len(),
            seen.finite(),
            forall|w: u32| seen.contains(w) <==> (exists|k: int| 0 <= k < i && ws@[k] == w),
            n == seen.filter(p).len(),
            n <= i,
        decreases ws@.len() - i,
    {
        let x = ws[i];
        proof {
            if seen.contains(x) {
                let k = choose|k: int| 0 <= k < i && ws@[k] == x;
                assert(ws@[k] != ws@[i as int]);
            }
            let next = seen.insert(x);
            assert forall|w: u32| next.contains(w) <==> (exists|k: int| 0 <= k < i + 1 && ws@[k] == w) by {
                if next.contains(w) && w != x {
                    let k = choose|k: int| 0 <= k < i && ws@[k] == w;
                    assert(0 <= k < i + 1 && ws@[k] == w);
                }
                if exists|k: int| 0 <= k < i + 1 && ws@[k] == w {
                    let k = choose|k: int| 0 <= k < i + 1 && ws@[k] == w;
                    if k < i {
                        assert(seen.contains(w));
                    }
                }
            }
            assert(ws@.contains(x));
            if p(x) {
                assert(next.filter(p) =~= seen.filter(p).insert(x));
            } else {
                assert(next.filter(p) =~= seen.filter(p));
            }
            seen = next;
        }
        if is_open(o, x) {
            n = n + 1;
        }
        i = i + 1;
    }
    proof {
        assert forall|w: u32| seen.contains(w) <==> m.contains_key(w) by {
            if m.contains_key(w) {
                let k = choose|k: int| 0 <= k < ws@.len() && ws@[k] == w;
                assert(exists|k: int| 0 <= k < i && ws@[k] == w);
            }
        }
        assert(seen.filter(p) =~= open_windows(m));
    }
    n
}

/// Number of windows with an open passive overlay.
pub fn census_passive(o: &Overlays) -> (r: usize)
    ensures
        r == passive_windows(o.passives()).len(),
{
    let ws = o.passive.windows();
    let ghost m = o.passives();
    let ghost p = |w: u32| m[w];
    let ghost mut seen: Set<u32> = Set::empty();
    let mut n: usize = 0;
    let mut i: usize = 0;
    proof {
        assert(seen.filter(p) =~= Set::<u32>::empty());
    }
    while i < ws.len()
        invariant
            m == o.passives(),
            p == (|w: u32| m[w]),
            forall|w: u32| m.contains_key(w) <==> ws@.contains(w),
            forall|a: int, b: int| 0 <= a < b < ws@.len() ==> ws@[a] != ws@[b],
            i <= ws@.len(),
            seen.finite(),
            forall|w: u32| seen.contains(w) <==> (exists|k: int| 0 <= k < i && ws@[k] == w),
            n == seen.filter(p).len(),
            n <= i,
        decreases ws@.len() - i,
    {
        let x = ws[i];
        proof {
            if seen.contains(x) {
                let k = choose|k: int| 0 <= k < i && ws@[k] == x;
                assert(ws@[k] != ws@[i as int]);
            }
            let next = seen.insert(x);
            assert forall|w: u32| next.contains(w) <==> (exists|k: int| 0 <= k < i + 1 && ws@[k] == w) by {
                if next.contains(w) && w != x {
                    let k = choose|k: int| 0 <= k < i && ws@[k] == w;
                    assert(0 <= k < i + 1 && ws@[k] == w);
                }
                if exists|k: int| 0 <= k < i + 1 && ws@[k] == w {
                    let k = choose|k: int| 0 <= k < i + 1 && ws@[k] == w;
                    if k < i {
                        assert(seen.contains(w));
                    }
                }
            }
            assert(ws@.contains(x));
            if p(x) {
                assert(next.filter(p) =~= seen.filter(p).insert(x));
            } else {
                assert(next.filter(p) =~= seen.filter(p));
            }
            seen = next;
        }
        if passive_is_open(o, x) {
            n = n + 1;
        }
        i = i + 1;
    }
    proof {
        assert forall|w: u32| seen.contains(w) <==> m.contains_key(w) by {
            if m.contains_key(w) {
                let k = choose|k: int| 0 <= k < ws@.len() && ws@[k] == w;
                assert(exists|k: int| 0 <= k < i && ws@[k] == w);
            }
        }
        assert(seen.filter(p) =~= passive_windows(m));
    }
    n
}

/// The overlay census follows shows and hides: storing `x` as window `w`'s overlay
/// adds one to the number of windows with an open overlay when `x` is an overlay and
/// takes one away when `w` had one open (so showing in a window with none adds one,
/// hiding an open one takes one away, replacing keeps the count); dropping the window
/// takes its open overlay out of the count.
pub proof fn overlay_census_follows_shows_and_hides(o: &Overlays, w: u32, x: Option<OverlayEntry>)
    ensures
        open_windows(o.overlays().insert(w, x)).len() + (if overlay_of(o, w) is Some {
            1int
        } else {
            0
        }) == open_windows(o.overlays()).len() + (if x is Some {
            1int
        } else {
            0
        }),
        open_windows(o.overlays().remove(w)).len() + (if overlay_of(o, w) is Some {
            1int
        } else {
            0
        }) == open_windows(o.overlays()).len(),
{
    o.lemma_finite();
    let m = o.overlays();
    let s = open_windows(m);
    assert(s.finite());
    assert(s.contains(w) == (overlay_of(o, w) is Some));
    if x is Some {
        assert(open_windows(m.insert(w, x)) =~= s.insert(w));
    } else {
        assert(open_windows(m.insert(w, x)) =~= s.remove(w));
    }
    assert(open_windows(m.remove(w)) =~= s.remove(w));
}

/// The passive census follows shows and hides: storing `b` as window `w`'s passive
/// state adds one to the number of windows showing a passive overlay when `b` is set
/// and takes one away when `w` showed one; dropping the window takes it out of the
/// count.
pub proof fn passive_census_follows_shows_and_hides(o: &Overlays, w: u32, b: bool)
    ensures
        passive_windows(o.passives().insert(w, b)).len() + (if passive_of(o, w) {
            1int
        } else {
            0
        }) == passive_windows(o.passives()).len() + (if b {
            1int
        } else {
            0
        }),
        passive_windows(o.passives().remove(w)).len() + (if passive_of(o, w) {
            1int
        } else {
            0
        }) == passive_windows(o.passives()).len(),
{
    o.lemma_finite();
    let m = o.passives();
    let s = passive_windows(m);
    assert(s.finite());
    assert(s.contains(w) == passive_of(o, w));
    if b {
        assert(passive_windows(m.insert(w, b)) =~= s.insert(w));
    } else {
        assert(passive_windows(m.insert(w, b)) =~= s.remove(w));
    }
    assert(passive_windows(m.remove(w)) =~= s.remove(w));
}

/// A passive overlay shows until it is hidden or its window dropped: through any run
/// of other operations (any number of shows and hides of the window's overlay among
/// them) it stays; hiding it, or dropping the window, ends it.
pub proof fn passive_stays_until_hidden(m: Map<u32, bool>, w: u32, ops: Seq<OverlayOp>)
    requires
        passive_in(m, w),
        forall|k: int|
            0 <= k < ops.len() ==> !(#[trigger] ops[k] matches OverlayOp::HidePassive { window }
                && window == w) && !(ops[k] matches OverlayOp::Drop { window } && window == w),
    ensures
        passive_in(passives_after_all(m, ops), w),
        !passive_in(passives_after(m, OverlayOp::HidePassive { window: w }), w),
        !passive_in(passives_after(m, OverlayOp::Drop { window: w }), w),
    decreases ops.len(),
{
    if ops.len() > 0 {
        let init = ops.drop_last();
        assert forall|k: int| 0 <= k < init.len() implies !(#[trigger] init[k] matches OverlayOp::HidePassive {
            window,
        } && window == w) && !(init[k] matches OverlayOp::Drop { window } && window == w) by {
            assert(init[k] == ops[k]);
        }
        passive_stays_until_hidden(m, w, init);
        assert(ops.last() == ops[ops.len() - 1]);
    }
}

} // verus!
