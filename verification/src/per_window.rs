//! Per-window state: one slot per window id, created on first use and dropped when
//! the window closes. The overlay, dialog, sheet and toast services each keep one.
use vstd::prelude::*;
use std::collections::HashMap;
use vstd::std_specs::iter::IteratorSpec;

verus! {

/// One value per window id.
pub struct WindowSlots<E> {
    slots: HashMap<u32, E>,
}

impl<E> View for WindowSlots<E> {
    type V = Map<u32, E>;

    closed spec fn view(&self) -> Map<u32, E> {
        self.slots@
    }
}

impl<E> WindowSlots<E> {
    /// Finitely many windows have a slot.
    pub proof fn lemma_finite(&self)
        ensures
            self@.dom().finite(),
    {
    }
}

impl<E: Copy> WindowSlots<E> {
    /// No windows yet.
    pub fn new() -> (r: Self)
        ensures
            r@ == Map::<u32, E>::empty(),
    {
        WindowSlots { slots: HashMap::new() }
    }

    /// The value for window `w`, if its slot exists.
    pub fn get(&self, w: u32) -> (r: Option<E>)
        ensures
            r == (if self@.contains_key(w) {
                Some(self@[w])
            } else {
                None
            }),
    {
        match self.slots.get(&w) {
            Some(v) => Some(*v),
            None => None,
        }
    }

    /// Store `v` in window `w`'s slot (creating it if needed).
    pub fn set(&mut self, w: u32, v: E)
        ensures
            final(self)@ == old(self)@.insert(w, v),
    {
        self.slots.insert(w, v);
    }

    /// Drop window `w`'s slot, returning what it held.
    pub fn remove(&mut self, w: u32) -> (r: Option<E>)
        ensures
            final(self)@ == old(self)@.remove(w),
            r == (if old(self)@.contains_key(w) {
                Some(old(self)@[w])
            } else {
                None
            }),
    {
        self.slots.remove(&w)
    }

    /// The window ids with a slot, each once, in no particular order.
    pub fn windows(&self) -> (r: Vec<u32>)
        ensures
            forall|w: u32| self@.contains_key(w) <==> r@.contains(w),
            forall|i: int, j: int| 0 <= i < j < r@.len() ==> r@[i] != r@[j],
    {
        let ghost ks: Seq<u32> = vstd::std_specs::hash::spec_keys_iter(&self.slots).remaining().unref();
        let mut out: Vec<u32> = Vec::new();
        for k in it: self.slots.keys()
            invariant
                it.seq().unref() == ks,
                out@ == it.seq().take(it.index()).unref(),
        {
            out.push(*k);
        }
        proof {
            assert(out@ =~= ks);
            assert forall|w: u32| self@.contains_key(w) <==> out@.contains(w) by {
                assert(ks.to_set().contains(w) <==> ks.contains(w));
            }
        }
        out
    }
}

/// A window's slot reads back what was last stored in it; storing in or dropping
/// another window's slot leaves it alone.
pub proof fn slots_read_back_writes<E>(m: Map<u32, E>, w: u32, other: u32, v: E)
    requires
        other != w,
    ensures
        m.insert(w, v).contains_key(w) && m.insert(w, v)[w] == v,
        m.insert(other, v).contains_key(w) == m.contains_key(w),
        m.contains_key(w) ==> m.insert(other, v)[w] == m[w] && m.remove(other)[w] == m[w],
        !m.remove(w).contains_key(w),
{
}

} // verus!
