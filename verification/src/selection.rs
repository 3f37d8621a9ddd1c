//! Selection rules of the choice controls: a toggle group's cells, a tab strip's
//! keyboard cycling, an accordion's open sections and a multi-select's chosen
//! options.
use vstd::prelude::*;

verus! {

broadcast use vstd::seq_lib::group_seq_properties, vstd::seq_lib::group_to_multiset_ensures;

/// Ascending order.
pub open spec fn ascending(s: Seq<usize>) -> bool {
    forall|a: int, b: int| 0 <= a < b < s.len() ==> s[a] <= s[b]
}

/// The entries of `s` other than `i`, in order.
pub open spec fn without(s: Seq<usize>, i: usize) -> Seq<usize> {
    s.filter(|v: usize| v != i)
}

/// A toggle group's selection after a press of cell `i`: with `multiple`, the cell
/// toggles in or out (a newly added cell leaves the selection sorted); a single
/// selection moves to the cell, or clears when its cell is pressed again and an
/// empty selection is allowed.
pub open spec fn next_selection_ok(values: Seq<usize>, multiple: bool, allow_empty: bool, i: usize, r: Seq<usize>) -> bool {
    let selected = values.contains(i);
    if multiple {
        if selected {
            r == without(values, i)
        } else {
            &&& ascending(r)
            &&& r.to_multiset() == without(values, i).push(i).to_multiset()
        }
    } else if selected && allow_empty {
        r == Seq::<usize>::empty()
    } else {
        r == seq![i]
    }
}

proof fn lemma_filter_step(s: Seq<usize>, i: usize, k: int)
    requires
        0 <= k < s.len(),
    ensures
        without(s.take(k + 1), i) == if s[k] != i {
            without(s.take(k), i).push(s[k])
        } else {
            without(s.take(k), i)
        },
{
    reveal(Seq::filter);
    assert(s.take(k + 1).drop_last() =~= s.take(k));
}

/// `v` sorted ascending.
fn sort_ascending(v: Vec<usize>) -> (r: Vec<usize>)
    ensures
        ascending(r@),
        r@.to_multiset() == v@.to_multiset(),
{
    let mut r: Vec<usize> = Vec::new();
    let mut k: usize = 0;
    while k < v.len()
        invariant
            k <= v.len(),
            ascending(r@),
            r@.to_multiset() == v@.take(k as int).to_multiset(),
        decreases v.len() - k,
    {
        let x = v[k];
        let mut pos: usize = 0;
        while pos < r.len() && r[pos] <= x
            invariant
                pos <= r.len(),
                forall|a: int| 0 <= a < pos ==> r@[a] <= x,
            decreases r.len() - pos,
        {
            pos = pos + 1;
        }
        let ghost before = r@;
        r.insert(pos, x);
        proof {
            assert(v@.take(k + 1) =~= v@.take(k as int).push(x));
            assert forall|a: int, b: int| 0 <= a < b < r@.len() implies r@[a] <= r@[b] by {
                if b < pos {
                } else if b == pos {
                } else if a < pos {
                    assert(before[a] <= x);
                    assert(x <= before[b - 1] || pos == before.len());
                } else if a == pos {
                    assert(pos < before.len() ==> x < before[pos as int]);
                    assert(before[pos as int] <= before[b - 1]);
                } else {
                }
            }
        }
        k = k + 1;
    }
    assert(v@.take(k as int) =~= v@);
    r
}

/// The selection after a press of cell `i` (see [`next_selection_ok`]).
pub fn next_selection(values: &Vec<usize>, multiple: bool, allow_empty: bool, i: usize) -> (r: Vec<usize>)
    ensures
        next_selection_ok(values@, multiple, allow_empty, i, r@),
{
    let mut selected = false;
    let mut rest: Vec<usize> = Vec::new();
    let mut k: usize = 0;
    while k < values.len()
        invariant
            k <= values.len(),
            rest@ == without(values@.take(k as int), i),
            selected == values@.take(k as int).contains(i),
        decreases values.len() - k,
    {
        proof {
            lemma_filter_step(values@, i, k as int);
            assert(values@.take(k + 1) =~= values@.take(k as int).push(values@[k as int]));
        }
        if values[k] == i {
            selected = true;
        } else {
            rest.push(values[k]);
        }
        k = k + 1;
    }
    assert(values@.take(k as int) =~= values@);
    if multiple {
        if selected {
            rest
        } else {
            rest.push(i);
            sort_ascending(rest)
        }
    } else if selected && allow_empty {
        let r: Vec<usize> = Vec::new();
        assert(r@ =~= Seq::<usize>::empty());
        r
    } else {
        let r = vec![i];
        assert(r@ =~= seq![i]);
        r
    }
}

/// Strictly ascending: a selection of distinct cells in order.
pub open spec fn increasing(s: Seq<usize>) -> bool {
    forall|a: int, b: int| 0 <= a < b < s.len() ==> s[a] < s[b]
}

proof fn lemma_without_push(s: Seq<usize>, i: usize, x: usize)
    ensures
        without(s.push(x), i) == if x != i { without(s, i).push(x) } else { without(s, i) },
{
    reveal(Seq::filter);
    assert(s.push(x).drop_last() =~= s);
}

proof fn lemma_without_empty(i: usize)
    ensures
        without(Seq::<usize>::empty(), i) == Seq::<usize>::empty(),
{
    reveal(Seq::filter);
}

/// Removing `i` takes every copy of `i` out of the multiset and nothing else.
proof fn lemma_without_count(s: Seq<usize>, i: usize)
    ensures
        forall|x: usize|
            #[trigger] without(s, i).to_multiset().count(x) == if x == i {
                0
            } else {
                s.to_multiset().count(x)
            },
    decreases s.len(),
{
    broadcast use vstd::multiset::group_multiset_axioms;

    if s.len() == 0 {
        lemma_without_empty(i);
    } else {
        let p = s.drop_last();
        let x = s.last();
        lemma_without_count(p, i);
        lemma_without_push(p, i, x);
        assert(p.push(x) =~= s);
    }
}

/// Removing `i` keeps every other element and its order.
proof fn lemma_without_ascending(s: Seq<usize>, i: usize)
    requires
        ascending(s),
    ensures
        ascending(without(s, i)),
        forall|x: usize| without(s, i).contains(x) ==> s.contains(x) && x != i,
    decreases s.len(),
{
    if s.len() == 0 {
        lemma_without_empty(i);
    } else {
        let p = s.drop_last();
        let x = s.last();
        assert(ascending(p));
        lemma_without_ascending(p, i);
        lemma_without_push(p, i, x);
        assert(p.push(x) =~= s);
        assert forall|y: usize| without(p, i).contains(y) implies y <= x by {
            assert(p.contains(y));
            let k = choose|k: int| 0 <= k < p.len() && p[k] == y;
            assert(p[k] == s[k]);
            assert(s[k] <= s[s.len() - 1]);
        }
        if x != i {
            let w = without(p, i);
            let w2 = w.push(x);
            assert forall|a: int, b: int| 0 <= a < b < w2.len() implies w2[a] <= w2[b] by {
                if b == w2.len() - 1 {
                    assert(w.contains(w[a]));
                } else {
                    assert(w2[a] == w[a] && w2[b] == w[b]);
                }
            }
        }
    }
}

proof fn lemma_le_total()
    ensures
        vstd::relations::total_ordering(|a: usize, b: usize| a <= b),
{
}

/// Two ascending selections with the same cells are the same selection.
proof fn lemma_same_cells(x: Seq<usize>, y: Seq<usize>)
    requires
        ascending(x),
        ascending(y),
        x.to_multiset() == y.to_multiset(),
    ensures
        x == y,
{
    lemma_le_total();
    let leq = |a: usize, b: usize| a <= b;
    assert(vstd::relations::sorted_by(x, leq));
    assert(vstd::relations::sorted_by(y, leq));
    vstd::seq_lib::lemma_sorted_unique(x, y, leq);
}

/// In a multi-select toggle group, pressing the same cell twice gives back the
/// selection it started from (for a selection of distinct cells in order).
pub proof fn toggling_twice_restores(
    values: Seq<usize>,
    allow_empty: bool,
    i: usize,
    r1: Seq<usize>,
    r2: Seq<usize>,
)
    requires
        increasing(values),
        next_selection_ok(values, true, allow_empty, i, r1),
        next_selection_ok(r1, true, allow_empty, i, r2),
    ensures
        r2 == values,
{
    broadcast use vstd::multiset::group_multiset_axioms;

    assert(ascending(values));
    lemma_without_count(values, i);
    if values.contains(i) {
        // The first press removed the cell; the second one adds it back in order.
        lemma_without_ascending(values, i);
        assert(!r1.contains(i));
        assert(without(r1, i) == r1) by {
            lemma_without_count(r1, i);
            lemma_without_ascending(r1, i);
            assert(ascending(r1));
            assert(without(r1, i).to_multiset() =~= r1.to_multiset());
            lemma_same_cells(without(r1, i), r1);
        }
        let k = choose|k: int| 0 <= k < values.len() && values[k] == i;
        assert forall|x: usize| r2.to_multiset().count(x) == values.to_multiset().count(x) by {
            if x == i {
                assert(values.to_multiset().count(i) == 1) by {
                    assert forall|j: int| 0 <= j < values.len() && j != k implies values[j] != i by {
                        if j < k {
                            assert(values[j] < values[k]);
                        } else {
                            assert(values[k] < values[j]);
                        }
                    }
                    lemma_count_one(values, k);
                }
            }
        }
        assert(r2.to_multiset() =~= values.to_multiset());
        lemma_same_cells(r2, values);
    } else {
        // The first press added the cell; the second one removes it again.
        assert(without(values, i) == values) by {
            lemma_without_ascending(values, i);
            assert(without(values, i).to_multiset() =~= values.to_multiset());
            lemma_same_cells(without(values, i), values);
        }
        lemma_without_count(r1, i);
        lemma_without_ascending(r1, i);
        assert(r1.contains(i)) by {
            assert(without(values, i).push(i).to_multiset().count(i) > 0);
            assert(r1.to_multiset().count(i) > 0);
        }
        assert(r2 == without(r1, i));
        assert forall|x: usize| r2.to_multiset().count(x) == values.to_multiset().count(x) by {
            if x == i {
                assert(values.to_multiset().count(i) == 0);
            } else {
                assert(r1.to_multiset().count(x) == without(values, i).push(i).to_multiset().count(x));
            }
        }
        assert(r2.to_multiset() =~= values.to_multiset());
        lemma_same_cells(r2, values);
    }
}

/// An element at exactly one position occurs once.
proof fn lemma_count_one(s: Seq<usize>, k: int)
    requires
        0 <= k < s.len(),
        forall|j: int| 0 <= j < s.len() && j != k ==> s[j] != s[k],
    ensures
        s.to_multiset().count(s[k]) == 1,
    decreases s.len(),
{
    broadcast use vstd::multiset::group_multiset_axioms;

    let p = s.drop_last();
    assert(p.push(s.last()) =~= s);
    if k == s.len() - 1 {
        assert(!p.contains(s[k]));
        assert(p.to_multiset().count(s[k]) == 0);
    } else {
        assert(p[k] == s[k]);
        lemma_count_one(p, k);
    }
}

/// One step from tab `t` around a strip of `n` tabs.
pub open spec fn step_tab(t: int, forward: bool, n: int) -> int {
    if forward {
        if t + 1 >= n { 0 } else { t + 1 }
    } else {
        if t <= 0 { n - 1 } else { t - 1 }
    }
}

/// The tab `off` steps away from tab `s`, wrapping around.
pub open spec fn walk(s: int, off: nat, forward: bool, n: int) -> int
    decreases off,
{
    if off == 0 {
        s
    } else {
        step_tab(walk(s, (off - 1) as nat, forward, n), forward, n)
    }
}

proof fn lemma_walk_closed(s: int, off: nat, forward: bool, n: int)
    requires
        0 <= s < n,
        off <= n,
    ensures
        walk(s, off, forward, n) == if forward {
            if s + off < n { s + off } else { s + off - n }
        } else {
            if off <= s { s - off } else { s + n - off }
        },
    decreases off,
{
    if off > 0 {
        lemma_walk_closed(s, (off - 1) as nat, forward, n);
    }
}

/// Left/Right (Up/Down) on a focused tab strip: the first enabled tab `1..=n`
/// steps away from `selected`, wrapping around (`selected` counts modulo `n`);
/// none when no tab is enabled.
pub fn tab_step(selected: usize, enabled: &Vec<bool>, forward: bool) -> (r: Option<usize>)
    ensures
        match r {
            Some(t) => {
                &&& t < enabled@.len()
                &&& enabled@[t as int]
                &&& exists|off: nat|
                    1 <= off <= enabled@.len() && t == #[trigger] walk(
                        (selected as int % enabled@.len() as int),
                        off,
                        forward,
                        enabled@.len() as int,
                    ) && forall|o: nat|
                        1 <= o < off ==> !enabled@[#[trigger] walk(
                            (selected as int % enabled@.len() as int),
                            o,
                            forward,
                            enabled@.len() as int,
                        )]
            },
            None => forall|t: int| 0 <= t < enabled@.len() ==> !enabled@[t],
        },
{
    let n = enabled.len();
    if n == 0 {
        return None;
    }
    let s: usize = selected % n;
    let mut t: usize = s;
    let mut k: usize = 0;
    while k < n
        invariant
            k <= n,
            n == enabled@.len(),
            n > 0,
            s == selected % n,
            t < n,
            t == walk(s as int, k as nat, forward, n as int),
            forall|o: nat| 1 <= o <= k ==> !enabled@[#[trigger] walk(s as int, o, forward, n as int)],
        decreases n - k,
    {
        t = if forward {
            if t + 1 >= n { 0 } else { t + 1 }
        } else {
            if t == 0 { n - 1 } else { t - 1 }
        };
        assert(t == walk(s as int, (k + 1) as nat, forward, n as int));
        if enabled[t] {
            return Some(t);
        }
        k = k + 1;
    }
    proof {
        assert forall|x: int| 0 <= x < n implies !enabled@[x] by {
            let o: int = if forward {
                if x > s { x - s } else { x + n - s }
            } else {
                if x < s { s - x } else { s + n - x }
            };
            lemma_walk_closed(s as int, o as nat, forward, n as int);
            assert(1 <= o <= n);
            assert(walk(s as int, o as nat, forward, n as int) == x);
        }
    }
    None
}

/// An accordion's sections at start: those listed in `default_open` are open
/// (indices past the end ignored).
pub fn accordion_open(n: usize, default_open: &Vec<usize>) -> (r: Vec<bool>)
    ensures
        r@.len() == n,
        forall|j: int| 0 <= j < n ==> r@[j] == default_open@.contains(j as usize),
{
    let mut r: Vec<bool> = Vec::new();
    let mut j: usize = 0;
    while j < n
        invariant
            j <= n,
            r@.len() == j,
            forall|a: int| 0 <= a < j ==> !r@[a],
        decreases n - j,
    {
        r.push(false);
        j = j + 1;
    }
    let mut k: usize = 0;
    while k < default_open.len()
        invariant
            k <= default_open.len(),
            r@.len() == n,
            forall|a: int| 0 <= a < n ==> r@[a] == default_open@.take(k as int).contains(a as usize),
        decreases default_open.len() - k,
    {
        let i = default_open[k];
        proof {
            assert(default_open@.take(k + 1) =~= default_open@.take(k as int).push(i));
        }
        if i < n {
            r.set(i, true);
        }
        k = k + 1;
    }
    assert(default_open@.take(k as int) =~= default_open@);
    r
}

/// A tap on section `index`'s header: with `multiple` only that section toggles;
/// otherwise every other section closes and it toggles. Returns its new state.
pub fn accordion_toggle(open: &mut Vec<bool>, index: usize, multiple: bool) -> (r: bool)
    requires
        index < old(open)@.len(),
    ensures
        final(open)@.len() == old(open)@.len(),
        r == !old(open)@[index as int],
        final(open)@[index as int] == r,
        forall|j: int|
            0 <= j < old(open)@.len() && j != index ==> final(open)@[j] == if multiple {
                old(open)@[j]
            } else {
                false
            },
{
    let was = open[index];
    if !multiple {
        let mut j: usize = 0;
        while j < open.len()
            invariant
                j <= open@.len(),
                open@.len() == old(open)@.len(),
                index < open@.len(),
                was == old(open)@[index as int],
                forall|a: int| 0 <= a < j ==> !open@[a],
                forall|a: int| j <= a < open@.len() ==> open@[a] == old(open)@[a],
            decreases open@.len() - j,
        {
            open.set(j, false);
            j = j + 1;
        }
    }
    open.set(index, !was);
    !was
}

/// A pick of option `i` in a multi-select: a chosen option leaves the selection
/// (its first occurrence), another joins it at the end.
pub fn toggle_member(v: &mut Vec<usize>, i: usize)
    ensures
        old(v)@.contains(i) ==> exists|p: int|
            0 <= p < old(v)@.len() && old(v)@[p] == i && (forall|q: int| 0 <= q < p ==> old(v)@[q] != i)
                && final(v)@ == old(v)@.remove(p),
        !old(v)@.contains(i) ==> final(v)@ == old(v)@.push(i),
{
    let mut p: usize = 0;
    while p < v.len()
        invariant
            p <= v@.len(),
            v@ == old(v)@,
            forall|q: int| 0 <= q < p ==> v@[q] != i,
        decreases v@.len() - p,
    {
        if v[p] == i {
            v.remove(p);
            return;
        }
        p = p + 1;
    }
    v.push(i);
}

} // verus!
