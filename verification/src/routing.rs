//! Built-in routing: [`NavStack`] (a navigation history) and path patterns
//! (`/user/:id`, `/files/*rest`) matched against the current path, capturing
//! [`RouteParams`]. Routes are tried in registration order and the first match wins.
use vstd::prelude::*;
use vstd::string::*;
use crate::text::{split, split_chars, views, chars_of, string_of};
use crate::num::{parse_unsigned, parse_unsigned_spec, parse_signed, parse_signed_spec};

verus! {

broadcast use vstd::seq_lib::group_seq_properties;

// ---------------------------------------------------------------------------
// NavStack
// ---------------------------------------------------------------------------

/// A navigation history — a stack of route names.
#[derive(Debug)]
pub struct NavStack {
    stack: Vec<String>,
}

impl View for NavStack {
    type V = Seq<Seq<char>>;

    closed spec fn view(&self) -> Seq<Seq<char>> {
        self.stack@.map_values(|s: String| s@)
    }
}

impl Default for NavStack {
    fn default() -> (r: NavStack)
        ensures
            r@ == Seq::<Seq<char>>::empty(),
    {
        let r = NavStack { stack: Vec::new() };
        assert(r@ =~= Seq::<Seq<char>>::empty());
        r
    }
}

impl Clone for NavStack {
    fn clone(&self) -> (r: NavStack)
        ensures
            r@ == self@,
    {
        let mut out: Vec<String> = Vec::new();
        let mut i: usize = 0;
        while i < self.stack.len()
            invariant
                i <= self.stack@.len(),
                out@.len() == i,
                forall|j: int| 0 <= j < i ==> #[trigger] out@[j]@ == self.stack@[j]@,
            decreases self.stack@.len() - i,
        {
            let c = self.stack[i].clone();
            out.push(c);
            i = i + 1;
        }
        let r = NavStack { stack: out };
        assert(r@ =~= self@);
        r
    }
}

impl NavStack {
    /// A stack starting at `initial`.
    pub fn new(initial: String) -> (r: NavStack)
        ensures
            r@ == seq![initial@],
    {
        let mut stack: Vec<String> = Vec::new();
        stack.push(initial);
        let r = NavStack { stack };
        assert(r@ =~= seq![initial@]);
        r
    }

    /// The current (top) route, or `""` when the history is empty.
    pub fn current(&self) -> (r: &str)
        ensures
            r@ == (if self@.len() > 0 {
                self@.last()
            } else {
                Seq::<char>::empty()
            }),
    {
        let n = self.stack.len();
        if n > 0 {
            self.stack[n - 1].as_str()
        } else {
            proof {
                reveal_strlit("");
            }
            ""
        }
    }

    /// Push a new route (keeps history for `pop`).
    pub fn push(&mut self, route: String)
        ensures
            final(self)@ == old(self)@.push(route@),
    {
        self.stack.push(route);
        assert(final(self)@ =~= old(self)@.push(route@));
    }

    /// Replace the current route in place (no history entry); on an empty history the
    /// route becomes the only entry.
    pub fn replace(&mut self, route: String)
        ensures
            old(self)@.len() > 0 ==> final(self)@ == old(self)@.update(
                old(self)@.len() - 1,
                route@,
            ),
            old(self)@.len() == 0 ==> final(self)@ == seq![route@],
    {
        let n = self.stack.len();
        if n > 0 {
            self.stack.set(n - 1, route);
            assert(final(self)@ =~= old(self)@.update(old(self)@.len() - 1, route@));
        } else {
            self.stack.push(route);
            assert(final(self)@ =~= seq![route@]);
        }
    }

    /// Pop back to the previous route. Returns `false` (and changes nothing) when at
    /// the root.
    pub fn pop(&mut self) -> (r: bool)
        ensures
            r == (old(self)@.len() > 1),
            r ==> final(self)@ == old(self)@.drop_last(),
            !r ==> final(self)@ == old(self)@,
    {
        if self.stack.len() > 1 {
            self.stack.pop();
            assert(final(self)@ =~= old(self)@.drop_last());
            true
        } else {
            false
        }
    }

    /// Whether there is history to pop.
    pub fn can_pop(&self) -> (r: bool)
        ensures
            r == (self@.len() > 1),
    {
        self.stack.len() > 1
    }

    /// The number of entries in the history.
    pub fn depth(&self) -> (r: usize)
        ensures
            r == self@.len(),
    {
        self.stack.len()
    }
}

/// Pushing a route and popping it again restores the history.
pub proof fn push_then_pop_restores(h: Seq<Seq<char>>, route: Seq<char>)
    requires
        h.len() >= 1,
    ensures
        h.push(route).len() > 1,
        h.push(route).drop_last() == h,
{
    assert(h.push(route).drop_last() =~= h);
}

/// Replacing keeps the depth of a non-empty history and makes the route current.
pub proof fn replace_keeps_depth(h: Seq<Seq<char>>, route: Seq<char>)
    requires
        h.len() >= 1,
    ensures
        h.update(h.len() - 1, route).len() == h.len(),
        h.update(h.len() - 1, route).last() == route,
{
}

// ---------------------------------------------------------------------------
// Ordering of names
// ---------------------------------------------------------------------------

/// Lexicographic order on names (the order of `String`'s `Ord`: by code point).
pub open spec fn name_lt(a: Seq<char>, b: Seq<char>) -> bool
    decreases a.len(),
{
    if a.len() == 0 {
        b.len() > 0
    } else if b.len() == 0 {
        false
    } else if a[0] != b[0] {
        a[0] < b[0]
    } else {
        name_lt(a.drop_first(), b.drop_first())
    }
}

proof fn lemma_name_lt_irreflexive(a: Seq<char>)
    ensures
        !name_lt(a, a),
    decreases a.len(),
{
    if a.len() > 0 {
        lemma_name_lt_irreflexive(a.drop_first());
    }
}

proof fn lemma_name_lt_total(a: Seq<char>, b: Seq<char>)
    ensures
        a != b ==> name_lt(a, b) || name_lt(b, a),
        name_lt(a, b) ==> !name_lt(b, a),
    decreases a.len(),
{
    if a.len() > 0 && b.len() > 0 {
        lemma_name_lt_total(a.drop_first(), b.drop_first());
        if a[0] == b[0] && a.drop_first() == b.drop_first() {
            assert(a =~= seq![a[0]] + a.drop_first());
            assert(b =~= seq![b[0]] + b.drop_first());
        }
    } else if a.len() == 0 && b.len() == 0 {
        assert(a =~= b);
    }
}

proof fn lemma_name_lt_transitive(a: Seq<char>, b: Seq<char>, c: Seq<char>)
    requires
        name_lt(a, b),
        name_lt(b, c),
    ensures
        name_lt(a, c),
    decreases a.len(),
{
    if a.len() > 0 && b.len() > 0 && c.len() > 0 {
        if a[0] == b[0] && b[0] == c[0] {
            lemma_name_lt_transitive(a.drop_first(), b.drop_first(), c.drop_first());
        }
    }
}

/// Whether `a` orders before `b`.
fn name_less(a: &str, b: &str) -> (r: bool)
    ensures
        r == name_lt(a@, b@),
{
    let n = a.unicode_len();
    let m = b.unicode_len();
    let mut i: usize = 0;
    while i < n && i < m
        invariant
            n == a@.len(),
            m == b@.len(),
            i <= n,
            i <= m,
            name_lt(a@, b@) == name_lt(a@.skip(i as int), b@.skip(i as int)),
        decreases n - i,
    {
        let x = a.get_char(i);
        let y = b.get_char(i);
        proof {
            assert(a@.skip(i as int)[0] == x);
            assert(b@.skip(i as int)[0] == y);
            assert(a@.skip(i as int).drop_first() =~= a@.skip(i + 1));
            assert(b@.skip(i as int).drop_first() =~= b@.skip(i + 1));
        }
        if x != y {
            return x < y;
        }
        i = i + 1;
    }
    proof {
        assert(a@.skip(i as int).len() == n - i);
        assert(b@.skip(i as int).len() == m - i);
    }
    i < m
}

/// Whether two names are equal.
fn name_eq(a: &str, b: &str) -> (r: bool)
    ensures
        r == (a@ == b@),
{
    a.to_owned() == b.to_owned()
}

// ---------------------------------------------------------------------------
// RouteParams
// ---------------------------------------------------------------------------

/// Name/value pairs as a map (later pairs win).
pub open spec fn pairs_map(e: Seq<(Seq<char>, Seq<char>)>) -> Map<Seq<char>, Seq<char>>
    decreases e.len(),
{
    if e.len() == 0 {
        Map::empty()
    } else {
        pairs_map(e.drop_last()).insert(e.last().0, e.last().1)
    }
}

/// The pairs are sorted strictly by name.
pub open spec fn sorted_names(e: Seq<(Seq<char>, Seq<char>)>) -> bool {
    forall|i: int, j: int| 0 <= i < j < e.len() ==> name_lt(#[trigger] e[i].0, #[trigger] e[j].0)
}

/// The path values captured by a pattern — matching `/user/:id` against `/user/42`
/// yields `{ "id": "42" }`.
#[derive(Debug)]
pub struct RouteParams {
    params: Vec<(String, String)>,
}

/// The pairs as values.
pub open spec fn pair_views(v: Seq<(String, String)>) -> Seq<(Seq<char>, Seq<char>)> {
    v.map_values(|p: (String, String)| (p.0@, p.1@))
}

impl RouteParams {
    /// The captured pairs, sorted by name.
    pub closed spec fn entries(&self) -> Seq<(Seq<char>, Seq<char>)> {
        pair_views(self.params@)
    }

    #[verifier::type_invariant]
    closed spec fn sorted(&self) -> bool {
        sorted_names(pair_views(self.params@))
    }
}

impl View for RouteParams {
    type V = Map<Seq<char>, Seq<char>>;

    open spec fn view(&self) -> Map<Seq<char>, Seq<char>> {
        pairs_map(self.entries())
    }
}

proof fn lemma_pairs_map_dom(e: Seq<(Seq<char>, Seq<char>)>, k: Seq<char>)
    ensures
        pairs_map(e).contains_key(k) <==> exists|i: int| 0 <= i < e.len() && #[trigger] e[i].0
            == k,
    decreases e.len(),
{
    if e.len() > 0 {
        lemma_pairs_map_dom(e.drop_last(), k);
        if pairs_map(e.drop_last()).contains_key(k) {
            let i = choose|i: int| 0 <= i < e.drop_last().len() && #[trigger] e.drop_last()[i].0
                == k;
            assert(e[i].0 == k);
        }
        if exists|i: int| 0 <= i < e.len() && #[trigger] e[i].0 == k {
            let i = choose|i: int| 0 <= i < e.len() && #[trigger] e[i].0 == k;
            if i < e.len() - 1 {
                assert(e.drop_last()[i].0 == k);
            }
        }
    }
}

proof fn lemma_pairs_map_at(e: Seq<(Seq<char>, Seq<char>)>, i: int)
    requires
        sorted_names(e),
        0 <= i < e.len(),
    ensures
        pairs_map(e).contains_key(e[i].0),
        pairs_map(e)[e[i].0] == e[i].1,
    decreases e.len(),
{
    if i == e.len() - 1 {
    } else {
        let d = e.drop_last();
        assert(sorted_names(d)) by {
            assert forall|a: int, b: int| 0 <= a < b < d.len() implies name_lt(
                #[trigger] d[a].0,
                #[trigger] d[b].0,
            ) by {
                assert(d[a] == e[a] && d[b] == e[b]);
            }
        }
        lemma_pairs_map_at(d, i);
        assert(d[i] == e[i]);
        assert(name_lt(e[i].0, e[e.len() - 1].0));
        lemma_name_lt_irreflexive(e[i].0);
    }
}

impl Default for RouteParams {
    fn default() -> (r: RouteParams)
        ensures
            r@ == Map::<Seq<char>, Seq<char>>::empty(),
    {
        let r = RouteParams { params: Vec::new() };
        proof {
            assert(pair_views(r.params@) =~= Seq::<(Seq<char>, Seq<char>)>::empty());
        }
        r
    }
}

impl RouteParams {
    /// An empty set of captures.
    pub fn new() -> (r: RouteParams)
        ensures
            r@ == Map::<Seq<char>, Seq<char>>::empty(),
    {
        RouteParams::default()
    }

    /// The index of `name` among the sorted pairs, if present.
    fn find(&self, name: &str) -> (r: Option<usize>)
        ensures
            r matches Some(i) ==> i < self.entries().len() && self.entries()[i as int].0 == name@,
            r is None ==> !self@.contains_key(name@),
    {
        proof {
            use_type_invariant(self);
        }
        let ghost e = self.entries();
        let mut i: usize = 0;
        while i < self.params.len()
            invariant
                e == pair_views(self.params@),
                i <= e.len(),
                forall|j: int| 0 <= j < i ==> e[j].0 != name@,
            decreases e.len() - i,
        {
            proof {
                assert(e[i as int].0 == self.params@[i as int].0@);
            }
            if name_eq(self.params[i].0.as_str(), name) {
                return Some(i);
            }
            i = i + 1;
        }
        proof {
            lemma_pairs_map_dom(e, name@);
        }
        None
    }

    /// The captured value for `name` (the `:name` in the pattern), if present.
    pub fn get(&self, name: &str) -> (r: Option<&str>)
        ensures
            r is Some <==> self@.contains_key(name@),
            r matches Some(v) ==> v@ == self@[name@],
    {
        proof {
            use_type_invariant(self);
        }
        match self.find(name) {
            Some(i) => {
                proof {
                    lemma_pairs_map_at(self.entries(), i as int);
                }
                Some(self.params[i].1.as_str())
            },
            None => None,
        }
    }

    /// The captured value for `name`, or `default` when the segment is absent.
    pub fn get_or<'a>(&'a self, name: &str, default: &'a str) -> (r: &'a str)
        ensures
            self@.contains_key(name@) ==> r@ == self@[name@],
            !self@.contains_key(name@) ==> r@ == default@,
    {
        match self.get(name) {
            Some(v) => v,
            None => default,
        }
    }

    /// The captured value for `name`, parsed into `T` (e.g. `get_as::<u64>("id")`);
    /// `None` if the segment is absent or doesn't parse.
    pub fn get_as<T: FromParam>(&self, name: &str) -> (r: Option<T>)
        ensures
            !self@.contains_key(name@) ==> r is None,
            self@.contains_key(name@) ==> r == T::parse_spec(self@[name@]),
    {
        match self.get(name) {
            Some(v) => T::from_param(v),
            None => None,
        }
    }

    /// Whether any path parameter was captured.
    pub fn is_empty(&self) -> (r: bool)
        ensures
            r == (self@.dom().len() == 0),
            r == (self@ == Map::<Seq<char>, Seq<char>>::empty()),
    {
        proof {
            use_type_invariant(self);
            lemma_entries_dom(self.entries());
        }
        self.params.len() == 0
    }

    /// The captured `(name, value)` pairs, sorted by name.
    pub fn iter(&self) -> (r: Vec<(&str, &str)>)
        ensures
            r@.len() == self.entries().len(),
            forall|i: int|
                0 <= i < r@.len() ==> (#[trigger] r@[i]).0@ == self.entries()[i].0 && r@[i].1@
                    == self.entries()[i].1,
            sorted_names(self.entries()),
            self@ == pairs_map(self.entries()),
    {
        proof {
            use_type_invariant(self);
        }
        let mut out: Vec<(&str, &str)> = Vec::new();
        let mut i: usize = 0;
        while i < self.params.len()
            invariant
                i <= self.params@.len(),
                out@.len() == i,
                forall|j: int|
                    0 <= j < i ==> (#[trigger] out@[j]).0@ == self.entries()[j].0 && out@[j].1@
                        == self.entries()[j].1,
            decreases self.params@.len() - i,
        {
            out.push((self.params[i].0.as_str(), self.params[i].1.as_str()));
            i = i + 1;
        }
        out
    }

    /// Record `name ↦ value`, replacing an earlier value for the same name.
    #[verifier::rlimit(40)]
    pub fn insert(&mut self, name: String, value: String)
        ensures
            final(self)@ == old(self)@.insert(name@, value@),
    {
        proof {
            use_type_invariant(&*self);
        }
        let ghost e = self.entries();
        let n = self.params.len();
        let mut i: usize = 0;
        while i < n && name_less(self.params[i].0.as_str(), name.as_str())
            invariant
                n == self.params@.len(),
                e == pair_views(self.params@),
                sorted_names(e),
                i <= n,
                forall|j: int| 0 <= j < i ==> name_lt(#[trigger] e[j].0, name@),
            decreases n - i,
        {
            i = i + 1;
        }
        proof {
            assert(forall|j: int| 0 <= j < i ==> name_lt(#[trigger] e[j].0, name@));
        }
        if i < n && name_eq(self.params[i].0.as_str(), name.as_str()) {
            let ghost key = name@;
            let ghost val = value@;
            proof {
                lemma_pairs_update(e, i as int, key, val);
                assert(pair_views(self.params@.update(i as int, (name, value))) =~= e.update(
                    i as int,
                    (key, val),
                ));
            }
            let mut params: Vec<(String, String)> = Vec::new();
            std::mem::swap(&mut params, &mut self.params);
            params.set(i, (name, value));
            self.params = params;
        } else {
            let ghost key = name@;
            let ghost val = value@;
            proof {
                if i < n {
                    lemma_name_lt_total(e[i as int].0, key);
                }
            }
            proof {
                lemma_pairs_insert(e, i as int, key, val);
                assert(pair_views(self.params@.insert(i as int, (name, value))) =~= e.insert(
                    i as int,
                    (key, val),
                ));
            }
            let mut params: Vec<(String, String)> = Vec::new();
            std::mem::swap(&mut params, &mut self.params);
            params.insert(i, (name, value));
            self.params = params;
        }
    }
}

proof fn lemma_entries_dom(e: Seq<(Seq<char>, Seq<char>)>)
    ensures
        pairs_map(e).dom().len() == 0 <==> e.len() == 0,
        e.len() == 0 <==> pairs_map(e) == Map::<Seq<char>, Seq<char>>::empty(),
    decreases e.len(),
{
    if e.len() > 0 {
        lemma_pairs_map_dom(e, e.last().0);
        assert(pairs_map(e).contains_key(e.last().0));
        lemma_pairs_map_finite(e);
        assert(pairs_map(e).dom().contains(e.last().0));
        vstd::set_lib::lemma_set_empty_equivalency_len(pairs_map(e).dom());
        assert(!(pairs_map(e) =~= Map::<Seq<char>, Seq<char>>::empty()));
    } else {
        assert(pairs_map(e).dom() =~= Set::<Seq<char>>::empty());
    }
}

proof fn lemma_pairs_map_finite(e: Seq<(Seq<char>, Seq<char>)>)
    ensures
        pairs_map(e).dom().finite(),
    decreases e.len(),
{
    if e.len() > 0 {
        lemma_pairs_map_finite(e.drop_last());
    }
}

/// Inserting a new name at its sorted place keeps the pairs sorted and adds the name
/// to the map.
proof fn lemma_pairs_insert(e: Seq<(Seq<char>, Seq<char>)>, i: int, k: Seq<char>, v: Seq<char>)
    requires
        sorted_names(e),
        0 <= i <= e.len(),
        forall|j: int| 0 <= j < i ==> name_lt(#[trigger] e[j].0, k),
        i < e.len() ==> name_lt(k, e[i].0),
    ensures
        sorted_names(e.insert(i, (k, v))),
        pairs_map(e.insert(i, (k, v))) == pairs_map(e).insert(k, v),
    decreases e.len(),
{
    let f = e.insert(i, (k, v));
    assert forall|a: int, b: int| 0 <= a < b < f.len() implies name_lt(
        #[trigger] f[a].0,
        #[trigger] f[b].0,
    ) by {
        if a < i && b < i {
        } else if a < i && b == i {
        } else if a < i && b > i {
            assert(f[b] == e[b - 1]);
            if i < e.len() {
                lemma_name_lt_transitive(e[a].0, k, e[i].0);
                if b - 1 > i {
                    lemma_name_lt_transitive(e[a].0, e[i].0, e[b - 1].0);
                }
            }
        } else if a == i {
            assert(f[b] == e[b - 1]);
            if b - 1 > i {
                lemma_name_lt_transitive(k, e[i].0, e[b - 1].0);
            }
        } else {
            assert(f[a] == e[a - 1] && f[b] == e[b - 1]);
        }
    }
    if i == e.len() {
        assert(f.drop_last() =~= e);
    } else {
        let d = e.drop_last();
        assert(sorted_names(d)) by {
            assert forall|a: int, b: int| 0 <= a < b < d.len() implies name_lt(
                #[trigger] d[a].0,
                #[trigger] d[b].0,
            ) by {
                assert(d[a] == e[a] && d[b] == e[b]);
            }
        }
        if i < d.len() {
            assert(d[i] == e[i]);
        }
        lemma_pairs_insert(d, i, k, v);
        assert(f.drop_last() =~= d.insert(i, (k, v)));
        assert(f.last() == e.last());
        let last = e.last();
        if i < e.len() - 1 {
            lemma_name_lt_transitive(k, e[i].0, last.0);
        }
        lemma_name_lt_irreflexive(k);
        assert(last.0 != k);
        assert(pairs_map(f) =~= pairs_map(e).insert(k, v));
    }
}

/// Replacing the value of a present name keeps the pairs sorted and updates the map.
proof fn lemma_pairs_update(e: Seq<(Seq<char>, Seq<char>)>, i: int, k: Seq<char>, v: Seq<char>)
    requires
        sorted_names(e),
        0 <= i < e.len(),
        e[i].0 == k,
    ensures
        sorted_names(e.update(i, (k, v))),
        pairs_map(e.update(i, (k, v))) == pairs_map(e).insert(k, v),
    decreases e.len(),
{
    let f = e.update(i, (k, v));
    assert forall|a: int, b: int| 0 <= a < b < f.len() implies name_lt(
        #[trigger] f[a].0,
        #[trigger] f[b].0,
    ) by {
        assert(f[a].0 == e[a].0 && f[b].0 == e[b].0);
    }
    if i == e.len() - 1 {
        assert(f.drop_last() =~= e.drop_last());
        assert(pairs_map(f) =~= pairs_map(e).insert(k, v));
    } else {
        let d = e.drop_last();
        assert(sorted_names(d)) by {
            assert forall|a: int, b: int| 0 <= a < b < d.len() implies name_lt(
                #[trigger] d[a].0,
                #[trigger] d[b].0,
            ) by {
                assert(d[a] == e[a] && d[b] == e[b]);
            }
        }
        assert(d[i] == e[i]);
        lemma_pairs_update(d, i, k, v);
        assert(f.drop_last() =~= d.update(i, (k, v)));
        lemma_name_lt_irreflexive(k);
        assert(name_lt(e[i].0, e.last().0));
        assert(pairs_map(f) =~= pairs_map(e).insert(k, v));
    }
}

// ---------------------------------------------------------------------------
// Typed parameters
// ---------------------------------------------------------------------------

/// A type a path parameter can be read as (`str::parse` semantics).
pub trait FromParam: Sized {
    /// What `s` reads as.
    spec fn parse_spec(s: Seq<char>) -> Option<Self>;

    /// Read `s`; `None` if it does not parse.
    fn from_param(s: &str) -> (r: Option<Self>)
        ensures
            r == Self::parse_spec(s@),
    ;
}

impl FromParam for u64 {
    open spec fn parse_spec(s: Seq<char>) -> Option<u64> {
        match parse_unsigned_spec(s, u64::MAX as nat) {
            Some(v) => Some(v as u64),
            None => None,
        }
    }

    fn from_param(s: &str) -> (r: Option<u64>) {
        let cs = chars_of(s);
        parse_unsigned(&cs, u64::MAX)
    }
}

impl FromParam for u32 {
    open spec fn parse_spec(s: Seq<char>) -> Option<u32> {
        match parse_unsigned_spec(s, u32::MAX as nat) {
            Some(v) => Some(v as u32),
            None => None,
        }
    }

    fn from_param(s: &str) -> (r: Option<u32>) {
        let cs = chars_of(s);
        match parse_unsigned(&cs, u32::MAX as u64) {
            Some(v) => Some(v as u32),
            None => None,
        }
    }
}

impl FromParam for i64 {
    open spec fn parse_spec(s: Seq<char>) -> Option<i64> {
        match parse_signed_spec(s, 0x8000_0000_0000_0000, i64::MAX as nat) {
            Some(v) => Some(v as i64),
            None => None,
        }
    }

    fn from_param(s: &str) -> (r: Option<i64>) {
        let cs = chars_of(s);
        match parse_signed(&cs, 0x8000_0000_0000_0000, i64::MAX as u64) {
            Some(v) => Some(v as i64),
            None => None,
        }
    }
}

impl FromParam for i32 {
    open spec fn parse_spec(s: Seq<char>) -> Option<i32> {
        match parse_signed_spec(s, 0x8000_0000, i32::MAX as nat) {
            Some(v) => Some(v as i32),
            None => None,
        }
    }

    fn from_param(s: &str) -> (r: Option<i32>) {
        let cs = chars_of(s);
        match parse_signed(&cs, 0x8000_0000, i32::MAX as u64) {
            Some(v) => Some(v as i32),
            None => None,
        }
    }
}

// ---------------------------------------------------------------------------
// Patterns
// ---------------------------------------------------------------------------

/// One compiled pattern segment.
#[derive(Clone, Debug)]
pub enum Seg {
    /// A literal segment that must match exactly.
    Lit(String),
    /// A `:name` capture segment (one segment).
    Param(String),
    /// A `*name` catch-all — captures the whole rest of the path (must be last).
    Wildcard(String),
}

/// A pattern segment as values.
pub enum SegView {
    Lit(Seq<char>),
    Param(Seq<char>),
    Wildcard(Seq<char>),
}

impl View for Seg {
    type V = SegView;

    open spec fn view(&self) -> SegView {
        match self {
            Seg::Lit(s) => SegView::Lit(s@),
            Seg::Param(s) => SegView::Param(s@),
            Seg::Wildcard(s) => SegView::Wildcard(s@),
        }
    }
}

/// A pattern as values.
pub open spec fn pattern_view(p: Seq<Seg>) -> Seq<SegView> {
    p.map_values(|s: Seg| s@)
}

/// The non-empty pieces of `s` between `/` (leading, trailing and doubled slashes are
/// ignored).
pub open spec fn segments_spec(s: Seq<char>) -> Seq<Seq<char>> {
    split(s, '/').filter(|x: Seq<char>| x.len() > 0)
}

/// What a pattern piece compiles to: `:name` a capture, `*name` a catch-all, anything
/// else a literal.
pub open spec fn classify(x: Seq<char>) -> SegView {
    if x.len() > 0 && x[0] == ':' {
        SegView::Param(x.drop_first())
    } else if x.len() > 0 && x[0] == '*' {
        SegView::Wildcard(x.drop_first())
    } else {
        SegView::Lit(x)
    }
}

/// A compiled pattern.
pub open spec fn compile_spec(p: Seq<char>) -> Seq<SegView> {
    segments_spec(p).map_values(|x: Seq<char>| classify(x))
}

/// The strings as values.
pub open spec fn string_views(v: Seq<String>) -> Seq<Seq<char>> {
    v.map_values(|s: String| s@)
}

/// Split a path/pattern into non-empty segments (leading/trailing slashes ignored).
pub fn segments(path: &str) -> (r: Vec<String>)
    ensures
        string_views(r@) == segments_spec(path@),
{
    let cs = chars_of(path);
    let parts = split_chars(&cs, '/');
    let ghost all = views(parts@);
    let mut out: Vec<String> = Vec::new();
    let mut i: usize = 0;
    while i < parts.len()
        invariant
            all == views(parts@),
            all == split(path@, '/'),
            i <= parts@.len(),
            string_views(out@) == all.take(i as int).filter(|x: Seq<char>| x.len() > 0),
        decreases parts@.len() - i,
    {
        proof {
            assert(all.take(i + 1) =~= all.take(i as int).push(all[i as int]));
            all.take(i as int).lemma_filter_push(all[i as int], |x: Seq<char>| x.len() > 0);
            assert(all[i as int] == parts@[i as int]@);
        }
        if parts[i].len() > 0 {
            let ghost before = out@;
            out.push(string_of(&parts[i]));
            proof {
                assert(string_views(out@) =~= string_views(before).push(all[i as int]));
            }
        }
        i = i + 1;
    }
    proof {
        assert(all.take(all.len() as int) =~= all);
    }
    out
}

/// Compile a piece (see [`classify`]).
fn classify_piece(x: &String) -> (r: Seg)
    ensures
        r@ == classify(x@),
{
    let cs = chars_of(x.as_str());
    if cs.len() > 0 && cs[0] == ':' {
        let rest = crate::text::slice_range(&cs, 1, cs.len());
        assert(rest@ =~= x@.drop_first());
        Seg::Param(string_of(&rest))
    } else if cs.len() > 0 && cs[0] == '*' {
        let rest = crate::text::slice_range(&cs, 1, cs.len());
        assert(rest@ =~= x@.drop_first());
        Seg::Wildcard(string_of(&rest))
    } else {
        Seg::Lit(x.clone())
    }
}

/// Compile a pattern string (`/user/:id`, `/files/*rest`) into segments.
pub fn compile(pattern: &str) -> (r: Vec<Seg>)
    ensures
        pattern_view(r@) == compile_spec(pattern@),
{
    let segs = segments(pattern);
    let ghost sv = string_views(segs@);
    let mut out: Vec<Seg> = Vec::new();
    let mut i: usize = 0;
    while i < segs.len()
        invariant
            sv == string_views(segs@),
            sv == segments_spec(pattern@),
            i <= segs@.len(),
            out@.len() == i,
            forall|j: int| 0 <= j < i ==> (#[trigger] out@[j])@ == classify(sv[j]),
        decreases segs@.len() - i,
    {
        out.push(classify_piece(&segs[i]));
        i = i + 1;
    }
    proof {
        assert(pattern_view(out@) =~= compile_spec(pattern@));
    }
    out
}

/// How binding a pattern's fixed segments to path segments ends.
pub enum Bound {
    /// A literal did not match.
    Fail,
    /// A catch-all appeared before the end.
    Stop,
    /// Every segment lined up; the captures so far.
    Done(Map<Seq<char>, Seq<char>>),
}

/// Bind `pat[i..]` to `segs[i..]`, adding `:name` captures to `m` (a later capture of
/// the same name wins).
pub open spec fn bind_from(
    pat: Seq<SegView>,
    segs: Seq<Seq<char>>,
    i: int,
    m: Map<Seq<char>, Seq<char>>,
) -> Bound
    decreases pat.len() - i,
{
    if i < 0 || i >= pat.len() {
        Bound::Done(m)
    } else {
        match pat[i] {
            SegView::Lit(l) => if l != segs[i] {
                Bound::Fail
            } else {
                bind_from(pat, segs, i + 1, m)
            },
            SegView::Param(n) => bind_from(pat, segs, i + 1, m.insert(n, segs[i])),
            SegView::Wildcard(_) => Bound::Stop,
        }
    }
}

/// The pieces joined with `/`.
pub open spec fn join_slash(s: Seq<Seq<char>>) -> Seq<char>
    decreases s.len(),
{
    if s.len() == 0 {
        Seq::empty()
    } else if s.len() == 1 {
        s[0]
    } else {
        join_slash(s.drop_last()) + seq!['/'] + s.last()
    }
}

/// Whether the pattern ends in a catch-all.
pub open spec fn ends_in_wildcard(pat: Seq<SegView>) -> bool {
    pat.len() > 0 && pat.last() is Wildcard
}

/// Matching a pattern against path segments: with a trailing `*name`, the fixed
/// segments must line up with the path's first segments and `name` captures the rest
/// joined with `/` (possibly empty); otherwise the counts must be equal and every
/// segment must line up.
pub open spec fn match_spec(pat: Seq<SegView>, segs: Seq<Seq<char>>) -> Option<
    Map<Seq<char>, Seq<char>>,
> {
    if ends_in_wildcard(pat) {
        let fixed = pat.drop_last();
        if segs.len() < fixed.len() {
            None
        } else {
            match bind_from(fixed, segs, 0, Map::empty()) {
                Bound::Done(m) => Some(
                    m.insert(pat.last()->Wildcard_0, join_slash(segs.skip(fixed.len() as int))),
                ),
                _ => None,
            }
        }
    } else if segs.len() != pat.len() {
        None
    } else {
        match bind_from(pat, segs, 0, Map::empty()) {
            Bound::Done(m) => Some(m),
            _ => None,
        }
    }
}

/// Whether matching reaches a catch-all that is not the last segment (a broken
/// pattern: the match gives up there).
pub open spec fn match_breaks(pat: Seq<SegView>, segs: Seq<Seq<char>>) -> bool {
    !ends_in_wildcard(pat) && segs.len() == pat.len() && bind_from(pat, segs, 0, Map::empty()) is Stop
}

/// The string `parts.join("/")`.
fn join_parts(parts: &[String], from: usize) -> (r: String)
    requires
        from <= parts@.len(),
    ensures
        r@ == join_slash(string_views(parts@).skip(from as int)),
{
    let ghost all = string_views(parts@).skip(from as int);
    let mut out = String::new();
    proof {
        reveal_strlit("/");
        assert(all.take(0) =~= Seq::<Seq<char>>::empty());
    }
    let mut i: usize = from;
    while i < parts.len()
        invariant
            from <= i <= parts@.len(),
            all == string_views(parts@).skip(from as int),
            out@ == join_slash(all.take(i - from)),
            "/"@ == seq!['/'],
        decreases parts@.len() - i,
    {
        let ghost k = i - from;
        proof {
            assert(all.take(k + 1).drop_last() =~= all.take(k));
            assert(all.take(k + 1).last() == parts@[i as int]@);
            if k == 0 {
                assert(all.take(1)[0] == parts@[i as int]@);
            }
        }
        if i > from {
            out.append("/");
        }
        out.append(parts[i].as_str());
        i = i + 1;
    }
    proof {
        assert(all.take(i - from) =~= all);
    }
    out
}

/// Bind the fixed segments `pattern[..count]` to `segs`, adding captures to `params`.
fn bind_fixed(pattern: &[Seg], count: usize, segs: &Vec<String>, params: &mut RouteParams) -> (r: u8)
    requires
        count <= pattern@.len(),
        count <= segs@.len(),
    ensures
        ({
            let b = bind_from(
                pattern_view(pattern@).take(count as int),
                string_views(segs@),
                0,
                old(params)@,
            );
            &&& r == 0 ==> b is Fail
            &&& r == 1 ==> b is Stop
            &&& r == 2 ==> (b matches Bound::Done(m) && final(params)@ == m)
            &&& r <= 2
        }),
{
    let ghost pat = pattern_view(pattern@).take(count as int);
    let ghost sv = string_views(segs@);
    let ghost m0 = params@;
    let mut i: usize = 0;
    while i < count
        invariant
            count <= pattern@.len(),
            count <= segs@.len(),
            pat == pattern_view(pattern@).take(count as int),
            sv == string_views(segs@),
            i <= count,
            m0 == old(params)@,
            bind_from(pat, sv, 0, m0) == bind_from(pat, sv, i as int, params@),
        decreases count - i,
    {
        proof {
            assert(pat[i as int] == pattern@[i as int]@);
            assert(sv[i as int] == segs@[i as int]@);
        }
        match &pattern[i] {
            Seg::Lit(lit) => {
                proof {
                    assert(pat[i as int] == SegView::Lit(lit@));
                }
                if !(*lit == segs[i]) {
                    proof {
                        assert(bind_from(pat, sv, i as int, params@) is Fail);
                        assert(bind_from(pat, sv, 0, m0) is Fail);
                        assert(m0 == old(params)@);
                    }
                    return 0;
                }
            },
            Seg::Param(n) => {
                proof {
                    assert(pat[i as int] == SegView::Param(n@));
                }
                params.insert(n.clone(), segs[i].clone());
            },
            Seg::Wildcard(w) => {
                proof {
                    assert(pat[i as int] == SegView::Wildcard(w@));
                    assert(bind_from(pat, sv, i as int, params@) is Stop);
                }
                return 1;
            },
        }
        i = i + 1;
    }
    2
}

/// Match a compiled pattern against a current path, capturing `:name` and a trailing
/// `*name`. Returns `None` unless every segment lines up.
pub fn match_path(pattern: &[Seg], current: &str) -> (r: Option<RouteParams>)
    requires
        !match_breaks(pattern_view(pattern@), segments_spec(current@)),
    ensures
        r is Some <==> match_spec(pattern_view(pattern@), segments_spec(current@)) is Some,
        r matches Some(p) ==> p@ == match_spec(pattern_view(pattern@), segments_spec(current@))->0,
{
    let segs = segments(current);
    let ghost pv = pattern_view(pattern@);
    let ghost sv = segments_spec(current@);
    let n = pattern.len();
    let wild = n > 0 && match &pattern[n - 1] {
        Seg::Wildcard(_) => true,
        _ => false,
    };
    proof {
        if n > 0 {
            assert(pv.last() == pattern@[n - 1]@);
        }
        assert(wild == ends_in_wildcard(pv));
    }
    let mut params = RouteParams::new();
    if wild {
        let fixed = n - 1;
        if segs.len() < fixed {
            return None;
        }
        proof {
            assert(pv.drop_last() =~= pv.take(fixed as int));
        }
        let b = bind_fixed(pattern, fixed, &segs, &mut params);
        if b != 2 {
            return None;
        }
        let rest = join_parts(&segs, fixed);
        match &pattern[n - 1] {
            Seg::Wildcard(name) => {
                params.insert(name.clone(), rest);
            },
            _ => {},
        }
        Some(params)
    } else {
        if segs.len() != n {
            return None;
        }
        proof {
            assert(pv.take(n as int) =~= pv);
        }
        let b = bind_fixed(pattern, n, &segs, &mut params);
        if b != 2 {
            return None;
        }
        Some(params)
    }
}

/// Whether `current`'s leading segments match `prefix` (used for nested layouts —
/// `/settings` prefixes `/settings/profile`). Captures and catch-alls in the prefix
/// match any segment.
pub open spec fn prefix_spec(prefix: Seq<SegView>, segs: Seq<Seq<char>>) -> bool {
    &&& segs.len() >= prefix.len()
    &&& forall|i: int|
        0 <= i < prefix.len() ==> !((#[trigger] prefix[i] matches SegView::Lit(l) && l != segs[i]))
}

/// Whether `current`'s leading segments match `prefix`.
pub fn prefix_matches(prefix: &[Seg], current: &str) -> (r: bool)
    ensures
        r == prefix_spec(pattern_view(prefix@), segments_spec(current@)),
{
    let segs = segments(current);
    let ghost pv = pattern_view(prefix@);
    let ghost sv = string_views(segs@);
    if segs.len() < prefix.len() {
        return false;
    }
    let mut i: usize = 0;
    while i < prefix.len()
        invariant
            pv == pattern_view(prefix@),
            sv == string_views(segs@),
            sv == segments_spec(current@),
            prefix@.len() <= segs@.len(),
            i <= prefix@.len(),
            forall|j: int| 0 <= j < i ==> !((#[trigger] pv[j] matches SegView::Lit(l) && l != sv[j])),
        decreases prefix@.len() - i,
    {
        proof {
            assert(pv[i as int] == prefix@[i as int]@);
            assert(sv[i as int] == segs@[i as int]@);
        }
        match &prefix[i] {
            Seg::Lit(l) => {
                proof {
                    assert(pv[i as int] == SegView::Lit(l@));
                }
                if !(*l == segs[i]) {
                    proof {
                        assert(pv[i as int] matches SegView::Lit(ll) && ll != sv[i as int]);
                    }
                    return false;
                }
            },
            _ => {},
        }
        i = i + 1;
    }
    true
}

/// Whether the current route matches `pattern` (`:param` / `*wildcard` patterns as
/// in [`match_path`]).
pub fn use_match(pattern: &str, current: &str) -> (r: bool)
    requires
        !match_breaks(compile_spec(pattern@), segments_spec(current@)),
    ensures
        r == match_spec(compile_spec(pattern@), segments_spec(current@)) is Some,
{
    let p = compile(pattern);
    match_path(&p, current).is_some()
}

// ---------------------------------------------------------------------------
// Route selection
// ---------------------------------------------------------------------------

/// A registered route: an exact-name match, a `:param` pattern, or a nested layout
/// under a prefix. (The page builders live with the caller, by route index.)
#[derive(Clone, Debug)]
pub enum RouteKind {
    /// Matches when the current route equals the name exactly.
    Exact(String),
    /// Matches when the current path fits the pattern.
    Pattern(Vec<Seg>),
    /// Matches when the current path is under the prefix.
    Nested(Vec<Seg>),
}

/// A registered route as values.
pub enum RouteKindView {
    Exact(Seq<char>),
    Pattern(Seq<SegView>),
    Nested(Seq<SegView>),
}

impl View for RouteKind {
    type V = RouteKindView;

    open spec fn view(&self) -> RouteKindView {
        match self {
            RouteKind::Exact(n) => RouteKindView::Exact(n@),
            RouteKind::Pattern(p) => RouteKindView::Pattern(pattern_view(p@)),
            RouteKind::Nested(p) => RouteKindView::Nested(pattern_view(p@)),
        }
    }
}

/// Whether a route matches the current path.
pub open spec fn route_matches(k: RouteKindView, current: Seq<char>) -> bool {
    match k {
        RouteKindView::Exact(n) => n == current,
        RouteKindView::Pattern(p) => match_spec(p, segments_spec(current)) is Some,
        RouteKindView::Nested(p) => prefix_spec(p, segments_spec(current)),
    }
}

/// Whether no route before index `i` matches.
pub open spec fn none_before(routes: Seq<RouteKindView>, current: Seq<char>, i: int) -> bool {
    forall|j: int| 0 <= j < i ==> !route_matches(#[trigger] routes[j], current)
}

/// Every pattern that the search reaches can be matched without giving up.
pub open spec fn patterns_sound(routes: Seq<RouteKindView>, current: Seq<char>) -> bool {
    forall|i: int|
        0 <= i < routes.len() && none_before(routes, current, i) && #[trigger] routes[i] is Pattern
            ==> !match_breaks(routes[i]->Pattern_0, segments_spec(current))
}

/// Which page to render.
#[derive(Debug)]
pub enum RouteMatch {
    /// The exact route at this index.
    Page(usize),
    /// The pattern route at this index, with its captures.
    Params(usize, RouteParams),
    /// The nested layout at this index.
    Layout(usize),
    /// Nothing matched.
    Fallback,
}

/// The page for the current route: routes are tried in registration order, first
/// match wins. Build with [`route_view`].
#[derive(Clone, Debug)]
pub struct RouteView {
    current: String,
    routes: Vec<RouteKind>,
}

impl RouteView {
    /// The path being routed.
    pub closed spec fn current_path(&self) -> Seq<char> {
        self.current@
    }

    /// The registered routes, in order.
    pub closed spec fn kinds(&self) -> Seq<RouteKindView> {
        self.routes@.map_values(|k: RouteKind| k@)
    }
}

/// Create a [`RouteView`] for `current` route.
pub fn route_view(current: String) -> (r: RouteView)
    ensures
        r.current_path() == current@,
        r.kinds() == Seq::<RouteKindView>::empty(),
{
    let r = RouteView { current, routes: Vec::new() };
    assert(r.kinds() =~= Seq::<RouteKindView>::empty());
    r
}

impl RouteView {
    fn add(self, k: RouteKind) -> (r: RouteView)
        ensures
            r.current_path() == self.current_path(),
            r.kinds() == self.kinds().push(k@),
    {
        let mut me = self;
        let ghost before = me.kinds();
        me.routes.push(k);
        assert(me.kinds() =~= before.push(k@));
        me
    }

    /// Register a route matched by **exact** name.
    pub fn route(self, name: String) -> (r: RouteView)
        ensures
            r.current_path() == self.current_path(),
            r.kinds() == self.kinds().push(RouteKindView::Exact(name@)),
    {
        self.add(RouteKind::Exact(name))
    }

    /// Register a **path-pattern** route (`/user/:id`).
    pub fn param_route(self, pattern: &str) -> (r: RouteView)
        ensures
            r.current_path() == self.current_path(),
            r.kinds() == self.kinds().push(RouteKindView::Pattern(compile_spec(pattern@))),
    {
        let p = compile(pattern);
        self.add(RouteKind::Pattern(p))
    }

    /// Register a **nested layout** matched when the current path is under `prefix`.
    pub fn nest(self, prefix: &str) -> (r: RouteView)
        ensures
            r.current_path() == self.current_path(),
            r.kinds() == self.kinds().push(RouteKindView::Nested(compile_spec(prefix@))),
    {
        let p = compile(prefix);
        self.add(RouteKind::Nested(p))
    }

    /// The matched route for the current path: the first registered route that
    /// matches, or the fallback when none does.
    pub fn render_match(&self) -> (r: RouteMatch)
        requires
            patterns_sound(self.kinds(), self.current_path()),
        ensures
            r matches RouteMatch::Page(i) ==> i < self.kinds().len() && self.kinds()[i as int] is Exact
                && route_matches(self.kinds()[i as int], self.current_path()) && none_before(
                self.kinds(),
                self.current_path(),
                i as int,
            ),
            r matches RouteMatch::Params(i, p) ==> i < self.kinds().len()
                && self.kinds()[i as int] is Pattern && route_matches(
                self.kinds()[i as int],
                self.current_path(),
            ) && none_before(self.kinds(), self.current_path(), i as int) && p@ == match_spec(
                self.kinds()[i as int]->Pattern_0,
                segments_spec(self.current_path()),
            )->0,
            r matches RouteMatch::Layout(i) ==> i < self.kinds().len() && self.kinds()[i as int] is Nested
                && route_matches(self.kinds()[i as int], self.current_path()) && none_before(
                self.kinds(),
                self.current_path(),
                i as int,
            ),
            r is Fallback ==> none_before(self.kinds(), self.current_path(), self.kinds().len() as int),
    {
        let ghost ks = self.kinds();
        let ghost cur = self.current_path();
        let mut i: usize = 0;
        while i < self.routes.len()
            invariant
                ks == self.kinds(),
                cur == self.current_path(),
                patterns_sound(ks, cur),
                i <= ks.len(),
                none_before(ks, cur, i as int),
            decreases ks.len() - i,
        {
            proof {
                assert(ks[i as int] == self.routes@[i as int]@);
            }
            match &self.routes[i] {
                RouteKind::Exact(name) => {
                    if *name == self.current {
                        return RouteMatch::Page(i);
                    }
                },
                RouteKind::Pattern(segs) => {
                    if let Some(params) = match_path(segs, self.current.as_str()) {
                        return RouteMatch::Params(i, params);
                    }
                },
                RouteKind::Nested(prefix) => {
                    if prefix_matches(prefix, self.current.as_str()) {
                        return RouteMatch::Layout(i);
                    }
                },
            }
            proof {
                assert forall|j: int| 0 <= j < i + 1 implies !route_matches(#[trigger] ks[j], cur) by {
                    if j < i {
                    }
                }
            }
            i = i + 1;
        }
        RouteMatch::Fallback
    }
}

// ---------------------------------------------------------------------------
// Laws
// ---------------------------------------------------------------------------

proof fn lemma_split_leading(s: Seq<char>, c: char)
    ensures
        split(seq![c] + s, c) == seq![Seq::<char>::empty()] + split(s, c),
{
    let t = seq![c] + s;
    assert(t[0] == c);
    assert(t.drop_first() =~= s);
}

proof fn lemma_split_trailing(s: Seq<char>, c: char, cur: Seq<char>)
    ensures
        crate::text::split_from(s + seq![c], c, cur) == crate::text::split_from(s, c, cur) + seq![
            Seq::<char>::empty(),
        ],
    decreases s.len(),
{
    let t = s + seq![c];
    if s.len() == 0 {
        assert(t =~= seq![c]);
        assert(t.drop_first() =~= Seq::<char>::empty());
        assert(crate::text::split_from(t.drop_first(), c, Seq::empty()) == seq![Seq::<char>::empty()]);
        assert(crate::text::split_from(s, c, cur) == seq![cur]);
    } else {
        assert(t[0] == s[0]);
        assert(t.drop_first() =~= s.drop_first() + seq![c]);
        if s[0] == c {
            lemma_split_trailing(s.drop_first(), c, Seq::empty());
            assert(seq![cur] + (crate::text::split_from(s.drop_first(), c, Seq::empty()) + seq![
                Seq::<char>::empty(),
            ]) =~= (seq![cur] + crate::text::split_from(s.drop_first(), c, Seq::empty())) + seq![
                Seq::<char>::empty(),
            ]);
        } else {
            lemma_split_trailing(s.drop_first(), c, cur.push(s[0]));
        }
    }
}

/// Leading and trailing slashes do not change a path's segments, so `"user/:id"`,
/// `"/user/:id"` and `"/user/:id/"` compile (and match) alike.
pub proof fn slashes_do_not_matter(s: Seq<char>)
    ensures
        segments_spec(seq!['/'] + s) == segments_spec(s),
        segments_spec(s + seq!['/']) == segments_spec(s),
{
    let p = |x: Seq<char>| x.len() > 0;
    let e = seq![Seq::<char>::empty()];
    assert(e.filter(p) =~= Seq::<Seq<char>>::empty()) by {
        reveal_with_fuel(Seq::filter, 2);
        assert(e.drop_last() =~= Seq::<Seq<char>>::empty());
    }
    lemma_split_leading(s, '/');
    Seq::filter_distributes_over_add(e, split(s, '/'), p);
    assert(Seq::<Seq<char>>::empty() + split(s, '/').filter(p) =~= split(s, '/').filter(p));
    lemma_split_trailing(s, '/', Seq::empty());
    Seq::filter_distributes_over_add(split(s, '/'), e, p);
    assert(split(s, '/').filter(p) + Seq::<Seq<char>>::empty() =~= split(s, '/').filter(p));
}

/// No segment of the pattern is a catch-all.
pub open spec fn no_wildcard(pat: Seq<SegView>) -> bool {
    forall|i: int| 0 <= i < pat.len() ==> !(#[trigger] pat[i] is Wildcard)
}

/// Every literal of the pattern equals the path segment at its place, from `k` on.
pub open spec fn literals_line_up(pat: Seq<SegView>, segs: Seq<Seq<char>>, k: int) -> bool {
    forall|i: int| k <= i < pat.len() && (#[trigger] pat[i] is Lit) ==> segs[i] == pat[i]->Lit_0
}

/// `pat[i]` captures `n` and no later segment captures the same name.
pub open spec fn last_capture(pat: Seq<SegView>, i: int, n: Seq<char>) -> bool {
    &&& pat[i] == SegView::Param(n)
    &&& forall|j: int| i < j < pat.len() ==> #[trigger] pat[j] != SegView::Param(n)
}

proof fn lemma_bind_lines_up(
    pat: Seq<SegView>,
    segs: Seq<Seq<char>>,
    k: int,
    m0: Map<Seq<char>, Seq<char>>,
)
    requires
        no_wildcard(pat),
        segs.len() == pat.len(),
        0 <= k <= pat.len(),
    ensures
        bind_from(pat, segs, k, m0) is Done <==> literals_line_up(pat, segs, k),
        bind_from(pat, segs, k, m0) matches Bound::Done(m) ==> {
            &&& forall|n: Seq<char>|
                #[trigger] m.contains_key(n) <==> (m0.contains_key(n) || exists|i: int|
                    k <= i < pat.len() && #[trigger] pat[i] == SegView::Param(n))
            &&& forall|i: int, n: Seq<char>|
                k <= i < pat.len() && #[trigger] last_capture(pat, i, n) ==> m[n] == segs[i]
            &&& forall|n: Seq<char>|
                m0.contains_key(n) && !(exists|i: int|
                    k <= i < pat.len() && #[trigger] pat[i] == SegView::Param(n)) ==> #[trigger] m[n]
                    == m0[n]
        },
    decreases pat.len() - k,
{
    if k < pat.len() {
        assert(!(pat[k] is Wildcard));
        match pat[k] {
            SegView::Lit(l) => {
                lemma_bind_lines_up(pat, segs, k + 1, m0);
                if l == segs[k] {
                    assert(literals_line_up(pat, segs, k) <==> literals_line_up(pat, segs, k + 1));
                    if let Bound::Done(m) = bind_from(pat, segs, k, m0) {
                        assert forall|n: Seq<char>| #[trigger] m.contains_key(n) <==> (m0.contains_key(n)
                            || exists|i: int| k <= i < pat.len() && #[trigger] pat[i] == SegView::Param(n)) by {
                            if exists|i: int| k <= i < pat.len() && #[trigger] pat[i] == SegView::Param(n) {
                                let i = choose|i: int| k <= i < pat.len() && #[trigger] pat[i] == SegView::Param(n);
                                assert(i != k);
                            }
                        }
                        assert forall|n: Seq<char>|
                            m0.contains_key(n) && !(exists|i: int|
                                k <= i < pat.len() && #[trigger] pat[i] == SegView::Param(n)) implies #[trigger] m[n]
                            == m0[n] by {
                            assert(!(exists|i: int|
                                k + 1 <= i < pat.len() && #[trigger] pat[i] == SegView::Param(n))) by {
                                if exists|i: int| k + 1 <= i < pat.len() && #[trigger] pat[i] == SegView::Param(n) {
                                    let i = choose|i: int| k + 1 <= i < pat.len() && #[trigger] pat[i] == SegView::Param(n);
                                    assert(k <= i < pat.len() && pat[i] == SegView::Param(n));
                                }
                            }
                        }
                    }
                } else {
                    assert(pat[k] is Lit);
                    assert(!literals_line_up(pat, segs, k));
                }
            },
            SegView::Param(nk) => {
                let m1 = m0.insert(nk, segs[k]);
                lemma_bind_lines_up(pat, segs, k + 1, m1);
                assert(literals_line_up(pat, segs, k) <==> literals_line_up(pat, segs, k + 1));
                if let Bound::Done(m) = bind_from(pat, segs, k, m0) {
                    assert forall|n: Seq<char>| #[trigger] m.contains_key(n) <==> (m0.contains_key(n)
                        || exists|i: int| k <= i < pat.len() && #[trigger] pat[i] == SegView::Param(n)) by {
                        if exists|i: int| k <= i < pat.len() && #[trigger] pat[i] == SegView::Param(n) {
                            let i = choose|i: int| k <= i < pat.len() && #[trigger] pat[i] == SegView::Param(n);
                            if i != k {
                                assert(k + 1 <= i < pat.len() && pat[i] == SegView::Param(n));
                            }
                        }
                        if exists|i: int| k + 1 <= i < pat.len() && #[trigger] pat[i] == SegView::Param(n) {
                            let i = choose|i: int| k + 1 <= i < pat.len() && #[trigger] pat[i] == SegView::Param(n);
                            assert(k <= i < pat.len() && pat[i] == SegView::Param(n));
                        }
                    }
                    assert forall|i: int, n: Seq<char>|
                        k <= i < pat.len() && #[trigger] last_capture(pat, i, n) implies m[n] == segs[i] by {
                        if i == k {
                            assert(n == nk);
                            assert(!(exists|j: int| k + 1 <= j < pat.len() && #[trigger] pat[j] == SegView::Param(n))) by {
                                if exists|j: int| k + 1 <= j < pat.len() && #[trigger] pat[j] == SegView::Param(n) {
                                    let j = choose|j: int| k + 1 <= j < pat.len() && #[trigger] pat[j] == SegView::Param(n);
                                    assert(pat[j] != SegView::Param(n));
                                }
                            }
                            assert(m1.contains_key(n));
                        }
                    }
                    assert forall|n: Seq<char>|
                        m0.contains_key(n) && !(exists|i: int|
                            k <= i < pat.len() && #[trigger] pat[i] == SegView::Param(n)) implies #[trigger] m[n]
                        == m0[n] by {
                        assert(pat[k] == SegView::Param(nk));
                        assert(n != nk);
                        assert(!(exists|i: int|
                            k + 1 <= i < pat.len() && #[trigger] pat[i] == SegView::Param(n))) by {
                            if exists|i: int| k + 1 <= i < pat.len() && #[trigger] pat[i] == SegView::Param(n) {
                                let i = choose|i: int| k + 1 <= i < pat.len() && #[trigger] pat[i] == SegView::Param(n);
                                assert(k <= i < pat.len() && pat[i] == SegView::Param(n));
                            }
                        }
                    }
                }
            },
            SegView::Wildcard(_) => {},
        }
    }
}

/// A pattern without a catch-all matches a path exactly when both have as many
/// segments and every literal equals the path segment at its place. The match then
/// captures every `:name` of the pattern and nothing else, each with the path segment
/// at its place (for a name captured twice, at its last place).
pub proof fn matching_lines_up_every_segment(pat: Seq<SegView>, segs: Seq<Seq<char>>)
    requires
        no_wildcard(pat),
    ensures
        match_spec(pat, segs) is Some <==> (segs.len() == pat.len() && literals_line_up(pat, segs, 0)),
        match_spec(pat, segs) matches Some(m) ==> {
            &&& forall|n: Seq<char>|
                #[trigger] m.contains_key(n) <==> exists|i: int|
                    0 <= i < pat.len() && #[trigger] pat[i] == SegView::Param(n)
            &&& forall|i: int, n: Seq<char>|
                0 <= i < pat.len() && #[trigger] last_capture(pat, i, n) ==> m[n] == segs[i]
        },
{
    if pat.len() > 0 {
        assert(!(pat[pat.len() - 1] is Wildcard));
    }
    assert(!ends_in_wildcard(pat));
    if segs.len() == pat.len() {
        lemma_bind_lines_up(pat, segs, 0, Map::empty());
    }
}

/// A nested prefix holds a path exactly when the path has at least as many segments
/// and every literal of the prefix, at every position, equals the path's segment
/// there. So a pattern without a catch-all is a prefix of every path it matches, and
/// a path under a prefix stays under it when more segments follow.
pub proof fn prefix_lines_up_every_literal(pat: Seq<SegView>, segs: Seq<Seq<char>>, more: Seq<Seq<char>>)
    ensures
        prefix_spec(pat, segs) <==> (segs.len() >= pat.len() && literals_line_up(pat, segs, 0)),
        no_wildcard(pat) && match_spec(pat, segs) is Some ==> prefix_spec(pat, segs),
        prefix_spec(pat, segs) ==> prefix_spec(pat, segs + more),
{
    if prefix_spec(pat, segs) {
        assert forall|i: int| 0 <= i < pat.len() && (#[trigger] pat[i] is Lit) implies segs[i]
            == pat[i]->Lit_0 by {
            assert(!(pat[i] matches SegView::Lit(l) && l != segs[i]));
        }
        assert forall|i: int| 0 <= i < pat.len() implies !((#[trigger] pat[i] matches SegView::Lit(l)
            && l != (segs + more)[i])) by {
            assert(!(pat[i] matches SegView::Lit(l) && l != segs[i]));
            assert((segs + more)[i] == segs[i]);
        }
    }
    if segs.len() >= pat.len() && literals_line_up(pat, segs, 0) {
        assert forall|i: int| 0 <= i < pat.len() implies !((#[trigger] pat[i] matches SegView::Lit(l)
            && l != segs[i])) by {
            if pat[i] is Lit {
                assert(segs[i] == pat[i]->Lit_0);
            }
        }
    }
    if no_wildcard(pat) && match_spec(pat, segs) is Some {
        matching_lines_up_every_segment(pat, segs);
        assert forall|i: int| 0 <= i < pat.len() implies !((#[trigger] pat[i] matches SegView::Lit(l)
            && l != segs[i])) by {
            if pat[i] is Lit {
                assert(segs[i] == pat[i]->Lit_0);
            }
        }
    }
}

} // verus!
