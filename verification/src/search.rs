//! Case-insensitive filtering for the searchable lists (combobox, multi-select,
//! command palette), and the command palette's model.
use vstd::prelude::*;
use crate::menu::ActionId;
use crate::text::{chars_of, append_chars};
use crate::num::{decimal, decimal_digits};

verus! {

broadcast use vstd::seq_lib::group_seq_properties;

/// Names what `str::to_lowercase` returns for a string.
pub uninterp spec fn lowercase(s: Seq<char>) -> Seq<char>;

/// `str::to_lowercase`: the string with every character mapped to its lowercase
/// form by the Unicode rules. Claimed of it: the result is [`lowercase`] of the
/// argument, a function of the argument alone; nothing is stated of which
/// characters change.
#[verifier::external_body]
fn to_lowercase(s: &str) -> (r: String)
    ensures
        r@ == lowercase(s@),
{
    s.to_lowercase()
}

/// `needle` occurs in `hay` as a contiguous run (the empty needle always does).
pub open spec fn occurs(hay: Seq<char>, needle: Seq<char>) -> bool {
    exists|i: int| 0 <= i <= hay.len() - needle.len() && #[trigger] hay.subrange(i, i + needle.len()) == needle
}

/// A label matches a lowercased query when the query is empty or occurs in the
/// lowercased label.
pub open spec fn label_matches(label: Seq<char>, query_lower: Seq<char>) -> bool {
    query_lower.len() == 0 || occurs(lowercase(label), query_lower)
}

/// Whether `needle` occurs in `hay`.
pub fn occurs_in(hay: &[char], needle: &[char]) -> (r: bool)
    ensures
        r == occurs(hay@, needle@),
{
    if needle.len() > hay.len() {
        return false;
    }
    let last = hay.len() - needle.len();
    let mut i: usize = 0;
    while i <= last
        invariant
            last == hay@.len() - needle@.len(),
            needle@.len() <= hay@.len(),
            i <= last + 1,
            forall|j: int| 0 <= j < i ==> #[trigger] hay@.subrange(j, j + needle@.len()) != needle@,
        decreases last + 1 - i,
    {
        let mut k: usize = 0;
        let mut same = true;
        while k < needle.len()
            invariant
                k <= needle@.len(),
                needle@.len() <= hay@.len(),
                hay@.len() == hay.len(),
                i <= last,
                last == hay@.len() - needle@.len(),
                same == (forall|a: int| 0 <= a < k ==> hay@[i + a] == needle@[a]),
            decreases needle@.len() - k,
        {
            if hay[i + k] != needle[k] {
                same = false;
            }
            k = k + 1;
        }
        if same {
            assert(hay@.subrange(i as int, i + needle@.len()) =~= needle@);
            return true;
        }
        assert(hay@[i + (choose|a: int| 0 <= a < k && hay@[i + a] != needle@[a])] != needle@[choose|a: int|
            0 <= a < k && hay@[i + a] != needle@[a]]);
        if i == last {
            assert forall|j: int| 0 <= j <= last implies #[trigger] hay@.subrange(j, j + needle@.len()) != needle@ by {
                if j == i {
                    let a = choose|a: int| 0 <= a < k && hay@[i + a] != needle@[a];
                    assert(hay@.subrange(j, j + needle@.len())[a] != needle@[a]);
                }
            }
            return false;
        }
        proof {
            let a = choose|a: int| 0 <= a < k && hay@[i + a] != needle@[a];
            assert(hay@.subrange(i as int, i + needle@.len())[a] != needle@[a]);
        }
        i = i + 1;
    }
    false
}

/// Whether an already lowercased label matches an already lowercased query.
pub fn matches_lowered(label_lower: &[char], query_lower: &[char]) -> (r: bool)
    ensures
        r == (query_lower@.len() == 0 || occurs(label_lower@, query_lower@)),
{
    query_lower.len() == 0 || occurs_in(label_lower, query_lower)
}

/// The query as the filters compare it: lowercased.
pub fn query_key(query: &str) -> (r: Vec<char>)
    ensures
        r@ == lowercase(query@),
{
    let q = to_lowercase(query);
    chars_of(q.as_str())
}

/// Whether `label` matches the lowercased query `query_lower`.
pub fn label_matches_query(label: &str, query_lower: &[char]) -> (r: bool)
    ensures
        r == label_matches(label@, query_lower@),
{
    if query_lower.len() == 0 {
        return true;
    }
    let l = to_lowercase(label);
    let lc = chars_of(l.as_str());
    matches_lowered(lc.as_slice(), query_lower)
}

/// The indices of the options matching `query`, in order (a searchable list's
/// visible rows).
pub fn filter_options(options: &Vec<String>, query: &str) -> (r: Vec<usize>)
    ensures
        r@.len() <= options@.len(),
        forall|a: int| 0 <= a < r@.len() ==> r@[a] < options@.len(),
        forall|a: int, b: int| 0 <= a < b < r@.len() ==> r@[a] < r@[b],
        forall|i: int|
            0 <= i < options@.len() ==> (r@.contains(i as usize) <==> label_matches(
                options@[i]@,
                lowercase(query@),
            )),
{
    let q = query_key(query);
    let mut r: Vec<usize> = Vec::new();
    let mut i: usize = 0;
    while i < options.len()
        invariant
            i <= options@.len(),
            q@ == lowercase(query@),
            r@.len() <= i,
            forall|a: int| 0 <= a < r@.len() ==> r@[a] < i,
            forall|a: int, b: int| 0 <= a < b < r@.len() ==> r@[a] < r@[b],
            forall|j: int|
                0 <= j < i ==> (r@.contains(j as usize) <==> label_matches(options@[j]@, q@)),
        decreases options@.len() - i,
    {
        if label_matches_query(options[i].as_str(), q.as_slice()) {
            r.push(i);
        }
        proof {
            assert forall|j: int| 0 <= j <= i implies (r@.contains(j as usize) <==> label_matches(
                options@[j]@,
                q@,
            )) by {
                if j < i {
                    if r@.contains(j as usize) {
                        let a = choose|a: int| 0 <= a < r@.len() && r@[a] == j as usize;
                        assert(a < r@.len() - 1 || r@.last() == j as usize);
                    }
                } else {
                    if label_matches(options@[j]@, q@) {
                        assert(r@[r@.len() - 1] == j as usize);
                    }
                }
            }
        }
        i = i + 1;
    }
    r
}

/// The option a keyboard pick of visible row `row` chooses.
pub fn row_option(rows: &Vec<usize>, row: usize) -> (r: Option<usize>)
    ensures
        r == if row < rows@.len() { Some(rows@[row as int]) } else { None },
{
    if row < rows.len() {
        Some(rows[row])
    } else {
        None
    }
}

/// The labels of the chosen options that exist, in choice order.
pub open spec fn chosen_labels(sel: Seq<usize>, options: Seq<Seq<char>>) -> Seq<Seq<char>>
    decreases sel.len(),
{
    if sel.len() == 0 {
        Seq::empty()
    } else {
        let p = chosen_labels(sel.drop_last(), options);
        if sel.last() < options.len() {
            p.push(options[sel.last() as int])
        } else {
            p
        }
    }
}

/// `parts` joined with `", "`.
pub open spec fn joined(parts: Seq<Seq<char>>) -> Seq<char>
    decreases parts.len(),
{
    if parts.len() == 0 {
        Seq::empty()
    } else if parts.len() == 1 {
        parts[0]
    } else {
        joined(parts.drop_last()) + ", "@ + parts.last()
    }
}

/// A multi-select trigger's text: the placeholder with nothing chosen, the chosen
/// labels joined with `", "` for one or two, else "N selected".
pub open spec fn multi_label_spec(sel: Seq<usize>, options: Seq<Seq<char>>, placeholder: Seq<char>) -> Seq<char> {
    if sel.len() == 0 {
        placeholder
    } else if sel.len() <= 2 {
        joined(chosen_labels(sel, options))
    } else {
        decimal(sel.len()) + " selected"@
    }
}

/// The multi-select trigger's text for the chosen options `sel`.
pub fn multi_label(sel: &Vec<usize>, options: &Vec<String>, placeholder: &str) -> (r: Vec<char>)
    ensures
        r@ == multi_label_spec(sel@, options@.map_values(|s: String| s@), placeholder@),
{
    let ghost opts = options@.map_values(|s: String| s@);
    if sel.len() == 0 {
        return chars_of(placeholder);
    }
    if sel.len() > 2 {
        let mut r = decimal_digits(sel.len() as u64);
        let tail = chars_of(" selected");
        append_chars(&mut r, tail.as_slice());
        proof {
            reveal_strlit(" selected");
        }
        return r;
    }
    let mut r: Vec<char> = Vec::new();
    let mut count: usize = 0;
    let mut k: usize = 0;
    while k < sel.len()
        invariant
            k <= sel@.len() <= 2,
            opts == options@.map_values(|s: String| s@),
            count == chosen_labels(sel@.take(k as int), opts).len(),
            count <= k,
            r@ == joined(chosen_labels(sel@.take(k as int), opts)),
        decreases sel@.len() - k,
    {
        proof {
            assert(sel@.take(k + 1).drop_last() =~= sel@.take(k as int));
        }
        let i = sel[k];
        if i < options.len() {
            let l = chars_of(options[i].as_str());
            if count > 0 {
                r.push(',');
                r.push(' ');
            }
            append_chars(&mut r, l.as_slice());
            proof {
                reveal_strlit(", ");
                let p = chosen_labels(sel@.take(k as int), opts);
                let p2 = chosen_labels(sel@.take(k + 1), opts);
                assert(p2 == p.push(opts[i as int]));
                if count > 0 {
                    assert(p2.drop_last() == p);
                    assert(r@ =~= joined(p) + ", "@ + p2.last());
                } else {
                    assert(r@ =~= p2[0]);
                }
            }
            count = count + 1;
        }
        k = k + 1;
    }
    assert(sel@.take(k as int) =~= sel@);
    r
}

// ---------------------------------------------------------------------------
// Command palette
// ---------------------------------------------------------------------------

/// One selectable command.
#[derive(Clone, Debug)]
pub struct CommandItem {
    pub label: String,
    /// A leading icon glyph.
    pub icon: Option<u32>,
    /// A trailing keyboard-shortcut hint.
    pub shortcut: Option<String>,
    pub on_select: Option<ActionId>,
}

/// A labelled group of commands.
#[derive(Clone, Debug)]
pub struct CommandGroup {
    pub label: String,
    pub items: Vec<CommandItem>,
}

/// A searchable command list, inline or as a modal palette.
#[derive(Clone, Debug)]
pub struct Command {
    pub groups: Vec<CommandGroup>,
    /// The search field's placeholder.
    pub placeholder: String,
    /// The empty-state text shown when nothing matches.
    pub empty: String,
    /// A palette closes itself after a pick or Escape.
    pub modal: bool,
}

/// What picking a visible row does.
#[derive(Clone, Copy, Debug, PartialEq, Eq, Structural)]
pub struct CommandPick {
    /// The command's callback to run.
    pub run: Option<ActionId>,
    /// Close the palette afterwards.
    pub dismiss: bool,
}

/// A command labelled `label`.
pub fn command_item(label: String) -> (r: CommandItem)
    ensures
        r.label@ == label@,
        r.icon is None && r.shortcut is None && r.on_select is None,
{
    CommandItem { label, icon: None, shortcut: None, on_select: None }
}

impl CommandItem {
    /// A leading icon.
    pub fn icon(self, icon: u32) -> (r: CommandItem)
        ensures
            r.icon == Some(icon),
            r.label@ == self.label@ && r.shortcut == self.shortcut && r.on_select == self.on_select,
    {
        CommandItem { icon: Some(icon), ..self }
    }

    /// A trailing keyboard-shortcut hint.
    pub fn shortcut(self, s: String) -> (r: CommandItem)
        ensures
            r.shortcut == Some(s),
            r.label@ == self.label@ && r.icon == self.icon && r.on_select == self.on_select,
    {
        CommandItem { shortcut: Some(s), ..self }
    }

    /// The callback to run when chosen.
    pub fn on_select(self, action: ActionId) -> (r: CommandItem)
        ensures
            r.on_select == Some(action),
            r.label@ == self.label@ && r.icon == self.icon && r.shortcut == self.shortcut,
    {
        CommandItem { on_select: Some(action), ..self }
    }
}

/// A group labelled `label` over `items`.
pub fn command_group(label: String, items: Vec<CommandItem>) -> (r: CommandGroup)
    ensures
        r.label@ == label@,
        r.items == items,
{
    CommandGroup { label, items }
}

/// An inline command list over `groups`.
pub fn command(groups: Vec<CommandGroup>) -> (r: Command)
    ensures
        r.groups == groups,
        r.placeholder@ == "Type a command…"@,
        r.empty@ == "No results."@,
        !r.modal,
{
    Command {
        groups,
        placeholder: "Type a command…".to_string(),
        empty: "No results.".to_string(),
        modal: false,
    }
}

/// A command palette: the same list, closing itself after a pick or Escape.
pub fn command_palette(groups: Vec<CommandGroup>) -> (r: Command)
    ensures
        r.groups == groups,
        r.placeholder@ == "Type a command…"@,
        r.empty@ == "No results."@,
        r.modal,
{
    Command { modal: true, ..command(groups) }
}

/// The visible rows for lowercased query `q`: `(group, item)` for every matching
/// item, groups in order and items in order within each group.
pub open spec fn visible_spec(groups: Seq<CommandGroup>, q: Seq<char>) -> Seq<(usize, usize)>
    decreases groups.len(),
{
    if groups.len() == 0 {
        Seq::empty()
    } else {
        let g = (groups.len() - 1) as int;
        visible_spec(groups.drop_last(), q) + group_rows(g as usize, groups.last().items@, q)
    }
}

/// The matching items of group `g`, in order.
pub open spec fn group_rows(g: usize, items: Seq<CommandItem>, q: Seq<char>) -> Seq<(usize, usize)>
    decreases items.len(),
{
    if items.len() == 0 {
        Seq::empty()
    } else {
        let p = group_rows(g, items.drop_last(), q);
        if label_matches(items.last().label@, q) {
            p.push((g, (items.len() - 1) as usize))
        } else {
            p
        }
    }
}

impl Command {
    /// The search placeholder.
    pub fn placeholder(self, s: String) -> (r: Command)
        ensures
            r.placeholder@ == s@,
            r.groups == self.groups && r.empty@ == self.empty@ && r.modal == self.modal,
    {
        Command { placeholder: s, ..self }
    }

    /// The empty-state text.
    pub fn empty(self, s: String) -> (r: Command)
        ensures
            r.empty@ == s@,
            r.groups == self.groups && r.placeholder@ == self.placeholder@ && r.modal == self.modal,
    {
        Command { empty: s, ..self }
    }

    /// The rows visible for `query` (a group with no match shows no label either).
    pub fn visible(&self, query: &str) -> (r: Vec<(usize, usize)>)
        ensures
            r@ == visible_spec(self.groups@, lowercase(query@)),
    {
        let q = query_key(query);
        let mut r: Vec<(usize, usize)> = Vec::new();
        let mut g: usize = 0;
        while g < self.groups.len()
            invariant
                g <= self.groups@.len(),
                q@ == lowercase(query@),
                r@ == visible_spec(self.groups@.take(g as int), q@),
            decreases self.groups@.len() - g,
        {
            let items = &self.groups[g].items;
            let ghost base = r@;
            let mut k: usize = 0;
            while k < items.len()
                invariant
                    k <= items@.len(),
                    *items == self.groups@[g as int].items,
                    r@ == base + group_rows(g, items@.take(k as int), q@),
                decreases items@.len() - k,
            {
                proof {
                    assert(items@.take(k + 1).drop_last() =~= items@.take(k as int));
                }
                if label_matches_query(items[k].label.as_str(), q.as_slice()) {
                    r.push((g, k));
                }
                proof {
                    assert(r@ =~= base + group_rows(g, items@.take(k + 1), q@));
                }
                k = k + 1;
            }
            proof {
                assert(items@.take(k as int) =~= items@);
                assert(self.groups@.take(g + 1).drop_last() =~= self.groups@.take(g as int));
            }
            g = g + 1;
        }
        assert(self.groups@.take(g as int) =~= self.groups@);
        r
    }

    /// Picking visible row `row` (a click or Enter): the row's command runs, and a
    /// palette closes.
    pub fn pick(&self, rows: &Vec<(usize, usize)>, row: usize) -> (r: CommandPick)
        ensures
            r.dismiss == self.modal,
            r.run == if row < rows@.len() && rows@[row as int].0 < self.groups@.len()
                && rows@[row as int].1 < self.groups@[rows@[row as int].0 as int].items@.len() {
                self.groups@[rows@[row as int].0 as int].items@[rows@[row as int].1 as int].on_select
            } else {
                None
            },
    {
        let mut run: Option<ActionId> = None;
        if row < rows.len() {
            let (g, k) = rows[row];
            if g < self.groups.len() && k < self.groups[g].items.len() {
                run = self.groups[g].items[k].on_select;
            }
        }
        CommandPick { run, dismiss: self.modal }
    }
}

/// `a` comes before `b` in reading order (group first, then item).
pub open spec fn before(a: (usize, usize), b: (usize, usize)) -> bool {
    a.0 < b.0 || (a.0 == b.0 && a.1 < b.1)
}

proof fn lemma_group_rows(g: usize, items: Seq<CommandItem>, q: Seq<char>)
    requires
        items.len() <= usize::MAX,
    ensures
        forall|k: int|
            0 <= k < group_rows(g, items, q).len() ==> {
                let row = #[trigger] group_rows(g, items, q)[k];
                &&& row.0 == g
                &&& row.1 < items.len()
                &&& label_matches(items[row.1 as int].label@, q)
            },
        forall|i: int|
            0 <= i < items.len() && label_matches(items[i].label@, q) ==> group_rows(g, items, q).contains(
                (g, i as usize),
            ),
        forall|k: int, l: int|
            0 <= k < l < group_rows(g, items, q).len() ==> #[trigger] group_rows(g, items, q)[k].1
                < #[trigger] group_rows(g, items, q)[l].1,
    decreases items.len(),
{
    if items.len() > 0 {
        let d = items.drop_last();
        lemma_group_rows(g, d, q);
        let p = group_rows(g, d, q);
        assert forall|i: int|
            0 <= i < items.len() && label_matches(items[i].label@, q) implies group_rows(
            g,
            items,
            q,
        ).contains((g, i as usize)) by {
            if i < items.len() - 1 {
                assert(d[i] == items[i]);
                let k = choose|k: int| 0 <= k < p.len() && p[k] == (g, i as usize);
                assert(group_rows(g, items, q)[k] == (g, i as usize));
            } else {
                let r = group_rows(g, items, q);
                assert(r[r.len() - 1] == (g, i as usize));
            }
        }
        assert forall|k: int|
            0 <= k < group_rows(g, items, q).len() implies {
            let row = #[trigger] group_rows(g, items, q)[k];
            &&& row.0 == g
            &&& row.1 < items.len()
            &&& label_matches(items[row.1 as int].label@, q)
        } by {
            if k < p.len() {
                assert(group_rows(g, items, q)[k] == p[k]);
                assert(d[p[k].1 as int] == items[p[k].1 as int]);
            }
        }
    }
}

/// The command palette shows exactly the items whose label matches the query: every
/// visible row names an existing item that matches, every matching item has a row,
/// and the rows come in reading order (groups in order, items in order), each once.
pub proof fn visible_rows_are_the_matching_items(groups: Seq<CommandGroup>, q: Seq<char>)
    requires
        groups.len() <= usize::MAX,
        forall|g: int| 0 <= g < groups.len() ==> (#[trigger] groups[g]).items@.len() <= usize::MAX,
    ensures
        forall|k: int|
            0 <= k < visible_spec(groups, q).len() ==> {
                let row = #[trigger] visible_spec(groups, q)[k];
                &&& row.0 < groups.len()
                &&& row.1 < groups[row.0 as int].items@.len()
                &&& label_matches(groups[row.0 as int].items@[row.1 as int].label@, q)
            },
        forall|g: int, i: int|
            0 <= g < groups.len() && 0 <= i < groups[g].items@.len() && label_matches(
                groups[g].items@[i].label@,
                q,
            ) ==> visible_spec(groups, q).contains((g as usize, i as usize)),
        forall|k: int, l: int|
            0 <= k < l < visible_spec(groups, q).len() ==> before(
                #[trigger] visible_spec(groups, q)[k],
                #[trigger] visible_spec(groups, q)[l],
            ),
    decreases groups.len(),
{
    if groups.len() > 0 {
        let d = groups.drop_last();
        let gl = (groups.len() - 1) as int;
        assert forall|g: int| 0 <= g < d.len() implies (#[trigger] d[g]).items@.len() <= usize::MAX by {
            assert(d[g] == groups[g]);
        }
        visible_rows_are_the_matching_items(d, q);
        assert(groups[gl].items@.len() <= usize::MAX);
        lemma_group_rows(gl as usize, groups.last().items@, q);
        let p = visible_spec(d, q);
        let t = group_rows(gl as usize, groups.last().items@, q);
        let v = visible_spec(groups, q);
        assert(v == p + t);
        assert forall|k: int|
            0 <= k < v.len() implies {
            let row = #[trigger] v[k];
            &&& row.0 < groups.len()
            &&& row.1 < groups[row.0 as int].items@.len()
            &&& label_matches(groups[row.0 as int].items@[row.1 as int].label@, q)
        } by {
            if k < p.len() {
                assert(v[k] == p[k]);
                assert(d[p[k].0 as int] == groups[p[k].0 as int]);
            } else {
                assert(v[k] == t[k - p.len()]);
            }
        }
        assert forall|g: int, i: int|
            0 <= g < groups.len() && 0 <= i < groups[g].items@.len() && label_matches(
                groups[g].items@[i].label@,
                q,
            ) implies v.contains((g as usize, i as usize)) by {
            if g < gl {
                assert(d[g] == groups[g]);
                let k = choose|k: int| 0 <= k < p.len() && p[k] == (g as usize, i as usize);
                assert(v[k] == p[k]);
            } else {
                let k = choose|k: int| 0 <= k < t.len() && t[k] == (g as usize, i as usize);
                assert(v[p.len() + k] == t[k]);
            }
        }
        assert forall|k: int, l: int| 0 <= k < l < v.len() implies before(
            #[trigger] v[k],
            #[trigger] v[l],
        ) by {
            if l < p.len() {
                assert(v[k] == p[k] && v[l] == p[l]);
            } else if k < p.len() {
                assert(v[k] == p[k]);
                assert(v[l] == t[l - p.len()]);
                assert(p[k].0 < groups.len() - 1) by {
                    assert(d[p[k].0 as int] == groups[p[k].0 as int]);
                }
            } else {
                assert(v[k] == t[k - p.len()] && v[l] == t[l - p.len()]);
            }
        }
    }
}

} // verus!
