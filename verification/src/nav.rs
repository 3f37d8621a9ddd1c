//! Pagination (numbered pages collapsed to ellipses, prev/next and first/last
//! controls, "Page X of Y" labels) and the status bar's text.
use vstd::prelude::*;
use crate::menu::ActionId;
use crate::num::{decimal, decimal_digits};
use crate::text::append_chars;

verus! {

broadcast use vstd::seq_lib::group_seq_properties;

/// The visual design of a pagination control.
#[derive(Clone, Copy, Debug, PartialEq, Eq, Structural)]
pub enum PaginationVariant {
    /// Numbered page pills with ellipses and chevron arrows.
    Numbers,
    /// Chevron arrows around a "Page X of Y" label.
    Simple,
    /// Chevron arrows around a compact "X / Y" label.
    Arrows,
}

impl Default for PaginationVariant {
    fn default() -> (r: PaginationVariant)
        ensures
            r == PaginationVariant::Numbers,
    {
        PaginationVariant::Numbers
    }
}

/// One item of the numbered window.
#[derive(Clone, Copy, Debug, PartialEq, Eq, Structural)]
pub enum PageItem {
    Page(usize),
    Ellipsis,
}

/// The pages `from..=to` (none when `to < from`).
pub open spec fn page_run(from: int, to: int) -> Seq<PageItem> {
    Seq::new(if to >= from { (to - from + 1) as nat } else { 0 }, |k: int| PageItem::Page((from + k) as usize))
}

/// The numbered window: every page when they fit in `max` pills, else
/// `1 … p-1 p p+1 … total` with the ellipses only where pages are skipped.
pub open spec fn page_window_spec(page: usize, total: usize, max: usize) -> Seq<PageItem> {
    if total <= max {
        page_run(1, total as int)
    } else {
        let lo = if page >= 3 { page - 1 } else { 2 };
        let hi = if page + 1 <= total - 1 { page + 1 } else { total - 1 };
        seq![PageItem::Page(1)] + (if page > 3 { seq![PageItem::Ellipsis] } else { Seq::empty() })
            + page_run(lo, hi) + (if page + 2 < total { seq![PageItem::Ellipsis] } else { Seq::empty() })
            + seq![PageItem::Page(total)]
    }
}

/// The numbered window for `page` of `total` with at most `max` pills before
/// collapsing to ellipses.
pub fn page_window(page: usize, total: usize, max: usize) -> (r: Vec<PageItem>)
    requires
        total > max ==> page < usize::MAX,
    ensures
        r@ == page_window_spec(page, total, max),
{
    let mut r: Vec<PageItem> = Vec::new();
    if total <= max {
        let mut k: usize = 0;
        while k < total
            invariant
                k <= total,
                r@ == page_run(1, k as int),
            decreases total - k,
        {
            r.push(PageItem::Page(k + 1));
            proof {
                assert(r@ =~= page_run(1, k + 1));
            }
            k = k + 1;
        }
        return r;
    }
    r.push(PageItem::Page(1));
    if page > 3 {
        r.push(PageItem::Ellipsis);
    }
    let ghost head = r@;
    let lo: usize = if page >= 3 { page - 1 } else { 2 };
    let hi: usize = if page + 1 <= total - 1 { page + 1 } else { total - 1 };
    let n: usize = if hi >= lo { hi - lo + 1 } else { 0 };
    let mut k: usize = 0;
    while k < n
        invariant
            k <= n,
            n == if hi >= lo { hi - lo + 1 } else { 0 },
            r@ == head + page_run(lo as int, lo + k - 1),
        decreases n - k,
    {
        r.push(PageItem::Page(lo + k));
        proof {
            assert(r@ =~= head + page_run(lo as int, lo + k));
        }
        k = k + 1;
    }
    proof {
        assert(page_run(lo as int, lo + n - 1) =~= page_run(lo as int, hi as int));
    }
    if total >= 2 && page < total - 2 {
        r.push(PageItem::Ellipsis);
    }
    r.push(PageItem::Page(total));
    proof {
        assert(r@ =~= page_window_spec(page, total, max));
    }
    r
}

/// Whom a page change is reported to.
#[derive(Clone, Copy, Debug, PartialEq, Eq, Structural)]
pub enum PageCall {
    /// The unified callback, with the target page.
    OnPage(ActionId, usize),
    /// The legacy previous-page callback.
    Prev(ActionId),
    /// The legacy next-page callback.
    Next(ActionId),
}

/// A pagination control's settings (1-based `page`); `S` is the surface style.
#[derive(Clone, Debug)]
pub struct Pagination<S> {
    pub page: usize,
    pub total: usize,
    pub variant: PaginationVariant,
    /// The `Numbers` design's pill budget before collapsing to ellipses.
    pub max_buttons: usize,
    /// Show the first/last jump buttons.
    pub edges: bool,
    pub on_page: Option<ActionId>,
    pub on_prev: Option<ActionId>,
    pub on_next: Option<ActionId>,
    pub style: Option<S>,
}

/// The resolved state of the arrows: the clamped page and total and each arrow's
/// target (an arrow is disabled at its bound).
#[derive(Clone, Copy, Debug, PartialEq, Eq, Structural)]
pub struct PageControls {
    pub page: usize,
    pub total: usize,
    pub at_start: bool,
    pub at_end: bool,
    pub prev: usize,
    pub next: usize,
}

/// A pagination control at `page` of `total`: numbered design, seven pills, with
/// first/last jump buttons.
pub fn pagination<S>(page: usize, total: usize) -> (r: Pagination<S>)
    ensures
        r == (Pagination::<S> {
            page,
            total,
            variant: PaginationVariant::Numbers,
            max_buttons: 7,
            edges: true,
            on_page: None,
            on_prev: None,
            on_next: None,
            style: None,
        }),
{
    Pagination {
        page,
        total,
        variant: PaginationVariant::Numbers,
        max_buttons: 7,
        edges: true,
        on_page: None,
        on_prev: None,
        on_next: None,
        style: None,
    }
}

/// The clamped total (at least one page) and page (within `1..=total`).
pub open spec fn clamped(page: usize, total: usize) -> (usize, usize) {
    let t = if total == 0 { 1 } else { total };
    let p = if page < 1 { 1 } else if page > t { t } else { page };
    (p, t)
}

impl<S> Pagination<S> {
    /// The design.
    pub fn variant(self, variant: PaginationVariant) -> (r: Pagination<S>)
        ensures
            r == (Pagination { variant, ..self }),
    {
        Pagination { variant, ..self }
    }

    /// How many pills before collapsing to ellipses (at least five).
    pub fn max_buttons(self, n: usize) -> (r: Pagination<S>)
        ensures
            r == (Pagination { max_buttons: if n < 5 { 5 } else { n }, ..self }),
    {
        Pagination { max_buttons: if n < 5 { 5 } else { n }, ..self }
    }

    /// Show the first/last jump buttons.
    pub fn edges(self, on: bool) -> (r: Pagination<S>)
        ensures
            r == (Pagination { edges: on, ..self }),
    {
        Pagination { edges: on, ..self }
    }

    /// Report every page change to `action` (then the legacy callbacks are unused).
    pub fn on_page(self, action: ActionId) -> (r: Pagination<S>)
        ensures
            r == (Pagination { on_page: Some(action), ..self }),
    {
        Pagination { on_page: Some(action), ..self }
    }

    /// The legacy previous-page callback.
    pub fn on_prev(self, action: ActionId) -> (r: Pagination<S>)
        ensures
            r == (Pagination { on_prev: Some(action), ..self }),
    {
        Pagination { on_prev: Some(action), ..self }
    }

    /// The legacy next-page callback.
    pub fn on_next(self, action: ActionId) -> (r: Pagination<S>)
        ensures
            r == (Pagination { on_next: Some(action), ..self }),
    {
        Pagination { on_next: Some(action), ..self }
    }

    /// The surface style.
    pub fn style(self, style: S) -> (r: Pagination<S>)
        ensures
            r == (Pagination { style: Some(style), ..self }),
    {
        Pagination { style: Some(style), ..self }
    }

    /// The arrows: first goes to page 1, last to the last page, previous/next one
    /// page over; previous/first are disabled on the first page, next/last on the
    /// last.
    pub fn controls(&self) -> (r: PageControls)
        ensures
            (r.page, r.total) == clamped(self.page, self.total),
            r.at_start == (r.page <= 1),
            r.at_end == (r.page >= r.total),
            r.prev == if r.page > 1 { r.page - 1 } else { 1 },
            r.next == if r.page < r.total { r.page + 1 } else { r.total as int },
    {
        let total = if self.total == 0 { 1 } else { self.total };
        let page = if self.page < 1 {
            1
        } else if self.page > total {
            total
        } else {
            self.page
        };
        PageControls {
            page,
            total,
            at_start: page <= 1,
            at_end: page >= total,
            prev: if page > 1 { page - 1 } else { 1 },
            next: if page < total { page + 1 } else { total },
        }
    }

    /// The numbered window of the `Numbers` design.
    pub fn items(&self) -> (r: Vec<PageItem>)
        requires
            self.total < usize::MAX,
        ensures
            r@ == page_window_spec(
                clamped(self.page, self.total).0,
                clamped(self.page, self.total).1,
                self.max_buttons,
            ),
    {
        let c = self.controls();
        page_window(c.page, c.total, self.max_buttons)
    }

    /// The label between the arrows: "Page X of Y" (`Simple`) or "X / Y" (`Arrows`).
    pub fn label(&self) -> (r: Vec<char>)
        ensures
            ({
                let (p, t) = clamped(self.page, self.total);
                r@ == if self.variant == PaginationVariant::Simple {
                    "Page "@ + decimal(p as nat) + " of "@ + decimal(t as nat)
                } else {
                    decimal(p as nat) + " / "@ + decimal(t as nat)
                }
            }),
    {
        let c = self.controls();
        let pd = decimal_digits(c.page as u64);
        let td = decimal_digits(c.total as u64);
        let mut r: Vec<char> = Vec::new();
        if self.variant == PaginationVariant::Simple {
            r.push('P');
            r.push('a');
            r.push('g');
            r.push('e');
            r.push(' ');
            append_chars(&mut r, pd.as_slice());
            r.push(' ');
            r.push('o');
            r.push('f');
            r.push(' ');
            append_chars(&mut r, td.as_slice());
            proof {
                reveal_strlit("Page ");
                reveal_strlit(" of ");
                assert(r@ =~= "Page "@ + decimal(c.page as nat) + " of "@ + decimal(c.total as nat));
            }
        } else {
            append_chars(&mut r, pd.as_slice());
            r.push(' ');
            r.push('/');
            r.push(' ');
            append_chars(&mut r, td.as_slice());
            proof {
                reveal_strlit(" / ");
                assert(r@ =~= decimal(c.page as nat) + " / "@ + decimal(c.total as nat));
            }
        }
        r
    }

    /// Whom a press that targets page `target` is reported to: the unified callback
    /// when set; else the legacy previous callback for an earlier page, the legacy
    /// next callback for a later one.
    pub fn go(&self, target: usize) -> (r: Option<PageCall>)
        ensures
            r == (match self.on_page {
                Some(f) => Some(PageCall::OnPage(f, target)),
                None => {
                    let page = clamped(self.page, self.total).0;
                    if target < page && self.on_prev is Some {
                        Some(PageCall::Prev(self.on_prev.unwrap()))
                    } else if target > page && self.on_next is Some {
                        Some(PageCall::Next(self.on_next.unwrap()))
                    } else {
                        None
                    }
                },
            }),
    {
        match self.on_page {
            Some(f) => Some(PageCall::OnPage(f, target)),
            None => {
                let page = self.controls().page;
                if target < page && self.on_prev.is_some() {
                    Some(PageCall::Prev(self.on_prev.unwrap()))
                } else if target > page && self.on_next.is_some() {
                    Some(PageCall::Next(self.on_next.unwrap()))
                } else {
                    None
                }
            },
        }
    }
}

proof fn lemma_window_shape(page: usize, total: usize, max: usize)
    requires
        1 <= page <= total,
        total > max,
        page < usize::MAX,
    ensures
        ({
            let w = page_window_spec(page, total, max);
            let lo = if page >= 3 { page - 1 } else { 2 };
            let hi = if page + 1 <= total - 1 { page + 1 } else { total - 1 };
            let e1: int = if page > 3 { 1 } else { 0 };
            let rl: int = if hi >= lo { hi - lo + 1 } else { 0 };
            &&& w.len() == 1 + e1 + rl + (if page + 2 < total { 1int } else { 0 }) + 1
            &&& forall|i: int|
                0 <= i < w.len() ==> #[trigger] w[i] == if i == 0 {
                    PageItem::Page(1)
                } else if i < 1 + e1 {
                    PageItem::Ellipsis
                } else if i < 1 + e1 + rl {
                    PageItem::Page((lo + (i - 1 - e1)) as usize)
                } else if i < w.len() - 1 {
                    PageItem::Ellipsis
                } else {
                    PageItem::Page(total)
                }
        }),
{
}

/// Every page in the numbered window is a real page, the pages are listed in
/// increasing order, the first and last pages are always shown, and so is the
/// current one.
pub proof fn window_lists_real_pages(page: usize, total: usize, max: usize)
    requires
        1 <= page <= total,
        total > max ==> page < usize::MAX && total >= 2,
    ensures
        ({
            let w = page_window_spec(page, total, max);
            &&& forall|i: int|
                0 <= i < w.len() ==> (#[trigger] w[i] matches PageItem::Page(p) ==> 1 <= p <= total)
            &&& forall|i: int, j: int|
                0 <= i < j < w.len() ==> (#[trigger] w[i] matches PageItem::Page(a) ==> (
                #[trigger] w[j] matches PageItem::Page(b) ==> a < b))
            &&& w[0] == PageItem::Page(1)
            &&& w.last() == PageItem::Page(total)
            &&& exists|i: int| 0 <= i < w.len() && w[i] == PageItem::Page(page)
        }),
{
    let w = page_window_spec(page, total, max);
    if total <= max {
        assert(w[page - 1] == PageItem::Page(page));
        assert(w.last() == w[total - 1]);
    } else {
        lemma_window_shape(page, total, max);
        let lo = if page >= 3 { page - 1 } else { 2 };
        let hi = if page + 1 <= total - 1 { page + 1 } else { total - 1 };
        let e1: int = if page > 3 { 1 } else { 0 };
        let rl: int = if hi >= lo { hi - lo + 1 } else { 0 };
        assert forall|i: int| 0 <= i < w.len() implies (#[trigger] w[i] matches PageItem::Page(p) ==> 1 <= p <= total) by {
        }
        assert forall|i: int, j: int|
            0 <= i < j < w.len() implies (#[trigger] w[i] matches PageItem::Page(a) ==> (
            #[trigger] w[j] matches PageItem::Page(b) ==> a < b)) by {
            let n = w.len() as int;
            let vi: int = if i == 0 { 1 } else if i < 1 + e1 { 0 } else if i < 1 + e1 + rl { lo + (i - 1 - e1) } else if i < n - 1 { 0 } else { total as int };
            let vj: int = if j == 0 { 1 } else if j < 1 + e1 { 0 } else if j < 1 + e1 + rl { lo + (j - 1 - e1) } else if j < n - 1 { 0 } else { total as int };
            assert(w[i] matches PageItem::Page(a) ==> a == vi);
            assert(w[j] matches PageItem::Page(b) ==> b == vj);
            assert((w[i] is Page && w[j] is Page) ==> vi < vj);
        }
        assert(w.last() == w[w.len() - 1]);
        if page == 1 {
            assert(w[0] == PageItem::Page(page));
        } else if page == total {
            assert(w[w.len() - 1] == PageItem::Page(page));
        } else {
            assert(w[1 + e1 + (page - lo)] == PageItem::Page(page));
        }
    }
}

/// A bottom status bar.
#[derive(Clone, Debug)]
pub struct StatusBar {
    pub text: String,
}

/// A status bar showing `text`.
pub fn status_bar(text: String) -> (r: StatusBar)
    ensures
        r.text@ == text@,
{
    StatusBar { text }
}

} // verus!
