//! The pure logic behind the text input: the input kinds with their character
//! filters, placeholders and masks, thousands grouping and currency formatting,
//! and the UTF-8 caret-boundary helpers.
use vstd::prelude::*;
use vstd::string::*;
use vstd::utf8::*;
use crate::text::{is_digit, is_ws, is_ascii_alpha, is_ascii_digit, is_whitespace, is_ascii_alphabetic, chars_of, string_of, slice_range, append_chars};

verus! {

broadcast use vstd::seq_lib::group_seq_properties;

/// The kind of a text-based input: it drives the character filter, leading icon,
/// placeholder and formatting of a text field.
#[derive(Clone, Copy, Debug, PartialEq, Eq, Structural)]
pub enum InputKind {
    /// Free text (the default).
    Text,
    /// A signed decimal number (digits, `.`, `-`).
    Number,
    /// A signed whole number (digits, `-`).
    Integer,
    /// An unsigned decimal (digits, `.`).
    Decimal,
    /// An email address — no spaces.
    Email,
    /// A URL — no spaces.
    Url,
    /// A phone number — digits and phone punctuation.
    Phone,
    /// A currency amount — digits/`.`, grouped as `$1,234.56`.
    Currency,
    /// Obscured entry.
    Password,
    /// A search box.
    Search,
}

impl Default for InputKind {
    fn default() -> (k: InputKind)
        ensures
            k == InputKind::Text,
    {
        InputKind::Text
    }
}

/// A character filter: which characters an input accepts.
#[derive(Clone, Copy, Debug, PartialEq, Eq, Structural)]
pub enum CharFilter {
    /// Digits, `.` and `-`.
    SignedDecimal,
    /// Digits and `-`.
    SignedInteger,
    /// Digits and `.`.
    UnsignedDecimal,
    /// Anything but whitespace.
    NoWhitespace,
    /// Digits and `()+- `.
    PhoneChars,
    /// Digits and the given separator (a date input).
    DigitsOr(char),
    /// Digits and `:` (a 24-hour time input).
    Time24,
    /// Digits, `:`, space and ASCII letters (a 12-hour time input).
    Time12,
}

/// Whether `f` accepts `c`.
pub open spec fn filter_allows(f: CharFilter, c: char) -> bool {
    match f {
        CharFilter::SignedDecimal => is_digit(c) || c == '.' || c == '-',
        CharFilter::SignedInteger => is_digit(c) || c == '-',
        CharFilter::UnsignedDecimal => is_digit(c) || c == '.',
        CharFilter::NoWhitespace => !is_ws(c),
        CharFilter::PhoneChars => is_digit(c) || c == '(' || c == ')' || c == '+' || c == '-'
            || c == ' ',
        CharFilter::DigitsOr(sep) => is_digit(c) || c == sep,
        CharFilter::Time24 => is_digit(c) || c == ':',
        CharFilter::Time12 => is_digit(c) || c == ':' || c == ' ' || is_ascii_alpha(c),
    }
}

impl CharFilter {
    /// Whether this filter accepts `c`.
    pub fn allows(&self, c: char) -> (r: bool)
        ensures
            r == filter_allows(*self, c),
    {
        match *self {
            CharFilter::SignedDecimal => is_ascii_digit(c) || c == '.' || c == '-',
            CharFilter::SignedInteger => is_ascii_digit(c) || c == '-',
            CharFilter::UnsignedDecimal => is_ascii_digit(c) || c == '.',
            CharFilter::NoWhitespace => !is_whitespace(c),
            CharFilter::PhoneChars => is_ascii_digit(c) || c == '(' || c == ')' || c == '+' || c
                == '-' || c == ' ',
            CharFilter::DigitsOr(sep) => is_ascii_digit(c) || c == sep,
            CharFilter::Time24 => is_ascii_digit(c) || c == ':',
            CharFilter::Time12 => is_ascii_digit(c) || c == ':' || c == ' ' || is_ascii_alphabetic(
                c,
            ),
        }
    }
}

/// The filter a kind imposes, if any.
pub open spec fn kind_filter_spec(kind: InputKind) -> Option<CharFilter> {
    match kind {
        InputKind::Number => Some(CharFilter::SignedDecimal),
        InputKind::Integer => Some(CharFilter::SignedInteger),
        InputKind::Decimal | InputKind::Currency => Some(CharFilter::UnsignedDecimal),
        InputKind::Email | InputKind::Url => Some(CharFilter::NoWhitespace),
        InputKind::Phone => Some(CharFilter::PhoneChars),
        _ => None,
    }
}

/// The character filter a kind imposes (before any explicit filter).
pub fn kind_filter(kind: InputKind) -> (r: Option<CharFilter>)
    ensures
        r == kind_filter_spec(kind),
{
    match kind {
        InputKind::Number => Some(CharFilter::SignedDecimal),
        InputKind::Integer => Some(CharFilter::SignedInteger),
        InputKind::Decimal | InputKind::Currency => Some(CharFilter::UnsignedDecimal),
        InputKind::Email | InputKind::Url => Some(CharFilter::NoWhitespace),
        InputKind::Phone => Some(CharFilter::PhoneChars),
        _ => None,
    }
}

/// The default placeholder a kind suggests.
pub open spec fn kind_placeholder_spec(kind: InputKind) -> Seq<char> {
    match kind {
        InputKind::Number | InputKind::Integer => "0"@,
        InputKind::Decimal => "0.00"@,
        InputKind::Currency => "$0.00"@,
        InputKind::Email => "you@example.com"@,
        InputKind::Url => "https://example.com"@,
        InputKind::Phone => "(555) 123-4567"@,
        InputKind::Password => "Password"@,
        InputKind::Search => "Search…"@,
        InputKind::Text => ""@,
    }
}

/// The default placeholder a kind suggests (used only when none is set).
pub fn kind_placeholder(kind: InputKind) -> (r: &'static str)
    ensures
        r@ == kind_placeholder_spec(kind),
        kind == InputKind::Number ==> r@ == "0"@,
        kind == InputKind::Integer ==> r@ == "0"@,
        kind == InputKind::Decimal ==> r@ == "0.00"@,
        kind == InputKind::Currency ==> r@ == "$0.00"@,
        kind == InputKind::Email ==> r@ == "you@example.com"@,
        kind == InputKind::Url ==> r@ == "https://example.com"@,
        kind == InputKind::Phone ==> r@ == "(555) 123-4567"@,
        kind == InputKind::Password ==> r@ == "Password"@,
        kind == InputKind::Search ==> r@ == "Search…"@,
        kind == InputKind::Text ==> r@ == ""@,
{
    match kind {
        InputKind::Number | InputKind::Integer => "0",
        InputKind::Decimal => "0.00",
        InputKind::Currency => "$0.00",
        InputKind::Email => "you@example.com",
        InputKind::Url => "https://example.com",
        InputKind::Phone => "(555) 123-4567",
        InputKind::Password => "Password",
        InputKind::Search => "Search…",
        InputKind::Text => "",
    }
}

/// The mask a kind applies after each edit, if any: only a currency input has one.
pub fn kind_format(kind: InputKind) -> (r: Option<crate::editor::Mask>)
    ensures
        r == (if kind == InputKind::Currency {
            Some(crate::editor::Mask::Currency)
        } else {
            None::<crate::editor::Mask>
        }),
{
    match kind {
        InputKind::Currency => Some(crate::editor::Mask::Currency),
        _ => None,
    }
}

// ---------------------------------------------------------------------------
// Thousands grouping and currency
// ---------------------------------------------------------------------------

/// The ASCII digits of `s`, in order.
pub open spec fn digits_of(s: Seq<char>) -> Seq<char> {
    s.filter(|c: char| is_digit(c))
}

/// `d[i..]` with a `,` in front of every position `j > 0` that starts a group of three
/// counted from the right end of `d`.
pub open spec fn grouped_from(d: Seq<char>, i: int) -> Seq<char>
    decreases d.len() - i,
{
    if i < 0 || i >= d.len() {
        Seq::empty()
    } else {
        let piece = if i > 0 && (d.len() - i) % 3 == 0 {
            seq![',', d[i]]
        } else {
            seq![d[i]]
        };
        piece + grouped_from(d, i + 1)
    }
}

/// `d` grouped into thousands: `"1234567"` becomes `"1,234,567"`.
pub open spec fn grouped(d: Seq<char>) -> Seq<char> {
    grouped_from(d, 0)
}

/// Keeps the characters of `s` that satisfy `p`, as a loop over `s` would.
proof fn lemma_filter_step(s: Seq<char>, i: int, p: spec_fn(char) -> bool)
    requires
        0 <= i < s.len(),
    ensures
        s.take(i + 1).filter(p) == (if p(s[i]) {
            s.take(i).filter(p).push(s[i])
        } else {
            s.take(i).filter(p)
        }),
{
    assert(s.take(i + 1) =~= s.take(i).push(s[i]));
    s.take(i).lemma_filter_push(s[i], p);
}

/// The ASCII digits of `s`.
pub fn digits_only(s: &[char]) -> (r: Vec<char>)
    ensures
        r@ == digits_of(s@),
{
    let mut out: Vec<char> = Vec::new();
    let mut i: usize = 0;
    while i < s.len()
        invariant
            i <= s@.len(),
            out@ == s@.take(i as int).filter(|c: char| is_digit(c)),
        decreases s@.len() - i,
    {
        proof {
            lemma_filter_step(s@, i as int, |c: char| is_digit(c));
        }
        if is_ascii_digit(s[i]) {
            out.push(s[i]);
        }
        i = i + 1;
    }
    assert(s@.take(s@.len() as int) =~= s@);
    out
}

/// Group the digits of `d` into thousands (`d` holds digits only).
pub fn group_digits(d: &[char]) -> (r: Vec<char>)
    ensures
        r@ == grouped(d@),
{
    let n = d.len();
    let mut out: Vec<char> = Vec::new();
    let mut i: usize = 0;
    while i < n
        invariant
            n == d@.len(),
            i <= n,
            out@ + grouped_from(d@, i as int) == grouped(d@),
        decreases n - i,
    {
        let ghost before = out@;
        if i > 0 && (n - i) % 3 == 0 {
            out.push(',');
        }
        out.push(d[i]);
        proof {
            let piece = if i > 0 && (n - i) % 3 == 0 {
                seq![',', d@[i as int]]
            } else {
                seq![d@[i as int]]
            };
            assert(grouped_from(d@, i as int) == piece + grouped_from(d@, i + 1));
            assert(out@ =~= before + piece);
            assert(before + (piece + grouped_from(d@, i + 1)) =~= (before + piece) + grouped_from(
                d@,
                i + 1,
            ));
        }
        i = i + 1;
    }
    assert(grouped_from(d@, n as int) =~= Seq::<char>::empty());
    assert(out@ + Seq::<char>::empty() =~= out@);
    out
}

/// Group a run of digits into thousands: `"1234567" → "1,234,567"`. Anything but
/// ASCII digits is dropped first.
pub fn group_thousands(digits: &str) -> (r: String)
    ensures
        r@ == grouped(digits_of(digits@)),
{
    let cs = chars_of(digits);
    let d = digits_only(&cs);
    let g = group_digits(&d);
    string_of(&g)
}

/// The characters a currency amount keeps: digits and `.`.
pub open spec fn currency_chars(s: Seq<char>) -> Seq<char> {
    s.filter(|c: char| is_digit(c) || c == '.')
}

/// The index of the first `c` in `s`, if any.
pub open spec fn first_index(s: Seq<char>, c: char) -> Option<int>
    decreases s.len(),
{
    if s.len() == 0 {
        None
    } else if s[0] == c {
        Some(0)
    } else {
        match first_index(s.drop_first(), c) {
            Some(j) => Some(j + 1),
            None => None,
        }
    }
}

/// A currency amount: the digits and `.` of `s`; empty stays empty; otherwise the
/// integer part (before the first `.`) grouped into thousands (or `0` when it has no
/// digits) behind a `$`, then — if there was a `.` — a `.` and at most two digits of
/// what follows it.
#[verifier::opaque]
pub open spec fn currency_spec(s: Seq<char>) -> Seq<char> {
    let cleaned = currency_chars(s);
    if cleaned.len() == 0 {
        Seq::empty()
    } else {
        let (int_part, frac) = match first_index(cleaned, '.') {
            Some(k) => (cleaned.take(k), Some(cleaned.skip(k + 1))),
            None => (cleaned, None),
        };
        let g = grouped(digits_of(int_part));
        let int_str = if g.len() == 0 {
            seq!['0']
        } else {
            g
        };
        match frac {
            Some(f) => seq!['$'] + int_str + seq!['.'] + digits_of(f).take(
                if digits_of(f).len() < 2 {
                    digits_of(f).len() as int
                } else {
                    2
                },
            ),
            None => seq!['$'] + int_str,
        }
    }
}

proof fn lemma_first_index_found(s: Seq<char>, c: char, k: int)
    requires
        0 <= k < s.len(),
        s[k] == c,
        forall|j: int| 0 <= j < k ==> s[j] != c,
    ensures
        first_index(s, c) == Some(k),
    decreases k,
{
    if k > 0 {
        lemma_first_index_found(s.drop_first(), c, k - 1);
    }
}

proof fn lemma_first_index_absent(s: Seq<char>, c: char)
    requires
        forall|j: int| 0 <= j < s.len() ==> s[j] != c,
    ensures
        first_index(s, c) == None::<int>,
    decreases s.len(),
{
    if s.len() > 0 {
        lemma_first_index_absent(s.drop_first(), c);
    }
}

/// Keeps the digits and `.` of `s`.
fn currency_clean(s: &[char]) -> (r: Vec<char>)
    ensures
        r@ == currency_chars(s@),
{
    let mut out: Vec<char> = Vec::new();
    let mut i: usize = 0;
    while i < s.len()
        invariant
            i <= s@.len(),
            out@ == s@.take(i as int).filter(|c: char| is_digit(c) || c == '.'),
        decreases s@.len() - i,
    {
        proof {
            lemma_filter_step(s@, i as int, |c: char| is_digit(c) || c == '.');
        }
        if is_ascii_digit(s[i]) || s[i] == '.' {
            out.push(s[i]);
        }
        i = i + 1;
    }
    assert(s@.take(s@.len() as int) =~= s@);
    out
}

/// Formats a currency amount over characters (see [`format_currency`]).
pub fn currency_chars_mask(s: &[char]) -> (r: Vec<char>)
    ensures
        r@ == currency_spec(s@),
{
    reveal(currency_spec);
    let cleaned = currency_clean(s);
    if cleaned.len() == 0 {
        return Vec::new();
    }
    // Find the first '.'.
    let mut k: usize = 0;
    while k < cleaned.len() && cleaned[k] != '.'
        invariant
            k <= cleaned@.len(),
            forall|j: int| 0 <= j < k ==> cleaned@[j] != '.',
        decreases cleaned@.len() - k,
    {
        k = k + 1;
    }
    let has_dot = k < cleaned.len();
    proof {
        if has_dot {
            lemma_first_index_found(cleaned@, '.', k as int);
        } else {
            lemma_first_index_absent(cleaned@, '.');
        }
    }
    let int_part = slice_range(&cleaned, 0, k);
    let int_digits = digits_only(&int_part);
    let g = group_digits(&int_digits);
    let mut out: Vec<char> = Vec::new();
    out.push('$');
    if g.len() == 0 {
        out.push('0');
    } else {
        append_chars(&mut out, &g);
    }
    proof {
        assert(cleaned@.take(k as int) =~= cleaned@.subrange(0, k as int));
    }
    if has_dot {
        let frac = slice_range(&cleaned, k + 1, cleaned.len());
        let fd = digits_only(&frac);
        let take = if fd.len() < 2 {
            fd.len()
        } else {
            2
        };
        let fd2 = slice_range(&fd, 0, take);
        out.push('.');
        append_chars(&mut out, &fd2);
        proof {
            assert(cleaned@.skip(k + 1) =~= cleaned@.subrange(k + 1, cleaned@.len() as int));
            assert(fd@.take(take as int) =~= fd@.subrange(0, take as int));
            if g@.len() == 0 {
                assert(out@ =~= seq!['$'] + seq!['0'] + seq!['.'] + fd2@);
            } else {
                assert(out@ =~= seq!['$'] + g@ + seq!['.'] + fd2@);
            }
        }
    } else {
        proof {
            assert(cleaned@.take(k as int) =~= cleaned@);
            if g@.len() == 0 {
                assert(out@ =~= seq!['$'] + seq!['0']);
            } else {
                assert(out@ =~= seq!['$'] + g@);
            }
        }
    }
    out
}

/// Format a currency amount: strip to digits/`.`, group the integer part and
/// prefix `$` (`"1234.5" → "$1,234.5"`).
pub fn format_currency(s: &str) -> (r: String)
    ensures
        r@ == currency_spec(s@),
{
    let cs = chars_of(s);
    let m = currency_chars_mask(&cs);
    string_of(&m)
}

// ---------------------------------------------------------------------------
// UTF-8 caret boundaries (byte offsets)
// ---------------------------------------------------------------------------

/// The byte offset of the character boundary before `i` in `s` (0 at the start).
pub fn prev_boundary(s: &str, i: usize) -> (r: usize)
    requires
        i <= s.spec_bytes().len(),
        is_char_boundary(s.spec_bytes(), i as int),
    ensures
        i == 0 ==> r == 0,
        i > 0 ==> r < i && is_char_boundary(s.spec_bytes(), r as int) && forall|j: int|
            r < j < i ==> !is_char_boundary(s.spec_bytes(), j),
{
    if i == 0 {
        return 0;
    }
    proof {
        encode_utf8_valid_utf8(s@);
        is_char_boundary_start_end_of_seq(s.spec_bytes());
    }
    let mut j: usize = i - 1;
    while !s.is_char_boundary(j)
        invariant
            j < i,
            i <= s.spec_bytes().len(),
            is_char_boundary(s.spec_bytes(), 0),
            forall|k: int| j < k < i ==> !is_char_boundary(s.spec_bytes(), k),
        decreases j,
    {
        j = j - 1;
    }
    j
}

/// The byte offset of the character boundary after `i` in `s` (its length at the end).
pub fn next_boundary(s: &str, i: usize) -> (r: usize)
    requires
        i <= s.spec_bytes().len() <= usize::MAX,
        is_char_boundary(s.spec_bytes(), i as int),
    ensures
        i == s.spec_bytes().len() ==> r == i,
        i < s.spec_bytes().len() ==> i < r <= s.spec_bytes().len() && is_char_boundary(
            s.spec_bytes(),
            r as int,
        ) && forall|j: int| i < j < r ==> !is_char_boundary(s.spec_bytes(), j),
{
    let n = s.len();
    if i >= n {
        return n;
    }
    proof {
        encode_utf8_valid_utf8(s@);
        is_char_boundary_start_end_of_seq(s.spec_bytes());
    }
    let mut j: usize = i + 1;
    while !s.is_char_boundary(j)
        invariant
            i < j <= n,
            n == s.spec_bytes().len(),
            is_char_boundary(s.spec_bytes(), n as int),
            forall|k: int| i < k < j ==> !is_char_boundary(s.spec_bytes(), k),
        decreases n - j,
    {
        j = j + 1;
    }
    j
}

/// The ordered pair `(min, max)` of two offsets.
pub fn ordered(a: usize, f: usize) -> (r: (usize, usize))
    ensures
        r.0 == (if a <= f { a } else { f }),
        r.1 == (if a <= f { f } else { a }),
{
    if a <= f {
        (a, f)
    } else {
        (f, a)
    }
}

// ---------------------------------------------------------------------------
// The currency mask is idempotent
// ---------------------------------------------------------------------------

/// Every character of `s` is a digit.
pub open spec fn all_digits(s: Seq<char>) -> bool {
    forall|i: int| 0 <= i < s.len() ==> is_digit(#[trigger] s[i])
}

proof fn lemma_cc_push(s: Seq<char>, c: char)
    ensures
        currency_chars(s.push(c)) == if is_digit(c) || c == '.' {
            currency_chars(s).push(c)
        } else {
            currency_chars(s)
        },
        digits_of(s.push(c)) == if is_digit(c) {
            digits_of(s).push(c)
        } else {
            digits_of(s)
        },
{
    reveal(Seq::filter);
    assert(s.push(c).drop_last() =~= s);
}

proof fn lemma_cc_empty()
    ensures
        currency_chars(Seq::<char>::empty()) == Seq::<char>::empty(),
        digits_of(Seq::<char>::empty()) == Seq::<char>::empty(),
{
    reveal(Seq::filter);
}

proof fn lemma_cc_concat(a: Seq<char>, b: Seq<char>)
    ensures
        currency_chars(a + b) == currency_chars(a) + currency_chars(b),
        digits_of(a + b) == digits_of(a) + digits_of(b),
    decreases b.len(),
{
    if b.len() == 0 {
        assert(a + b =~= a);
        lemma_cc_empty();
        assert(currency_chars(a) + Seq::<char>::empty() =~= currency_chars(a));
        assert(digits_of(a) + Seq::<char>::empty() =~= digits_of(a));
    } else {
        let b0 = b.drop_last();
        let c = b.last();
        lemma_cc_concat(a, b0);
        assert(a + b =~= (a + b0).push(c));
        assert(b =~= b0.push(c));
        lemma_cc_push(a + b0, c);
        lemma_cc_push(b0, c);
        assert((currency_chars(a) + currency_chars(b0)).push(c) =~= currency_chars(a) + currency_chars(b0).push(c));
        assert((digits_of(a) + digits_of(b0)).push(c) =~= digits_of(a) + digits_of(b0).push(c));
    }
}

proof fn lemma_digits_of_all(s: Seq<char>)
    requires
        all_digits(s),
    ensures
        digits_of(s) == s,
        currency_chars(s) == s,
    decreases s.len(),
{
    if s.len() == 0 {
        lemma_cc_empty();
        assert(s =~= Seq::<char>::empty());
    } else {
        lemma_digits_of_all(s.drop_last());
        lemma_cc_push(s.drop_last(), s.last());
        assert(s.drop_last().push(s.last()) =~= s);
    }
}

proof fn lemma_digits_of_digits(s: Seq<char>)
    ensures
        all_digits(digits_of(s)),
    decreases s.len(),
{
    if s.len() == 0 {
        lemma_cc_empty();
    } else {
        lemma_digits_of_digits(s.drop_last());
        lemma_cc_push(s.drop_last(), s.last());
        assert(s.drop_last().push(s.last()) =~= s);
    }
}

proof fn lemma_cc_single(c: char)
    ensures
        currency_chars(seq![c]) == if is_digit(c) || c == '.' { seq![c] } else { Seq::<char>::empty() },
{
    lemma_cc_empty();
    lemma_cc_push(Seq::<char>::empty(), c);
    assert(Seq::<char>::empty().push(c) =~= seq![c]);
}

proof fn lemma_currency_chars_of_grouped(d: Seq<char>, i: int)
    requires
        all_digits(d),
        0 <= i <= d.len(),
    ensures
        currency_chars(grouped_from(d, i)) == d.skip(i),
        grouped_from(d, i).len() >= d.len() - i,
    decreases d.len() - i,
{
    if i < d.len() {
        lemma_currency_chars_of_grouped(d, i + 1);
        let piece = if i > 0 && (d.len() - i) % 3 == 0 {
            seq![',', d[i]]
        } else {
            seq![d[i]]
        };
        assert(grouped_from(d, i) == piece + grouped_from(d, i + 1));
        lemma_cc_concat(piece, grouped_from(d, i + 1));
        lemma_cc_single(d[i]);
        assert(currency_chars(piece) == seq![d[i]]) by {
            if piece.len() == 2 {
                lemma_cc_single(',');
                lemma_cc_concat(seq![','], seq![d[i]]);
                assert(piece =~= seq![','] + seq![d[i]]);
                assert(Seq::<char>::empty() + seq![d[i]] =~= seq![d[i]]);
            }
        }
        assert(d.skip(i) =~= seq![d[i]] + d.skip(i + 1));
    } else {
        assert(d.skip(i) =~= Seq::<char>::empty());
        lemma_cc_empty();
    }
}

/// The integer part of a formatted amount: its digits regroup to it.
proof fn lemma_int_str(d: Seq<char>)
    requires
        all_digits(d),
    ensures
        ({
            let g = grouped(d);
            let int_str = if g.len() == 0 { seq!['0'] } else { g };
            let dd = if g.len() == 0 { seq!['0'] } else { d };
            &&& currency_chars(int_str) == dd
            &&& all_digits(dd)
            &&& dd.len() > 0
            &&& int_str.len() > 0
            &&& grouped(dd) == int_str
        }),
{
    let g = grouped(d);
    lemma_currency_chars_of_grouped(d, 0);
    assert(d.skip(0) =~= d);
    let dd = if g.len() == 0 { seq!['0'] } else { d };
    assert(all_digits(dd));
    lemma_digits_of_all(dd);
    if g.len() == 0 {
        assert(grouped_from(seq!['0'], 1) =~= Seq::<char>::empty());
        assert(grouped(seq!['0']) =~= seq!['0']);
    }
}

/// What a formatted amount with a fraction reads back as.
proof fn lemma_frac_pieces(int_str: Seq<char>, dd: Seq<char>, fd: Seq<char>)
    requires
        currency_chars(int_str) == dd,
        all_digits(dd),
        all_digits(fd),
    ensures
        ({
            let cleaned2 = dd + seq!['.'] + fd;
            &&& currency_chars(seq!['$'] + int_str + seq!['.'] + fd) == cleaned2
            &&& first_index(cleaned2, '.') == Some(dd.len() as int)
            &&& cleaned2.take(dd.len() as int) == dd
            &&& cleaned2.skip(dd.len() as int + 1) == fd
            &&& digits_of(dd) == dd
            &&& digits_of(fd) == fd
        }),
{
    let c = seq!['$'] + int_str + seq!['.'] + fd;
    lemma_digits_of_all(dd);
    lemma_digits_of_all(fd);
    lemma_cc_single('$');
    lemma_cc_single('.');
    let cleaned2 = dd + seq!['.'] + fd;
    lemma_cc_concat(seq!['$'], int_str + (seq!['.'] + fd));
    lemma_cc_concat(int_str, seq!['.'] + fd);
    lemma_cc_concat(seq!['.'], fd);
    assert(c =~= seq!['$'] + (int_str + (seq!['.'] + fd)));
    assert(cleaned2 =~= Seq::<char>::empty() + (dd + (seq!['.'] + fd)));
    assert forall|j: int| 0 <= j < dd.len() implies cleaned2[j] != '.' by {
        assert(is_digit(dd[j]));
    }
    lemma_first_index_found(cleaned2, '.', dd.len() as int);
    assert(cleaned2.take(dd.len() as int) =~= dd);
    assert(cleaned2.skip(dd.len() as int + 1) =~= fd);
}

/// A formatted amount with a fraction formats to itself (given what it reads
/// back as).
proof fn lemma_fixed_with_frac(int_str: Seq<char>, dd: Seq<char>, fd: Seq<char>)
    requires
        int_str.len() > 0,
        dd.len() > 0,
        fd.len() <= 2,
        grouped(dd) == int_str,
        currency_chars(seq!['$'] + int_str + seq!['.'] + fd) == dd + seq!['.'] + fd,
        first_index(dd + seq!['.'] + fd, '.') == Some(dd.len() as int),
        (dd + seq!['.'] + fd).take(dd.len() as int) == dd,
        (dd + seq!['.'] + fd).skip(dd.len() as int + 1) == fd,
        digits_of(dd) == dd,
        digits_of(fd) == fd,
    ensures
        currency_spec(seq!['$'] + int_str + seq!['.'] + fd) == seq!['$'] + int_str + seq!['.'] + fd,
{
    reveal(currency_spec);
    assert(fd.take(fd.len() as int) =~= fd);
}

/// What a formatted whole amount reads back as.
proof fn lemma_whole_pieces(int_str: Seq<char>, dd: Seq<char>)
    requires
        currency_chars(int_str) == dd,
        all_digits(dd),
    ensures
        currency_chars(seq!['$'] + int_str) == dd,
        first_index(dd, '.') is None,
        digits_of(dd) == dd,
{
    lemma_digits_of_all(dd);
    lemma_cc_single('$');
    lemma_first_index_absent(dd, '.');
    lemma_cc_concat(seq!['$'], int_str);
    assert(Seq::<char>::empty() + dd =~= dd);
}

/// A formatted whole amount formats to itself (given what it reads back as).
proof fn lemma_fixed_whole(int_str: Seq<char>, dd: Seq<char>)
    requires
        int_str.len() > 0,
        currency_chars(seq!['$'] + int_str) == dd,
        first_index(dd, '.') is None,
        digits_of(dd) == dd,
        dd.len() > 0,
        grouped(dd) == int_str,
    ensures
        currency_spec(seq!['$'] + int_str) == seq!['$'] + int_str,
{
    reveal(currency_spec);
}

/// Formatting an already formatted amount changes nothing: the currency mask is
/// idempotent, so re-masking after each edit is stable.
pub proof fn currency_mask_is_idempotent(s: Seq<char>)
    ensures
        currency_spec(currency_spec(s)) == currency_spec(s),
{
    let cleaned = currency_chars(s);
    if cleaned.len() == 0 {
        lemma_cc_empty();
        reveal(currency_spec);
        assert(currency_spec(s) =~= Seq::<char>::empty());
    } else {
        let k = first_index(cleaned, '.');
        let int_part = match k {
            Some(k) => cleaned.take(k),
            None => cleaned,
        };
        let d = digits_of(int_part);
        lemma_digits_of_digits(int_part);
        lemma_int_str(d);
        let g = grouped(d);
        let int_str = if g.len() == 0 { seq!['0'] } else { g };
        let dd = if g.len() == 0 { seq!['0'] } else { d };
        match k {
            Some(k) => {
                let f = cleaned.skip(k + 1);
                let df = digits_of(f);
                lemma_digits_of_digits(f);
                let fd = df.take(if df.len() < 2 { df.len() as int } else { 2 });
                assert(all_digits(fd));
                assert(currency_spec(s) == seq!['$'] + int_str + seq!['.'] + fd) by {
                    reveal(currency_spec);
                }
                lemma_frac_pieces(int_str, dd, fd);
                lemma_fixed_with_frac(int_str, dd, fd);
            },
            None => {
                assert(currency_spec(s) == seq!['$'] + int_str) by {
                    reveal(currency_spec);
                }
                lemma_whole_pieces(int_str, dd);
                lemma_fixed_whole(int_str, dd);
            },
        }
    }
}

// ---------------------------------------------------------------------------
// A field's effective settings
// ---------------------------------------------------------------------------

/// The trailing control a field adds by itself.
#[derive(Clone, Copy, Debug, PartialEq, Eq, Structural)]
pub enum Affordance {
    Nothing,
    /// A password field's show/hide toggle.
    RevealToggle,
    /// A non-empty search field's clear button.
    ClearButton,
}

/// A field's effective settings: the kind's defaults, each overridden by an
/// explicit setting.
#[derive(Clone, Debug)]
pub struct FieldSetup {
    pub filter: Option<CharFilter>,
    pub format: Option<crate::editor::Mask>,
    pub placeholder: Vec<char>,
    /// The character drawn in place of each typed one, if any.
    pub obscure: Option<char>,
    pub trailing: Affordance,
}

/// The effective settings of a field of `kind`: an explicit filter, mask or
/// (non-empty) placeholder wins over the kind's; a password field hides its text
/// behind `•` until revealed; without a trailing widget of its own an enabled
/// password field gets the show/hide toggle and a non-empty search field the clear
/// button.
pub fn field_setup(
    kind: InputKind,
    filter: Option<CharFilter>,
    format: Option<crate::editor::Mask>,
    placeholder: &str,
    obscure: Option<char>,
    revealed: bool,
    has_trailing: bool,
    disabled: bool,
    value_empty: bool,
) -> (r: FieldSetup)
    ensures
        r.filter == (if filter is Some { filter } else { kind_filter_spec(kind) }),
        r.format == (if format is Some {
            format
        } else if kind == InputKind::Currency {
            Some(crate::editor::Mask::Currency)
        } else {
            None::<crate::editor::Mask>
        }),
        placeholder@.len() > 0 ==> r.placeholder@ == placeholder@,
        placeholder@.len() == 0 ==> r.placeholder@ == kind_placeholder_spec(kind),
        r.obscure == (if kind == InputKind::Password {
            if revealed { None } else { Some('•') }
        } else {
            obscure
        }),
        r.trailing == (if has_trailing || disabled {
            Affordance::Nothing
        } else if kind == InputKind::Password {
            Affordance::RevealToggle
        } else if kind == InputKind::Search && !value_empty {
            Affordance::ClearButton
        } else {
            Affordance::Nothing
        }),
{
    let f = match filter {
        Some(x) => Some(x),
        None => kind_filter(kind),
    };
    let m = match format {
        Some(x) => Some(x),
        None => kind_format(kind),
    };
    let ph = if placeholder.unicode_len() == 0 {
        chars_of(kind_placeholder(kind))
    } else {
        chars_of(placeholder)
    };
    let ob = if kind == InputKind::Password {
        if revealed { None } else { Some('•') }
    } else {
        obscure
    };
    let trailing = if has_trailing || disabled {
        Affordance::Nothing
    } else if kind == InputKind::Password {
        Affordance::RevealToggle
    } else if kind == InputKind::Search && !value_empty {
        Affordance::ClearButton
    } else {
        Affordance::Nothing
    };
    FieldSetup { filter: f, format: m, placeholder: ph, obscure: ob, trailing }
}

proof fn lemma_grouped_from(d: Seq<char>, i: int)
    requires
        1 <= i <= d.len(),
        forall|k: int| 0 <= k < d.len() ==> #[trigger] d[k] != ',',
    ensures
        grouped_from(d, i).len() == (d.len() - i) + (d.len() - i) / 3,
        grouped_from(d, i).filter(|c: char| c != ',') == d.skip(i),
    decreases d.len() - i,
{
    let p = |c: char| c != ',';
    if i < d.len() {
        lemma_grouped_from(d, i + 1);
        let piece = if (d.len() - i) % 3 == 0 {
            seq![',', d[i]]
        } else {
            seq![d[i]]
        };
        Seq::filter_distributes_over_add(piece, grouped_from(d, i + 1), p);
        reveal_with_fuel(Seq::filter, 3);
        assert(seq![',', d[i]].drop_last() =~= seq![',']);
        assert(seq![','].drop_last() =~= Seq::<char>::empty());
        assert(seq![d[i]].drop_last() =~= Seq::<char>::empty());
        assert(piece.filter(p) =~= seq![d[i]]);
        assert(d.skip(i) =~= seq![d[i]] + d.skip(i + 1));
    } else {
        assert(grouped_from(d, i).filter(p) =~= Seq::<char>::empty()) by {
            reveal_with_fuel(Seq::filter, 1);
        }
        assert(d.skip(i) =~= Seq::<char>::empty());
    }
}

/// Thousands grouping only inserts separators: taking the commas out of the grouped
/// digits gives the digits back, and a run of `n > 0` digits gains exactly
/// `(n - 1) / 3` commas (one before every full group of three counted from the right).
pub proof fn grouping_only_adds_separators(d: Seq<char>)
    requires
        forall|k: int| 0 <= k < d.len() ==> #[trigger] d[k] != ',',
    ensures
        grouped(d).filter(|c: char| c != ',') == d,
        d.len() > 0 ==> grouped(d).len() == d.len() + (d.len() - 1) / 3,
{
    let p = |c: char| c != ',';
    if d.len() > 0 {
        lemma_grouped_from(d, 1);
        Seq::filter_distributes_over_add(seq![d[0]], grouped_from(d, 1), p);
        reveal_with_fuel(Seq::filter, 2);
        assert(seq![d[0]].drop_last() =~= Seq::<char>::empty());
        assert(seq![d[0]].filter(p) =~= seq![d[0]]);
        assert(d =~= seq![d[0]] + d.skip(1));
    } else {
        assert(grouped(d).filter(p) =~= Seq::<char>::empty()) by {
            reveal_with_fuel(Seq::filter, 1);
        }
    }
}

} // verus!
