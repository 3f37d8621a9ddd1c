//! The date input's format: field order plus separator, with the input mask, the
//! parser and the formatter that a date field uses.
use vstd::prelude::*;
use crate::num::{
    padded, padded_signed, parse_signed, parse_signed_spec, parse_unsigned, parse_unsigned_spec,
    zero_padded, zero_padded_signed, unsigned_body, lemma_padded_value, lemma_decimal_len,
};
use crate::text::{
    is_digit, is_ascii_digit, split, split_from, split_chars, views, chars_of, string_of,
    slice_range, append_chars,
};
use crate::text_field::{digits_of, digits_only};

verus! {

broadcast use vstd::seq_lib::group_seq_properties;

/// The order of the day/month/year fields.
#[derive(Clone, Copy, Debug, PartialEq, Eq, Structural)]
pub enum DateOrder {
    /// Month, day, year — `MM/DD/YYYY` (US).
    Mdy,
    /// Day, month, year — `DD/MM/YYYY` (most of the world).
    Dmy,
    /// Year, month, day — `YYYY-MM-DD` (ISO).
    Ymd,
}

/// A customizable date format: field order plus a separator character.
#[derive(Clone, Copy, Debug, PartialEq, Eq, Structural)]
pub struct DateFormat {
    pub order: DateOrder,
    pub separator: char,
}

impl Default for DateFormat {
    fn default() -> (f: DateFormat)
        ensures
            f == (DateFormat { order: DateOrder::Mdy, separator: '/' }),
    {
        DateFormat::mdy()
    }
}

/// The field widths in display order: the 4-digit year leads only in `Ymd`.
pub open spec fn widths_spec(order: DateOrder) -> (nat, nat, nat) {
    match order {
        DateOrder::Ymd => (4, 2, 2),
        _ => (2, 2, 4),
    }
}

/// `d` with `sep` inserted before position `p1` and before position `p2` (each only
/// when a character follows it).
pub open spec fn insert_seps(d: Seq<char>, p1: int, p2: int, sep: char) -> Seq<char> {
    if d.len() <= p1 {
        d
    } else if d.len() <= p2 {
        d.take(p1) + seq![sep] + d.skip(p1)
    } else {
        d.take(p1) + seq![sep] + d.subrange(p1, p2) + seq![sep] + d.skip(p2)
    }
}

/// At most the first `n` characters of `s`.
pub open spec fn at_most(s: Seq<char>, n: nat) -> Seq<char> {
    if s.len() <= n {
        s
    } else {
        s.take(n as int)
    }
}

/// The masked input: the first eight digits, with the separator after the first and
/// second field.
pub open spec fn mask_spec(f: DateFormat, s: Seq<char>) -> Seq<char> {
    let (w0, w1, w2) = widths_spec(f.order);
    insert_seps(at_most(digits_of(s), 8), w0 as int, (w0 + w1) as int, f.separator)
}

/// The `(year, month, day)` pieces of a split date, by field order.
pub open spec fn pick_fields(order: DateOrder, parts: Seq<Seq<char>>) -> (
    Seq<char>,
    Seq<char>,
    Seq<char>,
) {
    match order {
        DateOrder::Mdy => (parts[2], parts[0], parts[1]),
        DateOrder::Dmy => (parts[2], parts[1], parts[0]),
        DateOrder::Ymd => (parts[0], parts[1], parts[2]),
    }
}

/// A complete date: exactly three separator-delimited fields; month `1..=12`, day
/// `1..=31` (each as `str::parse::<u32>` reads it) and a four-character year (as
/// `str::parse::<i32>` reads it).
pub open spec fn parse_spec(f: DateFormat, s: Seq<char>) -> Option<(i32, u32, u32)> {
    let parts = split(s, f.separator);
    if parts.len() != 3 {
        None
    } else {
        let (ys, ms, ds) = pick_fields(f.order, parts);
        let m = parse_unsigned_spec(ms, u32::MAX as nat);
        let d = parse_unsigned_spec(ds, u32::MAX as nat);
        let y = parse_signed_spec(ys, 0x8000_0000, i32::MAX as nat);
        if m is Some && d is Some && y is Some && 1 <= m->0 <= 12 && 1 <= d->0 <= 31 && ys.len()
            == 4 {
            Some((y->0 as i32, m->0 as u32, d->0 as u32))
        } else {
            None
        }
    }
}

/// `(y, m, d)` formatted with two-digit month and day and a four-digit year.
pub open spec fn format_spec(f: DateFormat, y: int, m: nat, d: nat) -> Seq<char> {
    let s = seq![f.separator];
    let ys = padded_signed(y, 4);
    let mm = padded(m, 2);
    let dd = padded(d, 2);
    match f.order {
        DateOrder::Mdy => mm + s + dd + s + ys,
        DateOrder::Dmy => dd + s + mm + s + ys,
        DateOrder::Ymd => ys + s + mm + s + dd,
    }
}

/// The placeholder pattern, e.g. `MM/DD/YYYY`.
pub open spec fn hint_spec(f: DateFormat) -> Seq<char> {
    let s = seq![f.separator];
    match f.order {
        DateOrder::Mdy => seq!['M', 'M'] + s + seq!['D', 'D'] + s + seq!['Y', 'Y', 'Y', 'Y'],
        DateOrder::Dmy => seq!['D', 'D'] + s + seq!['M', 'M'] + s + seq!['Y', 'Y', 'Y', 'Y'],
        DateOrder::Ymd => seq!['Y', 'Y', 'Y', 'Y'] + s + seq!['M', 'M'] + s + seq!['D', 'D'],
    }
}

impl DateFormat {
    /// `MM/DD/YYYY`.
    pub fn mdy() -> (f: DateFormat)
        ensures
            f == (DateFormat { order: DateOrder::Mdy, separator: '/' }),
    {
        DateFormat { order: DateOrder::Mdy, separator: '/' }
    }

    /// `DD/MM/YYYY`.
    pub fn dmy() -> (f: DateFormat)
        ensures
            f == (DateFormat { order: DateOrder::Dmy, separator: '/' }),
    {
        DateFormat { order: DateOrder::Dmy, separator: '/' }
    }

    /// `YYYY-MM-DD`.
    pub fn ymd() -> (f: DateFormat)
        ensures
            f == (DateFormat { order: DateOrder::Ymd, separator: '-' }),
    {
        DateFormat { order: DateOrder::Ymd, separator: '-' }
    }

    /// Change the separator character (e.g. `.separator('-')`).
    pub fn separator(self, sep: char) -> (f: DateFormat)
        ensures
            f == (DateFormat { order: self.order, separator: sep }),
    {
        DateFormat { order: self.order, separator: sep }
    }

    /// Field widths in display order (the 4-digit year varies position).
    pub fn widths(&self) -> (w: [usize; 3])
        ensures
            (w[0] as nat, w[1] as nat, w[2] as nat) == widths_spec(self.order),
    {
        match self.order {
            DateOrder::Ymd => [4, 2, 2],
            _ => [2, 2, 4],
        }
    }

    /// The mask over characters (see [`DateFormat::mask`]).
    pub fn mask_chars(&self, s: &[char]) -> (r: Vec<char>)
        ensures
            r@ == mask_spec(*self, s@),
    {
        let w = self.widths();
        let p1 = w[0];
        let p2 = w[0] + w[1];
        let all = digits_only(s);
        let d = if all.len() <= 8 {
            all
        } else {
            slice_range(&all, 0, 8)
        };
        proof {
            assert(at_most(digits_of(s@), 8) == d@);
        }
        if d.len() <= p1 {
            return d;
        }
        let mut out = slice_range(&d, 0, p1);
        out.push(self.separator);
        if d.len() <= p2 {
            let tail = slice_range(&d, p1, d.len());
            append_chars(&mut out, &tail);
            proof {
                assert(out@ =~= d@.take(p1 as int) + seq![self.separator] + d@.skip(p1 as int));
            }
        } else {
            let mid = slice_range(&d, p1, p2);
            append_chars(&mut out, &mid);
            out.push(self.separator);
            let tail = slice_range(&d, p2, d.len());
            append_chars(&mut out, &tail);
            proof {
                assert(out@ =~= d@.take(p1 as int) + seq![self.separator] + d@.subrange(
                    p1 as int,
                    p2 as int,
                ) + seq![self.separator] + d@.skip(p2 as int));
            }
        }
        out
    }

    /// Reformat raw input to the masked pattern, inserting separators.
    pub fn mask(&self, s: &str) -> (r: String)
        ensures
            r@ == mask_spec(*self, s@),
    {
        let cs = chars_of(s);
        let m = self.mask_chars(&cs);
        string_of(&m)
    }

    /// Parse over characters (see [`DateFormat::parse`]).
    pub fn parse_chars(&self, s: &[char]) -> (r: Option<(i32, u32, u32)>)
        ensures
            r == parse_spec(*self, s@),
    {
        let parts = split_chars(s, self.separator);
        if parts.len() != 3 {
            return None;
        }
        proof {
            assert(views(parts@)[0] == parts@[0]@);
            assert(views(parts@)[1] == parts@[1]@);
            assert(views(parts@)[2] == parts@[2]@);
        }
        let (ys, ms, ds) = match self.order {
            DateOrder::Mdy => (&parts[2], &parts[0], &parts[1]),
            DateOrder::Dmy => (&parts[2], &parts[1], &parts[0]),
            DateOrder::Ymd => (&parts[0], &parts[1], &parts[2]),
        };
        let m = match parse_unsigned(ms, 0xffff_ffff) {
            Some(v) => v,
            None => return None,
        };
        let d = match parse_unsigned(ds, 0xffff_ffff) {
            Some(v) => v,
            None => return None,
        };
        let y = match parse_signed(ys, 0x8000_0000, 0x7fff_ffff) {
            Some(v) => v,
            None => return None,
        };
        if 1 <= m && m <= 12 && 1 <= d && d <= 31 && ys.len() == 4 {
            Some((y as i32, m as u32, d as u32))
        } else {
            None
        }
    }

    /// Parse a complete formatted date into `(year, month, day)`.
    pub fn parse(&self, s: &str) -> (r: Option<(i32, u32, u32)>)
        ensures
            r == parse_spec(*self, s@),
    {
        let cs = chars_of(s);
        self.parse_chars(&cs)
    }

    /// Format over characters (see [`DateFormat::format`]).
    pub fn format_chars(&self, y: i32, m: u32, d: u32) -> (r: Vec<char>)
        ensures
            r@ == format_spec(*self, y as int, m as nat, d as nat),
    {
        let ys = zero_padded_signed(y as i64, 4);
        let ms = zero_padded(m as u64, 2);
        let ds = zero_padded(d as u64, 2);
        let (a, b, c) = match self.order {
            DateOrder::Mdy => (ms, ds, ys),
            DateOrder::Dmy => (ds, ms, ys),
            DateOrder::Ymd => (ys, ms, ds),
        };
        let mut out: Vec<char> = Vec::new();
        append_chars(&mut out, &a);
        out.push(self.separator);
        append_chars(&mut out, &b);
        out.push(self.separator);
        append_chars(&mut out, &c);
        proof {
            assert(out@ =~= a@ + seq![self.separator] + b@ + seq![self.separator] + c@);
        }
        out
    }

    /// Format `(year, month, day)` into a string.
    pub fn format(&self, y: i32, m: u32, d: u32) -> (r: String)
        ensures
            r@ == format_spec(*self, y as int, m as nat, d as nat),
    {
        let v = self.format_chars(y, m, d);
        string_of(&v)
    }

    /// The placeholder pattern (e.g. `MM/DD/YYYY`).
    pub fn hint(&self) -> (r: String)
        ensures
            r@ == hint_spec(*self),
    {
        let mut out: Vec<char> = Vec::new();
        let s = self.separator;
        match self.order {
            DateOrder::Mdy => {
                out.push('M');
                out.push('M');
                out.push(s);
                out.push('D');
                out.push('D');
                out.push(s);
                out.push('Y');
                out.push('Y');
                out.push('Y');
                out.push('Y');
            },
            DateOrder::Dmy => {
                out.push('D');
                out.push('D');
                out.push(s);
                out.push('M');
                out.push('M');
                out.push(s);
                out.push('Y');
                out.push('Y');
                out.push('Y');
                out.push('Y');
            },
            DateOrder::Ymd => {
                out.push('Y');
                out.push('Y');
                out.push('Y');
                out.push('Y');
                out.push(s);
                out.push('M');
                out.push('M');
                out.push(s);
                out.push('D');
                out.push('D');
            },
        }
        proof {
            assert(out@ =~= hint_spec(*self));
        }
        string_of(&out)
    }

    /// Whether the date input accepts `c`: a digit or the separator.
    pub fn allows(&self, c: char) -> (r: bool)
        ensures
            r == (is_digit(c) || c == self.separator),
    {
        is_ascii_digit(c) || c == self.separator
    }
}

// ---------------------------------------------------------------------------
// Laws
// ---------------------------------------------------------------------------

/// Splitting a piece free of `c` leaves it whole.
proof fn lemma_split_last(a: Seq<char>, c: char, cur: Seq<char>)
    requires
        forall|i: int| 0 <= i < a.len() ==> a[i] != c,
    ensures
        split_from(a, c, cur) == seq![cur + a],
    decreases a.len(),
{
    if a.len() == 0 {
        assert(cur + a =~= cur);
    } else {
        lemma_split_last(a.drop_first(), c, cur.push(a[0]));
        assert(cur.push(a[0]) + a.drop_first() =~= cur + a);
    }
}

/// Splitting `a + [c] + rest` (with `a` free of `c`) yields the piece `cur + a` first.
proof fn lemma_split_piece(a: Seq<char>, c: char, cur: Seq<char>, rest: Seq<char>)
    requires
        forall|i: int| 0 <= i < a.len() ==> a[i] != c,
    ensures
        split_from(a + seq![c] + rest, c, cur) == seq![cur + a] + split_from(
            rest,
            c,
            Seq::empty(),
        ),
    decreases a.len(),
{
    let s = a + seq![c] + rest;
    if a.len() == 0 {
        assert(s[0] == c);
        assert(s.drop_first() =~= rest);
        assert(cur + a =~= cur);
    } else {
        assert(s[0] == a[0]);
        assert(s.drop_first() =~= a.drop_first() + seq![c] + rest);
        lemma_split_piece(a.drop_first(), c, cur.push(a[0]), rest);
        assert(cur.push(a[0]) + a.drop_first() =~= cur + a);
    }
}

/// Three separator-free pieces joined by the separator split back into those pieces.
proof fn lemma_split_three(a: Seq<char>, b: Seq<char>, x: Seq<char>, c: char)
    requires
        forall|i: int| 0 <= i < a.len() ==> a[i] != c,
        forall|i: int| 0 <= i < b.len() ==> b[i] != c,
        forall|i: int| 0 <= i < x.len() ==> x[i] != c,
    ensures
        split(a + seq![c] + b + seq![c] + x, c) == seq![a, b, x],
{
    let e = Seq::<char>::empty();
    lemma_split_piece(a, c, e, b + seq![c] + x);
    assert(a + seq![c] + b + seq![c] + x =~= a + seq![c] + (b + seq![c] + x));
    lemma_split_piece(b, c, e, x);
    lemma_split_last(x, c, e);
    assert(e + a =~= a);
    assert(e + b =~= b);
    assert(e + x =~= x);
    assert(seq![a] + (seq![b] + seq![x]) =~= seq![a, b, x]);
}

/// A zero-padded field parses back as its value.
proof fn lemma_field_parses(n: nat, width: nat, max: nat)
    requires
        n <= max,
    ensures
        parse_unsigned_spec(padded(n, width), max) == Some(n),
        forall|i: int| 0 <= i < padded(n, width).len() ==> is_digit(#[trigger] padded(n, width)[i]),
{
    lemma_padded_value(n, width);
    let p = padded(n, width);
    assert(is_digit(p[0]));
    assert(unsigned_body(p) == p);
}

/// Formatting a date and parsing it back gives the same date, for years `0..=9999`,
/// months `1..=12` and days `1..=31`, whenever the separator is not a digit.
pub proof fn parse_inverts_format(f: DateFormat, y: i32, m: u32, d: u32)
    requires
        !is_digit(f.separator),
        0 <= y <= 9999,
        1 <= m <= 12,
        1 <= d <= 31,
    ensures
        parse_spec(f, format_spec(f, y as int, m as nat, d as nat)) == Some((y, m, d)),
{
    let sep = f.separator;
    let ys = padded_signed(y as int, 4);
    let mm = padded(m as nat, 2);
    let dd = padded(d as nat, 2);
    lemma_field_parses(y as nat, 4, i32::MAX as nat);
    lemma_field_parses(m as nat, 2, u32::MAX as nat);
    lemma_field_parses(d as nat, 2, u32::MAX as nat);
    assert(ys == padded(y as nat, 4));
    lemma_decimal_len(y as nat);
    assert(ys.len() == 4);
    assert(is_digit(ys[0]));
    assert(parse_signed_spec(ys, 0x8000_0000, i32::MAX as nat) == Some(y as int));
    match f.order {
        DateOrder::Mdy => lemma_split_three(mm, dd, ys, sep),
        DateOrder::Dmy => lemma_split_three(dd, mm, ys, sep),
        DateOrder::Ymd => lemma_split_three(ys, mm, dd, sep),
    }
}

/// Digits survive the separators the mask inserts.
proof fn lemma_digits_of_insert_seps(d: Seq<char>, p1: int, p2: int, sep: char)
    requires
        0 <= p1 <= p2,
        !is_digit(sep),
        forall|i: int| 0 <= i < d.len() ==> is_digit(#[trigger] d[i]),
    ensures
        digits_of(insert_seps(d, p1, p2, sep)) == d,
{
    let p = |c: char| is_digit(c);
    let s1 = seq![sep];
    assert(s1.filter(p) =~= Seq::<char>::empty()) by {
        reveal(Seq::filter);
        assert(s1.drop_last() =~= Seq::<char>::empty());
    }
    lemma_all_digits_filter(d);
    if d.len() <= p1 {
    } else if d.len() <= p2 {
        lemma_all_digits_filter(d.take(p1));
        lemma_all_digits_filter(d.skip(p1));
        Seq::filter_distributes_over_add(d.take(p1), s1, p);
        Seq::filter_distributes_over_add(d.take(p1) + s1, d.skip(p1), p);
        assert(d.take(p1) + d.skip(p1) =~= d);
        assert(d.take(p1) + Seq::<char>::empty() =~= d.take(p1));
    } else {
        let a = d.take(p1);
        let b = d.subrange(p1, p2);
        let x = d.skip(p2);
        lemma_all_digits_filter(a);
        lemma_all_digits_filter(b);
        lemma_all_digits_filter(x);
        Seq::filter_distributes_over_add(a, s1, p);
        Seq::filter_distributes_over_add(a + s1, b, p);
        Seq::filter_distributes_over_add(a + s1 + b, s1, p);
        Seq::filter_distributes_over_add(a + s1 + b + s1, x, p);
        assert(a + Seq::<char>::empty() =~= a);
        assert(a + b + Seq::<char>::empty() =~= a + b);
        assert(a + b + x =~= d);
    }
}

/// A run of digits keeps all of its characters under the digit filter.
pub proof fn lemma_all_digits_filter(d: Seq<char>)
    requires
        forall|i: int| 0 <= i < d.len() ==> is_digit(#[trigger] d[i]),
    ensures
        digits_of(d) == d,
    decreases d.len(),
{
    reveal(Seq::filter);
    if d.len() > 0 {
        lemma_all_digits_filter(d.drop_last());
    }
}

/// The characters kept by the digit filter are digits.
pub proof fn lemma_digits_of_are_digits(s: Seq<char>)
    ensures
        forall|i: int| 0 <= i < digits_of(s).len() ==> is_digit(#[trigger] digits_of(s)[i]),
{
    let p = |c: char| is_digit(c);
    assert forall|i: int| 0 <= i < digits_of(s).len() implies is_digit(
        #[trigger] digits_of(s)[i],
    ) by {
        s.lemma_filter_pred(p, i);
    }
}

/// The date mask is idempotent: re-masking masked input changes nothing (when the
/// separator is not a digit).
pub proof fn date_mask_is_idempotent(f: DateFormat, s: Seq<char>)
    requires
        !is_digit(f.separator),
    ensures
        mask_spec(f, mask_spec(f, s)) == mask_spec(f, s),
{
    let (w0, w1, w2) = widths_spec(f.order);
    let d = at_most(digits_of(s), 8);
    lemma_digits_of_are_digits(s);
    assert forall|i: int| 0 <= i < d.len() implies is_digit(#[trigger] d[i]) by {
        assert(d[i] == digits_of(s)[i]);
    }
    lemma_digits_of_insert_seps(d, w0 as int, (w0 + w1) as int, f.separator);
    assert(at_most(d, 8) == d);
}

} // verus!
