//! The calendar's Gregorian date math (leap years, month lengths, weekdays, days
//! since the Unix epoch), the month grid, and the [`Calendar`] picker's settings.
use vstd::prelude::*;
use crate::menu::ActionId;

verus! {

broadcast use vstd::seq_lib::group_seq_properties;

/// Whether `y` is a Gregorian leap year.
pub open spec fn leap(y: int) -> bool {
    (y % 4 == 0 && y % 100 != 0) || y % 400 == 0
}

/// The number of days in month `m` of year `y` (any `m` other than the 30-day months
/// and February counts 31).
pub open spec fn month_len(y: int, m: int) -> int {
    if m == 2 {
        if leap(y) {
            29
        } else {
            28
        }
    } else if m == 4 || m == 6 || m == 9 || m == 11 {
        30
    } else {
        31
    }
}

/// Whether `y` is a leap year.
pub fn is_leap(y: i32) -> (r: bool)
    ensures
        r == leap(y as int),
{
    // `%` on a negative year leaves a negative remainder; divisibility is what counts.
    let a: u32 = if y < 0 {
        (-(y as i64)) as u32
    } else {
        y as u32
    };
    proof {
        assert((y as int) % 4 == 0 <==> (a as int) % 4 == 0) by {
            if y < 0 {
                lemma_neg_divisible(y as int, 4);
            }
        }
        assert((y as int) % 100 == 0 <==> (a as int) % 100 == 0) by {
            if y < 0 {
                lemma_neg_divisible(y as int, 100);
            }
        }
        assert((y as int) % 400 == 0 <==> (a as int) % 400 == 0) by {
            if y < 0 {
                lemma_neg_divisible(y as int, 400);
            }
        }
    }
    (a % 4 == 0 && a % 100 != 0) || a % 400 == 0
}

proof fn lemma_neg_divisible(y: int, k: int)
    requires
        k > 0,
    ensures
        y % k == 0 <==> (-y) % k == 0,
{
    vstd::arithmetic::div_mod::lemma_fundamental_div_mod(y, k);
    vstd::arithmetic::div_mod::lemma_fundamental_div_mod(-y, k);
    if y % k == 0 {
        let q = y / k;
        assert(y == k * q);
        assert(-y == k * (-q)) by (nonlinear_arith)
            requires
                y == k * q,
        ;
        vstd::arithmetic::div_mod::lemma_mod_multiples_basic(-q, k);
        assert((-q) * k == k * (-q)) by (nonlinear_arith);
    }
    if (-y) % k == 0 {
        let q = (-y) / k;
        assert(-y == k * q);
        assert(y == k * (-q)) by (nonlinear_arith)
            requires
                -y == k * q,
        ;
        vstd::arithmetic::div_mod::lemma_mod_multiples_basic(-q, k);
        assert((-q) * k == k * (-q)) by (nonlinear_arith);
    }
}

/// The number of days in month `m` of year `y`.
pub fn days_in_month(y: i32, m: u32) -> (r: u32)
    ensures
        r == month_len(y as int, m as int),
{
    match m {
        2 => if is_leap(y) {
            29
        } else {
            28
        },
        4 | 6 | 9 | 11 => 30,
        _ => 31,
    }
}

/// Sakamoto's month offsets.
pub open spec fn month_offset(m: int) -> int {
    if m == 1 {
        0
    } else if m == 2 {
        3
    } else if m == 3 {
        2
    } else if m == 4 {
        5
    } else if m == 5 {
        0
    } else if m == 6 {
        3
    } else if m == 7 {
        5
    } else if m == 8 {
        1
    } else if m == 9 {
        4
    } else if m == 10 {
        6
    } else if m == 11 {
        2
    } else {
        4
    }
}

/// `a / b` rounded toward zero (Rust's integer division), for `b > 0`.
pub open spec fn tdiv(a: int, b: int) -> int {
    if a >= 0 {
        a / b
    } else {
        -((-a) / b)
    }
}

/// The day of week of `(y, m, d)`, `0 = Sunday`..`6 = Saturday` (Sakamoto's method).
pub open spec fn weekday(y: int, m: int, d: int) -> int {
    let yy = if m < 3 {
        y - 1
    } else {
        y
    };
    (yy + tdiv(yy, 4) - tdiv(yy, 100) + tdiv(yy, 400) + month_offset(m) + d) % 7
}

fn tdiv_i64(a: i64, b: i64) -> (r: i64)
    requires
        b > 0,
        a > i64::MIN,
    ensures
        r == tdiv(a as int, b as int),
{
    if a >= 0 {
        a / b
    } else {
        -((-a) / b)
    }
}

/// Day of week for `(y, m, d)`, `0 = Sunday`..`6 = Saturday` (Sakamoto). `m` is a
/// month `1..=12`.
pub fn day_of_week(y: i32, m: u32, d: u32) -> (r: u32)
    requires
        1 <= m <= 12,
        d <= i32::MAX,
        i32::MIN + 1 <= y,
        y as int + tdiv(y as int, 4) + 6 + d <= i32::MAX,
        y as int - 1 + tdiv(y as int - 1, 4) - tdiv(y as int - 1, 100) >= i32::MIN,
    ensures
        r == weekday(y as int, m as int, d as int),
        r < 7,
{
    let t: [i64; 12] = [0, 3, 2, 5, 0, 3, 5, 1, 4, 6, 2, 4];
    let yy: i64 = if m < 3 {
        y as i64 - 1
    } else {
        y as i64
    };
    let off = t[(m - 1) as usize];
    assert(off == month_offset(m as int));
    let sum = yy + tdiv_i64(yy, 4) - tdiv_i64(yy, 100) + tdiv_i64(yy, 400) + off + d as i64;
    // Rust's `%` keeps the sign of the dividend; adding 7 and reducing again lands
    // in `0..7`.
    let rem: i64 = if sum >= 0 {
        sum % 7
    } else {
        -((-sum) % 7)
    };
    let w = ((rem + 7) % 7) as u32;
    proof {
        if sum < 0 {
            let q = (-sum) / 7;
            let r0 = (-sum) % 7;
            assert(-sum == q * 7 + r0);
            assert(sum == (-q) * 7 - r0);
            assert(sum == (-q - 1) * 7 + (7 - r0));
            if r0 == 0 {
                vstd::arithmetic::div_mod::lemma_mod_multiples_basic(-q, 7);
            } else {
                vstd::arithmetic::div_mod::lemma_fundamental_div_mod_converse(
                    sum as int,
                    7,
                    -q - 1,
                    7 - r0,
                );
            }
        }
    }
    w
}

/// The date `z` days after 1970-01-01 by Howard Hinnant's `civil_from_days`:
/// `(year of the March-based year, month, day)`; a January or February date belongs
/// to the following calendar year.
pub open spec fn civil_spec(z: int) -> (int, int, int) {
    let zz = z + 719468;
    let era = zz / 146097;
    let doe = zz % 146097;
    let yoe = (doe - doe / 1460 + doe / 36524 - doe / 146096) / 365;
    let y = yoe + era * 400;
    let doy = doe - (365 * yoe + yoe / 4 - yoe / 100);
    let mp = (5 * doy + 2) / 153;
    let d = doy - (153 * mp + 2) / 5 + 1;
    let m = if mp < 10 {
        mp + 3
    } else {
        mp - 9
    };
    (y, m, d)
}

/// The calendar year of the date `z` days after 1970-01-01.
pub open spec fn civil_year(z: int) -> int {
    civil_spec(z).0 + if civil_spec(z).1 <= 2 {
        1int
    } else {
        0
    }
}

/// The year as `i32` the computation produces: the March-based year cut to 32 bits,
/// plus one for January and February.
pub open spec fn civil_year_i32(z: int) -> int {
    (civil_spec(z).0 as i32) + if civil_spec(z).1 <= 2 {
        1int
    } else {
        0
    }
}

/// The March-based date `z` days after 1970-01-01: the year cut to 32 bits, the
/// month and the day.
fn civil_parts(z: i64) -> (r: (i32, u32, u32))
    requires
        z <= i64::MAX - 719_468,
    ensures
        r.0 == civil_spec(z as int).0 as i32,
        r.1 == civil_spec(z as int).1,
        r.2 == civil_spec(z as int).2,
        1 <= r.1 <= 12,
        1 <= r.2 <= 31,
{
    let z = z + 719_468;
    let era = if z >= 0 {
        z
    } else {
        z - 146_096
    } / 146_097;
    let doe = z - era * 146_097;
    proof {
        if z < 0 {
            // Rounding toward zero after the shift is flooring for negative `z`.
            let q = (-(z - 146_096)) / 146_097;
            let r0 = (-(z - 146_096)) % 146_097;
            assert(era == -q);
            assert(-(z - 146_096) == q * 146_097 + r0);
            assert(z == (-q) * 146_097 + (146_096 - r0));
            vstd::arithmetic::div_mod::lemma_fundamental_div_mod_converse(
                z as int,
                146_097,
                -q,
                146_096 - r0,
            );
        }
        assert(0 <= doe < 146_097);
    }
    let yoe = (doe - doe / 1460 + doe / 36_524 - doe / 146_096) / 365;
    proof {
        assert(0 <= yoe <= 400) by (nonlinear_arith)
            requires
                0 <= doe < 146_097,
                yoe == (doe - doe / 1460 + doe / 36_524 - doe / 146_096) / 365,
        ;
    }
    let y = yoe + era * 400;
    let doy = doe - (365 * yoe + yoe / 4 - yoe / 100);
    proof {
        lemma_day_of_year_range(doe as int, yoe as int, doy as int);
    }
    let mp = (5 * doy + 2) / 153;
    let d = (doy - (153 * mp + 2) / 5 + 1) as u32;
    proof {
        lemma_month_part(doy as int, mp as int);
    }
    let m = (if mp < 10 {
        mp + 3
    } else {
        mp - 9
    }) as u32;
    #[verifier::truncate]
    let yt = y as i32;
    (yt, m, d)
}

/// The date `z` days after 1970-01-01, `(year, month, day)`. Years beyond `i32` wrap
/// as the `as i32` conversion does.
pub fn civil_from_days(z: i64) -> (r: (i32, u32, u32))
    requires
        z <= i64::MAX - 719_468,
        civil_year_i32(z as int) <= i32::MAX,
    ensures
        r.0 == civil_year_i32(z as int),
        r.1 == civil_spec(z as int).1,
        r.2 == civil_spec(z as int).2,
        i32::MIN <= civil_spec(z as int).0 <= i32::MAX ==> r.0 == civil_year(z as int)
            && (r.0 as int, r.1 as int, r.2 as int) == civil_date(z as int),
        1 <= r.1 <= 12,
        1 <= r.2 <= 31,
{
    proof {
        reveal(civil_date);
    }
    let (yt, m, d) = civil_parts(z);
    (yt + if m <= 2 {
        1
    } else {
        0
    }, m, d)
}

/// The day of the year (from March 1st) lies in `0..=365`.
proof fn lemma_day_of_year_range(doe: int, yoe: int, doy: int)
    requires
        0 <= doe < 146_097,
        yoe == (doe - doe / 1460 + doe / 36_524 - doe / 146_096) / 365,
        doy == doe - (365 * yoe + yoe / 4 - yoe / 100),
    ensures
        0 <= doy <= 365,
{
    let t = doe - doe / 1460 + doe / 36_524 - doe / 146_096;
    assert(doe / 1460 <= doe / 1460) by {};
    // t counts the days of the era minus the leap days before `doe`; yoe = t / 365.
    assert(0 <= t) by (nonlinear_arith)
        requires
            0 <= doe < 146_097,
            t == doe - doe / 1460 + doe / 36_524 - doe / 146_096,
    ;
    assert(365 * yoe <= t < 365 * yoe + 365) by (nonlinear_arith)
        requires
            0 <= t,
            yoe == t / 365,
    ;
    // doy = doe - 365*yoe - (leap days in the first yoe years); the leap days before
    // doe are exactly doe/1460 - doe/36524 + doe/146096, and yoe/4 - yoe/100 counts
    // those of complete years, which differ from them by at most one (the current
    // year's own February 29th).
    assert(0 <= doy <= 365) by (nonlinear_arith)
        requires
            0 <= doe < 146_097,
            t == doe - doe / 1460 + doe / 36_524 - doe / 146_096,
            365 * yoe <= t < 365 * yoe + 365,
            doy == doe - (365 * yoe + yoe / 4 - yoe / 100),
    ;
}

/// The March-based month index of a day of the year lies in `0..12`, and the day of
/// month in `1..=31`.
proof fn lemma_month_part(doy: int, mp: int)
    requires
        0 <= doy <= 365,
        mp == (5 * doy + 2) / 153,
    ensures
        0 <= mp <= 11,
        1 <= doy - (153 * mp + 2) / 5 + 1 <= 31,
{
    assert(0 <= mp <= 11) by (nonlinear_arith)
        requires
            0 <= doy <= 365,
            mp == (5 * doy + 2) / 153,
    ;
    assert(1 <= doy - (153 * mp + 2) / 5 + 1 <= 31) by (nonlinear_arith)
        requires
            0 <= doy <= 365,
            mp == (5 * doy + 2) / 153,
            0 <= mp <= 11,
    ;
}

/// The whole days since the epoch of a clock reading in seconds, as the clock's
/// `u64` is read into an `i64` (wrapping) and divided rounding toward zero.
pub open spec fn epoch_days(unix_secs: u64) -> int {
    tdiv((unix_secs as i64) as int, 86_400)
}

/// The whole days since the epoch of a clock reading (see [`epoch_days`]).
fn clock_days(unix_secs: u64) -> (r: i64)
    ensures
        r == epoch_days(unix_secs),
{
    #[verifier::truncate]
    let secs = unix_secs as i64;
    if secs >= 0 {
        secs / 86_400
    } else {
        -((-(secs as i128)) / 86_400) as i64
    }
}

/// Today's `(year, month, day)` for a system clock reading of `unix_secs` seconds
/// since the Unix epoch.
pub fn today(unix_secs: u64) -> (r: (i32, u32, u32))
    requires
        civil_year_i32(epoch_days(unix_secs)) <= i32::MAX,
    ensures
        r.0 == civil_year_i32(epoch_days(unix_secs)),
        r.1 == civil_spec(epoch_days(unix_secs)).1,
        r.2 == civil_spec(epoch_days(unix_secs)).2,
        i32::MIN <= civil_spec(epoch_days(unix_secs)).0 <= i32::MAX ==> (r.0 as int, r.1 as int, r.2 as int)
            == civil_date(epoch_days(unix_secs)),
{
    civil_from_days(clock_days(unix_secs))
}

/// [`today`] for any clock reading: `None` exactly for the readings whose year would
/// pass `i32::MAX` (a January or February of the last `i32` year).
pub fn try_today(unix_secs: u64) -> (r: Option<(i32, u32, u32)>)
    ensures
        r is None <==> civil_year_i32(epoch_days(unix_secs)) > i32::MAX,
        r matches Some(t) ==> t.0 == civil_year_i32(epoch_days(unix_secs)) && t.1 == civil_spec(
            epoch_days(unix_secs),
        ).1 && t.2 == civil_spec(epoch_days(unix_secs)).2,
{
    let days = clock_days(unix_secs);
    let (yt, m, _) = civil_parts(days);
    if m <= 2 && yt == i32::MAX {
        None
    } else {
        Some(today(unix_secs))
    }
}

/// `m` clamped into `1..=12`.
pub open spec fn clamp_month(m: int) -> int {
    if m < 1 {
        1
    } else if m > 12 {
        12
    } else {
        m
    }
}

/// The English month names.
pub open spec fn month_names() -> Seq<Seq<char>> {
    seq![
        "January"@, "February"@, "March"@, "April"@, "May"@, "June"@, "July"@, "August"@,
        "September"@, "October"@, "November"@, "December"@,
    ]
}

/// The three-letter month abbreviations.
pub open spec fn month_abbrs() -> Seq<Seq<char>> {
    seq![
        "Jan"@, "Feb"@, "Mar"@, "Apr"@, "May"@, "Jun"@, "Jul"@, "Aug"@, "Sep"@, "Oct"@, "Nov"@,
        "Dec"@,
    ]
}

/// The month's name (`m` clamped into `1..=12`).
pub fn month_name(m: u32) -> (r: &'static str)
    ensures
        r@ == month_names()[clamp_month(m as int) - 1],
{
    match m {
        0 | 1 => "January",
        2 => "February",
        3 => "March",
        4 => "April",
        5 => "May",
        6 => "June",
        7 => "July",
        8 => "August",
        9 => "September",
        10 => "October",
        11 => "November",
        _ => "December",
    }
}

/// The month's three-letter abbreviation (`m` clamped into `1..=12`).
pub fn month_abbr(m: u32) -> (r: &'static str)
    ensures
        r@ == month_abbrs()[clamp_month(m as int) - 1],
{
    match m {
        0 | 1 => "Jan",
        2 => "Feb",
        3 => "Mar",
        4 => "Apr",
        5 => "May",
        6 => "Jun",
        7 => "Jul",
        8 => "Aug",
        9 => "Sep",
        10 => "Oct",
        11 => "Nov",
        _ => "Dec",
    }
}

// ---------------------------------------------------------------------------
// The picker
// ---------------------------------------------------------------------------

/// How the calendar's month/year caption is presented.
#[derive(Clone, Copy, Debug, PartialEq, Eq, Structural)]
pub enum CaptionLayout {
    /// Month + year as a static label, flanked by prev/next arrows (the default).
    Label,
    /// Month **and** year as clickable dropdowns that open pickers.
    Dropdown,
    /// Month as a dropdown; year stays a label.
    DropdownMonths,
    /// Year as a dropdown; month stays a label.
    DropdownYears,
}

impl Default for CaptionLayout {
    fn default() -> (r: CaptionLayout)
        ensures
            r == CaptionLayout::Label,
    {
        CaptionLayout::Label
    }
}

/// Which panel the calendar is showing.
#[derive(Clone, Copy, Debug, PartialEq, Eq, Structural)]
pub enum CalendarPanel {
    Days,
    Months,
    Years,
}

/// A month-grid date picker's settings. A day tap calls `on_pick` with the picked
/// date; `S` is the popover's box style.
#[derive(Clone, Debug)]
pub struct Calendar<S> {
    pub on_pick: ActionId,
    pub caption: CaptionLayout,
    pub selected: Option<(i32, u32, u32)>,
    pub start: Option<(i32, u32)>,
    pub style: Option<S>,
}

/// Create a [`Calendar`] reporting picks to `on_pick`.
pub fn calendar<S>(on_pick: ActionId) -> (r: Calendar<S>)
    ensures
        r == (Calendar::<S> { on_pick, caption: CaptionLayout::Label, selected: None, start: None, style: None }),
{
    Calendar { on_pick, caption: CaptionLayout::Label, selected: None, start: None, style: None }
}

impl<S> Calendar<S> {
    /// Choose how the month/year caption is presented.
    pub fn caption(self, layout: CaptionLayout) -> (r: Calendar<S>)
        ensures
            r == (Calendar { caption: layout, ..self }),
    {
        Calendar { caption: layout, ..self }
    }

    /// Highlight an already-selected date (and open on its month).
    pub fn selected(self, y: i32, m: u32, d: u32) -> (r: Calendar<S>)
        ensures
            r == (Calendar { selected: Some((y, m, d)), ..self }),
    {
        Calendar { selected: Some((y, m, d)), ..self }
    }

    /// Open on a specific month (defaults to the selected date's month, else today).
    pub fn month(self, y: i32, m: u32) -> (r: Calendar<S>)
        ensures
            r == (Calendar { start: Some((y, m)), ..self }),
    {
        Calendar { start: Some((y, m)), ..self }
    }

    /// Customize the popover's box.
    pub fn style(self, style: S) -> (r: Calendar<S>)
        ensures
            r == (Calendar { style: Some(style), ..self }),
    {
        Calendar { style: Some(style), ..self }
    }

    /// The month the picker opens on: the requested month, else the selected date's
    /// month, else today's.
    pub fn initial_month(&self, today: (i32, u32)) -> (r: (i32, u32))
        ensures
            r == (match self.start {
                Some(s) => s,
                None => match self.selected {
                    Some(sel) => (sel.0, sel.1),
                    None => today,
                },
            }),
    {
        match self.start {
            Some(s) => s,
            None => match self.selected {
                Some((y, m, _)) => (y, m),
                None => today,
            },
        }
    }
}

/// The month before `(y, m)`.
pub open spec fn month_before(y: int, m: int) -> (int, int) {
    if m == 1 { (y - 1, 12) } else { (y, m - 1) }
}

/// The month after `(y, m)`.
pub open spec fn month_after(y: int, m: int) -> (int, int) {
    if m == 12 { (y + 1, 1) } else { (y, m + 1) }
}

/// The month before `(y, m)`.
pub fn prev_month(y: i32, m: u32) -> (r: (i32, u32))
    requires
        m == 1 ==> y > i32::MIN,
        m >= 1,
    ensures
        (r.0 as int, r.1 as int) == month_before(y as int, m as int),
{
    if m == 1 {
        (y - 1, 12)
    } else {
        (y, m - 1)
    }
}

/// The month after `(y, m)`.
pub fn next_month(y: i32, m: u32) -> (r: (i32, u32))
    requires
        m == 12 ==> y < i32::MAX,
        m < u32::MAX,
    ensures
        (r.0 as int, r.1 as int) == month_after(y as int, m as int),
{
    if m == 12 {
        (y + 1, 1)
    } else {
        (y, m + 1)
    }
}

/// Stepping a month forward and back (or back and forward) returns to where it
/// started.
pub proof fn month_steps_undo_each_other(y: int, m: int)
    requires
        1 <= m <= 12,
    ensures
        month_before(month_after(y, m).0, month_after(y, m).1) == (y, m),
        month_after(month_before(y, m).0, month_before(y, m).1) == (y, m),
{
}

/// The first year of the twelve-year block holding `y` (blocks start at multiples of
/// twelve).
pub fn year_block(y: i32) -> (r: i32)
    requires
        y - (y as int) % 12 >= i32::MIN,
    ensures
        r == y - (y as int) % 12,
        r as int % 12 == 0,
        r <= y < r + 12,
{
    let m = y % 12;
    let rem = if m < 0 {
        m + 12
    } else {
        m
    };
    proof {
        let q = (y as int) / 12;
        vstd::arithmetic::div_mod::lemma_fundamental_div_mod(y as int, 12);
        if y < 0 {
            let a = (-(y as int)) / 12;
            let b = (-(y as int)) % 12;
            vstd::arithmetic::div_mod::lemma_fundamental_div_mod(-(y as int), 12);
            if b == 0 {
                assert(y as int == 12 * (-a));
                vstd::arithmetic::div_mod::lemma_mod_multiples_basic(-a, 12);
                assert((-a) * 12 == 12 * (-a)) by (nonlinear_arith);
            } else {
                assert(y as int == 12 * (-a - 1) + (12 - b)) by (nonlinear_arith)
                    requires
                        -(y as int) == 12 * a + b,
                ;
                vstd::arithmetic::div_mod::lemma_fundamental_div_mod_converse(
                    y as int,
                    12,
                    -a - 1,
                    12 - b,
                );
            }
        }
        assert(rem == (y as int) % 12);
        vstd::arithmetic::div_mod::lemma_mod_multiples_basic(q, 12);
        assert(q * 12 == 12 * q) by (nonlinear_arith);
    }
    y - rem
}

/// The month grid: `weekday(y, m, 1)` blanks, then the days `1..=month_len`, padded
/// with blanks to whole weeks.
pub open spec fn slot_spec(first: int, dim: int, i: int) -> Option<u32> {
    if i < first {
        None
    } else if i < first + dim {
        Some((i - first + 1) as u32)
    } else {
        None
    }
}

/// The day grid for month `m` of year `y`: leading blanks up to the month's first
/// weekday, the days, and trailing blanks to complete the last week. The year is
/// one for which [`day_of_week`] can compute the first's weekday.
pub fn month_slots(y: i32, m: u32) -> (r: Vec<Option<u32>>)
    requires
        1 <= m <= 12,
        i32::MIN + 1 <= y,
        y as int + tdiv(y as int, 4) + 7 <= i32::MAX,
        y as int - 1 + tdiv(y as int - 1, 4) - tdiv(y as int - 1, 100) >= i32::MIN,
    ensures
        r@.len() % 7 == 0,
        r@.len() >= weekday(y as int, m as int, 1) + month_len(y as int, m as int),
        r@.len() < weekday(y as int, m as int, 1) + month_len(y as int, m as int) + 7,
        forall|i: int|
            0 <= i < r@.len() ==> #[trigger] r@[i] == slot_spec(
                weekday(y as int, m as int, 1),
                month_len(y as int, m as int),
                i,
            ),
{
    let first = day_of_week(y, m, 1);
    let dim = days_in_month(y, m);
    let mut slots: Vec<Option<u32>> = Vec::new();
    let mut i: u32 = 0;
    while i < first
        invariant
            i <= first,
            first < 7,
            slots@.len() == i,
            forall|j: int| 0 <= j < i ==> #[trigger] slots@[j] == slot_spec(first as int, dim as int, j),
        decreases first - i,
    {
        slots.push(None);
        i = i + 1;
    }
    let mut d: u32 = 1;
    while d <= dim
        invariant
            first < 7,
            28 <= dim <= 31,
            1 <= d <= dim + 1,
            slots@.len() == first + d - 1,
            forall|j: int|
                0 <= j < slots@.len() ==> #[trigger] slots@[j] == slot_spec(first as int, dim as int, j),
        decreases dim + 1 - d,
    {
        slots.push(Some(d));
        d = d + 1;
    }
    let total: u32 = (first + dim + 6) / 7 * 7;
    proof {
        assert(total as int % 7 == 0 && first + dim <= total < first + dim + 7) by (nonlinear_arith)
            requires
                total == (first + dim + 6) / 7 * 7,
        ;
    }
    while slots.len() < total as usize
        invariant
            first < 7,
            28 <= dim <= 31,
            total as int % 7 == 0,
            first + dim <= total < first + dim + 7,
            first + dim <= slots@.len() <= total,
            forall|j: int|
                0 <= j < slots@.len() ==> #[trigger] slots@[j] == slot_spec(first as int, dim as int, j),
        decreases total - slots@.len(),
    {
        slots.push(None);
    }
    slots
}

/// How a day cell is drawn.
#[derive(Clone, Copy, Debug, PartialEq, Eq, Structural)]
pub enum DayLook {
    /// The selected date (filled with the primary colour, bold).
    Selected,
    /// Today's date, when it is not the selected one (the accent colour).
    Today,
    Plain,
}

/// The look of day `d` of month `(y, m)`: the selection wins over today.
pub fn day_look(y: i32, m: u32, d: u32, today: (i32, u32, u32), selected: Option<(i32, u32, u32)>) -> (r: DayLook)
    ensures
        r == (if selected == Some((y, m, d)) {
            DayLook::Selected
        } else if today == (y, m, d) {
            DayLook::Today
        } else {
            DayLook::Plain
        }),
{
    let is_selected = match selected {
        Some((sy, sm, sd)) => sy == y && sm == m && sd == d,
        None => false,
    };
    let (ty, tm, td) = today;
    if is_selected {
        DayLook::Selected
    } else if ty == y && tm == m && td == d {
        DayLook::Today
    } else {
        DayLook::Plain
    }
}

// ---------------------------------------------------------------------------
// Laws
// ---------------------------------------------------------------------------

proof fn lemma_tdiv_step(y: int, k: int)
    requires
        y >= 1,
        k > 0,
    ensures
        tdiv(y, k) - tdiv(y - 1, k) == (if y % k == 0 {
            1int
        } else {
            0
        }),
{
    vstd::arithmetic::div_mod::lemma_fundamental_div_mod(y, k);
    vstd::arithmetic::div_mod::lemma_fundamental_div_mod(y - 1, k);
    let q = y / k;
    let r = y % k;
    if r == 0 {
        assert(y - 1 == k * (q - 1) + (k - 1)) by (nonlinear_arith)
            requires
                y == k * q + r,
                r == 0,
        ;
        vstd::arithmetic::div_mod::lemma_fundamental_div_mod_converse(y - 1, k, q - 1, k - 1);
    } else {
        assert(y - 1 == q * k + (r - 1)) by (nonlinear_arith)
            requires
                y == k * q + r,
        ;
        vstd::arithmetic::div_mod::lemma_fundamental_div_mod_converse(y - 1, k, q, r - 1);
    }
}

/// Each month starts on the weekday after the previous month's last day: the first
/// of the next month falls `month_len` days after the first of this one, also
/// across the turn of the year (February of years before 1 excepted: there the
/// truncating leap-day count is off by one).
pub proof fn next_month_starts_after_this_one(y: int, m: int)
    requires
        y >= 1 || m != 2,
        1 <= m <= 12,
    ensures
        m < 12 ==> weekday(y, m + 1, 1) == (weekday(y, m, 1) + month_len(y, m)) % 7,
        m == 12 ==> weekday(y + 1, 1, 1) == (weekday(y, 12, 1) + month_len(y, 12)) % 7,
{
    let yy = if m < 3 {
        y - 1
    } else {
        y
    };
    let base = yy + tdiv(yy, 4) - tdiv(yy, 100) + tdiv(yy, 400);
    if m == 2 {
        lemma_tdiv_step(y, 4);
        lemma_tdiv_step(y, 100);
        lemma_tdiv_step(y, 400);
    }
    let a = base + month_offset(m) + 1;
    let b = if m < 12 {
        (if m + 1 < 3 {
            base
        } else {
            y + tdiv(y, 4) - tdiv(y, 100) + tdiv(y, 400)
        }) + month_offset(m + 1) + 1
    } else {
        y + tdiv(y, 4) - tdiv(y, 100) + tdiv(y, 400) + month_offset(1) + 1
    };
    // b and a + month_len differ by a multiple of seven.
    let k = (b - (a + month_len(y, m))) / 7;
    assert(b == a + month_len(y, m) + 7 * k);
    vstd::arithmetic::div_mod::lemma_mod_add_multiples_vanish(a + month_len(y, m), 7);
    vstd::arithmetic::div_mod::lemma_mod_multiples_vanish(k, a + month_len(y, m), 7);
    vstd::arithmetic::div_mod::lemma_add_mod_noop(a, month_len(y, m), 7);
    vstd::arithmetic::div_mod::lemma_mod_twice(month_len(y, m), 7);
    vstd::arithmetic::div_mod::lemma_add_mod_noop(a % 7, month_len(y, m), 7);
    vstd::arithmetic::div_mod::lemma_mod_twice(a, 7);
}

/// The year of an era (counted from March 1) that day `doe` of the era falls in.
spec fn yoe_of(doe: int) -> int {
    (doe - doe / 1460 + doe / 36524 - doe / 146096) / 365
}

/// The first day of year `yoe` of an era.
spec fn year_start(yoe: int) -> int {
    365 * yoe + yoe / 4 - yoe / 100
}

/// The date of day `doe` of a 400-year era that starts on March 1 of its year 0:
/// (year within the era, month, day).
spec fn era_date(doe: int) -> (int, int, int) {
    let yoe = yoe_of(doe);
    let doy = doe - year_start(yoe);
    let mp = (5 * doy + 2) / 153;
    let d = doy - (153 * mp + 2) / 5 + 1;
    let m = if mp < 10 { mp + 3 } else { mp - 9 };
    (yoe + if m <= 2 { 1int } else { 0 }, m, d)
}

/// The date after `(y, m, d)` on the calendar.
pub open spec fn next_date(y: int, m: int, d: int) -> (int, int, int) {
    if d < month_len(y, m) {
        (y, m, d + 1)
    } else if m < 12 {
        (y, m + 1, 1)
    } else {
        (y + 1, 1, 1)
    }
}

/// The date `z` days after 1970-01-01: (year, month, day).
#[verifier::opaque]
pub open spec fn civil_date(z: int) -> (int, int, int) {
    (civil_year(z), civil_spec(z).1, civil_spec(z).2)
}

#[verifier::rlimit(100)]
#[verifier::spinoff_prover]
proof fn lemma_yoe_range(doe: int)
    requires
        0 <= doe <= 146096,
    ensures
        0 <= yoe_of(doe) <= 399,
{
}

#[verifier::rlimit(100)]
#[verifier::spinoff_prover]
proof fn lemma_yoe_start(doe: int)
    requires
        0 <= doe <= 146096,
    ensures
        year_start(yoe_of(doe)) <= doe,
{
}

#[verifier::rlimit(100)]
#[verifier::spinoff_prover]
proof fn lemma_yoe_end(doe: int)
    requires
        0 <= doe <= 146096,
    ensures
        doe < year_start(yoe_of(doe) + 1) || (yoe_of(doe) == 399 && doe == 146096),
{
}

/// Day `doe` of an era falls in year `yoe_of(doe)`: on or after its first day and
/// before the next year's (the era's last day, February 29 of its year 400,
/// excepted).
proof fn lemma_yoe_bounds(doe: int)
    requires
        0 <= doe <= 146096,
    ensures
        0 <= yoe_of(doe) <= 399,
        year_start(yoe_of(doe)) <= doe,
        doe < year_start(yoe_of(doe) + 1) || (yoe_of(doe) == 399 && doe == 146096),
{
    lemma_yoe_range(doe);
    lemma_yoe_start(doe);
    lemma_yoe_end(doe);
}

/// Leap years repeat every 400 years.
proof fn lemma_leap_shift(e: int, r: int)
    ensures
        leap(400 * e + r) == leap(r),
{
    vstd::arithmetic::div_mod::lemma_mod_multiples_vanish(100 * e, r, 4);
    vstd::arithmetic::div_mod::lemma_mod_multiples_vanish(4 * e, r, 100);
    vstd::arithmetic::div_mod::lemma_mod_multiples_vanish(e, r, 400);
    assert(4 * (100 * e) + r == 400 * e + r);
    assert(100 * (4 * e) + r == 400 * e + r);
}

/// Every day of an era is a real date.
#[verifier::rlimit(100)]
#[verifier::spinoff_prover]
proof fn lemma_era_date_valid(doe: int)
    requires
        0 <= doe <= 146096,
    ensures
        1 <= era_date(doe).1 <= 12,
        1 <= era_date(doe).2 <= month_len(era_date(doe).0, era_date(doe).1),
        0 <= era_date(doe).0 <= 400,
{
    lemma_yoe_bounds(doe);
}

/// Within an era, the day after a date is the next date.
#[verifier::rlimit(100)]
#[verifier::spinoff_prover]
proof fn lemma_era_next(doe: int)
    requires
        0 <= doe < 146096,
    ensures
        ({
            let (y, m, d) = era_date(doe);
            era_date(doe + 1) == next_date(y, m, d)
        }),
{
    lemma_yoe_bounds(doe);
    lemma_yoe_bounds(doe + 1);
}

/// The date of day `z`, read through its era.
proof fn lemma_civil_era(z: int)
    ensures
        ({
            let zz = z + 719468;
            let era = zz / 146097;
            let doe = zz % 146097;
            &&& 0 <= doe < 146097
            &&& zz == 146097 * era + doe
            &&& civil_date(z) == (400 * era + era_date(doe).0, era_date(doe).1, era_date(doe).2)
        }),
{
    let zz = z + 719468;
    vstd::arithmetic::div_mod::lemma_fundamental_div_mod(zz, 146097);
    reveal(civil_date);
}

/// Every day counted from 1970-01-01 is a real date: a month of the year and a day
/// of that month.
pub proof fn civil_dates_are_real(z: int)
    ensures
        1 <= civil_date(z).1 <= 12,
        1 <= civil_date(z).2 <= month_len(civil_date(z).0, civil_date(z).1),
{
    lemma_civil_era(z);
    let zz = z + 719468;
    let era = zz / 146097;
    let doe = zz % 146097;
    lemma_era_date_valid(doe);
    lemma_leap_shift(era, era_date(doe).0);
}

/// Day by day, the dates follow the calendar: the day after day `z` is the next
/// date (across month and year ends, leap days included).
pub proof fn days_follow_the_calendar(z: int)
    ensures
        civil_date(z + 1) == next_date(civil_date(z).0, civil_date(z).1, civil_date(z).2),
{
    lemma_civil_era(z);
    lemma_civil_era(z + 1);
    let zz = z + 719468;
    let era = zz / 146097;
    let doe = zz % 146097;
    lemma_leap_shift(era, era_date(doe).0);
    if doe < 146096 {
        vstd::arithmetic::div_mod::lemma_fundamental_div_mod_converse(zz + 1, 146097, era, doe + 1);
        lemma_era_next(doe);
    } else {
        vstd::arithmetic::div_mod::lemma_fundamental_div_mod_converse(zz + 1, 146097, era + 1, 0);
        lemma_yoe_bounds(doe);
        lemma_yoe_bounds(0);
        assert(era_date(doe) == (400int, 2int, 29int));
        assert(era_date(0) == (0int, 3int, 1int));
        lemma_leap_shift(era, 400);
        assert(leap(400));
    }
}

/// Day 0 is 1970-01-01.
pub proof fn day_zero_is_the_epoch()
    ensures
        civil_date(0) == (1970int, 1int, 1int),
{
    lemma_civil_era(0);
    assert(719468int / 146097 == 4);
    assert(719468int % 146097 == 135080);
    lemma_yoe_bounds(135080);
}

/// The weekday of the next date is the next weekday (from year 1 on).
#[verifier::rlimit(100)]
#[verifier::spinoff_prover]
proof fn lemma_weekday_next(y: int, m: int, d: int)
    requires
        y >= 1,
        1 <= m <= 12,
        1 <= d <= month_len(y, m),
    ensures
        ({
            let (y2, m2, d2) = next_date(y, m, d);
            weekday(y2, m2, d2) == (weekday(y, m, d) + 1) % 7
        }),
{
    let yy = if m < 3 { y - 1 } else { y };
    let x = yy + tdiv(yy, 4) - tdiv(yy, 100) + tdiv(yy, 400) + month_offset(m);
    assert(weekday(y, m, d) == (x + d) % 7);
    assert(weekday(y, m, 1) == (x + 1) % 7);
    if d < month_len(y, m) {
        assert(weekday(y, m, d + 1) == (x + d + 1) % 7);
    } else {
        next_month_starts_after_this_one(y, m);
    }
}

/// Days from 1970-01-01 on: the year is at least 1970, and the weekday counts the
/// days from a Thursday.
#[verifier::rlimit(100)]
#[verifier::spinoff_prover]
proof fn lemma_weekdays_forward(z: nat)
    ensures
        civil_date(z as int).0 >= 1970,
        weekday(civil_date(z as int).0, civil_date(z as int).1, civil_date(z as int).2) == (z + 4) % 7,
    decreases z,
{
    if z == 0 {
        day_zero_is_the_epoch();
        assert(weekday(1970, 1, 1) == 4) by {
            assert(tdiv(1969, 4) == 492);
            assert(tdiv(1969, 100) == 19);
            assert(tdiv(1969, 400) == 4);
        }
    } else {
        let p = (z - 1) as nat;
        lemma_weekdays_forward(p);
        civil_dates_are_real(p as int);
        days_follow_the_calendar(p as int);
        let (y, m, d) = civil_date(p as int);
        lemma_weekday_next(y, m, d);
    }
}

/// Weekdays count the days: day `z` after 1970-01-01 (a Thursday) falls on weekday
/// `(z + 4) mod 7` (`0` = Sunday), for every date from year 1 on.
#[verifier::rlimit(100)]
#[verifier::spinoff_prover]
pub proof fn weekdays_count_days(z: int)
    requires
        civil_date(z).0 >= 1,
    ensures
        weekday(civil_date(z).0, civil_date(z).1, civil_date(z).2) == (z + 4) % 7,
    decreases (if z >= 0 { 0 } else { -z }),
{
    if z >= 0 {
        lemma_weekdays_forward(z as nat);
    } else {
        days_follow_the_calendar(z);
        civil_dates_are_real(z);
        let (y, m, d) = civil_date(z);
        assert(civil_date(z + 1).0 >= y);
        weekdays_count_days(z + 1);
        lemma_weekday_next(y, m, d);
        assert(0 <= weekday(y, m, d) < 7);
    }
}

/// A year has 365 days, or 366 in a leap year (February then has 29 days), and the
/// leap years repeat every 400 years.
pub proof fn years_have_365_or_366_days(y: int)
    ensures
        month_len(y, 1) + month_len(y, 2) + month_len(y, 3) + month_len(y, 4) + month_len(y, 5)
            + month_len(y, 6) + month_len(y, 7) + month_len(y, 8) + month_len(y, 9) + month_len(y, 10)
            + month_len(y, 11) + month_len(y, 12) == if leap(y) {
            366int
        } else {
            365int
        },
        month_len(y, 2) == 29 <==> leap(y),
        leap(y + 400) == leap(y),
{
}

/// The day grid holds every day of the month exactly once, in order, from the
/// column of the month's first weekday: day `d` sits at `first + d - 1`, and every
/// other slot is blank.
pub proof fn each_day_has_one_slot(first: int, dim: int, i: int, d: int)
    requires
        0 <= first,
        0 <= i,
        dim <= u32::MAX,
    ensures
        1 <= d <= dim ==> slot_spec(first, dim, first + d - 1) == Some(d as u32),
        slot_spec(first, dim, i) == Some(d as u32) && 1 <= d <= dim ==> i == first + d - 1,
        i < first || i >= first + dim ==> slot_spec(first, dim, i) is None,
{
}

} // verus!
