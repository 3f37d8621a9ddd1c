//! Decimal numbers as text: `str::parse` for the integer types the widgets read,
//! and zero-padded decimal formatting (`{:02}`, `{:04}`).
use vstd::prelude::*;
use crate::text::{lemma_digit_char, is_digit, digit_val, digit_char, char_to_digit, digit_to_char, is_ascii_digit};

verus! {

broadcast use vstd::seq_lib::group_seq_properties;

/// Every character of `s` is an ASCII digit.
pub open spec fn all_digits(s: Seq<char>) -> bool {
    forall|i: int| 0 <= i < s.len() ==> is_digit(#[trigger] s[i])
}

/// The value of a run of decimal digits.
pub open spec fn digits_value(s: Seq<char>) -> nat
    decreases s.len(),
{
    if s.len() == 0 {
        0
    } else {
        digits_value(s.drop_last()) * 10 + digit_val(s.last())
    }
}

/// `s` without a leading `+`.
pub open spec fn unsigned_body(s: Seq<char>) -> Seq<char> {
    if s.len() > 0 && s[0] == '+' {
        s.drop_first()
    } else {
        s
    }
}

/// What `str::parse` gives for an unsigned integer type whose largest value is `max`:
/// an optional `+`, then one or more ASCII digits whose value is at most `max`.
pub open spec fn parse_unsigned_spec(s: Seq<char>, max: nat) -> Option<nat> {
    let body = unsigned_body(s);
    if body.len() > 0 && all_digits(body) && digits_value(body) <= max {
        Some(digits_value(body))
    } else {
        None
    }
}

/// What `str::parse` gives for a signed integer type with range `-min_abs..=max`:
/// an optional `+` or `-`, then one or more ASCII digits, the value in range.
pub open spec fn parse_signed_spec(s: Seq<char>, min_abs: nat, max: nat) -> Option<int> {
    if s.len() > 0 && s[0] == '-' {
        let body = s.drop_first();
        if body.len() > 0 && all_digits(body) && digits_value(body) <= min_abs {
            Some(-(digits_value(body) as int))
        } else {
            None
        }
    } else {
        match parse_unsigned_spec(s, max) {
            Some(v) => Some(v as int),
            None => None,
        }
    }
}

/// A longer run of digits is worth at least as much as its prefix.
proof fn lemma_prefix_value_le(s: Seq<char>, i: int)
    requires
        0 <= i <= s.len(),
    ensures
        digits_value(s.take(i)) <= digits_value(s),
    decreases s.len() - i,
{
    if i < s.len() {
        lemma_prefix_value_le(s, i + 1);
        assert(s.take(i + 1).drop_last() =~= s.take(i));
    } else {
        assert(s.take(i) =~= s);
    }
}

/// The value of the digits `s[from..]`, or `None` when they are not all digits or
/// their value exceeds `max` (`max <= u64::MAX`).
fn digits_upto(s: &[char], from: usize, max: u64) -> (r: Option<u64>)
    requires
        from <= s@.len(),
    ensures
        r matches Some(v) ==> all_digits(s@.skip(from as int)) && v == digits_value(
            s@.skip(from as int),
        ) && v <= max,
        r is None ==> !all_digits(s@.skip(from as int)) || digits_value(s@.skip(from as int))
            > max,
{
    let ghost body = s@.skip(from as int);
    let mut acc: u64 = 0;
    let mut i: usize = from;
    while i < s.len()
        invariant
            from <= i <= s@.len(),
            body == s@.skip(from as int),
            all_digits(body.take(i - from)),
            acc == digits_value(body.take(i - from)),
            acc <= max,
        decreases s@.len() - i,
    {
        let c = s[i];
        proof {
            assert(body.take(i - from + 1).drop_last() =~= body.take(i - from));
            assert(body[i - from] == s@[i as int]);
        }
        if !is_ascii_digit(c) {
            proof {
                assert(!is_digit(body[i - from]));
            }
            return None;
        }
        let d = char_to_digit(c);
        let wide: u128 = (acc as u128) * 10 + (d as u128);
        if wide > max as u128 {
            proof {
                lemma_prefix_value_le(body, i - from + 1);
            }
            return None;
        }
        acc = wide as u64;
        i = i + 1;
        proof {
            assert forall|k: int| 0 <= k < body.take(i - from).len() implies is_digit(
                #[trigger] body.take(i - from)[k],
            ) by {
                if k < i - from - 1 {
                    assert(body.take(i - from)[k] == body.take(i - from - 1)[k]);
                }
            }
        }
    }
    proof {
        assert(body.take(i - from) =~= body);
    }
    Some(acc)
}

/// `str::parse::<uN>` for an unsigned type whose largest value is `max`.
pub fn parse_unsigned(s: &[char], max: u64) -> (r: Option<u64>)
    ensures
        r matches Some(v) ==> parse_unsigned_spec(s@, max as nat) == Some(v as nat),
        r is None ==> parse_unsigned_spec(s@, max as nat) is None,
{
    let from: usize = if s.len() > 0 && s[0] == '+' {
        1
    } else {
        0
    };
    proof {
        assert(unsigned_body(s@) =~= s@.skip(from as int));
    }
    if from >= s.len() {
        proof {
            assert(unsigned_body(s@).len() == 0);
        }
        return None;
    }
    digits_upto(s, from, max)
}

/// `str::parse::<iN>` for a signed type with range `-min_abs..=max`.
pub fn parse_signed(s: &[char], min_abs: u64, max: u64) -> (r: Option<i128>)
    ensures
        r matches Some(v) ==> parse_signed_spec(s@, min_abs as nat, max as nat) == Some(
            v as int,
        ),
        r is None ==> parse_signed_spec(s@, min_abs as nat, max as nat) is None,
{
    if s.len() > 0 && s[0] == '-' {
        proof {
            assert(s@.drop_first() =~= s@.skip(1));
        }
        if s.len() == 1 {
            return None;
        }
        match digits_upto(s, 1, min_abs) {
            Some(v) => Some(-(v as i128)),
            None => None,
        }
    } else {
        match parse_unsigned(s, max) {
            Some(v) => Some(v as i128),
            None => None,
        }
    }
}

/// The decimal digits of `n` (no leading zeros; `"0"` for zero).
pub open spec fn decimal(n: nat) -> Seq<char>
    decreases n,
{
    if n < 10 {
        seq![digit_char(n)]
    } else {
        decimal(n / 10).push(digit_char(n % 10))
    }
}

/// `width - len` zero characters (none when `len >= width`).
pub open spec fn zeros(len: nat, width: nat) -> Seq<char> {
    Seq::new(if len < width { (width - len) as nat } else { 0 }, |i: int| '0')
}

/// `{:0width}` for a non-negative value.
pub open spec fn padded(n: nat, width: nat) -> Seq<char> {
    zeros(decimal(n).len(), width) + decimal(n)
}

/// `{:0width}` for a signed value: a `-` counts towards the width.
pub open spec fn padded_signed(n: int, width: nat) -> Seq<char> {
    if n < 0 {
        seq!['-'] + zeros(decimal((-n) as nat).len() + 1, width) + decimal((-n) as nat)
    } else {
        padded(n as nat, width)
    }
}

/// The decimal digits of `n`.
pub fn decimal_digits(n: u64) -> (r: Vec<char>)
    ensures
        r@ == decimal(n as nat),
    decreases n,
{
    if n < 10 {
        let mut v: Vec<char> = Vec::new();
        v.push(digit_to_char(n as u32));
        v
    } else {
        let mut v = decimal_digits(n / 10);
        v.push(digit_to_char((n % 10) as u32));
        v
    }
}

/// Appends `count` zero characters.
fn push_zeros(v: &mut Vec<char>, count: usize)
    ensures
        final(v)@ == old(v)@ + Seq::new(count as nat, |i: int| '0'),
{
    let mut i: usize = 0;
    while i < count
        invariant
            i <= count,
            v@ == old(v)@ + Seq::new(i as nat, |k: int| '0'),
        decreases count - i,
    {
        v.push('0');
        i = i + 1;
        proof {
            assert(v@ =~= old(v)@ + Seq::new(i as nat, |k: int| '0'));
        }
    }
}

/// `format!("{n:0width$}")` for an unsigned value.
pub fn zero_padded(n: u64, width: usize) -> (r: Vec<char>)
    ensures
        r@ == padded(n as nat, width as nat),
{
    let d = decimal_digits(n);
    let mut out: Vec<char> = Vec::new();
    if d.len() < width {
        push_zeros(&mut out, width - d.len());
    }
    let mut i: usize = 0;
    while i < d.len()
        invariant
            i <= d@.len(),
            out@ == zeros(d@.len() as nat, width as nat) + d@.subrange(0, i as int),
        decreases d@.len() - i,
    {
        out.push(d[i]);
        i = i + 1;
        proof {
            assert(out@ =~= zeros(d@.len() as nat, width as nat) + d@.subrange(0, i as int));
        }
    }
    proof {
        assert(d@.subrange(0, d@.len() as int) =~= d@);
    }
    out
}

/// `format!("{n:0width$}")` for a signed value.
pub fn zero_padded_signed(n: i64, width: usize) -> (r: Vec<char>)
    requires
        n > i64::MIN,
    ensures
        r@ == padded_signed(n as int, width as nat),
{
    if n < 0 {
        let d = decimal_digits((-n) as u64);
        let mut out: Vec<char> = Vec::new();
        out.push('-');
        if width > 0 && d.len() < width - 1 {
            push_zeros(&mut out, width - d.len() - 1);
        }
        let mut i: usize = 0;
        while i < d.len()
            invariant
                i <= d@.len(),
                out@ == seq!['-'] + zeros(d@.len() + 1, width as nat) + d@.subrange(0, i as int),
            decreases d@.len() - i,
        {
            out.push(d[i]);
            i = i + 1;
            proof {
                assert(out@ =~= seq!['-'] + zeros(d@.len() + 1, width as nat) + d@.subrange(
                    0,
                    i as int,
                ));
            }
        }
        proof {
            assert(d@.subrange(0, d@.len() as int) =~= d@);
        }
        out
    } else {
        zero_padded(n as u64, width)
    }
}

// ---------------------------------------------------------------------------
// Facts about digit runs
// ---------------------------------------------------------------------------

/// The decimal digits of `n` are digits, and read back as `n`.
pub proof fn lemma_decimal_value(n: nat)
    ensures
        all_digits(decimal(n)),
        digits_value(decimal(n)) == n,
        decimal(n).len() >= 1,
    decreases n,
{
    lemma_digit_char(n % 10);
    if n >= 10 {
        lemma_decimal_value(n / 10);
        assert(n == (n / 10) * 10 + n % 10);
        assert(decimal(n).drop_last() =~= decimal(n / 10));
        assert(forall|i: int|
            0 <= i < decimal(n).len() - 1 ==> decimal(n)[i] == decimal(n / 10)[i]);
        assert(decimal(n).last() == digit_char(n % 10));
        assert(digits_value(decimal(n)) == digits_value(decimal(n).drop_last()) * 10 + digit_val(
            decimal(n).last(),
        ));
    } else {
        assert(n % 10 == n);
        assert(decimal(n).drop_last() =~= Seq::<char>::empty());
        assert(digits_value(decimal(n)) == digits_value(decimal(n).drop_last()) * 10 + digit_val(
            decimal(n).last(),
        ));
    }
}

/// How many digits small numbers take.
pub proof fn lemma_decimal_len(n: nat)
    ensures
        n < 10 ==> decimal(n).len() == 1,
        10 <= n < 100 ==> decimal(n).len() == 2,
        100 <= n < 1000 ==> decimal(n).len() == 3,
        1000 <= n < 10000 ==> decimal(n).len() == 4,
    decreases n,
{
    if n >= 10 {
        lemma_decimal_len(n / 10);
    }
}

/// Leading zeros do not change the value of a digit run.
pub proof fn lemma_leading_zero(d: Seq<char>)
    ensures
        digits_value(seq!['0'] + d) == digits_value(d),
    decreases d.len(),
{
    if d.len() > 0 {
        lemma_leading_zero(d.drop_last());
        assert((seq!['0'] + d).drop_last() =~= seq!['0'] + d.drop_last());
    } else {
        assert(seq!['0'] + d =~= seq!['0']);
        assert(seq!['0'].drop_last() =~= Seq::<char>::empty());
    }
}

/// Any number of leading zeros leaves the value and the digit-ness unchanged.
pub proof fn lemma_zeros_prefix(k: nat, d: Seq<char>)
    ensures
        digits_value(Seq::new(k, |i: int| '0') + d) == digits_value(d),
        all_digits(d) ==> all_digits(Seq::new(k, |i: int| '0') + d),
    decreases k,
{
    if k > 0 {
        lemma_zeros_prefix((k - 1) as nat, d);
        let z = Seq::new(k, |i: int| '0');
        let z1 = Seq::new((k - 1) as nat, |i: int| '0');
        assert(z + d =~= seq!['0'] + (z1 + d));
        lemma_leading_zero(z1 + d);
    } else {
        assert(Seq::new(k, |i: int| '0') + d =~= d);
    }
}

/// A zero-padded number reads back as itself.
pub proof fn lemma_padded_value(n: nat, width: nat)
    ensures
        all_digits(padded(n, width)),
        digits_value(padded(n, width)) == n,
        padded(n, width).len() >= 1,
        padded(n, width).len() >= width,
{
    lemma_decimal_value(n);
    let k: nat = if decimal(n).len() < width {
        (width - decimal(n).len()) as nat
    } else {
        0
    };
    lemma_zeros_prefix(k, decimal(n));
}

} // verus!
