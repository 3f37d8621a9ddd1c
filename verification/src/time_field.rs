//! The time input's pure logic: the `HH:MM` typing mask, 12-hour slot labels and
//! the list of day slots the dropdown offers.
use vstd::prelude::*;
use crate::num::{padded, zero_padded};
use crate::text::{is_digit, chars_of, string_of, append_chars};
use crate::text_field::{digits_of, digits_only};
use crate::date_format::{
    insert_seps, at_most, lemma_digits_of_are_digits, lemma_all_digits_filter,
};

verus! {

broadcast use vstd::seq_lib::group_seq_properties;

/// The time mask: the first four digits, with a `:` after the hour.
pub open spec fn mask_time_spec(s: Seq<char>) -> Seq<char> {
    insert_seps(at_most(digits_of(s), 4), 2, 4, ':')
}

/// Reformat over characters (see [`mask_time`]).
pub fn mask_time_chars(s: &[char]) -> (r: Vec<char>)
    ensures
        r@ == mask_time_spec(s@),
{
    let all = digits_only(s);
    let d = if all.len() <= 4 {
        all
    } else {
        crate::text::slice_range(&all, 0, 4)
    };
    proof {
        assert(at_most(digits_of(s@), 4) == d@);
    }
    if d.len() <= 2 {
        return d;
    }
    let mut out = crate::text::slice_range(&d, 0, 2);
    out.push(':');
    let tail = crate::text::slice_range(&d, 2, d.len());
    append_chars(&mut out, &tail);
    proof {
        assert(out@ =~= d@.take(2) + seq![':'] + d@.skip(2));
    }
    out
}

/// Reformat digits as `HH:MM` (first 4 digits, colon after the hour).
pub fn mask_time(s: &str) -> (r: String)
    ensures
        r@ == mask_time_spec(s@),
{
    let cs = chars_of(s);
    let m = mask_time_chars(&cs);
    string_of(&m)
}

/// The hour on a 12-hour clock (`0` and `12` both read `12`).
pub open spec fn hour12(h: nat) -> nat {
    if h % 12 == 0 {
        12
    } else {
        h % 12
    }
}

/// `hh:mm AM` / `hh:mm PM` for `(hour24, minute)`.
pub open spec fn label12_spec(h: nat, m: nat) -> Seq<char> {
    padded(hour12(h), 2) + seq![':'] + padded(m, 2) + seq![' '] + if h < 12 {
        seq!['A', 'M']
    } else {
        seq!['P', 'M']
    }
}

/// `HH:MM` for `(hour24, minute)`.
pub open spec fn label24_spec(h: nat, m: nat) -> Seq<char> {
    padded(h, 2) + seq![':'] + padded(m, 2)
}

fn label12_chars(h: u32, m: u32) -> (r: Vec<char>)
    ensures
        r@ == label12_spec(h as nat, m as nat),
{
    let h12: u32 = if h % 12 == 0 {
        12
    } else {
        h % 12
    };
    let mut out = zero_padded(h12 as u64, 2);
    out.push(':');
    let mm = zero_padded(m as u64, 2);
    append_chars(&mut out, &mm);
    out.push(' ');
    if h < 12 {
        out.push('A');
    } else {
        out.push('P');
    }
    out.push('M');
    proof {
        let ap = if h < 12 {
            seq!['A', 'M']
        } else {
            seq!['P', 'M']
        };
        assert(out@ =~= padded(h12 as nat, 2) + seq![':'] + mm@ + seq![' '] + ap);
    }
    out
}

/// A `12:30 PM`-style label for `(hour24, minute)`.
pub fn label12(h: u32, m: u32) -> (r: String)
    ensures
        r@ == label12_spec(h as nat, m as nat),
{
    let v = label12_chars(h, m);
    string_of(&v)
}

/// The label of the slot `t` minutes into the day.
pub open spec fn slot_label(hour12: bool, t: nat) -> Seq<char> {
    if hour12 {
        label12_spec(t / 60, t % 60)
    } else {
        label24_spec(t / 60, t % 60)
    }
}

/// The step actually used: at least one minute.
pub open spec fn effective_step(step: u32) -> nat {
    if step < 1 {
        1
    } else {
        step as nat
    }
}

/// Every time slot of the day at `step` minutes, formatted per `hour12`: slot `i`
/// starts `i * step` minutes after midnight, and the slots cover the whole day.
pub fn time_options(hour12: bool, step: u32) -> (r: Vec<String>)
    ensures
        forall|i: int|
            0 <= i < r@.len() ==> i * effective_step(step) < 1440int && #[trigger] r@[i]@
                == slot_label(hour12, (i * effective_step(step)) as nat),
        r@.len() * effective_step(step) >= 24 * 60,
        r@.len() >= 1,
{
    let st: u32 = if step < 1 {
        1
    } else {
        step
    };
    let ghost s = st as int;
    let mut out: Vec<String> = Vec::new();
    let mut t: u32 = 0;
    while t < 24 * 60
        invariant
            s == st as int,
            s == effective_step(step),
            s >= 1,
            t == out@.len() * s,
            t < 24 * 60 + s,
            forall|i: int| 0 <= i < out@.len() ==> #[trigger] (i * s) < 1440int,
            forall|i: int|
                0 <= i < out@.len() ==> #[trigger] out@[i]@ == slot_label(hour12, (i * s) as nat),
        decreases 24 * 60 + s - t,
    {
        let h = t / 60;
        let m = t % 60;
        let label = if hour12 {
            label12(h, m)
        } else {
            let mut v = zero_padded(h as u64, 2);
            v.push(':');
            let mm = zero_padded(m as u64, 2);
            append_chars(&mut v, &mm);
            proof {
                assert(v@ =~= label24_spec(h as nat, m as nat));
            }
            string_of(&v)
        };
        let ghost n = out@.len();
        let ghost prev = out@;
        out.push(label);
        proof {
            assert(out@[n as int]@ == slot_label(hour12, (n * s) as nat));
            assert(n * s == t);
            assert(n * s < 24 * 60);
            assert forall|i: int| 0 <= i < out@.len() implies #[trigger] out@[i]@
                == slot_label(hour12, (i * s) as nat) by {
                if i < n {
                    assert(out@[i] == prev[i]);
                    assert(prev[i]@ == slot_label(hour12, (i * s) as nat));
                } else {
                    assert(i == n);
                }
            }
            assert forall|i: int| 0 <= i < out@.len() implies #[trigger] (i * s) < 1440int by {
                if i < n {
                } else {
                    assert(i == n);
                }
            }
            assert((n + 1) * s == n * s + s) by (nonlinear_arith);
            if n >= 1 {
                assert(n * s >= s) by (nonlinear_arith)
                    requires
                        n >= 1,
                        s >= 1,
                ;
            }
        }
        t = t + st;
    }
    proof {
        assert forall|i: int| 0 <= i < out@.len() implies i * effective_step(step) < 1440int
            && #[trigger] out@[i]@ == slot_label(hour12, (i * effective_step(step)) as nat) by {
            assert(out@[i]@ == slot_label(hour12, (i * s) as nat));
            assert(i * s < 1440int);
        }
        assert(out@.len() >= 1) by {
            if out@.len() == 0 {
                assert(t == 0);
            }
        }
    }
    out
}

/// The time mask is idempotent: re-masking masked input changes nothing.
pub proof fn time_mask_is_idempotent(s: Seq<char>)
    ensures
        mask_time_spec(mask_time_spec(s)) == mask_time_spec(s),
{
    let d = at_most(digits_of(s), 4);
    lemma_digits_of_are_digits(s);
    assert forall|i: int| 0 <= i < d.len() implies is_digit(#[trigger] d[i]) by {
        assert(d[i] == digits_of(s)[i]);
    }
    let p = |c: char| is_digit(c);
    let s1 = seq![':'];
    assert(!is_digit(':'));
    assert(s1.filter(p) =~= Seq::<char>::empty()) by {
        reveal_with_fuel(Seq::filter, 2);
        assert(s1.drop_last() =~= Seq::<char>::empty());
        assert(s1.last() == ':');
    }
    lemma_all_digits_filter(d);
    if d.len() > 2 {
        lemma_all_digits_filter(d.take(2));
        lemma_all_digits_filter(d.skip(2));
        Seq::filter_distributes_over_add(d.take(2), s1, p);
        Seq::filter_distributes_over_add(d.take(2) + s1, d.skip(2), p);
        assert(d.take(2) + d.skip(2) =~= d);
        assert(d.take(2) + Seq::<char>::empty() =~= d.take(2));
    }
    assert(digits_of(insert_seps(d, 2, 4, ':')) == d);
    assert(at_most(d, 4) == d);
}

/// A 12-hour label names the same hour of the clock face in the morning and the
/// afternoon: hours `h` and `h + 12` read the same `hh:mm`, the first with `AM` and
/// the second with `PM`; the face hour is always one of `1..=12` and agrees with the
/// 24-hour hour modulo 12.
pub proof fn twelve_hour_labels_share_the_face(h: nat, m: nat)
    requires
        h < 12,
    ensures
        1 <= hour12(h) <= 12,
        hour12(h) % 12 == h % 12,
        hour12(h + 12) == hour12(h),
        label12_spec(h, m).take(5) == label12_spec(h + 12, m).take(5),
        label12_spec(h, m).skip(label12_spec(h, m).len() - 2) == seq!['A', 'M'],
        label12_spec(h + 12, m).skip(label12_spec(h + 12, m).len() - 2) == seq!['P', 'M'],
{
    let a = padded(hour12(h), 2) + seq![':'] + padded(m, 2) + seq![' '];
    assert(label12_spec(h, m) == a + seq!['A', 'M']);
    assert(label12_spec(h + 12, m) == a + seq!['P', 'M']);
    assert((a + seq!['A', 'M']).skip(a.len() as int) =~= seq!['A', 'M']);
    assert((a + seq!['P', 'M']).skip(a.len() as int) =~= seq!['P', 'M']);
}

} // verus!
