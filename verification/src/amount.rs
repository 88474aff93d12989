//! Amounts of money. An amount is a whole number of cents, held in an `i64`;
//! in text it is written with a decimal point and two decimal places.

use vstd::prelude::*;
use crate::decimal::{
    all_digits, decimal_digits, decimal_value, digit_char, digit_value, is_digit,
    lemma_decimal_digits, lemma_digit_char, push_decimal, read_digits,
};
use crate::text::{find_char, first_index, lemma_first_index_is, push_char};

verus! {

/// The absolute value of `a`.
pub open spec fn magnitude(a: int) -> nat {
    if a < 0 {
        (-a) as nat
    } else {
        a as nat
    }
}

/// The text of a magnitude: whole units, a point and two places.
pub open spec fn magnitude_text(m: nat) -> Seq<char> {
    decimal_digits(m / 100) + seq!['.', digit_char(m % 100 / 10), digit_char(m % 10)]
}

/// How an amount of `a` cents is written: a minus sign where it is negative,
/// the whole units, a decimal point and exactly two digits of cents.
pub open spec fn amount_text(a: int) -> Seq<char> {
    let sign = if a < 0 {
        seq!['-']
    } else {
        Seq::<char>::empty()
    };
    sign + magnitude_text(magnitude(a))
}

/// The value of the digit of `s` at `i`, or zero where `s` has no such
/// position.
pub open spec fn digit_at(s: Seq<char>, i: int) -> nat {
    if 0 <= i < s.len() {
        digit_value(s[i])
    } else {
        0
    }
}

/// The number of cents that the whole units `units` and the decimal places
/// `places` write. Places after the second round to the nearest cent; half a
/// cent rounds away from zero.
pub open spec fn cents_of(units: Seq<char>, places: Seq<char>) -> nat {
    decimal_value(units) * 100 + digit_at(places, 0) * 10 + digit_at(places, 1) + if digit_at(
        places,
        2,
    ) >= 5 {
        1nat
    } else {
        0nat
    }
}

/// `s` without a leading `+` or `-`.
pub open spec fn unsigned_part(s: Seq<char>) -> Seq<char> {
    if s.len() > 0 && (s[0] == '-' || s[0] == '+') {
        s.drop_first()
    } else {
        s
    }
}

/// The digits of `body` before its decimal point.
pub open spec fn units_part(body: Seq<char>) -> Seq<char> {
    body.take(first_index(body, '.') as int)
}

/// The digits of `body` after its decimal point; none where it has no point.
pub open spec fn places_part(body: Seq<char>) -> Seq<char> {
    let dot = first_index(body, '.');
    if dot < body.len() {
        body.skip(dot + 1 as int)
    } else {
        Seq::empty()
    }
}

/// `s` is written as an amount: an optional sign, digits, and optionally a
/// decimal point followed by digits, with at least one digit in all.
pub open spec fn is_amount_text(s: Seq<char>) -> bool {
    let body = unsigned_part(s);
    &&& all_digits(units_part(body))
    &&& all_digits(places_part(body))
    &&& units_part(body).len() + places_part(body).len() > 0
}

/// The signed number of cents that `s` writes, whatever its size.
pub open spec fn signed_cents(s: Seq<char>) -> int {
    let body = unsigned_part(s);
    let m = cents_of(units_part(body), places_part(body));
    if s.len() > 0 && s[0] == '-' {
        -m
    } else {
        m as int
    }
}

/// What a written amount denotes, in cents. `None` where `s` is not written
/// as an amount, and where the amount does not fit in an `i64`.
pub open spec fn parse_amount(s: Seq<char>) -> Option<i64> {
    if is_amount_text(s) && i64::MIN <= signed_cents(s) <= i64::MAX {
        Some(signed_cents(s) as i64)
    } else {
        None
    }
}

/// The text of a magnitude falls into its units and its two places at the
/// decimal point.
proof fn lemma_magnitude_text_parts(m: nat)
    ensures
        units_part(magnitude_text(m)) == decimal_digits(m / 100),
        places_part(magnitude_text(m)) == seq![digit_char(m % 100 / 10), digit_char(m % 10)],
        magnitude_text(m).len() >= 4,
        magnitude_text(m)[0] == decimal_digits(m / 100)[0],
{
    let units = decimal_digits(m / 100);
    let body = magnitude_text(m);
    lemma_decimal_digits(m / 100);
    assert forall|j: int| 0 <= j < units.len() implies body[j] != '.' by {
        assert(is_digit(units[j]));
    }
    assert(body[units.len() as int] == '.');
    lemma_first_index_is(body, '.', units.len() as int);
    assert(body.take(units.len() as int) =~= units);
    assert(body.skip(units.len() + 1 as int) =~= seq![
        digit_char(m % 100 / 10),
        digit_char(m % 10),
    ]);
}

/// The units and the two places of a magnitude write that magnitude.
proof fn lemma_magnitude_cents(m: nat)
    ensures
        cents_of(decimal_digits(m / 100), seq![digit_char(m % 100 / 10), digit_char(m % 10)])
            == m,
        all_digits(seq![digit_char(m % 100 / 10), digit_char(m % 10)]),
{
    let places = seq![digit_char(m % 100 / 10), digit_char(m % 10)];
    lemma_decimal_digits(m / 100);
    lemma_digit_char(m % 100 / 10);
    lemma_digit_char(m % 10);
    assert(places[0] == digit_char(m % 100 / 10));
    assert(places[1] == digit_char(m % 10));
    assert(digit_at(places, 0) == m % 100 / 10);
    assert(digit_at(places, 1) == m % 10);
    assert(digit_at(places, 2) == 0);
    assert(m / 100 * 100 + (m % 100 / 10) * 10 + m % 10 == m);
}

/// Every character of an amount's text is a minus sign, a point or a digit,
/// and the first is no point.
pub proof fn lemma_amount_text_chars(a: i64)
    ensures
        amount_text(a as int).len() >= 4,
        amount_text(a as int)[0] == '-' || is_digit(amount_text(a as int)[0]),
        forall|i: int|
            0 <= i < amount_text(a as int).len() ==> {
                let c = #[trigger] amount_text(a as int)[i];
                c == '-' || c == '.' || is_digit(c)
            },
{
    let m = magnitude(a as int);
    let units = decimal_digits(m / 100);
    let s = amount_text(a as int);
    lemma_decimal_digits(m / 100);
    lemma_digit_char(m % 100 / 10);
    lemma_digit_char(m % 10);
    let off: int = if a < 0 {
        1
    } else {
        0
    };
    assert(is_digit(units[0]));
    assert(s.len() == off + units.len() + 3);
    assert forall|i: int| 0 <= i < s.len() implies ({
        let c = #[trigger] s[i];
        c == '-' || c == '.' || is_digit(c)
    }) by {
        if off <= i < off + units.len() {
            assert(s[i] == units[i - off]);
            assert(is_digit(units[i - off]));
        }
    }
    assert(s[off] == units[0]);
}

/// Reading what was written gives the amount back.
pub proof fn lemma_amount_round_trip(a: i64)
    ensures
        parse_amount(amount_text(a as int)) == Some(a),
{
    let m = magnitude(a as int);
    let body = magnitude_text(m);
    let s = amount_text(a as int);
    lemma_magnitude_text_parts(m);
    lemma_magnitude_cents(m);
    lemma_decimal_digits(m / 100);
    assert(is_digit(decimal_digits(m / 100)[0]));
    if a < 0 {
        assert(s =~= seq!['-'] + body);
        assert(s.drop_first() =~= body);
    } else {
        assert(s =~= body);
    }
    assert(unsigned_part(s) == body);
    assert(signed_cents(s) == a);
}

/// Appends the text of the amount `a` to `out`.
pub fn push_amount(out: &mut String, a: i128)
    ensures
        final(out)@ == old(out)@ + amount_text(a as int),
{
    let m: u128 = if a < 0 {
        ((-(a + 1)) as u128) + 1
    } else {
        a as u128
    };
    assert(m == magnitude(a as int));
    if a < 0 {
        push_char(out, '-');
    }
    push_decimal(out, m / 100);
    push_char(out, '.');
    let d1: u8 = (m % 100 / 10) as u8;
    let d2: u8 = (m % 10) as u8;
    push_char(out, (0x30u8 + d1) as char);
    push_char(out, (0x30u8 + d2) as char);
    proof {
        let sign = if a < 0 {
            seq!['-']
        } else {
            Seq::<char>::empty()
        };
        assert(final(out)@ =~= old(out)@ + (sign + decimal_digits((m / 100) as nat) + seq![
            '.',
            digit_char((m % 100 / 10) as nat),
            digit_char((m % 10) as nat),
        ]));
    }
}

/// The text of the amount `a`.
pub fn format_amount(a: i64) -> (s: String)
    ensures
        s@ == amount_text(a as int),
{
    format_total(a as i128)
}

/// The text of a sum of amounts.
pub fn format_total(a: i128) -> (s: String)
    ensures
        s@ == amount_text(a as int),
{
    let mut s = String::new();
    push_amount(&mut s, a);
    assert(Seq::<char>::empty() + amount_text(a as int) =~= amount_text(a as int));
    s
}

/// Whether the characters of `v` in `[from, to)` are all digits.
fn range_all_digits(v: &Vec<char>, from: usize, to: usize) -> (b: bool)
    requires
        from <= to <= v.len(),
    ensures
        b == all_digits(v@.subrange(from as int, to as int)),
{
    let ghost s = v@.subrange(from as int, to as int);
    let mut i: usize = from;
    while i < to
        invariant
            from <= i <= to <= v.len(),
            s == v@.subrange(from as int, to as int),
            forall|j: int| from <= j < i ==> is_digit(v@[j]),
        decreases to - i,
    {
        let n: u32 = v[i] as u32;
        if n < 0x30 || n > 0x39 {
            assert(s[i - from] == v@[i as int]);
            return false;
        }
        i += 1;
    }
    assert forall|j: int| 0 <= j < s.len() implies is_digit(#[trigger] s[j]) by {
        assert(s[j] == v@[from + j]);
    }
    true
}

/// The value of the digit of `v` at `at`, or zero where `at` is not below
/// `to`.
fn digit_or_zero(v: &Vec<char>, at: usize, to: usize) -> (d: u64)
    requires
        to <= v.len(),
        at < to ==> is_digit(v@[at as int]),
    ensures
        d == if at < to {
            digit_value(v@[at as int])
        } else {
            0
        },
        d <= 9,
{
    if at < to {
        (v[at] as u32 - 0x30) as u64
    } else {
        0
    }
}

/// Reads an amount from the characters of `v` in `[from, to)`.
pub fn read_amount(v: &Vec<char>, from: usize, to: usize) -> (r: Option<i64>)
    requires
        from <= to <= v.len(),
    ensures
        r == parse_amount(v@.subrange(from as int, to as int)),
{
    let ghost s = v@.subrange(from as int, to as int);
    let negative: bool = from < to && v[from] == '-';
    let start: usize = if from < to && (v[from] == '-' || v[from] == '+') {
        from + 1
    } else {
        from
    };
    let ghost body = v@.subrange(start as int, to as int);
    proof {
        if from < to {
            assert(s[0] == v@[from as int]);
        }
        assert(unsigned_part(s) =~= body);
    }
    let dot: usize = find_char(v, start, to, '.');
    let places_from: usize = if dot < to {
        dot + 1
    } else {
        to
    };
    let ghost units = v@.subrange(start as int, dot as int);
    let ghost places = v@.subrange(places_from as int, to as int);
    proof {
        assert(units_part(body) =~= units);
        assert(places_part(body) =~= places);
    }
    if dot - start + (to - places_from) == 0 {
        return None;
    }
    if !range_all_digits(v, places_from, to) {
        return None;
    }
    let whole: u64 = match read_digits(v, start, dot, 100_000_000_000_000_000) {
        Some(w) => w,
        None => {
            return None;
        },
    };
    proof {
        if places_from < to {
            assert(places[0] == v@[places_from as int] && is_digit(places[0]));
        }
        if places_from + 1 < to {
            assert(places[1] == v@[places_from + 1] && is_digit(places[1]));
        }
        if places_from + 2 < to {
            assert(places[2] == v@[places_from + 2] && is_digit(places[2]));
        }
    }
    let tenths: u64 = digit_or_zero(v, places_from, to);
    let hundredths: u64 = if places_from < to {
        digit_or_zero(v, places_from + 1, to)
    } else {
        0
    };
    let thousandths: u64 = if places_from < to && places_from + 1 < to {
        digit_or_zero(v, places_from + 2, to)
    } else {
        0
    };
    let round: u64 = if thousandths >= 5 {
        1
    } else {
        0
    };
    let m: u64 = whole * 100 + tenths * 10 + hundredths + round;
    assert(m == cents_of(units, places));
    if negative {
        if m > 0x8000_0000_0000_0000 {
            None
        } else if m == 0x8000_0000_0000_0000 {
            Some(i64::MIN)
        } else {
            Some(-(m as i64))
        }
    } else {
        if m > 0x7fff_ffff_ffff_ffff {
            None
        } else {
            Some(m as i64)
        }
    }
}

} // verus!
