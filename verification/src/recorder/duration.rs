//! Durations such as `1h30m`.
use vstd::prelude::*;

use crate::num::fits_u64;
use crate::text::{chars_of, digit_of, digits_value, is_digit, joined, number_up_to, text_of};

verus! {

/// Why a text is not a duration.
#[derive(Debug)]
pub enum DurationError {
    /// A unit without a number before it, or a number above 64 bits.
    InvalidNumber(String),
    InvalidUnit(char),
    Zero,
}

/// What is wrong with a duration.
pub enum DurationFault {
    InvalidNumber(Seq<char>),
    InvalidUnit(char),
    Zero,
}

impl View for DurationError {
    type V = DurationFault;

    open spec fn view(&self) -> DurationFault {
        match self {
            DurationError::InvalidNumber(n) => DurationFault::InvalidNumber(n@),
            DurationError::InvalidUnit(c) => DurationFault::InvalidUnit(*c),
            DurationError::Zero => DurationFault::Zero,
        }
    }
}

impl DurationFault {
    /// The fault in words.
    pub open spec fn words(self) -> Seq<char> {
        match self {
            DurationFault::InvalidNumber(n) => "invalid number in duration: "@ + n,
            DurationFault::InvalidUnit(c) => "invalid duration unit: "@.push(c),
            DurationFault::Zero => "duration must be greater than 0"@,
        }
    }
}

impl DurationError {
    pub fn message(&self) -> (r: String)
        ensures
            r@ == self@.words(),
    {
        match self {
            DurationError::InvalidNumber(n) => joined("invalid number in duration: ", n.as_str()),
            DurationError::InvalidUnit(c) => {
                let mut m = "invalid duration unit: ".to_owned();
                m.push(*c);
                m
            },
            DurationError::Zero => "duration must be greater than 0".to_owned(),
        }
    }
}

/// The seconds of a unit.
pub open spec fn unit_seconds(c: char) -> Option<int> {
    if c == 'h' || c == 'H' {
        Some(3600)
    } else if c == 'm' || c == 'M' {
        Some(60)
    } else if c == 's' || c == 'S' {
        Some(1)
    } else {
        None
    }
}

/// The seconds of a text from a place on, with the digits before it that have
/// no unit yet and the seconds so far. A last number without a unit counts in
/// seconds. Nothing where the seconds outgrow 64 bits.
pub open spec fn seconds_from(s: Seq<char>, i: int, digits: Seq<char>, total: int) -> Option<
    Result<int, DurationFault>,
>
    decreases s.len() - i,
{
    let number = number_up_to(digits, u64::MAX as int);
    if i >= s.len() {
        if digits.len() > 0 && number is None {
            Some(Err(DurationFault::InvalidNumber(digits)))
        } else {
            let sum = if digits.len() > 0 {
                total + number->0
            } else {
                total
            };
            if !fits_u64(sum) {
                None
            } else if sum == 0 {
                Some(Err(DurationFault::Zero))
            } else {
                Some(Ok(sum))
            }
        }
    } else if is_digit(s[i]) {
        seconds_from(s, i + 1, digits.push(s[i]), total)
    } else if number is None {
        Some(Err(DurationFault::InvalidNumber(digits)))
    } else {
        match unit_seconds(s[i]) {
            None => Some(Err(DurationFault::InvalidUnit(s[i]))),
            Some(unit) => if fits_u64(number->0 * unit) && fits_u64(total + number->0 * unit) {
                seconds_from(s, i + 1, Seq::empty(), total + number->0 * unit)
            } else {
                None
            },
        }
    }
}

/// The seconds of a duration.
pub open spec fn seconds_of(s: Seq<char>) -> Option<Result<int, DurationFault>> {
    seconds_from(s, 0, Seq::empty(), 0)
}

/// The value of digits that are read one by one, until it is too large.
fn with_digit(v: Option<u64>, d: u32, Ghost(digits): Ghost<Seq<char>>, Ghost(c): Ghost<char>) -> (r: Option<u64>)
    requires
        is_digit(c),
        d == c as u32 - 48,
        digits_value(digits) is Some,
        digits_value(digits)->0 >= 0,
        v is Some == (digits_value(digits)->0 <= u64::MAX),
        v is Some ==> v->0 == digits_value(digits)->0,
    ensures
        digits_value(digits.push(c)) is Some,
        digits_value(digits.push(c))->0 >= 0,
        r is Some == (digits_value(digits.push(c))->0 <= u64::MAX),
        r is Some ==> r->0 == digits_value(digits.push(c))->0,
{
    assert(digits.push(c).drop_last() =~= digits);
    match v {
        None => None,
        Some(v) => match v.checked_mul(10) {
            None => None,
            Some(t) => t.checked_add(d as u64),
        },
    }
}

/// Reads a duration in seconds; nothing where the seconds outgrow 64 bits.
pub fn parse_duration(s: &str) -> (r: Option<Result<u64, DurationError>>)
    ensures
        r is Some == seconds_of(s@) is Some,
        r is Some ==> (r->0 is Ok == seconds_of(s@)->0 is Ok),
        r is Some && r->0 is Ok ==> (r->0)->Ok_0 == (seconds_of(s@)->0)->Ok_0,
        r is Some && r->0 is Err ==> (r->0)->Err_0@ == (seconds_of(s@)->0)->Err_0,
{
    let chars = chars_of(s);
    let mut digits: Vec<char> = Vec::new();
    let mut number: Option<u64> = Some(0);
    let mut total: u64 = 0;
    let mut i: usize = 0;
    assert(digits@ =~= Seq::empty());
    while i < chars.len()
        invariant
            i <= chars@.len(),
            chars@ == s@,
            digits_value(digits@) is Some,
            digits_value(digits@)->0 >= 0,
            number is Some == (digits_value(digits@)->0 <= u64::MAX),
            number is Some ==> number->0 == digits_value(digits@)->0,
            seconds_from(s@, i as int, digits@, total as int) == seconds_of(s@),
        decreases chars@.len() - i,
    {
        let c = chars[i];
        match digit_of(c) {
            Some(d) => {
                number = with_digit(number, d, Ghost(digits@), Ghost(c));
                digits.push(c);
            },
            None => {
                let n = match number {
                    Some(n) if digits.len() > 0 => n,
                    _ => return Some(Err(DurationError::InvalidNumber(text_of(digits.as_slice())))),
                };
                let unit: u64 = if c == 'h' || c == 'H' {
                    3600
                } else if c == 'm' || c == 'M' {
                    60
                } else if c == 's' || c == 'S' {
                    1
                } else {
                    return Some(Err(DurationError::InvalidUnit(c)));
                };
                total = total.checked_add(n.checked_mul(unit)?)?;
                digits = Vec::new();
                number = Some(0);
                assert(digits@ =~= Seq::empty());
            },
        }
        i = i + 1;
    }
    if digits.len() > 0 {
        match number {
            Some(n) => {
                total = total.checked_add(n)?;
            },
            None => return Some(Err(DurationError::InvalidNumber(text_of(digits.as_slice())))),
        }
    }
    if total == 0 {
        return Some(Err(DurationError::Zero));
    }
    Some(Ok(total))
}

proof fn lemma_total_grows(s: Seq<char>, i: int, digits: Seq<char>, total: int)
    requires
        0 <= i <= s.len(),
    ensures
        seconds_from(s, i, digits, total) matches Some(Ok(x)) ==> x >= total,
    decreases s.len() - i,
{
    let number = number_up_to(digits, u64::MAX as int);
    lemma_number_not_negative(digits);
    if i < s.len() {
        if is_digit(s[i]) {
            lemma_total_grows(s, i + 1, digits.push(s[i]), total);
        } else if number is Some && unit_seconds(s[i]) is Some {
            let part = number->0 * unit_seconds(s[i])->0;
            assert(part >= 0) by (nonlinear_arith)
                requires
                    part == number->0 * unit_seconds(s[i])->0,
                    number->0 >= 0,
                    unit_seconds(s[i])->0 >= 0,
            ;
            lemma_total_grows(s, i + 1, Seq::empty(), total + part);
        }
    }
}

proof fn lemma_number_not_negative(digits: Seq<char>)
    ensures
        number_up_to(digits, u64::MAX as int) matches Some(n) ==> n >= 0,
{
    if number_up_to(digits, u64::MAX as int) is Some {
        lemma_digits_not_negative(digits);
    }
}

proof fn lemma_first_part(s: Seq<char>, t: Seq<char>, i: int, digits: Seq<char>, total: int)
    requires
        0 <= i <= s.len(),
        i == s.len() ==> digits.len() == 0,
        i < s.len() ==> !is_digit(s.last()),
    ensures
        seconds_from(s, i, digits, total) matches Some(Ok(x)) ==> seconds_from(s + t, i, digits, total)
            == seconds_from(s + t, s.len() as int, Seq::empty(), x),
    decreases s.len() - i,
{
    let number = number_up_to(digits, u64::MAX as int);
    if i < s.len() {
        assert((s + t)[i] == s[i]);
        if is_digit(s[i]) {
            lemma_first_part(s, t, i + 1, digits.push(s[i]), total);
        } else if number is Some && unit_seconds(s[i]) is Some {
            lemma_first_part(s, t, i + 1, Seq::empty(), total + number->0 * unit_seconds(s[i])->0);
        }
    } else {
        assert(digits =~= Seq::empty());
    }
}

proof fn lemma_second_part(s: Seq<char>, t: Seq<char>, i: int, digits: Seq<char>, total: int, x: int)
    requires
        0 <= i <= t.len(),
        0 <= x,
        0 <= total,
    ensures
        seconds_from(t, i, digits, total) matches Some(Ok(y)) ==> fits_u64(x + y) ==> seconds_from(
            s + t,
            s.len() + i,
            digits,
            x + total,
        ) == Some(Ok::<int, DurationFault>(x + y)),
    decreases t.len() - i,
{
    let number = number_up_to(digits, u64::MAX as int);
    lemma_number_not_negative(digits);
    if i < t.len() {
        assert((s + t)[s.len() + i] == t[i]);
        if is_digit(t[i]) {
            lemma_second_part(s, t, i + 1, digits.push(t[i]), total, x);
        } else if number is Some && unit_seconds(t[i]) is Some {
            let part = number->0 * unit_seconds(t[i])->0;
            assert(part >= 0) by (nonlinear_arith)
                requires
                    part == number->0 * unit_seconds(t[i])->0,
                    number->0 >= 0,
                    unit_seconds(t[i])->0 >= 0,
            ;
            lemma_second_part(s, t, i + 1, Seq::empty(), total + part, x);
            lemma_total_grows(t, i + 1, Seq::empty(), total + part);
            assert(x + total + part == x + (total + part));
        }
    }
}

/// Durations that are written one after the other add up, where the first ends
/// in a unit.
pub proof fn law_durations_add_up(s: Seq<char>, t: Seq<char>, x: int, y: int)
    requires
        s.len() > 0,
        !is_digit(s.last()),
        seconds_of(s) == Some(Ok::<int, DurationFault>(x)),
        seconds_of(t) == Some(Ok::<int, DurationFault>(y)),
        fits_u64(x + y),
    ensures
        seconds_of(s + t) == Some(Ok::<int, DurationFault>(x + y)),
{
    lemma_first_part(s, t, 0, Seq::empty(), 0);
    lemma_total_grows(s, 0, Seq::empty(), 0);
    lemma_second_part(s, t, 0, Seq::empty(), 0, x);
}

proof fn lemma_digits_read(s: Seq<char>, i: int, n: int, total: int)
    requires
        0 <= i <= n <= s.len(),
        forall|k: int| 0 <= k < n ==> is_digit(#[trigger] s[k]),
    ensures
        seconds_from(s, i, s.take(i), total) == seconds_from(s, n, s.take(n), total),
    decreases n - i,
{
    if i < n {
        assert(s.take(i).push(s[i]) =~= s.take(i + 1));
        lemma_digits_read(s, i + 1, n, total);
    }
}

/// A number before a unit counts that many hours, minutes or seconds, and one
/// without a unit counts seconds.
pub proof fn law_units_count_seconds(digits: Seq<char>, n: int)
    requires
        digits.len() > 0,
        forall|k: int| 0 <= k < digits.len() ==> is_digit(#[trigger] digits[k]),
        digits_value(digits) == Some(n),
        0 < n,
        n * 3600 <= u64::MAX,
    ensures
        seconds_of(digits.push('h')) == Some(Ok::<int, DurationFault>(n * 3600)),
        seconds_of(digits.push('H')) == Some(Ok::<int, DurationFault>(n * 3600)),
        seconds_of(digits.push('m')) == Some(Ok::<int, DurationFault>(n * 60)),
        seconds_of(digits.push('M')) == Some(Ok::<int, DurationFault>(n * 60)),
        seconds_of(digits.push('s')) == Some(Ok::<int, DurationFault>(n)),
        seconds_of(digits.push('S')) == Some(Ok::<int, DurationFault>(n)),
        seconds_of(digits) == Some(Ok::<int, DurationFault>(n)),
{
    lemma_one_unit(digits, 'h', n);
    lemma_one_unit(digits, 'H', n);
    lemma_one_unit(digits, 'm', n);
    lemma_one_unit(digits, 'M', n);
    lemma_one_unit(digits, 's', n);
    lemma_one_unit(digits, 'S', n);
    lemma_digits_read(digits, 0, digits.len() as int, 0);
    assert(digits.take(0) =~= Seq::empty());
    assert(digits.take(digits.len() as int) =~= digits);
}

proof fn lemma_one_unit(digits: Seq<char>, c: char, n: int)
    requires
        digits.len() > 0,
        forall|k: int| 0 <= k < digits.len() ==> is_digit(#[trigger] digits[k]),
        digits_value(digits) == Some(n),
        0 < n,
        n * 3600 <= u64::MAX,
        !is_digit(c),
        unit_seconds(c) is Some,
    ensures
        seconds_of(digits.push(c)) == Some(Ok::<int, DurationFault>(n * unit_seconds(c)->0)),
{
    let s = digits.push(c);
    lemma_digits_read(s, 0, digits.len() as int, 0);
    assert(s.take(0) =~= Seq::empty());
    assert(s.take(digits.len() as int) =~= digits);
    assert(s[digits.len() as int] == c);
    let unit = unit_seconds(c)->0;
    assert(0 < n * unit <= n * 3600) by (nonlinear_arith)
        requires
            0 < n,
            0 < unit <= 3600,
    ;
    assert(seconds_from(s, s.len() as int, Seq::empty(), n * unit) == Some(Ok::<int, DurationFault>(n * unit)));
}

proof fn lemma_digits_not_negative(digits: Seq<char>)
    ensures
        digits_value(digits) matches Some(n) ==> n >= 0,
    decreases digits.len(),
{
    if digits.len() > 0 {
        lemma_digits_not_negative(digits.drop_last());
    }
}

}
