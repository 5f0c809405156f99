//! Text as sequences of characters: parts, replacements and decimal numbers.
use vstd::prelude::*;

verus! {

/// `String::push` of std appends one character to the text.
pub assume_specification[ String::push ](s: &mut String, c: char)
    ensures
        final(s)@ == old(s)@.push(c),
;

/// The characters of a text.
pub fn chars_of(s: &str) -> (r: Vec<char>)
    ensures
        r@ == s@,
{
    let mut out: Vec<char> = Vec::new();
    for c in it: s.chars()
        invariant
            it.seq() == s@,
            out@ == s@.take(it.index()),
    {
        out.push(c);
    }
    assert(s@.take(s@.len() as int) =~= s@);
    out
}

/// The text of some characters.
pub fn text_of(chars: &[char]) -> (r: String)
    ensures
        r@ == chars@,
{
    let mut s = String::new();
    let mut i: usize = 0;
    while i < chars.len()
        invariant
            i <= chars.len(),
            s@ =~= chars@.take(i as int),
        decreases chars.len() - i,
    {
        s.push(chars[i]);
        i = i + 1;
    }
    assert(chars@.take(i as int) =~= chars@);
    s
}

/// What the texts of a list hold.
pub open spec fn text_views(texts: Seq<String>) -> Seq<Seq<char>> {
    texts.map_values(|t: String| t@)
}

/// The text that two texts make together.
pub fn joined(a: &str, b: &str) -> (r: String)
    ensures
        r@ == a@ + b@,
{
    let mut s = a.to_owned();
    s.append(b);
    s
}

/// A text with one character in place of another.
pub open spec fn with_replaced(s: Seq<char>, from: char, to: char) -> Seq<char> {
    s.map_values(
        |c: char|
            if c == from {
                to
            } else {
                c
            },
    )
}

pub fn replace_char(s: &str, from: char, to: char) -> (r: String)
    ensures
        r@ == with_replaced(s@, from, to),
{
    let chars = chars_of(s);
    let mut out = String::new();
    let mut i: usize = 0;
    while i < chars.len()
        invariant
            i <= chars.len(),
            chars@ == s@,
            out@ =~= with_replaced(s@, from, to).take(i as int),
        decreases chars.len() - i,
    {
        if chars[i] == from {
            out.push(to);
        } else {
            out.push(chars[i]);
        }
        i = i + 1;
    }
    assert(with_replaced(s@, from, to).take(i as int) =~= with_replaced(s@, from, to));
    out
}

/// Whether a part stands in a text at a place.
pub open spec fn occurs_at(s: Seq<char>, part: Seq<char>, i: int) -> bool {
    0 <= i && i + part.len() <= s.len() && s.subrange(i, i + part.len()) == part
}

/// Whether a part stands anywhere in a text.
pub open spec fn holds_part(s: Seq<char>, part: Seq<char>) -> bool {
    exists|i: int| occurs_at(s, part, i)
}

fn stands_at(s: &Vec<char>, part: &Vec<char>, at: usize) -> (r: bool)
    requires
        at + part@.len() <= s@.len(),
    ensures
        r == occurs_at(s@, part@, at as int),
{
    let mut k: usize = 0;
    while k < part.len()
        invariant
            k <= part.len(),
            at + part.len() <= s.len(),
            forall|j: int| 0 <= j < k ==> s@[at + j] == part@[j],
        decreases part@.len() - k,
    {
        if s[at + k] != part[k] {
            assert(s@.subrange(at as int, at + part@.len())[k as int] != part@[k as int]);
            return false;
        }
        k = k + 1;
    }
    assert(s@.subrange(at as int, at + part@.len()) =~= part@);
    true
}

pub fn contains_part(s: &str, part: &str) -> (r: bool)
    ensures
        r == holds_part(s@, part@),
{
    let text = chars_of(s);
    let needle = chars_of(part);
    let mut i: usize = 0;
    while i < text.len() && needle.len() <= text.len() - i
        invariant
            i <= text.len(),
            text@ == s@,
            needle@ == part@,
            forall|k: int| 0 <= k < i ==> !occurs_at(s@, part@, k),
        decreases text.len() - i,
    {
        if stands_at(&text, &needle, i) {
            assert(occurs_at(s@, part@, i as int));
            return true;
        }
        i = i + 1;
    }
    if needle.len() == 0 {
        assert(s@.subrange(i as int, i as int) =~= part@);
        assert(occurs_at(s@, part@, i as int));
    }
    needle.len() == 0
}

/// A text without any number of leading `0x`.
pub open spec fn without_hex_prefix(s: Seq<char>) -> Seq<char>
    decreases s.len(),
{
    if s.len() >= 2 && s[0] == '0' && s[1] == 'x' {
        without_hex_prefix(s.skip(2))
    } else {
        s
    }
}

pub fn trim_hex_prefix(s: &str) -> (r: String)
    ensures
        r@ == without_hex_prefix(s@),
{
    let chars = chars_of(s);
    let mut i: usize = 0;
    proof {
        assert(s@.skip(0) =~= s@);
    }
    while chars.len() - i >= 2 && chars[i] == '0' && chars[i + 1] == 'x'
        invariant
            i <= chars@.len(),
            chars@ == s@,
            without_hex_prefix(s@.skip(i as int)) == without_hex_prefix(s@),
        decreases chars@.len() - i,
    {
        proof {
            assert(s@.skip(i as int).skip(2) =~= s@.skip(i + 2));
        }
        i = i + 2;
    }
    let mut out = String::new();
    let start = i;
    while i < chars.len()
        invariant
            start <= i <= chars@.len(),
            chars@ == s@,
            out@ =~= s@.subrange(start as int, i as int),
        decreases chars@.len() - i,
    {
        out.push(chars[i]);
        i = i + 1;
    }
    assert(s@.subrange(start as int, i as int) =~= s@.skip(start as int));
    out
}

/// The number of bytes of a character in UTF-8.
pub open spec fn byte_width(c: char) -> int {
    if (c as u32) < 0x80 {
        1
    } else if (c as u32) < 0x800 {
        2
    } else if (c as u32) < 0x1_0000 {
        3
    } else {
        4
    }
}

/// The characters that fill exactly the first `n` bytes of a text; nothing
/// where those bytes end inside a character or behind the text.
pub open spec fn byte_prefix(s: Seq<char>, n: int) -> Option<Seq<char>>
    decreases s.len(),
{
    if n == 0 {
        Some(Seq::empty())
    } else if s.len() == 0 || byte_width(s[0]) > n {
        None
    } else {
        match byte_prefix(s.skip(1), n - byte_width(s[0])) {
            Some(rest) => Some(seq![s[0]] + rest),
            None => None,
        }
    }
}

fn width_of(c: char) -> (r: usize)
    ensures
        r == byte_width(c),
{
    let code = c as u32;
    if code < 0x80 {
        1
    } else if code < 0x800 {
        2
    } else if code < 0x1_0000 {
        3
    } else {
        4
    }
}

/// The text of the first `n` bytes.
pub fn try_byte_prefix(s: &str, n: usize) -> (r: Option<String>)
    ensures
        r is Some == byte_prefix(s@, n as int) is Some,
        r is Some ==> r->0@ == byte_prefix(s@, n as int)->0,
{
    let chars = chars_of(s);
    let mut out = String::new();
    let mut left: usize = n;
    let mut i: usize = 0;
    proof {
        assert(s@.skip(0) =~= s@);
        if byte_prefix(s@, n as int) is Some {
            assert(out@ + byte_prefix(s@, n as int)->0 =~= byte_prefix(s@, n as int)->0);
        }
    }
    while left > 0
        invariant
            i <= chars@.len(),
            chars@ == s@,
            byte_prefix(s@, n as int) is Some == byte_prefix(s@.skip(i as int), left as int) is Some,
            byte_prefix(s@, n as int) is Some ==> byte_prefix(s@, n as int)->0 == out@ + byte_prefix(
                s@.skip(i as int),
                left as int,
            )->0,
        decreases left,
    {
        if i >= chars.len() {
            return None;
        }
        let w = width_of(chars[i]);
        if w > left {
            return None;
        }
        let ghost before = out@;
        out.push(chars[i]);
        proof {
            let rest = s@.skip(i as int);
            assert(rest.skip(1) =~= s@.skip(i + 1));
            if byte_prefix(s@, n as int) is Some {
                let tail = byte_prefix(rest.skip(1), left - w)->0;
                assert(before + (seq![rest[0]] + tail) =~= out@ + tail);
            }
        }
        left = left - w;
        i = i + 1;
    }
    assert(out@ + Seq::<char>::empty() =~= out@);
    Some(out)
}

/// The number of bytes of a text in UTF-8.
pub open spec fn byte_len(s: Seq<char>) -> int
    decreases s.len(),
{
    if s.len() == 0 {
        0
    } else {
        byte_width(s[0]) + byte_len(s.skip(1))
    }
}

/// Whether a text holds at least `n` bytes.
pub fn has_bytes(s: &str, n: usize) -> (r: bool)
    ensures
        r == (byte_len(s@) >= n),
{
    let chars = chars_of(s);
    let mut left: usize = n;
    let mut i: usize = 0;
    proof {
        assert(s@.skip(0) =~= s@);
    }
    while i < chars.len()
        invariant
            i <= chars@.len(),
            chars@ == s@,
            (byte_len(s@) >= n) == (byte_len(s@.skip(i as int)) >= left),
        decreases chars@.len() - i,
    {
        let w = width_of(chars[i]);
        proof {
            assert(s@.skip(i as int).skip(1) =~= s@.skip(i + 1));
            lemma_byte_len_nonnegative(s@.skip(i + 1));
        }
        if w >= left {
            return true;
        }
        left = left - w;
        i = i + 1;
    }
    left == 0
}

proof fn lemma_byte_len_nonnegative(s: Seq<char>)
    ensures
        byte_len(s) >= 0,
    decreases s.len(),
{
    if s.len() > 0 {
        lemma_byte_len_nonnegative(s.skip(1));
    }
}

/// The character of a decimal digit.
pub open spec fn digit_char(d: int) -> char {
    (48 + d) as char
}

fn to_digit_char(d: u32) -> (r: char)
    requires
        d < 10,
    ensures
        r == digit_char(d as int),
{
    match d {
        0 => '0',
        1 => '1',
        2 => '2',
        3 => '3',
        4 => '4',
        5 => '5',
        6 => '6',
        7 => '7',
        8 => '8',
        _ => '9',
    }
}

/// A number in decimal.
pub open spec fn decimal(n: nat) -> Seq<char>
    decreases n,
{
    if n < 10 {
        seq![digit_char(n as int)]
    } else {
        decimal(n / 10).push(digit_char((n % 10) as int))
    }
}

/// A number in decimal with zeros before it up to four digits.
pub open spec fn four_digits(n: nat) -> Seq<char> {
    let d = decimal(n);
    if d.len() >= 4 {
        d
    } else {
        Seq::new((4 - d.len()) as nat, |i: int| '0') + d
    }
}

fn decimal_chars(n: u64) -> (r: Vec<char>)
    ensures
        r@ == decimal(n as nat),
    decreases n,
{
    if n < 10 {
        let mut v: Vec<char> = Vec::new();
        v.push(to_digit_char(n as u32));
        assert(v@ =~= decimal(n as nat));
        v
    } else {
        let mut v = decimal_chars(n / 10);
        v.push(to_digit_char((n % 10) as u32));
        v
    }
}

/// A number in decimal.
pub fn decimal_text(n: u64) -> (r: String)
    ensures
        r@ == decimal(n as nat),
{
    text_of(decimal_chars(n).as_slice())
}

/// A number in decimal with zeros before it up to four digits.
pub fn padded(n: u64) -> (r: String)
    ensures
        r@ == four_digits(n as nat),
{
    let d = decimal_chars(n);
    let mut out: Vec<char> = Vec::new();
    while out.len() + d.len() < 4
        invariant
            out.len() + d.len() <= 4 || out.len() == 0,
            forall|i: int| 0 <= i < out@.len() ==> out@[i] == '0',
            d@ == decimal(n as nat),
            out@.len() <= 4,
        decreases 4 - out@.len(),
    {
        out.push('0');
    }
    let ghost zeros = out@;
    let mut i: usize = 0;
    while i < d.len()
        invariant
            i <= d@.len(),
            out@ =~= zeros + d@.take(i as int),
        decreases d@.len() - i,
    {
        out.push(d[i]);
        i = i + 1;
    }
    proof {
        assert(d@.take(i as int) =~= d@);
        assert(out@ =~= four_digits(n as nat));
    }
    text_of(out.as_slice())
}

/// Whether a character is a decimal digit.
pub open spec fn is_digit(c: char) -> bool {
    48 <= c as u32 <= 57
}

/// The value of a run of decimal digits; nothing where another character
/// stands among them.
pub open spec fn digits_value(s: Seq<char>) -> Option<int>
    decreases s.len(),
{
    if s.len() == 0 {
        Some(0)
    } else {
        match digits_value(s.drop_last()) {
            Some(v) => if is_digit(s.last()) {
                Some(10 * v + (s.last() as u32 - 48))
            } else {
                None
            },
            None => None,
        }
    }
}

/// The number that digits spell: at least one of them, and at most `max`.
pub open spec fn number_up_to(s: Seq<char>, max: int) -> Option<int> {
    match digits_value(s) {
        Some(v) => if s.len() > 0 && v <= max {
            Some(v)
        } else {
            None
        },
        None => None,
    }
}

pub fn digit_of(c: char) -> (r: Option<u32>)
    ensures
        r is Some == is_digit(c),
        r is Some ==> r->0 == c as u32 - 48,
{
    let code = c as u32;
    if 48 <= code && code <= 57 {
        Some(code - 48)
    } else {
        None
    }
}

proof fn lemma_digits_grow(s: Seq<char>, n: int)
    requires
        0 <= n <= s.len(),
        digits_value(s) is Some,
    ensures
        digits_value(s.take(n)) is Some,
        0 <= digits_value(s.take(n))->0 <= digits_value(s)->0,
    decreases s.len(),
{
    if n == s.len() {
        assert(s.take(n) =~= s);
        if n > 0 {
            lemma_digits_grow(s.drop_last(), 0);
        }
    } else {
        lemma_digits_grow(s.drop_last(), n);
        assert(s.drop_last().take(n) =~= s.take(n));
    }
}

/// Reads digits from a place on.
fn parse_digits(chars: &Vec<char>, from: usize, max: u128) -> (r: Option<u128>)
    requires
        from <= chars@.len(),
        max <= u64::MAX,
    ensures
        r is Some == number_up_to(chars@.skip(from as int), max as int) is Some,
        r is Some ==> r->0 == number_up_to(chars@.skip(from as int), max as int)->0,
{
    let ghost s = chars@.skip(from as int);
    if from == chars.len() {
        return None;
    }
    let mut v: u128 = 0;
    let mut i: usize = from;
    assert(s.take(0) =~= Seq::empty());
    while i < chars.len()
        invariant
            from <= i <= chars@.len(),
            from < chars@.len(),
            s == chars@.skip(from as int),
            digits_value(s.take(i - from)) == Some(v as int),
            v <= max <= u64::MAX,
        decreases chars@.len() - i,
    {
        let ghost next = s.take(i - from + 1);
        proof {
            assert(next.drop_last() =~= s.take(i - from));
            assert(next.last() == chars@[i as int]);
        }
        let d = match digit_of(chars[i]) {
            Some(d) => d,
            None => {
                proof {
                    if digits_value(s) is Some {
                        lemma_digits_grow(s, i - from + 1);
                    }
                }
                return None;
            },
        };
        v = 10 * v + d as u128;
        if v > max {
            proof {
                if digits_value(s) is Some {
                    lemma_digits_grow(s, i - from + 1);
                }
            }
            return None;
        }
        i = i + 1;
    }
    assert(s.take(i - from) =~= s);
    Some(v)
}

/// The unsigned number of a text: digits, with a plus sign or none.
pub open spec fn u64_value(s: Seq<char>) -> Option<int> {
    if s.len() > 0 && s[0] == '+' {
        number_up_to(s.skip(1), u64::MAX as int)
    } else {
        number_up_to(s, u64::MAX as int)
    }
}

pub fn parse_u64(s: &str) -> (r: Option<u64>)
    ensures
        r is Some == u64_value(s@) is Some,
        r is Some ==> r->0 == u64_value(s@)->0,
{
    let chars = chars_of(s);
    let from: usize = if chars.len() > 0 && chars[0] == '+' {
        1
    } else {
        0
    };
    assert(s@.skip(0) =~= s@);
    match parse_digits(&chars, from, u64::MAX as u128) {
        Some(v) => Some(v as u64),
        None => None,
    }
}

/// The signed number of a text: digits, with a sign or none.
pub open spec fn i64_value(s: Seq<char>) -> Option<int> {
    if s.len() > 0 && s[0] == '-' {
        match number_up_to(s.skip(1), 0x8000_0000_0000_0000) {
            Some(v) => Some(-v),
            None => None,
        }
    } else if s.len() > 0 && s[0] == '+' {
        number_up_to(s.skip(1), i64::MAX as int)
    } else {
        number_up_to(s, i64::MAX as int)
    }
}

pub fn parse_i64(s: &str) -> (r: Option<i64>)
    ensures
        r is Some == i64_value(s@) is Some,
        r is Some ==> r->0 == i64_value(s@)->0,
{
    let chars = chars_of(s);
    assert(s@.skip(0) =~= s@);
    if chars.len() > 0 && chars[0] == '-' {
        let v = parse_digits(&chars, 1, 0x8000_0000_0000_0000)?;
        if v == 0 {
            Some(0)
        } else {
            Some(-((v - 1) as i64) - 1)
        }
    } else if chars.len() > 0 && chars[0] == '+' {
        let v = parse_digits(&chars, 1, 0x7fff_ffff_ffff_ffff)?;
        Some(v as i64)
    } else {
        let v = parse_digits(&chars, 0, 0x7fff_ffff_ffff_ffff)?;
        Some(v as i64)
    }
}

/// A number that is written out reads back as the same number.
pub proof fn law_decimal_reads_back(n: nat)
    ensures
        digits_value(decimal(n)) == Some(n as int),
        decimal(n).len() > 0,
        n <= u64::MAX ==> u64_value(decimal(n)) == Some(n as int),
        n <= i64::MAX ==> i64_value(decimal(n)) == Some(n as int),
        n <= 0x8000_0000_0000_0000 ==> i64_value(seq!['-'] + decimal(n)) == Some(-(n as int)),
{
    lemma_decimal_spells(n);
    let d = decimal(n);
    assert(is_digit(d[0]));
    assert((seq!['-'] + d).skip(1) =~= d);
}

proof fn lemma_decimal_spells(n: nat)
    ensures
        digits_value(decimal(n)) == Some(n as int),
        decimal(n).len() > 0,
        forall|k: int| 0 <= k < decimal(n).len() ==> is_digit(#[trigger] decimal(n)[k]),
    decreases n,
{
    let d = decimal(n);
    reveal_with_fuel(digits_value, 2);
    if n >= 10 {
        lemma_decimal_spells(n / 10);
        assert(d.drop_last() =~= decimal(n / 10));
    } else {
        assert(d.drop_last() =~= Seq::empty());
    }
}

/// The characters of the first bytes of a text start the text and fill just
/// those bytes.
pub proof fn lemma_byte_prefix(s: Seq<char>, n: int)
    requires
        n >= 0,
        byte_prefix(s, n) is Some,
    ensures
        byte_prefix(s, n)->0.is_prefix_of(s),
        byte_len(byte_prefix(s, n)->0) == n,
    decreases s.len(),
{
    let p = byte_prefix(s, n)->0;
    if n > 0 {
        let rest = byte_prefix(s.skip(1), n - byte_width(s[0]))->0;
        lemma_byte_prefix(s.skip(1), n - byte_width(s[0]));
        assert(p.skip(1) =~= rest);
        assert forall|i: int| 0 <= i < p.len() implies p[i] == s[i] by {
            if i > 0 {
                assert(rest[i - 1] == s.skip(1)[i - 1]);
            }
        }
        assert(p =~= s.take(p.len() as int));
    } else {
        assert(p =~= s.take(0));
    }
}

}
