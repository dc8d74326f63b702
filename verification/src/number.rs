//! Numbers in text.

use vstd::prelude::*;

verus! {

/// Whether `c` is a decimal digit.
pub open spec fn is_digit(c: char) -> bool {
    '0' <= c <= '9'
}

/// Whether `s` is a sequence of at least one digit.
pub open spec fn is_number(s: Seq<char>) -> bool {
    s.len() > 0 && forall|i: int| 0 <= i < s.len() ==> is_digit(#[trigger] s[i])
}

/// The number that a sequence of digits denotes.
pub open spec fn digits_value(s: Seq<char>) -> nat
    decreases s.len(),
{
    if s.len() == 0 {
        0
    } else {
        10 * digits_value(s.drop_last()) + (s.last() as nat - '0' as nat) as nat
    }
}

/// Whether `s` starts with a sign.
pub open spec fn has_sign(s: Seq<char>) -> bool {
    s.len() > 0 && (s[0] == '+' || s[0] == '-')
}

/// `s` without its sign.
pub open spec fn unsigned(s: Seq<char>) -> Seq<char> {
    if has_sign(s) {
        s.drop_first()
    } else {
        s
    }
}

/// The whole number that `s` denotes: digits after an optional sign.
pub open spec fn signed_value(s: Seq<char>) -> int {
    if s.len() > 0 && s[0] == '-' {
        -digits_value(unsigned(s))
    } else {
        digits_value(unsigned(s)) as int
    }
}

/// The whole number that `s` denotes, where it denotes one that fits.
pub open spec fn parsed(s: Seq<char>) -> Option<i32> {
    if is_number(unsigned(s)) && i32::MIN <= signed_value(s) <= i32::MAX {
        Some(signed_value(s) as i32)
    } else {
        None
    }
}

/// Reads a whole number: digits after an optional sign.
pub fn parse_i32(text: &str) -> (res: Option<i32>)
    ensures
        res == parsed(text@),
{
    let len: usize = text.unicode_len();
    if len == 0 {
        return None;
    }
    let head: char = text.get_char(0);
    let start: usize = if head == '+' || head == '-' {
        1
    } else {
        0
    };
    let ghost digits = unsigned(text@);
    assert(digits =~= text@.skip(start as int));
    if start == len {
        return None;
    }
    // Beyond this no further digit brings the number back into range.
    let limit: u64 = 0x1_0000_0000;
    let mut value: u64 = 0;
    let mut i: usize = start;
    assert(digits.take(0) =~= Seq::<char>::empty());
    while i < len
        invariant
            start <= i <= len,
            start <= 1,
            len == text@.len(),
            limit == 0x1_0000_0000,
            digits == unsigned(text@),
            digits == text@.skip(start as int),
            forall|k: int| 0 <= k < i - start ==> is_digit(#[trigger] digits[k]),
            value <= limit,
            value < limit ==> value == digits_value(digits.take(i - start)),
            value == limit ==> digits_value(digits.take(i - start)) >= limit,
        decreases len - i,
    {
        let c: char = text.get_char(i);
        assert(c == digits[i - start]);
        if c < '0' || c > '9' {
            assert(!is_digit(digits[i - start]));
            return None;
        }
        let digit: u64 = (c as u32 - '0' as u32) as u64;
        let ghost before = digits.take(i - start);
        let ghost after = digits.take(i + 1 - start);
        assert(after.drop_last() =~= before);
        assert(after.last() == c);
        value = if value < limit && 10 * value + digit < limit {
            10 * value + digit
        } else {
            limit
        };
        i = i + 1;
    }
    assert(digits.take(len - start) =~= digits);
    if head == '-' {
        if value <= 0x8000_0000 {
            Some((-(value as i64)) as i32)
        } else {
            None
        }
    } else if value <= 0x7FFF_FFFF {
        Some(value as i32)
    } else {
        None
    }
}

// ── Writing numbers ────────────────────────────────────────────────────────

/// The character of a decimal digit.
pub open spec fn digit_char(d: nat) -> char {
    ('0' as nat + d) as char
}

/// The digits of a number.
pub open spec fn decimal(n: nat) -> Seq<char>
    decreases n,
{
    if n < 10 {
        seq![digit_char(n)]
    } else {
        decimal(n / 10).push(digit_char(n % 10))
    }
}

fn digit_text(d: u64) -> (res: &'static str)
    requires
        d < 10,
    ensures
        res@ == seq![digit_char(d as nat)],
{
    proof {
        reveal_strlit("0");
        reveal_strlit("1");
        reveal_strlit("2");
        reveal_strlit("3");
        reveal_strlit("4");
        reveal_strlit("5");
        reveal_strlit("6");
        reveal_strlit("7");
        reveal_strlit("8");
        reveal_strlit("9");
    }
    let res: &'static str = match d {
        0 => "0",
        1 => "1",
        2 => "2",
        3 => "3",
        4 => "4",
        5 => "5",
        6 => "6",
        7 => "7",
        8 => "8",
        _ => "9",
    };
    assert(res@ =~= seq![digit_char(d as nat)]);
    res
}

/// Writes the digits of a number at the end of `text`.
pub fn append_decimal(text: &mut String, n: u64)
    ensures
        final(text)@ == old(text)@ + decimal(n as nat),
    decreases n,
{
    if n >= 10 {
        append_decimal(text, n / 10);
    }
    text.append(digit_text(n % 10));
    assert(text@ =~= old(text)@ + decimal(n as nat));
}

/// A sign in front of a number below zero.
pub open spec fn sign_of(n: int) -> Seq<char> {
    if n < 0 {
        "-"@
    } else {
        ""@
    }
}

/// How far a number is from zero.
pub open spec fn distance_from_zero(n: int) -> nat {
    if n < 0 {
        (-n) as nat
    } else {
        n as nat
    }
}

/// A text that holds the sign of `n`, and how far `n` is from zero.
pub fn signed(n: i64) -> (res: (String, u64))
    ensures
        res.0@ == sign_of(n as int),
        res.1 == distance_from_zero(n as int),
{
    if n < 0 {
        ("-".to_owned(), (-(n + 1)) as u64 + 1)
    } else {
        ("".to_owned(), n as u64)
    }
}

/// A number that is written reads back as itself.
pub proof fn written_numbers_read_back(n: nat)
    ensures
        is_number(decimal(n)),
        digits_value(decimal(n)) == n,
        n <= i32::MAX ==> parsed(decimal(n)) == Some(n as i32),
    decreases n,
{
    reveal_with_fuel(digits_value, 2);
    if n < 10 {
        assert(decimal(n).drop_last() =~= Seq::<char>::empty());
    } else {
        written_numbers_read_back(n / 10);
        assert(decimal(n).drop_last() =~= decimal(n / 10));
        assert forall|i: int| 0 <= i < decimal(n).len() implies is_digit(
            #[trigger] decimal(n)[i],
        ) by {
            if i < decimal(n / 10).len() {
                assert(decimal(n)[i] == decimal(n / 10)[i]);
            }
        }
    }
    assert(is_digit(decimal(n)[0]));
    assert(unsigned(decimal(n)) == decimal(n));
}

/// A number that is written with its sign reads back as itself.
pub proof fn signed_numbers_read_back(n: i32)
    ensures
        parsed(sign_of(n as int) + decimal(distance_from_zero(n as int))) == Some(n),
{
    let digits = decimal(distance_from_zero(n as int));
    let text = sign_of(n as int) + digits;
    written_numbers_read_back(distance_from_zero(n as int));
    reveal_strlit("-");
    reveal_strlit("");
    if n < 0 {
        assert(text[0] == '-');
        assert(text.drop_first() =~= digits);
    } else {
        assert(text =~= digits);
    }
}

/// A plus sign in front of digits changes nothing.
pub proof fn plus_sign_changes_nothing(n: nat)
    ensures
        parsed(seq!['+'] + decimal(n)) == parsed(decimal(n)),
{
    let text = seq!['+'] + decimal(n);
    written_numbers_read_back(n);
    assert(text.drop_first() =~= decimal(n));
    assert(is_digit(decimal(n)[0]));
    assert(unsigned(decimal(n)) == decimal(n));
}

/// A text with anything but digits behind its first character is no number, nor
/// is one without a digit, nor one that starts with anything but a digit or sign.
pub proof fn other_texts_are_no_numbers(s: Seq<char>)
    ensures
        (exists|i: int| 1 <= i < s.len() && !('0' <= #[trigger] s[i] <= '9')) ==> parsed(s) is None,
        (s.len() == 0 || (s.len() == 1 && !('0' <= s[0] <= '9'))) ==> parsed(s) is None,
        s.len() > 0 && s[0] != '+' && s[0] != '-' && !('0' <= s[0] <= '9') ==> parsed(s) is None,
{
    let rest = unsigned(s);
    if exists|i: int| 1 <= i < s.len() && !('0' <= #[trigger] s[i] <= '9') {
        let i = choose|i: int| 1 <= i < s.len() && !('0' <= #[trigger] s[i] <= '9');
        if has_sign(s) {
            assert(rest[i - 1] == s[i]);
        } else {
            assert(rest[i] == s[i]);
        }
    }
    if s.len() > 0 && !has_sign(s) {
        assert(rest[0] == s[0]);
    }
}

} // verus!
