//! Decimal numbers: how integers are written, and how they are read back.

use crate::text::chars_of;
use vstd::prelude::*;

verus! {

/// The character of a decimal digit.
pub open spec fn digit(d: int) -> char
    recommends
        0 <= d < 10,
{
    (48 + d) as char
}

/// The decimal digits of a natural number.
pub open spec fn digits(n: nat) -> Seq<char>
    decreases n,
{
    if n < 10 {
        seq![digit(n as int)]
    } else {
        digits(n / 10).push(digit((n % 10) as int))
    }
}

/// An integer in decimal, with a sign only where it is negative.
pub open spec fn decimal(n: int) -> Seq<char> {
    if n < 0 {
        seq!['-'] + digits((-n) as nat)
    } else {
        digits(n as nat)
    }
}

/// Whether a text has at least one character and all of them are decimal digits.
pub open spec fn is_digits(s: Seq<char>) -> bool {
    &&& s.len() > 0
    &&& forall|i: int| 0 <= i < s.len() ==> '0' <= #[trigger] s[i] <= '9'
}

/// The number that a sequence of decimal digits stands for.
pub open spec fn digits_value(s: Seq<char>) -> int
    decreases s.len(),
{
    if s.len() == 0 {
        0
    } else {
        10 * digits_value(s.drop_last()) + (s.last() as int - 48)
    }
}

/// The number that a text stands for: digits, after a `+` or, where `signed`, a `-`.
/// There is none where the text has another form, or the number is out of bounds.
pub open spec fn parsed(s: Seq<char>, signed: bool, min: int, max: int) -> Option<int> {
    let negative = signed && s.len() > 0 && s[0] == '-';
    let rest = if negative || (s.len() > 0 && s[0] == '+') {
        s.skip(1)
    } else {
        s
    };
    let value = if negative {
        -digits_value(rest)
    } else {
        digits_value(rest)
    };
    if is_digits(rest) && min <= value <= max {
        Some(value)
    } else {
        None
    }
}

fn push_digits(s: &mut String, n: u128)
    ensures
        final(s)@ == old(s)@ + digits(n as nat),
    decreases n,
{
    if n >= 10 {
        push_digits(s, n / 10);
    }
    let d: u8 = (n % 10) as u8;
    let ghost before = s@;
    s.push((48 + d) as char);
    assert(s@ =~= old(s)@ + digits(n as nat));
}

/// Writes an integer in decimal.
pub fn to_decimal(n: i128) -> (s: String)
    requires
        n > i128::MIN,
    ensures
        s@ == decimal(n as int),
{
    let mut s = String::new();
    if n < 0 {
        s.push('-');
        push_digits(&mut s, (-n) as u128);
        assert(s@ =~= decimal(n as int));
    } else {
        push_digits(&mut s, n as u128);
        assert(s@ =~= decimal(n as int));
    }
    s
}

/// Reads a decimal number that lies within the given bounds.
pub fn parse_decimal(s: &str, signed: bool, min: i128, max: i128) -> (n: Option<i128>)
    requires
        -0x1_0000_0000_0000_0000 <= min,
        max <= 0x1_0000_0000_0000_0000,
    ensures
        n is Some <==> parsed(s@, signed, min as int, max as int) is Some,
        n matches Some(v) ==> parsed(s@, signed, min as int, max as int) == Some(v as int),
{
    let chars = chars_of(s);
    let negative: bool = signed && chars.len() > 0 && chars[0] == '-';
    let start: usize = if negative || (chars.len() > 0 && chars[0] == '+') {
        1
    } else {
        0
    };
    let ghost rest = s@.skip(start as int);
    assert(start == 0 ==> rest =~= s@);
    if start >= chars.len() {
        return None;
    }
    let mut value: i128 = 0;
    let mut i: usize = start;
    while i < chars.len()
        invariant
            chars@ == s@,
            0 <= start <= i <= chars@.len(),
            rest == s@.skip(start as int),
            forall|j: int| 0 <= j < i - start ==> '0' <= #[trigger] rest[j] <= '9',
            value == digits_value(rest.take(i - start)),
            0 <= value <= 0x1_0000_0000_0000_0000,
            start < chars@.len(),
            negative == (signed && s@.len() > 0 && s@[0] == '-'),
            start == (if negative || (s@.len() > 0 && s@[0] == '+') {
                1int
            } else {
                0int
            }),
            start == 0 ==> rest == s@,
            -0x1_0000_0000_0000_0000 <= min,
            max <= 0x1_0000_0000_0000_0000,
        decreases chars.len() - i,
    {
        let c = chars[i];
        assert(rest[i - start] == c);
        if !('0' <= c && c <= '9') {
            return None;
        }
        assert(rest.take(i + 1 - start).drop_last() =~= rest.take(i - start));
        value = 10 * value + (c as u32 - 48) as i128;
        i = i + 1;
        if value > 0x1_0000_0000_0000_0000 {
            proof {
                if is_digits(rest) {
                    lemma_digits_value_grows(rest, i - start);
                }
            }
            return None;
        }
    }
    assert(rest.take(i - start) =~= rest);
    let signed_value: i128 = if negative {
        -value
    } else {
        value
    };
    if min <= signed_value && signed_value <= max {
        Some(signed_value)
    } else {
        None
    }
}

/// More digits never stand for a smaller number.
proof fn lemma_digits_value_grows(s: Seq<char>, n: int)
    requires
        is_digits(s),
        0 <= n <= s.len(),
    ensures
        0 <= digits_value(s.take(n)) <= digits_value(s),
    decreases s.len() - n, n,
{
    if n == s.len() {
        assert(s.take(n) =~= s);
        if n > 0 {
            let shorter = s.take(n - 1);
            assert(s.drop_last() =~= shorter);
            lemma_digits_value_not_negative(shorter);
        }
    } else {
        lemma_digits_value_grows(s, n + 1);
        assert(s.take(n + 1).drop_last() =~= s.take(n));
        lemma_digits_value_not_negative(s.take(n));
    }
}

proof fn lemma_digits_value_not_negative(s: Seq<char>)
    requires
        forall|i: int| 0 <= i < s.len() ==> '0' <= #[trigger] s[i] <= '9',
    ensures
        digits_value(s) >= 0,
    decreases s.len(),
{
    if s.len() > 0 {
        lemma_digits_value_not_negative(s.drop_last());
    }
}

proof fn lemma_digits_read_back(n: nat)
    ensures
        is_digits(digits(n)),
        digits_value(digits(n)) == n,
    decreases n,
{
    if n >= 10 {
        lemma_digits_read_back(n / 10);
        let s = digits(n);
        assert(s.drop_last() =~= digits(n / 10));
        assert(s.last() == digit((n % 10) as int));
    } else {
        let s = digits(n);
        assert(s.drop_last() =~= Seq::<char>::empty());
        assert(digits_value(s.drop_last()) == 0);
    }
}

/// What is written of an integer in decimal is read back as that integer.
pub proof fn decimal_read_back(n: int, min: int, max: int)
    requires
        min <= n <= max,
    ensures
        parsed(decimal(n), true, min, max) == Some(n),
        n >= 0 ==> parsed(decimal(n), false, min, max) == Some(n),
{
    if n < 0 {
        lemma_digits_read_back((-n) as nat);
        assert(decimal(n).skip(1) =~= digits((-n) as nat));
        assert(decimal(n)[0] == '-');
    } else {
        lemma_digits_read_back(n as nat);
        assert('0' <= decimal(n)[0] <= '9');
    }
}

/// Integers that differ are written differently.
pub proof fn decimal_is_injective(a: int, b: int)
    requires
        decimal(a) == decimal(b),
    ensures
        a == b,
{
    let min = if a < b {
        a
    } else {
        b
    };
    let max = if a < b {
        b
    } else {
        a
    };
    decimal_read_back(a, min, max);
    decimal_read_back(b, min, max);
}

/// A number from zero to nine is written as its digit, and any other one as what it is written
/// without its last digit, and that digit behind it. A negative one has a minus sign in front.
pub proof fn decimal_appends_digits(n: int, d: int)
    requires
        0 <= n,
        0 <= d < 10,
    ensures
        decimal(d).len() == 1,
        decimal(d)[0] as int == '0' as int + d,
        n > 0 ==> decimal(10 * n + d) == decimal(n) + decimal(d),
        n > 0 ==> decimal(-n) == seq!['-'] + decimal(n),
{
    if n > 0 {
        let m = (10 * n + d) as nat;
        assert(m / 10 == n as nat && m % 10 == d as nat);
        assert(digits(m) =~= decimal(n) + decimal(d));
    }
}

/// A number that is not negative is written in digits only.
pub proof fn decimal_is_written_in_digits(n: int, i: int)
    requires
        0 <= n,
    ensures
        decimal(n).len() > 0,
        0 <= i < decimal(n).len() ==> '0' <= decimal(n)[i] <= '9',
{
    lemma_digits_read_back(n as nat);
}

/// Reading: one more digit makes a number ten times as large, and adds the digit. A `+` in front
/// does not matter, and a `-` makes it negative where signs are read. There is no number
/// where there is no digit, or anything else behind a sign, or where it is out of bounds.
pub proof fn digits_are_read(s: Seq<char>, c: char, d: int, min: int, max: int, i: int)
    requires
        0 <= d < 10,
        c as int == '0' as int + d,
    ensures
        parsed(seq![c], false, min, max) == (if min <= d <= max {
            Some(d)
        } else {
            None
        }),
        parsed(s, false, 0, max) matches Some(n) ==> parsed(s.push(c), false, 0, max) == (if 10 * n
            + d <= max {
            Some(10 * n + d)
        } else {
            None
        }),
        s.len() > 0 && '0' <= s[0] <= '9' ==> {
            &&& parsed(seq!['+'] + s, false, min, max) == parsed(s, false, min, max)
            &&& parsed(seq!['+'] + s, true, min, max) == parsed(s, true, min, max)
            &&& parsed(s, true, min, max) == parsed(s, false, min, max)
            &&& parsed(seq!['-'] + s, true, -max, -min) == (match parsed(s, false, min, max) {
                Some(n) => Some(-n),
                None => None,
            })
        },
        parsed(seq!['-'] + s, false, min, max) is None,
        parsed(Seq::empty(), true, min, max) is None,
        0 < i < s.len() && !('0' <= s[i] <= '9') ==> parsed(s, true, min, max) is None && parsed(
            s,
            false,
            min,
            max,
        ) is None,
        s.len() > 0 && !('0' <= s[0] <= '9') && s[0] != '+' ==> parsed(s, false, min, max) is None,
{
    let one = seq![c];
    assert(one.drop_last() =~= Seq::<char>::empty());
    assert(digits_value(one.drop_last()) == 0);
    assert(digits_value(one) == d);
    assert(one[0] == c);
    if parsed(s, false, 0, max) is Some {
        lemma_digit_pushed(s, c, max);
    }
    assert((seq!['+'] + s).skip(1) =~= s);
    assert((seq!['-'] + s).skip(1) =~= s);
    assert((seq!['-'] + s)[0] == '-');
    assert((seq!['+'] + s)[0] == '+');
    if 0 < i < s.len() {
        assert(s.skip(1)[i - 1] == s[i]);
    }
}

proof fn lemma_digit_pushed(s: Seq<char>, c: char, max: int)
    requires
        '0' <= c <= '9',
        parsed(s, false, 0, max) is Some,
    ensures
        ({
            let n = 10 * parsed(s, false, 0, max)->0 + (c as int - 48);
            parsed(s.push(c), false, 0, max) == (if n <= max {
                Some(n)
            } else {
                None
            })
        }),
{
    let plus = s.len() > 0 && s[0] == '+';
    let rest = if plus {
        s.skip(1)
    } else {
        s
    };
    let more = if plus {
        s.push(c).skip(1)
    } else {
        s.push(c)
    };
    assert(more =~= rest.push(c));
    assert(rest.push(c).drop_last() =~= rest);
    assert(s.push(c)[0] == s[0]);
    assert forall|j: int| 0 <= j < more.len() implies '0' <= #[trigger] more[j] <= '9' by {
        if j < rest.len() {
            assert(more[j] == rest[j]);
        }
    }
    lemma_digits_value_not_negative(rest);
}

} // verus!
