//! What holds of arithmetic: the values of expressions, told by the integers that their
//! operands have.

use crate::arith::arith;
use crate::ast::Arith;
use crate::env::Shell;
use crate::error::ErrorView;
use crate::number::{decimal, decimal_read_back};
use crate::outcome::Outcome;
use crate::status::ExitStatus;
use vstd::arithmetic::power::pow;
use vstd::prelude::*;

verus! {

/// Whether an expression has a value, and leaves the shell like this.
pub open spec fn has_value(e: Arith, sh: Shell, v: isize, s1: Shell) -> bool {
    arith(e, sh) == (Outcome::Value(v), s1)
}

/// Whether an expression has this integer for its value, or none where no machine word
/// holds the integer. Either way it leaves the shell like this.
pub open spec fn amounts_to(e: Arith, sh: Shell, n: int, s1: Shell) -> bool {
    &&& arith(e, sh).1 == s1
    &&& match arith(e, sh).0 {
        Outcome::Value(v) => v == n,
        Outcome::Error(_) => false,
        Outcome::Undefined => n < isize::MIN || isize::MAX < n,
    }
}

/// A literal has its own value, and an expression without any part has the value zero.
pub proof fn literal_is_itself(n: isize, none: Vec<Arith>, sh: Shell)
    requires
        none@.len() == 0,
    ensures
        has_value(Arith::Literal(n), sh, n, sh),
        has_value(Arith::Sequence(none), sh, 0, sh),
{
    assert(crate::arith::arith_list(none@, 0, 0, sh) == (Outcome::Value(0isize), sh));
}

/// Each comparison is one where it holds between the operands and zero where it does not.
/// So exactly one of `<`, `==` and `>` is one, and each of the others is their opposite.
pub proof fn comparisons_compare(
    l: Box<Arith>,
    r: Box<Arith>,
    sh: Shell,
    a: isize,
    s1: Shell,
    b: isize,
    s2: Shell,
)
    requires
        has_value(*l, sh, a, s1),
        has_value(*r, s1, b, s2),
    ensures
        a < b ==> {
            &&& has_value(Arith::Less(l, r), sh, 1, s2)
            &&& has_value(Arith::LessEq(l, r), sh, 1, s2)
            &&& has_value(Arith::Great(l, r), sh, 0, s2)
            &&& has_value(Arith::GreatEq(l, r), sh, 0, s2)
            &&& has_value(Arith::Eq(l, r), sh, 0, s2)
            &&& has_value(Arith::NotEq(l, r), sh, 1, s2)
        },
        a == b ==> {
            &&& has_value(Arith::Less(l, r), sh, 0, s2)
            &&& has_value(Arith::LessEq(l, r), sh, 1, s2)
            &&& has_value(Arith::Great(l, r), sh, 0, s2)
            &&& has_value(Arith::GreatEq(l, r), sh, 1, s2)
            &&& has_value(Arith::Eq(l, r), sh, 1, s2)
            &&& has_value(Arith::NotEq(l, r), sh, 0, s2)
        },
        a > b ==> {
            &&& has_value(Arith::Less(l, r), sh, 0, s2)
            &&& has_value(Arith::LessEq(l, r), sh, 0, s2)
            &&& has_value(Arith::Great(l, r), sh, 1, s2)
            &&& has_value(Arith::GreatEq(l, r), sh, 1, s2)
            &&& has_value(Arith::Eq(l, r), sh, 0, s2)
            &&& has_value(Arith::NotEq(l, r), sh, 1, s2)
        },
{
}

/// A sum, a difference and a product are those of the integers, as far as a machine word
/// holds them.
pub proof fn sums_and_products(
    l: Box<Arith>,
    r: Box<Arith>,
    sh: Shell,
    a: isize,
    s1: Shell,
    b: isize,
    s2: Shell,
)
    requires
        has_value(*l, sh, a, s1),
        has_value(*r, s1, b, s2),
    ensures
        amounts_to(Arith::Add(l, r), sh, a + b, s2),
        amounts_to(Arith::Sub(l, r), sh, a - b, s2),
        amounts_to(Arith::Mult(l, r), sh, a * b, s2),
{
}

/// A quotient and a remainder belong together: the dividend is the divisor times the quotient
/// and the remainder, which is smaller than the divisor and has the sign of the dividend.
/// The divisor is evaluated first.
pub proof fn quotient_and_remainder(
    l: Box<Arith>,
    r: Box<Arith>,
    sh: Shell,
    b: isize,
    s1: Shell,
    a: isize,
    s2: Shell,
) -> (parts: (isize, isize))
    requires
        has_value(*r, sh, b, s1),
        b != 0,
        has_value(*l, s1, a, s2),
        a != isize::MIN || b != -1,
    ensures
        has_value(Arith::Div(l, r), sh, parts.0, s2),
        has_value(Arith::Modulo(l, r), sh, parts.1, s2),
        a == b * parts.0 + parts.1,
        b > 0 ==> -b < parts.1 < b,
        b < 0 ==> b < parts.1 < -b,
        a >= 0 ==> parts.1 >= 0,
        a <= 0 ==> parts.1 <= 0,
{
    let x: int = if a < 0 {
        -a
    } else {
        a as int
    };
    let y: int = if b < 0 {
        -b
    } else {
        b as int
    };
    let d = x / y;
    let m = x % y;
    vstd::arithmetic::div_mod::lemma_fundamental_div_mod(x, y);
    vstd::arithmetic::div_mod::lemma_mod_bound(x, y);
    vstd::arithmetic::div_mod::lemma_div_nonincreasing(x, y);
    vstd::arithmetic::div_mod::lemma_div_pos_is_pos(x, y);
    let q: int = if (a < 0) == (b < 0) {
        d
    } else {
        -d
    };
    assert(y >= 2 ==> 2 * d <= x) by (nonlinear_arith)
        requires
            x == y * d + m,
            0 <= m,
            0 <= d,
    ;
    assert(y == 1 ==> d == x) by (nonlinear_arith)
        requires
            x == y * d + m,
            0 <= m < y,
    ;
    assert(b * q == (if a < 0 {
        -(y * d)
    } else {
        y * d
    })) by (nonlinear_arith)
        requires
            y == (if b < 0 {
                -b
            } else {
                b as int
            }),
            q == (if (a < 0) == (b < 0) {
                d
            } else {
                -d
            }),
    ;
    assert(isize::MIN <= q <= isize::MAX);
    let parts = (q as isize, (a - b * q) as isize);
    parts
}

/// A division by zero is an error, whose status is recorded, and what is divided is not
/// evaluated. The smallest number divided by minus one has no value.
pub proof fn division_without_value(
    l: Box<Arith>,
    r: Box<Arith>,
    sh: Shell,
    b: isize,
    s1: Shell,
    s2: Shell,
)
    requires
        has_value(*r, sh, b, s1),
    ensures
        b == 0 ==> {
            let failed = (
                Outcome::<isize>::Error(ErrorView::DivideByZero),
                s1.with_status(ExitStatus::Code(1)),
            );
            &&& arith(Arith::Div(l, r), sh) == failed
            &&& arith(Arith::Modulo(l, r), sh) == failed
        },
        b == -1 && has_value(*l, s1, isize::MIN, s2) ==> {
            &&& arith(Arith::Div(l, r), sh) == (Outcome::<isize>::Undefined, s2)
            &&& arith(Arith::Modulo(l, r), sh) == (Outcome::<isize>::Undefined, s2)
        },
{
    let q = crate::arith::quotient(isize::MIN as int, -1);
    assert(crate::arith::magnitude(isize::MIN as int) / 1 == -(isize::MIN as int));
    assert(q == -(isize::MIN as int));
}

/// A power is the base multiplied by itself as often as the exponent says, as far as a machine
/// word holds it. Of an exponent only the lowest 32 bits count.
pub proof fn powers_multiply(
    l: Box<Arith>,
    r: Box<Arith>,
    sh: Shell,
    b: isize,
    s1: Shell,
    a: isize,
    s2: Shell,
)
    requires
        has_value(*r, sh, b, s1),
        has_value(*l, s1, a, s2),
        b >= 0,
    ensures
        b < 0x1_0000_0000 ==> amounts_to(Arith::Pow(l, r), sh, pow(a as int, b as nat), s2),
        b == 0 ==> has_value(Arith::Pow(l, r), sh, 1, s2),
        b == 1 ==> has_value(Arith::Pow(l, r), sh, a, s2),
        b == 2 ==> amounts_to(Arith::Pow(l, r), sh, a * a, s2),
        amounts_to(Arith::Pow(l, r), sh, pow(a as int, (b as int % 0x1_0000_0000) as nat), s2),
{
    vstd::arithmetic::power::lemma_pow0(a as int);
    vstd::arithmetic::power::lemma_pow1(a as int);
    if b == 2 {
        reveal(pow);
        assert(pow(a as int, 2) == a * pow(a as int, 1));
    }
}

/// One more in the exponent multiplies a power by its base.
pub proof fn next_power(
    l: Box<Arith>,
    r: Box<Arith>,
    more: Box<Arith>,
    sh: Shell,
    b: isize,
    s1: Shell,
    a: isize,
    s2: Shell,
    v: isize,
)
    requires
        has_value(*r, sh, b, s1),
        has_value(*more, sh, (b + 1) as isize, s1),
        has_value(*l, s1, a, s2),
        0 <= b < 0xffff_ffff,
        b < isize::MAX,
        has_value(Arith::Pow(l, r), sh, v, s2),
    ensures
        amounts_to(Arith::Pow(l, more), sh, a * v, s2),
{
    powers_multiply(l, r, sh, b, s1, a, s2);
    powers_multiply(l, more, sh, (b + 1) as isize, s1, a, s2);
    reveal(pow);
    assert(pow(a as int, (b + 1) as nat) == a * pow(a as int, b as nat));
}

/// A negative exponent is an error, whose status is recorded. The base is not evaluated.
pub proof fn negative_exponent_fails(
    l: Box<Arith>,
    r: Box<Arith>,
    sh: Shell,
    b: isize,
    s1: Shell,
)
    requires
        has_value(*r, sh, b, s1),
        b < 0,
    ensures
        arith(Arith::Pow(l, r), sh) == (
            Outcome::<isize>::Error(ErrorView::NegativeExponent),
            s1.with_status(ExitStatus::Code(1)),
        ),
{
}

/// Operators with one operand: `-` gives the number that makes zero with the operand,
/// `+` the one without a sign, `~` the one that makes minus one with it,
/// and `!` is one for zero and zero for any other number.
pub proof fn operators_with_one_operand(e: Box<Arith>, sh: Shell, a: isize, s1: Shell)
    requires
        has_value(*e, sh, a, s1),
    ensures
        amounts_to(Arith::UnaryMinus(e), sh, 0 - a, s1),
        a >= 0 ==> has_value(Arith::UnaryPlus(e), sh, a, s1),
        a < 0 ==> amounts_to(Arith::UnaryPlus(e), sh, 0 - a, s1),
        amounts_to(Arith::BitwiseNot(e), sh, -1 - a, s1),
        a == 0 ==> has_value(Arith::LogicalNot(e), sh, 1, s1),
        a != 0 ==> has_value(Arith::LogicalNot(e), sh, 0, s1),
{
    assert((a ^ !0isize) == -1 - a) by (bit_vector);
}

/// Whether the bit of a number at an index is set.
pub open spec fn bit(n: isize, i: isize) -> bool {
    (n >> i) & 1 == 1
}

/// `&`, `|` and `^` combine their operands bit by bit.
pub proof fn bits_are_combined(
    l: Box<Arith>,
    r: Box<Arith>,
    sh: Shell,
    a: isize,
    s1: Shell,
    b: isize,
    s2: Shell,
    i: isize,
) -> (found: (isize, isize, isize))
    requires
        has_value(*l, sh, a, s1),
        has_value(*r, s1, b, s2),
        0 <= i < isize::BITS,
    ensures
        has_value(Arith::BitwiseAnd(l, r), sh, found.0, s2),
        has_value(Arith::BitwiseOr(l, r), sh, found.1, s2),
        has_value(Arith::BitwiseXor(l, r), sh, found.2, s2),
        bit(found.0, i) == (bit(a, i) && bit(b, i)),
        bit(found.1, i) == (bit(a, i) || bit(b, i)),
        bit(found.2, i) == (bit(a, i) != bit(b, i)),
        found.0 + found.1 == a + b,
        found.2 == found.1 - found.0,
{
    let k = i as usize;
    assert((((a & b) >> k) & 1 == 1) == ((a >> k) & 1 == 1 && (b >> k) & 1 == 1)) by (bit_vector)
        requires
            k < usize::BITS,
    ;
    assert((((a | b) >> k) & 1 == 1) == ((a >> k) & 1 == 1 || (b >> k) & 1 == 1)) by (bit_vector)
        requires
            k < usize::BITS,
    ;
    assert((((a ^ b) >> k) & 1 == 1) == (((a >> k) & 1 == 1) != ((b >> k) & 1 == 1)))
        by (bit_vector)
        requires
            k < usize::BITS,
    ;
    assert((a & b) + (a | b) == a + b) by (bit_vector);
    assert((a ^ b) == (a | b) - (a & b)) by (bit_vector);
    (a & b, a | b, a ^ b)
}

/// A shift by nothing changes nothing. A shift to the right by one more halves, rounded down.
/// A shift to the left by one more doubles, where what a machine word does not hold is lost.
pub proof fn shifts_halve_and_double(
    l: Box<Arith>,
    r: Box<Arith>,
    more: Box<Arith>,
    sh: Shell,
    a: isize,
    s1: Shell,
    b: isize,
    s2: Shell,
) -> (found: (isize, isize, isize, isize))
    requires
        has_value(*l, sh, a, s1),
        has_value(*r, s1, b, s2),
        0 <= b < isize::BITS - 1,
        has_value(*more, s1, (b + 1) as isize, s2),
    ensures
        has_value(Arith::ShiftRight(l, r), sh, found.0, s2),
        has_value(Arith::ShiftRight(l, more), sh, found.1, s2),
        has_value(Arith::ShiftLeft(l, r), sh, found.2, s2),
        has_value(Arith::ShiftLeft(l, more), sh, found.3, s2),
        b == 0 ==> found.0 == a && found.2 == a,
        found.0 == 2 * found.1 || found.0 == 2 * found.1 + 1,
        isize::MIN <= 2 * found.2 <= isize::MAX ==> found.3 == 2 * found.2,
        2 * found.2 > isize::MAX ==> found.3 == 2 * found.2 - 2 * (isize::MAX + 1),
        2 * found.2 < isize::MIN ==> found.3 == 2 * found.2 + 2 * (isize::MAX + 1),
{
    let k = b as usize;
    let c = (b + 1) as usize;
    let x = a >> k;
    let y = a >> c;
    let v = a << k;
    let w = a << c;
    assert(y == x >> 1) by (bit_vector)
        requires
            k < usize::BITS - 1,
            c == k + 1,
            x == a >> k,
            y == a >> c,
    ;
    assert(x == 2 * (x >> 1) || x == 2 * (x >> 1) + 1) by (bit_vector);
    assert(w == v << 1) by (bit_vector)
        requires
            k < usize::BITS - 1,
            c == k + 1,
            v == a << k,
            w == a << c,
    ;
    lemma_doubled(v);
    assert(a >> 0usize == a) by (bit_vector);
    assert(a << 0usize == a) by (bit_vector);
    (x, y, v, w)
}

proof fn lemma_doubled(v: isize)
    ensures
        isize::MIN <= 2 * v <= isize::MAX ==> (v << 1) == 2 * v,
        2 * v > isize::MAX ==> (v << 1) == 2 * v - 2 * (isize::MAX + 1),
        2 * v < isize::MIN ==> (v << 1) == 2 * v + 2 * (isize::MAX + 1),
{
    if isize::BITS == 64 {
        assert(isize::MAX == 0x7fff_ffff_ffff_ffff);
        let x = v as i64;
        assert(-0x8000_0000_0000_0000 <= 2 * x <= 0x7fff_ffff_ffff_ffff ==> (x << 1) == 2 * x)
            by (bit_vector);
        assert(2 * x > 0x7fff_ffff_ffff_ffff ==> (x << 1) == 2 * x - 0x1_0000_0000_0000_0000)
            by (bit_vector);
        assert(2 * x < -0x8000_0000_0000_0000 ==> (x << 1) == 2 * x + 0x1_0000_0000_0000_0000)
            by (bit_vector);
        assert(isize::BITS == 64 ==> (v << 1) == ((v as i64) << 1)) by (bit_vector);
    } else {
        assert(isize::BITS == 32);
        let x = v as i32;
        assert(-0x8000_0000 <= 2 * x <= 0x7fff_ffff ==> (x << 1) == 2 * x) by (bit_vector);
        assert(2 * x > 0x7fff_ffff ==> (x << 1) == 2 * x - 0x1_0000_0000) by (bit_vector);
        assert(2 * x < -0x8000_0000 ==> (x << 1) == 2 * x + 0x1_0000_0000) by (bit_vector);
        assert(isize::BITS == 32 ==> (v << 1) == ((v as i32) << 1)) by (bit_vector);
    }
}

/// There is no shift by a negative number, or by as many bits as a machine word has.
pub proof fn shift_out_of_bounds(
    l: Box<Arith>,
    r: Box<Arith>,
    sh: Shell,
    a: isize,
    s1: Shell,
    b: isize,
    s2: Shell,
)
    requires
        has_value(*l, sh, a, s1),
        has_value(*r, s1, b, s2),
        b < 0 || b >= isize::BITS,
    ensures
        arith(Arith::ShiftLeft(l, r), sh) == (Outcome::<isize>::Undefined, s2),
        arith(Arith::ShiftRight(l, r), sh) == (Outcome::<isize>::Undefined, s2),
{
}

/// `&&` and `||` are one or zero, and evaluate their right operand
/// only where the left one does not decide.
pub proof fn logic_stops_early(l: Box<Arith>, r: Box<Arith>, sh: Shell, a: isize, s1: Shell)
    requires
        has_value(*l, sh, a, s1),
    ensures
        a == 0 ==> has_value(Arith::LogicalAnd(l, r), sh, 0, s1),
        a != 0 ==> has_value(Arith::LogicalOr(l, r), sh, 1, s1),
        forall|b: isize, s2: Shell| #[trigger]
            has_value(*r, s1, b, s2) ==> {
                let truth = if b == 0 {
                    0isize
                } else {
                    1isize
                };
                &&& a != 0 ==> has_value(Arith::LogicalAnd(l, r), sh, truth, s2)
                &&& a == 0 ==> has_value(Arith::LogicalOr(l, r), sh, truth, s2)
            },
{
}

/// `guard ? yes : no` is what the chosen part is after the guard. The other one is not evaluated.
pub proof fn choice_is_one_of_two(
    guard: Box<Arith>,
    yes: Box<Arith>,
    no: Box<Arith>,
    sh: Shell,
    g: isize,
    s1: Shell,
)
    requires
        has_value(*guard, sh, g, s1),
    ensures
        g != 0 ==> arith(Arith::Ternary(guard, yes, no), sh) == arith(*yes, s1),
        g == 0 ==> arith(Arith::Ternary(guard, yes, no), sh) == arith(*no, s1),
{
}

/// An assignment has the value of its expression, which the variable then holds in decimal.
/// No other variable changes.
pub proof fn assignment_holds_value(
    x: String,
    e: Box<Arith>,
    sh: Shell,
    v: isize,
    s1: Shell,
    other: Seq<char>,
)
    requires
        has_value(*e, sh, v, s1),
    ensures
        ({
            let (o, s2) = arith(Arith::Assign(x, e), sh);
            &&& o == Outcome::Value(v)
            &&& s2.var(x@) == Some(decimal(v as int))
            &&& other != x@ ==> s2.var(other) == s1.var(other)
            &&& s2.status == s1.status
        }),
{
}

/// A variable has the number that it holds in decimal. It has the value zero where it is unset,
/// or holds no digit, or anything but digits behind its first character.
pub proof fn variable_has_its_number(x: String, sh: Shell, n: isize, i: int)
    ensures
        sh.var(x@) == Some(decimal(n as int)) ==> has_value(Arith::Var(x), sh, n, sh),
        n >= 0 && sh.var(x@) == Some(seq!['+'] + decimal(n as int)) ==> has_value(
            Arith::Var(x),
            sh,
            n,
            sh,
        ),
        sh.var(x@) is None ==> has_value(Arith::Var(x), sh, 0, sh),
        sh.var(x@) matches Some(text) ==> {
            ||| text.len() == 0
            ||| 0 < i < text.len() && !('0' <= text[i] <= '9')
            ||| !('0' <= text[0] <= '9') && text[0] != '+' && text[0] != '-'
        } ==> has_value(Arith::Var(x), sh, 0, sh),
{
    decimal_read_back(n as int, isize::MIN as int, isize::MAX as int);
    if n >= 0 {
        let text = seq!['+'] + decimal(n as int);
        assert(text.skip(1) =~= decimal(n as int));
        assert(text[0] == '+');
        assert('0' <= decimal(n as int)[0]) by {
            crate::number::decimal_is_written_in_digits(n as int, 0);
        }
    }
    if sh.var(x@) is Some {
        let text = sh.var(x@)->0;
        if 0 < i < text.len() && !('0' <= text[i] <= '9') {
            assert(text.skip(1)[i - 1] == text[i]);
        }
    }
}

/// `x++` and `++x` add one to the number that a variable holds, `x--` and `--x` take one off.
/// The ones in front have the new number for their value, the ones behind the old one.
/// Where no machine word holds the new number there is no value, and nothing changes.
pub proof fn variable_is_counted(x: String, sh: Shell, n: isize, other: Seq<char>)
    requires
        sh.var(x@) == Some(decimal(n as int)) || n == 0 && sh.var(x@) is None,
    ensures
        counted(Arith::PostIncr(x), x@, sh, n as int, n + 1, other),
        counted(Arith::PreIncr(x), x@, sh, n + 1, n + 1, other),
        counted(Arith::PostDecr(x), x@, sh, n as int, n - 1, other),
        counted(Arith::PreDecr(x), x@, sh, n - 1, n - 1, other),
{
    decimal_read_back(n as int, isize::MIN as int, isize::MAX as int);
}

/// Whether an expression has a value and leaves a variable with another one.
pub open spec fn counted(
    e: Arith,
    x: Seq<char>,
    sh: Shell,
    value: int,
    held: int,
    other: Seq<char>,
) -> bool {
    let (o, s1) = arith(e, sh);
    if isize::MIN <= held <= isize::MAX {
        &&& o matches Outcome::Value(v) && v == value
        &&& s1.var(x) == Some(decimal(held))
        &&& other != x ==> s1.var(other) == sh.var(other)
        &&& s1.status == sh.status
    } else {
        o is Undefined && s1 == sh
    }
}

/// Expressions one after the other have the value of the last one,
/// and are evaluated each after the ones in front of it.
pub proof fn last_expression_counts(
    exprs: Vec<Arith>,
    all: Vec<Arith>,
    e: Arith,
    sh: Shell,
)
    requires
        all@ == exprs@.push(e),
    ensures
        ({
            let (o, s1) = arith(Arith::Sequence(exprs), sh);
            arith(Arith::Sequence(all), sh) == (if o is Value {
                arith(e, s1)
            } else {
                (o, s1)
            })
        }),
{
    lemma_last_expression(exprs@, all@, e, 0, 0, sh);
}

proof fn lemma_last_expression(
    exprs: Seq<Arith>,
    all: Seq<Arith>,
    e: Arith,
    i: nat,
    last: isize,
    sh: Shell,
)
    requires
        all == exprs.push(e),
        i <= exprs.len(),
    ensures
        ({
            let (o, s1) = crate::arith::arith_list(exprs, i, last, sh);
            crate::arith::arith_list(all, i, last, sh) == (if o is Value {
                arith(e, s1)
            } else {
                (o, s1)
            })
        }),
    decreases exprs.len() - i,
{
    let (o, s1) = arith(all[i as int], sh);
    if i < exprs.len() {
        assert(all[i as int] == exprs[i as int]);
        if o is Value {
            lemma_last_expression(exprs, all, e, i + 1, o->Value_0, s1);
        }
    } else {
        assert(all[i as int] == e);
        if o is Value {
            assert(crate::arith::arith_list(all, i + 1, o->Value_0, s1) == (o, s1));
        }
    }
}

/// The operators that evaluate their left operand first and then the right one.
pub open spec fn left_first(e: Arith, l: Box<Arith>, r: Box<Arith>) -> bool {
    ||| e == Arith::Less(l, r)
    ||| e == Arith::LessEq(l, r)
    ||| e == Arith::Great(l, r)
    ||| e == Arith::GreatEq(l, r)
    ||| e == Arith::Eq(l, r)
    ||| e == Arith::NotEq(l, r)
    ||| e == Arith::Mult(l, r)
    ||| e == Arith::Add(l, r)
    ||| e == Arith::Sub(l, r)
    ||| e == Arith::ShiftLeft(l, r)
    ||| e == Arith::ShiftRight(l, r)
    ||| e == Arith::BitwiseAnd(l, r)
    ||| e == Arith::BitwiseXor(l, r)
    ||| e == Arith::BitwiseOr(l, r)
}

/// Where an operand has no value, an expression has the outcome of that operand,
/// and nothing is evaluated after it.
pub proof fn operand_without_value(e: Arith, l: Box<Arith>, r: Box<Arith>, sh: Shell)
    ensures
        ({
            let (o, s1) = arith(*l, sh);
            &&& left_first(e, l, r) && o !is Value ==> arith(e, sh) == (o, s1)
            &&& left_first(e, l, r) && o is Value && arith(*r, s1).0 !is Value ==> arith(e, sh)
                == arith(*r, s1)
            &&& o !is Value ==> {
                &&& arith(Arith::LogicalAnd(l, r), sh) == (o, s1)
                &&& arith(Arith::LogicalOr(l, r), sh) == (o, s1)
                &&& arith(Arith::UnaryMinus(l), sh) == (o, s1)
                &&& arith(Arith::UnaryPlus(l), sh) == (o, s1)
                &&& arith(Arith::LogicalNot(l), sh) == (o, s1)
                &&& arith(Arith::BitwiseNot(l), sh) == (o, s1)
                &&& forall|yes: Box<Arith>, no: Box<Arith>|
                    (#[trigger] arith(Arith::Ternary(l, yes, no), sh)) == (o, s1)
                &&& forall|x: String| (#[trigger] arith(Arith::Assign(x, l), sh)) == (o, s1)
            }
            &&& o is Value && o->Value_0 != 0 && arith(*r, s1).0 !is Value ==> arith(
                Arith::LogicalAnd(l, r),
                sh,
            ) == arith(*r, s1)
            &&& o is Value && o->Value_0 == 0 && arith(*r, s1).0 !is Value ==> arith(
                Arith::LogicalOr(l, r),
                sh,
            ) == arith(*r, s1)
        }),
        ({
            let (o, s1) = arith(*r, sh);
            &&& o !is Value ==> {
                &&& arith(Arith::Pow(l, r), sh) == (o, s1)
                &&& arith(Arith::Div(l, r), sh) == (o, s1)
                &&& arith(Arith::Modulo(l, r), sh) == (o, s1)
            }
            &&& o is Value && o->Value_0 > 0 && arith(*l, s1).0 !is Value ==> {
                &&& arith(Arith::Pow(l, r), sh) == arith(*l, s1)
                &&& arith(Arith::Div(l, r), sh) == arith(*l, s1)
                &&& arith(Arith::Modulo(l, r), sh) == arith(*l, s1)
            }
        }),
{
}

} // verus!
