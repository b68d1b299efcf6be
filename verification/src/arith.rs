//! The evaluation of arithmetic expressions.

use crate::ast::Arith;
use crate::env::{Environment, Shell};
use crate::error::{ErrorView, RuntimeError};
use crate::number::{decimal, parse_decimal, parsed, to_decimal};
use crate::outcome::{defined_result, evaluated, outcome_of, Abort, Outcome};
use crate::status::{ExitStatus, EXIT_ERROR};
use std::rc::Rc;
use vstd::arithmetic::power::pow;
use vstd::prelude::*;

verus! {

/// A number, where a machine word holds it.
pub open spec fn in_word(n: int) -> Outcome<isize> {
    if isize::MIN <= n <= isize::MAX {
        Outcome::Value(n as isize)
    } else {
        Outcome::Undefined
    }
}

/// The number for a truth value.
pub open spec fn truth(b: bool) -> isize {
    if b {
        1
    } else {
        0
    }
}

/// The quotient of two integers, rounded towards zero.
pub open spec fn quotient(a: int, b: int) -> int {
    let magnitude = magnitude(a) / magnitude(b);
    if (a < 0) == (b < 0) {
        magnitude
    } else {
        -magnitude
    }
}

/// An integer without its sign.
pub open spec fn magnitude(n: int) -> int {
    if n < 0 {
        -n
    } else {
        n
    }
}

/// The value of a variable in an expression: the number that it holds, or zero.
pub open spec fn variable(sh: Shell, name: Seq<char>) -> isize {
    match sh.var(name) {
        Some(text) => match parsed(text, true, isize::MIN as int, isize::MAX as int) {
            Some(n) => n as isize,
            None => 0,
        },
        None => 0,
    }
}

/// The step of a variable: a value is assigned, and it or another one is the result.
pub open spec fn stepped(sh: Shell, name: Seq<char>, assigned: int, result: int) -> (
    Outcome<isize>,
    Shell,
) {
    if isize::MIN <= assigned <= isize::MAX {
        (in_word(result), sh.with_var(name, decimal(assigned)))
    } else {
        (Outcome::Undefined, sh)
    }
}

/// The value of an operator that has one operand.
pub open spec fn unary(expr: Arith, v: isize) -> Outcome<isize> {
    match expr {
        Arith::UnaryPlus(_) => in_word(magnitude(v as int)),
        Arith::UnaryMinus(_) => in_word(-v),
        Arith::BitwiseNot(_) => Outcome::Value(v ^ !0isize),
        Arith::LogicalNot(_) => Outcome::Value(truth(v == 0)),
        _ => Outcome::Undefined,
    }
}

/// The value of an operator that has two operands, both of which are needed.
pub open spec fn binary(expr: Arith, l: isize, r: isize) -> Outcome<isize> {
    match expr {
        Arith::Less(_, _) => Outcome::Value(truth(l < r)),
        Arith::LessEq(_, _) => Outcome::Value(truth(l <= r)),
        Arith::Great(_, _) => Outcome::Value(truth(l > r)),
        Arith::GreatEq(_, _) => Outcome::Value(truth(l >= r)),
        Arith::Eq(_, _) => Outcome::Value(truth(l == r)),
        Arith::NotEq(_, _) => Outcome::Value(truth(l != r)),
        Arith::Mult(_, _) => in_word(l * r),
        Arith::Add(_, _) => in_word(l + r),
        Arith::Sub(_, _) => in_word(l - r),
        Arith::ShiftLeft(_, _) => if 0 <= r < isize::BITS {
            Outcome::Value(l << r)
        } else {
            Outcome::Undefined
        },
        Arith::ShiftRight(_, _) => if 0 <= r < isize::BITS {
            Outcome::Value(l >> r)
        } else {
            Outcome::Undefined
        },
        Arith::BitwiseAnd(_, _) => Outcome::Value(l & r),
        Arith::BitwiseXor(_, _) => Outcome::Value(l ^ r),
        Arith::BitwiseOr(_, _) => Outcome::Value(l | r),
        _ => Outcome::Undefined,
    }
}

/// The error of an operator whose right operand is not allowed.
pub open spec fn bad_right_operand(expr: Arith, r: isize) -> Option<ErrorView> {
    match expr {
        Arith::Pow(_, _) => if r < 0 {
            Some(ErrorView::NegativeExponent)
        } else {
            None
        },
        _ => if r == 0 {
            Some(ErrorView::DivideByZero)
        } else {
            None
        },
    }
}

/// The value of an operator whose right operand is looked at first.
/// Of an exponent only the lowest 32 bits count.
pub open spec fn guarded(expr: Arith, l: isize, r: isize) -> Outcome<isize> {
    match expr {
        Arith::Pow(_, _) => in_word(pow(l as int, (r as int % 0x1_0000_0000) as nat)),
        Arith::Div(_, _) => in_word(quotient(l as int, r as int)),
        _ => if l == isize::MIN && r == -1 {
            Outcome::Undefined
        } else {
            in_word(l - r * quotient(l as int, r as int))
        },
    }
}

/// What an expression evaluates to, and the shell afterwards.
pub open spec fn arith(expr: Arith, sh: Shell) -> (Outcome<isize>, Shell)
    decreases expr, 0nat,
{
    match expr {
        Arith::Literal(n) => (Outcome::Value(n), sh),
        Arith::Var(x) => (Outcome::Value(variable(sh, x@)), sh),
        Arith::PostIncr(x) => {
            let v = variable(sh, x@);
            stepped(sh, x@, v + 1, v as int)
        },
        Arith::PostDecr(x) => {
            let v = variable(sh, x@);
            stepped(sh, x@, v - 1, v as int)
        },
        Arith::PreIncr(x) => {
            let v = variable(sh, x@);
            stepped(sh, x@, v + 1, v + 1)
        },
        Arith::PreDecr(x) => {
            let v = variable(sh, x@);
            stepped(sh, x@, v - 1, v - 1)
        },
        Arith::UnaryPlus(e)
        | Arith::UnaryMinus(e)
        | Arith::BitwiseNot(e)
        | Arith::LogicalNot(e) => {
            let (o, s1) = arith(*e, sh);
            match o {
                Outcome::Value(v) => (unary(expr, v), s1),
                _ => (o, s1),
            }
        },
        Arith::Less(left, right)
        | Arith::LessEq(left, right)
        | Arith::Great(left, right)
        | Arith::GreatEq(left, right)
        | Arith::Eq(left, right)
        | Arith::NotEq(left, right)
        | Arith::Mult(left, right)
        | Arith::Add(left, right)
        | Arith::Sub(left, right)
        | Arith::ShiftLeft(left, right)
        | Arith::ShiftRight(left, right)
        | Arith::BitwiseAnd(left, right)
        | Arith::BitwiseXor(left, right)
        | Arith::BitwiseOr(left, right) => {
            let (o, s1) = arith(*left, sh);
            match o {
                Outcome::Value(l) => {
                    let (o, s2) = arith(*right, s1);
                    match o {
                        Outcome::Value(r) => (binary(expr, l, r), s2),
                        _ => (o, s2),
                    }
                },
                _ => (o, s1),
            }
        },
        Arith::Pow(left, right) | Arith::Div(left, right) | Arith::Modulo(left, right) => {
            let (o, s1) = arith(*right, sh);
            match o {
                Outcome::Value(r) => match bad_right_operand(expr, r) {
                    Some(e) => (Outcome::Error(e), s1.with_status(ExitStatus::Code(EXIT_ERROR))),
                    None => {
                        let (o, s2) = arith(*left, s1);
                        match o {
                            Outcome::Value(l) => (guarded(expr, l, r), s2),
                            _ => (o, s2),
                        }
                    },
                },
                _ => (o, s1),
            }
        },
        Arith::LogicalAnd(left, right) => {
            let (o, s1) = arith(*left, sh);
            match o {
                Outcome::Value(l) => if l != 0 {
                    let (o, s2) = arith(*right, s1);
                    match o {
                        Outcome::Value(r) => (Outcome::Value(truth(r != 0)), s2),
                        _ => (o, s2),
                    }
                } else {
                    (Outcome::Value(0), s1)
                },
                _ => (o, s1),
            }
        },
        Arith::LogicalOr(left, right) => {
            let (o, s1) = arith(*left, sh);
            match o {
                Outcome::Value(l) => if l == 0 {
                    let (o, s2) = arith(*right, s1);
                    match o {
                        Outcome::Value(r) => (Outcome::Value(truth(r != 0)), s2),
                        _ => (o, s2),
                    }
                } else {
                    (Outcome::Value(1), s1)
                },
                _ => (o, s1),
            }
        },
        Arith::Ternary(guard, yes, no) => {
            let (o, s1) = arith(*guard, sh);
            match o {
                Outcome::Value(g) => if g != 0 {
                    arith(*yes, s1)
                } else {
                    arith(*no, s1)
                },
                _ => (o, s1),
            }
        },
        Arith::Assign(x, e) => {
            let (o, s1) = arith(*e, sh);
            match o {
                Outcome::Value(v) => (o, s1.with_var(x@, decimal(v as int))),
                _ => (o, s1),
            }
        },
        Arith::Sequence(exprs) => arith_list(exprs@, 0, 0, sh),
    }
}

/// What a list of expressions evaluates to from an index on: the value of the last one,
/// or the given one where none is left.
pub open spec fn arith_list(exprs: Seq<Arith>, i: nat, last: isize, sh: Shell) -> (
    Outcome<isize>,
    Shell,
)
    decreases exprs, exprs.len() - i,
{
    if i >= exprs.len() {
        (Outcome::Value(last), sh)
    } else {
        let (o, s1) = arith(exprs[i as int], sh);
        match o {
            Outcome::Value(v) => arith_list(exprs, i + 1, v, s1),
            _ => (o, s1),
        }
    }
}

impl Arith {
    /// Evaluates an arithmetic expression in the context of an environment.
    /// A mutable reference to the environment is needed since an arithmetic
    /// expression could mutate environment variables.
    pub fn eval<E: Environment>(&self, env: &mut E) -> (result: Result<isize, RuntimeError>)
        requires
            arith(*self, old(env).state().shell).0 !is Undefined,
        ensures
            evaluated(
                *old(env),
                *final(env),
                defined_result(result),
                arith(*self, old(env).state().shell),
            ),
    {
        match self.try_eval(env) {
            Ok(value) => Ok(value),
            Err(Abort::Error(e)) => Err(e),
            Err(Abort::Undefined) => vstd::pervasive::unreached(),
        }
    }

    /// Evaluates an arithmetic expression, and says where nothing is defined for it.
    pub fn try_eval<E: Environment>(&self, env: &mut E) -> (result: Result<isize, Abort>)
        ensures
            evaluated(
                *old(env),
                *final(env),
                outcome_of(result),
                arith(*self, old(env).state().shell),
            ),
        decreases self,
    {
        match self {
            Arith::Literal(n) => Ok(*n),
            Arith::Var(x) => Ok(get_var(env, x)),
            Arith::PostIncr(x) => {
                let v = get_var(env, x);
                step_var(env, x, v as i128 + 1, v)
            },
            Arith::PostDecr(x) => {
                let v = get_var(env, x);
                step_var(env, x, v as i128 - 1, v)
            },
            Arith::PreIncr(x) => {
                let v = get_var(env, x) as i128 + 1;
                assign_var(env, x, v)
            },
            Arith::PreDecr(x) => {
                let v = get_var(env, x) as i128 - 1;
                assign_var(env, x, v)
            },
            Arith::UnaryPlus(e)
            | Arith::UnaryMinus(e)
            | Arith::BitwiseNot(e)
            | Arith::LogicalNot(e) => {
                let v = e.try_eval(env)?;
                apply_unary(self, v)
            },
            Arith::Less(left, right)
            | Arith::LessEq(left, right)
            | Arith::Great(left, right)
            | Arith::GreatEq(left, right)
            | Arith::Eq(left, right)
            | Arith::NotEq(left, right)
            | Arith::Mult(left, right)
            | Arith::Add(left, right)
            | Arith::Sub(left, right)
            | Arith::ShiftLeft(left, right)
            | Arith::ShiftRight(left, right)
            | Arith::BitwiseAnd(left, right)
            | Arith::BitwiseXor(left, right)
            | Arith::BitwiseOr(left, right) => {
                let l = left.try_eval(env)?;
                let r = right.try_eval(env)?;
                apply_binary(self, l, r)
            },
            Arith::Pow(left, right) => {
                let r = right.try_eval(env)?;
                if r < 0 {
                    env.set_last_status(ExitStatus::Code(EXIT_ERROR));
                    Err(Abort::Error(RuntimeError::NegativeExponent))
                } else {
                    let l = left.try_eval(env)?;
                    apply_guarded(self, l, r)
                }
            },
            Arith::Div(left, right) | Arith::Modulo(left, right) => {
                let r = right.try_eval(env)?;
                if r == 0 {
                    env.set_last_status(ExitStatus::Code(EXIT_ERROR));
                    Err(Abort::Error(RuntimeError::DivideByZero))
                } else {
                    let l = left.try_eval(env)?;
                    apply_guarded(self, l, r)
                }
            },
            Arith::LogicalAnd(left, right) => {
                if left.try_eval(env)? != 0 {
                    Ok(to_number(right.try_eval(env)? != 0))
                } else {
                    Ok(0)
                }
            },
            Arith::LogicalOr(left, right) => {
                if left.try_eval(env)? == 0 {
                    Ok(to_number(right.try_eval(env)? != 0))
                } else {
                    Ok(1)
                }
            },
            Arith::Ternary(guard, yes, no) => {
                if guard.try_eval(env)? != 0 {
                    yes.try_eval(env)
                } else {
                    no.try_eval(env)
                }
            },
            Arith::Assign(x, e) => {
                let v = e.try_eval(env)?;
                assign_var(env, x, v as i128)
            },
            Arith::Sequence(exprs) => {
                let mut last: isize = 0;
                let mut i: usize = 0;
                let ghost start = env.state();
                while i < exprs.len()
                    invariant
                        0 <= i <= exprs@.len(),
                        *self == Arith::Sequence(*exprs),
                        start == old(env).state(),
                        env.state() == start.with_shell(env.state().shell),
                        arith_list(exprs@, 0, 0, start.shell) == arith_list(
                            exprs@,
                            i as nat,
                            last,
                            env.state().shell,
                        ),
                    decreases exprs.len() - i,
                {
                    assert(decreases_to!(*self => self->Sequence_0));
                    assert(decreases_to!(exprs => exprs@));
                    assert(decreases_to!(exprs@ => exprs@[i as int]));
                    last = exprs[i].try_eval(env)?;
                    i = i + 1;
                }
                Ok(last)
            },
        }
    }
}

fn get_var<E: Environment>(env: &E, name: &String) -> (value: isize)
    ensures
        value == variable(env.state().shell, name@),
{
    match env.var(name.as_str()) {
        Some(text) => match parse_decimal(
            text.as_str(),
            true,
            isize::MIN as i128,
            isize::MAX as i128,
        ) {
            Some(n) => n as isize,
            None => 0,
        },
        None => 0,
    }
}

fn step_var<E: Environment>(env: &mut E, name: &String, assigned: i128, result: isize) -> (r: Result<
    isize,
    Abort,
>)
    ensures
        evaluated(
            *old(env),
            *final(env),
            outcome_of(r),
            stepped(old(env).state().shell, name@, assigned as int, result as int),
        ),
{
    if isize::MIN as i128 <= assigned && assigned <= isize::MAX as i128 {
        env.set_var(name.clone(), Rc::new(to_decimal(assigned)));
        Ok(result)
    } else {
        Err(Abort::Undefined)
    }
}

fn assign_var<E: Environment>(env: &mut E, name: &String, assigned: i128) -> (r: Result<
    isize,
    Abort,
>)
    ensures
        evaluated(
            *old(env),
            *final(env),
            outcome_of(r),
            stepped(old(env).state().shell, name@, assigned as int, assigned as int),
        ),
{
    if isize::MIN as i128 <= assigned && assigned <= isize::MAX as i128 {
        step_var(env, name, assigned, assigned as isize)
    } else {
        Err(Abort::Undefined)
    }
}

fn to_number(b: bool) -> (n: isize)
    ensures
        n == truth(b),
{
    if b {
        1
    } else {
        0
    }
}

fn within_word(n: Option<isize>) -> (r: Result<isize, Abort>)
    ensures
        outcome_of(r) == (match n {
            Some(v) => Outcome::Value(v),
            None => Outcome::Undefined,
        }),
{
    match n {
        Some(v) => Ok(v),
        None => Err(Abort::Undefined),
    }
}

fn apply_unary(expr: &Arith, v: isize) -> (r: Result<isize, Abort>)
    ensures
        outcome_of(r) == unary(*expr, v),
{
    match expr {
        Arith::UnaryPlus(_) => if v >= 0 {
            Ok(v)
        } else {
            within_word(0isize.checked_sub(v))
        },
        Arith::UnaryMinus(_) => within_word(0isize.checked_sub(v)),
        Arith::BitwiseNot(_) => Ok(v ^ !0),
        Arith::LogicalNot(_) => Ok(to_number(v == 0)),
        _ => Err(Abort::Undefined),
    }
}

fn apply_binary(expr: &Arith, l: isize, r: isize) -> (result: Result<isize, Abort>)
    ensures
        outcome_of(result) == binary(*expr, l, r),
{
    match expr {
        Arith::Less(_, _) => Ok(to_number(l < r)),
        Arith::LessEq(_, _) => Ok(to_number(l <= r)),
        Arith::Great(_, _) => Ok(to_number(l > r)),
        Arith::GreatEq(_, _) => Ok(to_number(l >= r)),
        Arith::Eq(_, _) => Ok(to_number(l == r)),
        Arith::NotEq(_, _) => Ok(to_number(l != r)),
        Arith::Mult(_, _) => within_word(l.checked_mul(r)),
        Arith::Add(_, _) => within_word(l.checked_add(r)),
        Arith::Sub(_, _) => within_word(l.checked_sub(r)),
        Arith::ShiftLeft(_, _) => if 0 <= r && r < isize::BITS as isize {
            Ok(l << r)
        } else {
            Err(Abort::Undefined)
        },
        Arith::ShiftRight(_, _) => if 0 <= r && r < isize::BITS as isize {
            Ok(l >> r)
        } else {
            Err(Abort::Undefined)
        },
        Arith::BitwiseAnd(_, _) => Ok(l & r),
        Arith::BitwiseXor(_, _) => Ok(l ^ r),
        Arith::BitwiseOr(_, _) => Ok(l | r),
        _ => Err(Abort::Undefined),
    }
}

fn apply_guarded(expr: &Arith, l: isize, r: isize) -> (result: Result<isize, Abort>)
    requires
        expr is Pow || expr is Div || expr is Modulo,
        bad_right_operand(*expr, r) is None,
    ensures
        outcome_of(result) == guarded(*expr, l, r),
{
    match expr {
        Arith::Pow(_, _) => within_word(power(l, (r as i128 % 0x1_0000_0000) as u32)),
        Arith::Div(_, _) => if l == isize::MIN && r == -1 {
            proof {
                lemma_quotient(l as int, r as int);
            }
            Err(Abort::Undefined)
        } else {
            Ok(divide(l, r))
        },
        _ => if l == isize::MIN && r == -1 {
            Err(Abort::Undefined)
        } else {
            Ok(remainder(l, r))
        },
    }
}

/// The quotient is the largest multiple that fits, and its sign is that of the product.
proof fn lemma_quotient(a: int, b: int)
    requires
        b != 0,
    ensures
        0 <= magnitude(quotient(a, b)) <= magnitude(a),
        magnitude(a) / magnitude(b) == magnitude(quotient(a, b)),
        a == 0 ==> quotient(a, b) == 0,
        magnitude(b) == 1 ==> magnitude(quotient(a, b)) == magnitude(a),
        a - b * quotient(a, b) == (if a < 0 {
            -(magnitude(a) % magnitude(b))
        } else {
            magnitude(a) % magnitude(b)
        }),
{
    let x = magnitude(a);
    let y = magnitude(b);
    assert(0 <= x / y <= x) by (nonlinear_arith)
        requires
            x >= 0,
            y > 0,
    ;
    vstd::arithmetic::div_mod::lemma_div_basics(x);
    vstd::arithmetic::div_mod::lemma_div_basics(y);
    assert(x - y * (x / y) == x % y) by (nonlinear_arith)
        requires
            y > 0,
    ;
    let q = quotient(a, b);
    assert(a < 0 ==> a - b * q == -(x - y * (x / y))) by (nonlinear_arith)
        requires
            x == (if a < 0 { -a } else { a }),
            y == (if b < 0 { -b } else { b }),
            q == (if (a < 0) == (b < 0) { x / y } else { -(x / y) }),
    ;
    assert(a >= 0 ==> a - b * q == x - y * (x / y)) by (nonlinear_arith)
        requires
            x == (if a < 0 { -a } else { a }),
            y == (if b < 0 { -b } else { b }),
            q == (if (a < 0) == (b < 0) { x / y } else { -(x / y) }),
    ;
}

fn without_sign(n: isize) -> (m: i128)
    ensures
        m == magnitude(n as int),
{
    if n < 0 {
        -(n as i128)
    } else {
        n as i128
    }
}

fn divide(l: isize, r: isize) -> (q: isize)
    requires
        r != 0,
        !(l == isize::MIN && r == -1),
    ensures
        q == quotient(l as int, r as int),
{
    proof {
        lemma_quotient(l as int, r as int);
        lemma_smaller_quotient(l, r);
    }
    let q: i128 = without_sign(l) / without_sign(r);
    if (l < 0) == (r < 0) {
        q as isize
    } else {
        (-q) as isize
    }
}

fn remainder(l: isize, r: isize) -> (m: isize)
    requires
        r != 0,
    ensures
        m == l - r * quotient(l as int, r as int),
{
    proof {
        lemma_quotient(l as int, r as int);
    }
    let m: i128 = without_sign(l) % without_sign(r);
    assert(0 <= m < magnitude(r as int));
    if l < 0 {
        (-m) as isize
    } else {
        m as isize
    }
}

proof fn lemma_smaller_quotient(l: isize, r: isize)
    requires
        r != 0,
        !(l == isize::MIN && r == -1),
    ensures
        isize::MIN <= quotient(l as int, r as int) <= isize::MAX,
{
    lemma_quotient(l as int, r as int);
    if l == isize::MIN && r < 0 {
        let x = magnitude(l as int);
        let y = magnitude(r as int);
        assert(2 * (x / y) <= x) by (nonlinear_arith)
            requires
                x >= 0,
                y >= 2,
        ;
    }
}

/// A power grows with its exponent where its base is neither zero, one nor minus one.
proof fn lemma_power_grows(base: int, low: nat, high: nat)
    requires
        magnitude(base) >= 2,
        low <= high,
    ensures
        magnitude(pow(base, low)) >= 1,
        magnitude(pow(base, low)) <= magnitude(pow(base, high)),
        low < high ==> 2 * magnitude(pow(base, low)) <= magnitude(pow(base, high)),
    decreases high,
{
    reveal(pow);
    if high > 0 {
        let p = pow(base, (high - 1) as nat);
        lemma_power_grows(base, (high - 1) as nat, (high - 1) as nat);
        assert(magnitude(base * p) >= 2 * magnitude(p)) by (nonlinear_arith)
            requires
                magnitude(base) >= 2,
        ;
        if low < high {
            lemma_power_grows(base, low, (high - 1) as nat);
        }
    }
}

proof fn lemma_power_of_unit(base: int, exp: nat)
    ensures
        base == 0 && exp > 0 ==> pow(base, exp) == 0,
        base == 1 ==> pow(base, exp) == 1,
        base == -1 ==> pow(base, exp) == (if exp % 2 == 0 {
            1int
        } else {
            -1int
        }),
    decreases exp,
{
    reveal(pow);
    if exp > 0 {
        lemma_power_of_unit(base, (exp - 1) as nat);
    }
}

fn power(base: isize, exp: u32) -> (r: Option<isize>)
    ensures
        in_word(pow(base as int, exp as nat)) == (match r {
            Some(v) => Outcome::Value(v),
            None => Outcome::Undefined,
        }),
{
    proof {
        reveal(pow);
        lemma_power_of_unit(base as int, exp as nat);
    }
    if exp == 0 || base == 1 {
        return Some(1);
    }
    if base == 0 {
        return Some(0);
    }
    if base == -1 {
        return Some(
            if exp % 2 == 0 {
                1
            } else {
                -1
            },
        );
    }
    let mut product: isize = 1;
    let mut i: u32 = 0;
    while i < exp
        invariant
            0 <= i <= exp,
            base < -1 || base > 1,
            product == pow(base as int, i as nat),
        decreases exp - i,
    {
        proof {
            reveal(pow);
            lemma_power_grows(base as int, (i + 1) as nat, exp as nat);
            assert(base * product == pow(base as int, (i + 1) as nat));
        }
        match base.checked_mul(product) {
            Some(p) => {
                product = p;
            },
            None => {
                return None;
            },
        }
        i = i + 1;
    }
    Some(product)
}

/// Where both are defined, quotient and remainder make up the dividend again. The remainder
/// is smaller than the divisor, and has the sign of the dividend unless it is zero.
pub proof fn division_and_remainder(
    left: Box<Arith>,
    right: Box<Arith>,
    l: isize,
    r: isize,
)
    requires
        r != 0,
        !(l == isize::MIN && r == -1),
    ensures
        ({
            let quotient = guarded(Arith::Div(left, right), l, r);
            let remainder = guarded(Arith::Modulo(left, right), l, r);
            &&& quotient is Value
            &&& remainder is Value
            &&& quotient->Value_0 * r + remainder->Value_0 == l
            &&& magnitude(remainder->Value_0 as int) < magnitude(r as int)
            &&& l >= 0 ==> remainder->Value_0 >= 0
            &&& l <= 0 ==> remainder->Value_0 <= 0
        }),
{
    let q = quotient(l as int, r as int);
    lemma_quotient(l as int, r as int);
    let (x, y) = (magnitude(l as int), magnitude(r as int));
    assert(0 <= x % y < y) by (nonlinear_arith)
        requires
            y > 0,
    ;
    lemma_smaller_quotient(l, r);
    let m = l - r * q;
    assert(-y < m < y);
    assert(isize::MIN <= m <= isize::MAX);
    assert(q == 0 ==> r * q == 0) by (nonlinear_arith);
    assert(guarded(Arith::Div(left, right), l, r) == Outcome::Value(q as isize));
    assert(guarded(Arith::Modulo(left, right), l, r) == Outcome::Value(m as isize));
    assert((q as isize) * r == r * q) by (nonlinear_arith)
        requires
            q == q as isize,
    ;
}

} // verus!
