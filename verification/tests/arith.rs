use shell_runtime::ast::Arith;
use shell_runtime::env::{Env, Environment, ProcessInfo};
use shell_runtime::error::RuntimeError;
use shell_runtime::outcome::Abort;
use shell_runtime::status::{ExitStatus, EXIT_ERROR};
use std::rc::Rc;

fn new_env() -> Env<'static, (), ()> {
    Env::new(ProcessInfo { name: None, vars: Vec::new(), pid: 1 })
}

fn lit(n: isize) -> Box<Arith> {
    Box::new(Arith::Literal(n))
}

fn var(name: &str) -> Box<Arith> {
    Box::new(Arith::Var(String::from(name)))
}

fn undefined(expr: Arith) -> bool {
    matches!(expr.try_eval(&mut new_env()), Err(Abort::Undefined))
}

#[test]
fn test_eval_arith() {
    const MAX: isize = isize::MAX;

    let mut env = new_env();
    let env = &mut env;
    let var = String::from("var name");
    let var_value: isize = 10;
    let var_string = String::from("var string");
    let var_string_value = "asdf";

    env.set_var(var.clone(),        Rc::new(String::from(var_value.to_string())));
    env.set_var(var_string.clone(), Rc::new(String::from(var_string_value.to_string())));

    assert_eq!(Arith::Literal(5).eval(env), Ok(5));

    assert_eq!(Arith::Var(var.clone()).eval(env), Ok(var_value));
    assert_eq!(Arith::Var(var_string.clone()).eval(env), Ok(0));
    assert_eq!(Arith::Var(String::from("missing var")).eval(env), Ok(0));

    assert_eq!(Arith::PostIncr(var.clone()).eval(env), Ok(var_value));
    assert_eq!(&**env.var(&var).unwrap(), &*(var_value + 1).to_string());
    assert_eq!(Arith::PostDecr(var.clone()).eval(env), Ok(var_value + 1));
    assert_eq!(&**env.var(&var).unwrap(), &*var_value.to_string());

    assert_eq!(Arith::PreIncr(var.clone()).eval(env), Ok(var_value + 1));
    assert_eq!(&**env.var(&var).unwrap(), &*(var_value + 1).to_string());
    assert_eq!(Arith::PreDecr(var.clone()).eval(env), Ok(var_value));
    assert_eq!(&**env.var(&var).unwrap(), &*var_value.to_string());

    assert_eq!(Arith::UnaryPlus(lit(5)).eval(env), Ok(5));
    assert_eq!(Arith::UnaryPlus(lit(-5)).eval(env), Ok(5));

    assert_eq!(Arith::UnaryMinus(lit(5)).eval(env), Ok(-5));
    assert_eq!(Arith::UnaryMinus(lit(-5)).eval(env), Ok(5));

    assert_eq!(Arith::BitwiseNot(lit(5)).eval(env), Ok(!5));
    assert_eq!(Arith::BitwiseNot(lit(0)).eval(env), Ok(!0));

    assert_eq!(Arith::LogicalNot(lit(5)).eval(env), Ok(0));
    assert_eq!(Arith::LogicalNot(lit(0)).eval(env), Ok(1));

    assert_eq!(Arith::Less(lit(1), lit(1)).eval(env), Ok(0));
    assert_eq!(Arith::Less(lit(1), lit(0)).eval(env), Ok(0));
    assert_eq!(Arith::Less(lit(0), lit(1)).eval(env), Ok(1));

    assert_eq!(Arith::LessEq(lit(1), lit(1)).eval(env), Ok(1));
    assert_eq!(Arith::LessEq(lit(1), lit(0)).eval(env), Ok(0));
    assert_eq!(Arith::LessEq(lit(0), lit(1)).eval(env), Ok(1));

    assert_eq!(Arith::Great(lit(1), lit(1)).eval(env), Ok(0));
    assert_eq!(Arith::Great(lit(1), lit(0)).eval(env), Ok(1));
    assert_eq!(Arith::Great(lit(0), lit(1)).eval(env), Ok(0));

    assert_eq!(Arith::GreatEq(lit(1), lit(1)).eval(env), Ok(1));
    assert_eq!(Arith::GreatEq(lit(1), lit(0)).eval(env), Ok(1));
    assert_eq!(Arith::GreatEq(lit(0), lit(1)).eval(env), Ok(0));

    assert_eq!(Arith::Eq(lit(0), lit(1)).eval(env), Ok(0));
    assert_eq!(Arith::Eq(lit(1), lit(1)).eval(env), Ok(1));

    assert_eq!(Arith::NotEq(lit(0), lit(1)).eval(env), Ok(1));
    assert_eq!(Arith::NotEq(lit(1), lit(1)).eval(env), Ok(0));

    assert_eq!(Arith::Pow(lit(4), lit(3)).eval(env), Ok(64));
    assert_eq!(Arith::Pow(lit(4), lit(0)).eval(env), Ok(1));
    assert_eq!(Arith::Pow(lit(4), lit(-2)).eval(env), Err(RuntimeError::NegativeExponent));

    assert_eq!(Arith::Div(lit(6), lit(2)).eval(env), Ok(3));
    assert_eq!(Arith::Div(lit(1), lit(0)).eval(env), Err(RuntimeError::DivideByZero));

    assert_eq!(Arith::Modulo(lit(6), lit(5)).eval(env), Ok(1));
    assert_eq!(Arith::Modulo(lit(1), lit(0)).eval(env), Err(RuntimeError::DivideByZero));

    assert_eq!(Arith::Mult(lit(3), lit(2)).eval(env), Ok(6));
    assert_eq!(Arith::Mult(lit(1), lit(0)).eval(env), Ok(0));

    assert_eq!(Arith::Add(lit(3), lit(2)).eval(env), Ok(5));
    assert_eq!(Arith::Add(lit(1), lit(0)).eval(env), Ok(1));

    assert_eq!(Arith::Sub(lit(3), lit(2)).eval(env), Ok(1));
    assert_eq!(Arith::Sub(lit(0), lit(1)).eval(env), Ok(-1));

    assert_eq!(Arith::ShiftLeft(lit(4), lit(3)).eval(env), Ok(32));

    assert_eq!(Arith::ShiftRight(lit(32), lit(2)).eval(env), Ok(8));

    assert_eq!(Arith::BitwiseAnd(lit(135), lit(97)).eval(env), Ok(1));
    assert_eq!(Arith::BitwiseAnd(lit(135), lit(0)).eval(env), Ok(0));
    assert_eq!(Arith::BitwiseAnd(lit(135), lit(MAX)).eval(env), Ok(135));

    assert_eq!(Arith::BitwiseXor(lit(135), lit(150)).eval(env), Ok(17));
    assert_eq!(Arith::BitwiseXor(lit(135), lit(0)).eval(env), Ok(135));
    assert_eq!(Arith::BitwiseXor(lit(135), lit(MAX)).eval(env), Ok(135 ^ MAX));

    assert_eq!(Arith::BitwiseOr(lit(135), lit(97)).eval(env), Ok(231));
    assert_eq!(Arith::BitwiseOr(lit(135), lit(0)).eval(env), Ok(135));
    assert_eq!(Arith::BitwiseOr(lit(135), lit(MAX)).eval(env), Ok(MAX));

    assert_eq!(Arith::LogicalAnd(lit(135), lit(97)).eval(env), Ok(1));
    assert_eq!(Arith::LogicalAnd(lit(135), lit(0)).eval(env), Ok(0));
    assert_eq!(Arith::LogicalAnd(lit(0), lit(0)).eval(env), Ok(0));

    assert_eq!(Arith::LogicalOr(lit(135), lit(97)).eval(env), Ok(1));
    assert_eq!(Arith::LogicalOr(lit(135), lit(0)).eval(env), Ok(1));
    assert_eq!(Arith::LogicalOr(lit(0), lit(0)).eval(env), Ok(0));

    assert_eq!(Arith::Ternary(lit(2), lit(4), lit(5)).eval(env), Ok(4));
    assert_eq!(Arith::Ternary(lit(0), lit(4), lit(5)).eval(env), Ok(5));

    assert_eq!(&**env.var(&var).unwrap(), &*(var_value).to_string());
    assert_eq!(Arith::Assign(var.clone(), lit(42)).eval(env), Ok(42));
    assert_eq!(&**env.var(&var).unwrap(), "42");

    assert_eq!(Arith::Sequence(vec![
        Arith::Assign(String::from("x"), lit(5)),
        Arith::Assign(String::from("y"), lit(10)),
        Arith::Add(
            Box::new(Arith::PreIncr(String::from("x"))),
            Box::new(Arith::PostDecr(String::from("y")))
        ),
    ]).eval(env), Ok(16));

    assert_eq!(&**env.var("x").unwrap(), "6");
    assert_eq!(&**env.var("y").unwrap(), "9");
}

#[test]
fn division_rounds_towards_zero() {
    let env = &mut new_env();
    assert_eq!(Arith::Div(lit(-7), lit(2)).eval(env), Ok(-3));
    assert_eq!(Arith::Div(lit(7), lit(-2)).eval(env), Ok(-3));
    assert_eq!(Arith::Div(lit(-7), lit(-2)).eval(env), Ok(3));
    assert_eq!(Arith::Modulo(lit(-7), lit(2)).eval(env), Ok(-1));
    assert_eq!(Arith::Modulo(lit(7), lit(-2)).eval(env), Ok(1));
    assert_eq!(Arith::Modulo(lit(-7), lit(-2)).eval(env), Ok(-1));
    assert_eq!(Arith::Div(lit(isize::MIN), lit(1)).eval(env), Ok(isize::MIN));
}

#[test]
fn what_does_not_fit_is_undefined() {
    assert!(undefined(Arith::Add(lit(isize::MAX), lit(1))));
    assert!(undefined(Arith::Sub(lit(isize::MIN), lit(1))));
    assert!(undefined(Arith::Mult(lit(isize::MAX), lit(2))));
    assert!(undefined(Arith::UnaryMinus(lit(isize::MIN))));
    assert!(undefined(Arith::UnaryPlus(lit(isize::MIN))));
    assert!(undefined(Arith::Div(lit(isize::MIN), lit(-1))));
    assert!(undefined(Arith::Modulo(lit(isize::MIN), lit(-1))));
    assert!(undefined(Arith::Pow(lit(2), lit(64))));
    assert!(undefined(Arith::ShiftLeft(lit(1), lit(-1))));
    assert!(undefined(Arith::ShiftRight(lit(1), lit(64))));
    assert!(!undefined(Arith::Pow(lit(-2), lit(63))));
    assert!(!undefined(Arith::Mult(lit(isize::MIN), lit(1))));
}

#[test]
fn an_increment_that_does_not_fit_leaves_the_variable() {
    let env = &mut new_env();
    env.set_var(String::from("x"), Rc::new(isize::MAX.to_string()));
    assert!(matches!(
        Arith::PostIncr(String::from("x")).try_eval(env),
        Err(Abort::Undefined)
    ));
    assert_eq!(&**env.var("x").unwrap(), &*isize::MAX.to_string());
}

#[test]
fn errors_record_their_status() {
    let env = &mut new_env();
    assert_eq!(Arith::Div(lit(1), lit(0)).eval(env), Err(RuntimeError::DivideByZero));
    assert_eq!(env.last_status(), ExitStatus::Code(EXIT_ERROR));

    let env = &mut new_env();
    assert_eq!(Arith::Pow(lit(1), lit(-1)).eval(env), Err(RuntimeError::NegativeExponent));
    assert_eq!(env.last_status(), ExitStatus::Code(EXIT_ERROR));
}

#[test]
fn the_right_operand_of_a_division_comes_first() {
    let env = &mut new_env();
    let left = Box::new(Arith::Assign(String::from("x"), lit(6)));
    let right = Box::new(Arith::Assign(String::from("x"), lit(2)));
    assert_eq!(Arith::Div(left, right).eval(env), Ok(3));
    assert_eq!(&**env.var("x").unwrap(), "6");

    // The left operand is not evaluated at all where the right one is zero.
    let left = Box::new(Arith::Assign(String::from("y"), lit(6)));
    assert_eq!(Arith::Modulo(left, lit(0)).eval(env), Err(RuntimeError::DivideByZero));
    assert_eq!(env.var("y"), None);
}

#[test]
fn operands_that_are_not_needed_are_not_evaluated() {
    let env = &mut new_env();
    let assign = || Box::new(Arith::Assign(String::from("x"), lit(1)));
    assert_eq!(Arith::LogicalAnd(lit(0), assign()).eval(env), Ok(0));
    assert_eq!(Arith::LogicalOr(lit(1), assign()).eval(env), Ok(1));
    assert_eq!(Arith::Ternary(lit(1), lit(2), assign()).eval(env), Ok(2));
    assert_eq!(Arith::Ternary(lit(0), assign(), lit(3)).eval(env), Ok(3));
    assert_eq!(env.var("x"), None);
}

#[test]
fn a_number_that_is_assigned_is_read_back() {
    let env = &mut new_env();
    for n in [0, 7, -7, 10, isize::MAX, isize::MIN] {
        assert_eq!(Arith::Assign(String::from("x"), lit(n)).eval(env), Ok(n));
        assert_eq!(&**env.var("x").unwrap(), &*n.to_string());
        assert_eq!(var("x").eval(env), Ok(n));
    }
}

#[test]
fn numbers_in_variables() {
    let env = &mut new_env();
    for (text, value) in [
        ("+5", 5),
        ("-5", -5),
        ("007", 7),
        ("", 0),
        ("-", 0),
        ("+", 0),
        ("5x", 0),
        (" 5", 0),
        ("--5", 0),
        ("99999999999999999999", 0),
    ] {
        env.set_var(String::from("x"), Rc::new(String::from(text)));
        assert_eq!(var("x").eval(env), Ok(value), "{:?}", text);
    }
}

#[test]
fn an_empty_sequence_is_zero() {
    assert_eq!(Arith::Sequence(Vec::new()).eval(&mut new_env()), Ok(0));
}

#[test]
fn a_sequence_stops_at_an_error() {
    let env = &mut new_env();
    let exprs = vec![
        Arith::Assign(String::from("x"), lit(1)),
        Arith::Div(lit(1), lit(0)),
        Arith::Assign(String::from("x"), lit(2)),
    ];
    assert_eq!(Arith::Sequence(exprs).eval(env), Err(RuntimeError::DivideByZero));
    assert_eq!(&**env.var("x").unwrap(), "1");
}
