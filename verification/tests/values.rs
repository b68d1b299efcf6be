use shell_runtime::ast::Parameter;
use shell_runtime::error::RuntimeError;
use shell_runtime::io::{IoError, IoErrorKind, Permissions};
use shell_runtime::number::{parse_decimal, to_decimal};
use shell_runtime::status::{ExitStatus, EXIT_ERROR};
use std::rc::Rc;

fn rc(s: &str) -> Rc<String> {
    Rc::new(String::from(s))
}

fn io_error(kind: IoErrorKind, number: Option<i32>, message: &str) -> IoError {
    let description = String::from("entity not found");
    IoError { kind, raw_os_error: number, description, message: String::from(message) }
}

fn one_of_each() -> Vec<RuntimeError> {
    vec![
        RuntimeError::Io(io_error(IoErrorKind::NotFound, Some(2), "no such file")),
        RuntimeError::DivideByZero,
        RuntimeError::NegativeExponent,
        RuntimeError::BadAssig(Parameter::At),
        RuntimeError::EmptyParameter(Parameter::Var(String::from("x")), rc("unset")),
        RuntimeError::CommandNotFound(rc("foo")),
        RuntimeError::CommandNotExecutable(rc("foo")),
        RuntimeError::Unimplemented("not yet"),
        RuntimeError::RedirectAmbiguous(vec![rc("a"), rc("b"), rc("")]),
        RuntimeError::RedirectBadFdSrc(rc("x")),
        RuntimeError::RedirectBadFdPerms(10, Permissions::Read),
    ]
}

#[test]
fn only_the_code_zero_is_a_success() {
    assert!(ExitStatus::Code(0).success());
    assert!(!ExitStatus::Code(1).success());
    assert!(!ExitStatus::Code(-1).success());
    assert!(!ExitStatus::Signal(0).success());
}

#[test]
fn statuses_in_words() {
    assert_eq!(ExitStatus::Code(0).to_string(), "exit code: 0");
    assert_eq!(ExitStatus::Code(-12).to_string(), "exit code: -12");
    assert_eq!(ExitStatus::Signal(9).to_string(), "signal: 9");
}

#[test]
fn statuses_of_processes() {
    assert_eq!(ExitStatus::from_process(Some(3), None), ExitStatus::Code(3));
    assert_eq!(ExitStatus::from_process(Some(3), Some(9)), ExitStatus::Code(3));
    assert_eq!(ExitStatus::from_process(None, Some(9)), ExitStatus::Signal(9));
    assert_eq!(ExitStatus::from_process(None, None), ExitStatus::Code(EXIT_ERROR));
}

#[test]
fn messages_of_errors() {
    let messages: Vec<String> = one_of_each().iter().map(|e| e.to_string()).collect();
    assert_eq!(
        messages,
        vec![
            "no such file",
            "attempted to divide by zero",
            "attempted to raise to a negative power",
            "$@: cannot assign in this way",
            "${x}: unset",
            "foo: command not found",
            "foo: command not executable",
            "not yet",
            "a redirect path evaluated to multiple fields: a b ",
            "attempted to duplicate an invalid file descriptor: x",
            "attmpted to duplicate a file descritpr with Read/Write access that differs from the \
             original: 10, desired permissions: read",
        ]
    );
}

#[test]
fn descriptions_of_errors() {
    let errors = one_of_each();
    let descriptions: Vec<&str> = errors.iter().map(|e| e.description()).collect();
    assert_eq!(
        descriptions,
        vec![
            "entity not found",
            "attempted to divide by zero",
            "attempted to raise to a negative power",
            "attempted to assign a special parameter",
            "attempted to evaluate a null or unset parameter",
            "command not found",
            "command not executable",
            "not yet",
            "a redirect path evaluated to multiple fields",
            "attempted to duplicate an invalid file descriptor",
            "attmpted to duplicate a file descritpr with Read/Write access that differs from the \
             original",
        ]
    );
}

#[test]
fn only_errors_of_the_system_have_a_cause() {
    for (i, e) in one_of_each().iter().enumerate() {
        assert_eq!(e.cause().is_some(), i == 0);
    }
}

#[test]
fn errors_differ_by_what_they_are_about() {
    let (a, b) = (one_of_each(), one_of_each());
    for i in 0..a.len() {
        for j in 0..b.len() {
            assert_eq!(a[i] == b[j], i == j);
        }
    }
    let bad = |p| RuntimeError::BadAssig(p);
    assert_ne!(bad(Parameter::Positional(1)), bad(Parameter::Positional(2)));
    assert_ne!(RuntimeError::CommandNotFound(rc("a")), RuntimeError::CommandNotFound(rc("b")));
    assert_ne!(
        RuntimeError::RedirectBadFdPerms(1, Permissions::Read),
        RuntimeError::RedirectBadFdPerms(1, Permissions::Write)
    );
}

#[test]
fn errors_of_the_system_are_told_apart_by_kind() {
    let error = |kind, number, message| RuntimeError::from(io_error(kind, number, message));
    assert_eq!(
        error(IoErrorKind::NotFound, Some(2), "a"),
        error(IoErrorKind::NotFound, None, "b")
    );
    assert_ne!(
        error(IoErrorKind::NotFound, Some(2), "a"),
        error(IoErrorKind::PermissionDenied, Some(2), "a")
    );
}

#[test]
fn parameters_as_they_are_written() {
    let written: Vec<String> = vec![
        Parameter::At,
        Parameter::Star,
        Parameter::Pound,
        Parameter::Question,
        Parameter::Dash,
        Parameter::Dollar,
        Parameter::Bang,
        Parameter::Positional(0),
        Parameter::Positional(9),
        Parameter::Positional(10),
        Parameter::Var(String::from("foo")),
    ]
    .iter()
    .map(|p| p.to_string())
    .collect();
    assert_eq!(
        written,
        vec!["$@", "$*", "$#", "$?", "$-", "$$", "$!", "$0", "$9", "${10}", "${foo}"]
    );
}

#[test]
fn permissions() {
    assert!(Permissions::Read.readable() && !Permissions::Read.writable());
    assert!(!Permissions::Write.readable() && Permissions::Write.writable());
    assert!(Permissions::ReadWrite.readable() && Permissions::ReadWrite.writable());
}

#[test]
fn numbers_are_written_and_read_back() {
    for n in [0, 5, 10, -1, -10, 1234567890, i64::MAX as i128, i64::MIN as i128] {
        let text = to_decimal(n);
        assert_eq!(text, n.to_string());
        assert_eq!(parse_decimal(&text, true, i64::MIN as i128, i64::MAX as i128), Some(n));
    }
    assert_eq!(parse_decimal("-1", false, 0, 65535), None);
    assert_eq!(parse_decimal("65536", false, 0, 65535), None);
    assert_eq!(parse_decimal("+65535", false, 0, 65535), Some(65535));
}
