//! The errors that evaluating and running scripts can end in.

use crate::ast::{parameter_text, Parameter};
use crate::io::{Fd, IoError, Permissions};
use crate::number::{decimal, to_decimal};
use crate::status::ExitStatus;
use crate::text::{join_texts, same_texts, separated, texts};
use std::rc::Rc;
use vstd::prelude::*;
use vstd::string::*;

verus! {

/// An error which may arise while executing commands.
#[derive(Debug)]
pub enum RuntimeError {
    /// Any I/O error returned by the OS during execution.
    Io(IoError),
    /// Attempted to divide by zero in an arithmetic subsitution.
    DivideByZero,
    /// Attempted to raise to a negative power in an arithmetic subsitution.
    NegativeExponent,
    /// Attempted to assign a special parameter, e.g. `${!:-value}`.
    BadAssig(Parameter),
    /// Attempted to evaluate a null or unset parameter, i.e. `${var:?msg}`.
    EmptyParameter(Parameter, Rc<String>),
    /// Unable to find a command/function/builtin to execute.
    CommandNotFound(Rc<String>),
    /// Utility or script does not have executable permissions.
    CommandNotExecutable(Rc<String>),
    /// Runtime feature not currently supported.
    Unimplemented(&'static str),
    /// A redirect path evaluated to multiple fields.
    RedirectAmbiguous(Vec<Rc<String>>),
    /// Attempted to duplicate an invalid file descriptor.
    RedirectBadFdSrc(Rc<String>),
    /// Attempted to duplicate a file descriptor with Read/Write
    /// access that differs from the original. The permissions are the new ones.
    RedirectBadFdPerms(Fd, Permissions),
}

/// An error, with its strings seen as texts.
pub enum ErrorView {
    Io(IoError),
    DivideByZero,
    NegativeExponent,
    BadAssig(Parameter),
    EmptyParameter(Parameter, Seq<char>),
    CommandNotFound(Seq<char>),
    CommandNotExecutable(Seq<char>),
    Unimplemented(Seq<char>),
    RedirectAmbiguous(Seq<Seq<char>>),
    RedirectBadFdSrc(Seq<char>),
    RedirectBadFdPerms(Fd, Permissions),
}

/// The result of a command, with the strings of its error seen as texts.
pub type ResultView = Result<ExitStatus, ErrorView>;

/// The result of a command, seen so.
pub open spec fn result_view(result: Result<ExitStatus, RuntimeError>) -> ResultView {
    match result {
        Ok(status) => Ok(status),
        Err(e) => Err(e@),
    }
}

impl View for RuntimeError {
    type V = ErrorView;

    open spec fn view(&self) -> ErrorView {
        match *self {
            RuntimeError::Io(e) => ErrorView::Io(e),
            RuntimeError::DivideByZero => ErrorView::DivideByZero,
            RuntimeError::NegativeExponent => ErrorView::NegativeExponent,
            RuntimeError::BadAssig(p) => ErrorView::BadAssig(p),
            RuntimeError::EmptyParameter(p, msg) => ErrorView::EmptyParameter(p, msg@),
            RuntimeError::CommandNotFound(c) => ErrorView::CommandNotFound(c@),
            RuntimeError::CommandNotExecutable(c) => ErrorView::CommandNotExecutable(c@),
            RuntimeError::Unimplemented(s) => ErrorView::Unimplemented(s@),
            RuntimeError::RedirectAmbiguous(v) => ErrorView::RedirectAmbiguous(texts(v@)),
            RuntimeError::RedirectBadFdSrc(s) => ErrorView::RedirectBadFdSrc(s@),
            RuntimeError::RedirectBadFdPerms(fd, perms) => ErrorView::RedirectBadFdPerms(
                fd,
                perms,
            ),
        }
    }
}

impl ErrorView {
    /// Whether two errors count as the same. Errors of the system are told apart
    /// by their kinds only.
    pub open spec fn same(self, other: ErrorView) -> bool {
        match (self, other) {
            (ErrorView::Io(a), ErrorView::Io(b)) => a.kind == b.kind,
            (ErrorView::BadAssig(a), ErrorView::BadAssig(b)) => a.same(b),
            (ErrorView::EmptyParameter(a, x), ErrorView::EmptyParameter(b, y)) => a.same(b) && x
                == y,
            (ErrorView::Io(_), _) => false,
            (ErrorView::BadAssig(_), _) => false,
            (ErrorView::EmptyParameter(_, _), _) => false,
            _ => self == other,
        }
    }

    /// A short description of the error.
    pub open spec fn description(self) -> Seq<char> {
        match self {
            ErrorView::Io(e) => e.description@,
            ErrorView::DivideByZero => "attempted to divide by zero"@,
            ErrorView::NegativeExponent => "attempted to raise to a negative power"@,
            ErrorView::BadAssig(_) => "attempted to assign a special parameter"@,
            ErrorView::EmptyParameter(_, _) => "attempted to evaluate a null or unset parameter"@,
            ErrorView::CommandNotFound(_) => "command not found"@,
            ErrorView::CommandNotExecutable(_) => "command not executable"@,
            ErrorView::Unimplemented(s) => s,
            ErrorView::RedirectAmbiguous(_) => "a redirect path evaluated to multiple fields"@,
            ErrorView::RedirectBadFdSrc(_) => "attempted to duplicate an invalid file descriptor"@,
            ErrorView::RedirectBadFdPerms(_, _) =>
                "attmpted to duplicate a file descritpr with Read/Write access that differs from the original"@,
        }
    }

    /// The message that a user sees.
    pub open spec fn message(self) -> Seq<char> {
        match self {
            ErrorView::Io(e) => e.message@,
            ErrorView::Unimplemented(s) => s,
            ErrorView::DivideByZero => self.description(),
            ErrorView::NegativeExponent => self.description(),
            ErrorView::CommandNotFound(c) => c + ": command not found"@,
            ErrorView::CommandNotExecutable(c) => c + ": command not executable"@,
            ErrorView::BadAssig(p) => parameter_text(p) + ": cannot assign in this way"@,
            ErrorView::EmptyParameter(p, msg) => parameter_text(p) + ": "@ + msg,
            ErrorView::RedirectAmbiguous(v) => self.description() + ": "@ + separated(v, " "@),
            ErrorView::RedirectBadFdSrc(fd) => self.description() + ": "@ + fd,
            ErrorView::RedirectBadFdPerms(fd, perms) => self.description() + ": "@ + decimal(
                fd as int,
            ) + ", desired permissions: "@ + perms.text(),
        }
    }
}

impl RuntimeError {
    /// A short description of the error.
    pub fn description(&self) -> (s: &str)
        ensures
            s@ == self@.description(),
    {
        match self {
            RuntimeError::Io(e) => e.description.as_str(),
            RuntimeError::DivideByZero => "attempted to divide by zero",
            RuntimeError::NegativeExponent => "attempted to raise to a negative power",
            RuntimeError::BadAssig(_) => "attempted to assign a special parameter",
            RuntimeError::EmptyParameter(_, _) => "attempted to evaluate a null or unset parameter",
            RuntimeError::CommandNotFound(_) => "command not found",
            RuntimeError::CommandNotExecutable(_) => "command not executable",
            RuntimeError::Unimplemented(s) => s,
            RuntimeError::RedirectAmbiguous(_) => "a redirect path evaluated to multiple fields",
            RuntimeError::RedirectBadFdSrc(_) =>
                "attempted to duplicate an invalid file descriptor",
            RuntimeError::RedirectBadFdPerms(_, _) =>
                "attmpted to duplicate a file descritpr with Read/Write access that differs from the original",
        }
    }

    /// The error of the system that is behind this one, if there is one.
    pub fn cause(&self) -> (cause: Option<&IoError>)
        ensures
            cause == (match *self {
                RuntimeError::Io(e) => Some(&e),
                _ => None,
            }),
    {
        match self {
            RuntimeError::Io(e) => Some(e),
            _ => None,
        }
    }

    /// The message that a user sees.
    pub fn to_string(&self) -> (s: String)
        ensures
            s@ == self@.message(),
    {
        match self {
            RuntimeError::Io(e) => e.message.clone(),
            RuntimeError::Unimplemented(s) => (*s).to_owned(),
            RuntimeError::DivideByZero => self.description().to_owned(),
            RuntimeError::NegativeExponent => self.description().to_owned(),
            RuntimeError::CommandNotFound(c) => {
                let mut s = c.as_str().to_owned();
                s.append(": command not found");
                s
            },
            RuntimeError::CommandNotExecutable(c) => {
                let mut s = c.as_str().to_owned();
                s.append(": command not executable");
                s
            },
            RuntimeError::BadAssig(p) => {
                let mut s = p.to_string();
                s.append(": cannot assign in this way");
                s
            },
            RuntimeError::EmptyParameter(p, msg) => {
                let mut s = p.to_string();
                s.append(": ");
                s.append(msg.as_str());
                s
            },
            RuntimeError::RedirectAmbiguous(v) => {
                let mut s = self.description().to_owned();
                s.append(": ");
                s.append(join_texts(v, " ").as_str());
                s
            },
            RuntimeError::RedirectBadFdSrc(fd) => {
                let mut s = self.description().to_owned();
                s.append(": ");
                s.append(fd.as_str());
                s
            },
            RuntimeError::RedirectBadFdPerms(fd, perms) => {
                let mut s = self.description().to_owned();
                s.append(": ");
                s.append(to_decimal(*fd as i128).as_str());
                s.append(", desired permissions: ");
                s.append(perms.as_str());
                s
            },
        }
    }
}

impl PartialEq for RuntimeError {
    fn eq(&self, other: &Self) -> (same: bool) {
        match (self, other) {
            (RuntimeError::Io(a), RuntimeError::Io(b)) => a.kind == b.kind,
            (RuntimeError::DivideByZero, RuntimeError::DivideByZero) => true,
            (RuntimeError::NegativeExponent, RuntimeError::NegativeExponent) => true,
            (RuntimeError::BadAssig(a), RuntimeError::BadAssig(b)) => *a == *b,
            (RuntimeError::CommandNotFound(a), RuntimeError::CommandNotFound(b)) => **a == **b,
            (RuntimeError::CommandNotExecutable(a), RuntimeError::CommandNotExecutable(b)) => **a
                == **b,
            (RuntimeError::Unimplemented(a), RuntimeError::Unimplemented(b)) => (*a).to_owned()
                == (*b).to_owned(),
            (RuntimeError::RedirectAmbiguous(a), RuntimeError::RedirectAmbiguous(b)) => same_texts(
                a,
                b,
            ),
            (RuntimeError::RedirectBadFdSrc(a), RuntimeError::RedirectBadFdSrc(b)) => **a == **b,
            (RuntimeError::EmptyParameter(a, x), RuntimeError::EmptyParameter(b, y)) => *a == *b
                && **x == **y,
            (
                RuntimeError::RedirectBadFdPerms(a, x),
                RuntimeError::RedirectBadFdPerms(b, y),
            ) => *a == *b && *x == *y,
            _ => false,
        }
    }
}

impl Eq for RuntimeError {

}

impl vstd::std_specs::cmp::PartialEqSpecImpl for RuntimeError {
    open spec fn obeys_eq_spec() -> bool {
        true
    }

    open spec fn eq_spec(&self, other: &Self) -> bool {
        self@.same(other@)
    }
}

impl From<IoError> for RuntimeError {
    fn from(err: IoError) -> (e: Self) {
        RuntimeError::Io(err)
    }
}

impl vstd::std_specs::convert::FromSpecImpl<IoError> for RuntimeError {
    open spec fn obeys_from_spec() -> bool {
        true
    }

    open spec fn from_spec(err: IoError) -> Self {
        RuntimeError::Io(err)
    }
}

} // verus!
