//! Exit statuses of commands.

use crate::number::{decimal, to_decimal};
use vstd::prelude::*;
use vstd::string::*;

verus! {

/// The code of a command that did what it was asked to.
pub const EXIT_SUCCESS: i32 = 0;

/// The code of a command that failed.
pub const EXIT_ERROR: i32 = 1;

/// The code where a command was found but could not be executed.
pub const EXIT_CMD_NOT_EXECUTABLE: i32 = 126;

/// The code where a command was not found.
pub const EXIT_CMD_NOT_FOUND: i32 = 127;

/// What `$?` adds to the number of a signal.
pub const EXIT_SIGNAL_OFFSET: u32 = 128;

/// Describes the result of a process after it has terminated.
#[derive(PartialEq, Eq, Structural, Clone, Copy, Debug)]
pub enum ExitStatus {
    /// Normal termination with an exit code.
    Code(i32),
    /// Termination by signal, with the signal number.
    Signal(i32),
}

/// The number that a machine word of 32 bits without a sign holds for an integer with one.
pub open spec fn unsigned(n: i32) -> int {
    if n < 0 {
        n + 0x1_0000_0000
    } else {
        n as int
    }
}

impl ExitStatus {
    /// Whether the command was a success: it ended by itself, with the code zero.
    pub open spec fn is_success(self) -> bool {
        self == ExitStatus::Code(EXIT_SUCCESS)
    }

    /// The number that `$?` shows, where it fits in 32 bits.
    pub open spec fn number(self) -> Option<int> {
        match self {
            ExitStatus::Code(c) => Some(unsigned(c)),
            ExitStatus::Signal(c) => if unsigned(c) + EXIT_SIGNAL_OFFSET <= u32::MAX {
                Some(unsigned(c) + EXIT_SIGNAL_OFFSET)
            } else {
                None
            },
        }
    }

    /// The status in words.
    pub open spec fn text(self) -> Seq<char> {
        match self {
            ExitStatus::Code(c) => "exit code: "@ + decimal(c as int),
            ExitStatus::Signal(c) => "signal: "@ + decimal(c as int),
        }
    }

    /// The status of a process, from the code that it ended with
    /// and the signal that ended it.
    pub open spec fn of_process(code: Option<i32>, signal: Option<i32>) -> ExitStatus {
        match (code, signal) {
            (Some(c), _) => ExitStatus::Code(c),
            (None, Some(s)) => ExitStatus::Signal(s),
            (None, None) => ExitStatus::Code(EXIT_ERROR),
        }
    }

    /// Was termination successful? Signal termination not considered a success,
    /// and success is defined as a zero exit status.
    pub fn success(&self) -> (yes: bool)
        ensures
            yes == self.is_success(),
    {
        *self == ExitStatus::Code(EXIT_SUCCESS)
    }

    /// The number that `$?` shows, where it fits in 32 bits.
    pub fn to_number(&self) -> (n: Option<u32>)
        ensures
            n is Some <==> self.number() is Some,
            n matches Some(v) ==> self.number() == Some(v as int),
    {
        match self {
            ExitStatus::Code(c) => Some(to_unsigned(*c)),
            ExitStatus::Signal(c) => to_unsigned(*c).checked_add(EXIT_SIGNAL_OFFSET),
        }
    }

    /// The status of a process, from the code that it ended with, if it ended by itself,
    /// and otherwise from the signal that ended it, if it is known.
    pub fn from_process(code: Option<i32>, signal: Option<i32>) -> (status: ExitStatus)
        ensures
            status == ExitStatus::of_process(code, signal),
    {
        match code {
            Some(c) => ExitStatus::Code(c),
            None => match signal {
                Some(s) => ExitStatus::Signal(s),
                None => ExitStatus::Code(EXIT_ERROR),
            },
        }
    }

    /// The status in words.
    pub fn to_string(&self) -> (s: String)
        ensures
            s@ == self.text(),
    {
        match self {
            ExitStatus::Code(c) => {
                let mut s = "exit code: ".to_owned();
                s.append(to_decimal(*c as i128).as_str());
                s
            },
            ExitStatus::Signal(c) => {
                let mut s = "signal: ".to_owned();
                s.append(to_decimal(*c as i128).as_str());
                s
            },
        }
    }
}

fn to_unsigned(n: i32) -> (u: u32)
    ensures
        u == unsigned(n),
{
    if n < 0 {
        (n as i64 + 0x1_0000_0000) as u32
    } else {
        n as u32
    }
}

} // verus!
