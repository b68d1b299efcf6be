//! File descriptors, their permissions, and the errors of the system.

use vstd::prelude::*;

verus! {

/// A file descriptor as scripts know it.
pub type Fd = u16;

/// The descriptor of the standard input.
pub const STDIN_FILENO: Fd = 0;

/// The descriptor of the standard output.
pub const STDOUT_FILENO: Fd = 1;

/// The descriptor of the standard error.
pub const STDERR_FILENO: Fd = 2;

/// What a file descriptor was opened for.
#[derive(PartialEq, Eq, Structural, Clone, Copy, Debug)]
pub enum Permissions {
    /// Reading only.
    Read,
    /// Writing only.
    Write,
    /// Both reading and writing.
    ReadWrite,
}

impl Permissions {
    /// Whether reading is allowed.
    pub open spec fn reads(self) -> bool {
        self != Permissions::Write
    }

    /// Whether writing is allowed.
    pub open spec fn writes(self) -> bool {
        self != Permissions::Read
    }

    /// The words for the permissions.
    pub open spec fn text(self) -> Seq<char> {
        match self {
            Permissions::Read => "read"@,
            Permissions::Write => "write"@,
            Permissions::ReadWrite => "read/write"@,
        }
    }

    /// Whether reading is allowed.
    pub fn readable(&self) -> (yes: bool)
        ensures
            yes == self.reads(),
    {
        match self {
            Permissions::Read => true,
            Permissions::Write => false,
            Permissions::ReadWrite => true,
        }
    }

    /// Whether writing is allowed.
    pub fn writable(&self) -> (yes: bool)
        ensures
            yes == self.writes(),
    {
        match self {
            Permissions::Read => false,
            Permissions::Write => true,
            Permissions::ReadWrite => true,
        }
    }

    /// The words for the permissions.
    pub fn as_str(&self) -> (s: &'static str)
        ensures
            s@ == self.text(),
    {
        match self {
            Permissions::Read => "read",
            Permissions::Write => "write",
            Permissions::ReadWrite => "read/write",
        }
    }
}

/// The kinds of errors that the system reports.
#[derive(PartialEq, Eq, Structural, Clone, Copy, Debug)]
pub enum IoErrorKind {
    AddrInUse,
    AddrNotAvailable,
    AlreadyExists,
    ArgumentListTooLong,
    BrokenPipe,
    ConnectionAborted,
    ConnectionRefused,
    ConnectionReset,
    Deadlock,
    DirectoryNotEmpty,
    ExecutableFileBusy,
    FileTooLarge,
    HostUnreachable,
    Interrupted,
    InvalidData,
    InvalidInput,
    IsADirectory,
    NetworkDown,
    NetworkUnreachable,
    NotADirectory,
    NotConnected,
    NotFound,
    NotSeekable,
    OutOfMemory,
    PermissionDenied,
    ReadOnlyFilesystem,
    ResourceBusy,
    StaleNetworkFileHandle,
    StorageFull,
    TimedOut,
    TooManyLinks,
    UnexpectedEof,
    Unsupported,
    WouldBlock,
    WriteZero,
    Other,
}

/// An error that the system reported.
#[derive(Debug)]
pub struct IoError {
    /// The kind of the error.
    pub kind: IoErrorKind,
    /// The number that the system gave it, if it came from the system.
    pub raw_os_error: Option<i32>,
    /// A short description. Of an error that came from the system it is that of its kind.
    pub description: String,
    /// What happened, in words.
    pub message: String,
}

} // verus!
