//! The evaluation of redirections.

use crate::ast::{Redirect, Word};
use crate::env::{EnvView, Environment, Shell};
use crate::error::{ErrorView, RuntimeError};
use crate::io::{Fd, Permissions, STDIN_FILENO, STDOUT_FILENO};
use crate::number::{parse_decimal, parsed};
use crate::outcome::{evaluated, Abort, Outcome};
use crate::status::{ExitStatus, EXIT_ERROR};
use crate::text::share;
use crate::word::{text_outcome, word};
use std::rc::Rc;
use vstd::prelude::*;
use vstd::string::*;

verus! {

/// What a redirection does to a file descriptor.
pub enum Redirection<D> {
    /// The file descriptor is closed.
    Close(Fd),
    /// The file descriptor gets a handle that is open already.
    Duplicate(Fd, Rc<D>, Permissions),
    /// The file descriptor gets the handle of a file that is to be opened.
    Open {
        fd: Fd,
        path: Rc<String>,
        permissions: Permissions,
        /// Whether what is written goes to the end of the file.
        append: bool,
    },
}

/// What a redirection does to a file descriptor, with its strings seen as texts.
#[verifier::reject_recursive_types(D)]
pub enum RedirectionView<D> {
    Close(Fd),
    Duplicate(Fd, Rc<D>, Permissions),
    Open { fd: Fd, path: Seq<char>, permissions: Permissions, append: bool },
}

impl<D> View for Redirection<D> {
    type V = RedirectionView<D>;

    open spec fn view(&self) -> RedirectionView<D> {
        match *self {
            Redirection::Close(fd) => RedirectionView::Close(fd),
            Redirection::Duplicate(fd, fdes, perms) => RedirectionView::Duplicate(fd, fdes, perms),
            Redirection::Open { fd, path, permissions, append } => RedirectionView::Open {
                fd,
                path: path@,
                permissions,
                append,
            },
        }
    }
}

/// The path that a word evaluates to: it must give exactly one field.
pub open spec fn path_of(w: Word, sh: Shell) -> (Outcome<Seq<char>>, Shell) {
    let (o, s1) = word(w, sh, true, false);
    match o {
        Outcome::Value(fields) => if fields.list().len() == 1 {
            (Outcome::Value(fields.list()[0]), s1)
        } else {
            (Outcome::Error(ErrorView::RedirectAmbiguous(fields.list())), s1)
        },
        _ => (o.without_value(), s1),
    }
}

/// A file descriptor, or the given one where none was given.
pub open spec fn fd_or(fd: Option<Fd>, default: Fd) -> Fd {
    match fd {
        Some(fd) => fd,
        None => default,
    }
}

/// What the redirection to a file does.
pub open spec fn open_path<D>(
    fd: Fd,
    w: Word,
    permissions: Permissions,
    append: bool,
    sh: Shell,
) -> (Outcome<RedirectionView<D>>, Shell) {
    let (o, s1) = path_of(w, sh);
    match o {
        Outcome::Value(path) => (
            Outcome::Value(RedirectionView::Open { fd, path, permissions, append }),
            s1,
        ),
        _ => (o.without_value(), s1),
    }
}

/// The permission that a redirection to another file descriptor asks for.
pub open spec fn asked_for(readable: bool) -> Permissions {
    if readable {
        Permissions::Read
    } else {
        Permissions::Write
    }
}

/// Why a file descriptor cannot be duplicated for reading or for writing, if so.
pub open spec fn bad_source<D, F>(src: Seq<char>, readable: bool, st: EnvView<D, F>) -> Option<
    ErrorView,
> {
    match parsed(src, false, 0, Fd::MAX as int) {
        Some(fd) => match st.file_desc(fd as Fd) {
            Some((_, perms)) => if (readable && perms.reads()) || (!readable && perms.writes()) {
                None
            } else {
                Some(ErrorView::RedirectBadFdPerms(fd as Fd, asked_for(readable)))
            },
            None => Some(ErrorView::RedirectBadFdSrc(src)),
        },
        None => Some(ErrorView::RedirectBadFdSrc(src)),
    }
}

/// What the redirection to another file descriptor does. A `-` closes the descriptor.
/// Otherwise the other one must be open with the permission that is asked for.
pub open spec fn duplicate<D, F>(fd: Fd, w: Word, readable: bool, st: EnvView<D, F>) -> (
    Outcome<RedirectionView<D>>,
    Shell,
) {
    let (o, s1) = path_of(w, st.shell);
    match o {
        Outcome::Value(src) => if src == "-"@ {
            (Outcome::Value(RedirectionView::Close(fd)), s1)
        } else {
            match bad_source(src, readable, st) {
                Some(e) => (Outcome::Error(e), s1.with_status(ExitStatus::Code(EXIT_ERROR))),
                None => {
                    let from = parsed(src, false, 0, Fd::MAX as int)->0 as Fd;
                    let fdes = (st.file_desc(from)->0).0;
                    let perms = asked_for(readable);
                    (Outcome::Value(RedirectionView::Duplicate(fd, fdes, perms)), s1)
                },
            }
        },
        _ => (o.without_value(), s1),
    }
}

/// What a redirection does, and the shell after its evaluation.
/// Text that is given in the script has no meaning.
pub open spec fn redirection<D, F>(r: Redirect, st: EnvView<D, F>) -> (
    Outcome<RedirectionView<D>>,
    Shell,
) {
    match r {
        Redirect::Read(fd, w) => open_path(
            fd_or(fd, STDIN_FILENO),
            w,
            Permissions::Read,
            false,
            st.shell,
        ),
        Redirect::ReadWrite(fd, w) => open_path(
            fd_or(fd, STDIN_FILENO),
            w,
            Permissions::ReadWrite,
            false,
            st.shell,
        ),
        Redirect::Write(fd, w) => open_path(
            fd_or(fd, STDOUT_FILENO),
            w,
            Permissions::Write,
            false,
            st.shell,
        ),
        Redirect::Clobber(fd, w) => open_path(
            fd_or(fd, STDOUT_FILENO),
            w,
            Permissions::Write,
            false,
            st.shell,
        ),
        Redirect::Append(fd, w) => open_path(
            fd_or(fd, STDOUT_FILENO),
            w,
            Permissions::Write,
            true,
            st.shell,
        ),
        Redirect::DupRead(fd, w) => duplicate(fd_or(fd, STDIN_FILENO), w, true, st),
        Redirect::DupWrite(fd, w) => duplicate(fd_or(fd, STDOUT_FILENO), w, false, st),
        Redirect::Heredoc(_, _) => (Outcome::Undefined, st.shell),
    }
}

/// The outcome that a result with a redirection shows.
pub open spec fn redirection_outcome<D>(result: Result<Redirection<D>, Abort>) -> Outcome<
    RedirectionView<D>,
> {
    match result {
        Ok(r) => Outcome::Value(r@),
        Err(abort) => abort.outcome(),
    }
}

/// The outcome that a result with a redirection shows, where a meaning is known.
pub open spec fn defined_redirection<D>(result: Result<Redirection<D>, RuntimeError>) -> Outcome<
    RedirectionView<D>,
> {
    match result {
        Ok(r) => Outcome::Value(r@),
        Err(e) => Outcome::Error(e@),
    }
}

impl Redirect {
    /// Evaluates a redirection path and says which file descriptor is affected, and what
    /// becomes of it.
    ///
    /// Newly closed/duplicated file descriptors are NOT updated in the environment, and files
    /// are NOT opened: it is up to the caller to open them and to update the environment
    /// as appropriate.
    pub fn eval<E: Environment>(&self, env: &mut E) -> (result: Result<
        Redirection<E::Desc>,
        RuntimeError,
    >)
        requires
            redirection(*self, old(env).state()).0 !is Undefined,
        ensures
            evaluated(
                *old(env),
                *final(env),
                defined_redirection(result),
                redirection(*self, old(env).state()),
            ),
    {
        match self.try_eval(env) {
            Ok(r) => Ok(r),
            Err(Abort::Error(e)) => Err(e),
            Err(Abort::Undefined) => vstd::pervasive::unreached(),
        }
    }

    /// Evaluates a redirection, and says where nothing is defined for it.
    pub fn try_eval<E: Environment>(&self, env: &mut E) -> (result: Result<
        Redirection<E::Desc>,
        Abort,
    >)
        ensures
            evaluated(
                *old(env),
                *final(env),
                redirection_outcome(result),
                redirection(*self, old(env).state()),
            ),
    {
        match self {
            Redirect::Read(fd, w) => eval_open(
                fd.unwrap_or(STDIN_FILENO),
                w,
                Permissions::Read,
                false,
                env,
            ),
            Redirect::ReadWrite(fd, w) => eval_open(
                fd.unwrap_or(STDIN_FILENO),
                w,
                Permissions::ReadWrite,
                false,
                env,
            ),
            Redirect::Write(fd, w) | Redirect::Clobber(fd, w) => eval_open(
                fd.unwrap_or(STDOUT_FILENO),
                w,
                Permissions::Write,
                false,
                env,
            ),
            Redirect::Append(fd, w) => eval_open(
                fd.unwrap_or(STDOUT_FILENO),
                w,
                Permissions::Write,
                true,
                env,
            ),
            Redirect::DupRead(fd, w) => eval_duplicate(fd.unwrap_or(STDIN_FILENO), w, true, env),
            Redirect::DupWrite(fd, w) => eval_duplicate(
                fd.unwrap_or(STDOUT_FILENO),
                w,
                false,
                env,
            ),
            Redirect::Heredoc(_, _) => Err(Abort::Undefined),
        }
    }
}

fn eval_path<E: Environment>(w: &Word, env: &mut E) -> (result: Result<Rc<String>, Abort>)
    ensures
        evaluated(
            *old(env),
            *final(env),
            text_outcome(result),
            path_of(*w, old(env).state().shell),
        ),
{
    match w.try_eval_with_config(env, true, false) {
        Ok(fields) => {
            let list = fields.into_vec();
            if list.len() == 1 {
                Ok(share(&list[0]))
            } else {
                Err(Abort::Error(RuntimeError::RedirectAmbiguous(list)))
            }
        },
        Err(abort) => Err(abort),
    }
}

fn eval_open<E: Environment>(
    fd: Fd,
    w: &Word,
    permissions: Permissions,
    append: bool,
    env: &mut E,
) -> (result: Result<Redirection<E::Desc>, Abort>)
    ensures
        evaluated(
            *old(env),
            *final(env),
            redirection_outcome(result),
            open_path(fd, *w, permissions, append, old(env).state().shell),
        ),
{
    match eval_path(w, env) {
        Ok(path) => Ok(Redirection::Open { fd, path, permissions, append }),
        Err(abort) => Err(abort),
    }
}

fn desired(readable: bool) -> (perms: Permissions)
    ensures
        perms == asked_for(readable),
{
    if readable {
        Permissions::Read
    } else {
        Permissions::Write
    }
}

/// The handle that a text names, if it can be duplicated for reading or for writing.
fn find_source<E: Environment>(src: &Rc<String>, readable: bool, env: &E) -> (result: Result<
    Rc<E::Desc>,
    RuntimeError,
>)
    ensures
        match result {
            Ok(fdes) => {
                let from = parsed(src@, false, 0, Fd::MAX as int)->0 as Fd;
                &&& bad_source(src@, readable, env.state()) is None
                &&& fdes == (env.state().file_desc(from)->0).0
            },
            Err(e) => bad_source(src@, readable, env.state()) == Some(e@),
        },
{
    match parse_decimal(src.as_str(), false, 0, Fd::MAX as i128) {
        Some(n) => {
            let fd: Fd = n as Fd;
            match env.file_desc(fd) {
                Some((fdes, perms)) => if (readable && perms.readable()) || (!readable
                    && perms.writable()) {
                    Ok(share(fdes))
                } else {
                    Err(RuntimeError::RedirectBadFdPerms(fd, desired(readable)))
                },
                None => Err(RuntimeError::RedirectBadFdSrc(share(src))),
            }
        },
        None => Err(RuntimeError::RedirectBadFdSrc(share(src))),
    }
}

fn eval_duplicate<E: Environment>(fd: Fd, w: &Word, readable: bool, env: &mut E) -> (result: Result<
    Redirection<E::Desc>,
    Abort,
>)
    ensures
        evaluated(
            *old(env),
            *final(env),
            redirection_outcome(result),
            duplicate(fd, *w, readable, old(env).state()),
        ),
{
    let src = match eval_path(w, env) {
        Ok(src) => src,
        Err(abort) => {
            return Err(abort);
        },
    };
    if *src == "-".to_owned() {
        return Ok(Redirection::Close(fd));
    }
    match find_source(&src, readable, env) {
        Ok(fdes) => Ok(Redirection::Duplicate(fd, fdes, desired(readable))),
        Err(e) => {
            env.set_last_status(ExitStatus::Code(EXIT_ERROR));
            Err(Abort::Error(e))
        },
    }
}

} // verus!
