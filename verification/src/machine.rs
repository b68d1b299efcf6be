//! The commands of a script, run step by step.
//!
//! A machine decides what happens next while a command is run. What only the system can do, such
//! as opening a file or starting a program, it asks for by an action, and it goes on with the
//! event that says what came of it.

use crate::ast::{Command, CompoundCommand, Redirect, SimpleCommand, Word};
use crate::env::{EnvView, Shell};
use crate::error::{result_view, ErrorView, ResultView, RuntimeError};
use crate::io::{Fd, IoError, IoErrorKind, Permissions, STDERR_FILENO, STDIN_FILENO, STDOUT_FILENO};
use crate::outcome::Outcome;
use crate::redirect::{redirection, RedirectionView};
use crate::status::{
    ExitStatus, EXIT_CMD_NOT_EXECUTABLE, EXIT_CMD_NOT_FOUND, EXIT_ERROR, EXIT_SUCCESS,
};
use crate::strmap::StrMap;
use crate::text::texts;
use crate::word::{all_fields, assignment, word};
use std::collections::HashMap;
use std::rc::Rc;
use vstd::prelude::*;

verus! {

/// The status of a command that ended with a code.
pub open spec fn code(c: i32) -> ExitStatus {
    ExitStatus::Code(c)
}

/// What a program has for one of its standard streams.
pub enum Stdio<D> {
    /// A handle.
    Handle(Rc<D>),
    /// Nothing.
    Null,
    /// What the current process has.
    Inherit,
}

/// A program to start.
pub struct Process<D> {
    /// The name of the program.
    pub program: Rc<String>,
    /// Its arguments.
    pub args: Vec<Rc<String>>,
    /// The environment variables that it gets besides those of the current process.
    pub env: StrMap<Rc<String>>,
    /// Its standard input.
    pub stdin: Stdio<D>,
    /// Its standard output.
    pub stdout: Stdio<D>,
    /// Its standard error.
    pub stderr: Stdio<D>,
}

/// A program to start, with its strings seen as texts.
#[verifier::reject_recursive_types(D)]
pub struct ProcessView<D> {
    pub program: Seq<char>,
    pub args: Seq<Seq<char>>,
    pub env: Map<Seq<char>, Seq<char>>,
    pub stdin: Stdio<D>,
    pub stdout: Stdio<D>,
    pub stderr: Stdio<D>,
}

/// A map to strings, with them seen as texts.
pub open spec fn text_map(map: Map<Seq<char>, Rc<String>>) -> Map<Seq<char>, Seq<char>> {
    Map::new(|name: Seq<char>| map.dom().contains(name), |name: Seq<char>| map[name]@)
}

impl<D> View for Process<D> {
    type V = ProcessView<D>;

    open spec fn view(&self) -> ProcessView<D> {
        ProcessView {
            program: self.program@,
            args: texts(self.args@),
            env: text_map(self.env@),
            stdin: self.stdin,
            stdout: self.stdout,
            stderr: self.stderr,
        }
    }
}

/// What a machine asks for.
pub enum Action<D> {
    /// That it goes on.
    Continue,
    /// That a file is opened.
    Open {
        path: Rc<String>,
        permissions: Permissions,
        /// Whether what is written goes to the end of the file.
        append: bool,
    },
    /// That a program is started and waited for.
    Spawn(Process<D>),
    /// That a function is made of its body.
    Define(Rc<Command>),
    /// That the function is called.
    Call,
    /// Nothing more: this is the result.
    Finished(Result<ExitStatus, RuntimeError>),
    /// Nothing more: the command has no meaning.
    Undefined,
}

/// What a machine asks for, with its strings seen as texts.
#[verifier::reject_recursive_types(D)]
pub enum ActionView<D> {
    Continue,
    Open { path: Seq<char>, permissions: Permissions, append: bool },
    Spawn(ProcessView<D>),
    Define(Rc<Command>),
    Call,
    Finished(ResultView),
    Undefined,
}

impl<D> View for Action<D> {
    type V = ActionView<D>;

    open spec fn view(&self) -> ActionView<D> {
        match *self {
            Action::Continue => ActionView::Continue,
            Action::Open { path, permissions, append } => ActionView::Open {
                path: path@,
                permissions,
                append,
            },
            Action::Spawn(process) => ActionView::Spawn(process@),
            Action::Define(body) => ActionView::Define(body),
            Action::Call => ActionView::Call,
            Action::Finished(result) => ActionView::Finished(result_view(result)),
            Action::Undefined => ActionView::Undefined,
        }
    }
}

/// What came of an action.
pub enum Event<D, F> {
    /// Nothing was to be done.
    Proceed,
    /// The file was opened.
    Opened(Rc<D>),
    /// The file could not be opened.
    OpenFailed(IoError),
    /// The function was made.
    Defined(F),
    /// The program ended.
    Exited(ExitStatus),
    /// The program could not be started.
    SpawnFailed(IoError),
    /// A handle for the program could not be had.
    HandleFailed(IoError),
}

/// What came of an action, a call among them.
#[verifier::reject_recursive_types(D)]
#[verifier::reject_recursive_types(F)]
pub enum EventView<D, F> {
    Proceed,
    Opened(Rc<D>),
    OpenFailed(IoError),
    Defined(F),
    Exited(ExitStatus),
    SpawnFailed(IoError),
    HandleFailed(IoError),
    /// The function was called, if there was one, and left the environment like this.
    Called(Option<ResultView>, EnvView<D, F>),
}

impl<D, F> View for Event<D, F> {
    type V = EventView<D, F>;

    open spec fn view(&self) -> EventView<D, F> {
        match *self {
            Event::Proceed => EventView::Proceed,
            Event::Opened(fdes) => EventView::Opened(fdes),
            Event::OpenFailed(e) => EventView::OpenFailed(e),
            Event::Defined(func) => EventView::Defined(func),
            Event::Exited(status) => EventView::Exited(status),
            Event::SpawnFailed(e) => EventView::SpawnFailed(e),
            Event::HandleFailed(e) => EventView::HandleFailed(e),
        }
    }
}

/// A program that is about to be started.
pub struct Launch<D> {
    pub program: Rc<String>,
    pub args: Vec<Rc<String>>,
    pub env: StrMap<Rc<String>>,
    /// The file descriptors that were redirected for it: to a handle, or closed.
    pub handles: HashMap<Fd, Option<Rc<D>>>,
}

/// A program that is about to be started, with its strings seen as texts.
#[verifier::reject_recursive_types(D)]
pub struct LaunchView<D> {
    pub program: Seq<char>,
    pub args: Seq<Seq<char>>,
    pub env: Map<Seq<char>, Seq<char>>,
    pub handles: Map<Fd, Option<Rc<D>>>,
}

impl<D> View for Launch<D> {
    type V = LaunchView<D>;

    open spec fn view(&self) -> LaunchView<D> {
        LaunchView {
            program: self.program@,
            args: texts(self.args@),
            env: text_map(self.env@),
            handles: self.handles@,
        }
    }
}

/// What redirections are evaluated for.
pub enum Purpose<'s, D> {
    /// A compound command, which sees the redirected descriptors in place of those
    /// of the environment.
    Compound {
        body: &'s CompoundCommand,
        /// The descriptors that were open before.
        backup: Vec<(Fd, Rc<D>, Permissions)>,
        /// The descriptors that are open for the command.
        fresh: Vec<(Fd, Rc<D>, Permissions)>,
    },
    /// Nothing: there is no command.
    Touch,
    /// A program.
    Launch(Launch<D>),
}

/// What redirections are evaluated for, with strings seen as texts.
#[verifier::reject_recursive_types(D)]
pub enum PurposeView<D> {
    Compound {
        body: CompoundCommand,
        backup: Seq<(Fd, Rc<D>, Permissions)>,
        fresh: Seq<(Fd, Rc<D>, Permissions)>,
    },
    Touch,
    Launch(LaunchView<D>),
}

impl<'s, D> View for Purpose<'s, D> {
    type V = PurposeView<D>;

    open spec fn view(&self) -> PurposeView<D> {
        match *self {
            Purpose::Compound { body, backup, fresh } => PurposeView::Compound {
                body: *body,
                backup: backup@,
                fresh: fresh@,
            },
            Purpose::Touch => PurposeView::Touch,
            Purpose::Launch(launch) => PurposeView::Launch(launch@),
        }
    }
}

/// Where a machine stands.
pub enum Control<'s, D> {
    /// Before a command.
    Command(&'s Command),
    /// Before a compound command.
    Compound(&'s CompoundCommand),
    /// Before a simple command.
    Simple(&'s SimpleCommand),
    /// Before a list of commands.
    List(&'s Vec<Command>),
    /// After a command with this result.
    Return(Result<ExitStatus, RuntimeError>),
    /// At the definition of a function with this name.
    Defining(&'s String),
    /// Before the redirection at an index of a list.
    Redirecting(&'s Vec<Redirect>, usize, Purpose<'s, D>),
    /// At the opening of a file for the redirection in front of an index.
    Opening(Fd, Permissions, &'s Vec<Redirect>, usize, Purpose<'s, D>),
    /// At the call of a function.
    Calling(Rc<String>, Vec<Rc<String>>),
    /// Before the start of a program.
    Launching(Launch<D>),
    /// At the run of a program with this name.
    Spawning(Rc<String>),
    /// At the end.
    Done,
}

/// Where a machine stands, with strings seen as texts.
#[verifier::reject_recursive_types(D)]
pub enum ControlView<D> {
    Command(Command),
    Compound(CompoundCommand),
    Simple(SimpleCommand),
    List(Seq<Command>),
    Return(ResultView),
    Defining(Seq<char>),
    Redirecting(Seq<Redirect>, int, PurposeView<D>),
    Opening(Fd, Permissions, Seq<Redirect>, int, PurposeView<D>),
    Calling(Seq<char>, Seq<Seq<char>>),
    Launching(LaunchView<D>),
    Spawning(Seq<char>),
    Done,
}

impl<'s, D> View for Control<'s, D> {
    type V = ControlView<D>;

    open spec fn view(&self) -> ControlView<D> {
        match *self {
            Control::Command(c) => ControlView::Command(*c),
            Control::Compound(c) => ControlView::Compound(*c),
            Control::Simple(c) => ControlView::Simple(*c),
            Control::List(cmds) => ControlView::List(cmds@),
            Control::Return(result) => ControlView::Return(result_view(result)),
            Control::Defining(name) => ControlView::Defining(name@),
            Control::Redirecting(list, i, purpose) => ControlView::Redirecting(
                list@,
                i as int,
                purpose@,
            ),
            Control::Opening(fd, perms, list, i, purpose) => ControlView::Opening(
                fd,
                perms,
                list@,
                i as int,
                purpose@,
            ),
            Control::Calling(name, args) => ControlView::Calling(name@, texts(args@)),
            Control::Launching(launch) => ControlView::Launching(launch@),
            Control::Spawning(program) => ControlView::Spawning(program@),
            Control::Done => ControlView::Done,
        }
    }
}

/// What is left to do once a command has a result.
pub enum Frame<'s, D> {
    /// Its status is recorded.
    Record,
    /// `&& second`
    AndThen(&'s Command),
    /// `|| second`
    OrElse(&'s Command),
    /// The rest of a list, from an index on.
    List(&'s Vec<Command>, usize),
    /// A loop, whose guard was run. It has the given status if it ends here.
    Guard { until: bool, guard: &'s Vec<Command>, body: &'s Vec<Command>, exit: ExitStatus },
    /// A loop, whose body was run.
    Body { until: bool, guard: &'s Vec<Command>, body: &'s Vec<Command> },
    /// A branch of an `if`, whose guard was run, and the other branches from an index on.
    Branch {
        body: &'s Vec<Command>,
        branches: &'s Vec<(Vec<Command>, Vec<Command>)>,
        i: usize,
        otherwise: &'s Option<Vec<Command>>,
    },
    /// The values of a `for` that are left, from an index on.
    Each { var: &'s String, values: Vec<Rc<String>>, i: usize, body: &'s Vec<Command> },
    /// The environment of a subshell is left.
    Subshell,
    /// The file descriptors are as before again.
    Restore { backup: Vec<(Fd, Rc<D>, Permissions)>, fresh: Vec<(Fd, Rc<D>, Permissions)> },
}

/// What is left to do once a command has a result, with strings seen as texts.
#[verifier::reject_recursive_types(D)]
pub enum FrameView<D> {
    Record,
    AndThen(Command),
    OrElse(Command),
    List(Seq<Command>, int),
    Guard { until: bool, guard: Seq<Command>, body: Seq<Command>, exit: ExitStatus },
    Body { until: bool, guard: Seq<Command>, body: Seq<Command> },
    Branch {
        body: Seq<Command>,
        branches: Seq<(Vec<Command>, Vec<Command>)>,
        i: int,
        otherwise: Option<Vec<Command>>,
    },
    Each { var: Seq<char>, values: Seq<Seq<char>>, i: int, body: Seq<Command> },
    Subshell,
    Restore { backup: Seq<(Fd, Rc<D>, Permissions)>, fresh: Seq<(Fd, Rc<D>, Permissions)> },
}

impl<'s, D> View for Frame<'s, D> {
    type V = FrameView<D>;

    open spec fn view(&self) -> FrameView<D> {
        match *self {
            Frame::Record => FrameView::Record,
            Frame::AndThen(c) => FrameView::AndThen(*c),
            Frame::OrElse(c) => FrameView::OrElse(*c),
            Frame::List(cmds, i) => FrameView::List(cmds@, i as int),
            Frame::Guard { until, guard, body, exit } => FrameView::Guard {
                until,
                guard: guard@,
                body: body@,
                exit,
            },
            Frame::Body { until, guard, body } => FrameView::Body {
                until,
                guard: guard@,
                body: body@,
            },
            Frame::Branch { body, branches, i, otherwise } => FrameView::Branch {
                body: body@,
                branches: branches@,
                i: i as int,
                otherwise: *otherwise,
            },
            Frame::Each { var, values, i, body } => FrameView::Each {
                var: var@,
                values: texts(values@),
                i: i as int,
                body: body@,
            },
            Frame::Subshell => FrameView::Subshell,
            Frame::Restore { backup, fresh } => FrameView::Restore {
                backup: backup@,
                fresh: fresh@,
            },
        }
    }
}

/// Whether the next step is in the same environment.
#[derive(PartialEq, Eq, Structural, Clone, Copy, Debug)]
pub enum Shift {
    /// It is.
    Stay,
    /// It is in a new child of it.
    Enter,
    /// It is in its parent.
    Leave,
}

/// A step of a machine in one environment.
#[verifier::reject_recursive_types(D)]
#[verifier::reject_recursive_types(F)]
pub struct Step<D, F> {
    pub control: ControlView<D>,
    pub frames: Seq<FrameView<D>>,
    pub env: EnvView<D, F>,
    pub action: ActionView<D>,
    pub shift: Shift,
}

/// A step to another place.
pub open spec fn go<D, F>(
    control: ControlView<D>,
    frames: Seq<FrameView<D>>,
    st: EnvView<D, F>,
) -> Step<D, F> {
    Step { control, frames, env: st, action: ActionView::Continue, shift: Shift::Stay }
}

/// A step to the end, without a meaning.
pub open spec fn stuck<D, F>(frames: Seq<FrameView<D>>, st: EnvView<D, F>) -> Step<D, F> {
    Step {
        control: ControlView::Done,
        frames,
        env: st,
        action: ActionView::Undefined,
        shift: Shift::Stay,
    }
}

/// A step to the end of a command whose evaluation has no value.
pub open spec fn aborted<T, D, F>(o: Outcome<T>, frames: Seq<FrameView<D>>, st: EnvView<D, F>) -> Step<
    D,
    F,
> {
    match o {
        Outcome::Error(e) => go(ControlView::Return(Err(e)), frames, st),
        _ => stuck(frames, st),
    }
}

/// A command begins.
pub open spec fn begin_command<D, F>(
    c: Command,
    frames: Seq<FrameView<D>>,
    st: EnvView<D, F>,
) -> Step<D, F> {
    match c {
        Command::And(first, second) => go(
            ControlView::Command(*first),
            frames.push(FrameView::Record).push(FrameView::AndThen(*second)),
            st,
        ),
        Command::Or(first, second) => go(
            ControlView::Command(*first),
            frames.push(FrameView::Record).push(FrameView::OrElse(*second)),
            st,
        ),
        Command::Pipe(_, _) => stuck(frames, st),
        Command::Job(_) => go(
            ControlView::Return(
                Err(ErrorView::Unimplemented("job control is not currently supported"@)),
            ),
            frames,
            st.with_shell(st.shell.with_status(code(EXIT_ERROR))),
        ),
        Command::Function(name, body) => Step {
            control: ControlView::Defining(name@),
            frames: frames.push(FrameView::Record),
            env: st,
            action: ActionView::Define(body),
            shift: Shift::Stay,
        },
        Command::Compound(body, redirects) => go(
            ControlView::Redirecting(
                redirects@,
                0,
                PurposeView::Compound { body: *body, backup: Seq::empty(), fresh: Seq::empty() },
            ),
            frames.push(FrameView::Record),
            st,
        ),
        Command::Simple(cmd) => go(
            ControlView::Simple(*cmd),
            frames.push(FrameView::Record),
            st,
        ),
    }
}

/// Whether an arm of a `case` has a pattern.
pub open spec fn has_pattern(arms: Seq<(Vec<Word>, Vec<Command>)>) -> bool {
    exists|i: int| 0 <= i < arms.len() && (#[trigger] arms[i]).0@.len() > 0
}

/// A compound command begins.
pub open spec fn begin_compound<D, F>(
    c: CompoundCommand,
    frames: Seq<FrameView<D>>,
    st: EnvView<D, F>,
) -> Step<D, F> {
    let inner = frames.push(FrameView::Record);
    match c {
        CompoundCommand::Brace(cmds) => go(ControlView::List(cmds@), inner, st),
        CompoundCommand::Subshell(cmds) => Step {
            shift: Shift::Enter,
            ..go(ControlView::List(cmds@), inner.push(FrameView::Subshell), st)
        },
        CompoundCommand::While(guard, body) => go(
            ControlView::List(guard@),
            inner.push(
                FrameView::Guard {
                    until: false,
                    guard: guard@,
                    body: body@,
                    exit: code(EXIT_SUCCESS),
                },
            ),
            st,
        ),
        CompoundCommand::Until(guard, body) => go(
            ControlView::List(guard@),
            inner.push(
                FrameView::Guard {
                    until: true,
                    guard: guard@,
                    body: body@,
                    exit: code(EXIT_SUCCESS),
                },
            ),
            st,
        ),
        CompoundCommand::If(branches, otherwise) => if branches@.len() == 0 {
            go(ControlView::Return(Ok(code(EXIT_ERROR))), inner, st)
        } else {
            go(
                ControlView::List(branches@[0].0@),
                inner.push(
                    FrameView::Branch {
                        body: branches@[0].1@,
                        branches: branches@,
                        i: 1,
                        otherwise,
                    },
                ),
                st,
            )
        },
        CompoundCommand::For(var, words, body) => match words {
            Some(words) => {
                let (o, sh) = all_fields(words@, 0, Seq::empty(), st.shell);
                match o {
                    Outcome::Value(values) => go(
                        ControlView::Return(Ok(code(EXIT_SUCCESS))),
                        inner.push(FrameView::Each { var: var@, values, i: 0, body: body@ }),
                        st.with_shell(sh),
                    ),
                    _ => aborted(o, inner, st.with_shell(sh)),
                }
            },
            None => go(
                ControlView::Return(Ok(code(EXIT_SUCCESS))),
                inner.push(
                    FrameView::Each { var: var@, values: st.shell.args, i: 0, body: body@ },
                ),
                st,
            ),
        },
        CompoundCommand::Case(w, arms) => {
            let (o, sh) = word(w, st.shell, true, false);
            match o {
                Outcome::Value(_) => if has_pattern(arms@) {
                    stuck(inner, st.with_shell(sh))
                } else {
                    go(ControlView::Return(Ok(code(EXIT_SUCCESS))), inner, st.with_shell(sh))
                },
                _ => aborted(o, inner, st.with_shell(sh)),
            }
        },
    }
}

/// The assignments of a command without a name, from an index on: whether they have
/// a meaning and succeed, and the shell afterwards.
pub open spec fn assignments(vars: Seq<(String, Option<Word>)>, i: nat, sh: Shell) -> (
    Outcome<()>,
    Shell,
)
    decreases vars.len() - i,
{
    if i >= vars.len() {
        (Outcome::Value(()), sh)
    } else {
        match vars[i as int].1 {
            Some(w) => {
                let (o, s1) = assignment(w, sh);
                match o {
                    Outcome::Value(text) => assignments(
                        vars,
                        i + 1,
                        s1.with_var(vars[i as int].0@, text),
                    ),
                    _ => (o.without_value(), s1),
                }
            },
            None => assignments(vars, i + 1, sh),
        }
    }
}

/// The environment variables of a program, where those of its command are put over others,
/// from an index on.
pub open spec fn overrides(
    vars: Seq<(String, Option<Word>)>,
    i: nat,
    env: Map<Seq<char>, Seq<char>>,
    sh: Shell,
) -> (Outcome<Map<Seq<char>, Seq<char>>>, Shell)
    decreases vars.len() - i,
{
    if i >= vars.len() {
        (Outcome::Value(env), sh)
    } else {
        match vars[i as int].1 {
            Some(w) => {
                let (o, s1) = word(w, sh, true, true);
                match o {
                    Outcome::Value(fields) => overrides(
                        vars,
                        i + 1,
                        env.insert(vars[i as int].0@, fields.joined()),
                        s1,
                    ),
                    _ => (o.without_value(), s1),
                }
            },
            None => overrides(vars, i + 1, env, sh),
        }
    }
}

/// Whether a name is that of a function.
pub open spec fn is_function<D, F>(name: Seq<char>, st: EnvView<D, F>) -> bool {
    !name.contains('/') && st.function(name) is Some
}

/// A simple command begins.
///
/// Without a name, only its assignments and redirections count. Otherwise the name is
/// the first field of its word, and it is a function that is called, or a program.
pub open spec fn begin_simple<D, F>(
    c: SimpleCommand,
    frames: Seq<FrameView<D>>,
    st: EnvView<D, F>,
) -> Step<D, F> {
    match c.cmd {
        None => {
            let (o, sh) = assignments(c.vars@, 0, st.shell);
            match o {
                Outcome::Value(_) => Step {
                    shift: Shift::Enter,
                    ..go(
                        ControlView::Redirecting(c.io@, 0, PurposeView::Touch),
                        frames.push(FrameView::Record),
                        st.with_shell(sh),
                    )
                },
                _ => aborted(o, frames, st.with_shell(sh)),
            }
        },
        Some((name, words)) => {
            let (o, s1) = word(name, st.shell, true, true);
            match o {
                Outcome::Value(fields) => if fields.list().len() == 0 {
                    go(
                        ControlView::Return(Err(ErrorView::CommandNotFound(Seq::empty()))),
                        frames,
                        st.with_shell(s1.with_status(code(EXIT_CMD_NOT_FOUND))),
                    )
                } else {
                    begin_named(fields.list()[0], words@, c, frames, st.with_shell(s1))
                },
                _ => aborted(o, frames, st.with_shell(s1)),
            }
        },
    }
}

/// A simple command whose name is known goes on with its arguments.
pub open spec fn begin_named<D, F>(
    program: Seq<char>,
    words: Seq<Word>,
    c: SimpleCommand,
    frames: Seq<FrameView<D>>,
    st: EnvView<D, F>,
) -> Step<D, F> {
    let (o, s2) = all_fields(words, 0, Seq::empty(), st.shell);
    match o {
        Outcome::Value(args) => if is_function(program, st) {
            Step {
                control: ControlView::Calling(program, args),
                frames,
                env: st.with_shell(s2),
                action: ActionView::Call,
                shift: Shift::Stay,
            }
        } else {
            let (o, s3) = overrides(c.vars@, 0, s2.exports(), s2);
            match o {
                Outcome::Value(env) => Step {
                    shift: Shift::Enter,
                    ..go(
                        ControlView::Redirecting(
                            c.io@,
                            0,
                            PurposeView::Launch(
                                LaunchView { program, args, env, handles: Map::empty() },
                            ),
                        ),
                        frames,
                        st.with_shell(s3),
                    )
                },
                _ => aborted(o, frames, st.with_shell(s3)),
            }
        },
        _ => aborted(o, frames, st.with_shell(s2)),
    }
}

/// An environment where the given file descriptors are open. The last one of a number counts.
pub open spec fn with_fds<D, F>(
    st: EnvView<D, F>,
    list: Seq<(Fd, Rc<D>, Permissions)>,
) -> EnvView<D, F>
    decreases list.len(),
{
    if list.len() == 0 {
        st
    } else {
        let (fd, fdes, perms) = list.last();
        with_fds(st, list.drop_last()).with_file_desc(fd, fdes, perms)
    }
}

/// An environment where the given file descriptors are closed.
pub open spec fn without_fds<D, F>(
    st: EnvView<D, F>,
    list: Seq<(Fd, Rc<D>, Permissions)>,
) -> EnvView<D, F>
    decreases list.len(),
{
    if list.len() == 0 {
        st
    } else {
        without_fds(st, list.drop_last()).without_file_desc(list.last().0)
    }
}

/// A list of descriptors without one of them.
pub open spec fn dropped<D>(list: Seq<(Fd, Rc<D>, Permissions)>, fd: Fd) -> Seq<
    (Fd, Rc<D>, Permissions),
>
    decreases list.len(),
{
    if list.len() == 0 {
        list
    } else if list.last().0 == fd {
        dropped(list.drop_last(), fd)
    } else {
        dropped(list.drop_last(), fd).push(list.last())
    }
}

impl<D> PurposeView<D> {
    /// After a redirection, where a file descriptor gets a handle or is closed.
    ///
    /// For a compound command, what was open before is backed up,
    /// and what is open for it is put aside, unless it is closed after all.
    pub open spec fn redirected<F>(
        self,
        fd: Fd,
        desc: Option<(Rc<D>, Permissions)>,
        st: EnvView<D, F>,
    ) -> PurposeView<D> {
        match self {
            PurposeView::Compound { body, backup, fresh } => PurposeView::Compound {
                body,
                backup: match st.file_desc(fd) {
                    Some((fdes, perms)) => backup.push((fd, fdes, perms)),
                    None => backup,
                },
                fresh: match desc {
                    Some((fdes, perms)) => fresh.push((fd, fdes, perms)),
                    None => dropped(fresh, fd),
                },
            },
            PurposeView::Touch => self,
            PurposeView::Launch(launch) => PurposeView::Launch(
                LaunchView {
                    handles: launch.handles.insert(
                        fd,
                        match desc {
                            Some((fdes, _)) => Some(fdes),
                            None => None,
                        },
                    ),
                    ..launch
                },
            ),
        }
    }

    /// The environment after a redirection. For a compound command the descriptor
    /// is only closed yet.
    pub open spec fn environment<F>(
        self,
        fd: Fd,
        desc: Option<(Rc<D>, Permissions)>,
        st: EnvView<D, F>,
    ) -> EnvView<D, F> {
        match desc {
            Some((fdes, perms)) if !(self is Compound) => st.with_file_desc(fd, fdes, perms),
            _ => st.without_file_desc(fd),
        }
    }

    /// A redirection fails.
    pub open spec fn failed<F>(
        self,
        e: ErrorView,
        frames: Seq<FrameView<D>>,
        st: EnvView<D, F>,
    ) -> Step<D, F> {
        match self {
            PurposeView::Compound { backup, .. } => go(
                ControlView::Return(Err(e)),
                frames,
                with_fds(st.with_shell(st.shell.with_status(code(EXIT_ERROR))), backup),
            ),
            _ => Step {
                shift: Shift::Leave,
                ..go(ControlView::Return(Err(e)), frames, st)
            },
        }
    }

    /// All redirections are done.
    pub open spec fn done<F>(self, frames: Seq<FrameView<D>>, st: EnvView<D, F>) -> Step<D, F> {
        match self {
            PurposeView::Compound { body, backup, fresh } => go(
                ControlView::Compound(body),
                frames.push(FrameView::Restore { backup, fresh }),
                with_fds(st, fresh),
            ),
            PurposeView::Touch => Step {
                shift: Shift::Leave,
                ..go(ControlView::Return(Ok(code(EXIT_SUCCESS))), frames, st)
            },
            PurposeView::Launch(launch) => Step {
                shift: Shift::Leave,
                ..go(ControlView::Launching(launch), frames, st)
            },
        }
    }
}

/// The next redirection of a list.
pub open spec fn redirect_next<D, F>(
    list: Seq<Redirect>,
    i: int,
    purpose: PurposeView<D>,
    frames: Seq<FrameView<D>>,
    st: EnvView<D, F>,
) -> Step<D, F> {
    if i >= list.len() {
        purpose.done(frames, st)
    } else {
        let (o, sh) = redirection(list[i], st);
        let st1 = st.with_shell(sh);
        match o {
            Outcome::Value(RedirectionView::Close(fd)) => go(
                ControlView::Redirecting(list, i + 1, purpose.redirected(fd, None, st1)),
                frames,
                purpose.environment(fd, None, st1),
            ),
            Outcome::Value(RedirectionView::Duplicate(fd, fdes, perms)) => go(
                ControlView::Redirecting(
                    list,
                    i + 1,
                    purpose.redirected(fd, Some((fdes, perms)), st1),
                ),
                frames,
                purpose.environment(fd, Some((fdes, perms)), st1),
            ),
            Outcome::Value(RedirectionView::Open { fd, path, permissions, append }) => Step {
                action: ActionView::Open { path, permissions, append },
                ..go(
                    ControlView::Opening(fd, permissions, list, i + 1, purpose),
                    frames,
                    st1,
                )
            },
            Outcome::Error(e) => purpose.failed(e, frames, st1),
            Outcome::Undefined => stuck(frames, st1),
        }
    }
}

/// What a program has for a standard stream: what it was redirected to, or what
/// the environment has open for it.
pub open spec fn stream<D, F>(
    handles: Map<Fd, Option<Rc<D>>>,
    fd: Fd,
    st: EnvView<D, F>,
) -> Stdio<D> {
    if handles.dom().contains(fd) {
        match handles[fd] {
            Some(fdes) => Stdio::Handle(fdes),
            None => Stdio::Null,
        }
    } else {
        match st.file_desc(fd) {
            Some((fdes, _)) => Stdio::Handle(fdes),
            None => Stdio::Inherit,
        }
    }
}

/// The program to start.
pub open spec fn process<D, F>(launch: LaunchView<D>, st: EnvView<D, F>) -> ProcessView<D> {
    ProcessView {
        program: launch.program,
        args: launch.args,
        env: launch.env,
        stdin: stream(launch.handles, STDIN_FILENO, st),
        stdout: stream(launch.handles, STDOUT_FILENO, st),
        stderr: stream(launch.handles, STDERR_FILENO, st),
    }
}

/// The code and the error where a program could not be started. A file that cannot be executed
/// is one that there is no permission for, or one that the system marks by the given number.
pub open spec fn spawn_failure(program: Seq<char>, e: IoError, noexec: i32) -> (i32, ErrorView) {
    if e.kind == IoErrorKind::NotFound {
        (EXIT_CMD_NOT_FOUND, ErrorView::CommandNotFound(program))
    } else if e.kind == IoErrorKind::PermissionDenied || e.raw_os_error == Some(noexec) {
        (EXIT_CMD_NOT_EXECUTABLE, ErrorView::CommandNotExecutable(program))
    } else {
        (EXIT_ERROR, ErrorView::Io(e))
    }
}

/// What was left to do goes on with the result of a command.
pub open spec fn resume<D, F>(
    frame: FrameView<D>,
    result: ResultView,
    frames: Seq<FrameView<D>>,
    st: EnvView<D, F>,
) -> Step<D, F> {
    match (frame, result) {
        (FrameView::Subshell, _) => Step {
            shift: Shift::Leave,
            ..go(ControlView::Return(result), frames, st)
        },
        (FrameView::Restore { backup, fresh }, _) => go(
            ControlView::Return(result),
            frames,
            with_fds(without_fds(st, fresh), backup),
        ),
        (_, Err(_)) => go(ControlView::Return(result), frames, st),
        (FrameView::Record, Ok(exit)) => go(
            ControlView::Return(result),
            frames,
            st.with_shell(st.shell.with_status(exit)),
        ),
        (FrameView::AndThen(second), Ok(exit)) => if exit.is_success() {
            go(ControlView::Command(second), frames, st)
        } else {
            go(ControlView::Return(result), frames, st)
        },
        (FrameView::OrElse(second), Ok(exit)) => if exit.is_success() {
            go(ControlView::Return(result), frames, st)
        } else {
            go(ControlView::Command(second), frames, st)
        },
        (FrameView::List(cmds, i), Ok(exit)) => if i < cmds.len() {
            go(ControlView::Command(cmds[i]), frames.push(FrameView::List(cmds, i + 1)), st)
        } else {
            go(ControlView::Return(result), frames, st.with_shell(st.shell.with_status(exit)))
        },
        (FrameView::Guard { until, guard, body, exit }, Ok(tested)) => if tested.is_success()
            != until {
            go(ControlView::List(body), frames.push(FrameView::Body { until, guard, body }), st)
        } else {
            go(ControlView::Return(Ok(exit)), frames, st)
        },
        (FrameView::Body { until, guard, body }, Ok(exit)) => go(
            ControlView::List(guard),
            frames.push(FrameView::Guard { until, guard, body, exit }),
            st,
        ),
        (
            FrameView::Branch { body, branches, i, otherwise },
            Ok(tested),
        ) => if tested.is_success() {
            go(ControlView::List(body), frames, st)
        } else if i < branches.len() {
            go(
                ControlView::List(branches[i].0@),
                frames.push(
                    FrameView::Branch { body: branches[i].1@, branches, i: i + 1, otherwise },
                ),
                st,
            )
        } else {
            match otherwise {
                Some(cmds) => go(ControlView::List(cmds@), frames, st),
                None => go(ControlView::Return(Ok(code(EXIT_SUCCESS))), frames, st),
            }
        },
        (FrameView::Each { var, values, i, body }, Ok(_)) => if i < values.len() {
            go(
                ControlView::List(body),
                frames.push(FrameView::Each { var, values, i: i + 1, body }),
                st.with_shell(st.shell.with_var(var, values[i])),
            )
        } else {
            go(ControlView::Return(result), frames, st)
        },
    }
}

impl<D> ControlView<D> {
    /// Whether it goes on with an event.
    pub open spec fn awaits<F>(self, event: EventView<D, F>) -> bool {
        match self {
            ControlView::Done => false,
            ControlView::Defining(_) => event is Defined,
            ControlView::Opening(_, _, _, _, _) => event is Opened || event is OpenFailed,
            ControlView::Calling(_, _) => event is Called,
            ControlView::Spawning(_) => event is Exited || event is SpawnFailed
                || event is HandleFailed,
            _ => event is Proceed,
        }
    }
}

/// A step in the environment that the machine is in.
#[verifier::opaque]
pub open spec fn advance<D, F>(
    control: ControlView<D>,
    frames: Seq<FrameView<D>>,
    noexec: i32,
    st: EnvView<D, F>,
    event: EventView<D, F>,
) -> Step<D, F> {
    match (control, event) {
        (ControlView::Command(c), _) => begin_command(c, frames, st),
        (ControlView::Compound(c), _) => begin_compound(c, frames, st),
        (ControlView::Simple(c), _) => begin_simple(c, frames, st),
        (ControlView::List(cmds), _) => go(
            ControlView::Return(Ok(code(EXIT_SUCCESS))),
            frames.push(FrameView::List(cmds, 0)),
            st,
        ),
        (ControlView::Return(result), _) => if frames.len() == 0 {
            Step {
                action: ActionView::Finished(result),
                ..go(ControlView::Done, frames, st)
            }
        } else {
            resume(frames.last(), result, frames.drop_last(), st)
        },
        (ControlView::Defining(name), EventView::Defined(func)) => go(
            ControlView::Return(Ok(code(EXIT_SUCCESS))),
            frames,
            st.with_function(name, func),
        ),
        (ControlView::Redirecting(list, i, purpose), _) => redirect_next(
            list,
            i,
            purpose,
            frames,
            st,
        ),
        (ControlView::Opening(fd, perms, list, i, purpose), EventView::Opened(fdes)) => go(
            ControlView::Redirecting(list, i, purpose.redirected(fd, Some((fdes, perms)), st)),
            frames,
            purpose.environment(fd, Some((fdes, perms)), st),
        ),
        (ControlView::Opening(_, _, _, _, purpose), EventView::OpenFailed(e)) => purpose.failed(
            ErrorView::Io(e),
            frames,
            st,
        ),
        (ControlView::Calling(_, _), EventView::Called(Some(result), st1)) => go(
            ControlView::Return(result),
            frames,
            st1,
        ),
        (ControlView::Calling(name, _), EventView::Called(None, st1)) => go(
            ControlView::Return(Err(ErrorView::CommandNotFound(name))),
            frames,
            st1.with_shell(st1.shell.with_status(code(EXIT_CMD_NOT_FOUND))),
        ),
        (ControlView::Launching(launch), _) => Step {
            action: ActionView::Spawn(process(launch, st)),
            ..go(ControlView::Spawning(launch.program), frames, st)
        },
        (ControlView::Spawning(_), EventView::Exited(exit)) => go(
            ControlView::Return(Ok(exit)),
            frames,
            st.with_shell(st.shell.with_status(exit)),
        ),
        (ControlView::Spawning(program), EventView::SpawnFailed(e)) => {
            let (exit, err) = spawn_failure(program, e, noexec);
            go(
                ControlView::Return(Err(err)),
                frames,
                st.with_shell(st.shell.with_status(code(exit))),
            )
        },
        (ControlView::Spawning(_), EventView::HandleFailed(e)) => go(
            ControlView::Return(Err(ErrorView::Io(e))),
            frames,
            st,
        ),
        _ => stuck(frames, st),
    }
}

/// A machine: where it stands, what is left to do, and the environments that it is in.
#[verifier::reject_recursive_types(D)]
#[verifier::reject_recursive_types(F)]
pub struct MachineView<D, F> {
    pub control: ControlView<D>,
    /// The last one comes next.
    pub frames: Seq<FrameView<D>>,
    /// What the environments that it entered have of their own, with the innermost first.
    pub scopes: Seq<EnvView<D, F>>,
    /// The number by which the system marks a file that it cannot execute.
    pub noexec: i32,
}

/// A step of a machine in the environment that it was started in.
#[verifier::reject_recursive_types(D)]
#[verifier::reject_recursive_types(F)]
pub struct Next<D, F> {
    pub machine: MachineView<D, F>,
    pub env: EnvView<D, F>,
    pub action: ActionView<D>,
    /// Whether the environment is left.
    pub leaves: bool,
}

impl<D, F> MachineView<D, F> {
    /// What the machine does next. The step is made in the innermost environment.
    /// The others stay as they are.
    pub open spec fn next(self, st: EnvView<D, F>, event: EventView<D, F>) -> Next<D, F>
        decreases self.scopes.len(),
    {
        if self.scopes.len() == 0 {
            let step = advance(self.control, self.frames, self.noexec, st, event);
            Next {
                machine: MachineView {
                    control: step.control,
                    frames: step.frames,
                    scopes: if step.shift == Shift::Enter {
                        seq![step.env.fresh()]
                    } else {
                        Seq::empty()
                    },
                    noexec: self.noexec,
                },
                env: step.env,
                action: step.action,
                leaves: step.shift == Shift::Leave,
            }
        } else {
            let child = self.scopes.last().inside(st);
            let inner = MachineView { scopes: self.scopes.drop_last(), ..self }.next(child, event);
            Next {
                machine: MachineView {
                    scopes: if inner.leaves {
                        inner.machine.scopes
                    } else {
                        inner.machine.scopes.push(inner.env.alone())
                    },
                    ..inner.machine
                },
                env: st,
                action: inner.action,
                leaves: false,
            }
        }
    }

    /// The innermost environment.
    pub open spec fn innermost(self, st: EnvView<D, F>) -> EnvView<D, F>
        decreases self.scopes.len(),
    {
        if self.scopes.len() == 0 {
            st
        } else {
            MachineView { scopes: self.scopes.drop_last(), ..self }.innermost(
                self.scopes.last().inside(st),
            )
        }
    }
}

} // verus!
