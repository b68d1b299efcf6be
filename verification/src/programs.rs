//! What holds of simple commands: which program is started with what, which function is called
//! with what, and what comes of it, told by the words of the command and by the environment.

use crate::ast::{Command, CompoundCommand, Redirect, SimpleCommand, Word};
use crate::constructs::{for_values, lemma_no_redirects, lemma_simple_enters};
use crate::course::{at, lemma_fds_outside, lemma_trans, reaches, recorded};
use crate::env::{EnvView, Shell};
use crate::error::{ErrorView, ResultView};
use crate::fields::FieldsView;
use crate::io::{Fd, IoError, IoErrorKind, Permissions};
use crate::machine::{
    advance, assignments, begin_simple, has_pattern, overrides, with_fds, without_fds, ActionView,
    ControlView, EventView, FrameView, LaunchView, ProcessView, PurposeView, Shift, Stdio,
};
use crate::outcome::Outcome;
use crate::redirect::{redirection, RedirectionView};
use crate::status::ExitStatus;
use crate::word::{all_fields, assignment, word};
use std::rc::Rc;
use vstd::prelude::*;

verus! {

/// Whether a stream of a program is what was given for its descriptor: the handle that it was
/// redirected to, or nothing where it was closed. Where it was not redirected, it is the handle
/// that is open in the environment, and inherited only where none is.
pub open spec fn is_stream_of<D, F>(
    stream: Stdio<D>,
    fd: Fd,
    handles: Map<Fd, Option<Rc<D>>>,
    st: EnvView<D, F>,
) -> bool {
    if handles.dom().contains(fd) {
        match handles[fd] {
            Some(handle) => stream == Stdio::Handle(handle),
            None => stream is Null,
        }
    } else {
        match st.file_desc(fd) {
            Some((handle, _)) => stream == Stdio::Handle(handle),
            None => stream is Inherit,
        }
    }
}

/// Whether a program is started with this name, these arguments and variables,
/// and with its own streams in place of the descriptors.
pub open spec fn is_started_with<D, F>(
    p: ProcessView<D>,
    program: Seq<char>,
    args: Seq<Seq<char>>,
    env: Map<Seq<char>, Seq<char>>,
    handles: Map<Fd, Option<Rc<D>>>,
    st: EnvView<D, F>,
) -> bool {
    &&& p.program == program
    &&& p.args == args
    &&& p.env == env
    &&& is_stream_of(p.stdin, 0, handles, st)
    &&& is_stream_of(p.stdout, 1, handles, st)
    &&& is_stream_of(p.stderr, 2, handles, st)
}

/// A program that is about to be started is started as it is, with its streams redirected
/// as it says and otherwise those of the environment. Nothing changes by that.
pub proof fn program_gets_its_streams<D, F>(
    launch: LaunchView<D>,
    frames: Seq<FrameView<D>>,
    noexec: i32,
    st: EnvView<D, F>,
)
    ensures
        ({
            let step = advance(
                ControlView::Launching(launch),
                frames,
                noexec,
                st,
                EventView::Proceed,
            );
            &&& step.action matches ActionView::Spawn(p) && is_started_with(
                p,
                launch.program,
                launch.args,
                launch.env,
                launch.handles,
                st,
            )
            &&& step.control == ControlView::<D>::Spawning(launch.program)
            &&& step.frames == frames && step.env == st && step.shift == Shift::Stay
        }),
{
    reveal(advance);
}

/// A simple command without redirections that names no function starts the program
/// that the first field of its name says. The program gets the fields of the other words
/// as its arguments, the exported variables with those of the command over them, and for each
/// standard stream the handle that the environment has open, or else what the process has.
pub proof fn program_is_started<D, F>(
    c: SimpleCommand,
    noexec: i32,
    st: EnvView<D, F>,
    fields: FieldsView,
    s1: Shell,
    args: Seq<Seq<char>>,
    s2: Shell,
    env: Map<Seq<char>, Seq<char>>,
    s3: Shell,
) -> (launch: LaunchView<D>)
    requires
        c.cmd is Some,
        c.io@.len() == 0,
        word((c.cmd->0).0, st.shell, true, true) == (Outcome::Value(fields), s1),
        fields.list().len() > 0,
        st.function(fields.list()[0]) is None || fields.list()[0].contains('/'),
        all_fields((c.cmd->0).1@, 0, Seq::empty(), s1) == (Outcome::Value(args), s2),
        overrides(c.vars@, 0, s2.exports(), s2) == (Outcome::Value(env), s3),
    ensures
        ({
            let m = at::<D, F>(ControlView::Launching(launch), Seq::empty(), noexec);
            let st1 = st.with_shell(s3);
            &&& reaches(at(ControlView::Simple(c), Seq::empty(), noexec), st, m, st1)
            &&& m.next(st1, EventView::Proceed).action matches ActionView::Spawn(p)
                && is_started_with(p, fields.list()[0], args, env, Map::empty(), st)
        }),
{
    broadcast use lemma_trans;

    let st1 = st.with_shell(s3);
    let program = fields.list()[0];
    let launch = LaunchView { program, args, env, handles: Map::empty() };
    let step = begin_simple(c, Seq::empty(), st);
    assert(c.io@ =~= Seq::empty());
    assert(step.control == ControlView::Redirecting(c.io@, 0, PurposeView::Launch(launch)));
    assert(step.env == st1);
    lemma_simple_enters(c, noexec, st);
    lemma_no_redirects(Seq::empty(), PurposeView::Launch(launch), noexec, st1);
    program_gets_its_streams(launch, Seq::empty(), noexec, st1);
    assert(st1.file_desc(0) == st.file_desc(0));
    assert(st1.file_desc(1) == st.file_desc(1));
    assert(st1.file_desc(2) == st.file_desc(2));
    launch
}

/// The variables of a program are those that it would have without the last one that
/// its command assigns, and that one with the fields of its word as one text. A variable
/// without a word does not count. The words are evaluated in order, with tildes expanded
/// and split.
pub proof fn last_variable_is_over_others(
    front: Seq<(String, Option<Word>)>,
    name: String,
    w: Option<Word>,
    env: Map<Seq<char>, Seq<char>>,
    sh: Shell,
)
    ensures
        overrides(Seq::empty(), 0, env, sh) == (Outcome::Value(env), sh),
        ({
            let (before, s1) = overrides(front, 0, env, sh);
            let (o, s3) = overrides(front.push((name, w)), 0, env, sh);
            match before {
                Outcome::Value(map) => match w {
                    None => (o, s3) == (before, s1),
                    Some(w) => {
                        let (last, s2) = word(w, s1, true, true);
                        &&& s3 == s2
                        &&& match last {
                            Outcome::Value(fields) => o == Outcome::Value(
                                map.insert(name@, fields.joined()),
                            ),
                            Outcome::Error(e) => o matches Outcome::Error(x) && x == e,
                            Outcome::Undefined => o is Undefined,
                        }
                    },
                },
                _ => (o, s3) == (before, s1),
            }
        }),
{
    lemma_last_override(front, front.push((name, w)), (name, w), 0, env, sh);
}

proof fn lemma_last_override(
    front: Seq<(String, Option<Word>)>,
    all: Seq<(String, Option<Word>)>,
    last: (String, Option<Word>),
    i: nat,
    env: Map<Seq<char>, Seq<char>>,
    sh: Shell,
)
    requires
        all == front.push(last),
        i <= front.len(),
    ensures
        ({
            let (before, s1) = overrides(front, i, env, sh);
            overrides(all, i, env, sh) == (match before {
                Outcome::Value(map) => match last.1 {
                    None => (before, s1),
                    Some(w) => {
                        let (o, s2) = word(w, s1, true, true);
                        match o {
                            Outcome::Value(fields) => (
                                Outcome::Value(map.insert(last.0@, fields.joined())),
                                s2,
                            ),
                            _ => (o.without_value(), s2),
                        }
                    },
                },
                _ => (before, s1),
            })
        }),
    decreases front.len() - i,
{
    if i < front.len() {
        assert(all[i as int] == front[i as int]);
        match front[i as int].1 {
            Some(w) => {
                let (o, s1) = word(w, sh, true, true);
                if o is Value {
                    let next = env.insert(front[i as int].0@, o->Value_0.joined());
                    lemma_last_override(front, all, last, i + 1, next, s1);
                }
            },
            None => {
                lemma_last_override(front, all, last, i + 1, env, sh);
            },
        }
    } else {
        assert(all[i as int] == last);
        match last.1 {
            Some(w) => {
                let (o, s1) = word(w, sh, true, true);
                if o is Value {
                    let next = env.insert(last.0@, o->Value_0.joined());
                    assert(overrides(all, i + 1, next, s1) == (Outcome::Value(next), s1));
                }
            },
            None => {
                assert(overrides(all, i + 1, env, sh) == (Outcome::Value(env), sh));
            },
        }
    }
}

/// Assignments without a command are carried out in order: each variable gets its word as one
/// text, as the assignments in front of it left the shell. One without a word does not count.
pub proof fn last_assignment_is_carried_out(
    front: Seq<(String, Option<Word>)>,
    name: String,
    w: Option<Word>,
    sh: Shell,
    other: Seq<char>,
)
    ensures
        assignments(Seq::empty(), 0, sh) == (Outcome::Value(()), sh),
        ({
            let (before, s1) = assignments(front, 0, sh);
            let (o, s3) = assignments(front.push((name, w)), 0, sh);
            if before !is Value || w is None {
                (o, s3) == (before, s1)
            } else {
                let (last, s2) = assignment(w->0, s1);
                match last {
                    Outcome::Value(text) => {
                        &&& o is Value
                        &&& s3.var(name@) == Some(text)
                        &&& other != name@ ==> s3.var(other) == s2.var(other)
                        &&& s3.args == s2.args && s3.status == s2.status
                    },
                    Outcome::Error(e) => {
                        &&& o matches Outcome::Error(x) && x == e
                        &&& s3 == s2
                    },
                    Outcome::Undefined => o is Undefined && s3 == s2,
                }
            }
        }),
{
    lemma_last_assignment(front, front.push((name, w)), (name, w), 0, sh);
}

proof fn lemma_last_assignment(
    front: Seq<(String, Option<Word>)>,
    all: Seq<(String, Option<Word>)>,
    last: (String, Option<Word>),
    i: nat,
    sh: Shell,
)
    requires
        all == front.push(last),
        i <= front.len(),
    ensures
        ({
            let (before, s1) = assignments(front, i, sh);
            assignments(all, i, sh) == (if before !is Value || last.1 is None {
                (before, s1)
            } else {
                let (o, s2) = assignment(last.1->0, s1);
                match o {
                    Outcome::Value(text) => (Outcome::Value(()), s2.with_var(last.0@, text)),
                    _ => (o.without_value(), s2),
                }
            })
        }),
    decreases front.len() - i,
{
    if i < front.len() {
        assert(all[i as int] == front[i as int]);
        match front[i as int].1 {
            Some(w) => {
                let (o, s1) = assignment(w, sh);
                if o is Value {
                    lemma_last_assignment(
                        front,
                        all,
                        last,
                        i + 1,
                        s1.with_var(front[i as int].0@, o->Value_0),
                    );
                }
            },
            None => {
                lemma_last_assignment(front, all, last, i + 1, sh);
            },
        }
    } else {
        assert(all[i as int] == last);
        match last.1 {
            Some(w) => {
                let (o, s1) = assignment(w, sh);
                if o is Value {
                    let s2 = s1.with_var(last.0@, o->Value_0);
                    assert(assignments(all, i + 1, s2) == (Outcome::Value(()), s2));
                }
            },
            None => {
                assert(assignments(all, i + 1, sh) == (Outcome::Value(()), sh));
            },
        }
    }
}

/// What a program came to is what its command came to: the status that it ended with is recorded.
/// If it was not found, or could not be executed, or failed to start in any other way,
/// there is an error that names it, or that the system gave, and a status of its own.
pub proof fn program_ends_so<D, F>(
    program: Seq<char>,
    frames: Seq<FrameView<D>>,
    noexec: i32,
    st: EnvView<D, F>,
    exit: ExitStatus,
    e: IoError,
)
    ensures
        ({
            let spawning = ControlView::<D>::Spawning(program);
            let ended = advance(spawning, frames, noexec, st, EventView::Exited(exit));
            let failed = advance(spawning, frames, noexec, st, EventView::SpawnFailed(e));
            let none = advance(spawning, frames, noexec, st, EventView::HandleFailed(e));
            &&& ended.control == ControlView::<D>::Return(Ok(exit))
            &&& ended.env == st.with_shell(st.shell.with_status(exit))
            &&& none.control == ControlView::<D>::Return(Err(ErrorView::Io(e)))
            &&& none.env == st
            &&& e.kind == IoErrorKind::NotFound ==> {
                &&& failed.control == ControlView::<D>::Return(
                    Err(ErrorView::CommandNotFound(program)),
                )
                &&& failed.env == st.with_shell(st.shell.with_status(ExitStatus::Code(127)))
            }
            &&& e.kind == IoErrorKind::PermissionDenied || e.kind != IoErrorKind::NotFound
                && e.raw_os_error == Some(noexec) ==> {
                &&& failed.control == ControlView::<D>::Return(
                    Err(ErrorView::CommandNotExecutable(program)),
                )
                &&& failed.env == st.with_shell(st.shell.with_status(ExitStatus::Code(126)))
            }
            &&& e.kind != IoErrorKind::NotFound && e.kind != IoErrorKind::PermissionDenied
                && e.raw_os_error != Some(noexec) ==> {
                &&& failed.control == ControlView::<D>::Return(Err(ErrorView::Io(e)))
                &&& failed.env == st.with_shell(st.shell.with_status(ExitStatus::Code(1)))
            }
            &&& ended.frames == frames && failed.frames == frames && none.frames == frames
        }),
{
    reveal(advance);
}

/// A simple command whose name gives no field is not found. One that names a function, without
/// a slash in the name, calls it with the fields of its other words; what it would assign
/// for a program is not evaluated. Where a word has no value, neither has the command.
pub proof fn command_is_named<D, F>(
    c: SimpleCommand,
    frames: Seq<FrameView<D>>,
    noexec: i32,
    st: EnvView<D, F>,
    fields: FieldsView,
    s1: Shell,
)
    requires
        c.cmd is Some,
        word((c.cmd->0).0, st.shell, true, true) == (Outcome::Value(fields), s1),
    ensures
        ({
            let step = advance(ControlView::Simple(c), frames, noexec, st, EventView::Proceed);
            let (args, s2) = all_fields((c.cmd->0).1@, 0, Seq::empty(), s1);
            let list = fields.list();
            &&& list.len() == 0 ==> {
                &&& step.control == ControlView::<D>::Return(
                    Err(ErrorView::CommandNotFound(Seq::empty())),
                )
                &&& step.env == st.with_shell(s1.with_status(ExitStatus::Code(127)))
            }
            &&& list.len() > 0 && args is Value && st.function(list[0]) is Some
                && !list[0].contains('/') ==> {
                &&& step.control == ControlView::<D>::Calling(list[0], args->Value_0)
                &&& step.action is Call
                &&& step.env == st.with_shell(s2)
                &&& step.frames == frames
            }
            &&& list.len() > 0 && args is Value && (st.function(list[0]) is None
                || list[0].contains('/')) ==> step.action !is Call
            &&& list.len() > 0 && args is Error ==> {
                &&& step.control == ControlView::<D>::Return(Err(args->Error_0))
                &&& step.env == st.with_shell(s2)
            }
            &&& list.len() > 0 && args is Undefined ==> step.action is Undefined
        }),
{
    reveal(advance);
}

/// The call of a function comes to what came of it, and the environment is as it left it.
/// Where there turns out to be no such function, the command is not found.
pub proof fn call_ends_so<D, F>(
    name: Seq<char>,
    args: Seq<Seq<char>>,
    frames: Seq<FrameView<D>>,
    noexec: i32,
    st: EnvView<D, F>,
    result: ResultView,
    after: EnvView<D, F>,
)
    ensures
        ({
            let calling = ControlView::<D>::Calling(name, args);
            let ended = advance(
                calling,
                frames,
                noexec,
                st,
                EventView::Called(Some(result), after),
            );
            let none = advance(calling, frames, noexec, st, EventView::Called(None, after));
            &&& ended.control == ControlView::<D>::Return(result)
            &&& ended.env == after
            &&& none.control == ControlView::<D>::Return(Err(ErrorView::CommandNotFound(name)))
            &&& none.env == after.with_shell(after.shell.with_status(ExitStatus::Code(127)))
            &&& ended.frames == frames && none.frames == frames
        }),
{
    reveal(advance);
}

/// A redirection of a simple command is carried out in an environment of its own: a file
/// is opened as the redirection says, and the program gets the handle for the descriptor.
/// A descriptor that is closed is closed for the program too.
pub proof fn redirection_is_for_the_program<D, F>(
    list: Seq<Redirect>,
    i: int,
    launch: LaunchView<D>,
    frames: Seq<FrameView<D>>,
    noexec: i32,
    st: EnvView<D, F>,
    handle: Rc<D>,
    other: Fd,
)
    requires
        0 <= i < list.len(),
        st.rooted(),
    ensures
        ({
            let purpose = PurposeView::Launch(launch);
            let here = ControlView::Redirecting(list, i, purpose);
            let step = advance(here, frames, noexec, st, EventView::Proceed);
            let (o, sh) = redirection(list[i], st);
            match o {
                Outcome::Value(RedirectionView::Open { fd, path, permissions, append }) => {
                    let opening = ControlView::Opening(fd, permissions, list, i + 1, purpose);
                    let opened = advance(
                        opening,
                        frames,
                        noexec,
                        step.env,
                        EventView::Opened(handle),
                    );
                    &&& step.action == ActionView::<D>::Open { path, permissions, append }
                    &&& step.control == opening
                    &&& step.env == st.with_shell(sh)
                    &&& opened.control matches ControlView::Redirecting(
                        list1,
                        i1,
                        PurposeView::Launch(next),
                    ) && list1 == list && i1 == i + 1 && is_redirected(
                        launch,
                        next,
                        fd,
                        Some(handle),
                        other,
                    )
                    &&& opened.env.file_desc(fd) == Some((handle, permissions))
                    &&& other != fd ==> opened.env.file_desc(other) == st.file_desc(other)
                },
                Outcome::Value(RedirectionView::Duplicate(fd, fdes, permissions)) => {
                    &&& step.control matches ControlView::Redirecting(
                        list1,
                        i1,
                        PurposeView::Launch(next),
                    ) && list1 == list && i1 == i + 1 && is_redirected(
                        launch,
                        next,
                        fd,
                        Some(fdes),
                        other,
                    )
                    &&& step.env.file_desc(fd) == Some((fdes, permissions))
                    &&& other != fd ==> step.env.file_desc(other) == st.file_desc(other)
                },
                Outcome::Value(RedirectionView::Close(fd)) => {
                    &&& step.control matches ControlView::Redirecting(
                        list1,
                        i1,
                        PurposeView::Launch(next),
                    ) && list1 == list && i1 == i + 1 && is_redirected(
                        launch,
                        next,
                        fd,
                        None,
                        other,
                    )
                    &&& step.env.file_desc(fd) is None
                    &&& other != fd ==> step.env.file_desc(other) == st.file_desc(other)
                },
                Outcome::Error(e) => {
                    &&& step.control == ControlView::<D>::Return(Err(e))
                    &&& step.shift == Shift::Leave
                },
                Outcome::Undefined => step.action is Undefined,
            }
        }),
{
    reveal(advance);
}

/// Whether a program is the same but for one descriptor, which gets a handle or is closed.
pub open spec fn is_redirected<D>(
    before: LaunchView<D>,
    after: LaunchView<D>,
    fd: Fd,
    handle: Option<Rc<D>>,
    other: Fd,
) -> bool {
    &&& after.program == before.program
    &&& after.args == before.args
    &&& after.env == before.env
    &&& after.handles.dom().contains(fd) && after.handles[fd] == handle
    &&& other != fd ==> (after.handles.dom().contains(other) <==> before.handles.dom().contains(
        other,
    ))
    &&& other != fd && before.handles.dom().contains(other) ==> after.handles[other]
        == before.handles[other]
}

/// After its redirections a simple command starts its program, or is done with a success
/// if it has none. Either way the environment for the redirections is left, and so it is
/// where a file cannot be opened.
pub proof fn redirections_are_left<D, F>(
    list: Seq<Redirect>,
    i: int,
    launch: LaunchView<D>,
    frames: Seq<FrameView<D>>,
    noexec: i32,
    st: EnvView<D, F>,
    fd: Fd,
    perms: Permissions,
    e: IoError,
)
    requires
        i >= list.len(),
    ensures
        ({
            let start = PurposeView::Launch(launch);
            let proceed = EventView::Proceed;
            let program = advance(
                ControlView::Redirecting(list, i, start),
                frames,
                noexec,
                st,
                proceed,
            );
            let touched = advance(
                ControlView::Redirecting(list, i, PurposeView::<D>::Touch),
                frames,
                noexec,
                st,
                proceed,
            );
            let refused = advance(
                ControlView::Opening(fd, perms, list, i, start),
                frames,
                noexec,
                st,
                EventView::OpenFailed(e),
            );
            &&& program.control == ControlView::Launching(launch)
            &&& touched.control == ControlView::<D>::Return(Ok(ExitStatus::Code(0)))
            &&& refused.control == ControlView::<D>::Return(Err(ErrorView::Io(e)))
            &&& program.shift == Shift::Leave && touched.shift == Shift::Leave && refused.shift
                == Shift::Leave
            &&& program.frames == frames && touched.frames == frames && refused.frames == frames
        }),
{
    reveal(advance);
}

/// A simple command without a name carries out its assignments in the environment itself,
/// and its redirections in one of their own.
pub proof fn nameless_command_assigns<D, F>(
    c: SimpleCommand,
    frames: Seq<FrameView<D>>,
    noexec: i32,
    st: EnvView<D, F>,
)
    requires
        c.cmd is None,
    ensures
        ({
            let step = advance(ControlView::Simple(c), frames, noexec, st, EventView::Proceed);
            let (o, sh) = assignments(c.vars@, 0, st.shell);
            match o {
                Outcome::Value(_) => {
                    &&& step.control == ControlView::Redirecting(
                        c.io@,
                        0,
                        PurposeView::<D>::Touch,
                    )
                    &&& step.shift == Shift::Enter
                    &&& step.frames == frames.push(FrameView::Record)
                    &&& step.env == st.with_shell(sh)
                },
                Outcome::Error(e) => {
                    &&& step.control == ControlView::<D>::Return(Err(e))
                    &&& step.env == st.with_shell(sh)
                },
                Outcome::Undefined => step.action is Undefined,
            }
        }),
{
    reveal(advance);
}

/// A `for` runs through the fields of its words in order, or through the arguments
/// where it has no words.
pub proof fn for_runs_through_values<D, F>(words: Vec<Word>, st: EnvView<D, F>)
    ensures
        for_values(None, st) == (Outcome::Value(st.shell.args), st),
        for_values(Some(words), st) == (
            all_fields(words@, 0, Seq::empty(), st.shell).0,
            st.with_shell(all_fields(words@, 0, Seq::empty(), st.shell).1),
        ),
{
}

/// A `case` without any pattern evaluates its word and succeeds. With one it has no meaning,
/// and neither has a pipeline.
pub proof fn case_without_patterns_succeeds<D, F>(
    w: Word,
    arms: Vec<(Vec<Word>, Vec<Command>)>,
    negated: bool,
    cmds: Vec<Command>,
    frames: Seq<FrameView<D>>,
    noexec: i32,
    st: EnvView<D, F>,
    i: int,
)
    ensures
        ({
            let c = CompoundCommand::Case(w, arms);
            let step = advance(ControlView::Compound(c), frames, noexec, st, EventView::Proceed);
            let (o, sh) = word(w, st.shell, true, false);
            &&& o matches Outcome::Error(e) ==> step.control == ControlView::<D>::Return(Err(e))
                && step.env == st.with_shell(sh)
            &&& o is Undefined ==> step.action is Undefined
            &&& o is Value && (forall|k: int|
                0 <= k < arms@.len() ==> (#[trigger] arms@[k]).0@.len() == 0) ==> {
                &&& step.control == ControlView::<D>::Return(Ok(ExitStatus::Code(0)))
                &&& step.env == st.with_shell(sh)
            }
            &&& o is Value && 0 <= i < arms@.len() && arms@[i].0@.len() > 0 ==> step.action
                is Undefined
        }),
        advance(
            ControlView::Command(Command::Pipe(negated, cmds)),
            frames,
            noexec,
            st,
            EventView::Proceed,
        ).action is Undefined,
{
    reveal(advance);
    if 0 <= i < arms@.len() && arms@[i].0@.len() > 0 {
        assert(has_pattern(arms@));
    }
}

/// The status of a result that is recorded is the last one. With an error nothing is recorded.
pub proof fn result_is_recorded<D, F>(st: EnvView<D, F>, exit: ExitStatus, e: ErrorView)
    ensures
        recorded(st, ResultView::Ok(exit)) == st.with_shell(st.shell.with_status(exit)),
        recorded(st, ResultView::Err(e)) == st,
{
}

/// Descriptors that are opened one after the other are open, the last one of a number counts;
/// and those that are closed are not open. The others stay as they are.
pub proof fn descriptors_are_opened_and_closed<D, F>(
    st: EnvView<D, F>,
    list: Seq<(Fd, Rc<D>, Permissions)>,
    last: (Fd, Rc<D>, Permissions),
    x: Fd,
)
    requires
        st.rooted(),
    ensures
        with_fds(st, Seq::empty()) == st,
        without_fds(st, Seq::empty()) == st,
        with_fds(st, list.push(last)).file_desc(x) == (if x == last.0 {
            Some((last.1, last.2))
        } else {
            with_fds(st, list).file_desc(x)
        }),
        without_fds(st, list.push(last)).file_desc(x) == (if x == last.0 {
            None
        } else {
            without_fds(st, list).file_desc(x)
        }),
        with_fds(st, list).shell == st.shell,
        without_fds(st, list).shell == st.shell,
{
    assert(list.push(last).drop_last() =~= list);
    lemma_fds_outside(st, list);
    assert(without_fds(st, list).rooted());
}

} // verus!
