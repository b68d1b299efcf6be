//! The machine that runs commands.

use crate::ast::{Command, CompoundCommand, Redirect, SimpleCommand, Word};
use crate::env::{called, Env, EnvView, Environment, Run, Scope};
use crate::error::{result_view, ResultView, RuntimeError};
use crate::io::{Fd, IoError, IoErrorKind, Permissions, STDERR_FILENO, STDIN_FILENO, STDOUT_FILENO};
use crate::machine::{
    advance, assignments, begin_command, begin_compound, begin_named, begin_simple, dropped, has_pattern,
    overrides, process, redirect_next, resume, spawn_failure, stream, text_map, with_fds,
    without_fds, Action, ActionView, Control, ControlView, Event, EventView, Frame, FrameView,
    Launch, MachineView, Process, Purpose, Shift, Stdio, Step,
};
use crate::outcome::{evaluated, outcome_of, Abort, Outcome};
use crate::redirect::Redirection;
use crate::status::{
    ExitStatus, EXIT_CMD_NOT_EXECUTABLE, EXIT_CMD_NOT_FOUND, EXIT_ERROR, EXIT_SUCCESS,
};
use crate::strmap::StrMap;
use crate::text::{chars_of, contains_char, share, share_all};
use crate::word::eval_all;
use std::collections::HashMap;
use std::rc::Rc;
use vstd::prelude::*;
use vstd::string::*;

verus! {

broadcast use vstd::std_specs::hash::group_hash_axioms;

/// `libc::ENOEXEC`: the number by which the system marks a file that it cannot execute.
/// It is not the same on every system, so nothing is claimed of it.
#[verifier::external_body]
fn noexec_code() -> (code: i32) {
    libc::ENOEXEC
}

/// A machine that runs a command step by step.
///
/// The commands are borrowed for as long as the machine runs them.
pub struct Machine<'s, D, F> {
    control: Control<'s, D>,
    frames: Vec<Frame<'s, D>>,
    scopes: Vec<Scope<D, F>>,
    noexec: i32,
}

spec fn frame_views<'s, D>(frames: Seq<Frame<'s, D>>) -> Seq<FrameView<D>> {
    Seq::new(frames.len(), |i: int| frames[i]@)
}

spec fn scope_views<D, F>(scopes: Seq<Scope<D, F>>) -> Seq<EnvView<D, F>> {
    Seq::new(scopes.len(), |i: int| scopes[i]@)
}

impl<'s, D, F> View for Machine<'s, D, F> {
    type V = MachineView<D, F>;

    closed spec fn view(&self) -> MachineView<D, F> {
        MachineView {
            control: self.control@,
            frames: frame_views(self.frames@),
            scopes: scope_views(self.scopes@),
            noexec: self.noexec,
        }
    }
}

/// Whether a step was made: the machine stands where it says, and the environment, the action
/// and the shift are as it says.
spec fn stepped<D, F>(
    before: MachineView<D, F>,
    after: MachineView<D, F>,
    st: EnvView<D, F>,
    done: (Action<D>, Shift),
    step: Step<D, F>,
) -> bool {
    &&& after.control == step.control
    &&& after.frames =~= step.frames
    &&& after.scopes == before.scopes
    &&& after.noexec == before.noexec
    &&& st == step.env
    &&& done.0@ == step.action
    &&& done.1 == step.shift
}

fn success() -> (status: ExitStatus)
    ensures
        status == ExitStatus::Code(EXIT_SUCCESS),
{
    ExitStatus::Code(EXIT_SUCCESS)
}

impl<'s, D, F> Machine<'s, D, F> {
    fn start(control: Control<'s, D>) -> (machine: Machine<'s, D, F>)
        ensures
            machine@.control == control@,
            machine@.frames == Seq::<FrameView<D>>::empty(),
            machine@.scopes == Seq::<EnvView<D, F>>::empty(),
    {
        let machine = Machine {
            control,
            frames: Vec::new(),
            scopes: Vec::new(),
            noexec: noexec_code(),
        };
        assert(machine@.frames =~= Seq::<FrameView<D>>::empty());
        assert(machine@.scopes =~= Seq::<EnvView<D, F>>::empty());
        machine
    }

    /// A machine that runs a command.
    pub fn for_command(c: &'s Command) -> (machine: Machine<'s, D, F>)
        ensures
            machine@.control == ControlView::<D>::Command(*c),
            machine@.frames == Seq::<FrameView<D>>::empty(),
            machine@.scopes == Seq::<EnvView<D, F>>::empty(),
    {
        Self::start(Control::Command(c))
    }

    /// A machine that runs a compound command.
    pub fn for_compound(c: &'s CompoundCommand) -> (machine: Machine<'s, D, F>)
        ensures
            machine@.control == ControlView::<D>::Compound(*c),
            machine@.frames == Seq::<FrameView<D>>::empty(),
            machine@.scopes == Seq::<EnvView<D, F>>::empty(),
    {
        Self::start(Control::Compound(c))
    }

    /// A machine that runs a simple command.
    pub fn for_simple(c: &'s SimpleCommand) -> (machine: Machine<'s, D, F>)
        ensures
            machine@.control == ControlView::<D>::Simple(*c),
            machine@.frames == Seq::<FrameView<D>>::empty(),
            machine@.scopes == Seq::<EnvView<D, F>>::empty(),
    {
        Self::start(Control::Simple(c))
    }

    /// A machine that runs a list of commands.
    pub fn for_list(cmds: &'s Vec<Command>) -> (machine: Machine<'s, D, F>)
        ensures
            machine@.control == ControlView::<D>::List(cmds@),
            machine@.frames == Seq::<FrameView<D>>::empty(),
            machine@.scopes == Seq::<EnvView<D, F>>::empty(),
    {
        Self::start(Control::List(cmds))
    }

    fn push(&mut self, frame: Frame<'s, D>)
        ensures
            final(self)@ == (MachineView { frames: old(self)@.frames.push(frame@), ..old(self)@ }),
    {
        self.frames.push(frame);
        assert(self@.frames =~= old(self)@.frames.push(frame@));
    }

    fn go(&mut self, control: Control<'s, D>) -> (done: (Action<D>, Shift))
        ensures
            final(self)@ == (MachineView { control: control@, ..old(self)@ }),
            done.0@ == ActionView::<D>::Continue,
            done.1 == Shift::Stay,
    {
        self.control = control;
        (Action::Continue, Shift::Stay)
    }

    fn abort(&mut self, abort: Abort) -> (done: (Action<D>, Shift))
        ensures
            final(self)@.frames == old(self)@.frames,
            final(self)@.scopes == old(self)@.scopes,
            final(self)@.noexec == old(self)@.noexec,
            done.1 == Shift::Stay,
            match abort {
                Abort::Error(e) => final(self)@.control == ControlView::<D>::Return(Err(e@))
                    && done.0@ == ActionView::<D>::Continue,
                Abort::Undefined => final(self)@.control == ControlView::<D>::Done && done.0@
                    == ActionView::<D>::Undefined,
            },
    {
        match abort {
            Abort::Error(e) => self.go(Control::Return(Err(e))),
            Abort::Undefined => {
                self.control = Control::Done;
                (Action::Undefined, Shift::Stay)
            },
        }
    }

    fn begin_command<'a>(&mut self, c: &'s Command, env: &mut Env<'a, D, F>) -> (done: (
        Action<D>,
        Shift,
    ))
        ensures
            stepped(
                old(self)@,
                final(self)@,
                final(env).state(),
                done,
                begin_command(*c, old(self)@.frames, old(env).state()),
            ),
    {
        match c {
            Command::And(first, second) => {
                self.push(Frame::Record);
                self.push(Frame::AndThen(second));
                self.go(Control::Command(first))
            },
            Command::Or(first, second) => {
                self.push(Frame::Record);
                self.push(Frame::OrElse(second));
                self.go(Control::Command(first))
            },
            Command::Pipe(_, _) => self.abort(Abort::Undefined),
            Command::Job(_) => {
                env.set_last_status(ExitStatus::Code(EXIT_ERROR));
                self.go(
                    Control::Return(
                        Err(RuntimeError::Unimplemented("job control is not currently supported")),
                    ),
                )
            },
            Command::Function(name, body) => {
                self.push(Frame::Record);
                self.control = Control::Defining(name);
                (Action::Define(share(body)), Shift::Stay)
            },
            Command::Compound(body, redirects) => {
                self.push(Frame::Record);
                let purpose = Purpose::Compound { body, backup: Vec::new(), fresh: Vec::new() };
                self.go(Control::Redirecting(redirects, 0, purpose))
            },
            Command::Simple(cmd) => {
                self.push(Frame::Record);
                self.go(Control::Simple(cmd))
            },
        }
    }

    fn begin_compound<'a>(&mut self, c: &'s CompoundCommand, env: &mut Env<'a, D, F>) -> (done: (
        Action<D>,
        Shift,
    ))
        ensures
            stepped(
                old(self)@,
                final(self)@,
                final(env).state(),
                done,
                begin_compound(*c, old(self)@.frames, old(env).state()),
            ),
    {
        self.push(Frame::Record);
        match c {
            CompoundCommand::Brace(cmds) => self.go(Control::List(cmds)),
            CompoundCommand::Subshell(cmds) => {
                self.push(Frame::Subshell);
                self.control = Control::List(cmds);
                (Action::Continue, Shift::Enter)
            },
            CompoundCommand::While(guard, body) => {
                self.push(Frame::Guard { until: false, guard, body, exit: success() });
                self.go(Control::List(guard))
            },
            CompoundCommand::Until(guard, body) => {
                self.push(Frame::Guard { until: true, guard, body, exit: success() });
                self.go(Control::List(guard))
            },
            CompoundCommand::If(branches, otherwise) => if branches.len() == 0 {
                self.go(Control::Return(Ok(ExitStatus::Code(EXIT_ERROR))))
            } else {
                self.push(Frame::Branch { body: &branches[0].1, branches, i: 1, otherwise });
                self.go(Control::List(&branches[0].0))
            },
            CompoundCommand::For(var, words, body) => {
                let values = match words {
                    Some(words) => match eval_all(words, env) {
                        Ok(values) => values,
                        Err(abort) => {
                            return self.abort(abort);
                        },
                    },
                    None => share_all(env.args()),
                };
                self.push(Frame::Each { var, values, i: 0, body });
                self.go(Control::Return(Ok(success())))
            },
            CompoundCommand::Case(w, arms) => match w.try_eval_with_config(env, true, false) {
                Ok(_) => if any_pattern(arms) {
                    self.abort(Abort::Undefined)
                } else {
                    self.go(Control::Return(Ok(success())))
                },
                Err(abort) => self.abort(abort),
            },
        }
    }
}

/// Carries out the assignments of a command without a name.
fn assign_all<'a, D, F>(vars: &Vec<(String, Option<Word>)>, env: &mut Env<'a, D, F>) -> (result:
    Result<(), Abort>)
    ensures
        evaluated(
            *old(env),
            *final(env),
            outcome_of(result),
            assignments(vars@, 0, old(env).state().shell),
        ),
{
    let mut i: usize = 0;
    let ghost before = env.state();
    let ghost goal = assignments(vars@, 0, before.shell);
    while i < vars.len()
        invariant
            0 <= i <= vars@.len(),
            before == old(env).state(),
            env.state() == before.with_shell(env.state().shell),
            goal == assignments(vars@, 0, before.shell),
            goal == assignments(vars@, i as nat, env.state().shell),
        decreases vars.len() - i,
    {
        match &vars[i].1 {
            Some(w) => match w.try_eval_as_assignment(env) {
                Ok(text) => env.set_var(vars[i].0.clone(), text),
                Err(abort) => {
                    return Err(abort);
                },
            },
            None => {},
        }
        i = i + 1;
    }
    Ok(())
}

/// The environment variables that are exported.
fn export_map<'a, D, F>(env: &Env<'a, D, F>) -> (map: StrMap<Rc<String>>)
    ensures
        text_map(map@) == env.state().shell.exports(),
{
    let mut map: StrMap<Rc<String>> = StrMap::new();
    let pairs = env.env();
    let ghost exports = env.state().shell.exports();
    let mut i: usize = 0;
    while i < pairs.len()
        invariant
            0 <= i <= pairs@.len(),
            forall|j: int|
                0 <= j < pairs@.len() ==> env.state().shell.exported((#[trigger] pairs@[j]).0@)
                    == Some(pairs@[j].1@),
            forall|name: Seq<char>| #[trigger]
                map@.dom().contains(name) ==> env.state().shell.exported(name) == Some(
                    map@[name]@,
                ),
            forall|j: int| 0 <= j < i ==> map@.dom().contains((#[trigger] pairs@[j]).0@),
        decreases pairs.len() - i,
    {
        let (name, value) = pairs[i];
        map.insert(name.to_owned(), Rc::new(value.to_owned()));
        i = i + 1;
    }
    proof {
        assert forall|name: Seq<char>| env.state().shell.exported(
            name,
        ) is Some implies map@.dom().contains(name) by {
            let j = choose|j: int| 0 <= j < pairs@.len() && (#[trigger] pairs@[j]).0@ == name;
            assert(map@.dom().contains(pairs@[j].0@));
        }
        assert(text_map(map@) =~= exports);
    }
    map
}

/// The outcome that a result with a map shows.
spec fn map_outcome(result: Result<StrMap<Rc<String>>, Abort>) -> Outcome<
    Map<Seq<char>, Seq<char>>,
> {
    match result {
        Ok(map) => Outcome::Value(text_map(map@)),
        Err(abort) => abort.outcome(),
    }
}

/// Puts the assignments of a command over the environment variables that it gets.
fn override_all<'a, D, F>(
    vars: &Vec<(String, Option<Word>)>,
    exports: StrMap<Rc<String>>,
    env: &mut Env<'a, D, F>,
) -> (result: Result<StrMap<Rc<String>>, Abort>)
    ensures
        evaluated(
            *old(env),
            *final(env),
            map_outcome(result),
            overrides(vars@, 0, text_map(exports@), old(env).state().shell),
        ),
{
    let mut map = exports;
    let mut i: usize = 0;
    let ghost before = env.state();
    let ghost goal = overrides(vars@, 0, text_map(exports@), before.shell);
    while i < vars.len()
        invariant
            0 <= i <= vars@.len(),
            before == old(env).state(),
            env.state() == before.with_shell(env.state().shell),
            goal == overrides(vars@, 0, text_map(exports@), before.shell),
            goal == overrides(vars@, i as nat, text_map(map@), env.state().shell),
        decreases vars.len() - i,
    {
        match &vars[i].1 {
            Some(w) => match w.try_eval(env) {
                Ok(fields) => {
                    let ghost old_map = map@;
                    let text = fields.join();
                    map.insert(vars[i].0.clone(), text);
                    assert(text_map(map@) =~= text_map(old_map).insert(
                        vars@[i as int].0@,
                        text@,
                    ));
                },
                Err(abort) => {
                    return Err(abort);
                },
            },
            None => {},
        }
        i = i + 1;
    }
    Ok(map)
}

impl<'s, D, F> Machine<'s, D, F> {
    fn begin_simple<'a>(&mut self, c: &'s SimpleCommand, env: &mut Env<'a, D, F>) -> (done: (
        Action<D>,
        Shift,
    ))
        ensures
            stepped(
                old(self)@,
                final(self)@,
                final(env).state(),
                done,
                begin_simple(*c, old(self)@.frames, old(env).state()),
            ),
    {
        match &c.cmd {
            None => match assign_all(&c.vars, env) {
                Ok(()) => {
                    self.push(Frame::Record);
                    self.control = Control::Redirecting(&c.io, 0, Purpose::Touch);
                    (Action::Continue, Shift::Enter)
                },
                Err(abort) => self.abort(abort),
            },
            Some((name, words)) => {
                let fields = match name.try_eval(env) {
                    Ok(fields) => fields.into_vec(),
                    Err(abort) => {
                        return self.abort(abort);
                    },
                };
                if fields.len() == 0 {
                    env.set_last_status(ExitStatus::Code(EXIT_CMD_NOT_FOUND));
                    let nothing = Rc::new(String::new());
                    assert(nothing@ =~= Seq::<char>::empty());
                    self.go(Control::Return(Err(RuntimeError::CommandNotFound(nothing))))
                } else {
                    self.begin_named(share(&fields[0]), words, c, env)
                }
            },
        }
    }

    fn begin_named<'a>(
        &mut self,
        program: Rc<String>,
        words: &Vec<Word>,
        c: &'s SimpleCommand,
        env: &mut Env<'a, D, F>,
    ) -> (done: (Action<D>, Shift))
        ensures
            stepped(
                old(self)@,
                final(self)@,
                final(env).state(),
                done,
                begin_named(program@, words@, *c, old(self)@.frames, old(env).state()),
            ),
    {
        let args = match eval_all(words, env) {
            Ok(args) => args,
            Err(abort) => {
                return self.abort(abort);
            },
        };
        if !contains_char(&chars_of(program.as_str()), '/') && env.has_function(program.as_str()) {
            self.control = Control::Calling(program, args);
            return (Action::Call, Shift::Stay);
        }
        let exports = export_map(env);
        match override_all(&c.vars, exports, env) {
            Ok(map) => {
                let launch = Launch { program, args, env: map, handles: HashMap::new() };
                assert(launch@.handles =~= Map::empty());
                self.control = Control::Redirecting(&c.io, 0, Purpose::Launch(launch));
                (Action::Continue, Shift::Enter)
            },
            Err(abort) => self.abort(abort),
        }
    }
}

/// Opens file descriptors in an environment.
fn open_all<'a, D, F>(list: &Vec<(Fd, Rc<D>, Permissions)>, env: &mut Env<'a, D, F>)
    ensures
        final(env).state() == with_fds(old(env).state(), list@),
{
    let mut i: usize = 0;
    let ghost before = env.state();
    while i < list.len()
        invariant
            0 <= i <= list@.len(),
            env.state() == with_fds(before, list@.take(i as int)),
        decreases list.len() - i,
    {
        proof {
            assert(list@.take(i + 1).drop_last() =~= list@.take(i as int));
        }
        env.set_file_desc(list[i].0, share(&list[i].1), list[i].2);
        i = i + 1;
    }
    assert(list@.take(i as int) =~= list@);
}

/// Closes file descriptors in an environment.
fn close_all<'a, D, F>(list: &Vec<(Fd, Rc<D>, Permissions)>, env: &mut Env<'a, D, F>)
    ensures
        final(env).state() == without_fds(old(env).state(), list@),
{
    let mut i: usize = 0;
    let ghost before = env.state();
    while i < list.len()
        invariant
            0 <= i <= list@.len(),
            env.state() == without_fds(before, list@.take(i as int)),
        decreases list.len() - i,
    {
        proof {
            assert(list@.take(i + 1).drop_last() =~= list@.take(i as int));
        }
        env.close_file_desc(list[i].0);
        i = i + 1;
    }
    assert(list@.take(i as int) =~= list@);
}

/// A list of descriptors without one of them.
fn drop_descriptor<D>(list: &Vec<(Fd, Rc<D>, Permissions)>, fd: Fd) -> (kept: Vec<
    (Fd, Rc<D>, Permissions),
>)
    ensures
        kept@ == dropped(list@, fd),
{
    let mut kept: Vec<(Fd, Rc<D>, Permissions)> = Vec::new();
    let mut i: usize = 0;
    assert(kept@ =~= list@.take(0));
    while i < list.len()
        invariant
            0 <= i <= list@.len(),
            kept@ == dropped(list@.take(i as int), fd),
        decreases list.len() - i,
    {
        assert(list@.take(i + 1).drop_last() =~= list@.take(i as int));
        if list[i].0 != fd {
            kept.push((list[i].0, share(&list[i].1), list[i].2));
        }
        i = i + 1;
    }
    assert(list@.take(i as int) =~= list@);
    kept
}

impl<'s, D> Purpose<'s, D> {
    /// Carries out a redirection, where a file descriptor gets a handle or is closed.
    fn redirect<'a, F>(
        self,
        fd: Fd,
        desc: Option<(Rc<D>, Permissions)>,
        env: &mut Env<'a, D, F>,
    ) -> (next: Purpose<'s, D>)
        ensures
            next@ == self@.redirected(fd, desc, old(env).state()),
            final(env).state() == self@.environment(fd, desc, old(env).state()),
    {
        match self {
            Purpose::Compound { body, backup, fresh } => {
                let mut backup = backup;
                let mut fresh = fresh;
                match env.file_desc(fd) {
                    Some((fdes, perms)) => backup.push((fd, share(fdes), perms)),
                    None => {},
                }
                env.close_file_desc(fd);
                match desc {
                    Some((fdes, perms)) => fresh.push((fd, fdes, perms)),
                    None => {
                        fresh = drop_descriptor(&fresh, fd);
                    },
                }
                Purpose::Compound { body, backup, fresh }
            },
            Purpose::Touch => {
                match desc {
                    Some((fdes, perms)) => env.set_file_desc(fd, fdes, perms),
                    None => env.close_file_desc(fd),
                }
                Purpose::Touch
            },
            Purpose::Launch(launch) => {
                let mut launch = launch;
                match desc {
                    Some((fdes, perms)) => {
                        env.set_file_desc(fd, share(&fdes), perms);
                        launch.handles.insert(fd, Some(fdes));
                    },
                    None => {
                        env.close_file_desc(fd);
                        launch.handles.insert(fd, None);
                    },
                }
                Purpose::Launch(launch)
            },
        }
    }
}

impl<'s, D, F> Machine<'s, D, F> {
    fn fail_redirects<'a>(
        &mut self,
        purpose: Purpose<'s, D>,
        e: RuntimeError,
        env: &mut Env<'a, D, F>,
    ) -> (done: (Action<D>, Shift))
        ensures
            stepped(
                old(self)@,
                final(self)@,
                final(env).state(),
                done,
                purpose@.failed(e@, old(self)@.frames, old(env).state()),
            ),
    {
        self.control = Control::Return(Err(e));
        match purpose {
            Purpose::Compound { body, backup, fresh } => {
                env.set_last_status(ExitStatus::Code(EXIT_ERROR));
                open_all(&backup, env);
                (Action::Continue, Shift::Stay)
            },
            _ => (Action::Continue, Shift::Leave),
        }
    }

    fn end_redirects<'a>(&mut self, purpose: Purpose<'s, D>, env: &mut Env<'a, D, F>) -> (done: (
        Action<D>,
        Shift,
    ))
        ensures
            stepped(
                old(self)@,
                final(self)@,
                final(env).state(),
                done,
                purpose@.done(old(self)@.frames, old(env).state()),
            ),
    {
        match purpose {
            Purpose::Compound { body, backup, fresh } => {
                open_all(&fresh, env);
                self.push(Frame::Restore { backup, fresh });
                self.go(Control::Compound(body))
            },
            Purpose::Touch => {
                self.control = Control::Return(Ok(success()));
                (Action::Continue, Shift::Leave)
            },
            Purpose::Launch(launch) => {
                self.control = Control::Launching(launch);
                (Action::Continue, Shift::Leave)
            },
        }
    }

    fn redirect_next<'a>(
        &mut self,
        list: &'s Vec<Redirect>,
        i: usize,
        purpose: Purpose<'s, D>,
        env: &mut Env<'a, D, F>,
    ) -> (done: (Action<D>, Shift))
        ensures
            stepped(
                old(self)@,
                final(self)@,
                final(env).state(),
                done,
                redirect_next(list@, i as int, purpose@, old(self)@.frames, old(env).state()),
            ),
    {
        if i >= list.len() {
            return self.end_redirects(purpose, env);
        }
        match list[i].try_eval(env) {
            Ok(Redirection::Close(fd)) => {
                let next = purpose.redirect(fd, None, env);
                self.go(Control::Redirecting(list, i + 1, next))
            },
            Ok(Redirection::Duplicate(fd, fdes, perms)) => {
                let next = purpose.redirect(fd, Some((fdes, perms)), env);
                self.go(Control::Redirecting(list, i + 1, next))
            },
            Ok(Redirection::Open { fd, path, permissions, append }) => {
                self.control = Control::Opening(fd, permissions, list, i + 1, purpose);
                (Action::Open { path, permissions, append }, Shift::Stay)
            },
            Err(Abort::Error(e)) => self.fail_redirects(purpose, e, env),
            Err(Abort::Undefined) => self.abort(Abort::Undefined),
        }
    }

    fn resume<'a>(
        &mut self,
        frame: Frame<'s, D>,
        result: Result<ExitStatus, RuntimeError>,
        env: &mut Env<'a, D, F>,
    ) -> (done: (Action<D>, Shift))
        ensures
            stepped(
                old(self)@,
                final(self)@,
                final(env).state(),
                done,
                resume(
                    frame@,
                    result_view(result),
                    old(self)@.frames,
                    old(env).state(),
                ),
            ),
    {
        match (frame, result) {
            (Frame::Subshell, result) => {
                self.control = Control::Return(result);
                (Action::Continue, Shift::Leave)
            },
            (Frame::Restore { backup, fresh }, result) => {
                close_all(&fresh, env);
                open_all(&backup, env);
                self.go(Control::Return(result))
            },
            (_, Err(e)) => self.go(Control::Return(Err(e))),
            (Frame::Record, Ok(exit)) => {
                env.set_last_status(exit);
                self.go(Control::Return(Ok(exit)))
            },
            (Frame::AndThen(second), Ok(exit)) => if exit.success() {
                self.go(Control::Command(second))
            } else {
                self.go(Control::Return(Ok(exit)))
            },
            (Frame::OrElse(second), Ok(exit)) => if exit.success() {
                self.go(Control::Return(Ok(exit)))
            } else {
                self.go(Control::Command(second))
            },
            (Frame::List(cmds, i), Ok(exit)) => if i < cmds.len() {
                self.push(Frame::List(cmds, i + 1));
                self.go(Control::Command(&cmds[i]))
            } else {
                env.set_last_status(exit);
                self.go(Control::Return(Ok(exit)))
            },
            (Frame::Guard { until, guard, body, exit }, Ok(tested)) => if tested.success()
                != until {
                self.push(Frame::Body { until, guard, body });
                self.go(Control::List(body))
            } else {
                self.go(Control::Return(Ok(exit)))
            },
            (Frame::Body { until, guard, body }, Ok(exit)) => {
                self.push(Frame::Guard { until, guard, body, exit });
                self.go(Control::List(guard))
            },
            (Frame::Branch { body, branches, i, otherwise }, Ok(tested)) => if tested.success() {
                self.go(Control::List(body))
            } else if i < branches.len() {
                self.push(
                    Frame::Branch { body: &branches[i].1, branches, i: i + 1, otherwise },
                );
                self.go(Control::List(&branches[i].0))
            } else {
                match otherwise {
                    Some(cmds) => self.go(Control::List(cmds)),
                    None => self.go(Control::Return(Ok(success()))),
                }
            },
            (Frame::Each { var, values, i, body }, Ok(exit)) => if i < values.len() {
                env.set_var(var.clone(), share(&values[i]));
                self.push(Frame::Each { var, values, i: i + 1, body });
                self.go(Control::List(body))
            } else {
                self.go(Control::Return(Ok(exit)))
            },
        }
    }
}

impl IoError {
    /// What is recorded and returned where a program could not be started.
    fn into_spawn_failure(self, program: Rc<String>, noexec: i32) -> (failure: (i32, RuntimeError))
        ensures
            (failure.0, failure.1@) == spawn_failure(program@, self, noexec),
    {
        let cannot_execute = match self.raw_os_error {
            Some(number) => number == noexec,
            None => false,
        };
        if self.kind == IoErrorKind::NotFound {
            (EXIT_CMD_NOT_FOUND, RuntimeError::CommandNotFound(program))
        } else if self.kind == IoErrorKind::PermissionDenied || cannot_execute {
            (EXIT_CMD_NOT_EXECUTABLE, RuntimeError::CommandNotExecutable(program))
        } else {
            (EXIT_ERROR, RuntimeError::Io(self))
        }
    }
}

/// What a program has for a standard stream.
fn choose_stream<'a, D, F>(
    handles: &HashMap<Fd, Option<Rc<D>>>,
    fd: Fd,
    env: &Env<'a, D, F>,
) -> (chosen: Stdio<D>)
    ensures
        chosen == stream(handles@, fd, env.state()),
{
    match handles.get(&fd) {
        Some(Some(fdes)) => Stdio::Handle(share(fdes)),
        Some(None) => Stdio::Null,
        None => match env.file_desc(fd) {
            Some((fdes, _)) => Stdio::Handle(share(fdes)),
            None => Stdio::Inherit,
        },
    }
}

impl<'s, D, F> Machine<'s, D, F> {
    fn advance<'a>(&mut self, env: &mut Env<'a, D, F>, event: Event<D, F>) -> (done: (
        Action<D>,
        Shift,
    ))
        requires
            old(self)@.control.awaits(event@),
        ensures
            stepped(
                old(self)@,
                final(self)@,
                final(env).state(),
                done,
                advance(
                    old(self)@.control,
                    old(self)@.frames,
                    old(self)@.noexec,
                    old(env).state(),
                    event@,
                ),
            ),
    {
        proof {
            reveal(advance);
        }
        let mut control = Control::Done;
        std::mem::swap(&mut control, &mut self.control);
        match (control, event) {
            (Control::Command(c), _) => self.begin_command(c, env),
            (Control::Compound(c), _) => self.begin_compound(c, env),
            (Control::Simple(c), _) => self.begin_simple(c, env),
            (Control::List(cmds), _) => {
                self.push(Frame::List(cmds, 0));
                self.go(Control::Return(Ok(success())))
            },
            (Control::Return(result), _) => {
                let ghost before = self@.frames;
                match self.frames.pop() {
                    Some(frame) => {
                        assert(self@.frames =~= before.drop_last());
                        self.resume(frame, result, env)
                    },
                    None => (Action::Finished(result), Shift::Stay),
                }
            },
            (Control::Defining(name), Event::Defined(func)) => {
                env.set_function(name.clone(), func);
                self.go(Control::Return(Ok(success())))
            },
            (Control::Redirecting(list, i, purpose), _) => self.redirect_next(
                list,
                i,
                purpose,
                env,
            ),
            (Control::Opening(fd, perms, list, i, purpose), Event::Opened(fdes)) => {
                let next = purpose.redirect(fd, Some((fdes, perms)), env);
                self.go(Control::Redirecting(list, i, next))
            },
            (Control::Opening(_, _, _, _, purpose), Event::OpenFailed(e)) => self.fail_redirects(
                purpose,
                RuntimeError::Io(e),
                env,
            ),
            (Control::Launching(launch), _) => {
                let stdin = choose_stream(&launch.handles, STDIN_FILENO, env);
                let stdout = choose_stream(&launch.handles, STDOUT_FILENO, env);
                let stderr = choose_stream(&launch.handles, STDERR_FILENO, env);
                self.control = Control::Spawning(share(&launch.program));
                let process = Process {
                    program: launch.program,
                    args: launch.args,
                    env: launch.env,
                    stdin,
                    stdout,
                    stderr,
                };
                (Action::Spawn(process), Shift::Stay)
            },
            (Control::Spawning(_), Event::Exited(exit)) => {
                env.set_last_status(exit);
                self.go(Control::Return(Ok(exit)))
            },
            (Control::Spawning(program), Event::SpawnFailed(e)) => {
                let (exit, err) = e.into_spawn_failure(program, self.noexec);
                env.set_last_status(ExitStatus::Code(exit));
                self.go(Control::Return(Err(err)))
            },
            (Control::Spawning(_), Event::HandleFailed(e)) => self.go(
                Control::Return(Err(RuntimeError::Io(e))),
            ),
            _ => vstd::pervasive::unreached(),
        }
    }

    /// A step in the innermost environment. Says whether the given environment is left by it.
    fn advance_within<'a>(&mut self, env: &mut Env<'a, D, F>, event: Event<D, F>) -> (done: (
        Action<D>,
        bool,
    ))
        requires
            old(self)@.control.awaits(event@),
        ensures
            ({
                let next = old(self)@.next(old(env).state(), event@);
                &&& final(self)@ == next.machine
                &&& final(env).state() == next.env
                &&& done.0@ == next.action
                &&& done.1 == next.leaves
            }),
        decreases old(self)@.scopes.len(),
    {
        let ghost before = self@;
        match self.scopes.pop() {
            None => {
                assert(self@ == before);
                let (action, shift) = self.advance(env, event);
                assert(self@.scopes =~= Seq::<EnvView<D, F>>::empty());
                match shift {
                    Shift::Enter => {
                        self.scopes.push(env.new_scope());
                        assert(self@.scopes =~= seq![env.state().fresh()]);
                        (action, false)
                    },
                    Shift::Leave => (action, true),
                    Shift::Stay => (action, false),
                }
            },
            Some(scope) => {
                assert(self@.scopes =~= before.scopes.drop_last());
                let mut child = env.resume_sub_env(scope);
                let (action, leaves) = self.advance_within(&mut child, event);
                if !leaves {
                    let ghost inner = self@.scopes;
                    let kept = child.into_scope();
                    self.scopes.push(kept);
                    assert(self@.scopes =~= inner.push(kept@));
                }
                (action, false)
            },
        }
    }

    /// Whether the machine goes on with an event.
    pub fn awaits(&self, event: &Event<D, F>) -> (yes: bool)
        ensures
            yes == self@.control.awaits(event@),
    {
        match (&self.control, event) {
            (Control::Done, _) => false,
            (Control::Defining(_), Event::Defined(_)) => true,
            (Control::Opening(_, _, _, _, _), Event::Opened(_)) => true,
            (Control::Opening(_, _, _, _, _), Event::OpenFailed(_)) => true,
            (Control::Spawning(_), Event::Exited(_)) => true,
            (Control::Spawning(_), Event::SpawnFailed(_)) => true,
            (Control::Spawning(_), Event::HandleFailed(_)) => true,
            (Control::Defining(_), _) => false,
            (Control::Opening(_, _, _, _, _), _) => false,
            (Control::Calling(_, _), _) => false,
            (Control::Spawning(_), _) => false,
            (_, Event::Proceed) => true,
            (_, _) => false,
        }
    }

    /// Goes on by one step, after what came of the last action.
    pub fn step<'a>(&mut self, env: &mut Env<'a, D, F>, event: Event<D, F>) -> (action: Action<D>)
        requires
            old(self)@.control.awaits(event@),
        ensures
            ({
                let next = old(self)@.next(old(env).state(), event@);
                &&& final(self)@ == next.machine
                &&& final(env).state() == next.env
                &&& action@ == next.action
            }),
    {
        self.advance_within(env, event).0
    }
}

/// Whether this can come of the call of the function that a machine stands at,
/// in the innermost environment.
pub open spec fn called_here<D, F: Run<D>>(
    m: MachineView<D, F>,
    st: EnvView<D, F>,
    result: Option<ResultView>,
    after: EnvView<D, F>,
) -> bool {
    m.control matches ControlView::Calling(name, args) && called(
        name,
        args,
        m.innermost(st),
        result,
        after,
    )
}

impl<'s, D, F: Run<D>> Machine<'s, D, F> {
    /// Calls the function that the machine stands at, in the innermost environment.
    pub fn call<'a>(&mut self, env: &mut Env<'a, D, F>)
        requires
            old(self)@.control is Calling,
        ensures
            exists|result: Option<ResultView>, after: EnvView<D, F>|
                {
                    let next = old(self)@.next(
                        old(env).state(),
                        EventView::Called(result, after),
                    );
                    &&& #[trigger] called_here(old(self)@, old(env).state(), result, after)
                    &&& final(self)@ == next.machine
                    &&& final(env).state() == next.env
                },
        decreases old(self)@.scopes.len(),
    {
        let ghost before = self@;
        let ghost st = env.state();
        match self.scopes.pop() {
            None => {
                assert(self@ == before);
                assert(before.scopes =~= Seq::<EnvView<D, F>>::empty());
                let mut control = Control::Done;
                std::mem::swap(&mut control, &mut self.control);
                match control {
                    Control::Calling(name, args) => {
                        match env.run_function(share(&name), args) {
                            Some(result) => {
                                let ghost seen = result_view(result);
                                self.control = Control::Return(result);
                                proof {
                                    assert(called_here(before, st, Some(seen), env.state()));
                                    let event = EventView::Called(Some(seen), env.state());
                                    assert(self@ == before.next(st, event).machine && env.state()
                                        == before.next(st, event).env) by {
                                        reveal(advance);
                                    }
                                }
                            },
                            None => {
                                env.set_last_status(ExitStatus::Code(EXIT_CMD_NOT_FOUND));
                                self.control = Control::Return(
                                    Err(RuntimeError::CommandNotFound(name)),
                                );
                                proof {
                                    assert(called_here(before, st, None::<ResultView>, st));
                                    let event = EventView::Called(None, st);
                                    assert(self@ == before.next(st, event).machine && env.state()
                                        == before.next(st, event).env) by {
                                        reveal(advance);
                                    }
                                }
                            },
                        }
                    },
                    _ => vstd::pervasive::unreached(),
                }
            },
            Some(scope) => {
                assert(self@.scopes =~= before.scopes.drop_last());
                let ghost outer = self@;
                let mut child = env.resume_sub_env(scope);
                let ghost st1 = child.state();
                self.call(&mut child);
                let ghost inner = self@;
                let ghost st2 = child.state();
                let kept = child.into_scope();
                self.scopes.push(kept);
                proof {
                    assert(self@.scopes =~= inner.scopes.push(kept@));
                    let (result, after) = choose|result: Option<ResultView>, after: EnvView<D, F>|
                        {
                            let next = outer.next(st1, EventView::Called(result, after));
                            &&& #[trigger] called_here(outer, st1, result, after)
                            &&& inner == next.machine
                            &&& st2 == next.env
                        };
                    let event = EventView::Called(result, after);
                    assert(!outer.next(st1, event).leaves) by {
                        reveal(advance);
                    }
                    assert(before.innermost(st) == outer.innermost(st1));
                    assert(called_here(before, st, result, after));
                    assert(self@ == before.next(st, event).machine);
                }
            },
        }
    }
}

fn any_pattern(arms: &Vec<(Vec<Word>, Vec<Command>)>) -> (yes: bool)
    ensures
        yes == has_pattern(arms@),
{
    let mut i: usize = 0;
    while i < arms.len()
        invariant
            0 <= i <= arms@.len(),
            forall|j: int| 0 <= j < i ==> (#[trigger] arms@[j]).0@.len() == 0,
        decreases arms.len() - i,
    {
        if arms[i].0.len() > 0 {
            assert(arms@[i as int].0@.len() > 0);
            return true;
        }
        i = i + 1;
    }
    false
}

} // verus!
