use shell_runtime::ast::{
    Command, CompoundCommand, Parameter, ParameterSubstitution, Redirect, SimpleCommand, Word,
};
use shell_runtime::env::{Env, Environment, ProcessInfo, Run};
use shell_runtime::error::RuntimeError;
use shell_runtime::io::{Fd, IoError, IoErrorKind, Permissions};
use shell_runtime::machine::{Action, Event, Process, Stdio};
use shell_runtime::outcome::Abort;
use shell_runtime::redirect::Redirection;
use shell_runtime::run::Machine;
use shell_runtime::status::{
    ExitStatus, EXIT_CMD_NOT_EXECUTABLE, EXIT_CMD_NOT_FOUND, EXIT_ERROR, EXIT_SUCCESS,
};
use std::cell::RefCell;
use std::rc::Rc;

type RunResult = Result<ExitStatus, RuntimeError>;

/// A handle is known by its name.
#[derive(Debug, PartialEq)]
struct Handle(String);

/// A system that has a few programs, and notes what is asked of it.
///
/// `ok` succeeds, `fail` has the code 3, `die` ends by a signal, `broken` cannot be executed,
/// `busy` cannot be started, `leak` gets no handle, and `countdown` fails once the number
/// is used up. Files can be opened unless their names begin with `no`.
#[derive(Default)]
struct World {
    log: Vec<String>,
    countdown: u32,
}

impl World {
    fn open(&mut self, path: &str, permissions: Permissions, append: bool) -> Event<Handle, Func> {
        let how = if append { "append" } else { permissions.as_str() };
        self.log.push(format!("open {} {}", path, how));
        if path.starts_with("no") {
            Event::OpenFailed(io_error(IoErrorKind::PermissionDenied, Some(13)))
        } else {
            Event::Opened(Rc::new(Handle(String::from(path))))
        }
    }

    fn spawn(&mut self, process: Process<Handle>) -> Event<Handle, Func> {
        let mut line = String::from(&**process.program);
        for arg in process.args.iter() {
            line.push_str(&format!(" '{}'", arg));
        }
        let mut vars = Vec::new();
        for i in 0..process.env.len() {
            let (name, value) = process.env.entry(i);
            vars.push(format!(" {}={}", name, value));
        }
        vars.sort();
        line.push_str(&vars.concat());
        for (fd, stdio) in [(0, &process.stdin), (1, &process.stdout), (2, &process.stderr)] {
            match stdio {
                Stdio::Handle(handle) => line.push_str(&format!(" {}>{}", fd, handle.0)),
                Stdio::Null => line.push_str(&format!(" {}>-", fd)),
                Stdio::Inherit => {}
            }
        }
        self.log.push(line);
        match process.program.as_str() {
            "ok" => Event::Exited(ExitStatus::Code(0)),
            "fail" => Event::Exited(ExitStatus::Code(3)),
            "die" => Event::Exited(ExitStatus::Signal(9)),
            "broken" => Event::SpawnFailed(io_error(IoErrorKind::Other, Some(libc::ENOEXEC))),
            "denied" => Event::SpawnFailed(io_error(IoErrorKind::PermissionDenied, Some(13))),
            "busy" => Event::SpawnFailed(io_error(IoErrorKind::ResourceBusy, Some(16))),
            "leak" => Event::HandleFailed(io_error(IoErrorKind::OutOfMemory, Some(12))),
            "countdown" => {
                if self.countdown > 0 {
                    self.countdown -= 1;
                    Event::Exited(ExitStatus::Code(0))
                } else {
                    Event::Exited(ExitStatus::Code(1))
                }
            }
            _ => Event::SpawnFailed(io_error(IoErrorKind::NotFound, Some(2))),
        }
    }
}

fn io_error(kind: IoErrorKind, number: Option<i32>) -> IoError {
    IoError {
        kind,
        raw_os_error: number,
        description: String::from("error"),
        message: String::from("system error"),
    }
}

struct Func {
    body: Rc<Command>,
    world: Rc<RefCell<World>>,
}

impl Run<Handle> for Func {
    fn run<'a>(&self, env: &mut Env<'a, Handle, Func>) -> RunResult {
        match drive(Machine::for_command(&self.body), env, &self.world) {
            Some(result) => result,
            None => panic!("the function has no meaning"),
        }
    }
}

/// Runs a machine to its end. There is no result where the command has no meaning.
fn drive<'s, 'a>(
    mut machine: Machine<'s, Handle, Func>,
    env: &mut Env<'a, Handle, Func>,
    world: &Rc<RefCell<World>>,
) -> Option<RunResult> {
    let mut event = Event::Proceed;
    loop {
        assert!(machine.awaits(&event));
        event = match machine.step(env, event) {
            Action::Continue => Event::Proceed,
            Action::Open { path, permissions, append } => {
                world.borrow_mut().open(&path, permissions, append)
            }
            Action::Spawn(process) => world.borrow_mut().spawn(process),
            Action::Define(body) => Event::Defined(Func { body, world: world.clone() }),
            Action::Call => {
                machine.call(env);
                Event::Proceed
            }
            Action::Finished(result) => return Some(result),
            Action::Undefined => return None,
        };
    }
}

struct Shell {
    env: Env<'static, Handle, Func>,
    world: Rc<RefCell<World>>,
}

impl Shell {
    fn new() -> Shell {
        let process = ProcessInfo { name: None, vars: Vec::new(), pid: 1 };
        Shell {
            env: Env::with_config(Some(String::from("shell")), None, Some(Vec::new()), process),
            world: Rc::new(RefCell::new(World::default())),
        }
    }

    fn run(&mut self, c: Command) -> RunResult {
        drive(Machine::for_command(&c), &mut self.env, &self.world).unwrap()
    }

    fn log(&self) -> Vec<String> {
        self.world.borrow_mut().log.drain(..).collect()
    }

    fn var(&self, name: &str) -> Option<String> {
        self.env.var(name).map(|s| String::from(s.as_str()))
    }

    fn open(&mut self, fd: Fd, name: &str, perms: Permissions) {
        self.env.set_file_desc(fd, Rc::new(Handle(String::from(name))), perms);
    }

    /// The names of the first descriptors that are open.
    fn fds(&self) -> Vec<Option<String>> {
        (0..6).map(|fd| self.env.file_desc(fd).map(|(handle, _)| handle.0.clone())).collect()
    }
}

fn code(n: i32) -> ExitStatus {
    ExitStatus::Code(n)
}

fn rc(s: &str) -> Rc<String> {
    Rc::new(String::from(s))
}

fn lit(s: &str) -> Word {
    Word::Literal(String::from(s))
}

fn param(name: &str) -> Word {
    Word::Param(Parameter::Var(String::from(name)))
}

fn simple(words: &[&str]) -> SimpleCommand {
    SimpleCommand {
        cmd: Some((lit(words[0]), words[1..].iter().map(|s| lit(s)).collect())),
        vars: Vec::new(),
        io: Vec::new(),
    }
}

fn cmd(words: &[&str]) -> Command {
    Command::Simple(Box::new(simple(words)))
}

fn assign(name: &str, value: Word) -> Command {
    Command::Simple(Box::new(SimpleCommand {
        cmd: None,
        vars: vec![(String::from(name), Some(value))],
        io: Vec::new(),
    }))
}

/// A command that fails with an error before it runs anything.
fn error() -> Command {
    assign("x", missing())
}

fn missing() -> Word {
    let unset = Parameter::Var(String::from("unset"));
    Word::Subst(Box::new(ParameterSubstitution::Error(false, unset, None)))
}

fn missing_error() -> RuntimeError {
    let unset = Parameter::Var(String::from("unset"));
    RuntimeError::EmptyParameter(unset, rc("parameter null or not set"))
}

fn and(first: Command, second: Command) -> Command {
    Command::And(Box::new(first), Box::new(second))
}

fn or(first: Command, second: Command) -> Command {
    Command::Or(Box::new(first), Box::new(second))
}

fn compound(c: CompoundCommand) -> Command {
    Command::Compound(Box::new(c), Vec::new())
}

fn redirected(c: CompoundCommand, io: Vec<Redirect>) -> Command {
    Command::Compound(Box::new(c), io)
}

fn define(name: &str, body: Command) -> Command {
    Command::Function(String::from(name), Rc::new(body))
}

#[test]
fn programs_are_started() {
    let mut sh = Shell::new();
    assert_eq!(sh.run(cmd(&["ok", "a b", "c"])), Ok(code(0)));
    assert_eq!(sh.env.last_status(), code(0));
    assert_eq!(sh.run(cmd(&["fail"])), Ok(code(3)));
    assert_eq!(sh.env.last_status(), code(3));
    assert_eq!(sh.run(cmd(&["die"])), Ok(ExitStatus::Signal(9)));
    assert_eq!(sh.env.last_status(), ExitStatus::Signal(9));
    assert_eq!(sh.log(), vec!["ok 'a b' 'c'", "fail", "die"]);
}

#[test]
fn programs_that_cannot_be_started() {
    let mut sh = Shell::new();
    assert_eq!(sh.run(cmd(&["gone"])), Err(RuntimeError::CommandNotFound(rc("gone"))));
    assert_eq!(sh.env.last_status(), code(EXIT_CMD_NOT_FOUND));
    assert_eq!(sh.run(cmd(&["broken"])), Err(RuntimeError::CommandNotExecutable(rc("broken"))));
    assert_eq!(sh.env.last_status(), code(EXIT_CMD_NOT_EXECUTABLE));
    assert_eq!(sh.run(cmd(&["denied"])), Err(RuntimeError::CommandNotExecutable(rc("denied"))));
    assert_eq!(sh.env.last_status(), code(EXIT_CMD_NOT_EXECUTABLE));
    let busy = RuntimeError::Io(io_error(IoErrorKind::ResourceBusy, None));
    assert_eq!(sh.run(cmd(&["busy"])), Err(busy));
    assert_eq!(sh.env.last_status(), code(EXIT_ERROR));
}

#[test]
fn a_handle_that_cannot_be_had_records_no_status() {
    let mut sh = Shell::new();
    sh.env.set_last_status(code(42));
    let memory = RuntimeError::Io(io_error(IoErrorKind::OutOfMemory, None));
    assert_eq!(sh.run(cmd(&["leak"])), Err(memory));
    assert_eq!(sh.env.last_status(), code(42));
}

#[test]
fn a_name_is_the_first_field_of_its_word() {
    let mut sh = Shell::new();
    sh.env.set_var(String::from("x"), rc("ok fail"));
    let c = SimpleCommand {
        cmd: Some((param("x"), vec![param("x"), param("unset")])),
        vars: Vec::new(),
        io: Vec::new(),
    };
    assert_eq!(sh.run(Command::Simple(Box::new(c))), Ok(code(0)));
    assert_eq!(sh.log(), vec!["ok 'ok' 'fail'"]);
    let c = SimpleCommand {
        cmd: Some((param("unset"), Vec::new())),
        vars: Vec::new(),
        io: Vec::new(),
    };
    assert_eq!(
        sh.run(Command::Simple(Box::new(c))),
        Err(RuntimeError::CommandNotFound(rc("")))
    );
    assert_eq!(sh.env.last_status(), code(EXIT_CMD_NOT_FOUND));
}

#[test]
fn variables_of_programs() {
    let process = ProcessInfo { name: None, vars: Vec::new(), pid: 1 };
    let pairs = vec![
        (String::from("A"), String::from("1")),
        (String::from("B"), String::from("2")),
    ];
    let mut sh = Shell::new();
    sh.env = Env::with_config(None, None, Some(pairs), process);
    sh.env.set_var(String::from("plain"), rc("x  y"));
    let mut c = simple(&["ok"]);
    c.vars = vec![
        (String::from("B"), Some(param("plain"))),
        (String::from("C"), Some(lit("3"))),
        (String::from("D"), None),
    ];
    assert_eq!(sh.run(Command::Simple(Box::new(c))), Ok(code(0)));
    assert_eq!(sh.log(), vec!["ok A=1 B=x y C=3"]);
    assert_eq!(sh.var("B"), Some(String::from("2")));
    assert_eq!(sh.var("C"), None);
}

#[test]
fn assignments_without_a_command() {
    let mut sh = Shell::new();
    sh.env.set_last_status(code(7));
    let c = SimpleCommand {
        cmd: None,
        vars: vec![
            (String::from("x"), Some(lit("a  b"))),
            (String::from("y"), Some(param("x"))),
            (String::from("z"), None),
        ],
        io: vec![Redirect::Write(None, lit("file"))],
    };
    assert_eq!(sh.run(Command::Simple(Box::new(c))), Ok(code(0)));
    assert_eq!(sh.env.last_status(), code(0));
    assert_eq!(sh.var("x"), Some(String::from("a  b")));
    assert_eq!(sh.var("y"), Some(String::from("a  b")));
    assert_eq!(sh.var("z"), None);
    assert_eq!(sh.log(), vec!["open file write"]);
    assert_eq!(sh.fds(), vec![None; 6]);
}

#[test]
fn assignments_stop_at_an_error() {
    let mut sh = Shell::new();
    sh.env.set_last_status(code(7));
    let c = SimpleCommand {
        cmd: None,
        vars: vec![
            (String::from("x"), Some(lit("1"))),
            (String::from("y"), Some(missing())),
            (String::from("z"), Some(lit("3"))),
        ],
        io: Vec::new(),
    };
    assert_eq!(sh.run(Command::Simple(Box::new(c))), Err(missing_error()));
    assert_eq!((sh.var("x"), sh.var("z")), (Some(String::from("1")), None));
    assert_eq!(sh.env.last_status(), code(7));
}

#[test]
fn and_stops_at_what_does_not_succeed() {
    let mut sh = Shell::new();
    assert_eq!(sh.run(and(cmd(&["ok", "1"]), cmd(&["fail", "2"]))), Ok(code(3)));
    assert_eq!(sh.run(and(cmd(&["fail", "3"]), cmd(&["ok", "4"]))), Ok(code(3)));
    assert_eq!(sh.env.last_status(), code(3));
    assert_eq!(sh.run(and(error(), cmd(&["ok", "5"]))), Err(missing_error()));
    assert_eq!(sh.log(), vec!["ok '1'", "fail '2'", "fail '3'"]);
}

#[test]
fn or_stops_at_a_success_or_an_error() {
    let mut sh = Shell::new();
    assert_eq!(sh.run(or(cmd(&["ok", "1"]), cmd(&["ok", "2"]))), Ok(code(0)));
    assert_eq!(sh.run(or(cmd(&["fail", "3"]), cmd(&["ok", "4"]))), Ok(code(0)));
    assert_eq!(sh.run(or(cmd(&["fail", "5"]), cmd(&["die", "6"]))), Ok(ExitStatus::Signal(9)));
    assert_eq!(sh.run(or(error(), cmd(&["ok", "7"]))), Err(missing_error()));
    assert_eq!(sh.log(), vec!["ok '1'", "fail '3'", "ok '4'", "fail '5'", "die '6'"]);
}

#[test]
fn lists_have_the_last_status() {
    let mut sh = Shell::new();
    let list = vec![cmd(&["fail"]), cmd(&["ok"])];
    let result = drive(Machine::for_list(&list), &mut sh.env, &sh.world).unwrap();
    assert_eq!(result, Ok(code(0)));
    sh.env.set_last_status(code(9));
    let nothing = Vec::new();
    let result = drive(Machine::for_list(&nothing), &mut sh.env, &sh.world).unwrap();
    assert_eq!(result, Ok(code(EXIT_SUCCESS)));
    assert_eq!(sh.env.last_status(), code(EXIT_SUCCESS));
    let list = vec![cmd(&["ok", "1"]), error(), cmd(&["ok", "2"])];
    let result = drive(Machine::for_list(&list), &mut sh.env, &sh.world).unwrap();
    assert_eq!(result, Err(missing_error()));
    assert_eq!(sh.log(), vec!["fail", "ok", "ok '1'"]);
}

#[test]
fn loops() {
    let mut sh = Shell::new();
    sh.world.borrow_mut().countdown = 2;
    let guard = || vec![cmd(&["countdown"])];
    let c = CompoundCommand::While(guard(), vec![cmd(&["fail"])]);
    assert_eq!(sh.run(compound(c)), Ok(code(3)));
    assert_eq!(sh.env.last_status(), code(3));
    assert_eq!(sh.log(), vec!["countdown", "fail", "countdown", "fail", "countdown"]);

    // The guard fails at once.
    let c = CompoundCommand::While(guard(), vec![cmd(&["fail"])]);
    assert_eq!(sh.run(compound(c)), Ok(code(0)));
    assert_eq!(sh.env.last_status(), code(0));
    sh.log();

    sh.world.borrow_mut().countdown = 1;
    let c = CompoundCommand::Until(guard(), vec![cmd(&["fail"])]);
    assert_eq!(sh.run(compound(c)), Ok(code(0)));
    assert_eq!(sh.log(), vec!["countdown"]);

    sh.world.borrow_mut().countdown = 1;
    let c = CompoundCommand::While(guard(), vec![error()]);
    assert_eq!(sh.run(compound(c)), Err(missing_error()));
    let c = CompoundCommand::Until(vec![error()], vec![cmd(&["ok"])]);
    assert_eq!(sh.run(compound(c)), Err(missing_error()));
}

#[test]
fn branches() {
    let mut sh = Shell::new();
    let branch = |guard: &str, body: &str| (vec![cmd(&[guard])], vec![cmd(&["fail", body])]);
    let c = CompoundCommand::If(vec![branch("fail", "1"), branch("ok", "2")], None);
    assert_eq!(sh.run(compound(c)), Ok(code(3)));
    assert_eq!(sh.log(), vec!["fail", "ok", "fail '2'"]);

    let c = CompoundCommand::If(vec![branch("fail", "1")], None);
    assert_eq!(sh.run(compound(c)), Ok(code(0)));
    assert_eq!(sh.env.last_status(), code(0));
    let c = CompoundCommand::If(vec![branch("fail", "1")], Some(vec![cmd(&["fail", "else"])]));
    assert_eq!(sh.run(compound(c)), Ok(code(3)));
    assert_eq!(sh.log(), vec!["fail", "fail", "fail 'else'"]);

    let c = CompoundCommand::If(Vec::new(), Some(vec![cmd(&["ok"])]));
    assert_eq!(sh.run(compound(c)), Ok(code(EXIT_ERROR)));
    assert_eq!(sh.env.last_status(), code(EXIT_ERROR));
    let c = CompoundCommand::If(vec![(vec![error()], Vec::new())], None);
    assert_eq!(sh.run(compound(c)), Err(missing_error()));
    assert_eq!(sh.log(), Vec::<String>::new());
}

#[test]
fn for_loops() {
    let mut sh = Shell::new();
    sh.env.set_var(String::from("x"), rc("b c"));
    let body = || {
        vec![Command::Simple(Box::new(SimpleCommand {
            cmd: Some((lit("fail"), vec![param("i")])),
            vars: Vec::new(),
            io: Vec::new(),
        }))]
    };
    let words = vec![lit("a"), param("x")];
    let c = CompoundCommand::For(String::from("i"), Some(words), body());
    assert_eq!(sh.run(compound(c)), Ok(code(3)));
    assert_eq!(sh.log(), vec!["fail 'a'", "fail 'b'", "fail 'c'"]);
    assert_eq!(sh.var("i"), Some(String::from("c")));

    let c = CompoundCommand::For(String::from("i"), None, body());
    assert_eq!(sh.run(compound(c)), Ok(code(0)));
    assert_eq!(sh.log(), Vec::<String>::new());

    // Without arguments there is nothing to run through, within double quotes either.
    let at = || Word::DoubleQuoted(vec![Word::Param(Parameter::At)]);
    let c = CompoundCommand::For(String::from("i"), Some(vec![at(), at()]), body());
    assert_eq!(sh.run(compound(c)), Ok(code(0)));
    assert_eq!(sh.log(), Vec::<String>::new());
    let c = SimpleCommand {
        cmd: Some((lit("ok"), vec![lit("a"), at(), Word::DoubleQuoted(vec![])])),
        vars: Vec::new(),
        io: Vec::new(),
    };
    assert_eq!(sh.run(Command::Simple(Box::new(c))), Ok(code(0)));
    assert_eq!(sh.log(), vec!["ok 'a' ''"]);

    let c = CompoundCommand::For(String::from("i"), Some(vec![missing()]), body());
    assert_eq!(sh.run(compound(c)), Err(missing_error()));

    let process = ProcessInfo { name: None, vars: Vec::new(), pid: 1 };
    let args = vec![String::from("p q"), String::from("r")];
    sh.env = Env::with_config(None, Some(args), Some(Vec::new()), process);
    sh.env.set_var(String::from("IFS"), rc(""));
    let c = CompoundCommand::For(String::from("i"), None, body());
    assert_eq!(sh.run(compound(c)), Ok(code(3)));
    assert_eq!(sh.log(), vec!["fail 'p q'", "fail 'r'"]);
}

#[test]
fn braces_are_run_in_place_and_subshells_are_not() {
    let mut sh = Shell::new();
    sh.open(3, "three", Permissions::Read);
    let body = || {
        vec![
            assign("x", lit("1")),
            define("f", cmd(&["ok"])),
            cmd(&["fail", "in"]),
        ]
    };
    assert_eq!(sh.run(compound(CompoundCommand::Subshell(body()))), Ok(code(3)));
    assert_eq!(sh.env.last_status(), code(3));
    assert_eq!(sh.var("x"), None);
    assert!(!sh.env.has_function("f"));

    assert_eq!(sh.run(compound(CompoundCommand::Brace(body()))), Ok(code(3)));
    assert_eq!(sh.var("x"), Some(String::from("1")));
    assert!(sh.env.has_function("f"));
}

#[test]
fn nested_subshells() {
    let mut sh = Shell::new();
    sh.env.set_var(String::from("x"), rc("0"));
    let show = || {
        Command::Simple(Box::new(SimpleCommand {
            cmd: Some((lit("ok"), vec![param("x")])),
            vars: Vec::new(),
            io: Vec::new(),
        }))
    };
    let inner = CompoundCommand::Subshell(vec![show(), assign("x", lit("2")), show()]);
    let outer =
        CompoundCommand::Subshell(vec![assign("x", lit("1")), compound(inner), show()]);
    assert_eq!(sh.run(compound(outer)), Ok(code(0)));
    assert_eq!(sh.run(show()), Ok(code(0)));
    assert_eq!(sh.log(), vec!["ok '1'", "ok '2'", "ok '1'", "ok '0'"]);
}

#[test]
fn an_error_in_a_subshell_leaves_it() {
    let mut sh = Shell::new();
    sh.env.set_last_status(code(5));
    let c = CompoundCommand::Subshell(vec![assign("y", lit("1")), error()]);
    assert_eq!(sh.run(compound(c)), Err(missing_error()));
    assert_eq!(sh.var("y"), None);
    assert_eq!(sh.env.last_status(), code(5));
    assert_eq!(sh.run(assign("y", lit("2"))), Ok(code(0)));
    assert_eq!(sh.var("y"), Some(String::from("2")));
}

#[test]
fn functions_are_defined_and_called() {
    let mut sh = Shell::new();
    let show = Command::Simple(Box::new(SimpleCommand {
        cmd: Some((
            lit("fail"),
            vec![Word::Param(Parameter::Positional(0)), Word::Param(Parameter::At)],
        )),
        vars: Vec::new(),
        io: Vec::new(),
    }));
    sh.env.set_last_status(code(9));
    assert_eq!(sh.run(define("ok", show)), Ok(code(0)));
    assert_eq!(sh.env.last_status(), code(0));
    assert_eq!(sh.run(cmd(&["ok", "a", "b"])), Ok(code(3)));
    assert_eq!(sh.env.last_status(), code(3));
    assert_eq!(&**sh.env.name(), "shell");
    assert_eq!(sh.env.args_len(), 0);
    // What the command would assign for a program is of no account.
    let mut c = simple(&["ok", "c"]);
    c.vars = vec![(String::from("x"), Some(lit("1")))];
    assert_eq!(sh.run(Command::Simple(Box::new(c))), Ok(code(3)));
    assert_eq!(sh.var("x"), None);
    // A name with a slash is never that of a function.
    assert_eq!(sh.run(cmd(&["./ok"])), Err(RuntimeError::CommandNotFound(rc("./ok"))));
    assert_eq!(sh.log(), vec!["fail 'ok' 'a' 'b'", "fail 'ok' 'c'", "./ok"]);
}

#[test]
fn a_call_has_the_error_of_its_function() {
    let mut sh = Shell::new();
    sh.env.set_last_status(code(7));
    assert_eq!(sh.run(define("f", error())), Ok(code(0)));
    assert_eq!(sh.run(cmd(&["f", "a"])), Err(missing_error()));
    assert_eq!(&**sh.env.name(), "shell");
    assert_eq!(sh.env.args_len(), 0);
    assert_eq!(sh.log(), Vec::<String>::new());
}

#[test]
fn functions_are_called_in_the_innermost_environment() {
    let mut sh = Shell::new();
    assert_eq!(sh.run(define("f", assign("x", lit("1")))), Ok(code(0)));
    let inside = CompoundCommand::Subshell(vec![
        cmd(&["f"]),
        Command::Simple(Box::new(SimpleCommand {
            cmd: Some((lit("ok"), vec![param("x")])),
            vars: Vec::new(),
            io: Vec::new(),
        })),
    ]);
    assert_eq!(sh.run(compound(inside)), Ok(code(0)));
    assert_eq!(sh.log(), vec!["ok '1'"]);
    assert_eq!(sh.var("x"), None);
    assert_eq!(sh.run(cmd(&["f"])), Ok(code(0)));
    assert_eq!(sh.var("x"), Some(String::from("1")));
}

#[test]
fn a_function_that_is_gone_is_not_found() {
    let mut sh = Shell::new();
    assert_eq!(sh.run(define("f", cmd(&["ok"]))), Ok(code(0)));
    let c = cmd(&["f"]);
    let mut machine: Machine<'_, Handle, Func> = Machine::for_command(&c);
    assert!(matches!(machine.step(&mut sh.env, Event::Proceed), Action::Continue));
    assert!(matches!(machine.step(&mut sh.env, Event::Proceed), Action::Call));
    let mut other = Shell::new();
    machine.call(&mut other.env);
    let result = drive(machine, &mut other.env, &other.world);
    assert_eq!(result, Some(Err(RuntimeError::CommandNotFound(rc("f")))));
    assert_eq!(other.env.last_status(), code(EXIT_CMD_NOT_FOUND));
}

#[test]
fn jobs_are_not_supported() {
    let mut sh = Shell::new();
    let job = Command::Job(Box::new(cmd(&["ok"])));
    assert_eq!(
        sh.run(job),
        Err(RuntimeError::Unimplemented("job control is not currently supported"))
    );
    assert_eq!(sh.env.last_status(), code(EXIT_ERROR));
    assert_eq!(sh.log(), Vec::<String>::new());
}

#[test]
fn commands_without_a_meaning() {
    let mut sh = Shell::new();
    let pipe = Command::Pipe(false, vec![cmd(&["ok"])]);
    assert_eq!(drive(Machine::for_command(&pipe), &mut sh.env, &sh.world), None);
    let case = CompoundCommand::Case(lit("a"), vec![(vec![lit("a")], vec![cmd(&["ok"])])]);
    assert_eq!(drive(Machine::for_compound(&case), &mut sh.env, &sh.world), None);
    let mut heredoc = simple(&["ok"]);
    heredoc.io = vec![Redirect::Heredoc(None, lit("text"))];
    assert_eq!(drive(Machine::for_simple(&heredoc), &mut sh.env, &sh.world), None);
}

#[test]
fn a_case_without_patterns_is_a_success() {
    let mut sh = Shell::new();
    sh.env.set_last_status(code(4));
    let case = CompoundCommand::Case(lit("a"), vec![(Vec::new(), vec![cmd(&["fail"])])]);
    assert_eq!(sh.run(compound(case)), Ok(code(0)));
    assert_eq!(sh.env.last_status(), code(0));
    let case = CompoundCommand::Case(missing(), Vec::new());
    assert_eq!(sh.run(compound(case)), Err(missing_error()));
    assert_eq!(sh.log(), Vec::<String>::new());
}

#[test]
fn redirections_of_programs() {
    let mut sh = Shell::new();
    sh.open(1, "out", Permissions::Write);
    sh.open(4, "four", Permissions::ReadWrite);
    let before = sh.fds();
    let mut c = simple(&["ok"]);
    c.io = vec![
        Redirect::Read(None, lit("in")),
        Redirect::Append(Some(3), lit("log")),
        Redirect::DupWrite(Some(2), lit("3")),
        Redirect::DupRead(Some(0), lit("4")),
    ];
    assert_eq!(sh.run(Command::Simple(Box::new(c))), Ok(code(0)));
    assert_eq!(sh.log(), vec!["open in read", "open log append", "ok 0>four 1>out 2>log"]);
    assert_eq!(sh.fds(), before);

    let mut c = simple(&["ok"]);
    c.io = vec![
        Redirect::Clobber(None, lit("new")),
        Redirect::ReadWrite(None, lit("both")),
        Redirect::DupWrite(None, lit("-")),
    ];
    assert_eq!(sh.run(Command::Simple(Box::new(c))), Ok(code(0)));
    assert_eq!(sh.log(), vec!["open new write", "open both read/write", "ok 0>both 1>-"]);
    assert_eq!(sh.fds(), before);
}

#[test]
fn redirections_that_fail() {
    let mut sh = Shell::new();
    sh.open(5, "five", Permissions::Read);
    sh.env.set_last_status(code(6));
    let mut c = simple(&["ok"]);
    c.io = vec![Redirect::Write(None, lit("no"))];
    let denied = || RuntimeError::Io(io_error(IoErrorKind::PermissionDenied, None));
    assert_eq!(sh.run(Command::Simple(Box::new(c))), Err(denied()));
    assert_eq!(sh.env.last_status(), code(6));

    let mut c = simple(&["ok"]);
    c.io = vec![Redirect::DupWrite(None, lit("5"))];
    assert_eq!(
        sh.run(Command::Simple(Box::new(c))),
        Err(RuntimeError::RedirectBadFdPerms(5, Permissions::Write))
    );
    assert_eq!(sh.env.last_status(), code(6));
    assert_eq!(sh.log(), vec!["open no write"]);
}

#[test]
fn redirections_of_compound_commands() {
    let mut sh = Shell::new();
    sh.open(1, "out", Permissions::Write);
    sh.open(4, "four", Permissions::Read);
    let before = sh.fds();
    let body = || CompoundCommand::Brace(vec![assign("x", lit("1")), cmd(&["ok"])]);
    let io = vec![
        Redirect::Write(None, lit("first")),
        Redirect::Write(None, lit("second")),
        Redirect::Read(None, lit("in")),
        Redirect::DupRead(Some(4), lit("-")),
    ];
    assert_eq!(sh.run(redirected(body(), io)), Ok(code(0)));
    assert_eq!(
        sh.log(),
        vec!["open first write", "open second write", "open in read", "ok 0>in 1>second"]
    );
    assert_eq!(sh.var("x"), Some(String::from("1")));
    assert_eq!(sh.fds(), before);

    // The same holds after an error in the body.
    let io = vec![Redirect::Write(None, lit("first"))];
    assert_eq!(
        sh.run(redirected(CompoundCommand::Brace(vec![error()]), io)),
        Err(missing_error())
    );
    assert_eq!(sh.fds(), before);
}

#[test]
fn a_descriptor_that_is_closed_for_a_compound_command_does_not_exist() {
    let mut sh = Shell::new();
    sh.open(0, "keys", Permissions::Read);
    let before = sh.fds();
    let body = || CompoundCommand::Brace(vec![cmd(&["ok"])]);
    let read = |file: &str| Redirect::Read(None, lit(file));
    let close = || Redirect::DupRead(None, lit("-"));
    assert_eq!(sh.run(redirected(body(), vec![read("in"), close()])), Ok(code(0)));
    assert_eq!(sh.log(), vec!["open in read", "ok"]);
    assert_eq!(sh.fds(), before);
    assert_eq!(sh.run(redirected(body(), vec![close(), read("in")])), Ok(code(0)));
    assert_eq!(sh.log(), vec!["open in read", "ok 0>in"]);
    let io = vec![read("in"), Redirect::Write(Some(3), lit("out")), close(), read("more")];
    assert_eq!(sh.run(redirected(body(), io)), Ok(code(0)));
    assert_eq!(sh.log(), vec!["open in read", "open out write", "open more read", "ok 0>more"]);

    let mut c = simple(&["ok"]);
    c.io = vec![Redirect::DupRead(Some(5), lit("0"))];
    let body = CompoundCommand::Brace(vec![Command::Simple(Box::new(c))]);
    assert_eq!(
        sh.run(redirected(body, vec![read("in"), close()])),
        Err(RuntimeError::RedirectBadFdSrc(rc("0")))
    );
    assert_eq!(sh.fds(), before);
}

#[test]
fn a_failed_redirection_of_a_compound_command_restores_what_was_open() {
    let mut sh = Shell::new();
    sh.open(1, "out", Permissions::Write);
    let before = sh.fds();
    let io = vec![Redirect::Write(None, lit("first")), Redirect::Read(None, lit("no"))];
    let denied = RuntimeError::Io(io_error(IoErrorKind::PermissionDenied, None));
    assert_eq!(
        sh.run(redirected(CompoundCommand::Brace(vec![cmd(&["ok"])]), io)),
        Err(denied)
    );
    assert_eq!(sh.env.last_status(), code(EXIT_ERROR));
    assert_eq!(sh.fds(), before);
    assert_eq!(sh.log(), vec!["open first write", "open no read"]);

    // What was redirected before is closed for a later redirection.
    let io = vec![Redirect::Write(None, lit("first")), Redirect::DupWrite(Some(2), lit("1"))];
    assert_eq!(
        sh.run(redirected(CompoundCommand::Brace(vec![cmd(&["ok"])]), io)),
        Err(RuntimeError::RedirectBadFdSrc(rc("1")))
    );
    assert_eq!(sh.fds(), before);
}

#[test]
fn redirections_are_evaluated() {
    let mut sh = Shell::new();
    sh.open(3, "three", Permissions::ReadWrite);
    sh.env.set_var(String::from("x"), rc("a b"));
    let env = &mut sh.env;
    let eval = |r: Redirect, env: &mut Env<'static, Handle, Func>| match r.try_eval(env) {
        Ok(Redirection::Close(fd)) => Ok(format!("close {}", fd)),
        Ok(Redirection::Duplicate(fd, handle, perms)) => {
            Ok(format!("{} = {} {}", fd, handle.0, perms.as_str()))
        }
        Ok(Redirection::Open { fd, path, permissions, append }) => {
            Ok(format!("open {} {} {} {}", fd, path, permissions.as_str(), append))
        }
        Err(Abort::Error(e)) => Err(e.to_string()),
        Err(Abort::Undefined) => Err(String::from("undefined")),
    };
    let ok = |s: &str| Ok(String::from(s));
    assert_eq!(eval(Redirect::Read(None, lit("f")), env), ok("open 0 f read false"));
    assert_eq!(eval(Redirect::Read(Some(7), lit("f")), env), ok("open 7 f read false"));
    assert_eq!(eval(Redirect::ReadWrite(None, lit("f")), env), ok("open 0 f read/write false"));
    assert_eq!(eval(Redirect::Write(None, lit("f")), env), ok("open 1 f write false"));
    assert_eq!(eval(Redirect::Clobber(None, lit("f")), env), ok("open 1 f write false"));
    assert_eq!(eval(Redirect::Append(None, lit("f")), env), ok("open 1 f write true"));
    assert_eq!(eval(Redirect::DupRead(None, lit("3")), env), ok("0 = three read"));
    assert_eq!(eval(Redirect::DupWrite(None, lit("+3")), env), ok("1 = three write"));
    assert_eq!(eval(Redirect::DupRead(None, lit("-")), env), ok("close 0"));
    assert_eq!(eval(Redirect::DupWrite(Some(9), lit("-")), env), ok("close 9"));
    // A path is not split.
    assert_eq!(eval(Redirect::Write(None, param("x")), env), ok("open 1 a b write false"));
}

#[test]
fn redirections_with_errors() {
    let process = ProcessInfo { name: None, vars: Vec::new(), pid: 1 };
    let args = vec![String::from("a"), String::from("b")];
    let mut env: Env<'static, Handle, Func> = Env::with_config(None, Some(args), None, process);
    let env = &mut env;
    env.set_file_desc(3, Rc::new(Handle(String::from("three"))), Permissions::Write);
    let at = || Word::Param(Parameter::At);
    assert_eq!(
        Redirect::Write(None, at()).eval(env).err(),
        Some(RuntimeError::RedirectAmbiguous(vec![rc("a"), rc("b")]))
    );
    assert_eq!(env.last_status(), code(0));
    assert_eq!(
        Redirect::DupRead(None, lit("3")).eval(env).err(),
        Some(RuntimeError::RedirectBadFdPerms(3, Permissions::Read))
    );
    assert_eq!(env.last_status(), code(EXIT_ERROR));
    env.set_last_status(code(0));
    assert_eq!(
        Redirect::DupRead(Some(5), lit("3")).eval(env).err(),
        Some(RuntimeError::RedirectBadFdPerms(3, Permissions::Read))
    );
    assert_eq!(env.last_status(), code(EXIT_ERROR));
    for text in ["4", "x", "", "65536", "-1", "3 "] {
        env.set_last_status(code(0));
        assert_eq!(
            Redirect::DupWrite(None, lit(text)).eval(env).err(),
            Some(RuntimeError::RedirectBadFdSrc(rc(text)))
        );
        assert_eq!(env.last_status(), code(EXIT_ERROR));
    }
}

#[test]
fn a_machine_awaits_the_event_of_its_action() {
    let mut sh = Shell::new();
    let c = cmd(&["ok"]);
    let mut machine: Machine<'_, Handle, Func> = Machine::for_command(&c);
    let mut steps = 0;
    loop {
        assert!(machine.awaits(&Event::Proceed));
        assert!(!machine.awaits(&Event::Exited(code(0))));
        match machine.step(&mut sh.env, Event::Proceed) {
            Action::Continue => steps += 1,
            Action::Spawn(_) => break,
            _ => panic!("nothing else is asked for"),
        }
        assert!(steps < 10);
    }
    assert!(!machine.awaits(&Event::Proceed));
    assert!(machine.awaits(&Event::Exited(code(0))));
    assert!(machine.awaits(&Event::SpawnFailed(io_error(IoErrorKind::Other, None))));
}
