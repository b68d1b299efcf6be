use shell_runtime::ast::Parameter;
use shell_runtime::env::{Env, Environment, ProcessInfo, Run};
use shell_runtime::error::RuntimeError;
use shell_runtime::fields::Fields;
use shell_runtime::io::{Permissions, STDERR_FILENO, STDIN_FILENO};
use shell_runtime::status::{ExitStatus, EXIT_ERROR, EXIT_SUCCESS};
use std::cell::{Cell, RefCell};
use std::rc::Rc;

type RunResult = Result<ExitStatus, RuntimeError>;

#[derive(Debug, PartialEq)]
struct FileDesc(u32);

struct MockFn {
    callback: RefCell<Box<dyn FnMut(&mut Env<'_, FileDesc, MockFn>) -> RunResult>>,
}

impl MockFn {
    fn new<F: FnMut(&mut Env<'_, FileDesc, MockFn>) -> RunResult + 'static>(f: F) -> MockFn {
        MockFn { callback: RefCell::new(Box::new(f)) }
    }
}

impl Run<FileDesc> for MockFn {
    fn run<'a>(&self, env: &mut Env<'a, FileDesc, MockFn>) -> RunResult {
        let mut callback = self.callback.borrow_mut();
        (*callback)(env)
    }
}

struct MockFnRecursive {
    callback: Box<dyn Fn(&mut Env<'_, FileDesc, MockFnRecursive>) -> RunResult>,
}

impl MockFnRecursive {
    fn new<F: Fn(&mut Env<'_, FileDesc, MockFnRecursive>) -> RunResult + 'static>(
        f: F,
    ) -> MockFnRecursive {
        MockFnRecursive { callback: Box::new(f) }
    }
}

impl Run<FileDesc> for MockFnRecursive {
    fn run<'a>(&self, env: &mut Env<'a, FileDesc, MockFnRecursive>) -> RunResult {
        (self.callback)(env)
    }
}

type TestEnv = Env<'static, FileDesc, MockFn>;

fn process() -> ProcessInfo {
    ProcessInfo {
        name: Some(String::from("program")),
        vars: vec![
            (String::from("LANG"), String::from("C")),
            (String::from("HOME"), String::from("/home/user")),
        ],
        pid: 4242,
    }
}

fn new_env() -> TestEnv {
    Env::new(process())
}

fn rc(s: &str) -> Rc<String> {
    Rc::new(String::from(s))
}

fn error() -> ExitStatus {
    ExitStatus::Code(EXIT_ERROR)
}

fn success() -> ExitStatus {
    ExitStatus::Code(EXIT_SUCCESS)
}

#[test]
fn test_env_name() {
    let name = "shell";
    let env: TestEnv = Env::with_config(Some(String::from(name)), None, None, process());
    assert_eq!(&**env.name(), name);
    assert_eq!(&**env.arg(0).unwrap(), name);
}

#[test]
fn test_env_name_should_be_same_in_child_environment() {
    let name = "shell";
    let env: TestEnv = Env::with_config(Some(String::from(name)), None, None, process());
    let child = env.sub_env();
    assert_eq!(&**child.name(), name);
    assert_eq!(&**child.arg(0).unwrap(), name);
}

#[test]
fn test_env_set_and_get_var() {
    let name = "var";
    let value = "value";
    let mut env = new_env();
    assert_eq!(env.var(name), None);
    env.set_var(String::from(name), Rc::new(String::from(value)));
    assert_eq!(&**env.var(name).unwrap(), value);
}

#[test]
fn test_env_set_var_in_parent_visible_in_child() {
    let name = "var";
    let value = "value";
    let mut parent = new_env();
    parent.set_var(String::from(name), Rc::new(String::from(value)));
    assert_eq!(&**parent.sub_env().var(name).unwrap(), value);
}

#[test]
fn test_env_set_var_in_child_should_not_affect_parent() {
    let parent_name = "parent-var";
    let parent_value = "parent-value";
    let child_name = "child-var";
    let child_value = "child-value";

    let mut parent = new_env();
    parent.set_var(String::from(parent_name), Rc::new(String::from(parent_value)));

    {
        let mut child = parent.sub_env();
        child.set_var(String::from(parent_name), Rc::new(String::from(child_value)));
        child.set_var(String::from(child_name), Rc::new(String::from(child_value)));
        assert_eq!(&**child.var(parent_name).unwrap(), child_value);
        assert_eq!(&**child.var(child_name).unwrap(), child_value);

        assert_eq!(&**parent.var(parent_name).unwrap(), parent_value);
        assert_eq!(parent.var(child_name), None);
    }

    assert_eq!(&**parent.var(parent_name).unwrap(), parent_value);
    assert_eq!(parent.var(child_name), None);
}

#[test]
fn test_env_set_and_get_last_status() {
    let exit = ExitStatus::Signal(9);
    let mut env = new_env();
    env.set_last_status(exit);
    assert_eq!(env.last_status(), exit);
}

#[test]
fn test_env_set_last_status_in_parent_visible_in_child() {
    let exit = ExitStatus::Signal(9);
    let mut parent = new_env();
    parent.set_last_status(exit);
    assert_eq!(parent.sub_env().last_status(), exit);
}

#[test]
fn test_env_set_last_status_in_child_should_not_affect_parent() {
    let parent_exit = ExitStatus::Signal(9);
    let mut parent = new_env();
    parent.set_last_status(parent_exit);

    {
        let child_exit = error();
        let mut child = parent.sub_env();
        assert_eq!(child.last_status(), parent_exit);

        child.set_last_status(child_exit);
        assert_eq!(child.last_status(), child_exit);

        assert_eq!(parent.last_status(), parent_exit);
    }

    assert_eq!(parent.last_status(), parent_exit);
}

#[test]
fn test_env_set_and_run_function() {
    let fn_name_owned = String::from("foo");
    let fn_name = Rc::new(fn_name_owned.clone());

    let exit = error();
    let mut env = new_env();
    assert_eq!(env.has_function(&*fn_name), false);
    assert!(env.run_function(fn_name.clone(), vec![]).is_none());

    env.set_function(fn_name_owned, MockFn::new(move |_| Ok(exit)));
    assert_eq!(env.has_function(&*fn_name), true);
    assert_eq!(env.run_function(fn_name, vec![]), Some(Ok(exit)));
}

#[test]
fn test_env_set_function_in_parent_visible_in_child() {
    let fn_name_owned = String::from("foo");
    let fn_name = Rc::new(fn_name_owned.clone());

    let exit = error();
    let mut parent = new_env();
    parent.set_function(fn_name_owned, MockFn::new(move |_| Ok(exit)));

    {
        let mut child = parent.sub_env();
        assert_eq!(child.has_function(&*fn_name), true);
        assert_eq!(child.run_function(fn_name, vec![]), Some(Ok(exit)));
    }
}

#[test]
fn test_env_set_function_in_child_should_not_affect_parent() {
    let fn_name_owned = String::from("foo");
    let fn_name = Rc::new(fn_name_owned.clone());

    let exit = error();
    let mut parent = new_env();

    {
        let mut child = parent.sub_env();
        child.set_function(fn_name_owned, MockFn::new(move |_| Ok(exit)));
        assert_eq!(child.has_function(&*fn_name), true);
        assert_eq!(child.run_function(fn_name.clone(), vec![]), Some(Ok(exit)));
    }

    assert_eq!(parent.has_function(&*fn_name), false);
    assert!(parent.run_function(fn_name, vec![]).is_none());
}

#[test]
fn test_env_run_function_should_affect_arguments_and_name_within_function() {
    let shell_name_owned = String::from("shell");
    let shell_name = Rc::new(shell_name_owned.clone());
    let parent_args = vec![
        String::from("parent arg1"),
        String::from("parent arg2"),
        String::from("parent arg3"),
    ];

    let mut env: TestEnv = Env::with_config(
        Some(shell_name_owned),
        Some(parent_args.clone()),
        None,
        process(),
    );

    let fn_name_owned = String::from("fn name");
    let fn_name = Rc::new(fn_name_owned.clone());
    let args = vec![rc("child arg1"), rc("child arg2"), rc("child arg3")];
    let ran = Rc::new(Cell::new(false));

    {
        let args = args.clone();
        let fn_name = fn_name.clone();
        let ran = ran.clone();
        env.set_function(
            fn_name_owned,
            MockFn::new(move |env| {
                ran.set(true);
                assert_eq!(env.args(), &args);
                assert_eq!(env.args_len(), args.len());
                assert_eq!(env.name(), &fn_name);
                assert_eq!(env.arg(0), Some(&fn_name));

                let mut env_args = Vec::with_capacity(args.len());
                for idx in 0..args.len() {
                    env_args.push(env.arg(idx + 1).unwrap());
                }

                let args: Vec<&Rc<String>> = args.iter().collect();
                assert_eq!(env_args, args);
                assert_eq!(env.arg(args.len() + 1), None);
                Ok(success())
            }),
        );
    }

    env.run_function(fn_name, args.clone());
    assert!(ran.get());

    let parent_args: Vec<Rc<String>> = parent_args.into_iter().map(Rc::new).collect();
    assert_eq!(env.args(), &parent_args);
    assert_eq!(env.args_len(), parent_args.len());
    assert_eq!(env.name(), &shell_name);
    assert_eq!(env.arg(0), Some(&shell_name));

    let mut env_parent_args = Vec::with_capacity(parent_args.len());
    for idx in 0..parent_args.len() {
        env_parent_args.push(env.arg(idx + 1).unwrap());
    }

    assert_eq!(env_parent_args, parent_args.iter().collect::<Vec<&Rc<String>>>());
    assert_eq!(env.arg(parent_args.len() + 1), None);
}

#[test]
fn test_env_run_function_can_be_recursive() {
    let fn_name_owned = String::from("fn name");
    let fn_name = Rc::new(fn_name_owned.clone());

    let mut env: Env<'static, FileDesc, MockFnRecursive> = Env::new(process());
    {
        let fn_name = fn_name.clone();
        let num_calls = 3usize;
        let depth = Cell::new(num_calls);

        env.set_function(
            fn_name_owned,
            MockFnRecursive::new(move |env| {
                let num_calls = depth.get().saturating_sub(1);
                env.set_var(format!("var{}", num_calls), Rc::new(num_calls.to_string()));

                if num_calls != 0 {
                    depth.set(num_calls);
                    env.run_function(fn_name.clone(), vec![]).unwrap()
                } else {
                    Ok(success())
                }
            }),
        );
    }

    assert_eq!(env.var("var0"), None);
    assert_eq!(env.var("var1"), None);
    assert_eq!(env.var("var2"), None);

    assert!(env.run_function(fn_name.clone(), vec![]).unwrap().unwrap().success());

    assert_eq!(&**env.var("var0").unwrap(), "0");
    assert_eq!(&**env.var("var1").unwrap(), "1");
    assert_eq!(&**env.var("var2").unwrap(), "2");
}

#[test]
fn test_env_run_function_nested_calls_do_not_destroy_upper_args() {
    let fn_name_owned = String::from("fn name");
    let fn_name = Rc::new(fn_name_owned.clone());

    let mut env: Env<'static, FileDesc, MockFnRecursive> = Env::new(process());
    {
        let fn_name = fn_name.clone();
        let num_calls = 3usize;
        let depth = Cell::new(num_calls);

        env.set_function(
            fn_name_owned,
            MockFnRecursive::new(move |env| {
                let num_calls = depth.get().saturating_sub(1);

                if num_calls != 0 {
                    depth.set(num_calls);
                    let cur_args: Vec<Rc<String>> = env.args().iter().cloned().collect();

                    let mut next_args = cur_args.clone();
                    next_args.reverse();
                    next_args.push(Rc::new(format!("arg{}", num_calls)));

                    let ret = env.run_function(fn_name.clone(), next_args).unwrap();
                    assert_eq!(&cur_args, env.args());
                    ret
                } else {
                    Ok(success())
                }
            }),
        );
    }

    assert!(env
        .run_function(fn_name.clone(), vec![rc("first"), rc("second"), rc("third")])
        .unwrap()
        .unwrap()
        .success());
}

#[test]
fn test_env_inherit_env_vars_if_not_overridden() {
    let env = new_env();

    let mut vars: Vec<(String, String)> = process().vars;
    vars.sort();
    let vars: Vec<(&str, &str)> = vars.iter().map(|(k, v)| (&**k, &**v)).collect();
    let mut env_vars = env.env();
    env_vars.sort();
    assert_eq!(vars, env_vars);
}

#[test]
fn test_env_get_env_var_visible_in_parent_and_child() {
    let name1 = "var1";
    let value1 = "value1";
    let name2 = "var2";
    let value2 = "value2";

    let env_vars = {
        let mut env_vars = vec![(name1, value1), (name2, value2)];
        env_vars.sort();
        env_vars
    };

    let owned_vars = env_vars.iter().map(|&(k, v)| (String::from(k), String::from(v))).collect();
    let env: TestEnv = Env::with_config(None, None, Some(owned_vars), process());
    let mut vars = env.env();
    vars.sort();
    assert_eq!(vars, env_vars);
    let child = env.sub_env();
    let mut vars = child.env();
    vars.sort();
    assert_eq!(vars, env_vars);
}

#[test]
fn test_env_set_get_and_close_file_desc() {
    let fd = STDIN_FILENO;
    let perms = Permissions::ReadWrite;
    let file_desc = Rc::new(FileDesc(7));

    let mut env = new_env();
    assert!(env.file_desc(fd).is_none());
    env.set_file_desc(fd, file_desc.clone(), perms);
    {
        let (got_file_desc, got_perms) = env.file_desc(fd).unwrap();
        assert_eq!(got_perms, perms);
        assert!(Rc::ptr_eq(got_file_desc, &file_desc));
    }
    env.close_file_desc(fd);
    assert!(env.file_desc(fd).is_none());
}

#[test]
fn test_env_set_file_desc_in_parent_visible_in_child() {
    let fd = STDIN_FILENO;
    let perms = Permissions::ReadWrite;
    let file_desc = Rc::new(FileDesc(7));

    let mut env = new_env();
    env.set_file_desc(fd, file_desc.clone(), perms);
    let child = env.sub_env();
    let (got_file_desc, got_perms) = child.file_desc(fd).unwrap();
    assert_eq!(got_perms, perms);
    assert!(Rc::ptr_eq(got_file_desc, &file_desc));
}

#[test]
fn test_env_set_file_desc_in_child_should_not_affect_parent() {
    let fd = STDIN_FILENO;

    let parent = new_env();
    assert!(parent.file_desc(fd).is_none());
    {
        let perms = Permissions::ReadWrite;
        let file_desc = Rc::new(FileDesc(7));
        let mut child = parent.sub_env();
        child.set_file_desc(fd, file_desc.clone(), perms);
        let (got_file_desc, got_perms) = child.file_desc(fd).unwrap();
        assert_eq!(got_perms, perms);
        assert!(Rc::ptr_eq(got_file_desc, &file_desc));
    }
    assert!(parent.file_desc(fd).is_none());
}

#[test]
fn test_env_close_file_desc_in_child_should_not_affect_parent() {
    let fd = STDIN_FILENO;
    let perms = Permissions::ReadWrite;
    let file_desc = Rc::new(FileDesc(7));

    let mut parent = new_env();
    parent.set_file_desc(fd, file_desc.clone(), perms);
    {
        let mut child = parent.sub_env();
        assert!(child.file_desc(fd).is_some());
        child.close_file_desc(fd);
        assert!(child.file_desc(fd).is_none());
    }
    let (got_file_desc, got_perms) = parent.file_desc(fd).unwrap();
    assert_eq!(got_perms, perms);
    assert!(Rc::ptr_eq(got_file_desc, &file_desc));
}

#[test]
fn test_env_report_error() {
    let mut env = new_env();
    let writer = Rc::new(FileDesc(9));
    env.set_file_desc(STDERR_FILENO, writer.clone(), Permissions::Write);
    {
        let (got_writer, msg) = env.report_error(&RuntimeError::DivideByZero).unwrap();
        assert!(Rc::ptr_eq(got_writer, &writer));
        assert!(msg.contains(&RuntimeError::DivideByZero.to_string()));
        assert_eq!(msg, "program: attempted to divide by zero");
    }
    env.close_file_desc(STDERR_FILENO);
    assert!(env.report_error(&RuntimeError::DivideByZero).is_none());
}

#[test]
fn test_eval_parameter_with_set_vars() {
    let var1 = rc("var1_value");
    let var2 = rc("var2_value");
    let var3 = rc("var3_value");

    let arg1 = String::from("arg1_value");
    let arg2 = String::from("arg2_value");
    let arg3 = String::from("arg3_value");

    let args = vec![arg1.clone(), arg2.clone(), arg3.clone()];

    let mut env: TestEnv = Env::with_config(None, Some(args.clone()), None, process());
    env.set_var(String::from("var1"), var1.clone());
    env.set_var(String::from("var2"), var2.clone());
    env.set_var(String::from("var3"), var3.clone());

    let args: Vec<Rc<String>> = args.into_iter().map(Rc::new).collect();
    assert_eq!(Parameter::At.eval(&env), Some(Fields::At(args.clone())));
    assert_eq!(Parameter::Star.eval(&env), Some(Fields::Star(args.clone())));

    assert_eq!(Parameter::Dollar.eval(&env), Some(Fields::Single(rc("4242"))));

    // Before anything is run it should be considered a success
    assert_eq!(Parameter::Question.eval(&env), Some(Fields::Single(rc("0"))));
    env.set_last_status(ExitStatus::Code(3));
    assert_eq!(Parameter::Question.eval(&env), Some(Fields::Single(rc("3"))));
    // Signals should have 128 added to them
    env.set_last_status(ExitStatus::Signal(5));
    assert_eq!(Parameter::Question.eval(&env), Some(Fields::Single(rc("133"))));

    assert_eq!(Parameter::Positional(0).eval(&env), Some(Fields::Single(env.name().clone())));
    assert_eq!(Parameter::Positional(1).eval(&env), Some(Fields::Single(Rc::new(arg1))));
    assert_eq!(Parameter::Positional(2).eval(&env), Some(Fields::Single(Rc::new(arg2))));
    assert_eq!(Parameter::Positional(3).eval(&env), Some(Fields::Single(Rc::new(arg3))));

    assert_eq!(
        Parameter::Var(String::from("var1")).eval(&env),
        Some(Fields::Single(var1.clone()))
    );
    assert_eq!(
        Parameter::Var(String::from("var2")).eval(&env),
        Some(Fields::Single(var2.clone()))
    );
    assert_eq!(
        Parameter::Var(String::from("var3")).eval(&env),
        Some(Fields::Single(var3.clone()))
    );

    assert_eq!(Parameter::Pound.eval(&env), Some(Fields::Single(rc("3"))));
}

#[test]
fn parameters_without_a_value() {
    let env = new_env();
    assert_eq!(Parameter::Dash.eval(&env), None);
    assert_eq!(Parameter::Bang.eval(&env), None);
    assert_eq!(Parameter::Positional(1).eval(&env), None);
    assert_eq!(Parameter::Var(String::from("unset")).eval(&env), None);
    assert_eq!(Parameter::Pound.eval(&env), Some(Fields::Single(rc("0"))));
    assert_eq!(Parameter::At.eval(&env), Some(Fields::At(Vec::new())));
}

#[test]
fn a_status_that_cannot_be_shown() {
    let mut env = new_env();
    env.set_last_status(ExitStatus::Code(-1));
    assert_eq!(Parameter::Question.eval(&env), Some(Fields::Single(rc("4294967295"))));
    env.set_last_status(ExitStatus::Signal(-1));
    assert!(Parameter::Question.try_eval(&env).is_err());
    env.set_last_status(ExitStatus::Signal(-200));
    assert_eq!(Parameter::Question.eval(&env), Some(Fields::Single(rc("4294967224"))));
}

#[test]
fn the_name_is_that_of_the_process_unless_given() {
    let env = new_env();
    assert_eq!(&**env.name(), "program");
    let nameless: TestEnv =
        Env::with_config(None, None, None, ProcessInfo { name: None, ..process() });
    assert_eq!(&**nameless.name(), "");
    assert_eq!(nameless.args_len(), 0);
    assert_eq!(nameless.last_status(), success());
    assert_eq!(nameless.process_id(), 4242);
}

#[test]
fn of_variables_with_one_name_the_last_counts() {
    let pairs = vec![
        (String::from("a"), String::from("1")),
        (String::from("b"), String::from("2")),
        (String::from("a"), String::from("3")),
    ];
    let env: TestEnv = Env::with_config(None, None, Some(pairs), process());
    let mut vars = env.env();
    vars.sort();
    assert_eq!(vars, vec![("a", "3"), ("b", "2")]);
}

#[test]
fn an_assignment_keeps_what_is_exported_in_the_same_environment_only() {
    let mut env = new_env();
    env.set_var(String::from("HOME"), rc("/elsewhere"));
    env.set_var(String::from("plain"), rc("x"));
    let mut vars = env.env();
    vars.sort();
    assert_eq!(vars, vec![("HOME", "/elsewhere"), ("LANG", "C")]);

    // A variable that is assigned in a child hides the exported one of its parent.
    let mut child = env.sub_env();
    child.set_var(String::from("HOME"), rc("/child"));
    assert_eq!(child.env(), vec![("LANG", "C")]);
    assert_eq!(&**child.var("HOME").unwrap(), "/child");
    drop(child);
    assert_eq!(&**env.var("HOME").unwrap(), "/elsewhere");
}

#[test]
fn a_closed_descriptor_can_be_opened_again() {
    let mut parent = new_env();
    parent.set_file_desc(3, Rc::new(FileDesc(1)), Permissions::Read);
    let mut child = parent.sub_env();
    child.close_file_desc(3);
    assert!(child.file_desc(3).is_none());
    child.set_file_desc(3, Rc::new(FileDesc(2)), Permissions::Write);
    let (fdes, perms) = child.file_desc(3).unwrap();
    assert_eq!((&**fdes, perms), (&FileDesc(2), Permissions::Write));
    let grandchild = child.sub_env();
    assert_eq!(&**grandchild.file_desc(3).unwrap().0, &FileDesc(2));
}

#[test]
fn a_scope_can_be_taken_up_again() {
    let mut parent = new_env();
    let mut child = parent.sub_env();
    child.set_var(String::from("x"), rc("1"));
    let scope = child.into_scope();
    parent.set_var(String::from("y"), rc("2"));
    let child = parent.resume_sub_env(scope);
    assert_eq!(&**child.var("x").unwrap(), "1");
    assert_eq!(&**child.var("y").unwrap(), "2");
    assert_eq!(parent.var("x"), None);
}

#[test]
fn a_call_can_be_made_in_two_halves() {
    let mut env = new_env();
    env.set_function(String::from("f"), MockFn::new(|_| Ok(success())));
    assert!(env.enter_function(rc("g"), vec![rc("a")]).is_none());
    assert_eq!(&**env.name(), "program");
    let (_, caller) = env.enter_function(rc("f"), vec![rc("a")]).unwrap();
    assert_eq!(&**env.name(), "f");
    assert_eq!(env.args(), &vec![rc("a")]);
    env.leave_function(caller);
    assert_eq!(&**env.name(), "program");
    assert_eq!(env.args_len(), 0);
}
