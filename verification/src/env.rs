//! The environment that words are evaluated and commands are run in.

use crate::error::{result_view, ResultView, RuntimeError};
use crate::io::{Fd, Permissions, STDERR_FILENO};
use crate::status::{ExitStatus, EXIT_SUCCESS};
use crate::strmap::StrMap;
use crate::text::{share, share_all, texts};
use std::collections::HashMap;
use std::rc::Rc;
use vstd::prelude::*;
use vstd::string::*;

verus! {

broadcast use vstd::std_specs::hash::group_hash_axioms;

/// What words see of an environment: its name, arguments, variables and last status.
///
/// A variable is bound to a text, with a mark whether it is exported, or it is bound to nothing
/// where it was unset. What is not bound in the environment itself is looked up in its parents.
#[verifier::ext_equal]
pub struct Shell {
    /// The name of the shell, script or function.
    pub name: Seq<char>,
    /// The arguments, without the name.
    pub args: Seq<Seq<char>>,
    /// The bindings of the environment itself.
    pub vars: Map<Seq<char>, Option<(Seq<char>, bool)>>,
    /// The bindings that are visible in its parents.
    pub outer: Map<Seq<char>, Option<(Seq<char>, bool)>>,
    /// The exit status of the last command.
    pub status: ExitStatus,
    /// The number of the process.
    pub pid: i32,
}

/// The entries of an inner map, and those of an outer map under other keys.
pub open spec fn layered<K, V>(inner: Map<K, V>, outer: Map<K, V>) -> Map<K, V> {
    Map::new(
        |k: K| inner.dom().contains(k) || outer.dom().contains(k),
        |k: K|
            if inner.dom().contains(k) {
                inner[k]
            } else {
                outer[k]
            },
    )
}

/// What an entry that is found, if one is, holds.
pub open spec fn held<K, V>(map: Map<K, Option<V>>, k: K) -> Option<V> {
    if map.dom().contains(k) {
        map[k]
    } else {
        None
    }
}

impl Shell {
    /// All the bindings that are visible.
    pub open spec fn bindings(self) -> Map<Seq<char>, Option<(Seq<char>, bool)>> {
        layered(self.vars, self.outer)
    }

    /// The value of a variable.
    pub open spec fn var(self, name: Seq<char>) -> Option<Seq<char>> {
        match held(self.bindings(), name) {
            Some((value, _)) => Some(value),
            None => None,
        }
    }

    /// The value of a variable that is exported to other commands.
    pub open spec fn exported(self, name: Seq<char>) -> Option<Seq<char>> {
        match held(self.bindings(), name) {
            Some((value, true)) => Some(value),
            _ => None,
        }
    }

    /// The values of all the variables that are exported to other commands.
    pub open spec fn exports(self) -> Map<Seq<char>, Seq<char>> {
        Map::new(
            |name: Seq<char>| self.exported(name) is Some,
            |name: Seq<char>| self.exported(name)->0,
        )
    }

    /// The shell after an assignment. Whether a variable is exported
    /// stays as it is in the environment itself.
    pub open spec fn with_var(self, name: Seq<char>, value: Seq<char>) -> Shell {
        let exported = held(self.vars, name) is Some && (held(self.vars, name)->0).1;
        Shell { vars: self.vars.insert(name, Some((value, exported))), ..self }
    }

    /// The shell after a command with the given status.
    pub open spec fn with_status(self, status: ExitStatus) -> Shell {
        Shell { status, ..self }
    }

    /// Whether another shell has the same name, arguments, process and parents.
    pub open spec fn same_place(self, other: Shell) -> bool {
        &&& self.name == other.name
        &&& self.args == other.args
        &&& self.outer == other.outer
        &&& self.pid == other.pid
    }

    /// The argument at an index, where the name is at zero.
    pub open spec fn arg(self, i: int) -> Option<Seq<char>> {
        if i == 0 {
            Some(self.name)
        } else if 0 < i <= self.args.len() {
            Some(self.args[i - 1])
        } else {
            None
        }
    }
}

/// An environment: what words see of it, its functions and its file descriptors.
///
/// A file descriptor is bound to a handle and its permissions, or it is bound to nothing
/// where it was closed. What is not bound in the environment itself is looked up in its parents.
#[verifier::ext_equal]
#[verifier::reject_recursive_types(D)]
#[verifier::reject_recursive_types(F)]
pub struct EnvView<D, F> {
    /// What words see.
    pub shell: Shell,
    /// The functions of the environment itself.
    pub functions: Map<Seq<char>, Option<Rc<F>>>,
    /// The functions that are visible in its parents.
    pub outer_functions: Map<Seq<char>, Option<Rc<F>>>,
    /// The file descriptors of the environment itself.
    pub fds: Map<Fd, Option<(Rc<D>, Permissions)>>,
    /// The file descriptors that are visible in its parents.
    pub outer_fds: Map<Fd, Option<(Rc<D>, Permissions)>>,
    /// Whether there is a parent.
    pub nested: bool,
}

impl<D, F> EnvView<D, F> {
    /// The environment with another shell.
    pub open spec fn with_shell(self, shell: Shell) -> EnvView<D, F> {
        EnvView { shell, ..self }
    }

    /// The function with a name.
    pub open spec fn function(self, name: Seq<char>) -> Option<Rc<F>> {
        held(layered(self.functions, self.outer_functions), name)
    }

    /// The environment with one more function.
    pub open spec fn with_function(self, name: Seq<char>, func: F) -> EnvView<D, F> {
        EnvView { functions: self.functions.insert(name, Some(Rc::new(func))), ..self }
    }

    /// The handle and the permissions of a file descriptor.
    pub open spec fn file_desc(self, fd: Fd) -> Option<(Rc<D>, Permissions)> {
        held(layered(self.fds, self.outer_fds), fd)
    }

    /// The environment with one more file descriptor.
    pub open spec fn with_file_desc(self, fd: Fd, fdes: Rc<D>, perms: Permissions) -> EnvView<
        D,
        F,
    > {
        EnvView { fds: self.fds.insert(fd, Some((fdes, perms))), ..self }
    }

    /// The environment with a file descriptor closed. What a parent has open is hidden;
    /// without a parent the descriptor is forgotten.
    pub open spec fn without_file_desc(self, fd: Fd) -> EnvView<D, F> {
        EnvView {
            fds: if self.nested {
                self.fds.insert(fd, None)
            } else {
                self.fds.remove(fd)
            },
            ..self
        }
    }

    /// Whether it has nothing from parents unless it has a parent.
    pub open spec fn rooted(self) -> bool {
        !self.nested ==> {
            &&& self.shell.outer == Map::<Seq<char>, Option<(Seq<char>, bool)>>::empty()
            &&& self.outer_functions == Map::<Seq<char>, Option<Rc<F>>>::empty()
            &&& self.outer_fds == Map::<Fd, Option<(Rc<D>, Permissions)>>::empty()
        }
    }

    /// The environment with another name and other arguments.
    pub open spec fn calling(self, name: Seq<char>, args: Seq<Seq<char>>) -> EnvView<D, F> {
        self.with_shell(Shell { name, args, ..self.shell })
    }

    /// The environment as a child of another one.
    pub open spec fn inside(self, parent: EnvView<D, F>) -> EnvView<D, F> {
        EnvView {
            shell: Shell { outer: parent.shell.bindings(), ..self.shell },
            outer_functions: layered(parent.functions, parent.outer_functions),
            outer_fds: layered(parent.fds, parent.outer_fds),
            nested: true,
            ..self
        }
    }

    /// The environment without its parents.
    pub open spec fn alone(self) -> EnvView<D, F> {
        EnvView {
            shell: Shell { outer: Map::empty(), ..self.shell },
            outer_functions: Map::empty(),
            outer_fds: Map::empty(),
            nested: false,
            ..self
        }
    }

    /// A new environment that has the name, arguments and status of this one.
    pub open spec fn fresh(self) -> EnvView<D, F> {
        EnvView {
            shell: Shell { vars: Map::empty(), outer: Map::empty(), ..self.shell },
            functions: Map::empty(),
            outer_functions: Map::empty(),
            fds: Map::empty(),
            outer_fds: Map::empty(),
            nested: false,
        }
    }

    /// A new child of this environment.
    pub open spec fn child(self) -> EnvView<D, F> {
        self.fresh().inside(self)
    }
}

/// What is known of the current process, without any data that is not valid Unicode.
pub struct ProcessInfo {
    /// The basename of the process (e.g. the 0th OS arg), if it is known.
    pub name: Option<String>,
    /// The environment variables.
    pub vars: Vec<(String, String)>,
    /// The number of the process.
    pub pid: i32,
}

/// The bindings of a list of exported variables. The last one of a name counts.
pub open spec fn exported_bindings(pairs: Seq<(String, String)>) -> Map<
    Seq<char>,
    Option<(Seq<char>, bool)>,
>
    decreases pairs.len(),
{
    if pairs.len() == 0 {
        Map::empty()
    } else {
        exported_bindings(pairs.drop_last()).insert(
            pairs.last().0@,
            Some((pairs.last().1@, true)),
        )
    }
}

/// The texts of a list of strings.
pub open spec fn string_texts(list: Seq<String>) -> Seq<Seq<char>> {
    Seq::new(list.len(), |i: int| list[i]@)
}

spec fn var_views(vars: Map<Seq<char>, Option<(Rc<String>, bool)>>) -> Map<
    Seq<char>,
    Option<(Seq<char>, bool)>,
> {
    Map::new(
        |name: Seq<char>| vars.dom().contains(name),
        |name: Seq<char>|
            match vars[name] {
                Some((value, exported)) => Some((value@, exported)),
                None => None,
            },
    )
}

/// Whether the pairs are those variables among the given names that are exported, each once.
spec fn lists_exports(pairs: Seq<(&str, &str)>, shell: Shell, names: Set<Seq<char>>) -> bool {
    &&& forall|i: int, j: int|
        0 <= i < j < pairs.len() ==> (#[trigger] pairs[i]).0@ != (#[trigger] pairs[j]).0@
    &&& forall|i: int|
        0 <= i < pairs.len() ==> names.contains((#[trigger] pairs[i]).0@) && shell.exported(
            pairs[i].0@,
        ) == Some(pairs[i].1@)
    &&& forall|name: Seq<char>| #[trigger]
        shell.exported(name) is Some && names.contains(name) ==> exists|i: int|
            0 <= i < pairs.len() && (#[trigger] pairs[i]).0@ == name
}

/// The part of an environment that is its own and not its parents'.
pub struct Scope<D, F> {
    /// The current name of the shell/script/function executing.
    shell_name: Rc<String>,
    /// The current arguments of the shell/script/function.
    args: Vec<Rc<String>>,
    /// A mapping of all defined function names and executable bodies.
    functions: StrMap<Option<Rc<F>>>,
    /// A mapping of variable names to their values, and whether they are exported.
    vars: StrMap<Option<(Rc<String>, bool)>>,
    /// A mapping of file descriptors to their handles and permissions.
    fds: HashMap<Fd, Option<(Rc<D>, Permissions)>>,
    /// The exit status of the last command that was executed.
    last_status: ExitStatus,
    /// The number of the process.
    pid: i32,
}

impl<D, F> View for Scope<D, F> {
    type V = EnvView<D, F>;

    closed spec fn view(&self) -> EnvView<D, F> {
        EnvView {
            shell: Shell {
                name: self.shell_name@,
                args: texts(self.args@),
                vars: var_views(self.vars@),
                outer: Map::empty(),
                status: self.last_status,
                pid: self.pid,
            },
            functions: self.functions@,
            outer_functions: Map::empty(),
            fds: self.fds@,
            outer_fds: Map::empty(),
            nested: false,
        }
    }
}

/// A shell environment containing any relevant variable, file descriptor, and other information.
/// The handles of file descriptors are of the type `D`, and functions are of the type `F`.
pub struct Env<'a, D, F> {
    scope: Scope<D, F>,
    /// A parent environment for looking up previously set values.
    parent_env: Option<&'a Env<'a, D, F>>,
}

/// An environment that words are evaluated and commands are run in.
pub trait Environment: Sized {
    /// The handles of file descriptors.
    type Desc;

    /// The functions.
    type Func;

    /// What the environment holds.
    spec fn state(&self) -> EnvView<Self::Desc, Self::Func>;

    /// Get the shell's current name.
    fn name(&self) -> (name: &Rc<String>)
        ensures
            name@ == self.state().shell.name,
    ;

    /// Get the value of some variable. The values of both shell-only
    /// variables will be looked up and returned.
    fn var(&self, name: &str) -> (value: Option<&Rc<String>>)
        ensures
            value is Some <==> self.state().shell.var(name@) is Some,
            value matches Some(s) ==> self.state().shell.var(name@) == Some(s@),
    ;

    /// Set the value of some variable (including environment variables).
    fn set_var(&mut self, name: String, val: Rc<String>)
        ensures
            final(self).state() == old(self).state().with_shell(
                old(self).state().shell.with_var(name@, val@),
            ),
    ;

    /// Indicates if a funciton is currently defined with a given name.
    fn has_function(&self, fn_name: &str) -> (yes: bool)
        ensures
            yes == (self.state().function(fn_name@) is Some),
    ;

    /// Define a function.
    fn set_function(&mut self, name: String, func: Self::Func)
        ensures
            final(self).state() == old(self).state().with_function(name@, func),
    ;

    /// Get the exit status of the previous command.
    fn last_status(&self) -> (status: ExitStatus)
        ensures
            status == self.state().shell.status,
    ;

    /// Set the exit status of the previously run command.
    fn set_last_status(&mut self, status: ExitStatus)
        ensures
            final(self).state() == old(self).state().with_shell(
                old(self).state().shell.with_status(status),
            ),
    ;

    /// Get an argument at any index. Arguments are 1-indexed since the shell variable `$0`
    /// to the shell's name. Thus the first real argument starts at index 1.
    fn arg(&self, idx: usize) -> (arg: Option<&Rc<String>>)
        ensures
            arg is Some <==> self.state().shell.arg(idx as int) is Some,
            arg matches Some(s) ==> self.state().shell.arg(idx as int) == Some(s@),
    ;

    /// Get the number of current arguments, NOT including the shell name.
    fn args_len(&self) -> (n: usize)
        ensures
            n == self.state().shell.args.len(),
    ;

    /// Get all current arguments.
    fn args(&self) -> (args: &Vec<Rc<String>>)
        ensures
            texts(args@) == self.state().shell.args,
    ;

    /// Get all current pairs of environment variables and their values, each variable once
    /// and in no particular order.
    fn env(&self) -> (pairs: Vec<(&str, &str)>)
        ensures
            forall|i: int, j: int|
                0 <= i < j < pairs@.len() ==> (#[trigger] pairs@[i]).0@ != (#[trigger] pairs@[j]).0@,
            forall|i: int|
                0 <= i < pairs@.len() ==> self.state().shell.exported((#[trigger] pairs@[i]).0@)
                    == Some(pairs@[i].1@),
            forall|name: Seq<char>| #[trigger]
                self.state().shell.exported(name) is Some ==> exists|i: int|
                    0 <= i < pairs@.len() && (#[trigger] pairs@[i]).0@ == name,
    ;

    /// Get the permissions and OS handle associated with an opened file descriptor.
    fn file_desc(&self, fd: Fd) -> (desc: Option<(&Rc<Self::Desc>, Permissions)>)
        ensures
            desc is Some <==> self.state().file_desc(fd) is Some,
            desc matches Some((fdes, perms)) ==> self.state().file_desc(fd) == Some(
                (*fdes, perms),
            ),
    ;

    /// Associate a file descriptor with a given OS handle and permissions.
    fn set_file_desc(&mut self, fd: Fd, fdes: Rc<Self::Desc>, perms: Permissions)
        ensures
            final(self).state() == old(self).state().with_file_desc(fd, fdes, perms),
    ;

    /// Treat the specified file descriptor as closed for the current environment.
    fn close_file_desc(&mut self, fd: Fd)
        ensures
            final(self).state() == old(self).state().without_file_desc(fd),
    ;

    /// Get the number of the process.
    fn process_id(&self) -> (pid: i32)
        ensures
            pid == self.state().shell.pid,
    ;

    /// Reports an error: gives the handle of the standard error, if it is open,
    /// and the message that is to be written to it.
    fn report_error(&self, err: &RuntimeError) -> (report: Option<(&Rc<Self::Desc>, String)>)
        ensures
            report is Some <==> self.state().file_desc(STDERR_FILENO) is Some,
            report matches Some((fdes, message)) ==> {
                &&& (self.state().file_desc(STDERR_FILENO)->0).0 == *fdes
                &&& message@ == self.state().shell.name + ": "@ + err@.message()
            },
    {
        match self.file_desc(STDERR_FILENO) {
            Some((fdes, _)) => {
                let mut message = self.name().as_str().to_owned();
                message.append(": ");
                message.append(err.to_string().as_str());
                Some((fdes, message))
            },
            None => None,
        }
    }
}

impl<'a, D, F> Env<'a, D, F> {
    spec fn env_view(&self) -> EnvView<D, F>
        decreases self,
    {
        match self.parent_env {
            None => self.scope@,
            Some(parent) => self.scope@.inside(parent.env_view()),
        }
    }
}

impl<'a, D, F> Environment for Env<'a, D, F> {
    type Desc = D;

    type Func = F;

    closed spec fn state(&self) -> EnvView<D, F> {
        self.env_view()
    }

    fn name(&self) -> (name: &Rc<String>) {
        &self.scope.shell_name
    }

    fn var(&self, name: &str) -> (value: Option<&Rc<String>>) {
        self.find_var(name)
    }

    fn set_var(&mut self, name: String, val: Rc<String>) {
        let exported = match self.scope.vars.get(name.as_str()) {
            Some(Some((_, exported))) => *exported,
            _ => false,
        };
        self.scope.vars.insert(name, Some((val, exported)));
        assert(self.env_view() =~= old(self).env_view().with_shell(
            old(self).env_view().shell.with_var(name@, val@),
        ));
    }

    fn has_function(&self, fn_name: &str) -> (yes: bool) {
        self.find_function(fn_name).is_some()
    }

    fn set_function(&mut self, name: String, func: F) {
        self.scope.functions.insert(name, Some(Rc::new(func)));
    }

    fn last_status(&self) -> (status: ExitStatus) {
        self.scope.last_status
    }

    fn set_last_status(&mut self, status: ExitStatus) {
        self.scope.last_status = status;
    }

    fn arg(&self, idx: usize) -> (arg: Option<&Rc<String>>) {
        if idx == 0 {
            Some(self.name())
        } else if idx <= self.scope.args.len() {
            Some(&self.scope.args[idx - 1])
        } else {
            None
        }
    }

    fn args_len(&self) -> (n: usize) {
        self.scope.args.len()
    }

    fn args(&self) -> (args: &Vec<Rc<String>>) {
        &self.scope.args
    }

    fn env(&self) -> (pairs: Vec<(&str, &str)>) {
        let mut pairs: Vec<(&str, &str)> = Vec::new();
        // The names that were met so far. A binding in a parent does not count
        // where a child has one of the same name.
        let mut seen: StrMap<()> = StrMap::new();
        let mut cur: &Env<'a, D, F> = self;
        let ghost all = self.env_view().shell;
        loop
            invariant
                all == self.env_view().shell,
                lists_exports(pairs@, all, seen@.dom()),
                forall|name: Seq<char>|
                    !seen@.dom().contains(name) ==> held(all.bindings(), name) == #[trigger] held(
                        cur.env_view().shell.bindings(),
                        name,
                    ),
            decreases cur,
        {
            let ghost bindings = cur.env_view().shell.bindings();
            let mut i: usize = 0;
            let n: usize = cur.scope.vars.len();
            while i < n
                invariant
                    n == cur.scope.vars.names().len(),
                    0 <= i <= n,
                    bindings == cur.env_view().shell.bindings(),
                    lists_exports(pairs@, all, seen@.dom()),
                    forall|name: Seq<char>|
                        !seen@.dom().contains(name) ==> held(all.bindings(), name)
                            == #[trigger] held(bindings, name),
                    forall|j: int|
                        0 <= j < i ==> seen@.dom().contains(#[trigger] cur.scope.vars.names()[j]),
                decreases n - i,
            {
                let (name, value) = cur.scope.vars.entry(i);
                let ghost before = pairs@;
                let ghost met = seen@.dom();
                if seen.get(name.as_str()).is_none() {
                    assert(held(all.bindings(), name@) == held(bindings, name@));
                    match value {
                        Some((value, true)) => {
                            pairs.push((name.as_str(), value.as_str()));
                            proof {
                                assert(pairs@[before.len() as int].0@ == name@);
                                assert forall|x: Seq<char>| #[trigger]
                                    all.exported(x) is Some && met.insert(name@).contains(
                                        x,
                                    ) implies exists|k: int|
                                    0 <= k < pairs@.len() && (#[trigger] pairs@[k]).0@ == x by {
                                    if x != name@ {
                                        let k = choose|k: int|
                                            0 <= k < before.len() && (#[trigger] before[k]).0@ == x;
                                        assert(pairs@[k] == before[k]);
                                    }
                                }
                            }
                        },
                        _ => {},
                    }
                    seen.insert(name.clone(), ());
                }
                i = i + 1;
            }
            proof {
                assert forall|name: Seq<char>| #[trigger] cur.scope.vars@.dom().contains(
                    name,
                ) implies seen@.dom().contains(name) by {
                    assert(cur.scope.vars.names().contains(name));
                }
            }
            match cur.parent_env {
                Some(parent) => {
                    proof {
                        assert forall|name: Seq<char>| !seen@.dom().contains(name) implies held(
                            all.bindings(),
                            name,
                        ) == #[trigger] held(parent.env_view().shell.bindings(), name) by {
                            assert(held(bindings, name) == held(
                                parent.env_view().shell.bindings(),
                                name,
                            ));
                        }
                    }
                    cur = parent;
                },
                None => {
                    proof {
                        assert forall|name: Seq<char>| #[trigger]
                            all.exported(name) is Some implies seen@.dom().contains(name) by {
                            assert(held(bindings, name) == held(
                                cur.scope@.shell.bindings(),
                                name,
                            ));
                        }
                    }
                    return pairs;
                },
            }
        }
    }

    fn file_desc(&self, fd: Fd) -> (desc: Option<(&Rc<D>, Permissions)>) {
        self.find_file_desc(fd)
    }

    fn set_file_desc(&mut self, fd: Fd, fdes: Rc<D>, perms: Permissions) {
        self.scope.fds.insert(fd, Some((fdes, perms)));
    }

    fn close_file_desc(&mut self, fd: Fd) {
        match self.parent_env {
            Some(_) => {
                self.scope.fds.insert(fd, None);
            },
            None => {
                self.scope.fds.remove(&fd);
            },
        }
    }

    fn process_id(&self) -> (pid: i32) {
        self.scope.pid
    }
}

/// Whether a walk along an environment and its parents, in order, can find this. What is asked
/// of each of them ends the walk, with a find or without one, or lets it go on.
spec fn walked<'a, 'b, D, F, T, C: Fn(&'b Env<'a, D, F>) -> Result<Option<T>, ()>>(
    cond: C,
    cur: &'b Env<'a, D, F>,
    found: Option<T>,
) -> bool
    decreases cur,
{
    ||| found is None && exists|answer: Result<Option<T>, ()>|
        answer is Err && #[trigger] call_ensures(cond, (cur,), answer)
    ||| found is Some && call_ensures(cond, (cur,), Ok(found))
    ||| call_ensures(cond, (cur,), Ok(None)) && match cur.parent_env {
        Some(parent) => walked(cond, parent, found),
        None => found is None,
    }
}

/// What is answered in a walk, where an environment itself has something of what is looked for:
/// it is found, or it was unset and ends the walk. Otherwise the walk goes on.
spec fn answered<V>(own: Option<Option<V>>, answer: Result<Option<V>, ()>) -> bool {
    answer == (match own {
        Some(Some(value)) => Ok::<Option<V>, ()>(Some(value)),
        Some(None) => Err(()),
        None => Ok(None),
    })
}

/// What an environment itself has of what is looked for.
spec fn own<K, V>(map: Map<K, Option<V>>, k: K) -> Option<Option<V>> {
    if map.dom().contains(k) {
        Some(map[k])
    } else {
        None
    }
}

/// The answer in the walk to a variable.
spec fn variable_answer(answer: Result<Option<&Rc<String>>, ()>) -> Result<Option<Seq<char>>, ()> {
    match answer {
        Ok(Some(s)) => Ok(Some(s@)),
        Ok(None) => Ok(None),
        Err(()) => Err(()),
    }
}

/// The binding of a variable without the mark whether it is exported.
spec fn unmarked(own: Option<Option<(Seq<char>, bool)>>) -> Option<Option<Seq<char>>> {
    match own {
        Some(Some((value, _))) => Some(Some(value)),
        Some(None) => Some(None),
        None => None,
    }
}

/// The answer in the walk to a function.
spec fn function_answer<F>(answer: Result<Option<&Rc<F>>, ()>) -> Result<Option<Rc<F>>, ()> {
    match answer {
        Ok(Some(func)) => Ok(Some(*func)),
        Ok(None) => Ok(None),
        Err(()) => Err(()),
    }
}

/// The answer in the walk to a file descriptor.
spec fn descriptor_answer<D>(answer: Result<Option<(&Rc<D>, Permissions)>, ()>) -> Result<
    Option<(Rc<D>, Permissions)>,
    (),
> {
    match answer {
        Ok(Some((fdes, perms))) => Ok(Some((*fdes, perms))),
        Ok(None) => Ok(None),
        Err(()) => Err(()),
    }
}

proof fn lemma_variable_found<'a, 'b, D, F, C>(
    cond: C,
    cur: &'b Env<'a, D, F>,
    name: Seq<char>,
    found: Option<&'b Rc<String>>,
) where C: Fn(&'b Env<'a, D, F>) -> Result<Option<&'b Rc<String>>, ()>
    requires
        forall|e: &'b Env<'a, D, F>, answer: Result<Option<&'b Rc<String>>, ()>| #[trigger]
            call_ensures(cond, (e,), answer) ==> answered(
                unmarked(own(e.env_view().shell.vars, name)),
                variable_answer(answer),
            ),
        walked(cond, cur, found),
    ensures
        found is Some <==> cur.env_view().shell.var(name) is Some,
        found matches Some(s) ==> cur.env_view().shell.var(name) == Some(s@),
    decreases cur,
{
    match cur.parent_env {
        Some(parent) => {
            if walked(cond, parent, found) {
                lemma_variable_found(cond, parent, name, found);
            }
        },
        None => {},
    }
}

proof fn lemma_function_found<'a, 'b, D, F, C>(
    cond: C,
    cur: &'b Env<'a, D, F>,
    name: Seq<char>,
    found: Option<&'b Rc<F>>,
) where C: Fn(&'b Env<'a, D, F>) -> Result<Option<&'b Rc<F>>, ()>
    requires
        forall|e: &'b Env<'a, D, F>, answer: Result<Option<&'b Rc<F>>, ()>| #[trigger]
            call_ensures(cond, (e,), answer) ==> answered(
                own(e.env_view().functions, name),
                function_answer(answer),
            ),
        walked(cond, cur, found),
    ensures
        found is Some <==> cur.env_view().function(name) is Some,
        found matches Some(func) ==> cur.env_view().function(name) == Some(*func),
    decreases cur,
{
    match cur.parent_env {
        Some(parent) => {
            if walked(cond, parent, found) {
                lemma_function_found(cond, parent, name, found);
            }
        },
        None => {},
    }
}

proof fn lemma_descriptor_found<'a, 'b, D, F, C>(
    cond: C,
    cur: &'b Env<'a, D, F>,
    fd: Fd,
    found: Option<(&'b Rc<D>, Permissions)>,
) where C: Fn(&'b Env<'a, D, F>) -> Result<Option<(&'b Rc<D>, Permissions)>, ()>
    requires
        forall|
            e: &'b Env<'a, D, F>,
            answer: Result<Option<(&'b Rc<D>, Permissions)>, ()>,
        | #[trigger]
            call_ensures(cond, (e,), answer) ==> answered(
                own(e.env_view().fds, fd),
                descriptor_answer(answer),
            ),
        walked(cond, cur, found),
    ensures
        found is Some <==> cur.env_view().file_desc(fd) is Some,
        found matches Some((fdes, perms)) ==> cur.env_view().file_desc(fd) == Some(
            (*fdes, perms),
        ),
    decreases cur,
{
    match cur.parent_env {
        Some(parent) => {
            if walked(cond, parent, found) {
                lemma_descriptor_found(cond, parent, fd, found);
            }
        },
        None => {},
    }
}

impl<'a, D, F> Env<'a, D, F> {
    /// Walks `self` and its entire chain of parent environments and evaluates a closure on each.
    ///
    /// If the closure evaluates a `Ok(Some(x))` value, then `Some(x)` is returned.
    /// If the closure evaluates a `Err(_)` value, then `None` is returned.
    /// If the closure evaluates a `Ok(None)` value, then the traversal continues.
    fn walk_parent_chain<'b, T, C: Fn(&'b Env<'a, D, F>) -> Result<Option<T>, ()>>(
        &'b self,
        cond: C,
    ) -> (found: Option<T>)
        requires
            forall|cur: &'b Env<'a, D, F>| call_requires(cond, (cur,)),
        ensures
            walked(cond, self, found),
    {
        let mut cur: &'b Env<'a, D, F> = self;
        loop
            invariant
                forall|cur: &'b Env<'a, D, F>| call_requires(cond, (cur,)),
                forall|found: Option<T>| #[trigger]
                    walked(cond, cur, found) ==> walked(cond, self, found),
            decreases cur,
        {
            let answer = cond(cur);
            match answer {
                Err(()) => {
                    assert(walked(cond, cur, None));
                    return None;
                },
                Ok(Some(found)) => {
                    assert(walked(cond, cur, Some(found)));
                    return Some(found);
                },
                Ok(None) => match cur.parent_env {
                    Some(parent) => {
                        assert forall|found: Option<T>| #[trigger]
                            walked(cond, parent, found) implies walked(cond, self, found) by {
                            assert(walked(cond, cur, found));
                        }
                        cur = parent;
                    },
                    None => {
                        assert(walked(cond, cur, None));
                        return None;
                    },
                },
            }
        }
    }

    fn find_var<'b>(&'b self, name: &str) -> (value: Option<&'b Rc<String>>)
        ensures
            value is Some <==> self.env_view().shell.var(name@) is Some,
            value matches Some(s) ==> self.env_view().shell.var(name@) == Some(s@),
    {
        let cond = |cur: &'b Env<'a, D, F>| -> (answer: Result<Option<&'b Rc<String>>, ()>)
            ensures
                answered(
                    unmarked(own(cur.env_view().shell.vars, name@)),
                    variable_answer(answer),
                ),
            {
                match cur.scope.vars.get(name) {
                    // The variable is found.
                    Some(Some((value, _))) => Ok(Some(value)),
                    // It was unset.
                    Some(None) => Err(()),
                    None => Ok(None),
                }
            };
        let value = self.walk_parent_chain(cond);
        proof {
            lemma_variable_found(cond, self, name@, value);
        }
        value
    }

    fn find_function<'b>(&'b self, fn_name: &str) -> (func: Option<&'b Rc<F>>)
        ensures
            func is Some <==> self.env_view().function(fn_name@) is Some,
            func matches Some(f) ==> self.env_view().function(fn_name@) == Some(*f),
    {
        let cond = |cur: &'b Env<'a, D, F>| -> (answer: Result<Option<&'b Rc<F>>, ()>)
            ensures
                answered(own(cur.env_view().functions, fn_name@), function_answer(answer)),
            {
                match cur.scope.functions.get(fn_name) {
                    // The function is found.
                    Some(Some(func)) => Ok(Some(func)),
                    // It was unset.
                    Some(None) => Err(()),
                    None => Ok(None),
                }
            };
        let func = self.walk_parent_chain(cond);
        proof {
            lemma_function_found(cond, self, fn_name@, func);
        }
        func
    }

    fn find_file_desc<'b>(&'b self, fd: Fd) -> (desc: Option<(&'b Rc<D>, Permissions)>)
        ensures
            desc is Some <==> self.env_view().file_desc(fd) is Some,
            desc matches Some((fdes, perms)) ==> self.env_view().file_desc(fd) == Some(
                (*fdes, perms),
            ),
    {
        let cond = |cur: &'b Env<'a, D, F>| -> (answer: Result<
            Option<(&'b Rc<D>, Permissions)>,
            (),
        >)
            ensures
                answered(own(cur.env_view().fds, fd), descriptor_answer(answer)),
            {
                match cur.scope.fds.get(&fd) {
                    // The descriptor is open.
                    Some(Some((fdes, perms))) => Ok(Some((fdes, *perms))),
                    // It was closed.
                    Some(None) => Err(()),
                    None => Ok(None),
                }
            };
        let desc = self.walk_parent_chain(cond);
        proof {
            lemma_descriptor_found(cond, self, fd, desc);
        }
        desc
    }
}

/// An interface for the functions that can be executed within an environment.
pub trait Run<D>: Sized {
    /// Whether the execution of `self` in an environment can give this result, and leave
    /// the environment so. Where nothing else is said of functions of a type, anything
    /// can come of them.
    open spec fn executes(
        &self,
        before: EnvView<D, Self>,
        result: ResultView,
        after: EnvView<D, Self>,
    ) -> bool {
        true
    }

    /// Executes `self` in the provided environment.
    fn run<'a>(&self, env: &mut Env<'a, D, Self>) -> (result: Result<ExitStatus, RuntimeError>)
        ensures
            self.executes(old(env).state(), result_view(result), final(env).state()),
    ;
}

/// Whether this can come of the call of a function. Where there is none, nothing happens.
/// Otherwise it is executed where the name and the arguments are its own. What came of that
/// is the result of the call, and the name and the arguments are again those of its caller.
pub open spec fn called<D, F: Run<D>>(
    name: Seq<char>,
    args: Seq<Seq<char>>,
    before: EnvView<D, F>,
    result: Option<ResultView>,
    after: EnvView<D, F>,
) -> bool {
    match result {
        Some(r) => exists|func: Rc<F>, mid: EnvView<D, F>|
            {
                &&& before.function(name) == Some(func)
                &&& #[trigger] func.executes(before.calling(name, args), r, mid)
                &&& after == mid.calling(before.shell.name, before.shell.args)
            },
        None => before.function(name) is None && after == before,
    }
}

/// The name and the arguments of the caller of a function.
pub struct Caller {
    shell_name: Rc<String>,
    args: Vec<Rc<String>>,
}

impl View for Caller {
    type V = (Seq<char>, Seq<Seq<char>>);

    closed spec fn view(&self) -> (Seq<char>, Seq<Seq<char>>) {
        (self.shell_name@, texts(self.args@))
    }
}

impl<'a, D, F> Env<'a, D, F> {
    /// Creates a new default environment from what is known of the current process.
    /// See the docs for `Env::with_config` for more information.
    pub fn new(process: ProcessInfo) -> (env: Env<'a, D, F>)
        ensures
            env.state() == config_view::<D, F>(None, None, None, process),
    {
        Self::with_config(None, None, None, process)
    }

    /// Creates an environment using provided overrides, or data from the
    /// current process if the respective override is not provided.
    ///
    /// Unless otherwise specified, the environment's name will become
    /// the basename of the current process (e.g. the 0th OS arg).
    ///
    /// Unless otherwise specified, all environment variables of the
    /// current process will be inherited as environment variables
    /// by any spawned commands.
    ///
    /// Note: Any data taken from the current process (e.g. environment
    /// variables) which is not valid Unicode will be ignored.
    pub fn with_config(
        name: Option<String>,
        args: Option<Vec<String>>,
        env: Option<Vec<(String, String)>>,
        process: ProcessInfo,
    ) -> (result: Env<'a, D, F>)
        ensures
            result.state() == config_view::<D, F>(name, args, env, process),
    {
        let ghost config = config_view::<D, F>(name, args, env, process);
        let name = match name {
            Some(name) => name,
            None => match process.name {
                Some(name) => name,
                None => String::new(),
            },
        };
        let args = match args {
            Some(args) => share_strings(args),
            None => Vec::new(),
        };
        let vars = match env {
            Some(pairs) => export_all(pairs),
            None => export_all(process.vars),
        };
        let result = Env {
            scope: Scope {
                shell_name: Rc::new(name),
                args,
                functions: StrMap::new(),
                vars,
                fds: HashMap::new(),
                last_status: ExitStatus::Code(EXIT_SUCCESS),
                pid: process.pid,
            },
            parent_env: None,
        };
        assert(result.env_view() =~= config);
        result
    }

    /// Create a new sub-environment using the current environment as its parent.
    ///
    /// Any changes which mutate the sub environment will only be reflected there,
    /// but any information not present in the sub-env will be looked up in the parent.
    pub fn sub_env<'b>(&'b self) -> (child: Env<'b, D, F>)
        ensures
            child.state() == self.state().child(),
    {
        self.resume_sub_env(self.new_scope())
    }

    /// What a new sub-environment of this environment has of its own.
    pub fn new_scope(&self) -> (scope: Scope<D, F>)
        ensures
            scope@ == self.state().fresh(),
    {
        let scope = Scope {
            shell_name: share(&self.scope.shell_name),
            args: share_all(&self.scope.args),
            functions: StrMap::new(),
            vars: StrMap::new(),
            fds: HashMap::new(),
            last_status: self.scope.last_status,
            pid: self.scope.pid,
        };
        assert(scope@ =~= self.env_view().fresh());
        scope
    }

    /// A sub-environment that has the given scope of its own.
    pub fn resume_sub_env<'b>(&'b self, scope: Scope<D, F>) -> (child: Env<'b, D, F>)
        ensures
            child.state() == scope@.inside(self.state()),
    {
        Env { scope, parent_env: Some(self) }
    }

    /// What the environment has of its own.
    pub fn into_scope(self) -> (scope: Scope<D, F>)
        ensures
            scope@ == self.state().alone(),
    {
        assert(self.scope@ =~= self.env_view().alone());
        self.scope
    }

    /// Starts the call of a function, if it has been defined: gives its body, and what is to be
    /// handed to `leave_function` once the body was executed.
    pub fn enter_function(&mut self, fn_name: Rc<String>, args: Vec<Rc<String>>) -> (call: Option<
        (Rc<F>, Caller),
    >)
        ensures
            call is Some <==> old(self).state().function(fn_name@) is Some,
            call is None ==> final(self).state() == old(self).state(),
            call matches Some((func, caller)) ==> {
                &&& old(self).state().function(fn_name@) == Some(func)
                &&& caller@ == (old(self).state().shell.name, old(self).state().shell.args)
                &&& final(self).state() == old(self).state().calling(fn_name@, texts(args@))
            },
    {
        let func = match self.find_function(fn_name.as_str()) {
            Some(func) => share(func),
            None => {
                return None;
            },
        };
        let mut caller = Caller { shell_name: fn_name, args };
        std::mem::swap(&mut self.scope.shell_name, &mut caller.shell_name);
        std::mem::swap(&mut self.scope.args, &mut caller.args);
        Some((func, caller))
    }

    /// Ends the call of a function: brings back the name and the arguments of its caller.
    pub fn leave_function(&mut self, caller: Caller)
        ensures
            final(self).state() == old(self).state().calling(caller@.0, caller@.1),
    {
        self.scope.shell_name = caller.shell_name;
        self.scope.args = caller.args;
    }
}

impl<'a, D, F: Run<D>> Env<'a, D, F> {
    /// Attempt to execute a function with a set of arguments if it has been defined.
    ///
    /// The function sees its own name and arguments; afterwards those of the caller are back,
    /// whatever the function did.
    pub fn run_function(&mut self, fn_name: Rc<String>, args: Vec<Rc<String>>) -> (ret: Option<
        Result<ExitStatus, RuntimeError>,
    >)
        ensures
            ret is Some <==> old(self).state().function(fn_name@) is Some,
            called(
                fn_name@,
                texts(args@),
                old(self).state(),
                match ret {
                    Some(result) => Some(result_view(result)),
                    None => None,
                },
                final(self).state(),
            ),
    {
        match self.enter_function(fn_name, args) {
            Some((func, caller)) => {
                let ret = func.run(self);
                self.leave_function(caller);
                Some(ret)
            },
            None => None,
        }
    }
}

/// The environment that a configuration gives.
pub open spec fn config_view<D, F>(
    name: Option<String>,
    args: Option<Vec<String>>,
    env: Option<Vec<(String, String)>>,
    process: ProcessInfo,
) -> EnvView<D, F> {
    EnvView {
        shell: Shell {
            name: match (name, process.name) {
                (Some(name), _) => name@,
                (None, Some(name)) => name@,
                (None, None) => Seq::empty(),
            },
            args: match args {
                Some(args) => string_texts(args@),
                None => Seq::empty(),
            },
            vars: match env {
                Some(pairs) => exported_bindings(pairs@),
                None => exported_bindings(process.vars@),
            },
            outer: Map::empty(),
            status: ExitStatus::Code(EXIT_SUCCESS),
            pid: process.pid,
        },
        functions: Map::empty(),
        outer_functions: Map::empty(),
        fds: Map::empty(),
        outer_fds: Map::empty(),
        nested: false,
    }
}

fn share_strings(list: Vec<String>) -> (shared: Vec<Rc<String>>)
    ensures
        texts(shared@) == string_texts(list@),
{
    let mut shared: Vec<Rc<String>> = Vec::new();
    let mut i: usize = 0;
    while i < list.len()
        invariant
            0 <= i <= list@.len(),
            texts(shared@) == string_texts(list@).take(i as int),
        decreases list.len() - i,
    {
        let ghost before = shared@;
        shared.push(Rc::new(list[i].clone()));
        assert(texts(shared@) =~= string_texts(list@).take(i + 1)) by {
            assert(texts(shared@) =~= texts(before).push(list@[i as int]@));
        }
        i = i + 1;
    }
    assert(string_texts(list@).take(i as int) =~= string_texts(list@));
    shared
}

fn export_all(pairs: Vec<(String, String)>) -> (vars: StrMap<Option<(Rc<String>, bool)>>)
    ensures
        var_views(vars@) == exported_bindings(pairs@),
{
    let mut vars: StrMap<Option<(Rc<String>, bool)>> = StrMap::new();
    let mut i: usize = 0;
    assert(var_views(vars@) =~= exported_bindings(pairs@.take(0)));
    while i < pairs.len()
        invariant
            0 <= i <= pairs@.len(),
            var_views(vars@) == exported_bindings(pairs@.take(i as int)),
        decreases pairs.len() - i,
    {
        let ghost before = vars@;
        vars.insert(pairs[i].0.clone(), Some((Rc::new(pairs[i].1.clone()), true)));
        proof {
            let (name, value) = pairs@[i as int];
            assert(pairs@.take(i + 1).drop_last() =~= pairs@.take(i as int));
            assert(var_views(vars@) =~= var_views(before).insert(name@, Some((value@, true))));
        }
        i = i + 1;
    }
    assert(pairs@.take(i as int) =~= pairs@);
    vars
}

/// An environment has nothing from parents unless it has a parent.
pub proof fn environments_are_rooted<'a, D, F>(env: Env<'a, D, F>)
    ensures
        env.state().rooted(),
{
    assert(env.state() == env.env_view());
}

} // verus!
