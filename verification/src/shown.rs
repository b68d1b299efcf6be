//! What holds of how values are seen in contracts: their strings are texts, and otherwise
//! they are seen as they are.

use crate::ast::{Command, Parameter};
use crate::env::{EnvView, Environment, Shell};
use crate::error::{result_view, ErrorView, RuntimeError};
use crate::fields::{Fields, FieldsView};
use crate::io::{Fd, IoError, Permissions};
use crate::machine::{Action, ActionView, Launch, Process};
use crate::outcome::{defined_result, evaluated, outcome_of, Abort, Outcome};
use crate::param::fields_view;
use crate::redirect::{defined_redirection, redirection_outcome, Redirection, RedirectionView};
use crate::status::ExitStatus;
use crate::text::texts;
use crate::word::{defined_fields, defined_text, fields_outcome, text_outcome, texts_outcome};
use std::rc::Rc;
use vstd::prelude::*;
use vstd::std_specs::cmp::PartialEqSpec;

verus! {

/// A list of strings is seen as their texts, one for one and in order.
pub proof fn strings_are_texts(list: Seq<Rc<String>>, i: int)
    ensures
        texts(list).len() == list.len(),
        0 <= i < list.len() ==> texts(list)[i] == list[i]@,
{
}

/// A program is seen with its name, each of its arguments and variables, and its streams.
pub proof fn programs_are_seen<D>(p: Process<D>, l: Launch<D>, i: int, name: Seq<char>)
    ensures
        p@.program == p.program@,
        p@.args.len() == p.args@.len(),
        0 <= i < p.args@.len() ==> p@.args[i] == p.args@[i]@,
        p@.env.dom().contains(name) <==> p.env@.dom().contains(name),
        p.env@.dom().contains(name) ==> p@.env[name] == p.env@[name]@,
        p@.stdin == p.stdin,
        p@.stdout == p.stdout,
        p@.stderr == p.stderr,
        l@.program == l.program@,
        l@.args.len() == l.args@.len(),
        0 <= i < l.args@.len() ==> l@.args[i] == l.args@[i]@,
        l@.env.dom().contains(name) <==> l.env@.dom().contains(name),
        l.env@.dom().contains(name) ==> l@.env[name] == l.env@[name]@,
        l@.handles == l.handles@,
{
}

/// What a machine asks for is seen with everything that it is asked for with.
pub proof fn requests_are_seen<D>(
    path: Rc<String>,
    permissions: Permissions,
    append: bool,
    p: Process<D>,
    body: Rc<Command>,
    status: ExitStatus,
    e: RuntimeError,
)
    ensures
        Action::<D>::Continue@ is Continue,
        (Action::<D>::Open { path, permissions, append })@ == (ActionView::<D>::Open {
            path: path@,
            permissions,
            append,
        }),
        Action::Spawn(p)@ == ActionView::Spawn(p@),
        Action::<D>::Define(body)@ == ActionView::<D>::Define(body),
        Action::<D>::Call@ is Call,
        Action::<D>::Finished(Ok(status))@ == ActionView::<D>::Finished(Ok(status)),
        Action::<D>::Finished(Err(e))@ == ActionView::<D>::Finished(Err(e@)),
        Action::<D>::Undefined@ is Undefined,
{
}

/// What a redirection does is seen with the descriptor, the handle and how it is opened.
pub proof fn redirections_are_seen<D>(
    fd: Fd,
    fdes: Rc<D>,
    path: Rc<String>,
    permissions: Permissions,
    append: bool,
)
    ensures
        Redirection::<D>::Close(fd)@ == RedirectionView::<D>::Close(fd),
        Redirection::Duplicate(fd, fdes, permissions)@ == RedirectionView::Duplicate(
            fd,
            fdes,
            permissions,
        ),
        (Redirection::<D>::Open { fd, path, permissions, append })@ == (RedirectionView::<D>::Open {
            fd,
            path: path@,
            permissions,
            append,
        }),
{
}

/// Fields are seen as the same kind of fields, with the texts of their strings.
pub proof fn fields_are_seen(s: Rc<String>, v: Vec<Rc<String>>)
    ensures
        Fields::Single(s)@ == FieldsView::Single(s@),
        Fields::At(v)@ == FieldsView::At(texts(v@)),
        Fields::Star(v)@ == FieldsView::Star(texts(v@)),
        Fields::Many(v)@ == FieldsView::Many(texts(v@)),
        fields_view(Some(Fields::At(v))) == Some(FieldsView::At(texts(v@))),
        fields_view(Some(Fields::Single(s))) == Some(FieldsView::Single(s@)),
        fields_view(None) is None,
{
}

/// An error is seen with what it is about.
pub proof fn errors_are_seen(
    e: IoError,
    p: Parameter,
    s: Rc<String>,
    feature: &'static str,
    v: Vec<Rc<String>>,
    fd: Fd,
    perms: Permissions,
)
    ensures
        RuntimeError::Io(e)@ == ErrorView::Io(e),
        RuntimeError::DivideByZero@ is DivideByZero,
        RuntimeError::NegativeExponent@ is NegativeExponent,
        RuntimeError::BadAssig(p)@ == ErrorView::BadAssig(p),
        RuntimeError::EmptyParameter(p, s)@ == ErrorView::EmptyParameter(p, s@),
        RuntimeError::CommandNotFound(s)@ == ErrorView::CommandNotFound(s@),
        RuntimeError::CommandNotExecutable(s)@ == ErrorView::CommandNotExecutable(s@),
        RuntimeError::Unimplemented(feature)@ == ErrorView::Unimplemented(feature@),
        RuntimeError::RedirectAmbiguous(v)@ == ErrorView::RedirectAmbiguous(texts(v@)),
        RuntimeError::RedirectBadFdSrc(s)@ == ErrorView::RedirectBadFdSrc(s@),
        RuntimeError::RedirectBadFdPerms(fd, perms)@ == ErrorView::RedirectBadFdPerms(fd, perms),
{
}

/// A result shows its value, or the error that there was, or that nothing is defined.
pub proof fn results_show_outcomes<D>(
    n: isize,
    s: Rc<String>,
    v: Vec<Rc<String>>,
    f: Fields,
    r: Redirection<D>,
    e: RuntimeError,
    status: ExitStatus,
)
    ensures
        outcome_of(Ok::<isize, Abort>(n)) == Outcome::Value(n),
        outcome_of(Err::<isize, Abort>(Abort::Error(e))) == Outcome::<isize>::Error(e@),
        outcome_of(Err::<isize, Abort>(Abort::Undefined)) is Undefined,
        text_outcome(Ok(s)) == Outcome::Value(s@),
        text_outcome(Err(Abort::Error(e))) == Outcome::<Seq<char>>::Error(e@),
        text_outcome(Err(Abort::Undefined)) is Undefined,
        texts_outcome(Ok(v)) == Outcome::Value(texts(v@)),
        texts_outcome(Err(Abort::Error(e))) == Outcome::<Seq<Seq<char>>>::Error(e@),
        texts_outcome(Err(Abort::Undefined)) is Undefined,
        fields_outcome(Ok(f)) == Outcome::Value(f@),
        fields_outcome(Err(Abort::Error(e))) == Outcome::<FieldsView>::Error(e@),
        fields_outcome(Err(Abort::Undefined)) is Undefined,
        redirection_outcome(Ok(r)) == Outcome::Value(r@),
        redirection_outcome::<D>(Err(Abort::Error(e))) == Outcome::<RedirectionView<D>>::Error(e@),
        redirection_outcome::<D>(Err(Abort::Undefined)) is Undefined,
        defined_result(Ok::<isize, RuntimeError>(n)) == Outcome::Value(n),
        defined_result(Err::<isize, RuntimeError>(e)) == Outcome::<isize>::Error(e@),
        defined_text(Ok(s)) == Outcome::Value(s@),
        defined_text(Err(e)) == Outcome::<Seq<char>>::Error(e@),
        defined_fields(Ok(f)) == Outcome::Value(f@),
        defined_fields(Err(e)) == Outcome::<FieldsView>::Error(e@),
        defined_redirection(Ok(r)) == Outcome::Value(r@),
        defined_redirection::<D>(Err(e)) == Outcome::<RedirectionView<D>>::Error(e@),
        result_view(Ok(status)) == Ok::<ExitStatus, ErrorView>(status),
        result_view(Err(e)) == Err::<ExitStatus, ErrorView>(e@),
{
}

/// Where an evaluation has no value, neither has what needs it, for the same reason.
pub proof fn reasons_are_passed_on<T, U>(e: ErrorView, value: T)
    ensures
        Outcome::<T>::Error(e).without_value::<U>() == Outcome::<U>::Error(e),
        Outcome::<T>::Undefined.without_value::<U>() is Undefined,
        Outcome::Value(value).without_value::<U>() !is Value,
{
}

/// An evaluation gives what it is said to, leaves the shell so, and changes no function
/// and no descriptor.
pub proof fn evaluation_changes_the_shell_only<T, E: Environment>(
    before: E,
    after: E,
    result: Outcome<T>,
    expected: Outcome<T>,
    sh: Shell,
    name: Seq<char>,
    fd: Fd,
)
    requires
        evaluated(before, after, result, (expected, sh)),
    ensures
        result == expected,
        after.state().shell == sh,
        after.state().function(name) == before.state().function(name),
        after.state().file_desc(fd) == before.state().file_desc(fd),
{
}

/// Fields are equal where they are of the same kind and have the same texts.
pub proof fn fields_are_compared(
    s: Rc<String>,
    t: Rc<String>,
    v: Vec<Rc<String>>,
    w: Vec<Rc<String>>,
)
    ensures
        Fields::Single(s).eq_spec(&Fields::Single(t)) <==> s@ == t@,
        Fields::At(v).eq_spec(&Fields::At(w)) <==> texts(v@) == texts(w@),
        Fields::Star(v).eq_spec(&Fields::Star(w)) <==> texts(v@) == texts(w@),
        Fields::Many(v).eq_spec(&Fields::Many(w)) <==> texts(v@) == texts(w@),
        !Fields::At(v).eq_spec(&Fields::Star(v)),
        !Fields::At(v).eq_spec(&Fields::Many(v)),
        !Fields::Star(v).eq_spec(&Fields::Many(v)),
        !Fields::Single(s).eq_spec(&Fields::Many(v)),
        !Fields::Single(s).eq_spec(&Fields::At(v)),
        !Fields::Single(s).eq_spec(&Fields::Star(v)),
{
}

/// Errors are equal where they count as the same: those of the system where their kinds
/// are, and any others where they are seen as the same, with their parameters compared.
pub proof fn equal_errors_are_about_the_same(
    a: RuntimeError,
    b: RuntimeError,
    fd: Fd,
    gd: Fd,
    perms: Permissions,
    qerms: Permissions,
    v: Seq<Seq<char>>,
    w: Seq<Seq<char>>,
)
    ensures
        a@ == b@ ==> a.eq_spec(&b),
        a.eq_spec(&b) && !(a is Io) && !(a is BadAssig) && !(a is EmptyParameter) ==> a@ == b@,
        a.eq_spec(&b) && a is Io ==> b is Io,
        a.eq_spec(&b) && a is BadAssig ==> b is BadAssig,
        a.eq_spec(&b) && a is EmptyParameter ==> b is EmptyParameter,
        ErrorView::RedirectAmbiguous(v).same(ErrorView::RedirectAmbiguous(w)) <==> v == w,
        ErrorView::RedirectBadFdPerms(fd, perms).same(ErrorView::RedirectBadFdPerms(gd, qerms))
            <==> fd == gd && perms == qerms,
{
}

/// Parameters are equal where they are the same special one, have the same position,
/// or are variables of one name.
pub proof fn parameters_are_compared(p: Parameter, q: Parameter, x: String, y: String)
    ensures
        p.eq_spec(&q) <==> p.same(q),
        p == q ==> p.same(q),
        p.same(q) && !(p is Var) ==> p == q,
        p.same(q) && p is Var ==> q is Var,
        Parameter::Var(x).same(Parameter::Var(y)) <==> x@ == y@,
{
}

/// What is assigned in a child is not exported, even where its parent exports the variable.
/// A variable of its own stays as it is.
pub proof fn child_exports_nothing_new<D, F>(
    st: EnvView<D, F>,
    name: Seq<char>,
    value: Seq<char>,
    again: Seq<char>,
)
    ensures
        st.child().shell.with_var(name, value).exported(name) is None,
        st.child().shell.with_var(name, value).with_var(name, again).exported(name) is None,
        st.child().shell.pid == st.shell.pid,
        st.child().nested,
{
}

/// An environment that is put inside another one has its own variables, functions and
/// descriptors, and sees those of the other one under other names. Taken out again
/// it has just its own.
pub proof fn environment_is_put_inside<D, F>(
    own: EnvView<D, F>,
    parent: EnvView<D, F>,
    name: Seq<char>,
    fd: Fd,
)
    ensures
        ({
            let st = own.inside(parent);
            &&& own.shell.vars.dom().contains(name) ==> st.shell.var(name) == (
            match own.shell.vars[name] {
                Some((value, _)) => Some(value),
                None => None,
            })
            &&& !own.shell.vars.dom().contains(name) ==> st.shell.var(name) == parent.shell.var(
                name,
            )
            &&& own.functions.dom().contains(name) ==> st.function(name) == own.functions[name]
            &&& !own.functions.dom().contains(name) ==> st.function(name) == parent.function(name)
            &&& own.fds.dom().contains(fd) ==> st.file_desc(fd) == own.fds[fd]
            &&& !own.fds.dom().contains(fd) ==> st.file_desc(fd) == parent.file_desc(fd)
            &&& st.shell.name == own.shell.name && st.shell.args == own.shell.args
            &&& st.shell.status == own.shell.status && st.shell.pid == own.shell.pid
            &&& st.nested
            &&& st.alone().shell.vars == own.shell.vars
            &&& st.alone().functions == own.functions
            &&& st.alone().fds == own.fds
            &&& st.alone().shell.outer.dom().is_empty()
            &&& st.alone().outer_functions.dom().is_empty()
            &&& st.alone().outer_fds.dom().is_empty()
            &&& st.alone().shell.name == own.shell.name && st.alone().shell.args == own.shell.args
            &&& st.alone().shell.status == own.shell.status && st.alone().shell.pid
                == own.shell.pid
            &&& !st.alone().nested
        }),
{
}

} // verus!
