//! What holds of evaluations as a whole.

use crate::arith::{arith, arith_list, variable};
use crate::ast::{Arith, Parameter, ParameterSubstitution, Redirect, Word};
use crate::env::{
    called, config_view, exported_bindings, EnvView, ProcessInfo, Run, Shell,
};
use crate::error::{ErrorView, ResultView};
use crate::fields::FieldsView;
use crate::io::{Fd, Permissions};
use crate::machine::{assignments, overrides};
use crate::number::{decimal_read_back, parsed};
use crate::outcome::Outcome;
use crate::param::parameter;
use crate::pattern::{first_hit, glob_matches, last_hit, Removal};
use crate::redirect::{asked_for, path_of, redirection, RedirectionView};
use crate::split::{fields_from, fields_of_all, separators, split_words};
use crate::status::{ExitStatus, EXIT_ERROR};
use crate::word::{
    adjoined, all_fields, assignment, concatenated, fallback, maybe_split, or_null, quoted,
    settled, substitution, word, Quoted,
};
use std::rc::Rc;
use vstd::prelude::*;

verus! {

/// An arithmetic expression changes nothing of a shell but its own variables and its status.
pub proof fn arith_keeps_place(expr: Arith, sh: Shell)
    ensures
        arith(expr, sh).1.same_place(sh),
    decreases expr, 0nat,
{
    match expr {
        Arith::UnaryPlus(e)
        | Arith::UnaryMinus(e)
        | Arith::BitwiseNot(e)
        | Arith::LogicalNot(e)
        | Arith::Assign(_, e) => {
            arith_keeps_place(*e, sh);
        },
        Arith::Less(left, right)
        | Arith::LessEq(left, right)
        | Arith::Great(left, right)
        | Arith::GreatEq(left, right)
        | Arith::Eq(left, right)
        | Arith::NotEq(left, right)
        | Arith::Mult(left, right)
        | Arith::Add(left, right)
        | Arith::Sub(left, right)
        | Arith::ShiftLeft(left, right)
        | Arith::ShiftRight(left, right)
        | Arith::BitwiseAnd(left, right)
        | Arith::BitwiseXor(left, right)
        | Arith::BitwiseOr(left, right)
        | Arith::LogicalAnd(left, right)
        | Arith::LogicalOr(left, right) => {
            arith_keeps_place(*left, sh);
            arith_keeps_place(*right, arith(*left, sh).1);
        },
        Arith::Pow(left, right) | Arith::Div(left, right) | Arith::Modulo(left, right) => {
            arith_keeps_place(*right, sh);
            arith_keeps_place(*left, arith(*right, sh).1);
        },
        Arith::Ternary(guard, yes, no) => {
            arith_keeps_place(*guard, sh);
            arith_keeps_place(*yes, arith(*guard, sh).1);
            arith_keeps_place(*no, arith(*guard, sh).1);
        },
        Arith::Sequence(exprs) => {
            assert(decreases_to!(expr => expr->Sequence_0));
            assert(decreases_to!(exprs => exprs@));
            lemma_arith_list_keeps_place(exprs@, 0, 0, sh);
        },
        _ => {},
    }
}

proof fn lemma_arith_list_keeps_place(exprs: Seq<Arith>, i: nat, last: isize, sh: Shell)
    ensures
        arith_list(exprs, i, last, sh).1.same_place(sh),
    decreases exprs, exprs.len() - i,
{
    if i < exprs.len() {
        assert(decreases_to!(exprs => exprs[i as int]));
        arith_keeps_place(exprs[i as int], sh);
        let (o, s1) = arith(exprs[i as int], sh);
        if o is Value {
            lemma_arith_list_keeps_place(exprs, i + 1, o->Value_0, s1);
        }
    }
}

/// A word changes nothing of a shell but its own variables and its status.
pub proof fn word_keeps_place(w: Word, sh: Shell, tilde: bool, split: bool)
    ensures
        word(w, sh, tilde, split).1.same_place(sh),
    decreases w, 0nat,
{
    match w {
        Word::Subst(s) => {
            substitution_keeps_place(*s, sh);
        },
        Word::Concat(words) => {
            assert(decreases_to!(w => w->Concat_0));
            assert(decreases_to!(words => words@));
            lemma_concatenated_keeps_place(words@, 0, Seq::empty(), sh, tilde, split);
        },
        Word::DoubleQuoted(words) => {
            assert(decreases_to!(w => w->DoubleQuoted_0));
            assert(decreases_to!(words => words@));
            lemma_quoted_keeps_place(
                words@,
                0,
                Quoted::nothing(),
                sh,
            );
        },
        _ => {},
    }
}

proof fn lemma_concatenated_keeps_place(
    words: Seq<Word>,
    i: nat,
    fields: Seq<Seq<char>>,
    sh: Shell,
    tilde: bool,
    split: bool,
)
    ensures
        concatenated(words, i, fields, sh, tilde, split).1.same_place(sh),
    decreases words, words.len() - i,
{
    if i < words.len() {
        assert(decreases_to!(words => words[i as int]));
        word_keeps_place(words[i as int], sh, tilde, split);
        let (o, s1) = word(words[i as int], sh, tilde, split);
        if o is Value {
            lemma_concatenated_keeps_place(
                words,
                i + 1,
                adjoined(fields, o->Value_0.list()),
                s1,
                tilde,
                split,
            );
        }
    }
}

proof fn lemma_quoted_keeps_place(words: Seq<Word>, i: nat, so_far: Quoted, sh: Shell)
    ensures
        quoted(words, i, so_far, sh).1.same_place(sh),
    decreases words, words.len() - i,
{
    if i < words.len() {
        assert(decreases_to!(words => words[i as int]));
        word_keeps_place(words[i as int], sh, false, false);
        let (o, s1) = word(words[i as int], sh, false, false);
        if o is Value {
            let next = so_far.after(words[i as int], o->Value_0, s1);
            if next is Some {
                lemma_quoted_keeps_place(words, i + 1, next->0, s1);
            }
        }
    }
}

/// A substitution changes nothing of a shell but its own variables and its status.
pub proof fn substitution_keeps_place(s: ParameterSubstitution, sh: Shell)
    ensures
        substitution(s, sh).1.same_place(sh),
    decreases s, 0nat,
{
    match s {
        ParameterSubstitution::Arithmetic(Some(a)) => {
            arith_keeps_place(a, sh);
        },
        ParameterSubstitution::Default(_, _, w)
        | ParameterSubstitution::Assign(_, _, w)
        | ParameterSubstitution::Error(_, _, w)
        | ParameterSubstitution::Alternative(_, _, w) => {
            lemma_fallback_keeps_place(w, sh);
        },
        _ => {},
    }
}

proof fn lemma_fallback_keeps_place(w: Option<Word>, sh: Shell)
    ensures
        fallback(w, sh).1.same_place(sh),
    decreases w, 0nat,
{
    match w {
        Some(inner) => {
            word_keeps_place(inner, sh, true, false);
        },
        None => {},
    }
}

/// A value that is assigned changes nothing of a shell but its own variables and its status.
pub proof fn assignment_keeps_place(w: Word, sh: Shell)
    ensures
        assignment(w, sh).1.same_place(sh),
{
    word_keeps_place(w, sh, true, false);
}

/// The words of a command change nothing of a shell but its own variables and its status.
pub proof fn all_fields_keeps_place(words: Seq<Word>, i: nat, fields: Seq<Seq<char>>, sh: Shell)
    ensures
        all_fields(words, i, fields, sh).1.same_place(sh),
    decreases words.len() - i,
{
    if i < words.len() {
        word_keeps_place(words[i as int], sh, true, true);
        let (o, s1) = word(words[i as int], sh, true, true);
        if o is Value {
            all_fields_keeps_place(words, i + 1, fields + o->Value_0.list(), s1);
        }
    }
}

/// Assignments change nothing of a shell but its own variables and its status.
pub proof fn assignments_keep_place(vars: Seq<(String, Option<Word>)>, i: nat, sh: Shell)
    ensures
        assignments(vars, i, sh).1.same_place(sh),
    decreases vars.len() - i,
{
    if i < vars.len() {
        match vars[i as int].1 {
            Some(w) => {
                assignment_keeps_place(w, sh);
                let (o, s1) = assignment(w, sh);
                if o is Value {
                    assignments_keep_place(
                        vars,
                        i + 1,
                        s1.with_var(vars[i as int].0@, o->Value_0),
                    );
                }
            },
            None => {
                assignments_keep_place(vars, i + 1, sh);
            },
        }
    }
}

/// The assignments in front of a program change nothing of a shell but its own variables
/// and its status.
pub proof fn overrides_keep_place(
    vars: Seq<(String, Option<Word>)>,
    i: nat,
    env: Map<Seq<char>, Seq<char>>,
    sh: Shell,
)
    ensures
        overrides(vars, i, env, sh).1.same_place(sh),
    decreases vars.len() - i,
{
    if i < vars.len() {
        match vars[i as int].1 {
            Some(w) => {
                word_keeps_place(w, sh, true, true);
                let (o, s1) = word(w, sh, true, true);
                if o is Value {
                    overrides_keep_place(
                        vars,
                        i + 1,
                        env.insert(vars[i as int].0@, o->Value_0.joined()),
                        s1,
                    );
                }
            },
            None => {
                overrides_keep_place(vars, i + 1, env, sh);
            },
        }
    }
}

/// The evaluation of a redirection changes nothing of a shell but its own variables
/// and its status.
pub proof fn redirection_keeps_place<D, F>(r: Redirect, st: EnvView<D, F>)
    ensures
        redirection(r, st).1.same_place(st.shell),
{
    match r {
        Redirect::Read(_, w)
        | Redirect::ReadWrite(_, w)
        | Redirect::Write(_, w)
        | Redirect::Clobber(_, w)
        | Redirect::Append(_, w)
        | Redirect::DupRead(_, w)
        | Redirect::DupWrite(_, w) => {
            word_keeps_place(w, st.shell, true, false);
        },
        Redirect::Heredoc(_, _) => {},
    }
}

/// A variable that was assigned has the value, and the other variables have theirs.
/// None of them is exported that was not, and in an environment without parents
/// none stops being so.
pub proof fn assigned_var_is_read(
    sh: Shell,
    name: Seq<char>,
    value: Seq<char>,
    other: Seq<char>,
)
    ensures
        sh.with_var(name, value).var(name) == Some(value),
        other != name ==> sh.with_var(name, value).var(other) == sh.var(other),
        other != name ==> sh.with_var(name, value).exported(other) == sh.exported(other),
        sh.with_var(name, value).exported(name) is Some ==> sh.exported(name) is Some,
        sh.outer.dom().is_empty() && sh.exported(name) is Some ==> sh.with_var(
            name,
            value,
        ).exported(name) == Some(value),
{
}

/// A child has the name, arguments and status of its parent,
/// and sees its variables, functions and file descriptors.
pub proof fn child_sees_parent<D, F>(st: EnvView<D, F>, name: Seq<char>, i: int, fd: Fd)
    ensures
        st.child().shell.name == st.shell.name,
        st.child().shell.args == st.shell.args,
        st.child().shell.arg(i) == st.shell.arg(i),
        st.child().shell.status == st.shell.status,
        st.child().shell.var(name) == st.shell.var(name),
        st.child().shell.exported(name) == st.shell.exported(name),
        st.child().function(name) == st.function(name),
        st.child().file_desc(fd) == st.file_desc(fd),
{
}

/// What is set in a child is seen there in place of what its parent has.
pub proof fn child_overrides_parent<D, F>(
    st: EnvView<D, F>,
    name: Seq<char>,
    value: Seq<char>,
    func: F,
    fd: Fd,
    fdes: Rc<D>,
    perms: Permissions,
)
    ensures
        st.child().shell.with_var(name, value).var(name) == Some(value),
        st.child().with_function(name, func).function(name) == Some(Rc::new(func)),
        st.child().with_file_desc(fd, fdes, perms).file_desc(fd) == Some((fdes, perms)),
        st.child().without_file_desc(fd).file_desc(fd) is None,
{
}

/// A function that was defined is found, and the other functions stay as they are.
pub proof fn defined_function_is_found<D, F>(
    st: EnvView<D, F>,
    name: Seq<char>,
    func: F,
    other: Seq<char>,
)
    ensures
        st.with_function(name, func).function(name) == Some(Rc::new(func)),
        other != name ==> st.with_function(name, func).function(other) == st.function(other),
{
}

/// The call of a function that was defined is its execution with the arguments,
/// and has the result of that. The name and the arguments of the caller are back after it.
pub proof fn defined_function_is_called<D, F: Run<D>>(
    st: EnvView<D, F>,
    name: Seq<char>,
    func: F,
    args: Seq<Seq<char>>,
    result: Option<ResultView>,
    after: EnvView<D, F>,
)
    requires
        called(name, args, st.with_function(name, func), result, after),
    ensures
        result matches Some(r) && exists|mid: EnvView<D, F>|
            {
                &&& #[trigger] func.executes(
                    st.with_function(name, func).calling(name, args),
                    r,
                    mid,
                )
                &&& after == mid.calling(st.shell.name, st.shell.args)
            },
        after.shell.name == st.shell.name,
        after.shell.args == st.shell.args,
{
    let before = st.with_function(name, func);
    assert(before.function(name) == Some(Rc::new(func)));
}

/// A function that was defined in a child is called there, and there is still
/// no function of that name in the parent.
pub proof fn function_of_child_is_called<D, F: Run<D>>(
    st: EnvView<D, F>,
    name: Seq<char>,
    func: F,
    args: Seq<Seq<char>>,
    of_child: Option<ResultView>,
    child: EnvView<D, F>,
    of_parent: Option<ResultView>,
    after: EnvView<D, F>,
)
    requires
        st.function(name) is None,
        called(name, args, st.child().with_function(name, func), of_child, child),
        called(name, args, st, of_parent, after),
    ensures
        of_child is Some,
        of_parent is None,
        after == st,
{
    defined_function_is_called(st.child(), name, func, args, of_child, child);
}

/// A file descriptor that was set is open with its handle and permissions, one that was closed
/// is not open, and the other descriptors stay as they are.
pub proof fn descriptor_is_set_and_closed<D, F>(
    st: EnvView<D, F>,
    fd: Fd,
    fdes: Rc<D>,
    perms: Permissions,
    other: Fd,
)
    requires
        st.rooted(),
    ensures
        st.with_file_desc(fd, fdes, perms).file_desc(fd) == Some((fdes, perms)),
        st.without_file_desc(fd).file_desc(fd) is None,
        other != fd ==> st.with_file_desc(fd, fdes, perms).file_desc(other) == st.file_desc(other),
        other != fd ==> st.without_file_desc(fd).file_desc(other) == st.file_desc(other),
{
}

/// After a call in which nothing was done, everything is as before.
pub proof fn call_is_undone<D, F>(st: EnvView<D, F>, name: Seq<char>, args: Seq<Seq<char>>)
    ensures
        st.calling(name, args).shell.name == name,
        st.calling(name, args).shell.args == args,
        st.calling(name, args).calling(st.shell.name, st.shell.args) == st,
{
    assert(st.calling(name, args).calling(st.shell.name, st.shell.args) =~= st);
}

/// Of several exported variables with one name the last one counts.
pub proof fn last_export_counts(pairs: Seq<(String, String)>, i: int)
    requires
        0 <= i < pairs.len(),
        forall|j: int| i < j < pairs.len() ==> (#[trigger] pairs[j]).0@ != pairs[i].0@,
    ensures
        exported_bindings(pairs).dom().contains(pairs[i].0@),
        exported_bindings(pairs)[pairs[i].0@] == Some((pairs[i].1@, true)),
    decreases pairs.len(),
{
    if i < pairs.len() - 1 {
        let shorter = pairs.drop_last();
        assert forall|j: int| i < j < shorter.len() implies (#[trigger] shorter[j]).0@
            != shorter[i].0@ by {
            assert(pairs[j].0@ != pairs[i].0@);
        }
        last_export_counts(shorter, i);
        assert(pairs[pairs.len() - 1].0@ != pairs[i].0@);
    }
}

/// No variable but the listed ones is exported.
pub proof fn only_listed_are_exported(pairs: Seq<(String, String)>, name: Seq<char>)
    requires
        forall|i: int| 0 <= i < pairs.len() ==> (#[trigger] pairs[i]).0@ != name,
    ensures
        !exported_bindings(pairs).dom().contains(name),
    decreases pairs.len(),
{
    if pairs.len() > 0 {
        let shorter = pairs.drop_last();
        assert forall|i: int| 0 <= i < shorter.len() implies (#[trigger] shorter[i]).0@ != name by {
            assert(pairs[i].0@ != name);
        }
        only_listed_are_exported(shorter, name);
        assert(pairs[pairs.len() - 1].0@ != name);
    }
}

/// In a new environment each of the given variables is exported with its value, and so it is
/// in a child.
pub proof fn given_vars_are_exported<D, F>(
    name: Option<String>,
    args: Option<Vec<String>>,
    env: Vec<(String, String)>,
    process: ProcessInfo,
    i: int,
)
    requires
        0 <= i < env@.len(),
        forall|j: int| i < j < env@.len() ==> (#[trigger] env@[j]).0@ != env@[i].0@,
    ensures
        ({
            let st = config_view::<D, F>(name, args, Some(env), process);
            &&& st.shell.exported(env@[i].0@) == Some(env@[i].1@)
            &&& st.child().shell.exported(env@[i].0@) == Some(env@[i].1@)
            &&& st.shell.exports() == st.child().shell.exports()
        }),
{
    last_export_counts(env@, i);
    let st = config_view::<D, F>(name, args, Some(env), process);
    assert(st.shell.exports() =~= st.child().shell.exports()) by {
        assert forall|n: Seq<char>| st.child().shell.exported(n) == st.shell.exported(n) by {
            child_sees_parent(st, n, 0, 0);
        }
    }
}

/// A variable that a number was assigned to in an expression has that number there.
pub proof fn assigned_number_is_read(x: String, e: Box<Arith>, sh: Shell)
    requires
        arith(Arith::Assign(x, e), sh).0 is Value,
    ensures
        ({
            let (o, s1) = arith(Arith::Assign(x, e), sh);
            arith(Arith::Var(x), s1) == (o, s1)
        }),
{
    let v = arith(*e, sh).0->Value_0;
    decimal_read_back(v as int, isize::MIN as int, isize::MAX as int);
}

/// `x++` has the value of the variable before, `++x` the one after it,
/// and either way the variable is one more afterwards. It is the same with `x--` and `--x`.
pub proof fn steps_of_a_variable(x: String, sh: Shell)
    ensures
        ({
            let v = variable(sh, x@);
            &&& v < isize::MAX ==> {
                let (post, s1) = arith(Arith::PostIncr(x), sh);
                let (pre, s2) = arith(Arith::PreIncr(x), sh);
                &&& post == Outcome::Value(v)
                &&& pre == Outcome::Value((v + 1) as isize)
                &&& s1 == s2
                &&& variable(s1, x@) == v + 1
            }
            &&& v > isize::MIN ==> {
                let (post, s1) = arith(Arith::PostDecr(x), sh);
                let (pre, s2) = arith(Arith::PreDecr(x), sh);
                &&& post == Outcome::Value(v)
                &&& pre == Outcome::Value((v - 1) as isize)
                &&& s1 == s2
                &&& variable(s1, x@) == v - 1
            }
        }),
{
    let v = variable(sh, x@);
    if v < isize::MAX {
        decimal_read_back(v + 1, isize::MIN as int, isize::MAX as int);
    }
    if v > isize::MIN {
        decimal_read_back(v - 1, isize::MIN as int, isize::MAX as int);
    }
}

/// A value that a substitution assigns to a variable is the value of the variable afterwards.
pub proof fn assigned_default_is_read(
    strict: bool,
    name: String,
    w: Option<Word>,
    sh: Shell,
)
    requires
        parameter(Parameter::Var(name), sh) is Value,
        settled(parameter(Parameter::Var(name), sh)->Value_0, strict) is None,
        fallback(w, sh).0 is Value,
    ensures
        ({
            let s = ParameterSubstitution::Assign(strict, Parameter::Var(name), w);
            let (o, s1) = substitution(s, sh);
            &&& o is Value
            &&& s1.var(name@) == Some(o->Value_0.joined())
        }),
{
}

/// A variable that is set and not null is the value of each substitution that would
/// put something in place of it, and nothing is changed.
pub proof fn set_variable_is_kept(strict: bool, name: String, w: Option<Word>, sh: Shell)
    requires
        sh.var(name@) matches Some(value) && value.len() > 0,
    ensures
        ({
            let p = Parameter::Var(name);
            let kept = (Outcome::Value(FieldsView::Single(sh.var(name@)->0)), sh);
            &&& substitution(ParameterSubstitution::Default(strict, p, w), sh) == kept
            &&& substitution(ParameterSubstitution::Assign(strict, p, w), sh) == kept
            &&& substitution(ParameterSubstitution::Error(strict, p, w), sh) == kept
        }),
{
    let value = sh.var(name@)->0;
    let fields = FieldsView::Single(value);
    assert(fields.list()[0].len() > 0);
    assert(!fields.null());
}

/// Where the `IFS` variable is empty, nothing is split.
pub proof fn empty_ifs_splits_nothing(fields: FieldsView, sh: Shell)
    requires
        sh.var("IFS"@) matches Some(ifs) && ifs.len() == 0,
        fields.proper(),
    ensures
        split_words(fields.list(), sh) == fields.list(),
        maybe_split(fields, true, sh) == fields,
{
}

/// Each field that a word is split into has a character, and none that fields are split at.
pub proof fn split_fields_are_proper(
    word: Seq<char>,
    ifs: Seq<char>,
    i: int,
    begun: Option<int>,
    k: int,
)
    requires
        0 <= i <= word.len(),
        begun matches Some(start) ==> {
            &&& 0 <= start < i
            &&& forall|j: int| start <= j < i ==> !ifs.contains(#[trigger] word[j])
        },
        0 <= k < fields_from(word, ifs, i, begun).len(),
    ensures
        ({
            let field = fields_from(word, ifs, i, begun)[k];
            &&& field.len() > 0
            &&& forall|j: int| 0 <= j < field.len() ==> !ifs.contains(#[trigger] field[j])
        }),
    decreases word.len() - i,
{
    if i < word.len() {
        match begun {
            Some(start) => {
                if ifs.contains(word[i]) {
                    if k > 0 {
                        split_fields_are_proper(word, ifs, i + 1, None, k - 1);
                    }
                } else {
                    split_fields_are_proper(word, ifs, i + 1, begun, k);
                }
            },
            None => {
                if ifs.contains(word[i]) {
                    split_fields_are_proper(word, ifs, i + 1, None, k);
                } else {
                    split_fields_are_proper(word, ifs, i + 1, Some(i), k);
                }
            },
        }
    }
}

/// No field that words are split into is empty, or has a character that fields are split at.
pub proof fn split_fields_have_no_separators(words: Seq<Seq<char>>, sh: Shell, k: int)
    requires
        separators(sh).len() > 0,
        0 <= k < split_words(words, sh).len(),
    ensures
        ({
            let field = split_words(words, sh)[k];
            &&& field.len() > 0
            &&& forall|j: int|
                0 <= j < field.len() ==> !separators(sh).contains(#[trigger] field[j])
        }),
    decreases words.len(),
{
    let ifs = separators(sh);
    if words.len() > 0 {
        let before = fields_of_all(words.drop_last(), ifs);
        if k < before.len() {
            split_fields_have_no_separators(words.drop_last(), sh, k);
        } else {
            split_fields_are_proper(words.last(), ifs, 0, None, k - before.len());
        }
    }
}

/// Fields that are split are those that their texts are split into, and there is at least one
/// where they do not have any special meaning.
pub proof fn split_fields_stay_proper(fields: FieldsView, sh: Shell)
    requires
        fields.proper(),
    ensures
        maybe_split(fields, true, sh).list() == split_words(fields.list(), sh),
        maybe_split(fields, true, sh).proper(),
{
    let parts = split_words(fields.list(), sh);
    if parts.len() == 1 {
        assert(parts =~= seq![parts[0]]);
    }
}

/// Wherever a word gives fields without a special meaning there is at least one of them,
/// and there are at least two where the word is one of words side by side
/// or within double quotes.
pub proof fn word_gives_fields(w: Word, sh: Shell, tilde: bool, split: bool)
    ensures
        word(w, sh, tilde, split).0 matches Outcome::Value(fields) ==> {
            &&& fields.proper()
            &&& (w is Concat || w is DoubleQuoted) && fields is Many ==> fields.list().len() >= 2
        },
    decreases w, 0nat,
{
    match w {
        Word::Param(p) => {
            let value = parameter(p, sh);
            if value is Value {
                split_fields_stay_proper(or_null(value->Value_0), sh);
            }
        },
        Word::Subst(s) => {
            substitution_gives_fields(*s, sh);
            let (o, s1) = substitution(*s, sh);
            if o is Value {
                split_fields_stay_proper(o->Value_0, s1);
            }
        },
        Word::Concat(words) => {
            lemma_concatenated_fields(words@, 0, Seq::empty(), sh, tilde, split);
        },
        Word::DoubleQuoted(words) => {
            lemma_quoted_fields(
                words@,
                0,
                Quoted::nothing(),
                sh,
            );
        },
        _ => {},
    }
}

/// Wherever a substitution gives fields without a special meaning
/// there is at least one of them.
pub proof fn substitution_gives_fields(s: ParameterSubstitution, sh: Shell)
    ensures
        substitution(s, sh).0 matches Outcome::Value(fields) ==> fields.proper(),
    decreases s, 0nat,
{
    match s {
        ParameterSubstitution::Default(_, _, Some(w)) => {
            word_gives_fields(w, sh, true, false);
        },
        ParameterSubstitution::Assign(_, _, Some(w)) => {
            word_gives_fields(w, sh, true, false);
        },
        ParameterSubstitution::Error(_, _, Some(w)) => {
            word_gives_fields(w, sh, true, false);
        },
        ParameterSubstitution::Alternative(_, _, Some(w)) => {
            word_gives_fields(w, sh, true, false);
        },
        _ => {},
    }
}

proof fn lemma_concatenated_fields(
    words: Seq<Word>,
    i: nat,
    fields: Seq<Seq<char>>,
    sh: Shell,
    tilde: bool,
    split: bool,
)
    ensures
        concatenated(words, i, fields, sh, tilde, split).0 matches Outcome::Value(f) ==> (f is Many
            ==> f.list().len() >= 2),
    decreases words.len() - i,
{
    if i < words.len() {
        let (o, s1) = word(words[i as int], sh, tilde, split);
        if o is Value {
            lemma_concatenated_fields(
                words,
                i + 1,
                adjoined(fields, o->Value_0.list()),
                s1,
                tilde,
                split,
            );
        }
    }
}

proof fn lemma_quoted_fields(words: Seq<Word>, i: nat, so_far: Quoted, sh: Shell)
    ensures
        quoted(words, i, so_far, sh).0 matches Outcome::Value(f) ==> (f is Many ==> f.list().len()
            >= 2),
    decreases words.len() - i,
{
    if i < words.len() {
        let (o, s1) = word(words[i as int], sh, false, false);
        if o is Value {
            match so_far.after(words[i as int], o->Value_0, s1) {
                Some(next) => {
                    lemma_quoted_fields(words, i + 1, next, s1);
                },
                None => {},
            }
        }
    }
}

/// A lone argument within double quotes makes one field with the text around it.
pub proof fn lone_argument_is_joined(
    words: Vec<Word>,
    before: String,
    after: String,
    sh: Shell,
    tilde: bool,
    split: bool,
)
    requires
        words@ == seq![Word::Literal(before), Word::Param(Parameter::At), Word::Literal(after)],
        sh.args.len() == 1,
    ensures
        word(Word::DoubleQuoted(words), sh, tilde, split) == (
            Outcome::Value(FieldsView::Single(before@ + sh.args[0] + after@)),
            sh,
        ),
{
    let start = Quoted::nothing();
    let first = start.with_text(before@);
    let second = first.with_fields(sh.args);
    let last = second.with_text(after@);
    assert(words@[0] == Word::Literal(before));
    assert(words@[1] == Word::Param(Parameter::At));
    assert(words@[2] == Word::Literal(after));
    assert(word(words@[0], sh, false, false) == (
        Outcome::Value(FieldsView::Single(before@)),
        sh,
    ));
    assert(word(words@[1], sh, false, false) == (Outcome::Value(FieldsView::At(sh.args)), sh));
    assert(word(words@[2], sh, false, false) == (
        Outcome::Value(FieldsView::Single(after@)),
        sh,
    ));
    assert(quoted(words@, 0, start, sh) == quoted(words@, 1, first, sh));
    assert(quoted(words@, 1, first, sh) == quoted(words@, 2, second, sh));
    assert(quoted(words@, 2, second, sh) == quoted(words@, 3, last, sh));
    assert(last.complete.push(last.current) =~= seq![last.current]);
    assert(last.current =~= before@ + sh.args[0] + after@);
}

/// Without arguments, `$@` gives no fields even within double quotes, however often it stands
/// there, unless something else does.
pub proof fn no_arguments_give_no_fields(words: Vec<Word>, sh: Shell, tilde: bool, split: bool)
    requires
        words@.len() > 0,
        forall|i: int|
            0 <= i < words@.len() ==> #[trigger] words@[i] == Word::Param(Parameter::At),
        sh.args.len() == 0,
    ensures
        word(Word::DoubleQuoted(words), sh, tilde, split) == (
            Outcome::Value(FieldsView::At(Seq::empty())),
            sh,
        ),
{
    lemma_no_arguments(words@, 0, sh);
}

proof fn lemma_no_arguments(words: Seq<Word>, i: nat, sh: Shell)
    requires
        i <= words.len(),
        words.len() > 0,
        forall|j: int| 0 <= j < words.len() ==> #[trigger] words[j] == Word::Param(Parameter::At),
        sh.args.len() == 0,
    ensures
        quoted(words, i, Quoted::nothing(), sh) == (
            Outcome::Value(FieldsView::At(Seq::empty())),
            sh,
        ),
    decreases words.len() - i,
{
    if i < words.len() {
        assert(words[i as int] == Word::Param(Parameter::At));
        assert(word(words[i as int], sh, false, false) == (
            Outcome::Value(FieldsView::At(sh.args)),
            sh,
        ));
        lemma_no_arguments(words, i + 1, sh);
    }
}

/// A word that gives text, be it empty, within double quotes gives a field there,
/// and so do double quotes without any word.
pub proof fn quoted_text_is_a_field(
    words: Vec<Word>,
    text: String,
    sh: Shell,
    tilde: bool,
    split: bool,
)
    requires
        words@.len() == 0 && text@.len() == 0 || words@ == seq![Word::Literal(text)],
    ensures
        word(Word::DoubleQuoted(words), sh, tilde, split) == (
            Outcome::Value(FieldsView::Single(text@)),
            sh,
        ),
{
    let start = Quoted::nothing();
    if words@.len() == 0 {
        assert(start.current =~= text@);
        assert(start.complete.push(start.current) =~= seq![text@]);
    } else {
        let one = start.with_text(text@);
        assert(words@[0] == Word::Literal(text));
        assert(word(words@[0], sh, false, false) == (
            Outcome::Value(FieldsView::Single(text@)),
            sh,
        ));
        assert(quoted(words@, 0, start, sh) == quoted(words@, 1, one, sh));
        assert(one.complete.push(one.current) =~= seq![text@]);
    }
}

/// A word without any character that fields are split at is a field by itself.
pub proof fn plain_word_is_not_split(word: Seq<char>, ifs: Seq<char>)
    requires
        word.len() > 0,
        forall|i: int| 0 <= i < word.len() ==> !ifs.contains(#[trigger] word[i]),
    ensures
        fields_from(word, ifs, 0, None) == seq![word],
{
    lemma_plain_rest(word, ifs, 1);
}

proof fn lemma_plain_rest(word: Seq<char>, ifs: Seq<char>, i: int)
    requires
        0 <= i <= word.len(),
        forall|j: int| 0 <= j < word.len() ==> !ifs.contains(#[trigger] word[j]),
    ensures
        fields_from(word, ifs, i, Some(0int)) == seq![word],
    decreases word.len() - i,
{
    if i < word.len() {
        lemma_plain_rest(word, ifs, i + 1);
    } else {
        assert(word.subrange(0, word.len() as int) =~= word);
    }
}

/// What is removed from a text matches the pattern, and nothing is removed
/// only where no part of the text that could be removed matches it.
pub proof fn removed_part_matches(how: Removal, text: Seq<char>, pattern: Seq<char>, k: int)
    ensures
        match how.cut(text, pattern) {
            Some(at) => {
                &&& 0 <= at <= text.len()
                &&& how.of_suffix() ==> at < text.len() && glob_matches(
                    pattern,
                    text.skip(at),
                    true,
                )
                &&& !how.of_suffix() ==> glob_matches(pattern, text.take(at), true)
            },
            None => {
                &&& how.left_of(text, pattern) == text
                &&& how.of_suffix() && 0 <= k < text.len() ==> !glob_matches(
                    pattern,
                    text.skip(k),
                    true,
                )
                &&& !how.of_suffix() && 0 <= k <= text.len() ==> !glob_matches(
                    pattern,
                    text.take(k),
                    true,
                )
            },
        },
{
    let suffix = |k: int| glob_matches(pattern, text.skip(k), true);
    let prefix = |k: int| glob_matches(pattern, text.take(k), true);
    lemma_hits(suffix, text.len() as int, k);
    lemma_hits(prefix, (text.len() + 1) as int, k);
}

/// The largest prefix or suffix that matches leaves no more of a text than the smallest one.
pub proof fn largest_leaves_least(text: Seq<char>, pattern: Seq<char>)
    ensures
        Removal::LargestSuffix.left_of(text, pattern).len() <= Removal::SmallestSuffix.left_of(
            text,
            pattern,
        ).len(),
        Removal::LargestPrefix.left_of(text, pattern).len() <= Removal::SmallestPrefix.left_of(
            text,
            pattern,
        ).len(),
{
    let suffix = |k: int| glob_matches(pattern, text.skip(k), true);
    let prefix = |k: int| glob_matches(pattern, text.take(k), true);
    lemma_hits(suffix, text.len() as int, 0);
    lemma_hits(prefix, (text.len() + 1) as int, 0);
}

proof fn lemma_hits(hit: spec_fn(int) -> bool, n: int, k: int)
    ensures
        first_hit(hit, n) is None && 0 <= k < n ==> !hit(k),
        first_hit(hit, n) is Some <==> last_hit(hit, n) is Some,
        first_hit(hit, n) matches Some(at) ==> 0 <= at < n && hit(at) && at <= last_hit(hit, n)->0,
        last_hit(hit, n) matches Some(at) ==> 0 <= at < n && hit(at),
    decreases n,
{
    if n > 0 {
        lemma_hits(hit, n - 1, k);
    }
}

/// A file descriptor is only ever duplicated from one that is open with the permission
/// that the redirection asks for.
pub proof fn duplicate_is_permitted<D, F>(r: Redirect, st: EnvView<D, F>)
    requires
        redirection(r, st).0 matches Outcome::Value(RedirectionView::Duplicate(_, _, _)),
    ensures
        redirection(r, st).0 matches Outcome::Value(RedirectionView::Duplicate(_, fdes, perms)) && {
            exists|from: Fd|
                (#[trigger] st.file_desc(from)) matches Some((source, had)) && source == fdes && (
                perms.reads() ==> had.reads()) && (perms.writes() ==> had.writes())
        },
{
    let src = match r {
        Redirect::DupRead(_, w) => path_of(w, st.shell).0->Value_0,
        Redirect::DupWrite(_, w) => path_of(w, st.shell).0->Value_0,
        _ => Seq::empty(),
    };
    let from = parsed(src, false, 0, Fd::MAX as int)->0 as Fd;
    assert(st.file_desc(from) is Some);
}

/// Where a file descriptor is not duplicated for want of a permission, the error names
/// that descriptor and the permission that the redirection asks for, and the status is recorded.
pub proof fn refused_duplicate_names_permission<D, F>(
    to: Option<Fd>,
    w: Word,
    readable: bool,
    from: Fd,
    st: EnvView<D, F>,
)
    requires
        path_of(w, st.shell).0 matches Outcome::Value(src) && src != "-"@ && parsed(
            src,
            false,
            0,
            Fd::MAX as int,
        ) == Some(from as int),
        st.file_desc(from) matches Some((_, had)) && !(if readable {
            had.reads()
        } else {
            had.writes()
        }),
    ensures
        ({
            let r = if readable {
                Redirect::DupRead(to, w)
            } else {
                Redirect::DupWrite(to, w)
            };
            redirection(r, st) == (
                Outcome::<RedirectionView<D>>::Error(
                    ErrorView::RedirectBadFdPerms(from, asked_for(readable)),
                ),
                path_of(w, st.shell).1.with_status(ExitStatus::Code(EXIT_ERROR)),
            )
        }),
{
}

/// Errors that count as the same do so in any order, and over a third one.
pub proof fn same_errors(a: ErrorView, b: ErrorView, c: ErrorView)
    ensures
        a.same(a),
        a.same(b) == b.same(a),
        a.same(b) && b.same(c) ==> a.same(c),
{
}

} // verus!
