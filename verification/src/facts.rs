//! What holds of values and environments: how texts and fields are put together, what statuses
//! and permissions say, what errors tell, and what environments keep.

use crate::ast::{parameter_text, Parameter};
use crate::env::{config_view, EnvView, ProcessInfo, Shell};
use crate::error::ErrorView;
use crate::fields::FieldsView;
use crate::io::{Fd, IoError, Permissions};
use crate::laws::{last_export_counts, only_listed_are_exported};
use crate::number::decimal;
use crate::pattern::{first_hit, glob_matches, last_hit, Removal};
use crate::status::ExitStatus;
use crate::text::{non_empty, separated};
use std::rc::Rc;
use vstd::prelude::*;

verus! {

/// Texts that are joined with a separator: none give an empty text, one is itself, and one more
/// stands behind the others and a separator.
pub proof fn joined_texts_are_in_order(parts: Seq<Seq<char>>, x: Seq<char>, separator: Seq<char>)
    ensures
        separated(Seq::empty(), separator) == Seq::<char>::empty(),
        separated(seq![x], separator) == x,
        parts.len() > 0 ==> separated(parts.push(x), separator) == separated(parts, separator)
            + separator + x,
{
    assert(parts.push(x).drop_last() =~= parts);
}

/// The texts of a list that are not empty are all kept, in order, and no others.
pub proof fn empty_texts_are_left_out(parts: Seq<Seq<char>>, x: Seq<char>)
    ensures
        non_empty(Seq::empty()) == Seq::<Seq<char>>::empty(),
        x.len() == 0 ==> non_empty(parts.push(x)) == non_empty(parts),
        x.len() > 0 ==> non_empty(parts.push(x)) == non_empty(parts).push(x),
{
    assert(parts.push(x).drop_last() =~= parts);
}

/// Fields have their texts in order. They are null where all of these are empty. As one text,
/// a single field is itself, and the others are joined with spaces, without the empty ones.
pub proof fn fields_have_texts(s: Seq<char>, v: Seq<Seq<char>>, i: int)
    ensures
        FieldsView::Single(s).list() == seq![s],
        FieldsView::At(v).list() == v,
        FieldsView::Star(v).list() == v,
        FieldsView::Many(v).list() == v,
        FieldsView::Single(s).null() <==> s.len() == 0,
        0 <= i < v.len() && v[i].len() > 0 ==> {
            &&& !FieldsView::At(v).null()
            &&& !FieldsView::Star(v).null()
            &&& !FieldsView::Many(v).null()
        },
        (forall|k: int| 0 <= k < v.len() ==> #[trigger] v[k].len() == 0) ==> {
            &&& FieldsView::At(v).null()
            &&& FieldsView::Star(v).null()
            &&& FieldsView::Many(v).null()
        },
        FieldsView::Single(s).joined() == s,
        FieldsView::At(v).joined() == separated(non_empty(v), " "@),
        FieldsView::Star(v).joined() == separated(non_empty(v), " "@),
        FieldsView::Many(v).joined() == separated(non_empty(v), " "@),
{
    assert(FieldsView::Single(s).list()[0] == s);
    if 0 <= i < v.len() {
        assert(FieldsView::At(v).list()[i] == v[i]);
        assert(FieldsView::Star(v).list()[i] == v[i]);
        assert(FieldsView::Many(v).list()[i] == v[i]);
    }
}

/// A command succeeds if and only if it ends by itself with the code zero. A process has the code
/// that it ended with, or else the signal that ended it, or else the code of an error.
pub proof fn statuses_tell(c: i32, signal: Option<i32>)
    ensures
        ExitStatus::Code(c).is_success() <==> c == 0,
        !ExitStatus::Signal(c).is_success(),
        ExitStatus::of_process(Some(c), signal) == ExitStatus::Code(c),
        ExitStatus::of_process(None, Some(c)) == ExitStatus::Signal(c),
        ExitStatus::of_process(None, None) == ExitStatus::Code(1),
        ExitStatus::Code(c).text() == "exit code: "@ + decimal(c as int),
        ExitStatus::Signal(c).text() == "signal: "@ + decimal(c as int),
        c >= 0 ==> ExitStatus::Code(c).number() == Some(c as int),
        c >= 0 ==> ExitStatus::Signal(c).number() == Some(128 + c),
        c < 0 ==> ExitStatus::Code(c).number() == Some(0x1_0000_0000 + c),
        c < -128 ==> ExitStatus::Signal(c).number() == Some(0x1_0000_0000 + 128 + c),
        -128 <= c < 0 ==> ExitStatus::Signal(c).number() is None,
{
}

/// What a descriptor was opened for is what is allowed.
pub proof fn permissions_allow(p: Permissions)
    ensures
        p.reads() || p.writes(),
        p.reads() && p.writes() <==> p == Permissions::ReadWrite,
        !p.writes() <==> p == Permissions::Read,
        !p.reads() <==> p == Permissions::Write,
        !p.writes() ==> p.text() == "read"@,
        !p.reads() ==> p.text() == "write"@,
        p.reads() && p.writes() ==> p.text() == "read/write"@,
{
}

/// A parameter is written as in a script, with braces around a name or several digits.
pub proof fn parameters_are_written(n: u32, name: String)
    ensures
        parameter_text(Parameter::At) == seq!['$', '@'],
        parameter_text(Parameter::Star) == seq!['$', '*'],
        parameter_text(Parameter::Pound) == seq!['$', '#'],
        parameter_text(Parameter::Question) == seq!['$', '?'],
        parameter_text(Parameter::Dash) == seq!['$', '-'],
        parameter_text(Parameter::Dollar) == seq!['$', '$'],
        parameter_text(Parameter::Bang) == seq!['$', '!'],
        n < 10 ==> parameter_text(Parameter::Positional(n)) == seq!['$'] + decimal(n as int),
        n >= 10 ==> parameter_text(Parameter::Positional(n)) == seq!['$', '{'] + decimal(n as int)
            + seq!['}'],
        parameter_text(Parameter::Var(name)) == seq!['$', '{'] + name@ + seq!['}'],
{
}

/// The message of an error names what it is about.
pub proof fn errors_name_their_cause(
    c: Seq<char>,
    p: Parameter,
    list: Seq<Seq<char>>,
    fd: Fd,
    perms: Permissions,
    e: IoError,
)
    ensures
        ErrorView::Io(e).message() == e.message@,
        ErrorView::Io(e).description() == e.description@,
        ErrorView::Unimplemented(c).message() == c,
        ErrorView::Unimplemented(c).description() == c,
        ErrorView::CommandNotFound(c).message() == c + ": command not found"@,
        ErrorView::CommandNotExecutable(c).message() == c + ": command not executable"@,
        ErrorView::BadAssig(p).message() == parameter_text(p) + ": cannot assign in this way"@,
        ErrorView::EmptyParameter(p, c).message() == parameter_text(p) + ": "@ + c,
        ErrorView::RedirectAmbiguous(list).message()
            == "a redirect path evaluated to multiple fields"@ + ": "@ + separated(list, " "@),
        ErrorView::RedirectBadFdSrc(c).message()
            == "attempted to duplicate an invalid file descriptor"@ + ": "@ + c,
        ErrorView::RedirectBadFdPerms(fd, perms).message() == ErrorView::RedirectBadFdPerms(
            fd,
            perms,
        ).description() + ": "@ + decimal(fd as int) + ", desired permissions: "@ + perms.text(),
        ErrorView::DivideByZero.message() == "attempted to divide by zero"@,
        ErrorView::NegativeExponent.message() == "attempted to raise to a negative power"@,
{
}

/// The description of an error is that of its kind, whatever it is about.
pub proof fn errors_are_described_by_kind(
    c: Seq<char>,
    p: Parameter,
    list: Seq<Seq<char>>,
    fd: Fd,
    perms: Permissions,
)
    ensures
        ErrorView::CommandNotFound(c).description() == "command not found"@,
        ErrorView::CommandNotExecutable(c).description() == "command not executable"@,
        ErrorView::BadAssig(p).description() == "attempted to assign a special parameter"@,
        ErrorView::EmptyParameter(p, c).description()
            == "attempted to evaluate a null or unset parameter"@,
        ErrorView::RedirectAmbiguous(list).description()
            == "a redirect path evaluated to multiple fields"@,
        ErrorView::RedirectBadFdSrc(c).description()
            == "attempted to duplicate an invalid file descriptor"@,
        ErrorView::RedirectBadFdPerms(fd, perms).description()
            == "attmpted to duplicate a file descritpr with Read/Write access that differs from the original"@,
{
}

/// Errors count as the same where they are of one kind and about the same thing. Those of the
/// system are so where their own kinds are.
pub proof fn errors_are_compared(
    a: IoError,
    b: IoError,
    c: Seq<char>,
    d: Seq<char>,
    n: u32,
    m: u32,
    x: String,
    y: String,
)
    ensures
        ErrorView::Io(a).same(ErrorView::Io(b)) <==> a.kind == b.kind,
        ErrorView::CommandNotFound(c).same(ErrorView::CommandNotFound(d)) <==> c == d,
        ErrorView::CommandNotExecutable(c).same(ErrorView::CommandNotExecutable(d)) <==> c == d,
        ErrorView::Unimplemented(c).same(ErrorView::Unimplemented(d)) <==> c == d,
        ErrorView::RedirectBadFdSrc(c).same(ErrorView::RedirectBadFdSrc(d)) <==> c == d,
        !ErrorView::CommandNotFound(c).same(ErrorView::CommandNotExecutable(c)),
        !ErrorView::Io(a).same(ErrorView::CommandNotFound(c)),
        ErrorView::BadAssig(Parameter::Var(x)).same(ErrorView::BadAssig(Parameter::Var(y)))
            <==> x@ == y@,
        ErrorView::BadAssig(Parameter::Positional(n)).same(
            ErrorView::BadAssig(Parameter::Positional(m)),
        ) <==> n == m,
        ErrorView::EmptyParameter(Parameter::Var(x), c).same(
            ErrorView::EmptyParameter(Parameter::Var(y), d),
        ) <==> x@ == y@ && c == d,
        !Parameter::At.same(Parameter::Star),
        !Parameter::Var(x).same(Parameter::Positional(n)),
{
}

/// A new environment has the name that was given, or else that of the process, or else none,
/// and the arguments that were given, in order. Nothing else is set, and the last status
/// is a success.
pub proof fn new_environment_is_configured<D, F>(
    name: Option<String>,
    args: Option<Vec<String>>,
    env: Option<Vec<(String, String)>>,
    process: ProcessInfo,
    i: int,
    other: Seq<char>,
    fd: Fd,
)
    ensures
        ({
            let st = config_view::<D, F>(name, args, env, process);
            &&& name matches Some(n) ==> st.shell.name == n@
            &&& name is None ==> st.shell.name == (match process.name {
                Some(n) => n@,
                None => Seq::empty(),
            })
            &&& args is None ==> st.shell.args.len() == 0
            &&& args matches Some(list) ==> {
                &&& st.shell.args.len() == list@.len()
                &&& 0 <= i < list@.len() ==> st.shell.args[i] == list@[i]@ && st.shell.arg(i + 1)
                    == Some(list@[i]@)
            }
            &&& st.shell.arg(0) == Some(st.shell.name)
            &&& st.shell.arg((st.shell.args.len() + 1) as int) is None
            &&& st.shell.status == ExitStatus::Code(0)
            &&& st.shell.pid == process.pid
            &&& st.function(other) is None
            &&& st.file_desc(fd) is None
            &&& st.rooted() && !st.nested
        }),
{
}

/// A new environment exports the variables that were given, or else those of the process,
/// and has no others.
pub proof fn new_environment_exports<D, F>(
    name: Option<String>,
    args: Option<Vec<String>>,
    env: Option<Vec<(String, String)>>,
    process: ProcessInfo,
    pairs: Seq<(String, String)>,
    i: int,
    other: Seq<char>,
)
    requires
        pairs == (match env {
            Some(given) => given@,
            None => process.vars@,
        }),
        0 <= i < pairs.len(),
        forall|j: int| i < j < pairs.len() ==> (#[trigger] pairs[j]).0@ != pairs[i].0@,
        forall|j: int| 0 <= j < pairs.len() ==> (#[trigger] pairs[j]).0@ != other,
    ensures
        ({
            let st = config_view::<D, F>(name, args, env, process);
            &&& st.shell.var(pairs[i].0@) == Some(pairs[i].1@)
            &&& st.shell.exported(pairs[i].0@) == Some(pairs[i].1@)
            &&& st.shell.var(other) is None
        }),
{
    last_export_counts(pairs, i);
    only_listed_are_exported(pairs, other);
}

/// The variables that are given to programs are those that are exported, with their values.
/// A variable that is exported has that value in the shell.
pub proof fn exports_are_values(sh: Shell, name: Seq<char>)
    ensures
        sh.exports().dom().contains(name) <==> sh.exported(name) is Some,
        sh.exported(name) matches Some(value) ==> sh.exports()[name] == value && sh.var(name)
            == Some(value),
{
}

/// A status that is recorded is the last one, and nothing else changes.
pub proof fn recorded_status_is_last<D, F>(
    st: EnvView<D, F>,
    status: ExitStatus,
    name: Seq<char>,
    fd: Fd,
)
    ensures
        ({
            let st1 = st.with_shell(st.shell.with_status(status));
            &&& st1.shell.status == status
            &&& st1.shell.name == st.shell.name && st1.shell.args == st.shell.args
            &&& st1.shell.var(name) == st.shell.var(name)
            &&& st1.shell.exported(name) == st.shell.exported(name)
            &&& st1.function(name) == st.function(name)
            &&& st1.file_desc(fd) == st.file_desc(fd)
        }),
{
}

/// An assignment in an environment changes the variable and nothing else.
pub proof fn assignment_changes_nothing_else<D, F>(
    st: EnvView<D, F>,
    x: Seq<char>,
    value: Seq<char>,
    name: Seq<char>,
    fd: Fd,
)
    ensures
        ({
            let st1 = st.with_shell(st.shell.with_var(x, value));
            &&& st1.shell.var(x) == Some(value)
            &&& name != x ==> st1.shell.var(name) == st.shell.var(name)
            &&& st1.shell.status == st.shell.status && st1.shell.name == st.shell.name
            &&& st1.shell.args == st.shell.args && st1.shell.pid == st.shell.pid
            &&& st1.function(name) == st.function(name)
            &&& st1.file_desc(fd) == st.file_desc(fd)
        }),
{
}

/// What is set of descriptors and functions changes nothing of the shell, and descriptors
/// and functions do not change each other. A call changes the name and the arguments only.
pub proof fn descriptors_and_functions_are_apart<D, F>(
    st: EnvView<D, F>,
    name: Seq<char>,
    func: F,
    fd: Fd,
    fdes: Rc<D>,
    perms: Permissions,
    args: Seq<Seq<char>>,
)
    ensures
        st.with_function(name, func).shell == st.shell,
        st.with_function(name, func).file_desc(fd) == st.file_desc(fd),
        st.with_file_desc(fd, fdes, perms).shell == st.shell,
        st.with_file_desc(fd, fdes, perms).function(name) == st.function(name),
        st.without_file_desc(fd).shell == st.shell,
        st.without_file_desc(fd).function(name) == st.function(name),
        st.calling(name, args).shell.args == args,
        st.calling(name, args).shell.name == name,
        st.calling(name, args).function(name) == st.function(name),
        st.calling(name, args).file_desc(fd) == st.file_desc(fd),
        st.calling(name, args).shell.var(name) == st.shell.var(name),
        st.calling(name, args).shell.status == st.shell.status,
{
}

/// A suffix or prefix that is removed is the smallest or the largest one that matches:
/// none that is smaller or larger does. What is left is the rest of the text,
/// and all of it where nothing matches.
pub proof fn removed_part_is_extreme(text: Seq<char>, pattern: Seq<char>, k: int)
    ensures
        ({
            let left = Removal::SmallestSuffix.left_of(text, pattern);
            &&& left.is_prefix_of(text)
            &&& left != text ==> glob_matches(pattern, text.skip(left.len() as int), true)
            &&& left.len() < k < text.len() ==> !glob_matches(pattern, text.skip(k), true)
            &&& left == text && 0 <= k < text.len() ==> !glob_matches(
                pattern,
                text.skip(k),
                true,
            )
        }),
        ({
            let left = Removal::LargestSuffix.left_of(text, pattern);
            &&& left.is_prefix_of(text)
            &&& left != text ==> glob_matches(pattern, text.skip(left.len() as int), true)
            &&& 0 <= k < left.len() ==> !glob_matches(pattern, text.skip(k), true)
        }),
        ({
            let left = Removal::SmallestPrefix.left_of(text, pattern);
            let cut = text.len() - left.len();
            &&& left.is_suffix_of(text)
            &&& left != text ==> glob_matches(pattern, text.take(cut), true)
            &&& 0 <= k < cut ==> !glob_matches(pattern, text.take(k), true)
            &&& left == text && 0 < k <= text.len() && glob_matches(pattern, text.take(k), true)
                ==> glob_matches(pattern, Seq::empty(), true)
        }),
        ({
            let left = Removal::LargestPrefix.left_of(text, pattern);
            let cut = text.len() - left.len();
            &&& left.is_suffix_of(text)
            &&& left != text ==> glob_matches(pattern, text.take(cut), true)
            &&& cut < k <= text.len() ==> !glob_matches(pattern, text.take(k), true)
        }),
{
    let suffix = |k: int| glob_matches(pattern, text.skip(k), true);
    let prefix = |k: int| glob_matches(pattern, text.take(k), true);
    let n = text.len() as int;
    lemma_extreme_hits(suffix, n, k);
    lemma_extreme_hits(prefix, n + 1, k);
    assert(text.take(0) =~= Seq::<char>::empty());
    assert(text.skip(0) =~= text);
    match first_hit(prefix, n + 1) {
        Some(at) => {
            assert(text.skip(at) =~= text.subrange(at, n));
            assert(text =~= text.take(at) + text.skip(at));
        },
        None => {},
    }
    match last_hit(prefix, n + 1) {
        Some(at) => {
            assert(text =~= text.take(at) + text.skip(at));
        },
        None => {},
    }
}

proof fn lemma_extreme_hits(hit: spec_fn(int) -> bool, n: int, k: int)
    ensures
        first_hit(hit, n) is None && 0 <= k < n ==> !hit(k),
        last_hit(hit, n) is None && 0 <= k < n ==> !hit(k),
        first_hit(hit, n) matches Some(at) ==> 0 <= at < n && hit(at) && (0 <= k < at ==> !hit(k)),
        last_hit(hit, n) matches Some(at) ==> 0 <= at < n && hit(at) && (at < k < n ==> !hit(k)),
    decreases n,
{
    if n > 0 {
        lemma_extreme_hits(hit, n - 1, k);
    }
}

/// What is removed from fields is removed from each of them, and they stay what they are.
pub proof fn removal_is_for_each_field(
    how: Removal,
    s: Seq<char>,
    v: Seq<Seq<char>>,
    pattern: Seq<char>,
    i: int,
)
    ensures
        how.left_of_fields(FieldsView::Single(s), pattern) == FieldsView::Single(
            how.left_of(s, pattern),
        ),
        ({
            let at = how.left_of_fields(FieldsView::At(v), pattern);
            let star = how.left_of_fields(FieldsView::Star(v), pattern);
            let many = how.left_of_fields(FieldsView::Many(v), pattern);
            &&& at is At && star is Star && many is Many
            &&& at.list() == star.list()
            &&& at.list() == many.list()
            &&& at.list().len() == v.len()
            &&& 0 <= i < v.len() ==> at.list()[i] == how.left_of(v[i], pattern)
        }),
{
}

} // verus!
