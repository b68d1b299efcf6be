//! The evaluation of words, and of the substitutions in them.

use crate::arith::arith;
use crate::ast::{Parameter, ParameterSubstitution, Word};
use crate::env::{Environment, Shell};
use crate::error::{ErrorView, RuntimeError};
use crate::fields::{null_field, Fields, FieldsView};
use crate::number::{decimal, to_decimal};
use crate::outcome::{evaluated, Abort, Outcome};
use crate::param::{fields_view, parameter};
use crate::split::{split_fields, split_words};
use crate::text::{chars_of, concat_texts, join_texts, separated, share, string_of, texts};
use std::rc::Rc;
use vstd::prelude::*;
use vstd::string::*;
use vstd::utf8::encode_utf8;

verus! {

/// The fields that a substitution or a parameter gives, split further if that is asked for.
/// A single field that is split into one stays single. Where nothing is left
/// of fields without a special meaning, they are no fields at all.
pub open spec fn maybe_split(fields: FieldsView, split: bool, sh: Shell) -> FieldsView {
    if !split {
        fields
    } else {
        let parts = split_words(fields.list(), sh);
        match fields {
            FieldsView::At(_) => FieldsView::At(parts),
            FieldsView::Star(_) => FieldsView::Star(parts),
            _ => if parts.len() == 0 {
                FieldsView::At(parts)
            } else if parts.len() == 1 && fields is Single {
                FieldsView::Single(parts[0])
            } else {
                FieldsView::Many(parts)
            },
        }
    }
}

/// Two lists of fields side by side: the last of the first list and the first of
/// the second list become one field.
pub open spec fn adjoined(first: Seq<Seq<char>>, second: Seq<Seq<char>>) -> Seq<Seq<char>> {
    if second.len() == 0 {
        first
    } else if first.len() == 0 {
        second
    } else {
        first.drop_last().push(first.last() + second[0]) + second.skip(1)
    }
}

/// A list as fields: a single one where there is but one, and an empty one where there is none.
pub open spec fn gathered(list: Seq<Seq<char>>) -> FieldsView {
    if list.len() == 0 {
        null_field()
    } else if list.len() == 1 {
        FieldsView::Single(list[0])
    } else {
        FieldsView::Many(list)
    }
}

/// What `$*` is within double quotes: the arguments with the first character of
/// the `IFS` variable between them, with nothing where it is empty, and with a space where it is
/// unset. There is no meaning where that character is not an ASCII one.
pub open spec fn star_text(list: Seq<Seq<char>>, sh: Shell) -> Option<Seq<char>> {
    match sh.var("IFS"@) {
        Some(ifs) => if ifs.len() == 0 {
            Some(separated(list, Seq::empty()))
        } else if ifs[0] <= '\u{7f}' {
            Some(separated(list, seq![ifs[0]]))
        } else {
            None
        },
        None => Some(separated(list, " "@)),
    }
}

/// What stands within double quotes so far: the fields that are complete,
/// and the text of the one that is not, if that was begun.
pub struct Quoted {
    pub complete: Seq<Seq<char>>,
    pub current: Seq<char>,
    pub begun: bool,
}

impl Quoted {
    /// Before anything.
    pub open spec fn nothing() -> Quoted {
        Quoted { complete: Seq::empty(), current: Seq::empty(), begun: false }
    }

    /// The fields at the end of some words. The field that is not complete counts even if it is
    /// empty, as it does where there are no words at all. But where each of the words gave
    /// no fields, as `$@` does without arguments, there are none.
    pub open spec fn fields(self, words: Seq<Word>) -> FieldsView {
        if self.begun || words.len() == 0 {
            gathered(self.complete.push(self.current))
        } else {
            FieldsView::At(Seq::empty())
        }
    }

    /// After more text, be it empty.
    pub open spec fn with_text(self, text: Seq<char>) -> Quoted {
        Quoted { current: self.current + text, begun: true, ..self }
    }

    /// After fields that are kept apart: the first one joins the current field. Where there are
    /// several, that field is complete with it, and the last one of them is the current one.
    pub open spec fn with_fields(self, list: Seq<Seq<char>>) -> Quoted {
        if list.len() == 0 {
            self
        } else if list.len() == 1 {
            self.with_text(list[0])
        } else {
            Quoted {
                complete: self.complete.push(self.current + list[0]) + list.subrange(
                    1,
                    list.len() - 1,
                ),
                current: list.last(),
                begun: true,
            }
        }
    }

    /// After a word that gave the given fields, if that has a meaning.
    pub open spec fn after(self, w: Word, fields: FieldsView, sh: Shell) -> Option<Quoted> {
        match fields {
            FieldsView::Single(s) => Some(self.with_text(s)),
            FieldsView::At(list) => Some(self.with_fields(list)),
            FieldsView::Star(list) => match star_text(list, sh) {
                Some(text) => Some(self.with_text(text)),
                None => None,
            },
            FieldsView::Many(list) => match w {
                Word::DoubleQuoted(_) => Some(self.with_fields(list)),
                Word::Concat(_) => Some(self.with_text(separated(list, Seq::empty()))),
                _ => None,
            },
        }
    }
}

/// The value of a parameter, where it settles a substitution: a value that is not null,
/// or in place of a null one the single empty field unless the substitution is strict.
pub open spec fn settled(value: Option<FieldsView>, strict: bool) -> Option<FieldsView> {
    match value {
        Some(fields) => if !fields.null() {
            Some(fields)
        } else if !strict {
            Some(null_field())
        } else {
            None
        },
        None => None,
    }
}

/// The length of the value of a parameter: the number of bytes of a single field in UTF-8,
/// or the number of arguments.
pub open spec fn length(value: Option<FieldsView>) -> Outcome<FieldsView> {
    match value {
        None => Outcome::Value(FieldsView::Single(decimal(0))),
        Some(FieldsView::Single(s)) => Outcome::Value(
            FieldsView::Single(decimal(encode_utf8(s).len() as usize as int)),
        ),
        Some(FieldsView::At(list)) => Outcome::Value(
            FieldsView::Single(decimal(list.len() as int)),
        ),
        Some(FieldsView::Star(list)) => Outcome::Value(
            FieldsView::Single(decimal(list.len() as int)),
        ),
        Some(FieldsView::Many(_)) => Outcome::Undefined,
    }
}

/// The fields of a parameter, or the single empty field.
pub open spec fn or_null(value: Option<FieldsView>) -> FieldsView {
    match value {
        Some(fields) => fields,
        None => null_field(),
    }
}

/// What a word evaluates to, and the shell afterwards.
pub open spec fn word(w: Word, sh: Shell, tilde: bool, split: bool) -> (Outcome<FieldsView>, Shell)
    decreases w, 0nat,
{
    match w {
        Word::Literal(s) => (Outcome::Value(FieldsView::Single(s@)), sh),
        Word::SingleQuoted(s) => (Outcome::Value(FieldsView::Single(s@)), sh),
        Word::Escaped(s) => (Outcome::Value(FieldsView::Single(s@)), sh),
        Word::Star => (Outcome::Value(FieldsView::Single("*"@)), sh),
        Word::Question => (Outcome::Value(FieldsView::Single("?"@)), sh),
        Word::SquareOpen => (Outcome::Value(FieldsView::Single("]"@)), sh),
        Word::SquareClose => (Outcome::Value(FieldsView::Single("["@)), sh),
        Word::Tilde => if !tilde {
            (Outcome::Value(FieldsView::Single("~"@)), sh)
        } else {
            match sh.var("HOME"@) {
                Some(home) => (Outcome::Value(FieldsView::Single(home)), sh),
                None => (Outcome::Value(null_field()), sh),
            }
        },
        Word::Param(p) => match parameter(p, sh) {
            Outcome::Value(value) => (Outcome::Value(maybe_split(or_null(value), split, sh)), sh),
            o => (o.without_value(), sh),
        },
        Word::Subst(s) => {
            let (o, s1) = substitution(*s, sh);
            match o {
                Outcome::Value(fields) => (Outcome::Value(maybe_split(fields, split, s1)), s1),
                _ => (o, s1),
            }
        },
        Word::Concat(words) => concatenated(words@, 0, Seq::empty(), sh, tilde, split),
        Word::DoubleQuoted(words) => quoted(
            words@,
            0,
            Quoted::nothing(),
            sh,
        ),
    }
}

/// What words that stand side by side evaluate to from an index on,
/// after the given fields.
pub open spec fn concatenated(
    words: Seq<Word>,
    i: nat,
    fields: Seq<Seq<char>>,
    sh: Shell,
    tilde: bool,
    split: bool,
) -> (Outcome<FieldsView>, Shell)
    decreases words, words.len() - i,
{
    if i >= words.len() {
        (Outcome::Value(gathered(fields)), sh)
    } else {
        let (o, s1) = word(words[i as int], sh, tilde, split);
        match o {
            Outcome::Value(f) => concatenated(
                words,
                i + 1,
                adjoined(fields, f.list()),
                s1,
                tilde,
                split,
            ),
            _ => (o, s1),
        }
    }
}

/// What words within double quotes evaluate to from an index on. Within double quotes,
/// tildes are not expanded and fields are not split.
pub open spec fn quoted(words: Seq<Word>, i: nat, so_far: Quoted, sh: Shell) -> (
    Outcome<FieldsView>,
    Shell,
)
    decreases words, words.len() - i,
{
    if i >= words.len() {
        (Outcome::Value(so_far.fields(words)), sh)
    } else {
        let (o, s1) = word(words[i as int], sh, false, false);
        match o {
            Outcome::Value(f) => match so_far.after(words[i as int], f, s1) {
                Some(next) => quoted(words, i + 1, next, s1),
                None => (Outcome::Undefined, s1),
            },
            _ => (o, s1),
        }
    }
}

/// What a word that may be missing evaluates to, without its fields being split:
/// the single empty field where it is missing.
pub open spec fn fallback(w: Option<Word>, sh: Shell) -> (Outcome<FieldsView>, Shell)
    decreases w, 0nat,
{
    match w {
        Some(w) => word(w, sh, true, false),
        None => (Outcome::Value(null_field()), sh),
    }
}

/// What a substitution evaluates to, and the shell afterwards.
///
/// Neither the output of commands nor a pattern has a meaning.
pub open spec fn substitution(s: ParameterSubstitution, sh: Shell) -> (Outcome<FieldsView>, Shell)
    decreases s, 0nat,
{
    match s {
        ParameterSubstitution::Command(_) => (Outcome::Undefined, sh),
        ParameterSubstitution::Len(p) => match parameter(p, sh) {
            Outcome::Value(value) => (length(value), sh),
            o => (o.without_value(), sh),
        },
        ParameterSubstitution::Arithmetic(None) => (
            Outcome::Value(FieldsView::Single(decimal(0))),
            sh,
        ),
        ParameterSubstitution::Arithmetic(Some(a)) => {
            let (o, s1) = arith(a, sh);
            match o {
                Outcome::Value(n) => (Outcome::Value(FieldsView::Single(decimal(n as int))), s1),
                _ => (o.without_value(), s1),
            }
        },
        ParameterSubstitution::Default(strict, p, default) => match parameter(p, sh) {
            Outcome::Value(value) => match settled(value, strict) {
                Some(fields) => (Outcome::Value(fields), sh),
                None => fallback(default, sh),
            },
            o => (o.without_value(), sh),
        },
        ParameterSubstitution::Assign(strict, p, assigned) => match parameter(p, sh) {
            Outcome::Value(value) => match settled(value, strict) {
                Some(fields) => (Outcome::Value(fields), sh),
                None => match p {
                    Parameter::Var(name) => {
                        let (o, s1) = fallback(assigned, sh);
                        match o {
                            Outcome::Value(fields) => (o, s1.with_var(name@, fields.joined())),
                            _ => (o, s1),
                        }
                    },
                    _ => (Outcome::Error(ErrorView::BadAssig(p)), sh),
                },
            },
            o => (o.without_value(), sh),
        },
        ParameterSubstitution::Error(strict, p, message) => match parameter(p, sh) {
            Outcome::Value(value) => match settled(value, strict) {
                Some(fields) => (Outcome::Value(fields), sh),
                None => match message {
                    None => (
                        Outcome::Error(
                            ErrorView::EmptyParameter(p, "parameter null or not set"@),
                        ),
                        sh,
                    ),
                    Some(_) => {
                        let (o, s1) = fallback(message, sh);
                        match o {
                            Outcome::Value(fields) => (
                                Outcome::Error(ErrorView::EmptyParameter(p, fields.joined())),
                                s1,
                            ),
                            _ => (o, s1),
                        }
                    },
                },
            },
            o => (o.without_value(), sh),
        },
        ParameterSubstitution::Alternative(strict, p, alternative) => match parameter(p, sh) {
            Outcome::Value(Some(fields)) => if strict && fields.null() {
                (Outcome::Value(null_field()), sh)
            } else {
                fallback(alternative, sh)
            },
            Outcome::Value(None) => (Outcome::Value(null_field()), sh),
            o => (o.without_value(), sh),
        },
        ParameterSubstitution::RemoveSmallestSuffix(p, pattern)
        | ParameterSubstitution::RemoveLargestSuffix(p, pattern)
        | ParameterSubstitution::RemoveSmallestPrefix(p, pattern)
        | ParameterSubstitution::RemoveLargestPrefix(p, pattern) => match (
            pattern,
            parameter(p, sh),
        ) {
            (None, Outcome::Value(value)) => (Outcome::Value(or_null(value)), sh),
            (None, o) => (o.without_value(), sh),
            (Some(_), _) => (Outcome::Undefined, sh),
        },
    }
}

/// What a word evaluates to as a value that is assigned: one text, where the arguments of
/// `$*` have a single space between them.
pub open spec fn assignment(w: Word, sh: Shell) -> (Outcome<Seq<char>>, Shell) {
    let (o, s1) = word(w, sh, true, false);
    match o {
        Outcome::Value(FieldsView::Star(list)) => (Outcome::Value(separated(list, " "@)), s1),
        Outcome::Value(fields) => (Outcome::Value(fields.joined()), s1),
        _ => (o.without_value(), s1),
    }
}

/// The fields that words evaluate to, from an index on and after the given fields.
pub open spec fn all_fields(words: Seq<Word>, i: nat, fields: Seq<Seq<char>>, sh: Shell) -> (
    Outcome<Seq<Seq<char>>>,
    Shell,
)
    decreases words.len() - i,
{
    if i >= words.len() {
        (Outcome::Value(fields), sh)
    } else {
        let (o, s1) = word(words[i as int], sh, true, true);
        match o {
            Outcome::Value(f) => all_fields(words, i + 1, fields + f.list(), s1),
            _ => (o.without_value(), s1),
        }
    }
}

/// The outcome that a result with fields shows.
pub open spec fn fields_outcome(result: Result<Fields, Abort>) -> Outcome<FieldsView> {
    match result {
        Ok(fields) => Outcome::Value(fields@),
        Err(abort) => abort.outcome(),
    }
}

/// The outcome that a result with a text shows.
pub open spec fn text_outcome(result: Result<Rc<String>, Abort>) -> Outcome<Seq<char>> {
    match result {
        Ok(text) => Outcome::Value(text@),
        Err(abort) => abort.outcome(),
    }
}

/// The outcome that a result with a text shows, where a meaning is known.
pub open spec fn defined_text(result: Result<Rc<String>, RuntimeError>) -> Outcome<Seq<char>> {
    match result {
        Ok(text) => Outcome::Value(text@),
        Err(e) => Outcome::Error(e@),
    }
}

/// The outcome that a result with a list of texts shows.
pub open spec fn texts_outcome(result: Result<Vec<Rc<String>>, Abort>) -> Outcome<Seq<Seq<char>>> {
    match result {
        Ok(list) => Outcome::Value(texts(list@)),
        Err(abort) => abort.outcome(),
    }
}

/// The outcome that a result with fields shows, where a meaning is known.
pub open spec fn defined_fields(result: Result<Fields, RuntimeError>) -> Outcome<FieldsView> {
    match result {
        Ok(fields) => Outcome::Value(fields@),
        Err(e) => Outcome::Error(e@),
    }
}

impl Word {
    /// Evaluates a word in a given environment and performs all expansions.
    ///
    /// Tilde, parameter, command substitution, and arithmetic expansions are
    /// performed first. All resulting fields are then further split based on
    /// the contents of the `IFS` variable (no splitting is performed if `IFS`
    /// is set to be the empty or null string). Finally, quotes and escaping
    /// backslashes are removed from the original word (unless they themselves
    /// have been quoted).
    pub fn eval<E: Environment>(&self, env: &mut E) -> (result: Result<Fields, RuntimeError>)
        requires
            word(*self, old(env).state().shell, true, true).0 !is Undefined,
        ensures
            evaluated(
                *old(env),
                *final(env),
                defined_fields(result),
                word(*self, old(env).state().shell, true, true),
            ),
    {
        self.eval_with_config(env, true, true)
    }

    /// Evaluates a word with all expansions, and says where nothing is defined for it.
    pub fn try_eval<E: Environment>(&self, env: &mut E) -> (result: Result<Fields, Abort>)
        ensures
            evaluated(
                *old(env),
                *final(env),
                fields_outcome(result),
                word(*self, old(env).state().shell, true, true),
            ),
    {
        self.try_eval_with_config(env, true, true)
    }

    /// Evaluates a word, where tildes are expanded and fields are split if that is asked for.
    pub fn eval_with_config<E: Environment>(
        &self,
        env: &mut E,
        expand_tilde: bool,
        split_fields_further: bool,
    ) -> (result: Result<Fields, RuntimeError>)
        requires
            word(
                *self,
                old(env).state().shell,
                expand_tilde,
                split_fields_further,
            ).0 !is Undefined,
        ensures
            evaluated(
                *old(env),
                *final(env),
                defined_fields(result),
                word(*self, old(env).state().shell, expand_tilde, split_fields_further),
            ),
    {
        match self.try_eval_with_config(env, expand_tilde, split_fields_further) {
            Ok(fields) => Ok(fields),
            Err(Abort::Error(e)) => Err(e),
            Err(Abort::Undefined) => vstd::pervasive::unreached(),
        }
    }

    /// Evaluates a word, where tildes are expanded and fields are split if that is asked for,
    /// and says where nothing is defined for it.
    pub fn try_eval_with_config<E: Environment>(
        &self,
        env: &mut E,
        expand_tilde: bool,
        split_fields_further: bool,
    ) -> (result: Result<Fields, Abort>)
        ensures
            evaluated(
                *old(env),
                *final(env),
                fields_outcome(result),
                word(*self, old(env).state().shell, expand_tilde, split_fields_further),
            ),
        decreases self,
    {
        match self {
            Word::Literal(s) => Ok(Fields::Single(Rc::new(s.clone()))),
            Word::SingleQuoted(s) => Ok(Fields::Single(Rc::new(s.clone()))),
            Word::Escaped(s) => Ok(Fields::Single(Rc::new(s.clone()))),
            Word::Star => Ok(single("*")),
            Word::Question => Ok(single("?")),
            Word::SquareOpen => Ok(single("]")),
            Word::SquareClose => Ok(single("[")),
            Word::Tilde => if !expand_tilde {
                Ok(single("~"))
            } else {
                match env.var("HOME") {
                    Some(home) => Ok(Fields::Single(share(home))),
                    None => Ok(Fields::empty()),
                }
            },
            Word::Param(p) => match p.try_eval(env) {
                Ok(Some(fields)) => Ok(maybe_split_fields(fields, split_fields_further, env)),
                Ok(None) => Ok(maybe_split_fields(Fields::empty(), split_fields_further, env)),
                Err(abort) => Err(abort),
            },
            Word::Subst(s) => match s.try_eval(env) {
                Ok(fields) => Ok(maybe_split_fields(fields, split_fields_further, env)),
                Err(abort) => Err(abort),
            },
            Word::Concat(words) => eval_concat(words, env, expand_tilde, split_fields_further),
            Word::DoubleQuoted(words) => eval_quoted(words, env),
        }
    }
}

impl Word {
    /// Evaluates a word in a given environment without doing field and pathname expansions.
    ///
    /// Tilde, parameter, command substitution, arithmetic expansions, and quote removals
    /// will be performed, however. In addition, if multiple fields arise as a result
    /// of evaluating `$@` or `$*`, the fields will be joined with a single space.
    pub fn eval_as_assignment<E: Environment>(&self, env: &mut E) -> (result: Result<
        Rc<String>,
        RuntimeError,
    >)
        requires
            assignment(*self, old(env).state().shell).0 !is Undefined,
        ensures
            evaluated(
                *old(env),
                *final(env),
                defined_text(result),
                assignment(*self, old(env).state().shell),
            ),
    {
        match self.try_eval_as_assignment(env) {
            Ok(text) => Ok(text),
            Err(Abort::Error(e)) => Err(e),
            Err(Abort::Undefined) => vstd::pervasive::unreached(),
        }
    }

    /// Evaluates a word as a value that is assigned, and says where nothing is defined for it.
    pub fn try_eval_as_assignment<E: Environment>(&self, env: &mut E) -> (result: Result<
        Rc<String>,
        Abort,
    >)
        ensures
            evaluated(
                *old(env),
                *final(env),
                text_outcome(result),
                assignment(*self, old(env).state().shell),
            ),
    {
        match self.try_eval_with_config(env, true, false) {
            Ok(Fields::Star(list)) => Ok(Rc::new(join_texts(&list, " "))),
            Ok(fields) => Ok(fields.join()),
            Err(abort) => Err(abort),
        }
    }
}

/// Evaluates words with all expansions, one after the other.
pub fn eval_all<E: Environment>(words: &Vec<Word>, env: &mut E) -> (result: Result<
    Vec<Rc<String>>,
    Abort,
>)
    ensures
        evaluated(
            *old(env),
            *final(env),
            texts_outcome(result),
            all_fields(words@, 0, Seq::empty(), old(env).state().shell),
        ),
{
    let mut fields: Vec<Rc<String>> = Vec::new();
    let mut i: usize = 0;
    let ghost before = env.state();
    let ghost goal = all_fields(words@, 0, Seq::empty(), before.shell);
    assert(texts(fields@) =~= Seq::empty());
    while i < words.len()
        invariant
            0 <= i <= words@.len(),
            before == old(env).state(),
            env.state() == before.with_shell(env.state().shell),
            goal == all_fields(words@, 0, Seq::empty(), before.shell),
            goal == all_fields(words@, i as nat, texts(fields@), env.state().shell),
        decreases words.len() - i,
    {
        match words[i].try_eval(env) {
            Ok(more) => {
                let ghost done = fields@;
                let mut list = more.into_vec();
                let ghost added = list@;
                fields.append(&mut list);
                assert(texts(fields@) =~= texts(done) + texts(added));
            },
            Err(abort) => {
                return Err(abort);
            },
        }
        i = i + 1;
    }
    Ok(fields)
}

fn single(s: &str) -> (fields: Fields)
    ensures
        fields@ == FieldsView::Single(s@),
{
    Fields::Single(Rc::new(s.to_owned()))
}

fn maybe_split_fields<E: Environment>(fields: Fields, split: bool, env: &E) -> (parts: Fields)
    ensures
        parts@ == maybe_split(fields@, split, env.state().shell),
{
    if !split {
        return fields;
    }
    match fields {
        Fields::At(list) => Fields::At(split_fields(list, env)),
        Fields::Star(list) => Fields::Star(split_fields(list, env)),
        Fields::Many(list) => {
            let parts = split_fields(list, env);
            if parts.len() == 0 {
                Fields::At(parts)
            } else {
                Fields::Many(parts)
            }
        },
        Fields::Single(s) => {
            let mut list: Vec<Rc<String>> = Vec::new();
            list.push(s);
            assert(texts(list@) =~= seq![s@]);
            let parts = split_fields(list, env);
            if parts.len() == 0 {
                Fields::At(parts)
            } else if parts.len() == 1 {
                Fields::Single(share(&parts[0]))
            } else {
                Fields::Many(parts)
            }
        },
    }
}

/// Puts fields behind those of a list: the first one is appended to the last one of the list.
fn adjoin(fields: &mut Vec<Rc<String>>, more: Vec<Rc<String>>)
    ensures
        texts(final(fields)@) == adjoined(texts(old(fields)@), texts(more@)),
{
    if more.len() == 0 {
        return;
    }
    let ghost first = texts(fields@);
    let ghost second = texts(more@);
    let head = match fields.pop() {
        Some(last) => Rc::new(concat_texts(last.as_str(), more[0].as_str())),
        None => share(&more[0]),
    };
    fields.push(head);
    assert(texts(fields@) =~= adjoined(first, second.take(1)));
    let mut i: usize = 1;
    while i < more.len()
        invariant
            1 <= i <= more@.len(),
            second == texts(more@),
            texts(fields@) == adjoined(first, second.take(i as int)),
        decreases more.len() - i,
    {
        let ghost before = fields@;
        fields.push(share(&more[i]));
        proof {
            assert(texts(fields@) =~= texts(before).push(second[i as int]));
            assert(adjoined(first, second.take(i + 1)) =~= adjoined(
                first,
                second.take(i as int),
            ).push(second[i as int]));
        }
        i = i + 1;
    }
    assert(second.take(i as int) =~= second);
}

fn gather(list: Vec<Rc<String>>) -> (fields: Fields)
    ensures
        fields@ == gathered(texts(list@)),
{
    if list.len() == 0 {
        Fields::empty()
    } else if list.len() == 1 {
        Fields::Single(share(&list[0]))
    } else {
        Fields::Many(list)
    }
}

fn eval_concat<E: Environment>(
    words: &Vec<Word>,
    env: &mut E,
    expand_tilde: bool,
    split_fields_further: bool,
) -> (result: Result<Fields, Abort>)
    ensures
        evaluated(
            *old(env),
            *final(env),
            fields_outcome(result),
            concatenated(
                words@,
                0,
                Seq::empty(),
                old(env).state().shell,
                expand_tilde,
                split_fields_further,
            ),
        ),
    decreases words,
{
    let mut fields: Vec<Rc<String>> = Vec::new();
    let mut i: usize = 0;
    let ghost before = env.state();
    let ghost goal = concatenated(
        words@,
        0,
        Seq::empty(),
        before.shell,
        expand_tilde,
        split_fields_further,
    );
    assert(texts(fields@) =~= Seq::empty());
    while i < words.len()
        invariant
            0 <= i <= words@.len(),
            before == old(env).state(),
            env.state() == before.with_shell(env.state().shell),
            goal == concatenated(
                words@,
                0,
                Seq::empty(),
                before.shell,
                expand_tilde,
                split_fields_further,
            ),
            goal == concatenated(
                words@,
                i as nat,
                texts(fields@),
                env.state().shell,
                expand_tilde,
                split_fields_further,
            ),
        decreases words.len() - i,
    {
        assert(decreases_to!(words => words@));
        assert(decreases_to!(words@ => words@[i as int]));
        match words[i].try_eval_with_config(env, expand_tilde, split_fields_further) {
            Ok(more) => adjoin(&mut fields, more.into_vec()),
            Err(abort) => {
                return Err(abort);
            },
        }
        i = i + 1;
    }
    Ok(gather(fields))
}

/// The text of arguments within double quotes, if it has a meaning.
fn join_star<E: Environment>(list: &Vec<Rc<String>>, env: &E) -> (text: Option<String>)
    ensures
        text is Some <==> star_text(texts(list@), env.state().shell) is Some,
        text matches Some(s) ==> star_text(texts(list@), env.state().shell) == Some(s@),
{
    match env.var("IFS") {
        Some(ifs) => {
            let chars = chars_of(ifs.as_str());
            if chars.len() == 0 {
                Some(join_texts(list, String::new().as_str()))
            } else if chars[0] <= '\u{7f}' {
                let separator = string_of(&chars, 0, 1);
                assert(separator@ =~= seq![ifs@[0]]);
                Some(join_texts(list, separator.as_str()))
            } else {
                None
            }
        },
        None => Some(join_texts(list, " ")),
    }
}

/// Puts fields that are kept apart behind what stands within double quotes so far,
/// and gives the text of the field that is not complete, and whether it was begun.
fn push_quoted(
    complete: &mut Vec<Rc<String>>,
    current: String,
    begun: bool,
    list: Vec<Rc<String>>,
) -> (next: (String, bool))
    ensures
        ({
            let so_far = Quoted { complete: texts(old(complete)@), current: current@, begun };
            (Quoted { complete: texts(final(complete)@), current: next.0@, begun: next.1 })
                == so_far.with_fields(texts(list@))
        }),
{
    if list.len() == 0 {
        return (current, begun);
    }
    let ghost before = texts(complete@);
    let ghost parts = texts(list@);
    let first = concat_texts(current.as_str(), list[0].as_str());
    if list.len() == 1 {
        return (first, true);
    }
    complete.push(Rc::new(first));
    assert(texts(complete@) =~= before.push(current@ + parts[0]));
    let ghost head = texts(complete@);
    let mut i: usize = 1;
    assert(texts(complete@) =~= head + parts.subrange(1, 1));
    while i < list.len() - 1
        invariant
            1 <= i <= list@.len() - 1,
            parts == texts(list@),
            texts(complete@) == head + parts.subrange(1, i as int),
        decreases list.len() - i,
    {
        let ghost now = complete@;
        complete.push(share(&list[i]));
        proof {
            assert(texts(complete@) =~= texts(now).push(parts[i as int]));
            assert(head + parts.subrange(1, i + 1) =~= (head + parts.subrange(1, i as int)).push(
                parts[i as int],
            ));
        }
        i = i + 1;
    }
    let last: usize = list.len() - 1;
    (list[last].as_str().to_owned(), true)
}

fn eval_quoted<E: Environment>(words: &Vec<Word>, env: &mut E) -> (result: Result<Fields, Abort>)
    ensures
        evaluated(
            *old(env),
            *final(env),
            fields_outcome(result),
            quoted(
                words@,
                0,
                Quoted::nothing(),
                old(env).state().shell,
            ),
        ),
    decreases words,
{
    let mut complete: Vec<Rc<String>> = Vec::new();
    let mut current = String::new();
    let mut begun = false;
    let mut i: usize = 0;
    let ghost before = env.state();
    let ghost start = Quoted::nothing();
    let ghost goal = quoted(words@, 0, start, before.shell);
    proof {
        assert(texts(complete@) =~= Seq::empty());
        assert(current@ =~= Seq::empty());
    }
    while i < words.len()
        invariant
            0 <= i <= words@.len(),
            before == old(env).state(),
            start == Quoted::nothing(),
            env.state() == before.with_shell(env.state().shell),
            goal == quoted(words@, 0, start, before.shell),
            goal == quoted(
                words@,
                i as nat,
                (Quoted { complete: texts(complete@), current: current@, begun }),
                env.state().shell,
            ),
        decreases words.len() - i,
    {
        assert(decreases_to!(words => words@));
        assert(decreases_to!(words@ => words@[i as int]));
        let fields = match words[i].try_eval_with_config(env, false, false) {
            Ok(fields) => fields,
            Err(abort) => {
                return Err(abort);
            },
        };
        match fields {
            Fields::Single(s) => {
                current.append(s.as_str());
                begun = true;
            },
            Fields::At(list) => {
                let next = push_quoted(&mut complete, current, begun, list);
                current = next.0;
                begun = next.1;
            },
            Fields::Star(list) => match join_star(&list, env) {
                Some(text) => {
                    current.append(text.as_str());
                    begun = true;
                },
                None => {
                    return Err(Abort::Undefined);
                },
            },
            Fields::Many(list) => match &words[i] {
                Word::DoubleQuoted(_) => {
                    let next = push_quoted(&mut complete, current, begun, list);
                    current = next.0;
                    begun = next.1;
                },
                Word::Concat(_) => {
                    let nothing = String::new();
                    assert(nothing@ =~= Seq::empty());
                    current.append(join_texts(&list, nothing.as_str()).as_str());
                    begun = true;
                },
                _ => {
                    return Err(Abort::Undefined);
                },
            },
        }
        i = i + 1;
    }
    if !begun && words.len() > 0 {
        let none: Vec<Rc<String>> = Vec::new();
        assert(texts(none@) =~= Seq::empty());
        return Ok(Fields::At(none));
    }
    let ghost done = complete@;
    complete.push(Rc::new(current));
    assert(texts(complete@) =~= texts(done).push(current@));
    Ok(gather(complete))
}

impl ParameterSubstitution {
    /// Evaluates a parameter subsitution in the context of some environment.
    ///
    /// No field *splitting* will be performed, and is left for the caller to
    /// implement. However, multiple fields can occur if `$@` or $*` is evaluated.
    pub fn eval<E: Environment>(&self, env: &mut E) -> (result: Result<Fields, RuntimeError>)
        requires
            substitution(*self, old(env).state().shell).0 !is Undefined,
        ensures
            evaluated(
                *old(env),
                *final(env),
                defined_fields(result),
                substitution(*self, old(env).state().shell),
            ),
    {
        match self.try_eval(env) {
            Ok(fields) => Ok(fields),
            Err(Abort::Error(e)) => Err(e),
            Err(Abort::Undefined) => vstd::pervasive::unreached(),
        }
    }

    /// Evaluates a parameter substitution, and says where nothing is defined for it.
    pub fn try_eval<E: Environment>(&self, env: &mut E) -> (result: Result<Fields, Abort>)
        ensures
            evaluated(
                *old(env),
                *final(env),
                fields_outcome(result),
                substitution(*self, old(env).state().shell),
            ),
        decreases self,
    {
        match self {
            ParameterSubstitution::Command(_) => Err(Abort::Undefined),
            ParameterSubstitution::Len(p) => match p.try_eval(env) {
                Ok(value) => length_of(value),
                Err(abort) => Err(abort),
            },
            ParameterSubstitution::Arithmetic(None) => Ok(
                Fields::Single(Rc::new(to_decimal(0))),
            ),
            ParameterSubstitution::Arithmetic(Some(a)) => match a.try_eval(env) {
                Ok(n) => Ok(Fields::Single(Rc::new(to_decimal(n as i128)))),
                Err(abort) => Err(abort),
            },
            ParameterSubstitution::Default(strict, p, default) => match p.try_eval(env) {
                Ok(value) => match settle(value, *strict) {
                    Some(fields) => Ok(fields),
                    None => eval_fallback(default, env),
                },
                Err(abort) => Err(abort),
            },
            ParameterSubstitution::Assign(strict, p, assigned) => match p.try_eval(env) {
                Ok(value) => match settle(value, *strict) {
                    Some(fields) => Ok(fields),
                    None => match p {
                        Parameter::Var(name) => match eval_fallback(assigned, env) {
                            Ok(fields) => {
                                env.set_var(name.clone(), fields.clone().join());
                                Ok(fields)
                            },
                            Err(abort) => Err(abort),
                        },
                        _ => Err(Abort::Error(RuntimeError::BadAssig(p.clone()))),
                    },
                },
                Err(abort) => Err(abort),
            },
            ParameterSubstitution::Error(strict, p, message) => match p.try_eval(env) {
                Ok(value) => match settle(value, *strict) {
                    Some(fields) => Ok(fields),
                    None => match message {
                        None => Err(
                            Abort::Error(
                                RuntimeError::EmptyParameter(
                                    p.clone(),
                                    Rc::new("parameter null or not set".to_owned()),
                                ),
                            ),
                        ),
                        Some(_) => match eval_fallback(message, env) {
                            Ok(fields) => Err(
                                Abort::Error(
                                    RuntimeError::EmptyParameter(p.clone(), fields.join()),
                                ),
                            ),
                            Err(abort) => Err(abort),
                        },
                    },
                },
                Err(abort) => Err(abort),
            },
            ParameterSubstitution::Alternative(strict, p, alternative) => match p.try_eval(env) {
                Ok(Some(fields)) => if *strict && fields.is_null() {
                    Ok(Fields::empty())
                } else {
                    eval_fallback(alternative, env)
                },
                Ok(None) => Ok(Fields::empty()),
                Err(abort) => Err(abort),
            },
            ParameterSubstitution::RemoveSmallestSuffix(p, pattern)
            | ParameterSubstitution::RemoveLargestSuffix(p, pattern)
            | ParameterSubstitution::RemoveSmallestPrefix(p, pattern)
            | ParameterSubstitution::RemoveLargestPrefix(p, pattern) => match pattern {
                None => match p.try_eval(env) {
                    Ok(Some(fields)) => Ok(fields),
                    Ok(None) => Ok(Fields::empty()),
                    Err(abort) => Err(abort),
                },
                Some(_) => Err(Abort::Undefined),
            },
        }
    }
}

fn length_of(value: Option<Fields>) -> (result: Result<Fields, Abort>)
    ensures
        fields_outcome(result) == length(fields_view(value)),
{
    match value {
        None => Ok(Fields::Single(Rc::new(to_decimal(0)))),
        Some(Fields::Single(s)) => {
            let n: usize = s.as_str().len();
            Ok(Fields::Single(Rc::new(to_decimal(n as i128))))
        },
        Some(Fields::At(list)) | Some(Fields::Star(list)) => {
            let n: usize = list.len();
            Ok(Fields::Single(Rc::new(to_decimal(n as i128))))
        },
        Some(Fields::Many(_)) => Err(Abort::Undefined),
    }
}

fn settle(value: Option<Fields>, strict: bool) -> (fields: Option<Fields>)
    ensures
        fields_view(fields) == settled(fields_view(value), strict),
{
    match value {
        Some(fields) => if !fields.is_null() {
            Some(fields)
        } else if !strict {
            Some(Fields::empty())
        } else {
            None
        },
        None => None,
    }
}

fn eval_fallback<E: Environment>(w: &Option<Word>, env: &mut E) -> (result: Result<Fields, Abort>)
    ensures
        evaluated(
            *old(env),
            *final(env),
            fields_outcome(result),
            fallback(*w, old(env).state().shell),
        ),
    decreases w,
{
    match w {
        Some(w) => w.try_eval_with_config(env, true, false),
        None => Ok(Fields::empty()),
    }
}

} // verus!
