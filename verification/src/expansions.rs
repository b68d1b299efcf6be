//! What holds of expansions: the fields that parameters, words and substitutions give, told by
//! the arguments and variables of the shell and by the fields of their parts.

use crate::arith::arith;
use crate::ast::{Arith, Parameter, ParameterSubstitution, Word};
use crate::env::Shell;
use crate::error::ErrorView;
use crate::fields::FieldsView;
use crate::laws::plain_word_is_not_split;
use crate::number::decimal;
use crate::outcome::Outcome;
use crate::param::parameter;
use crate::split::{fields_from, fields_of_all, separators, split_words, IFS_DEFAULT};
use crate::status::ExitStatus;
use crate::text::separated;
use crate::word::{
    adjoined, all_fields, assignment, concatenated, gathered, quoted, star_text, substitution,
    word, Quoted,
};
use vstd::prelude::*;
use vstd::utf8::{encode_utf8, is_ascii_chars};

verus! {

/// Whether a word gives these fields, and leaves the shell like this.
pub open spec fn gives(
    w: Word,
    sh: Shell,
    tilde: bool,
    split: bool,
    fields: FieldsView,
    s1: Shell,
) -> bool {
    word(w, sh, tilde, split) == (Outcome::Value(fields), s1)
}

/// Parameters are read from the shell: `$@` and `$*` are the arguments, `$#` their number,
/// `$0` the name and `$n` the argument at that place, and a variable has its value.
pub proof fn parameters_are_read(sh: Shell, i: u32, name: String)
    ensures
        parameter(Parameter::At, sh) == Outcome::Value(Some(FieldsView::At(sh.args))),
        parameter(Parameter::Star, sh) == Outcome::Value(Some(FieldsView::Star(sh.args))),
        parameter(Parameter::Pound, sh) == Outcome::Value(
            Some(FieldsView::Single(decimal(sh.args.len() as int))),
        ),
        parameter(Parameter::Dollar, sh) == Outcome::Value(
            Some(FieldsView::Single(decimal(sh.pid as int))),
        ),
        parameter(Parameter::Dash, sh) == Outcome::Value(None::<FieldsView>),
        parameter(Parameter::Bang, sh) == Outcome::Value(None::<FieldsView>),
        parameter(Parameter::Positional(0), sh) == Outcome::Value(
            Some(FieldsView::Single(sh.name)),
        ),
        1 <= i <= sh.args.len() ==> parameter(Parameter::Positional(i), sh) == Outcome::Value(
            Some(FieldsView::Single(sh.args[i - 1])),
        ),
        i > sh.args.len() ==> parameter(Parameter::Positional(i), sh) == Outcome::Value(
            None::<FieldsView>,
        ),
        sh.var(name@) is None ==> parameter(Parameter::Var(name), sh) == Outcome::Value(
            None::<FieldsView>,
        ),
        sh.var(name@) matches Some(value) ==> parameter(Parameter::Var(name), sh)
            == Outcome::Value(Some(FieldsView::Single(value))),
{
}

/// `$?` is the code of the last command, or 128 more than the signal that ended it, as a number
/// of 32 bits without a sign.
pub proof fn status_is_shown(sh: Shell, c: i32)
    ensures
        ({
            let shown = parameter(Parameter::Question, sh);
            &&& sh.status == ExitStatus::Code(c) && c >= 0 ==> shown == Outcome::Value(
                Some(FieldsView::Single(decimal(c as int))),
            )
            &&& sh.status == ExitStatus::Code(c) && c < 0 ==> shown == Outcome::Value(
                Some(FieldsView::Single(decimal(0x1_0000_0000 + c))),
            )
            &&& sh.status == ExitStatus::Signal(c) && c >= 0 ==> shown == Outcome::Value(
                Some(FieldsView::Single(decimal(128 + c))),
            )
            &&& sh.status == ExitStatus::Signal(c) && c < -128 ==> shown == Outcome::Value(
                Some(FieldsView::Single(decimal(0x1_0000_0000 + 128 + c))),
            )
            &&& sh.status == ExitStatus::Signal(c) && -128 <= c < 0 ==> shown
                == Outcome::<Option<FieldsView>>::Undefined
        }),
{
}

/// Text is a field as it stands, quoted or not, and so are the characters of patterns.
/// Nothing of it is split.
pub proof fn text_is_a_field(text: String, sh: Shell, tilde: bool, split: bool)
    ensures
        gives(Word::Literal(text), sh, tilde, split, FieldsView::Single(text@), sh),
        gives(Word::SingleQuoted(text), sh, tilde, split, FieldsView::Single(text@), sh),
        gives(Word::Escaped(text), sh, tilde, split, FieldsView::Single(text@), sh),
        gives(Word::Star, sh, tilde, split, FieldsView::Single("*"@), sh),
        gives(Word::Question, sh, tilde, split, FieldsView::Single("?"@), sh),
        gives(Word::SquareOpen, sh, tilde, split, FieldsView::Single("]"@), sh),
        gives(Word::SquareClose, sh, tilde, split, FieldsView::Single("["@), sh),
{
}

/// A tilde is the value of the `HOME` variable where tildes are expanded, or an empty field
/// where that is unset. Otherwise it is a tilde.
pub proof fn tilde_is_home(sh: Shell, split: bool)
    ensures
        gives(Word::Tilde, sh, false, split, FieldsView::Single("~"@), sh),
        sh.var("HOME"@) matches Some(home) ==> gives(
            Word::Tilde,
            sh,
            true,
            split,
            FieldsView::Single(home),
            sh,
        ),
        sh.var("HOME"@) is None ==> gives(
            Word::Tilde,
            sh,
            true,
            split,
            FieldsView::Single(Seq::empty()),
            sh,
        ),
{
}

/// Where fields are not split, a parameter gives its own fields, or an empty one
/// where it has none; and a substitution gives what it evaluates to.
pub proof fn unsplit_fields_are_kept(
    p: Parameter,
    s: Box<ParameterSubstitution>,
    sh: Shell,
    tilde: bool,
)
    ensures
        parameter(p, sh) matches Outcome::Value(Some(fields)) ==> gives(
            Word::Param(p),
            sh,
            tilde,
            false,
            fields,
            sh,
        ),
        parameter(p, sh) matches Outcome::Value(None) ==> gives(
            Word::Param(p),
            sh,
            tilde,
            false,
            FieldsView::Single(Seq::empty()),
            sh,
        ),
        word(Word::Subst(s), sh, tilde, false) == substitution(*s, sh),
{
}

/// Where fields are split, those of a parameter or a substitution are split, all of them
/// and in order. What `$@` and `$*` give stays what it is.
pub proof fn split_fields_are_those_of_texts(
    p: Parameter,
    s: Box<ParameterSubstitution>,
    sh: Shell,
    tilde: bool,
)
    ensures
        word(Word::Param(Parameter::At), sh, tilde, true) == (
            Outcome::Value(FieldsView::At(split_words(sh.args, sh))),
            sh,
        ),
        word(Word::Param(Parameter::Star), sh, tilde, true) == (
            Outcome::Value(FieldsView::Star(split_words(sh.args, sh))),
            sh,
        ),
        parameter(p, sh) matches Outcome::Value(Some(fields)) ==> {
            &&& word(Word::Param(p), sh, tilde, true).1 == sh
            &&& word(Word::Param(p), sh, tilde, true).0 matches Outcome::Value(parts)
                && parts.list() == split_words(fields.list(), sh)
        },
        substitution(*s, sh).0 matches Outcome::Value(fields) ==> {
            let s1 = substitution(*s, sh).1;
            &&& word(Word::Subst(s), sh, tilde, true).1 == s1
            &&& word(Word::Subst(s), sh, tilde, true).0 matches Outcome::Value(parts)
                && parts.list() == split_words(fields.list(), s1)
        },
        substitution(*s, sh).0 !is Value ==> word(Word::Subst(s), sh, tilde, true)
            == substitution(*s, sh),
{
    if parameter(p, sh) is Value && parameter(p, sh)->Value_0 is Some {
        lemma_split_list(parameter(p, sh)->Value_0->0, sh);
    }
    let (o, s1) = substitution(*s, sh);
    if o is Value {
        lemma_split_list(o->Value_0, s1);
    }
}

proof fn lemma_split_list(fields: FieldsView, sh: Shell)
    ensures
        crate::word::maybe_split(fields, true, sh).list() == split_words(fields.list(), sh),
{
    let parts = split_words(fields.list(), sh);
    if parts.len() == 1 {
        assert(parts =~= seq![parts[0]]);
    }
}

/// Fields are split at the characters of the `IFS` variable, and at spaces, tabulators
/// and line feeds where it is unset.
pub proof fn separators_are_those_of_ifs(sh: Shell, c: char)
    ensures
        sh.var("IFS"@) matches Some(ifs) ==> separators(sh) == ifs,
        sh.var("IFS"@) is None ==> separators(sh).len() > 0 && (separators(sh).contains(c) <==> c
            == ' ' || c == '\t' || c == '\n'),
{
    reveal_strlit(" \t\n");
    assert(IFS_DEFAULT@ == " \t\n"@);
    let chars = " \t\n"@;
    assert(chars =~= seq![' ', '\t', '\n']);
    assert(chars[0] == ' ' && chars[1] == '\t' && chars[2] == '\n');
}

/// Words are split one by one. A word is split at each separator in it, where none of the two
/// parts loses anything but it. What has no separators is a field, unless it is empty.
/// Without separators nothing is split.
pub proof fn words_are_split_at_separators(
    first: Seq<Seq<char>>,
    second: Seq<Seq<char>>,
    a: Seq<char>,
    c: char,
    b: Seq<char>,
    sh: Shell,
)
    ensures
        separators(sh).len() == 0 ==> split_words(first, sh) == first,
        separators(sh).len() > 0 ==> {
            &&& split_words(first + second, sh) == split_words(first, sh) + split_words(second, sh)
            &&& split_words(Seq::empty(), sh) == Seq::<Seq<char>>::empty()
            &&& split_words(seq![Seq::empty()], sh) == Seq::<Seq<char>>::empty()
            &&& separators(sh).contains(c) ==> split_words(seq![a.push(c) + b], sh) == split_words(
                seq![a],
                sh,
            ) + split_words(seq![b], sh)
            &&& a.len() > 0 && (forall|i: int|
                0 <= i < a.len() ==> !separators(sh).contains(#[trigger] a[i])) ==> split_words(
                seq![a],
                sh,
            ) == seq![a]
        },
{
    let ifs = separators(sh);
    if ifs.len() > 0 {
        lemma_all_split(first, second, ifs);
        let nothing: Seq<char> = Seq::empty();
        lemma_one_split(nothing, ifs);
        lemma_one_split(a, ifs);
        lemma_one_split(b, ifs);
        lemma_one_split(a.push(c) + b, ifs);
        if ifs.contains(c) {
            lemma_split_before(a, c, b, ifs, 0, None);
            lemma_split_behind(a.push(c), b, ifs, 0, None);
            let joined = a.push(c) + b;
            assert(fields_from(joined, ifs, 0, None) == fields_from(a, ifs, 0, None)
                + fields_from(b, ifs, 0, None));
        }
        if a.len() > 0 && (forall|i: int| 0 <= i < a.len() ==> !ifs.contains(#[trigger] a[i])) {
            plain_word_is_not_split(a, ifs);
        }
    }
}

proof fn lemma_all_split(first: Seq<Seq<char>>, second: Seq<Seq<char>>, ifs: Seq<char>)
    ensures
        fields_of_all(first + second, ifs) == fields_of_all(first, ifs) + fields_of_all(
            second,
            ifs,
        ),
    decreases second.len(),
{
    if second.len() == 0 {
        assert(first + second =~= first);
        assert(fields_of_all(first, ifs) + fields_of_all(second, ifs) =~= fields_of_all(
            first,
            ifs,
        ));
    } else {
        let rest = second.drop_last();
        lemma_all_split(first, rest, ifs);
        assert((first + second).drop_last() =~= first + rest);
        assert((first + second).last() == second.last());
        assert(fields_of_all(first + second, ifs) =~= fields_of_all(first, ifs) + fields_of_all(
            second,
            ifs,
        ));
    }
}

proof fn lemma_one_split(w: Seq<char>, ifs: Seq<char>)
    ensures
        fields_of_all(seq![w], ifs) == fields_from(w, ifs, 0, None),
        w.len() == 0 ==> fields_from(w, ifs, 0, None) == Seq::<Seq<char>>::empty(),
{
    assert(seq![w].drop_last() =~= Seq::<Seq<char>>::empty());
    assert(seq![w].last() == w);
    assert(fields_of_all(seq![w].drop_last(), ifs) == Seq::<Seq<char>>::empty());
    assert(fields_of_all(seq![w], ifs) =~= fields_from(w, ifs, 0, None));
}

proof fn lemma_split_before(
    a: Seq<char>,
    c: char,
    b: Seq<char>,
    ifs: Seq<char>,
    i: int,
    begun: Option<int>,
)
    requires
        ifs.contains(c),
        0 <= i <= a.len(),
        begun matches Some(start) ==> 0 <= start < i,
    ensures
        fields_from(a.push(c) + b, ifs, i, begun) == fields_from(a, ifs, i, begun) + fields_from(
            a.push(c) + b,
            ifs,
            (a.len() + 1) as int,
            None,
        ),
    decreases a.len() - i,
{
    let all = a.push(c) + b;
    let rest = fields_from(all, ifs, (a.len() + 1) as int, None);
    if i == a.len() {
        assert(all[i] == c);
        match begun {
            Some(start) => {
                assert(all.subrange(start, i) =~= a.subrange(start, a.len() as int));
            },
            None => {
                assert(Seq::<Seq<char>>::empty() + rest =~= rest);
            },
        }
    } else {
        assert(all[i] == a[i]);
        match begun {
            Some(start) => {
                if ifs.contains(a[i]) {
                    lemma_split_before(a, c, b, ifs, i + 1, None);
                    assert(all.subrange(start, i) =~= a.subrange(start, i));
                    let field = seq![a.subrange(start, i)];
                    assert(field + (fields_from(a, ifs, i + 1, None) + rest) =~= field
                        + fields_from(a, ifs, i + 1, None) + rest);
                } else {
                    lemma_split_before(a, c, b, ifs, i + 1, begun);
                }
            },
            None => {
                if ifs.contains(a[i]) {
                    lemma_split_before(a, c, b, ifs, i + 1, None);
                } else {
                    lemma_split_before(a, c, b, ifs, i + 1, Some(i));
                }
            },
        }
    }
}

proof fn lemma_split_behind(
    front: Seq<char>,
    b: Seq<char>,
    ifs: Seq<char>,
    i: int,
    begun: Option<int>,
)
    requires
        0 <= i <= b.len(),
        begun matches Some(start) ==> 0 <= start < i,
    ensures
        fields_from(
            front + b,
            ifs,
            front.len() + i,
            match begun {
                Some(start) => Some(front.len() + start),
                None => None,
            },
        ) == fields_from(b, ifs, i, begun),
    decreases b.len() - i,
{
    let all = front + b;
    let n = front.len() as int;
    if i == b.len() {
        match begun {
            Some(start) => {
                assert(all.subrange(n + start, all.len() as int) =~= b.subrange(
                    start,
                    b.len() as int,
                ));
            },
            None => {},
        }
    } else {
        assert(all[n + i] == b[i]);
        match begun {
            Some(start) => {
                if ifs.contains(b[i]) {
                    lemma_split_behind(front, b, ifs, i + 1, None);
                    assert(all.subrange(n + start, n + i) =~= b.subrange(start, i));
                } else {
                    lemma_split_behind(front, b, ifs, i + 1, begun);
                }
            },
            None => {
                if ifs.contains(b[i]) {
                    lemma_split_behind(front, b, ifs, i + 1, None);
                } else {
                    lemma_split_behind(front, b, ifs, i + 1, Some(i));
                }
            },
        }
    }
}

/// Whether a list of texts is two other ones side by side, where the last text of the first one
/// and the first text of the second one are one text.
pub open spec fn side_by_side(
    whole: Seq<Seq<char>>,
    left: Seq<Seq<char>>,
    right: Seq<Seq<char>>,
) -> bool {
    let n = left.len() - 1;
    &&& whole.len() == n + right.len()
    &&& forall|i: int| 0 <= i < n ==> #[trigger] whole[i] == left[i]
    &&& whole[n] == left[n] + right[0]
    &&& forall|i: int| n < i < whole.len() ==> #[trigger] whole[i] == right[i - n]
}

/// Words side by side give the fields of all of them, in order, where the last one of a word
/// and the first one of the next word are one field. A word without fields adds none.
/// The words are evaluated each after the ones in front of it.
pub proof fn concatenation_joins_neighbours(
    front: Vec<Word>,
    all: Vec<Word>,
    w: Word,
    sh: Shell,
    tilde: bool,
    split: bool,
)
    requires
        all@ == front@.push(w),
    ensures
        ({
            let (before, s1) = word(Word::Concat(front), sh, tilde, split);
            let (last, s2) = word(w, s1, tilde, split);
            let (o, s3) = word(Word::Concat(all), sh, tilde, split);
            if before !is Value {
                o == before && s3 == s1
            } else if last !is Value {
                o == last && s3 == s2
            } else {
                let left = before->Value_0.list();
                let right = last->Value_0.list();
                &&& s3 == s2
                &&& o matches Outcome::Value(fields) && {
                    &&& right.len() == 0 ==> fields.list() == left
                    &&& right.len() > 0 ==> side_by_side(fields.list(), left, right)
                    &&& if fields.list().len() == 1 {
                        fields is Single
                    } else {
                        fields is Many
                    }
                }
            }
        }),
{
    let (acc, s1, ok) = lemma_concatenated(front@, all@, w, 0, Seq::empty(), sh, tilde, split);
    if ok {
        let (last, s2) = word(w, s1, tilde, split);
        if last is Value {
            let right = last->Value_0.list();
            let left = gathered(acc).list();
            let fields = gathered(adjoined(acc, right));
            if acc.len() == 1 {
                assert(left =~= acc);
            }
            let list = adjoined(acc, right);
            if list.len() == 1 {
                assert(fields.list() =~= list);
            }
            if right.len() > 0 {
                if acc.len() == 0 {
                    assert(left[0] + right[0] =~= right[0]);
                    assert(side_by_side(list, left, right));
                } else {
                    assert(list.len() == acc.len() - 1 + right.len());
                    assert(side_by_side(list, acc, right));
                }
            }
        }
    }
}

proof fn lemma_concatenated(
    front: Seq<Word>,
    all: Seq<Word>,
    w: Word,
    i: nat,
    fields: Seq<Seq<char>>,
    sh: Shell,
    tilde: bool,
    split: bool,
) -> (found: (Seq<Seq<char>>, Shell, bool))
    requires
        all == front.push(w),
        i <= front.len(),
    ensures
        ({
            let (acc, s1, ok) = found;
            let before = concatenated(front, i, fields, sh, tilde, split);
            if ok {
                let (last, s2) = word(w, s1, tilde, split);
                &&& before == (Outcome::Value(gathered(acc)), s1)
                &&& concatenated(all, i, fields, sh, tilde, split) == (match last {
                    Outcome::Value(f) => (Outcome::Value(gathered(adjoined(acc, f.list()))), s2),
                    _ => (last, s2),
                })
            } else {
                &&& before.0 !is Value
                &&& concatenated(all, i, fields, sh, tilde, split) == before
            }
        }),
    decreases front.len() - i,
{
    if i == front.len() {
        assert(all[i as int] == w);
        let (last, s2) = word(w, sh, tilde, split);
        if last is Value {
            let f = adjoined(fields, last->Value_0.list());
            assert(concatenated(all, i + 1, f, s2, tilde, split) == (
                Outcome::Value(gathered(f)),
                s2,
            ));
        }
        (fields, sh, true)
    } else {
        assert(all[i as int] == front[i as int]);
        let (o, s1) = word(front[i as int], sh, tilde, split);
        if o is Value {
            lemma_concatenated(
                front,
                all,
                w,
                i + 1,
                adjoined(fields, o->Value_0.list()),
                s1,
                tilde,
                split,
            )
        } else {
            (fields, s1, false)
        }
    }
}

/// Without any words, there is one empty field side by side and within double quotes.
pub proof fn no_words_give_an_empty_field(none: Vec<Word>, sh: Shell, tilde: bool, split: bool)
    requires
        none@.len() == 0,
    ensures
        gives(Word::Concat(none), sh, tilde, split, FieldsView::Single(Seq::empty()), sh),
        gives(Word::DoubleQuoted(none), sh, tilde, split, FieldsView::Single(Seq::empty()), sh),
{
    let start = Quoted::nothing();
    assert(concatenated(none@, 0, Seq::empty(), sh, tilde, split) == (
        Outcome::Value(FieldsView::Single(Seq::empty())),
        sh,
    ));
    assert(quoted(none@, 0, start, sh) == (Outcome::Value(start.fields(none@)), sh));
    assert(start.complete.push(start.current) =~= seq![Seq::<char>::empty()]);
}

/// The texts that a word adds within double quotes, if that has a meaning: one text,
/// or the fields that are kept apart. The arguments of `$*` have the first character
/// of the `IFS` variable between them, nothing where it is empty, or a space where it is unset.
pub open spec fn quoted_texts(w: Word, fields: FieldsView, sh: Shell) -> Option<Seq<Seq<char>>> {
    match fields {
        FieldsView::Single(s) => Some(seq![s]),
        FieldsView::At(v) => Some(v),
        FieldsView::Star(v) => match sh.var("IFS"@) {
            None => Some(seq![separated(v, " "@)]),
            Some(ifs) => if ifs.len() == 0 {
                Some(seq![separated(v, Seq::empty())])
            } else if ifs[0] <= '\u{7f}' {
                Some(seq![separated(v, seq![ifs[0]])])
            } else {
                None
            },
        },
        FieldsView::Many(v) => match w {
            Word::DoubleQuoted(_) => Some(v),
            Word::Concat(_) => Some(seq![separated(v, Seq::empty())]),
            _ => None,
        },
    }
}

/// Within double quotes a word adds its text to the last field, and a word that gives fields
/// which are kept apart adds them all, where the first one joins the last one so far.
/// A word without fields adds none. Tildes are not expanded there and fields are not split.
pub proof fn quotes_join_neighbours(
    front: Vec<Word>,
    all: Vec<Word>,
    w: Word,
    sh: Shell,
    tilde: bool,
    split: bool,
)
    requires
        all@ == front@.push(w),
    ensures
        ({
            let (before, s1) = word(Word::DoubleQuoted(front), sh, tilde, split);
            let (last, s2) = word(w, s1, false, false);
            let (o, s3) = word(Word::DoubleQuoted(all), sh, tilde, split);
            if before !is Value {
                o == before && s3 == s1
            } else if last !is Value {
                o == last && s3 == s2
            } else {
                let left = before->Value_0.list();
                &&& s3 == s2
                &&& quoted_texts(w, last->Value_0, s2) is None ==> o is Undefined
                &&& quoted_texts(w, last->Value_0, s2) matches Some(right) ==> {
                    &&& o matches Outcome::Value(fields) && {
                        let list = fields.list();
                        &&& right.len() == 0 && front@.len() == 0 ==> list.len() == 0
                        &&& right.len() == 0 && front@.len() > 0 ==> list == left
                        &&& right.len() > 0 && left.len() == 0 ==> list == right
                        &&& right.len() > 0 && left.len() > 0 ==> side_by_side(list, left, right)
                        &&& list.len() == 0 ==> fields is At
                        &&& list.len() == 1 ==> fields is Single
                        &&& list.len() > 1 ==> fields is Many
                    }
                }
            }
        }),
{
    let (q, s1, ok) = lemma_quoted(front@, all@, w, 0, Quoted::nothing(), sh);
    if ok {
        let (last, s2) = word(w, s1, false, false);
        if last is Value {
            let f = last->Value_0;
            match quoted_texts(w, f, s2) {
                Some(right) => {
                    assert(q.after(w, f, s2) == Some(q.with_fields(right)));
                    lemma_quoted_list(q, front@, right, all@);
                },
                None => {},
            }
        }
    }
}

proof fn lemma_quoted_list(q: Quoted, front: Seq<Word>, right: Seq<Seq<char>>, all: Seq<Word>)
    requires
        all.len() == front.len() + 1,
        !q.begun ==> q == Quoted::nothing(),
    ensures
        ({
            let left = q.fields(front).list();
            let fields = q.with_fields(right).fields(all);
            let list = fields.list();
            &&& right.len() == 0 && front.len() == 0 && !q.begun ==> list.len() == 0
            &&& right.len() == 0 && (front.len() > 0 || q.begun) ==> list == left
            &&& right.len() > 0 && left.len() == 0 ==> list == right
            &&& right.len() > 0 && left.len() > 0 ==> side_by_side(list, left, right)
            &&& list.len() == 0 ==> fields is At
            &&& list.len() == 1 ==> fields is Single
            &&& list.len() > 1 ==> fields is Many
        }),
{
    let next = q.with_fields(right);
    let so_far = q.complete.push(q.current);
    let list = next.complete.push(next.current);
    let left = q.fields(front).list();
    lemma_gathered(so_far);
    lemma_gathered(list);
    if right.len() == 1 {
        assert(list =~= q.complete.push(q.current + right[0]));
        if !q.begun {
            assert(q.current + right[0] =~= right[0]);
            assert(list =~= right);
        }
        assert(side_by_side(list, so_far, right));
    } else if right.len() > 1 {
        let n = q.complete.len() as int;
        assert(list.len() == n + right.len());
        assert forall|i: int| n < i < list.len() implies #[trigger] list[i] == right[i - n] by {}
        assert(side_by_side(list, so_far, right));
        if !q.begun {
            assert(q.current + right[0] =~= right[0]);
            assert(list =~= right);
        }
    }
}

proof fn lemma_gathered(list: Seq<Seq<char>>)
    requires
        list.len() > 0,
    ensures
        gathered(list).list() == list,
        list.len() == 1 ==> gathered(list) is Single,
        list.len() > 1 ==> gathered(list) is Many,
{
    if list.len() == 1 {
        assert(gathered(list).list() =~= list);
    }
}

proof fn lemma_quoted(
    front: Seq<Word>,
    all: Seq<Word>,
    w: Word,
    i: nat,
    so_far: Quoted,
    sh: Shell,
) -> (found: (Quoted, Shell, bool))
    requires
        all == front.push(w),
        i <= front.len(),
        !so_far.begun ==> so_far == Quoted::nothing(),
        i == 0 ==> !so_far.begun,
    ensures
        ({
            let (q, s1, ok) = found;
            let before = quoted(front, i, so_far, sh);
            if ok {
                let (last, s2) = word(w, s1, false, false);
                &&& !q.begun ==> q == Quoted::nothing()
                &&& front.len() == 0 ==> !q.begun
                &&& before == (Outcome::Value(q.fields(front)), s1)
                &&& quoted(all, i, so_far, sh) == (match last {
                    Outcome::Value(f) => match q.after(w, f, s2) {
                        Some(next) => (Outcome::Value(next.fields(all)), s2),
                        None => (Outcome::Undefined, s2),
                    },
                    _ => (last, s2),
                })
            } else {
                &&& before.0 !is Value
                &&& quoted(all, i, so_far, sh) == before
            }
        }),
    decreases front.len() - i,
{
    if i == front.len() {
        assert(all[i as int] == w);
        let (last, s2) = word(w, sh, false, false);
        if last is Value {
            match so_far.after(w, last->Value_0, s2) {
                Some(next) => {
                    assert(quoted(all, i + 1, next, s2) == (
                        Outcome::Value(next.fields(all)),
                        s2,
                    ));
                },
                None => {},
            }
        }
        (so_far, sh, true)
    } else {
        assert(all[i as int] == front[i as int]);
        let (o, s1) = word(front[i as int], sh, false, false);
        if o is Value {
            match so_far.after(front[i as int], o->Value_0, s1) {
                Some(next) => lemma_quoted(front, all, w, i + 1, next, s1),
                None => (so_far, s1, false),
            }
        } else {
            (so_far, s1, false)
        }
    }
}

/// `"$@"` gives exactly the arguments, each of them as a field of its own. Text in front
/// of it joins the first one and text behind it the last one, and the others stay as they are.
pub proof fn quoted_arguments_stay_apart(
    words: Vec<Word>,
    alone: Vec<Word>,
    before: String,
    after: String,
    sh: Shell,
    tilde: bool,
    split: bool,
) -> (fields: FieldsView)
    requires
        words@ == seq![Word::Literal(before), Word::Param(Parameter::At), Word::Literal(after)],
        alone@ == seq![Word::Param(Parameter::At)],
        sh.args.len() > 0,
    ensures
        word(Word::DoubleQuoted(alone), sh, tilde, split).1 == sh,
        word(Word::DoubleQuoted(alone), sh, tilde, split).0 matches Outcome::Value(own)
            && own.list() == sh.args,
        gives(Word::DoubleQuoted(words), sh, tilde, split, fields, sh),
        fields.list().len() == sh.args.len(),
        forall|i: int|
            0 < i < sh.args.len() - 1 ==> #[trigger] fields.list()[i] == sh.args[i],
        sh.args.len() > 1 ==> fields.list()[0] == before@ + sh.args[0],
        sh.args.len() > 1 ==> fields.list().last() == sh.args.last() + after@,
        sh.args.len() == 1 ==> fields.list()[0] == before@ + sh.args[0] + after@,
{
    let n = sh.args.len() as int;
    let start = Quoted::nothing();
    let at = (Outcome::Value(FieldsView::At(sh.args)), sh);
    assert(alone@[0] == Word::Param(Parameter::At));
    assert(word(alone@[0], sh, false, false) == at);
    let own = start.with_fields(sh.args);
    assert(quoted(alone@, 0, start, sh) == quoted(alone@, 1, own, sh));
    assert(start.current + sh.args[0] =~= sh.args[0]);
    assert(own.complete.push(own.current) =~= sh.args);
    lemma_gathered(sh.args);

    assert(words@[0] == Word::Literal(before));
    assert(words@[1] == Word::Param(Parameter::At));
    assert(words@[2] == Word::Literal(after));
    let first = start.with_text(before@);
    let second = first.with_fields(sh.args);
    let last = second.with_text(after@);
    assert(word(words@[0], sh, false, false) == (Outcome::Value(FieldsView::Single(before@)), sh));
    assert(word(words@[1], sh, false, false) == at);
    assert(word(words@[2], sh, false, false) == (Outcome::Value(FieldsView::Single(after@)), sh));
    assert(quoted(words@, 0, start, sh) == quoted(words@, 1, first, sh));
    assert(quoted(words@, 1, first, sh) == quoted(words@, 2, second, sh));
    assert(quoted(words@, 2, second, sh) == quoted(words@, 3, last, sh));
    assert(start.current + before@ =~= before@);
    let list = last.complete.push(last.current);
    assert(list.len() == n);
    lemma_gathered(list);
    last.fields(words@)
}

/// `"$*"` is one field. It has the arguments in order, with the first character of the `IFS`
/// variable between each two of them, or nothing where that is empty, or a space
/// where it is unset.
pub proof fn quoted_star_is_one_field(
    words: Vec<Word>,
    sh: Shell,
    more: Shell,
    x: Seq<char>,
    tilde: bool,
    split: bool,
)
    requires
        words@ == seq![Word::Param(Parameter::Star)],
        more == (Shell { args: sh.args.push(x), ..sh }),
        sh.var("IFS"@) matches Some(ifs) ==> ifs.len() == 0 || ifs[0] <= '\u{7f}',
    ensures
        ({
            let text = star_of(words, sh, tilde, split);
            let longer = star_of(words, more, tilde, split);
            &&& sh.args.len() == 0 ==> text == Some(Seq::<char>::empty()) && longer == Some(x)
            &&& sh.args.len() > 0 ==> text is Some && longer == Some(
                text->0 + (match sh.var("IFS"@) {
                    Some(ifs) => ifs.take(if ifs.len() == 0 {
                        0
                    } else {
                        1
                    }),
                    None => " "@,
                }) + x,
            )
        }),
{
    assert(more.var("IFS"@) == sh.var("IFS"@));
    lemma_star(words, sh, tilde, split);
    lemma_star(words, more, tilde, split);
    assert(more.args.drop_last() =~= sh.args);
    match sh.var("IFS"@) {
        Some(ifs) => {
            if ifs.len() == 0 {
                assert(ifs.take(0) =~= Seq::empty());
                assert(ifs.take(0) =~= ifs);
            } else {
                assert(ifs.take(1) =~= seq![ifs[0]]);
            }
        },
        None => {},
    }
}

/// The text that a word gives as a single field, where it leaves the shell as it is.
pub open spec fn star_of(words: Vec<Word>, sh: Shell, tilde: bool, split: bool) -> Option<
    Seq<char>,
> {
    match word(Word::DoubleQuoted(words), sh, tilde, split) {
        (Outcome::Value(FieldsView::Single(text)), s1) if s1 == sh => Some(text),
        _ => None,
    }
}

proof fn lemma_star(words: Vec<Word>, sh: Shell, tilde: bool, split: bool)
    requires
        words@ == seq![Word::Param(Parameter::Star)],
        star_text(sh.args, sh) is Some,
    ensures
        star_of(words, sh, tilde, split) == star_text(sh.args, sh),
{
    let start = Quoted::nothing();
    let text = star_text(sh.args, sh)->0;
    let next = start.with_text(text);
    assert(words@[0] == Word::Param(Parameter::Star));
    assert(word(words@[0], sh, false, false) == (Outcome::Value(FieldsView::Star(sh.args)), sh));
    assert(quoted(words@, 0, start, sh) == quoted(words@, 1, next, sh));
    assert(next.current =~= text);
    assert(next.complete.push(next.current) =~= seq![text]);
}

/// A word that is assigned is one text: a single field as it is, the arguments of `$*` with
/// a space between each two of them, and of other fields those that are not empty likewise.
/// Tildes are expanded and fields are not split.
pub proof fn assigned_fields_are_one_text(w: Word, sh: Shell, fields: FieldsView, s1: Shell)
    requires
        gives(w, sh, true, false, fields, s1),
    ensures
        fields matches FieldsView::Single(s) ==> assignment(w, sh) == (Outcome::Value(s), s1),
        fields matches FieldsView::Star(v) ==> assignment(w, sh) == (
            Outcome::Value(separated(v, " "@)),
            s1,
        ),
        (fields is At || fields is Many) ==> assignment(w, sh) == (
            Outcome::Value(fields.joined()),
            s1,
        ),
{
}

/// `${#x}` is the number of bytes of the value of a variable in UTF-8, which is that
/// of its characters where all of them are ASCII; so one more of them makes it one more.
/// It is zero where the variable is unset, and the number of arguments for `$@` and `$*`.
pub proof fn length_is_counted(name: String, sh: Shell, longer: Shell, c: char)
    ensures
        ({
            let s = ParameterSubstitution::Len(Parameter::Var(name));
            &&& sh.var(name@) is None ==> substitution(s, sh) == (
                Outcome::Value(FieldsView::Single("0"@)),
                sh,
            )
            &&& sh.var(name@) matches Some(value) ==> encode_utf8(value).len() <= usize::MAX ==> {
                &&& substitution(s, sh) == (
                    Outcome::Value(FieldsView::Single(decimal(encode_utf8(value).len() as int))),
                    sh,
                )
                &&& is_ascii_chars(value) ==> substitution(s, sh) == (
                    Outcome::Value(FieldsView::Single(decimal(value.len() as int))),
                    sh,
                )
                &&& is_ascii_chars(value) && c <= '\u{7f}' && value.len() < usize::MAX && longer.var(
                    name@,
                ) == Some(value.push(c)) ==> substitution(s, longer) == (
                    Outcome::Value(FieldsView::Single(decimal((value.len() + 1) as int))),
                    longer,
                )
            }
        }),
        sh.args.len() <= usize::MAX ==> {
            let n = (Outcome::Value(FieldsView::Single(decimal(sh.args.len() as int))), sh);
            &&& substitution(ParameterSubstitution::Len(Parameter::At), sh) == n
            &&& substitution(ParameterSubstitution::Len(Parameter::Star), sh) == n
        },
{
    reveal_strlit("0");
    assert(decimal(0) =~= "0"@) by {
        crate::number::decimal_appends_digits(0, 0);
    }
    if sh.var(name@) is Some {
        let value = sh.var(name@)->0;
        if is_ascii_chars(value) {
            vstd::utf8::is_ascii_chars_encode_utf8(value);
            if c <= '\u{7f}' {
                let more = value.push(c);
                assert forall|i: int| 0 <= i < more.len() implies '\0' <= #[trigger] more[i]
                    <= '\u{7f}' by {
                    if i < value.len() {
                        assert(more[i] == value[i]);
                    }
                }
                vstd::utf8::is_ascii_chars_encode_utf8(more);
            }
        }
    }
}

/// The length of a parameter is that of its value, whatever parameter it is: the number of
/// bytes of its one text, or zero without a value. Where the parameter has no meaning,
/// neither has its length.
pub proof fn length_is_that_of_the_value(p: Parameter, sh: Shell, value: Seq<char>)
    ensures
        ({
            let s = ParameterSubstitution::Len(p);
            let (o, s1) = substitution(s, sh);
            &&& s1 == sh
            &&& parameter(p, sh) == Outcome::Value(Some(FieldsView::Single(value)))
                && encode_utf8(value).len() <= usize::MAX ==> o == Outcome::Value(
                FieldsView::Single(decimal(encode_utf8(value).len() as int)),
            )
            &&& parameter(p, sh) == Outcome::Value(None::<FieldsView>) ==> o == Outcome::Value(
                FieldsView::Single("0"@),
            )
            &&& parameter(p, sh) is Undefined ==> o is Undefined
        }),
{
    reveal_strlit("0");
    assert(decimal(0) =~= "0"@) by {
        crate::number::decimal_appends_digits(0, 0);
    }
}

/// What stands in place of a parameter: the fields of a word, with tildes expanded and not split,
/// or one empty field where there is no word.
pub open spec fn in_place(w: Option<Word>, sh: Shell) -> (Outcome<FieldsView>, Shell) {
    match w {
        Some(w) => word(w, sh, true, false),
        None => (Outcome::Value(FieldsView::Single(Seq::empty())), sh),
    }
}

/// Whether the value of a parameter is missing: it is unset, or, where empty counts as missing,
/// all its fields are empty.
pub open spec fn missing(value: Option<FieldsView>, strict: bool) -> bool {
    match value {
        None => true,
        Some(fields) => strict && forall|i: int|
            0 <= i < fields.list().len() ==> #[trigger] fields.list()[i].len() == 0,
    }
}

/// `${p:-w}` is the word where the value of the parameter is missing, and the value otherwise.
/// `${p:+w}` is the word where it is not missing, and an empty field otherwise. A value
/// that is empty but not missing is one empty field.
pub proof fn defaults_and_alternatives(
    strict: bool,
    p: Parameter,
    w: Option<Word>,
    sh: Shell,
    value: Option<FieldsView>,
)
    requires
        parameter(p, sh) == Outcome::Value(value),
    ensures
        ({
            let default = substitution(ParameterSubstitution::Default(strict, p, w), sh);
            let alternative = substitution(ParameterSubstitution::Alternative(strict, p, w), sh);
            let empty = (Outcome::Value(FieldsView::Single(Seq::empty())), sh);
            if missing(value, strict) {
                &&& default == in_place(w, sh)
                &&& alternative == empty
            } else {
                &&& alternative == in_place(w, sh)
                &&& missing(value, true) ==> default == empty
                &&& !missing(value, true) ==> default == (Outcome::Value(value->0), sh)
            }
        }),
{
}

/// `${p:=w}` assigns the word as one text to a variable whose value is missing, and gives the word.
/// No other variable changes. Only variables can be assigned. Nothing is assigned
/// where the value is not missing.
pub proof fn missing_value_is_assigned(
    strict: bool,
    p: Parameter,
    w: Option<Word>,
    sh: Shell,
    value: Option<FieldsView>,
    other: Seq<char>,
)
    requires
        parameter(p, sh) == Outcome::Value(value),
    ensures
        ({
            let s = ParameterSubstitution::Assign(strict, p, w);
            let (o, s2) = substitution(s, sh);
            let (given, s1) = in_place(w, sh);
            if !missing(value, strict) {
                (o, s2) == substitution(ParameterSubstitution::Default(strict, p, w), sh)
            } else {
                match p {
                    Parameter::Var(name) => {
                        &&& o == given
                        &&& given !is Value ==> s2 == s1
                        &&& given matches Outcome::Value(fields) ==> {
                            &&& s2.var(name@) == Some(fields.joined())
                            &&& other != name@ ==> s2.var(other) == s1.var(other)
                            &&& s2.args == s1.args && s2.status == s1.status
                        }
                    },
                    _ => (o, s2) == (Outcome::<FieldsView>::Error(ErrorView::BadAssig(p)), sh),
                }
            }
        }),
{
}

/// `${p:?w}` is an error with the word as one text where the value of the parameter is missing,
/// or with a message that says so where there is no word. It is the value otherwise.
pub proof fn missing_value_is_an_error(
    strict: bool,
    p: Parameter,
    w: Word,
    sh: Shell,
    value: Option<FieldsView>,
)
    requires
        parameter(p, sh) == Outcome::Value(value),
    ensures
        ({
            let told = substitution(ParameterSubstitution::Error(strict, p, Some(w)), sh);
            let plain = substitution(ParameterSubstitution::Error(strict, p, None), sh);
            let (given, s1) = word(w, sh, true, false);
            if !missing(value, strict) {
                let kept = substitution(ParameterSubstitution::Default(strict, p, None), sh);
                told == kept && plain == kept
            } else {
                &&& plain == (
                    Outcome::<FieldsView>::Error(
                        ErrorView::EmptyParameter(p, "parameter null or not set"@),
                    ),
                    sh,
                )
                &&& given matches Outcome::Value(fields) ==> told == (
                    Outcome::<FieldsView>::Error(ErrorView::EmptyParameter(p, fields.joined())),
                    s1,
                )
                &&& given !is Value ==> told == (given, s1)
            }
        }),
{
}

/// An arithmetic substitution is the value of its expression in decimal, and zero without one.
pub proof fn arithmetic_is_written(a: Arith, sh: Shell)
    ensures
        substitution(ParameterSubstitution::Arithmetic(None), sh) == (
            Outcome::Value(FieldsView::Single("0"@)),
            sh,
        ),
        ({
            let (o, s1) = arith(a, sh);
            let (text, s2) = substitution(ParameterSubstitution::Arithmetic(Some(a)), sh);
            &&& s2 == s1
            &&& match o {
                Outcome::Value(n) => text == Outcome::Value(
                    FieldsView::Single(decimal(n as int)),
                ),
                Outcome::Error(e) => text == Outcome::<FieldsView>::Error(e),
                Outcome::Undefined => text == Outcome::<FieldsView>::Undefined,
            }
        }),
{
    reveal_strlit("0");
    assert(decimal(0) =~= "0"@) by {
        crate::number::decimal_appends_digits(0, 0);
    }
}

/// Where nothing is to be removed from a parameter, its value is kept, or one empty field
/// stands for it.
pub proof fn nothing_is_removed(p: Parameter, sh: Shell, value: Option<FieldsView>)
    requires
        parameter(p, sh) == Outcome::Value(value),
    ensures
        ({
            let kept = (
                Outcome::Value(
                    match value {
                        Some(fields) => fields,
                        None => FieldsView::Single(Seq::empty()),
                    },
                ),
                sh,
            );
            &&& substitution(ParameterSubstitution::RemoveSmallestSuffix(p, None), sh) == kept
            &&& substitution(ParameterSubstitution::RemoveLargestSuffix(p, None), sh) == kept
            &&& substitution(ParameterSubstitution::RemoveSmallestPrefix(p, None), sh) == kept
            &&& substitution(ParameterSubstitution::RemoveLargestPrefix(p, None), sh) == kept
        }),
{
}

/// The fields of several words are those of each of them in order, with tildes expanded and split,
/// where each word is evaluated after the ones in front of it.
pub proof fn fields_are_in_order(front: Seq<Word>, w: Word, sh: Shell)
    ensures
        all_fields(Seq::empty(), 0, Seq::empty(), sh) == (
            Outcome::Value(Seq::<Seq<char>>::empty()),
            sh,
        ),
        ({
            let (before, s1) = all_fields(front, 0, Seq::empty(), sh);
            let (last, s2) = word(w, s1, true, true);
            let (o, s3) = all_fields(front.push(w), 0, Seq::empty(), sh);
            match (before, last) {
                (Outcome::Value(list), Outcome::Value(fields)) => {
                    (o, s3) == (Outcome::Value(list + fields.list()), s2)
                },
                (Outcome::Value(_), Outcome::Error(e)) => {
                    (o, s3) == (Outcome::<Seq<Seq<char>>>::Error(e), s2)
                },
                (Outcome::Value(_), Outcome::Undefined) => o is Undefined && s3 == s2,
                _ => (o, s3) == (before, s1),
            }
        }),
{
    lemma_fields_in_order(front, front.push(w), w, 0, Seq::empty(), sh);
}

proof fn lemma_fields_in_order(
    front: Seq<Word>,
    all: Seq<Word>,
    w: Word,
    i: nat,
    fields: Seq<Seq<char>>,
    sh: Shell,
)
    requires
        all == front.push(w),
        i <= front.len(),
    ensures
        ({
            let (before, s1) = all_fields(front, i, fields, sh);
            let (last, s2) = word(w, s1, true, true);
            all_fields(all, i, fields, sh) == (match before {
                Outcome::Value(list) => match last {
                    Outcome::Value(f) => (Outcome::Value(list + f.list()), s2),
                    _ => (last.without_value(), s2),
                },
                _ => (before, s1),
            })
        }),
    decreases front.len() - i,
{
    let (o, s1) = word(all[i as int], sh, true, true);
    if i < front.len() {
        assert(all[i as int] == front[i as int]);
        if o is Value {
            lemma_fields_in_order(front, all, w, i + 1, fields + o->Value_0.list(), s1);
        }
    } else {
        assert(all[i as int] == w);
        if o is Value {
            let list = fields + o->Value_0.list();
            assert(all_fields(all, i + 1, list, s1) == (Outcome::Value(list), s1));
        }
    }
}

} // verus!
