//! The splitting of fields at the characters of the `IFS` variable.

use crate::env::{Environment, Shell};
use crate::text::{chars_of, contains_char, string_of, texts};
use std::rc::Rc;
use vstd::prelude::*;
use vstd::string::*;

verus! {

/// The characters that fields are split at unless the `IFS` variable is set.
pub const IFS_DEFAULT: &'static str = " \t\n";

/// The fields of a word from an index on, where a field may have begun before it.
///
/// A field begins at the first character that fields are not split at. It ends in front
/// of the next one that they are split at, or with the word.
pub open spec fn fields_from(word: Seq<char>, ifs: Seq<char>, i: int, begun: Option<int>) -> Seq<
    Seq<char>,
>
    decreases word.len() - i,
{
    if i >= word.len() {
        match begun {
            Some(start) => seq![word.subrange(start, word.len() as int)],
            None => Seq::empty(),
        }
    } else {
        match begun {
            Some(start) => if ifs.contains(word[i]) {
                seq![word.subrange(start, i)] + fields_from(word, ifs, i + 1, None)
            } else {
                fields_from(word, ifs, i + 1, begun)
            },
            None => if ifs.contains(word[i]) {
                fields_from(word, ifs, i + 1, None)
            } else {
                fields_from(word, ifs, i + 1, Some(i))
            },
        }
    }
}

/// The fields of several words, in order.
pub open spec fn fields_of_all(words: Seq<Seq<char>>, ifs: Seq<char>) -> Seq<Seq<char>>
    decreases words.len(),
{
    if words.len() == 0 {
        Seq::empty()
    } else {
        fields_of_all(words.drop_last(), ifs) + fields_from(words.last(), ifs, 0, None)
    }
}

/// The characters that fields are split at.
pub open spec fn separators(sh: Shell) -> Seq<char> {
    match sh.var("IFS"@) {
        Some(ifs) => ifs,
        None => IFS_DEFAULT@,
    }
}

/// The fields that words are split into. Nothing is split where there are no characters to split at.
pub open spec fn split_words(words: Seq<Seq<char>>, sh: Shell) -> Seq<Seq<char>> {
    if separators(sh).len() == 0 {
        words
    } else {
        fields_of_all(words, separators(sh))
    }
}

fn push_fields(fields: &mut Vec<Rc<String>>, word: &str, ifs: &Vec<char>)
    ensures
        texts(final(fields)@) == texts(old(fields)@) + fields_from(word@, ifs@, 0, None),
{
    let chars = chars_of(word);
    let mut begun: Option<usize> = None;
    let mut i: usize = 0;
    let ghost goal = texts(fields@) + fields_from(word@, ifs@, 0, None);
    while i < chars.len()
        invariant
            chars@ == word@,
            0 <= i <= chars@.len(),
            begun matches Some(start) ==> start < i,
            goal == texts(fields@) + fields_from(
                word@,
                ifs@,
                i as int,
                match begun {
                    Some(start) => Some(start as int),
                    None => None,
                },
            ),
        decreases chars.len() - i,
    {
        match begun {
            Some(start) => if contains_char(ifs, chars[i]) {
                let ghost before = fields@;
                fields.push(Rc::new(string_of(&chars, start, i)));
                begun = None;
                proof {
                    let field = word@.subrange(start as int, i as int);
                    assert(texts(fields@) =~= texts(before).push(field));
                    let rest = fields_from(word@, ifs@, i + 1, None);
                    assert(texts(before) + (seq![field] + rest) =~= texts(before).push(field)
                        + rest);
                }
            },
            None => if !contains_char(ifs, chars[i]) {
                begun = Some(i);
            },
        }
        i = i + 1;
    }
    match begun {
        Some(start) => {
            let ghost before = fields@;
            let n: usize = chars.len();
            fields.push(Rc::new(string_of(&chars, start, n)));
            assert(texts(fields@) =~= texts(before) + seq![
                word@.subrange(start as int, word@.len() as int),
            ]);
        },
        None => {},
    }
    assert(texts(fields@) =~= goal);
}

/// Splits a list of words into fields, as the `IFS` variable says.
/// No field is empty then, and none has a character in it that fields are split at.
/// With an empty `IFS` the words stay as they are.
pub fn split_fields<E: Environment>(words: Vec<Rc<String>>, env: &E) -> (fields: Vec<Rc<String>>)
    ensures
        texts(fields@) == split_words(texts(words@), env.state().shell),
{
    let ifs = match env.var("IFS") {
        Some(ifs) => chars_of(ifs.as_str()),
        None => chars_of(IFS_DEFAULT),
    };
    if ifs.len() == 0 {
        return words;
    }
    let mut fields: Vec<Rc<String>> = Vec::new();
    let mut i: usize = 0;
    assert(texts(fields@) =~= fields_of_all(texts(words@).take(0), ifs@));
    while i < words.len()
        invariant
            0 <= i <= words@.len(),
            texts(fields@) == fields_of_all(texts(words@).take(i as int), ifs@),
        decreases words.len() - i,
    {
        push_fields(&mut fields, words[i].as_str(), &ifs);
        proof {
            assert(texts(words@).take(i + 1).drop_last() =~= texts(words@).take(i as int));
            assert(texts(words@).take(i + 1).last() == words@[i as int]@);
        }
        i = i + 1;
    }
    assert(texts(words@).take(i as int) =~= texts(words@));
    fields
}

} // verus!
