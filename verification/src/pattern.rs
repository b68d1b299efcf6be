//! Patterns: matching texts against them, and removing from a text what matches.

use crate::fields::{Fields, FieldsView};
use crate::param::fields_view;
use crate::text::{chars_of, share, string_of, texts};
use std::rc::Rc;
use vstd::prelude::*;
use vstd::string::*;

verus! {

/// Whether `glob::Pattern::new` accepts a text as a pattern.
pub uninterp spec fn glob_accepts(pattern: Seq<char>) -> bool;

/// Whether `glob::Pattern::matches_with` finds that a text matches a pattern, where neither
/// separators nor leading dots are special.
pub uninterp spec fn glob_matches(pattern: Seq<char>, text: Seq<char>, case_sensitive: bool) -> bool;

/// Whether a text means the same on every system: a backslash separates the parts of a path
/// on some of them only.
pub open spec fn portable_text(text: Seq<char>) -> bool {
    forall|i: int| 0 <= i < text.len() ==> #[trigger] text[i] != '\\'
}

/// Whether a pattern means the same on every system. One with `**` in it
/// depends on what separates the parts of a path there.
pub open spec fn portable(pattern: Seq<char>) -> bool {
    &&& portable_text(pattern)
    &&& forall|i: int|
        0 <= i < pattern.len() - 1 ==> !(#[trigger] pattern[i] == '*' && pattern[i + 1] == '*')
}

/// Matches a text against a pattern with `glob::Pattern::matches_with`, after
/// `glob::Pattern::new` has compiled the pattern; there is no result where that fails.
///
/// Both depend on nothing but their arguments, as long as neither separators nor leading dots
/// are special, the pattern has no `**` in it, and there is no backslash. Nothing is claimed
/// otherwise, since then it counts what separates the parts of a path on the system.
#[verifier::external_body]
fn glob_match(
    pattern: &str,
    text: &str,
    case_sensitive: bool,
    require_literal_separator: bool,
    require_literal_leading_dot: bool,
) -> (matched: Option<bool>)
    ensures
        portable(pattern@) && !require_literal_separator && !require_literal_leading_dot ==> {
            &&& matched is Some <==> glob_accepts(pattern@)
            &&& matched matches Some(m) ==> portable_text(text@) ==> m == glob_matches(
                pattern@,
                text@,
                case_sensitive,
            )
        },
{
    let options = glob::MatchOptions {
        case_sensitive,
        require_literal_separator,
        require_literal_leading_dot,
    };
    match glob::Pattern::new(pattern) {
        Ok(compiled) => Some(compiled.matches_with(text, &options)),
        Err(_) => None,
    }
}

/// A pattern that texts can be matched against.
pub struct Pattern {
    text: String,
}

impl View for Pattern {
    type V = Seq<char>;

    closed spec fn view(&self) -> Seq<char> {
        self.text@
    }
}

impl Pattern {
    #[verifier::type_invariant]
    spec fn inv(self) -> bool {
        portable(self.text@) ==> glob_accepts(self.text@)
    }

    /// The pattern that is written like this, if there is one.
    pub fn new(text: &str) -> (pattern: Option<Pattern>)
        ensures
            pattern matches Some(p) ==> p@ == text@,
            portable(text@) ==> (pattern is Some <==> glob_accepts(text@)),
    {
        match glob_match(text, "", true, false, false) {
            Some(_) => Some(Pattern { text: text.to_owned() }),
            None => None,
        }
    }

    /// Whether a text matches the pattern as a whole. Letters match in their own case only,
    /// and wildcards match separators and leading dots too.
    pub fn matches(&self, text: &str) -> (yes: bool)
        ensures
            portable(self@) && portable_text(text@) ==> yes == glob_matches(self@, text@, true),
    {
        proof {
            use_type_invariant(self);
        }
        match glob_match(self.text.as_str(), text, true, false, false) {
            Some(yes) => yes,
            None => false,
        }
    }
}

/// The largest of the numbers below `n` that satisfies a predicate.
pub open spec fn last_hit(hit: spec_fn(int) -> bool, n: int) -> Option<int>
    decreases n,
{
    if n <= 0 {
        None
    } else if hit(n - 1) {
        Some(n - 1)
    } else {
        last_hit(hit, n - 1)
    }
}

/// The smallest of the numbers below `n` that satisfies a predicate.
pub open spec fn first_hit(hit: spec_fn(int) -> bool, n: int) -> Option<int>
    decreases n,
{
    if n <= 0 {
        None
    } else if first_hit(hit, n - 1) is Some {
        first_hit(hit, n - 1)
    } else if hit(n - 1) {
        Some(n - 1)
    } else {
        None
    }
}

/// What is removed from a text: the smallest or the largest suffix or prefix
/// that matches a pattern.
#[derive(PartialEq, Eq, Structural, Clone, Copy, Debug)]
pub enum Removal {
    SmallestSuffix,
    LargestSuffix,
    SmallestPrefix,
    LargestPrefix,
}

impl Removal {
    /// Whether it is a suffix that is removed.
    pub open spec fn of_suffix(self) -> bool {
        self == Removal::SmallestSuffix || self == Removal::LargestSuffix
    }

    /// Where a text is cut, if a part of it matches. A suffix that is removed is never empty;
    /// a prefix may be.
    pub open spec fn cut(self, text: Seq<char>, pattern: Seq<char>) -> Option<int> {
        let suffix = |k: int| glob_matches(pattern, text.skip(k), true);
        let prefix = |k: int| glob_matches(pattern, text.take(k), true);
        match self {
            Removal::SmallestSuffix => last_hit(suffix, text.len() as int),
            Removal::LargestSuffix => first_hit(suffix, text.len() as int),
            Removal::SmallestPrefix => first_hit(prefix, (text.len() + 1) as int),
            Removal::LargestPrefix => last_hit(prefix, (text.len() + 1) as int),
        }
    }

    /// What is left of a text.
    pub open spec fn left_of(self, text: Seq<char>, pattern: Seq<char>) -> Seq<char> {
        match self.cut(text, pattern) {
            Some(k) => if self.of_suffix() {
                text.take(k)
            } else {
                text.skip(k)
            },
            None => text,
        }
    }

    /// What is left of each of a list of texts.
    pub open spec fn left_of_each(self, list: Seq<Seq<char>>, pattern: Seq<char>) -> Seq<Seq<char>> {
        Seq::new(list.len(), |i: int| self.left_of(list[i], pattern))
    }

    /// What is left of fields.
    pub open spec fn left_of_fields(self, fields: FieldsView, pattern: Seq<char>) -> FieldsView {
        match fields {
            FieldsView::Single(s) => FieldsView::Single(self.left_of(s, pattern)),
            FieldsView::At(v) => FieldsView::At(self.left_of_each(v, pattern)),
            FieldsView::Star(v) => FieldsView::Star(self.left_of_each(v, pattern)),
            FieldsView::Many(v) => FieldsView::Many(self.left_of_each(v, pattern)),
        }
    }
}

/// Whether each of a list of texts means the same on every system.
pub open spec fn portable_texts(list: Seq<Rc<String>>) -> bool {
    forall|i: int| 0 <= i < list.len() ==> portable_text((#[trigger] list[i])@)
}

/// Whether fields, if there are any, mean the same on every system.
pub open spec fn portable_fields(fields: Option<Fields>) -> bool {
    match fields {
        Some(Fields::Single(s)) => portable_text(s@),
        Some(Fields::At(v)) => portable_texts(v@),
        Some(Fields::Star(v)) => portable_texts(v@),
        Some(Fields::Many(v)) => portable_texts(v@),
        None => true,
    }
}

impl Pattern {
    /// Removes from a text what matches the pattern.
    pub fn remove(&self, how: Removal, s: Rc<String>) -> (left: Rc<String>)
        ensures
            portable(self@) && portable_text(s@) ==> left@ == how.left_of(s@, self@),
            how.of_suffix() ==> exists|k: int|
                0 <= k <= s@.len() && left@ == #[trigger] s@.take(k),
            !how.of_suffix() ==> exists|k: int|
                0 <= k <= s@.len() && left@ == #[trigger] s@.skip(k),
    {
        let chars = chars_of(s.as_str());
        let n: usize = chars.len();
        proof {
            assert(s@.take(n as int) =~= s@);
            assert(s@.skip(0) =~= s@);
        }
        let cut = match how {
            Removal::SmallestSuffix => self.last_suffix(&chars),
            Removal::LargestSuffix => self.first_suffix(&chars),
            Removal::SmallestPrefix => self.first_prefix(&chars),
            Removal::LargestPrefix => self.last_prefix(&chars),
        };
        match cut {
            Some(k) => match how {
                Removal::SmallestSuffix | Removal::LargestSuffix => {
                    let left = string_of(&chars, 0, k);
                    assert(left@ =~= s@.take(k as int));
                    Rc::new(left)
                },
                Removal::SmallestPrefix | Removal::LargestPrefix => {
                    let left = string_of(&chars, k, n);
                    assert(left@ =~= s@.skip(k as int));
                    Rc::new(left)
                },
            },
            None => s,
        }
    }

    fn last_suffix(&self, chars: &Vec<char>) -> (cut: Option<usize>)
        ensures
            cut matches Some(k) ==> k <= chars@.len(),
            portable(self@) && portable_text(chars@) ==> Removal::SmallestSuffix.cut(
                chars@,
                self@,
            ) == (match cut {
                Some(k) => Some(k as int),
                None => None,
            }),
    {
        let ghost hit = |k: int| glob_matches(self@, chars@.skip(k), true);
        let n: usize = chars.len();
        let mut k: usize = n;
        while k > 0
            invariant
                n == chars@.len(),
                0 <= k <= n,
                hit == (|k: int| glob_matches(self@, chars@.skip(k), true)),
                portable(self@) && portable_text(chars@) ==> last_hit(hit, n as int) == last_hit(hit, k as int),
            decreases k,
        {
            let suffix = string_of(chars, k - 1, n);
            assert(suffix@ =~= chars@.skip(k - 1));
            if self.matches(suffix.as_str()) {
                return Some(k - 1);
            }
            k = k - 1;
        }
        None
    }

    fn first_suffix(&self, chars: &Vec<char>) -> (cut: Option<usize>)
        ensures
            cut matches Some(k) ==> k <= chars@.len(),
            portable(self@) && portable_text(chars@) ==> Removal::LargestSuffix.cut(
                chars@,
                self@,
            ) == (match cut {
                Some(k) => Some(k as int),
                None => None,
            }),
    {
        let ghost hit = |k: int| glob_matches(self@, chars@.skip(k), true);
        let n: usize = chars.len();
        let mut k: usize = 0;
        while k < n
            invariant
                n == chars@.len(),
                0 <= k <= n,
                hit == (|k: int| glob_matches(self@, chars@.skip(k), true)),
                portable(self@) && portable_text(chars@) ==> first_hit(hit, k as int) is None,
            decreases n - k,
        {
            let suffix = string_of(chars, k, n);
            assert(suffix@ =~= chars@.skip(k as int));
            if self.matches(suffix.as_str()) {
                proof {
                    if portable(self@) && portable_text(chars@) {
                        lemma_first_hit_stays(hit, k + 1, n as int);
                    }
                }
                return Some(k);
            }
            k = k + 1;
        }
        None
    }

    fn first_prefix(&self, chars: &Vec<char>) -> (cut: Option<usize>)
        ensures
            cut matches Some(k) ==> k <= chars@.len(),
            portable(self@) && portable_text(chars@) ==> Removal::SmallestPrefix.cut(
                chars@,
                self@,
            ) == (match cut {
                Some(k) => Some(k as int),
                None => None,
            }),
    {
        let ghost hit = |k: int| glob_matches(self@, chars@.take(k), true);
        let n: usize = chars.len();
        let mut k: usize = 0;
        loop
            invariant
                n == chars@.len(),
                0 <= k <= n,
                hit == (|k: int| glob_matches(self@, chars@.take(k), true)),
                portable(self@) && portable_text(chars@) ==> first_hit(hit, k as int) is None,
            decreases n - k,
        {
            let prefix = string_of(chars, 0, k);
            assert(prefix@ =~= chars@.take(k as int));
            if self.matches(prefix.as_str()) {
                proof {
                    if portable(self@) && portable_text(chars@) {
                        lemma_first_hit_stays(hit, k + 1, n + 1);
                    }
                }
                return Some(k);
            }
            if k == n {
                return None;
            }
            k = k + 1;
        }
    }

    fn last_prefix(&self, chars: &Vec<char>) -> (cut: Option<usize>)
        ensures
            cut matches Some(k) ==> k <= chars@.len(),
            portable(self@) && portable_text(chars@) ==> Removal::LargestPrefix.cut(
                chars@,
                self@,
            ) == (match cut {
                Some(k) => Some(k as int),
                None => None,
            }),
    {
        let ghost hit = |k: int| glob_matches(self@, chars@.take(k), true);
        let n: usize = chars.len();
        let mut k: usize = n;
        loop
            invariant
                n == chars@.len(),
                0 <= k <= n,
                hit == (|k: int| glob_matches(self@, chars@.take(k), true)),
                portable(self@) && portable_text(chars@) ==> last_hit(hit, n + 1) == last_hit(hit, k + 1),
            decreases k,
        {
            let prefix = string_of(chars, 0, k);
            assert(prefix@ =~= chars@.take(k as int));
            if self.matches(prefix.as_str()) {
                return Some(k);
            }
            if k == 0 {
                assert(last_hit(hit, 0) is None);
                return None;
            }
            k = k - 1;
        }
    }

    /// Removes from the fields of a parameter, if it has a value, what matches the pattern.
    pub fn remove_from_fields(&self, how: Removal, fields: Option<Fields>) -> (left: Option<Fields>)
        ensures
            left is Some <==> fields is Some,
            portable(self@) && portable_fields(fields) ==> fields_view(left) == (match fields_view(fields) {
                Some(f) => Some(how.left_of_fields(f, self@)),
                None => None,
            }),
    {
        match fields {
            None => None,
            Some(Fields::Single(s)) => Some(Fields::Single(self.remove(how, s))),
            Some(Fields::At(v)) => Some(Fields::At(self.remove_from_each(how, v))),
            Some(Fields::Star(v)) => Some(Fields::Star(self.remove_from_each(how, v))),
            Some(Fields::Many(v)) => Some(Fields::Many(self.remove_from_each(how, v))),
        }
    }

    fn remove_from_each(&self, how: Removal, list: Vec<Rc<String>>) -> (left: Vec<Rc<String>>)
        ensures
            left@.len() == list@.len(),
            portable(self@) && portable_texts(list@) ==> texts(left@) == how.left_of_each(texts(list@), self@),
    {
        let mut left: Vec<Rc<String>> = Vec::new();
        let mut i: usize = 0;
        while i < list.len()
            invariant
                0 <= i <= list@.len(),
                left@.len() == i,
                portable(self@) && portable_texts(list@) ==> forall|j: int|
                    0 <= j < i ==> (#[trigger] left@[j])@ == how.left_of(list@[j]@, self@),
            decreases list.len() - i,
        {
            left.push(self.remove(how, share(&list[i])));
            i = i + 1;
        }
        proof {
            if portable(self@) && portable_texts(list@) {
                assert(texts(left@) =~= how.left_of_each(texts(list@), self@));
            }
        }
        left
    }
}

proof fn lemma_first_hit_stays(hit: spec_fn(int) -> bool, low: int, high: int)
    requires
        first_hit(hit, low) is Some,
        low <= high,
    ensures
        first_hit(hit, high) == first_hit(hit, low),
    decreases high - low,
{
    if low < high {
        lemma_first_hit_stays(hit, low, high - 1);
    }
}

/// Whether a text matches one of several patterns, as the arm of a `case` command asks.
pub fn matches_any(patterns: &Vec<Pattern>, text: &str) -> (yes: bool)
    ensures
        portable_text(text@) && (forall|i: int|
            0 <= i < patterns@.len() ==> portable(#[trigger] patterns@[i]@)) ==> yes == exists|i: int|
            0 <= i < patterns@.len() && glob_matches(#[trigger] patterns@[i]@, text@, true),
{
    let mut i: usize = 0;
    while i < patterns.len()
        invariant
            0 <= i <= patterns@.len(),
            portable_text(text@) && (forall|j: int|
                0 <= j < patterns@.len() ==> portable(#[trigger] patterns@[j]@)) ==> forall|j: int|
                0 <= j < i ==> !glob_matches(#[trigger] patterns@[j]@, text@, true),
        decreases patterns.len() - i,
    {
        if patterns[i].matches(text) {
            return true;
        }
        i = i + 1;
    }
    false
}

} // verus!
