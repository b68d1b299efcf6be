//! The fields that words evaluate to.

use crate::text::{
    join_texts, keep_non_empty, non_empty, same_texts, separated, share, share_all, texts,
};
use std::rc::Rc;
use vstd::prelude::*;
use vstd::string::*;

verus! {

/// Represents the types of fields that may result from evaluating a `Word`.
/// It is important to maintain such distinctions because evaluating parameters
/// such as `$@` and `$*` have different behaviors in different contexts.
#[derive(Debug, Eq)]
pub enum Fields {
    /// A single field.
    Single(Rc<String>),
    /// Any number of fields resulting from evaluating the `$@` special parameter.
    At(Vec<Rc<String>>),
    /// Any number of fields resulting from evaluating the `$*` special parameter.
    Star(Vec<Rc<String>>),
    /// A non-zero number of fields that do not have any special meaning.
    Many(Vec<Rc<String>>),
}

/// Fields, with their strings seen as texts.
pub enum FieldsView {
    Single(Seq<char>),
    At(Seq<Seq<char>>),
    Star(Seq<Seq<char>>),
    Many(Seq<Seq<char>>),
}

impl View for Fields {
    type V = FieldsView;

    open spec fn view(&self) -> FieldsView {
        match *self {
            Fields::Single(s) => FieldsView::Single(s@),
            Fields::At(v) => FieldsView::At(texts(v@)),
            Fields::Star(v) => FieldsView::Star(texts(v@)),
            Fields::Many(v) => FieldsView::Many(texts(v@)),
        }
    }
}

impl FieldsView {
    /// Whether there is a field, where fields do not have any special meaning.
    pub open spec fn proper(self) -> bool {
        self matches FieldsView::Many(v) ==> v.len() > 0
    }

    /// The texts of the fields, in order.
    pub open spec fn list(self) -> Seq<Seq<char>> {
        match self {
            FieldsView::Single(s) => seq![s],
            FieldsView::At(v) => v,
            FieldsView::Star(v) => v,
            FieldsView::Many(v) => v,
        }
    }

    /// Whether every field is empty.
    pub open spec fn null(self) -> bool {
        forall|i: int| 0 <= i < self.list().len() ==> #[trigger] self.list()[i].len() == 0
    }

    /// The fields as one text: a single field as it is, and of several those that are not empty,
    /// with a space between each two of them.
    pub open spec fn joined(self) -> Seq<char> {
        match self {
            FieldsView::Single(s) => s,
            _ => separated(non_empty(self.list()), " "@),
        }
    }
}

/// The single empty field.
pub open spec fn null_field() -> FieldsView {
    FieldsView::Single(Seq::empty())
}

impl Fields {
    /// The single empty field.
    pub fn empty() -> (fields: Fields)
        ensures
            fields@ == null_field(),
    {
        Fields::Single(Rc::new(String::new()))
    }

    /// Indicates if a set of fields is considered null.
    ///
    /// A set of fields is null if every single string
    /// it holds is the empty string.
    pub fn is_null(&self) -> (yes: bool)
        ensures
            yes == self@.null(),
    {
        match self {
            Fields::Single(s) => {
                assert(self@.list()[0] == s@);
                s.as_str().is_empty()
            },
            Fields::At(v) | Fields::Star(v) | Fields::Many(v) => {
                assert(self@.list() == texts(v@));
                all_empty(v)
            },
        }
    }

    /// Joins all fields using a space. Of several fields, the empty ones are left out.
    pub fn join(self) -> (joined: Rc<String>)
        ensures
            joined@ == self@.joined(),
    {
        match self {
            Fields::Single(s) => s,
            Fields::At(v) | Fields::Star(v) | Fields::Many(v) => Rc::new(
                join_texts(&keep_non_empty(&v), " "),
            ),
        }
    }

    /// The fields as a list.
    pub fn into_vec(self) -> (list: Vec<Rc<String>>)
        ensures
            texts(list@) == self@.list(),
    {
        match self {
            Fields::Single(s) => {
                let mut list: Vec<Rc<String>> = Vec::new();
                list.push(s);
                assert(texts(list@) =~= self@.list());
                list
            },
            Fields::At(v) => v,
            Fields::Star(v) => v,
            Fields::Many(v) => v,
        }
    }
}

fn all_empty(list: &Vec<Rc<String>>) -> (yes: bool)
    ensures
        yes == (forall|i: int|
            0 <= i < texts(list@).len() ==> #[trigger] texts(list@)[i].len() == 0),
{
    let mut i: usize = 0;
    while i < list.len()
        invariant
            0 <= i <= list@.len(),
            forall|j: int| 0 <= j < i ==> #[trigger] texts(list@)[j].len() == 0,
        decreases list.len() - i,
    {
        if !list[i].as_str().is_empty() {
            assert(texts(list@)[i as int].len() != 0);
            return false;
        }
        i = i + 1;
    }
    true
}

impl Clone for Fields {
    fn clone(&self) -> (copy: Self)
        ensures
            copy@ == self@,
    {
        match self {
            Fields::Single(s) => Fields::Single(share(s)),
            Fields::At(v) => Fields::At(share_all(v)),
            Fields::Star(v) => Fields::Star(share_all(v)),
            Fields::Many(v) => Fields::Many(share_all(v)),
        }
    }
}

impl PartialEq for Fields {
    fn eq(&self, other: &Self) -> (same: bool) {
        match (self, other) {
            (Fields::Single(a), Fields::Single(b)) => **a == **b,
            (Fields::At(a), Fields::At(b)) => same_texts(a, b),
            (Fields::Star(a), Fields::Star(b)) => same_texts(a, b),
            (Fields::Many(a), Fields::Many(b)) => same_texts(a, b),
            _ => false,
        }
    }
}

impl vstd::std_specs::cmp::PartialEqSpecImpl for Fields {
    open spec fn obeys_eq_spec() -> bool {
        true
    }

    open spec fn eq_spec(&self, other: &Self) -> bool {
        self@ == other@
    }
}

} // verus!
