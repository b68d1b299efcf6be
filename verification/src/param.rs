//! The evaluation of parameters.

use crate::ast::Parameter;
use crate::env::{Environment, Shell};
use crate::fields::{Fields, FieldsView};
use crate::number::{decimal, to_decimal};
use crate::outcome::{Abort, Outcome};
use crate::text::{share, share_all};
use std::rc::Rc;
use vstd::prelude::*;

verus! {

/// A single field, where there is a text for it.
pub open spec fn single(text: Option<Seq<char>>) -> Option<FieldsView> {
    match text {
        Some(s) => Some(FieldsView::Single(s)),
        None => None,
    }
}

/// What a parameter evaluates to: its fields, if it has a value.
pub open spec fn parameter(p: Parameter, sh: Shell) -> Outcome<Option<FieldsView>> {
    match p {
        Parameter::At => Outcome::Value(Some(FieldsView::At(sh.args))),
        Parameter::Star => Outcome::Value(Some(FieldsView::Star(sh.args))),
        Parameter::Pound => Outcome::Value(single(Some(decimal(sh.args.len() as int)))),
        Parameter::Dollar => Outcome::Value(single(Some(decimal(sh.pid as int)))),
        Parameter::Dash => Outcome::Value(None),
        Parameter::Bang => Outcome::Value(None),
        Parameter::Question => match sh.status.number() {
            Some(n) => Outcome::Value(single(Some(decimal(n)))),
            None => Outcome::Undefined,
        },
        Parameter::Positional(i) => Outcome::Value(single(sh.arg(i as int))),
        Parameter::Var(name) => Outcome::Value(single(sh.var(name@))),
    }
}

/// The texts of fields, where there are any.
pub open spec fn fields_view(fields: Option<Fields>) -> Option<FieldsView> {
    match fields {
        Some(f) => Some(f@),
        None => None,
    }
}

impl Parameter {
    /// Evaluates a parameter in the context of some environment.
    ///
    /// Any fields as a result of evaluating `$@` or `$*` will not be
    /// split further. This is left for the caller to perform.
    pub fn eval<E: Environment>(&self, env: &E) -> (fields: Option<Fields>)
        requires
            parameter(*self, env.state().shell) !is Undefined,
        ensures
            parameter(*self, env.state().shell) == Outcome::Value(fields_view(fields)),
    {
        match self.try_eval(env) {
            Ok(fields) => fields,
            Err(_) => vstd::pervasive::unreached(),
        }
    }

    /// Evaluates a parameter, and says where nothing is defined for it.
    pub fn try_eval<E: Environment>(&self, env: &E) -> (result: Result<Option<Fields>, Abort>)
        ensures
            parameter(*self, env.state().shell) == (match result {
                Ok(fields) => Outcome::Value(fields_view(fields)),
                Err(abort) => abort.outcome(),
            }),
    {
        match self {
            Parameter::At => Ok(Some(Fields::At(share_all(env.args())))),
            Parameter::Star => Ok(Some(Fields::Star(share_all(env.args())))),
            Parameter::Pound => Ok(number_field(env.args_len() as i128)),
            Parameter::Dollar => Ok(number_field(env.process_id() as i128)),
            Parameter::Dash => Ok(None),
            Parameter::Bang => Ok(None),
            Parameter::Question => match env.last_status().to_number() {
                Some(n) => Ok(number_field(n as i128)),
                None => Err(Abort::Undefined),
            },
            Parameter::Positional(i) => match env.arg(*i as usize) {
                Some(arg) => Ok(Some(Fields::Single(share(arg)))),
                None => Ok(None),
            },
            Parameter::Var(name) => match env.var(name.as_str()) {
                Some(value) => Ok(Some(Fields::Single(share(value)))),
                None => Ok(None),
            },
        }
    }
}

fn number_field(n: i128) -> (fields: Option<Fields>)
    requires
        n > i128::MIN,
    ensures
        fields_view(fields) == single(Some(decimal(n as int))),
{
    Some(Fields::Single(Rc::new(to_decimal(n))))
}

} // verus!
