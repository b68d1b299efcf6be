//! A runtime for shell scripts: it evaluates words and runs commands.
//!
//! - Values: [`text`], [`number`], [`fields`], [`status`], [`io`] and [`error`].
//! - The syntax tree of scripts: [`ast`].
//! - The environment of a script: [`env`], on top of [`strmap`].
//! - Evaluation: [`param`], [`arith`], [`split`], [`pattern`], [`word`] and [`redirect`], whose
//!   results are described by [`outcome`].
//! - Commands: [`machine`] says what each step of a running command does, and [`run`] does it.
//! - What holds of it all: [`laws`] of values, environments and evaluations, [`facts`] on what
//!   values and environments say, [`shown`] on how they are seen, [`calculations`] on expressions,
//!   [`expansions`] on words, [`targets`] on redirections and [`programs`] on simple commands,
//!   [`course`], [`constructs`] and [`ways`] on whole commands, and [`invariants`] of running ones.

pub mod arith;
pub mod ast;
pub mod calculations;
pub mod constructs;
pub mod course;
pub mod env;
pub mod error;
pub mod expansions;
pub mod facts;
pub mod fields;
pub mod invariants;
pub mod io;
pub mod laws;
pub mod machine;
pub mod number;
pub mod outcome;
pub mod param;
pub mod pattern;
pub mod programs;
pub mod redirect;
pub mod run;
pub mod shown;
pub mod split;
pub mod status;
pub mod strmap;
pub mod targets;
pub mod text;
pub mod ways;
pub mod word;
