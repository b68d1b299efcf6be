//! The syntax tree of the shell: words, redirections and commands.

use crate::io::Fd;
use crate::number::{decimal, to_decimal};
use std::rc::Rc;
use vstd::prelude::*;
use vstd::string::*;

verus! {

/// The parameters that can be expanded, e.g. `$foo` or `$1`.
#[derive(Debug, Eq)]
pub enum Parameter {
    /// `$@`
    At,
    /// `$*`
    Star,
    /// `$#`
    Pound,
    /// `$?`
    Question,
    /// `$-`
    Dash,
    /// `$$`
    Dollar,
    /// `$!`
    Bang,
    /// `$0`, `$1`, .., `${10}`, ..
    Positional(u32),
    /// `$foo`
    Var(String),
}

/// A substitution of a parameter, e.g. `${foo:-bar}`.
#[derive(Debug)]
pub enum ParameterSubstitution {
    /// The output of commands: `$(cmd)`.
    Command(Vec<Command>),
    /// The length of the value of a parameter: `${#foo}`.
    Len(Parameter),
    /// The value of an arithmetic expression: `$((1 + 1))`.
    Arithmetic(Option<Arith>),
    /// A default value: `${foo:-word}`, or `${foo-word}` where not strict.
    Default(bool, Parameter, Option<Word>),
    /// A default value that is assigned as well: `${foo:=word}`, or `${foo=word}` where not strict.
    Assign(bool, Parameter, Option<Word>),
    /// An error where there is no value: `${foo:?word}`, or `${foo?word}` where not strict.
    Error(bool, Parameter, Option<Word>),
    /// An alternative where there is a value: `${foo:+word}`, or `${foo+word}` where not strict.
    Alternative(bool, Parameter, Option<Word>),
    /// `${foo%pattern}`
    RemoveSmallestSuffix(Parameter, Option<Word>),
    /// `${foo%%pattern}`
    RemoveLargestSuffix(Parameter, Option<Word>),
    /// `${foo#pattern}`
    RemoveSmallestPrefix(Parameter, Option<Word>),
    /// `${foo##pattern}`
    RemoveLargestPrefix(Parameter, Option<Word>),
}

/// An arithmetic expression.
#[derive(Debug)]
pub enum Arith {
    /// The value of a variable: `foo`.
    Var(String),
    /// A number.
    Literal(isize),
    /// `left ** right`
    Pow(Box<Arith>, Box<Arith>),
    /// `foo++`
    PostIncr(String),
    /// `foo--`
    PostDecr(String),
    /// `++foo`
    PreIncr(String),
    /// `--foo`
    PreDecr(String),
    /// `+expr`
    UnaryPlus(Box<Arith>),
    /// `-expr`
    UnaryMinus(Box<Arith>),
    /// `!expr`
    LogicalNot(Box<Arith>),
    /// `~expr`
    BitwiseNot(Box<Arith>),
    /// `left * right`
    Mult(Box<Arith>, Box<Arith>),
    /// `left / right`
    Div(Box<Arith>, Box<Arith>),
    /// `left % right`
    Modulo(Box<Arith>, Box<Arith>),
    /// `left + right`
    Add(Box<Arith>, Box<Arith>),
    /// `left - right`
    Sub(Box<Arith>, Box<Arith>),
    /// `left << right`
    ShiftLeft(Box<Arith>, Box<Arith>),
    /// `left >> right`
    ShiftRight(Box<Arith>, Box<Arith>),
    /// `left < right`
    Less(Box<Arith>, Box<Arith>),
    /// `left <= right`
    LessEq(Box<Arith>, Box<Arith>),
    /// `left > right`
    Great(Box<Arith>, Box<Arith>),
    /// `left >= right`
    GreatEq(Box<Arith>, Box<Arith>),
    /// `left == right`
    Eq(Box<Arith>, Box<Arith>),
    /// `left != right`
    NotEq(Box<Arith>, Box<Arith>),
    /// `left & right`
    BitwiseAnd(Box<Arith>, Box<Arith>),
    /// `left ^ right`
    BitwiseXor(Box<Arith>, Box<Arith>),
    /// `left | right`
    BitwiseOr(Box<Arith>, Box<Arith>),
    /// `left && right`
    LogicalAnd(Box<Arith>, Box<Arith>),
    /// `left || right`
    LogicalOr(Box<Arith>, Box<Arith>),
    /// `first ? second : third`
    Ternary(Box<Arith>, Box<Arith>, Box<Arith>),
    /// `foo = expr`
    Assign(String, Box<Arith>),
    /// `expr, expr, ..`
    Sequence(Vec<Arith>),
}

/// A word of a command.
#[derive(Debug)]
pub enum Word {
    /// Several words that stand side by side.
    Concat(Vec<Word>),
    /// Words within double quotes.
    DoubleQuoted(Vec<Word>),
    /// Text within single quotes.
    SingleQuoted(String),
    /// Plain text.
    Literal(String),
    /// Text that was escaped with a backslash.
    Escaped(String),
    /// A parameter.
    Param(Parameter),
    /// A substitution.
    Subst(Box<ParameterSubstitution>),
    /// `*`
    Star,
    /// `?`
    Question,
    /// The opening of a set of characters in a pattern.
    SquareOpen,
    /// The closing of a set of characters in a pattern.
    SquareClose,
    /// `~`
    Tilde,
}

/// A redirection of a file descriptor.
#[derive(Debug)]
pub enum Redirect {
    /// `[n]< file`
    Read(Option<Fd>, Word),
    /// `[n]> file`
    Write(Option<Fd>, Word),
    /// `[n]<> file`
    ReadWrite(Option<Fd>, Word),
    /// `[n]>> file`
    Append(Option<Fd>, Word),
    /// `[n]>| file`
    Clobber(Option<Fd>, Word),
    /// `[n]<< text`
    Heredoc(Option<Fd>, Word),
    /// `[n]<& word`
    DupRead(Option<Fd>, Word),
    /// `[n]>& word`
    DupWrite(Option<Fd>, Word),
}

/// A command with its arguments, assignments and redirections.
#[derive(Debug)]
pub struct SimpleCommand {
    /// The name of the command and its arguments, if there is a command.
    pub cmd: Option<(Word, Vec<Word>)>,
    /// The assignments in front of the command.
    pub vars: Vec<(String, Option<Word>)>,
    /// The redirections.
    pub io: Vec<Redirect>,
}

/// A command that is made up of other commands.
#[derive(Debug)]
pub enum CompoundCommand {
    /// `{ body; }`
    Brace(Vec<Command>),
    /// `( body )`
    Subshell(Vec<Command>),
    /// `while guard; do body; done`
    While(Vec<Command>, Vec<Command>),
    /// `until guard; do body; done`
    Until(Vec<Command>, Vec<Command>),
    /// `if guard; then body; elif guard; then body; else body; fi`
    If(Vec<(Vec<Command>, Vec<Command>)>, Option<Vec<Command>>),
    /// `for var in words; do body; done`, or `for var; do body; done`
    For(String, Option<Vec<Word>>, Vec<Command>),
    /// `case word in patterns) body;; .. esac`
    Case(Word, Vec<(Vec<Word>, Vec<Command>)>),
}

/// A command.
#[derive(Debug)]
pub enum Command {
    /// `first && second`
    And(Box<Command>, Box<Command>),
    /// `first || second`
    Or(Box<Command>, Box<Command>),
    /// `[!] first | second | ..`
    Pipe(bool, Vec<Command>),
    /// A compound command with its redirections.
    Compound(Box<CompoundCommand>, Vec<Redirect>),
    /// The definition of a function: `name() body`.
    Function(String, Rc<Command>),
    /// `cmd &`
    Job(Box<Command>),
    /// A simple command.
    Simple(Box<SimpleCommand>),
}

/// How a parameter is written.
pub open spec fn parameter_text(p: Parameter) -> Seq<char> {
    match p {
        Parameter::At => seq!['$', '@'],
        Parameter::Star => seq!['$', '*'],
        Parameter::Pound => seq!['$', '#'],
        Parameter::Question => seq!['$', '?'],
        Parameter::Dash => seq!['$', '-'],
        Parameter::Dollar => seq!['$', '$'],
        Parameter::Bang => seq!['$', '!'],
        Parameter::Positional(n) => if n <= 9 {
            seq!['$'] + decimal(n as int)
        } else {
            seq!['$', '{'] + decimal(n as int) + seq!['}']
        },
        Parameter::Var(name) => seq!['$', '{'] + name@ + seq!['}'],
    }
}

impl Parameter {
    /// Whether two parameters are the same.
    pub open spec fn same(self, other: Parameter) -> bool {
        match (self, other) {
            (Parameter::Positional(a), Parameter::Positional(b)) => a == b,
            (Parameter::Var(a), Parameter::Var(b)) => a@ == b@,
            (Parameter::At, Parameter::At) => true,
            (Parameter::Star, Parameter::Star) => true,
            (Parameter::Pound, Parameter::Pound) => true,
            (Parameter::Question, Parameter::Question) => true,
            (Parameter::Dash, Parameter::Dash) => true,
            (Parameter::Dollar, Parameter::Dollar) => true,
            (Parameter::Bang, Parameter::Bang) => true,
            _ => false,
        }
    }

    /// Writes the parameter as a script does.
    pub fn to_string(&self) -> (s: String)
        ensures
            s@ == parameter_text(*self),
    {
        let mut s = String::new();
        s.push('$');
        match self {
            Parameter::At => s.push('@'),
            Parameter::Star => s.push('*'),
            Parameter::Pound => s.push('#'),
            Parameter::Question => s.push('?'),
            Parameter::Dash => s.push('-'),
            Parameter::Dollar => s.push('$'),
            Parameter::Bang => s.push('!'),
            Parameter::Positional(n) => {
                if *n > 9 {
                    s.push('{');
                }
                s.append(to_decimal(*n as i128).as_str());
                if *n > 9 {
                    s.push('}');
                }
            },
            Parameter::Var(name) => {
                s.push('{');
                s.append(name.as_str());
                s.push('}');
            },
        }
        assert(s@ =~= parameter_text(*self));
        s
    }
}

impl Clone for Parameter {
    fn clone(&self) -> (copy: Self)
        ensures
            copy == *self,
    {
        match self {
            Parameter::At => Parameter::At,
            Parameter::Star => Parameter::Star,
            Parameter::Pound => Parameter::Pound,
            Parameter::Question => Parameter::Question,
            Parameter::Dash => Parameter::Dash,
            Parameter::Dollar => Parameter::Dollar,
            Parameter::Bang => Parameter::Bang,
            Parameter::Positional(n) => Parameter::Positional(*n),
            Parameter::Var(name) => Parameter::Var(name.clone()),
        }
    }
}

impl PartialEq for Parameter {
    fn eq(&self, other: &Self) -> (same: bool) {
        match (self, other) {
            (Parameter::Positional(a), Parameter::Positional(b)) => *a == *b,
            (Parameter::Var(a), Parameter::Var(b)) => *a == *b,
            (Parameter::At, Parameter::At) => true,
            (Parameter::Star, Parameter::Star) => true,
            (Parameter::Pound, Parameter::Pound) => true,
            (Parameter::Question, Parameter::Question) => true,
            (Parameter::Dash, Parameter::Dash) => true,
            (Parameter::Dollar, Parameter::Dollar) => true,
            (Parameter::Bang, Parameter::Bang) => true,
            _ => false,
        }
    }
}

impl vstd::std_specs::cmp::PartialEqSpecImpl for Parameter {
    open spec fn obeys_eq_spec() -> bool {
        true
    }

    open spec fn eq_spec(&self, other: &Self) -> bool {
        self.same(*other)
    }
}

} // verus!
