use shell_runtime::ast::{Arith, Parameter, ParameterSubstitution, Word};
use shell_runtime::env::{Env, Environment, ProcessInfo};
use shell_runtime::error::RuntimeError;
use shell_runtime::fields::Fields;
use shell_runtime::outcome::Abort;
use shell_runtime::split::split_fields;
use shell_runtime::word::eval_all;
use std::rc::Rc;

type TestEnv = Env<'static, (), ()>;

fn rc(s: &str) -> Rc<String> {
    Rc::new(String::from(s))
}

fn list(texts: &[&str]) -> Vec<Rc<String>> {
    texts.iter().map(|s| rc(s)).collect()
}

fn single(s: &str) -> Fields {
    Fields::Single(rc(s))
}

fn many(texts: &[&str]) -> Fields {
    Fields::Many(list(texts))
}

fn env_with_args(args: &[&str]) -> TestEnv {
    let args = args.iter().map(|s| String::from(*s)).collect();
    let process = ProcessInfo { name: None, vars: Vec::new(), pid: 1 };
    Env::with_config(Some(String::from("shell")), Some(args), None, process)
}

fn env_with(vars: &[(&str, &str)]) -> TestEnv {
    let mut env = env_with_args(&[]);
    for (name, value) in vars {
        env.set_var(String::from(*name), rc(value));
    }
    env
}

fn lit(s: &str) -> Word {
    Word::Literal(String::from(s))
}

fn var(name: &str) -> Parameter {
    Parameter::Var(String::from(name))
}

fn param(name: &str) -> Word {
    Word::Param(var(name))
}

fn subst(s: ParameterSubstitution) -> Word {
    Word::Subst(Box::new(s))
}

fn quoted(words: Vec<Word>) -> Word {
    Word::DoubleQuoted(words)
}

fn undefined(w: Word, env: &mut TestEnv) -> bool {
    matches!(w.try_eval(env), Err(Abort::Undefined))
}

#[test]
fn plain_text_and_quotes() {
    let env = &mut env_with(&[("HOME", "/home/user")]);
    assert_eq!(lit("a b").eval(env), Ok(single("a b")));
    assert_eq!(Word::SingleQuoted(String::from("$x *")).eval(env), Ok(single("$x *")));
    assert_eq!(Word::Escaped(String::from("~")).eval(env), Ok(single("~")));
    assert_eq!(Word::Star.eval(env), Ok(single("*")));
    assert_eq!(Word::Question.eval(env), Ok(single("?")));
    assert_eq!(Word::SquareOpen.eval(env), Ok(single("]")));
    assert_eq!(Word::SquareClose.eval(env), Ok(single("[")));
}

#[test]
fn tildes() {
    let env = &mut env_with(&[("HOME", "/home/user")]);
    assert_eq!(Word::Tilde.eval(env), Ok(single("/home/user")));
    assert_eq!(Word::Tilde.eval_with_config(env, false, true), Ok(single("~")));
    assert_eq!(quoted(vec![Word::Tilde]).eval(env), Ok(single("~")));
    assert_eq!(
        Word::Concat(vec![Word::Tilde, lit("/bin")]).eval(env),
        Ok(single("/home/user/bin"))
    );
    assert_eq!(Word::Tilde.eval(&mut env_with(&[])), Ok(single("")));
}

#[test]
fn parameters_are_split() {
    let env = &mut env_with(&[("x", "  a b\t\nc "), ("one", " a "), ("none", " \t"), ("no", "")]);
    assert_eq!(param("x").eval(env), Ok(many(&["a", "b", "c"])));
    assert_eq!(param("one").eval(env), Ok(single("a")));
    assert_eq!(param("none").eval(env), Ok(Fields::At(list(&[]))));
    assert_eq!(param("no").eval(env), Ok(Fields::At(list(&[]))));
    assert_eq!(param("unset").eval(env), Ok(Fields::At(list(&[]))));
    assert_eq!(param("x").eval_with_config(env, true, false), Ok(single("  a b\t\nc ")));
    assert_eq!(param("unset").eval_with_config(env, true, false), Ok(single("")));
    assert_eq!(quoted(vec![param("x")]).eval(env), Ok(single("  a b\t\nc ")));
}

#[test]
fn arguments_are_split_one_by_one() {
    let env = &mut env_with_args(&["a b", "", "c"]);
    assert_eq!(Word::Param(Parameter::At).eval(env), Ok(Fields::At(list(&["a", "b", "c"]))));
    assert_eq!(Word::Param(Parameter::Star).eval(env), Ok(Fields::Star(list(&["a", "b", "c"]))));
    assert_eq!(
        Word::Param(Parameter::At).eval_with_config(env, true, false),
        Ok(Fields::At(list(&["a b", "", "c"])))
    );
}

#[test]
fn an_empty_ifs_splits_nothing() {
    let env = &mut env_with(&[("IFS", ""), ("x", " a  b ")]);
    assert_eq!(param("x").eval(env), Ok(single(" a  b ")));
    assert_eq!(split_fields(list(&["", " a"]), env), list(&["", " a"]));
}

#[test]
fn fields_are_split_at_the_characters_of_ifs() {
    let env = &env_with(&[("IFS", ", ")]);
    assert_eq!(split_fields(list(&["a,b", "c d"]), env), list(&["a", "b", "c", "d"]));
    assert_eq!(split_fields(list(&["a, b", "  c"]), env), list(&["a", "b", "c"]));
    assert_eq!(split_fields(list(&["a,", "b "]), env), list(&["a", "b"]));
    // No field begins with a character that fields are split at.
    assert_eq!(split_fields(list(&["a,,b"]), env), list(&["a", "b"]));
    assert_eq!(split_fields(list(&[",a"]), env), list(&["a"]));
    assert_eq!(split_fields(list(&["a ,b"]), env), list(&["a", "b"]));
    assert_eq!(split_fields(list(&[",", ", ,"]), env), list(&[]));
    // What is not in the variable is text, white space or not.
    assert_eq!(split_fields(list(&["a\tb"]), env), list(&["a\tb"]));
    assert_eq!(split_fields(list(&[""]), env), list(&[]));
}

#[test]
fn fields_of_other_alphabets() {
    let env = &env_with(&[]);
    assert_eq!(split_fields(list(&["äöü ß  日本"]), env), list(&["äöü", "ß", "日本"]));
    let env = &env_with(&[("IFS", "\u{3000}、")]);
    assert_eq!(
        split_fields(list(&["\u{3000}日\u{3000}\u{3000}本、語"]), env),
        list(&["日", "本", "語"])
    );
}

#[test]
fn separators_are_no_part_of_a_field() {
    let env = &mut env_with(&[("IFS", ":"), ("x", "a::b"), ("y", ":a"), ("z", "::")]);
    assert_eq!(param("x").eval(env), Ok(many(&["a", "b"])));
    assert_eq!(param("y").eval(env), Ok(single("a")));
    assert_eq!(param("z").eval(env), Ok(Fields::At(list(&[]))));
    assert_eq!(split_fields(list(&[" a : b "]), env), list(&[" a ", " b "]));
}

#[test]
fn several_fields_that_are_split_to_nothing() {
    let env = &mut env_with_args(&[" ", " "]);
    let args = quoted(vec![Word::Param(Parameter::At)]);
    let w = subst(ParameterSubstitution::Default(false, var("x"), Some(args)));
    assert_eq!(w.eval_with_config(env, true, false), Ok(many(&[" ", " "])));
    assert_eq!(w.eval(env), Ok(Fields::At(list(&[]))));
}

#[test]
fn words_side_by_side() {
    let env = &mut env_with(&[("x", "b c"), ("s", " b "), ("no", "")]);
    let around = |w: Word| Word::Concat(vec![lit("a"), w, lit("d")]);
    assert_eq!(around(param("x")).eval(env), Ok(many(&["ab", "cd"])));
    assert_eq!(around(param("s")).eval(env), Ok(single("abd")));
    assert_eq!(around(param("no")).eval(env), Ok(single("ad")));
    assert_eq!(around(quoted(vec![param("x")])).eval(env), Ok(single("ab cd")));
    assert_eq!(Word::Concat(vec![]).eval(env), Ok(single("")));
    assert_eq!(Word::Concat(vec![param("no"), param("unset")]).eval(env), Ok(single("")));
    assert_eq!(Word::Concat(vec![param("x"), param("x")]).eval(env), Ok(many(&["b", "cb", "c"])));
}

#[test]
fn arguments_within_double_quotes_stay_apart() {
    let env = &mut env_with_args(&["a b", "", "c"]);
    let at = || Word::Param(Parameter::At);
    assert_eq!(quoted(vec![at()]).eval(env), Ok(many(&["a b", "", "c"])));
    assert_eq!(
        quoted(vec![lit("<"), at(), lit(">")]).eval(env),
        Ok(many(&["<a b", "", "c>"]))
    );
    assert_eq!(
        quoted(vec![at(), at()]).eval(env),
        Ok(many(&["a b", "", "ca b", "", "c"]))
    );
    assert_eq!(
        quoted(vec![lit("<"), quoted(vec![at()]), lit(">")]).eval(env),
        Ok(many(&["<a b", "", "c>"]))
    );

    let env = &mut env_with_args(&[]);
    let none = || Ok(Fields::At(list(&[])));
    assert_eq!(quoted(vec![at()]).eval(env), none());
    assert_eq!(quoted(vec![at(), at()]).eval(env), none());
    assert_eq!(quoted(vec![quoted(vec![at()]), at()]).eval(env), none());
    assert_eq!(quoted(vec![at()]).eval_as_assignment(env), Ok(rc("")));
    assert_eq!(quoted(vec![lit("<"), at(), lit(">")]).eval(env), Ok(single("<>")));
    // Anything else within the quotes makes a field, be it empty.
    assert_eq!(quoted(vec![]).eval(env), Ok(single("")));
    assert_eq!(quoted(vec![lit(""), at()]).eval(env), Ok(single("")));
    assert_eq!(quoted(vec![at(), param("unset")]).eval(env), Ok(single("")));
    assert_eq!(quoted(vec![at(), quoted(vec![])]).eval(env), Ok(single("")));
    assert_eq!(
        quoted(vec![Word::Param(Parameter::Star)]).eval(env),
        Ok(single(""))
    );
    let empty = &mut env_with_args(&[""]);
    assert_eq!(quoted(vec![at()]).eval(empty), Ok(single("")));
    assert_eq!(quoted(vec![at(), at()]).eval(empty), Ok(single("")));

    let env = &mut env_with_args(&["a"]);
    assert_eq!(quoted(vec![lit("<"), at(), lit(">")]).eval(env), Ok(single("<a>")));
    assert_eq!(quoted(vec![lit("x"), at(), lit("y")]).eval(env), Ok(single("xay")));
    assert_eq!(quoted(vec![at()]).eval(env), Ok(single("a")));
    assert_eq!(quoted(vec![at(), at()]).eval(env), Ok(single("aa")));
}

#[test]
fn all_arguments_as_one_field() {
    let star = || quoted(vec![lit("<"), Word::Param(Parameter::Star), lit(">")]);
    let env = &mut env_with_args(&["a", "", "b"]);
    assert_eq!(star().eval(env), Ok(single("<a  b>")));
    env.set_var(String::from("IFS"), rc(",;"));
    assert_eq!(star().eval(env), Ok(single("<a,,b>")));
    env.set_var(String::from("IFS"), rc(""));
    assert_eq!(star().eval(env), Ok(single("<ab>")));
    env.set_var(String::from("IFS"), rc("é"));
    assert!(undefined(star(), env));
}

#[test]
fn words_side_by_side_within_double_quotes() {
    let env = &mut env_with_args(&["a", "b"]);
    let inner = Word::Concat(vec![lit("<"), Word::Param(Parameter::At)]);
    assert_eq!(quoted(vec![inner, lit(">")]).eval(env), Ok(single("<ab>")));
}

#[test]
fn substitutions_do_not_split_fields_themselves() {
    let env = &mut env_with(&[("y", "a  b")]);
    let default = || ParameterSubstitution::Default(false, var("x"), Some(param("y")));
    assert_eq!(default().eval(env), Ok(single("a  b")));
    assert_eq!(subst(default()).eval(env), Ok(many(&["a", "b"])));
    assert_eq!(subst(default()).eval_as_assignment(env), Ok(rc("a  b")));
    assert_eq!(quoted(vec![subst(default())]).eval(env), Ok(single("a  b")));
}

#[test]
fn several_fields_of_a_substitution_within_double_quotes_have_no_meaning() {
    let env = &mut env_with_args(&["a", "b"]);
    let args = quoted(vec![Word::Param(Parameter::At)]);
    let default = ParameterSubstitution::Default(false, var("x"), Some(args));
    assert!(undefined(quoted(vec![subst(default)]), env));
}

#[test]
fn values_that_are_assigned() {
    let env = &mut env_with_args(&["a b", "", "c"]);
    env.set_var(String::from("x"), rc(" a  b "));
    env.set_var(String::from("IFS"), rc(","));
    assert_eq!(param("x").eval_as_assignment(env), Ok(rc(" a  b ")));
    assert_eq!(Word::Param(Parameter::At).eval_as_assignment(env), Ok(rc("a b c")));
    assert_eq!(Word::Param(Parameter::Star).eval_as_assignment(env), Ok(rc("a b  c")));
    assert_eq!(
        quoted(vec![Word::Param(Parameter::At)]).eval_as_assignment(env),
        Ok(rc("a b c"))
    );
    assert_eq!(Word::Tilde.eval_as_assignment(env), Ok(rc("")));
}

#[test]
fn lengths() {
    let env = &mut env_with_args(&["a", "b", "c"]);
    env.set_var(String::from("x"), rc("foo bar"));
    env.set_var(String::from("u"), rc("äß€"));
    let len = |p: Parameter| subst(ParameterSubstitution::Len(p));
    assert_eq!(len(var("x")).eval(env), Ok(single("7")));
    assert_eq!(len(var("u")).eval(env), Ok(single("7")));
    assert_eq!(len(var("unset")).eval(env), Ok(single("0")));
    assert_eq!(len(Parameter::At).eval(env), Ok(single("3")));
    assert_eq!(len(Parameter::Star).eval(env), Ok(single("3")));
}

#[test]
fn arithmetic() {
    let env = &mut env_with(&[("IFS", "4")]);
    let expr = |a: Option<Arith>| ParameterSubstitution::Arithmetic(a);
    assert_eq!(expr(None).eval(env), Ok(single("0")));
    assert_eq!(expr(Some(Arith::Literal(-142))).eval(env), Ok(single("-142")));
    assert_eq!(
        subst(expr(Some(Arith::Literal(142)))).eval(env),
        Ok(many(&["1", "2"]))
    );
    let zero = Arith::Div(Box::new(Arith::Literal(1)), Box::new(Arith::Literal(0)));
    assert_eq!(expr(Some(zero)).eval(env), Err(RuntimeError::DivideByZero));
}

#[test]
fn defaults() {
    let env = &mut env_with(&[("x", "a"), ("no", "")]);
    let default = |strict: bool, name: &str, w: Option<Word>| {
        ParameterSubstitution::Default(strict, var(name), w)
    };
    for strict in [true, false] {
        assert_eq!(default(strict, "x", Some(lit("d"))).eval(env), Ok(single("a")));
        assert_eq!(default(strict, "unset", Some(lit("d"))).eval(env), Ok(single("d")));
        assert_eq!(default(strict, "unset", None).eval(env), Ok(single("")));
    }
    assert_eq!(default(true, "no", Some(lit("d"))).eval(env), Ok(single("d")));
    assert_eq!(default(false, "no", Some(lit("d"))).eval(env), Ok(single("")));
    assert_eq!(env.var("unset"), None);

    // Arguments that are all empty count as null.
    let env = &mut env_with_args(&["", ""]);
    let of_args = |strict| ParameterSubstitution::Default(strict, Parameter::At, Some(lit("d")));
    assert_eq!(of_args(true).eval(env), Ok(single("d")));
    assert_eq!(of_args(false).eval(env), Ok(single("")));
}

#[test]
fn defaults_that_are_assigned() {
    let assign = |strict: bool, p: Parameter, w: Option<Word>| {
        ParameterSubstitution::Assign(strict, p, w)
    };
    let env = &mut env_with(&[("x", "a"), ("no", ""), ("y", "b  c")]);
    assert_eq!(assign(true, var("x"), Some(lit("d"))).eval(env), Ok(single("a")));
    assert_eq!(&**env.var("x").unwrap(), "a");
    assert_eq!(assign(false, var("no"), Some(lit("d"))).eval(env), Ok(single("")));
    assert_eq!(&**env.var("no").unwrap(), "");
    assert_eq!(assign(true, var("no"), Some(lit("d"))).eval(env), Ok(single("d")));
    assert_eq!(&**env.var("no").unwrap(), "d");
    assert_eq!(assign(false, var("new"), Some(param("y"))).eval(env), Ok(single("b  c")));
    assert_eq!(&**env.var("new").unwrap(), "b  c");
    assert_eq!(assign(false, var("null"), None).eval(env), Ok(single("")));
    assert_eq!(&**env.var("null").unwrap(), "");
}

#[test]
fn special_parameters_are_not_assigned() {
    let env = &mut env_with_args(&[]);
    let specials = vec![
        (Parameter::At, Parameter::At),
        (Parameter::Star, Parameter::Star),
        (Parameter::Dash, Parameter::Dash),
        (Parameter::Bang, Parameter::Bang),
        (Parameter::Positional(3), Parameter::Positional(3)),
    ];
    for (p, q) in specials {
        let assign = ParameterSubstitution::Assign(true, p, Some(lit("d")));
        assert_eq!(assign.eval(env), Err(RuntimeError::BadAssig(q)));
    }
    // These have a value that is never null.
    for p in [Parameter::Pound, Parameter::Question, Parameter::Dollar] {
        let assign = ParameterSubstitution::Assign(true, p, Some(lit("d")));
        assert!(assign.eval(env).is_ok());
    }
}

#[test]
fn errors_for_missing_values() {
    let env = &mut env_with(&[("x", "a"), ("no", ""), ("y", "b  c")]);
    let error = |strict: bool, name: &str, w: Option<Word>| {
        ParameterSubstitution::Error(strict, var(name), w)
    };
    let empty = |name: &str, msg: &str| RuntimeError::EmptyParameter(var(name), rc(msg));
    assert_eq!(error(true, "x", None).eval(env), Ok(single("a")));
    assert_eq!(error(false, "no", None).eval(env), Ok(single("")));
    assert_eq!(
        error(true, "no", None).eval(env),
        Err(empty("no", "parameter null or not set"))
    );
    assert_eq!(
        error(false, "unset", None).eval(env),
        Err(empty("unset", "parameter null or not set"))
    );
    assert_eq!(error(false, "unset", Some(param("y"))).eval(env), Err(empty("unset", "b  c")));
}

#[test]
fn alternatives() {
    let env = &mut env_with(&[("x", "a"), ("no", "")]);
    let alternative = |strict: bool, name: &str, w: Option<Word>| {
        ParameterSubstitution::Alternative(strict, var(name), w)
    };
    for strict in [true, false] {
        assert_eq!(alternative(strict, "x", Some(lit("d"))).eval(env), Ok(single("d")));
        assert_eq!(alternative(strict, "x", None).eval(env), Ok(single("")));
        assert_eq!(alternative(strict, "unset", Some(lit("d"))).eval(env), Ok(single("")));
    }
    assert_eq!(alternative(true, "no", Some(lit("d"))).eval(env), Ok(single("")));
    assert_eq!(alternative(false, "no", Some(lit("d"))).eval(env), Ok(single("d")));
}

#[test]
fn removals_without_a_pattern() {
    let env = &mut env_with(&[("x", "a/b")]);
    assert_eq!(
        ParameterSubstitution::RemoveSmallestSuffix(var("x"), None).eval(env),
        Ok(single("a/b"))
    );
    assert_eq!(
        ParameterSubstitution::RemoveLargestSuffix(var("unset"), None).eval(env),
        Ok(single(""))
    );
    assert_eq!(
        ParameterSubstitution::RemoveSmallestPrefix(Parameter::At, None).eval(env),
        Ok(Fields::At(list(&[])))
    );
    assert_eq!(
        ParameterSubstitution::RemoveLargestPrefix(var("x"), None).eval(env),
        Ok(single("a/b"))
    );
}

#[test]
fn what_cannot_be_evaluated() {
    let env = &mut env_with(&[("x", "a")]);
    assert!(undefined(subst(ParameterSubstitution::Command(Vec::new())), env));
    let remove = ParameterSubstitution::RemoveLargestPrefix(var("x"), Some(lit("a")));
    assert!(undefined(subst(remove), env));
}

#[test]
fn several_words() {
    let env = &mut env_with(&[("x", "a b"), ("no", "")]);
    let words = vec![lit("1"), param("x"), param("no"), quoted(vec![param("no")])];
    assert_eq!(eval_all(&words, env).ok().unwrap(), list(&["1", "a", "b", ""]));
    let failing = vec![
        subst(ParameterSubstitution::Assign(false, var("y"), Some(lit("1")))),
        subst(ParameterSubstitution::Error(false, var("unset"), None)),
        subst(ParameterSubstitution::Assign(false, var("z"), Some(lit("1")))),
    ];
    assert!(matches!(eval_all(&failing, env), Err(Abort::Error(_))));
    assert_eq!(&**env.var("y").unwrap(), "1");
    assert_eq!(env.var("z"), None);
}
