use shell_runtime::fields::Fields;
use std::rc::Rc;

fn rc(s: &str) -> Rc<String> {
    Rc::new(String::from(s))
}

fn of_each_kind(strs: &Vec<Rc<String>>) -> Vec<Fields> {
    vec![Fields::At(strs.clone()), Fields::Star(strs.clone()), Fields::Many(strs.clone())]
}

#[test]
fn test_fields_is_null_single_empty_string() {
    assert_eq!(Fields::Single(Rc::new(String::from(""))).is_null(), true);
}

#[test]
fn test_fields_is_null_single_non_empty_string() {
    assert_eq!(Fields::Single(Rc::new(String::from("foo"))).is_null(), false);
}

#[test]
fn test_fields_is_null_many_one_empty_string() {
    let strs = vec![rc("foo"), rc(""), rc("bar")];
    for f in of_each_kind(&strs) {
        assert_eq!(f.is_null(), false);
    }
}

#[test]
fn test_fields_is_null_many_empty_string() {
    let empty = Rc::new(String::from(""));
    let strs = vec![empty.clone(), empty.clone(), empty.clone()];
    for f in of_each_kind(&strs) {
        assert_eq!(f.is_null(), true);
    }
}

#[test]
fn test_fields_join_single() {
    let s = Rc::new(String::from("foo"));
    assert_eq!(Fields::Single(s.clone()).join(), s);
}

#[test]
fn test_fields_join_multiple_only_keeps_non_empty_strings_before_joining_with_space() {
    let strs = vec![rc("foo"), rc(""), rc("bar")];
    for f in of_each_kind(&strs) {
        assert_eq!(&**f.join(), "foo bar");
    }
}

#[test]
fn no_fields_are_null_and_join_to_nothing() {
    for f in of_each_kind(&Vec::new()) {
        assert!(f.is_null());
        assert_eq!(&**f.join(), "");
    }
}

#[test]
fn a_single_field_is_joined_as_it_is() {
    assert_eq!(&**Fields::Single(rc(" a  b ")).join(), " a  b ");
    assert_eq!(&**Fields::empty().join(), "");
}

#[test]
fn fields_as_a_list() {
    assert_eq!(Fields::Single(rc("a")).into_vec(), vec![rc("a")]);
    assert_eq!(Fields::Many(vec![rc("a"), rc("b")]).into_vec(), vec![rc("a"), rc("b")]);
    assert_eq!(Fields::At(Vec::new()).into_vec(), Vec::<Rc<String>>::new());
}

#[test]
fn fields_of_different_kinds_differ() {
    let list = vec![rc("a")];
    assert_eq!(Fields::At(list.clone()), Fields::At(list.clone()));
    assert_ne!(Fields::At(list.clone()), Fields::Star(list.clone()));
    assert_ne!(Fields::Many(list.clone()), Fields::Single(rc("a")));
    assert_ne!(Fields::Many(list), Fields::Many(vec![rc("b")]));
}
