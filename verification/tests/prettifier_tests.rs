use transpiler::prettifier::{prettify_input_ok, Prettifier};

#[test]
fn indentation_follows_depth() {
    let p = Prettifier::new(' ', 4);
    assert_eq!(p.prettify(String::from("(a\nb)")), "(a\n    b)");
}

#[test]
fn nested_depth_indents_further() {
    let p = Prettifier::new(' ', 2);
    assert_eq!(p.prettify(String::from("(a\n(b\nc))")), "(a\n  (b\n    c))");
}

#[test]
fn newline_outside_parentheses_is_left_alone() {
    let p = Prettifier::new(' ', 4);
    assert_eq!(p.prettify(String::from("(a)\n(b)")), "(a)\n(b)");
}

#[test]
fn blank_space_before_a_closer_is_dropped() {
    let p = Prettifier::new(' ', 4);
    assert_eq!(p.prettify(String::from("( a )")), "( a)");
}

#[test]
fn indentation_before_a_closer_is_dropped_too() {
    let p = Prettifier::new(' ', 4);
    assert_eq!(p.prettify(String::from("(a\n)")), "(a)");
}

#[test]
fn indentation_character_is_configurable() {
    let p = Prettifier::new('\t', 1);
    assert_eq!(p.prettify(String::from("(a\nb)")), "(a\n\tb)");
}

#[test]
fn zero_width_adds_nothing() {
    let p = Prettifier::new(' ', 0);
    assert_eq!(p.prettify(String::from("(a\nb)")), "(a\nb)");
}

#[test]
fn reindenting_twice_changes_nothing_without_open_newlines() {
    let p = Prettifier::new(' ', 4);
    let once = p.prettify(String::from("(a)  \n  (b c)"));
    let twice = p.prettify(once.clone());
    assert_eq!(twice, once);
}

#[test]
fn reindenting_twice_differs_on_an_indented_newline() {
    let p = Prettifier::new(' ', 4);
    let once = p.prettify(String::from("(\nx)"));
    assert_eq!(once, "(\n    x)");
    let twice = p.prettify(once.clone());
    assert_ne!(twice, once);
    assert_eq!(twice, "(\n        x)");
}

#[test]
fn input_safety_is_decided() {
    assert!(prettify_input_ok("(a)"));
    assert!(prettify_input_ok(""));
    assert!(prettify_input_ok("a)"));
    assert!(!prettify_input_ok(")"));
    assert!(!prettify_input_ok("   )"));
    assert!(!prettify_input_ok(" \n )("));
}
