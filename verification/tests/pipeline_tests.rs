use transpiler::prettifier::{prettify_input_ok, Prettifier};
use transpiler::syntax_tree_builder::parse;
use transpiler::tokenizer::tokenize;
use transpiler::transpiler::{is_renderable, nodes_renderable, transpile};

fn run_pipeline(source: &str, indent_char: char, indent_width: u8) -> String {
    let tokens = tokenize(String::from(source)).expect("scanning failed");
    let tree = parse(tokens).expect("parsing failed");
    assert!(is_renderable(&tree), "tree not renderable");
    assert!(nodes_renderable(&tree.children), "top-level statements not renderable");
    let code = transpile(tree);
    assert!(prettify_input_ok(&code), "emitted text starts with a closer");
    Prettifier::new(indent_char, indent_width).prettify(code)
}

#[test]
fn whole_pipeline_on_a_small_method() {
    let out = run_pipeline("namespace N { int F() { return 1; } }", ' ', 4);
    assert_eq!(out, "(ns N)\n\n(defn F []\n    1)\n\n");
}

#[test]
fn whole_pipeline_on_a_branching_method() {
    let out = run_pipeline(
        "namespace N { int Max(a, b) { if (a == b) { return a; } } }",
        ' ',
        2,
    );
    assert_eq!(
        out,
        "(ns N)\n\n(defn Max [a b]\n  (if (= a b)\n    a))\n\n"
    );
}

#[test]
fn whole_pipeline_on_grouped_assignments() {
    let out = run_pipeline("namespace N { int F() { x = 1; y = 2; } }", ' ', 4);
    assert_eq!(out, "(ns N)\n\n(defn F []\n    (let [x 1\n          y 2]))\n\n");
}

#[test]
fn reindented_method_text_gains_indentation_on_a_second_pass() {
    let once = run_pipeline("namespace N { int F() { return 1; } }", ' ', 4);
    let twice = Prettifier::new(' ', 4).prettify(once.clone());
    assert_ne!(twice, once);
    assert_eq!(twice, "(ns N)\n\n(defn F []\n        1)\n\n");
}
