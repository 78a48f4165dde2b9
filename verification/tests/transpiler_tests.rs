use transpiler::syntax_tree_builder::parse;
use transpiler::syntax_tree_node::{SyntaxTreeNode, SyntaxTreeNodeType};
use transpiler::tokenizer::tokenize;
use transpiler::transpiler::{is_renderable, nodes_renderable, transpile};

fn transpile_source(source: &str) -> String {
    let tokens = tokenize(String::from(source)).unwrap();
    let tree = parse(tokens).unwrap();
    assert!(is_renderable(&tree));
    assert!(nodes_renderable(&tree.children));
    transpile(tree)
}

#[test]
fn namespace_header() {
    assert_eq!(transpile_source("namespace Demo"), "(ns Demo)\n\n");
}

#[test]
fn single_literal_method() {
    let out = transpile_source("namespace N { int F() { return 1; } }");
    assert_eq!(out, "(ns N)\n\n(defn F []\n1)\n\n");
}

#[test]
fn method_arguments_are_space_joined() {
    let out = transpile_source("namespace N { int F(a, b) { return 1; } }");
    assert_eq!(out, "(ns N)\n\n(defn F [a b]\n1)\n\n");
}

#[test]
fn null_literal_becomes_nil() {
    let out = transpile_source("namespace N { int F() { return null; } }");
    assert_eq!(out, "(ns N)\n\n(defn F []\nnil)\n\n");
    assert!(!out.contains("null"));
}

#[test]
fn a_name_spelled_almost_null_stays_itself() {
    let out = transpile_source("namespace N { int F() { return nullx; } }");
    assert_eq!(out, "(ns N)\n\n(defn F []\nnullx)\n\n");
}

#[test]
fn lone_assignment_renders_one_binding() {
    let out = transpile_source("namespace N { int F() { x = 1; } }");
    assert_eq!(out, "(ns N)\n\n(defn F []\n(let [x 1]))\n\n");
}

#[test]
fn grouped_assignments_render_one_let_block() {
    let out = transpile_source("namespace N { int F() { x = 1; y = 2; } }");
    assert_eq!(out, "(ns N)\n\n(defn F []\n(let [x 1\n  y 2]))\n\n");
}

#[test]
fn compound_assignment_renders_wrapped_equals() {
    let out = transpile_source("namespace N { int F() { x += y; } }");
    assert_eq!(out, "(ns N)\n\n(defn F []\n(let [x (= x y)]))\n\n");
}

#[test]
fn if_branch_renders_condition_then_body() {
    let out = transpile_source("namespace N { int F() { if (x == y) { a(); } } }");
    assert_eq!(out, "(ns N)\n\n(defn F []\n(if (= x y)\n(a )))\n\n");
}

#[test]
fn branch_with_several_statements_renders_a_do_block() {
    let out = transpile_source("namespace N { int F() { if (x) { a(); b(); } } }");
    assert_eq!(out, "(ns N)\n\n(defn F []\n(if x\n(do \n(a )\n(b ))))\n\n");
}

#[test]
fn comments_render_with_two_semicolons() {
    let out = transpile_source("namespace N { int F() { // note\n return 1; } }");
    assert_eq!(out, "(ns N)\n\n(defn F []\n;; note\n1)\n\n");
}

#[test]
fn collections_render_in_brackets() {
    let out = transpile_source("namespace N { int F() { xs = [1, 2]; } }");
    assert_eq!(out, "(ns N)\n\n(defn F []\n(let [xs [1 2]]))\n\n");
}

#[test]
fn numeric_operations_render_prefix() {
    let out = transpile_source("namespace N { int F() { return a + b * c; } }");
    assert_eq!(out, "(ns N)\n\n(defn F []\n(+ a (* b c)))\n\n");
}

#[test]
fn method_rendering_is_parenthesis_balanced() {
    let sources = [
        "namespace N { int F() { return 1; } }",
        "namespace N { int F() { x = 1; y = 2; if (x == y) { a(); b(); } } }",
        "namespace N { int F(a) { return a.G(b, c); } }",
    ];
    for source in sources {
        let out = transpile_source(source);
        let opens = out.chars().filter(|c| *c == '(').count();
        let closes = out.chars().filter(|c| *c == ')').count();
        assert_eq!(opens, closes, "unbalanced output for {source}: {out}");
    }
}

#[test]
fn balancing_counts_parens_inside_comments_too() {
    let out = transpile_source("namespace N { int F() { // open (\n return 1; } }");
    let opens = out.chars().filter(|c| *c == '(').count();
    let closes = out.chars().filter(|c| *c == ')').count();
    assert_eq!(opens, closes);
}

#[test]
fn renderability_is_decided() {
    let lit = SyntaxTreeNode {
        value: Some(String::from("1")),
        type_: SyntaxTreeNodeType::Literal,
        children: Vec::new(),
    };
    assert!(is_renderable(&lit));
    let class = SyntaxTreeNode {
        value: Some(String::from("C")),
        type_: SyntaxTreeNodeType::Class,
        children: Vec::new(),
    };
    assert!(!is_renderable(&class));
    let nameless = SyntaxTreeNode {
        value: None,
        type_: SyntaxTreeNodeType::Literal,
        children: Vec::new(),
    };
    assert!(!is_renderable(&nameless));
}
