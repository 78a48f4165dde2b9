use transpiler::syntax_tree_builder::{
    find_index_of_last_closing_scope, group_consecutive_assignments, parse, parse_expression,
    ParseError,
};
use transpiler::syntax_tree_node::{SyntaxTreeNode, SyntaxTreeNodeType};
use transpiler::token::{Token, TokenType};
use transpiler::tokenizer::tokenize;

fn scan(source: &str) -> Vec<Token> {
    tokenize(String::from(source)).unwrap()
}

fn parse_source(source: &str) -> Result<SyntaxTreeNode, ParseError> {
    parse(scan(source))
}

#[test]
fn missing_namespace_without_declaration() {
    let r = parse_source("int x;");
    assert!(matches!(r, Err(ParseError::MissingNamespace)));
}

#[test]
fn missing_namespace_on_empty_input() {
    let r = parse(Vec::new());
    assert!(matches!(r, Err(ParseError::MissingNamespace)));
}

#[test]
fn missing_namespace_without_name() {
    let r = parse_source("namespace { }");
    assert!(matches!(r, Err(ParseError::MissingNamespace)));
}

#[test]
fn namespace_root_carries_the_name() {
    let tree = parse_source("namespace Demo").unwrap();
    assert!(matches!(tree.type_, SyntaxTreeNodeType::Namespace));
    assert_eq!(tree.value.as_deref(), Some("Demo"));
    assert!(tree.children.is_empty());
}

#[test]
fn unterminated_scope_in_method() {
    let r = parse_source("namespace N int F() {");
    assert!(matches!(r, Err(ParseError::UnterminatedScope)));
}

#[test]
fn unterminated_scope_nested() {
    let r = parse_source("namespace N int F() { if (x) { y(); }");
    assert!(matches!(r, Err(ParseError::UnterminatedScope)));
}

#[test]
fn class_declarations_are_unsupported() {
    let r = parse_source("namespace N class C { }");
    assert!(matches!(r, Err(ParseError::UnsupportedClassDeclaration)));
}

#[test]
fn unparsable_statement_carries_tokens() {
    let r = parse_source("namespace N int F() { ; }");
    match r {
        Err(ParseError::UnparsableExpression(ts)) => {
            assert!(ts.is_empty());
        }
        other => panic!("expected UnparsableExpression, got {:?}", other),
    }
}

#[test]
fn method_with_arguments_and_literal_body() {
    let tree = parse_source("namespace N { int F(a, b) { return 1; } }").unwrap();
    assert_eq!(tree.children.len(), 1);
    let method = &tree.children[0];
    assert!(matches!(method.type_, SyntaxTreeNodeType::Method));
    assert_eq!(method.value.as_deref(), Some("F"));
    assert_eq!(method.children.len(), 3);
    assert!(matches!(method.children[0].type_, SyntaxTreeNodeType::MethodArgument));
    assert_eq!(method.children[0].value.as_deref(), Some("a"));
    assert!(matches!(method.children[1].type_, SyntaxTreeNodeType::MethodArgument));
    assert_eq!(method.children[1].value.as_deref(), Some("b"));
    assert!(matches!(method.children[2].type_, SyntaxTreeNodeType::Literal));
    assert_eq!(method.children[2].value.as_deref(), Some("1"));
}

#[test]
fn consecutive_assignments_are_grouped() {
    let tree = parse_source("namespace N { int F() { x = 1; y = 2; } }").unwrap();
    let method = &tree.children[0];
    assert_eq!(method.children.len(), 1);
    let grouped = &method.children[0];
    assert!(matches!(grouped.type_, SyntaxTreeNodeType::Assignment));
    assert_eq!(grouped.value, None);
    assert_eq!(grouped.children.len(), 2);
    assert_eq!(grouped.children[0].value.as_deref(), Some("x"));
    assert_eq!(grouped.children[1].value.as_deref(), Some("y"));
    assert!(matches!(grouped.children[0].type_, SyntaxTreeNodeType::Assignment));
    assert!(matches!(grouped.children[1].type_, SyntaxTreeNodeType::Assignment));
}

#[test]
fn lone_assignment_stays_alone() {
    let tree = parse_source("namespace N { int F() { x = 1; } }").unwrap();
    let method = &tree.children[0];
    assert_eq!(method.children.len(), 1);
    let assign = &method.children[0];
    assert!(matches!(assign.type_, SyntaxTreeNodeType::Assignment));
    assert_eq!(assign.value.as_deref(), Some("x"));
    assert_eq!(assign.children.len(), 1);
    assert!(matches!(assign.children[0].type_, SyntaxTreeNodeType::Literal));
}

#[test]
fn grouping_leaves_mixed_runs_apart() {
    let nodes = vec![
        SyntaxTreeNode {
            value: Some(String::from("x")),
            type_: SyntaxTreeNodeType::Assignment,
            children: Vec::new(),
        },
        SyntaxTreeNode {
            value: Some(String::from("c")),
            type_: SyntaxTreeNodeType::Comment,
            children: Vec::new(),
        },
        SyntaxTreeNode {
            value: Some(String::from("y")),
            type_: SyntaxTreeNodeType::Assignment,
            children: Vec::new(),
        },
        SyntaxTreeNode {
            value: Some(String::from("z")),
            type_: SyntaxTreeNodeType::Assignment,
            children: Vec::new(),
        },
    ];
    let grouped = group_consecutive_assignments(nodes);
    assert_eq!(grouped.len(), 3);
    assert!(matches!(grouped[0].type_, SyntaxTreeNodeType::Assignment));
    assert_eq!(grouped[0].value.as_deref(), Some("x"));
    assert!(matches!(grouped[1].type_, SyntaxTreeNodeType::Comment));
    assert!(matches!(grouped[2].type_, SyntaxTreeNodeType::Assignment));
    assert_eq!(grouped[2].value, None);
    assert_eq!(grouped[2].children.len(), 2);
}

#[test]
fn compound_assignment_wraps_an_equals_expression() {
    let tree = parse_source("namespace N { int F() { x += y; } }").unwrap();
    let method = &tree.children[0];
    let assign = &method.children[0];
    assert!(matches!(assign.type_, SyntaxTreeNodeType::Assignment));
    assert_eq!(assign.value.as_deref(), Some("x"));
    let wrapped = &assign.children[0];
    assert!(matches!(wrapped.type_, SyntaxTreeNodeType::Expression));
    assert_eq!(wrapped.value.as_deref(), Some("="));
    assert_eq!(wrapped.children.len(), 2);
    assert_eq!(wrapped.children[0].value.as_deref(), Some("x"));
    assert_eq!(wrapped.children[1].value.as_deref(), Some("y"));
}

#[test]
fn if_branch_holds_condition_then_body() {
    let tree = parse_source("namespace N { int F() { if (x == y) { a(); } } }").unwrap();
    let method = &tree.children[0];
    let branch = &method.children[0];
    assert!(matches!(branch.type_, SyntaxTreeNodeType::Branch));
    assert_eq!(branch.value.as_deref(), Some("if"));
    assert_eq!(branch.children.len(), 2);
    let cond = &branch.children[0];
    assert!(matches!(cond.type_, SyntaxTreeNodeType::EqualityCheck));
    assert_eq!(cond.value.as_deref(), Some("="));
    let call = &branch.children[1];
    assert!(matches!(call.type_, SyntaxTreeNodeType::Expression));
    assert_eq!(call.value.as_deref(), Some("a"));
}

#[test]
fn else_branch_holds_body_only() {
    let tree =
        parse_source("namespace N { int F() { if (x) { a(); } else { b(); } } }").unwrap();
    let method = &tree.children[0];
    assert_eq!(method.children.len(), 2);
    let els = &method.children[1];
    assert!(matches!(els.type_, SyntaxTreeNodeType::Branch));
    assert_eq!(els.value.as_deref(), Some("else"));
    assert_eq!(els.children.len(), 1);
    assert_eq!(els.children[0].value.as_deref(), Some("b"));
}

#[test]
fn numeric_operator_splits_at_first_occurrence() {
    let tree = parse_source("namespace N { int F() { return a + b * c; } }").unwrap();
    let method = &tree.children[0];
    let expr = &method.children[0];
    assert!(matches!(expr.type_, SyntaxTreeNodeType::Expression));
    assert_eq!(expr.value.as_deref(), Some("+"));
    assert_eq!(expr.children.len(), 2);
    assert_eq!(expr.children[0].value.as_deref(), Some("a"));
    let right = &expr.children[1];
    assert_eq!(right.value.as_deref(), Some("*"));
    assert_eq!(right.children[0].value.as_deref(), Some("b"));
    assert_eq!(right.children[1].value.as_deref(), Some("c"));
}

#[test]
fn collections_split_on_commas() {
    let tree = parse_source("namespace N { int F() { xs = [1, 2, 3]; } }").unwrap();
    let method = &tree.children[0];
    let assign = &method.children[0];
    let coll = &assign.children[0];
    assert!(matches!(coll.type_, SyntaxTreeNodeType::Collection));
    assert_eq!(coll.value, None);
    assert_eq!(coll.children.len(), 3);
    assert_eq!(coll.children[1].value.as_deref(), Some("2"));
}

#[test]
fn calls_with_no_arguments_have_no_children() {
    let tree = parse_source("namespace N { int F() { G(); } }").unwrap();
    let method = &tree.children[0];
    let call = &method.children[0];
    assert!(matches!(call.type_, SyntaxTreeNodeType::Expression));
    assert_eq!(call.value.as_deref(), Some("G"));
    assert!(call.children.is_empty());
}

#[test]
fn dotted_call_keeps_receiver_first() {
    let tree = parse_source("namespace N { int F() { x = a.G(b, c); } }").unwrap();
    let method = &tree.children[0];
    let assign = &method.children[0];
    let call = &assign.children[0];
    assert!(matches!(call.type_, SyntaxTreeNodeType::Expression));
    assert_eq!(call.value.as_deref(), Some("G"));
    assert_eq!(call.children.len(), 3);
    assert!(matches!(call.children[0].type_, SyntaxTreeNodeType::Literal));
    assert_eq!(call.children[0].value.as_deref(), Some("a"));
    assert_eq!(call.children[1].value.as_deref(), Some("b"));
    assert_eq!(call.children[2].value.as_deref(), Some("c"));
}

#[test]
fn comments_become_comment_leaves() {
    let tree = parse_source("namespace N { int F() { // note\n a(); } }").unwrap();
    let method = &tree.children[0];
    assert_eq!(method.children.len(), 2);
    assert!(matches!(method.children[0].type_, SyntaxTreeNodeType::Comment));
    assert_eq!(method.children[0].value.as_deref(), Some(" note"));
}

#[test]
fn bare_top_level_call_statement() {
    let tree = parse_source("namespace N G(x);").unwrap();
    assert_eq!(tree.children.len(), 1);
    let call = &tree.children[0];
    assert!(matches!(call.type_, SyntaxTreeNodeType::Expression));
    assert_eq!(call.value.as_deref(), Some("G"));
    assert_eq!(call.children.len(), 1);
}

#[test]
fn stray_tokens_are_skipped() {
    let tree = parse_source("namespace N ; ; + }").unwrap();
    assert!(tree.children.is_empty());
}

#[test]
fn balanced_scope_search() {
    let tokens = scan("int F() { { } { } } }");
    let end = find_index_of_last_closing_scope(&tokens, 0);
    assert_eq!(end, Some(9));
    let none = find_index_of_last_closing_scope(&scan("{ {"), 0);
    assert_eq!(none, None);
}

#[test]
fn expression_parser_peels_outer_parentheses() {
    let tokens = scan("(a)");
    let node = parse_expression(&tokens).unwrap();
    assert!(matches!(node.type_, SyntaxTreeNodeType::Literal));
    assert_eq!(node.value.as_deref(), Some("a"));
}

#[test]
fn expression_parser_rejects_garbage() {
    let tokens = scan("= x");
    let r = parse_expression(&tokens);
    assert!(matches!(r, Err(ParseError::UnparsableExpression(_))));
}

#[test]
fn return_keyword_is_stripped() {
    let tokens = scan("return x;");
    let node = parse_expression(&tokens).unwrap();
    assert!(matches!(node.type_, SyntaxTreeNodeType::Literal));
    assert_eq!(node.value.as_deref(), Some("x"));
}
