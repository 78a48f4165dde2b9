use transpiler::token::{Token, TokenType};
use transpiler::tokenizer::{is_generic_type, tokenize, ScanError};

fn kinds(tokens: &[Token]) -> Vec<TokenType> {
    tokens.iter().map(|t| t.type_).collect()
}

fn text(t: &Token) -> &str {
    t.value.as_deref().unwrap_or("")
}

#[test]
fn keywords_and_identifiers() {
    let tokens = tokenize(String::from("namespace Demo")).unwrap();
    assert_eq!(
        kinds(&tokens),
        vec![TokenType::NamespaceToken, TokenType::NameIdentifierToken]
    );
    assert_eq!(tokens[0].value, None);
    assert_eq!(text(&tokens[1]), "Demo");
}

#[test]
fn type_declarations() {
    let tokens = tokenize(String::from("var int double string bool")).unwrap();
    assert_eq!(tokens.len(), 5);
    for t in &tokens {
        assert!(matches!(t.type_, TokenType::TypeDeclarationToken));
    }
    assert_eq!(text(&tokens[2]), "double");
}

#[test]
fn generic_looking_names_are_type_declarations() {
    let tokens = tokenize(String::from("List<int> xs")).unwrap();
    assert_eq!(
        kinds(&tokens),
        vec![TokenType::TypeDeclarationToken, TokenType::NameIdentifierToken]
    );
    assert_eq!(text(&tokens[0]), "List<int>");
}

#[test]
fn generic_type_detection() {
    assert!(is_generic_type("List<int>"));
    assert!(!is_generic_type("Map<string"));
}

#[test]
fn generic_type_needs_something_between_brackets() {
    assert!(!is_generic_type("a<>"));
    assert!(!is_generic_type("abc"));
    assert!(is_generic_type("a<b>"));
}

#[test]
fn literals() {
    let tokens = tokenize(String::from("true false null 42")).unwrap();
    assert_eq!(
        kinds(&tokens),
        vec![
            TokenType::BooleanLiteralToken,
            TokenType::BooleanLiteralToken,
            TokenType::NullLiteralToken,
            TokenType::NumericLiteralToken,
        ]
    );
    assert_eq!(text(&tokens[3]), "42");
}

#[test]
fn decimal_runs_take_dot_and_suffix() {
    let tokens = tokenize(String::from("3.14f 2d")).unwrap();
    assert_eq!(
        kinds(&tokens),
        vec![TokenType::NumericLiteralToken, TokenType::NumericLiteralToken]
    );
    assert_eq!(text(&tokens[0]), "3.14f");
    assert_eq!(text(&tokens[1]), "2d");
}

#[test]
fn branching_and_return() {
    let tokens = tokenize(String::from("if else return")).unwrap();
    assert_eq!(
        kinds(&tokens),
        vec![
            TokenType::BranchingOperatorToken,
            TokenType::BranchingOperatorToken,
            TokenType::ReturnToken,
        ]
    );
    assert_eq!(text(&tokens[0]), "if");
    assert_eq!(text(&tokens[1]), "else");
}

#[test]
fn multi_character_operators() {
    let tokens = tokenize(String::from("a == b && c += d")).unwrap();
    assert_eq!(
        kinds(&tokens),
        vec![
            TokenType::NameIdentifierToken,
            TokenType::EqualityOperatorToken,
            TokenType::NameIdentifierToken,
            TokenType::BooleanOperationToken,
            TokenType::NameIdentifierToken,
            TokenType::AssignmentOperatorToken,
            TokenType::NameIdentifierToken,
        ]
    );
    assert_eq!(tokens[1].value, None);
    assert_eq!(text(&tokens[3]), "&&");
    assert_eq!(text(&tokens[5]), "+=");
}

#[test]
fn single_punctuation() {
    let tokens = tokenize(String::from("(){}[];,.+-*/|&=")).unwrap();
    assert_eq!(
        kinds(&tokens),
        vec![
            TokenType::OpenParenthesisToken,
            TokenType::CloseParenthesisToken,
            TokenType::OpenScopeToken,
            TokenType::CloseScopeToken,
            TokenType::OpenCollectionToken,
            TokenType::CloseCollectionToken,
            TokenType::SemicolonToken,
            TokenType::CommaToken,
            TokenType::DotMethodToken,
            TokenType::NumericOperationToken,
            TokenType::NumericOperationToken,
            TokenType::NumericOperationToken,
            TokenType::NumericOperationToken,
            TokenType::BooleanOperationToken,
            TokenType::BooleanOperationToken,
            TokenType::AssignmentOperatorToken,
        ]
    );
    assert_eq!(text(&tokens[9]), "+");
    assert_eq!(text(&tokens[13]), "|");
}

#[test]
fn comments_run_to_end_of_line() {
    let tokens = tokenize(String::from("a // rest of line\nb")).unwrap();
    assert_eq!(
        kinds(&tokens),
        vec![
            TokenType::NameIdentifierToken,
            TokenType::CommentToken,
            TokenType::NameIdentifierToken,
        ]
    );
    assert_eq!(text(&tokens[1]), " rest of line");
}

#[test]
fn unrecognized_character_is_reported() {
    let r = tokenize(String::from("a \u{0001} b"));
    assert!(matches!(r, Err(ScanError::UnrecognizedCharacter('\u{0001}'))));
}

#[test]
fn comment_stops_before_a_carriage_return() {
    let tokens = tokenize(String::from("// note\r\nx")).unwrap();
    assert_eq!(
        kinds(&tokens),
        vec![TokenType::CommentToken, TokenType::NameIdentifierToken]
    );
    assert_eq!(text(&tokens[0]), " note");
}

#[test]
fn a_lone_angle_bracket_is_unrecognized() {
    let r = tokenize(String::from("a < b"));
    assert!(matches!(r, Err(ScanError::UnrecognizedCharacter('<'))));
}

#[test]
fn a_digit_run_stops_at_other_letters() {
    let tokens = tokenize(String::from("123abc")).unwrap();
    assert_eq!(
        kinds(&tokens),
        vec![TokenType::NumericLiteralToken, TokenType::NameIdentifierToken]
    );
    assert_eq!(text(&tokens[0]), "123");
    assert_eq!(text(&tokens[1]), "abc");
}

#[test]
fn scan_of_empty_text_is_empty() {
    let tokens = tokenize(String::new()).unwrap();
    assert!(tokens.is_empty());
}

fn token_source_text(t: &Token) -> String {
    match t.type_ {
        TokenType::NamespaceToken => String::from("namespace"),
        TokenType::ClassToken => String::from("class"),
        TokenType::EqualityOperatorToken => String::from("=="),
        TokenType::AssignmentOperatorToken => match &t.value {
            Some(v) => v.clone(),
            None => String::from("="),
        },
        TokenType::OpenParenthesisToken => String::from("("),
        TokenType::CloseParenthesisToken => String::from(")"),
        TokenType::OpenScopeToken => String::from("{"),
        TokenType::CloseScopeToken => String::from("}"),
        TokenType::OpenCollectionToken => String::from("["),
        TokenType::CloseCollectionToken => String::from("]"),
        TokenType::SemicolonToken => String::from(";"),
        TokenType::CommaToken => String::from(","),
        TokenType::DotMethodToken => String::from("."),
        TokenType::CommentToken => format!("//{}", t.value.as_deref().unwrap_or("")),
        _ => t.value.clone().unwrap_or_default(),
    }
}

fn strip_spaces(s: &str) -> String {
    s.chars().filter(|c| !c.is_whitespace()).collect()
}

#[test]
fn rejoined_token_texts_reproduce_the_input() {
    let source = "namespace N { int F(a, b) { // note\n x += a.G(b); return [1, 2]; } }";
    let tokens = tokenize(String::from(source)).unwrap();
    let rejoined = tokens
        .iter()
        .map(token_source_text)
        .collect::<Vec<String>>()
        .join(" ");
    assert_eq!(strip_spaces(&rejoined), strip_spaces(source));
}
