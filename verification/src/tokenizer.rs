use crate::chars::{
    char_is_alnum, char_is_numeric, char_is_punct, char_is_space, chars_to_string, is_alnum_char,
    is_numeric_char, is_punct_char, is_space_char, str_to_chars, subvec, vec_chars_eq,
};
use crate::token::{lemma_tokens_view_push, tokens_view, Token, TokenModel, TokenType};
use vstd::prelude::*;

verus! {

/// Why scanning failed.
#[derive(Debug, Clone, Copy, PartialEq, Eq, Structural)]
pub enum ScanError {
    /// A character matched none of the whitespace, comment, alphanumeric
    /// or punctuation classes; it is carried here.
    UnrecognizedCharacter(char),
}

/// The classes of characters a maximal run may be made of.
#[derive(Debug, Clone, Copy)]
pub enum RunKind {
    /// Letters and digits, with `<` and `>` admitted for generic-looking
    /// type names.
    Word,
    /// Digits, with `.`, `f` and `d` admitted for decimal and float
    /// suffixes.
    Number,
    /// ASCII punctuation.
    Punctuation,
    /// Anything up to a line terminator.
    Comment,
}

/// Whether `c` may continue a run of kind `k`.
pub open spec fn run_char(k: RunKind, c: char) -> bool {
    match k {
        RunKind::Word => is_alnum_char(c) || c == '<' || c == '>',
        RunKind::Number => is_numeric_char(c) || c == '.' || c == 'f' || c == 'd',
        RunKind::Punctuation => is_punct_char(c),
        RunKind::Comment => c != '\r' && c != '\n',
    }
}

/// The end of the maximal run of kind `k` that continues from position
/// `i`: the first position at or after `i` whose character does not
/// continue the run, or the end of the text.
pub open spec fn run_end(s: Seq<char>, i: int, k: RunKind) -> int
    decreases s.len() - i,
{
    if 0 <= i < s.len() && run_char(k, s[i]) {
        run_end(s, i + 1, k)
    } else {
        i
    }
}

/// `run_end` stays within the text, and everything before it continues
/// the run.
pub proof fn lemma_run_end(s: Seq<char>, i: int, k: RunKind)
    requires
        0 <= i <= s.len(),
    ensures
        i <= run_end(s, i, k) <= s.len(),
        forall|j: int| i <= j < run_end(s, i, k) ==> run_char(k, s[j]),
        run_end(s, i, k) < s.len() ==> !run_char(k, s[run_end(s, i, k)]),
    decreases s.len() - i,
{
    if i < s.len() && run_char(k, s[i]) {
        lemma_run_end(s, i + 1, k);
    }
}

/// Scans the maximal run of kind `k` from `start` on and returns the
/// position just past it.
pub fn parse_with_predicate(source: &Vec<char>, start: usize, k: RunKind) -> (e: usize)
    requires
        start <= source@.len(),
    ensures
        e == run_end(source@, start as int, k),
        start <= e <= source@.len(),
{
    proof {
        lemma_run_end(source@, start as int, k);
    }
    let mut e: usize = start;
    while e < source.len() && continues_run(source, e, k)
        invariant
            start <= e <= source@.len(),
            run_end(source@, start as int, k) == run_end(source@, e as int, k),
        decreases source@.len() - e,
    {
        e += 1;
    }
    e
}

/// Decides whether the character at `e` continues a run of kind `k`.
fn continues_run(source: &Vec<char>, e: usize, k: RunKind) -> (r: bool)
    requires
        e < source@.len(),
    ensures
        r == run_char(k, source@[e as int]),
{
    let c = source[e];
    match k {
        RunKind::Word => char_is_alnum(c) || c == '<' || c == '>',
        RunKind::Number => char_is_numeric(c) || c == '.' || c == 'f' || c == 'd',
        RunKind::Punctuation => char_is_punct(c),
        RunKind::Comment => c != '\r' && c != '\n',
    }
}

/// The position of the first occurrence of `c` at or after `i`, if any.
pub open spec fn char_pos(s: Seq<char>, c: char, i: int) -> Option<int>
    decreases s.len() - i,
{
    if !(0 <= i < s.len()) {
        Option::None
    } else if s[i] == c {
        Option::Some(i)
    } else {
        char_pos(s, c, i + 1)
    }
}

/// Whether a run of text looks like a generic type name: it holds a `<`
/// and a `>`, with at least one character between the first of each.
pub open spec fn is_generic_text(t: Seq<char>) -> bool {
    match (char_pos(t, '<', 0), char_pos(t, '>', 0)) {
        (Option::Some(open), Option::Some(close)) => open + 1 != close,
        _ => false,
    }
}

/// The position of the first occurrence of `c` in `v` at or after `i`,
/// if any.
fn find_char_from(v: &Vec<char>, c: char, i: usize) -> (r: Option<usize>)
    requires
        i <= v@.len(),
    ensures
        match r {
            Option::Some(p) => char_pos(v@, c, i as int) == Option::Some(p as int) && i <= p
                < v@.len(),
            Option::None => char_pos(v@, c, i as int) is None,
        },
    decreases v@.len() - i,
{
    let mut j: usize = i;
    while j < v.len()
        invariant
            i <= j <= v@.len(),
            char_pos(v@, c, i as int) == char_pos(v@, c, j as int),
        decreases v@.len() - j,
    {
        if v[j] == c {
            return Some(j);
        }
        j += 1;
    }
    None
}

/// Decides `is_generic_text` of the characters of `text_value`.
pub fn is_generic_type(text_value: &str) -> (r: bool)
    ensures
        r == is_generic_text(text_value@),
{
    let chars = str_to_chars(text_value);
    let open = find_char_from(&chars, '<', 0);
    let close = find_char_from(&chars, '>', 0);
    match (open, close) {
        (Some(o), Some(c)) => c == 0 || o != c - 1,
        _ => false,
    }
}

/// The token a maximal identifier-like run resolves to: a keyword, a
/// type declaration, a literal, or a plain name.
pub open spec fn classify_word_model(text: Seq<char>) -> TokenModel {
    if text == "namespace"@ {
        TokenModel { type_: TokenType::NamespaceToken, value: Option::None }
    } else if text == "class"@ {
        TokenModel { type_: TokenType::ClassToken, value: Option::None }
    } else if text == "var"@ || text == "int"@ || text == "double"@ || text == "string"@ || text
        == "bool"@ {
        TokenModel { type_: TokenType::TypeDeclarationToken, value: Option::Some(text) }
    } else if is_generic_text(text) {
        TokenModel { type_: TokenType::TypeDeclarationToken, value: Option::Some(text) }
    } else if text == "true"@ || text == "false"@ {
        TokenModel { type_: TokenType::BooleanLiteralToken, value: Option::Some(text) }
    } else if text == "null"@ {
        TokenModel { type_: TokenType::NullLiteralToken, value: Option::Some(text) }
    } else if text == "return"@ {
        TokenModel { type_: TokenType::ReturnToken, value: Option::Some(text) }
    } else if text == "if"@ || text == "else"@ {
        TokenModel { type_: TokenType::BranchingOperatorToken, value: Option::Some(text) }
    } else if text.len() > 0 && is_numeric_char(text[0]) {
        TokenModel { type_: TokenType::NumericLiteralToken, value: Option::Some(text) }
    } else {
        TokenModel { type_: TokenType::NameIdentifierToken, value: Option::Some(text) }
    }
}

/// Resolves an identifier-like run to its token.
fn classify_word(run: &Vec<char>) -> (t: Token)
    requires
        run@.len() > 0,
    ensures
        t@ == classify_word_model(run@),
{
    let type_: TokenType = if vec_chars_eq(run, "namespace") {
        TokenType::NamespaceToken
    } else if vec_chars_eq(run, "class") {
        TokenType::ClassToken
    } else if vec_chars_eq(run, "var") || vec_chars_eq(run, "int") || vec_chars_eq(run, "double")
        || vec_chars_eq(run, "string") || vec_chars_eq(run, "bool") {
        TokenType::TypeDeclarationToken
    } else {
        let gen = {
            let s = chars_to_string(run);
            is_generic_type(s.as_str())
        };
        if gen {
            TokenType::TypeDeclarationToken
        } else if vec_chars_eq(run, "true") || vec_chars_eq(run, "false") {
            TokenType::BooleanLiteralToken
        } else if vec_chars_eq(run, "null") {
            TokenType::NullLiteralToken
        } else if vec_chars_eq(run, "return") {
            TokenType::ReturnToken
        } else if vec_chars_eq(run, "if") || vec_chars_eq(run, "else") {
            TokenType::BranchingOperatorToken
        } else if char_is_numeric(run[0]) {
            TokenType::NumericLiteralToken
        } else {
            TokenType::NameIdentifierToken
        }
    };
    match type_ {
        TokenType::NamespaceToken | TokenType::ClassToken => Token { type_, value: None },
        _ => Token { type_, value: Some(chars_to_string(run)) },
    }
}

/// The token a single punctuation character resolves to, if any.
pub open spec fn single_punct_model(c: char) -> Option<TokenModel> {
    if c == '=' {
        Option::Some(TokenModel { type_: TokenType::AssignmentOperatorToken, value: Option::None })
    } else if c == '(' {
        Option::Some(TokenModel { type_: TokenType::OpenParenthesisToken, value: Option::None })
    } else if c == ')' {
        Option::Some(TokenModel { type_: TokenType::CloseParenthesisToken, value: Option::None })
    } else if c == '{' {
        Option::Some(TokenModel { type_: TokenType::OpenScopeToken, value: Option::None })
    } else if c == '}' {
        Option::Some(TokenModel { type_: TokenType::CloseScopeToken, value: Option::None })
    } else if c == '[' {
        Option::Some(TokenModel { type_: TokenType::OpenCollectionToken, value: Option::None })
    } else if c == ']' {
        Option::Some(TokenModel { type_: TokenType::CloseCollectionToken, value: Option::None })
    } else if c == ';' {
        Option::Some(TokenModel { type_: TokenType::SemicolonToken, value: Option::None })
    } else if c == '+' || c == '-' || c == '*' || c == '/' {
        Option::Some(
            TokenModel { type_: TokenType::NumericOperationToken, value: Option::Some(seq![c]) },
        )
    } else if c == '|' || c == '&' {
        Option::Some(
            TokenModel { type_: TokenType::BooleanOperationToken, value: Option::Some(seq![c]) },
        )
    } else if c == ',' {
        Option::Some(TokenModel { type_: TokenType::CommaToken, value: Option::None })
    } else if c == '.' {
        Option::Some(TokenModel { type_: TokenType::DotMethodToken, value: Option::None })
    } else {
        Option::None
    }
}

/// Resolves a single punctuation character to its token.
fn single_punct(c: char) -> (t: Option<Token>)
    ensures
        match t {
            Option::Some(tok) => single_punct_model(c) == Option::Some(tok@),
            Option::None => single_punct_model(c) is None,
        },
{
    let type_: Option<TokenType> = match c {
        '=' => Some(TokenType::AssignmentOperatorToken),
        '(' => Some(TokenType::OpenParenthesisToken),
        ')' => Some(TokenType::CloseParenthesisToken),
        '{' => Some(TokenType::OpenScopeToken),
        '}' => Some(TokenType::CloseScopeToken),
        '[' => Some(TokenType::OpenCollectionToken),
        ']' => Some(TokenType::CloseCollectionToken),
        ';' => Some(TokenType::SemicolonToken),
        '+' | '-' | '*' | '/' => Some(TokenType::NumericOperationToken),
        '|' | '&' => Some(TokenType::BooleanOperationToken),
        ',' => Some(TokenType::CommaToken),
        '.' => Some(TokenType::DotMethodToken),
        _ => None,
    };
    match type_ {
        Some(tt) => match tt {
            TokenType::NumericOperationToken | TokenType::BooleanOperationToken => {
                let mut v: Vec<char> = Vec::new();
                v.push(c);
                proof {
                    assert(v@ =~= seq![c]);
                }
                Some(Token { type_: tt, value: Some(chars_to_string(&v)) })
            },
            _ => Some(Token { type_: tt, value: None }),
        },
        None => None,
    }
}

/// What scanning the text from position `i` on yields: the tokens of its
/// maximal runs in order, or the first unrecognized character.
pub open spec fn scan_spec(s: Seq<char>, i: int) -> Result<Seq<TokenModel>, char>
    decreases s.len() - i,
    via scan_spec_dec
{
    if !(0 <= i < s.len()) {
        Result::Ok(Seq::empty())
    } else {
        let c = s[i];
        if is_space_char(c) {
            scan_spec(s, i + 1)
        } else if c == '/' && i + 1 < s.len() && s[i + 1] == '/' {
            let e = run_end(s, i + 1, RunKind::Comment);
            scan_cons(
                TokenModel {
                    type_: TokenType::CommentToken,
                    value: Option::Some(s.subrange(i + 2, e)),
                },
                scan_spec(s, e),
            )
        } else if is_alnum_char(c) {
            let e = if is_numeric_char(c) {
                run_end(s, i + 1, RunKind::Number)
            } else {
                run_end(s, i + 1, RunKind::Word)
            };
            scan_cons(classify_word_model(s.subrange(i, e)), scan_spec(s, e))
        } else if is_punct_char(c) {
            let e = run_end(s, i + 1, RunKind::Punctuation);
            let run = s.subrange(i, e);
            if run == "=="@ {
                scan_cons(
                    TokenModel { type_: TokenType::EqualityOperatorToken, value: Option::None },
                    scan_spec(s, e),
                )
            } else if run == "&&"@ || run == "||"@ {
                scan_cons(
                    TokenModel {
                        type_: TokenType::BooleanOperationToken,
                        value: Option::Some(run),
                    },
                    scan_spec(s, e),
                )
            } else if run == "+="@ || run == "-="@ || run == "*="@ || run == "/="@ {
                scan_cons(
                    TokenModel {
                        type_: TokenType::AssignmentOperatorToken,
                        value: Option::Some(run),
                    },
                    scan_spec(s, e),
                )
            } else {
                match single_punct_model(c) {
                    Option::Some(t) => scan_cons(t, scan_spec(s, i + 1)),
                    Option::None => Result::Err(c),
                }
            }
        } else {
            Result::Err(c)
        }
    }
}

#[via_fn]
proof fn scan_spec_dec(s: Seq<char>, i: int) {
    if 0 <= i < s.len() {
        lemma_run_end(s, i + 1, RunKind::Comment);
        lemma_run_end(s, i + 1, RunKind::Number);
        lemma_run_end(s, i + 1, RunKind::Word);
        lemma_run_end(s, i + 1, RunKind::Punctuation);
    }
}

/// Prepends a token to what the rest of the scan yields.
pub open spec fn scan_cons(t: TokenModel, rest: Result<Seq<TokenModel>, char>) -> Result<
    Seq<TokenModel>,
    char,
> {
    match rest {
        Result::Ok(ts) => Result::Ok(seq![t] + ts),
        Result::Err(c) => Result::Err(c),
    }
}

/// Appends the tokens already scanned in front of what the rest of the
/// scan yields.
pub open spec fn scan_join(done: Seq<TokenModel>, rest: Result<Seq<TokenModel>, char>) -> Result<
    Seq<TokenModel>,
    char,
> {
    match rest {
        Result::Ok(ts) => Result::Ok(done + ts),
        Result::Err(c) => Result::Err(c),
    }
}

proof fn lemma_scan_join_cons(
    done: Seq<TokenModel>,
    t: TokenModel,
    rest: Result<Seq<TokenModel>, char>,
)
    ensures
        scan_join(done, scan_cons(t, rest)) == scan_join(done.push(t), rest),
{
    match rest {
        Result::Ok(ts) => {
            assert(done + (seq![t] + ts) =~= done.push(t) + ts);
        },
        Result::Err(_) => {},
    }
}

/// The source text a token stands for: its carried text where it has
/// one, else its fixed lexeme.
pub open spec fn token_text(t: TokenModel) -> Seq<char> {
    match t.type_ {
        TokenType::NamespaceToken => "namespace"@,
        TokenType::ClassToken => "class"@,
        TokenType::EqualityOperatorToken => "=="@,
        TokenType::AssignmentOperatorToken => match t.value {
            Option::Some(v) => v,
            Option::None => "="@,
        },
        TokenType::OpenParenthesisToken => "("@,
        TokenType::CloseParenthesisToken => ")"@,
        TokenType::OpenScopeToken => "{"@,
        TokenType::CloseScopeToken => "}"@,
        TokenType::OpenCollectionToken => "["@,
        TokenType::CloseCollectionToken => "]"@,
        TokenType::SemicolonToken => ";"@,
        TokenType::CommaToken => ","@,
        TokenType::DotMethodToken => "."@,
        TokenType::CommentToken => "//"@ + (match t.value {
            Option::Some(v) => v,
            Option::None => Seq::empty(),
        }),
        _ => match t.value {
            Option::Some(v) => v,
            Option::None => Seq::empty(),
        },
    }
}

/// The tokens' texts joined with single spaces.
pub open spec fn join_token_texts(ts: Seq<TokenModel>) -> Seq<char>
    decreases ts.len(),
{
    if ts.len() == 0 {
        Seq::empty()
    } else if ts.len() == 1 {
        token_text(ts[0])
    } else {
        token_text(ts[0]) + " "@ + join_token_texts(ts.subrange(1, ts.len() as int))
    }
}

/// The text with every whitespace character removed.
pub open spec fn strip_spaces(s: Seq<char>) -> Seq<char>
    decreases s.len(),
{
    if s.len() == 0 {
        Seq::empty()
    } else {
        (if is_space_char(s[0]) {
            Seq::<char>::empty()
        } else {
            seq![s[0]]
        }) + strip_spaces(s.subrange(1, s.len() as int))
    }
}

/// Stripping whitespace distributes over concatenation.
pub proof fn lemma_strip_concat(a: Seq<char>, b: Seq<char>)
    ensures
        strip_spaces(a + b) == strip_spaces(a) + strip_spaces(b),
    decreases a.len(),
{
    if a.len() == 0 {
        assert(a + b =~= b);
        assert(strip_spaces(a) + strip_spaces(b) =~= strip_spaces(b));
    } else {
        assert((a + b).subrange(1, (a + b).len() as int) =~= a.subrange(1, a.len() as int) + b);
        lemma_strip_concat(a.subrange(1, a.len() as int), b);
        assert((a + b)[0] == a[0]);
        let h: Seq<char> = if is_space_char(a[0]) {
            Seq::<char>::empty()
        } else {
            seq![a[0]]
        };
        assert(strip_spaces(a + b) == h + (strip_spaces(a.subrange(1, a.len() as int))
            + strip_spaces(b)));
        assert(h + (strip_spaces(a.subrange(1, a.len() as int)) + strip_spaces(b)) =~= (h
            + strip_spaces(a.subrange(1, a.len() as int))) + strip_spaces(b));
    }
}

/// An identifier-like run's token reads back as the run itself.
proof fn lemma_classify_text(text: Seq<char>)
    ensures
        token_text(classify_word_model(text)) == text,
{
}

/// A single punctuation character's token reads back as that character.
proof fn lemma_single_punct_text(c: char)
    requires
        single_punct_model(c) is Some,
    ensures
        token_text(single_punct_model(c)->0) == seq![c],
{
    reveal_strlit("=");
    reveal_strlit("(");
    reveal_strlit(")");
    reveal_strlit("{");
    reveal_strlit("}");
    reveal_strlit("[");
    reveal_strlit("]");
    reveal_strlit(";");
    reveal_strlit(",");
    reveal_strlit(".");
    if c == '=' {
        assert("="@ =~= seq![c]);
    } else if c == '(' {
        assert("("@ =~= seq![c]);
    } else if c == ')' {
        assert(")"@ =~= seq![c]);
    } else if c == '{' {
        assert("{"@ =~= seq![c]);
    } else if c == '}' {
        assert("}"@ =~= seq![c]);
    } else if c == '[' {
        assert("["@ =~= seq![c]);
    } else if c == ']' {
        assert("]"@ =~= seq![c]);
    } else if c == ';' {
        assert(";"@ =~= seq![c]);
    } else if c == ',' {
        assert(","@ =~= seq![c]);
    } else if c == '.' {
        assert("."@ =~= seq![c]);
    }
}

/// Stripping a one-space separator leaves nothing.
proof fn lemma_strip_space()
    ensures
        strip_spaces(" "@) == Seq::<char>::empty(),
{
    reveal_strlit(" ");
    assert(" "@ =~= seq![' ']);
    assert(is_space_char(' '));
    assert(seq![' '].subrange(1, 1) =~= Seq::<char>::empty());
    assert(strip_spaces(Seq::<char>::empty()) == Seq::<char>::empty());
    assert(strip_spaces(seq![' ']) =~= Seq::<char>::empty());
}

/// Stripping the two comment slashes leaves them as they are.
proof fn lemma_strip_slashes()
    ensures
        strip_spaces("//"@) == "//"@,
        "//"@ =~= seq!['/', '/'],
{
    reveal_strlit("//");
    assert("//"@ =~= seq!['/', '/']);
    assert(!is_space_char('/'));
    let two = seq!['/', '/'];
    assert(two.subrange(1, 2) =~= seq!['/']);
    assert(seq!['/'].subrange(1, 1) =~= Seq::<char>::empty());
    assert(strip_spaces(Seq::<char>::empty()) == Seq::<char>::empty());
    assert(strip_spaces(seq!['/']) =~= seq!['/']);
    assert(strip_spaces(two) =~= two);
}

/// Prepending one token's text to a joined tail strips to the token's
/// stripped text followed by the tail's stripped join.
proof fn lemma_strip_join_cons(t: TokenModel, ts: Seq<TokenModel>)
    ensures
        strip_spaces(join_token_texts(seq![t] + ts)) == strip_spaces(token_text(t))
            + strip_spaces(join_token_texts(ts)),
{
    let whole = seq![t] + ts;
    if ts.len() == 0 {
        assert(whole.len() == 1);
        assert(whole[0] == t);
        assert(join_token_texts(whole) == token_text(t));
        assert(strip_spaces(token_text(t)) + strip_spaces(Seq::<char>::empty()) =~= strip_spaces(
            token_text(t),
        ));
    } else {
        assert(whole[0] == t);
        assert(whole.subrange(1, whole.len() as int) =~= ts);
        assert(join_token_texts(whole) == token_text(t) + " "@ + join_token_texts(ts));
        lemma_strip_concat(token_text(t), " "@);
        lemma_strip_concat(token_text(t) + " "@, join_token_texts(ts));
        lemma_strip_space();
        assert(strip_spaces(token_text(t)) + Seq::<char>::empty() =~= strip_spaces(token_text(t)));
    }
}

/// Scanning and then re-joining the tokens' texts with single spaces
/// reproduces the input's non-whitespace characters exactly, from
/// position `i` on.
pub proof fn lemma_scan_round_trip_from(s: Seq<char>, i: int)
    requires
        0 <= i <= s.len(),
    ensures
        match scan_spec(s, i) {
            Result::Ok(ts) => strip_spaces(join_token_texts(ts)) == strip_spaces(
                s.subrange(i, s.len() as int),
            ),
            Result::Err(_) => true,
        },
    decreases s.len() - i,
{
    if i == s.len() {
        assert(s.subrange(i, i) =~= Seq::<char>::empty());
    } else {
        let c = s[i];
        let suffix = s.subrange(i, s.len() as int);
        if is_space_char(c) {
            lemma_scan_round_trip_from(s, i + 1);
            assert(suffix[0] == c);
            assert(suffix.subrange(1, suffix.len() as int) =~= s.subrange(i + 1, s.len() as int));
            assert(strip_spaces(suffix) =~= strip_spaces(s.subrange(i + 1, s.len() as int)));
        } else if c == '/' && i + 1 < s.len() && s[i + 1] == '/' {
            let e = run_end(s, i + 1, RunKind::Comment);
            lemma_run_end(s, i + 1, RunKind::Comment);
            assert(run_char(RunKind::Comment, s[i + 1]));
            assert(run_end(s, i + 1, RunKind::Comment) == run_end(s, i + 2, RunKind::Comment));
            lemma_run_end(s, i + 2, RunKind::Comment);
            lemma_scan_round_trip_from(s, e);
            let t = TokenModel {
                type_: TokenType::CommentToken,
                value: Option::Some(s.subrange(i + 2, e)),
            };
            match scan_spec(s, e) {
                Result::Ok(ts) => {
                    lemma_strip_join_cons(t, ts);
                    lemma_strip_slashes();
                    lemma_strip_concat("//"@, s.subrange(i + 2, e));
                    assert(s.subrange(i, e) =~= seq!['/', '/'] + s.subrange(i + 2, e));
                    lemma_strip_concat(seq!['/', '/'], s.subrange(i + 2, e));
                    assert(strip_spaces(token_text(t)) == strip_spaces(s.subrange(i, e)));
                    assert(suffix =~= s.subrange(i, e) + s.subrange(e, s.len() as int));
                    lemma_strip_concat(s.subrange(i, e), s.subrange(e, s.len() as int));
                },
                Result::Err(_) => {},
            }
        } else if is_alnum_char(c) {
            let e = if is_numeric_char(c) {
                run_end(s, i + 1, RunKind::Number)
            } else {
                run_end(s, i + 1, RunKind::Word)
            };
            if is_numeric_char(c) {
                lemma_run_end(s, i + 1, RunKind::Number);
            } else {
                lemma_run_end(s, i + 1, RunKind::Word);
            }
            lemma_scan_round_trip_from(s, e);
            let t = classify_word_model(s.subrange(i, e));
            match scan_spec(s, e) {
                Result::Ok(ts) => {
                    lemma_strip_join_cons(t, ts);
                    lemma_classify_text(s.subrange(i, e));
                    assert(suffix =~= s.subrange(i, e) + s.subrange(e, s.len() as int));
                    lemma_strip_concat(s.subrange(i, e), s.subrange(e, s.len() as int));
                },
                Result::Err(_) => {},
            }
        } else if is_punct_char(c) {
            let e = run_end(s, i + 1, RunKind::Punctuation);
            lemma_run_end(s, i + 1, RunKind::Punctuation);
            let run = s.subrange(i, e);
            if run == "=="@ || run == "&&"@ || run == "||"@ || run == "+="@ || run == "-="@ || run
                == "*="@ || run == "/="@ {
                lemma_scan_round_trip_from(s, e);
                let t: TokenModel = if run == "=="@ {
                    TokenModel { type_: TokenType::EqualityOperatorToken, value: Option::None }
                } else if run == "&&"@ || run == "||"@ {
                    TokenModel {
                        type_: TokenType::BooleanOperationToken,
                        value: Option::Some(run),
                    }
                } else {
                    TokenModel {
                        type_: TokenType::AssignmentOperatorToken,
                        value: Option::Some(run),
                    }
                };
                match scan_spec(s, e) {
                    Result::Ok(ts) => {
                        lemma_strip_join_cons(t, ts);
                        assert(token_text(t) == run);
                        assert(suffix =~= s.subrange(i, e) + s.subrange(e, s.len() as int));
                        lemma_strip_concat(s.subrange(i, e), s.subrange(e, s.len() as int));
                    },
                    Result::Err(_) => {},
                }
            } else {
                match single_punct_model(c) {
                    Option::Some(t) => {
                        lemma_scan_round_trip_from(s, i + 1);
                        match scan_spec(s, i + 1) {
                            Result::Ok(ts) => {
                                lemma_strip_join_cons(t, ts);
                                lemma_single_punct_text(c);
                                assert(s.subrange(i, i + 1) =~= seq![c]);
                                assert(suffix =~= s.subrange(i, i + 1) + s.subrange(
                                    i + 1,
                                    s.len() as int,
                                ));
                                lemma_strip_concat(
                                    s.subrange(i, i + 1),
                                    s.subrange(i + 1, s.len() as int),
                                );
                            },
                            Result::Err(_) => {},
                        }
                    },
                    Option::None => {},
                }
            }
        }
    }
}

/// Scanning and then re-joining the tokens' texts with single spaces
/// reproduces every non-whitespace character of the input, in order:
/// the two texts are equal once all whitespace is removed from each.
pub proof fn lemma_scan_round_trip(s: Seq<char>)
    ensures
        match scan_spec(s, 0) {
            Result::Ok(ts) => strip_spaces(join_token_texts(ts)) == strip_spaces(s),
            Result::Err(_) => true,
        },
{
    lemma_scan_round_trip_from(s, 0);
    assert(s.subrange(0, s.len() as int) =~= s);
}

/// Turns source text into its sequence of tokens, or reports the first
/// unrecognized character.
pub fn tokenize(source_code_text: String) -> (r: Result<Vec<Token>, ScanError>)
    ensures
        match scan_spec(source_code_text@, 0) {
            Result::Ok(ts) => r matches Ok(v) && tokens_view(v@) == ts,
            Result::Err(c) => r matches Err(e) && e == ScanError::UnrecognizedCharacter(c),
        },
{
    let src = str_to_chars(source_code_text.as_str());
    let ghost s = src@;
    let mut token_queue: Vec<Token> = Vec::new();
    let mut i: usize = 0;
    while i < src.len()
        invariant
            i <= s.len(),
            s == src@,
            s == source_code_text@,
            scan_spec(s, 0) == scan_join(tokens_view(token_queue@), scan_spec(s, i as int)),
        decreases s.len() - i,
    {
        let ghost i0 = i as int;
        let ghost done0 = tokens_view(token_queue@);
        let c = src[i];
        if char_is_space(c) {
            i += 1;
        } else if c == '/' && i + 1 < src.len() && src[i + 1] == '/' {
            let e = parse_with_predicate(&src, i + 1, RunKind::Comment);
            proof {
                assert(run_char(RunKind::Comment, s[i0 + 1]));
                assert(run_end(s, i0 + 1, RunKind::Comment) == run_end(s, i0 + 2, RunKind::Comment));
                lemma_run_end(s, i0 + 2, RunKind::Comment);
            }
            let text = subvec(&src, i + 2, e);
            let tok = Token { type_: TokenType::CommentToken, value: Some(chars_to_string(&text)) };
            proof {
                assert(scan_spec(s, i0) == scan_cons(tok@, scan_spec(s, e as int)));
                lemma_scan_join_cons(done0, tok@, scan_spec(s, e as int));
                lemma_tokens_view_push(token_queue@, tok);
            }
            token_queue.push(tok);
            i = e;
        } else if char_is_alnum(c) {
            let e = if char_is_numeric(c) {
                parse_with_predicate(&src, i + 1, RunKind::Number)
            } else {
                parse_with_predicate(&src, i + 1, RunKind::Word)
            };
            let run = subvec(&src, i, e);
            let tok = classify_word(&run);
            proof {
                assert(scan_spec(s, i0) == scan_cons(tok@, scan_spec(s, e as int)));
                lemma_scan_join_cons(done0, tok@, scan_spec(s, e as int));
                lemma_tokens_view_push(token_queue@, tok);
            }
            token_queue.push(tok);
            i = e;
        } else if char_is_punct(c) {
            let e = parse_with_predicate(&src, i + 1, RunKind::Punctuation);
            let run = subvec(&src, i, e);
            if vec_chars_eq(&run, "==") {
                let tok = Token { type_: TokenType::EqualityOperatorToken, value: None };
                proof {
                    assert(scan_spec(s, i0) == scan_cons(tok@, scan_spec(s, e as int)));
                    lemma_scan_join_cons(done0, tok@, scan_spec(s, e as int));
                    lemma_tokens_view_push(token_queue@, tok);
                }
                token_queue.push(tok);
                i = e;
            } else if vec_chars_eq(&run, "&&") || vec_chars_eq(&run, "||") {
                let tok = Token {
                    type_: TokenType::BooleanOperationToken,
                    value: Some(chars_to_string(&run)),
                };
                proof {
                    assert(scan_spec(s, i0) == scan_cons(tok@, scan_spec(s, e as int)));
                    lemma_scan_join_cons(done0, tok@, scan_spec(s, e as int));
                    lemma_tokens_view_push(token_queue@, tok);
                }
                token_queue.push(tok);
                i = e;
            } else if vec_chars_eq(&run, "+=") || vec_chars_eq(&run, "-=") || vec_chars_eq(
                &run,
                "*=",
            ) || vec_chars_eq(&run, "/=") {
                let tok = Token {
                    type_: TokenType::AssignmentOperatorToken,
                    value: Some(chars_to_string(&run)),
                };
                proof {
                    assert(scan_spec(s, i0) == scan_cons(tok@, scan_spec(s, e as int)));
                    lemma_scan_join_cons(done0, tok@, scan_spec(s, e as int));
                    lemma_tokens_view_push(token_queue@, tok);
                }
                token_queue.push(tok);
                i = e;
            } else {
                match single_punct(c) {
                    Some(tok) => {
                        proof {
                            assert(scan_spec(s, i0) == scan_cons(tok@, scan_spec(s, i0 + 1)));
                            lemma_scan_join_cons(done0, tok@, scan_spec(s, i0 + 1));
                            lemma_tokens_view_push(token_queue@, tok);
                        }
                        token_queue.push(tok);
                        i += 1;
                    },
                    None => {
                        return Err(ScanError::UnrecognizedCharacter(c));
                    },
                }
            }
        } else {
            return Err(ScanError::UnrecognizedCharacter(c));
        }
    }
    proof {
        assert(scan_spec(s, i as int) == Result::<Seq<TokenModel>, char>::Ok(Seq::empty()));
        assert(tokens_view(token_queue@) + Seq::<TokenModel>::empty() =~= tokens_view(
            token_queue@,
        ));
    }
    Ok(token_queue)
}

} // verus!
