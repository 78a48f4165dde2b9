use vstd::prelude::*;

verus! {

/// The kind of a lexical token produced by the scanner.
#[derive(Clone, Copy, Debug, PartialEq, Eq, Structural)]
pub enum TokenType {
    NamespaceToken,
    ClassToken,
    TypeDeclarationToken,
    NameIdentifierToken,
    DotMethodToken,
    OpenParenthesisToken,
    CloseParenthesisToken,
    OpenScopeToken,
    CloseScopeToken,
    OpenCollectionToken,
    CloseCollectionToken,
    SemicolonToken,
    CommaToken,
    ReturnToken,
    NullLiteralToken,
    NumericLiteralToken,
    BooleanLiteralToken,
    NumericOperationToken,
    BooleanOperationToken,
    AssignmentOperatorToken,
    EqualityOperatorToken,
    BranchingOperatorToken,
    CommentToken,
}

/// A lexical token: a kind together with the text it carries, where the
/// kind calls for one.
#[derive(Debug)]
pub struct Token {
    pub type_: TokenType,
    pub value: Option<String>,
}

/// The mathematical model of a token: its kind and its text as a
/// sequence of characters.
pub ghost struct TokenModel {
    pub type_: TokenType,
    pub value: Option<Seq<char>>,
}

impl View for Token {
    type V = TokenModel;

    open spec fn view(&self) -> TokenModel {
        TokenModel {
            type_: self.type_,
            value: match self.value {
                Option::Some(s) => Option::Some(s@),
                Option::None => Option::None,
            },
        }
    }
}

/// The models of the given tokens, in order.
pub open spec fn tokens_view(tokens: Seq<Token>) -> Seq<TokenModel> {
    tokens.map(|i: int, t: Token| t@)
}

/// Appending a token appends its model.
pub proof fn lemma_tokens_view_push(ts: Seq<Token>, t: Token)
    ensures
        tokens_view(ts.push(t)) == tokens_view(ts).push(t@),
{
    assert(tokens_view(ts.push(t)) =~= tokens_view(ts).push(t@));
}

/// The models of a subrange of tokens are the subrange of the models.
pub proof fn lemma_tokens_view_subrange(ts: Seq<Token>, a: int, b: int)
    requires
        0 <= a <= b <= ts.len(),
    ensures
        tokens_view(ts.subrange(a, b)) == tokens_view(ts).subrange(a, b),
{
    assert(tokens_view(ts.subrange(a, b)) =~= tokens_view(ts).subrange(a, b));
}

/// An exact copy of a token: the same kind and text.
pub fn clone_token(t: &Token) -> (r: Token)
    ensures
        r@ == t@,
{
    Token {
        type_: t.type_,
        value: match &t.value {
            Option::Some(s) => Option::Some(s.clone()),
            Option::None => Option::None,
        },
    }
}

/// A fresh vector holding copies of the tokens of a slice.
pub fn tokens_of_slice(ts: &[Token]) -> (r: Vec<Token>)
    ensures
        tokens_view(r@) == tokens_view(ts@),
{
    let mut r: Vec<Token> = Vec::new();
    let mut i: usize = 0;
    while i < ts.len()
        invariant
            i <= ts@.len(),
            r@.len() == i,
            forall|j: int| 0 <= j < i ==> r@[j]@ == #[trigger] ts@[j]@,
        decreases ts@.len() - i,
    {
        let t = clone_token(&ts[i]);
        r.push(t);
        i += 1;
    }
    proof {
        assert(tokens_view(r@) =~= tokens_view(ts@));
    }
    r
}

} // verus!
