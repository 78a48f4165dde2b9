use crate::chars::string_is;
use crate::syntax_tree_node::{
    clone_node, lemma_nodes_view_concat, lemma_nodes_view_index, lemma_nodes_view_pair,
    lemma_nodes_view_singleton, nodes_view, NodeModel, SyntaxTreeNode, SyntaxTreeNodeType,
};
use crate::token::{
    lemma_tokens_view_subrange, tokens_of_slice, tokens_view, Token, TokenModel, TokenType,
};
use vstd::prelude::*;

verus! {

/// Why parsing failed.
#[derive(Debug)]
pub enum ParseError {
    /// The tokens do not open with `namespace <name>`.
    MissingNamespace,
    /// An opened scope never finds its matching close.
    UnterminatedScope,
    /// A class declaration was recognized; classes are not supported.
    UnsupportedClassDeclaration,
    /// A token slice matches none of the expression grammar's forms; the
    /// offending tokens are carried for diagnostics.
    UnparsableExpression(Vec<Token>),
}

/// The mathematical model of a parse error.
pub ghost enum ParseErrorModel {
    MissingNamespace,
    UnterminatedScope,
    UnsupportedClassDeclaration,
    UnparsableExpression(Seq<TokenModel>),
}

impl View for ParseError {
    type V = ParseErrorModel;

    open spec fn view(&self) -> ParseErrorModel {
        match self {
            ParseError::MissingNamespace => ParseErrorModel::MissingNamespace,
            ParseError::UnterminatedScope => ParseErrorModel::UnterminatedScope,
            ParseError::UnsupportedClassDeclaration => ParseErrorModel::UnsupportedClassDeclaration,
            ParseError::UnparsableExpression(ts) => ParseErrorModel::UnparsableExpression(
                tokens_view(ts@),
            ),
        }
    }
}

/// The position of the first token of type `tt` at or after `i`, if any.
pub open spec fn tok_pos(ts: Seq<TokenModel>, tt: TokenType, i: int) -> Option<int>
    decreases ts.len() - i,
{
    if !(0 <= i < ts.len()) {
        Option::None
    } else if ts[i].type_ == tt {
        Option::Some(i)
    } else {
        tok_pos(ts, tt, i + 1)
    }
}

/// What `tok_pos` finds lies in range, has the type looked for, and is
/// the first such position.
pub proof fn lemma_tok_pos(ts: Seq<TokenModel>, tt: TokenType, i: int)
    requires
        0 <= i,
    ensures
        match tok_pos(ts, tt, i) {
            Option::Some(p) => i <= p < ts.len() && ts[p].type_ == tt && (forall|j: int|
                i <= j < p ==> ts[j].type_ != tt),
            Option::None => forall|j: int| i <= j < ts.len() ==> ts[j].type_ != tt,
        },
    decreases ts.len() - i,
{
    if 0 <= i < ts.len() && ts[i].type_ != tt {
        lemma_tok_pos(ts, tt, i + 1);
    }
}

/// The position of the last token of type `tt` at or before `i`, if any.
pub open spec fn tok_rpos(ts: Seq<TokenModel>, tt: TokenType, i: int) -> Option<int>
    decreases i + 1,
{
    if !(0 <= i < ts.len()) {
        Option::None
    } else if ts[i].type_ == tt {
        Option::Some(i)
    } else {
        tok_rpos(ts, tt, i - 1)
    }
}

/// What `tok_rpos` finds lies in range and has the type looked for.
pub proof fn lemma_tok_rpos(ts: Seq<TokenModel>, tt: TokenType, i: int)
    requires
        i < ts.len(),
    ensures
        match tok_rpos(ts, tt, i) {
            Option::Some(p) => 0 <= p <= i && p < ts.len() && ts[p].type_ == tt,
            Option::None => forall|j: int| 0 <= j <= i ==> ts[j].type_ != tt,
        },
    decreases i + 1,
{
    if 0 <= i < ts.len() && ts[i].type_ != tt {
        lemma_tok_rpos(ts, tt, i - 1);
    }
}

/// The position of the close-scope token that balances the scopes opened
/// from `i` on, given that `count` scopes stand open: the first
/// close-scope token that returns the signed open/close counter to zero.
pub open spec fn scope_end(ts: Seq<TokenModel>, i: int, count: int) -> Option<int>
    decreases ts.len() - i,
{
    if !(0 <= i < ts.len()) {
        Option::None
    } else if ts[i].type_ == TokenType::CloseScopeToken {
        if count - 1 == 0 {
            Option::Some(i)
        } else {
            scope_end(ts, i + 1, count - 1)
        }
    } else if ts[i].type_ == TokenType::OpenScopeToken {
        scope_end(ts, i + 1, count + 1)
    } else {
        scope_end(ts, i + 1, count)
    }
}

/// What `scope_end` finds lies in range and is a close-scope token.
pub proof fn lemma_scope_end(ts: Seq<TokenModel>, i: int, count: int)
    requires
        0 <= i,
    ensures
        match scope_end(ts, i, count) {
            Option::Some(p) => i <= p < ts.len() && ts[p].type_ == TokenType::CloseScopeToken,
            Option::None => true,
        },
    decreases ts.len() - i,
{
    if 0 <= i < ts.len() {
        if ts[i].type_ == TokenType::CloseScopeToken {
            if count - 1 != 0 {
                lemma_scope_end(ts, i + 1, count - 1);
            }
        } else if ts[i].type_ == TokenType::OpenScopeToken {
            lemma_scope_end(ts, i + 1, count + 1);
        } else {
            lemma_scope_end(ts, i + 1, count);
        }
    }
}

/// Where no close-scope token remains, no scope ever closes.
pub proof fn lemma_scope_end_no_close(ts: Seq<TokenModel>, i: int, count: int)
    requires
        0 <= i,
        forall|j: int| i <= j < ts.len() ==> (#[trigger] ts[j].type_) != TokenType::CloseScopeToken,
    ensures
        scope_end(ts, i, count) is None,
    decreases ts.len() - i,
{
    if 0 <= i < ts.len() {
        if ts[i].type_ == TokenType::OpenScopeToken {
            lemma_scope_end_no_close(ts, i + 1, count + 1);
        } else {
            lemma_scope_end_no_close(ts, i + 1, count);
        }
    }
}

/// The tokens with a single trailing semicolon stripped, if one is
/// there.
pub open spec fn strip_semicolon(ts: Seq<TokenModel>) -> Seq<TokenModel> {
    if ts.len() > 0 && ts[ts.len() - 1].type_ == TokenType::SemicolonToken {
        ts.subrange(0, ts.len() - 1)
    } else {
        ts
    }
}

/// A method-argument leaf for an identifier token.
pub open spec fn arg_node(t: TokenModel) -> NodeModel {
    NodeModel { value: t.value, type_: SyntaxTreeNodeType::MethodArgument, children: Seq::empty() }
}

/// The method-argument leaves for the identifier tokens at or after `i`,
/// in order.
pub open spec fn method_args_from(ts: Seq<TokenModel>, i: int) -> Seq<NodeModel>
    decreases ts.len() - i,
{
    if !(0 <= i < ts.len()) {
        Seq::empty()
    } else if ts[i].type_ == TokenType::NameIdentifierToken {
        seq![arg_node(ts[i])] + method_args_from(ts, i + 1)
    } else {
        method_args_from(ts, i + 1)
    }
}

/// The end of the run of assignment nodes that continues from `i`.
pub open spec fn assign_run_end(ns: Seq<NodeModel>, i: int) -> int
    decreases ns.len() - i,
{
    if 0 <= i < ns.len() && ns[i].type_ == SyntaxTreeNodeType::Assignment {
        assign_run_end(ns, i + 1)
    } else {
        i
    }
}

/// `assign_run_end` stays within the nodes, and everything before it is
/// an assignment.
pub proof fn lemma_assign_run_end(ns: Seq<NodeModel>, i: int)
    requires
        0 <= i <= ns.len(),
    ensures
        i <= assign_run_end(ns, i) <= ns.len(),
        forall|j: int|
            i <= j < assign_run_end(ns, i) ==> ns[j].type_ == SyntaxTreeNodeType::Assignment,
        assign_run_end(ns, i) < ns.len() ==> ns[assign_run_end(ns, i)].type_
            != SyntaxTreeNodeType::Assignment,
    decreases ns.len() - i,
{
    if i < ns.len() && ns[i].type_ == SyntaxTreeNodeType::Assignment {
        lemma_assign_run_end(ns, i + 1);
    }
}

/// The statement nodes from `i` on with every maximal run of two or more
/// consecutive assignment nodes collapsed into one grouped assignment
/// node that carries the run as its children; a lone assignment is left
/// untouched.
pub open spec fn group_from(ns: Seq<NodeModel>, i: int) -> Seq<NodeModel>
    decreases ns.len() - i,
    via group_from_dec
{
    if !(0 <= i < ns.len()) {
        Seq::empty()
    } else if ns[i].type_ != SyntaxTreeNodeType::Assignment {
        seq![ns[i]] + group_from(ns, i + 1)
    } else {
        let j = assign_run_end(ns, i + 1);
        if j == i + 1 {
            seq![ns[i]] + group_from(ns, i + 1)
        } else {
            seq![
                NodeModel {
                    value: Option::None,
                    type_: SyntaxTreeNodeType::Assignment,
                    children: ns.subrange(i, j),
                },
            ] + group_from(ns, j)
        }
    }
}

#[via_fn]
proof fn group_from_dec(ns: Seq<NodeModel>, i: int) {
    if 0 <= i < ns.len() {
        lemma_assign_run_end(ns, i + 1);
    }
}

/// Prepends a parsed node to the nodes parsed after it, keeping the
/// first failure.
pub open spec fn node_cons(
    n: Result<NodeModel, ParseErrorModel>,
    rest: Result<Seq<NodeModel>, ParseErrorModel>,
) -> Result<Seq<NodeModel>, ParseErrorModel> {
    match n {
        Result::Err(e) => Result::Err(e),
        Result::Ok(node) => match rest {
            Result::Err(e) => Result::Err(e),
            Result::Ok(ns) => Result::Ok(seq![node] + ns),
        },
    }
}

/// Whether the assignment form applies: some assignment operator occurs,
/// and the token directly before the first one is an identifier.
pub open spec fn assignment_applies(ts: Seq<TokenModel>) -> bool {
    match tok_pos(ts, TokenType::AssignmentOperatorToken, 0) {
        Option::Some(ai) => ai >= 1 && ts[ai - 1].type_ == TokenType::NameIdentifierToken,
        Option::None => false,
    }
}

/// What the `if` form yields: the condition between the keyword's
/// parenthesis pair, then the body behind the open scope, as a branch
/// node.
pub open spec fn if_branch_spec(ts: Seq<TokenModel>) -> Result<NodeModel, ParseErrorModel>
    decreases ts.len(), 0int, 0int,
    via if_branch_spec_dec
{
    match tok_pos(ts, TokenType::CloseParenthesisToken, 0) {
        Option::None => Result::Err(ParseErrorModel::UnparsableExpression(ts)),
        Option::Some(cp) => {
            if cp < 2 {
                Result::Err(ParseErrorModel::UnparsableExpression(ts))
            } else {
                let body_start = if cp + 2 <= ts.len() {
                    cp + 2
                } else {
                    ts.len() as int
                };
                match parse_expression_spec(ts.subrange(2, cp)) {
                    Result::Err(e) => Result::Err(e),
                    Result::Ok(cond) => match parse_scope_spec(
                        ts.subrange(body_start, ts.len() as int),
                    ) {
                        Result::Err(e) => Result::Err(e),
                        Result::Ok(body) => Result::Ok(
                            NodeModel {
                                value: Option::Some("if"@),
                                type_: SyntaxTreeNodeType::Branch,
                                children: seq![cond] + body,
                            },
                        ),
                    },
                }
            }
        },
    }
}

#[via_fn]
proof fn if_branch_spec_dec(ts: Seq<TokenModel>) {
    lemma_tok_pos(ts, TokenType::CloseParenthesisToken, 0);
}

/// What the `else` form yields: the body behind the keyword and its open
/// scope, as a branch node.
pub open spec fn else_branch_spec(ts: Seq<TokenModel>) -> Result<NodeModel, ParseErrorModel>
    decreases ts.len(), 0int, 0int,
{
    if ts.len() < 2 {
        Result::Err(ParseErrorModel::UnparsableExpression(ts))
    } else {
        match parse_scope_spec(ts.subrange(2, ts.len() as int)) {
            Result::Err(e) => Result::Err(e),
            Result::Ok(body) => Result::Ok(
                NodeModel {
                    value: Option::Some("else"@),
                    type_: SyntaxTreeNodeType::Branch,
                    children: body,
                },
            ),
        }
    }
}

/// What the assignment form yields: the bound identifier's name over one
/// child, the parsed right-hand side; a compound operator wraps the
/// identifier and the right-hand side under an `=` expression instead.
pub open spec fn assignment_spec(ts: Seq<TokenModel>) -> Result<NodeModel, ParseErrorModel>
    decreases ts.len(), 0int, 0int,
    via assignment_spec_dec
{
    if !assignment_applies(ts) {
        Result::Err(ParseErrorModel::UnparsableExpression(ts))
    } else {
        let ai = tok_pos(ts, TokenType::AssignmentOperatorToken, 0)->0;
        let child = if ts[ai].value is None {
            parse_expression_spec(ts.subrange(ai + 1, ts.len() as int))
        } else {
            match parse_expression_spec(ts.subrange(ai - 1, ai)) {
                Result::Err(e) => Result::Err(e),
                Result::Ok(lhs) => match parse_expression_spec(
                    ts.subrange(ai + 1, ts.len() as int),
                ) {
                    Result::Err(e) => Result::Err(e),
                    Result::Ok(rhs) => Result::Ok(
                        NodeModel {
                            value: Option::Some("="@),
                            type_: SyntaxTreeNodeType::Expression,
                            children: seq![lhs, rhs],
                        },
                    ),
                },
            }
        };
        match child {
            Result::Err(e) => Result::Err(e),
            Result::Ok(c) => Result::Ok(
                NodeModel {
                    value: ts[ai - 1].value,
                    type_: SyntaxTreeNodeType::Assignment,
                    children: seq![c],
                },
            ),
        }
    }
}

#[via_fn]
proof fn assignment_spec_dec(ts: Seq<TokenModel>) {
    lemma_tok_pos(ts, TokenType::AssignmentOperatorToken, 0);
}

/// What the call form yields: the callee's name over the comma-split
/// argument expressions.
pub open spec fn call_spec(ts: Seq<TokenModel>) -> Result<NodeModel, ParseErrorModel>
    decreases ts.len(), 0int, 0int,
{
    if ts.len() < 3 {
        Result::Err(ParseErrorModel::UnparsableExpression(ts))
    } else {
        match parse_collection_spec(ts.subrange(2, ts.len() - 1)) {
            Result::Err(e) => Result::Err(e),
            Result::Ok(children) => Result::Ok(
                NodeModel { value: ts[0].value, type_: SyntaxTreeNodeType::Expression, children },
            ),
        }
    }
}

/// What the bracketed form yields: a collection node over the
/// comma-split element expressions.
pub open spec fn collection_literal_spec(ts: Seq<TokenModel>) -> Result<NodeModel, ParseErrorModel>
    decreases ts.len(), 0int, 0int,
{
    if ts.len() < 2 {
        Result::Err(ParseErrorModel::UnparsableExpression(ts))
    } else {
        match parse_collection_spec(ts.subrange(1, ts.len() - 1)) {
            Result::Err(e) => Result::Err(e),
            Result::Ok(children) => Result::Ok(
                NodeModel { value: Option::None, type_: SyntaxTreeNodeType::Collection, children },
            ),
        }
    }
}

/// What the numeric-operator form yields: the operator's symbol over the
/// recursively parsed halves split at the first numeric operator.
pub open spec fn numeric_spec(ts: Seq<TokenModel>) -> Result<NodeModel, ParseErrorModel>
    decreases ts.len(), 0int, 0int,
    via numeric_spec_dec
{
    match tok_pos(ts, TokenType::NumericOperationToken, 0) {
        Option::None => Result::Err(ParseErrorModel::UnparsableExpression(ts)),
        Option::Some(p) => match parse_expression_spec(ts.subrange(0, p)) {
            Result::Err(e) => Result::Err(e),
            Result::Ok(left) => match parse_expression_spec(ts.subrange(p + 1, ts.len() as int)) {
                Result::Err(e) => Result::Err(e),
                Result::Ok(right) => Result::Ok(
                    NodeModel {
                        value: ts[p].value,
                        type_: SyntaxTreeNodeType::Expression,
                        children: seq![left, right],
                    },
                ),
            },
        },
    }
}

#[via_fn]
proof fn numeric_spec_dec(ts: Seq<TokenModel>) {
    lemma_tok_pos(ts, TokenType::NumericOperationToken, 0);
}

/// What the equality form yields: an equality-check node with the fixed
/// value `=` over the recursively parsed halves split at the first
/// equality operator.
pub open spec fn equality_spec(ts: Seq<TokenModel>) -> Result<NodeModel, ParseErrorModel>
    decreases ts.len(), 0int, 0int,
    via equality_spec_dec
{
    match tok_pos(ts, TokenType::EqualityOperatorToken, 0) {
        Option::None => Result::Err(ParseErrorModel::UnparsableExpression(ts)),
        Option::Some(p) => match parse_expression_spec(ts.subrange(0, p)) {
            Result::Err(e) => Result::Err(e),
            Result::Ok(left) => match parse_expression_spec(ts.subrange(p + 1, ts.len() as int)) {
                Result::Err(e) => Result::Err(e),
                Result::Ok(right) => Result::Ok(
                    NodeModel {
                        value: Option::Some("="@),
                        type_: SyntaxTreeNodeType::EqualityCheck,
                        children: seq![left, right],
                    },
                ),
            },
        },
    }
}

#[via_fn]
proof fn equality_spec_dec(ts: Seq<TokenModel>) {
    lemma_tok_pos(ts, TokenType::EqualityOperatorToken, 0);
}

/// What the dotted-call form yields: the method's name over the receiver
/// identifier leaf and the comma-split argument expressions.
pub open spec fn dotted_spec(ts: Seq<TokenModel>) -> Result<NodeModel, ParseErrorModel>
    decreases ts.len(), 0int, 0int,
{
    if ts.len() < 5 {
        Result::Err(ParseErrorModel::UnparsableExpression(ts))
    } else {
        match parse_expression_spec(ts.subrange(0, 1)) {
            Result::Err(e) => Result::Err(e),
            Result::Ok(receiver) => match parse_collection_spec(ts.subrange(4, ts.len() - 1)) {
                Result::Err(e) => Result::Err(e),
                Result::Ok(args) => Result::Ok(
                    NodeModel {
                        value: ts[2].value,
                        type_: SyntaxTreeNodeType::Expression,
                        children: seq![receiver] + args,
                    },
                ),
            },
        }
    }
}

/// What parsing a token slice as one expression yields, tried in a fixed
/// order: a trailing semicolon is stripped; a single token is a literal
/// leaf; a leading return is stripped; an outermost parenthesis pair is
/// peeled; then the `if`, `else`, assignment, call, collection, numeric,
/// equality and dotted-call forms follow; anything else is unparsable.
pub open spec fn parse_expression_spec(ts0: Seq<TokenModel>) -> Result<NodeModel, ParseErrorModel>
    decreases ts0.len(), 1int, 0int,
    via parse_expression_spec_dec
{
    if ts0.len() == 0 {
        Result::Err(ParseErrorModel::UnparsableExpression(ts0))
    } else {
        let ts = strip_semicolon(ts0);
        if ts.len() == 0 {
            Result::Err(ParseErrorModel::UnparsableExpression(ts))
        } else if ts.len() == 1 {
            Result::Ok(
                NodeModel {
                    value: ts[0].value,
                    type_: SyntaxTreeNodeType::Literal,
                    children: Seq::empty(),
                },
            )
        } else if ts[0].type_ == TokenType::ReturnToken {
            parse_expression_spec(ts.subrange(1, ts.len() as int))
        } else if ts[0].type_ == TokenType::OpenParenthesisToken && tok_rpos(
            ts,
            TokenType::CloseParenthesisToken,
            ts.len() - 1,
        ) is Some {
            let cp = tok_rpos(ts, TokenType::CloseParenthesisToken, ts.len() - 1)->0;
            parse_expression_spec(ts.subrange(1, cp))
        } else if ts[0].type_ == TokenType::BranchingOperatorToken && ts[0].value == Option::Some(
            "if"@,
        ) {
            if_branch_spec(ts)
        } else if ts[0].type_ == TokenType::BranchingOperatorToken && ts[0].value == Option::Some(
            "else"@,
        ) {
            else_branch_spec(ts)
        } else if assignment_applies(ts) {
            assignment_spec(ts)
        } else if ts[0].type_ == TokenType::NameIdentifierToken && ts[1].type_
            == TokenType::OpenParenthesisToken && ts[ts.len() - 1].type_
            == TokenType::CloseParenthesisToken {
            call_spec(ts)
        } else if ts[0].type_ == TokenType::OpenCollectionToken && ts[ts.len() - 1].type_
            == TokenType::CloseCollectionToken {
            collection_literal_spec(ts)
        } else if tok_pos(ts, TokenType::NumericOperationToken, 0) is Some {
            numeric_spec(ts)
        } else if tok_pos(ts, TokenType::EqualityOperatorToken, 0) is Some {
            equality_spec(ts)
        } else if ts.len() >= 5 && ts[0].type_ == TokenType::NameIdentifierToken && ts[1].type_
            == TokenType::DotMethodToken && ts[2].type_ == TokenType::NameIdentifierToken
            && ts[3].type_ == TokenType::OpenParenthesisToken && ts[ts.len() - 1].type_
            == TokenType::CloseParenthesisToken {
            dotted_spec(ts)
        } else {
            Result::Err(ParseErrorModel::UnparsableExpression(ts))
        }
    }
}

#[via_fn]
proof fn parse_expression_spec_dec(ts0: Seq<TokenModel>) {
    if ts0.len() > 0 {
        let ts = strip_semicolon(ts0);
        if ts.len() > 1 {
            lemma_tok_rpos(ts, TokenType::CloseParenthesisToken, ts.len() - 1);
        }
    }
}

/// What splitting a token slice on commas and parsing each piece as an
/// expression yields; an empty slice holds no pieces.
pub open spec fn parse_collection_spec(ts: Seq<TokenModel>) -> Result<
    Seq<NodeModel>,
    ParseErrorModel,
>
    decreases ts.len(), 2int, 0int,
    via parse_collection_spec_dec
{
    if ts.len() == 0 {
        Result::Ok(Seq::empty())
    } else {
        match tok_pos(ts, TokenType::CommaToken, 0) {
            Option::Some(p) => node_cons(
                parse_expression_spec(ts.subrange(0, p)),
                parse_collection_spec(ts.subrange(p + 1, ts.len() as int)),
            ),
            Option::None => match parse_expression_spec(ts) {
                Result::Err(e) => Result::Err(e),
                Result::Ok(n) => Result::Ok(seq![n]),
            },
        }
    }
}

#[via_fn]
proof fn parse_collection_spec_dec(ts: Seq<TokenModel>) {
    if ts.len() > 0 {
        lemma_tok_pos(ts, TokenType::CommaToken, 0);
    }
}

/// What parsing a statement sequence from `i` on yields, before
/// grouping: return and close-scope tokens are consumed boundaries, a
/// comment token becomes a comment leaf, and any other statement runs to
/// the next semicolon, or over a whole balanced scope when an open-scope
/// token comes first.
pub open spec fn parse_scope_items(ts: Seq<TokenModel>, i: int) -> Result<
    Seq<NodeModel>,
    ParseErrorModel,
>
    decreases ts.len(), 3int, ts.len() - i,
    via parse_scope_items_dec
{
    if !(0 <= i < ts.len()) {
        Result::Ok(Seq::empty())
    } else {
        let t = ts[i];
        if t.type_ == TokenType::ReturnToken || t.type_ == TokenType::CloseScopeToken {
            parse_scope_items(ts, i + 1)
        } else if t.type_ == TokenType::CommentToken {
            match parse_scope_items(ts, i + 1) {
                Result::Err(e) => Result::Err(e),
                Result::Ok(rest) => Result::Ok(
                    seq![
                        NodeModel {
                            value: t.value,
                            type_: SyntaxTreeNodeType::Comment,
                            children: Seq::empty(),
                        },
                    ] + rest,
                ),
            }
        } else {
            let semi_end = match tok_pos(ts, TokenType::SemicolonToken, i) {
                Option::Some(p) => p,
                Option::None => i,
            };
            let scoped = match tok_pos(ts, TokenType::OpenScopeToken, i) {
                Option::Some(o) => o < semi_end,
                Option::None => false,
            };
            if scoped {
                match scope_end(ts, i, 0) {
                    Option::None => Result::Err(ParseErrorModel::UnterminatedScope),
                    Option::Some(end) => node_cons(
                        parse_expression_spec(ts.subrange(i, end + 1)),
                        parse_scope_items(ts, end + 1),
                    ),
                }
            } else {
                node_cons(
                    parse_expression_spec(ts.subrange(i, semi_end + 1)),
                    parse_scope_items(ts, semi_end + 1),
                )
            }
        }
    }
}

#[via_fn]
proof fn parse_scope_items_dec(ts: Seq<TokenModel>, i: int) {
    if 0 <= i < ts.len() {
        lemma_tok_pos(ts, TokenType::SemicolonToken, i);
        lemma_tok_pos(ts, TokenType::OpenScopeToken, i);
        lemma_scope_end(ts, i, 0);
    }
}

/// What parsing a statement sequence yields: the statement nodes with
/// consecutive assignments grouped.
pub open spec fn parse_scope_spec(ts: Seq<TokenModel>) -> Result<Seq<NodeModel>, ParseErrorModel>
    decreases ts.len(), 3int, ts.len() + 1,
{
    match parse_scope_items(ts, 0) {
        Result::Err(e) => Result::Err(e),
        Result::Ok(ns) => Result::Ok(group_from(ns, 0)),
    }
}

/// What parsing a method declaration yields: the argument-list leaves
/// for the identifiers between the first parenthesis pair, followed by
/// the parsed body, under the method's name.
pub open spec fn parse_method_spec(ts: Seq<TokenModel>) -> Result<NodeModel, ParseErrorModel>
    decreases ts.len(), 4int, 0int,
    via parse_method_spec_dec
{
    let op = tok_pos(ts, TokenType::OpenParenthesisToken, 0);
    let cp = tok_pos(ts, TokenType::CloseParenthesisToken, 0);
    if op is Some && cp is Some && op->0 < cp->0 && cp->0 + 2 <= ts.len() && ts.len() >= 2 {
        let args = method_args_from(ts.subrange(op->0 + 1, cp->0), 0);
        match parse_scope_spec(ts.subrange(cp->0 + 2, ts.len() as int)) {
            Result::Err(e) => Result::Err(e),
            Result::Ok(body) => Result::Ok(
                NodeModel {
                    value: ts[1].value,
                    type_: SyntaxTreeNodeType::Method,
                    children: args + body,
                },
            ),
        }
    } else {
        Result::Err(ParseErrorModel::UnparsableExpression(ts))
    }
}

#[via_fn]
proof fn parse_method_spec_dec(ts: Seq<TokenModel>) {
    lemma_tok_pos(ts, TokenType::OpenParenthesisToken, 0);
    lemma_tok_pos(ts, TokenType::CloseParenthesisToken, 0);
}

/// What scanning the top level from `i` on yields: a type declaration,
/// an identifier and an open parenthesis open a method declaration whose
/// extent is the balanced scope; a class declaration fails; an
/// identifier and an open parenthesis open a bare call statement that
/// runs to the next semicolon; anything else is skipped.
pub open spec fn parse_top_items(ts: Seq<TokenModel>, i: int) -> Result<
    Seq<NodeModel>,
    ParseErrorModel,
>
    decreases ts.len(), 5int, ts.len() - i,
    via parse_top_items_dec
{
    if !(0 <= i < ts.len()) {
        Result::Ok(Seq::empty())
    } else if i + 2 < ts.len() && ts[i].type_ == TokenType::TypeDeclarationToken && ts[i
        + 1].type_ == TokenType::NameIdentifierToken && ts[i + 2].type_
        == TokenType::OpenParenthesisToken {
        match scope_end(ts, i, 0) {
            Option::None => Result::Err(ParseErrorModel::UnterminatedScope),
            Option::Some(end) => node_cons(
                parse_method_spec(ts.subrange(i, end + 1)),
                parse_top_items(ts, end),
            ),
        }
    } else if i + 1 < ts.len() && ts[i].type_ == TokenType::ClassToken && ts[i + 1].type_
        == TokenType::NameIdentifierToken {
        Result::Err(ParseErrorModel::UnsupportedClassDeclaration)
    } else if i + 1 < ts.len() && ts[i].type_ == TokenType::NameIdentifierToken && ts[i + 1].type_
        == TokenType::OpenParenthesisToken {
        let end = match tok_pos(ts, TokenType::SemicolonToken, i) {
            Option::Some(p) => p,
            Option::None => ts.len() as int,
        };
        node_cons(parse_expression_spec(ts.subrange(i, end)), parse_top_items(ts, end))
    } else {
        parse_top_items(ts, i + 1)
    }
}

#[via_fn]
proof fn parse_top_items_dec(ts: Seq<TokenModel>, i: int) {
    if 0 <= i < ts.len() {
        lemma_scope_end(ts, i, 0);
        lemma_tok_pos(ts, TokenType::SemicolonToken, i);
    }
}

/// What parsing the token sequence yields: the single namespace root
/// holding the top-level statements, or the first failure. The tokens
/// must open with `namespace <name>`, else parsing fails with
/// `MissingNamespace`.
pub open spec fn parse_spec(ts: Seq<TokenModel>) -> Result<NodeModel, ParseErrorModel> {
    if ts.len() < 2 || ts[0].type_ != TokenType::NamespaceToken || ts[1].type_
        != TokenType::NameIdentifierToken {
        Result::Err(ParseErrorModel::MissingNamespace)
    } else {
        match parse_top_items(ts, 0) {
            Result::Err(e) => Result::Err(e),
            Result::Ok(ns) => Result::Ok(
                NodeModel {
                    value: ts[1].value,
                    type_: SyntaxTreeNodeType::Namespace,
                    children: ns,
                },
            ),
        }
    }
}

/// Whether a parse outcome is anything but a missing-namespace failure.
pub open spec fn not_missing_namespace(r: Result<NodeModel, ParseErrorModel>) -> bool {
    match r {
        Result::Ok(_) => true,
        Result::Err(e) => !(e is MissingNamespace),
    }
}

/// Whether a many-node parse outcome is anything but a
/// missing-namespace failure.
pub open spec fn not_missing_namespace_seq(r: Result<Seq<NodeModel>, ParseErrorModel>) -> bool {
    match r {
        Result::Ok(_) => true,
        Result::Err(e) => !(e is MissingNamespace),
    }
}

proof fn lemma_if_branch_nm(ts: Seq<TokenModel>)
    ensures
        not_missing_namespace(if_branch_spec(ts)),
    decreases ts.len(), 0int, 0int,
{
    lemma_tok_pos(ts, TokenType::CloseParenthesisToken, 0);
    match tok_pos(ts, TokenType::CloseParenthesisToken, 0) {
        Option::None => {},
        Option::Some(cp) => {
            if cp >= 2 {
                let body_start = if cp + 2 <= ts.len() {
                    cp + 2
                } else {
                    ts.len() as int
                };
                lemma_expression_nm(ts.subrange(2, cp));
                lemma_scope_nm(ts.subrange(body_start, ts.len() as int));
            }
        },
    }
}

proof fn lemma_else_branch_nm(ts: Seq<TokenModel>)
    ensures
        not_missing_namespace(else_branch_spec(ts)),
    decreases ts.len(), 0int, 0int,
{
    if ts.len() >= 2 {
        lemma_scope_nm(ts.subrange(2, ts.len() as int));
    }
}

proof fn lemma_assignment_nm(ts: Seq<TokenModel>)
    ensures
        not_missing_namespace(assignment_spec(ts)),
    decreases ts.len(), 0int, 0int,
{
    if assignment_applies(ts) {
        lemma_tok_pos(ts, TokenType::AssignmentOperatorToken, 0);
        let ai = tok_pos(ts, TokenType::AssignmentOperatorToken, 0)->0;
        lemma_expression_nm(ts.subrange(ai + 1, ts.len() as int));
        if !(ts[ai].value is None) {
            lemma_expression_nm(ts.subrange(ai - 1, ai));
        }
    }
}

proof fn lemma_call_nm(ts: Seq<TokenModel>)
    ensures
        not_missing_namespace(call_spec(ts)),
    decreases ts.len(), 0int, 0int,
{
    if ts.len() >= 3 {
        lemma_collection_nm(ts.subrange(2, ts.len() - 1));
    }
}

proof fn lemma_collection_literal_nm(ts: Seq<TokenModel>)
    ensures
        not_missing_namespace(collection_literal_spec(ts)),
    decreases ts.len(), 0int, 0int,
{
    if ts.len() >= 2 {
        lemma_collection_nm(ts.subrange(1, ts.len() - 1));
    }
}

proof fn lemma_numeric_nm(ts: Seq<TokenModel>)
    ensures
        not_missing_namespace(numeric_spec(ts)),
    decreases ts.len(), 0int, 0int,
{
    lemma_tok_pos(ts, TokenType::NumericOperationToken, 0);
    match tok_pos(ts, TokenType::NumericOperationToken, 0) {
        Option::None => {},
        Option::Some(p) => {
            lemma_expression_nm(ts.subrange(0, p));
            lemma_expression_nm(ts.subrange(p + 1, ts.len() as int));
        },
    }
}

proof fn lemma_equality_nm(ts: Seq<TokenModel>)
    ensures
        not_missing_namespace(equality_spec(ts)),
    decreases ts.len(), 0int, 0int,
{
    lemma_tok_pos(ts, TokenType::EqualityOperatorToken, 0);
    match tok_pos(ts, TokenType::EqualityOperatorToken, 0) {
        Option::None => {},
        Option::Some(p) => {
            lemma_expression_nm(ts.subrange(0, p));
            lemma_expression_nm(ts.subrange(p + 1, ts.len() as int));
        },
    }
}

proof fn lemma_dotted_nm(ts: Seq<TokenModel>)
    ensures
        not_missing_namespace(dotted_spec(ts)),
    decreases ts.len(), 0int, 0int,
{
    if ts.len() >= 5 {
        lemma_expression_nm(ts.subrange(0, 1));
        lemma_collection_nm(ts.subrange(4, ts.len() - 1));
    }
}

proof fn lemma_expression_nm(ts0: Seq<TokenModel>)
    ensures
        not_missing_namespace(parse_expression_spec(ts0)),
    decreases ts0.len(), 1int, 0int,
{
    if ts0.len() > 0 {
        let ts = strip_semicolon(ts0);
        if ts.len() > 1 {
            lemma_tok_rpos(ts, TokenType::CloseParenthesisToken, ts.len() - 1);
            if ts[0].type_ == TokenType::ReturnToken {
                lemma_expression_nm(ts.subrange(1, ts.len() as int));
            } else if ts[0].type_ == TokenType::OpenParenthesisToken && tok_rpos(
                ts,
                TokenType::CloseParenthesisToken,
                ts.len() - 1,
            ) is Some {
                let cp = tok_rpos(ts, TokenType::CloseParenthesisToken, ts.len() - 1)->0;
                lemma_expression_nm(ts.subrange(1, cp));
            } else {
                lemma_if_branch_nm(ts);
                lemma_else_branch_nm(ts);
                lemma_assignment_nm(ts);
                lemma_call_nm(ts);
                lemma_collection_literal_nm(ts);
                lemma_numeric_nm(ts);
                lemma_equality_nm(ts);
                lemma_dotted_nm(ts);
            }
        }
    }
}

proof fn lemma_collection_nm(ts: Seq<TokenModel>)
    ensures
        not_missing_namespace_seq(parse_collection_spec(ts)),
    decreases ts.len(), 2int, 0int,
{
    if ts.len() > 0 {
        lemma_tok_pos(ts, TokenType::CommaToken, 0);
        match tok_pos(ts, TokenType::CommaToken, 0) {
            Option::Some(p) => {
                lemma_expression_nm(ts.subrange(0, p));
                lemma_collection_nm(ts.subrange(p + 1, ts.len() as int));
            },
            Option::None => {
                lemma_expression_nm(ts);
            },
        }
    }
}

proof fn lemma_scope_items_nm(ts: Seq<TokenModel>, i: int)
    ensures
        not_missing_namespace_seq(parse_scope_items(ts, i)),
    decreases ts.len(), 3int, ts.len() - i,
{
    if 0 <= i < ts.len() {
        lemma_tok_pos(ts, TokenType::SemicolonToken, i);
        lemma_tok_pos(ts, TokenType::OpenScopeToken, i);
        lemma_scope_end(ts, i, 0);
        let t = ts[i];
        if t.type_ == TokenType::ReturnToken || t.type_ == TokenType::CloseScopeToken
            || t.type_ == TokenType::CommentToken {
            lemma_scope_items_nm(ts, i + 1);
        } else {
            let semi_end = match tok_pos(ts, TokenType::SemicolonToken, i) {
                Option::Some(p) => p,
                Option::None => i,
            };
            let scoped = match tok_pos(ts, TokenType::OpenScopeToken, i) {
                Option::Some(o) => o < semi_end,
                Option::None => false,
            };
            if scoped {
                match scope_end(ts, i, 0) {
                    Option::None => {},
                    Option::Some(end) => {
                        lemma_expression_nm(ts.subrange(i, end + 1));
                        lemma_scope_items_nm(ts, end + 1);
                    },
                }
            } else {
                lemma_expression_nm(ts.subrange(i, semi_end + 1));
                lemma_scope_items_nm(ts, semi_end + 1);
            }
        }
    }
}

proof fn lemma_scope_nm(ts: Seq<TokenModel>)
    ensures
        not_missing_namespace_seq(parse_scope_spec(ts)),
    decreases ts.len(), 3int, ts.len() + 1,
{
    lemma_scope_items_nm(ts, 0);
}

proof fn lemma_method_nm(ts: Seq<TokenModel>)
    ensures
        not_missing_namespace(parse_method_spec(ts)),
    decreases ts.len(), 4int, 0int,
{
    lemma_tok_pos(ts, TokenType::OpenParenthesisToken, 0);
    lemma_tok_pos(ts, TokenType::CloseParenthesisToken, 0);
    let op = tok_pos(ts, TokenType::OpenParenthesisToken, 0);
    let cp = tok_pos(ts, TokenType::CloseParenthesisToken, 0);
    if op is Some && cp is Some && op->0 < cp->0 && cp->0 + 2 <= ts.len() && ts.len() >= 2 {
        lemma_scope_nm(ts.subrange(cp->0 + 2, ts.len() as int));
    }
}

proof fn lemma_top_items_nm(ts: Seq<TokenModel>, i: int)
    ensures
        not_missing_namespace_seq(parse_top_items(ts, i)),
    decreases ts.len(), 5int, ts.len() - i,
{
    if 0 <= i < ts.len() {
        lemma_scope_end(ts, i, 0);
        lemma_tok_pos(ts, TokenType::SemicolonToken, i);
        if i + 2 < ts.len() && ts[i].type_ == TokenType::TypeDeclarationToken && ts[i
            + 1].type_ == TokenType::NameIdentifierToken && ts[i + 2].type_
            == TokenType::OpenParenthesisToken {
            match scope_end(ts, i, 0) {
                Option::None => {},
                Option::Some(end) => {
                    lemma_method_nm(ts.subrange(i, end + 1));
                    lemma_top_items_nm(ts, end);
                },
            }
        } else if i + 1 < ts.len() && ts[i].type_ == TokenType::ClassToken && ts[i + 1].type_
            == TokenType::NameIdentifierToken {
        } else if i + 1 < ts.len() && ts[i].type_ == TokenType::NameIdentifierToken && ts[i
            + 1].type_ == TokenType::OpenParenthesisToken {
            let end = match tok_pos(ts, TokenType::SemicolonToken, i) {
                Option::Some(p) => p,
                Option::None => ts.len() as int,
            };
            lemma_expression_nm(ts.subrange(i, end));
            lemma_top_items_nm(ts, end);
        } else {
            lemma_top_items_nm(ts, i + 1);
        }
    }
}

/// Parsing fails with `MissingNamespace` exactly when the tokens do not
/// open with `namespace <name>`: nothing later in the grammar produces
/// that failure.
pub proof fn lemma_missing_namespace(ts: Seq<TokenModel>)
    ensures
        (parse_spec(ts) == Result::<NodeModel, ParseErrorModel>::Err(
            ParseErrorModel::MissingNamespace,
        )) <==> (ts.len() < 2 || ts[0].type_ != TokenType::NamespaceToken || ts[1].type_
            != TokenType::NameIdentifierToken),
{
    if !(ts.len() < 2 || ts[0].type_ != TokenType::NamespaceToken || ts[1].type_
        != TokenType::NameIdentifierToken) {
        lemma_top_items_nm(ts, 0);
    }
}

/// Parsing a namespace whose first declaration is a method header whose
/// open scope is never balanced fails with `UnterminatedScope`.
pub proof fn lemma_unterminated_scope(ts: Seq<TokenModel>)
    requires
        ts.len() > 4,
        ts[0].type_ == TokenType::NamespaceToken,
        ts[1].type_ == TokenType::NameIdentifierToken,
        ts[2].type_ == TokenType::TypeDeclarationToken,
        ts[3].type_ == TokenType::NameIdentifierToken,
        ts[4].type_ == TokenType::OpenParenthesisToken,
        scope_end(ts, 2, 0) is None,
    ensures
        parse_spec(ts) == Result::<NodeModel, ParseErrorModel>::Err(
            ParseErrorModel::UnterminatedScope,
        ),
{
    assert(parse_top_items(ts, 0) == parse_top_items(ts, 1));
    assert(parse_top_items(ts, 1) == parse_top_items(ts, 2));
    assert(parse_top_items(ts, 2) == Result::<Seq<NodeModel>, ParseErrorModel>::Err(
        ParseErrorModel::UnterminatedScope,
    ));
}

/// A maximal run of two or more consecutive assignment nodes is
/// represented as one grouped assignment node whose children are
/// exactly the run's nodes, in their original order; what follows the
/// run is grouped on its own.
pub proof fn lemma_assignment_grouping(ns: Seq<NodeModel>, k: int, m: int)
    requires
        0 <= k,
        m >= 2,
        k + m <= ns.len(),
        forall|i: int| k <= i < k + m ==> ns[i].type_ == SyntaxTreeNodeType::Assignment,
        k + m == ns.len() || ns[k + m].type_ != SyntaxTreeNodeType::Assignment,
    ensures
        group_from(ns, k) == seq![
            NodeModel {
                value: Option::None,
                type_: SyntaxTreeNodeType::Assignment,
                children: ns.subrange(k, k + m),
            },
        ] + group_from(ns, k + m),
{
    lemma_assign_run_end(ns, k + 1);
    let j = assign_run_end(ns, k + 1);
    if j < k + m {
        assert(ns[j].type_ == SyntaxTreeNodeType::Assignment);
        assert(false);
    }
    if j > k + m {
        assert(ns[k + m].type_ == SyntaxTreeNodeType::Assignment);
        assert(false);
    }
}

/// The position of the first token of type `tt` at or after `from`, if
/// any.
fn token_pos(ts: &[Token], tt: TokenType, from: usize) -> (r: Option<usize>)
    requires
        from <= ts@.len(),
    ensures
        match r {
            Option::Some(p) => from <= p < ts@.len() && tok_pos(
                tokens_view(ts@),
                tt,
                from as int,
            ) == Option::Some(p as int),
            Option::None => tok_pos(tokens_view(ts@), tt, from as int) is None,
        },
{
    let ghost tv = tokens_view(ts@);
    let mut j: usize = from;
    while j < ts.len()
        invariant
            from <= j <= ts@.len(),
            tv == tokens_view(ts@),
            tok_pos(tv, tt, from as int) == tok_pos(tv, tt, j as int),
        decreases ts@.len() - j,
    {
        if ts[j].type_ == tt {
            return Some(j);
        }
        j += 1;
    }
    None
}

/// The position of the last token of type `tt`, if any.
fn token_rpos(ts: &[Token], tt: TokenType) -> (r: Option<usize>)
    ensures
        match r {
            Option::Some(p) => p < ts@.len() && tok_rpos(tokens_view(ts@), tt, ts@.len() - 1)
                == Option::Some(p as int),
            Option::None => tok_rpos(tokens_view(ts@), tt, ts@.len() - 1) is None,
        },
{
    let ghost tv = tokens_view(ts@);
    let mut j: usize = ts.len();
    while j > 0
        invariant
            j <= ts@.len(),
            tv == tokens_view(ts@),
            tok_rpos(tv, tt, ts@.len() - 1) == tok_rpos(tv, tt, j - 1),
        decreases j,
    {
        j -= 1;
        if ts[j].type_ == tt {
            return Some(j);
        }
    }
    None
}

/// Finds, from `index_to_start` on, the close-scope token that returns
/// the signed open/close counter to zero.
pub fn find_index_of_last_closing_scope(source_tokens: &[Token], index_to_start: usize) -> (r:
    Option<usize>)
    requires
        index_to_start <= source_tokens@.len(),
    ensures
        match r {
            Option::Some(p) => index_to_start <= p < source_tokens@.len() && scope_end(
                tokens_view(source_tokens@),
                index_to_start as int,
                0,
            ) == Option::Some(p as int),
            Option::None => scope_end(tokens_view(source_tokens@), index_to_start as int, 0) is None,
        },
{
    let ghost tv = tokens_view(source_tokens@);
    let mut j: usize = index_to_start;
    let mut opens: usize = 0;
    let mut closes: usize = 0;
    while j < source_tokens.len()
        invariant
            index_to_start <= j <= source_tokens@.len(),
            opens <= j,
            closes <= j,
            tv == tokens_view(source_tokens@),
            scope_end(tv, index_to_start as int, 0) == scope_end(tv, j as int, opens - closes),
        decreases source_tokens@.len() - j,
    {
        let tt = source_tokens[j].type_;
        if tt == TokenType::CloseScopeToken {
            if opens == closes + 1 {
                return Some(j);
            }
            closes += 1;
        } else if tt == TokenType::OpenScopeToken {
            opens += 1;
        }
        j += 1;
    }
    None
}

/// A vector whose first node is `n` and whose remaining nodes are those
/// of `rest`, in order.
fn prepend_node(n: SyntaxTreeNode, rest: Vec<SyntaxTreeNode>) -> (r: Vec<SyntaxTreeNode>)
    ensures
        nodes_view(r@) == seq![n@] + nodes_view(rest@),
{
    let ghost rest0 = rest@;
    let mut out: Vec<SyntaxTreeNode> = Vec::new();
    out.push(n);
    let mut tail = rest;
    out.append(&mut tail);
    proof {
        assert(out@ =~= seq![out@[0]] + rest0);
        lemma_nodes_view_singleton(out@[0]);
        lemma_nodes_view_concat(seq![out@[0]], rest0);
    }
    out
}

/// Clones the optional text of a token.
fn clone_value(v: &Option<String>) -> (r: Option<String>)
    ensures
        match (v, &r) {
            (Option::Some(s), Option::Some(t)) => t@ == s@,
            (Option::None, Option::None) => true,
            _ => false,
        },
{
    match v {
        Option::Some(s) => Option::Some(s.clone()),
        Option::None => Option::None,
    }
}

/// Parses the `if` form: the condition between the keyword's
/// parenthesis pair, then the body behind the open scope.
fn parse_if_branch(ts: &[Token]) -> (r: Result<SyntaxTreeNode, ParseError>)
    ensures
        match if_branch_spec(tokens_view(ts@)) {
            Result::Ok(n) => r matches Ok(node) && node@ == n,
            Result::Err(e) => r matches Err(pe) && pe@ == e,
        },
    decreases ts@.len(), 0int, 0int,
{
    let ghost tv = tokens_view(ts@);
    let n = ts.len();
    match token_pos(ts, TokenType::CloseParenthesisToken, 0) {
        None => Err(ParseError::UnparsableExpression(tokens_of_slice(ts))),
        Some(cp) => {
            if cp < 2 {
                return Err(ParseError::UnparsableExpression(tokens_of_slice(ts)));
            }
            proof {
                lemma_tokens_view_subrange(ts@, 2, cp as int);
            }
            let cond = match parse_expression(&ts[2..cp]) {
                Ok(c) => c,
                Err(e) => return Err(e),
            };
            let body_start: usize = if cp <= n - 2 {
                cp + 2
            } else {
                n
            };
            proof {
                lemma_tokens_view_subrange(ts@, body_start as int, n as int);
            }
            let body = match parse_internal_scope(&ts[body_start..n]) {
                Ok(b) => b,
                Err(e) => return Err(e),
            };
            let value = <String as vstd::string::StringExecFns>::from_str("if");
            let children = prepend_node(cond, body);
            Ok(SyntaxTreeNode { value: Some(value), type_: SyntaxTreeNodeType::Branch, children })
        },
    }
}

/// Parses the `else` form: the body behind the keyword and its open
/// scope.
fn parse_else_branch(ts: &[Token]) -> (r: Result<SyntaxTreeNode, ParseError>)
    ensures
        match else_branch_spec(tokens_view(ts@)) {
            Result::Ok(n) => r matches Ok(node) && node@ == n,
            Result::Err(e) => r matches Err(pe) && pe@ == e,
        },
    decreases ts@.len(), 0int, 0int,
{
    let n = ts.len();
    if n < 2 {
        return Err(ParseError::UnparsableExpression(tokens_of_slice(ts)));
    }
    proof {
        lemma_tokens_view_subrange(ts@, 2, n as int);
    }
    let children = match parse_internal_scope(&ts[2..n]) {
        Ok(b) => b,
        Err(e) => return Err(e),
    };
    let value = <String as vstd::string::StringExecFns>::from_str("else");
    Ok(SyntaxTreeNode { value: Some(value), type_: SyntaxTreeNodeType::Branch, children })
}

/// Parses the assignment form: the bound identifier's name over the
/// parsed right-hand side, with a compound operator wrapped under an `=`
/// expression.
fn parse_assignment(ts: &[Token]) -> (r: Result<SyntaxTreeNode, ParseError>)
    ensures
        match assignment_spec(tokens_view(ts@)) {
            Result::Ok(n) => r matches Ok(node) && node@ == n,
            Result::Err(e) => r matches Err(pe) && pe@ == e,
        },
    decreases ts@.len(), 0int, 0int,
{
    let ghost tv = tokens_view(ts@);
    let n = ts.len();
    match token_pos(ts, TokenType::AssignmentOperatorToken, 0) {
        Some(ai) if ai >= 1 && ts[ai - 1].type_ == TokenType::NameIdentifierToken => {
            proof {
                assert(assignment_applies(tv));
                lemma_tokens_view_subrange(ts@, ai + 1, n as int);
                lemma_tokens_view_subrange(ts@, ai - 1, ai as int);
            }
            let child: SyntaxTreeNode = match &ts[ai].value {
                None => {
                    match parse_expression(&ts[ai + 1..n]) {
                        Ok(c) => c,
                        Err(e) => return Err(e),
                    }
                },
                Some(_) => {
                    let lhs = match parse_expression(&ts[ai - 1..ai]) {
                        Ok(c) => c,
                        Err(e) => return Err(e),
                    };
                    let rhs = match parse_expression(&ts[ai + 1..n]) {
                        Ok(c) => c,
                        Err(e) => return Err(e),
                    };
                    let ghost lm = lhs@;
                    let ghost rm = rhs@;
                    let mut ch: Vec<SyntaxTreeNode> = Vec::new();
                    ch.push(lhs);
                    ch.push(rhs);
                    proof {
                        lemma_nodes_view_pair(ch@);
                        assert(ch@[0]@ == lm);
                        assert(ch@[1]@ == rm);
                        assert(nodes_view(ch@) == seq![lm, rm]);
                    }
                    let eq_text = <String as vstd::string::StringExecFns>::from_str("=");
                    SyntaxTreeNode {
                        value: Some(eq_text),
                        type_: SyntaxTreeNodeType::Expression,
                        children: ch,
                    }
                },
            };
            let ghost cm = child@;
            let value = clone_value(&ts[ai - 1].value);
            let mut children: Vec<SyntaxTreeNode> = Vec::new();
            children.push(child);
            proof {
                lemma_nodes_view_singleton(children@[0]);
                assert(children@ =~= seq![children@[0]]);
                assert(children@[0]@ == cm);
            }
            Ok(SyntaxTreeNode { value, type_: SyntaxTreeNodeType::Assignment, children })
        },
        _ => {
            proof {
                assert(!assignment_applies(tv));
            }
            Err(ParseError::UnparsableExpression(tokens_of_slice(ts)))
        },
    }
}

/// Parses the call form: the callee's name over the comma-split
/// argument expressions.
fn parse_call(ts: &[Token]) -> (r: Result<SyntaxTreeNode, ParseError>)
    ensures
        match call_spec(tokens_view(ts@)) {
            Result::Ok(n) => r matches Ok(node) && node@ == n,
            Result::Err(e) => r matches Err(pe) && pe@ == e,
        },
    decreases ts@.len(), 0int, 0int,
{
    let n = ts.len();
    if n < 3 {
        return Err(ParseError::UnparsableExpression(tokens_of_slice(ts)));
    }
    proof {
        lemma_tokens_view_subrange(ts@, 2, n - 1);
    }
    let children = match parse_collection(&ts[2..n - 1]) {
        Ok(v) => v,
        Err(e) => return Err(e),
    };
    let value = clone_value(&ts[0].value);
    Ok(SyntaxTreeNode { value, type_: SyntaxTreeNodeType::Expression, children })
}

/// Parses the bracketed form: a collection node over the comma-split
/// element expressions.
fn parse_collection_literal(ts: &[Token]) -> (r: Result<SyntaxTreeNode, ParseError>)
    ensures
        match collection_literal_spec(tokens_view(ts@)) {
            Result::Ok(n) => r matches Ok(node) && node@ == n,
            Result::Err(e) => r matches Err(pe) && pe@ == e,
        },
    decreases ts@.len(), 0int, 0int,
{
    let n = ts.len();
    if n < 2 {
        return Err(ParseError::UnparsableExpression(tokens_of_slice(ts)));
    }
    proof {
        lemma_tokens_view_subrange(ts@, 1, n - 1);
    }
    let children = match parse_collection(&ts[1..n - 1]) {
        Ok(v) => v,
        Err(e) => return Err(e),
    };
    Ok(SyntaxTreeNode { value: None, type_: SyntaxTreeNodeType::Collection, children })
}

/// Parses the numeric-operator form: the operator's symbol over the
/// halves split at the first numeric operator.
fn parse_numeric(ts: &[Token]) -> (r: Result<SyntaxTreeNode, ParseError>)
    ensures
        match numeric_spec(tokens_view(ts@)) {
            Result::Ok(n) => r matches Ok(node) && node@ == n,
            Result::Err(e) => r matches Err(pe) && pe@ == e,
        },
    decreases ts@.len(), 0int, 0int,
{
    let ghost tv = tokens_view(ts@);
    let n = ts.len();
    match token_pos(ts, TokenType::NumericOperationToken, 0) {
        None => Err(ParseError::UnparsableExpression(tokens_of_slice(ts))),
        Some(p) => {
            proof {
                lemma_tokens_view_subrange(ts@, 0, p as int);
                lemma_tokens_view_subrange(ts@, p + 1, n as int);
            }
            let left = match parse_expression(&ts[0..p]) {
                Ok(c) => c,
                Err(e) => return Err(e),
            };
            let right = match parse_expression(&ts[p + 1..n]) {
                Ok(c) => c,
                Err(e) => return Err(e),
            };
            let ghost lm = left@;
            let ghost rm = right@;
            let mut children: Vec<SyntaxTreeNode> = Vec::new();
            children.push(left);
            children.push(right);
            proof {
                lemma_nodes_view_pair(children@);
                assert(children@[0]@ == lm);
                assert(children@[1]@ == rm);
            }
            let value = clone_value(&ts[p].value);
            Ok(SyntaxTreeNode { value, type_: SyntaxTreeNodeType::Expression, children })
        },
    }
}

/// Parses the equality form: an equality-check node with the fixed
/// value `=` over the halves split at the first equality operator.
fn parse_equality(ts: &[Token]) -> (r: Result<SyntaxTreeNode, ParseError>)
    ensures
        match equality_spec(tokens_view(ts@)) {
            Result::Ok(n) => r matches Ok(node) && node@ == n,
            Result::Err(e) => r matches Err(pe) && pe@ == e,
        },
    decreases ts@.len(), 0int, 0int,
{
    let ghost tv = tokens_view(ts@);
    let n = ts.len();
    match token_pos(ts, TokenType::EqualityOperatorToken, 0) {
        None => Err(ParseError::UnparsableExpression(tokens_of_slice(ts))),
        Some(p) => {
            proof {
                lemma_tokens_view_subrange(ts@, 0, p as int);
                lemma_tokens_view_subrange(ts@, p + 1, n as int);
            }
            let left = match parse_expression(&ts[0..p]) {
                Ok(c) => c,
                Err(e) => return Err(e),
            };
            let right = match parse_expression(&ts[p + 1..n]) {
                Ok(c) => c,
                Err(e) => return Err(e),
            };
            let ghost lm = left@;
            let ghost rm = right@;
            let mut children: Vec<SyntaxTreeNode> = Vec::new();
            children.push(left);
            children.push(right);
            proof {
                lemma_nodes_view_pair(children@);
                assert(children@[0]@ == lm);
                assert(children@[1]@ == rm);
            }
            let eq_text = <String as vstd::string::StringExecFns>::from_str("=");
            Ok(
                SyntaxTreeNode {
                    value: Some(eq_text),
                    type_: SyntaxTreeNodeType::EqualityCheck,
                    children,
                },
            )
        },
    }
}

/// Parses the dotted-call form: the method's name over the receiver
/// identifier leaf and the comma-split argument expressions.
fn parse_dotted(ts: &[Token]) -> (r: Result<SyntaxTreeNode, ParseError>)
    ensures
        match dotted_spec(tokens_view(ts@)) {
            Result::Ok(n) => r matches Ok(node) && node@ == n,
            Result::Err(e) => r matches Err(pe) && pe@ == e,
        },
    decreases ts@.len(), 0int, 0int,
{
    let n = ts.len();
    if n < 5 {
        return Err(ParseError::UnparsableExpression(tokens_of_slice(ts)));
    }
    proof {
        lemma_tokens_view_subrange(ts@, 0, 1);
        lemma_tokens_view_subrange(ts@, 4, n - 1);
    }
    let receiver = match parse_expression(&ts[0..1]) {
        Ok(c) => c,
        Err(e) => return Err(e),
    };
    let args = match parse_collection(&ts[4..n - 1]) {
        Ok(v) => v,
        Err(e) => return Err(e),
    };
    let value = clone_value(&ts[2].value);
    let children = prepend_node(receiver, args);
    Ok(SyntaxTreeNode { value, type_: SyntaxTreeNodeType::Expression, children })
}

/// Parses a token slice as one expression, trying the grammar's forms
/// in their fixed order.
pub fn parse_expression(expression_tokens: &[Token]) -> (r: Result<SyntaxTreeNode, ParseError>)
    ensures
        match parse_expression_spec(tokens_view(expression_tokens@)) {
            Result::Ok(n) => r matches Ok(node) && node@ == n,
            Result::Err(e) => r matches Err(pe) && pe@ == e,
        },
    decreases expression_tokens@.len(), 1int, 0int,
{
    let ghost tv0 = tokens_view(expression_tokens@);
    let n0 = expression_tokens.len();
    if n0 == 0 {
        let payload: Vec<Token> = Vec::new();
        proof {
            assert(tokens_view(payload@) =~= tv0);
        }
        return Err(ParseError::UnparsableExpression(payload));
    }
    let ts: &[Token] = if expression_tokens[n0 - 1].type_ == TokenType::SemicolonToken {
        proof {
            lemma_tokens_view_subrange(expression_tokens@, 0, n0 - 1);
        }
        &expression_tokens[0..n0 - 1]
    } else {
        expression_tokens
    };
    let ghost tv = tokens_view(ts@);
    proof {
        assert(tv == strip_semicolon(tv0));
    }
    let n = ts.len();
    if n == 0 {
        let payload: Vec<Token> = Vec::new();
        proof {
            assert(tokens_view(payload@) =~= tv);
        }
        return Err(ParseError::UnparsableExpression(payload));
    }
    if n == 1 {
        let value = clone_value(&ts[0].value);
        let node = SyntaxTreeNode { value, type_: SyntaxTreeNodeType::Literal, children: Vec::new() };
        proof {
            assert(nodes_view(node.children@) =~= Seq::<NodeModel>::empty());
        }
        return Ok(node);
    }
    if ts[0].type_ == TokenType::ReturnToken {
        proof {
            lemma_tokens_view_subrange(ts@, 1, n as int);
        }
        return parse_expression(&ts[1..n]);
    }
    if ts[0].type_ == TokenType::OpenParenthesisToken {
        match token_rpos(ts, TokenType::CloseParenthesisToken) {
            Some(cp) => {
                proof {
                    lemma_tok_rpos(tv, TokenType::CloseParenthesisToken, tv.len() - 1);
                    lemma_tokens_view_subrange(ts@, 1, cp as int);
                }
                return parse_expression(&ts[1..cp]);
            },
            None => {},
        }
    }
    if ts[0].type_ == TokenType::BranchingOperatorToken {
        let is_if = match &ts[0].value {
            Some(v) => string_is(v, "if"),
            None => false,
        };
        if is_if {
            return parse_if_branch(ts);
        }
        let is_else = match &ts[0].value {
            Some(v) => string_is(v, "else"),
            None => false,
        };
        if is_else {
            return parse_else_branch(ts);
        }
    }
    let applies = match token_pos(ts, TokenType::AssignmentOperatorToken, 0) {
        Some(ai) => ai >= 1 && ts[ai - 1].type_ == TokenType::NameIdentifierToken,
        None => false,
    };
    if applies {
        return parse_assignment(ts);
    }
    if ts[0].type_ == TokenType::NameIdentifierToken && ts[1].type_
        == TokenType::OpenParenthesisToken && ts[n - 1].type_ == TokenType::CloseParenthesisToken {
        return parse_call(ts);
    }
    if ts[0].type_ == TokenType::OpenCollectionToken && ts[n - 1].type_
        == TokenType::CloseCollectionToken {
        return parse_collection_literal(ts);
    }
    match token_pos(ts, TokenType::NumericOperationToken, 0) {
        Some(_) => {
            return parse_numeric(ts);
        },
        None => {},
    }
    match token_pos(ts, TokenType::EqualityOperatorToken, 0) {
        Some(_) => {
            return parse_equality(ts);
        },
        None => {},
    }
    if n >= 5 && ts[0].type_ == TokenType::NameIdentifierToken && ts[1].type_
        == TokenType::DotMethodToken && ts[2].type_ == TokenType::NameIdentifierToken
        && ts[3].type_ == TokenType::OpenParenthesisToken && ts[n - 1].type_
        == TokenType::CloseParenthesisToken {
        return parse_dotted(ts);
    }
    Err(ParseError::UnparsableExpression(tokens_of_slice(ts)))
}

/// Splits a token slice on commas and parses each piece as an
/// expression; an empty slice holds no pieces.
pub fn parse_collection(collection_tokens: &[Token]) -> (r: Result<Vec<SyntaxTreeNode>, ParseError>)
    ensures
        match parse_collection_spec(tokens_view(collection_tokens@)) {
            Result::Ok(ns) => r matches Ok(v) && nodes_view(v@) == ns,
            Result::Err(e) => r matches Err(pe) && pe@ == e,
        },
    decreases collection_tokens@.len(), 2int, 0int,
{
    let ghost tv = tokens_view(collection_tokens@);
    let n = collection_tokens.len();
    if n == 0 {
        let out: Vec<SyntaxTreeNode> = Vec::new();
        proof {
            assert(nodes_view(out@) =~= Seq::<NodeModel>::empty());
        }
        return Ok(out);
    }
    match token_pos(collection_tokens, TokenType::CommaToken, 0) {
        Some(p) => {
            proof {
                lemma_tokens_view_subrange(collection_tokens@, 0, p as int);
                lemma_tokens_view_subrange(collection_tokens@, p + 1, n as int);
            }
            let first = match parse_expression(&collection_tokens[0..p]) {
                Ok(node) => node,
                Err(e) => return Err(e),
            };
            let rest = match parse_collection(&collection_tokens[p + 1..n]) {
                Ok(v) => v,
                Err(e) => return Err(e),
            };
            Ok(prepend_node(first, rest))
        },
        None => {
            match parse_expression(collection_tokens) {
                Ok(node) => {
                    let ghost nm = node@;
                    let mut out: Vec<SyntaxTreeNode> = Vec::new();
                    out.push(node);
                    proof {
                        lemma_nodes_view_singleton(out@[0]);
                        assert(out@ =~= seq![out@[0]]);
                        assert(out@[0]@ == nm);
                    }
                    Ok(out)
                },
                Err(e) => Err(e),
            }
        },
    }
}

/// Parses the statements from `i` on, before grouping.
fn parse_scope_items_exec(ts: &[Token], i: usize) -> (r: Result<Vec<SyntaxTreeNode>, ParseError>)
    requires
        i <= ts@.len(),
    ensures
        match parse_scope_items(tokens_view(ts@), i as int) {
            Result::Ok(ns) => r matches Ok(v) && nodes_view(v@) == ns,
            Result::Err(e) => r matches Err(pe) && pe@ == e,
        },
    decreases ts@.len(), 3int, ts@.len() - i,
{
    let ghost tv = tokens_view(ts@);
    let n = ts.len();
    if i >= n {
        let out: Vec<SyntaxTreeNode> = Vec::new();
        proof {
            assert(nodes_view(out@) =~= Seq::<NodeModel>::empty());
        }
        return Ok(out);
    }
    let tt = ts[i].type_;
    if tt == TokenType::ReturnToken || tt == TokenType::CloseScopeToken {
        return parse_scope_items_exec(ts, i + 1);
    }
    if tt == TokenType::CommentToken {
        let rest = match parse_scope_items_exec(ts, i + 1) {
            Ok(v) => v,
            Err(e) => return Err(e),
        };
        let value = clone_value(&ts[i].value);
        let node = SyntaxTreeNode { value, type_: SyntaxTreeNodeType::Comment, children: Vec::new() };
        proof {
            assert(nodes_view(node.children@) =~= Seq::<NodeModel>::empty());
        }
        return Ok(prepend_node(node, rest));
    }
    let semi_end: usize = match token_pos(ts, TokenType::SemicolonToken, i) {
        Some(p) => p,
        None => i,
    };
    let scoped: bool = match token_pos(ts, TokenType::OpenScopeToken, i) {
        Some(o) => o < semi_end,
        None => false,
    };
    if scoped {
        match find_index_of_last_closing_scope(ts, i) {
            None => Err(ParseError::UnterminatedScope),
            Some(end) => {
                proof {
                    lemma_tokens_view_subrange(ts@, i as int, end + 1);
                }
                let node = match parse_expression(&ts[i..end + 1]) {
                    Ok(x) => x,
                    Err(e) => return Err(e),
                };
                let rest = match parse_scope_items_exec(ts, end + 1) {
                    Ok(v) => v,
                    Err(e) => return Err(e),
                };
                Ok(prepend_node(node, rest))
            },
        }
    } else {
        proof {
            lemma_tokens_view_subrange(ts@, i as int, semi_end + 1);
        }
        let node = match parse_expression(&ts[i..semi_end + 1]) {
            Ok(x) => x,
            Err(e) => return Err(e),
        };
        let rest = match parse_scope_items_exec(ts, semi_end + 1) {
            Ok(v) => v,
            Err(e) => return Err(e),
        };
        Ok(prepend_node(node, rest))
    }
}

/// Parses a statement sequence: the statements in order, with
/// consecutive assignments grouped.
pub fn parse_internal_scope(internal_tokens: &[Token]) -> (r: Result<
    Vec<SyntaxTreeNode>,
    ParseError,
>)
    ensures
        match parse_scope_spec(tokens_view(internal_tokens@)) {
            Result::Ok(ns) => r matches Ok(v) && nodes_view(v@) == ns,
            Result::Err(e) => r matches Err(pe) && pe@ == e,
        },
    decreases internal_tokens@.len(), 3int, internal_tokens@.len() + 1,
{
    let items = match parse_scope_items_exec(internal_tokens, 0) {
        Ok(v) => v,
        Err(e) => return Err(e),
    };
    Ok(group_consecutive_assignments(items))
}

/// The end of the run of assignment nodes that continues from `i`.
fn assignments_end(nodes: &Vec<SyntaxTreeNode>, i: usize) -> (j: usize)
    requires
        i <= nodes@.len(),
    ensures
        j == assign_run_end(nodes_view(nodes@), i as int),
        i <= j <= nodes@.len(),
{
    let ghost nv = nodes_view(nodes@);
    proof {
        lemma_nodes_view_index(nodes@);
        lemma_assign_run_end(nv, i as int);
    }
    let mut j: usize = i;
    while j < nodes.len() && nodes[j].type_ == SyntaxTreeNodeType::Assignment
        invariant
            i <= j <= nodes@.len(),
            nv == nodes_view(nodes@),
            nv.len() == nodes@.len(),
            forall|l: int| 0 <= l < nv.len() ==> nv[l] == #[trigger] nodes@[l]@,
            assign_run_end(nv, i as int) == assign_run_end(nv, j as int),
        decreases nodes@.len() - j,
    {
        proof {
            assert(nv[j as int] == nodes@[j as int]@);
        }
        j += 1;
    }
    proof {
        if (j as int) < nodes@.len() {
            assert(nv[j as int] == nodes@[j as int]@);
        }
    }
    j
}

/// Rebuilds the nodes from `i` on with every maximal run of two or more
/// consecutive assignments collapsed into one grouped assignment node.
fn group_rec(nodes: &Vec<SyntaxTreeNode>, i: usize) -> (r: Vec<SyntaxTreeNode>)
    requires
        i <= nodes@.len(),
    ensures
        nodes_view(r@) == group_from(nodes_view(nodes@), i as int),
    decreases nodes@.len() - i,
{
    let ghost nv = nodes_view(nodes@);
    proof {
        lemma_nodes_view_index(nodes@);
    }
    let n = nodes.len();
    if i >= n {
        let out: Vec<SyntaxTreeNode> = Vec::new();
        proof {
            assert(nodes_view(out@) =~= Seq::<NodeModel>::empty());
        }
        return out;
    }
    proof {
        assert(nv[i as int] == nodes@[i as int]@);
    }
    if !(nodes[i].type_ == SyntaxTreeNodeType::Assignment) {
        let head = clone_node(&nodes[i]);
        let rest = group_rec(nodes, i + 1);
        return prepend_node(head, rest);
    }
    let j = assignments_end(nodes, i + 1);
    if j == i + 1 {
        let head = clone_node(&nodes[i]);
        let rest = group_rec(nodes, i + 1);
        prepend_node(head, rest)
    } else {
        let mut children: Vec<SyntaxTreeNode> = Vec::new();
        let mut k: usize = i;
        while k < j
            invariant
                i <= k <= j <= nodes@.len(),
                children@.len() == k - i,
                forall|l: int| 0 <= l < k - i ==> children@[l]@ == #[trigger] nodes@[i + l]@,
            decreases j - k,
        {
            let c = clone_node(&nodes[k]);
            children.push(c);
            k += 1;
        }
        proof {
            lemma_nodes_view_index(children@);
            lemma_nodes_view_index(nodes@);
            assert forall|l: int| 0 <= l < j - i implies nodes_view(children@)[l] == nv.subrange(
                i as int,
                j as int,
            )[l] by {
                assert(nodes_view(children@)[l] == children@[l]@);
                assert(nv[i + l] == nodes@[i + l]@);
            }
            assert(nodes_view(children@) =~= nv.subrange(i as int, j as int));
        }
        let grouped = SyntaxTreeNode {
            value: None,
            type_: SyntaxTreeNodeType::Assignment,
            children,
        };
        let rest = group_rec(nodes, j);
        prepend_node(grouped, rest)
    }
}

/// Collapses every maximal run of two or more consecutive assignment
/// nodes into one grouped assignment node carrying the run as its
/// children; a lone assignment is left untouched.
pub fn group_consecutive_assignments(body_nodes: Vec<SyntaxTreeNode>) -> (r: Vec<SyntaxTreeNode>)
    ensures
        nodes_view(r@) == group_from(nodes_view(body_nodes@), 0),
{
    group_rec(&body_nodes, 0)
}

/// The method-argument leaves for the identifier tokens from `i` on.
fn args_rec(ts: &[Token], i: usize) -> (r: Vec<SyntaxTreeNode>)
    requires
        i <= ts@.len(),
    ensures
        nodes_view(r@) == method_args_from(tokens_view(ts@), i as int),
    decreases ts@.len() - i,
{
    let ghost tv = tokens_view(ts@);
    if i >= ts.len() {
        let out: Vec<SyntaxTreeNode> = Vec::new();
        proof {
            assert(nodes_view(out@) =~= Seq::<NodeModel>::empty());
        }
        return out;
    }
    let rest = args_rec(ts, i + 1);
    if ts[i].type_ == TokenType::NameIdentifierToken {
        let value = clone_value(&ts[i].value);
        let node = SyntaxTreeNode {
            value,
            type_: SyntaxTreeNodeType::MethodArgument,
            children: Vec::new(),
        };
        proof {
            assert(nodes_view(node.children@) =~= Seq::<NodeModel>::empty());
            assert(node@ == arg_node(tv[i as int]));
        }
        prepend_node(node, rest)
    } else {
        rest
    }
}

/// The method-argument leaves for the identifier tokens of an argument
/// list, in declaration order.
pub fn parse_method_arguments(argument_tokens: &[Token]) -> (r: Result<
    Vec<SyntaxTreeNode>,
    ParseError,
>)
    ensures
        r matches Ok(v) && nodes_view(v@) == method_args_from(tokens_view(argument_tokens@), 0),
{
    Ok(args_rec(argument_tokens, 0))
}

/// Parses a method declaration: the argument leaves between the first
/// parenthesis pair, then the parsed body, under the method's name.
pub fn parse_method(method_tokens: &[Token]) -> (r: Result<SyntaxTreeNode, ParseError>)
    ensures
        match parse_method_spec(tokens_view(method_tokens@)) {
            Result::Ok(n) => r matches Ok(node) && node@ == n,
            Result::Err(e) => r matches Err(pe) && pe@ == e,
        },
    decreases method_tokens@.len(), 4int, 0int,
{
    let ghost tv = tokens_view(method_tokens@);
    let n = method_tokens.len();
    let op = token_pos(method_tokens, TokenType::OpenParenthesisToken, 0);
    let cp = token_pos(method_tokens, TokenType::CloseParenthesisToken, 0);
    match (op, cp) {
        (Some(o), Some(c)) => {
            if o < c && n >= 2 && c <= n - 2 {
                proof {
                    lemma_tokens_view_subrange(method_tokens@, o + 1, c as int);
                    lemma_tokens_view_subrange(method_tokens@, c + 2, n as int);
                }
                let args = match parse_method_arguments(&method_tokens[o + 1..c]) {
                    Ok(v) => v,
                    Err(e) => return Err(e),
                };
                let body = match parse_internal_scope(&method_tokens[c + 2..n]) {
                    Ok(v) => v,
                    Err(e) => return Err(e),
                };
                let ghost argseq = args@;
                let ghost bodyseq = body@;
                let mut children = args;
                let mut tail = body;
                children.append(&mut tail);
                proof {
                    assert(children@ == argseq + bodyseq);
                    lemma_nodes_view_concat(argseq, bodyseq);
                }
                let value = clone_value(&method_tokens[1].value);
                Ok(SyntaxTreeNode { value, type_: SyntaxTreeNodeType::Method, children })
            } else {
                Err(ParseError::UnparsableExpression(tokens_of_slice(method_tokens)))
            }
        },
        _ => Err(ParseError::UnparsableExpression(tokens_of_slice(method_tokens))),
    }
}

/// Parses the top level from `i` on: method declarations, the class
/// failure, bare call statements, and tolerant skips.
fn parse_top_items_exec(ts: &[Token], i: usize) -> (r: Result<Vec<SyntaxTreeNode>, ParseError>)
    requires
        i <= ts@.len(),
    ensures
        match parse_top_items(tokens_view(ts@), i as int) {
            Result::Ok(ns) => r matches Ok(v) && nodes_view(v@) == ns,
            Result::Err(e) => r matches Err(pe) && pe@ == e,
        },
    decreases ts@.len(), 5int, ts@.len() - i,
{
    let ghost tv = tokens_view(ts@);
    let n = ts.len();
    if i >= n {
        let out: Vec<SyntaxTreeNode> = Vec::new();
        proof {
            assert(nodes_view(out@) =~= Seq::<NodeModel>::empty());
        }
        return Ok(out);
    }
    if n >= 3 && i <= n - 3 && ts[i].type_ == TokenType::TypeDeclarationToken && ts[i + 1].type_
        == TokenType::NameIdentifierToken && ts[i + 2].type_ == TokenType::OpenParenthesisToken {
        match find_index_of_last_closing_scope(ts, i) {
            None => {
                return Err(ParseError::UnterminatedScope);
            },
            Some(end) => {
                proof {
                    lemma_scope_end(tv, i as int, 0);
                    assert(tv[end as int].type_ == TokenType::CloseScopeToken);
                    lemma_tokens_view_subrange(ts@, i as int, end + 1);
                }
                let m = match parse_method(&ts[i..end + 1]) {
                    Ok(x) => x,
                    Err(e) => return Err(e),
                };
                let rest = match parse_top_items_exec(ts, end) {
                    Ok(v) => v,
                    Err(e) => return Err(e),
                };
                return Ok(prepend_node(m, rest));
            },
        }
    }
    if n >= 2 && i <= n - 2 && ts[i].type_ == TokenType::ClassToken && ts[i + 1].type_
        == TokenType::NameIdentifierToken {
        return Err(ParseError::UnsupportedClassDeclaration);
    }
    if n >= 2 && i <= n - 2 && ts[i].type_ == TokenType::NameIdentifierToken && ts[i + 1].type_
        == TokenType::OpenParenthesisToken {
        let end: usize = match token_pos(ts, TokenType::SemicolonToken, i) {
            Some(p) => p,
            None => n,
        };
        proof {
            lemma_tok_pos(tv, TokenType::SemicolonToken, i as int);
            lemma_tokens_view_subrange(ts@, i as int, end as int);
        }
        let node = match parse_expression(&ts[i..end]) {
            Ok(x) => x,
            Err(e) => return Err(e),
        };
        let rest = match parse_top_items_exec(ts, end) {
            Ok(v) => v,
            Err(e) => return Err(e),
        };
        return Ok(prepend_node(node, rest));
    }
    parse_top_items_exec(ts, i + 1)
}

/// Turns a token sequence into its abstract syntax tree: the single
/// namespace root holding the top-level statements. The tokens must
/// open with `namespace <name>`, else parsing fails with
/// `MissingNamespace`.
pub fn parse(source_tokens: Vec<Token>) -> (r: Result<SyntaxTreeNode, ParseError>)
    ensures
        match parse_spec(tokens_view(source_tokens@)) {
            Result::Ok(n) => r matches Ok(node) && node@ == n,
            Result::Err(e) => r matches Err(pe) && pe@ == e,
        },
{
    let ghost tv = tokens_view(source_tokens@);
    if source_tokens.len() < 2 || !(source_tokens[0].type_ == TokenType::NamespaceToken) || !(
    source_tokens[1].type_ == TokenType::NameIdentifierToken) {
        return Err(ParseError::MissingNamespace);
    }
    let children = match parse_top_items_exec(source_tokens.as_slice(), 0) {
        Ok(v) => v,
        Err(e) => return Err(e),
    };
    let value = clone_value(&source_tokens[1].value);
    Ok(SyntaxTreeNode { value, type_: SyntaxTreeNodeType::Namespace, children })
}

} // verus!
