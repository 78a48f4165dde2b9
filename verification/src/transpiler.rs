use crate::chars::{str_to_chars, string_is};
use crate::syntax_tree_node::{
    lemma_nodes_view_index, nodes_view, NodeModel, SyntaxTreeNode, SyntaxTreeNodeType,
};
use vstd::prelude::*;

verus! {

/// The text an optional value carries, or nothing.
pub open spec fn opt_text(v: Option<Seq<char>>) -> Seq<char> {
    match v {
        Option::Some(s) => s,
        Option::None => Seq::empty(),
    }
}

/// How many times `c` occurs in `s`.
pub open spec fn count_char(s: Seq<char>, c: char) -> int
    decreases s.len(),
{
    if s.len() == 0 {
        0
    } else {
        count_char(s.subrange(0, s.len() - 1), c) + if s[s.len() - 1] == c {
            1int
        } else {
            0int
        }
    }
}

/// `c` repeated `k` times; nothing when `k` is not positive.
pub open spec fn repeat_char(c: char, k: int) -> Seq<char>
    decreases k,
{
    if k <= 0 {
        Seq::empty()
    } else {
        repeat_char(c, k - 1).push(c)
    }
}

/// The pieces joined with `sep` between neighbours.
pub open spec fn join_texts(ss: Seq<Seq<char>>, sep: Seq<char>) -> Seq<char>
    decreases ss.len(),
{
    if ss.len() == 0 {
        Seq::empty()
    } else if ss.len() == 1 {
        ss[0]
    } else {
        join_texts(ss.subrange(0, ss.len() - 1), sep) + sep + ss[ss.len() - 1]
    }
}

/// The texts of the method-argument nodes among `ns`, in order.
pub open spec fn arg_texts(ns: Seq<NodeModel>) -> Seq<Seq<char>>
    decreases ns.len(),
{
    if ns.len() == 0 {
        Seq::empty()
    } else {
        let rest = arg_texts(ns.subrange(0, ns.len() - 1));
        if ns[ns.len() - 1].type_ == SyntaxTreeNodeType::MethodArgument {
            rest.push(opt_text(ns[ns.len() - 1].value))
        } else {
            rest
        }
    }
}

/// Whether some node among `ns` is an assignment.
pub open spec fn has_assignment(ns: Seq<NodeModel>) -> bool {
    exists|i: int| 0 <= i < ns.len() && ns[i].type_ == SyntaxTreeNodeType::Assignment
}

/// The rendering of a namespace node alone: its header line and a blank
/// line; the children are rendered by the whole-tree rendering.
pub open spec fn emit_namespace(n: NodeModel) -> Seq<char> {
    "(ns "@ + opt_text(n.value) + ")\n\n"@
}

/// The rendering of a literal node: its text verbatim, except that the
/// text `null` becomes the target language's `nil`.
pub open spec fn emit_literal(n: NodeModel) -> Seq<char> {
    if n.value == Option::Some("null"@) {
        "nil"@
    } else {
        opt_text(n.value)
    }
}

/// The rendering of a comment node: `;;` and the comment's text.
pub open spec fn emit_comment(n: NodeModel) -> Seq<char> {
    ";;"@ + opt_text(n.value)
}

/// What rendering a whole tree yields: the root's own rendering followed
/// by its children's renderings, concatenated.
pub open spec fn transpile_spec(n: NodeModel) -> Seq<char> {
    emit_node(n) + concat_renders(n.children)
}

/// The renderings of `ns`, concatenated in order.
pub open spec fn concat_renders(ns: Seq<NodeModel>) -> Seq<char>
    decreases ns, 0int,
{
    if ns.len() == 0 {
        Seq::empty()
    } else {
        concat_renders(ns.subrange(0, ns.len() - 1)) + emit_node(ns[ns.len() - 1])
    }
}

/// The renderings of `ns`, in order.
pub open spec fn renders_of(ns: Seq<NodeModel>) -> Seq<Seq<char>>
    decreases ns, 0int,
{
    if ns.len() == 0 {
        Seq::empty()
    } else {
        renders_of(ns.subrange(0, ns.len() - 1)).push(emit_node(ns[ns.len() - 1]))
    }
}

/// The renderings of the non-argument children among `ns`, in order.
pub open spec fn body_renders(ns: Seq<NodeModel>) -> Seq<Seq<char>>
    decreases ns, 0int,
{
    if ns.len() == 0 {
        Seq::empty()
    } else {
        let rest = body_renders(ns.subrange(0, ns.len() - 1));
        if ns[ns.len() - 1].type_ == SyntaxTreeNodeType::MethodArgument {
            rest
        } else {
            rest.push(emit_node(ns[ns.len() - 1]))
        }
    }
}

/// The `name rendering-of-first-child` entries of a grouped assignment,
/// in order.
pub open spec fn let_entries(ns: Seq<NodeModel>) -> Seq<Seq<char>>
    decreases ns, 0int,
{
    if ns.len() == 0 {
        Seq::empty()
    } else {
        let c = ns[ns.len() - 1];
        let entry = opt_text(c.value) + " "@ + if c.children.len() >= 1 {
            emit_node(c.children[0])
        } else {
            Seq::<char>::empty()
        };
        let_entries(ns.subrange(0, ns.len() - 1)).push(entry)
    }
}

/// The rendering of a method node: its `defn` header with the
/// space-joined argument names in brackets, the newline-joined body
/// renderings, then exactly as many closing parentheses as are needed to
/// balance the text, and a blank line.
pub open spec fn emit_method(n: NodeModel) -> Seq<char>
    decreases n, 1int,
{
    let pre = "(defn "@ + opt_text(n.value) + " ["@ + join_texts(arg_texts(n.children), " "@)
        + "]\n"@ + join_texts(body_renders(n.children), "\n"@);
    pre + repeat_char(')', count_char(pre, '(') - count_char(pre, ')')) + "\n\n"@
}

/// The rendering of an expression or equality-check node: its value and
/// the space-joined child renderings, in parentheses.
pub open spec fn emit_expression(n: NodeModel) -> Seq<char>
    decreases n, 1int,
{
    "("@ + opt_text(n.value) + " "@ + join_texts(renders_of(n.children), " "@) + ")"@
}

/// The rendering of an assignment node: a `let` opening whose bindings
/// are either the grouped children's entries, joined with a newline and
/// two spaces, or the single `name rendering` pair; the closing
/// parenthesis is left to the consumer.
pub open spec fn emit_assignment(n: NodeModel) -> Seq<char>
    decreases n, 1int,
{
    if has_assignment(n.children) {
        "(let ["@ + join_texts(let_entries(n.children), "\n  "@) + "]"@
    } else {
        "(let ["@ + opt_text(n.value) + " "@ + (if n.children.len() >= 1 {
            emit_node(n.children[0])
        } else {
            Seq::<char>::empty()
        }) + "]"@
    }
}

/// The rendering of a collection node: the space-joined child
/// renderings in brackets.
pub open spec fn emit_collection(n: NodeModel) -> Seq<char>
    decreases n, 1int,
{
    "["@ + join_texts(renders_of(n.children), " "@) + "]"@
}

/// The rendering of a branch node: for `if`, the keyword and the
/// condition's rendering; then the single body rendering, or a `do`
/// block of the newline-joined body renderings; then closing
/// parentheses up to one level short of balance, that level being left
/// for the enclosing context.
pub open spec fn emit_branch(n: NodeModel) -> Seq<char>
    decreases n, 1int,
{
    let is_if = n.value == Option::Some("if"@);
    let offset: int = if is_if {
        1
    } else {
        0
    };
    let head = if is_if {
        "(if "@ + (if n.children.len() >= 1 {
            emit_node(n.children[0])
        } else {
            Seq::<char>::empty()
        }) + "\n"@
    } else {
        Seq::<char>::empty()
    };
    let body = if n.children.len() == offset + 1 {
        emit_node(n.children[offset])
    } else if is_if {
        if n.children.len() >= 1 {
            "(do \n"@ + join_texts(
                renders_of(n.children.subrange(1, n.children.len() as int)),
                "\n"@,
            ) + ")"@
        } else {
            "(do \n"@ + ")"@
        }
    } else {
        "(do \n"@ + join_texts(renders_of(n.children), "\n"@) + ")"@
    };
    let out = head + body;
    out + repeat_char(')', count_char(out, '(') - count_char(out, ')') - 1)
}

/// The rendering of one node, by its kind; kinds the emitter does not
/// support render as nothing and are ruled out by `renderable`.
pub open spec fn emit_node(n: NodeModel) -> Seq<char>
    decreases n, 2int,
{
    match n.type_ {
        SyntaxTreeNodeType::Namespace => emit_namespace(n),
        SyntaxTreeNodeType::Method => emit_method(n),
        SyntaxTreeNodeType::Literal => emit_literal(n),
        SyntaxTreeNodeType::Expression => emit_expression(n),
        SyntaxTreeNodeType::Assignment => emit_assignment(n),
        SyntaxTreeNodeType::EqualityCheck => emit_expression(n),
        SyntaxTreeNodeType::Branch => emit_branch(n),
        SyntaxTreeNodeType::Comment => emit_comment(n),
        SyntaxTreeNodeType::Collection => emit_collection(n),
        SyntaxTreeNodeType::Class => Seq::empty(),
        SyntaxTreeNodeType::MethodArgument => Seq::empty(),
    }
}

/// Whether the emitter's contract covers a node: every kind it renders
/// carries the text it prints, a class declaration or a stray
/// method-argument never reaches it, and what it unwraps is there.
pub open spec fn renderable(n: NodeModel) -> bool
    decreases n, 1int,
{
    match n.type_ {
        SyntaxTreeNodeType::Namespace => n.value is Some && renderable_nodes(n.children),
        SyntaxTreeNodeType::Class => false,
        SyntaxTreeNodeType::MethodArgument => false,
        SyntaxTreeNodeType::Method => n.value is Some && method_children_ok(n.children),
        SyntaxTreeNodeType::Literal => n.value is Some,
        SyntaxTreeNodeType::Expression => n.value is Some && renderable_nodes(n.children),
        SyntaxTreeNodeType::EqualityCheck => n.value is Some && renderable_nodes(n.children),
        SyntaxTreeNodeType::Assignment => {
            if has_assignment(n.children) {
                grouped_children_ok(n.children)
            } else {
                n.value is Some && n.children.len() >= 1 && renderable(n.children[0])
            }
        },
        SyntaxTreeNodeType::Branch => n.value is Some && (n.value == Option::Some("if"@)
            ==> n.children.len() >= 1) && renderable_nodes(n.children),
        SyntaxTreeNodeType::Comment => n.value is Some,
        SyntaxTreeNodeType::Collection => renderable_nodes(n.children),
    }
}

/// Whether every node of `ns` is renderable.
pub open spec fn renderable_nodes(ns: Seq<NodeModel>) -> bool
    decreases ns, 0int,
{
    if ns.len() == 0 {
        true
    } else {
        renderable_nodes(ns.subrange(0, ns.len() - 1)) && renderable(ns[ns.len() - 1])
    }
}

/// Whether a method's children fit its rendering: each argument leaf
/// carries its name, and every other child is renderable.
pub open spec fn method_children_ok(ns: Seq<NodeModel>) -> bool
    decreases ns, 0int,
{
    if ns.len() == 0 {
        true
    } else {
        method_children_ok(ns.subrange(0, ns.len() - 1)) && {
            let c = ns[ns.len() - 1];
            if c.type_ == SyntaxTreeNodeType::MethodArgument {
                c.value is Some
            } else {
                renderable(c)
            }
        }
    }
}

/// Whether a grouped assignment's children fit its rendering: each
/// carries a name and a first child whose rendering stands for it.
pub open spec fn grouped_children_ok(ns: Seq<NodeModel>) -> bool
    decreases ns, 0int,
{
    if ns.len() == 0 {
        true
    } else {
        grouped_children_ok(ns.subrange(0, ns.len() - 1)) && {
            let c = ns[ns.len() - 1];
            c.value is Some && c.children.len() >= 1 && renderable(c.children[0])
        }
    }
}

/// Every node of a renderable sequence is renderable.
pub proof fn lemma_renderable_nodes_index(ns: Seq<NodeModel>)
    requires
        renderable_nodes(ns),
    ensures
        forall|i: int| 0 <= i < ns.len() ==> renderable(#[trigger] ns[i]),
    decreases ns.len(),
{
    if ns.len() > 0 {
        lemma_renderable_nodes_index(ns.subrange(0, ns.len() - 1));
        assert forall|i: int| 0 <= i < ns.len() implies renderable(#[trigger] ns[i]) by {
            if i < ns.len() - 1 {
                assert(ns.subrange(0, ns.len() - 1)[i] == ns[i]);
            }
        }
    }
}

/// Every node among a method's fitting children is either an argument
/// leaf with its name or a renderable node.
pub proof fn lemma_method_children_ok_index(ns: Seq<NodeModel>)
    requires
        method_children_ok(ns),
    ensures
        forall|i: int|
            0 <= i < ns.len() ==> (if (#[trigger] ns[i]).type_ == SyntaxTreeNodeType::MethodArgument {
                ns[i].value is Some
            } else {
                renderable(ns[i])
            }),
    decreases ns.len(),
{
    if ns.len() > 0 {
        lemma_method_children_ok_index(ns.subrange(0, ns.len() - 1));
        assert forall|i: int|
            0 <= i < ns.len() implies (if (#[trigger] ns[i]).type_
                == SyntaxTreeNodeType::MethodArgument {
                ns[i].value is Some
            } else {
                renderable(ns[i])
            }) by {
            if i < ns.len() - 1 {
                assert(ns.subrange(0, ns.len() - 1)[i] == ns[i]);
            }
        }
    }
}

/// Every node among a grouped assignment's fitting children carries a
/// name and a renderable first child.
pub proof fn lemma_grouped_children_ok_index(ns: Seq<NodeModel>)
    requires
        grouped_children_ok(ns),
    ensures
        forall|i: int|
            0 <= i < ns.len() ==> (#[trigger] ns[i]).value is Some && ns[i].children.len() >= 1
                && renderable(ns[i].children[0]),
    decreases ns.len(),
{
    if ns.len() > 0 {
        lemma_grouped_children_ok_index(ns.subrange(0, ns.len() - 1));
        assert forall|i: int|
            0 <= i < ns.len() implies (#[trigger] ns[i]).value is Some && ns[i].children.len() >= 1
                && renderable(ns[i].children[0]) by {
            if i < ns.len() - 1 {
                assert(ns.subrange(0, ns.len() - 1)[i] == ns[i]);
            }
        }
    }
}

/// Counting distributes over concatenation.
pub proof fn lemma_count_concat(a: Seq<char>, b: Seq<char>, c: char)
    ensures
        count_char(a + b, c) == count_char(a, c) + count_char(b, c),
    decreases b.len(),
{
    if b.len() == 0 {
        assert(a + b =~= a);
    } else {
        assert((a + b).subrange(0, (a + b).len() - 1) =~= a + b.subrange(0, b.len() - 1));
        lemma_count_concat(a, b.subrange(0, b.len() - 1), c);
        assert((a + b)[(a + b).len() - 1] == b[b.len() - 1]);
    }
}

/// A text in which a character does not occur counts it zero times.
pub proof fn lemma_count_zero(s: Seq<char>, c: char)
    requires
        forall|i: int| 0 <= i < s.len() ==> s[i] != c,
    ensures
        count_char(s, c) == 0,
    decreases s.len(),
{
    if s.len() > 0 {
        lemma_count_zero(s.subrange(0, s.len() - 1), c);
    }
}

/// A repeated character is counted as often as it was repeated, and no
/// other character is counted at all.
pub proof fn lemma_count_repeat(c: char, k: int, d: char)
    ensures
        count_char(repeat_char(c, k), c) == if k >= 0 {
            k
        } else {
            0
        },
        d != c ==> count_char(repeat_char(c, k), d) == 0,
    decreases k,
{
    if k > 0 {
        lemma_count_repeat(c, k - 1, d);
        assert(repeat_char(c, k).subrange(0, repeat_char(c, k).len() - 1) =~= repeat_char(
            c,
            k - 1,
        ));
    }
}

/// A literal token with the text `null` always renders as the target's
/// `nil`, and a literal never renders as the text `null` itself.
pub proof fn lemma_null_literal(n: NodeModel)
    requires
        n.type_ == SyntaxTreeNodeType::Literal,
    ensures
        n.value == Option::Some("null"@) ==> emit_node(n) == "nil"@,
        emit_node(n) != "null"@,
{
    reveal_strlit("null");
    reveal_strlit("nil");
    assert("nil"@.len() == 3);
    assert("null"@.len() == 4);
}

/// A method with no arguments and a single literal body statement
/// renders as one `defn` form with an empty argument vector, the
/// literal's rendering as its only expression, and one closing
/// parenthesis.
pub proof fn lemma_single_literal_method(name: Seq<char>, lit: Seq<char>)
    requires
        count_char(name, '(') == 0,
        count_char(name, ')') == 0,
        count_char(lit, '(') == 0,
        count_char(lit, ')') == 0,
    ensures
        ({
            let body = NodeModel {
                value: Option::Some(lit),
                type_: SyntaxTreeNodeType::Literal,
                children: Seq::empty(),
            };
            let m = NodeModel {
                value: Option::Some(name),
                type_: SyntaxTreeNodeType::Method,
                children: seq![body],
            };
            emit_node(m) == "(defn "@ + name + " []\n"@ + emit_literal(body) + ")\n\n"@
        }),
{
    let body = NodeModel {
        value: Option::Some(lit),
        type_: SyntaxTreeNodeType::Literal,
        children: Seq::empty(),
    };
    let m = NodeModel {
        value: Option::Some(name),
        type_: SyntaxTreeNodeType::Method,
        children: seq![body],
    };
    let rb = emit_literal(body);
    assert(count_char(rb, '(') == 0 && count_char(rb, ')') == 0) by {
        reveal_strlit("nil");
        if lit == "null"@ {
            lemma_count_zero("nil"@, '(');
            lemma_count_zero("nil"@, ')');
        }
    }
    let cs = seq![body];
    assert(cs.subrange(0, 0) =~= Seq::<NodeModel>::empty());
    assert(arg_texts(Seq::<NodeModel>::empty()) =~= Seq::<Seq<char>>::empty());
    assert(body_renders(Seq::<NodeModel>::empty()) =~= Seq::<Seq<char>>::empty());
    assert(cs[cs.len() - 1] == body);
    assert(arg_texts(cs) == arg_texts(cs.subrange(0, 0)));
    assert(arg_texts(cs) =~= Seq::<Seq<char>>::empty());
    assert(body_renders(cs) == body_renders(cs.subrange(0, 0)).push(emit_node(body)));
    assert(body_renders(cs) == Seq::<Seq<char>>::empty().push(emit_node(body)));
    assert(emit_node(body) == rb);
    assert(join_texts(arg_texts(cs), " "@) == Seq::<char>::empty());
    assert(join_texts(body_renders(cs), "\n"@) == rb);
    let pre = "(defn "@ + name + " ["@ + Seq::<char>::empty() + "]\n"@ + rb;
    assert(emit_method(m) == pre + repeat_char(')', count_char(pre, '(') - count_char(pre, ')'))
        + "\n\n"@);
    reveal_strlit("(defn ");
    reveal_strlit(" [");
    reveal_strlit("]\n");
    assert(count_char(pre, '(') == 1) by {
        let h = "(defn "@;
        assert(h.len() == 6);
        assert(h.subrange(1, 6)[0] == 'd');
        lemma_count_zero(h.subrange(1, 6), '(');
        assert(h =~= h.subrange(0, 1) + h.subrange(1, 6));
        lemma_count_concat(h.subrange(0, 1), h.subrange(1, 6), '(');
        assert(h.subrange(0, 1).subrange(0, 0) =~= Seq::<char>::empty());
        assert(count_char(Seq::<char>::empty(), '(') == 0);
        assert(count_char(h.subrange(0, 1), '(') == count_char(Seq::<char>::empty(), '(') + 1);
        assert(count_char(h.subrange(0, 1), '(') == 1);
        lemma_count_zero(" ["@, '(');
        lemma_count_zero("]\n"@, '(');
        lemma_count_concat(h, name, '(');
        lemma_count_concat(h + name, " ["@, '(');
        assert(h + name + " ["@ + Seq::<char>::empty() =~= h + name + " ["@);
        lemma_count_concat(h + name + " ["@, "]\n"@, '(');
        lemma_count_concat(h + name + " ["@ + "]\n"@, rb, '(');
        assert(pre =~= (h + name + " ["@) + "]\n"@ + rb);
    }
    assert(count_char(pre, ')') == 0) by {
        let h = "(defn "@;
        lemma_count_zero(h, ')');
        lemma_count_zero(" ["@, ')');
        lemma_count_zero("]\n"@, ')');
        lemma_count_concat(h, name, ')');
        lemma_count_concat(h + name, " ["@, ')');
        assert(h + name + " ["@ + Seq::<char>::empty() =~= h + name + " ["@);
        lemma_count_concat(h + name + " ["@, "]\n"@, ')');
        lemma_count_concat(h + name + " ["@ + "]\n"@, rb, ')');
        assert(pre =~= (h + name + " ["@) + "]\n"@ + rb);
    }
    reveal_strlit(")");
    assert(repeat_char(')', 0) == Seq::<char>::empty());
    assert(repeat_char(')', 1) == repeat_char(')', 0).push(')'));
    assert(repeat_char(')', 1) =~= ")"@);
    assert(emit_node(m) =~= "(defn "@ + name + " []\n"@ + rb + ")\n\n"@) by {
        reveal_strlit(" []\n");
        reveal_strlit(")\n\n");
        reveal_strlit("\n\n");
    }
}

/// How many parentheses a text leaves open: its open-parenthesis count
/// less its close-parenthesis count.
pub open spec fn paren_diff(s: Seq<char>) -> int {
    count_char(s, '(') - count_char(s, ')')
}

/// Whether an optional value's text holds no parenthesis.
pub open spec fn value_paren_free(v: Option<Seq<char>>) -> bool {
    count_char(opt_text(v), '(') == 0 && count_char(opt_text(v), ')') == 0
}

/// Whether no textual value anywhere in the tree holds a parenthesis:
/// under this the emitter's after-the-fact character counting sees
/// exactly the parentheses it wrote itself.
pub open spec fn paren_free(n: NodeModel) -> bool
    decreases n, 1int,
{
    value_paren_free(n.value) && paren_free_nodes(n.children)
}

/// Whether no textual value in any of the nodes holds a parenthesis.
pub open spec fn paren_free_nodes(ns: Seq<NodeModel>) -> bool
    decreases ns, 0int,
{
    if ns.len() == 0 {
        true
    } else {
        paren_free_nodes(ns.subrange(0, ns.len() - 1)) && paren_free(ns[ns.len() - 1])
    }
}

/// Every node of a parenthesis-free sequence is parenthesis-free.
pub proof fn lemma_paren_free_nodes_index(ns: Seq<NodeModel>)
    requires
        paren_free_nodes(ns),
    ensures
        forall|i: int| 0 <= i < ns.len() ==> paren_free(#[trigger] ns[i]),
    decreases ns.len(),
{
    if ns.len() > 0 {
        lemma_paren_free_nodes_index(ns.subrange(0, ns.len() - 1));
        assert forall|i: int| 0 <= i < ns.len() implies paren_free(#[trigger] ns[i]) by {
            if i < ns.len() - 1 {
                assert(ns.subrange(0, ns.len() - 1)[i] == ns[i]);
            }
        }
    }
}

/// A sequence of parenthesis-free nodes is parenthesis-free.
pub proof fn lemma_paren_free_nodes_intro(ns: Seq<NodeModel>)
    requires
        forall|i: int| 0 <= i < ns.len() ==> paren_free(#[trigger] ns[i]),
    ensures
        paren_free_nodes(ns),
    decreases ns.len(),
{
    if ns.len() > 0 {
        let pre = ns.subrange(0, ns.len() - 1);
        assert forall|i: int| 0 <= i < pre.len() implies paren_free(#[trigger] pre[i]) by {
            assert(pre[i] == ns[i]);
        }
        lemma_paren_free_nodes_intro(pre);
    }
}

/// The renderings are as many as the nodes.
proof fn lemma_renders_of_len(ns: Seq<NodeModel>)
    ensures
        renders_of(ns).len() == ns.len(),
    decreases ns.len(),
{
    if ns.len() > 0 {
        lemma_renders_of_len(ns.subrange(0, ns.len() - 1));
    }
}

/// The character counts of the literal pieces the emitter writes.
proof fn lemma_emitter_literal_counts()
    ensures
        count_char("(ns "@, '(') == 1 && count_char("(ns "@, ')') == 0,
        count_char(")\n\n"@, '(') == 0 && count_char(")\n\n"@, ')') == 1,
        count_char("(defn "@, '(') == 1 && count_char("(defn "@, ')') == 0,
        count_char(" ["@, '(') == 0 && count_char(" ["@, ')') == 0,
        count_char("]\n"@, '(') == 0 && count_char("]\n"@, ')') == 0,
        count_char("("@, '(') == 1 && count_char("("@, ')') == 0,
        count_char(")"@, '(') == 0 && count_char(")"@, ')') == 1,
        count_char(" "@, '(') == 0 && count_char(" "@, ')') == 0,
        count_char("(let ["@, '(') == 1 && count_char("(let ["@, ')') == 0,
        count_char("]"@, '(') == 0 && count_char("]"@, ')') == 0,
        count_char("["@, '(') == 0 && count_char("["@, ')') == 0,
        count_char("(if "@, '(') == 1 && count_char("(if "@, ')') == 0,
        count_char("\n"@, '(') == 0 && count_char("\n"@, ')') == 0,
        count_char("(do \n"@, '(') == 1 && count_char("(do \n"@, ')') == 0,
        count_char(";;"@, '(') == 0 && count_char(";;"@, ')') == 0,
        count_char("nil"@, '(') == 0 && count_char("nil"@, ')') == 0,
        count_char("\n  "@, '(') == 0 && count_char("\n  "@, ')') == 0,
        count_char("\n\n"@, '(') == 0 && count_char("\n\n"@, ')') == 0,
{
    reveal_strlit("(ns ");
    reveal_strlit(")\n\n");
    reveal_strlit("(defn ");
    reveal_strlit(" [");
    reveal_strlit("]\n");
    reveal_strlit("(");
    reveal_strlit(")");
    reveal_strlit(" ");
    reveal_strlit("(let [");
    reveal_strlit("]");
    reveal_strlit("[");
    reveal_strlit("(if ");
    reveal_strlit("\n");
    reveal_strlit("(do \n");
    reveal_strlit(";;");
    reveal_strlit("nil");
    reveal_strlit("\n  ");
    reveal_strlit("\n\n");
    lemma_count_one("(ns "@, '(', 0);
    lemma_count_zero("(ns "@, ')');
    lemma_count_zero(")\n\n"@, '(');
    lemma_count_one(")\n\n"@, ')', 0);
    lemma_count_one("(defn "@, '(', 0);
    lemma_count_zero("(defn "@, ')');
    lemma_count_zero(" ["@, '(');
    lemma_count_zero(" ["@, ')');
    lemma_count_zero("]\n"@, '(');
    lemma_count_zero("]\n"@, ')');
    lemma_count_one("("@, '(', 0);
    lemma_count_zero("("@, ')');
    lemma_count_zero(")"@, '(');
    lemma_count_one(")"@, ')', 0);
    lemma_count_zero(" "@, '(');
    lemma_count_zero(" "@, ')');
    lemma_count_one("(let ["@, '(', 0);
    lemma_count_zero("(let ["@, ')');
    lemma_count_zero("]"@, '(');
    lemma_count_zero("]"@, ')');
    lemma_count_zero("["@, '(');
    lemma_count_zero("["@, ')');
    lemma_count_one("(if "@, '(', 0);
    lemma_count_zero("(if "@, ')');
    lemma_count_zero("\n"@, '(');
    lemma_count_zero("\n"@, ')');
    lemma_count_one("(do \n"@, '(', 0);
    lemma_count_zero("(do \n"@, ')');
    lemma_count_zero(";;"@, '(');
    lemma_count_zero(";;"@, ')');
    lemma_count_zero("nil"@, '(');
    lemma_count_zero("nil"@, ')');
    lemma_count_zero("\n  "@, '(');
    lemma_count_zero("\n  "@, ')');
    lemma_count_zero("\n\n"@, '(');
    lemma_count_zero("\n\n"@, ')');
}

/// A text with one occurrence of a character counts it once.
pub proof fn lemma_count_one(s: Seq<char>, c: char, p: int)
    requires
        0 <= p < s.len(),
        s[p] == c,
        forall|i: int| 0 <= i < s.len() && i != p ==> s[i] != c,
    ensures
        count_char(s, c) == 1,
    decreases s.len(),
{
    if s.len() - 1 == p {
        lemma_count_zero(s.subrange(0, s.len() - 1), c);
    } else {
        let pre = s.subrange(0, s.len() - 1);
        assert forall|i: int| 0 <= i < pre.len() && i != p implies #[trigger] pre[i] != c by {
            assert(pre[i] == s[i]);
        }
        assert(pre[p] == s[p]);
        lemma_count_one(pre, c, p);
    }
}

/// A method's rendered text before its padding: the `defn` header, the
/// bracketed argument names and the newline-joined body renderings.
pub open spec fn method_pre_text(n: NodeModel) -> Seq<char> {
    "(defn "@ + opt_text(n.value) + " ["@ + join_texts(arg_texts(n.children), " "@) + "]\n"@
        + join_texts(body_renders(n.children), "\n"@)
}

/// Whenever a method's text before padding closes no more parentheses
/// than it opens, the after-the-fact padding balances the rendering
/// exactly — whatever the texts hold, comments with parentheses
/// included.
pub proof fn lemma_method_padding_balances(n: NodeModel)
    requires
        n.type_ == SyntaxTreeNodeType::Method,
        paren_diff(method_pre_text(n)) >= 0,
    ensures
        paren_diff(emit_node(n)) == 0,
{
    lemma_emitter_literal_counts();
    let pre = method_pre_text(n);
    let d = count_char(pre, '(') - count_char(pre, ')');
    assert(emit_node(n) == pre + repeat_char(')', d) + "\n\n"@);
    lemma_count_repeat(')', d, '(');
    lemma_concat_counts(pre, repeat_char(')', d));
    lemma_concat_counts(pre + repeat_char(')', d), "\n\n"@);
}

/// The space the emitter leaves open, for a parenthesis-free tree: no
/// node's rendering closes more parentheses than it opens; a method's
/// rendering, after its own padding, is exactly balanced; and an `if`
/// branch's rendering leaves exactly one level open for its caller to
/// close.
pub proof fn lemma_paren_balance(n: NodeModel)
    requires
        paren_free(n),
    ensures
        paren_diff(emit_node(n)) >= 0,
        n.type_ == SyntaxTreeNodeType::Method ==> paren_diff(emit_node(n)) == 0,
        n.type_ == SyntaxTreeNodeType::Branch && n.value == Option::Some("if"@) ==> paren_diff(
            emit_node(n),
        ) == 1,
    decreases n, 2int,
{
    lemma_emitter_literal_counts();
    lemma_paren_free_nodes_index(n.children);
    match n.type_ {
        SyntaxTreeNodeType::Namespace => {
            lemma_count_concat("(ns "@, opt_text(n.value), '(');
            lemma_count_concat("(ns "@ + opt_text(n.value), ")\n\n"@, '(');
            lemma_count_concat("(ns "@, opt_text(n.value), ')');
            lemma_count_concat("(ns "@ + opt_text(n.value), ")\n\n"@, ')');
        },
        SyntaxTreeNodeType::Method => {
            let pre = "(defn "@ + opt_text(n.value) + " ["@ + join_texts(
                arg_texts(n.children),
                " "@,
            ) + "]\n"@ + join_texts(body_renders(n.children), "\n"@);
            lemma_args_join_paren_free(n.children);
            lemma_diff_body_renders(n.children);
            lemma_concat_counts("(defn "@, opt_text(n.value));
            lemma_concat_counts("(defn "@ + opt_text(n.value), " ["@);
            lemma_concat_counts(
                "(defn "@ + opt_text(n.value) + " ["@,
                join_texts(arg_texts(n.children), " "@),
            );
            lemma_concat_counts(
                "(defn "@ + opt_text(n.value) + " ["@ + join_texts(arg_texts(n.children), " "@),
                "]\n"@,
            );
            lemma_concat_counts(
                "(defn "@ + opt_text(n.value) + " ["@ + join_texts(arg_texts(n.children), " "@)
                    + "]\n"@,
                join_texts(body_renders(n.children), "\n"@),
            );
            assert(paren_diff(pre) >= 1);
            let d = count_char(pre, '(') - count_char(pre, ')');
            lemma_count_repeat(')', d, '(');
            lemma_concat_counts(pre, repeat_char(')', d));
            lemma_concat_counts(pre + repeat_char(')', d), "\n\n"@);
        },
        SyntaxTreeNodeType::Literal => {},
        SyntaxTreeNodeType::Expression => {
            lemma_diff_expression(n);
        },
        SyntaxTreeNodeType::EqualityCheck => {
            lemma_diff_expression(n);
        },
        SyntaxTreeNodeType::Assignment => {
            if has_assignment(n.children) {
                lemma_diff_let_entries(n.children);
                lemma_concat_counts("(let ["@, join_texts(let_entries(n.children), "\n  "@));
                lemma_concat_counts(
                    "(let ["@ + join_texts(let_entries(n.children), "\n  "@),
                    "]"@,
                );
            } else {
                let mid = if n.children.len() >= 1 {
                    emit_node(n.children[0])
                } else {
                    Seq::<char>::empty()
                };
                if n.children.len() >= 1 {
                    lemma_paren_balance(n.children[0]);
                }
                lemma_concat_counts("(let ["@, opt_text(n.value));
                lemma_concat_counts("(let ["@ + opt_text(n.value), " "@);
                lemma_concat_counts("(let ["@ + opt_text(n.value) + " "@, mid);
                lemma_concat_counts("(let ["@ + opt_text(n.value) + " "@ + mid, "]"@);
            }
        },
        SyntaxTreeNodeType::Branch => {
            lemma_diff_branch(n);
        },
        SyntaxTreeNodeType::Comment => {
            lemma_concat_counts(";;"@, opt_text(n.value));
        },
        SyntaxTreeNodeType::Collection => {
            lemma_diff_renders(n.children, " "@);
            lemma_concat_counts("["@, join_texts(renders_of(n.children), " "@));
            lemma_concat_counts("["@ + join_texts(renders_of(n.children), " "@), "]"@);
        },
        SyntaxTreeNodeType::Class => {},
        SyntaxTreeNodeType::MethodArgument => {},
    }
}

/// Both parenthesis counts distribute over concatenation.
proof fn lemma_concat_counts(a: Seq<char>, b: Seq<char>)
    ensures
        count_char(a + b, '(') == count_char(a, '(') + count_char(b, '('),
        count_char(a + b, ')') == count_char(a, ')') + count_char(b, ')'),
{
    lemma_count_concat(a, b, '(');
    lemma_count_concat(a, b, ')');
}

/// An expression's rendering leaves open what its children leave open.
proof fn lemma_diff_expression(n: NodeModel)
    requires
        paren_free(n),
        n.type_ == SyntaxTreeNodeType::Expression || n.type_ == SyntaxTreeNodeType::EqualityCheck,
    ensures
        paren_diff(emit_expression(n)) >= 0,
    decreases n, 1int,
{
    lemma_emitter_literal_counts();
    lemma_diff_renders(n.children, " "@);
    let j = join_texts(renders_of(n.children), " "@);
    lemma_concat_counts("("@, opt_text(n.value));
    lemma_concat_counts("("@ + opt_text(n.value), " "@);
    lemma_concat_counts("("@ + opt_text(n.value) + " "@, j);
    lemma_concat_counts("("@ + opt_text(n.value) + " "@ + j, ")"@);
}

/// A branch's rendering leaves at least nothing open, and an `if`
/// branch leaves exactly one level open.
proof fn lemma_diff_branch(n: NodeModel)
    requires
        paren_free(n),
        n.type_ == SyntaxTreeNodeType::Branch,
    ensures
        paren_diff(emit_branch(n)) >= 0,
        n.value == Option::Some("if"@) ==> paren_diff(emit_branch(n)) == 1,
    decreases n, 1int,
{
    lemma_emitter_literal_counts();
    lemma_paren_free_nodes_index(n.children);
    let is_if = n.value == Option::Some("if"@);
    let offset: int = if is_if {
        1
    } else {
        0
    };
    let head = if is_if {
        "(if "@ + (if n.children.len() >= 1 {
            emit_node(n.children[0])
        } else {
            Seq::<char>::empty()
        }) + "\n"@
    } else {
        Seq::<char>::empty()
    };
    if is_if {
        let mid = if n.children.len() >= 1 {
            emit_node(n.children[0])
        } else {
            Seq::<char>::empty()
        };
        if n.children.len() >= 1 {
            lemma_paren_balance(n.children[0]);
        }
        lemma_concat_counts("(if "@, mid);
        lemma_concat_counts("(if "@ + mid, "\n"@);
        assert(paren_diff(head) >= 1);
    }
    let body = if n.children.len() == offset + 1 {
        emit_node(n.children[offset])
    } else if is_if {
        if n.children.len() >= 1 {
            "(do \n"@ + join_texts(
                renders_of(n.children.subrange(1, n.children.len() as int)),
                "\n"@,
            ) + ")"@
        } else {
            "(do \n"@ + ")"@
        }
    } else {
        "(do \n"@ + join_texts(renders_of(n.children), "\n"@) + ")"@
    };
    if n.children.len() == offset + 1 {
        lemma_paren_balance(n.children[offset]);
    } else if is_if {
        if n.children.len() >= 1 {
            let rest = n.children.subrange(1, n.children.len() as int);
            assert forall|i: int| 0 <= i < rest.len() implies paren_free(#[trigger] rest[i]) by {
                assert(rest[i] == n.children[1 + i]);
            }
            lemma_paren_free_nodes_intro(rest);
            lemma_diff_renders(rest, "\n"@);
            lemma_concat_counts("(do \n"@, join_texts(renders_of(rest), "\n"@));
            lemma_concat_counts("(do \n"@ + join_texts(renders_of(rest), "\n"@), ")"@);
        } else {
            lemma_concat_counts("(do \n"@, ")"@);
        }
    } else {
        lemma_diff_renders(n.children, "\n"@);
        lemma_concat_counts("(do \n"@, join_texts(renders_of(n.children), "\n"@));
        lemma_concat_counts("(do \n"@ + join_texts(renders_of(n.children), "\n"@), ")"@);
    }
    assert(paren_diff(body) >= 0);
    let out = head + body;
    lemma_concat_counts(head, body);
    let d = count_char(out, '(') - count_char(out, ')');
    lemma_count_repeat(')', d - 1, '(');
    lemma_concat_counts(out, repeat_char(')', d - 1));
}

/// Joined renderings of parenthesis-free nodes leave at least nothing
/// open, for a parenthesis-free separator.
proof fn lemma_diff_renders(ns: Seq<NodeModel>, sep: Seq<char>)
    requires
        paren_free_nodes(ns),
        count_char(sep, '(') == 0,
        count_char(sep, ')') == 0,
    ensures
        paren_diff(join_texts(renders_of(ns), sep)) >= 0,
    decreases ns, 0int,
{
    lemma_renders_of_len(ns);
    if ns.len() == 0 {
    } else if ns.len() == 1 {
        assert(renders_of(ns)[0] == emit_node(ns[0]));
        lemma_paren_free_nodes_index(ns);
        lemma_paren_balance(ns[0]);
        assert(join_texts(renders_of(ns), sep) == emit_node(ns[0]));
    } else {
        let pre = ns.subrange(0, ns.len() - 1);
        lemma_diff_renders(pre, sep);
        lemma_paren_free_nodes_index(ns);
        lemma_paren_balance(ns[ns.len() - 1]);
        let rs = renders_of(ns);
        assert(rs.subrange(0, rs.len() - 1) =~= renders_of(pre)) by {
            lemma_renders_of_len(pre);
        }
        assert(rs[rs.len() - 1] == emit_node(ns[ns.len() - 1]));
        lemma_concat_counts(join_texts(renders_of(pre), sep), sep);
        lemma_concat_counts(join_texts(renders_of(pre), sep) + sep, emit_node(ns[ns.len() - 1]));
    }
}

/// Joined renderings of the non-argument children leave at least
/// nothing open.
proof fn lemma_diff_body_renders(ns: Seq<NodeModel>)
    requires
        paren_free_nodes(ns),
    ensures
        paren_diff(join_texts(body_renders(ns), "\n"@)) >= 0,
    decreases ns, 0int,
{
    lemma_emitter_literal_counts();
    if ns.len() == 0 {
    } else {
        let pre = ns.subrange(0, ns.len() - 1);
        lemma_diff_body_renders(pre);
        lemma_paren_free_nodes_index(ns);
        if ns[ns.len() - 1].type_ == SyntaxTreeNodeType::MethodArgument {
        } else {
            lemma_paren_balance(ns[ns.len() - 1]);
            let rs = body_renders(ns);
            assert(rs == body_renders(pre).push(emit_node(ns[ns.len() - 1])));
            assert(rs.subrange(0, rs.len() - 1) =~= body_renders(pre));
            assert(rs[rs.len() - 1] == emit_node(ns[ns.len() - 1]));
            if body_renders(pre).len() == 0 {
                assert(join_texts(rs, "\n"@) == emit_node(ns[ns.len() - 1]));
            } else {
                lemma_concat_counts(join_texts(body_renders(pre), "\n"@), "\n"@);
                lemma_concat_counts(
                    join_texts(body_renders(pre), "\n"@) + "\n"@,
                    emit_node(ns[ns.len() - 1]),
                );
            }
        }
    }
}

/// Joined entries of a grouped assignment leave at least nothing open.
proof fn lemma_diff_let_entries(ns: Seq<NodeModel>)
    requires
        paren_free_nodes(ns),
    ensures
        paren_diff(join_texts(let_entries(ns), "\n  "@)) >= 0,
    decreases ns, 0int,
{
    lemma_emitter_literal_counts();
    if ns.len() == 0 {
    } else {
        let pre = ns.subrange(0, ns.len() - 1);
        lemma_diff_let_entries(pre);
        lemma_paren_free_nodes_index(ns);
        let c = ns[ns.len() - 1];
        let mid = if c.children.len() >= 1 {
            emit_node(c.children[0])
        } else {
            Seq::<char>::empty()
        };
        if c.children.len() >= 1 {
            lemma_paren_free_nodes_index(c.children);
            lemma_paren_balance(c.children[0]);
        }
        let entry = opt_text(c.value) + " "@ + mid;
        lemma_concat_counts(opt_text(c.value), " "@);
        lemma_concat_counts(opt_text(c.value) + " "@, mid);
        assert(paren_diff(entry) >= 0);
        let rs = let_entries(ns);
        assert(rs == let_entries(pre).push(entry));
        assert(rs.subrange(0, rs.len() - 1) =~= let_entries(pre));
        assert(rs[rs.len() - 1] == entry);
        if let_entries(pre).len() == 0 {
            assert(join_texts(rs, "\n  "@) == entry);
        } else {
            lemma_concat_counts(join_texts(let_entries(pre), "\n  "@), "\n  "@);
            lemma_concat_counts(join_texts(let_entries(pre), "\n  "@) + "\n  "@, entry);
        }
    }
}

/// The joined argument texts of parenthesis-free nodes hold no
/// parenthesis.
proof fn lemma_args_join_paren_free(ns: Seq<NodeModel>)
    requires
        paren_free_nodes(ns),
    ensures
        count_char(join_texts(arg_texts(ns), " "@), '(') == 0,
        count_char(join_texts(arg_texts(ns), " "@), ')') == 0,
    decreases ns.len(),
{
    lemma_emitter_literal_counts();
    if ns.len() == 0 {
    } else {
        let pre = ns.subrange(0, ns.len() - 1);
        lemma_args_join_paren_free(pre);
        lemma_paren_free_nodes_index(ns);
        let c = ns[ns.len() - 1];
        if c.type_ == SyntaxTreeNodeType::MethodArgument {
            let rs = arg_texts(ns);
            assert(rs == arg_texts(pre).push(opt_text(c.value)));
            assert(rs.subrange(0, rs.len() - 1) =~= arg_texts(pre));
            assert(rs[rs.len() - 1] == opt_text(c.value));
            if arg_texts(pre).len() == 0 {
                assert(join_texts(rs, " "@) == opt_text(c.value));
            } else {
                lemma_concat_counts(join_texts(arg_texts(pre), " "@), " "@);
                lemma_concat_counts(join_texts(arg_texts(pre), " "@) + " "@, opt_text(c.value));
            }
        }
    }
}

/// The texts of a sequence of strings, in order.
pub open spec fn strings_view(ss: Seq<String>) -> Seq<Seq<char>> {
    ss.map(|i: int, s: String| s@)
}

/// The text an optional string carries, or nothing.
pub open spec fn opt_string_text(v: Option<String>) -> Seq<char> {
    match v {
        Option::Some(s) => s@,
        Option::None => Seq::empty(),
    }
}

/// Appends the text a node value carries, if any.
fn append_value(out: &mut String, v: &Option<String>)
    ensures
        final(out)@ == old(out)@ + opt_string_text(*v),
{
    match v {
        Option::Some(s) => {
            vstd::string::StringExecFns::append(out, s.as_str());
        },
        Option::None => {
            proof {
                assert(old(out)@ + Seq::<char>::empty() =~= old(out)@);
            }
        },
    }
}

/// How many times `c` occurs in the string.
fn count_in_string(s: &String, c: char) -> (r: usize)
    ensures
        r as int == count_char(s@, c),
{
    let v = str_to_chars(s.as_str());
    let mut r: usize = 0;
    let mut i: usize = 0;
    while i < v.len()
        invariant
            i <= v@.len(),
            v@ == s@,
            r <= i,
            r as int == count_char(s@.subrange(0, i as int), c),
        decreases v@.len() - i,
    {
        proof {
            assert(s@.subrange(0, i + 1).subrange(0, i as int) =~= s@.subrange(0, i as int));
            assert(s@.subrange(0, i + 1)[i as int] == s@[i as int]);
        }
        if v[i] == c {
            r += 1;
        }
        i += 1;
    }
    proof {
        assert(s@.subrange(0, s@.len() as int) =~= s@);
    }
    r
}

/// `)` repeated `k` times.
fn repeat_close(k: usize) -> (r: String)
    ensures
        r@ == repeat_char(')', k as int),
{
    proof {
        reveal_strlit(")");
    }
    let mut out = String::new();
    let mut i: usize = 0;
    while i < k
        invariant
            i <= k,
            out@ == repeat_char(')', i as int),
        decreases k - i,
    {
        proof {
            reveal_strlit(")");
            assert(out@ + ")"@ =~= repeat_char(')', i as int).push(')'));
        }
        vstd::string::StringExecFns::append(&mut out, ")");
        i += 1;
    }
    out
}

/// The pieces joined with `sep` between neighbours.
fn join_strings(parts: &Vec<String>, sep: &str) -> (r: String)
    ensures
        r@ == join_texts(strings_view(parts@), sep@),
{
    let ghost sv = strings_view(parts@);
    if parts.len() == 0 {
        return String::new();
    }
    let mut out = parts[0].clone();
    proof {
        assert(sv[0] == parts@[0]@);
        assert(sv.subrange(0, 1) =~= seq![sv[0]]);
    }
    let mut k: usize = 1;
    while k < parts.len()
        invariant
            1 <= k <= parts@.len(),
            sv == strings_view(parts@),
            sv.len() == parts@.len(),
            out@ == join_texts(sv.subrange(0, k as int), sep@),
        decreases parts@.len() - k,
    {
        proof {
            assert(sv.subrange(0, k + 1).subrange(0, k as int) =~= sv.subrange(0, k as int));
            assert(sv.subrange(0, k + 1)[k as int] == sv[k as int]);
            assert(sv[k as int] == parts@[k as int]@);
        }
        vstd::string::StringExecFns::append(&mut out, sep);
        vstd::string::StringExecFns::append(&mut out, parts[k].as_str());
        k += 1;
    }
    proof {
        assert(sv.subrange(0, sv.len() as int) =~= sv);
    }
    out
}

/// The renderings of the nodes from `from` on, in order.
fn children_renders_from(children: &Vec<SyntaxTreeNode>, from: usize) -> (r: Vec<String>)
    requires
        from <= children@.len(),
        renderable_nodes(nodes_view(children@)),
    ensures
        strings_view(r@) == renders_of(
            nodes_view(children@).subrange(from as int, children@.len() as int),
        ),
    decreases *children, 0int,
{
    let ghost nv = nodes_view(children@);
    proof {
        lemma_nodes_view_index(children@);
    }
    let mut out: Vec<String> = Vec::new();
    let mut k: usize = from;
    while k < children.len()
        invariant
            from <= k <= children@.len(),
            nv == nodes_view(children@),
            nv.len() == children@.len(),
            renderable_nodes(nv),
            forall|l: int| 0 <= l < nv.len() ==> nv[l] == #[trigger] children@[l]@,
            strings_view(out@) == renders_of(nv.subrange(from as int, k as int)),
        decreases children@.len() - k,
    {
        proof {
            lemma_renderable_nodes_index(nv);
            assert(renderable(children@[k as int]@));
        }
        let s = convert_abstract_syntax_tree_to_code(&children[k]);
        proof {
            let sub1 = nv.subrange(from as int, k + 1);
            assert(sub1.subrange(0, sub1.len() - 1) =~= nv.subrange(from as int, k as int));
            assert(sub1[sub1.len() - 1] == nv[k as int]);
            assert(nv[k as int] == children@[k as int]@);
        }
        out.push(s);
        proof {
            assert(strings_view(out@) =~= strings_view(out@.subrange(0, out@.len() - 1)).push(
                out@[out@.len() - 1]@,
            ));
            assert(out@.subrange(0, out@.len() - 1) =~= out@.drop_last());
        }
        k += 1;
    }
    out
}

/// The texts of the method-argument children, in order.
fn collect_arg_texts(children: &Vec<SyntaxTreeNode>) -> (r: Vec<String>)
    ensures
        strings_view(r@) == arg_texts(nodes_view(children@)),
{
    let ghost nv = nodes_view(children@);
    proof {
        lemma_nodes_view_index(children@);
    }
    let mut out: Vec<String> = Vec::new();
    let mut k: usize = 0;
    while k < children.len()
        invariant
            k <= children@.len(),
            nv == nodes_view(children@),
            nv.len() == children@.len(),
            forall|l: int| 0 <= l < nv.len() ==> nv[l] == #[trigger] children@[l]@,
            strings_view(out@) == arg_texts(nv.subrange(0, k as int)),
        decreases children@.len() - k,
    {
        proof {
            let sub1 = nv.subrange(0, k + 1);
            assert(sub1.subrange(0, sub1.len() - 1) =~= nv.subrange(0, k as int));
            assert(sub1[sub1.len() - 1] == nv[k as int]);
            assert(nv[k as int] == children@[k as int]@);
        }
        if children[k].type_ == SyntaxTreeNodeType::MethodArgument {
            let text: String = match &children[k].value {
                Option::Some(s) => s.clone(),
                Option::None => String::new(),
            };
            out.push(text);
            proof {
                assert(strings_view(out@) =~= strings_view(out@.subrange(0, out@.len() - 1)).push(
                    out@[out@.len() - 1]@,
                ));
            }
        }
        k += 1;
    }
    proof {
        assert(nv.subrange(0, nv.len() as int) =~= nv);
    }
    out
}

/// The renderings of the non-argument children, in order.
fn collect_body_renders(children: &Vec<SyntaxTreeNode>) -> (r: Vec<String>)
    requires
        method_children_ok(nodes_view(children@)),
    ensures
        strings_view(r@) == body_renders(nodes_view(children@)),
    decreases *children, 0int,
{
    let ghost nv = nodes_view(children@);
    proof {
        lemma_nodes_view_index(children@);
    }
    let mut out: Vec<String> = Vec::new();
    let mut k: usize = 0;
    while k < children.len()
        invariant
            k <= children@.len(),
            nv == nodes_view(children@),
            nv.len() == children@.len(),
            method_children_ok(nv),
            forall|l: int| 0 <= l < nv.len() ==> nv[l] == #[trigger] children@[l]@,
            strings_view(out@) == body_renders(nv.subrange(0, k as int)),
        decreases children@.len() - k,
    {
        proof {
            let sub1 = nv.subrange(0, k + 1);
            assert(sub1.subrange(0, sub1.len() - 1) =~= nv.subrange(0, k as int));
            assert(sub1[sub1.len() - 1] == nv[k as int]);
            assert(nv[k as int] == children@[k as int]@);
        }
        if !(children[k].type_ == SyntaxTreeNodeType::MethodArgument) {
            proof {
                lemma_method_children_ok_index(nv);
                assert(renderable(children@[k as int]@));
            }
            let s = convert_abstract_syntax_tree_to_code(&children[k]);
            out.push(s);
            proof {
                assert(strings_view(out@) =~= strings_view(out@.subrange(0, out@.len() - 1)).push(
                    out@[out@.len() - 1]@,
                ));
            }
        }
        k += 1;
    }
    proof {
        assert(nv.subrange(0, nv.len() as int) =~= nv);
    }
    out
}

/// The `name rendering-of-first-child` entries of a grouped assignment.
fn collect_let_entries(children: &Vec<SyntaxTreeNode>) -> (r: Vec<String>)
    requires
        grouped_children_ok(nodes_view(children@)),
    ensures
        strings_view(r@) == let_entries(nodes_view(children@)),
    decreases *children, 0int,
{
    let ghost nv = nodes_view(children@);
    proof {
        lemma_nodes_view_index(children@);
    }
    let mut out: Vec<String> = Vec::new();
    let mut k: usize = 0;
    while k < children.len()
        invariant
            k <= children@.len(),
            nv == nodes_view(children@),
            nv.len() == children@.len(),
            grouped_children_ok(nv),
            forall|l: int| 0 <= l < nv.len() ==> nv[l] == #[trigger] children@[l]@,
            strings_view(out@) == let_entries(nv.subrange(0, k as int)),
        decreases children@.len() - k,
    {
        proof {
            let sub1 = nv.subrange(0, k + 1);
            assert(sub1.subrange(0, sub1.len() - 1) =~= nv.subrange(0, k as int));
            assert(sub1[sub1.len() - 1] == nv[k as int]);
            assert(nv[k as int] == children@[k as int]@);
        }
        let c = &children[k];
        proof {
            assert(nv[k as int].children == nodes_view(c.children@));
        }
        let mut entry = String::new();
        append_value(&mut entry, &c.value);
        vstd::string::StringExecFns::append(&mut entry, " ");
        if c.children.len() >= 1 {
            proof {
                lemma_grouped_children_ok_index(nv);
                lemma_nodes_view_index(c.children@);
                assert(nv[k as int].children[0] == c.children@[0]@);
                assert(renderable(c.children@[0]@));
            }
            let s = convert_abstract_syntax_tree_to_code(&c.children[0]);
            vstd::string::StringExecFns::append(&mut entry, s.as_str());
        } else {
            proof {
                assert(entry@ + Seq::<char>::empty() =~= entry@);
            }
        }
        proof {
            assert(opt_string_text(c.value) == opt_text(nv[k as int].value));
            assert(entry@ =~= opt_text(nv[k as int].value) + " "@ + (if nv[k as int].children.len()
                >= 1 {
                emit_node(nv[k as int].children[0])
            } else {
                Seq::<char>::empty()
            }));
        }
        out.push(entry);
        proof {
            assert(strings_view(out@) =~= strings_view(out@.subrange(0, out@.len() - 1)).push(
                out@[out@.len() - 1]@,
            ));
        }
        k += 1;
    }
    proof {
        assert(nv.subrange(0, nv.len() as int) =~= nv);
    }
    out
}

/// Whether some node of the vector is an assignment.
fn any_assignment(children: &Vec<SyntaxTreeNode>) -> (r: bool)
    ensures
        r == has_assignment(nodes_view(children@)),
{
    let ghost nv = nodes_view(children@);
    proof {
        lemma_nodes_view_index(children@);
    }
    let mut k: usize = 0;
    while k < children.len()
        invariant
            k <= children@.len(),
            nv == nodes_view(children@),
            nv.len() == children@.len(),
            forall|l: int| 0 <= l < nv.len() ==> nv[l] == #[trigger] children@[l]@,
            forall|l: int| 0 <= l < k ==> nv[l].type_ != SyntaxTreeNodeType::Assignment,
        decreases children@.len() - k,
    {
        proof {
            assert(nv[k as int] == children@[k as int]@);
        }
        if children[k].type_ == SyntaxTreeNodeType::Assignment {
            return true;
        }
        k += 1;
    }
    false
}

/// Renders a namespace node alone: its header line and a blank line.
pub fn convert_namespace_syntax_tree_node_to_code(syntax_tree_node: &SyntaxTreeNode) -> (r: String)
    requires
        syntax_tree_node@.value is Some,
    ensures
        r@ == emit_namespace(syntax_tree_node@),
{
    let mut out = String::new();
    vstd::string::StringExecFns::append(&mut out, "(ns ");
    append_value(&mut out, &syntax_tree_node.value);
    vstd::string::StringExecFns::append(&mut out, ")\n\n");
    proof {
        assert(Seq::<char>::empty() + "(ns "@ =~= "(ns "@);
    }
    out
}

/// Renders a literal node: its text verbatim, with `null` mapped to the
/// target's `nil`.
pub fn convert_literal_syntax_tree_node_to_code(syntax_tree_node: &SyntaxTreeNode) -> (r: String)
    requires
        syntax_tree_node@.value is Some,
    ensures
        r@ == emit_literal(syntax_tree_node@),
{
    match &syntax_tree_node.value {
        Option::Some(s) => {
            if string_is(s, "null") {
                <String as vstd::string::StringExecFns>::from_str("nil")
            } else {
                s.clone()
            }
        },
        Option::None => String::new(),
    }
}

/// Renders a comment node: `;;` and the comment's text.
pub fn convert_comment_syntax_tree_node_to_code(syntax_tree_node: &SyntaxTreeNode) -> (r: String)
    requires
        syntax_tree_node@.value is Some,
    ensures
        r@ == emit_comment(syntax_tree_node@),
{
    let mut out = String::new();
    vstd::string::StringExecFns::append(&mut out, ";;");
    append_value(&mut out, &syntax_tree_node.value);
    proof {
        assert(Seq::<char>::empty() + ";;"@ =~= ";;"@);
    }
    out
}

/// Renders an expression or equality-check node: its value and the
/// space-joined child renderings, in parentheses.
pub fn convert_expression_syntax_tree_node_to_code(syntax_tree_node: &SyntaxTreeNode) -> (r:
    String)
    requires
        syntax_tree_node@.value is Some,
        renderable_nodes(syntax_tree_node@.children),
    ensures
        r@ == emit_expression(syntax_tree_node@),
    decreases *syntax_tree_node, 1int,
{
    let ghost nv = nodes_view(syntax_tree_node.children@);
    proof {
        lemma_nodes_view_index(syntax_tree_node.children@);
        assert(syntax_tree_node@.children == nv);
    }
    let mut out = String::new();
    vstd::string::StringExecFns::append(&mut out, "(");
    append_value(&mut out, &syntax_tree_node.value);
    vstd::string::StringExecFns::append(&mut out, " ");
    let renders = children_renders_from(&syntax_tree_node.children, 0);
    let joined = join_strings(&renders, " ");
    vstd::string::StringExecFns::append(&mut out, joined.as_str());
    vstd::string::StringExecFns::append(&mut out, ")");
    proof {
        assert(nv.subrange(0, nv.len() as int) =~= nv);
        assert(syntax_tree_node@.children == nv);
        assert(opt_string_text(syntax_tree_node.value) == opt_text(syntax_tree_node@.value));
        assert(out@ =~= emit_expression(syntax_tree_node@));
    }
    out
}

/// Renders a collection node: the space-joined child renderings in
/// brackets.
pub fn convert_collection_syntax_tree_node_to_code(syntax_tree_node: &SyntaxTreeNode) -> (r:
    String)
    requires
        renderable_nodes(syntax_tree_node@.children),
    ensures
        r@ == emit_collection(syntax_tree_node@),
    decreases *syntax_tree_node, 1int,
{
    let ghost nv = nodes_view(syntax_tree_node.children@);
    proof {
        lemma_nodes_view_index(syntax_tree_node.children@);
        assert(syntax_tree_node@.children == nv);
    }
    let mut out = String::new();
    vstd::string::StringExecFns::append(&mut out, "[");
    let renders = children_renders_from(&syntax_tree_node.children, 0);
    let joined = join_strings(&renders, " ");
    vstd::string::StringExecFns::append(&mut out, joined.as_str());
    vstd::string::StringExecFns::append(&mut out, "]");
    proof {
        assert(nv.subrange(0, nv.len() as int) =~= nv);
        assert(syntax_tree_node@.children == nv);
        assert(out@ =~= emit_collection(syntax_tree_node@));
    }
    out
}

/// Renders an assignment node: a `let` opening with the grouped
/// children's entries or the single binding pair; the closing
/// parenthesis is the consumer's.
pub fn convert_assignment_syntax_tree_node_to_code(syntax_tree_node: &SyntaxTreeNode) -> (r:
    String)
    requires
        has_assignment(syntax_tree_node@.children) ==> grouped_children_ok(
            syntax_tree_node@.children,
        ),
        !has_assignment(syntax_tree_node@.children) ==> syntax_tree_node@.value is Some
            && syntax_tree_node@.children.len() >= 1 && renderable(syntax_tree_node@.children[0]),
    ensures
        r@ == emit_assignment(syntax_tree_node@),
    decreases *syntax_tree_node, 1int,
{
    let ghost nv = nodes_view(syntax_tree_node.children@);
    proof {
        lemma_nodes_view_index(syntax_tree_node.children@);
        assert(syntax_tree_node@.children == nv);
    }
    let mut out = String::new();
    vstd::string::StringExecFns::append(&mut out, "(let [");
    proof {
        assert(Seq::<char>::empty() + "(let ["@ =~= "(let ["@);
    }
    if any_assignment(&syntax_tree_node.children) {
        let entries = collect_let_entries(&syntax_tree_node.children);
        let joined = join_strings(&entries, "\n  ");
        vstd::string::StringExecFns::append(&mut out, joined.as_str());
        vstd::string::StringExecFns::append(&mut out, "]");
        proof {
            assert(out@ =~= emit_assignment(syntax_tree_node@));
        }
        out
    } else {
        append_value(&mut out, &syntax_tree_node.value);
        vstd::string::StringExecFns::append(&mut out, " ");
        if syntax_tree_node.children.len() >= 1 {
            proof {
                assert(nv[0] == syntax_tree_node.children@[0]@);
                assert(renderable(syntax_tree_node.children@[0]@));
            }
            let s = convert_abstract_syntax_tree_to_code(&syntax_tree_node.children[0]);
            vstd::string::StringExecFns::append(&mut out, s.as_str());
        } else {
            proof {
                assert(out@ + Seq::<char>::empty() =~= out@);
            }
        }
        vstd::string::StringExecFns::append(&mut out, "]");
        proof {
            assert(opt_string_text(syntax_tree_node.value) == opt_text(syntax_tree_node@.value));
            assert(out@ =~= emit_assignment(syntax_tree_node@));
        }
        out
    }
}

/// Renders a method node: the `defn` header, the bracketed argument
/// names, the newline-joined body, the balancing parentheses and a
/// blank line.
pub fn convert_method_syntax_tree_node_to_code(syntax_tree_node: &SyntaxTreeNode) -> (r: String)
    requires
        syntax_tree_node@.value is Some,
        method_children_ok(syntax_tree_node@.children),
    ensures
        r@ == emit_method(syntax_tree_node@),
    decreases *syntax_tree_node, 1int,
{
    proof {
        assert(syntax_tree_node@.children == nodes_view(syntax_tree_node.children@));
    }
    let mut out = String::new();
    vstd::string::StringExecFns::append(&mut out, "(defn ");
    append_value(&mut out, &syntax_tree_node.value);
    vstd::string::StringExecFns::append(&mut out, " [");
    let args = collect_arg_texts(&syntax_tree_node.children);
    let args_joined = join_strings(&args, " ");
    vstd::string::StringExecFns::append(&mut out, args_joined.as_str());
    vstd::string::StringExecFns::append(&mut out, "]\n");
    let body = collect_body_renders(&syntax_tree_node.children);
    let body_joined = join_strings(&body, "\n");
    vstd::string::StringExecFns::append(&mut out, body_joined.as_str());
    proof {
        assert(Seq::<char>::empty() + "(defn "@ =~= "(defn "@);
    }
    let opens = count_in_string(&out, '(');
    let closes = count_in_string(&out, ')');
    if opens > closes {
        let pad = repeat_close(opens - closes);
        vstd::string::StringExecFns::append(&mut out, pad.as_str());
    } else {
        proof {
            assert(out@ + repeat_char(')', opens - closes) =~= out@);
        }
    }
    vstd::string::StringExecFns::append(&mut out, "\n\n");
    out
}

/// Renders a branch node: the `if` head with its condition, the single
/// body rendering or a `do` block, and closing parentheses up to one
/// level short of balance.
#[verifier::rlimit(60)]
pub fn convert_branch_syntax_tree_node_to_code(syntax_tree_node: &SyntaxTreeNode) -> (r: String)
    requires
        syntax_tree_node@.value is Some,
        syntax_tree_node@.value == Option::Some("if"@) ==> syntax_tree_node@.children.len() >= 1,
        renderable_nodes(syntax_tree_node@.children),
    ensures
        r@ == emit_branch(syntax_tree_node@),
    decreases *syntax_tree_node, 1int,
{
    let ghost nv = nodes_view(syntax_tree_node.children@);
    proof {
        lemma_nodes_view_index(syntax_tree_node.children@);
    }
    let ghost nm = syntax_tree_node@;
    let n_children = syntax_tree_node.children.len();
    let is_if = match &syntax_tree_node.value {
        Option::Some(v) => string_is(v, "if"),
        Option::None => false,
    };
    proof {
        assert(nm.children == nv);
        assert(is_if == (nm.value == Option::Some("if"@)));
        lemma_renderable_nodes_index(nv);
    }
    let offset: usize = if is_if {
        1
    } else {
        0
    };
    let ghost head_spec: Seq<char> = if is_if {
        "(if "@ + (if nm.children.len() >= 1 {
            emit_node(nm.children[0])
        } else {
            Seq::<char>::empty()
        }) + "\n"@
    } else {
        Seq::<char>::empty()
    };
    let mut out = String::new();
    if is_if {
        vstd::string::StringExecFns::append(&mut out, "(if ");
        if n_children >= 1 {
            proof {
                assert(nv[0] == syntax_tree_node.children@[0]@);
                assert(renderable(syntax_tree_node.children@[0]@));
            }
            let cond = convert_abstract_syntax_tree_to_code(&syntax_tree_node.children[0]);
            vstd::string::StringExecFns::append(&mut out, cond.as_str());
        }
        vstd::string::StringExecFns::append(&mut out, "\n");
        proof {
            assert(out@ =~= head_spec);
        }
    }
    proof {
        assert(out@ =~= head_spec);
    }
    let ghost body_spec: Seq<char> = if nm.children.len() == offset + 1 {
        emit_node(nm.children[offset as int])
    } else if is_if {
        if nm.children.len() >= 1 {
            "(do \n"@ + join_texts(
                renders_of(nm.children.subrange(1, nm.children.len() as int)),
                "\n"@,
            ) + ")"@
        } else {
            "(do \n"@ + ")"@
        }
    } else {
        "(do \n"@ + join_texts(renders_of(nm.children), "\n"@) + ")"@
    };
    if n_children == offset + 1 {
        proof {
            assert(nv[offset as int] == syntax_tree_node.children@[offset as int]@);
            assert(renderable(syntax_tree_node.children@[offset as int]@));
        }
        let s = convert_abstract_syntax_tree_to_code(&syntax_tree_node.children[offset]);
        vstd::string::StringExecFns::append(&mut out, s.as_str());
        proof {
            assert(out@ =~= head_spec + body_spec);
        }
    } else if is_if {
        vstd::string::StringExecFns::append(&mut out, "(do \n");
        if n_children >= 1 {
            let renders = children_renders_from(&syntax_tree_node.children, 1);
            let joined = join_strings(&renders, "\n");
            vstd::string::StringExecFns::append(&mut out, joined.as_str());
        }
        vstd::string::StringExecFns::append(&mut out, ")");
        proof {
            assert(out@ =~= head_spec + body_spec);
        }
    } else {
        vstd::string::StringExecFns::append(&mut out, "(do \n");
        let renders = children_renders_from(&syntax_tree_node.children, 0);
        let joined = join_strings(&renders, "\n");
        vstd::string::StringExecFns::append(&mut out, joined.as_str());
        vstd::string::StringExecFns::append(&mut out, ")");
        proof {
            assert(nv.subrange(0, nv.len() as int) =~= nv);
            assert(out@ =~= head_spec + body_spec);
        }
    }
    proof {
        assert(out@ =~= head_spec + body_spec);
        assert(emit_branch(nm) == (head_spec + body_spec) + repeat_char(
            ')',
            count_char(head_spec + body_spec, '(') - count_char(head_spec + body_spec, ')') - 1,
        ));
    }
    let opens = count_in_string(&out, '(');
    let closes = count_in_string(&out, ')');
    if opens > closes {
        let pad = repeat_close(opens - closes - 1);
        vstd::string::StringExecFns::append(&mut out, pad.as_str());
    } else {
        proof {
            assert(out@ + repeat_char(')', opens - closes - 1) =~= out@);
        }
    }
    out
}

/// Renders one node by its kind. The node must be renderable: a kind
/// the emitter does not support is a contract violation, not a
/// recoverable failure.
pub fn convert_abstract_syntax_tree_to_code(syntax_tree_node: &SyntaxTreeNode) -> (r: String)
    requires
        renderable(syntax_tree_node@),
    ensures
        r@ == emit_node(syntax_tree_node@),
    decreases *syntax_tree_node, 2int,
{
    match syntax_tree_node.type_ {
        SyntaxTreeNodeType::Namespace => convert_namespace_syntax_tree_node_to_code(
            syntax_tree_node,
        ),
        SyntaxTreeNodeType::Method => convert_method_syntax_tree_node_to_code(syntax_tree_node),
        SyntaxTreeNodeType::Literal => convert_literal_syntax_tree_node_to_code(syntax_tree_node),
        SyntaxTreeNodeType::Expression => convert_expression_syntax_tree_node_to_code(
            syntax_tree_node,
        ),
        SyntaxTreeNodeType::Assignment => convert_assignment_syntax_tree_node_to_code(
            syntax_tree_node,
        ),
        SyntaxTreeNodeType::EqualityCheck => convert_expression_syntax_tree_node_to_code(
            syntax_tree_node,
        ),
        SyntaxTreeNodeType::Branch => convert_branch_syntax_tree_node_to_code(syntax_tree_node),
        SyntaxTreeNodeType::Comment => convert_comment_syntax_tree_node_to_code(syntax_tree_node),
        SyntaxTreeNodeType::Collection => convert_collection_syntax_tree_node_to_code(
            syntax_tree_node,
        ),
        SyntaxTreeNodeType::Class => String::new(),
        SyntaxTreeNodeType::MethodArgument => String::new(),
    }
}

/// Decides `renderable`.
pub fn is_renderable(syntax_tree_node: &SyntaxTreeNode) -> (r: bool)
    ensures
        r == renderable(syntax_tree_node@),
    decreases *syntax_tree_node, 1int,
{
    let n = syntax_tree_node;
    proof {
        lemma_nodes_view_index(n.children@);
        assert(n@.children == nodes_view(n.children@));
    }
    match n.type_ {
        SyntaxTreeNodeType::Namespace => n.value.is_some() && nodes_renderable(&n.children),
        SyntaxTreeNodeType::Class => false,
        SyntaxTreeNodeType::MethodArgument => false,
        SyntaxTreeNodeType::Method => n.value.is_some() && method_children_renderable(&n.children),
        SyntaxTreeNodeType::Literal => n.value.is_some(),
        SyntaxTreeNodeType::Expression => n.value.is_some() && nodes_renderable(&n.children),
        SyntaxTreeNodeType::EqualityCheck => n.value.is_some() && nodes_renderable(&n.children),
        SyntaxTreeNodeType::Assignment => {
            if any_assignment(&n.children) {
                grouped_children_renderable(&n.children)
            } else {
                n.value.is_some() && n.children.len() >= 1 && is_renderable(&n.children[0])
            }
        },
        SyntaxTreeNodeType::Branch => {
            let is_if = match &n.value {
                Option::Some(v) => string_is(v, "if"),
                Option::None => false,
            };
            n.value.is_some() && (!is_if || n.children.len() >= 1) && nodes_renderable(&n.children)
        },
        SyntaxTreeNodeType::Comment => n.value.is_some(),
        SyntaxTreeNodeType::Collection => nodes_renderable(&n.children),
    }
}

/// Decides `renderable_nodes`.
pub fn nodes_renderable(children: &Vec<SyntaxTreeNode>) -> (r: bool)
    ensures
        r == renderable_nodes(nodes_view(children@)),
    decreases *children, 0int,
{
    let ghost nv = nodes_view(children@);
    proof {
        lemma_nodes_view_index(children@);
        assert(nv.subrange(0, 0) =~= Seq::<NodeModel>::empty());
    }
    let mut ok = true;
    let mut k: usize = 0;
    while k < children.len()
        invariant
            k <= children@.len(),
            nv == nodes_view(children@),
            nv.len() == children@.len(),
            forall|l: int| 0 <= l < nv.len() ==> nv[l] == #[trigger] children@[l]@,
            ok == renderable_nodes(nv.subrange(0, k as int)),
        decreases children@.len() - k,
    {
        proof {
            let sub1 = nv.subrange(0, k + 1);
            assert(sub1.subrange(0, sub1.len() - 1) =~= nv.subrange(0, k as int));
            assert(sub1[sub1.len() - 1] == nv[k as int]);
            assert(nv[k as int] == children@[k as int]@);
        }
        let here = is_renderable(&children[k]);
        ok = ok && here;
        k += 1;
    }
    proof {
        assert(nv.subrange(0, nv.len() as int) =~= nv);
    }
    ok
}

/// Decides `method_children_ok`.
fn method_children_renderable(children: &Vec<SyntaxTreeNode>) -> (r: bool)
    ensures
        r == method_children_ok(nodes_view(children@)),
    decreases *children, 0int,
{
    let ghost nv = nodes_view(children@);
    proof {
        lemma_nodes_view_index(children@);
        assert(nv.subrange(0, 0) =~= Seq::<NodeModel>::empty());
    }
    let mut ok = true;
    let mut k: usize = 0;
    while k < children.len()
        invariant
            k <= children@.len(),
            nv == nodes_view(children@),
            nv.len() == children@.len(),
            forall|l: int| 0 <= l < nv.len() ==> nv[l] == #[trigger] children@[l]@,
            ok == method_children_ok(nv.subrange(0, k as int)),
        decreases children@.len() - k,
    {
        proof {
            let sub1 = nv.subrange(0, k + 1);
            assert(sub1.subrange(0, sub1.len() - 1) =~= nv.subrange(0, k as int));
            assert(sub1[sub1.len() - 1] == nv[k as int]);
            assert(nv[k as int] == children@[k as int]@);
        }
        let here = if children[k].type_ == SyntaxTreeNodeType::MethodArgument {
            children[k].value.is_some()
        } else {
            is_renderable(&children[k])
        };
        ok = ok && here;
        k += 1;
    }
    proof {
        assert(nv.subrange(0, nv.len() as int) =~= nv);
    }
    ok
}

/// Decides `grouped_children_ok`.
fn grouped_children_renderable(children: &Vec<SyntaxTreeNode>) -> (r: bool)
    ensures
        r == grouped_children_ok(nodes_view(children@)),
    decreases *children, 0int,
{
    let ghost nv = nodes_view(children@);
    proof {
        lemma_nodes_view_index(children@);
        assert(nv.subrange(0, 0) =~= Seq::<NodeModel>::empty());
    }
    let mut ok = true;
    let mut k: usize = 0;
    while k < children.len()
        invariant
            k <= children@.len(),
            nv == nodes_view(children@),
            nv.len() == children@.len(),
            forall|l: int| 0 <= l < nv.len() ==> nv[l] == #[trigger] children@[l]@,
            ok == grouped_children_ok(nv.subrange(0, k as int)),
        decreases children@.len() - k,
    {
        proof {
            let sub1 = nv.subrange(0, k + 1);
            assert(sub1.subrange(0, sub1.len() - 1) =~= nv.subrange(0, k as int));
            assert(sub1[sub1.len() - 1] == nv[k as int]);
            assert(nv[k as int] == children@[k as int]@);
            assert(nv[k as int].children == nodes_view(children@[k as int].children@));
            lemma_nodes_view_index(children@[k as int].children@);
        }
        let c = &children[k];
        let here = c.value.is_some() && c.children.len() >= 1 && is_renderable(&c.children[0]);
        ok = ok && here;
        k += 1;
    }
    proof {
        assert(nv.subrange(0, nv.len() as int) =~= nv);
    }
    ok
}

/// Renders a whole tree: the root's own rendering followed by its
/// children's renderings. The root and every top-level child must be
/// renderable: an unsupported node kind is a contract violation, not a
/// recoverable failure.
pub fn transpile(abstract_syntax_tree: SyntaxTreeNode) -> (r: String)
    requires
        renderable(abstract_syntax_tree@),
        renderable_nodes(abstract_syntax_tree@.children),
    ensures
        r@ == transpile_spec(abstract_syntax_tree@),
{
    let ghost nv = nodes_view(abstract_syntax_tree.children@);
    proof {
        lemma_nodes_view_index(abstract_syntax_tree.children@);
        assert(abstract_syntax_tree@.children == nv);
    }
    let mut out = convert_abstract_syntax_tree_to_code(&abstract_syntax_tree);
    let mut k: usize = 0;
    while k < abstract_syntax_tree.children.len()
        invariant
            k <= abstract_syntax_tree.children@.len(),
            nv == nodes_view(abstract_syntax_tree.children@),
            nv.len() == abstract_syntax_tree.children@.len(),
            renderable_nodes(nv),
            forall|l: int|
                0 <= l < nv.len() ==> nv[l] == #[trigger] abstract_syntax_tree.children@[l]@,
            out@ == emit_node(abstract_syntax_tree@) + concat_renders(
                nv.subrange(0, k as int),
            ),
        decreases abstract_syntax_tree.children@.len() - k,
    {
        proof {
            let sub1 = nv.subrange(0, k + 1);
            assert(sub1.subrange(0, sub1.len() - 1) =~= nv.subrange(0, k as int));
            assert(sub1[sub1.len() - 1] == nv[k as int]);
            assert(nv[k as int] == abstract_syntax_tree.children@[k as int]@);
            lemma_renderable_nodes_index(nv);
            assert(renderable(abstract_syntax_tree.children@[k as int]@));
        }
        let s = convert_abstract_syntax_tree_to_code(&abstract_syntax_tree.children[k]);
        vstd::string::StringExecFns::append(&mut out, s.as_str());
        k += 1;
    }
    proof {
        assert(nv.subrange(0, nv.len() as int) =~= nv);
    }
    out
}

} // verus!
