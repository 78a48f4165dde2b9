use vstd::prelude::*;

verus! {

/// The kind of a node of the abstract syntax tree.
#[derive(Clone, Copy, Debug, PartialEq, Eq, Structural)]
pub enum SyntaxTreeNodeType {
    Namespace,
    Class,
    Method,
    MethodArgument,
    Literal,
    Expression,
    Assignment,
    EqualityCheck,
    Branch,
    Comment,
    Collection,
}

/// A node of the abstract syntax tree: an optional textual value, a kind,
/// and the ordered children the node exclusively owns.
#[derive(Debug)]
pub struct SyntaxTreeNode {
    pub value: Option<String>,
    pub type_: SyntaxTreeNodeType,
    pub children: Vec<SyntaxTreeNode>,
}

/// The mathematical model of a syntax tree node.
pub ghost struct NodeModel {
    pub value: Option<Seq<char>>,
    pub type_: SyntaxTreeNodeType,
    pub children: Seq<NodeModel>,
}

/// The model of a node: its value as a character sequence, its kind, and
/// the models of its children.
pub open spec fn node_view(n: SyntaxTreeNode) -> NodeModel
    decreases n,
{
    NodeModel {
        value: match n.value {
            Option::Some(s) => Option::Some(s@),
            Option::None => Option::None,
        },
        type_: n.type_,
        children: nodes_view(n.children@),
    }
}

/// The models of a sequence of nodes, in order.
pub open spec fn nodes_view(ns: Seq<SyntaxTreeNode>) -> Seq<NodeModel>
    decreases ns,
{
    if ns.len() == 0 {
        Seq::empty()
    } else {
        nodes_view(ns.subrange(0, ns.len() - 1)) + seq![node_view(ns[ns.len() - 1])]
    }
}

impl View for SyntaxTreeNode {
    type V = NodeModel;

    open spec fn view(&self) -> NodeModel {
        node_view(*self)
    }
}

/// `nodes_view` maps each node to its model, position by position.
pub proof fn lemma_nodes_view_index(ns: Seq<SyntaxTreeNode>)
    ensures
        nodes_view(ns).len() == ns.len(),
        forall|i: int| 0 <= i < ns.len() ==> nodes_view(ns)[i] == #[trigger] ns[i]@,
    decreases ns,
{
    if ns.len() > 0 {
        let pre = ns.subrange(0, ns.len() - 1);
        lemma_nodes_view_index(pre);
        assert forall|i: int| 0 <= i < ns.len() implies nodes_view(ns)[i] == #[trigger] ns[i]@ by {
            if i < ns.len() - 1 {
                assert(pre[i] == ns[i]);
                assert(nodes_view(ns)[i] == nodes_view(pre)[i]);
            } else {
                assert(nodes_view(ns)[i] == node_view(ns[i]));
            }
        }
    }
}

/// The models of concatenated node sequences are the concatenated
/// models.
pub proof fn lemma_nodes_view_concat(a: Seq<SyntaxTreeNode>, b: Seq<SyntaxTreeNode>)
    ensures
        nodes_view(a + b) == nodes_view(a) + nodes_view(b),
{
    lemma_nodes_view_index(a);
    lemma_nodes_view_index(b);
    lemma_nodes_view_index(a + b);
    assert forall|i: int| 0 <= i < (a + b).len() implies nodes_view(a + b)[i] == (nodes_view(a)
        + nodes_view(b))[i] by {
        if i < a.len() {
            assert((a + b)[i] == a[i]);
            assert(nodes_view(a + b)[i] == (a + b)[i]@);
            assert(nodes_view(a)[i] == a[i]@);
        } else {
            assert((a + b)[i] == b[i - a.len()]);
            assert(nodes_view(a + b)[i] == (a + b)[i]@);
            assert(nodes_view(b)[i - a.len()] == b[i - a.len()]@);
        }
    }
    assert(nodes_view(a + b) =~= nodes_view(a) + nodes_view(b));
}

/// The model of a single node, as a sequence.
pub proof fn lemma_nodes_view_singleton(n: SyntaxTreeNode)
    ensures
        nodes_view(seq![n]) == seq![n@],
{
    lemma_nodes_view_index(seq![n]);
    assert(nodes_view(seq![n]) =~= seq![n@]);
}

/// The models of a two-node sequence.
pub proof fn lemma_nodes_view_pair(ns: Seq<SyntaxTreeNode>)
    requires
        ns.len() == 2,
    ensures
        nodes_view(ns) == seq![ns[0]@, ns[1]@],
{
    lemma_nodes_view_index(ns);
    assert(nodes_view(ns)[0] == ns[0]@);
    assert(nodes_view(ns)[1] == ns[1]@);
    assert(nodes_view(ns) =~= seq![ns[0]@, ns[1]@]);
}

/// An exact copy of a node: the same value, kind and children, all the
/// way down.
pub fn clone_node(n: &SyntaxTreeNode) -> (r: SyntaxTreeNode)
    ensures
        r@ == n@,
    decreases *n,
{
    let value: Option<String> = match &n.value {
        Option::Some(s) => Option::Some(s.clone()),
        Option::None => Option::None,
    };
    let mut children: Vec<SyntaxTreeNode> = Vec::new();
    let mut k: usize = 0;
    while k < n.children.len()
        invariant
            k <= n.children@.len(),
            children@.len() == k,
            forall|j: int| 0 <= j < k ==> children@[j]@ == #[trigger] n.children@[j]@,
        decreases n.children@.len() - k,
    {
        let c = clone_node(&n.children[k]);
        children.push(c);
        k += 1;
    }
    proof {
        lemma_nodes_view_index(children@);
        lemma_nodes_view_index(n.children@);
        assert forall|j: int| 0 <= j < n.children@.len() implies nodes_view(children@)[j]
            == nodes_view(n.children@)[j] by {
            assert(nodes_view(children@)[j] == children@[j]@);
            assert(nodes_view(n.children@)[j] == n.children@[j]@);
        }
        assert(nodes_view(children@) =~= nodes_view(n.children@));
    }
    SyntaxTreeNode { value, type_: n.type_, children }
}

} // verus!
