//! The syntax tree produced by the parser, and its mathematical model.
use vstd::prelude::*;

verus! {

/// A node of the syntax tree. Children are owned by their parent and their
/// order is significant.
#[derive(Debug)]
pub enum Node {
    Program { children: Vec<Node> },
    Statement { children: Vec<Node> },
    FunctionDefine { name: Vec<u8>, children: Vec<Node> },
    FunctionArguments { children: Vec<Node> },
    FunctionStatements { children: Vec<Node> },
    Expression { children: Vec<Node> },
    MathExpression { name: Vec<u8>, children: Vec<Node> },
    FunctionCall { name: Vec<u8>, children: Vec<Node> },
    VariableDefine { children: Vec<Node> },
    FunctionReturn { children: Vec<Node> },
    Number { value: Vec<u8> },
    Bool { value: bool },
    Identifier { value: Vec<u8> },
    String { value: Vec<u8> },
    Null,
}

/// The mathematical model of a [`Node`]: the same shape, with sequences in
/// place of vectors.
pub enum Ast {
    Program { children: Seq<Ast> },
    Statement { children: Seq<Ast> },
    FunctionDefine { name: Seq<u8>, children: Seq<Ast> },
    FunctionArguments { children: Seq<Ast> },
    FunctionStatements { children: Seq<Ast> },
    Expression { children: Seq<Ast> },
    MathExpression { name: Seq<u8>, children: Seq<Ast> },
    FunctionCall { name: Seq<u8>, children: Seq<Ast> },
    VariableDefine { children: Seq<Ast> },
    FunctionReturn { children: Seq<Ast> },
    Number { value: Seq<u8> },
    Bool { value: bool },
    Identifier { value: Seq<u8> },
    String { value: Seq<u8> },
    Null,
}

/// The models of a sequence of nodes, in order.
pub open spec fn views(s: Seq<Node>) -> Seq<Ast>
    decreases s,
{
    if s.len() == 0 {
        Seq::empty()
    } else {
        views(s.subrange(0, s.len() - 1)).push(s[s.len() - 1].view())
    }
}

/// Appending a node appends its model.
pub proof fn lemma_views_push(s: Seq<Node>, n: Node)
    ensures
        views(s.push(n)) == views(s).push(n@),
{
    assert(s.push(n).subrange(0, s.len() as int) =~= s);
}

/// There is one model per node.
pub proof fn lemma_views_len(s: Seq<Node>)
    ensures
        views(s).len() == s.len(),
    decreases s.len(),
{
    if s.len() > 0 {
        lemma_views_len(s.subrange(0, s.len() - 1));
        assert(views(s) == views(s.subrange(0, s.len() - 1)).push(s[s.len() - 1]@));
    } else {
        assert(views(s) == Seq::<Ast>::empty());
    }
}

/// The model at an index is the model of the node there.
pub proof fn lemma_views_index(s: Seq<Node>, i: int)
    requires
        0 <= i < s.len(),
    ensures
        views(s)[i] == s[i]@,
    decreases s.len(),
{
    lemma_views_len(s.subrange(0, s.len() - 1));
    assert(views(s) == views(s.subrange(0, s.len() - 1)).push(s[s.len() - 1]@));
    if i < s.len() - 1 {
        lemma_views_index(s.subrange(0, s.len() - 1), i);
    }
}

/// The models of two sequences laid end to end.
pub proof fn lemma_views_append(a: Seq<Node>, b: Seq<Node>)
    ensures
        views(a + b) == views(a) + views(b),
    decreases b.len(),
{
    if b.len() == 0 {
        assert(a + b =~= a);
        assert(views(b) =~= Seq::<Ast>::empty());
        assert(views(a) + views(b) =~= views(a));
    } else {
        let b1 = b.subrange(0, b.len() - 1);
        lemma_views_append(a, b1);
        assert((a + b).subrange(0, (a + b).len() - 1) =~= a + b1);
        assert(views(a + b) == views(a + b1).push(b[b.len() - 1]@));
        assert(views(b) == views(b1).push(b[b.len() - 1]@));
        assert(views(a) + views(b) =~= (views(a) + views(b1)).push(b[b.len() - 1]@));
    }
}

impl View for Node {
    type V = Ast;

    open spec fn view(&self) -> Ast
        decreases *self,
    {
        match *self {
            Node::Program { children } => Ast::Program { children: views(children@) },
            Node::Statement { children } => Ast::Statement { children: views(children@) },
            Node::FunctionDefine { name, children } => Ast::FunctionDefine {
                name: name@,
                children: views(children@),
            },
            Node::FunctionArguments { children } => Ast::FunctionArguments {
                children: views(children@),
            },
            Node::FunctionStatements { children } => Ast::FunctionStatements {
                children: views(children@),
            },
            Node::Expression { children } => Ast::Expression { children: views(children@) },
            Node::MathExpression { name, children } => Ast::MathExpression {
                name: name@,
                children: views(children@),
            },
            Node::FunctionCall { name, children } => Ast::FunctionCall {
                name: name@,
                children: views(children@),
            },
            Node::VariableDefine { children } => Ast::VariableDefine {
                children: views(children@),
            },
            Node::FunctionReturn { children } => Ast::FunctionReturn {
                children: views(children@),
            },
            Node::Number { value } => Ast::Number { value: value@ },
            Node::Bool { value } => Ast::Bool { value },
            Node::Identifier { value } => Ast::Identifier { value: value@ },
            Node::String { value } => Ast::String { value: value@ },
            Node::Null => Ast::Null,
        }
    }
}

fn bytes_eq(a: &Vec<u8>, b: &Vec<u8>) -> (r: bool)
    ensures
        r == (a@ == b@),
{
    if a.len() != b.len() {
        return false;
    }
    let mut i: usize = 0;
    while i < a.len()
        invariant
            a@.len() == b@.len(),
            0 <= i <= a@.len(),
            forall|j: int| 0 <= j < i ==> a@[j] == b@[j],
        decreases a@.len() - i,
    {
        if a[i] != b[i] {
            return false;
        }
        i = i + 1;
    }
    assert(a@ =~= b@);
    true
}

fn nodes_eq(a: &Vec<Node>, b: &Vec<Node>) -> (r: bool)
    ensures
        r == (views(a@) == views(b@)),
    decreases a,
{
    proof {
        lemma_views_len(a@);
        lemma_views_len(b@);
    }
    if a.len() != b.len() {
        return false;
    }
    let mut i: usize = 0;
    while i < a.len()
        invariant
            a@.len() == b@.len(),
            views(a@).len() == a@.len(),
            views(b@).len() == b@.len(),
            0 <= i <= a@.len(),
            forall|j: int| 0 <= j < i ==> views(a@)[j] == views(b@)[j],
        decreases a@.len() - i,
    {
        proof {
            lemma_views_index(a@, i as int);
            lemma_views_index(b@, i as int);
        }
        if !a[i].deep_eq(&b[i]) {
            return false;
        }
        i = i + 1;
    }
    assert(views(a@) =~= views(b@));
    true
}

impl Node {
    /// Deep structural equality: the same variant, with equal fields and
    /// pairwise equal children in the same order.
    pub fn deep_eq(&self, other: &Node) -> (r: bool)
        ensures
            r == (self@ == other@),
        decreases self,
    {
        match (self, other) {
            (Node::Program { children: a }, Node::Program { children: b }) => nodes_eq(a, b),
            (Node::Statement { children: a }, Node::Statement { children: b }) => nodes_eq(a, b),
            (
                Node::FunctionDefine { name: m, children: a },
                Node::FunctionDefine { name: n, children: b },
            ) => bytes_eq(m, n) && nodes_eq(a, b),
            (
                Node::FunctionArguments { children: a },
                Node::FunctionArguments { children: b },
            ) => nodes_eq(a, b),
            (
                Node::FunctionStatements { children: a },
                Node::FunctionStatements { children: b },
            ) => nodes_eq(a, b),
            (Node::Expression { children: a }, Node::Expression { children: b }) => nodes_eq(
                a,
                b,
            ),
            (
                Node::MathExpression { name: m, children: a },
                Node::MathExpression { name: n, children: b },
            ) => bytes_eq(m, n) && nodes_eq(a, b),
            (
                Node::FunctionCall { name: m, children: a },
                Node::FunctionCall { name: n, children: b },
            ) => bytes_eq(m, n) && nodes_eq(a, b),
            (Node::VariableDefine { children: a }, Node::VariableDefine { children: b }) => {
                nodes_eq(a, b)
            },
            (Node::FunctionReturn { children: a }, Node::FunctionReturn { children: b }) => {
                nodes_eq(a, b)
            },
            (Node::Number { value: a }, Node::Number { value: b }) => bytes_eq(a, b),
            (Node::Bool { value: a }, Node::Bool { value: b }) => *a == *b,
            (Node::Identifier { value: a }, Node::Identifier { value: b }) => bytes_eq(a, b),
            (Node::String { value: a }, Node::String { value: b }) => bytes_eq(a, b),
            (Node::Null, Node::Null) => true,
            _ => false,
        }
    }
}

fn clone_bytes(a: &Vec<u8>) -> (r: Vec<u8>)
    ensures
        r@ == a@,
{
    let mut r: Vec<u8> = Vec::new();
    let mut i: usize = 0;
    while i < a.len()
        invariant
            0 <= i <= a@.len(),
            r@ == a@.subrange(0, i as int),
        decreases a@.len() - i,
    {
        r.push(a[i]);
        i = i + 1;
        assert(r@ =~= a@.subrange(0, i as int));
    }
    assert(a@.subrange(0, a@.len() as int) =~= a@);
    r
}

fn clone_nodes(a: &Vec<Node>) -> (r: Vec<Node>)
    ensures
        views(r@) == views(a@),
    decreases a,
{
    let mut r: Vec<Node> = Vec::new();
    let mut i: usize = 0;
    assert(views(r@) =~= Seq::<Ast>::empty());
    assert(a@.subrange(0, 0) =~= Seq::<Node>::empty());
    while i < a.len()
        invariant
            0 <= i <= a@.len(),
            views(r@) == views(a@.subrange(0, i as int)),
        decreases a@.len() - i,
    {
        let n = a[i].deep_clone();
        proof {
            lemma_views_push(r@, n);
            lemma_views_push(a@.subrange(0, i as int), a@[i as int]);
            assert(a@.subrange(0, i as int).push(a@[i as int]) =~= a@.subrange(0, i + 1));
        }
        r.push(n);
        i = i + 1;
    }
    assert(a@.subrange(0, a@.len() as int) =~= a@);
    r
}

impl Node {
    /// A copy of the whole tree.
    pub fn deep_clone(&self) -> (r: Node)
        ensures
            r@ == self@,
        decreases self,
    {
        match self {
            Node::Program { children } => Node::Program { children: clone_nodes(children) },
            Node::Statement { children } => Node::Statement { children: clone_nodes(children) },
            Node::FunctionDefine { name, children } => Node::FunctionDefine {
                name: clone_bytes(name),
                children: clone_nodes(children),
            },
            Node::FunctionArguments { children } => Node::FunctionArguments {
                children: clone_nodes(children),
            },
            Node::FunctionStatements { children } => Node::FunctionStatements {
                children: clone_nodes(children),
            },
            Node::Expression { children } => Node::Expression { children: clone_nodes(children) },
            Node::MathExpression { name, children } => Node::MathExpression {
                name: clone_bytes(name),
                children: clone_nodes(children),
            },
            Node::FunctionCall { name, children } => Node::FunctionCall {
                name: clone_bytes(name),
                children: clone_nodes(children),
            },
            Node::VariableDefine { children } => Node::VariableDefine {
                children: clone_nodes(children),
            },
            Node::FunctionReturn { children } => Node::FunctionReturn {
                children: clone_nodes(children),
            },
            Node::Number { value } => Node::Number { value: clone_bytes(value) },
            Node::Bool { value } => Node::Bool { value: *value },
            Node::Identifier { value } => Node::Identifier { value: clone_bytes(value) },
            Node::String { value } => Node::String { value: clone_bytes(value) },
            Node::Null => Node::Null,
        }
    }
}

impl Clone for Node {
    fn clone(&self) -> (r: Node) {
        self.deep_clone()
    }
}

impl PartialEq for Node {
    fn eq(&self, other: &Node) -> (r: bool) {
        self.deep_eq(other)
    }
}

impl vstd::std_specs::cmp::PartialEqSpecImpl for Node {
    open spec fn obeys_eq_spec() -> bool {
        true
    }

    open spec fn eq_spec(&self, other: &Node) -> bool {
        self@ == other@
    }
}

} // verus!
