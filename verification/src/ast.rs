use vstd::prelude::*;

verus! {

/// A comparison or logical operator. The language has no arithmetic.
#[derive(Clone, Copy, Debug, PartialEq, Eq, Structural)]
pub enum Op {
    Eq,
    Ne,
    Gt,
    Lt,
    Ge,
    Le,
    And,
    Or,
}

/// An expression. A binary node owns both of its operands.
#[derive(Debug, PartialEq)]
pub enum Expr {
    Number(i64),
    Str(String),
    Var(String),
    Binary(Box<Expr>, Op, Box<Expr>),
}

/// A statement. A loop or a conditional owns the statements of its bodies.
#[derive(Debug, PartialEq)]
pub enum Node {
    VarDecl { name: String, value: Expr },
    Assign { name: String, value: Expr },
    Call { name: String, args: Vec<Expr> },
    Loop { times: Expr, body: Vec<Node> },
    If { cond: Expr, then_body: Vec<Node>, else_body: Option<Vec<Node>> },
}

/// What an expression stands for.
pub enum ExprView {
    Number(int),
    Str(Seq<char>),
    Var(Seq<char>),
    Binary(Box<ExprView>, Op, Box<ExprView>),
}

/// What a statement stands for.
pub enum NodeView {
    VarDecl { name: Seq<char>, value: ExprView },
    Assign { name: Seq<char>, value: ExprView },
    Call { name: Seq<char>, args: Seq<ExprView> },
    Loop { times: ExprView, body: Seq<NodeView> },
    If { cond: ExprView, then_body: Seq<NodeView>, else_body: Option<Seq<NodeView>> },
}

impl Expr {
    /// What the expression stands for; `@` gives the same.
    pub open spec fn model(self) -> ExprView
        decreases self,
    {
        match self {
            Expr::Number(n) => ExprView::Number(n as int),
            Expr::Str(s) => ExprView::Str(s@),
            Expr::Var(s) => ExprView::Var(s@),
            Expr::Binary(a, op, b) => ExprView::Binary(
                Box::new(a.model()),
                op,
                Box::new(b.model()),
            ),
        }
    }
}

impl View for Expr {
    type V = ExprView;

    open spec fn view(&self) -> ExprView {
        self.model()
    }
}

/// The views of a run of expressions, in order.
pub open spec fn exprs_view(exprs: Seq<Expr>) -> Seq<ExprView> {
    exprs.map_values(|e: Expr| e@)
}

/// The views of a run of statements, in order.
pub open spec fn nodes_view(nodes: Seq<Node>) -> Seq<NodeView>
    decreases nodes,
{
    Seq::new(
        nodes.len(),
        |i: int|
            if 0 <= i < nodes.len() {
                nodes[i].model()
            } else {
                arbitrary()
            },
    )
}

impl Node {
    /// What the statement stands for; `@` gives the same.
    pub open spec fn model(self) -> NodeView
        decreases self,
    {
        match self {
            Node::VarDecl { name, value } => NodeView::VarDecl { name: name@, value: value@ },
            Node::Assign { name, value } => NodeView::Assign { name: name@, value: value@ },
            Node::Call { name, args } => NodeView::Call { name: name@, args: exprs_view(args@) },
            Node::Loop { times, body } => NodeView::Loop { times: times@, body: nodes_view(body@) },
            Node::If { cond, then_body, else_body } => NodeView::If {
                cond: cond@,
                then_body: nodes_view(then_body@),
                else_body: match else_body {
                    Some(e) => Some(nodes_view(e@)),
                    None => None,
                },
            },
        }
    }
}

impl View for Node {
    type V = NodeView;

    open spec fn view(&self) -> NodeView {
        self.model()
    }
}

impl Clone for Expr {
    fn clone(&self) -> (r: Self)
        ensures
            r@ == self@,
        decreases self,
    {
        match self {
            Expr::Number(n) => Expr::Number(*n),
            Expr::Str(s) => Expr::Str(s.clone()),
            Expr::Var(s) => Expr::Var(s.clone()),
            Expr::Binary(a, op, b) => Expr::Binary(
                Box::new((&**a).clone()),
                *op,
                Box::new((&**b).clone()),
            ),
        }
    }
}

fn clone_exprs(exprs: &Vec<Expr>) -> (r: Vec<Expr>)
    ensures
        exprs_view(r@) == exprs_view(exprs@),
{
    let mut r: Vec<Expr> = Vec::new();
    let mut i: usize = 0;
    while i < exprs.len()
        invariant
            i <= exprs.len(),
            r@.len() == i,
            forall|j: int| 0 <= j < i ==> r@[j]@ == exprs@[j]@,
        decreases exprs.len() - i,
    {
        r.push(exprs[i].clone());
        i += 1;
    }
    assert(exprs_view(r@) =~= exprs_view(exprs@));
    r
}

fn clone_nodes(nodes: &Vec<Node>) -> (r: Vec<Node>)
    ensures
        nodes_view(r@) == nodes_view(nodes@),
    decreases nodes,
{
    let mut r: Vec<Node> = Vec::new();
    let mut i: usize = 0;
    while i < nodes.len()
        invariant
            i <= nodes.len(),
            r@.len() == i,
            forall|j: int| 0 <= j < i ==> r@[j]@ == nodes@[j]@,
        decreases nodes.len() - i,
    {
        r.push(nodes[i].clone());
        i += 1;
    }
    assert(nodes_view(r@) =~= nodes_view(nodes@));
    r
}

impl Clone for Node {
    fn clone(&self) -> (r: Self)
        ensures
            r@ == self@,
        decreases self,
    {
        match self {
            Node::VarDecl { name, value } => Node::VarDecl {
                name: name.clone(),
                value: value.clone(),
            },
            Node::Assign { name, value } => Node::Assign {
                name: name.clone(),
                value: value.clone(),
            },
            Node::Call { name, args } => Node::Call { name: name.clone(), args: clone_exprs(args) },
            Node::Loop { times, body } => Node::Loop {
                times: times.clone(),
                body: clone_nodes(body),
            },
            Node::If { cond, then_body, else_body } => Node::If {
                cond: cond.clone(),
                then_body: clone_nodes(then_body),
                else_body: match else_body {
                    Some(e) => Some(clone_nodes(e)),
                    None => None,
                },
            },
        }
    }
}

} // verus!
