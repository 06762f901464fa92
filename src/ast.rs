use vstd::prelude::*;

verus! {

/// Mathematical model of a syntax tree: names are character sequences.
pub enum Expr {
    Num(i64),
    Var(Seq<char>),
    Assign(Seq<char>, Box<Expr>),
    Add(Box<Expr>, Box<Expr>),
    Sub(Box<Expr>, Box<Expr>),
    Mul(Box<Expr>, Box<Expr>),
    Div(Box<Expr>, Box<Expr>),
}

/// Abstract syntax tree of one statement or expression.
#[derive(Debug)]
pub enum ASTNode {
    /// A numeric literal, such as `42`.
    Number(i64),
    /// A reference to a variable, such as `x`.
    Identifier(String),
    /// A binding of the value of an expression to a name, such as `x = 5`.
    Assignment {
        /// The variable assigned to.
        name: String,
        /// The expression whose value is bound.
        value: Box<ASTNode>,
    },
    /// `a + b`
    Add(Box<ASTNode>, Box<ASTNode>),
    /// `a - b`
    Sub(Box<ASTNode>, Box<ASTNode>),
    /// `a * b`
    Mul(Box<ASTNode>, Box<ASTNode>),
    /// `a / b`
    Div(Box<ASTNode>, Box<ASTNode>),
}

impl View for ASTNode {
    type V = Expr;

    open spec fn view(&self) -> Expr
        decreases self,
    {
        match self {
            ASTNode::Number(n) => Expr::Num(*n),
            ASTNode::Identifier(name) => Expr::Var(name@),
            ASTNode::Assignment { name, value } => Expr::Assign(name@, Box::new((**value).view())),
            ASTNode::Add(l, r) => Expr::Add(Box::new((**l).view()), Box::new((**r).view())),
            ASTNode::Sub(l, r) => Expr::Sub(Box::new((**l).view()), Box::new((**r).view())),
            ASTNode::Mul(l, r) => Expr::Mul(Box::new((**l).view()), Box::new((**r).view())),
            ASTNode::Div(l, r) => Expr::Div(Box::new((**l).view()), Box::new((**r).view())),
        }
    }
}

/// A copy of the whole tree.
impl Clone for ASTNode {
    fn clone(&self) -> (r: ASTNode)
        ensures
            r@ == self@,
        decreases self,
    {
        match self {
            ASTNode::Number(n) => ASTNode::Number(*n),
            ASTNode::Identifier(name) => ASTNode::Identifier(name.clone()),
            ASTNode::Assignment { name, value } => ASTNode::Assignment {
                name: name.clone(),
                value: Box::new((**value).clone()),
            },
            ASTNode::Add(l, r) => ASTNode::Add(Box::new((**l).clone()), Box::new((**r).clone())),
            ASTNode::Sub(l, r) => ASTNode::Sub(Box::new((**l).clone()), Box::new((**r).clone())),
            ASTNode::Mul(l, r) => ASTNode::Mul(Box::new((**l).clone()), Box::new((**r).clone())),
            ASTNode::Div(l, r) => ASTNode::Div(Box::new((**l).clone()), Box::new((**r).clone())),
        }
    }
}

/// The models of a sequence of trees.
pub open spec fn views(nodes: Seq<ASTNode>) -> Seq<Expr> {
    nodes.map_values(|n: ASTNode| n@)
}

/// Two trees are equal when they have the same shape, literals and names.
impl PartialEq for ASTNode {
    fn eq(&self, other: &ASTNode) -> (r: bool)
        decreases self,
    {
        match (self, other) {
            (ASTNode::Number(a), ASTNode::Number(b)) => *a == *b,
            (ASTNode::Identifier(a), ASTNode::Identifier(b)) => *a == *b,
            (
                ASTNode::Assignment { name: n1, value: v1 },
                ASTNode::Assignment { name: n2, value: v2 },
            ) => *n1 == *n2 && (**v1).eq(&**v2),
            (ASTNode::Add(l1, r1), ASTNode::Add(l2, r2)) => (**l1).eq(&**l2) && (**r1).eq(&**r2),
            (ASTNode::Sub(l1, r1), ASTNode::Sub(l2, r2)) => (**l1).eq(&**l2) && (**r1).eq(&**r2),
            (ASTNode::Mul(l1, r1), ASTNode::Mul(l2, r2)) => (**l1).eq(&**l2) && (**r1).eq(&**r2),
            (ASTNode::Div(l1, r1), ASTNode::Div(l2, r2)) => (**l1).eq(&**l2) && (**r1).eq(&**r2),
            _ => false,
        }
    }
}

impl vstd::std_specs::cmp::PartialEqSpecImpl for ASTNode {
    open spec fn obeys_eq_spec() -> bool {
        true
    }

    open spec fn eq_spec(&self, other: &ASTNode) -> bool {
        self@ == other@
    }
}

} // verus!
