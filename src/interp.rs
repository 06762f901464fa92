use vstd::prelude::*;

use crate::ast::{views, ASTNode, Expr};
use crate::env::Variables;

verus! {

/// Why the evaluation of a program stopped.
#[derive(Debug)]
pub enum EvalError {
    /// A variable was read before any assignment to it.
    UndefinedVariable(String),
    /// The right operand of a division was zero.
    DivisionByZero,
    /// Any other failure; an arithmetic result outside the `i64` range
    /// gives the message `integer overflow`.
    RuntimeError(String),
}

/// Mathematical model of an [`EvalError`].
pub enum EvalFault {
    UndefinedVariable(Seq<char>),
    DivisionByZero,
    RuntimeError(Seq<char>),
}

impl View for EvalError {
    type V = EvalFault;

    open spec fn view(&self) -> EvalFault {
        match self {
            EvalError::UndefinedVariable(name) => EvalFault::UndefinedVariable(name@),
            EvalError::DivisionByZero => EvalFault::DivisionByZero,
            EvalError::RuntimeError(m) => EvalFault::RuntimeError(m@),
        }
    }
}

/// An environment: each variable's current value.
pub type Env = Map<Seq<char>, i64>;

pub open spec fn overflow_message() -> Seq<char> {
    "integer overflow"@
}

/// `v` as an `i64`, or the overflow error when it is out of range.
pub open spec fn in_range(v: int) -> Result<i64, EvalFault> {
    if i64::MIN <= v <= i64::MAX {
        Ok(v as i64)
    } else {
        Err(EvalFault::RuntimeError(overflow_message()))
    }
}

pub open spec fn abs(a: int) -> int {
    if a < 0 {
        -a
    } else {
        a
    }
}

/// Integer division rounded toward zero.
pub open spec fn truncated_quotient(a: int, b: int) -> int {
    if (a < 0) != (b < 0) {
        -(abs(a) / abs(b))
    } else {
        abs(a) / abs(b)
    }
}

/// The arithmetic of a binary node on the values of its operands.
pub open spec fn apply(e: Expr, a: i64, b: i64) -> Result<i64, EvalFault> {
    match e {
        Expr::Add(_, _) => in_range(a + b),
        Expr::Sub(_, _) => in_range(a - b),
        Expr::Mul(_, _) => in_range(a * b),
        _ => if b == 0 {
            Err(EvalFault::DivisionByZero)
        } else {
            in_range(truncated_quotient(a as int, b as int))
        },
    }
}

/// The value of `e` in `env`, and the environment after it: operands are
/// evaluated left before right, an assignment binds its value and yields it,
/// and the first failure stops the evaluation with the assignments made so far.
pub open spec fn eval_expr(e: Expr, env: Env) -> (Result<i64, EvalFault>, Env)
    decreases e,
{
    match e {
        Expr::Num(n) => (Ok(n), env),
        Expr::Var(x) => if env.contains_key(x) {
            (Ok(env[x]), env)
        } else {
            (Err(EvalFault::UndefinedVariable(x)), env)
        },
        Expr::Assign(x, v) => match eval_expr(*v, env) {
            (Ok(n), env1) => (Ok(n), env1.insert(x, n)),
            (Err(f), env1) => (Err(f), env1),
        },
        Expr::Add(l, r) | Expr::Sub(l, r) | Expr::Mul(l, r) | Expr::Div(l, r) => match eval_expr(
            *l,
            env,
        ) {
            (Ok(a), env1) => match eval_expr(*r, env1) {
                (Ok(b), env2) => (apply(e, a, b), env2),
                (Err(f), env2) => (Err(f), env2),
            },
            (Err(f), env1) => (Err(f), env1),
        },
    }
}

/// Runs the statements of `prog` in order from `env`, stopping at the first
/// that fails; the environment after the run.
pub open spec fn run(prog: Seq<Expr>, env: Env) -> (Result<(), EvalFault>, Env)
    decreases prog.len(),
{
    if prog.len() == 0 {
        (Ok(()), env)
    } else {
        match eval_expr(prog[0], env) {
            (Ok(_), env1) => run(prog.drop_first(), env1),
            (Err(f), env1) => (Err(f), env1),
        }
    }
}

pub open spec fn value_view(r: Result<i64, EvalError>) -> Result<i64, EvalFault> {
    match r {
        Ok(v) => Ok(v),
        Err(e) => Err(e@),
    }
}

pub open spec fn unit_view(r: Result<(), EvalError>) -> Result<(), EvalFault> {
    match r {
        Ok(()) => Ok(()),
        Err(e) => Err(e@),
    }
}

fn overflow() -> (e: EvalError)
    ensures
        e@ == EvalFault::RuntimeError(overflow_message()),
{
    EvalError::RuntimeError("integer overflow".to_owned())
}

/// An interpreter with no variables.
impl Default for Interpreter {
    fn default() -> (r: Interpreter)
        ensures
            r.variables@ == Map::<Seq<char>, i64>::empty(),
    {
        Interpreter::new()
    }
}

/// Executes programs against its variables.
#[derive(Debug)]
pub struct Interpreter {
    /// Each variable assigned so far, with its current value.
    pub variables: Variables,
}

impl Interpreter {
    /// An interpreter with no variables.
    pub fn new() -> (r: Interpreter)
        ensures
            r.variables@ == Map::<Seq<char>, i64>::empty(),
    {
        Interpreter { variables: Variables::new() }
    }

    /// Evaluates the statements of `nodes` in order and stops at the first
    /// failure. The variables then hold every assignment made before it;
    /// on success, every assignment of the program.
    pub fn eval(&mut self, nodes: &[ASTNode]) -> (r: Result<(), EvalError>)
        ensures
            (unit_view(r), final(self).variables@) == run(views(nodes@), old(self).variables@),
    {
        let ghost prog = views(nodes@);
        let mut i: usize = 0;
        assert(prog.subrange(0, prog.len() as int) =~= prog);
        while i < nodes.len()
            invariant
                i <= nodes@.len(),
                prog == views(nodes@),
                run(prog, old(self).variables@) == run(prog.subrange(i as int, prog.len() as int), self.variables@),
            decreases nodes@.len() - i,
        {
            let ghost rest = prog.subrange(i as int, prog.len() as int);
            assert(rest[0] == nodes@[i as int]@);
            assert(rest.drop_first() =~= prog.subrange(i + 1, prog.len() as int));
            match self.eval_node(&nodes[i]) {
                Ok(_) => {},
                Err(e) => return Err(e),
            }
            i = i + 1;
        }
        Ok(())
    }

    /// The value of one node; assignments within it update the variables.
    fn eval_node(&mut self, node: &ASTNode) -> (r: Result<i64, EvalError>)
        ensures
            (value_view(r), final(self).variables@) == eval_expr(node@, old(self).variables@),
        decreases node,
    {
        match node {
            ASTNode::Number(n) => Ok(*n),
            ASTNode::Identifier(name) => match self.variables.get(name.as_str()) {
                Some(v) => Ok(*v),
                None => Err(EvalError::UndefinedVariable(name.clone())),
            },
            ASTNode::Assignment { name, value } => {
                let v = match self.eval_node(value) {
                    Ok(v) => v,
                    Err(e) => return Err(e),
                };
                self.variables.insert(name.clone(), v);
                Ok(v)
            },
            ASTNode::Add(l, r) | ASTNode::Sub(l, r) | ASTNode::Mul(l, r) | ASTNode::Div(l, r) => {
                let a = match self.eval_node(l) {
                    Ok(a) => a,
                    Err(e) => return Err(e),
                };
                let b = match self.eval_node(r) {
                    Ok(b) => b,
                    Err(e) => return Err(e),
                };
                let v = match node {
                    ASTNode::Add(_, _) => a.checked_add(b),
                    ASTNode::Sub(_, _) => a.checked_sub(b),
                    ASTNode::Mul(_, _) => a.checked_mul(b),
                    _ => {
                        if b == 0 {
                            return Err(EvalError::DivisionByZero);
                        }
                        a.checked_div(b)
                    },
                };
                match v {
                    Some(v) => Ok(v),
                    None => Err(overflow()),
                }
            },
        }
    }
}

} // verus!
