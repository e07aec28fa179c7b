//! Syntax trees, which double as runtime values, and their evaluation.
use vstd::prelude::*;
use crate::env::Environment;

verus! {

/// The binary operators of the language.
#[derive(Debug, Clone, Copy, PartialEq, Eq, Structural)]
pub enum BinaryOperator {
    Add,
    Subtract,
    Multiply,
    Divide,
    Greater,
    Less,
}

/// The unary operators of the language.
#[derive(Debug, Clone, Copy, PartialEq, Eq, Structural)]
pub enum UnaryOperator {
    Negate,
}

/// A syntax tree; `Error` and `Int` are also the results of evaluation.
#[derive(Debug)]
pub enum Node {
    Error(String),
    Int(i32),
    Identifier(String),
    BinaryOp(Box<Node>, BinaryOperator, Box<Node>),
    UnaryOp(UnaryOperator, Box<Node>),
    If(Box<Node>, Box<Node>, Box<Node>),
    Let(String, Box<Node>),
}

/// The mathematical model of a `Node`: the same tree, with text as `Seq<char>`.
pub enum Expr {
    Error(Seq<char>),
    Int(i32),
    Identifier(Seq<char>),
    BinaryOp(Box<Expr>, BinaryOperator, Box<Expr>),
    UnaryOp(UnaryOperator, Box<Expr>),
    If(Box<Expr>, Box<Expr>, Box<Expr>),
    Let(Seq<char>, Box<Expr>),
}

pub open spec fn expr_of(n: Node) -> Expr
    decreases n,
{
    match n {
        Node::Error(m) => Expr::Error(m@),
        Node::Int(v) => Expr::Int(v),
        Node::Identifier(x) => Expr::Identifier(x@),
        Node::BinaryOp(l, op, r) => Expr::BinaryOp(Box::new(expr_of(*l)), op, Box::new(expr_of(*r))),
        Node::UnaryOp(op, e) => Expr::UnaryOp(op, Box::new(expr_of(*e))),
        Node::If(c, t, e) => Expr::If(
            Box::new(expr_of(*c)),
            Box::new(expr_of(*t)),
            Box::new(expr_of(*e)),
        ),
        Node::Let(x, e) => Expr::Let(x@, Box::new(expr_of(*e))),
    }
}

impl View for Node {
    type V = Expr;

    open spec fn view(&self) -> Expr {
        expr_of(*self)
    }
}

/// Whether `e` is a value, that is an integer or an error.
pub open spec fn is_value(e: Expr) -> bool {
    e is Int || e is Error
}

pub open spec fn unbound_message(x: Seq<char>) -> Seq<char> {
    "Variable '"@ + x + "' does not exist"@
}

pub open spec fn divide_by_zero_message() -> Seq<char> {
    "Cannot divide by zero"@
}

pub open spec fn condition_message() -> Seq<char> {
    "Case value cannot be tested in an if statement"@
}

pub open spec fn non_integer_message(op: BinaryOperator) -> Seq<char> {
    match op {
        BinaryOperator::Add => "Cannot add a non-integer value"@,
        BinaryOperator::Subtract => "Cannot subtract a non-integer value"@,
        BinaryOperator::Multiply => "Cannot multiply a non-integer value"@,
        BinaryOperator::Divide => "Cannot divide a non-integer value"@,
        BinaryOperator::Greater => "Cannot perform an inequality on a non-integer value"@,
        BinaryOperator::Less => "Cannot perform an inequality on a non-integer value"@,
    }
}

pub open spec fn negate_non_integer_message() -> Seq<char> {
    "Cannot negate a non-integer value"@
}

pub open spec fn overflow_message() -> Seq<char> {
    "Integer overflow"@
}

/// `Int(v)` where `v` fits in an `i32`, else the overflow error.
pub open spec fn checked_value(v: Option<i32>) -> Expr {
    match v {
        Some(n) => Expr::Int(n),
        None => Expr::Error(overflow_message()),
    }
}

/// An operator applied to two integers (division truncates toward zero).
pub open spec fn arith(op: BinaryOperator, a: i32, b: i32) -> Expr {
    match op {
        BinaryOperator::Add => checked_value(a.checked_add(b)),
        BinaryOperator::Subtract => checked_value(a.checked_sub(b)),
        BinaryOperator::Multiply => checked_value(a.checked_mul(b)),
        BinaryOperator::Divide => if b == 0 {
            Expr::Error(divide_by_zero_message())
        } else {
            checked_value(a.checked_div(b))
        },
        BinaryOperator::Greater => Expr::Int(if a > b { 1 } else { 0 }),
        BinaryOperator::Less => Expr::Int(if a < b { 1 } else { 0 }),
    }
}

/// An operator applied to two evaluated operands: the left error wins, then the right one.
pub open spec fn binary(op: BinaryOperator, l: Expr, r: Expr) -> Expr {
    match l {
        Expr::Int(a) => match r {
            Expr::Int(b) => arith(op, a, b),
            Expr::Error(m) => Expr::Error(m),
            _ => Expr::Error(non_integer_message(op)),
        },
        Expr::Error(m) => Expr::Error(m),
        _ => Expr::Error(non_integer_message(op)),
    }
}

/// Negation of an evaluated operand.
pub open spec fn negation(v: Expr) -> Expr {
    match v {
        Expr::Int(a) => if a == i32::MIN {
            Expr::Error(overflow_message())
        } else {
            Expr::Int((-a) as i32)
        },
        Expr::Error(m) => Expr::Error(m),
        _ => Expr::Error(negate_non_integer_message()),
    }
}

/// The value of `e` in `env`, with the table as it stands afterwards.
pub open spec fn evaluate(e: Expr, env: Map<Seq<char>, i32>) -> (Expr, Map<Seq<char>, i32>)
    decreases e,
{
    match e {
        Expr::Error(m) => (Expr::Error(m), env),
        Expr::Int(n) => (Expr::Int(n), env),
        Expr::Identifier(x) => if env.contains_key(x) {
            (Expr::Int(env[x]), env)
        } else {
            (Expr::Error(unbound_message(x)), env)
        },
        Expr::BinaryOp(l, op, r) => {
            let (lv, env1) = evaluate(*l, env);
            let (rv, env2) = evaluate(*r, env1);
            (binary(op, lv, rv), env2)
        },
        Expr::UnaryOp(op, x) => {
            let (v, env1) = evaluate(*x, env);
            (negation(v), env1)
        },
        Expr::If(c, t, f) => {
            let (cv, env1) = evaluate(*c, env);
            match cv {
                Expr::Error(m) => (Expr::Error(m), env1),
                Expr::Int(n) => if n == 0 {
                    evaluate(*f, env1)
                } else {
                    evaluate(*t, env1)
                },
                _ => (Expr::Error(condition_message()), env1),
            }
        },
        Expr::Let(x, b) => {
            let (v, env1) = evaluate(*b, env);
            match v {
                Expr::Int(n) => (Expr::Int(n), env1.insert(x, n)),
                _ => (v, env1),
            }
        },
    }
}

fn message(s: &str) -> (r: String)
    ensures
        r@ == s@,
{
    String::from_str(s)
}

fn non_integer(op: BinaryOperator) -> (r: Node)
    ensures
        r@ == Expr::Error(non_integer_message(op)),
{
    let m = match op {
        BinaryOperator::Add => message("Cannot add a non-integer value"),
        BinaryOperator::Subtract => message("Cannot subtract a non-integer value"),
        BinaryOperator::Multiply => message("Cannot multiply a non-integer value"),
        BinaryOperator::Divide => message("Cannot divide a non-integer value"),
        BinaryOperator::Greater => message("Cannot perform an inequality on a non-integer value"),
        BinaryOperator::Less => message("Cannot perform an inequality on a non-integer value"),
    };
    Node::Error(m)
}

fn checked(v: Option<i32>) -> (r: Node)
    ensures
        r@ == checked_value(v),
{
    match v {
        Some(n) => Node::Int(n),
        None => Node::Error(message("Integer overflow")),
    }
}

impl Node {
    /// Whether this node is an error value.
    pub fn is_error(&self) -> (r: bool)
        ensures
            r == (self@ is Error),
    {
        if let Node::Error(_) = self {
            true
        } else {
            false
        }
    }

    /// Applies `op` to this value and `other`.
    fn binary(&self, op: BinaryOperator, other: &Node) -> (r: Node)
        ensures
            r@ == binary(op, self@, other@),
    {
        match self {
            Node::Int(left) => match other {
                Node::Int(right) => {
                    let (a, b) = (*left, *right);
                    match op {
                        BinaryOperator::Add => checked(a.checked_add(b)),
                        BinaryOperator::Subtract => checked(a.checked_sub(b)),
                        BinaryOperator::Multiply => checked(a.checked_mul(b)),
                        BinaryOperator::Divide => if b == 0 {
                            Node::Error(message("Cannot divide by zero"))
                        } else {
                            checked(a.checked_div(b))
                        },
                        BinaryOperator::Greater => Node::Int(if a > b { 1 } else { 0 }),
                        BinaryOperator::Less => Node::Int(if a < b { 1 } else { 0 }),
                    }
                },
                Node::Error(m) => Node::Error(m.clone()),
                _ => non_integer(op),
            },
            Node::Error(m) => Node::Error(m.clone()),
            _ => non_integer(op),
        }
    }

    /// The sum of two integer values, or the error that stops it.
    pub fn add(&self, other: &Node) -> (r: Node)
        ensures
            r@ == binary(BinaryOperator::Add, self@, other@),
    {
        self.binary(BinaryOperator::Add, other)
    }

    /// The difference of two integer values, or the error that stops it.
    pub fn minus(&self, other: &Node) -> (r: Node)
        ensures
            r@ == binary(BinaryOperator::Subtract, self@, other@),
    {
        self.binary(BinaryOperator::Subtract, other)
    }

    /// The product of two integer values, or the error that stops it.
    pub fn mult(&self, other: &Node) -> (r: Node)
        ensures
            r@ == binary(BinaryOperator::Multiply, self@, other@),
    {
        self.binary(BinaryOperator::Multiply, other)
    }

    /// The quotient, truncated toward zero, of two integer values, or the error that stops it.
    pub fn div(&self, other: &Node) -> (r: Node)
        ensures
            r@ == binary(BinaryOperator::Divide, self@, other@),
    {
        self.binary(BinaryOperator::Divide, other)
    }

    /// `Int(1)` when this value is greater than `other`, else `Int(0)`, or the error that stops it.
    pub fn gt(&self, other: &Node) -> (r: Node)
        ensures
            r@ == binary(BinaryOperator::Greater, self@, other@),
    {
        self.binary(BinaryOperator::Greater, other)
    }

    /// `Int(1)` when this value is less than `other`, else `Int(0)`, or the error that stops it.
    pub fn lt(&self, other: &Node) -> (r: Node)
        ensures
            r@ == binary(BinaryOperator::Less, self@, other@),
    {
        self.binary(BinaryOperator::Less, other)
    }

    /// The negation of an integer value, or the error that stops it.
    pub fn negate(&self) -> (r: Node)
        ensures
            r@ == negation(self@),
    {
        match self {
            Node::Int(a) => if *a == i32::MIN {
                Node::Error(message("Integer overflow"))
            } else {
                Node::Int(-*a)
            },
            Node::Error(m) => Node::Error(m.clone()),
            _ => Node::Error(message("Cannot negate a non-integer value")),
        }
    }

    /// The name of this node's kind.
    pub fn kind_name(&self) -> (r: &'static str)
        ensures
            r@ == kind_name_of(self@),
    {
        match self {
            Node::Error(_) => "Error",
            Node::Int(_) => "Integer",
            Node::Identifier(_) => "Identifier",
            Node::BinaryOp(_, _, _) => "BinaryOp",
            Node::UnaryOp(_, _) => "UnaryOp",
            Node::If(_, _, _) => "If",
            Node::Let(_, _) => "Let",
        }
    }

    /// Evaluates this tree in `env`; a `Let` binds its value in `env`.
    pub fn eval(&self, env: &mut Environment) -> (r: Node)
        requires
            old(env).wf(),
        ensures
            final(env).wf(),
            (r@, final(env)@) == evaluate(self@, old(env)@),
        decreases self,
    {
        match self {
            Node::Error(m) => Node::Error(m.clone()),
            Node::Int(n) => Node::Int(*n),
            Node::Identifier(x) => match env.get(x) {
                Some(v) => Node::Int(v),
                None => {
                    let mut m = String::from_str("Variable '");
                    m.append(x.as_str());
                    m.append("' does not exist");
                    Node::Error(m)
                },
            },
            Node::BinaryOp(left, op, right) => {
                let l = left.eval(env);
                let r = right.eval(env);
                match op {
                    BinaryOperator::Add => l.add(&r),
                    BinaryOperator::Subtract => l.minus(&r),
                    BinaryOperator::Multiply => l.mult(&r),
                    BinaryOperator::Divide => l.div(&r),
                    BinaryOperator::Greater => l.gt(&r),
                    BinaryOperator::Less => l.lt(&r),
                }
            },
            Node::UnaryOp(op, operand) => {
                let v = operand.eval(env);
                match op {
                    UnaryOperator::Negate => v.negate(),
                }
            },
            Node::If(cond, then_branch, else_branch) => {
                let c = cond.eval(env);
                if c.is_error() {
                    return c;
                }
                match c {
                    Node::Int(0) => else_branch.eval(env),
                    Node::Int(_) => then_branch.eval(env),
                    _ => Node::Error(message("Case value cannot be tested in an if statement")),
                }
            },
            Node::Let(x, body) => {
                let v = body.eval(env);
                if v.is_error() {
                    return v;
                }
                match v {
                    Node::Int(n) => {
                        env.insert(x.clone(), n);
                        Node::Int(n)
                    },
                    other => other,
                }
            },
        }
    }
}

pub open spec fn kind_name_of(e: Expr) -> Seq<char> {
    match e {
        Expr::Error(_) => "Error"@,
        Expr::Int(_) => "Integer"@,
        Expr::Identifier(_) => "Identifier"@,
        Expr::BinaryOp(_, _, _) => "BinaryOp"@,
        Expr::UnaryOp(_, _) => "UnaryOp"@,
        Expr::If(_, _, _) => "If"@,
        Expr::Let(_, _) => "Let"@,
    }
}

} // verus!
