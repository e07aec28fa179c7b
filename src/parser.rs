//! A recursive-descent parser with backtracking over a buffer of tokens.
//!
//! Grammar, loosest level first:
//!   statement := "let" IDENT "=" expr | expr
//!   expr      := level1 (("<" | ">") level1)*
//!   level1    := level2 (("+" | "-") level2)*
//!   level2    := factor (("*" | "/") factor)*
//!   factor    := "(" expr ")" | "if" expr "then" expr "else" expr | "-" factor | INT | IDENT
use vstd::prelude::*;
use crate::node::{BinaryOperator, Expr, Node, UnaryOperator};
use crate::token::{Keyword, Lexeme, Token, lexemes_of};

verus! {

/// A parse from a position: the tree and the position after it, or an error message.
pub type ParseResult = Result<(Expr, nat), Seq<char>>;

pub open spec fn end_of_input_message() -> Seq<char> {
    "Unexpected end of input"@
}

pub open spec fn number_message() -> Seq<char> {
    "Expected number"@
}

pub open spec fn identifier_message() -> Seq<char> {
    "Expected an identifier"@
}

pub open spec fn open_paren_message() -> Seq<char> {
    "Expected opening bracket in parenthesized expression"@
}

pub open spec fn close_paren_message() -> Seq<char> {
    "Expected closing bracket in parenthesized expression"@
}

pub open spec fn value_message() -> Seq<char> {
    "Failed to parse value"@
}

pub open spec fn unary_message() -> Seq<char> {
    "Expected a unary operator"@
}

pub open spec fn if_message() -> Seq<char> {
    "Expected 'if' keyword in conditional expression"@
}

pub open spec fn then_message() -> Seq<char> {
    "Expected keyword 'then' after case expression in if statement"@
}

pub open spec fn else_message() -> Seq<char> {
    "Expected keyword 'else' after left expression in if statement"@
}

pub open spec fn let_message() -> Seq<char> {
    "Expected 'let' keyword in binding statement"@
}

pub open spec fn let_identifier_message() -> Seq<char> {
    "Expected an identifier after 'let' keyword"@
}

pub open spec fn equals_message() -> Seq<char> {
    "Expected an equals sign in binding statement"@
}

pub open spec fn trailing_message() -> Seq<char> {
    "Invalid syntax"@
}

/// `INT` at `p`.
pub open spec fn parse_number_at(t: Seq<Lexeme>, p: nat) -> ParseResult {
    if p >= t.len() {
        Err(end_of_input_message())
    } else {
        match t[p as int] {
            Lexeme::Int(n) => Ok((Expr::Int(n), p + 1)),
            _ => Err(number_message()),
        }
    }
}

/// `IDENT` at `p`.
pub open spec fn parse_variable_at(t: Seq<Lexeme>, p: nat) -> ParseResult {
    if p >= t.len() {
        Err(end_of_input_message())
    } else {
        match t[p as int] {
            Lexeme::Identifier(x) => Ok((Expr::Identifier(x), p + 1)),
            _ => Err(identifier_message()),
        }
    }
}

/// `"(" expr ")"` at `p`.
pub open spec fn parse_paren_at(t: Seq<Lexeme>, p: nat) -> ParseResult
    decreases t.len() - p, 0int,
{
    if p >= t.len() {
        Err(end_of_input_message())
    } else if t[p as int] != Lexeme::Paren('(') {
        Err(open_paren_message())
    } else {
        match parse_expr_at(t, p + 1) {
            Err(m) => Err(m),
            Ok((e, q)) => if q < t.len() && t[q as int] == Lexeme::Paren(')') {
                Ok((e, q + 1))
            } else {
                Err(close_paren_message())
            },
        }
    }
}

/// `"-" factor` at `p`.
pub open spec fn parse_unary_at(t: Seq<Lexeme>, p: nat) -> ParseResult
    decreases t.len() - p, 0int,
{
    if p >= t.len() {
        Err(end_of_input_message())
    } else if t[p as int] != Lexeme::Operator('-') {
        Err(unary_message())
    } else {
        match parse_factor_at(t, p + 1) {
            Err(m) => Err(m),
            Ok((e, q)) => Ok((Expr::UnaryOp(UnaryOperator::Negate, Box::new(e)), q)),
        }
    }
}

/// `"if" expr "then" expr "else" expr` at `p`.
pub open spec fn parse_if_at(t: Seq<Lexeme>, p: nat) -> ParseResult
    decreases t.len() - p, 0int,
{
    if p >= t.len() {
        Err(end_of_input_message())
    } else if t[p as int] != Lexeme::Keyword(Keyword::If) {
        Err(if_message())
    } else {
        match parse_expr_at(t, p + 1) {
            Err(m) => Err(m),
            Ok((c, q1)) => if !(p < q1 < t.len() && t[q1 as int] == Lexeme::Keyword(Keyword::Then)) {
                Err(then_message())
            } else {
                match parse_expr_at(t, q1 + 1) {
                    Err(m) => Err(m),
                    Ok((a, q2)) => if !(p < q2 < t.len() && t[q2 as int] == Lexeme::Keyword(
                        Keyword::Else,
                    )) {
                        Err(else_message())
                    } else {
                        match parse_expr_at(t, q2 + 1) {
                            Err(m) => Err(m),
                            Ok((b, q3)) => Ok((Expr::If(Box::new(c), Box::new(a), Box::new(b)), q3)),
                        }
                    },
                }
            },
        }
    }
}

/// `factor` at `p`: the next token picks the alternative.
pub open spec fn parse_factor_at(t: Seq<Lexeme>, p: nat) -> ParseResult
    decreases t.len() - p, 1int,
{
    if p >= t.len() {
        Err(end_of_input_message())
    } else {
        match t[p as int] {
            Lexeme::Paren(c) => if c == '(' {
                parse_paren_at(t, p)
            } else {
                Err(value_message())
            },
            Lexeme::Keyword(k) => if k == Keyword::If {
                parse_if_at(t, p)
            } else {
                Err(value_message())
            },
            Lexeme::Operator(c) => if c == '-' {
                parse_unary_at(t, p)
            } else {
                Err(value_message())
            },
            Lexeme::Int(_) => parse_number_at(t, p),
            Lexeme::Identifier(_) => parse_variable_at(t, p),
        }
    }
}

/// The multiplicative operator that `l` stands for, if any.
pub open spec fn level2_operator(l: Lexeme) -> Option<BinaryOperator> {
    if l == Lexeme::Operator('*') {
        Some(BinaryOperator::Multiply)
    } else if l == Lexeme::Operator('/') {
        Some(BinaryOperator::Divide)
    } else {
        None
    }
}

/// The additive operator that `l` stands for, if any.
pub open spec fn level1_operator(l: Lexeme) -> Option<BinaryOperator> {
    if l == Lexeme::Operator('+') {
        Some(BinaryOperator::Add)
    } else if l == Lexeme::Operator('-') {
        Some(BinaryOperator::Subtract)
    } else {
        None
    }
}

/// The comparison operator that `l` stands for, if any.
pub open spec fn comparison_operator(l: Lexeme) -> Option<BinaryOperator> {
    if l == Lexeme::Operator('>') {
        Some(BinaryOperator::Greater)
    } else if l == Lexeme::Operator('<') {
        Some(BinaryOperator::Less)
    } else {
        None
    }
}

/// `(("*" | "/") factor)*` at `q`, folded leftwards onto `acc`.
pub open spec fn level2_rest(t: Seq<Lexeme>, acc: Expr, q: nat) -> ParseResult
    decreases t.len() - q, 2int,
{
    if q < t.len() && level2_operator(t[q as int]) is Some {
        match parse_factor_at(t, q + 1) {
            Err(m) => Err(m),
            Ok((r, q2)) => if q < q2 <= t.len() {
                level2_rest(
                    t,
                    Expr::BinaryOp(Box::new(acc), level2_operator(t[q as int])->0, Box::new(r)),
                    q2,
                )
            } else {
                Ok((acc, q))
            },
        }
    } else {
        Ok((acc, q))
    }
}

/// `level2` at `p`.
pub open spec fn parse_level2_at(t: Seq<Lexeme>, p: nat) -> ParseResult
    decreases t.len() - p, 2int,
{
    match parse_factor_at(t, p) {
        Err(m) => Err(m),
        Ok((e, q)) => if p < q <= t.len() {
            level2_rest(t, e, q)
        } else {
            Ok((e, q))
        },
    }
}

/// `(("+" | "-") level2)*` at `q`, folded leftwards onto `acc`.
pub open spec fn level1_rest(t: Seq<Lexeme>, acc: Expr, q: nat) -> ParseResult
    decreases t.len() - q, 3int,
{
    if q < t.len() && level1_operator(t[q as int]) is Some {
        match parse_level2_at(t, q + 1) {
            Err(m) => Err(m),
            Ok((r, q2)) => if q < q2 <= t.len() {
                level1_rest(
                    t,
                    Expr::BinaryOp(Box::new(acc), level1_operator(t[q as int])->0, Box::new(r)),
                    q2,
                )
            } else {
                Ok((acc, q))
            },
        }
    } else {
        Ok((acc, q))
    }
}

/// `level1` at `p`.
pub open spec fn parse_level1_at(t: Seq<Lexeme>, p: nat) -> ParseResult
    decreases t.len() - p, 3int,
{
    match parse_level2_at(t, p) {
        Err(m) => Err(m),
        Ok((e, q)) => if p < q <= t.len() {
            level1_rest(t, e, q)
        } else {
            Ok((e, q))
        },
    }
}

/// `(("<" | ">") level1)*` at `q`, folded leftwards onto `acc`.
pub open spec fn expr_rest(t: Seq<Lexeme>, acc: Expr, q: nat) -> ParseResult
    decreases t.len() - q, 4int,
{
    if q < t.len() && comparison_operator(t[q as int]) is Some {
        match parse_level1_at(t, q + 1) {
            Err(m) => Err(m),
            Ok((r, q2)) => if q < q2 <= t.len() {
                expr_rest(
                    t,
                    Expr::BinaryOp(Box::new(acc), comparison_operator(t[q as int])->0, Box::new(r)),
                    q2,
                )
            } else {
                Ok((acc, q))
            },
        }
    } else {
        Ok((acc, q))
    }
}

/// `expr` at `p`.
pub open spec fn parse_expr_at(t: Seq<Lexeme>, p: nat) -> ParseResult
    decreases t.len() - p, 4int,
{
    match parse_level1_at(t, p) {
        Err(m) => Err(m),
        Ok((e, q)) => if p < q <= t.len() {
            expr_rest(t, e, q)
        } else {
            Ok((e, q))
        },
    }
}

/// `"let" IDENT "=" expr` at `p`.
pub open spec fn parse_let_at(t: Seq<Lexeme>, p: nat) -> ParseResult {
    if p >= t.len() {
        Err(end_of_input_message())
    } else if t[p as int] != Lexeme::Keyword(Keyword::Let) {
        Err(let_message())
    } else if !(p + 1 < t.len() && t[p + 1int] is Identifier) {
        Err(let_identifier_message())
    } else if !(p + 2 < t.len() && t[p + 2int] == Lexeme::Operator('=')) {
        Err(equals_message())
    } else {
        match parse_expr_at(t, p + 3) {
            Err(m) => Err(m),
            Ok((e, q)) => Ok((Expr::Let(t[p + 1int]->Identifier_0, Box::new(e)), q)),
        }
    }
}

/// `statement` at `p`.
pub open spec fn parse_statement_at(t: Seq<Lexeme>, p: nat) -> ParseResult {
    if p >= t.len() {
        Err(end_of_input_message())
    } else if t[p as int] == Lexeme::Keyword(Keyword::Let) {
        parse_let_at(t, p)
    } else {
        parse_expr_at(t, p)
    }
}

/// A cursor into a buffer of tokens.
#[derive(Debug)]
pub struct Parser {
    tokens: Vec<Token>,
    index: usize,
}

fn message(s: &str) -> (r: String)
    ensures
        r@ == s@,
{
    String::from_str(s)
}

impl Parser {
    /// The models of the tokens being parsed.
    pub closed spec fn lexemes(&self) -> Seq<Lexeme> {
        lexemes_of(self.tokens@)
    }

    /// The position of the cursor.
    pub closed spec fn position(&self) -> nat {
        self.index as nat
    }

    /// The cursor lies within the buffer or just past its end.
    pub closed spec fn wf(&self) -> bool {
        self.index <= self.tokens.len()
    }

    /// After a parse that started in `before` and gave `r`: the tokens are the same,
    /// and `r` and the cursor agree with the model `s`; a failure leaves the cursor
    /// where it was, a success moves it forward.
    closed spec fn follows(&self, before: Parser, r: Result<Node, String>, s: ParseResult) -> bool {
        &&& self.tokens@ == before.tokens@
        &&& self.wf()
        &&& match r {
            Ok(n) => s is Ok && n@ == s->Ok_0.0 && self.index == s->Ok_0.1 && self.index
                > before.index,
            Err(m) => s is Err && m@ == s->Err_0 && self.index == before.index,
        }
    }

    /// A parser at the start of `tokens`.
    pub fn new(tokens: Vec<Token>) -> (r: Parser)
        ensures
            r.wf(),
            r.lexemes() == lexemes_of(tokens@),
            r.position() == 0,
    {
        Parser { tokens, index: 0 }
    }

    /// `Ok` when every token has been consumed, else the trailing-input error.
    pub fn status(&self) -> (r: Result<(), String>)
        ensures
            match r {
                Ok(_) => self.position() >= self.lexemes().len(),
                Err(m) => self.position() < self.lexemes().len() && m@ == trailing_message(),
            },
    {
        if self.index >= self.tokens.len() {
            Ok(())
        } else {
            Err(message("Invalid syntax"))
        }
    }

    fn peek(&self) -> (r: Result<&Token, String>)
        ensures
            match r {
                Ok(tok) => self.index < self.tokens.len() && *tok == self.tokens@[self.index as int],
                Err(m) => self.index >= self.tokens.len() && m@ == end_of_input_message(),
            },
    {
        if self.index >= self.tokens.len() {
            Err(message("Unexpected end of input"))
        } else {
            Ok(&self.tokens[self.index])
        }
    }
    fn parse_number(&mut self) -> (r: Result<Node, String>)
        requires
            old(self).wf(),
        ensures
            final(self).follows(*old(self), r, parse_number_at(old(self).lexemes(), old(self).index as nat)),
    {
        match self.peek() {
            Err(m) => Err(m),
            Ok(Token::Int(n)) => {
                let v = *n;
                self.index = self.index + 1;
                Ok(Node::Int(v))
            },
            Ok(_) => Err(message("Expected number")),
        }
    }

    fn parse_variable(&mut self) -> (r: Result<Node, String>)
        requires
            old(self).wf(),
        ensures
            final(self).follows(*old(self), r, parse_variable_at(old(self).lexemes(), old(self).index as nat)),
    {
        match self.peek() {
            Err(m) => Err(m),
            Ok(Token::Identifier(x)) => {
                let name = x.clone();
                self.index = self.index + 1;
                Ok(Node::Identifier(name))
            },
            Ok(_) => Err(message("Expected an identifier")),
        }
    }

    fn parse_paren(&mut self) -> (r: Result<Node, String>)
        requires
            old(self).wf(),
        ensures
            final(self).follows(*old(self), r, parse_paren_at(old(self).lexemes(), old(self).index as nat)),
        decreases old(self).tokens.len() - old(self).index, 0int,
    {
        let save_index = self.index;
        match self.peek() {
            Err(m) => return Err(m),
            Ok(Token::Paren('(')) => {},
            Ok(_) => return Err(message("Expected opening bracket in parenthesized expression")),
        }
        self.index = self.index + 1;
        let expr = match self.parse_expr() {
            Ok(e) => e,
            Err(m) => {
                self.index = save_index;
                return Err(m);
            },
        };
        match self.peek() {
            Ok(Token::Paren(')')) => {},
            _ => {
                self.index = save_index;
                return Err(message("Expected closing bracket in parenthesized expression"));
            },
        }
        self.index = self.index + 1;
        Ok(expr)
    }

    fn parse_unary(&mut self) -> (r: Result<Node, String>)
        requires
            old(self).wf(),
        ensures
            final(self).follows(*old(self), r, parse_unary_at(old(self).lexemes(), old(self).index as nat)),
        decreases old(self).tokens.len() - old(self).index, 0int,
    {
        let save_index = self.index;
        match self.peek() {
            Err(m) => return Err(m),
            Ok(Token::Operator('-')) => {},
            Ok(_) => return Err(message("Expected a unary operator")),
        }
        self.index = self.index + 1;
        let expr = match self.parse_factor() {
            Ok(e) => e,
            Err(m) => {
                self.index = save_index;
                return Err(m);
            },
        };
        Ok(Node::UnaryOp(UnaryOperator::Negate, Box::new(expr)))
    }

    fn parse_if(&mut self) -> (r: Result<Node, String>)
        requires
            old(self).wf(),
        ensures
            final(self).follows(*old(self), r, parse_if_at(old(self).lexemes(), old(self).index as nat)),
        decreases old(self).tokens.len() - old(self).index, 0int,
    {
        let save_index = self.index;
        match self.peek() {
            Err(m) => return Err(m),
            Ok(Token::Keyword(Keyword::If)) => {},
            Ok(_) => return Err(message("Expected 'if' keyword in conditional expression")),
        }
        self.index = self.index + 1;
        let case = match self.parse_expr() {
            Ok(e) => e,
            Err(m) => {
                self.index = save_index;
                return Err(m);
            },
        };
        match self.peek() {
            Ok(Token::Keyword(Keyword::Then)) => {},
            _ => {
                self.index = save_index;
                return Err(
                    message("Expected keyword 'then' after case expression in if statement"),
                );
            },
        }
        self.index = self.index + 1;
        let left = match self.parse_expr() {
            Ok(e) => e,
            Err(m) => {
                self.index = save_index;
                return Err(m);
            },
        };
        match self.peek() {
            Ok(Token::Keyword(Keyword::Else)) => {},
            _ => {
                self.index = save_index;
                return Err(
                    message("Expected keyword 'else' after left expression in if statement"),
                );
            },
        }
        self.index = self.index + 1;
        let right = match self.parse_expr() {
            Ok(e) => e,
            Err(m) => {
                self.index = save_index;
                return Err(m);
            },
        };
        Ok(Node::If(Box::new(case), Box::new(left), Box::new(right)))
    }

    fn parse_factor(&mut self) -> (r: Result<Node, String>)
        requires
            old(self).wf(),
        ensures
            final(self).follows(*old(self), r, parse_factor_at(old(self).lexemes(), old(self).index as nat)),
        decreases old(self).tokens.len() - old(self).index, 1int,
    {
        match self.peek() {
            Err(m) => Err(m),
            Ok(Token::Paren('(')) => self.parse_paren(),
            Ok(Token::Keyword(Keyword::If)) => self.parse_if(),
            Ok(Token::Operator('-')) => self.parse_unary(),
            Ok(Token::Int(_)) => self.parse_number(),
            Ok(Token::Identifier(_)) => self.parse_variable(),
            Ok(_) => Err(message("Failed to parse value")),
        }
    }

    fn parse_level2(&mut self) -> (r: Result<Node, String>)
        requires
            old(self).wf(),
        ensures
            final(self).follows(*old(self), r, parse_level2_at(old(self).lexemes(), old(self).index as nat)),
        decreases old(self).tokens.len() - old(self).index, 2int,
    {
        let ghost t = self.lexemes();
        let save_index = self.index;
        let mut result = match self.parse_factor() {
            Ok(e) => e,
            Err(m) => return Err(m),
        };
        loop
            invariant
                self.tokens@ == old(self).tokens@,
                t == self.lexemes(),
                save_index == old(self).index,
                save_index < self.index <= self.tokens.len(),
                parse_level2_at(t, save_index as nat) == level2_rest(t, result@, self.index as nat),
            decreases self.tokens.len() - self.index,
        {
            let op = match self.peek() {
                Ok(Token::Operator('*')) => BinaryOperator::Multiply,
                Ok(Token::Operator('/')) => BinaryOperator::Divide,
                _ => return Ok(result),
            };
            self.index = self.index + 1;
            let right = match self.parse_factor() {
                Ok(e) => e,
                Err(m) => {
                    self.index = save_index;
                    return Err(m);
                },
            };
            result = Node::BinaryOp(Box::new(result), op, Box::new(right));
        }
    }

    fn parse_level1(&mut self) -> (r: Result<Node, String>)
        requires
            old(self).wf(),
        ensures
            final(self).follows(*old(self), r, parse_level1_at(old(self).lexemes(), old(self).index as nat)),
        decreases old(self).tokens.len() - old(self).index, 3int,
    {
        let ghost t = self.lexemes();
        let save_index = self.index;
        let mut result = match self.parse_level2() {
            Ok(e) => e,
            Err(m) => return Err(m),
        };
        loop
            invariant
                self.tokens@ == old(self).tokens@,
                t == self.lexemes(),
                save_index == old(self).index,
                save_index < self.index <= self.tokens.len(),
                parse_level1_at(t, save_index as nat) == level1_rest(t, result@, self.index as nat),
            decreases self.tokens.len() - self.index,
        {
            let op = match self.peek() {
                Ok(Token::Operator('+')) => BinaryOperator::Add,
                Ok(Token::Operator('-')) => BinaryOperator::Subtract,
                _ => return Ok(result),
            };
            self.index = self.index + 1;
            let right = match self.parse_level2() {
                Ok(e) => e,
                Err(m) => {
                    self.index = save_index;
                    return Err(m);
                },
            };
            result = Node::BinaryOp(Box::new(result), op, Box::new(right));
        }
    }

    fn parse_expr(&mut self) -> (r: Result<Node, String>)
        requires
            old(self).wf(),
        ensures
            final(self).follows(*old(self), r, parse_expr_at(old(self).lexemes(), old(self).index as nat)),
        decreases old(self).tokens.len() - old(self).index, 4int,
    {
        let ghost t = self.lexemes();
        let save_index = self.index;
        let mut result = match self.parse_level1() {
            Ok(e) => e,
            Err(m) => return Err(m),
        };
        loop
            invariant
                self.tokens@ == old(self).tokens@,
                t == self.lexemes(),
                save_index == old(self).index,
                save_index < self.index <= self.tokens.len(),
                parse_expr_at(t, save_index as nat) == expr_rest(t, result@, self.index as nat),
            decreases self.tokens.len() - self.index,
        {
            let op = match self.peek() {
                Ok(Token::Operator('>')) => BinaryOperator::Greater,
                Ok(Token::Operator('<')) => BinaryOperator::Less,
                _ => return Ok(result),
            };
            self.index = self.index + 1;
            let right = match self.parse_level1() {
                Ok(e) => e,
                Err(m) => {
                    self.index = save_index;
                    return Err(m);
                },
            };
            result = Node::BinaryOp(Box::new(result), op, Box::new(right));
        }
    }

    fn parse_let(&mut self) -> (r: Result<Node, String>)
        requires
            old(self).wf(),
        ensures
            final(self).follows(*old(self), r, parse_let_at(old(self).lexemes(), old(self).index as nat)),
    {
        let save_index = self.index;
        match self.peek() {
            Err(m) => return Err(m),
            Ok(Token::Keyword(Keyword::Let)) => {},
            Ok(_) => return Err(message("Expected 'let' keyword in binding statement")),
        }
        self.index = self.index + 1;
        let ident = match self.peek() {
            Ok(Token::Identifier(x)) => x.clone(),
            _ => {
                self.index = save_index;
                return Err(message("Expected an identifier after 'let' keyword"));
            },
        };
        self.index = self.index + 1;
        match self.peek() {
            Ok(Token::Operator('=')) => {},
            _ => {
                self.index = save_index;
                return Err(message("Expected an equals sign in binding statement"));
            },
        }
        self.index = self.index + 1;
        let expr = match self.parse_expr() {
            Ok(e) => e,
            Err(m) => {
                self.index = save_index;
                return Err(m);
            },
        };
        Ok(Node::Let(ident, Box::new(expr)))
    }

    /// Parses one statement from the cursor: a binding when it starts with `let`, else an
    /// expression. On success the cursor stands after it (see `status` for what is left);
    /// on failure it has not moved.
    pub fn parse_all(&mut self) -> (r: Result<Node, String>)
        requires
            old(self).wf(),
        ensures
            final(self).wf(),
            final(self).lexemes() == old(self).lexemes(),
            match (r, parse_statement_at(old(self).lexemes(), old(self).position())) {
                (Ok(n), Ok((e, q))) => n@ == e && final(self).position() == q,
                (Err(m), Err(sm)) => m@ == sm && final(self).position() == old(self).position(),
                _ => false,
            },
    {
        match self.peek() {
            Err(m) => Err(m),
            Ok(Token::Keyword(Keyword::Let)) => self.parse_let(),
            Ok(_) => self.parse_expr(),
        }
    }
}

} // verus!
