//! Properties of the language that hold for all inputs.
use vstd::prelude::*;
use crate::interpreter::interpret;
use crate::lexer::{
    all_digits, alnum_char, decimal_of, digit_char, digits_value, keyword_of, next_token,
    single_token, skip_space, space_char, tokens_from, tokens_of, word_end,
};
use crate::node::{
    BinaryOperator, Expr, divide_by_zero_message, evaluate, is_value, unbound_message,
};
use crate::parser::{
    expr_rest, level1_rest, level2_rest, parse_expr_at, parse_factor_at, parse_let_at,
    parse_level1_at, parse_level2_at, parse_number_at, parse_statement_at, parse_variable_at,
};
use crate::token::{Keyword, Lexeme};

verus! {

proof fn lemma_decimal_digits(n: nat)
    ensures
        decimal_of(n).len() >= 1,
        all_digits(decimal_of(n)),
        digits_value(decimal_of(n)) == n,
    decreases n,
{
    let s = decimal_of(n);
    if n < 10 {
        let c = ('0' as nat + n) as char;
        assert(s == seq![c]);
        assert(s.drop_last() =~= Seq::<char>::empty());
        assert(c as int == '0' as int + n);
        assert(s.last() == c);
        assert(digits_value(Seq::<char>::empty()) == 0);
        assert(digits_value(s) == digits_value(s.drop_last()) * 10 + (c as int - '0' as int));
    } else {
        lemma_decimal_digits(n / 10);
        let p = decimal_of(n / 10);
        let c = ('0' as nat + n % 10) as char;
        assert(s == p.push(c));
        assert(s.drop_last() =~= p);
        assert(c as int == '0' as int + n % 10);
        assert(s.last() == c);
        assert(digits_value(s) == digits_value(p) * 10 + (c as int - '0' as int));
        vstd::arithmetic::div_mod::lemma_fundamental_div_mod(n as int, 10);
        assert forall|k: int| 0 <= k < s.len() implies digit_char(#[trigger] s[k]) by {
            if k < p.len() {
                assert(s[k] == p[k]);
            }
        }
    }
}

proof fn lemma_word_end_at(s: Seq<char>, i: nat, e: nat)
    requires
        i <= e <= s.len(),
        forall|k: int| i <= k < e ==> alnum_char(#[trigger] s[k]),
        e < s.len() ==> !alnum_char(s[e as int]),
    ensures
        word_end(s, i) == e,
    decreases s.len() - i,
{
    if i < e {
        lemma_word_end_at(s, i + 1, e);
    }
}

/// A line that is the decimal form of a non-negative `n` evaluates to `Int(n)`, and
/// leaves the table as it was.
pub proof fn lemma_literal_evaluates(n: i32, env: Map<Seq<char>, i32>)
    requires
        0 <= n,
    ensures
        interpret(decimal_of(n as nat), env) == (Ok::<Expr, Seq<char>>(Expr::Int(n)), env),
{
    let s = decimal_of(n as nat);
    lemma_decimal_digits(n as nat);
    assert(digit_char(s[0]));
    assert(skip_space(s, 0) == 0);
    assert(single_token(s[0]) is None);
    assert forall|k: int| 0 <= k < s.len() implies alnum_char(#[trigger] s[k]) by {
        assert(digit_char(s[k]));
    }
    lemma_word_end_at(s, 0, s.len());
    assert(s.subrange(0, s.len() as int) =~= s);
    assert(next_token(s, 0) == Some(Ok::<(Lexeme, nat), Seq<char>>((Lexeme::Int(n), s.len()))));
    assert(skip_space(s, s.len()) == s.len());
    assert(next_token(s, s.len()) is None);
    assert(tokens_from(s, s.len()) == Ok::<Seq<Lexeme>, Seq<char>>(Seq::empty()));
    let t = seq![Lexeme::Int(n)];
    assert(seq![Lexeme::Int(n)] + Seq::<Lexeme>::empty() =~= t);
    assert(tokens_of(s) == Ok::<Seq<Lexeme>, Seq<char>>(t));
    let ok = Ok::<(Expr, nat), Seq<char>>((Expr::Int(n), 1));
    assert(parse_number_at(t, 0) == ok);
    assert(parse_factor_at(t, 0) == ok);
    assert(level2_rest(t, Expr::Int(n), 1) == ok);
    assert(parse_level2_at(t, 0) == ok);
    assert(level1_rest(t, Expr::Int(n), 1) == ok);
    assert(parse_level1_at(t, 0) == ok);
    assert(expr_rest(t, Expr::Int(n), 1) == ok);
    assert(parse_expr_at(t, 0) == ok);
    assert(parse_statement_at(t, 0) == ok);
}

/// The line `a/0`, for the decimal form of any non-negative `a`, evaluates to the
/// divide-by-zero error and leaves the table as it was.
pub proof fn lemma_literal_divided_by_zero(a: i32, env: Map<Seq<char>, i32>)
    requires
        0 <= a,
    ensures
        interpret(decimal_of(a as nat) + "/0"@, env) == (
            Ok::<Expr, Seq<char>>(Expr::Error(divide_by_zero_message())),
            env,
        ),
{
    reveal_strlit("/0");
    let d = decimal_of(a as nat);
    let s = d + "/0"@;
    let n = d.len();
    lemma_decimal_digits(a as nat);
    assert(s.len() == n + 2);
    assert(s[n as int] == '/');
    assert(s[n + 1int] == '0');
    assert forall|k: int| 0 <= k < n implies alnum_char(#[trigger] s[k]) && s[k] == d[k] by {
        assert(digit_char(d[k]));
    }
    assert(skip_space(s, 0) == 0);
    lemma_word_end_at(s, 0, n);
    assert(s.subrange(0, n as int) =~= d);
    assert(next_token(s, 0) == Some(Ok::<(Lexeme, nat), Seq<char>>((Lexeme::Int(a), n))));
    assert(skip_space(s, n) == n);
    assert(next_token(s, n) == Some(
        Ok::<(Lexeme, nat), Seq<char>>((Lexeme::Operator('/'), n + 1)),
    ));
    assert(skip_space(s, n + 1) == n + 1);
    lemma_word_end_at(s, n + 1, n + 2);
    let z = s.subrange(n + 1int, n + 2int);
    assert(z =~= seq!['0']);
    assert(z.drop_last() =~= Seq::<char>::empty());
    assert(digits_value(Seq::<char>::empty()) == 0);
    assert(digits_value(z) == 0);
    assert(all_digits(z));
    assert(next_token(s, n + 1) == Some(
        Ok::<(Lexeme, nat), Seq<char>>((Lexeme::Int(0), n + 2)),
    ));
    assert(skip_space(s, n + 2) == n + 2);
    assert(next_token(s, n + 2) is None);
    let t = seq![Lexeme::Int(a), Lexeme::Operator('/'), Lexeme::Int(0)];
    assert(tokens_from(s, n + 2) == Ok::<Seq<Lexeme>, Seq<char>>(Seq::empty()));
    assert(seq![Lexeme::Int(0)] + Seq::<Lexeme>::empty() =~= seq![Lexeme::Int(0)]);
    assert(tokens_from(s, n + 1) == Ok::<Seq<Lexeme>, Seq<char>>(seq![Lexeme::Int(0)]));
    assert(seq![Lexeme::Operator('/')] + seq![Lexeme::Int(0)] =~= seq![
        Lexeme::Operator('/'),
        Lexeme::Int(0),
    ]);
    assert(tokens_from(s, n) == Ok::<Seq<Lexeme>, Seq<char>>(
        seq![Lexeme::Operator('/'), Lexeme::Int(0)],
    ));
    assert(seq![Lexeme::Int(a)] + seq![Lexeme::Operator('/'), Lexeme::Int(0)] =~= t);
    assert(tokens_of(s) == Ok::<Seq<Lexeme>, Seq<char>>(t));
    let q = Expr::BinaryOp(Box::new(Expr::Int(a)), BinaryOperator::Divide, Box::new(Expr::Int(0)));
    let ok = Ok::<(Expr, nat), Seq<char>>((q, 3));
    assert(parse_number_at(t, 0) == Ok::<(Expr, nat), Seq<char>>((Expr::Int(a), 1)));
    assert(parse_factor_at(t, 0) == Ok::<(Expr, nat), Seq<char>>((Expr::Int(a), 1)));
    assert(parse_number_at(t, 2) == Ok::<(Expr, nat), Seq<char>>((Expr::Int(0), 3)));
    assert(parse_factor_at(t, 2) == Ok::<(Expr, nat), Seq<char>>((Expr::Int(0), 3)));
    assert(level2_rest(t, q, 3) == ok);
    assert(level2_rest(t, Expr::Int(a), 1) == ok);
    assert(parse_level2_at(t, 0) == ok);
    assert(level1_rest(t, q, 3) == ok);
    assert(parse_level1_at(t, 0) == ok);
    assert(expr_rest(t, q, 3) == ok);
    assert(parse_expr_at(t, 0) == ok);
    assert(parse_statement_at(t, 0) == ok);
    assert(evaluate(Expr::Int(a), env) == (Expr::Int(a), env));
    assert(evaluate(Expr::Int(0), env) == (Expr::Int(0), env));
}

/// Dividing by the literal zero gives an error value, whatever the left operand is.
pub proof fn lemma_divide_by_zero(a: Expr, env: Map<Seq<char>, i32>)
    ensures
        evaluate(Expr::BinaryOp(Box::new(a), BinaryOperator::Divide, Box::new(Expr::Int(0))), env).0 is Error,
{
    let (_, env1) = evaluate(a, env);
    assert(evaluate(Expr::Int(0), env1) == (Expr::Int(0), env1));
}

/// After `let x = a`, `x` evaluates to `a`; a second binding `let x = b` replaces it.
pub proof fn lemma_binding_overwrites(x: Seq<char>, a: i32, b: i32, env: Map<Seq<char>, i32>)
    ensures
        ({
            let (_, env1) = evaluate(Expr::Let(x, Box::new(Expr::Int(a))), env);
            let (_, env2) = evaluate(Expr::Let(x, Box::new(Expr::Int(b))), env1);
            &&& evaluate(Expr::Identifier(x), env1).0 == Expr::Int(a)
            &&& evaluate(Expr::Identifier(x), env2).0 == Expr::Int(b)
        }),
{
    assert(evaluate(Expr::Int(a), env) == (Expr::Int(a), env));
    let env1 = env.insert(x, a);
    assert(evaluate(Expr::Int(b), env1) == (Expr::Int(b), env1));
}

/// A word that the lexer reads as a name: letters and digits, not all digits, and no keyword.
pub open spec fn identifier_word(x: Seq<char>) -> bool {
    &&& x.len() > 0
    &&& forall|k: int| 0 <= k < x.len() ==> alnum_char(#[trigger] x[k])
    &&& !all_digits(x)
    &&& keyword_of(x) is None
}

/// The line `let x = n`.
pub open spec fn binding_line(x: Seq<char>, n: nat) -> Seq<char> {
    "let "@ + x + " = "@ + decimal_of(n)
}

proof fn lemma_name_line(x: Seq<char>, env: Map<Seq<char>, i32>)
    requires
        identifier_word(x),
    ensures
        interpret(x, env) == (if env.contains_key(x) {
            (Ok::<Expr, Seq<char>>(Expr::Int(env[x])), env)
        } else {
            (Ok::<Expr, Seq<char>>(Expr::Error(unbound_message(x))), env)
        }),
{
    assert(alnum_char(x[0]));
    assert(skip_space(x, 0) == 0);
    lemma_word_end_at(x, 0, x.len());
    assert(x.subrange(0, x.len() as int) =~= x);
    assert(next_token(x, 0) == Some(Ok::<(Lexeme, nat), Seq<char>>((Lexeme::Identifier(x), x.len()))));
    assert(next_token(x, x.len()) is None);
    let t = seq![Lexeme::Identifier(x)];
    assert(tokens_from(x, x.len()) == Ok::<Seq<Lexeme>, Seq<char>>(Seq::empty()));
    assert(seq![Lexeme::Identifier(x)] + Seq::<Lexeme>::empty() =~= t);
    assert(tokens_of(x) == Ok::<Seq<Lexeme>, Seq<char>>(t));
    let e = Expr::Identifier(x);
    let ok = Ok::<(Expr, nat), Seq<char>>((e, 1));
    assert(parse_variable_at(t, 0) == ok);
    assert(parse_factor_at(t, 0) == ok);
    assert(level2_rest(t, e, 1) == ok);
    assert(parse_level2_at(t, 0) == ok);
    assert(level1_rest(t, e, 1) == ok);
    assert(parse_level1_at(t, 0) == ok);
    assert(expr_rest(t, e, 1) == ok);
    assert(parse_expr_at(t, 0) == ok);
    assert(parse_statement_at(t, 0) == ok);
}

proof fn lemma_binding_line(x: Seq<char>, n: i32, env: Map<Seq<char>, i32>)
    requires
        identifier_word(x),
        0 <= n,
    ensures
        interpret(binding_line(x, n as nat), env) == (Ok::<Expr, Seq<char>>(Expr::Int(n)), env.insert(x, n)),
{
    reveal_strlit("let ");
    reveal_strlit(" = ");
    reveal_strlit("let");
    let d = decimal_of(n as nat);
    lemma_decimal_digits(n as nat);
    let s = binding_line(x, n as nat);
    let l = x.len();
    let m = d.len();
    assert(s.len() == l + m + 7);
    assert(s[0] == 'l' && s[1] == 'e' && s[2] == 't' && s[3] == ' ');
    assert forall|k: int| 0 <= k < l implies #[trigger] s[k + 4] == x[k] by {}
    assert(s[l + 4int] == ' ' && s[l + 5int] == '=' && s[l + 6int] == ' ');
    assert forall|k: int| 0 <= k < m implies #[trigger] s[k + l + 7] == d[k] by {}
    // `let`
    assert(skip_space(s, 0) == 0);
    lemma_word_end_at(s, 0, 3);
    assert(s.subrange(0, 3) =~= "let"@);
    assert(!all_digits(s.subrange(0, 3)));
    assert(next_token(s, 0) == Some(
        Ok::<(Lexeme, nat), Seq<char>>((Lexeme::Keyword(Keyword::Let), 3)),
    ));
    // the name
    assert(s[4] == x[0]);
    assert(skip_space(s, 4) == 4);
    assert(skip_space(s, 3) == 4);
    assert forall|k: int| 4 <= k < l + 4 implies alnum_char(#[trigger] s[k]) by {
        assert(s[(k - 4) + 4] == x[k - 4]);
    }
    lemma_word_end_at(s, 4, l + 4);
    assert(s.subrange(4, l + 4int) =~= x) by {
        assert forall|k: int| 0 <= k < l implies s.subrange(4, l + 4int)[k] == x[k] by {
            assert(s[k + 4] == x[k]);
        }
    }
    assert(next_token(s, 3) == Some(
        Ok::<(Lexeme, nat), Seq<char>>((Lexeme::Identifier(x), l + 4)),
    ));
    // `=`
    assert(skip_space(s, l + 5) == l + 5);
    assert(skip_space(s, l + 4) == l + 5);
    assert(next_token(s, l + 4) == Some(
        Ok::<(Lexeme, nat), Seq<char>>((Lexeme::Operator('='), l + 6)),
    ));
    // the number
    assert(s[l + 7 + 0int] == d[0]);
    assert(digit_char(d[0]));
    assert(skip_space(s, l + 7) == l + 7);
    assert(skip_space(s, l + 6) == l + 7);
    assert forall|k: int| l + 7 <= k < s.len() implies alnum_char(#[trigger] s[k]) by {
        assert(s[(k - l - 7) + l + 7] == d[k - l - 7]);
        assert(digit_char(d[k - l - 7]));
    }
    lemma_word_end_at(s, l + 7, s.len());
    assert(s.subrange(l + 7int, s.len() as int) =~= d) by {
        assert forall|k: int| 0 <= k < m implies s.subrange(l + 7int, s.len() as int)[k] == d[k] by {
            assert(s[k + l + 7] == d[k]);
        }
    }
    assert(next_token(s, l + 6) == Some(
        Ok::<(Lexeme, nat), Seq<char>>((Lexeme::Int(n), s.len())),
    ));
    assert(next_token(s, s.len()) is None);
    // all the tokens
    let t = seq![
        Lexeme::Keyword(Keyword::Let),
        Lexeme::Identifier(x),
        Lexeme::Operator('='),
        Lexeme::Int(n),
    ];
    assert(tokens_from(s, s.len()) == Ok::<Seq<Lexeme>, Seq<char>>(Seq::empty()));
    assert(seq![Lexeme::Int(n)] + Seq::<Lexeme>::empty() =~= t.subrange(3, 4));
    assert(seq![Lexeme::Operator('=')] + t.subrange(3, 4) =~= t.subrange(2, 4));
    assert(seq![Lexeme::Identifier(x)] + t.subrange(2, 4) =~= t.subrange(1, 4));
    assert(seq![Lexeme::Keyword(Keyword::Let)] + t.subrange(1, 4) =~= t.subrange(0, 4));
    assert(tokens_from(s, l + 6) == Ok::<Seq<Lexeme>, Seq<char>>(t.subrange(3, 4)));
    assert(tokens_from(s, l + 4) == Ok::<Seq<Lexeme>, Seq<char>>(t.subrange(2, 4)));
    assert(tokens_from(s, 3) == Ok::<Seq<Lexeme>, Seq<char>>(t.subrange(1, 4)));
    assert(tokens_from(s, 0) == Ok::<Seq<Lexeme>, Seq<char>>(t.subrange(0, 4)));
    assert(t.subrange(0, 4) =~= t);
    // the tree
    let ok = Ok::<(Expr, nat), Seq<char>>((Expr::Int(n), 4));
    assert(parse_number_at(t, 3) == ok);
    assert(parse_factor_at(t, 3) == ok);
    assert(level2_rest(t, Expr::Int(n), 4) == ok);
    assert(parse_level2_at(t, 3) == ok);
    assert(level1_rest(t, Expr::Int(n), 4) == ok);
    assert(parse_level1_at(t, 3) == ok);
    assert(expr_rest(t, Expr::Int(n), 4) == ok);
    assert(parse_expr_at(t, 3) == ok);
    assert(parse_let_at(t, 0) == Ok::<(Expr, nat), Seq<char>>(
        (Expr::Let(x, Box::new(Expr::Int(n))), 4),
    ));
    assert(evaluate(Expr::Int(n), env) == (Expr::Int(n), env));
}

/// For any name `x`: after the line `let x = a`, the line `x` evaluates to `a`; after a
/// further `let x = b`, it evaluates to `b`.
pub proof fn lemma_binding_lines_overwrite(
    x: Seq<char>,
    a: i32,
    b: i32,
    env: Map<Seq<char>, i32>,
)
    requires
        identifier_word(x),
        0 <= a,
        0 <= b,
    ensures
        ({
            let env1 = interpret(binding_line(x, a as nat), env).1;
            let env2 = interpret(binding_line(x, b as nat), env1).1;
            &&& interpret(x, env1).0 == Ok::<Expr, Seq<char>>(Expr::Int(a))
            &&& interpret(x, env2).0 == Ok::<Expr, Seq<char>>(Expr::Int(b))
        }),
{
    lemma_binding_line(x, a, env);
    let env1 = env.insert(x, a);
    lemma_name_line(x, env1);
    lemma_binding_line(x, b, env1);
    lemma_name_line(x, env1.insert(x, b));
}

/// A name that is not bound evaluates to an error whose message holds the name; so does
/// a line that is just that name.
pub proof fn lemma_unbound_identifier(x: Seq<char>, env: Map<Seq<char>, i32>)
    requires
        !env.contains_key(x),
    ensures
        evaluate(Expr::Identifier(x), env) == (Expr::Error(unbound_message(x)), env),
        identifier_word(x) ==> interpret(x, env) == (
            Ok::<Expr, Seq<char>>(Expr::Error(unbound_message(x))),
            env,
        ),
        unbound_message(x).subrange(
            "Variable '"@.len() as int,
            ("Variable '"@.len() + x.len()) as int,
        ) == x,
{
    if identifier_word(x) {
        lemma_name_line(x, env);
    }
    assert(unbound_message(x).subrange("Variable '"@.len() as int, ("Variable '"@.len() + x.len()) as int)
        =~= x);
}

/// Evaluating a value again gives the same value and leaves the table as it was.
pub proof fn lemma_value_is_fixed(v: Expr, env: Map<Seq<char>, i32>)
    requires
        is_value(v),
    ensures
        evaluate(v, env) == (v, env),
{
}

/// Evaluation always ends in a value: an integer or an error.
pub proof fn lemma_evaluates_to_value(e: Expr, env: Map<Seq<char>, i32>)
    ensures
        is_value(evaluate(e, env).0),
    decreases e,
{
    match e {
        Expr::BinaryOp(l, op, r) => {
            let (lv, env1) = evaluate(*l, env);
            lemma_evaluates_to_value(*l, env);
            lemma_evaluates_to_value(*r, env1);
        },
        Expr::UnaryOp(op, x) => {
            lemma_evaluates_to_value(*x, env);
        },
        Expr::If(c, t, f) => {
            let (cv, env1) = evaluate(*c, env);
            lemma_evaluates_to_value(*c, env);
            lemma_evaluates_to_value(*t, env1);
            lemma_evaluates_to_value(*f, env1);
        },
        Expr::Let(x, b) => {
            lemma_evaluates_to_value(*b, env);
        },
        _ => {},
    }
}

} // verus!
