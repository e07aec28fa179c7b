//! Splits one line of text into tokens.
use vstd::prelude::*;
use crate::token::{Keyword, Lexeme, Token};

verus! {

/// What `char::is_ascii_whitespace` accepts.
pub open spec fn space_char(c: char) -> bool {
    c == ' ' || c == '\t' || c == '\n' || c == '\x0C' || c == '\r'
}

/// What `char::is_ascii_digit` accepts.
pub open spec fn digit_char(c: char) -> bool {
    '0' <= c <= '9'
}

/// What `char::is_ascii_alphanumeric` accepts.
pub open spec fn alnum_char(c: char) -> bool {
    ('a' <= c <= 'z') || ('A' <= c <= 'Z') || digit_char(c)
}

/// The token that a lone character makes: an operator or a parenthesis.
pub open spec fn single_token(c: char) -> Option<Lexeme> {
    if c == '=' || c == '+' || c == '-' || c == '*' || c == '/' || c == '>' || c == '<' {
        Some(Lexeme::Operator(c))
    } else if c == '(' || c == ')' {
        Some(Lexeme::Paren(c))
    } else {
        None
    }
}

/// The first position at or after `i` that holds no whitespace.
pub open spec fn skip_space(s: Seq<char>, i: nat) -> nat
    decreases s.len() - i,
{
    if i < s.len() && space_char(s[i as int]) {
        skip_space(s, i + 1)
    } else {
        i
    }
}

/// The end of the run of ASCII letters and digits that starts at `i`.
pub open spec fn word_end(s: Seq<char>, i: nat) -> nat
    decreases s.len() - i,
{
    if i < s.len() && alnum_char(s[i as int]) {
        word_end(s, i + 1)
    } else {
        i
    }
}

pub open spec fn all_digits(w: Seq<char>) -> bool {
    forall|k: int| 0 <= k < w.len() ==> digit_char(#[trigger] w[k])
}

/// The number that a run of decimal digits spells.
pub open spec fn digits_value(w: Seq<char>) -> int
    decreases w.len(),
{
    if w.len() == 0 {
        0
    } else {
        digits_value(w.drop_last()) * 10 + (w.last() as int - '0' as int)
    }
}

pub open spec fn keyword_of(w: Seq<char>) -> Option<Keyword> {
    if w == "let"@ {
        Some(Keyword::Let)
    } else if w == "if"@ {
        Some(Keyword::If)
    } else if w == "then"@ {
        Some(Keyword::Then)
    } else if w == "else"@ {
        Some(Keyword::Else)
    } else {
        None
    }
}

/// The decimal digits of `n`, without sign or padding.
pub open spec fn decimal_of(n: nat) -> Seq<char>
    decreases n,
{
    if n < 10 {
        seq![('0' as nat + n) as char]
    } else {
        decimal_of(n / 10).push(('0' as nat + n % 10) as char)
    }
}

pub open spec fn unexpected_message(c: Seq<char>, column: nat) -> Seq<char> {
    "Unexpected character '"@ + c + "' at column "@ + decimal_of(column)
}

pub open spec fn range_message(w: Seq<char>, column: nat) -> Seq<char> {
    "Integer literal '"@ + w + "' at column "@ + decimal_of(column) + " is out of range"@
}

/// The token that follows position `i` of `s` and the position after it, `None` at the
/// end of the line, or the lexical error found there.
pub open spec fn next_token(s: Seq<char>, i: nat) -> Option<Result<(Lexeme, nat), Seq<char>>> {
    let j = skip_space(s, i);
    if j >= s.len() {
        None
    } else if single_token(s[j as int]) is Some {
        Some(Ok((single_token(s[j as int])->0, j + 1)))
    } else {
        let e = word_end(s, j);
        let w = s.subrange(j as int, e as int);
        if e == j {
            Some(Err(unexpected_message(s.subrange(j as int, j + 1int), j + 1)))
        } else if all_digits(w) {
            if digits_value(w) <= i32::MAX {
                Some(Ok((Lexeme::Int(digits_value(w) as i32), e)))
            } else {
                Some(Err(range_message(w, j + 1)))
            }
        } else if keyword_of(w) is Some {
            Some(Ok((Lexeme::Keyword(keyword_of(w)->0), e)))
        } else {
            Some(Ok((Lexeme::Identifier(w), e)))
        }
    }
}

/// All the tokens from position `i` of `s` on, or the first lexical error.
pub open spec fn tokens_from(s: Seq<char>, i: nat) -> Result<Seq<Lexeme>, Seq<char>>
    decreases s.len() - i,
{
    match next_token(s, i) {
        None => Ok(Seq::empty()),
        Some(Err(m)) => Err(m),
        Some(Ok((l, k))) => if i < k <= s.len() {
            match tokens_from(s, k) {
                Ok(rest) => Ok(seq![l] + rest),
                Err(m) => Err(m),
            }
        } else {
            Ok(seq![l])
        },
    }
}

/// The tokens of a whole line, or its first lexical error.
pub open spec fn tokens_of(s: Seq<char>) -> Result<Seq<Lexeme>, Seq<char>> {
    tokens_from(s, 0)
}

/// `r` with `done` put in front of its tokens.
pub open spec fn after(done: Seq<Lexeme>, r: Result<Seq<Lexeme>, Seq<char>>) -> Result<
    Seq<Lexeme>,
    Seq<char>,
> {
    match r {
        Ok(rest) => Ok(done + rest),
        Err(m) => Err(m),
    }
}

proof fn lemma_digits_value_prefix(w: Seq<char>, k: int)
    requires
        0 <= k <= w.len(),
        all_digits(w),
    ensures
        0 <= digits_value(w.take(k)) <= digits_value(w),
    decreases w.len(),
{
    if w.len() > 0 {
        if k == w.len() {
            assert(w.take(k) =~= w);
            lemma_digits_value_prefix(w.drop_last(), k - 1);
        } else {
            assert(w.drop_last().take(k) =~= w.take(k));
            lemma_digits_value_prefix(w.drop_last(), k);
        }
        assert(w.take(w.len() - 1) =~= w.drop_last());
    }
}

/// Relies on `usize`'s `Display`: the decimal digits, without sign or padding.
#[verifier::external_body]
fn decimal(n: usize) -> (r: String)
    ensures
        r@ == decimal_of(n as nat),
{
    n.to_string()
}

fn is_space(c: char) -> (r: bool)
    ensures
        r == space_char(c),
{
    c == ' ' || c == '\t' || c == '\n' || c == '\x0C' || c == '\r'
}

fn is_alnum(c: char) -> (r: bool)
    ensures
        r == alnum_char(c),
{
    ('a' <= c && c <= 'z') || ('A' <= c && c <= 'Z') || ('0' <= c && c <= '9')
}

/// A cursor over one line of text.
#[derive(Debug)]
pub struct Lexer<'a> {
    input: &'a str,
    length: usize,
    index: usize,
}

impl<'a> Lexer<'a> {
    /// The text being split.
    pub closed spec fn text(&self) -> Seq<char> {
        self.input@
    }

    /// The position of the cursor, in characters.
    pub closed spec fn position(&self) -> nat {
        self.index as nat
    }

    pub closed spec fn wf(&self) -> bool {
        &&& self.length == self.input@.len()
        &&& self.index <= self.length
    }

    /// A lexer at the start of `input`.
    pub fn new(input: &'a str) -> (r: Lexer<'a>)
        ensures
            r.wf(),
            r.text() == input@,
            r.position() == 0,
    {
        Lexer { input, length: input.unicode_len(), index: 0 }
    }

    /// The next token, `None` at the end of the line, or the lexical error found at
    /// the cursor (which then stays there).
    #[verifier::loop_isolation(false)]
    pub fn next(&mut self) -> (r: Option<Result<Token, String>>)
        requires
            old(self).wf(),
        ensures
            final(self).wf(),
            final(self).text() == old(self).text(),
            match (r, next_token(old(self).text(), old(self).position())) {
                (None, None) => final(self).position() == old(self).text().len(),
                (Some(Ok(tok)), Some(Ok((l, k)))) => tok@ == l && final(self).position() == k
                    && k > old(self).position(),
                (Some(Err(m)), Some(Err(sm))) => m@ == sm && final(self).position() == skip_space(
                    old(self).text(),
                    old(self).position(),
                ),
                _ => false,
            },
    {
        let ghost s = self.input@;
        let ghost i0 = self.index as nat;
        while self.index < self.length && is_space(self.input.get_char(self.index))
            invariant
                self.wf(),
                self.input@ == s,
                i0 <= self.index,
                skip_space(s, i0) == skip_space(s, self.index as nat),
            decreases self.length - self.index,
        {
            self.index = self.index + 1;
        }
        if self.index >= self.length {
            return None;
        }
        let j = self.index;
        let c = self.input.get_char(j);
        if c == '=' || c == '+' || c == '-' || c == '*' || c == '/' || c == '>' || c == '<' {
            self.index = j + 1;
            return Some(Ok(Token::Operator(c)));
        }
        if c == '(' || c == ')' {
            self.index = j + 1;
            return Some(Ok(Token::Paren(c)));
        }
        let mut e = j;
        while e < self.length && is_alnum(self.input.get_char(e))
            invariant
                self.wf(),
                self.input@ == s,
                j <= e <= self.length,
                word_end(s, j as nat) == word_end(s, e as nat),
                forall|k: int| j <= k < e ==> alnum_char(#[trigger] s[k]),
            decreases self.length - e,
        {
            e = e + 1;
        }
        let ghost w = s.subrange(j as int, e as int);
        if e == j {
            let mut m = String::from_str("Unexpected character '");
            m.append(self.input.substring_char(j, j + 1));
            m.append("' at column ");
            let column = decimal(j + 1);
            m.append(column.as_str());
            return Some(Err(m));
        }
        let mut k = j;
        let mut digits = true;
        while k < e
            invariant
                self.wf(),
                self.input@ == s,
                j <= k <= e <= self.length,
                digits == all_digits(s.subrange(j as int, k as int)),
            decreases e - k,
        {
            let d = self.input.get_char(k);
            if !('0' <= d && d <= '9') {
                digits = false;
            }
            k = k + 1;
            proof {
                let a = s.subrange(j as int, k - 1);
                let b = s.subrange(j as int, k as int);
                assert(b =~= a.push(d));
                if all_digits(b) {
                    assert forall|q: int| 0 <= q < a.len() implies digit_char(#[trigger] a[q]) by {
                        assert(b[q] == a[q]);
                    }
                    assert(b[a.len() as int] == d);
                }
                if all_digits(a) && digit_char(d) {
                    assert forall|q: int| 0 <= q < b.len() implies digit_char(#[trigger] b[q]) by {
                        if q < a.len() {
                            assert(b[q] == a[q]);
                        }
                    }
                }
            }
        }
        let word = self.input.substring_char(j, e);
        if digits {
            let mut value: i64 = 0;
            let mut k = j;
            while k < e
                invariant
                    self.wf(),
                    self.input@ == s,
                    j <= k <= e <= self.length,
                    w == s.subrange(j as int, e as int),
                    all_digits(w),
                    value == digits_value(s.subrange(j as int, k as int)),
                    0 <= value <= i32::MAX,
                decreases e - k,
            {
                let d = self.input.get_char(k);
                proof {
                    assert(w[k - j] == d);
                }
                value = value * 10 + (d as u32 - '0' as u32) as i64;
                k = k + 1;
                proof {
                    assert(s.subrange(j as int, k as int).drop_last() =~= s.subrange(j as int, k - 1));
                }
                if value > i32::MAX as i64 {
                    proof {
                        assert(w.take(k - j) =~= s.subrange(j as int, k as int));
                        lemma_digits_value_prefix(w, k - j);
                    }
                    let mut m = String::from_str("Integer literal '");
                    m.append(word);
                    m.append("' at column ");
                    let column = decimal(j + 1);
                    m.append(column.as_str());
                    m.append(" is out of range");
                    return Some(Err(m));
                }
            }
            self.index = e;
            return Some(Ok(Token::Int(value as i32)));
        }
        let owned = String::from_str(word);
        let let_word = String::from_str("let");
        let if_word = String::from_str("if");
        let then_word = String::from_str("then");
        let else_word = String::from_str("else");
        self.index = e;
        if owned == let_word {
            Some(Ok(Token::Keyword(Keyword::Let)))
        } else if owned == if_word {
            Some(Ok(Token::Keyword(Keyword::If)))
        } else if owned == then_word {
            Some(Ok(Token::Keyword(Keyword::Then)))
        } else if owned == else_word {
            Some(Ok(Token::Keyword(Keyword::Else)))
        } else {
            Some(Ok(Token::Identifier(owned)))
        }
    }
}

/// Splits `input` into tokens, stopping at the first lexical error.
pub fn tokenize(input: &str) -> (r: Result<Vec<Token>, String>)
    ensures
        match (r, tokens_of(input@)) {
            (Ok(v), Ok(t)) => v@.map_values(|x: Token| x@) == t,
            (Err(m), Err(sm)) => m@ == sm,
            _ => false,
        },
{
    let mut lexer = Lexer::new(input);
    let mut tokens: Vec<Token> = Vec::new();
    loop
        invariant
            lexer.wf(),
            lexer.text() == input@,
            tokens_of(input@) == after(tokens@.map_values(|x: Token| x@), tokens_from(input@, lexer.position())),
        decreases input@.len() - lexer.position(),
    {
        let ghost before = tokens@.map_values(|x: Token| x@);
        match lexer.next() {
            None => {
                assert(before + Seq::<Lexeme>::empty() =~= before);
                return Ok(tokens);
            },
            Some(Err(m)) => return Err(m),
            Some(Ok(tok)) => {
                let ghost l = tok@;
                tokens.push(tok);
                proof {
                    assert(tokens@.map_values(|x: Token| x@) =~= before.push(l));
                    match tokens_from(input@, lexer.position()) {
                        Ok(rest) => {
                            assert(before + (seq![l] + rest) =~= before.push(l) + rest);
                        },
                        Err(_) => {},
                    }
                }
            },
        }
    }
}

} // verus!
