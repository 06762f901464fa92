use vstd::prelude::*;

use crate::ast::{views, ASTNode, Expr};
use crate::lexer::{chars_of, is_digit, lemma_lex_from_fits, lex, token_fits, tokenize, Token, TokenKind};

verus! {

/// The rules of the grammar:
///
/// ```text
/// program    := statement*
/// statement  := (assignment | expression) ";"
/// assignment := identifier "=" expression
/// expression := term (add_op term)*
/// term       := factor (mul_op factor)*
/// factor     := number | identifier | "(" expression ")"
/// add_op     := "+" | "-"
/// mul_op     := "*" | "/"
/// number     := ASCII digit+
/// identifier := lowercase ASCII letter+
/// ```
#[derive(Debug, Clone, Copy, PartialEq, Eq, Structural)]
pub enum Rule {
    Program,
    Statement,
    Assignment,
    Expression,
    Term,
    Factor,
    AddOp,
    MulOp,
    Number,
    Identifier,
}

/// Why a source text could not be parsed.
#[derive(Debug)]
pub enum ParseError {
    /// The text does not follow the grammar; `position` is the index of the
    /// character where the offending token starts, or the length of the text
    /// when the text ends too early.
    GrammarViolation { position: usize },
    /// A rule appeared where another was expected.
    UnexpectedRule(Rule),
    /// A numeric literal that does not fit in an `i64`, in a text that
    /// otherwise follows the grammar.
    InvalidNumber(String),
    /// A rule was expected, but nothing was left.
    UnexpectedEnd { expected: Rule },
}

/// Mathematical model of a [`ParseError`].
pub enum SyntaxFault {
    Grammar(int),
    InvalidNumber(Seq<char>),
    UnexpectedRule(Rule),
    UnexpectedEnd(Rule),
}

impl View for ParseError {
    type V = SyntaxFault;

    open spec fn view(&self) -> SyntaxFault {
        match self {
            ParseError::GrammarViolation { position } => SyntaxFault::Grammar(*position as int),
            ParseError::UnexpectedRule(r) => SyntaxFault::UnexpectedRule(*r),
            ParseError::InvalidNumber(s) => SyntaxFault::InvalidNumber(s@),
            ParseError::UnexpectedEnd { expected } => SyntaxFault::UnexpectedEnd(*expected),
        }
    }
}

/// The outcome of parsing one phrase from a token index: the tree and the index
/// of the first token after it.
pub type Parsed = Result<(Expr, int), SyntaxFault>;

/// The value of a sequence of decimal digits.
pub open spec fn digits_value(d: Seq<char>) -> int
    decreases d.len(),
{
    if d.len() == 0 {
        0
    } else {
        digits_value(d.drop_last()) * 10 + (d.last() as int - '0' as int)
    }
}

/// The characters a token covers.
pub open spec fn text(s: Seq<char>, t: Token) -> Seq<char> {
    s.subrange(t.start as int, t.end as int)
}

pub open spec fn kind_at(toks: Seq<Token>, i: int) -> Option<TokenKind> {
    if 0 <= i < toks.len() {
        Some(toks[i].kind)
    } else {
        None
    }
}

/// The character index reported for an error at token `i`: where that token
/// starts, or the end of the text when no token is left.
pub open spec fn position_of(s: Seq<char>, toks: Seq<Token>, i: int) -> int {
    if 0 <= i < toks.len() {
        toks[i].start as int
    } else {
        s.len() as int
    }
}

pub open spec fn violation(s: Seq<char>, toks: Seq<Token>, i: int) -> Parsed {
    Err(SyntaxFault::Grammar(position_of(s, toks, i)))
}

/// `factor := number | identifier | "(" expression ")"`, from token `i`.
pub open spec fn factor_at(s: Seq<char>, toks: Seq<Token>, i: int) -> Parsed
    decreases toks.len() - i, 0nat,
{
    if !(0 <= i < toks.len()) {
        violation(s, toks, i)
    } else {
        match toks[i].kind {
            TokenKind::Number => {
                let d = text(s, toks[i]);
                if digits_value(d) <= i64::MAX {
                    Ok((Expr::Num(digits_value(d) as i64), i + 1))
                } else {
                    Err(SyntaxFault::InvalidNumber(d))
                }
            },
            TokenKind::Identifier => Ok((Expr::Var(text(s, toks[i])), i + 1)),
            TokenKind::LParen => match expression_at(s, toks, i + 1) {
                Ok((e, j)) => if kind_at(toks, j) == Some(TokenKind::RParen) {
                    Ok((e, j + 1))
                } else {
                    violation(s, toks, j)
                },
                Err(f) => Err(f),
            },
            _ => violation(s, toks, i),
        }
    }
}

/// `term := factor (mul_op factor)*`, from token `i`.
pub open spec fn term_at(s: Seq<char>, toks: Seq<Token>, i: int) -> Parsed
    decreases toks.len() - i, 1nat,
{
    if !(0 <= i < toks.len()) {
        violation(s, toks, i)
    } else {
        match factor_at(s, toks, i) {
            // A phrase always ends after the token it starts at, and within
            // the tokens; the test only makes the definition's termination
            // evident.
            Ok((f, j)) => if i < j <= toks.len() {
                term_tail(s, toks, f, j)
            } else {
                violation(s, toks, i)
            },
            Err(e) => Err(e),
        }
    }
}

/// Folds `(mul_op factor)*` from token `j` onto `acc`, to the left.
pub open spec fn term_tail(s: Seq<char>, toks: Seq<Token>, acc: Expr, j: int) -> Parsed
    decreases toks.len() - j, 2nat,
{
    if 0 <= j < toks.len() && (toks[j].kind == TokenKind::Star || toks[j].kind
        == TokenKind::Slash) {
        match factor_at(s, toks, j + 1) {
            Ok((f, k)) => {
                let node = if toks[j].kind == TokenKind::Star {
                    Expr::Mul(Box::new(acc), Box::new(f))
                } else {
                    Expr::Div(Box::new(acc), Box::new(f))
                };
                if j < k <= toks.len() {
                    term_tail(s, toks, node, k)
                } else {
                    violation(s, toks, j)
                }
            },
            Err(e) => Err(e),
        }
    } else {
        Ok((acc, j))
    }
}

/// `expression := term (add_op term)*`, from token `i`.
pub open spec fn expression_at(s: Seq<char>, toks: Seq<Token>, i: int) -> Parsed
    decreases toks.len() - i, 3nat,
{
    if !(0 <= i < toks.len()) {
        violation(s, toks, i)
    } else {
        match term_at(s, toks, i) {
            Ok((t, j)) => if i < j <= toks.len() {
                expression_tail(s, toks, t, j)
            } else {
                violation(s, toks, i)
            },
            Err(e) => Err(e),
        }
    }
}

/// Folds `(add_op term)*` from token `j` onto `acc`, to the left.
pub open spec fn expression_tail(s: Seq<char>, toks: Seq<Token>, acc: Expr, j: int) -> Parsed
    decreases toks.len() - j, 4nat,
{
    if 0 <= j < toks.len() && (toks[j].kind == TokenKind::Plus || toks[j].kind
        == TokenKind::Minus) {
        match term_at(s, toks, j + 1) {
            Ok((t, k)) => {
                let node = if toks[j].kind == TokenKind::Plus {
                    Expr::Add(Box::new(acc), Box::new(t))
                } else {
                    Expr::Sub(Box::new(acc), Box::new(t))
                };
                if j < k <= toks.len() {
                    expression_tail(s, toks, node, k)
                } else {
                    violation(s, toks, j)
                }
            },
            Err(e) => Err(e),
        }
    } else {
        Ok((acc, j))
    }
}

/// `";"` after a statement whose tree `e` ends before token `j`.
pub open spec fn terminated(s: Seq<char>, toks: Seq<Token>, e: Expr, j: int) -> Parsed {
    if kind_at(toks, j) == Some(TokenKind::Semicolon) {
        Ok((e, j + 1))
    } else {
        violation(s, toks, j)
    }
}

/// `assignment := identifier "=" expression`, where token `i` is the identifier
/// and token `i + 1` the `=`.
pub open spec fn assignment_at(s: Seq<char>, toks: Seq<Token>, i: int) -> Parsed {
    match expression_at(s, toks, i + 2) {
        Ok((e, j)) => Ok((Expr::Assign(text(s, toks[i]), Box::new(e)), j)),
        Err(f) => Err(f),
    }
}

/// `statement := (assignment | expression) ";"`, from token `i`. A statement
/// that starts with an identifier and `=` can only be an assignment.
pub open spec fn statement_at(s: Seq<char>, toks: Seq<Token>, i: int) -> Parsed {
    if kind_at(toks, i) == Some(TokenKind::Identifier) && kind_at(toks, i + 1) == Some(
        TokenKind::Equals,
    ) {
        match assignment_at(s, toks, i) {
            Ok((a, j)) => terminated(s, toks, a, j),
            Err(f) => Err(f),
        }
    } else {
        match expression_at(s, toks, i) {
            Ok((e, j)) => terminated(s, toks, e, j),
            Err(f) => Err(f),
        }
    }
}

/// `statement*` from token `i` to the last token.
pub open spec fn statements_from(s: Seq<char>, toks: Seq<Token>, i: int) -> Result<
    Seq<Expr>,
    SyntaxFault,
>
    decreases toks.len() - i,
{
    if !(0 <= i < toks.len()) {
        Ok(Seq::empty())
    } else {
        match statement_at(s, toks, i) {
            Ok((e, j)) => if i < j <= toks.len() {
                match statements_from(s, toks, j) {
                    Ok(rest) => Ok(seq![e] + rest),
                    Err(f) => Err(f),
                }
            } else {
                Err(SyntaxFault::Grammar(position_of(s, toks, i)))
            },
            Err(f) => Err(f),
        }
    }
}

/// Where a factor that starts at token `i` ends, or the index of the token
/// at which it breaks the grammar. The recognizers below follow the same
/// rules as the parsers above but build nothing, so no literal can fail them.
pub open spec fn factor_end(toks: Seq<Token>, i: int) -> Result<int, int>
    decreases toks.len() - i, 0nat,
{
    if !(0 <= i < toks.len()) {
        Err(i)
    } else {
        match toks[i].kind {
            TokenKind::Number | TokenKind::Identifier => Ok(i + 1),
            TokenKind::LParen => match expression_end(toks, i + 1) {
                Ok(j) => if kind_at(toks, j) == Some(TokenKind::RParen) {
                    Ok(j + 1)
                } else {
                    Err(j)
                },
                Err(p) => Err(p),
            },
            _ => Err(i),
        }
    }
}

/// Where a term that starts at token `i` ends, or where it breaks the grammar.
pub open spec fn term_end(toks: Seq<Token>, i: int) -> Result<int, int>
    decreases toks.len() - i, 1nat,
{
    if !(0 <= i < toks.len()) {
        Err(i)
    } else {
        match factor_end(toks, i) {
            Ok(j) => if i < j <= toks.len() {
                term_tail_end(toks, j)
            } else {
                Err(i)
            },
            Err(p) => Err(p),
        }
    }
}

/// Where `(mul_op factor)*` from token `j` ends, or where it breaks the grammar.
pub open spec fn term_tail_end(toks: Seq<Token>, j: int) -> Result<int, int>
    decreases toks.len() - j, 2nat,
{
    if 0 <= j < toks.len() && (toks[j].kind == TokenKind::Star || toks[j].kind
        == TokenKind::Slash) {
        match factor_end(toks, j + 1) {
            Ok(k) => if j < k <= toks.len() {
                term_tail_end(toks, k)
            } else {
                Err(j)
            },
            Err(p) => Err(p),
        }
    } else {
        Ok(j)
    }
}

/// Where an expression that starts at token `i` ends, or where it breaks the
/// grammar.
pub open spec fn expression_end(toks: Seq<Token>, i: int) -> Result<int, int>
    decreases toks.len() - i, 3nat,
{
    if !(0 <= i < toks.len()) {
        Err(i)
    } else {
        match term_end(toks, i) {
            Ok(j) => if i < j <= toks.len() {
                expression_tail_end(toks, j)
            } else {
                Err(i)
            },
            Err(p) => Err(p),
        }
    }
}

/// Where `(add_op term)*` from token `j` ends, or where it breaks the grammar.
pub open spec fn expression_tail_end(toks: Seq<Token>, j: int) -> Result<int, int>
    decreases toks.len() - j, 4nat,
{
    if 0 <= j < toks.len() && (toks[j].kind == TokenKind::Plus || toks[j].kind
        == TokenKind::Minus) {
        match term_end(toks, j + 1) {
            Ok(k) => if j < k <= toks.len() {
                expression_tail_end(toks, k)
            } else {
                Err(j)
            },
            Err(p) => Err(p),
        }
    } else {
        Ok(j)
    }
}

/// Where a statement that starts at token `i` ends, or where it breaks the
/// grammar.
pub open spec fn statement_end(toks: Seq<Token>, i: int) -> Result<int, int> {
    let start = if kind_at(toks, i) == Some(TokenKind::Identifier) && kind_at(toks, i + 1)
        == Some(TokenKind::Equals) {
        i + 2
    } else {
        i
    };
    match expression_end(toks, start) {
        Ok(j) => if kind_at(toks, j) == Some(TokenKind::Semicolon) {
            Ok(j + 1)
        } else {
            Err(j)
        },
        Err(p) => Err(p),
    }
}

/// Whether the tokens from `i` on are a sequence of statements, or the index
/// of the token at which they break the grammar.
pub open spec fn statements_end(toks: Seq<Token>, i: int) -> Result<int, int>
    decreases toks.len() - i,
{
    if !(0 <= i < toks.len()) {
        Ok(i)
    } else {
        match statement_end(toks, i) {
            Ok(j) => if i < j <= toks.len() {
                statements_end(toks, j)
            } else {
                Err(i)
            },
            Err(p) => Err(p),
        }
    }
}

/// The statements of a whole source text, in order, or why it is not a
/// program. A text outside the grammar is a grammar violation, whatever its
/// literals hold: at the index of a character that starts no token, or else
/// where the first offending token starts (the end of the text when it ends
/// too early). A text inside the grammar is parsed into its trees, which
/// fails at its first literal too large for an `i64`.
pub open spec fn program(s: Seq<char>) -> Result<Seq<Expr>, SyntaxFault> {
    match lex(s) {
        Ok(toks) => match statements_end(toks, 0) {
            Ok(_) => statements_from(s, toks, 0),
            Err(p) => Err(SyntaxFault::Grammar(position_of(s, toks, p))),
        },
        Err(p) => Err(SyntaxFault::Grammar(p)),
    }
}

/// Whether a parse agrees with a recognition: it ends where the recognition
/// ends, or it fails on a literal too large for an `i64`.
pub open spec fn agrees(r: Parsed, end: Result<int, int>) -> bool {
    match r {
        Ok((_, j)) => end == Ok::<int, int>(j),
        Err(f) => f is InvalidNumber,
    }
}

pub proof fn lemma_factor_agrees(s: Seq<char>, toks: Seq<Token>, i: int)
    requires
        factor_end(toks, i) is Ok,
    ensures
        agrees(factor_at(s, toks, i), factor_end(toks, i)),
    decreases toks.len() - i, 0nat,
{
    if 0 <= i < toks.len() && toks[i].kind == TokenKind::LParen {
        lemma_expression_agrees(s, toks, i + 1);
    }
}

pub proof fn lemma_term_agrees(s: Seq<char>, toks: Seq<Token>, i: int)
    requires
        term_end(toks, i) is Ok,
    ensures
        agrees(term_at(s, toks, i), term_end(toks, i)),
    decreases toks.len() - i, 1nat,
{
    lemma_factor_agrees(s, toks, i);
    if let Ok((f, j)) = factor_at(s, toks, i) {
        lemma_term_tail_agrees(s, toks, f, j);
    }
}

pub proof fn lemma_term_tail_agrees(s: Seq<char>, toks: Seq<Token>, acc: Expr, j: int)
    requires
        term_tail_end(toks, j) is Ok,
    ensures
        agrees(term_tail(s, toks, acc, j), term_tail_end(toks, j)),
    decreases toks.len() - j, 2nat,
{
    if 0 <= j < toks.len() && (toks[j].kind == TokenKind::Star || toks[j].kind
        == TokenKind::Slash) {
        lemma_factor_agrees(s, toks, j + 1);
        if let Ok((f, k)) = factor_at(s, toks, j + 1) {
            let node = if toks[j].kind == TokenKind::Star {
                Expr::Mul(Box::new(acc), Box::new(f))
            } else {
                Expr::Div(Box::new(acc), Box::new(f))
            };
            lemma_term_tail_agrees(s, toks, node, k);
        }
    }
}

pub proof fn lemma_expression_agrees(s: Seq<char>, toks: Seq<Token>, i: int)
    requires
        expression_end(toks, i) is Ok,
    ensures
        agrees(expression_at(s, toks, i), expression_end(toks, i)),
    decreases toks.len() - i, 3nat,
{
    lemma_term_agrees(s, toks, i);
    if let Ok((t, j)) = term_at(s, toks, i) {
        lemma_expression_tail_agrees(s, toks, t, j);
    }
}

pub proof fn lemma_expression_tail_agrees(s: Seq<char>, toks: Seq<Token>, acc: Expr, j: int)
    requires
        expression_tail_end(toks, j) is Ok,
    ensures
        agrees(expression_tail(s, toks, acc, j), expression_tail_end(toks, j)),
    decreases toks.len() - j, 4nat,
{
    if 0 <= j < toks.len() && (toks[j].kind == TokenKind::Plus || toks[j].kind
        == TokenKind::Minus) {
        lemma_term_agrees(s, toks, j + 1);
        if let Ok((t, k)) = term_at(s, toks, j + 1) {
            let node = if toks[j].kind == TokenKind::Plus {
                Expr::Add(Box::new(acc), Box::new(t))
            } else {
                Expr::Sub(Box::new(acc), Box::new(t))
            };
            lemma_expression_tail_agrees(s, toks, node, k);
        }
    }
}

/// Tokens that form statements parse into trees, unless a literal is too
/// large for an `i64`.
pub proof fn lemma_statements_agree(s: Seq<char>, toks: Seq<Token>, i: int)
    requires
        statements_end(toks, i) is Ok,
    ensures
        match statements_from(s, toks, i) {
            Ok(_) => true,
            Err(f) => f is InvalidNumber,
        },
    decreases toks.len() - i,
{
    if 0 <= i < toks.len() {
        let start = if kind_at(toks, i) == Some(TokenKind::Identifier) && kind_at(toks, i + 1)
            == Some(TokenKind::Equals) {
            i + 2
        } else {
            i
        };
        lemma_expression_agrees(s, toks, start);
        if let Ok((_, j)) = statement_at(s, toks, i) {
            lemma_statements_agree(s, toks, j);
        }
    }
}

/// The model of what [`parse_program`] returns.
pub open spec fn program_view(r: Result<Vec<ASTNode>, ParseError>) -> Result<Seq<Expr>, SyntaxFault> {
    match r {
        Ok(nodes) => Ok(views(nodes@)),
        Err(e) => Err(e@),
    }
}

pub open spec fn end_view(r: Result<usize, usize>) -> Result<int, int> {
    match r {
        Ok(j) => Ok(j as int),
        Err(p) => Err(p as int),
    }
}

pub open spec fn node_view(r: Result<(ASTNode, usize), ParseError>) -> Parsed {
    match r {
        Ok((n, j)) => Ok((n@, j as int)),
        Err(e) => Err(e@),
    }
}

pub proof fn lemma_digits_value_prefix(d: Seq<char>, m: int)
    requires
        0 <= m <= d.len(),
        forall|k: int| 0 <= k < d.len() ==> is_digit(#[trigger] d[k]),
    ensures
        0 <= digits_value(d.subrange(0, m)) <= digits_value(d),
    decreases d.len(),
{
    if m == d.len() {
        assert(d.subrange(0, m) =~= d);
        if d.len() > 0 {
            lemma_digits_value_prefix(d.drop_last(), 0);
        }
    } else {
        let e = d.drop_last();
        lemma_digits_value_prefix(e, m);
        assert(e.subrange(0, m) =~= d.subrange(0, m));
        assert(is_digit(d[d.len() - 1]));
    }
}

/// The value of the digits `s[start..end]`, unless it exceeds `i64::MAX`.
fn literal_value(s: &Vec<char>, start: usize, end: usize) -> (r: Option<i64>)
    requires
        start < end <= s.len(),
        forall|k: int| start <= k < end ==> is_digit(#[trigger] s@[k]),
    ensures
        r == if digits_value(s@.subrange(start as int, end as int)) <= i64::MAX {
            Some(digits_value(s@.subrange(start as int, end as int)) as i64)
        } else {
            None::<i64>
        },
{
    let mut v: i64 = 0;
    let mut k: usize = start;
    assert(s@.subrange(start as int, start as int) =~= Seq::<char>::empty());
    while k < end
        invariant
            start <= k <= end <= s.len(),
            forall|m: int| start <= m < end ==> is_digit(#[trigger] s@[m]),
            v as int == digits_value(s@.subrange(start as int, k as int)),
            v >= 0,
        decreases end - k,
    {
        let c = s[k];
        assert(is_digit(s@[k as int]));
        let d: i64 = (c as u32 - '0' as u32) as i64;
        let ghost next = s@.subrange(start as int, k + 1);
        assert(next.drop_last() =~= s@.subrange(start as int, k as int));
        assert(digits_value(next) == v * 10 + d);
        if v > (i64::MAX - d) / 10 {
            proof {
                let whole = s@.subrange(start as int, end as int);
                assert(v * 10 + d > i64::MAX) by (nonlinear_arith)
                    requires
                        v > (i64::MAX - d) / 10,
                        0 <= d <= 9,
                ;
                lemma_digits_value_prefix(whole, k + 1 - start);
                assert(whole.subrange(0, k + 1 - start) =~= next);
            }
            return None;
        }
        assert(v * 10 + d <= i64::MAX) by (nonlinear_arith)
            requires
                v <= (i64::MAX - d) / 10,
                0 <= d <= 9,
                v >= 0,
        ;
        v = v * 10 + d;
        k = k + 1;
    }
    Some(v)
}

/// Recursive-descent parser over the tokens of one source text.
pub struct TinyLangParser<'a> {
    source: &'a str,
    chars: Vec<char>,
    tokens: Vec<Token>,
}

impl<'a> TinyLangParser<'a> {
    spec fn wf(&self) -> bool {
        &&& self.chars@ == self.source@
        &&& self.chars@.len() <= usize::MAX
        &&& lex(self.chars@) == Ok::<Seq<Token>, int>(self.tokens@)
        &&& forall|k: int|
            0 <= k < self.tokens@.len() ==> token_fits(self.chars@, #[trigger] self.tokens@[k])
    }

    /// The text of token `t`.
    fn text(&self, t: Token) -> (r: String)
        requires
            self.wf(),
            token_fits(self.chars@, t),
        ensures
            r@ == text(self.chars@, t),
    {
        self.source.substring_char(t.start, t.end).to_owned()
    }

    fn violation(&self, i: usize) -> (e: ParseError)
        requires
            self.wf(),
        ensures
            Err::<(Expr, int), SyntaxFault>(e@) == violation(self.chars@, self.tokens@, i as int),
    {
        let position = if i < self.tokens.len() {
            self.tokens[i].start
        } else {
            self.chars.len()
        };
        ParseError::GrammarViolation { position }
    }

    fn parse_factor(&self, i: usize) -> (r: Result<(ASTNode, usize), ParseError>)
        requires
            self.wf(),
            i <= self.tokens@.len(),
        ensures
            node_view(r) == factor_at(self.chars@, self.tokens@, i as int),
            r is Ok ==> i < r->Ok_0.1 <= self.tokens@.len(),
        decreases self.tokens@.len() - i, 0nat,
    {
        if i >= self.tokens.len() {
            return Err(self.violation(i));
        }
        let t = self.tokens[i];
        assert(token_fits(self.chars@, self.tokens@[i as int]));
        match t.kind {
            TokenKind::Number => match literal_value(&self.chars, t.start, t.end) {
                Some(v) => Ok((ASTNode::Number(v), i + 1)),
                None => Err(ParseError::InvalidNumber(self.text(t))),
            },
            TokenKind::Identifier => Ok((ASTNode::Identifier(self.text(t)), i + 1)),
            TokenKind::LParen => {
                let (e, j) = match self.parse_expression(i + 1) {
                    Ok(p) => p,
                    Err(f) => return Err(f),
                };
                if j < self.tokens.len() && self.tokens[j].kind == TokenKind::RParen {
                    Ok((e, j + 1))
                } else {
                    Err(self.violation(j))
                }
            },
            _ => Err(self.violation(i)),
        }
    }

    fn parse_term(&self, i: usize) -> (r: Result<(ASTNode, usize), ParseError>)
        requires
            self.wf(),
            i <= self.tokens@.len(),
        ensures
            node_view(r) == term_at(self.chars@, self.tokens@, i as int),
            r is Ok ==> i < r->Ok_0.1 <= self.tokens@.len(),
        decreases self.tokens@.len() - i, 1nat,
    {
        if i >= self.tokens.len() {
            return Err(self.violation(i));
        }
        let (mut acc, mut j) = match self.parse_factor(i) {
            Ok(p) => p,
            Err(f) => return Err(f),
        };
        while j < self.tokens.len() && (self.tokens[j].kind == TokenKind::Star
            || self.tokens[j].kind == TokenKind::Slash)
            invariant
                self.wf(),
                i < j <= self.tokens@.len(),
                term_at(self.chars@, self.tokens@, i as int) == term_tail(
                    self.chars@,
                    self.tokens@,
                    acc@,
                    j as int,
                ),
            decreases self.tokens@.len() - j,
        {
            let op = self.tokens[j].kind;
            let (f, k) = match self.parse_factor(j + 1) {
                Ok(p) => p,
                Err(e) => return Err(e),
            };
            acc = if op == TokenKind::Star {
                ASTNode::Mul(Box::new(acc), Box::new(f))
            } else {
                ASTNode::Div(Box::new(acc), Box::new(f))
            };
            j = k;
        }
        Ok((acc, j))
    }

    fn parse_expression(&self, i: usize) -> (r: Result<(ASTNode, usize), ParseError>)
        requires
            self.wf(),
            i <= self.tokens@.len(),
        ensures
            node_view(r) == expression_at(self.chars@, self.tokens@, i as int),
            r is Ok ==> i < r->Ok_0.1 <= self.tokens@.len(),
        decreases self.tokens@.len() - i, 3nat,
    {
        if i >= self.tokens.len() {
            return Err(self.violation(i));
        }
        let (mut acc, mut j) = match self.parse_term(i) {
            Ok(p) => p,
            Err(f) => return Err(f),
        };
        while j < self.tokens.len() && (self.tokens[j].kind == TokenKind::Plus
            || self.tokens[j].kind == TokenKind::Minus)
            invariant
                self.wf(),
                i < j <= self.tokens@.len(),
                expression_at(self.chars@, self.tokens@, i as int) == expression_tail(
                    self.chars@,
                    self.tokens@,
                    acc@,
                    j as int,
                ),
            decreases self.tokens@.len() - j,
        {
            let op = self.tokens[j].kind;
            let (t, k) = match self.parse_term(j + 1) {
                Ok(p) => p,
                Err(e) => return Err(e),
            };
            acc = if op == TokenKind::Plus {
                ASTNode::Add(Box::new(acc), Box::new(t))
            } else {
                ASTNode::Sub(Box::new(acc), Box::new(t))
            };
            j = k;
        }
        Ok((acc, j))
    }

    fn parse_assignment(&self, i: usize) -> (r: Result<(ASTNode, usize), ParseError>)
        requires
            self.wf(),
            i + 1 < self.tokens.len(),
            self.tokens@[i as int].kind == TokenKind::Identifier,
        ensures
            node_view(r) == assignment_at(self.chars@, self.tokens@, i as int),
            r is Ok ==> i < r->Ok_0.1 <= self.tokens@.len(),
    {
        assert(token_fits(self.chars@, self.tokens@[i as int]));
        let name = self.text(self.tokens[i]);
        match self.parse_expression(i + 2) {
            Ok((e, j)) => Ok((ASTNode::Assignment { name, value: Box::new(e) }, j)),
            Err(f) => Err(f),
        }
    }

    fn parse_statement(&self, i: usize) -> (r: Result<(ASTNode, usize), ParseError>)
        requires
            self.wf(),
            i < self.tokens@.len(),
        ensures
            node_view(r) == statement_at(self.chars@, self.tokens@, i as int),
            r is Ok ==> i < r->Ok_0.1 <= self.tokens@.len(),
    {
        let n = self.tokens.len();
        let (node, j) = if i + 1 < n && self.tokens[i].kind == TokenKind::Identifier
            && self.tokens[i + 1].kind == TokenKind::Equals {
            match self.parse_assignment(i) {
                Ok(p) => p,
                Err(f) => return Err(f),
            }
        } else {
            match self.parse_expression(i) {
                Ok(p) => p,
                Err(f) => return Err(f),
            }
        };
        if j < n && self.tokens[j].kind == TokenKind::Semicolon {
            Ok((node, j + 1))
        } else {
            Err(self.violation(j))
        }
    }

    fn parse_statements(&self) -> (r: Result<Vec<ASTNode>, ParseError>)
        requires
            self.wf(),
        ensures
            program_view(r) == statements_from(self.chars@, self.tokens@, 0),
    {
        let mut nodes: Vec<ASTNode> = Vec::new();
        let mut i: usize = 0;
        while i < self.tokens.len()
            invariant
                self.wf(),
                i <= self.tokens@.len(),
                statements_from(self.chars@, self.tokens@, 0) == match statements_from(
                    self.chars@,
                    self.tokens@,
                    i as int,
                ) {
                    Ok(rest) => Ok(views(nodes@) + rest),
                    Err(f) => Err(f),
                },
            decreases self.tokens@.len() - i,
        {
            let (node, j) = match self.parse_statement(i) {
                Ok(p) => p,
                Err(f) => return Err(f),
            };
            let ghost before = views(nodes@);
            let ghost e = node@;
            nodes.push(node);
            proof {
                assert(views(nodes@) =~= before.push(e));
                if let Ok(rest) = statements_from(self.chars@, self.tokens@, j as int) {
                    assert(before + (seq![e] + rest) =~= views(nodes@) + rest);
                }
            }
            i = j;
        }
        assert(views(nodes@) + Seq::<Expr>::empty() =~= views(nodes@));
        Ok(nodes)
    }

    fn recognize_factor(&self, i: usize) -> (r: Result<usize, usize>)
        requires
            self.wf(),
            i <= self.tokens@.len(),
        ensures
            end_view(r) == factor_end(self.tokens@, i as int),
            r is Ok ==> i < r->Ok_0 <= self.tokens@.len(),
            r is Err ==> r->Err_0 <= self.tokens@.len(),
        decreases self.tokens@.len() - i, 0nat,
    {
        if i >= self.tokens.len() {
            return Err(i);
        }
        match self.tokens[i].kind {
            TokenKind::Number | TokenKind::Identifier => Ok(i + 1),
            TokenKind::LParen => {
                let j = match self.recognize_expression(i + 1) {
                    Ok(j) => j,
                    Err(p) => return Err(p),
                };
                if j < self.tokens.len() && self.tokens[j].kind == TokenKind::RParen {
                    Ok(j + 1)
                } else {
                    Err(j)
                }
            },
            _ => Err(i),
        }
    }

    fn recognize_term(&self, i: usize) -> (r: Result<usize, usize>)
        requires
            self.wf(),
            i <= self.tokens@.len(),
        ensures
            end_view(r) == term_end(self.tokens@, i as int),
            r is Ok ==> i < r->Ok_0 <= self.tokens@.len(),
            r is Err ==> r->Err_0 <= self.tokens@.len(),
        decreases self.tokens@.len() - i, 1nat,
    {
        if i >= self.tokens.len() {
            return Err(i);
        }
        let mut j = match self.recognize_factor(i) {
            Ok(j) => j,
            Err(p) => return Err(p),
        };
        while j < self.tokens.len() && (self.tokens[j].kind == TokenKind::Star
            || self.tokens[j].kind == TokenKind::Slash)
            invariant
                self.wf(),
                i < j <= self.tokens@.len(),
                term_end(self.tokens@, i as int) == term_tail_end(self.tokens@, j as int),
            decreases self.tokens@.len() - j,
        {
            j = match self.recognize_factor(j + 1) {
                Ok(k) => k,
                Err(p) => return Err(p),
            };
        }
        Ok(j)
    }

    fn recognize_expression(&self, i: usize) -> (r: Result<usize, usize>)
        requires
            self.wf(),
            i <= self.tokens@.len(),
        ensures
            end_view(r) == expression_end(self.tokens@, i as int),
            r is Ok ==> i < r->Ok_0 <= self.tokens@.len(),
            r is Err ==> r->Err_0 <= self.tokens@.len(),
        decreases self.tokens@.len() - i, 3nat,
    {
        if i >= self.tokens.len() {
            return Err(i);
        }
        let mut j = match self.recognize_term(i) {
            Ok(j) => j,
            Err(p) => return Err(p),
        };
        while j < self.tokens.len() && (self.tokens[j].kind == TokenKind::Plus
            || self.tokens[j].kind == TokenKind::Minus)
            invariant
                self.wf(),
                i < j <= self.tokens@.len(),
                expression_end(self.tokens@, i as int) == expression_tail_end(
                    self.tokens@,
                    j as int,
                ),
            decreases self.tokens@.len() - j,
        {
            j = match self.recognize_term(j + 1) {
                Ok(k) => k,
                Err(p) => return Err(p),
            };
        }
        Ok(j)
    }

    fn recognize_statement(&self, i: usize) -> (r: Result<usize, usize>)
        requires
            self.wf(),
            i < self.tokens@.len(),
        ensures
            end_view(r) == statement_end(self.tokens@, i as int),
            r is Ok ==> i < r->Ok_0 <= self.tokens@.len(),
            r is Err ==> r->Err_0 <= self.tokens@.len(),
    {
        let n = self.tokens.len();
        let start = if i + 1 < n && self.tokens[i].kind == TokenKind::Identifier && self.tokens[i
            + 1].kind == TokenKind::Equals {
            i + 2
        } else {
            i
        };
        let j = match self.recognize_expression(start) {
            Ok(j) => j,
            Err(p) => return Err(p),
        };
        if j < n && self.tokens[j].kind == TokenKind::Semicolon {
            Ok(j + 1)
        } else {
            Err(j)
        }
    }

    /// Checks that all tokens form statements; the error is the index of the
    /// token at which they break the grammar.
    fn recognize_statements(&self) -> (r: Result<usize, usize>)
        requires
            self.wf(),
        ensures
            end_view(r) == statements_end(self.tokens@, 0),
            r is Err ==> r->Err_0 <= self.tokens@.len(),
    {
        let mut i: usize = 0;
        while i < self.tokens.len()
            invariant
                self.wf(),
                i <= self.tokens@.len(),
                statements_end(self.tokens@, 0) == statements_end(self.tokens@, i as int),
            decreases self.tokens@.len() - i,
        {
            i = match self.recognize_statement(i) {
                Ok(j) => j,
                Err(p) => return Err(p),
            };
        }
        Ok(i)
    }
}

/// Parses a whole source text into its statements, in source order.
///
/// Succeeds exactly when the text is a program of the grammar (see [`Rule`])
/// whose numeric literals all fit in an `i64`. A text outside the grammar is
/// a grammar violation at the character where the first offending token
/// starts (or at the end of the text, when it ends too early). Only a text
/// inside the grammar can be an invalid number, which carries the text of its
/// first literal too large for an `i64`.
pub fn parse_program(input: &str) -> (r: Result<Vec<ASTNode>, ParseError>)
    ensures
        program_view(r) == program(input@),
{
    let chars = chars_of(input);
    let tokens = match tokenize(&chars) {
        Ok(t) => t,
        Err(p) => return Err(ParseError::GrammarViolation { position: p }),
    };
    proof {
        assert(chars@.len() == chars.len());
        lemma_lex_from_fits(chars@, 0);
    }
    let parser = TinyLangParser { source: input, chars, tokens };
    match parser.recognize_statements() {
        Ok(_) => parser.parse_statements(),
        Err(p) => Err(parser.violation(p)),
    }
}

} // verus!
