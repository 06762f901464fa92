use vstd::prelude::*;

use crate::ast::{views, ASTNode, Expr};
use crate::interp::{run, unit_view, Env, EvalError, Interpreter};
use crate::lexer::{is_digit, lemma_digits_run, lex, lex_from, symbol_kind, Token, TokenKind};
use crate::parser::{
    digits_value, expression_at, expression_end, expression_tail, expression_tail_end, factor_at,
    factor_end, lemma_statements_agree, program, program_view, statement_at, statement_end, statements_end,
    statements_from, term_at, term_end, term_tail, term_tail_end, text, ParseError,
};

verus! {

/// The tree of a single number or identifier token.
pub open spec fn leaf(s: Seq<char>, t: Token) -> Expr {
    if t.kind == TokenKind::Number {
        Expr::Num(digits_value(text(s, t)) as i64)
    } else {
        Expr::Var(text(s, t))
    }
}

/// A number or identifier token whose value, if it is a number, fits in an `i64`.
pub open spec fn is_operand(s: Seq<char>, t: Token) -> bool {
    ||| t.kind == TokenKind::Identifier
    ||| t.kind == TokenKind::Number && digits_value(text(s, t)) <= i64::MAX
}

/// The tree of a binary operator token applied to two trees.
pub open spec fn binary(op: TokenKind, l: Expr, r: Expr) -> Expr {
    if op == TokenKind::Plus {
        Expr::Add(Box::new(l), Box::new(r))
    } else if op == TokenKind::Minus {
        Expr::Sub(Box::new(l), Box::new(r))
    } else if op == TokenKind::Star {
        Expr::Mul(Box::new(l), Box::new(r))
    } else {
        Expr::Div(Box::new(l), Box::new(r))
    }
}

/// Precedence: in a statement `a op1 b op2 c;` where `op1` is `+` or `-` and
/// `op2` is `*` or `/`, the second operator binds tighter: the program is the
/// single tree `op1(a, op2(b, c))`.
pub proof fn multiplication_binds_tighter(s: Seq<char>, toks: Seq<Token>)
    requires
        lex(s) == Ok::<Seq<Token>, int>(toks),
        toks.len() == 6,
        is_operand(s, toks[0]),
        is_operand(s, toks[2]),
        is_operand(s, toks[4]),
        toks[1].kind == TokenKind::Plus || toks[1].kind == TokenKind::Minus,
        toks[3].kind == TokenKind::Star || toks[3].kind == TokenKind::Slash,
        toks[5].kind == TokenKind::Semicolon,
    ensures
        program(s) == Ok::<Seq<Expr>, crate::parser::SyntaxFault>(
            seq![
                binary(
                    toks[1].kind,
                    leaf(s, toks[0]),
                    binary(toks[3].kind, leaf(s, toks[2]), leaf(s, toks[4])),
                ),
            ],
        ),
{
    let a = leaf(s, toks[0]);
    let b = leaf(s, toks[2]);
    let c = leaf(s, toks[4]);
    let bc = binary(toks[3].kind, b, c);
    let all = binary(toks[1].kind, a, bc);
    assert(factor_at(s, toks, 0) == Ok::<(Expr, int), crate::parser::SyntaxFault>((a, 1)));
    assert(term_tail(s, toks, a, 1) == Ok::<(Expr, int), crate::parser::SyntaxFault>((a, 1)));
    assert(term_at(s, toks, 0) == Ok::<(Expr, int), crate::parser::SyntaxFault>((a, 1)));
    assert(factor_at(s, toks, 2) == Ok::<(Expr, int), crate::parser::SyntaxFault>((b, 3)));
    assert(factor_at(s, toks, 4) == Ok::<(Expr, int), crate::parser::SyntaxFault>((c, 5)));
    assert(term_tail(s, toks, bc, 5) == Ok::<(Expr, int), crate::parser::SyntaxFault>((bc, 5)));
    assert(term_tail(s, toks, b, 3) == Ok::<(Expr, int), crate::parser::SyntaxFault>((bc, 5)));
    assert(term_at(s, toks, 2) == Ok::<(Expr, int), crate::parser::SyntaxFault>((bc, 5)));
    assert(expression_tail(s, toks, all, 5) == Ok::<(Expr, int), crate::parser::SyntaxFault>(
        (all, 5),
    ));
    assert(expression_tail(s, toks, a, 1) == Ok::<(Expr, int), crate::parser::SyntaxFault>(
        (all, 5),
    ));
    assert(expression_at(s, toks, 0) == Ok::<(Expr, int), crate::parser::SyntaxFault>((all, 5)));
    assert(statement_at(s, toks, 0) == Ok::<(Expr, int), crate::parser::SyntaxFault>((all, 6)));
    assert(statements_from(s, toks, 6) == Ok::<Seq<Expr>, crate::parser::SyntaxFault>(
        Seq::empty(),
    ));
    assert(seq![all] + Seq::<Expr>::empty() =~= seq![all]);
    assert(factor_end(toks, 0) == Ok::<int, int>(1));
    assert(term_tail_end(toks, 1) == Ok::<int, int>(1));
    assert(term_end(toks, 0) == Ok::<int, int>(1));
    assert(factor_end(toks, 2) == Ok::<int, int>(3));
    assert(factor_end(toks, 4) == Ok::<int, int>(5));
    assert(term_tail_end(toks, 5) == Ok::<int, int>(5));
    assert(term_tail_end(toks, 3) == Ok::<int, int>(5));
    assert(term_end(toks, 2) == Ok::<int, int>(5));
    assert(expression_tail_end(toks, 5) == Ok::<int, int>(5));
    assert(expression_tail_end(toks, 1) == Ok::<int, int>(5));
    assert(expression_end(toks, 0) == Ok::<int, int>(5));
    assert(statement_end(toks, 0) == Ok::<int, int>(6));
    assert(statements_end(toks, 6) == Ok::<int, int>(6));
    assert(statements_end(toks, 0) == Ok::<int, int>(6));
}

/// The source text `a op1 b op2 c;`, one space between its tokens.
pub open spec fn spaced(a: Seq<char>, op1: char, b: Seq<char>, op2: char, c: Seq<char>) -> Seq<char> {
    a + seq![' ', op1, ' '] + b + seq![' ', op2, ' '] + c + seq![';']
}

/// A numeric literal of one or more digits whose value fits in an `i64`.
pub open spec fn is_literal(d: Seq<char>) -> bool {
    &&& d.len() > 0
    &&& forall|k: int| 0 <= k < d.len() ==> is_digit(#[trigger] d[k])
    &&& digits_value(d) <= i64::MAX
}

/// Precedence, stated on the text: for numeric literals `a`, `b`, `c`, with
/// `op1` one of `+ -` and `op2` one of `* /`, the text `a op1 b op2 c;` is
/// the single tree `op1(a, op2(b, c))`.
#[verifier::rlimit(40)]
pub proof fn precedence_in_text(a: Seq<char>, op1: char, b: Seq<char>, op2: char, c: Seq<char>)
    requires
        is_literal(a),
        is_literal(b),
        is_literal(c),
        op1 == '+' || op1 == '-',
        op2 == '*' || op2 == '/',
        spaced(a, op1, b, op2, c).len() <= usize::MAX,
    ensures
        program(spaced(a, op1, b, op2, c)) == Ok::<Seq<Expr>, crate::parser::SyntaxFault>(
            seq![
                binary(
                    symbol_kind(op1)->Some_0,
                    Expr::Num(digits_value(a) as i64),
                    binary(
                        symbol_kind(op2)->Some_0,
                        Expr::Num(digits_value(b) as i64),
                        Expr::Num(digits_value(c) as i64),
                    ),
                ),
            ],
        ),
{
    let s = spaced(a, op1, b, op2, c);
    let la = a.len() as int;
    let lb = b.len() as int;
    let lc = c.len() as int;
    let qb = la + 3;
    let eb = qb + lb;
    let qc = eb + 3;
    let ec = qc + lc;
    assert(s.len() == ec + 1);
    assert forall|k: int| 0 <= k < la implies s[k] == a[k] by {}
    assert forall|k: int| 0 <= k < lb implies s[qb + k] == b[k] by {}
    assert forall|k: int| 0 <= k < lc implies s[qc + k] == c[k] by {}
    assert(s[la] == ' ' && s[la + 1] == op1 && s[la + 2] == ' ');
    assert(s[eb] == ' ' && s[eb + 1] == op2 && s[eb + 2] == ' ');
    assert(s[ec] == ';');
    assert(s.subrange(0, la) =~= a);
    assert(s.subrange(qb, eb) =~= b);
    assert(s.subrange(qc, ec) =~= c);
    assert forall|k: int| 1 <= k < la implies is_digit(#[trigger] s[k]) by {
        assert(s[k] == a[k]);
    }
    assert forall|k: int| qb + 1 <= k < eb implies is_digit(#[trigger] s[k]) by {
        assert(s[qb + (k - qb)] == b[k - qb]);
    }
    assert forall|k: int| qc + 1 <= k < ec implies is_digit(#[trigger] s[k]) by {
        assert(s[qc + (k - qc)] == c[k - qc]);
    }
    assert(is_digit(s[0]) && is_digit(s[qb]) && is_digit(s[qc])) by {
        assert(s[0] == a[0]);
        assert(s[qb + 0] == b[0]);
        assert(s[qc + 0] == c[0]);
    }
    lemma_digits_run(s, 1, la);
    lemma_digits_run(s, qb + 1, eb);
    lemma_digits_run(s, qc + 1, ec);

    let ta = Token { kind: TokenKind::Number, start: 0, end: la as usize };
    let to1 = Token { kind: symbol_kind(op1)->Some_0, start: (la + 1) as usize, end: (la + 2) as usize };
    let tb = Token { kind: TokenKind::Number, start: qb as usize, end: eb as usize };
    let to2 = Token { kind: symbol_kind(op2)->Some_0, start: (eb + 1) as usize, end: (eb + 2) as usize };
    let tc = Token { kind: TokenKind::Number, start: qc as usize, end: ec as usize };
    let tsemi = Token { kind: TokenKind::Semicolon, start: ec as usize, end: (ec + 1) as usize };
    let toks = seq![ta, to1, tb, to2, tc, tsemi];

    assert(lex_from(s, ec + 1) == Ok::<Seq<Token>, int>(Seq::empty()));
    assert(lex_from(s, ec) == Ok::<Seq<Token>, int>(seq![tsemi] + Seq::empty()));
    assert(seq![tsemi] + Seq::<Token>::empty() =~= seq![tsemi]);
    assert(lex_from(s, qc) == Ok::<Seq<Token>, int>(seq![tc] + seq![tsemi]));
    assert(lex_from(s, eb + 2) == lex_from(s, qc));
    assert(lex_from(s, eb + 1) == Ok::<Seq<Token>, int>(seq![to2] + (seq![tc] + seq![tsemi])));
    assert(lex_from(s, eb) == lex_from(s, eb + 1));
    assert(lex_from(s, qb) == Ok::<Seq<Token>, int>(
        seq![tb] + (seq![to2] + (seq![tc] + seq![tsemi])),
    ));
    assert(lex_from(s, la + 2) == lex_from(s, qb));
    assert(lex_from(s, la + 1) == Ok::<Seq<Token>, int>(
        seq![to1] + (seq![tb] + (seq![to2] + (seq![tc] + seq![tsemi]))),
    ));
    assert(lex_from(s, la) == lex_from(s, la + 1));
    assert(lex_from(s, 0) == Ok::<Seq<Token>, int>(
        seq![ta] + (seq![to1] + (seq![tb] + (seq![to2] + (seq![tc] + seq![tsemi])))),
    ));
    assert(seq![ta] + (seq![to1] + (seq![tb] + (seq![to2] + (seq![tc] + seq![tsemi]))))
        =~= toks);
    assert(text(s, ta) == a);
    assert(text(s, tb) == b);
    assert(text(s, tc) == c);
    multiplication_binds_tighter(s, toks);
}

/// A text that follows the grammar either parses, or fails with an invalid
/// number: it is never a grammar violation.
pub proof fn grammatical_text_fails_only_on_literals(s: Seq<char>)
    requires
        lex(s) is Ok,
        statements_end(lex(s)->Ok_0, 0) is Ok,
    ensures
        match program(s) {
            Ok(_) => true,
            Err(f) => f is InvalidNumber,
        },
{
    lemma_statements_agree(s, lex(s)->Ok_0, 0);
}

/// Parsing is deterministic: any two results of parsing one text have the
/// same trees, or the same error.
pub proof fn parsing_is_deterministic(
    input: &str,
    first: Result<Vec<ASTNode>, ParseError>,
    second: Result<Vec<ASTNode>, ParseError>,
)
    requires
        program_view(first) == program(input@),
        program_view(second) == program(input@),
    ensures
        program_view(first) == program_view(second),
{
}

/// Evaluation is deterministic: evaluating one program twice, each time in
/// a new interpreter, ends with the same outcome and the same variables.
pub proof fn evaluation_is_deterministic(
    nodes: Seq<ASTNode>,
    first: Result<(), EvalError>,
    first_after: Interpreter,
    second: Result<(), EvalError>,
    second_after: Interpreter,
)
    requires
        (unit_view(first), first_after.variables@) == run(views(nodes), Map::empty()),
        (unit_view(second), second_after.variables@) == run(views(nodes), Map::empty()),
    ensures
        unit_view(first) == unit_view(second),
        first_after.variables@ == second_after.variables@,
{
}

/// The empty text is the empty program, and running the empty program
/// succeeds and leaves any environment as it was.
pub proof fn empty_program(s: Seq<char>, env: Env)
    requires
        s.len() == 0,
    ensures
        program(s) == Ok::<Seq<Expr>, crate::parser::SyntaxFault>(Seq::empty()),
        run(Seq::empty(), env) == (Ok::<(), crate::interp::EvalFault>(()), env),
{
}

} // verus!
