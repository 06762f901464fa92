use vstd::prelude::*;

verus! {

/// What a token is, without its text.
#[derive(Debug, Clone, Copy, PartialEq, Eq, Structural)]
pub enum TokenKind {
    Number,
    Identifier,
    Plus,
    Minus,
    Star,
    Slash,
    LParen,
    RParen,
    Equals,
    Semicolon,
}

/// A token: its kind and the range `start..end` of source characters it covers.
#[derive(Debug, Clone, Copy, PartialEq, Eq, Structural)]
pub struct Token {
    pub kind: TokenKind,
    pub start: usize,
    pub end: usize,
}

/// Characters that may stand between tokens and carry no meaning.
pub open spec fn is_space(c: char) -> bool {
    c == ' ' || c == '\t' || c == '\n' || c == '\r'
}

pub open spec fn is_digit(c: char) -> bool {
    '0' <= c && c <= '9'
}

/// Identifiers are made of lowercase ASCII letters.
pub open spec fn is_letter(c: char) -> bool {
    'a' <= c && c <= 'z'
}

/// The token kind of a one-character operator or delimiter.
pub open spec fn symbol_kind(c: char) -> Option<TokenKind> {
    if c == '+' {
        Some(TokenKind::Plus)
    } else if c == '-' {
        Some(TokenKind::Minus)
    } else if c == '*' {
        Some(TokenKind::Star)
    } else if c == '/' {
        Some(TokenKind::Slash)
    } else if c == '(' {
        Some(TokenKind::LParen)
    } else if c == ')' {
        Some(TokenKind::RParen)
    } else if c == '=' {
        Some(TokenKind::Equals)
    } else if c == ';' {
        Some(TokenKind::Semicolon)
    } else {
        None
    }
}

/// The first index at or after `i` that does not hold a digit.
pub open spec fn digits_end(s: Seq<char>, i: int) -> int
    decreases s.len() - i,
{
    if 0 <= i < s.len() && is_digit(s[i]) {
        digits_end(s, i + 1)
    } else {
        i
    }
}

/// The first index at or after `i` that does not hold a letter.
pub open spec fn letters_end(s: Seq<char>, i: int) -> int
    decreases s.len() - i,
{
    if 0 <= i < s.len() && is_letter(s[i]) {
        letters_end(s, i + 1)
    } else {
        i
    }
}

pub proof fn lemma_digits_end_bounds(s: Seq<char>, i: int)
    requires
        0 <= i <= s.len(),
    ensures
        i <= digits_end(s, i) <= s.len(),
        forall|k: int| i <= k < digits_end(s, i) ==> is_digit(#[trigger] s[k]),
    decreases s.len() - i,
{
    if i < s.len() && is_digit(s[i]) {
        lemma_digits_end_bounds(s, i + 1);
    }
}

pub proof fn lemma_letters_end_bounds(s: Seq<char>, i: int)
    requires
        0 <= i <= s.len(),
    ensures
        i <= letters_end(s, i) <= s.len(),
        forall|k: int| i <= k < letters_end(s, i) ==> is_letter(#[trigger] s[k]),
    decreases s.len() - i,
{
    if i < s.len() && is_letter(s[i]) {
        lemma_letters_end_bounds(s, i + 1);
    }
}

/// A run of digits from `i` that ends at `e` ends where [`digits_end`] says.
pub proof fn lemma_digits_run(s: Seq<char>, i: int, e: int)
    requires
        0 <= i <= e <= s.len(),
        forall|k: int| i <= k < e ==> is_digit(#[trigger] s[k]),
        e == s.len() || !is_digit(s[e]),
    ensures
        digits_end(s, i) == e,
    decreases e - i,
{
    if i < e {
        lemma_digits_run(s, i + 1, e);
    }
}

/// Puts `t` before the tokens of a successful split; an error position stays.
pub open spec fn prefix_tokens(t: Seq<Token>, r: Result<Seq<Token>, int>) -> Result<Seq<Token>, int> {
    match r {
        Ok(rest) => Ok(t + rest),
        Err(p) => Err(p),
    }
}

/// Splits `s[i..]` into tokens by longest match, skipping white space.
/// The error is the index of the first character that starts no token.
pub open spec fn lex_from(s: Seq<char>, i: int) -> Result<Seq<Token>, int>
    decreases s.len() - i,
{
    if i < 0 || i >= s.len() {
        Ok(Seq::empty())
    } else if is_space(s[i]) {
        lex_from(s, i + 1)
    } else if is_digit(s[i]) {
        let j = digits_end(s, i + 1);
        proof {
            lemma_digits_end_bounds(s, i + 1);
        }
        prefix_tokens(
            seq![Token { kind: TokenKind::Number, start: i as usize, end: j as usize }],
            lex_from(s, j),
        )
    } else if is_letter(s[i]) {
        let j = letters_end(s, i + 1);
        proof {
            lemma_letters_end_bounds(s, i + 1);
        }
        prefix_tokens(
            seq![Token { kind: TokenKind::Identifier, start: i as usize, end: j as usize }],
            lex_from(s, j),
        )
    } else {
        match symbol_kind(s[i]) {
            Some(k) => prefix_tokens(
                seq![Token { kind: k, start: i as usize, end: (i + 1) as usize }],
                lex_from(s, i + 1),
            ),
            None => Err(i),
        }
    }
}

/// The tokens of a whole source text, or the index of its first stray character.
pub open spec fn lex(s: Seq<char>) -> Result<Seq<Token>, int> {
    lex_from(s, 0)
}

/// A token lies within the text, and a number covers digits only.
pub open spec fn token_fits(s: Seq<char>, t: Token) -> bool {
    &&& t.start < t.end <= s.len()
    &&& t.kind == TokenKind::Number ==> forall|k: int|
        t.start <= k < t.end ==> is_digit(#[trigger] s[k])
}

pub proof fn lemma_lex_from_fits(s: Seq<char>, i: int)
    requires
        0 <= i <= s.len(),
        s.len() <= usize::MAX,
    ensures
        lex_from(s, i) is Ok ==> forall|k: int|
            0 <= k < lex_from(s, i)->Ok_0.len() ==> token_fits(s, #[trigger] lex_from(s, i)->Ok_0[k]),
    decreases s.len() - i,
{
    if i < s.len() {
        if is_space(s[i]) {
            lemma_lex_from_fits(s, i + 1);
        } else if is_digit(s[i]) || is_letter(s[i]) {
            let j = if is_digit(s[i]) { digits_end(s, i + 1) } else { letters_end(s, i + 1) };
            lemma_digits_end_bounds(s, i + 1);
            lemma_letters_end_bounds(s, i + 1);
            lemma_lex_from_fits(s, j);
            if lex_from(s, i) is Ok {
                let r = lex_from(s, i)->Ok_0;
                let rest = lex_from(s, j)->Ok_0;
                assert forall|k: int| 0 <= k < r.len() implies token_fits(s, #[trigger] r[k]) by {
                    if k > 0 {
                        assert(r[k] == rest[k - 1]);
                    }
                }
            }
        } else if symbol_kind(s[i]) is Some {
            lemma_lex_from_fits(s, i + 1);
            if lex_from(s, i) is Ok {
                let r = lex_from(s, i)->Ok_0;
                let rest = lex_from(s, i + 1)->Ok_0;
                assert forall|k: int| 0 <= k < r.len() implies token_fits(s, #[trigger] r[k]) by {
                    if k > 0 {
                        assert(r[k] == rest[k - 1]);
                    }
                }
            }
        }
    }
}

fn char_is_space(c: char) -> (r: bool)
    ensures
        r == is_space(c),
{
    c == ' ' || c == '\t' || c == '\n' || c == '\r'
}

fn char_is_digit(c: char) -> (r: bool)
    ensures
        r == is_digit(c),
{
    '0' <= c && c <= '9'
}

fn char_is_letter(c: char) -> (r: bool)
    ensures
        r == is_letter(c),
{
    'a' <= c && c <= 'z'
}

fn char_symbol_kind(c: char) -> (r: Option<TokenKind>)
    ensures
        r == symbol_kind(c),
{
    if c == '+' {
        Some(TokenKind::Plus)
    } else if c == '-' {
        Some(TokenKind::Minus)
    } else if c == '*' {
        Some(TokenKind::Star)
    } else if c == '/' {
        Some(TokenKind::Slash)
    } else if c == '(' {
        Some(TokenKind::LParen)
    } else if c == ')' {
        Some(TokenKind::RParen)
    } else if c == '=' {
        Some(TokenKind::Equals)
    } else if c == ';' {
        Some(TokenKind::Semicolon)
    } else {
        None
    }
}

/// Whether `c` extends a run of digits (`digits`) or of letters.
fn continues_run(c: char, digits: bool) -> (r: bool)
    ensures
        r == if digits { is_digit(c) } else { is_letter(c) },
{
    if digits {
        char_is_digit(c)
    } else {
        char_is_letter(c)
    }
}

/// The characters of `input`, in order.
pub fn chars_of(input: &str) -> (r: Vec<char>)
    ensures
        r@ == input@,
{
    let mut out: Vec<char> = Vec::new();
    for c in it: input.chars()
        invariant
            out@ == it.seq().subrange(0, it.index() as int),
            it.seq() == input@,
    {
        out.push(c);
    }
    out
}

/// Splits `s` into tokens; the error is the index of the first character that
/// starts no token.
pub fn tokenize(s: &Vec<char>) -> (r: Result<Vec<Token>, usize>)
    ensures
        match r {
            Ok(toks) => lex(s@) == Ok::<Seq<Token>, int>(toks@),
            Err(p) => lex(s@) == Err::<Seq<Token>, int>(p as int),
        },
{
    let n = s.len();
    let mut toks: Vec<Token> = Vec::new();
    let mut i: usize = 0;
    while i < n
        invariant
            0 <= i <= n,
            n == s@.len(),
            lex(s@) == prefix_tokens(toks@, lex_from(s@, i as int)),
        decreases n - i,
    {
        let c = s[i];
        let ghost before = toks@;
        if char_is_space(c) {
            i = i + 1;
        } else if char_is_digit(c) || char_is_letter(c) {
            let digits = char_is_digit(c);
            let mut j: usize = i + 1;
            proof {
                lemma_digits_end_bounds(s@, i + 1);
                lemma_letters_end_bounds(s@, i + 1);
            }
            while j < n && continues_run(s[j], digits)
                invariant
                    i < j <= n,
                    n == s@.len(),
                    digits ==> digits_end(s@, i + 1) == digits_end(s@, j as int),
                    !digits ==> letters_end(s@, i + 1) == letters_end(s@, j as int),
                decreases n - j,
            {
                j = j + 1;
            }
            let kind = if digits { TokenKind::Number } else { TokenKind::Identifier };
            let t = Token { kind, start: i, end: j };
            toks.push(t);
            proof {
                assert(before + (seq![t] + lex_from(s@, j as int)->Ok_0) =~= toks@ + lex_from(s@, j as int)->Ok_0);
            }
            i = j;
        } else {
            match char_symbol_kind(c) {
                Some(k) => {
                    let t = Token { kind: k, start: i, end: i + 1 };
                    toks.push(t);
                    proof {
                        assert(before + (seq![t] + lex_from(s@, i + 1)->Ok_0) =~= toks@ + lex_from(s@, i + 1)->Ok_0);
                    }
                    i = i + 1;
                },
                None => {
                    return Err(i);
                },
            }
        }
    }
    Ok(toks)
}

} // verus!
