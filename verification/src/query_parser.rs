//! The query language: tokens and tokenizer, the expression syntax tree and
//! its recursive-descent parser, and the compiler from syntax trees to the
//! text of an equivalent jq filter expression.

use vstd::prelude::*;

use crate::text::chars_of;
use crate::text::eqi_seq;
use crate::text::is_unicode_alphanumeric;
use crate::text::is_unicode_whitespace;
use crate::text::range_eqi_str;
use crate::text::string_of_range;

verus! {

/// One token of the query language.
#[derive(Debug, PartialEq, Clone)]
pub enum Token {
    Identifier(String),
    Operator(String),
    StringLiteral(String),
    And,
    Or,
    Not,
    LParen,
    RParen,
}

/// The mathematical form of a token, over character sequences.
pub enum TokenV {
    Identifier(Seq<char>),
    Operator(Seq<char>),
    StringLiteral(Seq<char>),
    And,
    Or,
    Not,
    LParen,
    RParen,
}

impl View for Token {
    type V = TokenV;

    open spec fn view(&self) -> TokenV {
        match self {
            Token::Identifier(s) => TokenV::Identifier(s@),
            Token::Operator(s) => TokenV::Operator(s@),
            Token::StringLiteral(s) => TokenV::StringLiteral(s@),
            Token::And => TokenV::And,
            Token::Or => TokenV::Or,
            Token::Not => TokenV::Not,
            Token::LParen => TokenV::LParen,
            Token::RParen => TokenV::RParen,
        }
    }
}

/// Why tokenizing or parsing a query failed. `at` is a character offset for
/// the tokenizer error and a token offset for the parser errors.
#[derive(Debug, PartialEq, Eq, Clone, Copy)]
pub enum ParseError {
    UnsupportedChar { at: usize },
    ExpectedField { at: usize },
    ExpectedOperator { at: usize },
    ExpectedValue { at: usize },
    ExpectedClosingParen { at: usize },
}

pub open spec fn spec_is_operator_char(c: char) -> bool {
    c == '=' || c == '!' || c == '>' || c == '<'
}

fn is_operator_char(c: char) -> (r: bool)
    ensures
        r == spec_is_operator_char(c),
{
    c == '=' || c == '!' || c == '>' || c == '<'
}

/// A character that may stand in an identifier run.
pub open spec fn is_word_char(c: char) -> bool {
    is_unicode_alphanumeric(c) || c == '_' || c == '-'
}

fn is_word_char_exec(c: char) -> (r: bool)
    ensures
        r == is_word_char(c),
{
    c.is_alphanumeric() || c == '_' || c == '-'
}

/// The first position at or after `i` whose character ends an identifier run.
pub open spec fn word_end(s: Seq<char>, i: int) -> int
    decreases s.len() - i,
{
    if i < 0 || i >= s.len() {
        i
    } else if is_word_char(s[i]) {
        word_end(s, i + 1)
    } else {
        i
    }
}

/// The position of the closing double quote at or after `i`, or the input's
/// end if the literal is unterminated.
pub open spec fn lit_end(s: Seq<char>, i: int) -> int
    decreases s.len() - i,
{
    if i < 0 || i >= s.len() {
        s.len() as int
    } else if s[i] == '"' {
        i
    } else {
        lit_end(s, i + 1)
    }
}

proof fn lemma_word_end_bounds(s: Seq<char>, i: int)
    requires
        0 <= i <= s.len(),
    ensures
        i <= word_end(s, i) <= s.len(),
        i < s.len() && is_word_char(s[i]) ==> i + 1 <= word_end(s, i),
    decreases s.len() - i,
{
    if i < s.len() && is_word_char(s[i]) {
        lemma_word_end_bounds(s, i + 1);
    }
}

proof fn lemma_lit_end_bounds(s: Seq<char>, i: int)
    requires
        0 <= i <= s.len(),
    ensures
        i <= lit_end(s, i) <= s.len(),
    decreases s.len() - i,
{
    if i < s.len() && s[i] != '"' {
        lemma_lit_end_bounds(s, i + 1);
    }
}

/// An identifier run is matched case-insensitively against the keywords.
pub open spec fn word_token(w: Seq<char>) -> TokenV {
    if eqi_seq(w, "and"@) {
        TokenV::And
    } else if eqi_seq(w, "or"@) {
        TokenV::Or
    } else if eqi_seq(w, "not"@) {
        TokenV::Not
    } else {
        TokenV::Identifier(w)
    }
}

pub open spec fn tok_cons(t: TokenV, rest: Result<Seq<TokenV>, ParseError>) -> Result<
    Seq<TokenV>,
    ParseError,
> {
    match rest {
        Ok(ts) => Ok(seq![t] + ts),
        Err(e) => Err(e),
    }
}

/// The token stream of `s` from position `i` on: whitespace separates tokens,
/// parentheses and one- or two-character operators stand for themselves, a
/// double quote opens a literal read verbatim to the next double quote (or,
/// leniently, to the end of the input), identifier runs become keywords or
/// identifiers, and any other character is unsupported.
pub open spec fn spec_tokenize_at(s: Seq<char>, i: int) -> Result<Seq<TokenV>, ParseError>
    decreases s.len() - i,
    via spec_tokenize_at_decreases
{
    if i < 0 || i >= s.len() {
        Ok(Seq::empty())
    } else {
        let c = s[i];
        if is_unicode_whitespace(c) {
            spec_tokenize_at(s, i + 1)
        } else if c == '(' {
            tok_cons(TokenV::LParen, spec_tokenize_at(s, i + 1))
        } else if c == ')' {
            tok_cons(TokenV::RParen, spec_tokenize_at(s, i + 1))
        } else if c == '"' {
            let j = lit_end(s, i + 1);
            let next = if j < s.len() {
                j + 1
            } else {
                j
            };
            tok_cons(TokenV::StringLiteral(s.subrange(i + 1, j)), spec_tokenize_at(s, next))
        } else if spec_is_operator_char(c) {
            let j: int = if i + 1 < s.len() && spec_is_operator_char(s[i + 1]) {
                i + 2
            } else {
                i + 1
            };
            tok_cons(TokenV::Operator(s.subrange(i, j)), spec_tokenize_at(s, j))
        } else if is_word_char(c) {
            let j = word_end(s, i);
            tok_cons(word_token(s.subrange(i, j)), spec_tokenize_at(s, j))
        } else {
            Err(ParseError::UnsupportedChar { at: i as usize })
        }
    }
}

#[via_fn]
proof fn spec_tokenize_at_decreases(s: Seq<char>, i: int) {
    if 0 <= i && i < s.len() {
        lemma_lit_end_bounds(s, i + 1);
        lemma_word_end_bounds(s, i);
    }
}

/// The token stream of a whole query text.
pub open spec fn spec_tokenize(s: Seq<char>) -> Result<Seq<TokenV>, ParseError> {
    spec_tokenize_at(s, 0)
}

pub open spec fn views_of(v: Seq<Token>) -> Seq<TokenV> {
    v.map_values(|t: Token| t@)
}

proof fn lemma_word_end_char(s: Seq<char>, i: int, j: int)
    requires
        0 <= i <= j <= s.len(),
        forall|m: int| i <= m < j ==> is_word_char(s[m]),
        j == s.len() || !is_word_char(s[j]),
    ensures
        word_end(s, i) == j,
    decreases j - i,
{
    if i < j {
        lemma_word_end_char(s, i + 1, j);
    }
}

proof fn lemma_lit_end_char(s: Seq<char>, i: int, j: int)
    requires
        0 <= i <= j <= s.len(),
        forall|m: int| i <= m < j ==> s[m] != '"',
        j == s.len() || s[j] == '"',
    ensures
        lit_end(s, i) == j,
    decreases j - i,
{
    if i < j {
        lemma_lit_end_char(s, i + 1, j);
    }
}

proof fn lemma_views_push(v: Seq<Token>, t: Token)
    ensures
        views_of(v.push(t)) == views_of(v).push(t@),
{
    assert(views_of(v.push(t)) =~= views_of(v).push(t@));
}

/// Tokenizes the input query string.
pub fn tokenize(input: &str) -> (r: Result<Vec<Token>, ParseError>)
    ensures
        (match spec_tokenize(input@) {
            Ok(ts) => r matches Ok(v) && views_of(v@) == ts,
            Err(e) => r matches Err(pe) && pe == e,
        }),
{
    let cs = chars_of(input);
    let n: usize = cs.len();
    let mut tokens: Vec<Token> = Vec::new();
    let mut i: usize = 0;
    while i < n
        invariant
            cs@ == input@,
            n == cs@.len(),
            i <= n,
            spec_tokenize(input@) == (match spec_tokenize_at(input@, i as int) {
                Ok(ts) => Ok::<Seq<TokenV>, ParseError>(views_of(tokens@) + ts),
                Err(e) => Err::<Seq<TokenV>, ParseError>(e),
            }),
        decreases n - i,
    {
        let ghost i0 = i as int;
        let ghost toks0 = tokens@;
        let c = cs[i];
        if c.is_whitespace() {
            assert(spec_tokenize_at(input@, i0) == spec_tokenize_at(input@, i0 + 1));
            i = i + 1;
        } else if c == '(' {
            assert(spec_tokenize_at(input@, i0) == tok_cons(
                TokenV::LParen,
                spec_tokenize_at(input@, i0 + 1),
            ));
            tokens.push(Token::LParen);
            i = i + 1;
            proof {
                lemma_views_push(toks0, Token::LParen);
                step_ok(views_of(toks0), TokenV::LParen, spec_tokenize_at(input@, i as int));
            }
        } else if c == ')' {
            assert(spec_tokenize_at(input@, i0) == tok_cons(
                TokenV::RParen,
                spec_tokenize_at(input@, i0 + 1),
            ));
            tokens.push(Token::RParen);
            i = i + 1;
            proof {
                lemma_views_push(toks0, Token::RParen);
                step_ok(views_of(toks0), TokenV::RParen, spec_tokenize_at(input@, i as int));
            }
        } else if c == '"' {
            let start = i + 1;
            let mut j = start;
            while j < n && cs[j] != '"'
                invariant
                    cs@ == input@,
                    n == cs@.len(),
                    start <= j <= n,
                    forall|m: int| start <= m < j ==> cs@[m] != '"',
                decreases n - j,
            {
                j = j + 1;
            }
            proof {
                lemma_lit_end_char(input@, start as int, j as int);
            }
            let lit = string_of_range(&cs, start, j);
            let ghost tok = TokenV::StringLiteral(input@.subrange(start as int, j as int));
            assert(lit@ == input@.subrange(start as int, j as int));
            assert(spec_tokenize_at(input@, i0) == tok_cons(
                tok,
                spec_tokenize_at(
                    input@,
                    if j < n {
                        j + 1
                    } else {
                        j as int
                    },
                ),
            ));
            tokens.push(Token::StringLiteral(lit));
            i = if j < n {
                j + 1
            } else {
                j
            };
            proof {
                lemma_views_push(toks0, Token::StringLiteral(lit));
                step_ok(views_of(toks0), tok, spec_tokenize_at(input@, i as int));
            }
        } else if is_operator_char(c) {
            let j: usize = if i + 1 < n && is_operator_char(cs[i + 1]) {
                i + 2
            } else {
                i + 1
            };
            let op = string_of_range(&cs, i, j);
            let ghost tok = TokenV::Operator(input@.subrange(i as int, j as int));
            assert(spec_tokenize_at(input@, i0) == tok_cons(
                tok,
                spec_tokenize_at(input@, j as int),
            ));
            tokens.push(Token::Operator(op));
            i = j;
            proof {
                lemma_views_push(toks0, Token::Operator(op));
                step_ok(views_of(toks0), tok, spec_tokenize_at(input@, i as int));
            }
        } else if is_word_char_exec(c) {
            let mut j = i;
            while j < n && is_word_char_exec(cs[j])
                invariant
                    cs@ == input@,
                    n == cs@.len(),
                    i <= j <= n,
                    forall|m: int| i <= m < j ==> is_word_char(cs@[m]),
                decreases n - j,
            {
                j = j + 1;
            }
            proof {
                lemma_word_end_char(input@, i as int, j as int);
            }
            let ghost w = input@.subrange(i as int, j as int);
            let ghost tok = word_token(w);
            assert(spec_tokenize_at(input@, i0) == tok_cons(
                tok,
                spec_tokenize_at(input@, j as int),
            ));
            let t: Token = if range_eqi_str(&cs, i, j, "and") {
                Token::And
            } else if range_eqi_str(&cs, i, j, "or") {
                Token::Or
            } else if range_eqi_str(&cs, i, j, "not") {
                Token::Not
            } else {
                Token::Identifier(string_of_range(&cs, i, j))
            };
            assert(t@ == tok);
            tokens.push(t);
            i = j;
            proof {
                lemma_views_push(toks0, t);
                step_ok(views_of(toks0), tok, spec_tokenize_at(input@, i as int));
            }
        } else {
            assert(spec_tokenize_at(input@, i0) == Err::<Seq<TokenV>, ParseError>(
                ParseError::UnsupportedChar { at: i },
            ));
            return Err(ParseError::UnsupportedChar { at: i });
        }
    }
    assert(spec_tokenize_at(input@, i as int) == Ok::<Seq<TokenV>, ParseError>(Seq::empty()));
    proof {
        assert(views_of(tokens@) + Seq::<TokenV>::empty() =~= views_of(tokens@));
    }
    Ok(tokens)
}

/// A query expression: a leaf comparison of one field against one value, or
/// a boolean combination of expressions.
#[derive(Debug, PartialEq)]
pub enum Expr {
    Condition { field: String, op: String, value: String },
    And(Box<Expr>, Box<Expr>),
    Or(Box<Expr>, Box<Expr>),
    Not(Box<Expr>),
}

/// The mathematical form of an expression, over character sequences.
pub enum ExprV {
    Condition { field: Seq<char>, op: Seq<char>, value: Seq<char> },
    And(Box<ExprV>, Box<ExprV>),
    Or(Box<ExprV>, Box<ExprV>),
    Not(Box<ExprV>),
}

impl View for Expr {
    type V = ExprV;

    open spec fn view(&self) -> ExprV
        decreases self,
    {
        match self {
            Expr::Condition { field, op, value } => ExprV::Condition {
                field: field@,
                op: op@,
                value: value@,
            },
            Expr::And(l, r) => ExprV::And(Box::new((**l)@), Box::new((**r)@)),
            Expr::Or(l, r) => ExprV::Or(Box::new((**l)@), Box::new((**r)@)),
            Expr::Not(e) => ExprV::Not(Box::new((**e)@)),
        }
    }
}

/// A parse position `p` reached from position `i`, clamped so that it cannot
/// leave `[i, len]`; parse results in fact always lie in that range (see the
/// bounds lemmas), so the clamp never alters a reachable value.
pub open spec fn adv_from(i: int, p: int, len: int) -> int {
    if p < i {
        i
    } else if p > len {
        len
    } else {
        p
    }
}

/// As `adv_from`, but clamped into `[i + 1, len]`.
pub open spec fn adv_next(i: int, p: int, len: int) -> int {
    if p < i + 1 {
        i + 1
    } else if p > len {
        len
    } else {
        p
    }
}

/// condition := IDENTIFIER OPERATOR ( IDENTIFIER | STRING )
pub open spec fn p_condition(ts: Seq<TokenV>, i: int) -> Result<(ExprV, int), ParseError> {
    if !(0 <= i < ts.len() && ts[i] is Identifier) {
        Err(ParseError::ExpectedField { at: i as usize })
    } else if !(i + 1 < ts.len() && ts[i + 1] is Operator) {
        Err(ParseError::ExpectedOperator { at: (i + 1) as usize })
    } else if i + 2 < ts.len() && ts[i + 2] is Identifier {
        Ok(
            (
                ExprV::Condition {
                    field: ts[i]->Identifier_0,
                    op: ts[i + 1]->Operator_0,
                    value: ts[i + 2]->Identifier_0,
                },
                i + 3,
            ),
        )
    } else if i + 2 < ts.len() && ts[i + 2] is StringLiteral {
        Ok(
            (
                ExprV::Condition {
                    field: ts[i]->Identifier_0,
                    op: ts[i + 1]->Operator_0,
                    value: ts[i + 2]->StringLiteral_0,
                },
                i + 3,
            ),
        )
    } else {
        Err(ParseError::ExpectedValue { at: (i + 2) as usize })
    }
}

/// primary := "(" expression ")" | condition
pub open spec fn p_primary(ts: Seq<TokenV>, i: int) -> Result<(ExprV, int), ParseError>
    decreases ts.len() - i, 1int,
{
    if 0 <= i < ts.len() && ts[i] is LParen {
        match p_or(ts, i + 1) {
            Ok((e, p)) => if 0 <= p < ts.len() && ts[p] is RParen {
                Ok((e, p + 1))
            } else {
                Err(ParseError::ExpectedClosingParen { at: p as usize })
            },
            Err(e) => Err(e),
        }
    } else {
        p_condition(ts, i)
    }
}

/// unary := "not" unary | primary
pub open spec fn p_unary(ts: Seq<TokenV>, i: int) -> Result<(ExprV, int), ParseError>
    decreases ts.len() - i, 2int,
{
    if 0 <= i < ts.len() && ts[i] is Not {
        match p_unary(ts, i + 1) {
            Ok((e, p)) => Ok((ExprV::Not(Box::new(e)), p)),
            Err(e) => Err(e),
        }
    } else {
        p_primary(ts, i)
    }
}

/// The left-associative tail of and_expr: ( "and" unary )*
pub open spec fn p_and_more(ts: Seq<TokenV>, e: ExprV, i: int) -> Result<(ExprV, int), ParseError>
    decreases ts.len() - i, 3int,
{
    if 0 <= i < ts.len() && ts[i] is And {
        match p_unary(ts, i + 1) {
            Ok((rhs, p)) => p_and_more(
                ts,
                ExprV::And(Box::new(e), Box::new(rhs)),
                adv_next(i, p, ts.len() as int),
            ),
            Err(err) => Err(err),
        }
    } else {
        Ok((e, i))
    }
}

/// and_expr := unary ( "and" unary )*
pub open spec fn p_and(ts: Seq<TokenV>, i: int) -> Result<(ExprV, int), ParseError>
    decreases ts.len() - i, 4int,
{
    if i > ts.len() {
        p_unary(ts, i)
    } else {
        match p_unary(ts, i) {
            Ok((e, p)) => p_and_more(ts, e, adv_from(i, p, ts.len() as int)),
            Err(err) => Err(err),
        }
    }
}

/// The left-associative tail of or_expr: ( "or" and_expr )*
pub open spec fn p_or_more(ts: Seq<TokenV>, e: ExprV, i: int) -> Result<(ExprV, int), ParseError>
    decreases ts.len() - i, 5int,
{
    if 0 <= i < ts.len() && ts[i] is Or {
        match p_and(ts, i + 1) {
            Ok((rhs, p)) => p_or_more(
                ts,
                ExprV::Or(Box::new(e), Box::new(rhs)),
                adv_next(i, p, ts.len() as int),
            ),
            Err(err) => Err(err),
        }
    } else {
        Ok((e, i))
    }
}

/// or_expr := and_expr ( "or" and_expr )*
pub open spec fn p_or(ts: Seq<TokenV>, i: int) -> Result<(ExprV, int), ParseError>
    decreases ts.len() - i, 6int,
{
    if i > ts.len() {
        p_and(ts, i)
    } else {
        match p_and(ts, i) {
            Ok((e, p)) => p_or_more(ts, e, adv_from(i, p, ts.len() as int)),
            Err(err) => Err(err),
        }
    }
}

/// expression := or_expr; trailing tokens after a complete expression are
/// left unexamined.
pub open spec fn p_expression(ts: Seq<TokenV>) -> Result<ExprV, ParseError> {
    match p_or(ts, 0) {
        Ok((e, p)) => Ok(e),
        Err(err) => Err(err),
    }
}

/// What parsing a whole query text yields.
pub open spec fn spec_parse_query(s: Seq<char>) -> Result<ExprV, ParseError> {
    match spec_tokenize(s) {
        Ok(ts) => p_expression(ts),
        Err(e) => Err(e),
    }
}

pub proof fn lemma_p_condition_bounds(ts: Seq<TokenV>, i: int)
    ensures
        (match p_condition(ts, i) {
            Ok((e, p)) => 0 <= i && i < p <= ts.len(),
            Err(_) => true,
        }),
{
}

pub proof fn lemma_p_primary_bounds(ts: Seq<TokenV>, i: int)
    ensures
        (match p_primary(ts, i) {
            Ok((e, p)) => 0 <= i && i < p <= ts.len(),
            Err(_) => true,
        }),
    decreases ts.len() - i, 1int,
{
    if 0 <= i < ts.len() && ts[i] is LParen {
        lemma_p_or_bounds(ts, i + 1);
    } else {
        lemma_p_condition_bounds(ts, i);
    }
}

pub proof fn lemma_p_unary_bounds(ts: Seq<TokenV>, i: int)
    ensures
        (match p_unary(ts, i) {
            Ok((e, p)) => 0 <= i && i < p <= ts.len(),
            Err(_) => true,
        }),
    decreases ts.len() - i, 2int,
{
    if 0 <= i < ts.len() && ts[i] is Not {
        lemma_p_unary_bounds(ts, i + 1);
    } else {
        lemma_p_primary_bounds(ts, i);
    }
}

pub proof fn lemma_p_and_more_bounds(ts: Seq<TokenV>, e: ExprV, i: int)
    requires
        0 <= i <= ts.len(),
    ensures
        (match p_and_more(ts, e, i) {
            Ok((e2, p)) => i <= p <= ts.len(),
            Err(_) => true,
        }),
    decreases ts.len() - i, 3int,
{
    if 0 <= i < ts.len() && ts[i] is And {
        lemma_p_unary_bounds(ts, i + 1);
        match p_unary(ts, i + 1) {
            Ok((rhs, p)) => {
                assert(adv_next(i, p, ts.len() as int) == p);
                lemma_p_and_more_bounds(ts, ExprV::And(Box::new(e), Box::new(rhs)), p);
            },
            Err(_) => {},
        }
    }
}

pub proof fn lemma_p_and_bounds(ts: Seq<TokenV>, i: int)
    ensures
        (match p_and(ts, i) {
            Ok((e, p)) => 0 <= i && i < p <= ts.len(),
            Err(_) => true,
        }),
    decreases ts.len() - i, 4int,
{
    lemma_p_unary_bounds(ts, i);
    if i <= ts.len() {
        match p_unary(ts, i) {
            Ok((e, p)) => {
                assert(adv_from(i, p, ts.len() as int) == p);
                lemma_p_and_more_bounds(ts, e, p);
            },
            Err(_) => {},
        }
    }
}

pub proof fn lemma_p_or_more_bounds(ts: Seq<TokenV>, e: ExprV, i: int)
    requires
        0 <= i <= ts.len(),
    ensures
        (match p_or_more(ts, e, i) {
            Ok((e2, p)) => i <= p <= ts.len(),
            Err(_) => true,
        }),
    decreases ts.len() - i, 5int,
{
    if 0 <= i < ts.len() && ts[i] is Or {
        lemma_p_and_bounds(ts, i + 1);
        match p_and(ts, i + 1) {
            Ok((rhs, p)) => {
                assert(adv_next(i, p, ts.len() as int) == p);
                lemma_p_or_more_bounds(ts, ExprV::Or(Box::new(e), Box::new(rhs)), p);
            },
            Err(_) => {},
        }
    }
}

pub proof fn lemma_p_or_bounds(ts: Seq<TokenV>, i: int)
    ensures
        (match p_or(ts, i) {
            Ok((e, p)) => 0 <= i && i < p <= ts.len(),
            Err(_) => true,
        }),
    decreases ts.len() - i, 6int,
{
    lemma_p_and_bounds(ts, i);
    if i <= ts.len() {
        match p_and(ts, i) {
            Ok((e, p)) => {
                assert(adv_from(i, p, ts.len() as int) == p);
                lemma_p_or_more_bounds(ts, e, p);
            },
            Err(_) => {},
        }
    }
}

/// The recursive-descent parser over a token stream.
struct Parser {
    tokens: Vec<Token>,
    pos: usize,
}

impl Parser {
    spec fn toks(&self) -> Seq<TokenV> {
        views_of(self.tokens@)
    }

    spec fn wf(&self) -> bool {
        self.pos <= self.tokens@.len()
    }

    fn new(tokens: Vec<Token>) -> (r: Parser)
        ensures
            r.tokens@ == tokens@,
            r.pos == 0,
            r.wf(),
    {
        Parser { tokens, pos: 0 }
    }

    fn parse_condition(&mut self) -> (r: Result<Expr, ParseError>)
        requires
            old(self).wf(),
        ensures
            final(self).tokens@ == old(self).tokens@,
            final(self).wf(),
            old(self).pos <= final(self).pos,
            (match (r, p_condition(old(self).toks(), old(self).pos as int)) {
                (Ok(e), Ok((ev, p))) => e@ == ev && final(self).pos == p,
                (Err(e1), Err(e2)) => e1 == e2,
                _ => false,
            }),
    {
        let n = self.tokens.len();
        if !(self.pos < n) {
            return Err(ParseError::ExpectedField { at: self.pos });
        }
        let field: String = match &self.tokens[self.pos] {
            Token::Identifier(s) => s.clone(),
            _ => {
                return Err(ParseError::ExpectedField { at: self.pos });
            },
        };
        if !(self.pos + 1 < n) {
            return Err(ParseError::ExpectedOperator { at: self.pos + 1 });
        }
        let op: String = match &self.tokens[self.pos + 1] {
            Token::Operator(s) => s.clone(),
            _ => {
                return Err(ParseError::ExpectedOperator { at: self.pos + 1 });
            },
        };
        if !(self.pos + 2 < n) {
            return Err(ParseError::ExpectedValue { at: self.pos + 2 });
        }
        let value: String = match &self.tokens[self.pos + 2] {
            Token::Identifier(s) => s.clone(),
            Token::StringLiteral(s) => s.clone(),
            _ => {
                return Err(ParseError::ExpectedValue { at: self.pos + 2 });
            },
        };
        self.pos = self.pos + 3;
        Ok(Expr::Condition { field, op, value })
    }

    fn parse_primary(&mut self) -> (r: Result<Expr, ParseError>)
        requires
            old(self).wf(),
        ensures
            final(self).tokens@ == old(self).tokens@,
            final(self).wf(),
            old(self).pos <= final(self).pos,
            (match (r, p_primary(old(self).toks(), old(self).pos as int)) {
                (Ok(e), Ok((ev, p))) => e@ == ev && final(self).pos == p,
                (Err(e1), Err(e2)) => e1 == e2,
                _ => false,
            }),
        decreases old(self).tokens@.len() - old(self).pos, 1int,
    {
        let is_lparen = self.pos < self.tokens.len() && (match &self.tokens[self.pos] {
            Token::LParen => true,
            _ => false,
        });
        if is_lparen {
            self.pos = self.pos + 1;
            let e = match self.parse_or() {
                Ok(e) => e,
                Err(err) => {
                    return Err(err);
                },
            };
            proof {
                lemma_p_or_bounds(self.toks(), old(self).pos + 1);
            }
            let is_rparen = self.pos < self.tokens.len() && (match &self.tokens[self.pos] {
                Token::RParen => true,
                _ => false,
            });
            if is_rparen {
                self.pos = self.pos + 1;
                Ok(e)
            } else {
                Err(ParseError::ExpectedClosingParen { at: self.pos })
            }
        } else {
            self.parse_condition()
        }
    }

    fn parse_unary(&mut self) -> (r: Result<Expr, ParseError>)
        requires
            old(self).wf(),
        ensures
            final(self).tokens@ == old(self).tokens@,
            final(self).wf(),
            old(self).pos <= final(self).pos,
            (match (r, p_unary(old(self).toks(), old(self).pos as int)) {
                (Ok(e), Ok((ev, p))) => e@ == ev && final(self).pos == p,
                (Err(e1), Err(e2)) => e1 == e2,
                _ => false,
            }),
        decreases old(self).tokens@.len() - old(self).pos, 2int,
    {
        let is_not = self.pos < self.tokens.len() && (match &self.tokens[self.pos] {
            Token::Not => true,
            _ => false,
        });
        if is_not {
            self.pos = self.pos + 1;
            match self.parse_unary() {
                Ok(e) => Ok(Expr::Not(Box::new(e))),
                Err(err) => Err(err),
            }
        } else {
            self.parse_primary()
        }
    }

    fn parse_and(&mut self) -> (r: Result<Expr, ParseError>)
        requires
            old(self).wf(),
        ensures
            final(self).tokens@ == old(self).tokens@,
            final(self).wf(),
            old(self).pos <= final(self).pos,
            (match (r, p_and(old(self).toks(), old(self).pos as int)) {
                (Ok(e), Ok((ev, p))) => e@ == ev && final(self).pos == p,
                (Err(e1), Err(e2)) => e1 == e2,
                _ => false,
            }),
        decreases old(self).tokens@.len() - old(self).pos, 4int,
    {
        let ghost ts = old(self).toks();
        let ghost i0 = old(self).pos as int;
        let mut lhs = match self.parse_unary() {
            Ok(e) => e,
            Err(err) => {
                return Err(err);
            },
        };
        proof {
            lemma_p_unary_bounds(ts, i0);
            assert(p_and(ts, i0) == p_and_more(ts, lhs@, self.pos as int));
        }
        loop
            invariant
                self.wf(),
                self.tokens@ == old(self).tokens@,
                ts == old(self).toks(),
                ts == self.toks(),
                i0 == old(self).pos as int,
                i0 <= self.pos,
                p_and(ts, i0) == p_and_more(ts, lhs@, self.pos as int),
            decreases self.tokens@.len() - self.pos,
        {
            let is_and = self.pos < self.tokens.len() && (match &self.tokens[self.pos] {
                Token::And => true,
                _ => false,
            });
            if is_and {
                let ghost posa = self.pos as int;
                self.pos = self.pos + 1;
                let rhs = match self.parse_unary() {
                    Ok(e) => e,
                    Err(err) => {
                        return Err(err);
                    },
                };
                proof {
                    lemma_p_unary_bounds(ts, posa + 1);
                    assert(adv_next(posa, self.pos as int, ts.len() as int) == self.pos as int);
                }
                lhs = Expr::And(Box::new(lhs), Box::new(rhs));
            } else {
                return Ok(lhs);
            }
        }
    }

    fn parse_or(&mut self) -> (r: Result<Expr, ParseError>)
        requires
            old(self).wf(),
        ensures
            final(self).tokens@ == old(self).tokens@,
            final(self).wf(),
            old(self).pos <= final(self).pos,
            (match (r, p_or(old(self).toks(), old(self).pos as int)) {
                (Ok(e), Ok((ev, p))) => e@ == ev && final(self).pos == p,
                (Err(e1), Err(e2)) => e1 == e2,
                _ => false,
            }),
        decreases old(self).tokens@.len() - old(self).pos, 6int,
    {
        let ghost ts = old(self).toks();
        let ghost i0 = old(self).pos as int;
        let mut lhs = match self.parse_and() {
            Ok(e) => e,
            Err(err) => {
                return Err(err);
            },
        };
        proof {
            lemma_p_and_bounds(ts, i0);
            assert(p_or(ts, i0) == p_or_more(ts, lhs@, self.pos as int));
        }
        loop
            invariant
                self.wf(),
                self.tokens@ == old(self).tokens@,
                ts == old(self).toks(),
                ts == self.toks(),
                i0 == old(self).pos as int,
                i0 <= self.pos,
                p_or(ts, i0) == p_or_more(ts, lhs@, self.pos as int),
            decreases self.tokens@.len() - self.pos,
        {
            let is_or = self.pos < self.tokens.len() && (match &self.tokens[self.pos] {
                Token::Or => true,
                _ => false,
            });
            if is_or {
                let ghost posa = self.pos as int;
                self.pos = self.pos + 1;
                let rhs = match self.parse_and() {
                    Ok(e) => e,
                    Err(err) => {
                        return Err(err);
                    },
                };
                proof {
                    lemma_p_and_bounds(ts, posa + 1);
                    assert(adv_next(posa, self.pos as int, ts.len() as int) == self.pos as int);
                }
                lhs = Expr::Or(Box::new(lhs), Box::new(rhs));
            } else {
                return Ok(lhs);
            }
        }
    }

    fn parse_expression(&mut self) -> (r: Result<Expr, ParseError>)
        requires
            old(self).wf(),
        ensures
            final(self).tokens@ == old(self).tokens@,
            final(self).wf(),
            (match (r, p_or(old(self).toks(), old(self).pos as int)) {
                (Ok(e), Ok((ev, p))) => e@ == ev && final(self).pos == p,
                (Err(e1), Err(e2)) => e1 == e2,
                _ => false,
            }),
        decreases old(self).tokens@.len() - old(self).pos, 7int,
    {
        self.parse_or()
    }
}

/// Parses a query string into an abstract syntax tree.
pub fn parse_query(input: &str) -> (r: Result<Expr, ParseError>)
    ensures
        (match spec_parse_query(input@) {
            Ok(ev) => r matches Ok(e) && e@ == ev,
            Err(pe) => r matches Err(q) && q == pe,
        }),
{
    let tokens = match tokenize(input) {
        Ok(t) => t,
        Err(e) => {
            return Err(e);
        },
    };
    let mut parser = Parser::new(tokens);
    match parser.parse_expression() {
        Ok(e) => Ok(e),
        Err(err) => Err(err),
    }
}

/// The jq text compiled from one leaf condition. A `tag` comparison (field
/// matched case-insensitively) with `=` or `!=` becomes a membership test on
/// the record's `tags` array; every other comparison becomes a direct field
/// comparison in jq syntax, with the field name and value inserted verbatim.
pub open spec fn jq_condition(field: Seq<char>, op: Seq<char>, value: Seq<char>) -> Seq<char> {
    if eqi_seq(field, "tag"@) && op == "="@ {
        "(.tags | index(\""@ + value + "\") != null)"@
    } else if eqi_seq(field, "tag"@) && op == "!="@ {
        "(.tags | index(\""@ + value + "\") == null)"@
    } else {
        "."@ + field + " "@ + op + " \""@ + value + "\""@
    }
}

/// The jq text compiled from an expression. `And`/`Or` become parenthesized
/// jq conjunctions and disjunctions; `Not` becomes `(... | not)`, except that
/// a negated `tag = v` condition is emitted directly as the non-membership
/// test.
pub open spec fn jq_of(e: ExprV) -> Seq<char>
    decreases e,
{
    match e {
        ExprV::Condition { field, op, value } => jq_condition(field, op, value),
        ExprV::And(l, r) => "("@ + jq_of(*l) + " and "@ + jq_of(*r) + ")"@,
        ExprV::Or(l, r) => "("@ + jq_of(*l) + " or "@ + jq_of(*r) + ")"@,
        ExprV::Not(sub) => match *sub {
            ExprV::Condition { field, op, value } => if eqi_seq(field, "tag"@) && op == "="@ {
                "(.tags | index(\""@ + value + "\") == null)"@
            } else {
                "("@ + jq_of(*sub) + " | not)"@
            },
            _ => "("@ + jq_of(*sub) + " | not)"@,
        },
    }
}

/// Converts the syntax tree into a jq expression string.
pub fn build_jq_expression(expr: &Expr) -> (r: String)
    ensures
        r@ == jq_of(expr@),
    decreases expr,
{
    match expr {
        Expr::Condition { field, op, value } => {
            let s = build_jq_condition(field, op, value);
            assert(jq_of(expr@) == jq_condition(field@, op@, value@));
            s
        },
        Expr::And(l, r) => {
            let ls = build_jq_expression(l);
            let rs = build_jq_expression(r);
            let mut s = String::from_str("(");
            s.append(ls.as_str());
            s.append(" and ");
            s.append(rs.as_str());
            s.append(")");
            proof {
                assert(s@ =~= "("@ + jq_of((**l)@) + " and "@ + jq_of((**r)@) + ")"@);
                assert(jq_of(expr@) == "("@ + jq_of((**l)@) + " and "@ + jq_of((**r)@) + ")"@);
            }
            s
        },
        Expr::Or(l, r) => {
            let ls = build_jq_expression(l);
            let rs = build_jq_expression(r);
            let mut s = String::from_str("(");
            s.append(ls.as_str());
            s.append(" or ");
            s.append(rs.as_str());
            s.append(")");
            proof {
                assert(s@ =~= "("@ + jq_of((**l)@) + " or "@ + jq_of((**r)@) + ")"@);
                assert(jq_of(expr@) == "("@ + jq_of((**l)@) + " or "@ + jq_of((**r)@) + ")"@);
            }
            s
        },
        Expr::Not(sub) => {
            proof {
                assert(expr@ == ExprV::Not(Box::new((**sub)@)));
            }
            match &**sub {
                Expr::Condition { field, op, value } => {
                    proof {
                        assert((**sub)@ == (ExprV::Condition {
                            field: field@,
                            op: op@,
                            value: value@,
                        }));
                    }
                    if crate::text::str_eqi(field.as_str(), "tag") && crate::text::str_eq(
                        op.as_str(),
                        "=",
                    ) {
                        let mut s = String::from_str("(.tags | index(\"");
                        s.append(value.as_str());
                        s.append("\") == null)");
                        proof {
                            assert(s@ =~= "(.tags | index(\""@ + value@ + "\") == null)"@);
                            assert(jq_of(expr@) == "(.tags | index(\""@ + value@
                                + "\") == null)"@);
                        }
                        s
                    } else {
                        let inner = build_jq_expression(sub);
                        let mut s = String::from_str("(");
                        s.append(inner.as_str());
                        s.append(" | not)");
                        proof {
                            assert(s@ =~= "("@ + jq_of((**sub)@) + " | not)"@);
                            assert(jq_of(expr@) == "("@ + jq_of((**sub)@) + " | not)"@);
                        }
                        s
                    }
                },
                _ => {
                    proof {
                        assert(!((**sub)@ is Condition));
                    }
                    let inner = build_jq_expression(sub);
                    let mut s = String::from_str("(");
                    s.append(inner.as_str());
                    s.append(" | not)");
                    proof {
                        assert(s@ =~= "("@ + jq_of((**sub)@) + " | not)"@);
                        assert(jq_of(expr@) == "("@ + jq_of((**sub)@) + " | not)"@);
                    }
                    s
                },
            }
        },
    }
}

fn build_jq_condition(field: &String, op: &String, value: &String) -> (r: String)
    ensures
        r@ == jq_condition(field@, op@, value@),
{
    if crate::text::str_eqi(field.as_str(), "tag") && crate::text::str_eq(op.as_str(), "=") {
        let mut s = String::from_str("(.tags | index(\"");
        s.append(value.as_str());
        s.append("\") != null)");
        proof {
            assert(s@ =~= "(.tags | index(\""@ + value@ + "\") != null)"@);
        }
        s
    } else if crate::text::str_eqi(field.as_str(), "tag") && crate::text::str_eq(
        op.as_str(),
        "!=",
    ) {
        let mut s = String::from_str("(.tags | index(\"");
        s.append(value.as_str());
        s.append("\") == null)");
        proof {
            assert(s@ =~= "(.tags | index(\""@ + value@ + "\") == null)"@);
        }
        s
    } else {
        let mut s = String::from_str(".");
        s.append(field.as_str());
        s.append(" ");
        s.append(op.as_str());
        s.append(" \"");
        s.append(value.as_str());
        s.append("\"");
        proof {
            assert(s@ =~= "."@ + field@ + " "@ + op@ + " \""@ + value@ + "\""@);
        }
        s
    }
}

/// Parsing is a pure function of the query text alone: any two parses of the
/// same text yield the very same outcome, so parsing twice yields
/// structurally equal syntax trees.
pub proof fn lemma_parse_deterministic(
    s: Seq<char>,
    r1: Result<ExprV, ParseError>,
    r2: Result<ExprV, ParseError>,
)
    requires
        r1 == spec_parse_query(s),
        r2 == spec_parse_query(s),
    ensures
        r1 == r2,
{
}

/// Precedence law: `or` binds weaker than `and`. A token stream of the
/// shape `c1 or c2 and c3`, where each `ci` is a condition written
/// `IDENTIFIER OPERATOR IDENTIFIER`, parses as `c1 or (c2 and c3)`.
pub proof fn lemma_or_binds_weaker_than_and(
    f1: Seq<char>,
    o1: Seq<char>,
    v1: Seq<char>,
    f2: Seq<char>,
    o2: Seq<char>,
    v2: Seq<char>,
    f3: Seq<char>,
    o3: Seq<char>,
    v3: Seq<char>,
)
    ensures
        ({
            let ts = seq![
                TokenV::Identifier(f1),
                TokenV::Operator(o1),
                TokenV::Identifier(v1),
                TokenV::Or,
                TokenV::Identifier(f2),
                TokenV::Operator(o2),
                TokenV::Identifier(v2),
                TokenV::And,
                TokenV::Identifier(f3),
                TokenV::Operator(o3),
                TokenV::Identifier(v3),
            ];
            let c1 = ExprV::Condition { field: f1, op: o1, value: v1 };
            let c2 = ExprV::Condition { field: f2, op: o2, value: v2 };
            let c3 = ExprV::Condition { field: f3, op: o3, value: v3 };
            p_expression(ts) == Ok::<ExprV, ParseError>(
                ExprV::Or(Box::new(c1), Box::new(ExprV::And(Box::new(c2), Box::new(c3)))),
            )
        }),
{
    let ts = seq![
        TokenV::Identifier(f1),
        TokenV::Operator(o1),
        TokenV::Identifier(v1),
        TokenV::Or,
        TokenV::Identifier(f2),
        TokenV::Operator(o2),
        TokenV::Identifier(v2),
        TokenV::And,
        TokenV::Identifier(f3),
        TokenV::Operator(o3),
        TokenV::Identifier(v3),
    ];
    let c1 = ExprV::Condition { field: f1, op: o1, value: v1 };
    let c2 = ExprV::Condition { field: f2, op: o2, value: v2 };
    let c3 = ExprV::Condition { field: f3, op: o3, value: v3 };
    let and23 = ExprV::And(Box::new(c2), Box::new(c3));
    let or123 = ExprV::Or(Box::new(c1), Box::new(and23));
    assert(ts.len() == 11);
    assert(ts[0] == TokenV::Identifier(f1));
    assert(ts[1] == TokenV::Operator(o1));
    assert(ts[2] == TokenV::Identifier(v1));
    assert(ts[3] == TokenV::Or);
    assert(ts[4] == TokenV::Identifier(f2));
    assert(ts[5] == TokenV::Operator(o2));
    assert(ts[6] == TokenV::Identifier(v2));
    assert(ts[7] == TokenV::And);
    assert(ts[8] == TokenV::Identifier(f3));
    assert(ts[9] == TokenV::Operator(o3));
    assert(ts[10] == TokenV::Identifier(v3));
    assert(p_condition(ts, 0) == Ok::<(ExprV, int), ParseError>((c1, 3)));
    assert(p_primary(ts, 0) == Ok::<(ExprV, int), ParseError>((c1, 3)));
    assert(p_unary(ts, 0) == Ok::<(ExprV, int), ParseError>((c1, 3)));
    assert(p_and_more(ts, c1, 3) == Ok::<(ExprV, int), ParseError>((c1, 3)));
    assert(p_and(ts, 0) == Ok::<(ExprV, int), ParseError>((c1, 3)));
    assert(p_condition(ts, 4) == Ok::<(ExprV, int), ParseError>((c2, 7)));
    assert(p_primary(ts, 4) == Ok::<(ExprV, int), ParseError>((c2, 7)));
    assert(p_unary(ts, 4) == Ok::<(ExprV, int), ParseError>((c2, 7)));
    assert(p_condition(ts, 8) == Ok::<(ExprV, int), ParseError>((c3, 11)));
    assert(p_primary(ts, 8) == Ok::<(ExprV, int), ParseError>((c3, 11)));
    assert(p_unary(ts, 8) == Ok::<(ExprV, int), ParseError>((c3, 11)));
    assert(p_and_more(ts, and23, 11) == Ok::<(ExprV, int), ParseError>((and23, 11)));
    assert(adv_next(7, 11, 11) == 11);
    assert(p_and_more(ts, c2, 7) == Ok::<(ExprV, int), ParseError>((and23, 11)));
    assert(adv_from(4, 7, 11) == 7);
    assert(p_and(ts, 4) == Ok::<(ExprV, int), ParseError>((and23, 11)));
    assert(p_or_more(ts, or123, 11) == Ok::<(ExprV, int), ParseError>((or123, 11)));
    assert(adv_next(3, 11, 11) == 11);
    assert(p_or_more(ts, c1, 3) == Ok::<(ExprV, int), ParseError>((or123, 11)));
    assert(adv_from(0, 3, 11) == 3);
    assert(p_or(ts, 0) == Ok::<(ExprV, int), ParseError>((or123, 11)));
    assert(p_expression(ts) == Ok::<ExprV, ParseError>(or123));
}

/// Precedence law: `not` binds tighter than `and`. A token stream of the
/// shape `not c1 and c2` parses as `(not c1) and c2`.
pub proof fn lemma_not_binds_tighter_than_and(
    f1: Seq<char>,
    o1: Seq<char>,
    v1: Seq<char>,
    f2: Seq<char>,
    o2: Seq<char>,
    v2: Seq<char>,
)
    ensures
        ({
            let ts = seq![
                TokenV::Not,
                TokenV::Identifier(f1),
                TokenV::Operator(o1),
                TokenV::Identifier(v1),
                TokenV::And,
                TokenV::Identifier(f2),
                TokenV::Operator(o2),
                TokenV::Identifier(v2),
            ];
            let c1 = ExprV::Condition { field: f1, op: o1, value: v1 };
            let c2 = ExprV::Condition { field: f2, op: o2, value: v2 };
            p_expression(ts) == Ok::<ExprV, ParseError>(
                ExprV::And(Box::new(ExprV::Not(Box::new(c1))), Box::new(c2)),
            )
        }),
{
    let ts = seq![
        TokenV::Not,
        TokenV::Identifier(f1),
        TokenV::Operator(o1),
        TokenV::Identifier(v1),
        TokenV::And,
        TokenV::Identifier(f2),
        TokenV::Operator(o2),
        TokenV::Identifier(v2),
    ];
    let c1 = ExprV::Condition { field: f1, op: o1, value: v1 };
    let c2 = ExprV::Condition { field: f2, op: o2, value: v2 };
    let not1 = ExprV::Not(Box::new(c1));
    let and12 = ExprV::And(Box::new(not1), Box::new(c2));
    assert(ts.len() == 8);
    assert(ts[0] == TokenV::Not);
    assert(ts[1] == TokenV::Identifier(f1));
    assert(ts[2] == TokenV::Operator(o1));
    assert(ts[3] == TokenV::Identifier(v1));
    assert(ts[4] == TokenV::And);
    assert(ts[5] == TokenV::Identifier(f2));
    assert(ts[6] == TokenV::Operator(o2));
    assert(ts[7] == TokenV::Identifier(v2));
    assert(p_condition(ts, 1) == Ok::<(ExprV, int), ParseError>((c1, 4)));
    assert(p_primary(ts, 1) == Ok::<(ExprV, int), ParseError>((c1, 4)));
    assert(p_unary(ts, 1) == Ok::<(ExprV, int), ParseError>((c1, 4)));
    assert(p_unary(ts, 0) == Ok::<(ExprV, int), ParseError>((not1, 4)));
    assert(p_condition(ts, 5) == Ok::<(ExprV, int), ParseError>((c2, 8)));
    assert(p_primary(ts, 5) == Ok::<(ExprV, int), ParseError>((c2, 8)));
    assert(p_unary(ts, 5) == Ok::<(ExprV, int), ParseError>((c2, 8)));
    assert(p_and_more(ts, and12, 8) == Ok::<(ExprV, int), ParseError>((and12, 8)));
    assert(adv_next(4, 8, 8) == 8);
    assert(p_and_more(ts, not1, 4) == Ok::<(ExprV, int), ParseError>((and12, 8)));
    assert(adv_from(0, 4, 8) == 4);
    assert(p_and(ts, 0) == Ok::<(ExprV, int), ParseError>((and12, 8)));
    assert(p_or_more(ts, and12, 8) == Ok::<(ExprV, int), ParseError>((and12, 8)));
    assert(adv_from(0, 8, 8) == 8);
    assert(p_or(ts, 0) == Ok::<(ExprV, int), ParseError>((and12, 8)));
    assert(p_expression(ts) == Ok::<ExprV, ParseError>(and12));
}

proof fn step_ok(done: Seq<TokenV>, t: TokenV, rest: Result<Seq<TokenV>, ParseError>)
    ensures
        (match tok_cons(t, rest) {
            Ok(all) => (match rest {
                Ok(ts) => done + all == done.push(t) + ts,
                Err(_) => false,
            }),
            Err(e) => rest == Err::<Seq<TokenV>, ParseError>(e),
        }),
{
    match rest {
        Ok(ts) => {
            assert(done + (seq![t] + ts) =~= done.push(t) + ts);
        },
        Err(_) => {},
    }
}

} // verus!
