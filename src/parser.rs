//! Operator-precedence parsing over a registry of prefix and infix rules.
use vstd::prelude::*;
use crate::expression::{Expression, Operator, Real, RealTerm, Term};
use crate::tokenizer::{Token, TokenClass, Tokenizer};

verus! {

/// How an expression starts at a token of a given class.
#[derive(PartialEq, Eq, Structural, Clone, Copy, Debug)]
pub enum PrefixRule {
    IntLiteral,
    FloatLiteral,
    Name,
    Group,
}

/// How an expression continues at an operator token, given the left operand.
#[derive(PartialEq, Eq, Structural, Clone, Copy, Debug)]
pub enum InfixRule {
    Binary(Operator),
    Assign,
}

/// Why a token sequence is not an expression.
#[derive(PartialEq, Eq, Structural, Clone, Copy, Debug)]
pub enum ParseError {
    UnexpectedEnd,
    NoPrefixRule { position: usize },
    InvalidAssignmentTarget { position: usize },
    MissingRightParen { position: usize },
    TrailingInput { position: usize },
    IntTooLarge { position: usize },
}

/// The prefix rule registered for a token class.
pub open spec fn prefix_rule(c: TokenClass) -> Option<PrefixRule> {
    match c {
        TokenClass::Int => Some(PrefixRule::IntLiteral),
        TokenClass::Float => Some(PrefixRule::FloatLiteral),
        TokenClass::Identifier => Some(PrefixRule::Name),
        TokenClass::LeftParen => Some(PrefixRule::Group),
        _ => None,
    }
}

/// The infix rule registered for a token class, with its precedence.
pub open spec fn infix_rule(c: TokenClass) -> Option<(InfixRule, u8)> {
    match c {
        TokenClass::Equals => Some((InfixRule::Assign, 1u8)),
        TokenClass::Plus => Some((InfixRule::Binary(Operator::Add), 2u8)),
        TokenClass::Minus => Some((InfixRule::Binary(Operator::Subtract), 2u8)),
        TokenClass::Star => Some((InfixRule::Binary(Operator::Multiply), 3u8)),
        TokenClass::Slash => Some((InfixRule::Binary(Operator::Divide), 3u8)),
        _ => None,
    }
}

/// The threshold for the right operand: an assignment is right-associative,
/// the other operators left-associative.
pub open spec fn right_threshold(rule: InfixRule, prec: u8) -> u8 {
    match rule {
        InfixRule::Assign => (prec - 1) as u8,
        InfixRule::Binary(_) => prec,
    }
}

pub open spec fn digit_value(c: char) -> int {
    if '0' <= c && c <= '9' {
        c as int - '0' as int
    } else {
        0
    }
}

/// The number that a run of decimal digits denotes.
pub open spec fn digits_value(d: Seq<char>) -> int
    decreases d.len(),
{
    if d.len() == 0 {
        0
    } else {
        digits_value(d.drop_last()) * 10 + digit_value(d.last())
    }
}

/// The node that an infix rule builds from its operands.
pub open spec fn build_infix(rule: InfixRule, left: Term, right: Term, tok: Token) -> Result<
    Term,
    ParseError,
> {
    match rule {
        InfixRule::Binary(op) => Ok(Term::BinOp { left: Box::new(left), op, right: Box::new(right) }),
        InfixRule::Assign => match left {
            Term::Identifier(n) => Ok(Term::Assignment { identifier: n, value: Box::new(right) }),
            _ => Err(ParseError::InvalidAssignmentTarget { position: tok.start }),
        },
    }
}

/// The expression that starts at token `pos` and binds tighter than `min`,
/// with the position after it.
pub open spec fn parse_expr(s: Seq<char>, t: Seq<Token>, pos: int, min: u8) -> Result<
    (Term, int),
    ParseError,
>
    decreases t.len() - pos, 2int,
{
    if 0 <= pos < t.len() {
        match parse_prefix(s, t, pos) {
            Err(e) => Err(e),
            Ok((left, p)) => if pos < p <= t.len() {
                parse_infix_loop(s, t, p, min, left)
            } else {
                Err(ParseError::UnexpectedEnd)
            },
        }
    } else {
        Err(ParseError::UnexpectedEnd)
    }
}

/// The expression that the prefix rule of token `pos` builds.
pub open spec fn parse_prefix(s: Seq<char>, t: Seq<Token>, pos: int) -> Result<
    (Term, int),
    ParseError,
>
    decreases t.len() - pos, 1int,
{
    if 0 <= pos < t.len() {
        let tok = t[pos];
        let text = s.subrange(tok.start as int, tok.end as int);
        match prefix_rule(tok.class) {
            None => if tok.class == TokenClass::End {
                Err(ParseError::UnexpectedEnd)
            } else {
                Err(ParseError::NoPrefixRule { position: tok.start })
            },
            Some(PrefixRule::IntLiteral) => if digits_value(text) <= i64::MAX {
                Ok((Term::Int(digits_value(text) as i64), pos + 1))
            } else {
                Err(ParseError::IntTooLarge { position: tok.start })
            },
            Some(PrefixRule::FloatLiteral) => Ok((Term::Float(RealTerm::Literal(text)), pos + 1)),
            Some(PrefixRule::Name) => Ok((Term::Identifier(text), pos + 1)),
            Some(PrefixRule::Group) => match parse_expr(s, t, pos + 1, 0) {
                Err(e) => Err(e),
                Ok((inner, p)) => if pos < p < t.len() {
                    if t[p].class == TokenClass::RightParen {
                        Ok((inner, p + 1))
                    } else if t[p].class == TokenClass::End {
                        Err(ParseError::UnexpectedEnd)
                    } else {
                        Err(ParseError::MissingRightParen { position: t[p].start })
                    }
                } else {
                    Err(ParseError::UnexpectedEnd)
                },
            },
        }
    } else {
        Err(ParseError::UnexpectedEnd)
    }
}

/// Extends `left` with each following operator that binds tighter than `min`.
pub open spec fn parse_infix_loop(s: Seq<char>, t: Seq<Token>, p: int, min: u8, left: Term) -> Result<
    (Term, int),
    ParseError,
>
    decreases t.len() - p, 0int,
{
    if 0 <= p < t.len() {
        match infix_rule(t[p].class) {
            Some((rule, prec)) => if prec > min {
                match parse_expr(s, t, p + 1, right_threshold(rule, prec)) {
                    Err(e) => Err(e),
                    Ok((right, q)) => match build_infix(rule, left, right, t[p]) {
                        Err(e) => Err(e),
                        Ok(node) => if p < q <= t.len() {
                            parse_infix_loop(s, t, q, min, node)
                        } else {
                            Err(ParseError::UnexpectedEnd)
                        },
                    },
                }
            } else {
                Ok((left, p))
            },
            None => Ok((left, p)),
        }
    } else {
        Ok((left, p))
    }
}

/// A whole token sequence as one expression, followed by `End`.
pub open spec fn parse_program(s: Seq<char>, t: Seq<Token>) -> Result<Term, ParseError> {
    match parse_expr(s, t, 0, 0) {
        Err(e) => Err(e),
        Ok((e, p)) => if 0 <= p < t.len() && t[p].class == TokenClass::End {
            Ok(e)
        } else if 0 <= p < t.len() {
            Err(ParseError::TrailingInput { position: t[p].start })
        } else {
            Err(ParseError::UnexpectedEnd)
        },
    }
}

proof fn lemma_digits_monotone(s: Seq<char>, a: int, j: int, e: int)
    requires
        0 <= a <= j <= e <= s.len(),
    ensures
        0 <= digits_value(s.subrange(a, j)) <= digits_value(s.subrange(a, e)),
    decreases e - j,
{
    if j < e {
        lemma_digits_monotone(s, a, j, e - 1);
        lemma_digits_nonneg(s.subrange(a, e - 1));
        assert(s.subrange(a, e).drop_last() =~= s.subrange(a, e - 1));
    } else {
        lemma_digits_nonneg(s.subrange(a, j));
    }
}

proof fn lemma_digits_nonneg(d: Seq<char>)
    ensures
        digits_value(d) >= 0,
    decreases d.len(),
{
    if d.len() > 0 {
        lemma_digits_nonneg(d.drop_last());
    }
}

/// Collects characters into a string.
/// Relies on `String: FromIterator<char>`, which keeps the characters in order.
#[verifier::external_body]
fn string_from_chars(cs: Vec<char>) -> (r: String)
    ensures
        r@ == cs@,
{
    cs.into_iter().collect()
}

/// The characters `start..end` of `s` as a string.
fn span_string(s: &Vec<char>, start: usize, end: usize) -> (r: String)
    requires
        start <= end <= s@.len(),
    ensures
        r@ == s@.subrange(start as int, end as int),
{
    let mut out: Vec<char> = Vec::new();
    let mut k: usize = start;
    while k < end
        invariant
            start <= k <= end <= s@.len(),
            out@ == s@.subrange(start as int, k as int),
        decreases end - k,
    {
        out.push(s[k]);
        k = k + 1;
        assert(out@ =~= s@.subrange(start as int, k as int));
    }
    string_from_chars(out)
}

/// The value of the decimal digits `start..end` of `s`, if it fits in an `i64`.
fn parse_int(s: &Vec<char>, start: usize, end: usize) -> (r: Option<i64>)
    requires
        start <= end <= s@.len(),
    ensures
        r is Some <==> digits_value(s@.subrange(start as int, end as int)) <= i64::MAX,
        r is Some ==> r->0 == digits_value(s@.subrange(start as int, end as int)),
{
    let mut v: i64 = 0;
    let mut k: usize = start;
    while k < end
        invariant
            start <= k <= end <= s@.len(),
            v == digits_value(s@.subrange(start as int, k as int)),
            0 <= v,
        decreases end - k,
    {
        let c = s[k];
        let d: i64 = if '0' <= c && c <= '9' {
            (c as u32 - '0' as u32) as i64
        } else {
            0
        };
        proof {
            assert(s@.subrange(start as int, k + 1).drop_last() =~= s@.subrange(
                start as int,
                k as int,
            ));
        }
        if v > (i64::MAX - d) / 10 {
            proof {
                lemma_digits_monotone(s@, start as int, k + 1, end as int);
            }
            return None;
        }
        v = v * 10 + d;
        k = k + 1;
    }
    Some(v)
}

fn prefix_rule_of(c: TokenClass) -> (r: Option<PrefixRule>)
    ensures
        r == prefix_rule(c),
{
    match c {
        TokenClass::Int => Some(PrefixRule::IntLiteral),
        TokenClass::Float => Some(PrefixRule::FloatLiteral),
        TokenClass::Identifier => Some(PrefixRule::Name),
        TokenClass::LeftParen => Some(PrefixRule::Group),
        _ => None,
    }
}

fn infix_rule_of(c: TokenClass) -> (r: Option<(InfixRule, u8)>)
    ensures
        r == infix_rule(c),
{
    match c {
        TokenClass::Equals => Some((InfixRule::Assign, 1u8)),
        TokenClass::Plus => Some((InfixRule::Binary(Operator::Add), 2u8)),
        TokenClass::Minus => Some((InfixRule::Binary(Operator::Subtract), 2u8)),
        TokenClass::Star => Some((InfixRule::Binary(Operator::Multiply), 3u8)),
        TokenClass::Slash => Some((InfixRule::Binary(Operator::Divide), 3u8)),
        _ => None,
    }
}

fn build_infix_node(rule: InfixRule, left: Expression, right: Expression, tok: Token) -> (r: Result<
    Expression,
    ParseError,
>)
    ensures
        match build_infix(rule, left@, right@, tok) {
            Ok(t) => r is Ok && r->Ok_0@ == t,
            Err(e) => r == Err::<Expression, ParseError>(e),
        },
{
    match rule {
        InfixRule::Binary(op) => Ok(Expression::BinOp { left: Box::new(left), op, right: Box::new(right) }),
        InfixRule::Assign => match left {
            Expression::Identifier(n) => Ok(Expression::Assignment { identifier: n, value: Box::new(right) }),
            _ => Err(ParseError::InvalidAssignmentTarget { position: tok.start }),
        },
    }
}

/// What a parse from the tokenizer's old position owes: the expression and
/// the position after it where the model succeeds, the model's error where it fails.
pub open spec fn parse_matches(
    model: Result<(Term, int), ParseError>,
    r: Result<Expression, ParseError>,
    after: &Tokenizer,
) -> bool {
    match model {
        Ok((e, p)) => r is Ok && r->Ok_0@ == e && after.position == p,
        Err(e) => r == Err::<Expression, ParseError>(e),
    }
}

/// The precedence-climbing parser.
pub struct Parser;

impl Parser {
    pub fn new() -> (r: Parser) {
        Parser
    }

    /// Parses the expression at the tokenizer's position whose operators bind
    /// tighter than `precedence`.
    pub fn parse(&self, tokenizer: &mut Tokenizer, precedence: u8) -> (r: Result<
        Expression,
        ParseError,
    >)
        requires
            old(tokenizer).wf(),
        ensures
            final(tokenizer).wf(),
            final(tokenizer).chars == old(tokenizer).chars,
            final(tokenizer).tokens == old(tokenizer).tokens,
            parse_matches(
                parse_expr(
                    old(tokenizer).chars@,
                    old(tokenizer).tokens@,
                    old(tokenizer).position as int,
                    precedence,
                ),
                r,
                final(tokenizer),
            ),
            r is Ok ==> final(tokenizer).position > old(tokenizer).position,
        decreases old(tokenizer).tokens@.len() - old(tokenizer).position, 2int,
    {
        let ghost s = tokenizer.chars@;
        let ghost t = tokenizer.tokens@;
        let ghost pos0 = tokenizer.position as int;
        let mut left = match self.parse_prefix(tokenizer) {
            Ok(e) => e,
            Err(e) => return Err(e),
        };
        loop
            invariant
                tokenizer.wf(),
                tokenizer.chars == old(tokenizer).chars,
                tokenizer.tokens == old(tokenizer).tokens,
                s == old(tokenizer).chars@,
                t == old(tokenizer).tokens@,
                pos0 == old(tokenizer).position,
                pos0 < tokenizer.position,
                parse_expr(s, t, pos0, precedence) == parse_infix_loop(
                    s,
                    t,
                    tokenizer.position as int,
                    precedence,
                    left@,
                ),
            decreases t.len() - tokenizer.position,
        {
            let tok = tokenizer.peek();
            match infix_rule_of(tok.class) {
                None => {
                    return Ok(left);
                },
                Some((rule, prec)) => {
                    if prec <= precedence {
                        return Ok(left);
                    }
                    let _ = tokenizer.next();
                    let rmin: u8 = match rule {
                        InfixRule::Assign => prec - 1,
                        InfixRule::Binary(_) => prec,
                    };
                    let right = match self.parse(tokenizer, rmin) {
                        Ok(e) => e,
                        Err(e) => return Err(e),
                    };
                    left = match build_infix_node(rule, left, right, tok) {
                        Ok(e) => e,
                        Err(e) => return Err(e),
                    };
                },
            }
        }
    }

    /// Consumes one token and applies its prefix rule.
    fn parse_prefix(&self, tokenizer: &mut Tokenizer) -> (r: Result<Expression, ParseError>)
        requires
            old(tokenizer).wf(),
        ensures
            final(tokenizer).wf(),
            final(tokenizer).chars == old(tokenizer).chars,
            final(tokenizer).tokens == old(tokenizer).tokens,
            parse_matches(
                parse_prefix(
                    old(tokenizer).chars@,
                    old(tokenizer).tokens@,
                    old(tokenizer).position as int,
                ),
                r,
                final(tokenizer),
            ),
            r is Ok ==> final(tokenizer).position > old(tokenizer).position,
        decreases old(tokenizer).tokens@.len() - old(tokenizer).position, 1int,
    {
        proof {
            tokenizer.lemma_fits();
        }
        let ghost pos0 = tokenizer.position as int;
        let tok = tokenizer.next();
        assert(tok.start <= tok.end <= tokenizer.chars@.len());
        match prefix_rule_of(tok.class) {
            None => {
                if tok.class == TokenClass::End {
                    Err(ParseError::UnexpectedEnd)
                } else {
                    Err(ParseError::NoPrefixRule { position: tok.start })
                }
            },
            Some(PrefixRule::IntLiteral) => match parse_int(&tokenizer.chars, tok.start, tok.end) {
                Some(v) => Ok(Expression::Int(v)),
                None => Err(ParseError::IntTooLarge { position: tok.start }),
            },
            Some(PrefixRule::FloatLiteral) => {
                let text = span_string(&tokenizer.chars, tok.start, tok.end);
                Ok(Expression::Float(Real::Literal(text)))
            },
            Some(PrefixRule::Name) => {
                let text = span_string(&tokenizer.chars, tok.start, tok.end);
                Ok(Expression::Identifier(text))
            },
            Some(PrefixRule::Group) => {
                let inner = match self.parse(tokenizer, 0) {
                    Ok(e) => e,
                    Err(e) => return Err(e),
                };
                proof {
                    tokenizer.lemma_fits();
                }
                let close = tokenizer.peek();
                if close.class == TokenClass::RightParen {
                    let _ = tokenizer.next();
                    Ok(inner)
                } else if close.class == TokenClass::End {
                    Err(ParseError::UnexpectedEnd)
                } else {
                    Err(ParseError::MissingRightParen { position: close.start })
                }
            },
        }
    }

    /// Parses the whole of the tokenizer's input as one expression.
    pub fn parse_all(&self, tokenizer: &mut Tokenizer) -> (r: Result<Expression, ParseError>)
        requires
            old(tokenizer).wf(),
            old(tokenizer).position == 0,
        ensures
            match parse_program(old(tokenizer).chars@, old(tokenizer).tokens@) {
                Ok(e) => r is Ok && r->Ok_0@ == e,
                Err(e) => r == Err::<Expression, ParseError>(e),
            },
    {
        let e = match self.parse(tokenizer, 0) {
            Ok(e) => e,
            Err(e) => return Err(e),
        };
        let tok = tokenizer.peek();
        if tok.class == TokenClass::End {
            Ok(e)
        } else {
            Err(ParseError::TrailingInput { position: tok.start })
        }
    }
}

} // verus!
