//! Laws of the language, stated over the models and proved.
use vstd::prelude::*;
use crate::evaluator::{EvalError, combine, eval, exact_binop, int_binop};
use crate::expression::{Operator, RealTerm, Term};
use crate::parser::{digit_value, digits_value, infix_rule, parse_expr, parse_program, InfixRule};
use crate::tokenizer::{
    Token,
    TokenClass,
    is_digit,
    lex,
    lex_from,
    number_scan,
    prepend,
    symbol_class,
};
use crate::{InterpretError, interpretation};

verus! {

/// The decimal digit for `d`.
pub open spec fn digit_char(d: nat) -> char {
    if d == 0 {
        '0'
    } else if d == 1 {
        '1'
    } else if d == 2 {
        '2'
    } else if d == 3 {
        '3'
    } else if d == 4 {
        '4'
    } else if d == 5 {
        '5'
    } else if d == 6 {
        '6'
    } else if d == 7 {
        '7'
    } else if d == 8 {
        '8'
    } else {
        '9'
    }
}

/// The decimal rendering of a natural number, without leading zeros.
pub open spec fn decimal(n: nat) -> Seq<char>
    decreases n,
{
    if n < 10 {
        seq![digit_char(n)]
    } else {
        decimal(n / 10).push(digit_char(n % 10))
    }
}

/// The symbol that writes an operator.
pub open spec fn op_symbol(op: Operator) -> char {
    match op {
        Operator::Add => '+',
        Operator::Subtract => '-',
        Operator::Multiply => '*',
        Operator::Divide => '/',
    }
}

pub open spec fn pow10(k: nat) -> nat
    decreases k,
{
    if k == 0 {
        1
    } else {
        10 * pow10((k - 1) as nat)
    }
}

proof fn lemma_digit_char(d: nat)
    requires
        d < 10,
    ensures
        is_digit(digit_char(d)),
        digit_value(digit_char(d)) == d,
{
}

proof fn lemma_decimal_len(n: nat, k: nat)
    requires
        1 <= k,
        n < pow10(k),
    ensures
        decimal(n).len() <= k,
    decreases k,
{
    reveal_with_fuel(pow10, 2);
    if n >= 10 {
        assert(k > 1);
        let p = pow10((k - 1) as nat);
        assert(n / 10 < p) by (nonlinear_arith)
            requires
                n < 10 * p,
        ;
        lemma_decimal_len(n / 10, (k - 1) as nat);
    }
}

/// The rendering of an `i64` has at most 19 digits.
proof fn lemma_decimal_len_i64(n: i64)
    requires
        n >= 0,
    ensures
        decimal(n as nat).len() <= 19,
{
    reveal_with_fuel(pow10, 20);
    assert(pow10(19) == 10_000_000_000_000_000_000nat);
    lemma_decimal_len(n as nat, 19);
}

proof fn lemma_decimal(n: nat)
    ensures
        decimal(n).len() >= 1,
        forall|k: int| 0 <= k < decimal(n).len() ==> is_digit(#[trigger] decimal(n)[k]),
        digits_value(decimal(n)) == n,
    decreases n,
{
    if n < 10 {
        lemma_digit_char(n);
        assert(decimal(n).drop_last() =~= Seq::<char>::empty());
        assert(digits_value(Seq::<char>::empty()) == 0);
        assert(digits_value(decimal(n)) == digit_value(digit_char(n)));
    } else {
        lemma_digit_char(n % 10);
        lemma_decimal(n / 10);
        let d = decimal(n);
        assert(d.drop_last() =~= decimal(n / 10));
        assert(d.last() == digit_char(n % 10));
        assert(n == (n / 10) * 10 + n % 10);
        assert(digits_value(d) == digits_value(decimal(n / 10)) * 10 + digit_value(d.last()));
        assert forall|k: int| 0 <= k < d.len() implies is_digit(#[trigger] d[k]) by {
            if k < d.len() - 1 {
                assert(d[k] == decimal(n / 10)[k]);
            }
        }
    }
}

/// A run of digits followed by neither a digit nor a point scans to its end.
proof fn lemma_scan_digits(s: Seq<char>, i: int, e: int, j: int)
    requires
        0 <= i <= j <= e <= s.len(),
        forall|k: int| i <= k < e ==> is_digit(#[trigger] s[k]),
        e == s.len() || (!is_digit(s[e]) && s[e] != '.'),
    ensures
        number_scan(s, j, false) == (e, false),
    decreases e - j,
{
    if j < e {
        lemma_scan_digits(s, i, e, j + 1);
    }
}

/// Where `s` holds the rendering of `n` from `i` on, followed by nothing or by a
/// space, the scan from `i` yields one integer token over it.
proof fn lemma_lex_decimal(s: Seq<char>, i: int, n: nat)
    requires
        0 <= i,
        i + decimal(n).len() <= s.len() <= usize::MAX,
        s.subrange(i, i + decimal(n).len()) == decimal(n),
        i + decimal(n).len() == s.len() || s[i + decimal(n).len()] == ' ',
    ensures
        lex_from(s, i) == prepend(
            seq![Token { class: TokenClass::Int, start: i as usize, end: (i + decimal(n).len()) as usize }],
            lex_from(s, i + decimal(n).len()),
        ),
{
    lemma_decimal(n);
    let e = i + decimal(n).len();
    assert forall|k: int| i <= k < e implies is_digit(#[trigger] s[k]) by {
        assert(s[k] == s.subrange(i, e)[k - i]);
    }
    lemma_scan_digits(s, i, e, i);
    assert(is_digit(s[i]));
}

/// An integer token that no operator binding tighter than `min` follows
/// parses as its value.
proof fn lemma_parse_int(s: Seq<char>, t: Seq<Token>, pos: int, min: u8, n: nat)
    requires
        0 <= pos,
        pos + 1 < t.len(),
        t[pos].class == TokenClass::Int,
        s.subrange(t[pos].start as int, t[pos].end as int) == decimal(n),
        n <= i64::MAX,
        infix_rule(t[pos + 1].class) is None,
    ensures
        parse_expr(s, t, pos, min) == Ok::<(Term, int), crate::parser::ParseError>(
            (Term::Int(n as i64), pos + 1),
        ),
{
    lemma_decimal(n);
}

/// Mixing an integer and a floating-point operand gives a floating-point value:
/// the operation on the integer promoted to floating point and the other operand,
/// in their order.
pub proof fn lemma_mixed_operands_promote(
    env: Map<Seq<char>, Term>,
    left: Term,
    op: Operator,
    right: Term,
    a: i64,
    y: RealTerm,
)
    ensures
        ({
            let ol = eval(left, env);
            let or = eval(right, ol.env);
            let r = eval(Term::BinOp { left: Box::new(left), op, right: Box::new(right) }, env).result;
            &&& (ol.result == Ok::<Term, EvalError>(Term::Int(a)) && or.result == Ok::<
                Term,
                EvalError,
            >(Term::Float(y))) ==> r == Ok::<Term, EvalError>(
                Term::Float(
                    RealTerm::Op { left: Box::new(RealTerm::FromInt(a)), op, right: Box::new(y) },
                ),
            )
            &&& (ol.result == Ok::<Term, EvalError>(Term::Float(y)) && or.result == Ok::<
                Term,
                EvalError,
            >(Term::Int(a))) ==> r == Ok::<Term, EvalError>(
                Term::Float(
                    RealTerm::Op { left: Box::new(y), op, right: Box::new(RealTerm::FromInt(a)) },
                ),
            )
        }),
{
}

/// Interpreting `a op b`, for integers written in decimal, computes in 64-bit
/// integer arithmetic: the exact result, with division truncated toward zero,
/// where it fits; division by zero and overflow are reported. The environment
/// is left as it was.
pub proof fn lemma_integer_arithmetic(env: Map<Seq<char>, Term>, a: i64, b: i64, op: Operator)
    requires
        a >= 0,
        b >= 0,
    ensures
        ({
            let code = decimal(a as nat) + seq![' ', op_symbol(op), ' '] + decimal(b as nat);
            let m = interpretation(code, env);
            &&& m.env == env
            &&& m.result == match int_binop(a, b, op) {
                Ok(v) => Ok::<(Term, bool, Seq<Seq<char>>), InterpretError>(
                    (Term::Int(v), false, seq![]),
                ),
                Err(e) => Err(InterpretError::Eval(e)),
            }
            &&& (b != 0 && i64::MIN <= exact_binop(a as int, b as int, op) <= i64::MAX) ==> m.result
                == Ok::<(Term, bool, Seq<Seq<char>>), InterpretError>(
                (Term::Int(exact_binop(a as int, b as int, op) as i64), false, seq![]),
            )
        }),
{
    let da = decimal(a as nat);
    let db = decimal(b as nat);
    lemma_decimal(a as nat);
    lemma_decimal(b as nat);
    lemma_decimal_len_i64(a);
    lemma_decimal_len_i64(b);
    let code = da + seq![' ', op_symbol(op), ' '] + db;
    let la = da.len() as int;
    let n = code.len() as int;
    assert(code.subrange(0, la) =~= da);
    assert(code.subrange(la + 3, n) =~= db);
    assert(code[la] == ' ');
    assert(code[la + 1] == op_symbol(op));
    assert(code[la + 2] == ' ');
    let class = symbol_class(op_symbol(op))->0;
    let t0 = Token { class: TokenClass::Int, start: 0usize, end: la as usize };
    let t1 = Token { class, start: (la + 1) as usize, end: (la + 2) as usize };
    let t2 = Token { class: TokenClass::Int, start: (la + 3) as usize, end: n as usize };
    let t3 = Token { class: TokenClass::End, start: n as usize, end: n as usize };
    lemma_lex_decimal(code, 0, a as nat);
    lemma_lex_decimal(code, la + 3, b as nat);
    assert(lex_from(code, la + 2) == lex_from(code, la + 3));
    assert(lex_from(code, la + 1) == prepend(seq![t1], lex_from(code, la + 2)));
    assert(lex_from(code, la) == lex_from(code, la + 1));
    assert(lex_from(code, n) == Ok::<Seq<Token>, crate::tokenizer::LexError>(seq![t3]));
    let t = seq![t0, t1, t2, t3];
    assert(lex(code) == Ok::<Seq<Token>, crate::tokenizer::LexError>(t)) by {
        assert(seq![t2] + seq![t3] =~= seq![t2, t3]);
        assert(seq![t1] + seq![t2, t3] =~= seq![t1, t2, t3]);
        assert(seq![t0] + seq![t1, t2, t3] =~= t);
    }
    let (rule, prec) = infix_rule(class)->0;
    assert(rule == InfixRule::Binary(op));
    lemma_parse_int(code, t, 2, prec, b as nat);
    assert(crate::parser::parse_prefix(code, t, 0) == Ok::<(Term, int), crate::parser::ParseError>(
        (Term::Int(a), 1),
    ));
    let node = Term::BinOp { left: Box::new(Term::Int(a)), op, right: Box::new(Term::Int(b)) };
    assert(crate::parser::parse_infix_loop(code, t, 3, 0, node) == Ok::<
        (Term, int),
        crate::parser::ParseError,
    >((node, 3)));
    assert(crate::parser::parse_infix_loop(code, t, 1, 0, Term::Int(a)) == Ok::<
        (Term, int),
        crate::parser::ParseError,
    >((node, 3)));
    assert(parse_program(code, t) == Ok::<Term, crate::parser::ParseError>(node));
    let o = eval(node, env);
    assert(eval(Term::Int(a), env).unresolved + eval(Term::Int(b), env).unresolved =~= seq![]);
    assert(o.env == env);
    assert(o.unresolved =~= seq![]);
    assert(o.result == combine(Term::Int(a), op, Term::Int(b)));
}

/// Interpreting the decimal rendering of a non-negative integer gives back
/// that integer, and leaves the environment as it was.
pub proof fn lemma_integer_literal_round_trip(env: Map<Seq<char>, Term>, n: i64)
    requires
        n >= 0,
    ensures
        interpretation(decimal(n as nat), env).result == Ok::<
            (Term, bool, Seq<Seq<char>>),
            InterpretError,
        >((Term::Int(n), false, seq![])),
        interpretation(decimal(n as nat), env).env == env,
{
    let code = decimal(n as nat);
    lemma_decimal(n as nat);
    lemma_decimal_len_i64(n);
    let len = code.len() as int;
    assert(code.subrange(0, len) =~= code);
    lemma_lex_decimal(code, 0, n as nat);
    let t0 = Token { class: TokenClass::Int, start: 0usize, end: len as usize };
    let t1 = Token { class: TokenClass::End, start: len as usize, end: len as usize };
    let t = seq![t0, t1];
    assert(lex(code) == Ok::<Seq<Token>, crate::tokenizer::LexError>(t)) by {
        assert(seq![t0] + seq![t1] =~= t);
    }
    lemma_parse_int(code, t, 0, 0, n as nat);
}

} // verus!
