//! Reduction of expressions to literal values against a variable environment.
use vstd::prelude::*;
use crate::expression::{Expression, Operator, Real, RealTerm, Term};

verus! {

/// Why an evaluation failed.
#[derive(PartialEq, Eq, Structural, Clone, Copy, Debug)]
pub enum EvalError {
    DivisionByZero,
    Overflow,
    Unsupported,
}

/// Integer division that rounds toward zero.
pub open spec fn trunc_div(a: int, b: int) -> int {
    let q = abs(a) / abs(b);
    if (a < 0) == (b < 0) {
        q
    } else {
        -q
    }
}

pub open spec fn abs(a: int) -> int {
    if a < 0 {
        -a
    } else {
        a
    }
}

/// The exact result of `a op b` on mathematical integers.
pub open spec fn exact_binop(a: int, b: int, op: Operator) -> int {
    match op {
        Operator::Add => a + b,
        Operator::Subtract => a - b,
        Operator::Multiply => a * b,
        Operator::Divide => trunc_div(a, b),
    }
}

/// `a op b` in 64-bit integer arithmetic: a failure where it divides by zero
/// or where the exact result does not fit.
pub open spec fn int_binop(a: i64, b: i64, op: Operator) -> Result<i64, EvalError> {
    if op == Operator::Divide && b == 0 {
        Err(EvalError::DivisionByZero)
    } else if i64::MIN <= exact_binop(a as int, b as int, op) <= i64::MAX {
        Ok(exact_binop(a as int, b as int, op) as i64)
    } else {
        Err(EvalError::Overflow)
    }
}

/// Combines two reduced operands: integers in integer arithmetic, and
/// otherwise, where one is floating point, both in floating point.
pub open spec fn combine(l: Term, op: Operator, r: Term) -> Result<Term, EvalError> {
    match (l, r) {
        (Term::Int(a), Term::Int(b)) => match int_binop(a, b, op) {
            Ok(v) => Ok(Term::Int(v)),
            Err(e) => Err(e),
        },
        (Term::Int(a), Term::Float(y)) => Ok(
            Term::Float(
                RealTerm::Op { left: Box::new(RealTerm::FromInt(a)), op, right: Box::new(y) },
            ),
        ),
        (Term::Float(x), Term::Int(b)) => Ok(
            Term::Float(
                RealTerm::Op { left: Box::new(x), op, right: Box::new(RealTerm::FromInt(b)) },
            ),
        ),
        (Term::Float(x), Term::Float(y)) => Ok(
            Term::Float(RealTerm::Op { left: Box::new(x), op, right: Box::new(y) }),
        ),
        _ => Err(EvalError::Unsupported),
    }
}

/// The state after an evaluation step: its result, the environment, and the
/// names that could not be resolved, in order.
pub struct EvalOutcome {
    pub result: Result<Term, EvalError>,
    pub env: Map<Seq<char>, Term>,
    pub unresolved: Seq<Seq<char>>,
}

/// Evaluation of `t` against `env`.
pub open spec fn eval(t: Term, env: Map<Seq<char>, Term>) -> EvalOutcome
    decreases t,
{
    match t {
        Term::Identifier(n) => if env.contains_key(n) {
            EvalOutcome { result: Ok(env[n]), env, unresolved: seq![] }
        } else {
            EvalOutcome { result: Ok(Term::Nil), env, unresolved: seq![n] }
        },
        Term::Assignment { identifier, value } => {
            let o = eval(*value, env);
            match o.result {
                Ok(v) => EvalOutcome {
                    result: Ok(v),
                    env: o.env.insert(identifier, *value),
                    unresolved: o.unresolved,
                },
                Err(e) => o,
            }
        },
        Term::BinOp { left, op, right } => {
            let ol = eval(*left, env);
            match ol.result {
                Err(e) => ol,
                Ok(lv) => {
                    let or = eval(*right, ol.env);
                    match or.result {
                        Err(e) => EvalOutcome {
                            result: Err(e),
                            env: or.env,
                            unresolved: ol.unresolved + or.unresolved,
                        },
                        Ok(rv) => EvalOutcome {
                            result: combine(lv, op, rv),
                            env: or.env,
                            unresolved: ol.unresolved + or.unresolved,
                        },
                    }
                },
            }
        },
        _ => EvalOutcome { result: Ok(t), env, unresolved: seq![] },
    }
}

pub open spec fn result_view(r: Result<Expression, EvalError>) -> Result<Term, EvalError> {
    match r {
        Ok(e) => Ok(e@),
        Err(e) => Err(e),
    }
}

pub open spec fn names_view(v: Seq<String>) -> Seq<Seq<char>> {
    v.map_values(|s: String| s@)
}

/// The model of a list of bindings: a later binding of a name hides an earlier one.
pub open spec fn bindings_map(s: Seq<(String, Expression)>) -> Map<Seq<char>, Term>
    decreases s.len(),
{
    if s.len() == 0 {
        Map::empty()
    } else {
        bindings_map(s.drop_last()).insert(s.last().0@, s.last().1@)
    }
}

proof fn lemma_bindings_prefix(s: Seq<(String, Expression)>, i: int, name: Seq<char>)
    requires
        0 <= i <= s.len(),
        forall|k: int| i <= k < s.len() ==> (#[trigger] s[k]).0@ != name,
    ensures
        bindings_map(s).contains_key(name) == bindings_map(s.subrange(0, i)).contains_key(name),
        bindings_map(s).contains_key(name) ==> bindings_map(s)[name] == bindings_map(
            s.subrange(0, i),
        )[name],
    decreases s.len(),
{
    if s.len() == i {
        assert(s.subrange(0, i) =~= s);
    } else {
        let d = s.drop_last();
        assert(d.subrange(0, i) =~= s.subrange(0, i));
        assert forall|k: int| i <= k < d.len() implies (#[trigger] d[k]).0@ != name by {
            assert(d[k] == s[k]);
        }
        lemma_bindings_prefix(d, i, name);
    }
}

/// A mutable mapping from variable names to the expressions last assigned to them.
pub struct Environment {
    pub bindings: Vec<(String, Expression)>,
}

impl View for Environment {
    type V = Map<Seq<char>, Term>;

    open spec fn view(&self) -> Map<Seq<char>, Term> {
        bindings_map(self.bindings@)
    }
}

impl Environment {
    /// An environment with no variables.
    pub fn new() -> (r: Environment)
        ensures
            r@ == Map::<Seq<char>, Term>::empty(),
    {
        Environment { bindings: Vec::new() }
    }

    /// The expression bound to `name`, if any.
    pub fn get(&self, name: &String) -> (r: Option<Expression>)
        ensures
            r is Some <==> self@.contains_key(name@),
            r is Some ==> r->0@ == self@[name@],
    {
        let mut i: usize = self.bindings.len();
        while i > 0
            invariant
                i <= self.bindings@.len(),
                forall|k: int|
                    i <= k < self.bindings@.len() ==> (#[trigger] self.bindings@[k]).0@ != name@,
            decreases i,
        {
            let k = i - 1;
            if self.bindings[k].0 == *name {
                proof {
                    let s = self.bindings@;
                    lemma_bindings_prefix(s, i as int, name@);
                    assert(s.subrange(0, i as int).drop_last() =~= s.subrange(0, k as int));
                }
                return Some(self.bindings[k].1.duplicate());
            }
            i = k;
        }
        proof {
            lemma_bindings_prefix(self.bindings@, 0, name@);
        }
        None
    }

    /// Binds `name` to `value`: the binding of `name`, if there is one, is
    /// overwritten in place; otherwise a binding is added.
    pub fn insert(&mut self, name: String, value: Expression)
        ensures
            final(self)@ == old(self)@.insert(name@, value@),
    {
        let mut i: usize = self.bindings.len();
        while i > 0
            invariant
                i <= self.bindings@.len(),
                self.bindings@ == old(self).bindings@,
                forall|k: int|
                    i <= k < self.bindings@.len() ==> (#[trigger] self.bindings@[k]).0@ != name@,
            decreases i,
        {
            let k = i - 1;
            if self.bindings[k].0 == name {
                proof {
                    lemma_bindings_overwrite(self.bindings@, k as int, name, value);
                }
                self.bindings.set(k, (name, value));
                return;
            }
            i = k;
        }
        self.bindings.push((name, value));
        proof {
            assert(self.bindings@.drop_last() =~= old(self).bindings@);
        }
    }
}

proof fn lemma_bindings_overwrite(s: Seq<(String, Expression)>, k: int, name: String, value: Expression)
    requires
        0 <= k < s.len(),
        s[k].0@ == name@,
        forall|j: int| k < j < s.len() ==> (#[trigger] s[j]).0@ != name@,
    ensures
        bindings_map(s.update(k, (name, value))) == bindings_map(s).insert(name@, value@),
    decreases s.len(),
{
    let u = s.update(k, (name, value));
    if k == s.len() - 1 {
        assert(u.drop_last() =~= s.drop_last());
        assert(bindings_map(u) =~= bindings_map(s).insert(name@, value@));
    } else {
        let d = s.drop_last();
        assert forall|j: int| k < j < d.len() implies (#[trigger] d[j]).0@ != name@ by {
            assert(d[j] == s[j]);
        }
        lemma_bindings_overwrite(d, k, name, value);
        assert(u.drop_last() =~= d.update(k, (name, value)));
        assert(s.last().0@ != name@);
        assert(bindings_map(u) =~= bindings_map(s).insert(name@, value@));
    }
}

/// Executes the given binary operation on two integers.
pub fn binop_int(x: i64, y: i64, binop: Operator) -> (r: Result<i64, EvalError>)
    ensures
        r == int_binop(x, y, binop),
{
    if binop == Operator::Divide && y == 0 {
        return Err(EvalError::DivisionByZero);
    }
    let a = x as i128;
    let b = y as i128;
    let v: i128 = match binop {
        Operator::Add => a + b,
        Operator::Subtract => a - b,
        Operator::Multiply => {
            assert(-0x8000_0000_0000_0000 * 0x8000_0000_0000_0000 <= a * b
                <= 0x8000_0000_0000_0000 * 0x8000_0000_0000_0000) by (nonlinear_arith)
                requires
                    -0x8000_0000_0000_0000 <= a <= 0x7fff_ffff_ffff_ffff,
                    -0x8000_0000_0000_0000 <= b <= 0x7fff_ffff_ffff_ffff,
            ;
            a * b
        },
        Operator::Divide => {
            let ua: i128 = if a < 0 {
                -a
            } else {
                a
            };
            let ub: i128 = if b < 0 {
                -b
            } else {
                b
            };
            let q: i128 = ua / ub;
            if (a < 0) == (b < 0) {
                q
            } else {
                -q
            }
        },
    };
    if v < i64::MIN as i128 || v > i64::MAX as i128 {
        Err(EvalError::Overflow)
    } else {
        Ok(v as i64)
    }
}

/// Reduces two evaluated operands with `op`.
pub fn combine_values(l: Expression, op: Operator, r: Expression) -> (res: Result<
    Expression,
    EvalError,
>)
    ensures
        result_view(res) == combine(l@, op, r@),
{
    match l {
        Expression::Int(a) => match r {
            Expression::Int(b) => {
                let res = match binop_int(a, b, op) {
                    Ok(v) => Ok(Expression::Int(v)),
                    Err(e) => Err(e),
                };
                res
            },
            Expression::Float(y) => {
                let res = Ok(
                    Expression::Float(
                        Real::Op { left: Box::new(Real::FromInt(a)), op, right: Box::new(y) },
                    ),
                );
                assert(Real::FromInt(a)@ == RealTerm::FromInt(a));
                res
            },
            _ => Err(EvalError::Unsupported),
        },
        Expression::Float(x) => match r {
            Expression::Int(b) => {
                assert(Real::FromInt(b)@ == RealTerm::FromInt(b));
                Ok(
                    Expression::Float(
                        Real::Op { left: Box::new(x), op, right: Box::new(Real::FromInt(b)) },
                    ),
                )
            },
            Expression::Float(y) => Ok(
                Expression::Float(Real::Op { left: Box::new(x), op, right: Box::new(y) }),
            ),
            _ => Err(EvalError::Unsupported),
        },
        _ => Err(EvalError::Unsupported),
    }
}

impl Expression {
    /// Simplifies this expression against `variables`: the result is a
    /// literal, or `Nil`. Assignments update `variables`; each name that is
    /// not bound is appended to `unresolved` and reads as `Nil`.
    pub fn simplify(&self, variables: &mut Environment, unresolved: &mut Vec<String>) -> (r: Result<
        Expression,
        EvalError,
    >)
        ensures
            result_view(r) == eval(self@, old(variables)@).result,
            final(variables)@ == eval(self@, old(variables)@).env,
            names_view(final(unresolved)@) == names_view(old(unresolved)@) + eval(
                self@,
                old(variables)@,
            ).unresolved,
        decreases self,
    {
        match self {
            Expression::Identifier(s) => match variables.get(s) {
                Some(e) => Ok(e),
                None => {
                    unresolved.push(s.clone());
                    proof {
                        assert(names_view(unresolved@) =~= names_view(old(unresolved)@) + seq![
                            s@,
                        ]);
                    }
                    Ok(Expression::Nil)
                },
            },
            Expression::Assignment { identifier, value } => {
                let v = value.simplify(variables, unresolved)?;
                variables.insert(identifier.clone(), value.duplicate());
                Ok(v)
            },
            Expression::BinOp { left, op, right } => {
                let ghost u0 = unresolved@;
                let l = left.simplify(variables, unresolved)?;
                let ghost u1 = unresolved@;
                let r = right.simplify(variables, unresolved);
                proof {
                    assert(names_view(unresolved@) =~= names_view(u0) + eval(
                        left@,
                        old(variables)@,
                    ).unresolved + eval(right@, eval(left@, old(variables)@).env).unresolved);
                }
                match r {
                    Ok(r) => combine_values(l, *op, r),
                    Err(e) => Err(e),
                }
            },
            Expression::Int(i) => Ok(Expression::Int(*i)),
            Expression::Float(x) => Ok(Expression::Float(x.duplicate())),
            Expression::Nil => Ok(Expression::Nil),
        }
    }
}

} // verus!
