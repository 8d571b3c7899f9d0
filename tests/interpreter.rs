use elemental::evaluator::{binop_int, EvalError, Environment};
use elemental::expression::{Expression, Operator, Real};
use elemental::parser::{ParseError, Parser};
use elemental::standard::{get_std_function, Identity, Matrix, StdFunc, StdFunction};
use elemental::tokenizer::{tokenize, chars_of, TokenClass, Tokenizer};
use elemental::{interpret, InterpretError, Outcome};

fn real_value(r: &Real) -> f64 {
    match r {
        Real::Literal(s) => s.parse::<f64>().unwrap(),
        Real::FromInt(i) => *i as f64,
        Real::Op { left, op, right } => {
            let (x, y) = (real_value(left), real_value(right));
            match op {
                Operator::Add => x + y,
                Operator::Subtract => x - y,
                Operator::Multiply => x * y,
                Operator::Divide => x / y,
            }
        }
    }
}

fn run(env: &mut Environment, code: &str) -> Result<Outcome, InterpretError> {
    interpret(env, code.to_string())
}

fn int_of(env: &mut Environment, code: &str) -> i64 {
    match run(env, code) {
        Ok(Outcome { value: Expression::Int(i), silent: false, .. }) => i,
        _ => panic!("not an integer"),
    }
}

fn float_of(env: &mut Environment, code: &str) -> f64 {
    match run(env, code) {
        Ok(Outcome { value: Expression::Float(r), silent: false, .. }) => real_value(&r),
        _ => panic!("not a float"),
    }
}

#[test]
fn interpret_00() {
    let mut env = Environment::new();
    let out = interpret(&mut env, "3.1415".to_string()).unwrap();
    match out.value {
        Expression::Float(Real::Literal(s)) => assert_eq!(s, "3.1415"),
        _ => panic!("expected a float literal"),
    }
    assert_eq!(format!("{:.8}", 3.1415f64), "3.14150000");
}

#[test]
fn interpret_01() {
    let mut env = Environment::new();
    let out = interpret(&mut env, "x = 4".to_string()).unwrap();
    assert!(matches!(out.value, Expression::Int(4)));
    assert!(matches!(env.get(&"x".to_string()), Some(Expression::Int(4))));
}

#[test]
fn integer_operators_match_native_arithmetic() {
    let mut env = Environment::new();
    assert_eq!(int_of(&mut env, "17 + 5"), 22);
    assert_eq!(int_of(&mut env, "17 - 25"), -8);
    assert_eq!(int_of(&mut env, "6 * 7"), 42);
    assert_eq!(int_of(&mut env, "7 / 2"), 3);
    assert_eq!(int_of(&mut env, "(0 - 7) / 2"), -7 / 2);
    assert_eq!(int_of(&mut env, "9223372036854775807 - 1"), i64::MAX - 1);
}

#[test]
fn integer_overflow_is_reported() {
    let mut env = Environment::new();
    assert_eq!(
        run(&mut env, "9223372036854775807 + 1").err(),
        Some(InterpretError::Eval(EvalError::Overflow))
    );
    assert_eq!(binop_int(i64::MIN, -1, Operator::Divide), Err(EvalError::Overflow));
    assert_eq!(binop_int(-7, 2, Operator::Divide), Ok(-3));
}

#[test]
fn division_by_zero_is_reported() {
    let mut env = Environment::new();
    assert_eq!(
        run(&mut env, "1 / 0").err(),
        Some(InterpretError::Eval(EvalError::DivisionByZero))
    );
}

#[test]
fn mixed_operands_promote_to_float() {
    let mut env = Environment::new();
    assert_eq!(float_of(&mut env, "1 + 2.5"), 3.5);
    assert_eq!(float_of(&mut env, "2.5 * 2"), 5.0);
    assert_eq!(float_of(&mut env, "7 / 2.0"), 3.5);
    assert_eq!(float_of(&mut env, "1.5 - 0.25"), 1.25);
    match run(&mut env, "1 + 2.5").unwrap().value {
        Expression::Float(Real::Op { left, op: Operator::Add, right }) => {
            assert!(matches!(*left, Real::FromInt(1)));
            assert!(matches!(*right, Real::Literal(ref s) if s == "2.5"));
        }
        _ => panic!("expected a promoted sum"),
    }
}

#[test]
fn assignment_round_trip() {
    let mut env = Environment::new();
    assert_eq!(int_of(&mut env, "x = 5"), 5);
    let out = run(&mut env, "x").unwrap();
    let mut names = Vec::new();
    let again = out.value.simplify(&mut env, &mut names).unwrap();
    assert!(matches!(again, Expression::Int(5)));
    assert!(names.is_empty());
}

#[test]
fn assignment_stores_the_unevaluated_expression() {
    let mut env = Environment::new();
    assert_eq!(int_of(&mut env, "y = 2 + 3"), 5);
    let out = run(&mut env, "y").unwrap();
    assert!(matches!(out.value, Expression::BinOp { op: Operator::Add, .. }));
    let mut names = Vec::new();
    assert!(matches!(out.value.simplify(&mut env, &mut names), Ok(Expression::Int(5))));
}

#[test]
fn assignment_is_right_associative() {
    let mut env = Environment::new();
    assert_eq!(int_of(&mut env, "a = b = 3"), 3);
    assert!(matches!(env.get(&"a".to_string()), Some(Expression::Assignment { .. })));
    assert!(matches!(env.get(&"b".to_string()), Some(Expression::Int(3))));
    assert_eq!(int_of(&mut env, "a = 4"), 4);
    assert!(matches!(env.get(&"a".to_string()), Some(Expression::Int(4))));
}

#[test]
fn unresolved_identifier_yields_nil() {
    let mut env = Environment::new();
    let out = run(&mut env, "y").unwrap();
    assert!(matches!(out.value, Expression::Nil));
    assert!(!out.silent);
    assert_eq!(out.unresolved, vec!["y".to_string()]);
    assert!(env.get(&"y".to_string()).is_none());
    assert!(env.bindings.is_empty());
}

#[test]
fn unresolved_operand_is_unsupported() {
    let mut env = Environment::new();
    assert_eq!(
        run(&mut env, "zz + 1").err(),
        Some(InterpretError::Eval(EvalError::Unsupported))
    );
}

#[test]
fn precedence_binds_multiplication_tighter() {
    let mut env = Environment::new();
    assert_eq!(int_of(&mut env, "2 + 3 * 4"), 14);
    assert_eq!(int_of(&mut env, "(2 + 3) * 4"), 20);
    assert_eq!(int_of(&mut env, "10 - 4 - 3"), 3);
    assert_eq!(int_of(&mut env, "100 / 10 / 5"), 2);
}

#[test]
fn blank_input_is_silent_nil() {
    let mut env = Environment::new();
    let out = run(&mut env, "").unwrap();
    assert!(matches!(out.value, Expression::Nil));
    assert!(out.silent);
    let out = run(&mut env, "  \t ").unwrap();
    assert!(out.silent);
}

#[test]
fn integer_literal_round_trip() {
    let mut env = Environment::new();
    for n in [0i64, 7, 42, 1000, i64::MAX] {
        assert_eq!(int_of(&mut env, &format!("{}", n)), n);
    }
    let shown = format!("{:.8}", float_of(&mut env, "2.75"));
    assert_eq!(float_of(&mut env, &shown), 2.75);
}

#[test]
fn lexical_errors() {
    let mut env = Environment::new();
    match run(&mut env, "1 $ 2") {
        Err(InterpretError::Lex(e)) => {
            assert_eq!(e.position, 2);
            assert_eq!(e.found, '$');
        }
        _ => panic!("expected a lexical error"),
    }
}

#[test]
fn parse_errors() {
    let mut env = Environment::new();
    let err = |env: &mut Environment, code: &str| match run(env, code) {
        Err(InterpretError::Parse(e)) => e,
        _ => panic!("expected a parse error"),
    };
    assert_eq!(err(&mut env, "+"), ParseError::NoPrefixRule { position: 0 });
    assert_eq!(err(&mut env, "1 +"), ParseError::UnexpectedEnd);
    assert_eq!(err(&mut env, "(1"), ParseError::UnexpectedEnd);
    assert_eq!(err(&mut env, "(1 = 2"), ParseError::InvalidAssignmentTarget { position: 3 });
    assert_eq!(err(&mut env, "(1 2"), ParseError::MissingRightParen { position: 3 });
    assert_eq!(err(&mut env, "1 2"), ParseError::TrailingInput { position: 2 });
    assert_eq!(err(&mut env, "1)"), ParseError::TrailingInput { position: 1 });
    assert_eq!(err(&mut env, "99999999999999999999"), ParseError::IntTooLarge { position: 0 });
    assert!(env.bindings.is_empty());
}

#[test]
fn tokenizer_classifies_tokens() {
    let chars = chars_of("ab_1 = 12.5*(3)");
    let tokens = tokenize(&chars).unwrap();
    let classes: Vec<TokenClass> = tokens.iter().map(|t| t.class).collect();
    assert_eq!(
        classes,
        vec![
            TokenClass::Identifier,
            TokenClass::Equals,
            TokenClass::Float,
            TokenClass::Star,
            TokenClass::LeftParen,
            TokenClass::Int,
            TokenClass::RightParen,
            TokenClass::End,
        ]
    );
    assert_eq!((tokens[0].start, tokens[0].end), (0, 4));
    assert_eq!((tokens[2].start, tokens[2].end), (7, 11));
}

#[test]
fn tokenizer_pull_interface() {
    let mut t = Tokenizer::from("x").unwrap();
    assert_eq!(t.peek().class, TokenClass::Identifier);
    assert_eq!(t.next().class, TokenClass::Identifier);
    assert_eq!(t.next().class, TokenClass::End);
    assert_eq!(t.next().class, TokenClass::End);
}

#[test]
fn parser_builds_identifier_names() {
    let mut t = Tokenizer::from("count = 1").unwrap();
    let e = Parser::new().parse_all(&mut t).unwrap();
    match e {
        Expression::Assignment { identifier, value } => {
            assert_eq!(identifier, "count");
            assert!(matches!(*value, Expression::Int(1)));
        }
        _ => panic!("expected an assignment"),
    }
}

#[test]
fn identity_function() {
    let f = get_std_function("I".to_string());
    assert!(!f.is_missing());
    let m = f.eval(vec![Matrix::new(1, 1, vec![3])]);
    assert_eq!((m.rows(), m.cols()), (3, 3));
    assert_eq!(m.data, vec![1, 0, 0, 0, 1, 0, 0, 0, 1]);
    let z = Identity::evalpure(&Matrix::new(1, 1, vec![-2]));
    assert_eq!((z.rows(), z.cols()), (0, 0));
    assert!(matches!(f, StdFunction::Identity(_)));
}

#[test]
fn unknown_function_is_inert() {
    let f = get_std_function("nope".to_string());
    assert!(f.is_missing());
    let m = f.eval(vec![Matrix::new(1, 1, vec![3])]);
    assert_eq!((m.rows(), m.cols()), (0, 0));
    assert!(m.data.is_empty());
}
