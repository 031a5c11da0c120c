//! Tests of the expression engine: lexing, parsing and evaluation.

use exprplot::{
    parse, tokenize, Bindings, Expr, InspectErr, InvalidExpressionError, LexError, OpType, Scalar,
    ScalarHost, Token,
};

/// An IEEE-754 double host: the arithmetic the shipped front end uses.
struct F64Host {
    funs: Vec<fn(f64) -> f64>,
}

impl F64Host {
    fn standard() -> (Vec<String>, F64Host) {
        let names: Vec<String> = ["cos", "sin", "tan", "log2", "ln"]
            .iter()
            .map(|s| s.to_string())
            .collect();
        let funs: Vec<fn(f64) -> f64> = vec![f64::cos, f64::sin, f64::tan, f64::log2, f64::ln];
        (names, F64Host { funs })
    }
}

fn to_bits(x: f64) -> Scalar {
    Scalar { bits: x.to_bits() }
}

fn to_f64(s: Scalar) -> f64 {
    f64::from_bits(s.bits)
}

impl ScalarHost for F64Host {
    // At run time the erased model methods are plain functions: the host's
    // model and its arithmetic are one and the same.
    fn literal_model(&self, v: u64) -> Scalar {
        to_bits(v as f64)
    }

    fn op_model(&self, op: OpType, lhs: Scalar, rhs: Scalar) -> Scalar {
        let (l, r) = (to_f64(lhs), to_f64(rhs));
        to_bits(match op {
            OpType::Plus => l + r,
            OpType::Sub => l - r,
            OpType::Mul => l * r,
            OpType::Div => l / r,
        })
    }

    fn fun_model(&self, fun: usize, arg: Scalar) -> Scalar {
        to_bits((self.funs[fun])(to_f64(arg)))
    }

    fn finite_model(&self, a: Scalar) -> bool {
        to_f64(a).is_finite()
    }

    fn lt_model(&self, a: Scalar, b: Scalar) -> bool {
        to_f64(a) < to_f64(b)
    }

    fn literal(&self, v: u64) -> Scalar {
        self.literal_model(v)
    }

    fn apply_op(&self, op: OpType, lhs: Scalar, rhs: Scalar) -> Scalar {
        self.op_model(op, lhs, rhs)
    }

    fn apply_fun(&self, fun: usize, arg: Scalar) -> Scalar {
        self.fun_model(fun, arg)
    }

    fn is_finite(&self, a: Scalar) -> bool {
        self.finite_model(a)
    }

    fn lt(&self, a: Scalar, b: Scalar) -> bool {
        self.lt_model(a, b)
    }
}

fn eval_with(expr: &str, binds: &[(&str, f64)]) -> Result<f64, InvalidExpressionError> {
    let (names, host) = F64Host::standard();
    let tokens = tokenize(expr).unwrap();
    let parsed = parse(&tokens, &names)?;
    let mut vars = Bindings::new();
    for (name, val) in binds {
        vars.set(name.to_string(), to_bits(*val));
    }
    parsed.calc(&vars, &host).map(to_f64)
}

fn eval(expr: &str) -> f64 {
    eval_with(expr, &[]).unwrap()
}

#[test]
fn radix_hex() {
    assert_eq!(tokenize("0x1A").unwrap(), vec![Token::Number(26)]);
    assert_eq!(eval("0x1A"), 26.0);
}

#[test]
fn radix_binary() {
    assert_eq!(tokenize("0b101").unwrap(), vec![Token::Number(5)]);
    assert_eq!(eval("0b101"), 5.0);
}

#[test]
fn radix_octal() {
    assert_eq!(tokenize("0o17").unwrap(), vec![Token::Number(15)]);
    assert_eq!(eval("0o17"), 15.0);
}

#[test]
fn leading_zero_is_decimal() {
    assert_eq!(tokenize("042").unwrap(), vec![Token::Number(42)]);
    assert_eq!(eval("042"), 42.0);
}

#[test]
fn prefix_without_digits() {
    assert_eq!(tokenize("0x").unwrap(), vec![Token::Number(0)]);
}

#[test]
fn digit_then_letter_splits() {
    assert_eq!(
        tokenize("9x").unwrap(),
        vec![Token::Number(9), Token::Identifier("x".to_string())]
    );
}

#[test]
fn whitespace_and_punctuation_discarded() {
    assert_eq!(
        tokenize("1 + 2, 3").unwrap(),
        vec![
            Token::Number(1),
            Token::Op(OpType::Plus),
            Token::Number(2),
            Token::Number(3)
        ]
    );
}

#[test]
fn number_too_large() {
    assert_eq!(
        tokenize("0xFFFFFFFFFFFFFFFFF"),
        Err(LexError::NumberTooLarge)
    );
    assert_eq!(
        tokenize("99999999999999999999999999"),
        Err(LexError::NumberTooLarge)
    );
    assert_eq!(
        tokenize("18446744073709551615").unwrap(),
        vec![Token::Number(u64::MAX)]
    );
}

#[test]
fn precedence_mul_binds_tighter() {
    assert_eq!(eval("2+3*4"), 14.0);
    assert_eq!(eval("2*3+4"), 10.0);
}

#[test]
fn subtraction_left_associative() {
    assert_eq!(eval("8-3-2"), 3.0);
}

#[test]
fn parenthesis_overrides_precedence() {
    assert_eq!(eval("(2+3)*4"), 20.0);
}

#[test]
fn unbalanced_paren_fails() {
    let err = eval_with("(2+3", &[]).unwrap_err();
    assert_eq!(
        err,
        InvalidExpressionError::NoMatchingToken {
            start: Token::LeftParen,
            end: Some(Token::Number(3)),
        }
    );
}

#[test]
fn function_call() {
    assert_eq!(eval("sin(0)"), 0.0);
    assert_eq!(eval("cos(0)"), 1.0);
    assert_eq!(eval("ln(1)"), 0.0);
}

#[test]
fn identifiers_cannot_carry_digits() {
    // `log2` lexes as a name and a literal, so it can never match a
    // function-call shape as one identifier.
    assert_eq!(
        tokenize("log2").unwrap(),
        vec![Token::Identifier("log".to_string()), Token::Number(2)]
    );
}

#[test]
fn unknown_function() {
    let err = eval_with("unknownfn(1)", &[]).unwrap_err();
    assert_eq!(
        err,
        InvalidExpressionError::UnknownFunction("unknownfn".to_string())
    );
}

#[test]
fn unknown_variable() {
    let err = eval_with("x+1", &[]).unwrap_err();
    assert_eq!(
        err,
        InvalidExpressionError::UnknownVariable("x".to_string())
    );
}

#[test]
fn bound_variable() {
    assert_eq!(eval_with("x+1", &[("x", 4.0)]).unwrap(), 5.0);
}

#[test]
fn division_by_zero_is_a_value() {
    assert_eq!(eval("1/0"), f64::INFINITY);
}

#[test]
fn invalid_single_token() {
    let tokens = tokenize(")").unwrap();
    let err = parse(&tokens, &Vec::new()).unwrap_err();
    assert_eq!(
        err,
        InvalidExpressionError::InvalidToken {
            expected: "Token::Number | Token::Identifier",
            found: Some(Token::RightParen),
        }
    );
}

#[test]
fn ambiguous_operation() {
    let tokens = tokenize("2 3").unwrap();
    let err = parse(&tokens, &Vec::new()).unwrap_err();
    assert_eq!(
        err,
        InvalidExpressionError::AmbiguousOperation(vec![Token::Number(2), Token::Number(3)])
    );
}

#[test]
fn empty_input_is_ambiguous() {
    let tokens = tokenize("").unwrap();
    let err = parse(&tokens, &Vec::new()).unwrap_err();
    assert_eq!(err, InvalidExpressionError::AmbiguousOperation(Vec::new()));
}

#[test]
fn empty_call_argument_is_ambiguous() {
    let (names, _) = F64Host::standard();
    let tokens = tokenize("sin()").unwrap();
    let err = parse(&tokens, &names).unwrap_err();
    assert_eq!(err, InvalidExpressionError::AmbiguousOperation(Vec::new()));
}

#[test]
fn parse_is_idempotent() {
    let (names, _) = F64Host::standard();
    let tokens = tokenize("sin(2+3*4)-x/7").unwrap();
    let first = parse(&tokens, &names).unwrap();
    let second = parse(&tokens, &names).unwrap();
    assert_eq!(first, second);
}

#[test]
fn evaluation_is_bit_identical() {
    let (names, host) = F64Host::standard();
    let tokens = tokenize("sin(x)/tan(x+1)").unwrap();
    let parsed = parse(&tokens, &names).unwrap();
    let mut vars = Bindings::new();
    vars.set("x".to_string(), to_bits(0.7));
    let a = parsed.calc(&vars, &host).unwrap();
    let b = parsed.calc(&vars, &host).unwrap();
    assert_eq!(a.bits, b.bits);
}

#[test]
fn operator_precedence_values() {
    assert_eq!(OpType::Plus.precedence(), 1);
    assert_eq!(OpType::Sub.precedence(), 1);
    assert_eq!(OpType::Mul.precedence(), 2);
    assert_eq!(OpType::Div.precedence(), 2);
}

#[test]
fn parse_builds_expected_tree() {
    let tokens = tokenize("1+2").unwrap();
    let parsed = parse(&tokens, &Vec::new()).unwrap();
    match parsed {
        Expr::Operation(op) => {
            assert!(matches!(op.op, OpType::Plus));
            assert_eq!(*op.lhs, Expr::Value(1));
            assert_eq!(*op.rhs, Expr::Value(2));
        }
        other => panic!("expected an operation, got {:?}", other),
    }
}

#[test]
fn bindings_set_get_update() {
    let mut vars = Bindings::new();
    assert_eq!(vars.get(&"x".to_string()), None);
    vars.set("x".to_string(), to_bits(1.0));
    assert_eq!(vars.get(&"x".to_string()), Some(to_bits(1.0)));
    vars.set("x".to_string(), to_bits(2.0));
    assert_eq!(vars.get(&"x".to_string()), Some(to_bits(2.0)));
    assert_eq!(vars.get(&"y".to_string()), None);
}

#[test]
fn inspect_err_observes_only_errors() {
    let seen = std::cell::Cell::new(false);
    let ok: Result<i32, String> = Ok(3);
    let r = ok.my_inspect_err(|_e: &String| {
        seen.set(true);
    });
    assert_eq!(r, Ok(3));
    assert!(!seen.get());
    let err: Result<i32, String> = Err("boom".to_string());
    let r = err.my_inspect_err(|_e: &String| {
        seen.set(true);
    });
    assert_eq!(r, Err("boom".to_string()));
    assert!(seen.get());
}
