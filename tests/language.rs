use lispust::ast::{Exp, Operand, Value};
use lispust::eval::EvalError;
use lispust::lexer::{tokenize, Token};
use lispust::number::{decimal_text, parse_i32};
use lispust::parser::{ParserError, StringParser};
use lispust::run::{run, LispustService, RunError};

fn ok(input: &str) -> String {
    match run(input) {
        Ok(s) => s,
        Err(e) => panic!("{} failed: {}", input, e.message()),
    }
}

fn words(input: &str) -> Vec<String> {
    tokenize(input)
        .into_iter()
        .map(|t| match t {
            Token::Open => "(".to_string(),
            Token::Close => ")".to_string(),
            Token::Word(w) => w,
        })
        .collect()
}

#[test]
fn fixtures_end_to_end() {
    assert_eq!(ok("(+ 2 3)"), "5");
    assert_eq!(ok("(- 10 3)"), "7");
    assert_eq!(ok("(if true 100 200)"), "100");
    assert!(run("(if 100 100 200)").is_err());
}

#[test]
fn arithmetic_on_literals() {
    assert_eq!(ok("(+ -4 9)"), "5");
    assert_eq!(ok("(- 3 10)"), "-7");
    assert_eq!(ok("(+ +12 0)"), "12");
}

#[test]
fn arithmetic_wraps_at_the_bounds() {
    assert_eq!(ok("(+ 2147483647 1)"), "-2147483648");
    assert_eq!(ok("(- -2147483648 1)"), "2147483647");
}

#[test]
fn conditional_selects_branch() {
    assert_eq!(ok("(if true (+ 1 2) (- 1 2))"), "3");
    assert_eq!(ok("(if false (+ 1 2) (- 1 2))"), "-1");
    assert_eq!(ok("(if false 100 200)"), "200");
}

#[test]
fn false_literal_is_false() {
    // The literal `false` denotes boolean false.
    assert_eq!(ok("(if false 1 2)"), "2");
    let e = StringParser {}.parse("(if false 1 2)").unwrap();
    match e {
        Exp::If { cond, .. } => assert!(matches!(*cond, Exp::Bool(false))),
        _ => panic!("not a conditional"),
    }
}

#[test]
fn non_boolean_condition_rejected() {
    match run("(if 100 100 200)") {
        Err(RunError::Eval(e)) => assert_eq!(e, EvalError::InvalidIfCondType(Value::Number(100))),
        _ => panic!("expected an evaluation error"),
    }
}

#[test]
fn mismatched_operand_rejected() {
    match run("(+ 2 true)") {
        Err(RunError::Eval(e)) => {
            assert_eq!(
                e,
                EvalError::InvalidOperandTypes(Operand::Plus, Value::Number(2), Value::Bool(true))
            );
            assert_eq!(Operand::Plus.name(), "plus");
        }
        _ => panic!("expected an evaluation error"),
    }
    match run("(- false 1)") {
        Err(RunError::Eval(e)) => assert_eq!(
            e,
            EvalError::InvalidOperandTypes(Operand::Minus, Value::Bool(false), Value::Number(1))
        ),
        _ => panic!("expected an evaluation error"),
    }
}

#[test]
fn both_operands_evaluated_before_type_check() {
    match run("(+ true (if 1 2 3))") {
        Err(RunError::Eval(e)) => assert_eq!(e, EvalError::InvalidIfCondType(Value::Number(1))),
        _ => panic!("expected the right operand's error"),
    }
}

#[test]
fn unbalanced_parentheses_rejected() {
    assert!(matches!(run("(+ 2 3"), Err(RunError::Parse(ParserError::NoCloseInExp))));
    assert!(matches!(run("(+ 2 3))"), Err(RunError::Parse(ParserError::TrailingTokens))));
    match run(")") {
        Err(e) => {
            assert!(matches!(e, RunError::Parse(ParserError::TooManyClose)));
            assert_eq!(e.message(), "too many close parentheses");
        }
        Ok(_) => panic!("expected a parse error"),
    }
}

#[test]
fn other_parse_errors() {
    assert!(matches!(run(""), Err(RunError::Parse(ParserError::NoFormInTokens))));
    assert!(matches!(run("(+ 1"), Err(RunError::Parse(ParserError::NoFormInTokens))));
    assert!(matches!(run("(+ 1 2 3)"), Err(RunError::Parse(ParserError::TooManyOperands))));
    assert!(matches!(run("5"), Err(RunError::Parse(ParserError::NoOpenAtStart))));
    match run("(+ 1 abc)") {
        Err(RunError::Parse(ParserError::NotNumber(w))) => assert_eq!(w, "abc"),
        _ => panic!("expected a bad number"),
    }
    assert!(matches!(run("(+ 1 2147483648)"), Err(RunError::Parse(ParserError::NotNumber(_)))));
    assert!(matches!(run("(1 2"), Err(RunError::Parse(ParserError::NoCloseInExp))));
}

#[test]
fn nesting_keeps_order() {
    assert_eq!(ok("(+ (- 10 3) 2)"), "9");
    assert_eq!(ok("(- 10 (- 3 2))"), "9");
}

#[test]
fn repeated_runs_agree() {
    for input in ["(+ 2 3)", "(if 100 100 200)", "(+ 2 3"] {
        let a = run(input);
        let b = run(input);
        match (a, b) {
            (Ok(x), Ok(y)) => assert_eq!(x, y),
            (Err(x), Err(y)) => assert_eq!(x.message(), y.message()),
            _ => panic!("runs disagree on {}", input),
        }
    }
}

#[test]
fn lists_are_inert() {
    assert_eq!(ok("()"), "true");
    assert_eq!(ok("(1 2 (+ 3 true))"), "true");
    let parser = StringParser {};
    match parser.parse("(1 (+ 2 3) true)").unwrap() {
        Exp::List(v) => assert_eq!(v.len(), 3),
        _ => panic!("not a list"),
    }
}

#[test]
fn tokens_isolate_parentheses() {
    assert_eq!(words("(+ 2 3)"), vec!["(", "+", "2", "3", ")"]);
    assert_eq!(words("  (+\t2\n3 )  "), vec!["(", "+", "2", "3", ")"]);
    assert_eq!(words("(+2 3)"), vec!["(", "+2", "3", ")"]);
    assert!(words("").is_empty());
    assert!(words(" \u{3000} ").is_empty());
}

#[test]
fn integers_read_and_written() {
    assert_eq!(parse_i32("-2147483648"), Some(i32::MIN));
    assert_eq!(parse_i32("2147483647"), Some(i32::MAX));
    assert_eq!(parse_i32("+7"), Some(7));
    assert_eq!(parse_i32("007"), Some(7));
    assert_eq!(parse_i32("-"), None);
    assert_eq!(parse_i32(""), None);
    assert_eq!(parse_i32("1x"), None);
    assert_eq!(parse_i32("99999999999999"), None);
    assert_eq!(decimal_text(0), "0");
    assert_eq!(decimal_text(-305), "-305");
    assert_eq!(decimal_text(i32::MIN), "-2147483648");
}

#[test]
fn messages_name_the_fault() {
    assert_eq!(run("(+ 2 true)").unwrap_err().message(), "operand plus requires number values: 2 true");
    assert_eq!(run("(if 100 1 2)").unwrap_err().message(), "if cond requires boolean: 100");
    assert_eq!(run("(+ 1 x)").unwrap_err().message(), "x is not number");
}

#[test]
fn service_replies_with_value_or_message() {
    let svc = LispustService::default();
    assert_eq!(svc.run("(+ 2 3)"), "5");
    assert_eq!(svc.run(")"), "too many close parentheses");
}

#[test]
fn decimal_text_reads_back() {
    for n in [0, 7, -1, 10, 2147483647, -2147483648, -305] {
        assert_eq!(parse_i32(&decimal_text(n)), Some(n));
        let text = format!("(+ {} {})", decimal_text(n), decimal_text(1));
        assert_eq!(ok(&text), decimal_text(n.wrapping_add(1)));
    }
}
