use ledger_core::decimal::{parse_decimal, decimal_to_string, Dec};
use ledger_core::expr::{eval, EvalFailure};
use ledger_core::params::{BoundParam, ParamValue, Params};
use ledger_core::parse::compile_expr;

fn empty_env() -> Params {
    Params { bound: vec![] }
}

fn env_with(name: &str, value: ParamValue) -> Params {
    Params { bound: vec![BoundParam { name: name.to_string(), value }] }
}

fn eval_text(text: &str, env: &Params) -> Result<ParamValue, EvalFailure> {
    let e = compile_expr(&text.to_string()).expect("expression should compile");
    eval(&e, env)
}

#[test]
fn decimal_parse_and_format_round_trip() {
    let d = parse_decimal(&"42.50".to_string()).unwrap();
    assert_eq!(d, Dec { mantissa: 4250, scale: 2 });
    assert_eq!(decimal_to_string(&d), "42.50");
    assert_eq!(decimal_to_string(&Dec { mantissa: -314, scale: 2 }), "-3.14");
    assert!(parse_decimal(&"not a number".to_string()).is_none());
}

#[test]
fn arithmetic_keeps_exact_scales() {
    match eval_text("1.5 + 2 * 2", &empty_env()).unwrap() {
        ParamValue::VDec(d) => assert_eq!(d, Dec { mantissa: 55, scale: 1 }),
        _ => panic!("expected a decimal"),
    }
    match eval_text("0.1 + 0.2", &empty_env()).unwrap() {
        ParamValue::VDec(d) => assert_eq!(d, Dec { mantissa: 3, scale: 1 }),
        _ => panic!("expected a decimal"),
    }
    match eval_text("2.5 * 0.4", &empty_env()).unwrap() {
        ParamValue::VDec(d) => {
            // Exact product at the summed scale.
            assert_eq!(d, Dec { mantissa: 100, scale: 2 });
        }
        _ => panic!("expected a decimal"),
    }
    match eval_text("1 - 3", &empty_env()).unwrap() {
        ParamValue::VDec(d) => assert_eq!(d, Dec { mantissa: -2, scale: 0 }),
        _ => panic!("expected a decimal"),
    }
}

#[test]
fn variable_lookup_and_strings() {
    let env = env_with("who", ParamValue::VStr("world".to_string()));
    match eval_text("'hello ' + params.who", &env).unwrap() {
        ParamValue::VStr(s) => assert_eq!(s, "hello world"),
        _ => panic!("expected a string"),
    }
    match eval_text("params.nope", &empty_env()) {
        Err(EvalFailure::UnknownVar { name }) => assert_eq!(name, "nope"),
        _ => panic!("expected UnknownVar"),
    }
}

#[test]
fn comparisons_and_conditionals() {
    match eval_text("1.5 < 2 ? 'low' : 'high'", &empty_env()).unwrap() {
        ParamValue::VStr(s) => assert_eq!(s, "low"),
        _ => panic!("expected a string"),
    }
    match eval_text("2.0 == 2", &empty_env()).unwrap() {
        ParamValue::VBool(b) => assert!(b),
        _ => panic!("expected a boolean"),
    }
    match eval_text("true && !false || false", &empty_env()).unwrap() {
        ParamValue::VBool(b) => assert!(b),
        _ => panic!("expected a boolean"),
    }
    match eval_text("1 + 'x'", &empty_env()) {
        Err(EvalFailure::WrongType) => {}
        _ => panic!("expected WrongType"),
    }
}

#[test]
fn grammar_rejects_malformed_text() {
    assert!(compile_expr(&"1 +".to_string()).is_none());
    assert!(compile_expr(&"('unclosed'".to_string()).is_none());
    assert!(compile_expr(&"foo.bar".to_string()).is_none());
    assert!(compile_expr(&"&&".to_string()).is_none());
    assert!(compile_expr(&"".to_string()).is_none());
}
