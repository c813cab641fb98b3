use shakemyleg::expression::Expression;
use shakemyleg::identifier::Identifier;
use shakemyleg::json::Json;
use shakemyleg::operation::BinaryOperation;
use shakemyleg::parse_expression::expr_from_str;
use shakemyleg::value::{EPSILON_UNITS, SCALE, Value};

#[test]
fn test_expr_parse_1() {
    let i = "1";
    let o = expr_from_str(i, 0).unwrap();
    assert!(matches!(o, Expression::Value(Value::Number(_))));
}

#[test]
fn test_expr_parse_2() {
    let i = "  true ";
    let o = expr_from_str(i, 0).unwrap();
    assert!(matches!(o, Expression::Value(Value::Bool(_))));
}

#[test]
fn test_expr_parse_3() {
    let i = "1 + 1";
    let o = expr_from_str(i, 0).unwrap();
    assert!(matches!(o, Expression::Binary(BinaryOperation::Add, _, _)));
}

#[test]
fn test_expr_parse_4() {
    let i = "1 == 1";
    let o = expr_from_str(i, 0).unwrap();
    assert!(matches!(o, Expression::Binary(BinaryOperation::Equal, _, _)));
}

#[test]
fn test_expr_parse_5() {
    let i = "1 ^= 1";
    let o = expr_from_str(i, 0).unwrap();
    assert!(matches!(o, Expression::Binary(BinaryOperation::Contains, _, _)));
}

#[test]
fn test_expr_parse_identifier_contains_int() {
    let i = "inputs.foo ^= 1";
    let o = expr_from_str(i, 0).unwrap();
    match o {
        Expression::Binary(BinaryOperation::Contains, l, r) => {
            match (*l, *r) {
                (Expression::Identifier(_), Expression::Value(Value::Number(_))) => (),
                _ => {
                    panic!()
                },
            }
        },
        _ => {
            panic!()
        },
    }
}

#[test]
fn test_expr_parse_string() {
    let i = "inputs.foo = \"ooh thing another bar\"";
    let o = expr_from_str(i, 0).unwrap();
    match o {
        Expression::Binary(BinaryOperation::Assign, l, r) => {
            match (*l, *r) {
                (Expression::Identifier(_), Expression::Value(Value::String(_))) => (),
                _ => {
                    panic!()
                },
            }
        },
        _ => {
            panic!()
        },
    }
}

#[test]
fn test_expr_parse_list() {
    let i = "inputs.foo = [1, 2, 3]";
    let o = expr_from_str(i, 0).unwrap();
    match o {
        Expression::Binary(BinaryOperation::Assign, l, r) => {
            match (*l, *r) {
                (Expression::Identifier(_), Expression::Value(Value::List(_))) => (),
                _ => {
                    panic!()
                },
            }
        },
        _ => {
            panic!()
        },
    }
}

#[test]
fn test_add_eq_num() {
    let left = Value::Number(SCALE);
    let right = Value::Number(SCALE);
    let op = BinaryOperation::Add;
    let result = op.apply(&left, &right).unwrap();
    match &result {
        Value::Number(v) => {
            assert!((v - 2 * SCALE).abs() < EPSILON_UNITS)
        },
        _ => {
            panic!();
        },
    }

    let op2 = BinaryOperation::Equal;
    let expected = Value::Number(2 * SCALE);
    let result2 = op2.apply(&result, &expected).unwrap();
    assert!(matches!(result2, Value::Bool(true)));
}

#[test]
fn test_store_set() {
    let mut g = Json::new_object();
    let mut o = Json::new_object();
    let ident = Identifier::from_str("outputs.foo.bar".to_string()).unwrap();
    let v = Value::Number(SCALE);
    ident.set(&mut o, &mut g, &v).unwrap();

    assert!(g.is_empty());
    assert!(!o.is_empty());
    assert!(o.has_key("foo"));
    assert!(o.get("foo").unwrap().has_key("bar"));
    assert!(matches!(o.get("foo").unwrap().get("bar"), Some(Json::Number(_))));
}
