use partiql::call_defs::{function_call_def, CallArgument, CallSpecArg};
use partiql::logical::{CallName, ValueExpr};
use partiql::value::Value;

fn num(i: i64) -> ValueExpr {
    ValueExpr::Lit(Box::new(Value::Integer(i)))
}

fn as_int(e: &ValueExpr) -> Option<i64> {
    match e {
        ValueExpr::Lit(b) => match **b {
            Value::Integer(i) => Some(i),
            _ => None,
        },
        _ => None,
    }
}

fn call_parts(e: &ValueExpr) -> (CallName, Vec<Option<i64>>) {
    match e {
        ValueExpr::Call(c) => (c.name, c.arguments.iter().map(as_int).collect()),
        other => panic!("not a call: {:?}", other),
    }
}

#[test]
fn lookup_finds_every_name_ignoring_case() {
    let tab = function_call_def();
    for (query, primary) in [
        ("char_length", "char_length"),
        ("CHARACTER_LENGTH", "char_length"),
        ("Octet_Length", "octet_length"),
        ("bit_length", "bit_length"),
        ("LOWER", "lower"),
        ("upper", "upper"),
        ("SubString", "substring"),
        ("position", "position"),
        ("TRIM", "trim"),
        ("coalesce", "coalesce"),
        ("NullIf", "nullif"),
        ("EXISTS", "exists"),
    ] {
        let def = tab.lookup(query).expect("registered name");
        assert_eq!(def.name(), primary);
    }
}

#[test]
fn lookup_of_an_unknown_name_is_none() {
    let tab = function_call_def();
    assert!(tab.lookup("char").is_none());
    assert!(tab.lookup("").is_none());
    assert!(tab.lookup("lowerr").is_none());
}

#[test]
fn positional_call_keeps_its_arguments() {
    let tab = function_call_def();
    let def = tab.lookup("upper").unwrap();
    let e = def.lookup(vec![CallArgument::Positional(num(7))]);
    assert_eq!(call_parts(&e), (CallName::Upper, vec![Some(7)]));
}

#[test]
fn substring_overloads() {
    let tab = function_call_def();
    let def = tab.lookup("substring").unwrap();
    // substring(x, 1, 2)
    let e = def.lookup(vec![
        CallArgument::Positional(num(10)),
        CallArgument::Positional(num(1)),
        CallArgument::Positional(num(2)),
    ]);
    assert_eq!(call_parts(&e), (CallName::Substring, vec![Some(10), Some(1), Some(2)]));
    // substring(x FROM 3 FOR 4), names compared ignoring case
    let e = def.lookup(vec![
        CallArgument::Positional(num(10)),
        CallArgument::Named("FROM".to_string(), num(3)),
        CallArgument::Named("For".to_string(), num(4)),
    ]);
    assert_eq!(call_parts(&e), (CallName::Substring, vec![Some(10), Some(3), Some(4)]));
    // substring(x FOR 4) starts from 0
    let e = def.lookup(vec![
        CallArgument::Positional(num(10)),
        CallArgument::Named("for".to_string(), num(4)),
    ]);
    assert_eq!(call_parts(&e), (CallName::Substring, vec![Some(10), Some(0), Some(4)]));
    // no overload takes a single argument
    assert!(def.try_lookup(vec![CallArgument::Positional(num(10))]).is_none());
    // nor a misnamed one
    assert!(def
        .try_lookup(vec![
            CallArgument::Positional(num(10)),
            CallArgument::Named("to".to_string(), num(4)),
        ])
        .is_none());
}

#[test]
fn trim_overloads() {
    let tab = function_call_def();
    let def = tab.lookup("trim").unwrap();
    let e = def.lookup(vec![
        CallArgument::Named("leading".to_string(), num(1)),
        CallArgument::Named("from".to_string(), num(2)),
    ]);
    assert_eq!(call_parts(&e), (CallName::LTrim, vec![Some(1), Some(2)]));
    let e = def.lookup(vec![
        CallArgument::Named("TRAILING".to_string(), num(1)),
        CallArgument::Named("from".to_string(), num(2)),
    ]);
    assert_eq!(call_parts(&e), (CallName::RTrim, vec![Some(1), Some(2)]));
    // trim(x): both sides, of spaces
    let e = def.lookup(vec![CallArgument::Positional(num(5))]);
    match &e {
        ValueExpr::Call(c) => {
            assert_eq!(c.name, CallName::BTrim);
            assert_eq!(c.arguments.len(), 2);
            match &c.arguments[0] {
                ValueExpr::Lit(b) => assert_eq!(**b, Value::String(" ".to_string())),
                other => panic!("unexpected {:?}", other),
            }
            assert_eq!(as_int(&c.arguments[1]), Some(5));
        }
        other => panic!("unexpected {:?}", other),
    }
    // trim(FROM x)
    let e = def.lookup(vec![CallArgument::Named("from".to_string(), num(5))]);
    match &e {
        ValueExpr::Call(c) => {
            assert_eq!(c.name, CallName::BTrim);
            assert_eq!(c.arguments.len(), 2);
            assert_eq!(as_int(&c.arguments[1]), Some(5));
        }
        other => panic!("unexpected {:?}", other),
    }
    // trim(' ' FROM x)
    let e = def.lookup(vec![
        CallArgument::Positional(num(1)),
        CallArgument::Named("from".to_string(), num(2)),
    ]);
    assert_eq!(call_parts(&e), (CallName::BTrim, vec![Some(1), Some(2)]));
}

#[test]
fn coalesce_takes_up_to_fourteen_arguments() {
    let tab = function_call_def();
    let def = tab.lookup("COALESCE").unwrap();
    let e = def.lookup((0..3).map(|i| CallArgument::Positional(num(i))).collect());
    match &e {
        ValueExpr::CoalesceExpr(c) => {
            assert_eq!(c.elements.iter().map(as_int).collect::<Vec<_>>(), vec![Some(0), Some(1), Some(2)])
        }
        other => panic!("unexpected {:?}", other),
    }
    let e = def.lookup(Vec::new());
    assert!(matches!(&e, ValueExpr::CoalesceExpr(c) if c.elements.is_empty()));
    assert!(def
        .try_lookup((0..14).map(|i| CallArgument::Positional(num(i))).collect())
        .is_some());
    assert!(def
        .try_lookup((0..15).map(|i| CallArgument::Positional(num(i))).collect())
        .is_none());
}

#[test]
fn nullif_builds_its_two_sides() {
    let tab = function_call_def();
    let def = tab.lookup("nullif").unwrap();
    let e = def.lookup(vec![CallArgument::Positional(num(1)), CallArgument::Positional(num(2))]);
    match &e {
        ValueExpr::NullIfExpr(n) => {
            assert_eq!(as_int(&n.lhs), Some(1));
            assert_eq!(as_int(&n.rhs), Some(2));
        }
        other => panic!("unexpected {:?}", other),
    }
}

#[test]
fn position_needs_in() {
    let tab = function_call_def();
    let def = tab.lookup("position").unwrap();
    let e = def.lookup(vec![
        CallArgument::Positional(num(1)),
        CallArgument::Named("IN".to_string(), num(2)),
    ]);
    assert_eq!(call_parts(&e), (CallName::Position, vec![Some(1), Some(2)]));
    assert!(def
        .try_lookup(vec![CallArgument::Positional(num(1)), CallArgument::Positional(num(2))])
        .is_none());
}

#[test]
fn transform_matches_formal_and_actual() {
    assert!(CallSpecArg::Positional.transform(CallArgument::Positional(num(1))).is_some());
    assert!(CallSpecArg::Positional
        .transform(CallArgument::Named("from".to_string(), num(1)))
        .is_none());
    let named = CallSpecArg::Named("from");
    let e = named.transform(CallArgument::Named("From".to_string(), num(3))).unwrap();
    assert_eq!(as_int(&e), Some(3));
    assert!(named.transform(CallArgument::Named("for".to_string(), num(3))).is_none());
    assert!(named.transform(CallArgument::Positional(num(3))).is_none());
    assert!(named.accepts(&CallArgument::Named("FROM".to_string(), num(3))));
}

#[test]
fn coalesce_takes_no_named_argument() {
    let tab = function_call_def();
    let def = tab.lookup("coalesce").unwrap();
    assert!(def
        .try_lookup(vec![CallArgument::Positional(num(1)), CallArgument::Named("x".to_string(), num(2))])
        .is_none());
}
