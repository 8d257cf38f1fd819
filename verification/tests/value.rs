use partiql::value::{Tuple, Value};

fn t(pairs: &[(&str, Value)]) -> Tuple {
    Tuple { pairs: pairs.iter().map(|(k, v)| (k.to_string(), v.clone())).collect() }
}

#[test]
fn coerce_to_tuple_wraps_other_values() {
    assert_eq!(Value::Integer(3).coerce_to_tuple(), t(&[("_1", Value::Integer(3))]));
    assert_eq!(Value::Missing.coerce_to_tuple(), t(&[("_1", Value::Missing)]));
    let a = t(&[("a", Value::Null)]);
    assert_eq!(Value::Tuple(a.clone()).coerce_to_tuple(), a);
    assert_eq!(Value::Tuple(a.clone()).as_tuple_ref(), a);
}

#[test]
fn tuple_concat_puts_left_pairs_first() {
    let a = t(&[("a", Value::Integer(1))]);
    let b = t(&[("b", Value::Integer(2)), ("a", Value::Integer(3))]);
    assert_eq!(
        a.tuple_concat(&b),
        t(&[("a", Value::Integer(1)), ("b", Value::Integer(2)), ("a", Value::Integer(3))])
    );
    assert_eq!(Tuple::new().tuple_concat(&a), a);
}

#[test]
fn elements_of_collections_and_scalars() {
    assert_eq!(Value::List(vec![Value::Null]).into_elements(), vec![Value::Null]);
    assert_eq!(Value::Integer(1).into_elements(), vec![Value::Integer(1)]);
    assert!(Value::List(vec![]).is_ordered());
    assert!(!Value::Bag(vec![]).is_ordered());
    let c = Value::Bag(vec![Value::String("x".to_string()), Value::Tuple(Tuple::new())]);
    assert_eq!(c.clone(), c);
}

#[test]
fn tuple_values_and_pairs() {
    let a = t(&[("a", Value::Integer(1)), ("b", Value::Boolean(true))]);
    assert_eq!(a.clone().into_values(), vec![Value::Integer(1), Value::Boolean(true)]);
    assert_eq!(a.clone().into_pairs().len(), 2);
    let mut u = Tuple::singleton("k", Value::Null);
    u.insert("m", Value::Integer(0));
    assert_eq!(u, t(&[("k", Value::Null), ("m", Value::Integer(0))]));
}
