use partiql::evaluable::{
    expr_query_bindings, filter_keep, join_step, make_collection, pivot_key, right_bindings,
    scan_emit, scan_input_bindings, select_insert, unpivot_value, EvalContext, EvalDistinct,
    EvalExpr, EvalExprQuery, EvalFilter, EvalJoin, EvalJoinKind, EvalPivot, EvalScan, EvalSelect,
    EvalSelectAll, EvalSelectValue, EvalSink, EvalUnpivot, Evaluable,
};
use partiql::plan::{EvalOp, EvalPlan, EvalSubQueryExpr};
use partiql::value::{Tuple, Value};

struct Ctx;
impl EvalContext for Ctx {}

/// The value of an attribute of the bindings, `MISSING` where there is none.
struct Var(&'static str);
impl EvalExpr for Var {
    fn evaluate(&mut self, bindings: &Tuple, _ctx: &dyn EvalContext) -> Value {
        for (k, v) in &bindings.pairs {
            if k == self.0 {
                return v.clone();
            }
        }
        Value::Missing
    }
}

/// A constant.
struct Const(Value);
impl EvalExpr for Const {
    fn evaluate(&mut self, _bindings: &Tuple, _ctx: &dyn EvalContext) -> Value {
        self.0.clone()
    }
}

fn tuple(pairs: &[(&str, Value)]) -> Tuple {
    Tuple { pairs: pairs.iter().map(|(k, v)| (k.to_string(), v.clone())).collect() }
}

fn tv(pairs: &[(&str, Value)]) -> Value {
    Value::Tuple(tuple(pairs))
}

fn num(i: i64) -> Value {
    Value::Integer(i)
}

fn s(x: &str) -> Value {
    Value::String(x.to_string())
}

#[test]
fn scan_binds_each_element_with_its_position() {
    let mut scan = EvalScan::new_with_at_key(
        Box::new(Const(Value::List(vec![num(10), num(20)]))),
        "x",
        "i",
    );
    assert_eq!(scan.get_vars().unwrap(), &["x".to_string(), "i".to_string()]);
    let out = scan.evaluate(&Ctx).unwrap();
    assert_eq!(
        out,
        Value::Bag(vec![tv(&[("x", num(10)), ("i", num(0))]), tv(&[("x", num(20)), ("i", num(1))])])
    );
}

#[test]
fn scan_of_a_bag_has_missing_positions() {
    let mut scan =
        EvalScan::new_with_at_key(Box::new(Const(Value::Bag(vec![num(1)]))), "x", "i");
    let out = scan.evaluate(&Ctx).unwrap();
    assert_eq!(out, Value::Bag(vec![tv(&[("x", num(1)), ("i", Value::Missing)])]));
}

#[test]
fn scan_ranges_over_the_input_bindings() {
    let mut scan = EvalScan::new(Box::new(Var("a")), "x");
    scan.update_input(Value::Bag(vec![tv(&[("a", num(1))]), tv(&[("a", num(2))])]), 0);
    let out = scan.evaluate(&Ctx).unwrap();
    assert_eq!(out, Value::Bag(vec![tv(&[("x", num(1))]), tv(&[("x", num(2))])]));
    assert!(scan.input.is_none());
    // a scalar value is one element
    let mut scan = EvalScan::new(Box::new(Const(num(5))), "x");
    assert_eq!(scan.evaluate(&Ctx).unwrap(), Value::Bag(vec![tv(&[("x", num(5))])]));
}

#[test]
fn filter_keeps_the_bindings_for_which_the_condition_is_true() {
    let mut filter = EvalFilter::new(Box::new(Var("ok")));
    filter.update_input(
        Value::Bag(vec![
            tv(&[("ok", Value::Boolean(true)), ("n", num(1))]),
            tv(&[("ok", Value::Boolean(false)), ("n", num(2))]),
            tv(&[("ok", Value::Null), ("n", num(3))]),
            tv(&[("n", num(4))]),
            tv(&[("ok", Value::Boolean(true)), ("n", num(5))]),
        ]),
        0,
    );
    let out = filter.evaluate(&Ctx).unwrap();
    assert_eq!(
        out,
        Value::Bag(vec![
            tv(&[("ok", Value::Boolean(true)), ("n", num(1))]),
            tv(&[("ok", Value::Boolean(true)), ("n", num(5))]),
        ])
    );
}

#[test]
fn select_value_keeps_the_order_kind() {
    let mut sv = EvalSelectValue::new(Box::new(Var("a")));
    sv.update_input(Value::List(vec![tv(&[("a", num(2))]), tv(&[("a", num(1))])]), 0);
    assert_eq!(sv.evaluate(&Ctx).unwrap(), Value::List(vec![num(2), num(1)]));
    sv.update_input(Value::Bag(vec![tv(&[("a", num(3))])]), 0);
    assert_eq!(sv.evaluate(&Ctx).unwrap(), Value::Bag(vec![num(3)]));
    // a value that is not a tuple is seen as the tuple {'_1': value}
    let mut sv = EvalSelectValue::new(Box::new(Var("_1")));
    sv.update_input(Value::Bag(vec![num(9)]), 0);
    assert_eq!(sv.evaluate(&Ctx).unwrap(), Value::Bag(vec![num(9)]));
}

#[test]
fn select_leaves_out_missing_values() {
    let exprs: Vec<(String, Box<dyn EvalExpr>)> = vec![
        ("x".to_string(), Box::new(Var("a"))),
        ("y".to_string(), Box::new(Var("b"))),
    ];
    let mut sel = EvalSelect::new(exprs);
    sel.update_input(Value::Bag(vec![tv(&[("a", num(1)), ("b", num(2))]), tv(&[("a", num(3))])]), 0);
    assert_eq!(
        sel.evaluate(&Ctx).unwrap(),
        Value::Bag(vec![tv(&[("x", num(1)), ("y", num(2))]), tv(&[("x", num(3))])])
    );
}

#[test]
fn select_all_merges_the_bound_tuples() {
    let mut sa = EvalSelectAll::new();
    sa.update_input(
        Value::List(vec![tv(&[("t", tv(&[("a", num(1))])), ("u", tv(&[("b", num(2))]))])]),
        0,
    );
    assert_eq!(sa.evaluate(&Ctx).unwrap(), Value::List(vec![tv(&[("a", num(1)), ("b", num(2))])]));
}

#[test]
fn distinct_keeps_first_occurrences() {
    let mut d = EvalDistinct::new();
    d.update_input(Value::List(vec![num(10), num(20), num(10), num(30), num(20)]), 0);
    assert_eq!(d.evaluate(&Ctx).unwrap(), Value::List(vec![num(10), num(20), num(30)]));
    d.update_input(Value::Bag(vec![s("a"), s("a")]), 0);
    assert_eq!(d.evaluate(&Ctx).unwrap(), Value::Bag(vec![s("a")]));
}

#[test]
fn pivot_uses_string_keys_only() {
    let mut p = EvalPivot::new(Box::new(Var("k")), Box::new(Var("v")));
    p.update_input(
        Value::Bag(vec![
            tv(&[("k", s("a")), ("v", num(1))]),
            tv(&[("k", num(5)), ("v", num(2))]),
            tv(&[("k", s("b")), ("v", num(3))]),
        ]),
        0,
    );
    assert_eq!(p.evaluate(&Ctx).unwrap(), tv(&[("a", num(1)), ("b", num(3))]));
}

#[test]
fn unpivot_ranges_over_pairs() {
    let mut u = EvalUnpivot::new(
        Box::new(Const(tv(&[("a", num(1)), ("b", num(2))]))),
        "v",
        Some("k".to_string()),
    );
    assert_eq!(u.get_vars().unwrap(), &["v".to_string(), "k".to_string()]);
    assert_eq!(
        u.evaluate(&Ctx).unwrap(),
        Value::Bag(vec![tv(&[("v", num(1)), ("k", s("a"))]), tv(&[("v", num(2)), ("k", s("b"))])])
    );
    let mut u = EvalUnpivot::new(Box::new(Const(num(7))), "v", None);
    assert_eq!(u.evaluate(&Ctx).unwrap(), Value::Bag(vec![tv(&[("v", num(7))])]));
}

#[test]
fn expr_query_evaluates_against_its_input() {
    let mut q = EvalExprQuery::new(Box::new(Var("_1")));
    assert_eq!(q.evaluate(&Ctx).unwrap(), Value::Null);
    q.update_input(tv(&[("_1", num(4))]), 0);
    assert_eq!(q.evaluate(&Ctx).unwrap(), num(4));
}

#[test]
fn sink_hands_back_its_input_once() {
    let mut sink = EvalSink { input: None };
    sink.update_input(num(3), 0);
    assert_eq!(sink.evaluate(&Ctx), Some(num(3)));
    assert_eq!(sink.evaluate(&Ctx), None);
}

fn left_table() -> Box<dyn Evaluable> {
    Box::new(EvalScan::new(
        Box::new(Const(Value::Bag(vec![tv(&[("id", num(1))]), tv(&[("id", num(2))])]))),
        "l",
    ))
}

fn right_table() -> Box<dyn Evaluable> {
    Box::new(EvalScan::new(Box::new(Const(Value::Bag(vec![tv(&[("id", num(1))])]))), "r"))
}

#[test]
fn inner_join_keeps_matching_pairs() {
    let mut j = EvalJoin::new(EvalJoinKind::Inner, left_table(), right_table(), None);
    let out = j.evaluate(&Ctx).unwrap();
    assert_eq!(
        out,
        Value::Bag(vec![
            tv(&[("l", tv(&[("id", num(1))])), ("r", tv(&[("id", num(1))]))]),
            tv(&[("l", tv(&[("id", num(2))])), ("r", tv(&[("id", num(1))]))]),
        ])
    );
    struct SameId;
    impl EvalExpr for SameId {
        fn evaluate(&mut self, bindings: &Tuple, ctx: &dyn EvalContext) -> Value {
            let l = Var("l").evaluate(bindings, ctx);
            let r = Var("r").evaluate(bindings, ctx);
            Value::Boolean(l == r)
        }
    }
    let mut j = EvalJoin::new(EvalJoinKind::Inner, left_table(), right_table(), Some(Box::new(SameId)));
    assert_eq!(
        j.evaluate(&Ctx).unwrap(),
        Value::Bag(vec![tv(&[("l", tv(&[("id", num(1))])), ("r", tv(&[("id", num(1))]))])])
    );
}

#[test]
fn left_join_pads_with_nulls() {
    struct SameId;
    impl EvalExpr for SameId {
        fn evaluate(&mut self, bindings: &Tuple, ctx: &dyn EvalContext) -> Value {
            Value::Boolean(Var("l").evaluate(bindings, ctx) == Var("r").evaluate(bindings, ctx))
        }
    }
    let mut j = EvalJoin::new(EvalJoinKind::Left, left_table(), right_table(), Some(Box::new(SameId)));
    assert_eq!(
        j.evaluate(&Ctx).unwrap(),
        Value::Bag(vec![
            tv(&[("l", tv(&[("id", num(1))])), ("r", tv(&[("id", num(1))]))]),
            tv(&[("l", tv(&[("id", num(2))])), ("r", Value::Null)]),
        ])
    );
}

#[test]
fn a_sub_query_runs_its_plan() {
    let mut plan = EvalPlan::new();
    plan.add_operator(EvalOp::Scan(EvalScan::new(Box::new(Var("t")), "x")));
    plan.add_operator(EvalOp::SelectValue(EvalSelectValue::new(Box::new(Var("x")))));
    let mut sub = EvalSubQueryExpr::new(plan);
    let bindings = tuple(&[("t", Value::Bag(vec![num(1), num(2)]))]);
    assert_eq!(sub.evaluate(&bindings, &Ctx), Value::Bag(vec![num(1), num(2)]));
    // again, with the same plan
    assert_eq!(sub.evaluate(&bindings, &Ctx), Value::Bag(vec![num(1), num(2)]));
}

#[test]
fn an_empty_plan_fails_and_its_sub_query_is_missing() {
    let mut plan = EvalPlan::new();
    assert!(plan.execute_mut(&Tuple::new(), &Ctx).is_err());
    let mut sub = EvalSubQueryExpr::new(EvalPlan::new());
    assert_eq!(sub.evaluate(&Tuple::new(), &Ctx), Value::Missing);
}

#[test]
fn filter_with_an_always_true_or_false_condition() {
    let input = Value::List(vec![tv(&[("n", num(1))]), num(2)]);
    let mut all = EvalFilter::new(Box::new(Const(Value::Boolean(true))));
    all.update_input(input.clone(), 0);
    assert_eq!(
        all.evaluate(&Ctx).unwrap(),
        Value::Bag(vec![tv(&[("n", num(1))]), tv(&[("_1", num(2))])])
    );
    let mut none = EvalFilter::new(Box::new(Const(Value::Boolean(false))));
    none.update_input(input, 0);
    assert_eq!(none.evaluate(&Ctx).unwrap(), Value::Bag(vec![]));
}

#[test]
fn distinct_twice_is_distinct_once() {
    let mut d = EvalDistinct::new();
    d.update_input(Value::Bag(vec![num(1), num(1), num(2), num(1)]), 0);
    let once = d.evaluate(&Ctx).unwrap();
    d.update_input(once.clone(), 0);
    let twice = d.evaluate(&Ctx).unwrap();
    assert_eq!(once, Value::Bag(vec![num(1), num(2)]));
    assert_eq!(twice, once);
}

#[test]
fn left_join_of_an_empty_right_side_keeps_every_left_binding() {
    let empty_right: Box<dyn Evaluable> =
        Box::new(EvalScan::new_with_at_key(Box::new(Const(Value::Bag(vec![]))), "r", "i"));
    let mut j = EvalJoin::new(EvalJoinKind::Left, left_table(), empty_right, None);
    assert_eq!(
        j.evaluate(&Ctx).unwrap(),
        Value::Bag(vec![
            tv(&[("l", tv(&[("id", num(1))])), ("r", Value::Null), ("i", Value::Null)]),
            tv(&[("l", tv(&[("id", num(2))])), ("r", Value::Null), ("i", Value::Null)]),
        ])
    );
}

#[test]
fn filter_keep_keeps_only_on_true() {
    let mut out = vec![];
    filter_keep(tuple(&[("a", num(1))]), Value::Boolean(true), &mut out);
    filter_keep(tuple(&[("a", num(2))]), Value::Boolean(false), &mut out);
    filter_keep(tuple(&[("a", num(3))]), Value::Null, &mut out);
    filter_keep(tuple(&[("a", num(4))]), num(1), &mut out);
    assert_eq!(out, vec![tv(&[("a", num(1))])]);
}

#[test]
fn unpivot_value_binds_each_pair() {
    let v = tv(&[("x", num(1)), ("y", s("b"))]);
    assert_eq!(
        unpivot_value("v", &Some("k".to_string()), v),
        Value::Bag(vec![
            tv(&[("v", num(1)), ("k", s("x"))]),
            tv(&[("v", s("b")), ("k", s("y"))]),
        ])
    );
    // a value that is not a tuple is seen as `{'_1': value}`
    assert_eq!(unpivot_value("v", &None, num(7)), Value::Bag(vec![tv(&[("v", num(7))])]));
}

#[test]
fn pivot_key_takes_strings_only() {
    assert_eq!(pivot_key(s("a")), Some("a".to_string()));
    assert_eq!(pivot_key(num(1)), None);
    assert_eq!(pivot_key(Value::Null), None);
}

#[test]
fn select_insert_leaves_out_missing() {
    let mut t = Tuple::new();
    select_insert(&mut t, "a", num(1));
    select_insert(&mut t, "b", Value::Missing);
    select_insert(&mut t, "c", Value::Null);
    assert_eq!(t, tuple(&[("a", num(1)), ("c", Value::Null)]));
}

#[test]
fn right_bindings_of_a_non_bag_is_one_empty_tuple() {
    assert_eq!(right_bindings(Some(Value::Bag(vec![num(1)]))), vec![num(1)]);
    assert_eq!(right_bindings(Some(num(1))), vec![tv(&[])]);
    assert_eq!(right_bindings(None), vec![tv(&[])]);
}

#[test]
fn join_step_pairs_pads_and_filters() {
    let b_l = tuple(&[("l", num(1))]);
    let rbs = vec![tv(&[("r", num(1))]), tv(&[("r", num(2))])];
    let mut out = vec![];
    join_step(false, &b_l, &rbs, &None, &[], &mut out);
    assert_eq!(
        out,
        vec![tv(&[("l", num(1)), ("r", num(1))]), tv(&[("l", num(1)), ("r", num(2))])]
    );
    let mut out = vec![];
    let conds = Some(vec![Value::Boolean(false), Value::Boolean(true)]);
    join_step(false, &b_l, &rbs, &conds, &[], &mut out);
    assert_eq!(out, vec![tv(&[("l", num(1)), ("r", num(2))])]);
    let mut out = vec![];
    let none = Some(vec![Value::Null, Value::Boolean(false)]);
    join_step(true, &b_l, &rbs, &none, &["r".to_string()], &mut out);
    assert_eq!(out, vec![tv(&[("l", num(1)), ("r", Value::Null)])]);
    let mut out = vec![];
    join_step(false, &b_l, &rbs, &none, &["r".to_string()], &mut out);
    assert_eq!(out, vec![]);
}

#[test]
fn scan_input_bindings_of_each_input() {
    assert_eq!(scan_input_bindings(Some(Value::Bag(vec![num(1), num(2)]))), vec![num(1), num(2)]);
    assert_eq!(scan_input_bindings(Some(tv(&[("a", num(1))]))), vec![tv(&[("a", num(1))])]);
    assert_eq!(scan_input_bindings(Some(num(3))), vec![tv(&[])]);
    assert_eq!(scan_input_bindings(None), vec![tv(&[])]);
}

#[test]
fn scan_emit_numbers_ordered_elements() {
    let mut out = vec![];
    scan_emit("x", &Some("i".to_string()), Value::List(vec![s("a"), s("b")]), &mut out);
    scan_emit("x", &None, num(5), &mut out);
    assert_eq!(
        out,
        vec![
            tv(&[("x", s("a")), ("i", num(0))]),
            tv(&[("x", s("b")), ("i", num(1))]),
            tv(&[("x", num(5))]),
        ]
    );
}

#[test]
fn expr_query_bindings_see_the_input_as_a_tuple() {
    assert_eq!(expr_query_bindings(None), tuple(&[("_1", Value::Null)]));
    assert_eq!(expr_query_bindings(Some(num(2))), tuple(&[("_1", num(2))]));
    assert_eq!(expr_query_bindings(Some(tv(&[("a", num(1))]))), tuple(&[("a", num(1))]));
}

#[test]
fn make_collection_keeps_the_order_kind() {
    assert_eq!(make_collection(true, vec![num(1)]), Value::List(vec![num(1)]));
    assert_eq!(make_collection(false, vec![num(1)]), Value::Bag(vec![num(1)]));
}

#[test]
fn a_join_hands_its_operands_the_environment() {
    // The left operand sees the input; the right operand sees the input and the left
    // binding; the condition sees both bindings after the input.
    struct SeesEnv;
    impl EvalExpr for SeesEnv {
        fn evaluate(&mut self, bindings: &Tuple, ctx: &dyn EvalContext) -> Value {
            Value::Boolean(Var("env").evaluate(bindings, ctx) == num(9))
        }
    }
    let left: Box<dyn Evaluable> = Box::new(EvalScan::new(Box::new(Var("env")), "l"));
    let right: Box<dyn Evaluable> = Box::new(EvalScan::new(Box::new(Var("l")), "r"));
    let mut j = EvalJoin::new(EvalJoinKind::Inner, left, right, Some(Box::new(SeesEnv)));
    j.update_input(tv(&[("env", num(9))]), 0);
    assert_eq!(j.evaluate(&Ctx).unwrap(), Value::Bag(vec![tv(&[("l", num(9)), ("r", num(9))])]));
}
