use partiql::logical::{BindingsExpr, LogicalPlan, OpId};

#[test]
fn test_plan() {
    let mut p: LogicalPlan<BindingsExpr> = LogicalPlan::new();
    let a = p.add_operator(BindingsExpr::OrderBy);
    let b = p.add_operator(BindingsExpr::Sink);
    let c = p.add_operator(BindingsExpr::Limit);
    let d = p.add_operator(BindingsExpr::GroupBy);
    let e = p.add_operator(BindingsExpr::Offset);
    p.add_flow(a, b);
    p.add_flow(a, c);
    p.add_flow(b, c);
    p.extend_with_flows(&[(c, d), (d, e)]);
    assert_eq!(5, p.operators().len());
    assert_eq!(5, p.flows().len());
}

#[test]
fn operator_ids_count_from_one() {
    let mut p: LogicalPlan<u8> = LogicalPlan::new();
    assert_eq!(p.operator_count(), 0);
    let a = p.add_operator(7);
    let b = p.add_operator(9);
    assert_eq!(a.index(), 1);
    assert_eq!(b.index(), 2);
    assert_ne!(a, b);
    assert_eq!(p.operator_count(), 2);
    assert_eq!(p.operators(), &vec![7u8, 9u8]);
    assert_eq!(p.operators()[b.index() - 1], 9);
}

#[test]
fn flows_are_kept_in_order() {
    let mut p: LogicalPlan<u8> = LogicalPlan::default();
    let a = p.add_operator(1);
    let b = p.add_operator(2);
    p.add_flow_with_branch_num(a, b, 3);
    p.add_flow(b, a);
    p.extend_with_flows(&[(a, a)]);
    let flows: Vec<(OpId, OpId, u8)> = p.flows().clone();
    assert_eq!(flows, vec![(a, b, 3), (b, a, 0), (a, a, 0)]);
    assert_eq!(p.operator_count(), 2);
}


#[test]
fn add_flow_is_a_flow_on_branch_zero() {
    let mut p: LogicalPlan<u8> = LogicalPlan::new();
    let a = p.add_operator(1);
    let b = p.add_operator(2);
    let mut q: LogicalPlan<u8> = LogicalPlan::new();
    let qa = q.add_operator(1);
    let qb = q.add_operator(2);
    p.add_flow(a, b);
    q.add_flow_with_branch_num(qa, qb, 0);
    assert_eq!(p.flows(), q.flows());
    assert_eq!(p.operators(), q.operators());
}
