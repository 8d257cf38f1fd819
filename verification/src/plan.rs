use vstd::prelude::*;

use crate::evaluable::{
    opt_view, EvalContext, EvalDistinct, EvalExpr, EvalExprQuery, EvalFilter, EvalJoin, EvalPivot,
    EvalScan, EvalSelect, EvalSelectAll, EvalSelectValue, EvalSink, EvalUnpivot, Evaluable,
};
use crate::value::{Datum, Tuple, Value};

verus! {

/// An operator of an evaluation plan.
pub enum EvalOp {
    Scan(EvalScan),
    Join(EvalJoin),
    Pivot(EvalPivot),
    Unpivot(EvalUnpivot),
    Filter(EvalFilter),
    SelectValue(EvalSelectValue),
    Select(EvalSelect),
    SelectAll(EvalSelectAll),
    ExprQuery(EvalExprQuery),
    Distinct(EvalDistinct),
    Sink(EvalSink),
}

impl EvalOp {
    /// What the operator yields for each input it is handed.
    pub open spec fn sem(&self) -> spec_fn(Option<Datum>) -> Option<Datum> {
        match self {
            EvalOp::Scan(o) => o.sem(),
            EvalOp::Join(o) => o.sem(),
            EvalOp::Pivot(o) => o.sem(),
            EvalOp::Unpivot(o) => o.sem(),
            EvalOp::Filter(o) => o.sem(),
            EvalOp::SelectValue(o) => o.sem(),
            EvalOp::Select(o) => o.sem(),
            EvalOp::SelectAll(o) => o.sem(),
            EvalOp::ExprQuery(o) => o.sem(),
            EvalOp::Distinct(o) => o.sem(),
            EvalOp::Sink(o) => o.sem(),
        }
    }

    /// The inputs the operator can be handed.
    pub open spec fn dom(&self) -> spec_fn(Option<Datum>) -> bool {
        match self {
            EvalOp::Scan(o) => o.dom(),
            EvalOp::Join(o) => o.dom(),
            EvalOp::Pivot(o) => o.dom(),
            EvalOp::Unpivot(o) => o.dom(),
            EvalOp::Filter(o) => o.dom(),
            EvalOp::SelectValue(o) => o.dom(),
            EvalOp::Select(o) => o.dom(),
            EvalOp::SelectAll(o) => o.dom(),
            EvalOp::ExprQuery(o) => o.dom(),
            EvalOp::Distinct(o) => o.dom(),
            EvalOp::Sink(o) => o.dom(),
        }
    }

    /// Whether two operators are of the same kind.
    pub open spec fn same_kind(&self, other: EvalOp) -> bool {
        match (*self, other) {
            (EvalOp::Scan(_), EvalOp::Scan(_)) => true,
            (EvalOp::Join(_), EvalOp::Join(_)) => true,
            (EvalOp::Pivot(_), EvalOp::Pivot(_)) => true,
            (EvalOp::Unpivot(_), EvalOp::Unpivot(_)) => true,
            (EvalOp::Filter(_), EvalOp::Filter(_)) => true,
            (EvalOp::SelectValue(_), EvalOp::SelectValue(_)) => true,
            (EvalOp::Select(_), EvalOp::Select(_)) => true,
            (EvalOp::SelectAll(_), EvalOp::SelectAll(_)) => true,
            (EvalOp::ExprQuery(_), EvalOp::ExprQuery(_)) => true,
            (EvalOp::Distinct(_), EvalOp::Distinct(_)) => true,
            (EvalOp::Sink(_), EvalOp::Sink(_)) => true,
            _ => false,
        }
    }

    /// Hands the operator its input (on branch 0), then evaluates it: it yields what it
    /// yields for that input, and stays the operator it was.
    pub fn run(self, input: Value, ctx: &dyn EvalContext) -> (r: (EvalOp, Option<Value>))
        requires
            (self.dom())(Some(input@)),
        ensures
            self.same_kind(r.0),
            r.0.sem() == self.sem(),
            r.0.dom() == self.dom(),
            opt_view(r.1) == (self.sem())(Some(input@)),
    {
        match self {
            EvalOp::Scan(mut o) => {
                o.update_input(input, 0);
                let v = o.evaluate(ctx);
                (EvalOp::Scan(o), v)
            },
            EvalOp::Join(mut o) => {
                o.update_input(input, 0);
                let v = o.evaluate(ctx);
                (EvalOp::Join(o), v)
            },
            EvalOp::Pivot(mut o) => {
                o.update_input(input, 0);
                let v = o.evaluate(ctx);
                (EvalOp::Pivot(o), v)
            },
            EvalOp::Unpivot(mut o) => {
                o.update_input(input, 0);
                let v = o.evaluate(ctx);
                (EvalOp::Unpivot(o), v)
            },
            EvalOp::Filter(mut o) => {
                o.update_input(input, 0);
                let v = o.evaluate(ctx);
                (EvalOp::Filter(o), v)
            },
            EvalOp::SelectValue(mut o) => {
                o.update_input(input, 0);
                let v = o.evaluate(ctx);
                (EvalOp::SelectValue(o), v)
            },
            EvalOp::Select(mut o) => {
                o.update_input(input, 0);
                let v = o.evaluate(ctx);
                (EvalOp::Select(o), v)
            },
            EvalOp::SelectAll(mut o) => {
                o.update_input(input, 0);
                let v = o.evaluate(ctx);
                (EvalOp::SelectAll(o), v)
            },
            EvalOp::ExprQuery(mut o) => {
                o.update_input(input, 0);
                let v = o.evaluate(ctx);
                (EvalOp::ExprQuery(o), v)
            },
            EvalOp::Distinct(mut o) => {
                o.update_input(input, 0);
                let v = o.evaluate(ctx);
                (EvalOp::Distinct(o), v)
            },
            EvalOp::Sink(mut o) => {
                o.update_input(input, 0);
                let v = o.evaluate(ctx);
                (EvalOp::Sink(o), v)
            },
        }
    }
}

/// The result of executing a plan.
pub struct Evaluated {
    pub result: Value,
}

/// What can go wrong when a plan is executed.
#[derive(Debug)]
pub enum EvaluationError {
    /// The plan has no operator.
    EmptyPlan,
    /// An operator yielded nothing.
    MissingResult,
}

/// The errors of an execution.
pub struct EvalErr {
    pub errors: Vec<EvaluationError>,
}

fn error(e: EvaluationError) -> (r: EvalErr)
    ensures
        r.errors@ == seq![e],
{
    let mut errors = Vec::new();
    errors.push(e);
    proof {
        assert(errors@ =~= seq![e]);
    }
    EvalErr { errors }
}


/// What running the operators (`sems`) one after the other yields when the first is
/// handed `start`: each is handed what the one before it yielded; `None` once one yields
/// nothing.
pub open spec fn run_ops(sems: Seq<spec_fn(Option<Datum>) -> Option<Datum>>, start: Datum) -> Option<
    Datum,
>
    decreases sems.len(),
{
    if sems.len() == 0 {
        Some(start)
    } else {
        match run_ops(sems.drop_last(), start) {
            Some(d) => (sems.last())(Some(d)),
            None => None,
        }
    }
}

/// Whether each operator can take what is handed to it when the first is handed `start`.
pub open spec fn ops_accept(
    sems: Seq<spec_fn(Option<Datum>) -> Option<Datum>>,
    doms: Seq<spec_fn(Option<Datum>) -> bool>,
    start: Datum,
) -> bool {
    forall|k: int|
        0 <= k < sems.len() ==> (#[trigger] run_ops(sems.take(k), start) matches Some(d) ==> (
        doms[k])(Some(d)))
}

/// Once an operator yields nothing, so does the whole run.
pub proof fn lemma_run_ops_none(
    sems: Seq<spec_fn(Option<Datum>) -> Option<Datum>>,
    start: Datum,
    j: int,
)
    requires
        0 <= j <= sems.len(),
        run_ops(sems.take(j), start) is None,
    ensures
        run_ops(sems, start) is None,
    decreases sems.len(),
{
    if j == sems.len() {
        assert(sems.take(j) =~= sems);
    } else {
        assert(sems.drop_last().take(j) =~= sems.take(j));
        lemma_run_ops_none(sems.drop_last(), start, j);
    }
}

/// An evaluation plan: a pipeline of operators, each consuming (on branch 0) what the one
/// before it yields. The first operator consumes the bindings the plan is executed with.
pub struct EvalPlan {
    ops: Vec<EvalOp>,
}

impl EvalPlan {
    /// The number of operators in the plan.
    pub closed spec fn len(&self) -> nat {
        self.ops@.len()
    }

    /// What each operator yields for what it is handed, in order.
    pub closed spec fn sems(&self) -> Seq<spec_fn(Option<Datum>) -> Option<Datum>> {
        self.ops@.map_values(|o: EvalOp| o.sem())
    }

    /// What each operator can be handed, in order.
    pub closed spec fn doms(&self) -> Seq<spec_fn(Option<Datum>) -> bool> {
        self.ops@.map_values(|o: EvalOp| o.dom())
    }

    /// Whether the plan can be executed with the bindings `start`.
    pub open spec fn accepts(&self, start: Datum) -> bool {
        ops_accept(self.sems(), self.doms(), start)
    }

    /// The plan with no operator.
    pub fn new() -> (r: Self)
        ensures
            r.len() == 0,
            r.sems() == Seq::<spec_fn(Option<Datum>) -> Option<Datum>>::empty(),
            r.doms() == Seq::<spec_fn(Option<Datum>) -> bool>::empty(),
    {
        let r = EvalPlan { ops: Vec::new() };
        proof {
            assert(r.sems() =~= Seq::<spec_fn(Option<Datum>) -> Option<Datum>>::empty());
            assert(r.doms() =~= Seq::<spec_fn(Option<Datum>) -> bool>::empty());
        }
        r
    }

    /// Appends an operator at the end of the pipeline.
    pub fn add_operator(&mut self, op: EvalOp)
        ensures
            final(self).len() == old(self).len() + 1,
            final(self).sems() == old(self).sems().push(op.sem()),
            final(self).doms() == old(self).doms().push(op.dom()),
    {
        self.ops.push(op);
        proof {
            assert(self.sems() =~= old(self).sems().push(op.sem()));
            assert(self.doms() =~= old(self).doms().push(op.dom()));
        }
    }

    /// Runs the operators in order, handing each result to the next operator; the result
    /// of the last operator is the plan's result. An empty plan is an error, and so is an
    /// operator that yields nothing.
    pub fn execute_mut(&mut self, bindings: &Tuple, ctx: &dyn EvalContext) -> (r: Result<
        Evaluated,
        EvalErr,
    >)
        requires
            old(self).accepts(Datum::Tuple(bindings@)),
        ensures
            final(self).len() == old(self).len(),
            final(self).sems() == old(self).sems(),
            final(self).doms() == old(self).doms(),
            old(self).len() == 0 ==> (r matches Err(e) && e.errors@ == seq![
                EvaluationError::EmptyPlan,
            ]),
            old(self).len() > 0 ==> (r is Ok <==> run_ops(
                old(self).sems(),
                Datum::Tuple(bindings@),
            ) is Some),
            r matches Ok(e) ==> Some(e.result@) == run_ops(old(self).sems(), Datum::Tuple(bindings@)),
            old(self).len() > 0 ==> (r matches Err(e) ==> e.errors@ == seq![
                EvaluationError::MissingResult,
            ]),
    {
        let ghost sems = self.sems();
        let ghost doms = self.doms();
        let ghost start = Datum::Tuple(bindings@);
        let n = self.ops.len();
        if n == 0 {
            return Err(error(EvaluationError::EmptyPlan));
        }
        let mut next_input = Value::Tuple(bindings.clone());
        proof {
            assert(sems.take(0) =~= Seq::<spec_fn(Option<Datum>) -> Option<Datum>>::empty());
        }
        let mut k: usize = 0;
        while k < n
            invariant
                n == self.ops@.len(),
                n == old(self).ops@.len(),
                sems == old(self).sems(),
                doms == old(self).doms(),
                self.sems() == sems,
                self.doms() == doms,
                sems.len() == n,
                doms.len() == n,
                ops_accept(sems, doms, start),
                start == Datum::Tuple(bindings@),
                k < n,
                run_ops(sems.take(k as int), start) == Some(next_input@),
            decreases n - k,
        {
            let ghost before = self.ops@;
            let op = self.ops.remove(k);
            proof {
                assert(op == before[k as int]);
                assert(op.sem() == sems[k as int]);
                assert(op.dom() == doms[k as int]);
                assert(run_ops(sems.take(k as int), start) matches Some(d) ==> (doms[k as int])(
                    Some(d),
                ));
            }
            let ghost handed = next_input@;
            let (op, result) = op.run(next_input, ctx);
            self.ops.insert(k, op);
            proof {
                assert forall|j: int| 0 <= j < n implies #[trigger] self.ops@[j].sem() == sems[j]
                    && self.ops@[j].dom() == doms[j] by {
                    if j != k {
                        assert(self.ops@[j] == before[j]);
                    }
                }
                assert(self.sems() =~= sems);
                assert(self.doms() =~= doms);
                assert(sems.take(k + 1).drop_last() =~= sems.take(k as int));
                assert(sems.take(k + 1).last() == sems[k as int]);
                assert(run_ops(sems.take(k + 1), start) == (sems[k as int])(Some(handed)));
                assert(opt_view(result) == run_ops(sems.take(k + 1), start));
            }
            match result {
                Some(v) => {
                    proof {
                        assert(run_ops(sems.take(k + 1), start) == Some(v@));
                    }
                    if k + 1 == n {
                        proof {
                            assert(sems.take(n as int) =~= sems);
                            assert(run_ops(sems, start) == Some(v@));
                        }
                        return Ok(Evaluated { result: v });
                    }
                    next_input = v;
                },
                None => {
                    proof {
                        lemma_run_ops_none(sems, start, k + 1);
                    }
                    return Err(error(EvaluationError::MissingResult));
                },
            }
            k = k + 1;
        }
        Err(error(EvaluationError::MissingResult))
    }
}

/// What a sub-query gives for the bindings `b`: the result of its plan (`sems`), or
/// `MISSING` where the plan fails (an empty plan fails).
pub open spec fn subquery_value(
    sems: Seq<spec_fn(Option<Datum>) -> Option<Datum>>,
    b: Seq<(Seq<char>, Datum)>,
) -> Datum {
    if sems.len() == 0 {
        Datum::Missing
    } else {
        match run_ops(sems, Datum::Tuple(b)) {
            Some(d) => d,
            None => Datum::Missing,
        }
    }
}

/// Represents an evaluation operator for sub-queries, e.g. `SELECT a FROM b` in
/// `SELECT b.c, (SELECT a FROM b) FROM books AS b`.
pub struct EvalSubQueryExpr {
    plan: EvalPlan,
}

impl EvalSubQueryExpr {
    /// The sub-query's plan can be executed with any bindings.
    #[verifier::type_invariant]
    closed spec fn inv(&self) -> bool {
        forall|b: Seq<(Seq<char>, Datum)>| #[trigger] self.plan.accepts(Datum::Tuple(b))
    }

    /// The sub-query's plan.
    pub closed spec fn plan(&self) -> EvalPlan {
        self.plan
    }

    pub fn new(plan: EvalPlan) -> (r: Self)
        requires
            forall|b: Seq<(Seq<char>, Datum)>| #[trigger] plan.accepts(Datum::Tuple(b)),
        ensures
            r.plan() == plan,
    {
        EvalSubQueryExpr { plan }
    }
}

impl EvalExpr for EvalSubQueryExpr {
    /// See [`subquery_value`].
    open spec fn meaning(&self) -> spec_fn(Seq<(Seq<char>, Datum)>) -> Datum {
        let sems = self.plan().sems();
        |b: Seq<(Seq<char>, Datum)>| subquery_value(sems, b)
    }

    /// Executes the plan against the bindings: its result, or `MISSING` where it fails.
    fn evaluate(&mut self, bindings: &Tuple, ctx: &dyn EvalContext) -> (r: Value) {
        proof {
            use_type_invariant(&*self);
        }
        let mut plan = EvalPlan::new();
        std::mem::swap(&mut plan, &mut self.plan);
        assert(plan.accepts(Datum::Tuple(bindings@)));
        let ghost before = plan;
        let outcome = plan.execute_mut(bindings, ctx);
        assert forall|b: Seq<(Seq<char>, Datum)>| #[trigger] plan.accepts(Datum::Tuple(b)) by {
            assert(before.accepts(Datum::Tuple(b)));
        }
        std::mem::swap(&mut plan, &mut self.plan);
        match outcome {
            Ok(evaluated) => evaluated.result,
            Err(_) => Value::Missing,
        }
    }
}

} // verus!
