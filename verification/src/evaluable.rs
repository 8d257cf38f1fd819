use itertools::Itertools;
use vstd::prelude::*;

use crate::value::{
    coerce_to_tuple, elements, is_ordered, lemma_pairs_view, lemma_values_view,
    lemma_values_view_concat, lemma_values_view_push, values_view, Datum, Tuple, Value,
};

verus! {

broadcast use vstd::string::group_string_axioms;

/// The context in which a query is evaluated.
pub trait EvalContext {}

/// An expression that is evaluated against the bindings of a tuple.
pub trait EvalExpr {
    /// What the expression gives when it is evaluated against given bindings. Each
    /// implementation states it; one that does not leaves it unspecified.
    open spec fn meaning(&self) -> spec_fn(Seq<(Seq<char>, Datum)>) -> Datum {
        vstd::pervasive::arbitrary()
    }

    fn evaluate(&mut self, bindings: &Tuple, ctx: &dyn EvalContext) -> (r: Value)
        ensures
            r@ == (old(self).meaning())(bindings@),
            final(self).meaning() == old(self).meaning(),
    ;
}

/// `Evaluable` represents each evaluation operator in the evaluation plan as an evaluable entity.
///
/// An operator is modelled by what it yields for each input it may hold (`sem`), the inputs
/// on which it can be evaluated (`dom`) and the attributes it reports (`vars`); evaluating
/// it or handing it an input changes none of them.
pub trait Evaluable {
    /// The input the operator holds.
    spec fn held(&self) -> Option<Datum>;

    /// What the operator yields when it is evaluated holding a given input.
    spec fn sem(&self) -> spec_fn(Option<Datum>) -> Option<Datum>;

    /// The inputs on which the operator can be evaluated.
    spec fn dom(&self) -> spec_fn(Option<Datum>) -> bool;

    /// The attributes that `get_vars` reports.
    spec fn vars(&self) -> Option<Seq<Seq<char>>>;

    fn evaluate(&mut self, ctx: &dyn EvalContext) -> (r: Option<Value>)
        requires
            (old(self).dom())(old(self).held()),
        ensures
            opt_view(r) == (old(self).sem())(old(self).held()),
            final(self).sem() == old(self).sem(),
            final(self).dom() == old(self).dom(),
            final(self).vars() == old(self).vars(),
    ;

    fn update_input(&mut self, input: Value, branch_num: u8)
        ensures
            final(self).held() == Some(input@),
            final(self).sem() == old(self).sem(),
            final(self).dom() == old(self).dom(),
            final(self).vars() == old(self).vars(),
    ;

    /// The attributes that the bindings this operator produces bind.
    fn get_vars(&self) -> (r: Option<&[String]>)
        ensures
            opt_strings(r) == self.vars(),
    ;
}

/// The model of an optional value.
pub open spec fn opt_view(o: Option<Value>) -> Option<Datum> {
    match o {
        Some(v) => Some(v@),
        None => None,
    }
}

/// The model of an optional sequence of values.
pub open spec fn opt_values(o: Option<Vec<Value>>) -> Option<Seq<Datum>> {
    match o {
        Some(v) => Some(values_view(v@)),
        None => None,
    }
}

/// The models of a sequence of strings.
pub open spec fn strings_view(s: Seq<String>) -> Seq<Seq<char>> {
    s.map_values(|x: String| x@)
}

/// The model of optional attribute names.
pub open spec fn opt_strings(o: Option<&[String]>) -> Option<Seq<Seq<char>>> {
    match o {
        Some(s) => Some(strings_view(s@)),
        None => None,
    }
}

/// A list of the items where the input was ordered, else a bag.
pub open spec fn collection(ordered: bool, items: Seq<Datum>) -> Datum {
    if ordered {
        Datum::List(items)
    } else {
        Datum::Bag(items)
    }
}

/// The items whose flag is set, in order.
pub open spec fn keep<A>(items: Seq<A>, flags: Seq<bool>) -> Seq<A>
    decreases items.len(),
{
    if items.len() == 0 {
        Seq::empty()
    } else {
        let rest = keep(items.drop_last(), flags);
        if flags[items.len() - 1] {
            rest.push(items.last())
        } else {
            rest
        }
    }
}

pub proof fn lemma_keep_push<A>(items: Seq<A>, flags: Seq<bool>, x: A)
    ensures
        keep(items.push(x), flags) == if flags[items.len() as int] {
            keep(items, flags).push(x)
        } else {
            keep(items, flags)
        },
{
    assert(items.push(x).drop_last() =~= items);
}

/// `keep` reads only the flags of the items it is given.
pub proof fn lemma_keep_prefix<A>(items: Seq<A>, f1: Seq<bool>, f2: Seq<bool>)
    requires
        forall|j: int| 0 <= j < items.len() ==> f1[j] == f2[j],
    ensures
        keep(items, f1) == keep(items, f2),
    decreases items.len(),
{
    if items.len() > 0 {
        lemma_keep_prefix(items.drop_last(), f1, f2);
    }
}

/// Each value seen as a tuple.
pub open spec fn as_tuples(items: Seq<Datum>) -> Seq<Datum> {
    items.map_values(|d: Datum| Datum::Tuple(coerce_to_tuple(d)))
}

/// Whether a value is the boolean `true`.
pub open spec fn is_true(d: Datum) -> bool {
    d == Datum::Boolean(true)
}

/// Collects the values into a list where `ordered`, else into a bag.
pub fn make_collection(ordered: bool, items: Vec<Value>) -> (r: Value)
    ensures
        r@ == collection(ordered, values_view(items@)),
{
    if ordered {
        Value::List(items)
    } else {
        Value::Bag(items)
    }
}

// ---------------------------------------------------------------------------
// Sink
// ---------------------------------------------------------------------------

/// Represents an operator that captures the output of a (sub)query in the plan.
pub struct EvalSink {
    pub input: Option<Value>,
}

impl Evaluable for EvalSink {
    open spec fn held(&self) -> Option<Datum> {
        opt_view(self.input)
    }

    /// A sink yields the input it holds.
    open spec fn sem(&self) -> spec_fn(Option<Datum>) -> Option<Datum> {
        |i: Option<Datum>| i
    }

    open spec fn dom(&self) -> spec_fn(Option<Datum>) -> bool {
        |i: Option<Datum>| true
    }

    open spec fn vars(&self) -> Option<Seq<Seq<char>>> {
        None
    }

    fn evaluate(&mut self, _ctx: &dyn EvalContext) -> (r: Option<Value>)
        ensures
            r == old(self).input,
            final(self).input is None,
    {
        self.input.take()
    }

    fn update_input(&mut self, input: Value, _branch_num: u8)
        ensures
            final(self).input == Some(input),
    {
        self.input = Some(input);
    }

    fn get_vars(&self) -> (r: Option<&[String]>) {
        None
    }
}

// ---------------------------------------------------------------------------
// ExprQuery
// ---------------------------------------------------------------------------

/// The bindings a stand-alone expression is evaluated against: its input (`NULL` where
/// there is none) seen as a tuple.
pub open spec fn query_bindings(i: Option<Datum>) -> Seq<(Seq<char>, Datum)> {
    match i {
        Some(d) => coerce_to_tuple(d),
        None => coerce_to_tuple(Datum::Null),
    }
}

/// The bindings of a stand-alone expression, made of its input (see [`query_bindings`]).
pub fn expr_query_bindings(input: Option<Value>) -> (r: Tuple)
    ensures
        r@ == query_bindings(opt_view(input)),
{
    input.unwrap_or(Value::Null).coerce_to_tuple()
}

/// Represents an evaluation `ExprQuery` operator; in PartiQL as opposed to SQL, the following
/// expression by its own is valid: `2 * 2`. Considering this, evaluation plan designates an operator
/// for evaluating such stand-alone expressions.
pub struct EvalExprQuery {
    pub expr: Box<dyn EvalExpr>,
    pub input: Option<Value>,
}

impl EvalExprQuery {
    pub fn new(expr: Box<dyn EvalExpr>) -> (r: Self)
        ensures
            r == (EvalExprQuery { expr, input: None }),
    {
        EvalExprQuery { expr, input: None }
    }
}

impl Evaluable for EvalExprQuery {
    open spec fn held(&self) -> Option<Datum> {
        opt_view(self.input)
    }

    /// The expression's value for the input seen as a tuple (see [`query_bindings`]).
    open spec fn sem(&self) -> spec_fn(Option<Datum>) -> Option<Datum> {
        let m = self.expr.meaning();
        |i: Option<Datum>| Some(m(query_bindings(i)))
    }

    open spec fn dom(&self) -> spec_fn(Option<Datum>) -> bool {
        |i: Option<Datum>| true
    }

    open spec fn vars(&self) -> Option<Seq<Seq<char>>> {
        None
    }

    fn evaluate(&mut self, ctx: &dyn EvalContext) -> (r: Option<Value>)
        ensures
            final(self).input is None,
    {
        let input_value = expr_query_bindings(self.input.take());
        Some(self.expr.evaluate(&input_value, ctx))
    }

    fn update_input(&mut self, input: Value, _branch_num: u8)
        ensures
            final(self).input == Some(input),
    {
        self.input = Some(input);
    }

    fn get_vars(&self) -> (r: Option<&[String]>) {
        None
    }
}

// ---------------------------------------------------------------------------
// Filter
// ---------------------------------------------------------------------------

/// For each item, whether the condition gives `true` for it seen as a tuple.
pub open spec fn cond_flags(
    m: spec_fn(Seq<(Seq<char>, Datum)>) -> Datum,
    items: Seq<Datum>,
) -> Seq<bool> {
    items.map_values(|d: Datum| is_true(m(coerce_to_tuple(d))))
}

/// What `Filter` returns: the input's elements seen as tuples, those for which the
/// condition `m` gives `true`, in a bag.
pub open spec fn filter_output(input: Datum, m: spec_fn(Seq<(Seq<char>, Datum)>) -> Datum) -> Datum {
    Datum::Bag(keep(as_tuples(elements(input)), cond_flags(m, elements(input))))
}

/// Keeps the binding `t` where its condition gave `true`: alike SQL, where the condition
/// is absent or not a boolean, PartiQL drops the binding.
pub fn filter_keep(t: Tuple, cond: Value, out: &mut Vec<Value>)
    ensures
        values_view(final(out)@) == if is_true(cond@) {
            values_view(old(out)@).push(Datum::Tuple(t@))
        } else {
            values_view(old(out)@)
        },
{
    let ghost before = out@;
    match cond {
        Value::Boolean(true) => {
            let v = Value::Tuple(t);
            out.push(v);
            proof {
                lemma_values_view_push(before, v);
            }
        },
        _ => {},
    }
}

/// Represents an evaluation `Filter` operator; for an input bag of binding tuples the `Filter`
/// operator filters out the binding tuples that does not meet the condition expressed as `expr`,
/// e.g.`a > 2` in `WHERE a > 2` expression.
pub struct EvalFilter {
    pub expr: Box<dyn EvalExpr>,
    pub input: Option<Value>,
}

impl EvalFilter {
    pub fn new(expr: Box<dyn EvalExpr>) -> (r: Self)
        ensures
            r == (EvalFilter { expr, input: None }),
    {
        EvalFilter { expr, input: None }
    }
}

impl Evaluable for EvalFilter {
    open spec fn held(&self) -> Option<Datum> {
        opt_view(self.input)
    }

    /// See [`filter_output`].
    open spec fn sem(&self) -> spec_fn(Option<Datum>) -> Option<Datum> {
        let m = self.expr.meaning();
        |i: Option<Datum>| Some(filter_output(i->0, m))
    }

    /// A filter needs an input.
    open spec fn dom(&self) -> spec_fn(Option<Datum>) -> bool {
        |i: Option<Datum>| i is Some
    }

    open spec fn vars(&self) -> Option<Seq<Seq<char>>> {
        None
    }

    fn evaluate(&mut self, ctx: &dyn EvalContext) -> (r: Option<Value>)
        ensures
            final(self).input is None,
    {
        let ghost m = self.expr.meaning();
        let input_value = self.input.take().unwrap();
        let ghost input_d = input_value@;
        let items = input_value.into_elements();
        let ghost items_d = values_view(items@);
        let ghost flags = cond_flags(m, items_d);
        proof {
            lemma_values_view(items@);
        }
        let mut out: Vec<Value> = Vec::new();
        let n = items.len();
        let mut i: usize = 0;
        while i < n
            invariant
                n == items_d.len(),
                self.input is None,
                self.expr.meaning() == m,
                items_d == elements(input_d),
                flags == cond_flags(m, items_d),
                i <= n,
                items@.len() == n,
                forall|j: int| 0 <= j < n ==> #[trigger] items@[j]@ == items_d[j],
                values_view(out@) == keep(as_tuples(items_d.take(i as int)), flags),
            decreases n - i,
        {
            let t = items[i].as_tuple_ref();
            let ghost td = Datum::Tuple(t@);
            let ghost ts = as_tuples(items_d.take(i as int));
            let cond = self.expr.evaluate(&t, ctx);
            proof {
                assert(as_tuples(items_d.take(i + 1)) =~= ts.push(td));
                lemma_keep_push(ts, flags, td);
                assert(flags[i as int] == is_true(cond@));
            }
            filter_keep(t, cond, &mut out);
            i = i + 1;
        }
        proof {
            assert(items_d.take(n as int) =~= items_d);
        }
        Some(Value::Bag(out))
    }

    fn update_input(&mut self, input: Value, _branch_num: u8)
        ensures
            final(self).input == Some(input),
    {
        self.input = Some(input);
    }

    fn get_vars(&self) -> (r: Option<&[String]>) {
        None
    }
}

// ---------------------------------------------------------------------------
// SelectValue
// ---------------------------------------------------------------------------

/// The value of `m` for each item seen as a tuple.
pub open spec fn values_of(m: spec_fn(Seq<(Seq<char>, Datum)>) -> Datum, items: Seq<Datum>) -> Seq<Datum> {
    items.map_values(|d: Datum| m(coerce_to_tuple(d)))
}

/// Represents an evaluation `SelectValue` operator; `SelectValue` implements PartiQL Core's
/// `SELECT VALUE` clause semantics.
pub struct EvalSelectValue {
    pub expr: Box<dyn EvalExpr>,
    pub input: Option<Value>,
}

impl EvalSelectValue {
    pub fn new(expr: Box<dyn EvalExpr>) -> (r: Self)
        ensures
            r == (EvalSelectValue { expr, input: None }),
    {
        EvalSelectValue { expr, input: None }
    }
}

impl Evaluable for EvalSelectValue {
    open spec fn held(&self) -> Option<Datum> {
        opt_view(self.input)
    }

    /// The expression's value for each element of the input seen as a tuple, in order: a
    /// list where the input is a list, else a bag.
    open spec fn sem(&self) -> spec_fn(Option<Datum>) -> Option<Datum> {
        let m = self.expr.meaning();
        |i: Option<Datum>| Some(collection(is_ordered(i->0), values_of(m, elements(i->0))))
    }

    open spec fn dom(&self) -> spec_fn(Option<Datum>) -> bool {
        |i: Option<Datum>| i is Some
    }

    open spec fn vars(&self) -> Option<Seq<Seq<char>>> {
        None
    }

    fn evaluate(&mut self, ctx: &dyn EvalContext) -> (r: Option<Value>)
        ensures
            final(self).input is None,
    {
        let ghost m = self.expr.meaning();
        let input_value = self.input.take().unwrap();
        let ordered = input_value.is_ordered();
        let items = input_value.into_elements();
        let ghost items_d = values_view(items@);
        proof {
            lemma_values_view(items@);
        }
        let mut out: Vec<Value> = Vec::new();
        let n = items.len();
        let mut i: usize = 0;
        while i < n
            invariant
                n == items@.len(),
                items_d.len() == n,
                forall|j: int| 0 <= j < n ==> #[trigger] items@[j]@ == items_d[j],
                self.input is None,
                self.expr.meaning() == m,
                i <= n,
                values_view(out@) == values_of(m, items_d.take(i as int)),
            decreases n - i,
        {
            let t = items[i].as_tuple_ref();
            let v = self.expr.evaluate(&t, ctx);
            let ghost before = out@;
            out.push(v);
            proof {
                lemma_values_view_push(before, v);
                assert(values_of(m, items_d.take(i + 1)) =~= values_of(
                    m,
                    items_d.take(i as int),
                ).push(v@));
            }
            i = i + 1;
        }
        proof {
            assert(items_d.take(n as int) =~= items_d);
        }
        Some(make_collection(ordered, out))
    }

    fn update_input(&mut self, input: Value, _branch_num: u8)
        ensures
            final(self).input == Some(input),
    {
        self.input = Some(input);
    }

    fn get_vars(&self) -> (r: Option<&[String]>) {
        None
    }
}

// ---------------------------------------------------------------------------
// SelectAll
// ---------------------------------------------------------------------------

/// The pairs of each of the values, seen as tuples, one after the other.
pub open spec fn flatten_pairs(vals: Seq<Datum>) -> Seq<(Seq<char>, Datum)>
    decreases vals.len(),
{
    if vals.len() == 0 {
        Seq::empty()
    } else {
        flatten_pairs(vals.drop_last()) + coerce_to_tuple(vals.last())
    }
}

/// `SELECT *` of one binding: the values of the binding seen as a tuple, each seen as a
/// tuple, merged into one tuple.
pub open spec fn select_all_row(d: Datum) -> Datum {
    Datum::Tuple(flatten_pairs(coerce_to_tuple(d).map_values(|p: (Seq<char>, Datum)| p.1)))
}

/// Represents an evaluation `ProjectAll` operator; `ProjectAll` implements SQL's `SELECT *`
/// semantics.
pub struct EvalSelectAll {
    pub input: Option<Value>,
}

impl EvalSelectAll {
    pub fn new() -> (r: Self)
        ensures
            r.input is None,
    {
        EvalSelectAll { input: None }
    }
}

/// The row of `SELECT *` for one binding.
fn select_all_tuple(val: &Value) -> (r: Tuple)
    ensures
        Datum::Tuple(r@) == select_all_row(val@),
{
    let values = val.as_tuple_ref().into_values();
    let ghost vals = values_view(values@);
    proof {
        lemma_values_view(values@);
    }
    let mut pairs: Vec<(String, Value)> = Vec::new();
    let n = values.len();
    let mut i: usize = 0;
    while i < n
        invariant
            n == values@.len(),
            vals == values_view(values@),
            vals.len() == n,
            forall|j: int| 0 <= j < n ==> #[trigger] vals[j] == values@[j]@,
            i <= n,
            crate::value::pairs_view(pairs@) == flatten_pairs(vals.take(i as int)),
        decreases n - i,
    {
        let t = values[i].as_tuple_ref();
        let ghost before = pairs@;
        let mut more = t.into_pairs();
        let ghost extra = more@;
        pairs.append(&mut more);
        proof {
            crate::value::lemma_pairs_view_concat(before, extra);
            assert(vals.take(i + 1).drop_last() =~= vals.take(i as int));
        }
        i = i + 1;
    }
    proof {
        assert(vals.take(n as int) =~= vals);
    }
    Tuple { pairs }
}

impl Evaluable for EvalSelectAll {
    open spec fn held(&self) -> Option<Datum> {
        opt_view(self.input)
    }

    /// The `SELECT *` row of each element of the input: a list where the input is a list,
    /// else a bag.
    open spec fn sem(&self) -> spec_fn(Option<Datum>) -> Option<Datum> {
        |i: Option<Datum>|
            Some(
                collection(
                    is_ordered(i->0),
                    elements(i->0).map_values(|d: Datum| select_all_row(d)),
                ),
            )
    }

    open spec fn dom(&self) -> spec_fn(Option<Datum>) -> bool {
        |i: Option<Datum>| i is Some
    }

    open spec fn vars(&self) -> Option<Seq<Seq<char>>> {
        None
    }

    fn evaluate(&mut self, _ctx: &dyn EvalContext) -> (r: Option<Value>)
        ensures
            final(self).input is None,
    {
        let input_value = self.input.take().unwrap();
        let ordered = input_value.is_ordered();
        let items = input_value.into_elements();
        let ghost items_d = values_view(items@);
        proof {
            lemma_values_view(items@);
        }
        let mut out: Vec<Value> = Vec::new();
        let n = items.len();
        let mut i: usize = 0;
        while i < n
            invariant
                n == items@.len(),
                items_d == values_view(items@),
                items_d.len() == n,
                forall|j: int| 0 <= j < n ==> #[trigger] items_d[j] == items@[j]@,
                i <= n,
                self.input is None,
                values_view(out@) == items_d.take(i as int).map_values(
                    |d: Datum| select_all_row(d),
                ),
            decreases n - i,
        {
            let row = select_all_tuple(&items[i]);
            let ghost before = out@;
            out.push(Value::Tuple(row));
            proof {
                lemma_values_view_push(before, Value::Tuple(row));
                assert(items_d.take(i + 1).map_values(|d: Datum| select_all_row(d))
                    =~= items_d.take(i as int).map_values(|d: Datum| select_all_row(d)).push(
                    select_all_row(items_d[i as int]),
                ));
            }
            i = i + 1;
        }
        proof {
            assert(items_d.take(n as int) =~= items_d);
        }
        Some(make_collection(ordered, out))
    }

    fn update_input(&mut self, input: Value, _branch_num: u8)
        ensures
            final(self).input == Some(input),
    {
        self.input = Some(input);
    }

    fn get_vars(&self) -> (r: Option<&[String]>) {
        None
    }
}

// ---------------------------------------------------------------------------
// Distinct
// ---------------------------------------------------------------------------

/// Each value the first time it occurs, in order.
pub open spec fn first_occurrences(items: Seq<Datum>) -> Seq<Datum> {
    keep(items, Seq::new(items.len(), |i: int| !items.take(i).contains(items[i])))
}

/// Calls `itertools::Itertools::unique` on the values and collects what it yields.
/// Claimed, as its documentation states: each value is kept the first time an equal value
/// occurs, in order. Values compare with the derived `==` of [`Value`], under which two
/// values are equal exactly when their models are.
#[verifier::external_body]
fn unique_values(items: Vec<Value>) -> (r: Vec<Value>)
    ensures
        values_view(r@) == first_occurrences(values_view(items@)),
{
    items.into_iter().unique().collect()
}

/// Represents an SQL `DISTINCT` operator, e.g. in `SELECT DISTINCT a FROM t`.
pub struct EvalDistinct {
    pub input: Option<Value>,
}

impl EvalDistinct {
    pub fn new() -> (r: Self)
        ensures
            r.input is None,
    {
        EvalDistinct { input: None }
    }
}

impl Evaluable for EvalDistinct {
    open spec fn held(&self) -> Option<Datum> {
        opt_view(self.input)
    }

    /// Each element of the input the first time it occurs: a list where the input is a
    /// list, else a bag.
    open spec fn sem(&self) -> spec_fn(Option<Datum>) -> Option<Datum> {
        |i: Option<Datum>| Some(collection(is_ordered(i->0), first_occurrences(elements(i->0))))
    }

    open spec fn dom(&self) -> spec_fn(Option<Datum>) -> bool {
        |i: Option<Datum>| i is Some
    }

    open spec fn vars(&self) -> Option<Seq<Seq<char>>> {
        None
    }

    fn evaluate(&mut self, _ctx: &dyn EvalContext) -> (r: Option<Value>)
        ensures
            final(self).input is None,
    {
        let input_value = self.input.take().unwrap();
        let ordered = input_value.is_ordered();
        let values = unique_values(input_value.into_elements());
        Some(make_collection(ordered, values))
    }

    fn update_input(&mut self, input: Value, _branch_num: u8)
        ensures
            final(self).input == Some(input),
    {
        self.input = Some(input);
    }

    fn get_vars(&self) -> (r: Option<&[String]>) {
        None
    }
}

// ---------------------------------------------------------------------------
// Pivot
// ---------------------------------------------------------------------------

/// What `Pivot` builds of the items: for each item, seen as a tuple, whose key (the value
/// of `km`) is a string, the pair of that string and the item's value (the value of `vm`),
/// in order.
pub open spec fn pivot_pairs(
    items: Seq<Datum>,
    km: spec_fn(Seq<(Seq<char>, Datum)>) -> Datum,
    vm: spec_fn(Seq<(Seq<char>, Datum)>) -> Datum,
) -> Seq<(Seq<char>, Datum)>
    decreases items.len(),
{
    if items.len() == 0 {
        Seq::empty()
    } else {
        let rest = pivot_pairs(items.drop_last(), km, vm);
        let b = coerce_to_tuple(items.last());
        match km(b) {
            Datum::Str(s) => rest.push((s, vm(b))),
            _ => rest,
        }
    }
}

/// The name a key gives to its pair: a string names it; with any other key the binding
/// makes no pair.
pub fn pivot_key(key: Value) -> (r: Option<String>)
    ensures
        match key@ {
            Datum::Str(s) => r matches Some(n) && n@ == s,
            _ => r is None,
        },
{
    match key {
        Value::String(s) => Some(s),
        _ => None,
    }
}

/// Represents an evaluation `Pivot` operator; the `Pivot` enables turning a collection into a
/// tuple.
pub struct EvalPivot {
    pub input: Option<Value>,
    pub key: Box<dyn EvalExpr>,
    pub value: Box<dyn EvalExpr>,
}

impl EvalPivot {
    pub fn new(key: Box<dyn EvalExpr>, value: Box<dyn EvalExpr>) -> (r: Self)
        ensures
            r == (EvalPivot { input: None, key, value }),
    {
        EvalPivot { input: None, key, value }
    }
}

impl Evaluable for EvalPivot {
    open spec fn held(&self) -> Option<Datum> {
        opt_view(self.input)
    }

    /// The tuple of the pairs [`pivot_pairs`] makes of the elements of the input.
    open spec fn sem(&self) -> spec_fn(Option<Datum>) -> Option<Datum> {
        let km = self.key.meaning();
        let vm = self.value.meaning();
        |i: Option<Datum>| Some(Datum::Tuple(pivot_pairs(elements(i->0), km, vm)))
    }

    open spec fn dom(&self) -> spec_fn(Option<Datum>) -> bool {
        |i: Option<Datum>| i is Some
    }

    open spec fn vars(&self) -> Option<Seq<Seq<char>>> {
        None
    }

    /// The value expression is evaluated only for the bindings whose key is a string.
    fn evaluate(&mut self, ctx: &dyn EvalContext) -> (r: Option<Value>)
        ensures
            final(self).input is None,
    {
        let ghost km = self.key.meaning();
        let ghost vm = self.value.meaning();
        let input_value = self.input.take().unwrap();
        let items = input_value.into_elements();
        let ghost items_d = values_view(items@);
        proof {
            lemma_values_view(items@);
        }
        let mut pairs: Vec<(String, Value)> = Vec::new();
        let n = items.len();
        let mut i: usize = 0;
        while i < n
            invariant
                n == items@.len(),
                items_d.len() == n,
                forall|j: int| 0 <= j < n ==> #[trigger] items@[j]@ == items_d[j],
                self.input is None,
                self.key.meaning() == km,
                self.value.meaning() == vm,
                i <= n,
                crate::value::pairs_view(pairs@) == pivot_pairs(items_d.take(i as int), km, vm),
            decreases n - i,
        {
            let binding = items[i].as_tuple_ref();
            let key = self.key.evaluate(&binding, ctx);
            let ghost before = pairs@;
            proof {
                assert(items_d.take(i + 1).drop_last() =~= items_d.take(i as int));
                assert(items_d.take(i + 1).last() == items_d[i as int]);
            }
            match pivot_key(key) {
                Some(s) => {
                    let value = self.value.evaluate(&binding, ctx);
                    pairs.push((s, value));
                    proof {
                        crate::value::lemma_pairs_view_push(before, (s, value));
                    }
                },
                None => {},
            }
            i = i + 1;
        }
        proof {
            assert(items_d.take(n as int) =~= items_d);
        }
        let t = Tuple { pairs };
        proof {
            assert(Value::Tuple(t)@ == Datum::Tuple(t@));
        }
        Some(Value::Tuple(t))
    }

    fn update_input(&mut self, input: Value, _branch_num: u8)
        ensures
            final(self).input == Some(input),
    {
        self.input = Some(input);
    }

    fn get_vars(&self) -> (r: Option<&[String]>) {
        None
    }
}

// ---------------------------------------------------------------------------
// Unpivot
// ---------------------------------------------------------------------------

/// The model of an optional attribute name.
pub open spec fn opt_name(o: Option<String>) -> Option<Seq<char>> {
    match o {
        Some(s) => Some(s@),
        None => None,
    }
}

/// The names of the attributes a key and an optional second key bind.
pub open spec fn key_vars(as_key: Seq<char>, at_key: Option<Seq<char>>) -> Seq<Seq<char>> {
    match at_key {
        Some(k) => seq![as_key, k],
        None => seq![as_key],
    }
}

/// The binding `Unpivot` makes of one attribute/value pair: `{as_key: value}`, with
/// `at_key: name` after it where there is an `at_key`.
pub open spec fn unpivot_row(as_key: Seq<char>, at_key: Option<Seq<char>>, p: (Seq<char>, Datum)) -> Datum {
    match at_key {
        Some(k) => Datum::Tuple(seq![(as_key, p.1), (k, Datum::Str(p.0))]),
        None => Datum::Tuple(seq![(as_key, p.1)]),
    }
}

/// What `Unpivot` returns for the value of its expression: a bag of one binding per pair
/// of that value seen as a tuple.
pub open spec fn unpivot_output(as_key: Seq<char>, at_key: Option<Seq<char>>, v: Datum) -> Datum {
    Datum::Bag(
        coerce_to_tuple(v).map_values(
            |p: (Seq<char>, Datum)| unpivot_row(as_key, at_key, p),
        ),
    )
}

/// The binding for one pair.
fn key_row(as_key: &str, at_key: &Option<String>, name: &String, v: &Value) -> (r: Value)
    ensures
        r@ == unpivot_row(as_key@, opt_name(*at_key), (name@, v@)),
{
    let mut t = Tuple::singleton(as_key, v.clone());
    match at_key {
        Some(k) => {
            let n = Value::String(name.clone());
            assert(n@ == Datum::Str(name@));
            t.insert(k.as_str(), n);
            assert(t@ =~= seq![(as_key@, v@), (k@, Datum::Str(name@))]);
        },
        None => {},
    }
    proof {
        assert(Value::Tuple(t)@ == Datum::Tuple(t@));
    }
    Value::Tuple(t)
}

/// The bag of bindings `Unpivot` makes of the value `v` of its expression (see
/// [`unpivot_output`]).
pub fn unpivot_value(as_key: &str, at_key: &Option<String>, v: Value) -> (r: Value)
    ensures
        r@ == unpivot_output(as_key@, opt_name(*at_key), v@),
{
    let ghost vd = v@;
    let pairs = v.coerce_to_tuple().into_pairs();
    let ghost pd = crate::value::pairs_view(pairs@);
    proof {
        lemma_pairs_view(pairs@);
    }
    let mut out: Vec<Value> = Vec::new();
    let n = pairs.len();
    let mut i: usize = 0;
    while i < n
        invariant
            n == pairs@.len(),
            pd == crate::value::pairs_view(pairs@),
            pd == coerce_to_tuple(vd),
            pd.len() == n,
            forall|j: int| 0 <= j < n ==> #[trigger] pd[j] == (pairs@[j].0@, pairs@[j].1@),
            i <= n,
            values_view(out@) == pd.take(i as int).map_values(
                |p: (Seq<char>, Datum)| unpivot_row(as_key@, opt_name(*at_key), p),
            ),
        decreases n - i,
    {
        let row = key_row(as_key, at_key, &pairs[i].0, &pairs[i].1);
        let ghost before = out@;
        out.push(row);
        proof {
            lemma_values_view_push(before, row);
            assert(pd.take(i + 1).map_values(
                |p: (Seq<char>, Datum)| unpivot_row(as_key@, opt_name(*at_key), p),
            ) =~= pd.take(i as int).map_values(
                |p: (Seq<char>, Datum)| unpivot_row(as_key@, opt_name(*at_key), p),
            ).push(unpivot_row(as_key@, opt_name(*at_key), pd[i as int])));
        }
        i = i + 1;
    }
    proof {
        assert(pd.take(n as int) =~= pd);
    }
    Value::Bag(out)
}

/// Represents an evaluation `Unpivot` operator; the `Unpivot` enables ranging over the
/// attribute-value pairs of a tuple.
pub struct EvalUnpivot {
    pub expr: Box<dyn EvalExpr>,
    pub as_key: String,
    pub at_key: Option<String>,
    pub input: Option<Value>,
    /// The attributes the operator's bindings bind (cached when it is made).
    pub attrs: Vec<String>,
}

impl EvalUnpivot {
    pub fn new(expr: Box<dyn EvalExpr>, as_key: &str, at_key: Option<String>) -> (r: Self)
        ensures
            r == (EvalUnpivot { expr, as_key: r.as_key, at_key, input: None, attrs: r.attrs }),
            r.as_key@ == as_key@,
            r.input is None,
            r.vars() == Some(key_vars(as_key@, opt_name(at_key))),
    {
        let mut attrs: Vec<String> = Vec::new();
        attrs.push(as_key.to_string());
        match &at_key {
            Some(k) => attrs.push(k.clone()),
            None => {},
        }
        proof {
            assert(strings_view(attrs@) =~= key_vars(as_key@, opt_name(at_key)));
        }
        EvalUnpivot { expr, as_key: as_key.to_string(), at_key, input: None, attrs }
    }
}

impl Evaluable for EvalUnpivot {
    open spec fn held(&self) -> Option<Datum> {
        opt_view(self.input)
    }

    /// The bindings of the pairs of the expression's value against the empty tuple; the
    /// input is not read.
    open spec fn sem(&self) -> spec_fn(Option<Datum>) -> Option<Datum> {
        let m = self.expr.meaning();
        let as_key = self.as_key@;
        let at_key = opt_name(self.at_key);
        |i: Option<Datum>| Some(unpivot_output(as_key, at_key, m(Seq::empty())))
    }

    open spec fn dom(&self) -> spec_fn(Option<Datum>) -> bool {
        |i: Option<Datum>| true
    }

    open spec fn vars(&self) -> Option<Seq<Seq<char>>> {
        Some(strings_view(self.attrs@))
    }

    fn evaluate(&mut self, ctx: &dyn EvalContext) -> (r: Option<Value>)
        ensures
            final(self).input == old(self).input,
    {
        let empty = Tuple::new();
        let value = self.expr.evaluate(&empty, ctx);
        Some(unpivot_value(self.as_key.as_str(), &self.at_key, value))
    }

    fn update_input(&mut self, input: Value, _branch_num: u8)
        ensures
            final(self).input == Some(input),
    {
        self.input = Some(input);
    }

    fn get_vars(&self) -> (r: Option<&[String]>) {
        Some(self.attrs.as_slice())
    }
}

// ---------------------------------------------------------------------------
// Scan
// ---------------------------------------------------------------------------

/// The sequences one after the other.
pub open spec fn flatten(ss: Seq<Seq<Datum>>) -> Seq<Datum>
    decreases ss.len(),
{
    if ss.len() == 0 {
        Seq::empty()
    } else {
        flatten(ss.drop_last()) + ss.last()
    }
}

pub proof fn lemma_flatten_push(ss: Seq<Seq<Datum>>, s: Seq<Datum>)
    ensures
        flatten(ss.push(s)) == flatten(ss) + s,
{
    assert(ss.push(s).drop_last() =~= ss);
}

/// The bindings `Scan` ranges over: the elements of a bag, a tuple alone, or else (no
/// input, or any other value) the empty tuple alone.
pub open spec fn scan_bindings(input: Option<Datum>) -> Seq<Datum> {
    match input {
        Some(Datum::Bag(s)) => s,
        Some(Datum::Tuple(p)) => seq![Datum::Tuple(p)],
        _ => seq![Datum::Tuple(Seq::empty())],
    }
}

/// The position of an element where the collection is ordered, else `MISSING`.
pub open spec fn at_value(ordered: bool, j: int) -> Datum {
    if ordered {
        Datum::Integer((j as i64) as int)
    } else {
        Datum::Missing
    }
}

/// The binding `Scan` makes of the `j`-th element `t` of a value: `{as_key: t}`, with
/// `at_key: position` after it where there is an `at_key`.
pub open spec fn scan_row(as_key: Seq<char>, at_key: Option<Seq<char>>, ordered: bool, j: int, t: Datum) -> Datum {
    match at_key {
        Some(k) => Datum::Tuple(seq![(as_key, t), (k, at_value(ordered, j))]),
        None => Datum::Tuple(seq![(as_key, t)]),
    }
}

/// The bindings `Scan` makes of the value its expression gives for one binding.
pub open spec fn scan_rows(as_key: Seq<char>, at_key: Option<Seq<char>>, v: Datum) -> Seq<Datum> {
    Seq::new(
        elements(v).len(),
        |j: int| scan_row(as_key, at_key, is_ordered(v), j, elements(v)[j]),
    )
}

/// What `Scan` returns: for each binding, in order, the bindings it makes of the value
/// that its expression `m` gives for that binding seen as a tuple.
pub open spec fn scan_output(
    as_key: Seq<char>,
    at_key: Option<Seq<char>>,
    m: spec_fn(Seq<(Seq<char>, Datum)>) -> Datum,
    bindings: Seq<Datum>,
) -> Datum {
    Datum::Bag(
        flatten(bindings.map_values(|b: Datum| scan_rows(as_key, at_key, m(coerce_to_tuple(b))))),
    )
}

/// Appends the bindings `Scan` makes of the value `v` of its expression.
pub fn scan_emit(as_key: &str, at_key: &Option<String>, v: Value, out: &mut Vec<Value>)
    ensures
        values_view(final(out)@) == values_view(old(out)@) + scan_rows(as_key@, opt_name(*at_key), v@),
{
    let ghost vd = v@;
    let ordered = v.is_ordered();
    let items = v.into_elements();
    let ghost items_d = values_view(items@);
    proof {
        lemma_values_view(items@);
    }
    let ghost start = values_view(out@);
    let n = items.len();
    let mut j: usize = 0;
    while j < n
        invariant
            n == items@.len(),
            items_d == values_view(items@),
            items_d == elements(vd),
            ordered == is_ordered(vd),
            items_d.len() == n,
            forall|k: int| 0 <= k < n ==> #[trigger] items_d[k] == items@[k]@,
            j <= n,
            values_view(out@) == start + scan_rows(as_key@, opt_name(*at_key), vd).take(j as int),
        decreases n - j,
    {
        let mut t = Tuple::singleton(as_key, items[j].clone());
        match at_key {
            Some(k) => {
                let at_id = if ordered {
                    Value::Integer(j as i64)
                } else {
                    Value::Missing
                };
                t.insert(k.as_str(), at_id);
            },
            None => {},
        }
        let ghost before = out@;
        let row = Value::Tuple(t);
        assert(row@ == scan_row(as_key@, opt_name(*at_key), ordered, j as int, items_d[j as int]))
            by {
            assert(row@ == Datum::Tuple(t@));
            match at_key {
                Some(k) => {
                    assert(t@ =~= seq![
                        (as_key@, items_d[j as int]),
                        (k@, at_value(ordered, j as int)),
                    ]);
                },
                None => {},
            }
        }
        out.push(row);
        proof {
            lemma_values_view_push(before, row);
            assert(scan_rows(as_key@, opt_name(*at_key), vd).take(j + 1) =~= scan_rows(
                as_key@,
                opt_name(*at_key),
                vd,
            ).take(j as int).push(row@));
        }
        j = j + 1;
    }
    proof {
        assert(scan_rows(as_key@, opt_name(*at_key), vd).take(n as int) =~= scan_rows(
            as_key@,
            opt_name(*at_key),
            vd,
        ));
    }
}

/// The bindings a scan ranges over, made of its input (see [`scan_bindings`]).
pub fn scan_input_bindings(input: Option<Value>) -> (r: Vec<Value>)
    ensures
        values_view(r@) == scan_bindings(opt_view(input)),
{
    let input_value = input.unwrap_or(Value::Missing);
    let ghost in_d = input_value@;
    let mut bindings: Vec<Value> = Vec::new();
    match input_value {
        Value::Bag(t) => {
            bindings = t;
        },
        Value::Tuple(t) => {
            bindings.push(Value::Tuple(t));
        },
        _ => {
            bindings.push(Value::Tuple(Tuple::new()));
        },
    }
    proof {
        lemma_values_view(bindings@);
        assert(values_view(Seq::<Value>::empty()) =~= Seq::<Datum>::empty());
        assert(values_view(bindings@) =~= scan_bindings(opt_view(input)));
    }
    bindings
}

/// Represents an evaluation `Scan` operator; `Scan` operator scans the given bindings from its
/// input and and the environment and outputs a bag of binding tuples for tuples/values matching the
/// scan `expr`, e.g. an SQL expression `table1` in SQL expression `FROM table1`.
pub struct EvalScan {
    pub expr: Box<dyn EvalExpr>,
    pub as_key: String,
    pub at_key: Option<String>,
    pub input: Option<Value>,
    /// The attributes the operator's bindings bind (cached when it is made).
    pub attrs: Vec<String>,
}

impl EvalScan {
    pub fn new(expr: Box<dyn EvalExpr>, as_key: &str) -> (r: Self)
        ensures
            r == (EvalScan { expr, as_key: r.as_key, at_key: None, input: None, attrs: r.attrs }),
            r.as_key@ == as_key@,
            r.input is None,
            r.vars() == Some(seq![as_key@]),
    {
        let mut attrs: Vec<String> = Vec::new();
        attrs.push(as_key.to_string());
        proof {
            assert(strings_view(attrs@) =~= seq![as_key@]);
        }
        EvalScan { expr, as_key: as_key.to_string(), at_key: None, input: None, attrs }
    }

    pub fn new_with_at_key(expr: Box<dyn EvalExpr>, as_key: &str, at_key: &str) -> (r: Self)
        ensures
            r == (EvalScan {
                expr,
                as_key: r.as_key,
                at_key: r.at_key,
                input: None,
                attrs: r.attrs,
            }),
            r.as_key@ == as_key@,
            opt_name(r.at_key) == Some(at_key@),
            r.input is None,
            r.vars() == Some(seq![as_key@, at_key@]),
    {
        let mut attrs: Vec<String> = Vec::new();
        attrs.push(as_key.to_string());
        attrs.push(at_key.to_string());
        proof {
            assert(strings_view(attrs@) =~= seq![as_key@, at_key@]);
        }
        EvalScan {
            expr,
            as_key: as_key.to_string(),
            at_key: Some(at_key.to_string()),
            input: None,
            attrs,
        }
    }
}

impl Evaluable for EvalScan {
    open spec fn held(&self) -> Option<Datum> {
        opt_view(self.input)
    }

    /// See [`scan_output`], over the bindings of the input (see [`scan_bindings`]).
    open spec fn sem(&self) -> spec_fn(Option<Datum>) -> Option<Datum> {
        let m = self.expr.meaning();
        let as_key = self.as_key@;
        let at_key = opt_name(self.at_key);
        |i: Option<Datum>| Some(scan_output(as_key, at_key, m, scan_bindings(i)))
    }

    open spec fn dom(&self) -> spec_fn(Option<Datum>) -> bool {
        |i: Option<Datum>| true
    }

    open spec fn vars(&self) -> Option<Seq<Seq<char>>> {
        Some(strings_view(self.attrs@))
    }

    /// For each binding, evaluates the expression against the binding seen as a tuple and
    /// binds each element of the result.
    fn evaluate(&mut self, ctx: &dyn EvalContext) -> (r: Option<Value>)
        ensures
            final(self).input is None,
    {
        let ghost m = self.expr.meaning();
        let ghost ak = self.as_key@;
        let ghost at = opt_name(self.at_key);
        let bindings = scan_input_bindings(self.input.take());
        let ghost bs = values_view(bindings@);
        proof {
            lemma_values_view(bindings@);
        }
        let mut value: Vec<Value> = Vec::new();
        let n = bindings.len();
        let mut i: usize = 0;
        while i < n
            invariant
                n == bindings@.len(),
                self.input is None,
                self.expr.meaning() == m,
                self.attrs@ == old(self).attrs@,
                self.as_key@ == ak,
                opt_name(self.at_key) == at,
                bs.len() == n,
                forall|k: int| 0 <= k < n ==> #[trigger] bs[k] == bindings@[k]@,
                i <= n,
                values_view(value@) == flatten(
                    bs.take(i as int).map_values(
                        |b: Datum| scan_rows(ak, at, m(coerce_to_tuple(b))),
                    ),
                ),
            decreases n - i,
        {
            let binding_tuple = bindings[i].as_tuple_ref();
            let v = self.expr.evaluate(&binding_tuple, ctx);
            let ghost vd = v@;
            scan_emit(self.as_key.as_str(), &self.at_key, v, &mut value);
            proof {
                let f = |b: Datum| scan_rows(ak, at, m(coerce_to_tuple(b)));
                assert(bs.take(i + 1).map_values(f) =~= bs.take(i as int).map_values(f).push(
                    scan_rows(ak, at, vd),
                ));
                lemma_flatten_push(bs.take(i as int).map_values(f), scan_rows(ak, at, vd));
            }
            i = i + 1;
        }
        proof {
            assert(bs.take(n as int) =~= bs);
        }
        Some(Value::Bag(value))
    }

    fn update_input(&mut self, input: Value, _branch_num: u8)
        ensures
            final(self).input == Some(input),
    {
        self.input = Some(input);
    }

    fn get_vars(&self) -> (r: Option<&[String]>) {
        Some(self.attrs.as_slice())
    }
}

// ---------------------------------------------------------------------------
// Select
// ---------------------------------------------------------------------------

/// The projection of one binding: each alias with its expression's value, leaving out the
/// aliases whose value is `MISSING`.
pub open spec fn select_row(aliases: Seq<Seq<char>>, results: Seq<Datum>) -> Datum {
    Datum::Tuple(
        keep(
            Seq::new(aliases.len(), |k: int| (aliases[k], results[k])),
            results.map_values(|d: Datum| d !is Missing),
        ),
    )
}

/// The value of each expression (`ms`) for the bindings `b`.
pub open spec fn results_for(
    ms: Seq<spec_fn(Seq<(Seq<char>, Datum)>) -> Datum>,
    b: Seq<(Seq<char>, Datum)>,
) -> Seq<Datum> {
    ms.map_values(|m: spec_fn(Seq<(Seq<char>, Datum)>) -> Datum| m(b))
}

/// What `Select` returns: the projection of each element of the input seen as a tuple,
/// in order; a list where the input is a list, else a bag.
pub open spec fn select_output(
    aliases: Seq<Seq<char>>,
    ms: Seq<spec_fn(Seq<(Seq<char>, Datum)>) -> Datum>,
    input: Datum,
) -> Datum {
    collection(
        is_ordered(input),
        elements(input).map_values(
            |d: Datum| select_row(aliases, results_for(ms, coerce_to_tuple(d))),
        ),
    )
}

/// Adds the alias with its value to the projection, unless the value is `MISSING`.
pub fn select_insert(t: &mut Tuple, alias: &str, v: Value)
    ensures
        final(t)@ == if v@ is Missing {
            old(t)@
        } else {
            old(t)@.push((alias@, v@))
        },
{
    match v {
        Value::Missing => {},
        other => {
            t.insert(alias, other);
        },
    }
}

/// Represents an evaluation `Project` operator; for a given bag of input binding tuples as input
/// the `Project` selects attributes as specified by expressions in `exprs`.
pub struct EvalSelect {
    /// Each alias with the expression whose value it gets, in order; no alias occurs twice.
    pub exprs: Vec<(String, Box<dyn EvalExpr>)>,
    pub input: Option<Value>,
}

/// The aliases of a projection's expressions.
pub open spec fn aliases_of(exprs: Seq<(String, Box<dyn EvalExpr>)>) -> Seq<Seq<char>> {
    exprs.map_values(|e: (String, Box<dyn EvalExpr>)| e.0@)
}

impl EvalSelect {
    pub fn new(exprs: Vec<(String, Box<dyn EvalExpr>)>) -> (r: Self)
        requires
            aliases_of(exprs@).no_duplicates(),
        ensures
            r == (EvalSelect { exprs, input: None }),
            r.aliases().no_duplicates(),
    {
        EvalSelect { exprs, input: None }
    }

    /// The aliases of the projection.
    pub open spec fn aliases(&self) -> Seq<Seq<char>> {
        aliases_of(self.exprs@)
    }

    /// What the projection's expressions give.
    pub open spec fn meanings(&self) -> Seq<spec_fn(Seq<(Seq<char>, Datum)>) -> Datum> {
        self.exprs@.map_values(|e: (String, Box<dyn EvalExpr>)| e.1.meaning())
    }

    /// The projection of one binding.
    fn project(&mut self, bindings: &Tuple, ctx: &dyn EvalContext) -> (r: Tuple)
        ensures
            final(self).aliases() == old(self).aliases(),
            final(self).meanings() == old(self).meanings(),
            final(self).input == old(self).input,
            Datum::Tuple(r@) == select_row(
                old(self).aliases(),
                results_for(old(self).meanings(), bindings@),
            ),
    {
        let ghost aliases = self.aliases();
        let ghost ms = self.meanings();
        let ghost all = results_for(ms, bindings@);
        let mut t = Tuple::new();
        let m = self.exprs.len();
        let mut k: usize = 0;
        while k < m
            invariant
                m == self.exprs@.len(),
                aliases == self.aliases(),
                ms == self.meanings(),
                aliases == old(self).aliases(),
                ms == old(self).meanings(),
                all == results_for(ms, bindings@),
                self.input == old(self).input,
                aliases.len() == m,
                ms.len() == m,
                k <= m,
                Datum::Tuple(t@) == select_row(aliases.take(k as int), all.take(k as int)),
            decreases m - k,
        {
            let ghost before = self.exprs@;
            let evaluated_val = self.exprs[k].1.evaluate(bindings, ctx);
            let ghost vd = evaluated_val@;
            proof {
                assert(self.exprs@.len() == m);
                assert forall|j: int| 0 <= j < m implies #[trigger] self.exprs@[j].0@ == before[j].0@
                    && self.exprs@[j].1.meaning() == before[j].1.meaning() by {}
                assert(self.aliases() =~= aliases);
                assert(self.meanings() =~= ms);
                assert(vd == all[k as int]);
                let prev = all.take(k as int);
                let results = all.take(k + 1);
                assert(results =~= prev.push(vd));
                assert(aliases[k as int] == self.exprs@[k as int].0@);
                let items0 = Seq::new(k as nat, |j: int| (aliases.take(k as int)[j], prev[j]));
                let items1 = Seq::new(
                    (k + 1) as nat,
                    |j: int| (aliases.take(k + 1)[j], results[j]),
                );
                assert(items1 =~= items0.push((aliases[k as int], vd)));
                lemma_keep_push(
                    items0,
                    results.map_values(|d: Datum| d !is Missing),
                    (aliases[k as int], vd),
                );
                lemma_keep_prefix(
                    items0,
                    prev.map_values(|d: Datum| d !is Missing),
                    results.map_values(|d: Datum| d !is Missing),
                );
            }
            select_insert(&mut t, self.exprs[k].0.as_str(), evaluated_val);
            k = k + 1;
        }
        proof {
            assert(aliases.take(m as int) =~= aliases);
            assert(all.take(m as int) =~= all);
        }
        t
    }
}

impl Evaluable for EvalSelect {
    open spec fn held(&self) -> Option<Datum> {
        opt_view(self.input)
    }

    /// See [`select_output`].
    open spec fn sem(&self) -> spec_fn(Option<Datum>) -> Option<Datum> {
        let aliases = self.aliases();
        let ms = self.meanings();
        |i: Option<Datum>| Some(select_output(aliases, ms, i->0))
    }

    open spec fn dom(&self) -> spec_fn(Option<Datum>) -> bool {
        |i: Option<Datum>| i is Some
    }

    open spec fn vars(&self) -> Option<Seq<Seq<char>>> {
        None
    }

    fn evaluate(&mut self, ctx: &dyn EvalContext) -> (r: Option<Value>)
        ensures
            final(self).input is None,
    {
        let ghost aliases = self.aliases();
        let ghost ms = self.meanings();
        let input_value = self.input.take().unwrap();
        let ghost in_d = input_value@;
        let ordered = input_value.is_ordered();
        let items = input_value.into_elements();
        let ghost items_d = values_view(items@);
        proof {
            lemma_values_view(items@);
        }
        let mut out: Vec<Value> = Vec::new();
        let n = items.len();
        let mut i: usize = 0;
        while i < n
            invariant
                n == items@.len(),
                items_d.len() == n,
                items_d == elements(in_d),
                forall|j: int| 0 <= j < n ==> #[trigger] items@[j]@ == items_d[j],
                self.input is None,
                aliases == self.aliases(),
                ms == self.meanings(),
                i <= n,
                values_view(out@) == items_d.take(i as int).map_values(
                    |d: Datum| select_row(aliases, results_for(ms, coerce_to_tuple(d))),
                ),
            decreases n - i,
        {
            let binding = items[i].as_tuple_ref();
            let row = self.project(&binding, ctx);
            let ghost before = out@;
            let v = Value::Tuple(row);
            out.push(v);
            proof {
                lemma_values_view_push(before, v);
                let f = |d: Datum| select_row(aliases, results_for(ms, coerce_to_tuple(d)));
                assert(items_d.take(i + 1).map_values(f) =~= items_d.take(i as int).map_values(
                    f,
                ).push(f(items_d[i as int])));
            }
            i = i + 1;
        }
        proof {
            assert(items_d.take(n as int) =~= items_d);
        }
        Some(make_collection(ordered, out))
    }

    fn update_input(&mut self, input: Value, _branch_num: u8)
        ensures
            final(self).input == Some(input),
    {
        self.input = Some(input);
    }

    fn get_vars(&self) -> (r: Option<&[String]>) {
        None
    }
}

// ---------------------------------------------------------------------------
// Join
// ---------------------------------------------------------------------------

/// The kinds of join.
#[derive(Debug)]
pub enum EvalJoinKind {
    Inner,
    Left,
    Right,
    Full,
}

/// The bindings a right operand yields: the elements of a bag, or else the empty tuple alone.
pub open spec fn right_bindings_of(r: Option<Datum>) -> Seq<Datum> {
    match r {
        Some(Datum::Bag(s)) => s,
        _ => seq![Datum::Tuple(Seq::empty())],
    }
}

/// The right bindings of what the right operand yielded (see [`right_bindings_of`]).
pub fn right_bindings(rhs: Option<Value>) -> (r: Vec<Value>)
    ensures
        values_view(r@) == right_bindings_of(opt_view(rhs)),
{
    match rhs {
        Some(Value::Bag(t)) => t,
        _ => {
            let mut v: Vec<Value> = Vec::new();
            v.push(Value::Tuple(Tuple::new()));
            proof {
                lemma_values_view_push(Seq::empty(), v@[0]);
                assert(values_view(Seq::<Value>::empty()) =~= Seq::<Datum>::empty());
                assert(Seq::<Value>::empty().push(v@[0]) =~= v@);
            }
            v
        },
    }
}

/// What the join condition gives, where there is one.
pub open spec fn on_meaning(on: Option<Box<dyn EvalExpr>>) -> Option<
    spec_fn(Seq<(Seq<char>, Datum)>) -> Datum,
> {
    match on {
        Some(c) => Some(c.meaning()),
        None => None,
    }
}

/// Where there is a condition, its value for each pair of the left binding `bl` with a
/// right binding: it is evaluated against `env || bl || br`.
pub open spec fn cond_values(
    on: Option<spec_fn(Seq<(Seq<char>, Datum)>) -> Datum>,
    env: Seq<(Seq<char>, Datum)>,
    bl: Seq<(Seq<char>, Datum)>,
    rbs: Seq<Datum>,
) -> Option<Seq<Datum>> {
    match on {
        Some(c) => Some(rbs.map_values(|rb: Datum| c(env + (bl + coerce_to_tuple(rb))))),
        None => None,
    }
}

/// Which pairs a join keeps: all where there is no condition, else those whose condition
/// value is `true`.
pub open spec fn join_flags(n: nat, conds: Option<Seq<Datum>>) -> Seq<bool> {
    Seq::new(
        n,
        |j: int|
            match conds {
                Some(cs) => j < cs.len() && is_true(cs[j]),
                None => true,
            },
    )
}

/// The concatenations `bl || br` of a left binding with the right bindings that the join
/// keeps.
pub open spec fn join_matches(
    bl: Seq<(Seq<char>, Datum)>,
    rbs: Seq<Datum>,
    conds: Option<Seq<Datum>>,
) -> Seq<Datum> {
    keep(rbs.map_values(|rb: Datum| Datum::Tuple(bl + coerce_to_tuple(rb))), join_flags(rbs.len(), conds))
}

/// The tuple that binds each of the attributes to `NULL`.
pub open spec fn null_vals(vars: Seq<Seq<char>>) -> Seq<(Seq<char>, Datum)> {
    vars.map_values(|k: Seq<char>| (k, Datum::Null))
}

/// The bindings a join makes of one left binding `bl`: its matches; for a left join with
/// no match, `bl` with the right operand's attributes (`vars`) bound to `NULL`.
pub open spec fn join_rows(
    left_join: bool,
    bl: Seq<(Seq<char>, Datum)>,
    rbs: Seq<Datum>,
    conds: Option<Seq<Datum>>,
    vars: Seq<Seq<char>>,
) -> Seq<Datum> {
    let m = join_matches(bl, rbs, conds);
    if left_join && m.len() == 0 {
        seq![Datum::Tuple(bl + null_vals(vars))]
    } else {
        m
    }
}

/// The attributes reported, none where none are.
pub open spec fn vars_or_empty(vars: Option<Seq<Seq<char>>>) -> Seq<Seq<char>> {
    match vars {
        Some(v) => v,
        None => Seq::empty(),
    }
}

/// The bindings a join makes of the left binding `b_l`: the right operand (`rsem`) is
/// evaluated on `env || b_l`, and its bindings are paired with `b_l` (see [`join_rows`]).
pub open spec fn join_binding_rows(
    left_join: bool,
    on: Option<spec_fn(Seq<(Seq<char>, Datum)>) -> Datum>,
    rsem: spec_fn(Option<Datum>) -> Option<Datum>,
    vars: Option<Seq<Seq<char>>>,
    env: Seq<(Seq<char>, Datum)>,
    b_l: Datum,
) -> Seq<Datum> {
    let bl = coerce_to_tuple(b_l);
    let rbs = right_bindings_of(rsem(Some(Datum::Tuple(env + bl))));
    join_rows(left_join, bl, rbs, cond_values(on, env, bl, rbs), vars_or_empty(vars))
}

/// What a join returns: the bindings it makes of each left binding, in order, in a bag.
pub open spec fn join_output(
    left_join: bool,
    on: Option<spec_fn(Seq<(Seq<char>, Datum)>) -> Datum>,
    rsem: spec_fn(Option<Datum>) -> Option<Datum>,
    vars: Option<Seq<Seq<char>>>,
    env: Seq<(Seq<char>, Datum)>,
    lbs: Seq<Datum>,
) -> Datum {
    Datum::Bag(
        flatten(lbs.map_values(|b_l: Datum| join_binding_rows(left_join, on, rsem, vars, env, b_l))),
    )
}

/// The environment a join is evaluated in: its input, or the empty tuple where there is none.
pub open spec fn join_env(i: Option<Datum>) -> Datum {
    match i {
        Some(d) => d,
        None => Datum::Tuple(Seq::empty()),
    }
}

/// The bindings a left operand yielded: the elements of a bag, else none.
pub open spec fn left_bindings_of(o: Option<Datum>) -> Seq<Datum> {
    match o {
        Some(Datum::Bag(s)) => s,
        _ => Seq::empty(),
    }
}

/// Whether a join can be evaluated in the environment `p`: the inner and left joins are
/// implemented; the left operand (`ldom`, `lsem`) must take `p` and yield a bag of bindings,
/// and the right operand (`rdom`) take each input it is handed, `p || b_l`.
pub open spec fn join_accepts(
    kind_ok: bool,
    ldom: spec_fn(Option<Datum>) -> bool,
    lsem: spec_fn(Option<Datum>) -> Option<Datum>,
    rdom: spec_fn(Option<Datum>) -> bool,
    p: Datum,
) -> bool {
    let lbs = left_bindings_of(lsem(Some(p)));
    &&& kind_ok
    &&& ldom(Some(p))
    &&& lsem(Some(p)) matches Some(Datum::Bag(_))
    &&& forall|k: int|
        0 <= k < lbs.len() ==> rdom(
            Some(Datum::Tuple(coerce_to_tuple(p) + coerce_to_tuple(#[trigger] lbs[k]))),
        )
}

/// Creates a `Tuple` with attributes `attrs`, each with value `Null`
fn tuple_with_null_vals(attrs: &[String]) -> (r: Tuple)
    ensures
        r@ == null_vals(strings_view(attrs@)),
{
    let mut t = Tuple::new();
    let n = attrs.len();
    let mut i: usize = 0;
    while i < n
        invariant
            n == attrs@.len(),
            i <= n,
            t@ == null_vals(strings_view(attrs@.take(i as int))),
        decreases n - i,
    {
        t.insert(attrs[i].as_str(), Value::Null);
        proof {
            assert(attrs@.take(i + 1) =~= attrs@.take(i as int).push(attrs@[i as int]));
            assert(null_vals(strings_view(attrs@.take(i + 1))) =~= null_vals(
                strings_view(attrs@.take(i as int)),
            ).push((attrs@[i as int]@, Datum::Null)));
        }
        i = i + 1;
    }
    proof {
        assert(attrs@.take(n as int) =~= attrs@);
    }
    t
}

/// Appends the bindings a join makes of one left binding `b_l` (see [`join_rows`]), given
/// the right bindings, the condition's value for each pair where there is a condition, and
/// the right operand's attributes.
pub fn join_step(
    left_join: bool,
    b_l: &Tuple,
    rbs: &Vec<Value>,
    conds: &Option<Vec<Value>>,
    attrs: &[String],
    out: &mut Vec<Value>,
)
    ensures
        values_view(final(out)@) == values_view(old(out)@) + join_rows(
            left_join,
            b_l@,
            values_view(rbs@),
            opt_values(*conds),
            strings_view(attrs@),
        ),
{
    let ghost rd = values_view(rbs@);
    let ghost cv = opt_values(*conds);
    let ghost flags = join_flags(rd.len(), cv);
    proof {
        lemma_values_view(rbs@);
        match conds {
            Some(cs) => lemma_values_view(cs@),
            None => {},
        }
    }
    let mut rows: Vec<Value> = Vec::new();
    let n = rbs.len();
    let mut j: usize = 0;
    while j < n
        invariant
            n == rbs@.len(),
            rd == values_view(rbs@),
            rd.len() == n,
            forall|k: int| 0 <= k < n ==> #[trigger] rd[k] == rbs@[k]@,
            cv == opt_values(*conds),
            match conds {
                Some(cs) => values_view(cs@).len() == cs@.len() && forall|k: int|
                    0 <= k < cs@.len() ==> #[trigger] values_view(cs@)[k] == cs@[k]@,
                None => true,
            },
            flags == join_flags(rd.len(), cv),
            j <= n,
            values_view(rows@) == keep(
                rd.take(j as int).map_values(|rb: Datum| Datum::Tuple(b_l@ + coerce_to_tuple(rb))),
                flags,
            ),
        decreases n - j,
    {
        let b_l_b_r = b_l.tuple_concat(&rbs[j].as_tuple_ref());
        let keep_it = match conds {
            None => true,
            Some(cs) => j < cs.len() && match &cs[j] {
                Value::Boolean(b) => *b,
                _ => false,
            },
        };
        let ghost pair = Datum::Tuple(b_l_b_r@);
        let ghost items0 = rd.take(j as int).map_values(
            |rb: Datum| Datum::Tuple(b_l@ + coerce_to_tuple(rb)),
        );
        proof {
            assert(rd.take(j + 1).map_values(|rb: Datum| Datum::Tuple(b_l@ + coerce_to_tuple(rb)))
                =~= items0.push(pair));
            lemma_keep_push(items0, flags, pair);
            assert(flags[j as int] == keep_it);
        }
        if keep_it {
            let ghost before = rows@;
            let v = Value::Tuple(b_l_b_r);
            rows.push(v);
            proof {
                lemma_values_view_push(before, v);
            }
        }
        j = j + 1;
    }
    proof {
        assert(rd.take(n as int) =~= rd);
        lemma_values_view(rows@);
    }
    let ghost before = out@;
    if left_join && rows.len() == 0 {
        let v = Value::Tuple(b_l.tuple_concat(&tuple_with_null_vals(attrs)));
        out.push(v);
        proof {
            lemma_values_view_push(before, v);
        }
    } else {
        let ghost added = rows@;
        out.append(&mut rows);
        proof {
            lemma_values_view_concat(before, added);
        }
    }
}

/// Represents an evaluation `Join` operator; `Join` joins the tuples from its LHS and RHS based on a logic defined
/// by [`EvalJoinKind`].
pub struct EvalJoin {
    pub kind: EvalJoinKind,
    pub on: Option<Box<dyn EvalExpr>>,
    pub input: Option<Value>,
    pub left: Box<dyn Evaluable>,
    pub right: Box<dyn Evaluable>,
}

impl EvalJoin {
    pub fn new(
        kind: EvalJoinKind,
        left: Box<dyn Evaluable>,
        right: Box<dyn Evaluable>,
        on: Option<Box<dyn EvalExpr>>,
    ) -> (r: Self)
        ensures
            r == (EvalJoin { kind, on, input: None, left, right }),
    {
        EvalJoin { kind, on, input: None, left, right }
    }

    /// Where there is a condition, evaluates it for the pair of the left binding `bl` with
    /// each right binding, against `env || bl || br`.
    fn join_conditions(
        on: &mut Option<Box<dyn EvalExpr>>,
        ctx: &dyn EvalContext,
        env: &Tuple,
        bl: &Tuple,
        rbs: &Vec<Value>,
    ) -> (r: Option<Vec<Value>>)
        ensures
            on_meaning(*final(on)) == on_meaning(*old(on)),
            opt_values(r) == cond_values(on_meaning(*old(on)), env@, bl@, values_view(rbs@)),
    {
        if on.is_none() {
            return None;
        }
        let ghost c = on_meaning(*on)->0;
        let ghost rd = values_view(rbs@);
        proof {
            lemma_values_view(rbs@);
        }
        let mut conds: Vec<Value> = Vec::new();
        let n = rbs.len();
        let mut j: usize = 0;
        while j < n
            invariant
                n == rbs@.len(),
                rd == values_view(rbs@),
                rd.len() == n,
                forall|k: int| 0 <= k < n ==> #[trigger] rd[k] == rbs@[k]@,
                on_meaning(*on) == Some(c),
                j <= n,
                values_view(conds@) == rd.take(j as int).map_values(
                    |rb: Datum| c(env@ + (bl@ + coerce_to_tuple(rb))),
                ),
            decreases n - j,
        {
            let b_l_b_r = bl.tuple_concat(&rbs[j].as_tuple_ref());
            let env_b_l_b_r = env.tuple_concat(&b_l_b_r);
            match on {
                Some(condition) => {
                    let cond = condition.evaluate(&env_b_l_b_r, ctx);
                    let ghost before = conds@;
                    conds.push(cond);
                    proof {
                        lemma_values_view_push(before, cond);
                        assert(rd.take(j + 1).map_values(
                            |rb: Datum| c(env@ + (bl@ + coerce_to_tuple(rb))),
                        ) =~= rd.take(j as int).map_values(
                            |rb: Datum| c(env@ + (bl@ + coerce_to_tuple(rb))),
                        ).push(cond@));
                    }
                },
                None => {},
            }
            j = j + 1;
        }
        proof {
            assert(rd.take(n as int) =~= rd);
        }
        Some(conds)
    }
}

impl Evaluable for EvalJoin {
    open spec fn held(&self) -> Option<Datum> {
        opt_view(self.input)
    }

    /// The left operand is evaluated on the environment `p` (the input, or the empty tuple
    /// where there is none) and yields the left bindings; see [`join_output`].
    open spec fn sem(&self) -> spec_fn(Option<Datum>) -> Option<Datum> {
        let left_join = self.kind is Left;
        let on = on_meaning(self.on);
        let lsem = self.left.sem();
        let rsem = self.right.sem();
        let vars = self.right.vars();
        |i: Option<Datum>|
            match lsem(Some(join_env(i))) {
                Some(Datum::Bag(lbs)) => Some(
                    join_output(left_join, on, rsem, vars, coerce_to_tuple(join_env(i)), lbs),
                ),
                _ => None,
            }
    }

    /// See [`join_accepts`].
    open spec fn dom(&self) -> spec_fn(Option<Datum>) -> bool {
        let kind_ok = self.kind is Inner || self.kind is Left;
        let ldom = self.left.dom();
        let lsem = self.left.sem();
        let rdom = self.right.dom();
        |i: Option<Datum>| join_accepts(kind_ok, ldom, lsem, rdom, join_env(i))
    }

    open spec fn vars(&self) -> Option<Seq<Seq<char>>> {
        None
    }

    /// Evaluates the left operand against the input (the empty tuple where there is none),
    /// then, for each left binding, the right operand against the input concatenated with
    /// it, keeping the pairs for which the condition holds.
    fn evaluate(&mut self, ctx: &dyn EvalContext) -> (r: Option<Value>)
        ensures
            final(self).input is None,
    {
        let ghost left_join = self.kind is Left;
        let ghost on_m = on_meaning(self.on);
        let ghost lsem = self.left.sem();
        let ghost rsem = self.right.sem();
        let ghost rdom = self.right.dom();
        let ghost vars = self.right.vars();
        let is_left = match self.kind {
            EvalJoinKind::Left => true,
            _ => false,
        };
        let input_env = match self.input.take() {
            Some(v) => v,
            None => Value::Tuple(Tuple::new()),
        };
        let ghost p = input_env@;
        proof {
            assert(p == join_env(old(self).held()));
        }
        let env = input_env.as_tuple_ref();
        self.left.update_input(input_env, 0);
        let lhs_values = self.left.evaluate(ctx);
        let left_bindings = match lhs_values {
            Some(Value::Bag(t)) => t,
            _ => {
                // The left side of a FROM source results in a bag of bindings: `dom` asks it.
                assert(false);
                Vec::new()
            },
        };
        let ghost lbs = values_view(left_bindings@);
        proof {
            lemma_values_view(left_bindings@);
            assert(lsem(Some(p)) == Some(Datum::Bag(lbs)));
            assert((old(self).dom())(old(self).held()));
            assert(join_accepts(
                old(self).kind is Inner || old(self).kind is Left,
                old(self).left.dom(),
                lsem,
                rdom,
                p,
            ));
            assert(left_bindings_of(lsem(Some(p))) == lbs);
            assert(env@ == coerce_to_tuple(p));
            assert forall|k: int| 0 <= k < lbs.len() implies rdom(
                Some(Datum::Tuple(env@ + coerce_to_tuple(#[trigger] lbs[k]))),
            ) by {
                assert(rdom(Some(Datum::Tuple(coerce_to_tuple(p) + coerce_to_tuple(lbs[k])))));
            }
        }
        let mut output_bag: Vec<Value> = Vec::new();
        let n = left_bindings.len();
        let mut i: usize = 0;
        while i < n
            invariant
                n == left_bindings@.len(),
                lbs == values_view(left_bindings@),
                lbs.len() == n,
                forall|k: int| 0 <= k < n ==> #[trigger] lbs[k] == left_bindings@[k]@,
                forall|k: int|
                    0 <= k < n ==> rdom(
                        Some(Datum::Tuple(env@ + coerce_to_tuple(#[trigger] lbs[k]))),
                    ),
                env@ == coerce_to_tuple(p),
                left_join == is_left,
                self.kind == old(self).kind,
                on_meaning(self.on) == on_m,
                self.left.sem() == lsem,
                self.left.dom() == old(self).left.dom(),
                self.left.vars() == old(self).left.vars(),
                self.right.sem() == rsem,
                self.right.dom() == rdom,
                self.right.vars() == vars,
                self.input is None,
                i <= n,
                values_view(output_bag@) == flatten(
                    lbs.take(i as int).map_values(
                        |b_l: Datum| join_binding_rows(left_join, on_m, rsem, vars, env@, b_l),
                    ),
                ),
            decreases n - i,
        {
            let b_l = left_bindings[i].as_tuple_ref();
            let env_b_l = env.tuple_concat(&b_l);
            self.right.update_input(Value::Tuple(env_b_l), 0);
            assert(rdom(Some(Datum::Tuple(env@ + coerce_to_tuple(lbs[i as int])))));
            let rhs_values = self.right.evaluate(ctx);
            let right_bindings = right_bindings(rhs_values);
            let conds = Self::join_conditions(&mut self.on, ctx, &env, &b_l, &right_bindings);
            let attrs: &[String] = match self.right.get_vars() {
                Some(a) => a,
                None => &[],
            };
            proof {
                assert(strings_view(attrs@) =~= vars_or_empty(vars));
            }
            let ghost before = output_bag@;
            join_step(is_left, &b_l, &right_bindings, &conds, attrs, &mut output_bag);
            proof {
                let f = |b_l: Datum| join_binding_rows(left_join, on_m, rsem, vars, env@, b_l);
                assert(lbs.take(i + 1).map_values(f) =~= lbs.take(i as int).map_values(f).push(
                    f(lbs[i as int]),
                ));
                lemma_flatten_push(lbs.take(i as int).map_values(f), f(lbs[i as int]));
            }
            i = i + 1;
        }
        proof {
            assert(lbs.take(n as int) =~= lbs);
        }
        Some(Value::Bag(output_bag))
    }

    fn update_input(&mut self, input: Value, _branch_num: u8)
        ensures
            final(self).input == Some(input),
    {
        self.input = Some(input);
    }

    fn get_vars(&self) -> (r: Option<&[String]>) {
        None
    }
}

// ---------------------------------------------------------------------------
// Laws of the operators
// ---------------------------------------------------------------------------

pub proof fn lemma_keep_subset<A>(items: Seq<A>, flags: Seq<bool>)
    ensures
        keep(items, flags).len() <= items.len(),
        forall|x: A| keep(items, flags).contains(x) ==> items.contains(x),
    decreases items.len(),
{
    if items.len() > 0 {
        lemma_keep_subset(items.drop_last(), flags);
        assert forall|x: A| keep(items, flags).contains(x) implies items.contains(x) by {
            if keep(items.drop_last(), flags).contains(x) {
                assert(items.drop_last().contains(x));
                let k = choose|k: int| 0 <= k < items.drop_last().len() && items.drop_last()[k] == x;
                assert(items[k] == x);
            } else {
                assert(x == items.last());
                assert(items[items.len() - 1] == x);
            }
        }
    }
}

pub proof fn lemma_keep_all<A>(items: Seq<A>, flags: Seq<bool>)
    requires
        forall|i: int| 0 <= i < items.len() ==> flags[i],
    ensures
        keep(items, flags) == items,
    decreases items.len(),
{
    if items.len() > 0 {
        lemma_keep_all(items.drop_last(), flags);
        assert(items.drop_last().push(items.last()) =~= items);
    }
}

pub proof fn lemma_keep_none<A>(items: Seq<A>, flags: Seq<bool>)
    requires
        forall|i: int| 0 <= i < items.len() ==> !flags[i],
    ensures
        keep(items, flags).len() == 0,
    decreases items.len(),
{
    if items.len() > 0 {
        lemma_keep_none(items.drop_last(), flags);
    }
}

/// `Filter` keeps a part of its input, in order: every binding it returns is an element of
/// the input seen as a tuple; it keeps them all where the condition holds of all, and none
/// where it holds of none.
pub proof fn law_filter_keeps_part_of_input(
    input: Datum,
    m: spec_fn(Seq<(Seq<char>, Datum)>) -> Datum,
)
    ensures
        filter_output(input, m) matches Datum::Bag(out) && out.len() <= elements(input).len()
            && (forall|x: Datum| out.contains(x) ==> as_tuples(elements(input)).contains(x)),
        (forall|i: int|
            0 <= i < elements(input).len() ==> is_true(m(coerce_to_tuple(#[trigger] elements(input)[i]))))
            ==> filter_output(input, m) == Datum::Bag(as_tuples(elements(input))),
        (forall|i: int|
            0 <= i < elements(input).len() ==> !is_true(m(coerce_to_tuple(#[trigger] elements(input)[i]))))
            ==> filter_output(input, m) == Datum::Bag(Seq::empty()),
{
    let items = as_tuples(elements(input));
    let flags = cond_flags(m, elements(input));
    lemma_keep_subset(items, flags);
    if forall|i: int|
        0 <= i < elements(input).len() ==> is_true(m(coerce_to_tuple(#[trigger] elements(input)[i]))) {
        assert forall|i: int| 0 <= i < items.len() implies flags[i] by {
            assert(is_true(m(coerce_to_tuple(elements(input)[i]))));
        }
        lemma_keep_all(items, flags);
    }
    if forall|i: int|
        0 <= i < elements(input).len() ==> !is_true(m(coerce_to_tuple(#[trigger] elements(input)[i]))) {
        assert forall|i: int| 0 <= i < items.len() implies !flags[i] by {
            assert(!is_true(m(coerce_to_tuple(elements(input)[i]))));
        }
        lemma_keep_none(items, flags);
        assert(keep(items, flags) =~= Seq::<Datum>::empty());
    }
}

/// The number of items in the sequences together.
pub open spec fn total_len(ss: Seq<Seq<Datum>>) -> int
    decreases ss.len(),
{
    if ss.len() == 0 {
        0
    } else {
        total_len(ss.drop_last()) + ss.last().len()
    }
}

pub proof fn lemma_flatten_len(ss: Seq<Seq<Datum>>)
    ensures
        flatten(ss).len() == total_len(ss),
    decreases ss.len(),
{
    if ss.len() > 0 {
        lemma_flatten_len(ss.drop_last());
    }
}

/// `Scan` makes one binding per element of each value its expression gives, and the
/// binding of the `j`-th element `t` of a value binds `as_key` to `t` first.
pub proof fn law_scan_binds_each_element(
    as_key: Seq<char>,
    at_key: Option<Seq<char>>,
    m: spec_fn(Seq<(Seq<char>, Datum)>) -> Datum,
    bindings: Seq<Datum>,
    v: Datum,
    j: int,
)
    requires
        0 <= j < elements(v).len(),
    ensures
        scan_output(as_key, at_key, m, bindings) matches Datum::Bag(out) && out.len() == total_len(
            bindings.map_values(|b: Datum| scan_rows(as_key, at_key, m(coerce_to_tuple(b)))),
        ),
        scan_rows(as_key, at_key, v).len() == elements(v).len(),
        scan_rows(as_key, at_key, v)[j] matches Datum::Tuple(p) && p[0] == (as_key, elements(v)[j]),
{
    lemma_flatten_len(
        bindings.map_values(|b: Datum| scan_rows(as_key, at_key, m(coerce_to_tuple(b)))),
    );
}

/// A left join keeps every left binding: each yields at least one binding, exactly the
/// bindings of the inner join where those are not empty. So a left join returns at least
/// as many bindings as the left side has.
pub proof fn law_left_join_keeps_left_bindings(
    on: Option<spec_fn(Seq<(Seq<char>, Datum)>) -> Datum>,
    rsem: spec_fn(Option<Datum>) -> Option<Datum>,
    vars: Option<Seq<Seq<char>>>,
    env: Seq<(Seq<char>, Datum)>,
    lbs: Seq<Datum>,
)
    ensures
        forall|b_l: Datum| #[trigger] join_binding_rows(true, on, rsem, vars, env, b_l).len() >= 1,
        forall|b_l: Datum|
            join_binding_rows(false, on, rsem, vars, env, b_l).len() > 0
                ==> #[trigger] join_binding_rows(true, on, rsem, vars, env, b_l)
                == join_binding_rows(false, on, rsem, vars, env, b_l),
        join_output(true, on, rsem, vars, env, lbs) matches Datum::Bag(out) && out.len() >= lbs.len(),
{
    let rows = lbs.map_values(|b_l: Datum| join_binding_rows(true, on, rsem, vars, env, b_l));
    lemma_flatten_len(rows);
    lemma_total_len_at_least(rows);
}

proof fn lemma_total_len_at_least(ss: Seq<Seq<Datum>>)
    requires
        forall|i: int| 0 <= i < ss.len() ==> (#[trigger] ss[i]).len() >= 1,
    ensures
        total_len(ss) >= ss.len(),
    decreases ss.len(),
{
    if ss.len() > 0 {
        lemma_total_len_at_least(ss.drop_last());
    }
}

/// The flags of `first_occurrences` for a prefix are those of the whole sequence.
proof fn lemma_first_occurrences_push(s: Seq<Datum>, x: Datum)
    ensures
        first_occurrences(s.push(x)) == if s.contains(x) {
            first_occurrences(s)
        } else {
            first_occurrences(s).push(x)
        },
{
    let t = s.push(x);
    let ft = Seq::new(t.len(), |i: int| !t.take(i).contains(t[i]));
    let fs = Seq::new(s.len(), |i: int| !s.take(i).contains(s[i]));
    assert forall|i: int| 0 <= i < s.len() implies fs[i] == ft[i] by {
        assert(t.take(i) =~= s.take(i));
    }
    lemma_keep_prefix(s, fs, ft);
    lemma_keep_push(s, ft, x);
    assert(t.take(s.len() as int) =~= s);
}

/// `Distinct` keeps each value once: what it returns has no two equal values, holds every
/// value of its input, and is returned unchanged by a second `Distinct`.
pub proof fn law_distinct(s: Seq<Datum>)
    ensures
        first_occurrences(s).no_duplicates(),
        forall|x: Datum| s.contains(x) <==> first_occurrences(s).contains(x),
        first_occurrences(first_occurrences(s)) == first_occurrences(s),
    decreases s.len(),
{
    lemma_distinct_parts(s);
    let d = first_occurrences(s);
    let fd = Seq::new(d.len(), |i: int| !d.take(i).contains(d[i]));
    assert forall|i: int| 0 <= i < d.len() implies fd[i] by {
        if d.take(i).contains(d[i]) {
            let k = choose|k: int| 0 <= k < i && d.take(i)[k] == d[i];
            assert(d[k] == d[i]);
        }
    }
    lemma_keep_all(d, fd);
}

proof fn lemma_distinct_parts(s: Seq<Datum>)
    ensures
        first_occurrences(s).no_duplicates(),
        forall|x: Datum| s.contains(x) <==> first_occurrences(s).contains(x),
    decreases s.len(),
{
    if s.len() == 0 {
        assert(first_occurrences(s) =~= Seq::<Datum>::empty());
    } else {
        let r = s.drop_last();
        let x = s.last();
        lemma_distinct_parts(r);
        lemma_first_occurrences_push(r, x);
        assert(r.push(x) =~= s);
        let fr = first_occurrences(r);
        let fs = first_occurrences(s);
        assert(fs == if r.contains(x) { fr } else { fr.push(x) });
        assert forall|y: Datum| fr.contains(y) implies fs.contains(y) by {
            let k = choose|k: int| 0 <= k < fr.len() && fr[k] == y;
            if !r.contains(x) {
                assert(fs[k] == y);
            }
        }
        assert(fs.contains(x)) by {
            if r.contains(x) {
                assert(fr.contains(x));
            } else {
                assert(fs[fs.len() - 1] == x);
            }
        }
        assert forall|y: Datum| s.contains(y) implies fs.contains(y) by {
            let k = choose|k: int| 0 <= k < s.len() && s[k] == y;
            if k < r.len() {
                assert(r[k] == y);
                assert(r.contains(y));
                assert(fr.contains(y));
            } else {
                assert(y == x);
            }
        }
        assert forall|y: Datum| fs.contains(y) implies s.contains(y) by {
            let k = choose|k: int| 0 <= k < fs.len() && fs[k] == y;
            if k < fr.len() {
                assert(fr[k] == y);
                assert(fr.contains(y));
                assert(r.contains(y));
                let m = choose|m: int| 0 <= m < r.len() && r[m] == y;
                assert(s[m] == y);
            } else {
                assert(y == x);
                assert(s[s.len() - 1] == x);
            }
        }
    }
}

/// `Pivot` makes at most one pair of each binding, and exactly one of each where every key
/// is a string; each pair's name is the string some binding's key gave.
pub proof fn law_pivot_pairs_from_string_keys(
    items: Seq<Datum>,
    km: spec_fn(Seq<(Seq<char>, Datum)>) -> Datum,
    vm: spec_fn(Seq<(Seq<char>, Datum)>) -> Datum,
)
    ensures
        pivot_pairs(items, km, vm).len() <= items.len(),
        (forall|i: int| 0 <= i < items.len() ==> km(coerce_to_tuple(#[trigger] items[i])) is Str)
            ==> pivot_pairs(items, km, vm).len() == items.len(),
        forall|k: int|
            0 <= k < pivot_pairs(items, km, vm).len() ==> exists|i: int|
                0 <= i < items.len() && km(coerce_to_tuple(#[trigger] items[i])) == Datum::Str(
                    (#[trigger] pivot_pairs(items, km, vm)[k]).0,
                ),
    decreases items.len(),
{
    if items.len() > 0 {
        let rest = items.drop_last();
        law_pivot_pairs_from_string_keys(rest, km, vm);
        let pr = pivot_pairs(rest, km, vm);
        let p = pivot_pairs(items, km, vm);
        if forall|i: int| 0 <= i < items.len() ==> km(coerce_to_tuple(#[trigger] items[i])) is Str {
            assert forall|i: int| 0 <= i < rest.len() implies km(
                coerce_to_tuple(#[trigger] rest[i]),
            ) is Str by {
                assert(km(coerce_to_tuple(items[i])) is Str);
            }
            assert(km(coerce_to_tuple(items[items.len() - 1])) is Str);
        }
        assert forall|k: int| 0 <= k < p.len() implies exists|i: int|
            0 <= i < items.len() && km(coerce_to_tuple(#[trigger] items[i])) == Datum::Str(
                (#[trigger] p[k]).0,
            ) by {
            if k < pr.len() {
                assert(p[k] == pr[k]);
                let i = choose|i: int|
                    0 <= i < rest.len() && km(coerce_to_tuple(#[trigger] rest[i])) == Datum::Str(
                        pr[k].0,
                    );
                assert(items[i] == rest[i]);
            } else {
                assert(km(coerce_to_tuple(items[items.len() - 1])) == Datum::Str(p[k].0));
            }
        }
    }
}

// ---------------------------------------------------------------------------
// Laws over what the operators yield, stated with vstd's sequence operations
// ---------------------------------------------------------------------------

/// Keeping the items whose flag is set, where each flag is a predicate of its item, is
/// filtering by that predicate.
proof fn lemma_keep_map_filter<A, B>(
    items: Seq<A>,
    f: spec_fn(A) -> B,
    p: spec_fn(A) -> bool,
    flags: Seq<bool>,
)
    requires
        forall|j: int| 0 <= j < items.len() ==> flags[j] == p(#[trigger] items[j]),
    ensures
        keep(items.map_values(f), flags) == items.filter(p).map_values(f),
    decreases items.len(),
{
    reveal(Seq::filter);
    if items.len() == 0 {
        assert(items.map_values(f) =~= Seq::<B>::empty());
        assert(items.filter(p).map_values(f) =~= Seq::<B>::empty());
    } else {
        let r = items.drop_last();
        let x = items.last();
        assert forall|j: int| 0 <= j < r.len() implies flags[j] == p(#[trigger] r[j]) by {
            assert(r[j] == items[j]);
        }
        lemma_keep_map_filter(r, f, p, flags);
        assert(items.map_values(f).drop_last() =~= r.map_values(f));
        assert(items.map_values(f).last() == f(x));
        assert(flags[items.len() - 1] == p(x));
        assert(r.filter(p).push(x).map_values(f) =~= r.filter(p).map_values(f).push(f(x)));
    }
}

/// Filtering by a predicate that holds of every item keeps them all.
proof fn lemma_filter_all<A>(s: Seq<A>, p: spec_fn(A) -> bool)
    requires
        forall|j: int| 0 <= j < s.len() ==> p(#[trigger] s[j]),
    ensures
        s.filter(p) == s,
    decreases s.len(),
{
    reveal(Seq::filter);
    if s.len() > 0 {
        assert forall|j: int| 0 <= j < s.drop_last().len() implies p(#[trigger] s.drop_last()[j]) by {
            assert(s.drop_last()[j] == s[j]);
        }
        lemma_filter_all(s.drop_last(), p);
        assert(p(s[s.len() - 1]));
        assert(s.drop_last().push(s.last()) =~= s);
    }
}

/// [`flatten`] is vstd's `flatten`.
proof fn lemma_flatten_is_vstd(ss: Seq<Seq<Datum>>)
    ensures
        flatten(ss) == ss.flatten(),
{
    lemma_flatten_is_alt(ss);
    ss.lemma_flatten_and_flatten_alt_are_equivalent();
}

proof fn lemma_flatten_is_alt(ss: Seq<Seq<Datum>>)
    ensures
        flatten(ss) == ss.flatten_alt(),
    decreases ss.len(),
{
    if ss.len() > 0 {
        lemma_flatten_is_alt(ss.drop_last());
    }
}

/// [`flatten_pairs`] concatenates the values seen as tuples, with vstd's `flatten`.
proof fn lemma_flatten_pairs_is_vstd(vals: Seq<Datum>)
    ensures
        flatten_pairs(vals) == vals.map_values(|v: Datum| coerce_to_tuple(v)).flatten(),
{
    lemma_flatten_pairs_is_alt(vals);
    vals.map_values(|v: Datum| coerce_to_tuple(v)).lemma_flatten_and_flatten_alt_are_equivalent();
}

proof fn lemma_flatten_pairs_is_alt(vals: Seq<Datum>)
    ensures
        flatten_pairs(vals) == vals.map_values(|v: Datum| coerce_to_tuple(v)).flatten_alt(),
    decreases vals.len(),
{
    if vals.len() > 0 {
        lemma_flatten_pairs_is_alt(vals.drop_last());
        assert(vals.map_values(|v: Datum| coerce_to_tuple(v)).drop_last() =~= vals.drop_last().map_values(
            |v: Datum| coerce_to_tuple(v),
        ));
    }
}

proof fn lemma_total_len_const(ss: Seq<Seq<Datum>>, n: nat)
    requires
        forall|k: int| 0 <= k < ss.len() ==> (#[trigger] ss[k]).len() == n,
    ensures
        total_len(ss) == ss.len() * n,
    decreases ss.len(),
{
    if ss.len() > 0 {
        assert forall|k: int| 0 <= k < ss.drop_last().len() implies (#[trigger] ss.drop_last()[k]).len() == n by {
            assert(ss.drop_last()[k] == ss[k]);
        }
        lemma_total_len_const(ss.drop_last(), n);
        assert(ss.last().len() == n);
        let l = ss.len() as int;
        assert((l - 1) * n + n == l * n) by (nonlinear_arith);
    }
}

/// `SELECT VALUE` yields exactly one value per element of its input, in order: the `k`-th
/// is the expression's value for the `k`-th element seen as a tuple, whatever that value
/// is (`NULL` and `MISSING` included); a list where the input is a list, else a bag.
pub proof fn law_select_value_one_per_element(op: EvalSelectValue, d: Datum)
    ensures
        (op.sem())(Some(d)) matches Some(out) && (out is List || out is Bag) && (out is List
            <==> d is List) && elements(out).len() == elements(d).len() && forall|k: int|
            0 <= k < elements(d).len() ==> #[trigger] elements(out)[k] == (op.expr.meaning())(
                coerce_to_tuple(elements(d)[k]),
            ),
{
}

/// `UNPIVOT` makes exactly one binding per attribute/value pair of its expression's value
/// (against the empty tuple) seen as a tuple, in order, whatever the value: the `k`-th binds
/// the AS name to the `k`-th value and, where there is an AT name, that name to the `k`-th
/// attribute name.
pub proof fn law_unpivot_one_binding_per_pair(op: EvalUnpivot, i: Option<Datum>)
    ensures
        ({
            let pairs = coerce_to_tuple((op.expr.meaning())(Seq::empty()));
            (op.sem())(i) matches Some(Datum::Bag(out)) && out.len() == pairs.len() && forall|k: int|
                0 <= k < pairs.len() ==> #[trigger] out[k] == match opt_name(op.at_key) {
                    Some(a) => Datum::Tuple(seq![(op.as_key@, pairs[k].1), (a, Datum::Str(pairs[k].0))]),
                    None => Datum::Tuple(seq![(op.as_key@, pairs[k].1)]),
                }
        }),
{
}

/// `SELECT *` makes one row per element of its input, in order: the concatenation of all
/// the pairs of each value of the element (seen as a tuple), each value seen as a tuple;
/// so a binding `{t: T}` of a tuple `T` gives `T` itself.
pub proof fn law_select_all_merges_pairs(op: EvalSelectAll, d: Datum)
    ensures
        (op.sem())(Some(d)) matches Some(out) && (out is List || out is Bag) && (out is List
            <==> d is List) && elements(out).len() == elements(d).len() && forall|k: int|
            0 <= k < elements(d).len() ==> #[trigger] elements(out)[k] == Datum::Tuple(
                coerce_to_tuple(elements(d)[k]).map_values(
                    |p: (Seq<char>, Datum)| coerce_to_tuple(p.1),
                ).flatten(),
            ),
        forall|k: int|
            0 <= k < elements(d).len() && (#[trigger] elements(d)[k]) is Tuple && coerce_to_tuple(
                elements(d)[k],
            ).len() == 1 && coerce_to_tuple(elements(d)[k])[0].1 is Tuple ==> elements(
                (op.sem())(Some(d))->0,
            )[k] == coerce_to_tuple(elements(d)[k])[0].1,
{
    let out = (op.sem())(Some(d))->0;
    assert forall|k: int| 0 <= k < elements(d).len() implies #[trigger] elements(out)[k]
        == Datum::Tuple(
        coerce_to_tuple(elements(d)[k]).map_values(|p: (Seq<char>, Datum)| coerce_to_tuple(p.1)).flatten(),
    ) by {
        let vals = coerce_to_tuple(elements(d)[k]).map_values(|p: (Seq<char>, Datum)| p.1);
        lemma_flatten_pairs_is_vstd(vals);
        assert(vals.map_values(|v: Datum| coerce_to_tuple(v)) =~= coerce_to_tuple(
            elements(d)[k],
        ).map_values(|p: (Seq<char>, Datum)| coerce_to_tuple(p.1)));
    }
    assert forall|k: int|
        0 <= k < elements(d).len() && (#[trigger] elements(d)[k]) is Tuple && coerce_to_tuple(
            elements(d)[k],
        ).len() == 1 && coerce_to_tuple(elements(d)[k])[0].1 is Tuple implies elements(out)[k]
        == coerce_to_tuple(elements(d)[k])[0].1 by {
        let tt = coerce_to_tuple(coerce_to_tuple(elements(d)[k])[0].1);
        let ss = coerce_to_tuple(elements(d)[k]).map_values(
            |p: (Seq<char>, Datum)| coerce_to_tuple(p.1),
        );
        assert(ss =~= seq![tt]);
        ss.lemma_flatten_one_element();
    }
}

/// A projected row leaves out exactly the aliases whose value is `MISSING`: it is the
/// pairs of each alias with its expression's value for the element seen as a tuple, in
/// order, but those whose value is `MISSING`; `NULL` values stay. So where no expression
/// gives `MISSING` the row has one pair per alias.
pub proof fn law_select_row_omits_only_missing(op: EvalSelect, d: Datum)
    ensures
        (op.sem())(Some(d)) matches Some(out) && (out is List || out is Bag) && (out is List
            <==> d is List) && elements(out).len() == elements(d).len(),
        forall|k: int|
            0 <= k < elements(d).len() ==> {
                let b = coerce_to_tuple(#[trigger] elements(d)[k]);
                let pairs = Seq::new(
                    op.aliases().len(),
                    |j: int| (op.aliases()[j], (op.meanings()[j])(b)),
                );
                &&& elements((op.sem())(Some(d))->0)[k] == Datum::Tuple(
                    pairs.filter(|q: (Seq<char>, Datum)| q.1 !is Missing),
                )
                &&& (forall|j: int| 0 <= j < pairs.len() ==> (#[trigger] pairs[j]).1 !is Missing)
                    ==> elements((op.sem())(Some(d))->0)[k] == Datum::Tuple(pairs)
            },
{
    let al = op.aliases();
    let ms = op.meanings();
    assert forall|k: int| 0 <= k < elements(d).len() implies {
        let b = coerce_to_tuple(#[trigger] elements(d)[k]);
        let pairs = Seq::new(al.len(), |j: int| (al[j], (ms[j])(b)));
        &&& elements((op.sem())(Some(d))->0)[k] == Datum::Tuple(
            pairs.filter(|q: (Seq<char>, Datum)| q.1 !is Missing),
        )
        &&& (forall|j: int| 0 <= j < pairs.len() ==> (#[trigger] pairs[j]).1 !is Missing)
            ==> elements((op.sem())(Some(d))->0)[k] == Datum::Tuple(pairs)
    } by {
        let b = coerce_to_tuple(elements(d)[k]);
        let rs = results_for(ms, b);
        let pairs = Seq::new(al.len(), |j: int| (al[j], (ms[j])(b)));
        let items = Seq::new(al.len(), |j: int| (al[j], rs[j]));
        assert(items =~= pairs);
        let p = |q: (Seq<char>, Datum)| q.1 !is Missing;
        let flags = rs.map_values(|x: Datum| x !is Missing);
        lemma_keep_map_filter(pairs, |q: (Seq<char>, Datum)| q, p, flags);
        assert(pairs.filter(p).map_values(|q: (Seq<char>, Datum)| q) =~= pairs.filter(p));
        assert(pairs.map_values(|q: (Seq<char>, Datum)| q) =~= pairs);
        if forall|j: int| 0 <= j < pairs.len() ==> (#[trigger] pairs[j]).1 !is Missing {
            lemma_filter_all(pairs, p);
        }
    }
}

/// The bindings a join makes of one left binding `b_l` are exactly the concatenations
/// `b_l || b_r`, in order, of the right bindings `b_r` (of the right operand evaluated on
/// `env || b_l`) for which the condition, evaluated on `env || b_l || b_r`, is `true` (all
/// of them without a condition); a left join that keeps none makes `b_l` with the right
/// operand's attributes bound to `NULL`.
pub proof fn law_join_pairs_every_match(
    left_join: bool,
    on: Option<spec_fn(Seq<(Seq<char>, Datum)>) -> Datum>,
    rsem: spec_fn(Option<Datum>) -> Option<Datum>,
    vars: Option<Seq<Seq<char>>>,
    env: Seq<(Seq<char>, Datum)>,
    b_l: Datum,
)
    ensures
        ({
            let bl = coerce_to_tuple(b_l);
            let rbs = right_bindings_of(rsem(Some(Datum::Tuple(env + bl))));
            let matched = rbs.filter(
                |rb: Datum|
                    match on {
                        Some(c) => c(env + (bl + coerce_to_tuple(rb))) == Datum::Boolean(true),
                        None => true,
                    },
            ).map_values(|rb: Datum| Datum::Tuple(bl + coerce_to_tuple(rb)));
            &&& join_binding_rows(left_join, on, rsem, vars, env, b_l) == if left_join
                && matched.len() == 0 {
                seq![
                    Datum::Tuple(
                        bl + vars_or_empty(vars).map_values(|k: Seq<char>| (k, Datum::Null)),
                    ),
                ]
            } else {
                matched
            }
            &&& on is None ==> matched.len() == rbs.len() && forall|j: int|
                0 <= j < rbs.len() ==> #[trigger] matched[j] == Datum::Tuple(
                    bl + coerce_to_tuple(rbs[j]),
                )
        }),
{
    let bl = coerce_to_tuple(b_l);
    let rbs = right_bindings_of(rsem(Some(Datum::Tuple(env + bl))));
    let p = |rb: Datum|
        match on {
            Some(c) => c(env + (bl + coerce_to_tuple(rb))) == Datum::Boolean(true),
            None => true,
        };
    let f = |rb: Datum| Datum::Tuple(bl + coerce_to_tuple(rb));
    let conds = cond_values(on, env, bl, rbs);
    let flags = join_flags(rbs.len(), conds);
    assert forall|j: int| 0 <= j < rbs.len() implies flags[j] == p(#[trigger] rbs[j]) by {}
    lemma_keep_map_filter(rbs, f, p, flags);
    if on is None {
        lemma_filter_all(rbs, p);
    }
}

/// A join yields the bindings it makes of each left binding (see
/// [`law_join_pairs_every_match`]), one left binding after the other, in a bag; the left
/// operand is evaluated on the environment: the input, or the empty tuple.
pub proof fn law_join_concatenates_left_bindings(op: EvalJoin, i: Option<Datum>)
    ensures
        ({
            let left = (op.left.sem())(Some(join_env(i)));
            left is Some && left->0 is Bag ==> (op.sem())(i) == Some(
                Datum::Bag(
                    left->0->Bag_0.map_values(
                        |b_l: Datum|
                            join_binding_rows(
                                op.kind is Left,
                                on_meaning(op.on),
                                op.right.sem(),
                                op.right.vars(),
                                coerce_to_tuple(join_env(i)),
                                b_l,
                            ),
                    ).flatten(),
                ),
            )
        }),
{
    let left = (op.left.sem())(Some(join_env(i)));
    if left is Some && left->0 is Bag {
        let lbs = left->0->Bag_0;
        lemma_flatten_is_vstd(
            lbs.map_values(
                |b_l: Datum|
                    join_binding_rows(
                        op.kind is Left,
                        on_meaning(op.on),
                        op.right.sem(),
                        op.right.vars(),
                        coerce_to_tuple(join_env(i)),
                        b_l,
                    ),
            ),
        );
    }
}

/// An inner join without a condition pairs every left binding with every right binding:
/// where the right operand yields `n` bindings for each left binding, the join yields
/// `|left| * n` bindings.
pub proof fn law_inner_join_is_a_product(op: EvalJoin, i: Option<Datum>, n: nat)
    requires
        op.kind is Inner,
        op.on is None,
        (op.left.sem())(Some(join_env(i))) is Some,
        (op.left.sem())(Some(join_env(i)))->0 is Bag,
        forall|k: int|
            0 <= k < (op.left.sem())(Some(join_env(i)))->0->Bag_0.len() ==> right_bindings_of(
                (op.right.sem())(
                    Some(
                        Datum::Tuple(
                            coerce_to_tuple(join_env(i)) + coerce_to_tuple(
                                #[trigger] (op.left.sem())(Some(join_env(i)))->0->Bag_0[k],
                            ),
                        ),
                    ),
                ),
            ).len() == n,
    ensures
        (op.sem())(i) matches Some(Datum::Bag(out)) && out.len()
            == (op.left.sem())(Some(join_env(i)))->0->Bag_0.len() * n,
{
    let lbs = (op.left.sem())(Some(join_env(i)))->0->Bag_0;
    let env = coerce_to_tuple(join_env(i));
    let rows = lbs.map_values(
        |b_l: Datum| join_binding_rows(false, None, op.right.sem(), op.right.vars(), env, b_l),
    );
    assert forall|k: int| 0 <= k < rows.len() implies (#[trigger] rows[k]).len() == n by {
        law_join_pairs_every_match(false, None, op.right.sem(), op.right.vars(), env, lbs[k]);
    }
    lemma_flatten_len(rows);
    lemma_total_len_const(rows, n);
    assert(on_meaning(op.on) is None);
}

/// `DISTINCT` keeps each element the first time it occurs, in order: of no elements it
/// keeps none, and one more element at the end is kept, at the end, exactly when it did
/// not occur before; a list stays a list, a bag a bag.
pub proof fn law_distinct_keeps_first_occurrences(op: EvalDistinct, s: Seq<Datum>, x: Datum)
    ensures
        (op.sem())(Some(Datum::Bag(Seq::empty()))) == Some(Datum::Bag(Seq::<Datum>::empty())),
        (op.sem())(Some(Datum::List(s))) matches Some(Datum::List(_)),
        (op.sem())(Some(Datum::Bag(s))) matches Some(Datum::Bag(_)),
        elements((op.sem())(Some(Datum::List(s)))->0) == elements(
            (op.sem())(Some(Datum::Bag(s)))->0,
        ),
        elements((op.sem())(Some(Datum::Bag(s.push(x))))->0) == if s.contains(x) {
            elements((op.sem())(Some(Datum::Bag(s)))->0)
        } else {
            elements((op.sem())(Some(Datum::Bag(s)))->0).push(x)
        },
{
    lemma_first_occurrences_push(s, x);
    assert(first_occurrences(Seq::<Datum>::empty()) =~= Seq::<Datum>::empty());
}

} // verus!
