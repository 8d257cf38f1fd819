use std::collections::HashMap;
use vstd::prelude::*;

use crate::value::{BindingsName, Value};

verus! {

/// The identifier of an operator in a [`LogicalPlan`]: the operator added as the `n`-th
/// (counting from one) has the identifier `n`.
#[derive(Eq, PartialEq, Debug, Clone, Copy, Hash, Structural)]
pub struct OpId(usize);

impl View for OpId {
    type V = usize;

    closed spec fn view(&self) -> usize {
        self.0
    }
}

/// Two identifiers are the same exactly when their indices are.
pub proof fn lemma_op_id_view_injective(a: OpId, b: OpId)
    ensures
        a@ == b@ <==> a == b,
{
}

impl OpId {
    pub fn index(&self) -> (r: usize)
        ensures
            r == self@,
    {
        self.0
    }
}

/// A logical plan: operators and the flows between them.
#[derive(Debug, Clone)]
pub struct LogicalPlan<T> where T: Default {
    nodes: Vec<T>,
    /// Third argument indicates the branch number into the outgoing node.
    edges: Vec<(OpId, OpId, u8)>,
}

impl<T> LogicalPlan<T> where T: Default {
    /// The operators of the plan, in the order they were added.
    pub closed spec fn ops(&self) -> Seq<T> {
        self.nodes@
    }

    /// The flows of the plan, in the order they were added: source, destination, branch.
    pub closed spec fn edges(&self) -> Seq<(OpId, OpId, u8)> {
        self.edges@
    }

    /// Whether `id` may be the source or destination of a flow of this plan.
    pub open spec fn accepts(&self, id: OpId) -> bool {
        id@ <= self.ops().len()
    }

    pub fn new() -> (r: Self)
        ensures
            r.ops() == Seq::<T>::empty(),
            r.edges() == Seq::<(OpId, OpId, u8)>::empty(),
    {
        LogicalPlan { nodes: Vec::new(), edges: Vec::new() }
    }

    pub fn add_operator(&mut self, op: T) -> (r: OpId)
        ensures
            final(self).ops() == old(self).ops().push(op),
            final(self).edges() == old(self).edges(),
            r@ == final(self).ops().len(),
    {
        self.nodes.push(op);
        OpId(self.operator_count())
    }

    pub fn add_flow(&mut self, src: OpId, dst: OpId)
        requires
            old(self).accepts(src),
            old(self).accepts(dst),
        ensures
            final(self).ops() == old(self).ops(),
            final(self).edges() == old(self).edges().push((src, dst, 0u8)),
    {
        self.edges.push((src, dst, 0));
    }

    pub fn add_flow_with_branch_num(&mut self, src: OpId, dst: OpId, branch_num: u8)
        requires
            old(self).accepts(src),
            old(self).accepts(dst),
        ensures
            final(self).ops() == old(self).ops(),
            final(self).edges() == old(self).edges().push((src, dst, branch_num)),
    {
        self.edges.push((src, dst, branch_num));
    }

    pub fn extend_with_flows(&mut self, flows: &[(OpId, OpId)])
        requires
            forall|i: int|
                0 <= i < flows@.len() ==> old(self).accepts(#[trigger] flows@[i].0) && old(self).accepts(
                    flows@[i].1,
                ),
        ensures
            final(self).ops() == old(self).ops(),
            final(self).edges() == old(self).edges() + flows@.map_values(
                |f: (OpId, OpId)| (f.0, f.1, 0u8),
            ),
    {
        let mut i: usize = 0;
        while i < flows.len()
            invariant
                i <= flows@.len(),
                self.ops() == old(self).ops(),
                self.edges() == old(self).edges() + flows@.take(i as int).map_values(
                    |f: (OpId, OpId)| (f.0, f.1, 0u8),
                ),
                forall|j: int|
                    0 <= j < flows@.len() ==> old(self).accepts(#[trigger] flows@[j].0) && old(
                        self,
                    ).accepts(flows@[j].1),
            decreases flows@.len() - i,
        {
            let (s, d) = flows[i];
            self.add_flow(s, d);
            proof {
                assert(flows@.take(i + 1) =~= flows@.take(i as int).push(flows@[i as int]));
                assert(flows@.take(i + 1).map_values(|f: (OpId, OpId)| (f.0, f.1, 0u8))
                    =~= flows@.take(i as int).map_values(|f: (OpId, OpId)| (f.0, f.1, 0u8)).push(
                    (s, d, 0u8),
                ));
            }
            i = i + 1;
        }
        proof {
            assert(flows@.take(flows@.len() as int) =~= flows@);
        }
    }

    pub fn operator_count(&self) -> (r: usize)
        ensures
            r == self.ops().len(),
    {
        self.nodes.len()
    }

    pub fn operators(&self) -> (r: &Vec<T>)
        ensures
            r@ == self.ops(),
    {
        &self.nodes
    }

    pub fn flows(&self) -> (r: &Vec<(OpId, OpId, u8)>)
        ensures
            r@ == self.edges(),
    {
        &self.edges
    }
}

impl<T> Default for LogicalPlan<T> where T: Default {
    fn default() -> (r: Self)
        ensures
            r.ops() == Seq::<T>::empty(),
            r.edges() == Seq::<(OpId, OpId, u8)>::empty(),
    {
        Self::new()
    }
}

/// An operator added to a plan gets an identifier that is new (no identifier the plan
/// accepted before is equal to it), that flows of the plan accept from then on, and that
/// names the operator: it is the `index()`-th operator, counting from one.
pub proof fn law_added_operator_is_addressable<T: Default>(
    before: LogicalPlan<T>,
    after: LogicalPlan<T>,
    op: T,
    id: OpId,
)
    requires
        after.ops() == before.ops().push(op),
        id@ == after.ops().len(),
    ensures
        after.accepts(id),
        after.ops()[id@ - 1] == op,
        forall|other: OpId| #[trigger] before.accepts(other) ==> other != id && after.accepts(other),
{
}

/// Operators added one after the other get consecutive identifiers: the second is one
/// past the first, the count of operators grows by one each time, and each identifier
/// names its own operator.
pub proof fn law_operator_ids_count_up<T: Default>(
    p0: LogicalPlan<T>,
    p1: LogicalPlan<T>,
    p2: LogicalPlan<T>,
    a: T,
    b: T,
    ida: OpId,
    idb: OpId,
)
    requires
        p1.ops() == p0.ops().push(a),
        ida@ == p1.ops().len(),
        p2.ops() == p1.ops().push(b),
        idb@ == p2.ops().len(),
    ensures
        ida@ == p0.ops().len() + 1,
        idb@ == ida@ + 1,
        ida != idb,
        p2.ops()[ida@ - 1] == a,
        p2.ops()[idb@ - 1] == b,
{
}

/// A flow added with `add_flow` is the flow added with `add_flow_with_branch_num` on branch
/// 0: from the same plan, both give the same flows and operators.
pub proof fn law_add_flow_is_branch_zero<T: Default>(
    p0: LogicalPlan<T>,
    p1: LogicalPlan<T>,
    p2: LogicalPlan<T>,
    src: OpId,
    dst: OpId,
)
    requires
        p1.ops() == p0.ops(),
        p1.edges() == p0.edges().push((src, dst, 0u8)),
        p2.ops() == p0.ops(),
        p2.edges() == p0.edges().push((src, dst, 0u8)),
    ensures
        p1.ops() == p2.ops(),
        p1.edges() == p2.edges(),
        p1.edges().last() == (src, dst, 0u8),
{
}

/// Flows never change the operators of a plan, and adding flows one by one gives the
/// flows of `extend_with_flows`: the flows of a plan are those added, in order.
pub proof fn law_flows_accumulate<T: Default>(
    p0: LogicalPlan<T>,
    p1: LogicalPlan<T>,
    p2: LogicalPlan<T>,
    f: (OpId, OpId),
    g: (OpId, OpId),
)
    requires
        p1.ops() == p0.ops(),
        p1.edges() == p0.edges().push((f.0, f.1, 0u8)),
        p2.ops() == p1.ops(),
        p2.edges() == p1.edges().push((g.0, g.1, 0u8)),
    ensures
        p2.ops() == p0.ops(),
        p2.edges() == p0.edges() + seq![f, g].map_values(|x: (OpId, OpId)| (x.0, x.1, 0u8)),
        p2.edges().len() == p0.edges().len() + 2,
{
    assert(p2.edges() =~= p0.edges() + seq![f, g].map_values(|x: (OpId, OpId)| (x.0, x.1, 0u8)));
}

#[derive(Clone, Debug)]
pub enum UnaryOp {
    Pos,
    Neg,
    Not,
}

#[derive(Clone, Debug)]
pub enum BinaryOp {
    And,
    Or,
    Concat,
    Eq,
    Neq,
    Gt,
    Gteq,
    Lt,
    Lteq,
    // Arithmetic ops
    Add,
    Sub,
    Mul,
    Div,
    Mod,
    Exp,
    In,
}

#[derive(Clone, Debug)]
pub enum PathComponent {
    Key(String),
    Index(i64),
}

#[derive(Debug)]
pub struct IsTypeExpr {
    pub not: bool,
    pub expr: Box<ValueExpr>,
    pub is_type: Type,
}

#[derive(Clone, Debug, PartialEq, Eq, Structural)]
pub enum Type {
    NullType,
    BooleanType,
    Integer2Type,
    Integer4Type,
    Integer8Type,
    DecimalType,
    NumericType,
    RealType,
    DoublePrecisionType,
    TimestampType,
    CharacterType,
    CharacterVaryingType,
    MissingType,
    StringType,
    SymbolType,
    BlobType,
    ClobType,
    DateType,
    TimeType,
    ZonedTimestampType,
    StructType,
    TupleType,
    ListType,
    SexpType,
    BagType,
    AnyType,
}

#[derive(Debug)]
pub struct NullIfExpr {
    pub lhs: Box<ValueExpr>,
    pub rhs: Box<ValueExpr>,
}

#[derive(Debug)]
pub struct CoalesceExpr {
    pub elements: Vec<ValueExpr>,
}

/// The built-in functions that a [`CallExpr`] calls.
#[derive(Clone, Copy, Debug, PartialEq, Eq, Structural)]
pub enum CallName {
    Lower,
    Upper,
    CharLength,
    OctetLength,
    BitLength,
    LTrim,
    BTrim,
    RTrim,
    Substring,
    Position,
    Exists,
}

/// A call of a built-in function on arguments.
#[derive(Debug)]
pub struct CallExpr {
    pub name: CallName,
    pub arguments: Vec<ValueExpr>,
}

#[derive(Debug)]
pub enum ValueExpr {
    UnExpr(UnaryOp, Box<ValueExpr>),
    BinaryExpr(BinaryOp, Box<ValueExpr>, Box<ValueExpr>),
    Lit(Box<Value>),
    Path(Box<ValueExpr>, Vec<PathComponent>),
    VarRef(BindingsName),
    TupleExpr(TupleExpr),
    ListExpr(ListExpr),
    BagExpr(BagExpr),
    BetweenExpr(BetweenExpr),
    SubQueryExpr(SubQueryExpr),
    SimpleCase(SimpleCase),
    SearchedCase(SearchedCase),
    IsTypeExpr(IsTypeExpr),
    NullIfExpr(NullIfExpr),
    CoalesceExpr(CoalesceExpr),
    Call(CallExpr),
}

#[derive(Debug)]
pub struct TupleExpr {
    pub attrs: Vec<ValueExpr>,
    pub values: Vec<ValueExpr>,
}

impl TupleExpr {
    pub fn new() -> (r: Self)
        ensures
            r.attrs@.len() == 0,
            r.values@.len() == 0,
    {
        TupleExpr { attrs: Vec::new(), values: Vec::new() }
    }
}

impl Default for TupleExpr {
    fn default() -> (r: Self)
        ensures
            r.attrs@.len() == 0,
            r.values@.len() == 0,
    {
        TupleExpr::new()
    }
}

#[derive(Debug)]
pub struct ListExpr {
    pub elements: Vec<ValueExpr>,
}

impl ListExpr {
    pub fn new() -> (r: Self)
        ensures
            r.elements@.len() == 0,
    {
        ListExpr { elements: Vec::new() }
    }
}

impl Default for ListExpr {
    fn default() -> (r: Self)
        ensures
            r.elements@.len() == 0,
    {
        ListExpr::new()
    }
}

#[derive(Debug)]
pub struct BagExpr {
    pub elements: Vec<ValueExpr>,
}

impl BagExpr {
    pub fn new() -> (r: Self)
        ensures
            r.elements@.len() == 0,
    {
        BagExpr { elements: Vec::new() }
    }
}

impl Default for BagExpr {
    fn default() -> (r: Self)
        ensures
            r.elements@.len() == 0,
    {
        BagExpr::new()
    }
}

#[derive(Debug)]
pub struct BetweenExpr {
    pub value: Box<ValueExpr>,
    pub from: Box<ValueExpr>,
    pub to: Box<ValueExpr>,
}

#[derive(Debug)]
pub struct SimpleCase {
    pub expr: Box<ValueExpr>,
    pub cases: Vec<(Box<ValueExpr>, Box<ValueExpr>)>,
    pub default: Option<Box<ValueExpr>>,
}

#[derive(Debug)]
pub struct SearchedCase {
    pub cases: Vec<(Box<ValueExpr>, Box<ValueExpr>)>,
    pub default: Option<Box<ValueExpr>>,
}

// Bindings -> Bindings : Where, OrderBy, Offset, Limit, Join, SetOp, Select, Distinct, GroupBy, Unpivot, Let
// Values   -> Bindings : From
// Bindings -> Values   : Select Value
#[derive(Debug)]
pub enum BindingsExpr {
    Scan(Scan),
    Unpivot(Unpivot),
    Filter(Filter),
    OrderBy,
    Offset,
    Limit,
    Join(Join),
    SetOp,
    Project(Project),
    ProjectValue(ProjectValue),
    Distinct,
    GroupBy,
    Sink,
}

impl Default for BindingsExpr {
    fn default() -> (r: Self)
        ensures
            r is Sink,
    {
        BindingsExpr::Sink
    }
}

/// [`Scan`] bridges from [`ValueExpr`]s to [`BindingsExpr`]s
#[derive(Debug)]
pub struct Scan {
    pub expr: ValueExpr,
    pub as_key: String,
    pub at_key: Option<String>,
}

/// [`Unpivot`] bridges from [`ValueExpr`]s to [`BindingsExpr`]s
#[derive(Debug)]
pub struct Unpivot {
    pub expr: ValueExpr,
    pub as_key: String,
    pub at_key: Option<String>,
}

#[derive(Debug, Clone)]
pub enum JoinKind {
    Inner,
    Left,
    Right,
    Full,
    Cross,
    CrossLateral,
}

#[derive(Debug)]
pub struct Join {
    pub kind: JoinKind,
    pub on: Option<ValueExpr>,
}

#[derive(Debug)]
pub struct Filter {
    pub expr: ValueExpr,
}

#[derive(Debug)]
pub struct Project {
    pub exprs: HashMap<String, ValueExpr>,
}

#[derive(Debug)]
pub struct ProjectValue {
    pub expr: ValueExpr,
}

#[derive(Debug)]
pub struct SubQueryExpr {
    pub plan: LogicalPlan<BindingsExpr>,
}

} // verus!
