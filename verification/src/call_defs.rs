use vstd::prelude::*;

use crate::logical::{CallExpr, CallName, CoalesceExpr, NullIfExpr, ValueExpr};
use crate::value::{Datum, Value};

verus! {

broadcast use vstd::string::group_string_axioms;

// ---------------------------------------------------------------------------
// Case-insensitive comparison of names
// ---------------------------------------------------------------------------

/// Whether `unicase` holds two texts equal: equal after Unicode case folding.
pub uninterp spec fn caseless_equal(a: Seq<char>, b: Seq<char>) -> bool;

/// A text made of ASCII characters only.
pub open spec fn is_ascii_text(s: Seq<char>) -> bool {
    forall|i: int| 0 <= i < s.len() ==> (#[trigger] s[i]) as u32 <= 127
}

/// The code of a character after ASCII lower-casing.
pub open spec fn ascii_fold(c: char) -> u32 {
    if 65 <= (c as u32) <= 90 {
        (c as u32 + 32) as u32
    } else {
        c as u32
    }
}

/// Equality of two texts ignoring ASCII case.
pub open spec fn ascii_caseless_eq(a: Seq<char>, b: Seq<char>) -> bool {
    &&& a.len() == b.len()
    &&& forall|i: int| 0 <= i < a.len() ==> ascii_fold(#[trigger] a[i]) == ascii_fold(b[i])
}

/// Calls `unicase::eq`, which compares `UniCase::new(a)` with `UniCase::new(b)`.
/// Claimed: the result is [`caseless_equal`] of the two texts; equal texts compare equal;
/// two ASCII texts compare equal exactly when they are equal ignoring ASCII case
/// (`unicase` then compares them with `str::eq_ignore_ascii_case`).
#[verifier::external_body]
fn caseless_eq(a: &str, b: &str) -> (r: bool)
    ensures
        r == caseless_equal(a@, b@),
        a@ == b@ ==> r,
        is_ascii_text(a@) && is_ascii_text(b@) ==> (r <==> ascii_caseless_eq(a@, b@)),
{
    unicase::eq(a, b)
}

/// Whether two names are the same ignoring case, as `unicase` compares them: equal names
/// are; two ASCII names are exactly when they are equal ignoring ASCII case; other names
/// are when `unicase` folds them alike ([`caseless_equal`]).
pub open spec fn names_match(a: Seq<char>, b: Seq<char>) -> bool {
    if a == b {
        true
    } else if is_ascii_text(a) && is_ascii_text(b) {
        ascii_caseless_eq(a, b)
    } else {
        caseless_equal(a, b)
    }
}

/// Whether two names are the same ignoring case (see [`names_match`]).
fn names_equal(a: &str, b: &str) -> (r: bool)
    ensures
        r == names_match(a@, b@),
{
    caseless_eq(a, b)
}

// ---------------------------------------------------------------------------
// The first index at which a condition holds
// ---------------------------------------------------------------------------

/// The least `i` in `0..n` with `p(i)`, or `-1` where there is none.
pub open spec fn first_where(p: spec_fn(int) -> bool, n: int) -> int
    decreases n,
{
    if n <= 0 {
        -1
    } else {
        let r = first_where(p, n - 1);
        if r >= 0 {
            r
        } else if p(n - 1) {
            n - 1
        } else {
            -1
        }
    }
}

pub proof fn lemma_first_where(p: spec_fn(int) -> bool, n: int)
    requires
        n >= 0,
    ensures
        first_where(p, n) == -1 <==> (forall|j: int| 0 <= j < n ==> !#[trigger] p(j)),
        first_where(p, n) >= 0 ==> {
            let r = first_where(p, n);
            &&& r < n
            &&& p(r)
            &&& forall|j: int| 0 <= j < r ==> !#[trigger] p(j)
        },
        first_where(p, n) >= -1,
    decreases n,
{
    if n > 0 {
        lemma_first_where(p, n - 1);
    }
}

/// `first_where` is the index at which a scan that stops at the first hit stops.
pub proof fn lemma_first_where_is(p: spec_fn(int) -> bool, n: int, r: int)
    requires
        0 <= r < n,
        p(r),
        forall|j: int| 0 <= j < r ==> !#[trigger] p(j),
    ensures
        first_where(p, n) == r,
{
    lemma_first_where(p, n);
    let f = first_where(p, n);
    if f == -1 {
        assert(!p(r));
    } else if f < r {
        assert(!p(f));
    } else if f > r {
        assert(!p(r));
    }
}

// ---------------------------------------------------------------------------
// Arguments of calls
// ---------------------------------------------------------------------------

/// An actual argument of a call: positional, or named (`substring(x FROM 1)`).
#[derive(Debug)]
pub enum CallArgument {
    Positional(ValueExpr),
    Named(String, ValueExpr),
}

impl CallArgument {
    /// The expression of the argument.
    pub open spec fn expr(self) -> ValueExpr {
        match self {
            CallArgument::Positional(e) => e,
            CallArgument::Named(_, e) => e,
        }
    }

    /// The expression of the argument.
    pub fn into_expr(self) -> (r: ValueExpr)
        ensures
            r == self.expr(),
    {
        match self {
            CallArgument::Positional(e) => e,
            CallArgument::Named(_, e) => e,
        }
    }
}

/// A formal argument of an overload of a function.
#[derive(Debug, Clone, Copy)]
pub enum CallSpecArg {
    Positional,
    Named(&'static str),
}

/// The model of a formal argument.
pub enum ArgShape {
    Positional,
    Named(Seq<char>),
}

/// Whether the actual argument `a` fits the formal argument `f`: a positional for a
/// positional, a named argument for a formal of the same name ignoring case (see
/// [`names_match`]).
pub open spec fn arg_matches(f: ArgShape, a: CallArgument) -> bool {
    match (f, a) {
        (ArgShape::Positional, CallArgument::Positional(_)) => true,
        (ArgShape::Named(n), CallArgument::Named(m, _)) => names_match(n, m@),
        _ => false,
    }
}

impl CallSpecArg {
    pub open spec fn shape(self) -> ArgShape {
        match self {
            CallSpecArg::Positional => ArgShape::Positional,
            CallSpecArg::Named(n) => ArgShape::Named(n@),
        }
    }

    /// Whether the actual argument fits this formal argument.
    pub fn accepts(&self, arg: &CallArgument) -> (r: bool)
        ensures
            r == arg_matches(self.shape(), *arg),
    {
        match (self, arg) {
            (CallSpecArg::Positional, CallArgument::Positional(_)) => true,
            (CallSpecArg::Named(formal_name), CallArgument::Named(arg_name, _)) => names_equal(
                formal_name,
                arg_name.as_str(),
            ),
            _ => false,
        }
    }

    /// The expression of the actual argument where it fits this formal argument.
    pub fn transform(&self, arg: CallArgument) -> (r: Option<ValueExpr>)
        ensures
            r == (if arg_matches(self.shape(), arg) {
                Some(arg.expr())
            } else {
                None
            }),
    {
        if self.accepts(&arg) {
            Some(arg.into_expr())
        } else {
            None
        }
    }
}

// ---------------------------------------------------------------------------
// What an overload makes of its arguments
// ---------------------------------------------------------------------------

/// A literal that an overload adds to the arguments it is given.
#[derive(Debug, Clone, Copy, PartialEq, Eq, Structural)]
pub enum Filler {
    /// The integer `0`.
    Zero,
    /// The string `' '`.
    Space,
}

/// The expression that an overload builds from its actual arguments.
#[derive(Debug, Clone, Copy, PartialEq, Eq, Structural)]
pub enum CallOutput {
    /// A call of the function on the arguments.
    Call(CallName),
    /// A call of the function on the arguments with a literal inserted at a position.
    CallWith(CallName, usize, Filler),
    /// `COALESCE` of the arguments.
    Coalesce,
    /// `NULLIF` of the two arguments.
    NullIf,
}

/// Whether the output can be built from `n` arguments.
pub open spec fn output_fits(out: CallOutput, n: nat) -> bool {
    match out {
        CallOutput::CallWith(_, i, _) => i <= n,
        CallOutput::NullIf => n == 2,
        _ => true,
    }
}

pub open spec fn is_filler(e: ValueExpr, f: Filler) -> bool {
    match f {
        Filler::Zero => e matches ValueExpr::Lit(b) && (*b)@ == Datum::Integer(0),
        Filler::Space => e matches ValueExpr::Lit(b) && (*b)@ == Datum::Str(seq![' ']),
    }
}

/// Whether `r` is the expression that `out` builds from the argument expressions `args`.
pub open spec fn output_matches(out: CallOutput, args: Seq<ValueExpr>, r: ValueExpr) -> bool {
    match out {
        CallOutput::Call(n) => r matches ValueExpr::Call(c) && c.name == n && c.arguments@ == args,
        CallOutput::CallWith(n, i, f) => r matches ValueExpr::Call(c) && c.name == n
            && c.arguments@.len() == args.len() + 1 && c.arguments@.remove(i as int) == args
            && is_filler(c.arguments@[i as int], f),
        CallOutput::Coalesce => r matches ValueExpr::CoalesceExpr(c) && c.elements@ == args,
        CallOutput::NullIf => r matches ValueExpr::NullIfExpr(e) && args.len() == 2 && *e.lhs
            == args[0] && *e.rhs == args[1],
    }
}

fn filler_expr(f: Filler) -> (r: ValueExpr)
    ensures
        is_filler(r, f),
{
    match f {
        Filler::Zero => ValueExpr::Lit(Box::new(Value::Integer(0))),
        Filler::Space => {
            let s = " ".to_string();
            proof {
                reveal_strlit(" ");
                assert(s@ =~= seq![' ']);
            }
            ValueExpr::Lit(Box::new(Value::String(s)))
        },
    }
}

/// Builds the expression that `out` makes of the argument expressions.
pub fn build_output(out: CallOutput, args: Vec<ValueExpr>) -> (r: ValueExpr)
    requires
        output_fits(out, args@.len()),
    ensures
        output_matches(out, args@, r),
{
    let ghost a = args@;
    match out {
        CallOutput::Call(name) => ValueExpr::Call(CallExpr { name, arguments: args }),
        CallOutput::CallWith(name, i, f) => {
            let mut args = args;
            args.insert(i, filler_expr(f));
            proof {
                assert(args@.remove(i as int) =~= a);
            }
            ValueExpr::Call(CallExpr { name, arguments: args })
        },
        CallOutput::Coalesce => ValueExpr::CoalesceExpr(CoalesceExpr { elements: args }),
        CallOutput::NullIf => {
            let mut args = args;
            let rhs = Box::new(args.pop().unwrap());
            let lhs = Box::new(args.pop().unwrap());
            ValueExpr::NullIfExpr(NullIfExpr { lhs, rhs })
        },
    }
}

// ---------------------------------------------------------------------------
// Overloads and function definitions
// ---------------------------------------------------------------------------

/// One overload of a function: its formal arguments and what it builds of them.
#[derive(Debug)]
pub struct CallSpec {
    input: Vec<CallSpecArg>,
    output: CallOutput,
}

/// The model of an overload.
pub type OverloadModel = (Seq<ArgShape>, CallOutput);

/// Whether the actual arguments fit the formal arguments, one for one.
pub open spec fn overload_matches(shapes: Seq<ArgShape>, args: Seq<CallArgument>) -> bool {
    &&& shapes.len() == args.len()
    &&& forall|i: int| 0 <= i < args.len() ==> arg_matches(shapes[i], #[trigger] args[i])
}

impl CallSpec {
    pub closed spec fn model(&self) -> OverloadModel {
        (self.input@.map_values(|a: CallSpecArg| a.shape()), self.output)
    }

    fn new(input: Vec<CallSpecArg>, output: CallOutput) -> (r: CallSpec)
        ensures
            r.model() == (input@.map_values(|a: CallSpecArg| a.shape()), output),
    {
        CallSpec { input, output }
    }

    /// Whether the actual arguments fit this overload.
    fn accepts(&self, args: &Vec<CallArgument>) -> (r: bool)
        ensures
            r == overload_matches(self.model().0, args@),
    {
        let formals = &self.input;
        let ghost shapes = self.model().0;
        assert(shapes.len() == formals@.len());
        assert(forall|j: int| 0 <= j < formals@.len() ==> #[trigger] shapes[j] == formals@[j].shape());
        if formals.len() != args.len() {
            return false;
        }
        let mut i: usize = 0;
        while i < formals.len()
            invariant
                formals@.len() == args@.len(),
                shapes == self.model().0,
                formals == &self.input,
                shapes.len() == formals@.len(),
                forall|j: int| 0 <= j < formals@.len() ==> #[trigger] shapes[j] == formals@[j].shape(),
                i <= formals@.len(),
                forall|j: int| 0 <= j < i ==> arg_matches(formals@[j].shape(), #[trigger] args@[j]),
            decreases formals@.len() - i,
        {
            if !formals[i].accepts(&args[i]) {
                assert(!arg_matches(shapes[i as int], args@[i as int]));
                assert(!overload_matches(shapes, args@));
                return false;
            }
            i = i + 1;
        }
        true
    }
}

/// A function: its names (the first is the primary one) and its overloads, which are
/// tried in order.
#[derive(Debug)]
pub struct CallDef {
    names: Vec<&'static str>,
    overloads: Vec<CallSpec>,
}

/// The model of a function: its names and its overloads.
pub type CallDefModel = (Seq<Seq<char>>, Seq<OverloadModel>);

/// A well-formed function model: it has a name, and each overload can build its output
/// from as many arguments as it has formals.
pub open spec fn def_model_wf(m: CallDefModel) -> bool {
    &&& m.0.len() > 0
    &&& forall|k: int| 0 <= k < m.1.len() ==> output_fits((#[trigger] m.1[k]).1, m.1[k].0.len())
}

/// The index of the overload chosen for the arguments: the first that fits them, or -1.
pub open spec fn chosen_overload(m: CallDefModel, args: Seq<CallArgument>) -> int {
    first_where(|k: int| overload_matches(m.1[k].0, args), m.1.len() as int)
}

impl CallDef {
    pub closed spec fn model(&self) -> CallDefModel {
        (
            self.names@.map_values(|n: &'static str| n@),
            self.overloads@.map_values(|s: CallSpec| s.model()),
        )
    }

    #[verifier::type_invariant]
    closed spec fn wf(&self) -> bool {
        def_model_wf(self.model())
    }

    fn new(names: Vec<&'static str>, overloads: Vec<CallSpec>) -> (r: CallDef)
        requires
            def_model_wf(
                (
                    names@.map_values(|n: &'static str| n@),
                    overloads@.map_values(|s: CallSpec| s.model()),
                ),
            ),
        ensures
            r.model() == (
                names@.map_values(|n: &'static str| n@),
                overloads@.map_values(|s: CallSpec| s.model()),
            ),
    {
        CallDef { names, overloads }
    }

    /// The primary name of the function.
    pub fn name(&self) -> (r: &'static str)
        ensures
            r@ == self.model().0[0],
    {
        proof {
            use_type_invariant(self);
        }
        self.names[0]
    }

    /// The expression of the first overload that fits the arguments, or `None` where no
    /// overload fits them.
    pub fn try_lookup(&self, args: Vec<CallArgument>) -> (r: Option<ValueExpr>)
        ensures
            chosen_overload(self.model(), args@) < 0 <==> r is None,
            chosen_overload(self.model(), args@) >= 0 ==> (r matches Some(e) && output_matches(
                self.model().1[chosen_overload(self.model(), args@)].1,
                args@.map_values(|a: CallArgument| a.expr()),
                e,
            )),
    {
        proof {
            use_type_invariant(self);
        }
        let ghost m = self.model();
        let ghost p = |k: int| overload_matches(m.1[k].0, args@);
        proof {
            lemma_first_where(p, m.1.len() as int);
        }
        let n = self.overloads.len();
        assert(forall|j: int| 0 <= j < n ==> #[trigger] m.1[j] == self.overloads@[j].model());
        let mut k: usize = 0;
        while k < n
            invariant
                n == self.overloads@.len(),
                m == self.model(),
                def_model_wf(m),
                m.1.len() == n,
                forall|j: int| 0 <= j < n ==> #[trigger] m.1[j] == self.overloads@[j].model(),
                p == (|k: int| overload_matches(m.1[k].0, args@)),
                k <= n,
                forall|j: int| 0 <= j < k ==> !#[trigger] p(j),
            decreases n - k,
        {
            assert(m.1[k as int] == self.overloads@[k as int].model());
            if self.overloads[k].accepts(&args) {
                proof {
                    lemma_first_where_is(p, m.1.len() as int, k as int);
                }
                let ghost a = args@;
                let actuals = into_exprs(args);
                let overload = &self.overloads[k];
                assert(output_fits(m.1[k as int].1, m.1[k as int].0.len()));
                assert(actuals@.len() == a.len());
                return Some(build_output(overload.output, actuals));
            }
            k = k + 1;
        }
        None
    }

    /// The expression of the first overload that fits the arguments.
    pub fn lookup(&self, args: Vec<CallArgument>) -> (r: ValueExpr)
        requires
            chosen_overload(self.model(), args@) >= 0,
        ensures
            output_matches(
                self.model().1[chosen_overload(self.model(), args@)].1,
                args@.map_values(|a: CallArgument| a.expr()),
                r,
            ),
    {
        match self.try_lookup(args) {
            Some(e) => e,
            None => {
                assert(false);
                unreached()
            },
        }
    }
}

/// The expressions of the arguments, in order.
fn into_exprs(args: Vec<CallArgument>) -> (r: Vec<ValueExpr>)
    ensures
        r@ == args@.map_values(|a: CallArgument| a.expr()),
{
    let ghost orig = args@;
    let mut args = args;
    let mut r: Vec<ValueExpr> = Vec::new();
    while args.len() > 0
        invariant
            r@ + args@.map_values(|a: CallArgument| a.expr()) == orig.map_values(
                |a: CallArgument| a.expr(),
            ),
        decreases args@.len(),
    {
        let ghost before = args@;
        let a = args.remove(0);
        r.push(a.into_expr());
        proof {
            assert(before.map_values(|a: CallArgument| a.expr()) =~= seq![a.expr()]
                + args@.map_values(|a: CallArgument| a.expr()));
        }
    }
    proof {
        assert(r@ + args@.map_values(|a: CallArgument| a.expr()) =~= r@);
    }
    r
}

// ---------------------------------------------------------------------------
// The built-in functions
// ---------------------------------------------------------------------------

pub open spec fn names_model(names: Seq<&'static str>) -> Seq<Seq<char>> {
    names.map_values(|n: &'static str| n@)
}

pub open spec fn shapes_model(input: Seq<CallSpecArg>) -> Seq<ArgShape> {
    input.map_values(|a: CallSpecArg| a.shape())
}

/// A function of one overload, under the given names.
fn single_overload_def(names: Vec<&'static str>, input: Vec<CallSpecArg>, output: CallOutput) -> (r:
    CallDef)
    requires
        names@.len() > 0,
        output_fits(output, input@.len()),
    ensures
        r.model() == (names_model(names@), seq![(shapes_model(input@), output)]),
{
    let ghost shapes = shapes_model(input@);
    let spec = CallSpec::new(input, output);
    let overloads = vec![spec];
    proof {
        assert(overloads@.map_values(|s: CallSpec| s.model()) =~= seq![(shapes, output)]);
    }
    CallDef::new(names, overloads)
}

/// The model of `CHAR_LENGTH`.
pub open spec fn char_len_model() -> CallDefModel {
    (
        seq!["char_length"@, "character_length"@],
        seq![(seq![ArgShape::Positional], CallOutput::Call(CallName::CharLength))],
    )
}

fn function_call_def_char_len() -> (r: CallDef)
    ensures
        r.model() == char_len_model(),
{
    let names = vec!["char_length", "character_length"];
    let input = vec![CallSpecArg::Positional];
    proof {
        assert(names_model(names@) =~= char_len_model().0);
        assert(shapes_model(input@) =~= seq![ArgShape::Positional]);
    }
    single_overload_def(names, input, CallOutput::Call(CallName::CharLength))
}

/// The model of `OCTET_LENGTH`.
pub open spec fn octet_len_model() -> CallDefModel {
    (seq!["octet_length"@], seq![(seq![ArgShape::Positional], CallOutput::Call(CallName::OctetLength))])
}

fn function_call_def_octet_len() -> (r: CallDef)
    ensures
        r.model() == octet_len_model(),
{
    let names = vec!["octet_length"];
    let input = vec![CallSpecArg::Positional];
    proof {
        assert(names_model(names@) =~= octet_len_model().0);
        assert(shapes_model(input@) =~= seq![ArgShape::Positional]);
    }
    single_overload_def(names, input, CallOutput::Call(CallName::OctetLength))
}

/// The model of `BIT_LENGTH`.
pub open spec fn bit_len_model() -> CallDefModel {
    (seq!["bit_length"@], seq![(seq![ArgShape::Positional], CallOutput::Call(CallName::BitLength))])
}

fn function_call_def_bit_len() -> (r: CallDef)
    ensures
        r.model() == bit_len_model(),
{
    let names = vec!["bit_length"];
    let input = vec![CallSpecArg::Positional];
    proof {
        assert(names_model(names@) =~= bit_len_model().0);
        assert(shapes_model(input@) =~= seq![ArgShape::Positional]);
    }
    single_overload_def(names, input, CallOutput::Call(CallName::BitLength))
}

/// The model of `LOWER`.
pub open spec fn lower_model() -> CallDefModel {
    (seq!["lower"@], seq![(seq![ArgShape::Positional], CallOutput::Call(CallName::Lower))])
}

fn function_call_def_lower() -> (r: CallDef)
    ensures
        r.model() == lower_model(),
{
    let names = vec!["lower"];
    let input = vec![CallSpecArg::Positional];
    proof {
        assert(names_model(names@) =~= lower_model().0);
        assert(shapes_model(input@) =~= seq![ArgShape::Positional]);
    }
    single_overload_def(names, input, CallOutput::Call(CallName::Lower))
}

/// The model of `UPPER`.
pub open spec fn upper_model() -> CallDefModel {
    (seq!["upper"@], seq![(seq![ArgShape::Positional], CallOutput::Call(CallName::Upper))])
}

fn function_call_def_upper() -> (r: CallDef)
    ensures
        r.model() == upper_model(),
{
    let names = vec!["upper"];
    let input = vec![CallSpecArg::Positional];
    proof {
        assert(names_model(names@) =~= upper_model().0);
        assert(shapes_model(input@) =~= seq![ArgShape::Positional]);
    }
    single_overload_def(names, input, CallOutput::Call(CallName::Upper))
}

/// The model of `POSITION`.
pub open spec fn position_model() -> CallDefModel {
    (seq!["position"@], seq![(seq![ArgShape::Positional, ArgShape::Named("in"@)], CallOutput::Call(CallName::Position))])
}

fn function_call_def_position() -> (r: CallDef)
    ensures
        r.model() == position_model(),
{
    let names = vec!["position"];
    let input = vec![CallSpecArg::Positional, CallSpecArg::Named("in")];
    proof {
        assert(names_model(names@) =~= position_model().0);
        assert(shapes_model(input@) =~= seq![ArgShape::Positional, ArgShape::Named("in"@)]);
    }
    single_overload_def(names, input, CallOutput::Call(CallName::Position))
}

/// The model of `NULLIF`.
pub open spec fn nullif_model() -> CallDefModel {
    (seq!["nullif"@], seq![(seq![ArgShape::Positional, ArgShape::Positional], CallOutput::NullIf)])
}

fn function_call_def_nullif() -> (r: CallDef)
    ensures
        r.model() == nullif_model(),
{
    let names = vec!["nullif"];
    let input = vec![CallSpecArg::Positional, CallSpecArg::Positional];
    proof {
        assert(names_model(names@) =~= nullif_model().0);
        assert(shapes_model(input@) =~= seq![ArgShape::Positional, ArgShape::Positional]);
    }
    single_overload_def(names, input, CallOutput::NullIf)
}

/// The model of `EXISTS`.
pub open spec fn exists_model() -> CallDefModel {
    (seq!["exists"@], seq![(seq![ArgShape::Positional], CallOutput::Call(CallName::Exists))])
}

fn function_call_def_exists() -> (r: CallDef)
    ensures
        r.model() == exists_model(),
{
    let names = vec!["exists"];
    let input = vec![CallSpecArg::Positional];
    proof {
        assert(names_model(names@) =~= exists_model().0);
        assert(shapes_model(input@) =~= seq![ArgShape::Positional]);
    }
    single_overload_def(names, input, CallOutput::Call(CallName::Exists))
}

/// The model of `SUBSTRING`.
pub open spec fn substring_model() -> CallDefModel {
    (
        seq!["substring"@],
        seq![
            (seq![ArgShape::Positional, ArgShape::Positional, ArgShape::Positional], CallOutput::Call(CallName::Substring)),
            (seq![ArgShape::Positional, ArgShape::Positional], CallOutput::Call(CallName::Substring)),
            (seq![ArgShape::Positional, ArgShape::Named("from"@), ArgShape::Named("for"@)], CallOutput::Call(CallName::Substring)),
            (seq![ArgShape::Positional, ArgShape::Named("from"@)], CallOutput::Call(CallName::Substring)),
            (seq![ArgShape::Positional, ArgShape::Named("for"@)], CallOutput::CallWith(CallName::Substring, 1, Filler::Zero)),
        ],
    )
}

fn function_call_def_substring() -> (r: CallDef)
    ensures
        r.model() == substring_model(),
{
    let names = vec!["substring"];
    let mut overloads: Vec<CallSpec> = Vec::new();
    let input = vec![CallSpecArg::Positional, CallSpecArg::Positional, CallSpecArg::Positional];
    proof {
        assert(shapes_model(input@) =~= seq![ArgShape::Positional, ArgShape::Positional, ArgShape::Positional]);
    }
    overloads.push(CallSpec::new(input, CallOutput::Call(CallName::Substring)));
    let input = vec![CallSpecArg::Positional, CallSpecArg::Positional];
    proof {
        assert(shapes_model(input@) =~= seq![ArgShape::Positional, ArgShape::Positional]);
    }
    overloads.push(CallSpec::new(input, CallOutput::Call(CallName::Substring)));
    let input = vec![CallSpecArg::Positional, CallSpecArg::Named("from"), CallSpecArg::Named("for")];
    proof {
        assert(shapes_model(input@) =~= seq![ArgShape::Positional, ArgShape::Named("from"@), ArgShape::Named("for"@)]);
    }
    overloads.push(CallSpec::new(input, CallOutput::Call(CallName::Substring)));
    let input = vec![CallSpecArg::Positional, CallSpecArg::Named("from")];
    proof {
        assert(shapes_model(input@) =~= seq![ArgShape::Positional, ArgShape::Named("from"@)]);
    }
    overloads.push(CallSpec::new(input, CallOutput::Call(CallName::Substring)));
    let input = vec![CallSpecArg::Positional, CallSpecArg::Named("for")];
    proof {
        assert(shapes_model(input@) =~= seq![ArgShape::Positional, ArgShape::Named("for"@)]);
    }
    overloads.push(CallSpec::new(input, CallOutput::CallWith(CallName::Substring, 1, Filler::Zero)));
    proof {
        assert(names_model(names@) =~= substring_model().0);
        assert(overloads@.map_values(|s: CallSpec| s.model()) =~= substring_model().1);
    }
    CallDef::new(names, overloads)
}

/// The model of `TRIM`.
pub open spec fn trim_model() -> CallDefModel {
    (
        seq!["trim"@],
        seq![
            (seq![ArgShape::Named("leading"@), ArgShape::Named("from"@)], CallOutput::Call(CallName::LTrim)),
            (seq![ArgShape::Named("trailing"@), ArgShape::Named("from"@)], CallOutput::Call(CallName::RTrim)),
            (seq![ArgShape::Named("both"@), ArgShape::Named("from"@)], CallOutput::Call(CallName::BTrim)),
            (seq![ArgShape::Named("from"@)], CallOutput::CallWith(CallName::BTrim, 0, Filler::Space)),
            (seq![ArgShape::Positional], CallOutput::CallWith(CallName::BTrim, 0, Filler::Space)),
            (seq![ArgShape::Positional, ArgShape::Named("from"@)], CallOutput::Call(CallName::BTrim)),
        ],
    )
}

fn function_call_def_trim() -> (r: CallDef)
    ensures
        r.model() == trim_model(),
{
    let names = vec!["trim"];
    let mut overloads: Vec<CallSpec> = Vec::new();
    let input = vec![CallSpecArg::Named("leading"), CallSpecArg::Named("from")];
    proof {
        assert(shapes_model(input@) =~= seq![ArgShape::Named("leading"@), ArgShape::Named("from"@)]);
    }
    overloads.push(CallSpec::new(input, CallOutput::Call(CallName::LTrim)));
    let input = vec![CallSpecArg::Named("trailing"), CallSpecArg::Named("from")];
    proof {
        assert(shapes_model(input@) =~= seq![ArgShape::Named("trailing"@), ArgShape::Named("from"@)]);
    }
    overloads.push(CallSpec::new(input, CallOutput::Call(CallName::RTrim)));
    let input = vec![CallSpecArg::Named("both"), CallSpecArg::Named("from")];
    proof {
        assert(shapes_model(input@) =~= seq![ArgShape::Named("both"@), ArgShape::Named("from"@)]);
    }
    overloads.push(CallSpec::new(input, CallOutput::Call(CallName::BTrim)));
    let input = vec![CallSpecArg::Named("from")];
    proof {
        assert(shapes_model(input@) =~= seq![ArgShape::Named("from"@)]);
    }
    overloads.push(CallSpec::new(input, CallOutput::CallWith(CallName::BTrim, 0, Filler::Space)));
    let input = vec![CallSpecArg::Positional];
    proof {
        assert(shapes_model(input@) =~= seq![ArgShape::Positional]);
    }
    overloads.push(CallSpec::new(input, CallOutput::CallWith(CallName::BTrim, 0, Filler::Space)));
    let input = vec![CallSpecArg::Positional, CallSpecArg::Named("from")];
    proof {
        assert(shapes_model(input@) =~= seq![ArgShape::Positional, ArgShape::Named("from"@)]);
    }
    overloads.push(CallSpec::new(input, CallOutput::Call(CallName::BTrim)));
    proof {
        assert(names_model(names@) =~= trim_model().0);
        assert(overloads@.map_values(|s: CallSpec| s.model()) =~= trim_model().1);
    }
    CallDef::new(names, overloads)
}

/// The number of overloads of `COALESCE`: one for each count of arguments below it.
pub const COALESCE_OVERLOADS: usize = 15;

/// The model of `COALESCE`: an overload of `n` positional arguments for each `n` below
/// [`COALESCE_OVERLOADS`].
pub open spec fn coalesce_model() -> CallDefModel {
    (
        seq!["coalesce"@],
        Seq::new(
            COALESCE_OVERLOADS as nat,
            |n: int| (Seq::new(n as nat, |i: int| ArgShape::Positional), CallOutput::Coalesce),
        ),
    )
}

fn function_call_def_coalesce() -> (r: CallDef)
    ensures
        r.model() == coalesce_model(),
{
    let names = vec!["coalesce"];
    let mut overloads: Vec<CallSpec> = Vec::new();
    let mut n: usize = 0;
    while n < COALESCE_OVERLOADS
        invariant
            n <= COALESCE_OVERLOADS,
            overloads@.map_values(|s: CallSpec| s.model()) =~= coalesce_model().1.take(n as int),
        decreases COALESCE_OVERLOADS - n,
    {
        let mut input: Vec<CallSpecArg> = Vec::new();
        let mut i: usize = 0;
        while i < n
            invariant
                i <= n,
                shapes_model(input@) =~= Seq::new(i as nat, |k: int| ArgShape::Positional),
            decreases n - i,
        {
            let ghost prev = input@;
            input.push(CallSpecArg::Positional);
            proof {
                assert(shapes_model(input@) =~= shapes_model(prev).push(ArgShape::Positional));
            }
            i = i + 1;
        }
        let ghost before = overloads@;
        overloads.push(CallSpec::new(input, CallOutput::Coalesce));
        proof {
            assert(overloads@.map_values(|s: CallSpec| s.model()) =~= before.map_values(
                |s: CallSpec| s.model(),
            ).push(coalesce_model().1[n as int]));
            assert(coalesce_model().1.take(n + 1) =~= coalesce_model().1.take(n as int).push(
                coalesce_model().1[n as int],
            ));
        }
        n = n + 1;
    }
    proof {
        assert(names_model(names@) =~= coalesce_model().0);
        assert(coalesce_model().1.take(COALESCE_OVERLOADS as int) =~= coalesce_model().1);
    }
    CallDef::new(names, overloads)
}

// ---------------------------------------------------------------------------
// The function symbol table
// ---------------------------------------------------------------------------

/// The models of the built-in functions, in the order they are registered.
pub open spec fn standard_defs() -> Seq<CallDefModel> {
    seq![
        char_len_model(),
        octet_len_model(),
        bit_len_model(),
        lower_model(),
        upper_model(),
        substring_model(),
        position_model(),
        trim_model(),
        coalesce_model(),
        nullif_model(),
        exists_model(),
    ]
}

/// The synonyms a function registers: its primary name for itself, then each other name
/// for the primary name.
pub open spec fn def_synonyms(names: Seq<Seq<char>>) -> Seq<(Seq<char>, Seq<char>)> {
    seq![(names[0], names[0])] + names.skip(1).map_values(|n: Seq<char>| (n, names[0]))
}

/// The synonyms that a sequence of functions registers, in order.
pub open spec fn all_synonyms(defs: Seq<CallDefModel>) -> Seq<(Seq<char>, Seq<char>)>
    decreases defs.len(),
{
    if defs.len() == 0 {
        Seq::empty()
    } else {
        all_synonyms(defs.drop_last()) + def_synonyms(defs.last().0)
    }
}

/// Function symbol table
#[derive(Debug)]
pub struct FnSymTab {
    calls: Vec<(&'static str, CallDef)>,
    synonyms: Vec<(&'static str, &'static str)>,
}

impl FnSymTab {
    /// The synonyms: each name with the primary name it stands for.
    pub closed spec fn synonyms_model(&self) -> Seq<(Seq<char>, Seq<char>)> {
        self.synonyms@.map_values(|p: (&'static str, &'static str)| (p.0@, p.1@))
    }

    /// The functions, each under its primary name.
    pub closed spec fn calls_model(&self) -> Seq<(Seq<char>, CallDef)> {
        self.calls@.map_values(|p: (&'static str, CallDef)| (p.0@, p.1))
    }

    /// The index of the synonym that a name finds, or -1.
    pub open spec fn synonym_index(&self, name: Seq<char>) -> int {
        first_where(
            |i: int| names_match(name, self.synonyms_model()[i].0),
            self.synonyms_model().len() as int,
        )
    }

    /// The index of the function filed under a primary name, or -1.
    pub open spec fn call_index(&self, primary: Seq<char>) -> int {
        first_where(
            |j: int| names_match(primary, self.calls_model()[j].0),
            self.calls_model().len() as int,
        )
    }

    /// The index of the function that a name finds, or -1.
    pub open spec fn resolve(&self, name: Seq<char>) -> int {
        let i = self.synonym_index(name);
        if i < 0 {
            -1
        } else {
            self.call_index(self.synonyms_model()[i].1)
        }
    }

    /// Every registered name, the primary name each stands for, and every primary name
    /// under which a function is filed, is ASCII.
    pub open spec fn ascii_names(&self) -> bool {
        &&& forall|i: int|
            0 <= i < self.synonyms_model().len() ==> is_ascii_text(
                (#[trigger] self.synonyms_model()[i]).0,
            ) && is_ascii_text(self.synonyms_model()[i].1)
        &&& forall|j: int|
            0 <= j < self.calls_model().len() ==> is_ascii_text(
                (#[trigger] self.calls_model()[j]).0,
            )
    }

    /// No two registered names, and no two primary names under which functions are filed,
    /// are equal ignoring ASCII case.
    pub open spec fn distinct_names(&self) -> bool {
        &&& forall|i: int, j: int|
            0 <= i < self.synonyms_model().len() && 0 <= j < self.synonyms_model().len() && i
                != j ==> !ascii_caseless_eq(
                (#[trigger] self.synonyms_model()[i]).0,
                (#[trigger] self.synonyms_model()[j]).0,
            )
        &&& forall|i: int, j: int|
            0 <= i < self.calls_model().len() && 0 <= j < self.calls_model().len() && i != j
                ==> !ascii_caseless_eq(
                (#[trigger] self.calls_model()[i]).0,
                (#[trigger] self.calls_model()[j]).0,
            )
    }

    /// The function that `fn_name` stands for, ignoring case (see [`names_match`]).
    pub fn lookup(&self, fn_name: &str) -> (r: Option<&CallDef>)
        ensures
            r is None <==> self.resolve(fn_name@) < 0,
            r matches Some(d) ==> *d == self.calls_model()[self.resolve(fn_name@)].1,
    {
        let ghost syn = self.synonyms_model();
        let ghost p = |i: int| names_match(fn_name@, syn[i].0);
        proof {
            lemma_first_where(p, syn.len() as int);
        }
        let n = self.synonyms.len();
        let mut i: usize = 0;
        while i < n
            invariant
                n == self.synonyms@.len(),
                syn == self.synonyms_model(),
                syn.len() == n,
                i <= n,
                p == (|i: int| names_match(fn_name@, syn[i].0)),
                forall|j: int| 0 <= j < i ==> !#[trigger] p(j),
            decreases n - i,
        {
            assert(syn[i as int] == (self.synonyms@[i as int].0@, self.synonyms@[i as int].1@));
            if names_equal(fn_name, self.synonyms[i].0) {
                proof {
                    lemma_first_where_is(p, n as int, i as int);
                }
                let primary = self.synonyms[i].1;
                return self.lookup_primary(primary);
            }
            i = i + 1;
        }
        None
    }

    fn lookup_primary(&self, primary: &str) -> (r: Option<&CallDef>)
        ensures
            r is None <==> self.call_index(primary@) < 0,
            r matches Some(d) ==> *d == self.calls_model()[self.call_index(primary@)].1,
    {
        let ghost calls = self.calls_model();
        let ghost p = |j: int| names_match(primary@, calls[j].0);
        proof {
            lemma_first_where(p, calls.len() as int);
        }
        let n = self.calls.len();
        let mut j: usize = 0;
        while j < n
            invariant
                n == self.calls@.len(),
                calls == self.calls_model(),
                calls.len() == n,
                j <= n,
                p == (|j: int| names_match(primary@, calls[j].0)),
                forall|k: int| 0 <= k < j ==> !#[trigger] p(k),
            decreases n - j,
        {
            assert(calls[j as int] == (self.calls@[j as int].0@, self.calls@[j as int].1));
            if names_equal(primary, self.calls[j].0) {
                proof {
                    lemma_first_where_is(p, n as int, j as int);
                }
                return Some(&self.calls[j].1);
            }
            j = j + 1;
        }
        None
    }
}

/// The table of the built-in functions.
pub fn function_call_def() -> (r: FnSymTab)
    ensures
        r.calls_model().map_values(|p: (Seq<char>, CallDef)| p.1.model()) == standard_defs(),
        r.calls_model().map_values(|p: (Seq<char>, CallDef)| p.0) == standard_defs().map_values(
            |d: CallDefModel| d.0[0],
        ),
        r.synonyms_model() == all_synonyms(standard_defs()),
        r.ascii_names(),
        r.distinct_names(),
{
    let mut defs: Vec<CallDef> = Vec::new();
    defs.push(function_call_def_char_len());
    defs.push(function_call_def_octet_len());
    defs.push(function_call_def_bit_len());
    defs.push(function_call_def_lower());
    defs.push(function_call_def_upper());
    defs.push(function_call_def_substring());
    defs.push(function_call_def_position());
    defs.push(function_call_def_trim());
    defs.push(function_call_def_coalesce());
    defs.push(function_call_def_nullif());
    defs.push(function_call_def_exists());
    let ghost all = defs@.map_values(|d: CallDef| d.model());
    assert(all =~= standard_defs());
    let mut calls: Vec<(&'static str, CallDef)> = Vec::new();
    let mut synonyms: Vec<(&'static str, &'static str)> = Vec::new();
    let total = defs.len();
    let mut done: usize = 0;
    while defs.len() > 0
        invariant
            total == all.len(),
            done + defs@.len() == total,
            defs@.map_values(|d: CallDef| d.model()) == all.skip(done as int),
            calls@.map_values(|p: (&'static str, CallDef)| p.1.model()) == all.take(done as int),
            calls@.map_values(|p: (&'static str, CallDef)| p.0@) == all.take(done as int).map_values(
                |d: CallDefModel| d.0[0],
            ),
            synonyms@.map_values(|p: (&'static str, &'static str)| (p.0@, p.1@)) == all_synonyms(
                all.take(done as int),
            ),
        decreases defs@.len(),
    {
        let ghost before_defs = defs@;
        let def = defs.remove(0);
        proof {
            use_type_invariant(&def);
            assert(def.model() == before_defs.map_values(|d: CallDef| d.model())[0]);
            assert(defs@ == before_defs.remove(0));
            assert forall|i: int| #![trigger defs@[i]] 0 <= i < defs@.len() implies defs@.map_values(
                |d: CallDef| d.model(),
            )[i] == all.skip(done + 1)[i] by {
                assert(defs@[i] == before_defs[i + 1]);
                assert(before_defs.map_values(|d: CallDef| d.model())[i + 1] == all.skip(
                    done as int,
                )[i + 1]);
            }
            assert(defs@.map_values(|d: CallDef| d.model()) =~= all.skip(done + 1));
        }
        let ghost m = def.model();
        let ghost syn_before = synonyms@;
        let primary = def.name();
        synonyms.push((primary, primary));
        let mut k: usize = 1;
        while k < def.names.len()
            invariant
                1 <= k <= def.names@.len(),
                m == def.model(),
                primary@ == m.0[0],
                synonyms@.map_values(|p: (&'static str, &'static str)| (p.0@, p.1@)) == syn_before.map_values(
                    |p: (&'static str, &'static str)| (p.0@, p.1@),
                ) + seq![(m.0[0], m.0[0])] + m.0.skip(1).take(k - 1).map_values(
                    |n: Seq<char>| (n, m.0[0]),
                ),
            decreases def.names@.len() - k,
        {
            let ghost sb = synonyms@;
            synonyms.push((def.names[k], primary));
            proof {
                assert(m.0[k as int] == def.names@[k as int]@);
                assert(m.0.skip(1).take(k as int) =~= m.0.skip(1).take(k - 1).push(m.0[k as int]));
                assert(synonyms@.map_values(|p: (&'static str, &'static str)| (p.0@, p.1@))
                    =~= sb.map_values(|p: (&'static str, &'static str)| (p.0@, p.1@)).push(
                    (m.0[k as int], m.0[0]),
                ));
            }
            k = k + 1;
        }
        let ghost calls_before = calls@;
        calls.push((primary, def));
        proof {
            assert(m.0.skip(1).take(m.0.len() - 1) =~= m.0.skip(1));
            assert(all.take(done + 1).drop_last() =~= all.take(done as int));
            assert(all.take(done + 1).last() == m);
            assert(calls@.map_values(|p: (&'static str, CallDef)| p.1.model()) =~= all.take(done + 1));
            assert(calls@.map_values(|p: (&'static str, CallDef)| p.0@) =~= calls_before.map_values(
                |p: (&'static str, CallDef)| p.0@,
            ).push(m.0[0]));
            assert(all.take(done + 1).map_values(|d: CallDefModel| d.0[0]) =~= all.take(
                done as int,
            ).map_values(|d: CallDefModel| d.0[0]).push(m.0[0]));
            assert(calls@.map_values(|p: (&'static str, CallDef)| p.0@) =~= all.take(done + 1).map_values(
                |d: CallDefModel| d.0[0],
            ));
            assert(synonyms@.map_values(|p: (&'static str, &'static str)| (p.0@, p.1@)) =~= all_synonyms(
                all.take(done + 1),
            ));
        }
        done = done + 1;
    }
    proof {
        assert(all.take(total as int) =~= all);
    }
    let r = FnSymTab { calls, synonyms };
    proof {
        assert(r.calls_model().map_values(|p: (Seq<char>, CallDef)| p.1.model()) =~= standard_defs());
        assert(r.calls_model().map_values(|p: (Seq<char>, CallDef)| p.0) =~= standard_defs().map_values(
            |d: CallDefModel| d.0[0],
        ));
        lemma_builtin_synonyms();
        lemma_builtin_names_ascii_and_distinct();
        let keys = r.calls_model().map_values(|p: (Seq<char>, CallDef)| p.0);
        assert(keys == builtin_primaries());
        assert forall|j: int| 0 <= j < r.calls_model().len() implies #[trigger] r.calls_model()[j].0
            == builtin_primaries()[j] by {
            assert(keys[j] == r.calls_model()[j].0);
        }
    }
    r
}

// ---------------------------------------------------------------------------
// Laws of the symbol table
// ---------------------------------------------------------------------------

/// The synonyms of the built-in functions, written out.
pub open spec fn builtin_synonyms() -> Seq<(Seq<char>, Seq<char>)> {
    seq![
        ("char_length"@, "char_length"@),
        ("character_length"@, "char_length"@),
        ("octet_length"@, "octet_length"@),
        ("bit_length"@, "bit_length"@),
        ("lower"@, "lower"@),
        ("upper"@, "upper"@),
        ("substring"@, "substring"@),
        ("position"@, "position"@),
        ("trim"@, "trim"@),
        ("coalesce"@, "coalesce"@),
        ("nullif"@, "nullif"@),
        ("exists"@, "exists"@),
    ]
}

/// The primary names of the built-in functions, in order.
pub open spec fn builtin_primaries() -> Seq<Seq<char>> {
    seq!["char_length"@, "octet_length"@, "bit_length"@, "lower"@, "upper"@, "substring"@, "position"@, "trim"@, "coalesce"@, "nullif"@, "exists"@]
}

pub proof fn lemma_builtin_synonyms()
    ensures
        all_synonyms(standard_defs()) == builtin_synonyms(),
        standard_defs().map_values(|d: CallDefModel| d.0[0]) == builtin_primaries(),
{
    let d = standard_defs();
    assert forall|i: int| 0 <= i <= d.len() implies #[trigger] all_synonyms(d.take(i))
        == builtin_synonyms().take(synonym_count(i)) by {
        lemma_all_synonyms_prefix(i);
    }
    assert(d.take(d.len() as int) =~= d);
    assert(builtin_synonyms().take(12) =~= builtin_synonyms());
    assert(standard_defs().map_values(|d: CallDefModel| d.0[0]) =~= builtin_primaries());
}

/// How many synonyms the first `i` built-in functions register.
spec fn synonym_count(i: int) -> int {
    if i <= 0 {
        0
    } else if i == 1 {
        2
    } else {
        i + 1
    }
}

proof fn lemma_all_synonyms_prefix(i: int)
    requires
        0 <= i <= standard_defs().len(),
    ensures
        all_synonyms(standard_defs().take(i)) == builtin_synonyms().take(synonym_count(i)),
    decreases i,
{
    let d = standard_defs();
    if i == 0 {
        assert(d.take(0) =~= Seq::<CallDefModel>::empty());
        assert(builtin_synonyms().take(0) =~= Seq::<(Seq<char>, Seq<char>)>::empty());
    } else {
        lemma_all_synonyms_prefix(i - 1);
        assert(d.take(i).drop_last() =~= d.take(i - 1));
        let names = d[i - 1].0;
        assert(names.skip(1).map_values(|n: Seq<char>| (n, names[0])) =~= if i == 1 {
            seq![(names[1], names[0])]
        } else {
            Seq::empty()
        });
        assert(builtin_synonyms().take(synonym_count(i)) =~= builtin_synonyms().take(
            synonym_count(i - 1),
        ) + def_synonyms(names));
    }
}

proof fn lemma_ascii_caseless_eq_transitive(a: Seq<char>, b: Seq<char>, c: Seq<char>)
    requires
        ascii_caseless_eq(a, b),
        ascii_caseless_eq(a, c),
    ensures
        ascii_caseless_eq(b, c),
{
    assert forall|i: int| 0 <= i < b.len() implies ascii_fold(#[trigger] b[i]) == ascii_fold(c[i]) by {
        assert(ascii_fold(a[i]) == ascii_fold(b[i]));
        assert(ascii_fold(a[i]) == ascii_fold(c[i]));
    }
}

proof fn lemma_builtin_names_ascii_and_distinct()
    ensures
        forall|i: int|
            0 <= i < builtin_synonyms().len() ==> is_ascii_text((#[trigger] builtin_synonyms()[i]).0)
                && is_ascii_text(builtin_synonyms()[i].1),
        forall|i: int, j: int|
            0 <= i < builtin_synonyms().len() && 0 <= j < builtin_synonyms().len() && i != j
                ==> !ascii_caseless_eq(#[trigger] builtin_synonyms()[i].0, #[trigger] builtin_synonyms()[j].0),
        forall|i: int| 0 <= i < builtin_primaries().len() ==> is_ascii_text(#[trigger] builtin_primaries()[i]),
        forall|i: int, j: int|
            0 <= i < builtin_primaries().len() && 0 <= j < builtin_primaries().len() && i != j
                ==> !ascii_caseless_eq(#[trigger] builtin_primaries()[i], #[trigger] builtin_primaries()[j]),
{
    reveal_strlit("bit_length");
    reveal_strlit("char_length");
    reveal_strlit("character_length");
    reveal_strlit("coalesce");
    reveal_strlit("exists");
    reveal_strlit("lower");
    reveal_strlit("nullif");
    reveal_strlit("octet_length");
    reveal_strlit("position");
    reveal_strlit("substring");
    reveal_strlit("trim");
    reveal_strlit("upper");
    let syn = builtin_synonyms();
    let pr = builtin_primaries();
    assert(syn[4].0[0] == 'l' && syn[5].0[0] == 'u');
    assert(syn[7].0[0] == 'p' && syn[9].0[0] == 'c');
    assert(syn[10].0[0] == 'n' && syn[11].0[0] == 'e');
    assert(pr[3][0] == 'l' && pr[4][0] == 'u');
    assert(pr[6][0] == 'p' && pr[8][0] == 'c');
    assert(pr[9][0] == 'n' && pr[10][0] == 'e');
}

/// Where a query is equal, ignoring ASCII case, to the `k`-th built-in name, the table
/// finds the function filed under that name's primary name.
proof fn lemma_builtin_lookup_at(tab: FnSymTab, q: Seq<char>, k: int)
    requires
        tab.synonyms_model() == builtin_synonyms(),
        tab.calls_model().map_values(|p: (Seq<char>, CallDef)| p.1.model()) == standard_defs(),
        tab.calls_model().map_values(|p: (Seq<char>, CallDef)| p.0) == builtin_primaries(),
        is_ascii_text(q),
        0 <= k < builtin_synonyms().len(),
        ascii_caseless_eq(q, builtin_synonyms()[k].0),
    ensures
        tab.resolve(q) >= 0,
        tab.calls_model()[tab.resolve(q)].0 == builtin_synonyms()[k].1,
        tab.calls_model()[tab.resolve(q)].1.model().0[0] == builtin_synonyms()[k].1,
{
    lemma_builtin_synonyms();
    lemma_builtin_names_ascii_and_distinct();
    let syn = tab.synonyms_model();
    let calls = tab.calls_model();
    let keys = calls.map_values(|p: (Seq<char>, CallDef)| p.0);
    let models = calls.map_values(|p: (Seq<char>, CallDef)| p.1.model());
    // The synonym found is the k-th.
    let p = |i: int| names_match(q, syn[i].0);
    assert forall|j: int| 0 <= j < k implies !#[trigger] p(j) by {
        assert(is_ascii_text(syn[j].0));
        if p(j) {
            assert(ascii_caseless_eq(q, syn[j].0));
            lemma_ascii_caseless_eq_transitive(q, syn[j].0, syn[k].0);
        }
    }
    assert(is_ascii_text(syn[k].0));
    lemma_first_where_is(p, syn.len() as int, k);
    assert(tab.synonym_index(q) == k);
    // The primary name is one of the primaries, found where it is filed.
    let primary = syn[k].1;
    let m: int = choose|m: int| 0 <= m < builtin_primaries().len() && builtin_primaries()[m] == primary;
    assert(0 <= m < builtin_primaries().len() && builtin_primaries()[m] == primary) by {
        if k == 0 || k == 1 {
            assert(builtin_primaries()[0] == primary);
        } else {
            assert(builtin_primaries()[k - 1] == primary);
        }
    }
    let pc = |j: int| names_match(primary, calls[j].0);
    assert(calls[m].0 == keys[m]);
    assert forall|j: int| 0 <= j < m implies !#[trigger] pc(j) by {
        assert(calls[j].0 == keys[j]);
        assert(is_ascii_text(builtin_primaries()[j]));
        assert(is_ascii_text(builtin_primaries()[m]));
        if pc(j) {
            assert(ascii_caseless_eq(primary, calls[j].0));
            assert(ascii_caseless_eq(primary, primary));
            assert(!ascii_caseless_eq(builtin_primaries()[j], builtin_primaries()[m]));
            lemma_ascii_caseless_eq_transitive(primary, calls[j].0, primary);
        }
    }
    assert(pc(m));
    lemma_first_where_is(pc, calls.len() as int, m);
    assert(models[m] == calls[m].1.model());
    assert(standard_defs().map_values(|d: CallDefModel| d.0[0])[m] == builtin_primaries()[m]);
}

/// The table of the built-in functions finds a function exactly under the names it
/// registers, ignoring ASCII case: an ASCII name finds one exactly when it equals, ignoring
/// ASCII case, one of the registered names, and then it finds the function filed under
/// that name's primary name, whose first name is that primary name.
pub proof fn law_builtin_lookup_ignores_case(tab: FnSymTab, q: Seq<char>)
    requires
        tab.synonyms_model() == all_synonyms(standard_defs()),
        tab.calls_model().map_values(|p: (Seq<char>, CallDef)| p.1.model()) == standard_defs(),
        tab.calls_model().map_values(|p: (Seq<char>, CallDef)| p.0) == standard_defs().map_values(
            |d: CallDefModel| d.0[0],
        ),
        is_ascii_text(q),
    ensures
        tab.resolve(q) >= 0 <==> exists|k: int|
            0 <= k < builtin_synonyms().len() && ascii_caseless_eq(
                q,
                (#[trigger] builtin_synonyms()[k]).0,
            ),
        forall|k: int|
            0 <= k < builtin_synonyms().len() && ascii_caseless_eq(
                q,
                (#[trigger] builtin_synonyms()[k]).0,
            ) ==> {
                &&& tab.calls_model()[tab.resolve(q)].0 == builtin_synonyms()[k].1
                &&& tab.calls_model()[tab.resolve(q)].1.model().0[0] == builtin_synonyms()[k].1
            },
{
    lemma_builtin_synonyms();
    lemma_builtin_names_ascii_and_distinct();
    let syn = tab.synonyms_model();
    assert forall|k: int|
        0 <= k < builtin_synonyms().len() && ascii_caseless_eq(
            q,
            (#[trigger] builtin_synonyms()[k]).0,
        ) implies {
        &&& tab.calls_model()[tab.resolve(q)].0 == builtin_synonyms()[k].1
        &&& tab.calls_model()[tab.resolve(q)].1.model().0[0] == builtin_synonyms()[k].1
    } by {
        lemma_builtin_lookup_at(tab, q, k);
    }
    if tab.resolve(q) >= 0 {
        let p = |i: int| names_match(q, syn[i].0);
        lemma_first_where(p, syn.len() as int);
        let i = tab.synonym_index(q);
        assert(p(i));
        assert(is_ascii_text(builtin_synonyms()[i].0));
        assert(ascii_caseless_eq(q, builtin_synonyms()[i].0));
    }
    if exists|k: int|
        0 <= k < builtin_synonyms().len() && ascii_caseless_eq(
            q,
            (#[trigger] builtin_synonyms()[k]).0,
        ) {
        let k = choose|k: int|
            0 <= k < builtin_synonyms().len() && ascii_caseless_eq(
                q,
                (#[trigger] builtin_synonyms()[k]).0,
            );
        lemma_builtin_lookup_at(tab, q, k);
    }
}

/// `COALESCE`, the function the table files under `coalesce`, takes from none to
/// `COALESCE_OVERLOADS - 1` positional arguments, and then builds the `COALESCE` of them,
/// in order; it takes no named argument, nor more arguments.
pub proof fn law_coalesce_arities(args: Seq<CallArgument>)
    ensures
        standard_defs()[8] == coalesce_model(),
        coalesce_model().0 == seq!["coalesce"@],
        (args.len() < COALESCE_OVERLOADS && forall|i: int|
            0 <= i < args.len() ==> (#[trigger] args[i]) is Positional) ==> {
            let k = chosen_overload(coalesce_model(), args);
            &&& k == args.len()
            &&& coalesce_model().1[k].1 == CallOutput::Coalesce
        },
        !(args.len() < COALESCE_OVERLOADS && forall|i: int|
            0 <= i < args.len() ==> (#[trigger] args[i]) is Positional) ==> chosen_overload(
            coalesce_model(),
            args,
        ) < 0,
{
    let m = coalesce_model();
    let p = |k: int| overload_matches(m.1[k].0, args);
    lemma_first_where(p, m.1.len() as int);
    if args.len() < COALESCE_OVERLOADS && forall|i: int|
        0 <= i < args.len() ==> (#[trigger] args[i]) is Positional {
        let n = args.len() as int;
        assert forall|j: int| 0 <= j < n implies !#[trigger] p(j) by {
            assert(m.1[j].0.len() == j);
        }
        assert(p(n)) by {
            assert forall|i: int| 0 <= i < args.len() implies arg_matches(
                m.1[n].0[i],
                #[trigger] args[i],
            ) by {
                assert(args[i] is Positional);
            }
        }
        lemma_first_where_is(p, m.1.len() as int, n);
    } else {
        assert forall|j: int| 0 <= j < m.1.len() implies !#[trigger] p(j) by {
            if m.1[j].0.len() == args.len() {
                let i = choose|i: int| 0 <= i < args.len() && !((#[trigger] args[i]) is Positional);
                assert(!arg_matches(m.1[j].0[i], args[i]));
            }
        }
    }
}

} // verus!
