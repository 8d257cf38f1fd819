use vstd::prelude::*;

verus! {

broadcast use vstd::string::group_string_axioms;

/// A PartiQL value as the operators of this library see it.
#[derive(Debug, PartialEq, Eq, Hash)]
pub enum Value {
    Null,
    Missing,
    Boolean(bool),
    Integer(i64),
    String(String),
    List(Vec<Value>),
    Bag(Vec<Value>),
    Tuple(Tuple),
}

/// A tuple: an ordered list of attribute/value pairs.
#[derive(Debug, PartialEq, Eq, Hash)]
pub struct Tuple {
    pub pairs: Vec<(String, Value)>,
}

/// The name of a variable in the bindings of an expression.
#[derive(Clone, Debug, PartialEq, Eq, Hash)]
pub enum BindingsName {
    CaseSensitive(String),
    CaseInsensitive(String),
}

/// The mathematical model of a [`Value`]: strings are character sequences,
/// collections are sequences.
pub enum Datum {
    Null,
    Missing,
    Boolean(bool),
    Integer(int),
    Str(Seq<char>),
    List(Seq<Datum>),
    Bag(Seq<Datum>),
    Tuple(Seq<(Seq<char>, Datum)>),
}

pub open spec fn value_view(v: Value) -> Datum
    decreases v, 1int,
{
    match v {
        Value::Null => Datum::Null,
        Value::Missing => Datum::Missing,
        Value::Boolean(b) => Datum::Boolean(b),
        Value::Integer(i) => Datum::Integer(i as int),
        Value::String(s) => Datum::Str(s@),
        Value::List(l) => Datum::List(values_view(l@)),
        Value::Bag(l) => Datum::Bag(values_view(l@)),
        Value::Tuple(t) => Datum::Tuple(pairs_view(t.pairs@)),
    }
}

pub open spec fn values_view(s: Seq<Value>) -> Seq<Datum>
    decreases s, 0int,
{
    if s.len() == 0 {
        Seq::empty()
    } else {
        values_view(s.drop_last()).push(value_view(s.last()))
    }
}

pub open spec fn pairs_view(s: Seq<(String, Value)>) -> Seq<(Seq<char>, Datum)>
    decreases s, 0int,
{
    if s.len() == 0 {
        Seq::empty()
    } else {
        pairs_view(s.drop_last()).push((s.last().0@, value_view(s.last().1)))
    }
}


pub proof fn lemma_values_view(s: Seq<Value>)
    ensures
        values_view(s).len() == s.len(),
        forall|i: int| 0 <= i < s.len() ==> #[trigger] values_view(s)[i] == value_view(s[i]),
    decreases s.len(),
{
    if s.len() > 0 {
        lemma_values_view(s.drop_last());
    }
}

pub proof fn lemma_pairs_view(s: Seq<(String, Value)>)
    ensures
        pairs_view(s).len() == s.len(),
        forall|i: int| 0 <= i < s.len() ==> #[trigger] pairs_view(s)[i] == (s[i].0@, value_view(s[i].1)),
    decreases s.len(),
{
    if s.len() > 0 {
        lemma_pairs_view(s.drop_last());
    }
}

/// Two sequences of values have the same model when their elements have.
pub proof fn lemma_values_view_ext(a: Seq<Value>, b: Seq<Value>)
    requires
        a.len() == b.len(),
        forall|i: int| 0 <= i < a.len() ==> value_view(#[trigger] a[i]) == value_view(b[i]),
    ensures
        values_view(a) == values_view(b),
{
    lemma_values_view(a);
    lemma_values_view(b);
    assert(values_view(a) =~= values_view(b));
}

pub proof fn lemma_pairs_view_ext(a: Seq<(String, Value)>, b: Seq<(String, Value)>)
    requires
        a.len() == b.len(),
        forall|i: int| 0 <= i < a.len() ==> (#[trigger] a[i]).0@ == b[i].0@ && value_view(a[i].1) == value_view(b[i].1),
    ensures
        pairs_view(a) == pairs_view(b),
{
    lemma_pairs_view(a);
    lemma_pairs_view(b);
    assert(pairs_view(a) =~= pairs_view(b));
}

/// A copy of a value, with the same model.
pub fn copy_value(v: &Value) -> (r: Value)
    ensures
        value_view(r) == value_view(*v),
    decreases v, 1int,
{
    match v {
        Value::Null => Value::Null,
        Value::Missing => Value::Missing,
        Value::Boolean(b) => Value::Boolean(*b),
        Value::Integer(i) => Value::Integer(*i),
        Value::String(s) => Value::String(s.clone()),
        Value::List(l) => Value::List(copy_values(l)),
        Value::Bag(l) => Value::Bag(copy_values(l)),
        Value::Tuple(t) => Value::Tuple(Tuple { pairs: copy_pairs(&t.pairs) }),
    }
}

/// A copy of a sequence of values, with the same model.
pub fn copy_values(s: &Vec<Value>) -> (r: Vec<Value>)
    ensures
        values_view(r@) == values_view(s@),
    decreases s, 0int,
{
    let mut r: Vec<Value> = Vec::new();
    let mut i: usize = 0;
    while i < s.len()
        invariant
            i <= s.len(),
            r@.len() == i,
            forall|j: int| 0 <= j < i ==> value_view(#[trigger] r@[j]) == value_view(s@[j]),
        decreases s.len() - i,
    {
        proof {
            assert(decreases_to!(s => s@[i as int]));
        }
        let c = copy_value(&s[i]);
        r.push(c);
        i = i + 1;
    }
    proof {
        lemma_values_view_ext(r@, s@);
    }
    r
}

/// A copy of a sequence of attribute/value pairs, with the same model.
pub fn copy_pairs(s: &Vec<(String, Value)>) -> (r: Vec<(String, Value)>)
    ensures
        pairs_view(r@) == pairs_view(s@),
    decreases s, 0int,
{
    let mut r: Vec<(String, Value)> = Vec::new();
    let mut i: usize = 0;
    while i < s.len()
        invariant
            i <= s.len(),
            r@.len() == i,
            forall|j: int| 0 <= j < i ==> (#[trigger] r@[j]).0@ == s@[j].0@ && value_view(r@[j].1) == value_view(s@[j].1),
        decreases s.len() - i,
    {
        proof {
            assert(decreases_to!(s => s@[i as int]));
            assert(decreases_to!(s@[i as int] => s@[i as int].1));
        }
        let k = s[i].0.clone();
        let c = copy_value(&s[i].1);
        r.push((k, c));
        i = i + 1;
    }
    proof {
        lemma_pairs_view_ext(r@, s@);
    }
    r
}


impl View for Value {
    type V = Datum;

    open spec fn view(&self) -> Datum {
        value_view(*self)
    }
}

impl View for Tuple {
    type V = Seq<(Seq<char>, Datum)>;

    open spec fn view(&self) -> Seq<(Seq<char>, Datum)> {
        pairs_view(self.pairs@)
    }
}

/// The attribute name given to a value that is not a tuple when it is seen as one.
pub open spec fn fresh_key() -> Seq<char> {
    seq!['_', '1']
}

/// A value seen as a tuple: a tuple is itself, any other value `v` is `{'_1': v}`.
pub open spec fn coerce_to_tuple(d: Datum) -> Seq<(Seq<char>, Datum)> {
    match d {
        Datum::Tuple(p) => p,
        _ => seq![(fresh_key(), d)],
    }
}

/// Only a list has an order.
pub open spec fn is_ordered(d: Datum) -> bool {
    d is List
}

/// What iterating over a value yields: the elements of a list or bag, else the value alone.
pub open spec fn elements(d: Datum) -> Seq<Datum> {
    match d {
        Datum::List(s) => s,
        Datum::Bag(s) => s,
        _ => seq![d],
    }
}

pub proof fn lemma_values_view_push(s: Seq<Value>, v: Value)
    ensures
        values_view(s.push(v)) == values_view(s).push(value_view(v)),
{
    assert(s.push(v).drop_last() =~= s);
}

pub proof fn lemma_pairs_view_push(s: Seq<(String, Value)>, p: (String, Value))
    ensures
        pairs_view(s.push(p)) == pairs_view(s).push((p.0@, value_view(p.1))),
{
    assert(s.push(p).drop_last() =~= s);
}

pub proof fn lemma_values_view_concat(a: Seq<Value>, b: Seq<Value>)
    ensures
        values_view(a + b) == values_view(a) + values_view(b),
{
    lemma_values_view(a);
    lemma_values_view(b);
    lemma_values_view(a + b);
    assert(values_view(a + b) =~= values_view(a) + values_view(b));
}

pub proof fn lemma_pairs_view_concat(a: Seq<(String, Value)>, b: Seq<(String, Value)>)
    ensures
        pairs_view(a + b) == pairs_view(a) + pairs_view(b),
{
    lemma_pairs_view(a);
    lemma_pairs_view(b);
    lemma_pairs_view(a + b);
    assert(pairs_view(a + b) =~= pairs_view(a) + pairs_view(b));
}

impl Clone for Value {
    fn clone(&self) -> (r: Self)
        ensures
            r@ == self@,
    {
        copy_value(self)
    }
}

impl Clone for Tuple {
    fn clone(&self) -> (r: Self)
        ensures
            r@ == self@,
    {
        Tuple { pairs: copy_pairs(&self.pairs) }
    }
}

impl Tuple {
    /// The empty tuple.
    pub fn new() -> (r: Tuple)
        ensures
            r@ == Seq::<(Seq<char>, Datum)>::empty(),
    {
        Tuple { pairs: Vec::new() }
    }

    /// The tuple `{k: v}`.
    pub fn singleton(k: &str, v: Value) -> (r: Tuple)
        ensures
            r@ == seq![(k@, v@)],
    {
        let mut r = Tuple::new();
        r.insert(k, v);
        r
    }

    /// Adds the pair `(k, v)` after the tuple's pairs.
    pub fn insert(&mut self, k: &str, v: Value)
        ensures
            final(self)@ == old(self)@.push((k@, v@)),
    {
        let key = k.to_string();
        proof {
            lemma_pairs_view_push(self.pairs@, (key, v));
        }
        self.pairs.push((key, v));
    }

    /// The concatenation `self || other`: the pairs of `self`, then those of `other`.
    pub fn tuple_concat(&self, other: &Tuple) -> (r: Tuple)
        ensures
            r@ == self@ + other@,
    {
        let mut pairs = copy_pairs(&self.pairs);
        let mut tail = copy_pairs(&other.pairs);
        let ghost a = pairs@;
        let ghost b = tail@;
        pairs.append(&mut tail);
        proof {
            lemma_pairs_view_concat(a, b);
        }
        Tuple { pairs }
    }

    /// The values of the tuple, in order.
    pub fn into_values(self) -> (r: Vec<Value>)
        ensures
            values_view(r@) == self@.map_values(|p: (Seq<char>, Datum)| p.1),
    {
        let mut r: Vec<Value> = Vec::new();
        let n = self.pairs.len();
        let mut i: usize = 0;
        while i < n
            invariant
                n == self.pairs@.len(),
                i <= n,
                r@.len() == i,
                forall|j: int| 0 <= j < i ==> value_view(#[trigger] r@[j]) == value_view(self.pairs@[j].1),
            decreases n - i,
        {
            r.push(copy_value(&self.pairs[i].1));
            i = i + 1;
        }
        proof {
            lemma_values_view(r@);
            lemma_pairs_view(self.pairs@);
            assert(values_view(r@) =~= self@.map_values(|p: (Seq<char>, Datum)| p.1));
        }
        r
    }

    /// The attribute/value pairs of the tuple, in order.
    pub fn into_pairs(self) -> (r: Vec<(String, Value)>)
        ensures
            pairs_view(r@) == self@,
    {
        self.pairs
    }
}

impl Value {
    /// This value seen as a tuple (see [`coerce_to_tuple`]).
    pub fn coerce_to_tuple(self) -> (r: Tuple)
        ensures
            r@ == coerce_to_tuple(self@),
    {
        let ghost d = self@;
        match self {
            Value::Tuple(t) => {
                assert(d == Datum::Tuple(t@));
                t
            },
            other => {
                let r = Tuple::singleton("_1", other);
                proof {
                    reveal_strlit("_1");
                    assert("_1"@ =~= fresh_key());
                }
                r
            },
        }
    }

    /// A copy of this value seen as a tuple.
    pub fn as_tuple_ref(&self) -> (r: Tuple)
        ensures
            r@ == coerce_to_tuple(self@),
    {
        match self {
            Value::Tuple(t) => t.clone(),
            _ => self.clone().coerce_to_tuple(),
        }
    }

    /// Whether the value is ordered, that is, a list.
    pub fn is_ordered(&self) -> (r: bool)
        ensures
            r == is_ordered(self@),
    {
        matches!(self, Value::List(_))
    }

    /// What iterating over the value yields (see [`elements`]).
    pub fn into_elements(self) -> (r: Vec<Value>)
        ensures
            values_view(r@) == elements(self@),
    {
        match self {
            Value::List(l) => l,
            Value::Bag(l) => l,
            other => {
                let ghost d = other@;
                let mut r: Vec<Value> = Vec::new();
                r.push(other);
                proof {
                    lemma_values_view_push(Seq::empty(), other);
                    assert(values_view(Seq::<Value>::empty()) =~= Seq::<Datum>::empty());
                    assert(Seq::<Value>::empty().push(other) =~= r@);
                }
                r
            },
        }
    }
}

} // verus!
