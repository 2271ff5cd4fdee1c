//! The runtime value lattice and its mathematical model.

use vstd::prelude::*;

verus! {

broadcast use vstd::std_specs::vec::group_vec_axioms;

/// A runtime value of the language. `Sequence` doubles as literal list
/// data and as application syntax whose first element names an operation.
#[derive(Debug, PartialEq)]
pub enum Value {
    /// The empty/void value.
    Unit,
    /// A signed 64-bit integer literal.
    Number(i64),
    /// A reference to a variable by name; not a normal form until resolved.
    Symbol(String),
    /// An ordered, possibly empty list of sub-expressions.
    Sequence(Vec<Value>),
}

/// The mathematical model of a `Value`: names become character sequences
/// and lists become `Seq`s, so contracts can speak of structure alone.
pub enum SpecValue {
    Unit,
    Number(i64),
    Symbol(Seq<char>),
    Sequence(Seq<SpecValue>),
}

/// The variant of a `Value`, used by errors to name what was found.
#[derive(Debug, PartialEq, Eq, Clone, Copy, Structural)]
pub enum ValueKind {
    Unit,
    Number,
    Symbol,
    Sequence,
}

/// The model of a single value.
pub open spec fn model_of(v: Value) -> SpecValue
    decreases v,
{
    match v {
        Value::Unit => SpecValue::Unit,
        Value::Number(n) => SpecValue::Number(n),
        Value::Symbol(name) => SpecValue::Symbol(name@),
        Value::Sequence(items) => SpecValue::Sequence(models_of(items@)),
    }
}

/// The models of a sequence of values, element by element.
pub open spec fn models_of(s: Seq<Value>) -> Seq<SpecValue>
    decreases s,
{
    if s.len() == 0 {
        Seq::empty()
    } else {
        models_of(s.drop_last()).push(model_of(s.last()))
    }
}

impl DeepView for Value {
    type V = SpecValue;

    open spec fn deep_view(&self) -> SpecValue {
        model_of(*self)
    }
}

/// Element `i` of `models_of(s)` is the model of element `i` of `s`.
pub proof fn lemma_models_of(s: Seq<Value>)
    ensures
        models_of(s).len() == s.len(),
        forall|i: int| 0 <= i < s.len() ==> models_of(s)[i] == model_of(s[i]),
    decreases s.len(),
{
    if s.len() > 0 {
        lemma_models_of(s.drop_last());
    }
}

/// The variant of a model value.
pub open spec fn spec_kind_of(v: SpecValue) -> ValueKind {
    match v {
        SpecValue::Unit => ValueKind::Unit,
        SpecValue::Number(_) => ValueKind::Number,
        SpecValue::Symbol(_) => ValueKind::Symbol,
        SpecValue::Sequence(_) => ValueKind::Sequence,
    }
}

impl Value {
    /// The variant of this value.
    pub fn kind(&self) -> (k: ValueKind)
        ensures
            k == spec_kind_of(self.deep_view()),
    {
        match self {
            Value::Unit => ValueKind::Unit,
            Value::Number(_) => ValueKind::Number,
            Value::Symbol(_) => ValueKind::Symbol,
            Value::Sequence(_) => ValueKind::Sequence,
        }
    }
}

/// Structural copy of a value: the copy has the same model as the original.
fn clone_value(v: &Value) -> (res: Value)
    ensures
        res.deep_view() == v.deep_view(),
    decreases v,
{
    match v {
        Value::Unit => Value::Unit,
        Value::Number(n) => Value::Number(*n),
        Value::Symbol(name) => Value::Symbol(name.clone()),
        Value::Sequence(items) => {
            let mut copied: Vec<Value> = Vec::new();
            let mut i: usize = 0;
            while i < items.len()
                invariant
                    i <= items.len(),
                    copied@.len() == i as int,
                    v is Sequence,
                    items == &v->Sequence_0,
                    forall|j: int|
                        0 <= j < i as int ==> copied@[j].deep_view() == items@[j].deep_view(),
                decreases items.len() - i,
            {
                proof {
                    assert(decreases_to!(*v => v->Sequence_0));
                    assert(decreases_to!(v->Sequence_0 => v->Sequence_0@));
                    assert(decreases_to!(v->Sequence_0@ => v->Sequence_0@[i as int]));
                }
                copied.push(clone_value(&items[i]));
                i = i + 1;
            }
            proof {
                lemma_models_of(copied@);
                lemma_models_of(items@);
                assert(models_of(copied@) =~= models_of(items@));
            }
            Value::Sequence(copied)
        },
    }
}

impl Clone for Value {
    /// Structural copy: the copy has the same model as the original.
    fn clone(&self) -> (res: Self)
        ensures
            res.deep_view() == self.deep_view(),
    {
        clone_value(self)
    }
}

} // verus!
