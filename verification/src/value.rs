use crate::field::FieldElement;
use crate::lex::str_lt;
use vstd::prelude::*;

verus! {

/// The mathematical shape of a circuit value: scalars as unbounded
/// integers, text as character sequences, records as key-ordered
/// association sequences.
pub enum GValue {
    Scalar(nat),
    Sequence(Seq<GValue>),
    Text(Seq<char>),
    Record(Seq<(Seq<char>, GValue)>),
}

/// A typed circuit value: the shape in which every input reaches a circuit
/// function and every output leaves it.
///
/// A `Record` holds its entries sorted by key (see [`Value::wf`]), so a
/// record is determined by the key-to-value mapping it denotes.
#[derive(Debug, PartialEq, Eq)]
pub enum Value {
    /// A single element of the scalar prime field.
    Scalar(FieldElement),
    /// An ordered list of values; order is significant and preserved.
    Sequence(Vec<Value>),
    /// Opaque string content, never reinterpreted as numeric data.
    Text(String),
    /// A struct-like value: field name to value, keys unique and sorted.
    Record(Vec<(String, Value)>),
}

/// The keys of an association sequence are strictly ascending in the
/// lexicographic order (so in particular unique).
pub open spec fn keys_sorted(entries: Seq<(Seq<char>, GValue)>) -> bool {
    forall|i: int, j: int|
        0 <= i < j < entries.len() ==> str_lt((#[trigger] entries[i]).0, (#[trigger] entries[j]).0)
}

/// The keys of a record's entry list are strictly ascending in the
/// lexicographic order.
pub open spec fn entries_sorted(es: Seq<(String, Value)>) -> bool {
    forall|i: int, j: int|
        0 <= i < j < es.len() ==> str_lt((#[trigger] es[i]).0@, (#[trigger] es[j]).0@)
}

/// The models of the elements of a list of values, in order.
pub open spec fn model_seq(vs: Seq<Value>) -> Seq<GValue>
    decreases vs,
{
    if vs.len() == 0 {
        Seq::empty()
    } else {
        seq![vs[0].model()] + model_seq(vs.drop_first())
    }
}

/// The models of the entries of a record, in order: each key as its
/// character sequence, each value as its model.
pub open spec fn model_entries(es: Seq<(String, Value)>) -> Seq<(Seq<char>, GValue)>
    decreases es,
{
    if es.len() == 0 {
        Seq::empty()
    } else {
        seq![(es[0].0@, es[0].1.model())] + model_entries(es.drop_first())
    }
}

/// `model_seq` maps the list pointwise.
pub proof fn lemma_model_seq_pointwise(vs: Seq<Value>)
    ensures
        model_seq(vs).len() == vs.len(),
        forall|i: int| 0 <= i < vs.len() ==> model_seq(vs)[i] == (#[trigger] vs[i]).model(),
    decreases vs,
{
    if vs.len() > 0 {
        lemma_model_seq_pointwise(vs.drop_first());
        assert forall|i: int| 0 <= i < vs.len() implies model_seq(vs)[i] == (#[trigger] vs[i]).model() by {
            if i > 0 {
                assert(model_seq(vs)[i] == model_seq(vs.drop_first())[i - 1]);
                assert(vs.drop_first()[i - 1] == vs[i]);
            }
        }
    }
}

/// `model_entries` maps the entries pointwise.
pub proof fn lemma_model_entries_pointwise(es: Seq<(String, Value)>)
    ensures
        model_entries(es).len() == es.len(),
        forall|i: int|
            0 <= i < es.len() ==> model_entries(es)[i] == ((#[trigger] es[i]).0@, es[i].1.model()),
    decreases es,
{
    if es.len() > 0 {
        lemma_model_entries_pointwise(es.drop_first());
        assert forall|i: int|
            0 <= i < es.len() implies model_entries(es)[i] == ((#[trigger] es[i]).0@, es[i].1.model()) by {
            if i > 0 {
                assert(model_entries(es)[i] == model_entries(es.drop_first())[i - 1]);
                assert(es.drop_first()[i - 1] == es[i]);
            }
        }
    }
}

impl Value {
    /// The mathematical value this tree denotes.
    pub open spec fn model(self) -> GValue
        decreases self,
    {
        match self {
            Value::Scalar(f) => GValue::Scalar(f.value()),
            Value::Sequence(vs) => GValue::Sequence(model_seq(vs@)),
            Value::Text(s) => GValue::Text(s@),
            Value::Record(es) => GValue::Record(model_entries(es@)),
        }
    }

    /// Well-formed: every scalar is in canonical reduced form and every
    /// record keeps its entries strictly sorted by key.
    pub open spec fn wf(self) -> bool
        decreases self,
    {
        match self {
            Value::Scalar(f) => f.wf(),
            Value::Sequence(vs) => forall|i: int| 0 <= i < vs@.len() ==> (#[trigger] vs@[i]).wf(),
            Value::Text(_) => true,
            Value::Record(es) => {
                &&& forall|i: int| 0 <= i < es@.len() ==> (#[trigger] es@[i].1).wf()
                &&& entries_sorted(es@)
            },
        }
    }
}

} // verus!
