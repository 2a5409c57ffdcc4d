use vstd::prelude::*;

verus! {

broadcast use vstd::std_specs::vec::axiom_vec_index_decreases, vstd::std_specs::vec::axiom_vec_decreases_to_view, vstd::seq::axiom_seq_index_decreases;

/// One structured value produced by a shell evaluation, as far as this layer
/// reads it: the absent value, an error carrying its message, an opaque scalar
/// already rendered as text, a keyed record (ordered column-name/value pairs),
/// or a list.
#[derive(Debug, PartialEq, Eq)]
pub enum Value {
    Nothing,
    Error(String),
    Scalar(String),
    Record(Vec<(String, Value)>),
    List(Vec<Value>),
}

/// The mathematical shape of a [`Value`]: the same tree with every piece of
/// text taken as a character sequence. Contracts in this crate speak of values
/// through this representation.
pub enum ValRep {
    Nothing,
    Error(Seq<char>),
    Scalar(Seq<char>),
    Record(Seq<(Seq<char>, ValRep)>),
    List(Seq<ValRep>),
}

impl Value {
    /// The representation of this value.
    pub open spec fn rep(self) -> ValRep
        decreases self,
    {
        match self {
            Value::Nothing => ValRep::Nothing,
            Value::Error(m) => ValRep::Error(m@),
            Value::Scalar(s) => ValRep::Scalar(s@),
            Value::Record(pairs) => ValRep::Record(
                Seq::new(
                    pairs@.len(),
                    |i: int|
                        if 0 <= i < pairs@.len() {
                            (pairs[i].0@, pairs[i].1.rep())
                        } else {
                            (Seq::empty(), ValRep::Nothing)
                        },
                ),
            ),
            Value::List(items) => ValRep::List(
                Seq::new(
                    items@.len(),
                    |i: int|
                        if 0 <= i < items@.len() {
                            items[i].rep()
                        } else {
                            ValRep::Nothing
                        },
                ),
            ),
        }
    }

    /// Whether this is the absent value, which the presentation layer renders
    /// as an empty placeholder, distinct from a real empty string.
    pub fn is_nothing(&self) -> (b: bool)
        ensures
            b == (self.rep() is Nothing),
    {
        matches!(self, Value::Nothing)
    }

    /// The text of a scalar (or of an error message), for a renderer that
    /// shows such values as plain text. Structured values have none.
    pub fn text(&self) -> (t: Option<&String>)
        ensures
            match t {
                Some(s) => self.rep() == ValRep::Scalar(s@) || self.rep() == ValRep::Error(s@),
                None => !(self.rep() is Scalar) && !(self.rep() is Error),
            },
    {
        match self {
            Value::Scalar(s) => Some(s),
            Value::Error(m) => Some(m),
            _ => None,
        }
    }
}

impl DeepView for Value {
    type V = ValRep;

    open spec fn deep_view(&self) -> ValRep {
        self.rep()
    }
}

/// A record value's representation is the record of its pairs' deep view.
pub proof fn lemma_record_rep(pairs: Vec<(String, Value)>)
    ensures
        Value::Record(pairs).rep() == ValRep::Record(pairs.deep_view()),
{
    assert(Value::Record(pairs).rep()->Record_0 =~= pairs.deep_view());
}

/// A list value's representation is the list of its items' deep view.
pub proof fn lemma_list_rep(items: Vec<Value>)
    ensures
        Value::List(items).rep() == ValRep::List(items.deep_view()),
{
    assert(Value::List(items).rep()->List_0 =~= items.deep_view());
}

/// Taking the representation keeps the variant of a value.
pub proof fn lemma_rep_variant(v: Value)
    ensures
        (v is Nothing) == (v.rep() is Nothing),
        (v is Error) == (v.rep() is Error),
        (v is Scalar) == (v.rep() is Scalar),
        (v is Record) == (v.rep() is Record),
        (v is List) == (v.rep() is List),
{
}

} // verus!
