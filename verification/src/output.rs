use vstd::prelude::*;

use crate::table::{
    all_records, lemma_table_rep_wf, table_rep, table_wf, Table, TableRep,
};
use crate::value::{lemma_list_rep, lemma_rep_variant, ValRep, Value};

verus! {

/// The failure met while draining a byte stream, carrying its message.
#[derive(Debug, PartialEq, Eq)]
pub struct StreamError {
    pub message: String,
}

/// One evaluation's raw pipeline result, fully materialized: the engine hands
/// back nothing, a single value, a stream of values (drained into a sequence),
/// or a byte stream (drained into bytes, or into the failure that cut the
/// drain short).
#[derive(Debug, PartialEq, Eq)]
pub enum RawResult {
    Empty,
    Value(Value),
    ListStream(Vec<Value>),
    ByteStream(Result<Vec<u8>, StreamError>),
}

/// The display model handed to a renderer: exactly one of no result, a single
/// non-list value, a list that is not uniformly records, a table synthesized
/// from a uniform list of records, or raw bytes (or the failure met while
/// reading them).
#[derive(Debug, PartialEq, Eq)]
pub enum Output {
    Empty,
    Value(Value),
    List(Vec<Value>),
    Table(Table),
    Raw(Result<Vec<u8>, StreamError>),
}

/// The mathematical shape of a [`RawResult`].
pub enum RawRep {
    Empty,
    Value(ValRep),
    ListStream(Seq<ValRep>),
    ByteStream(Result<Seq<u8>, Seq<char>>),
}

/// The mathematical shape of an [`Output`].
pub enum OutRep {
    Empty,
    Value(ValRep),
    List(Seq<ValRep>),
    Table(TableRep),
    Raw(Result<Seq<u8>, Seq<char>>),
}

impl RawResult {
    /// The representation of this raw result.
    pub open spec fn rep(self) -> RawRep {
        match self {
            RawResult::Empty => RawRep::Empty,
            RawResult::Value(v) => RawRep::Value(v.rep()),
            RawResult::ListStream(items) => RawRep::ListStream(items.deep_view()),
            RawResult::ByteStream(bytes) => RawRep::ByteStream(
                match bytes {
                    Ok(b) => Ok(b@),
                    Err(e) => Err(e.message@),
                },
            ),
        }
    }
}

impl Output {
    /// The representation of this output.
    pub open spec fn rep(self) -> OutRep {
        match self {
            Output::Empty => OutRep::Empty,
            Output::Value(v) => OutRep::Value(v.rep()),
            Output::List(items) => OutRep::List(items.deep_view()),
            Output::Table(t) => OutRep::Table(t.rep()),
            Output::Raw(bytes) => OutRep::Raw(
                match bytes {
                    Ok(b) => Ok(b@),
                    Err(e) => Err(e.message@),
                },
            ),
        }
    }
}

/// What a materialized list of values classifies to: a table when every
/// element is a keyed record, the list itself otherwise.
pub open spec fn classify_list_rep(items: Seq<ValRep>) -> OutRep {
    if all_records(items) {
        OutRep::Table(table_rep(items))
    } else {
        OutRep::List(items)
    }
}

/// What a raw pipeline result classifies to. A single value that is itself a
/// list is unwrapped one level and treated as a list; a stream of values is
/// treated as the list it drained to; bytes pass through unchanged.
pub open spec fn classify_rep(raw: RawRep) -> OutRep {
    match raw {
        RawRep::Empty => OutRep::Empty,
        RawRep::Value(v) => if v is List {
            classify_list_rep(v->List_0)
        } else {
            OutRep::Value(v)
        },
        RawRep::ListStream(items) => classify_list_rep(items),
        RawRep::ByteStream(bytes) => OutRep::Raw(bytes),
    }
}

/// Classify a materialized list of values: synthesize a table when every
/// element is a keyed record, keep the list as it is otherwise. Only the top
/// level is inspected; lists inside elements are never turned into tables.
pub fn from_values(values: Vec<Value>) -> (out: Output)
    ensures
        out.rep() == classify_list_rep(values.deep_view()),
{
    let ghost dv = values.deep_view();
    let n = values.len();
    let mut i: usize = 0;
    while i < n
        invariant
            n == values@.len(),
            dv == values.deep_view(),
            i <= n,
            forall|q: int| 0 <= q < i ==> (#[trigger] dv[q]) is Record,
        decreases n - i,
    {
        let uniform = matches!(&values[i], Value::Record(_));
        proof {
            lemma_rep_variant(values[i as int]);
        }
        if !uniform {
            proof {
                assert(!(dv[i as int] is Record));
            }
            return Output::List(values);
        }
        i += 1;
    }
    proof {
        assert(all_records(dv));
    }
    Output::Table(Table::synthesize(values))
}

/// Classify one raw pipeline result into its display model. Total: every raw
/// result maps to exactly one output, and a failed byte stream becomes a
/// displayable raw failure, never an error of this function.
pub fn classify(raw: RawResult) -> (out: Output)
    ensures
        out.rep() == classify_rep(raw.rep()),
{
    match raw {
        RawResult::Empty => Output::Empty,
        RawResult::Value(v) => match v {
            Value::List(items) => {
                proof {
                    lemma_list_rep(items);
                }
                from_values(items)
            },
            other => {
                proof {
                    lemma_rep_variant(other);
                }
                Output::Value(other)
            },
        },
        RawResult::ListStream(items) => from_values(items),
        RawResult::ByteStream(bytes) => Output::Raw(bytes),
    }
}

/// Classification is deterministic in the logical content alone: raw results
/// of the same shape and content classify to the same output shape and
/// content, so re-running it on an equivalent raw result gives an equal
/// output.
pub proof fn lemma_classify_deterministic(a: RawResult, b: RawResult)
    requires
        a.rep() == b.rep(),
    ensures
        classify_rep(a.rep()) == classify_rep(b.rep()),
{
}

/// A list whose elements are not uniformly keyed records classifies to the
/// list itself, never to a table.
pub proof fn lemma_mixed_list_stays_list(items: Seq<ValRep>)
    requires
        !all_records(items),
    ensures
        classify_rep(RawRep::ListStream(items)) == OutRep::List(items),
{
}

/// An empty list of records classifies to a table with an empty header and no
/// rows, distinct from the empty output.
pub proof fn lemma_empty_list_is_empty_table()
    ensures
        classify_rep(RawRep::ListStream(Seq::empty())) == OutRep::Table(
            TableRep { header: Seq::empty(), rows: Seq::empty() },
        ),
{
    assert(table_rep(Seq::empty()) =~= TableRep { header: Seq::empty(), rows: Seq::empty() });
}

/// A list holding a single record classifies to a table with exactly one row,
/// never to a bare value.
pub proof fn lemma_single_record_is_one_row_table(items: Seq<ValRep>)
    requires
        items.len() == 1,
        items[0] is Record,
    ensures
        classify_rep(RawRep::ListStream(items)) is Table,
        classify_rep(RawRep::ListStream(items))->Table_0.rows.len() == 1,
{
}

/// A byte stream that failed mid-drain classifies to a raw failure carrying
/// that failure; no bytes read before it are retained.
pub proof fn lemma_failed_stream_is_raw_failure(e: Seq<char>)
    ensures
        classify_rep(RawRep::ByteStream(Err(e))) == OutRep::Raw(Err(e)),
{
}

/// Every synthesized classification that yields a table yields one satisfying
/// the table invariant.
pub proof fn lemma_classify_table_wf(raw: RawRep)
    ensures
        classify_rep(raw) is Table ==> table_wf(classify_rep(raw)->Table_0),
{
    if classify_rep(raw) is Table {
        match raw {
            RawRep::Value(v) => {
                lemma_table_rep_wf(v->List_0);
            },
            RawRep::ListStream(items) => {
                lemma_table_rep_wf(items);
            },
            _ => {
            },
        }
    }
}

} // verus!
