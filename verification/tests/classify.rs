use pipe_dream::output::{classify, Output, RawResult, StreamError};
use pipe_dream::value::Value;

fn scalar(text: &str) -> Value {
    Value::Scalar(text.to_string())
}

fn record(pairs: &[(&str, &str)]) -> Value {
    Value::Record(pairs.iter().map(|(c, v)| (c.to_string(), scalar(v))).collect())
}

#[test]
fn empty_signal_is_empty() {
    assert_eq!(classify(RawResult::Empty), Output::Empty);
}

#[test]
fn single_non_list_value_is_value() {
    let out = classify(RawResult::Value(scalar("42")));
    assert_eq!(out, Output::Value(scalar("42")));
}

#[test]
fn single_nothing_is_value() {
    let out = classify(RawResult::Value(Value::Nothing));
    assert_eq!(out, Output::Value(Value::Nothing));
}

#[test]
fn list_valued_single_value_is_unwrapped_once() {
    let raw = RawResult::Value(Value::List(vec![record(&[("a", "1")])]));
    match classify(raw) {
        Output::Table(t) => {
            assert_eq!(t.header(), &vec!["a".to_string()]);
            assert_eq!(t.rows(), &vec![vec![scalar("1")]]);
        }
        other => panic!("expected a table, got {other:?}"),
    }
}

#[test]
fn doubly_nested_list_stays_a_list_element() {
    // Only one level is unwrapped: a list inside the unwrapped list is an
    // ordinary element, never recursively classified.
    let raw = RawResult::Value(Value::List(vec![Value::List(vec![scalar("1")])]));
    match classify(raw) {
        Output::List(items) => assert_eq!(items, vec![Value::List(vec![scalar("1")])]),
        other => panic!("expected a list, got {other:?}"),
    }
}

#[test]
fn mixed_list_stays_a_list() {
    let raw = RawResult::ListStream(vec![record(&[("a", "1")]), scalar("2")]);
    match classify(raw) {
        Output::List(items) => {
            assert_eq!(items, vec![record(&[("a", "1")]), scalar("2")]);
        }
        other => panic!("expected a list, got {other:?}"),
    }
}

#[test]
fn empty_stream_is_an_empty_table_not_empty() {
    let out = classify(RawResult::ListStream(vec![]));
    assert_ne!(out, Output::Empty);
    match out {
        Output::Table(t) => {
            assert!(t.header().is_empty());
            assert!(t.rows().is_empty());
        }
        other => panic!("expected a table, got {other:?}"),
    }
}

#[test]
fn single_record_list_is_a_one_row_table() {
    let out = classify(RawResult::ListStream(vec![record(&[("a", "1")])]));
    match out {
        Output::Table(t) => {
            assert_eq!(t.header(), &vec!["a".to_string()]);
            assert_eq!(t.rows().len(), 1);
        }
        other => panic!("expected a table, got {other:?}"),
    }
}

#[test]
fn drained_bytes_pass_through() {
    let out = classify(RawResult::ByteStream(Ok(vec![104, 105])));
    assert_eq!(out, Output::Raw(Ok(vec![104, 105])));
}

#[test]
fn failed_byte_stream_is_a_raw_failure() {
    let err = StreamError { message: "pipe closed".to_string() };
    let out = classify(RawResult::ByteStream(Err(err)));
    match out {
        Output::Raw(Err(e)) => assert_eq!(e.message, "pipe closed"),
        other => panic!("expected a raw failure, got {other:?}"),
    }
}

#[test]
fn unwrapped_mixed_list_stays_a_list() {
    let raw = RawResult::Value(Value::List(vec![record(&[("a", "1")]), Value::Nothing]));
    match classify(raw) {
        Output::List(items) => {
            assert_eq!(items, vec![record(&[("a", "1")]), Value::Nothing]);
        }
        other => panic!("expected a list, got {other:?}"),
    }
}

#[test]
fn uniform_records_make_a_rectangular_table() {
    let raw = RawResult::ListStream(vec![
        record(&[("x", "1"), ("y", "2")]),
        record(&[("x", "3"), ("y", "4")]),
        record(&[("x", "5"), ("y", "6")]),
    ]);
    match classify(raw) {
        Output::Table(t) => {
            assert_eq!(t.header(), &vec!["x".to_string(), "y".to_string()]);
            assert_eq!(
                t.rows(),
                &vec![
                    vec![scalar("1"), scalar("2")],
                    vec![scalar("3"), scalar("4")],
                    vec![scalar("5"), scalar("6")],
                ],
            );
        }
        other => panic!("expected a table, got {other:?}"),
    }
}

#[test]
fn equivalent_inputs_classify_equally() {
    let make = || {
        RawResult::ListStream(vec![
            record(&[("a", "1"), ("b", "2")]),
            record(&[("b", "3"), ("c", "4")]),
        ])
    };
    assert_eq!(classify(make()), classify(make()));
}
