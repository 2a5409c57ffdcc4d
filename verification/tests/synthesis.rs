use pipe_dream::table::Table;
use pipe_dream::value::Value;

fn scalar(text: &str) -> Value {
    Value::Scalar(text.to_string())
}

fn record(pairs: &[(&str, &str)]) -> Value {
    Value::Record(pairs.iter().map(|(c, v)| (c.to_string(), scalar(v))).collect())
}

#[test]
fn header_is_first_seen_column_order() {
    let t = Table::synthesize(vec![
        record(&[("a", "1"), ("b", "2")]),
        record(&[("b", "3"), ("c", "4")]),
    ]);
    assert_eq!(t.header(), &vec!["a".to_string(), "b".to_string(), "c".to_string()]);
}

#[test]
fn missing_columns_are_filled_with_nothing() {
    let t = Table::synthesize(vec![
        record(&[("a", "1"), ("b", "2")]),
        record(&[("b", "3"), ("c", "4")]),
    ]);
    assert_eq!(
        t.rows(),
        &vec![
            vec![scalar("1"), scalar("2"), Value::Nothing],
            vec![Value::Nothing, scalar("3"), scalar("4")],
        ],
    );
}

#[test]
fn every_row_is_as_long_as_the_header() {
    let t = Table::synthesize(vec![
        record(&[("a", "1")]),
        record(&[]),
        record(&[("b", "2"), ("c", "3"), ("d", "4")]),
    ]);
    for row in t.rows() {
        assert_eq!(row.len(), t.header().len());
    }
}

#[test]
fn header_has_no_duplicate_names() {
    let t = Table::synthesize(vec![
        record(&[("a", "1"), ("b", "2")]),
        record(&[("a", "3")]),
        record(&[("b", "4"), ("a", "5")]),
    ]);
    assert_eq!(t.header(), &vec!["a".to_string(), "b".to_string()]);
}

#[test]
fn no_records_make_an_empty_table() {
    let t = Table::synthesize(vec![]);
    assert!(t.header().is_empty());
    assert!(t.rows().is_empty());
}

#[test]
fn a_record_without_columns_still_makes_a_row() {
    let t = Table::synthesize(vec![record(&[("a", "1")]), record(&[])]);
    assert_eq!(t.rows(), &vec![vec![scalar("1")], vec![Value::Nothing]]);
}

#[test]
fn rows_keep_record_order() {
    let t = Table::synthesize(vec![
        record(&[("n", "first")]),
        record(&[("n", "second")]),
        record(&[("n", "third")]),
    ]);
    assert_eq!(
        t.rows(),
        &vec![vec![scalar("first")], vec![scalar("second")], vec![scalar("third")]],
    );
}

#[test]
fn structured_cell_values_survive_synthesis() {
    let nested = || Value::List(vec![scalar("1"), Value::Nothing]);
    let t = Table::synthesize(vec![Value::Record(vec![("a".to_string(), nested())])]);
    assert_eq!(t.rows(), &vec![vec![nested()]]);
}
