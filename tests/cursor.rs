use cql_marshal::decode::decode;
use cql_marshal::result::{CardinalityError, ColumnSpec, QueryResult};
use cql_marshal::row::{decimal_text, Row, RowError};
use cql_marshal::value::{CqlValue, DynValue};

fn row_of(values: &[i32]) -> Row {
    Row::new(values.iter().map(|v| Some(CqlValue::Int(*v))).collect())
}

fn result_with(n: i32) -> QueryResult {
    let rows = (0..n).map(|i| row_of(&[i, i * 10])).collect();
    QueryResult::new(Some(rows), None, vec![], vec![])
}

#[test]
fn single_row_over_zero_rows_fails() {
    assert_eq!(result_with(0).single_row(), Err(CardinalityError::NoRows));
    let empty = QueryResult::new(None, None, vec![], vec![]);
    assert_eq!(empty.single_row(), Err(CardinalityError::NoRows));
}

#[test]
fn single_row_over_one_row_returns_it() {
    assert_eq!(result_with(1).single_row(), Ok(row_of(&[0, 0])));
}

#[test]
fn single_row_over_many_rows_reports_count() {
    assert_eq!(result_with(3).single_row(), Err(CardinalityError::TooManyRows(3)));
}

#[test]
fn negative_index_counts_from_end() {
    let row = Row::new(vec![Some(CqlValue::Int(1)), None, Some(CqlValue::Text("z".to_string()))]);
    let l = row.len();
    assert_eq!(row.get_item(-1), row.get(l - 1));
    assert_eq!(row.get_item(-1), Ok(DynValue::Text("z".to_string())));
    assert_eq!(row.get_item(-2), Ok(DynValue::Null));
    assert_eq!(row.get_item(-(l as isize) - 1), Err(RowError::IndexOutOfRange(-4)));
    assert_eq!(row.get(3), Err(RowError::IndexOutOfRange(3)));
    assert_eq!(row.get_item(3), Err(RowError::IndexOutOfRange(3)));
    assert_eq!(row.get_item(0), Ok(DynValue::Int(1)));
}

#[test]
fn streaming_yields_rows_in_order_then_ends() {
    let mut r = result_with(3);
    assert_eq!(r.len(), 3);
    assert_eq!(r.next_row(), Some(row_of(&[0, 0])));
    assert_eq!(r.next_row(), Some(row_of(&[1, 10])));
    assert_eq!(r.next_row(), Some(row_of(&[2, 20])));
    assert_eq!(r.next_row(), None);
    assert_eq!(r.next_row(), None);
    assert_eq!(r.rows().len(), 3);
}

#[test]
fn empty_state_has_no_rows() {
    let mut r = QueryResult::new(None, None, vec![], vec![]);
    assert_eq!(r.len(), 0);
    assert!(!r.is_truthy());
    assert!(r.rows().is_empty());
    assert_eq!(r.first_row(), None);
    assert_eq!(r.first_row_typed(), None);
    assert!(r.rows_typed().is_empty());
    assert_eq!(r.next_row(), None);
}

#[test]
fn first_row_does_not_need_exactly_one() {
    let r = result_with(2);
    assert!(r.is_truthy());
    assert_eq!(r.first_row(), Some(row_of(&[0, 0])));
}

#[test]
fn as_dict_uses_column_labels() {
    let row = Row::new(vec![Some(CqlValue::Int(4)), None]);
    assert_eq!(
        row.as_dict(),
        DynValue::Dict(vec![
            (DynValue::Text("col_0".to_string()), DynValue::Int(4)),
            (DynValue::Text("col_1".to_string()), DynValue::Null),
        ])
    );
}

#[test]
fn as_dict_labels_beyond_one_digit() {
    let row = Row::new((0..12).map(|i| Some(CqlValue::Int(i))).collect());
    match row.as_dict() {
        DynValue::Dict(entries) => {
            assert_eq!(entries[11].0, DynValue::Text("col_11".to_string()));
            assert_eq!(entries[11].1, DynValue::Int(11));
        }
        other => panic!("unexpected {:?}", other),
    }
}

#[test]
fn typed_rows_are_dicts() {
    let r = result_with(2);
    let typed = r.rows_typed();
    assert_eq!(typed.len(), 2);
    assert_eq!(typed[1], row_of(&[1, 10]).as_dict());
    assert_eq!(r.first_row_typed(), Some(row_of(&[0, 0]).as_dict()));
}

#[test]
fn columns_decode_each_value() {
    let row = Row::new(vec![Some(CqlValue::BigInt(9)), None]);
    assert_eq!(row.columns(), vec![DynValue::Int(9), DynValue::Null]);
    assert_eq!(row.columns()[0], decode(&CqlValue::BigInt(9)));
}

#[test]
fn metadata_passes_through() {
    let spec = ColumnSpec { table_spec: "ks.t".to_string(), name: "id".to_string(), typ: "Int".to_string() };
    let r = QueryResult::new(Some(vec![]), Some("trace-1".to_string()), vec!["w1".to_string()], vec![spec.clone()]);
    assert_eq!(r.tracing_id(), Some("trace-1".to_string()));
    assert_eq!(r.warnings(), vec!["w1".to_string()]);
    assert_eq!(r.col_specs(), vec![spec]);
}

#[test]
fn decimal_text_renders_plain_decimal() {
    assert_eq!(decimal_text(0), "0");
    assert_eq!(decimal_text(9), "9");
    assert_eq!(decimal_text(10), "10");
    assert_eq!(decimal_text(12345), "12345");
    assert_eq!(decimal_text(usize::MAX), usize::MAX.to_string());
}

#[test]
fn negative_index_on_single_column_row() {
    let row = Row::new(vec![None]);
    assert_eq!(row.get_item(-1), Ok(DynValue::Null));
    assert_eq!(row.get_item(-2), Err(RowError::IndexOutOfRange(-2)));
    let empty = Row::new(vec![]);
    assert_eq!(empty.get_item(-1), Err(RowError::IndexOutOfRange(-1)));
}

#[test]
fn col_specs_empty_without_rows_result() {
    let spec = ColumnSpec { table_spec: "ks.t".to_string(), name: "id".to_string(), typ: "Int".to_string() };
    let r = QueryResult::new(None, None, vec![], vec![spec]);
    assert!(r.col_specs().is_empty());
}
