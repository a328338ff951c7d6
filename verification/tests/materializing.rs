use rowpager::row::{materialize, render_value, Field, LogicalType, RawRow, RawValue};

fn field(name: &str, logical: LogicalType) -> Field {
    Field { name: name.to_string(), required: true, logical }
}

#[test]
fn direct_coercions() {
    assert_eq!(render_value(&RawValue::Text("hello".to_string()), LogicalType::Text), "hello");
    assert_eq!(render_value(&RawValue::Integer(42), LogicalType::Integer), "42");
    assert_eq!(render_value(&RawValue::Integer(0), LogicalType::Integer), "0");
    assert_eq!(render_value(&RawValue::Integer(-1), LogicalType::Integer), "-1");
    assert_eq!(
        render_value(&RawValue::Integer(i64::MIN), LogicalType::Integer),
        "-9223372036854775808"
    );
    assert_eq!(
        render_value(&RawValue::Integer(i64::MAX), LogicalType::Integer),
        "9223372036854775807"
    );
    assert_eq!(render_value(&RawValue::Boolean(true), LogicalType::Boolean), "true");
    assert_eq!(render_value(&RawValue::Boolean(false), LogicalType::Boolean), "false");
}

#[test]
fn absent_optional_value_renders_null() {
    assert_eq!(render_value(&RawValue::Absent, LogicalType::Text), "null");
    assert_eq!(render_value(&RawValue::Absent, LogicalType::Integer), "null");
}

#[test]
fn mismatched_values_fall_back_to_structural_form() {
    assert_eq!(render_value(&RawValue::Text("x".to_string()), LogicalType::Integer), "\"x\"");
    assert_eq!(render_value(&RawValue::Integer(9), LogicalType::Text), "9");
    assert_eq!(render_value(&RawValue::Boolean(true), LogicalType::Text), "true");
}

#[test]
fn nested_values_fall_back_to_structural_form() {
    let nested = RawValue::Nested(vec![
        ("key".to_string(), "value".to_string()),
        ("another".to_string(), "json".to_string()),
    ]);
    assert_eq!(render_value(&nested, LogicalType::Text), "{key: value, another: json}");
    let empty = RawValue::Nested(vec![]);
    assert_eq!(render_value(&empty, LogicalType::Text), "{}");
}

#[test]
fn fallback_never_aborts_sibling_fields() {
    let raw = RawRow {
        values: vec![
            RawValue::Nested(vec![("k".to_string(), "v".to_string())]),
            RawValue::Text("ok".to_string()),
            RawValue::Absent,
        ],
    };
    let fields = vec![
        field("exotic", LogicalType::Text),
        field("plain", LogicalType::Text),
        field("extras", LogicalType::Text),
    ];
    let row = materialize(&raw, &fields);
    assert_eq!(row.entries.len(), 3);
    assert_eq!(row.entries[0].0, "exotic");
    assert_eq!(row.entries[0].1, "{k: v}");
    assert!(!row.entries[0].1.is_empty());
    assert_eq!(row.entries[1].1, "ok");
    assert_eq!(row.entries[2].1, "null");
}

#[test]
fn short_rows_fill_missing_fields_with_null() {
    let raw = RawRow { values: vec![RawValue::Integer(1)] };
    let fields = vec![field("a", LogicalType::Integer), field("b", LogicalType::Text)];
    let row = materialize(&raw, &fields);
    assert_eq!(row.entries.len(), 2);
    assert_eq!(row.entries[0].1, "1");
    assert_eq!(row.entries[1].1, "null");
}
