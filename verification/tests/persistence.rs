use rowpager::cursor::{decode_cursor, encode_cursor, Cursor};
use rowpager::export::{close_chunk, encode_export_record, export_chunk, ExportLogState, ExportRecord};
use rowpager::row::MaterializedRow;

#[test]
fn cursor_round_trip_yields_saved_value() {
    let text = encode_cursor(42);
    assert_eq!(text, "{\"current_row\":42}");
    assert_eq!(decode_cursor(&text), Some(42));
}

#[test]
fn cursor_round_trip_on_edges() {
    for &n in &[0usize, 1, 999, 1000, usize::MAX] {
        assert_eq!(decode_cursor(&encode_cursor(n)), Some(n));
    }
}

#[test]
fn cursor_decode_rejects_malformed_records() {
    assert_eq!(decode_cursor(""), None);
    assert_eq!(decode_cursor("{}"), None);
    assert_eq!(decode_cursor("{\"current_row\":}"), None);
    assert_eq!(decode_cursor("{\"current_row\":42"), None);
    assert_eq!(decode_cursor("{\"current_row\":042}"), None);
    assert_eq!(decode_cursor("{\"current_row\":4x2}"), None);
    assert_eq!(decode_cursor("{\"current_row\":99999999999999999999999999}"), None);
    assert_eq!(decode_cursor("{\"other\":42}"), None);
}

#[test]
fn cursor_decode_reads_serde_style_records() {
    assert_eq!(decode_cursor("{\"current_row\":0}"), Some(0));
    assert_eq!(decode_cursor("{\"current_row\":123456}"), Some(123456));
}

#[test]
fn cursor_navigation_is_clamped() {
    let mut c = Cursor::from_saved(Some(42), 100);
    assert_eq!(c.current_row, 42);
    c.next(100);
    assert_eq!(c.current_row, 43);
    c.prev();
    assert_eq!(c.current_row, 42);

    let mut c = Cursor::from_saved(Some(5000), 100);
    assert_eq!(c.current_row, 99);
    c.next(100);
    assert_eq!(c.current_row, 99);

    let mut c = Cursor::from_saved(None, 0);
    assert_eq!(c.current_row, 0);
    c.prev();
    assert_eq!(c.current_row, 0);
    c.next(0);
    assert_eq!(c.current_row, 0);
}

#[test]
fn cursor_jump_is_one_based_and_bounded() {
    let mut c = Cursor::from_saved(None, 10);
    c.jump_text("7", 10);
    assert_eq!(c.current_row, 6);
    c.jump_text("0", 10);
    assert_eq!(c.current_row, 6);
    c.jump_text("11", 10);
    assert_eq!(c.current_row, 6);
    c.jump_text("10", 10);
    assert_eq!(c.current_row, 9);
    c.jump_text("abc", 10);
    assert_eq!(c.current_row, 9);
    c.jump_text("", 10);
    assert_eq!(c.current_row, 9);
}

#[test]
fn cursor_jump_accepts_a_leading_plus_sign() {
    let mut c = Cursor::from_saved(None, 10);
    c.jump_text("+5", 10);
    assert_eq!(c.current_row, 4);
    c.jump_text("+", 10);
    assert_eq!(c.current_row, 4);
    c.jump_text("++5", 10);
    assert_eq!(c.current_row, 4);
    c.jump_text("+0", 10);
    assert_eq!(c.current_row, 4);
    c.jump_text("+10", 10);
    assert_eq!(c.current_row, 9);
}

fn sample_record(index: usize, a: &str, b: &str) -> ExportRecord {
    ExportRecord {
        index,
        dataset_id: "data/example.parquet".to_string(),
        sample: MaterializedRow {
            entries: vec![
                ("type".to_string(), a.to_string()),
                ("sample".to_string(), b.to_string()),
            ],
        },
    }
}

#[test]
fn export_record_renders_exact_json() {
    let rec = sample_record(3, "Type A", "Sample 1");
    let json = encode_export_record(&rec);
    assert_eq!(
        json,
        "{\"index\":3,\"dataset_id\":\"data/example.parquet\",\"sample\":[[\"type\",\"Type A\"],[\"sample\",\"Sample 1\"]]}"
    );
}

#[test]
fn export_record_escapes_special_characters() {
    let rec = ExportRecord {
        index: 0,
        dataset_id: "a\"b\\c".to_string(),
        sample: MaterializedRow {
            entries: vec![("k\n".to_string(), "v\t\u{1}".to_string())],
        },
    };
    let json = encode_export_record(&rec);
    assert_eq!(
        json,
        "{\"index\":0,\"dataset_id\":\"a\\\"b\\\\c\",\"sample\":[[\"k\\n\",\"v\\t\\u0001\"]]}"
    );
    let parsed: serde_json::Value = serde_json::from_str(&json).unwrap();
    assert_eq!(parsed["dataset_id"], "a\"b\\c");
    assert_eq!(parsed["sample"][0][0], "k\n");
    assert_eq!(parsed["sample"][0][1], "v\t\u{1}");
}

#[test]
fn export_log_grows_into_a_valid_json_array() {
    let first = encode_export_record(&sample_record(0, "Type A", "Sample 1"));
    let second = encode_export_record(&sample_record(1, "Type B", "Sample 2"));

    let chunk1 = export_chunk(ExportLogState::Absent, &first);
    assert!(chunk1.starts_with("[\n{"));
    assert_eq!(chunk1, format!("[\n{}", first));

    let chunk2 = export_chunk(ExportLogState::NonEmpty, &second);
    assert_eq!(chunk2, format!(",\n{}", second));

    assert_eq!(close_chunk(ExportLogState::Absent), None);
    let closing = close_chunk(ExportLogState::NonEmpty).unwrap();
    assert_eq!(closing, "]\n");

    let contents = format!("{}{}{}", chunk1, chunk2, closing);
    let parsed: serde_json::Value = serde_json::from_str(&contents).unwrap();
    let records = parsed.as_array().unwrap();
    assert_eq!(records.len(), 2);
    assert_eq!(records[0]["index"], 0);
    assert_eq!(records[1]["index"], 1);
    assert_eq!(records[0]["sample"][0][1], "Type A");
    assert_eq!(records[1]["sample"][1][1], "Sample 2");
}

#[test]
fn export_into_empty_existing_log_appends_bare_record() {
    let first = encode_export_record(&sample_record(0, "Type A", "Sample 1"));
    let chunk = export_chunk(ExportLogState::Empty, &first);
    assert_eq!(chunk, first);
}

#[test]
fn export_record_with_empty_sample() {
    let rec = ExportRecord {
        index: 7,
        dataset_id: "d".to_string(),
        sample: MaterializedRow { entries: vec![] },
    };
    let json = encode_export_record(&rec);
    assert_eq!(json, "{\"index\":7,\"dataset_id\":\"d\",\"sample\":[]}");
    let parsed: serde_json::Value = serde_json::from_str(&json).unwrap();
    assert_eq!(parsed["sample"].as_array().unwrap().len(), 0);
}
