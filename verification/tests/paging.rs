use rowpager::cache::{Pager, WINDOW_SIZE};
use rowpager::dataset::{DatasetMeta, Decoder, InMemoryTable};
use rowpager::error::ViewerError;
use rowpager::row::{Field, LogicalType, RawRow, RawValue};

fn test_fields() -> Vec<Field> {
    vec![
        Field { name: "idx".to_string(), required: true, logical: LogicalType::Integer },
        Field { name: "label".to_string(), required: true, logical: LogicalType::Text },
    ]
}

fn make_table(group_sizes: &[usize]) -> InMemoryTable {
    let mut groups = Vec::new();
    let mut global: i64 = 0;
    for &size in group_sizes {
        let mut rows = Vec::new();
        for _ in 0..size {
            rows.push(RawRow {
                values: vec![
                    RawValue::Integer(global),
                    RawValue::Text(format!("row-{}", global)),
                ],
            });
            global += 1;
        }
        groups.push(rows);
    }
    InMemoryTable { groups }
}

fn make_pager(group_sizes: &[usize]) -> Pager<InMemoryTable> {
    let table = make_table(group_sizes);
    let sizes = table.group_sizes();
    let meta = DatasetMeta::new(sizes, test_fields()).unwrap();
    Pager::new(table, meta)
}

#[test]
fn row_has_one_entry_per_schema_field_in_order() {
    let mut pager = make_pager(&[500, 500, 200]);
    for &i in &[0usize, 499, 500, 999, 1000, 1199] {
        let row = pager.get_row(i).unwrap();
        assert_eq!(row.entries.len(), 2);
        assert_eq!(row.entries[0].0, "idx");
        assert_eq!(row.entries[1].0, "label");
        assert_eq!(row.entries[0].1, format!("{}", i));
        assert_eq!(row.entries[1].1, format!("row-{}", i));
    }
}

#[test]
fn out_of_range_index_is_rejected() {
    let mut pager = make_pager(&[500, 500, 200]);
    assert!(matches!(pager.get_row(1200), Err(ViewerError::IndexOutOfRange)));
    assert!(matches!(pager.get_row(usize::MAX), Err(ViewerError::IndexOutOfRange)));
    assert!(pager.get_row(1199).is_ok());
}

#[test]
fn window_start_is_aligned_after_access() {
    let mut pager = make_pager(&[500, 500, 200]);
    pager.get_row(999).unwrap();
    let w = pager.cache.window.as_ref().unwrap();
    assert_eq!(w.start, 0);
    pager.get_row(1001).unwrap();
    let w = pager.cache.window.as_ref().unwrap();
    assert_eq!(w.start, 1001 - (1001 % WINDOW_SIZE));
    assert_eq!(w.start, 1000);
}

#[test]
fn repeated_access_in_one_window_does_not_decode_again() {
    let mut pager = make_pager(&[500, 500, 200]);
    assert_eq!(pager.cache.decode_passes, 0);
    let a = pager.get_row(7).unwrap();
    assert_eq!(pager.cache.decode_passes, 1);
    let b = pager.get_row(7).unwrap();
    assert_eq!(pager.cache.decode_passes, 1);
    assert_eq!(a.entries, b.entries);
    let c = pager.get_row(999).unwrap();
    assert_eq!(pager.cache.decode_passes, 1);
    assert_eq!(c.entries[0].1, "999");
}

#[test]
fn boundary_crossing_refills_once_per_side() {
    let mut pager = make_pager(&[500, 500, 200]);
    pager.get_row(999).unwrap();
    assert_eq!(pager.cache.decode_passes, 1);
    let first_window_start = pager.cache.window.as_ref().unwrap().start;
    let first_window_len = pager.cache.window.as_ref().unwrap().rows.len();
    assert_eq!(first_window_start, 0);
    assert_eq!(first_window_len, 1000);
    pager.get_row(1000).unwrap();
    assert_eq!(pager.cache.decode_passes, 2);
    let second_window_start = pager.cache.window.as_ref().unwrap().start;
    let second_window_len = pager.cache.window.as_ref().unwrap().rows.len();
    assert_eq!(second_window_start, 1000);
    assert_eq!(second_window_len, 200);
}

#[test]
fn empty_table_rejects_every_index() {
    let mut pager = make_pager(&[]);
    assert!(matches!(pager.get_row(0), Err(ViewerError::IndexOutOfRange)));
    assert_eq!(pager.cache.decode_passes, 0);
}

#[test]
fn empty_row_groups_are_skipped() {
    let mut pager = make_pager(&[0, 3, 0, 2]);
    assert_eq!(pager.total_rows(), 5);
    for i in 0..5usize {
        let row = pager.get_row(i).unwrap();
        assert_eq!(row.entries[0].1, format!("{}", i));
    }
    assert_eq!(pager.cache.decode_passes, 1);
}

#[test]
fn schema_fields_lists_names_in_order() {
    let pager = make_pager(&[4]);
    let names = pager.schema_fields();
    assert_eq!(names, vec!["idx".to_string(), "label".to_string()]);
}

fn fetch_window(
    table: &InMemoryTable,
    cache: &mut rowpager::cache::WindowCache,
    start: usize,
) -> bool {
    let expected = cache.window_len(start);
    let mut raws: Vec<RawRow> = Vec::new();
    let mut next = start;
    while raws.len() < expected {
        let (group, skip) = match rowpager::dataset::locate(&cache.meta, next) {
            Ok(p) => p,
            Err(_) => break,
        };
        let mut part = table
            .decode_sequential(group, skip, expected - raws.len())
            .unwrap();
        if part.is_empty() {
            break;
        }
        raws.append(&mut part);
        next = start + raws.len();
    }
    cache.install_window(start, raws)
}

#[test]
fn caller_driven_cache_crosses_group_boundaries() {
    let table = make_table(&[500, 500, 200]);
    let sizes = table.group_sizes();
    let meta = DatasetMeta::new(sizes, test_fields()).unwrap();
    let mut cache = rowpager::cache::WindowCache::new(meta);

    assert!(matches!(cache.lookup(7), Ok(None)));
    let start = rowpager::cache::window_start_of(7);
    assert!(fetch_window(&table, &mut cache, start));
    assert_eq!(cache.decode_passes, 1);
    let row = cache.lookup(7).unwrap().unwrap();
    assert_eq!(row.entries[0].1, "7");

    assert!(matches!(cache.lookup(1100), Ok(None)));
    let start = rowpager::cache::window_start_of(1100);
    assert_eq!(start, 1000);
    assert!(fetch_window(&table, &mut cache, start));
    assert_eq!(cache.decode_passes, 2);
    let row = cache.lookup(1100).unwrap().unwrap();
    assert_eq!(row.entries[0].1, "1100");
    assert!(matches!(
        cache.lookup(1200),
        Err(ViewerError::IndexOutOfRange)
    ));
}

#[test]
fn install_window_rejects_wrong_shapes() {
    let table = make_table(&[10]);
    let sizes = table.group_sizes();
    let meta = DatasetMeta::new(sizes, test_fields()).unwrap();
    let mut cache = rowpager::cache::WindowCache::new(meta);
    let rows = table.decode_sequential(0, 0, 10).unwrap();
    assert!(!cache.install_window(3, rows));
    let rows = table.decode_sequential(0, 0, 5).unwrap();
    assert!(!cache.install_window(0, rows));
    let rows = table.decode_sequential(0, 0, 10).unwrap();
    assert!(cache.install_window(0, rows));
}
