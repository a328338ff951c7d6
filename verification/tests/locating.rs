use rowpager::dataset::{locate, DatasetMeta, Decoder, InMemoryTable};
use rowpager::error::ViewerError;
use rowpager::row::{Field, LogicalType, RawRow, RawValue};

fn meta(sizes: &[usize]) -> DatasetMeta {
    DatasetMeta::new(
        sizes.to_vec(),
        vec![Field { name: "idx".to_string(), required: true, logical: LogicalType::Integer }],
    )
    .unwrap()
}

#[test]
fn locate_walks_cumulative_counts() {
    let m = meta(&[500, 500, 200]);
    assert_eq!(m.total_rows(), 1200);
    assert_eq!(locate(&m, 0), Ok((0, 0)));
    assert_eq!(locate(&m, 499), Ok((0, 499)));
    assert_eq!(locate(&m, 500), Ok((1, 0)));
    assert_eq!(locate(&m, 999), Ok((1, 499)));
    assert_eq!(locate(&m, 1000), Ok((2, 0)));
    assert_eq!(locate(&m, 1199), Ok((2, 199)));
    assert_eq!(locate(&m, 1200), Err(ViewerError::IndexOutOfRange));
}

#[test]
fn locate_skips_empty_groups() {
    let m = meta(&[0, 2, 0, 1]);
    assert_eq!(locate(&m, 0), Ok((1, 0)));
    assert_eq!(locate(&m, 1), Ok((1, 1)));
    assert_eq!(locate(&m, 2), Ok((3, 0)));
    assert_eq!(locate(&m, 3), Err(ViewerError::IndexOutOfRange));
}

#[test]
fn metadata_refuses_an_overflowing_total() {
    let r = DatasetMeta::new(vec![usize::MAX, 1], Vec::new());
    assert!(r.is_none());
}

#[test]
fn sequential_decode_skips_and_takes() {
    let table = InMemoryTable {
        groups: vec![vec![
            RawRow { values: vec![RawValue::Integer(0)] },
            RawRow { values: vec![RawValue::Integer(1)] },
            RawRow { values: vec![RawValue::Integer(2)] },
        ]],
    };
    let rows = table.decode_sequential(0, 1, 5).unwrap();
    assert_eq!(rows.len(), 2);
    assert!(matches!(rows[0].values[0], RawValue::Integer(1)));
    assert!(matches!(rows[1].values[0], RawValue::Integer(2)));
    let none = table.decode_sequential(0, 3, 5).unwrap();
    assert_eq!(none.len(), 0);
    let capped = table.decode_sequential(0, 0, 2).unwrap();
    assert_eq!(capped.len(), 2);
}
