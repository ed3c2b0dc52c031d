use query_core::bitmap::Bitmap;
use query_core::column::{Column, Scalar};
use query_core::desc::{HashJoinDesc, JoinType, MarkJoinDesc, MarkerKind, RightJoinDesc, RowStateMap};
use query_core::error::ErrorCode;
use query_core::index::HashIndex;
use query_core::join::JoinHashTable;
use query_core::row::RowSpace;

fn bm(bits: &[bool]) -> Bitmap {
    Bitmap::from_bools(bits.to_vec())
}

fn mark_join_table(marker_index: Option<usize>) -> JoinHashTable {
    JoinHashTable {
        hash_join_desc: HashJoinDesc {
            join_type: JoinType::Mark,
            marker_join_desc: MarkJoinDesc { marker_index },
            right_join_desc: RightJoinDesc {
                build_indexes: Vec::new(),
                row_state: RowStateMap::new(),
            },
        },
        row_space: RowSpace::new(),
        hash_table: HashIndex::new(),
    }
}

#[test]
fn init_markers_flags_null_keys() {
    let key = Column::Nullable(
        Box::new(Column::Int(vec![1, 0, 3])),
        Some(bm(&[true, false, true])),
    );
    let markers = JoinHashTable::init_markers(&vec![key], 3);
    assert_eq!(
        markers,
        vec![MarkerKind::False, MarkerKind::Null, MarkerKind::False]
    );
}

#[test]
fn init_markers_all_false_without_nullable_columns() {
    let key = Column::Int(vec![5, 6]);
    let markers = JoinHashTable::init_markers(&vec![key], 2);
    assert_eq!(markers, vec![MarkerKind::False, MarkerKind::False]);
}

#[test]
fn init_markers_short_circuits_on_all_present_bitmap() {
    // One column has no absent position at all: the combined bitmap
    // short-circuits to all-true and no row is pre-flagged.
    let with_null = Column::Nullable(
        Box::new(Column::Int(vec![1, 2])),
        Some(bm(&[false, true])),
    );
    let all_present = Column::Nullable(
        Box::new(Column::Int(vec![3, 4])),
        Some(bm(&[true, true])),
    );
    let markers = JoinHashTable::init_markers(&vec![with_null, all_present], 2);
    assert_eq!(markers, vec![MarkerKind::False, MarkerKind::False]);
}

#[test]
fn init_markers_combines_bitmaps_of_all_columns() {
    let a = Column::Nullable(
        Box::new(Column::Int(vec![1, 2, 3])),
        Some(bm(&[false, true, true])),
    );
    let b = Column::Nullable(
        Box::new(Column::Int(vec![4, 5, 6])),
        Some(bm(&[true, true, false])),
    );
    let markers = JoinHashTable::init_markers(&vec![a, b], 3);
    assert_eq!(
        markers,
        vec![MarkerKind::Null, MarkerKind::False, MarkerKind::Null]
    );
}

#[test]
fn marker_block_taints_false_to_null_when_nulls_were_seen() {
    let table = mark_join_table(Some(0));
    let markers = vec![MarkerKind::True, MarkerKind::False, MarkerKind::Null];
    let block = table.create_marker_block(true, markers).unwrap();
    assert_eq!(block.num_rows(), 3);
    assert_eq!(block.num_columns(), 1);
    let col = &block.columns[0];
    assert_eq!(col.value_at(0), Some(Scalar::Bool(true)));
    assert_eq!(col.value_at(1), None);
    assert_eq!(col.value_at(2), None);
}

#[test]
fn marker_block_keeps_false_without_nulls() {
    let table = mark_join_table(Some(0));
    let markers = vec![MarkerKind::True, MarkerKind::False];
    let block = table.create_marker_block(false, markers).unwrap();
    let col = &block.columns[0];
    assert_eq!(col.value_at(0), Some(Scalar::Bool(true)));
    assert_eq!(col.value_at(1), Some(Scalar::Bool(false)));
}

#[test]
fn marker_block_is_named_after_the_mark_column_index() {
    let table = mark_join_table(Some(17));
    let block = table.create_marker_block(false, vec![MarkerKind::True]).unwrap();
    assert_eq!(block.fields[0].name, "17");
}

#[test]
fn marker_block_without_mark_index_is_a_logical_error() {
    let table = mark_join_table(None);
    let err = table
        .create_marker_block(true, vec![MarkerKind::True])
        .unwrap_err();
    assert!(matches!(err, ErrorCode::LogicalError(_)));
}

#[test]
fn mark_join_null_probe_key_yields_null_marker() {
    // Probe key [NULL] against build keys [1, 2] with has_null = true:
    // the output marker is NULL, not false.
    let mut index = HashIndex::new();
    index.insert(
        1,
        query_core::row::RowPtr { chunk_index: 0, row_index: 0, marker: None },
    );
    index.insert(
        2,
        query_core::row::RowPtr { chunk_index: 0, row_index: 1, marker: None },
    );
    let table = mark_join_table(Some(0));

    let probe_key = Column::Nullable(Box::new(Column::Int(vec![0])), Some(bm(&[false])));
    let markers = JoinHashTable::init_markers(&vec![probe_key], 1);
    assert_eq!(markers, vec![MarkerKind::Null]);

    // The NULL key never touches the index.
    let valids = Some(bm(&[false]));
    assert!(table.probe_key(&index, 0, &valids, 0).is_none());

    let block = table.create_marker_block(true, markers).unwrap();
    assert_eq!(block.columns[0].value_at(0), None);
}
