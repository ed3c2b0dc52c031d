use query_core::bitmap::Bitmap;
use query_core::block::{DataBlock, DataField, DataTypeKind};
use query_core::column::{Column, Scalar};
use query_core::desc::{HashJoinDesc, JoinType, MarkJoinDesc, MarkerKind, RightJoinDesc, RowStateMap};
use query_core::error::ErrorCode;
use query_core::index::HashIndex;
use query_core::join::JoinHashTable;
use query_core::row::{RowPtr, RowSpace};

fn bm(bits: &[bool]) -> Bitmap {
    Bitmap::from_bools(bits.to_vec())
}

fn int_field(name: &str) -> DataField {
    DataField::new(name.to_string(), DataTypeKind::Int64)
}

fn table(join_type: JoinType, build_indexes: Vec<RowPtr>, chunks: Vec<DataBlock>) -> JoinHashTable {
    JoinHashTable {
        hash_join_desc: HashJoinDesc {
            join_type,
            marker_join_desc: MarkJoinDesc { marker_index: None },
            right_join_desc: RightJoinDesc {
                build_indexes,
                row_state: RowStateMap::new(),
            },
        },
        row_space: RowSpace { chunks },
        hash_table: HashIndex::new(),
    }
}

fn ptr(chunk_index: u32, row_index: u32, marker: Option<MarkerKind>) -> RowPtr {
    RowPtr { chunk_index, row_index, marker }
}

#[test]
fn merge_appends_build_columns_after_probe_columns() {
    let probe = DataBlock::create(
        vec![int_field("p0"), int_field("p1")],
        vec![Column::Int(vec![1, 2]), Column::Int(vec![3, 4])],
    );
    let build = DataBlock::create(vec![int_field("b0")], vec![Column::Int(vec![5, 6])]);
    let t = table(JoinType::Inner, Vec::new(), Vec::new());
    let merged = t.merge_eq_block(&build, &probe).unwrap();
    assert_eq!(merged.num_rows(), 2);
    assert_eq!(merged.num_columns(), 3);
    assert_eq!(merged.fields[0].name, "p0");
    assert_eq!(merged.fields[1].name, "p1");
    assert_eq!(merged.fields[2].name, "b0");
    assert_eq!(merged.columns[0].value_at(0), Some(Scalar::Int(1)));
    assert_eq!(merged.columns[1].value_at(1), Some(Scalar::Int(4)));
    assert_eq!(merged.columns[2].value_at(0), Some(Scalar::Int(5)));
    assert_eq!(merged.columns[2].value_at(1), Some(Scalar::Int(6)));
}

#[test]
fn add_column_rejects_a_wrong_length() {
    let block = DataBlock::create(vec![int_field("a")], vec![Column::Int(vec![1, 2])]);
    let err = block
        .add_column(Column::Int(vec![1, 2, 3]), int_field("b"))
        .unwrap_err();
    assert!(matches!(err, ErrorCode::LogicalError(_)));
}

#[test]
fn probe_key_skips_null_keys_and_finds_chains() {
    let mut index = HashIndex::new();
    index.insert(3, ptr(0, 2, None));
    index.insert(3, ptr(1, 0, None));
    let t = table(JoinType::Inner, Vec::new(), Vec::new());

    // A present key finds its whole chain.
    let chain = t.probe_key(&index, 3, &None, 0).unwrap();
    assert_eq!(chain.len(), 2);
    assert_eq!(chain[0].chunk_index, 0);
    assert_eq!(chain[0].row_index, 2);
    assert_eq!(chain[1].chunk_index, 1);
    assert_eq!(chain[1].row_index, 0);

    // A key absent from the build side finds nothing.
    assert!(t.probe_key(&index, 4, &None, 0).is_none());

    // A NULL probe key never matches, even if the value would.
    let valids = Some(bm(&[false]));
    assert!(t.probe_key(&index, 3, &valids, 0).is_none());
}

#[test]
fn constant_predicate_takes_the_fast_path() {
    let merged = DataBlock::create(vec![int_field("a")], vec![Column::Int(vec![1, 2, 3])]);
    let t = table(JoinType::Inner, Vec::new(), Vec::new());

    let all_true = Column::Constant(Box::new(Column::Bool(vec![true])), 3);
    let (bitmap, is_true, is_false) = t.get_other_filters(&merged, &all_true).unwrap();
    assert!(bitmap.is_none());
    assert!(is_true);
    assert!(!is_false);

    let all_false = Column::Constant(Box::new(Column::Bool(vec![false])), 3);
    let (bitmap, is_true, is_false) = t.get_other_filters(&merged, &all_false).unwrap();
    assert!(bitmap.is_none());
    assert!(!is_true);
    assert!(is_false);
}

#[test]
fn per_row_predicate_returns_its_bitmap() {
    let merged = DataBlock::create(vec![int_field("a")], vec![Column::Int(vec![1, 2, 3])]);
    let t = table(JoinType::Inner, Vec::new(), Vec::new());

    // A nullable boolean result: NULL counts as false for row admission.
    let pred = Column::Nullable(
        Box::new(Column::Bool(vec![true, true, false])),
        Some(bm(&[true, false, true])),
    );
    let (bitmap, is_true, is_false) = t.get_other_filters(&merged, &pred).unwrap();
    let bitmap = bitmap.unwrap();
    assert_eq!(bitmap.len(), 3);
    assert!(bitmap.get_bit(0));
    assert!(!bitmap.get_bit(1));
    assert!(!bitmap.get_bit(2));
    assert!(!is_true);
    assert!(!is_false);
}

#[test]
fn non_boolean_predicate_is_a_type_error() {
    let merged = DataBlock::create(vec![int_field("a")], vec![Column::Int(vec![1])]);
    let t = table(JoinType::Inner, Vec::new(), Vec::new());
    let err = t.get_other_filters(&merged, &Column::Int(vec![9])).unwrap_err();
    assert!(matches!(err, ErrorCode::IllegalDataType(_)));
}

#[test]
fn fully_null_predicate_admits_no_row() {
    let merged = DataBlock::create(vec![int_field("a")], vec![Column::Int(vec![1, 2])]);
    let t = table(JoinType::Inner, Vec::new(), Vec::new());
    let (bitmap, is_true, is_false) = t.get_other_filters(&merged, &Column::Null(2)).unwrap();
    let bitmap = bitmap.unwrap();
    assert!(!bitmap.get_bit(0));
    assert!(!bitmap.get_bit(1));
    assert!(!is_true);
    assert!(is_false);
}

#[test]
fn finalizer_emits_unmatched_rows_once_with_zero_count() {
    // One build chunk of three rows; only row 1 matched during probing.
    let chunk = DataBlock::create(vec![int_field("k")], vec![Column::Int(vec![10, 20, 30])]);
    let mut t = table(
        JoinType::Right,
        vec![ptr(0, 1, Some(MarkerKind::True))],
        vec![chunk],
    );
    let unmatched = t.find_unmatched_build_indexes().unwrap();
    assert_eq!(unmatched.len(), 2);
    assert_eq!((unmatched[0].chunk_index, unmatched[0].row_index), (0, 0));
    assert!(unmatched[0].marker.is_none());
    assert_eq!((unmatched[1].chunk_index, unmatched[1].row_index), (0, 2));

    let row_state = &t.hash_join_desc.right_join_desc.row_state;
    assert_eq!(row_state.get(0, 0), Some(0));
    assert_eq!(row_state.get(0, 1), None);
    assert_eq!(row_state.get(0, 2), Some(0));
}

#[test]
fn finalizer_keeps_existing_counts() {
    let chunk = DataBlock::create(vec![int_field("k")], vec![Column::Int(vec![10])]);
    let mut row_state = RowStateMap::new();
    row_state.or_insert_zero(0, 0);
    let mut t = table(JoinType::Right, Vec::new(), vec![chunk]);
    t.hash_join_desc.right_join_desc.row_state = row_state;
    let unmatched = t.find_unmatched_build_indexes().unwrap();
    assert_eq!(unmatched.len(), 1);
    assert_eq!(t.hash_join_desc.right_join_desc.row_state.get(0, 0), Some(0));
}

#[test]
fn full_join_emits_rows_excluded_by_the_residual_predicate() {
    // Row 0 matched but its most recent marker is False: the residual
    // predicate rejected every match, so a full join emits it anyway.
    let chunk = DataBlock::create(vec![int_field("k")], vec![Column::Int(vec![10, 20])]);
    let matched = vec![
        ptr(0, 0, Some(MarkerKind::True)),
        ptr(0, 0, Some(MarkerKind::False)),
        ptr(0, 1, Some(MarkerKind::True)),
    ];
    let mut t = table(JoinType::Full, matched.clone(), vec![chunk]);
    let unmatched = t.find_unmatched_build_indexes().unwrap();
    assert_eq!(unmatched.len(), 1);
    assert_eq!((unmatched[0].chunk_index, unmatched[0].row_index), (0, 0));
    assert_eq!(unmatched[0].marker, Some(MarkerKind::False));

    // A right join does not emit residual-excluded rows.
    let chunk2 = DataBlock::create(vec![int_field("k")], vec![Column::Int(vec![10, 20])]);
    let mut t2 = table(JoinType::Right, matched, vec![chunk2]);
    assert_eq!(t2.find_unmatched_build_indexes().unwrap().len(), 0);
}

#[test]
fn inner_and_right_join_scenario() {
    // Build batch with key column [1, NULL, 3]; probe batch with key
    // column [3, 4].
    let build_key = Column::Nullable(
        Box::new(Column::Int(vec![1, 0, 3])),
        Some(bm(&[true, false, true])),
    );
    let build_chunk = DataBlock::create(vec![int_field("bk")], vec![build_key]);

    let mut index = HashIndex::new();
    // NULL build keys are never indexed: they can match nothing.
    index.insert(1, ptr(0, 0, None));
    index.insert(3, ptr(0, 2, None));

    let mut t = table(JoinType::Right, Vec::new(), vec![build_chunk]);

    // Probe. Key 3 matches exactly one build row, key 4 none.
    let probe_keys: Vec<i64> = vec![3, 4];
    let mut matched_pairs: Vec<(usize, RowPtr)> = Vec::new();
    for (i, key) in probe_keys.iter().enumerate() {
        if let Some(chain) = t.probe_key(&index, *key, &None, i) {
            for p in chain {
                matched_pairs.push((i, *p));
            }
        }
    }
    assert_eq!(matched_pairs.len(), 1);
    let (probe_row, build_ptr) = matched_pairs[0];
    assert_eq!(probe_row, 0);
    assert_eq!((build_ptr.chunk_index, build_ptr.row_index), (0, 2));

    // Inner join output: exactly one row pairing probe key 3 with build
    // key 3.
    let probe_block = DataBlock::create(vec![int_field("pk")], vec![Column::Int(vec![3])]);
    let matched_key = match t.row_space.chunks[0].columns[0].value_at(build_ptr.row_index as usize)
    {
        Some(Scalar::Int(v)) => v,
        other => panic!("expected an integer build key, got {:?}", other),
    };
    let build_block = DataBlock::create(
        vec![int_field("bk")],
        vec![Column::Int(vec![matched_key])],
    );
    let merged = t.merge_eq_block(&build_block, &probe_block).unwrap();
    assert_eq!(merged.num_rows(), 1);
    assert_eq!(merged.columns[0].value_at(0), Some(Scalar::Int(3)));
    assert_eq!(merged.columns[1].value_at(0), Some(Scalar::Int(3)));

    // Right join: the finalizer additionally emits build rows 0 (key 1)
    // and 1 (key NULL), to be paired with all-NULL probe columns.
    t.hash_join_desc.right_join_desc.build_indexes.push(build_ptr);
    let unmatched = t.find_unmatched_build_indexes().unwrap();
    assert_eq!(unmatched.len(), 2);
    assert_eq!((unmatched[0].chunk_index, unmatched[0].row_index), (0, 0));
    assert_eq!((unmatched[1].chunk_index, unmatched[1].row_index), (0, 1));

    // The probe columns for those rows are wrapped as all-NULL.
    let null_probe = JoinHashTable::set_validity(
        &Column::Int(vec![0, 0]),
        &bm(&[false, false]),
    )
    .unwrap();
    assert_eq!(null_probe.value_at(0), None);
    assert_eq!(null_probe.value_at(1), None);
}
