use query_core::bitmap::{combine_validities_3, Bitmap};
use query_core::column::{Column, Scalar};
use query_core::join::JoinHashTable;

fn bm(bits: &[bool]) -> Bitmap {
    Bitmap::from_bools(bits.to_vec())
}

#[test]
fn combine_all_none_is_none() {
    assert!(combine_validities_3(None, None, None).is_none());
}

#[test]
fn combine_intersects_three_bitmaps() {
    let a = bm(&[true, false, true, true]);
    let b = bm(&[true, true, false, true]);
    let c = bm(&[true, true, true, false]);
    let r = combine_validities_3(Some(&a), Some(&b), Some(&c)).unwrap();
    assert_eq!(r.len(), 4);
    assert!(r.get_bit(0));
    assert!(!r.get_bit(1));
    assert!(!r.get_bit(2));
    assert!(!r.get_bit(3));
}

#[test]
fn combine_treats_missing_bitmap_as_all_true() {
    let a = bm(&[true, false, true]);
    let r = combine_validities_3(Some(&a), None, None).unwrap();
    assert_eq!(r.len(), 3);
    assert!(r.get_bit(0));
    assert!(!r.get_bit(1));
    assert!(r.get_bit(2));

    let b = bm(&[false, true, true]);
    let r2 = combine_validities_3(None, Some(&a), Some(&b)).unwrap();
    assert!(!r2.get_bit(0));
    assert!(!r2.get_bit(1));
    assert!(r2.get_bit(2));
}

#[test]
fn set_validity_wraps_plain_column() {
    let col = Column::Int(vec![10, 20, 30]);
    let v = bm(&[true, false, true]);
    let wrapped = JoinHashTable::set_validity(&col, &v).unwrap();
    assert_eq!(wrapped.len(), 3);
    assert!(wrapped.is_nullable());
    assert_eq!(wrapped.value_at(0), Some(Scalar::Int(10)));
    assert_eq!(wrapped.value_at(1), None);
    assert_eq!(wrapped.value_at(2), Some(Scalar::Int(30)));
}

#[test]
fn set_validity_keeps_fully_null_column() {
    let col = Column::Null(2);
    let v = bm(&[true, true]);
    let wrapped = JoinHashTable::set_validity(&col, &v).unwrap();
    assert!(wrapped.is_null());
    assert_eq!(wrapped.len(), 2);
    assert_eq!(wrapped.value_at(0), None);
    assert_eq!(wrapped.value_at(1), None);
}

#[test]
fn set_validity_intersects_existing_bitmap() {
    let col = Column::Nullable(
        Box::new(Column::Int(vec![1, 2, 3])),
        Some(bm(&[true, false, true])),
    );
    let v = bm(&[false, true, true]);
    let wrapped = JoinHashTable::set_validity(&col, &v).unwrap();
    assert_eq!(wrapped.value_at(0), None);
    assert_eq!(wrapped.value_at(1), None);
    assert_eq!(wrapped.value_at(2), Some(Scalar::Int(3)));
}

#[test]
fn set_validity_pads_excess_positions_as_null() {
    // The validity is longer than the wrapped column's bitmap: the excess
    // rows default to NULL rather than being assumed present.
    let col = Column::Nullable(Box::new(Column::Int(vec![7, 8])), Some(bm(&[true, true])));
    let v = bm(&[true, true, true, true]);
    let wrapped = JoinHashTable::set_validity(&col, &v).unwrap();
    match &wrapped {
        Column::Nullable(_, Some(nb)) => {
            assert_eq!(nb.len(), 4);
            assert!(nb.get_bit(0));
            assert!(nb.get_bit(1));
            assert!(!nb.get_bit(2));
            assert!(!nb.get_bit(3));
        }
        _ => panic!("expected a nullable column with a bitmap"),
    }
}

#[test]
fn slice_windows_values_and_presence_together() {
    let col = Column::Nullable(
        Box::new(Column::Int(vec![1, 2, 3, 4])),
        Some(bm(&[true, false, true, true])),
    );
    let s = col.slice(1, 2);
    assert_eq!(s.len(), 2);
    assert_eq!(s.value_at(0), None);
    assert_eq!(s.value_at(1), Some(Scalar::Int(3)));

    let constant = Column::Constant(Box::new(Column::Int(vec![8])), 5);
    let sc = constant.slice(2, 3);
    assert!(sc.is_const());
    assert_eq!(sc.len(), 3);
    assert_eq!(sc.value_at(0), Some(Scalar::Int(8)));
}

#[test]
fn set_validity_applies_first_bit_to_constant() {
    let col = Column::Constant(Box::new(Column::Int(vec![42])), 3);
    let v_present = bm(&[true, false, false]);
    let wrapped = JoinHashTable::set_validity(&col, &v_present).unwrap();
    assert!(wrapped.is_const());
    assert_eq!(wrapped.len(), 3);
    assert_eq!(wrapped.value_at(0), Some(Scalar::Int(42)));
    assert_eq!(wrapped.value_at(1), Some(Scalar::Int(42)));

    let v_absent = bm(&[false, true, true]);
    let wrapped2 = JoinHashTable::set_validity(&col, &v_absent).unwrap();
    assert!(wrapped2.is_const());
    assert_eq!(wrapped2.value_at(0), None);
    assert_eq!(wrapped2.value_at(2), None);
}
