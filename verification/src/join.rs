//! The hash-join operator: merging matched batches, probing the index,
//! marker algebra, residual-predicate filtering, and the unmatched-row
//! finalizer for right/full outer joins.

use vstd::prelude::*;
use crate::bitmap::Bitmap;
use crate::bitmap::combine_validities_3;
use crate::bitmap::count_unset;
use crate::bitmap::opt_bit;
use crate::bitmap::opt_bitmap_view;
use crate::bitmap::opt_view;
use crate::block::DataBlock;
use crate::block::DataField;
use crate::block::DataTypeKind;
use crate::column::Column;
use crate::column::ColumnView;
use crate::column::Scalar;
use crate::column::bool_typed;
use crate::column::cview;
use crate::column::effective_bool;
use crate::column::set_validity_pre;
use crate::column::set_validity_view;
use crate::decimal::dec_digits;
use crate::decimal::u64_to_dec_string;
use crate::desc::HashJoinDesc;
use crate::desc::JoinType;
use crate::desc::MarkerKind;
use crate::error::ErrorCode;
use crate::index::HashIndex;
use crate::row::RowPtr;
use crate::row::RowSpace;
use crate::row::contains_row;
use crate::row::last_row_at;
use crate::row::lemma_last_row_at;

verus! {

/// The join operator's state: configuration, the build rows, and the hash
/// index over their keys.
pub struct JoinHashTable {
    pub hash_join_desc: HashJoinDesc,
    pub row_space: RowSpace,
    pub hash_table: HashIndex,
}

impl JoinHashTable {
    /// Merges a build batch and a probe batch that hold the same number of
    /// rows: every build column is appended after the probe columns,
    /// names kept in order, no row duplicated or dropped.
    pub fn merge_eq_block(
        &self,
        build_block: &DataBlock,
        probe_block: &DataBlock,
    ) -> (r: Result<DataBlock, ErrorCode>)
        requires
            build_block.well_formed(),
            probe_block.well_formed(),
            build_block.spec_num_rows() == probe_block.spec_num_rows(),
        ensures
            r is Ok,
            r matches Ok(b) ==> {
                &&& b.fields_view() == probe_block.fields_view() + build_block.fields_view()
                &&& b.columns_view() == probe_block.columns_view() + build_block.columns_view()
                &&& b.spec_num_rows() == probe_block.spec_num_rows()
                &&& b.well_formed()
            },
    {
        let mut out = probe_block.duplicate();
        let n = build_block.columns.len();
        let mut i: usize = 0;
        while i < n
            invariant
                i <= n,
                n == build_block.columns@.len(),
                n == build_block.fields@.len(),
                build_block.well_formed(),
                probe_block.well_formed(),
                build_block.spec_num_rows() == probe_block.spec_num_rows(),
                out.fields_view() =~= probe_block.fields_view() + build_block.fields_view()
                    .subrange(0, i as int),
                out.columns_view() =~= probe_block.columns_view() + build_block.columns_view()
                    .subrange(0, i as int),
                out.spec_num_rows() == probe_block.spec_num_rows(),
                out.well_formed(),
            decreases n - i,
        {
            let col = build_block.columns[i].duplicate();
            let field = build_block.fields[i].duplicate();
            proof {
                assert(build_block.columns_view()[i as int] == cview(build_block.columns@[i as int]));
                assert(cview(col).len() == build_block.spec_num_rows());
            }
            let merged = match out.add_column(col, field) {
                Ok(b) => b,
                Err(_) => {
                    proof {
                        assert(false);
                    }
                    return Err(
                        ErrorCode::LogicalError(
                            String::from_str("build and probe batches disagree on the row count"),
                        ),
                    );
                },
            };
            proof {
                assert(merged.fields_view() =~= probe_block.fields_view()
                    + build_block.fields_view().subrange(0, i + 1));
                assert(merged.columns_view() =~= probe_block.columns_view()
                    + build_block.columns_view().subrange(0, i + 1));
            }
            out = merged;
            i = i + 1;
        }
        proof {
            assert(out.fields_view() =~= probe_block.fields_view() + build_block.fields_view());
            assert(out.columns_view() =~= probe_block.columns_view() + build_block.columns_view());
        }
        Ok(out)
    }

    /// Produces the initial markers for `num_rows` key rows, all `False`,
    /// except that when the combined presence bitmap of the key columns
    /// marks a row absent — some key component is NULL — that row is
    /// pre-flagged `Null`: it can never equal anything. No row ever starts
    /// as `True`.
    pub fn init_markers(cols: &Vec<Column>, num_rows: usize) -> (r: Vec<MarkerKind>)
        requires
            forall|j: int| 0 <= j < cols@.len() ==> (#[trigger] cview(cols@[j])).well_formed(),
            forall|j: int| 0 <= j < cols@.len() ==> (#[trigger] cview(cols@[j])).len() == num_rows,
        ensures
            r@ == init_markers_view(views_of(cols@), num_rows as nat),
            forall|i: int| 0 <= i < num_rows ==> r@[i] != MarkerKind::True,
    {
        let ghost views = views_of(cols@);
        proof {
            assert forall|j: int| 0 <= j < views.len() implies (#[trigger] views[j]).well_formed()
                && views[j].len() == num_rows by {
                assert(views[j] == cview(cols@[j]));
            }
            assert forall|j: int|
                0 <= j < views.len() implies ((#[trigger] views[j]).validity_view() matches Some(b)
                ==> b.len() == num_rows) by {
                if views[j] is Nullable {
                    assert(views[j].well_formed());
                }
            }
        }
        let n_cols = cols.len();
        let mut markers: Vec<MarkerKind> = Vec::new();
        let mut i: usize = 0;
        while i < num_rows
            invariant
                i <= num_rows,
                markers@ =~= Seq::new(i as nat, |k: int| MarkerKind::False),
            decreases num_rows - i,
        {
            markers.push(MarkerKind::False);
            i = i + 1;
        }
        let mut has_nullable = false;
        let mut j: usize = 0;
        while j < n_cols
            invariant
                j <= n_cols,
                n_cols == cols@.len(),
                views == views_of(cols@),
                has_nullable <==> exists|k: int|
                    0 <= k < j && (#[trigger] views[k]).nullable_kind(),
            decreases n_cols - j,
        {
            let c = &cols[j];
            proof {
                assert(views[j as int] == cview(cols@[j as int]));
            }
            if c.is_nullable() || c.is_null() {
                has_nullable = true;
                proof {
                    assert(views[j as int].nullable_kind());
                }
            }
            j = j + 1;
        }
        proof {
            assert(has_nullable == any_nullable_col(views));
        }
        if has_nullable {
            let ghost target = scan_valids(views, None, num_rows as nat);
            proof {
                assert(views.subrange(0, n_cols as int) =~= views);
            }
            let mut valids: Option<Bitmap> = None;
            let mut k: usize = 0;
            while k < n_cols
                invariant_except_break
                    k <= n_cols,
                    n_cols == cols@.len(),
                    views == views_of(cols@),
                    forall|j2: int|
                        0 <= j2 < views.len() ==> (#[trigger] views[j2]).well_formed()
                            && views[j2].len() == num_rows,
                    scan_valids(
                        views.subrange(k as int, n_cols as int),
                        opt_bitmap_view(valids),
                        num_rows as nat,
                    ) == target,
                    valids matches Some(b) ==> b@.len() == num_rows,
                ensures
                    opt_bitmap_view(valids) == target,
                    valids matches Some(b) ==> b@.len() == num_rows,
                decreases n_cols - k,
            {
                let col = &cols[k];
                let ghost sub = views.subrange(k as int, n_cols as int);
                proof {
                    assert(sub[0] == views[k as int]);
                    assert(views[k as int] == cview(cols@[k as int]));
                    assert(sub.drop_first() =~= views.subrange(k + 1, n_cols as int));
                }
                let (is_all_null, tmp) = col.validity();
                if !is_all_null {
                    if let Some(tmp_b) = tmp {
                        proof {
                            assert(views[k as int].validity_view() == Some(tmp_b@));
                            assert(views[k as int] is Nullable);
                            assert(views[k as int].well_formed());
                            assert(tmp_b@.len() == num_rows);
                        }
                        if tmp_b.unset_bits() == 0 {
                            valids = Some(Bitmap::filled(num_rows, true));
                            proof {
                                assert(count_unset(tmp_b@, tmp_b@.len() as int) == 0) by {
                                    crate::bitmap::lemma_count_unset_zero(
                                        tmp_b@,
                                        tmp_b@.len() as int,
                                    );
                                }
                                assert(target == Some(
                                    Seq::new(num_rows as nat, |i2: int| true),
                                ));
                            }
                            break;
                        } else {
                            let ghost old_acc = opt_bitmap_view(valids);
                            let valids_ref = valids.as_ref();
                            proof {
                                assert(valids_ref matches Some(x) ==> x@.len() == num_rows);
                                assert(tmp_b@.len() == num_rows);
                            }
                            let combined = combine_validities_3(valids_ref, Some(tmp_b), None);
                            proof {
                                assert(count_unset(tmp_b@, tmp_b@.len() as int) > 0) by {
                                    crate::bitmap::lemma_count_unset_zero(
                                        tmp_b@,
                                        tmp_b@.len() as int,
                                    );
                                }
                                let rb = combined->0;
                                let av = and_valids(old_acc, tmp_b@)->0;
                                assert(rb@ =~= av);
                                assert(opt_bitmap_view(combined) == and_valids(old_acc, tmp_b@));
                            }
                            valids = combined;
                        }
                    }
                }
                k = k + 1;
            }
            match &valids {
                Some(v) => {
                    let mut idx: usize = 0;
                    while idx < num_rows
                        invariant
                            idx <= num_rows,
                            markers@.len() == num_rows,
                            v@.len() == num_rows,
                            Some(v@) == target,
                            markers@ =~= Seq::new(
                                num_rows as nat,
                                |i2: int| if i2 < idx {
                                    marker_from_valids(target, i2)
                                } else {
                                    MarkerKind::False
                                },
                            ),
                        decreases num_rows - idx,
                    {
                        if !v.get_bit(idx) {
                            markers.set(idx, MarkerKind::Null);
                        }
                        idx = idx + 1;
                        proof {
                            assert(markers@ =~= Seq::new(
                                num_rows as nat,
                                |i2: int| if i2 < idx {
                                    marker_from_valids(target, i2)
                                } else {
                                    MarkerKind::False
                                },
                            ));
                        }
                    }
                },
                None => {},
            }
            proof {
                assert(markers@ =~= init_markers_view(views, num_rows as nat));
            }
        } else {
            proof {
                assert(markers@ =~= init_markers_view(views, num_rows as nat));
            }
        }
        markers
    }

    /// Converts the markers into the mark-join output batch: one nullable
    /// boolean column, named after the configured mark-column index, whose
    /// cell is true exactly where the effective marker is `True` and NULL
    /// exactly where it is `Null` — a `False` marker being tainted to
    /// `Null` when `has_null` holds. Fails when no mark column was
    /// configured, which a well-formed mark-join plan rules out.
    pub fn create_marker_block(&self, has_null: bool, markers: Vec<MarkerKind>) -> (r: Result<
        DataBlock,
        ErrorCode,
    >)
        ensures
            r is Ok <==> self.hash_join_desc.marker_join_desc.marker_index is Some,
            r matches Err(e) ==> e.is_logical_error(),
            r matches Ok(b) ==> {
                let idx = self.hash_join_desc.marker_join_desc.marker_index->0;
                &&& b.well_formed()
                &&& b.fields_view().len() == 1
                &&& b.columns_view().len() == 1
                &&& b.fields_view()[0].name == dec_digits(idx as nat)
                &&& b.fields_view()[0].data_type == DataTypeKind::Nullable(
                    Box::new(DataTypeKind::Boolean),
                )
                &&& b.spec_num_rows() == markers@.len()
                &&& forall|i: int|
                    0 <= i < markers@.len() ==> b.columns_view()[0].cell(i) == marker_cell(
                        markers@[i],
                        has_null,
                    )
            },
    {
        let idx = match self.hash_join_desc.marker_join_desc.marker_index {
            Some(i) => i,
            None => {
                return Err(ErrorCode::LogicalError(String::from_str("Invalid mark join")));
            },
        };
        let n = markers.len();
        let mut validity = Bitmap::new();
        let mut bools: Vec<bool> = Vec::new();
        let mut i: usize = 0;
        while i < n
            invariant
                i <= n,
                n == markers@.len(),
                validity@ =~= Seq::new(
                    i as nat,
                    |k: int| marker_cell(markers@[k], has_null) is Some,
                ),
                bools@ =~= Seq::new(
                    i as nat,
                    |k: int| marker_cell(markers@[k], has_null) == Some(Scalar::Bool(true)),
                ),
            decreases n - i,
        {
            let m = markers[i];
            let marker = if m == MarkerKind::False && has_null {
                MarkerKind::Null
            } else {
                m
            };
            validity.push(!(marker == MarkerKind::Null));
            bools.push(marker == MarkerKind::True);
            i = i + 1;
            proof {
                assert(validity@ =~= Seq::new(
                    i as nat,
                    |k: int| marker_cell(markers@[k], has_null) is Some,
                ));
                assert(bools@ =~= Seq::new(
                    i as nat,
                    |k: int| marker_cell(markers@[k], has_null) == Some(Scalar::Bool(true)),
                ));
            }
        }
        let ghost gbools = bools@;
        let ghost gvalidity = validity@;
        let boolean_column = Column::Bool(bools);
        proof {
            assert(boolean_column@ == ColumnView::Bool(gbools));
        }
        let marker_column = match Self::set_validity(&boolean_column, &validity) {
            Ok(c) => c,
            Err(e) => {
                proof {
                    assert(false);
                }
                return Err(e);
            },
        };
        let ghost gmarker = cview(marker_column);
        proof {
            assert(gmarker == set_validity_view(ColumnView::Bool(gbools), gvalidity));
            assert(gmarker == ColumnView::Nullable(
                Box::new(ColumnView::Bool(gbools)),
                Some(gvalidity),
            ));
        }
        let name = u64_to_dec_string(idx as u64);
        let field = DataField::new(name, DataTypeKind::Nullable(Box::new(DataTypeKind::Boolean)));
        let mut fields: Vec<DataField> = Vec::new();
        fields.push(field);
        let mut columns: Vec<Column> = Vec::new();
        columns.push(marker_column);
        let block = DataBlock::create(fields, columns);
        proof {
            assert(block.columns_view()[0] == cview(block.columns@[0]));
            assert(cview(block.columns@[0]) == gmarker);
            assert(gbools.len() == markers@.len());
            assert(gvalidity.len() == markers@.len());
            assert forall|i2: int| 0 <= i2 < markers@.len() implies block.columns_view()[0].cell(
                i2,
            ) == marker_cell(markers@[i2], has_null) by {
                assert(gmarker.cell(i2) == (if opt_bit(Some(gvalidity), i2) {
                    ColumnView::Bool(gbools).cell(i2)
                } else {
                    None::<Scalar>
                }));
                assert(gmarker.cell(i2) == (if gvalidity[i2] {
                    Some(Scalar::Bool(gbools[i2]))
                } else {
                    None::<Scalar>
                }));
            }
            assert(block.fields_view().len() == 1);
            assert(block.columns_view().len() == 1);
            assert(block.fields_view()[0].name == dec_digits(idx as nat));
            assert(block.fields_view()[0].data_type == DataTypeKind::Nullable(
                Box::new(DataTypeKind::Boolean),
            ));
            assert(gmarker.len() == ColumnView::Bool(gbools).len());
            assert(gmarker.len() == gbools.len());
            assert(block.spec_num_rows() == markers@.len());
            assert(gmarker.well_formed()) by {
                assert(ColumnView::Bool(gbools).well_formed());
                assert(!(ColumnView::Bool(gbools) is Nullable));
                assert(gvalidity.len() == gbools.len());
            }
            assert(block.well_formed());
        }
        Ok(block)
    }

    /// Produces a nullable column over `column` whose presence bitmap is
    /// the intersection of `validity` with any pre-existing presence
    /// information. Values are never reinterpreted, only presence: an
    /// already-fully-null column is returned unchanged.
    pub fn set_validity(column: &Column, validity: &Bitmap) -> (r: Result<Column, ErrorCode>)
        requires
            column@.well_formed(),
            set_validity_pre(column@, validity@),
        ensures
            r is Ok,
            r matches Ok(c2) ==> c2@ == set_validity_view(column@, validity@),
            r matches Ok(c2) ==> (column@ is Null ==> c2@ == column@),
        decreases column,
    {
        match column {
            Column::Null(n) => Ok(Column::Null(*n)),
            Column::Constant(inner, n) => {
                let sliced = validity.slice(0, 1);
                let new_inner = match Self::set_validity(inner, &sliced) {
                    Ok(c) => c,
                    Err(e) => {
                        return Err(e);
                    },
                };
                Ok(Column::Constant(Box::new(new_inner), *n))
            },
            Column::Nullable(inner, ob) => {
                let inner_len = inner.len();
                let mut nb = Bitmap::new();
                let mut i: usize = 0;
                let ghost existing = match column@->Nullable_1 {
                    Some(b) => b,
                    None => Seq::new(cview(**inner).len(), |j: int| true),
                };
                while i < inner_len
                    invariant
                        i <= inner_len,
                        inner_len == existing.len(),
                        inner_len <= validity@.len(),
                        ob matches Some(b) ==> b@ == existing,
                        ob is None ==> existing == Seq::new(inner_len as nat, |j: int| true),
                        nb@ =~= Seq::new(i as nat, |j: int| validity@[j] && existing[j]),
                    decreases inner_len - i,
                {
                    let existing_bit = match ob {
                        Some(b) => b.get_bit(i),
                        None => true,
                    };
                    let vbit = validity.get_bit(i);
                    nb.push(vbit && existing_bit);
                    i = i + 1;
                    proof {
                        assert(nb@ =~= Seq::new(i as nat, |j: int| validity@[j] && existing[j]));
                    }
                }
                let diff_len = validity.len() - inner_len;
                nb.extend_constant(diff_len, false);
                let r = Column::Nullable(Box::new(inner.duplicate()), Some(nb));
                proof {
                    let target = set_validity_view(column@, validity@);
                    assert(nb@ =~= target->Nullable_1->0);
                    assert(r@ == target);
                }
                Ok(r)
            },
            _ => Ok(Column::Nullable(Box::new(column.duplicate()), Some(validity.duplicate()))),
        }
    }

    /// Distils the evaluated residual ("other") predicate into a filter:
    /// `(bitmap, all_true, all_false)`. The expression engine that
    /// produced `predicate_result` is an outside collaborator; this
    /// function accepts whatever boolean (possibly nullable) column it
    /// returned, treating a NULL cell as false for row admission. A
    /// constant result short-circuits to `(None, C, !C)` without
    /// materializing a bitmap; otherwise the bitmap holds one admission
    /// bit per merged row.
    pub fn get_other_filters(
        &self,
        merged_block: &DataBlock,
        predicate_result: &Column,
    ) -> (r: Result<(Option<Bitmap>, bool, bool), ErrorCode>)
        requires
            predicate_result@.well_formed(),
            predicate_result@.len() == merged_block.spec_num_rows(),
        ensures
            r is Ok <==> bool_typed(predicate_result@),
            r matches Err(e) ==> e.is_illegal_data_type(),
            r matches Ok(t) ==> {
                &&& (t.0 is None <==> predicate_result@ is Constant)
                &&& (predicate_result@ is Constant ==> t.1 == effective_bool(predicate_result@, 0)
                    && t.2 == !t.1)
                &&& (t.0 matches Some(bm) ==> {
                    &&& bm@.len() == predicate_result@.len()
                    &&& (forall|i: int|
                        0 <= i < bm@.len() ==> bm@[i] == effective_bool(predicate_result@, i))
                    &&& (t.1 <==> (forall|i: int| 0 <= i < bm@.len() ==> bm@[i]))
                    &&& (t.2 <==> (forall|i: int| 0 <= i < bm@.len() ==> !bm@[i]))
                })
            },
    {
        let predict = match DataBlock::cast_to_nonull_boolean(predicate_result) {
            Ok(c) => c,
            Err(e) => {
                return Err(e);
            },
        };
        if predict.is_const() {
            let v = match &predict {
                Column::Constant(inner, _) => {
                    proof {
                        assert(predict@->Constant_0 == Box::new(cview(**inner)));
                    }
                    match inner.value_at(0) {
                        Some(Scalar::Bool(true)) => true,
                        _ => false,
                    }
                },
                _ => {
                    proof {
                        assert(false);
                    }
                    false
                },
            };
            proof {
                assert(v == effective_bool(predicate_result@, 0));
            }
            return Ok((None, v, !v));
        }
        match predict {
            Column::Bool(bits) => {
                let ghost gbits = bits@;
                let bm = Bitmap::from_bools(bits);
                let rows = bm.len();
                let count_zeros = bm.unset_bits();
                proof {
                    crate::bitmap::lemma_count_unset_full(bm@, bm@.len() as int);
                    assert(bm@ == gbits);
                    assert forall|i: int| 0 <= i < bm@.len() implies bm@[i] == effective_bool(
                        predicate_result@,
                        i,
                    ) by {
                        assert(ColumnView::Bool(gbits).cell(i) == Some(Scalar::Bool(gbits[i])));
                    }
                }
                Ok((Some(bm), count_zeros == 0, rows == count_zeros))
            },
            _ => {
                proof {
                    assert(false);
                }
                Err(
                    ErrorCode::IllegalDataType(
                        String::from_str("the predicate did not evaluate to a boolean column"),
                    ),
                )
            },
        }
    }

    /// Scans the row space once, in storage order (chunk-major then
    /// row-minor), and returns every build row owed to the output of a
    /// right/full outer join: rows never matched during probing, and —
    /// for full joins — rows matched by key whose most recently recorded
    /// marker is `False`, meaning the residual predicate rejected every
    /// match. Each never-matched row is also recorded in the match-count
    /// map with a count of zero, idempotently: an existing count is never
    /// overwritten.
    pub fn find_unmatched_build_indexes(&mut self) -> (r: Result<Vec<RowPtr>, ErrorCode>)
        requires
            old(self).hash_join_desc.right_join_desc.row_state.wf(),
            old(self).row_space.chunks@.len() <= u32::MAX,
            forall|c: int|
                0 <= c < old(self).row_space.chunks@.len() ==> (#[trigger] old(
                    self,
                ).row_space.chunks@[c]).spec_num_rows() <= u32::MAX,
        ensures
            r is Ok,
            final(self).row_space == old(self).row_space,
            final(self).hash_table == old(self).hash_table,
            final(self).hash_join_desc.join_type == old(self).hash_join_desc.join_type,
            final(self).hash_join_desc.marker_join_desc == old(self).hash_join_desc.marker_join_desc,
            final(self).hash_join_desc.right_join_desc.build_indexes == old(
                self,
            ).hash_join_desc.right_join_desc.build_indexes,
            final(self).hash_join_desc.right_join_desc.row_state.wf(),
            final(self).hash_join_desc.right_join_desc.row_state.as_map() =~= row_state_target(
                old(self).hash_join_desc.right_join_desc.row_state.as_map(),
                old(self).row_space.chunks@,
                old(self).hash_join_desc.right_join_desc.build_indexes@,
            ),
            r matches Ok(out) ==> finalizer_inv(
                out@,
                old(self).row_space.chunks@,
                old(self).hash_join_desc.right_join_desc.build_indexes@,
                old(self).hash_join_desc.join_type,
                old(self).row_space.chunks@.len() as int,
                0,
            ),
            r matches Ok(out) ==> (forall|c: u32, rr: u32|
                #![trigger spec_valid_pos(old(self).row_space.chunks@, c, rr)]
                spec_valid_pos(old(self).row_space.chunks@, c, rr) && emit_row(
                    old(self).hash_join_desc.right_join_desc.build_indexes@,
                    old(self).hash_join_desc.join_type,
                    c,
                    rr,
                ) ==> contains_row(out@, c, rr)),
    {
        let ghost chunks = self.row_space.chunks@;
        let ghost matched = self.hash_join_desc.right_join_desc.build_indexes@;
        let ghost jt = self.hash_join_desc.join_type;
        let ghost m0 = self.hash_join_desc.right_join_desc.row_state.as_map();
        let mut unmatched: Vec<RowPtr> = Vec::new();
        let n_chunks = self.row_space.chunks.len();
        let mut ci: usize = 0;
        proof {
            assert(self.hash_join_desc.right_join_desc.row_state.as_map() =~= row_state_partial(
                m0,
                chunks,
                matched,
                0,
                0,
            ));
        }
        while ci < n_chunks
            invariant
                ci <= n_chunks,
                n_chunks == chunks.len(),
                chunks.len() <= u32::MAX,
                forall|c2: int|
                    0 <= c2 < chunks.len() ==> (#[trigger] chunks[c2]).spec_num_rows()
                        <= u32::MAX,
                self.row_space == old(self).row_space,
                self.hash_table == old(self).hash_table,
                self.hash_join_desc.join_type == old(self).hash_join_desc.join_type,
                self.hash_join_desc.marker_join_desc == old(self).hash_join_desc.marker_join_desc,
                self.hash_join_desc.right_join_desc.build_indexes == old(
                    self,
                ).hash_join_desc.right_join_desc.build_indexes,
                chunks == old(self).row_space.chunks@,
                matched == old(self).hash_join_desc.right_join_desc.build_indexes@,
                jt == old(self).hash_join_desc.join_type,
                m0 == old(self).hash_join_desc.right_join_desc.row_state.as_map(),
                self.hash_join_desc.right_join_desc.row_state.wf(),
                self.hash_join_desc.right_join_desc.row_state.as_map() =~= row_state_partial(
                    m0,
                    chunks,
                    matched,
                    ci as int,
                    0,
                ),
                finalizer_inv(unmatched@, chunks, matched, jt, ci as int, 0),
            decreases n_chunks - ci,
        {
            let chunk_rows = self.row_space.chunks[ci].num_rows();
            let mut ri: usize = 0;
            while ri < chunk_rows
                invariant
                    ci < n_chunks,
                    ri <= chunk_rows,
                    n_chunks == chunks.len(),
                    chunks.len() <= u32::MAX,
                    chunk_rows == chunks[ci as int].spec_num_rows(),
                    chunk_rows <= u32::MAX,
                    self.row_space == old(self).row_space,
                    self.hash_table == old(self).hash_table,
                    self.hash_join_desc.join_type == old(self).hash_join_desc.join_type,
                    self.hash_join_desc.marker_join_desc == old(
                        self,
                    ).hash_join_desc.marker_join_desc,
                    self.hash_join_desc.right_join_desc.build_indexes == old(
                        self,
                    ).hash_join_desc.right_join_desc.build_indexes,
                    chunks == old(self).row_space.chunks@,
                    matched == old(self).hash_join_desc.right_join_desc.build_indexes@,
                    jt == old(self).hash_join_desc.join_type,
                    m0 == old(self).hash_join_desc.right_join_desc.row_state.as_map(),
                    self.hash_join_desc.right_join_desc.row_state.wf(),
                    self.hash_join_desc.right_join_desc.row_state.as_map() =~= row_state_partial(
                        m0,
                        chunks,
                        matched,
                        ci as int,
                        ri as int,
                    ),
                    finalizer_inv(unmatched@, chunks, matched, jt, ci as int, ri as int),
                decreases chunk_rows - ri,
            {
                let c32 = ci as u32;
                let r32 = ri as u32;
                proof {
                    assert(c32 as int == ci as int);
                    assert(r32 as int == ri as int);
                }
                let found = last_match(&self.hash_join_desc.right_join_desc.build_indexes, c32, r32);
                let ghost pre_map = self.hash_join_desc.right_join_desc.row_state.as_map();
                let ghost pre_out = unmatched@;
                match found {
                    None => {
                        self.hash_join_desc.right_join_desc.row_state.or_insert_zero(c32, r32);
                        let row_ptr = RowPtr { chunk_index: c32, row_index: r32, marker: None };
                        unmatched.push(row_ptr);
                        proof {
                            assert(emit_unmatched(matched, c32, r32));
                            assert(spec_valid_pos(chunks, c32, r32));
                            assert(unmatched@ == pre_out.push(row_ptr));
                            assert(row_ptr == emitted_ptr(matched, c32, r32));
                            lemma_finalizer_step_push(
                                pre_out,
                                row_ptr,
                                chunks,
                                matched,
                                jt,
                                ci as int,
                                ri as int,
                            );
                            assert(self.hash_join_desc.right_join_desc.row_state.as_map()
                                =~= row_state_partial(
                                m0,
                                chunks,
                                matched,
                                ci as int,
                                ri as int + 1,
                            )) by {
                                assert(self.hash_join_desc.right_join_desc.row_state.as_map()
                                    =~= if pre_map.contains_key((c32, r32)) {
                                    pre_map
                                } else {
                                    pre_map.insert((c32, r32), 0)
                                });
                                lemma_row_state_step(
                                    m0,
                                    pre_map,
                                    chunks,
                                    matched,
                                    ci as int,
                                    ri as int,
                                    c32,
                                    r32,
                                );
                            }
                        }
                    },
                    Some(j) => {
                        let mut pushed = false;
                        if self.hash_join_desc.join_type == JoinType::Full {
                            let p = self.hash_join_desc.right_join_desc.build_indexes[j];
                            let is_false = match p.marker {
                                Some(MarkerKind::False) => true,
                                _ => false,
                            };
                            if is_false {
                                unmatched.push(p);
                                pushed = true;
                                proof {
                                    assert(p == matched[last_row_at(matched, c32, r32)]);
                                    assert(emit_residual(matched, jt, c32, r32));
                                    assert(p.at(c32, r32));
                                    assert(p.chunk_index == c32 && p.row_index == r32);
                                    assert(p == emitted_ptr(matched, c32, r32));
                                    lemma_finalizer_step_push(
                                        pre_out,
                                        p,
                                        chunks,
                                        matched,
                                        jt,
                                        ci as int,
                                        ri as int,
                                    );
                                }
                            }
                        }
                        proof {
                            if !pushed {
                                assert(unmatched@ == pre_out);
                                assert(!emit_row(matched, jt, c32, r32)) by {
                                    assert(contains_row(matched, c32, r32));
                                    if jt == JoinType::Full {
                                        assert(!(matched[last_row_at(matched, c32, r32)].marker
                                            == Some(MarkerKind::False)));
                                    }
                                }
                                lemma_finalizer_step_skip(
                                    pre_out,
                                    chunks,
                                    matched,
                                    jt,
                                    ci as int,
                                    ri as int,
                                    c32,
                                    r32,
                                );
                            }
                            assert(self.hash_join_desc.right_join_desc.row_state.as_map()
                                =~= row_state_partial(
                                m0,
                                chunks,
                                matched,
                                ci as int,
                                ri as int + 1,
                            )) by {
                                assert(self.hash_join_desc.right_join_desc.row_state.as_map()
                                    =~= row_state_partial(
                                    m0,
                                    chunks,
                                    matched,
                                    ci as int,
                                    ri as int,
                                ));
                                assert(!emit_unmatched(matched, c32, r32));
                                lemma_row_state_no_step(
                                    m0,
                                    chunks,
                                    matched,
                                    ci as int,
                                    ri as int,
                                    c32,
                                    r32,
                                );
                            }
                        }
                    },
                }
                ri = ri + 1;
            }
            ci = ci + 1;
            proof {
                lemma_cursor_next_chunk(unmatched@, m0, chunks, matched, jt, ci as int - 1);
                assert(self.hash_join_desc.right_join_desc.row_state.as_map()
                    =~= row_state_partial(m0, chunks, matched, ci as int, 0));
                assert(finalizer_inv(unmatched@, chunks, matched, jt, ci as int, 0));
            }
        }
        proof {
            lemma_cursor_done(m0, chunks, matched);
            assert(self.hash_join_desc.right_join_desc.row_state.as_map() =~= row_state_target(
                m0,
                chunks,
                matched,
            ));
            assert forall|c: u32, rr: u32|
                spec_valid_pos(chunks, c, rr) && emit_row(matched, jt, c, rr) implies contains_row(
                unmatched@,
                c,
                rr,
            ) by {
                assert(scanned_before(c, rr, chunks.len() as int, 0));
            }
        }
        Ok(unmatched)
    }

    /// Looks the key of probe row `i` up in the hash index. A NULL key
    /// (its presence bit unset) never matches anything and never touches
    /// the index.
    pub fn probe_key<'a>(
        &self,
        hash_table: &'a HashIndex,
        key: i64,
        valids: &Option<Bitmap>,
        i: usize,
    ) -> (r: Option<&'a Vec<RowPtr>>)
        requires
            hash_table.wf(),
            valids matches Some(v) ==> i < v@.len(),
        ensures
            match r {
                Some(chain) => {
                    &&& opt_bit(opt_view(valids_as_ref(valids)), i as int)
                    &&& hash_table.as_map().contains_key(key)
                    &&& chain@ == hash_table.as_map()[key]
                },
                None => !opt_bit(opt_view(valids_as_ref(valids)), i as int)
                    || !hash_table.as_map().contains_key(key),
            },
    {
        let present = match valids {
            Some(v) => v.get_bit(i),
            None => true,
        };
        if present {
            return hash_table.find_key(key);
        }
        None
    }
}

/// Whether `(c, r)` addresses an existing build row.
pub open spec fn spec_valid_pos(chunks: Seq<DataBlock>, c: u32, r: u32) -> bool {
    (c as int) < chunks.len() && (r as nat) < chunks[c as int].spec_num_rows()
}

/// The build row never matched any probe row.
pub open spec fn emit_unmatched(matched: Seq<RowPtr>, c: u32, r: u32) -> bool {
    !contains_row(matched, c, r)
}

/// The build row matched by key, but its most recently recorded marker is
/// `False`: the residual predicate rejected every match, which for a full
/// outer join is equivalent to no match at all.
pub open spec fn emit_residual(matched: Seq<RowPtr>, jt: JoinType, c: u32, r: u32) -> bool {
    &&& jt == JoinType::Full
    &&& contains_row(matched, c, r)
    &&& matched[last_row_at(matched, c, r)].marker == Some(MarkerKind::False)
}

/// Whether the finalizer emits the build row at `(c, r)`.
pub open spec fn emit_row(matched: Seq<RowPtr>, jt: JoinType, c: u32, r: u32) -> bool {
    emit_unmatched(matched, c, r) || emit_residual(matched, jt, c, r)
}

/// The locator the finalizer emits for `(c, r)`: a fresh unmarked locator
/// for a never-matched row, the recorded locator for a residual-excluded
/// one.
pub open spec fn emitted_ptr(matched: Seq<RowPtr>, c: u32, r: u32) -> RowPtr {
    if contains_row(matched, c, r) {
        matched[last_row_at(matched, c, r)]
    } else {
        RowPtr { chunk_index: c, row_index: r, marker: None }
    }
}

/// Strict storage order: chunk-major, then row-minor.
pub open spec fn pos_lt(a: RowPtr, b: RowPtr) -> bool {
    a.chunk_index < b.chunk_index || (a.chunk_index == b.chunk_index && a.row_index
        < b.row_index)
}

/// Whether position `(c, r)` lies before the scan cursor `(ci, ri)`.
pub open spec fn scanned_before(c: u32, r: u32, ci: int, ri: int) -> bool {
    (c as int) < ci || ((c as int) == ci && (r as int) < ri)
}

/// The match-count map after the finalizer: every never-matched build row
/// is recorded with count zero unless already present; existing counts
/// are kept.
pub open spec fn row_state_target(
    m: Map<(u32, u32), usize>,
    chunks: Seq<DataBlock>,
    matched: Seq<RowPtr>,
) -> Map<(u32, u32), usize> {
    Map::new(
        |k: (u32, u32)| m.contains_key(k) || (spec_valid_pos(chunks, k.0, k.1) && emit_unmatched(
            matched,
            k.0,
            k.1,
        )),
        |k: (u32, u32)| if m.contains_key(k) {
            m[k]
        } else {
            0
        },
    )
}

/// The match-count map while the scan stands at `(ci, ri)`.
pub open spec fn row_state_partial(
    m: Map<(u32, u32), usize>,
    chunks: Seq<DataBlock>,
    matched: Seq<RowPtr>,
    ci: int,
    ri: int,
) -> Map<(u32, u32), usize> {
    Map::new(
        |k: (u32, u32)| m.contains_key(k) || (spec_valid_pos(chunks, k.0, k.1) && scanned_before(
            k.0,
            k.1,
            ci,
            ri,
        ) && emit_unmatched(matched, k.0, k.1)),
        |k: (u32, u32)| if m.contains_key(k) {
            m[k]
        } else {
            0
        },
    )
}

/// What the finalizer guarantees of its output once the scan stands at
/// `(ci, ri)`: every emitted locator addresses a scanned position it was
/// owed at, every owed scanned position was emitted, and the output is in
/// strict storage order.
pub open spec fn finalizer_inv(
    out: Seq<RowPtr>,
    chunks: Seq<DataBlock>,
    matched: Seq<RowPtr>,
    jt: JoinType,
    ci: int,
    ri: int,
) -> bool {
    &&& forall|k: int|
        0 <= k < out.len() ==> {
            let p = #[trigger] out[k];
            &&& spec_valid_pos(chunks, p.chunk_index, p.row_index)
            &&& scanned_before(p.chunk_index, p.row_index, ci, ri)
            &&& emit_row(matched, jt, p.chunk_index, p.row_index)
            &&& p == emitted_ptr(matched, p.chunk_index, p.row_index)
        }
    &&& forall|c: u32, rr: u32|
        #![trigger spec_valid_pos(chunks, c, rr)]
        spec_valid_pos(chunks, c, rr) && scanned_before(c, rr, ci, ri) && emit_row(
            matched,
            jt,
            c,
            rr,
        ) ==> contains_row(out, c, rr)
    &&& forall|k1: int, k2: int| 0 <= k1 < k2 < out.len() ==> pos_lt(out[k1], out[k2])
}

proof fn lemma_finalizer_step_push(
    out: Seq<RowPtr>,
    p: RowPtr,
    chunks: Seq<DataBlock>,
    matched: Seq<RowPtr>,
    jt: JoinType,
    ci: int,
    ri: int,
)
    requires
        finalizer_inv(out, chunks, matched, jt, ci, ri),
        p.chunk_index as int == ci,
        p.row_index as int == ri,
        spec_valid_pos(chunks, p.chunk_index, p.row_index),
        emit_row(matched, jt, p.chunk_index, p.row_index),
        p == emitted_ptr(matched, p.chunk_index, p.row_index),
    ensures
        finalizer_inv(out.push(p), chunks, matched, jt, ci, ri + 1),
{
    let neu = out.push(p);
    assert forall|k: int|
        0 <= k < neu.len() implies (spec_valid_pos(
        chunks,
        (#[trigger] neu[k]).chunk_index,
        neu[k].row_index,
    ) && scanned_before(neu[k].chunk_index, neu[k].row_index, ci, ri + 1) && emit_row(
        matched,
        jt,
        neu[k].chunk_index,
        neu[k].row_index,
    ) && neu[k] == emitted_ptr(matched, neu[k].chunk_index, neu[k].row_index)) by {
        if k < out.len() {
            assert(neu[k] == out[k]);
        } else {
            assert(neu[k] == p);
        }
    }
    assert forall|c: u32, rr: u32|
        spec_valid_pos(chunks, c, rr) && scanned_before(c, rr, ci, ri + 1) && emit_row(
        matched,
        jt,
        c,
        rr,
    ) implies contains_row(neu, c, rr) by {
        if scanned_before(c, rr, ci, ri) {
            assert(contains_row(out, c, rr));
            let k = choose|k: int| 0 <= k < out.len() && (#[trigger] out[k]).at(c, rr);
            assert(neu[k] == out[k]);
            assert(neu[k].at(c, rr));
            assert(contains_row(neu, c, rr));
        } else {
            assert(c as int == ci && rr as int == ri);
            assert(c == p.chunk_index && rr == p.row_index);
            assert(neu[neu.len() - 1] == p);
            assert(neu[neu.len() - 1].at(c, rr));
            assert(contains_row(neu, c, rr));
        }
    }
    assert forall|k1: int, k2: int| 0 <= k1 < k2 < neu.len() implies pos_lt(neu[k1], neu[k2]) by {
        if k2 < out.len() {
            assert(neu[k1] == out[k1] && neu[k2] == out[k2]);
        } else {
            assert(neu[k2] == p);
            assert(neu[k1] == out[k1]);
            assert(scanned_before(out[k1].chunk_index, out[k1].row_index, ci, ri));
        }
    }
}

proof fn lemma_finalizer_step_skip(
    out: Seq<RowPtr>,
    chunks: Seq<DataBlock>,
    matched: Seq<RowPtr>,
    jt: JoinType,
    ci: int,
    ri: int,
    c32: u32,
    r32: u32,
)
    requires
        finalizer_inv(out, chunks, matched, jt, ci, ri),
        c32 as int == ci,
        r32 as int == ri,
        !emit_row(matched, jt, c32, r32),
    ensures
        finalizer_inv(out, chunks, matched, jt, ci, ri + 1),
{
    assert forall|k: int|
        0 <= k < out.len() implies scanned_before(
        (#[trigger] out[k]).chunk_index,
        out[k].row_index,
        ci,
        ri + 1,
    ) by {}
    assert forall|c: u32, rr: u32|
        spec_valid_pos(chunks, c, rr) && scanned_before(c, rr, ci, ri + 1) && emit_row(
        matched,
        jt,
        c,
        rr,
    ) implies contains_row(out, c, rr) by {
        if !scanned_before(c, rr, ci, ri) {
            assert(c as int == ci && rr as int == ri);
            assert(c == c32 && rr == r32);
            assert(false);
        }
    }
}

proof fn lemma_row_state_step(
    m0: Map<(u32, u32), usize>,
    pre: Map<(u32, u32), usize>,
    chunks: Seq<DataBlock>,
    matched: Seq<RowPtr>,
    ci: int,
    ri: int,
    c32: u32,
    r32: u32,
)
    requires
        pre =~= row_state_partial(m0, chunks, matched, ci, ri),
        c32 as int == ci,
        r32 as int == ri,
        spec_valid_pos(chunks, c32, r32),
        emit_unmatched(matched, c32, r32),
    ensures
        (if pre.contains_key((c32, r32)) {
            pre
        } else {
            pre.insert((c32, r32), 0)
        }) =~= row_state_partial(m0, chunks, matched, ci, ri + 1),
{
    let neu = if pre.contains_key((c32, r32)) {
        pre
    } else {
        pre.insert((c32, r32), 0)
    };
    let target = row_state_partial(m0, chunks, matched, ci, ri + 1);
    assert forall|k: (u32, u32)| #[trigger]
        target.contains_key(k) implies neu.contains_key(k) by {
        if !(m0.contains_key(k) || (spec_valid_pos(chunks, k.0, k.1) && scanned_before(
            k.0,
            k.1,
            ci,
            ri,
        ) && emit_unmatched(matched, k.0, k.1))) {
            assert(k.0 as int == ci && k.1 as int == ri);
            assert(k == (c32, r32));
        }
    }
    assert forall|k: (u32, u32)| #[trigger] neu.contains_key(k) implies target.contains_key(k)
        && neu[k] == target[k] by {
        if k == (c32, r32) {
            assert(scanned_before(c32, r32, ci, ri + 1));
            assert(target.contains_key(k));
            if !pre.contains_key(k) {
                assert(neu[k] == 0);
                assert(!m0.contains_key(k));
            }
        }
    }
    assert(neu =~= target);
}

proof fn lemma_row_state_no_step(
    m0: Map<(u32, u32), usize>,
    chunks: Seq<DataBlock>,
    matched: Seq<RowPtr>,
    ci: int,
    ri: int,
    c32: u32,
    r32: u32,
)
    requires
        c32 as int == ci,
        r32 as int == ri,
        !emit_unmatched(matched, c32, r32),
    ensures
        row_state_partial(m0, chunks, matched, ci, ri) =~= row_state_partial(
            m0,
            chunks,
            matched,
            ci,
            ri + 1,
        ),
{
    let a = row_state_partial(m0, chunks, matched, ci, ri);
    let b = row_state_partial(m0, chunks, matched, ci, ri + 1);
    assert forall|k: (u32, u32)| #[trigger] b.contains_key(k) implies a.contains_key(k) by {
        if !m0.contains_key(k) && !scanned_before(k.0, k.1, ci, ri) {
            assert(k.0 as int == ci && k.1 as int == ri);
            assert(k.0 == c32 && k.1 == r32);
            assert(!emit_unmatched(matched, k.0, k.1));
        }
    }
    assert(a =~= b);
}

proof fn lemma_cursor_next_chunk(
    out: Seq<RowPtr>,
    m0: Map<(u32, u32), usize>,
    chunks: Seq<DataBlock>,
    matched: Seq<RowPtr>,
    jt: JoinType,
    ci: int,
)
    requires
        0 <= ci < chunks.len(),
        chunks[ci].spec_num_rows() <= u32::MAX,
        finalizer_inv(out, chunks, matched, jt, ci, chunks[ci].spec_num_rows() as int),
    ensures
        finalizer_inv(out, chunks, matched, jt, ci + 1, 0),
        row_state_partial(m0, chunks, matched, ci, chunks[ci].spec_num_rows() as int)
            =~= row_state_partial(m0, chunks, matched, ci + 1, 0),
{
    let rows = chunks[ci].spec_num_rows() as int;
    assert forall|c: u32, rr: u32|
        spec_valid_pos(chunks, c, rr) implies (scanned_before(c, rr, ci, rows)
        <==> scanned_before(c, rr, ci + 1, 0)) by {
        if c as int == ci {
            assert((rr as nat) < chunks[ci].spec_num_rows());
        }
    }
    assert forall|k: int|
        0 <= k < out.len() implies scanned_before(
        (#[trigger] out[k]).chunk_index,
        out[k].row_index,
        ci + 1,
        0,
    ) by {
        assert(spec_valid_pos(chunks, out[k].chunk_index, out[k].row_index));
    }
    assert forall|c: u32, rr: u32|
        spec_valid_pos(chunks, c, rr) && scanned_before(c, rr, ci + 1, 0) && emit_row(
        matched,
        jt,
        c,
        rr,
    ) implies contains_row(out, c, rr) by {
        assert(scanned_before(c, rr, ci, rows));
    }
    let a = row_state_partial(m0, chunks, matched, ci, rows);
    let b = row_state_partial(m0, chunks, matched, ci + 1, 0);
    assert forall|k: (u32, u32)| #[trigger]
        a.contains_key(k) implies b.contains_key(k) by {
        if !m0.contains_key(k) {
            assert(spec_valid_pos(chunks, k.0, k.1));
        }
    }
    assert forall|k: (u32, u32)| #[trigger]
        b.contains_key(k) implies a.contains_key(k) by {
        if !m0.contains_key(k) {
            assert(spec_valid_pos(chunks, k.0, k.1));
        }
    }
    assert(a =~= b);
}

proof fn lemma_cursor_done(
    m0: Map<(u32, u32), usize>,
    chunks: Seq<DataBlock>,
    matched: Seq<RowPtr>,
)
    requires
        chunks.len() <= u32::MAX,
    ensures
        row_state_partial(m0, chunks, matched, chunks.len() as int, 0) =~= row_state_target(
            m0,
            chunks,
            matched,
        ),
{
    let a = row_state_partial(m0, chunks, matched, chunks.len() as int, 0);
    let b = row_state_target(m0, chunks, matched);
    assert forall|k: (u32, u32)| #[trigger] b.contains_key(k) implies a.contains_key(k) by {
        if !m0.contains_key(k) {
            assert(spec_valid_pos(chunks, k.0, k.1));
            assert(scanned_before(k.0, k.1, chunks.len() as int, 0));
        }
    }
    assert(a =~= b);
}

/// How many locators of `s` address position `(c, r)`.
pub open spec fn count_at(s: Seq<RowPtr>, c: u32, r: u32) -> nat
    decreases s.len(),
{
    if s.len() == 0 {
        0
    } else {
        count_at(s.drop_last(), c, r) + (if s[s.len() - 1].at(c, r) {
            1nat
        } else {
            0nat
        })
    }
}

/// A sequence in strict storage order holds every position it contains
/// exactly once.
pub proof fn lemma_sorted_positions_once(s: Seq<RowPtr>, c: u32, r: u32)
    requires
        forall|k1: int, k2: int| 0 <= k1 < k2 < s.len() ==> pos_lt(s[k1], s[k2]),
    ensures
        contains_row(s, c, r) ==> count_at(s, c, r) == 1,
        !contains_row(s, c, r) ==> count_at(s, c, r) == 0,
    decreases s.len(),
{
    if s.len() > 0 {
        let t = s.drop_last();
        let last = s[s.len() - 1];
        assert forall|k1: int, k2: int| 0 <= k1 < k2 < t.len() implies pos_lt(t[k1], t[k2]) by {
            assert(t[k1] == s[k1] && t[k2] == s[k2]);
        }
        lemma_sorted_positions_once(t, c, r);
        if last.at(c, r) {
            assert(!contains_row(t, c, r)) by {
                if contains_row(t, c, r) {
                    let k = choose|k: int| 0 <= k < t.len() && (#[trigger] t[k]).at(c, r);
                    assert(s[k] == t[k]);
                    assert(pos_lt(s[k], last));
                    assert(false);
                }
            }
            assert(contains_row(s, c, r));
        } else {
            assert(contains_row(s, c, r) == contains_row(t, c, r)) by {
                if contains_row(s, c, r) {
                    let k = choose|k: int| 0 <= k < s.len() && (#[trigger] s[k]).at(c, r);
                    assert(k < s.len() - 1);
                    assert(t[k] == s[k]);
                    assert(contains_row(t, c, r));
                }
                if contains_row(t, c, r) {
                    let k = choose|k: int| 0 <= k < t.len() && (#[trigger] t[k]).at(c, r);
                    assert(s[k] == t[k]);
                    assert(contains_row(s, c, r));
                }
            }
        }
    }
}

/// Finalizer completeness: a build row that matched nothing during
/// probing appears exactly once in the finalizer's output, and the
/// match-count map records it with a count of zero when nothing had
/// recorded it before. The hypotheses are exactly what
/// `find_unmatched_build_indexes` ensures of its output and of the
/// match-count map.
pub proof fn lemma_finalizer_completeness(
    out: Seq<RowPtr>,
    chunks: Seq<DataBlock>,
    matched: Seq<RowPtr>,
    jt: JoinType,
    m0: Map<(u32, u32), usize>,
    m1: Map<(u32, u32), usize>,
    c: u32,
    r: u32,
)
    requires
        finalizer_inv(out, chunks, matched, jt, chunks.len() as int, 0),
        m1 =~= row_state_target(m0, chunks, matched),
        chunks.len() <= u32::MAX,
        spec_valid_pos(chunks, c, r),
        emit_unmatched(matched, c, r),
        !m0.contains_key((c, r)),
    ensures
        count_at(out, c, r) == 1,
        m1.contains_key((c, r)),
        m1[(c, r)] == 0,
{
    assert(scanned_before(c, r, chunks.len() as int, 0));
    assert(contains_row(out, c, r));
    lemma_sorted_positions_once(out, c, r);
}

/// The full-join residual-excluded law: a build row matched by key whose
/// matches were all rejected by the residual predicate — its most
/// recently recorded marker is `False` — is emitted by the finalizer as
/// unmatched. The hypothesis is exactly what
/// `find_unmatched_build_indexes` ensures of its output.
pub proof fn lemma_full_join_residual_excluded(
    out: Seq<RowPtr>,
    chunks: Seq<DataBlock>,
    matched: Seq<RowPtr>,
    c: u32,
    r: u32,
)
    requires
        finalizer_inv(out, chunks, matched, JoinType::Full, chunks.len() as int, 0),
        chunks.len() <= u32::MAX,
        spec_valid_pos(chunks, c, r),
        contains_row(matched, c, r),
        matched[last_row_at(matched, c, r)].marker == Some(MarkerKind::False),
    ensures
        contains_row(out, c, r),
        count_at(out, c, r) == 1,
{
    assert(scanned_before(c, r, chunks.len() as int, 0));
    assert(emit_residual(matched, JoinType::Full, c, r));
    assert(emit_row(matched, JoinType::Full, c, r));
    assert(contains_row(out, c, r));
    lemma_sorted_positions_once(out, c, r);
}

/// The index of the last locator at `(c, r)`, scanning backwards.
fn last_match(s: &Vec<RowPtr>, c: u32, r: u32) -> (res: Option<usize>)
    ensures
        match res {
            Some(j) => {
                &&& j < s@.len()
                &&& s@[j as int].at(c, r)
                &&& contains_row(s@, c, r)
                &&& j as int == last_row_at(s@, c, r)
            },
            None => !contains_row(s@, c, r),
        },
{
    let mut i: usize = s.len();
    while i > 0
        invariant
            i <= s@.len(),
            forall|k: int| i <= k < s@.len() ==> !(#[trigger] s@[k]).at(c, r),
        decreases i,
    {
        i = i - 1;
        let p = &s[i];
        if p.chunk_index == c && p.row_index == r {
            proof {
                assert(s@[i as int].at(c, r));
                assert(contains_row(s@, c, r));
                lemma_last_row_at(s@, c, r);
                let j = last_row_at(s@, c, r);
                if j < i as int {
                    assert(s@[i as int].at(c, r));
                    assert(false);
                }
                if j > i as int {
                    assert(!s@[j].at(c, r));
                    assert(false);
                }
            }
            return Some(i);
        }
    }
    proof {
        if contains_row(s@, c, r) {
            let k = choose|k: int| 0 <= k < s@.len() && (#[trigger] s@[k]).at(c, r);
            assert(false);
        }
    }
    None
}

/// `Option<&Bitmap>` view of an `&Option<Bitmap>`.
pub open spec fn valids_as_ref(v: &Option<Bitmap>) -> Option<&Bitmap> {
    match v {
        Some(b) => Some(b),
        None => None,
    }
}

/// Intersects an accumulated optional bitmap with one more bitmap; an
/// absent accumulator starts as the bitmap itself.
pub open spec fn and_valids(acc: Option<Seq<bool>>, b: Seq<bool>) -> Option<Seq<bool>> {
    match acc {
        None => Some(b),
        Some(a) => Some(Seq::new(a.len(), |i: int| a[i] && b[i])),
    }
}

/// The combined "all present" bitmap of the key columns, walked in order:
/// fully-null columns and columns without a bitmap contribute nothing; a
/// column whose bitmap has no absent position short-circuits the walk to
/// an all-true bitmap; every other bitmap is intersected into the
/// accumulator.
pub open spec fn scan_valids(
    cols: Seq<ColumnView>,
    acc: Option<Seq<bool>>,
    num_rows: nat,
) -> Option<Seq<bool>>
    decreases cols.len(),
{
    if cols.len() == 0 {
        acc
    } else if cols[0] is Null {
        scan_valids(cols.drop_first(), acc, num_rows)
    } else {
        match cols[0].validity_view() {
            Some(b) => {
                if count_unset(b, b.len() as int) == 0 {
                    Some(Seq::new(num_rows, |i: int| true))
                } else {
                    scan_valids(cols.drop_first(), and_valids(acc, b), num_rows)
                }
            },
            None => scan_valids(cols.drop_first(), acc, num_rows),
        }
    }
}

pub open spec fn any_nullable_col(cols: Seq<ColumnView>) -> bool {
    exists|j: int| 0 <= j < cols.len() && (#[trigger] cols[j]).nullable_kind()
}

pub open spec fn combined_valids(cols: Seq<ColumnView>, num_rows: nat) -> Option<Seq<bool>> {
    if any_nullable_col(cols) {
        scan_valids(cols, None, num_rows)
    } else {
        None
    }
}

pub open spec fn marker_from_valids(v: Option<Seq<bool>>, i: int) -> MarkerKind {
    match v {
        Some(s) => if !s[i] {
            MarkerKind::Null
        } else {
            MarkerKind::False
        },
        None => MarkerKind::False,
    }
}

/// What `init_markers` returns: one marker per row, `Null` where the
/// combined bitmap says the row is absent, `False` everywhere else.
pub open spec fn init_markers_view(cols: Seq<ColumnView>, num_rows: nat) -> Seq<MarkerKind> {
    Seq::new(num_rows, |i: int| marker_from_valids(combined_valids(cols, num_rows), i))
}

pub open spec fn views_of(cols: Seq<Column>) -> Seq<ColumnView> {
    Seq::new(cols.len(), |i: int| cview(cols[i]))
}

/// No column's bitmap is free of absent positions, so the short-circuit
/// of `scan_valids` never fires.
pub open spec fn no_all_present_bitmap(cols: Seq<ColumnView>) -> bool {
    forall|j: int|
        0 <= j < cols.len() ==> ((#[trigger] cols[j]).validity_view() matches Some(b)
            ==> count_unset(b, b.len() as int) > 0)
}

/// Without a short-circuit, the combined bitmap is exactly the pointwise
/// intersection of the accumulator and every bitmap a column carries.
pub proof fn lemma_scan_no_break(
    cols: Seq<ColumnView>,
    acc: Option<Seq<bool>>,
    num_rows: nat,
    i: int,
)
    requires
        no_all_present_bitmap(cols),
        forall|j: int|
            0 <= j < cols.len() ==> ((#[trigger] cols[j]).validity_view() matches Some(b) ==> b.len()
                == num_rows),
        acc matches Some(a) ==> a.len() == num_rows,
        0 <= i < num_rows,
    ensures
        scan_valids(cols, acc, num_rows) is None <==> (acc is None && forall|j: int|
            0 <= j < cols.len() ==> !((#[trigger] cols[j]).validity_view() is Some)),
        scan_valids(cols, acc, num_rows) matches Some(s) ==> {
            &&& s.len() == num_rows
            &&& (s[i] <==> (opt_bit(acc, i) && forall|j: int|
                0 <= j < cols.len() ==> ((#[trigger] cols[j]).validity_view() matches Some(b)
                    ==> b[i])))
        },
    decreases cols.len(),
{
    if cols.len() == 0 {
    } else {
        let rest = cols.drop_first();
        let head = cols[0];
        assert forall|j: int|
            0 <= j < rest.len() implies ((#[trigger] rest[j]).validity_view() matches Some(b)
            ==> count_unset(b, b.len() as int) > 0 && b.len() == num_rows) by {
            assert(rest[j] == cols[j + 1]);
        }
        let cols_none = forall|j: int|
            0 <= j < cols.len() ==> !((#[trigger] cols[j]).validity_view() is Some);
        let rest_none = forall|j: int|
            0 <= j < rest.len() ==> !((#[trigger] rest[j]).validity_view() is Some);
        let cols_all = forall|j: int|
            0 <= j < cols.len() ==> ((#[trigger] cols[j]).validity_view() matches Some(b)
                ==> b[i]);
        let rest_all = forall|j: int|
            0 <= j < rest.len() ==> ((#[trigger] rest[j]).validity_view() matches Some(b)
                ==> b[i]);
        assert(cols_none ==> (rest_none && head.validity_view() is None)) by {
            if cols_none {
                assert forall|j: int| 0 <= j < rest.len() implies !((#[trigger] rest[j])
                    .validity_view() is Some) by {
                    assert(rest[j] == cols[j + 1]);
                }
            }
        }
        assert(rest_none && head.validity_view() is None ==> cols_none) by {
            if rest_none && head.validity_view() is None {
                assert forall|j: int| 0 <= j < cols.len() implies !((#[trigger] cols[j])
                    .validity_view() is Some) by {
                    if j > 0 {
                        assert(rest[j - 1] == cols[j]);
                    }
                }
            }
        }
        let head_ok = head.validity_view() matches Some(b) ==> b[i];
        assert(cols_all ==> (rest_all && head_ok)) by {
            if cols_all {
                assert forall|j: int|
                    0 <= j < rest.len() implies ((#[trigger] rest[j]).validity_view() matches Some(
                    b,
                ) ==> b[i]) by {
                    assert(rest[j] == cols[j + 1]);
                }
            }
        }
        assert(rest_all && head_ok ==> cols_all) by {
            if rest_all && head_ok {
                assert forall|j: int|
                    0 <= j < cols.len() implies ((#[trigger] cols[j]).validity_view() matches Some(
                    b,
                ) ==> b[i]) by {
                    if j > 0 {
                        assert(rest[j - 1] == cols[j]);
                    }
                }
            }
        }
        if head is Null || head.validity_view() is None {
            lemma_scan_no_break(rest, acc, num_rows, i);
            assert(head.validity_view() is None);
            assert(scan_valids(cols, acc, num_rows) == scan_valids(rest, acc, num_rows));
        } else {
            let b = head.validity_view()->0;
            assert(count_unset(b, b.len() as int) > 0);
            let acc2 = and_valids(acc, b);
            lemma_scan_no_break(rest, acc2, num_rows, i);
            assert(scan_valids(cols, acc, num_rows) == scan_valids(rest, acc2, num_rows));
            assert(opt_bit(acc2, i) == (opt_bit(acc, i) && b[i]));
            assert(!cols_none);
            assert(head_ok == b[i]);
        }
    }
}

/// The effective cell the mark column holds for marker `m`: a `False`
/// marker is tainted to NULL when any probe-side NULL existed; `True`
/// stays true regardless.
pub open spec fn marker_cell(m: MarkerKind, has_null: bool) -> Option<Scalar> {
    let eff = if m == MarkerKind::False && has_null {
        MarkerKind::Null
    } else {
        m
    };
    if eff == MarkerKind::Null {
        None
    } else {
        Some(Scalar::Bool(eff == MarkerKind::True))
    }
}

/// The mark-join three-valued law: with `has_null` set, a `False` marker
/// surfaces as NULL; a `True` marker surfaces as true either way; a `Null`
/// marker always surfaces as NULL.
pub proof fn lemma_mark_three_valued(m: MarkerKind, has_null: bool)
    ensures
        has_null && m == MarkerKind::False ==> marker_cell(m, has_null) is None,
        m == MarkerKind::True ==> marker_cell(m, has_null) == Some(Scalar::Bool(true)),
        m == MarkerKind::Null ==> marker_cell(m, has_null) is None,
        !has_null && m == MarkerKind::False ==> marker_cell(m, has_null) == Some(
            Scalar::Bool(false),
        ),
{
}

/// Rows pre-flagged by `init_markers`: when no column short-circuits the
/// combined bitmap, a NULL key component at row `i` of any column forces
/// the marker at `i` to `Null` — such a key can never equal anything.
pub proof fn lemma_marker_pre_flagging(cols: Seq<ColumnView>, num_rows: nat, j: int, i: int)
    requires
        no_all_present_bitmap(cols),
        forall|k: int|
            0 <= k < cols.len() ==> ((#[trigger] cols[k]).validity_view() matches Some(b) ==> b.len()
                == num_rows),
        0 <= j < cols.len(),
        0 <= i < num_rows,
        cols[j].validity_view() matches Some(b) && !b[i],
    ensures
        init_markers_view(cols, num_rows)[i] == MarkerKind::Null,
{
    assert(cols[j] is Nullable);
    assert(any_nullable_col(cols));
    lemma_scan_no_break(cols, None, num_rows, i);
    let v = scan_valids(cols, None, num_rows);
    assert(v is Some);
    let s = v->0;
    assert(!s[i]);
}

} // verus!
