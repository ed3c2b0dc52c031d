//! Batches: ordered sequences of named, typed columns sharing one row
//! count.

use vstd::prelude::*;
use crate::column::Column;
use crate::column::ColumnView;
use crate::column::Scalar;
use crate::column::cview;
use crate::error::ErrorCode;

verus! {

/// The type a field declares for its column.
#[derive(Debug)]
pub enum DataTypeKind {
    Int64,
    Boolean,
    Null,
    Nullable(Box<DataTypeKind>),
}

/// A named, typed slot of a batch's schema.
#[derive(Debug)]
pub struct DataField {
    pub name: String,
    pub data_type: DataTypeKind,
}

/// Mathematical shape of a field.
pub struct FieldView {
    pub name: Seq<char>,
    pub data_type: DataTypeKind,
}

impl View for DataField {
    type V = FieldView;

    open spec fn view(&self) -> FieldView {
        FieldView { name: self.name@, data_type: self.data_type }
    }
}

fn dup_type(t: &DataTypeKind) -> (r: DataTypeKind)
    ensures
        r == *t,
    decreases t,
{
    match t {
        DataTypeKind::Int64 => DataTypeKind::Int64,
        DataTypeKind::Boolean => DataTypeKind::Boolean,
        DataTypeKind::Null => DataTypeKind::Null,
        DataTypeKind::Nullable(inner) => DataTypeKind::Nullable(Box::new(dup_type(inner))),
    }
}

impl DataField {
    pub fn new(name: String, data_type: DataTypeKind) -> (r: DataField)
        ensures
            r@.name == name@,
            r@.data_type == data_type,
    {
        DataField { name, data_type }
    }

    pub fn duplicate(&self) -> (r: DataField)
        ensures
            r@ == self@,
    {
        DataField { name: self.name.clone(), data_type: dup_type(&self.data_type) }
    }
}

/// An immutable batch: a schema and one column per schema field, all
/// columns of the same length.
#[derive(Debug)]
pub struct DataBlock {
    pub fields: Vec<DataField>,
    pub columns: Vec<Column>,
}

impl DataBlock {
    /// The schema, as a sequence of field views.
    pub open spec fn fields_view(self) -> Seq<FieldView> {
        Seq::new(self.fields@.len(), |i: int| self.fields@[i]@)
    }

    /// The columns, as a sequence of column views.
    pub open spec fn columns_view(self) -> Seq<ColumnView> {
        Seq::new(self.columns@.len(), |i: int| cview(self.columns@[i]))
    }

    pub open spec fn spec_num_rows(self) -> nat {
        if self.columns_view().len() == 0 {
            0
        } else {
            self.columns_view()[0].len()
        }
    }

    pub open spec fn well_formed(self) -> bool {
        &&& self.fields_view().len() == self.columns_view().len()
        &&& forall|i: int|
            0 <= i < self.columns_view().len() ==> (#[trigger] self.columns_view()[i]).well_formed()
        &&& forall|i: int|
            0 <= i < self.columns_view().len() ==> (#[trigger] self.columns_view()[i]).len()
                == self.spec_num_rows()
    }

    pub fn create(fields: Vec<DataField>, columns: Vec<Column>) -> (r: DataBlock)
        ensures
            r.fields == fields,
            r.columns == columns,
    {
        DataBlock { fields, columns }
    }

    pub fn num_rows(&self) -> (r: usize)
        ensures
            r == self.spec_num_rows(),
    {
        if self.columns.len() == 0 {
            0
        } else {
            self.columns[0].len()
        }
    }

    pub fn num_columns(&self) -> (r: usize)
        ensures
            r == self.columns@.len(),
    {
        self.columns.len()
    }

    /// Appends one column and its schema field. Rejects a column whose
    /// length differs from the batch's row count, unless the batch has no
    /// columns yet.
    pub fn add_column(self, column: Column, field: DataField) -> (r: Result<DataBlock, ErrorCode>)
        ensures
            match r {
                Ok(b) => {
                    &&& (self.columns@.len() == 0 || cview(column).len() == self.spec_num_rows())
                    &&& b.fields_view() == self.fields_view().push(field@)
                    &&& b.columns_view() == self.columns_view().push(cview(column))
                },
                Err(e) => {
                    &&& self.columns@.len() > 0
                    &&& cview(column).len() != self.spec_num_rows()
                    &&& e.is_logical_error()
                },
            },
    {
        if self.columns.len() > 0 && column.len() != self.num_rows() {
            return Err(
                ErrorCode::LogicalError(
                    String::from_str("column length does not match the batch row count"),
                ),
            );
        }
        let DataBlock { mut fields, mut columns } = self;
        let ghost old_fields = fields@;
        let ghost old_columns = columns@;
        fields.push(field);
        columns.push(column);
        let r = DataBlock { fields, columns };
        proof {
            assert(r.fields_view() =~= Seq::new(old_fields.len(), |i: int| old_fields[i]@).push(
                field@,
            ));
            assert(r.columns_view() =~= Seq::new(old_columns.len(), |i: int| cview(
                old_columns[i],
            )).push(cview(column)));
        }
        Ok(r)
    }

    /// Coerces a boolean-valued column to a plain non-null boolean
    /// column: a NULL cell becomes false, matching SQL's treatment of an
    /// undecided predicate for row admission. A constant column stays
    /// constant. A column that is not boolean-typed is rejected.
    pub fn cast_to_nonull_boolean(column: &Column) -> (r: Result<Column, ErrorCode>)
        requires
            column@.well_formed(),
        ensures
            r is Ok <==> crate::column::bool_typed(column@),
            r matches Err(e) ==> e.is_illegal_data_type(),
            r matches Ok(c2) ==> {
                &&& c2@.well_formed()
                &&& c2@.len() == column@.len()
                &&& (c2@ is Constant <==> column@ is Constant)
                &&& !(column@ is Constant) ==> c2@ is Bool
                &&& forall|i: int|
                    0 <= i < c2@.len() ==> c2@.cell(i) == Some(
                        Scalar::Bool(crate::column::effective_bool(column@, i)),
                    )
                &&& column@ is Constant ==> c2@.cell(0) == Some(
                    Scalar::Bool(crate::column::effective_bool(column@, 0)),
                )
            },
        decreases column,
    {
        if !column.is_bool_typed() {
            return Err(
                ErrorCode::IllegalDataType(
                    String::from_str("the predicate did not evaluate to a boolean column"),
                ),
            );
        }
        match column {
            Column::Constant(inner, n) => {
                let cast_inner = match Self::cast_to_nonull_boolean(inner) {
                    Ok(c) => c,
                    Err(e) => {
                        proof {
                            assert(false);
                        }
                        return Err(e);
                    },
                };
                Ok(Column::Constant(Box::new(cast_inner), *n))
            },
            _ => {
                let n = column.len();
                let mut bits: Vec<bool> = Vec::new();
                let mut i: usize = 0;
                while i < n
                    invariant
                        i <= n,
                        n == column@.len(),
                        column@.well_formed(),
                        bits@ =~= Seq::new(
                            i as nat,
                            |k: int| crate::column::effective_bool(column@, k),
                        ),
                    decreases n - i,
                {
                    let eff = match column.value_at(i) {
                        Some(Scalar::Bool(true)) => true,
                        _ => false,
                    };
                    bits.push(eff);
                    i = i + 1;
                    proof {
                        assert(bits@ =~= Seq::new(
                            i as nat,
                            |k: int| crate::column::effective_bool(column@, k),
                        ));
                    }
                }
                Ok(Column::Bool(bits))
            },
        }
    }

    pub fn duplicate(&self) -> (r: DataBlock)
        ensures
            r.fields_view() == self.fields_view(),
            r.columns_view() == self.columns_view(),
            r.spec_num_rows() == self.spec_num_rows(),
    {
        let nf = self.fields.len();
        let mut fields: Vec<DataField> = Vec::new();
        let mut i: usize = 0;
        while i < nf
            invariant
                i <= nf,
                nf == self.fields@.len(),
                fields@.len() == i,
                forall|j: int| 0 <= j < i ==> (#[trigger] fields@[j])@ == self.fields@[j]@,
            decreases nf - i,
        {
            fields.push(self.fields[i].duplicate());
            i = i + 1;
        }
        let nc = self.columns.len();
        let mut columns: Vec<Column> = Vec::new();
        let mut k: usize = 0;
        while k < nc
            invariant
                k <= nc,
                nc == self.columns@.len(),
                columns@.len() == k,
                forall|j: int|
                    0 <= j < k ==> cview(#[trigger] columns@[j]) == cview(self.columns@[j]),
            decreases nc - k,
        {
            columns.push(self.columns[k].duplicate());
            k = k + 1;
        }
        let r = DataBlock { fields, columns };
        proof {
            assert(r.fields_view() =~= self.fields_view());
            assert(r.columns_view() =~= self.columns_view());
        }
        r
    }
}

} // verus!
