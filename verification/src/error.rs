//! Errors surfaced by the join engine. All of them indicate planner bugs or
//! evaluation failures and are fatal to the operator; nothing here is
//! retried.

use vstd::prelude::*;

verus! {

#[derive(Debug)]
pub enum ErrorCode {
    /// An internal invariant was broken, e.g. a mark join without a
    /// configured output column.
    LogicalError(String),
    /// A value had the wrong type, e.g. a residual predicate that did not
    /// evaluate to a boolean column.
    IllegalDataType(String),
}

impl ErrorCode {
    pub open spec fn is_logical_error(self) -> bool {
        self is LogicalError
    }

    pub open spec fn is_illegal_data_type(self) -> bool {
        self is IllegalDataType
    }
}

} // verus!
