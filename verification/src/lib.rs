//! Core of a vectorized hash-join execution engine: columnar values with
//! presence bitmaps, three-valued match markers, the probe-side helpers, and
//! the finalizer that emits build rows left unmatched by right/full outer
//! joins.

pub mod bitmap;
pub mod block;
pub mod column;
pub mod decimal;
pub mod desc;
pub mod error;
pub mod index;
pub mod join;
pub mod openai;
pub mod row;
