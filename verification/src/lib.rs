//! A small columnar analytical engine: tables live on disk as per-column
//! files of LZ4-compressed chunks beside a block-sizes stream, and a
//! supported SQL `SELECT` is compiled into a vectorized, pull-based
//! pipeline of column sources and processors that evaluates it block by
//! block.

use vstd::prelude::*;

pub mod types;
pub mod tuple;
pub mod serialize;
pub mod storage;
pub mod columns;
pub mod codec;
pub mod schema;
pub mod functions;
pub mod blocks;
pub mod execute;
pub mod sql;

verus! {

/// Every fallible operation of the engine reports its failure as a message string.
pub type DBResult<T> = Result<T, String>;

} // verus!
