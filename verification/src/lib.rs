//! Decoding of column-chunk pages from a columnar on-disk format into typed
//! in-memory arrays.
//!
//! A column arrives as a sequence of decompressed pages holding values in one
//! of a small set of physical (on-disk) encodings.  A caller asks for a
//! logical dtype.  A fixed compatibility matrix maps each (physical, logical)
//! pair to a decode strategy or to a `NotSupported` error; the engine then
//! drives the pages through that strategy, tracking validity, honoring an
//! optional row filter and optional nesting descriptors.
use vstd::prelude::*;

pub mod bytes;
pub mod collect;
pub mod convert;
pub mod dispatch;
pub mod engine;
pub mod laws;
pub mod materialize;
pub mod num;
pub mod output;
pub mod page;
pub mod rows;
pub mod temporal;
pub mod types;

verus! {

} // verus!
