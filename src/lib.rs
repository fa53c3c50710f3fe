//! A JSON parsing engine: a structural indexer, an in-place string unescaper, a number
//! parser with integer/float disambiguation, a token cursor, and owned and borrowed
//! value trees with their conversion to a generic JSON value.
use vstd::prelude::*;

pub mod error;
pub mod stringparse;
pub mod numberparse;
pub mod deser;
pub mod value;
pub mod generic;
pub mod borrowed;
pub mod stage1;
pub mod builder;

verus! {

} // verus!
