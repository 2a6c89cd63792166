//! Verified core of the photo and media domains: face clustering with a
//! union-find forest, cursor paging, image download planning, request-id
//! parsing, SQL text building and the bookkeeping that accompanies deletes.
use vstd::prelude::*;

pub mod audit;
pub mod controllers;
pub mod counters;
pub mod errors;
pub mod faces;
pub mod ids;
pub mod image;
pub mod paging;
pub mod seeds;
pub mod sql;
pub mod text;
pub mod union_find;

verus! {

} // verus!
