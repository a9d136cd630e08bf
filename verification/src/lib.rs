//! The planning logic of `elm-bench`: which benchmarks an `elmi-to-json`
//! report exposes, and the files, arguments and templates that running them
//! needs. Process and file-system work lives in the application around it.
use vstd::prelude::*;

pub mod elm_json;
pub mod elmi;
pub mod json;
pub mod paths;
pub mod run;
pub mod template;
pub mod text;
pub mod unpack;

verus! {

} // verus!
