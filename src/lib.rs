use vstd::prelude::*;

pub mod codec;
pub mod importer;
pub mod outcome;
pub mod query;
pub mod speed;
pub mod store;
pub mod text;

verus! {

} // verus!
