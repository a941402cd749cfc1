use vstd::prelude::*;

pub mod category;
pub mod laws;
pub mod model;
pub mod prompt;
pub mod registry;
pub mod routing;
pub mod session;
pub mod text;

verus! {

} // verus!
