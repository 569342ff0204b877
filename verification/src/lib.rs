//! KECC: a small C compiler's core data structures and algorithms, verified.
use vstd::prelude::*;

pub mod assembly;
pub mod c;
pub mod ir;
pub mod irgen;
pub mod opt;
pub mod utils;
pub mod write_base;

verus! {

} // verus!
