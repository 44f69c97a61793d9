//! Process facts: parsing what `ps` and `lsof` report about processes,
//! computing process trees, repository roots and termination plans.

pub mod cwd;
pub mod kill;
pub mod ps;
pub mod repo;

use vstd::prelude::*;

verus! {

} // verus!
