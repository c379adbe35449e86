//! Validation of the identifiers that name confined package instances and
//! bind processes to their security profiles: package names, instance keys,
//! instance names and security tags.
use vstd::prelude::*;

pub mod distro;
pub mod grammar;
pub mod safe;
pub mod snap;
pub mod tag;
pub mod text;

verus! {

} // verus!
