//! Access rules for a sandbox: a whitelist of paths with their access tiers,
//! the deny rules inferred for everything the whitelist leaves out, and the
//! text of the rule file.
use vstd::prelude::*;

pub mod access;
pub mod blacklist;
pub mod laws;
pub mod path;
pub mod rules;
pub mod working_set;

verus! {

} // verus!
