//! Options of the tool that flattens specifications.

use vstd::prelude::*;

verus! {

/// Options passed into the specification flattening tool.
#[derive(Clone, Debug)]
pub struct FlattenOptions {
    /// Sources of the target modules.
    pub srcs: Vec<String>,
    /// Dependencies.
    pub deps: Vec<String>,
    /// Target function.
    pub target: Option<String>,
    /// Do not include the default named addresses.
    pub no_default_named_addresses: bool,
    /// Extra mappings for named addresses: a name and the address it stands
    /// for.
    pub named_addresses_extra: Option<Vec<(String, u128)>>,
    /// Verbose mode.
    pub verbose: bool,
}

} // verus!
