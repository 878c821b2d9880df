//! The run options, constructed once at process start and passed
//! explicitly to everything that needs them.

use vstd::prelude::*;

verus! {

/// Options for one run.
#[derive(Debug, Clone)]
pub struct Args {
    /// The packages to check; empty means every configured package.
    pub packages: Vec<String>,
    /// Do not write changes.
    pub pretend: bool,
    /// Ensure every package is checked, whatever the sampling policy says.
    pub guarantee: bool,
}

impl Default for Args {
    /// Check every configured package, write changes, respect sampling.
    fn default() -> (d: Self)
        ensures
            d.packages@.len() == 0,
            !d.pretend,
            !d.guarantee,
    {
        Args { packages: Vec::new(), pretend: false, guarantee: false }
    }
}

} // verus!
