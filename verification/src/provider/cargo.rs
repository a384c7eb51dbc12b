//! Executables installed into the cargo global bin directory.

use vstd::prelude::*;

verus! {

/// Applications found in `~/.cargo/bin`.
pub struct CargoProvider;

impl CargoProvider {
    /// A fresh provider.
    pub fn new() -> (r: Self) {
        CargoProvider
    }

    /// The label of this source.
    pub fn name(&self) -> (r: &'static str)
        ensures
            r@ == "cargo"@,
    {
        "cargo"
    }

    /// Scanning the local bin directory needs no external tool.
    pub fn is_available(&self) -> (r: bool)
        ensures
            r == true,
    {
        true
    }
}

} // verus!
