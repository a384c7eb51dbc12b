//! Debian packages, parsed from `dpkg-query` rows; binaries are resolved
//! through the package file manifests under the dpkg info directory.

use vstd::prelude::*;

use crate::provider::{name_desc_rows_spec, parse_name_desc_rows};

verus! {

/// Debian packages, listed by `dpkg-query`.
pub struct DpkgProvider;

impl DpkgProvider {
    /// A fresh provider.
    pub fn new() -> (r: Self) {
        DpkgProvider
    }

    /// The label of this source.
    pub fn name(&self) -> (r: &'static str)
        ensures
            r@ == "dpkg"@,
    {
        "dpkg"
    }

    /// Parse `dpkg-query -W` output: one `name<TAB>summary` row per
    /// package, an empty summary counting as none.
    pub fn parse_dpkg_output(output: &str) -> (r: Vec<(String, Option<String>)>)
        ensures
            r.deep_view() == name_desc_rows_spec(output@),
    {
        parse_name_desc_rows(output)
    }
}

} // verus!
