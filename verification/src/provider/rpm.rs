//! RPM packages, parsed from `rpm -qa` rows; binaries are resolved through
//! `rpm -ql` file listings.

use vstd::prelude::*;

use crate::provider::{name_desc_rows_spec, parse_name_desc_rows};

verus! {

/// RPM packages, listed by the `rpm` tool.
pub struct RpmProvider;

impl RpmProvider {
    /// A fresh provider.
    pub fn new() -> (r: Self) {
        RpmProvider
    }

    /// The label of this source.
    pub fn name(&self) -> (r: &'static str)
        ensures
            r@ == "rpm"@,
    {
        "rpm"
    }

    /// Parse `rpm -qa --queryformat` output: one `name<TAB>summary` row per
    /// package, an empty summary counting as none.
    pub fn parse_rpm_output(output: &str) -> (r: Vec<(String, Option<String>)>)
        ensures
            r.deep_view() == name_desc_rows_spec(output@),
    {
        parse_name_desc_rows(output)
    }
}

} // verus!
