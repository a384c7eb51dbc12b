//! Executables installed into npm's global bin directory, and the
//! derivation of that directory from npm's package root.

use vstd::prelude::*;
use vstd::string::*;

use crate::text::{has_suffix, has_suffix_spec, last_idx, rfind_char};

verus! {

/// The global bin directory derived from an `npm root -g` answer: the
/// `bin` sibling of a trailing `node_modules` component.
pub open spec fn npm_bin_spec(root: Seq<char>) -> Option<Seq<char>> {
    if has_suffix_spec(root, "/node_modules"@) {
        Some(root.subrange(0, root.len() - "/node_modules"@.len()) + "/bin"@)
    } else {
        None
    }
}

/// The fallback: `bin` under the parent directory of the package root.
pub open spec fn parent_bin_spec(root: Seq<char>) -> Option<Seq<char>> {
    let j = last_idx(root, '/');
    if j >= 0 {
        Some(root.subrange(0, j) + "/bin"@)
    } else {
        None
    }
}

/// Applications found in npm's global bin directory.
pub struct NpmProvider;

impl NpmProvider {
    /// A fresh provider.
    pub fn new() -> (r: Self) {
        NpmProvider
    }

    /// The label of this source.
    pub fn name(&self) -> (r: &'static str)
        ensures
            r@ == "npm"@,
    {
        "npm"
    }

    /// The global bin directory derived from the `npm root -g` answer,
    /// when the answer ends in `node_modules`.
    pub fn bin_from_root(root: &str) -> (r: Option<String>)
        ensures
            r.deep_view() == npm_bin_spec(root@),
    {
        let n = root.unicode_len();
        if has_suffix(root, "/node_modules") {
            let m = "/node_modules".unicode_len();
            let mut p = root.substring_char(0, n - m).to_owned();
            p.append("/bin");
            Some(p)
        } else {
            None
        }
    }

    /// The fallback bin directory: `bin` beside the package root.
    pub fn parent_bin(root: &str) -> (r: Option<String>)
        ensures
            r.deep_view() == parent_bin_spec(root@),
    {
        match rfind_char(root, '/') {
            Some(j) => {
                let mut p = root.substring_char(0, j).to_owned();
                p.append("/bin");
                Some(p)
            },
            None => None,
        }
    }
}

} // verus!
