//! Standalone executables found in user and opt directories, and the
//! heuristic that turns a bare filename into a display name.

use vstd::prelude::*;
use vstd::string::*;

use crate::app::{AppSource, AppView, Application};
use crate::text::{has_suffix, has_suffix_spec, is_space};

verus! {

/// An ASCII decimal digit.
pub open spec fn is_digit_char(c: char) -> bool {
    0x30 <= c as u32 && c as u32 <= 0x39
}

/// Whether a suffix candidate looks like a version: after optionally
/// dropping one leading `v` or `V`, it starts with an ASCII digit.
pub open spec fn version_like(s: Seq<char>) -> bool {
    let t = if s.len() > 0 && (s[0] == 'v' || s[0] == 'V') {
        s.drop_first()
    } else {
        s
    };
    t.len() > 0 && is_digit_char(t[0])
}

/// Whether a suffix candidate looks like a version number.
pub fn looks_like_version(s: &str) -> (r: bool)
    ensures
        r == version_like(s@),
{
    let n = s.unicode_len();
    if n == 0 {
        return false;
    }
    let c0 = s.get_char(0);
    if c0 == 'v' || c0 == 'V' {
        if n == 1 {
            return false;
        }
        let c1 = s.get_char(1);
        proof {
            assert(s@.drop_first()[0] == s@[1]);
        }
        (c1 as u32) >= 0x30 && (c1 as u32) <= 0x39
    } else {
        (c0 as u32) >= 0x30 && (c0 as u32) <= 0x39
    }
}

/// The architecture suffixes stripped from a filename, most specific first.
pub open spec fn arch_patterns() -> Seq<Seq<char>> {
    seq![
        "-linux-X64"@,
        "-linux-x86_64"@,
        "-linux_x86_64"@,
        "_linux.x86_64"@,
        "_linux-x86_64"@,
        "-linux-amd64"@,
        "-linux-arm64"@,
        "-x86_64"@,
        "-amd64"@,
        "-arm64"@,
        ".x86_64"@,
        "_x86_64"@,
    ]
}

/// The name with the first matching architecture suffix at or after
/// pattern `i` removed, or unchanged if none matches.
pub open spec fn strip_arch_from(s: Seq<char>, i: int) -> Seq<char>
    decreases arch_patterns().len() - i,
{
    if !(0 <= i < arch_patterns().len()) {
        s
    } else if has_suffix_spec(s, arch_patterns()[i]) {
        s.subrange(0, s.len() - arch_patterns()[i].len())
    } else {
        strip_arch_from(s, i + 1)
    }
}

/// The name with one matching architecture suffix removed.
pub open spec fn strip_arch_spec(s: Seq<char>) -> Seq<char> {
    strip_arch_from(s, 0)
}

/// Strip one architecture suffix such as `-x86_64` from a name.
pub fn strip_arch_suffix(name: &str) -> (r: String)
    ensures
        r@ == strip_arch_spec(name@),
{
    let patterns: Vec<&str> = vec![
        "-linux-X64",
        "-linux-x86_64",
        "-linux_x86_64",
        "_linux.x86_64",
        "_linux-x86_64",
        "-linux-amd64",
        "-linux-arm64",
        "-x86_64",
        "-amd64",
        "-arm64",
        ".x86_64",
        "_x86_64",
    ];
    proof {
        assert(forall|k: int|
            0 <= k < 12 ==> patterns.deep_view()[k] == #[trigger] arch_patterns()[k]);
    }
    let n = name.unicode_len();
    let mut i: usize = 0;
    while i < 12
        invariant
            n == name@.len(),
            patterns.len() == 12,
            arch_patterns().len() == 12,
            forall|k: int| 0 <= k < 12 ==> patterns.deep_view()[k] == #[trigger] arch_patterns()[k],
            0 <= i <= 12,
            strip_arch_from(name@, i as int) == strip_arch_spec(name@),
        decreases 12 - i,
    {
        let p = patterns[i];
        if has_suffix(name, p) {
            let m = p.unicode_len();
            return name.substring_char(0, n - m).to_owned();
        }
        i += 1;
    }
    name.to_owned()
}

/// Whether position `i` is a separator whose tail looks like a version.
pub open spec fn is_version_cut(s: Seq<char>, i: int) -> bool {
    0 <= i < s.len() && (s[i] == '-' || s[i] == '_') && version_like(
        s.subrange(i + 1, s.len() as int),
    )
}

/// The leftmost version cut at or after `i`, or `-1` if there is none.
pub open spec fn version_cut_from(s: Seq<char>, i: int) -> int
    decreases s.len() - i,
{
    if !(0 <= i < s.len()) {
        -1
    } else if is_version_cut(s, i) {
        i
    } else {
        version_cut_from(s, i + 1)
    }
}

/// The name cut at the leftmost separator whose tail looks like a version.
/// The scan tolerates trailing qualifiers such as `-stable` after the
/// version because every separator is considered, not only the last.
pub open spec fn strip_version_spec(s: Seq<char>) -> Seq<char> {
    let c = version_cut_from(s, 0);
    if c >= 0 {
        s.subrange(0, c)
    } else {
        s
    }
}

/// Strip a trailing version suffix such as `-1.2.3` or `_v4.6-stable`.
pub fn strip_version_suffix(name: &str) -> (r: String)
    ensures
        r@ == strip_version_spec(name@),
{
    let n = name.unicode_len();
    let mut i: usize = 0;
    while i < n
        invariant
            n == name@.len(),
            0 <= i <= n,
            version_cut_from(name@, i as int) == version_cut_from(name@, 0),
        decreases n - i,
    {
        let c = name.get_char(i);
        if c == '-' || c == '_' {
            if looks_like_version(name.substring_char(i + 1, n)) {
                return name.substring_char(0, i).to_owned();
            }
        }
        i += 1;
    }
    name.to_owned()
}

/// A trailing separator: `-`, `_` or `.`.
pub open spec fn is_sep_char(c: char) -> bool {
    c == '-' || c == '_' || c == '.'
}

/// The name without its trailing separators.
pub open spec fn trim_seps_spec(s: Seq<char>) -> Seq<char>
    decreases s.len(),
{
    if s.len() > 0 && is_sep_char(s[s.len() - 1]) {
        trim_seps_spec(s.drop_last())
    } else {
        s
    }
}

proof fn lemma_trim_seps_at(s: Seq<char>, j: int)
    requires
        0 <= j <= s.len(),
        forall|k: int| j <= k < s.len() ==> is_sep_char(s[k]),
        j > 0 ==> !is_sep_char(s[j - 1]),
    ensures
        trim_seps_spec(s) == s.subrange(0, j),
    decreases s.len() - j,
{
    if j == s.len() {
        assert(s.subrange(0, s.len() as int) =~= s);
    } else {
        lemma_trim_seps_at(s.drop_last(), j);
        assert(s.drop_last().subrange(0, j) =~= s.subrange(0, j));
    }
}

fn is_sep(c: char) -> (r: bool)
    ensures
        r == is_sep_char(c),
{
    c == '-' || c == '_' || c == '.'
}

fn trim_seps(s: &str) -> (r: &str)
    ensures
        r@ == trim_seps_spec(s@),
{
    let n = s.unicode_len();
    let mut j: usize = n;
    while j > 0 && is_sep(s.get_char(j - 1))
        invariant
            n == s@.len(),
            0 <= j <= n,
            forall|k: int| j <= k < n ==> is_sep_char(s@[k]),
        decreases j,
    {
        j -= 1;
    }
    proof {
        lemma_trim_seps_at(s@, j as int);
    }
    s.substring_char(0, j)
}

/// The filename without a trailing `.AppImage` or `.appimage` suffix.
pub open spec fn strip_appimage_spec(s: Seq<char>) -> Seq<char> {
    if has_suffix_spec(s, ".AppImage"@) {
        s.subrange(0, s.len() - ".AppImage"@.len())
    } else if has_suffix_spec(s, ".appimage"@) {
        s.subrange(0, s.len() - ".appimage"@.len())
    } else {
        s
    }
}

/// The display name extracted from a standalone executable's filename:
/// drop an AppImage extension, one architecture suffix, a trailing version,
/// and trailing separators, in that order.
pub open spec fn extract_name_spec(s: Seq<char>) -> Seq<char> {
    trim_seps_spec(strip_version_spec(strip_arch_spec(strip_appimage_spec(s))))
}

/// Applications found as standalone executables in user directories.
pub struct StandaloneProvider;

impl StandaloneProvider {
    /// A fresh provider.
    pub fn new() -> (r: Self) {
        StandaloneProvider
    }

    /// The label of this source.
    pub fn name(&self) -> (r: &'static str)
        ensures
            r@ == "standalone"@,
    {
        "standalone"
    }

    /// Scanning local directories needs no external tool.
    pub fn is_available(&self) -> (r: bool)
        ensures
            r == true,
    {
        true
    }

    /// Extract a human-friendly name from a filename.
    pub fn extract_name(filename: &str) -> (r: String)
        ensures
            r@ == extract_name_spec(filename@),
    {
        let n = filename.unicode_len();
        let base = if has_suffix(filename, ".AppImage") {
            let m = ".AppImage".unicode_len();
            filename.substring_char(0, n - m)
        } else if has_suffix(filename, ".appimage") {
            let m = ".appimage".unicode_len();
            filename.substring_char(0, n - m)
        } else {
            filename
        };
        let no_arch = strip_arch_suffix(base);
        let no_version = strip_version_suffix(no_arch.as_str());
        trim_seps(no_version.as_str()).to_owned()
    }

    /// The application record for one executable file, or nothing when no
    /// display name can be extracted from the filename.
    pub fn standalone_app(filename: &str, abs_path: &str) -> (r: Option<Application>)
        ensures
            match r {
                Some(a) => extract_name_spec(filename@).len() > 0 && a@ == (AppView {
                    name: extract_name_spec(filename@),
                    exec_command: abs_path@,
                    source: AppSource::Standalone,
                    location: abs_path@,
                    icon: None,
                    categories: Seq::empty(),
                    description: None,
                }),
                None => extract_name_spec(filename@).len() == 0,
            },
    {
        let name = Self::extract_name(filename);
        if name.as_str().unicode_len() == 0 {
            return None;
        }
        let a = Application {
            name,
            exec_command: abs_path.to_owned(),
            source: AppSource::Standalone,
            location: abs_path.to_owned(),
            icon: None,
            categories: Vec::new(),
            description: None,
        };
        proof {
            assert(a.categories.deep_view() =~= Seq::<Seq<char>>::empty());
        }
        Some(a)
    }
}

} // verus!
