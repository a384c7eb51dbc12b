//! The application record and its source enumeration.

use vstd::prelude::*;
use vstd::string::*;

use crate::text::{lower_of, lowercase, str_eq};

verus! {

/// Where an application record came from. The order of the variants is the
/// dedup precedence: a numerically lower priority wins.
#[derive(Clone, Copy, Debug, PartialEq, Eq, Hash, Structural)]
pub enum AppSource {
    Desktop,
    Flatpak,
    Snap,
    Standalone,
    Cargo,
    Npm,
    Dpkg,
    Rpm,
    Pacman,
    Brew,
}

/// Dedup priority of a source: lower number = higher priority.
pub open spec fn priority_spec(s: AppSource) -> int {
    match s {
        AppSource::Desktop => 0,
        AppSource::Flatpak => 1,
        AppSource::Snap => 2,
        AppSource::Standalone => 3,
        AppSource::Cargo => 4,
        AppSource::Npm => 5,
        AppSource::Dpkg => 6,
        AppSource::Rpm => 7,
        AppSource::Pacman => 8,
        AppSource::Brew => 9,
    }
}

/// The canonical lowercase textual form of a source.
pub open spec fn source_label_spec(s: AppSource) -> Seq<char> {
    match s {
        AppSource::Desktop => "desktop"@,
        AppSource::Flatpak => "flatpak"@,
        AppSource::Snap => "snap"@,
        AppSource::Standalone => "standalone"@,
        AppSource::Cargo => "cargo"@,
        AppSource::Npm => "npm"@,
        AppSource::Dpkg => "dpkg"@,
        AppSource::Rpm => "rpm"@,
        AppSource::Pacman => "pacman"@,
        AppSource::Brew => "brew"@,
    }
}

/// Whether `t` is the canonical textual form of some source.
pub open spec fn is_source_label(t: Seq<char>) -> bool {
    t == "desktop"@ || t == "flatpak"@ || t == "snap"@ || t == "standalone"@ || t == "cargo"@
        || t == "npm"@ || t == "dpkg"@ || t == "rpm"@ || t == "pacman"@ || t == "brew"@
}

/// The error text `parse_source` reports for an unrecognized source name.
pub open spec fn invalid_source_msg(s: Seq<char>) -> Seq<char> {
    "invalid source '"@ + s
        + "': expected desktop, flatpak, snap, standalone, cargo, npm, dpkg, rpm, pacman, or brew"@
}

/// Parse a source string, case-insensitively, into an [`AppSource`].
pub fn parse_source(s: &str) -> (r: Result<AppSource, String>)
    ensures
        match r {
            Ok(src) => source_label_spec(src) == lower_of(s@),
            Err(m) => !is_source_label(lower_of(s@)) && m@ == invalid_source_msg(s@),
        },
{
    let lower = lowercase(s);
    let l = lower.as_str();
    if str_eq(l, "desktop") {
        Ok(AppSource::Desktop)
    } else if str_eq(l, "flatpak") {
        Ok(AppSource::Flatpak)
    } else if str_eq(l, "snap") {
        Ok(AppSource::Snap)
    } else if str_eq(l, "standalone") {
        Ok(AppSource::Standalone)
    } else if str_eq(l, "cargo") {
        Ok(AppSource::Cargo)
    } else if str_eq(l, "npm") {
        Ok(AppSource::Npm)
    } else if str_eq(l, "dpkg") {
        Ok(AppSource::Dpkg)
    } else if str_eq(l, "rpm") {
        Ok(AppSource::Rpm)
    } else if str_eq(l, "pacman") {
        Ok(AppSource::Pacman)
    } else if str_eq(l, "brew") {
        Ok(AppSource::Brew)
    } else {
        let mut m = String::from_str("invalid source '");
        m.append(s);
        m.append("': expected desktop, flatpak, snap, standalone, cargo, npm, dpkg, rpm, pacman, or brew");
        Err(m)
    }
}

impl AppSource {
    /// The canonical lowercase textual form of this source.
    pub fn label(&self) -> (r: &'static str)
        ensures
            r@ == source_label_spec(*self),
    {
        match self {
            AppSource::Desktop => "desktop",
            AppSource::Flatpak => "flatpak",
            AppSource::Snap => "snap",
            AppSource::Standalone => "standalone",
            AppSource::Cargo => "cargo",
            AppSource::Npm => "npm",
            AppSource::Dpkg => "dpkg",
            AppSource::Rpm => "rpm",
            AppSource::Pacman => "pacman",
            AppSource::Brew => "brew",
        }
    }

    /// Priority for deduplication: lower number = higher priority.
    pub fn priority(&self) -> (p: u8)
        ensures
            p as int == priority_spec(*self),
    {
        match self {
            AppSource::Desktop => 0,
            AppSource::Flatpak => 1,
            AppSource::Snap => 2,
            AppSource::Standalone => 3,
            AppSource::Cargo => 4,
            AppSource::Npm => 5,
            AppSource::Dpkg => 6,
            AppSource::Rpm => 7,
            AppSource::Pacman => 8,
            AppSource::Brew => 9,
        }
    }
}

/// One discovered application. Immutable once constructed by a provider.
#[derive(Debug)]
pub struct Application {
    pub name: String,
    pub exec_command: String,
    pub source: AppSource,
    pub location: String,
    pub icon: Option<String>,
    pub categories: Vec<String>,
    pub description: Option<String>,
}

/// The mathematical model of an [`Application`]: every field as a sequence.
#[verifier::ext_equal]
pub ghost struct AppView {
    pub name: Seq<char>,
    pub exec_command: Seq<char>,
    pub source: AppSource,
    pub location: Seq<char>,
    pub icon: Option<Seq<char>>,
    pub categories: Seq<Seq<char>>,
    pub description: Option<Seq<char>>,
}

impl View for Application {
    type V = AppView;

    open spec fn view(&self) -> AppView {
        AppView {
            name: self.name@,
            exec_command: self.exec_command@,
            source: self.source,
            location: self.location@,
            icon: self.icon.deep_view(),
            categories: self.categories.deep_view(),
            description: self.description.deep_view(),
        }
    }
}

impl DeepView for Application {
    type V = AppView;

    open spec fn deep_view(&self) -> AppView {
        self.view()
    }
}

/// Count of populated optional metadata fields, in `{0, 1, 2, 3}`.
pub open spec fn richness_spec(a: AppView) -> int {
    (if a.icon is Some {
        1int
    } else {
        0int
    }) + (if a.categories.len() > 0 {
        1int
    } else {
        0int
    }) + (if a.description is Some {
        1int
    } else {
        0int
    })
}

impl Application {
    /// Count how many optional metadata fields are populated.
    pub fn metadata_richness(&self) -> (n: usize)
        ensures
            n as int == richness_spec(self@),
    {
        let mut count: usize = 0;
        if self.icon.is_some() {
            count += 1;
        }
        if !self.categories.is_empty() {
            count += 1;
        }
        if self.description.is_some() {
            count += 1;
        }
        count
    }
}

/// An optional string copied field by field.
pub fn clone_opt_string(o: &Option<String>) -> (r: Option<String>)
    ensures
        r.deep_view() == o.deep_view(),
{
    match o {
        Some(s) => Some(s.clone()),
        None => None,
    }
}

/// A string vector copied element by element.
pub fn clone_string_vec(v: &Vec<String>) -> (r: Vec<String>)
    ensures
        r.deep_view() == v.deep_view(),
{
    let mut out: Vec<String> = Vec::new();
    let n = v.len();
    let mut i: usize = 0;
    while i < n
        invariant
            n == v.len(),
            0 <= i <= n,
            out.deep_view() == v.deep_view().subrange(0, i as int),
        decreases n - i,
    {
        let ghost old_out = out.deep_view();
        out.push(v[i].clone());
        proof {
            assert(out.deep_view() =~= old_out.push(v.deep_view()[i as int]));
            assert(out.deep_view() =~= v.deep_view().subrange(0, i + 1));
        }
        i += 1;
    }
    proof {
        assert(v.deep_view().subrange(0, n as int) =~= v.deep_view());
    }
    out
}

impl Clone for Application {
    /// A copy whose model is the model of the original.
    fn clone(&self) -> (r: Self)
        ensures
            r@ == self@,
    {
        let r = Application {
            name: self.name.clone(),
            exec_command: self.exec_command.clone(),
            source: self.source,
            location: self.location.clone(),
            icon: clone_opt_string(&self.icon),
            categories: clone_string_vec(&self.categories),
            description: clone_opt_string(&self.description),
        };
        proof {
            assert(r@ =~= self@);
        }
        r
    }
}

} // verus!
