//! The provider abstraction: one strategy per source of installed
//! applications, and the error kind a strategy can report.

pub mod brew;
pub mod cargo;
pub mod desktop;
pub mod dpkg;
pub mod flatpak;
pub mod npm;
pub mod pacman;
pub mod rpm;
pub mod snap;
pub mod standalone;

use vstd::prelude::*;
use vstd::string::*;

use crate::app::{clone_opt_string, AppSource, AppView, Application};
use crate::text::{
    find_char, first_idx, has_prefix, has_prefix_spec, has_suffix, has_suffix_spec, last_idx,
    lines, lines_spec, rfind_char, str_eq, trim, trim_spec,
};

verus! {

/// What can go wrong inside a provider's discovery. Conditions that merely
/// mean "nothing found" are not errors: they yield an empty list instead.
#[derive(Debug)]
pub enum ProviderError {
    ToolNotAvailable(String),
    PermissionDenied(String),
    ParseError(String),
    Io(String),
}

/// The text a provider error renders to.
pub open spec fn provider_error_msg(e: ProviderError) -> Seq<char> {
    match e {
        ProviderError::ToolNotAvailable(s) => "tool not available: "@ + s@,
        ProviderError::PermissionDenied(s) => "permission denied: "@ + s@,
        ProviderError::ParseError(s) => "parse error: "@ + s@,
        ProviderError::Io(s) => "io error: "@ + s@,
    }
}

impl ProviderError {
    /// The error rendered as text.
    pub fn message(&self) -> (r: String)
        ensures
            r@ == provider_error_msg(*self),
    {
        match self {
            ProviderError::ToolNotAvailable(s) => {
                let mut m = String::from_str("tool not available: ");
                m.append(s.as_str());
                m
            },
            ProviderError::PermissionDenied(s) => {
                let mut m = String::from_str("permission denied: ");
                m.append(s.as_str());
                m
            },
            ProviderError::ParseError(s) => {
                let mut m = String::from_str("parse error: ");
                m.append(s.as_str());
                m
            },
            ProviderError::Io(s) => {
                let mut m = String::from_str("io error: ");
                m.append(s.as_str());
                m
            },
        }
    }
}

/// One strategy that discovers applications from a single source.
///
/// `discover` reads the external environment (filesystem, subprocesses), so
/// the implementations live with the I/O shell around this library; the
/// engine consumes their reports as plain values.
pub trait AppProvider {
    fn name(&self) -> &'static str;

    fn is_available(&self) -> bool;

    fn discover(&self) -> Result<Vec<Application>, ProviderError>;
}

/// The package name and optional summary one `name<TAB>summary` row holds,
/// as dpkg and rpm print their query rows.
pub open spec fn name_desc_of_line(line: Seq<char>) -> Option<(Seq<char>, Option<Seq<char>>)> {
    let t = trim_spec(line);
    if t.len() == 0 {
        None
    } else {
        let j = first_idx(t, '\t');
        if 0 <= j < t.len() {
            let d = t.subrange(j + 1, t.len() as int);
            Some(
                (
                    t.subrange(0, j),
                    if d.len() > 0 {
                        Some(d)
                    } else {
                        None
                    },
                ),
            )
        } else {
            Some((t, None))
        }
    }
}

/// The rows of the given lines, blank lines skipped.
pub open spec fn name_desc_of_lines(ls: Seq<Seq<char>>) -> Seq<(Seq<char>, Option<Seq<char>>)>
    decreases ls.len(),
{
    if ls.len() == 0 {
        Seq::empty()
    } else {
        (match name_desc_of_line(ls[0]) {
            Some(row) => seq![row],
            None => Seq::<(Seq<char>, Option<Seq<char>>)>::empty(),
        }) + name_desc_of_lines(ls.drop_first())
    }
}

/// All `name<TAB>summary` rows of a query output.
pub open spec fn name_desc_rows_spec(out: Seq<char>) -> Seq<(Seq<char>, Option<Seq<char>>)> {
    name_desc_of_lines(lines_spec(out))
}

/// Parse `name<TAB>summary` rows into package names and descriptions; an
/// empty summary counts as none.
pub fn parse_name_desc_rows(output: &str) -> (r: Vec<(String, Option<String>)>)
    ensures
        r.deep_view() == name_desc_rows_spec(output@),
{
    let ls = lines(output);
    let ghost gls = lines_spec(output@);
    let n = ls.len();
    let mut rows: Vec<(String, Option<String>)> = Vec::new();
    let mut i: usize = 0;
    proof {
        assert(gls.skip(0) =~= gls);
        assert(rows.deep_view() + name_desc_of_lines(gls) =~= name_desc_of_lines(gls));
    }
    while i < n
        invariant
            gls == lines_spec(output@),
            ls.deep_view() == gls,
            gls.len() == n,
            n == ls.len(),
            0 <= i <= n,
            name_desc_of_lines(gls) == rows.deep_view() + name_desc_of_lines(gls.skip(i as int)),
        decreases n - i,
    {
        let ghost old_dv = rows.deep_view();
        let line = trim(ls[i].as_str());
        let ln = line.unicode_len();
        if ln > 0 {
            let row = match find_char(line, '\t', 0) {
                Some(j) => {
                    proof {
                        assert(line@.subrange(0, ln as int) =~= line@);
                    }
                    let name = line.substring_char(0, j).to_owned();
                    let d = line.substring_char(j + 1, ln);
                    let desc = if d.unicode_len() > 0 {
                        Some(d.to_owned())
                    } else {
                        None
                    };
                    (name, desc)
                },
                None => {
                    proof {
                        assert(line@.subrange(0, ln as int) =~= line@);
                    }
                    (line.to_owned(), None)
                },
            };
            rows.push(row);
            proof {
                assert(rows.deep_view() =~= old_dv.push(
                    name_desc_of_line(gls[i as int]).unwrap(),
                ));
            }
        }
        proof {
            assert(gls.skip(i as int)[0] == gls[i as int]);
            assert(gls.skip(i as int).drop_first() =~= gls.skip(i + 1));
            match name_desc_of_line(gls[i as int]) {
                Some(row) => {
                    assert(old_dv + (seq![row] + name_desc_of_lines(gls.skip(i + 1)))
                        =~= old_dv.push(row) + name_desc_of_lines(gls.skip(i + 1)));
                },
                None => {
                    assert(old_dv + (Seq::<(Seq<char>, Option<Seq<char>>)>::empty()
                        + name_desc_of_lines(gls.skip(i + 1))) =~= old_dv + name_desc_of_lines(
                        gls.skip(i + 1),
                    ));
                },
            }
        }
        i += 1;
    }
    proof {
        assert(gls.skip(n as int) =~= Seq::<Seq<char>>::empty());
        assert(rows.deep_view() + name_desc_of_lines(gls.skip(n as int)) =~= rows.deep_view());
    }
    rows
}

/// Whether some file name in the applications directory claims the
/// package: it starts with the package name and ends with `.desktop`.
pub open spec fn desktop_claims_spec(entries: Seq<Seq<char>>, pkg: Seq<char>) -> bool {
    exists|i: int|
        0 <= i < entries.len() && has_prefix_spec(#[trigger] entries[i], pkg) && has_suffix_spec(
            entries[i],
            ".desktop"@,
        )
}

/// Whether the applications directory already claims the package with a
/// desktop entry, so the package provider must not report it again.
pub fn desktop_file_claims(entries: &Vec<String>, pkg: &str) -> (r: bool)
    ensures
        r == desktop_claims_spec(entries.deep_view(), pkg@),
{
    let n = entries.len();
    let mut i: usize = 0;
    while i < n
        invariant
            n == entries.len(),
            0 <= i <= n,
            forall|k: int|
                0 <= k < i ==> !(has_prefix_spec(#[trigger] entries.deep_view()[k], pkg@)
                    && has_suffix_spec(entries.deep_view()[k], ".desktop"@)),
        decreases n - i,
    {
        if has_prefix(entries[i].as_str(), pkg) && has_suffix(entries[i].as_str(), ".desktop") {
            proof {
                assert(has_prefix_spec(entries.deep_view()[i as int], pkg@) && has_suffix_spec(
                    entries.deep_view()[i as int],
                    ".desktop"@,
                ));
            }
            return true;
        }
        i += 1;
    }
    false
}

/// Whether a manifest line names a binary under one of the consulted
/// directories.
pub open spec fn bin_candidate(t: Seq<char>) -> bool {
    has_prefix_spec(t, "/usr/bin/"@) || has_prefix_spec(t, "/usr/local/bin/"@) || has_prefix_spec(
        t,
        "/usr/sbin/"@,
    )
}

/// The trimmed manifest lines that name binaries, in order.
pub open spec fn bin_candidates_of_lines(ls: Seq<Seq<char>>) -> Seq<Seq<char>>
    decreases ls.len(),
{
    if ls.len() == 0 {
        Seq::empty()
    } else {
        let t = trim_spec(ls[0]);
        (if bin_candidate(t) {
            seq![t]
        } else {
            Seq::<Seq<char>>::empty()
        }) + bin_candidates_of_lines(ls.drop_first())
    }
}

/// The binary paths a package file manifest lists under `/usr/bin`,
/// `/usr/local/bin` or `/usr/sbin`, in manifest order.
pub open spec fn bin_candidates_spec(out: Seq<char>) -> Seq<Seq<char>> {
    bin_candidates_of_lines(lines_spec(out))
}

/// The candidate binary paths of a package file manifest; the shell picks
/// the first that exists as a regular file.
pub fn binary_candidates(content: &str) -> (r: Vec<String>)
    ensures
        r.deep_view() == bin_candidates_spec(content@),
{
    let ls = lines(content);
    let ghost gls = lines_spec(content@);
    let n = ls.len();
    let mut out: Vec<String> = Vec::new();
    let mut i: usize = 0;
    proof {
        assert(gls.skip(0) =~= gls);
        assert(out.deep_view() + bin_candidates_of_lines(gls) =~= bin_candidates_of_lines(gls));
    }
    while i < n
        invariant
            gls == lines_spec(content@),
            ls.deep_view() == gls,
            gls.len() == n,
            n == ls.len(),
            0 <= i <= n,
            bin_candidates_of_lines(gls) == out.deep_view() + bin_candidates_of_lines(
                gls.skip(i as int),
            ),
        decreases n - i,
    {
        let ghost old_dv = out.deep_view();
        let t = trim(ls[i].as_str());
        if has_prefix(t, "/usr/bin/") || has_prefix(t, "/usr/local/bin/") || has_prefix(
            t,
            "/usr/sbin/",
        ) {
            out.push(t.to_owned());
            proof {
                assert(out.deep_view() =~= old_dv.push(trim_spec(gls[i as int])));
            }
        }
        proof {
            assert(gls.skip(i as int)[0] == gls[i as int]);
            assert(gls.skip(i as int).drop_first() =~= gls.skip(i + 1));
            let tv = trim_spec(gls[i as int]);
            if bin_candidate(tv) {
                assert(old_dv + (seq![tv] + bin_candidates_of_lines(gls.skip(i + 1)))
                    =~= old_dv.push(tv) + bin_candidates_of_lines(gls.skip(i + 1)));
            } else {
                assert(old_dv + (Seq::<Seq<char>>::empty() + bin_candidates_of_lines(
                    gls.skip(i + 1),
                )) =~= old_dv + bin_candidates_of_lines(gls.skip(i + 1)));
            }
        }
        i += 1;
    }
    proof {
        assert(gls.skip(n as int) =~= Seq::<Seq<char>>::empty());
        assert(out.deep_view() + bin_candidates_of_lines(gls.skip(n as int)) =~= out.deep_view());
    }
    out
}

/// The final path component, for the plain absolute paths handled here:
/// nothing when the tail is empty, `.` or `..`.
pub open spec fn file_name_spec(p: Seq<char>) -> Option<Seq<char>> {
    let j = last_idx(p, '/');
    let tail = if j >= 0 {
        p.subrange(j + 1, p.len() as int)
    } else {
        p
    };
    if tail.len() == 0 || tail == "."@ || tail == ".."@ {
        None
    } else {
        Some(tail)
    }
}

/// The file name of a path, when it has one.
pub fn file_name_of(path: &str) -> (r: Option<String>)
    ensures
        r.deep_view() == file_name_spec(path@),
{
    let n = path.unicode_len();
    let tail = match rfind_char(path, '/') {
        Some(j) => path.substring_char(j + 1, n),
        None => path,
    };
    if tail.unicode_len() == 0 || str_eq(tail, ".") || str_eq(tail, "..") {
        None
    } else {
        Some(tail.to_owned())
    }
}

/// The application record of one package's resolved binary: named after
/// the binary file (after the package when the path has no file name),
/// launched by the binary path, and tagged as a command-line tool.
pub open spec fn package_app_view(
    pkg: Seq<char>,
    desc: Option<Seq<char>>,
    binary: Seq<char>,
    source: AppSource,
) -> AppView {
    AppView {
        name: match file_name_spec(binary) {
            Some(t) => t,
            None => pkg,
        },
        exec_command: binary,
        source,
        location: binary,
        icon: None,
        categories: seq!["CLI"@],
        description: desc,
    }
}

/// Build the application record for a package's resolved binary.
pub fn package_application(
    pkg: &str,
    description: Option<String>,
    binary: String,
    source: AppSource,
) -> (a: Application)
    ensures
        a@ == package_app_view(pkg@, description.deep_view(), binary@, source),
{
    let name = match file_name_of(binary.as_str()) {
        Some(t) => t,
        None => pkg.to_owned(),
    };
    let location = binary.clone();
    let categories = vec![String::from_str("CLI")];
    let a = Application {
        name,
        exec_command: binary,
        source,
        location,
        icon: None,
        categories,
        description,
    };
    proof {
        assert(a.categories.deep_view() =~= seq!["CLI"@]);
        assert(a@ =~= package_app_view(pkg@, description.deep_view(), a.exec_command@, source));
    }
    a
}

/// The application record of one executable in a language toolchain's
/// global bin directory: named after the file, launched by its absolute
/// path, and tagged as a development tool.
pub fn bin_dir_application(name: String, abs_path: &str, source: AppSource) -> (a: Application)
    ensures
        a@ == (AppView {
            name: name@,
            exec_command: abs_path@,
            source,
            location: abs_path@,
            icon: None,
            categories: seq!["Development"@],
            description: None,
        }),
{
    let categories = vec![String::from_str("Development")];
    let a = Application {
        name,
        exec_command: abs_path.to_owned(),
        source,
        location: abs_path.to_owned(),
        icon: None,
        categories,
        description: None,
    };
    proof {
        assert(a.categories.deep_view() =~= seq!["Development"@]);
        assert(a@ =~= (AppView {
            name: a.name@,
            exec_command: abs_path@,
            source,
            location: abs_path@,
            icon: None,
            categories: seq!["Development"@],
            description: None,
        }));
    }
    a
}

/// Whether `s` occurs among the strings of `v`.
pub fn str_vec_contains(v: &Vec<String>, s: &str) -> (r: bool)
    ensures
        r == v.deep_view().contains(s@),
{
    let n = v.len();
    let mut i: usize = 0;
    while i < n
        invariant
            n == v.len(),
            0 <= i <= n,
            forall|k: int| 0 <= k < i ==> v.deep_view()[k] != s@,
        decreases n - i,
    {
        if str_eq(v[i].as_str(), s) {
            proof {
                assert(v.deep_view()[i as int] == s@);
            }
            return true;
        }
        i += 1;
    }
    false
}

/// The applications the packages yield, walking them in order: a package
/// that a desktop entry claims, that resolved to no binary, or whose
/// binary was already reported is skipped.
pub open spec fn assemble_from(
    pkgs: Seq<(Seq<char>, Option<Seq<char>>)>,
    claimed: Seq<bool>,
    bins: Seq<Option<Seq<char>>>,
    source: AppSource,
    i: int,
    seen: Seq<Seq<char>>,
) -> Seq<AppView>
    decreases pkgs.len() - i,
{
    if !(0 <= i < pkgs.len()) {
        Seq::empty()
    } else if claimed[i] {
        assemble_from(pkgs, claimed, bins, source, i + 1, seen)
    } else {
        match bins[i] {
            None => assemble_from(pkgs, claimed, bins, source, i + 1, seen),
            Some(b) => {
                if seen.contains(b) {
                    assemble_from(pkgs, claimed, bins, source, i + 1, seen)
                } else {
                    seq![package_app_view(pkgs[i].0, pkgs[i].1, b, source)] + assemble_from(
                        pkgs,
                        claimed,
                        bins,
                        source,
                        i + 1,
                        seen.push(b),
                    )
                }
            },
        }
    }
}

/// Assemble the application list of a package provider from the package
/// rows, the desktop-entry claims, and the resolved binaries, reporting
/// each binary path once.
pub fn assemble_package_apps(
    pkgs: &Vec<(String, Option<String>)>,
    claimed: &Vec<bool>,
    bins: &Vec<Option<String>>,
    source: AppSource,
) -> (r: Vec<Application>)
    requires
        claimed@.len() == pkgs@.len(),
        bins@.len() == pkgs@.len(),
    ensures
        r.deep_view() == assemble_from(
            pkgs.deep_view(),
            claimed@,
            bins.deep_view(),
            source,
            0,
            Seq::empty(),
        ),
{
    let ghost gp = pkgs.deep_view();
    let ghost gc = claimed@;
    let ghost gb = bins.deep_view();
    let n = pkgs.len();
    let mut result: Vec<Application> = Vec::new();
    let mut seen: Vec<String> = Vec::new();
    let mut i: usize = 0;
    proof {
        assert(seen.deep_view() =~= Seq::<Seq<char>>::empty());
        assert(result.deep_view() + assemble_from(gp, gc, gb, source, 0, seen.deep_view())
            =~= assemble_from(gp, gc, gb, source, 0, Seq::empty()));
    }
    while i < n
        invariant
            gp == pkgs.deep_view(),
            gc == claimed@,
            gb == bins.deep_view(),
            gp.len() == n,
            gc.len() == n,
            gb.len() == n,
            n == pkgs.len(),
            n == claimed.len(),
            n == bins.len(),
            0 <= i <= n,
            assemble_from(gp, gc, gb, source, 0, Seq::empty()) == result.deep_view()
                + assemble_from(gp, gc, gb, source, i as int, seen.deep_view()),
        decreases n - i,
    {
        let ghost old_dv = result.deep_view();
        let ghost old_seen = seen.deep_view();
        if !claimed[i] {
            match &bins[i] {
                Some(b) => {
                    if !str_vec_contains(&seen, b.as_str()) {
                        let desc = clone_opt_string(&pkgs[i].1);
                        let a = package_application(pkgs[i].0.as_str(), desc, b.clone(), source);
                        result.push(a);
                        seen.push(b.clone());
                        proof {
                            assert(gb[i as int] == Some(b@));
                            assert(result.deep_view() =~= old_dv.push(
                                package_app_view(gp[i as int].0, gp[i as int].1, b@, source),
                            ));
                            assert(seen.deep_view() =~= old_seen.push(b@));
                            assert(old_dv + (seq![
                                package_app_view(gp[i as int].0, gp[i as int].1, b@, source),
                            ] + assemble_from(gp, gc, gb, source, i + 1, old_seen.push(b@)))
                                =~= result.deep_view() + assemble_from(
                                gp,
                                gc,
                                gb,
                                source,
                                i + 1,
                                seen.deep_view(),
                            ));
                        }
                    }
                },
                None => {
                    proof {
                        assert(gb[i as int] is None);
                    }
                },
            }
        }
        i += 1;
    }
    result
}

} // verus!
