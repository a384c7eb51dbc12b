//! Flatpak applications, parsed from the tab-separated listing that
//! `flatpak list` prints.

use vstd::prelude::*;
use vstd::string::*;

use crate::app::{AppSource, AppView, Application};
use crate::text::{lines, lines_spec, split_char, split_char_spec, trim, trim_spec};

verus! {

/// The application one listing line describes, if it names both an
/// application and an identifier.
pub open spec fn flatpak_app_of_line(line: Seq<char>) -> Option<AppView> {
    let t = trim_spec(line);
    if t.len() == 0 {
        None
    } else {
        let parts = split_char_spec(t, '\t');
        if parts.len() < 2 {
            None
        } else {
            let name = trim_spec(parts[0]);
            let id = trim_spec(parts[1]);
            let desc = if parts.len() >= 3 && trim_spec(parts[2]).len() > 0 {
                Some(trim_spec(parts[2]))
            } else {
                None
            };
            if name.len() == 0 || id.len() == 0 {
                None
            } else {
                Some(
                    AppView {
                        name,
                        exec_command: "flatpak run "@ + id,
                        source: AppSource::Flatpak,
                        location: id,
                        icon: Some(id),
                        categories: Seq::empty(),
                        description: desc,
                    },
                )
            }
        }
    }
}

/// The applications the given lines describe, in order.
pub open spec fn flatpak_apps_of_lines(ls: Seq<Seq<char>>) -> Seq<AppView>
    decreases ls.len(),
{
    if ls.len() == 0 {
        Seq::empty()
    } else {
        (match flatpak_app_of_line(ls[0]) {
            Some(a) => seq![a],
            None => Seq::<AppView>::empty(),
        }) + flatpak_apps_of_lines(ls.drop_first())
    }
}

/// The applications a whole `flatpak list` output describes.
pub open spec fn flatpak_apps_spec(out: Seq<char>) -> Seq<AppView> {
    flatpak_apps_of_lines(lines_spec(out))
}

/// Flatpak applications, listed by the `flatpak` tool.
pub struct FlatpakProvider;

impl FlatpakProvider {
    /// A fresh provider.
    pub fn new() -> (r: Self) {
        FlatpakProvider
    }

    /// The label of this source.
    pub fn name(&self) -> (r: &'static str)
        ensures
            r@ == "flatpak"@,
    {
        "flatpak"
    }

    /// Parse the tab-separated `name<TAB>application<TAB>description`
    /// listing into application records.
    pub fn parse_flatpak_output(output: &str) -> (r: Vec<Application>)
        ensures
            r.deep_view() == flatpak_apps_spec(output@),
    {
        let ls = lines(output);
        let ghost gls = lines_spec(output@);
        let n = ls.len();
        let mut apps: Vec<Application> = Vec::new();
        let mut i: usize = 0;
        proof {
            assert(gls.skip(0) =~= gls);
            assert(apps.deep_view() + flatpak_apps_of_lines(gls) =~= flatpak_apps_of_lines(gls));
        }
        while i < n
            invariant
                gls == lines_spec(output@),
                ls.deep_view() == gls,
                gls.len() == n,
                n == ls.len(),
                0 <= i <= n,
                flatpak_apps_of_lines(gls) == apps.deep_view() + flatpak_apps_of_lines(
                    gls.skip(i as int),
                ),
            decreases n - i,
        {
            let ghost old_dv = apps.deep_view();
            let line = trim(ls[i].as_str());
            if line.unicode_len() > 0 {
                let parts = split_char(line, '\t');
                if parts.len() >= 2 {
                    let name = trim(parts[0].as_str()).to_owned();
                    let id = trim(parts[1].as_str()).to_owned();
                    let desc: Option<String> = if parts.len() >= 3 {
                        let d = trim(parts[2].as_str());
                        if d.unicode_len() > 0 {
                            Some(d.to_owned())
                        } else {
                            None
                        }
                    } else {
                        None
                    };
                    if name.as_str().unicode_len() > 0 && id.as_str().unicode_len() > 0 {
                        let mut exec = String::from_str("flatpak run ");
                        exec.append(id.as_str());
                        let icon = Some(id.clone());
                        let a = Application {
                            name,
                            exec_command: exec,
                            source: AppSource::Flatpak,
                            location: id,
                            icon,
                            categories: Vec::new(),
                            description: desc,
                        };
                        proof {
                            assert(a@ =~= flatpak_app_of_line(gls[i as int]).unwrap());
                        }
                        apps.push(a);
                        proof {
                            assert(apps.deep_view() =~= old_dv.push(
                                flatpak_app_of_line(gls[i as int]).unwrap(),
                            ));
                        }
                    }
                }
            }
            proof {
                assert(gls.skip(i as int)[0] == gls[i as int]);
                assert(gls.skip(i as int).drop_first() =~= gls.skip(i + 1));
                match flatpak_app_of_line(gls[i as int]) {
                    Some(a) => {
                        assert(old_dv + (seq![a] + flatpak_apps_of_lines(gls.skip(i + 1)))
                            =~= old_dv.push(a) + flatpak_apps_of_lines(gls.skip(i + 1)));
                    },
                    None => {
                        assert(old_dv + (Seq::<AppView>::empty() + flatpak_apps_of_lines(
                            gls.skip(i + 1),
                        )) =~= old_dv + flatpak_apps_of_lines(gls.skip(i + 1)));
                    },
                }
            }
            i += 1;
        }
        proof {
            assert(gls.skip(n as int) =~= Seq::<Seq<char>>::empty());
            assert(apps.deep_view() + flatpak_apps_of_lines(gls.skip(n as int))
                =~= apps.deep_view());
        }
        apps
    }
}

} // verus!
