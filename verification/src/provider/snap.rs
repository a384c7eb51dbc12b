//! Snap applications, parsed from the whitespace-aligned table that
//! `snap list` prints.

use vstd::prelude::*;
use vstd::string::*;

use crate::app::{AppSource, AppView, Application};
use crate::provider::desktop::{
    categories_of, de_optional, de_value, lookup_de, parse_desktop_pairs, split_categories,
};
use crate::text::{contains_spec, contains_sub, lines, lines_spec, tokens, tokens_spec, trim,
    trim_spec};

verus! {

/// The snap name one listing row names, unless the row is blank or its
/// notes column marks the snap disabled.
pub open spec fn snap_name_of_line(line: Seq<char>) -> Option<Seq<char>> {
    let t = trim_spec(line);
    if t.len() == 0 {
        None
    } else {
        let toks = tokens_spec(t);
        if toks.len() == 0 {
            None
        } else if contains_spec(toks[toks.len() - 1], "disabled"@) {
            None
        } else {
            Some(toks[0])
        }
    }
}

/// The snap names the given rows list, in order.
pub open spec fn snap_names_of_lines(ls: Seq<Seq<char>>) -> Seq<Seq<char>>
    decreases ls.len(),
{
    if ls.len() == 0 {
        Seq::empty()
    } else {
        (match snap_name_of_line(ls[0]) {
            Some(nm) => seq![nm],
            None => Seq::<Seq<char>>::empty(),
        }) + snap_names_of_lines(ls.drop_first())
    }
}

/// The snap names a whole `snap list` output lists: every row but the
/// header, disabled snaps skipped.
pub open spec fn snap_names_spec(out: Seq<char>) -> Seq<Seq<char>> {
    let ls = lines_spec(out);
    if ls.len() == 0 {
        Seq::empty()
    } else {
        snap_names_of_lines(ls.drop_first())
    }
}

/// Snap applications, listed by the `snap` tool.
pub struct SnapProvider;

impl SnapProvider {
    /// A fresh provider.
    pub fn new() -> (r: Self) {
        SnapProvider
    }

    /// The label of this source.
    pub fn name(&self) -> (r: &'static str)
        ensures
            r@ == "snap"@,
    {
        "snap"
    }

    /// Parse `snap list` output into the installed snap names, skipping the
    /// header row and disabled snaps.
    pub fn parse_snap_list(output: &str) -> (r: Vec<String>)
        ensures
            r.deep_view() == snap_names_spec(output@),
    {
        let ls = lines(output);
        let ghost gls = lines_spec(output@);
        let n = ls.len();
        let mut names: Vec<String> = Vec::new();
        if n == 0 {
            return names;
        }
        let mut i: usize = 1;
        proof {
            assert(gls.skip(1) =~= gls.drop_first());
            assert(names.deep_view() + snap_names_of_lines(gls.drop_first())
                =~= snap_names_of_lines(gls.drop_first()));
        }
        while i < n
            invariant
                gls == lines_spec(output@),
                ls.deep_view() == gls,
                gls.len() == n,
                n == ls.len(),
                n >= 1,
                1 <= i <= n,
                snap_names_spec(output@) == names.deep_view() + snap_names_of_lines(
                    gls.skip(i as int),
                ),
            decreases n - i,
        {
            let ghost old_dv = names.deep_view();
            let line = trim(ls[i].as_str());
            if line.unicode_len() > 0 {
                let toks = tokens(line);
                if toks.len() > 0 {
                    proof {
                        reveal_strlit("disabled");
                    }
                    let last = toks.len() - 1;
                    if !contains_sub(toks[last].as_str(), "disabled") {
                        names.push(toks[0].clone());
                        proof {
                            assert(names.deep_view() =~= old_dv.push(
                                snap_name_of_line(gls[i as int]).unwrap(),
                            ));
                        }
                    }
                }
            }
            proof {
                assert(gls.skip(i as int)[0] == gls[i as int]);
                assert(gls.skip(i as int).drop_first() =~= gls.skip(i + 1));
                match snap_name_of_line(gls[i as int]) {
                    Some(nm) => {
                        assert(old_dv + (seq![nm] + snap_names_of_lines(gls.skip(i + 1)))
                            =~= old_dv.push(nm) + snap_names_of_lines(gls.skip(i + 1)));
                    },
                    None => {
                        assert(old_dv + (Seq::<Seq<char>>::empty() + snap_names_of_lines(
                            gls.skip(i + 1),
                        )) =~= old_dv + snap_names_of_lines(gls.skip(i + 1)));
                    },
                }
            }
            i += 1;
        }
        proof {
            assert(gls.skip(n as int) =~= Seq::<Seq<char>>::empty());
            assert(names.deep_view() + snap_names_of_lines(gls.skip(n as int))
                =~= names.deep_view());
        }
        names
    }

    /// The richer metadata a snap's GUI desktop entry supplies: display
    /// name, icon, categories and description, empty values counting as
    /// absent.
    pub fn desktop_enrichment(content: &str) -> (r: (
        Option<String>,
        Option<String>,
        Vec<String>,
        Option<String>,
    ))
        ensures
            r.0.deep_view() == de_optional(content@, "Name"@),
            r.1.deep_view() == de_optional(content@, "Icon"@),
            r.2.deep_view() == categories_of(de_value(content@, "Categories"@)),
            r.3.deep_view() == de_optional(content@, "Comment"@),
    {
        let pairs = parse_desktop_pairs(content);
        let display_name = match lookup_de(&pairs, "Name") {
            Some(v) => if v.as_str().unicode_len() > 0 {
                Some(v)
            } else {
                None
            },
            None => None,
        };
        let icon = match lookup_de(&pairs, "Icon") {
            Some(v) => if v.as_str().unicode_len() > 0 {
                Some(v)
            } else {
                None
            },
            None => None,
        };
        let categories = match lookup_de(&pairs, "Categories") {
            Some(v) => split_categories(v.as_str()),
            None => {
                let r: Vec<String> = Vec::new();
                proof {
                    let e = Seq::<char>::empty();
                    assert(crate::text::split_char_spec(e, ';') =~= seq![e]);
                    assert(trim_spec(e).len() == 0);
                    assert(seq![e].drop_first() =~= Seq::<Seq<char>>::empty());
                    assert(crate::provider::desktop::clean_tags(Seq::<Seq<char>>::empty())
                        =~= Seq::<Seq<char>>::empty());
                    assert(crate::provider::desktop::clean_tags(seq![e])
                        =~= Seq::<Seq<char>>::empty());
                    assert(r.deep_view() =~= categories_of(de_value(content@, "Categories"@)));
                }
                r
            },
        };
        let description = match lookup_de(&pairs, "Comment") {
            Some(v) => if v.as_str().unicode_len() > 0 {
                Some(v)
            } else {
                None
            },
            None => None,
        };
        (display_name, icon, categories, description)
    }

    /// The application record of one installed snap, enriched with the
    /// metadata of its GUI desktop entry when one supplied a display name.
    pub fn snap_app(
        name: &str,
        display_name: Option<String>,
        icon: Option<String>,
        categories: Vec<String>,
        description: Option<String>,
    ) -> (a: Application)
        ensures
            a@ == (AppView {
                name: match display_name.deep_view() {
                    Some(n) => n,
                    None => name@,
                },
                exec_command: "snap run "@ + name@,
                source: AppSource::Snap,
                location: name@,
                icon: icon.deep_view(),
                categories: categories.deep_view(),
                description: description.deep_view(),
            }),
    {
        let shown = match display_name {
            Some(n) => n,
            None => name.to_owned(),
        };
        let mut exec = String::from_str("snap run ");
        exec.append(name);
        let a = Application {
            name: shown,
            exec_command: exec,
            source: AppSource::Snap,
            location: name.to_owned(),
            icon,
            categories,
            description,
        };
        proof {
            assert(a@ =~= (AppView {
                name: match display_name.deep_view() {
                    Some(n) => n,
                    None => name@,
                },
                exec_command: "snap run "@ + name@,
                source: AppSource::Snap,
                location: name@,
                icon: icon.deep_view(),
                categories: categories.deep_view(),
                description: description.deep_view(),
            }));
        }
        a
    }
}

} // verus!
