//! Desktop entries: the INI-like key/value format of XDG application
//! files, the field-code stripping, and the rules that admit or reject an
//! entry.

use vstd::prelude::*;
use vstd::string::*;

use crate::app::{AppSource, AppView, Application};
use crate::text::{
    first_idx, find_char, join_spec, join_with, lines, lines_spec, lower_of, lowercase,
    remove_all, remove_all_spec, split_char, split_char_spec, str_eq, tokens, tokens_spec, trim,
    trim_spec,
};

verus! {

/// The key/value pairs of the `Desktop Entry` section of the remaining
/// lines, `in_sec` saying whether the scan stands inside that section:
/// `#` starts a comment, `[...]` switches sections, and a line without
/// `=` is ignored.
pub open spec fn de_pairs_rec(ls: Seq<Seq<char>>, in_sec: bool) -> Seq<(Seq<char>, Seq<char>)>
    decreases ls.len(),
{
    if ls.len() == 0 {
        Seq::empty()
    } else {
        let t = trim_spec(ls[0]);
        if t.len() == 0 || t[0] == '#' {
            de_pairs_rec(ls.drop_first(), in_sec)
        } else if t[0] == '[' {
            if t.len() >= 2 && t[t.len() - 1] == ']' {
                let sec = trim_spec(t.subrange(1, t.len() - 1));
                de_pairs_rec(ls.drop_first(), sec == "Desktop Entry"@)
            } else {
                de_pairs_rec(ls.drop_first(), in_sec)
            }
        } else {
            let j = first_idx(t, '=');
            if 0 <= j < t.len() && in_sec {
                let key = trim_spec(t.subrange(0, j));
                let value = trim_spec(t.subrange(j + 1, t.len() as int));
                seq![(key, value)] + de_pairs_rec(ls.drop_first(), in_sec)
            } else {
                de_pairs_rec(ls.drop_first(), in_sec)
            }
        }
    }
}

/// The key/value pairs of the `Desktop Entry` section of a document.
pub open spec fn de_pairs(content: Seq<char>) -> Seq<(Seq<char>, Seq<char>)> {
    de_pairs_rec(lines_spec(content), false)
}

/// The value of `key` among the pairs, the last occurrence winning.
pub open spec fn lookup_pairs(ps: Seq<(Seq<char>, Seq<char>)>, key: Seq<char>) -> Option<
    Seq<char>,
>
    decreases ps.len(),
{
    if ps.len() == 0 {
        None
    } else if ps[ps.len() - 1].0 == key {
        Some(ps[ps.len() - 1].1)
    } else {
        lookup_pairs(ps.drop_last(), key)
    }
}

/// Collect the key/value pairs of the `Desktop Entry` section.
pub fn parse_desktop_pairs(content: &str) -> (r: Vec<(String, String)>)
    ensures
        r.deep_view() == de_pairs(content@),
{
    let ls = lines(content);
    let ghost gls = lines_spec(content@);
    let n = ls.len();
    let mut pairs: Vec<(String, String)> = Vec::new();
    let mut in_sec = false;
    let mut i: usize = 0;
    proof {
        assert(gls.skip(0) =~= gls);
        assert(pairs.deep_view() + de_pairs_rec(gls, false) =~= de_pairs_rec(gls, false));
    }
    while i < n
        invariant
            gls == lines_spec(content@),
            ls.deep_view() == gls,
            gls.len() == n,
            n == ls.len(),
            0 <= i <= n,
            de_pairs(content@) == pairs.deep_view() + de_pairs_rec(gls.skip(i as int), in_sec),
        decreases n - i,
    {
        let ghost old_dv = pairs.deep_view();
        proof {
            assert(gls.skip(i as int)[0] == gls[i as int]);
            assert(gls.skip(i as int).drop_first() =~= gls.skip(i + 1));
        }
        let t = trim(ls[i].as_str());
        let tn = t.unicode_len();
        if tn == 0 || t.get_char(0) == '#' {
        } else if t.get_char(0) == '[' {
            if tn >= 2 && t.get_char(tn - 1) == ']' {
                let sec = trim(t.substring_char(1, tn - 1));
                in_sec = str_eq(sec, "Desktop Entry");
            }
        } else {
            match find_char(t, '=', 0) {
                Some(j) => {
                    proof {
                        assert(t@.subrange(0, tn as int) =~= t@);
                    }
                    if in_sec {
                        let key = trim(t.substring_char(0, j)).to_owned();
                        let value = trim(t.substring_char(j + 1, tn)).to_owned();
                        pairs.push((key, value));
                        proof {
                            let tv = trim_spec(gls[i as int]);
                            let jj = first_idx(tv, '=');
                            assert(pairs.deep_view() =~= old_dv.push(
                                (
                                    trim_spec(tv.subrange(0, jj)),
                                    trim_spec(tv.subrange(jj + 1, tv.len() as int)),
                                ),
                            ));
                            assert(old_dv + (seq![
                                (
                                    trim_spec(tv.subrange(0, jj)),
                                    trim_spec(tv.subrange(jj + 1, tv.len() as int)),
                                ),
                            ] + de_pairs_rec(gls.skip(i + 1), in_sec)) =~= pairs.deep_view()
                                + de_pairs_rec(gls.skip(i + 1), in_sec));
                        }
                    }
                },
                None => {
                    proof {
                        assert(t@.subrange(0, tn as int) =~= t@);
                    }
                },
            }
        }
        i += 1;
    }
    proof {
        assert(gls.skip(n as int) =~= Seq::<Seq<char>>::empty());
        assert(pairs.deep_view() + de_pairs_rec(gls.skip(n as int), in_sec) =~= pairs.deep_view());
    }
    pairs
}

/// Look a key up among the collected pairs, the last occurrence winning.
pub fn lookup_de(pairs: &Vec<(String, String)>, key: &str) -> (r: Option<String>)
    ensures
        r.deep_view() == lookup_pairs(pairs.deep_view(), key@),
{
    let ghost gp = pairs.deep_view();
    let mut j = pairs.len();
    proof {
        assert(gp.take(j as int) =~= gp);
    }
    while j > 0
        invariant
            gp == pairs.deep_view(),
            0 <= j <= pairs.len(),
            gp.len() == pairs.len(),
            lookup_pairs(gp, key@) == lookup_pairs(gp.take(j as int), key@),
        decreases j,
    {
        proof {
            assert(gp.take(j as int)[j - 1] == gp[j - 1]);
            assert(gp.take(j as int).drop_last() =~= gp.take(j - 1));
        }
        if str_eq(pairs[j - 1].0.as_str(), key) {
            return Some(pairs[j - 1].1.clone());
        }
        j -= 1;
    }
    proof {
        assert(gp.take(0) =~= Seq::<(Seq<char>, Seq<char>)>::empty());
    }
    None
}

/// The XDG field codes removed from an `Exec` value.
pub open spec fn field_codes() -> Seq<Seq<char>> {
    seq![
        "%f"@,
        "%F"@,
        "%u"@,
        "%U"@,
        "%d"@,
        "%D"@,
        "%n"@,
        "%N"@,
        "%i"@,
        "%c"@,
        "%k"@,
        "%v"@,
        "%m"@,
    ]
}

/// The value with the field codes at or after `i` removed, one code after
/// the other, by plain substring removal.
pub open spec fn strip_codes_from(s: Seq<char>, i: int) -> Seq<char>
    decreases field_codes().len() - i,
{
    if !(0 <= i < field_codes().len()) {
        s
    } else {
        strip_codes_from(remove_all_spec(s, field_codes()[i]), i + 1)
    }
}

/// An `Exec` value with every field code removed and the remaining
/// whitespace runs collapsed to single spaces.
pub open spec fn strip_field_codes_spec(s: Seq<char>) -> Seq<char> {
    join_spec(tokens_spec(strip_codes_from(s, 0)), " "@)
}

/// Strip XDG field codes from an Exec string and collapse whitespace.
pub fn strip_field_codes(exec: &str) -> (r: String)
    ensures
        r@ == strip_field_codes_spec(exec@),
{
    let codes: Vec<&str> = vec![
        "%f",
        "%F",
        "%u",
        "%U",
        "%d",
        "%D",
        "%n",
        "%N",
        "%i",
        "%c",
        "%k",
        "%v",
        "%m",
    ];
    proof {
        assert(forall|k: int| 0 <= k < 13 ==> codes.deep_view()[k] == #[trigger] field_codes()[k]);
        reveal_strlit("%f");
        reveal_strlit("%F");
        reveal_strlit("%u");
        reveal_strlit("%U");
        reveal_strlit("%d");
        reveal_strlit("%D");
        reveal_strlit("%n");
        reveal_strlit("%N");
        reveal_strlit("%i");
        reveal_strlit("%c");
        reveal_strlit("%k");
        reveal_strlit("%v");
        reveal_strlit("%m");
    }
    let mut result: String = exec.to_owned();
    let mut i: usize = 0;
    while i < 13
        invariant
            codes.len() == 13,
            field_codes().len() == 13,
            forall|k: int| 0 <= k < 13 ==> codes.deep_view()[k] == #[trigger] field_codes()[k],
            forall|k: int| 0 <= k < 13 ==> (#[trigger] field_codes()[k]).len() == 2,
            0 <= i <= 13,
            strip_codes_from(result@, i as int) == strip_codes_from(exec@, 0),
        decreases 13 - i,
    {
        let next = remove_all(result.as_str(), codes[i]);
        result = next;
        i += 1;
    }
    let toks = tokens(result.as_str());
    join_with(&toks, " ")
}

/// The trimmed, non-empty category tags of a `Categories` value, split on
/// `;`.
pub open spec fn categories_of(v: Seq<char>) -> Seq<Seq<char>> {
    clean_tags(split_char_spec(v, ';'))
}

/// The tags trimmed, empty ones dropped.
pub open spec fn clean_tags(parts: Seq<Seq<char>>) -> Seq<Seq<char>>
    decreases parts.len(),
{
    if parts.len() == 0 {
        Seq::empty()
    } else {
        let t = trim_spec(parts[0]);
        (if t.len() > 0 {
            seq![t]
        } else {
            Seq::<Seq<char>>::empty()
        }) + clean_tags(parts.drop_first())
    }
}

/// Split a `Categories` value on `;`, trimming and dropping empty tags.
pub fn split_categories(v: &str) -> (r: Vec<String>)
    ensures
        r.deep_view() == categories_of(v@),
{
    let parts = split_char(v, ';');
    let ghost gp = split_char_spec(v@, ';');
    let n = parts.len();
    let mut out: Vec<String> = Vec::new();
    let mut i: usize = 0;
    proof {
        assert(gp.skip(0) =~= gp);
        assert(out.deep_view() + clean_tags(gp) =~= clean_tags(gp));
    }
    while i < n
        invariant
            gp == split_char_spec(v@, ';'),
            parts.deep_view() == gp,
            gp.len() == n,
            n == parts.len(),
            0 <= i <= n,
            clean_tags(gp) == out.deep_view() + clean_tags(gp.skip(i as int)),
        decreases n - i,
    {
        let ghost old_dv = out.deep_view();
        proof {
            assert(gp.skip(i as int)[0] == gp[i as int]);
            assert(gp.skip(i as int).drop_first() =~= gp.skip(i + 1));
        }
        let t = trim(parts[i].as_str());
        if t.unicode_len() > 0 {
            out.push(t.to_owned());
            proof {
                assert(out.deep_view() =~= old_dv.push(trim_spec(gp[i as int])));
                assert(old_dv + (seq![trim_spec(gp[i as int])] + clean_tags(gp.skip(i + 1)))
                    =~= out.deep_view() + clean_tags(gp.skip(i + 1)));
            }
        } else {
            proof {
                assert(old_dv + (Seq::<Seq<char>>::empty() + clean_tags(gp.skip(i + 1)))
                    =~= old_dv + clean_tags(gp.skip(i + 1)));
            }
        }
        i += 1;
    }
    proof {
        assert(gp.skip(n as int) =~= Seq::<Seq<char>>::empty());
        assert(out.deep_view() + clean_tags(gp.skip(n as int)) =~= out.deep_view());
    }
    out
}

/// A looked-up value, an absent key counting as the empty value.
pub open spec fn de_value(content: Seq<char>, key: Seq<char>) -> Seq<char> {
    match lookup_pairs(de_pairs(content), key) {
        Some(v) => v,
        None => Seq::empty(),
    }
}

/// A looked-up value, empty values counting as absent.
pub open spec fn de_optional(content: Seq<char>, key: Seq<char>) -> Option<Seq<char>> {
    match lookup_pairs(de_pairs(content), key) {
        Some(v) => if v.len() > 0 {
            Some(v)
        } else {
            None
        },
        None => None,
    }
}

/// The application a desktop-entry document describes, or nothing: an
/// entry whose `Type` is not `application` (case-insensitively), whose
/// `NoDisplay` or `Hidden` is `true`, or whose `Name` or `Exec` is missing
/// or empty, is rejected entirely.
pub open spec fn desktop_entry_spec(content: Seq<char>, path: Seq<char>) -> Option<AppView> {
    if lower_of(de_value(content, "Type"@)) != "application"@ {
        None
    } else if lower_of(de_value(content, "NoDisplay"@)) == "true"@ {
        None
    } else if lower_of(de_value(content, "Hidden"@)) == "true"@ {
        None
    } else if de_optional(content, "Name"@) is None {
        None
    } else if de_optional(content, "Exec"@) is None {
        None
    } else {
        Some(
            AppView {
                name: de_optional(content, "Name"@).unwrap(),
                exec_command: strip_field_codes_spec(de_optional(content, "Exec"@).unwrap()),
                source: AppSource::Desktop,
                location: path,
                icon: de_optional(content, "Icon"@),
                categories: categories_of(de_value(content, "Categories"@)),
                description: de_optional(content, "Comment"@),
            },
        )
    }
}

/// Desktop rejection: an entry whose `Type` is not `application`, or whose
/// `NoDisplay` or `Hidden` is `true`, or whose `Name` or `Exec` is missing
/// or empty, yields no application.
pub proof fn lemma_desktop_rejections(content: Seq<char>, path: Seq<char>)
    ensures
        lower_of(de_value(content, "Type"@)) != "application"@ ==> desktop_entry_spec(
            content,
            path,
        ) is None,
        lower_of(de_value(content, "NoDisplay"@)) == "true"@ ==> desktop_entry_spec(
            content,
            path,
        ) is None,
        lower_of(de_value(content, "Hidden"@)) == "true"@ ==> desktop_entry_spec(
            content,
            path,
        ) is None,
        de_optional(content, "Name"@) is None ==> desktop_entry_spec(content, path) is None,
        de_optional(content, "Exec"@) is None ==> desktop_entry_spec(content, path) is None,
{
}

/// The colon-separated data directories folded into the search list: each
/// non-empty entry contributes its `applications` subdirectory, already
/// listed directories skipped.
pub open spec fn data_dir_entries(parts: Seq<Seq<char>>, acc: Seq<Seq<char>>) -> Seq<Seq<char>>
    decreases parts.len(),
{
    if parts.len() == 0 {
        acc
    } else {
        let d = parts[0];
        if d.len() > 0 && !acc.contains(d + "/applications"@) {
            data_dir_entries(parts.drop_first(), acc.push(d + "/applications"@))
        } else {
            data_dir_entries(parts.drop_first(), acc)
        }
    }
}

/// The desktop-entry search list: the data home's `applications` directory
/// (defaulting to `.local/share/applications` under the home directory),
/// the two standard system directories, and each `applications`
/// subdirectory of the colon-separated data directories, deduplicated.
/// Paths are joined by plain `/` concatenation.
pub open spec fn app_dirs_spec(
    xdg_data_home: Option<Seq<char>>,
    home: Option<Seq<char>>,
    xdg_data_dirs: Option<Seq<char>>,
) -> Seq<Seq<char>> {
    let base: Seq<Seq<char>> = (match xdg_data_home {
        Some(h) => seq![h + "/applications"@],
        None => match home {
            Some(h) => seq![h + "/.local/share/applications"@],
            None => Seq::empty(),
        },
    }) + seq!["/usr/share/applications"@, "/usr/local/share/applications"@];
    match xdg_data_dirs {
        Some(dd) => data_dir_entries(split_char_spec(dd, ':'), base),
        None => base,
    }
}

/// Collect the XDG application directories from the environment's values.
pub fn app_dirs_from(
    xdg_data_home: Option<String>,
    home: Option<String>,
    xdg_data_dirs: Option<String>,
) -> (r: Vec<String>)
    ensures
        r.deep_view() == app_dirs_spec(
            xdg_data_home.deep_view(),
            home.deep_view(),
            xdg_data_dirs.deep_view(),
        ),
{
    let ghost spec_result = app_dirs_spec(
        xdg_data_home.deep_view(),
        home.deep_view(),
        xdg_data_dirs.deep_view(),
    );
    let mut dirs: Vec<String> = Vec::new();
    match &xdg_data_home {
        Some(h) => {
            let mut d = h.clone();
            d.append("/applications");
            dirs.push(d);
        },
        None => {
            match &home {
                Some(h) => {
                    let mut d = h.clone();
                    d.append("/.local/share/applications");
                    dirs.push(d);
                },
                None => {},
            }
        },
    }
    dirs.push(String::from_str("/usr/share/applications"));
    dirs.push(String::from_str("/usr/local/share/applications"));
    let ghost base = dirs.deep_view();
    match &xdg_data_dirs {
        Some(dd) => {
            let parts = split_char(dd.as_str(), ':');
            let ghost gparts = split_char_spec(dd@, ':');
            let n = parts.len();
            let mut i: usize = 0;
            proof {
                assert(base =~= (match xdg_data_home.deep_view() {
                    Some(h) => seq![h + "/applications"@],
                    None => match home.deep_view() {
                        Some(h) => seq![h + "/.local/share/applications"@],
                        None => Seq::<Seq<char>>::empty(),
                    },
                }) + seq!["/usr/share/applications"@, "/usr/local/share/applications"@]);
                assert(gparts.skip(0) =~= gparts);
            }
            while i < n
                invariant
                    gparts == split_char_spec(dd@, ':'),
                    parts.deep_view() == gparts,
                    gparts.len() == n,
                    n == parts.len(),
                    0 <= i <= n,
                    data_dir_entries(gparts.skip(i as int), dirs.deep_view()) == spec_result,
                decreases n - i,
            {
                let ghost old_dv = dirs.deep_view();
                proof {
                    assert(gparts.skip(i as int)[0] == gparts[i as int]);
                    assert(gparts.skip(i as int).drop_first() =~= gparts.skip(i + 1));
                }
                let p = parts[i].as_str();
                if p.unicode_len() > 0 {
                    let mut d = p.to_owned();
                    d.append("/applications");
                    if !crate::provider::str_vec_contains(&dirs, d.as_str()) {
                        proof {
                            assert(d@ == gparts[i as int] + "/applications"@);
                        }
                        dirs.push(d);
                        proof {
                            assert(dirs.deep_view() =~= old_dv.push(
                                gparts[i as int] + "/applications"@,
                            ));
                        }
                    }
                }
                i += 1;
            }
            proof {
                assert(gparts.skip(n as int) =~= Seq::<Seq<char>>::empty());
            }
        },
        None => {
            proof {
                assert(dirs.deep_view() =~= spec_result);
            }
        },
    }
    dirs
}

/// Desktop entries found in the XDG application directories.
pub struct DesktopProvider;

impl DesktopProvider {
    /// A fresh provider.
    pub fn new() -> (r: Self) {
        DesktopProvider
    }

    /// The label of this source.
    pub fn name(&self) -> (r: &'static str)
        ensures
            r@ == "desktop"@,
    {
        "desktop"
    }

    /// Reading local directories needs no external tool.
    pub fn is_available(&self) -> (r: bool)
        ensures
            r == true,
    {
        true
    }

    /// Parse desktop entry content into an application. `Ok(None)` means
    /// the entry is valid text but does not describe a displayable
    /// application; the parser itself accepts any text.
    pub fn parse_desktop_content(content: &str, path: &str) -> (r: Result<
        Option<Application>,
        crate::provider::ProviderError,
    >)
        ensures
            r is Ok,
            match r {
                Ok(Some(a)) => desktop_entry_spec(content@, path@) == Some(a@),
                Ok(None) => desktop_entry_spec(content@, path@) is None,
                Err(_) => false,
            },
    {
        let pairs = parse_desktop_pairs(content);
        let ty = match lookup_de(&pairs, "Type") {
            Some(v) => v,
            None => String::new(),
        };
        if !str_eq(lowercase(ty.as_str()).as_str(), "application") {
            return Ok(None);
        }
        let nd = match lookup_de(&pairs, "NoDisplay") {
            Some(v) => v,
            None => String::new(),
        };
        if str_eq(lowercase(nd.as_str()).as_str(), "true") {
            return Ok(None);
        }
        let hidden = match lookup_de(&pairs, "Hidden") {
            Some(v) => v,
            None => String::new(),
        };
        if str_eq(lowercase(hidden.as_str()).as_str(), "true") {
            return Ok(None);
        }
        let name = match lookup_de(&pairs, "Name") {
            Some(v) => {
                if v.as_str().unicode_len() == 0 {
                    return Ok(None);
                } else {
                    v
                }
            },
            None => {
                return Ok(None);
            },
        };
        let exec_raw = match lookup_de(&pairs, "Exec") {
            Some(v) => {
                if v.as_str().unicode_len() == 0 {
                    return Ok(None);
                } else {
                    v
                }
            },
            None => {
                return Ok(None);
            },
        };
        let exec_command = strip_field_codes(exec_raw.as_str());
        let icon = match lookup_de(&pairs, "Icon") {
            Some(v) => {
                if v.as_str().unicode_len() > 0 {
                    Some(v)
                } else {
                    None
                }
            },
            None => None,
        };
        let categories = match lookup_de(&pairs, "Categories") {
            Some(v) => split_categories(v.as_str()),
            None => {
                let r: Vec<String> = Vec::new();
                proof {
                    let e = Seq::<char>::empty();
                    assert(split_char_spec(e, ';') =~= seq![e]);
                    assert(trim_spec(e).len() == 0);
                    assert(seq![e].drop_first() =~= Seq::<Seq<char>>::empty());
                    assert(clean_tags(Seq::<Seq<char>>::empty()) =~= Seq::<Seq<char>>::empty());
                    assert(clean_tags(seq![e]) =~= Seq::<Seq<char>>::empty());
                    assert(r.deep_view() =~= categories_of(de_value(content@, "Categories"@)));
                }
                r
            },
        };
        let description = match lookup_de(&pairs, "Comment") {
            Some(v) => {
                if v.as_str().unicode_len() > 0 {
                    Some(v)
                } else {
                    None
                }
            },
            None => None,
        };
        let a = Application {
            name,
            exec_command,
            source: AppSource::Desktop,
            location: path.to_owned(),
            icon,
            categories,
            description,
        };
        proof {
            assert(a@ =~= desktop_entry_spec(content@, path@).unwrap());
        }
        Ok(Some(a))
    }
}

} // verus!
