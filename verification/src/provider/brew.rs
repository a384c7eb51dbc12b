//! Homebrew formulae, extracted from the JSON metadata that
//! `brew info --json=v2 --installed` prints.

use vstd::prelude::*;
use vstd::string::*;

use crate::app::{AppSource, AppView, Application};

verus! {

/// What serde_json finds as the length of the `key` array of the
/// top-level JSON object of `s`: zero when `s` does not parse to an
/// object holding an array there. A pure function of the text.
pub uninterp spec fn json_array_len_of(s: Seq<char>, key: Seq<char>) -> int;

/// Relies on serde_json's `from_str`, `Value::get` and `Value::as_array`:
/// the length of the `key` array of the top-level object, zero when the
/// text does not parse to such an object.
#[verifier::external_body]
fn json_array_len(s: &str, key: &str) -> (n: usize)
    ensures
        n as int == json_array_len_of(s@, key@),
{
    let v: serde_json::Value = match serde_json::from_str(s) { Ok(w) => w, Err(_) => return 0 };
    let arr = match v.get(key) { Some(a) => a, None => return 0 };
    match arr.as_array() { Some(x) => x.len(), None => 0 }
}

/// What serde_json finds at `s[key][i][field]`: the string value there,
/// or nothing when anything on the way is missing or not of the expected
/// shape. A pure function of the text.
pub uninterp spec fn json_array_str_field_of(
    s: Seq<char>,
    key: Seq<char>,
    i: int,
    field: Seq<char>,
) -> Option<Seq<char>>;

/// Relies on serde_json's `from_str`, `Value::get`, `Value::as_array` and
/// `Value::as_str`: the string at `s[key][i][field]`, if the document
/// parses and everything on the way has the expected shape.
#[verifier::external_body]
fn json_array_str_field(s: &str, key: &str, i: usize, field: &str) -> (r: Option<String>)
    ensures
        r.deep_view() == json_array_str_field_of(s@, key@, i as int, field@),
{
    let v: serde_json::Value = match serde_json::from_str(s) { Ok(w) => w, Err(_) => return None };
    let arr = match v.get(key) { Some(a) => a, None => return None };
    let items = match arr.as_array() { Some(x) => x, None => return None };
    let entry = match items.get(i) { Some(e) => e, None => return None };
    let f = match entry.get(field) { Some(f) => f, None => return None };
    match f.as_str() { Some(t) => Some(t.to_string()), None => None }
}

/// The formulae at positions `i` up to `n` of the `formulae` array: name
/// and optional description of each entry whose name is a non-empty
/// string.
pub open spec fn brew_rows_from(s: Seq<char>, i: int, n: int) -> Seq<(Seq<char>, Option<Seq<char>>)>
    decreases n - i,
{
    if !(0 <= i < n) {
        Seq::empty()
    } else {
        let name = json_array_str_field_of(s, "formulae"@, i, "name"@);
        let desc = json_array_str_field_of(s, "formulae"@, i, "desc"@);
        (if name is Some && name.unwrap().len() > 0 {
            seq![(name.unwrap(), desc)]
        } else {
            Seq::<(Seq<char>, Option<Seq<char>>)>::empty()
        }) + brew_rows_from(s, i + 1, n)
    }
}

/// The named formulae of a whole `brew info --json=v2` document.
pub open spec fn brew_rows_spec(s: Seq<char>) -> Seq<(Seq<char>, Option<Seq<char>>)> {
    brew_rows_from(s, 0, json_array_len_of(s, "formulae"@))
}

/// Homebrew formulae, listed by the `brew` tool.
pub struct BrewProvider;

impl BrewProvider {
    /// A fresh provider.
    pub fn new() -> (r: Self) {
        BrewProvider
    }

    /// The label of this source.
    pub fn name(&self) -> (r: &'static str)
        ensures
            r@ == "brew"@,
    {
        "brew"
    }

    /// Extract the installed formulae of a `brew info --json=v2` document:
    /// the name and optional description of each entry of its `formulae`
    /// array, entries without a non-empty name skipped. Unparseable text
    /// yields nothing.
    pub fn parse_brew_json(json_str: &str) -> (r: Vec<(String, Option<String>)>)
        ensures
            r.deep_view() == brew_rows_spec(json_str@),
    {
        let n = json_array_len(json_str, "formulae");
        let ghost gn = json_array_len_of(json_str@, "formulae"@);
        let mut rows: Vec<(String, Option<String>)> = Vec::new();
        let mut i: usize = 0;
        proof {
            assert(rows.deep_view() + brew_rows_from(json_str@, 0, gn) =~= brew_rows_from(
                json_str@,
                0,
                gn,
            ));
        }
        while i < n
            invariant
                n as int == gn,
                gn == json_array_len_of(json_str@, "formulae"@),
                0 <= i <= n,
                brew_rows_spec(json_str@) == rows.deep_view() + brew_rows_from(
                    json_str@,
                    i as int,
                    gn,
                ),
            decreases n - i,
        {
            let ghost old_dv = rows.deep_view();
            let name = json_array_str_field(json_str, "formulae", i, "name");
            let desc = json_array_str_field(json_str, "formulae", i, "desc");
            match name {
                Some(nm) => {
                    if nm.as_str().unicode_len() > 0 {
                        rows.push((nm, desc));
                        proof {
                            assert(rows.deep_view() =~= old_dv.push(
                                (
                                    json_array_str_field_of(
                                        json_str@,
                                        "formulae"@,
                                        i as int,
                                        "name"@,
                                    ).unwrap(),
                                    json_array_str_field_of(
                                        json_str@,
                                        "formulae"@,
                                        i as int,
                                        "desc"@,
                                    ),
                                ),
                            ));
                            assert(old_dv + (seq![
                                (
                                    json_array_str_field_of(
                                        json_str@,
                                        "formulae"@,
                                        i as int,
                                        "name"@,
                                    ).unwrap(),
                                    json_array_str_field_of(
                                        json_str@,
                                        "formulae"@,
                                        i as int,
                                        "desc"@,
                                    ),
                                ),
                            ] + brew_rows_from(json_str@, i + 1, gn)) =~= rows.deep_view()
                                + brew_rows_from(json_str@, i + 1, gn));
                        }
                    }
                },
                None => {},
            }
            i += 1;
        }
        rows
    }

    /// The description the formula rows give a formula, if any: the first
    /// row under that name.
    pub fn formula_desc(rows: &Vec<(String, Option<String>)>, name: &str) -> (r: Option<String>)
        ensures
            r.deep_view() == Self::formula_desc_spec(rows.deep_view(), name@),
    {
        let ghost gr = rows.deep_view();
        let n = rows.len();
        let mut i: usize = 0;
        while i < n
            invariant
                gr == rows.deep_view(),
                gr.len() == n,
                n == rows.len(),
                0 <= i <= n,
                forall|k: int| 0 <= k < i ==> (#[trigger] gr[k]).0 != name@,
            decreases n - i,
        {
            if crate::text::str_eq(rows[i].0.as_str(), name) {
                proof {
                    Self::lemma_formula_desc_at(gr, name@, i as int);
                }
                return crate::app::clone_opt_string(&rows[i].1);
            }
            i += 1;
        }
        proof {
            Self::lemma_formula_desc_at(gr, name@, n as int);
        }
        None
    }

    /// The description of the first row under `name`, if such a row exists.
    pub open spec fn formula_desc_spec(
        rows: Seq<(Seq<char>, Option<Seq<char>>)>,
        name: Seq<char>,
    ) -> Option<Seq<char>>
        decreases rows.len(),
    {
        if rows.len() == 0 {
            None
        } else if rows[0].0 == name {
            rows[0].1
        } else {
            Self::formula_desc_spec(rows.drop_first(), name)
        }
    }

    proof fn lemma_formula_desc_at(
        rows: Seq<(Seq<char>, Option<Seq<char>>)>,
        name: Seq<char>,
        i: int,
    )
        requires
            0 <= i <= rows.len(),
            forall|k: int| 0 <= k < i ==> (#[trigger] rows[k]).0 != name,
            i < rows.len() ==> rows[i].0 == name,
        ensures
            Self::formula_desc_spec(rows, name) == if i < rows.len() {
                rows[i].1
            } else {
                None
            },
        decreases i,
    {
        if i > 0 {
            Self::lemma_formula_desc_at(rows.drop_first(), name, i - 1);
        }
    }

    /// The application record of one installed formula whose binary
    /// stands in the brew bin directory.
    pub fn brew_app(name: &str, bin_path: String, description: Option<String>) -> (a: Application)
        ensures
            a@ == (AppView {
                name: name@,
                exec_command: bin_path@,
                source: AppSource::Brew,
                location: bin_path@,
                icon: None,
                categories: seq!["Homebrew"@],
                description: description.deep_view(),
            }),
    {
        let location = bin_path.clone();
        let categories = vec![String::from_str("Homebrew")];
        let a = Application {
            name: name.to_owned(),
            exec_command: bin_path,
            source: AppSource::Brew,
            location,
            icon: None,
            categories,
            description,
        };
        proof {
            assert(a.categories.deep_view() =~= seq!["Homebrew"@]);
            assert(a@ =~= (AppView {
                name: name@,
                exec_command: a.exec_command@,
                source: AppSource::Brew,
                location: a.exec_command@,
                icon: None,
                categories: seq!["Homebrew"@],
                description: description.deep_view(),
            }));
        }
        a
    }
}

} // verus!
