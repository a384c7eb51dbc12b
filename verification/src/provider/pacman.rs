//! Pacman packages, parsed from the `Name : value` / `Description : value`
//! line pairs that `pacman -Qi` prints, with binaries resolved through
//! `pacman -Ql` rows.

use vstd::prelude::*;
use vstd::string::*;

use crate::app::clone_opt_string;
use crate::text::{
    find_char, first_idx, has_prefix, has_prefix_spec, lines, lines_spec, trim, trim_spec,
};

verus! {

/// The rows the remaining info lines yield, given the package name and
/// description collected so far: a new `Name` line emits the pending
/// package, a `Description` line annotates it, and the last package is
/// emitted at the end.
pub open spec fn pacman_rec(
    ls: Seq<Seq<char>>,
    cur_name: Option<Seq<char>>,
    cur_desc: Option<Seq<char>>,
) -> Seq<(Seq<char>, Option<Seq<char>>)>
    decreases ls.len(),
{
    if ls.len() == 0 {
        match cur_name {
            Some(nm) => seq![(nm, cur_desc)],
            None => Seq::<(Seq<char>, Option<Seq<char>>)>::empty(),
        }
    } else {
        let l = ls[0];
        if has_prefix_spec(l, "Name            : "@) {
            let nm = trim_spec(l.subrange("Name            : "@.len() as int, l.len() as int));
            (match cur_name {
                Some(p) => seq![(p, cur_desc)],
                None => Seq::<(Seq<char>, Option<Seq<char>>)>::empty(),
            }) + pacman_rec(ls.drop_first(), Some(nm), None)
        } else if has_prefix_spec(l, "Description     : "@) {
            let d = trim_spec(
                l.subrange("Description     : "@.len() as int, l.len() as int),
            );
            pacman_rec(ls.drop_first(), cur_name, Some(d))
        } else {
            pacman_rec(ls.drop_first(), cur_name, cur_desc)
        }
    }
}

/// All packages a `pacman -Qi` output describes.
pub open spec fn pacman_rows_spec(out: Seq<char>) -> Seq<(Seq<char>, Option<Seq<char>>)> {
    pacman_rec(lines_spec(out), None, None)
}

/// The binary path one `pacman -Ql` row names, if any: the part after the
/// first space, when it lies under `/usr/bin` or `/usr/local/bin`.
pub open spec fn pacman_candidate_of_line(line: Seq<char>) -> Option<Seq<char>> {
    let j = first_idx(line, ' ');
    if 0 <= j < line.len() {
        let p = trim_spec(line.subrange(j + 1, line.len() as int));
        if has_prefix_spec(p, "/usr/bin/"@) || has_prefix_spec(p, "/usr/local/bin/"@) {
            Some(p)
        } else {
            None
        }
    } else {
        None
    }
}

/// The candidate binary paths of the given rows, in order.
pub open spec fn pacman_candidates_of_lines(ls: Seq<Seq<char>>) -> Seq<Seq<char>>
    decreases ls.len(),
{
    if ls.len() == 0 {
        Seq::empty()
    } else {
        (match pacman_candidate_of_line(ls[0]) {
            Some(p) => seq![p],
            None => Seq::<Seq<char>>::empty(),
        }) + pacman_candidates_of_lines(ls.drop_first())
    }
}

/// The candidate binary paths of a whole `pacman -Ql` output.
pub open spec fn pacman_candidates_spec(out: Seq<char>) -> Seq<Seq<char>> {
    pacman_candidates_of_lines(lines_spec(out))
}

/// Pacman packages, listed by the `pacman` tool.
pub struct PacmanProvider;

impl PacmanProvider {
    /// A fresh provider.
    pub fn new() -> (r: Self) {
        PacmanProvider
    }

    /// The label of this source.
    pub fn name(&self) -> (r: &'static str)
        ensures
            r@ == "pacman"@,
    {
        "pacman"
    }

    /// Parse `pacman -Qi` info blocks into package names and descriptions.
    pub fn parse_pacman_info(output: &str) -> (r: Vec<(String, Option<String>)>)
        ensures
            r.deep_view() == pacman_rows_spec(output@),
    {
        let ls = lines(output);
        let ghost gls = lines_spec(output@);
        let n = ls.len();
        let mut rows: Vec<(String, Option<String>)> = Vec::new();
        let mut cur_name: Option<String> = None;
        let mut cur_desc: Option<String> = None;
        let mut i: usize = 0;
        proof {
            assert(gls.skip(0) =~= gls);
            assert(rows.deep_view() + pacman_rec(gls, None, None) =~= pacman_rec(gls, None, None));
        }
        while i < n
            invariant
                gls == lines_spec(output@),
                ls.deep_view() == gls,
                gls.len() == n,
                n == ls.len(),
                0 <= i <= n,
                pacman_rows_spec(output@) == rows.deep_view() + pacman_rec(
                    gls.skip(i as int),
                    cur_name.deep_view(),
                    cur_desc.deep_view(),
                ),
            decreases n - i,
        {
            let ghost old_rows = rows.deep_view();
            let ghost old_cn = cur_name.deep_view();
            let ghost old_cd = cur_desc.deep_view();
            let ghost lv = gls[i as int];
            proof {
                assert(gls.skip(i as int)[0] == gls[i as int]);
                assert(gls.skip(i as int).drop_first() =~= gls.skip(i + 1));
            }
            let l = ls[i].as_str();
            let ln = l.unicode_len();
            if has_prefix(l, "Name            : ") {
                let m = "Name            : ".unicode_len();
                let nm = trim(l.substring_char(m, ln)).to_owned();
                match &cur_name {
                    Some(p) => {
                        rows.push((p.clone(), clone_opt_string(&cur_desc)));
                        proof {
                            assert(rows.deep_view() =~= old_rows.push(
                                (old_cn.unwrap(), old_cd),
                            ));
                            assert(old_rows + (seq![(old_cn.unwrap(), old_cd)] + pacman_rec(
                                gls.skip(i + 1),
                                Some(trim_spec(lv.subrange(
                                    "Name            : "@.len() as int,
                                    lv.len() as int,
                                ))),
                                None,
                            )) =~= rows.deep_view() + pacman_rec(
                                gls.skip(i + 1),
                                Some(trim_spec(lv.subrange(
                                    "Name            : "@.len() as int,
                                    lv.len() as int,
                                ))),
                                None,
                            ));
                        }
                    },
                    None => {
                        proof {
                            assert(old_rows + (Seq::<(Seq<char>, Option<Seq<char>>)>::empty()
                                + pacman_rec(
                                gls.skip(i + 1),
                                Some(trim_spec(lv.subrange(
                                    "Name            : "@.len() as int,
                                    lv.len() as int,
                                ))),
                                None,
                            )) =~= old_rows + pacman_rec(
                                gls.skip(i + 1),
                                Some(trim_spec(lv.subrange(
                                    "Name            : "@.len() as int,
                                    lv.len() as int,
                                ))),
                                None,
                            ));
                        }
                    },
                }
                cur_name = Some(nm);
                cur_desc = None;
            } else if has_prefix(l, "Description     : ") {
                let m = "Description     : ".unicode_len();
                let d = trim(l.substring_char(m, ln)).to_owned();
                cur_desc = Some(d);
            }
            i += 1;
        }
        proof {
            assert(gls.skip(n as int) =~= Seq::<Seq<char>>::empty());
        }
        let ghost old_rows = rows.deep_view();
        let ghost gcn = cur_name.deep_view();
        let ghost gcd = cur_desc.deep_view();
        match cur_name {
            Some(p) => {
                rows.push((p, cur_desc));
                proof {
                    assert(rows.deep_view() =~= old_rows.push((gcn.unwrap(), gcd)));
                    assert(old_rows + seq![(gcn.unwrap(), gcd)] =~= rows.deep_view());
                }
            },
            None => {
                proof {
                    assert(old_rows + Seq::<(Seq<char>, Option<Seq<char>>)>::empty()
                        =~= old_rows);
                }
            },
        }
        rows
    }

    /// The candidate binary paths a `pacman -Ql` output names; the shell
    /// picks the first that exists as a regular file.
    pub fn pacman_candidates(output: &str) -> (r: Vec<String>)
        ensures
            r.deep_view() == pacman_candidates_spec(output@),
    {
        let ls = lines(output);
        let ghost gls = lines_spec(output@);
        let n = ls.len();
        let mut out: Vec<String> = Vec::new();
        let mut i: usize = 0;
        proof {
            assert(gls.skip(0) =~= gls);
            assert(out.deep_view() + pacman_candidates_of_lines(gls) =~= pacman_candidates_of_lines(
                gls,
            ));
        }
        while i < n
            invariant
                gls == lines_spec(output@),
                ls.deep_view() == gls,
                gls.len() == n,
                n == ls.len(),
                0 <= i <= n,
                pacman_candidates_of_lines(gls) == out.deep_view() + pacman_candidates_of_lines(
                    gls.skip(i as int),
                ),
            decreases n - i,
        {
            let ghost old_dv = out.deep_view();
            let l = ls[i].as_str();
            let ln = l.unicode_len();
            match find_char(l, ' ', 0) {
                Some(j) => {
                    proof {
                        assert(l@.subrange(0, ln as int) =~= l@);
                    }
                    let p = trim(l.substring_char(j + 1, ln));
                    if has_prefix(p, "/usr/bin/") || has_prefix(p, "/usr/local/bin/") {
                        out.push(p.to_owned());
                        proof {
                            assert(out.deep_view() =~= old_dv.push(
                                pacman_candidate_of_line(gls[i as int]).unwrap(),
                            ));
                        }
                    }
                },
                None => {
                    proof {
                        assert(l@.subrange(0, ln as int) =~= l@);
                    }
                },
            }
            proof {
                assert(gls.skip(i as int)[0] == gls[i as int]);
                assert(gls.skip(i as int).drop_first() =~= gls.skip(i + 1));
                match pacman_candidate_of_line(gls[i as int]) {
                    Some(p) => {
                        assert(old_dv + (seq![p] + pacman_candidates_of_lines(gls.skip(i + 1)))
                            =~= old_dv.push(p) + pacman_candidates_of_lines(gls.skip(i + 1)));
                    },
                    None => {
                        assert(old_dv + (Seq::<Seq<char>>::empty() + pacman_candidates_of_lines(
                            gls.skip(i + 1),
                        )) =~= old_dv + pacman_candidates_of_lines(gls.skip(i + 1)));
                    },
                }
            }
            i += 1;
        }
        proof {
            assert(gls.skip(n as int) =~= Seq::<Seq<char>>::empty());
            assert(out.deep_view() + pacman_candidates_of_lines(gls.skip(n as int))
                =~= out.deep_view());
        }
        out
    }
}

} // verus!
