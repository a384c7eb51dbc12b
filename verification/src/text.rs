//! Character and string utilities shared by the providers and the engine.
//!
//! Every executable function here is specified against a spec function over
//! `Seq<char>`; the parsers' contracts are composed from those spec functions.

use vstd::prelude::*;
use vstd::string::*;

verus! {

/// A character with the Unicode `White_Space` property.
pub open spec fn is_space_char(c: char) -> bool {
    let u = c as u32;
    u == 0x09 || u == 0x0a || u == 0x0b || u == 0x0c || u == 0x0d || u == 0x20 || u == 0x85
        || u == 0xa0 || u == 0x1680 || (0x2000 <= u && u <= 0x200a) || u == 0x2028 || u == 0x2029
        || u == 0x202f || u == 0x205f || u == 0x3000
}

/// Executable test for [`is_space_char`].
pub fn is_space(c: char) -> (b: bool)
    ensures
        b == is_space_char(c),
{
    let u = c as u32;
    u == 0x09 || u == 0x0a || u == 0x0b || u == 0x0c || u == 0x0d || u == 0x20 || u == 0x85
        || u == 0xa0 || u == 0x1680 || (0x2000 <= u && u <= 0x200a) || u == 0x2028 || u == 0x2029
        || u == 0x202f || u == 0x205f || u == 0x3000
}

/// The input without its leading whitespace.
pub open spec fn trim_start_spec(s: Seq<char>) -> Seq<char>
    decreases s.len(),
{
    if s.len() > 0 && is_space_char(s[0]) {
        trim_start_spec(s.drop_first())
    } else {
        s
    }
}

/// The input without its trailing whitespace.
pub open spec fn trim_end_spec(s: Seq<char>) -> Seq<char>
    decreases s.len(),
{
    if s.len() > 0 && is_space_char(s[s.len() - 1]) {
        trim_end_spec(s.drop_last())
    } else {
        s
    }
}

/// The input without leading or trailing whitespace.
pub open spec fn trim_spec(s: Seq<char>) -> Seq<char> {
    trim_end_spec(trim_start_spec(s))
}

proof fn lemma_trim_start_at(s: Seq<char>, i: int)
    requires
        0 <= i <= s.len(),
        forall|k: int| 0 <= k < i ==> is_space_char(s[k]),
        i < s.len() ==> !is_space_char(s[i]),
    ensures
        trim_start_spec(s) == s.subrange(i, s.len() as int),
    decreases i,
{
    if i == 0 {
        assert(s.subrange(0, s.len() as int) =~= s);
    } else {
        lemma_trim_start_at(s.drop_first(), i - 1);
        assert(s.drop_first().subrange(i - 1, s.drop_first().len() as int) =~= s.subrange(
            i,
            s.len() as int,
        ));
    }
}

proof fn lemma_trim_end_at(s: Seq<char>, j: int)
    requires
        0 <= j <= s.len(),
        forall|k: int| j <= k < s.len() ==> is_space_char(s[k]),
        j > 0 ==> !is_space_char(s[j - 1]),
    ensures
        trim_end_spec(s) == s.subrange(0, j),
    decreases s.len() - j,
{
    if j == s.len() {
        assert(s.subrange(0, s.len() as int) =~= s);
    } else {
        lemma_trim_end_at(s.drop_last(), j);
        assert(s.drop_last().subrange(0, j) =~= s.subrange(0, j));
    }
}

/// The input without leading or trailing whitespace, as `str::trim` gives it.
pub fn trim(s: &str) -> (r: &str)
    ensures
        r@ == trim_spec(s@),
{
    let n = s.unicode_len();
    let mut i: usize = 0;
    while i < n && is_space(s.get_char(i))
        invariant
            n == s@.len(),
            0 <= i <= n,
            forall|k: int| 0 <= k < i ==> is_space_char(s@[k]),
        decreases n - i,
    {
        i += 1;
    }
    let mut j: usize = n;
    while j > i && is_space(s.get_char(j - 1))
        invariant
            n == s@.len(),
            0 <= i <= j <= n,
            forall|k: int| 0 <= k < i ==> is_space_char(s@[k]),
            forall|k: int| j <= k < n ==> is_space_char(s@[k]),
        decreases j,
    {
        j -= 1;
    }
    proof {
        lemma_trim_start_at(s@, i as int);
        let t = s@.subrange(i as int, n as int);
        lemma_trim_end_at(t, j - i);
        assert(t.subrange(0, j - i) =~= s@.subrange(i as int, j as int));
    }
    s.substring_char(i, j)
}

/// Character-for-character equality of two string slices.
pub fn str_eq(a: &str, b: &str) -> (r: bool)
    ensures
        r == (a@ == b@),
{
    let x = a.to_owned();
    let y = b.to_owned();
    x == y
}

/// What `str::to_lowercase` returns; the Unicode case folding is not restated.
pub uninterp spec fn lower_of(s: Seq<char>) -> Seq<char>;

/// Relies on str::to_lowercase: the result depends on the characters alone.
#[verifier::external_body]
pub(crate) fn lowercase(s: &str) -> (r: String)
    ensures
        r@ == lower_of(s@),
        s@.len() == 0 ==> r@.len() == 0,
{
    s.to_lowercase()
}

/// Relies on String::push: appends exactly one character.
#[verifier::external_body]
pub(crate) fn push_char(s: &mut String, c: char)
    ensures
        final(s)@ == old(s)@.push(c),
{
    s.push(c);
}

/// Index of the first occurrence of `c`, or `-1` if `c` does not occur.
pub open spec fn first_idx(s: Seq<char>, c: char) -> int
    decreases s.len(),
{
    if s.len() == 0 {
        -1
    } else if s[0] == c {
        0
    } else {
        let r = first_idx(s.drop_first(), c);
        if r < 0 {
            -1
        } else {
            r + 1
        }
    }
}

pub proof fn lemma_first_idx(s: Seq<char>, c: char)
    ensures
        first_idx(s, c) >= 0 ==> 0 <= first_idx(s, c) < s.len() && s[first_idx(s, c)] == c
            && forall|k: int| 0 <= k < first_idx(s, c) ==> s[k] != c,
        first_idx(s, c) < 0 ==> forall|k: int| 0 <= k < s.len() ==> s[k] != c,
    decreases s.len(),
{
    if s.len() > 0 && s[0] != c {
        lemma_first_idx(s.drop_first(), c);
        let r = first_idx(s.drop_first(), c);
        if r >= 0 {
            assert forall|k: int| 0 <= k < r + 1 implies s[k] != c by {
                if k > 0 {
                    assert(s.drop_first()[k - 1] != c);
                }
            }
        } else {
            assert forall|k: int| 0 <= k < s.len() implies s[k] != c by {
                if k > 0 {
                    assert(s.drop_first()[k - 1] != c);
                }
            }
        }
    }
}

proof fn lemma_first_idx_at(s: Seq<char>, c: char, i: int)
    requires
        0 <= i <= s.len(),
        forall|k: int| 0 <= k < i ==> s[k] != c,
        i < s.len() ==> s[i] == c,
    ensures
        first_idx(s, c) == if i < s.len() {
            i
        } else {
            -1
        },
    decreases i,
{
    if i == 0 {
        if s.len() > 0 && s[0] != c {
            lemma_first_idx(s.drop_first(), c);
        }
    } else {
        lemma_first_idx_at(s.drop_first(), c, i - 1);
    }
}

/// Index of the first occurrence of `c` at or after `from`, if any.
pub fn find_char(s: &str, c: char, from: usize) -> (r: Option<usize>)
    requires
        from <= s@.len(),
    ensures
        match r {
            Some(i) => from <= i < s@.len() && first_idx(s@.subrange(from as int, s@.len() as int), c)
                == i - from,
            None => first_idx(s@.subrange(from as int, s@.len() as int), c) < 0,
        },
{
    let n = s.unicode_len();
    let mut i: usize = from;
    while i < n && s.get_char(i) != c
        invariant
            n == s@.len(),
            from <= i <= n,
            forall|k: int| from <= k < i ==> s@[k] != c,
        decreases n - i,
    {
        i += 1;
    }
    proof {
        let t = s@.subrange(from as int, n as int);
        lemma_first_idx_at(t, c, i - from);
    }
    if i < n {
        Some(i)
    } else {
        None
    }
}

/// Index of the last occurrence of `c`, or `-1` if `c` does not occur.
pub open spec fn last_idx(s: Seq<char>, c: char) -> int
    decreases s.len(),
{
    if s.len() == 0 {
        -1
    } else if s[s.len() - 1] == c {
        s.len() - 1
    } else {
        last_idx(s.drop_last(), c)
    }
}

proof fn lemma_last_idx_at(s: Seq<char>, c: char, i: int)
    requires
        -1 <= i < s.len(),
        forall|k: int| i < k < s.len() ==> s[k] != c,
        i >= 0 ==> s[i] == c,
    ensures
        last_idx(s, c) == i,
    decreases s.len(),
{
    if s.len() > 0 && s[s.len() - 1] != c {
        lemma_last_idx_at(s.drop_last(), c, i);
    }
}

/// Index of the last occurrence of `c` in `s`, if any.
pub fn rfind_char(s: &str, c: char) -> (r: Option<usize>)
    ensures
        match r {
            Some(i) => i < s@.len() && last_idx(s@, c) == i,
            None => last_idx(s@, c) < 0,
        },
{
    let n = s.unicode_len();
    let mut j: usize = n;
    while j > 0 && s.get_char(j - 1) != c
        invariant
            n == s@.len(),
            0 <= j <= n,
            forall|k: int| j <= k < n ==> s@[k] != c,
        decreases j,
    {
        j -= 1;
    }
    if j > 0 {
        proof {
            lemma_last_idx_at(s@, c, j - 1);
        }
        Some(j - 1)
    } else {
        proof {
            lemma_last_idx_at(s@, c, -1);
        }
        None
    }
}

/// The pieces of `s` between occurrences of `c`, as `str::split` gives them:
/// an empty input yields one empty piece.
pub open spec fn split_char_spec(s: Seq<char>, c: char) -> Seq<Seq<char>>
    decreases s.len(),
{
    let j = first_idx(s, c);
    if j < 0 || j >= s.len() {
        seq![s]
    } else {
        seq![s.subrange(0, j)] + split_char_spec(s.subrange(j + 1, s.len() as int), c)
    }
}

/// Split `s` at every occurrence of `c`, keeping empty pieces.
pub fn split_char(s: &str, c: char) -> (r: Vec<String>)
    ensures
        r.deep_view() == split_char_spec(s@, c),
{
    let n = s.unicode_len();
    let mut parts: Vec<String> = Vec::new();
    let mut start: usize = 0;
    proof {
        assert(s@.subrange(0, n as int) =~= s@);
        assert(parts.deep_view() + split_char_spec(s@, c) =~= split_char_spec(s@, c));
    }
    loop
        invariant
            n == s@.len(),
            0 <= start <= n,
            split_char_spec(s@, c) == parts.deep_view() + split_char_spec(
                s@.subrange(start as int, n as int),
                c,
            ),
        decreases n - start,
    {
        match find_char(s, c, start) {
            Some(i) => {
                let piece = s.substring_char(start, i).to_owned();
                proof {
                    let t = s@.subrange(start as int, n as int);
                    assert(t.subrange(0, i - start) =~= s@.subrange(start as int, i as int));
                    assert(t.subrange(i - start + 1, t.len() as int) =~= s@.subrange(
                        i + 1,
                        n as int,
                    ));
                }
                let ghost old_parts = parts.deep_view();
                parts.push(piece);
                proof {
                    assert(parts.deep_view() =~= old_parts + seq![s@.subrange(
                        start as int,
                        i as int,
                    )]);
                }
                start = i + 1;
            },
            None => {
                let piece = s.substring_char(start, n).to_owned();
                let ghost old_parts = parts.deep_view();
                parts.push(piece);
                proof {
                    let t = s@.subrange(start as int, n as int);
                    assert(split_char_spec(t, c) =~= seq![t]);
                    assert(parts.deep_view() =~= old_parts + seq![t]);
                }
                return parts;
            },
        }
    }
}

/// A line with one trailing carriage return removed, as `str::lines` does.
pub open spec fn strip_cr(s: Seq<char>) -> Seq<char> {
    if s.len() > 0 && s[s.len() - 1] == '\r' {
        s.drop_last()
    } else {
        s
    }
}

/// The lines of `s`, as `str::lines` gives them: split at `'\n'`, one
/// trailing `'\r'` per line removed, and no empty final line.
pub open spec fn lines_spec(s: Seq<char>) -> Seq<Seq<char>>
    decreases s.len(),
{
    if s.len() == 0 {
        Seq::empty()
    } else {
        let j = first_idx(s, '\n');
        if j < 0 || j >= s.len() {
            seq![strip_cr(s)]
        } else {
            seq![strip_cr(s.subrange(0, j))] + lines_spec(s.subrange(j + 1, s.len() as int))
        }
    }
}

/// The lines of `s`, as `str::lines` gives them.
pub fn lines(s: &str) -> (r: Vec<String>)
    ensures
        r.deep_view() == lines_spec(s@),
{
    let n = s.unicode_len();
    let mut parts: Vec<String> = Vec::new();
    let mut start: usize = 0;
    proof {
        assert(s@.subrange(0, n as int) =~= s@);
        assert(parts.deep_view() + lines_spec(s@) =~= lines_spec(s@));
    }
    loop
        invariant
            n == s@.len(),
            0 <= start <= n,
            lines_spec(s@) == parts.deep_view() + lines_spec(s@.subrange(start as int, n as int)),
        decreases n - start,
    {
        if start == n {
            proof {
                assert(parts.deep_view() + lines_spec(s@.subrange(start as int, n as int))
                    =~= parts.deep_view());
            }
            return parts;
        }
        let (end, next) = match find_char(s, '\n', start) {
            Some(i) => (i, i + 1),
            None => (n, n),
        };
        let line_end = if end > start && s.get_char(end - 1) == '\r' {
            end - 1
        } else {
            end
        };
        let piece = s.substring_char(start, line_end).to_owned();
        let ghost old_parts = parts.deep_view();
        parts.push(piece);
        proof {
            let t = s@.subrange(start as int, n as int);
            assert(t.subrange(0, end - start) =~= s@.subrange(start as int, end as int));
            assert(strip_cr(s@.subrange(start as int, end as int)) =~= s@.subrange(
                start as int,
                line_end as int,
            ));
            if end < n {
                assert(t.subrange(end - start + 1, t.len() as int) =~= s@.subrange(
                    next as int,
                    n as int,
                ));
            }
            assert(parts.deep_view() =~= old_parts + seq![s@.subrange(
                start as int,
                line_end as int,
            )]);
            if end == n {
                assert(lines_spec(s@.subrange(n as int, n as int)) =~= Seq::<Seq<char>>::empty());
            }
        }
        start = next;
    }
}

/// Length of the maximal whitespace-free prefix of `s`.
pub open spec fn first_space(s: Seq<char>) -> int
    decreases s.len(),
{
    if s.len() == 0 {
        0
    } else if is_space_char(s[0]) {
        0
    } else {
        1 + first_space(s.drop_first())
    }
}

proof fn lemma_first_space_at(s: Seq<char>, i: int)
    requires
        0 <= i <= s.len(),
        forall|k: int| 0 <= k < i ==> !is_space_char(s[k]),
        i < s.len() ==> is_space_char(s[i]),
    ensures
        first_space(s) == i,
    decreases i,
{
    if i > 0 {
        lemma_first_space_at(s.drop_first(), i - 1);
    }
}

/// The whitespace-delimited tokens of `s`, as `str::split_whitespace`
/// gives them: maximal runs of non-whitespace characters.
pub open spec fn tokens_spec(s: Seq<char>) -> Seq<Seq<char>>
    decreases s.len(),
{
    if s.len() == 0 {
        Seq::empty()
    } else if is_space_char(s[0]) {
        tokens_spec(s.drop_first())
    } else {
        let e = first_space(s);
        if 1 <= e <= s.len() {
            seq![s.subrange(0, e)] + tokens_spec(s.subrange(e, s.len() as int))
        } else {
            seq![s]
        }
    }
}

/// The whitespace-delimited tokens of `s`.
pub fn tokens(s: &str) -> (r: Vec<String>)
    ensures
        r.deep_view() == tokens_spec(s@),
{
    let n = s.unicode_len();
    let mut parts: Vec<String> = Vec::new();
    let mut i: usize = 0;
    proof {
        assert(s@.subrange(0, n as int) =~= s@);
        assert(parts.deep_view() + tokens_spec(s@) =~= tokens_spec(s@));
    }
    while i < n
        invariant
            n == s@.len(),
            0 <= i <= n,
            tokens_spec(s@) == parts.deep_view() + tokens_spec(s@.subrange(i as int, n as int)),
        decreases n - i,
    {
        if is_space(s.get_char(i)) {
            proof {
                let t = s@.subrange(i as int, n as int);
                assert(t.drop_first() =~= s@.subrange(i + 1, n as int));
            }
            i += 1;
        } else {
            let mut j: usize = i + 1;
            while j < n && !is_space(s.get_char(j))
                invariant
                    n == s@.len(),
                    i < j <= n,
                    forall|k: int| i <= k < j ==> !is_space_char(s@[k]),
                    !is_space_char(s@[i as int]),
                decreases n - j,
            {
                j += 1;
            }
            let piece = s.substring_char(i, j).to_owned();
            let ghost old_parts = parts.deep_view();
            parts.push(piece);
            proof {
                let t = s@.subrange(i as int, n as int);
                assert forall|k: int| 0 <= k < j - i implies !is_space_char(t[k]) by {
                    assert(t[k] == s@[i + k]);
                }
                if j < n {
                    assert(t[j - i] == s@[j as int]);
                }
                lemma_first_space_at(t, j - i);
                assert(t.subrange(0, j - i) =~= s@.subrange(i as int, j as int));
                assert(t.subrange(j - i, t.len() as int) =~= s@.subrange(j as int, n as int));
                assert(parts.deep_view() =~= old_parts + seq![s@.subrange(i as int, j as int)]);
            }
            i = j;
        }
    }
    proof {
        assert(parts.deep_view() + tokens_spec(s@.subrange(n as int, n as int))
            =~= parts.deep_view());
    }
    parts
}

/// Whether `p` is a prefix of `s`.
pub open spec fn has_prefix_spec(s: Seq<char>, p: Seq<char>) -> bool {
    s.len() >= p.len() && s.subrange(0, p.len() as int) == p
}

/// Whether `p` is a suffix of `s`.
pub open spec fn has_suffix_spec(s: Seq<char>, p: Seq<char>) -> bool {
    s.len() >= p.len() && s.subrange(s.len() - p.len(), s.len() as int) == p
}

/// Whether `s` starts with `p`.
pub fn has_prefix(s: &str, p: &str) -> (r: bool)
    ensures
        r == has_prefix_spec(s@, p@),
{
    let n = s.unicode_len();
    let m = p.unicode_len();
    if m > n {
        return false;
    }
    str_eq(s.substring_char(0, m), p)
}

/// Whether `s` ends with `p`.
pub fn has_suffix(s: &str, p: &str) -> (r: bool)
    ensures
        r == has_suffix_spec(s@, p@),
{
    let n = s.unicode_len();
    let m = p.unicode_len();
    if m > n {
        return false;
    }
    str_eq(s.substring_char(n - m, n), p)
}

/// Whether `p` occurs in `s` as a contiguous substring.
pub open spec fn contains_spec(s: Seq<char>, p: Seq<char>) -> bool {
    exists|i: int|
        0 <= i <= s.len() - p.len() && #[trigger] s.subrange(i, i + p.len() as int) == p
}

/// Whether `s` contains `p`, as `str::contains` decides it for a
/// non-empty needle.
pub fn contains_sub(s: &str, p: &str) -> (r: bool)
    requires
        p@.len() > 0,
    ensures
        r == contains_spec(s@, p@),
{
    let n = s.unicode_len();
    let m = p.unicode_len();
    if m > n {
        return false;
    }
    let mut i: usize = 0;
    while i <= n - m
        invariant
            n == s@.len(),
            m == p@.len(),
            0 < m <= n,
            0 <= i <= n - m + 1,
            forall|k: int| 0 <= k < i ==> #[trigger] s@.subrange(k, k + m as int) != p@,
        decreases n - i,
    {
        if str_eq(s.substring_char(i, i + m), p) {
            return true;
        }
        i += 1;
    }
    false
}

/// `s` with every occurrence of `pat` removed, scanning left to right and
/// not rescanning, as `str::replace(pat, "")` behaves.
pub open spec fn remove_all_spec(s: Seq<char>, pat: Seq<char>) -> Seq<char>
    decreases s.len(),
{
    if pat.len() == 0 || s.len() < pat.len() {
        s
    } else if s.subrange(0, pat.len() as int) == pat {
        remove_all_spec(s.subrange(pat.len() as int, s.len() as int), pat)
    } else {
        seq![s[0]] + remove_all_spec(s.drop_first(), pat)
    }
}

/// Remove every occurrence of `pat` from `s`.
pub fn remove_all(s: &str, pat: &str) -> (r: String)
    requires
        pat@.len() > 0,
    ensures
        r@ == remove_all_spec(s@, pat@),
{
    let n = s.unicode_len();
    let m = pat.unicode_len();
    let mut out = String::new();
    let mut i: usize = 0;
    proof {
        assert(s@.subrange(0, n as int) =~= s@);
        assert(out@ + remove_all_spec(s@, pat@) =~= remove_all_spec(s@, pat@));
    }
    while i < n
        invariant
            n == s@.len(),
            m == pat@.len(),
            m > 0,
            0 <= i <= n,
            remove_all_spec(s@, pat@) == out@ + remove_all_spec(
                s@.subrange(i as int, n as int),
                pat@,
            ),
        decreases n - i,
    {
        let ghost t = s@.subrange(i as int, n as int);
        if m <= n && i <= n - m && str_eq(s.substring_char(i, i + m), pat) {
            proof {
                assert(t.subrange(0, m as int) =~= s@.subrange(i as int, i + m as int));
                assert(t.subrange(m as int, t.len() as int) =~= s@.subrange(
                    i + m as int,
                    n as int,
                ));
            }
            i += m;
        } else {
            let c = s.get_char(i);
            let ghost old_out = out@;
            push_char(&mut out, c);
            proof {
                if i + m <= n {
                    assert(t.subrange(0, m as int) =~= s@.subrange(i as int, i + m as int));
                }
                assert(t.drop_first() =~= s@.subrange(i + 1, n as int));
                assert(out@ =~= old_out + seq![s@[i as int]]);
                assert(old_out + (seq![s@[i as int]] + remove_all_spec(
                    s@.subrange(i + 1, n as int),
                    pat@,
                )) =~= out@ + remove_all_spec(s@.subrange(i + 1, n as int), pat@));
            }
            i += 1;
        }
    }
    proof {
        assert(out@ + remove_all_spec(s@.subrange(n as int, n as int), pat@) =~= out@);
    }
    out
}

/// The pieces joined with `sep` between consecutive pieces.
pub open spec fn join_spec(parts: Seq<Seq<char>>, sep: Seq<char>) -> Seq<char>
    decreases parts.len(),
{
    if parts.len() == 0 {
        Seq::empty()
    } else if parts.len() == 1 {
        parts[0]
    } else {
        parts[0] + sep + join_spec(parts.drop_first(), sep)
    }
}

/// The head of a non-empty join, with the rest of the pieces each
/// preceded by the separator.
proof fn lemma_join_head(parts: Seq<Seq<char>>, sep: Seq<char>)
    requires
        parts.len() >= 1,
    ensures
        join_spec(parts, sep) == parts[0] + join_sep_rest(parts.drop_first(), sep),
    decreases parts.len(),
{
    if parts.len() == 1 {
        assert(parts[0] + join_sep_rest(parts.drop_first(), sep) =~= parts[0]);
    } else {
        let q = parts.drop_first();
        lemma_join_head(q, sep);
        assert(parts[0] + sep + (q[0] + join_sep_rest(q.drop_first(), sep)) =~= parts[0] + (sep
            + q[0] + join_sep_rest(q.drop_first(), sep)));
    }
}

/// Join the pieces with `sep`, as `[String]::join` does.
pub fn join_with(parts: &Vec<String>, sep: &str) -> (r: String)
    ensures
        r@ == join_spec(parts.deep_view(), sep@),
{
    let mut out = String::new();
    let n = parts.len();
    if n == 0 {
        return out;
    }
    out.append(parts[0].as_str());
    let mut i: usize = 1;
    proof {
        assert(parts.deep_view().len() == n);
        lemma_join_head(parts.deep_view(), sep@);
        assert(parts.deep_view().drop_first() =~= parts.deep_view().subrange(1, n as int));
        assert(parts.deep_view()[0] == parts@[0]@);
    }
    while i < n
        invariant
            n == parts.len(),
            n == parts.deep_view().len(),
            1 <= i <= n,
            forall|k: int| 0 <= k < n ==> parts.deep_view()[k] == parts@[k]@,
            join_spec(parts.deep_view(), sep@) == out@ + join_sep_rest(
                parts.deep_view().subrange(i as int, n as int),
                sep@,
            ),
        decreases n - i,
    {
        out.append(sep);
        out.append(parts[i].as_str());
        proof {
            let rest = parts.deep_view().subrange(i as int, n as int);
            assert(rest.drop_first() =~= parts.deep_view().subrange(i + 1, n as int));
            assert(rest[0] == parts.deep_view()[i as int]);
        }
        i += 1;
    }
    proof {
        assert(join_sep_rest(parts.deep_view().subrange(n as int, n as int), sep@)
            =~= Seq::<char>::empty());
        assert(out@ + Seq::<char>::empty() =~= out@);
    }
    out
}

/// What remains to be appended while joining: each piece preceded by `sep`.
pub open spec fn join_sep_rest(parts: Seq<Seq<char>>, sep: Seq<char>) -> Seq<char>
    decreases parts.len(),
{
    if parts.len() == 0 {
        Seq::empty()
    } else {
        sep + parts[0] + join_sep_rest(parts.drop_first(), sep)
    }
}

/// Lexicographic order on character sequences by code point, the order
/// `str::cmp` induces.
pub open spec fn lex_lt(a: Seq<char>, b: Seq<char>) -> bool
    decreases a.len(),
{
    if a.len() == 0 {
        b.len() > 0
    } else if b.len() == 0 {
        false
    } else if a[0] != b[0] {
        (a[0] as u32) < (b[0] as u32)
    } else {
        lex_lt(a.drop_first(), b.drop_first())
    }
}

proof fn lemma_lex_lt_skip(a: Seq<char>, b: Seq<char>, i: int)
    requires
        0 <= i <= a.len(),
        i <= b.len(),
        forall|k: int| 0 <= k < i ==> a[k] == b[k],
    ensures
        lex_lt(a, b) == lex_lt(a.subrange(i, a.len() as int), b.subrange(i, b.len() as int)),
    decreases i,
{
    if i == 0 {
        assert(a.subrange(0, a.len() as int) =~= a);
        assert(b.subrange(0, b.len() as int) =~= b);
    } else {
        lemma_lex_lt_skip(a.drop_first(), b.drop_first(), i - 1);
        assert(a.drop_first().subrange(i - 1, a.drop_first().len() as int) =~= a.subrange(
            i,
            a.len() as int,
        ));
        assert(b.drop_first().subrange(i - 1, b.drop_first().len() as int) =~= b.subrange(
            i,
            b.len() as int,
        ));
    }
}

/// Lexicographic order is asymmetric: at most one of two sequences stands
/// strictly before the other.
pub proof fn lemma_lex_lt_asym(a: Seq<char>, b: Seq<char>)
    ensures
        lex_lt(a, b) ==> !lex_lt(b, a),
    decreases a.len(),
{
    if a.len() > 0 && b.len() > 0 && a[0] == b[0] {
        lemma_lex_lt_asym(a.drop_first(), b.drop_first());
    }
}

/// Lexicographic order is transitive.
pub proof fn lemma_lex_lt_trans(a: Seq<char>, b: Seq<char>, c: Seq<char>)
    ensures
        lex_lt(a, b) && lex_lt(b, c) ==> lex_lt(a, c),
    decreases a.len(),
{
    if lex_lt(a, b) && lex_lt(b, c) && a.len() > 0 && b.len() > 0 && c.len() > 0 && a[0] == b[0]
        && b[0] == c[0] {
        lemma_lex_lt_trans(a.drop_first(), b.drop_first(), c.drop_first());
    }
}

/// Distinct characters have distinct code points.
proof fn lemma_char_code_distinct(c: char, d: char)
    ensures
        c != d ==> c as u32 != d as u32,
{
}

/// Lexicographic order is total: two distinct sequences compare one way.
pub proof fn lemma_lex_lt_total(a: Seq<char>, b: Seq<char>)
    ensures
        a != b ==> lex_lt(a, b) || lex_lt(b, a),
    decreases a.len(),
{
    if a.len() == 0 && b.len() == 0 {
        assert(a =~= b);
    }
    if a.len() > 0 && b.len() > 0 && a[0] != b[0] {
        lemma_char_code_distinct(a[0], b[0]);
    }
    if a.len() > 0 && b.len() > 0 && a[0] == b[0] {
        lemma_lex_lt_total(a.drop_first(), b.drop_first());
        if a.drop_first() == b.drop_first() {
            assert forall|k: int| 0 <= k < a.len() implies a[k] == b[k] by {
                if k > 0 {
                    assert(a[k] == a.drop_first()[k - 1]);
                    assert(b[k] == b.drop_first()[k - 1]);
                }
            }
            assert(a =~= b);
        }
    }
}

/// Whether `a` is strictly before `b` in lexicographic code-point order.
pub fn str_lt(a: &str, b: &str) -> (r: bool)
    ensures
        r == lex_lt(a@, b@),
{
    let na = a.unicode_len();
    let nb = b.unicode_len();
    let mut i: usize = 0;
    while i < na && i < nb && a.get_char(i) == b.get_char(i)
        invariant
            na == a@.len(),
            nb == b@.len(),
            0 <= i <= na,
            i <= nb,
            forall|k: int| 0 <= k < i ==> a@[k] == b@[k],
        decreases na - i,
    {
        i += 1;
    }
    proof {
        lemma_lex_lt_skip(a@, b@, i as int);
    }
    if i == na {
        i < nb
    } else if i == nb {
        false
    } else {
        (a.get_char(i) as u32) < (b.get_char(i) as u32)
    }
}

} // verus!
