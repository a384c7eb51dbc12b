//! The discovery engine: merging the providers' output into one
//! deduplicated, sorted catalog, and name lookup and fuzzy search over a
//! catalog.

use vstd::pervasive::VecAdditionalExecFns;
use vstd::prelude::*;
use vstd::string::*;

use fuzzy_matcher::FuzzyMatcher;

use crate::app::{priority_spec, richness_spec, AppSource, AppView, Application};
use crate::provider::{provider_error_msg, ProviderError};
use crate::text::{
    find_char, first_idx, lex_lt, lower_of, lowercase, str_eq, str_lt, tokens, tokens_spec, trim,
    trim_spec,
};

verus! {

/// What `SkimMatcherV2::default().fuzzy_match` returns: with the default
/// configuration the score depends on the two strings alone.
pub uninterp spec fn fuzzy_score_of(text: Seq<char>, query: Seq<char>) -> Option<i64>;

/// Relies on fuzzy_matcher's `SkimMatcherV2::default().fuzzy_match`: an
/// optional similarity score that is a pure function of choice and pattern.
#[verifier::external_body]
fn fuzzy_match_score(text: &str, query: &str) -> (r: Option<i64>)
    ensures
        r == fuzzy_score_of(text@, query@),
{
    let matcher = fuzzy_matcher::skim::SkimMatcherV2::default();
    matcher.fuzzy_match(text, query)
}

/// The first whitespace-delimited token of `t`, or `t` itself when it has
/// no tokens.
pub open spec fn first_token_spec(t: Seq<char>) -> Seq<char> {
    if tokens_spec(t).len() > 0 {
        tokens_spec(t)[0]
    } else {
        t
    }
}

/// The dedup key of an exec command: trim; if the command starts with a
/// double quote that is closed, take what stands between the quotes,
/// otherwise the first whitespace-delimited token; lower-case the result.
pub open spec fn normalize_spec(s: Seq<char>) -> Seq<char> {
    let t = trim_spec(s);
    if t.len() > 0 && t[0] == '"' && first_idx(t.drop_first(), '"') >= 0 {
        lower_of(t.subrange(1, first_idx(t.drop_first(), '"') + 1))
    } else {
        lower_of(first_token_spec(t))
    }
}

/// Normalize an exec command for deduplication comparison.
pub fn normalize_exec(exec: &str) -> (r: String)
    ensures
        r@ == normalize_spec(exec@),
{
    let trimmed = trim(exec);
    let tn = trimmed.unicode_len();
    if tn > 0 && trimmed.get_char(0) == '"' {
        proof {
            assert(trimmed@.subrange(1, tn as int) =~= trimmed@.drop_first());
        }
        if let Some(j) = find_char(trimmed, '"', 1) {
            return lowercase(trimmed.substring_char(1, j));
        }
    }
    let toks = tokens(trimmed);
    if toks.len() > 0 {
        lowercase(toks[0].as_str())
    } else {
        lowercase(trimmed)
    }
}

/// The dedup key of an application.
pub open spec fn key_of(a: AppView) -> Seq<char> {
    normalize_spec(a.exec_command)
}

/// Whether `a` strictly wins over `b` during dedup: lower source priority,
/// or equal priority and strictly greater metadata richness.
pub open spec fn beats(a: AppView, b: AppView) -> bool {
    priority_spec(a.source) < priority_spec(b.source) || (priority_spec(a.source) == priority_spec(
        b.source,
    ) && richness_spec(a) > richness_spec(b))
}

/// Whether `a` wins over or ties with `b` during dedup.
pub open spec fn dominates(a: AppView, b: AppView) -> bool {
    priority_spec(a.source) < priority_spec(b.source) || (priority_spec(a.source) == priority_spec(
        b.source,
    ) && richness_spec(a) >= richness_spec(b))
}

/// Index of the first entry of `acc` whose key is `k`, or `-1`.
pub open spec fn key_index(acc: Seq<AppView>, k: Seq<char>) -> int
    decreases acc.len(),
{
    if acc.len() == 0 {
        -1
    } else if key_of(acc[0]) == k {
        0
    } else {
        let r = key_index(acc.drop_first(), k);
        if r < 0 {
            -1
        } else {
            r + 1
        }
    }
}

pub proof fn lemma_key_index(acc: Seq<AppView>, k: Seq<char>)
    ensures
        key_index(acc, k) >= 0 ==> 0 <= key_index(acc, k) < acc.len() && key_of(
            acc[key_index(acc, k)],
        ) == k && forall|m: int| 0 <= m < key_index(acc, k) ==> key_of(acc[m]) != k,
        key_index(acc, k) < 0 ==> forall|m: int| 0 <= m < acc.len() ==> key_of(acc[m]) != k,
    decreases acc.len(),
{
    if acc.len() > 0 && key_of(acc[0]) != k {
        lemma_key_index(acc.drop_first(), k);
        let r = key_index(acc.drop_first(), k);
        if r >= 0 {
            assert forall|m: int| 0 <= m < r + 1 implies key_of(acc[m]) != k by {
                if m > 0 {
                    assert(key_of(acc.drop_first()[m - 1]) != k);
                }
            }
        } else {
            assert forall|m: int| 0 <= m < acc.len() implies key_of(acc[m]) != k by {
                if m > 0 {
                    assert(key_of(acc.drop_first()[m - 1]) != k);
                }
            }
        }
    }
}

proof fn lemma_key_index_at(acc: Seq<AppView>, k: Seq<char>, i: int)
    requires
        0 <= i <= acc.len(),
        forall|m: int| 0 <= m < i ==> key_of(acc[m]) != k,
        i < acc.len() ==> key_of(acc[i]) == k,
    ensures
        key_index(acc, k) == if i < acc.len() {
            i
        } else {
            -1
        },
    decreases i,
{
    if i == 0 {
        if acc.len() > 0 && key_of(acc[0]) != k {
            lemma_key_index(acc.drop_first(), k);
        }
    } else {
        lemma_key_index_at(acc.drop_first(), k, i - 1);
    }
}

/// One application folded into the accumulated representatives: it replaces
/// the entry holding its key when it strictly wins, joins the catalog when
/// its key is new, and is dropped otherwise.
pub open spec fn upsert(acc: Seq<AppView>, x: AppView) -> Seq<AppView> {
    let i = key_index(acc, key_of(x));
    if 0 <= i < acc.len() {
        if beats(x, acc[i]) {
            acc.update(i, x)
        } else {
            acc
        }
    } else {
        acc.push(x)
    }
}

/// The applications folded left to right into the accumulator.
pub open spec fn dedup_rec(s: Seq<AppView>, acc: Seq<AppView>) -> Seq<AppView>
    decreases s.len(),
{
    if s.len() == 0 {
        acc
    } else {
        dedup_rec(s.drop_first(), upsert(acc, s[0]))
    }
}

/// The deduplicated catalog: one representative per normalized exec key,
/// selected by source priority, then metadata richness, then first
/// discovery order.
pub open spec fn dedup_spec(s: Seq<AppView>) -> Seq<AppView> {
    dedup_rec(s, Seq::empty())
}

impl DiscoveryEngine {
    /// Deduplicate applications by normalized exec command. When several share
    /// a key: prefer the higher-priority source, then the richer metadata, then
    /// the earliest discovered.
    pub fn deduplicate(apps: Vec<Application>) -> (r: Vec<Application>)
        ensures
            r.deep_view() == dedup_spec(apps.deep_view()),
    {
        let ghost s = apps.deep_view();
        let n = apps.len();
        let mut result: Vec<Application> = Vec::new();
        let mut keys: Vec<String> = Vec::new();
        let mut idx: usize = 0;
        proof {
            assert(s.skip(0) =~= s);
            assert(result.deep_view() =~= Seq::<AppView>::empty());
        }
        while idx < n
            invariant
                n == apps.len(),
                s == apps.deep_view(),
                s.len() == n,
                0 <= idx <= n,
                keys.len() == result.len(),
                forall|m: int|
                    0 <= m < result.len() ==> keys.deep_view()[m] == key_of(
                        #[trigger] result.deep_view()[m],
                    ),
                dedup_rec(s.skip(idx as int), result.deep_view()) == dedup_spec(s),
            decreases n - idx,
        {
            let x = apps[idx].clone();
            let k = normalize_exec(x.exec_command.as_str());
            let rn = result.len();
            let mut m: usize = 0;
            while m < rn && !str_eq(k.as_str(), keys[m].as_str())
                invariant
                    rn == result.len(),
                    keys.len() == result.len(),
                    0 <= m <= rn,
                    forall|t: int| 0 <= t < m ==> keys.deep_view()[t] != k@,
                    forall|t: int|
                        0 <= t < result.len() ==> keys.deep_view()[t] == key_of(
                            #[trigger] result.deep_view()[t],
                        ),
                decreases rn - m,
            {
                m += 1;
            }
            let ghost old_dv = result.deep_view();
            proof {
                assert(k@ == key_of(x@));
                lemma_key_index_at(old_dv, k@, m as int);
            }
            if m < rn {
                let xp = x.source.priority();
                let rp = result[m].source.priority();
                let replace = xp < rp || (xp == rp && x.metadata_richness() > result[m]
                    .metadata_richness());
                if replace {
                    result.set(m, x);
                    proof {
                        assert(result.deep_view() =~= old_dv.update(m as int, s[idx as int]));
                    }
                }
            } else {
                result.push(x);
                keys.push(k);
                proof {
                    assert(result.deep_view() =~= old_dv.push(s[idx as int]));
                }
            }
            proof {
                assert(result.deep_view() =~= upsert(old_dv, s[idx as int]));
                assert(s.skip(idx as int).drop_first() =~= s.skip(idx + 1));
                assert(s.skip(idx as int)[0] == s[idx as int]);
            }
            idx += 1;
        }
        proof {
            assert(s.skip(n as int) =~= Seq::<AppView>::empty());
        }
        result
    }
}

/// No two entries share a normalized exec key.
pub open spec fn distinct_keys(s: Seq<AppView>) -> bool {
    forall|i: int, j: int| 0 <= i < j < s.len() ==> key_of(#[trigger] s[i]) != key_of(
        #[trigger] s[j],
    )
}

proof fn lemma_upsert_distinct(acc: Seq<AppView>, x: AppView)
    requires
        distinct_keys(acc),
    ensures
        distinct_keys(upsert(acc, x)),
{
    lemma_key_index(acc, key_of(x));
    let i = key_index(acc, key_of(x));
    if 0 <= i < acc.len() {
        if beats(x, acc[i]) {
            let u = acc.update(i, x);
            assert forall|p: int, q: int| 0 <= p < q < u.len() implies key_of(u[p]) != key_of(
                u[q],
            ) by {
                assert(key_of(acc[i]) == key_of(x));
            }
        }
    }
}

proof fn lemma_dedup_rec_distinct(s: Seq<AppView>, acc: Seq<AppView>)
    requires
        distinct_keys(acc),
    ensures
        distinct_keys(dedup_rec(s, acc)),
    decreases s.len(),
{
    if s.len() > 0 {
        lemma_upsert_distinct(acc, s[0]);
        lemma_dedup_rec_distinct(s.drop_first(), upsert(acc, s[0]));
    }
}

/// After one dedup pass no normalized exec key appears twice.
pub proof fn lemma_dedup_distinct(s: Seq<AppView>)
    ensures
        distinct_keys(dedup_spec(s)),
{
    lemma_dedup_rec_distinct(s, Seq::empty());
}

proof fn lemma_dedup_rec_of_distinct(s: Seq<AppView>, acc: Seq<AppView>)
    requires
        distinct_keys(acc),
        distinct_keys(s),
        forall|i: int, j: int|
            0 <= i < acc.len() && 0 <= j < s.len() ==> key_of(#[trigger] acc[i]) != key_of(
                #[trigger] s[j],
            ),
    ensures
        dedup_rec(s, acc) == acc + s,
    decreases s.len(),
{
    if s.len() == 0 {
        assert(acc + s =~= acc);
    } else {
        let x = s[0];
        lemma_key_index(acc, key_of(x));
        let i = key_index(acc, key_of(x));
        assert(i < 0) by {
            if i >= 0 {
                assert(key_of(acc[i]) == key_of(s[0]));
            }
        }
        let acc2 = acc.push(x);
        let s2 = s.drop_first();
        assert forall|p: int, q: int|
            0 <= p < acc2.len() && 0 <= q < s2.len() implies key_of(#[trigger] acc2[p]) != key_of(
            #[trigger] s2[q],
        ) by {
            assert(s2[q] == s[q + 1]);
            if p < acc.len() {
                assert(key_of(acc[p]) != key_of(s[q + 1]));
            } else {
                assert(acc2[p] == s[0]);
                assert(key_of(s[0]) != key_of(s[q + 1]));
            }
        }
        lemma_dedup_rec_of_distinct(s2, acc2);
        assert(acc.push(x) + s.drop_first() =~= acc + s);
    }
}

/// Idempotence: deduplicating an already-deduplicated catalog yields the
/// same catalog, and more generally one pass over a catalog whose keys are
/// already pairwise distinct changes nothing.
pub proof fn lemma_dedup_idempotent(s: Seq<AppView>)
    ensures
        dedup_spec(dedup_spec(s)) == dedup_spec(s),
        distinct_keys(s) ==> dedup_spec(s) == s,
{
    if distinct_keys(s) {
        lemma_dedup_rec_of_distinct(s, Seq::empty());
        assert(Seq::<AppView>::empty() + s =~= s);
    }
    lemma_dedup_distinct(s);
    lemma_dedup_rec_of_distinct(dedup_spec(s), Seq::empty());
    assert(Seq::<AppView>::empty() + dedup_spec(s) =~= dedup_spec(s));
}

/// Some representative in `acc` holds the key of `y` and wins over or ties
/// with `y`.
pub open spec fn covered(acc: Seq<AppView>, y: AppView) -> bool {
    exists|i: int|
        0 <= i < acc.len() && key_of(#[trigger] acc[i]) == key_of(y) && dominates(acc[i], y)
}

proof fn lemma_upsert_covers_x(acc: Seq<AppView>, x: AppView)
    ensures
        covered(upsert(acc, x), x),
{
    lemma_key_index(acc, key_of(x));
    let i = key_index(acc, key_of(x));
    let u = upsert(acc, x);
    if 0 <= i < acc.len() {
        if beats(x, acc[i]) {
            assert(key_of(u[i]) == key_of(x) && dominates(u[i], x));
        } else {
            assert(key_of(u[i]) == key_of(x) && dominates(u[i], x));
        }
    } else {
        assert(u[acc.len() as int] == x);
        assert(dominates(x, x));
    }
}

proof fn lemma_upsert_preserves_cover(acc: Seq<AppView>, x: AppView, y: AppView)
    requires
        covered(acc, y),
    ensures
        covered(upsert(acc, x), y),
{
    let w = choose|i: int|
        0 <= i < acc.len() && key_of(#[trigger] acc[i]) == key_of(y) && dominates(acc[i], y);
    lemma_key_index(acc, key_of(x));
    let i = key_index(acc, key_of(x));
    let u = upsert(acc, x);
    if 0 <= i < acc.len() && beats(x, acc[i]) {
        if w == i {
            assert(key_of(u[w]) == key_of(y) && dominates(u[w], y));
        } else {
            assert(key_of(u[w]) == key_of(y) && dominates(u[w], y));
        }
    } else {
        assert(key_of(u[w]) == key_of(y) && dominates(u[w], y));
    }
}

proof fn lemma_dedup_rec_preserves_cover(s: Seq<AppView>, acc: Seq<AppView>, y: AppView)
    requires
        covered(acc, y),
    ensures
        covered(dedup_rec(s, acc), y),
    decreases s.len(),
{
    if s.len() > 0 {
        lemma_upsert_preserves_cover(acc, s[0], y);
        lemma_dedup_rec_preserves_cover(s.drop_first(), upsert(acc, s[0]), y);
    }
}

proof fn lemma_dedup_rec_covers(s: Seq<AppView>, acc: Seq<AppView>, j: int)
    requires
        0 <= j < s.len(),
    ensures
        covered(dedup_rec(s, acc), s[j]),
    decreases s.len(),
{
    if j == 0 {
        lemma_upsert_covers_x(acc, s[0]);
        lemma_dedup_rec_preserves_cover(s.drop_first(), upsert(acc, s[0]), s[0]);
    } else {
        lemma_dedup_rec_covers(s.drop_first(), upsert(acc, s[0]), j - 1);
        assert(s.drop_first()[j - 1] == s[j]);
    }
}

/// Dedup precedence: for every application in the input, the deduplicated
/// catalog holds a representative with the same normalized exec key whose
/// source priority is lower, or equal with at least as much metadata.
pub proof fn lemma_dedup_precedence(s: Seq<AppView>, j: int)
    requires
        0 <= j < s.len(),
    ensures
        covered(dedup_spec(s), s[j]),
{
    lemma_dedup_rec_covers(s, Seq::empty(), j);
}

proof fn lemma_dedup_rec_members(s: Seq<AppView>, acc: Seq<AppView>, y: AppView)
    requires
        dedup_rec(s, acc).contains(y),
    ensures
        acc.contains(y) || s.contains(y),
    decreases s.len(),
{
    if s.len() > 0 {
        let u = upsert(acc, s[0]);
        lemma_dedup_rec_members(s.drop_first(), u, y);
        if u.contains(y) {
            let t = choose|t: int| 0 <= t < u.len() && u[t] == y;
            lemma_key_index(acc, key_of(s[0]));
            let i = key_index(acc, key_of(s[0]));
            if 0 <= i < acc.len() && beats(s[0], acc[i]) {
                if t == i {
                    assert(s.contains(y)) by {
                        assert(s[0] == y);
                    }
                } else {
                    assert(acc[t] == y);
                }
            } else if i < 0 {
                if t == acc.len() {
                    assert(s[0] == y);
                } else {
                    assert(acc[t] == y);
                }
            } else {
                assert(acc[t] == y);
            }
        } else {
            let t = choose|t: int| 0 <= t < s.drop_first().len() && s.drop_first()[t] == y;
            assert(s[t + 1] == y);
        }
    }
}

/// Everything in the deduplicated catalog was in the input.
pub proof fn lemma_dedup_members(s: Seq<AppView>, y: AppView)
    requires
        dedup_spec(s).contains(y),
    ensures
        s.contains(y),
{
    lemma_dedup_rec_members(s, Seq::empty(), y);
}

/// The canonical display order: case-insensitive name, then source
/// priority.
pub open spec fn app_lt(a: AppView, b: AppView) -> bool {
    lex_lt(lower_of(a.name), lower_of(b.name)) || (lower_of(a.name) == lower_of(b.name)
        && priority_spec(a.source) < priority_spec(b.source))
}

/// `x` placed before the first entry of `s` that is not strictly below it,
/// so that an entry inserted later never overtakes an equal one.
pub open spec fn insert_sorted(x: AppView, s: Seq<AppView>) -> Seq<AppView>
    decreases s.len(),
{
    if s.len() > 0 && app_lt(s[0], x) {
        seq![s[0]] + insert_sorted(x, s.drop_first())
    } else {
        seq![x] + s
    }
}

/// Stable insertion sort of the catalog by the display order.
pub open spec fn sort_spec(s: Seq<AppView>) -> Seq<AppView>
    decreases s.len(),
{
    if s.len() == 0 {
        Seq::empty()
    } else {
        insert_sorted(s[0], sort_spec(s.drop_first()))
    }
}

/// The display order compares any two entries one way, or they agree on
/// both of its keys; and it is asymmetric and transitive.
pub proof fn lemma_app_order(a: AppView, b: AppView)
    ensures
        app_lt(a, b) ==> !app_lt(b, a),
        app_lt(a, b) || app_lt(b, a) || (lower_of(a.name) == lower_of(b.name) && priority_spec(
            a.source,
        ) == priority_spec(b.source)),
{
    crate::text::lemma_lex_lt_asym(lower_of(a.name), lower_of(b.name));
    crate::text::lemma_lex_lt_total(lower_of(a.name), lower_of(b.name));
}

/// The display order is transitive.
pub proof fn lemma_app_lt_trans(a: AppView, b: AppView, c: AppView)
    ensures
        app_lt(a, b) && app_lt(b, c) ==> app_lt(a, c),
{
    crate::text::lemma_lex_lt_trans(lower_of(a.name), lower_of(b.name), lower_of(c.name));
}

/// No entry stands before an earlier one in the display order.
pub open spec fn sorted_catalog(s: Seq<AppView>) -> bool {
    forall|i: int, j: int| 0 <= i < j < s.len() ==> !app_lt(#[trigger] s[j], #[trigger] s[i])
}

proof fn lemma_insert_sorted_elems(x: AppView, s: Seq<AppView>, y: AppView)
    ensures
        insert_sorted(x, s).contains(y) <==> (y == x || s.contains(y)),
    decreases s.len(),
{
    let r = insert_sorted(x, s);
    if s.len() > 0 && app_lt(s[0], x) {
        lemma_insert_sorted_elems(x, s.drop_first(), y);
        let inner = insert_sorted(x, s.drop_first());
        assert(r == seq![s[0]] + inner);
        if y == x || s.contains(y) {
            if y == s[0] {
                assert(r[0] == y);
            } else if s.contains(y) {
                let t = choose|t: int| 0 <= t < s.len() && s[t] == y;
                assert(s.drop_first()[t - 1] == y);
                let u = choose|u: int| 0 <= u < inner.len() && inner[u] == y;
                assert(r[u + 1] == y);
            } else {
                let u = choose|u: int| 0 <= u < inner.len() && inner[u] == y;
                assert(r[u + 1] == y);
            }
        }
        if r.contains(y) {
            let t = choose|t: int| 0 <= t < r.len() && r[t] == y;
            if t == 0 {
                assert(s[0] == y);
            } else {
                assert(inner[t - 1] == y);
                if s.drop_first().contains(y) {
                    let u = choose|u: int| 0 <= u < s.drop_first().len() && s.drop_first()[u] == y;
                    assert(s[u + 1] == y);
                }
            }
        }
    } else {
        assert(r == seq![x] + s);
        if y == x {
            assert(r[0] == y);
        }
        if s.contains(y) {
            let t = choose|t: int| 0 <= t < s.len() && s[t] == y;
            assert(r[t + 1] == y);
        }
        if r.contains(y) {
            let t = choose|t: int| 0 <= t < r.len() && r[t] == y;
            if t > 0 {
                assert(s[t - 1] == y);
            }
        }
    }
}

proof fn lemma_insert_sorted_sorted(x: AppView, s: Seq<AppView>)
    requires
        sorted_catalog(s),
    ensures
        sorted_catalog(insert_sorted(x, s)),
    decreases s.len(),
{
    let r = insert_sorted(x, s);
    if s.len() > 0 && app_lt(s[0], x) {
        let rest = s.drop_first();
        assert forall|i: int, j: int| 0 <= i < j < rest.len() implies !app_lt(
            #[trigger] rest[j],
            #[trigger] rest[i],
        ) by {
            assert(rest[i] == s[i + 1] && rest[j] == s[j + 1]);
        }
        lemma_insert_sorted_sorted(x, rest);
        let inner = insert_sorted(x, rest);
        assert(r == seq![s[0]] + inner);
        assert forall|i: int, j: int| 0 <= i < j < r.len() implies !app_lt(
            #[trigger] r[j],
            #[trigger] r[i],
        ) by {
            if i == 0 {
                lemma_insert_sorted_elems(x, rest, r[j]);
                if r[j] == x {
                    lemma_app_order(s[0], x);
                } else {
                    let u = choose|u: int| 0 <= u < rest.len() && rest[u] == r[j];
                    assert(s[u + 1] == r[j]);
                }
            } else {
                assert(inner[i - 1] == r[i] && inner[j - 1] == r[j]);
            }
        }
    } else {
        assert(r == seq![x] + s);
        assert forall|i: int, j: int| 0 <= i < j < r.len() implies !app_lt(
            #[trigger] r[j],
            #[trigger] r[i],
        ) by {
            if i == 0 {
                assert(r[j] == s[j - 1]);
                if s.len() > 0 && app_lt(s[j - 1], x) {
                    if j - 1 > 0 {
                        // s[j-1] below x while s[0] is not: s[j-1] would
                        // stand below s[0], against sortedness.
                        lemma_app_order(s[0], x);
                        lemma_app_order(s[j - 1], s[0]);
                        lemma_app_lt_trans(s[j - 1], x, s[0]);
                        if app_lt(x, s[0]) {
                            lemma_app_lt_trans(s[j - 1], x, s[0]);
                        }
                    }
                }
            } else {
                assert(s[i - 1] == r[i] && s[j - 1] == r[j]);
            }
        }
    }
}

/// Prepending one element inserts it into the sequence's multiset.
proof fn lemma_to_multiset_prepend(a: AppView, t: Seq<AppView>)
    ensures
        (seq![a] + t).to_multiset() == t.to_multiset().insert(a),
    decreases t.len(),
{
    broadcast use vstd::seq_lib::group_to_multiset_ensures;

    if t.len() == 0 {
        assert(seq![a] + t =~= Seq::<AppView>::empty().push(a));
        assert((Seq::<AppView>::empty().push(a)).to_multiset() =~= Seq::<
            AppView,
        >::empty().to_multiset().insert(a));
        assert(t.to_multiset() =~= Seq::<AppView>::empty().to_multiset());
    } else {
        lemma_to_multiset_prepend(a, t.drop_last());
        assert(seq![a] + t =~= (seq![a] + t.drop_last()).push(t.last()));
        assert(t =~= t.drop_last().push(t.last()));
        assert((seq![a] + t).to_multiset() =~= t.drop_last().to_multiset().insert(a).insert(
            t.last(),
        ));
        assert(t.to_multiset().insert(a) =~= t.drop_last().to_multiset().insert(t.last()).insert(
            a,
        ));
        assert(t.drop_last().to_multiset().insert(a).insert(t.last())
            =~= t.drop_last().to_multiset().insert(t.last()).insert(a));
    }
}

proof fn lemma_insert_sorted_multiset(x: AppView, s: Seq<AppView>)
    ensures
        insert_sorted(x, s).to_multiset() == s.to_multiset().insert(x),
    decreases s.len(),
{
    if s.len() > 0 && app_lt(s[0], x) {
        let rest = s.drop_first();
        lemma_insert_sorted_multiset(x, rest);
        let inner = insert_sorted(x, rest);
        lemma_to_multiset_prepend(s[0], inner);
        lemma_to_multiset_prepend(s[0], rest);
        assert(seq![s[0]] + rest =~= s);
        assert((seq![s[0]] + inner).to_multiset() =~= rest.to_multiset().insert(x).insert(s[0]));
        assert(s.to_multiset().insert(x) =~= rest.to_multiset().insert(s[0]).insert(x));
        assert(rest.to_multiset().insert(x).insert(s[0]) =~= rest.to_multiset().insert(
            s[0],
        ).insert(x));
    } else {
        lemma_to_multiset_prepend(x, s);
    }
}

/// The sorted catalog stands in the display order and is a permutation of
/// its input.
pub proof fn lemma_sort_catalog_order(s: Seq<AppView>)
    ensures
        sorted_catalog(sort_spec(s)),
        sort_spec(s).to_multiset() == s.to_multiset(),
    decreases s.len(),
{
    if s.len() > 0 {
        let rest = s.drop_first();
        lemma_sort_catalog_order(rest);
        lemma_insert_sorted_sorted(s[0], sort_spec(rest));
        lemma_insert_sorted_multiset(s[0], sort_spec(rest));
        lemma_to_multiset_prepend(s[0], rest);
        assert(sort_spec(s) == insert_sorted(s[0], sort_spec(rest)));
        assert(sort_spec(s).to_multiset() =~= rest.to_multiset().insert(s[0]));
        assert(seq![s[0]] + rest =~= s);
        assert(s.to_multiset() == (seq![s[0]] + rest).to_multiset());
        assert(sort_spec(s).to_multiset() =~= s.to_multiset());
    } else {
        assert(s =~= Seq::<AppView>::empty());
    }
}

proof fn lemma_insert_sorted_at(x: AppView, s: Seq<AppView>, j: int)
    requires
        0 <= j <= s.len(),
        forall|m: int| 0 <= m < j ==> app_lt(#[trigger] s[m], x),
        j < s.len() ==> !app_lt(s[j], x),
    ensures
        insert_sorted(x, s) == s.subrange(0, j) + seq![x] + s.subrange(j, s.len() as int),
    decreases j,
{
    if j == 0 {
        assert(s.subrange(0, 0) + seq![x] + s.subrange(0, s.len() as int) =~= seq![x] + s);
    } else {
        lemma_insert_sorted_at(x, s.drop_first(), j - 1);
        assert(s.drop_first().subrange(0, j - 1) =~= s.subrange(1, j));
        assert(s.drop_first().subrange(j - 1, s.drop_first().len() as int) =~= s.subrange(
            j,
            s.len() as int,
        ));
        assert(seq![s[0]] + (s.subrange(1, j) + seq![x] + s.subrange(j, s.len() as int))
            =~= s.subrange(0, j) + seq![x] + s.subrange(j, s.len() as int));
    }
}

/// Whether `a` stands strictly before `b` in the display order.
pub fn app_lt_exec(a: &Application, b: &Application) -> (r: bool)
    ensures
        r == app_lt(a@, b@),
{
    let an = lowercase(a.name.as_str());
    let bn = lowercase(b.name.as_str());
    if str_lt(an.as_str(), bn.as_str()) {
        true
    } else if str_eq(an.as_str(), bn.as_str()) {
        a.source.priority() < b.source.priority()
    } else {
        false
    }
}

fn insert_app(v: &mut Vec<Application>, x: Application)
    ensures
        final(v).deep_view() == insert_sorted(x@, old(v).deep_view()),
{
    let n = v.len();
    let mut j: usize = 0;
    while j < n && app_lt_exec(&v[j], &x)
        invariant
            *v == *old(v),
            n == v.len(),
            0 <= j <= n,
            forall|m: int| 0 <= m < j ==> app_lt(#[trigger] old(v).deep_view()[m], x@),
        decreases n - j,
    {
        j += 1;
    }
    proof {
        lemma_insert_sorted_at(x@, v.deep_view(), j as int);
    }
    let ghost old_dv = v.deep_view();
    v.insert(j, x);
    proof {
        assert(v.deep_view() =~= old_dv.subrange(0, j as int) + seq![x@] + old_dv.subrange(
            j as int,
            old_dv.len() as int,
        ));
    }
}

/// Sort a catalog by the display order with a stable sort: the result is
/// the stable reordering of the input, sorted, and a permutation of it.
pub fn sort_catalog(apps: Vec<Application>) -> (r: Vec<Application>)
    ensures
        r.deep_view() == sort_spec(apps.deep_view()),
        sorted_catalog(r.deep_view()),
        r.deep_view().to_multiset() == apps.deep_view().to_multiset(),
{
    proof {
        lemma_sort_catalog_order(apps.deep_view());
    }
    let ghost s = apps.deep_view();
    let n = apps.len();
    let mut result: Vec<Application> = Vec::new();
    let mut k: usize = n;
    proof {
        assert(s.skip(n as int) =~= Seq::<AppView>::empty());
        assert(result.deep_view() =~= Seq::<AppView>::empty());
    }
    while k > 0
        invariant
            n == apps.len(),
            s == apps.deep_view(),
            s.len() == n,
            0 <= k <= n,
            result.deep_view() == sort_spec(s.skip(k as int)),
        decreases k,
    {
        k -= 1;
        let x = apps[k].clone();
        insert_app(&mut result, x);
        proof {
            assert(s.skip(k as int)[0] == s[k as int]);
            assert(s.skip(k as int).drop_first() =~= s.skip(k + 1));
        }
    }
    proof {
        assert(s.skip(0) =~= s);
    }
    result
}

/// Index of the first catalog entry whose name matches `q`
/// case-insensitively, or `-1`.
pub open spec fn exact_idx(c: Seq<AppView>, q: Seq<char>) -> int
    decreases c.len(),
{
    if c.len() == 0 {
        -1
    } else if lower_of(c[0].name) == lower_of(q) {
        0
    } else {
        let r = exact_idx(c.drop_first(), q);
        if r < 0 {
            -1
        } else {
            r + 1
        }
    }
}

proof fn lemma_exact_idx_at(c: Seq<AppView>, q: Seq<char>, i: int)
    requires
        0 <= i <= c.len(),
        forall|m: int| 0 <= m < i ==> lower_of(#[trigger] c[m].name) != lower_of(q),
        i < c.len() ==> lower_of(c[i].name) == lower_of(q),
    ensures
        exact_idx(c, q) == if i < c.len() {
            i
        } else {
            -1
        },
        exact_idx(c, q) >= 0 ==> exact_idx(c, q) < c.len(),
    decreases i,
{
    if i == 0 {
        if c.len() > 0 && lower_of(c[0].name) != lower_of(q) {
            lemma_exact_idx_none(c.drop_first(), q);
        }
    } else {
        lemma_exact_idx_at(c.drop_first(), q, i - 1);
    }
}

proof fn lemma_exact_idx_none(c: Seq<AppView>, q: Seq<char>)
    ensures
        exact_idx(c, q) >= 0 ==> exact_idx(c, q) < c.len(),
    decreases c.len(),
{
    if c.len() > 0 && lower_of(c[0].name) != lower_of(q) {
        lemma_exact_idx_none(c.drop_first(), q);
    }
}

/// The best fuzzy hit at or after position `i`, starting from `cur`:
/// a strictly higher score displaces the current best, so the earliest
/// entry reaching the top score wins.
pub open spec fn best_fuzzy_from(
    c: Seq<AppView>,
    q: Seq<char>,
    i: int,
    cur: Option<(int, i64)>,
) -> Option<(int, i64)>
    decreases c.len() - i,
{
    if !(0 <= i < c.len()) {
        cur
    } else {
        let next = match fuzzy_score_of(c[i].name, q) {
            Some(sc) => match cur {
                Some((bi, bs)) => if sc > bs {
                    Some((i, sc))
                } else {
                    cur
                },
                None => Some((i, sc)),
            },
            None => cur,
        };
        best_fuzzy_from(c, q, i + 1, next)
    }
}

/// The catalog position and score of the best fuzzy match for `q`.
pub open spec fn best_fuzzy(c: Seq<AppView>, q: Seq<char>) -> Option<(int, i64)> {
    best_fuzzy_from(c, q, 0, None)
}

/// Merges and ranks provider output, and answers lookups over a catalog.
pub struct DiscoveryEngine {}

/// What one provider's discovery reported: its name, and its applications
/// or its error.
pub struct ProviderReport {
    pub provider: String,
    pub outcome: Result<Vec<Application>, ProviderError>,
}

/// All applications of the successful reports, in report order; a failing
/// report contributes nothing.
pub open spec fn flatten_ok(reports: Seq<ProviderReport>) -> Seq<AppView>
    decreases reports.len(),
{
    if reports.len() == 0 {
        Seq::empty()
    } else {
        (match reports[0].outcome {
            Ok(v) => v.deep_view(),
            Err(_) => Seq::empty(),
        }) + flatten_ok(reports.drop_first())
    }
}

/// The warning text for one failing provider.
pub open spec fn warning_msg(name: Seq<char>, e: ProviderError) -> Seq<char> {
    "provider '"@ + name + "' failed: "@ + provider_error_msg(e)
}

/// The warnings of the failing reports, one each, in report order.
pub open spec fn warnings_spec(reports: Seq<ProviderReport>) -> Seq<Seq<char>>
    decreases reports.len(),
{
    if reports.len() == 0 {
        Seq::empty()
    } else {
        (match reports[0].outcome {
            Ok(_) => Seq::<Seq<char>>::empty(),
            Err(e) => seq![warning_msg(reports[0].provider@, e)],
        }) + warnings_spec(reports.drop_first())
    }
}

/// The entries whose source is among `sources`, in order.
pub open spec fn filter_sources_spec(c: Seq<AppView>, sources: Seq<AppSource>) -> Seq<AppView>
    decreases c.len(),
{
    if c.len() == 0 {
        Seq::empty()
    } else {
        let rest = filter_sources_spec(c.drop_first(), sources);
        if sources.contains(c[0].source) {
            seq![c[0]] + rest
        } else {
            rest
        }
    }
}

/// Whether `s` occurs in `sources`.
pub fn contains_source(sources: &Vec<AppSource>, s: AppSource) -> (r: bool)
    ensures
        r == sources@.contains(s),
{
    let n = sources.len();
    let mut i: usize = 0;
    while i < n
        invariant
            n == sources.len(),
            0 <= i <= n,
            forall|k: int| 0 <= k < i ==> sources@[k] != s,
        decreases n - i,
    {
        if sources[i] == s {
            return true;
        }
        i += 1;
    }
    false
}

impl DiscoveryEngine {
    /// A fresh engine.
    pub fn new() -> (r: Self) {
        DiscoveryEngine {  }
    }

    /// Find an application by name: the first exact case-insensitive match
    /// in catalog order, else the earliest best fuzzy match, else nothing.
    pub fn find_by_name(&self, name: &str, apps: &Vec<Application>) -> (r: Option<Application>)
        ensures
            ({
                let c = apps.deep_view();
                let e = exact_idx(c, name@);
                let b = best_fuzzy(c, name@);
                match r {
                    Some(a) => (e >= 0 && e < c.len() && a@ == c[e]) || (e < 0 && b is Some && a@
                        == c[b.unwrap().0]),
                    None => e < 0 && b is None,
                }
            }),
    {
        let ghost c = apps.deep_view();
        let lower = lowercase(name);
        let n = apps.len();
        let mut i: usize = 0;
        while i < n && !str_eq(lowercase(apps[i].name.as_str()).as_str(), lower.as_str())
            invariant
                c == apps.deep_view(),
                c.len() == n,
                n == apps.len(),
                lower@ == lower_of(name@),
                0 <= i <= n,
                forall|m: int| 0 <= m < i ==> lower_of(#[trigger] c[m].name) != lower_of(name@),
            decreases n - i,
        {
            i += 1;
        }
        proof {
            lemma_exact_idx_at(c, name@, i as int);
        }
        if i < n {
            return Some(apps[i].clone());
        }
        let mut best: Option<(i64, usize)> = None;
        let ghost mut gbest: Option<(int, i64)> = None;
        let mut j: usize = 0;
        while j < n
            invariant
                c == apps.deep_view(),
                c.len() == n,
                n == apps.len(),
                0 <= j <= n,
                match best {
                    Some((bs, bi)) => gbest == Some((bi as int, bs)) && bi < n,
                    None => gbest is None,
                },
                best_fuzzy_from(c, name@, j as int, gbest) == best_fuzzy(c, name@),
            decreases n - j,
        {
            let sc = fuzzy_match_score(apps[j].name.as_str(), name);
            proof {
                assert(apps@[j as int].name@ == c[j as int].name);
            }
            match sc {
                Some(score) => {
                    let better = match &best {
                        Some((bs, _)) => score > *bs,
                        None => true,
                    };
                    if better {
                        best = Some((score, j));
                        proof {
                            gbest = Some((j as int, score));
                        }
                    }
                },
                None => {},
            }
            j += 1;
        }
        match best {
            Some((_, bi)) => {
                proof {
                    lemma_best_fuzzy_range(c, name@, n as int, gbest);
                }
                Some(apps[bi].clone())
            },
            None => None,
        }
    }

    /// Fuzzy search applications by name and description: the entries whose
    /// score is strictly positive, best score first, equal scores keeping
    /// their catalog order.
    pub fn search(&self, query: &str, apps: &Vec<Application>) -> (r: Vec<Application>)
        ensures
            ({
                let c = apps.deep_view();
                let ord = search_order(c, query@);
                &&& r.deep_view().len() == ord.len()
                &&& forall|k: int|
                    0 <= k < ord.len() ==> 0 <= (#[trigger] ord[k]).1 < c.len() && r.deep_view()[k]
                        == c[ord[k].1]
            }),
    {
        let ghost c = apps.deep_view();
        let ghost q = query@;
        let n = apps.len();
        let mut scored: Vec<(i64, usize)> = Vec::new();
        let mut i: usize = 0;
        proof {
            assert(scored@.map_values(|p: (i64, usize)| pview(p)) + pairs_from(c, q, 0)
                =~= pairs_from(c, q, 0));
        }
        while i < n
            invariant
                c == apps.deep_view(),
                q == query@,
                c.len() == n,
                n == apps.len(),
                0 <= i <= n,
                forall|t: int| 0 <= t < scored.len() ==> (#[trigger] scored@[t]).1 < n,
                scored@.map_values(|p: (i64, usize)| pview(p)) + pairs_from(c, q, i as int)
                    == pairs_from(c, q, 0),
            decreases n - i,
        {
            let ns = match fuzzy_match_score(apps[i].name.as_str(), query) {
                Some(s) => s,
                None => 0,
            };
            let ds = match &apps[i].description {
                Some(d) => match fuzzy_match_score(d.as_str(), query) {
                    Some(s) => s,
                    None => 0,
                },
                None => 0,
            };
            let sc = if ns >= ds {
                ns
            } else {
                ds
            };
            proof {
                assert(apps@[i as int].name@ == c[i as int].name);
                assert(apps@[i as int].description.deep_view() == c[i as int].description);
                assert(sc as int == score_of(c[i as int], q));
            }
            if sc > 0 {
                let ghost old_sv = scored@.map_values(|p: (i64, usize)| pview(p));
                scored.push((sc, i));
                proof {
                    assert(scored@.map_values(|p: (i64, usize)| pview(p)) =~= old_sv.push(
                        (sc as int, i as int),
                    ));
                    assert(old_sv.push((sc as int, i as int)) + pairs_from(c, q, i + 1)
                        =~= old_sv + (seq![(score_of(c[i as int], q), i as int)] + pairs_from(
                        c,
                        q,
                        i + 1,
                    )));
                }
            }
            i += 1;
        }
        proof {
            assert(scored@.map_values(|p: (i64, usize)| pview(p)) + pairs_from(c, q, n as int)
                =~= scored@.map_values(|p: (i64, usize)| pview(p)));
        }
        let ghost t = scored@.map_values(|p: (i64, usize)| pview(p));
        let m = scored.len();
        let mut sorted: Vec<(i64, usize)> = Vec::new();
        let mut k: usize = m;
        proof {
            assert(t.skip(m as int) =~= Seq::<(int, int)>::empty());
            assert(sorted@.map_values(|p: (i64, usize)| pview(p)) =~= Seq::<(int, int)>::empty());
        }
        while k > 0
            invariant
                m == scored.len(),
                t == scored@.map_values(|p: (i64, usize)| pview(p)),
                t.len() == m,
                0 <= k <= m,
                forall|u: int| 0 <= u < scored.len() ==> (#[trigger] scored@[u]).1 < n,
                sorted@.map_values(|p: (i64, usize)| pview(p)) == sort_desc(t.skip(k as int)),
            decreases k,
        {
            k -= 1;
            let x = scored[k];
            insert_pair(&mut sorted, x);
            proof {
                assert(t.skip(k as int)[0] == t[k as int]);
                assert(t[k as int] == pview(scored@[k as int]));
                assert(t.skip(k as int).drop_first() =~= t.skip(k + 1));
            }
        }
        proof {
            assert(t.skip(0) =~= t);
            assert(pairs_from(c, q, 0) =~= t);
        }
        let ghost ord = search_order(c, q);
        proof {
            lemma_search_ordering(c, q);
        }
        let sn = sorted.len();
        let mut out: Vec<Application> = Vec::new();
        let mut w: usize = 0;
        while w < sn
            invariant
                c == apps.deep_view(),
                n == apps.len(),
                c.len() == n,
                sn == sorted.len(),
                ord == sorted@.map_values(|p: (i64, usize)| pview(p)),
                ord == search_order(c, q),
                forall|u: int|
                    0 <= u < ord.len() ==> 0 <= (#[trigger] ord[u]).1 < c.len(),
                0 <= w <= sn,
                out.deep_view().len() == w,
                forall|u: int| 0 <= u < w ==> out.deep_view()[u] == c[(#[trigger] ord[u]).1],
            decreases sn - w,
        {
            let idx = sorted[w].1;
            proof {
                assert(pview(sorted@[w as int]) == ord[w as int]);
            }
            let ghost old_out = out.deep_view();
            out.push(apps[idx].clone());
            proof {
                assert(out.deep_view() =~= old_out.push(c[ord[w as int].1]));
            }
            w += 1;
        }
        out
    }

    /// Merge the providers' reports into the final catalog: flatten the
    /// successful results, deduplicate, and sort; each failing provider
    /// contributes nothing but exactly one warning.
    pub fn merge_discovered(reports: Vec<ProviderReport>) -> (r: (Vec<Application>, Vec<String>))
        ensures
            r.0.deep_view() == sort_spec(dedup_spec(flatten_ok(reports@))),
            sorted_catalog(r.0.deep_view()),
            r.1.deep_view() == warnings_spec(reports@),
    {
        proof {
            lemma_sort_catalog_order(dedup_spec(flatten_ok(reports@)));
        }
        let ghost rs = reports@;
        let n = reports.len();
        let mut all: Vec<Application> = Vec::new();
        let mut warnings: Vec<String> = Vec::new();
        let mut i: usize = 0;
        proof {
            assert(rs.skip(0) =~= rs);
            assert(all.deep_view() + flatten_ok(rs) =~= flatten_ok(rs));
            assert(warnings.deep_view() + warnings_spec(rs) =~= warnings_spec(rs));
        }
        while i < n
            invariant
                rs == reports@,
                rs.len() == n,
                n == reports.len(),
                0 <= i <= n,
                flatten_ok(rs) == all.deep_view() + flatten_ok(rs.skip(i as int)),
                warnings_spec(rs) == warnings.deep_view() + warnings_spec(rs.skip(i as int)),
            decreases n - i,
        {
            let ghost old_all = all.deep_view();
            let ghost old_warn = warnings.deep_view();
            match &reports[i].outcome {
                Ok(apps) => {
                    let an = apps.len();
                    let mut j: usize = 0;
                    while j < an
                        invariant
                            an == apps.len(),
                            0 <= j <= an,
                            all.deep_view() == old_all + apps.deep_view().subrange(0, j as int),
                        decreases an - j,
                    {
                        let ghost before = all.deep_view();
                        all.push(apps[j].clone());
                        proof {
                            assert(all.deep_view() =~= before.push(apps.deep_view()[j as int]));
                            assert(old_all + apps.deep_view().subrange(0, j + 1) =~= before.push(
                                apps.deep_view()[j as int],
                            ));
                        }
                        j += 1;
                    }
                    proof {
                        assert(apps.deep_view().subrange(0, an as int) =~= apps.deep_view());
                    }
                },
                Err(e) => {
                    let mut m = String::from_str("provider '");
                    m.append(reports[i].provider.as_str());
                    m.append("' failed: ");
                    let em = e.message();
                    m.append(em.as_str());
                    warnings.push(m);
                    proof {
                        assert(warnings.deep_view() =~= old_warn.push(
                            warning_msg(rs[i as int].provider@, rs[i as int].outcome->Err_0),
                        ));
                    }
                },
            }
            proof {
                assert(rs.skip(i as int)[0] == rs[i as int]);
                assert(rs.skip(i as int).drop_first() =~= rs.skip(i + 1));
                match rs[i as int].outcome {
                    Ok(v) => {
                        assert(old_all + (v.deep_view() + flatten_ok(rs.skip(i + 1))) =~= (old_all
                            + v.deep_view()) + flatten_ok(rs.skip(i + 1)));
                        assert(old_warn + (Seq::<Seq<char>>::empty() + warnings_spec(
                            rs.skip(i + 1),
                        )) =~= old_warn + warnings_spec(rs.skip(i + 1)));
                    },
                    Err(e) => {
                        assert(old_all + (Seq::<AppView>::empty() + flatten_ok(rs.skip(i + 1)))
                            =~= old_all + flatten_ok(rs.skip(i + 1)));
                        assert(old_warn + (seq![warning_msg(rs[i as int].provider@, e)]
                            + warnings_spec(rs.skip(i + 1))) =~= (old_warn + seq![
                            warning_msg(rs[i as int].provider@, e),
                        ]) + warnings_spec(rs.skip(i + 1)));
                    },
                }
            }
            i += 1;
        }
        proof {
            assert(rs.skip(n as int) =~= Seq::<ProviderReport>::empty());
            assert(all.deep_view() + flatten_ok(rs.skip(n as int)) =~= all.deep_view());
            assert(warnings.deep_view() + warnings_spec(rs.skip(n as int)) =~= warnings.deep_view());
        }
        let deduped = Self::deduplicate(all);
        let catalog = sort_catalog(deduped);
        (catalog, warnings)
    }

    /// The catalog restricted to applications whose source is among
    /// `sources`; set membership, not list order, decides inclusion.
    pub fn filter_by_sources(apps: Vec<Application>, sources: &Vec<AppSource>) -> (r: Vec<
        Application,
    >)
        ensures
            r.deep_view() == filter_sources_spec(apps.deep_view(), sources@),
    {
        let ghost c = apps.deep_view();
        let n = apps.len();
        let mut out: Vec<Application> = Vec::new();
        let mut i: usize = 0;
        proof {
            assert(c.skip(0) =~= c);
            assert(out.deep_view() + filter_sources_spec(c, sources@) =~= filter_sources_spec(
                c,
                sources@,
            ));
        }
        while i < n
            invariant
                c == apps.deep_view(),
                c.len() == n,
                n == apps.len(),
                0 <= i <= n,
                filter_sources_spec(c, sources@) == out.deep_view() + filter_sources_spec(
                    c.skip(i as int),
                    sources@,
                ),
            decreases n - i,
        {
            let ghost old_out = out.deep_view();
            if contains_source(sources, apps[i].source) {
                out.push(apps[i].clone());
                proof {
                    assert(out.deep_view() =~= old_out.push(c[i as int]));
                    assert(old_out + (seq![c[i as int]] + filter_sources_spec(
                        c.skip(i + 1),
                        sources@,
                    )) =~= out.deep_view() + filter_sources_spec(c.skip(i + 1), sources@));
                }
            }
            proof {
                assert(c.skip(i as int)[0] == c[i as int]);
                assert(c.skip(i as int).drop_first() =~= c.skip(i + 1));
            }
            i += 1;
        }
        proof {
            assert(c.skip(n as int) =~= Seq::<AppView>::empty());
            assert(out.deep_view() + filter_sources_spec(c.skip(n as int), sources@)
                =~= out.deep_view());
        }
        out
    }
}

proof fn lemma_best_fuzzy_range(c: Seq<AppView>, q: Seq<char>, i: int, cur: Option<(int, i64)>)
    requires
        cur is Some ==> 0 <= cur.unwrap().0 < c.len(),
    ensures
        best_fuzzy_from(c, q, i, cur) is Some ==> 0 <= best_fuzzy_from(c, q, i, cur).unwrap().0
            < c.len(),
        cur is Some ==> best_fuzzy_from(c, q, i, cur) is Some,
    decreases c.len() - i,
{
    if 0 <= i < c.len() {
        let next = match fuzzy_score_of(c[i].name, q) {
            Some(sc) => match cur {
                Some((bi, bs)) => if sc > bs {
                    Some((i, sc))
                } else {
                    cur
                },
                None => Some((i, sc)),
            },
            None => cur,
        };
        lemma_best_fuzzy_range(c, q, i + 1, next);
    }
}

/// The search score of one entry: the better of its name score and its
/// description score, a missing or failed match counting as zero.
pub open spec fn score_of(a: AppView, q: Seq<char>) -> int {
    let ns: int = match fuzzy_score_of(a.name, q) {
        Some(s) => s as int,
        None => 0,
    };
    let ds: int = match a.description {
        Some(d) => match fuzzy_score_of(d, q) {
            Some(s) => s as int,
            None => 0,
        },
        None => 0,
    };
    if ns >= ds {
        ns
    } else {
        ds
    }
}

/// The `(score, index)` pairs of the entries at or after `i` whose score is
/// strictly positive, in catalog order.
pub open spec fn pairs_from(c: Seq<AppView>, q: Seq<char>, i: int) -> Seq<(int, int)>
    decreases c.len() - i,
{
    if !(0 <= i < c.len()) {
        Seq::empty()
    } else if score_of(c[i], q) > 0 {
        seq![(score_of(c[i], q), i)] + pairs_from(c, q, i + 1)
    } else {
        pairs_from(c, q, i + 1)
    }
}

/// `x` placed before the first pair whose score is not strictly above its
/// own, so that a pair inserted later never overtakes an equal score.
pub open spec fn insert_desc(x: (int, int), s: Seq<(int, int)>) -> Seq<(int, int)>
    decreases s.len(),
{
    if s.len() > 0 && s[0].0 > x.0 {
        seq![s[0]] + insert_desc(x, s.drop_first())
    } else {
        seq![x] + s
    }
}

/// Stable insertion sort of score pairs, descending by score.
pub open spec fn sort_desc(s: Seq<(int, int)>) -> Seq<(int, int)>
    decreases s.len(),
{
    if s.len() == 0 {
        Seq::empty()
    } else {
        insert_desc(s[0], sort_desc(s.drop_first()))
    }
}

/// The ranking `search` returns: the strictly positive scores in
/// descending order, equal scores in catalog order.
pub open spec fn search_order(c: Seq<AppView>, q: Seq<char>) -> Seq<(int, int)> {
    sort_desc(pairs_from(c, q, 0))
}

/// Scores descending, and among equal scores the catalog index ascending.
pub open spec fn pairs_ordered(r: Seq<(int, int)>) -> bool {
    forall|i: int, j: int|
        0 <= i < j < r.len() ==> (#[trigger] r[i]).0 > (#[trigger] r[j]).0 || (r[i].0 == r[j].0
            && r[i].1 < r[j].1)
}

proof fn lemma_insert_desc_elems(x: (int, int), s: Seq<(int, int)>, y: (int, int))
    ensures
        insert_desc(x, s).contains(y) <==> (y == x || s.contains(y)),
    decreases s.len(),
{
    let r = insert_desc(x, s);
    if s.len() > 0 && s[0].0 > x.0 {
        lemma_insert_desc_elems(x, s.drop_first(), y);
        let inner = insert_desc(x, s.drop_first());
        assert(r == seq![s[0]] + inner);
        if y == x || s.contains(y) {
            if y == s[0] {
                assert(r[0] == y);
            } else if s.contains(y) {
                let t = choose|t: int| 0 <= t < s.len() && s[t] == y;
                assert(s.drop_first()[t - 1] == y);
                let u = choose|u: int| 0 <= u < inner.len() && inner[u] == y;
                assert(r[u + 1] == y);
            } else {
                let u = choose|u: int| 0 <= u < inner.len() && inner[u] == y;
                assert(r[u + 1] == y);
            }
        }
        if r.contains(y) {
            let t = choose|t: int| 0 <= t < r.len() && r[t] == y;
            if t == 0 {
                assert(s[0] == y);
            } else {
                assert(inner[t - 1] == y);
                if s.drop_first().contains(y) {
                    let u = choose|u: int| 0 <= u < s.drop_first().len() && s.drop_first()[u] == y;
                    assert(s[u + 1] == y);
                }
            }
        }
    } else {
        assert(r == seq![x] + s);
        if y == x {
            assert(r[0] == y);
        }
        if s.contains(y) {
            let t = choose|t: int| 0 <= t < s.len() && s[t] == y;
            assert(r[t + 1] == y);
        }
        if r.contains(y) {
            let t = choose|t: int| 0 <= t < r.len() && r[t] == y;
            if t > 0 {
                assert(s[t - 1] == y);
            }
        }
    }
}

proof fn lemma_insert_desc_ordered(x: (int, int), s: Seq<(int, int)>)
    requires
        pairs_ordered(s),
        forall|t: int| 0 <= t < s.len() ==> x.1 < (#[trigger] s[t]).1,
    ensures
        pairs_ordered(insert_desc(x, s)),
    decreases s.len(),
{
    let r = insert_desc(x, s);
    if s.len() > 0 && s[0].0 > x.0 {
        let rest = s.drop_first();
        lemma_insert_desc_ordered(x, rest);
        let inner = insert_desc(x, rest);
        assert(r == seq![s[0]] + inner);
        assert forall|i: int, j: int| 0 <= i < j < r.len() implies (#[trigger] r[i]).0
            > (#[trigger] r[j]).0 || (r[i].0 == r[j].0 && r[i].1 < r[j].1) by {
            if i == 0 {
                lemma_insert_desc_elems(x, rest, r[j]);
                if r[j] == x {
                    assert(s[0].0 > x.0);
                } else {
                    let u = choose|u: int| 0 <= u < rest.len() && rest[u] == r[j];
                    assert(s[u + 1] == r[j]);
                }
            } else {
                assert(inner[i - 1] == r[i] && inner[j - 1] == r[j]);
            }
        }
    } else {
        assert(r == seq![x] + s);
        assert forall|i: int, j: int| 0 <= i < j < r.len() implies (#[trigger] r[i]).0
            > (#[trigger] r[j]).0 || (r[i].0 == r[j].0 && r[i].1 < r[j].1) by {
            if i == 0 {
                if s.len() > 0 {
                    assert(s[0].0 <= x.0);
                    if j - 1 > 0 {
                        assert(s[0].0 > s[j - 1].0 || (s[0].0 == s[j - 1].0 && s[0].1 < s[j
                            - 1].1));
                    }
                }
            } else {
                assert(s[i - 1] == r[i] && s[j - 1] == r[j]);
            }
        }
    }
}

proof fn lemma_sort_desc_props(t: Seq<(int, int)>)
    requires
        forall|i: int, j: int| 0 <= i < j < t.len() ==> (#[trigger] t[i]).1 < (#[trigger] t[j]).1,
    ensures
        pairs_ordered(sort_desc(t)),
        forall|y: (int, int)| sort_desc(t).contains(y) <==> t.contains(y),
    decreases t.len(),
{
    if t.len() > 0 {
        let rest = t.drop_first();
        assert forall|i: int, j: int|
            0 <= i < j < rest.len() implies (#[trigger] rest[i]).1 < (#[trigger] rest[j]).1 by {
            assert(rest[i] == t[i + 1] && rest[j] == t[j + 1]);
        }
        lemma_sort_desc_props(rest);
        let inner = sort_desc(rest);
        assert forall|u: int| 0 <= u < inner.len() implies t[0].1 < (#[trigger] inner[u]).1 by {
            assert(inner.contains(inner[u]));
            assert(rest.contains(inner[u]));
            let w = choose|w: int| 0 <= w < rest.len() && rest[w] == inner[u];
            assert(t[w + 1] == inner[u]);
        }
        lemma_insert_desc_ordered(t[0], inner);
        assert forall|y: (int, int)| sort_desc(t).contains(y) <==> t.contains(y) by {
            lemma_insert_desc_elems(t[0], inner, y);
            if y == t[0] {
                assert(t.contains(y)) by {
                    assert(t[0] == y);
                }
            }
            if rest.contains(y) {
                let w = choose|w: int| 0 <= w < rest.len() && rest[w] == y;
                assert(t[w + 1] == y);
            }
            if t.contains(y) && y != t[0] {
                let w = choose|w: int| 0 <= w < t.len() && t[w] == y;
                assert(rest[w - 1] == y);
            }
        }
    }
}

proof fn lemma_pairs_props(c: Seq<AppView>, q: Seq<char>, i: int)
    requires
        0 <= i,
    ensures
        forall|t: int|
            0 <= t < pairs_from(c, q, i).len() ==> {
                let p = #[trigger] pairs_from(c, q, i)[t];
                i <= p.1 < c.len() && p.0 == score_of(c[p.1], q) && p.0 > 0
            },
        forall|t: int, u: int|
            0 <= t < u < pairs_from(c, q, i).len() ==> (#[trigger] pairs_from(c, q, i)[t]).1 < (
            #[trigger] pairs_from(c, q, i)[u]).1,
        forall|k: int|
            i <= k < c.len() && score_of(c[k], q) > 0 ==> pairs_from(c, q, i).contains(
                (score_of(c[k], q), k),
            ),
    decreases c.len() - i,
{
    if 0 <= i < c.len() {
        lemma_pairs_props(c, q, i + 1);
        let rest = pairs_from(c, q, i + 1);
        if score_of(c[i], q) > 0 {
            let r = pairs_from(c, q, i);
            assert(r == seq![(score_of(c[i], q), i)] + rest);
            assert forall|k: int|
                i <= k < c.len() && score_of(c[k], q) > 0 implies r.contains(
                (score_of(c[k], q), k),
            ) by {
                if k == i {
                    assert(r[0] == (score_of(c[i], q), i));
                } else {
                    assert(rest.contains((score_of(c[k], q), k)));
                    let w = choose|w: int| 0 <= w < rest.len() && rest[w] == (score_of(c[k], q), k);
                    assert(r[w + 1] == (score_of(c[k], q), k));
                }
            }
        }
    }
}

/// The model of one executable score pair.
pub open spec fn pview(p: (i64, usize)) -> (int, int) {
    (p.0 as int, p.1 as int)
}

proof fn lemma_insert_desc_at(x: (int, int), s: Seq<(int, int)>, j: int)
    requires
        0 <= j <= s.len(),
        forall|m: int| 0 <= m < j ==> (#[trigger] s[m]).0 > x.0,
        j < s.len() ==> !(s[j].0 > x.0),
    ensures
        insert_desc(x, s) == s.subrange(0, j) + seq![x] + s.subrange(j, s.len() as int),
    decreases j,
{
    if j == 0 {
        assert(s.subrange(0, 0) + seq![x] + s.subrange(0, s.len() as int) =~= seq![x] + s);
    } else {
        lemma_insert_desc_at(x, s.drop_first(), j - 1);
        assert(s.drop_first().subrange(0, j - 1) =~= s.subrange(1, j));
        assert(s.drop_first().subrange(j - 1, s.drop_first().len() as int) =~= s.subrange(
            j,
            s.len() as int,
        ));
        assert(seq![s[0]] + (s.subrange(1, j) + seq![x] + s.subrange(j, s.len() as int))
            =~= s.subrange(0, j) + seq![x] + s.subrange(j, s.len() as int));
    }
}

fn insert_pair(v: &mut Vec<(i64, usize)>, x: (i64, usize))
    ensures
        final(v)@.map_values(|p: (i64, usize)| pview(p)) == insert_desc(
            pview(x),
            old(v)@.map_values(|p: (i64, usize)| pview(p)),
        ),
{
    let ghost s = v@.map_values(|p: (i64, usize)| pview(p));
    let n = v.len();
    let mut j: usize = 0;
    while j < n && v[j].0 > x.0
        invariant
            *v == *old(v),
            s == v@.map_values(|p: (i64, usize)| pview(p)),
            s.len() == n,
            n == v.len(),
            0 <= j <= n,
            forall|m: int| 0 <= m < j ==> (#[trigger] s[m]).0 > pview(x).0,
        decreases n - j,
    {
        j += 1;
    }
    proof {
        lemma_insert_desc_at(pview(x), s, j as int);
    }
    v.insert(j, x);
    proof {
        assert(v@.map_values(|p: (i64, usize)| pview(p)) =~= s.subrange(0, j as int) + seq![
            pview(x),
        ] + s.subrange(j as int, s.len() as int));
    }
}

/// Search ordering: the ranking has strictly descending scores except for
/// ties, ties keep catalog order, every ranked entry scores positive, and
/// every positive-scoring entry is ranked.
pub proof fn lemma_search_ordering(c: Seq<AppView>, q: Seq<char>)
    ensures
        pairs_ordered(search_order(c, q)),
        forall|t: int|
            0 <= t < search_order(c, q).len() ==> {
                let p = #[trigger] search_order(c, q)[t];
                0 <= p.1 < c.len() && p.0 == score_of(c[p.1], q) && p.0 > 0
            },
        forall|k: int|
            0 <= k < c.len() && score_of(c[k], q) > 0 ==> search_order(c, q).contains(
                (score_of(c[k], q), k),
            ),
{
    let t = pairs_from(c, q, 0);
    lemma_pairs_props(c, q, 0);
    lemma_sort_desc_props(t);
    assert forall|k: int|
        0 <= k < search_order(c, q).len() implies {
        let p = #[trigger] search_order(c, q)[k];
        0 <= p.1 < c.len() && p.0 == score_of(c[p.1], q) && p.0 > 0
    } by {
        let p = search_order(c, q)[k];
        assert(search_order(c, q).contains(p));
        assert(t.contains(p));
    }
}

} // verus!
