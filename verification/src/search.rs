//! Search results and the merge / dedup / rank engine.

use vstd::prelude::*;
use vstd::seq_lib::lemma_flatten_concat;
use crate::downloader::SourceAdapter;

verus! {

/// One ranked candidate: a display name, popularity counters, a coarse
/// human-readable size string and the resolved download link (possibly
/// empty when link resolution failed).
///
/// Two results are the same logical candidate exactly when they agree on
/// the `(name, url)` pair; seeder and leecher counts do not enter into
/// identity. Ranking is by `seeders`, descending.
#[derive(Debug, Clone)]
pub struct SearchResult {
    pub name: String,
    pub seeders: u32,
    pub leechers: u32,
    pub size: String,
    pub url: String,
}

/// Identity of two results: the `(name, url)` pair.
pub open spec fn same_identity(a: SearchResult, b: SearchResult) -> bool {
    a.name@ == b.name@ && a.url@ == b.url@
}

/// Some element of `s` shares its identity with `x`.
pub open spec fn contains_identity(s: Seq<SearchResult>, x: SearchResult) -> bool {
    exists|i: int| 0 <= i < s.len() && same_identity(#[trigger] s[i], x)
}

/// No two elements of `s` share an identity.
pub open spec fn distinct_identities(s: Seq<SearchResult>) -> bool {
    forall|i: int, j: int| 0 <= i < j < s.len() ==> !same_identity(#[trigger] s[i], #[trigger] s[j])
}

/// Seeder counts never increase along `s`.
pub open spec fn sorted_desc(s: Seq<SearchResult>) -> bool {
    forall|i: int, j: int| 0 <= i < j < s.len() ==> (#[trigger] s[i]).seeders >= (#[trigger] s[j]).seeders
}

/// Global first-occurrence deduplication: an element is kept exactly when
/// no earlier element of `s` shares its identity.
pub open spec fn dedup_spec(s: Seq<SearchResult>) -> Seq<SearchResult>
    decreases s.len(),
{
    if s.len() == 0 {
        Seq::empty()
    } else {
        let rest = dedup_spec(s.drop_last());
        if contains_identity(s.drop_last(), s.last()) {
            rest
        } else {
            rest.push(s.last())
        }
    }
}

/// Insertion of `x` into a descending-sorted sequence, after every element
/// whose seeder count is greater than or equal to `x`'s (so ties keep their
/// first-seen order).
pub open spec fn insert_desc(s: Seq<SearchResult>, x: SearchResult) -> Seq<SearchResult>
    decreases s.len(),
{
    if s.len() == 0 {
        seq![x]
    } else if s[0].seeders >= x.seeders {
        seq![s[0]] + insert_desc(s.drop_first(), x)
    } else {
        seq![x] + s
    }
}

/// Stable insertion sort by seeder count, descending.
pub open spec fn sort_desc(s: Seq<SearchResult>) -> Seq<SearchResult>
    decreases s.len(),
{
    if s.len() == 0 {
        Seq::empty()
    } else {
        insert_desc(sort_desc(s.drop_last()), s.last())
    }
}

/// The complete fan-in step over the concatenation of all partial lists:
/// deduplicate globally by identity (first occurrence wins), then stable-sort
/// by seeders, descending.
pub open spec fn merge_spec(s: Seq<SearchResult>) -> Seq<SearchResult> {
    sort_desc(dedup_spec(s))
}

impl PartialEq for SearchResult {
    fn eq(&self, other: &Self) -> bool {
        self.name == other.name && self.url == other.url
    }
}

impl vstd::std_specs::cmp::PartialEqSpecImpl for SearchResult {
    open spec fn obeys_eq_spec() -> bool {
        true
    }

    open spec fn eq_spec(&self, other: &Self) -> bool {
        same_identity(*self, *other)
    }
}

impl PartialOrd for SearchResult {
    fn partial_cmp(&self, other: &Self) -> Option<core::cmp::Ordering> {
        if self.seeders < other.seeders {
            Some(core::cmp::Ordering::Less)
        } else if self.seeders == other.seeders {
            Some(core::cmp::Ordering::Equal)
        } else {
            Some(core::cmp::Ordering::Greater)
        }
    }
}

impl vstd::std_specs::cmp::PartialOrdSpecImpl for SearchResult {
    open spec fn obeys_partial_cmp_spec() -> bool {
        true
    }

    open spec fn partial_cmp_spec(&self, other: &Self) -> Option<core::cmp::Ordering> {
        if self.seeders < other.seeders {
            Some(core::cmp::Ordering::Less)
        } else if self.seeders == other.seeders {
            Some(core::cmp::Ordering::Equal)
        } else {
            Some(core::cmp::Ordering::Greater)
        }
    }
}

/// The elements of `dedup_spec(s)` carry exactly the identities found in `s`.
proof fn lemma_dedup_identities(s: Seq<SearchResult>)
    ensures
        forall|y: SearchResult|
            #[trigger] contains_identity(dedup_spec(s), y) <==> contains_identity(s, y),
    decreases s.len(),
{
    if s.len() > 0 {
        lemma_dedup_identities(s.drop_last());
        assert forall|y: SearchResult|
            #[trigger] contains_identity(dedup_spec(s), y) <==> contains_identity(s, y) by {
            let pre = s.drop_last();
            let d = dedup_spec(s);
            let dp = dedup_spec(pre);
            let kept = !contains_identity(pre, s.last());
            assert(d == if kept {
                dp.push(s.last())
            } else {
                dp
            });
            if contains_identity(s, y) {
                let i = choose|i: int| 0 <= i < s.len() && same_identity(#[trigger] s[i], y);
                if i < s.len() - 1 {
                    assert(pre[i] == s[i]);
                    assert(contains_identity(pre, y));
                    assert(contains_identity(dp, y));
                    let j = choose|j: int| 0 <= j < dp.len() && same_identity(#[trigger] dp[j], y);
                    assert(d[j] == dp[j]);
                    assert(contains_identity(d, y));
                } else {
                    if kept {
                        assert(d[d.len() - 1] == s.last());
                        assert(same_identity(d[d.len() - 1], y));
                        assert(contains_identity(d, y));
                    } else {
                        let j = choose|j: int|
                            0 <= j < pre.len() && same_identity(#[trigger] pre[j], s.last());
                        assert(same_identity(pre[j], y));
                        assert(contains_identity(pre, y));
                        assert(contains_identity(dp, y));
                        let k = choose|k: int| 0 <= k < dp.len() && same_identity(#[trigger] dp[k], y);
                        assert(d[k] == dp[k]);
                        assert(contains_identity(d, y));
                    }
                }
            }
            if contains_identity(d, y) {
                let i = choose|i: int| 0 <= i < d.len() && same_identity(#[trigger] d[i], y);
                if kept && i == d.len() - 1 {
                    assert(d[i] == s.last());
                    assert(same_identity(s[s.len() - 1], y));
                    assert(contains_identity(s, y));
                } else {
                    assert(d[i] == dp[i]);
                    assert(contains_identity(dp, y));
                    assert(contains_identity(pre, y));
                    let j = choose|j: int| 0 <= j < pre.len() && same_identity(#[trigger] pre[j], y);
                    assert(s[j] == pre[j]);
                    assert(contains_identity(s, y));
                }
            }
        }
    }
}

/// Deduplication leaves no two elements sharing an identity.
proof fn lemma_dedup_distinct(s: Seq<SearchResult>)
    ensures
        distinct_identities(dedup_spec(s)),
    decreases s.len(),
{
    if s.len() > 0 {
        let pre = s.drop_last();
        lemma_dedup_distinct(pre);
        lemma_dedup_identities(pre);
        if !contains_identity(pre, s.last()) {
            let d = dedup_spec(s);
            let dp = dedup_spec(pre);
            assert forall|i: int, j: int| 0 <= i < j < d.len() implies !same_identity(
                #[trigger] d[i],
                #[trigger] d[j],
            ) by {
                if j < d.len() - 1 {
                    assert(d[i] == dp[i] && d[j] == dp[j]);
                } else {
                    assert(d[i] == dp[i]);
                    if same_identity(dp[i], s.last()) {
                        assert(contains_identity(dp, s.last()));
                    }
                }
            }
        }
    }
}

/// Linear scan for an element of `v` sharing `x`'s identity.
fn holds_identity(v: &Vec<SearchResult>, x: &SearchResult) -> (found: bool)
    ensures
        found == contains_identity(v@, *x),
{
    let mut j: usize = 0;
    while j < v.len()
        invariant
            j <= v@.len(),
            forall|k: int| 0 <= k < j ==> !same_identity(#[trigger] v@[k], *x),
        decreases v@.len() - j,
    {
        if v[j].name == x.name && v[j].url == x.url {
            assert(same_identity(v@[j as int], *x));
            return true;
        }
        j += 1;
    }
    false
}

/// Remove every result whose `(name, url)` identity already occurred earlier
/// in `v`, keeping first occurrences in their original order.
fn dedup_results(v: Vec<SearchResult>) -> (r: Vec<SearchResult>)
    ensures
        r@ == dedup_spec(v@),
{
    let ghost orig = v@;
    let mut rest = v;
    let mut out: Vec<SearchResult> = Vec::new();
    let ghost mut processed: Seq<SearchResult> = Seq::empty();
    while rest.len() > 0
        invariant
            orig == processed + rest@,
            out@ == dedup_spec(processed),
        decreases rest@.len(),
    {
        let x = rest.remove(0);
        proof {
            lemma_dedup_identities(processed);
        }
        let dup = holds_identity(&out, &x);
        if !dup {
            out.push(x);
        }
        proof {
            let stepped = processed.push(x);
            assert(stepped.drop_last() =~= processed);
            assert(stepped.last() == x);
            assert(out@ == dedup_spec(stepped));
            assert(processed + seq![x] =~= stepped);
            assert(orig =~= stepped + rest@);
            processed = stepped;
        }
    }
    proof {
        assert(orig =~= processed);
    }
    out
}

/// Inserting at the boundary position (after every element ranked at least
/// as high as `x`) is what `insert_desc` computes.
proof fn lemma_insert_desc_at(s: Seq<SearchResult>, x: SearchResult, p: int)
    requires
        0 <= p <= s.len(),
        forall|k: int| 0 <= k < p ==> (#[trigger] s[k]).seeders >= x.seeders,
        p == s.len() || s[p].seeders < x.seeders,
    ensures
        insert_desc(s, x) == s.insert(p, x),
    decreases s.len(),
{
    if s.len() == 0 {
        assert(insert_desc(s, x) =~= s.insert(0, x));
    } else if p == 0 {
        assert(s[0].seeders < x.seeders);
        assert(insert_desc(s, x) =~= s.insert(0, x));
    } else {
        assert(s[0].seeders >= x.seeders);
        let rest = s.drop_first();
        assert(forall|k: int| 0 <= k < p - 1 ==> (#[trigger] rest[k]).seeders >= x.seeders);
        lemma_insert_desc_at(rest, x, p - 1);
        assert(seq![s[0]] + rest.insert(p - 1, x) =~= s.insert(p, x));
    }
}

/// Inserting into a sorted sequence keeps it sorted.
proof fn lemma_insert_desc_sorted(s: Seq<SearchResult>, x: SearchResult)
    requires
        sorted_desc(s),
    ensures
        sorted_desc(insert_desc(s, x)),
    decreases s.len(),
{
    if s.len() == 0 {
    } else if s[0].seeders >= x.seeders {
        let rest = s.drop_first();
        assert(forall|k: int| 0 <= k < rest.len() ==> #[trigger] rest[k] == s[k + 1]);
        lemma_insert_desc_sorted(rest, x);
        let ir = insert_desc(rest, x);
        let r = seq![s[0]] + ir;
        assert(r == insert_desc(s, x));
        assert forall|i: int, j: int| 0 <= i < j < r.len() implies (#[trigger] r[i]).seeders
            >= (#[trigger] r[j]).seeders by {
            if i == 0 {
                lemma_insert_desc_members(rest, x, j - 1);
                let e = ir[j - 1];
                assert(r[j] == e);
                if e != x {
                    let k = choose|k: int| 0 <= k < rest.len() && #[trigger] rest[k] == e;
                    assert(s[k + 1] == e);
                    assert(s[0].seeders >= s[k + 1].seeders);
                }
            } else {
                assert(r[i] == ir[i - 1] && r[j] == ir[j - 1]);
                assert(ir[i - 1].seeders >= ir[j - 1].seeders);
            }
        }
    } else {
        let r = seq![x] + s;
        assert(r == insert_desc(s, x));
        assert forall|i: int, j: int| 0 <= i < j < r.len() implies (#[trigger] r[i]).seeders
            >= (#[trigger] r[j]).seeders by {
            if i == 0 {
                assert(r[j] == s[j - 1]);
                if j > 1 {
                    assert(s[0].seeders >= s[j - 1].seeders);
                }
                assert(x.seeders > s[0].seeders);
            } else {
                assert(r[i] == s[i - 1] && r[j] == s[j - 1]);
                assert(s[i - 1].seeders >= s[j - 1].seeders);
            }
        }
    }
}

/// Each element of `insert_desc(s, x)` is `x` or an element of `s`.
proof fn lemma_insert_desc_members(s: Seq<SearchResult>, x: SearchResult, i: int)
    requires
        0 <= i < insert_desc(s, x).len(),
    ensures
        insert_desc(s, x)[i] == x || exists|k: int|
            0 <= k < s.len() && #[trigger] s[k] == insert_desc(s, x)[i],
    decreases s.len(),
{
    if s.len() == 0 {
    } else if s[0].seeders >= x.seeders {
        if i > 0 {
            let rest = s.drop_first();
            lemma_insert_desc_members(rest, x, i - 1);
            let e = insert_desc(s, x)[i];
            assert(e == insert_desc(rest, x)[i - 1]);
            if e != x {
                let k = choose|k: int| 0 <= k < rest.len() && #[trigger] rest[k] == e;
                assert(s[k + 1] == e);
            }
        } else {
            assert(s[0] == insert_desc(s, x)[0]);
        }
    } else {
        if i > 0 {
            assert(s[i - 1] == insert_desc(s, x)[i]);
        }
    }
}

/// `insert_desc` grows the length by one and carries exactly the identities
/// of `s` plus `x`'s.
proof fn lemma_insert_desc_identities(s: Seq<SearchResult>, x: SearchResult)
    ensures
        insert_desc(s, x).len() == s.len() + 1,
        forall|y: SearchResult| #[trigger] contains_identity(insert_desc(s, x), y) <==> (
        contains_identity(s, y) || same_identity(x, y)),
    decreases s.len(),
{
    let r = insert_desc(s, x);
    if s.len() == 0 {
        assert forall|y: SearchResult| #[trigger] contains_identity(r, y) <==> (contains_identity(
            s,
            y,
        ) || same_identity(x, y)) by {
            if same_identity(x, y) {
                assert(same_identity(r[0], y));
            }
            if contains_identity(r, y) {
                let i = choose|i: int| 0 <= i < r.len() && same_identity(#[trigger] r[i], y);
                assert(r[i] == x);
            }
        }
    } else if s[0].seeders >= x.seeders {
        let rest = s.drop_first();
        lemma_insert_desc_identities(rest, x);
        let ir = insert_desc(rest, x);
        assert(r == seq![s[0]] + ir);
        assert forall|y: SearchResult| #[trigger] contains_identity(r, y) <==> (contains_identity(
            s,
            y,
        ) || same_identity(x, y)) by {
            if contains_identity(r, y) {
                let i = choose|i: int| 0 <= i < r.len() && same_identity(#[trigger] r[i], y);
                if i == 0 {
                    assert(same_identity(s[0], y));
                    assert(contains_identity(s, y));
                } else {
                    assert(r[i] == ir[i - 1]);
                    assert(contains_identity(ir, y));
                    if contains_identity(rest, y) {
                        let k = choose|k: int|
                            0 <= k < rest.len() && same_identity(#[trigger] rest[k], y);
                        assert(s[k + 1] == rest[k]);
                        assert(contains_identity(s, y));
                    }
                }
            }
            if contains_identity(s, y) {
                let i = choose|i: int| 0 <= i < s.len() && same_identity(#[trigger] s[i], y);
                if i == 0 {
                    assert(same_identity(r[0], y));
                    assert(contains_identity(r, y));
                } else {
                    assert(rest[i - 1] == s[i]);
                    assert(contains_identity(rest, y));
                    assert(contains_identity(ir, y));
                    let k = choose|k: int| 0 <= k < ir.len() && same_identity(#[trigger] ir[k], y);
                    assert(r[k + 1] == ir[k]);
                    assert(contains_identity(r, y));
                }
            }
            if same_identity(x, y) {
                assert(contains_identity(ir, y));
                let k = choose|k: int| 0 <= k < ir.len() && same_identity(#[trigger] ir[k], y);
                assert(r[k + 1] == ir[k]);
                assert(contains_identity(r, y));
            }
        }
    } else {
        assert(r == seq![x] + s);
        assert forall|y: SearchResult| #[trigger] contains_identity(r, y) <==> (contains_identity(
            s,
            y,
        ) || same_identity(x, y)) by {
            if contains_identity(r, y) {
                let i = choose|i: int| 0 <= i < r.len() && same_identity(#[trigger] r[i], y);
                if i > 0 {
                    assert(s[i - 1] == r[i]);
                    assert(contains_identity(s, y));
                }
            }
            if contains_identity(s, y) {
                let i = choose|i: int| 0 <= i < s.len() && same_identity(#[trigger] s[i], y);
                assert(r[i + 1] == s[i]);
                assert(contains_identity(r, y));
            }
            if same_identity(x, y) {
                assert(same_identity(r[0], y));
            }
        }
    }
}

/// Inserting an element whose identity is absent keeps identities distinct.
proof fn lemma_insert_desc_distinct(s: Seq<SearchResult>, x: SearchResult)
    requires
        distinct_identities(s),
        !contains_identity(s, x),
    ensures
        distinct_identities(insert_desc(s, x)),
    decreases s.len(),
{
    if s.len() == 0 {
    } else if s[0].seeders >= x.seeders {
        let rest = s.drop_first();
        assert(forall|k: int| 0 <= k < rest.len() ==> #[trigger] rest[k] == s[k + 1]);
        if contains_identity(rest, x) {
            let k = choose|k: int| 0 <= k < rest.len() && same_identity(#[trigger] rest[k], x);
            assert(same_identity(s[k + 1], x));
            assert(contains_identity(s, x));
        }
        lemma_insert_desc_distinct(rest, x);
        let ir = insert_desc(rest, x);
        let r = seq![s[0]] + ir;
        assert(r == insert_desc(s, x));
        assert forall|i: int, j: int| 0 <= i < j < r.len() implies !same_identity(
            #[trigger] r[i],
            #[trigger] r[j],
        ) by {
            if i == 0 {
                lemma_insert_desc_members(rest, x, j - 1);
                let e = ir[j - 1];
                assert(r[j] == e);
                if e == x {
                    if same_identity(s[0], x) {
                        assert(contains_identity(s, x));
                    }
                } else {
                    let k = choose|k: int| 0 <= k < rest.len() && #[trigger] rest[k] == e;
                    assert(s[k + 1] == e);
                    assert(!same_identity(s[0], s[k + 1]));
                }
            } else {
                assert(r[i] == ir[i - 1] && r[j] == ir[j - 1]);
                assert(!same_identity(ir[i - 1], ir[j - 1]));
            }
        }
    } else {
        let r = seq![x] + s;
        assert(r == insert_desc(s, x));
        assert forall|i: int, j: int| 0 <= i < j < r.len() implies !same_identity(
            #[trigger] r[i],
            #[trigger] r[j],
        ) by {
            if i == 0 {
                assert(r[j] == s[j - 1]);
                if same_identity(x, s[j - 1]) {
                    assert(same_identity(s[j - 1], x));
                    assert(contains_identity(s, x));
                }
            } else {
                assert(r[i] == s[i - 1] && r[j] == s[j - 1]);
                assert(!same_identity(s[i - 1], s[j - 1]));
            }
        }
    }
}

/// The sort produces a sorted sequence of the same length, carrying exactly
/// the identities of its input; distinct identities stay distinct.
proof fn lemma_sort_desc_props(s: Seq<SearchResult>)
    ensures
        sort_desc(s).len() == s.len(),
        sorted_desc(sort_desc(s)),
        forall|y: SearchResult|
            #[trigger] contains_identity(sort_desc(s), y) <==> contains_identity(s, y),
        distinct_identities(s) ==> distinct_identities(sort_desc(s)),
    decreases s.len(),
{
    if s.len() > 0 {
        let pre = s.drop_last();
        lemma_sort_desc_props(pre);
        let sp = sort_desc(pre);
        lemma_insert_desc_sorted(sp, s.last());
        lemma_insert_desc_identities(sp, s.last());
        assert forall|y: SearchResult|
            #[trigger] contains_identity(sort_desc(s), y) <==> contains_identity(s, y) by {
            if contains_identity(s, y) {
                let i = choose|i: int| 0 <= i < s.len() && same_identity(#[trigger] s[i], y);
                if i < s.len() - 1 {
                    assert(pre[i] == s[i]);
                    assert(contains_identity(pre, y));
                } else {
                    assert(same_identity(s.last(), y));
                }
            }
            if contains_identity(pre, y) {
                let i = choose|i: int| 0 <= i < pre.len() && same_identity(#[trigger] pre[i], y);
                assert(s[i] == pre[i]);
                assert(contains_identity(s, y));
            }
            if same_identity(s.last(), y) {
                assert(same_identity(s[s.len() - 1], y));
                assert(contains_identity(s, y));
            }
        }
        if distinct_identities(s) {
            assert forall|i: int, j: int| 0 <= i < j < pre.len() implies !same_identity(
                #[trigger] pre[i],
                #[trigger] pre[j],
            ) by {
                assert(pre[i] == s[i] && pre[j] == s[j]);
            }
            if contains_identity(pre, s.last()) {
                let k = choose|k: int|
                    0 <= k < pre.len() && same_identity(#[trigger] pre[k], s.last());
                assert(same_identity(s[k], s[s.len() - 1]));
            }
            assert(!contains_identity(sp, s.last()));
            lemma_insert_desc_distinct(sp, s.last());
        }
    }
}

/// Stable insertion sort by seeder count, descending.
fn sort_results(v: Vec<SearchResult>) -> (r: Vec<SearchResult>)
    ensures
        r@ == sort_desc(v@),
{
    let ghost orig = v@;
    let mut rest = v;
    let mut out: Vec<SearchResult> = Vec::new();
    let ghost mut processed: Seq<SearchResult> = Seq::empty();
    while rest.len() > 0
        invariant
            orig == processed + rest@,
            out@ == sort_desc(processed),
        decreases rest@.len(),
    {
        let x = rest.remove(0);
        let mut p: usize = 0;
        while p < out.len() && out[p].seeders >= x.seeders
            invariant
                p <= out@.len(),
                forall|k: int| 0 <= k < p ==> (#[trigger] out@[k]).seeders >= x.seeders,
            decreases out@.len() - p,
        {
            p += 1;
        }
        proof {
            lemma_insert_desc_at(out@, x, p as int);
            let stepped = processed.push(x);
            assert(stepped.drop_last() =~= processed);
            assert(sort_desc(stepped) == insert_desc(sort_desc(processed), x));
            assert(orig =~= stepped + rest@);
            processed = stepped;
        }
        out.insert(p, x);
    }
    proof {
        assert(orig =~= processed);
    }
    out
}

/// The fan-in step of a search: deduplicate the concatenation of all partial
/// result lists globally by `(name, url)` identity, keeping the first
/// occurrence of each identity, then stable-sort by seeders, descending.
pub fn merge_rank(combined: Vec<SearchResult>) -> (r: Vec<SearchResult>)
    ensures
        r@ == merge_spec(combined@),
        sorted_desc(r@),
        distinct_identities(r@),
{
    let ghost input = combined@;
    let deduped = dedup_results(combined);
    let r = sort_results(deduped);
    proof {
        lemma_dedup_distinct(input);
        lemma_sort_desc_props(dedup_spec(input));
    }
    r
}

/// Law: the merged output of any combined result sequence is ranked by
/// seeder count, descending.
pub proof fn lemma_merge_sorted(s: Seq<SearchResult>)
    ensures
        sorted_desc(merge_spec(s)),
{
    lemma_sort_desc_props(dedup_spec(s));
}

/// Law: for any combined result sequence, the merged output holds each
/// `(name, url)` identity occurring anywhere in the input exactly once —
/// no two output entries share an identity, and an identity appears in the
/// output if and only if it appears in the input.
pub proof fn lemma_merge_identities(s: Seq<SearchResult>)
    ensures
        distinct_identities(merge_spec(s)),
        forall|y: SearchResult|
            #[trigger] contains_identity(merge_spec(s), y) <==> contains_identity(s, y),
{
    lemma_dedup_distinct(s);
    lemma_dedup_identities(s);
    lemma_sort_desc_props(dedup_spec(s));
}

/// `insert_desc` carries exactly the values of `s` plus `x`.
proof fn lemma_insert_desc_appears(s: Seq<SearchResult>, x: SearchResult)
    ensures
        forall|y: SearchResult| #[trigger] insert_desc(s, x).contains(y) <==> (s.contains(y) || y
            == x),
    decreases s.len(),
{
    let r = insert_desc(s, x);
    if s.len() == 0 {
        assert forall|y: SearchResult| #[trigger] r.contains(y) <==> (s.contains(y) || y == x) by {
            if y == x {
                assert(r[0] == y);
            }
        }
    } else if s[0].seeders >= x.seeders {
        let rest = s.drop_first();
        lemma_insert_desc_appears(rest, x);
        let ir = insert_desc(rest, x);
        assert(r == seq![s[0]] + ir);
        assert forall|y: SearchResult| #[trigger] r.contains(y) <==> (s.contains(y) || y == x) by {
            if r.contains(y) {
                let i = choose|i: int| 0 <= i < r.len() && r[i] == y;
                if i == 0 {
                    assert(s[0] == y);
                    assert(s.contains(y));
                } else {
                    assert(ir[i - 1] == y);
                    assert(ir.contains(y));
                    if rest.contains(y) {
                        let k = choose|k: int| 0 <= k < rest.len() && rest[k] == y;
                        assert(s[k + 1] == y);
                        assert(s.contains(y));
                    }
                }
            }
            if s.contains(y) {
                let i = choose|i: int| 0 <= i < s.len() && s[i] == y;
                if i == 0 {
                    assert(r[0] == y);
                } else {
                    assert(rest[i - 1] == y);
                    assert(rest.contains(y));
                    assert(ir.contains(y));
                    let k = choose|k: int| 0 <= k < ir.len() && ir[k] == y;
                    assert(r[k + 1] == y);
                }
                assert(r.contains(y));
            }
            if y == x {
                assert(ir.contains(y));
                let k = choose|k: int| 0 <= k < ir.len() && ir[k] == y;
                assert(r[k + 1] == y);
                assert(r.contains(y));
            }
        }
    } else {
        assert(r == seq![x] + s);
        assert forall|y: SearchResult| #[trigger] r.contains(y) <==> (s.contains(y) || y == x) by {
            if r.contains(y) {
                let i = choose|i: int| 0 <= i < r.len() && r[i] == y;
                if i > 0 {
                    assert(s[i - 1] == y);
                    assert(s.contains(y));
                }
            }
            if s.contains(y) {
                let i = choose|i: int| 0 <= i < s.len() && s[i] == y;
                assert(r[i + 1] == y);
                assert(r.contains(y));
            }
            if y == x {
                assert(r[0] == y);
                assert(r.contains(y));
            }
        }
    }
}

/// The sort carries exactly the values of its input.
proof fn lemma_sort_desc_appears(s: Seq<SearchResult>)
    ensures
        forall|y: SearchResult| #[trigger] sort_desc(s).contains(y) <==> s.contains(y),
    decreases s.len(),
{
    if s.len() > 0 {
        let pre = s.drop_last();
        lemma_sort_desc_appears(pre);
        lemma_insert_desc_appears(sort_desc(pre), s.last());
        assert forall|y: SearchResult| #[trigger] sort_desc(s).contains(y) <==> s.contains(y) by {
            if pre.contains(y) {
                let i = choose|i: int| 0 <= i < pre.len() && pre[i] == y;
                assert(s[i] == y);
                assert(s.contains(y));
            }
            if s.contains(y) && y != s.last() {
                let i = choose|i: int| 0 <= i < s.len() && s[i] == y;
                if i < s.len() - 1 {
                    assert(pre[i] == y);
                    assert(pre.contains(y));
                }
            }
            assert(s[s.len() - 1] == s.last());
        }
    }
}

/// A first occurrence survives deduplication unchanged.
proof fn lemma_dedup_keeps_first(s: Seq<SearchResult>, i: int)
    requires
        0 <= i < s.len(),
        forall|j: int| 0 <= j < i ==> !same_identity(#[trigger] s[j], s[i]),
    ensures
        dedup_spec(s).contains(s[i]),
    decreases s.len(),
{
    let pre = s.drop_last();
    let d = dedup_spec(s);
    let dp = dedup_spec(pre);
    if i == s.len() - 1 {
        if contains_identity(pre, s.last()) {
            let j = choose|j: int| 0 <= j < pre.len() && same_identity(#[trigger] pre[j], s.last());
            assert(same_identity(s[j], s[i]));
        }
        assert(d == dp.push(s.last()));
        assert(d[d.len() - 1] == s[i]);
        assert(d.contains(s[i]));
    } else {
        assert(pre[i] == s[i]);
        lemma_dedup_keeps_first(pre, i);
        let k = choose|k: int| 0 <= k < dp.len() && dp[k] == pre[i];
        assert(d[k] == dp[k]);
        assert(d.contains(s[i]));
    }
}

/// Law: for any entry of the combined input whose identity has no earlier
/// occurrence, the merged output keeps that entry itself — the first
/// occurrence is retained, fields and all, whatever later duplicates carry.
pub proof fn lemma_merge_keeps_first_occurrence(s: Seq<SearchResult>, i: int)
    requires
        0 <= i < s.len(),
        forall|j: int| 0 <= j < i ==> !same_identity(#[trigger] s[j], s[i]),
    ensures
        merge_spec(s).contains(s[i]),
{
    lemma_dedup_keeps_first(s, i);
    lemma_sort_desc_appears(dedup_spec(s));
}

/// Law: an adapter that contributes an empty partial list leaves the merged
/// output exactly what the remaining adapters alone would produce.
pub proof fn lemma_empty_partial_isolated(parts: Seq<Seq<SearchResult>>, i: int)
    requires
        0 <= i < parts.len(),
        parts[i] == Seq::<SearchResult>::empty(),
    ensures
        merge_spec(parts.flatten()) == merge_spec(parts.remove(i).flatten()),
{
    let a = parts.subrange(0, i);
    let m = seq![parts[i]];
    let b = parts.subrange(i + 1, parts.len() as int);
    assert(parts =~= a + (m + b));
    lemma_flatten_concat(a, m + b);
    lemma_flatten_concat(m, b);
    m.lemma_flatten_one_element();
    assert(m.flatten() =~= Seq::<SearchResult>::empty());
    assert(parts.remove(i) =~= a + b);
    lemma_flatten_concat(a, b);
    assert(parts.flatten() =~= parts.remove(i).flatten());
}

/// The orchestrator: an ordered, immutable-after-construction collection of
/// source adapters, queried together on each search.
pub struct Searcher<A: SourceAdapter> {
    pub adapters: Vec<A>,
}

impl<A: SourceAdapter> Searcher<A> {
    pub fn new() -> (s: Self)
        ensures
            s.adapters@.len() == 0,
    {
        Self { adapters: Vec::new() }
    }

    /// Appends one adapter, returning the searcher for chaining.
    pub fn using(self, adapter: A) -> (s: Self)
        ensures
            s.adapters@ == self.adapters@.push(adapter),
    {
        let mut s = self;
        s.adapters.push(adapter);
        s
    }

    /// Queries every registered adapter in order for `terms`, concatenates
    /// the partial lists (an adapter whose listing fetch fails contributes
    /// an empty one), and returns the merged output: globally deduplicated
    /// by `(name, url)` identity with first occurrences kept, stable-sorted
    /// by seeders, descending. An empty adapter registry, or all adapters
    /// returning nothing, yields an empty list, not an error.
    pub fn search(&self, terms: &str) -> (r: Vec<SearchResult>)
        ensures
            sorted_desc(r@),
            distinct_identities(r@),
            exists|parts: Seq<Seq<SearchResult>>|
                parts.len() == self.adapters@.len() && r@ == merge_spec(parts.flatten()),
    {
        let mut all: Vec<SearchResult> = Vec::new();
        let ghost mut parts: Seq<Seq<SearchResult>> = Seq::empty();
        let mut i: usize = 0;
        while i < self.adapters.len()
            invariant
                i <= self.adapters@.len(),
                parts.len() == i,
                all@ == parts.flatten(),
            decreases self.adapters@.len() - i,
        {
            let adapter = &self.adapters[i];
            let url = adapter.build_url(terms);
            let document = adapter.get_document(url);
            let mut partial = match document {
                Some(d) => adapter.select_results(d),
                None => Vec::new(),
            };
            proof {
                parts.lemma_flatten_push(partial@);
                parts = parts.push(partial@);
            }
            all.append(&mut partial);
            i += 1;
        }
        let merged = merge_rank(all);
        proof {
            assert(parts.len() == self.adapters@.len() && merged@ == merge_spec(parts.flatten()));
        }
        merged
    }
}

impl<A: SourceAdapter> Default for Searcher<A> {
    fn default() -> (s: Self)
        ensures
            s.adapters@.len() == 0,
    {
        Self::new()
    }
}

} // verus!
