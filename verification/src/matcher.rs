//! The matcher: query normalization, fuzzy scoring of every key in a
//! namespace, the minimum-score filter, descending ordering, and the result
//! cap.

use vstd::prelude::*;
use vstd::seq_lib::group_to_multiset_ensures;
use crate::NixOSOption;
use crate::store::OptionsMap;
use crate::text::{trim_spec, starts_with_seq};

verus! {

/// What the fuzzy scorer returns for a choice string and a pattern: nothing
/// when the pattern is no subsequence of the choice, else the score and the
/// matched character positions.
pub uninterp spec fn fuzzy_result(choice: Seq<char>, pattern: Seq<char>) -> Option<
    (i64, Seq<usize>),
>;

/// Scores one key against the normalized query.
///
/// Relies on `fuzzy_matcher::skim::SkimMatcherV2::fuzzy_indices` on the
/// default, smart-case matcher: the result is a function of the two strings
/// alone, and when it is a match, the positions are strictly increasing
/// character indices into the choice string.
#[verifier::external_body]
fn fuzzy_indices(choice: &str, pattern: &str) -> (r: Option<(i64, Vec<usize>)>)
    ensures
        match r {
            Some(p) => fuzzy_result(choice@, pattern@) == Some((p.0, p.1@)) && (forall|a: int, b: int|
                0 <= a < b < p.1@.len() ==> p.1@[a] < p.1@[b]) && (forall|a: int|
                0 <= a < p.1@.len() ==> (#[trigger] p.1@[a]) < choice@.len()),
            None => fuzzy_result(choice@, pattern@) is None,
        },
{
    let m = fuzzy_matcher::skim::SkimMatcherV2::default().smart_case();
    fuzzy_matcher::FuzzyMatcher::fuzzy_indices(&m, choice, pattern)
}

/// The score and positions used for ranking: a key the scorer rejects counts
/// as score zero with no matched positions.
pub open spec fn fuzzy_or_zero(choice: Seq<char>, pattern: Seq<char>) -> (i64, Seq<usize>) {
    match fuzzy_result(choice, pattern) {
        Some(p) => p,
        None => (0i64, Seq::empty()),
    }
}

/// Spaces become the path separator in a normalized query.
pub open spec fn replace_spaces(s: Seq<char>) -> Seq<char> {
    s.map_values(|c: char| if c == ' ' { '.' } else { c })
}

/// What a namespace makes of a raw query: nothing unless the query starts
/// with the namespace's prefix; else the rest of the query, trimmed, with
/// space runs turned into path separators.
pub open spec fn normalized_query(input: Seq<char>, prefix: Seq<char>) -> Option<Seq<char>> {
    if starts_with_seq(input, 0, prefix) {
        Some(replace_spaces(trim_spec(input.skip(prefix.len() as int))))
    } else {
        None
    }
}

/// Strips the namespace prefix and normalizes the query, or reports that the
/// namespace is not addressed.
pub fn normalize_query(input: &str, prefix: &str) -> (r: Option<String>)
    ensures
        match r {
            Some(s) => normalized_query(input@, prefix@) == Some(s@),
            None => normalized_query(input@, prefix@) is None,
        },
{
    let v = crate::text::str_to_chars(input);
    if !crate::text::starts_with_at(&v, 0, prefix) {
        return None;
    }
    let m = prefix.unicode_len();
    let mut rest: Vec<char> = Vec::new();
    crate::text::push_char_range(&mut rest, &v, m, v.len());
    proof {
        assert(rest@ =~= input@.skip(prefix@.len() as int));
    }
    let trimmed = crate::text::trim_chars(&rest);
    let mut mapped: Vec<char> = Vec::new();
    let mut i: usize = 0;
    while i < trimmed.len()
        invariant
            i <= trimmed@.len(),
            mapped@ == replace_spaces(trimmed@).subrange(0, i as int),
        decreases trimmed@.len() - i,
    {
        let c = trimmed[i];
        if c == ' ' {
            mapped.push('.');
        } else {
            mapped.push(c);
        }
        i = i + 1;
        proof {
            assert(mapped@ =~= replace_spaces(trimmed@).subrange(0, i as int));
        }
    }
    proof {
        assert(mapped@ =~= replace_spaces(trimmed@));
    }
    Some(crate::text::chars_to_string(&mapped))
}

/// One candidate: the key, where its record stands in the namespace's entry
/// list, its score, and the matched character positions within the key.
pub struct MatchCandidate {
    pub key: String,
    pub record_idx: usize,
    pub score: i64,
    pub indices: Vec<usize>,
}

/// The ranking-relevant view of a candidate.
pub open spec fn cand_view(c: MatchCandidate) -> (int, i64, Seq<usize>) {
    (c.record_idx as int, c.score, c.indices@)
}

/// The ranking-relevant views of a candidate list.
pub open spec fn cand_views(s: Seq<MatchCandidate>) -> Seq<(int, i64, Seq<usize>)> {
    s.map_values(|c: MatchCandidate| cand_view(c))
}

/// The candidates a namespace yields for a query, in entry order: every
/// entry whose score strictly exceeds the minimum, with its score and
/// matched positions.
pub open spec fn scored_from(
    entries: Seq<(String, NixOSOption)>,
    pattern: Seq<char>,
    min: i64,
    i: int,
) -> Seq<(int, i64, Seq<usize>)>
    decreases entries.len() - i
    when 0 <= i <= entries.len()
{
    if i >= entries.len() {
        Seq::empty()
    } else {
        let sc = fuzzy_or_zero(entries[i].0@, pattern);
        if sc.0 > min {
            seq![(i, sc.0, sc.1)] + scored_from(entries, pattern, min, i + 1)
        } else {
            scored_from(entries, pattern, min, i + 1)
        }
    }
}

/// The candidates a namespace yields for a query.
pub open spec fn scored(
    entries: Seq<(String, NixOSOption)>,
    pattern: Seq<char>,
    min: i64,
) -> Seq<(int, i64, Seq<usize>)> {
    scored_from(entries, pattern, min, 0)
}

/// The minimum-score boundary: every candidate kept scores strictly above
/// the threshold, and an entry is kept exactly when its score does; one that
/// scores exactly the threshold is discarded.
pub proof fn lemma_score_threshold(
    entries: Seq<(String, NixOSOption)>,
    pattern: Seq<char>,
    min: i64,
    i: int,
)
    requires
        0 <= i <= entries.len(),
    ensures
        forall|q: int| 0 <= q < scored_from(entries, pattern, min, i).len() ==> {
            let e = #[trigger] scored_from(entries, pattern, min, i)[q];
            i <= e.0 < entries.len() && e.1 > min && e.1 == fuzzy_or_zero(
                entries[e.0].0@,
                pattern,
            ).0 && e.2 == fuzzy_or_zero(entries[e.0].0@, pattern).1
        },
        forall|e: int| i <= e < entries.len() && fuzzy_or_zero(entries[e].0@, pattern).0 > min
            ==> exists|q: int| 0 <= q < scored_from(entries, pattern, min, i).len() && (
        #[trigger] scored_from(entries, pattern, min, i)[q]).0 == e,
        forall|e: int| i <= e < entries.len() && !(fuzzy_or_zero(entries[e].0@, pattern).0 > min)
            ==> forall|q: int| 0 <= q < scored_from(entries, pattern, min, i).len() ==> (
        #[trigger] scored_from(entries, pattern, min, i)[q]).0 != e,
    decreases entries.len() - i,
{
    if i < entries.len() {
        lemma_score_threshold(entries, pattern, min, i + 1);
        let s = scored_from(entries, pattern, min, i);
        let s1 = scored_from(entries, pattern, min, i + 1);
        let sc = fuzzy_or_zero(entries[i].0@, pattern);
        if sc.0 > min {
            assert(s == seq![(i, sc.0, sc.1)] + s1);
            assert(forall|e: int| i <= e < entries.len() && fuzzy_or_zero(
                entries[e].0@,
                pattern,
            ).0 > min ==> exists|q: int| 0 <= q < s.len() && (#[trigger] s[q]).0 == e) by {
                assert forall|e: int|
                    i <= e < entries.len() && fuzzy_or_zero(entries[e].0@, pattern).0 > min
                    implies exists|q: int| 0 <= q < s.len() && (#[trigger] s[q]).0 == e by {
                    if e == i {
                        assert(s[0].0 == i);
                    } else {
                        let q1 = choose|q1: int| 0 <= q1 < s1.len() && (#[trigger] s1[q1]).0 == e;
                        assert(s[q1 + 1].0 == e);
                    }
                }
            }
        }
    }
}

/// Candidates ordered by weakly descending score.
pub open spec fn sorted_desc(s: Seq<MatchCandidate>) -> bool {
    forall|a: int, b: int| 0 <= a < b < s.len() ==> s[a].score >= s[b].score
}

/// Scores every key of the namespace against the pattern and keeps, in entry
/// order, exactly those that score strictly above the minimum.
pub fn score_candidates(map: &OptionsMap, pattern: &str, min_score: i64) -> (r: Vec<
    MatchCandidate,
>)
    ensures
        cand_views(r@) == scored(map.entries@, pattern@, min_score),
        forall|q: int| 0 <= q < r@.len() ==> (#[trigger] r@[q]).record_idx < map.entries@.len()
            && r@[q].key == map.entries@[r@[q].record_idx as int].0,
{
    let ghost target = scored(map.entries@, pattern@, min_score);
    let mut out: Vec<MatchCandidate> = Vec::new();
    let mut i: usize = 0;
    proof {
        assert(out@.map_values(|c: MatchCandidate| cand_view(c)) + scored_from(
            map.entries@,
            pattern@,
            min_score,
            0,
        ) =~= target);
    }
    while i < map.entries.len()
        invariant
            i <= map.entries@.len(),
            out@.map_values(|c: MatchCandidate| cand_view(c)) + scored_from(
                map.entries@,
                pattern@,
                min_score,
                i as int,
            ) == scored(map.entries@, pattern@, min_score),
            forall|q: int| 0 <= q < out@.len() ==> (#[trigger] out@[q]).record_idx
                < map.entries@.len() && out@[q].key == map.entries@[out@[q].record_idx as int].0,
        decreases map.entries@.len() - i,
    {
        let entry_key = map.entries[i].0.as_str();
        let res = fuzzy_indices(entry_key, pattern);
        let (score, indices) = match res {
            Some(p) => p,
            None => (0i64, Vec::new()),
        };
        proof {
            assert((score, indices@) == fuzzy_or_zero(map.entries@[i as int].0@, pattern@));
        }
        if score > min_score {
            let c = MatchCandidate {
                key: map.entries[i].0.clone(),
                record_idx: i,
                score,
                indices,
            };
            out.push(c);
            proof {
                assert(out@.map_values(|c: MatchCandidate| cand_view(c)) =~= out@.drop_last()
                    .map_values(|c: MatchCandidate| cand_view(c)).push(cand_view(out@.last())));
            }
        }
        i = i + 1;
        proof {
            assert(out@.map_values(|c: MatchCandidate| cand_view(c)) + scored_from(
                map.entries@,
                pattern@,
                min_score,
                i as int,
            ) =~= scored(map.entries@, pattern@, min_score));
        }
    }
    proof {
        assert(out@.map_values(|c: MatchCandidate| cand_view(c)) =~= scored(
            map.entries@,
            pattern@,
            min_score,
        ));
    }
    out
}

/// Orders the candidates by descending score.  Candidates with equal scores
/// keep no particular order.
pub fn sort_candidates(v: &mut Vec<MatchCandidate>)
    ensures
        sorted_desc(final(v)@),
        final(v)@.to_multiset() == old(v)@.to_multiset(),
{
    broadcast use group_to_multiset_ensures;
    broadcast use vstd::multiset::group_multiset_axioms;

    let ghost orig = v@;
    let mut out: Vec<MatchCandidate> = Vec::new();
    while v.len() > 0
        invariant
            sorted_desc(out@),
            forall|a: int, b: int| 0 <= a < out@.len() && 0 <= b < v@.len() ==> (
            #[trigger] out@[a]).score >= (#[trigger] v@[b]).score,
            out@.to_multiset().add(v@.to_multiset()) == orig.to_multiset(),
        decreases v@.len(),
    {
        let mut m: usize = 0;
        let mut j: usize = 1;
        while j < v.len()
            invariant
                m < j <= v@.len() || (j <= v@.len() && m == 0),
                m < v@.len(),
                0 < v@.len(),
                forall|q: int| 0 <= q < j ==> (#[trigger] v@[q]).score <= v@[m as int].score,
            decreases v@.len() - j,
        {
            if v[j].score > v[m].score {
                m = j;
            }
            j = j + 1;
        }
        let ghost vbefore = v@;
        let ghost outbefore = out@;
        let x = v.remove(m);
        proof {
            assert(vbefore[m as int] == x);
            assert(vbefore.contains(x));
            vstd::seq_lib::to_multiset_contains::<MatchCandidate>(vbefore, x);
            vstd::seq_lib::to_multiset_remove::<MatchCandidate>(vbefore, m as int);
            assert(vbefore.to_multiset().count(x) > 0);
            assert(v@.to_multiset() =~= vbefore.to_multiset().remove(x));
        }
        out.push(x);
        proof {
            vstd::seq_lib::to_multiset_build::<MatchCandidate>(outbefore, x);
            assert(out@.to_multiset() =~= outbefore.to_multiset().insert(x));
            assert(out@.to_multiset().add(v@.to_multiset()) =~= orig.to_multiset());
        }
    }
    *v = out;
    proof {
        assert(v@.to_multiset().add(Seq::<MatchCandidate>::empty().to_multiset())
            =~= v@.to_multiset());
    }
}

/// How the result cap truncates an ordered candidate list: a positive cap
/// keeps at most that many from the front; a cap of zero or no cap keeps
/// everything.
pub open spec fn truncated<T>(s: Seq<T>, max_entries: Option<usize>) -> Seq<T> {
    match max_entries {
        Some(m) => if m > 0 && (m as int) < s.len() {
            s.take(m as int)
        } else {
            s
        },
        None => s,
    }
}

/// Applies the result cap.
pub fn truncate_candidates(v: &mut Vec<MatchCandidate>, max_entries: Option<usize>)
    ensures
        final(v)@ == truncated(old(v)@, max_entries),
{
    match max_entries {
        Some(m) => {
            if m > 0 {
                if m < v.len() {
                    v.truncate(m);
                    proof {
                        assert(v@ =~= truncated(old(v)@, max_entries));
                    }
                }
            }
        },
        None => {},
    }
}

/// The cap keeps the highest-scoring candidates: after ordering, each of the
/// first `k` candidates scores at least as much as every candidate beyond
/// the first `k`.
pub proof fn lemma_truncated_top(s: Seq<MatchCandidate>, k: int)
    requires
        sorted_desc(s),
        0 <= k <= s.len(),
    ensures
        s.take(k).len() == k,
        forall|a: int, b: int| 0 <= a < k && k <= b < s.len() ==> (#[trigger] s.take(k)[a]).score
            >= (#[trigger] s[b]).score,
{
}

} // verus!
