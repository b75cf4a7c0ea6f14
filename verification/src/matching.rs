//! The match oracle: fuzzy matching of one query against one candidate string,
//! and the choice of the best match among the searchable strings of one entry.

use crate::text::strings_view;
use nucleo_matcher::pattern::{Atom, AtomKind, CaseMatching, Normalization};
use nucleo_matcher::{Config, Matcher, Utf32Str};
use vstd::prelude::*;
use vstd::string::*;

verus! {

/// The fuzzy matching engine of `nucleo_matcher`. It carries scratch memory and a
/// configuration; nothing inside it is visible to the verifier.
#[verifier::external_type_specification]
#[verifier::external_body]
pub struct ExMatcher(Matcher);

/// What `nucleo_matcher` answers for `query` against `candidate` when it runs a
/// single literal fuzzy atom, case ignored and with smart normalization, on a
/// matcher with the default configuration: `None` for no match, else the score and
/// the positions of the matched characters within the candidate, counted as the
/// matcher counts them.
pub uninterp spec fn fuzzy_match(query: Seq<char>, candidate: Seq<char>) -> Option<(u16, Seq<u32>)>;

/// One successful match: its score and the matched character positions.
#[derive(Debug)]
pub struct Match {
    pub score: u16,
    pub positions: Vec<u32>,
}

impl Match {
    /// The match as a pair of plain values.
    pub open spec fn view(&self) -> (u16, Seq<u32>) {
        (self.score, self.positions@)
    }
}

/// The view of an optional match.
pub open spec fn match_view(m: Option<Match>) -> Option<(u16, Seq<u32>)> {
    match m {
        Some(found) => Some(found@),
        None => None,
    }
}

/// The longest query that is handed to the matcher, in characters. Up to this
/// length the matcher's score, which grows with every matched character, stays
/// within its sixteen bits.
pub const MAX_QUERY: usize = 2048;

/// Calls `Atom::new` and `Atom::indices` of `nucleo_matcher` (with `Utf32Str::new`
/// for the candidate), after resetting the matcher to `Config::DEFAULT`.
///
/// Trusted: the result is the crate's answer for this query and candidate, which
/// depends on the two strings alone once the configuration is fixed. The matcher
/// panics on candidates of more than `u32::MAX` characters, and its score can
/// overflow on queries of more than `MAX_QUERY` characters; `requires` leaves
/// both out.
#[verifier::external_body]
fn oracle_indices(matcher: &mut Matcher, query: &str, candidate: &str) -> (r: Option<Match>)
    requires
        candidate@.len() <= u32::MAX,
        query@.len() <= MAX_QUERY,
    ensures
        match_view(r) == fuzzy_match(query@, candidate@),
{
    matcher.config = Config::DEFAULT;
    let atom = Atom::new(query, CaseMatching::Ignore, Normalization::Smart, AtomKind::Fuzzy, false);
    let mut buf = Vec::new();
    let mut positions = Vec::new();
    let score = atom.indices(Utf32Str::new(candidate, &mut buf), matcher, &mut positions);
    score.map(|score| Match { score, positions })
}

/// Calls `Matcher::new` of `nucleo_matcher` with `Config::DEFAULT`: a fresh matcher
/// with its scratch memory. Nothing is claimed of it.
#[verifier::external_body]
pub(crate) fn new_matcher() -> Matcher {
    Matcher::new(Config::DEFAULT)
}

/// The oracle's answer for one candidate. Queries of more than `MAX_QUERY`
/// characters and candidates of more than `u32::MAX` characters are beyond the
/// matcher's limits and never match.
pub open spec fn match_of(query: Seq<char>, candidate: Seq<char>) -> Option<(u16, Seq<u32>)> {
    if query.len() <= MAX_QUERY && candidate.len() <= u32::MAX {
        fuzzy_match(query, candidate)
    } else {
        None
    }
}

/// Matches `query` against `candidate`.
pub fn match_candidate(matcher: &mut Matcher, query: &str, candidate: &str) -> (r: Option<Match>)
    ensures
        match_view(r) == match_of(query@, candidate@),
{
    let asked: usize = query.unicode_len();
    let n: usize = candidate.unicode_len();
    if asked <= MAX_QUERY && n <= 0xffff_ffff {
        oracle_indices(matcher, query, candidate)
    } else {
        None
    }
}

/// The views of a list of optional matches.
pub open spec fn matches_view(matches: Seq<Option<Match>>) -> Seq<Option<(u16, Seq<u32>)>> {
    Seq::new(matches.len(), |i: int| match_view(matches[i]))
}

/// The score of a match; only meaningful on `Some`.
pub open spec fn score_of(m: Option<(u16, Seq<u32>)>) -> int {
    match m {
        Some(found) => found.0 as int,
        None => -1,
    }
}

/// The matched character positions of a match; empty on `None`.
pub open spec fn positions_of(m: Option<(u16, Seq<u32>)>) -> Seq<u32> {
    match m {
        Some(found) => found.1,
        None => Seq::empty(),
    }
}

/// `k` is the position of the winning match in `results`: it is a match, no match
/// scores higher, and every match before it scores strictly lower.
pub open spec fn is_best(results: Seq<Option<(u16, Seq<u32>)>>, k: int) -> bool {
    &&& 0 <= k < results.len()
    &&& results[k] is Some
    &&& forall|j: int| 0 <= j < results.len() ==> score_of(#[trigger] results[j]) <= score_of(results[k])
    &&& forall|j: int| 0 <= j < k ==> score_of(#[trigger] results[j]) < score_of(results[k])
}

/// The winning match of `results`: the first one with the highest score, or `None`
/// where nothing matched.
pub open spec fn best_of(results: Seq<Option<(u16, Seq<u32>)>>) -> Option<(u16, Seq<u32>)> {
    if exists|k: int| is_best(results, k) {
        results[choose|k: int| is_best(results, k)]
    } else {
        None
    }
}

/// At most one position wins.
pub proof fn lemma_best_unique(results: Seq<Option<(u16, Seq<u32>)>>, a: int, b: int)
    requires
        is_best(results, a),
        is_best(results, b),
    ensures
        a == b,
{
    if a < b {
        assert(score_of(results[a]) < score_of(results[b]));
    } else if b < a {
        assert(score_of(results[b]) < score_of(results[a]));
    }
}

/// Picks the winning match among the results for one entry's searchable strings.
pub fn best_result(results: Vec<Option<Match>>) -> (best: Option<Match>)
    ensures
        match_view(best) == best_of(matches_view(results@)),
        best is None <==> forall|j: int| 0 <= j < results@.len() ==> results@[j] is None,
{
    let ghost all = matches_view(results@);
    let mut rest = results;
    let mut best: Option<Match> = None;
    let ghost mut at: int = rest@.len() as int;
    while rest.len() > 0
        invariant
            rest@.len() <= all.len(),
            all.len() == results@.len(),
            matches_view(rest@) == all.subrange(0, rest@.len() as int),
            best is None ==> forall|j: int| rest@.len() <= j < all.len() ==> (#[trigger] all[j]) is None,
            best is Some ==> {
                &&& rest@.len() <= at < all.len()
                &&& all[at] == match_view(best)
                &&& forall|j: int|
                    rest@.len() <= j < all.len() ==> score_of(#[trigger] all[j]) <= score_of(all[at])
                &&& forall|j: int|
                    rest@.len() <= j < at ==> score_of(#[trigger] all[j]) < score_of(all[at])
            },
        decreases rest@.len(),
    {
        let ghost before = rest@;
        let last = rest.pop();
        proof {
            assert(matches_view(before)[before.len() - 1] == all[before.len() - 1]);
            assert(matches_view(rest@) =~= all.subrange(0, rest@.len() as int));
        }
        if let Some(Some(found)) = last {
            let better = match &best {
                Some(kept) => found.score >= kept.score,
                None => true,
            };
            if better {
                best = Some(found);
                proof {
                    at = rest@.len() as int;
                }
            }
        }
    }
    proof {
        if best is Some {
            assert(is_best(all, at));
            lemma_best_unique(all, at, choose|k: int| is_best(all, k));
        } else {
            assert forall|k: int| !is_best(all, k) by {
                if 0 <= k < all.len() {
                    assert(all[k] is None);
                }
            }
            assert forall|j: int| 0 <= j < results@.len() implies results@[j] is None by {
                assert(all[j] is None);
            }
        }
        if forall|j: int| 0 <= j < results@.len() ==> results@[j] is None {
            if best is Some {
                assert(all[at] is Some);
                assert(results@[at] is None);
            }
        }
    }
    best
}

/// The oracle's answers for each searchable string of one entry.
pub open spec fn candidate_matches(query: Seq<char>, candidates: Seq<Seq<char>>) -> Seq<
    Option<(u16, Seq<u32>)>,
> {
    Seq::new(candidates.len(), |j: int| match_of(query, candidates[j]))
}

/// The match of one entry: the winning match over all of its searchable strings.
pub open spec fn entry_match(query: Seq<char>, candidates: Seq<Seq<char>>) -> Option<(u16, Seq<u32>)> {
    best_of(candidate_matches(query, candidates))
}

/// Matches `query` against every searchable string of one entry and keeps the winner.
pub fn best_match(matcher: &mut Matcher, query: &str, candidates: &Vec<String>) -> (best: Option<Match>)
    ensures
        match_view(best) == entry_match(query@, strings_view(candidates@)),
{
    let mut results: Vec<Option<Match>> = Vec::new();
    let mut j: usize = 0;
    while j < candidates.len()
        invariant
            j <= candidates@.len(),
            results@.len() == j,
            forall|k: int|
                0 <= k < j ==> match_view(#[trigger] results@[k]) == match_of(query@, candidates@[k]@),
        decreases candidates@.len() - j,
    {
        let found = match_candidate(matcher, query, candidates[j].as_str());
        results.push(found);
        j += 1;
    }
    assert(matches_view(results@) =~= candidate_matches(query@, strings_view(candidates@)));
    best_result(results)
}

} // verus!
