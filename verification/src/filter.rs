//! The filter cache: ranking of the surviving entries of a list.

use crate::matching::{
    best_match, candidate_matches, entry_match, is_best, match_of, match_view, matches_view, positions_of,
    score_of, Match,
};
use crate::model::FilterCache;
use crate::selection::slot_entry;
use crate::text::strings_view;
use nucleo_matcher::Matcher;
use vstd::prelude::*;

verus! {

/// Entry `a` is shown before entry `b`: it scores higher, or the same and it comes
/// first in storage order.
pub open spec fn shown_before(matches: Seq<Option<(u16, Seq<u32>)>>, a: int, b: int) -> bool {
    score_of(matches[a]) > score_of(matches[b]) || (score_of(matches[a]) == score_of(matches[b]) && a
        < b)
}

/// `order` lists storage indices in strictly descending display rank.
pub open spec fn strictly_ranked(matches: Seq<Option<(u16, Seq<u32>)>>, order: Seq<int>) -> bool {
    forall|r: int, s: int|
        0 <= r < s < order.len() ==> shown_before(matches, #[trigger] order[r], #[trigger] order[s])
}

/// `order` is the display order for `matches`: it holds exactly the storage indices
/// of the entries that matched, best score first, ties in storage order.
pub open spec fn is_ranking(matches: Seq<Option<(u16, Seq<u32>)>>, order: Seq<int>) -> bool {
    &&& forall|r: int|
        0 <= r < order.len() ==> 0 <= #[trigger] order[r] < matches.len() && matches[order[r]] is Some
    &&& forall|i: int|
        0 <= i < matches.len() && (#[trigger] matches[i]) is Some ==> order.contains(i)
    &&& strictly_ranked(matches, order)
}

/// Two strictly ranked lists that hold the same storage indices are the same list.
pub proof fn lemma_strictly_ranked_unique(
    matches: Seq<Option<(u16, Seq<u32>)>>,
    first: Seq<int>,
    second: Seq<int>,
)
    requires
        strictly_ranked(matches, first),
        strictly_ranked(matches, second),
        forall|i: int| first.contains(i) <==> second.contains(i),
    ensures
        first == second,
    decreases first.len(),
{
    if first.len() == 0 {
        if second.len() > 0 {
            assert(second.contains(second[0]));
            assert(first.contains(second[0]));
        }
        assert(first =~= second);
    } else if second.len() == 0 {
        assert(first.contains(first[0]));
        assert(second.contains(first[0]));
    } else {
        let a = first[0];
        let b = second[0];
        assert(first.contains(a));
        assert(second.contains(b));
        assert(second.contains(a));
        assert(first.contains(b));
        let s = choose|s: int| 0 <= s < second.len() && second[s] == a;
        let t = choose|t: int| 0 <= t < first.len() && first[t] == b;
        if s > 0 {
            assert(shown_before(matches, second[0], second[s]));
            if t > 0 {
                assert(shown_before(matches, first[0], first[t]));
            }
        }
        assert(a == b);
        let first_rest = first.drop_first();
        let second_rest = second.drop_first();
        assert forall|r: int, s: int| 0 <= r < s < first_rest.len() implies shown_before(
            matches,
            #[trigger] first_rest[r],
            #[trigger] first_rest[s],
        ) by {
            assert(shown_before(matches, first[r + 1], first[s + 1]));
        }
        assert forall|r: int, s: int| 0 <= r < s < second_rest.len() implies shown_before(
            matches,
            #[trigger] second_rest[r],
            #[trigger] second_rest[s],
        ) by {
            assert(shown_before(matches, second[r + 1], second[s + 1]));
        }
        assert forall|i: int| first_rest.contains(i) <==> second_rest.contains(i) by {
            if first_rest.contains(i) {
                let r = choose|r: int| 0 <= r < first_rest.len() && first_rest[r] == i;
                assert(first[r + 1] == i);
                assert(shown_before(matches, first[0], first[r + 1]));
                assert(first.contains(i));
                let q = choose|q: int| 0 <= q < second.len() && second[q] == i;
                assert(q != 0);
                assert(second_rest[q - 1] == i);
            }
            if second_rest.contains(i) {
                let r = choose|r: int| 0 <= r < second_rest.len() && second_rest[r] == i;
                assert(second[r + 1] == i);
                assert(shown_before(matches, second[0], second[r + 1]));
                assert(second.contains(i));
                let q = choose|q: int| 0 <= q < first.len() && first[q] == i;
                assert(q != 0);
                assert(first_rest[q - 1] == i);
            }
        }
        lemma_strictly_ranked_unique(matches, first_rest, second_rest);
        assert(first =~= seq![a] + first_rest);
        assert(second =~= seq![b] + second_rest);
    }
}

/// The display order of a list of matches is unique.
pub proof fn lemma_ranking_unique(
    matches: Seq<Option<(u16, Seq<u32>)>>,
    first: Seq<int>,
    second: Seq<int>,
)
    requires
        is_ranking(matches, first),
        is_ranking(matches, second),
    ensures
        first == second,
{
    assert forall|i: int| first.contains(i) <==> second.contains(i) by {
        if first.contains(i) {
            let r = choose|r: int| 0 <= r < first.len() && first[r] == i;
            assert(matches[first[r]] is Some);
        }
        if second.contains(i) {
            let r = choose|r: int| 0 <= r < second.len() && second[r] == i;
            assert(matches[second[r]] is Some);
        }
    }
    lemma_strictly_ranked_unique(matches, first, second);
}

/// The score of the match at storage index `i`.
fn score_at(matches: &Vec<Option<Match>>, i: usize) -> (score: u16)
    requires
        i < matches@.len(),
        matches@[i as int] is Some,
    ensures
        score as int == score_of(matches_view(matches@)[i as int]),
{
    match &matches[i] {
        Some(found) => found.score,
        None => 0,
    }
}

/// The storage indices of the entries that matched, best first, ties in storage order.
fn ranked_indices(matches: &Vec<Option<Match>>) -> (order: Vec<usize>)
    ensures
        is_ranking(matches_view(matches@), order@.map_values(|i: usize| i as int)),
{
    let ghost all = matches_view(matches@);
    let mut order: Vec<usize> = Vec::new();
    let mut i: usize = 0;
    while i < matches.len()
        invariant
            i <= matches@.len(),
            all == matches_view(matches@),
            forall|r: int|
                0 <= r < order@.len() ==> (#[trigger] order@[r]) < i && all[order@[r] as int] is Some,
            forall|j: int|
                0 <= j < i && (#[trigger] all[j]) is Some ==> exists|r: int|
                    0 <= r < order@.len() && order@[r] == j,
            forall|r: int, s: int|
                0 <= r < s < order@.len() ==> shown_before(
                    all,
                    (#[trigger] order@[r]) as int,
                    (#[trigger] order@[s]) as int,
                ),
        decreases matches@.len() - i,
    {
        if matches[i].is_some() {
            let score = score_at(matches, i);
            let mut at: usize = 0;
            while at < order.len() && score_at(matches, order[at]) >= score
                invariant
                    at <= order@.len(),
                    i < matches@.len(),
                    all == matches_view(matches@),
                    all[i as int] is Some,
                    score as int == score_of(all[i as int]),
                    forall|r: int|
                        0 <= r < order@.len() ==> (#[trigger] order@[r]) < i && all[order@[r] as int] is Some,
                    forall|r: int|
                        0 <= r < at ==> score_of(all[(#[trigger] order@[r]) as int]) >= score,
                decreases order@.len() - at,
            {
                at += 1;
            }
            let ghost before = order@;
            order.insert(at, i);
            proof {
                assert forall|r: int, s: int| 0 <= r < s < order@.len() implies shown_before(
                    all,
                    (#[trigger] order@[r]) as int,
                    (#[trigger] order@[s]) as int,
                ) by {
                    if s < at {
                        assert(order@[r] == before[r] && order@[s] == before[s]);
                    } else if s == at {
                        assert(order@[r] == before[r]);
                    } else if r < at {
                        assert(order@[r] == before[r] && order@[s] == before[s - 1]);
                    } else if r == at {
                        assert(order@[s] == before[s - 1]);
                        if at < s - 1 {
                            assert(shown_before(all, before[at as int] as int, before[s - 1] as int));
                        }
                    } else {
                        assert(order@[r] == before[r - 1] && order@[s] == before[s - 1]);
                    }
                }
                assert forall|j: int| 0 <= j < i + 1 && (#[trigger] all[j]) is Some implies exists|
                    r: int,
                | 0 <= r < order@.len() && order@[r] == j by {
                    if j == i {
                        assert(order@[at as int] == j);
                    } else {
                        let r = choose|r: int| 0 <= r < before.len() && before[r] == j;
                        if r < at {
                            assert(order@[r] == j);
                        } else {
                            assert(order@[r + 1] == j);
                        }
                    }
                }
                assert forall|r: int| 0 <= r < order@.len() implies (#[trigger] order@[r]) < i + 1
                    && all[order@[r] as int] is Some by {
                    if r < at {
                        assert(order@[r] == before[r]);
                    } else if r > at {
                        assert(order@[r] == before[r - 1]);
                    }
                }
            }
        }
        i += 1;
    }
    proof {
        let ints = order@.map_values(|i: usize| i as int);
        assert forall|j: int| 0 <= j < all.len() && (#[trigger] all[j]) is Some implies ints.contains(
            j,
        ) by {
            let r = choose|r: int| 0 <= r < order@.len() && order@[r] == j;
            assert(ints[r] == j);
        }
        assert forall|r: int, s: int| 0 <= r < s < ints.len() implies shown_before(
            all,
            #[trigger] ints[r],
            #[trigger] ints[s],
        ) by {
            assert(shown_before(all, order@[r] as int, order@[s] as int));
        }
    }
    order
}

/// The searchable strings of every entry, as plain values.
pub open spec fn entries_view(entries: Seq<Vec<String>>) -> Seq<Seq<Seq<char>>> {
    Seq::new(entries.len(), |i: int| strings_view(entries[i]@))
}

/// The match of every entry of a list against `query`.
pub open spec fn entry_matches(query: Seq<char>, entries: Seq<Seq<Seq<char>>>) -> Seq<
    Option<(u16, Seq<u32>)>,
> {
    Seq::new(entries.len(), |i: int| entry_match(query, entries[i]))
}

/// The cache is the identity over a list of `n` entries: every entry in storage
/// order, nothing highlighted.
pub open spec fn is_identity(cache: FilterCache, n: nat) -> bool {
    &&& cache.complete()
    &&& cache.ranks() == Seq::new(n, |r: int| r)
    &&& cache.highlights() == Seq::new(n, |r: int| Seq::<u32>::empty())
}

/// The cache holds the ranking of `matches`, with the matched positions of each
/// ranked entry as its highlights.
pub open spec fn is_ranked_cache(cache: FilterCache, matches: Seq<Option<(u16, Seq<u32>)>>) -> bool {
    &&& cache.complete()
    &&& is_ranking(matches, cache.ranks())
    &&& forall|r: int|
        0 <= r < cache.ranks().len() ==> (#[trigger] cache.highlights()[r]) == positions_of(
            matches[cache.ranks()[r]],
        )
}

/// What a filter pass over `entries` leaves in the cache: the identity where the
/// filter is inactive or the query empty, else the ranking of the entries' matches.
pub open spec fn is_filter_result(
    cache: FilterCache,
    active: bool,
    query: Seq<char>,
    entries: Seq<Seq<Seq<char>>>,
) -> bool {
    &&& cache.query@ == query
    &&& if !active || query.len() == 0 {
        is_identity(cache, entries.len())
    } else {
        is_ranked_cache(cache, entry_matches(query, entries))
    }
}

impl FilterCache {
    /// An empty cache for the empty query.
    pub fn new() -> (cache: FilterCache)
        ensures
            cache.query@.len() == 0,
            is_identity(cache, 0),
    {
        let cache = FilterCache { query: String::new(), order: Vec::new(), indices: Vec::new() };
        assert(cache.ranks() =~= Seq::new(0, |r: int| r));
        assert(cache.highlights() =~= Seq::new(0, |r: int| Seq::<u32>::empty()));
        cache
    }

    /// The identity cache over `n` entries: storage order, no highlights.
    pub fn identity(query: String, n: usize) -> (cache: FilterCache)
        ensures
            cache.query == query,
            is_identity(cache, n as nat),
    {
        let mut order: Vec<Option<usize>> = Vec::new();
        let mut indices: Vec<Option<Vec<u32>>> = Vec::new();
        let mut r: usize = 0;
        while r < n
            invariant
                r <= n,
                order@.len() == r,
                indices@.len() == r,
                forall|k: int| 0 <= k < r ==> (#[trigger] order@[k]) == Some(k as usize),
                forall|k: int|
                    0 <= k < r ==> (#[trigger] indices@[k]) is Some && indices@[k]->0@.len() == 0,
            decreases n - r,
        {
            order.push(Some(r));
            indices.push(Some(Vec::new()));
            r += 1;
        }
        let cache = FilterCache { query, order, indices };
        proof {
            assert(cache.ranks() =~= Seq::new(n as nat, |r: int| r));
            assert forall|k: int| 0 <= k < n implies (#[trigger] cache.highlights()[k])
                == Seq::<u32>::empty() by {
                assert(indices@[k]->0@ =~= Seq::<u32>::empty());
            }
            assert(cache.highlights() =~= Seq::new(n as nat, |r: int| Seq::<u32>::empty()));
        }
        cache
    }

    /// Ranks a list of per-entry matches: the entries that matched, best score
    /// first and ties in storage order, each with its matched positions.
    pub fn from_matches(query: String, matches: Vec<Option<Match>>) -> (cache: FilterCache)
        ensures
            cache.query == query,
            is_ranked_cache(cache, matches_view(matches@)),
    {
        let ghost all = matches_view(matches@);
        let ranked = ranked_indices(&matches);
        let ghost ints = ranked@.map_values(|i: usize| i as int);
        let mut pool = matches;
        let mut order: Vec<Option<usize>> = Vec::new();
        let mut indices: Vec<Option<Vec<u32>>> = Vec::new();
        let mut r: usize = 0;
        proof {
            assert forall|s: int| 0 <= s < ranked@.len() implies match_view(
                pool@[(#[trigger] ranked@[s]) as int],
            ) == all[ranked@[s] as int] by {
                assert(ints[s] == ranked@[s]);
            }
        }
        while r < ranked.len()
            invariant
                r <= ranked@.len(),
                order@.len() == r,
                indices@.len() == r,
                ints == ranked@.map_values(|i: usize| i as int),
                is_ranking(all, ints),
                pool@.len() == all.len(),
                forall|s: int|
                    r <= s < ranked@.len() ==> match_view(pool@[(#[trigger] ranked@[s]) as int])
                        == all[ranked@[s] as int],
                forall|k: int| 0 <= k < r ==> (#[trigger] order@[k]) == Some(ranked@[k]),
                forall|k: int|
                    0 <= k < r ==> (#[trigger] indices@[k]) is Some && indices@[k]->0@ == positions_of(
                        all[ranked@[k] as int],
                    ),
            decreases ranked@.len() - r,
        {
            let i = ranked[r];
            proof {
                assert(ints[r as int] == i);
                assert(0 <= ints[r as int] < all.len());
                assert(all[i as int] is Some);
            }
            let ghost before = pool@;
            let taken = pool[i].take();
            let positions = match taken {
                Some(found) => found.positions,
                None => Vec::new(),
            };
            proof {
                assert forall|s: int| r + 1 <= s < ranked@.len() implies match_view(
                    pool@[(#[trigger] ranked@[s]) as int],
                ) == all[ranked@[s] as int] by {
                    assert(shown_before(all, ints[r as int], ints[s]));
                    assert(ranked@[s] != i);
                    assert(pool@[ranked@[s] as int] == before[ranked@[s] as int]);
                }
            }
            order.push(Some(i));
            indices.push(Some(positions));
            r += 1;
        }
        let cache = FilterCache { query, order, indices };
        proof {
            assert(cache.ranks() =~= ints);
            assert forall|k: int| 0 <= k < cache.ranks().len() implies (#[trigger] cache.highlights()[k])
                == positions_of(all[cache.ranks()[k]]) by {
                assert(indices@[k] is Some);
            }
        }
        cache
    }
}

/// One full filter pass: matches `query` against the searchable strings of every
/// entry and ranks the survivors. With the filter inactive or the query empty the
/// pass is a no-op that yields the identity order.
pub fn refilter(matcher: &mut Matcher, entries: &Vec<Vec<String>>, active: bool, query: &str) -> (cache:
    FilterCache)
    ensures
        is_filter_result(cache, active, query@, entries_view(entries@)),
{
    if !active || query.is_empty() {
        return FilterCache::identity(query.to_owned(), entries.len());
    }
    let mut matches: Vec<Option<Match>> = Vec::new();
    let mut i: usize = 0;
    while i < entries.len()
        invariant
            i <= entries@.len(),
            matches@.len() == i,
            forall|k: int|
                0 <= k < i ==> match_view(#[trigger] matches@[k]) == entry_match(
                    query@,
                    strings_view(entries@[k]@),
                ),
        decreases entries@.len() - i,
    {
        let found = best_match(matcher, query, &entries[i]);
        matches.push(found);
        i += 1;
    }
    assert(matches_view(matches@) =~= entry_matches(query@, entries_view(entries@)));
    FilterCache::from_matches(query.to_owned(), matches)
}

/// A pass with the empty query yields the identity order, whatever the list holds
/// and whether or not the filter is active: every entry in storage order, every
/// highlight list empty.
pub proof fn law_identity_order(cache: FilterCache, active: bool, entries: Seq<Seq<Seq<char>>>)
    requires
        is_filter_result(cache, active, Seq::<char>::empty(), entries),
    ensures
        cache.ranks().len() == entries.len(),
        cache.highlights().len() == entries.len(),
        forall|r: int| 0 <= r < entries.len() ==> (#[trigger] cache.ranks()[r]) == r,
        forall|r: int| 0 <= r < entries.len() ==> (#[trigger] cache.highlights()[r]).len() == 0,
{
}

/// An entry none of whose searchable strings matches the query is excluded from
/// the order of an active, non-empty search.
pub proof fn law_exclusion(
    cache: FilterCache,
    query: Seq<char>,
    entries: Seq<Seq<Seq<char>>>,
    i: int,
)
    requires
        query.len() > 0,
        is_filter_result(cache, true, query, entries),
        0 <= i < entries.len(),
        forall|j: int| 0 <= j < entries[i].len() ==> match_of(query, #[trigger] entries[i][j]) is None,
    ensures
        !cache.ranks().contains(i),
{
    let results = candidate_matches(query, entries[i]);
    assert forall|k: int| !is_best(results, k) by {
        if 0 <= k < results.len() {
            assert(match_of(query, entries[i][k]) is None);
        }
    }
    let matches = entry_matches(query, entries);
    assert(matches[i] is None);
    if cache.ranks().contains(i) {
        let r = choose|r: int| 0 <= r < cache.ranks().len() && cache.ranks()[r] == i;
        assert(matches[cache.ranks()[r]] is Some);
    }
}

/// Two filter passes over the same list with the same query and the same filter
/// state yield the same order and the same highlights.
pub proof fn law_deterministic(
    first: FilterCache,
    second: FilterCache,
    active: bool,
    query: Seq<char>,
    entries: Seq<Seq<Seq<char>>>,
)
    requires
        is_filter_result(first, active, query, entries),
        is_filter_result(second, active, query, entries),
    ensures
        first.query@ == second.query@,
        first.ranks() == second.ranks(),
        first.highlights() == second.highlights(),
{
    if active && query.len() > 0 {
        let matches = entry_matches(query, entries);
        lemma_ranking_unique(matches, first.ranks(), second.ranks());
        assert(first.highlights().len() == second.highlights().len());
        assert forall|r: int| 0 <= r < first.highlights().len() implies first.highlights()[r]
            == second.highlights()[r] by {
            assert(first.highlights()[r] == positions_of(matches[first.ranks()[r]]));
            assert(second.highlights()[r] == positions_of(matches[second.ranks()[r]]));
        }
        assert(first.highlights() =~= second.highlights());
    }
}

/// Every rank of a filter result names an entry of the list.
pub proof fn lemma_result_in_range(
    cache: FilterCache,
    active: bool,
    query: Seq<char>,
    entries: Seq<Seq<Seq<char>>>,
)
    requires
        is_filter_result(cache, active, query, entries),
    ensures
        forall|r: int|
            0 <= r < cache.order@.len() ==> slot_entry(#[trigger] cache.order@[r], entries.len()) is Some,
{
    assert forall|r: int| 0 <= r < cache.order@.len() implies slot_entry(
        #[trigger] cache.order@[r],
        entries.len(),
    ) is Some by {
        assert(cache.order@[r] is Some);
        if active && query.len() > 0 {
            assert(0 <= cache.ranks()[r] < entry_matches(query, entries).len());
        } else {
            let identity = Seq::new(entries.len(), |k: int| k);
            assert(cache.ranks() == identity);
            assert(cache.ranks().len() == cache.order@.len());
            assert(identity[r] == r);
        }
    }
}

/// A list of distinct numbers below `n` has at most `n` members.
pub proof fn lemma_distinct_bounded(list: Seq<int>, n: nat)
    requires
        forall|i: int| 0 <= i < list.len() ==> 0 <= #[trigger] list[i] < n,
        forall|i: int, j: int| 0 <= i < j < list.len() ==> #[trigger] list[i] != #[trigger] list[j],
    ensures
        list.len() <= n,
    decreases n,
{
    if list.len() > 0 {
        assert(0 <= list[0] < n);
        let top = n - 1;
        if exists|k: int| 0 <= k < list.len() && list[k] == top {
            let k = choose|k: int| 0 <= k < list.len() && list[k] == top;
            let rest = list.remove(k);
            assert forall|i: int| 0 <= i < rest.len() implies 0 <= #[trigger] rest[i] < top by {
                if i < k {
                    assert(rest[i] == list[i]);
                } else {
                    assert(rest[i] == list[i + 1]);
                }
            }
            assert forall|i: int, j: int| 0 <= i < j < rest.len() implies #[trigger] rest[i]
                != #[trigger] rest[j] by {
                let a = if i < k {
                    i
                } else {
                    i + 1
                };
                let b = if j < k {
                    j
                } else {
                    j + 1
                };
                assert(rest[i] == list[a] && rest[j] == list[b]);
            }
            lemma_distinct_bounded(rest, top as nat);
        } else {
            assert forall|i: int| 0 <= i < list.len() implies 0 <= #[trigger] list[i] < top by {}
            lemma_distinct_bounded(list, top as nat);
        }
    }
}

/// The cache of a filter pass has one highlight list per rank and at most as many
/// ranks as the list has entries; with the filter inactive or the query empty it
/// has exactly as many.
pub proof fn law_result_length(
    cache: FilterCache,
    active: bool,
    query: Seq<char>,
    entries: Seq<Seq<Seq<char>>>,
)
    requires
        is_filter_result(cache, active, query, entries),
    ensures
        cache.order@.len() == cache.indices@.len(),
        cache.order@.len() <= entries.len(),
        !active || query.len() == 0 ==> cache.order@.len() == entries.len(),
{
    let ranks = cache.ranks();
    assert(ranks.len() == cache.order@.len());
    if active && query.len() > 0 {
        let matches = entry_matches(query, entries);
        assert forall|i: int, j: int| 0 <= i < j < ranks.len() implies #[trigger] ranks[i]
            != #[trigger] ranks[j] by {
            assert(shown_before(matches, ranks[i], ranks[j]));
        }
        lemma_distinct_bounded(ranks, entries.len());
    } else {
        assert(ranks.len() == Seq::new(entries.len(), |r: int| r).len());
    }
}

} // verus!
