//! The search state of one list: the query, whether the search is active, and the
//! cache that a filter pass leaves behind.

use crate::filter::{entries_view, entry_matches, is_filter_result, refilter, shown_before};
use crate::model::{Filter, FilterCache};
use crate::selection::{is_relocated, relocate};
use nucleo_matcher::Matcher;
use vstd::prelude::*;

verus! {

/// The staleness test for a cache against the query in effect over a list of `n`
/// entries: the cache names that query, and it is not the cleared cache of a list
/// that has entries.
pub open spec fn cache_trusted(cache: FilterCache, query: Seq<char>, n: nat) -> bool {
    cache.query@ == query && (cache.order@.len() > 0 || n == 0)
}

impl Filter {
    /// An inactive search has an empty query.
    pub open spec fn consistent(&self) -> bool {
        !self.active ==> self.query@.len() == 0
    }

    /// The cache is either cleared, or what a pass over `entries` left for the
    /// query that the cache names.
    pub open spec fn cache_valid(&self, entries: Seq<Seq<Seq<char>>>) -> bool {
        ||| self.cache.order@.len() == 0 && self.cache.indices@.len() == 0
        ||| is_filter_result(self.cache, true, self.cache.query@, entries)
    }

    /// The search state is well formed over a list with the given entries.
    pub open spec fn wf(&self, entries: Seq<Seq<Seq<char>>>) -> bool {
        self.consistent() && self.cache_valid(entries)
    }

    /// The cache passes the staleness test for the query in effect.
    pub open spec fn trusted(&self, n: nat) -> bool {
        cache_trusted(self.cache, self.query@, n)
    }

    /// The cache is the result of a pass over `entries` for the query in effect.
    pub open spec fn current(&self, entries: Seq<Seq<Seq<char>>>) -> bool {
        is_filter_result(self.cache, self.active, self.query@, entries)
    }

    /// A search that is off: no query, and an empty cache.
    pub fn new() -> (filter: Filter)
        ensures
            !filter.active,
            filter.query@.len() == 0,
            filter.wf(Seq::empty()),
            filter.current(Seq::empty()),
    {
        let filter = Filter { active: false, query: String::new(), cache: FilterCache::new() };
        assert(filter.cache.query@ =~= filter.query@);
        filter
    }

    /// Whether the cache may be used as it is for a list of `n` entries.
    pub fn is_trusted(&self, n: usize) -> (trusted: bool)
        ensures
            trusted == self.trusted(n as nat),
    {
        self.cache.query == self.query && (self.cache.order.len() > 0 || n == 0)
    }

    /// Clears the cache after the list under it changed, so that the next access
    /// recomputes it.
    pub fn invalidate(&mut self)
        ensures
            final(self).active == old(self).active,
            final(self).query == old(self).query,
            final(self).cache.query == old(self).cache.query,
            final(self).cache.order@.len() == 0,
            final(self).cache.indices@.len() == 0,
            forall|entries: Seq<Seq<Seq<char>>>| final(self).cache_valid(entries),
    {
        self.cache.order = Vec::new();
        self.cache.indices = Vec::new();
    }

    /// Enters search mode. The query and the cache stay as they are.
    pub fn enter_search(&mut self)
        ensures
            final(self).active,
            final(self).query == old(self).query,
            final(self).cache == old(self).cache,
    {
        self.active = true;
    }

    /// Leaves search mode and drops the query. The cache stays as it is, and is
    /// stale unless it was computed for the empty query.
    pub fn exit_search(&mut self)
        ensures
            !final(self).active,
            final(self).query@.len() == 0,
            final(self).cache == old(self).cache,
            final(self).consistent(),
    {
        self.active = false;
        self.query = String::new();
    }

    /// Appends one character to the query. The cache stays as it is.
    pub fn push_char(&mut self, c: char)
        ensures
            final(self).active == old(self).active,
            final(self).query@ == old(self).query@.push(c),
            final(self).cache == old(self).cache,
    {
        self.query.push(c);
    }

    /// Removes the last character of the query, if there is one. The cache stays
    /// as it is.
    pub fn pop_char(&mut self)
        ensures
            final(self).active == old(self).active,
            final(self).query@ == if old(self).query@.len() > 0 {
                old(self).query@.drop_last()
            } else {
                old(self).query@
            },
            final(self).cache == old(self).cache,
    {
        let _ = self.query.pop();
    }
}

/// The staleness test suffices: a well-formed search state whose cache passes it
/// holds the result of a pass over the list for the query in effect.
pub proof fn law_trusted_is_current(filter: Filter, entries: Seq<Seq<Seq<char>>>)
    requires
        filter.wf(entries),
        filter.trusted(entries.len()),
    ensures
        filter.current(entries),
{
    if !is_filter_result(filter.cache, true, filter.cache.query@, entries) {
        assert(entries.len() == 0);
        assert(filter.cache.ranks() =~= Seq::new(0, |r: int| r));
        assert(filter.cache.highlights() =~= Seq::new(0, |r: int| Seq::<u32>::empty()));
        assert(entry_matches(filter.query@, entries).len() == 0);
    }
}

/// No storage index occurs at two ranks of a filter result, and every rank is
/// filled.
pub proof fn lemma_result_distinct(
    cache: FilterCache,
    active: bool,
    query: Seq<char>,
    entries: Seq<Seq<Seq<char>>>,
    r: int,
    s: int,
)
    requires
        is_filter_result(cache, active, query, entries),
        0 <= r < cache.order@.len(),
        0 <= s < cache.order@.len(),
        cache.order@[r] == cache.order@[s],
    ensures
        r == s,
{
    assert(cache.ranks()[r] == cache.ranks()[s]);
    if active && query.len() > 0 {
        let matches = entry_matches(query, entries);
        if r < s {
            assert(shown_before(matches, cache.ranks()[r], cache.ranks()[s]));
        } else if s < r {
            assert(shown_before(matches, cache.ranks()[s], cache.ranks()[r]));
        }
    } else {
        let identity = Seq::new(entries.len(), |k: int| k);
        assert(cache.ranks() == identity);
        assert(cache.ranks().len() == cache.order@.len());
        assert(identity.len() == entries.len());
        assert(identity[r] == r && identity[s] == s);
    }
}

/// Where the entry under the cursor is still part of the result of the next
/// filter pass, at whatever rank, the cursor relocates to that rank.
pub proof fn law_cursor_preserved(
    old_order: Seq<Option<usize>>,
    fresh: FilterCache,
    active: bool,
    query: Seq<char>,
    entries: Seq<Seq<Seq<char>>>,
    cursor: usize,
    rank: int,
    moved: Option<usize>,
)
    requires
        is_filter_result(fresh, active, query, entries),
        cursor < old_order.len(),
        0 <= rank < fresh.order@.len(),
        fresh.order@[rank] == old_order[cursor as int],
        is_relocated(Some(cursor), old_order, fresh.order@, moved),
    ensures
        moved == Some(rank as usize),
{
    assert(fresh.order@.contains(old_order[cursor as int]));
    lemma_result_distinct(fresh, active, query, entries, rank, moved->0 as int);
}

/// Brings the cache up to date for the query in effect and relocates the cursor.
/// Where the cache passes the staleness test nothing happens; else a full filter
/// pass replaces it, and the cursor follows the entry it was on, by storage index.
pub fn refresh(filter: &mut Filter, cursor: &mut Option<usize>, matcher: &mut Matcher, entries: &Vec<
    Vec<String>,
>) -> (recomputed: bool)
    ensures
        recomputed == !old(filter).trusted(entries@.len()),
        final(filter).active == old(filter).active,
        final(filter).query == old(filter).query,
        !recomputed ==> *final(filter) == *old(filter) && *final(cursor) == *old(cursor),
        recomputed ==> final(filter).current(entries_view(entries@)) && is_relocated(
            *old(cursor),
            old(filter).cache.order@,
            final(filter).cache.order@,
            *final(cursor),
        ),
        old(filter).wf(entries_view(entries@)) ==> final(filter).wf(entries_view(entries@)),
        old(filter).wf(entries_view(entries@)) ==> final(filter).current(entries_view(entries@)),
{
    if filter.is_trusted(entries.len()) {
        proof {
            if filter.wf(entries_view(entries@)) {
                law_trusted_is_current(*filter, entries_view(entries@));
            }
        }
        return false;
    }
    let fresh = refilter(matcher, entries, filter.active, filter.query.as_str());
    let moved = relocate(*cursor, &filter.cache.order, &fresh.order);
    filter.cache = fresh;
    *cursor = moved;
    true
}

} // verus!
