//! The play queue: songs under a search, with one cursor.

use crate::filter::{entries_view, entry_matches, law_result_length, lemma_result_in_range};
use crate::library::without_last;
use crate::model::{key_view, keys_view, EntryKey, Filter, KeyView, QueueSelector, Song};
use crate::search::{cache_trusted, refresh};
use crate::text::strings_view;
use crate::selection::{
    entry_under, is_relocated, is_settled, selected_entry, settle_by_key, slot_entry, step_cursor, stepped,
};
use crate::update::Vertical;
use nucleo_matcher::Matcher;
use vstd::prelude::*;

verus! {

/// The searchable string of a song: its title, or its file where it has no title.
pub open spec fn song_string(song: Song) -> Seq<char> {
    match song.title {
        Some(title) => title@,
        None => song.file@,
    }
}

/// The searchable strings of every song of the queue, one per song.
pub open spec fn queue_entries(contents: Seq<Song>) -> Seq<Seq<Seq<char>>> {
    Seq::new(contents.len(), |i: int| seq![song_string(contents[i])])
}

/// How a search event leaves the cache and the cursor of the queue; see
/// `is_updated` of the library.
pub open spec fn is_queue_updated(before: QueueSelector, after: QueueSelector) -> bool {
    if cache_trusted(before.search.cache, after.search.query@, before.contents@.len()) {
        &&& after.search.cache == before.search.cache
        &&& after.state == before.state
    } else {
        &&& after.search.current(after.entries())
        &&& is_relocated(before.state, before.search.cache.order@, after.search.cache.order@, after.state)
    }
}

/// How a search event leaves the queue, given the activity and the query that it
/// puts in effect: the songs are as before, and the cache and the cursor are
/// brought up to date.
pub open spec fn is_queue_searched(
    before: QueueSelector,
    after: QueueSelector,
    active: bool,
    query: Seq<char>,
) -> bool {
    &&& after.search.active == active
    &&& after.search.query@ == query
    &&& after.contents == before.contents
    &&& is_queue_updated(before, after)
}

/// How a keystroke that turns the query into `query` leaves the queue: with the
/// search off nothing changes, else the queue is searched anew.
pub open spec fn is_queue_typed(before: QueueSelector, after: QueueSelector, query: Seq<char>) -> bool {
    if before.search.active {
        is_queue_searched(before, after, true, query)
    } else {
        after == before
    }
}

/// How one step up or down leaves the queue: the cursor moves, and nothing else
/// differs.
pub open spec fn is_queue_navigated(before: QueueSelector, after: QueueSelector, dir: Vertical) -> bool {
    &&& after.search == before.search
    &&& after.contents == before.contents
    &&& after.state == stepped(before.state, before.search.cache.order@.len(), dir)
}

impl QueueSelector {
    /// The searchable strings of the queue's songs.
    pub open spec fn entries(&self) -> Seq<Seq<Seq<char>>> {
        queue_entries(self.contents@)
    }

    /// The cursor is a rank of the display order, or no selection.
    pub open spec fn cursor_valid(&self) -> bool {
        match self.state {
            Some(c) => c < self.search.cache.order@.len(),
            None => true,
        }
    }

    /// The queue is ready to render: the cache is the result for the query in
    /// effect over the songs, and the cursor is in range.
    pub open spec fn wf(&self) -> bool {
        &&& self.search.consistent()
        &&& self.search.current(self.entries())
        &&& self.cursor_valid()
    }

    /// The identity of the song under the cursor.
    pub open spec fn selected_key(&self) -> Option<KeyView> {
        match entry_under(self.state, self.search.cache.order@, self.contents@.len()) {
            Some(i) => Some(KeyView::Song(self.contents@[i as int].file@)),
            None => None,
        }
    }

    /// The identities of the songs in display order. Meaningful where every rank
    /// names a song, as in the result of a filter pass.
    pub open spec fn display_keys(&self) -> Seq<KeyView> {
        Seq::new(
            self.search.cache.order@.len(),
            |r: int| KeyView::Song(self.contents@[self.search.cache.order@[r]->0 as int].file@),
        )
    }

    /// An empty queue with the search off.
    pub fn new() -> (queue: QueueSelector)
        ensures
            queue.contents@.len() == 0,
            queue.state is None,
            !queue.search.active,
            queue.search.query@.len() == 0,
            queue.wf(),
    {
        let queue = QueueSelector { search: Filter::new(), contents: Vec::new(), state: None };
        assert(queue.entries() =~= Seq::empty());
        queue
    }

    /// The searchable strings of every song, in queue order.
    pub fn search_strings(&self) -> (entries: Vec<Vec<String>>)
        ensures
            entries_view(entries@) == self.entries(),
    {
        let mut entries: Vec<Vec<String>> = Vec::new();
        let mut i: usize = 0;
        while i < self.contents.len()
            invariant
                i <= self.contents@.len(),
                entries@.len() == i,
                forall|k: int|
                    0 <= k < i ==> strings_view((#[trigger] entries@[k])@) == seq![
                        song_string(self.contents@[k]),
                    ],
            decreases self.contents@.len() - i,
        {
            let song = &self.contents[i];
            let text = match &song.title {
                Some(title) => title.clone(),
                None => song.file.clone(),
            };
            let mut strings: Vec<String> = Vec::new();
            strings.push(text);
            assert(strings_view(strings@) =~= seq![song_string(*song)]);
            entries.push(strings);
            i += 1;
        }
        assert(entries_view(entries@) =~= self.entries());
        entries
    }

    /// The queue position of the song under the cursor.
    pub fn selected_song(&self) -> (song: Option<usize>)
        ensures
            song == entry_under(self.state, self.search.cache.order@, self.contents@.len()),
    {
        selected_entry(self.state, &self.search.cache.order, self.contents.len())
    }

    /// The song shown at `rank` of the display order.
    pub fn song_at(&self, rank: usize) -> (song: Option<&Song>)
        ensures
            match entry_under(Some(rank), self.search.cache.order@, self.contents@.len()) {
                Some(i) => song == Some(&self.contents@[i as int]),
                None => song is None,
            },
    {
        match selected_entry(Some(rank), &self.search.cache.order, self.contents.len()) {
            Some(i) => Some(&self.contents[i]),
            None => None,
        }
    }

    /// The identity of the song under the cursor.
    pub fn selected_song_key(&self) -> (key: Option<EntryKey>)
        ensures
            key_view(key) == self.selected_key(),
    {
        match self.selected_song() {
            Some(i) => Some(EntryKey::Song(self.contents[i].file.clone())),
            None => None,
        }
    }

    /// The identities of the songs in display order, for a cache that holds the
    /// result of a filter pass.
    fn song_keys(&self) -> (keys: Vec<EntryKey>)
        requires
            self.search.current(self.entries()),
        ensures
            keys_view(keys@) == self.display_keys(),
    {
        let mut keys: Vec<EntryKey> = Vec::new();
        let mut r: usize = 0;
        proof {
            lemma_result_in_range(
                self.search.cache,
                self.search.active,
                self.search.query@,
                self.entries(),
            );
        }
        while r < self.search.cache.order.len()
            invariant
                r <= self.search.cache.order@.len(),
                keys@.len() == r,
                forall|q: int|
                    0 <= q < self.search.cache.order@.len() ==> slot_entry(
                        #[trigger] self.search.cache.order@[q],
                        self.contents@.len(),
                    ) is Some,
                forall|q: int| 0 <= q < r ==> (#[trigger] keys@[q])@ == self.display_keys()[q],
            decreases self.search.cache.order@.len() - r,
        {
            match self.search.cache.order[r] {
                Some(i) => {
                    keys.push(EntryKey::Song(self.contents[i].file.clone()));
                },
                None => {
                    assert(false);
                },
            }
            r += 1;
        }
        assert(keys_view(keys@) =~= self.display_keys());
        keys
    }

    /// Brings the search cache up to date and relocates the cursor; see `refresh`.
    pub fn update_filter(&mut self, matcher: &mut Matcher) -> (recomputed: bool)
        ensures
            recomputed == !old(self).search.trusted(old(self).contents@.len()),
            final(self).contents == old(self).contents,
            final(self).search.active == old(self).search.active,
            final(self).search.query == old(self).search.query,
            !recomputed ==> final(self).search == old(self).search,
            !recomputed ==> final(self).state == old(self).state,
            recomputed ==> final(self).search.current(final(self).entries()) && is_relocated(
                old(self).state,
                old(self).search.cache.order@,
                final(self).search.cache.order@,
                final(self).state,
            ),
            old(self).search.wf(old(self).entries()) ==> final(self).search.current(final(self).entries()),
            old(self).wf() ==> final(self).wf(),
    {
        let entries = self.search_strings();
        assert(entries_view(entries@).len() == entries@.len());
        assert(self.entries().len() == self.contents@.len());
        refresh(&mut self.search, &mut self.state, matcher, &entries)
    }

    /// Replaces the songs after the queue changed. The search cache is discarded
    /// and recomputed for the query in effect; the cursor follows the song it was
    /// on, by file, or is clamped.
    pub fn set_contents(&mut self, matcher: &mut Matcher, songs: Vec<Song>)
        ensures
            final(self).contents == songs,
            final(self).search.active == old(self).search.active,
            final(self).search.query == old(self).search.query,
            final(self).search.current(final(self).entries()),
            is_settled(
                old(self).state,
                old(self).selected_key(),
                final(self).display_keys(),
                final(self).state,
            ),
            final(self).cursor_valid(),
            old(self).search.consistent() ==> final(self).wf(),
    {
        let cursor = self.state;
        let under = self.selected_song_key();
        self.contents = songs;
        self.search.invalidate();
        let recomputed = self.update_filter(matcher);
        proof {
            if !recomputed {
                assert(self.entries().len() == 0);
                assert(self.search.cache.ranks() =~= Seq::new(0, |r: int| r));
                assert(self.search.cache.highlights() =~= Seq::new(0, |r: int| Seq::<u32>::empty()));
                assert(entry_matches(self.search.query@, self.entries()).len() == 0);
            }
        }
        let keys = self.song_keys();
        self.state = settle_by_key(cursor, &under, &keys);
    }

    /// Moves the cursor one step up or down the display order.
    pub fn navigate(&mut self, dir: Vertical)
        ensures
            is_queue_navigated(*old(self), *final(self), dir),
            old(self).wf() ==> final(self).wf(),
    {
        self.state = step_cursor(self.state, self.search.cache.order.len(), dir);
    }

    /// Enters search mode. The query stays as it is; the cache is recomputed only
    /// if it fails the staleness test, and the cursor then follows its entry.
    pub fn enter_search(&mut self, matcher: &mut Matcher)
        ensures
            is_queue_searched(*old(self), *final(self), true, old(self).search.query@),
            old(self).wf() && !old(self).search.active ==> final(self).search.cache == old(self).search.cache
                && final(self).state == old(self).state,
            old(self).wf() ==> final(self).wf(),
    {
        proof {
            if self.wf() && !self.search.active {
                law_result_length(self.search.cache, false, self.search.query@, self.entries());
            }
        }
        self.search.enter_search();
        let _ = self.update_filter(matcher);
    }

    /// Leaves search mode: the query is dropped and the display order returns to
    /// queue order. The cursor follows its entry.
    pub fn exit_search(&mut self, matcher: &mut Matcher)
        ensures
            is_queue_searched(*old(self), *final(self), false, Seq::empty()),
            old(self).wf() ==> final(self).wf(),
    {
        self.search.exit_search();
        let _ = self.update_filter(matcher);
        assert(self.search.query@ =~= Seq::<char>::empty());
    }

    /// Appends one character to the query of an active search and filters anew;
    /// the cursor follows its entry. With the search off nothing changes. Returns
    /// whether the search is active.
    pub fn push_query(&mut self, matcher: &mut Matcher, c: char) -> (accepted: bool)
        ensures
            accepted == old(self).search.active,
            is_queue_typed(*old(self), *final(self), old(self).search.query@.push(c)),
            old(self).wf() ==> final(self).wf(),
    {
        if !self.search.active {
            return false;
        }
        self.search.push_char(c);
        let _ = self.update_filter(matcher);
        true
    }

    /// Removes the last character of the query of an active search, if there is
    /// one, and filters anew; the cursor follows its entry. With the search off
    /// nothing changes. Returns whether the search is active.
    pub fn pop_query(&mut self, matcher: &mut Matcher) -> (accepted: bool)
        ensures
            accepted == old(self).search.active,
            is_queue_typed(*old(self), *final(self), without_last(old(self).search.query@)),
            old(self).wf() ==> final(self).wf(),
    {
        if !self.search.active {
            return false;
        }
        self.search.pop_char();
        let _ = self.update_filter(matcher);
        true
    }
}

} // verus!
