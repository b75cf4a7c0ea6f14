//! The library list: artists under a search, with the artist cursor and, per
//! artist, the track cursor over the flattened albums.

use crate::filter::{entries_view, entry_matches, law_result_length, lemma_result_in_range};
use crate::matching::new_matcher;
use crate::model::{
    key_view, keys_view, AlbumData, ArtistData, EntryKey, Filter, KeyView, LibActiveSelector,
    LibraryState, RowPos,
};
use crate::search::{cache_trusted, refresh};
use crate::selection::{
    entry_under, is_relocated, is_settled, selected_entry, settle_by_key, slot_entry, step_cursor,
    stepped, under_cursor,
};
use crate::text::strings_view;
use crate::tree::{is_refetched, is_toggled, is_track_stepped, lemma_rows_valid};
use crate::update::Vertical;
use vstd::prelude::*;

verus! {

/// The searchable strings of an artist: the name, then the sort names.
pub open spec fn artist_strings(artist: ArtistData) -> Seq<Seq<char>> {
    seq![artist.name@] + strings_view(artist.sort_names@)
}

/// The searchable strings of every artist.
pub open spec fn library_entries(contents: Seq<ArtistData>) -> Seq<Seq<Seq<char>>> {
    Seq::new(contents.len(), |i: int| artist_strings(contents[i]))
}

impl LibraryState {
    /// The searchable strings of the library's artists.
    pub open spec fn entries(&self) -> Seq<Seq<Seq<char>>> {
        library_entries(self.contents@)
    }

    /// The artist cursor is a rank of the display order, or no selection.
    pub open spec fn cursor_valid(&self) -> bool {
        match self.artist_state {
            Some(c) => c < self.search.cache.order@.len(),
            None => true,
        }
    }

    /// The library is ready to render: the cache is the result for the query in
    /// effect over the artists, the cursor is in range and every artist is well
    /// formed.
    pub open spec fn wf(&self) -> bool {
        &&& self.search.consistent()
        &&& self.search.current(self.entries())
        &&& self.cursor_valid()
        &&& forall|i: int| 0 <= i < self.contents@.len() ==> (#[trigger] self.contents@[i]).wf()
    }

    /// The identity of the artist under the artist cursor.
    pub open spec fn selected_key(&self) -> Option<KeyView> {
        match entry_under(self.artist_state, self.search.cache.order@, self.contents@.len()) {
            Some(i) => Some(KeyView::Artist(self.contents@[i as int].name@)),
            None => None,
        }
    }

    /// The identities of the artists in display order. Meaningful where every rank
    /// names an artist, as in the result of a filter pass.
    pub open spec fn display_keys(&self) -> Seq<KeyView> {
        Seq::new(
            self.search.cache.order@.len(),
            |r: int| KeyView::Artist(self.contents@[self.search.cache.order@[r]->0 as int].name@),
        )
    }

    /// An empty library with the search off.
    pub fn new() -> (library: LibraryState)
        ensures
            library.contents@.len() == 0,
            library.artist_state is None,
            library.active == LibActiveSelector::ArtistSelector,
            !library.search.active,
            library.search.query@.len() == 0,
            library.wf(),
    {
        let library = LibraryState {
            search: Filter::new(),
            active: LibActiveSelector::ArtistSelector,
            contents: Vec::new(),
            artist_state: None,
            matcher: new_matcher(),
        };
        assert(library.entries() =~= Seq::empty());
        library
    }

    /// The searchable strings of every artist, in storage order.
    pub fn search_strings(&self) -> (entries: Vec<Vec<String>>)
        ensures
            entries_view(entries@) == self.entries(),
    {
        let mut entries: Vec<Vec<String>> = Vec::new();
        let mut i: usize = 0;
        while i < self.contents.len()
            invariant
                i <= self.contents@.len(),
                entries@.len() == i,
                forall|k: int|
                    0 <= k < i ==> strings_view((#[trigger] entries@[k])@) == artist_strings(
                        self.contents@[k],
                    ),
            decreases self.contents@.len() - i,
        {
            let artist = &self.contents[i];
            let mut strings: Vec<String> = Vec::new();
            strings.push(artist.name.clone());
            let mut j: usize = 0;
            while j < artist.sort_names.len()
                invariant
                    j <= artist.sort_names@.len(),
                    strings@.len() == j + 1,
                    strings@[0]@ == artist.name@,
                    forall|k: int| 0 <= k < j ==> (#[trigger] strings@[k + 1])@ == artist.sort_names@[k]@,
                decreases artist.sort_names@.len() - j,
            {
                strings.push(artist.sort_names[j].clone());
                j += 1;
            }
            proof {
                let built = strings_view(strings@);
                let wanted = artist_strings(*artist);
                assert(built.len() == wanted.len());
                assert forall|k: int| 0 <= k < built.len() implies built[k] == wanted[k] by {
                    if k > 0 {
                        assert(strings@[(k - 1) + 1]@ == artist.sort_names@[k - 1]@);
                    }
                }
                assert(built =~= wanted);
            }
            entries.push(strings);
            i += 1;
        }
        assert(entries_view(entries@) =~= self.entries());
        entries
    }

    /// The storage index of the artist under the artist cursor.
    pub fn selected_artist(&self) -> (artist: Option<usize>)
        ensures
            artist == entry_under(self.artist_state, self.search.cache.order@, self.contents@.len()),
    {
        selected_entry(self.artist_state, &self.search.cache.order, self.contents.len())
    }

    /// The artist shown at `rank` of the display order.
    pub fn artist_at(&self, rank: usize) -> (artist: Option<&ArtistData>)
        ensures
            match entry_under(Some(rank), self.search.cache.order@, self.contents@.len()) {
                Some(i) => artist == Some(&self.contents@[i as int]),
                None => artist is None,
            },
    {
        match selected_entry(Some(rank), &self.search.cache.order, self.contents.len()) {
            Some(i) => Some(&self.contents[i]),
            None => None,
        }
    }

    /// The artist whose albums have to be fetched: the selected artist, if its
    /// albums were not fetched yet.
    pub fn pending_fetch(&self) -> (artist: Option<usize>)
        ensures
            artist == match entry_under(
                self.artist_state,
                self.search.cache.order@,
                self.contents@.len(),
            ) {
                Some(i) if !self.contents@[i as int].fetched => Some(i),
                _ => None,
            },
    {
        match self.selected_artist() {
            Some(i) => if self.contents[i].fetched {
                None
            } else {
                Some(i)
            },
            None => None,
        }
    }

    /// Brings the search cache up to date and relocates the artist cursor; see
    /// `refresh`.
    pub fn update_filter(&mut self) -> (recomputed: bool)
        ensures
            recomputed == !old(self).search.trusted(old(self).contents@.len()),
            final(self).contents == old(self).contents,
            final(self).active == old(self).active,
            final(self).search.active == old(self).search.active,
            final(self).search.query == old(self).search.query,
            !recomputed ==> final(self).search == old(self).search,
            !recomputed ==> final(self).artist_state == old(self).artist_state,
            recomputed ==> final(self).search.current(final(self).entries()) && is_relocated(
                old(self).artist_state,
                old(self).search.cache.order@,
                final(self).search.cache.order@,
                final(self).artist_state,
            ),
            old(self).search.wf(old(self).entries()) ==> final(self).search.current(final(self).entries()),
            old(self).wf() ==> final(self).wf(),
    {
        let entries = self.search_strings();
        assert(entries_view(entries@).len() == entries@.len());
        assert(self.entries().len() == self.contents@.len());
        refresh(&mut self.search, &mut self.artist_state, &mut self.matcher, &entries)
    }

    /// The identity of the artist under the artist cursor.
    pub fn selected_artist_key(&self) -> (key: Option<EntryKey>)
        ensures
            key_view(key) == self.selected_key(),
    {
        match self.selected_artist() {
            Some(i) => Some(EntryKey::Artist(self.contents[i].name.clone())),
            None => None,
        }
    }

    /// The identities of the artists in display order, for a cache that holds the
    /// result of a filter pass.
    fn artist_keys(&self) -> (keys: Vec<EntryKey>)
        requires
            self.search.current(self.entries()),
        ensures
            keys_view(keys@) == self.display_keys(),
    {
        let mut keys: Vec<EntryKey> = Vec::new();
        let mut r: usize = 0;
        proof {
            lemma_result_in_range(
                self.search.cache,
                self.search.active,
                self.search.query@,
                self.entries(),
            );
        }
        while r < self.search.cache.order.len()
            invariant
                r <= self.search.cache.order@.len(),
                keys@.len() == r,
                forall|q: int|
                    0 <= q < self.search.cache.order@.len() ==> slot_entry(
                        #[trigger] self.search.cache.order@[q],
                        self.contents@.len(),
                    ) is Some,
                forall|q: int| 0 <= q < r ==> (#[trigger] keys@[q])@ == self.display_keys()[q],
            decreases self.search.cache.order@.len() - r,
        {
            match self.search.cache.order[r] {
                Some(i) => {
                    keys.push(EntryKey::Artist(self.contents[i].name.clone()));
                },
                None => {
                    assert(false);
                },
            }
            r += 1;
        }
        assert(keys_view(keys@) =~= self.display_keys());
        keys
    }

    /// Replaces the artists after a library fetch. The search cache is discarded
    /// and recomputed for the query in effect; the artist cursor follows the artist
    /// it was on, by name, or is clamped.
    pub fn set_contents(&mut self, artists: Vec<ArtistData>)
        ensures
            final(self).contents == artists,
            final(self).active == old(self).active,
            final(self).search.active == old(self).search.active,
            final(self).search.query == old(self).search.query,
            final(self).search.current(final(self).entries()),
            is_settled(
                old(self).artist_state,
                old(self).selected_key(),
                final(self).display_keys(),
                final(self).artist_state,
            ),
            final(self).cursor_valid(),
            old(self).search.consistent() && (forall|i: int|
                0 <= i < artists@.len() ==> (#[trigger] artists@[i]).wf()) ==> final(self).wf(),
    {
        let cursor = self.artist_state;
        let under = self.selected_artist_key();
        self.contents = artists;
        self.search.invalidate();
        let recomputed = self.update_filter();
        proof {
            if !recomputed {
                assert(self.entries().len() == 0);
                assert(self.search.cache.ranks() =~= Seq::new(0, |r: int| r));
                assert(self.search.cache.highlights() =~= Seq::new(0, |r: int| Seq::<u32>::empty()));
                assert(entry_matches(self.search.query@, self.entries()).len() == 0);
            }
        }
        let keys = self.artist_keys();
        self.artist_state = settle_by_key(cursor, &under, &keys);
    }

    /// Stores the albums that a fetch delivered for the artist at storage index
    /// `artist`, and relocates that artist's track cursor. Returns whether there is
    /// such an artist; if not, nothing changes.
    pub fn set_albums(&mut self, artist: usize, albums: Vec<AlbumData>) -> (stored: bool)
        ensures
            stored == (artist < old(self).contents@.len()),
            !stored ==> *final(self) == *old(self),
            stored ==> only_artist_differs(*old(self), *final(self), artist as int),
            stored ==> is_refetched(
                old(self).contents@[artist as int],
                final(self).contents@[artist as int],
                albums,
            ),
            final(self).entries() == old(self).entries(),
            old(self).wf() ==> final(self).wf(),
    {
        if artist >= self.contents.len() {
            return false;
        }
        self.contents[artist].set_albums(albums);
        assert(final(self).entries() =~= old(self).entries());
        true
    }

    /// Folds or expands one album of one artist. Only that album's fold state and
    /// that artist's track cursor change; see `ArtistData::toggle_fold`. Returns
    /// whether there is such an album; if not, nothing changes.
    pub fn toggle_fold(&mut self, artist: usize, album: usize) -> (toggled: bool)
        ensures
            toggled == has_album(*old(self), artist as int, album as int),
            !toggled ==> *final(self) == *old(self),
            toggled ==> only_artist_differs(*old(self), *final(self), artist as int),
            toggled ==> is_toggled(
                old(self).contents@[artist as int],
                final(self).contents@[artist as int],
                album as int,
            ),
            final(self).entries() == old(self).entries(),
            old(self).wf() ==> final(self).wf(),
    {
        if artist >= self.contents.len() {
            return false;
        }
        if album >= self.contents[artist].albums.len() {
            return false;
        }
        let toggled = self.contents[artist].toggle_fold(album);
        assert(final(self).entries() =~= old(self).entries());
        toggled
    }

    /// Folds or expands the album row under the track cursor of the selected
    /// artist. Nothing changes where no artist is selected, or where the track
    /// cursor is on a song or on no row. Returns whether an album was toggled.
    pub fn toggle_selected(&mut self) -> (toggled: bool)
        ensures
            toggled == (selected_album(*old(self)) is Some),
            is_fold_toggled(*old(self), *final(self)),
            final(self).entries() == old(self).entries(),
            old(self).wf() ==> final(self).wf(),
    {
        let target = self.fold_target();
        match target {
            Some((artist, album)) => self.toggle_fold(artist, album),
            None => false,
        }
    }

    /// The album that the fold command acts on, as (artist, album).
    pub fn fold_target(&self) -> (target: Option<(usize, usize)>)
        ensures
            target == selected_album(*self),
            match target {
                Some((artist, album)) => artist < self.contents@.len() && album
                    < self.contents@[artist as int].albums@.len(),
                None => true,
            },
    {
        match self.selected_artist() {
            Some(i) => {
                let artist = &self.contents[i];
                let rows = artist.row_positions();
                let albums: usize = artist.albums.len();
                proof {
                    lemma_rows_valid(artist.albums@, albums as nat);
                }
                match artist.track_sel_state {
                    Some(c) if c < rows.len() => match rows[c] {
                        RowPos::Album(a) => Some((i, a)),
                        RowPos::Song(_, _) => None,
                    },
                    _ => None,
                }
            },
            None => None,
        }
    }

    /// Enters search mode. The query stays as it is; the cache is recomputed only
    /// if it fails the staleness test, and the artist cursor then follows its
    /// entry.
    pub fn enter_search(&mut self)
        ensures
            is_searched(*old(self), *final(self), true, old(self).search.query@),
            old(self).wf() && !old(self).search.active ==> final(self).search.cache == old(self).search.cache
                && final(self).artist_state == old(self).artist_state,
            old(self).wf() ==> final(self).wf(),
    {
        proof {
            if self.wf() && !self.search.active {
                law_result_length(self.search.cache, false, self.search.query@, self.entries());
            }
        }
        self.search.enter_search();
        let _ = self.update_filter();
    }

    /// Leaves search mode: the query is dropped and the display order returns to
    /// storage order. The artist cursor follows its entry.
    pub fn exit_search(&mut self)
        ensures
            is_searched(*old(self), *final(self), false, Seq::empty()),
            old(self).wf() ==> final(self).wf(),
    {
        self.search.exit_search();
        let _ = self.update_filter();
        assert(self.search.query@ =~= Seq::<char>::empty());
    }

    /// Appends one character to the query of an active search and filters anew;
    /// the artist cursor follows its entry. With the search off nothing changes.
    /// Returns whether the search is active.
    pub fn push_query(&mut self, c: char) -> (accepted: bool)
        ensures
            accepted == old(self).search.active,
            is_typed(*old(self), *final(self), old(self).search.query@.push(c)),
            old(self).wf() ==> final(self).wf(),
    {
        if !self.search.active {
            return false;
        }
        self.search.push_char(c);
        let _ = self.update_filter();
        true
    }

    /// Removes the last character of the query of an active search, if there is
    /// one, and filters anew; the artist cursor follows its entry. With the search
    /// off nothing changes. Returns whether the search is active.
    pub fn pop_query(&mut self) -> (accepted: bool)
        ensures
            accepted == old(self).search.active,
            is_typed(*old(self), *final(self), without_last(old(self).search.query@)),
            old(self).wf() ==> final(self).wf(),
    {
        if !self.search.active {
            return false;
        }
        self.search.pop_char();
        let _ = self.update_filter();
        true
    }

    /// Moves the cursor of the active selector one step up or down: the artist
    /// cursor over the display order, or the track cursor of the selected artist
    /// over its flattened view. The other cursor, and the track cursors of all
    /// other artists, stay where they are.
    pub fn navigate(&mut self, dir: Vertical)
        ensures
            is_navigated(*old(self), *final(self), dir),
            final(self).entries() == old(self).entries(),
            old(self).wf() ==> final(self).wf(),
    {
        match self.active {
            LibActiveSelector::ArtistSelector => {
                self.artist_state = step_cursor(self.artist_state, self.search.cache.order.len(), dir);
            },
            LibActiveSelector::TrackSelector => {
                match self.selected_artist() {
                    Some(i) => {
                        let rows = self.contents[i].row_positions();
                        let moved = step_cursor(self.contents[i].track_sel_state, rows.len(), dir);
                        self.contents[i].track_sel_state = moved;
                        assert(final(self).entries() =~= old(self).entries());
                    },
                    None => {},
                }
            },
        }
    }

    /// Makes `to` the selector that receives navigation input. Neither cursor
    /// moves.
    pub fn switch_selector(&mut self, to: LibActiveSelector)
        ensures
            is_switched(*old(self), *final(self), to),
            old(self).wf() ==> final(self).wf(),
    {
        self.active = to;
    }
}

/// The storage index of the artist under the artist cursor.
pub open spec fn selected_index(library: LibraryState) -> Option<usize> {
    entry_under(library.artist_state, library.search.cache.order@, library.contents@.len())
}

/// Whether the library has an artist at storage index `artist` with an album at
/// index `album`.
pub open spec fn has_album(library: LibraryState, artist: int, album: int) -> bool {
    0 <= artist < library.contents@.len() && 0 <= album < library.contents@[artist].albums@.len()
}

/// Nothing of the library differs but the artist at storage index `artist`: the
/// search with its cache, the active selector, the artist cursor and every other
/// artist are the same.
pub open spec fn only_artist_differs(before: LibraryState, after: LibraryState, artist: int) -> bool {
    &&& after.search == before.search
    &&& after.active == before.active
    &&& after.artist_state == before.artist_state
    &&& after.contents@.len() == before.contents@.len()
    &&& forall|k: int|
        0 <= k < before.contents@.len() && k != artist ==> #[trigger] after.contents@[k] == before.contents@[k]
}

/// How a search event leaves the cache and the artist cursor, given the query and
/// the activity that the event put in effect: untouched where the old cache passes
/// the staleness test for the new query, else the cache is the result of a filter
/// pass and the cursor is relocated by storage index.
pub open spec fn is_updated(before: LibraryState, after: LibraryState) -> bool {
    if cache_trusted(before.search.cache, after.search.query@, before.contents@.len()) {
        &&& after.search.cache == before.search.cache
        &&& after.artist_state == before.artist_state
    } else {
        &&& after.search.current(after.entries())
        &&& is_relocated(
            before.artist_state,
            before.search.cache.order@,
            after.search.cache.order@,
            after.artist_state,
        )
    }
}

/// How a search event leaves the library, given the activity and the query that
/// it puts in effect: the artists and the active selector are as before, and the
/// cache and the artist cursor are brought up to date.
pub open spec fn is_searched(
    before: LibraryState,
    after: LibraryState,
    active: bool,
    query: Seq<char>,
) -> bool {
    &&& after.search.active == active
    &&& after.search.query@ == query
    &&& after.contents == before.contents
    &&& after.active == before.active
    &&& is_updated(before, after)
}

/// A query without its last character; the empty query stays empty.
pub open spec fn without_last(query: Seq<char>) -> Seq<char> {
    if query.len() > 0 {
        query.drop_last()
    } else {
        query
    }
}

/// How a keystroke that turns the query into `query` leaves the library: with the
/// search off nothing changes, else the library is searched anew.
pub open spec fn is_typed(before: LibraryState, after: LibraryState, query: Seq<char>) -> bool {
    if before.search.active {
        is_searched(before, after, true, query)
    } else {
        after == before
    }
}

/// How the fold command leaves the library: the album under the track cursor of
/// the selected artist is toggled and that artist's track cursor relocated; where
/// there is no such album nothing changes.
pub open spec fn is_fold_toggled(before: LibraryState, after: LibraryState) -> bool {
    match selected_album(before) {
        Some((artist, album)) => {
            &&& only_artist_differs(before, after, artist as int)
            &&& is_toggled(before.contents@[artist as int], after.contents@[artist as int], album as int)
        },
        None => after == before,
    }
}

/// How one step up or down leaves the library: the cursor of the active selector
/// moves, and nothing else differs.
pub open spec fn is_navigated(before: LibraryState, after: LibraryState, dir: Vertical) -> bool {
    match before.active {
        LibActiveSelector::ArtistSelector => {
            &&& after.search == before.search
            &&& after.active == before.active
            &&& after.contents == before.contents
            &&& after.artist_state == stepped(before.artist_state, before.search.cache.order@.len(), dir)
        },
        LibActiveSelector::TrackSelector => match selected_index(before) {
            Some(i) => {
                &&& only_artist_differs(before, after, i as int)
                &&& is_track_stepped(before.contents@[i as int], after.contents@[i as int], dir)
            },
            None => after == before,
        },
    }
}

/// How a switch of the active selector leaves the library: `to` is active, and
/// neither cursor nor anything else differs.
pub open spec fn is_switched(before: LibraryState, after: LibraryState, to: LibActiveSelector) -> bool {
    &&& after.active == to
    &&& after.search == before.search
    &&& after.contents == before.contents
    &&& after.artist_state == before.artist_state
}

/// The album that the fold command acts on: the album whose row lies under the
/// track cursor of the selected artist, as (artist, album).
pub open spec fn selected_album(library: LibraryState) -> Option<(usize, usize)> {
    match entry_under(library.artist_state, library.search.cache.order@, library.contents@.len()) {
        Some(i) => {
            let artist = library.contents@[i as int];
            match under_cursor(artist.track_sel_state, artist.rows()) {
                Some(RowPos::Album(a)) => Some((i, a)),
                _ => None,
            }
        },
        None => None,
    }
}

} // verus!
