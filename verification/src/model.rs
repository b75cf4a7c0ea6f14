//! The data model: songs, albums and artists of the library tree, the play queue,
//! and the filter state that sits over each of the two lists.

use nucleo_matcher::Matcher;
use vstd::prelude::*;

verus! {

/// The screen that is shown.
#[derive(Clone, Copy, Debug, PartialEq, Eq, Structural)]
pub enum Screen {
    Library,
    Queue,
    Playlist,
}

/// The state of the session.
#[derive(Clone, Copy, Debug, PartialEq, Eq, Structural)]
pub enum State {
    Searching,
    Running,
    Done,
}

/// One song. Its `file` (the storage path) is its stable key.
#[derive(Debug, PartialEq, Eq)]
pub struct Song {
    pub file: String,
    pub title: Option<String>,
    pub artist: Option<String>,
    pub album: Option<String>,
    /// Length in seconds.
    pub duration: Option<u64>,
}

/// One album of an artist, with its fold state.
#[derive(Debug)]
pub struct AlbumData {
    pub expanded: bool,
    pub name: String,
    pub tracks: Vec<Song>,
}

/// One visible row of an artist's flattened track view.
pub enum TrackSelItem<'a> {
    Album(&'a AlbumData),
    Song(&'a Song),
}

/// The position of one visible row within an artist's albums: an album by its
/// index, or a track by the index of its album and its index among the tracks.
#[derive(Clone, Copy, Debug, PartialEq, Eq, Structural)]
pub enum RowPos {
    Album(usize),
    Song(usize, usize),
}

/// The stable identity of a list entry: an artist or an album by its name, a song
/// by its file.
#[derive(Debug)]
pub enum EntryKey {
    Artist(String),
    Album(String),
    Song(String),
}

/// An entry's identity as plain values.
pub enum KeyView {
    Artist(Seq<char>),
    Album(Seq<char>),
    Song(Seq<char>),
}

impl EntryKey {
    /// The identity as plain values.
    pub open spec fn view(&self) -> KeyView {
        match *self {
            EntryKey::Artist(name) => KeyView::Artist(name@),
            EntryKey::Album(name) => KeyView::Album(name@),
            EntryKey::Song(file) => KeyView::Song(file@),
        }
    }
}

/// The identity of an optional key.
pub open spec fn key_view(key: Option<EntryKey>) -> Option<KeyView> {
    match key {
        Some(k) => Some(k@),
        None => None,
    }
}

/// The identities of a list of keys.
pub open spec fn keys_view(keys: Seq<EntryKey>) -> Seq<KeyView> {
    Seq::new(keys.len(), |k: int| keys[k]@)
}

/// One artist of the library. `track_sel_state` is the cursor over the artist's own
/// flattened track view: a row number, or `None` for no selection.
pub struct ArtistData {
    pub name: String,
    pub fetched: bool,
    pub sort_names: Vec<String>,
    pub albums: Vec<AlbumData>,
    pub track_sel_state: Option<usize>,
}

/// Which of the two cursors of the library receives navigation input.
#[derive(Clone, Copy, Debug, PartialEq, Eq, Structural)]
pub enum LibActiveSelector {
    ArtistSelector,
    TrackSelector,
}

/// The result of applying a query to a list: the display order and the highlighted
/// character positions, both indexed by filtered rank.
pub struct FilterCache {
    pub query: String,
    pub order: Vec<Option<usize>>,
    pub indices: Vec<Option<Vec<u32>>>,
}

/// The search state of one list.
pub struct Filter {
    pub active: bool,
    pub query: String,
    pub cache: FilterCache,
}

/// The library: artists, the two coupled cursors and the search over the artists.
/// `artist_state` is a rank into the search cache's order.
pub struct LibraryState {
    pub search: Filter,
    pub active: LibActiveSelector,
    pub contents: Vec<ArtistData>,
    pub artist_state: Option<usize>,
    pub matcher: Matcher,
}

/// The play queue with its search and its cursor, a rank into the cache's order.
pub struct QueueSelector {
    pub search: Filter,
    pub contents: Vec<Song>,
    pub state: Option<usize>,
}

/// The playlist screen holds no state.
pub struct PlaylistState;

impl FilterCache {
    /// Every slot of the cache is filled, and there is one highlight list per rank.
    pub open spec fn complete(&self) -> bool {
        &&& self.order@.len() == self.indices@.len()
        &&& forall|r: int| 0 <= r < self.order@.len() ==> (#[trigger] self.order@[r]) is Some
        &&& forall|r: int| 0 <= r < self.indices@.len() ==> (#[trigger] self.indices@[r]) is Some
    }

    /// The display order: the storage index at each rank.
    pub open spec fn ranks(&self) -> Seq<int> {
        Seq::new(
            self.order@.len(),
            |r: int|
                match self.order@[r] {
                    Some(i) => i as int,
                    None => -1,
                },
        )
    }

    /// The highlighted character positions at each rank.
    pub open spec fn highlights(&self) -> Seq<Seq<u32>> {
        Seq::new(
            self.indices@.len(),
            |r: int|
                match self.indices@[r] {
                    Some(positions) => positions@,
                    None => Seq::empty(),
                },
        )
    }
}

} // verus!
