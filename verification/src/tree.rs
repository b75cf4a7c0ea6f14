//! The library tree: the flattened track view of one artist and album folding.

use crate::model::{keys_view, AlbumData, ArtistData, EntryKey, KeyView, RowPos, Song, TrackSelItem};
use crate::selection::{is_first_at, is_relocated, lemma_first_exists, relocate_by_key, stepped};
use crate::text::same_text;
use crate::update::Vertical;
use vstd::prelude::*;

verus! {

/// The rows that one album contributes: its own row, then its tracks in library
/// order where it is expanded.
pub open spec fn album_rows(album: AlbumData, a: usize) -> Seq<RowPos> {
    seq![RowPos::Album(a)] + if album.expanded {
        Seq::new(album.tracks@.len(), |t: int| RowPos::Song(a, t as usize))
    } else {
        Seq::empty()
    }
}

/// The rows of the first `n` albums, in order.
pub open spec fn rows_upto(albums: Seq<AlbumData>, n: nat) -> Seq<RowPos>
    decreases n,
{
    if n == 0 {
        Seq::empty()
    } else {
        rows_upto(albums, (n - 1) as nat) + album_rows(albums[n - 1], (n - 1) as usize)
    }
}

/// `pos` names an album of `albums`, or a track of an expanded album.
pub open spec fn valid_pos(albums: Seq<AlbumData>, pos: RowPos) -> bool {
    match pos {
        RowPos::Album(a) => a < albums.len(),
        RowPos::Song(a, t) => a < albums.len() && albums[a as int].expanded && t
            < albums[a as int].tracks@.len(),
    }
}

/// The identity of the row at `pos`: the album's name, or the song's file.
pub open spec fn key_at(albums: Seq<AlbumData>, pos: RowPos) -> KeyView {
    match pos {
        RowPos::Album(a) => KeyView::Album(albums[a as int].name@),
        RowPos::Song(a, t) => KeyView::Song(albums[a as int].tracks@[t as int].file@),
    }
}

/// The row at `pos` as it is handed to the render layer.
pub open spec fn item_at<'a>(albums: Seq<AlbumData>, pos: RowPos) -> TrackSelItem<'a> {
    match pos {
        RowPos::Album(a) => TrackSelItem::Album(&albums[a as int]),
        RowPos::Song(a, t) => TrackSelItem::Song(&albums[a as int].tracks@[t as int]),
    }
}

/// Every row of the flattened view names an album or a visible track.
pub proof fn lemma_rows_valid(albums: Seq<AlbumData>, n: nat)
    requires
        n <= albums.len(),
        albums.len() <= usize::MAX,
    ensures
        forall|k: int|
            0 <= k < rows_upto(albums, n).len() ==> valid_pos(albums, #[trigger] rows_upto(albums, n)[k]),
    decreases n,
{
    if n > 0 {
        lemma_rows_valid(albums, (n - 1) as nat);
        let head = rows_upto(albums, (n - 1) as nat);
        let tail = album_rows(albums[n - 1], (n - 1) as usize);
        assert forall|k: int| 0 <= k < rows_upto(albums, n).len() implies valid_pos(
            albums,
            #[trigger] rows_upto(albums, n)[k],
        ) by {
            if k < head.len() {
                assert(rows_upto(albums, n)[k] == head[k]);
            } else {
                assert(rows_upto(albums, n)[k] == tail[k - head.len()]);
            }
        }
    }
}

impl ArtistData {
    /// The flattened track view as row positions: each album's row, followed by
    /// its tracks where the album is expanded.
    pub open spec fn rows(&self) -> Seq<RowPos> {
        rows_upto(self.albums@, self.albums@.len())
    }

    /// The identities of the rows of the flattened view.
    pub open spec fn row_keys(&self) -> Seq<KeyView> {
        Seq::new(self.rows().len(), |k: int| key_at(self.albums@, self.rows()[k]))
    }

    /// The track cursor is a row of the flattened view, or no selection.
    pub open spec fn cursor_valid(&self) -> bool {
        match self.track_sel_state {
            Some(c) => c < self.rows().len(),
            None => true,
        }
    }

    /// An artist whose albums were not fetched has none, and the cursor is valid.
    pub open spec fn wf(&self) -> bool {
        &&& !self.fetched ==> self.albums@.len() == 0
        &&& self.cursor_valid()
    }

    /// An artist as the library fetch delivers it: albums not fetched yet.
    pub fn new(name: String, sort_names: Vec<String>) -> (artist: ArtistData)
        ensures
            artist.name == name,
            artist.sort_names == sort_names,
            !artist.fetched,
            artist.albums@.len() == 0,
            artist.track_sel_state is None,
            artist.rows().len() == 0,
            artist.wf(),
    {
        ArtistData { name, fetched: false, sort_names, albums: Vec::new(), track_sel_state: None }
    }

    /// The positions of the rows of the flattened view.
    pub fn row_positions(&self) -> (positions: Vec<RowPos>)
        ensures
            positions@ == self.rows(),
    {
        let mut positions: Vec<RowPos> = Vec::new();
        let mut a: usize = 0;
        while a < self.albums.len()
            invariant
                a <= self.albums@.len(),
                positions@ == rows_upto(self.albums@, a as nat),
            decreases self.albums@.len() - a,
        {
            let ghost head = positions@;
            positions.push(RowPos::Album(a));
            if self.albums[a].expanded {
                let mut t: usize = 0;
                while t < self.albums[a].tracks.len()
                    invariant
                        a < self.albums@.len(),
                        t <= self.albums@[a as int].tracks@.len(),
                        positions@ == head + seq![RowPos::Album(a)] + Seq::new(
                            t as nat,
                            |k: int| RowPos::Song(a, k as usize),
                        ),
                    decreases self.albums@[a as int].tracks@.len() - t,
                {
                    positions.push(RowPos::Song(a, t));
                    t += 1;
                    assert(positions@ =~= head + seq![RowPos::Album(a)] + Seq::new(
                        t as nat,
                        |k: int| RowPos::Song(a, k as usize),
                    ));
                }
            }
            assert(positions@ =~= head + album_rows(self.albums@[a as int], a));
            a += 1;
        }
        positions
    }

    /// The flattened track view: one item per visible row, borrowed from the tree.
    pub fn flatten(&self) -> (items: Vec<TrackSelItem<'_>>)
        ensures
            items@.len() == self.rows().len(),
            forall|k: int|
                0 <= k < items@.len() ==> #[trigger] items@[k] == item_at(self.albums@, self.rows()[k]),
    {
        let positions = self.row_positions();
        let albums: usize = self.albums.len();
        proof {
            lemma_rows_valid(self.albums@, albums as nat);
        }
        let mut items: Vec<TrackSelItem<'_>> = Vec::new();
        let mut k: usize = 0;
        while k < positions.len()
            invariant
                k <= positions@.len(),
                positions@ == self.rows(),
                items@.len() == k,
                forall|q: int|
                    0 <= q < positions@.len() ==> valid_pos(self.albums@, #[trigger] positions@[q]),
                forall|q: int| 0 <= q < k ==> #[trigger] items@[q] == item_at(self.albums@, self.rows()[q]),
            decreases positions@.len() - k,
        {
            let item = match positions[k] {
                RowPos::Album(a) => TrackSelItem::Album(&self.albums[a]),
                RowPos::Song(a, t) => TrackSelItem::Song(&self.albums[a].tracks[t]),
            };
            items.push(item);
            k += 1;
        }
        items
    }

    /// The identities of the rows of the flattened view.
    pub fn keys(&self) -> (keys: Vec<EntryKey>)
        ensures
            keys_view(keys@) == self.row_keys(),
    {
        let positions = self.row_positions();
        let albums: usize = self.albums.len();
        proof {
            lemma_rows_valid(self.albums@, albums as nat);
        }
        let mut keys: Vec<EntryKey> = Vec::new();
        let mut k: usize = 0;
        while k < positions.len()
            invariant
                k <= positions@.len(),
                positions@ == self.rows(),
                keys@.len() == k,
                forall|q: int|
                    0 <= q < positions@.len() ==> valid_pos(self.albums@, #[trigger] positions@[q]),
                forall|q: int| 0 <= q < k ==> (#[trigger] keys@[q])@ == key_at(self.albums@, self.rows()[q]),
            decreases positions@.len() - k,
        {
            let key = match positions[k] {
                RowPos::Album(a) => EntryKey::Album(self.albums[a].name.clone()),
                RowPos::Song(a, t) => EntryKey::Song(self.albums[a].tracks[t].file.clone()),
            };
            keys.push(key);
            k += 1;
        }
        assert(keys_view(keys@) =~= self.row_keys());
        keys
    }

    /// Folds or expands the album at index `album` and relocates the track cursor:
    /// to the first row with the identity of the row it was on, else clamped.
    /// Returns whether there is such an album; if not, nothing changes.
    pub fn toggle_fold(&mut self, album: usize) -> (toggled: bool)
        ensures
            toggled == (album < old(self).albums@.len()),
            toggled ==> is_toggled(*old(self), *final(self), album as int),
            !toggled ==> *final(self) == *old(self),
            toggled ==> final(self).cursor_valid(),
            old(self).wf() ==> final(self).wf(),
    {
        if album >= self.albums.len() {
            return false;
        }
        let before = self.keys();
        let expanded = self.albums[album].expanded;
        self.albums[album].expanded = !expanded;
        let after = self.keys();
        self.track_sel_state = relocate_by_key(self.track_sel_state, &before, &after);
        true
    }

    /// Stores the albums that a fetch delivered, replacing what was there, and
    /// relocates the track cursor by row identity.
    pub fn set_albums(&mut self, albums: Vec<AlbumData>)
        ensures
            is_refetched(*old(self), *final(self), albums),
            final(self).wf(),
    {
        let before = self.keys();
        self.albums = albums;
        self.fetched = true;
        let after = self.keys();
        self.track_sel_state = relocate_by_key(self.track_sel_state, &before, &after);
    }
}

/// `after` is the artist `before` with the album at `album` folded if it was
/// expanded and expanded if it was folded, and the track cursor relocated by row
/// identity. Nothing else differs.
pub open spec fn is_toggled(before: ArtistData, after: ArtistData, album: int) -> bool {
    &&& after.name == before.name
    &&& after.fetched == before.fetched
    &&& after.sort_names == before.sort_names
    &&& after.albums@.len() == before.albums@.len()
    &&& forall|a: int|
        0 <= a < before.albums@.len() && a != album ==> #[trigger] after.albums@[a] == before.albums@[a]
    &&& after.albums@[album].name == before.albums@[album].name
    &&& after.albums@[album].tracks == before.albums@[album].tracks
    &&& after.albums@[album].expanded == !before.albums@[album].expanded
    &&& is_relocated(before.track_sel_state, before.row_keys(), after.row_keys(), after.track_sel_state)
}

/// `after` is the artist `before` with its albums fetched: the albums are the
/// given ones and the track cursor is relocated by row identity. The name and the
/// sort names are as before.
pub open spec fn is_refetched(before: ArtistData, after: ArtistData, albums: Vec<AlbumData>) -> bool {
    &&& after.name == before.name
    &&& after.sort_names == before.sort_names
    &&& after.fetched
    &&& after.albums == albums
    &&& is_relocated(before.track_sel_state, before.row_keys(), after.row_keys(), after.track_sel_state)
}

/// `after` is the artist `before` with the track cursor moved one step. Nothing
/// else differs.
pub open spec fn is_track_stepped(before: ArtistData, after: ArtistData, dir: Vertical) -> bool {
    &&& after.name == before.name
    &&& after.fetched == before.fetched
    &&& after.sort_names == before.sort_names
    &&& after.albums == before.albums
    &&& after.track_sel_state == stepped(before.track_sel_state, before.rows().len(), dir)
}

/// The name of the album that a song belongs to; the empty name where the song
/// names no album.
pub open spec fn album_name(song: Song) -> Seq<char> {
    match song.album {
        Some(name) => name@,
        None => Seq::empty(),
    }
}

/// The names of a list of albums.
pub open spec fn album_names(albums: Seq<(Seq<char>, Seq<Song>)>) -> Seq<Seq<char>> {
    Seq::new(albums.len(), |i: int| albums[i].0)
}

/// The first `n` songs grouped into albums, as name and tracks: albums come in the
/// order in which their first song comes, and the tracks of an album in the order
/// of the songs.
pub open spec fn grouped(songs: Seq<Song>, n: nat) -> Seq<(Seq<char>, Seq<Song>)>
    decreases n,
{
    if n == 0 {
        Seq::empty()
    } else {
        let before = grouped(songs, (n - 1) as nat);
        let song = songs[n - 1];
        if exists|i: int| is_first_at(album_names(before), album_name(song), i) {
            let i = choose|i: int| is_first_at(album_names(before), album_name(song), i);
            before.update(i, (before[i].0, before[i].1.push(song)))
        } else {
            before.push((album_name(song), seq![song]))
        }
    }
}

/// In a grouping no album name occurs twice, no album is empty, and every track
/// names the album that it stands in.
pub proof fn law_grouped(songs: Seq<Song>, n: nat)
    requires
        n <= songs.len(),
    ensures
        forall|i: int, j: int|
            0 <= i < j < grouped(songs, n).len() ==> (#[trigger] grouped(songs, n)[i]).0 != (
            #[trigger] grouped(songs, n)[j]).0,
        forall|i: int| 0 <= i < grouped(songs, n).len() ==> (#[trigger] grouped(songs, n)[i]).1.len() > 0,
        forall|i: int, t: int|
            0 <= i < grouped(songs, n).len() && 0 <= t < grouped(songs, n)[i].1.len() ==> album_name(
                #[trigger] grouped(songs, n)[i].1[t],
            ) == grouped(songs, n)[i].0,
    decreases n,
{
    if n > 0 {
        law_grouped(songs, (n - 1) as nat);
        let before = grouped(songs, (n - 1) as nat);
        let after = grouped(songs, n);
        let song = songs[n - 1];
        let name = album_name(song);
        if exists|i: int| is_first_at(album_names(before), name, i) {
            let at = choose|i: int| is_first_at(album_names(before), name, i);
            assert(album_names(before)[at] == before[at].0);
            assert forall|i: int, j: int| 0 <= i < j < after.len() implies (#[trigger] after[i]).0 != (
            #[trigger] after[j]).0 by {
                assert(after[i].0 == before[i].0 && after[j].0 == before[j].0);
            }
            assert forall|i: int, t: int| 0 <= i < after.len() && 0 <= t < after[i].1.len() implies album_name(
                #[trigger] after[i].1[t],
            ) == after[i].0 by {
                if i == at && t == before[at].1.len() {
                } else {
                    assert(after[i].1[t] == before[i].1[t]);
                }
            }
            assert forall|i: int| 0 <= i < after.len() implies (#[trigger] after[i]).1.len() > 0 by {
                if i != at {
                    assert(after[i] == before[i]);
                }
            }
        } else {
            assert forall|i: int, j: int| 0 <= i < j < after.len() implies (#[trigger] after[i]).0 != (
            #[trigger] after[j]).0 by {
                if j == before.len() {
                    if before[i].0 == name {
                        assert(album_names(before)[i] == name);
                        lemma_first_exists(album_names(before), name, i);
                    }
                } else {
                    assert(after[i] == before[i] && after[j] == before[j]);
                }
            }
            assert forall|i: int, t: int| 0 <= i < after.len() && 0 <= t < after[i].1.len() implies album_name(
                #[trigger] after[i].1[t],
            ) == after[i].0 by {
                if i < before.len() {
                    assert(after[i] == before[i]);
                }
            }
            assert forall|i: int| 0 <= i < after.len() implies (#[trigger] after[i]).1.len() > 0 by {
                if i < before.len() {
                    assert(after[i] == before[i]);
                }
            }
        }
    }
}

/// A list of albums as names and tracks.
pub open spec fn albums_view(albums: Seq<AlbumData>) -> Seq<(Seq<char>, Seq<Song>)> {
    Seq::new(albums.len(), |i: int| (albums[i].name@, albums[i].tracks@))
}

/// The album of `albums` with the given name.
fn find_album(albums: &Vec<AlbumData>, name: &str) -> (found: Option<usize>)
    ensures
        match found {
            Some(i) => is_first_at(album_names(albums_view(albums@)), name@, i as int),
            None => forall|i: int| !is_first_at(album_names(albums_view(albums@)), name@, i),
        },
{
    let mut i: usize = 0;
    while i < albums.len()
        invariant
            i <= albums@.len(),
            forall|q: int| 0 <= q < i ==> #[trigger] album_names(albums_view(albums@))[q] != name@,
        decreases albums@.len() - i,
    {
        if same_text(albums[i].name.as_str(), name) {
            return Some(i);
        }
        i += 1;
    }
    assert forall|k: int| !is_first_at(album_names(albums_view(albums@)), name@, k) by {
        if 0 <= k < albums@.len() {
            assert(album_names(albums_view(albums@))[k] != name@);
        }
    }
    None
}

/// Groups the songs of one artist into albums by the album that each song names.
/// Albums come in the order in which their first song comes, every album folded.
pub fn group_albums(songs: Vec<Song>) -> (albums: Vec<AlbumData>)
    ensures
        albums_view(albums@) == grouped(songs@, songs@.len()),
        forall|i: int| 0 <= i < albums@.len() ==> !(#[trigger] albums@[i]).expanded,
{
    let ghost all = songs@;
    let mut rest = songs;
    let mut held: Vec<Song> = Vec::new();
    while rest.len() > 0
        invariant
            held@.len() + rest@.len() == all.len(),
            forall|k: int| 0 <= k < rest@.len() ==> #[trigger] rest@[k] == all[k],
            forall|k: int| 0 <= k < held@.len() ==> #[trigger] held@[k] == all[all.len() - 1 - k],
        decreases rest@.len(),
    {
        match rest.pop() {
            Some(song) => {
                held.push(song);
            },
            None => {},
        }
    }
    let mut albums: Vec<AlbumData> = Vec::new();
    let ghost mut n: nat = 0;
    assert(albums_view(albums@) =~= grouped(all, 0));
    while held.len() > 0
        invariant
            n + held@.len() == all.len(),
            forall|k: int| 0 <= k < held@.len() ==> #[trigger] held@[k] == all[all.len() - 1 - k],
            albums_view(albums@) == grouped(all, n),
            forall|i: int| 0 <= i < albums@.len() ==> !(#[trigger] albums@[i]).expanded,
        decreases held@.len(),
    {
        let ghost before = albums_view(albums@);
        match held.pop() {
            Some(song) => {
                assert(song == all[n as int]);
                let found = match &song.album {
                    Some(name) => find_album(&albums, name.as_str()),
                    None => {
                        let empty = String::new();
                        find_album(&albums, empty.as_str())
                    },
                };
                match found {
                    Some(i) => {
                        proof {
                            let chosen = choose|k: int| is_first_at(album_names(before), album_name(song), k);
                            if chosen < i {
                                assert(album_names(before)[chosen] != album_name(song));
                            } else if i < chosen {
                                assert(album_names(before)[i as int] != album_name(song));
                            }
                        }
                        albums[i].tracks.push(song);
                        assert(albums_view(albums@) =~= grouped(all, n + 1));
                    },
                    None => {
                        let name = match &song.album {
                            Some(name) => name.clone(),
                            None => String::new(),
                        };
                        let mut tracks: Vec<Song> = Vec::new();
                        tracks.push(song);
                        albums.push(AlbumData { expanded: false, name, tracks });
                        assert(albums_view(albums@) =~= grouped(all, n + 1));
                    },
                }
                proof {
                    n = n + 1;
                }
            },
            None => {},
        }
    }
    albums
}

} // verus!
