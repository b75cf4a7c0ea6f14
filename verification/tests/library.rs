use inori::model::{AlbumData, ArtistData, LibActiveSelector, LibraryState, QueueSelector, Song};
use inori::update::Vertical;
use nucleo_matcher::Matcher;

fn song(file: &str, title: Option<&str>) -> Song {
    Song { file: file.to_string(), title: title.map(|t| t.to_string()), artist: None, album: None, duration: None }
}

fn album(name: &str, expanded: bool, files: &[&str]) -> AlbumData {
    AlbumData { expanded, name: name.to_string(), tracks: files.iter().map(|f| song(f, None)).collect() }
}

fn artists(list: &[&str]) -> Vec<ArtistData> {
    list.iter().map(|n| ArtistData::new(n.to_string(), Vec::new())).collect()
}

fn order(list: &[usize]) -> Vec<Option<usize>> {
    list.iter().map(|i| Some(*i)).collect()
}

fn library(list: &[&str]) -> LibraryState {
    let mut l = LibraryState::new();
    l.set_contents(artists(list));
    l
}

fn type_query(l: &mut LibraryState, text: &str) {
    for c in text.chars() {
        assert!(l.push_query(c));
    }
}

#[test]
fn new_library_is_empty_and_idle() {
    let l = LibraryState::new();
    assert!(l.contents.is_empty());
    assert_eq!(l.artist_state, None);
    assert_eq!(l.active, LibActiveSelector::ArtistSelector);
    assert!(!l.search.active);
    assert_eq!(l.search.query, "");
    assert!(l.search.cache.order.is_empty());
    assert_eq!(l.selected_artist(), None);
    assert_eq!(l.pending_fetch(), None);
}

#[test]
fn set_contents_gives_identity_order() {
    let l = library(&["Abba", "Radiohead", "The Beatles"]);
    assert_eq!(l.contents.len(), 3);
    assert_eq!(l.search.cache.order, order(&[0, 1, 2]));
    assert_eq!(l.search.cache.indices, vec![Some(vec![]); 3]);
    assert_eq!(l.artist_state, None);
}

#[test]
fn search_strings_hold_name_then_sort_names() {
    let mut l = LibraryState::new();
    l.set_contents(vec![
        ArtistData::new("The Beatles".to_string(), vec!["Beatles, The".to_string(), "Beatles".to_string()]),
        ArtistData::new("Abba".to_string(), Vec::new()),
    ]);
    assert_eq!(
        l.search_strings(),
        vec![
            vec!["The Beatles".to_string(), "Beatles, The".to_string(), "Beatles".to_string()],
            vec!["Abba".to_string()],
        ]
    );
}

#[test]
fn typing_filters_and_the_cursor_follows() {
    let mut l = library(&["Abba", "Radiohead", "The Beatles"]);
    l.navigate(Vertical::Down);
    l.navigate(Vertical::Down);
    l.navigate(Vertical::Down);
    assert_eq!(l.artist_state, Some(2));
    assert_eq!(l.selected_artist(), Some(2));
    l.enter_search();
    assert!(l.search.active);
    assert_eq!(l.search.cache.order, order(&[0, 1, 2]));
    assert_eq!(l.artist_state, Some(2));
    type_query(&mut l, "be");
    assert_eq!(l.search.query, "be");
    assert_eq!(l.search.cache.query, "be");
    assert_eq!(l.search.cache.order, order(&[2]));
    assert_eq!(l.search.cache.indices, vec![Some(vec![4, 5])]);
    assert_eq!(l.artist_state, Some(0));
    assert_eq!(l.selected_artist(), Some(2));
    assert_eq!(l.artist_at(0).map(|a| a.name.as_str()), Some("The Beatles"));
    assert!(l.artist_at(1).is_none());
    assert!(l.pop_query());
    assert_eq!(l.search.query, "b");
    assert_eq!(l.search.cache.order, order(&[2, 0]));
    assert_eq!(l.artist_state, Some(0));
    l.exit_search();
    assert!(!l.search.active);
    assert_eq!(l.search.query, "");
    assert_eq!(l.search.cache.order, order(&[0, 1, 2]));
    assert_eq!(l.artist_state, Some(2));
}

#[test]
fn cursor_clamps_when_its_artist_is_filtered_out() {
    let mut l = library(&["Abba", "Radiohead", "The Beatles"]);
    l.artist_state = Some(1);
    l.enter_search();
    type_query(&mut l, "b");
    assert_eq!(l.search.cache.order, order(&[2, 0]));
    assert_eq!(l.artist_state, Some(1));
    assert_eq!(l.selected_artist(), Some(0));
    type_query(&mut l, "e");
    assert_eq!(l.search.cache.order, order(&[2]));
    assert_eq!(l.artist_state, Some(0));
    assert_eq!(l.selected_artist(), Some(2));
    type_query(&mut l, "zz");
    assert!(l.search.cache.order.is_empty());
    assert_eq!(l.artist_state, None);
    assert_eq!(l.selected_artist(), None);
}

#[test]
fn keystrokes_are_ignored_while_the_search_is_off() {
    let mut l = library(&["Abba", "Radiohead"]);
    l.artist_state = Some(1);
    assert!(!l.push_query('a'));
    assert!(!l.pop_query());
    assert_eq!(l.search.query, "");
    assert_eq!(l.search.cache.order, order(&[0, 1]));
    assert_eq!(l.artist_state, Some(1));
}

#[test]
fn backspace_on_an_empty_query_keeps_it_empty() {
    let mut l = library(&["Abba", "Radiohead"]);
    l.enter_search();
    assert!(l.pop_query());
    assert_eq!(l.search.query, "");
    assert_eq!(l.search.cache.order, order(&[0, 1]));
}

#[test]
fn update_filter_recomputes_only_a_stale_cache() {
    let mut l = library(&["Abba", "Radiohead", "The Beatles"]);
    assert!(!l.update_filter());
    l.search.active = true;
    l.search.query = "a".to_string();
    assert!(!l.search.is_trusted(3));
    assert!(l.update_filter());
    assert_eq!(l.search.cache.order, order(&[0, 1, 2]));
    assert_eq!(l.search.cache.indices, vec![Some(vec![0]), Some(vec![1]), Some(vec![6])]);
    assert!(l.search.is_trusted(3));
    assert!(!l.update_filter());
    l.search.invalidate();
    assert!(l.search.cache.order.is_empty() && l.search.cache.indices.is_empty());
    assert_eq!(l.search.cache.query, "a");
    assert!(!l.search.is_trusted(3));
    assert!(l.search.is_trusted(0));
    assert!(l.update_filter());
    assert_eq!(l.search.cache.order, order(&[0, 1, 2]));
}

#[test]
fn refetch_keeps_the_cursor_on_the_same_artist() {
    let mut l = library(&["Abba", "Radiohead", "The Beatles"]);
    l.artist_state = Some(1);
    l.set_contents(artists(&["Aphex Twin", "Abba", "Beck", "Radiohead"]));
    assert_eq!(l.search.cache.order, order(&[0, 1, 2, 3]));
    assert_eq!(l.artist_state, Some(3));
    l.set_contents(artists(&["Abba", "Beck"]));
    assert_eq!(l.artist_state, Some(1));
    l.set_contents(Vec::new());
    assert!(l.search.cache.order.is_empty());
    assert_eq!(l.artist_state, None);
}

#[test]
fn refetch_under_a_query_refilters() {
    let mut l = library(&["Abba", "Radiohead", "The Beatles"]);
    l.enter_search();
    type_query(&mut l, "be");
    assert_eq!(l.artist_state, None);
    l.artist_state = Some(0);
    l.set_contents(artists(&["Beck", "Abba", "The Beatles"]));
    assert_eq!(l.search.query, "be");
    assert_eq!(l.search.cache.query, "be");
    assert_eq!(l.search.cache.order, order(&[0, 2]));
    assert_eq!(l.artist_state, Some(1));
}

#[test]
fn lazy_fetch_is_asked_for_the_selected_artist() {
    let mut l = library(&["Abba", "Radiohead"]);
    assert_eq!(l.pending_fetch(), None);
    l.navigate(Vertical::Down);
    assert_eq!(l.pending_fetch(), Some(0));
    assert!(l.set_albums(0, vec![album("Arrival", false, &["a", "b"])]));
    assert_eq!(l.pending_fetch(), None);
    assert!(l.contents[0].fetched);
    assert!(!l.contents[1].fetched);
    assert_eq!(l.contents[0].albums.len(), 1);
    l.navigate(Vertical::Down);
    assert_eq!(l.pending_fetch(), Some(1));
    assert!(!l.set_albums(2, Vec::new()));
}

#[test]
fn fold_touches_one_artist_only() {
    let mut l = library(&["Abba", "Radiohead"]);
    assert!(l.set_albums(0, vec![album("Arrival", false, &["a", "b"]), album("Waterloo", true, &["c"])]));
    assert!(l.set_albums(1, vec![album("Kid A", true, &["k1", "k2"])]));
    l.artist_state = Some(1);
    l.contents[0].track_sel_state = Some(1);
    l.contents[1].track_sel_state = Some(2);
    let order_before = l.search.cache.order.clone();
    assert!(l.toggle_fold(0, 0));
    assert_eq!(l.search.cache.order, order_before);
    assert_eq!(l.artist_state, Some(1));
    assert_eq!(l.active, LibActiveSelector::ArtistSelector);
    assert!(l.contents[0].albums[0].expanded);
    assert!(l.contents[0].albums[1].expanded);
    assert_eq!(l.contents[0].track_sel_state, Some(3));
    assert!(l.contents[1].albums[0].expanded);
    assert_eq!(l.contents[1].track_sel_state, Some(2));
    assert_eq!(l.contents[1].flatten().len(), 3);
    assert!(!l.toggle_fold(0, 2));
    assert!(!l.toggle_fold(2, 0));
}

#[test]
fn fold_command_acts_on_the_album_under_the_track_cursor() {
    let mut l = library(&["Abba", "Radiohead"]);
    assert!(l.set_albums(1, vec![album("Kid A", true, &["k1", "k2"]), album("Amnesiac", false, &["a1"])]));
    assert_eq!(l.fold_target(), None);
    assert!(!l.toggle_selected());
    l.artist_state = Some(1);
    assert_eq!(l.fold_target(), None);
    l.contents[1].track_sel_state = Some(1);
    assert_eq!(l.fold_target(), None);
    assert!(!l.toggle_selected());
    l.contents[1].track_sel_state = Some(3);
    assert_eq!(l.fold_target(), Some((1, 1)));
    assert!(l.toggle_selected());
    assert!(l.contents[1].albums[1].expanded);
    assert_eq!(l.contents[1].track_sel_state, Some(3));
    assert_eq!(l.contents[1].flatten().len(), 5);
}

#[test]
fn switching_the_selector_moves_no_cursor() {
    let mut l = library(&["Abba", "Radiohead"]);
    assert!(l.set_albums(0, vec![album("Arrival", true, &["a", "b"])]));
    l.artist_state = Some(0);
    l.contents[0].track_sel_state = Some(2);
    l.switch_selector(LibActiveSelector::TrackSelector);
    assert_eq!(l.active, LibActiveSelector::TrackSelector);
    assert_eq!(l.artist_state, Some(0));
    assert_eq!(l.contents[0].track_sel_state, Some(2));
    l.navigate(Vertical::Up);
    assert_eq!(l.artist_state, Some(0));
    assert_eq!(l.contents[0].track_sel_state, Some(1));
    l.switch_selector(LibActiveSelector::ArtistSelector);
    l.navigate(Vertical::Down);
    assert_eq!(l.artist_state, Some(1));
    assert_eq!(l.contents[0].track_sel_state, Some(1));
    l.switch_selector(LibActiveSelector::TrackSelector);
    l.navigate(Vertical::Down);
    assert_eq!(l.contents[0].track_sel_state, Some(1));
    assert_eq!(l.contents[1].track_sel_state, None);
}

#[test]
fn queue_filters_on_titles_and_falls_back_to_files() {
    let mut matcher = Matcher::default();
    let mut q = QueueSelector::new();
    assert!(q.contents.is_empty());
    assert_eq!(q.state, None);
    q.set_contents(
        &mut matcher,
        vec![song("one.flac", Some("Love Me Do")), song("love.flac", None), song("three.flac", Some("Yesterday"))],
    );
    assert_eq!(
        q.search_strings(),
        vec![vec!["Love Me Do".to_string()], vec!["love.flac".to_string()], vec!["Yesterday".to_string()]]
    );
    assert_eq!(q.search.cache.order, order(&[0, 1, 2]));
    q.navigate(Vertical::Up);
    assert_eq!(q.state, Some(2));
    q.navigate(Vertical::Up);
    assert_eq!(q.selected_song(), Some(1));
    q.enter_search(&mut matcher);
    for c in "love".chars() {
        assert!(q.push_query(&mut matcher, c));
    }
    assert_eq!(q.search.cache.order, order(&[0, 1]));
    assert_eq!(q.search.cache.indices, vec![Some(vec![0, 1, 2, 3]), Some(vec![0, 1, 2, 3])]);
    assert_eq!(q.state, Some(1));
    assert_eq!(q.song_at(1).map(|s| s.file.as_str()), Some("love.flac"));
    assert!(q.song_at(2).is_none());
    assert!(q.pop_query(&mut matcher));
    assert_eq!(q.search.query, "lov");
    q.exit_search(&mut matcher);
    assert_eq!(q.search.query, "");
    assert_eq!(q.search.cache.order, order(&[0, 1, 2]));
    assert_eq!(q.state, Some(1));
    assert!(!q.push_query(&mut matcher, 'x'));
    assert!(!q.pop_query(&mut matcher));
}

#[test]
fn queue_change_keeps_the_cursor_on_the_same_song() {
    let mut matcher = Matcher::default();
    let mut q = QueueSelector::new();
    q.set_contents(&mut matcher, vec![song("a", None), song("b", None), song("c", None)]);
    q.state = Some(2);
    q.set_contents(&mut matcher, vec![song("c", None), song("a", None), song("b", None), song("d", None)]);
    assert_eq!(q.state, Some(0));
    q.state = Some(3);
    q.set_contents(&mut matcher, vec![song("a", None), song("b", None)]);
    assert_eq!(q.state, Some(1));
    q.set_contents(&mut matcher, Vec::new());
    assert_eq!(q.state, None);
    assert!(q.search.cache.order.is_empty());
}
