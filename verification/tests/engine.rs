use inori::config::keybind::{KeyCode, KeyEvent, KeyModifiers, KeybindMap, MovementKeys};
use inori::engine::{Action, Engine};
use inori::model::{AlbumData, ArtistData, LibActiveSelector, Screen, Song, State};
use inori::update::{Dirs, Horizontal, Message, SearchMsg, Toggle, Vertical};

fn song(file: &str) -> Song {
    Song { file: file.to_string(), title: None, artist: None, album: None, duration: None }
}

fn album(name: &str, expanded: bool, files: &[&str]) -> AlbumData {
    AlbumData { expanded, name: name.to_string(), tracks: files.iter().map(|f| song(f)).collect() }
}

fn order(list: &[usize]) -> Vec<Option<usize>> {
    list.iter().map(|i| Some(*i)).collect()
}

fn ch(c: char) -> KeyEvent {
    KeyEvent::new(KeyCode::Char(c), KeyModifiers::empty())
}

fn key(code: KeyCode) -> KeyEvent {
    KeyEvent::new(code, KeyModifiers::empty())
}

fn engine() -> Engine {
    let mut e = Engine::new();
    e.library.set_contents(vec![
        ArtistData::new("Abba".to_string(), Vec::new()),
        ArtistData::new("Radiohead".to_string(), Vec::new()),
        ArtistData::new("The Beatles".to_string(), Vec::new()),
    ]);
    e.library.set_albums(1, vec![album("Kid A", true, &["k1", "k2"]), album("Amnesiac", false, &["a1"])]);
    e.queue.set_contents(&mut e.library.matcher, vec![song("one"), song("two"), song("three")]);
    e
}

const DOWN: Message = Message::Direction(Dirs::Vert(Vertical::Down));
const UP: Message = Message::Direction(Dirs::Vert(Vertical::Up));

#[test]
fn new_engine_shows_an_empty_queue() {
    let e = Engine::new();
    assert_eq!(e.state, State::Running);
    assert_eq!(e.screen, Screen::Queue);
    assert!(e.library.contents.is_empty());
    assert_eq!(e.library.artist_state, None);
    assert_eq!(e.library.active, LibActiveSelector::ArtistSelector);
    assert!(!e.library.search.active);
    assert_eq!(e.library.search.query, "");
    assert!(e.queue.contents.is_empty());
    assert_eq!(e.queue.state, None);
    assert!(!e.queue.search.active);
    assert_eq!(e.queue.search.query, "");
    assert!(e.pending_keys.is_empty());
}

#[test]
fn movement_goes_to_the_list_that_is_shown() {
    let mut e = engine();
    assert_eq!(e.update(DOWN), Action::Nothing);
    assert_eq!(e.update(DOWN), Action::Nothing);
    assert_eq!(e.queue.state, Some(1));
    assert_eq!(e.library.artist_state, None);
    assert_eq!(e.update(Message::SwitchScreen(Screen::Library)), Action::Nothing);
    assert_eq!(e.screen, Screen::Library);
    assert_eq!(e.update(UP), Action::Nothing);
    assert_eq!(e.library.artist_state, Some(2));
    assert_eq!(e.queue.state, Some(1));
    assert_eq!(e.update(Message::SwitchScreen(Screen::Playlist)), Action::Nothing);
    assert_eq!(e.update(DOWN), Action::Nothing);
    assert_eq!(e.library.artist_state, Some(2));
    assert_eq!(e.queue.state, Some(1));
}

#[test]
fn horizontal_movement_switches_the_selector_of_the_library() {
    let mut e = engine();
    assert_eq!(e.update(Message::Direction(Dirs::Horiz(Horizontal::Right))), Action::Nothing);
    assert_eq!(e.library.active, LibActiveSelector::ArtistSelector);
    e.update(Message::SwitchScreen(Screen::Library));
    e.update(UP);
    e.update(UP);
    assert_eq!(e.library.selected_artist(), Some(1));
    e.update(Message::Direction(Dirs::Horiz(Horizontal::Right)));
    assert_eq!(e.library.active, LibActiveSelector::TrackSelector);
    assert_eq!(e.library.artist_state, Some(1));
    e.update(DOWN);
    e.update(DOWN);
    assert_eq!(e.library.contents[1].track_sel_state, Some(1));
    assert_eq!(e.library.artist_state, Some(1));
    e.update(Message::Direction(Dirs::Horiz(Horizontal::Left)));
    assert_eq!(e.library.active, LibActiveSelector::ArtistSelector);
    assert_eq!(e.library.contents[1].track_sel_state, Some(1));
}

#[test]
fn toggle_screen_goes_between_library_and_queue() {
    let mut e = engine();
    assert_eq!(e.update(Message::ToggleScreen), Action::Nothing);
    assert_eq!(e.screen, Screen::Library);
    e.update(Message::ToggleScreen);
    assert_eq!(e.screen, Screen::Queue);
    e.update(Message::SwitchScreen(Screen::Playlist));
    e.update(Message::ToggleScreen);
    assert_eq!(e.screen, Screen::Library);
}

#[test]
fn commands_for_the_player_come_back_as_actions() {
    let mut e = engine();
    assert_eq!(e.update(Message::PlayPause), Action::TogglePause);
    assert_eq!(e.update(Message::Clear), Action::ClearQueue);
    assert_eq!(e.update(Message::Toggle(Toggle::Repeat)), Action::Switch(Toggle::Repeat));
    assert_eq!(e.update(Message::Toggle(Toggle::Random)), Action::Switch(Toggle::Random));
    assert_eq!(e.update(Message::Select), Action::Nothing);
    assert_eq!(e.update(Message::Delete), Action::Nothing);
    e.update(DOWN);
    e.update(DOWN);
    assert_eq!(e.update(Message::Select), Action::PlayQueued(1));
    assert_eq!(e.update(Message::Delete), Action::DeleteQueued(1));
    e.update(Message::SwitchScreen(Screen::Library));
    assert_eq!(e.update(Message::Select), Action::Nothing);
    assert_eq!(e.update(Message::Delete), Action::Nothing);
    e.update(UP);
    assert_eq!(e.update(Message::Select), Action::EnqueueArtist(2));
    assert_eq!(e.update(Message::Delete), Action::Nothing);
    assert_eq!(e.state, State::Running);
    assert_eq!(e.update(Message::SwitchState(State::Done)), Action::Nothing);
    assert_eq!(e.state, State::Done);
}

#[test]
fn fold_leaves_the_queue_and_the_other_artists_alone() {
    let mut e = engine();
    e.queue.state = Some(2);
    assert_eq!(e.update(Message::Fold), Action::Nothing);
    assert!(!e.library.contents[1].albums[1].expanded);
    e.update(Message::SwitchScreen(Screen::Library));
    e.library.artist_state = Some(1);
    e.library.contents[1].track_sel_state = Some(3);
    e.library.contents[0].track_sel_state = None;
    let order_before = e.library.search.cache.order.clone();
    assert_eq!(e.update(Message::Fold), Action::Nothing);
    assert!(e.library.contents[1].albums[1].expanded);
    assert!(e.library.contents[1].albums[0].expanded);
    assert_eq!(e.library.contents[1].track_sel_state, Some(3));
    assert_eq!(e.library.contents[1].flatten().len(), 5);
    assert_eq!(e.library.search.cache.order, order_before);
    assert_eq!(e.library.artist_state, Some(1));
    assert!(e.library.contents[0].albums.is_empty());
    assert_eq!(e.library.contents[0].track_sel_state, None);
    assert_eq!(e.queue.state, Some(2));
    assert_eq!(e.queue.contents.len(), 3);
    assert_eq!(e.queue.search.cache.order, order(&[0, 1, 2]));
}

#[test]
fn search_takes_keystrokes_until_it_ends() {
    let mut e = engine();
    e.update(Message::SwitchScreen(Screen::Library));
    assert_eq!(e.update(Message::LocalSearch(SearchMsg::Start)), Action::Nothing);
    assert_eq!(e.state, State::Searching);
    assert!(e.library.search.active);
    assert!(!e.queue.search.active);
    assert_eq!(e.keystroke(KeyCode::Char('b')), Action::Nothing);
    assert_eq!(e.keystroke(KeyCode::Char('e')), Action::Nothing);
    assert_eq!(e.library.search.query, "be");
    assert_eq!(e.library.search.cache.order, order(&[2]));
    assert_eq!(e.keystroke(KeyCode::Tab), Action::Nothing);
    assert_eq!(e.library.search.query, "be");
    assert_eq!(e.keystroke(KeyCode::Backspace), Action::Nothing);
    assert_eq!(e.library.search.query, "b");
    assert_eq!(e.keystroke(KeyCode::Enter), Action::Nothing);
    assert_eq!(e.state, State::Running);
    assert!(e.library.search.active);
    assert_eq!(e.library.search.query, "b");
    assert_eq!(e.library.search.cache.order, order(&[2, 0]));
    assert_eq!(e.update(Message::Escape), Action::Nothing);
    assert_eq!(e.state, State::Running);
    assert!(!e.library.search.active);
    assert_eq!(e.library.search.query, "");
    assert_eq!(e.library.search.cache.order, order(&[0, 1, 2]));
    assert_eq!(e.queue.search.cache.order, order(&[0, 1, 2]));
}

#[test]
fn escape_key_ends_the_search_of_the_queue() {
    let mut e = engine();
    e.update(Message::LocalSearch(SearchMsg::Start));
    assert_eq!(e.state, State::Searching);
    assert!(e.queue.search.active);
    e.keystroke(KeyCode::Char('t'));
    e.keystroke(KeyCode::Char('w'));
    assert_eq!(e.queue.search.query, "tw");
    assert_eq!(e.queue.search.cache.order, order(&[1]));
    assert_eq!(e.library.search.query, "");
    assert_eq!(e.keystroke(KeyCode::Esc), Action::Nothing);
    assert_eq!(e.state, State::Running);
    assert!(!e.queue.search.active);
    assert_eq!(e.queue.search.query, "");
    assert_eq!(e.queue.search.cache.order, order(&[0, 1, 2]));
    e.update(Message::LocalSearch(SearchMsg::Start));
    e.update(Message::LocalSearch(SearchMsg::End));
    assert_eq!(e.state, State::Running);
    assert!(!e.queue.search.active);
}

#[test]
fn global_search_goes_to_the_library() {
    let mut e = engine();
    assert_eq!(e.update(Message::GlobalSearch(SearchMsg::Start)), Action::Nothing);
    assert_eq!(e.screen, Screen::Library);
    assert_eq!(e.state, State::Searching);
    assert!(e.library.search.active);
    assert!(!e.queue.search.active);
    e.update(Message::GlobalSearch(SearchMsg::End));
    assert_eq!(e.state, State::Running);
    assert!(!e.library.search.active);
}

#[test]
fn the_playlist_screen_has_no_search() {
    let mut e = engine();
    e.update(Message::SwitchScreen(Screen::Playlist));
    assert_eq!(e.update(Message::LocalSearch(SearchMsg::Start)), Action::Nothing);
    assert_eq!(e.state, State::Running);
    assert_eq!(e.screen, Screen::Playlist);
    assert!(!e.library.search.active);
    assert!(!e.queue.search.active);
}

#[test]
fn key_presses_go_through_the_bindings() {
    let mut map = KeybindMap::default_with(MovementKeys::Qwerty);
    map.insert(Message::Clear, &[ch('y'), ch('y')]);
    let mut e = engine();
    assert_eq!(e.key_press(&map, ch('p')), Action::TogglePause);
    assert!(e.pending_keys.is_empty());
    assert_eq!(e.key_press(&map, ch('j')), Action::Nothing);
    assert_eq!(e.queue.state, Some(0));
    assert_eq!(e.key_press(&map, ch('y')), Action::Nothing);
    assert_eq!(e.pending_keys, vec![ch('y')]);
    assert_eq!(e.key_press(&map, ch('y')), Action::ClearQueue);
    assert!(e.pending_keys.is_empty());
    assert_eq!(e.key_press(&map, ch('y')), Action::Nothing);
    assert_eq!(e.key_press(&map, ch('x')), Action::Nothing);
    assert!(e.pending_keys.is_empty());
    assert_eq!(e.key_press(&map, ch('x')), Action::Nothing);
    assert_eq!(e.key_press(&map, key(KeyCode::Enter)), Action::PlayQueued(0));
}

#[test]
fn key_presses_go_to_the_search_while_it_takes_keystrokes() {
    let map = KeybindMap::default();
    let mut e = engine();
    assert_eq!(e.key_press(&map, ch('/')), Action::Nothing);
    assert_eq!(e.state, State::Searching);
    assert_eq!(e.key_press(&map, ch('p')), Action::Nothing);
    assert_eq!(e.queue.search.query, "p");
    assert_eq!(e.key_press(&map, ch('q')), Action::Nothing);
    assert_eq!(e.state, State::Searching);
    assert_eq!(e.queue.search.query, "pq");
    assert!(e.queue.search.cache.order.is_empty());
    assert_eq!(e.queue.state, None);
    assert_eq!(e.key_press(&map, key(KeyCode::Backspace)), Action::Nothing);
    assert_eq!(e.key_press(&map, key(KeyCode::Backspace)), Action::Nothing);
    assert_eq!(e.key_press(&map, key(KeyCode::Backspace)), Action::Nothing);
    assert_eq!(e.queue.search.query, "");
    assert_eq!(e.queue.search.cache.order, order(&[0, 1, 2]));
    assert_eq!(e.key_press(&map, key(KeyCode::Esc)), Action::Nothing);
    assert_eq!(e.state, State::Running);
    assert_eq!(e.key_press(&map, ch('q')), Action::Nothing);
    assert_eq!(e.state, State::Done);
}
