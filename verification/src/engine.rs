//! The engine of one session: the screens with their lists, and how a command or a
//! key press changes them. Whatever a command asks of the world outside (the
//! player, the queue of the server) comes back as an action for the caller.

use crate::config::keybind::{lookup_view, KeyCode, KeyEvent, KeybindMap, TargetView};
use crate::library::{
    is_fold_toggled, is_navigated, is_searched, is_switched, is_typed, only_artist_differs, selected_album,
    selected_index, without_last,
};
use crate::model::{LibActiveSelector, LibraryState, PlaylistState, QueueSelector, Screen, State};
use crate::queue::{is_queue_navigated, is_queue_searched, is_queue_typed};
use crate::selection::entry_under;
use crate::update::{Dirs, Horizontal, Message, SearchMsg, Toggle};
use vstd::prelude::*;

verus! {

/// The state of one session.
pub struct Engine {
    pub state: State,
    pub screen: Screen,
    pub library: LibraryState,
    pub queue: QueueSelector,
    pub playlist: PlaylistState,
    /// The key presses of a key sequence that is not complete yet.
    pub pending_keys: Vec<KeyEvent>,
}

/// What is left for the caller to do after a command.
#[derive(Clone, Copy, Debug, PartialEq, Eq, Structural)]
pub enum Action {
    Nothing,
    /// Pause the player, or resume it.
    TogglePause,
    /// Play the song at this position of the queue.
    PlayQueued(usize),
    /// Add the songs of the artist at this storage index to the queue.
    EnqueueArtist(usize),
    /// Empty the queue.
    ClearQueue,
    /// Take the song at this position out of the queue.
    DeleteQueued(usize),
    /// Switch this playback mode on or off.
    Switch(Toggle),
}

/// The library is as before but for the scratch memory of its matcher.
pub open spec fn library_kept(before: LibraryState, after: LibraryState) -> bool {
    &&& after.search == before.search
    &&& after.active == before.active
    &&& after.contents == before.contents
    &&& after.artist_state == before.artist_state
}

/// Nothing differs but the pending key sequence.
pub open spec fn nothing_differs(before: Engine, after: Engine) -> bool {
    &&& after.state == before.state
    &&& after.screen == before.screen
    &&& after.library == before.library
    &&& after.queue == before.queue
    &&& after.playlist == before.playlist
}

/// The selector that a horizontal direction leads to.
pub open spec fn selector_of(side: Horizontal) -> LibActiveSelector {
    match side {
        Horizontal::Left => LibActiveSelector::ArtistSelector,
        Horizontal::Right => LibActiveSelector::TrackSelector,
    }
}

/// The screen that the toggle leads to.
pub open spec fn other_screen(screen: Screen) -> Screen {
    match screen {
        Screen::Library => Screen::Queue,
        Screen::Queue => Screen::Library,
        Screen::Playlist => Screen::Library,
    }
}

/// What the select command asks of the caller.
pub open spec fn selection_of(engine: Engine) -> Action {
    match engine.screen {
        Screen::Library => match selected_index(engine.library) {
            Some(artist) => Action::EnqueueArtist(artist),
            None => Action::Nothing,
        },
        Screen::Queue => match queued(engine) {
            Some(position) => Action::PlayQueued(position),
            None => Action::Nothing,
        },
        Screen::Playlist => Action::Nothing,
    }
}

/// The queue position of the song under the cursor of the queue.
pub open spec fn queued(engine: Engine) -> Option<usize> {
    entry_under(engine.queue.state, engine.queue.search.cache.order@, engine.queue.contents@.len())
}

/// What the delete command asks of the caller.
pub open spec fn deletion_of(engine: Engine) -> Action {
    match (engine.screen, queued(engine)) {
        (Screen::Queue, Some(position)) => Action::DeleteQueued(position),
        _ => Action::Nothing,
    }
}

/// How the lists of `screen` are after a search event that puts `active` and
/// `query` in effect there. The list of the other screen is as before.
pub open spec fn lists_searched(
    before: Engine,
    after: Engine,
    screen: Screen,
    active: bool,
    query: Seq<char>,
) -> bool {
    match screen {
        Screen::Library => after.queue == before.queue && is_searched(
            before.library,
            after.library,
            active,
            query,
        ),
        Screen::Queue => library_kept(before.library, after.library) && is_queue_searched(
            before.queue,
            after.queue,
            active,
            query,
        ),
        Screen::Playlist => after.library == before.library && after.queue == before.queue,
    }
}

/// How the lists of the screen that is shown are after a keystroke of the search
/// that turns the query of the library into `library_query`, or that of the queue
/// into `queue_query`.
pub open spec fn lists_typed(
    before: Engine,
    after: Engine,
    library_query: Seq<char>,
    queue_query: Seq<char>,
) -> bool {
    match before.screen {
        Screen::Library => after.queue == before.queue && is_typed(
            before.library,
            after.library,
            library_query,
        ),
        Screen::Queue => library_kept(before.library, after.library) && is_queue_typed(
            before.queue,
            after.queue,
            queue_query,
        ),
        Screen::Playlist => after.library == before.library && after.queue == before.queue,
    }
}

/// The query of the search of `screen`.
pub open spec fn query_of(engine: Engine, screen: Screen) -> Seq<char> {
    match screen {
        Screen::Library => engine.library.search.query@,
        Screen::Queue => engine.queue.search.query@,
        Screen::Playlist => Seq::empty(),
    }
}

/// How a search starts on `screen`: that screen is shown, its search is entered
/// with the query it had, and the session takes keystrokes for the search. On the
/// playlist screen, which has no search, nothing changes.
pub open spec fn is_search_started(before: Engine, after: Engine, screen: Screen) -> bool {
    &&& after.screen == screen
    &&& after.state == if screen is Playlist {
        before.state
    } else {
        State::Searching
    }
    &&& lists_searched(before, after, screen, true, query_of(before, screen))
}

/// How a search ends: the search of the screen that is shown is left and its
/// query dropped, and the session takes commands again.
pub open spec fn is_search_ended(before: Engine, after: Engine) -> bool {
    &&& after.screen == before.screen
    &&& after.state == State::Running
    &&& lists_searched(before, after, before.screen, false, Seq::empty())
}

/// `after` and `action` are what the command `msg` makes of the session `before`.
/// The pending key sequence is no part of this.
pub open spec fn is_update(before: Engine, msg: Message, after: Engine, action: Action) -> bool {
    &&& after.playlist == before.playlist
    &&& match msg {
        Message::Direction(Dirs::Vert(dir)) => {
            &&& action == Action::Nothing
            &&& after.state == before.state
            &&& after.screen == before.screen
            &&& match before.screen {
                Screen::Library => after.queue == before.queue && is_navigated(
                    before.library,
                    after.library,
                    dir,
                ),
                Screen::Queue => after.library == before.library && is_queue_navigated(
                    before.queue,
                    after.queue,
                    dir,
                ),
                Screen::Playlist => after.library == before.library && after.queue == before.queue,
            }
        },
        Message::Direction(Dirs::Horiz(side)) => {
            &&& action == Action::Nothing
            &&& after.state == before.state
            &&& after.screen == before.screen
            &&& after.queue == before.queue
            &&& if before.screen is Library {
                is_switched(before.library, after.library, selector_of(side))
            } else {
                after.library == before.library
            }
        },
        Message::PlayPause => action == Action::TogglePause && nothing_differs(before, after),
        Message::Select => action == selection_of(before) && nothing_differs(before, after),
        Message::SwitchState(state) => {
            &&& action == Action::Nothing
            &&& after.state == state
            &&& after.screen == before.screen
            &&& after.library == before.library
            &&& after.queue == before.queue
        },
        Message::SwitchScreen(screen) => {
            &&& action == Action::Nothing
            &&& after.state == before.state
            &&& after.screen == screen
            &&& after.library == before.library
            &&& after.queue == before.queue
        },
        Message::ToggleScreen => {
            &&& action == Action::Nothing
            &&& after.state == before.state
            &&& after.screen == other_screen(before.screen)
            &&& after.library == before.library
            &&& after.queue == before.queue
        },
        Message::Fold => {
            &&& action == Action::Nothing
            &&& after.state == before.state
            &&& after.screen == before.screen
            &&& after.queue == before.queue
            &&& if before.screen is Library {
                is_fold_toggled(before.library, after.library)
            } else {
                after.library == before.library
            }
        },
        Message::Clear => action == Action::ClearQueue && nothing_differs(before, after),
        Message::LocalSearch(SearchMsg::Start) => {
            action == Action::Nothing && is_search_started(before, after, before.screen)
        },
        Message::GlobalSearch(SearchMsg::Start) => {
            action == Action::Nothing && is_search_started(before, after, Screen::Library)
        },
        Message::LocalSearch(SearchMsg::End) | Message::GlobalSearch(SearchMsg::End) | Message::Escape => {
            action == Action::Nothing && is_search_ended(before, after)
        },
        Message::Delete => action == deletion_of(before) && nothing_differs(before, after),
        Message::Toggle(mode) => action == Action::Switch(mode) && nothing_differs(before, after),
    }
}

/// `after` and `action` are what a key press with the key `code` makes of the
/// session `before` while it takes keystrokes for a search: a character goes to
/// the end of the query, backspace takes the last character off, enter goes back
/// to commands with the search as it stands, escape ends the search, and every
/// other key is ignored.
pub open spec fn is_keystroke(before: Engine, code: KeyCode, after: Engine, action: Action) -> bool {
    match code {
        KeyCode::Char(c) => {
            &&& action == Action::Nothing
            &&& after.state == before.state
            &&& after.screen == before.screen
            &&& after.playlist == before.playlist
            &&& lists_typed(
                before,
                after,
                before.library.search.query@.push(c),
                before.queue.search.query@.push(c),
            )
        },
        KeyCode::Backspace => {
            &&& action == Action::Nothing
            &&& after.state == before.state
            &&& after.screen == before.screen
            &&& after.playlist == before.playlist
            &&& lists_typed(
                before,
                after,
                without_last(before.library.search.query@),
                without_last(before.queue.search.query@),
            )
        },
        KeyCode::Enter => {
            &&& action == Action::Nothing
            &&& after.state == State::Running
            &&& after.screen == before.screen
            &&& after.library == before.library
            &&& after.queue == before.queue
            &&& after.playlist == before.playlist
        },
        KeyCode::Esc => is_update(before, Message::Escape, after, action),
        _ => action == Action::Nothing && nothing_differs(before, after),
    }
}

/// `after` and `action` are what the key press `key` makes of the session
/// `before` under the bindings `map`. While the session takes keystrokes for a
/// search, the key goes to the search. Else it goes to the pending key sequence:
/// where the sequence now stands for a command, the command is carried out and
/// the sequence starts anew; where it leads to further bindings it waits for the
/// next key; where it is not bound it starts anew and nothing else happens.
pub open spec fn is_key_press(
    before: Engine,
    map: Seq<(KeyEvent, TargetView)>,
    key: KeyEvent,
    after: Engine,
    action: Action,
) -> bool {
    if before.state is Searching {
        after.pending_keys == before.pending_keys && is_keystroke(before, key.code, after, action)
    } else {
        match lookup_view(map, before.pending_keys@.push(key)) {
            Some(TargetView::Msg(msg)) => {
                after.pending_keys@.len() == 0 && is_update(before, msg, after, action)
            },
            Some(TargetView::Submap(_)) => {
                &&& action == Action::Nothing
                &&& after.pending_keys@ == before.pending_keys@.push(key)
                &&& nothing_differs(before, after)
            },
            None => {
                &&& action == Action::Nothing
                &&& after.pending_keys@.len() == 0
                &&& nothing_differs(before, after)
            },
        }
    }
}

impl Engine {
    /// Both lists are ready to render.
    pub open spec fn wf(&self) -> bool {
        self.library.wf() && self.queue.wf()
    }

    /// A session with an empty library and an empty queue, on the queue screen.
    pub fn new() -> (engine: Engine)
        ensures
            engine.state == State::Running,
            engine.screen == Screen::Queue,
            engine.library.contents@.len() == 0,
            engine.library.artist_state is None,
            engine.library.active == LibActiveSelector::ArtistSelector,
            !engine.library.search.active,
            engine.library.search.query@.len() == 0,
            engine.queue.contents@.len() == 0,
            engine.queue.state is None,
            !engine.queue.search.active,
            engine.queue.search.query@.len() == 0,
            engine.pending_keys@.len() == 0,
            engine.wf(),
    {
        Engine {
            state: State::Running,
            screen: Screen::Queue,
            library: LibraryState::new(),
            queue: QueueSelector::new(),
            playlist: PlaylistState,
            pending_keys: Vec::new(),
        }
    }

    /// Starts a search on `screen`.
    fn start_search(&mut self, screen: Screen)
        ensures
            is_search_started(*old(self), *final(self), screen),
            final(self).playlist == old(self).playlist,
            final(self).pending_keys == old(self).pending_keys,
            old(self).wf() ==> final(self).wf(),
    {
        self.screen = screen;
        match screen {
            Screen::Library => {
                self.library.enter_search();
                self.state = State::Searching;
            },
            Screen::Queue => {
                self.queue.enter_search(&mut self.library.matcher);
                self.state = State::Searching;
            },
            Screen::Playlist => {},
        }
    }

    /// Ends the search of the screen that is shown.
    fn end_search(&mut self)
        ensures
            is_search_ended(*old(self), *final(self)),
            final(self).playlist == old(self).playlist,
            final(self).pending_keys == old(self).pending_keys,
            old(self).wf() ==> final(self).wf(),
    {
        self.state = State::Running;
        match self.screen {
            Screen::Library => {
                self.library.exit_search();
            },
            Screen::Queue => {
                self.queue.exit_search(&mut self.library.matcher);
            },
            Screen::Playlist => {},
        }
    }

    /// Carries out one command and says what is left for the caller to do.
    pub fn update(&mut self, msg: Message) -> (action: Action)
        ensures
            is_update(*old(self), msg, *final(self), action),
            final(self).pending_keys == old(self).pending_keys,
            old(self).wf() ==> final(self).wf(),
    {
        match msg {
            Message::Direction(Dirs::Vert(dir)) => {
                match self.screen {
                    Screen::Library => {
                        self.library.navigate(dir);
                    },
                    Screen::Queue => {
                        self.queue.navigate(dir);
                    },
                    Screen::Playlist => {},
                }
                Action::Nothing
            },
            Message::Direction(Dirs::Horiz(side)) => {
                match self.screen {
                    Screen::Library => {
                        let to = match side {
                            Horizontal::Left => LibActiveSelector::ArtistSelector,
                            Horizontal::Right => LibActiveSelector::TrackSelector,
                        };
                        self.library.switch_selector(to);
                    },
                    _ => {},
                }
                Action::Nothing
            },
            Message::PlayPause => Action::TogglePause,
            Message::Select => match self.screen {
                Screen::Library => match self.library.selected_artist() {
                    Some(artist) => Action::EnqueueArtist(artist),
                    None => Action::Nothing,
                },
                Screen::Queue => match self.queue.selected_song() {
                    Some(position) => Action::PlayQueued(position),
                    None => Action::Nothing,
                },
                Screen::Playlist => Action::Nothing,
            },
            Message::SwitchState(state) => {
                self.state = state;
                Action::Nothing
            },
            Message::SwitchScreen(screen) => {
                self.screen = screen;
                Action::Nothing
            },
            Message::ToggleScreen => {
                self.screen = match self.screen {
                    Screen::Library => Screen::Queue,
                    Screen::Queue => Screen::Library,
                    Screen::Playlist => Screen::Library,
                };
                Action::Nothing
            },
            Message::Fold => {
                match self.screen {
                    Screen::Library => {
                        let _ = self.library.toggle_selected();
                    },
                    _ => {},
                }
                Action::Nothing
            },
            Message::Clear => Action::ClearQueue,
            Message::LocalSearch(SearchMsg::Start) => {
                let screen = self.screen;
                self.start_search(screen);
                Action::Nothing
            },
            Message::GlobalSearch(SearchMsg::Start) => {
                self.start_search(Screen::Library);
                Action::Nothing
            },
            Message::LocalSearch(SearchMsg::End)
            | Message::GlobalSearch(SearchMsg::End)
            | Message::Escape => {
                self.end_search();
                Action::Nothing
            },
            Message::Delete => match (self.screen, self.queue.selected_song()) {
                (Screen::Queue, Some(position)) => Action::DeleteQueued(position),
                _ => Action::Nothing,
            },
            Message::Toggle(mode) => Action::Switch(mode),
        }
    }

    /// Takes one key press of a search and says what is left for the caller to do.
    pub fn keystroke(&mut self, code: KeyCode) -> (action: Action)
        ensures
            is_keystroke(*old(self), code, *final(self), action),
            final(self).pending_keys == old(self).pending_keys,
            old(self).wf() ==> final(self).wf(),
    {
        match code {
            KeyCode::Char(c) => {
                match self.screen {
                    Screen::Library => {
                        let _ = self.library.push_query(c);
                    },
                    Screen::Queue => {
                        let _ = self.queue.push_query(&mut self.library.matcher, c);
                    },
                    Screen::Playlist => {},
                }
                Action::Nothing
            },
            KeyCode::Backspace => {
                match self.screen {
                    Screen::Library => {
                        let _ = self.library.pop_query();
                    },
                    Screen::Queue => {
                        let _ = self.queue.pop_query(&mut self.library.matcher);
                    },
                    Screen::Playlist => {},
                }
                Action::Nothing
            },
            KeyCode::Enter => {
                self.state = State::Running;
                Action::Nothing
            },
            KeyCode::Esc => self.update(Message::Escape),
            _ => Action::Nothing,
        }
    }

    /// Takes one key press under the bindings `map` and says what is left for the
    /// caller to do.
    pub fn key_press(&mut self, map: &KeybindMap, key: KeyEvent) -> (action: Action)
        ensures
            is_key_press(*old(self), map@, key, *final(self), action),
            old(self).wf() ==> final(self).wf(),
    {
        match self.state {
            State::Searching => self.keystroke(key.code),
            _ => match map.resolve(&mut self.pending_keys, key) {
                Some(msg) => self.update(msg),
                None => Action::Nothing,
            },
        }
    }
}

/// Folding touches one artist alone: the queue, the search of the library with its
/// cache, the active selector, the artist cursor and every artist but the selected
/// one are after the fold command what they were before it.
pub proof fn law_fold_isolation(before: Engine, after: Engine, action: Action)
    requires
        is_update(before, Message::Fold, after, action),
    ensures
        after.queue == before.queue,
        after.library.search == before.library.search,
        after.library.active == before.library.active,
        after.library.artist_state == before.library.artist_state,
        after.library.contents@.len() == before.library.contents@.len(),
        forall|k: int|
            0 <= k < before.library.contents@.len() && Some(k as usize) != selected_index(before.library)
                ==> #[trigger] after.library.contents@[k] == before.library.contents@[k],
{
    if before.screen is Library {
        match selected_album(before.library) {
            Some((artist, album)) => {
                assert(only_artist_differs(before.library, after.library, artist as int));
                assert(selected_index(before.library) == Some(artist));
            },
            None => {},
        }
    }
}

} // verus!
