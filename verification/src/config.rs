//! Configuration: the names of the commands that a key can be bound to.

use crate::config::keybind::{
    checked_parse_keybind, insertable, inserted, parsed_bind, KeyEvent, KeybindMap, TargetView,
};
use crate::config::table::{
    copy_table, has_key, items_with_text, parse_table, parsed_items, plain_style, style_of, table_entries,
    table_has_key, table_insert_text, table_into_style, table_items, value_parts, value_view, ConfigItem,
    ValueView,
};
use crate::model::{Screen, State};
use crate::text::{same_text, text_view};
use crate::update::{Dirs, Horizontal, Message, SearchMsg, Toggle, Vertical};
use ratatui::style::Style;
use toml::Table;
use vstd::prelude::*;
use vstd::string::*;

pub mod keybind;
pub mod table;

verus! {

/// The command that a configuration file names by `name`, if it names one.
pub open spec fn message_of(name: Seq<char>) -> Option<Message> {
    if name == "up"@ {
        Some(Message::Direction(Dirs::Vert(Vertical::Up)))
    } else if name == "down"@ {
        Some(Message::Direction(Dirs::Vert(Vertical::Down)))
    } else if name == "left"@ {
        Some(Message::Direction(Dirs::Horiz(Horizontal::Left)))
    } else if name == "right"@ {
        Some(Message::Direction(Dirs::Horiz(Horizontal::Right)))
    } else if name == "toggle_playpause"@ {
        Some(Message::PlayPause)
    } else if name == "select"@ {
        Some(Message::Select)
    } else if name == "quit"@ {
        Some(Message::SwitchState(State::Done))
    } else if name == "switch_to_library"@ {
        Some(Message::SwitchScreen(Screen::Library))
    } else if name == "switch_to_queue"@ {
        Some(Message::SwitchScreen(Screen::Queue))
    } else if name == "toggle_screen_lq"@ {
        Some(Message::ToggleScreen)
    } else if name == "fold"@ {
        Some(Message::Fold)
    } else if name == "clear_queue"@ {
        Some(Message::Clear)
    } else if name == "local_search"@ {
        Some(Message::LocalSearch(SearchMsg::Start))
    } else if name == "global_search"@ {
        Some(Message::GlobalSearch(SearchMsg::Start))
    } else if name == "escape"@ {
        Some(Message::Escape)
    } else if name == "delete"@ {
        Some(Message::Delete)
    } else if name == "tog_repeat"@ {
        Some(Message::Toggle(Toggle::Repeat))
    } else if name == "tog_single"@ {
        Some(Message::Toggle(Toggle::Single))
    } else if name == "tog_consume"@ {
        Some(Message::Toggle(Toggle::Consume))
    } else if name == "tog_random"@ {
        Some(Message::Toggle(Toggle::Random))
    } else {
        None
    }
}

/// The command named `s`.
pub fn get_message(s: &str) -> (message: Option<Message>)
    ensures
        message == message_of(s@),
{
    if same_text(s, "up") {
        Some(Message::Direction(Dirs::Vert(Vertical::Up)))
    } else if same_text(s, "down") {
        Some(Message::Direction(Dirs::Vert(Vertical::Down)))
    } else if same_text(s, "left") {
        Some(Message::Direction(Dirs::Horiz(Horizontal::Left)))
    } else if same_text(s, "right") {
        Some(Message::Direction(Dirs::Horiz(Horizontal::Right)))
    } else if same_text(s, "toggle_playpause") {
        Some(Message::PlayPause)
    } else if same_text(s, "select") {
        Some(Message::Select)
    } else if same_text(s, "quit") {
        Some(Message::SwitchState(State::Done))
    } else if same_text(s, "switch_to_library") {
        Some(Message::SwitchScreen(Screen::Library))
    } else if same_text(s, "switch_to_queue") {
        Some(Message::SwitchScreen(Screen::Queue))
    } else if same_text(s, "toggle_screen_lq") {
        Some(Message::ToggleScreen)
    } else if same_text(s, "fold") {
        Some(Message::Fold)
    } else if same_text(s, "clear_queue") {
        Some(Message::Clear)
    } else if same_text(s, "local_search") {
        Some(Message::LocalSearch(SearchMsg::Start))
    } else if same_text(s, "global_search") {
        Some(Message::GlobalSearch(SearchMsg::Start))
    } else if same_text(s, "escape") {
        Some(Message::Escape)
    } else if same_text(s, "delete") {
        Some(Message::Delete)
    } else if same_text(s, "tog_repeat") {
        Some(Message::Toggle(Toggle::Repeat))
    } else if same_text(s, "tog_single") {
        Some(Message::Toggle(Toggle::Single))
    } else if same_text(s, "tog_consume") {
        Some(Message::Toggle(Toggle::Consume))
    } else if same_text(s, "tog_random") {
        Some(Message::Toggle(Toggle::Random))
    } else {
        None
    }
}

/// The styles of the user interface.
pub struct Theme {
    pub item_highlight_active: Style,
    pub item_highlight_inactive: Style,
    pub block_active: Style,
    pub status_artist: Style,
    pub status_album: Style,
    pub status_title: Style,
    pub artist_sort: Style,
    pub album: Style,
    pub playing: Style,
    pub paused: Style,
    pub stopped: Style,
    pub slash_span: Style,
    pub search_query_active: Style,
    pub search_query_inactive: Style,
}

/// One style of the theme, by the place where it is used.
#[derive(Clone, Copy, Debug, PartialEq, Eq, Structural)]
pub enum ThemeField {
    ItemHighlightActive,
    ItemHighlightInactive,
    BlockActive,
    StatusArtist,
    StatusAlbum,
    StatusTitle,
    ArtistSort,
    Album,
    Playing,
    Paused,
    Stopped,
    SlashSpan,
    SearchQueryActive,
    SearchQueryInactive,
}

/// The style of the theme that a configuration file names by `name`.
pub open spec fn theme_field_of(name: Seq<char>) -> Option<ThemeField> {
    if name == "item_highlight_active"@ {
        Some(ThemeField::ItemHighlightActive)
    } else if name == "item_highlight_inactive"@ {
        Some(ThemeField::ItemHighlightInactive)
    } else if name == "block_active"@ {
        Some(ThemeField::BlockActive)
    } else if name == "status_artist"@ {
        Some(ThemeField::StatusArtist)
    } else if name == "status_album"@ {
        Some(ThemeField::StatusAlbum)
    } else if name == "status_title"@ {
        Some(ThemeField::StatusTitle)
    } else if name == "artist_sort"@ {
        Some(ThemeField::ArtistSort)
    } else if name == "album"@ {
        Some(ThemeField::Album)
    } else if name == "playing"@ {
        Some(ThemeField::Playing)
    } else if name == "paused"@ {
        Some(ThemeField::Paused)
    } else if name == "stopped"@ {
        Some(ThemeField::Stopped)
    } else if name == "slash_span"@ {
        Some(ThemeField::SlashSpan)
    } else if name == "search_query_active"@ {
        Some(ThemeField::SearchQueryActive)
    } else if name == "search_query_inactive"@ {
        Some(ThemeField::SearchQueryInactive)
    } else {
        None
    }
}

/// The style of the theme named `name`.
pub fn theme_field(name: &str) -> (field: Option<ThemeField>)
    ensures
        field == theme_field_of(name@),
{
    if same_text(name, "item_highlight_active") {
        Some(ThemeField::ItemHighlightActive)
    } else if same_text(name, "item_highlight_inactive") {
        Some(ThemeField::ItemHighlightInactive)
    } else if same_text(name, "block_active") {
        Some(ThemeField::BlockActive)
    } else if same_text(name, "status_artist") {
        Some(ThemeField::StatusArtist)
    } else if same_text(name, "status_album") {
        Some(ThemeField::StatusAlbum)
    } else if same_text(name, "status_title") {
        Some(ThemeField::StatusTitle)
    } else if same_text(name, "artist_sort") {
        Some(ThemeField::ArtistSort)
    } else if same_text(name, "album") {
        Some(ThemeField::Album)
    } else if same_text(name, "playing") {
        Some(ThemeField::Playing)
    } else if same_text(name, "paused") {
        Some(ThemeField::Paused)
    } else if same_text(name, "stopped") {
        Some(ThemeField::Stopped)
    } else if same_text(name, "slash_span") {
        Some(ThemeField::SlashSpan)
    } else if same_text(name, "search_query_active") {
        Some(ThemeField::SearchQueryActive)
    } else if same_text(name, "search_query_inactive") {
        Some(ThemeField::SearchQueryInactive)
    } else {
        None
    }
}

impl Theme {
    /// The theme with `style` in the place `field`.
    pub open spec fn with(self, field: ThemeField, style: Style) -> Theme {
        match field {
            ThemeField::ItemHighlightActive => Theme { item_highlight_active: style, ..self },
            ThemeField::ItemHighlightInactive => Theme { item_highlight_inactive: style, ..self },
            ThemeField::BlockActive => Theme { block_active: style, ..self },
            ThemeField::StatusArtist => Theme { status_artist: style, ..self },
            ThemeField::StatusAlbum => Theme { status_album: style, ..self },
            ThemeField::StatusTitle => Theme { status_title: style, ..self },
            ThemeField::ArtistSort => Theme { artist_sort: style, ..self },
            ThemeField::Album => Theme { album: style, ..self },
            ThemeField::Playing => Theme { playing: style, ..self },
            ThemeField::Paused => Theme { paused: style, ..self },
            ThemeField::Stopped => Theme { stopped: style, ..self },
            ThemeField::SlashSpan => Theme { slash_span: style, ..self },
            ThemeField::SearchQueryActive => Theme { search_query_active: style, ..self },
            ThemeField::SearchQueryInactive => Theme { search_query_inactive: style, ..self },
        }
    }

    /// A theme whose styles are all the default style of the terminal layer: one
    /// and the same style in every place.
    pub fn new() -> (theme: Theme)
        ensures
            theme == Theme::uniform(theme.album),
    {
        let plain = plain_style();
        Theme {
            item_highlight_active: plain,
            item_highlight_inactive: plain,
            block_active: plain,
            status_artist: plain,
            status_album: plain,
            status_title: plain,
            artist_sort: plain,
            album: plain,
            playing: plain,
            paused: plain,
            stopped: plain,
            slash_span: plain,
            search_query_active: plain,
            search_query_inactive: plain,
        }
    }

    /// A copy of the theme.
    pub fn duplicate(&self) -> (copy: Theme)
        ensures
            copy == *self,
    {
        Theme {
            item_highlight_active: self.item_highlight_active,
            item_highlight_inactive: self.item_highlight_inactive,
            block_active: self.block_active,
            status_artist: self.status_artist,
            status_album: self.status_album,
            status_title: self.status_title,
            artist_sort: self.artist_sort,
            album: self.album,
            playing: self.playing,
            paused: self.paused,
            stopped: self.stopped,
            slash_span: self.slash_span,
            search_query_active: self.search_query_active,
            search_query_inactive: self.search_query_inactive,
        }
    }

    /// The theme with `style` in every place.
    pub open spec fn uniform(style: Style) -> Theme {
        Theme {
            item_highlight_active: style,
            item_highlight_inactive: style,
            block_active: style,
            status_artist: style,
            status_album: style,
            status_title: style,
            artist_sort: style,
            album: style,
            playing: style,
            paused: style,
            stopped: style,
            slash_span: style,
            search_query_active: style,
            search_query_inactive: style,
        }
    }

    /// Puts `style` in the place `field`.
    pub fn set(&mut self, field: ThemeField, style: Style)
        ensures
            *final(self) == old(self).with(field, style),
    {
        match field {
            ThemeField::ItemHighlightActive => {
                self.item_highlight_active = style;
            },
            ThemeField::ItemHighlightInactive => {
                self.item_highlight_inactive = style;
            },
            ThemeField::BlockActive => {
                self.block_active = style;
            },
            ThemeField::StatusArtist => {
                self.status_artist = style;
            },
            ThemeField::StatusAlbum => {
                self.status_album = style;
            },
            ThemeField::StatusTitle => {
                self.status_title = style;
            },
            ThemeField::ArtistSort => {
                self.artist_sort = style;
            },
            ThemeField::Album => {
                self.album = style;
            },
            ThemeField::Playing => {
                self.playing = style;
            },
            ThemeField::Paused => {
                self.paused = style;
            },
            ThemeField::Stopped => {
                self.stopped = style;
            },
            ThemeField::SlashSpan => {
                self.slash_span = style;
            },
            ThemeField::SearchQueryActive => {
                self.search_query_active = style;
            },
            ThemeField::SearchQueryInactive => {
                self.search_query_inactive = style;
            },
        }
    }
}

/// The entries of a table with an empty string under `name`, unless it has an
/// entry of that name already.
pub open spec fn with_default(items: Seq<(Seq<char>, ValueView)>, name: Seq<char>) -> Seq<
    (Seq<char>, ValueView),
> {
    if has_key(items, name) {
        items
    } else {
        items_with_text(items, name, Seq::empty())
    }
}

/// The style that a table of the configuration with these entries describes: what
/// the table deserializes to once the two modifier entries default to the empty
/// string.
pub open spec fn styled(items: Seq<(Seq<char>, ValueView)>) -> Option<Style> {
    style_of(with_default(with_default(items, "add_modifier"@), "sub_modifier"@))
}

/// Adds an empty string under `name` unless the table has an entry of that name.
fn fill_default(table: Table, name: &str) -> (filled: Table)
    ensures
        table_items(filled) == with_default(table_items(table), name@),
{
    if table_has_key(&table, name) {
        table
    } else {
        let empty = String::new();
        table_insert_text(table, name, empty.as_str())
    }
}

/// The style that a table of the configuration describes, once the entries
/// `add_modifier` and `sub_modifier` default to the empty string; `None` where it
/// describes no style.
fn style_in(t: Table) -> (style: Option<Style>)
    ensures
        style == styled(table_items(t)),
{
    let filled = fill_default(t, "add_modifier");
    let filled = fill_default(filled, "sub_modifier");
    table_into_style(filled)
}

/// Reads a style from a table of the configuration that describes one. The
/// entries `add_modifier` and `sub_modifier` default to the empty string.
pub fn deserialize_style(t: Table) -> (style: Style)
    requires
        styled(table_items(t)) is Some,
    ensures
        Some(style) == styled(table_items(t)),
{
    match style_in(t) {
        Some(style) => style,
        None => unreached(),
    }
}

/// Reads a style from a table of the configuration, if the table describes one:
/// the table is tried first, and read only where it describes a style. `None`
/// where it describes none.
pub fn checked_deserialize_style(t: Table) -> (style: Option<Style>)
    ensures
        style == styled(table_items(t)),
{
    match style_in(copy_table(&t)) {
        Some(_) => Some(deserialize_style(t)),
        None => None,
    }
}

/// The configuration: the key bindings and the theme.
pub struct Config {
    pub keybindings: KeybindMap,
    pub theme: Theme,
}

/// Why a configuration file was refused.
pub enum ConfigError {
    /// The file is not valid TOML.
    Syntax,
    /// A top-level entry is neither the table `keybindings` nor the table `theme`.
    UnknownKey { key: String, value: ConfigItem },
    /// A key binding names a command that does not exist.
    UnknownMessage { key: String },
    /// The binding of a command is not a string.
    NotAString { key: String, value: ConfigItem },
    /// A word of a binding string names no key.
    BadKeybind { key: String, word: String },
    /// A shorter prefix of the key sequence is bound to a command already.
    Shadowed { key: String },
    /// An entry of the theme is not a table, or names no style of the theme.
    UnknownThemeOption { key: String },
    /// The table of a theme entry describes no style.
    BadStyle { key: String },
}

/// A refusal as plain values.
pub enum FaultView {
    Syntax,
    UnknownKey(Seq<char>, ValueView),
    UnknownMessage(Seq<char>),
    NotAString(Seq<char>, ValueView),
    BadKeybind(Seq<char>, Seq<char>),
    Shadowed(Seq<char>),
    UnknownThemeOption(Seq<char>),
    BadStyle(Seq<char>),
}

impl ConfigError {
    /// The refusal as plain values.
    pub open spec fn view(&self) -> FaultView {
        match *self {
            ConfigError::Syntax => FaultView::Syntax,
            ConfigError::UnknownKey { key, value } => FaultView::UnknownKey(key@, value@),
            ConfigError::UnknownMessage { key } => FaultView::UnknownMessage(key@),
            ConfigError::NotAString { key, value } => FaultView::NotAString(key@, value@),
            ConfigError::BadKeybind { key, word } => FaultView::BadKeybind(key@, word@),
            ConfigError::Shadowed { key } => FaultView::Shadowed(key@),
            ConfigError::UnknownThemeOption { key } => FaultView::UnknownThemeOption(key@),
            ConfigError::BadStyle { key } => FaultView::BadStyle(key@),
        }
    }
}

/// The view of an outcome without a value.
pub open spec fn fault_view(outcome: Result<(), ConfigError>) -> Option<FaultView> {
    match outcome {
        Ok(_) => None,
        Err(e) => Some(e@),
    }
}

/// The bindings after one entry of the `keybindings` table: the entry's key names
/// the command, its value is the binding string.
pub open spec fn keybind_step(map: Seq<(KeyEvent, TargetView)>, name: Seq<char>, item: ValueView) -> Result<
    Seq<(KeyEvent, TargetView)>,
    FaultView,
> {
    match message_of(name) {
        None => Err(FaultView::UnknownMessage(name)),
        Some(msg) => match item {
            ValueView::Text(text) => match parsed_bind(text) {
                Err(word) => Err(FaultView::BadKeybind(name, word)),
                Ok(keys) => if insertable(map, keys) {
                    Ok(inserted(map, msg, keys))
                } else {
                    Err(FaultView::Shadowed(name))
                },
            },
            _ => Err(FaultView::NotAString(name, item)),
        },
    }
}

/// The bindings after the first `n` entries of the `keybindings` table, and the
/// first refusal among them, at which reading stops.
pub open spec fn keybinds_applied(
    map: Seq<(KeyEvent, TargetView)>,
    entries: Seq<(Seq<char>, ValueView)>,
    n: nat,
) -> (Seq<(KeyEvent, TargetView)>, Option<FaultView>)
    decreases n,
{
    if n == 0 {
        (map, None)
    } else {
        let before = keybinds_applied(map, entries, (n - 1) as nat);
        match before.1 {
            Some(_) => before,
            None => match keybind_step(before.0, entries[n - 1].0, entries[n - 1].1) {
                Ok(after) => (after, None),
                Err(fault) => (before.0, Some(fault)),
            },
        }
    }
}

/// The theme after one entry of the `theme` table: the entry's key names the
/// style, its value is the table that describes it.
pub open spec fn theme_step(theme: Theme, name: Seq<char>, item: ValueView) -> Result<Theme, FaultView> {
    match (theme_field_of(name), item) {
        (Some(field), ValueView::Table(items)) => match styled(items) {
            Some(style) => Ok(theme.with(field, style)),
            None => Err(FaultView::BadStyle(name)),
        },
        _ => Err(FaultView::UnknownThemeOption(name)),
    }
}

/// The theme after the first `n` entries of the `theme` table, and the first
/// refusal among them, at which reading stops.
pub open spec fn theme_applied(theme: Theme, entries: Seq<(Seq<char>, ValueView)>, n: nat) -> (
    Theme,
    Option<FaultView>,
)
    decreases n,
{
    if n == 0 {
        (theme, None)
    } else {
        let before = theme_applied(theme, entries, (n - 1) as nat);
        match before.1 {
            Some(_) => before,
            None => match theme_step(before.0, entries[n - 1].0, entries[n - 1].1) {
                Ok(after) => (after, None),
                Err(fault) => (before.0, Some(fault)),
            },
        }
    }
}

/// The bindings and the theme after one top-level entry of the configuration.
pub open spec fn config_step(
    map: Seq<(KeyEvent, TargetView)>,
    theme: Theme,
    name: Seq<char>,
    item: ValueView,
) -> (Seq<(KeyEvent, TargetView)>, Theme, Option<FaultView>) {
    match item {
        ValueView::Table(items) => if name == "keybindings"@ {
            let bound = keybinds_applied(map, items, items.len());
            (bound.0, theme, bound.1)
        } else if name == "theme"@ {
            let themed = theme_applied(theme, items, items.len());
            (map, themed.0, themed.1)
        } else {
            (map, theme, Some(FaultView::UnknownKey(name, item)))
        },
        _ => (map, theme, Some(FaultView::UnknownKey(name, item))),
    }
}

/// The bindings and the theme after the first `n` top-level entries, and the first
/// refusal among them, at which reading stops.
pub open spec fn config_applied(
    map: Seq<(KeyEvent, TargetView)>,
    theme: Theme,
    entries: Seq<(Seq<char>, ValueView)>,
    n: nat,
) -> (Seq<(KeyEvent, TargetView)>, Theme, Option<FaultView>)
    decreases n,
{
    if n == 0 {
        (map, theme, None)
    } else {
        let before = config_applied(map, theme, entries, (n - 1) as nat);
        match before.2 {
            Some(_) => before,
            None => config_step(before.0, before.1, entries[n - 1].0, entries[n - 1].1),
        }
    }
}

/// The bindings and the theme after a configuration document was read, and the
/// refusal at which reading stopped.
pub open spec fn config_read(map: Seq<(KeyEvent, TargetView)>, theme: Theme, contents: Seq<char>) -> (
    Seq<(KeyEvent, TargetView)>,
    Theme,
    Option<FaultView>,
) {
    match parsed_items(contents) {
        None => (map, theme, Some(FaultView::Syntax)),
        Some(items) => config_applied(map, theme, items, items.len()),
    }
}

/// Where the configuration file lies: under `$XDG_CONFIG_HOME` if that is set,
/// else under `.config` in `$HOME`, else nowhere.
pub open spec fn config_path_of(xdg_config_home: Option<Seq<char>>, home: Option<Seq<char>>) -> Option<
    Seq<char>,
> {
    match xdg_config_home {
        Some(dir) => Some(dir + "/inori/config.toml"@),
        None => match home {
            Some(dir) => Some(dir + "/.config/inori/config.toml"@),
            None => None,
        },
    }
}

/// The path of the configuration file, given the values of `XDG_CONFIG_HOME` and
/// `HOME`, each `None` where the variable is not set.
pub fn config_path(xdg_config_home: Option<String>, home: Option<String>) -> (path: Option<String>)
    ensures
        match path {
            Some(p) => config_path_of(text_view(xdg_config_home), text_view(home)) == Some(p@),
            None => config_path_of(text_view(xdg_config_home), text_view(home)) is None,
        },
{
    match xdg_config_home {
        Some(dir) => Some(dir.concat("/inori/config.toml")),
        None => match home {
            Some(dir) => Some(dir.concat("/.config/inori/config.toml")),
            None => None,
        },
    }
}

/// The address of the music server: host and port, joined by a colon. The host is
/// `localhost` and the port `6600` where none is given.
pub open spec fn address_of(host: Option<Seq<char>>, port: Option<Seq<char>>) -> Seq<char> {
    let host = match host {
        Some(name) => name,
        None => "localhost"@,
    };
    let port = match port {
        Some(number) => number,
        None => "6600"@,
    };
    host + ":"@ + port
}

/// The address of the music server, given the values of `MPD_HOST` and `MPD_PORT`,
/// each `None` where the variable is not set.
pub fn mpd_address(host: Option<String>, port: Option<String>) -> (addr: String)
    ensures
        addr@ == address_of(text_view(host), text_view(port)),
{
    let host = match host {
        Some(name) => name,
        None => "localhost".to_owned(),
    };
    let port = match port {
        Some(number) => number,
        None => "6600".to_owned(),
    };
    host.concat(":").concat(port.as_str())
}

impl Config {
    /// The default bindings without movement keys, and the default theme.
    pub fn default() -> (config: Config)
        ensures
            config.keybindings@ == crate::config::keybind::common_bindings(),
            config.keybindings.wf(),
            config.theme == Theme::uniform(config.theme.album),
    {
        Config { keybindings: KeybindMap::default(), theme: Theme::new() }
    }

    /// Goes through the `keybindings` table: each entry binds the command that its
    /// key names to the key sequence that its value spells. It stops at the first
    /// entry that is refused; the entries before it stay bound.
    fn apply_keybinds(&mut self, t: Table) -> (outcome: Result<(), ConfigError>)
        ensures
            final(self).theme == old(self).theme,
            (final(self).keybindings@, fault_view(outcome)) == keybinds_applied(
                old(self).keybindings@,
                table_items(t),
                table_items(t).len(),
            ),
            old(self).keybindings.wf() ==> final(self).keybindings.wf(),
    {
        let ghost start = self.keybindings@;
        let ghost all = table_items(t);
        let entries = table_entries(t);
        let mut i: usize = 0;
        while i < entries.len()
            invariant
                i <= entries@.len(),
                all == table_items(t),
                all.len() == entries@.len(),
                forall|k: int|
                    0 <= k < entries@.len() ==> (#[trigger] entries@[k]).0@ == all[k].0 && value_view(
                        entries@[k].1,
                    ) == all[k].1,
                self.theme == old(self).theme,
                start == old(self).keybindings@,
                old(self).keybindings.wf() ==> self.keybindings.wf(),
                keybinds_applied(start, all, i as nat) == (self.keybindings@, None::<FaultView>),
            decreases entries@.len() - i,
        {
            let ghost before = self.keybindings@;
            let name = &entries[i].0;
            let item = value_parts(&entries[i].1);
            proof {
                assert(all[i as int].0 == name@);
                assert(all[i as int].1 == item@);
            }
            let fault: Option<ConfigError> = match get_message(name.as_str()) {
                None => Some(ConfigError::UnknownMessage { key: name.clone() }),
                Some(msg) => match item {
                    ConfigItem::Text(text) => match checked_parse_keybind(text) {
                        Err(e) => Some(ConfigError::BadKeybind { key: name.clone(), word: e.word }),
                        Ok(keys) => if self.keybindings.can_insert(keys.as_slice()) {
                            self.keybindings.insert(msg, keys.as_slice());
                            None
                        } else {
                            Some(ConfigError::Shadowed { key: name.clone() })
                        },
                    },
                    other => Some(ConfigError::NotAString { key: name.clone(), value: other }),
                },
            };
            match fault {
                Some(e) => {
                    proof {
                        let step = keybind_step(before, all[i as int].0, all[i as int].1);
                        assert(step == Err::<Seq<(KeyEvent, TargetView)>, FaultView>(e@));
                        assert(self.keybindings@ == before);
                        assert(keybinds_applied(start, all, (i + 1) as nat) == (before, Some(e@)));
                        lemma_keybinds_stop(start, all, (i + 1) as nat, all.len());
                    }
                    return Err(e);
                },
                None => {},
            }
            i += 1;
        }
        Ok(())
    }
}

impl Config {
    /// Goes through the `theme` table: each entry puts the style that its value
    /// describes in the place that its key names. It stops at the first entry that
    /// is refused; the entries before it stay in effect.
    fn apply_theme(&mut self, t: Table) -> (outcome: Result<(), ConfigError>)
        ensures
            final(self).keybindings == old(self).keybindings,
            (final(self).theme, fault_view(outcome)) == theme_applied(
                old(self).theme,
                table_items(t),
                table_items(t).len(),
            ),
    {
        let ghost start = self.theme;
        let ghost all = table_items(t);
        let entries = table_entries(t);
        let mut i: usize = 0;
        while i < entries.len()
            invariant
                i <= entries@.len(),
                all == table_items(t),
                all.len() == entries@.len(),
                forall|k: int|
                    0 <= k < entries@.len() ==> (#[trigger] entries@[k]).0@ == all[k].0 && value_view(
                        entries@[k].1,
                    ) == all[k].1,
                self.keybindings == old(self).keybindings,
                start == old(self).theme,
                theme_applied(start, all, i as nat) == (self.theme, None::<FaultView>),
            decreases entries@.len() - i,
        {
            let ghost before = self.theme;
            let name = &entries[i].0;
            let item = value_parts(&entries[i].1);
            proof {
                assert(all[i as int].0 == name@);
                assert(all[i as int].1 == item@);
            }
            let fault: Option<ConfigError> = match (theme_field(name.as_str()), item) {
                (Some(field), ConfigItem::Table(table)) => match style_in(table) {
                    Some(style) => {
                        self.theme.set(field, style);
                        None
                    },
                    None => Some(ConfigError::BadStyle { key: name.clone() }),
                },
                _ => Some(ConfigError::UnknownThemeOption { key: name.clone() }),
            };
            match fault {
                Some(e) => {
                    proof {
                        let step = theme_step(before, all[i as int].0, all[i as int].1);
                        assert(step == Err::<Theme, FaultView>(e@));
                        assert(self.theme == before);
                        assert(theme_applied(start, all, (i + 1) as nat) == (before, Some(e@)));
                        lemma_theme_stop(start, all, (i + 1) as nat, all.len());
                    }
                    return Err(e);
                },
                None => {},
            }
            i += 1;
        }
        Ok(())
    }

    /// Goes through a configuration document: the table `keybindings` adds
    /// bindings, the table `theme` sets styles, and any other top-level entry is
    /// refused. It stops at the first refusal.
    fn apply_config(&mut self, contents: &str) -> (outcome: Result<(), ConfigError>)
        ensures
            (final(self).keybindings@, final(self).theme, fault_view(outcome)) == config_read(
                old(self).keybindings@,
                old(self).theme,
                contents@,
            ),
    {
        let root = match parse_table(contents) {
            Some(table) => table,
            None => {
                return Err(ConfigError::Syntax);
            },
        };
        let ghost start_map = self.keybindings@;
        let ghost start_theme = self.theme;
        let ghost all = table_items(root);
        let entries = table_entries(root);
        let mut i: usize = 0;
        while i < entries.len()
            invariant
                i <= entries@.len(),
                all == table_items(root),
                all.len() == entries@.len(),
                forall|k: int|
                    0 <= k < entries@.len() ==> (#[trigger] entries@[k]).0@ == all[k].0 && value_view(
                        entries@[k].1,
                    ) == all[k].1,
                start_map == old(self).keybindings@,
                start_theme == old(self).theme,
                parsed_items(contents@) == Some(table_items(root)),
                config_applied(start_map, start_theme, all, i as nat) == (
                    self.keybindings@,
                    self.theme,
                    None::<FaultView>,
                ),
            decreases entries@.len() - i,
        {
            let name = &entries[i].0;
            let item = value_parts(&entries[i].1);
            proof {
                assert(all[i as int].0 == name@);
                assert(all[i as int].1 == item@);
            }
            let outcome = match item {
                ConfigItem::Table(table) => {
                    if same_text(name.as_str(), "keybindings") {
                        self.apply_keybinds(table)
                    } else if same_text(name.as_str(), "theme") {
                        self.apply_theme(table)
                    } else {
                        Err(ConfigError::UnknownKey { key: name.clone(), value: ConfigItem::Table(table) })
                    }
                },
                other => Err(ConfigError::UnknownKey { key: name.clone(), value: other }),
            };
            proof {
                assert(config_applied(start_map, start_theme, all, (i + 1) as nat) == (
                    self.keybindings@,
                    self.theme,
                    fault_view(outcome),
                ));
            }
            match outcome {
                Err(e) => {
                    proof {
                        lemma_config_stop(start_map, start_theme, all, (i + 1) as nat, all.len());
                    }
                    return Err(e);
                },
                Ok(_) => {},
            }
            i += 1;
        }
        Ok(())
    }

    /// A copy of the configuration.
    pub fn duplicate(&self) -> (copy: Config)
        ensures
            copy.keybindings@ == self.keybindings@,
            copy.theme == self.theme,
    {
        Config { keybindings: self.keybindings.duplicate(), theme: self.theme.duplicate() }
    }

    /// Reads a `keybindings` table none of whose entries is refused: each entry
    /// binds the command that its key names to the key sequence that its value
    /// spells.
    pub fn read_keybinds(&mut self, t: Table)
        requires
            keybinds_applied(old(self).keybindings@, table_items(t), table_items(t).len()).1 is None,
        ensures
            final(self).theme == old(self).theme,
            final(self).keybindings@ == keybinds_applied(
                old(self).keybindings@,
                table_items(t),
                table_items(t).len(),
            ).0,
            old(self).keybindings.wf() ==> final(self).keybindings.wf(),
    {
        let _ = self.apply_keybinds(t);
    }

    /// Reads a `keybindings` table if none of its entries is refused: the table is
    /// tried on a copy first, and read only where the trial went through. Else the
    /// configuration stays as it is, and the first refusal is returned.
    pub fn checked_read_keybinds(&mut self, t: Table) -> (outcome: Result<(), ConfigError>)
        ensures
            fault_view(outcome) == keybinds_applied(
                old(self).keybindings@,
                table_items(t),
                table_items(t).len(),
            ).1,
            outcome is Ok ==> final(self).theme == old(self).theme && final(self).keybindings@
                == keybinds_applied(old(self).keybindings@, table_items(t), table_items(t).len()).0,
            outcome is Err ==> *final(self) == *old(self),
            old(self).keybindings.wf() ==> final(self).keybindings.wf(),
    {
        let mut trial = self.duplicate();
        match trial.apply_keybinds(copy_table(&t)) {
            Ok(_) => {
                self.read_keybinds(t);
                Ok(())
            },
            Err(e) => Err(e),
        }
    }

    /// Reads a `theme` table none of whose entries is refused: each entry puts the
    /// style that its value describes in the place that its key names.
    pub fn read_theme(&mut self, t: Table)
        requires
            theme_applied(old(self).theme, table_items(t), table_items(t).len()).1 is None,
        ensures
            final(self).keybindings == old(self).keybindings,
            final(self).theme == theme_applied(old(self).theme, table_items(t), table_items(t).len()).0,
    {
        let _ = self.apply_theme(t);
    }

    /// Reads a `theme` table if none of its entries is refused: the table is tried
    /// on a copy first, and read only where the trial went through. Else the
    /// configuration stays as it is, and the first refusal is returned.
    pub fn checked_read_theme(&mut self, t: Table) -> (outcome: Result<(), ConfigError>)
        ensures
            fault_view(outcome) == theme_applied(old(self).theme, table_items(t), table_items(t).len()).1,
            outcome is Ok ==> final(self).keybindings == old(self).keybindings && final(self).theme
                == theme_applied(old(self).theme, table_items(t), table_items(t).len()).0,
            outcome is Err ==> *final(self) == *old(self),
    {
        let mut trial = self.duplicate();
        match trial.apply_theme(copy_table(&t)) {
            Ok(_) => {
                self.read_theme(t);
                Ok(())
            },
            Err(e) => Err(e),
        }
    }

    /// Reads a configuration document in which nothing is refused: the table
    /// `keybindings` adds bindings and the table `theme` sets styles.
    pub fn read_config(&mut self, contents: &str)
        requires
            config_read(old(self).keybindings@, old(self).theme, contents@).2 is None,
        ensures
            final(self).keybindings@ == config_read(old(self).keybindings@, old(self).theme, contents@).0,
            final(self).theme == config_read(old(self).keybindings@, old(self).theme, contents@).1,
    {
        let _ = self.apply_config(contents);
    }

    /// Reads the configuration file over this configuration, given what was read
    /// from the file: `None` where there is no file to read, which leaves the
    /// configuration as it is. Nothing in the file is refused.
    pub fn try_read_config(self, contents: Option<String>) -> (config: Config)
        requires
            match contents {
                Some(text) => config_read(self.keybindings@, self.theme, text@).2 is None,
                None => true,
            },
        ensures
            match contents {
                Some(text) => {
                    &&& config.keybindings@ == config_read(self.keybindings@, self.theme, text@).0
                    &&& config.theme == config_read(self.keybindings@, self.theme, text@).1
                },
                None => config == self,
            },
    {
        match contents {
            None => self,
            Some(text) => {
                let mut config = self;
                config.read_config(text.as_str());
                config
            },
        }
    }

    /// Reads the configuration file over this configuration if nothing in it is
    /// refused: the file is tried on a copy first, and read only where the trial
    /// went through. Else the first refusal is returned. `None` for the contents,
    /// where there is no file to read, leaves the configuration as it is.
    pub fn checked_read_config(self, contents: Option<String>) -> (outcome: Result<Config, ConfigError>)
        ensures
            match contents {
                None => outcome is Ok && outcome->Ok_0 == self,
                Some(text) => match outcome {
                    Ok(config) => config_read(self.keybindings@, self.theme, text@) == (
                        config.keybindings@,
                        config.theme,
                        None::<FaultView>,
                    ),
                    Err(e) => config_read(self.keybindings@, self.theme, text@).2 == Some(e@),
                },
            },
    {
        match contents {
            None => Ok(self.try_read_config(None)),
            Some(text) => {
                let mut trial = self.duplicate();
                match trial.apply_config(text.as_str()) {
                    Ok(_) => Ok(self.try_read_config(Some(text))),
                    Err(e) => Err(e),
                }
            },
        }
    }
}

/// Once an entry of the theme was refused, the entries after it change nothing.
pub proof fn lemma_theme_stop(theme: Theme, entries: Seq<(Seq<char>, ValueView)>, n: nat, m: nat)
    requires
        theme_applied(theme, entries, n).1 is Some,
        n <= m,
    ensures
        theme_applied(theme, entries, m) == theme_applied(theme, entries, n),
    decreases m,
{
    if n < m {
        lemma_theme_stop(theme, entries, n, (m - 1) as nat);
    }
}

/// Once a top-level entry was refused, the entries after it change nothing.
pub proof fn lemma_config_stop(
    map: Seq<(KeyEvent, TargetView)>,
    theme: Theme,
    entries: Seq<(Seq<char>, ValueView)>,
    n: nat,
    m: nat,
)
    requires
        config_applied(map, theme, entries, n).2 is Some,
        n <= m,
    ensures
        config_applied(map, theme, entries, m) == config_applied(map, theme, entries, n),
    decreases m,
{
    if n < m {
        lemma_config_stop(map, theme, entries, n, (m - 1) as nat);
    }
}

/// Once an entry was refused, the entries after it change nothing.
pub proof fn lemma_keybinds_stop(
    map: Seq<(KeyEvent, TargetView)>,
    entries: Seq<(Seq<char>, ValueView)>,
    n: nat,
    m: nat,
)
    requires
        keybinds_applied(map, entries, n).1 is Some,
        n <= m,
    ensures
        keybinds_applied(map, entries, m) == keybinds_applied(map, entries, n),
    decreases m,
{
    if n < m {
        lemma_keybinds_stop(map, entries, n, (m - 1) as nat);
    }
}

} // verus!
