//! Key bindings: the keys, the parser of binding strings and the binding map.

use crate::text::{same_text, strings_view};
use crate::selection::{is_first_at, lemma_first_exists};
use crate::model::{Screen, State};
use crate::update::{Dirs, Horizontal, Message, SearchMsg, Toggle, Vertical};
use vstd::prelude::*;
use vstd::string::*;

verus! {

/// A key, as far as bindings tell keys apart.
#[derive(Clone, Copy, Debug, PartialEq, Eq, Structural)]
pub enum KeyCode {
    Char(char),
    Esc,
    Tab,
    Backspace,
    Delete,
    Enter,
    Up,
    Down,
    Left,
    Right,
}

/// The modifier keys held with a key.
#[derive(Clone, Copy, Debug, PartialEq, Eq, Structural)]
pub struct KeyModifiers {
    pub shift: bool,
    pub control: bool,
    pub alt: bool,
    pub super_key: bool,
    pub hyper: bool,
    pub meta: bool,
}

/// One key press: a key and the modifiers held with it.
#[derive(Clone, Copy, Debug, PartialEq, Eq, Structural)]
pub struct KeyEvent {
    pub code: KeyCode,
    pub modifiers: KeyModifiers,
}

impl KeyModifiers {
    /// No modifier.
    pub open spec fn none() -> KeyModifiers {
        KeyModifiers {
            shift: false,
            control: false,
            alt: false,
            super_key: false,
            hyper: false,
            meta: false,
        }
    }

    /// No modifier.
    pub fn empty() -> (m: KeyModifiers)
        ensures
            m == KeyModifiers::none(),
    {
        KeyModifiers {
            shift: false,
            control: false,
            alt: false,
            super_key: false,
            hyper: false,
            meta: false,
        }
    }

    /// Control alone.
    pub fn control() -> (m: KeyModifiers)
        ensures
            m == (KeyModifiers { control: true, ..KeyModifiers::none() }),
    {
        KeyModifiers { control: true, ..KeyModifiers::empty() }
    }

    /// Meta alone.
    pub fn meta() -> (m: KeyModifiers)
        ensures
            m == (KeyModifiers { meta: true, ..KeyModifiers::none() }),
    {
        KeyModifiers { meta: true, ..KeyModifiers::empty() }
    }

    /// Super alone.
    pub fn super_key() -> (m: KeyModifiers)
        ensures
            m == (KeyModifiers { super_key: true, ..KeyModifiers::none() }),
    {
        KeyModifiers { super_key: true, ..KeyModifiers::empty() }
    }
}

/// Whether `c` is one of `A` to `Z`.
pub open spec fn is_upper(c: char) -> bool {
    'A' <= c && c <= 'Z'
}

/// `c` in upper case where it is one of `a` to `z`, else `c`.
pub open spec fn to_upper(c: char) -> char {
    if 'a' <= c && c <= 'z' {
        ((c as u8) - 32) as char
    } else {
        c
    }
}

impl KeyEvent {
    /// The key press in the form in which two presses are compared: shift is held
    /// exactly where the character is an upper-case letter.
    pub open spec fn normalized(self) -> KeyEvent {
        match self.code {
            KeyCode::Char(c) => if is_upper(c) {
                KeyEvent { code: self.code, modifiers: KeyModifiers { shift: true, ..self.modifiers } }
            } else if self.modifiers.shift {
                KeyEvent { code: KeyCode::Char(to_upper(c)), modifiers: self.modifiers }
            } else {
                self
            },
            _ => self,
        }
    }

    /// A key press.
    pub fn new(code: KeyCode, modifiers: KeyModifiers) -> (key: KeyEvent)
        ensures
            key == (KeyEvent { code, modifiers }),
    {
        KeyEvent { code, modifiers }
    }

    /// The key press in the form in which two presses are compared.
    pub fn normalize(self) -> (key: KeyEvent)
        ensures
            key == self.normalized(),
    {
        match self.code {
            KeyCode::Char(c) => if 'A' <= c && c <= 'Z' {
                KeyEvent { code: self.code, modifiers: KeyModifiers { shift: true, ..self.modifiers } }
            } else if self.modifiers.shift {
                let upper = if 'a' <= c && c <= 'z' {
                    ((c as u8) - 32) as char
                } else {
                    c
                };
                KeyEvent { code: KeyCode::Char(upper), modifiers: self.modifiers }
            } else {
                self
            },
            _ => self,
        }
    }

    /// Whether two key presses are the same key for the binding map: shift and
    /// letter case stand for each other.
    pub fn same_key(&self, other: &KeyEvent) -> (same: bool)
        ensures
            same == (self.normalized() == other.normalized()),
    {
        self.normalize() == other.normalize()
    }
}

/// The key that one word of a binding names: a single ASCII character stands for
/// itself, and the keys without a character have names in angle brackets.
pub open spec fn key_code_of(word: Seq<char>) -> Option<KeyCode> {
    if word.len() == 1 && (word[0] as u32) < 128 {
        Some(KeyCode::Char(word[0]))
    } else if word == "<space>"@ {
        Some(KeyCode::Char(' '))
    } else if word == "<esc>"@ {
        Some(KeyCode::Esc)
    } else if word == "<tab>"@ {
        Some(KeyCode::Tab)
    } else if word == "<backspace>"@ {
        Some(KeyCode::Backspace)
    } else if word == "<delete>"@ {
        Some(KeyCode::Delete)
    } else if word == "<up>"@ {
        Some(KeyCode::Up)
    } else if word == "<down>"@ {
        Some(KeyCode::Down)
    } else if word == "<left>"@ {
        Some(KeyCode::Left)
    } else if word == "<right>"@ {
        Some(KeyCode::Right)
    } else {
        None
    }
}

/// Parses the name of one key.
pub fn parse_keybind_single(s: &str) -> (code: Option<KeyCode>)
    ensures
        code == key_code_of(s@),
{
    if s.unicode_len() == 1 && (s.get_char(0) as u32) < 128 {
        Some(KeyCode::Char(s.get_char(0)))
    } else if same_text(s, "<space>") {
        Some(KeyCode::Char(' '))
    } else if same_text(s, "<esc>") {
        Some(KeyCode::Esc)
    } else if same_text(s, "<tab>") {
        Some(KeyCode::Tab)
    } else if same_text(s, "<backspace>") {
        Some(KeyCode::Backspace)
    } else if same_text(s, "<delete>") {
        Some(KeyCode::Delete)
    } else if same_text(s, "<up>") {
        Some(KeyCode::Up)
    } else if same_text(s, "<down>") {
        Some(KeyCode::Down)
    } else if same_text(s, "<left>") {
        Some(KeyCode::Left)
    } else if same_text(s, "<right>") {
        Some(KeyCode::Right)
    } else {
        None
    }
}

/// A binding string that could not be parsed, with the word that names no key.
#[derive(Debug)]
pub struct KeybindError {
    pub word: String,
}

/// The words of a binding string: the pieces between its spaces, in order. Two
/// spaces in a row, or a space at either end, leave an empty word.
pub open spec fn split_words(s: Seq<char>) -> Seq<Seq<char>>
    decreases s.len(),
{
    if s.len() == 0 {
        seq![Seq::empty()]
    } else {
        let before = split_words(s.drop_last());
        if s.last() == ' ' {
            before.push(Seq::empty())
        } else {
            before.drop_last().push(before.last().push(s.last()))
        }
    }
}

/// The words joined by single spaces.
pub open spec fn joined(words: Seq<Seq<char>>) -> Seq<char>
    decreases words.len(),
{
    if words.len() == 0 {
        Seq::empty()
    } else if words.len() == 1 {
        words[0]
    } else {
        joined(words.drop_last()) + seq![' '] + words.last()
    }
}

/// The words of a string hold no space, there is at least one of them, and joined
/// by single spaces they give the string back.
pub proof fn law_split_words(s: Seq<char>)
    ensures
        split_words(s).len() >= 1,
        forall|i: int, j: int|
            0 <= i < split_words(s).len() && 0 <= j < split_words(s)[i].len() ==> split_words(s)[i][j] != ' ',
        joined(split_words(s)) == s,
    decreases s.len(),
{
    let words = split_words(s);
    if s.len() == 0 {
        assert(words =~= seq![Seq::<char>::empty()]);
        assert(joined(words) =~= s);
    } else {
        let before = split_words(s.drop_last());
        law_split_words(s.drop_last());
        if s.last() == ' ' {
            assert(words == before.push(Seq::<char>::empty()));
            assert(words.drop_last() =~= before);
            assert(joined(words) =~= s.drop_last() + seq![' '] + Seq::<char>::empty());
            assert(joined(words) =~= s);
        } else {
            let grown = before.last().push(s.last());
            assert(words == before.drop_last().push(grown));
            assert forall|i: int, j: int| 0 <= i < words.len() && 0 <= j < words[i].len() implies words[i][j]
                != ' ' by {
                if i < words.len() - 1 {
                    assert(words[i] == before[i]);
                } else if j < before.last().len() {
                    assert(words[i][j] == before[i][j]);
                }
            }
            if before.len() == 1 {
                assert(joined(before) == before[0]);
                assert(words.len() == 1 && words[0] == grown);
                assert(grown =~= s);
                assert(joined(words) == words[0]);
            } else {
                assert(words.drop_last() =~= before.drop_last());
                assert(joined(before) == joined(before.drop_last()) + seq![' '] + before.last());
                assert(joined(words) =~= joined(before.drop_last()) + seq![' '] + grown);
                assert(s =~= s.drop_last().push(s.last()));
                assert(joined(before) == s.drop_last());
                let head = joined(before.drop_last()) + seq![' '];
                assert((head + before.last()).push(s.last()) =~= head + grown);
                assert(joined(words) =~= s);
            }
        }
    }
}

/// Whether `word` starts with `letter` and a hyphen.
pub open spec fn has_prefix(word: Seq<char>, letter: char) -> bool {
    word.len() >= 2 && word[0] == letter && word[1] == '-'
}

/// The key named by `name`, held with `modifiers`.
pub open spec fn with_modifiers(name: Seq<char>, modifiers: KeyModifiers) -> Option<KeyEvent> {
    match key_code_of(name) {
        Some(code) => Some(KeyEvent { code, modifiers }),
        None => None,
    }
}

/// The key press that one word of a binding string names: `C-`, `M-` or `S-` in
/// front of a key name stands for control, meta or super held with that key.
pub open spec fn key_event_of(word: Seq<char>) -> Option<KeyEvent> {
    if has_prefix(word, 'C') {
        with_modifiers(
            word.subrange(2, word.len() as int),
            KeyModifiers { control: true, ..KeyModifiers::none() },
        )
    } else if has_prefix(word, 'M') {
        with_modifiers(
            word.subrange(2, word.len() as int),
            KeyModifiers { meta: true, ..KeyModifiers::none() },
        )
    } else if has_prefix(word, 'S') {
        with_modifiers(
            word.subrange(2, word.len() as int),
            KeyModifiers { super_key: true, ..KeyModifiers::none() },
        )
    } else {
        with_modifiers(word, KeyModifiers::none())
    }
}

/// Parses one word of a binding string.
pub fn parse_key_event(word: &str) -> (key: Option<KeyEvent>)
    ensures
        key == key_event_of(word@),
{
    let n = word.unicode_len();
    let modifiers = if n >= 2 && word.get_char(1) == '-' {
        let first = word.get_char(0);
        if first == 'C' {
            Some(KeyModifiers::control())
        } else if first == 'M' {
            Some(KeyModifiers::meta())
        } else if first == 'S' {
            Some(KeyModifiers::super_key())
        } else {
            None
        }
    } else {
        None
    };
    match modifiers {
        Some(held) => match parse_keybind_single(word.substring_char(2, n)) {
            Some(code) => Some(KeyEvent::new(code, held)),
            None => None,
        },
        None => match parse_keybind_single(word) {
            Some(code) => Some(KeyEvent::new(code, KeyModifiers::empty())),
            None => None,
        },
    }
}

/// Splits a binding string at its spaces.
pub fn words_of(s: &str) -> (words: Vec<String>)
    ensures
        strings_view(words@) == split_words(s@),
{
    let mut words: Vec<String> = Vec::new();
    let mut word = String::new();
    let ghost mut seen: Seq<char> = Seq::empty();
    assert(strings_view(words@).push(word@) =~= split_words(seen));
    for c in it: s.chars()
        invariant
            seen == it.seq().subrange(0, it.index() as int),
            strings_view(words@).push(word@) == split_words(seen),
    {
        proof {
            let upto = seen.push(c);
            assert(upto.drop_last() =~= seen);
            assert(upto.last() == c);
            let before = split_words(upto.drop_last());
            assert(before.last() == word@);
            assert(before.drop_last() =~= strings_view(words@));
        }
        if c == ' ' {
            words.push(word);
            word = String::new();
        } else {
            word.push(c);
        }
        proof {
            seen = seen.push(c);
            assert(strings_view(words@).push(word@) =~= split_words(seen));
        }
    }
    assert(seen == s@);
    words.push(word);
    assert(strings_view(words@) =~= split_words(s@));
    words
}

/// Word `i` of `words` is the first that names no key press.
pub open spec fn is_first_bad_word(words: Seq<Seq<char>>, i: int) -> bool {
    &&& 0 <= i < words.len()
    &&& key_event_of(words[i]) is None
    &&& forall|j: int| 0 <= j < i ==> key_event_of(#[trigger] words[j]) is Some
}

/// The key presses that a binding string names, one per word, or the first word
/// that names none.
pub open spec fn parsed_bind(s: Seq<char>) -> Result<Seq<KeyEvent>, Seq<char>> {
    let words = split_words(s);
    if exists|i: int| is_first_bad_word(words, i) {
        Err(words[choose|i: int| is_first_bad_word(words, i)])
    } else {
        Ok(Seq::new(words.len(), |i: int| key_event_of(words[i])->0))
    }
}

/// The outcome of parsing a binding string as plain values.
pub open spec fn bind_view(keys: Result<Vec<KeyEvent>, KeybindError>) -> Result<Seq<KeyEvent>, Seq<char>> {
    match keys {
        Ok(out) => Ok(out@),
        Err(e) => Err(e.word@),
    }
}

/// Parses a binding string: one key press per word, words parted by single
/// spaces. Fails on the first word that names no key press.
pub fn checked_parse_keybind(s: String) -> (keys: Result<Vec<KeyEvent>, KeybindError>)
    ensures
        match keys {
            Ok(out) => {
                &&& out@.len() == split_words(s@).len()
                &&& forall|i: int|
                    0 <= i < out@.len() ==> key_event_of(#[trigger] split_words(s@)[i]) == Some(out@[i])
            },
            Err(e) => exists|i: int|
                is_first_bad_word(split_words(s@), i) && e.word@ == #[trigger] split_words(s@)[i],
        },
        bind_view(keys) == parsed_bind(s@),
{
    let words = words_of(s.as_str());
    let mut out: Vec<KeyEvent> = Vec::new();
    let mut i: usize = 0;
    while i < words.len()
        invariant
            i <= words@.len(),
            strings_view(words@) == split_words(s@),
            out@.len() == i,
            forall|j: int| 0 <= j < i ==> key_event_of(#[trigger] split_words(s@)[j]) == Some(out@[j]),
        decreases words@.len() - i,
    {
        assert(strings_view(words@)[i as int] == words@[i as int]@);
        match parse_key_event(words[i].as_str()) {
            Some(key) => {
                out.push(key);
            },
            None => {
                proof {
                    let all = split_words(s@);
                    assert(is_first_bad_word(all, i as int));
                    let chosen = choose|k: int| is_first_bad_word(all, k);
                    if chosen < i {
                        assert(key_event_of(all[chosen]) is Some);
                    } else if i < chosen {
                        assert(key_event_of(all[i as int]) is Some);
                    }
                }
                return Err(KeybindError { word: words[i].clone() });
            },
        }
        i += 1;
    }
    proof {
        let all = split_words(s@);
        assert(strings_view(words@).len() == words@.len());
        assert forall|k: int| !is_first_bad_word(all, k) by {
            if 0 <= k < all.len() {
                assert(key_event_of(all[k]) == Some(out@[k]));
            }
        }
        assert(out@ =~= Seq::new(all.len(), |k: int| key_event_of(all[k])->0));
    }
    Ok(out)
}

/// Every word of the binding string names a key press.
pub open spec fn all_words_parse(s: Seq<char>) -> bool {
    forall|i: int| 0 <= i < split_words(s).len() ==> key_event_of(#[trigger] split_words(s)[i]) is Some
}

/// Parses a binding string every word of which names a key press: one key press
/// per word, words parted by single spaces.
pub fn parse_keybind(s: String) -> (keys: Result<Vec<KeyEvent>, KeybindError>)
    requires
        all_words_parse(s@),
    ensures
        keys is Ok,
        keys->Ok_0@.len() == split_words(s@).len(),
        forall|i: int|
            0 <= i < split_words(s@).len() ==> key_event_of(#[trigger] split_words(s@)[i]) == Some(
                keys->Ok_0@[i],
            ),
        bind_view(keys) == parsed_bind(s@),
{
    checked_parse_keybind(s)
}

/// What a key sequence is bound to: a command, or a further level of bindings for
/// the keys that follow.
pub enum KeybindTarget {
    Submap(KeybindMap),
    Msg(Message),
}

/// One entry of a binding map.
pub struct Binding {
    pub key: KeyEvent,
    pub target: KeybindTarget,
}

/// The bindings of one level: each key is bound to a command or to the bindings of
/// the next level. Entries are kept in the order in which their keys were first
/// bound; a key is looked up by `KeyEvent::same_key`.
pub struct KeybindMap(pub Vec<Binding>);

/// A binding target as plain values.
pub enum TargetView {
    Submap(Seq<(KeyEvent, TargetView)>),
    Msg(Message),
}

/// The view of a binding target.
pub open spec fn target_view(target: KeybindTarget) -> TargetView
    decreases target,
{
    match target {
        KeybindTarget::Submap(sub) => TargetView::Submap(sub@),
        KeybindTarget::Msg(msg) => TargetView::Msg(msg),
    }
}

/// The view of an optional binding target.
pub open spec fn found_view(found: Option<&KeybindTarget>) -> Option<TargetView> {
    match found {
        Some(target) => Some(target_view(*target)),
        None => None,
    }
}

/// The keys of one level, in entry order.
pub open spec fn keys_of(level: Seq<(KeyEvent, TargetView)>) -> Seq<KeyEvent> {
    Seq::new(level.len(), |i: int| level[i].0)
}

/// The entry of `level` that binds `key`, if any.
pub open spec fn bound_at(level: Seq<(KeyEvent, TargetView)>, key: KeyEvent) -> Option<int> {
    if exists|i: int| is_first_at(keys_of(level), key.normalized(), i) {
        Some(choose|i: int| is_first_at(keys_of(level), key.normalized(), i))
    } else {
        None
    }
}

/// What a key sequence is bound to: the target of its last key, or the command
/// that a shorter prefix of it reaches.
pub open spec fn lookup_view(level: Seq<(KeyEvent, TargetView)>, bind: Seq<KeyEvent>) -> Option<
    TargetView,
>
    decreases bind.len(),
{
    if bind.len() == 0 {
        None
    } else {
        match bound_at(level, bind[0]) {
            None => None,
            Some(i) => if bind.len() == 1 {
                Some(level[i].1)
            } else {
                match level[i].1 {
                    TargetView::Submap(sub) => lookup_view(sub, bind.drop_first()),
                    TargetView::Msg(_) => Some(level[i].1),
                }
            },
        }
    }
}

/// Whether a command can be bound to the key sequence: the sequence is not empty
/// and no shorter prefix of it is bound to a command.
pub open spec fn insertable(level: Seq<(KeyEvent, TargetView)>, bind: Seq<KeyEvent>) -> bool
    decreases bind.len(),
{
    if bind.len() == 0 {
        false
    } else if bind.len() == 1 {
        true
    } else {
        match bound_at(level, bind[0]) {
            None => true,
            Some(i) => match level[i].1 {
                TargetView::Submap(sub) => insertable(sub, bind.drop_first()),
                TargetView::Msg(_) => false,
            },
        }
    }
}

/// The bindings after `msg` was bound to the key sequence `bind`: the last key is
/// bound to the command, in place of whatever it was bound to, and every key
/// before it leads to a level of its own, made where there was none.
pub open spec fn inserted(level: Seq<(KeyEvent, TargetView)>, msg: Message, bind: Seq<KeyEvent>) -> Seq<
    (KeyEvent, TargetView),
>
    decreases bind.len(),
{
    if bind.len() == 0 {
        level
    } else {
        let target = if bind.len() == 1 {
            TargetView::Msg(msg)
        } else {
            match bound_at(level, bind[0]) {
                Some(i) => match level[i].1 {
                    TargetView::Submap(sub) => TargetView::Submap(inserted(sub, msg, bind.drop_first())),
                    TargetView::Msg(_) => level[i].1,
                },
                None => TargetView::Submap(inserted(Seq::empty(), msg, bind.drop_first())),
            }
        };
        match bound_at(level, bind[0]) {
            Some(i) => level.update(i, (level[i].0, target)),
            None => level.push((bind[0].normalized(), target)),
        }
    }
}

/// No key is bound twice, on this level and on every level below it.
pub open spec fn distinct_keys(level: Seq<(KeyEvent, TargetView)>) -> bool
    decreases level,
{
    &&& forall|i: int, j: int|
        0 <= i < j < level.len() ==> (#[trigger] level[i]).0 != (#[trigger] level[j]).0
    &&& forall|i: int|
        0 <= i < level.len() ==> match (#[trigger] level[i]).1 {
            TargetView::Submap(sub) => distinct_keys(sub),
            TargetView::Msg(_) => true,
        }
}

/// The keys that move the selection by default.
#[derive(Clone, Copy, Debug, PartialEq, Eq, Structural)]
pub enum MovementKeys {
    /// No movement keys are bound by default.
    Unset,
    /// `t`, `h`, `d` and `n` for up, down, left and right.
    Dvorak,
    /// `k`, `j`, `h` and `l` for up, down, left and right.
    Qwerty,
}

/// The binding of the key `code`, pressed alone, to `msg`.
pub open spec fn command(code: KeyCode, msg: Message) -> (KeyEvent, TargetView) {
    (KeyEvent { code, modifiers: KeyModifiers::none() }.normalized(), TargetView::Msg(msg))
}

/// The default bindings of the movement keys.
pub open spec fn movement_bindings(layout: MovementKeys) -> Seq<(KeyEvent, TargetView)> {
    match layout {
        MovementKeys::Unset => Seq::empty(),
        MovementKeys::Dvorak => seq![
            command(KeyCode::Char('t'), Message::Direction(Dirs::Vert(Vertical::Up))),
            command(KeyCode::Char('h'), Message::Direction(Dirs::Vert(Vertical::Down))),
            command(KeyCode::Char('d'), Message::Direction(Dirs::Horiz(Horizontal::Left))),
            command(KeyCode::Char('n'), Message::Direction(Dirs::Horiz(Horizontal::Right))),
        ],
        MovementKeys::Qwerty => seq![
            command(KeyCode::Char('k'), Message::Direction(Dirs::Vert(Vertical::Up))),
            command(KeyCode::Char('j'), Message::Direction(Dirs::Vert(Vertical::Down))),
            command(KeyCode::Char('h'), Message::Direction(Dirs::Horiz(Horizontal::Left))),
            command(KeyCode::Char('l'), Message::Direction(Dirs::Horiz(Horizontal::Right))),
        ],
    }
}

/// The default bindings of all other keys.
pub open spec fn common_bindings() -> Seq<(KeyEvent, TargetView)> {
    seq![
        command(KeyCode::Char('p'), Message::PlayPause),
        command(KeyCode::Enter, Message::Select),
        command(KeyCode::Char('1'), Message::SwitchScreen(Screen::Library)),
        command(KeyCode::Char('2'), Message::SwitchScreen(Screen::Queue)),
        command(KeyCode::Char('q'), Message::SwitchState(State::Done)),
        command(KeyCode::Backspace, Message::Delete),
        command(KeyCode::Tab, Message::ToggleScreen),
        command(KeyCode::Char(' '), Message::Fold),
        command(KeyCode::Char('-'), Message::Clear),
        command(KeyCode::Char('/'), Message::LocalSearch(SearchMsg::Start)),
        command(KeyCode::Char('g'), Message::GlobalSearch(SearchMsg::Start)),
        command(KeyCode::Esc, Message::Escape),
        command(KeyCode::Char('r'), Message::Toggle(Toggle::Repeat)),
        command(KeyCode::Char('z'), Message::Toggle(Toggle::Random)),
        command(KeyCode::Char('s'), Message::Toggle(Toggle::Single)),
        command(KeyCode::Char('c'), Message::Toggle(Toggle::Consume)),
    ]
}

/// A key sequence to which a command was bound reaches that command.
pub proof fn law_lookup_inserted(level: Seq<(KeyEvent, TargetView)>, msg: Message, bind: Seq<KeyEvent>)
    requires
        insertable(level, bind),
    ensures
        lookup_view(inserted(level, msg, bind), bind) == Some(TargetView::Msg(msg)),
    decreases bind.len(),
{
    let after = inserted(level, msg, bind);
    let key = bind[0].normalized();
    match bound_at(level, bind[0]) {
        Some(i) => {
            assert(is_first_at(keys_of(level), key, i));
            assert(keys_of(after) =~= keys_of(level));
            assert(bound_at(after, bind[0]) == Some(i));
            if bind.len() > 1 {
                match level[i].1 {
                    TargetView::Submap(sub) => {
                        law_lookup_inserted(sub, msg, bind.drop_first());
                    },
                    TargetView::Msg(_) => {},
                }
            }
        },
        None => {
            let at = level.len() as int;
            assert(keys_of(after)[at] == key);
            assert forall|q: int| 0 <= q < at implies #[trigger] keys_of(after)[q] != key by {
                if keys_of(after)[q] == key {
                    assert(keys_of(level)[q] == key);
                    lemma_first_exists(keys_of(level), key, q);
                }
            }
            assert(is_first_at(keys_of(after), key, at));
            let chosen = choose|i: int| is_first_at(keys_of(after), key, i);
            assert(chosen == at) by {
                if chosen < at {
                    assert(keys_of(after)[chosen] != key);
                }
            }
            assert(bound_at(after, bind[0]) == Some(at));
            if bind.len() > 1 {
                law_lookup_inserted(Seq::empty(), msg, bind.drop_first());
            }
        },
    }
}

/// A key sequence that starts with another key than the bound one reaches what it
/// reached before.
pub proof fn law_lookup_elsewhere(
    level: Seq<(KeyEvent, TargetView)>,
    msg: Message,
    bind: Seq<KeyEvent>,
    other: Seq<KeyEvent>,
)
    requires
        bind.len() > 0,
        other.len() > 0,
        other[0].normalized() != bind[0].normalized(),
    ensures
        lookup_view(inserted(level, msg, bind), other) == lookup_view(level, other),
{
    lemma_bound_elsewhere(level, msg, bind, other[0]);
}

/// Where the first key of a bound sequence is found after the binding: where it
/// was before, or at the end where it was not bound.
pub proof fn lemma_bound_at_inserted(level: Seq<(KeyEvent, TargetView)>, msg: Message, bind: Seq<KeyEvent>)
    requires
        bind.len() > 0,
    ensures
        bound_at(inserted(level, msg, bind), bind[0]) == Some(
            match bound_at(level, bind[0]) {
                Some(i) => i,
                None => level.len() as int,
            },
        ),
{
    let after = inserted(level, msg, bind);
    let key = bind[0].normalized();
    match bound_at(level, bind[0]) {
        Some(i) => {
            assert(is_first_at(keys_of(level), key, i));
            assert(keys_of(after) =~= keys_of(level));
        },
        None => {
            let at = level.len() as int;
            assert(keys_of(after)[at] == key);
            assert forall|q: int| 0 <= q < at implies #[trigger] keys_of(after)[q] != key by {
                if keys_of(after)[q] == key {
                    assert(keys_of(level)[q] == key);
                    lemma_first_exists(keys_of(level), key, q);
                }
            }
            assert(is_first_at(keys_of(after), key, at));
            let chosen = choose|i: int| is_first_at(keys_of(after), key, i);
            assert(chosen == at) by {
                if chosen < at {
                    assert(keys_of(after)[chosen] != key);
                }
            }
        },
    }
}

/// Two key sequences part ways: at some position that both reach they hold
/// different keys, so that neither is the beginning of the other.
pub open spec fn diverge(a: Seq<KeyEvent>, b: Seq<KeyEvent>) -> bool
    decreases a.len(),
{
    a.len() > 0 && b.len() > 0 && (a[0].normalized() != b[0].normalized() || diverge(
        a.drop_first(),
        b.drop_first(),
    ))
}

/// A key sequence that parts ways with the bound one reaches what it reached
/// before.
pub proof fn law_lookup_kept(
    level: Seq<(KeyEvent, TargetView)>,
    msg: Message,
    bind: Seq<KeyEvent>,
    other: Seq<KeyEvent>,
)
    requires
        insertable(level, bind),
        diverge(bind, other),
    ensures
        lookup_view(inserted(level, msg, bind), other) == lookup_view(level, other),
    decreases bind.len(),
{
    if other[0].normalized() != bind[0].normalized() {
        law_lookup_elsewhere(level, msg, bind, other);
    } else {
        let after = inserted(level, msg, bind);
        lemma_bound_at_inserted(level, msg, bind);
        assert(bound_at(after, other[0]) == bound_at(after, bind[0]));
        assert(bound_at(level, other[0]) == bound_at(level, bind[0]));
        assert(diverge(bind.drop_first(), other.drop_first()));
        match bound_at(level, bind[0]) {
            Some(i) => {
                match level[i].1 {
                    TargetView::Submap(sub) => {
                        law_lookup_kept(sub, msg, bind.drop_first(), other.drop_first());
                    },
                    TargetView::Msg(_) => {},
                }
            },
            None => {
                let empty = Seq::<(KeyEvent, TargetView)>::empty();
                assert(bound_at(empty, bind[1]) is None) by {
                    assert forall|k: int| !is_first_at(keys_of(empty), bind[1].normalized(), k) by {}
                }
                assert(bind.drop_first()[0] == bind[1]);
                law_lookup_kept(empty, msg, bind.drop_first(), other.drop_first());
                assert(bound_at(empty, other.drop_first()[0]) is None) by {
                    assert forall|k: int|
                        !is_first_at(keys_of(empty), other.drop_first()[0].normalized(), k) by {}
                }
            },
        }
    }
}

/// A key sequence that parts ways with the bound one can be bound after the
/// binding if it could be bound before.
pub proof fn law_insertable_kept(
    level: Seq<(KeyEvent, TargetView)>,
    msg: Message,
    bind: Seq<KeyEvent>,
    other: Seq<KeyEvent>,
)
    requires
        insertable(level, bind),
        insertable(level, other),
        diverge(bind, other),
    ensures
        insertable(inserted(level, msg, bind), other),
    decreases bind.len(),
{
    let after = inserted(level, msg, bind);
    if other.len() > 1 {
        if other[0].normalized() != bind[0].normalized() {
            lemma_bound_elsewhere(level, msg, bind, other[0]);
        } else {
            lemma_bound_at_inserted(level, msg, bind);
            assert(bound_at(after, other[0]) == bound_at(after, bind[0]));
            assert(bound_at(level, other[0]) == bound_at(level, bind[0]));
            assert(diverge(bind.drop_first(), other.drop_first()));
            match bound_at(level, bind[0]) {
                Some(i) => {
                    match level[i].1 {
                        TargetView::Submap(sub) => {
                            law_insertable_kept(sub, msg, bind.drop_first(), other.drop_first());
                        },
                        TargetView::Msg(_) => {},
                    }
                },
                None => {
                    let empty = Seq::<(KeyEvent, TargetView)>::empty();
                    assert(bound_at(empty, bind[1]) is None) by {
                        assert forall|k: int| !is_first_at(keys_of(empty), bind[1].normalized(), k) by {}
                    }
                    assert(bound_at(empty, other.drop_first()[0]) is None) by {
                        assert forall|k: int|
                            !is_first_at(keys_of(empty), other.drop_first()[0].normalized(), k) by {}
                    }
                    assert(bind.drop_first()[0] == bind[1]);
                    law_insertable_kept(empty, msg, bind.drop_first(), other.drop_first());
                },
            }
        }
    }
}

/// A key other than the first of the bound sequence is bound after the binding to
/// what it was bound to before, at the same place.
pub proof fn lemma_bound_elsewhere(
    level: Seq<(KeyEvent, TargetView)>,
    msg: Message,
    bind: Seq<KeyEvent>,
    key: KeyEvent,
)
    requires
        bind.len() > 0,
        key.normalized() != bind[0].normalized(),
    ensures
        bound_at(inserted(level, msg, bind), key) == bound_at(level, key),
        bound_at(level, key) is Some ==> inserted(level, msg, bind)[bound_at(level, key)->0] == level[bound_at(
            level,
            key,
        )->0],
{
    let after = inserted(level, msg, bind);
    let wanted = key.normalized();
    let kept = level.len() as int;
    assert(after.len() >= kept);
    assert forall|q: int| 0 <= q < kept implies #[trigger] keys_of(after)[q] == keys_of(level)[q] by {}
    if exists|i: int| is_first_at(keys_of(level), wanted, i) {
        let i = choose|i: int| is_first_at(keys_of(level), wanted, i);
        assert(is_first_at(keys_of(after), wanted, i)) by {
            assert(keys_of(after)[i] == keys_of(level)[i]);
            assert forall|q: int| 0 <= q < i implies #[trigger] keys_of(after)[q] != wanted by {
                assert(keys_of(level)[q] != wanted);
            }
        }
        let chosen = choose|k: int| is_first_at(keys_of(after), wanted, k);
        assert(chosen == i) by {
            if chosen < i {
                assert(keys_of(after)[chosen] != wanted);
            }
        }
        assert(after[i] == level[i]) by {
            match bound_at(level, bind[0]) {
                Some(b) => {
                    assert(keys_of(level)[b] == bind[0].normalized());
                },
                None => {},
            }
        }
    } else {
        assert forall|k: int| !is_first_at(keys_of(after), wanted, k) by {
            if is_first_at(keys_of(after), wanted, k) {
                if k < kept {
                    assert(keys_of(level)[k] == wanted);
                    lemma_first_exists(keys_of(level), wanted, k);
                } else {
                    assert(keys_of(after)[k] == bind[0].normalized());
                }
            }
        }
    }
}

/// The bindings after the first `n` of a list of commands were bound, each to its
/// key sequence, in the order of the list.
pub open spec fn all_inserted(
    level: Seq<(KeyEvent, TargetView)>,
    binds: Seq<(Message, Seq<KeyEvent>)>,
    n: nat,
) -> Seq<(KeyEvent, TargetView)>
    decreases n,
{
    if n == 0 {
        level
    } else {
        inserted(all_inserted(level, binds, (n - 1) as nat), binds[n - 1].0, binds[n - 1].1)
    }
}

/// Every two key sequences of the list part ways, and each can be bound on
/// `level`.
pub open spec fn parted(level: Seq<(KeyEvent, TargetView)>, binds: Seq<(Message, Seq<KeyEvent>)>) -> bool {
    &&& forall|i: int| 0 <= i < binds.len() ==> insertable(level, (#[trigger] binds[i]).1)
    &&& forall|i: int, j: int|
        0 <= i < binds.len() && 0 <= j < binds.len() && i != j ==> diverge(
            (#[trigger] binds[i]).1,
            (#[trigger] binds[j]).1,
        )
}

/// In a list of key sequences that part ways, every sequence that was not bound
/// yet can still be bound.
pub proof fn lemma_series_insertable(
    level: Seq<(KeyEvent, TargetView)>,
    binds: Seq<(Message, Seq<KeyEvent>)>,
    n: nat,
    j: int,
)
    requires
        parted(level, binds),
        n <= j < binds.len(),
    ensures
        insertable(all_inserted(level, binds, n), binds[j].1),
    decreases n,
{
    if n > 0 {
        let before = all_inserted(level, binds, (n - 1) as nat);
        lemma_series_insertable(level, binds, (n - 1) as nat, j);
        lemma_series_insertable(level, binds, (n - 1) as nat, n - 1);
        assert(diverge(binds[n - 1].1, binds[j].1));
        law_insertable_kept(before, binds[n - 1].0, binds[n - 1].1, binds[j].1);
    }
}

/// After a whole list of commands was bound to key sequences that part ways, every
/// one of the sequences reaches its command.
pub proof fn law_lookup_series(
    level: Seq<(KeyEvent, TargetView)>,
    binds: Seq<(Message, Seq<KeyEvent>)>,
    n: nat,
    k: int,
)
    requires
        parted(level, binds),
        0 <= k < n <= binds.len(),
    ensures
        lookup_view(all_inserted(level, binds, n), binds[k].1) == Some(TargetView::Msg(binds[k].0)),
    decreases n,
{
    let before = all_inserted(level, binds, (n - 1) as nat);
    lemma_series_insertable(level, binds, (n - 1) as nat, n - 1);
    if k == n - 1 {
        law_lookup_inserted(before, binds[k].0, binds[k].1);
    } else {
        law_lookup_series(level, binds, (n - 1) as nat, k);
        assert(diverge(binds[n - 1].1, binds[k].1));
        law_lookup_kept(before, binds[n - 1].0, binds[n - 1].1, binds[k].1);
    }
}

/// No key is bound twice by default.
pub proof fn lemma_defaults_distinct(layout: MovementKeys)
    ensures
        distinct_keys(movement_bindings(layout) + common_bindings()),
{
    let all = movement_bindings(layout) + common_bindings();
    let moves = movement_bindings(layout);
    let common = common_bindings();
    assert(common.len() == 16);
    assert forall|i: int| 0 <= i < all.len() implies (#[trigger] all[i]).1 is Msg by {
        if i < moves.len() {
            assert(all[i] == moves[i]);
        } else {
            assert(all[i] == common[i - moves.len()]);
        }
    }
    assert forall|i: int, j: int| 0 <= i < j < all.len() implies (#[trigger] all[i]).0 != (
    #[trigger] all[j]).0 by {
        if i < moves.len() {
            assert(all[i] == moves[i]);
        } else {
            assert(all[i] == common[i - moves.len()]);
        }
        if j < moves.len() {
            assert(all[j] == moves[j]);
        } else {
            assert(all[j] == common[j - moves.len()]);
        }
    }
}

/// Binding a command keeps every key bound once.
pub proof fn lemma_inserted_distinct(level: Seq<(KeyEvent, TargetView)>, msg: Message, bind: Seq<KeyEvent>)
    requires
        distinct_keys(level),
    ensures
        distinct_keys(inserted(level, msg, bind)),
    decreases bind.len(),
{
    if bind.len() > 0 {
        let after = inserted(level, msg, bind);
        match bound_at(level, bind[0]) {
            Some(i) => {
                if bind.len() > 1 {
                    match level[i].1 {
                        TargetView::Submap(sub) => {
                            lemma_inserted_distinct(sub, msg, bind.drop_first());
                        },
                        TargetView::Msg(_) => {},
                    }
                }
                assert forall|a: int, b: int| 0 <= a < b < after.len() implies (#[trigger] after[a]).0 != (
                #[trigger] after[b]).0 by {
                    assert(level[a].0 == after[a].0 && level[b].0 == after[b].0);
                }
                assert forall|a: int| 0 <= a < after.len() implies match (#[trigger] after[a]).1 {
                    TargetView::Submap(sub) => distinct_keys(sub),
                    TargetView::Msg(_) => true,
                } by {
                    if a != i {
                        assert(after[a] == level[a]);
                    }
                }
            },
            None => {
                if bind.len() > 1 {
                    assert(distinct_keys(Seq::<(KeyEvent, TargetView)>::empty()));
                    lemma_inserted_distinct(Seq::empty(), msg, bind.drop_first());
                }
                let key = bind[0].normalized();
                assert forall|a: int, b: int| 0 <= a < b < after.len() implies (#[trigger] after[a]).0 != (
                #[trigger] after[b]).0 by {
                    if b == level.len() {
                        if level[a].0 == key {
                            assert(keys_of(level)[a] == key);
                            lemma_first_exists(keys_of(level), key, a);
                        }
                    } else {
                        assert(level[a].0 == after[a].0 && level[b].0 == after[b].0);
                    }
                }
                assert forall|a: int| 0 <= a < after.len() implies match (#[trigger] after[a]).1 {
                    TargetView::Submap(sub) => distinct_keys(sub),
                    TargetView::Msg(_) => true,
                } by {
                    if a < level.len() {
                        assert(after[a] == level[a]);
                    }
                }
            },
        }
    }
}

impl KeybindMap {
    /// The bindings as plain values: per entry the key, in the form in which keys
    /// are compared, and the target.
    pub open spec fn view(&self) -> Seq<(KeyEvent, TargetView)>
        decreases self,
    {
        Seq::new(
            self.0@.len(),
            |i: int|
                (
                    self.0@[i].key.normalized(),
                    match self.0@[i].target {
                        KeybindTarget::Submap(sub) => if 0 <= i < self.0@.len() {
                            TargetView::Submap(sub@)
                        } else {
                            TargetView::Submap(Seq::empty())
                        },
                        KeybindTarget::Msg(msg) => TargetView::Msg(msg),
                    },
                ),
        )
    }

    /// No key is bound twice on any level.
    pub open spec fn wf(&self) -> bool {
        distinct_keys(self@)
    }

    /// A map without bindings.
    pub fn new() -> (map: KeybindMap)
        ensures
            map@ == Seq::<(KeyEvent, TargetView)>::empty(),
            map.wf(),
    {
        let map = KeybindMap(Vec::new());
        assert(map@ =~= Seq::<(KeyEvent, TargetView)>::empty());
        map
    }

    /// The entry that binds `key` on this level.
    pub fn position(&self, key: &KeyEvent) -> (found: Option<usize>)
        ensures
            match found {
                Some(i) => bound_at(self@, *key) == Some(i as int) && i < self.0@.len(),
                None => bound_at(self@, *key) is None,
            },
    {
        let mut i: usize = 0;
        while i < self.0.len()
            invariant
                i <= self.0@.len(),
                forall|j: int| 0 <= j < i ==> #[trigger] keys_of(self@)[j] != key.normalized(),
            decreases self.0@.len() - i,
        {
            if self.0[i].key.same_key(key) {
                proof {
                    assert(keys_of(self@)[i as int] == self@[i as int].0);
                    assert(is_first_at(keys_of(self@), key.normalized(), i as int));
                    let chosen = choose|k: int| is_first_at(keys_of(self@), key.normalized(), k);
                    assert(chosen == i) by {
                        if chosen < i {
                            assert(keys_of(self@)[chosen] != key.normalized());
                        }
                    }
                }
                return Some(i);
            }
            proof {
                assert(keys_of(self@)[i as int] == self@[i as int].0);
            }
            i += 1;
        }
        proof {
            assert forall|k: int| !is_first_at(keys_of(self@), key.normalized(), k) by {
                if 0 <= k < keys_of(self@).len() {
                    assert(keys_of(self@)[k] != key.normalized());
                }
            }
        }
        None
    }

    /// What `key` is bound to on this level.
    pub fn get(&self, key: &KeyEvent) -> (found: Option<&KeybindTarget>)
        ensures
            found_view(found) == match bound_at(self@, *key) {
                Some(i) => Some(self@[i].1),
                None => None,
            },
    {
        match self.position(key) {
            Some(i) => Some(&self.0[i].target),
            None => None,
        }
    }

    /// What the keys of `bind` from position `from` on are bound to.
    fn lookup_from(&self, bind: &[KeyEvent], from: usize) -> (found: Option<&KeybindTarget>)
        requires
            from <= bind@.len(),
        ensures
            found_view(found) == lookup_view(self@, bind@.subrange(from as int, bind@.len() as int)),
        decreases bind@.len() - from,
    {
        let ghost rest = bind@.subrange(from as int, bind@.len() as int);
        if from == bind.len() {
            return None;
        }
        assert(rest[0] == bind@[from as int]);
        assert(rest.drop_first() =~= bind@.subrange(from + 1, bind@.len() as int));
        match self.position(&bind[from]) {
            None => None,
            Some(i) => {
                if from + 1 == bind.len() {
                    Some(&self.0[i].target)
                } else {
                    match &self.0[i].target {
                        KeybindTarget::Submap(sub) => sub.lookup_from(bind, from + 1),
                        KeybindTarget::Msg(_) => Some(&self.0[i].target),
                    }
                }
            },
        }
    }

    /// What the key sequence `bind` is bound to: the target of its last key, or
    /// the command that a shorter prefix of it reaches; `None` for the empty
    /// sequence and where a key on the way is not bound.
    pub fn lookup(&self, bind: &[KeyEvent]) -> (found: Option<&KeybindTarget>)
        ensures
            found_view(found) == lookup_view(self@, bind@),
    {
        assert(bind@.subrange(0, bind@.len() as int) =~= bind@);
        self.lookup_from(bind, 0)
    }

    /// Whether a command can be bound to the keys of `bind` from position `from`.
    fn can_insert_from(&self, bind: &[KeyEvent], from: usize) -> (free: bool)
        requires
            from <= bind@.len(),
        ensures
            free == insertable(self@, bind@.subrange(from as int, bind@.len() as int)),
        decreases bind@.len() - from,
    {
        let ghost rest = bind@.subrange(from as int, bind@.len() as int);
        if from == bind.len() {
            return false;
        }
        if from + 1 == bind.len() {
            return true;
        }
        assert(rest[0] == bind@[from as int]);
        assert(rest.drop_first() =~= bind@.subrange(from + 1, bind@.len() as int));
        match self.position(&bind[from]) {
            None => true,
            Some(i) => match &self.0[i].target {
                KeybindTarget::Submap(sub) => sub.can_insert_from(bind, from + 1),
                KeybindTarget::Msg(_) => false,
            },
        }
    }

    /// Whether a command can be bound to the key sequence `bind`: the sequence is
    /// not empty and no shorter prefix of it is bound to a command.
    pub fn can_insert(&self, bind: &[KeyEvent]) -> (free: bool)
        ensures
            free == insertable(self@, bind@),
    {
        assert(bind@.subrange(0, bind@.len() as int) =~= bind@);
        self.can_insert_from(bind, 0)
    }

    /// Binds `msg` to the keys of `bind` from position `from` on.
    fn insert_from(&mut self, msg: Message, bind: &[KeyEvent], from: usize)
        requires
            from < bind@.len(),
            insertable(old(self)@, bind@.subrange(from as int, bind@.len() as int)),
        ensures
            final(self)@ == inserted(old(self)@, msg, bind@.subrange(from as int, bind@.len() as int)),
        decreases bind@.len() - from,
    {
        let ghost rest = bind@.subrange(from as int, bind@.len() as int);
        let ghost before = self@;
        assert(rest[0] == bind@[from as int]);
        assert(rest.drop_first() =~= bind@.subrange(from + 1, bind@.len() as int));
        let key = bind[from];
        let last = from + 1 == bind.len();
        match self.position(&key) {
            Some(i) => {
                if last {
                    self.0[i].target = KeybindTarget::Msg(msg);
                } else {
                    match &mut self.0[i].target {
                        KeybindTarget::Submap(sub) => {
                            sub.insert_from(msg, bind, from + 1);
                        },
                        KeybindTarget::Msg(_) => {},
                    }
                }
                assert(self@ =~= inserted(before, msg, rest));
            },
            None => {
                let target = if last {
                    KeybindTarget::Msg(msg)
                } else {
                    let mut sub = KeybindMap::new();
                    sub.insert_from(msg, bind, from + 1);
                    KeybindTarget::Submap(sub)
                };
                self.0.push(Binding { key, target });
                assert(self@ =~= inserted(before, msg, rest));
            },
        }
    }

    /// Binds `msg` to the key sequence `bind`. The last key is bound to the
    /// command, in place of whatever it was bound to; every key before it leads to
    /// a level of its own, which is made where there was none.
    pub fn insert(&mut self, msg: Message, bind: &[KeyEvent])
        requires
            insertable(old(self)@, bind@),
        ensures
            final(self)@ == inserted(old(self)@, msg, bind@),
            old(self).wf() ==> final(self).wf(),
    {
        assert(bind@.subrange(0, bind@.len() as int) =~= bind@);
        proof {
            if self.wf() {
                lemma_inserted_distinct(self@, msg, bind@);
            }
        }
        self.insert_from(msg, bind, 0)
    }

    /// Appends the binding of the key `code`, pressed alone, to `msg`.
    fn bind_key(&mut self, code: KeyCode, msg: Message)
        ensures
            final(self)@ == old(self)@.push(command(code, msg)),
    {
        let key = KeyEvent::new(code, KeyModifiers::empty());
        self.0.push(Binding { key, target: KeybindTarget::Msg(msg) });
        assert(self@ =~= old(self)@.push(command(code, msg)));
    }

    /// The default bindings without movement keys.
    pub fn default() -> (map: KeybindMap)
        ensures
            map@ == common_bindings(),
            map.wf(),
    {
        let map = KeybindMap::default_with(MovementKeys::Unset);
        assert(map@ =~= common_bindings());
        map
    }

    /// Appends the default bindings of the movement keys of `layout`.
    fn bind_movement(&mut self, layout: MovementKeys)
        ensures
            final(self)@ == old(self)@ + movement_bindings(layout),
    {
        match layout {
            MovementKeys::Unset => {},
            MovementKeys::Dvorak => {
                self.bind_key(KeyCode::Char('t'), Message::Direction(Dirs::Vert(Vertical::Up)));
                self.bind_key(KeyCode::Char('h'), Message::Direction(Dirs::Vert(Vertical::Down)));
                self.bind_key(KeyCode::Char('d'), Message::Direction(Dirs::Horiz(Horizontal::Left)));
                self.bind_key(KeyCode::Char('n'), Message::Direction(Dirs::Horiz(Horizontal::Right)));
            },
            MovementKeys::Qwerty => {
                self.bind_key(KeyCode::Char('k'), Message::Direction(Dirs::Vert(Vertical::Up)));
                self.bind_key(KeyCode::Char('j'), Message::Direction(Dirs::Vert(Vertical::Down)));
                self.bind_key(KeyCode::Char('h'), Message::Direction(Dirs::Horiz(Horizontal::Left)));
                self.bind_key(KeyCode::Char('l'), Message::Direction(Dirs::Horiz(Horizontal::Right)));
            },
        }
        assert(self@ =~= old(self)@ + movement_bindings(layout));
    }

    /// Appends the default bindings that every layout has.
    fn bind_common(&mut self)
        ensures
            final(self)@ == old(self)@ + common_bindings(),
    {
        self.bind_key(KeyCode::Char('p'), Message::PlayPause);
        self.bind_key(KeyCode::Enter, Message::Select);
        self.bind_key(KeyCode::Char('1'), Message::SwitchScreen(Screen::Library));
        self.bind_key(KeyCode::Char('2'), Message::SwitchScreen(Screen::Queue));
        self.bind_key(KeyCode::Char('q'), Message::SwitchState(State::Done));
        self.bind_key(KeyCode::Backspace, Message::Delete);
        self.bind_key(KeyCode::Tab, Message::ToggleScreen);
        self.bind_key(KeyCode::Char(' '), Message::Fold);
        self.bind_key(KeyCode::Char('-'), Message::Clear);
        self.bind_key(KeyCode::Char('/'), Message::LocalSearch(SearchMsg::Start));
        self.bind_key(KeyCode::Char('g'), Message::GlobalSearch(SearchMsg::Start));
        self.bind_key(KeyCode::Esc, Message::Escape);
        self.bind_key(KeyCode::Char('r'), Message::Toggle(Toggle::Repeat));
        self.bind_key(KeyCode::Char('z'), Message::Toggle(Toggle::Random));
        self.bind_key(KeyCode::Char('s'), Message::Toggle(Toggle::Single));
        self.bind_key(KeyCode::Char('c'), Message::Toggle(Toggle::Consume));
        assert(self@ =~= old(self)@ + common_bindings());
    }

    /// The default bindings: the movement keys of `layout`, then the bindings that
    /// every layout has.
    pub fn default_with(layout: MovementKeys) -> (map: KeybindMap)
        ensures
            map@ == movement_bindings(layout) + common_bindings(),
            map.wf(),
    {
        let mut map = KeybindMap::new();
        map.bind_movement(layout);
        map.bind_common();
        proof {
            assert(map@ =~= movement_bindings(layout) + common_bindings());
            lemma_defaults_distinct(layout);
        }
        map
    }

    /// A copy of the bindings.
    pub fn duplicate(&self) -> (copy: KeybindMap)
        ensures
            copy@ == self@,
        decreases self,
    {
        let mut entries: Vec<Binding> = Vec::new();
        let mut i: usize = 0;
        while i < self.0.len()
            invariant
                i <= self.0@.len(),
                entries@.len() == i,
                forall|k: int|
                    0 <= k < i ==> (#[trigger] entries@[k]).key == self.0@[k].key && target_view(
                        entries@[k].target,
                    ) == target_view(self.0@[k].target),
            decreases self.0@.len() - i,
        {
            let target = match &self.0[i].target {
                KeybindTarget::Submap(sub) => KeybindTarget::Submap(sub.duplicate()),
                KeybindTarget::Msg(msg) => KeybindTarget::Msg(*msg),
            };
            entries.push(Binding { key: self.0[i].key, target });
            i += 1;
        }
        let copy = KeybindMap(entries);
        proof {
            assert(copy@.len() == self@.len());
            assert forall|k: int| 0 <= k < copy@.len() implies copy@[k] == self@[k] by {
                assert(copy@[k] == (copy.0@[k].key.normalized(), target_view(copy.0@[k].target)));
                assert(self@[k] == (self.0@[k].key.normalized(), target_view(self.0@[k].target)));
            }
            assert(copy@ =~= self@);
        }
        copy
    }

    /// Takes one more key press into the pending key sequence and says what the
    /// sequence now stands for: a command, after which the sequence starts anew;
    /// nothing yet, while the sequence leads to further bindings; or nothing at
    /// all, where it is not bound, after which it starts anew as well.
    pub fn resolve(&self, pending: &mut Vec<KeyEvent>, key: KeyEvent) -> (command: Option<Message>)
        ensures
            match lookup_view(self@, old(pending)@.push(key)) {
                Some(TargetView::Msg(msg)) => command == Some(msg) && final(pending)@.len() == 0,
                Some(TargetView::Submap(_)) => command is None && final(pending)@ == old(pending)@.push(key),
                None => command is None && final(pending)@.len() == 0,
            },
    {
        pending.push(key);
        let command = match self.lookup(pending.as_slice()) {
            Some(KeybindTarget::Msg(msg)) => Some(*msg),
            Some(KeybindTarget::Submap(_)) => {
                return None;
            },
            None => None,
        };
        pending.clear();
        command
    }
}

} // verus!
