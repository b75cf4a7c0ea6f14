use inori::config::keybind::{
    checked_parse_keybind, parse_key_event, parse_keybind, parse_keybind_single, words_of, KeyCode, KeyEvent,
    KeyModifiers, KeybindMap, KeybindTarget, MovementKeys,
};
use inori::model::{Screen, State};
use inori::update::{Dirs, Horizontal, Message, SearchMsg, Toggle, Vertical};

fn plain(code: KeyCode) -> KeyEvent {
    KeyEvent::new(code, KeyModifiers::empty())
}

fn ch(c: char) -> KeyEvent {
    plain(KeyCode::Char(c))
}

fn msg_of(target: Option<&KeybindTarget>) -> Option<Message> {
    match target {
        Some(KeybindTarget::Msg(m)) => Some(*m),
        _ => None,
    }
}

fn is_submap(target: Option<&KeybindTarget>) -> bool {
    matches!(target, Some(KeybindTarget::Submap(_)))
}

#[test]
fn single_keys_parse() {
    assert_eq!(parse_keybind_single("a"), Some(KeyCode::Char('a')));
    assert_eq!(parse_keybind_single("Z"), Some(KeyCode::Char('Z')));
    assert_eq!(parse_keybind_single("-"), Some(KeyCode::Char('-')));
    assert_eq!(parse_keybind_single("<"), Some(KeyCode::Char('<')));
    assert_eq!(parse_keybind_single(" "), Some(KeyCode::Char(' ')));
    assert_eq!(parse_keybind_single("<space>"), Some(KeyCode::Char(' ')));
    assert_eq!(parse_keybind_single("<esc>"), Some(KeyCode::Esc));
    assert_eq!(parse_keybind_single("<tab>"), Some(KeyCode::Tab));
    assert_eq!(parse_keybind_single("<backspace>"), Some(KeyCode::Backspace));
    assert_eq!(parse_keybind_single("<delete>"), Some(KeyCode::Delete));
    assert_eq!(parse_keybind_single("<up>"), Some(KeyCode::Up));
    assert_eq!(parse_keybind_single("<down>"), Some(KeyCode::Down));
    assert_eq!(parse_keybind_single("<left>"), Some(KeyCode::Left));
    assert_eq!(parse_keybind_single("<right>"), Some(KeyCode::Right));
}

#[test]
fn unknown_key_names_do_not_parse() {
    assert_eq!(parse_keybind_single(""), None);
    assert_eq!(parse_keybind_single("ab"), None);
    assert_eq!(parse_keybind_single("<enter>"), None);
    assert_eq!(parse_keybind_single("<ESC>"), None);
    assert_eq!(parse_keybind_single("é"), None);
    assert_eq!(parse_keybind_single("日"), None);
}

#[test]
fn words_with_modifiers_parse() {
    assert_eq!(parse_key_event("x"), Some(ch('x')));
    assert_eq!(parse_key_event("C-x"), Some(KeyEvent::new(KeyCode::Char('x'), KeyModifiers::control())));
    assert_eq!(parse_key_event("M-<tab>"), Some(KeyEvent::new(KeyCode::Tab, KeyModifiers::meta())));
    assert_eq!(parse_key_event("S-<up>"), Some(KeyEvent::new(KeyCode::Up, KeyModifiers::super_key())));
    assert_eq!(parse_key_event("C--"), Some(KeyEvent::new(KeyCode::Char('-'), KeyModifiers::control())));
    assert_eq!(parse_key_event("C"), Some(ch('C')));
    assert_eq!(parse_key_event("-"), Some(ch('-')));
    assert_eq!(parse_key_event("C-"), None);
    assert_eq!(parse_key_event("C-M-x"), None);
    assert_eq!(parse_key_event("A-x"), None);
    assert_eq!(parse_key_event("c-x"), None);
    assert_eq!(parse_key_event(""), None);
}

#[test]
fn modifier_sets() {
    let none = KeyModifiers::empty();
    assert!(!none.shift && !none.control && !none.alt && !none.super_key && !none.hyper && !none.meta);
    let c = KeyModifiers::control();
    assert!(c.control && !c.shift && !c.alt && !c.super_key && !c.hyper && !c.meta);
    let m = KeyModifiers::meta();
    assert!(m.meta && !m.control && !m.super_key);
    let s = KeyModifiers::super_key();
    assert!(s.super_key && !s.control && !s.meta && !s.shift);
}

#[test]
fn binding_strings_split_at_spaces() {
    assert_eq!(words_of("g g"), vec!["g".to_string(), "g".to_string()]);
    assert_eq!(words_of(""), vec!["".to_string()]);
    assert_eq!(words_of("a  b"), vec!["a".to_string(), "".to_string(), "b".to_string()]);
    assert_eq!(words_of(" a "), vec!["".to_string(), "a".to_string(), "".to_string()]);
    assert_eq!(words_of("C-x <esc>"), vec!["C-x".to_string(), "<esc>".to_string()]);
}

#[test]
fn binding_strings_parse() {
    assert_eq!(parse_keybind("q".to_string()).ok(), Some(vec![ch('q')]));
    assert_eq!(parse_keybind("g g".to_string()).ok(), Some(vec![ch('g'), ch('g')]));
    assert_eq!(
        parse_keybind("C-x <space> M-a S-<delete>".to_string()).ok(),
        Some(vec![
            KeyEvent::new(KeyCode::Char('x'), KeyModifiers::control()),
            ch(' '),
            KeyEvent::new(KeyCode::Char('a'), KeyModifiers::meta()),
            KeyEvent::new(KeyCode::Delete, KeyModifiers::super_key()),
        ])
    );
}

#[test]
fn checked_parsing_agrees_on_good_strings() {
    assert_eq!(checked_parse_keybind("q".to_string()).ok(), Some(vec![ch('q')]));
    assert_eq!(checked_parse_keybind("g g".to_string()).ok(), Some(vec![ch('g'), ch('g')]));
    assert_eq!(
        checked_parse_keybind("C-x <esc>".to_string()).ok(),
        Some(vec![KeyEvent::new(KeyCode::Char('x'), KeyModifiers::control()), plain(KeyCode::Esc)])
    );
}

#[test]
fn binding_strings_fail_on_the_first_bad_word() {
    let bad = |s: &str| checked_parse_keybind(s.to_string()).err().map(|e| e.word);
    assert_eq!(bad(""), Some("".to_string()));
    assert_eq!(bad("a  b"), Some("".to_string()));
    assert_eq!(bad(" a"), Some("".to_string()));
    assert_eq!(bad("g "), Some("".to_string()));
    assert_eq!(bad("C-"), Some("C-".to_string()));
    assert_eq!(bad("<enter>"), Some("<enter>".to_string()));
    assert_eq!(bad("ab"), Some("ab".to_string()));
    assert_eq!(bad("a bc <nope>"), Some("bc".to_string()));
    assert_eq!(bad("g C-M-x"), Some("C-M-x".to_string()));
    assert_eq!(bad("C-M-x"), Some("C-M-x".to_string()));
}

#[test]
fn duplicate_copies_every_level() {
    let mut map = KeybindMap::new();
    map.insert(Message::Select, &[ch('a')]);
    map.insert(Message::Fold, &[ch('g'), ch('g')]);
    map.insert(Message::Clear, &[ch('g'), ch('c'), ch('c')]);
    let copy = map.duplicate();
    assert_eq!(copy.0.len(), 2);
    assert_eq!(msg_of(copy.lookup(&[ch('a')])), Some(Message::Select));
    assert_eq!(msg_of(copy.lookup(&[ch('g'), ch('g')])), Some(Message::Fold));
    assert_eq!(msg_of(copy.lookup(&[ch('g'), ch('c'), ch('c')])), Some(Message::Clear));
    assert!(copy.lookup(&[ch('x')]).is_none());
    assert!(KeybindMap::new().duplicate().0.is_empty());
}

#[test]
fn shift_and_upper_case_stand_for_each_other() {
    let shift = KeyModifiers { shift: true, ..KeyModifiers::empty() };
    let upper = ch('A');
    let shifted_lower = KeyEvent::new(KeyCode::Char('a'), shift);
    let shifted_upper = KeyEvent::new(KeyCode::Char('A'), shift);
    assert_eq!(upper.normalize(), shifted_upper);
    assert_eq!(shifted_lower.normalize(), shifted_upper);
    assert_eq!(shifted_upper.normalize(), shifted_upper);
    assert_eq!(ch('a').normalize(), ch('a'));
    assert_eq!(KeyEvent::new(KeyCode::Char('1'), shift).normalize(), KeyEvent::new(KeyCode::Char('1'), shift));
    assert_eq!(KeyEvent::new(KeyCode::Tab, shift).normalize(), KeyEvent::new(KeyCode::Tab, shift));
    assert!(upper.same_key(&shifted_lower));
    assert!(upper.same_key(&shifted_upper));
    assert!(!upper.same_key(&ch('a')));
    assert!(!ch('a').same_key(&KeyEvent::new(KeyCode::Char('a'), KeyModifiers::control())));
    assert!(!plain(KeyCode::Up).same_key(&plain(KeyCode::Down)));
}

#[test]
fn default_bindings() {
    let map = KeybindMap::default();
    assert_eq!(map.0.len(), 16);
    assert_eq!(msg_of(map.lookup(&[ch('p')])), Some(Message::PlayPause));
    assert_eq!(msg_of(map.lookup(&[plain(KeyCode::Enter)])), Some(Message::Select));
    assert_eq!(msg_of(map.lookup(&[ch('1')])), Some(Message::SwitchScreen(Screen::Library)));
    assert_eq!(msg_of(map.lookup(&[ch('2')])), Some(Message::SwitchScreen(Screen::Queue)));
    assert_eq!(msg_of(map.lookup(&[ch('q')])), Some(Message::SwitchState(State::Done)));
    assert_eq!(msg_of(map.lookup(&[plain(KeyCode::Backspace)])), Some(Message::Delete));
    assert_eq!(msg_of(map.lookup(&[plain(KeyCode::Tab)])), Some(Message::ToggleScreen));
    assert_eq!(msg_of(map.lookup(&[ch(' ')])), Some(Message::Fold));
    assert_eq!(msg_of(map.lookup(&[ch('-')])), Some(Message::Clear));
    assert_eq!(msg_of(map.lookup(&[ch('/')])), Some(Message::LocalSearch(SearchMsg::Start)));
    assert_eq!(msg_of(map.lookup(&[ch('g')])), Some(Message::GlobalSearch(SearchMsg::Start)));
    assert_eq!(msg_of(map.lookup(&[plain(KeyCode::Esc)])), Some(Message::Escape));
    assert_eq!(msg_of(map.lookup(&[ch('r')])), Some(Message::Toggle(Toggle::Repeat)));
    assert_eq!(msg_of(map.lookup(&[ch('z')])), Some(Message::Toggle(Toggle::Random)));
    assert_eq!(msg_of(map.lookup(&[ch('s')])), Some(Message::Toggle(Toggle::Single)));
    assert_eq!(msg_of(map.lookup(&[ch('c')])), Some(Message::Toggle(Toggle::Consume)));
    assert!(map.lookup(&[ch('k')]).is_none());
    assert!(map.lookup(&[ch('t')]).is_none());
    assert!(map.lookup(&[]).is_none());
}

#[test]
fn default_movement_keys() {
    let up = Message::Direction(Dirs::Vert(Vertical::Up));
    let down = Message::Direction(Dirs::Vert(Vertical::Down));
    let left = Message::Direction(Dirs::Horiz(Horizontal::Left));
    let right = Message::Direction(Dirs::Horiz(Horizontal::Right));
    let dvorak = KeybindMap::default_with(MovementKeys::Dvorak);
    assert_eq!(dvorak.0.len(), 20);
    assert_eq!(msg_of(dvorak.lookup(&[ch('t')])), Some(up));
    assert_eq!(msg_of(dvorak.lookup(&[ch('h')])), Some(down));
    assert_eq!(msg_of(dvorak.lookup(&[ch('d')])), Some(left));
    assert_eq!(msg_of(dvorak.lookup(&[ch('n')])), Some(right));
    assert_eq!(msg_of(dvorak.lookup(&[ch('p')])), Some(Message::PlayPause));
    let qwerty = KeybindMap::default_with(MovementKeys::Qwerty);
    assert_eq!(qwerty.0.len(), 20);
    assert_eq!(msg_of(qwerty.lookup(&[ch('k')])), Some(up));
    assert_eq!(msg_of(qwerty.lookup(&[ch('j')])), Some(down));
    assert_eq!(msg_of(qwerty.lookup(&[ch('h')])), Some(left));
    assert_eq!(msg_of(qwerty.lookup(&[ch('l')])), Some(right));
    let unset = KeybindMap::default_with(MovementKeys::Unset);
    assert_eq!(unset.0.len(), 16);
    assert!(unset.lookup(&[ch('h')]).is_none());
}

#[test]
fn insert_then_lookup() {
    let mut map = KeybindMap::new();
    assert!(map.0.is_empty());
    assert!(map.can_insert(&[ch('a')]));
    map.insert(Message::Select, &[ch('a')]);
    assert_eq!(msg_of(map.lookup(&[ch('a')])), Some(Message::Select));
    assert!(map.can_insert(&[ch('g'), ch('g')]));
    map.insert(Message::Fold, &[ch('g'), ch('g')]);
    map.insert(Message::Clear, &[ch('g'), ch('c'), ch('c')]);
    assert_eq!(map.0.len(), 2);
    assert!(is_submap(map.lookup(&[ch('g')])));
    assert_eq!(msg_of(map.lookup(&[ch('g'), ch('g')])), Some(Message::Fold));
    assert!(is_submap(map.lookup(&[ch('g'), ch('c')])));
    assert_eq!(msg_of(map.lookup(&[ch('g'), ch('c'), ch('c')])), Some(Message::Clear));
    assert!(map.lookup(&[ch('g'), ch('x')]).is_none());
    assert!(map.lookup(&[ch('x'), ch('g')]).is_none());
    assert_eq!(msg_of(map.get(&ch('a'))), Some(Message::Select));
    assert!(map.get(&ch('b')).is_none());
    assert_eq!(map.position(&ch('g')), Some(1));
    assert_eq!(map.position(&ch('z')), None);
}

#[test]
fn a_longer_sequence_reaches_the_command_of_its_prefix() {
    let mut map = KeybindMap::new();
    map.insert(Message::Select, &[ch('a')]);
    assert_eq!(msg_of(map.lookup(&[ch('a'), ch('b'), ch('c')])), Some(Message::Select));
}

#[test]
fn insert_replaces_what_the_last_key_was_bound_to() {
    let mut map = KeybindMap::new();
    map.insert(Message::Select, &[ch('a')]);
    map.insert(Message::Fold, &[ch('a')]);
    assert_eq!(map.0.len(), 1);
    assert_eq!(msg_of(map.lookup(&[ch('a')])), Some(Message::Fold));
    map.insert(Message::Clear, &[ch('g'), ch('g')]);
    assert!(map.can_insert(&[ch('g')]));
    map.insert(Message::Escape, &[ch('g')]);
    assert_eq!(map.0.len(), 2);
    assert_eq!(msg_of(map.lookup(&[ch('g')])), Some(Message::Escape));
    assert_eq!(msg_of(map.lookup(&[ch('g'), ch('g')])), Some(Message::Escape));
}

#[test]
fn a_bound_prefix_shadows_longer_sequences() {
    let mut map = KeybindMap::new();
    map.insert(Message::Select, &[ch('a')]);
    assert!(!map.can_insert(&[ch('a'), ch('b')]));
    assert!(!map.can_insert(&[ch('a'), ch('b'), ch('c')]));
    assert!(!map.can_insert(&[]));
    assert!(map.can_insert(&[ch('a')]));
    assert!(map.can_insert(&[ch('b'), ch('a')]));
    map.insert(Message::Fold, &[ch('b'), ch('a')]);
    assert!(!map.can_insert(&[ch('b'), ch('a'), ch('x')]));
    assert!(map.can_insert(&[ch('b'), ch('c'), ch('x')]));
}

#[test]
fn map_keys_are_compared_with_case_normalised() {
    let shift = KeyModifiers { shift: true, ..KeyModifiers::empty() };
    let mut map = KeybindMap::new();
    map.insert(Message::Select, &[ch('G')]);
    assert_eq!(msg_of(map.lookup(&[KeyEvent::new(KeyCode::Char('g'), shift)])), Some(Message::Select));
    assert_eq!(msg_of(map.lookup(&[KeyEvent::new(KeyCode::Char('G'), shift)])), Some(Message::Select));
    assert!(map.lookup(&[ch('g')]).is_none());
    map.insert(Message::Fold, &[KeyEvent::new(KeyCode::Char('g'), shift)]);
    assert_eq!(map.0.len(), 1);
    assert_eq!(msg_of(map.lookup(&[ch('G')])), Some(Message::Fold));
}

#[test]
fn resolve_follows_key_sequences() {
    let mut map = KeybindMap::new();
    map.insert(Message::Select, &[ch('a')]);
    map.insert(Message::Fold, &[ch('g'), ch('g')]);
    map.insert(Message::Clear, &[ch('g'), ch('c'), ch('c')]);
    let mut pending = Vec::new();
    assert_eq!(map.resolve(&mut pending, ch('a')), Some(Message::Select));
    assert!(pending.is_empty());
    assert_eq!(map.resolve(&mut pending, ch('g')), None);
    assert_eq!(pending, vec![ch('g')]);
    assert_eq!(map.resolve(&mut pending, ch('g')), Some(Message::Fold));
    assert!(pending.is_empty());
    assert_eq!(map.resolve(&mut pending, ch('g')), None);
    assert_eq!(map.resolve(&mut pending, ch('c')), None);
    assert_eq!(pending, vec![ch('g'), ch('c')]);
    assert_eq!(map.resolve(&mut pending, ch('c')), Some(Message::Clear));
    assert!(pending.is_empty());
    assert_eq!(map.resolve(&mut pending, ch('g')), None);
    assert_eq!(map.resolve(&mut pending, ch('x')), None);
    assert!(pending.is_empty());
    assert_eq!(map.resolve(&mut pending, ch('x')), None);
    assert!(pending.is_empty());
}

#[test]
fn binding_elsewhere_keeps_other_lookups() {
    let mut map = KeybindMap::default();
    map.insert(Message::Fold, &[ch('y'), ch('y')]);
    assert_eq!(msg_of(map.lookup(&[ch('p')])), Some(Message::PlayPause));
    assert_eq!(msg_of(map.lookup(&[ch('q')])), Some(Message::SwitchState(State::Done)));
    assert_eq!(msg_of(map.lookup(&[ch('y'), ch('y')])), Some(Message::Fold));
    assert_eq!(map.0.len(), 17);
}
