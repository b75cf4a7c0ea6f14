use inori::model::EntryKey;
use inori::selection::{clamp_cursor, find_key, rank_of, relocate, relocate_by_key, same_key, settle_by_key, step_cursor};
use inori::update::Vertical;

fn order(list: &[usize]) -> Vec<Option<usize>> {
    list.iter().map(|i| Some(*i)).collect()
}

fn songs(list: &[&str]) -> Vec<EntryKey> {
    list.iter().map(|s| EntryKey::Song(s.to_string())).collect()
}

#[test]
fn cursor_follows_its_entry_to_the_new_rank() {
    let before = order(&[0, 1, 2, 3]);
    let after = order(&[3, 1]);
    assert_eq!(relocate(Some(3), &before, &after), Some(0));
    assert_eq!(relocate(Some(1), &before, &after), Some(1));
    let wider = order(&[2, 0, 1, 3]);
    assert_eq!(relocate(Some(0), &after, &wider), Some(3));
    assert_eq!(relocate(Some(1), &after, &wider), Some(2));
}

#[test]
fn cursor_clamps_when_its_entry_is_gone() {
    let before = order(&[0, 1, 2, 3]);
    let after = order(&[0, 1]);
    assert_eq!(relocate(Some(3), &before, &after), Some(1));
    assert_eq!(relocate(Some(2), &before, &after), Some(1));
    let kept = order(&[0, 1, 3]);
    assert_eq!(relocate(Some(2), &before, &kept), Some(2));
    let single = order(&[1]);
    assert_eq!(relocate(Some(0), &before, &single), Some(0));
}

#[test]
fn cursor_is_lost_on_an_empty_result() {
    let before = order(&[0, 1, 2]);
    let after = order(&[]);
    assert_eq!(relocate(Some(1), &before, &after), None);
    assert_eq!(relocate(None, &before, &after), None);
}

#[test]
fn no_selection_stays_no_selection() {
    let before = order(&[0, 1, 2]);
    let after = order(&[2, 1]);
    assert_eq!(relocate(None, &before, &after), None);
}

#[test]
fn cursor_beyond_the_old_order_is_clamped() {
    let before = order(&[0]);
    let after = order(&[0, 1, 2]);
    assert_eq!(relocate(Some(5), &before, &after), Some(2));
    assert_eq!(relocate(Some(1), &before, &after), Some(1));
}

#[test]
fn clamp_cursor_values() {
    assert_eq!(clamp_cursor(None, 3), None);
    assert_eq!(clamp_cursor(Some(0), 0), None);
    assert_eq!(clamp_cursor(Some(2), 3), Some(2));
    assert_eq!(clamp_cursor(Some(3), 3), Some(2));
    assert_eq!(clamp_cursor(Some(usize::MAX), 1), Some(0));
}

#[test]
fn rank_of_finds_the_first_rank() {
    let ranks = order(&[4, 2, 7]);
    assert_eq!(rank_of(&ranks, Some(7)), Some(2));
    assert_eq!(rank_of(&ranks, Some(4)), Some(0));
    assert_eq!(rank_of(&ranks, Some(5)), None);
    assert_eq!(rank_of(&ranks, None), None);
    let holes = vec![Some(1), None, Some(1)];
    assert_eq!(rank_of(&holes, Some(1)), Some(0));
    assert_eq!(rank_of(&holes, None), Some(1));
}

#[test]
fn step_cursor_stops_at_both_ends() {
    assert_eq!(step_cursor(None, 0, Vertical::Down), None);
    assert_eq!(step_cursor(Some(3), 0, Vertical::Up), None);
    assert_eq!(step_cursor(None, 4, Vertical::Down), Some(0));
    assert_eq!(step_cursor(None, 4, Vertical::Up), Some(3));
    assert_eq!(step_cursor(Some(0), 4, Vertical::Down), Some(1));
    assert_eq!(step_cursor(Some(3), 4, Vertical::Down), Some(3));
    assert_eq!(step_cursor(Some(0), 4, Vertical::Up), Some(0));
    assert_eq!(step_cursor(Some(2), 4, Vertical::Up), Some(1));
    assert_eq!(step_cursor(Some(9), 4, Vertical::Up), Some(3));
    assert_eq!(step_cursor(Some(usize::MAX), 4, Vertical::Down), Some(3));
}

#[test]
fn keys_compare_by_kind_and_text() {
    let a = EntryKey::Album("x".to_string());
    let b = EntryKey::Song("x".to_string());
    let c = EntryKey::Album("x".to_string());
    let d = EntryKey::Artist("x".to_string());
    assert!(same_key(&a, &c));
    assert!(!same_key(&a, &b));
    assert!(!same_key(&a, &d));
    assert!(!same_key(&a, &EntryKey::Album("y".to_string())));
}

#[test]
fn find_key_takes_the_first_row() {
    let keys = songs(&["a.flac", "b.flac", "a.flac"]);
    assert_eq!(find_key(&keys, &EntryKey::Song("a.flac".to_string())), Some(0));
    assert_eq!(find_key(&keys, &EntryKey::Song("b.flac".to_string())), Some(1));
    assert_eq!(find_key(&keys, &EntryKey::Song("c.flac".to_string())), None);
    assert_eq!(find_key(&keys, &EntryKey::Album("a.flac".to_string())), None);
}

#[test]
fn relocate_by_key_follows_identity() {
    let before = songs(&["a", "b", "c", "d"]);
    let after = songs(&["d", "x", "b"]);
    assert_eq!(relocate_by_key(Some(3), &before, &after), Some(0));
    assert_eq!(relocate_by_key(Some(1), &before, &after), Some(2));
    assert_eq!(relocate_by_key(Some(2), &before, &after), Some(2));
    assert_eq!(relocate_by_key(Some(0), &before, &after), Some(0));
    assert_eq!(relocate_by_key(Some(9), &before, &after), Some(2));
    assert_eq!(relocate_by_key(None, &before, &after), None);
    assert_eq!(relocate_by_key(Some(1), &before, &songs(&[])), None);
}

#[test]
fn settle_by_key_uses_the_given_identity() {
    let after = songs(&["d", "x", "b"]);
    let b = Some(EntryKey::Song("b".to_string()));
    assert_eq!(settle_by_key(Some(0), &b, &after), Some(2));
    assert_eq!(settle_by_key(None, &b, &after), None);
    assert_eq!(settle_by_key(Some(7), &None, &after), Some(2));
    let gone = Some(EntryKey::Song("q".to_string()));
    assert_eq!(settle_by_key(Some(1), &gone, &after), Some(1));
}
