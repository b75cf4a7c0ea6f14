//! Cursor relocation: where a cursor goes when the list under it is re-derived.

use crate::model::{key_view, keys_view, EntryKey};
use crate::update::Vertical;
use vstd::prelude::*;

verus! {

/// `r` is the first position of `list` that holds `item`.
pub open spec fn is_first_at<A>(list: Seq<A>, item: A, r: int) -> bool {
    &&& 0 <= r < list.len()
    &&& list[r] == item
    &&& forall|q: int| 0 <= q < r ==> #[trigger] list[q] != item
}

/// An item that occurs in a list has a first position there.
pub proof fn lemma_first_exists<A>(list: Seq<A>, item: A, k: int)
    requires
        0 <= k < list.len(),
        list[k] == item,
    ensures
        exists|i: int| is_first_at(list, item, i),
    decreases k,
{
    if exists|q: int| 0 <= q < k && list[q] == item {
        let q = choose|q: int| 0 <= q < k && list[q] == item;
        lemma_first_exists(list, item, q);
    } else {
        assert(is_first_at(list, item, k));
    }
}

/// The cursor clamped to a list of `len` rows: unchanged while it is in range, the
/// last row when it lies beyond, and no selection on an empty list or where there
/// was none.
pub open spec fn clamped(cursor: Option<usize>, len: nat) -> Option<usize> {
    match cursor {
        None => None,
        Some(c) => if len == 0 {
            None
        } else if c < len {
            Some(c)
        } else {
            Some((len - 1) as usize)
        },
    }
}

/// What lies under the cursor in `rows`, if the cursor is one of its rows.
pub open spec fn under_cursor<A>(cursor: Option<usize>, rows: Seq<A>) -> Option<A> {
    match cursor {
        Some(c) if c < rows.len() => Some(rows[c as int]),
        _ => None,
    }
}

/// `moved` is where `cursor` settles on the rows `after`, given what was `under` it
/// before: on the first row of `after` that holds the same, if there is a
/// selection and such a row, else on the clamped position.
pub open spec fn is_settled<A>(
    cursor: Option<usize>,
    under: Option<A>,
    after: Seq<A>,
    moved: Option<usize>,
) -> bool {
    match under {
        Some(item) if cursor is Some && after.contains(item) => {
            moved is Some && is_first_at(after, item, moved->0 as int)
        },
        _ => moved == clamped(cursor, after.len()),
    }
}

/// `moved` is where `cursor` goes when the rows `before` give way to the rows
/// `after`: to the first row of `after` that holds what was under the cursor, if
/// there is one, else to the clamped position.
pub open spec fn is_relocated<A>(
    cursor: Option<usize>,
    before: Seq<A>,
    after: Seq<A>,
    moved: Option<usize>,
) -> bool {
    is_settled(cursor, under_cursor(cursor, before), after, moved)
}

/// The cursor after one step up or down a list of `len` rows. The step stops at
/// either end of the list; from no selection, a step down selects the first row
/// and a step up the last. An empty list has no selection.
pub open spec fn stepped(cursor: Option<usize>, len: nat, dir: Vertical) -> Option<usize> {
    if len == 0 {
        None
    } else {
        match (cursor, dir) {
            (None, Vertical::Down) => Some(0),
            (None, Vertical::Up) => Some((len - 1) as usize),
            (Some(c), Vertical::Down) => if c + 1 < len {
                Some((c + 1) as usize)
            } else {
                Some((len - 1) as usize)
            },
            (Some(c), Vertical::Up) => if c == 0 {
                Some(0)
            } else if c - 1 < len {
                Some((c - 1) as usize)
            } else {
                Some((len - 1) as usize)
            },
        }
    }
}

/// Moves a cursor one step up or down a list of `len` rows.
pub fn step_cursor(cursor: Option<usize>, len: usize, dir: Vertical) -> (moved: Option<usize>)
    ensures
        moved == stepped(cursor, len as nat, dir),
        moved is Some ==> moved->0 < len,
{
    if len == 0 {
        return None;
    }
    match (cursor, dir) {
        (None, Vertical::Down) => Some(0),
        (None, Vertical::Up) => Some(len - 1),
        (Some(c), Vertical::Down) => if c < len - 1 {
            Some(c + 1)
        } else {
            Some(len - 1)
        },
        (Some(c), Vertical::Up) => if c == 0 {
            Some(0)
        } else if c - 1 < len {
            Some(c - 1)
        } else {
            Some(len - 1)
        },
    }
}

/// Clamps a cursor to a list of `len` rows.
pub fn clamp_cursor(cursor: Option<usize>, len: usize) -> (moved: Option<usize>)
    ensures
        moved == clamped(cursor, len as nat),
{
    match cursor {
        None => None,
        Some(c) => if len == 0 {
            None
        } else if c < len {
            Some(c)
        } else {
            Some(len - 1)
        },
    }
}

/// The first rank of `order` that holds the storage index `entry`.
pub fn rank_of(order: &Vec<Option<usize>>, entry: Option<usize>) -> (found: Option<usize>)
    ensures
        match found {
            Some(r) => is_first_at(order@, entry, r as int),
            None => !order@.contains(entry),
        },
{
    let mut r: usize = 0;
    while r < order.len()
        invariant
            r <= order@.len(),
            forall|q: int| 0 <= q < r ==> #[trigger] order@[q] != entry,
        decreases order@.len() - r,
    {
        let same = match (order[r], entry) {
            (Some(a), Some(b)) => a == b,
            (None, None) => true,
            _ => false,
        };
        if same {
            return Some(r);
        }
        r += 1;
    }
    None
}

/// Relocates a cursor after a filter pass over an unchanged list: entries are
/// matched by storage index. `old_order` is the order the cursor pointed into,
/// `new_order` the one that replaced it.
pub fn relocate(cursor: Option<usize>, old_order: &Vec<Option<usize>>, new_order: &Vec<
    Option<usize>,
>) -> (moved: Option<usize>)
    ensures
        is_relocated(cursor, old_order@, new_order@, moved),
{
    match cursor {
        Some(c) if c < old_order.len() => {
            match rank_of(new_order, old_order[c]) {
                Some(r) => Some(r),
                None => clamp_cursor(cursor, new_order.len()),
            }
        },
        _ => clamp_cursor(cursor, new_order.len()),
    }
}

/// The storage index that a slot of the display order names, if it names an entry
/// of a list of `n`.
pub open spec fn slot_entry(slot: Option<usize>, n: nat) -> Option<usize> {
    match slot {
        Some(i) if i < n => Some(i),
        _ => None,
    }
}

/// The storage index of the entry under `cursor`, if the cursor is a rank of
/// `order` that names an entry of a list of `n`.
pub open spec fn entry_under(cursor: Option<usize>, order: Seq<Option<usize>>, n: nat) -> Option<usize> {
    match cursor {
        Some(c) if c < order.len() => slot_entry(order[c as int], n),
        _ => None,
    }
}

/// The storage index of the entry under `cursor`.
pub fn selected_entry(cursor: Option<usize>, order: &Vec<Option<usize>>, n: usize) -> (entry: Option<usize>)
    ensures
        entry == entry_under(cursor, order@, n as nat),
{
    match cursor {
        Some(c) if c < order.len() => match order[c] {
            Some(i) if i < n => Some(i),
            _ => None,
        },
        _ => None,
    }
}

/// Whether two keys name the same entry.
pub fn same_key(a: &EntryKey, b: &EntryKey) -> (same: bool)
    ensures
        same == (a@ == b@),
{
    match (a, b) {
        (EntryKey::Artist(x), EntryKey::Artist(y)) => *x == *y,
        (EntryKey::Album(x), EntryKey::Album(y)) => *x == *y,
        (EntryKey::Song(x), EntryKey::Song(y)) => *x == *y,
        _ => false,
    }
}

/// The first row of `keys` with the identity `key`.
pub fn find_key(keys: &Vec<EntryKey>, key: &EntryKey) -> (found: Option<usize>)
    ensures
        match found {
            Some(r) => is_first_at(keys_view(keys@), key@, r as int),
            None => !keys_view(keys@).contains(key@),
        },
{
    let mut r: usize = 0;
    while r < keys.len()
        invariant
            r <= keys@.len(),
            forall|q: int| 0 <= q < r ==> #[trigger] keys_view(keys@)[q] != key@,
        decreases keys@.len() - r,
    {
        if same_key(&keys[r], key) {
            return Some(r);
        }
        r += 1;
    }
    None
}

/// Settles a cursor on replaced rows, given the identity of the entry that was
/// under it, if any: on the first row of `new_keys` with that identity, else on the
/// clamped position.
pub fn settle_by_key(cursor: Option<usize>, under: &Option<EntryKey>, new_keys: &Vec<EntryKey>) -> (moved:
    Option<usize>)
    ensures
        is_settled(cursor, key_view(*under), keys_view(new_keys@), moved),
{
    match (cursor, under) {
        (Some(_), Some(key)) => {
            match find_key(new_keys, key) {
                Some(r) => Some(r),
                None => clamp_cursor(cursor, new_keys.len()),
            }
        },
        _ => clamp_cursor(cursor, new_keys.len()),
    }
}

/// Relocates a cursor after the list under it was replaced or re-derived: rows are
/// matched by identity. `old_keys` are the identities of the rows the cursor
/// pointed into, `new_keys` those of the rows that replaced them.
pub fn relocate_by_key(cursor: Option<usize>, old_keys: &Vec<EntryKey>, new_keys: &Vec<EntryKey>) -> (moved:
    Option<usize>)
    ensures
        is_relocated(cursor, keys_view(old_keys@), keys_view(new_keys@), moved),
{
    match cursor {
        Some(c) if c < old_keys.len() => {
            assert(keys_view(old_keys@)[c as int] == old_keys@[c as int]@);
            match find_key(new_keys, &old_keys[c]) {
                Some(r) => Some(r),
                None => clamp_cursor(cursor, new_keys.len()),
            }
        },
        _ => clamp_cursor(cursor, new_keys.len()),
    }
}

/// Where the entry that was under the cursor is gone and the cursor lies beyond
/// the new rows, it lands on their last row, or on no selection if there are none.
pub proof fn law_clamp_on_shrink<A>(cursor: usize, before: Seq<A>, after: Seq<A>, moved: Option<usize>)
    requires
        is_relocated(Some(cursor), before, after, moved),
        cursor >= after.len(),
        cursor < before.len() ==> !after.contains(before[cursor as int]),
    ensures
        after.len() == 0 ==> moved is None,
        after.len() > 0 ==> moved == Some((after.len() - 1) as usize),
{
}

} // verus!
