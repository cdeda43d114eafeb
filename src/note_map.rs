//! Note-to-key associations held in a `bimap::BiMap`, seen as a map from note to key.
use vstd::prelude::*;
use bimap::BiMap;

verus! {

/// A one-to-one association between notes and key characters.
pub type NoteMap = BiMap<u8, char>;

#[verifier::external_type_specification]
#[verifier::external_body]
#[verifier::reject_recursive_types(L)]
#[verifier::reject_recursive_types(R)]
#[verifier::reject_recursive_types(LS)]
#[verifier::reject_recursive_types(RS)]
pub struct ExBiHashMap<L, R, LS, RS>(bimap::BiHashMap<L, R, LS, RS>);

/// The left-to-right pairs that a bimap of notes and keys holds.
pub uninterp spec fn note_keys(m: NoteMap) -> Map<u8, char>;

/// The notes of `m` whose key is `key`, with the pair for `note` dropped:
/// what is left of `m` after `insert(note, key)` has removed the pairs it overwrites.
pub open spec fn without_note_or_key(m: Map<u8, char>, note: u8, key: char) -> Map<u8, char> {
    Map::new(|n: u8| m.dom().contains(n) && n != note && m[n] != key, |n: u8| m[n])
}

/// Relies on `BiHashMap::new`: the new bimap is empty.
#[verifier::external_body]
pub(crate) fn new_note_map() -> (r: NoteMap)
    ensures
        note_keys(r).dom() == Set::<u8>::empty(),
{
    BiMap::new()
}

/// Relies on `BiHashMap::get_by_left`: the key paired with `note`, if any.
#[verifier::external_body]
pub(crate) fn key_of_note(m: &NoteMap, note: u8) -> (r: Option<char>)
    ensures
        r == (if note_keys(*m).dom().contains(note) {
            Some(note_keys(*m)[note])
        } else {
            None
        }),
{
    m.get_by_left(&note).copied()
}

/// Relies on `BiHashMap::get_by_right`: the note paired with `key`, if any.
#[verifier::external_body]
pub(crate) fn note_of_key(m: &NoteMap, key: char) -> (r: Option<u8>)
    ensures
        r matches Some(n) ==> note_keys(*m).dom().contains(n) && note_keys(*m)[n] == key,
        r is None ==> forall|n: u8| #[trigger]
            note_keys(*m).dom().contains(n) ==> note_keys(*m)[n] != key,
{
    m.get_by_right(&key).copied()
}

/// Relies on `BiHashMap::remove_by_left`: drops the pair of `note`, returning it.
#[verifier::external_body]
pub(crate) fn remove_note(m: &mut NoteMap, note: u8) -> (r: Option<(u8, char)>)
    ensures
        note_keys(*final(m)) == note_keys(*old(m)).remove(note),
        r == (if note_keys(*old(m)).dom().contains(note) {
            Some((note, note_keys(*old(m))[note]))
        } else {
            None
        }),
{
    m.remove_by_left(&note)
}

/// Relies on `BiHashMap::insert`: removes any pair holding `note` or `key`, then pairs them.
#[verifier::external_body]
pub(crate) fn insert_pair(m: &mut NoteMap, note: u8, key: char)
    ensures
        note_keys(*final(m)) == without_note_or_key(note_keys(*old(m)), note, key).insert(note, key),
{
    m.insert(note, key);
}

/// Relies on `BiHashMap::iter`: each pair once, in an order the hasher decides.
#[verifier::external_body]
pub(crate) fn pairs(m: &NoteMap) -> (r: Vec<(u8, char)>)
    ensures
        forall|i: int, j: int|
            0 <= i < r@.len() && 0 <= j < r@.len() && i != j ==> #[trigger] r@[i].0 != #[trigger] r@[j].0,
        forall|i: int|
            0 <= i < r@.len() ==> note_keys(*m).dom().contains(#[trigger] r@[i].0)
                && note_keys(*m)[r@[i].0] == r@[i].1,
        forall|n: u8| #[trigger]
            note_keys(*m).dom().contains(n) ==> exists|i: int| 0 <= i < r@.len() && r@[i].0 == n,
{
    m.iter().map(|(n, k)| (*n, *k)).collect()
}

} // verus!
