//! Names that stand for numbers.

use crate::text::{str_eq, strip_prefix, without_prefix};
use vstd::prelude::*;

verus! {

/// A name without the game's own namespace, which a name may leave out.
pub open spec fn plain_key(s: Seq<char>) -> Seq<char> {
    without_prefix(s, "minecraft:"@)
}

/// A name without the game's own namespace.
pub fn plain_key_of(s: &str) -> (r: String)
    ensures
        r@ == plain_key(s@),
{
    strip_prefix(s, "minecraft:")
}

/// A thing that can be looked up by its key.
#[derive(Debug)]
pub struct Entry {
    pub id: u16,
    pub registry_key: String,
}

/// The first entry with a key, looked up from the `from`th on.
pub open spec fn id_with_key(entries: Seq<Entry>, key: Seq<char>, from: int) -> Option<u16>
    decreases entries.len() - from,
{
    if from < 0 || from >= entries.len() {
        None
    } else if entries[from].registry_key@ == key {
        Some(entries[from].id)
    } else {
        id_with_key(entries, key, from + 1)
    }
}

/// Looks up an entry by its key.
pub fn from_registry_key(entries: &Vec<Entry>, key: &str) -> (r: Option<u16>)
    ensures
        r == id_with_key(entries@, key@, 0),
{
    let mut i: usize = 0;
    while i < entries.len()
        invariant
            i <= entries@.len(),
            id_with_key(entries@, key@, 0) == id_with_key(entries@, key@, i as int),
        decreases entries.len() - i,
    {
        if str_eq(entries[i].registry_key.as_str(), key) {
            return Some(entries[i].id);
        }
        i = i + 1;
    }
    None
}

/// Looks up an entry by a name with or without the game's own namespace.
pub fn from_name(entries: &Vec<Entry>, name: &str) -> (r: Option<u16>)
    ensures
        r == id_with_key(entries@, plain_key(name@), 0),
{
    let key = plain_key_of(name);
    from_registry_key(entries, key.as_str())
}

/// The first entry with a key is meant, and a name means the same with the game's own namespace
/// before it as without.
pub proof fn law_entries_are_found_by_key(entries: Seq<Entry>, key: Seq<char>, k: int)
    ensures
        0 <= k < entries.len() && entries[k].registry_key@ == key && (forall|j: int|
            0 <= j < k ==> (#[trigger] entries[j]).registry_key@ != key) ==> id_with_key(
            entries,
            key,
            0,
        ) == Some(entries[k].id),
        (forall|j: int|
            0 <= j < entries.len() ==> (#[trigger] entries[j]).registry_key@ != key)
            ==> id_with_key(entries, key, 0) is None,
        plain_key("minecraft:"@ + key) == key,
        key.len() == 0 || key[0] != 'm' ==> plain_key(key) == key,
        plain_key(key) == key || key == "minecraft:"@ + plain_key(key),
{
    reveal_strlit("minecraft:");
    let pre = "minecraft:"@;
    assert((pre + key).skip(10) =~= key);
    assert((pre + key).subrange(10, (pre + key).len() as int) =~= key);
    assert((pre + key).take(10) =~= pre);
    assert((pre + key).subrange(0, 10) =~= pre);
    if key.len() >= 10 {
        assert(key =~= key.take(10) + key.skip(10));
        assert(key =~= key.subrange(0, 10) + key.subrange(10, key.len() as int));
        assert(key.take(10)[0] == key[0]);
        assert(key.subrange(0, 10)[0] == key[0]);
    }
    if 0 <= k < entries.len() && entries[k].registry_key@ == key && (forall|j: int|
        0 <= j < k ==> (#[trigger] entries[j]).registry_key@ != key) {
        lemma_first_entry(entries, key, 0, k);
    }
    if forall|j: int| 0 <= j < entries.len() ==> (#[trigger] entries[j]).registry_key@ != key {
        lemma_no_entry(entries, key, 0);
    }
}

proof fn lemma_first_entry(entries: Seq<Entry>, key: Seq<char>, from: int, k: int)
    requires
        0 <= from <= k < entries.len(),
        entries[k].registry_key@ == key,
        forall|j: int| from <= j < k ==> (#[trigger] entries[j]).registry_key@ != key,
    ensures
        id_with_key(entries, key, from) == Some(entries[k].id),
    decreases k - from,
{
    if from < k {
        lemma_first_entry(entries, key, from + 1, k);
    }
}

proof fn lemma_no_entry(entries: Seq<Entry>, key: Seq<char>, from: int)
    requires
        0 <= from,
        forall|j: int| from <= j < entries.len() ==> (#[trigger] entries[j]).registry_key@ != key,
    ensures
        id_with_key(entries, key, from) is None,
    decreases entries.len() - from,
{
    if from < entries.len() {
        lemma_no_entry(entries, key, from + 1);
    }
}

} // verus!
