//! The concurrent maps that hold a store's records and a batcher's pending
//! entries (`dashmap::DashMap`), with what each map operation does to the
//! map's contents.
//!
//! A map's contents are named by key view: the keys' `Eq` and `Hash` are
//! derived from their string fields, so two keys are the same map key exactly
//! when their texts are equal.

use dashmap::DashMap;
use vstd::prelude::*;
use crate::types::{
    EntryView, SessionKey, SessionKeyView, SessionListEntry, SessionListSubkeysKey,
    SessionStoreEntry, entries_view, list_entries_view, texts,
};

verus! {

#[verifier::external_type_specification]
#[verifier::external_body]
#[verifier::reject_recursive_types(K)]
#[verifier::reject_recursive_types(V)]
#[verifier::reject_recursive_types(S)]
pub struct ExDashMap<K, V, S>(DashMap<K, V, S>);

/// What a map of transcripts holds: for each session key, its entries.
pub uninterp spec fn entries_map(m: DashMap<SessionKey, Vec<SessionStoreEntry>>) -> Map<
    SessionKeyView,
    Seq<EntryView>,
>;

/// What a map of listings holds: for each project key, its listing.
pub uninterp spec fn listings_map(m: DashMap<String, Vec<SessionListEntry>>) -> Map<
    Seq<char>,
    Seq<(Seq<char>, Seq<char>)>,
>;

/// What a map of subkey lists holds: for each session, its subkeys.
pub uninterp spec fn subkeys_map(m: DashMap<SessionListSubkeysKey, Vec<String>>) -> Map<
    (Seq<char>, Seq<char>),
    Seq<Seq<char>>,
>;

/// What a map of sizes holds: for each session key, a size.
pub uninterp spec fn sizes_map(m: DashMap<SessionKey, usize>) -> Map<SessionKeyView, usize>;

/// The views of a sequence of session keys.
pub open spec fn key_views(s: Seq<SessionKey>) -> Seq<SessionKeyView> {
    s.map_values(|k: SessionKey| k@)
}

/// `DashMap::new` for transcripts: an empty map.
#[verifier::external_body]
pub(crate) fn new_entries_map() -> (r: DashMap<SessionKey, Vec<SessionStoreEntry>>)
    ensures
        entries_map(r) =~= Map::empty(),
{
    DashMap::new()
}

/// `DashMap::get` for transcripts, copying the entries found (`Vec::clone`).
#[verifier::external_body]
pub(crate) fn entries_get(m: &DashMap<SessionKey, Vec<SessionStoreEntry>>, key: &SessionKey) -> (r: Option<
    Vec<SessionStoreEntry>,
>)
    ensures
        match r {
            Some(v) => entries_map(*m).contains_key(key@) && entries_view(v@) == entries_map(*m)[key@],
            None => !entries_map(*m).contains_key(key@),
        },
{
    match m.get(key) {
        Some(found) => Some(found.value().clone()),
        None => None,
    }
}

/// `DashMap::get` for transcripts, giving the number of entries found.
#[verifier::external_body]
pub(crate) fn entries_count(m: &DashMap<SessionKey, Vec<SessionStoreEntry>>, key: &SessionKey) -> (r: Option<
    usize,
>)
    ensures
        match r {
            Some(n) => entries_map(*m).contains_key(key@) && n == entries_map(*m)[key@].len(),
            None => !entries_map(*m).contains_key(key@),
        },
{
    match m.get(key) {
        Some(found) => Some(found.value().len()),
        None => None,
    }
}

/// `DashMap::remove` for transcripts: the key leaves the map, and its entries
/// are handed back.
#[verifier::external_body]
pub(crate) fn entries_take(m: &mut DashMap<SessionKey, Vec<SessionStoreEntry>>, key: &SessionKey) -> (r: Option<
    Vec<SessionStoreEntry>,
>)
    ensures
        entries_map(*final(m)) == entries_map(*old(m)).remove(key@),
        match r {
            Some(v) => entries_map(*old(m)).contains_key(key@) && entries_view(v@) == entries_map(
                *old(m),
            )[key@],
            None => !entries_map(*old(m)).contains_key(key@),
        },
{
    match m.remove(key) {
        Some((_, v)) => Some(v),
        None => None,
    }
}

/// `DashMap::insert` for transcripts: the key now maps to the given entries.
#[verifier::external_body]
pub(crate) fn entries_put(
    m: &mut DashMap<SessionKey, Vec<SessionStoreEntry>>,
    key: SessionKey,
    value: Vec<SessionStoreEntry>,
)
    ensures
        entries_map(*final(m)) == entries_map(*old(m)).insert(key@, entries_view(value@)),
{
    m.insert(key, value);
}

/// `DashMap::iter` for transcripts, handing out a copy of each key: every key
/// of the map once, in the map's own order.
#[verifier::external_body]
pub(crate) fn entries_keys(m: &DashMap<SessionKey, Vec<SessionStoreEntry>>) -> (r: Vec<SessionKey>)
    ensures
        key_views(r@).no_duplicates(),
        forall|k: SessionKeyView| #[trigger] key_views(r@).contains(k) == entries_map(*m).contains_key(k),
{
    m.iter().map(|item| item.key().clone()).collect()
}

/// `DashMap::len` for transcripts: the number of keys.
#[verifier::external_body]
pub(crate) fn entries_len(m: &DashMap<SessionKey, Vec<SessionStoreEntry>>) -> (r: usize)
    ensures
        r == entries_map(*m).dom().len(),
{
    m.len()
}


/// `DashMap::new` for listings: an empty map.
#[verifier::external_body]
pub(crate) fn new_listings_map() -> (r: DashMap<String, Vec<SessionListEntry>>)
    ensures
        listings_map(r) =~= Map::empty(),
{
    DashMap::new()
}

/// `DashMap::get` for listings, copying the listing found (`Vec::clone`).
#[verifier::external_body]
pub(crate) fn listings_get(m: &DashMap<String, Vec<SessionListEntry>>, key: &String) -> (r: Option<
    Vec<SessionListEntry>,
>)
    ensures
        match r {
            Some(v) => listings_map(*m).contains_key(key@) && list_entries_view(v@) == listings_map(
                *m,
            )[key@],
            None => !listings_map(*m).contains_key(key@),
        },
{
    match m.get(key) {
        Some(found) => Some(found.value().clone()),
        None => None,
    }
}

/// `DashMap::remove` for listings: the key leaves the map, and its listing is
/// handed back.
#[verifier::external_body]
pub(crate) fn listings_take(m: &mut DashMap<String, Vec<SessionListEntry>>, key: &String) -> (r: Option<
    Vec<SessionListEntry>,
>)
    ensures
        listings_map(*final(m)) == listings_map(*old(m)).remove(key@),
        match r {
            Some(v) => listings_map(*old(m)).contains_key(key@) && list_entries_view(v@)
                == listings_map(*old(m))[key@],
            None => !listings_map(*old(m)).contains_key(key@),
        },
{
    match m.remove(key) {
        Some((_, v)) => Some(v),
        None => None,
    }
}

/// `DashMap::insert` for listings: the key now maps to the given listing.
#[verifier::external_body]
pub(crate) fn listings_put(
    m: &mut DashMap<String, Vec<SessionListEntry>>,
    key: String,
    value: Vec<SessionListEntry>,
)
    ensures
        listings_map(*final(m)) == listings_map(*old(m)).insert(key@, list_entries_view(value@)),
{
    m.insert(key, value);
}


/// `DashMap::new` for subkey lists: an empty map.
#[verifier::external_body]
pub(crate) fn new_subkeys_map() -> (r: DashMap<SessionListSubkeysKey, Vec<String>>)
    ensures
        subkeys_map(r) =~= Map::empty(),
{
    DashMap::new()
}

/// `DashMap::get` for subkey lists, copying the list found (`Vec::clone`).
#[verifier::external_body]
pub(crate) fn subkeys_get(m: &DashMap<SessionListSubkeysKey, Vec<String>>, key: &SessionListSubkeysKey) -> (r:
    Option<Vec<String>>)
    ensures
        match r {
            Some(v) => subkeys_map(*m).contains_key(key@) && texts(v@) == subkeys_map(*m)[key@],
            None => !subkeys_map(*m).contains_key(key@),
        },
{
    match m.get(key) {
        Some(found) => Some(found.value().clone()),
        None => None,
    }
}

/// `DashMap::remove` for subkey lists: the key leaves the map, and its list is
/// handed back.
#[verifier::external_body]
pub(crate) fn subkeys_take(m: &mut DashMap<SessionListSubkeysKey, Vec<String>>, key: &SessionListSubkeysKey) -> (r:
    Option<Vec<String>>)
    ensures
        subkeys_map(*final(m)) == subkeys_map(*old(m)).remove(key@),
        match r {
            Some(v) => subkeys_map(*old(m)).contains_key(key@) && texts(v@) == subkeys_map(
                *old(m),
            )[key@],
            None => !subkeys_map(*old(m)).contains_key(key@),
        },
{
    match m.remove(key) {
        Some((_, v)) => Some(v),
        None => None,
    }
}

/// `DashMap::insert` for subkey lists: the key now maps to the given list.
#[verifier::external_body]
pub(crate) fn subkeys_put(
    m: &mut DashMap<SessionListSubkeysKey, Vec<String>>,
    key: SessionListSubkeysKey,
    value: Vec<String>,
)
    ensures
        subkeys_map(*final(m)) == subkeys_map(*old(m)).insert(key@, texts(value@)),
{
    m.insert(key, value);
}


/// `DashMap::new` for sizes: an empty map.
#[verifier::external_body]
pub(crate) fn new_sizes_map() -> (r: DashMap<SessionKey, usize>)
    ensures
        sizes_map(r) =~= Map::empty(),
{
    DashMap::new()
}

/// `DashMap::get` for sizes, copying the size found.
#[verifier::external_body]
pub(crate) fn sizes_get(m: &DashMap<SessionKey, usize>, key: &SessionKey) -> (r: Option<usize>)
    ensures
        match r {
            Some(n) => sizes_map(*m).contains_key(key@) && n == sizes_map(*m)[key@],
            None => !sizes_map(*m).contains_key(key@),
        },
{
    match m.get(key) {
        Some(found) => Some(*found.value()),
        None => None,
    }
}

/// `DashMap::insert` for sizes: the key now maps to the given size.
#[verifier::external_body]
pub(crate) fn sizes_put(
    m: &mut DashMap<SessionKey, usize>,
    key: SessionKey,
    value: usize,
)
    ensures
        sizes_map(*final(m)) == sizes_map(*old(m)).insert(key@, value),
{
    m.insert(key, value);
}

/// `DashMap::clone` for transcripts: a map with the same contents.
#[verifier::external_body]
pub(crate) fn entries_clone(m: &DashMap<SessionKey, Vec<SessionStoreEntry>>) -> (r: DashMap<
    SessionKey,
    Vec<SessionStoreEntry>,
>)
    ensures
        entries_map(r) == entries_map(*m),
{
    m.clone()
}

/// `DashMap::clone` for listings: a map with the same contents.
#[verifier::external_body]
pub(crate) fn listings_clone(m: &DashMap<String, Vec<SessionListEntry>>) -> (r: DashMap<String, Vec<SessionListEntry>>)
    ensures
        listings_map(r) == listings_map(*m),
{
    m.clone()
}

/// `DashMap::clone` for subkey lists: a map with the same contents.
#[verifier::external_body]
pub(crate) fn subkeys_clone(m: &DashMap<SessionListSubkeysKey, Vec<String>>) -> (r: DashMap<
    SessionListSubkeysKey,
    Vec<String>,
>)
    ensures
        subkeys_map(r) == subkeys_map(*m),
{
    m.clone()
}

} // verus!
