//! In-memory session store implementation

use std::sync::Arc;
use dashmap::DashMap;
use vstd::prelude::*;
use crate::maps::{
    entries_clone, entries_get, entries_map, entries_put, entries_take, listings_clone,
    listings_get, listings_map, listings_put, listings_take, new_entries_map, new_listings_map,
    new_subkeys_map, subkeys_clone, subkeys_get, subkeys_map, subkeys_put, subkeys_take,
};
use crate::seqs::{first_index, lemma_first_index, lemma_first_index_is, page, page_of};
use crate::store::SessionStore;
use crate::types::{
    EntryView, SessionError, SessionKey, SessionKeyView, SessionListEntry, SessionListSubkeysKey,
    SessionStoreEntry, entries_view, list_entries_view, owned, texts,
};

verus! {

/// In-memory session store implementation using DashMap
#[derive(Debug)]
pub struct InMemorySessionStore {
    /// Entries stored by session key
    entries: DashMap<SessionKey, Vec<SessionStoreEntry>>,
    /// Session list by project_key -> list of sessions
    sessions: DashMap<String, Vec<SessionListEntry>>,
    /// Subkeys by project_key/session_id
    subkeys: DashMap<SessionListSubkeysKey, Vec<String>>,
}

/// The session ids of a listing.
pub open spec fn listed_ids(s: Seq<(Seq<char>, Seq<char>)>) -> Seq<Seq<char>> {
    s.map_values(|e: (Seq<char>, Seq<char>)| e.0)
}

/// A listing after `entry` is recorded: the first listing entry with the same
/// session id takes the new modification time, or the entry is appended.
pub open spec fn listing_add(s: Seq<(Seq<char>, Seq<char>)>, entry: (Seq<char>, Seq<char>)) -> Seq<
    (Seq<char>, Seq<char>),
> {
    let i = first_index(listed_ids(s), entry.0);
    if i < 0 {
        s.push(entry)
    } else {
        s.update(i, (s[i].0, entry.1))
    }
}

/// A listing without the entries of session `id`.
pub open spec fn listing_remove(s: Seq<(Seq<char>, Seq<char>)>, id: Seq<char>) -> Seq<
    (Seq<char>, Seq<char>),
> {
    s.filter(of_other_session(id))
}

/// Whether a listing entry belongs to a session other than `id`.
pub open spec fn of_other_session(id: Seq<char>) -> spec_fn((Seq<char>, Seq<char>)) -> bool {
    |e: (Seq<char>, Seq<char>)| e.0 != id
}

/// No entry of session `id` is left after removing its entries.
pub proof fn lemma_listing_remove_excludes(s: Seq<(Seq<char>, Seq<char>)>, id: Seq<char>)
    ensures
        forall|i: int|
            0 <= i < listing_remove(s, id).len() ==> #[trigger] listing_remove(s, id)[i].0 != id,
{
    broadcast use vstd::seq_lib::group_filter_ensures;
    assert forall|i: int| 0 <= i < listing_remove(s, id).len() implies #[trigger] listing_remove(
        s,
        id,
    )[i].0 != id by {
        s.lemma_filter_pred(of_other_session(id), i);
    }
}

/// A subkey list after `subkey` is recorded: unchanged when it is there already.
pub open spec fn subkeys_add(s: Seq<Seq<char>>, subkey: Seq<char>) -> Seq<Seq<char>> {
    if s.contains(subkey) {
        s
    } else {
        s.push(subkey)
    }
}

/// The position of the first listing entry of session `id`.
fn find_listed(list: &Vec<SessionListEntry>, id: &String) -> (r: Option<usize>)
    ensures
        match r {
            Some(j) => j < list@.len() && j == first_index(listed_ids(list_entries_view(list@)), id@),
            None => first_index(listed_ids(list_entries_view(list@)), id@) == -1,
        },
{
    let ghost ids = listed_ids(list_entries_view(list@));
    let mut j: usize = 0;
    while j < list.len()
        invariant
            0 <= j <= list@.len(),
            ids == listed_ids(list_entries_view(list@)),
            forall|k: int| 0 <= k < j ==> ids[k] != id@,
        decreases list.len() - j,
    {
        if list[j].session_id == *id {
            proof {
                lemma_first_index_is(ids, id@, j as int);
            }
            return Some(j);
        }
        j = j + 1;
    }
    proof {
        lemma_first_index(ids, id@);
    }
    None
}

/// Whether `x` occurs in `v`.
fn contains_text(v: &Vec<String>, x: &String) -> (r: bool)
    ensures
        r == texts(v@).contains(x@),
{
    let mut j: usize = 0;
    while j < v.len()
        invariant
            0 <= j <= v@.len(),
            forall|k: int| 0 <= k < j ==> texts(v@)[k] != x@,
        decreases v.len() - j,
    {
        if v[j] == *x {
            assert(texts(v@)[j as int] == x@);
            return true;
        }
        j = j + 1;
    }
    false
}

/// The listing without the entries of session `id`.
fn without_session(list: &Vec<SessionListEntry>, id: &String) -> (r: Vec<SessionListEntry>)
    ensures
        list_entries_view(r@) == listing_remove(list_entries_view(list@), id@),
{
    let ghost pred = of_other_session(id@);
    let mut out: Vec<SessionListEntry> = Vec::new();
    let mut i: usize = 0;
    while i < list.len()
        invariant
            0 <= i <= list.len(),
            pred == of_other_session(id@),
            list_entries_view(out@) == list_entries_view(list@.subrange(0, i as int)).filter(pred),
        decreases list.len() - i,
    {
        let ghost prefix = list_entries_view(list@.subrange(0, i as int));
        proof {
            reveal(Seq::filter);
            assert(list_entries_view(list@.subrange(0, i + 1)) == prefix.push(list@[i as int]@));
            assert(prefix.push(list@[i as int]@).drop_last() == prefix);
        }
        if list[i].session_id != *id {
            let e = list[i].clone();
            proof {
                assert(list_entries_view(out@.push(e)) == list_entries_view(out@).push(e@));
            }
            out.push(e);
        }
        i = i + 1;
    }
    assert(list@.subrange(0, list@.len() as int) == list@);
    out
}

impl InMemorySessionStore {
    /// The entries recorded under `key`.
    pub closed spec fn transcript_of(&self, key: SessionKeyView) -> Seq<EntryView> {
        if entries_map(self.entries).contains_key(key) {
            entries_map(self.entries)[key]
        } else {
            Seq::empty()
        }
    }

    /// The listing of project `project_key`.
    pub closed spec fn listing_of(&self, project_key: Seq<char>) -> Seq<(Seq<char>, Seq<char>)> {
        if listings_map(self.sessions).contains_key(project_key) {
            listings_map(self.sessions)[project_key]
        } else {
            Seq::empty()
        }
    }

    /// The subkeys of session `key`.
    pub closed spec fn subkeys_of(&self, key: (Seq<char>, Seq<char>)) -> Seq<Seq<char>> {
        if subkeys_map(self.subkeys).contains_key(key) {
            subkeys_map(self.subkeys)[key]
        } else {
            Seq::empty()
        }
    }

    /// Create a new in-memory session store
    pub fn new() -> (r: InMemorySessionStore)
        ensures
            forall|k: SessionKeyView| #[trigger] r.transcript_of(k) == Seq::<EntryView>::empty(),
            forall|p: Seq<char>| #[trigger] r.listing_of(p) == Seq::<(Seq<char>, Seq<char>)>::empty(),
            forall|k: (Seq<char>, Seq<char>)| #[trigger] r.subkeys_of(k) == Seq::<Seq<char>>::empty(),
    {
        InMemorySessionStore {
            entries: new_entries_map(),
            sessions: new_listings_map(),
            subkeys: new_subkeys_map(),
        }
    }

    /// Add a session to the project's session list
    ///
    /// A session already listed gets the new modification time; another one
    /// is appended to the listing.
    pub fn add_session_entry(&mut self, project_key: &str, entry: SessionListEntry)
        ensures
            forall|p: Seq<char>| #[trigger]
                final(self).listing_of(p) == if p == project_key@ {
                    listing_add(old(self).listing_of(p), entry@)
                } else {
                    old(self).listing_of(p)
                },
            forall|k: SessionKeyView| #[trigger] final(self).transcript_of(k) == old(
                self,
            ).transcript_of(k),
            forall|k: (Seq<char>, Seq<char>)| #[trigger] final(self).subkeys_of(k) == old(
                self,
            ).subkeys_of(k),
    {
        let ghost e = entry@;
        let pk = owned(project_key);
        let mut list = match listings_take(&mut self.sessions, &pk) {
            Some(v) => v,
            None => Vec::new(),
        };
        let ghost old_list = list_entries_view(list@);
        match find_listed(&list, &entry.session_id) {
            Some(j) => {
                list[j].mtime = entry.mtime;
                proof {
                    lemma_first_index(listed_ids(old_list), e.0);
                }
            },
            None => {
                list.push(entry);
            },
        }
        proof {
            assert(list_entries_view(list@) =~= listing_add(old_list, e));
        }
        listings_put(&mut self.sessions, pk, list);
    }

    /// Add a subkey (e.g., subagent ID) to a session, unless it is there already
    pub fn add_subkey(&mut self, key: &SessionListSubkeysKey, subkey: String)
        ensures
            forall|k: (Seq<char>, Seq<char>)| #[trigger]
                final(self).subkeys_of(k) == if k == key@ {
                    subkeys_add(old(self).subkeys_of(k), subkey@)
                } else {
                    old(self).subkeys_of(k)
                },
            forall|k: SessionKeyView| #[trigger] final(self).transcript_of(k) == old(
                self,
            ).transcript_of(k),
            forall|p: Seq<char>| #[trigger] final(self).listing_of(p) == old(self).listing_of(p),
    {
        let ghost sk = subkey@;
        let mut list = match subkeys_take(&mut self.subkeys, key) {
            Some(v) => v,
            None => Vec::new(),
        };
        let ghost old_list = texts(list@);
        if !contains_text(&list, &subkey) {
            list.push(subkey);
            proof {
                assert(texts(list@) =~= old_list.push(sk));
            }
        }
        subkeys_put(&mut self.subkeys, key.clone(), list);
    }

    /// Get a clone of the store wrapped in Arc for sharing across tasks
    pub fn arc(&self) -> (r: Arc<InMemorySessionStore>)
        ensures
            forall|k: SessionKeyView| #[trigger] r.transcript_of(k) == self.transcript_of(k),
            forall|p: Seq<char>| #[trigger] r.listing_of(p) == self.listing_of(p),
            forall|k: (Seq<char>, Seq<char>)| #[trigger] r.subkeys_of(k) == self.subkeys_of(k),
    {
        Arc::new(self.clone())
    }
}

impl Clone for InMemorySessionStore {
    fn clone(&self) -> (r: InMemorySessionStore)
        ensures
            forall|k: SessionKeyView| #[trigger] r.transcript_of(k) == self.transcript_of(k),
            forall|p: Seq<char>| #[trigger] r.listing_of(p) == self.listing_of(p),
            forall|k: (Seq<char>, Seq<char>)| #[trigger] r.subkeys_of(k) == self.subkeys_of(k),
    {
        InMemorySessionStore {
            entries: entries_clone(&self.entries),
            sessions: listings_clone(&self.sessions),
            subkeys: subkeys_clone(&self.subkeys),
        }
    }
}

impl Default for InMemorySessionStore {
    fn default() -> (r: InMemorySessionStore)
        ensures
            forall|k: SessionKeyView| #[trigger] r.transcript_of(k) == Seq::<EntryView>::empty(),
            forall|p: Seq<char>| #[trigger] r.listing_of(p) == Seq::<(Seq<char>, Seq<char>)>::empty(),
            forall|k: (Seq<char>, Seq<char>)| #[trigger] r.subkeys_of(k) == Seq::<Seq<char>>::empty(),
    {
        InMemorySessionStore::new()
    }
}

impl SessionStore for InMemorySessionStore {
    open spec fn infallible(&self) -> bool {
        true
    }

    open spec fn transcript(&self, key: SessionKeyView) -> Seq<EntryView> {
        self.transcript_of(key)
    }

    open spec fn session_list(&self, project_key: Seq<char>) -> Seq<(Seq<char>, Seq<char>)> {
        self.listing_of(project_key)
    }

    open spec fn subkey_list(&self, key: (Seq<char>, Seq<char>)) -> Seq<Seq<char>> {
        self.subkeys_of(key)
    }

    fn append(&mut self, session_key: &SessionKey, entry: SessionStoreEntry) -> (r: Result<
        (),
        SessionError,
    >)
        ensures
            r is Ok,
            forall|p: Seq<char>| #[trigger] final(self).listing_of(p) == old(self).listing_of(p),
            forall|k: (Seq<char>, Seq<char>)| #[trigger] final(self).subkeys_of(k) == old(
                self,
            ).subkeys_of(k),
    {
        let ghost e = entry@;
        let ghost before = self.transcript_of(session_key@);
        let mut list = match entries_take(&mut self.entries, session_key) {
            Some(v) => v,
            None => Vec::new(),
        };
        proof {
            assert(entries_view(list@) == before);
        }
        list.push(entry);
        proof {
            assert(entries_view(list@) =~= before.push(e));
        }
        entries_put(&mut self.entries, session_key.clone(), list);
        Ok(())
    }

    fn load(&self, session_key: &SessionKey) -> (r: Result<Vec<SessionStoreEntry>, SessionError>)
        ensures
            r is Ok,
    {
        match entries_get(&self.entries, session_key) {
            Some(v) => Ok(v),
            None => Ok(Vec::new()),
        }
    }

    fn list_sessions(&self, project_key: &str, limit: Option<usize>, offset: Option<usize>) -> (r:
        Result<Vec<SessionListEntry>, SessionError>)
        ensures
            r is Ok,
    {
        let pk = owned(project_key);
        let all = match listings_get(&self.sessions, &pk) {
            Some(v) => v,
            None => Vec::new(),
        };
        let r = page_of(all, limit, offset);
        proof {
            assert(list_entries_view(r@) =~= page(list_entries_view(all@), limit, offset));
        }
        Ok(r)
    }

    fn delete(&mut self, session_key: &SessionKey) -> (r: Result<(), SessionError>)
        ensures
            r is Ok,
            forall|k: SessionKeyView|
                k != session_key@ ==> #[trigger] final(self).transcript_of(k) == old(
                    self,
                ).transcript_of(k),
            forall|p: Seq<char>| #[trigger]
                final(self).listing_of(p) == if p == session_key@.project_key {
                    listing_remove(old(self).listing_of(p), session_key@.session_id)
                } else {
                    old(self).listing_of(p)
                },
            forall|i: int|
                0 <= i < final(self).listing_of(session_key@.project_key).len()
                    ==> #[trigger] final(self).listing_of(session_key@.project_key)[i].0
                    != session_key@.session_id,
            forall|k: (Seq<char>, Seq<char>)| #[trigger]
                final(self).subkeys_of(k) == if k == (
                    session_key@.project_key,
                    session_key@.session_id,
                ) {
                    Seq::<Seq<char>>::empty()
                } else {
                    old(self).subkeys_of(k)
                },
    {
        // Remove entries
        entries_take(&mut self.entries, session_key);
        // Remove from sessions list
        match listings_take(&mut self.sessions, &session_key.project_key) {
            Some(list) => {
                let kept = without_session(&list, &session_key.session_id);
                listings_put(&mut self.sessions, session_key.project_key.clone(), kept);
            },
            None => {
                proof {
                    reveal(Seq::filter);
                    assert(listing_remove(Seq::empty(), session_key@.session_id) =~= Seq::empty());
                }
            },
        }
        // Remove subkeys
        let subkey = SessionListSubkeysKey {
            project_key: session_key.project_key.clone(),
            session_id: session_key.session_id.clone(),
        };
        subkeys_take(&mut self.subkeys, &subkey);
        proof {
            lemma_listing_remove_excludes(old(self).listing_of(session_key@.project_key), session_key@.session_id);
        }
        Ok(())
    }

    fn list_subkeys(&self, key: &SessionListSubkeysKey) -> (r: Result<Vec<String>, SessionError>)
        ensures
            r is Ok,
    {
        match subkeys_get(&self.subkeys, key) {
            Some(v) => Ok(v),
            None => Ok(Vec::new()),
        }
    }
}

} // verus!
