//! Session resume support: what a resume materializes, and session queries
//! over a SessionStore.

use vstd::prelude::*;
use crate::api::key_of;
use crate::encoding::{entry_json_len, entry_json_size};
use crate::paths::{project_key_for_directory, project_key_spec};
use crate::seqs::page;
use crate::store::SessionStore;
use crate::types::{
    EntryView, SessionError, SessionKey, SessionStoreEntry, entries_view, owned, texts,
};

verus! {

/// The text `Session not found or empty: ` followed by the session id.
pub open spec fn not_found_or_empty_message(session_id: Seq<char>) -> Seq<char> {
    "Session not found or empty: "@ + session_id
}

/// Materialize a session from a SessionStore: the entries that resuming the
/// session writes out, all entries of the session, which must have at least one.
pub fn materialize_resume_session<S: SessionStore>(store: &S, session_id: &str, abs_directory: &str) -> (r:
    Result<Vec<SessionStoreEntry>, SessionError>)
    ensures
        ({
            let t = store.transcript(key_of(project_key_spec(abs_directory@), session_id@));
            &&& r matches Ok(v) ==> t.len() > 0 && entries_view(v@) == t
            &&& r matches Ok(v) ==> v@.len() == t.len() && forall|i: int|
                0 <= i < v@.len() ==> #[trigger] v@[i]@ == t[i]
            &&& t.len() == 0 ==> r is Err
            &&& store.infallible() && t.len() > 0 ==> r is Ok
            &&& store.infallible() && t.len() == 0 ==> (r matches Err(SessionError::InvalidConfig(m))
                && m@ == not_found_or_empty_message(session_id@))
        }),
{
    let project_key = project_key_for_directory(abs_directory);
    let key = SessionKey::new(project_key.as_str(), session_id);
    entries_for_resume(session_id, store.load(&key))
}

/// What resuming a session gives for the result of loading it: the entries,
/// an error when there are none, or the store's error unchanged.
pub fn entries_for_resume(session_id: &str, loaded: Result<Vec<SessionStoreEntry>, SessionError>) -> (r:
    Result<Vec<SessionStoreEntry>, SessionError>)
    ensures
        match loaded {
            Ok(entries) => {
                &&& entries@.len() == 0 ==> (r matches Err(SessionError::InvalidConfig(m)) && m@
                    == not_found_or_empty_message(session_id@))
                &&& entries@.len() > 0 ==> r == Ok::<Vec<SessionStoreEntry>, SessionError>(entries)
            },
            Err(e) => r == Err::<Vec<SessionStoreEntry>, SessionError>(e),
        },
{
    match loaded {
        Ok(entries) => {
            if entries.len() == 0 {
                let mut m = owned("Session not found or empty: ");
                m.append(session_id);
                return Err(SessionError::InvalidConfig(m));
            }
            Ok(entries)
        },
        Err(e) => Err(e),
    }
}

/// Whether a session exists, given the result of loading it: whether it has
/// entries, or the store's error unchanged.
pub fn exists_from_loaded(loaded: Result<Vec<SessionStoreEntry>, SessionError>) -> (r: Result<
    bool,
    SessionError,
>)
    ensures
        match loaded {
            Ok(entries) => r == Ok::<bool, SessionError>(entries@.len() > 0),
            Err(e) => r == Err::<bool, SessionError>(e),
        },
{
    match loaded {
        Ok(v) => Ok(v.len() > 0),
        Err(e) => Err(e),
    }
}

/// Check if a session exists in the SessionStore: whether it has entries
pub fn session_exists<S: SessionStore>(store: &S, session_id: &str, abs_directory: &str) -> (r: Result<
    bool,
    SessionError,
>)
    ensures
        store.infallible() ==> r is Ok,
        r matches Ok(b) ==> b == (store.transcript(
            key_of(project_key_spec(abs_directory@), session_id@),
        ).len() > 0),
{
    let project_key = project_key_for_directory(abs_directory);
    let key = SessionKey::new(project_key.as_str(), session_id);
    exists_from_loaded(store.load(&key))
}

/// The serialized size of each loaded entry, or the store's error unchanged.
pub fn sizes_from_loaded(loaded: Result<Vec<SessionStoreEntry>, SessionError>) -> (r: Result<
    Vec<usize>,
    SessionError,
>)
    ensures
        match loaded {
            Ok(entries) => r matches Ok(v) && v@.len() == entries@.len() && forall|i: int|
                0 <= i < v@.len() ==> #[trigger] v@[i] == entry_json_size(entries@[i]@),
            Err(e) => r == Err::<Vec<usize>, SessionError>(e),
        },
{
    match loaded {
        Ok(entries) => {
            let mut sizes: Vec<usize> = Vec::new();
            let mut i: usize = 0;
            while i < entries.len()
                invariant
                    0 <= i <= entries@.len(),
                    sizes@.len() == i,
                    forall|j: int| 0 <= j < i ==> #[trigger] sizes@[j] == entry_json_size(entries@[j]@),
                decreases entries.len() - i,
            {
                sizes.push(entry_json_len(&entries[i]));
                i = i + 1;
            }
            Ok(sizes)
        },
        Err(e) => Err(e),
    }
}

/// The serialized size of each entry of a session in a SessionStore, in
/// order: the sizes that the session's total size adds up
pub fn session_entry_sizes<S: SessionStore>(store: &S, session_id: &str, abs_directory: &str) -> (r:
    Result<Vec<usize>, SessionError>)
    ensures
        store.infallible() ==> r is Ok,
        ({
            let t = store.transcript(key_of(project_key_spec(abs_directory@), session_id@));
            r matches Ok(v) ==> v@.len() == t.len() && forall|i: int|
                0 <= i < v@.len() ==> #[trigger] v@[i] == entry_json_size(t[i])
        }),
{
    let project_key = project_key_for_directory(abs_directory);
    let key = SessionKey::new(project_key.as_str(), session_id);
    sizes_from_loaded(store.load(&key))
}

/// The session ids of a listing.
pub open spec fn listing_ids(s: Seq<(Seq<char>, Seq<char>)>) -> Seq<Seq<char>> {
    s.map_values(|e: (Seq<char>, Seq<char>)| e.0)
}

/// List all sessions for a project from a SessionStore
pub fn list_project_sessions<S: SessionStore>(store: &S, abs_directory: &str) -> (r: Result<
    Vec<String>,
    SessionError,
>)
    ensures
        store.infallible() ==> r is Ok,
        r matches Ok(v) ==> texts(v@) == listing_ids(
            page(store.session_list(project_key_spec(abs_directory@)), None, None),
        ),
        r matches Ok(v) ==> v@.len() == (listing_ids(page(store.session_list(project_key_spec(abs_directory@)), None, None))).len(),
        r matches Ok(v) ==> forall|i: int| 0 <= i < v@.len() ==> #[trigger] v@[i]@ == (listing_ids(page(store.session_list(project_key_spec(abs_directory@)), None, None)))[i],
{
    let project_key = project_key_for_directory(abs_directory);
    let list = match store.list_sessions(project_key.as_str(), None, None) {
        Ok(l) => l,
        Err(e) => return Err(e),
    };
    let ghost ls = list@;
    let mut ids: Vec<String> = Vec::new();
    for e in it: list
        invariant
            it.seq() == ls,
            texts(ids@) == listing_ids(crate::types::list_entries_view(ls.subrange(0, it.index() as int))),
    {
        let ghost idx = it.index();
        proof {
            assert(listing_ids(crate::types::list_entries_view(ls.subrange(0, idx + 1))) == listing_ids(
                crate::types::list_entries_view(ls.subrange(0, idx as int)),
            ).push(e@.0));
            assert(texts(ids@.push(e.session_id)) == texts(ids@).push(e.session_id@));
        }
        ids.push(e.session_id);
    }
    proof {
        assert(ls.subrange(0, ls.len() as int) == ls);
    }
    Ok(ids)
}

/// The sum of a sequence of sizes.
pub open spec fn size_sum(s: Seq<usize>) -> nat
    decreases s.len(),
{
    if s.len() == 0 {
        0
    } else {
        size_sum(s.drop_last()) + s.last() as nat
    }
}

/// The total size of a session, given the serialized size of each of its entries
pub fn total_session_size(entry_sizes: &Vec<usize>) -> (r: u64)
    requires
        size_sum(entry_sizes@) <= u64::MAX,
    ensures
        r == size_sum(entry_sizes@),
{
    let mut total: u64 = 0;
    let mut i: usize = 0;
    while i < entry_sizes.len()
        invariant
            0 <= i <= entry_sizes@.len(),
            total == size_sum(entry_sizes@.subrange(0, i as int)),
            size_sum(entry_sizes@) <= u64::MAX,
        decreases entry_sizes.len() - i,
    {
        proof {
            assert(entry_sizes@.subrange(0, i + 1).drop_last() == entry_sizes@.subrange(0, i as int));
            lemma_size_sum_prefix(entry_sizes@, i + 1);
        }
        total = total + entry_sizes[i] as u64;
        i = i + 1;
    }
    assert(entry_sizes@.subrange(0, entry_sizes@.len() as int) == entry_sizes@);
    total
}

/// The sum of a prefix is at most the sum of the whole sequence.
pub proof fn lemma_size_sum_prefix(s: Seq<usize>, n: int)
    requires
        0 <= n <= s.len(),
    ensures
        size_sum(s.subrange(0, n)) <= size_sum(s),
    decreases s.len(),
{
    if n < s.len() {
        lemma_size_sum_prefix(s.drop_last(), n);
        assert(s.drop_last().subrange(0, n) == s.subrange(0, n));
    } else {
        assert(s.subrange(0, n) == s);
    }
}

} // verus!
