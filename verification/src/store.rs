//! The interface of a session storage backend.

use vstd::prelude::*;
use crate::seqs::page;
use crate::types::{
    EntryView, SessionError, SessionKey, SessionKeyView, SessionListEntry, SessionListSubkeysKey,
    SessionStoreEntry, entries_view, list_entries_view, texts,
};

verus! {

/// A storage backend for session transcripts.
///
/// A backend records, for each session key, the transcript of its entries;
/// for each project, a listing of its sessions; and for each session, the
/// names of its nested transcripts (e.g., subagent IDs).  An operation may
/// fail; what is stated of an operation holds when it succeeds, and a backend
/// that is `infallible` never fails.
pub trait SessionStore {
    /// Whether every operation of the backend succeeds.
    spec fn infallible(&self) -> bool;

    /// The entries recorded under `key`, oldest first.
    spec fn transcript(&self, key: SessionKeyView) -> Seq<EntryView>;

    /// The sessions listed for the project `project_key`.
    spec fn session_list(&self, project_key: Seq<char>) -> Seq<(Seq<char>, Seq<char>)>;

    /// The subkeys recorded for the session `key` (project key, session id).
    spec fn subkey_list(&self, key: (Seq<char>, Seq<char>)) -> Seq<Seq<char>>;

    /// Append a new entry to a session transcript
    fn append(&mut self, session_key: &SessionKey, entry: SessionStoreEntry) -> (r: Result<
        (),
        SessionError,
    >)
        ensures
            old(self).infallible() ==> r is Ok,
            final(self).infallible() == old(self).infallible(),
            r is Ok ==> final(self).transcript(session_key@) == old(self).transcript(
                session_key@,
            ).push(entry@),
            r is Ok ==> forall|k: SessionKeyView|
                k != session_key@ ==> #[trigger] final(self).transcript(k) == old(self).transcript(
                    k,
                ),
    ;

    /// Load all entries for a session
    fn load(&self, session_key: &SessionKey) -> (r: Result<Vec<SessionStoreEntry>, SessionError>)
        ensures
            self.infallible() ==> r is Ok,
            r matches Ok(v) ==> entries_view(v@) == self.transcript(session_key@),
            r matches Ok(v) ==> v@.len() == self.transcript(session_key@).len(),
            r matches Ok(v) ==> forall|i: int|
                0 <= i < v@.len() ==> #[trigger] v@[i]@ == self.transcript(session_key@)[i],
    ;

    /// List the sessions of a project, `offset` skipped and at most `limit` kept
    fn list_sessions(&self, project_key: &str, limit: Option<usize>, offset: Option<usize>) -> (r:
        Result<Vec<SessionListEntry>, SessionError>)
        ensures
            self.infallible() ==> r is Ok,
            r matches Ok(v) ==> list_entries_view(v@) == page(
                self.session_list(project_key@),
                limit,
                offset,
            ),
            r matches Ok(v) ==> v@.len() == page(self.session_list(project_key@), limit, offset).len(),
            r matches Ok(v) ==> forall|i: int|
                0 <= i < v@.len() ==> #[trigger] v@[i]@ == page(
                    self.session_list(project_key@),
                    limit,
                    offset,
                )[i],
    ;

    /// Delete a session and all its entries; the transcripts of other sessions
    /// stay as they are
    fn delete(&mut self, session_key: &SessionKey) -> (r: Result<(), SessionError>)
        ensures
            old(self).infallible() ==> r is Ok,
            final(self).infallible() == old(self).infallible(),
            r is Ok ==> final(self).transcript(session_key@) == Seq::<EntryView>::empty(),
            r is Ok ==> forall|k: SessionKeyView|
                k.project_key != session_key@.project_key || k.session_id != session_key@.session_id
                    ==> #[trigger] final(self).transcript(k) == old(self).transcript(k),
    ;

    /// List subkeys for a session (e.g., subagent IDs)
    fn list_subkeys(&self, key: &SessionListSubkeysKey) -> (r: Result<Vec<String>, SessionError>)
        ensures
            self.infallible() ==> r is Ok,
            r matches Ok(v) ==> texts(v@) == self.subkey_list(key@),
            r matches Ok(v) ==> v@.len() == self.subkey_list(key@).len(),
            r matches Ok(v) ==> forall|i: int|
                0 <= i < v@.len() ==> #[trigger] v@[i]@ == self.subkey_list(key@)[i],
    ;
}

} // verus!
