//! SessionStore-backed API functions.
//!
//! Each function takes the store and the absolute (canonical) path of the
//! project directory, from which the project key is derived.

use vstd::prelude::*;
use crate::json::{JsonModel, JsonValue, assoc_get, get_member, json_as_str, json_as_u64, members_model};
use crate::listing::{recency_order, sort_by_recency};
use crate::paths::{project_key_for_directory, project_key_spec};
use crate::seqs::{page, page_of};
use crate::sessions::{or_empty, present};
use crate::store::SessionStore;
use crate::types::{
    EntryView, ForkSessionResult, MessageView, SDKSessionInfo, SessionError, SessionInfoView,
    SessionKey, SessionKeyView, SessionListEntry, SessionListSubkeysKey, SessionMessage,
    SessionStoreEntry, entries_view, infos_view, list_entries_view, messages_view, owned, texts,
};

verus! {

/// The string value of data field `key` of an entry.
pub open spec fn data_str(e: EntryView, key: Seq<char>) -> Option<Seq<char>> {
    json_as_str(assoc_get(e.data, key))
}

/// The non-negative integer value of data field `key` of an entry.
pub open spec fn data_u64(e: EntryView, key: Seq<char>) -> Option<u64> {
    match assoc_get(e.data, key) {
        Some(v) => json_as_u64(v),
        None => None,
    }
}

/// The session information that a session's first entry gives.
pub open spec fn entry_info_spec(
    session_id: Seq<char>,
    last_modified: Seq<char>,
    first: EntryView,
) -> SessionInfoView {
    SessionInfoView {
        session_id,
        summary: or_empty(data_str(first, "summary"@)),
        last_modified,
        file_size: match data_u64(first, "file_size"@) {
            Some(n) => n,
            None => 0,
        },
        custom_title: data_str(first, "custom_title"@),
        first_prompt: data_str(first, "first_prompt"@),
        git_branch: data_str(first, "git_branch"@),
        cwd: data_str(first, "cwd"@),
        tag: data_str(first, "tag"@),
        created_at: first.timestamp,
    }
}

fn data_string(e: &SessionStoreEntry, key: &str) -> (r: Option<String>)
    ensures
        match r {
            Some(s) => data_str(e@, key@) == Some(s@),
            None => data_str(e@, key@) is None,
        },
{
    match get_member(&e.data, key) {
        Some(v) => match v.as_str() {
            Some(s) => Some(s.clone()),
            None => None,
        },
        None => None,
    }
}

/// Session information from the first entry of a session.
pub fn info_from_entry(session_id: String, last_modified: String, first: &SessionStoreEntry) -> (r:
    SDKSessionInfo)
    ensures
        r@ == entry_info_spec(session_id@, last_modified@, first@),
{
    let summary = match data_string(first, "summary") {
        Some(s) => s,
        None => String::new(),
    };
    let file_size = match get_member(&first.data, "file_size") {
        Some(v) => match v.as_u64() {
            Some(n) => n,
            None => 0,
        },
        None => 0,
    };
    SDKSessionInfo {
        session_id,
        summary,
        last_modified,
        file_size,
        custom_title: data_string(first, "custom_title"),
        first_prompt: data_string(first, "first_prompt"),
        git_branch: data_string(first, "git_branch"),
        cwd: data_string(first, "cwd"),
        tag: data_string(first, "tag"),
        created_at: first.timestamp.clone(),
    }
}

/// The key of session `session_id` of project `project_key`.
pub open spec fn key_of(project_key: Seq<char>, session_id: Seq<char>) -> SessionKeyView {
    SessionKeyView { project_key, session_id, subpath: None }
}

/// The session information of the listed sessions of a project that have
/// entries, in listing order.
pub open spec fn listed_infos<S: SessionStore>(store: S, project_key: Seq<char>) -> Seq<SessionInfoView> {
    present(
        page(store.session_list(project_key), None, None).map_values(
            |e: (Seq<char>, Seq<char>)|
                {
                    let t = store.transcript(key_of(project_key, e.0));
                    if t.len() > 0 {
                        Some(entry_info_spec(e.0, e.1, t[0]))
                    } else {
                        None
                    }
                },
        ),
    )
}

/// List sessions from a SessionStore
///
/// Every session that the store lists for the project and that has entries
/// is described by its first entry; the sessions are ordered by modification
/// time, most recent first, then `offset` are skipped and at most `limit` kept.
pub fn list_sessions_from_store<S: SessionStore>(
    store: &S,
    abs_directory: &str,
    limit: Option<usize>,
    offset: Option<usize>,
) -> (r: Result<Vec<SDKSessionInfo>, SessionError>)
    ensures
        store.infallible() ==> r is Ok,
        r matches Ok(v) ==> infos_view(v@) == page(
            recency_order(listed_infos(*store, project_key_spec(abs_directory@))),
            limit,
            offset,
        ),
        r matches Ok(v) ==> v@.len() == (page(recency_order(listed_infos(*store, project_key_spec(abs_directory@))), limit, offset)).len(),
        r matches Ok(v) ==> forall|i: int| 0 <= i < v@.len() ==> #[trigger] v@[i]@ == (page(recency_order(listed_infos(*store, project_key_spec(abs_directory@))), limit, offset))[i],
{
    let project_key = project_key_for_directory(abs_directory);
    let ghost pk = project_key@;
    let list = match store.list_sessions(project_key.as_str(), None, None) {
        Ok(l) => l,
        Err(e) => return Err(e),
    };
    let ghost ls = list@;
    let ghost f = |e: (Seq<char>, Seq<char>)|
        {
            let t = store.transcript(key_of(pk, e.0));
            if t.len() > 0 {
                Some(entry_info_spec(e.0, e.1, t[0]))
            } else {
                None
            }
        };
    let mut infos: Vec<SDKSessionInfo> = Vec::new();
    for entry in it: list
        invariant
            it.seq() == ls,
            pk == project_key@,
            f == (|e: (Seq<char>, Seq<char>)|
                {
                    let t = store.transcript(key_of(pk, e.0));
                    if t.len() > 0 {
                        Some(entry_info_spec(e.0, e.1, t[0]))
                    } else {
                        None
                    }
                }),
            infos_view(infos@) == present(
                list_entries_view(ls.subrange(0, it.index() as int)).map_values(f),
            ),
    {
        let ghost idx = it.index();
        let ghost before = list_entries_view(ls.subrange(0, idx as int)).map_values(f);
        proof {
            assert(list_entries_view(ls.subrange(0, idx + 1)).map_values(f) == before.push(
                f(entry@),
            ));
            assert(before.push(f(entry@)).drop_last() == before);
        }
        let key = SessionKey::new(project_key.as_str(), entry.session_id.as_str());
        let entries = match store.load(&key) {
            Ok(v) => v,
            Err(e) => return Err(e),
        };
        if entries.len() > 0 {
            proof {
                assert(entries_view(entries@)[0] == entries@[0]@);
            }
            let info = info_from_entry(entry.session_id, entry.mtime, &entries[0]);
            proof {
                assert(infos_view(infos@.push(info)) == infos_view(infos@).push(info@));
            }
            infos.push(info);
        }
    }
    proof {
        assert(ls.subrange(0, ls.len() as int) == ls);
    }
    let sorted = sort_by_recency(infos);
    let r = page_of(sorted, limit, offset);
    proof {
        assert(infos_view(r@) =~= page(infos_view(sorted@), limit, offset));
    }
    Ok(r)
}

/// The text `Session not found: ` followed by the session id.
pub open spec fn not_found_message(session_id: Seq<char>) -> Seq<char> {
    "Session not found: "@ + session_id
}

/// Session information from the result of loading a session: from its first
/// entry, an error when the session has none, or the store's error unchanged.
pub fn info_from_loaded(session_id: &str, loaded: Result<Vec<SessionStoreEntry>, SessionError>) -> (r:
    Result<SDKSessionInfo, SessionError>)
    ensures
        match loaded {
            Ok(entries) => {
                &&& entries@.len() == 0 ==> (r matches Err(SessionError::InvalidConfig(m)) && m@
                    == not_found_message(session_id@))
                &&& entries@.len() > 0 ==> (r matches Ok(i) && i@ == entry_info_spec(
                    session_id@,
                    entries@[0]@.timestamp,
                    entries@[0]@,
                ))
            },
            Err(e) => r == Err::<SDKSessionInfo, SessionError>(e),
        },
{
    match loaded {
        Ok(entries) => {
            if entries.len() == 0 {
                let mut m = owned("Session not found: ");
                m.append(session_id);
                return Err(SessionError::InvalidConfig(m));
            }
            let first = &entries[0];
            Ok(info_from_entry(owned(session_id), first.timestamp.clone(), first))
        },
        Err(e) => Err(e),
    }
}

/// Get session info from a SessionStore
///
/// The information comes from the session's first entry; a session without
/// entries is not found.
pub fn get_session_info_from_store<S: SessionStore>(
    store: &S,
    session_id: &str,
    abs_directory: &str,
) -> (r: Result<SDKSessionInfo, SessionError>)
    ensures
        ({
            let t = store.transcript(key_of(project_key_spec(abs_directory@), session_id@));
            &&& r matches Ok(i) ==> t.len() > 0 && i@ == entry_info_spec(session_id@, t[0].timestamp, t[0])
            &&& t.len() == 0 ==> r is Err
            &&& store.infallible() && t.len() > 0 ==> r is Ok
            &&& store.infallible() && t.len() == 0 ==> (r matches Err(SessionError::InvalidConfig(m))
                && m@ == not_found_message(session_id@))
        }),
{
    let project_key = project_key_for_directory(abs_directory);
    let key = SessionKey::new(project_key.as_str(), session_id);
    info_from_loaded(session_id, store.load(&key))
}

/// The message that an entry of session `session_id` gives: its type, id,
/// all of its data as an object, and the `parent_tool_use_id` data field.
pub open spec fn entry_message_spec(session_id: Seq<char>, e: EntryView) -> MessageView {
    MessageView {
        msg_type: e.entry_type,
        uuid: e.uuid,
        session_id,
        message: JsonModel::Object(e.data),
        parent_tool_use_id: data_str(e, "parent_tool_use_id"@),
    }
}

/// The message of an entry.
pub fn message_from_entry(session_id: &str, e: SessionStoreEntry) -> (r: SessionMessage)
    ensures
        r@ == entry_message_spec(session_id@, e@),
{
    let parent_tool_use_id = data_string(&e, "parent_tool_use_id");
    SessionMessage {
        msg_type: e.entry_type,
        uuid: e.uuid,
        session_id: owned(session_id),
        message: JsonValue::Object(e.data),
        parent_tool_use_id,
    }
}

/// The messages of a sequence of entries.
fn messages_from_entries(session_id: &str, entries: Vec<SessionStoreEntry>) -> (r: Vec<SessionMessage>)
    ensures
        messages_view(r@) == entries_view(entries@).map_values(
            |e: EntryView| entry_message_spec(session_id@, e),
        ),
{
    let ghost es = entries@;
    let mut out: Vec<SessionMessage> = Vec::new();
    for e in it: entries
        invariant
            it.seq() == es,
            messages_view(out@) == entries_view(es.subrange(0, it.index() as int)).map_values(
                |e: EntryView| entry_message_spec(session_id@, e),
            ),
    {
        let ghost idx = it.index();
        let m = message_from_entry(session_id, e);
        proof {
            assert(entries_view(es.subrange(0, idx + 1)).map_values(
                |e: EntryView| entry_message_spec(session_id@, e),
            ) == entries_view(es.subrange(0, idx as int)).map_values(
                |e: EntryView| entry_message_spec(session_id@, e),
            ).push(m@));
            assert(messages_view(out@.push(m)) == messages_view(out@).push(m@));
        }
        out.push(m);
    }
    proof {
        assert(es.subrange(0, es.len() as int) == es);
    }
    out
}

/// The messages of a session, given the result of loading it: `offset`
/// entries skipped and at most `limit` kept, each becoming a message; or the
/// store's error unchanged.
pub fn messages_from_loaded(
    session_id: &str,
    loaded: Result<Vec<SessionStoreEntry>, SessionError>,
    limit: Option<usize>,
    offset: Option<usize>,
) -> (r: Result<Vec<SessionMessage>, SessionError>)
    ensures
        match loaded {
            Ok(entries) => r matches Ok(v) && messages_view(v@) == page(
                entries_view(entries@),
                limit,
                offset,
            ).map_values(|e: EntryView| entry_message_spec(session_id@, e)),
            Err(e) => r == Err::<Vec<SessionMessage>, SessionError>(e),
        },
{
    match loaded {
        Ok(entries) => {
            let chosen = page_of(entries, limit, offset);
            proof {
                assert(entries_view(chosen@) =~= page(entries_view(entries@), limit, offset));
            }
            Ok(messages_from_entries(session_id, chosen))
        },
        Err(e) => Err(e),
    }
}

/// Get session messages from a SessionStore
///
/// `offset` entries are skipped and at most `limit` kept; each becomes a message.
pub fn get_session_messages_from_store<S: SessionStore>(
    store: &S,
    session_id: &str,
    abs_directory: &str,
    limit: Option<usize>,
    offset: Option<usize>,
) -> (r: Result<Vec<SessionMessage>, SessionError>)
    ensures
        store.infallible() ==> r is Ok,
        r matches Ok(v) ==> messages_view(v@) == page(
            store.transcript(key_of(project_key_spec(abs_directory@), session_id@)),
            limit,
            offset,
        ).map_values(|e: EntryView| entry_message_spec(session_id@, e)),
        r matches Ok(v) ==> v@.len() == (page(store.transcript(key_of(project_key_spec(abs_directory@), session_id@)), limit, offset).map_values(|e: EntryView| entry_message_spec(session_id@, e))).len(),
        r matches Ok(v) ==> forall|i: int| 0 <= i < v@.len() ==> #[trigger] v@[i]@ == (page(store.transcript(key_of(project_key_spec(abs_directory@), session_id@)), limit, offset).map_values(|e: EntryView| entry_message_spec(session_id@, e)))[i],
{
    let project_key = project_key_for_directory(abs_directory);
    let key = SessionKey::new(project_key.as_str(), session_id);
    messages_from_loaded(session_id, store.load(&key), limit, offset)
}

/// List subagents from a SessionStore
pub fn list_subagents_from_store<S: SessionStore>(
    store: &S,
    session_id: &str,
    abs_directory: &str,
) -> (r: Result<Vec<String>, SessionError>)
    ensures
        store.infallible() ==> r is Ok,
        r matches Ok(v) ==> texts(v@) == store.subkey_list(
            (project_key_spec(abs_directory@), session_id@),
        ),
        r matches Ok(v) ==> v@.len() == (store.subkey_list((project_key_spec(abs_directory@), session_id@))).len(),
        r matches Ok(v) ==> forall|i: int| 0 <= i < v@.len() ==> #[trigger] v@[i]@ == (store.subkey_list((project_key_spec(abs_directory@), session_id@)))[i],
{
    let project_key = project_key_for_directory(abs_directory);
    let key = SessionListSubkeysKey { project_key, session_id: owned(session_id) };
    store.list_subkeys(&key)
}

/// Whether an entry belongs to subagent `agent_id`: its `agent_id` data field
/// is that string.
pub open spec fn of_agent(e: EntryView, agent_id: Seq<char>) -> bool {
    data_str(e, "agent_id"@) == Some(agent_id)
}

/// The messages of a subagent of a session, given the result of loading the
/// session: the subagent's entries in order, `offset` of them skipped and at
/// most `limit` kept, each becoming a message; or the store's error unchanged.
pub fn agent_messages_from_loaded(
    session_id: &str,
    agent_id: &str,
    loaded: Result<Vec<SessionStoreEntry>, SessionError>,
    limit: Option<usize>,
    offset: Option<usize>,
) -> (r: Result<Vec<SessionMessage>, SessionError>)
    ensures
        match loaded {
            Ok(entries) => r matches Ok(v) && messages_view(v@) == page(
                entries_view(entries@).filter(|e: EntryView| of_agent(e, agent_id@)),
                limit,
                offset,
            ).map_values(|e: EntryView| entry_message_spec(session_id@, e)),
            Err(e) => r == Err::<Vec<SessionMessage>, SessionError>(e),
        },
{
    match loaded {
        Ok(entries) => {
        let ghost es = entries@;
        let ghost pred = |e: EntryView| of_agent(e, agent_id@);
        let wanted = owned(agent_id);
        let mut kept: Vec<SessionStoreEntry> = Vec::new();
        for e in it: entries
            invariant
                it.seq() == es,
                wanted@ == agent_id@,
                pred == (|e: EntryView| of_agent(e, agent_id@)),
                entries_view(kept@) == entries_view(es.subrange(0, it.index() as int)).filter(pred),
        {
            let ghost idx = it.index();
            let ghost before = entries_view(es.subrange(0, idx as int));
            proof {
                reveal(Seq::filter);
                assert(entries_view(es.subrange(0, idx + 1)) == before.push(e@));
                assert(before.push(e@).drop_last() == before);
            }
            let belongs = match data_string(&e, "agent_id") {
                Some(a) => a == wanted,
                None => false,
            };
            if belongs {
                proof {
                    assert(entries_view(kept@.push(e)) == entries_view(kept@).push(e@));
                }
                kept.push(e);
            }
        }
        proof {
            assert(es.subrange(0, es.len() as int) == es);
        }
        let chosen = page_of(kept, limit, offset);
        proof {
            assert(entries_view(chosen@) =~= page(entries_view(kept@), limit, offset));
        }
        Ok(messages_from_entries(session_id, chosen))
        },
        Err(e) => Err(e),
    }
}

/// Get subagent messages from a SessionStore
///
/// The entries of the subagent are taken in order, `offset` of them skipped
/// and at most `limit` kept; each becomes a message.
pub fn get_subagent_messages_from_store<S: SessionStore>(
    store: &S,
    session_id: &str,
    agent_id: &str,
    abs_directory: &str,
    limit: Option<usize>,
    offset: Option<usize>,
) -> (r: Result<Vec<SessionMessage>, SessionError>)
    ensures
        store.infallible() ==> r is Ok,
        r matches Ok(v) ==> messages_view(v@) == page(
            store.transcript(key_of(project_key_spec(abs_directory@), session_id@)).filter(
                |e: EntryView| of_agent(e, agent_id@),
            ),
            limit,
            offset,
        ).map_values(|e: EntryView| entry_message_spec(session_id@, e)),
        r matches Ok(v) ==> v@.len() == (page(store.transcript(key_of(project_key_spec(abs_directory@), session_id@)).filter(|e: EntryView| of_agent(e, agent_id@)), limit, offset).map_values(|e: EntryView| entry_message_spec(session_id@, e))).len(),
        r matches Ok(v) ==> forall|i: int| 0 <= i < v@.len() ==> #[trigger] v@[i]@ == (page(store.transcript(key_of(project_key_spec(abs_directory@), session_id@)).filter(|e: EntryView| of_agent(e, agent_id@)), limit, offset).map_values(|e: EntryView| entry_message_spec(session_id@, e)))[i],
{
    let project_key = project_key_for_directory(abs_directory);
    let key = SessionKey::new(project_key.as_str(), session_id);
    agent_messages_from_loaded(session_id, agent_id, store.load(&key), limit, offset)
}

/// The error of an operation that needs a persistent store.
pub open spec fn needs_persistent_store(r: Result<(), SessionError>, message: Seq<char>) -> bool {
    r matches Err(SessionError::InvalidConfig(m)) && m@ == message
}

/// Rename a session via SessionStore
///
/// The store interface has no way to change a session's title, so this
/// always fails.
pub fn rename_session_via_store<S: SessionStore>(
    store: &S,
    session_id: &str,
    title: &str,
    abs_directory: &str,
) -> (r: Result<(), SessionError>)
    ensures
        needs_persistent_store(r, "rename_session_via_store requires a persistent SessionStore implementation"@),
{
    Err(SessionError::InvalidConfig(
        owned("rename_session_via_store requires a persistent SessionStore implementation"),
    ))
}

/// Tag a session via SessionStore
///
/// The store interface has no way to tag a session, so this always fails.
pub fn tag_session_via_store<S: SessionStore>(
    store: &S,
    session_id: &str,
    tag: &str,
    abs_directory: &str,
) -> (r: Result<(), SessionError>)
    ensures
        needs_persistent_store(r, "tag_session_via_store requires a persistent SessionStore implementation"@),
{
    Err(SessionError::InvalidConfig(
        owned("tag_session_via_store requires a persistent SessionStore implementation"),
    ))
}

/// Delete a session via SessionStore
pub fn delete_session_via_store<S: SessionStore>(
    store: &mut S,
    session_id: &str,
    abs_directory: &str,
) -> (r: Result<(), SessionError>)
    ensures
        old(store).infallible() ==> r is Ok,
        final(store).infallible() == old(store).infallible(),
        r is Ok ==> final(store).transcript(key_of(project_key_spec(abs_directory@), session_id@))
            == Seq::<EntryView>::empty(),
        r is Ok ==> forall|k: SessionKeyView|
            k.project_key != project_key_spec(abs_directory@) || k.session_id != session_id@
                ==> #[trigger] final(store).transcript(k) == old(store).transcript(k),
{
    let project_key = project_key_for_directory(abs_directory);
    let key = SessionKey::new(project_key.as_str(), session_id);
    store.delete(&key)
}

/// Fork a session via SessionStore
///
/// The store interface has no way to copy a session, so this always fails.
pub fn fork_session_via_store<S: SessionStore>(
    store: &S,
    session_id: &str,
    abs_directory: &str,
    up_to_message_id: Option<&str>,
    title: Option<&str>,
) -> (r: Result<ForkSessionResult, SessionError>)
    ensures
        r matches Err(SessionError::InvalidConfig(m)) && m@
            == "fork_session_via_store requires a persistent SessionStore implementation"@,
{
    Err(SessionError::InvalidConfig(
        owned("fork_session_via_store requires a persistent SessionStore implementation"),
    ))
}

} // verus!
