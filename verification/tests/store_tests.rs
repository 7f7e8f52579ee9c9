use claude_session_store::encoding::{entry_json, entry_json_len};
use claude_session_store::api::{
    agent_messages_from_loaded, info_from_loaded, messages_from_loaded,
    delete_session_via_store, fork_session_via_store, get_session_info_from_store,
    get_session_messages_from_store, get_subagent_messages_from_store, list_sessions_from_store,
    list_subagents_from_store, rename_session_via_store, tag_session_via_store,
};
use claude_session_store::batcher::TranscriptMirrorBatcher;
use claude_session_store::json::{JsonNumber, JsonValue};
use claude_session_store::memory::InMemorySessionStore;
use claude_session_store::paths::project_key_for_directory;
use claude_session_store::resume::{
    entries_for_resume, exists_from_loaded, list_project_sessions, sizes_from_loaded, materialize_resume_session, session_exists,
    total_session_size,
};
use claude_session_store::store::SessionStore;
use claude_session_store::types::{
    SessionError, SessionKey, SessionListEntry, SessionListSubkeysKey, SessionStoreEntry,
};

fn list_entry(id: &str, mtime: &str) -> SessionListEntry {
    SessionListEntry { session_id: id.to_string(), mtime: mtime.to_string() }
}

fn text(s: &str) -> JsonValue {
    JsonValue::String(s.to_string())
}

#[test]
fn test_append_and_load() {
    let mut store = InMemorySessionStore::new();
    let key = SessionKey::new("project1", "session1");
    let entry = SessionStoreEntry::new("user", "uuid1", "2024-01-01T00:00:00Z");

    store.append(&key, entry.clone()).unwrap();

    let entries = store.load(&key).unwrap();
    assert_eq!(entries.len(), 1);
    assert_eq!(entries[0].entry_type, "user");
}

#[test]
fn test_list_sessions() {
    let mut store = InMemorySessionStore::new();

    store.add_session_entry("project1", SessionListEntry {
        session_id: "session1".to_string(),
        mtime: "2024-01-01T00:00:00Z".to_string(),
    });

    let sessions = store.list_sessions("project1", None, None).unwrap();
    assert_eq!(sessions.len(), 1);
    assert_eq!(sessions[0].session_id, "session1");
}

#[test]
fn test_delete() {
    let mut store = InMemorySessionStore::new();
    let key = SessionKey::new("project1", "session1");
    let entry = SessionStoreEntry::new("user", "uuid1", "2024-01-01T00:00:00Z");

    store.append(&key, entry).unwrap();
    store.delete(&key).unwrap();

    let entries = store.load(&key).unwrap();
    assert!(entries.is_empty());
}

#[test]
fn load_returns_entries_in_append_order_per_key() {
    let mut store = InMemorySessionStore::new();
    let a = SessionKey::new("p", "a");
    let b = SessionKey::new("p", "b");
    let nested = SessionKey::with_subpath("p", "a", "subagents/x");
    store.append(&a, SessionStoreEntry::new("user", "u1", "t1")).unwrap();
    store.append(&b, SessionStoreEntry::new("user", "u2", "t2")).unwrap();
    store.append(&a, SessionStoreEntry::new("assistant", "u3", "t3")).unwrap();
    store.append(&nested, SessionStoreEntry::new("user", "u4", "t4")).unwrap();
    let got: Vec<String> = store.load(&a).unwrap().into_iter().map(|e| e.uuid).collect();
    assert_eq!(got, vec!["u1", "u3"]);
    let got: Vec<String> = store.load(&b).unwrap().into_iter().map(|e| e.uuid).collect();
    assert_eq!(got, vec!["u2"]);
    let got: Vec<String> = store.load(&nested).unwrap().into_iter().map(|e| e.uuid).collect();
    assert_eq!(got, vec!["u4"]);
    assert!(store.load(&SessionKey::new("p", "c")).unwrap().is_empty());
}

#[test]
fn delete_removes_transcript_listing_and_subkeys_only() {
    let mut store = InMemorySessionStore::new();
    let a = SessionKey::new("p", "a");
    let b = SessionKey::new("p", "b");
    store.append(&a, SessionStoreEntry::new("user", "u1", "t1")).unwrap();
    store.append(&b, SessionStoreEntry::new("user", "u2", "t2")).unwrap();
    store.add_session_entry("p", list_entry("a", "m1"));
    store.add_session_entry("p", list_entry("b", "m2"));
    let sk = SessionListSubkeysKey { project_key: "p".to_string(), session_id: "a".to_string() };
    store.add_subkey(&sk, "agent1".to_string());
    store.delete(&a).unwrap();
    assert!(store.load(&a).unwrap().is_empty());
    assert_eq!(store.load(&b).unwrap().len(), 1);
    let ids: Vec<String> =
        store.list_sessions("p", None, None).unwrap().into_iter().map(|e| e.session_id).collect();
    assert_eq!(ids, vec!["b"]);
    assert!(store.list_subkeys(&sk).unwrap().is_empty());
    // appending after a delete starts a new transcript
    store.append(&a, SessionStoreEntry::new("user", "u9", "t9")).unwrap();
    assert_eq!(store.load(&a).unwrap().len(), 1);
}

#[test]
fn add_session_entry_updates_mtime_of_known_session() {
    let mut store = InMemorySessionStore::new();
    store.add_session_entry("p", list_entry("s1", "2024-01-01"));
    store.add_session_entry("p", list_entry("s2", "2024-01-02"));
    store.add_session_entry("p", list_entry("s1", "2024-02-01"));
    let listed = store.list_sessions("p", None, None).unwrap();
    assert_eq!(listed.len(), 2);
    assert_eq!(listed[0].session_id, "s1");
    assert_eq!(listed[0].mtime, "2024-02-01");
    assert_eq!(listed[1].session_id, "s2");
    assert!(store.list_sessions("other", None, None).unwrap().is_empty());
}

#[test]
fn list_sessions_paginates() {
    let mut store = InMemorySessionStore::new();
    for i in 0..5 {
        store.add_session_entry("p", list_entry(&format!("s{}", i), "m"));
    }
    let ids = |v: Vec<SessionListEntry>| -> Vec<String> { v.into_iter().map(|e| e.session_id).collect() };
    assert_eq!(ids(store.list_sessions("p", Some(2), Some(1)).unwrap()), vec!["s1", "s2"]);
    assert_eq!(ids(store.list_sessions("p", None, Some(3)).unwrap()), vec!["s3", "s4"]);
    assert_eq!(ids(store.list_sessions("p", Some(10), None).unwrap()).len(), 5);
    assert!(store.list_sessions("p", None, Some(5)).unwrap().is_empty());
    assert!(store.list_sessions("p", Some(0), None).unwrap().is_empty());
    assert_eq!(ids(store.list_sessions("p", Some(usize::MAX), Some(4)).unwrap()), vec!["s4"]);
}

#[test]
fn add_subkey_records_each_subkey_once() {
    let mut store = InMemorySessionStore::new();
    let sk = SessionListSubkeysKey { project_key: "p".to_string(), session_id: "s".to_string() };
    store.add_subkey(&sk, "a1".to_string());
    store.add_subkey(&sk, "a2".to_string());
    store.add_subkey(&sk, "a1".to_string());
    assert_eq!(store.list_subkeys(&sk).unwrap(), vec!["a1", "a2"]);
}

#[test]
fn clone_and_arc_copy_the_contents() {
    let mut store = InMemorySessionStore::default();
    let key = SessionKey::new("p", "s");
    store.append(&key, SessionStoreEntry::new("user", "u1", "t1")).unwrap();
    let copy = store.arc();
    store.append(&key, SessionStoreEntry::new("user", "u2", "t2")).unwrap();
    assert_eq!(copy.load(&key).unwrap().len(), 1);
    assert_eq!(store.clone().load(&key).unwrap().len(), 2);
}

#[test]
fn with_data_replaces_an_existing_field() {
    let e = SessionStoreEntry::new("user", "u", "t")
        .with_data("summary", text("first"))
        .with_data("file_size", JsonValue::Number(JsonNumber::PosInt(10)))
        .with_data("summary", text("second"));
    assert_eq!(e.data.len(), 2);
    assert_eq!(e.data[0].key, "summary");
    assert!(matches!(&e.data[0].value, JsonValue::String(s) if s == "second"));
}

#[test]
fn test_batcher_append_and_flush() {
    let store = InMemorySessionStore::new();
    let mut batcher = TranscriptMirrorBatcher::with_thresholds(store, 100, 1024 * 1024);

    let key = SessionKey::new("project", "session");
    let entry = SessionStoreEntry::new("user", "uuid1", "2024-01-01T00:00:00Z");

    batcher.append(key.clone(), entry).unwrap();
    assert_eq!(batcher.total_pending_count(), 1);

    batcher.flush().unwrap();
    assert_eq!(batcher.total_pending_count(), 0);

    // Verify entry was written to store
    let entries = batcher.store().load(&key).unwrap();
    assert_eq!(entries.len(), 1);
}

#[test]
fn test_batcher_auto_flush() {
    let store = InMemorySessionStore::new();
    // Set low thresholds to trigger auto-flush
    let mut batcher = TranscriptMirrorBatcher::with_thresholds(store, 2, 1024);

    let key = SessionKey::new("project", "session");

    // Add 2 entries (should trigger auto-flush at threshold)
    for i in 0..2 {
        let entry = SessionStoreEntry::new("user", &format!("uuid{}", i), "2024-01-01T00:00:00Z");
        batcher.append(key.clone(), entry).unwrap();
    }

    // Should have auto-flushed
    assert_eq!(batcher.total_pending_count(), 0);

    // Verify entries in store
    let entries = batcher.store().load(&key).unwrap();
    assert_eq!(entries.len(), 2);
}

#[test]
fn batcher_flushes_on_size_threshold_and_keeps_order() {
    let mut batcher = TranscriptMirrorBatcher::with_thresholds(InMemorySessionStore::new(), 100, 80);
    let a = SessionKey::new("p", "a");
    let b = SessionKey::new("p", "b");
    batcher.append(a.clone(), SessionStoreEntry::new("user", "a1", "t")).unwrap();
    batcher.append(b.clone(), SessionStoreEntry::new("user", "b1", "t")).unwrap();
    assert_eq!(batcher.pending_count(&a), 1);
    assert_eq!(batcher.pending_session_count(), 2);
    batcher.append(a.clone(), SessionStoreEntry::new("user", "a2", "t")).unwrap();
    assert_eq!(batcher.pending_count(&a), 0);
    assert_eq!(batcher.pending_count(&b), 1);
    assert_eq!(batcher.total_pending_count(), 1);
    // the flushed session has nothing waiting any more
    assert_eq!(batcher.pending_session_count(), 1);
    let got: Vec<String> = batcher.store().load(&a).unwrap().into_iter().map(|e| e.uuid).collect();
    assert_eq!(got, vec!["a1", "a2"]);
    assert!(batcher.store().load(&b).unwrap().is_empty());
    batcher.flush_for_key(&b).unwrap();
    assert_eq!(batcher.store().load(&b).unwrap().len(), 1);
    // a flush leaves no session with pending entries
    assert_eq!(batcher.pending_session_count(), 0);
    batcher.shutdown().unwrap();
    assert_eq!(batcher.total_pending_count(), 0);
}

#[test]
fn batcher_new_uses_default_thresholds() {
    let mut batcher = TranscriptMirrorBatcher::new(InMemorySessionStore::new());
    let key = SessionKey::new("p", "s");
    for i in 0..499 {
        batcher.append(key.clone(), SessionStoreEntry::new("user", &format!("u{}", i), "t")).unwrap();
    }
    assert_eq!(batcher.pending_count(&key), 499);
    batcher.append(key.clone(), SessionStoreEntry::new("user", "last", "t")).unwrap();
    assert_eq!(batcher.pending_count(&key), 0);
    assert_eq!(batcher.store().load(&key).unwrap().len(), 500);
}

fn store_with_session(dir: &str, id: &str, entries: Vec<SessionStoreEntry>) -> InMemorySessionStore {
    let mut store = InMemorySessionStore::new();
    let pk = project_key_for_directory(dir);
    let key = SessionKey::new(&pk, id);
    for e in entries {
        store.append(&key, e).unwrap();
    }
    store
}

#[test]
fn test_session_exists() {
    let dir = "/tmp/project-a";
    let store = store_with_session(dir, "session1", vec![SessionStoreEntry::new(
        "user",
        "uuid1",
        "2024-01-01T00:00:00Z",
    )]);
    assert!(session_exists(&store, "session1", dir).unwrap());
    assert!(!session_exists(&store, "nonexistent", dir).unwrap());
}

#[test]
fn test_materialize_resume_session() {
    let dir = "/tmp/project-b";
    let mut entries = Vec::new();
    for i in 0..3 {
        entries.push(SessionStoreEntry::new("user", &format!("uuid{}", i), "2024-01-01T00:00:00Z"));
    }
    let store = store_with_session(dir, "session1", entries);
    let loaded = materialize_resume_session(&store, "session1", dir).unwrap();
    assert_eq!(loaded.len(), 3);
    assert_eq!(loaded[2].uuid, "uuid2");
    match materialize_resume_session(&store, "missing", dir) {
        Err(SessionError::InvalidConfig(m)) => assert_eq!(m, "Session not found or empty: missing"),
        _ => panic!("expected an error"),
    }
}

#[test]
fn entries_for_resume_rejects_empty_sessions() {
    assert!(matches!(
        entries_for_resume("s", Ok(Vec::new())),
        Err(SessionError::InvalidConfig(m)) if m == "Session not found or empty: s"
    ));
    let one = vec![SessionStoreEntry::new("user", "u", "t")];
    assert_eq!(entries_for_resume("s", Ok(one)).unwrap().len(), 1);
    assert!(matches!(
        entries_for_resume("s", Err(SessionError::Io("disk".to_string()))),
        Err(SessionError::Io(m)) if m == "disk"
    ));
}

#[test]
fn list_project_sessions_lists_ids_in_order() {
    let dir = "/tmp/project-c";
    let mut store = InMemorySessionStore::new();
    let pk = project_key_for_directory(dir);
    store.add_session_entry(&pk, list_entry("x", "1"));
    store.add_session_entry(&pk, list_entry("y", "2"));
    assert_eq!(list_project_sessions(&store, dir).unwrap(), vec!["x", "y"]);
    assert!(list_project_sessions(&store, "/elsewhere").unwrap().is_empty());
}

#[test]
fn total_session_size_sums_entry_sizes() {
    assert_eq!(total_session_size(&vec![]), 0);
    assert_eq!(total_session_size(&vec![10, 20, 30]), 60);
    assert_eq!(total_session_size(&vec![u32::MAX as usize, 1]), u32::MAX as u64 + 1);
}

#[test]
fn list_sessions_from_store_orders_by_recency_and_paginates() {
    let dir = "/tmp/project-d";
    let mut store = InMemorySessionStore::new();
    let pk = project_key_for_directory(dir);
    for (id, mtime) in [("old", "2024-01-01"), ("empty", "2024-06-01"), ("new", "2024-03-01"), ("mid", "2024-02-01")] {
        store.add_session_entry(&pk, list_entry(id, mtime));
        if id != "empty" {
            let first = SessionStoreEntry::new("user", "u", &format!("created-{}", id))
                .with_data("summary", text(&format!("about {}", id)))
                .with_data("file_size", JsonValue::Number(JsonNumber::PosInt(42)))
                .with_data("tag", text("t"));
            store.append(&SessionKey::new(&pk, id), first).unwrap();
        }
    }
    let all = list_sessions_from_store(&store, dir, None, None).unwrap();
    let ids: Vec<&str> = all.iter().map(|i| i.session_id.as_str()).collect();
    assert_eq!(ids, vec!["new", "mid", "old"]);
    assert_eq!(all[0].summary, "about new");
    assert_eq!(all[0].last_modified, "2024-03-01");
    assert_eq!(all[0].created_at, "created-new");
    assert_eq!(all[0].file_size, 42);
    assert_eq!(all[0].tag.as_deref(), Some("t"));
    assert_eq!(all[0].custom_title, None);
    let page = list_sessions_from_store(&store, dir, Some(1), Some(1)).unwrap();
    assert_eq!(page.len(), 1);
    assert_eq!(page[0].session_id, "mid");
    assert!(list_sessions_from_store(&store, dir, None, Some(3)).unwrap().is_empty());
}

#[test]
fn get_session_info_from_store_uses_first_entry() {
    let dir = "/tmp/project-e";
    let first = SessionStoreEntry::new("user", "u1", "2024-05-05T00:00:00Z")
        .with_data("custom_title", text("Title"))
        .with_data("file_size", text("not a number"));
    let store = store_with_session(dir, "s", vec![first, SessionStoreEntry::new("user", "u2", "later")]);
    let info = get_session_info_from_store(&store, "s", dir).unwrap();
    assert_eq!(info.session_id, "s");
    assert_eq!(info.summary, "");
    assert_eq!(info.last_modified, "2024-05-05T00:00:00Z");
    assert_eq!(info.created_at, "2024-05-05T00:00:00Z");
    assert_eq!(info.file_size, 0);
    assert_eq!(info.custom_title.as_deref(), Some("Title"));
    match get_session_info_from_store(&store, "nope", dir) {
        Err(SessionError::InvalidConfig(m)) => assert_eq!(m, "Session not found: nope"),
        _ => panic!("expected not found"),
    }
}

#[test]
fn session_and_subagent_messages_from_store() {
    let dir = "/tmp/project-f";
    let entries = vec![
        SessionStoreEntry::new("user", "u1", "t").with_data("agent_id", text("a")),
        SessionStoreEntry::new("assistant", "u2", "t").with_data("parent_tool_use_id", text("tool-1")),
        SessionStoreEntry::new("user", "u3", "t").with_data("agent_id", text("b")),
        SessionStoreEntry::new("user", "u4", "t").with_data("agent_id", text("a")),
    ];
    let store = store_with_session(dir, "s", entries);
    let msgs = get_session_messages_from_store(&store, "s", dir, Some(2), Some(1)).unwrap();
    assert_eq!(msgs.len(), 2);
    assert_eq!(msgs[0].uuid, "u2");
    assert_eq!(msgs[0].msg_type, "assistant");
    assert_eq!(msgs[0].session_id, "s");
    assert_eq!(msgs[0].parent_tool_use_id.as_deref(), Some("tool-1"));
    match &msgs[0].message {
        JsonValue::Object(members) => {
            assert_eq!(members.len(), 1);
            assert_eq!(members[0].key, "parent_tool_use_id");
        }
        _ => panic!("message is an object"),
    }
    let sub = get_subagent_messages_from_store(&store, "s", "a", dir, None, None).unwrap();
    let uuids: Vec<&str> = sub.iter().map(|m| m.uuid.as_str()).collect();
    assert_eq!(uuids, vec!["u1", "u4"]);
    let sub = get_subagent_messages_from_store(&store, "s", "a", dir, Some(1), Some(1)).unwrap();
    assert_eq!(sub.len(), 1);
    assert_eq!(sub[0].uuid, "u4");
}

#[test]
fn subagents_and_deletion_via_store() {
    let dir = "/tmp/project-g";
    let mut store = store_with_session(dir, "s", vec![SessionStoreEntry::new("user", "u", "t")]);
    let pk = project_key_for_directory(dir);
    let sk = SessionListSubkeysKey { project_key: pk.clone(), session_id: "s".to_string() };
    store.add_subkey(&sk, "agent-1".to_string());
    assert_eq!(list_subagents_from_store(&store, "s", dir).unwrap(), vec!["agent-1"]);
    delete_session_via_store(&mut store, "s", dir).unwrap();
    assert!(store.load(&SessionKey::new(&pk, "s")).unwrap().is_empty());
    assert!(list_subagents_from_store(&store, "s", dir).unwrap().is_empty());
}

#[test]
fn store_operations_that_need_persistence_fail() {
    let store = InMemorySessionStore::new();
    match rename_session_via_store(&store, "s", "title", "/d") {
        Err(SessionError::InvalidConfig(m)) => {
            assert_eq!(m, "rename_session_via_store requires a persistent SessionStore implementation")
        }
        _ => panic!("expected an error"),
    }
    match tag_session_via_store(&store, "s", "tag", "/d") {
        Err(SessionError::InvalidConfig(m)) => {
            assert_eq!(m, "tag_session_via_store requires a persistent SessionStore implementation")
        }
        _ => panic!("expected an error"),
    }
    match fork_session_via_store(&store, "s", "/d", None, None) {
        Err(SessionError::InvalidConfig(m)) => {
            assert_eq!(m, "fork_session_via_store requires a persistent SessionStore implementation")
        }
        _ => panic!("expected an error"),
    }
}

#[test]
fn store_errors_pass_through_unchanged() {
    let failed = || Err(SessionError::Timeout("slow".to_string()));
    assert!(matches!(exists_from_loaded(failed()), Err(SessionError::Timeout(m)) if m == "slow"));
    assert!(matches!(info_from_loaded("s", failed()), Err(SessionError::Timeout(m)) if m == "slow"));
    assert!(matches!(messages_from_loaded("s", failed(), None, None), Err(SessionError::Timeout(m)) if m == "slow"));
    assert!(matches!(
        agent_messages_from_loaded("s", "a", failed(), None, None),
        Err(SessionError::Timeout(m)) if m == "slow"
    ));
    assert!(matches!(sizes_from_loaded(failed()), Err(SessionError::Timeout(m)) if m == "slow"));
    assert_eq!(exists_from_loaded(Ok(vec![SessionStoreEntry::new("user", "u", "t")])).unwrap(), true);
    assert_eq!(exists_from_loaded(Ok(Vec::new())).unwrap(), false);
    assert!(matches!(info_from_loaded("s", Ok(Vec::new())), Err(SessionError::InvalidConfig(m)) if m == "Session not found: s"));
}

#[test]
fn entry_json_frames_fields_then_data() {
    let e = SessionStoreEntry::new("user", "a1", "t");
    assert_eq!(entry_json(&e), r#"{"type":"user","uuid":"a1","timestamp":"t"}"#);
    assert_eq!(entry_json_len(&e), 43);
    let e = e.with_data("k", JsonValue::Number(JsonNumber::PosInt(7))).with_data("s", JsonValue::String("é\"".to_string()));
    assert_eq!(entry_json(&e), r#"{"type":"user","uuid":"a1","timestamp":"t","k":7,"s":"é\""}"#);
    assert_eq!(entry_json_len(&e), entry_json(&e).len());
    let sizes = sizes_from_loaded(Ok(vec![SessionStoreEntry::new("user", "a1", "t"), e])).unwrap();
    assert_eq!(sizes[0], 43);
}

#[test]
fn deleting_twice_is_deleting_once() {
    let mut store = InMemorySessionStore::new();
    let key = SessionKey::new("p", "s");
    store.append(&key, SessionStoreEntry::new("user", "u", "t")).unwrap();
    for id in ["s", "t", "s"] {
        store.add_session_entry("p", SessionListEntry { session_id: id.to_string(), mtime: "m".to_string() });
    }
    store.delete(&key).unwrap();
    let once: Vec<String> = store.list_sessions("p", None, None).unwrap().into_iter().map(|e| e.session_id).collect();
    store.delete(&key).unwrap();
    let twice: Vec<String> = store.list_sessions("p", None, None).unwrap().into_iter().map(|e| e.session_id).collect();
    assert_eq!(once, vec!["t"]);
    assert_eq!(once, twice);
    assert!(store.load(&key).unwrap().is_empty());
}
