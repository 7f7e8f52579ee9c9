use std::hash::{BuildHasher, BuildHasherDefault, DefaultHasher};
use claude_session_store::json::{JsonValue, parse_json};
use claude_session_store::mutations::{fork_lines, fork_session, rename_session, tag_session};
use claude_session_store::paths::{
    ancestor_dirs, channel_path, file_extension, file_stem, get_project_key, is_session_file,
    project_key_for_directory, session_path, sessions_dir,
};
use claude_session_store::sessions::{
    SessionFile, TranscriptLine, get_session_info, get_session_messages, get_subagent_messages,
    list_sessions, list_subagents, session_info_from_file, session_not_found,
};
use claude_session_store::text::{hex16, join_path, less_than, split_lines};
use claude_session_store::types::{SessionError, SessionMessage};

fn json(text: &str) -> serde_json::Value {
    serde_json::from_str(text).unwrap()
}

fn message(uuid: &str) -> SessionMessage {
    SessionMessage {
        msg_type: "user".to_string(),
        uuid: uuid.to_string(),
        session_id: "s".to_string(),
        message: JsonValue::Null,
        parent_tool_use_id: None,
    }
}

fn line(text: &str, msg: Option<SessionMessage>) -> TranscriptLine {
    TranscriptLine::parse(text.to_string(), msg)
}

fn agent_line(uuid: &str, agent: &str) -> TranscriptLine {
    let text = format!(r#"{{"uuid":"{}","data":{{"agent_id":"{}"}}}}"#, uuid, agent);
    line(&text, Some(message(uuid)))
}

#[test]
fn test_project_key_deterministic() {
    let temp_dir = tempfile::TempDir::new().unwrap();
    let dir1 = temp_dir.path().canonicalize().unwrap();
    let dir2 = temp_dir.path().canonicalize().unwrap();

    let key1 = project_key_for_directory(&dir1.to_string_lossy());
    let key2 = project_key_for_directory(&dir2.to_string_lossy());

    assert_eq!(key1, key2);
}

#[test]
fn project_key_is_sixteen_hex_digits_of_the_default_hash() {
    let key = project_key_for_directory("/home/user/project");
    assert_eq!(key.len(), 16);
    assert!(key.chars().all(|c| c.is_ascii_digit() || ('a'..='f').contains(&c)));
    let expected = BuildHasherDefault::<DefaultHasher>::default().hash_one("/home/user/project");
    assert_eq!(key, format!("{:016x}", expected));
    assert_ne!(key, project_key_for_directory("/home/user/other"));
    assert_eq!(get_project_key("/home/user/project"), key);
}

#[test]
fn hex16_pads_with_zeros() {
    assert_eq!(hex16(0), "0000000000000000");
    assert_eq!(hex16(0xabc), "0000000000000abc");
    assert_eq!(hex16(u64::MAX), "ffffffffffffffff");
    assert_eq!(hex16(0x0123456789abcdef), "0123456789abcdef");
}

#[test]
fn session_paths() {
    assert_eq!(sessions_dir("/cfg"), "/cfg/sessions");
    assert_eq!(sessions_dir("/cfg/"), "/cfg/sessions");
    assert_eq!(sessions_dir(""), "sessions");
    assert_eq!(session_path("/cfg", "abc"), "/cfg/sessions/abc.jsonl");
    assert_eq!(session_path("/cfg", "/abs/id"), "/abs/id.jsonl");
    assert_eq!(join_path("a", "b"), "a/b");
    assert_eq!(join_path("a", "/b"), "/b");
    assert_eq!(channel_path("/cfg", "abc"), "/cfg/sessions/abc.channel.json");
    assert_eq!(channel_path("/cfg", "a.b"), "/cfg/sessions/a.b.channel.json");
    assert_eq!(channel_path("/cfg", ""), "/cfg/sessions/.jsonl.channel.json");
}

#[test]
fn file_name_parts_follow_path_rules() {
    assert_eq!(file_stem("abc.jsonl"), "abc");
    assert_eq!(file_stem("a.b.jsonl"), "a.b");
    assert_eq!(file_stem(".jsonl"), ".jsonl");
    assert_eq!(file_stem("plain"), "plain");
    assert_eq!(file_stem(".."), "..");
    assert_eq!(file_extension("abc.jsonl").as_deref(), Some("jsonl"));
    assert_eq!(file_extension("abc."), Some(String::new()));
    assert_eq!(file_extension(".jsonl"), None);
    assert_eq!(file_extension("abc"), None);
    assert!(is_session_file("abc.jsonl"));
    assert!(!is_session_file("abc.json"));
    assert!(!is_session_file(".jsonl"));
    assert!(!is_session_file("abc.jsonl.bak"));
}

#[test]
fn split_lines_matches_str_lines() {
    for s in ["", "a", "a\n", "a\nb", "a\r\nb\r\n", "\n\n", "a\r", "x\ry\n\rz", "é\nü"] {
        let expected: Vec<String> = s.lines().map(|l| l.to_string()).collect();
        assert_eq!(split_lines(s), expected, "input {:?}", s);
    }
}

#[test]
fn less_than_is_lexicographic() {
    let s = |x: &str| x.to_string();
    assert!(less_than(&s("2024-01-01"), &s("2024-01-02")));
    assert!(!less_than(&s("2024-01-02"), &s("2024-01-01")));
    assert!(!less_than(&s("a"), &s("a")));
    assert!(less_than(&s(""), &s("a")));
    assert!(less_than(&s("ab"), &s("abc")));
    assert!(less_than(&s("z"), &s("é")));
}

#[test]
fn session_info_reads_metadata_of_the_first_line() {
    let first = r#"{"summary":"Fix bug","last_modified":"2024-02-02","custom_title":"Title","git_branch":3,"cwd":"/w","created_at":"2024-01-01"}"#;
    let info = session_info_from_file(Some("abc.jsonl"), Some(first), 99);
    assert_eq!(info.session_id, "abc");
    assert_eq!(info.summary, "Fix bug");
    assert_eq!(info.last_modified, "2024-02-02");
    assert_eq!(info.file_size, 99);
    assert_eq!(info.custom_title.as_deref(), Some("Title"));
    assert_eq!(info.git_branch, None);
    assert_eq!(info.first_prompt, None);
    assert_eq!(info.cwd.as_deref(), Some("/w"));
    assert_eq!(info.created_at, "2024-01-01");
    let bare = session_info_from_file(None, Some("true"), 0);
    assert_eq!(bare.session_id, "unknown");
    assert_eq!(bare.summary, "");
    let broken = session_info_from_file(Some("x.jsonl"), Some("{\"summary\": "), 0);
    assert_eq!(broken.summary, "");
    assert_eq!(session_info_from_file(Some("x.jsonl"), None, 0).custom_title, None);
}

#[test]
fn get_session_info_reports_missing_sessions() {
    match get_session_info("gone", None) {
        Err(SessionError::InvalidConfig(m)) => assert_eq!(m, "Session not found: gone"),
        _ => panic!("expected not found"),
    }
    let f = SessionFile { file_name: Some("s1.jsonl".to_string()), first_line: None, file_size: 5 };
    let info = get_session_info("s1", Some(f)).unwrap();
    assert_eq!(info.session_id, "s1");
    assert_eq!(info.file_size, 5);
    assert!(matches!(session_not_found("x"), SessionError::InvalidConfig(m) if m == "Session not found: x"));
}

#[test]
fn list_sessions_orders_files_by_recency_stably() {
    let file = |name: &str, modified: Option<&str>| SessionFile {
        file_name: Some(name.to_string()),
        first_line: modified.map(|m| format!(r#"{{"last_modified":"{}"}}"#, m)),
        file_size: 1,
    };
    let files = vec![
        file("a.jsonl", Some("2024-01-01")),
        file("b.jsonl", Some("2024-03-01")),
        file("c.jsonl", None),
        file("d.jsonl", Some("2024-01-01")),
        file("e.jsonl", Some("2024-02-01")),
    ];
    let all = list_sessions(files, None, None);
    let ids: Vec<&str> = all.iter().map(|i| i.session_id.as_str()).collect();
    assert_eq!(ids, vec!["b", "e", "a", "d", "c"]);
    let files = vec![file("a.jsonl", Some("1")), file("b.jsonl", Some("3")), file("c.jsonl", Some("2"))];
    let page = list_sessions(files, Some(1), Some(1));
    assert_eq!(page.len(), 1);
    assert_eq!(page[0].session_id, "c");
    assert!(list_sessions(Vec::new(), None, None).is_empty());
}

#[test]
fn session_messages_skip_and_take_lines_before_dropping_non_messages() {
    let lines = vec![
        line("1", Some(message("m1"))),
        line("2", None),
        line("3", Some(message("m3"))),
        line("4", Some(message("m4"))),
    ];
    let got = get_session_messages(lines, Some(2), Some(1));
    let uuids: Vec<&str> = got.iter().map(|m| m.uuid.as_str()).collect();
    assert_eq!(uuids, vec!["m3"]);
}

#[test]
fn subagents_are_listed_once_in_order_of_appearance() {
    let lines = vec![
        agent_line("u1", "beta"),
        line(r#"{"data":"not an object"}"#, None),
        agent_line("u2", "alpha"),
        agent_line("u3", "beta"),
        line("y", None),
    ];
    assert_eq!(list_subagents(&lines), vec!["beta", "alpha"]);
    let msgs = get_subagent_messages(lines, "beta", None, None);
    let uuids: Vec<&str> = msgs.iter().map(|m| m.uuid.as_str()).collect();
    assert_eq!(uuids, vec!["u1", "u3"]);
}

#[test]
fn subagent_messages_paginate_after_filtering() {
    let lines = vec![agent_line("u1", "a"), agent_line("u2", "b"), agent_line("u3", "a"), agent_line("u4", "a")];
    let msgs = get_subagent_messages(lines, "a", Some(1), Some(1));
    assert_eq!(msgs.len(), 1);
    assert_eq!(msgs[0].uuid, "u3");
}

#[test]
fn test_rename_session() {
    let session_id = "test_session";
    let first = format!(
        r#"{{"type":"session","session_id":"{}","summary":"original","custom_title":null}}"#,
        session_id
    );

    let line = rename_session(&first, "New Title").unwrap();

    let json = json(&line);
    assert_eq!(json["custom_title"], "New Title");
    assert_eq!(json["summary"], "New Title");
}

#[test]
fn rename_without_summary_adds_only_the_title() {
    let line = rename_session(r#"{"type":"session"}"#, "T").unwrap();
    assert_eq!(line, r#"{"custom_title":"T","type":"session"}"#);
    assert!(rename_session(r#""not an object""#, "T").is_none());
    assert!(rename_session("not json", "T").is_none());
}

#[test]
fn tag_sets_the_tag() {
    let line = tag_session(r#"{"tag":"old","summary":"s"}"#, "new").unwrap();
    let json = json(&line);
    assert_eq!(json["tag"], "new");
    assert_eq!(json["summary"], "s");
    assert!(tag_session("[]", "t").is_none());
}

#[test]
fn json_texts_parse_into_the_library_model() {
    match parse_json(r#"{"a":[1,-2,"x",null,true]}"#) {
        Some(JsonValue::Object(ms)) => {
            assert_eq!(ms.len(), 1);
            assert_eq!(ms[0].key, "a");
            assert!(matches!(&ms[0].value, JsonValue::Array(items) if items.len() == 5));
        }
        _ => panic!("expected an object"),
    }
    assert!(parse_json("{").is_none());
}

#[test]
fn fork_copies_lines_through_the_stop_message() {
    let lines: Vec<String> = vec![
        r#"{"type":"session"}"#,
        "garbage",
        r#"{"uuid":"id-1"}"#,
        r#"{"uuid":"id-2"}"#,
        r#"{"uuid":"id-3"}"#,
    ]
    .into_iter()
    .map(String::from)
    .collect();
    assert_eq!(fork_lines(&lines, Some("id-2")), lines[..4].to_vec());
    assert_eq!(fork_lines(&lines, Some("id-9")).len(), 5);
    assert_eq!(fork_lines(&lines, None).len(), 5);
    assert_eq!(fork_lines(&lines, Some("id-1")), lines[..3].to_vec());
    assert_eq!(fork_lines(&lines, Some("id-3")).len(), 5);
}

#[test]
fn fork_session_gets_a_v4_id_from_its_random_bytes() {
    let lines = vec!["a".to_string()];
    let bytes = [0xffu8; 16];
    let one = fork_session(&lines, None, bytes);
    assert_eq!(one.result.session_id, "ffffffff-ffff-4fff-bfff-ffffffffffff");
    let zero = fork_session(&lines, None, [0u8; 16]);
    assert_eq!(zero.result.session_id, "00000000-0000-4000-8000-000000000000");
    let mut counting = [0u8; 16];
    for (i, b) in counting.iter_mut().enumerate() {
        *b = i as u8 * 17;
    }
    let id = fork_session(&lines, None, counting).result.session_id;
    assert_eq!(id, "00112233-4455-4677-8899-aabbccddeeff");
    assert_eq!(one.lines, vec!["a"]);
}

#[test]
fn ancestor_dirs_walk_up_to_the_root() {
    assert_eq!(ancestor_dirs("/home/u/proj", ".tool"), vec!["/home/u/.tool", "/home/.tool", "/.tool"]);
    assert_eq!(ancestor_dirs("/a", ".t"), vec!["/.t"]);
    assert!(ancestor_dirs("/", ".t").is_empty());
}

#[test]
fn session_path_parts_give_back_the_id() {
    let p = session_path("/cfg", "a.b");
    let name = p.rsplit('/').next().unwrap();
    assert_eq!(file_stem(name), "a.b");
    assert_eq!(file_extension(name).as_deref(), Some("jsonl"));
    assert_eq!(&p[..p.len() - name.len() - 1], sessions_dir("/cfg"));
}
