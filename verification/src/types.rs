//! The data types of the session store: keys, transcript entries, listings,
//! session information and the error type.

use vstd::prelude::*;
use crate::json::{
    JsonMember, JsonModel, JsonValue, assoc_insert, insert_member, lemma_members_model_push,
    members_model, value_model,
};

verus! {

/// The text of an optional string.
pub open spec fn opt_text(o: Option<String>) -> Option<Seq<char>> {
    match o {
        Some(s) => Some(s@),
        None => None,
    }
}

/// Copies an optional string.
pub fn clone_opt_string(o: &Option<String>) -> (r: Option<String>)
    ensures
        opt_text(r) == opt_text(*o),
{
    match o {
        Some(s) => Some(s.clone()),
        None => None,
    }
}

/// Copies a string slice into an owned string.
pub fn owned(s: &str) -> (r: String)
    ensures
        r@ == s@,
{
    s.to_string()
}

/// Key identifying one session transcript.
#[derive(Debug, PartialEq, Eq, Hash)]
pub struct SessionKey {
    /// Project identifier
    pub project_key: String,
    /// Session identifier
    pub session_id: String,
    /// Optional subpath for nested sessions (e.g., subagent transcripts)
    pub subpath: Option<String>,
}

/// The mathematical form of a session key.
pub struct SessionKeyView {
    pub project_key: Seq<char>,
    pub session_id: Seq<char>,
    pub subpath: Option<Seq<char>>,
}

impl View for SessionKey {
    type V = SessionKeyView;

    open spec fn view(&self) -> SessionKeyView {
        SessionKeyView {
            project_key: self.project_key@,
            session_id: self.session_id@,
            subpath: opt_text(self.subpath),
        }
    }
}

impl SessionKey {
    /// Create a new session key
    pub fn new(project_key: &str, session_id: &str) -> (r: SessionKey)
        ensures
            r@ == (SessionKeyView { project_key: project_key@, session_id: session_id@, subpath: None }),
    {
        SessionKey { project_key: owned(project_key), session_id: owned(session_id), subpath: None }
    }

    /// Create a session key with a subpath
    pub fn with_subpath(project_key: &str, session_id: &str, subpath: &str) -> (r: SessionKey)
        ensures
            r@ == (SessionKeyView {
                project_key: project_key@,
                session_id: session_id@,
                subpath: Some(subpath@),
            }),
    {
        SessionKey {
            project_key: owned(project_key),
            session_id: owned(session_id),
            subpath: Some(owned(subpath)),
        }
    }

    /// Whether two keys name the same session transcript.
    pub fn same_as(&self, other: &SessionKey) -> (r: bool)
        ensures
            r == (self@ == other@),
    {
        if self.project_key != other.project_key || self.session_id != other.session_id {
            return false;
        }
        match (&self.subpath, &other.subpath) {
            (Some(a), Some(b)) => *a == *b,
            (None, None) => true,
            _ => false,
        }
    }
}

impl Clone for SessionKey {
    fn clone(&self) -> (r: SessionKey)
        ensures
            r@ == self@,
    {
        SessionKey {
            project_key: self.project_key.clone(),
            session_id: self.session_id.clone(),
            subpath: clone_opt_string(&self.subpath),
        }
    }
}

/// A single entry in a session transcript
#[derive(Debug)]
pub struct SessionStoreEntry {
    /// Entry type (e.g., "user", "assistant", "system", "result")
    pub entry_type: String,
    /// Unique identifier for this entry
    pub uuid: String,
    /// ISO 8601 timestamp
    pub timestamp: String,
    /// Entry data (varies by type), one member per field name
    pub data: Vec<JsonMember>,
}

/// The mathematical form of a transcript entry.
pub struct EntryView {
    pub entry_type: Seq<char>,
    pub uuid: Seq<char>,
    pub timestamp: Seq<char>,
    pub data: Seq<(Seq<char>, JsonModel)>,
}

impl View for SessionStoreEntry {
    type V = EntryView;

    open spec fn view(&self) -> EntryView {
        EntryView {
            entry_type: self.entry_type@,
            uuid: self.uuid@,
            timestamp: self.timestamp@,
            data: members_model(self.data@),
        }
    }
}

/// The models of a sequence of entries.
pub open spec fn entries_view(s: Seq<SessionStoreEntry>) -> Seq<EntryView> {
    s.map_values(|e: SessionStoreEntry| e@)
}

/// Copies a list of object members.
pub fn clone_members(members: &Vec<JsonMember>) -> (r: Vec<JsonMember>)
    ensures
        members_model(r@) == members_model(members@),
{
    let mut out: Vec<JsonMember> = Vec::new();
    let mut i: usize = 0;
    while i < members.len()
        invariant
            0 <= i <= members.len(),
            members_model(out@) == members_model(members@.subrange(0, i as int)),
        decreases members.len() - i,
    {
        let m = JsonMember { key: members[i].key.clone(), value: members[i].value.clone() };
        proof {
            lemma_members_model_push(out@, m);
            lemma_members_model_push(members@.subrange(0, i as int), members@[i as int]);
            assert(members@.subrange(0, i + 1) == members@.subrange(0, i as int).push(
                members@[i as int],
            ));
        }
        out.push(m);
        i = i + 1;
    }
    assert(members@.subrange(0, members@.len() as int) == members@);
    out
}

impl SessionStoreEntry {
    /// Create a new session store entry
    pub fn new(entry_type: &str, uuid: &str, timestamp: &str) -> (r: SessionStoreEntry)
        ensures
            r@ == (EntryView {
                entry_type: entry_type@,
                uuid: uuid@,
                timestamp: timestamp@,
                data: Seq::empty(),
            }),
    {
        SessionStoreEntry {
            entry_type: owned(entry_type),
            uuid: owned(uuid),
            timestamp: owned(timestamp),
            data: Vec::new(),
        }
    }

    /// Add a data field to the entry, replacing an earlier value of the field
    pub fn with_data(self, key: &str, value: JsonValue) -> (r: SessionStoreEntry)
        ensures
            r@ == (EntryView {
                data: assoc_insert(self@.data, key@, value_model(value)),
                ..self@
            }),
    {
        let mut e = self;
        insert_member(&mut e.data, owned(key), value);
        e
    }
}

impl Clone for SessionStoreEntry {
    fn clone(&self) -> (r: SessionStoreEntry)
        ensures
            r@ == self@,
    {
        SessionStoreEntry {
            entry_type: self.entry_type.clone(),
            uuid: self.uuid.clone(),
            timestamp: self.timestamp.clone(),
            data: clone_members(&self.data),
        }
    }
}

/// Copies a list of entries.
pub fn clone_entries(v: &Vec<SessionStoreEntry>) -> (r: Vec<SessionStoreEntry>)
    ensures
        entries_view(r@) == entries_view(v@),
{
    let mut out: Vec<SessionStoreEntry> = Vec::new();
    let mut i: usize = 0;
    while i < v.len()
        invariant
            0 <= i <= v.len(),
            entries_view(out@) == entries_view(v@.subrange(0, i as int)),
        decreases v.len() - i,
    {
        let e = v[i].clone();
        proof {
            assert(entries_view(out@.push(e)) == entries_view(out@).push(e@));
            assert(entries_view(v@.subrange(0, i + 1)) == entries_view(v@.subrange(0, i as int)).push(
                v@[i as int]@,
            ));
        }
        out.push(e);
        i = i + 1;
    }
    assert(v@.subrange(0, v@.len() as int) == v@);
    out
}

/// Entry for listing sessions
#[derive(Debug)]
pub struct SessionListEntry {
    /// Session identifier
    pub session_id: String,
    /// Last modified time (ISO 8601)
    pub mtime: String,
}

impl View for SessionListEntry {
    type V = (Seq<char>, Seq<char>);

    open spec fn view(&self) -> (Seq<char>, Seq<char>) {
        (self.session_id@, self.mtime@)
    }
}

impl Clone for SessionListEntry {
    fn clone(&self) -> (r: SessionListEntry)
        ensures
            r@ == self@,
    {
        SessionListEntry { session_id: self.session_id.clone(), mtime: self.mtime.clone() }
    }
}

/// The models of a sequence of listing entries.
pub open spec fn list_entries_view(s: Seq<SessionListEntry>) -> Seq<(Seq<char>, Seq<char>)> {
    s.map_values(|e: SessionListEntry| e@)
}

/// Copies a listing.
pub fn clone_list_entries(v: &Vec<SessionListEntry>) -> (r: Vec<SessionListEntry>)
    ensures
        list_entries_view(r@) == list_entries_view(v@),
{
    let mut out: Vec<SessionListEntry> = Vec::new();
    let mut i: usize = 0;
    while i < v.len()
        invariant
            0 <= i <= v.len(),
            list_entries_view(out@) == list_entries_view(v@.subrange(0, i as int)),
        decreases v.len() - i,
    {
        let e = v[i].clone();
        proof {
            assert(list_entries_view(out@.push(e)) == list_entries_view(out@).push(e@));
            assert(list_entries_view(v@.subrange(0, i + 1)) == list_entries_view(
                v@.subrange(0, i as int),
            ).push(v@[i as int]@));
        }
        out.push(e);
        i = i + 1;
    }
    assert(v@.subrange(0, v@.len() as int) == v@);
    out
}

/// The texts of a sequence of strings.
pub open spec fn texts(s: Seq<String>) -> Seq<Seq<char>> {
    s.map_values(|x: String| x@)
}

/// Copies a list of strings.
pub fn clone_strings(v: &Vec<String>) -> (r: Vec<String>)
    ensures
        texts(r@) == texts(v@),
{
    let mut out: Vec<String> = Vec::new();
    let mut i: usize = 0;
    while i < v.len()
        invariant
            0 <= i <= v.len(),
            texts(out@) == texts(v@.subrange(0, i as int)),
        decreases v.len() - i,
    {
        let e = v[i].clone();
        proof {
            assert(texts(out@.push(e)) == texts(out@).push(e@));
            assert(texts(v@.subrange(0, i + 1)) == texts(v@.subrange(0, i as int)).push(v@[i as int]@));
        }
        out.push(e);
        i = i + 1;
    }
    assert(v@.subrange(0, v@.len() as int) == v@);
    out
}

/// Key for listing session subkeys (e.g., subagent IDs)
#[derive(Debug, PartialEq, Eq, Hash)]
pub struct SessionListSubkeysKey {
    /// Project identifier
    pub project_key: String,
    /// Session identifier
    pub session_id: String,
}

impl View for SessionListSubkeysKey {
    type V = (Seq<char>, Seq<char>);

    open spec fn view(&self) -> (Seq<char>, Seq<char>) {
        (self.project_key@, self.session_id@)
    }
}

impl SessionListSubkeysKey {
    /// Whether two keys name the same session.
    pub fn same_as(&self, other: &SessionListSubkeysKey) -> (r: bool)
        ensures
            r == (self@ == other@),
    {
        self.project_key == other.project_key && self.session_id == other.session_id
    }
}

impl Clone for SessionListSubkeysKey {
    fn clone(&self) -> (r: SessionListSubkeysKey)
        ensures
            r@ == self@,
    {
        SessionListSubkeysKey {
            project_key: self.project_key.clone(),
            session_id: self.session_id.clone(),
        }
    }
}

/// Session information returned by list_sessions
#[derive(Debug)]
pub struct SDKSessionInfo {
    /// Session identifier
    pub session_id: String,
    /// Session summary (usually first user message)
    pub summary: String,
    /// Last modified time (ISO 8601)
    pub last_modified: String,
    /// File size in bytes
    pub file_size: u64,
    /// Custom title if set
    pub custom_title: Option<String>,
    /// First prompt in the session
    pub first_prompt: Option<String>,
    /// Git branch when session was created
    pub git_branch: Option<String>,
    /// Working directory when session was created
    pub cwd: Option<String>,
    /// Session tag
    pub tag: Option<String>,
    /// Creation timestamp (ISO 8601)
    pub created_at: String,
}

/// The mathematical form of session information.
pub struct SessionInfoView {
    pub session_id: Seq<char>,
    pub summary: Seq<char>,
    pub last_modified: Seq<char>,
    pub file_size: u64,
    pub custom_title: Option<Seq<char>>,
    pub first_prompt: Option<Seq<char>>,
    pub git_branch: Option<Seq<char>>,
    pub cwd: Option<Seq<char>>,
    pub tag: Option<Seq<char>>,
    pub created_at: Seq<char>,
}

impl View for SDKSessionInfo {
    type V = SessionInfoView;

    open spec fn view(&self) -> SessionInfoView {
        SessionInfoView {
            session_id: self.session_id@,
            summary: self.summary@,
            last_modified: self.last_modified@,
            file_size: self.file_size,
            custom_title: opt_text(self.custom_title),
            first_prompt: opt_text(self.first_prompt),
            git_branch: opt_text(self.git_branch),
            cwd: opt_text(self.cwd),
            tag: opt_text(self.tag),
            created_at: self.created_at@,
        }
    }
}

impl Clone for SDKSessionInfo {
    fn clone(&self) -> (r: SDKSessionInfo)
        ensures
            r@ == self@,
    {
        SDKSessionInfo {
            session_id: self.session_id.clone(),
            summary: self.summary.clone(),
            last_modified: self.last_modified.clone(),
            file_size: self.file_size,
            custom_title: clone_opt_string(&self.custom_title),
            first_prompt: clone_opt_string(&self.first_prompt),
            git_branch: clone_opt_string(&self.git_branch),
            cwd: clone_opt_string(&self.cwd),
            tag: clone_opt_string(&self.tag),
            created_at: self.created_at.clone(),
        }
    }
}

/// The models of a sequence of session information records.
pub open spec fn infos_view(s: Seq<SDKSessionInfo>) -> Seq<SessionInfoView> {
    s.map_values(|e: SDKSessionInfo| e@)
}

/// A message within a session transcript
#[derive(Debug)]
pub struct SessionMessage {
    /// Message type ("user" or "assistant")
    pub msg_type: String,
    /// Message UUID
    pub uuid: String,
    /// Session identifier
    pub session_id: String,
    /// Message content
    pub message: JsonValue,
    /// Parent tool use ID for assistant messages
    pub parent_tool_use_id: Option<String>,
}

/// The mathematical form of a session message.
pub struct MessageView {
    pub msg_type: Seq<char>,
    pub uuid: Seq<char>,
    pub session_id: Seq<char>,
    pub message: JsonModel,
    pub parent_tool_use_id: Option<Seq<char>>,
}

impl View for SessionMessage {
    type V = MessageView;

    open spec fn view(&self) -> MessageView {
        MessageView {
            msg_type: self.msg_type@,
            uuid: self.uuid@,
            session_id: self.session_id@,
            message: value_model(self.message),
            parent_tool_use_id: opt_text(self.parent_tool_use_id),
        }
    }
}

impl Clone for SessionMessage {
    fn clone(&self) -> (r: SessionMessage)
        ensures
            r@ == self@,
    {
        SessionMessage {
            msg_type: self.msg_type.clone(),
            uuid: self.uuid.clone(),
            session_id: self.session_id.clone(),
            message: self.message.clone(),
            parent_tool_use_id: clone_opt_string(&self.parent_tool_use_id),
        }
    }
}

/// The models of a sequence of messages.
pub open spec fn messages_view(s: Seq<SessionMessage>) -> Seq<MessageView> {
    s.map_values(|e: SessionMessage| e@)
}

/// Result of forking a session
#[derive(Debug)]
pub struct ForkSessionResult {
    /// The new session ID after forking
    pub session_id: String,
}

/// Category of context usage
#[derive(Debug)]
pub struct ContextUsageCategory {
    /// Category name
    pub name: String,
    /// Token count
    pub tokens: u32,
    /// Color for display
    pub color: String,
    /// Whether this is a deferred category
    pub is_deferred: Option<bool>,
}

/// API usage information
#[derive(Debug)]
pub struct ApiUsage {
    /// Total tokens used
    pub total_tokens: u32,
    /// Prompt tokens
    pub prompt_tokens: u32,
    /// Completion tokens
    pub completion_tokens: u32,
}

/// Errors of the session store.
#[derive(Debug)]
pub enum SessionError {
    /// A session or setting is missing or unusable.
    InvalidConfig(String),
    /// An input or output operation failed.
    Io(String),
    /// An operation did not finish in time.
    Timeout(String),
}

} // verus!
