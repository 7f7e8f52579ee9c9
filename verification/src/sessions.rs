//! Reading session files: metadata, session information, listings, messages
//! and subagents, computed from the lines of a JSONL transcript.

use vstd::prelude::*;
use crate::json::{
    JsonModel, JsonValue, assoc_get, json_as_str, json_get, json_text_model, opt_model, parse_json,
    value_model,
};
use crate::api::not_found_message;
use crate::listing::{recency_order, sort_by_recency};
use crate::paths::{file_stem, name_stem};
use crate::seqs::{page, page_of};
use crate::types::{
    MessageView, SDKSessionInfo, SessionError, SessionInfoView, SessionMessage, clone_opt_string,
    infos_view, messages_view, owned,
};

verus! {

/// One line of a JSONL transcript: its text, its JSON value when the text
/// parses as one, and the message it denotes when it has the shape of one.
#[derive(Debug)]
pub struct TranscriptLine {
    text: String,
    json: Option<JsonValue>,
    message: Option<SessionMessage>,
}

/// The mathematical form of a transcript line: its text and its message.
pub struct LineView {
    pub text: Seq<char>,
    pub message: Option<MessageView>,
}

impl View for TranscriptLine {
    type V = LineView;

    closed spec fn view(&self) -> LineView {
        LineView {
            text: self.text@,
            message: match self.message {
                Some(m) => Some(m@),
                None => None,
            },
        }
    }
}

impl TranscriptLine {
    /// The parsed value of a line is what its text denotes.
    #[verifier::type_invariant]
    spec fn parsed(self) -> bool {
        opt_model(self.json) == json_text_model(self.text@)
    }

    /// A transcript line from its text and the message it denotes (if any),
    /// parsing the text as JSON.
    pub fn parse(text: String, message: Option<SessionMessage>) -> (r: TranscriptLine)
        ensures
            r@ == (LineView {
                text: text@,
                message: match message {
                    Some(m) => Some(m@),
                    None => None,
                },
            }),
    {
        let json = parse_json(text.as_str());
        TranscriptLine { text, json, message }
    }

    /// The JSON value of the line, when its text is one.
    pub fn json(&self) -> (r: &Option<JsonValue>)
        ensures
            opt_model(*r) == json_text_model(self@.text),
    {
        proof {
            use_type_invariant(self);
        }
        &self.json
    }

    /// The message of the line, when it denotes one.
    pub fn into_message(self) -> (r: Option<SessionMessage>)
        ensures
            match r {
                Some(m) => self@.message == Some(m@),
                None => self@.message is None,
            },
    {
        self.message
    }
}

/// The models of a sequence of transcript lines.
pub open spec fn lines_view(s: Seq<TranscriptLine>) -> Seq<LineView> {
    s.map_values(|l: TranscriptLine| l@)
}

/// The string value of the field `key` of a JSON object, if it has one.
pub open spec fn str_field(v: Option<JsonModel>, key: Seq<char>) -> Option<Seq<char>> {
    match v {
        Some(m) => json_as_str(json_get(m, key)),
        None => None,
    }
}

/// The text of an optional text, or the empty text.
pub open spec fn or_empty(t: Option<Seq<char>>) -> Seq<char> {
    match t {
        Some(x) => x,
        None => Seq::empty(),
    }
}

/// The string field `key` of an optional JSON value.
pub fn string_field(v: &Option<JsonValue>, key: &str) -> (r: Option<String>)
    ensures
        opt_text_of(r) == str_field(opt_model(*v), key@),
{
    match v {
        Some(x) => match x.get(key) {
            Some(f) => match f.as_str() {
                Some(s) => Some(s.clone()),
                None => None,
            },
            None => None,
        },
        None => None,
    }
}

/// The text of an optional string.
pub open spec fn opt_text_of(o: Option<String>) -> Option<Seq<char>> {
    match o {
        Some(s) => Some(s@),
        None => None,
    }
}

fn text_or_empty(o: Option<String>) -> (r: String)
    ensures
        r@ == or_empty(opt_text_of(o)),
{
    match o {
        Some(s) => s,
        None => String::new(),
    }
}

/// The JSON value of a file's first line, when the file has one and it
/// parses as JSON.
pub open spec fn first_line_json(first_line: Option<Seq<char>>) -> Option<JsonModel> {
    match first_line {
        Some(t) => json_text_model(t),
        None => None,
    }
}

/// The session information that a session file gives: its id from the file
/// name, its metadata from the string fields of its first line, and the
/// file's size.
pub open spec fn file_info_spec(
    file_name: Option<Seq<char>>,
    first_line: Option<Seq<char>>,
    file_size: u64,
) -> SessionInfoView {
    let meta = first_line_json(first_line);
    SessionInfoView {
        session_id: match file_name {
            Some(n) => name_stem(n),
            None => "unknown"@,
        },
        summary: or_empty(str_field(meta, "summary"@)),
        last_modified: or_empty(str_field(meta, "last_modified"@)),
        file_size,
        custom_title: str_field(meta, "custom_title"@),
        first_prompt: str_field(meta, "first_prompt"@),
        git_branch: str_field(meta, "git_branch"@),
        cwd: str_field(meta, "cwd"@),
        tag: str_field(meta, "tag"@),
        created_at: or_empty(str_field(meta, "created_at"@)),
    }
}

/// Session information from a session file: `file_name` is the file's name
/// (when it is valid UTF-8), `first_line` the text of its first line (when it
/// has one).
pub fn session_info_from_file(file_name: Option<&str>, first_line: Option<&str>, file_size: u64) -> (r:
    SDKSessionInfo)
    ensures
        r@ == file_info_spec(
            match file_name {
                Some(n) => Some(n@),
                None => None,
            },
            match first_line {
                Some(t) => Some(t@),
                None => None,
            },
            file_size,
        ),
{
    let meta = match first_line {
        Some(t) => parse_json(t),
        None => None,
    };
    let session_id = match file_name {
        Some(n) => file_stem(n),
        None => owned("unknown"),
    };
    SDKSessionInfo {
        session_id,
        summary: text_or_empty(string_field(&meta, "summary")),
        last_modified: text_or_empty(string_field(&meta, "last_modified")),
        file_size,
        custom_title: string_field(&meta, "custom_title"),
        first_prompt: string_field(&meta, "first_prompt"),
        git_branch: string_field(&meta, "git_branch"),
        cwd: string_field(&meta, "cwd"),
        tag: string_field(&meta, "tag"),
        created_at: text_or_empty(string_field(&meta, "created_at")),
    }
}

/// The error for a session whose file does not exist.
pub fn session_not_found(session_id: &str) -> (r: SessionError)
    ensures
        r matches SessionError::InvalidConfig(m) && m@ == not_found_message(session_id@),
{
    let mut m = owned("Session not found: ");
    m.append(session_id);
    SessionError::InvalidConfig(m)
}

/// Get detailed info about a specific session, given its session file
/// (nothing when the file does not exist)
pub fn get_session_info(session_id: &str, file: Option<SessionFile>) -> (r: Result<SDKSessionInfo, SessionError>)
    ensures
        match file {
            Some(f) => r matches Ok(i) && i@ == file_info_spec(
                opt_text_of(f.file_name),
                opt_text_of(f.first_line),
                f.file_size,
            ),
            None => r matches Err(SessionError::InvalidConfig(m)) && m@ == not_found_message(session_id@),
        },
{
    match file {
        Some(f) => {
            let name = match &f.file_name {
                Some(n) => Some(n.as_str()),
                None => None,
            };
            let first = match &f.first_line {
                Some(t) => Some(t.as_str()),
                None => None,
            };
            Ok(session_info_from_file(name, first, f.file_size))
        },
        None => Err(session_not_found(session_id)),
    }
}

/// A readable session file of a sessions directory.
#[derive(Debug)]
pub struct SessionFile {
    /// The file's name, when it is valid UTF-8
    pub file_name: Option<String>,
    /// The text of the file's first line, when it has one
    pub first_line: Option<String>,
    /// The file's size in bytes
    pub file_size: u64,
}

/// The session information of each session file, in order.
pub open spec fn files_infos(files: Seq<SessionFile>) -> Seq<SessionInfoView> {
    files.map_values(
        |f: SessionFile|
            file_info_spec(opt_text_of(f.file_name), opt_text_of(f.first_line), f.file_size),
    )
}

/// List the sessions of a sessions directory, given its readable session files
///
/// The sessions are ordered by modification time, most recent first (ties
/// keep the order of `files`), then `offset` of them are skipped and at most
/// `limit` kept.
pub fn list_sessions(files: Vec<SessionFile>, limit: Option<usize>, offset: Option<usize>) -> (r: Vec<
    SDKSessionInfo,
>)
    ensures
        infos_view(r@) == page(recency_order(files_infos(files@)), limit, offset),
        r@.len() == (page(recency_order(files_infos(files@)), limit, offset)).len(),
        forall|i: int| 0 <= i < r@.len() ==> #[trigger] r@[i]@ == (page(recency_order(files_infos(files@)), limit, offset))[i],
{
    let ghost fs = files@;
    let mut infos: Vec<SDKSessionInfo> = Vec::new();
    for f in it: files
        invariant
            it.seq() == fs,
            infos_view(infos@) == files_infos(fs.subrange(0, it.index() as int)),
    {
        let ghost idx = it.index();
        let name = match &f.file_name {
            Some(n) => Some(n.as_str()),
            None => None,
        };
        let first = match &f.first_line {
            Some(t) => Some(t.as_str()),
            None => None,
        };
        let info = session_info_from_file(name, first, f.file_size);
        proof {
            assert(files_infos(fs.subrange(0, idx + 1)) == files_infos(fs.subrange(0, idx as int)).push(
                info@,
            ));
        }
        infos.push(info);
    }
    proof {
        assert(fs.subrange(0, fs.len() as int) == fs);
    }
    let sorted = sort_by_recency(infos);
    let r = page_of(sorted, limit, offset);
    proof {
        assert(infos_view(r@) =~= page(infos_view(sorted@), limit, offset));
    }
    r
}

/// The values of the present elements of a sequence of options, in order.
pub open spec fn present<T>(s: Seq<Option<T>>) -> Seq<T>
    decreases s.len(),
{
    if s.len() == 0 {
        Seq::empty()
    } else {
        match s.last() {
            Some(x) => present(s.drop_last()).push(x),
            None => present(s.drop_last()),
        }
    }
}

/// The messages of a sequence of lines (absent where a line is no message).
pub open spec fn line_messages(s: Seq<LineView>) -> Seq<Option<MessageView>> {
    s.map_values(|l: LineView| l.message)
}

/// Get messages from a session file with optional pagination
///
/// `offset` lines are skipped and at most `limit` lines kept; of those, the
/// lines that are messages are returned.
pub fn get_session_messages(lines: Vec<TranscriptLine>, limit: Option<usize>, offset: Option<usize>) -> (r:
    Vec<SessionMessage>)
    ensures
        messages_view(r@) == present(page(line_messages(lines_view(lines@)), limit, offset)),
        r@.len() == (present(page(line_messages(lines_view(lines@)), limit, offset))).len(),
        forall|i: int| 0 <= i < r@.len() ==> #[trigger] r@[i]@ == (present(page(line_messages(lines_view(lines@)), limit, offset)))[i],
{
    let ghost all = lines_view(lines@);
    let chosen = page_of(lines, limit, offset);
    let ghost ch = chosen@;
    proof {
        assert(line_messages(lines_view(ch)) =~= page(line_messages(all), limit, offset));
    }
    let mut out: Vec<SessionMessage> = Vec::new();
    for l in it: chosen
        invariant
            it.seq() == ch,
            messages_view(out@) == present(line_messages(lines_view(ch.subrange(0, it.index() as int)))),
    {
        let ghost idx = it.index();
        let ghost before = line_messages(lines_view(ch.subrange(0, idx as int)));
        proof {
            assert(line_messages(lines_view(ch.subrange(0, idx + 1))) == before.push(l@.message));
            assert(before.push(l@.message).drop_last() == before);
        }
        match l.into_message() {
            Some(m) => {
                proof {
                    assert(messages_view(out@.push(m)) == messages_view(out@).push(m@));
                }
                out.push(m);
            },
            None => {},
        }
    }
    proof {
        assert(ch.subrange(0, ch.len() as int) == ch);
    }
    out
}

/// The subagent that a transcript line belongs to: the string `agent_id` of
/// its `data` object.
pub open spec fn agent_of(json: Option<JsonModel>) -> Option<Seq<char>> {
    match json {
        Some(v) => match json_get(v, "data"@) {
            Some(JsonModel::Object(m)) => json_as_str(assoc_get(m, "agent_id"@)),
            _ => None,
        },
        None => None,
    }
}

/// The subagent of a transcript line.
pub fn line_agent(json: &Option<JsonValue>) -> (r: Option<String>)
    ensures
        opt_text_of(r) == agent_of(opt_model(*json)),
{
    match json {
        Some(v) => match v.get("data") {
            Some(d) => match d {
                JsonValue::Object(_) => match d.get("agent_id") {
                    Some(a) => match a.as_str() {
                        Some(s) => Some(s.clone()),
                        None => None,
                    },
                    None => None,
                },
                _ => None,
            },
            None => None,
        },
        None => None,
    }
}

/// The texts of `s` without repetitions, each where it first occurs.
pub open spec fn distinct_in_order(s: Seq<Seq<char>>) -> Seq<Seq<char>>
    decreases s.len(),
{
    if s.len() == 0 {
        Seq::empty()
    } else {
        let d = distinct_in_order(s.drop_last());
        if d.contains(s.last()) {
            d
        } else {
            d.push(s.last())
        }
    }
}

/// The subagents of a sequence of lines, in order, with repetitions.
pub open spec fn line_agents(s: Seq<LineView>) -> Seq<Option<Seq<char>>> {
    s.map_values(|l: LineView| agent_of(json_text_model(l.text)))
}

/// List all subagent IDs for a session, each once, in order of first appearance
pub fn list_subagents(lines: &Vec<TranscriptLine>) -> (r: Vec<String>)
    ensures
        crate::types::texts(r@) == distinct_in_order(present(line_agents(lines_view(lines@)))),
        r@.len() == (distinct_in_order(present(line_agents(lines_view(lines@))))).len(),
        forall|i: int| 0 <= i < r@.len() ==> #[trigger] r@[i]@ == (distinct_in_order(present(line_agents(lines_view(lines@)))))[i],
{
    let mut out: Vec<String> = Vec::new();
    let mut i: usize = 0;
    while i < lines.len()
        invariant
            0 <= i <= lines@.len(),
            crate::types::texts(out@) == distinct_in_order(
                present(line_agents(lines_view(lines@.subrange(0, i as int)))),
            ),
        decreases lines.len() - i,
    {
        let ghost before = line_agents(lines_view(lines@.subrange(0, i as int)));
        let a = line_agent(lines[i].json());
        proof {
            assert(line_agents(lines_view(lines@.subrange(0, i + 1))) == before.push(
                agent_of(json_text_model(lines@[i as int]@.text)),
            ));
            assert(before.push(agent_of(json_text_model(lines@[i as int]@.text))).drop_last() == before);
        }
        let ghost pb = present(before);
        match a {
            Some(id) => {
                proof {
                    assert(present(before.push(Some(id@))) == pb.push(id@));
                    assert(pb.push(id@).drop_last() == pb);
                }
                let ghost d = crate::types::texts(out@);
                let mut seen = false;
                let mut j: usize = 0;
                while j < out.len()
                    invariant
                        0 <= j <= out@.len(),
                        d == crate::types::texts(out@),
                        d.len() == out@.len(),
                        seen == (exists|w: int| 0 <= w < j && #[trigger] d[w] == id@),
                    decreases out.len() - j,
                {
                    if out[j] == id {
                        seen = true;
                        assert(d[j as int] == id@);
                    }
                    j = j + 1;
                }
                assert(seen == d.contains(id@));
                if !seen {
                    proof {
                        assert(crate::types::texts(out@.push(id)) == d.push(id@));
                    }
                    out.push(id);
                }
            },
            None => {
                assert(present(before.push(None)) == pb);
            },
        }
        i = i + 1;
    }
    proof {
        assert(lines@.subrange(0, lines@.len() as int) == lines@);
    }
    out
}

/// The messages of the lines of subagent `agent`, in order.
pub open spec fn agent_messages(s: Seq<LineView>, agent: Seq<char>) -> Seq<Option<MessageView>> {
    s.map_values(
        |l: LineView|
            if agent_of(json_text_model(l.text)) == Some(agent) {
                l.message
            } else {
                None
            },
    )
}

/// Get messages for a specific subagent within a session
///
/// The lines of the subagent that are messages are taken in order; then
/// `offset` of them are skipped and at most `limit` kept.
pub fn get_subagent_messages(
    lines: Vec<TranscriptLine>,
    agent_id: &str,
    limit: Option<usize>,
    offset: Option<usize>,
) -> (r: Vec<SessionMessage>)
    ensures
        messages_view(r@) == page(present(agent_messages(lines_view(lines@), agent_id@)), limit, offset),
        r@.len() == (page(present(agent_messages(lines_view(lines@), agent_id@)), limit, offset)).len(),
        forall|i: int| 0 <= i < r@.len() ==> #[trigger] r@[i]@ == (page(present(agent_messages(lines_view(lines@), agent_id@)), limit, offset))[i],
{
    let ghost ls = lines@;
    let wanted = owned(agent_id);
    let mut out: Vec<SessionMessage> = Vec::new();
    for l in it: lines
        invariant
            it.seq() == ls,
            wanted@ == agent_id@,
            messages_view(out@) == present(
                agent_messages(lines_view(ls.subrange(0, it.index() as int)), agent_id@),
            ),
    {
        let ghost idx = it.index();
        let ghost before = agent_messages(lines_view(ls.subrange(0, idx as int)), agent_id@);
        let a = line_agent(l.json());
        let ghost item = if agent_of(json_text_model(l@.text)) == Some(agent_id@) {
            l@.message
        } else {
            None
        };
        proof {
            assert(agent_messages(lines_view(ls.subrange(0, idx + 1)), agent_id@) == before.push(item));
            assert(before.push(item).drop_last() == before);
        }
        let matches = match &a {
            Some(x) => *x == wanted,
            None => false,
        };
        if matches {
            match l.into_message() {
                Some(m) => {
                    proof {
                        assert(messages_view(out@.push(m)) == messages_view(out@).push(m@));
                    }
                    out.push(m);
                },
                None => {},
            }
        }
    }
    proof {
        assert(ls.subrange(0, ls.len() as int) == ls);
    }
    let r = page_of(out, limit, offset);
    proof {
        assert(messages_view(r@) =~= page(messages_view(out@), limit, offset));
    }
    r
}

} // verus!
