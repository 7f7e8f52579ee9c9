//! Session mutations: the metadata rewrites of rename and tag, and the
//! transcript prefix and identity of a fork.

use vstd::prelude::*;
use crate::json::{
    JsonModel, JsonValue, assoc_index, assoc_insert, find_member, insert_member, json_text,
    json_text_model, json_text_of, opt_model, parse_json,
};
use crate::sessions::{str_field, string_field};
use crate::text::hex_digit;
use crate::types::{ForkSessionResult, owned, texts};

verus! {

/// The metadata object after a rename: `custom_title` set to the title, and
/// `summary` set to it too when the object has a summary.
pub open spec fn renamed_members(m: Seq<(Seq<char>, JsonModel)>, title: Seq<char>) -> Seq<
    (Seq<char>, JsonModel),
> {
    let m1 = assoc_insert(m, "custom_title"@, JsonModel::Str(title));
    if assoc_index(m1, "summary"@) >= 0 {
        assoc_insert(m1, "summary"@, JsonModel::Str(title))
    } else {
        m1
    }
}

/// The metadata of a renamed session, when its first line is a JSON object.
fn renamed_metadata(first_line: Option<JsonValue>, title: &str) -> (r: Option<JsonValue>)
    ensures
        match opt_model(first_line) {
            Some(JsonModel::Object(m)) => opt_model(r) == Some(
                JsonModel::Object(renamed_members(m, title@)),
            ),
            _ => r is None,
        },
{
    match first_line {
        Some(JsonValue::Object(members)) => {
            let mut members = members;
            insert_member(&mut members, owned("custom_title"), JsonValue::String(owned(title)));
            match find_member(&members, "summary") {
                Some(_) => {
                    insert_member(&mut members, owned("summary"), JsonValue::String(owned(title)));
                },
                None => {},
            }
            Some(JsonValue::Object(members))
        },
        _ => None,
    }
}

/// The new first line of a renamed session, when its first line is a JSON object
///
/// The object gets `custom_title` set to the title, and its `summary`, if it
/// has one, replaced by the title; the result is its JSON text.  Any other
/// first line stays as it is (nothing is returned).
pub fn rename_session(first_line: &str, title: &str) -> (r: Option<String>)
    ensures
        match json_text_model(first_line@) {
            Some(JsonModel::Object(m)) => r matches Some(t) && t@ == json_text_of(
                JsonModel::Object(renamed_members(m, title@)),
            ),
            _ => r is None,
        },
{
    match renamed_metadata(parse_json(first_line), title) {
        Some(v) => Some(json_text(&v)),
        None => None,
    }
}

/// The metadata of a tagged session, when its first line is a JSON object.
fn tagged_metadata(first_line: Option<JsonValue>, tag: &str) -> (r: Option<JsonValue>)
    ensures
        match opt_model(first_line) {
            Some(JsonModel::Object(m)) => opt_model(r) == Some(
                JsonModel::Object(assoc_insert(m, "tag"@, JsonModel::Str(tag@))),
            ),
            _ => r is None,
        },
{
    match first_line {
        Some(JsonValue::Object(members)) => {
            let mut members = members;
            insert_member(&mut members, owned("tag"), JsonValue::String(owned(tag)));
            Some(JsonValue::Object(members))
        },
        _ => None,
    }
}

/// The new first line of a tagged session, when its first line is a JSON object
///
/// The object gets `tag` set to the tag; the result is its JSON text.  Any
/// other first line stays as it is (nothing is returned).
pub fn tag_session(first_line: &str, tag: &str) -> (r: Option<String>)
    ensures
        match json_text_model(first_line@) {
            Some(JsonModel::Object(m)) => r matches Some(t) && t@ == json_text_of(
                JsonModel::Object(assoc_insert(m, "tag"@, JsonModel::Str(tag@))),
            ),
            _ => r is None,
        },
{
    match tagged_metadata(parse_json(first_line), tag) {
        Some(v) => Some(json_text(&v)),
        None => None,
    }
}

/// The `uuid` field of a line's JSON value, when it is a string.
pub open spec fn line_uuid(text: Seq<char>) -> Option<Seq<char>> {
    str_field(json_text_model(text), "uuid"@)
}

/// The lines up to and including the first line whose `uuid` is `stop` (all
/// of them when no line has it).
pub open spec fn lines_through_uuid(s: Seq<Seq<char>>, stop: Seq<char>) -> Seq<Seq<char>>
    decreases s.len(),
{
    if s.len() == 0 {
        Seq::empty()
    } else if line_uuid(s[0]) == Some(stop) {
        seq![s[0]]
    } else {
        seq![s[0]] + lines_through_uuid(s.drop_first(), stop)
    }
}

/// The lines that a fork copies: all of them, or, with `up_to_message_id`,
/// those up to and including the first line whose `uuid` is that id.
pub open spec fn fork_lines_spec(s: Seq<Seq<char>>, up_to_message_id: Option<Seq<char>>) -> Seq<
    Seq<char>,
> {
    match up_to_message_id {
        Some(stop) => lines_through_uuid(s, stop),
        None => s,
    }
}

/// `lines_through_uuid` of a prefix in which no line has the stop id, extended
/// by one more line without it, is extended by that line.
proof fn lemma_lines_through_uuid_extend(s: Seq<Seq<char>>, stop: Seq<char>, i: int)
    requires
        0 <= i < s.len(),
        forall|j: int| 0 <= j <= i ==> line_uuid(#[trigger] s[j]) != Some(stop),
    ensures
        lines_through_uuid(s.subrange(0, i + 1), stop) == lines_through_uuid(s.subrange(0, i), stop).push(
            s[i],
        ),
    decreases i,
{
    let a = s.subrange(0, i + 1);
    assert(line_uuid(s[0]) != Some(stop));
    assert(a[0] == s[0]);
    if i == 0 {
        assert(a.drop_first() == Seq::<Seq<char>>::empty());
        assert(lines_through_uuid(a.drop_first(), stop) == Seq::<Seq<char>>::empty());
        assert(lines_through_uuid(s.subrange(0, 0), stop) == Seq::<Seq<char>>::empty());
        assert(seq![s[0]] + Seq::<Seq<char>>::empty() == Seq::<Seq<char>>::empty().push(s[0]));
    } else {
        let t = s.drop_first();
        assert(t[i - 1] == s[i]);
        assert forall|j: int| 0 <= j <= i - 1 implies line_uuid(#[trigger] t[j]) != Some(stop) by {
            assert(t[j] == s[j + 1]);
        }
        lemma_lines_through_uuid_extend(t, stop, i - 1);
        assert(a.drop_first() == t.subrange(0, i));
        assert(s.subrange(0, i).drop_first() == t.subrange(0, i - 1));
        assert(s.subrange(0, i)[0] == s[0]);
        assert(seq![s[0]] + lines_through_uuid(t.subrange(0, i - 1), stop).push(s[i]) == (seq![s[0]]
            + lines_through_uuid(t.subrange(0, i - 1), stop)).push(s[i]));
    }
}

/// `lines_through_uuid` ends with the first line that has the stop id.
proof fn lemma_lines_through_uuid_stop(s: Seq<Seq<char>>, stop: Seq<char>, i: int)
    requires
        0 <= i < s.len(),
        line_uuid(s[i]) == Some(stop),
        forall|j: int| 0 <= j < i ==> line_uuid(#[trigger] s[j]) != Some(stop),
    ensures
        lines_through_uuid(s, stop) == lines_through_uuid(s.subrange(0, i), stop).push(s[i]),
    decreases i,
{
    if i > 0 {
        let t = s.drop_first();
        assert forall|j: int| 0 <= j < i - 1 implies line_uuid(#[trigger] t[j]) != Some(stop) by {
            assert(t[j] == s[j + 1]);
        }
        assert(t[i - 1] == s[i]);
        assert(line_uuid(s[0]) != Some(stop));
        lemma_lines_through_uuid_stop(t, stop, i - 1);
        assert(s.subrange(0, i).drop_first() == t.subrange(0, i - 1));
        assert(s.subrange(0, i)[0] == s[0]);
        assert(seq![s[0]] + lines_through_uuid(t.subrange(0, i - 1), stop).push(s[i]) == (seq![s[0]]
            + lines_through_uuid(t.subrange(0, i - 1), stop)).push(s[i]));
    } else {
        assert(s.subrange(0, 0).len() == 0);
        assert(lines_through_uuid(s.subrange(0, 0), stop) == Seq::<Seq<char>>::empty());
        assert(seq![s[0]] == Seq::<Seq<char>>::empty().push(s[0]));
    }
}

/// The `uuid` field of a line, when the line is JSON with a string `uuid`.
fn uuid_of_line(line: &str) -> (r: Option<String>)
    ensures
        match r {
            Some(u) => line_uuid(line@) == Some(u@),
            None => line_uuid(line@) is None,
        },
{
    let json = parse_json(line);
    string_field(&json, "uuid")
}

/// The lines a fork copies.
pub fn fork_lines(lines: &Vec<String>, up_to_message_id: Option<&str>) -> (r: Vec<String>)
    ensures
        texts(r@) == fork_lines_spec(
            texts(lines@),
            match up_to_message_id {
                Some(s) => Some(s@),
                None => None,
            },
        ),
        r@.len() == (fork_lines_spec(texts(lines@), match up_to_message_id { Some(s) => Some(s@), None => None })).len(),
        forall|i: int| 0 <= i < r@.len() ==> #[trigger] r@[i]@ == (fork_lines_spec(texts(lines@), match up_to_message_id { Some(s) => Some(s@), None => None }))[i],
{
    let ghost ls = texts(lines@);
    let stop: Option<String> = match up_to_message_id {
        Some(s) => Some(owned(s)),
        None => None,
    };
    let mut out: Vec<String> = Vec::new();
    let mut i: usize = 0;
    while i < lines.len()
        invariant
            0 <= i <= lines@.len(),
            ls == texts(lines@),
            ls.len() == lines@.len(),
            match stop {
                Some(s) => up_to_message_id matches Some(u) && s@ == u@,
                None => up_to_message_id is None,
            },
            match stop {
                Some(s) => {
                    &&& forall|j: int| 0 <= j < i ==> line_uuid(#[trigger] ls[j]) != Some(s@)
                    &&& texts(out@) == lines_through_uuid(ls.subrange(0, i as int), s@)
                },
                None => texts(out@) == ls.subrange(0, i as int),
            },
        decreases lines.len() - i,
    {
        assert(ls[i as int] == lines@[i as int]@);
        let t = lines[i].clone();
        match &stop {
            Some(s) => {
                let u = uuid_of_line(lines[i].as_str());
                let hit = match &u {
                    Some(x) => *x == *s,
                    None => false,
                };
                if hit {
                    proof {
                        lemma_lines_through_uuid_stop(ls, s@, i as int);
                        assert(texts(out@.push(t)) == texts(out@).push(t@));
                    }
                    out.push(t);
                    return out;
                }
                proof {
                    lemma_lines_through_uuid_extend(ls, s@, i as int);
                }
            },
            None => {
                proof {
                    assert(ls.subrange(0, i + 1) == ls.subrange(0, i as int).push(ls[i as int]));
                }
            },
        }
        proof {
            assert(texts(out@.push(t)) == texts(out@).push(t@));
        }
        out.push(t);
        i = i + 1;
    }
    proof {
        assert(ls.subrange(0, ls.len() as int) == ls);
    }
    out
}

/// Whether a text is a version-4 UUID in hyphenated lower-case form: 36
/// characters, hyphens at positions 8, 13, 18 and 23, lower-case hexadecimal
/// digits elsewhere, the version digit `4` at position 14 and a variant digit
/// of `8`, `9`, `a` or `b` at position 19.
pub open spec fn is_v4_uuid_text(s: Seq<char>) -> bool {
    &&& s.len() == 36
    &&& forall|i: int|
        0 <= i < 36 ==> if i == 8 || i == 13 || i == 18 || i == 23 {
            #[trigger] s[i] == '-'
        } else {
            ('0' <= s[i] <= '9') || ('a' <= s[i] <= 'f')
        }
    &&& s[14] == '4'
    &&& s[19] == '8' || s[19] == '9' || s[19] == 'a' || s[19] == 'b'
}

/// Byte `i` of the version-4 UUID made from the random bytes `b`: byte 6 gets
/// the version 4 in its high half (`(b & 0x0f) | 0x40`), byte 8 the RFC 4122
/// variant in its two high bits (`(b & 0x3f) | 0x80`), the others stay.
pub open spec fn v4_byte(b: Seq<u8>, i: int) -> int {
    if i == 6 {
        b[6] % 16 + 64
    } else if i == 8 {
        b[8] % 64 + 128
    } else {
        b[i] as int
    }
}

/// The lower-case hexadecimal digits of bytes `from` to `to` (exclusive) of
/// the version-4 UUID made from `b`, two per byte.
pub open spec fn v4_hex(b: Seq<u8>, from: int, to: int) -> Seq<char>
    decreases to - from,
{
    if from >= to {
        Seq::empty()
    } else {
        seq![hex_digit(v4_byte(b, from) / 16), hex_digit(v4_byte(b, from) % 16)] + v4_hex(
            b,
            from + 1,
            to,
        )
    }
}

/// The hyphenated text of the version-4 UUID made from 16 random bytes:
/// groups of 4, 2, 2, 2 and 6 bytes.
pub open spec fn v4_uuid_text(b: Seq<u8>) -> Seq<char> {
    v4_hex(b, 0, 4) + seq!['-'] + v4_hex(b, 4, 6) + seq!['-'] + v4_hex(b, 6, 8) + seq!['-'] + v4_hex(
        b,
        8,
        10,
    ) + seq!['-'] + v4_hex(b, 10, 16)
}

/// A session id made from 16 random bytes.
///
/// Calls `uuid::Builder::from_random_bytes(..).into_uuid()`, which sets the
/// version and variant bits, and renders the UUID with `to_string()` (its
/// hyphenated lower-case form).
#[verifier::external_body]
fn session_id_from_bytes(random: [u8; 16]) -> (r: String)
    ensures
        r@ == v4_uuid_text(random@),
{
    uuid::Builder::from_random_bytes(random).into_uuid().to_string()
}

/// A fork of a session: the new session's id and the lines of its transcript.
#[derive(Debug)]
pub struct ForkPlan {
    pub result: ForkSessionResult,
    pub lines: Vec<String>,
}

/// Fork a session, creating a new session with the same transcript
///
/// If `up_to_message_id` is provided, only the lines up to and including the
/// first message with that id are copied.  The new session's id is the
/// version-4 UUID made from the 16 `random` bytes.
pub fn fork_session(lines: &Vec<String>, up_to_message_id: Option<&str>, random: [u8; 16]) -> (r:
    ForkPlan)
    ensures
        r.result.session_id@ == v4_uuid_text(random@),
        is_v4_uuid_text(r.result.session_id@),
        texts(r.lines@) == fork_lines_spec(
            texts(lines@),
            match up_to_message_id {
                Some(s) => Some(s@),
                None => None,
            },
        ),
        r.lines@.len() == fork_lines_spec(
            texts(lines@),
            match up_to_message_id {
                Some(s) => Some(s@),
                None => None,
            },
        ).len(),
        forall|i: int|
            0 <= i < r.lines@.len() ==> #[trigger] r.lines@[i]@ == fork_lines_spec(
                texts(lines@),
                match up_to_message_id {
                    Some(s) => Some(s@),
                    None => None,
                },
            )[i],
{
    let session_id = session_id_from_bytes(random);
    let copied = fork_lines(lines, up_to_message_id);
    proof {
        crate::laws::law_fork_id_is_v4(random@);
    }
    ForkPlan { result: ForkSessionResult { session_id }, lines: copied }
}

} // verus!
