//! Where sessions live: session file paths, file name parts, and the project
//! key of a directory.

use std::collections::hash_map::DefaultHasher;
use std::hash::BuildHasher;
use std::hash::BuildHasherDefault;
use vstd::prelude::*;
use crate::text::{hex16, hex_digits, join_path, path_join};
use crate::types::texts;

verus! {

/// The position of the last occurrence of `c` in `s`, or -1 when there is none.
pub open spec fn last_index(s: Seq<char>, c: char) -> int
    decreases s.len(),
{
    if s.len() == 0 {
        -1
    } else if s.last() == c {
        s.len() - 1
    } else {
        last_index(s.drop_last(), c)
    }
}

/// `last_index` is the last position holding `c`, or -1 when none does.
pub proof fn lemma_last_index(s: Seq<char>, c: char)
    ensures
        -1 <= last_index(s, c) < s.len(),
        last_index(s, c) >= 0 ==> s[last_index(s, c)] == c,
        forall|j: int| last_index(s, c) < j < s.len() ==> s[j] != c,
    decreases s.len(),
{
    if s.len() > 0 && s.last() != c {
        lemma_last_index(s.drop_last(), c);
        assert forall|j: int| last_index(s, c) < j < s.len() implies s[j] != c by {
            if j < s.len() - 1 {
                assert(s[j] == s.drop_last()[j]);
            }
        }
    }
}

/// Finds the last occurrence of a character.
pub fn find_last(s: &str, c: char) -> (r: Option<usize>)
    ensures
        match r {
            Some(i) => i < s@.len() && i == last_index(s@, c),
            None => last_index(s@, c) == -1,
        },
{
    let n = s.unicode_len();
    let mut i: usize = n;
    proof {
        lemma_last_index(s@, c);
    }
    while i > 0
        invariant
            n == s@.len(),
            0 <= i <= n,
            forall|j: int| i <= j < n ==> s@[j] != c,
        decreases i,
    {
        if s.get_char(i - 1) == c {
            proof {
                lemma_last_index(s@, c);
                if last_index(s@, c) > i - 1 {
                    assert(s@[last_index(s@, c)] != c);
                } else if last_index(s@, c) < i - 1 {
                    assert(s@[i - 1] != c);
                }
            }
            return Some(i - 1);
        }
        i = i - 1;
    }
    proof {
        lemma_last_index(s@, c);
        if last_index(s@, c) >= 0 {
            assert(s@[last_index(s@, c)] != c);
        }
    }
    None
}

/// Whether a file name has no ordinary dot to split at (`..`, no dot, or only
/// a leading dot).
pub open spec fn name_unsplit(name: Seq<char>) -> bool {
    name == seq!['.', '.'] || last_index(name, '.') <= 0
}

/// The stem of a file name: the part before its last dot (`Path::file_stem`).
pub open spec fn name_stem(name: Seq<char>) -> Seq<char> {
    if name_unsplit(name) {
        name
    } else {
        name.subrange(0, last_index(name, '.'))
    }
}

/// The extension of a file name: the part after its last dot (`Path::extension`).
pub open spec fn name_extension(name: Seq<char>) -> Option<Seq<char>> {
    if name_unsplit(name) {
        None
    } else {
        Some(name.subrange(last_index(name, '.') + 1, name.len() as int))
    }
}

fn is_dot_dot(name: &str) -> (r: bool)
    ensures
        r == (name@ == seq!['.', '.']),
{
    if name.unicode_len() != 2 {
        return false;
    }
    let r = name.get_char(0) == '.' && name.get_char(1) == '.';
    proof {
        if r {
            assert(name@ =~= seq!['.', '.']);
        }
    }
    r
}

/// The stem of a file name.
pub fn file_stem(name: &str) -> (r: String)
    ensures
        r@ == name_stem(name@),
{
    if is_dot_dot(name) {
        return name.to_string();
    }
    match find_last(name, '.') {
        Some(d) => {
            if d == 0 {
                name.to_string()
            } else {
                name.substring_char(0, d).to_string()
            }
        },
        None => name.to_string(),
    }
}

/// The extension of a file name.
pub fn file_extension(name: &str) -> (r: Option<String>)
    ensures
        match r {
            Some(e) => name_extension(name@) == Some(e@),
            None => name_extension(name@) is None,
        },
{
    if is_dot_dot(name) {
        return None;
    }
    let n = name.unicode_len();
    proof {
        lemma_last_index(name@, '.');
    }
    match find_last(name, '.') {
        Some(d) => {
            if d == 0 {
                None
            } else {
                Some(name.substring_char(d + 1, n).to_string())
            }
        },
        None => None,
    }
}

/// The text `jsonl`.
pub open spec fn jsonl_text() -> Seq<char> {
    seq!['j', 's', 'o', 'n', 'l']
}

/// Whether a directory entry is a session file: its extension is `jsonl`.
pub fn is_session_file(name: &str) -> (r: bool)
    ensures
        r == (name_extension(name@) == Some(jsonl_text())),
{
    match file_extension(name) {
        Some(e) => {
            let j = "jsonl".to_string();
            proof {
                reveal_strlit("jsonl");
                assert(j@ =~= jsonl_text());
            }
            e == j
        },
        None => false,
    }
}

/// The sessions directory of a configuration directory.
pub open spec fn sessions_dir_spec(config_dir: Seq<char>) -> Seq<char> {
    path_join(config_dir, seq!['s', 'e', 's', 's', 'i', 'o', 'n', 's'])
}

/// The session file of a session: `<config>/sessions/<id>.jsonl`.
pub open spec fn session_path_spec(config_dir: Seq<char>, session_id: Seq<char>) -> Seq<char> {
    path_join(sessions_dir_spec(config_dir), session_id + seq!['.'] + jsonl_text())
}

/// Get the sessions directory path
pub fn sessions_dir(config_dir: &str) -> (r: String)
    ensures
        r@ == sessions_dir_spec(config_dir@),
{
    proof {
        reveal_strlit("sessions");
        assert("sessions"@ =~= seq!['s', 'e', 's', 's', 'i', 'o', 'n', 's']);
    }
    join_path(config_dir, "sessions")
}

/// Get the path to a specific session file
pub fn session_path(config_dir: &str, session_id: &str) -> (r: String)
    ensures
        r@ == session_path_spec(config_dir@, session_id@),
{
    let dir = sessions_dir(config_dir);
    let mut name = session_id.to_string();
    name.append(".jsonl");
    proof {
        reveal_strlit(".jsonl");
        assert(".jsonl"@ =~= seq!['.'] + jsonl_text());
        assert(name@ =~= session_id@ + seq!['.'] + jsonl_text());
    }
    join_path(dir.as_str(), name.as_str())
}

/// The path with the extension of its final component replaced by `ext`
/// (`Path::with_extension`), for a path whose final component is the plain
/// name after its last `/`.
pub open spec fn with_extension_spec(p: Seq<char>, ext: Seq<char>) -> Seq<char> {
    let start = last_index(p, '/') + 1;
    let name = p.subrange(start, p.len() as int);
    p.subrange(0, start + name_stem(name).len()) + seq!['.'] + ext
}

/// The text `channel.json`.
pub open spec fn channel_json_text() -> Seq<char> {
    seq!['c', 'h', 'a', 'n', 'n', 'e', 'l', '.', 'j', 's', 'o', 'n']
}

/// The side file of a session (`<config>/sessions/<stem>.channel.json`).
pub fn channel_path(config_dir: &str, session_id: &str) -> (r: String)
    ensures
        r@ == with_extension_spec(session_path_spec(config_dir@, session_id@), channel_json_text()),
{
    let p = session_path(config_dir, session_id);
    let ghost pv = p@;
    let n = p.as_str().unicode_len();
    let start: usize = match find_last(p.as_str(), '/') {
        Some(i) => i + 1,
        None => 0,
    };
    proof {
        lemma_last_index(pv, '/');
    }
    let name = p.as_str().substring_char(start, n);
    let stem = file_stem(name);
    let stem_len = stem.as_str().unicode_len();
    proof {
        assert(stem@.len() <= name@.len()) by {
            lemma_last_index(name@, '.');
        }
    }
    let mut r = p.as_str().substring_char(0, start + stem_len).to_string();
    r.append(".channel.json");
    proof {
        reveal_strlit(".channel.json");
        assert(".channel.json"@ =~= seq!['.'] + channel_json_text());
    }
    r
}

/// The parent of a path (`Path::parent` for a canonical absolute path): the
/// part before its last `/`, or `/` when the only `/` is the leading one;
/// none for `/` itself (or a text without `/`).
pub open spec fn parent_path(p: Seq<char>) -> Option<Seq<char>> {
    let i = last_index(p, '/');
    if p.len() <= 1 || i < 0 {
        None
    } else if i == 0 {
        Some(seq!['/'])
    } else {
        Some(p.subrange(0, i))
    }
}

/// The ancestors of a path, nearest first.
pub open spec fn ancestors(p: Seq<char>) -> Seq<Seq<char>>
    decreases p.len(),
{
    match parent_path(p) {
        Some(q) => {
            proof {
                lemma_last_index(p, '/');
            }
            seq![q] + ancestors(q)
        },
        None => Seq::empty(),
    }
}

/// The parent of a path.
fn parent_of(p: &str) -> (r: Option<String>)
    ensures
        match r {
            Some(q) => parent_path(p@) == Some(q@),
            None => parent_path(p@) is None,
        },
{
    if p.unicode_len() <= 1 {
        return None;
    }
    match find_last(p, '/') {
        Some(i) => {
            if i == 0 {
                let r = "/".to_string();
                proof {
                    reveal_strlit("/");
                    assert(r@ =~= seq!['/']);
                }
                Some(r)
            } else {
                Some(p.substring_char(0, i).to_string())
            }
        },
        None => None,
    }
}

/// The directory named `name` in each ancestor of a directory, nearest first:
/// where the tool's project-level files are looked for.
pub fn ancestor_dirs(abs_directory: &str, name: &str) -> (r: Vec<String>)
    ensures
        texts(r@) == ancestors(abs_directory@).map_values(|a: Seq<char>| path_join(a, name@)),
        r@.len() == (ancestors(abs_directory@).map_values(|a: Seq<char>| path_join(a, name@))).len(),
        forall|i: int| 0 <= i < r@.len() ==> #[trigger] r@[i]@ == (ancestors(abs_directory@).map_values(|a: Seq<char>| path_join(a, name@)))[i],
{
    let ghost f = |a: Seq<char>| path_join(a, name@);
    let mut out: Vec<String> = Vec::new();
    let mut cur: String = abs_directory.to_string();
    loop
        invariant
            f == (|a: Seq<char>| path_join(a, name@)),
            texts(out@) + ancestors(cur@).map_values(f) == ancestors(abs_directory@).map_values(f),
        decreases cur@.len(),
    {
        match parent_of(cur.as_str()) {
            Some(q) => {
                proof {
                    lemma_last_index(cur@, '/');
                    let rest = ancestors(q@).map_values(f);
                    assert(ancestors(cur@) == seq![q@] + ancestors(q@));
                    assert(ancestors(cur@).map_values(f) =~= seq![f(q@)] + rest);
                }
                let d = join_path(q.as_str(), name);
                proof {
                    assert(texts(out@.push(d)) =~= texts(out@).push(d@));
                    assert(texts(out@).push(d@) + ancestors(q@).map_values(f) =~= texts(out@) + (seq![
                        f(q@),
                    ] + ancestors(q@).map_values(f)));
                }
                out.push(d);
                cur = q;
            },
            None => {
                proof {
                    assert(ancestors(cur@).map_values(f) =~= Seq::<Seq<char>>::empty());
                    assert(texts(out@) + Seq::<Seq<char>>::empty() =~= texts(out@));
                }
                return out;
            },
        }
    }
}

/// The last occurrence of `c` in `a + b`, when `b` holds none, is its last
/// occurrence in `a`.
pub proof fn lemma_last_index_append(a: Seq<char>, b: Seq<char>, c: char)
    requires
        forall|j: int| 0 <= j < b.len() ==> b[j] != c,
    ensures
        last_index(a + b, c) == last_index(a, c),
    decreases b.len(),
{
    if b.len() > 0 {
        assert((a + b).last() == b.last());
        assert((a + b).drop_last() == a + b.drop_last());
        lemma_last_index_append(a, b.drop_last(), c);
    } else {
        assert(a + b == a);
    }
}

/// The file name of a path: the part after its last `/`.
pub open spec fn file_name_of(p: Seq<char>) -> Seq<char> {
    p.subrange(last_index(p, '/') + 1, p.len() as int)
}

/// A session file lies in the sessions directory, and its name has the
/// session id as its stem and `jsonl` as its extension, for a session id that
/// is not empty and holds no `/`.
pub proof fn law_session_path_parts(config_dir: Seq<char>, session_id: Seq<char>)
    requires
        session_id.len() > 0,
        forall|j: int| 0 <= j < session_id.len() ==> session_id[j] != '/',
    ensures
        parent_path(session_path_spec(config_dir, session_id)) == Some(sessions_dir_spec(config_dir)),
        file_name_of(session_path_spec(config_dir, session_id)) == session_id + seq!['.'] + jsonl_text(),
        name_stem(file_name_of(session_path_spec(config_dir, session_id))) == session_id,
        name_extension(file_name_of(session_path_spec(config_dir, session_id))) == Some(jsonl_text()),
{
    let sessions = seq!['s', 'e', 's', 's', 'i', 'o', 'n', 's'];
    let sd = sessions_dir_spec(config_dir);
    assert(sd.len() > 0 && sd.last() == 's') by {
        if config_dir.len() == 0 || config_dir.last() == '/' {
            assert(sd == config_dir + sessions);
        } else {
            assert(sd == config_dir + seq!['/'] + sessions);
        }
        assert(sd.last() == sessions.last());
    }
    let name = session_id + seq!['.'] + jsonl_text();
    assert(name[0] == session_id[0]);
    let p = session_path_spec(config_dir, session_id);
    assert(p == (sd + seq!['/']) + name);
    assert forall|j: int| 0 <= j < name.len() implies name[j] != '/' by {
        if j < session_id.len() {
            assert(name[j] == session_id[j]);
        }
    }
    lemma_last_index_append(sd + seq!['/'], name, '/');
    assert((sd + seq!['/']).drop_last() == sd);
    assert(last_index(sd + seq!['/'], '/') == sd.len());
    assert(last_index(p, '/') == sd.len());
    assert(p.subrange(0, sd.len() as int) == sd);
    assert(file_name_of(p) == name);
    let jl = jsonl_text();
    assert forall|j: int| 0 <= j < jl.len() implies jl[j] != '.' by {}
    lemma_last_index_append(session_id + seq!['.'], jl, '.');
    assert((session_id + seq!['.']).drop_last() == session_id);
    assert(last_index(session_id + seq!['.'], '.') == session_id.len());
    assert(last_index(name, '.') == session_id.len());
    assert(name != seq!['.', '.']);
    assert(name.subrange(0, session_id.len() as int) == session_id);
    assert(name.subrange(session_id.len() as int + 1, name.len() as int) == jl);
}

/// The hash that `BuildHasher::hash_one` gives for a string with the hasher
/// that `DefaultHasher::new` creates (fixed keys, so the same in every process
/// of a build).
pub uninterp spec fn default_str_hash(s: Seq<char>) -> u64;

/// Hashes a string with the standard library's default hasher.
///
/// Calls `BuildHasher::hash_one` on `BuildHasherDefault<DefaultHasher>`; the
/// contract only names the result, as a function of the string.
#[verifier::external_body]
fn hash_str(s: &str) -> (h: u64)
    ensures
        h == default_str_hash(s@),
{
    BuildHasherDefault::<DefaultHasher>::default().hash_one(s)
}

/// The project key of an absolute directory path: its default hash as 16
/// lower-case hexadecimal digits.
pub open spec fn project_key_spec(abs_directory: Seq<char>) -> Seq<char> {
    hex_digits(default_str_hash(abs_directory) as nat, 16)
}

/// Get the project key for a directory, given its absolute (canonical) path
///
/// The project key is derived from the absolute path of the directory.
pub fn project_key_for_directory(abs_directory: &str) -> (r: String)
    ensures
        r@ == project_key_spec(abs_directory@),
{
    hex16(hash_str(abs_directory))
}

/// Get the project key for a directory, given its absolute (canonical) path
pub fn get_project_key(abs_directory: &str) -> (r: String)
    ensures
        r@ == project_key_spec(abs_directory@),
{
    project_key_for_directory(abs_directory)
}

} // verus!
