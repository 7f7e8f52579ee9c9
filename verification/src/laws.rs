//! Properties of the session store that span several operations.

use vstd::prelude::*;
use crate::api::{entry_info_spec, key_of, listed_infos};
use crate::encoding::{entry_json_spec, members_text};
use crate::json::{
    JsonModel, assoc_get, assoc_index, assoc_insert, json_as_str, json_get, json_text_model,
    json_text_of,
};
use crate::paths::name_stem;
use crate::sessions::{file_info_spec, present};
use crate::store::SessionStore;
use crate::types::{EntryView, SessionInfoView};
use crate::memory::{listed_ids, listing_add, listing_remove, subkeys_add};
use crate::mutations::{
    fork_lines_spec, is_v4_uuid_text, line_uuid, lines_through_uuid, renamed_members, v4_byte, v4_hex,
    v4_uuid_text,
};
use crate::paths::project_key_spec;
use crate::seqs::{first_index, lemma_first_index, page};
use crate::sessions::distinct_in_order;
use crate::text::{hex_digit, hex_digits, text_lt};

verus! {

/// Pages are contiguous: the first `n` items followed by everything after the
/// first `n` items is the whole sequence.
pub proof fn law_pages_split<T>(s: Seq<T>, n: usize)
    ensures
        page(s, Some(n), None) + page(s, None, Some(n)) == s,
{
    if n >= s.len() {
        assert(page(s, Some(n), None) == s.subrange(0, s.len() as int));
        assert(s.subrange(0, s.len() as int) == s);
        assert(page(s, None, Some(n)) == Seq::<T>::empty());
        assert(s + Seq::<T>::empty() == s);
    } else {
        assert(page(s, Some(n), None) == s.subrange(0, n as int));
        assert(page(s, None, Some(n)) == s.subrange(n as int, s.len() as int));
        assert(s.subrange(0, n as int) + s.subrange(n as int, s.len() as int) =~= s);
    }
}

/// A page holds at most `limit` items, taken in order from position `offset`.
pub proof fn law_page_shape<T>(s: Seq<T>, limit: Option<usize>, offset: Option<usize>)
    ensures
        limit matches Some(l) ==> page(s, limit, offset).len() <= l,
        forall|i: int|
            0 <= i < page(s, limit, offset).len() ==> #[trigger] page(s, limit, offset)[i] == s[i
                + match offset {
                Some(o) => o as int,
                None => 0,
            }],
{
}

/// A position that holds the key with no earlier position holding it is
/// where a lookup finds the key.
proof fn lemma_assoc_index_is(m: Seq<(Seq<char>, JsonModel)>, k: Seq<char>, p: int)
    requires
        0 <= p < m.len(),
        m[p].0 == k,
        forall|j: int| 0 <= j < p ==> #[trigger] m[j].0 != k,
    ensures
        assoc_index(m, k) == p,
{
    crate::json::lemma_assoc_index(m, k);
    let f = assoc_index(m, k);
    if f == -1 {
        assert(m[p].0 != k);
    } else if f < p {
        assert(m[f].0 != k);
    } else if f > p {
        assert(m[p].0 != k);
    }
}

/// A key that no position holds is not found.
proof fn lemma_assoc_index_absent(m: Seq<(Seq<char>, JsonModel)>, k: Seq<char>)
    requires
        forall|j: int| 0 <= j < m.len() ==> #[trigger] m[j].0 != k,
    ensures
        assoc_index(m, k) == -1,
{
    crate::json::lemma_assoc_index(m, k);
    if assoc_index(m, k) != -1 {
        assert(m[assoc_index(m, k)].0 != k);
    }
}

/// Reading a member after setting it gives the value set, and setting a member
/// leaves every other member as it was.
pub proof fn law_member_insert_then_get(
    m: Seq<(Seq<char>, JsonModel)>,
    k: Seq<char>,
    v: JsonModel,
    other: Seq<char>,
)
    ensures
        assoc_get(assoc_insert(m, k, v), k) == Some(v),
        other != k ==> assoc_get(assoc_insert(m, k, v), other) == assoc_get(m, other),
{
    crate::json::lemma_assoc_index(m, k);
    crate::json::lemma_assoc_index(m, other);
    let i = assoc_index(m, k);
    let g = assoc_index(m, other);
    let n = assoc_insert(m, k, v);
    if i < 0 {
        assert forall|j: int| 0 <= j < m.len() implies #[trigger] n[j].0 != k by {
            assert(n[j] == m[j]);
        }
        lemma_assoc_index_is(n, k, m.len() as int);
        if other != k {
            if g >= 0 {
                assert forall|j: int| 0 <= j < g implies #[trigger] n[j].0 != other by {
                    assert(n[j] == m[j]);
                }
                assert(n[g] == m[g]);
                lemma_assoc_index_is(n, other, g);
            } else {
                assert forall|j: int| 0 <= j < n.len() implies #[trigger] n[j].0 != other by {
                    if j < m.len() {
                        assert(n[j] == m[j]);
                    }
                }
                lemma_assoc_index_absent(n, other);
            }
        }
    } else {
        assert forall|j: int| 0 <= j < i implies #[trigger] n[j].0 != k by {
            assert(n[j] == m[j]);
        }
        lemma_assoc_index_is(n, k, i);
        if other != k {
            if g >= 0 {
                assert(g != i);
                assert forall|j: int| 0 <= j < g implies #[trigger] n[j].0 != other by {
                    if j != i {
                        assert(n[j] == m[j]);
                    }
                }
                assert(n[g] == m[g]);
                lemma_assoc_index_is(n, other, g);
            } else {
                assert forall|j: int| 0 <= j < n.len() implies #[trigger] n[j].0 != other by {
                    if j != i {
                        assert(n[j] == m[j]);
                    }
                }
                lemma_assoc_index_absent(n, other);
            }
        }
    }
}

/// After a rename the title is the custom title, the summary is the title
/// when there was a summary and stays absent otherwise, and every other
/// member is unchanged.
pub proof fn law_rename_sets_title(m: Seq<(Seq<char>, JsonModel)>, title: Seq<char>, other: Seq<char>)
    ensures
        assoc_get(renamed_members(m, title), "custom_title"@) == Some(JsonModel::Str(title)),
        assoc_get(m, "summary"@) is Some ==> assoc_get(renamed_members(m, title), "summary"@)
            == Some(JsonModel::Str(title)),
        assoc_get(m, "summary"@) is None ==> assoc_get(renamed_members(m, title), "summary"@) is None,
        other != "summary"@ && other != "custom_title"@ ==> assoc_get(
            renamed_members(m, title),
            other,
        ) == assoc_get(m, other),
{
    reveal_strlit("summary");
    reveal_strlit("custom_title");
    assert("summary"@ != "custom_title"@) by {
        assert("summary"@.len() != "custom_title"@.len());
    }
    let m1 = assoc_insert(m, "custom_title"@, JsonModel::Str(title));
    law_member_insert_then_get(m, "custom_title"@, JsonModel::Str(title), "summary"@);
    law_member_insert_then_get(m, "custom_title"@, JsonModel::Str(title), other);
    crate::json::lemma_assoc_index(m1, "summary"@);
    if assoc_index(m1, "summary"@) >= 0 {
        law_member_insert_then_get(m1, "summary"@, JsonModel::Str(title), "custom_title"@);
        law_member_insert_then_get(m1, "summary"@, JsonModel::Str(title), other);
    }
}

/// Recording a listing entry keeps session ids distinct, and the session is
/// then listed with the entry's modification time.
pub proof fn law_listing_add(s: Seq<(Seq<char>, Seq<char>)>, e: (Seq<char>, Seq<char>))
    requires
        listed_ids(s).no_duplicates(),
    ensures
        listed_ids(listing_add(s, e)).no_duplicates(),
        listing_add(s, e).contains(e),
        listing_add(s, e).len() == s.len() + if listed_ids(s).contains(e.0) {
            0int
        } else {
            1int
        },
{
    let ids = listed_ids(s);
    lemma_first_index(ids, e.0);
    let i = first_index(ids, e.0);
    let t = listing_add(s, e);
    if i < 0 {
        assert(listed_ids(t) == ids.push(e.0));
        assert(t[s.len() as int] == e);
        assert(!ids.contains(e.0));
    } else {
        assert(listed_ids(t) =~= ids);
        assert(t[i] == e);
        assert(ids[i] == e.0);
    }
}

/// Deleting a session twice leaves its project's listing as deleting it once
/// does (the transcript and the subkeys of the session are empty after either).
pub proof fn law_delete_idempotent(s: Seq<(Seq<char>, Seq<char>)>, id: Seq<char>)
    ensures
        listing_remove(listing_remove(s, id), id) == listing_remove(s, id),
    decreases s.len(),
{
    if s.len() > 0 {
        let d = s.drop_last();
        let x = s.last();
        let p = crate::memory::of_other_session(id);
        law_delete_idempotent(d, id);
        assert(s == d.push(x));
        d.lemma_filter_push(x, p);
        d.filter(p).lemma_filter_push(x, p);
    } else {
        reveal(Seq::filter);
        assert(listing_remove(s, id) =~= s);
    }
}

/// Recording a subkey keeps the subkeys distinct and makes it present.
pub proof fn law_subkeys_add(s: Seq<Seq<char>>, k: Seq<char>)
    requires
        s.no_duplicates(),
    ensures
        subkeys_add(s, k).no_duplicates(),
        subkeys_add(s, k).contains(k),
{
    if !s.contains(k) {
        assert(s.push(k)[s.len() as int] == k);
    }
}

/// The distinct subagents are distinct and are exactly the subagents seen.
pub proof fn law_distinct_in_order(s: Seq<Seq<char>>)
    ensures
        distinct_in_order(s).no_duplicates(),
        forall|x: Seq<char>| #[trigger] distinct_in_order(s).contains(x) == s.contains(x),
    decreases s.len(),
{
    if s.len() > 0 {
        let p = s.drop_last();
        law_distinct_in_order(p);
        let d = distinct_in_order(p);
        assert forall|x: Seq<char>| #[trigger] distinct_in_order(s).contains(x) == s.contains(x) by {
            if s.contains(x) && x != s.last() {
                let w = choose|w: int| 0 <= w < s.len() && s[w] == x;
                assert(p[w] == x);
            }
            if p.contains(x) {
                let w = choose|w: int| 0 <= w < p.len() && p[w] == x;
                assert(s[w] == x);
            }
            if !d.contains(s.last()) && x == s.last() {
                assert(d.push(s.last())[d.len() as int] == x);
            }
            if !d.contains(s.last()) && d.push(s.last()).contains(x) && x != s.last() {
                let w = choose|w: int| 0 <= w < d.len() + 1 && d.push(s.last())[w] == x;
                assert(d[w] == x);
            }
            if !d.contains(s.last()) && d.contains(x) {
                let w = choose|w: int| 0 <= w < d.len() && d[w] == x;
                assert(d.push(s.last())[w] == x);
            }
            assert(s[s.len() - 1] == s.last());
        }
    }
}

/// The lines a fork copies are a prefix of the session's lines.
pub proof fn law_fork_copies_prefix(s: Seq<Seq<char>>, up_to_message_id: Option<Seq<char>>)
    ensures
        fork_lines_spec(s, up_to_message_id).len() <= s.len(),
        fork_lines_spec(s, up_to_message_id) == s.subrange(
            0,
            fork_lines_spec(s, up_to_message_id).len() as int,
        ),
{
    match up_to_message_id {
        Some(stop) => {
            lemma_through_uuid_prefix(s, stop);
        },
        None => {
            assert(s.subrange(0, s.len() as int) == s);
        },
    }
}

/// A fork up to a message copies the lines through the first line that has
/// the message's id, and copies every line when no line has it.
pub proof fn law_fork_stops_at_message(s: Seq<Seq<char>>, stop: Seq<char>, i: int)
    ensures
        0 <= i < s.len() && line_uuid(s[i]) == Some(stop) && (forall|j: int|
            0 <= j < i ==> line_uuid(#[trigger] s[j]) != Some(stop)) ==> fork_lines_spec(
            s,
            Some(stop),
        ).len() == i + 1,
        (forall|j: int| 0 <= j < s.len() ==> line_uuid(#[trigger] s[j]) != Some(stop))
            ==> fork_lines_spec(s, Some(stop)) == s,
{
    if 0 <= i < s.len() && line_uuid(s[i]) == Some(stop) && (forall|j: int|
        0 <= j < i ==> line_uuid(#[trigger] s[j]) != Some(stop)) {
        lemma_through_first_hit(s, stop, i);
    }
    if forall|j: int| 0 <= j < s.len() ==> line_uuid(#[trigger] s[j]) != Some(stop) {
        lemma_through_no_hit(s, stop);
    }
}

proof fn lemma_through_first_hit(s: Seq<Seq<char>>, stop: Seq<char>, i: int)
    requires
        0 <= i < s.len(),
        line_uuid(s[i]) == Some(stop),
        forall|j: int| 0 <= j < i ==> line_uuid(#[trigger] s[j]) != Some(stop),
    ensures
        lines_through_uuid(s, stop).len() == i + 1,
    decreases i,
{
    if i > 0 {
        let t = s.drop_first();
        assert(line_uuid(s[0]) != Some(stop));
        assert(t[i - 1] == s[i]);
        assert forall|j: int| 0 <= j < i - 1 implies line_uuid(#[trigger] t[j]) != Some(stop) by {
            assert(t[j] == s[j + 1]);
        }
        lemma_through_first_hit(t, stop, i - 1);
    }
}

proof fn lemma_through_no_hit(s: Seq<Seq<char>>, stop: Seq<char>)
    requires
        forall|j: int| 0 <= j < s.len() ==> line_uuid(#[trigger] s[j]) != Some(stop),
    ensures
        lines_through_uuid(s, stop) == s,
    decreases s.len(),
{
    if s.len() > 0 {
        let t = s.drop_first();
        assert(line_uuid(s[0]) != Some(stop));
        assert forall|j: int| 0 <= j < t.len() implies line_uuid(#[trigger] t[j]) != Some(stop) by {
            assert(t[j] == s[j + 1]);
        }
        lemma_through_no_hit(t, stop);
        assert(s =~= seq![s[0]] + t);
    }
}

proof fn lemma_through_uuid_prefix(s: Seq<Seq<char>>, stop: Seq<char>)
    ensures
        lines_through_uuid(s, stop).len() <= s.len(),
        lines_through_uuid(s, stop) == s.subrange(0, lines_through_uuid(s, stop).len() as int),
    decreases s.len(),
{
    if s.len() > 0 {
        if line_uuid(s[0]) == Some(stop) {
            assert(s.subrange(0, 1) =~= seq![s[0]]);
        } else {
            let t = s.drop_first();
            lemma_through_uuid_prefix(t, stop);
            let r = lines_through_uuid(t, stop);
            assert(s.subrange(0, r.len() as int + 1) =~= seq![s[0]] + t.subrange(0, r.len() as int));
        }
    }
}

/// The hexadecimal text of bytes `from..to`: two digits per byte, the high
/// half first.
proof fn lemma_v4_hex(b: Seq<u8>, from: int, to: int)
    requires
        b.len() == 16,
        0 <= from <= to <= 16,
    ensures
        v4_hex(b, from, to).len() == 2 * (to - from),
        forall|k: int|
            from <= k < to ==> {
                &&& #[trigger] v4_hex(b, from, to)[2 * (k - from)] == hex_digit(v4_byte(b, k) / 16)
                &&& v4_hex(b, from, to)[2 * (k - from) + 1] == hex_digit(v4_byte(b, k) % 16)
            },
    decreases to - from,
{
    if from < to {
        lemma_v4_hex(b, from + 1, to);
        let h = seq![hex_digit(v4_byte(b, from) / 16), hex_digit(v4_byte(b, from) % 16)];
        let rest = v4_hex(b, from + 1, to);
        assert forall|k: int| from <= k < to implies {
            &&& #[trigger] v4_hex(b, from, to)[2 * (k - from)] == hex_digit(v4_byte(b, k) / 16)
            &&& v4_hex(b, from, to)[2 * (k - from) + 1] == hex_digit(v4_byte(b, k) % 16)
        } by {
            if k > from {
                assert(v4_hex(b, from, to)[2 * (k - from)] == rest[2 * (k - (from + 1))]);
                assert(v4_hex(b, from, to)[2 * (k - from) + 1] == rest[2 * (k - (from + 1)) + 1]);
            }
        }
    }
}

/// Every digit of the hexadecimal text is a lower-case hexadecimal digit.
proof fn lemma_v4_hex_digits(b: Seq<u8>, from: int, to: int)
    requires
        b.len() == 16,
        0 <= from <= to <= 16,
    ensures
        forall|j: int|
            0 <= j < v4_hex(b, from, to).len() ==> ('0' <= #[trigger] v4_hex(b, from, to)[j] <= '9')
                || ('a' <= v4_hex(b, from, to)[j] <= 'f'),
{
    lemma_v4_hex(b, from, to);
    assert forall|j: int| 0 <= j < v4_hex(b, from, to).len() implies ('0' <= #[trigger] v4_hex(
        b,
        from,
        to,
    )[j] <= '9') || ('a' <= v4_hex(b, from, to)[j] <= 'f') by {
        let k = from + j / 2;
        let d = v4_byte(b, k);
        assert(0 <= d < 256);
        assert(0 <= d / 16 < 16 && 0 <= d % 16 < 16);
        if j % 2 == 0 {
            assert(j == 2 * (k - from));
            assert(v4_hex(b, from, to)[2 * (k - from)] == hex_digit(d / 16));
        } else {
            assert(j == 2 * (k - from) + 1);
            assert(v4_hex(b, from, to)[2 * (k - from)] == hex_digit(d / 16));
            assert(v4_hex(b, from, to)[2 * (k - from) + 1] == hex_digit(d % 16));
        }
    }
}

/// The id of a fork is a version-4 UUID in hyphenated lower-case form,
/// whatever the random bytes.
pub proof fn law_fork_id_is_v4(b: Seq<u8>)
    requires
        b.len() == 16,
    ensures
        is_v4_uuid_text(v4_uuid_text(b)),
{
    lemma_v4_hex(b, 0, 4);
    lemma_v4_hex(b, 4, 6);
    lemma_v4_hex(b, 6, 8);
    lemma_v4_hex(b, 8, 10);
    lemma_v4_hex(b, 10, 16);
    lemma_v4_hex_digits(b, 0, 4);
    lemma_v4_hex_digits(b, 4, 6);
    lemma_v4_hex_digits(b, 6, 8);
    lemma_v4_hex_digits(b, 8, 10);
    lemma_v4_hex_digits(b, 10, 16);
    let t = v4_uuid_text(b);
    let g0 = v4_hex(b, 0, 4);
    let g1 = v4_hex(b, 4, 6);
    let g2 = v4_hex(b, 6, 8);
    let g3 = v4_hex(b, 8, 10);
    let g4 = v4_hex(b, 10, 16);
    assert(t == g0 + seq!['-'] + g1 + seq!['-'] + g2 + seq!['-'] + g3 + seq!['-'] + g4);
    assert(t.len() == 36);
    assert forall|i: int| 0 <= i < 36 implies if i == 8 || i == 13 || i == 18 || i == 23 {
        #[trigger] t[i] == '-'
    } else {
        ('0' <= t[i] <= '9') || ('a' <= t[i] <= 'f')
    } by {
        if i < 8 {
            assert(t[i] == g0[i]);
        } else if i == 8 {
        } else if i < 13 {
            assert(t[i] == g1[i - 9]);
        } else if i == 13 {
        } else if i < 18 {
            assert(t[i] == g2[i - 14]);
        } else if i == 18 {
        } else if i < 23 {
            assert(t[i] == g3[i - 19]);
        } else if i == 23 {
        } else {
            assert(t[i] == g4[i - 24]);
        }
    }
    assert(t[14] == g2[0]);
    assert(g2[2 * (6 - 6)] == hex_digit(v4_byte(b, 6) / 16));
    assert(v4_byte(b, 6) / 16 == 4);
    assert(t[19] == g3[0]);
    assert(g3[2 * (8 - 8)] == hex_digit(v4_byte(b, 8) / 16));
    assert(8 <= v4_byte(b, 8) / 16 <= 11);
}

/// A project key is 16 lower-case hexadecimal digits.
pub proof fn law_project_key_shape(abs_directory: Seq<char>)
    ensures
        project_key_spec(abs_directory).len() == 16,
        forall|i: int|
            0 <= i < 16 ==> ('0' <= #[trigger] project_key_spec(abs_directory)[i] <= '9') || ('a'
                <= project_key_spec(abs_directory)[i] <= 'f'),
{
    lemma_hex_digits_shape(crate::paths::default_str_hash(abs_directory) as nat, 16);
}

proof fn lemma_hex_digits_shape(x: nat, n: nat)
    ensures
        hex_digits(x, n).len() == n,
        forall|i: int|
            0 <= i < n ==> ('0' <= #[trigger] hex_digits(x, n)[i] <= '9') || ('a' <= hex_digits(
                x,
                n,
            )[i] <= 'f'),
    decreases n,
{
    if n > 0 {
        lemma_hex_digits_shape(x / 16, (n - 1) as nat);
        let d = (x % 16) as int;
        assert(0 <= d < 16);
        assert(hex_digits(x, n)[n - 1] == hex_digit(d));
    }
}

/// Texts are compared lexicographically, whatever their lengths: at the first
/// position where two texts differ the one with the smaller character is
/// below, and a proper prefix is below the longer text.
pub proof fn law_text_lt_lexicographic(a: Seq<char>, b: Seq<char>, i: int)
    ensures
        0 <= i < a.len() && i < b.len() && a.subrange(0, i) == b.subrange(0, i) && (a[i] as int) < (
        b[i] as int) ==> text_lt(a, b),
        a.len() < b.len() && a == b.subrange(0, a.len() as int) ==> text_lt(a, b),
    decreases a.len(),
{
    if 0 <= i < a.len() && i < b.len() && a.subrange(0, i) == b.subrange(0, i) && (a[i] as int) < (
    b[i] as int) {
        if i > 0 {
            assert(a[0] == a.subrange(0, i)[0]);
            assert(b[0] == b.subrange(0, i)[0]);
            assert(a.drop_first().subrange(0, i - 1) =~= b.drop_first().subrange(0, i - 1)) by {
                assert forall|j: int| 0 <= j < i - 1 implies a.drop_first()[j] == b.drop_first()[j] by {
                    assert(a.subrange(0, i)[j + 1] == b.subrange(0, i)[j + 1]);
                }
            }
            law_text_lt_lexicographic(a.drop_first(), b.drop_first(), i - 1);
        }
    }
    if a.len() < b.len() && a == b.subrange(0, a.len() as int) {
        if a.len() > 0 {
            assert(a[0] == b[0]);
            assert(a.drop_first() =~= b.drop_first().subrange(0, a.len() - 1));
            law_text_lt_lexicographic(a.drop_first(), b.drop_first(), -1);
        }
    }
}

/// Each present value comes from an element of the sequence.
proof fn lemma_present_from<T>(s: Seq<Option<T>>, k: int)
    requires
        0 <= k < present(s).len(),
    ensures
        exists|j: int| 0 <= j < s.len() && s[j] == Some(present(s)[k]),
    decreases s.len(),
{
    let d = s.drop_last();
    match s.last() {
        Some(x) => {
            if k < present(d).len() {
                lemma_present_from(d, k);
                let j = choose|j: int| 0 <= j < d.len() && d[j] == Some(present(d)[k]);
                assert(s[j] == d[j]);
            } else {
                assert(s[s.len() - 1] == Some(present(s)[k]));
            }
        },
        None => {
            lemma_present_from(d, k);
            let j = choose|j: int| 0 <= j < d.len() && d[j] == Some(present(d)[k]);
            assert(s[j] == d[j]);
        },
    }
}

/// Every session that a store-backed listing describes is a listed session
/// of the project with entries, described by the first of its entries (and
/// by its listing's modification time).
pub proof fn law_listed_infos_from_first_entry<S: SessionStore>(store: S, project_key: Seq<char>, k: int)
    requires
        0 <= k < listed_infos(store, project_key).len(),
    ensures
        exists|j: int|
            0 <= j < store.session_list(project_key).len() && {
                let e = #[trigger] store.session_list(project_key)[j];
                let t = store.transcript(key_of(project_key, e.0));
                &&& t.len() > 0
                &&& listed_infos(store, project_key)[k] == entry_info_spec(e.0, e.1, t[0])
            },
{
    let l = store.session_list(project_key);
    assert(page(l, None, None) == l) by {
        if l.len() > 0 {
            assert(l.subrange(0, l.len() as int) == l);
        }
    }
    let f = |e: (Seq<char>, Seq<char>)|
        {
            let t = store.transcript(key_of(project_key, e.0));
            if t.len() > 0 {
                Some(entry_info_spec(e.0, e.1, t[0]))
            } else {
                None
            }
        };
    let m = l.map_values(f);
    assert(listed_infos(store, project_key) == present(m));
    lemma_present_from(m, k);
    let j = choose|j: int| 0 <= j < m.len() && m[j] == Some(present(m)[k]);
    assert(m[j] == f(l[j]));
}

/// Each present element of the sequence is among the present values.
proof fn lemma_present_to<T>(s: Seq<Option<T>>, j: int)
    requires
        0 <= j < s.len(),
        s[j] is Some,
    ensures
        exists|k: int| 0 <= k < present(s).len() && Some(present(s)[k]) == s[j],
    decreases s.len(),
{
    let d = s.drop_last();
    if j == s.len() - 1 {
        let k = present(s).len() - 1;
        assert(Some(present(s)[k]) == s[j]);
    } else {
        assert(d[j] == s[j]);
        lemma_present_to(d, j);
        let k = choose|k: int| 0 <= k < present(d).len() && Some(present(d)[k]) == d[j];
        match s.last() {
            Some(x) => {
                assert(present(s) == present(d).push(x));
                assert(present(s)[k] == present(d)[k]);
            },
            None => {
                assert(present(s) == present(d));
            },
        }
        assert(Some(present(s)[k]) == s[j]);
    }
}

/// Every listed session of the project that has entries is described in a
/// store-backed listing, by the first of its entries.
pub proof fn law_listed_infos_complete<S: SessionStore>(store: S, project_key: Seq<char>, j: int)
    requires
        0 <= j < store.session_list(project_key).len(),
        store.transcript(key_of(project_key, store.session_list(project_key)[j].0)).len() > 0,
    ensures
        ({
            let e = store.session_list(project_key)[j];
            let t = store.transcript(key_of(project_key, e.0));
            exists|k: int|
                0 <= k < listed_infos(store, project_key).len() && #[trigger] listed_infos(
                    store,
                    project_key,
                )[k] == entry_info_spec(e.0, e.1, t[0])
        }),
{
    let l = store.session_list(project_key);
    assert(page(l, None, None) == l) by {
        assert(l.subrange(0, l.len() as int) == l);
    }
    let f = |e: (Seq<char>, Seq<char>)|
        {
            let t = store.transcript(key_of(project_key, e.0));
            if t.len() > 0 {
                Some(entry_info_spec(e.0, e.1, t[0]))
            } else {
                None
            }
        };
    let m = l.map_values(f);
    assert(listed_infos(store, project_key) == present(m));
    assert(m[j] == f(l[j]));
    lemma_present_to(m, j);
    let k = choose|k: int| 0 <= k < present(m).len() && Some(present(m)[k]) == m[j];
    assert(listed_infos(store, project_key)[k] == present(m)[k]);
}

/// The session information of a session's first entry reads each field from
/// the entry: the id and the modification time given, the creation time the
/// entry's timestamp, and every other field the data member of its own name
/// (a string, or for the size a non-negative integer; empty or 0 or absent
/// otherwise).
pub proof fn law_entry_info_fields(session_id: Seq<char>, last_modified: Seq<char>, first: EntryView)
    ensures
        ({
            let i = entry_info_spec(session_id, last_modified, first);
            let d = first.data;
            &&& i.session_id == session_id
            &&& i.last_modified == last_modified
            &&& i.created_at == first.timestamp
            &&& i.summary == match json_as_str(assoc_get(d, "summary"@)) {
                Some(x) => x,
                None => Seq::<char>::empty(),
            }
            &&& i.file_size == match assoc_get(d, "file_size"@) {
                Some(JsonModel::PosInt(n)) => n,
                _ => 0u64,
            }
            &&& i.custom_title == json_as_str(assoc_get(d, "custom_title"@))
            &&& i.first_prompt == json_as_str(assoc_get(d, "first_prompt"@))
            &&& i.git_branch == json_as_str(assoc_get(d, "git_branch"@))
            &&& i.cwd == json_as_str(assoc_get(d, "cwd"@))
            &&& i.tag == json_as_str(assoc_get(d, "tag"@))
        }),
{
}

/// The string field `key` of a JSON text's value, when the text is a JSON
/// value with such a field.
pub open spec fn text_field(text: Option<Seq<char>>, key: Seq<char>) -> Option<Seq<char>> {
    match text {
        Some(t) => match json_text_model(t) {
            Some(v) => json_as_str(json_get(v, key)),
            None => None,
        },
        None => None,
    }
}

/// The session information of a session file reads each field from the file:
/// the id is the stem of the file's name (`unknown` without one), the size is
/// the file's size, and every other field is the string field of its own name
/// in the first line's JSON (empty or absent otherwise).
pub proof fn law_file_info_fields(file_name: Option<Seq<char>>, first_line: Option<Seq<char>>, file_size: u64)
    ensures
        ({
            let i = file_info_spec(file_name, first_line, file_size);
            &&& i.session_id == match file_name {
                Some(n) => name_stem(n),
                None => "unknown"@,
            }
            &&& i.file_size == file_size
            &&& i.summary == match text_field(first_line, "summary"@) {
                Some(x) => x,
                None => Seq::<char>::empty(),
            }
            &&& i.last_modified == match text_field(first_line, "last_modified"@) {
                Some(x) => x,
                None => Seq::<char>::empty(),
            }
            &&& i.created_at == match text_field(first_line, "created_at"@) {
                Some(x) => x,
                None => Seq::<char>::empty(),
            }
            &&& i.custom_title == text_field(first_line, "custom_title"@)
            &&& i.first_prompt == text_field(first_line, "first_prompt"@)
            &&& i.git_branch == text_field(first_line, "git_branch"@)
            &&& i.cwd == text_field(first_line, "cwd"@)
            &&& i.tag == text_field(first_line, "tag"@)
        }),
{
}

/// The text of one data member in an entry's JSON text: `,"key":value`.
pub open spec fn member_text(member: (Seq<char>, JsonModel)) -> Seq<char> {
    ","@ + json_text_of(JsonModel::Str(member.0)) + ":"@ + json_text_of(member.1)
}

proof fn lemma_members_text_flatten(m: Seq<(Seq<char>, JsonModel)>)
    ensures
        members_text(m) == m.map_values(|p: (Seq<char>, JsonModel)| member_text(p)).flatten(),
    decreases m.len(),
{
    let f = |p: (Seq<char>, JsonModel)| member_text(p);
    if m.len() > 0 {
        let d = m.drop_last();
        lemma_members_text_flatten(d);
        assert(m.map_values(f) =~= d.map_values(f).push(f(m.last())));
        d.map_values(f).lemma_flatten_push(f(m.last()));
    } else {
        assert(m.map_values(f) =~= Seq::<Seq<char>>::empty());
    }
}

/// The JSON text of an entry holds its `type`, `uuid` and `timestamp` fields
/// and then every one of its data members, whatever its value, in order and
/// nothing else: the texts of the members, one after the other.
pub proof fn law_entry_json_holds_every_member(e: EntryView)
    ensures
        entry_json_spec(e) == "{\"type\":"@ + json_text_of(JsonModel::Str(e.entry_type)) + ",\"uuid\":"@
            + json_text_of(JsonModel::Str(e.uuid)) + ",\"timestamp\":"@ + json_text_of(
            JsonModel::Str(e.timestamp),
        ) + e.data.map_values(|p: (Seq<char>, JsonModel)| member_text(p)).flatten() + "}"@,
        forall|i: int|
            0 <= i < e.data.len() ==> e.data.map_values(|p: (Seq<char>, JsonModel)| member_text(p))[i]
                == #[trigger] member_text(e.data[i]),
{
    lemma_members_text_flatten(e.data);
}

} // verus!

