//! The JSON text of a transcript entry, as a session file holds it and as the
//! batcher measures it: an object with the `type`, `uuid` and `timestamp`
//! fields followed by the entry's data members, each string and value
//! rendered by `serde_json`.

use vstd::prelude::*;
use vstd::utf8::encode_utf8;
use crate::json::{JsonModel, JsonValue, json_text, json_text_of};
use crate::types::{EntryView, SessionStoreEntry};

verus! {

/// The JSON text of a string.
pub open spec fn str_text(s: Seq<char>) -> Seq<char> {
    json_text_of(JsonModel::Str(s))
}

/// The members of an object after its first fields: `,"key":value` for each,
/// in order.
pub open spec fn members_text(m: Seq<(Seq<char>, JsonModel)>) -> Seq<char>
    decreases m.len(),
{
    if m.len() == 0 {
        Seq::empty()
    } else {
        members_text(m.drop_last()) + ","@ + str_text(m.last().0) + ":"@ + json_text_of(m.last().1)
    }
}

/// The JSON text of an entry: `{"type":..,"uuid":..,"timestamp":..` followed by
/// its data members in order, then `}`.
pub open spec fn entry_json_spec(e: EntryView) -> Seq<char> {
    "{\"type\":"@ + str_text(e.entry_type) + ",\"uuid\":"@ + str_text(e.uuid) + ",\"timestamp\":"@
        + str_text(e.timestamp) + members_text(e.data) + "}"@
}

/// The size in bytes of an entry's JSON text (`str::len` of it).
pub open spec fn entry_json_size(e: EntryView) -> usize {
    encode_utf8(entry_json_spec(e)).len() as usize
}

/// Appends the JSON text of a string.
fn push_str_text(out: &mut String, s: &String)
    ensures
        final(out)@ == old(out)@ + str_text(s@),
{
    let t = json_text(&JsonValue::String(s.clone()));
    out.append(t.as_str());
}

/// The JSON text of an entry.
pub fn entry_json(e: &SessionStoreEntry) -> (r: String)
    ensures
        r@ == entry_json_spec(e@),
{
    let mut out = String::new();
    out.append("{\"type\":");
    push_str_text(&mut out, &e.entry_type);
    out.append(",\"uuid\":");
    push_str_text(&mut out, &e.uuid);
    out.append(",\"timestamp\":");
    push_str_text(&mut out, &e.timestamp);
    let ghost head = out@;
    let ghost data = e@.data;
    let mut i: usize = 0;
    proof {
        crate::json::lemma_members_model_index(e.data@);
    }
    while i < e.data.len()
        invariant
            0 <= i <= e.data@.len(),
            data == e@.data,
            data.len() == e.data@.len(),
            forall|j: int| 0 <= j < e.data@.len() ==> #[trigger] data[j] == (e.data@[j].key@,
                crate::json::value_model(e.data@[j].value)),
            out@ == head + members_text(data.subrange(0, i as int)),
        decreases e.data.len() - i,
    {
        out.append(",");
        push_str_text(&mut out, &e.data[i].key);
        out.append(":");
        let v = json_text(&e.data[i].value);
        out.append(v.as_str());
        proof {
            let pre = data.subrange(0, i as int);
            let next = data.subrange(0, i + 1);
            assert(next.drop_last() == pre);
            assert(next.last() == data[i as int]);
        }
        i = i + 1;
    }
    proof {
        assert(data.subrange(0, data.len() as int) == data);
    }
    out.append("}");
    out
}

/// The size in bytes of an entry's JSON text.
pub fn entry_json_len(e: &SessionStoreEntry) -> (n: usize)
    ensures
        n == entry_json_size(e@),
{
    entry_json(e).as_str().len()
}

} // verus!
