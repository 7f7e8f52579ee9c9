//! Sequence utilities: first positions and pagination.

use vstd::prelude::*;

verus! {

/// The position of the first occurrence of `x` in `s`, or -1 when there is none.
pub open spec fn first_index<T>(s: Seq<T>, x: T) -> int
    decreases s.len(),
{
    if s.len() == 0 {
        -1
    } else if s[0] == x {
        0
    } else {
        let r = first_index(s.drop_first(), x);
        if r < 0 {
            -1
        } else {
            r + 1
        }
    }
}

/// `first_index` is the first position holding `x`, or -1 when no position does.
pub proof fn lemma_first_index<T>(s: Seq<T>, x: T)
    ensures
        first_index(s, x) == -1 <==> forall|j: int| 0 <= j < s.len() ==> s[j] != x,
        first_index(s, x) != -1 ==> {
            &&& 0 <= first_index(s, x) < s.len()
            &&& s[first_index(s, x)] == x
            &&& forall|j: int| 0 <= j < first_index(s, x) ==> s[j] != x
        },
    decreases s.len(),
{
    if s.len() > 0 && s[0] != x {
        lemma_first_index(s.drop_first(), x);
        assert forall|j: int| 0 < j < s.len() implies s[j] == s.drop_first()[j - 1] by {}
        if first_index(s, x) == -1 {
            assert forall|j: int| 0 <= j < s.len() implies s[j] != x by {
                if j > 0 {
                    assert(s[j] == s.drop_first()[j - 1]);
                }
            }
        }
    }
}

/// A position `i` that holds `x` with no earlier occurrence is the first index.
pub proof fn lemma_first_index_is<T>(s: Seq<T>, x: T, i: int)
    requires
        0 <= i < s.len(),
        s[i] == x,
        forall|j: int| 0 <= j < i ==> s[j] != x,
    ensures
        first_index(s, x) == i,
{
    lemma_first_index(s, x);
    let f = first_index(s, x);
    if f == -1 {
        assert(s[i] != x);
    } else if f < i {
        assert(s[f] != x);
    } else if f > i {
        assert(s[i] != x);
    }
}

/// The part of `s` that a pagination request selects: `offset` items (default 0)
/// are skipped and at most `limit` items (default unlimited) are kept.
pub open spec fn page<T>(s: Seq<T>, limit: Option<usize>, offset: Option<usize>) -> Seq<T> {
    let o: int = match offset {
        Some(o) => o as int,
        None => 0,
    };
    let end: int = match limit {
        Some(l) => if o + l >= s.len() {
            s.len() as int
        } else {
            o + l
        },
        None => s.len() as int,
    };
    if o >= s.len() {
        Seq::empty()
    } else {
        s.subrange(o, end)
    }
}

/// Selects the page of `v` that `limit` and `offset` describe.
pub fn page_of<T>(v: Vec<T>, limit: Option<usize>, offset: Option<usize>) -> (r: Vec<T>)
    ensures
        r@ == page(v@, limit, offset),
{
    let o: usize = match offset {
        Some(o) => o,
        None => 0,
    };
    let l: usize = match limit {
        Some(l) => l,
        None => usize::MAX,
    };
    let mut v = v;
    if o >= v.len() {
        return Vec::new();
    }
    let mut tail = v.split_off(o);
    if l < tail.len() {
        tail.truncate(l);
    }
    tail
}

} // verus!
