//! Ordering session listings: most recently modified first.

use vstd::prelude::*;
use crate::text::{
    less_than, lemma_text_lt_asymmetric, lemma_text_lt_irreflexive, lemma_text_lt_total,
    lemma_text_lt_transitive, text_lt,
};
use crate::types::{SDKSessionInfo, SessionInfoView, infos_view};

verus! {

/// Whether a listing is ordered by modification time, most recent first.
pub open spec fn recency_sorted(s: Seq<SessionInfoView>) -> bool {
    forall|i: int, j: int|
        0 <= i < j < s.len() ==> !text_lt(#[trigger] s[i].last_modified, #[trigger] s[j].last_modified)
}

/// The records of a listing that were modified at time `t`, in listing order.
pub open spec fn modified_at(s: Seq<SessionInfoView>, t: Seq<char>) -> Seq<SessionInfoView> {
    s.filter(|x: SessionInfoView| x.last_modified == t)
}

/// Whether `out` holds the records of `inp` with the records of each
/// modification time in their original order (what a stable sort keeps).
pub open spec fn stable_reordering(out: Seq<SessionInfoView>, inp: Seq<SessionInfoView>) -> bool {
    forall|t: Seq<char>| #[trigger] modified_at(out, t) == modified_at(inp, t)
}

/// The listing ordered by modification time, most recent first, records of
/// the same time in their original order: the result of a stable sort.
pub open spec fn recency_order(s: Seq<SessionInfoView>) -> Seq<SessionInfoView> {
    choose|t: Seq<SessionInfoView>| recency_sorted(t) && stable_reordering(t, s)
}

/// Appending a record adds it to the records of its own time only.
pub proof fn lemma_modified_at_push(s: Seq<SessionInfoView>, x: SessionInfoView, t: Seq<char>)
    ensures
        modified_at(s.push(x), t) == if x.last_modified == t {
            modified_at(s, t).push(x)
        } else {
            modified_at(s, t)
        },
{
    reveal(Seq::filter);
    assert(s.push(x).drop_last() == s);
}

/// A listing none of whose records were modified at `t` has no records of `t`.
pub proof fn lemma_modified_at_none(s: Seq<SessionInfoView>, t: Seq<char>)
    requires
        forall|i: int| 0 <= i < s.len() ==> #[trigger] s[i].last_modified != t,
    ensures
        modified_at(s, t) == Seq::<SessionInfoView>::empty(),
    decreases s.len(),
{
    reveal(Seq::filter);
    if s.len() > 0 {
        lemma_modified_at_none(s.drop_last(), t);
    }
}

/// Inserting `x` where every earlier record is at least as recent and every
/// later record is older keeps the listing sorted and adds `x` after the
/// records of its own time.
pub proof fn lemma_insert_by_recency(s: Seq<SessionInfoView>, x: SessionInfoView, p: int)
    requires
        recency_sorted(s),
        0 <= p <= s.len(),
        forall|i: int| 0 <= i < p ==> !text_lt(#[trigger] s[i].last_modified, x.last_modified),
        forall|i: int| p <= i < s.len() ==> text_lt(#[trigger] s[i].last_modified, x.last_modified),
    ensures
        recency_sorted(s.insert(p, x)),
        forall|t: Seq<char>|
            #[trigger] modified_at(s.insert(p, x), t) == if x.last_modified == t {
                modified_at(s, t).push(x)
            } else {
                modified_at(s, t)
            },
{
    let o = s.insert(p, x);
    let left = s.subrange(0, p);
    let right = s.subrange(p, s.len() as int);
    assert(o == left + seq![x] + right);
    assert(s == left + right);
    assert forall|i: int, j: int| 0 <= i < j < o.len() implies !text_lt(
        #[trigger] o[i].last_modified,
        #[trigger] o[j].last_modified,
    ) by {
        if i < p && j == p {
        } else if i == p {
            assert(o[j] == s[j - 1]);
            lemma_text_lt_asymmetric(s[j - 1].last_modified, x.last_modified);
        } else if j < p {
            assert(o[i] == s[i] && o[j] == s[j]);
        } else if i < p {
            assert(o[i] == s[i] && o[j] == s[j - 1]);
        } else {
            assert(o[i] == s[i - 1] && o[j] == s[j - 1]);
        }
    }
    assert forall|t: Seq<char>| #[trigger] modified_at(o, t) == if x.last_modified == t {
        modified_at(s, t).push(x)
    } else {
        modified_at(s, t)
    } by {
        let pred = |y: SessionInfoView| y.last_modified == t;
        Seq::filter_distributes_over_add(left + seq![x], right, pred);
        Seq::filter_distributes_over_add(left, seq![x], pred);
        Seq::filter_distributes_over_add(left, right, pred);
        lemma_modified_at_push(Seq::empty(), x, t);
        assert(Seq::<SessionInfoView>::empty().push(x) == seq![x]);
        assert(modified_at(Seq::empty(), t) == Seq::<SessionInfoView>::empty()) by {
            reveal(Seq::filter);
        }
        if x.last_modified == t {
            assert forall|i: int| 0 <= i < right.len() implies #[trigger] right[i].last_modified
                != t by {
                assert(right[i] == s[p + i]);
                lemma_text_lt_irreflexive(t);
            }
            lemma_modified_at_none(right, t);
            assert(modified_at(s, t) == modified_at(left, t));
            assert(modified_at(o, t) == modified_at(left, t) + seq![x]);
        } else {
            assert(modified_at(o, t) == modified_at(left, t) + modified_at(right, t));
        }
    }
}

/// The records of time `t` of a listing start with its first record when the
/// first record has time `t`, and are those of the rest otherwise.
proof fn lemma_modified_at_first(s: Seq<SessionInfoView>, t: Seq<char>)
    requires
        s.len() > 0,
    ensures
        modified_at(s, t) == if s[0].last_modified == t {
            seq![s[0]] + modified_at(s.drop_first(), t)
        } else {
            modified_at(s.drop_first(), t)
        },
{
    let pred = |y: SessionInfoView| y.last_modified == t;
    assert(s == seq![s[0]] + s.drop_first());
    Seq::filter_distributes_over_add(seq![s[0]], s.drop_first(), pred);
    reveal(Seq::filter);
    assert(seq![s[0]].drop_last() == Seq::<SessionInfoView>::empty());
    assert(Seq::<SessionInfoView>::empty().filter(pred) == Seq::<SessionInfoView>::empty());
    if s[0].last_modified == t {
        assert(seq![s[0]].filter(pred) == Seq::<SessionInfoView>::empty().push(s[0]));
        assert(Seq::<SessionInfoView>::empty().push(s[0]) == seq![s[0]]);
    } else {
        assert(seq![s[0]].filter(pred) == Seq::<SessionInfoView>::empty());
        assert(Seq::<SessionInfoView>::empty() + modified_at(s.drop_first(), t) == modified_at(
            s.drop_first(),
            t,
        ));
    }
}

/// A record of a listing is among the records of its own time.
proof fn lemma_modified_at_has(s: Seq<SessionInfoView>, i: int)
    requires
        0 <= i < s.len(),
    ensures
        modified_at(s, s[i].last_modified).contains(s[i]),
{
    let pred = |y: SessionInfoView| y.last_modified == s[i].last_modified;
    s.lemma_filter_contains(pred, i);
}

/// Each record among the records of time `t` has time `t` and is in the listing.
proof fn lemma_modified_at_member(s: Seq<SessionInfoView>, t: Seq<char>, x: SessionInfoView)
    requires
        modified_at(s, t).contains(x),
    ensures
        x.last_modified == t,
        s.contains(x),
{
    let pred = |y: SessionInfoView| y.last_modified == t;
    s.lemma_filter_contains_rev(pred, x);
    let w = choose|w: int| 0 <= w < modified_at(s, t).len() && modified_at(s, t)[w] == x;
    s.lemma_filter_pred(pred, w);
}

/// Two listings that are both ordered by recency and hold the same records of
/// each time, in the same order, are the same listing: the order a stable
/// sort by recency produces is unique.
pub proof fn law_recency_order_unique(a: Seq<SessionInfoView>, b: Seq<SessionInfoView>)
    requires
        recency_sorted(a),
        recency_sorted(b),
        stable_reordering(a, b),
    ensures
        a == b,
    decreases a.len() + b.len(),
{
    if a.len() == 0 || b.len() == 0 {
        if a.len() > 0 {
            lemma_modified_at_has(a, 0);
            assert(modified_at(b, a[0].last_modified) == modified_at(a, a[0].last_modified));
            assert(b.len() == 0);
            assert(modified_at(b, a[0].last_modified) == Seq::<SessionInfoView>::empty()) by {
                reveal(Seq::filter);
            }
        } else if b.len() > 0 {
            lemma_modified_at_has(b, 0);
            assert(modified_at(b, b[0].last_modified) == modified_at(a, b[0].last_modified));
            assert(modified_at(a, b[0].last_modified) == Seq::<SessionInfoView>::empty()) by {
                reveal(Seq::filter);
            }
        } else {
            assert(a =~= b);
        }
    } else {
        let x = a[0];
        let y = b[0];
        // the first records have the same time
        lemma_modified_at_has(b, 0);
        assert(modified_at(a, y.last_modified) == modified_at(b, y.last_modified));
        lemma_modified_at_member(a, y.last_modified, y);
        let ja = choose|j: int| 0 <= j < a.len() && a[j] == y;
        if ja > 0 {
            assert(!text_lt(a[0].last_modified, a[ja].last_modified));
        }
        lemma_modified_at_has(a, 0);
        assert(modified_at(b, x.last_modified) == modified_at(a, x.last_modified));
        lemma_modified_at_member(b, x.last_modified, x);
        let jb = choose|j: int| 0 <= j < b.len() && b[j] == x;
        if jb > 0 {
            assert(!text_lt(b[0].last_modified, b[jb].last_modified));
        }
        lemma_text_lt_total(x.last_modified, y.last_modified);
        let t0 = x.last_modified;
        assert(t0 == y.last_modified);
        // so they are the same record
        lemma_modified_at_first(a, t0);
        lemma_modified_at_first(b, t0);
        assert((seq![x] + modified_at(a.drop_first(), t0))[0] == x);
        assert((seq![y] + modified_at(b.drop_first(), t0))[0] == y);
        assert(x == y);
        // and the rests correspond
        let a1 = a.drop_first();
        let b1 = b.drop_first();
        assert forall|t: Seq<char>| #[trigger] modified_at(a1, t) == modified_at(b1, t) by {
            lemma_modified_at_first(a, t);
            lemma_modified_at_first(b, t);
            assert(modified_at(a, t) == modified_at(b, t));
            if t == t0 {
                assert((seq![x] + modified_at(a1, t)).drop_first() == modified_at(a1, t));
                assert((seq![x] + modified_at(b1, t)).drop_first() == modified_at(b1, t));
            }
        }
        assert forall|i: int, j: int| 0 <= i < j < a1.len() implies !text_lt(
            #[trigger] a1[i].last_modified,
            #[trigger] a1[j].last_modified,
        ) by {
            assert(a1[i] == a[i + 1] && a1[j] == a[j + 1]);
        }
        assert forall|i: int, j: int| 0 <= i < j < b1.len() implies !text_lt(
            #[trigger] b1[i].last_modified,
            #[trigger] b1[j].last_modified,
        ) by {
            assert(b1[i] == b[i + 1] && b1[j] == b[j + 1]);
        }
        law_recency_order_unique(a1, b1);
        assert(a == seq![x] + a1);
        assert(b == seq![y] + b1);
    }
}

/// Orders session records by modification time, most recent first, keeping
/// the original order of records with the same time (a stable sort).
pub fn sort_by_recency(infos: Vec<SDKSessionInfo>) -> (r: Vec<SDKSessionInfo>)
    ensures
        recency_sorted(infos_view(r@)),
        stable_reordering(infos_view(r@), infos_view(infos@)),
        infos_view(r@) == recency_order(infos_view(infos@)),
        r@.len() == (recency_order(infos_view(infos@))).len(),
        forall|i: int| 0 <= i < r@.len() ==> #[trigger] r@[i]@ == (recency_order(infos_view(infos@)))[i],
{
    let ghost inp = infos_view(infos@);
    let mut out: Vec<SDKSessionInfo> = Vec::new();
    let ghost all = infos@;
    assert(infos_view(out@) =~= infos_view(all.subrange(0, 0)));
    for x in it: infos
        invariant
            it.seq() == all,
            inp == infos_view(all),
            recency_sorted(infos_view(out@)),
            stable_reordering(infos_view(out@), infos_view(all.subrange(0, it.index() as int))),
    {
        let ghost idx = it.index();
        let ghost o = infos_view(out@);
        let ghost xv = x@;
        let mut p: usize = 0;
        while p < out.len() && !less_than(&out[p].last_modified, &x.last_modified)
            invariant
                0 <= p <= out@.len(),
                o == infos_view(out@),
                xv == x@,
                forall|i: int| 0 <= i < p ==> !text_lt(#[trigger] o[i].last_modified, xv.last_modified),
            decreases out.len() - p,
        {
            p = p + 1;
        }
        proof {
            assert forall|i: int| p <= i < o.len() implies text_lt(
                #[trigger] o[i].last_modified,
                xv.last_modified,
            ) by {
                assert(text_lt(o[p as int].last_modified, xv.last_modified));
                if i > p {
                    assert(!text_lt(o[p as int].last_modified, o[i].last_modified));
                    lemma_text_lt_total(o[p as int].last_modified, o[i].last_modified);
                    if o[i].last_modified != o[p as int].last_modified {
                        lemma_text_lt_transitive(
                            o[i].last_modified,
                            o[p as int].last_modified,
                            xv.last_modified,
                        );
                    }
                }
            }
            lemma_insert_by_recency(o, xv, p as int);
            assert(infos_view(all.subrange(0, idx + 1)) == infos_view(all.subrange(0, idx as int)).push(
                xv,
            ));
            assert forall|t: Seq<char>| #[trigger] modified_at(infos_view(all.subrange(0, idx + 1)), t)
                == if xv.last_modified == t {
                modified_at(infos_view(all.subrange(0, idx as int)), t).push(xv)
            } else {
                modified_at(infos_view(all.subrange(0, idx as int)), t)
            } by {
                lemma_modified_at_push(infos_view(all.subrange(0, idx as int)), xv, t);
            }
        }
        out.insert(p, x);
        proof {
            assert(infos_view(out@) == o.insert(p as int, xv));
        }
    }
    proof {
        assert(all.subrange(0, all.len() as int) == all);
        let o = infos_view(out@);
        assert(recency_sorted(o) && stable_reordering(o, inp));
        let c = recency_order(inp);
        assert(recency_sorted(c) && stable_reordering(c, inp));
        assert(stable_reordering(c, o));
        law_recency_order_unique(c, o);
    }
    out
}

} // verus!
