//! Transcript mirror batcher: accumulates entries per session and writes them
//! to a store in bulk when a threshold is reached.

use dashmap::DashMap;
use vstd::prelude::*;
use crate::maps::{
    entries_count, entries_keys, entries_len, entries_map, entries_put, entries_take, key_views,
    new_entries_map, new_sizes_map, sizes_get, sizes_map, sizes_put,
};
use crate::encoding::{entry_json_len, entry_json_size};
use crate::store::SessionStore;
use crate::types::{EntryView, SessionError, SessionKey, SessionKeyView, SessionStoreEntry, entries_view};

verus! {

/// Default threshold for number of entries before flush
pub const DEFAULT_FLUSH_THRESHOLD: usize = 500;

/// Default threshold for size in bytes before flush
pub const DEFAULT_SIZE_THRESHOLD: usize = 1048576;

/// The number of entries in all the transcripts of a finite map.
pub open spec fn map_total(m: Map<SessionKeyView, Seq<EntryView>>) -> nat
    decreases m.dom().len(),
    when m.dom().finite()
{
    if m.dom().len() == 0 {
        0
    } else {
        let k = m.dom().choose();
        m[k].len() + map_total(m.remove(k))
    }
}

/// The total counts the transcript of any one key, plus the rest.
pub proof fn lemma_map_total_remove(m: Map<SessionKeyView, Seq<EntryView>>, k: SessionKeyView)
    requires
        m.dom().finite(),
        m.contains_key(k),
    ensures
        map_total(m) == m[k].len() + map_total(m.remove(k)),
    decreases m.dom().len(),
{
    let c = m.dom().choose();
    assert(m.dom().contains(c));
    if c != k {
        let mc = m.remove(c);
        let mk = m.remove(k);
        assert(mc.dom().len() == m.dom().len() - 1);
        lemma_map_total_remove(mc, k);
        lemma_map_total_remove(mk, c);
        assert(mc.remove(k) =~= mk.remove(c));
    }
}

/// Setting the transcript of a key changes the total by the difference in length.
pub proof fn lemma_map_total_insert(
    m: Map<SessionKeyView, Seq<EntryView>>,
    k: SessionKeyView,
    v: Seq<EntryView>,
)
    requires
        m.dom().finite(),
    ensures
        map_total(m.insert(k, v)) + (if m.contains_key(k) {
            m[k].len()
        } else {
            0
        }) == map_total(m) + v.len(),
{
    let n = m.insert(k, v);
    lemma_map_total_remove(n, k);
    assert(n.remove(k) =~= m.remove(k));
    if m.contains_key(k) {
        lemma_map_total_remove(m, k);
    } else {
        assert(m.remove(k) =~= m);
    }
}

/// A map whose transcripts are all empty has a total of zero.
pub proof fn lemma_map_total_zero(m: Map<SessionKeyView, Seq<EntryView>>)
    requires
        m.dom().finite(),
        forall|k: SessionKeyView| #[trigger] m.contains_key(k) ==> m[k].len() == 0,
    ensures
        map_total(m) == 0,
    decreases m.dom().len(),
{
    if m.dom().len() > 0 {
        let c = m.dom().choose();
        assert(m.dom().contains(c));
        lemma_map_total_zero(m.remove(c));
    }
}

/// TranscriptMirrorBatcher accumulates entries and flushes them in batches.
///
/// An entry appended to the batcher waits until its session reaches a
/// threshold (entry count or accumulated size) or is flushed explicitly; a
/// flush hands the waiting entries of a session to the store in order.
pub struct TranscriptMirrorBatcher<S: SessionStore> {
    /// The underlying session store
    store: S,
    /// Pending entries grouped by session key
    pending: DashMap<SessionKey, Vec<SessionStoreEntry>>,
    /// Pending size in bytes per session
    pending_size: DashMap<SessionKey, usize>,
    /// Number of pending entries across all sessions
    total: usize,
    /// Threshold for number of entries before flush
    flush_threshold: usize,
    /// Threshold for size in bytes before flush
    size_threshold: usize,
}

impl<S: SessionStore> TranscriptMirrorBatcher<S> {
    /// The store the batcher writes to.
    pub closed spec fn store_view(&self) -> S {
        self.store
    }

    /// The sessions that have a batch (possibly an empty one after a flush).
    pub closed spec fn pending_keys(&self) -> Set<SessionKeyView> {
        entries_map(self.pending).dom()
    }

    /// The sessions whose batch holds at least one entry.
    pub open spec fn nonempty_batches(&self) -> Set<SessionKeyView> {
        self.pending_keys().filter(|k: SessionKeyView| self.pending_of(k).len() > 0)
    }

    /// The entries waiting for `key`, oldest first.
    pub closed spec fn pending_of(&self, key: SessionKeyView) -> Seq<EntryView> {
        if entries_map(self.pending).contains_key(key) {
            entries_map(self.pending)[key]
        } else {
            Seq::empty()
        }
    }

    /// The accumulated size of the entries waiting for `key`.
    pub closed spec fn pending_bytes(&self, key: SessionKeyView) -> nat {
        if sizes_map(self.pending_size).contains_key(key) {
            sizes_map(self.pending_size)[key] as nat
        } else {
            0
        }
    }

    /// The number of entries waiting across all sessions.
    pub closed spec fn total_pending(&self) -> nat {
        map_total(entries_map(self.pending))
    }

    /// The entry-count threshold.
    pub closed spec fn flush_threshold_of(&self) -> usize {
        self.flush_threshold
    }

    /// The size threshold.
    pub closed spec fn size_threshold_of(&self) -> usize {
        self.size_threshold
    }

    /// Well-formedness: the batches are finitely many, and the counter holds
    /// the number of waiting entries.
    pub closed spec fn wf(&self) -> bool {
        &&& entries_map(self.pending).dom().finite()
        &&& self.total == map_total(entries_map(self.pending))
    }

    /// The total pending count is the sum of the pending counts of the
    /// sessions, and it is zero exactly when no session has a pending entry.
    pub proof fn law_total_pending(&self)
        requires
            self.wf(),
        ensures
            self.total_pending() == map_total(
                Map::new(|k: SessionKeyView| self.pending_keys().contains(k), |k: SessionKeyView| self.pending_of(k)),
            ),
            self.total_pending() == 0 <==> forall|k: SessionKeyView| #[trigger] self.pending_of(k).len() == 0,
    {
        let m = entries_map(self.pending);
        assert(Map::new(|k: SessionKeyView| self.pending_keys().contains(k), |k: SessionKeyView| self.pending_of(k)) =~= m);
        if forall|k: SessionKeyView| #[trigger] self.pending_of(k).len() == 0 {
            assert forall|k: SessionKeyView| #[trigger] m.contains_key(k) implies m[k].len() == 0 by {
                assert(self.pending_of(k).len() == 0);
            }
            lemma_map_total_zero(m);
        } else {
            let k = choose|k: SessionKeyView| self.pending_of(k).len() != 0;
            assert(m.contains_key(k));
            lemma_map_total_remove(m, k);
        }
    }

    /// Create a new batcher with the given store and default thresholds
    pub fn new(store: S) -> (r: Self)
        ensures
            r.wf(),
            r.store_view() == store,
            r.pending_keys() == Set::<SessionKeyView>::empty(),
            r.total_pending() == 0,
            forall|k: SessionKeyView| #[trigger] r.pending_of(k) == Seq::<EntryView>::empty(),
            forall|k: SessionKeyView| #[trigger] r.pending_bytes(k) == 0,
            r.flush_threshold_of() == DEFAULT_FLUSH_THRESHOLD,
            r.size_threshold_of() == DEFAULT_SIZE_THRESHOLD,
    {
        Self::with_thresholds(store, DEFAULT_FLUSH_THRESHOLD, DEFAULT_SIZE_THRESHOLD)
    }

    /// Create a new batcher with custom thresholds
    pub fn with_thresholds(store: S, flush_threshold: usize, size_threshold: usize) -> (r: Self)
        ensures
            r.wf(),
            r.store_view() == store,
            r.pending_keys() == Set::<SessionKeyView>::empty(),
            r.total_pending() == 0,
            forall|k: SessionKeyView| #[trigger] r.pending_of(k) == Seq::<EntryView>::empty(),
            forall|k: SessionKeyView| #[trigger] r.pending_bytes(k) == 0,
            r.flush_threshold_of() == flush_threshold,
            r.size_threshold_of() == size_threshold,
    {
        let r = TranscriptMirrorBatcher {
            store,
            pending: new_entries_map(),
            pending_size: new_sizes_map(),
            total: 0,
            flush_threshold,
            size_threshold,
        };
        proof {
            assert(entries_map(r.pending).dom() =~= Set::<SessionKeyView>::empty());
        }
        r
    }

    /// The store the batcher writes to.
    pub fn store(&self) -> (r: &S)
        ensures
            *r == self.store_view(),
    {
        &self.store
    }

    /// Takes the waiting entries of `key` out of the batcher, leaving an empty
    /// batch, and resets its size when it has one.
    fn take_batch(&mut self, session_key: &SessionKey) -> (r: Vec<SessionStoreEntry>)
        requires
            old(self).wf(),
        ensures
            final(self).wf(),
            entries_view(r@) == old(self).pending_of(session_key@),
            final(self).store == old(self).store,
            final(self).flush_threshold == old(self).flush_threshold,
            final(self).size_threshold == old(self).size_threshold,
            final(self).pending_of(session_key@) == Seq::<EntryView>::empty(),
            final(self).pending_bytes(session_key@) == 0,
            forall|k: SessionKeyView|
                k != session_key@ ==> #[trigger] final(self).pending_of(k) == old(self).pending_of(k),
            forall|k: SessionKeyView|
                k != session_key@ ==> #[trigger] final(self).pending_bytes(k) == old(
                    self,
                ).pending_bytes(k),
            final(self).pending_keys() == old(self).pending_keys().insert(session_key@),
            final(self).total_pending() + old(self).pending_of(session_key@).len() == old(
                self,
            ).total_pending(),
    {
        let ghost m0 = entries_map(self.pending);
        let drained = match entries_take(&mut self.pending, session_key) {
            Some(v) => v,
            None => Vec::new(),
        };
        let empty: Vec<SessionStoreEntry> = Vec::new();
        proof {
            assert(entries_view(empty@) =~= Seq::<EntryView>::empty());
        }
        entries_put(&mut self.pending, session_key.clone(), empty);
        proof {
            let m1 = entries_map(self.pending);
            assert(m1 == m0.remove(session_key@).insert(session_key@, Seq::<EntryView>::empty()));
            assert(m1 =~= m0.insert(session_key@, Seq::<EntryView>::empty()));
            lemma_map_total_insert(m0, session_key@, Seq::<EntryView>::empty());
            assert(m1.dom() =~= m0.dom().insert(session_key@));
        }
        let n = drained.len();
        self.total = self.total - n;
        match sizes_get(&self.pending_size, session_key) {
            Some(_) => {
                sizes_put(&mut self.pending_size, session_key.clone(), 0);
            },
            None => {},
        }
        drained
    }

    /// Flush all pending entries for a specific session key
    ///
    /// The waiting entries of the session are taken out of the batcher first
    /// and then written to the store one by one, stopping at the first error.
    #[verifier::loop_isolation(false)]
    pub fn flush_for_key(&mut self, session_key: &SessionKey) -> (r: Result<(), SessionError>)
        requires
            old(self).wf(),
        ensures
            final(self).wf(),
            final(self).pending_of(session_key@) == Seq::<EntryView>::empty(),
            final(self).pending_bytes(session_key@) == 0,
            forall|k: SessionKeyView|
                k != session_key@ ==> #[trigger] final(self).pending_of(k) == old(self).pending_of(k),
            forall|k: SessionKeyView|
                k != session_key@ ==> #[trigger] final(self).pending_bytes(k) == old(
                    self,
                ).pending_bytes(k),
            final(self).pending_keys() == old(self).pending_keys().insert(session_key@),
            final(self).total_pending() + old(self).pending_of(session_key@).len() == old(
                self,
            ).total_pending(),
            final(self).flush_threshold_of() == old(self).flush_threshold_of(),
            final(self).size_threshold_of() == old(self).size_threshold_of(),
            old(self).pending_of(session_key@).len() == 0 ==> r is Ok && final(self).store_view()
                == old(self).store_view(),
            old(self).store_view().infallible() ==> r is Ok,
            final(self).store_view().infallible() == old(self).store_view().infallible(),
            r is Ok ==> final(self).store_view().transcript(session_key@) == old(
                self,
            ).store_view().transcript(session_key@) + old(self).pending_of(session_key@),
            r is Ok ==> forall|k: SessionKeyView|
                k != session_key@ ==> #[trigger] final(self).store_view().transcript(k) == old(
                    self,
                ).store_view().transcript(k),
            r is Ok ==> forall|k: SessionKeyView| #[trigger]
                final(self).store_view().transcript(k) + final(self).pending_of(k) == old(
                    self,
                ).store_view().transcript(k) + old(self).pending_of(k),
    {
        let drained = self.take_batch(session_key);
        let ghost after_take = *self;
        if drained.len() == 0 {
            return Ok(());
        }
        let ghost start = self.store;
        let ghost before = start.transcript(session_key@);
        let ghost taken = entries_view(drained@);
        for e in it: drained
            invariant
                self.pending == after_take.pending,
                self.pending_size == after_take.pending_size,
                self.total == after_take.total,
                self.flush_threshold == old(self).flush_threshold,
                self.size_threshold == old(self).size_threshold,
                it.seq() == drained@,
                taken == entries_view(drained@),
                self.store.infallible() == start.infallible(),
                self.store.transcript(session_key@) == before + taken.subrange(0, it.index() as int),
                forall|k: SessionKeyView|
                    k != session_key@ ==> #[trigger] self.store.transcript(k) == start.transcript(k),
        {
            let ghost j = it.index();
            match self.store.append(session_key, e) {
                Ok(()) => {
                    proof {
                        assert(taken.subrange(0, j + 1) == taken.subrange(0, j as int).push(e@));
                    }
                },
                Err(err) => {
                    proof {
                        assert forall|k: SessionKeyView|
                            #![trigger self.pending_of(k)]
                            #![trigger self.pending_bytes(k)]
                            self.pending_of(k) == after_take.pending_of(k) && self.pending_bytes(k)
                                == after_take.pending_bytes(k) by {}
                    }
                    return Err(err);
                },
            }
        }
        proof {
            assert(taken.subrange(0, taken.len() as int) == taken);
            assert forall|k: SessionKeyView|
                #![trigger self.pending_of(k)]
                #![trigger self.pending_bytes(k)]
                self.pending_of(k) == after_take.pending_of(k) && self.pending_bytes(k)
                    == after_take.pending_bytes(k) by {}
        }
        Ok(())
    }

    /// Append an entry to the batch
    ///
    /// The entry's size is the length in bytes of its JSON text.  When the
    /// session's waiting entries reach the entry-count threshold or their
    /// accumulated size reaches the size threshold, the session is flushed.
    pub fn append(&mut self, session_key: SessionKey, entry: SessionStoreEntry) -> (r: Result<
        (),
        SessionError,
    >)
        requires
            old(self).wf(),
            old(self).total_pending() < usize::MAX,
            old(self).pending_bytes(session_key@) + entry_json_size(entry@) <= usize::MAX,
        ensures
            final(self).wf(),
            final(self).flush_threshold_of() == old(self).flush_threshold_of(),
            final(self).size_threshold_of() == old(self).size_threshold_of(),
            final(self).pending_keys() == old(self).pending_keys().insert(session_key@),
            forall|k: SessionKeyView|
                k != session_key@ ==> #[trigger] final(self).pending_of(k) == old(self).pending_of(k),
            forall|k: SessionKeyView|
                k != session_key@ ==> #[trigger] final(self).pending_bytes(k) == old(
                    self,
                ).pending_bytes(k),
            old(self).store_view().infallible() ==> r is Ok,
            final(self).store_view().infallible() == old(self).store_view().infallible(),
            r is Ok ==> final(self).store_view().transcript(session_key@) + final(self).pending_of(
                session_key@,
            ) == old(self).store_view().transcript(session_key@) + old(self).pending_of(
                session_key@,
            ).push(entry@),
            ({
                let grown = old(self).pending_of(session_key@).push(entry@);
                let bytes = old(self).pending_bytes(session_key@) + entry_json_size(entry@);
                let due = grown.len() >= old(self).flush_threshold_of() || bytes >= old(
                    self,
                ).size_threshold_of();
                &&& !due ==> {
                    &&& r is Ok
                    &&& final(self).total_pending() == old(self).total_pending() + 1
                    &&& final(self).pending_of(session_key@) == grown
                    &&& final(self).pending_bytes(session_key@) == bytes
                    &&& final(self).store_view() == old(self).store_view()
                }
                &&& due ==> {
                    &&& final(self).total_pending() + old(self).pending_of(session_key@).len()
                        == old(self).total_pending()
                    &&& final(self).pending_of(session_key@) == Seq::<EntryView>::empty()
                    &&& final(self).pending_bytes(session_key@) == 0
                    &&& r is Ok ==> final(self).store_view().transcript(session_key@) == old(
                        self,
                    ).store_view().transcript(session_key@) + grown
                    &&& r is Ok ==> forall|k: SessionKeyView|
                        k != session_key@ ==> #[trigger] final(self).store_view().transcript(k)
                            == old(self).store_view().transcript(k)
                }
            }),
    {
        let entry_size = entry_json_len(&entry);
        let ghost m0 = entries_map(self.pending);
        let ghost e = entry@;
        let ghost old_pending = self.pending_of(session_key@);
        // Use the batch of the key, starting one when there is none
        let mut entries = match entries_take(&mut self.pending, &session_key) {
            Some(v) => v,
            None => Vec::new(),
        };
        proof {
            assert(entries_view(entries@) =~= old_pending);
        }
        entries.push(entry);
        let count = entries.len();
        proof {
            assert(entries_view(entries@) =~= old_pending.push(e));
        }
        entries_put(&mut self.pending, session_key.clone(), entries);
        proof {
            let m1 = entries_map(self.pending);
            assert(m1 =~= m0.insert(session_key@, old_pending.push(e)));
            lemma_map_total_insert(m0, session_key@, old_pending.push(e));
        }
        self.total = self.total + 1;
        // Update size tracking
        let size = match sizes_get(&self.pending_size, &session_key) {
            Some(s) => s,
            None => 0,
        };
        let new_size = size + entry_size;
        sizes_put(&mut self.pending_size, session_key.clone(), new_size);
        // Check if we should flush
        if count >= self.flush_threshold || new_size >= self.size_threshold {
            return self.flush_for_key(&session_key);
        }
        Ok(())
    }

    /// Flush all pending entries across all sessions, stopping at the first error
    pub fn flush(&mut self) -> (r: Result<(), SessionError>)
        requires
            old(self).wf(),
        ensures
            final(self).wf(),
            final(self).flush_threshold_of() == old(self).flush_threshold_of(),
            final(self).size_threshold_of() == old(self).size_threshold_of(),
            final(self).pending_keys() == old(self).pending_keys(),
            old(self).store_view().infallible() ==> r is Ok,
            final(self).store_view().infallible() == old(self).store_view().infallible(),
            r is Ok ==> final(self).total_pending() == 0,
            r is Ok ==> forall|k: SessionKeyView| #[trigger]
                final(self).pending_of(k) == Seq::<EntryView>::empty(),
            r is Ok ==> forall|k: SessionKeyView| #[trigger]
                final(self).store_view().transcript(k) == old(self).store_view().transcript(k) + old(
                    self,
                ).pending_of(k),
            r is Ok ==> forall|k: SessionKeyView| #[trigger]
                final(self).store_view().transcript(k) + final(self).pending_of(k) == old(
                    self,
                ).store_view().transcript(k) + old(self).pending_of(k),
    {
        // Collect all keys by iterating
        let keys = entries_keys(&self.pending);
        let ghost ks = key_views(keys@);
        let n = keys.len();
        let mut j: usize = 0;
        while j < n
            invariant
                0 <= j <= n,
                n == keys@.len(),
                ks == key_views(keys@),
                ks.no_duplicates(),
                forall|k: SessionKeyView| #[trigger] ks.contains(k) == old(self).pending_keys().contains(k),
                self.wf(),
                self.pending_keys() == old(self).pending_keys(),
                self.store_view().infallible() == old(self).store_view().infallible(),
                self.flush_threshold_of() == old(self).flush_threshold_of(),
                self.size_threshold_of() == old(self).size_threshold_of(),
                forall|m: int|
                    0 <= m < j ==> #[trigger] self.pending_of(ks[m]) == Seq::<EntryView>::empty(),
                forall|k: SessionKeyView|
                    !ks.subrange(0, j as int).contains(k) ==> #[trigger] self.pending_of(k) == old(
                        self,
                    ).pending_of(k),
                forall|k: SessionKeyView| #[trigger]
                    self.store_view().transcript(k) == old(self).store_view().transcript(k) + (if ks.subrange(
                        0,
                        j as int,
                    ).contains(k) {
                        old(self).pending_of(k)
                    } else {
                        Seq::<EntryView>::empty()
                    }),
            decreases n - j,
        {
            let ghost before = *self;
            let ghost k = ks[j as int];
            let ghost done = ks.subrange(0, j as int);
            let ghost next = ks.subrange(0, j + 1);
            proof {
                assert(ks.contains(k));
                assert(!done.contains(k)) by {
                    if done.contains(k) {
                        let w = choose|w: int| 0 <= w < done.len() && done[w] == k;
                        assert(ks[w] == ks[j as int]);
                    }
                }
                assert forall|x: SessionKeyView| #[trigger] next.contains(x) == (done.contains(x) || x == k) by {
                    if next.contains(x) {
                        let w = choose|w: int| 0 <= w < next.len() && next[w] == x;
                        if w < j {
                            assert(done[w] == x);
                        }
                    }
                    if done.contains(x) {
                        let w = choose|w: int| 0 <= w < done.len() && done[w] == x;
                        assert(next[w] == x);
                    }
                    if x == k {
                        assert(next[j as int] == x);
                    }
                }
            }
            match self.flush_for_key(&keys[j]) {
                Ok(()) => {},
                Err(err) => {
                    return Err(err);
                },
            }
            proof {
                assert(self.pending_keys() =~= old(self).pending_keys());
                assert forall|m: int| 0 <= m < j + 1 implies #[trigger] self.pending_of(ks[m])
                    == Seq::<EntryView>::empty() by {
                    if m < j {
                        assert(ks[m] != k);
                    }
                }
                assert forall|x: SessionKeyView| #[trigger]
                    self.store_view().transcript(x) == old(self).store_view().transcript(x) + (if next.contains(x) {
                        old(self).pending_of(x)
                    } else {
                        Seq::<EntryView>::empty()
                    }) by {
                    if x == k {
                        assert(before.pending_of(k) == old(self).pending_of(k));
                        assert(old(self).store_view().transcript(k) + Seq::<EntryView>::empty() == old(
                            self,
                        ).store_view().transcript(k));
                    }
                }
            }
            j = j + 1;
        }
        proof {
            assert(ks.subrange(0, n as int) == ks);
            assert forall|k: SessionKeyView| #[trigger] self.pending_of(k) == Seq::<EntryView>::empty() by {
                if !ks.contains(k) {
                    assert(!old(self).pending_keys().contains(k));
                    assert(old(self).pending_of(k) == Seq::<EntryView>::empty());
                } else {
                    let w = choose|w: int| 0 <= w < ks.len() && ks[w] == k;
                    assert(self.pending_of(ks[w]) == Seq::<EntryView>::empty());
                }
            }
            assert forall|k: SessionKeyView| #[trigger] entries_map(self.pending).contains_key(k) implies entries_map(
                self.pending,
            )[k].len() == 0 by {
                assert(self.pending_of(k) == Seq::<EntryView>::empty());
            }
            lemma_map_total_zero(entries_map(self.pending));
            assert forall|k: SessionKeyView| #[trigger]
                self.store_view().transcript(k) == old(self).store_view().transcript(k) + old(self).pending_of(k) by {
                if !ks.contains(k) {
                    assert(old(self).pending_of(k) == Seq::<EntryView>::empty());
                    assert(old(self).store_view().transcript(k) + Seq::<EntryView>::empty() == old(
                        self,
                    ).store_view().transcript(k));
                }
            }
        }
        Ok(())
    }

    /// Shutdown the batcher, flushing all pending entries
    pub fn shutdown(&mut self) -> (r: Result<(), SessionError>)
        requires
            old(self).wf(),
        ensures
            final(self).wf(),
            final(self).pending_keys() == old(self).pending_keys(),
            old(self).store_view().infallible() ==> r is Ok,
            r is Ok ==> final(self).total_pending() == 0,
            r is Ok ==> forall|k: SessionKeyView| #[trigger]
                final(self).store_view().transcript(k) == old(self).store_view().transcript(k) + old(
                    self,
                ).pending_of(k),
    {
        self.flush()
    }

    /// Get the number of pending entries for a session
    pub fn pending_count(&self, session_key: &SessionKey) -> (r: usize)
        ensures
            r == self.pending_of(session_key@).len(),
    {
        match entries_count(&self.pending, session_key) {
            Some(n) => n,
            None => 0,
        }
    }

    /// Get the accumulated size in bytes of the pending entries of a session
    pub fn pending_size(&self, session_key: &SessionKey) -> (r: usize)
        ensures
            r == self.pending_bytes(session_key@),
    {
        match sizes_get(&self.pending_size, session_key) {
            Some(n) => n,
            None => 0,
        }
    }

    /// Get total pending entry count across all sessions
    pub fn total_pending_count(&self) -> (r: usize)
        requires
            self.wf(),
        ensures
            r == self.total_pending(),
    {
        self.total
    }

    /// Get the number of sessions with pending entries
    pub fn pending_session_count(&self) -> (r: usize)
        ensures
            r == self.nonempty_batches().len(),
    {
        let keys = entries_keys(&self.pending);
        let ghost ks = key_views(keys@);
        let ghost mut counted: Set<SessionKeyView> = Set::empty();
        let n = keys.len();
        let mut c: usize = 0;
        let mut j: usize = 0;
        while j < n
            invariant
                0 <= c <= j <= n,
                n == keys@.len(),
                ks == key_views(keys@),
                ks.no_duplicates(),
                forall|k: SessionKeyView| #[trigger] ks.contains(k) == self.pending_keys().contains(k),
                counted.finite(),
                c == counted.len(),
                forall|k: SessionKeyView| #[trigger]
                    counted.contains(k) == (ks.subrange(0, j as int).contains(k)
                        && self.pending_of(k).len() > 0),
            decreases n - j,
        {
            let ghost k = ks[j as int];
            let ghost done = ks.subrange(0, j as int);
            let ghost next = ks.subrange(0, j + 1);
            let waiting = match entries_count(&self.pending, &keys[j]) {
                Some(m) => m,
                None => 0,
            };
            proof {
                assert(keys@[j as int]@ == k);
                assert(ks.contains(k));
                assert(waiting == self.pending_of(k).len());
                assert(!done.contains(k)) by {
                    if done.contains(k) {
                        let w = choose|w: int| 0 <= w < done.len() && done[w] == k;
                        assert(ks[w] == ks[j as int]);
                    }
                }
                assert forall|x: SessionKeyView| #[trigger] next.contains(x) == (done.contains(x) || x == k) by {
                    if next.contains(x) {
                        let w = choose|w: int| 0 <= w < next.len() && next[w] == x;
                        if w < j {
                            assert(done[w] == x);
                        }
                    }
                    if done.contains(x) {
                        let w = choose|w: int| 0 <= w < done.len() && done[w] == x;
                        assert(next[w] == x);
                    }
                    if x == k {
                        assert(next[j as int] == x);
                    }
                }
            }
            if waiting > 0 {
                proof {
                    assert(!counted.contains(k));
                    counted = counted.insert(k);
                }
                c = c + 1;
            }
            j = j + 1;
        }
        proof {
            assert(ks.subrange(0, n as int) == ks);
            assert(counted =~= self.nonempty_batches());
        }
        c
    }
}

} // verus!
