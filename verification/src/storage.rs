//! The storage engine adapter: an in-memory implementation of the
//! durable log/metadata contract. It persists log entries, hard state,
//! configuration state and the latest snapshot, enforces the
//! contiguous-index/non-decreasing-term log invariant, and implements
//! the conflicting-suffix truncation rule of `append`.

use vstd::prelude::*;

use crate::errors::CoreError;
use crate::types::{
    conf_wf_check, entries_wf, ConfState, HardState, LogEntry, Snapshot, SnapshotMeta,
};

verus! {

/// Element-wise sameness of two entries (payloads compared by view).
pub open spec fn entry_equiv(a: LogEntry, b: LogEntry) -> bool {
    a.is_entry(b.index, b.term, b.kind, b.payload@)
}

/// Element-wise sameness of two entry sequences.
pub open spec fn entries_equiv(a: Seq<LogEntry>, b: Seq<LogEntry>) -> bool {
    a.len() == b.len() && forall|i: int| 0 <= i < a.len() ==> entry_equiv(#[trigger] a[i], b[i])
}

/// Copies one entry, payload included.
pub fn clone_entry(e: &LogEntry) -> (r: LogEntry)
    ensures
        entry_equiv(r, *e),
{
    LogEntry {
        index: e.index,
        term: e.term,
        kind: e.kind,
        payload: crate::codec::clone_bytes(&e.payload),
    }
}

/// One node's store. Entries below `offset` have been discarded after
/// a covering snapshot became durable; `offset_term` remembers the
/// term at the boundary so appends right after it can be checked.
pub struct MemStorage {
    pub offset: u64,
    pub offset_term: u64,
    pub entries: Vec<LogEntry>,
    pub hs: HardState,
    pub cs: ConfState,
    pub snap: Snapshot,
}

impl MemStorage {
    /// Index of the lowest retained entry.
    pub open spec fn first_index_spec(self) -> int {
        self.offset + 1
    }

    /// Index of the highest stored entry; `offset` itself when empty.
    pub open spec fn last_index_spec(self) -> int {
        self.offset + self.entries@.len()
    }

    /// The term of the entry at `i`, with the boundary remembered.
    pub open spec fn term_at_spec(self, i: int) -> u64 {
        if i == self.offset {
            self.offset_term
        } else {
            self.entries@[i - self.offset - 1].term
        }
    }

    /// Everything every operation preserves: a gapless log with
    /// non-decreasing terms rooted at the compaction boundary, a hard
    /// state no older than the log, a snapshot covering no more than
    /// the commit, and well-formed configurations.
    pub open spec fn wf(self) -> bool {
        &&& entries_wf(self.entries@)
        &&& self.offset + self.entries@.len() < u64::MAX
        &&& self.entries@.len() > 0 ==> self.entries@[0].index == self.offset + 1
        &&& self.entries@.len() > 0 ==> self.entries@[0].term >= self.offset_term
        &&& self.entries@.len() > 0 ==> self.hs.term >= self.entries@.last().term
        &&& self.hs.term >= self.offset_term
        &&& self.offset <= self.snap.meta.index
        &&& self.snap.meta.index <= self.hs.commit
        &&& self.hs.commit <= self.last_index_spec()
        &&& self.cs.wf()
        &&& self.snap.meta.conf_state.wf()
    }

    /// A fresh store for a bootstrapping node: empty log, zero hard
    /// state, the given configuration, and an empty snapshot.
    pub fn fresh(conf: ConfState) -> (r: MemStorage)
        requires
            conf.wf(),
        ensures
            r.wf(),
            r.entries@.len() == 0,
            r.offset == 0,
            r.offset_term == 0,
            r.hs == (HardState { term: 0, vote: 0, commit: 0 }),
            r.cs == conf,
            r.snap.meta.index == 0,
    {
        MemStorage {
            offset: 0,
            offset_term: 0,
            entries: Vec::new(),
            hs: HardState { term: 0, vote: 0, commit: 0 },
            cs: conf,
            snap: Snapshot {
                meta: SnapshotMeta { index: 0, term: 0, conf_state: ConfState::empty() },
                data: Vec::new(),
            },
        }
    }

    /// Lowest retained entry index: one past the compacted prefix.
    pub fn first_index(&self) -> (r: u64)
        requires
            self.wf(),
        ensures
            r == self.first_index_spec(),
    {
        self.offset + 1
    }

    /// Highest stored entry index; `first_index() - 1` when empty.
    pub fn last_index(&self) -> (r: u64)
        requires
            self.wf(),
        ensures
            r == self.last_index_spec(),
    {
        self.offset + self.entries.len() as u64
    }

    /// The term of the entry at `i`; an error outside the retained
    /// range.
    #[verifier::rlimit(100)]
    pub fn term(&self, i: u64) -> (r: Result<u64, CoreError>)
        requires
            self.wf(),
        ensures
            self.offset <= i <= self.last_index_spec() ==> r == Ok::<u64, CoreError>(
                self.term_at_spec(i as int),
            ),
            !(self.offset <= i <= self.last_index_spec()) ==> r == Err::<u64, CoreError>(
                CoreError::Storage,
            ),
    {
        let len = self.entries.len();
        if i < self.offset || i > self.last_index() {
            Err(CoreError::Storage)
        } else if i == self.offset {
            Ok(self.offset_term)
        } else {
            let pos = i - self.offset - 1;
            proof {
                assert(pos < len as u64);
            }
            Ok(self.entries[pos as usize].term)
        }
    }

    /// The stored hard state.
    pub fn hard_state(&self) -> (r: HardState)
        ensures
            r == self.hs,
    {
        self.hs
    }

    /// Replaces the hard state; it must stay consistent with the log,
    /// and must be durable before any acknowledgement that names it.
    pub fn set_hard_state(&mut self, h: HardState) -> (r: Result<(), CoreError>)
        requires
            old(self).wf(),
        ensures
            final(self).wf(),
            r is Ok <==> old(self).can_set_hard_state(h),
            r is Ok ==> final(self).hs == h,
            r is Ok ==> final(self).entries == old(self).entries && final(self).offset == old(
                self,
            ).offset && final(self).cs == old(self).cs && final(self).snap == old(self).snap
                && final(self).offset_term == old(self).offset_term,
            r is Err ==> *final(self) == *old(self) && r == Err::<(), CoreError>(
                CoreError::Storage,
            ),
    {
        let last_term_ok = if self.entries.len() == 0 {
            true
        } else {
            h.term >= self.entries[self.entries.len() - 1].term
        };
        if last_term_ok && h.term >= self.offset_term && self.snap.meta.index <= h.commit
            && h.commit <= self.last_index() {
            self.hs = h;
            Ok(())
        } else {
            Err(CoreError::Storage)
        }
    }

    /// When a hard state may replace the stored one.
    pub open spec fn can_set_hard_state(self, h: HardState) -> bool {
        &&& self.entries@.len() > 0 ==> h.term >= self.entries@.last().term
        &&& h.term >= self.offset_term
        &&& self.snap.meta.index <= h.commit
        &&& h.commit <= self.last_index_spec()
    }

    /// The stored configuration state.
    pub fn conf_state(&self) -> (r: &ConfState)
        ensures
            r == &self.cs,
    {
        &self.cs
    }

    /// Replaces the configuration state after validating it.
    pub fn set_conf_state(&mut self, c: ConfState) -> (r: Result<(), CoreError>)
        requires
            old(self).wf(),
        ensures
            final(self).wf(),
            r is Ok <==> c.wf(),
            r is Ok ==> final(self).cs == c,
            r is Ok ==> final(self).entries == old(self).entries && final(self).hs == old(
                self,
            ).hs && final(self).offset == old(self).offset && final(self).snap == old(self).snap
                && final(self).offset_term == old(self).offset_term,
            r is Err ==> *final(self) == *old(self) && r == Err::<(), CoreError>(
                CoreError::Storage,
            ),
    {
        if conf_wf_check(&c) {
            self.cs = c;
            Ok(())
        } else {
            Err(CoreError::Storage)
        }
    }

    /// A copy of every retained entry, in order.
    pub fn all_entries(&self) -> (r: Vec<LogEntry>)
        requires
            self.wf(),
        ensures
            entries_equiv(r@, self.entries@),
    {
        let mut r: Vec<LogEntry> = Vec::new();
        let mut i: usize = 0;
        while i < self.entries.len()
            invariant
                i <= self.entries@.len(),
                r@.len() == i,
                forall|k: int| 0 <= k < i ==> entry_equiv(#[trigger] r@[k], self.entries@[k]),
            decreases self.entries@.len() - i,
        {
            r.push(clone_entry(&self.entries[i]));
            i = i + 1;
        }
        r
    }

    /// Copies of the entries with `lo <= index < hi`: contiguous,
    /// inclusive of `lo`, exclusive of `hi`, never with a gap. An
    /// error when the range reaches outside what is retained.
    #[verifier::rlimit(100)]
    pub fn entries(&self, lo: u64, hi: u64) -> (r: Result<Vec<LogEntry>, CoreError>)
        requires
            self.wf(),
        ensures
            (self.first_index_spec() <= lo && lo <= hi && hi <= self.last_index_spec() + 1)
                ==> (r matches Ok(v) && entries_equiv(
                v@,
                self.entries@.subrange(
                    lo - self.offset - 1,
                    hi - self.offset - 1,
                ),
            )),
            !(self.first_index_spec() <= lo && lo <= hi && hi <= self.last_index_spec() + 1)
                ==> r == Err::<Vec<LogEntry>, CoreError>(CoreError::Storage),
    {
        if lo <= self.offset || lo > hi || hi > self.last_index() + 1 {
            return Err(CoreError::Storage);
        }
        let len = self.entries.len();
        let mut v: Vec<LogEntry> = Vec::new();
        let start64 = lo - self.offset - 1;
        let end64 = hi - self.offset - 1;
        proof {
            assert(start64 <= end64);
            assert(end64 <= len as u64);
        }
        let start = start64 as usize;
        let end = end64 as usize;
        let mut i: usize = start;
        while i < end
            invariant
                start <= i <= end <= self.entries@.len(),
                v@.len() == i - start,
                forall|k: int| 0 <= k < v@.len() ==> entry_equiv(
                    #[trigger] v@[k],
                    self.entries@[start + k],
                ),
            decreases end - i,
        {
            v.push(clone_entry(&self.entries[i]));
            i = i + 1;
        }
        Ok(v)
    }

    /// When a batch may be appended: it must attach to the retained
    /// log without a gap, must not touch committed entries, and its
    /// terms must continue the log's order.
    pub open spec fn can_append(self, ents: Seq<LogEntry>) -> bool {
        ents.len() > 0 ==> {
            &&& ents[0].index > self.hs.commit
            &&& ents[0].index <= self.last_index_spec() + 1
            &&& ents[0].term >= self.term_at_spec(ents[0].index - 1)
            &&& ents.last().term <= self.hs.term
            &&& ents[0].index + ents.len() <= u64::MAX
        }
    }

    /// Writes a batch, first truncating any existing suffix whose
    /// indices the batch overlaps: the conflict-resolution rule of the
    /// log-matching property, by which a new leader's entries override
    /// a stale uncommitted suffix. Entries below the commit index are
    /// never overwritten.
    #[verifier::rlimit(100)]
    #[verifier::loop_isolation(false)]
    pub fn append(&mut self, ents: &Vec<LogEntry>) -> (r: Result<(), CoreError>)
        requires
            old(self).wf(),
            entries_wf(ents@),
        ensures
            final(self).wf(),
            r is Ok <==> old(self).can_append(ents@),
            r is Err ==> *final(self) == *old(self) && r == Err::<(), CoreError>(
                CoreError::Storage,
            ),
            (r is Ok && ents@.len() > 0) ==> {
                let keep = ents@[0].index - old(self).offset - 1;
                &&& final(self).entries@.len() == keep + ents@.len()
                &&& forall|k: int| 0 <= k < keep ==> final(self).entries@[k] == old(
                    self,
                ).entries@[k]
                &&& forall|k: int| 0 <= k < ents@.len() ==> entry_equiv(
                    #[trigger] final(self).entries@[keep + k],
                    ents@[k],
                )
                &&& final(self).last_index_spec() == ents@.last().index
            },
            (r is Ok && ents@.len() == 0) ==> *final(self) == *old(self),
            r is Ok ==> final(self).hs == old(self).hs && final(self).cs == old(self).cs
                && final(self).snap == old(self).snap && final(self).offset == old(self).offset
                && final(self).offset_term == old(self).offset_term,
    {
        if ents.len() == 0 {
            return Ok(());
        }
        let first = ents[0].index;
        let last = self.last_index();
        if first <= self.hs.commit || first > last + 1 {
            return Err(CoreError::Storage);
        }
        if u64::MAX - (ents.len() as u64) < first {
            return Err(CoreError::Storage);
        }
        let len = self.entries.len();
        let prev_term = if first == self.offset + 1 {
            self.offset_term
        } else {
            let p = first - self.offset - 2;
            proof {
                assert(p < len as u64);
            }
            self.entries[p as usize].term
        };
        let batch_last_term = ents[ents.len() - 1].term;
        if ents[0].term < prev_term || batch_last_term > self.hs.term {
            return Err(CoreError::Storage);
        }
        let keep64 = first - self.offset - 1;
        proof {
            assert(keep64 <= len as u64);
        }
        let keep = keep64 as usize;
        let ghost pre = self.entries@;
        self.entries.truncate(keep);
        proof {
            assert(self.entries@ =~= pre.subrange(0, keep as int));
        }
        let mut i: usize = 0;
        while i < ents.len()
            invariant
                i <= ents@.len(),
                self.entries@.len() == keep + i,
                keep <= pre.len(),
                self.offset == old(self).offset,
                self.offset_term == old(self).offset_term,
                self.hs == old(self).hs,
                self.cs == old(self).cs,
                self.snap == old(self).snap,
                forall|k: int| 0 <= k < keep ==> self.entries@[k] == pre[k],
                forall|j: int| keep <= j < keep + i ==> entry_equiv(
                    #[trigger] self.entries@[j],
                    ents@[j - keep],
                ),
            decreases ents@.len() - i,
        {
            self.entries.push(clone_entry(&ents[i]));
            i = i + 1;
        }
        proof {
            let cur = self.entries@;
            assert(keep == keep64);
            assert forall|k: int| 0 <= k < cur.len() implies (#[trigger] cur[k]).index
                == self.offset + 1 + k by {
                if k < keep {
                    assert(cur[k] == pre[k]);
                    assert(pre[k].index == pre[0].index + k);
                } else {
                    assert(entry_equiv(cur[k], ents@[k - keep]));
                    assert(ents@[k - keep].index == ents@[0].index + (k - keep));
                }
            }
            assert forall|a: int, b: int| 0 <= a <= b < cur.len() implies (#[trigger] cur[a]).term
                <= (#[trigger] cur[b]).term by {
                if b < keep {
                    assert(cur[a] == pre[a]);
                    assert(cur[b] == pre[b]);
                    assert(pre[a].term <= pre[b].term);
                } else if a < keep {
                    assert(cur[a] == pre[a]);
                    assert(pre[a].term <= pre[keep - 1].term);
                    assert(entry_equiv(cur[b], ents@[b - keep]));
                    assert(ents@[0].term <= ents@[b - keep].term);
                } else {
                    assert(entry_equiv(cur[a], ents@[a - keep]));
                    assert(entry_equiv(cur[b], ents@[b - keep]));
                    assert(ents@[a - keep].term <= ents@[b - keep].term);
                }
            }
            assert(entry_equiv(cur[cur.len() - 1], ents@[ents@.len() - 1]));
            assert(ents@[0].term <= ents@[ents@.len() - 1].term);
            assert(cur.last().term == ents@.last().term);
            if keep > 0 {
                assert(cur[0] == pre[0]);
            } else {
                assert(entry_equiv(cur[0], ents@[0]));
            }
        }
        Ok(())
    }

    /// When a compaction bound is acceptable: within the log and
    /// already covered by the durable snapshot.
    pub open spec fn can_compact(self, up_to: u64) -> bool {
        up_to <= self.last_index_spec() && up_to <= self.snap.meta.index + 1
    }

    /// Discards entries below `up_to` once the snapshot covers them.
    /// A bound past `last_index()` fails with a compaction error and
    /// leaves the store unchanged; a bound at or below `first_index()`
    /// is a no-op.
    #[verifier::rlimit(100)]
    pub fn compact(&mut self, up_to: u64) -> (r: Result<(), CoreError>)
        requires
            old(self).wf(),
        ensures
            final(self).wf(),
            r is Ok <==> old(self).can_compact(up_to),
            r is Err ==> *final(self) == *old(self) && r == Err::<(), CoreError>(
                CoreError::Compaction,
            ),
            (r is Ok && up_to <= old(self).first_index_spec()) ==> *final(self) == *old(self),
            (r is Ok && up_to > old(self).first_index_spec()) ==> {
                &&& final(self).offset == up_to - 1
                &&& final(self).first_index_spec() == up_to
                &&& final(self).entries@ == old(self).entries@.skip(
                    up_to - 1 - old(self).offset,
                )
                &&& final(self).last_index_spec() == old(self).last_index_spec()
                &&& final(self).hs == old(self).hs
                &&& final(self).cs == old(self).cs
                &&& final(self).snap == old(self).snap
            },
    {
        if up_to > self.last_index() || up_to > self.snap.meta.index.checked_add(1).unwrap_or(
            u64::MAX,
        ) {
            return Err(CoreError::Compaction);
        }
        if up_to <= self.offset + 1 {
            return Ok(());
        }
        let len = self.entries.len();
        let drop64 = up_to - 1 - self.offset;
        proof {
            assert(drop64 < len as u64);
        }
        let drop_n = drop64 as usize;
        let ghost pre = self.entries@;
        let boundary_term = self.entries[drop_n - 1].term;
        let tail = self.entries.split_off(drop_n);
        self.entries = tail;
        proof {
            assert(self.entries@ =~= pre.skip(drop_n as int));
        }
        self.offset = up_to - 1;
        self.offset_term = boundary_term;
        proof {
            let cur = self.entries@;
            assert forall|k: int| 0 <= k < cur.len() implies (#[trigger] cur[k]).index == cur[0].index
                + k by {
                assert(cur[k] == pre[drop_n + k]);
                assert(pre[drop_n + k].index == pre[0].index + (drop_n + k));
            }
            assert forall|a: int, b: int| 0 <= a <= b < cur.len() implies (#[trigger] cur[a]).term
                <= (#[trigger] cur[b]).term by {
                assert(cur[a] == pre[drop_n + a]);
                assert(cur[b] == pre[drop_n + b]);
                assert(pre[drop_n + a].term <= pre[drop_n + b].term);
            }
            if cur.len() > 0 {
                assert(cur[0] == pre[drop_n as int]);
                assert(pre[drop_n as int].term >= pre[drop_n - 1].term);
                assert(pre.last().term == cur.last().term || cur.len() > 0);
                assert(cur.last() == pre[drop_n + cur.len() - 1]);
            }
            assert(boundary_term <= self.hs.term) by {
                assert(pre[drop_n - 1].term <= pre[pre.len() - 1].term);
            }
        }
        Ok(())
    }

    /// The most recent snapshot, when it satisfies the request.
    pub fn snapshot(&self, request_index: u64, request_term: u64) -> (r: Result<
        &Snapshot,
        CoreError,
    >)
        requires
            self.wf(),
        ensures
            (self.snap.meta.index >= request_index && self.snap.meta.term >= request_term) ==> r
                == Ok::<&Snapshot, CoreError>(&self.snap),
            !(self.snap.meta.index >= request_index && self.snap.meta.term >= request_term) ==> r
                == Err::<&Snapshot, CoreError>(CoreError::Storage),
    {
        if self.snap.meta.index >= request_index && self.snap.meta.term >= request_term {
            Ok(&self.snap)
        } else {
            Err(CoreError::Storage)
        }
    }

    /// When a snapshot may be recorded at `index` with the given data:
    /// no older than the current snapshot, no newer than the commit.
    pub open spec fn can_record_snapshot(self, index: u64) -> bool {
        self.snap.meta.index <= index && index <= self.hs.commit
    }

    /// Records a snapshot of the applied state at `index`, carrying
    /// the current configuration; entries below it may be compacted
    /// afterwards.
    pub fn record_snapshot(&mut self, index: u64, data: Vec<u8>) -> (r: Result<(), CoreError>)
        requires
            old(self).wf(),
        ensures
            final(self).wf(),
            r is Ok <==> old(self).can_record_snapshot(index),
            r is Err ==> *final(self) == *old(self) && r == Err::<(), CoreError>(
                CoreError::Storage,
            ),
            r is Ok ==> {
                &&& final(self).snap.meta.index == index
                &&& final(self).snap.meta.term == old(self).term_at_spec(index as int)
                &&& final(self).snap.meta.conf_state.voters@ == old(self).cs.voters@
                &&& final(self).snap.meta.conf_state.learners@ == old(self).cs.learners@
                &&& final(self).snap.data@ == data@
                &&& final(self).entries == old(self).entries
                &&& final(self).hs == old(self).hs
                &&& final(self).cs == old(self).cs
                &&& final(self).offset == old(self).offset
                &&& final(self).offset_term == old(self).offset_term
            },
    {
        if index < self.snap.meta.index || index > self.hs.commit {
            return Err(CoreError::Storage);
        }
        let term = match self.term(index) {
            Ok(t) => t,
            Err(_) => {
                proof {
                    assert(self.offset <= index <= self.last_index_spec());
                }
                0
            },
        };
        self.snap = Snapshot {
            meta: SnapshotMeta { index, term, conf_state: self.cs.duplicate() },
            data,
        };
        Ok(())
    }

    /// When a peer's snapshot may replace this store's state: it must
    /// be at least as new as both the stored snapshot and the commit.
    pub open spec fn can_install_snapshot(self, s: Snapshot) -> bool {
        &&& s.meta.index >= self.snap.meta.index
        &&& s.meta.index >= self.hs.commit
        &&& s.meta.index < u64::MAX
        &&& s.meta.term >= self.offset_term
        &&& s.meta.conf_state.wf()
    }

    /// Installs a snapshot received from a peer: the log is cleared,
    /// the commit moves to the snapshot's index, and the snapshot's
    /// configuration takes effect. A stale or malformed snapshot is
    /// rejected and changes nothing.
    pub fn install_snapshot(&mut self, s: Snapshot) -> (r: Result<(), CoreError>)
        requires
            old(self).wf(),
        ensures
            final(self).wf(),
            r is Ok <==> old(self).can_install_snapshot(s),
            r is Err ==> *final(self) == *old(self) && r == Err::<(), CoreError>(
                CoreError::Storage,
            ),
            r is Ok ==> {
                &&& final(self).offset == s.meta.index
                &&& final(self).offset_term == s.meta.term
                &&& final(self).entries@.len() == 0
                &&& final(self).hs.commit == s.meta.index
                &&& final(self).hs.term == (if old(self).hs.term >= s.meta.term {
                    old(self).hs.term
                } else {
                    s.meta.term
                })
                &&& final(self).hs.vote == old(self).hs.vote
                &&& final(self).cs.voters@ == s.meta.conf_state.voters@
                &&& final(self).cs.learners@ == s.meta.conf_state.learners@
                &&& final(self).snap == s
            },
    {
        if s.meta.index < self.snap.meta.index || s.meta.index < self.hs.commit || s.meta.index
            == u64::MAX || s.meta.term < self.offset_term || !conf_wf_check(&s.meta.conf_state) {
            return Err(CoreError::Storage);
        }
        self.offset = s.meta.index;
        self.offset_term = s.meta.term;
        self.entries.clear();
        self.hs = HardState {
            term: if self.hs.term >= s.meta.term {
                self.hs.term
            } else {
                s.meta.term
            },
            vote: self.hs.vote,
            commit: s.meta.index,
        };
        self.cs = s.meta.conf_state.duplicate();
        self.snap = s;
        Ok(())
    }
}

/// The log-matching shape every well-formed store has: one entry per
/// index, no gaps, indices rooted at `first_index`. Every operation,
/// `append` with a conflicting suffix included, ensures `wf`, so this
/// holds after any sequence of calls.
pub proof fn lemma_log_matching(s: MemStorage)
    requires
        s.wf(),
    ensures
        forall|i: int| 0 <= i < s.entries@.len() ==> (#[trigger] s.entries@[i]).index
            == s.first_index_spec() + i,
        forall|i: int, j: int|
            0 <= i < j < s.entries@.len() ==> (#[trigger] s.entries@[i]).index != (
            #[trigger] s.entries@[j]).index,
{
}

} // verus!
