//! The node runtime and mailbox/membership protocol: proposing
//! commands, joining and leaving the cluster, advancing the commit
//! index, and feeding committed entries to the state-machine plugin
//! exactly once, in order. The consensus engine itself (leader
//! election, log matching) is a supplied dependency that drives these
//! operations; everything it needs from storage and the plugin is
//! stated here as contracts.

use vstd::prelude::*;

use crate::codec::{
    clone_bytes, decode_conf_change, enc_conf_change, encode_conf_change, parse_command,
    parse_conf_change, CmdModel, ConfChange, ConfChangeModel,
};
use crate::errors::CoreError;
use crate::fsm::{kv_map, state_ok, state_value, KvStore, StateMachine};
use crate::registry::{DeserializerRegistry, FsmDecoder};
use crate::storage::{entry_equiv, MemStorage};
use crate::types::{
    entries_wf, ids_unique, list_add, list_contains, list_remove, ConfState, EntryKind, HardState,
    LogEntry, Snapshot,
};

verus! {

/// What one committed entry did: the log position it held and the
/// result handed back to its proposer. An application-level failure is
/// carried here, never rolled back and never retried.
#[derive(Debug, PartialEq, Eq)]
pub struct ApplyOutcome {
    pub index: u64,
    pub result: Result<Vec<u8>, CoreError>,
}

/// The answer to a `RequestId` call: a node id no other node will ever
/// be given, and where the current leader can be reached.
#[derive(Debug, PartialEq, Eq)]
pub struct IdReservation {
    pub reserved_id: u64,
    pub leader_addr: Vec<u8>,
}

/// The effect of one entry's payload on the state-machine map.
pub open spec fn apply_one_model(m: Map<u64, Seq<u8>>, payload: Seq<u8>) -> Map<u64, Seq<u8>> {
    match parse_command(payload) {
        Some(CmdModel::Insert { key, value }) => m.insert(key, value),
        Some(CmdModel::Remove { key }) => m.remove(key),
        None => m,
    }
}

/// The state-machine map after folding a batch of entries in order;
/// configuration changes leave the map alone.
pub open spec fn run_entries_model(m: Map<u64, Seq<u8>>, es: Seq<LogEntry>) -> Map<u64, Seq<u8>>
    decreases es.len(),
{
    if es.len() == 0 {
        m
    } else {
        let m1 = if es[0].kind == EntryKind::Normal {
            apply_one_model(m, es[0].payload@)
        } else {
            m
        };
        run_entries_model(m1, es.skip(1))
    }
}

/// Folding distributes over appending one entry at the end.
pub proof fn lemma_run_entries_snoc(m: Map<u64, Seq<u8>>, es: Seq<LogEntry>, e: LogEntry)
    ensures
        run_entries_model(m, es.push(e)) == (if e.kind == EntryKind::Normal {
            apply_one_model(run_entries_model(m, es), e.payload@)
        } else {
            run_entries_model(m, es)
        }),
    decreases es.len(),
{
    let s2 = es.push(e);
    if es.len() == 0 {
        assert(s2[0] == e);
        assert(s2.skip(1) =~= Seq::<LogEntry>::empty());
        let m1 = if s2[0].kind == EntryKind::Normal {
            apply_one_model(m, s2[0].payload@)
        } else {
            m
        };
        assert(run_entries_model(m, s2) == run_entries_model(m1, s2.skip(1)));
        assert(run_entries_model(m1, s2.skip(1)) == m1);
        assert(run_entries_model(m, es) == m);
    } else {
        assert(s2[0] == es[0]);
        assert(s2.skip(1) =~= es.skip(1).push(e));
        let m1 = if es[0].kind == EntryKind::Normal {
            apply_one_model(m, es[0].payload@)
        } else {
            m
        };
        assert(run_entries_model(m, s2) == run_entries_model(m1, s2.skip(1)));
        lemma_run_entries_snoc(m1, es.skip(1), e);
        assert(run_entries_model(m, es) == run_entries_model(m1, es.skip(1)));
    }
}

/// Whether `x` is a voter, a learner, and an outgoing voter after the
/// committed entries are folded, in order, over a membership in which
/// `x`'s standing was `(v0, l0, o0)`. Normal entries and payloads that
/// spell no membership change leave the standing alone.
pub open spec fn conf_after(v0: bool, l0: bool, o0: bool, es: Seq<LogEntry>, x: u64) -> (
    bool,
    bool,
    bool,
)
    decreases es.len(),
{
    if es.len() == 0 {
        (v0, l0, o0)
    } else {
        let prev = conf_after(v0, l0, o0, es.drop_last(), x);
        let e = es.last();
        if e.kind == EntryKind::ConfigChange {
            match parse_conf_change(e.payload@) {
                Some(ConfChangeModel::AddVoter { id, addr }) => if id == x {
                    (true, false, prev.2)
                } else {
                    prev
                },
                Some(ConfChangeModel::AddLearner { id, addr }) => if id == x && !prev.0
                    && !prev.2 {
                    (prev.0, true, prev.2)
                } else {
                    prev
                },
                Some(ConfChangeModel::RemoveNode { id }) => if id == x {
                    (false, false, false)
                } else {
                    prev
                },
                None => prev,
            }
        } else {
            prev
        }
    }
}

/// Whether every membership-change payload in the batch can be read.
pub open spec fn conf_changes_parse(es: Seq<LogEntry>) -> bool {
    forall|i: int|
        0 <= i < es.len() && (#[trigger] es[i]).kind == EntryKind::ConfigChange
            ==> parse_conf_change(es[i].payload@) is Some
}

/// What the outcome of one committed entry must report: for a Normal
/// entry, the value a well-formed insert echoes, the empty answer of a
/// removal, or the application failure of an unreadable command; for a
/// membership change, the empty answer.
pub open spec fn outcome_matches(o: ApplyOutcome, e: LogEntry) -> bool {
    &&& o.index == e.index
    &&& if e.kind == EntryKind::Normal {
        match parse_command(e.payload@) {
            Some(CmdModel::Insert { key, value }) => o.result matches Ok(b) && b@ == value,
            Some(CmdModel::Remove { key }) => o.result matches Ok(b) && b@ == Seq::<u8>::empty(),
            None => o.result == Err::<Vec<u8>, CoreError>(CoreError::Apply),
        }
    } else {
        o.result matches Ok(b) && b@ == Seq::<u8>::empty()
    }
}

/// One node of the cluster: its storage, its state-machine instance,
/// its apply bookkeeping, and the replicated id-allocation counter the
/// join handshake draws from.
pub struct RaftNode {
    pub id: u64,
    pub addr: Vec<u8>,
    pub is_leader: bool,
    pub storage: MemStorage,
    pub fsm: KvStore,
    /// Highest log index already handed to the plugin.
    pub applied: u64,
    /// Next node id the reservation counter will hand out.
    pub next_node_id: u64,
    /// Every id ever reserved here, completed or abandoned.
    pub reserved: Vec<u64>,
    /// The indices handed to the plugin, in call order.
    pub applied_hist: Ghost<Seq<u64>>,
}

impl RaftNode {
    /// Everything every operation preserves: well-formed storage and
    /// plugin, apply bookkeeping between the snapshot boundary and the
    /// commit, a strictly increasing apply history, and an id counter
    /// above everything it has ever handed out.
    pub open spec fn wf(self) -> bool {
        &&& self.storage.wf()
        &&& self.fsm.inv()
        &&& self.storage.snap.meta.index <= self.applied
        &&& self.applied <= self.storage.hs.commit
        &&& ids_unique(self.reserved@)
        &&& forall|k: int| 0 <= k < self.reserved@.len() ==> #[trigger] self.reserved@[k]
            < self.next_node_id
        &&& 1 <= self.id < self.next_node_id
        &&& forall|a: int, b: int|
            0 <= a < b < self.applied_hist@.len() ==> #[trigger] self.applied_hist@[a]
                < #[trigger] self.applied_hist@[b]
        &&& forall|k: int| 0 <= k < self.applied_hist@.len() ==> #[trigger] self.applied_hist@[k]
            <= self.applied
    }

    /// Bootstraps the first node of a fresh cluster as its leader,
    /// with itself the sole voter and the id counter just above it.
    pub fn bootstrap(id: u64, addr: Vec<u8>) -> (r: RaftNode)
        requires
            1 <= id < u64::MAX,
        ensures
            r.wf(),
            r.id == id,
            r.addr == addr,
            r.is_leader,
            r.applied == 0,
            r.next_node_id == id + 1,
            r.storage.cs.voters@ =~= seq![id],
            r.storage.cs.learners@ =~= Seq::<u64>::empty(),
            r.storage.cs.voters_outgoing@ =~= Seq::<u64>::empty(),
            r.storage.cs.learners_next@ =~= Seq::<u64>::empty(),
            r.storage.entries@.len() == 0,
            r.storage.hs == (HardState { term: 1, vote: id, commit: 0 }),
            r.storage.offset == 0,
            r.storage.offset_term == 0,
            r.storage.snap.meta.index == 0,
            r.applied_hist@ =~= Seq::<u64>::empty(),
            r.reserved@ =~= seq![id],
    {
        let mut conf = ConfState::empty();
        conf.voters.push(id);
        let mut storage = MemStorage::fresh(conf);
        storage.hs = HardState { term: 1, vote: id, commit: 0 };
        let mut reserved: Vec<u64> = Vec::new();
        reserved.push(id);
        RaftNode {
            id,
            addr,
            is_leader: true,
            storage,
            fsm: KvStore::new(),
            applied: 0,
            next_node_id: id + 1,
            reserved,
            applied_hist: Ghost(Seq::empty()),
        }
    }

    /// Initializes the local state of a node that has been handed a
    /// reserved id (step three of the join handshake): it stores and
    /// applies but does not lead, and votes only once its membership
    /// change commits elsewhere.
    pub fn join(id: u64, addr: Vec<u8>) -> (r: RaftNode)
        requires
            1 <= id < u64::MAX,
        ensures
            r.wf(),
            r.id == id,
            r.addr == addr,
            !r.is_leader,
            r.applied == 0,
            r.storage.entries@.len() == 0,
            r.storage.hs == (HardState { term: 0, vote: 0, commit: 0 }),
            r.storage.offset == 0,
            r.storage.snap.meta.index == 0,
            r.applied_hist@ =~= Seq::<u64>::empty(),
    {
        RaftNode {
            id,
            addr,
            is_leader: false,
            storage: MemStorage::fresh(ConfState::empty()),
            fsm: KvStore::new(),
            applied: 0,
            next_node_id: id + 1,
            reserved: Vec::new(),
            applied_hist: Ghost(Seq::empty()),
        }
    }

    /// Reserves the next unused node id from the monotonic cluster
    /// counter. A reservation is never handed out twice, even if the
    /// joining node is never heard from again. Only the leader can
    /// reserve; anyone else fails so the caller can redirect.
    pub fn handle_request_id(&mut self) -> (r: Result<IdReservation, CoreError>)
        requires
            old(self).wf(),
        ensures
            final(self).wf(),
            !old(self).is_leader ==> r == Err::<IdReservation, CoreError>(
                CoreError::IdReservation,
            ) && *final(self) == *old(self),
            (old(self).is_leader && old(self).next_node_id == u64::MAX) ==> r == Err::<
                IdReservation,
                CoreError,
            >(CoreError::IdReservation) && *final(self) == *old(self),
            (old(self).is_leader && old(self).next_node_id < u64::MAX) ==> (r matches Ok(res)
                && res.reserved_id == old(self).next_node_id && !old(self).reserved@.contains(
                res.reserved_id,
            ) && final(self).reserved@ == old(self).reserved@.push(res.reserved_id)
                && final(self).next_node_id == old(self).next_node_id + 1
                && res.leader_addr@ == old(self).addr@),
            final(self).storage == old(self).storage,
            final(self).fsm == old(self).fsm,
            final(self).applied == old(self).applied,
            final(self).applied_hist == old(self).applied_hist,
            final(self).is_leader == old(self).is_leader,
            final(self).id == old(self).id,
            final(self).addr == old(self).addr,
    {
        if !self.is_leader {
            return Err(CoreError::IdReservation);
        }
        if self.next_node_id == u64::MAX {
            return Err(CoreError::IdReservation);
        }
        let fresh_id = self.next_node_id;
        proof {
            if self.reserved@.contains(fresh_id) {
                let k = choose|k: int|
                    0 <= k < self.reserved@.len() && self.reserved@[k] == fresh_id;
            }
        }
        self.next_node_id = self.next_node_id + 1;
        self.reserved.push(fresh_id);
        Ok(IdReservation { reserved_id: fresh_id, leader_addr: clone_bytes(&self.addr) })
    }

    /// When a single new entry can be appended at the tail of the log.
    pub open spec fn can_extend(self) -> bool {
        self.storage.last_index_spec() + 2 <= u64::MAX
    }

    /// Appends one entry of the given kind at the tail, in the current
    /// term.
    fn append_one(&mut self, kind: EntryKind, payload: Vec<u8>) -> (r: Result<u64, CoreError>)
        requires
            old(self).wf(),
        ensures
            final(self).wf(),
            r is Ok <==> old(self).can_extend(),
            r is Err ==> *final(self) == *old(self) && r == Err::<u64, CoreError>(
                CoreError::Storage,
            ),
            r matches Ok(idx) ==> {
                &&& idx == old(self).storage.last_index_spec() + 1
                &&& final(self).storage.entries@.len() == old(self).storage.entries@.len() + 1
                &&& forall|k: int| 0 <= k < old(self).storage.entries@.len()
                    ==> final(self).storage.entries@[k] == old(self).storage.entries@[k]
                &&& final(self).storage.entries@.last().is_entry(
                    idx,
                    old(self).storage.hs.term,
                    kind,
                    payload@,
                )
                &&& final(self).storage.hs == old(self).storage.hs
                &&& final(self).storage.cs == old(self).storage.cs
                &&& final(self).storage.offset == old(self).storage.offset
                &&& final(self).storage.offset_term == old(self).storage.offset_term
                &&& final(self).storage.snap == old(self).storage.snap
                &&& final(self).fsm == old(self).fsm
                &&& final(self).applied == old(self).applied
                &&& final(self).applied_hist == old(self).applied_hist
                &&& final(self).is_leader == old(self).is_leader
                &&& final(self).reserved == old(self).reserved
                &&& final(self).next_node_id == old(self).next_node_id
                &&& final(self).id == old(self).id
                &&& final(self).addr == old(self).addr
            },
    {
        let last = self.storage.last_index();
        if last >= u64::MAX - 1 {
            return Err(CoreError::Storage);
        }
        let idx = last + 1;
        let entry = LogEntry { index: idx, term: self.storage.hs.term, kind, payload };
        let mut batch: Vec<LogEntry> = Vec::new();
        batch.push(entry);
        proof {
            assert(entries_wf(batch@));
            assert(old(self).storage.can_append(batch@));
        }
        let res = self.storage.append(&batch);
        proof {
            assert(res is Ok);
            let keep = batch@[0].index - old(self).storage.offset - 1;
            assert(entry_equiv(self.storage.entries@[keep + 0], batch@[0]));
            assert(self.storage.entries@.last() == self.storage.entries@[keep + 0]);
        }
        match res {
            Ok(_) => Ok(idx),
            Err(e) => Err(e),
        }
    }

    /// Appends a Normal entry carrying an application command. The
    /// caller waits for commit and apply; the matching `ApplyOutcome`
    /// later carries the answer. A non-leader refuses so the caller
    /// can redirect; nothing is forwarded and nothing deduplicated.
    pub fn propose(&mut self, cmd: Vec<u8>) -> (r: Result<u64, CoreError>)
        requires
            old(self).wf(),
        ensures
            final(self).wf(),
            final(self).is_leader == old(self).is_leader,
            final(self).id == old(self).id,
            final(self).addr == old(self).addr,
            final(self).reserved == old(self).reserved,
            final(self).next_node_id == old(self).next_node_id,
            final(self).applied == old(self).applied,
            final(self).applied_hist == old(self).applied_hist,
            final(self).fsm == old(self).fsm,
            final(self).storage.hs == old(self).storage.hs,
            final(self).storage.cs == old(self).storage.cs,
            final(self).storage.offset == old(self).storage.offset,
            final(self).storage.offset_term == old(self).storage.offset_term,
            final(self).storage.snap == old(self).storage.snap,
            !old(self).is_leader ==> r == Err::<u64, CoreError>(CoreError::NotLeader) && *final(self) == *old(self),
            (old(self).is_leader && !old(self).can_extend()) ==> r == Err::<u64, CoreError>(
                CoreError::Storage,
            ) && *final(self) == *old(self),
            (old(self).is_leader && old(self).can_extend()) ==> (r matches Ok(idx) && idx == old(self).storage.last_index_spec() + 1 && final(self).storage.entries@.last().is_entry(
                idx,
                old(self).storage.hs.term,
                EntryKind::Normal,
                cmd@,
            ) && final(self).storage.entries@.len() == old(self).storage.entries@.len() + 1
                && (forall|k: int| 0 <= k < old(self).storage.entries@.len()
                ==> final(self).storage.entries@[k] == old(self).storage.entries@[k])
                && final(self).applied == old(self).applied && final(self).fsm == old(self).fsm),
    {
        if !self.is_leader {
            return Err(CoreError::NotLeader);
        }
        self.append_one(EntryKind::Normal, cmd)
    }

    /// Step five of the join handshake: the leader proposes the
    /// configuration change admitting `{new_id, new_addr}` as a
    /// learner or voter. The node becomes a member only once this
    /// entry commits cluster-wide, never merely by being proposed.
    pub fn handle_member_bootstrap_ready(
        &mut self,
        new_id: u64,
        new_addr: &Vec<u8>,
        as_voter: bool,
    ) -> (r: Result<u64, CoreError>)
        requires
            old(self).wf(),
        ensures
            final(self).wf(),
            final(self).is_leader == old(self).is_leader,
            final(self).id == old(self).id,
            final(self).addr == old(self).addr,
            final(self).reserved == old(self).reserved,
            final(self).next_node_id == old(self).next_node_id,
            final(self).applied == old(self).applied,
            final(self).applied_hist == old(self).applied_hist,
            final(self).fsm == old(self).fsm,
            final(self).storage.hs == old(self).storage.hs,
            final(self).storage.cs == old(self).storage.cs,
            final(self).storage.offset == old(self).storage.offset,
            final(self).storage.offset_term == old(self).storage.offset_term,
            final(self).storage.snap == old(self).storage.snap,
            !old(self).is_leader ==> r == Err::<u64, CoreError>(CoreError::NotLeader) && *final(self) == *old(self),
            (old(self).is_leader && !old(self).can_extend()) ==> r == Err::<u64, CoreError>(
                CoreError::Storage,
            ) && *final(self) == *old(self),
            (old(self).is_leader && old(self).can_extend()) ==> (r matches Ok(idx) && idx == old(self).storage.last_index_spec() + 1 && final(self).storage.entries@.last().is_entry(
                idx,
                old(self).storage.hs.term,
                EntryKind::ConfigChange,
                enc_conf_change(
                    if as_voter {
                        ConfChangeModel::AddVoter { id: new_id, addr: new_addr@ }
                    } else {
                        ConfChangeModel::AddLearner { id: new_id, addr: new_addr@ }
                    },
                ),
            ) && final(self).storage.entries@.len() == old(self).storage.entries@.len() + 1
                && (forall|k: int| 0 <= k < old(self).storage.entries@.len()
                ==> final(self).storage.entries@[k] == old(self).storage.entries@[k])),
    {
        if !self.is_leader {
            return Err(CoreError::NotLeader);
        }
        let cc = if as_voter {
            ConfChange::AddVoter { id: new_id, addr: clone_bytes(new_addr) }
        } else {
            ConfChange::AddLearner { id: new_id, addr: clone_bytes(new_addr) }
        };
        let payload = encode_conf_change(&cc);
        self.append_one(EntryKind::ConfigChange, payload)
    }

    /// Proposes the removal of this node from the configuration. The
    /// node keeps serving, replicating and voting until that entry
    /// commits: nothing here stops participation, and the membership
    /// in force is untouched until apply.
    pub fn leave(&mut self) -> (r: Result<u64, CoreError>)
        requires
            old(self).wf(),
        ensures
            final(self).wf(),
            final(self).is_leader == old(self).is_leader,
            final(self).id == old(self).id,
            final(self).addr == old(self).addr,
            final(self).reserved == old(self).reserved,
            final(self).next_node_id == old(self).next_node_id,
            final(self).applied == old(self).applied,
            final(self).applied_hist == old(self).applied_hist,
            final(self).fsm == old(self).fsm,
            final(self).storage.hs == old(self).storage.hs,
            final(self).storage.cs == old(self).storage.cs,
            final(self).storage.offset == old(self).storage.offset,
            final(self).storage.offset_term == old(self).storage.offset_term,
            final(self).storage.snap == old(self).storage.snap,
            !old(self).is_leader ==> r == Err::<u64, CoreError>(CoreError::NotLeader) && *final(self) == *old(self),
            (old(self).is_leader && !old(self).can_extend()) ==> r == Err::<u64, CoreError>(
                CoreError::Storage,
            ) && *final(self) == *old(self),
            (old(self).is_leader && old(self).can_extend()) ==> (r matches Ok(idx) && idx == old(self).storage.last_index_spec() + 1 && final(self).storage.entries@.last().is_entry(
                idx,
                old(self).storage.hs.term,
                EntryKind::ConfigChange,
                enc_conf_change(ConfChangeModel::RemoveNode { id: old(self).id }),
            ) && final(self).storage.entries@.len() == old(self).storage.entries@.len() + 1
                && (forall|k: int| 0 <= k < old(self).storage.entries@.len()
                ==> final(self).storage.entries@[k] == old(self).storage.entries@[k])),
    {
        if !self.is_leader {
            return Err(CoreError::NotLeader);
        }
        let cc = ConfChange::RemoveNode { id: self.id };
        let payload = encode_conf_change(&cc);
        self.append_one(EntryKind::ConfigChange, payload)
    }

    /// Raises the commit index to what the consensus engine reports a
    /// quorum has durably stored, capped at the local log's end. The
    /// commit never moves backwards, and committed entries are never
    /// rolled back.
    pub fn advance_commit(&mut self, to: u64)
        requires
            old(self).wf(),
        ensures
            final(self).wf(),
            final(self).storage.hs.commit >= old(self).storage.hs.commit,
            final(self).storage.hs.commit == (if old(self).storage.hs.commit >= (if to
                <= old(self).storage.last_index_spec() {
                to as int
            } else {
                old(self).storage.last_index_spec()
            }) {
                old(self).storage.hs.commit as int
            } else {
                (if to <= old(self).storage.last_index_spec() {
                    to as int
                } else {
                    old(self).storage.last_index_spec()
                })
            }),
            final(self).storage.entries == old(self).storage.entries,
            final(self).storage.cs == old(self).storage.cs,
            final(self).storage.offset == old(self).storage.offset,
            final(self).storage.snap == old(self).storage.snap,
            final(self).storage.hs.term == old(self).storage.hs.term,
            final(self).fsm == old(self).fsm,
            final(self).applied == old(self).applied,
            final(self).applied_hist == old(self).applied_hist,
            final(self).is_leader == old(self).is_leader,
    {
        let last = self.storage.last_index();
        let target = if to > last {
            last
        } else {
            to
        };
        if target > self.storage.hs.commit {
            let h = HardState {
                term: self.storage.hs.term,
                vote: self.storage.hs.vote,
                commit: target,
            };
            proof {
                assert(self.storage.can_set_hard_state(h));
            }
            let res = self.storage.set_hard_state(h);
            proof {
                assert(res is Ok);
            }
        }
    }

    /// Applies one committed configuration-change to a copy of the
    /// membership and returns it; the disjointness and uniqueness
    /// invariants are preserved.
    fn next_conf(&self, cc: &ConfChange) -> (r: ConfState)
        requires
            self.storage.cs.wf(),
        ensures
            r.wf(),
            cc matches ConfChange::AddVoter { id, addr } ==> (forall|x: u64| #[trigger]
                r.voters@.contains(x) <==> (self.storage.cs.voters@.contains(x) || x == id)),
            cc matches ConfChange::AddVoter { id, addr } ==> (forall|x: u64| #[trigger]
                r.learners@.contains(x) <==> (self.storage.cs.learners@.contains(x) && x != id)),
            cc matches ConfChange::AddVoter { id, addr } ==> r.voters_outgoing@
                == self.storage.cs.voters_outgoing@,
            cc matches ConfChange::AddLearner { id, addr } ==> (r.voters@
                == self.storage.cs.voters@ && r.voters_outgoing@
                == self.storage.cs.voters_outgoing@),
            cc matches ConfChange::AddLearner { id, addr } ==> ((
            !self.storage.cs.voters@.contains(*id)
                && !self.storage.cs.voters_outgoing@.contains(*id)) ==> (forall|x: u64| #[trigger]
                r.learners@.contains(x) <==> (self.storage.cs.learners@.contains(x) || x == id))),
            cc matches ConfChange::AddLearner { id, addr } ==> ((
            self.storage.cs.voters@.contains(*id)
                || self.storage.cs.voters_outgoing@.contains(*id)) ==> r.learners@
                == self.storage.cs.learners@),
            cc matches ConfChange::RemoveNode { id } ==> (forall|x: u64| #[trigger]
                r.voters@.contains(x) <==> (self.storage.cs.voters@.contains(x) && x != id)),
            cc matches ConfChange::RemoveNode { id } ==> (forall|x: u64| #[trigger]
                r.learners@.contains(x) <==> (self.storage.cs.learners@.contains(x) && x != id)),
            cc matches ConfChange::RemoveNode { id } ==> (forall|x: u64| #[trigger]
                r.voters_outgoing@.contains(x) <==> (self.storage.cs.voters_outgoing@.contains(x)
                && x != id)),
    {
        let mut c = self.storage.conf_state().duplicate();
        match cc {
            ConfChange::AddVoter { id, addr: _ } => {
                list_add(&mut c.voters, *id);
                list_remove(&mut c.learners, *id);
            },
            ConfChange::AddLearner { id, addr: _ } => {
                if !list_contains(&c.voters, *id) && !list_contains(&c.voters_outgoing, *id) {
                    list_add(&mut c.learners, *id);
                }
            },
            ConfChange::RemoveNode { id } => {
                list_remove(&mut c.voters, *id);
                list_remove(&mut c.learners, *id);
                list_remove(&mut c.voters_outgoing, *id);
                list_remove(&mut c.learners_next, *id);
            },
        }
        c
    }

    /// Hands every newly committed entry to the plugin, in index
    /// order, each exactly once: Normal entries go to the state
    /// machine (an apply failure is recorded in its outcome and does
    /// not stop the pipeline or roll anything back), ConfigChange
    /// entries take effect on the membership. It succeeds exactly when
    /// every committed ConfigChange payload decodes; an undecodable one
    /// is fatal and is detected before anything is applied, so failure
    /// changes nothing.
    #[verifier::loop_isolation(false)]
    #[verifier::rlimit(100)]
    pub fn apply_committed(&mut self) -> (r: Result<Vec<ApplyOutcome>, CoreError>)
        requires
            old(self).wf(),
        ensures
            final(self).wf(),
            final(self).storage.entries == old(self).storage.entries,
            final(self).storage.hs == old(self).storage.hs,
            final(self).storage.offset == old(self).storage.offset,
            final(self).storage.offset_term == old(self).storage.offset_term,
            final(self).storage.snap == old(self).storage.snap,
            final(self).is_leader == old(self).is_leader,
            final(self).reserved == old(self).reserved,
            final(self).next_node_id == old(self).next_node_id,
            final(self).id == old(self).id,
            final(self).addr == old(self).addr,
            r is Ok <==> conf_changes_parse(
                old(self).storage.entries@.subrange(
                    old(self).applied - old(self).storage.offset,
                    old(self).storage.hs.commit - old(self).storage.offset,
                ),
            ),
            r matches Ok(outs) ==> {
                &&& final(self).applied == old(self).storage.hs.commit
                &&& outs@.len() == old(self).storage.hs.commit - old(self).applied
                &&& forall|k: int| 0 <= k < outs@.len() ==> (#[trigger] outs@[k]).index == old(self).applied + 1 + k
                &&& forall|k: int| 0 <= k < outs@.len() ==> outcome_matches(
                    #[trigger] outs@[k],
                    old(self).storage.entries@[old(self).applied - old(self).storage.offset + k],
                )
                &&& final(self).applied_hist@ == old(self).applied_hist@ + Seq::new(
                    (old(self).storage.hs.commit - old(self).applied) as nat,
                    |k: int| (old(self).applied + 1 + k) as u64,
                )
                &&& final(self).fsm@ == run_entries_model(
                    old(self).fsm@,
                    old(self).storage.entries@.subrange(
                        old(self).applied - old(self).storage.offset,
                        old(self).storage.hs.commit - old(self).storage.offset,
                    ),
                )
                &&& forall|x: u64| (#[trigger] final(self).storage.cs.voters@.contains(x))
                    == conf_after(
                    old(self).storage.cs.voters@.contains(x),
                    old(self).storage.cs.learners@.contains(x),
                    old(self).storage.cs.voters_outgoing@.contains(x),
                    old(self).storage.entries@.subrange(
                        old(self).applied - old(self).storage.offset,
                        old(self).storage.hs.commit - old(self).storage.offset,
                    ),
                    x,
                ).0
                &&& forall|x: u64| (#[trigger] final(self).storage.cs.learners@.contains(x))
                    == conf_after(
                    old(self).storage.cs.voters@.contains(x),
                    old(self).storage.cs.learners@.contains(x),
                    old(self).storage.cs.voters_outgoing@.contains(x),
                    old(self).storage.entries@.subrange(
                        old(self).applied - old(self).storage.offset,
                        old(self).storage.hs.commit - old(self).storage.offset,
                    ),
                    x,
                ).1
            },
            r is Err ==> *final(self) == *old(self) && r == Err::<Vec<ApplyOutcome>, CoreError>(
                CoreError::Decoding,
            ),
    {
        let commit = self.storage.hs.commit;
        let ghost apl0 = self.applied;
        let ghost off = self.storage.offset;
        let ghost log0 = self.storage.entries@;
        let ghost m0 = self.fsm@;
        let ghost hist0 = self.applied_hist@;
        let ghost sub0 = log0.subrange(apl0 - off, commit - off);
        let mut scan = self.applied;
        while scan < commit
            invariant
                apl0 <= scan <= commit,
                forall|j: int|
                    0 <= j < scan - apl0 ==> ((#[trigger] sub0[j]).kind == EntryKind::ConfigChange
                        ==> parse_conf_change(sub0[j].payload@) is Some),
            decreases commit - scan,
        {
            let idx = scan + 1;
            let elen = self.storage.entries.len();
            let pos64 = idx - self.storage.offset - 1;
            proof {
                assert(pos64 < elen as u64);
            }
            let pos = pos64 as usize;
            if self.storage.entries[pos].kind == EntryKind::ConfigChange {
                match decode_conf_change(&self.storage.entries[pos].payload) {
                    Ok(_) => {
                        proof {
                            assert(sub0[idx - 1 - apl0] == log0[pos as int]);
                        }
                    },
                    Err(_) => {
                        proof {
                            assert(sub0[idx - 1 - apl0] == log0[pos as int]);
                        }
                        return Err(CoreError::Decoding);
                    },
                }
            } else {
                proof {
                    assert(sub0[idx - 1 - apl0] == log0[pos as int]);
                }
            }
            scan = idx;
        }
        proof {
            assert(conf_changes_parse(sub0));
        }
        let mut outs: Vec<ApplyOutcome> = Vec::new();
        while self.applied < commit
            invariant
                self.storage.wf(),
                self.fsm.inv(),
                apl0 <= self.applied <= commit,
                self.storage.entries == old(self).storage.entries,
                self.storage.entries@ == log0,
                self.storage.hs == old(self).storage.hs,
                self.storage.offset == off,
                self.storage.offset_term == old(self).storage.offset_term,
                self.storage.snap == old(self).storage.snap,
                self.is_leader == old(self).is_leader,
                self.reserved == old(self).reserved,
                self.next_node_id == old(self).next_node_id,
                self.id == old(self).id,
                self.addr == old(self).addr,
                outs@.len() == self.applied - apl0,
                forall|k: int| 0 <= k < outs@.len() ==> (#[trigger] outs@[k]).index == apl0 + 1
                    + k,
                forall|k: int| 0 <= k < outs@.len() ==> outcome_matches(
                    #[trigger] outs@[k],
                    log0[apl0 - off + k],
                ),
                self.applied_hist@ == hist0 + Seq::new(
                    (self.applied - apl0) as nat,
                    |k: int| (apl0 + 1 + k) as u64,
                ),
                self.fsm@ == run_entries_model(m0, log0.subrange(apl0 - off, self.applied - off)),
                forall|x: u64| (#[trigger] self.storage.cs.voters@.contains(x)) == conf_after(
                    old(self).storage.cs.voters@.contains(x),
                    old(self).storage.cs.learners@.contains(x),
                    old(self).storage.cs.voters_outgoing@.contains(x),
                    log0.subrange(apl0 - off, self.applied - off),
                    x,
                ).0,
                forall|x: u64| (#[trigger] self.storage.cs.learners@.contains(x)) == conf_after(
                    old(self).storage.cs.voters@.contains(x),
                    old(self).storage.cs.learners@.contains(x),
                    old(self).storage.cs.voters_outgoing@.contains(x),
                    log0.subrange(apl0 - off, self.applied - off),
                    x,
                ).1,
                forall|x: u64| (#[trigger] self.storage.cs.voters_outgoing@.contains(x))
                    == conf_after(
                    old(self).storage.cs.voters@.contains(x),
                    old(self).storage.cs.learners@.contains(x),
                    old(self).storage.cs.voters_outgoing@.contains(x),
                    log0.subrange(apl0 - off, self.applied - off),
                    x,
                ).2,
                self.storage.snap.meta.index <= self.applied,
            decreases commit - self.applied,
        {
            let idx = self.applied + 1;
            let elen = self.storage.entries.len();
            let pos64 = idx - self.storage.offset - 1;
            proof {
                assert(pos64 < elen as u64);
            }
            let pos = pos64 as usize;
            let kind = self.storage.entries[pos].kind;
            let payload = clone_bytes(&self.storage.entries[pos].payload);
            let ghost done = log0.subrange(apl0 - off, idx - 1 - off);
            let ghost entry = log0[pos as int];
            if kind == EntryKind::Normal {
                let res = self.fsm.apply(&payload);
                outs.push(ApplyOutcome { index: idx, result: res });
            } else {
                match decode_conf_change(&payload) {
                    Ok(cc) => {
                        let c = self.next_conf(&cc);
                        let res = self.storage.set_conf_state(c);
                        proof {
                            assert(res is Ok);
                        }
                        outs.push(ApplyOutcome { index: idx, result: Ok(Vec::new()) });
                    },
                    Err(_) => {
                        proof {
                            assert(sub0[idx - 1 - apl0] == log0[pos as int]);
                            assert(false);
                        }
                        return Err(CoreError::Decoding);
                    },
                }
            }
            proof {
                lemma_run_entries_snoc(m0, done, entry);
                assert(done.push(entry) =~= log0.subrange(apl0 - off, idx - off));
                if entry.kind == EntryKind::Normal {
                    assert(entry.payload@ == payload@);
                }
                let sub = log0.subrange(apl0 - off, idx - off);
                assert(sub.drop_last() =~= done);
                assert(sub.last() == entry);
            }
            self.applied = idx;
            self.applied_hist = Ghost(self.applied_hist@.push(idx));
            proof {
                assert(self.applied_hist@ =~= hist0 + Seq::new(
                    (self.applied - apl0) as nat,
                    |k: int| (apl0 + 1 + k) as u64,
                ));
            }
        }
        Ok(outs)
    }

    /// Captures a snapshot of everything applied so far: the plugin's
    /// serialized state at the applied index, with the configuration
    /// in force. Entries at or below it may then be compacted.
    pub fn take_snapshot(&mut self) -> (r: Result<(), CoreError>)
        requires
            old(self).wf(),
        ensures
            final(self).wf(),
            r is Ok,
            final(self).storage.snap.meta.index == old(self).applied,
            final(self).storage.snap.data@ == crate::codec::enc_state(
                old(self).fsm.entries_view(),
            ),
            final(self).storage.entries == old(self).storage.entries,
            final(self).storage.hs == old(self).storage.hs,
            final(self).storage.cs == old(self).storage.cs,
            final(self).storage.offset == old(self).storage.offset,
            final(self).fsm == old(self).fsm,
            final(self).applied == old(self).applied,
    {
        let data = self.fsm.snapshot();
        proof {
            assert(self.storage.can_record_snapshot(self.applied));
        }
        let res = self.storage.record_snapshot(self.applied, data);
        proof {
            assert(res is Ok);
        }
        Ok(())
    }

    /// Bootstraps a lagging or newly joined node directly from a
    /// peer's snapshot, without replaying the log: the plugin instance
    /// is rebuilt through the deserialization registry and subsequent
    /// applies resume just past the snapshot's index.
    pub fn from_snapshot(
        id: u64,
        addr: Vec<u8>,
        reg: &DeserializerRegistry,
        snap: Snapshot,
    ) -> (r: Result<RaftNode, CoreError>)
        requires
            1 <= id < u64::MAX,
        ensures
            reg.state_machine is None ==> r == Err::<RaftNode, CoreError>(CoreError::Decoding),
            (reg.state_machine == Some(FsmDecoder::KvState) && !state_ok(snap.data@)) ==> r
                == Err::<RaftNode, CoreError>(CoreError::Decoding),
            (reg.state_machine == Some(FsmDecoder::KvState) && state_ok(snap.data@)
                && snap.meta.index < u64::MAX && snap.meta.conf_state.wf()) ==> r is Ok,
            r matches Ok(n) ==> {
                &&& n.wf()
                &&& n.id == id
                &&& !n.is_leader
                &&& n.applied == snap.meta.index
                &&& reg.state_machine == Some(FsmDecoder::KvState) ==> n.fsm@ == kv_map(
                    state_value(snap.data@),
                )
                &&& n.storage.cs.voters@ == snap.meta.conf_state.voters@
                &&& n.applied_hist@ =~= Seq::<u64>::empty()
            },
    {
        let fsm = match reg.decode_fsm(&snap.data) {
            Ok(m) => m,
            Err(e) => {
                return Err(e);
            },
        };
        proof {
            if reg.state_machine is None {
                assert(false);
            } else {
                let d = reg.state_machine.unwrap();
                assert(d == FsmDecoder::KvState);
                assert(reg.state_machine == Some(FsmDecoder::KvState));
            }
        }
        let mut storage = MemStorage::fresh(ConfState::empty());
        let res = storage.install_snapshot(snap);
        let applied = match res {
            Ok(_) => storage.offset,
            Err(_) => {
                return Err(CoreError::Storage);
            },
        };
        Ok(
            RaftNode {
                id,
                addr,
                is_leader: false,
                storage,
                fsm,
                applied,
                next_node_id: id + 1,
                reserved: Vec::new(),
                applied_hist: Ghost(Seq::empty()),
            },
        )
    }
}

/// A read-only picture of a node's internal counters, log position
/// and membership, for operational tooling.
pub struct DebugInfo {
    pub id: u64,
    pub is_leader: bool,
    pub term: u64,
    pub vote: u64,
    pub commit: u64,
    pub applied: u64,
    pub first_index: u64,
    pub last_index: u64,
    pub snapshot_index: u64,
    pub voters: Vec<u64>,
    pub learners: Vec<u64>,
}

impl RaftNode {
    /// The node's state as plain values; what the `DebugNode` call of
    /// the administrative interface reports.
    pub fn debug_info(&self) -> (r: DebugInfo)
        requires
            self.wf(),
        ensures
            r.id == self.id,
            r.is_leader == self.is_leader,
            r.term == self.storage.hs.term,
            r.vote == self.storage.hs.vote,
            r.commit == self.storage.hs.commit,
            r.applied == self.applied,
            r.first_index == self.storage.first_index_spec(),
            r.last_index == self.storage.last_index_spec(),
            r.snapshot_index == self.storage.snap.meta.index,
            r.voters@ == self.storage.cs.voters@,
            r.learners@ == self.storage.cs.learners@,
    {
        DebugInfo {
            id: self.id,
            is_leader: self.is_leader,
            term: self.storage.hs.term,
            vote: self.storage.hs.vote,
            commit: self.storage.hs.commit,
            applied: self.applied,
            first_index: self.storage.first_index(),
            last_index: self.storage.last_index(),
            snapshot_index: self.storage.snap.meta.index,
            voters: crate::types::clone_ids(&self.storage.cs.voters),
            learners: crate::types::clone_ids(&self.storage.cs.learners),
        }
    }
}

/// Each committed index is handed to the plugin at most once and only
/// after it is committed: the apply history is strictly increasing and
/// never runs past the commit index.
pub proof fn lemma_apply_exactly_once(n: RaftNode)
    requires
        n.wf(),
    ensures
        forall|a: int, b: int|
            0 <= a < b < n.applied_hist@.len() ==> #[trigger] n.applied_hist@[a]
                != #[trigger] n.applied_hist@[b],
        forall|k: int| 0 <= k < n.applied_hist@.len() ==> #[trigger] n.applied_hist@[k]
            <= n.storage.hs.commit,
{
}

/// No two reservations ever name the same id, completed or abandoned:
/// the counter only moves up and every handed-out id sits below it.
pub proof fn lemma_reservations_unique(n: RaftNode)
    requires
        n.wf(),
    ensures
        ids_unique(n.reserved@),
        forall|k: int| 0 <= k < n.reserved@.len() ==> #[trigger] n.reserved@[k]
            < n.next_node_id,
{
}

} // verus!
