//! The data model: log entries, hard state, cluster configuration,
//! snapshots and node identities, together with the well-formedness
//! predicates the rest of the core maintains.

use vstd::prelude::*;

verus! {

/// The two kinds of replicated log entry.
#[derive(Clone, Copy, Debug, PartialEq, Eq, Structural)]
pub enum EntryKind {
    /// An application command, handed to the state machine on commit.
    Normal,
    /// A membership change, applied to the configuration on commit.
    ConfigChange,
}

/// One replicated log entry.
#[derive(Clone, Debug, PartialEq, Eq)]
pub struct LogEntry {
    pub index: u64,
    pub term: u64,
    pub kind: EntryKind,
    pub payload: Vec<u8>,
}

impl LogEntry {
    /// Spec-level equality of entries, field by field.
    pub open spec fn is_entry(self, index: u64, term: u64, kind: EntryKind, payload: Seq<u8>) -> bool {
        &&& self.index == index
        &&& self.term == term
        &&& self.kind == kind
        &&& self.payload@ == payload
    }
}

/// A batch of entries is well formed when its indices are contiguous
/// (each the first index plus its distance from the front) and its
/// terms never decrease front to back.
pub open spec fn entries_wf(s: Seq<LogEntry>) -> bool {
    &&& forall|i: int| 0 <= i < s.len() ==> (#[trigger] s[i]).index == s[0].index + i
    &&& forall|i: int, j: int|
        0 <= i <= j < s.len() ==> (#[trigger] s[i]).term <= (#[trigger] s[j]).term
}

/// Durable per-node consensus state. A vote of 0 means "none": node ids
/// are allocated from 1 upward, so 0 never names a node.
#[derive(Clone, Copy, Debug, PartialEq, Eq, Structural)]
pub struct HardState {
    pub term: u64,
    pub vote: u64,
    pub commit: u64,
}

/// The cluster configuration, possibly in a joint (two-phase) state:
/// a non-empty outgoing voter set means a change is not yet finalized.
#[derive(Clone, Debug)]
pub struct ConfState {
    pub voters: Vec<u64>,
    pub learners: Vec<u64>,
    pub voters_outgoing: Vec<u64>,
    pub learners_next: Vec<u64>,
    pub auto_leave: bool,
}

/// No id occurs twice in one membership list.
pub open spec fn ids_unique(s: Seq<u64>) -> bool {
    forall|i: int, j: int| 0 <= i < j < s.len() ==> #[trigger] s[i] != #[trigger] s[j]
}

impl ConfState {
    /// Each list duplicate-free, and no id simultaneously a voter and a
    /// learner; in a settled (non-joint) state the outgoing set is empty.
    pub open spec fn wf(self) -> bool {
        &&& ids_unique(self.voters@)
        &&& ids_unique(self.learners@)
        &&& ids_unique(self.voters_outgoing@)
        &&& ids_unique(self.learners_next@)
        &&& forall|x: u64| self.voters@.contains(x) ==> !self.learners@.contains(x)
        &&& forall|x: u64| self.voters_outgoing@.contains(x) ==> !self.learners@.contains(x)
    }

    /// A fresh, settled configuration with no members.
    pub fn empty() -> (r: ConfState)
        ensures
            r.wf(),
            r.voters@ =~= Seq::<u64>::empty(),
            r.learners@ =~= Seq::<u64>::empty(),
            r.voters_outgoing@ =~= Seq::<u64>::empty(),
            r.learners_next@ =~= Seq::<u64>::empty(),
            r.auto_leave == false,
    {
        ConfState {
            voters: Vec::new(),
            learners: Vec::new(),
            voters_outgoing: Vec::new(),
            learners_next: Vec::new(),
            auto_leave: false,
        }
    }
}

/// Whether an id occurs in a membership list.
pub fn list_contains(s: &Vec<u64>, x: u64) -> (r: bool)
    ensures
        r == s@.contains(x),
{
    let mut i: usize = 0;
    while i < s.len()
        invariant
            i <= s.len(),
            forall|k: int| 0 <= k < i ==> s@[k] != x,
        decreases s.len() - i,
    {
        if s[i] == x {
            return true;
        }
        i = i + 1;
    }
    false
}

/// Appends an id unless it is already present; keeps uniqueness.
pub fn list_add(s: &mut Vec<u64>, x: u64)
    requires
        ids_unique(old(s)@),
    ensures
        ids_unique(final(s)@),
        forall|y: u64| #[trigger] final(s)@.contains(y) <==> (old(s)@.contains(y) || y == x),
        old(s)@.contains(x) ==> final(s)@ == old(s)@,
{
    if !list_contains(s, x) {
        s.push(x);
        proof {
            assert forall|y: u64| #[trigger] s@.contains(y) implies (old(s)@.contains(y) || y == x) by {
                let k = choose|k: int| 0 <= k < s@.len() && s@[k] == y;
                if k < old(s)@.len() {
                    assert(old(s)@[k] == y);
                }
            }
            assert forall|y: u64| (old(s)@.contains(y) || y == x) implies #[trigger] s@.contains(y) by {
                if old(s)@.contains(y) {
                    let k = choose|k: int| 0 <= k < old(s)@.len() && old(s)@[k] == y;
                    assert(s@[k] == y);
                } else {
                    assert(s@[s@.len() - 1] == x);
                }
            }
        }
    }
}

/// Removes every occurrence of an id; keeps uniqueness and the others.
pub fn list_remove(s: &mut Vec<u64>, x: u64)
    requires
        ids_unique(old(s)@),
    ensures
        ids_unique(final(s)@),
        forall|y: u64| #[trigger] final(s)@.contains(y) <==> (old(s)@.contains(y) && y != x),
{
    let ghost orig = old(s)@;
    let mut out: Vec<u64> = Vec::new();
    let mut i: usize = 0;
    while i < s.len()
        invariant
            i <= s@.len(),
            s@ == orig,
            ids_unique(orig),
            ids_unique(out@),
            forall|y: u64| #[trigger] out@.contains(y) <==> (exists|k: int|
                0 <= k < i && orig[k] == y && y != x),
        decreases s@.len() - i,
    {
        let y = s[i];
        if y != x {
            proof {
                if out@.contains(y) {
                    let k = choose|k: int| 0 <= k < i && orig[k] == y && y != x;
                    assert(orig[k] == orig[i as int]);
                }
            }
            let ghost before = out@;
            out.push(y);
            proof {
                assert forall|z: u64| #[trigger] out@.contains(z) implies (exists|k: int|
                    0 <= k < i + 1 && orig[k] == z && z != x) by {
                    let a = choose|a: int| 0 <= a < out@.len() && out@[a] == z;
                    if a < out@.len() - 1 {
                        assert(before[a] == z);
                        assert(before.contains(z));
                    } else {
                        assert(orig[i as int] == z);
                    }
                }
                assert forall|z: u64| (exists|k: int| 0 <= k < i + 1 && orig[k] == z && z != x)
                    implies #[trigger] out@.contains(z) by {
                    let k = choose|k: int| 0 <= k < i + 1 && orig[k] == z && z != x;
                    if k < i {
                        assert(before.contains(z));
                        let a = choose|a: int| 0 <= a < before.len() && before[a] == z;
                        assert(out@[a] == z);
                    } else {
                        assert(out@[out@.len() - 1] == z);
                    }
                }
                assert forall|a: int, b: int| 0 <= a < b < out@.len() implies out@[a] != out@[b] by {
                    if b == out@.len() - 1 && out@[a] == out@[b] {
                        assert(before[a] == y);
                        assert(before.contains(y));
                    }
                }
            }
        } else {
            proof {
                assert forall|z: u64| (exists|k: int| 0 <= k < i + 1 && orig[k] == z && z != x)
                    implies #[trigger] out@.contains(z) by {
                    let k = choose|k: int| 0 <= k < i + 1 && orig[k] == z && z != x;
                    assert(k != i);
                }
            }
        }
        i = i + 1;
    }
    proof {
        assert forall|y: u64| (orig.contains(y) && y != x) implies #[trigger] out@.contains(y) by {
            let k = choose|k: int| 0 <= k < orig.len() && orig[k] == y;
            assert(orig[k] == y && y != x);
        }
        assert forall|y: u64| #[trigger] out@.contains(y) implies (orig.contains(y) && y != x) by {
            let k = choose|k: int| 0 <= k < i && orig[k] == y && y != x;
            assert(orig.contains(y));
        }
    }
    *s = out;
}

/// Whether no id occurs twice in the list.
pub fn ids_all_unique(v: &Vec<u64>) -> (r: bool)
    ensures
        r == ids_unique(v@),
{
    let mut i: usize = 0;
    while i < v.len()
        invariant
            i <= v@.len(),
            forall|a: int, b: int| 0 <= a < b < v@.len() && a < i ==> #[trigger] v@[a]
                != #[trigger] v@[b],
        decreases v@.len() - i,
    {
        let mut j: usize = i + 1;
        while j < v.len()
            invariant
                i < v@.len(),
                i < j,
                forall|b: int| i < b < j ==> v@[b] != v@[i as int],
            decreases v@.len() - j,
        {
            if v[j] == v[i] {
                return false;
            }
            j = j + 1;
        }
        i = i + 1;
    }
    true
}

/// Whether no id of `a` occurs in `b`.
pub fn lists_disjoint(a: &Vec<u64>, b: &Vec<u64>) -> (r: bool)
    ensures
        r == (forall|x: u64| a@.contains(x) ==> !b@.contains(x)),
{
    let mut i: usize = 0;
    while i < a.len()
        invariant
            i <= a@.len(),
            forall|k: int| 0 <= k < i ==> !b@.contains(#[trigger] a@[k]),
        decreases a@.len() - i,
    {
        if list_contains(b, a[i]) {
            proof {
                assert(a@.contains(a@[i as int]));
            }
            return false;
        }
        i = i + 1;
    }
    proof {
        assert forall|x: u64| a@.contains(x) implies !b@.contains(x) by {
            let k = choose|k: int| 0 <= k < a@.len() && a@[k] == x;
        }
    }
    true
}

/// Whether a configuration is well formed, checked at the boundary
/// where one arrives from outside.
pub fn conf_wf_check(c: &ConfState) -> (r: bool)
    ensures
        r == c.wf(),
{
    ids_all_unique(&c.voters) && ids_all_unique(&c.learners) && ids_all_unique(&c.voters_outgoing)
        && ids_all_unique(&c.learners_next) && lists_disjoint(&c.voters, &c.learners)
        && lists_disjoint(&c.voters_outgoing, &c.learners)
}

/// Copies a list of ids.
pub fn clone_ids(s: &Vec<u64>) -> (r: Vec<u64>)
    ensures
        r@ == s@,
{
    let mut r: Vec<u64> = Vec::new();
    let mut i: usize = 0;
    while i < s.len()
        invariant
            i <= s@.len(),
            r@ == s@.subrange(0, i as int),
        decreases s@.len() - i,
    {
        r.push(s[i]);
        assert(r@ =~= s@.subrange(0, i + 1));
        i = i + 1;
    }
    assert(r@ =~= s@);
    r
}

impl ConfState {
    /// A field-for-field copy.
    pub fn duplicate(&self) -> (r: ConfState)
        ensures
            r.voters@ == self.voters@,
            r.learners@ == self.learners@,
            r.voters_outgoing@ == self.voters_outgoing@,
            r.learners_next@ == self.learners_next@,
            r.auto_leave == self.auto_leave,
            r.wf() == self.wf(),
    {
        ConfState {
            voters: clone_ids(&self.voters),
            learners: clone_ids(&self.learners),
            voters_outgoing: clone_ids(&self.voters_outgoing),
            learners_next: clone_ids(&self.learners_next),
            auto_leave: self.auto_leave,
        }
    }
}

/// Snapshot metadata: the log position the snapshot corresponds to and
/// the configuration in force at that position.
#[derive(Clone, Debug)]
pub struct SnapshotMeta {
    pub index: u64,
    pub term: u64,
    pub conf_state: ConfState,
}

/// A point-in-time serialization of state-machine state plus its log
/// position; entries at or below `meta.index` may be purged.
#[derive(Clone, Debug)]
pub struct Snapshot {
    pub meta: SnapshotMeta,
    pub data: Vec<u8>,
}

/// A node's identity: its cluster-unique id and its transport address,
/// held as the raw bytes of the address string.
#[derive(Clone, Debug)]
pub struct NodeIdentity {
    pub id: u64,
    pub addr: Vec<u8>,
}

} // verus!
