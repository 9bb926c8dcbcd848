//! End-to-end exercises of the storage adapter, the codecs, the
//! key-value state machine, the deserialization registry and the node
//! runtime, including the cluster bootstrap-and-join walkthrough.

use raftcore::codec::{decode_command, decode_conf_change, encode_command, encode_conf_change};
use raftcore::codec::{Command, ConfChange};
use raftcore::errors::CoreError;
use raftcore::fsm::KvStore;
use raftcore::node::RaftNode;
use raftcore::registry::{DeserializerRegistry, EntryDecoder, FsmDecoder};
use raftcore::storage::MemStorage;
use raftcore::types::{ConfState, EntryKind, HardState, LogEntry};

fn entry(index: u64, term: u64, kind: EntryKind, payload: Vec<u8>) -> LogEntry {
    LogEntry { index, term, kind, payload }
}

fn sorted(mut v: Vec<u64>) -> Vec<u64> {
    v.sort();
    v
}

#[test]
fn fresh_storage_is_empty() {
    let s = MemStorage::fresh(ConfState::empty());
    assert_eq!(s.first_index(), 1);
    assert_eq!(s.last_index(), 0);
    assert!(s.all_entries().is_empty());
    assert_eq!(s.hard_state(), HardState { term: 0, vote: 0, commit: 0 });
}

#[test]
fn append_then_read_back() {
    let mut s = MemStorage::fresh(ConfState::empty());
    let batch = vec![
        entry(1, 1, EntryKind::Normal, vec![10]),
        entry(2, 1, EntryKind::Normal, vec![20]),
        entry(3, 2, EntryKind::Normal, vec![30]),
    ];
    // entries with terms above the stored hard-state term are refused
    assert_eq!(s.append(&batch), Err(CoreError::Storage));
    assert!(s.set_hard_state(HardState { term: 2, vote: 0, commit: 0 }).is_ok());
    assert!(s.append(&batch).is_ok());
    assert_eq!(s.last_index(), 3);
    let all = s.all_entries();
    assert_eq!(all.len(), 3);
    assert_eq!(all[0].payload, vec![10]);
    let mid = s.entries(2, 4).unwrap();
    assert_eq!(mid.len(), 2);
    assert_eq!(mid[0].index, 2);
    assert_eq!(mid[1].payload, vec![30]);
    assert_eq!(s.entries(0, 2), Err(CoreError::Storage));
    assert_eq!(s.entries(2, 5), Err(CoreError::Storage));
}

#[test]
fn append_conflicting_suffix_overrides() {
    let mut s = MemStorage::fresh(ConfState::empty());
    assert!(s.set_hard_state(HardState { term: 3, vote: 0, commit: 0 }).is_ok());
    let batch = vec![
        entry(1, 1, EntryKind::Normal, vec![1]),
        entry(2, 1, EntryKind::Normal, vec![2]),
        entry(3, 1, EntryKind::Normal, vec![3]),
    ];
    assert!(s.append(&batch).is_ok());
    // a new leader's entries override the stale uncommitted suffix
    let overriding = vec![
        entry(2, 3, EntryKind::Normal, vec![22]),
        entry(3, 3, EntryKind::Normal, vec![33]),
        entry(4, 3, EntryKind::Normal, vec![44]),
    ];
    assert!(s.append(&overriding).is_ok());
    let all = s.all_entries();
    // no gap and a single entry per index
    assert_eq!(all.len(), 4);
    for (i, e) in all.iter().enumerate() {
        assert_eq!(e.index, 1 + i as u64);
    }
    assert_eq!(all[0].payload, vec![1]);
    assert_eq!(all[1].payload, vec![22]);
    assert_eq!(all[2].payload, vec![33]);
    assert_eq!(all[3].payload, vec![44]);
}

#[test]
fn append_with_gap_fails() {
    let mut s = MemStorage::fresh(ConfState::empty());
    assert!(s.set_hard_state(HardState { term: 1, vote: 0, commit: 0 }).is_ok());
    let batch = vec![entry(5, 1, EntryKind::Normal, vec![])];
    assert_eq!(s.append(&batch), Err(CoreError::Storage));
    assert_eq!(s.last_index(), 0);
}

#[test]
fn append_below_commit_fails() {
    let mut s = MemStorage::fresh(ConfState::empty());
    assert!(s.set_hard_state(HardState { term: 1, vote: 0, commit: 0 }).is_ok());
    let batch = vec![
        entry(1, 1, EntryKind::Normal, vec![1]),
        entry(2, 1, EntryKind::Normal, vec![2]),
    ];
    assert!(s.append(&batch).is_ok());
    assert!(s.set_hard_state(HardState { term: 1, vote: 0, commit: 2 }).is_ok());
    let overriding = vec![entry(2, 1, EntryKind::Normal, vec![9])];
    assert_eq!(s.append(&overriding), Err(CoreError::Storage));
    assert_eq!(s.all_entries()[1].payload, vec![2]);
}

#[test]
fn compact_past_last_index_fails_and_changes_nothing() {
    let mut s = MemStorage::fresh(ConfState::empty());
    assert!(s.set_hard_state(HardState { term: 1, vote: 0, commit: 0 }).is_ok());
    let batch: Vec<LogEntry> =
        (1..=40).map(|i| entry(i, 1, EntryKind::Normal, vec![i as u8])).collect();
    assert!(s.append(&batch).is_ok());
    assert_eq!(s.last_index(), 40);
    assert_eq!(s.compact(50), Err(CoreError::Compaction));
    assert_eq!(s.last_index(), 40);
    assert_eq!(s.first_index(), 1);
    assert_eq!(s.all_entries().len(), 40);
}

#[test]
fn compact_after_snapshot_trims_the_log() {
    let mut s = MemStorage::fresh(ConfState::empty());
    assert!(s.set_hard_state(HardState { term: 1, vote: 0, commit: 0 }).is_ok());
    let batch: Vec<LogEntry> =
        (1..=10).map(|i| entry(i, 1, EntryKind::Normal, vec![i as u8])).collect();
    assert!(s.append(&batch).is_ok());
    assert!(s.set_hard_state(HardState { term: 1, vote: 0, commit: 7 }).is_ok());
    assert!(s.record_snapshot(7, vec![]).is_ok());
    // compaction not yet covered by the snapshot is refused
    assert_eq!(s.compact(9), Err(CoreError::Compaction));
    assert!(s.compact(7).is_ok());
    assert_eq!(s.first_index(), 7);
    assert_eq!(s.last_index(), 10);
    let all = s.all_entries();
    assert_eq!(all[0].index, 7);
    assert_eq!(s.term(6), Ok(1));
    assert_eq!(s.term(5), Err(CoreError::Storage));
}

#[test]
fn snapshot_request_honoured_or_refused() {
    let mut s = MemStorage::fresh(ConfState::empty());
    assert!(s.set_hard_state(HardState { term: 1, vote: 0, commit: 0 }).is_ok());
    let batch: Vec<LogEntry> =
        (1..=3).map(|i| entry(i, 1, EntryKind::Normal, vec![])).collect();
    assert!(s.append(&batch).is_ok());
    assert!(s.set_hard_state(HardState { term: 1, vote: 0, commit: 3 }).is_ok());
    assert!(s.record_snapshot(3, vec![9, 9]).is_ok());
    let snap = s.snapshot(0, 0).unwrap();
    assert_eq!(snap.meta.index, 3);
    assert_eq!(snap.data, vec![9, 9]);
    assert!(s.snapshot(4, 0).is_err());
}

#[test]
fn u64_codec_exact_bytes() {
    let c = Command::Insert { key: 7, value: vec![97] };
    let bytes = encode_command(&c);
    let mut expected = vec![0u8];
    expected.extend_from_slice(&[7, 0, 0, 0, 0, 0, 0, 0]);
    expected.extend_from_slice(&[1, 0, 0, 0, 0, 0, 0, 0]);
    expected.push(97);
    assert_eq!(bytes, expected);
}

#[test]
fn command_round_trip() {
    let cases = vec![
        Command::Insert { key: 7, value: b"a".to_vec() },
        Command::Insert { key: u64::MAX, value: vec![] },
        Command::Remove { key: 0 },
    ];
    for c in cases {
        let bytes = encode_command(&c);
        let back = decode_command(&bytes).unwrap();
        match (&c, &back) {
            (
                Command::Insert { key: a, value: va },
                Command::Insert { key: b, value: vb },
            ) => {
                assert_eq!(a, b);
                assert_eq!(va, vb);
            }
            (Command::Remove { key: a }, Command::Remove { key: b }) => assert_eq!(a, b),
            _ => panic!("decoded a different command shape"),
        }
    }
}

#[test]
fn command_decode_rejects_junk() {
    assert_eq!(decode_command(&vec![]), Err(CoreError::Decoding));
    assert_eq!(decode_command(&vec![9, 1, 2]), Err(CoreError::Decoding));
    // an insert whose declared value length disagrees with the input
    let c = Command::Insert { key: 1, value: vec![1, 2, 3] };
    let mut bytes = encode_command(&c);
    bytes.push(0);
    assert_eq!(decode_command(&bytes), Err(CoreError::Decoding));
}

#[test]
fn conf_change_round_trip() {
    let cases = vec![
        ConfChange::AddVoter { id: 2, addr: b"127.0.0.1:6001".to_vec() },
        ConfChange::AddLearner { id: 9, addr: vec![] },
        ConfChange::RemoveNode { id: 3 },
    ];
    for c in cases {
        let bytes = encode_conf_change(&c);
        let back = decode_conf_change(&bytes).unwrap();
        match (&c, &back) {
            (
                ConfChange::AddVoter { id: a, addr: aa },
                ConfChange::AddVoter { id: b, addr: ab },
            ) => {
                assert_eq!(a, b);
                assert_eq!(aa, ab);
            }
            (
                ConfChange::AddLearner { id: a, addr: aa },
                ConfChange::AddLearner { id: b, addr: ab },
            ) => {
                assert_eq!(a, b);
                assert_eq!(aa, ab);
            }
            (ConfChange::RemoveNode { id: a }, ConfChange::RemoveNode { id: b }) => {
                assert_eq!(a, b)
            }
            _ => panic!("decoded a different change shape"),
        }
    }
}

#[test]
fn kv_apply_insert_remove_get() {
    let mut kv = KvStore::new();
    let res = kv.apply(&encode_command(&Command::Insert { key: 7, value: b"a".to_vec() }));
    assert_eq!(res, Ok(b"a".to_vec()));
    assert_eq!(kv.get(7), Some(&b"a".to_vec()));
    let res = kv.apply(&encode_command(&Command::Insert { key: 7, value: b"b".to_vec() }));
    assert_eq!(res, Ok(b"b".to_vec()));
    assert_eq!(kv.get(7), Some(&b"b".to_vec()));
    let res = kv.apply(&encode_command(&Command::Remove { key: 7 }));
    assert_eq!(res, Ok(vec![]));
    assert_eq!(kv.get(7), None);
}

#[test]
fn kv_apply_error_leaves_state_and_reports() {
    let mut kv = KvStore::new();
    assert!(kv
        .apply(&encode_command(&Command::Insert { key: 1, value: vec![5] }))
        .is_ok());
    assert_eq!(kv.apply(&vec![77, 1, 2, 3]), Err(CoreError::Apply));
    assert_eq!(kv.get(1), Some(&vec![5]));
}

#[test]
fn kv_snapshot_restore_round_trip() {
    let mut kv = KvStore::new();
    for i in 0..5u64 {
        assert!(kv
            .apply(&encode_command(&Command::Insert { key: i, value: vec![i as u8; 3] }))
            .is_ok());
    }
    let snap = kv.snapshot();
    let mut fresh = KvStore::new();
    assert!(fresh.restore(&snap).is_ok());
    for i in 0..5u64 {
        assert_eq!(fresh.get(i), Some(&vec![i as u8; 3]));
    }
    assert_eq!(fresh.get(5), None);
}

#[test]
fn kv_restore_rejects_junk_and_keeps_state() {
    let mut kv = KvStore::new();
    assert!(kv
        .apply(&encode_command(&Command::Insert { key: 1, value: vec![1] }))
        .is_ok());
    assert_eq!(kv.restore(&vec![1, 2, 3]), Err(CoreError::Decoding));
    assert_eq!(kv.get(1), Some(&vec![1]));
}

#[test]
fn kv_decode_rejects_duplicate_keys() {
    // a crafted state that binds key 1 twice
    let mut bytes = vec![2u8, 0, 0, 0, 0, 0, 0, 0];
    for _ in 0..2 {
        bytes.extend_from_slice(&[1, 0, 0, 0, 0, 0, 0, 0]); // key 1
        bytes.extend_from_slice(&[1, 0, 0, 0, 0, 0, 0, 0]); // value length 1
        bytes.push(9);
    }
    assert_eq!(KvStore::decode(&bytes).err(), Some(CoreError::Decoding));
    // the same layout with distinct keys decodes
    bytes[8] = 1;
    bytes[25] = 2;
    let kv = KvStore::decode(&bytes).unwrap();
    assert_eq!(kv.get(1), Some(&vec![9]));
    assert_eq!(kv.get(2), Some(&vec![9]));
}

#[test]
fn conf_change_exact_bytes() {
    let bytes = encode_conf_change(&ConfChange::RemoveNode { id: 3 });
    assert_eq!(bytes, vec![2, 3, 0, 0, 0, 0, 0, 0, 0]);
}

#[test]
fn registry_decode_before_registration_fails() {
    let reg = DeserializerRegistry::new();
    let bytes = encode_command(&Command::Insert { key: 1, value: vec![2] });
    assert_eq!(reg.decode_log_entry(&bytes), Err(CoreError::Decoding));
    assert_eq!(
        reg.decode_fsm(&KvStore::new().encode()).err(),
        Some(CoreError::Decoding)
    );
}

#[test]
fn registry_decode_after_registration_round_trips() {
    let mut reg = DeserializerRegistry::new();
    reg.set_log_entry_deserializer(EntryDecoder::KvCommand);
    // registering twice replaces the earlier entry: last write wins
    reg.set_log_entry_deserializer(EntryDecoder::KvCommand);
    reg.set_fsm_deserializer(FsmDecoder::KvState);
    let bytes = encode_command(&Command::Insert { key: 1, value: vec![2] });
    match reg.decode_log_entry(&bytes).unwrap() {
        Command::Insert { key, value } => {
            assert_eq!(key, 1);
            assert_eq!(value, vec![2]);
        }
        _ => panic!("decoded a different command shape"),
    }
    let mut kv = KvStore::new();
    assert!(kv
        .apply(&encode_command(&Command::Insert { key: 4, value: vec![9] }))
        .is_ok());
    let decoded = reg.decode_fsm(&kv.encode()).unwrap();
    assert_eq!(decoded.get(4), Some(&vec![9]));
}

#[test]
fn bootstrap_node_is_sole_voter_and_leader() {
    let n = RaftNode::bootstrap(1, b"127.0.0.1:6001".to_vec());
    assert!(n.is_leader);
    let info = n.debug_info();
    assert_eq!(info.id, 1);
    assert_eq!(info.voters, vec![1]);
    assert_eq!(info.term, 1);
    assert_eq!(info.commit, 0);
    assert_eq!(info.applied, 0);
    assert_eq!(info.first_index, 1);
    assert_eq!(info.last_index, 0);
}

#[test]
fn propose_on_follower_fails_with_not_leader() {
    let mut n = RaftNode::join(2, b"127.0.0.1:6002".to_vec());
    assert_eq!(n.propose(vec![1, 2, 3]), Err(CoreError::NotLeader));
}

#[test]
fn request_id_on_follower_fails() {
    let mut n = RaftNode::join(2, b"127.0.0.1:6002".to_vec());
    assert_eq!(n.handle_request_id().err(), Some(CoreError::IdReservation));
}

#[test]
fn abandoned_reservation_is_never_reused() {
    let mut leader = RaftNode::bootstrap(1, b"l".to_vec());
    let first = leader.handle_request_id().unwrap();
    // the joining node crashes before MemberBootstrapReady: the id is
    // wasted, never handed out again
    let second = leader.handle_request_id().unwrap();
    let third = leader.handle_request_id().unwrap();
    assert_eq!(first.reserved_id, 2);
    assert_eq!(second.reserved_id, 3);
    assert_eq!(third.reserved_id, 4);
    assert_ne!(first.reserved_id, second.reserved_id);
    assert_ne!(second.reserved_id, third.reserved_id);
}

#[test]
fn apply_is_in_order_and_exactly_once() {
    let mut n = RaftNode::bootstrap(1, b"l".to_vec());
    let i1 = n.propose(encode_command(&Command::Insert { key: 1, value: vec![1] })).unwrap();
    let i2 = n.propose(encode_command(&Command::Insert { key: 2, value: vec![2] })).unwrap();
    assert_eq!((i1, i2), (1, 2));
    n.advance_commit(1);
    let outs = n.apply_committed().unwrap();
    assert_eq!(outs.len(), 1);
    assert_eq!(outs[0].index, 1);
    // nothing is applied twice: a second pass has no work
    let outs = n.apply_committed().unwrap();
    assert!(outs.is_empty());
    n.advance_commit(2);
    let outs = n.apply_committed().unwrap();
    assert_eq!(outs.len(), 1);
    assert_eq!(outs[0].index, 2);
    assert_eq!(n.fsm.get(1), Some(&vec![1]));
    assert_eq!(n.fsm.get(2), Some(&vec![2]));
}

#[test]
fn commit_never_outruns_the_log() {
    let mut n = RaftNode::bootstrap(1, b"l".to_vec());
    n.propose(encode_command(&Command::Insert { key: 1, value: vec![1] })).unwrap();
    n.advance_commit(100);
    assert_eq!(n.debug_info().commit, 1);
}

#[test]
fn leave_keeps_participating_until_commit() {
    let mut n = RaftNode::bootstrap(1, b"l".to_vec());
    let idx = n.leave().unwrap();
    // having proposed its own removal changes nothing yet
    assert!(n.is_leader);
    assert_eq!(n.debug_info().voters, vec![1]);
    n.advance_commit(idx);
    let outs = n.apply_committed().unwrap();
    assert_eq!(outs.len(), 1);
    assert!(n.debug_info().voters.is_empty());
}

#[test]
fn three_node_bootstrap_join_propose_snapshot() {
    let mut reg = DeserializerRegistry::new();
    reg.set_log_entry_deserializer(EntryDecoder::KvCommand);
    reg.set_fsm_deserializer(FsmDecoder::KvState);

    // node 1 bootstraps as leader
    let mut leader = RaftNode::bootstrap(1, b"127.0.0.1:6001".to_vec());

    // nodes 2 and 3 join via the reservation handshake
    let r2 = leader.handle_request_id().unwrap();
    assert_eq!(r2.reserved_id, 2);
    assert_eq!(r2.leader_addr, b"127.0.0.1:6001".to_vec());
    let _node2 = RaftNode::join(r2.reserved_id, b"127.0.0.1:6002".to_vec());
    let idx = leader
        .handle_member_bootstrap_ready(2, &b"127.0.0.1:6002".to_vec(), true)
        .unwrap();
    leader.advance_commit(idx);
    leader.apply_committed().unwrap();

    let r3 = leader.handle_request_id().unwrap();
    assert_eq!(r3.reserved_id, 3);
    let _node3 = RaftNode::join(r3.reserved_id, b"127.0.0.1:6003".to_vec());
    let idx = leader
        .handle_member_bootstrap_ready(3, &b"127.0.0.1:6003".to_vec(), true)
        .unwrap();
    leader.advance_commit(idx);
    leader.apply_committed().unwrap();

    // after both changes commit the voters are exactly {1, 2, 3}
    assert_eq!(sorted(leader.debug_info().voters), vec![1, 2, 3]);

    // a client proposes an insert; the apply result reflects it
    let cmd = encode_command(&Command::Insert { key: 7, value: b"a".to_vec() });
    let idx = leader.propose(cmd).unwrap();
    leader.advance_commit(idx);
    let outs = leader.apply_committed().unwrap();
    assert_eq!(outs.len(), 1);
    assert_eq!(outs[0].result, Ok(b"a".to_vec()));
    assert_eq!(leader.fsm.get(7), Some(&b"a".to_vec()));

    // a freshly joined node 4 reproduces key 7 from the snapshot alone
    leader.take_snapshot().unwrap();
    let snap = leader.storage.snapshot(0, 0).unwrap().clone();
    let r4 = leader.handle_request_id().unwrap();
    assert_eq!(r4.reserved_id, 4);
    let node4 = RaftNode::from_snapshot(4, b"127.0.0.1:6004".to_vec(), &reg, snap).unwrap();
    assert_eq!(node4.fsm.get(7), Some(&b"a".to_vec()));
    assert_eq!(node4.applied, leader.applied);
    assert!(node4.storage.all_entries().is_empty());
}

#[test]
fn config_change_entries_flow_through_the_same_log() {
    let mut n = RaftNode::bootstrap(1, b"l".to_vec());
    let idx = n.handle_member_bootstrap_ready(2, &b"addr2".to_vec(), false).unwrap();
    assert_eq!(idx, 1);
    let all = n.storage.all_entries();
    assert_eq!(all.len(), 1);
    assert_eq!(all[0].kind, EntryKind::ConfigChange);
    n.advance_commit(idx);
    n.apply_committed().unwrap();
    let info = n.debug_info();
    assert_eq!(info.voters, vec![1]);
    assert_eq!(info.learners, vec![2]);
}

#[test]
fn undecodable_config_change_is_fatal() {
    let mut n = RaftNode::bootstrap(1, b"l".to_vec());
    // a raw append of a ConfigChange entry whose payload is junk
    let bad = vec![entry(1, 1, EntryKind::ConfigChange, vec![250, 0])];
    assert!(n.storage.append(&bad).is_ok());
    n.advance_commit(1);
    assert_eq!(n.apply_committed(), Err(CoreError::Decoding));
}

#[test]
fn install_snapshot_rejects_stale() {
    let mut a = RaftNode::bootstrap(1, b"a".to_vec());
    for k in 0..3u64 {
        let idx = a
            .propose(encode_command(&Command::Insert { key: k, value: vec![1] }))
            .unwrap();
        a.advance_commit(idx);
        a.apply_committed().unwrap();
    }
    a.take_snapshot().unwrap();
    let snap = a.storage.snapshot(0, 0).unwrap().clone();
    let mut s = MemStorage::fresh(ConfState::empty());
    assert!(s.install_snapshot(snap.clone()).is_ok());
    assert_eq!(s.first_index(), 4);
    assert_eq!(s.hard_state().commit, 3);
    // installing it again is fine (equal index), but an older one is not
    let mut older = snap.clone();
    older.meta.index = 1;
    assert_eq!(s.install_snapshot(older), Err(CoreError::Storage));
}
