//! The state-machine plugin protocol and the key-value state machine
//! that implements it. A plugin consumes committed entry payloads in
//! order, can serialize its whole state, and can be rebuilt from such a
//! serialization.

use vstd::prelude::*;

use crate::codec::{
    append_bytes, clone_bytes, copy_range, decode_command, enc_pair, enc_pairs, enc_state,
    pairs_fit, parse_command, parse_pairs, parse_state, read_u64, write_u64, CmdModel, Command,
};
use crate::errors::CoreError;

verus! {

/// The capability set a state-machine plugin implements. `apply` folds
/// one committed payload into the state; `snapshot`/`encode` serialize
/// the whole state; `restore` and `decode` rebuild it from bytes.
pub trait StateMachine: Sized {
    /// The plugin's internal well-formedness.
    spec fn wf(&self) -> bool;

    /// Folds one committed entry payload into the state.
    fn apply(&mut self, payload: &Vec<u8>) -> (r: Result<Vec<u8>, CoreError>)
        requires
            old(self).wf(),
        ensures
            final(self).wf(),
    ;

    /// Serializes a state consistent with everything applied so far.
    fn snapshot(&self) -> (r: Vec<u8>)
        requires
            self.wf(),
    ;

    /// Replaces the whole state with a decoded serialization.
    fn restore(&mut self, data: &Vec<u8>) -> (r: Result<(), CoreError>)
        requires
            old(self).wf(),
        ensures
            final(self).wf(),
    ;

    /// Serializes the current state (the wire twin of `decode`).
    fn encode(&self) -> (r: Vec<u8>)
        requires
            self.wf(),
    ;

    /// Rebuilds an instance from a serialization.
    fn decode(data: &Vec<u8>) -> (r: Result<Self, CoreError>)
        ensures
            r matches Ok(m) ==> m.wf(),
    ;
}

/// One key/value binding of the key-value state machine.
#[derive(Clone, Debug)]
pub struct KvPair {
    pub key: u64,
    pub value: Vec<u8>,
}

impl View for KvPair {
    type V = (u64, Seq<u8>);

    open spec fn view(&self) -> (u64, Seq<u8>) {
        (self.key, self.value@)
    }
}

/// No key occurs twice in a pair list.
pub open spec fn kv_keys_unique(s: Seq<(u64, Seq<u8>)>) -> bool {
    forall|i: int, j: int| 0 <= i < j < s.len() ==> (#[trigger] s[i]).0 != (#[trigger] s[j]).0
}

/// The map a pair list denotes; later pairs win, and with unique keys
/// the order is immaterial.
pub open spec fn kv_map(s: Seq<(u64, Seq<u8>)>) -> Map<u64, Seq<u8>>
    decreases s.len(),
{
    if s.len() == 0 {
        Map::empty()
    } else {
        kv_map(s.drop_last()).insert(s.last().0, s.last().1)
    }
}

/// The domain of `kv_map` is exactly the keys of the list.
pub proof fn lemma_kv_map_contains(s: Seq<(u64, Seq<u8>)>)
    ensures
        forall|k: u64| #[trigger]
            kv_map(s).contains_key(k) <==> exists|i: int| 0 <= i < s.len() && (#[trigger] s[i]).0
                == k,
    decreases s.len(),
{
    if s.len() > 0 {
        lemma_kv_map_contains(s.drop_last());
        assert forall|k: u64| #[trigger] kv_map(s).contains_key(k) implies exists|i: int|
            0 <= i < s.len() && (#[trigger] s[i]).0 == k by {
            if k == s.last().0 {
                assert((s[s.len() - 1]).0 == k);
            } else {
                assert(kv_map(s.drop_last()).contains_key(k));
                let i = choose|i: int| 0 <= i < s.drop_last().len() && (s.drop_last()[i]).0 == k;
                assert((s[i]).0 == k);
            }
        }
        assert forall|k: u64| (exists|i: int| 0 <= i < s.len() && (#[trigger] s[i]).0 == k)
            implies #[trigger] kv_map(s).contains_key(k) by {
            let i = choose|i: int| 0 <= i < s.len() && (s[i]).0 == k;
            if i < s.len() - 1 {
                assert((s.drop_last()[i]).0 == k);
                assert(kv_map(s.drop_last()).contains_key(k));
            }
        }
    }
}

/// With unique keys, the map binds each listed key to its listed value.
pub proof fn lemma_kv_map_index(s: Seq<(u64, Seq<u8>)>, i: int)
    requires
        kv_keys_unique(s),
        0 <= i < s.len(),
    ensures
        kv_map(s).contains_key(s[i].0),
        kv_map(s)[s[i].0] == s[i].1,
    decreases s.len(),
{
    if i < s.len() - 1 {
        lemma_kv_map_index(s.drop_last(), i);
    }
}

/// Overwriting the value at position `i` inserts into the map.
pub proof fn lemma_kv_map_update(s: Seq<(u64, Seq<u8>)>, i: int, v: Seq<u8>)
    requires
        kv_keys_unique(s),
        0 <= i < s.len(),
    ensures
        kv_map(s.update(i, (s[i].0, v))) == kv_map(s).insert(s[i].0, v),
    decreases s.len(),
{
    let t = s.update(i, (s[i].0, v));
    if i == s.len() - 1 {
        assert(t.drop_last() =~= s.drop_last());
        assert(kv_map(s.drop_last()).insert(s[i].0, s[i].1).insert(s[i].0, v) =~= kv_map(
            s.drop_last(),
        ).insert(s[i].0, v));
    } else {
        lemma_kv_map_update(s.drop_last(), i, v);
        assert(t.drop_last() =~= s.drop_last().update(i, (s[i].0, v)));
        assert(t.last() == s.last());
        assert(kv_map(s.drop_last()).insert(s[i].0, v).insert(s.last().0, s.last().1) =~= kv_map(
            s.drop_last(),
        ).insert(s.last().0, s.last().1).insert(s[i].0, v));
    }
}

/// Appending a fresh pair inserts into the map.
pub proof fn lemma_kv_map_push(s: Seq<(u64, Seq<u8>)>, k: u64, v: Seq<u8>)
    ensures
        kv_map(s.push((k, v))) == kv_map(s).insert(k, v),
{
    assert(s.push((k, v)).drop_last() =~= s);
    assert(s.push((k, v)).last() == (k, v));
}

/// Deleting the pair at position `i` removes its key from the map.
pub proof fn lemma_kv_map_remove(s: Seq<(u64, Seq<u8>)>, i: int)
    requires
        kv_keys_unique(s),
        0 <= i < s.len(),
    ensures
        kv_map(s.remove(i)) == kv_map(s).remove(s[i].0),
    decreases s.len(),
{
    lemma_kv_map_contains(s.drop_last());
    if i == s.len() - 1 {
        assert(s.remove(i) =~= s.drop_last());
        assert(!kv_map(s.drop_last()).contains_key(s[i].0)) by {
            if kv_map(s.drop_last()).contains_key(s[i].0) {
                let j = choose|j: int|
                    0 <= j < s.drop_last().len() && (s.drop_last()[j]).0 == s[i].0;
                assert((s[j]).0 == (s[i]).0);
            }
        }
        assert(kv_map(s.drop_last()).insert(s[i].0, s[i].1).remove(s[i].0) =~= kv_map(
            s.drop_last(),
        ));
    } else {
        lemma_kv_map_remove(s.drop_last(), i);
        assert(s.remove(i).drop_last() =~= s.drop_last().remove(i));
        assert(s.remove(i).last() == s.last());
        assert(kv_map(s.drop_last()).remove(s[i].0).insert(s.last().0, s.last().1) =~= kv_map(
            s.drop_last(),
        ).insert(s.last().0, s.last().1).remove(s[i].0));
    }
}

/// Encoding distributes over appending one pair at the end.
pub proof fn lemma_enc_pairs_snoc(s: Seq<(u64, Seq<u8>)>, p: (u64, Seq<u8>))
    ensures
        enc_pairs(s.push(p)) == enc_pairs(s) + enc_pair(p.0, p.1),
    decreases s.len(),
{
    let c = enc_pair(p.0, p.1);
    if s.len() == 0 {
        assert(s.push(p)[0] == p);
        assert(s.push(p).skip(1) =~= Seq::<(u64, Seq<u8>)>::empty());
        assert(enc_pairs(s.push(p)) == c + enc_pairs(Seq::<(u64, Seq<u8>)>::empty()));
        assert(c + Seq::<u8>::empty() =~= Seq::<u8>::empty() + c);
    } else {
        let a = enc_pair(s[0].0, s[0].1);
        let b = enc_pairs(s.skip(1));
        assert(s.push(p)[0] == s[0]);
        assert(s.push(p).skip(1) =~= s.skip(1).push(p));
        lemma_enc_pairs_snoc(s.skip(1), p);
        assert(enc_pairs(s.push(p)) == a + (b + c));
        assert(a + (b + c) =~= (a + b) + c);
        assert(enc_pairs(s) == a + b);
    }
}

/// Whether exactly `n` pairs parse at `s` and consume all of it.
pub open spec fn pairs_complete(s: Seq<u8>, n: nat) -> bool {
    parse_pairs(s, n) matches Some(pr) && pr.1.len() == 0
}

/// The pairs parsed at `s` when `pairs_complete` holds.
pub open spec fn pairs_value(s: Seq<u8>, n: nat) -> Seq<(u64, Seq<u8>)> {
    parse_pairs(s, n).unwrap().0
}

/// Whether `d` spells a state whose keys are unique.
pub open spec fn state_ok(d: Seq<u8>) -> bool {
    parse_state(d) matches Some(s) && kv_keys_unique(s)
}

/// The pair list `d` spells when `state_ok` holds.
pub open spec fn state_value(d: Seq<u8>) -> Seq<(u64, Seq<u8>)> {
    parse_state(d).unwrap()
}

/// The authoritative application state of one node: a finite map from
/// integer keys to byte-string values, mutated only by `apply` in
/// commit order or replaced wholesale by `restore`.
#[derive(Clone, Debug)]
pub struct KvStore {
    pub pairs: Vec<KvPair>,
}

impl View for KvStore {
    type V = Map<u64, Seq<u8>>;

    open spec fn view(&self) -> Map<u64, Seq<u8>> {
        kv_map(self.entries_view())
    }
}

impl KvStore {
    /// The pair list as a mathematical sequence.
    pub open spec fn entries_view(self) -> Seq<(u64, Seq<u8>)> {
        self.pairs@.map_values(|p: KvPair| p@)
    }

    /// Keys unique and every length small enough to serialize.
    pub open spec fn inv(self) -> bool {
        &&& kv_keys_unique(self.entries_view())
        &&& pairs_fit(self.entries_view())
        &&& self.pairs@.len() <= u64::MAX
    }

    /// A fresh, empty state machine.
    pub fn new() -> (r: KvStore)
        ensures
            r.inv(),
            r@ == Map::<u64, Seq<u8>>::empty(),
    {
        let r = KvStore { pairs: Vec::new() };
        proof {
            assert(r.entries_view() =~= Seq::<(u64, Seq<u8>)>::empty());
        }
        r
    }

    /// The position of `key` in the pair list, if bound.
    fn find(&self, key: u64) -> (r: Option<usize>)
        ensures
            r matches Some(i) ==> i < self.pairs@.len() && self.pairs@[i as int].key == key,
            r is None ==> forall|i: int| 0 <= i < self.pairs@.len() ==> (#[trigger] self.pairs@[i]).key != key,
    {
        let mut i: usize = 0;
        while i < self.pairs.len()
            invariant
                i <= self.pairs@.len(),
                forall|k: int| 0 <= k < i ==> (#[trigger] self.pairs@[k]).key != key,
            decreases self.pairs@.len() - i,
        {
            if self.pairs[i].key == key {
                return Some(i);
            }
            i = i + 1;
        }
        None
    }

    /// The value bound to `key`, if any.
    pub fn get(&self, key: u64) -> (r: Option<&Vec<u8>>)
        requires
            self.inv(),
        ensures
            r matches Some(v) ==> self@.contains_key(key) && v@ == self@[key],
            r is None ==> !self@.contains_key(key),
    {
        match self.find(key) {
            Some(i) => {
                proof {
                    assert(self.entries_view()[i as int].0 == key);
                    lemma_kv_map_index(self.entries_view(), i as int);
                }
                Some(&self.pairs[i].value)
            },
            None => {
                proof {
                    lemma_kv_map_contains(self.entries_view());
                    if self@.contains_key(key) {
                        let i = choose|i: int|
                            0 <= i < self.entries_view().len() && (self.entries_view()[i]).0 == key;
                        assert(self.pairs@[i].key == key);
                    }
                }
                None
            },
        }
    }

    /// Binds `key` to `value`, replacing any earlier binding.
    pub fn upsert(&mut self, key: u64, value: Vec<u8>)
        requires
            old(self).inv(),
        ensures
            final(self).inv(),
            final(self)@ == old(self)@.insert(key, value@),
    {
        let vlen = value.len();
        proof {
            assert(value@.len() == vlen <= u64::MAX);
        }
        match self.find(key) {
            Some(i) => {
                let ghost pre = self.entries_view();
                self.pairs.set(i, KvPair { key, value });
                proof {
                    assert(self.entries_view() =~= pre.update(i as int, (key, value@)));
                    assert forall|j: int| 0 <= j < self.entries_view().len() implies (
                    #[trigger] self.entries_view()[j]).1.len() <= u64::MAX by {
                        if j != i as int {
                            assert((pre[j]).1.len() <= u64::MAX);
                        }
                    }
                    assert(pre[i as int].0 == key);
                    lemma_kv_map_update(pre, i as int, value@);
                    assert forall|a: int, b: int|
                        0 <= a < b < self.entries_view().len() implies (#[trigger] self.entries_view()[a]).0
                        != (#[trigger] self.entries_view()[b]).0 by {
                        assert((pre[a]).0 != (pre[b]).0);
                        assert(self.entries_view()[a].0 == if a == i as int { key } else { (pre[a]).0 });
                        assert(self.entries_view()[b].0 == if b == i as int { key } else { (pre[b]).0 });
                    }
                }
            },
            None => {
                let ghost pre = self.entries_view();
                proof {
                    lemma_kv_map_contains(pre);
                }
                let ghost prelen = self.pairs@.len();
                self.pairs.push(KvPair { key, value });
                let newlen = self.pairs.len();
                proof {
                    assert(self.pairs@.len() == newlen <= u64::MAX);
                    assert(self.entries_view() =~= pre.push((key, value@)));
                    lemma_kv_map_push(pre, key, value@);
                    assert forall|j: int| 0 <= j < self.entries_view().len() implies (
                    #[trigger] self.entries_view()[j]).1.len() <= u64::MAX by {
                        if j < pre.len() {
                            assert((pre[j]).1.len() <= u64::MAX);
                        }
                    }
                    assert forall|a: int, b: int|
                        0 <= a < b < self.entries_view().len() implies (#[trigger] self.entries_view()[a]).0
                        != (#[trigger] self.entries_view()[b]).0 by {
                        if b == self.entries_view().len() - 1 {
                            assert((pre[a]).0 != key);
                        }
                    }
                }
            },
        }
    }

    /// Drops any binding of `key`.
    pub fn remove(&mut self, key: u64)
        requires
            old(self).inv(),
        ensures
            final(self).inv(),
            final(self)@ == old(self)@.remove(key),
    {
        match self.find(key) {
            Some(i) => {
                let ghost pre = self.entries_view();
                self.pairs.remove(i);
                proof {
                    assert(self.entries_view() =~= pre.remove(i as int));
                    assert(pre[i as int].0 == key);
                    lemma_kv_map_remove(pre, i as int);
                    assert forall|a: int, b: int|
                        0 <= a < b < self.entries_view().len() implies (#[trigger] self.entries_view()[a]).0
                        != (#[trigger] self.entries_view()[b]).0 by {
                        let a0 = if a < i as int { a } else { a + 1 };
                        let b0 = if b < i as int { b } else { b + 1 };
                        assert((pre[a0]).0 != (pre[b0]).0);
                    }
                }
            },
            None => {
                proof {
                    lemma_kv_map_contains(self.entries_view());
                    if self@.contains_key(key) {
                        let i = choose|i: int|
                            0 <= i < self.entries_view().len() && (self.entries_view()[i]).0 == key;
                        assert(self.pairs@[i].key == key);
                    }
                    assert(self@.remove(key) =~= self@);
                }
            },
        }
    }

    /// Serializes the whole state into the counted-pair byte layout.
    pub fn encode(&self) -> (r: Vec<u8>)
        requires
            self.inv(),
        ensures
            r@ == enc_state(self.entries_view()),
    {
        let mut out: Vec<u8> = Vec::new();
        write_u64(&mut out, self.pairs.len() as u64);
        let mut i: usize = 0;
        while i < self.pairs.len()
            invariant
                self.inv(),
                i <= self.pairs@.len(),
                out@ == crate::codec::u64_le_bytes(self.pairs@.len() as u64) + enc_pairs(
                    self.entries_view().take(i as int),
                ),
            decreases self.pairs@.len() - i,
        {
            let ghost done = self.entries_view().take(i as int);
            write_u64(&mut out, self.pairs[i].key);
            write_u64(&mut out, self.pairs[i].value.len() as u64);
            append_bytes(&mut out, &self.pairs[i].value);
            proof {
                lemma_enc_pairs_snoc(done, self.entries_view()[i as int]);
                assert(done.push(self.entries_view()[i as int]) =~= self.entries_view().take(
                    i + 1,
                ));
                assert(out@ =~= crate::codec::u64_le_bytes(self.pairs@.len() as u64) + enc_pairs(
                    self.entries_view().take(i + 1),
                ));
            }
            i = i + 1;
        }
        proof {
            assert(self.entries_view().take(self.pairs@.len() as int) =~= self.entries_view());
        }
        out
    }

    /// Decodes `n` pairs starting at `pos`, insisting the input ends
    /// exactly where the pairs do.
    fn decode_pairs(data: &Vec<u8>, pos: usize, n: u64) -> (r: Result<Vec<KvPair>, CoreError>)
        requires
            pos <= data@.len(),
        ensures
            pairs_complete(data@.skip(pos as int), n as nat) ==> (r matches Ok(v)
                && v@.map_values(|p: KvPair| p@) == pairs_value(data@.skip(pos as int), n as nat)),
            !pairs_complete(data@.skip(pos as int), n as nat) ==> r == Err::<
                Vec<KvPair>,
                CoreError,
            >(CoreError::Decoding),
            r matches Ok(v) ==> pairs_fit(v@.map_values(|p: KvPair| p@)) && v@.len() == n,
        decreases n,
    {
        let ghost s = data@.skip(pos as int);
        if n == 0 {
            if pos == data.len() {
                let v: Vec<KvPair> = Vec::new();
                proof {
                    assert(v@.map_values(|p: KvPair| p@) =~= Seq::<(u64, Seq<u8>)>::empty());
                    assert(s.len() == 0);
                }
                Ok(v)
            } else {
                Err(CoreError::Decoding)
            }
        } else if data.len() - pos < 16 {
            Err(CoreError::Decoding)
        } else {
            let key = read_u64(data, pos);
            let vlen = read_u64(data, pos + 8);
            proof {
                assert(s.skip(8) =~= data@.skip(pos + 8));
            }
            if vlen > (data.len() - pos - 16) as u64 {
                return Err(CoreError::Decoding);
            }
            let vstart = pos + 16;
            let vend = vstart + vlen as usize;
            let value = copy_range(data, vstart, vend);
            proof {
                assert(s.subrange(16, 16 + vlen as int) =~= data@.subrange(
                    vstart as int,
                    vend as int,
                ));
                assert(s.skip(16 + vlen as int) =~= data@.skip(vend as int));
            }
            match Self::decode_pairs(data, vend, n - 1) {
                Ok(mut rest) => {
                    let ghost rest_view = rest@.map_values(|p: KvPair| p@);
                    rest.insert(0, KvPair { key, value });
                    proof {
                        let pr = parse_pairs(s.skip(16 + vlen as int), (n - 1) as nat).unwrap();
                        assert(rest@.map_values(|p: KvPair| p@) =~= seq![(key, value@)]
                            + rest_view);
                    }
                    Ok(rest)
                },
                Err(e) => Err(e),
            }
        }
    }

    /// Rebuilds a state machine from bytes; fails with a decoding error
    /// when the bytes spell no state or bind a key twice.
    pub fn decode(data: &Vec<u8>) -> (r: Result<KvStore, CoreError>)
        ensures
            state_ok(data@) ==> (r matches Ok(m) && m.inv() && m.entries_view() == state_value(
                data@,
            ) && m@ == kv_map(state_value(data@))),
            !state_ok(data@) ==> r == Err::<KvStore, CoreError>(CoreError::Decoding),
    {
        if data.len() < 8 {
            return Err(CoreError::Decoding);
        }
        let n = read_u64(data, 0);
        proof {
            assert(data@.skip(0) =~= data@);
        }
        match Self::decode_pairs(data, 8, n) {
            Ok(v) => {
                if keys_all_unique(&v) {
                    Ok(KvStore { pairs: v })
                } else {
                    Err(CoreError::Decoding)
                }
            },
            Err(e) => Err(e),
        }
    }

    /// Serializes a state consistent with everything applied so far.
    pub fn snapshot(&self) -> (r: Vec<u8>)
        requires
            self.inv(),
        ensures
            r@ == enc_state(self.entries_view()),
    {
        self.encode()
    }

    /// Replaces the whole state atomically with a decoded
    /// serialization; on failure the state is untouched.
    pub fn restore(&mut self, data: &Vec<u8>) -> (r: Result<(), CoreError>)
        requires
            old(self).inv(),
        ensures
            final(self).inv(),
            state_ok(data@) ==> (r is Ok && final(self).entries_view() == state_value(data@)
                && final(self)@ == kv_map(state_value(data@))),
            !state_ok(data@) ==> (r == Err::<(), CoreError>(CoreError::Decoding) && *final(self)
                == *old(self)),
    {
        match Self::decode(data) {
            Ok(m) => {
                *self = m;
                Ok(())
            },
            Err(e) => Err(e),
        }
    }

    /// Decodes and folds in one committed payload. An undecodable or
    /// unknown command is an application-level failure: the state is
    /// unchanged and the error is reported, never retried.
    pub fn apply(&mut self, payload: &Vec<u8>) -> (r: Result<Vec<u8>, CoreError>)
        requires
            old(self).inv(),
        ensures
            final(self).inv(),
            parse_command(payload@) matches Some(CmdModel::Insert { key, value }) ==> (
                r matches Ok(b) && b@ == value && final(self)@ == old(self)@.insert(key, value)),
            parse_command(payload@) matches Some(CmdModel::Remove { key }) ==> (r matches Ok(b)
                && b@ == Seq::<u8>::empty() && final(self)@ == old(self)@.remove(key)),
            parse_command(payload@) is None ==> (*final(self) == *old(self) && r == Err::<
                Vec<u8>,
                CoreError,
            >(CoreError::Apply)),
    {
        match decode_command(payload) {
            Ok(Command::Insert { key, value }) => {
                let echo = clone_bytes(&value);
                self.upsert(key, value);
                Ok(echo)
            },
            Ok(Command::Remove { key }) => {
                self.remove(key);
                Ok(Vec::new())
            },
            Err(_) => Err(CoreError::Apply),
        }
    }
}

/// Snapshot-then-restore state equivalence: the serialized state of a
/// well-formed machine always decodes, and a fresh instance restored
/// from it denotes exactly the machine's map, with no log replay.
pub proof fn lemma_snapshot_restore(m: KvStore)
    requires
        m.inv(),
    ensures
        state_ok(enc_state(m.entries_view())),
        state_value(enc_state(m.entries_view())) == m.entries_view(),
        kv_map(state_value(enc_state(m.entries_view()))) == m@,
{
    crate::codec::lemma_state_round_trip(m.entries_view());
}

/// Whether no two pairs of the list share a key.
pub fn keys_all_unique(v: &Vec<KvPair>) -> (r: bool)
    ensures
        r == kv_keys_unique(v@.map_values(|p: KvPair| p@)),
{
    let ghost s = v@.map_values(|p: KvPair| p@);
    let mut i: usize = 0;
    while i < v.len()
        invariant
            i <= v@.len(),
            s == v@.map_values(|p: KvPair| p@),
            forall|a: int, b: int| 0 <= a < b < v@.len() && a < i ==> (#[trigger] s[a]).0
                != (#[trigger] s[b]).0,
        decreases v@.len() - i,
    {
        let mut j: usize = i + 1;
        while j < v.len()
            invariant
                i < j <= v@.len() || (i + 1 == j && j > v@.len()),
                i < v@.len(),
                s == v@.map_values(|p: KvPair| p@),
                forall|b: int| i < b < j ==> (#[trigger] s[b]).0 != s[i as int].0,
            decreases v@.len() - j,
        {
            if v[j].key == v[i].key {
                proof {
                    assert((s[i as int]).0 == (s[j as int]).0);
                }
                return false;
            }
            j = j + 1;
        }
        i = i + 1;
    }
    true
}

impl StateMachine for KvStore {
    open spec fn wf(&self) -> bool {
        self.inv()
    }

    fn apply(&mut self, payload: &Vec<u8>) -> (r: Result<Vec<u8>, CoreError>) {
        KvStore::apply(self, payload)
    }

    fn snapshot(&self) -> (r: Vec<u8>) {
        KvStore::snapshot(self)
    }

    fn restore(&mut self, data: &Vec<u8>) -> (r: Result<(), CoreError>) {
        KvStore::restore(self, data)
    }

    fn encode(&self) -> (r: Vec<u8>) {
        KvStore::encode(self)
    }

    fn decode(data: &Vec<u8>) -> (r: Result<Self, CoreError>) {
        KvStore::decode(data)
    }
}

} // verus!
