//! Byte layouts of everything the core persists or replicates: the
//! little-endian integer primitive, application commands, membership
//! changes, and state-machine snapshots. Every format comes with a
//! specification-level encoder and parser and a round-trip proof.

use vstd::prelude::*;

use crate::errors::CoreError;

verus! {

// ---------------------------------------------------------------------
// u64, little endian, fixed 8 bytes
// ---------------------------------------------------------------------

/// The eight little-endian bytes of `n`.
pub open spec fn u64_le_bytes(n: u64) -> Seq<u8> {
    seq![
        (n % 0x100) as u8,
        ((n / 0x100) % 0x100) as u8,
        ((n / 0x1_0000) % 0x100) as u8,
        ((n / 0x100_0000) % 0x100) as u8,
        ((n / 0x1_0000_0000) % 0x100) as u8,
        ((n / 0x100_0000_0000) % 0x100) as u8,
        ((n / 0x1_0000_0000_0000) % 0x100) as u8,
        ((n / 0x100_0000_0000_0000) % 0x100) as u8,
    ]
}

/// The value of the first eight bytes of `s`, read little endian.
pub open spec fn u64_from_le(s: Seq<u8>) -> u64
    recommends
        s.len() >= 8,
{
    (s[0] + s[1] * 0x100 + s[2] * 0x1_0000 + s[3] * 0x100_0000 + s[4] * 0x1_0000_0000
        + s[5] * 0x100_0000_0000 + s[6] * 0x1_0000_0000_0000
        + s[7] * 0x100_0000_0000_0000) as u64
}

/// Reading back the eight bytes of `n` yields `n`.
pub proof fn lemma_u64_le_round_trip(n: u64)
    ensures
        u64_le_bytes(n).len() == 8,
        u64_from_le(u64_le_bytes(n)) == n,
{
    assert(n % 0x100 + ((n / 0x100) % 0x100) * 0x100 + ((n / 0x1_0000) % 0x100) * 0x1_0000
        + ((n / 0x100_0000) % 0x100) * 0x100_0000 + ((n / 0x1_0000_0000) % 0x100) * 0x1_0000_0000
        + ((n / 0x100_0000_0000) % 0x100) * 0x100_0000_0000
        + ((n / 0x1_0000_0000_0000) % 0x100) * 0x1_0000_0000_0000
        + ((n / 0x100_0000_0000_0000) % 0x100) * 0x100_0000_0000_0000 == n) by (bit_vector);
}

/// Appends the eight little-endian bytes of `n`.
pub fn write_u64(out: &mut Vec<u8>, n: u64)
    ensures
        final(out)@ == old(out)@ + u64_le_bytes(n),
{
    out.push((n % 0x100) as u8);
    out.push(((n / 0x100) % 0x100) as u8);
    out.push(((n / 0x1_0000) % 0x100) as u8);
    out.push(((n / 0x100_0000) % 0x100) as u8);
    out.push(((n / 0x1_0000_0000) % 0x100) as u8);
    out.push(((n / 0x100_0000_0000) % 0x100) as u8);
    out.push(((n / 0x1_0000_0000_0000) % 0x100) as u8);
    out.push(((n / 0x100_0000_0000_0000) % 0x100) as u8);
    assert(out@ =~= old(out)@ + u64_le_bytes(n));
}

/// Reads the little-endian value stored at `pos`.
pub fn read_u64(data: &Vec<u8>, pos: usize) -> (r: u64)
    requires
        pos + 8 <= data@.len(),
    ensures
        r == u64_from_le(data@.skip(pos as int)),
{
    let n = data.len();
    let b0 = data[pos];
    let b1 = data[pos + 1];
    let b2 = data[pos + 2];
    let b3 = data[pos + 3];
    let b4 = data[pos + 4];
    let b5 = data[pos + 5];
    let b6 = data[pos + 6];
    let b7 = data[pos + 7];
    proof {
        assert(b0 + b1 * 0x100 + b2 * 0x1_0000 + b3 * 0x100_0000 + b4 * 0x1_0000_0000 + b5
            * 0x100_0000_0000 + b6 * 0x1_0000_0000_0000 + b7 * 0x100_0000_0000_0000
            <= 0xffff_ffff_ffff_ffff) by (bit_vector);
    }
    let r: u64 = (b0 as u64) + (b1 as u64) * 0x100 + (b2 as u64) * 0x1_0000 + (b3 as u64)
        * 0x100_0000 + (b4 as u64) * 0x1_0000_0000 + (b5 as u64) * 0x100_0000_0000 + (b6 as u64)
        * 0x1_0000_0000_0000 + (b7 as u64) * 0x100_0000_0000_0000;
    proof {
        let s = data@.skip(pos as int);
        assert(forall|k: int| 0 <= k < 8 ==> s[k] == data@[pos + k]);
    }
    r
}

/// Copies a whole byte vector.
pub fn clone_bytes(data: &Vec<u8>) -> (r: Vec<u8>)
    ensures
        r@ == data@,
{
    let r = copy_range(data, 0, data.len());
    assert(data@.subrange(0, data@.len() as int) =~= data@);
    r
}

/// Copies `data[lo..hi]` into a fresh vector.
pub fn copy_range(data: &Vec<u8>, lo: usize, hi: usize) -> (r: Vec<u8>)
    requires
        lo <= hi <= data@.len(),
    ensures
        r@ == data@.subrange(lo as int, hi as int),
{
    let mut r: Vec<u8> = Vec::new();
    let mut i: usize = lo;
    while i < hi
        invariant
            lo <= i <= hi <= data@.len(),
            r@ == data@.subrange(lo as int, i as int),
        decreases hi - i,
    {
        r.push(data[i]);
        assert(r@ =~= data@.subrange(lo as int, i + 1));
        i = i + 1;
    }
    r
}

// ---------------------------------------------------------------------
// Application commands (the payload of Normal log entries)
// ---------------------------------------------------------------------

/// The mathematical shape of a command payload.
pub enum CmdModel {
    Insert { key: u64, value: Seq<u8> },
    Remove { key: u64 },
}

/// A key-value command carried in a Normal log entry.
#[derive(Clone, Debug, PartialEq, Eq)]
pub enum Command {
    Insert { key: u64, value: Vec<u8> },
    Remove { key: u64 },
}

impl View for Command {
    type V = CmdModel;

    open spec fn view(&self) -> CmdModel {
        match self {
            Command::Insert { key, value } => CmdModel::Insert { key: *key, value: value@ },
            Command::Remove { key } => CmdModel::Remove { key: *key },
        }
    }
}

/// Byte layout of a command: a one-byte tag, the key, and for inserts a
/// length-prefixed value.
pub open spec fn enc_command(c: CmdModel) -> Seq<u8> {
    match c {
        CmdModel::Insert { key, value } => seq![0u8] + u64_le_bytes(key) + u64_le_bytes(
            value.len() as u64,
        ) + value,
        CmdModel::Remove { key } => seq![1u8] + u64_le_bytes(key),
    }
}

/// The unique command a byte string spells, if any; the whole string
/// must be consumed.
pub open spec fn parse_command(s: Seq<u8>) -> Option<CmdModel> {
    if s.len() < 1 {
        None
    } else if s[0] == 0u8 {
        if s.len() >= 17 {
            let key = u64_from_le(s.skip(1));
            let vlen = u64_from_le(s.skip(9)) as int;
            if s.len() == 17 + vlen {
                Some(CmdModel::Insert { key, value: s.subrange(17, s.len() as int) })
            } else {
                None
            }
        } else {
            None
        }
    } else if s[0] == 1u8 {
        if s.len() == 9 {
            Some(CmdModel::Remove { key: u64_from_le(s.skip(1)) })
        } else {
            None
        }
    } else {
        None
    }
}

/// Round trip: a command survives encoding and parsing unchanged.
pub proof fn lemma_command_round_trip(c: CmdModel)
    requires
        c matches CmdModel::Insert { key, value } ==> value.len() <= u64::MAX,
    ensures
        parse_command(enc_command(c)) == Some(c),
{
    match c {
        CmdModel::Insert { key, value } => {
            let s = enc_command(c);
            lemma_u64_le_round_trip(key);
            lemma_u64_le_round_trip(value.len() as u64);
            assert(s.skip(1).subrange(0, 8) =~= u64_le_bytes(key));
            assert(forall|k: int| 0 <= k < 8 ==> s.skip(1)[k] == u64_le_bytes(key)[k]);
            assert(forall|k: int| 0 <= k < 8 ==> s.skip(9)[k] == u64_le_bytes(value.len() as u64)[k]);
            assert(u64_from_le(s.skip(1)) == key);
            assert(u64_from_le(s.skip(9)) == value.len() as u64);
            assert(s.subrange(17, s.len() as int) =~= value);
        },
        CmdModel::Remove { key } => {
            let s = enc_command(c);
            lemma_u64_le_round_trip(key);
            assert(forall|k: int| 0 <= k < 8 ==> s.skip(1)[k] == u64_le_bytes(key)[k]);
            assert(u64_from_le(s.skip(1)) == key);
        },
    }
}

/// Encodes a command into its byte layout.
pub fn encode_command(c: &Command) -> (r: Vec<u8>)
    ensures
        r@ == enc_command(c@),
    {
    let mut out: Vec<u8> = Vec::new();
    match c {
        Command::Insert { key, value } => {
            out.push(0u8);
            write_u64(&mut out, *key);
            write_u64(&mut out, value.len() as u64);
            let mut i: usize = 0;
            let ghost prefix = out@;
            while i < value.len()
                invariant
                    i <= value@.len(),
                    out@ == prefix + value@.subrange(0, i as int),
                decreases value@.len() - i,
            {
                out.push(value[i]);
                assert(out@ =~= prefix + value@.subrange(0, i + 1));
                i = i + 1;
            }
            assert(out@ =~= enc_command(c@));
        },
        Command::Remove { key } => {
            out.push(1u8);
            write_u64(&mut out, *key);
            assert(out@ =~= enc_command(c@));
        },
    }
    out
}

/// Parses a command, consuming the whole input; fails with a decoding
/// error exactly when the bytes spell no command.
pub fn decode_command(data: &Vec<u8>) -> (r: Result<Command, CoreError>)
    ensures
        parse_command(data@) matches Some(m) ==> (r matches Ok(c) && c@ == m),
        parse_command(data@) is None ==> r == Err::<Command, CoreError>(CoreError::Decoding),
{
    if data.len() < 1 {
        return Err(CoreError::Decoding);
    }
    let tag = data[0];
    if tag == 0u8 {
        if data.len() < 17 {
            return Err(CoreError::Decoding);
        }
        let key = read_u64(data, 1);
        let vlen = read_u64(data, 9);
        if vlen > u64::MAX - 17 || (data.len() as u64) != 17 + vlen {
            return Err(CoreError::Decoding);
        }
        let value = copy_range(data, 17, data.len());
        Ok(Command::Insert { key, value })
    } else if tag == 1u8 {
        if data.len() != 9 {
            return Err(CoreError::Decoding);
        }
        let key = read_u64(data, 1);
        Ok(Command::Remove { key })
    } else {
        Err(CoreError::Decoding)
    }
}

// ---------------------------------------------------------------------
// Membership changes (the payload of ConfigChange log entries)
// ---------------------------------------------------------------------

/// The mathematical shape of a membership-change payload.
pub enum ConfChangeModel {
    AddVoter { id: u64, addr: Seq<u8> },
    AddLearner { id: u64, addr: Seq<u8> },
    RemoveNode { id: u64 },
}

/// A membership change carried in a ConfigChange log entry.
#[derive(Clone, Debug, PartialEq, Eq)]
pub enum ConfChange {
    AddVoter { id: u64, addr: Vec<u8> },
    AddLearner { id: u64, addr: Vec<u8> },
    RemoveNode { id: u64 },
}

impl View for ConfChange {
    type V = ConfChangeModel;

    open spec fn view(&self) -> ConfChangeModel {
        match self {
            ConfChange::AddVoter { id, addr } => ConfChangeModel::AddVoter {
                id: *id,
                addr: addr@,
            },
            ConfChange::AddLearner { id, addr } => ConfChangeModel::AddLearner {
                id: *id,
                addr: addr@,
            },
            ConfChange::RemoveNode { id } => ConfChangeModel::RemoveNode { id: *id },
        }
    }
}

/// Byte layout of a membership change: a one-byte tag, the node id, and
/// for additions a length-prefixed address.
pub open spec fn enc_conf_change(c: ConfChangeModel) -> Seq<u8> {
    match c {
        ConfChangeModel::AddVoter { id, addr } => seq![0u8] + u64_le_bytes(id) + u64_le_bytes(
            addr.len() as u64,
        ) + addr,
        ConfChangeModel::AddLearner { id, addr } => seq![1u8] + u64_le_bytes(id) + u64_le_bytes(
            addr.len() as u64,
        ) + addr,
        ConfChangeModel::RemoveNode { id } => seq![2u8] + u64_le_bytes(id),
    }
}

/// The unique membership change a byte string spells, if any.
pub open spec fn parse_conf_change(s: Seq<u8>) -> Option<ConfChangeModel> {
    if s.len() < 1 {
        None
    } else if s[0] == 0u8 || s[0] == 1u8 {
        if s.len() >= 17 {
            let id = u64_from_le(s.skip(1));
            let alen = u64_from_le(s.skip(9)) as int;
            if s.len() == 17 + alen {
                let addr = s.subrange(17, s.len() as int);
                if s[0] == 0u8 {
                    Some(ConfChangeModel::AddVoter { id, addr })
                } else {
                    Some(ConfChangeModel::AddLearner { id, addr })
                }
            } else {
                None
            }
        } else {
            None
        }
    } else if s[0] == 2u8 {
        if s.len() == 9 {
            Some(ConfChangeModel::RemoveNode { id: u64_from_le(s.skip(1)) })
        } else {
            None
        }
    } else {
        None
    }
}

/// Round trip: a membership change survives encoding and parsing.
pub proof fn lemma_conf_change_round_trip(c: ConfChangeModel)
    requires
        c matches ConfChangeModel::AddVoter { id, addr } ==> addr.len() <= u64::MAX,
        c matches ConfChangeModel::AddLearner { id, addr } ==> addr.len() <= u64::MAX,
    ensures
        parse_conf_change(enc_conf_change(c)) == Some(c),
{
    let s = enc_conf_change(c);
    match c {
        ConfChangeModel::AddVoter { id, addr } => {
            lemma_u64_le_round_trip(id);
            lemma_u64_le_round_trip(addr.len() as u64);
            assert(forall|k: int| 0 <= k < 8 ==> s.skip(1)[k] == u64_le_bytes(id)[k]);
            assert(forall|k: int| 0 <= k < 8 ==> s.skip(9)[k] == u64_le_bytes(addr.len() as u64)[k]);
            assert(u64_from_le(s.skip(1)) == id);
            assert(u64_from_le(s.skip(9)) == addr.len() as u64);
            assert(s.subrange(17, s.len() as int) =~= addr);
        },
        ConfChangeModel::AddLearner { id, addr } => {
            lemma_u64_le_round_trip(id);
            lemma_u64_le_round_trip(addr.len() as u64);
            assert(forall|k: int| 0 <= k < 8 ==> s.skip(1)[k] == u64_le_bytes(id)[k]);
            assert(forall|k: int| 0 <= k < 8 ==> s.skip(9)[k] == u64_le_bytes(addr.len() as u64)[k]);
            assert(u64_from_le(s.skip(1)) == id);
            assert(u64_from_le(s.skip(9)) == addr.len() as u64);
            assert(s.subrange(17, s.len() as int) =~= addr);
        },
        ConfChangeModel::RemoveNode { id } => {
            lemma_u64_le_round_trip(id);
            assert(forall|k: int| 0 <= k < 8 ==> s.skip(1)[k] == u64_le_bytes(id)[k]);
            assert(u64_from_le(s.skip(1)) == id);
        },
    }
}

/// Encodes a membership change into its byte layout.
pub fn encode_conf_change(c: &ConfChange) -> (r: Vec<u8>)
    ensures
        r@ == enc_conf_change(c@),
{
    let mut out: Vec<u8> = Vec::new();
    match c {
        ConfChange::AddVoter { id, addr } => {
            out.push(0u8);
            write_u64(&mut out, *id);
            write_u64(&mut out, addr.len() as u64);
            append_bytes(&mut out, addr);
            assert(out@ =~= enc_conf_change(c@));
        },
        ConfChange::AddLearner { id, addr } => {
            out.push(1u8);
            write_u64(&mut out, *id);
            write_u64(&mut out, addr.len() as u64);
            append_bytes(&mut out, addr);
            assert(out@ =~= enc_conf_change(c@));
        },
        ConfChange::RemoveNode { id } => {
            out.push(2u8);
            write_u64(&mut out, *id);
            assert(out@ =~= enc_conf_change(c@));
        },
    }
    out
}

/// Appends all of `src` to `out`.
pub fn append_bytes(out: &mut Vec<u8>, src: &Vec<u8>)
    ensures
        final(out)@ == old(out)@ + src@,
{
    let mut i: usize = 0;
    while i < src.len()
        invariant
            i <= src@.len(),
            out@ == old(out)@ + src@.subrange(0, i as int),
        decreases src@.len() - i,
    {
        out.push(src[i]);
        assert(out@ =~= old(out)@ + src@.subrange(0, i + 1));
        i = i + 1;
    }
    assert(out@ =~= old(out)@ + src@);
}

/// Parses a membership change, consuming the whole input.
pub fn decode_conf_change(data: &Vec<u8>) -> (r: Result<ConfChange, CoreError>)
    ensures
        parse_conf_change(data@) matches Some(m) ==> (r matches Ok(c) && c@ == m),
        parse_conf_change(data@) is None ==> r == Err::<ConfChange, CoreError>(CoreError::Decoding),
{
    if data.len() < 1 {
        return Err(CoreError::Decoding);
    }
    let tag = data[0];
    if tag == 0u8 || tag == 1u8 {
        if data.len() < 17 {
            return Err(CoreError::Decoding);
        }
        let id = read_u64(data, 1);
        let alen = read_u64(data, 9);
        if alen > u64::MAX - 17 || (data.len() as u64) != 17 + alen {
            return Err(CoreError::Decoding);
        }
        let addr = copy_range(data, 17, data.len());
        if tag == 0u8 {
            Ok(ConfChange::AddVoter { id, addr })
        } else {
            Ok(ConfChange::AddLearner { id, addr })
        }
    } else if tag == 2u8 {
        if data.len() != 9 {
            return Err(CoreError::Decoding);
        }
        let id = read_u64(data, 1);
        Ok(ConfChange::RemoveNode { id })
    } else {
        Err(CoreError::Decoding)
    }
}

// ---------------------------------------------------------------------
// State-machine state: a counted list of key/value pairs
// ---------------------------------------------------------------------

/// Byte layout of one pair: the key, then the length-prefixed value.
pub open spec fn enc_pair(key: u64, value: Seq<u8>) -> Seq<u8> {
    u64_le_bytes(key) + u64_le_bytes(value.len() as u64) + value
}

/// Byte layout of a list of pairs, in order.
pub open spec fn enc_pairs(s: Seq<(u64, Seq<u8>)>) -> Seq<u8>
    decreases s.len(),
{
    if s.len() == 0 {
        Seq::empty()
    } else {
        enc_pair(s[0].0, s[0].1) + enc_pairs(s.skip(1))
    }
}

/// Byte layout of a whole state: the pair count, then the pairs.
pub open spec fn enc_state(s: Seq<(u64, Seq<u8>)>) -> Seq<u8> {
    u64_le_bytes(s.len() as u64) + enc_pairs(s)
}

/// Every value short enough for its length to be written as a u64.
pub open spec fn pairs_fit(s: Seq<(u64, Seq<u8>)>) -> bool {
    forall|i: int| 0 <= i < s.len() ==> (#[trigger] s[i]).1.len() <= u64::MAX
}

/// Parses exactly `n` pairs off the front of `s`; yields the pairs and
/// the unconsumed remainder.
pub open spec fn parse_pairs(s: Seq<u8>, n: nat) -> Option<(Seq<(u64, Seq<u8>)>, Seq<u8>)>
    decreases n,
{
    if n == 0 {
        Some((Seq::empty(), s))
    } else if s.len() >= 16 {
        let key = u64_from_le(s);
        let vlen = u64_from_le(s.skip(8)) as int;
        if s.len() >= 16 + vlen {
            let value = s.subrange(16, 16 + vlen);
            match parse_pairs(s.skip(16 + vlen), (n - 1) as nat) {
                Some(pr) => Some((seq![(key, value)] + pr.0, pr.1)),
                None => None,
            }
        } else {
            None
        }
    } else {
        None
    }
}

/// The unique pair list a byte string spells, if any; the whole string
/// must be consumed.
pub open spec fn parse_state(s: Seq<u8>) -> Option<Seq<(u64, Seq<u8>)>> {
    if s.len() >= 8 {
        match parse_pairs(s.skip(8), u64_from_le(s) as nat) {
            Some(pr) => if pr.1.len() == 0 {
                Some(pr.0)
            } else {
                None
            },
            None => None,
        }
    } else {
        None
    }
}

/// Round trip for pair lists, with an arbitrary trailer left intact.
pub proof fn lemma_pairs_round_trip(s: Seq<(u64, Seq<u8>)>, tail: Seq<u8>)
    requires
        pairs_fit(s),
    ensures
        parse_pairs(enc_pairs(s) + tail, s.len() as nat) == Some((s, tail)),
    decreases s.len(),
{
    if s.len() == 0 {
        assert(enc_pairs(s) + tail =~= tail);
    } else {
        let key = s[0].0;
        let value = s[0].1;
        let full = enc_pairs(s) + tail;
        let rest_bytes = enc_pairs(s.skip(1)) + tail;
        lemma_u64_le_round_trip(key);
        lemma_u64_le_round_trip(value.len() as u64);
        assert(full =~= u64_le_bytes(key) + u64_le_bytes(value.len() as u64) + value + rest_bytes);
        assert(forall|k: int| 0 <= k < 8 ==> full[k] == u64_le_bytes(key)[k]);
        assert(u64_from_le(full) == key);
        assert(forall|k: int|
            0 <= k < 8 ==> full.skip(8)[k] == u64_le_bytes(value.len() as u64)[k]);
        assert(u64_from_le(full.skip(8)) == value.len() as u64);
        assert(full.len() >= 16 + value.len());
        assert(full.subrange(16, 16 + value.len() as int) =~= value);
        assert(full.skip(16 + value.len() as int) =~= rest_bytes);
        lemma_pairs_round_trip(s.skip(1), tail);
        assert(seq![(key, value)] + s.skip(1) =~= s);
    }
}

/// Round trip: a state survives encoding and parsing unchanged.
pub proof fn lemma_state_round_trip(s: Seq<(u64, Seq<u8>)>)
    requires
        pairs_fit(s),
        s.len() <= u64::MAX,
    ensures
        parse_state(enc_state(s)) == Some(s),
{
    let full = enc_state(s);
    lemma_u64_le_round_trip(s.len() as u64);
    assert(forall|k: int| 0 <= k < 8 ==> full[k] == u64_le_bytes(s.len() as u64)[k]);
    assert(u64_from_le(full) == s.len() as u64);
    assert(full.skip(8) =~= enc_pairs(s) + Seq::<u8>::empty());
    lemma_pairs_round_trip(s, Seq::empty());
}

} // verus!
