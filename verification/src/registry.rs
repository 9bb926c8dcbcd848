//! The deserialization registry: a table from payload kind to decode
//! capability, consulted when a payload is resolved across the plugin
//! boundary. Registration is expected once per kind before traffic
//! begins; registering twice replaces the earlier entry (last write
//! wins). Before registration every decode of that kind fails.

use vstd::prelude::*;

use crate::codec::{parse_command, Command};
use crate::errors::CoreError;
use crate::fsm::{kv_map, state_ok, state_value, KvStore};

verus! {

/// The decode capabilities this crate offers for log-entry payloads.
#[derive(Clone, Copy, Debug, PartialEq, Eq, Structural)]
pub enum EntryDecoder {
    /// The key-value command layout of `crate::codec`.
    KvCommand,
}

/// The decode capabilities this crate offers for state-machine states.
#[derive(Clone, Copy, Debug, PartialEq, Eq, Structural)]
pub enum FsmDecoder {
    /// The counted key-value pair layout of `crate::codec`.
    KvState,
}

/// The registry itself: one optional decoder per payload kind. It is
/// an explicit capability object handed to whoever decodes, not
/// ambient global state, so tests cannot interfere with each other.
#[derive(Clone, Copy, Debug, PartialEq, Eq, Structural)]
pub struct DeserializerRegistry {
    pub log_entry: Option<EntryDecoder>,
    pub state_machine: Option<FsmDecoder>,
}

impl DeserializerRegistry {
    /// A registry with nothing registered: every decode fails.
    pub fn new() -> (r: DeserializerRegistry)
        ensures
            r.log_entry is None,
            r.state_machine is None,
    {
        DeserializerRegistry { log_entry: None, state_machine: None }
    }

    /// Registers the decoder for log-entry payloads; last write wins.
    pub fn set_log_entry_deserializer(&mut self, d: EntryDecoder)
        ensures
            final(self).log_entry == Some(d),
            final(self).state_machine == old(self).state_machine,
    {
        self.log_entry = Some(d);
    }

    /// Registers the decoder for state-machine states; last write wins.
    pub fn set_fsm_deserializer(&mut self, d: FsmDecoder)
        ensures
            final(self).state_machine == Some(d),
            final(self).log_entry == old(self).log_entry,
    {
        self.state_machine = Some(d);
    }

    /// Decodes a log-entry payload through the registered decoder; a
    /// decode before any registration fails.
    pub fn decode_log_entry(&self, data: &Vec<u8>) -> (r: Result<Command, CoreError>)
        ensures
            self.log_entry is None ==> r == Err::<Command, CoreError>(CoreError::Decoding),
            self.log_entry == Some(EntryDecoder::KvCommand) ==> {
                &&& parse_command(data@) matches Some(m) ==> (r matches Ok(c) && c@ == m)
                &&& parse_command(data@) is None ==> r == Err::<Command, CoreError>(
                    CoreError::Decoding,
                )
            },
    {
        match self.log_entry {
            Some(EntryDecoder::KvCommand) => crate::codec::decode_command(data),
            None => Err(CoreError::Decoding),
        }
    }

    /// Decodes a state-machine state through the registered decoder; a
    /// decode before any registration fails.
    pub fn decode_fsm(&self, data: &Vec<u8>) -> (r: Result<KvStore, CoreError>)
        ensures
            self.state_machine is None ==> r == Err::<KvStore, CoreError>(CoreError::Decoding),
            self.state_machine == Some(FsmDecoder::KvState) ==> {
                &&& state_ok(data@) ==> (r matches Ok(m) && m.inv() && m.entries_view()
                    == state_value(data@) && m@ == kv_map(state_value(data@)))
                &&& !state_ok(data@) ==> r == Err::<KvStore, CoreError>(CoreError::Decoding)
            },
    {
        match self.state_machine {
            Some(FsmDecoder::KvState) => KvStore::decode(data),
            None => Err(CoreError::Decoding),
        }
    }
}

} // verus!
