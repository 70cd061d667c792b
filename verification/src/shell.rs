//! The three command-level operations the command-line shell calls.
//!
//! Each takes an already-opened store and plain values and returns a
//! typed result; printing, exit codes and opening the log file stay with
//! the shell.
use vstd::prelude::*;

verus! {

use crate::KvError;
use crate::record::{encode_spec, rm_record, set_record};
use crate::replay::kv_of_log;
use crate::store::KvStore;

/// Runs `set <key> <value>`: appends a `set` record to the store's log.
pub fn set(store: &mut KvStore, key: String, value: String) -> (r: Result<(), KvError>)
    ensures
        r is Ok,
        final(store).log_view() == old(store).log_view().push(
            encode_spec(set_record(key@, value@)),
        ),
        final(store).index_view() == old(store).index_view(),
{
    store.set(key, value)
}

/// Runs `get <key>`: returns the line the shell prints — the key's value,
/// or the literal text `Key not found` when the key is absent.
pub fn get(store: &mut KvStore, key: String) -> (r: Result<String, KvError>)
    ensures
        final(store).log_view() == old(store).log_view(),
        match kv_of_log(old(store).log_view()) {
            Some(vm) => match r {
                Ok(msg) => if vm.contains_key(key@) {
                    msg@ == vm[key@]
                } else {
                    msg@ == "Key not found"@
                },
                Err(_) => false,
            },
            None => r matches Err(e) && e == KvError::CorruptRecord,
        },
{
    match store.get(key) {
        Ok(Some(v)) => Ok(v),
        Ok(None) => Ok(String::from_str("Key not found")),
        Err(e) => Err(e),
    }
}

/// Runs `rm <key>`: appends a `rm` record if the key is present, and
/// reports `KeyNotFound` to the shell if it is not.
pub fn rm(store: &mut KvStore, key: String) -> (r: Result<(), KvError>)
    ensures
        match kv_of_log(old(store).log_view()) {
            Some(vm) => {
                if vm.contains_key(key@) {
                    &&& r is Ok
                    &&& final(store).log_view() == old(store).log_view().push(
                        encode_spec(rm_record(key@)),
                    )
                } else {
                    &&& r matches Err(e) && e == KvError::KeyNotFound
                    &&& final(store).log_view() == old(store).log_view()
                }
            },
            None => {
                &&& r matches Err(e) && e == KvError::CorruptRecord
                &&& final(store).log_view() == old(store).log_view()
            },
        },
{
    store.remove(key)
}

} // verus!
