//! Store facade: `open`, `set`, `get` and `remove` over the append-only
//! log and the derived index.
//!
//! The log is the single source of truth.  `set` only appends a record and
//! leaves the index alone; `get` and `remove` replay the whole log first
//! and only then trust the index.  A `set` followed by a `get` on the same
//! handle is correct precisely because the `get` replays — that coupling
//! is an invariant of the design, not an oversight.
//!
//! The store works on an in-memory copy of the log's lines.  The caller
//! owns the file named `kvdb.wal`: it hands every line in on `open` and
//! appends each new line the store produces.  The file only grows, and
//! records are never rewritten.  Two known limitations: appends are not
//! synced to disk, so durability across a crash is not guaranteed; and two
//! handles on the same directory at once are a hazard, since nothing
//! orders their appends and replays.
use vstd::prelude::*;

verus! {

use crate::KvError;
use crate::index::Index;
use crate::record::{
    LogLine,
    encode_line,
    encode_spec,
    decode_line,
    rm_record,
    set_record,
    str_views,
};
use crate::replay::{
    index_of_log,
    kv_of_log,
    lemma_replay_matches_kv,
    replay,
};

/// Key-value store over an append-only log of encoded records and a
/// replayed index.
pub struct KvStore {
    key_row_map: Index,
    log: Vec<String>,
}

impl KvStore {
    /// The log's lines, as character sequences.
    pub closed spec fn log_view(&self) -> Seq<Seq<char>> {
        str_views(self.log@)
    }

    /// The index the store currently holds.
    pub closed spec fn index_view(&self) -> Map<Seq<char>, nat> {
        self.key_row_map@
    }

    /// A store with an empty log and an empty index.
    pub fn new() -> (s: KvStore)
        ensures
            s.log_view() == Seq::<Seq<char>>::empty(),
            s.index_view() == Map::<Seq<char>, nat>::empty(),
    {
        let s = KvStore { key_row_map: Index::new(), log: Vec::new() };
        proof {
            assert(s.log_view() =~= Seq::<Seq<char>>::empty());
        }
        s
    }

    /// Opens a store over the given log lines with an empty index: no
    /// replay happens until the first read.
    pub fn open(lines: Vec<String>) -> (s: KvStore)
        ensures
            s.log_view() == str_views(lines@),
            s.index_view() == Map::<Seq<char>, nat>::empty(),
    {
        KvStore { key_row_map: Index::new(), log: lines }
    }

    /// The log's lines, for the caller to persist; the line most recently
    /// appended comes last.
    pub fn lines(&self) -> (r: &Vec<String>)
        ensures
            str_views(r@) == self.log_view(),
    {
        &self.log
    }

    /// Appends a `set` record for `key` and `value`.
    ///
    /// The index is left untouched: it is only ever trusted immediately
    /// after a replay, and the next read replays first.
    pub fn set(&mut self, key: String, value: String) -> (r: Result<(), KvError>)
        ensures
            r is Ok,
            final(self).log_view() == old(self).log_view().push(
                encode_spec(set_record(key@, value@)),
            ),
            final(self).index_view() == old(self).index_view(),
    {
        let ghost k = key@;
        let ghost v = value@;
        let rec = LogLine::new(String::from_str("set"), key, value);
        let line = encode_line(&rec);
        self.log.push(line);
        proof {
            assert(rec@ == set_record(k, v));
            assert(self.log_view() =~= old(self).log_view().push(encode_spec(set_record(k, v))));
        }
        Ok(())
    }

    /// Replays the whole log, then looks `key` up in the rebuilt index
    /// and, if the key is bound, decodes the record at its ordinal and
    /// returns that record's value.
    ///
    /// On a clean log the result is exactly the log's map at `key`; a log
    /// with an undecodable line fails with `CorruptRecord` and changes
    /// nothing.
    pub fn get(&mut self, key: String) -> (r: Result<Option<String>, KvError>)
        ensures
            final(self).log_view() == old(self).log_view(),
            match kv_of_log(old(self).log_view()) {
                Some(vm) => {
                    &&& final(self).index_view() == index_of_log(old(self).log_view()).unwrap()
                    &&& match r {
                        Ok(Some(v)) => vm.contains_key(key@) && v@ == vm[key@],
                        Ok(None) => !vm.contains_key(key@),
                        Err(_) => false,
                    }
                },
                None => r matches Err(e) && e == KvError::CorruptRecord && final(self).index_view()
                    == old(self).index_view(),
            },
    {
        proof {
            lemma_replay_matches_kv(self.log_view(), self.log_view().len() as int);
        }
        let idx = match replay(&self.log) {
            Ok(idx) => idx,
            Err(e) => {
                return Err(e);
            },
        };
        self.key_row_map = idx;
        match self.key_row_map.lookup(&key) {
            None => Ok(None),
            Some(row) => {
                let line = &self.log[row];
                proof {
                    assert(self.log_view()[row as int] == line@);
                }
                match decode_line(line.as_str()) {
                    Ok(rec) => Ok(Some(rec.value)),
                    Err(_) => {
                        // unreachable: the replay already decoded this line
                        Err(KvError::CorruptRecord)
                    },
                }
            },
        }
    }

    /// Replays the whole log, then, if `key` is bound, clears it from the
    /// index and appends a `rm` record; an absent key fails with
    /// `KeyNotFound` and a log with an undecodable line with
    /// `CorruptRecord`, in both cases appending nothing.
    pub fn remove(&mut self, key: String) -> (r: Result<(), KvError>)
        ensures
            match kv_of_log(old(self).log_view()) {
                Some(vm) => {
                    if vm.contains_key(key@) {
                        &&& r is Ok
                        &&& final(self).log_view() == old(self).log_view().push(
                            encode_spec(rm_record(key@)),
                        )
                        &&& final(self).index_view() == index_of_log(
                            old(self).log_view(),
                        ).unwrap().remove(key@)
                    } else {
                        &&& r matches Err(e) && e == KvError::KeyNotFound
                        &&& final(self).log_view() == old(self).log_view()
                        &&& final(self).index_view() == index_of_log(old(self).log_view()).unwrap()
                    }
                },
                None => {
                    &&& r matches Err(e) && e == KvError::CorruptRecord
                    &&& final(self).log_view() == old(self).log_view()
                    &&& final(self).index_view() == old(self).index_view()
                },
            },
    {
        proof {
            lemma_replay_matches_kv(self.log_view(), self.log_view().len() as int);
        }
        let idx = match replay(&self.log) {
            Ok(idx) => idx,
            Err(e) => {
                return Err(e);
            },
        };
        self.key_row_map = idx;
        match self.key_row_map.lookup(&key) {
            None => Err(KvError::KeyNotFound),
            Some(_) => {
                let ghost k = key@;
                self.key_row_map.remove(key.clone());
                let rec = LogLine::new(String::from_str("rm"), key, String::new());
                let line = encode_line(&rec);
                self.log.push(line);
                proof {
                    assert(rec@ == rm_record(k));
                    assert(self.log_view() =~= old(self).log_view().push(
                        encode_spec(rm_record(k)),
                    ));
                }
                Ok(())
            },
        }
    }
}

} // verus!
