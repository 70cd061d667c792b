//! Replay engine: rebuilds the index by reading the log from the start
//! and applying every record's effect in order.
//!
//! The ordinal stored for a key is the record's position within the replay
//! pass, which is why replay always restarts from line zero: ordinals from
//! an earlier, shorter log would be meaningless once the log has grown.
//! A line that cannot be decoded fails the whole replay with
//! `CorruptRecord` instead of aborting the process.
use vstd::prelude::*;

verus! {

use crate::KvError;
use crate::index::Index;
use crate::record::{
    Record,
    decode_line,
    decode_spec,
    rm_cmd,
    set_cmd,
    str_views,
};

/// The effect of one decoded record on the index: a `set` binds the key to
/// the record's ordinal, a `rm` clears it, any other tag does nothing.
pub open spec fn apply_record(m: Map<Seq<char>, nat>, r: Record, row: nat) -> Map<Seq<char>, nat> {
    if r.cmd == set_cmd() {
        m.insert(r.key, row)
    } else if r.cmd == rm_cmd() {
        m.remove(r.key)
    } else {
        m
    }
}

/// The index after replaying the first `n` lines, or `None` if one of them
/// does not decode.
pub open spec fn replay_upto(lines: Seq<Seq<char>>, n: int) -> Option<Map<Seq<char>, nat>>
    decreases n,
{
    if n <= 0 {
        Some(Map::<Seq<char>, nat>::empty())
    } else {
        match replay_upto(lines, n - 1) {
            Some(m) => match decode_spec(lines[n - 1]) {
                Some(r) => Some(apply_record(m, r, (n - 1) as nat)),
                None => None,
            },
            None => None,
        }
    }
}

/// The index the whole log describes.
pub open spec fn index_of_log(lines: Seq<Seq<char>>) -> Option<Map<Seq<char>, nat>> {
    replay_upto(lines, lines.len() as int)
}

/// The effect of one decoded record on the key-to-value map.
pub open spec fn apply_record_kv(m: Map<Seq<char>, Seq<char>>, r: Record) -> Map<
    Seq<char>,
    Seq<char>,
> {
    if r.cmd == set_cmd() {
        m.insert(r.key, r.value)
    } else if r.cmd == rm_cmd() {
        m.remove(r.key)
    } else {
        m
    }
}

/// The key-to-value map after replaying the first `n` lines.
pub open spec fn kv_upto(lines: Seq<Seq<char>>, n: int) -> Option<Map<Seq<char>, Seq<char>>>
    decreases n,
{
    if n <= 0 {
        Some(Map::<Seq<char>, Seq<char>>::empty())
    } else {
        match kv_upto(lines, n - 1) {
            Some(m) => match decode_spec(lines[n - 1]) {
                Some(r) => Some(apply_record_kv(m, r)),
                None => None,
            },
            None => None,
        }
    }
}

/// The key-to-value map the whole log describes: what a reader of the
/// store observes.
pub open spec fn kv_of_log(lines: Seq<Seq<char>>) -> Option<Map<Seq<char>, Seq<char>>> {
    kv_upto(lines, lines.len() as int)
}

/// How the index stands for the key-to-value map: both have the same keys,
/// and each indexed ordinal points below `n` at a `set` record carrying
/// the key's current value.
pub open spec fn index_matches_kv(
    lines: Seq<Seq<char>>,
    n: int,
    m: Map<Seq<char>, nat>,
    vm: Map<Seq<char>, Seq<char>>,
) -> bool {
    &&& forall|k: Seq<char>| #[trigger] vm.contains_key(k) ==> m.contains_key(k)
    &&& forall|k: Seq<char>| #[trigger]
        m.contains_key(k) ==> {
            &&& m[k] < n
            &&& vm.contains_key(k)
            &&& decode_spec(lines[m[k] as int]) matches Some(r) && r.cmd == set_cmd() && r.key == k
                && r.value == vm[k]
        }
}

/// Replay builds an index that stands for the log's key-to-value map: the
/// two fail on the same logs, and on a clean log every indexed ordinal
/// points at the `set` record that wrote the key's current value.
pub proof fn lemma_replay_matches_kv(lines: Seq<Seq<char>>, n: int)
    requires
        0 <= n <= lines.len(),
    ensures
        (replay_upto(lines, n) is Some) == (kv_upto(lines, n) is Some),
        replay_upto(lines, n) matches Some(m) ==> kv_upto(lines, n) matches Some(vm)
            && index_matches_kv(lines, n, m, vm),
    decreases n,
{
    if n > 0 {
        lemma_replay_matches_kv(lines, n - 1);
    }
}

/// A replay that has already failed stays failed however far it reads on.
pub proof fn lemma_replay_none(lines: Seq<Seq<char>>, i: int, j: int)
    requires
        0 <= i <= j,
        replay_upto(lines, i) is None,
    ensures
        replay_upto(lines, j) is None,
    decreases j - i,
{
    if i < j {
        lemma_replay_none(lines, i, j - 1);
    }
}

/// Rebuilds the index by reading every line of the log from the start.
///
/// The result is a function of the log's lines alone: no state of any
/// earlier index enters it.
pub fn replay(lines: &Vec<String>) -> (r: Result<Index, KvError>)
    ensures
        match index_of_log(str_views(lines@)) {
            Some(m) => r matches Ok(idx) && idx@ == m,
            None => r matches Err(e) && e == KvError::CorruptRecord,
        },
{
    let set_tag: String = String::from_str("set");
    let rm_tag: String = String::from_str("rm");
    let mut idx = Index::new();
    let n = lines.len();
    let mut row: usize = 0;
    while row < n
        invariant
            n == lines.len(),
            row <= n,
            set_tag@ == set_cmd(),
            rm_tag@ == rm_cmd(),
            replay_upto(str_views(lines@), row as int) == Some(idx@),
        decreases n - row,
    {
        let line = &lines[row];
        proof {
            assert(str_views(lines@)[row as int] == line@);
        }
        match decode_line(line.as_str()) {
            Ok(rec) => {
                if rec.cmd == set_tag {
                    idx.insert(rec.key, row);
                } else if rec.cmd == rm_tag {
                    idx.remove(rec.key);
                }
            },
            Err(_) => {
                proof {
                    lemma_replay_none(str_views(lines@), row + 1, lines@.len() as int);
                }
                return Err(KvError::CorruptRecord);
            },
        }
        row = row + 1;
    }
    Ok(idx)
}

} // verus!
