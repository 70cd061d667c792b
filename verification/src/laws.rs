//! The store's laws, stated over the log model and proved once and for
//! all: what appending a record does to the map a reader observes, and
//! that replay is idempotent.
//!
//! Together with the contracts of `set`, `get` and `remove` — whose
//! postconditions speak of exactly these spec functions — they give the
//! round-trip, overwrite, removal and reopen guarantees for every key and
//! value.
use vstd::prelude::*;

verus! {

use crate::record::{
    decode_spec,
    encode_spec,
    lemma_decode_encode,
    rm_cmd,
    rm_record,
    set_cmd,
    set_record,
};
use crate::replay::{
    apply_record,
    index_of_log,
    kv_of_log,
    kv_upto,
    replay_upto,
};

/// Replay reads only the lines below `n`, so equal prefixes replay alike.
proof fn lemma_upto_same(l1: Seq<Seq<char>>, l2: Seq<Seq<char>>, n: int)
    requires
        0 <= n <= l1.len(),
        n <= l2.len(),
        forall|i: int| 0 <= i < n ==> l1[i] == l2[i],
    ensures
        replay_upto(l1, n) == replay_upto(l2, n),
        kv_upto(l1, n) == kv_upto(l2, n),
    decreases n,
{
    if n > 0 {
        lemma_upto_same(l1, l2, n - 1);
    }
}

/// The operation tags of `set` and `rm` records differ.
proof fn lemma_cmds_differ()
    ensures
        set_cmd() != rm_cmd(),
{
    reveal_strlit("set");
    reveal_strlit("rm");
    assert(set_cmd().len() != rm_cmd().len());
}

/// Appending a `set` record for `k` and `v` turns the log's map into the
/// old map with `k` bound to `v`.
pub proof fn lemma_log_push_set(lines: Seq<Seq<char>>, k: Seq<char>, v: Seq<char>)
    requires
        kv_of_log(lines) is Some,
    ensures
        kv_of_log(lines.push(encode_spec(set_record(k, v)))) == Some(
            kv_of_log(lines).unwrap().insert(k, v),
        ),
{
    let l2 = lines.push(encode_spec(set_record(k, v)));
    let n = lines.len() as int;
    lemma_upto_same(lines, l2, n);
    lemma_decode_encode(set_record(k, v));
    assert(l2[n] == encode_spec(set_record(k, v)));
    assert(kv_upto(l2, n + 1) == Some(kv_of_log(lines).unwrap().insert(k, v)));
}

/// Appending a `rm` record for `k` turns the log's map into the old map
/// with `k` cleared.
pub proof fn lemma_log_push_rm(lines: Seq<Seq<char>>, k: Seq<char>)
    requires
        kv_of_log(lines) is Some,
    ensures
        kv_of_log(lines.push(encode_spec(rm_record(k)))) == Some(
            kv_of_log(lines).unwrap().remove(k),
        ),
{
    let l2 = lines.push(encode_spec(rm_record(k)));
    let n = lines.len() as int;
    lemma_upto_same(lines, l2, n);
    lemma_decode_encode(rm_record(k));
    lemma_cmds_differ();
    assert(l2[n] == encode_spec(rm_record(k)));
    assert(kv_upto(l2, n + 1) == Some(kv_of_log(lines).unwrap().remove(k)));
}

/// Round trip: after `set(k, v)` the log's map holds `v` at `k`, so the
/// next `get(k)` returns `Some(v)` — for any key and any value.
pub proof fn lemma_set_then_get(lines: Seq<Seq<char>>, k: Seq<char>, v: Seq<char>)
    requires
        kv_of_log(lines) is Some,
    ensures
        kv_of_log(lines.push(encode_spec(set_record(k, v)))) matches Some(vm) && vm.contains_key(k)
            && vm[k] == v,
{
    lemma_log_push_set(lines, k, v);
}

/// Last write wins: after `set(k, v1)` then `set(k, v2)`, the log's map
/// holds `v2` at `k`.
pub proof fn lemma_overwrite(lines: Seq<Seq<char>>, k: Seq<char>, v1: Seq<char>, v2: Seq<char>)
    requires
        kv_of_log(lines) is Some,
    ensures
        kv_of_log(
            lines.push(encode_spec(set_record(k, v1))).push(encode_spec(set_record(k, v2))),
        ) matches Some(vm) && vm.contains_key(k) && vm[k] == v2,
{
    lemma_log_push_set(lines, k, v1);
    lemma_log_push_set(lines.push(encode_spec(set_record(k, v1))), k, v2);
}

/// Removal: after `set(k, v)` then `remove(k)`, the key is absent from
/// the log's map, so the next `get(k)` returns `None`.
pub proof fn lemma_set_then_remove(lines: Seq<Seq<char>>, k: Seq<char>, v: Seq<char>)
    requires
        kv_of_log(lines) is Some,
    ensures
        kv_of_log(
            lines.push(encode_spec(set_record(k, v))).push(encode_spec(rm_record(k))),
        ) matches Some(vm) && !vm.contains_key(k),
{
    lemma_log_push_set(lines, k, v);
    lemma_log_push_rm(lines.push(encode_spec(set_record(k, v))), k);
}

/// Persistence across reopen: the lines a handle wrote carry its last
/// `set` to any fresh handle opened on them — `open` keeps the lines as
/// given, and `get` reads the same log map shown here.
pub proof fn lemma_reopen_get(lines: Seq<Seq<char>>, k: Seq<char>, v: Seq<char>)
    requires
        kv_of_log(lines) is Some,
    ensures
        kv_of_log(lines.push(encode_spec(set_record(k, v)))) matches Some(vm) && vm.contains_key(k)
            && vm[k] == v,
{
    lemma_set_then_get(lines, k, v);
}

/// The index after replaying the first `n` lines on top of a starting
/// index `m0`, or `None` if one of them does not decode.
pub open spec fn replay_from(m0: Map<Seq<char>, nat>, lines: Seq<Seq<char>>, n: int) -> Option<
    Map<Seq<char>, nat>,
>
    decreases n,
{
    if n <= 0 {
        Some(m0)
    } else {
        match replay_from(m0, lines, n - 1) {
            Some(m) => match decode_spec(lines[n - 1]) {
                Some(r) => Some(apply_record(m, r, (n - 1) as nat)),
                None => None,
            },
            None => None,
        }
    }
}

/// The latest effect the first `n` lines have on key `k`: bound to an
/// ordinal, cleared, or never touched.
pub open spec fn last_effect(lines: Seq<Seq<char>>, n: int, k: Seq<char>) -> Option<Option<nat>>
    decreases n,
{
    if n <= 0 {
        None
    } else {
        match decode_spec(lines[n - 1]) {
            Some(r) => if r.cmd == set_cmd() && r.key == k {
                Some(Some((n - 1) as nat))
            } else if r.cmd == rm_cmd() && r.key == k {
                Some(None)
            } else {
                last_effect(lines, n - 1, k)
            },
            None => last_effect(lines, n - 1, k),
        }
    }
}

/// Whether replay succeeds depends on the lines alone, not on the index
/// it starts from.
proof fn lemma_replay_from_some(m0: Map<Seq<char>, nat>, lines: Seq<Seq<char>>, n: int)
    requires
        0 <= n,
    ensures
        (replay_from(m0, lines, n) is Some) == (replay_upto(lines, n) is Some),
    decreases n,
{
    if n > 0 {
        lemma_replay_from_some(m0, lines, n - 1);
    }
}

/// A replay from scratch leaves each key exactly as its latest effect
/// says: bound to that ordinal, or absent.
proof fn lemma_replay_upto_pointwise(lines: Seq<Seq<char>>, n: int, k: Seq<char>)
    requires
        0 <= n,
        replay_upto(lines, n) is Some,
    ensures
        ({
            let m = replay_upto(lines, n).unwrap();
            match last_effect(lines, n, k) {
                Some(Some(row)) => m.contains_key(k) && m[k] == row,
                Some(None) => !m.contains_key(k),
                None => !m.contains_key(k),
            }
        }),
    decreases n,
{
    if n > 0 {
        lemma_replay_upto_pointwise(lines, n - 1, k);
        lemma_cmds_differ();
    }
}

/// A replay on top of `m0` leaves each touched key as its latest effect
/// says and each untouched key as `m0` had it.
proof fn lemma_replay_from_pointwise(
    m0: Map<Seq<char>, nat>,
    lines: Seq<Seq<char>>,
    n: int,
    k: Seq<char>,
)
    requires
        0 <= n,
        replay_from(m0, lines, n) is Some,
    ensures
        ({
            let m = replay_from(m0, lines, n).unwrap();
            match last_effect(lines, n, k) {
                Some(Some(row)) => m.contains_key(k) && m[k] == row,
                Some(None) => !m.contains_key(k),
                None => m.contains_key(k) == m0.contains_key(k) && (m0.contains_key(k) ==> m[k]
                    == m0[k]),
            }
        }),
    decreases n,
{
    if n > 0 {
        lemma_replay_from_pointwise(m0, lines, n - 1, k);
        lemma_cmds_differ();
    }
}

/// Replay idempotence: replaying the log once more, on top of the index a
/// full replay produced, returns that index unchanged — the index depends
/// on the log alone, with no drift from the state a previous replay left.
pub proof fn lemma_replay_idempotent(lines: Seq<Seq<char>>)
    requires
        index_of_log(lines) is Some,
    ensures
        replay_from(index_of_log(lines).unwrap(), lines, lines.len() as int) == index_of_log(
            lines,
        ),
{
    let m0 = index_of_log(lines).unwrap();
    let n = lines.len() as int;
    lemma_replay_from_some(m0, lines, n);
    let m = replay_from(m0, lines, n).unwrap();
    assert forall|k: Seq<char>| #[trigger] m.dom().contains(k) implies m0.dom().contains(k) && m[k]
        == m0[k] by {
        lemma_replay_upto_pointwise(lines, n, k);
        lemma_replay_from_pointwise(m0, lines, n, k);
    }
    assert forall|k: Seq<char>| #[trigger] m0.dom().contains(k) implies m.dom().contains(k) by {
        lemma_replay_upto_pointwise(lines, n, k);
        lemma_replay_from_pointwise(m0, lines, n, k);
    }
    assert(m.dom() =~= m0.dom());
    assert(m =~= m0);
}

} // verus!
