//! In-memory index: maps each key to the ordinal of its latest `set`
//! record in the log.
//!
//! The index is a derived, disposable cache: the replay engine rebuilds it
//! from scratch, and nothing survives a restart except through replay.  It
//! is held as a journal of bindings, newest last — a `Some` ordinal binds
//! the key, a `None` marks it removed — so inserting and removing append
//! one binding and a lookup scans from the newest end.
use vstd::prelude::*;

verus! {

/// The map a journal of bindings describes: later bindings win.
pub open spec fn entries_map(s: Seq<(String, Option<usize>)>) -> Map<Seq<char>, nat>
    decreases s.len(),
{
    if s.len() == 0 {
        Map::<Seq<char>, nat>::empty()
    } else {
        let m = entries_map(s.drop_last());
        match s.last().1 {
            Some(p) => m.insert(s.last().0@, p as nat),
            None => m.remove(s.last().0@),
        }
    }
}

/// Mapping from key to the ordinal of that key's latest `set` record.
pub struct Index {
    entries: Vec<(String, Option<usize>)>,
}

impl View for Index {
    type V = Map<Seq<char>, nat>;

    closed spec fn view(&self) -> Map<Seq<char>, nat> {
        entries_map(self.entries@)
    }
}

impl Index {
    /// An index with no entries.
    pub fn new() -> (r: Index)
        ensures
            r@ == Map::<Seq<char>, nat>::empty(),
    {
        Index { entries: Vec::new() }
    }

    /// Binds `key` to `pos`, overwriting any existing binding.
    pub fn insert(&mut self, key: String, pos: usize)
        ensures
            final(self)@ == old(self)@.insert(key@, pos as nat),
    {
        self.entries.push((key, Some(pos)));
        proof {
            assert(self.entries@.drop_last() =~= old(self).entries@);
        }
    }

    /// Clears any binding for `key`; a no-op if the key is absent.
    pub fn remove(&mut self, key: String)
        ensures
            final(self)@ == old(self)@.remove(key@),
    {
        self.entries.push((key, None));
        proof {
            assert(self.entries@.drop_last() =~= old(self).entries@);
        }
    }

    /// The ordinal bound to `key`, if any.
    pub fn lookup(&self, key: &String) -> (r: Option<usize>)
        ensures
            match r {
                Some(p) => self@.contains_key(key@) && self@[key@] == p as nat,
                None => !self@.contains_key(key@),
            },
    {
        let mut i: usize = self.entries.len();
        proof {
            assert(self.entries@.take(i as int) =~= self.entries@);
        }
        while i > 0
            invariant
                i <= self.entries.len(),
                self@.contains_key(key@) == entries_map(self.entries@.take(i as int)).contains_key(
                    key@,
                ),
                self@.contains_key(key@) ==> self@[key@] == entries_map(
                    self.entries@.take(i as int),
                )[key@],
            decreases i,
        {
            proof {
                assert(self.entries@.take(i as int).drop_last() =~= self.entries@.take(i - 1));
                assert(self.entries@.take(i as int).last() == self.entries@[i - 1]);
            }
            let e = &self.entries[i - 1];
            if e.0 == *key {
                match e.1 {
                    Some(p) => {
                        return Some(p);
                    },
                    None => {
                        return None;
                    },
                }
            }
            i = i - 1;
        }
        proof {
            assert(self.entries@.take(0) =~= Seq::<(String, Option<usize>)>::empty());
        }
        None
    }
}

} // verus!
