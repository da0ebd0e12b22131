//! The result store: one entry per host key, each holding that host's port
//! results, with last-write-wins insertion.
use vstd::prelude::*;

use crate::net::IpAddress;
use crate::scan::ScanResult;

verus! {

/// Identifies a host in the store: its address, and whether it answered the
/// liveness probe. An unreachable host is kept under its own key so that an
/// observer can tell it apart from a host that is not scanned yet.
#[derive(Clone, Copy, Debug, PartialEq, Eq, Structural)]
pub struct HostKey {
    pub addr: IpAddress,
    pub reachable: bool,
}

/// One host and the results of its port scan, in the order they were
/// gathered.
#[derive(Clone, Debug)]
pub struct HostEntry {
    pub key: HostKey,
    pub results: Vec<ScanResult>,
}

/// Mapping from host key to port results. Keys are unique: every store
/// made by `new` and changed by `insert` is well formed.
#[derive(Clone, Debug)]
pub struct ResultStore {
    entries: Vec<HostEntry>,
}

impl ResultStore {
    /// The entries, in order of first insertion.
    pub closed spec fn entry_list(self) -> Seq<HostEntry> {
        self.entries@
    }

    pub closed spec fn keys(self) -> Seq<HostKey> {
        self.entries@.map_values(|e: HostEntry| e.key)
    }

    pub closed spec fn wf(self) -> bool {
        self.keys().no_duplicates()
    }

    /// Position of `k` among the entries.
    pub closed spec fn slot(self, k: HostKey) -> int {
        choose|i: int| 0 <= i < self.entries@.len() && self.entries@[i].key == k
    }

    pub closed spec fn view(self) -> Map<HostKey, Seq<ScanResult>> {
        Map::new(
            |k: HostKey| self.keys().contains(k),
            |k: HostKey| self.entries@[self.slot(k)].results@,
        )
    }

    /// An empty store.
    pub fn new() -> (r: ResultStore)
        ensures
            r.wf(),
            r@ == Map::<HostKey, Seq<ScanResult>>::empty(),
    {
        let r = ResultStore { entries: Vec::new() };
        assert(r@ =~= Map::<HostKey, Seq<ScanResult>>::empty());
        r
    }

    /// The entries, in order of first insertion.
    pub fn entries(&self) -> (r: &Vec<HostEntry>)
        ensures
            r@ == self.entry_list(),
            self.wf() ==> forall|i: int|
                0 <= i < r@.len() ==> self@.contains_key(#[trigger] r@[i].key) && self@[r@[i].key]
                    == r@[i].results@,
    {
        proof {
            assert forall|i: int| 0 <= i < self.entries@.len() && self.wf() implies self@.contains_key(
                #[trigger] self.entries@[i].key,
            ) && self@[self.entries@[i].key] == self.entries@[i].results@ by {
                self.lemma_slot(i);
            }
        }
        &self.entries
    }

    /// Number of distinct host keys.
    pub fn len(&self) -> (r: usize)
        requires
            self.wf(),
        ensures
            r == self@.dom().len(),
    {
        proof {
            self.keys().unique_seq_to_set();
            assert(self@.dom() =~= self.keys().to_set());
        }
        self.entries.len()
    }

    pub proof fn lemma_dom_is_keys(self)
        requires
            self.wf(),
        ensures
            forall|k: HostKey| #[trigger] self@.contains_key(k) <==> exists|i: int|
                0 <= i < self.entry_list().len() && self.entry_list()[i].key == k,
            self@.len() == self.entry_list().len(),
    {
        self.keys().unique_seq_to_set();
        assert(self@.dom() =~= self.keys().to_set());
        assert forall|k: HostKey| #[trigger] self@.contains_key(k) implies exists|i: int|
            0 <= i < self.entry_list().len() && self.entry_list()[i].key == k by {
            let i = choose|i: int| 0 <= i < self.keys().len() && self.keys()[i] == k;
            assert(self.entry_list()[i].key == k);
        }
        assert forall|k: HostKey| (exists|i: int|
            0 <= i < self.entry_list().len() && self.entry_list()[i].key == k) implies #[trigger] self@.contains_key(k) by {
            let i = choose|i: int| 0 <= i < self.entry_list().len() && self.entry_list()[i].key == k;
            assert(self.keys()[i] == k);
        }
    }

    /// Looks up the position of `key`, if present.
    fn find(&self, key: &HostKey) -> (r: Option<usize>)
        ensures
            match r {
                Some(i) => i < self.entries@.len() && self.entries@[i as int].key == *key,
                None => !self.keys().contains(*key),
            },
    {
        let mut i: usize = 0;
        while i < self.entries.len()
            invariant
                i <= self.entries@.len(),
                forall|j: int| 0 <= j < i ==> self.entries@[j].key != *key,
            decreases self.entries@.len() - i,
        {
            if self.entries[i].key == *key {
                return Some(i);
            }
            i = i + 1;
        }
        assert forall|j: int| 0 <= j < self.keys().len() implies self.keys()[j] != *key by {
            assert(self.keys()[j] == self.entries@[j].key);
        }
        None
    }

    /// The results stored under `key`.
    pub fn get(&self, key: &HostKey) -> (r: Option<&Vec<ScanResult>>)
        requires
            self.wf(),
        ensures
            match r {
                Some(v) => self@.contains_key(*key) && v@ == self@[*key],
                None => !self@.contains_key(*key),
            },
    {
        match self.find(key) {
            Some(i) => {
                proof {
                    self.lemma_slot(i as int);
                }
                Some(&self.entries[i].results)
            },
            None => None,
        }
    }

    proof fn lemma_slot(self, i: int)
        requires
            self.wf(),
            0 <= i < self.entries@.len(),
        ensures
            self.slot(self.entries@[i].key) == i,
            self.keys().contains(self.entries@[i].key),
    {
        let k = self.entries@[i].key;
        assert(self.keys()[i] == k);
        let j = self.slot(k);
        assert(self.keys()[j] == k);
    }

    /// Stores `results` under `key`, replacing what was there.
    pub fn insert(&mut self, key: HostKey, results: Vec<ScanResult>)
        requires
            old(self).wf(),
        ensures
            final(self).wf(),
            final(self)@ == old(self)@.insert(key, results@),
    {
        let ghost v = results@;
        let entry = HostEntry { key, results };
        match self.find(&key) {
            Some(i) => {
                self.entries.set(i, entry);
                proof {
                    assert(self.keys() =~= old(self).keys().update(i as int, key));
                    assert forall|a: int, b: int|
                        0 <= a < self.keys().len() && 0 <= b < self.keys().len() && a != b
                        implies self.keys()[a] != self.keys()[b] by {
                        assert(old(self).keys()[a] == old(self).entries@[a].key);
                        assert(old(self).keys()[b] == old(self).entries@[b].key);
                    }
                    assert forall|k: HostKey| #[trigger] self@.contains_key(k) implies self@[k]
                        == old(self)@.insert(key, v)[k] by {
                        let j = self.slot(k);
                        assert(self.keys()[j] == k);
                        if k != key {
                            assert(old(self).keys()[j] == k);
                            old(self).lemma_slot(j);
                        } else {
                            self.lemma_slot(i as int);
                        }
                    }
                    assert forall|k: HostKey|
                        old(self)@.insert(key, v).contains_key(k) implies #[trigger] self@.contains_key(k) by {
                        if k != key {
                            let j = old(self).slot(k);
                            assert(old(self).keys()[j] == k);
                            assert(self.keys()[j] == k);
                        } else {
                            assert(self.keys()[i as int] == key);
                        }
                    }
                    assert forall|k: HostKey| #[trigger] self@.contains_key(k) implies old(self)@.insert(key, v).contains_key(k) by {
                        let j = choose|j: int| 0 <= j < self.keys().len() && self.keys()[j] == k;
                        if k != key {
                            assert(old(self).keys()[j] == k);
                        }
                    }
                    assert(self@ =~= old(self)@.insert(key, v));
                }
            },
            None => {
                self.entries.push(entry);
                proof {
                    let n = old(self).entries@.len() as int;
                    assert(self.keys() =~= old(self).keys().push(key));
                    assert forall|k: HostKey| #[trigger] self@.contains_key(k) implies self@[k]
                        == old(self)@.insert(key, v)[k] by {
                        let j = self.slot(k);
                        assert(self.keys()[j] == k);
                        if k != key {
                            assert(old(self).keys()[j] == k);
                            old(self).lemma_slot(j);
                        } else {
                            self.lemma_slot(n);
                        }
                    }
                    assert forall|k: HostKey|
                        old(self)@.insert(key, v).contains_key(k) implies #[trigger] self@.contains_key(k) by {
                        if k != key {
                            let j = old(self).slot(k);
                            assert(old(self).keys()[j] == k);
                            assert(self.keys()[j] == k);
                        } else {
                            assert(self.keys()[n] == key);
                        }
                    }
                    assert forall|k: HostKey| #[trigger] self@.contains_key(k) implies old(self)@.insert(key, v).contains_key(k) by {
                        let j = choose|j: int| 0 <= j < self.keys().len() && self.keys()[j] == k;
                        if k != key {
                            assert(old(self).keys()[j] == k);
                        }
                    }
                    assert(self@ =~= old(self)@.insert(key, v));
                }
            },
        }
    }
}

} // verus!
