//! The register file of one class as the allocator keeps it: the pool, the
//! pins, and an LRU cache from resident virtual registers to their
//! physical registers.

use crate::lru::distinct_keys;
use crate::lru::lru_capacity;
use crate::lru::lru_entries;
use crate::lru::lru_get;
use crate::lru::lru_insert;
use crate::lru::lru_new;
use crate::lru::lru_pairs;
use crate::lru::lru_remove;
use crate::lru::value_of;
use crate::lru::without_key;
use crate::model::RegClass;
use crate::residency::distinct_values;
use crate::residency::evicted_by;
use crate::residency::FileState;
use crate::residency::holder_of;
use crate::residency::lemma_bind;
use crate::residency::lemma_key_unique;
use crate::residency::lemma_touch;
use crate::residency::lemma_value_unique;
use crate::residency::lemma_victim_unique;
use crate::residency::lemma_without_key;
use crate::residency::value_index;
use lru_cache::LruCache;
use std::collections::HashMap;
use vstd::prelude::*;

verus! {

/// Whether `preg` occurs in `list`.
pub fn contains_reg(list: &Vec<u32>, preg: u32) -> (found: bool)
    ensures
        found == list@.contains(preg),
{
    let mut i: usize = 0;
    while i < list.len()
        invariant
            i <= list@.len(),
            forall|j: int| 0 <= j < i ==> list@[j] != preg,
        decreases list@.len() - i,
    {
        if list[i] == preg {
            return true;
        }
        i += 1;
    }
    false
}

/// The virtual register that `pairs` binds to `preg`, if any.
pub fn holder_in(pairs: &Vec<(u32, u32)>, preg: u32) -> (holder: Option<u32>)
    requires
        distinct_values(pairs@),
    ensures
        holder == holder_of(pairs@, preg),
{
    let mut i: usize = 0;
    while i < pairs.len()
        invariant
            i <= pairs@.len(),
            distinct_values(pairs@),
            forall|j: int| 0 <= j < i ==> pairs@[j].1 != preg,
        decreases pairs@.len() - i,
    {
        if pairs[i].1 == preg {
            proof {
                lemma_value_unique(pairs@, i as int);
            }
            return Some(pairs[i].0);
        }
        i += 1;
    }
    None
}

/// The register that `pairs` binds `vreg` to, if any.
pub fn value_in(pairs: &Vec<(u32, u32)>, vreg: u32) -> (preg: Option<u32>)
    requires
        distinct_keys(pairs@),
    ensures
        preg == value_of(pairs@, vreg),
{
    let mut i: usize = 0;
    while i < pairs.len()
        invariant
            i <= pairs@.len(),
            distinct_keys(pairs@),
            forall|j: int| 0 <= j < i ==> pairs@[j].0 != vreg,
        decreases pairs@.len() - i,
    {
        if pairs[i].0 == vreg {
            proof {
                lemma_key_unique(pairs@, i as int);
            }
            return Some(pairs[i].1);
        }
        i += 1;
    }
    None
}

/// The residency tracker of one register class.
pub struct RegFile {
    class: RegClass,
    pool: Vec<u32>,
    pinned: Vec<u32>,
    cache: LruCache<u32, u32>,
    stamps: HashMap<u32, usize>,
    now: usize,
}

impl View for RegFile {
    type V = FileState;

    closed spec fn view(&self) -> FileState {
        FileState {
            class: self.class,
            pool: self.pool@,
            pinned: self.pinned@,
            entries: lru_entries(self.cache),
            stamps: self.stamps@,
            now: self.now,
        }
    }
}

impl RegFile {
    /// The invariant of the tracker: the residency invariant, in a cache
    /// made for as many pairs as the pool has registers.
    pub closed spec fn wf(&self) -> bool {
        &&& self@.wf()
        &&& lru_capacity(self.cache) == self.pool@.len()
    }

    /// The residency invariant holds of every tracker.
    pub proof fn lemma_wf(&self)
        requires
            self.wf(),
        ensures
            self@.wf(),
    {
    }

    /// A tracker for the registers `pool` of class `class`, with nothing
    /// resident and nothing pinned.
    pub fn new(class: RegClass, pool: Vec<u32>) -> (file: Self)
        ensures
            file.wf(),
            file@ == (FileState {
                class,
                pool: pool@,
                pinned: Seq::<u32>::empty(),
                entries: Seq::<(u32, u32)>::empty(),
                stamps: Map::<u32, usize>::empty(),
                now: 0,
            }),
    {
        let cache = lru_new(pool.len());
        RegFile { class, pool, pinned: Vec::new(), cache, stamps: HashMap::new(), now: 0 }
    }

    /// Tells the tracker which instruction is at hand: values that are
    /// looked up or made resident from now on were last used at `inst`.
    pub fn begin(&mut self, inst: usize)
        requires
            old(self).wf(),
        ensures
            final(self).wf(),
            final(self)@ == old(self)@.at(inst),
    {
        self.now = inst;
    }

    /// The instruction at which `vreg` was last looked up or made
    /// resident: zero if it never was.
    pub fn stamp_of(&self, vreg: u32) -> (stamp: usize)
        ensures
            stamp == self@.stamp_of(vreg),
    {
        broadcast use vstd::std_specs::hash::group_hash_axioms;

        match self.stamps.get(&vreg) {
            Some(stamp) => *stamp,
            None => 0,
        }
    }

    /// The class of the registers of this file.
    pub fn class(&self) -> (class: RegClass)
        ensures
            class == self@.class,
    {
        self.class
    }

    /// Whether `preg` is a register of the pool.
    pub fn has_reg(&self, preg: u32) -> (found: bool)
        ensures
            found == self@.pool.contains(preg),
    {
        contains_reg(&self.pool, preg)
    }

    /// The register in which `vreg` is resident, if it is in one. The order
    /// of use is not touched.
    pub fn peek(&self, vreg: u32) -> (preg: Option<u32>)
        requires
            self.wf(),
        ensures
            preg == value_of(self@.entries, vreg),
    {
        let pairs = lru_pairs(&self.cache);
        value_in(&pairs, vreg)
    }

    /// The register in which `vreg` is resident, if it is in one. A resident
    /// `vreg` becomes the most recently used one.
    pub fn lookup(&mut self, vreg: u32) -> (preg: Option<u32>)
        requires
            old(self).wf(),
        ensures
            final(self).wf(),
            preg == value_of(old(self)@.entries, vreg),
            final(self)@ == old(self)@.looked_up(vreg),
    {
        broadcast use vstd::std_specs::hash::group_hash_axioms;

        proof {
            lemma_touch(self@.entries, self@.pool, vreg);
        }
        let preg = lru_get(&mut self.cache, vreg);
        if preg.is_some() {
            self.stamps.insert(vreg, self.now);
        }
        preg
    }

    /// Makes `vreg` resident in `preg`, as the most recently used virtual
    /// register. If another virtual register was resident in `preg`, it is
    /// evicted, and the evicted pair is returned so that the caller can
    /// spill it.
    pub fn insert(&mut self, vreg: u32, preg: u32) -> (evicted: Option<(u32, u32)>)
        requires
            old(self).wf(),
            old(self)@.pool.contains(preg),
        ensures
            final(self).wf(),
            evicted == evicted_by(old(self)@.entries, vreg, preg),
            final(self)@ == old(self)@.bound(vreg, preg),
    {
        broadcast use vstd::std_specs::hash::group_hash_axioms;

        let ghost before = self@.entries;
        proof {
            lemma_bind(before, self@.pool, vreg, preg);
        }
        let pairs = lru_pairs(&self.cache);
        let evicted = match holder_in(&pairs, preg) {
            Some(holder) => {
                if holder != vreg {
                    proof {
                        lemma_value_unique(before, value_index(before, preg));
                        lemma_without_key(before, self@.pool, holder);
                    }
                    lru_remove(&mut self.cache, holder);
                    Some((holder, preg))
                } else {
                    None
                }
            },
            None => None,
        };
        lru_insert(&mut self.cache, vreg, preg);
        self.stamps.insert(vreg, self.now);
        evicted
    }

    /// Ends the residency of `vreg`, if it is resident, and returns the
    /// register it was in. Nothing is spilled.
    pub fn remove(&mut self, vreg: u32) -> (preg: Option<u32>)
        requires
            old(self).wf(),
        ensures
            final(self).wf(),
            preg == value_of(old(self)@.entries, vreg),
            final(self)@ == old(self)@.with_entries(without_key(old(self)@.entries, vreg)),
    {
        proof {
            lemma_without_key(self@.entries, self@.pool, vreg);
        }
        lru_remove(&mut self.cache, vreg)
    }

    /// The register for a value that is in none: the first register of the
    /// pool that is neither in use nor pinned; if there is none, the
    /// register of the least recently used virtual register whose register
    /// is not pinned, or, where several such were last used at the same
    /// instruction as that one, of the one with the lowest number; if there
    /// is none either, nothing.
    pub fn select(&self) -> (preg: Option<u32>)
        requires
            self.wf(),
        ensures
            preg == self@.select(),
            preg matches Some(p) ==> self@.pool.contains(p) && !self@.pinned.contains(p),
    {
        let pairs = lru_pairs(&self.cache);
        let ghost file = self@;
        let mut i: usize = 0;
        while i < self.pool.len()
            invariant
                i <= self.pool@.len(),
                self.wf(),
                file == self@,
                pairs@ == file.entries,
                forall|j: int| 0 <= j < i ==> !file.available(#[trigger] file.pool[j]),
            decreases self.pool@.len() - i,
        {
            let candidate = self.pool[i];
            if !contains_reg(&self.pinned, candidate) && holder_in(&pairs, candidate).is_none() {
                assert(file.is_first_free(i as int));
                return Some(candidate);
            }
            i += 1;
        }
        assert(file.first_free() is None);
        match self.victim_in(&pairs) {
            Some(pair) => Some(pair.1),
            None => None,
        }
    }

    /// The pair to evict among `pairs`, which are the resident pairs.
    fn victim_in(&self, pairs: &Vec<(u32, u32)>) -> (victim: Option<(u32, u32)>)
        requires
            self.wf(),
            pairs@ == self@.entries,
        ensures
            victim == self@.victim(),
            victim matches Some(pair) ==> self@.pool.contains(pair.1) && !self@.pinned.contains(
                pair.1,
            ),
    {
        let ghost file = self@;
        let mut oldest: usize = 0;
        while oldest < pairs.len() && contains_reg(&self.pinned, pairs[oldest].1)
            invariant
                oldest <= pairs@.len(),
                file == self@,
                pairs@ == file.entries,
                forall|j: int| 0 <= j < oldest ==> file.pinned.contains((#[trigger] file.entries[j]).1),
            decreases pairs@.len() - oldest,
        {
            oldest += 1;
        }
        if oldest == pairs.len() {
            assert forall|k: int| !file.is_victim(k) by {
                if file.evictable(k) {
                    assert(file.pinned.contains(file.entries[k].1));
                }
            }
            return None;
        }
        assert(file.is_oldest(oldest as int));
        let stamp = self.stamp_of(pairs[oldest].0);
        let mut best: usize = oldest;
        let mut j: usize = 0;
        while j < pairs.len()
            invariant
                j <= pairs@.len(),
                oldest < pairs@.len(),
                best < pairs@.len(),
                self.wf(),
                file == self@,
                pairs@ == file.entries,
                file.is_oldest(oldest as int),
                stamp == file.stamp_of(file.entries[oldest as int].0),
                file.evictable(best as int),
                file.tied(oldest as int, best as int),
                forall|i: int|
                    0 <= i < j && file.evictable(i) && file.tied(oldest as int, i)
                        ==> file.entries[best as int].0 <= (#[trigger] file.entries[i]).0,
                file.entries[best as int].0 <= file.entries[oldest as int].0,
            decreases pairs@.len() - j,
        {
            if !contains_reg(&self.pinned, pairs[j].1) && self.stamp_of(pairs[j].0) == stamp
                && pairs[j].0 < pairs[best].0 {
                best = j;
            }
            j += 1;
        }
        proof {
            assert(file.is_victim(best as int)) by {
                assert forall|i: int|
                    file.evictable(i) && file.tied(oldest as int, i) implies file.entries[best as int].0
                    <= (#[trigger] file.entries[i]).0 by {}
            }
            let chosen = choose|k: int| file.is_victim(k);
            lemma_victim_unique(file, best as int, chosen);
            assert(file.pool.contains(file.entries[best as int].1));
        }
        Some(pairs[best])
    }

    /// Pins `preg` until the pins are released: it is given to no value
    /// that asks for any register, and whoever is in it is not evicted for
    /// such a value.
    pub fn pin(&mut self, preg: u32)
        requires
            old(self).wf(),
        ensures
            final(self).wf(),
            final(self)@ == old(self)@.with_pinned(old(self)@.pinned.push(preg)),
    {
        self.pinned.push(preg);
    }

    /// Releases every pin.
    pub fn release_pins(&mut self)
        requires
            old(self).wf(),
        ensures
            final(self).wf(),
            final(self)@ == old(self)@.with_pinned(Seq::<u32>::empty()),
    {
        self.pinned.clear();
    }
}

} // verus!
