//! The residency tracker of one register class: which virtual register is
//! in which physical register, from the least to the most recently used,
//! and which registers the instruction at hand has pinned.

use crate::lru::distinct_keys;
use crate::lru::has_key;
use crate::lru::key_index;
use crate::lru::put;
use crate::lru::touch;
use crate::lru::value_of;
use crate::lru::without_key;
use crate::model::RegClass;
use vstd::prelude::*;
use vstd::set_lib::lemma_len_subset;

verus! {

/// Some pair has the value `value`.
pub open spec fn has_value(entries: Seq<(u32, u32)>, value: u32) -> bool {
    exists|i: int| 0 <= i < entries.len() && entries[i].1 == value
}

/// The position of a pair with the value `value`.
pub open spec fn value_index(entries: Seq<(u32, u32)>, value: u32) -> int {
    choose|i: int| 0 <= i < entries.len() && entries[i].1 == value
}

/// The key that is bound to `value`, if any.
pub open spec fn holder_of(entries: Seq<(u32, u32)>, value: u32) -> Option<u32> {
    if has_value(entries, value) {
        Some(entries[value_index(entries, value)].0)
    } else {
        None
    }
}

/// No value occurs twice.
pub open spec fn distinct_values(entries: Seq<(u32, u32)>) -> bool {
    forall|i: int, j: int| 0 <= i < j < entries.len() ==> entries[i].1 != entries[j].1
}

/// Every value is a register of the pool.
pub open spec fn within_pool(entries: Seq<(u32, u32)>, pool: Seq<u32>) -> bool {
    forall|i: int| 0 <= i < entries.len() ==> pool.contains((#[trigger] entries[i]).1)
}

/// The residency invariant: a virtual register is in at most one physical
/// register, a physical register holds at most one virtual register, and
/// every register in use belongs to the pool.
pub open spec fn residency_wf(entries: Seq<(u32, u32)>, pool: Seq<u32>) -> bool {
    &&& distinct_keys(entries)
    &&& distinct_values(entries)
    &&& within_pool(entries, pool)
}

/// The pair that has to leave before `vreg` can be bound to `preg`: the one
/// that binds another virtual register to `preg`.
pub open spec fn evicted_by(entries: Seq<(u32, u32)>, vreg: u32, preg: u32) -> Option<(u32, u32)> {
    if has_value(entries, preg) && entries[value_index(entries, preg)].0 != vreg {
        Some(entries[value_index(entries, preg)])
    } else {
        None
    }
}

/// The pairs after `vreg` has been bound to `preg`: whoever else held `preg`
/// is gone, and `vreg` is the most recently used key.
pub open spec fn bind(entries: Seq<(u32, u32)>, vreg: u32, preg: u32) -> Seq<(u32, u32)> {
    match evicted_by(entries, vreg, preg) {
        Some(pair) => put(without_key(entries, pair.0), vreg, preg),
        None => put(entries, vreg, preg),
    }
}

/// What the tracker of one class knows.
pub struct FileState {
    /// The class of the registers.
    pub class: RegClass,
    /// The registers that may be allocated.
    pub pool: Seq<u32>,
    /// The registers that the instruction at hand has pinned.
    pub pinned: Seq<u32>,
    /// The resident pairs of virtual and physical register, from the least
    /// to the most recently used.
    pub entries: Seq<(u32, u32)>,
    /// For each virtual register, the instruction at which it was last
    /// looked up or made resident.
    pub stamps: Map<u32, usize>,
    /// The instruction at hand.
    pub now: usize,
}

impl FileState {
    /// The same tracker with other resident pairs.
    pub open spec fn with_entries(self, entries: Seq<(u32, u32)>) -> FileState {
        FileState { entries, ..self }
    }

    /// The same tracker with other pins.
    pub open spec fn with_pinned(self, pinned: Seq<u32>) -> FileState {
        FileState { pinned, ..self }
    }

    /// The same tracker at instruction `now`.
    pub open spec fn at(self, now: usize) -> FileState {
        FileState { now, ..self }
    }

    /// The instruction at which `vreg` was last looked up or made
    /// resident.
    pub open spec fn stamp_of(self, vreg: u32) -> usize {
        if self.stamps.contains_key(vreg) {
            self.stamps[vreg]
        } else {
            0
        }
    }

    /// The tracker after `vreg` has been used at the instruction at hand
    /// and the resident pairs have become `entries`.
    pub open spec fn accessed(self, vreg: u32, entries: Seq<(u32, u32)>) -> FileState {
        FileState { entries, stamps: self.stamps.insert(vreg, self.now), ..self }
    }

    /// The tracker after `vreg` has been looked up: if it is resident, it
    /// is now the most recently used value.
    pub open spec fn looked_up(self, vreg: u32) -> FileState {
        if has_key(self.entries, vreg) {
            self.accessed(vreg, touch(self.entries, vreg))
        } else {
            self
        }
    }

    /// The tracker after `vreg` has been made resident in `preg`: whoever
    /// else held `preg` is gone, and `vreg` is the most recently used
    /// value.
    pub open spec fn bound(self, vreg: u32, preg: u32) -> FileState {
        self.accessed(vreg, bind(self.entries, vreg, preg))
    }

    /// The residency invariant of this tracker.
    pub open spec fn wf(self) -> bool {
        residency_wf(self.entries, self.pool)
    }

    /// `preg` is free for a new value: it holds nothing and is not pinned.
    pub open spec fn available(self, preg: u32) -> bool {
        !self.pinned.contains(preg) && !has_value(self.entries, preg)
    }

    /// The register at position `i` of the pool is the first one that is
    /// free.
    pub open spec fn is_first_free(self, i: int) -> bool {
        &&& 0 <= i < self.pool.len()
        &&& self.available(self.pool[i])
        &&& forall|j: int| 0 <= j < i ==> !self.available(#[trigger] self.pool[j])
    }

    /// The first register of the pool that is free, if any is.
    pub open spec fn first_free(self) -> Option<u32> {
        if exists|i: int| self.is_first_free(i) {
            Some(self.pool[choose|i: int| self.is_first_free(i)])
        } else {
            None
        }
    }

    /// The pair at position `i` may be evicted: its register is not
    /// pinned.
    pub open spec fn evictable(self, i: int) -> bool {
        0 <= i < self.entries.len() && !self.pinned.contains(self.entries[i].1)
    }

    /// The pair at position `i` is the least recently used one that may be
    /// evicted.
    pub open spec fn is_oldest(self, i: int) -> bool {
        &&& self.evictable(i)
        &&& forall|j: int| 0 <= j < i ==> self.pinned.contains((#[trigger] self.entries[j]).1)
    }

    /// The pairs at positions `i` and `j` were last used at the same
    /// instruction.
    pub open spec fn tied(self, i: int, j: int) -> bool {
        self.stamp_of(self.entries[i].0) == self.stamp_of(self.entries[j].0)
    }

    /// The pair at position `k` is the one to evict: among the pairs that
    /// may be evicted and were last used at the same instruction as the
    /// least recently used of them, it has the lowest virtual register.
    pub open spec fn is_victim(self, k: int) -> bool {
        &&& self.evictable(k)
        &&& exists|i: int|
            {
                &&& self.is_oldest(i)
                &&& self.tied(i, k)
                &&& forall|j: int|
                    self.evictable(j) && self.tied(i, j) ==> self.entries[k].0 <= (
                    #[trigger] self.entries[j]).0
            }
    }

    /// The pair to evict: the least recently used one whose register is not
    /// pinned, or, if others were last used at the same instruction, the
    /// one of them with the lowest virtual register. None if every register
    /// in use is pinned.
    pub open spec fn victim(self) -> Option<(u32, u32)> {
        if exists|k: int| self.is_victim(k) {
            Some(self.entries[choose|k: int| self.is_victim(k)])
        } else {
            None
        }
    }

    /// The register for a value that is in none: the first free register,
    /// else the register of the pair to evict, else none.
    pub open spec fn select(self) -> Option<u32> {
        match self.first_free() {
            Some(preg) => Some(preg),
            None => match self.victim() {
                Some(pair) => Some(pair.1),
                None => None,
            },
        }
    }
}

/// The pair to evict is determined: with distinct virtual registers, only
/// one position can hold it.
pub proof fn lemma_victim_unique(file: FileState, k: int, other: int)
    requires
        distinct_keys(file.entries),
        file.is_victim(k),
        file.is_victim(other),
    ensures
        k == other,
{
    let i = choose|i: int|
        {
            &&& file.is_oldest(i)
            &&& file.tied(i, k)
            &&& forall|j: int|
                file.evictable(j) && file.tied(i, j) ==> file.entries[k].0 <= (
                #[trigger] file.entries[j]).0
        };
    let i2 = choose|i: int|
        {
            &&& file.is_oldest(i)
            &&& file.tied(i, other)
            &&& forall|j: int|
                file.evictable(j) && file.tied(i, j) ==> file.entries[other].0 <= (
                #[trigger] file.entries[j]).0
        };
    if i < i2 {
        assert(file.pinned.contains(file.entries[i].1));
    } else if i2 < i {
        assert(file.pinned.contains(file.entries[i2].1));
    }
    assert(file.entries[k].0 <= file.entries[other].0);
    assert(file.entries[other].0 <= file.entries[k].0);
    if k < other {
        assert(file.entries[k].0 != file.entries[other].0);
    } else if other < k {
        assert(file.entries[other].0 != file.entries[k].0);
    }
}

/// With distinct keys, a key is found at one position only.
pub proof fn lemma_key_unique(entries: Seq<(u32, u32)>, i: int)
    requires
        distinct_keys(entries),
        0 <= i < entries.len(),
    ensures
        has_key(entries, entries[i].0),
        key_index(entries, entries[i].0) == i,
        value_of(entries, entries[i].0) == Some(entries[i].1),
{
    let k = key_index(entries, entries[i].0);
    if k < i {
        assert(entries[k].0 != entries[i].0);
    } else if i < k {
        assert(entries[i].0 != entries[k].0);
    }
}

/// With distinct values, a value is found at one position only.
pub proof fn lemma_value_unique(entries: Seq<(u32, u32)>, i: int)
    requires
        distinct_values(entries),
        0 <= i < entries.len(),
    ensures
        has_value(entries, entries[i].1),
        value_index(entries, entries[i].1) == i,
        holder_of(entries, entries[i].1) == Some(entries[i].0),
{
    let k = value_index(entries, entries[i].1);
    if k < i {
        assert(entries[k].1 != entries[i].1);
    } else if i < k {
        assert(entries[i].1 != entries[k].1);
    }
}

/// Resident pairs with distinct registers, all of the pool, are at most as
/// many as the pool has registers.
pub proof fn lemma_fits_pool(entries: Seq<(u32, u32)>, pool: Seq<u32>)
    requires
        distinct_values(entries),
        within_pool(entries, pool),
    ensures
        entries.len() <= pool.len(),
{
    let regs = Seq::new(entries.len(), |i: int| entries[i].1);
    assert(regs.no_duplicates()) by {
        assert forall|i: int, j: int|
            0 <= i < regs.len() && 0 <= j < regs.len() && i != j implies regs[i] != regs[j] by {
            if i < j {
                assert(entries[i].1 != entries[j].1);
            } else {
                assert(entries[j].1 != entries[i].1);
            }
        }
    }
    regs.unique_seq_to_set();
    pool.lemma_cardinality_of_set();
    assert(regs.to_set().subset_of(pool.to_set())) by {
        assert forall|p: u32| regs.to_set().contains(p) implies pool.to_set().contains(p) by {
            let i = choose|i: int| 0 <= i < regs.len() && regs[i] == p;
            assert(pool.contains(entries[i].1));
        }
    }
    vstd::seq_lib::seq_to_set_is_finite(pool);
    lemma_len_subset(regs.to_set(), pool.to_set());
}

/// Removing a key keeps the invariant, the other pairs and their order.
pub proof fn lemma_without_key(entries: Seq<(u32, u32)>, pool: Seq<u32>, key: u32)
    requires
        residency_wf(entries, pool),
    ensures
        residency_wf(without_key(entries, key), pool),
        !has_key(without_key(entries, key), key),
        forall|other: u32|
            other != key ==> value_of(without_key(entries, key), other) == value_of(entries, other),
        forall|preg: u32|
            value_of(entries, key) != Some(preg) ==> holder_of(without_key(entries, key), preg)
                == holder_of(entries, preg),
        forall|preg: u32|
            value_of(entries, key) == Some(preg) ==> !has_value(without_key(entries, key), preg),
{
    let rest = without_key(entries, key);
    if has_key(entries, key) {
        let k = key_index(entries, key);
        entries.remove_ensures(k);
        assert forall|j: int| 0 <= j < rest.len() implies rest[j] == entries[if j < k {
            j
        } else {
            j + 1
        }] by {}
        assert(distinct_keys(rest)) by {
            assert forall|i: int, j: int| 0 <= i < j < rest.len() implies rest[i].0 != rest[j].0 by {
                let a = if i < k { i } else { i + 1 };
                let b = if j < k { j } else { j + 1 };
                assert(entries[a].0 != entries[b].0);
            }
        }
        assert(distinct_values(rest)) by {
            assert forall|i: int, j: int| 0 <= i < j < rest.len() implies rest[i].1 != rest[j].1 by {
                let a = if i < k { i } else { i + 1 };
                let b = if j < k { j } else { j + 1 };
                assert(entries[a].1 != entries[b].1);
            }
        }
        assert(within_pool(rest, pool)) by {
            assert forall|i: int| 0 <= i < rest.len() implies pool.contains((#[trigger] rest[i]).1) by {
                let a = if i < k { i } else { i + 1 };
                assert(pool.contains(entries[a].1));
            }
        }
        if has_key(rest, key) {
            let j = key_index(rest, key);
            let b = if j < k { j } else { j + 1 };
            lemma_key_unique(entries, b);
        }
        assert forall|other: u32| other != key implies value_of(rest, other) == value_of(
            entries,
            other,
        ) by {
            if has_key(entries, other) {
                let a = key_index(entries, other);
                let j = if a < k { a } else { a - 1 };
                assert(rest[j] == entries[a]);
                lemma_key_unique(rest, j);
            } else if has_key(rest, other) {
                let j = key_index(rest, other);
                let b = if j < k { j } else { j + 1 };
                assert(entries[b].0 == other);
            }
        }
        lemma_key_unique(entries, k);
        assert forall|preg: u32| value_of(entries, key) != Some(preg) implies holder_of(rest, preg)
            == holder_of(entries, preg) by {
            if has_value(entries, preg) {
                let a = value_index(entries, preg);
                let j = if a < k { a } else { a - 1 };
                assert(rest[j] == entries[a]);
                lemma_value_unique(rest, j);
            } else if has_value(rest, preg) {
                let j = value_index(rest, preg);
                let b = if j < k { j } else { j + 1 };
                assert(entries[b].1 == preg);
            }
        }
        assert forall|preg: u32| value_of(entries, key) == Some(preg) implies !has_value(
            rest,
            preg,
        ) by {
            if has_value(rest, preg) {
                let j = value_index(rest, preg);
                let b = if j < k { j } else { j + 1 };
                lemma_value_unique(entries, b);
                lemma_value_unique(entries, k);
            }
        }
    }
}

/// Binding a key to a register that no other key holds keeps the invariant;
/// the other keys keep their registers.
pub proof fn lemma_put(entries: Seq<(u32, u32)>, pool: Seq<u32>, key: u32, preg: u32)
    requires
        residency_wf(entries, pool),
        pool.contains(preg),
        holder_of(entries, preg) is None || holder_of(entries, preg) == Some(key),
    ensures
        residency_wf(put(entries, key, preg), pool),
        value_of(put(entries, key, preg), key) == Some(preg),
        holder_of(put(entries, key, preg), preg) == Some(key),
        forall|other: u32|
            other != key ==> value_of(put(entries, key, preg), other) == value_of(entries, other),
        forall|other: u32|
            other != preg && value_of(entries, key) != Some(other) ==> holder_of(
                put(entries, key, preg),
                other,
            ) == holder_of(entries, other),
        forall|other: u32|
            other != preg && value_of(entries, key) == Some(other) ==> !has_value(
                put(entries, key, preg),
                other,
            ),
        put(entries, key, preg).len() <= pool.len(),
{
    let rest = without_key(entries, key);
    let next = put(entries, key, preg);
    lemma_without_key(entries, pool, key);
    let n = rest.len() as int;
    assert(next[n] == (key, preg));
    assert forall|i: int| 0 <= i < n implies next[i] == rest[i] by {}
    assert(!has_value(rest, preg)) by {
        if has_value(rest, preg) {
            let j = value_index(rest, preg);
            lemma_value_unique(rest, j);
            assert(holder_of(rest, preg) == Some(rest[j].0));
            if value_of(entries, key) != Some(preg) {
                assert(holder_of(entries, preg) == Some(rest[j].0));
                assert(rest[j].0 == key);
                assert(has_key(rest, key));
            }
        }
    }
    assert(distinct_keys(next)) by {
        assert forall|i: int, j: int| 0 <= i < j < next.len() implies next[i].0 != next[j].0 by {
            if j < n {
                assert(rest[i].0 != rest[j].0);
            } else {
                assert(next[i] == rest[i]);
            }
        }
    }
    assert(distinct_values(next)) by {
        assert forall|i: int, j: int| 0 <= i < j < next.len() implies next[i].1 != next[j].1 by {
            if j < n {
                assert(rest[i].1 != rest[j].1);
            } else {
                assert(next[i] == rest[i]);
            }
        }
    }
    assert(within_pool(next, pool)) by {
        assert forall|i: int| 0 <= i < next.len() implies pool.contains((#[trigger] next[i]).1) by {
            if i < n {
                assert(pool.contains(rest[i].1));
            }
        }
    }
    lemma_key_unique(next, n);
    lemma_value_unique(next, n);
    assert forall|other: u32| other != key implies value_of(next, other) == value_of(
        entries,
        other,
    ) by {
        if has_key(rest, other) {
            let a = key_index(rest, other);
            assert(next[a] == rest[a]);
            lemma_key_unique(next, a);
            lemma_key_unique(rest, a);
        } else if has_key(next, other) {
            let j = key_index(next, other);
            assert(j < n);
            assert(rest[j].0 == other);
        }
    }
    assert forall|other: u32| other != preg implies holder_of(next, other) == holder_of(rest, other) by {
        if has_value(rest, other) {
            let a = value_index(rest, other);
            assert(next[a] == rest[a]);
            lemma_value_unique(next, a);
            lemma_value_unique(rest, a);
        } else if has_value(next, other) {
            let j = value_index(next, other);
            assert(j < n);
            assert(rest[j].1 == other);
        }
    }
    lemma_fits_pool(next, pool);
}

/// Looking a key up keeps the invariant and every binding; only the order
/// changes.
pub proof fn lemma_touch(entries: Seq<(u32, u32)>, pool: Seq<u32>, key: u32)
    requires
        residency_wf(entries, pool),
    ensures
        residency_wf(touch(entries, key), pool),
        forall|other: u32| value_of(touch(entries, key), other) == value_of(entries, other),
        forall|preg: u32| holder_of(touch(entries, key), preg) == holder_of(entries, preg),
        touch(entries, key).len() == entries.len(),
{
    if has_key(entries, key) {
        let k = key_index(entries, key);
        lemma_key_unique(entries, k);
        let preg = entries[k].1;
        assert(touch(entries, key) == put(entries, key, preg));
        lemma_value_unique(entries, k);
        lemma_put(entries, pool, key, preg);
        lemma_without_key(entries, pool, key);
        let next = touch(entries, key);
        assert forall|p: u32| holder_of(next, p) == holder_of(entries, p) by {
            if p != preg {
                assert(value_of(entries, key) != Some(p));
            }
        }
        assert forall|other: u32| value_of(next, other) == value_of(entries, other) by {}
        entries.remove_ensures(k);
    }
}

/// Binding `vreg` to a register of the pool keeps the invariant, whoever
/// held the register before.
pub proof fn lemma_bind(entries: Seq<(u32, u32)>, pool: Seq<u32>, vreg: u32, preg: u32)
    requires
        residency_wf(entries, pool),
        pool.contains(preg),
    ensures
        residency_wf(bind(entries, vreg, preg), pool),
        bind(entries, vreg, preg).len() <= pool.len(),
        value_of(bind(entries, vreg, preg), vreg) == Some(preg),
        holder_of(bind(entries, vreg, preg), preg) == Some(vreg),
        evicted_by(entries, vreg, preg) matches Some(pair) ==> {
            &&& pair.1 == preg
            &&& pair.0 != vreg
            &&& value_of(entries, pair.0) == Some(preg)
            &&& !has_key(bind(entries, vreg, preg), pair.0)
        },
        forall|other: u32|
            other != vreg && evicted_by(entries, vreg, preg) != Some((other, preg)) ==> value_of(
                bind(entries, vreg, preg),
                other,
            ) == value_of(entries, other),
{
    match evicted_by(entries, vreg, preg) {
        Some(pair) => {
            let k = value_index(entries, preg);
            lemma_value_unique(entries, k);
            lemma_key_unique(entries, k);
            lemma_without_key(entries, pool, pair.0);
            let rest = without_key(entries, pair.0);
            lemma_put(rest, pool, vreg, preg);
            assert(!has_key(bind(entries, vreg, preg), pair.0)) by {
                assert(value_of(rest, pair.0) is None);
                assert(value_of(bind(entries, vreg, preg), pair.0) == value_of(rest, pair.0));
                if has_key(bind(entries, vreg, preg), pair.0) {
                }
            }
        },
        None => {
            if has_value(entries, preg) {
                let k = value_index(entries, preg);
                lemma_value_unique(entries, k);
            }
            lemma_put(entries, pool, vreg, preg);
        },
    }
}

} // verus!
