//! The spill slot allocator: one stack slot for each virtual register that
//! is ever sent to the stack, handed out from the frame's cursor and never
//! taken back.

use crate::model::class_size;
use crate::model::RegClass;
use crate::model::regclass_size;
use crate::model::SpillSlotData;
use std::collections::HashMap;
use vstd::prelude::*;
use vstd::set_lib::lemma_int_range;
use vstd::set_lib::lemma_len_subset;
use vstd::set_lib::set_int_range;

verus! {

/// Some slot of the table belongs to `vreg`.
pub open spec fn has_slot(table: Seq<SpillSlotData>, vreg: u32) -> bool {
    exists|i: int| 0 <= i < table.len() && table[i].vreg == vreg
}

/// The position in the table of a slot that belongs to `vreg`.
pub open spec fn slot_index(table: Seq<SpillSlotData>, vreg: u32) -> int {
    choose|i: int| 0 <= i < table.len() && table[i].vreg == vreg
}

/// The byte offset of the slot of `vreg`, if it has one.
pub open spec fn slot_of(table: Seq<SpillSlotData>, vreg: u32) -> Option<u64> {
    if has_slot(table, vreg) {
        Some(table[slot_index(table, vreg)].offset)
    } else {
        None
    }
}

/// The bytes that the slots of the table take together.
pub open spec fn frame_size(table: Seq<SpillSlotData>) -> nat
    decreases table.len(),
{
    if table.len() == 0 {
        0
    } else {
        frame_size(table.drop_last()) + class_size(table.last().class)
    }
}

/// A table as the allocator builds it: no virtual register has two slots,
/// and each slot begins where the slots handed out before it end.
pub open spec fn slots_wf(table: Seq<SpillSlotData>) -> bool {
    &&& forall|i: int, j: int| 0 <= i < j < table.len() ==> table[i].vreg != table[j].vreg
    &&& forall|i: int|
        0 <= i < table.len() ==> (#[trigger] table[i]).offset == frame_size(table.take(i))
}

/// The table after `vreg` has asked for its slot: unchanged if it has one,
/// else longer by a slot of the size of `class` at the end of the frame.
pub open spec fn with_slot(table: Seq<SpillSlotData>, vreg: u32, class: RegClass) -> Seq<
    SpillSlotData,
> {
    if has_slot(table, vreg) {
        table
    } else {
        table.push(SpillSlotData { vreg, class, offset: frame_size(table) as u64 })
    }
}

/// Every slot takes at most eight bytes, and a whole number of four-byte
/// words.
pub proof fn lemma_frame_size_bounds(table: Seq<SpillSlotData>)
    ensures
        frame_size(table) <= 8 * table.len(),
        frame_size(table) >= 4 * table.len(),
        frame_size(table) % 4 == 0,
    decreases table.len(),
{
    if table.len() > 0 {
        lemma_frame_size_bounds(table.drop_last());
    }
}

/// A table without a repeated virtual register has at most as many slots as
/// there are `u32` values.
pub proof fn lemma_table_len_bound(table: Seq<SpillSlotData>)
    requires
        forall|i: int, j: int| 0 <= i < j < table.len() ==> table[i].vreg != table[j].vreg,
    ensures
        table.len() <= 0x1_0000_0000,
{
    let ids = Seq::new(table.len(), |i: int| table[i].vreg as int);
    assert(ids.no_duplicates()) by {
        assert forall|i: int, j: int| 0 <= i < ids.len() && 0 <= j < ids.len() && i != j implies ids[i]
            != ids[j] by {
            if i < j {
                assert(table[i].vreg != table[j].vreg);
            } else {
                assert(table[j].vreg != table[i].vreg);
            }
        }
    }
    ids.unique_seq_to_set();
    lemma_int_range(0, 0x1_0000_0000);
    assert(ids.to_set().subset_of(set_int_range(0, 0x1_0000_0000))) by {
        assert forall|x: int| ids.to_set().contains(x) implies set_int_range(
            0,
            0x1_0000_0000,
        ).contains(x) by {
            let i = choose|i: int| 0 <= i < ids.len() && ids[i] == x;
            assert(ids[i] == table[i].vreg as int);
        }
    }
    lemma_len_subset(ids.to_set(), set_int_range(0, 0x1_0000_0000));
}

/// A slot that is asked for again is found where it was, and a new slot
/// leaves the table well formed.
pub proof fn lemma_with_slot(table: Seq<SpillSlotData>, vreg: u32, class: RegClass)
    requires
        slots_wf(table),
    ensures
        slots_wf(with_slot(table, vreg, class)),
        has_slot(with_slot(table, vreg, class), vreg),
        table.is_prefix_of(with_slot(table, vreg, class)),
        !has_slot(table, vreg) ==> slot_of(with_slot(table, vreg, class), vreg) == Some(
            frame_size(table) as u64,
        ),
        has_slot(table, vreg) ==> slot_of(with_slot(table, vreg, class), vreg) == slot_of(
            table,
            vreg,
        ),
        frame_size(table) + 8 <= u64::MAX,
{
    lemma_frame_size_bounds(table);
    lemma_table_len_bound(table);
    let next = with_slot(table, vreg, class);
    if !has_slot(table, vreg) {
        let n = table.len() as int;
        assert(next[n].vreg == vreg);
        assert forall|i: int| 0 <= i < next.len() implies (#[trigger] next[i]).offset
            == frame_size(next.take(i)) by {
            if i < n {
                assert(next.take(i) =~= table.take(i));
                assert(next[i] == table[i]);
            } else {
                assert(next.take(i) =~= table);
            }
        }
        assert forall|i: int, j: int| 0 <= i < j < next.len() implies next[i].vreg
            != next[j].vreg by {
            if j < n {
                assert(table[i].vreg != table[j].vreg);
            } else {
                assert(next[i] == table[i]);
            }
        }
        let k = slot_index(next, vreg);
        if k < n {
            assert(next[k] == table[k]);
        }
    }
}

/// In a well-formed table a virtual register has its slot at one place only.
pub proof fn lemma_slot_unique(table: Seq<SpillSlotData>, i: int)
    requires
        slots_wf(table),
        0 <= i < table.len(),
    ensures
        has_slot(table, table[i].vreg),
        slot_index(table, table[i].vreg) == i,
        slot_of(table, table[i].vreg) == Some(table[i].offset),
{
    let k = slot_index(table, table[i].vreg);
    if k < i {
        assert(table[k].vreg != table[i].vreg);
    } else if i < k {
        assert(table[i].vreg != table[k].vreg);
    }
}

/// The spill slot allocator of one run.
pub struct SpillSlots {
    /// The slots in the order in which they were handed out.
    table: Vec<SpillSlotData>,
    /// For each virtual register that has a slot, the slot's offset.
    index: HashMap<u32, u64>,
    /// The end of the frame: where the next slot will begin.
    cursor: u64,
}

impl View for SpillSlots {
    type V = Seq<SpillSlotData>;

    closed spec fn view(&self) -> Seq<SpillSlotData> {
        self.table@
    }
}

impl SpillSlots {
    /// The invariant of the allocator: the table is well formed, the cursor
    /// stands at the end of the frame, and the index agrees with the table.
    pub closed spec fn wf(&self) -> bool {
        &&& slots_wf(self.table@)
        &&& self.cursor == frame_size(self.table@)
        &&& forall|vreg: u32| #[trigger] self.index@.contains_key(vreg) <==> has_slot(self.table@, vreg)
        &&& forall|i: int|
            0 <= i < self.table@.len() ==> self.index@[(#[trigger] self.table@[i]).vreg]
                == self.table@[i].offset
    }

    /// What the invariant says of the table alone.
    pub proof fn lemma_wf(&self)
        requires
            self.wf(),
        ensures
            slots_wf(self@),
    {
    }

    /// An allocator that has handed out no slot.
    pub fn new() -> (slots: Self)
        ensures
            slots.wf(),
            slots@ == Seq::<SpillSlotData>::empty(),
    {
        broadcast use vstd::std_specs::hash::group_hash_axioms;

        let slots = SpillSlots { table: Vec::new(), index: HashMap::new(), cursor: 0 };
        assert(slots.table@.take(0) =~= slots.table@);
        slots
    }

    /// The offset of the slot of `vreg`, if it has one.
    pub fn lookup(&self, vreg: u32) -> (offset: Option<u64>)
        requires
            self.wf(),
        ensures
            offset == slot_of(self@, vreg),
    {
        broadcast use vstd::std_specs::hash::group_hash_axioms;

        match self.index.get(&vreg) {
            Some(offset) => {
                proof {
                    let k = slot_index(self.table@, vreg);
                    assert(self.index@[self.table@[k].vreg] == self.table@[k].offset);
                }
                Some(*offset)
            },
            None => None,
        }
    }

    /// The offset of the slot of `vreg`. The first call for a virtual
    /// register hands out a new slot of the size of `class` at the end of
    /// the frame; every later call finds that slot again.
    pub fn slot_for(&mut self, vreg: u32, class: RegClass) -> (offset: u64)
        requires
            old(self).wf(),
        ensures
            final(self).wf(),
            final(self)@ == with_slot(old(self)@, vreg, class),
            Some(offset) == slot_of(final(self)@, vreg),
    {
        proof {
            lemma_with_slot(self.table@, vreg, class);
        }
        match self.lookup(vreg) {
            Some(offset) => offset,
            None => self.add_slot(vreg, class),
        }
    }

    /// Hands out a new slot of the size of `class` to `vreg`, which has
    /// none, and moves the cursor past it.
    fn add_slot(&mut self, vreg: u32, class: RegClass) -> (offset: u64)
        requires
            old(self).wf(),
            !has_slot(old(self)@, vreg),
        ensures
            final(self).wf(),
            final(self)@ == with_slot(old(self)@, vreg, class),
            offset == frame_size(old(self)@),
    {
        broadcast use vstd::std_specs::hash::group_hash_axioms;

        let offset = self.cursor;
        let ghost before = self.table@;
        proof {
            lemma_with_slot(before, vreg, class);
        }
        self.table.push(SpillSlotData { vreg, class, offset });
        self.index.insert(vreg, offset);
        self.cursor = offset + regclass_size(class) as u64;
        proof {
            let after = self.table@;
            assert(after == with_slot(before, vreg, class));
            assert(after.drop_last() =~= before);
            assert forall|other: u32| #[trigger]
                self.index@.contains_key(other) <==> has_slot(after, other) by {
                if other == vreg {
                } else if has_slot(before, other) {
                    let k = slot_index(before, other);
                    assert(after[k] == before[k]);
                } else if has_slot(after, other) {
                    let k = slot_index(after, other);
                    if k < before.len() {
                        assert(after[k] == before[k]);
                    }
                }
            }
            assert forall|i: int| 0 <= i < after.len() implies self.index@[(#[trigger] after[i]).vreg]
                == after[i].offset by {
                if i < before.len() {
                    assert(after[i] == before[i]);
                    assert(has_slot(before, before[i].vreg));
                }
            }
        }
        offset
    }

    /// How many slots have been handed out.
    pub fn count(&self) -> (n: usize)
        ensures
            n == self@.len(),
    {
        self.table.len()
    }

    /// The size of the frame in bytes.
    pub fn frame_bytes(&self) -> (bytes: u64)
        requires
            self.wf(),
        ensures
            bytes == frame_size(self@),
    {
        self.cursor
    }

    /// The slot handed out at position `i`.
    pub fn get(&self, i: usize) -> (slot: SpillSlotData)
        requires
            i < self@.len(),
        ensures
            slot == self@[i as int],
    {
        self.table[i]
    }
}

} // verus!
