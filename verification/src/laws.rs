//! What holds of every resolution and of every run: the locations meet
//! their constraints, the residency invariant is kept, eviction takes the
//! least recently used value, and stack slots stay where they are.

use crate::fast::allocate;
use crate::lru::distinct_keys;
use crate::lru::has_key;
use crate::lru::key_index;
use crate::lru::value_of;
use crate::model::Allocation;
use crate::model::CFGInfo;
use crate::model::class_size;
use crate::model::FuncBody;
use crate::model::MachineEnv;
use crate::model::Operand;
use crate::model::OperandConstraint;
use crate::model::OperandKind;
use crate::model::PReg;
use crate::model::ProgPoint;
use crate::model::RegClass;
use crate::model::SpillSlotData;
use crate::residency::evicted_by;
use crate::residency::FileState;
use crate::residency::lemma_bind;
use crate::residency::lemma_key_unique;
use crate::residency::lemma_touch;
use crate::residency::lemma_value_unique;
use crate::residency::lemma_victim_unique;
use crate::residency::lemma_without_key;
use crate::resolve::Ctx;
use crate::spill::frame_size;
use crate::spill::has_slot;
use crate::spill::lemma_frame_size_bounds;
use crate::spill::lemma_slot_unique;
use crate::spill::lemma_with_slot;
use crate::spill::slot_index;
use crate::spill::slot_of;
use crate::spill::slots_wf;
use crate::state::AllocState;
use crate::state::before;
use crate::state::cfg_ok;
use crate::state::count_blocks;
use crate::state::first_fault;
use crate::state::initial_state;
use crate::state::is_first_fault;
use crate::state::located;
use crate::state::operand_fault;
use crate::state::reuse_source;
use vstd::prelude::*;

verus! {

/// `after` is `before` some steps later: the same registers and pins, and
/// every slot and edit of `before` still at its place.
pub open spec fn extends(before: Ctx, after: Ctx) -> bool {
    &&& after.file.class == before.file.class
    &&& after.file.pool == before.file.pool
    &&& after.file.pinned == before.file.pinned
    &&& before.slots.is_prefix_of(after.slots)
    &&& before.edits.is_prefix_of(after.edits)
}

/// The location `alloc` meets the constraint of `op`, in a state `ctx` of
/// the class of `op`: a register of that class for `Reg`; such a register
/// or the slot of the value for `Any`; the slot of the value for `Stack`;
/// the very register for `FixedReg`; for `Reuse`, the location `source` of
/// the operand it names, which is a register.
pub open spec fn meets(op: Operand, alloc: Allocation, ctx: Ctx, source: Option<Allocation>) -> bool {
    match op.constraint {
        OperandConstraint::Reg => alloc matches Allocation::Reg(preg) && preg.class == op.vreg.class
            && ctx.file.pool.contains(preg.hw_enc),
        OperandConstraint::Any => match alloc {
            Allocation::Reg(preg) => preg.class == op.vreg.class && ctx.file.pool.contains(
                preg.hw_enc,
            ),
            Allocation::Stack(offset) => slot_of(ctx.slots, op.vreg.id) == Some(offset),
        },
        OperandConstraint::Stack => alloc matches Allocation::Stack(offset) && slot_of(
            ctx.slots,
            op.vreg.id,
        ) == Some(offset),
        OperandConstraint::FixedReg(preg) => alloc == Allocation::Reg(preg),
        OperandConstraint::Reuse(_) => source == Some(alloc) && alloc is Reg,
    }
}

/// A slot table that grows keeps the slot of every virtual register that
/// has one.
pub proof fn lemma_prefix_keeps_slots(before: Seq<SpillSlotData>, after: Seq<SpillSlotData>, vreg: u32)
    requires
        slots_wf(after),
        before.is_prefix_of(after),
        has_slot(before, vreg),
    ensures
        slot_of(after, vreg) == slot_of(before, vreg),
{
    let i = slot_index(before, vreg);
    assert(after[i] == before[i]);
    lemma_slot_unique(after, i);
}

/// The register that the tracker selects belongs to the pool and is not
/// pinned.
pub proof fn lemma_select(file: FileState)
    requires
        file.wf(),
    ensures
        file.select() matches Some(preg) ==> file.pool.contains(preg) && !file.pinned.contains(preg),
{
    if file.first_free() is Some {
        let i = choose|i: int| file.is_first_free(i);
        assert(file.pool.contains(file.pool[i]));
    } else if file.victim() is Some {
        let i = choose|i: int| file.is_victim(i);
        assert(file.pool.contains(file.entries[i].1));
    }
}

/// A value that is resident is in a register of the pool.
pub proof fn lemma_resident_in_pool(file: FileState, vreg: u32)
    requires
        file.wf(),
    ensures
        value_of(file.entries, vreg) matches Some(preg) ==> file.pool.contains(preg),
{
    if has_key(file.entries, vreg) {
        let i = key_index(file.entries, vreg);
        assert(file.pool.contains(file.entries[i].1));
    }
}

/// Seeing to an evicted pair keeps the invariant and every slot.
pub proof fn lemma_spill(ctx: Ctx, evicted: Option<(u32, u32)>, point: ProgPoint)
    requires
        ctx.wf(),
    ensures
        ctx.spill(evicted, point).wf(),
        extends(ctx, ctx.spill(evicted, point)),
        ctx.spill(evicted, point).file == ctx.file,
        evicted matches Some(pair) ==> has_slot(ctx.spill(evicted, point).slots, pair.0),
{
    if let Some(pair) = evicted {
        lemma_with_slot(ctx.slots, pair.0, ctx.file.class);
    }
}

/// Making a value resident in a register of the pool keeps the invariant
/// and every slot, and the value is then in that register.
pub proof fn lemma_install(ctx: Ctx, vreg: u32, preg: u32, point: ProgPoint)
    requires
        ctx.wf(),
        ctx.file.pool.contains(preg),
    ensures
        ctx.install(vreg, preg, point).wf(),
        extends(ctx, ctx.install(vreg, preg, point)),
        value_of(ctx.install(vreg, preg, point).file.entries, vreg) == Some(preg),
{
    lemma_spill(ctx, evicted_by(ctx.file.entries, vreg, preg), point);
    lemma_bind(ctx.file.entries, ctx.file.pool, vreg, preg);
}

/// A use under `Any` or `Reg` that succeeds leaves a sound state and
/// finds a register of the pool, or, for `Any` alone, the value's slot.
pub proof fn lemma_use_in_reg(ctx: Ctx, vreg: u32, point: ProgPoint, or_stack: bool)
    requires
        ctx.wf(),
    ensures
        ctx.use_in_reg(vreg, point, or_stack) matches Ok((after, alloc)) ==> {
            &&& after.wf()
            &&& extends(ctx, after)
            &&& match alloc {
                Allocation::Reg(preg) => preg.class == ctx.file.class && ctx.file.pool.contains(
                    preg.hw_enc,
                ),
                Allocation::Stack(offset) => or_stack && slot_of(after.slots, vreg) == Some(offset),
            }
        },
{
    match value_of(ctx.file.entries, vreg) {
        Some(preg) => {
            lemma_touch(ctx.file.entries, ctx.file.pool, vreg);
            lemma_resident_in_pool(ctx.file, vreg);
        },
        None => {
            if slot_of(ctx.slots, vreg) is Some {
                lemma_select(ctx.file);
                if let Some(preg) = ctx.file.select() {
                    lemma_install(ctx, vreg, preg, point);
                }
            }
        },
    }
}

/// A definition under `Any` or `Reg` that succeeds leaves a sound state
/// and finds a register of the pool, or, for `Any` alone, the value's slot.
pub proof fn lemma_def_in_reg(ctx: Ctx, vreg: u32, point: ProgPoint, or_stack: bool)
    requires
        ctx.wf(),
    ensures
        ctx.def_in_reg(vreg, point, or_stack) matches Ok((after, alloc)) ==> {
            &&& after.wf()
            &&& extends(ctx, after)
            &&& match alloc {
                Allocation::Reg(preg) => preg.class == ctx.file.class && ctx.file.pool.contains(
                    preg.hw_enc,
                ),
                Allocation::Stack(offset) => or_stack && slot_of(after.slots, vreg) == Some(offset),
            }
        },
{
    match value_of(ctx.file.entries, vreg) {
        Some(preg) => {
            lemma_touch(ctx.file.entries, ctx.file.pool, vreg);
            lemma_resident_in_pool(ctx.file, vreg);
        },
        None => {
            lemma_select(ctx.file);
            match ctx.file.select() {
                Some(preg) => {
                    lemma_install(ctx, vreg, preg, point);
                },
                None => {
                    lemma_with_slot(ctx.slots, vreg, ctx.file.class);
                },
            }
        },
    }
}

/// A use under `Stack` leaves a sound state and finds the value's slot.
pub proof fn lemma_use_stack(ctx: Ctx, vreg: u32, point: ProgPoint)
    requires
        ctx.wf(),
    ensures
        ctx.use_stack(vreg, point) matches Ok((after, alloc)) && {
            &&& after.wf()
            &&& extends(ctx, after)
            &&& alloc matches Allocation::Stack(offset) && slot_of(after.slots, vreg) == Some(
                offset,
            )
        },
{
    lemma_with_slot(ctx.slots, vreg, ctx.file.class);
    lemma_without_key(ctx.file.entries, ctx.file.pool, vreg);
}

/// A definition under `Stack` leaves a sound state and finds the value's
/// slot.
pub proof fn lemma_def_stack(ctx: Ctx, vreg: u32)
    requires
        ctx.wf(),
    ensures
        ctx.def_stack(vreg) matches Ok((after, alloc)) && {
            &&& after.wf()
            &&& extends(ctx, after)
            &&& alloc matches Allocation::Stack(offset) && slot_of(after.slots, vreg) == Some(
                offset,
            )
        },
{
    lemma_with_slot(ctx.slots, vreg, ctx.file.class);
}

/// A use under `FixedReg` that succeeds leaves a sound state and finds
/// the register asked for.
pub proof fn lemma_use_fixed(ctx: Ctx, vreg: u32, preg: PReg, point: ProgPoint)
    requires
        ctx.wf(),
    ensures
        ctx.use_fixed(vreg, preg, point) matches Ok((after, alloc)) ==> {
            &&& after.wf()
            &&& extends(ctx, after)
            &&& alloc == Allocation::Reg(preg)
            &&& ctx.owns(preg)
        },
{
    if ctx.owns(preg) {
        lemma_install(ctx, vreg, preg.hw_enc, point);
    }
}

/// A definition under `FixedReg` that succeeds leaves a sound state and
/// finds the register asked for.
pub proof fn lemma_def_fixed(ctx: Ctx, vreg: u32, preg: PReg, point: ProgPoint)
    requires
        ctx.wf(),
    ensures
        ctx.def_fixed(vreg, preg, point) matches Ok((after, alloc)) ==> {
            &&& after.wf()
            &&& extends(ctx, after)
            &&& alloc == Allocation::Reg(preg)
            &&& ctx.owns(preg)
        },
{
    if ctx.owns(preg) {
        lemma_install(ctx, vreg, preg.hw_enc, point);
    }
}

/// A definition under `Reuse` that succeeds leaves a sound state, with
/// the slots and edits as they were, and finds the register of its source.
pub proof fn lemma_def_reuse(ctx: Ctx, vreg: u32, source: Option<Allocation>)
    requires
        ctx.wf(),
    ensures
        ctx.def_reuse(vreg, source) matches Ok((after, alloc)) ==> {
            &&& after.wf()
            &&& extends(ctx, after)
            &&& after.slots == ctx.slots
            &&& after.edits == ctx.edits
            &&& source == Some(alloc)
            &&& alloc matches Allocation::Reg(preg) && ctx.owns(preg)
        },
{
    if let Some(Allocation::Reg(preg)) = source {
        if ctx.owns(preg) {
            lemma_bind(ctx.file.entries, ctx.file.pool, vreg, preg.hw_enc);
        }
    }
}

/// Resolving a use keeps the invariant, the pools and pins, and every slot
/// and edit made before; the location found meets the constraint.
pub proof fn lemma_use_op(ctx: Ctx, op: Operand, point: ProgPoint)
    requires
        ctx.wf(),
        ctx.file.class == op.vreg.class,
    ensures
        ctx.use_op(op, point) matches Ok((after, alloc)) ==> {
            &&& after.wf()
            &&& extends(ctx, after)
            &&& meets(op, alloc, after, None)
        },
{
    match op.constraint {
        OperandConstraint::Any => lemma_use_in_reg(ctx, op.vreg.id, point, true),
        OperandConstraint::Reg => lemma_use_in_reg(ctx, op.vreg.id, point, false),
        OperandConstraint::Stack => lemma_use_stack(ctx, op.vreg.id, point),
        OperandConstraint::FixedReg(preg) => lemma_use_fixed(ctx, op.vreg.id, preg, point),
        OperandConstraint::Reuse(_) => {},
    }
}

/// Resolving a definition keeps the invariant, the pools and pins, and
/// every slot and edit made before; the location found meets the
/// constraint.
pub proof fn lemma_def_op(ctx: Ctx, op: Operand, point: ProgPoint, source: Option<Allocation>)
    requires
        ctx.wf(),
        ctx.file.class == op.vreg.class,
    ensures
        ctx.def_op(op, point, source) matches Ok((after, alloc)) ==> {
            &&& after.wf()
            &&& extends(ctx, after)
            &&& meets(op, alloc, after, source)
        },
{
    match op.constraint {
        OperandConstraint::Any => lemma_def_in_reg(ctx, op.vreg.id, point, true),
        OperandConstraint::Reg => lemma_def_in_reg(ctx, op.vreg.id, point, false),
        OperandConstraint::Stack => lemma_def_stack(ctx, op.vreg.id),
        OperandConstraint::FixedReg(preg) => lemma_def_fixed(ctx, op.vreg.id, preg, point),
        OperandConstraint::Reuse(_) => lemma_def_reuse(ctx, op.vreg.id, source),
    }
}

/// `after` is a state that the run reaches from `before`: the invariant
/// holds of it, the pools are the same, and every slot and edit of
/// `before` is still at its place.
#[verifier::opaque]
pub open spec fn follows(before: AllocState, after: AllocState) -> bool {
    &&& after.wf()
    &&& after.int.pool == before.int.pool
    &&& after.float.pool == before.float.pool
    &&& after.vector.pool == before.vector.pool
    &&& before.slots.is_prefix_of(after.slots)
    &&& before.edits.is_prefix_of(after.edits)
}

/// The location `alloc` meets the constraint of `op` in the state `state`;
/// `source` is the location of the operand that a `Reuse` names.
#[verifier::opaque]
pub open spec fn satisfied(state: AllocState, op: Operand, alloc: Allocation, source: Option<Allocation>) -> bool {
    meets(op, alloc, state.ctx(op.vreg.class), source)
}

/// What `follows` says, spelled out.
pub proof fn lemma_follows(before: AllocState, after: AllocState)
    requires
        follows(before, after),
    ensures
        after.wf(),
        after.int.pool == before.int.pool,
        after.float.pool == before.float.pool,
        after.vector.pool == before.vector.pool,
        before.slots.is_prefix_of(after.slots),
        before.edits.is_prefix_of(after.edits),
{
    reveal(follows);
}

/// A state follows itself.
pub proof fn lemma_follows_self(state: AllocState)
    requires
        state.wf(),
    ensures
        follows(state, state),
{
    reveal(follows);
    assert(state.slots =~= state.slots.subrange(0, state.slots.len() as int));
    assert(state.edits =~= state.edits.subrange(0, state.edits.len() as int));
}

/// What follows a follower follows.
pub proof fn lemma_follows_chain(a: AllocState, b: AllocState, c: AllocState)
    requires
        follows(a, b),
        follows(b, c),
    ensures
        follows(a, c),
{
    reveal(follows);
    assert(a.slots =~= c.slots.subrange(0, a.slots.len() as int)) by {
        assert forall|i: int| 0 <= i < a.slots.len() implies a.slots[i] == c.slots[i] by {
            assert(a.slots[i] == b.slots.subrange(0, a.slots.len() as int)[i]);
            assert(b.slots[i] == c.slots.subrange(0, b.slots.len() as int)[i]);
        }
    }
    assert(a.edits =~= c.edits.subrange(0, a.edits.len() as int)) by {
        assert forall|i: int| 0 <= i < a.edits.len() implies a.edits[i] == c.edits[i] by {
            assert(a.edits[i] == b.edits.subrange(0, a.edits.len() as int)[i]);
            assert(b.edits[i] == c.edits.subrange(0, b.edits.len() as int)[i]);
        }
    }
}

/// A location that meets its constraint keeps meeting it as the run goes
/// on.
pub proof fn lemma_satisfied_later(
    before: AllocState,
    after: AllocState,
    op: Operand,
    alloc: Allocation,
    source: Option<Allocation>,
)
    requires
        follows(before, after),
        satisfied(before, op, alloc, source),
    ensures
        satisfied(after, op, alloc, source),
{
    reveal(follows);
    reveal(satisfied);
    if slot_of(before.slots, op.vreg.id) is Some {
        lemma_prefix_keeps_slots(before.slots, after.slots, op.vreg.id);
    }
}

/// Resolving a use against the whole state: the state that it leaves
/// follows, the output is untouched, and the location meets the
/// constraint.
pub proof fn lemma_state_use_op(state: AllocState, op: Operand, point: ProgPoint)
    requires
        state.wf(),
    ensures
        state.use_op(op, point) matches Ok((after, alloc)) ==> {
            &&& follows(state, after)
            &&& after.allocs == state.allocs
            &&& after.offsets == state.offsets
            &&& satisfied(after, op, alloc, None)
        },
{
    reveal(follows);
    reveal(satisfied);
    reveal(AllocState::use_op);
    lemma_use_op(state.ctx(op.vreg.class), op, point);
}

/// Resolving a definition against the whole state: the state that it
/// leaves follows, the output is untouched, and the location meets the
/// constraint.
pub proof fn lemma_state_def_op(state: AllocState, op: Operand, point: ProgPoint, source: Option<Allocation>)
    requires
        state.wf(),
    ensures
        state.def_op(op, point, source) matches Ok((after, alloc)) ==> {
            &&& follows(state, after)
            &&& after.allocs == state.allocs
            &&& after.offsets == state.offsets
            &&& satisfied(after, op, alloc, source)
        },
{
    reveal(follows);
    reveal(satisfied);
    reveal(AllocState::def_op);
    lemma_def_op(state.ctx(op.vreg.class), op, point, source);
}

/// The two states track the same: the same values are resident in the
/// same registers, and the slots and the edits are the same.
pub open spec fn same_tracking(a: AllocState, b: AllocState) -> bool {
    &&& a.int.entries == b.int.entries
    &&& a.float.entries == b.float.entries
    &&& a.vector.entries == b.vector.entries
    &&& a.int.class == b.int.class
    &&& a.float.class == b.float.class
    &&& a.vector.class == b.vector.class
    &&& a.slots == b.slots
    &&& a.edits == b.edits
}

/// Telling the trackers which instruction is at hand changes nothing
/// else.
pub proof fn lemma_begin(state: AllocState, inst: int)
    requires
        state.wf(),
    ensures
        follows(state, state.begin(inst)),
        state.begin(inst).allocs == state.allocs,
        state.begin(inst).offsets == state.offsets,
        state.begin(inst).slots == state.slots,
        state.begin(inst).edits == state.edits,
        same_tracking(state, state.begin(inst)),
{
    reveal(follows);
    assert(state.slots =~= state.slots.subrange(0, state.slots.len() as int));
    assert(state.edits =~= state.edits.subrange(0, state.edits.len() as int));
}

/// Pinning the fixed registers changes nothing but the pins.
pub proof fn lemma_pin_fixed(state: AllocState, ops: Seq<Operand>)
    requires
        state.wf(),
    ensures
        follows(state, state.pin_fixed(ops)),
        state.pin_fixed(ops).allocs == state.allocs,
        state.pin_fixed(ops).offsets == state.offsets,
        state.pin_fixed(ops).slots == state.slots,
        state.pin_fixed(ops).edits == state.edits,
        same_tracking(state, state.pin_fixed(ops)),
    decreases ops.len(),
{
    reveal(follows);
    if ops.len() > 0 {
        lemma_pin_fixed(state, ops.drop_last());
    }
}

/// Pinning the register of a reused operand changes nothing but the pins.
pub proof fn lemma_pin_source(state: AllocState, ops: Seq<Operand>, i: int, alloc: Allocation)
    requires
        state.wf(),
    ensures
        follows(state, state.pin_source(ops, i, alloc)),
        state.pin_source(ops, i, alloc).allocs == state.allocs,
        state.pin_source(ops, i, alloc).offsets == state.offsets,
        same_tracking(state, state.pin_source(ops, i, alloc)),
{
    reveal(follows);
    assert(state.slots =~= state.slots.subrange(0, state.slots.len() as int));
    assert(state.edits =~= state.edits.subrange(0, state.edits.len() as int));
}

/// Passing the uses of an instruction changes nothing but who is resident
/// and how many uses are left.
pub proof fn lemma_retire_uses(state: AllocState, ops: Seq<Operand>, i: int)
    requires
        state.wf(),
        0 <= i <= ops.len(),
    ensures
        follows(state, state.retire_uses(ops, i)),
        state.retire_uses(ops, i).allocs == state.allocs,
        state.retire_uses(ops, i).offsets == state.offsets,
        state.retire_uses(ops, i).slots == state.slots,
        state.retire_uses(ops, i).edits == state.edits,
    decreases ops.len() - i,
{
    reveal(follows);
    if i < ops.len() {
        if ops[i].kind == OperandKind::Use {
            let vreg = ops[i].vreg;
            let next = state.retire_use(vreg);
            lemma_without_key(state.file(vreg.class).entries, state.file(vreg.class).pool, vreg.id);
            lemma_retire_uses(next, ops, i + 1);
            lemma_follows_chain(state, next, next.retire_uses(ops, i + 1));
        } else {
            lemma_retire_uses(state, ops, i + 1);
        }
    }
}

/// The pass over the uses: the state that it leaves follows, the output
/// is untouched, every use from `i` on has a location that meets its
/// constraint, and the other locations are as they were.
pub proof fn lemma_uses_from(
    state: AllocState,
    ops: Seq<Operand>,
    point: ProgPoint,
    allocs: Seq<Option<Allocation>>,
    i: int,
)
    requires
        state.wf(),
        0 <= i <= ops.len(),
        allocs.len() == ops.len(),
    ensures
        state.uses_from(ops, point, allocs, i) matches Ok((after, out)) ==> {
            &&& follows(state, after)
            &&& after.allocs == state.allocs
            &&& after.offsets == state.offsets
            &&& out.len() == ops.len()
            &&& forall|j: int|
                0 <= j < ops.len() ==> if i <= j && ops[j].kind == OperandKind::Use {
                    (#[trigger] out[j]) matches Some(alloc) && satisfied(after, ops[j], alloc, None)
                } else {
                    out[j] == allocs[j]
                }
        },
    decreases ops.len() - i,
{
    lemma_follows_self(state);
    if i < ops.len() {
        if ops[i].kind == OperandKind::Use {
            lemma_state_use_op(state, ops[i], point);
            if let Ok((next, alloc)) = state.use_op(ops[i], point) {
                let pinned = next.pin_source(ops, i, alloc);
                let noted = allocs.update(i, Some(alloc));
                lemma_follows(state, next);
                lemma_pin_source(next, ops, i, alloc);
                lemma_follows_chain(state, next, pinned);
                lemma_satisfied_later(next, pinned, ops[i], alloc, None);
                lemma_follows(next, pinned);
                lemma_uses_from(pinned, ops, point, noted, i + 1);
                if let Ok((after, out)) = pinned.uses_from(ops, point, noted, i + 1) {
                    lemma_follows_chain(state, pinned, after);
                    lemma_satisfied_later(pinned, after, ops[i], alloc, None);
                    assert(out[i] == noted[i]);
                }
            }
        } else {
            lemma_uses_from(state, ops, point, allocs, i + 1);
        }
    }
}

/// Every `Reuse` among `ops` names a use of the same instruction.
pub open spec fn reuses_name_uses(ops: Seq<Operand>) -> bool {
    forall|d: int|
        0 <= d < ops.len() ==> ((#[trigger] ops[d]).constraint matches OperandConstraint::Reuse(
            source,
        ) ==> ops[d].kind == OperandKind::Def && source < ops.len() && ops[source as int].kind
            == OperandKind::Use)
}

/// The pass over the definitions: the state that it leaves follows, the
/// output is untouched, every definition from `i` on has a location that
/// meets its constraint, and the other locations are as they were.
pub proof fn lemma_defs_from(
    state: AllocState,
    ops: Seq<Operand>,
    point: ProgPoint,
    allocs: Seq<Option<Allocation>>,
    i: int,
)
    requires
        state.wf(),
        0 <= i <= ops.len(),
        allocs.len() == ops.len(),
        reuses_name_uses(ops),
    ensures
        state.defs_from(ops, point, allocs, i) matches Ok((after, out)) ==> {
            &&& follows(state, after)
            &&& after.allocs == state.allocs
            &&& after.offsets == state.offsets
            &&& out.len() == ops.len()
            &&& forall|j: int|
                0 <= j < ops.len() ==> if i <= j && ops[j].kind == OperandKind::Def {
                    (#[trigger] out[j]) matches Some(alloc) && satisfied(
                        after,
                        ops[j],
                        alloc,
                        reuse_source(ops[j], out),
                    )
                } else {
                    out[j] == allocs[j]
                }
        },
    decreases ops.len() - i,
{
    lemma_follows_self(state);
    if i < ops.len() {
        if ops[i].kind == OperandKind::Def {
            let source = reuse_source(ops[i], allocs);
            lemma_state_def_op(state, ops[i], point, source);
            if let Ok((next, alloc)) = state.def_op(ops[i], point, source) {
                let noted = allocs.update(i, Some(alloc));
                lemma_follows(state, next);
                lemma_defs_from(next, ops, point, noted, i + 1);
                if let Ok((after, out)) = next.defs_from(ops, point, noted, i + 1) {
                    lemma_follows_chain(state, next, after);
                    lemma_satisfied_later(next, after, ops[i], alloc, source);
                    assert(out[i] == noted[i]);
                    if let OperandConstraint::Reuse(named) = ops[i].constraint {
                        assert(out[named as int] == noted[named as int]);
                    }
                }
            }
        } else {
            lemma_defs_from(state, ops, point, allocs, i + 1);
        }
    }
}

/// If an operand has a fault, some operand is the first to have one.
proof fn lemma_first_fault_exists(ops: Seq<Operand>, k: int)
    requires
        0 <= k < ops.len(),
        operand_fault(ops, k) is Some,
    ensures
        exists|first: int| is_first_fault(ops, first),
    decreases k,
{
    if exists|j: int| 0 <= j < k && operand_fault(ops, j) is Some {
        let j = choose|j: int| 0 <= j < k && operand_fault(ops, j) is Some;
        lemma_first_fault_exists(ops, j);
    } else {
        assert(is_first_fault(ops, k));
    }
}

/// Operands that pass the check have no fault: no two of them fix one
/// register for different values, and every `Reuse` is a definition that
/// names a use of its own class.
pub proof fn lemma_no_fault(ops: Seq<Operand>)
    requires
        first_fault(ops) is None,
    ensures
        forall|k: int| 0 <= k < ops.len() ==> operand_fault(ops, k) is None,
        reuses_name_uses(ops),
{
    assert forall|k: int| 0 <= k < ops.len() implies operand_fault(ops, k) is None by {
        if operand_fault(ops, k) is Some {
            lemma_first_fault_exists(ops, k);
        }
    }
    assert forall|d: int| 0 <= d < ops.len() implies ((#[trigger] ops[d]).constraint matches OperandConstraint::Reuse(
        source,
    ) ==> ops[d].kind == OperandKind::Def && source < ops.len() && ops[source as int].kind
        == OperandKind::Use) by {
        assert(operand_fault(ops, d) is None);
    }
}

/// The resolution of an instruction: the state that it leaves follows, the
/// output is untouched so far, and every operand has a location that meets
/// its constraint.
pub proof fn lemma_resolve_inst(state: AllocState, ops: Seq<Operand>, inst: int)
    requires
        state.wf(),
    ensures
        state.resolve_inst(ops, inst) matches Ok((after, out)) ==> {
            &&& follows(state, after)
            &&& after.allocs == state.allocs
            &&& after.offsets == state.offsets
            &&& out.len() == ops.len()
            &&& reuses_name_uses(ops)
            &&& forall|j: int|
                0 <= j < ops.len() ==> ((#[trigger] out[j]) matches Some(alloc) && satisfied(
                    after,
                    ops[j],
                    alloc,
                    reuse_source(ops[j], out),
                ))
            &&& state.begin(inst).pin_fixed(ops).uses_from(
                ops,
                before(inst),
                Seq::new(ops.len(), |i: int| None),
                0,
            ) matches Ok((_, found)) && forall|j: int|
                0 <= j < ops.len() && ops[j].kind == OperandKind::Use ==> #[trigger] found[j]
                    == out[j]
        },
{
    reveal(AllocState::resolve_inst);
    if let Ok((after, out)) = state.resolve_inst(ops, inst) {
        lemma_no_fault(ops);
        let begun = state.begin(inst);
        lemma_begin(state, inst);
        lemma_follows(state, begun);
        let pinned = begun.pin_fixed(ops);
        lemma_pin_fixed(begun, ops);
        lemma_follows_chain(state, begun, pinned);
        let none = Seq::new(ops.len(), |i: int| None::<Allocation>);
        lemma_follows(state, pinned);
        lemma_uses_from(pinned, ops, before(inst), none, 0);
        let (used, found) = pinned.uses_from(ops, before(inst), none, 0).unwrap();
        let retired = used.retire_uses(ops, 0);
        lemma_follows(pinned, used);
        lemma_retire_uses(used, ops, 0);
        lemma_follows(used, retired);
        lemma_defs_from(retired, ops, before(inst), found, 0);
        lemma_follows_chain(state, pinned, used);
        lemma_follows_chain(state, used, retired);
        lemma_follows_chain(state, retired, after);
        lemma_follows_chain(used, retired, after);
        lemma_follows(state, after);
        assert forall|j: int| 0 <= j < ops.len() implies ((#[trigger] out[j]) matches Some(alloc)
            && satisfied(after, ops[j], alloc, reuse_source(ops[j], out))) by {
            if ops[j].kind == OperandKind::Use {
                assert(out[j] == found[j]);
                let alloc = found[j].unwrap();
                lemma_satisfied_later(used, after, ops[j], alloc, None);
                assert(!(ops[j].constraint is Reuse));
            }
        }
    }
}

/// Releasing the pins and adding locations to the output leaves
/// everything else as it is.
pub proof fn lemma_finish_inst(after: AllocState, inst: int, allocs: Seq<Allocation>)
    requires
        after.wf(),
    ensures
        ({
            let done = after.release_pins().record(inst, allocs);
            &&& follows(after, done)
            &&& done.offsets.len() == after.offsets.len()
            &&& done.allocs == after.allocs + allocs
            &&& same_tracking(after, done)
            &&& done.slots == after.slots
            &&& done.int.pool == after.int.pool
            &&& done.float.pool == after.float.pool
            &&& done.vector.pool == after.vector.pool
            &&& 0 <= inst < after.offsets.len() ==> done.offsets[inst] == after.allocs.len() as usize
            &&& forall|i: int|
                0 <= i < after.offsets.len() && i != inst ==> #[trigger] done.offsets[i]
                    == after.offsets[i]
        }),
{
    reveal(follows);
    assert(after.slots =~= after.slots.subrange(0, after.slots.len() as int));
    assert(after.edits =~= after.edits.subrange(0, after.edits.len() as int));
}

/// Processing an instruction: the state that it leaves follows, and the
/// locations of the operands are added to the output at the instruction's
/// offset.
pub proof fn lemma_process_inst(state: AllocState, ops: Seq<Operand>, inst: int)
    requires
        state.wf(),
    ensures
        state.process_inst(ops, inst) matches Ok(done) ==> {
            &&& follows(state, done)
            &&& done.offsets.len() == state.offsets.len()
            &&& state.resolve_inst(ops, inst) matches Ok((after, out)) && {
                &&& done.allocs == state.allocs + located(out)
                &&& done.slots == after.slots
                &&& done.int.pool == after.int.pool
                &&& done.float.pool == after.float.pool
                &&& done.vector.pool == after.vector.pool
                &&& 0 <= inst < state.offsets.len() ==> done.offsets[inst] == state.allocs.len() as usize
                &&& forall|i: int|
                    0 <= i < state.offsets.len() && i != inst ==> #[trigger] done.offsets[i]
                        == state.offsets[i]
            }
        },
{
    lemma_resolve_inst(state, ops, inst);
    match state.resolve_inst(ops, inst) {
        Ok((after, out)) => {
            lemma_follows(state, after);
            lemma_finish_inst(after, inst, located(out));
            lemma_follows_chain(state, after, after.release_pins().record(inst, located(out)));
        },
        Err(_) => {},
    }
}

/// Processing a range of instructions leaves a state that follows.
pub proof fn lemma_process_insts(state: AllocState, body: Seq<Seq<Operand>>, inst: int, end: int)
    requires
        state.wf(),
    ensures
        state.process_insts(body, inst, end) matches Ok(done) ==> follows(state, done),
    decreases end - inst,
{
    lemma_follows_self(state);
    if inst < end {
        lemma_process_inst(state, body[inst], inst);
        if let Ok(next) = state.process_inst(body[inst], inst) {
            lemma_follows(state, next);
            lemma_process_insts(next, body, inst + 1, end);
            if let Ok(done) = next.process_insts(body, inst + 1, end) {
                lemma_follows_chain(state, next, done);
            }
        }
    }
}

/// Processing the blocks from position `k` on leaves a state that
/// follows.
pub proof fn lemma_process_blocks(
    state: AllocState,
    body: Seq<Seq<Operand>>,
    order: Seq<usize>,
    entry: Seq<ProgPoint>,
    exit: Seq<ProgPoint>,
    k: int,
)
    requires
        state.wf(),
    ensures
        state.process_blocks(body, order, entry, exit, k) matches Ok(done) ==> follows(state, done),
    decreases order.len() - k,
{
    lemma_follows_self(state);
    if 0 <= k < order.len() {
        let first = entry[order[k] as int].inst as int;
        let end = exit[order[k] as int].inst as int;
        lemma_process_insts(state, body, first, end);
        if let Ok(next) = state.process_insts(body, first, end) {
            lemma_follows(state, next);
            lemma_process_blocks(next, body, order, entry, exit, k + 1);
            if let Ok(done) = next.process_blocks(body, order, entry, exit, k + 1) {
                lemma_follows_chain(state, next, done);
            }
        }
    }
}

/// Every operand of an instruction that has been processed has its
/// location in the output, at the instruction's offset plus the operand's
/// index, and that location meets the operand's constraint: a register of
/// the operand's class for `Reg`, such a register or the value's slot for
/// `Any`, the value's slot for `Stack`, the very register for `FixedReg`,
/// and for `Reuse` the location of the operand that it names.
pub proof fn law_locations_meet_constraints(state: AllocState, ops: Seq<Operand>, inst: int, j: int)
    requires
        state.wf(),
        0 <= inst < state.offsets.len(),
        state.allocs.len() <= usize::MAX,
        state.process_inst(ops, inst) is Ok,
        0 <= j < ops.len(),
    ensures
        located_well(state.process_inst(ops, inst).unwrap(), ops, inst, j),
        state.process_inst(ops, inst).unwrap().offsets[inst] + ops.len() == state.process_inst(
            ops,
            inst,
        ).unwrap().allocs.len(),
{
    reveal(satisfied);
    lemma_process_inst(state, ops, inst);
    lemma_resolve_inst(state, ops, inst);
    let (after, out) = state.resolve_inst(ops, inst).unwrap();
    assert(out[j] is Some);
    if let OperandConstraint::Reuse(source) = ops[j].constraint {
        assert(ops[j].constraint is Reuse);
        assert(out[source as int] is Some);
    }
}

/// Processing a range of instructions adds to the output behind what is
/// there, and leaves the offsets of the instructions outside the range as
/// they are.
pub proof fn lemma_process_insts_output(state: AllocState, body: Seq<Seq<Operand>>, inst: int, end: int)
    requires
        state.wf(),
    ensures
        state.process_insts(body, inst, end) matches Ok(done) ==> {
            &&& state.allocs.is_prefix_of(done.allocs)
            &&& done.offsets.len() == state.offsets.len()
            &&& forall|i: int|
                0 <= i < state.offsets.len() && !(inst <= i < end) ==> #[trigger] done.offsets[i]
                    == state.offsets[i]
        },
    decreases end - inst,
{
    if inst < end {
        lemma_process_inst(state, body[inst], inst);
        if let Ok(next) = state.process_inst(body[inst], inst) {
            lemma_follows(state, next);
            lemma_process_insts_output(next, body, inst + 1, end);
            if let Ok(done) = next.process_insts(body, inst + 1, end) {
                assert(state.allocs =~= done.allocs.subrange(0, state.allocs.len() as int)) by {
                    assert forall|i: int| 0 <= i < state.allocs.len() implies state.allocs[i]
                        == done.allocs[i] by {
                        assert(next.allocs[i] == done.allocs.subrange(
                            0,
                            next.allocs.len() as int,
                        )[i]);
                    }
                }
            }
        }
    } else {
        assert(state.allocs =~= state.allocs.subrange(0, state.allocs.len() as int));
    }
}

/// Operand `j` of instruction `inst`, whose operands are `ops`, has its
/// location in the output of `state`, at the instruction's offset plus
/// `j`, and that location meets the operand's constraint.
pub open spec fn located_well(state: AllocState, ops: Seq<Operand>, inst: int, j: int) -> bool {
    let base = state.offsets[inst] as int;
    &&& base + ops.len() <= state.allocs.len()
    &&& ops[j].constraint matches OperandConstraint::Reuse(source) ==> source < ops.len()
    &&& meets(
        ops[j],
        state.allocs[base + j],
        state.ctx(ops[j].vreg.class),
        match ops[j].constraint {
            OperandConstraint::Reuse(source) => Some(state.allocs[base + source]),
            _ => None,
        },
    )
}

/// A location that is in the output and meets its constraint stays there
/// and keeps meeting it while the run goes on to other instructions.
pub proof fn lemma_located_well_later(
    state: AllocState,
    done: AllocState,
    ops: Seq<Operand>,
    inst: int,
    j: int,
)
    requires
        located_well(state, ops, inst, j),
        0 <= j < ops.len(),
        0 <= inst < state.offsets.len(),
        follows(state, done),
        state.allocs.is_prefix_of(done.allocs),
        done.offsets.len() == state.offsets.len(),
        done.offsets[inst] == state.offsets[inst],
    ensures
        located_well(done, ops, inst, j),
{
    let base = state.offsets[inst] as int;
    let source = match ops[j].constraint {
        OperandConstraint::Reuse(source) => Some(state.allocs[base + source]),
        _ => None,
    };
    assert(satisfied(state, ops[j], state.allocs[base + j], source)) by {
        reveal(satisfied);
    }
    lemma_satisfied_later(state, done, ops[j], state.allocs[base + j], source);
    reveal(satisfied);
    assert(state.allocs[base + j] == done.allocs.subrange(0, state.allocs.len() as int)[base + j]);
    if let OperandConstraint::Reuse(named) = ops[j].constraint {
        assert(state.allocs[base + named] == done.allocs.subrange(
            0,
            state.allocs.len() as int,
        )[base + named]);
    }
}

/// Every operand of every instruction of a range that has been processed
/// has its location in the output, at the instruction's offset plus the
/// operand's index, and that location meets the operand's constraint.
pub proof fn law_range_locations_meet_constraints(
    state: AllocState,
    body: Seq<Seq<Operand>>,
    inst: int,
    end: int,
    k: int,
    j: int,
)
    requires
        state.wf(),
        0 <= inst <= k < end <= state.offsets.len(),
        state.process_insts(body, inst, end) is Ok,
        state.process_insts(body, inst, end).unwrap().allocs.len() <= usize::MAX,
        0 <= j < body[k].len(),
    ensures
        located_well(state.process_insts(body, inst, end).unwrap(), body[k], k, j),
    decreases end - inst,
{
    let done = state.process_insts(body, inst, end).unwrap();
    lemma_process_inst(state, body[inst], inst);
    let next = state.process_inst(body[inst], inst).unwrap();
    lemma_follows(state, next);
    lemma_process_insts_output(next, body, inst + 1, end);
    lemma_process_insts(next, body, inst + 1, end);
    if inst == k {
        law_locations_meet_constraints(state, body[k], k, j);
        lemma_located_well_later(next, done, body[k], k, j);
    } else {
        law_range_locations_meet_constraints(next, body, inst + 1, end, k, j);
    }
}

/// No instruction belongs to two blocks of the walk.
pub open spec fn blocks_apart(order: Seq<usize>, entry: Seq<ProgPoint>, exit: Seq<ProgPoint>) -> bool {
    forall|a: int, b: int|
        0 <= a < b < order.len() ==> exit[#[trigger] order[a] as int].inst <= entry[#[trigger] order[b] as int].inst
            || exit[order[b] as int].inst <= entry[order[a] as int].inst
}

/// Processing blocks adds to the output behind what is there, and leaves
/// the offsets of the instructions outside those blocks as they are.
pub proof fn lemma_process_blocks_output(
    state: AllocState,
    body: Seq<Seq<Operand>>,
    order: Seq<usize>,
    entry: Seq<ProgPoint>,
    exit: Seq<ProgPoint>,
    k: int,
)
    requires
        state.wf(),
        0 <= k,
    ensures
        state.process_blocks(body, order, entry, exit, k) matches Ok(done) ==> {
            &&& state.allocs.is_prefix_of(done.allocs)
            &&& done.offsets.len() == state.offsets.len()
            &&& forall|i: int|
                0 <= i < state.offsets.len() && (forall|b: int|
                    k <= b < order.len() ==> !(entry[#[trigger] order[b] as int].inst <= i
                        < exit[order[b] as int].inst)) ==> #[trigger] done.offsets[i]
                    == state.offsets[i]
        },
    decreases order.len() - k,
{
    if k < order.len() {
        let first = entry[order[k] as int].inst as int;
        let end = exit[order[k] as int].inst as int;
        lemma_process_insts(state, body, first, end);
        lemma_process_insts_output(state, body, first, end);
        if let Ok(next) = state.process_insts(body, first, end) {
            lemma_follows(state, next);
            lemma_process_blocks_output(next, body, order, entry, exit, k + 1);
            if let Ok(done) = next.process_blocks(body, order, entry, exit, k + 1) {
                assert(state.allocs =~= done.allocs.subrange(0, state.allocs.len() as int)) by {
                    assert forall|i: int| 0 <= i < state.allocs.len() implies state.allocs[i]
                        == done.allocs[i] by {
                        assert(next.allocs[i] == done.allocs.subrange(
                            0,
                            next.allocs.len() as int,
                        )[i]);
                    }
                }
                assert forall|i: int|
                    0 <= i < state.offsets.len() && (forall|b: int|
                        k <= b < order.len() ==> !(entry[#[trigger] order[b] as int].inst <= i
                            < exit[order[b] as int].inst)) implies #[trigger] done.offsets[i]
                    == state.offsets[i] by {
                    assert(!(entry[order[k] as int].inst <= i < exit[order[k] as int].inst));
                    assert(next.offsets[i] == state.offsets[i]);
                }
            }
        }
    } else {
        assert(state.allocs =~= state.allocs.subrange(0, state.allocs.len() as int));
    }
}

/// Every operand of every instruction of the blocks from position `k` on
/// has its location in the output and the location meets the operand's
/// constraint, if no instruction belongs to two of those blocks.
pub proof fn lemma_blocks_locations(
    state: AllocState,
    body: Seq<Seq<Operand>>,
    order: Seq<usize>,
    entry: Seq<ProgPoint>,
    exit: Seq<ProgPoint>,
    k: int,
    b: int,
    inst: int,
    j: int,
)
    requires
        state.wf(),
        cfg_ok(order, entry, exit, state.offsets.len()),
        blocks_apart(order, entry, exit),
        0 <= k <= b < order.len(),
        entry[order[b] as int].inst <= inst < exit[order[b] as int].inst,
        0 <= j < body[inst].len(),
        state.process_blocks(body, order, entry, exit, k) is Ok,
        state.process_blocks(body, order, entry, exit, k).unwrap().allocs.len() <= usize::MAX,
    ensures
        located_well(state.process_blocks(body, order, entry, exit, k).unwrap(), body[inst], inst, j),
    decreases order.len() - k,
{
    let done = state.process_blocks(body, order, entry, exit, k).unwrap();
    let first = entry[order[k] as int].inst as int;
    let end = exit[order[k] as int].inst as int;
    lemma_process_insts(state, body, first, end);
    lemma_process_insts_output(state, body, first, end);
    let next = state.process_insts(body, first, end).unwrap();
    lemma_follows(state, next);
    lemma_process_blocks(next, body, order, entry, exit, k + 1);
    lemma_process_blocks_output(next, body, order, entry, exit, k + 1);
    if k == b {
        law_range_locations_meet_constraints(state, body, first, end, inst, j);
        assert forall|later: int| k + 1 <= later < order.len() implies !(entry[#[trigger] order[later] as int].inst
            <= inst < exit[order[later] as int].inst) by {
            assert(exit[order[k] as int].inst <= entry[order[later] as int].inst
                || exit[order[later] as int].inst <= entry[order[k] as int].inst);
        }
        lemma_located_well_later(next, done, body[inst], inst, j);
    } else {
        lemma_blocks_locations(next, body, order, entry, exit, k + 1, b, inst, j);
    }
}

/// In the output of a run over blocks that share no instruction, every
/// operand of every instruction of those blocks has its location at the
/// instruction's offset plus the operand's index, and the location meets
/// the operand's constraint: a register of the operand's class for `Reg`,
/// such a register or the value's slot for `Any`, the value's slot for
/// `Stack`, the very register for `FixedReg`, and for `Reuse` the location
/// of the operand that it names.
pub proof fn law_run_locations_meet_constraints(
    func: FuncBody,
    cfginfo: CFGInfo,
    mach_env: MachineEnv,
    b: int,
    inst: int,
    j: int,
)
    requires
        allocate(func, cfginfo, mach_env) is Ok,
        allocate(func, cfginfo, mach_env).unwrap().allocs.len() <= usize::MAX,
        blocks_apart(cfginfo.postorder@, cfginfo.block_entry@, cfginfo.block_exit@),
        0 <= b < cfginfo.postorder@.len(),
        cfginfo.block_entry@[cfginfo.postorder@[b] as int].inst <= inst
            < cfginfo.block_exit@[cfginfo.postorder@[b] as int].inst,
        0 <= j < func.operands()[inst].len(),
    ensures
        located_well(allocate(func, cfginfo, mach_env).unwrap(), func.operands()[inst], inst, j),
{
    let start = initial_state(
        mach_env.int_regs@,
        mach_env.float_regs@,
        mach_env.vector_regs@,
        func.insts@.len(),
        count_blocks(
            Map::empty(),
            func.operands(),
            cfginfo.postorder@,
            cfginfo.block_entry@,
            cfginfo.block_exit@,
            0,
        ),
    );
    lemma_blocks_locations(
        start,
        func.operands(),
        cfginfo.postorder@,
        cfginfo.block_entry@,
        cfginfo.block_exit@,
        0,
        b,
        inst,
        j,
    );
}

/// The residency invariant is kept: after every instruction, in each
/// class, no virtual register is resident in two physical registers, no
/// physical register holds two virtual registers, and every register in
/// use belongs to the pool.
pub proof fn law_residency_invariant_kept(state: AllocState, ops: Seq<Operand>, inst: int)
    requires
        state.wf(),
        state.process_inst(ops, inst) is Ok,
    ensures
        state.process_inst(ops, inst).unwrap().wf(),
{
    lemma_process_inst(state, ops, inst);
    lemma_follows(state, state.process_inst(ops, inst).unwrap());
}

/// The residency invariant holds of the state in which a run ends.
pub proof fn law_run_ends_well_formed(func: FuncBody, cfginfo: CFGInfo, mach_env: MachineEnv)
    requires
        allocate(func, cfginfo, mach_env) is Ok,
    ensures
        allocate(func, cfginfo, mach_env).unwrap().wf(),
{
    let start = initial_state(
        mach_env.int_regs@,
        mach_env.float_regs@,
        mach_env.vector_regs@,
        func.insts@.len(),
        count_blocks(
            Map::empty(),
            func.operands(),
            cfginfo.postorder@,
            cfginfo.block_entry@,
            cfginfo.block_exit@,
            0,
        ),
    );
    lemma_process_blocks(
        start,
        func.operands(),
        cfginfo.postorder@,
        cfginfo.block_entry@,
        cfginfo.block_exit@,
        0,
    );
    lemma_follows(start, allocate(func, cfginfo, mach_env).unwrap());
}

/// The value to evict is the least recently used one whose register is
/// not pinned; under a tie, the one with the lowest virtual register. The
/// pair that is evicted stands in the tracker and its register is not
/// pinned. Some pair, the oldest, has no pair before it in the order of
/// use whose register is not pinned. The evicted pair was last used at
/// the same instruction as the oldest, and among all such pairs whose
/// register is not pinned it has the lowest virtual register.
pub proof fn law_victim_is_least_recently_used(file: FileState)
    requires
        file.victim() is Some,
    ensures
        exists|k: int, i: int|
            {
                &&& 0 <= k < file.entries.len()
                &&& #[trigger] file.entries[k] == file.victim().unwrap()
                &&& !file.pinned.contains(file.entries[k].1)
                &&& 0 <= i < file.entries.len()
                &&& !file.pinned.contains((#[trigger] file.entries[i]).1)
                &&& forall|j: int| 0 <= j < i ==> file.pinned.contains((#[trigger] file.entries[j]).1)
                &&& file.stamp_of(file.entries[k].0) == file.stamp_of(file.entries[i].0)
                &&& forall|j: int|
                    0 <= j < file.entries.len() && !file.pinned.contains(file.entries[j].1)
                        && file.stamp_of(file.entries[j].0) == file.stamp_of(file.entries[i].0)
                        ==> file.entries[k].0 <= (#[trigger] file.entries[j]).0
            },
{
    let k = choose|k: int| file.is_victim(k);
    let i = choose|i: int|
        {
            &&& file.is_oldest(i)
            &&& file.tied(i, k)
            &&& forall|j: int|
                file.evictable(j) && file.tied(i, j) ==> file.entries[k].0 <= (
                #[trigger] file.entries[j]).0
        };
    assert(file.entries[k] == file.victim().unwrap());
    assert(file.evictable(i));
    assert forall|j: int|
        0 <= j < file.entries.len() && !file.pinned.contains(file.entries[j].1) && file.stamp_of(
            file.entries[j].0,
        ) == file.stamp_of(file.entries[i].0) implies file.entries[k].0 <= (
    #[trigger] file.entries[j]).0 by {
        assert(file.evictable(j) && file.tied(i, j));
    }
}

/// Without a tie the eviction is strictly least recently used: if no
/// other pair whose register is not pinned was last used at the same
/// instruction as the oldest such pair, the oldest is the one to evict.
pub proof fn law_victim_without_tie(file: FileState, i: int)
    requires
        distinct_keys(file.entries),
        file.is_oldest(i),
        forall|j: int| file.evictable(j) && j != i ==> !file.tied(i, j),
    ensures
        file.victim() == Some(file.entries[i]),
{
    assert(file.is_victim(i));
    lemma_victim_unique(file, i, choose|k: int| file.is_victim(k));
}

/// A value that needs a register evicts no one while a register is free,
/// and otherwise evicts exactly the pair that the tracker chose.
pub proof fn law_eviction_takes_least_recently_used(file: FileState, vreg: u32)
    requires
        file.wf(),
        !has_key(file.entries, vreg),
        file.select() is Some,
    ensures
        file.first_free() is Some ==> evicted_by(file.entries, vreg, file.select().unwrap()) is None,
        file.first_free() is None ==> evicted_by(file.entries, vreg, file.select().unwrap())
            == file.victim(),
{
    let preg = file.select().unwrap();
    if file.first_free() is Some {
        let i = choose|i: int| file.is_first_free(i);
        assert(file.available(file.pool[i]));
    } else {
        let k = choose|k: int| file.is_victim(k);
        lemma_value_unique(file.entries, k);
        lemma_key_unique(file.entries, k);
    }
}

/// The number of slots of class `Int` in a table.
pub open spec fn int_slots(table: Seq<SpillSlotData>) -> nat
    decreases table.len(),
{
    if table.len() == 0 {
        0
    } else {
        int_slots(table.drop_last()) + if table.last().class == RegClass::Int {
            1nat
        } else {
            0nat
        }
    }
}

/// A frame is four bytes for each `Int` slot and eight for each other.
pub proof fn lemma_frame_size_by_class(table: Seq<SpillSlotData>)
    ensures
        int_slots(table) <= table.len(),
        frame_size(table) == 4 * int_slots(table) + 8 * (table.len() - int_slots(table)),
    decreases table.len(),
{
    if table.len() > 0 {
        lemma_frame_size_by_class(table.drop_last());
    }
}

/// Stack slots are handed out at increasing offsets without overlap.
pub proof fn law_slot_offsets_increase(table: Seq<SpillSlotData>, i: int, j: int)
    requires
        slots_wf(table),
        0 <= i < j < table.len(),
    ensures
        table[i].offset + class_size(table[i].class) <= table[j].offset,
    decreases j - i,
{
    lemma_frame_size_bounds(table.take(j));
    lemma_frame_size_bounds(table.take(j - 1));
    assert(table.take(j).drop_last() == table.take(j - 1));
    assert(table.take(j).last() == table[j - 1]);
    assert(table[j].offset == frame_size(table.take(j)));
    assert(table[j - 1].offset == frame_size(table.take(j - 1)));
    if i < j - 1 {
        law_slot_offsets_increase(table, i, j - 1);
    }
}

/// Every slot starts at a multiple of four bytes. It starts at a multiple
/// of the size of its class exactly if its class is `Int` or an even
/// number of `Int` slots were handed out before it: slots are handed out
/// back to back, so an eight-byte slot behind an odd number of four-byte
/// slots starts at an odd multiple of four.
pub proof fn law_slot_alignment(table: Seq<SpillSlotData>, i: int)
    requires
        slots_wf(table),
        0 <= i < table.len(),
    ensures
        table[i].offset % 4 == 0,
        table[i].offset as int % class_size(table[i].class) as int == 0 <==> (table[i].class
            == RegClass::Int || int_slots(table.take(i)) % 2 == 0),
{
    lemma_frame_size_by_class(table.take(i));
    lemma_frame_size_bounds(table.take(i));
    assert(table[i].offset == frame_size(table.take(i)));
}

/// A virtual register that has a slot keeps it, at the same offset, through
/// every instruction that is processed.
pub proof fn law_slot_is_kept(state: AllocState, ops: Seq<Operand>, inst: int, vreg: u32)
    requires
        state.wf(),
        state.process_inst(ops, inst) is Ok,
        has_slot(state.slots, vreg),
    ensures
        slot_of(state.process_inst(ops, inst).unwrap().slots, vreg) == slot_of(state.slots, vreg),
        state.slots.is_prefix_of(state.process_inst(ops, inst).unwrap().slots),
{
    lemma_process_inst(state, ops, inst);
    let done = state.process_inst(ops, inst).unwrap();
    lemma_follows(state, done);
    lemma_prefix_keeps_slots(state.slots, done.slots, vreg);
}

/// A virtual register that has a slot at some state of the run has the
/// same slot when the run ends.
pub proof fn law_slot_is_kept_to_the_end(
    state: AllocState,
    body: Seq<Seq<Operand>>,
    order: Seq<usize>,
    entry: Seq<ProgPoint>,
    exit: Seq<ProgPoint>,
    k: int,
    vreg: u32,
)
    requires
        state.wf(),
        state.process_blocks(body, order, entry, exit, k) is Ok,
        has_slot(state.slots, vreg),
    ensures
        slot_of(state.process_blocks(body, order, entry, exit, k).unwrap().slots, vreg) == slot_of(
            state.slots,
            vreg,
        ),
{
    lemma_process_blocks(state, body, order, entry, exit, k);
    let done = state.process_blocks(body, order, entry, exit, k).unwrap();
    lemma_follows(state, done);
    lemma_prefix_keeps_slots(state.slots, done.slots, vreg);
}

/// Resolving all uses of an instruction before its definitions lets every
/// `Reuse` see the final location of its source: the source is a use in a
/// register, the pass over the definitions leaves the location of every
/// use as the pass over the uses found it, and the definition gets exactly
/// that location.
pub proof fn law_reuse_sees_final_use_location(state: AllocState, ops: Seq<Operand>, inst: int, d: int)
    requires
        state.wf(),
        state.resolve_inst(ops, inst) is Ok,
        0 <= d < ops.len(),
        ops[d].constraint is Reuse,
    ensures
        ({
            let source = ops[d].constraint->Reuse_0 as int;
            let used = state.begin(inst).pin_fixed(ops).uses_from(
                ops,
                before(inst),
                Seq::new(ops.len(), |i: int| None),
                0,
            );
            let out = state.resolve_inst(ops, inst).unwrap().1;
            &&& ops[d].kind == OperandKind::Def
            &&& 0 <= source < ops.len()
            &&& ops[source].kind == OperandKind::Use
            &&& used matches Ok((_, found)) && {
                &&& forall|j: int|
                    0 <= j < ops.len() && ops[j].kind == OperandKind::Use ==> #[trigger] out[j]
                        == found[j]
                &&& out[d] == found[source]
                &&& found[source] matches Some(Allocation::Reg(_))
            }
        }),
{
    reveal(AllocState::resolve_inst);
    lemma_resolve_inst(state, ops, inst);
    let (after, out) = state.resolve_inst(ops, inst).unwrap();
    let source = ops[d].constraint->Reuse_0 as int;
    assert(ops[d].constraint matches OperandConstraint::Reuse(named) && named == source);
    assert(out[d] is Some);
    assert(satisfied(after, ops[d], out[d].unwrap(), reuse_source(ops[d], out)));
    reveal(satisfied);
    let found = state.begin(inst).pin_fixed(ops).uses_from(
        ops,
        before(inst),
        Seq::new(ops.len(), |i: int| None),
        0,
    ).unwrap().1;
    assert(found[source] == out[source]);
}

} // verus!
