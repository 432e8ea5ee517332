//! The edits as a repair: what the locations of a machine hold when the
//! edits of one resolution are replayed on it.

use crate::laws::law_slot_offsets_increase;
use crate::laws::lemma_def_op;
use crate::laws::lemma_select;
use crate::laws::lemma_spill;
use crate::laws::lemma_use_op;
use crate::lru::has_key;
use crate::lru::key_index;
use crate::lru::value_of;
use crate::model::Allocation;
use crate::model::Edit;
use crate::model::Operand;
use crate::model::OperandConstraint;
use crate::model::OperandKind;
use crate::model::PReg;
use crate::model::ProgPoint;
use crate::model::RegClass;
use crate::model::SpillSlotData;
use crate::residency::bind;
use crate::residency::evicted_by;
use crate::residency::FileState;
use crate::residency::holder_of;
use crate::residency::lemma_bind;
use crate::residency::lemma_touch;
use crate::residency::lemma_value_unique;
use crate::residency::lemma_without_key;
use crate::resolve::Ctx;
use crate::spill::has_slot;
use crate::spill::lemma_slot_unique;
use crate::spill::lemma_with_slot;
use crate::spill::slot_index;
use crate::spill::slot_of;
use crate::spill::slots_wf;
use crate::state::AllocState;
use crate::state::uses_of;
use vstd::prelude::*;

verus! {

/// What the locations of a machine hold: for each location that holds the
/// value of a virtual register, the number of that register.
pub type Machine = Map<Allocation, u32>;

/// The location `at` holds the value of `vreg`.
pub open spec fn holds(machine: Machine, at: Allocation, vreg: u32) -> bool {
    machine.contains_key(at) && machine[at] == vreg
}

/// The machine after one edit: the destination holds what the source held.
pub open spec fn apply_edit(machine: Machine, edit: Edit) -> Machine {
    match edit {
        Edit::Move { from, to } => if machine.contains_key(from) {
            machine.insert(to, machine[from])
        } else {
            machine.remove(to)
        },
    }
}

/// The machine after the edits, in their order.
pub open spec fn replay(machine: Machine, edits: Seq<(ProgPoint, Edit)>) -> Machine
    decreases edits.len(),
{
    if edits.len() == 0 {
        machine
    } else {
        apply_edit(replay(machine, edits.drop_last()), edits.last().1)
    }
}

/// The edits that `after` holds behind those of `before`.
pub open spec fn added(before: Seq<(ProgPoint, Edit)>, after: Seq<(ProgPoint, Edit)>) -> Seq<
    (ProgPoint, Edit),
> {
    after.skip(before.len() as int)
}

/// Every resident value is in the register that the tracker says.
pub open spec fn residents_hold(file: FileState, machine: Machine) -> bool {
    forall|vreg: u32|
        (#[trigger] value_of(file.entries, vreg)) matches Some(preg) ==> holds(
            machine,
            Allocation::Reg(PReg { hw_enc: preg, class: file.class }),
            vreg,
        )
}

/// Every slot holds the value of its virtual register.
pub open spec fn slots_hold(slots: Seq<SpillSlotData>, machine: Machine) -> bool {
    forall|i: int|
        0 <= i < slots.len() ==> holds(
            machine,
            Allocation::Stack((#[trigger] slots[i]).offset),
            slots[i].vreg,
        )
}

/// The machine is as the state says: the resident values are in their
/// registers and the slots hold their values.
pub open spec fn in_keeping(ctx: Ctx, machine: Machine) -> bool {
    residents_hold(ctx.file, machine) && slots_hold(ctx.slots, machine)
}

/// The two machines agree on what the location `at` holds.
pub open spec fn agree_at(a: Machine, b: Machine, at: Allocation) -> bool {
    a.contains_key(at) == b.contains_key(at) && a[at] == b[at]
}

/// The two machines agree on every register.
pub open spec fn same_registers(a: Machine, b: Machine) -> bool {
    forall|at: Allocation| at is Reg ==> #[trigger] agree_at(a, b, at)
}

/// Replaying no edit changes nothing.
pub proof fn lemma_replay_none(machine: Machine, before: Seq<(ProgPoint, Edit)>)
    ensures
        replay(machine, added(before, before)) == machine,
{
    assert(added(before, before).len() == 0);
}

/// In a well-formed table, different slots start at different offsets.
pub proof fn lemma_offsets_differ(slots: Seq<SpillSlotData>, i: int, j: int)
    requires
        slots_wf(slots),
        0 <= i < slots.len(),
        0 <= j < slots.len(),
        i != j,
    ensures
        slots[i].offset != slots[j].offset,
{
    if i < j {
        law_slot_offsets_increase(slots, i, j);
    } else {
        law_slot_offsets_increase(slots, j, i);
    }
}

/// Replaying one more added edit applies it last.
pub proof fn lemma_replay_push(
    machine: Machine,
    before: Seq<(ProgPoint, Edit)>,
    middle: Seq<(ProgPoint, Edit)>,
    last: (ProgPoint, Edit),
)
    requires
        before.len() <= middle.len(),
    ensures
        replay(machine, added(before, middle.push(last))) == apply_edit(
            replay(machine, added(before, middle)),
            last.1,
        ),
{
    let edits = added(before, middle.push(last));
    assert(edits.drop_last() =~= added(before, middle));
    assert(edits.last() == last);
}

/// A resident value is the holder of its register.
pub proof fn lemma_resident_holds_register(file: FileState, vreg: u32)
    requires
        file.wf(),
    ensures
        value_of(file.entries, vreg) matches Some(preg) ==> holder_of(file.entries, preg) == Some(
            vreg,
        ),
{
    if has_key(file.entries, vreg) {
        let i = key_index(file.entries, vreg);
        lemma_value_unique(file.entries, i);
    }
}

/// Replaying the edits of a spill fills the slot of the evicted value and
/// touches nothing else.
pub proof fn lemma_spill_repair(ctx: Ctx, evicted: Option<(u32, u32)>, point: ProgPoint, machine: Machine)
    requires
        ctx.wf(),
        slots_hold(ctx.slots, machine),
        evicted matches Some(pair) ==> holds(machine, ctx.reg(pair.1), pair.0),
    ensures
        ({
            let after = ctx.spill(evicted, point);
            let then = replay(machine, added(ctx.edits, after.edits));
            &&& slots_hold(after.slots, then)
            &&& same_registers(machine, then)
            &&& ctx.edits.len() <= after.edits.len()
        }),
{
    let after = ctx.spill(evicted, point);
    lemma_replay_none(machine, ctx.edits);
    if let Some(pair) = evicted {
        if !has_slot(ctx.slots, pair.0) {
            let offset = ctx.slot_offset(pair.0);
            let store = (point, Edit::Move { from: ctx.reg(pair.1), to: Allocation::Stack(offset) });
            lemma_replay_push(machine, ctx.edits, ctx.edits, store);
            lemma_with_slot(ctx.slots, pair.0, ctx.file.class);
            let then = replay(machine, added(ctx.edits, after.edits));
            assert(then == machine.insert(Allocation::Stack(offset), pair.0));
            let n = ctx.slots.len() as int;
            assert forall|i: int| 0 <= i < after.slots.len() implies holds(
                then,
                Allocation::Stack((#[trigger] after.slots[i]).offset),
                after.slots[i].vreg,
            ) by {
                if i < n {
                    assert(after.slots[i] == ctx.slots[i]);
                    lemma_offsets_differ(after.slots, i, n);
                }
            }
            assert forall|at: Allocation| at is Reg implies #[trigger] agree_at(machine, then, at) by {}
        }
    }
}

/// Replaying the edits of an installation leaves every slot filled and
/// every register as it was; every other resident value is in a register
/// other than the one taken, where it was before.
pub proof fn lemma_install_repair(ctx: Ctx, vreg: u32, preg: u32, point: ProgPoint, machine: Machine)
    requires
        ctx.wf(),
        ctx.file.pool.contains(preg),
        in_keeping(ctx, machine),
    ensures
        ({
            let after = ctx.install(vreg, preg, point);
            let then = replay(machine, added(ctx.edits, after.edits));
            &&& after.wf()
            &&& ctx.slots.is_prefix_of(after.slots)
            &&& slots_hold(after.slots, then)
            &&& same_registers(machine, then)
            &&& ctx.edits.len() <= after.edits.len()
            &&& value_of(after.file.entries, vreg) == Some(preg)
            &&& forall|other: u32|
                other != vreg ==> ((#[trigger] value_of(after.file.entries, other)) matches Some(
                    held,
                ) ==> held != preg && value_of(ctx.file.entries, other) == Some(held))
        }),
{
    let evicted = evicted_by(ctx.file.entries, vreg, preg);
    let after = ctx.install(vreg, preg, point);
    lemma_bind(ctx.file.entries, ctx.file.pool, vreg, preg);
    lemma_spill(ctx, evicted, point);
    if let Some(pair) = evicted {
        assert(value_of(ctx.file.entries, pair.0) == Some(preg));
    }
    lemma_spill_repair(ctx, evicted, point, machine);
    assert forall|other: u32| other != vreg implies ((#[trigger] value_of(
        after.file.entries,
        other,
    )) matches Some(held) ==> held != preg && value_of(ctx.file.entries, other) == Some(held)) by {
        if let Some(held) = value_of(after.file.entries, other) {
            lemma_resident_holds_register(after.file, other);
            if let Some(pair) = evicted {
                assert(has_key(after.file.entries, other));
                assert(pair.0 != other);
            }
        }
    }
}

/// Once the value of `vreg` has come to register `preg`, where `after`
/// says it is resident, the machine is in keeping with `after`, provided
/// the other resident values are where `ctx` had them, in other registers.
pub proof fn lemma_arrival(
    ctx: Ctx,
    after: Ctx,
    vreg: u32,
    preg: u32,
    before: Machine,
    then: Machine,
)
    requires
        slots_hold(after.slots, before),
        then == before.insert(after.reg(preg), vreg),
        value_of(after.file.entries, vreg) == Some(preg),
        residents_hold(ctx.file, before),
        after.file.class == ctx.file.class,
        forall|other: u32|
            other != vreg ==> ((#[trigger] value_of(after.file.entries, other)) matches Some(
                held,
            ) ==> held != preg && value_of(ctx.file.entries, other) == Some(held)),
    ensures
        in_keeping(after, then),
        holds(then, after.reg(preg), vreg),
{
    assert forall|other: u32| (#[trigger] value_of(after.file.entries, other)) is Some implies holds(
        then,
        Allocation::Reg(
            PReg { hw_enc: value_of(after.file.entries, other).unwrap(), class: after.file.class },
        ),
        other,
    ) by {
        if other != vreg {
            let held = value_of(after.file.entries, other).unwrap();
            assert(value_of(ctx.file.entries, other) == Some(held));
        }
    }
}

/// The registers of every class but `class` hold in `b` what they hold
/// in `a`.
pub open spec fn other_classes_untouched(a: Machine, b: Machine, class: RegClass) -> bool {
    forall|at: Allocation|
        at is Reg && at->Reg_0.class != class ==> #[trigger] agree_at(a, b, at)
}

/// What a resolution has repaired: the machine `then`, which `machine`
/// has become, is in keeping with the state that the resolution leaves,
/// and the registers of the other classes are untouched.
pub open spec fn repaired(ctx: Ctx, after: Ctx, machine: Machine, then: Machine) -> bool {
    &&& in_keeping(after, then)
    &&& other_classes_untouched(machine, then, ctx.file.class)
}

/// After `vreg` has been bound to `preg`, every other resident value is in
/// a register other than `preg`, where it was before.
pub proof fn lemma_bind_others(file: FileState, vreg: u32, preg: u32)
    requires
        file.wf(),
        file.pool.contains(preg),
    ensures
        value_of(bind(file.entries, vreg, preg), vreg) == Some(preg),
        forall|other: u32|
            other != vreg ==> ((#[trigger] value_of(bind(file.entries, vreg, preg), other)) matches Some(
                held,
            ) ==> held != preg && value_of(file.entries, other) == Some(held)),
{
    let bound = file.with_entries(bind(file.entries, vreg, preg));
    let evicted = evicted_by(file.entries, vreg, preg);
    lemma_bind(file.entries, file.pool, vreg, preg);
    assert forall|other: u32| other != vreg implies ((#[trigger] value_of(bound.entries, other)) matches Some(
        held,
    ) ==> held != preg && value_of(file.entries, other) == Some(held)) by {
        if let Some(held) = value_of(bound.entries, other) {
            lemma_resident_holds_register(bound, other);
            if let Some(pair) = evicted {
                assert(has_key(bound.entries, other));
                assert(pair.0 != other);
            }
        }
    }
}

/// A machine that agrees with another on all registers keeps the resident
/// values in their registers.
pub proof fn lemma_residents_carry(file: FileState, machine: Machine, then: Machine)
    requires
        residents_hold(file, machine),
        same_registers(machine, then),
    ensures
        residents_hold(file, then),
{
    assert forall|vreg: u32| (#[trigger] value_of(file.entries, vreg)) is Some implies holds(
        then,
        Allocation::Reg(PReg { hw_enc: value_of(file.entries, vreg).unwrap(), class: file.class }),
        vreg,
    ) by {
        let at = Allocation::Reg(
            PReg { hw_enc: value_of(file.entries, vreg).unwrap(), class: file.class },
        );
        assert(agree_at(machine, then, at));
    }
}

/// A value that has a slot in a table has it in every table that extends
/// it, and a machine on which the longer table's slots hold has the value
/// there.
pub proof fn lemma_slot_holds(
    slots: Seq<SpillSlotData>,
    longer: Seq<SpillSlotData>,
    vreg: u32,
    machine: Machine,
)
    requires
        slots_wf(longer),
        slots.is_prefix_of(longer),
        slots_hold(longer, machine),
        has_slot(slots, vreg),
    ensures
        holds(machine, Allocation::Stack(slot_of(slots, vreg).unwrap()), vreg),
{
    let i = slot_index(slots, vreg);
    assert(longer[i] == slots[i]);
}

/// Writing the value of `vreg` into its slot, which `after` has just
/// handed out or found, keeps every slot filled.
pub proof fn lemma_slot_written(ctx: Ctx, vreg: u32, machine: Machine)
    requires
        ctx.wf(),
        slots_hold(ctx.slots, machine),
    ensures
        slots_hold(
            ctx.with_slot_for(vreg).slots,
            machine.insert(Allocation::Stack(ctx.slot_offset(vreg)), vreg),
        ),
        same_registers(machine, machine.insert(Allocation::Stack(ctx.slot_offset(vreg)), vreg)),
{
    let after = ctx.with_slot_for(vreg);
    let offset = ctx.slot_offset(vreg);
    let then = machine.insert(Allocation::Stack(offset), vreg);
    lemma_with_slot(ctx.slots, vreg, ctx.file.class);
    let k = slot_index(after.slots, vreg);
    lemma_slot_unique(after.slots, k);
    assert(after.slots[k].offset == offset);
    assert forall|i: int| 0 <= i < after.slots.len() implies holds(
        then,
        Allocation::Stack((#[trigger] after.slots[i]).offset),
        after.slots[i].vreg,
    ) by {
        if i != k {
            lemma_offsets_differ(after.slots, i, k);
            assert(i < ctx.slots.len());
            assert(after.slots[i] == ctx.slots[i]);
        }
    }
    assert forall|at: Allocation| at is Reg implies #[trigger] agree_at(machine, then, at) by {}
}

/// A tracker in which every resident value is where another tracker of
/// the same class has it keeps the resident values in their registers.
pub proof fn lemma_residents_subset(file: FileState, after: FileState, machine: Machine)
    requires
        residents_hold(file, machine),
        after.class == file.class,
        forall|vreg: u32|
            (#[trigger] value_of(after.entries, vreg)) is Some ==> value_of(file.entries, vreg)
                == value_of(after.entries, vreg),
    ensures
        residents_hold(after, machine),
{
    assert forall|vreg: u32| (#[trigger] value_of(after.entries, vreg)) is Some implies holds(
        machine,
        Allocation::Reg(PReg { hw_enc: value_of(after.entries, vreg).unwrap(), class: after.class }),
        vreg,
    ) by {
        assert(value_of(file.entries, vreg) == value_of(after.entries, vreg));
    }
}

/// A use under `Any` or `Reg` reads the value of its virtual register,
/// and the machine is in keeping with the state it leaves.
pub proof fn lemma_use_in_reg_repair(ctx: Ctx, vreg: u32, point: ProgPoint, or_stack: bool, machine: Machine)
    requires
        ctx.wf(),
        in_keeping(ctx, machine),
        ctx.use_in_reg(vreg, point, or_stack) is Ok,
    ensures
        ({
            let (after, alloc) = ctx.use_in_reg(vreg, point, or_stack).unwrap();
            let then = replay(machine, added(ctx.edits, after.edits));
            repaired(ctx, after, machine, then) && holds(then, alloc, vreg)
        }),
{
    let (after, alloc) = ctx.use_in_reg(vreg, point, or_stack).unwrap();
    lemma_replay_none(machine, ctx.edits);
    match value_of(ctx.file.entries, vreg) {
        Some(preg) => {
            lemma_touch(ctx.file.entries, ctx.file.pool, vreg);
            assert forall|at: Allocation| at is Reg implies #[trigger] agree_at(machine, machine, at) by {}
            lemma_residents_subset(ctx.file, after.file, machine);
        },
        None => {
            let offset = slot_of(ctx.slots, vreg).unwrap();
            match ctx.file.select() {
                Some(preg) => {
                    lemma_select(ctx.file);
                    let installed = ctx.install(vreg, preg, point);
                    let before = replay(machine, added(ctx.edits, installed.edits));
                    lemma_install_repair(ctx, vreg, preg, point, machine);
                    let load = (point, Edit::Move { from: Allocation::Stack(offset), to: ctx.reg(preg) });
                    lemma_replay_push(machine, ctx.edits, installed.edits, load);
                    lemma_slot_holds(ctx.slots, installed.slots, vreg, before);
                    let then = replay(machine, added(ctx.edits, after.edits));
                    assert(then == before.insert(ctx.reg(preg), vreg));
                    lemma_residents_carry(ctx.file, machine, before);
                    lemma_arrival(ctx, after, vreg, preg, before, then);
                    assert forall|at: Allocation|
                        at is Reg && at->Reg_0.class != ctx.file.class implies #[trigger] agree_at(
                        machine,
                        then,
                        at,
                    ) by {
                        assert(agree_at(machine, before, at));
                    }
                },
                None => {
                    lemma_slot_holds(ctx.slots, ctx.slots, vreg, machine);
                    assert forall|at: Allocation| at is Reg implies #[trigger] agree_at(
                        machine,
                        machine,
                        at,
                    ) by {}
                },
            }
        },
    }
}

/// A use under `Stack` of a value that is somewhere reads the value, and
/// the machine is in keeping with the state it leaves.
pub proof fn lemma_use_stack_repair(ctx: Ctx, vreg: u32, point: ProgPoint, machine: Machine)
    requires
        ctx.wf(),
        in_keeping(ctx, machine),
        value_of(ctx.file.entries, vreg) is Some || has_slot(ctx.slots, vreg),
    ensures
        ({
            let (after, alloc) = ctx.use_stack(vreg, point).unwrap();
            let then = replay(machine, added(ctx.edits, after.edits));
            repaired(ctx, after, machine, then) && holds(then, alloc, vreg)
        }),
{
    let (after, alloc) = ctx.use_stack(vreg, point).unwrap();
    let offset = ctx.slot_offset(vreg);
    lemma_with_slot(ctx.slots, vreg, ctx.file.class);
    match value_of(ctx.file.entries, vreg) {
        Some(preg) => {
            let store = (point, Edit::Move { from: ctx.reg(preg), to: Allocation::Stack(offset) });
            lemma_replay_none(machine, ctx.edits);
            lemma_replay_push(machine, ctx.edits, ctx.edits, store);
            let then = replay(machine, added(ctx.edits, after.edits));
            assert(then == machine.insert(Allocation::Stack(offset), vreg));
            lemma_slot_written(ctx, vreg, machine);
            lemma_without_key(ctx.file.entries, ctx.file.pool, vreg);
            lemma_residents_carry(ctx.file, machine, then);
            lemma_residents_subset(ctx.file, after.file, then);
        },
        None => {
            lemma_replay_none(machine, ctx.edits);
            lemma_slot_holds(ctx.slots, ctx.slots, vreg, machine);
            assert forall|at: Allocation| at is Reg implies #[trigger] agree_at(machine, machine, at) by {}
        },
    }
}

/// A use under `FixedReg` reads the value of its virtual register, and
/// the machine is in keeping with the state it leaves.
pub proof fn lemma_use_fixed_repair(ctx: Ctx, vreg: u32, preg: PReg, point: ProgPoint, machine: Machine)
    requires
        ctx.wf(),
        in_keeping(ctx, machine),
        ctx.use_fixed(vreg, preg, point) is Ok,
    ensures
        ({
            let (after, alloc) = ctx.use_fixed(vreg, preg, point).unwrap();
            let then = replay(machine, added(ctx.edits, after.edits));
            repaired(ctx, after, machine, then) && holds(then, alloc, vreg)
        }),
{
    let (after, alloc) = ctx.use_fixed(vreg, preg, point).unwrap();
    let installed = ctx.install(vreg, preg.hw_enc, point);
    let before = replay(machine, added(ctx.edits, installed.edits));
    lemma_install_repair(ctx, vreg, preg.hw_enc, point, machine);
    lemma_residents_carry(ctx.file, machine, before);
    assert(ctx.reg(preg.hw_enc) == Allocation::Reg(preg));
    let then = replay(machine, added(ctx.edits, after.edits));
    match value_of(ctx.file.entries, vreg) {
        Some(current) => {
            if current == preg.hw_enc {
                assert(then == before);
                assert(before.insert(ctx.reg(preg.hw_enc), vreg) =~= before);
            } else {
                let copy = (point, Edit::Move { from: ctx.reg(current), to: Allocation::Reg(preg) });
                lemma_replay_push(machine, ctx.edits, installed.edits, copy);
                assert(holds(before, ctx.reg(current), vreg));
            }
        },
        None => {
            let offset = slot_of(ctx.slots, vreg).unwrap();
            let load = (point, Edit::Move { from: Allocation::Stack(offset), to: Allocation::Reg(preg) });
            lemma_replay_push(machine, ctx.edits, installed.edits, load);
            lemma_slot_holds(ctx.slots, installed.slots, vreg, before);
        },
    }
    assert(then == before.insert(ctx.reg(preg.hw_enc), vreg));
    lemma_arrival(ctx, after, vreg, preg.hw_enc, before, then);
    assert forall|at: Allocation|
        at is Reg && at->Reg_0.class != ctx.file.class implies #[trigger] agree_at(
        machine,
        then,
        at,
    ) by {
        assert(agree_at(machine, before, at));
    }
}

/// The machine after the edits of a resolution and the write of the
/// defined value into its location.
pub open spec fn defined(ctx: Ctx, after: Ctx, alloc: Allocation, vreg: u32, machine: Machine) -> Machine {
    replay(machine, added(ctx.edits, after.edits)).insert(alloc, vreg)
}

/// After a definition under `Any` or `Reg` the machine is in keeping with
/// the state it leaves.
pub proof fn lemma_def_in_reg_repair(ctx: Ctx, vreg: u32, point: ProgPoint, or_stack: bool, machine: Machine)
    requires
        ctx.wf(),
        in_keeping(ctx, machine),
        ctx.def_in_reg(vreg, point, or_stack) is Ok,
    ensures
        ({
            let (after, alloc) = ctx.def_in_reg(vreg, point, or_stack).unwrap();
            repaired(ctx, after, machine, defined(ctx, after, alloc, vreg, machine))
        }),
{
    let (after, alloc) = ctx.def_in_reg(vreg, point, or_stack).unwrap();
    let then = defined(ctx, after, alloc, vreg, machine);
    lemma_replay_none(machine, ctx.edits);
    match value_of(ctx.file.entries, vreg) {
        Some(preg) => {
            lemma_touch(ctx.file.entries, ctx.file.pool, vreg);
            assert(then =~= machine);
            lemma_residents_subset(ctx.file, after.file, machine);
            assert forall|at: Allocation| at is Reg implies #[trigger] agree_at(machine, machine, at) by {}
        },
        None => {
            match ctx.file.select() {
                Some(preg) => {
                    lemma_select(ctx.file);
                    let before = replay(machine, added(ctx.edits, after.edits));
                    lemma_install_repair(ctx, vreg, preg, point, machine);
                    lemma_residents_carry(ctx.file, machine, before);
                    lemma_arrival(ctx, after, vreg, preg, before, then);
                    assert forall|at: Allocation|
                        at is Reg && at->Reg_0.class != ctx.file.class implies #[trigger] agree_at(
                        machine,
                        then,
                        at,
                    ) by {
                        assert(agree_at(machine, before, at));
                    }
                },
                None => {
                    lemma_slot_written(ctx, vreg, machine);
                    lemma_residents_carry(ctx.file, machine, then);
                },
            }
        },
    }
}

/// After a definition under `Stack` the machine is in keeping with the
/// state it leaves.
pub proof fn lemma_def_stack_repair(ctx: Ctx, vreg: u32, machine: Machine)
    requires
        ctx.wf(),
        in_keeping(ctx, machine),
    ensures
        ({
            let (after, alloc) = ctx.def_stack(vreg).unwrap();
            repaired(ctx, after, machine, defined(ctx, after, alloc, vreg, machine))
        }),
{
    let (after, alloc) = ctx.def_stack(vreg).unwrap();
    lemma_replay_none(machine, ctx.edits);
    lemma_slot_written(ctx, vreg, machine);
    lemma_residents_carry(ctx.file, machine, defined(ctx, after, alloc, vreg, machine));
}

/// After a definition under `FixedReg` the machine is in keeping with the
/// state it leaves.
pub proof fn lemma_def_fixed_repair(ctx: Ctx, vreg: u32, preg: PReg, point: ProgPoint, machine: Machine)
    requires
        ctx.wf(),
        in_keeping(ctx, machine),
        ctx.def_fixed(vreg, preg, point) is Ok,
    ensures
        ({
            let (after, alloc) = ctx.def_fixed(vreg, preg, point).unwrap();
            repaired(ctx, after, machine, defined(ctx, after, alloc, vreg, machine))
        }),
{
    let (after, alloc) = ctx.def_fixed(vreg, preg, point).unwrap();
    let then = defined(ctx, after, alloc, vreg, machine);
    let before = replay(machine, added(ctx.edits, after.edits));
    lemma_install_repair(ctx, vreg, preg.hw_enc, point, machine);
    lemma_residents_carry(ctx.file, machine, before);
    assert(ctx.reg(preg.hw_enc) == Allocation::Reg(preg));
    lemma_arrival(ctx, after, vreg, preg.hw_enc, before, then);
    assert forall|at: Allocation|
        at is Reg && at->Reg_0.class != ctx.file.class implies #[trigger] agree_at(
        machine,
        then,
        at,
    ) by {
        assert(agree_at(machine, before, at));
    }
}

/// After a definition under `Reuse` the machine is in keeping with the
/// state it leaves.
pub proof fn lemma_def_reuse_repair(ctx: Ctx, vreg: u32, source: Option<Allocation>, machine: Machine)
    requires
        ctx.wf(),
        in_keeping(ctx, machine),
        ctx.def_reuse(vreg, source) is Ok,
    ensures
        ({
            let (after, alloc) = ctx.def_reuse(vreg, source).unwrap();
            repaired(ctx, after, machine, defined(ctx, after, alloc, vreg, machine))
        }),
{
    let (after, alloc) = ctx.def_reuse(vreg, source).unwrap();
    let then = defined(ctx, after, alloc, vreg, machine);
    let preg = source.unwrap()->Reg_0;
    lemma_replay_none(machine, ctx.edits);
    lemma_bind_others(ctx.file, vreg, preg.hw_enc);
    assert(ctx.reg(preg.hw_enc) == Allocation::Reg(preg));
    lemma_arrival(ctx, after, vreg, preg.hw_enc, machine, then);
}

/// The edits of a use are a correct repair. If the machine is in keeping
/// with the state before a use is resolved, then with the new edits
/// replayed the location of the use holds the value of its virtual
/// register, the machine is in keeping with the state after, and no
/// register of another class has changed. A use under `Stack` of a value
/// that is in no register and in no slot is left out: the slot that it is
/// given has never been written.
pub proof fn law_use_reads_its_value(ctx: Ctx, op: Operand, point: ProgPoint, machine: Machine)
    requires
        ctx.wf(),
        in_keeping(ctx, machine),
        ctx.use_op(op, point) is Ok,
        op.constraint is Stack ==> value_of(ctx.file.entries, op.vreg.id) is Some || has_slot(
            ctx.slots,
            op.vreg.id,
        ),
    ensures
        ({
            let (after, alloc) = ctx.use_op(op, point).unwrap();
            let then = replay(machine, added(ctx.edits, after.edits));
            &&& holds(then, alloc, op.vreg.id)
            &&& in_keeping(after, then)
            &&& other_classes_untouched(machine, then, ctx.file.class)
        }),
{
    match op.constraint {
        OperandConstraint::Any => lemma_use_in_reg_repair(ctx, op.vreg.id, point, true, machine),
        OperandConstraint::Reg => lemma_use_in_reg_repair(ctx, op.vreg.id, point, false, machine),
        OperandConstraint::Stack => lemma_use_stack_repair(ctx, op.vreg.id, point, machine),
        OperandConstraint::FixedReg(preg) => lemma_use_fixed_repair(
            ctx,
            op.vreg.id,
            preg,
            point,
            machine,
        ),
        OperandConstraint::Reuse(_) => {},
    }
}

/// The edits of a definition are a correct repair. If the machine is in
/// keeping with the state before a definition is resolved, then with the
/// new edits replayed and the defined value written to its location, the
/// machine is in keeping with the state after: every value that is still
/// tracked is where the state says, and no register of another class has
/// changed.
pub proof fn law_def_keeps_values(
    ctx: Ctx,
    op: Operand,
    point: ProgPoint,
    source: Option<Allocation>,
    machine: Machine,
)
    requires
        ctx.wf(),
        in_keeping(ctx, machine),
        ctx.def_op(op, point, source) is Ok,
    ensures
        ({
            let (after, alloc) = ctx.def_op(op, point, source).unwrap();
            let then = replay(machine, added(ctx.edits, after.edits)).insert(alloc, op.vreg.id);
            &&& holds(then, alloc, op.vreg.id)
            &&& in_keeping(after, then)
            &&& other_classes_untouched(machine, then, ctx.file.class)
        }),
{
    match op.constraint {
        OperandConstraint::Any => lemma_def_in_reg_repair(ctx, op.vreg.id, point, true, machine),
        OperandConstraint::Reg => lemma_def_in_reg_repair(ctx, op.vreg.id, point, false, machine),
        OperandConstraint::Stack => lemma_def_stack_repair(ctx, op.vreg.id, machine),
        OperandConstraint::FixedReg(preg) => lemma_def_fixed_repair(
            ctx,
            op.vreg.id,
            preg,
            point,
            machine,
        ),
        OperandConstraint::Reuse(_) => lemma_def_reuse_repair(ctx, op.vreg.id, source, machine),
    }
}

/// The machine is as the whole state says: in each class the resident
/// values are in their registers, and the slots hold their values.
pub open spec fn state_in_keeping(state: AllocState, machine: Machine) -> bool {
    &&& residents_hold(state.int, machine)
    &&& residents_hold(state.float, machine)
    &&& residents_hold(state.vector, machine)
    &&& slots_hold(state.slots, machine)
}

/// A machine on which the registers of a class are untouched keeps the
/// resident values of that class in their registers.
pub proof fn lemma_class_untouched(file: FileState, machine: Machine, then: Machine, class: RegClass)
    requires
        residents_hold(file, machine),
        other_classes_untouched(machine, then, class),
        file.class != class,
    ensures
        residents_hold(file, then),
{
    assert forall|vreg: u32| (#[trigger] value_of(file.entries, vreg)) is Some implies holds(
        then,
        Allocation::Reg(PReg { hw_enc: value_of(file.entries, vreg).unwrap(), class: file.class }),
        vreg,
    ) by {
        let at = Allocation::Reg(
            PReg { hw_enc: value_of(file.entries, vreg).unwrap(), class: file.class },
        );
        assert(agree_at(machine, then, at));
    }
}

/// What a repair in one class means for the whole state.
proof fn lemma_state_repaired(
    state: AllocState,
    class: RegClass,
    after: Ctx,
    machine: Machine,
    then: Machine,
)
    requires
        state.wf(),
        state_in_keeping(state, machine),
        in_keeping(after, then),
        other_classes_untouched(machine, then, class),
        after.file.class == class,
    ensures
        state_in_keeping(state.with_ctx(class, after), then),
{
    if class != RegClass::Int {
        lemma_class_untouched(state.int, machine, then, class);
    }
    if class != RegClass::Float {
        lemma_class_untouched(state.float, machine, then, class);
    }
    if class != RegClass::Vector {
        lemma_class_untouched(state.vector, machine, then, class);
    }
}

/// The edits of a use are a correct repair of the whole machine. If the
/// machine is in keeping with the state of the run before a use is
/// resolved, then with the new edits replayed the location of the use
/// holds the value of its virtual register, and the machine is in keeping
/// with the state after. A use under `Stack` of a value that is in no
/// register and in no slot is left out: the slot that it is given has
/// never been written.
pub proof fn law_edits_repair_use(state: AllocState, op: Operand, point: ProgPoint, machine: Machine)
    requires
        state.wf(),
        state_in_keeping(state, machine),
        state.use_op(op, point) is Ok,
        op.constraint is Stack ==> value_of(state.file(op.vreg.class).entries, op.vreg.id) is Some
            || has_slot(state.slots, op.vreg.id),
    ensures
        ({
            let (after, alloc) = state.use_op(op, point).unwrap();
            let then = replay(machine, added(state.edits, after.edits));
            holds(then, alloc, op.vreg.id) && state_in_keeping(after, then)
        }),
{
    reveal(AllocState::use_op);
    let class = op.vreg.class;
    let ctx = state.ctx(class);
    law_use_reads_its_value(ctx, op, point, machine);
    lemma_use_op(ctx, op, point);
    let (after, alloc) = ctx.use_op(op, point).unwrap();
    lemma_state_repaired(
        state,
        class,
        after,
        machine,
        replay(machine, added(ctx.edits, after.edits)),
    );
}

/// The edits of a definition are a correct repair of the whole machine.
/// If the machine is in keeping with the state of the run before a
/// definition is resolved, then with the new edits replayed and the
/// defined value written to its location, the machine is in keeping with
/// the state after: no value that the state still tracks has been lost.
pub proof fn law_edits_repair_def(
    state: AllocState,
    op: Operand,
    point: ProgPoint,
    source: Option<Allocation>,
    machine: Machine,
)
    requires
        state.wf(),
        state_in_keeping(state, machine),
        state.def_op(op, point, source) is Ok,
    ensures
        ({
            let (after, alloc) = state.def_op(op, point, source).unwrap();
            let then = replay(machine, added(state.edits, after.edits)).insert(alloc, op.vreg.id);
            holds(then, alloc, op.vreg.id) && state_in_keeping(after, then)
        }),
{
    reveal(AllocState::def_op);
    let class = op.vreg.class;
    let ctx = state.ctx(class);
    law_def_keeps_values(ctx, op, point, source, machine);
    lemma_def_op(ctx, op, point, source);
    let (after, alloc) = ctx.def_op(op, point, source).unwrap();
    lemma_state_repaired(
        state,
        class,
        after,
        machine,
        replay(machine, added(ctx.edits, after.edits)).insert(alloc, op.vreg.id),
    );
}

/// A value that has no use left gives up its register without an edit,
/// and the machine stays in keeping with the state.
pub proof fn law_retiring_keeps_values(state: AllocState, ops: Seq<Operand>, i: int, machine: Machine)
    requires
        state.wf(),
        0 <= i <= ops.len(),
        state_in_keeping(state, machine),
    ensures
        state_in_keeping(state.retire_uses(ops, i), machine),
        state.retire_uses(ops, i).edits == state.edits,
        state.retire_uses(ops, i).wf(),
    decreases ops.len() - i,
{
    if i < ops.len() {
        if ops[i].kind == OperandKind::Use {
            let vreg = ops[i].vreg;
            let next = state.retire_use(vreg);
            let file = state.file(vreg.class);
            lemma_without_key(file.entries, file.pool, vreg.id);
            if uses_of(state.uses_left, vreg.id) <= 1 {
                lemma_residents_subset(file, next.file(vreg.class), machine);
            }
            law_retiring_keeps_values(next, ops, i + 1, machine);
        } else {
            law_retiring_keeps_values(state, ops, i + 1, machine);
        }
    }
}

} // verus!
