//! A whole run replayed: the machine is carried through the resolutions
//! in the order in which the run makes them, the edits of each resolution
//! are replayed when it is made, every use reads its location and every
//! definition writes its own.

use crate::laws::lemma_begin;
use crate::laws::lemma_defs_from;
use crate::laws::lemma_finish_inst;
use crate::laws::lemma_follows;
use crate::laws::lemma_no_fault;
use crate::laws::lemma_pin_fixed;
use crate::laws::lemma_pin_source;
use crate::laws::lemma_process_inst;
use crate::laws::lemma_process_insts;
use crate::laws::lemma_retire_uses;
use crate::laws::lemma_state_def_op;
use crate::laws::lemma_state_use_op;
use crate::laws::lemma_uses_from;
use crate::laws::same_tracking;
use crate::lru::value_of;
use crate::model::Allocation;
use crate::model::CFGInfo;
use crate::model::FuncBody;
use crate::model::MachineEnv;
use crate::model::Operand;
use crate::model::OperandKind;
use crate::model::ProgPoint;
use crate::repair::added;
use crate::repair::holds;
use crate::repair::law_edits_repair_def;
use crate::repair::law_edits_repair_use;
use crate::repair::law_retiring_keeps_values;
use crate::repair::Machine;
use crate::repair::replay;
use crate::repair::state_in_keeping;
use crate::spill::has_slot;
use crate::state::AllocState;
use crate::state::before;
use crate::state::count_blocks;
use crate::state::first_fault;
use crate::state::initial_state;
use crate::state::located;
use crate::state::reuse_source;
use vstd::prelude::*;

verus! {

/// What a replay has shown so far.
pub enum Replayed {
    /// Every use has read the value of its virtual register, and this is
    /// the machine now.
    Sound(Machine),
    /// A use under `Stack` came to a value that was in no register and in
    /// no slot: the slot it was given has never been written, and nothing
    /// is said of what follows.
    Blind,
    /// A use has read something else than the value of its virtual
    /// register.
    Corrupt,
}

/// A use of a value that is nowhere, under `Stack`: it is given a slot
/// that nothing has been written to.
pub open spec fn blind_use(state: AllocState, op: Operand) -> bool {
    &&& op.constraint is Stack
    &&& value_of(state.file(op.vreg.class).entries, op.vreg.id) is None
    &&& !has_slot(state.slots, op.vreg.id)
}

/// The replay of the pass over the uses from operand `i` on: the edits of
/// each use are replayed, then the use reads its location. The replay ends
/// where the run ends.
pub open spec fn replay_uses(
    state: AllocState,
    machine: Machine,
    ops: Seq<Operand>,
    point: ProgPoint,
    i: int,
) -> Replayed
    decreases ops.len() - i,
{
    if i < 0 || i >= ops.len() {
        Replayed::Sound(machine)
    } else if ops[i].kind == OperandKind::Use {
        if blind_use(state, ops[i]) {
            Replayed::Blind
        } else {
            match state.use_op(ops[i], point) {
                Ok((next, alloc)) => {
                    let then = replay(machine, added(state.edits, next.edits));
                    if holds(then, alloc, ops[i].vreg.id) {
                        replay_uses(next.pin_source(ops, i, alloc), then, ops, point, i + 1)
                    } else {
                        Replayed::Corrupt
                    }
                },
                Err(_) => Replayed::Sound(machine),
            }
        }
    } else {
        replay_uses(state, machine, ops, point, i + 1)
    }
}

/// The machine after the pass over the definitions from operand `i` on:
/// the edits of each definition are replayed, then the definition writes
/// its value to its location.
pub open spec fn replay_defs(
    state: AllocState,
    machine: Machine,
    ops: Seq<Operand>,
    point: ProgPoint,
    allocs: Seq<Option<Allocation>>,
    i: int,
) -> Machine
    decreases ops.len() - i,
{
    if i < 0 || i >= ops.len() {
        machine
    } else if ops[i].kind == OperandKind::Def {
        match state.def_op(ops[i], point, reuse_source(ops[i], allocs)) {
            Ok((next, alloc)) => replay_defs(
                next,
                replay(machine, added(state.edits, next.edits)).insert(alloc, ops[i].vreg.id),
                ops,
                point,
                allocs.update(i, Some(alloc)),
                i + 1,
            ),
            Err(_) => machine,
        }
    } else {
        replay_defs(state, machine, ops, point, allocs, i + 1)
    }
}

/// The replay of one instruction: its uses, then its definitions.
pub open spec fn replay_inst(state: AllocState, machine: Machine, ops: Seq<Operand>, inst: int) -> Replayed {
    let pinned = state.begin(inst).pin_fixed(ops);
    let none = Seq::new(ops.len(), |i: int| None::<Allocation>);
    if first_fault(ops) is Some {
        Replayed::Sound(machine)
    } else {
        match replay_uses(pinned, machine, ops, before(inst), 0) {
            Replayed::Sound(read) => match pinned.uses_from(ops, before(inst), none, 0) {
                Ok((used, found)) => Replayed::Sound(
                    replay_defs(used.retire_uses(ops, 0), read, ops, before(inst), found, 0),
                ),
                Err(_) => Replayed::Sound(read),
            },
            other => other,
        }
    }
}

/// The replay of the instructions from `inst` up to, not including,
/// `end`.
pub open spec fn replay_insts(
    state: AllocState,
    machine: Machine,
    body: Seq<Seq<Operand>>,
    inst: int,
    end: int,
) -> Replayed
    decreases end - inst,
{
    if inst >= end {
        Replayed::Sound(machine)
    } else {
        match replay_inst(state, machine, body[inst], inst) {
            Replayed::Sound(then) => match state.process_inst(body[inst], inst) {
                Ok(next) => replay_insts(next, then, body, inst + 1, end),
                Err(_) => Replayed::Sound(then),
            },
            other => other,
        }
    }
}

/// The replay of the blocks of `order` from position `k` on.
pub open spec fn replay_blocks(
    state: AllocState,
    machine: Machine,
    body: Seq<Seq<Operand>>,
    order: Seq<usize>,
    entry: Seq<ProgPoint>,
    exit: Seq<ProgPoint>,
    k: int,
) -> Replayed
    decreases order.len() - k,
{
    if k < 0 || k >= order.len() {
        Replayed::Sound(machine)
    } else {
        let first = entry[order[k] as int].inst as int;
        let end = exit[order[k] as int].inst as int;
        match replay_insts(state, machine, body, first, end) {
            Replayed::Sound(then) => match state.process_insts(body, first, end) {
                Ok(next) => replay_blocks(next, then, body, order, entry, exit, k + 1),
                Err(_) => Replayed::Sound(then),
            },
            other => other,
        }
    }
}

/// A machine that is in keeping with a state is in keeping with every
/// state that tracks the same.
pub proof fn lemma_same_tracking(a: AllocState, b: AllocState, machine: Machine)
    requires
        same_tracking(a, b),
        state_in_keeping(a, machine),
    ensures
        state_in_keeping(b, machine),
{
}

/// In the pass over the uses no use reads a wrong value, and the machine
/// stays in keeping with the state.
pub proof fn lemma_replay_uses(
    state: AllocState,
    machine: Machine,
    ops: Seq<Operand>,
    point: ProgPoint,
    allocs: Seq<Option<Allocation>>,
    i: int,
)
    requires
        state.wf(),
        state_in_keeping(state, machine),
        0 <= i <= ops.len(),
    ensures
        !(replay_uses(state, machine, ops, point, i) is Corrupt),
        replay_uses(state, machine, ops, point, i) matches Replayed::Sound(read) ==> (state.uses_from(
            ops,
            point,
            allocs,
            i,
        ) matches Ok((used, _)) ==> state_in_keeping(used, read)),
    decreases ops.len() - i,
{
    if i < ops.len() {
        if ops[i].kind == OperandKind::Use {
            if !blind_use(state, ops[i]) {
                if let Ok((next, alloc)) = state.use_op(ops[i], point) {
                    let then = replay(machine, added(state.edits, next.edits));
                    law_edits_repair_use(state, ops[i], point, machine);
                    lemma_state_use_op(state, ops[i], point);
                    lemma_follows(state, next);
                    let pinned = next.pin_source(ops, i, alloc);
                    lemma_pin_source(next, ops, i, alloc);
                    lemma_follows(next, pinned);
                    lemma_same_tracking(next, pinned, then);
                    lemma_replay_uses(pinned, then, ops, point, allocs.update(i, Some(alloc)), i + 1);
                }
            }
        } else {
            lemma_replay_uses(state, machine, ops, point, allocs, i + 1);
        }
    }
}

/// After the pass over the definitions the machine is in keeping with the
/// state.
pub proof fn lemma_replay_defs(
    state: AllocState,
    machine: Machine,
    ops: Seq<Operand>,
    point: ProgPoint,
    allocs: Seq<Option<Allocation>>,
    i: int,
)
    requires
        state.wf(),
        state_in_keeping(state, machine),
        0 <= i <= ops.len(),
    ensures
        state.defs_from(ops, point, allocs, i) matches Ok((done, _)) ==> state_in_keeping(
            done,
            replay_defs(state, machine, ops, point, allocs, i),
        ),
    decreases ops.len() - i,
{
    if i < ops.len() {
        if ops[i].kind == OperandKind::Def {
            let source = reuse_source(ops[i], allocs);
            if let Ok((next, alloc)) = state.def_op(ops[i], point, source) {
                let then = replay(machine, added(state.edits, next.edits)).insert(
                    alloc,
                    ops[i].vreg.id,
                );
                law_edits_repair_def(state, ops[i], point, source, machine);
                lemma_state_def_op(state, ops[i], point, source);
                lemma_follows(state, next);
                lemma_replay_defs(next, then, ops, point, allocs.update(i, Some(alloc)), i + 1);
            }
        } else {
            lemma_replay_defs(state, machine, ops, point, allocs, i + 1);
        }
    }
}

/// In one instruction no use reads a wrong value, and after it the machine
/// is in keeping with the state.
pub proof fn lemma_replay_inst(state: AllocState, machine: Machine, ops: Seq<Operand>, inst: int)
    requires
        state.wf(),
        state_in_keeping(state, machine),
    ensures
        !(replay_inst(state, machine, ops, inst) is Corrupt),
        replay_inst(state, machine, ops, inst) matches Replayed::Sound(then) ==> (state.process_inst(
            ops,
            inst,
        ) matches Ok(next) ==> state_in_keeping(next, then)),
{
    reveal(AllocState::resolve_inst);
    if first_fault(ops) is None {
        let begun = state.begin(inst);
        lemma_begin(state, inst);
        lemma_follows(state, begun);
        let pinned = begun.pin_fixed(ops);
        lemma_pin_fixed(begun, ops);
        lemma_follows(begun, pinned);
        lemma_same_tracking(state, begun, machine);
        lemma_same_tracking(begun, pinned, machine);
        let none = Seq::new(ops.len(), |i: int| None::<Allocation>);
        lemma_replay_uses(pinned, machine, ops, before(inst), none, 0);
        if let Replayed::Sound(read) = replay_uses(pinned, machine, ops, before(inst), 0) {
            if let Ok((used, found)) = pinned.uses_from(ops, before(inst), none, 0) {
                lemma_uses_from(pinned, ops, before(inst), none, 0);
                lemma_follows(pinned, used);
                let retired = used.retire_uses(ops, 0);
                lemma_retire_uses(used, ops, 0);
                law_retiring_keeps_values(used, ops, 0, read);
                lemma_replay_defs(retired, read, ops, before(inst), found, 0);
                if let Ok((after, out)) = retired.defs_from(ops, before(inst), found, 0) {
                    let then = replay_defs(retired, read, ops, before(inst), found, 0);
                    lemma_no_fault(ops);
                    lemma_follows(used, retired);
                    lemma_defs_from(retired, ops, before(inst), found, 0);
                    lemma_follows(retired, after);
                    lemma_finish_inst(after, inst, located(out));
                    lemma_same_tracking(after, after.release_pins().record(inst, located(out)), then);
                }
            }
        }
    }
}

/// In a range of instructions no use reads a wrong value, and after it the
/// machine is in keeping with the state.
pub proof fn lemma_replay_insts(
    state: AllocState,
    machine: Machine,
    body: Seq<Seq<Operand>>,
    inst: int,
    end: int,
)
    requires
        state.wf(),
        state_in_keeping(state, machine),
    ensures
        !(replay_insts(state, machine, body, inst, end) is Corrupt),
        replay_insts(state, machine, body, inst, end) matches Replayed::Sound(then) ==> (
        state.process_insts(body, inst, end) matches Ok(done) ==> state_in_keeping(done, then)),
    decreases end - inst,
{
    if inst < end {
        lemma_replay_inst(state, machine, body[inst], inst);
        if let Replayed::Sound(then) = replay_inst(state, machine, body[inst], inst) {
            if let Ok(next) = state.process_inst(body[inst], inst) {
                lemma_process_inst(state, body[inst], inst);
                lemma_follows(state, next);
                lemma_replay_insts(next, then, body, inst + 1, end);
            }
        }
    }
}

/// In the blocks from position `k` on no use reads a wrong value.
pub proof fn lemma_replay_blocks(
    state: AllocState,
    machine: Machine,
    body: Seq<Seq<Operand>>,
    order: Seq<usize>,
    entry: Seq<ProgPoint>,
    exit: Seq<ProgPoint>,
    k: int,
)
    requires
        state.wf(),
        state_in_keeping(state, machine),
    ensures
        !(replay_blocks(state, machine, body, order, entry, exit, k) is Corrupt),
    decreases order.len() - k,
{
    if 0 <= k < order.len() {
        let first = entry[order[k] as int].inst as int;
        let end = exit[order[k] as int].inst as int;
        lemma_replay_insts(state, machine, body, first, end);
        if let Replayed::Sound(then) = replay_insts(state, machine, body, first, end) {
            if let Ok(next) = state.process_insts(body, first, end) {
                lemma_process_insts(state, body, first, end);
                lemma_follows(state, next);
                lemma_replay_blocks(next, then, body, order, entry, exit, k + 1);
            }
        }
    }
}

/// The edits are a correct repair of the whole run. Carry any machine
/// through the run, in the order in which the run resolves the operands:
/// replay the edits of each resolution when it is made, let every use read
/// its location and every definition write its value to its own. Then no
/// use reads anything but the value of its virtual register, up to the
/// end of the run or to the first use under `Stack` of a value that is
/// in no register and in no slot.
pub proof fn law_run_reads_no_wrong_value(
    func: FuncBody,
    cfginfo: CFGInfo,
    mach_env: MachineEnv,
    machine: Machine,
)
    ensures
        !(replay_blocks(
            initial_state(
                mach_env.int_regs@,
                mach_env.float_regs@,
                mach_env.vector_regs@,
                func.insts@.len(),
                count_blocks(
                    Map::empty(),
                    func.operands(),
                    cfginfo.postorder@,
                    cfginfo.block_entry@,
                    cfginfo.block_exit@,
                    0,
                ),
            ),
            machine,
            func.operands(),
            cfginfo.postorder@,
            cfginfo.block_entry@,
            cfginfo.block_exit@,
            0,
        ) is Corrupt),
{
    let start = initial_state(
        mach_env.int_regs@,
        mach_env.float_regs@,
        mach_env.vector_regs@,
        func.insts@.len(),
        count_blocks(
            Map::empty(),
            func.operands(),
            cfginfo.postorder@,
            cfginfo.block_entry@,
            cfginfo.block_exit@,
            0,
        ),
    );
    lemma_replay_blocks(
        start,
        machine,
        func.operands(),
        cfginfo.postorder@,
        cfginfo.block_entry@,
        cfginfo.block_exit@,
        0,
    );
}

} // verus!
