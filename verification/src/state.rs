//! The state of one run as a value, and what an instruction, a block and a
//! whole function do to it.

use crate::lru::without_key;
use crate::model::Allocation;
use crate::model::Edit;
use crate::model::InstPosition;
use crate::model::Operand;
use crate::model::OperandConstraint;
use crate::model::OperandKind;
use crate::model::PReg;
use crate::model::ProgPoint;
use crate::model::RegAllocError;
use crate::model::RegClass;
use crate::model::SpillSlotData;
use crate::model::VReg;
use crate::residency::FileState;
use crate::resolve::Ctx;
use crate::resolve::Resolved;
use crate::spill::slots_wf;
use vstd::prelude::*;

verus! {

/// The state of one run.
pub struct AllocState {
    /// The residency tracker of each class.
    pub int: FileState,
    pub float: FileState,
    pub vector: FileState,
    /// The stack slots in the order in which they were handed out.
    pub slots: Seq<SpillSlotData>,
    /// The edits in the order in which they were made.
    pub edits: Seq<(ProgPoint, Edit)>,
    /// The locations of the operands of the instructions visited so far.
    pub allocs: Seq<Allocation>,
    /// For each instruction, where its operands' locations begin in
    /// `allocs`; zero for an instruction that was not visited.
    pub offsets: Seq<usize>,
    /// For each virtual register, how many of its uses the walk has yet to
    /// come to.
    pub uses_left: Map<u32, usize>,
}

/// The outcome of resolving one operand against the whole state.
pub type Step = Result<(AllocState, Allocation), RegAllocError>;

/// The outcome of one pass over the operands of an instruction: the state
/// and the locations found so far.
pub type Pass = Result<(AllocState, Seq<Option<Allocation>>), RegAllocError>;

/// The point before instruction `inst`, where every edit of this allocator
/// is placed.
pub open spec fn before(inst: int) -> ProgPoint {
    ProgPoint { inst: inst as usize, pos: InstPosition::Before }
}

/// Operand `op` fixes its value to `preg`.
pub open spec fn fixes(op: Operand, preg: PReg) -> bool {
    op.constraint == OperandConstraint::FixedReg(preg)
}

/// What is wrong with operand `k` by itself or against the operands before
/// it: a register that an earlier operand fixes for another value, or a
/// `Reuse` that is not a definition naming a use of the same class.
pub open spec fn operand_fault(ops: Seq<Operand>, k: int) -> Option<RegAllocError> {
    match ops[k].constraint {
        OperandConstraint::FixedReg(preg) => if exists|j: int|
            0 <= j < k && fixes(#[trigger] ops[j], preg) && ops[j].vreg != ops[k].vreg {
            Some(RegAllocError::ConflictingFixedRegisters)
        } else {
            None
        },
        OperandConstraint::Reuse(source) => if ops[k].kind == OperandKind::Def && source < ops.len()
            && ops[source as int].kind == OperandKind::Use && ops[source as int].vreg.class
            == ops[k].vreg.class {
            None
        } else {
            Some(RegAllocError::InvalidReuseConstraint)
        },
        _ => None,
    }
}

/// Operand `k` is the first one with a fault.
pub open spec fn is_first_fault(ops: Seq<Operand>, k: int) -> bool {
    &&& 0 <= k < ops.len()
    &&& operand_fault(ops, k) is Some
    &&& forall|j: int| 0 <= j < k ==> operand_fault(ops, j) is None
}

/// The fault of the first operand that has one.
pub open spec fn first_fault(ops: Seq<Operand>) -> Option<RegAllocError> {
    if exists|k: int| is_first_fault(ops, k) {
        operand_fault(ops, choose|k: int| is_first_fault(ops, k))
    } else {
        None
    }
}

/// Some definition of the instruction reuses the location of operand `i`.
pub open spec fn is_reuse_source(ops: Seq<Operand>, i: int) -> bool {
    exists|d: int|
        0 <= d < ops.len() && (#[trigger] ops[d]).kind == OperandKind::Def && ops[d].constraint
            == OperandConstraint::Reuse(i as usize)
}

/// The location that a `Reuse` constraint of `op` names among `allocs`.
pub open spec fn reuse_source(op: Operand, allocs: Seq<Option<Allocation>>) -> Option<Allocation> {
    match op.constraint {
        OperandConstraint::Reuse(source) => if source < allocs.len() {
            allocs[source as int]
        } else {
            None
        },
        _ => None,
    }
}

/// The locations, once every operand has one.
pub open spec fn located(allocs: Seq<Option<Allocation>>) -> Seq<Allocation> {
    Seq::new(allocs.len(), |i: int| allocs[i].unwrap())
}

/// One more than `count`, as far as a `usize` goes.
pub open spec fn bump(count: usize) -> usize {
    if count < usize::MAX {
        (count + 1) as usize
    } else {
        count
    }
}

/// The number that `counts` holds for `vreg`: zero if it holds none.
pub open spec fn uses_of(counts: Map<u32, usize>, vreg: u32) -> usize {
    if counts.contains_key(vreg) {
        counts[vreg]
    } else {
        0
    }
}

/// `counts` with one more use of `vreg`.
pub open spec fn count_use(counts: Map<u32, usize>, vreg: u32) -> Map<u32, usize> {
    counts.insert(vreg, bump(uses_of(counts, vreg)))
}

/// `counts` with the uses among the operands of `ops` from `i` on.
pub open spec fn count_ops(counts: Map<u32, usize>, ops: Seq<Operand>, i: int) -> Map<u32, usize>
    decreases ops.len() - i,
{
    if i < 0 || i >= ops.len() {
        counts
    } else if ops[i].kind == OperandKind::Use {
        count_ops(count_use(counts, ops[i].vreg.id), ops, i + 1)
    } else {
        count_ops(counts, ops, i + 1)
    }
}

/// `counts` with the uses in the instructions from `inst` up to, not
/// including, `end`.
pub open spec fn count_insts(counts: Map<u32, usize>, body: Seq<Seq<Operand>>, inst: int, end: int) -> Map<
    u32,
    usize,
>
    decreases end - inst,
{
    if inst >= end {
        counts
    } else {
        count_insts(count_ops(counts, body[inst], 0), body, inst + 1, end)
    }
}

/// `counts` with the uses in the blocks of `order` from position `k` on:
/// for each virtual register, how often the walk will come to a use of it.
pub open spec fn count_blocks(
    counts: Map<u32, usize>,
    body: Seq<Seq<Operand>>,
    order: Seq<usize>,
    entry: Seq<ProgPoint>,
    exit: Seq<ProgPoint>,
    k: int,
) -> Map<u32, usize>
    decreases order.len() - k,
{
    if k < 0 || k >= order.len() {
        counts
    } else {
        count_blocks(
            count_insts(
                counts,
                body,
                entry[order[k] as int].inst as int,
                exit[order[k] as int].inst as int,
            ),
            body,
            order,
            entry,
            exit,
            k + 1,
        )
    }
}

impl AllocState {
    /// The tracker of `class`.
    pub open spec fn file(self, class: RegClass) -> FileState {
        match class {
            RegClass::Int => self.int,
            RegClass::Float => self.float,
            RegClass::Vector => self.vector,
        }
    }

    /// The same state with another tracker for `class`.
    pub open spec fn with_file(self, class: RegClass, file: FileState) -> AllocState {
        match class {
            RegClass::Int => AllocState { int: file, ..self },
            RegClass::Float => AllocState { float: file, ..self },
            RegClass::Vector => AllocState { vector: file, ..self },
        }
    }

    /// What the resolution of an operand of `class` works on.
    pub open spec fn ctx(self, class: RegClass) -> Ctx {
        Ctx { file: self.file(class), slots: self.slots, edits: self.edits }
    }

    /// The state after the resolution of an operand of `class` has left
    /// `ctx`.
    pub open spec fn with_ctx(self, class: RegClass, ctx: Ctx) -> AllocState {
        AllocState { slots: ctx.slots, edits: ctx.edits, ..self.with_file(class, ctx.file) }
    }

    /// The invariant of the state: each tracker is the one of its class
    /// and satisfies the residency invariant, and the slot table is well
    /// formed.
    pub open spec fn wf(self) -> bool {
        &&& self.int.class == RegClass::Int
        &&& self.float.class == RegClass::Float
        &&& self.vector.class == RegClass::Vector
        &&& self.int.wf()
        &&& self.float.wf()
        &&& self.vector.wf()
        &&& slots_wf(self.slots)
    }

    /// The outcome `resolved` of an operand of `class`, as an outcome on
    /// the whole state.
    pub open spec fn lift(self, class: RegClass, resolved: Resolved) -> Step {
        match resolved {
            Ok((ctx, alloc)) => Ok((self.with_ctx(class, ctx), alloc)),
            Err(error) => Err(error),
        }
    }

    /// The resolution of the use operand `op`, with edits at `point`.
    #[verifier::opaque]
    pub open spec fn use_op(self, op: Operand, point: ProgPoint) -> Step {
        self.lift(op.vreg.class, self.ctx(op.vreg.class).use_op(op, point))
    }

    /// The resolution of the definition operand `op`, with edits at
    /// `point`; `source` is the location that a `Reuse` constraint names.
    #[verifier::opaque]
    pub open spec fn def_op(self, op: Operand, point: ProgPoint, source: Option<Allocation>) -> Step {
        self.lift(op.vreg.class, self.ctx(op.vreg.class).def_op(op, point, source))
    }

    /// The state with `preg` pinned in the tracker of its class.
    pub open spec fn pin(self, preg: PReg) -> AllocState {
        self.with_file(
            preg.class,
            self.file(preg.class).with_pinned(self.file(preg.class).pinned.push(preg.hw_enc)),
        )
    }

    /// The state with every register pinned that an operand of `ops`
    /// fixes.
    pub open spec fn pin_fixed(self, ops: Seq<Operand>) -> AllocState
        decreases ops.len(),
    {
        if ops.len() == 0 {
            self
        } else {
            let pinned = self.pin_fixed(ops.drop_last());
            match ops.last().constraint {
                OperandConstraint::FixedReg(preg) => pinned.pin(preg),
                _ => pinned,
            }
        }
    }

    /// The state after use operand `i` has been resolved to `alloc`: if a
    /// definition reuses it and it is in a register, that register is
    /// pinned.
    pub open spec fn pin_source(self, ops: Seq<Operand>, i: int, alloc: Allocation) -> AllocState {
        match alloc {
            Allocation::Reg(preg) => if is_reuse_source(ops, i) {
                self.pin(preg)
            } else {
                self
            },
            Allocation::Stack(_) => self,
        }
    }

    /// The state when instruction `inst` is at hand.
    pub open spec fn begin(self, inst: int) -> AllocState {
        AllocState {
            int: self.int.at(inst as usize),
            float: self.float.at(inst as usize),
            vector: self.vector.at(inst as usize),
            ..self
        }
    }

    /// The state with no register pinned.
    pub open spec fn release_pins(self) -> AllocState {
        AllocState {
            int: self.int.with_pinned(Seq::empty()),
            float: self.float.with_pinned(Seq::empty()),
            vector: self.vector.with_pinned(Seq::empty()),
            ..self
        }
    }

    /// The state after the walk has passed one use of `vreg`: one use less
    /// is left, and a value with no use left gives up its register.
    pub open spec fn retire_use(self, vreg: VReg) -> AllocState {
        let left = uses_of(self.uses_left, vreg.id);
        if left <= 1 {
            AllocState {
                uses_left: self.uses_left.insert(vreg.id, 0),
                ..self.with_file(
                    vreg.class,
                    self.file(vreg.class).with_entries(
                        without_key(self.file(vreg.class).entries, vreg.id),
                    ),
                )
            }
        } else {
            AllocState { uses_left: self.uses_left.insert(vreg.id, (left - 1) as usize), ..self }
        }
    }

    /// The state after the walk has passed the uses among `ops` from
    /// operand `i` on.
    pub open spec fn retire_uses(self, ops: Seq<Operand>, i: int) -> AllocState
        decreases ops.len() - i,
    {
        if i < 0 || i >= ops.len() {
            self
        } else if ops[i].kind == OperandKind::Use {
            self.retire_use(ops[i].vreg).retire_uses(ops, i + 1)
        } else {
            self.retire_uses(ops, i + 1)
        }
    }

    /// The pass over the uses of an instruction, from operand `i` on: each
    /// use is resolved in operand order, and its location is noted.
    pub open spec fn uses_from(
        self,
        ops: Seq<Operand>,
        point: ProgPoint,
        allocs: Seq<Option<Allocation>>,
        i: int,
    ) -> Pass
        decreases ops.len() - i,
    {
        if i < 0 || i >= ops.len() {
            Ok((self, allocs))
        } else if ops[i].kind == OperandKind::Use {
            match self.use_op(ops[i], point) {
                Ok((next, alloc)) => next.pin_source(ops, i, alloc).uses_from(
                    ops,
                    point,
                    allocs.update(i, Some(alloc)),
                    i + 1,
                ),
                Err(error) => Err(error),
            }
        } else {
            self.uses_from(ops, point, allocs, i + 1)
        }
    }

    /// The pass over the definitions of an instruction, from operand `i`
    /// on, after all its uses have been resolved.
    pub open spec fn defs_from(
        self,
        ops: Seq<Operand>,
        point: ProgPoint,
        allocs: Seq<Option<Allocation>>,
        i: int,
    ) -> Pass
        decreases ops.len() - i,
    {
        if i < 0 || i >= ops.len() {
            Ok((self, allocs))
        } else if ops[i].kind == OperandKind::Def {
            match self.def_op(ops[i], point, reuse_source(ops[i], allocs)) {
                Ok((next, alloc)) => next.defs_from(
                    ops,
                    point,
                    allocs.update(i, Some(alloc)),
                    i + 1,
                ),
                Err(error) => Err(error),
            }
        } else {
            self.defs_from(ops, point, allocs, i + 1)
        }
    }

    /// The locations of the operands of one instruction, with the state
    /// they leave: the fixed registers are pinned, then all uses are
    /// resolved, then the values that have no use left give up their
    /// registers, then all definitions are resolved.
    #[verifier::opaque]
    pub open spec fn resolve_inst(self, ops: Seq<Operand>, inst: int) -> Pass {
        match first_fault(ops) {
            Some(error) => Err(error),
            None => match self.begin(inst).pin_fixed(ops).uses_from(
                ops,
                before(inst),
                Seq::new(ops.len(), |i: int| None),
                0,
            ) {
                Ok((used, allocs)) => used.retire_uses(ops, 0).defs_from(
                    ops,
                    before(inst),
                    allocs,
                    0,
                ),
                Err(error) => Err(error),
            },
        }
    }

    /// The state after the locations `allocs` of the operands of
    /// instruction `inst` have been added to the output.
    pub open spec fn record(self, inst: int, allocs: Seq<Allocation>) -> AllocState {
        AllocState {
            offsets: if 0 <= inst < self.offsets.len() {
                self.offsets.update(inst, self.allocs.len() as usize)
            } else {
                self.offsets
            },
            allocs: self.allocs + allocs,
            ..self
        }
    }

    /// The state after instruction `inst`, whose operands are `ops`: its
    /// operands are resolved, the pins are released, and the locations are
    /// added to the output.
    pub open spec fn process_inst(self, ops: Seq<Operand>, inst: int) -> Result<
        AllocState,
        RegAllocError,
    > {
        match self.resolve_inst(ops, inst) {
            Ok((resolved, allocs)) => Ok(resolved.release_pins().record(inst, located(allocs))),
            Err(error) => Err(error),
        }
    }

    /// The state after the instructions from `inst` up to, not including,
    /// `end`, in increasing order.
    pub open spec fn process_insts(self, body: Seq<Seq<Operand>>, inst: int, end: int) -> Result<
        AllocState,
        RegAllocError,
    >
        decreases end - inst,
    {
        if inst >= end {
            Ok(self)
        } else {
            match self.process_inst(body[inst], inst) {
                Ok(next) => next.process_insts(body, inst + 1, end),
                Err(error) => Err(error),
            }
        }
    }

    /// The state after the blocks of `order` from position `k` on, each
    /// from its entry point to its exit point.
    pub open spec fn process_blocks(
        self,
        body: Seq<Seq<Operand>>,
        order: Seq<usize>,
        entry: Seq<ProgPoint>,
        exit: Seq<ProgPoint>,
        k: int,
    ) -> Result<AllocState, RegAllocError>
        decreases order.len() - k,
    {
        if k < 0 || k >= order.len() {
            Ok(self)
        } else {
            match self.process_insts(
                body,
                entry[order[k] as int].inst as int,
                exit[order[k] as int].inst as int,
            ) {
                Ok(next) => next.process_blocks(body, order, entry, exit, k + 1),
                Err(error) => Err(error),
            }
        }
    }
}

/// A tracker of `class` over `pool` in which nothing is resident or pinned.
pub open spec fn empty_file(class: RegClass, pool: Seq<u32>) -> FileState {
    FileState {
        class,
        pool,
        pinned: Seq::empty(),
        entries: Seq::empty(),
        stamps: Map::empty(),
        now: 0,
    }
}

/// The state in which a run begins, for a machine with the given pools and
/// a function of `num_insts` instructions whose uses `uses` counts.
pub open spec fn initial_state(
    int_regs: Seq<u32>,
    float_regs: Seq<u32>,
    vector_regs: Seq<u32>,
    num_insts: nat,
    uses: Map<u32, usize>,
) -> AllocState {
    AllocState {
        int: empty_file(RegClass::Int, int_regs),
        float: empty_file(RegClass::Float, float_regs),
        vector: empty_file(RegClass::Vector, vector_regs),
        slots: Seq::empty(),
        edits: Seq::empty(),
        allocs: Seq::empty(),
        offsets: Seq::new(num_insts, |i: int| 0usize),
        uses_left: uses,
    }
}

/// The control flow information fits a function of `num_insts`
/// instructions: every block of `order` has an entry and an exit point, and
/// its instructions run from the entry forward to the exit within the
/// function.
pub open spec fn cfg_ok(
    order: Seq<usize>,
    entry: Seq<ProgPoint>,
    exit: Seq<ProgPoint>,
    num_insts: nat,
) -> bool {
    &&& entry.len() == exit.len()
    &&& forall|k: int|
        0 <= k < order.len() ==> {
            &&& (#[trigger] order[k]) < entry.len()
            &&& entry[order[k] as int].inst <= exit[order[k] as int].inst
            &&& exit[order[k] as int].inst <= num_insts
        }
}

} // verus!
