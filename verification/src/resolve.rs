//! The operand resolver: what each constraint asks of the residency
//! tracker, of the spill slot allocator and of the edit log, first as
//! functions on values, then as the code that does it.

use crate::edits::Edits;
use crate::lru::value_of;
use crate::lru::without_key;
use crate::model::Allocation;
use crate::model::Edit;
use crate::model::Operand;
use crate::model::OperandConstraint;
use crate::model::PReg;
use crate::model::ProgPoint;
use crate::model::RegAllocError;
use crate::model::SpillSlotData;
use crate::regfile::RegFile;
use crate::residency::evicted_by;
use crate::residency::FileState;
use crate::spill::frame_size;
use crate::spill::has_slot;
use crate::spill::slot_of;
use crate::spill::slots_wf;
use crate::spill::SpillSlots;
use crate::spill::with_slot;
use vstd::prelude::*;

verus! {

/// What the resolution of an operand of one class reads and changes: the
/// tracker of that class, the spill slots, and the edits.
pub struct Ctx {
    pub file: FileState,
    pub slots: Seq<SpillSlotData>,
    pub edits: Seq<(ProgPoint, Edit)>,
}

/// The outcome of resolving one operand: the state it leaves and the
/// operand's location, or the reason why the run ends.
pub type Resolved = Result<(Ctx, Allocation), RegAllocError>;

impl Ctx {
    /// Both the tracker and the slot table satisfy their invariants.
    pub open spec fn wf(self) -> bool {
        self.file.wf() && slots_wf(self.slots)
    }

    /// The location that is register `preg` of this class.
    pub open spec fn reg(self, preg: u32) -> Allocation {
        Allocation::Reg(PReg { hw_enc: preg, class: self.file.class })
    }

    /// The same state with another tracker.
    pub open spec fn with_file(self, file: FileState) -> Ctx {
        Ctx { file, ..self }
    }

    /// The same state with one more edit: a copy from `from` to `to` at
    /// `point`.
    pub open spec fn with_move(self, point: ProgPoint, from: Allocation, to: Allocation) -> Ctx {
        Ctx { edits: self.edits.push((point, Edit::Move { from, to })), ..self }
    }

    /// The same state after `vreg` has asked for its slot.
    pub open spec fn with_slot_for(self, vreg: u32) -> Ctx {
        Ctx { slots: with_slot(self.slots, vreg, self.file.class), ..self }
    }

    /// The offset of the slot that `vreg` has, or will be given next.
    pub open spec fn slot_offset(self, vreg: u32) -> u64 {
        match slot_of(self.slots, vreg) {
            Some(offset) => offset,
            None => frame_size(self.slots) as u64,
        }
    }

    /// The state after the pair `evicted`, which has just lost its
    /// register, has been seen to: if its virtual register has no slot yet
    /// it is given one, and an edit at `point` stores the register there.
    /// If it has a slot, that slot is kept and nothing is stored.
    pub open spec fn spill(self, evicted: Option<(u32, u32)>, point: ProgPoint) -> Ctx {
        match evicted {
            Some(pair) => if has_slot(self.slots, pair.0) {
                self
            } else {
                self.with_slot_for(pair.0).with_move(
                    point,
                    self.reg(pair.1),
                    Allocation::Stack(self.slot_offset(pair.0)),
                )
            },
            None => self,
        }
    }

    /// The state after `vreg` has been made resident in `preg`: whoever
    /// else was in `preg` is evicted and spilled.
    pub open spec fn install(self, vreg: u32, preg: u32, point: ProgPoint) -> Ctx {
        self.spill(evicted_by(self.file.entries, vreg, preg), point).with_file(
            self.file.bound(vreg, preg),
        )
    }

    /// A use that wants a register, for `Any` (`or_stack`) and `Reg`.
    ///
    /// A resident value stays where it is. A value that is in its slot only
    /// is reloaded into the register that the tracker selects; if there is
    /// none, `Any` reads the slot and `Reg` fails. A value that is nowhere
    /// has no definition that the use could read.
    pub open spec fn use_in_reg(self, vreg: u32, point: ProgPoint, or_stack: bool) -> Resolved {
        match value_of(self.file.entries, vreg) {
            Some(preg) => Ok((self.with_file(self.file.looked_up(vreg)), self.reg(preg))),
            None => match slot_of(self.slots, vreg) {
                Some(offset) => match self.file.select() {
                    Some(preg) => Ok(
                        (
                            self.install(vreg, preg, point).with_move(
                                point,
                                Allocation::Stack(offset),
                                self.reg(preg),
                            ),
                            self.reg(preg),
                        ),
                    ),
                    None => if or_stack {
                        Ok((self, Allocation::Stack(offset)))
                    } else {
                        Err(RegAllocError::OutOfRegisters)
                    },
                },
                None => Err(RegAllocError::SSAInvariantViolation),
            },
        }
    }

    /// A definition that wants a register, for `Any` (`or_stack`) and
    /// `Reg`: the register that the value is resident in, else the register
    /// that the tracker selects; if there is none, `Any` takes the value's
    /// slot and `Reg` fails.
    pub open spec fn def_in_reg(self, vreg: u32, point: ProgPoint, or_stack: bool) -> Resolved {
        match value_of(self.file.entries, vreg) {
            Some(preg) => Ok((self.with_file(self.file.looked_up(vreg)), self.reg(preg))),
            None => match self.file.select() {
                Some(preg) => Ok((self.install(vreg, preg, point), self.reg(preg))),
                None => if or_stack {
                    Ok((self.with_slot_for(vreg), Allocation::Stack(self.slot_offset(vreg))))
                } else {
                    Err(RegAllocError::OutOfRegisters)
                },
            },
        }
    }

    /// A use under `Stack`: the value's slot. A resident value is stored
    /// into the slot by an edit and leaves its register.
    pub open spec fn use_stack(self, vreg: u32, point: ProgPoint) -> Resolved {
        let slot = Allocation::Stack(self.slot_offset(vreg));
        match value_of(self.file.entries, vreg) {
            Some(preg) => Ok(
                (
                    self.with_slot_for(vreg).with_file(
                        self.file.with_entries(without_key(self.file.entries, vreg)),
                    ).with_move(point, self.reg(preg), slot),
                    slot,
                ),
            ),
            None => Ok((self.with_slot_for(vreg), slot)),
        }
    }

    /// A definition under `Stack`: the value's slot, and nothing else
    /// changes.
    pub open spec fn def_stack(self, vreg: u32) -> Resolved {
        Ok((self.with_slot_for(vreg), Allocation::Stack(self.slot_offset(vreg))))
    }

    /// Whether `preg` is a register that this tracker allocates.
    pub open spec fn owns(self, preg: PReg) -> bool {
        preg.class == self.file.class && self.file.pool.contains(preg.hw_enc)
    }

    /// A use under `FixedReg(preg)`: the value is made resident in `preg`,
    /// and an edit brings it there from the register or the slot it is in.
    pub open spec fn use_fixed(self, vreg: u32, preg: PReg, point: ProgPoint) -> Resolved {
        if !self.owns(preg) {
            Err(RegAllocError::OutOfRegisters)
        } else {
            let installed = self.install(vreg, preg.hw_enc, point);
            match value_of(self.file.entries, vreg) {
                Some(current) => if current == preg.hw_enc {
                    Ok((installed, Allocation::Reg(preg)))
                } else {
                    Ok(
                        (
                            installed.with_move(point, self.reg(current), Allocation::Reg(preg)),
                            Allocation::Reg(preg),
                        ),
                    )
                },
                None => match slot_of(self.slots, vreg) {
                    Some(offset) => Ok(
                        (
                            installed.with_move(
                                point,
                                Allocation::Stack(offset),
                                Allocation::Reg(preg),
                            ),
                            Allocation::Reg(preg),
                        ),
                    ),
                    None => Err(RegAllocError::SSAInvariantViolation),
                },
            }
        }
    }

    /// A definition under `FixedReg(preg)`: the value is made resident in
    /// `preg`.
    pub open spec fn def_fixed(self, vreg: u32, preg: PReg, point: ProgPoint) -> Resolved {
        if !self.owns(preg) {
            Err(RegAllocError::OutOfRegisters)
        } else {
            Ok((self.install(vreg, preg.hw_enc, point), Allocation::Reg(preg)))
        }
    }

    /// A definition under `Reuse`, given the location `source` that the
    /// operand it names was resolved to: the definition takes over that
    /// register, and the value that was in it is resident no more. No
    /// register and no slot is handed out, and nothing is stored.
    pub open spec fn def_reuse(self, vreg: u32, source: Option<Allocation>) -> Resolved {
        match source {
            Some(Allocation::Reg(preg)) => if self.owns(preg) {
                Ok(
                    (
                        self.with_file(self.file.bound(vreg, preg.hw_enc)),
                        Allocation::Reg(preg),
                    ),
                )
            } else {
                Err(RegAllocError::InvalidReuseConstraint)
            },
            _ => Err(RegAllocError::InvalidReuseConstraint),
        }
    }

    /// The resolution of a use operand of this class.
    pub open spec fn use_op(self, op: Operand, point: ProgPoint) -> Resolved {
        match op.constraint {
            OperandConstraint::Any => self.use_in_reg(op.vreg.id, point, true),
            OperandConstraint::Reg => self.use_in_reg(op.vreg.id, point, false),
            OperandConstraint::Stack => self.use_stack(op.vreg.id, point),
            OperandConstraint::FixedReg(preg) => self.use_fixed(op.vreg.id, preg, point),
            OperandConstraint::Reuse(_) => Err(RegAllocError::InvalidReuseConstraint),
        }
    }

    /// The resolution of a definition operand of this class; `source` is
    /// the location of the operand that a `Reuse` constraint names.
    pub open spec fn def_op(self, op: Operand, point: ProgPoint, source: Option<Allocation>) -> Resolved {
        match op.constraint {
            OperandConstraint::Any => self.def_in_reg(op.vreg.id, point, true),
            OperandConstraint::Reg => self.def_in_reg(op.vreg.id, point, false),
            OperandConstraint::Stack => self.def_stack(op.vreg.id),
            OperandConstraint::FixedReg(preg) => self.def_fixed(op.vreg.id, preg, point),
            OperandConstraint::Reuse(_) => self.def_reuse(op.vreg.id, source),
        }
    }
}

/// The state that a tracker, a slot allocator and an edit log stand for.
pub open spec fn ctx_of(file: &RegFile, slots: &SpillSlots, edits: &Edits) -> Ctx {
    Ctx { file: file@, slots: slots@, edits: edits@ }
}

/// Whether what `result` and the state left behind say is what `expected`
/// says.
pub open spec fn agrees(result: Result<Allocation, RegAllocError>, after: Ctx, expected: Resolved) -> bool {
    match result {
        Ok(alloc) => expected == Ok::<(Ctx, Allocation), RegAllocError>((after, alloc)),
        Err(error) => expected == Err::<(Ctx, Allocation), RegAllocError>(error),
    }
}

/// Sees to a pair that has lost its register: a virtual register without a
/// slot gets one, and an edit at `point` stores the register into it.
pub fn spill(file: &RegFile, slots: &mut SpillSlots, edits: &mut Edits, evicted: Option<(u32, u32)>, point: ProgPoint)
    requires
        file.wf(),
        old(slots).wf(),
    ensures
        final(slots).wf(),
        ctx_of(file, final(slots), final(edits)) == ctx_of(file, old(slots), old(edits)).spill(
            evicted,
            point,
        ),
{
    if let Some(pair) = evicted {
        if slots.lookup(pair.0).is_none() {
            let offset = slots.slot_for(pair.0, file.class());
            edits.push(
                point,
                Edit::Move {
                    from: Allocation::Reg(PReg::new(pair.1, file.class())),
                    to: Allocation::Stack(offset),
                },
            );
        }
    }
}

/// Makes `vreg` resident in `preg`, and spills whoever was there.
pub fn install(file: &mut RegFile, slots: &mut SpillSlots, edits: &mut Edits, vreg: u32, preg: u32, point: ProgPoint)
    requires
        old(file).wf(),
        old(slots).wf(),
        old(file)@.pool.contains(preg),
    ensures
        final(file).wf(),
        final(slots).wf(),
        ctx_of(final(file), final(slots), final(edits)) == ctx_of(
            old(file),
            old(slots),
            old(edits),
        ).install(vreg, preg, point),
{
    let evicted = file.insert(vreg, preg);
    spill(file, slots, edits, evicted, point);
}

/// Resolves a use under `Any` (`or_stack`) or `Reg`.
pub fn use_in_reg(file: &mut RegFile, slots: &mut SpillSlots, edits: &mut Edits, vreg: u32, point: ProgPoint, or_stack: bool) -> (result: Result<Allocation, RegAllocError>)
    requires
        old(file).wf(),
        old(slots).wf(),
    ensures
        final(file).wf(),
        final(slots).wf(),
        agrees(
            result,
            ctx_of(final(file), final(slots), final(edits)),
            ctx_of(old(file), old(slots), old(edits)).use_in_reg(vreg, point, or_stack),
        ),
{
    let class = file.class();
    if let Some(preg) = file.lookup(vreg) {
        return Ok(Allocation::Reg(PReg::new(preg, class)));
    }
    let offset = match slots.lookup(vreg) {
        Some(offset) => offset,
        None => {
            return Err(RegAllocError::SSAInvariantViolation);
        },
    };
    match file.select() {
        Some(preg) => {
            install(file, slots, edits, vreg, preg, point);
            let to = Allocation::Reg(PReg::new(preg, class));
            edits.push(point, Edit::Move { from: Allocation::Stack(offset), to });
            Ok(to)
        },
        None => {
            if or_stack {
                Ok(Allocation::Stack(offset))
            } else {
                Err(RegAllocError::OutOfRegisters)
            }
        },
    }
}

/// Resolves a definition under `Any` (`or_stack`) or `Reg`.
pub fn def_in_reg(file: &mut RegFile, slots: &mut SpillSlots, edits: &mut Edits, vreg: u32, point: ProgPoint, or_stack: bool) -> (result: Result<Allocation, RegAllocError>)
    requires
        old(file).wf(),
        old(slots).wf(),
    ensures
        final(file).wf(),
        final(slots).wf(),
        agrees(
            result,
            ctx_of(final(file), final(slots), final(edits)),
            ctx_of(old(file), old(slots), old(edits)).def_in_reg(vreg, point, or_stack),
        ),
{
    let class = file.class();
    if let Some(preg) = file.lookup(vreg) {
        return Ok(Allocation::Reg(PReg::new(preg, class)));
    }
    match file.select() {
        Some(preg) => {
            install(file, slots, edits, vreg, preg, point);
            Ok(Allocation::Reg(PReg::new(preg, class)))
        },
        None => {
            if or_stack {
                let offset = slots.slot_for(vreg, class);
                Ok(Allocation::Stack(offset))
            } else {
                Err(RegAllocError::OutOfRegisters)
            }
        },
    }
}

/// Resolves a use under `Stack`.
pub fn use_stack(file: &mut RegFile, slots: &mut SpillSlots, edits: &mut Edits, vreg: u32, point: ProgPoint) -> (result: Result<Allocation, RegAllocError>)
    requires
        old(file).wf(),
        old(slots).wf(),
    ensures
        final(file).wf(),
        final(slots).wf(),
        result is Ok,
        agrees(
            result,
            ctx_of(final(file), final(slots), final(edits)),
            ctx_of(old(file), old(slots), old(edits)).use_stack(vreg, point),
        ),
{
    let class = file.class();
    let offset = slots.slot_for(vreg, class);
    if let Some(preg) = file.remove(vreg) {
        edits.push(
            point,
            Edit::Move {
                from: Allocation::Reg(PReg::new(preg, class)),
                to: Allocation::Stack(offset),
            },
        );
    }
    Ok(Allocation::Stack(offset))
}

/// Resolves a definition under `Stack`.
pub fn def_stack(file: &RegFile, slots: &mut SpillSlots, edits: &Edits, vreg: u32) -> (result: Result<Allocation, RegAllocError>)
    requires
        file.wf(),
        old(slots).wf(),
    ensures
        final(slots).wf(),
        result is Ok,
        agrees(
            result,
            ctx_of(file, final(slots), edits),
            ctx_of(file, old(slots), edits).def_stack(vreg),
        ),
{
    let offset = slots.slot_for(vreg, file.class());
    Ok(Allocation::Stack(offset))
}

/// Whether `preg` is a register that `file` allocates.
pub fn owns(file: &RegFile, preg: PReg) -> (r: bool)
    ensures
        r == (preg.class == file@.class && file@.pool.contains(preg.hw_enc)),
{
    preg.class == file.class() && file.has_reg(preg.hw_enc)
}

/// Resolves a use under `FixedReg(preg)`.
pub fn use_fixed(file: &mut RegFile, slots: &mut SpillSlots, edits: &mut Edits, vreg: u32, preg: PReg, point: ProgPoint) -> (result: Result<Allocation, RegAllocError>)
    requires
        old(file).wf(),
        old(slots).wf(),
    ensures
        final(file).wf(),
        final(slots).wf(),
        agrees(
            result,
            ctx_of(final(file), final(slots), final(edits)),
            ctx_of(old(file), old(slots), old(edits)).use_fixed(vreg, preg, point),
        ),
{
    if !owns(file, preg) {
        return Err(RegAllocError::OutOfRegisters);
    }
    let class = file.class();
    let from = match file.peek(vreg) {
        Some(current) => {
            if current == preg.hw_enc {
                None
            } else {
                Some(Allocation::Reg(PReg::new(current, class)))
            }
        },
        None => match slots.lookup(vreg) {
            Some(offset) => Some(Allocation::Stack(offset)),
            None => {
                return Err(RegAllocError::SSAInvariantViolation);
            },
        },
    };
    install(file, slots, edits, vreg, preg.hw_enc, point);
    if let Some(from) = from {
        edits.push(point, Edit::Move { from, to: Allocation::Reg(preg) });
    }
    Ok(Allocation::Reg(preg))
}

/// Resolves a definition under `FixedReg(preg)`.
pub fn def_fixed(file: &mut RegFile, slots: &mut SpillSlots, edits: &mut Edits, vreg: u32, preg: PReg, point: ProgPoint) -> (result: Result<Allocation, RegAllocError>)
    requires
        old(file).wf(),
        old(slots).wf(),
    ensures
        final(file).wf(),
        final(slots).wf(),
        agrees(
            result,
            ctx_of(final(file), final(slots), final(edits)),
            ctx_of(old(file), old(slots), old(edits)).def_fixed(vreg, preg, point),
        ),
{
    if !owns(file, preg) {
        return Err(RegAllocError::OutOfRegisters);
    }
    install(file, slots, edits, vreg, preg.hw_enc, point);
    Ok(Allocation::Reg(preg))
}

/// Resolves a definition under `Reuse`, given the location that the
/// operand it names was resolved to.
pub fn def_reuse(file: &mut RegFile, slots: &SpillSlots, edits: &Edits, vreg: u32, source: Option<Allocation>) -> (result: Result<Allocation, RegAllocError>)
    requires
        old(file).wf(),
        slots.wf(),
    ensures
        final(file).wf(),
        agrees(
            result,
            ctx_of(final(file), slots, edits),
            ctx_of(old(file), slots, edits).def_reuse(vreg, source),
        ),
{
    match source {
        Some(Allocation::Reg(preg)) => {
            if owns(file, preg) {
                let _ = file.insert(vreg, preg.hw_enc);
                Ok(Allocation::Reg(preg))
            } else {
                Err(RegAllocError::InvalidReuseConstraint)
            }
        },
        _ => Err(RegAllocError::InvalidReuseConstraint),
    }
}

/// Resolves a use operand against the tracker of its class.
pub fn use_op_in(file: &mut RegFile, slots: &mut SpillSlots, edits: &mut Edits, op: Operand, point: ProgPoint) -> (result: Result<Allocation, RegAllocError>)
    requires
        old(file).wf(),
        old(slots).wf(),
    ensures
        final(file).wf(),
        final(slots).wf(),
        agrees(
            result,
            ctx_of(final(file), final(slots), final(edits)),
            ctx_of(old(file), old(slots), old(edits)).use_op(op, point),
        ),
{
    match op.constraint {
        OperandConstraint::Any => use_in_reg(file, slots, edits, op.vreg.id, point, true),
        OperandConstraint::Reg => use_in_reg(file, slots, edits, op.vreg.id, point, false),
        OperandConstraint::Stack => use_stack(file, slots, edits, op.vreg.id, point),
        OperandConstraint::FixedReg(preg) => use_fixed(file, slots, edits, op.vreg.id, preg, point),
        OperandConstraint::Reuse(_) => Err(RegAllocError::InvalidReuseConstraint),
    }
}

/// Resolves a definition operand against the tracker of its class.
pub fn def_op_in(file: &mut RegFile, slots: &mut SpillSlots, edits: &mut Edits, op: Operand, point: ProgPoint, source: Option<Allocation>) -> (result: Result<Allocation, RegAllocError>)
    requires
        old(file).wf(),
        old(slots).wf(),
    ensures
        final(file).wf(),
        final(slots).wf(),
        agrees(
            result,
            ctx_of(final(file), final(slots), final(edits)),
            ctx_of(old(file), old(slots), old(edits)).def_op(op, point, source),
        ),
{
    match op.constraint {
        OperandConstraint::Any => def_in_reg(file, slots, edits, op.vreg.id, point, true),
        OperandConstraint::Reg => def_in_reg(file, slots, edits, op.vreg.id, point, false),
        OperandConstraint::Stack => def_stack(file, slots, edits, op.vreg.id),
        OperandConstraint::FixedReg(preg) => def_fixed(file, slots, edits, op.vreg.id, preg, point),
        OperandConstraint::Reuse(_) => def_reuse(file, slots, edits, op.vreg.id, source),
    }
}

} // verus!
