//! The values that the allocator reads and writes: registers, operands,
//! program points, locations, edits, errors, and the description of the
//! function and of the machine that one run works on.

use vstd::prelude::*;

verus! {

/// The class of a register: which register file it lives in.
#[derive(Clone, Copy, Debug, PartialEq, Eq, Hash, Structural)]
pub enum RegClass {
    Int,
    Float,
    Vector,
}

/// The size in bytes of a value of the given class.
pub open spec fn class_size(class: RegClass) -> nat {
    match class {
        RegClass::Int => 4,
        RegClass::Float => 8,
        RegClass::Vector => 8,
    }
}

/// Return the size of a register class in bytes.
pub fn regclass_size(regclass: RegClass) -> (size: u32)
    ensures
        size == class_size(regclass),
{
    match regclass {
        RegClass::Int => 4,
        RegClass::Float => 8,
        RegClass::Vector => 8,
    }
}

/// A virtual register: an SSA value, named by `id`, that lives in registers
/// of class `class`.
#[derive(Clone, Copy, Debug, PartialEq, Eq, Hash, Structural)]
pub struct VReg {
    pub id: u32,
    pub class: RegClass,
}

impl VReg {
    pub fn new(id: u32, class: RegClass) -> (vreg: VReg)
        ensures
            vreg == (VReg { id, class }),
    {
        VReg { id, class }
    }

    /// The number that names this virtual register.
    pub fn vreg(&self) -> (id: u32)
        ensures
            id == self.id,
    {
        self.id
    }

    pub fn class(&self) -> (class: RegClass)
        ensures
            class == self.class,
    {
        self.class
    }
}

/// A physical register: the register numbered `hw_enc` of class `class`.
#[derive(Clone, Copy, Debug, PartialEq, Eq, Hash, Structural)]
pub struct PReg {
    pub hw_enc: u32,
    pub class: RegClass,
}

impl PReg {
    pub fn new(hw_enc: u32, class: RegClass) -> (preg: PReg)
        ensures
            preg == (PReg { hw_enc, class }),
    {
        PReg { hw_enc, class }
    }

    pub fn hw_enc(&self) -> (hw_enc: u32)
        ensures
            hw_enc == self.hw_enc,
    {
        self.hw_enc
    }

    pub fn class(&self) -> (class: RegClass)
        ensures
            class == self.class,
    {
        self.class
    }
}

/// Whether an operand reads its value or produces it.
#[derive(Clone, Copy, Debug, PartialEq, Eq, Hash, Structural)]
pub enum OperandKind {
    Use,
    Def,
}

/// Where an operand's value may live while its instruction executes.
#[derive(Clone, Copy, Debug, PartialEq, Eq, Hash, Structural)]
pub enum OperandConstraint {
    /// A register if one can be had, else the value's stack slot.
    Any,
    /// A register of the value's class.
    Reg,
    /// The value's stack slot.
    Stack,
    /// Exactly this register.
    FixedReg(PReg),
    /// The location of the operand at this index of the same instruction.
    Reuse(usize),
}

/// One operand of one instruction.
#[derive(Clone, Copy, Debug, PartialEq, Eq, Hash, Structural)]
pub struct Operand {
    pub vreg: VReg,
    pub kind: OperandKind,
    pub constraint: OperandConstraint,
}

impl Operand {
    pub fn new(vreg: VReg, kind: OperandKind, constraint: OperandConstraint) -> (op: Operand)
        ensures
            op == (Operand { vreg, kind, constraint }),
    {
        Operand { vreg, kind, constraint }
    }

    /// A use of `vreg` under `constraint`.
    pub fn new_use(vreg: VReg, constraint: OperandConstraint) -> (op: Operand)
        ensures
            op == (Operand { vreg, kind: OperandKind::Use, constraint }),
    {
        Operand { vreg, kind: OperandKind::Use, constraint }
    }

    /// A definition of `vreg` under `constraint`.
    pub fn new_def(vreg: VReg, constraint: OperandConstraint) -> (op: Operand)
        ensures
            op == (Operand { vreg, kind: OperandKind::Def, constraint }),
    {
        Operand { vreg, kind: OperandKind::Def, constraint }
    }

    pub fn vreg(&self) -> (vreg: VReg)
        ensures
            vreg == self.vreg,
    {
        self.vreg
    }

    pub fn kind(&self) -> (kind: OperandKind)
        ensures
            kind == self.kind,
    {
        self.kind
    }

    pub fn constraint(&self) -> (constraint: OperandConstraint)
        ensures
            constraint == self.constraint,
    {
        self.constraint
    }
}

/// The two sides of an instruction at which an edit can be placed.
#[derive(Clone, Copy, Debug, PartialEq, Eq, Hash, Structural)]
pub enum InstPosition {
    Before,
    After,
}

/// A point of the program: just before or just after the instruction `inst`.
#[derive(Clone, Copy, Debug, PartialEq, Eq, Hash, Structural)]
pub struct ProgPoint {
    pub inst: usize,
    pub pos: InstPosition,
}

impl ProgPoint {
    /// The point just before instruction `inst`.
    pub fn before(inst: usize) -> (point: ProgPoint)
        ensures
            point == (ProgPoint { inst, pos: InstPosition::Before }),
    {
        ProgPoint { inst, pos: InstPosition::Before }
    }

    /// The point just after instruction `inst`.
    pub fn after(inst: usize) -> (point: ProgPoint)
        ensures
            point == (ProgPoint { inst, pos: InstPosition::After }),
    {
        ProgPoint { inst, pos: InstPosition::After }
    }

    pub fn inst(&self) -> (inst: usize)
        ensures
            inst == self.inst,
    {
        self.inst
    }

    pub fn pos(&self) -> (pos: InstPosition)
        ensures
            pos == self.pos,
    {
        self.pos
    }

    /// The place of this point in program order: points of earlier
    /// instructions come first, and `Before` comes before `After`.
    pub open spec fn rank(self) -> int {
        2 * self.inst + if self.pos == InstPosition::Before {
            0int
        } else {
            1int
        }
    }

    /// Whether this point comes no later than `other` in program order.
    pub fn precedes_or_equals(&self, other: &ProgPoint) -> (r: bool)
        ensures
            r == (self.rank() <= other.rank()),
    {
        if self.inst < other.inst {
            true
        } else if self.inst > other.inst {
            false
        } else {
            match self.pos {
                InstPosition::Before => true,
                InstPosition::After => match other.pos {
                    InstPosition::Before => false,
                    InstPosition::After => true,
                },
            }
        }
    }
}

/// The location given to one operand: a physical register, or the stack
/// slot that starts at the given byte offset of the frame.
#[derive(Clone, Copy, Debug, PartialEq, Eq, Hash, Structural)]
pub enum Allocation {
    Reg(PReg),
    Stack(u64),
}

impl Allocation {
    pub fn is_reg(&self) -> (r: bool)
        ensures
            r == (*self is Reg),
    {
        match self {
            Allocation::Reg(_) => true,
            Allocation::Stack(_) => false,
        }
    }

    pub fn is_stack(&self) -> (r: bool)
        ensures
            r == (*self is Stack),
    {
        match self {
            Allocation::Reg(_) => false,
            Allocation::Stack(_) => true,
        }
    }

    /// The register, if this location is one.
    pub fn as_reg(&self) -> (r: Option<PReg>)
        ensures
            r == (match *self {
                Allocation::Reg(preg) => Some(preg),
                Allocation::Stack(_) => None,
            }),
    {
        match self {
            Allocation::Reg(preg) => Some(*preg),
            Allocation::Stack(_) => None,
        }
    }

    /// The byte offset of the stack slot, if this location is one.
    pub fn as_stack(&self) -> (r: Option<u64>)
        ensures
            r == (match *self {
                Allocation::Reg(_) => None,
                Allocation::Stack(offset) => Some(offset),
            }),
    {
        match self {
            Allocation::Reg(_) => None,
            Allocation::Stack(offset) => Some(*offset),
        }
    }
}

/// An instruction that the allocator inserts: a copy of the value at `from`
/// into `to`. A spill copies a register to a stack slot, a reload copies a
/// stack slot to a register.
#[derive(Clone, Copy, Debug, PartialEq, Eq, Hash, Structural)]
pub enum Edit {
    Move { from: Allocation, to: Allocation },
}

/// Why a function could not be allocated.
#[derive(Clone, Copy, Debug, PartialEq, Eq, Hash, Structural)]
pub enum RegAllocError {
    /// The block boundaries do not fit the function.
    InvalidCFG,
    /// A use in a register of a value that is in no register and in no slot.
    SSAInvariantViolation,
    /// No register could be had for an operand that needs one.
    OutOfRegisters,
    /// Two operands of one instruction fix different values to one register.
    ConflictingFixedRegisters,
    /// A `Reuse` constraint that names no use resolved to a register.
    InvalidReuseConstraint,
}

/// One stack slot: the virtual register it belongs to, the class that sized
/// it, and its byte offset from the base of the frame.
#[derive(Clone, Copy, Debug, PartialEq, Eq, Hash, Structural)]
pub struct SpillSlotData {
    pub vreg: u32,
    pub class: RegClass,
    pub offset: u64,
}

/// The registers of the machine that may be allocated, class by class.
#[derive(Clone, Debug)]
pub struct MachineEnv {
    pub int_regs: Vec<u32>,
    pub float_regs: Vec<u32>,
    pub vector_regs: Vec<u32>,
}

impl MachineEnv {
    pub fn new(int_regs: Vec<u32>, float_regs: Vec<u32>, vector_regs: Vec<u32>) -> (env: MachineEnv)
        ensures
            env.int_regs == int_regs,
            env.float_regs == float_regs,
            env.vector_regs == vector_regs,
    {
        MachineEnv { int_regs, float_regs, vector_regs }
    }

    /// The registers of one class.
    pub open spec fn pool(self, class: RegClass) -> Seq<u32> {
        match class {
            RegClass::Int => self.int_regs@,
            RegClass::Float => self.float_regs@,
            RegClass::Vector => self.vector_regs@,
        }
    }
}

/// The instructions of a function: for each instruction, its operands.
#[derive(Clone, Debug)]
pub struct FuncBody {
    pub insts: Vec<Vec<Operand>>,
}

impl FuncBody {
    pub fn new(insts: Vec<Vec<Operand>>) -> (body: FuncBody)
        ensures
            body.insts == insts,
    {
        FuncBody { insts }
    }

    /// The operand lists, as values.
    pub open spec fn operands(self) -> Seq<Seq<Operand>> {
        Seq::new(self.insts@.len(), |i: int| self.insts@[i]@)
    }
}

/// What is known of the control flow: the blocks in postorder, and for each
/// block the points at which it begins and ends. The instructions of block
/// `b` run from `block_entry[b].inst` up to, not including,
/// `block_exit[b].inst`.
#[derive(Clone, Debug)]
pub struct CFGInfo {
    pub postorder: Vec<usize>,
    pub block_entry: Vec<ProgPoint>,
    pub block_exit: Vec<ProgPoint>,
}

impl CFGInfo {
    pub fn new(postorder: Vec<usize>, block_entry: Vec<ProgPoint>, block_exit: Vec<ProgPoint>) -> (cfg: CFGInfo)
        ensures
            cfg.postorder == postorder,
            cfg.block_entry == block_entry,
            cfg.block_exit == block_exit,
    {
        CFGInfo { postorder, block_entry, block_exit }
    }
}

/// Counts taken during one run.
#[derive(Clone, Copy, Debug, PartialEq, Eq, Structural)]
pub struct Stats {
    /// How many edits the run made.
    pub edits: usize,
    /// How many operands the run gave a location.
    pub allocations: usize,
    /// The size of the frame that the stack slots take, in bytes.
    pub frame_bytes: u64,
}

/// The result of one run.
#[derive(Clone, Debug)]
pub struct Output {
    /// How many stack slots the run used.
    pub num_spillslots: usize,
    /// The edits, in program order.
    pub edits: Vec<(ProgPoint, Edit)>,
    /// The location of every operand of every instruction visited.
    pub allocs: Vec<Allocation>,
    /// For each instruction, where its operands' locations begin in `allocs`.
    pub inst_alloc_offsets: Vec<usize>,
    /// Left empty: filled in by whoever computes safepoints.
    pub safepoint_slots: Vec<(ProgPoint, Allocation)>,
    /// Left empty: filled in by whoever tracks debug locations.
    pub debug_locations: Vec<(u32, ProgPoint, ProgPoint, Allocation)>,
    pub stats: Stats,
}

} // verus!
