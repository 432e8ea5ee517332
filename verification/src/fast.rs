//! The run: the walk over blocks and instructions that resolves every
//! operand, and the assembly of what it leaves into the output.

use crate::edits::Edits;
use crate::model::Allocation;
use crate::model::CFGInfo;
use crate::model::FuncBody;
use crate::model::MachineEnv;
use crate::model::Operand;
use crate::model::OperandConstraint;
use crate::model::OperandKind;
use crate::model::Output;
use crate::model::PReg;
use crate::model::ProgPoint;
use crate::model::RegAllocError;
use crate::model::RegClass;
use crate::model::Stats;
use crate::model::VReg;
use crate::order::same_order_at_points;
use crate::order::sort_edits;
use crate::order::sorted_by_point;
use crate::regfile::RegFile;
use crate::resolve::def_op_in;
use crate::resolve::use_op_in;
use crate::spill::frame_size;
use crate::spill::SpillSlots;
use crate::spill::with_slot;
use crate::state::AllocState;
use crate::state::before;
use crate::state::cfg_ok;
use crate::state::count_blocks;
use crate::state::count_insts;
use crate::state::count_ops;
use crate::state::first_fault;
use crate::state::fixes;
use crate::state::initial_state;
use crate::state::is_first_fault;
use crate::state::is_reuse_source;
use crate::state::located;
use crate::state::operand_fault;
use crate::state::Step;
use std::collections::HashMap;
use vstd::prelude::*;

verus! {

/// Whether what `result` and the state left behind say is what `expected`
/// says.
pub open spec fn agrees_step(
    result: Result<Allocation, RegAllocError>,
    after: AllocState,
    expected: Step,
) -> bool {
    match result {
        Ok(alloc) => expected == Ok::<(AllocState, Allocation), RegAllocError>((after, alloc)),
        Err(error) => expected == Err::<(AllocState, Allocation), RegAllocError>(error),
    }
}

/// Whether `result` and the state left behind say what `expected` says.
pub open spec fn agrees_state(
    result: Result<(), RegAllocError>,
    after: AllocState,
    expected: Result<AllocState, RegAllocError>,
) -> bool {
    match result {
        Ok(_) => expected == Ok::<AllocState, RegAllocError>(after),
        Err(error) => expected == Err::<AllocState, RegAllocError>(error),
    }
}

/// A copy of a list of registers.
pub fn copy_regs(regs: &Vec<u32>) -> (copy: Vec<u32>)
    ensures
        copy@ == regs@,
{
    let mut copy: Vec<u32> = Vec::new();
    let mut i: usize = 0;
    while i < regs.len()
        invariant
            i <= regs@.len(),
            copy@ == regs@.take(i as int),
        decreases regs@.len() - i,
    {
        copy.push(regs[i]);
        assert(regs@.take(i + 1) == regs@.take(i as int).push(regs@[i as int]));
        i += 1;
    }
    assert(regs@.take(regs@.len() as int) == regs@);
    copy
}

/// The fault of operand `k` of `ops`, if it has one.
pub fn check_operand(ops: &Vec<Operand>, k: usize) -> (fault: Option<RegAllocError>)
    requires
        k < ops@.len(),
    ensures
        fault == operand_fault(ops@, k as int),
{
    match ops[k].constraint {
        OperandConstraint::FixedReg(preg) => {
            let mut j: usize = 0;
            while j < k
                invariant
                    j <= k < ops@.len(),
                    ops@[k as int].constraint == OperandConstraint::FixedReg(preg),
                    forall|i: int|
                        0 <= i < j ==> !(fixes(#[trigger] ops@[i], preg) && ops@[i].vreg
                            != ops@[k as int].vreg),
                decreases k - j,
            {
                let fixed_here = match ops[j].constraint {
                    OperandConstraint::FixedReg(other) => other == preg,
                    _ => false,
                };
                if fixed_here && ops[j].vreg != ops[k].vreg {
                    return Some(RegAllocError::ConflictingFixedRegisters);
                }
                j += 1;
            }
            None
        },
        OperandConstraint::Reuse(source) => {
            if ops[k].kind == OperandKind::Def && source < ops.len() && ops[source].kind
                == OperandKind::Use && ops[source].vreg.class == ops[k].vreg.class {
                None
            } else {
                Some(RegAllocError::InvalidReuseConstraint)
            }
        },
        _ => None,
    }
}

/// The fault of the first operand of `ops` that has one.
pub fn check_operands(ops: &Vec<Operand>) -> (fault: Option<RegAllocError>)
    ensures
        fault == first_fault(ops@),
{
    let mut k: usize = 0;
    while k < ops.len()
        invariant
            k <= ops@.len(),
            forall|j: int| 0 <= j < k ==> operand_fault(ops@, j) is None,
        decreases ops@.len() - k,
    {
        let fault = check_operand(ops, k);
        if fault.is_some() {
            assert(is_first_fault(ops@, k as int));
            let ghost first = choose|first: int| is_first_fault(ops@, first);
            assert(first == k);
            return fault;
        }
        k += 1;
    }
    None
}

/// Whether some definition of `ops` reuses the location of operand `i`.
pub fn reused(ops: &Vec<Operand>, i: usize) -> (r: bool)
    ensures
        r == is_reuse_source(ops@, i as int),
{
    let mut d: usize = 0;
    while d < ops.len()
        invariant
            d <= ops@.len(),
            forall|j: int|
                0 <= j < d ==> !((#[trigger] ops@[j]).kind == OperandKind::Def && ops@[j].constraint
                    == OperandConstraint::Reuse(i)),
        decreases ops@.len() - d,
    {
        let names_i = match ops[d].constraint {
            OperandConstraint::Reuse(source) => source == i,
            _ => false,
        };
        if names_i && ops[d].kind == OperandKind::Def {
            return true;
        }
        d += 1;
    }
    false
}

/// A list of `n` locations that are not known yet.
pub fn unresolved(n: usize) -> (allocs: Vec<Option<Allocation>>)
    ensures
        allocs@ == Seq::new(n as nat, |i: int| None::<Allocation>),
{
    let mut allocs: Vec<Option<Allocation>> = Vec::new();
    while allocs.len() < n
        invariant
            allocs@.len() <= n,
            forall|i: int| 0 <= i < allocs@.len() ==> allocs@[i] is None,
        decreases n - allocs@.len(),
    {
        allocs.push(None);
    }
    assert(allocs@ =~= Seq::new(n as nat, |i: int| None::<Allocation>));
    allocs
}

/// Adds the uses among `ops` to `counts`.
pub fn count_ops_uses(counts: &mut HashMap<u32, usize>, ops: &Vec<Operand>)
    ensures
        final(counts)@ == count_ops(old(counts)@, ops@, 0),
{
    broadcast use vstd::std_specs::hash::group_hash_axioms;

    let ghost start = counts@;
    let mut i: usize = 0;
    while i < ops.len()
        invariant
            i <= ops@.len(),
            count_ops(start, ops@, 0) == count_ops(counts@, ops@, i as int),
        decreases ops@.len() - i,
    {
        if ops[i].kind == OperandKind::Use {
            let vreg = ops[i].vreg.id;
            let count = match counts.get(&vreg) {
                Some(count) => *count,
                None => 0,
            };
            let bumped = if count < usize::MAX {
                count + 1
            } else {
                count
            };
            counts.insert(vreg, bumped);
        }
        i += 1;
    }
}

/// For each virtual register, how often the walk over the blocks of
/// `cfginfo` will come to a use of it.
pub fn count_uses(func: &FuncBody, cfginfo: &CFGInfo) -> (counts: HashMap<u32, usize>)
    requires
        cfg_ok(cfginfo.postorder@, cfginfo.block_entry@, cfginfo.block_exit@, func.insts@.len()),
    ensures
        counts@ == count_blocks(
            Map::empty(),
            func.operands(),
            cfginfo.postorder@,
            cfginfo.block_entry@,
            cfginfo.block_exit@,
            0,
        ),
{
    let mut counts: HashMap<u32, usize> = HashMap::new();
    let ghost body = func.operands();
    let mut k: usize = 0;
    while k < cfginfo.postorder.len()
        invariant
            k <= cfginfo.postorder@.len(),
            body == func.operands(),
            cfg_ok(
                cfginfo.postorder@,
                cfginfo.block_entry@,
                cfginfo.block_exit@,
                func.insts@.len(),
            ),
            count_blocks(
                Map::empty(),
                body,
                cfginfo.postorder@,
                cfginfo.block_entry@,
                cfginfo.block_exit@,
                0,
            ) == count_blocks(
                counts@,
                body,
                cfginfo.postorder@,
                cfginfo.block_entry@,
                cfginfo.block_exit@,
                k as int,
            ),
        decreases cfginfo.postorder@.len() - k,
    {
        let block = cfginfo.postorder[k];
        let end = cfginfo.block_exit[block].inst;
        let ghost first = cfginfo.block_entry@[block as int].inst as int;
        let ghost before_block = counts@;
        let mut inst = cfginfo.block_entry[block].inst;
        while inst < end
            invariant
                inst <= end <= func.insts@.len(),
                body == func.operands(),
                count_insts(before_block, body, first, end as int) == count_insts(
                    counts@,
                    body,
                    inst as int,
                    end as int,
                ),
            decreases end - inst,
        {
            count_ops_uses(&mut counts, &func.insts[inst]);
            inst += 1;
        }
        k += 1;
    }
    counts
}

/// The state of one run over one function.
pub struct Env<'a> {
    func: &'a FuncBody,
    env: &'a MachineEnv,
    cfginfo: &'a CFGInfo,
    /// The residency tracker of each class.
    int: RegFile,
    float: RegFile,
    vector: RegFile,
    /// The spill slot allocator.
    slots: SpillSlots,
    /// The edits made so far.
    edits: Edits,
    /// For each virtual register, how many of its uses are yet to come.
    uses_left: HashMap<u32, usize>,
    // Output:
    allocs: Vec<Allocation>,
    inst_alloc_offsets: Vec<usize>,
    enable_annotations: bool,
}

impl<'a> View for Env<'a> {
    type V = AllocState;

    closed spec fn view(&self) -> AllocState {
        AllocState {
            int: self.int@,
            float: self.float@,
            vector: self.vector@,
            slots: self.slots@,
            edits: self.edits@,
            allocs: self.allocs@,
            offsets: self.inst_alloc_offsets@,
            uses_left: self.uses_left@,
        }
    }
}

impl<'a> Env<'a> {
    /// The operands of the function, instruction by instruction.
    pub closed spec fn body(&self) -> Seq<Seq<Operand>> {
        self.func.operands()
    }

    /// The control flow information of the function.
    pub closed spec fn cfg(&self) -> CFGInfo {
        *self.cfginfo
    }

    /// The invariant of the run: the parts satisfy theirs, and every
    /// instruction has its place in the table of offsets.
    pub closed spec fn wf(&self) -> bool {
        &&& self.int.wf()
        &&& self.float.wf()
        &&& self.vector.wf()
        &&& self.slots.wf()
        &&& self@.wf()
        &&& self.inst_alloc_offsets@.len() == self.func.insts@.len()
    }

    /// A call leaves the function and its control flow as they were.
    pub open spec fn same_input(&self, other: &Self) -> bool {
        self.body() == other.body() && self.cfg() == other.cfg()
    }

    /// The invariant of the state holds during the whole run.
    pub proof fn lemma_wf(&self)
        requires
            self.wf(),
        ensures
            self@.wf(),
            self@.offsets.len() == self.body().len(),
    {
    }

    /// The state in which the run over `func` on the machine `env` begins.
    pub fn new(func: &'a FuncBody, env: &'a MachineEnv, cfginfo: &'a CFGInfo, enable_annotations: bool) -> (run: Self)
        requires
            cfg_ok(
                cfginfo.postorder@,
                cfginfo.block_entry@,
                cfginfo.block_exit@,
                func.insts@.len(),
            ),
        ensures
            run.wf(),
            run.body() == func.operands(),
            run.cfg() == *cfginfo,
            run@ == initial_state(
                env.int_regs@,
                env.float_regs@,
                env.vector_regs@,
                func.insts@.len(),
                count_blocks(
                    Map::empty(),
                    func.operands(),
                    cfginfo.postorder@,
                    cfginfo.block_entry@,
                    cfginfo.block_exit@,
                    0,
                ),
            ),
    {
        let mut inst_alloc_offsets: Vec<usize> = Vec::new();
        while inst_alloc_offsets.len() < func.insts.len()
            invariant
                inst_alloc_offsets@.len() <= func.insts@.len(),
                forall|i: int| 0 <= i < inst_alloc_offsets@.len() ==> inst_alloc_offsets@[i] == 0,
            decreases func.insts@.len() - inst_alloc_offsets@.len(),
        {
            inst_alloc_offsets.push(0);
        }
        assert(inst_alloc_offsets@ =~= Seq::new(func.insts@.len(), |i: int| 0usize));
        Self {
            func,
            env,
            cfginfo,
            int: RegFile::new(RegClass::Int, copy_regs(&env.int_regs)),
            float: RegFile::new(RegClass::Float, copy_regs(&env.float_regs)),
            vector: RegFile::new(RegClass::Vector, copy_regs(&env.vector_regs)),
            slots: SpillSlots::new(),
            edits: Edits::new(),
            uses_left: count_uses(func, cfginfo),
            allocs: Vec::new(),
            inst_alloc_offsets,
            enable_annotations,
        }
    }

    /// Gives `vreg` its stack slot, sized for `regclass`, if it has none.
    pub fn add_variable(&mut self, vreg: VReg, regclass: RegClass)
        requires
            old(self).wf(),
        ensures
            final(self).wf(),
            final(self).same_input(old(self)),
            final(self)@ == (AllocState {
                slots: with_slot(old(self)@.slots, vreg.id, regclass),
                ..old(self)@
            }),
    {
        let _ = self.slots.slot_for(vreg.id, regclass);
        proof {
            self.slots.lemma_wf();
        }
    }

    /// Resolves the use operand `op`; its edits go to `point`.
    pub fn use_op(&mut self, op: Operand, point: ProgPoint) -> (result: Result<
        Allocation,
        RegAllocError,
    >)
        requires
            old(self).wf(),
        ensures
            result is Ok ==> final(self).wf(),
            final(self).same_input(old(self)),
            agrees_step(result, final(self)@, old(self)@.use_op(op, point)),
    {
        let result = match op.vreg.class {
            RegClass::Int => use_op_in(&mut self.int, &mut self.slots, &mut self.edits, op, point),
            RegClass::Float => use_op_in(
                &mut self.float,
                &mut self.slots,
                &mut self.edits,
                op,
                point,
            ),
            RegClass::Vector => use_op_in(
                &mut self.vector,
                &mut self.slots,
                &mut self.edits,
                op,
                point,
            ),
        };
        proof {
            reveal(AllocState::use_op);
            reveal(AllocState::def_op);
            self.slots.lemma_wf();
            self.int.lemma_wf();
            self.float.lemma_wf();
            self.vector.lemma_wf();
        }
        result
    }

    /// Resolves the definition operand `op`; its edits go to `point`, and
    /// `source` is the location that a `Reuse` constraint names.
    pub fn def_op(&mut self, op: Operand, point: ProgPoint, source: Option<Allocation>) -> (result:
        Result<Allocation, RegAllocError>)
        requires
            old(self).wf(),
        ensures
            result is Ok ==> final(self).wf(),
            final(self).same_input(old(self)),
            agrees_step(result, final(self)@, old(self)@.def_op(op, point, source)),
    {
        let result = match op.vreg.class {
            RegClass::Int => def_op_in(
                &mut self.int,
                &mut self.slots,
                &mut self.edits,
                op,
                point,
                source,
            ),
            RegClass::Float => def_op_in(
                &mut self.float,
                &mut self.slots,
                &mut self.edits,
                op,
                point,
                source,
            ),
            RegClass::Vector => def_op_in(
                &mut self.vector,
                &mut self.slots,
                &mut self.edits,
                op,
                point,
                source,
            ),
        };
        proof {
            reveal(AllocState::use_op);
            reveal(AllocState::def_op);
            self.slots.lemma_wf();
            self.int.lemma_wf();
            self.float.lemma_wf();
            self.vector.lemma_wf();
        }
        result
    }

    /// Pins `preg` in the tracker of its class.
    pub fn pin(&mut self, preg: PReg)
        requires
            old(self).wf(),
        ensures
            final(self).wf(),
            final(self).same_input(old(self)),
            final(self)@ == old(self)@.pin(preg),
    {
        match preg.class {
            RegClass::Int => self.int.pin(preg.hw_enc),
            RegClass::Float => self.float.pin(preg.hw_enc),
            RegClass::Vector => self.vector.pin(preg.hw_enc),
        }
        proof {
            self.int.lemma_wf();
            self.float.lemma_wf();
            self.vector.lemma_wf();
        }
    }

    /// Tells the trackers that instruction `inst` is at hand.
    pub fn begin(&mut self, inst: usize)
        requires
            old(self).wf(),
        ensures
            final(self).wf(),
            final(self).same_input(old(self)),
            final(self)@ == old(self)@.begin(inst as int),
    {
        self.int.begin(inst);
        self.float.begin(inst);
        self.vector.begin(inst);
        proof {
            self.int.lemma_wf();
            self.float.lemma_wf();
            self.vector.lemma_wf();
        }
    }

    /// Releases the pins of every class.
    pub fn release_pins(&mut self)
        requires
            old(self).wf(),
        ensures
            final(self).wf(),
            final(self).same_input(old(self)),
            final(self)@ == old(self)@.release_pins(),
    {
        self.int.release_pins();
        self.float.release_pins();
        self.vector.release_pins();
        proof {
            self.int.lemma_wf();
            self.float.lemma_wf();
            self.vector.lemma_wf();
        }
    }
}

impl<'a> Env<'a> {
    /// Notes that the walk has passed one use of `vreg`: a value with no
    /// use left gives up its register.
    pub fn retire_use(&mut self, vreg: VReg)
        requires
            old(self).wf(),
        ensures
            final(self).wf(),
            final(self).same_input(old(self)),
            final(self)@ == old(self)@.retire_use(vreg),
    {
        broadcast use vstd::std_specs::hash::group_hash_axioms;

        let left = match self.uses_left.get(&vreg.id) {
            Some(left) => *left,
            None => 0,
        };
        if left <= 1 {
            self.uses_left.insert(vreg.id, 0);
            match vreg.class {
                RegClass::Int => {
                    let _ = self.int.remove(vreg.id);
                },
                RegClass::Float => {
                    let _ = self.float.remove(vreg.id);
                },
                RegClass::Vector => {
                    let _ = self.vector.remove(vreg.id);
                },
            }
            proof {
                self.int.lemma_wf();
                self.float.lemma_wf();
                self.vector.lemma_wf();
            }
        } else {
            self.uses_left.insert(vreg.id, left - 1);
        }
    }

    /// Notes that the walk has passed the uses among `ops`.
    fn retire_uses(&mut self, ops: &Vec<Operand>)
        requires
            old(self).wf(),
        ensures
            final(self).wf(),
            final(self).same_input(old(self)),
            final(self)@ == old(self)@.retire_uses(ops@, 0),
    {
        let ghost start = self@;
        let ghost body = self.body();
        let ghost cfg = self.cfg();
        let mut i: usize = 0;
        while i < ops.len()
            invariant
                i <= ops@.len(),
                self.wf(),
                self.body() == body,
                self.cfg() == cfg,
                start.retire_uses(ops@, 0) == self@.retire_uses(ops@, i as int),
            decreases ops@.len() - i,
        {
            if ops[i].kind == OperandKind::Use {
                self.retire_use(ops[i].vreg);
            }
            i += 1;
        }
    }

    /// Pins every register that an operand of `ops` fixes.
    fn pin_fixed(&mut self, ops: &Vec<Operand>)
        requires
            old(self).wf(),
        ensures
            final(self).wf(),
            final(self).same_input(old(self)),
            final(self)@ == old(self)@.pin_fixed(ops@),
    {
        let ghost start = self@;
        let ghost body = self.body();
        let ghost cfg = self.cfg();
        let mut k: usize = 0;
        while k < ops.len()
            invariant
                k <= ops@.len(),
                self.wf(),
                self.body() == body,
                self.cfg() == cfg,
                self@ == start.pin_fixed(ops@.take(k as int)),
            decreases ops@.len() - k,
        {
            assert(ops@.take(k + 1).drop_last() == ops@.take(k as int));
            if let OperandConstraint::FixedReg(preg) = ops[k].constraint {
                self.pin(preg);
            }
            k += 1;
        }
        assert(ops@.take(ops@.len() as int) == ops@);
    }

    /// Resolves the uses among `ops` in operand order and notes their
    /// locations in `allocs`.
    #[verifier::loop_isolation(false)]
    fn resolve_uses(&mut self, ops: &Vec<Operand>, point: ProgPoint, allocs: &mut Vec<
        Option<Allocation>,
    >) -> (result: Result<(), RegAllocError>)
        requires
            old(self).wf(),
            old(allocs)@.len() == ops@.len(),
        ensures
            final(self).same_input(old(self)),
            match result {
                Ok(_) => {
                    &&& final(self).wf()
                    &&& old(self)@.uses_from(ops@, point, old(allocs)@, 0) == Ok::<
                        (AllocState, Seq<Option<Allocation>>),
                        RegAllocError,
                    >((final(self)@, final(allocs)@))
                    &&& final(allocs)@.len() == ops@.len()
                    &&& forall|j: int|
                        0 <= j < ops@.len() ==> (ops@[j].kind == OperandKind::Use
                            ==> #[trigger] final(allocs)@[j] is Some)
                    &&& forall|j: int|
                        0 <= j < ops@.len() ==> (ops@[j].kind != OperandKind::Use
                            ==> #[trigger] final(allocs)@[j] == old(allocs)@[j])
                },
                Err(error) => old(self)@.uses_from(ops@, point, old(allocs)@, 0) == Err::<
                    (AllocState, Seq<Option<Allocation>>),
                    RegAllocError,
                >(error),
            },
    {
        let ghost start = self@;
        let ghost given = allocs@;
        let ghost body = self.body();
        let ghost cfg = self.cfg();
        let mut i: usize = 0;
        while i < ops.len()
            invariant
                i <= ops@.len(),
                self.wf(),
                self.body() == body,
                self.cfg() == cfg,
                allocs@.len() == ops@.len(),
                start.uses_from(ops@, point, given, 0) == self@.uses_from(
                    ops@,
                    point,
                    allocs@,
                    i as int,
                ),
                forall|j: int|
                    0 <= j < i ==> (ops@[j].kind == OperandKind::Use ==> #[trigger] allocs@[j] is Some),
                forall|j: int|
                    0 <= j < ops@.len() ==> (ops@[j].kind != OperandKind::Use
                        ==> #[trigger] allocs@[j] == given[j]),
            decreases ops@.len() - i,
        {
            if ops[i].kind == OperandKind::Use {
                match self.use_op(ops[i], point) {
                    Ok(alloc) => {
                        if let Allocation::Reg(preg) = alloc {
                            if reused(ops, i) {
                                self.pin(preg);
                            }
                        }
                        allocs.set(i, Some(alloc));
                    },
                    Err(error) => {
                        return Err(error);
                    },
                }
            }
            i += 1;
        }
        Ok(())
    }

    /// Resolves the definitions among `ops` in operand order and notes
    /// their locations in `allocs`, which holds those of the uses.
    #[verifier::loop_isolation(false)]
    fn resolve_defs(&mut self, ops: &Vec<Operand>, point: ProgPoint, allocs: &mut Vec<
        Option<Allocation>,
    >) -> (result: Result<(), RegAllocError>)
        requires
            old(self).wf(),
            old(allocs)@.len() == ops@.len(),
        ensures
            final(self).same_input(old(self)),
            match result {
                Ok(_) => {
                    &&& final(self).wf()
                    &&& old(self)@.defs_from(ops@, point, old(allocs)@, 0) == Ok::<
                        (AllocState, Seq<Option<Allocation>>),
                        RegAllocError,
                    >((final(self)@, final(allocs)@))
                    &&& final(allocs)@.len() == ops@.len()
                    &&& forall|j: int|
                        0 <= j < ops@.len() ==> (ops@[j].kind == OperandKind::Def
                            ==> #[trigger] final(allocs)@[j] is Some)
                    &&& forall|j: int|
                        0 <= j < ops@.len() ==> (ops@[j].kind != OperandKind::Def
                            ==> #[trigger] final(allocs)@[j] == old(allocs)@[j])
                },
                Err(error) => old(self)@.defs_from(ops@, point, old(allocs)@, 0) == Err::<
                    (AllocState, Seq<Option<Allocation>>),
                    RegAllocError,
                >(error),
            },
    {
        let ghost start = self@;
        let ghost given = allocs@;
        let ghost body = self.body();
        let ghost cfg = self.cfg();
        let mut i: usize = 0;
        while i < ops.len()
            invariant
                i <= ops@.len(),
                self.wf(),
                self.body() == body,
                self.cfg() == cfg,
                allocs@.len() == ops@.len(),
                start.defs_from(ops@, point, given, 0) == self@.defs_from(
                    ops@,
                    point,
                    allocs@,
                    i as int,
                ),
                forall|j: int|
                    0 <= j < i ==> (ops@[j].kind == OperandKind::Def ==> #[trigger] allocs@[j] is Some),
                forall|j: int|
                    0 <= j < ops@.len() ==> (ops@[j].kind != OperandKind::Def
                        ==> #[trigger] allocs@[j] == given[j]),
            decreases ops@.len() - i,
        {
            if ops[i].kind == OperandKind::Def {
                let source = match ops[i].constraint {
                    OperandConstraint::Reuse(source) => {
                        if source < allocs.len() {
                            allocs[source]
                        } else {
                            None
                        }
                    },
                    _ => None,
                };
                match self.def_op(ops[i], point, source) {
                    Ok(alloc) => {
                        allocs.set(i, Some(alloc));
                    },
                    Err(error) => {
                        return Err(error);
                    },
                }
            }
            i += 1;
        }
        Ok(())
    }

    /// Adds the locations of the operands of instruction `inst` to the
    /// output.
    fn record(&mut self, inst: usize, allocs: &Vec<Option<Allocation>>)
        requires
            old(self).wf(),
            inst < old(self).body().len(),
            forall|j: int| 0 <= j < allocs@.len() ==> #[trigger] allocs@[j] is Some,
        ensures
            final(self).wf(),
            final(self).same_input(old(self)),
            final(self)@ == old(self)@.record(inst as int, located(allocs@)),
    {
        let ghost start = self@;
        let ghost body = self.body();
        let ghost cfg = self.cfg();
        let base = self.allocs.len();
        self.inst_alloc_offsets.set(inst, base);
        let mut j: usize = 0;
        while j < allocs.len()
            invariant
                j <= allocs@.len(),
                self.wf(),
                self.body() == body,
                self.cfg() == cfg,
                forall|j: int| 0 <= j < allocs@.len() ==> #[trigger] allocs@[j] is Some,
                self@ == (AllocState {
                    offsets: start.offsets.update(inst as int, base),
                    allocs: start.allocs + located(allocs@).take(j as int),
                    ..start
                }),
            decreases allocs@.len() - j,
        {
            let alloc = allocs[j].unwrap();
            self.allocs.push(alloc);
            assert(start.allocs + located(allocs@).take(j + 1) == (start.allocs + located(
                allocs@,
            ).take(j as int)).push(alloc));
            j += 1;
        }
        assert(located(allocs@).take(allocs@.len() as int) == located(allocs@));
    }

    /// Resolves the operands of instruction `inst` and adds their
    /// locations to the output.
    pub fn process_inst(&mut self, inst: usize) -> (result: Result<(), RegAllocError>)
        requires
            old(self).wf(),
            inst < old(self).body().len(),
        ensures
            result is Ok ==> final(self).wf(),
            final(self).same_input(old(self)),
            agrees_state(
                result,
                final(self)@,
                old(self)@.process_inst(old(self).body()[inst as int], inst as int),
            ),
    {
        proof {
            reveal(AllocState::resolve_inst);
        }
        let func = self.func;
        let ops = &func.insts[inst];
        if let Some(error) = check_operands(ops) {
            return Err(error);
        }
        self.begin(inst);
        self.pin_fixed(ops);
        let point = ProgPoint::before(inst);
        let mut allocs = unresolved(ops.len());
        match self.resolve_uses(ops, point, &mut allocs) {
            Ok(_) => {},
            Err(error) => {
                return Err(error);
            },
        }
        self.retire_uses(ops);
        match self.resolve_defs(ops, point, &mut allocs) {
            Ok(_) => {},
            Err(error) => {
                return Err(error);
            },
        }
        self.release_pins();
        self.record(inst, &allocs);
        Ok(())
    }

    /// Processes the instructions of block `block` from its entry point to
    /// its exit point.
    #[verifier::loop_isolation(false)]
    pub fn process_block(&mut self, block: usize) -> (result: Result<(), RegAllocError>)
        requires
            old(self).wf(),
            block < old(self).cfg().block_entry@.len(),
            block < old(self).cfg().block_exit@.len(),
            old(self).cfg().block_entry@[block as int].inst <= old(self).cfg().block_exit@[block as int].inst,
            old(self).cfg().block_exit@[block as int].inst <= old(self).body().len(),
        ensures
            result is Ok ==> final(self).wf(),
            final(self).same_input(old(self)),
            agrees_state(
                result,
                final(self)@,
                old(self)@.process_insts(
                    old(self).body(),
                    old(self).cfg().block_entry@[block as int].inst as int,
                    old(self).cfg().block_exit@[block as int].inst as int,
                ),
            ),
    {
        let entry_progpoint = self.cfginfo.block_entry[block];
        let exit_progpoint = self.cfginfo.block_exit[block];
        let ghost start = self@;
        let ghost body = self.body();
        let ghost cfg = self.cfg();
        let end = exit_progpoint.inst();
        let mut inst = entry_progpoint.inst();
        while inst != end
            invariant
                inst <= end <= body.len(),
                self.wf(),
                self.body() == body,
                self.cfg() == cfg,
                start.process_insts(body, cfg.block_entry@[block as int].inst as int, end as int)
                    == self@.process_insts(body, inst as int, end as int),
            decreases end - inst,
        {
            match self.process_inst(inst) {
                Ok(_) => {},
                Err(error) => {
                    return Err(error);
                },
            }
            inst += 1;
        }
        Ok(())
    }

    /// Processes the blocks in the order of the control flow information.
    #[verifier::loop_isolation(false)]
    pub fn run(&mut self) -> (result: Result<(), RegAllocError>)
        requires
            old(self).wf(),
            cfg_ok(
                old(self).cfg().postorder@,
                old(self).cfg().block_entry@,
                old(self).cfg().block_exit@,
                old(self).body().len(),
            ),
        ensures
            result is Ok ==> final(self).wf(),
            final(self).same_input(old(self)),
            agrees_state(
                result,
                final(self)@,
                old(self)@.process_blocks(
                    old(self).body(),
                    old(self).cfg().postorder@,
                    old(self).cfg().block_entry@,
                    old(self).cfg().block_exit@,
                    0,
                ),
            ),
    {
        let ghost start = self@;
        let ghost body = self.body();
        let ghost cfg = self.cfg();
        let mut k: usize = 0;
        while k < self.cfginfo.postorder.len()
            invariant
                k <= cfg.postorder@.len(),
                self.wf(),
                self.body() == body,
                self.cfg() == cfg,
                cfg_ok(cfg.postorder@, cfg.block_entry@, cfg.block_exit@, body.len()),
                start.process_blocks(body, cfg.postorder@, cfg.block_entry@, cfg.block_exit@, 0)
                    == self@.process_blocks(
                    body,
                    cfg.postorder@,
                    cfg.block_entry@,
                    cfg.block_exit@,
                    k as int,
                ),
            decreases cfg.postorder@.len() - k,
        {
            let block = self.cfginfo.postorder[k];
            match self.process_block(block) {
                Ok(_) => {},
                Err(error) => {
                    return Err(error);
                },
            }
            k += 1;
        }
        Ok(())
    }
}

/// Whether the control flow information fits a function of `num_insts`
/// instructions.
pub fn check_cfg(cfginfo: &CFGInfo, num_insts: usize) -> (ok: bool)
    ensures
        ok == cfg_ok(cfginfo.postorder@, cfginfo.block_entry@, cfginfo.block_exit@, num_insts as nat),
{
    if cfginfo.block_entry.len() != cfginfo.block_exit.len() {
        return false;
    }
    let mut k: usize = 0;
    while k < cfginfo.postorder.len()
        invariant
            k <= cfginfo.postorder@.len(),
            cfginfo.block_entry@.len() == cfginfo.block_exit@.len(),
            cfg_ok(
                cfginfo.postorder@.take(k as int),
                cfginfo.block_entry@,
                cfginfo.block_exit@,
                num_insts as nat,
            ),
        decreases cfginfo.postorder@.len() - k,
    {
        let block = cfginfo.postorder[k];
        if block >= cfginfo.block_entry.len() || cfginfo.block_entry[block].inst
            > cfginfo.block_exit[block].inst || cfginfo.block_exit[block].inst > num_insts {
            return false;
        }
        assert forall|j: int| 0 <= j < k + 1 implies {
            &&& (#[trigger] cfginfo.postorder@.take(k + 1)[j]) < cfginfo.block_entry@.len()
            &&& cfginfo.block_entry@[cfginfo.postorder@.take(k + 1)[j] as int].inst
                <= cfginfo.block_exit@[cfginfo.postorder@.take(k + 1)[j] as int].inst
            &&& cfginfo.block_exit@[cfginfo.postorder@.take(k + 1)[j] as int].inst <= num_insts
        } by {
            if j < k {
                assert(cfginfo.postorder@.take(k as int)[j] == cfginfo.postorder@[j]);
            }
        }
        k += 1;
    }
    assert(cfginfo.postorder@.take(cfginfo.postorder@.len() as int) == cfginfo.postorder@);
    true
}

/// The state in which the run over `func` ends, or the reason why it
/// fails: the control flow information is checked first, then the blocks
/// are processed in its order, starting with nothing resident and no slot.
pub open spec fn allocate(func: FuncBody, cfginfo: CFGInfo, mach_env: MachineEnv) -> Result<
    AllocState,
    RegAllocError,
> {
    if !cfg_ok(cfginfo.postorder@, cfginfo.block_entry@, cfginfo.block_exit@, func.insts@.len()) {
        Err(RegAllocError::InvalidCFG)
    } else {
        initial_state(
            mach_env.int_regs@,
            mach_env.float_regs@,
            mach_env.vector_regs@,
            func.insts@.len(),
            count_blocks(
                Map::empty(),
                func.operands(),
                cfginfo.postorder@,
                cfginfo.block_entry@,
                cfginfo.block_exit@,
                0,
            ),
        ).process_blocks(
            func.operands(),
            cfginfo.postorder@,
            cfginfo.block_entry@,
            cfginfo.block_exit@,
            0,
        )
    }
}

/// `output` is what a run that ends in `state` reports: the number of its
/// slots, its edits in program order (those of one point in the order in
/// which they were made), the locations and their offsets as they are, and
/// nothing on safepoints and debug locations.
pub open spec fn assembled(output: Output, state: AllocState) -> bool {
    &&& output.num_spillslots == state.slots.len()
    &&& sorted_by_point(output.edits@)
    &&& same_order_at_points(output.edits@, state.edits)
    &&& output.edits@.len() == state.edits.len()
    &&& output.allocs@ == state.allocs
    &&& output.inst_alloc_offsets@ == state.offsets
    &&& output.safepoint_slots@.len() == 0
    &&& output.debug_locations@.len() == 0
    &&& output.stats == (Stats {
        edits: state.edits.len() as usize,
        allocations: state.allocs.len() as usize,
        frame_bytes: frame_size(state.slots) as u64,
    })
}

/// Allocates the function `func`, whose control flow `cfginfo` describes,
/// on the machine `mach_env`.
///
/// The result is the output of the run that `allocate` describes, or the
/// error on which that run ends.
pub fn run(func: &FuncBody, cfginfo: &CFGInfo, mach_env: &MachineEnv, enable_annotations: bool) -> (result:
    Result<Output, RegAllocError>)
    ensures
        match result {
            Ok(output) => allocate(*func, *cfginfo, *mach_env) matches Ok(state) && assembled(
                output,
                state,
            ),
            Err(error) => allocate(*func, *cfginfo, *mach_env) == Err::<AllocState, RegAllocError>(
                error,
            ),
        },
{
    if !check_cfg(cfginfo, func.insts.len()) {
        return Err(RegAllocError::InvalidCFG);
    }
    let mut env = Env::new(func, mach_env, cfginfo, enable_annotations);
    match env.run() {
        Ok(_) => {},
        Err(error) => {
            return Err(error);
        },
    }
    let ghost state = env@;
    let Env { slots, edits, allocs, inst_alloc_offsets, .. } = env;
    let edits = sort_edits(edits.to_vec());
    Ok(
        Output {
            num_spillslots: slots.count(),
            stats: Stats {
                edits: edits.len(),
                allocations: allocs.len(),
                frame_bytes: slots.frame_bytes(),
            },
            edits,
            allocs,
            inst_alloc_offsets,
            safepoint_slots: Vec::new(),
            debug_locations: Vec::new(),
        },
    )
}

} // verus!
