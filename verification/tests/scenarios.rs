use fastalloc::fast::run;
use fastalloc::model::Allocation;
use fastalloc::model::CFGInfo;
use fastalloc::model::Edit;
use fastalloc::model::FuncBody;
use fastalloc::model::MachineEnv;
use fastalloc::model::Operand;
use fastalloc::model::OperandConstraint;
use fastalloc::model::Output;
use fastalloc::model::PReg;
use fastalloc::model::ProgPoint;
use fastalloc::model::RegAllocError;
use fastalloc::model::RegClass;
use fastalloc::model::VReg;

fn v(id: u32) -> VReg {
    VReg::new(id, RegClass::Int)
}

fn p(hw_enc: u32) -> PReg {
    PReg::new(hw_enc, RegClass::Int)
}

fn int_machine(regs: Vec<u32>) -> MachineEnv {
    MachineEnv::new(regs, Vec::new(), Vec::new())
}

/// One block that holds all the instructions.
fn straight_line(insts: Vec<Vec<Operand>>) -> (FuncBody, CFGInfo) {
    let n = insts.len();
    (
        FuncBody::new(insts),
        CFGInfo::new(vec![0], vec![ProgPoint::before(0)], vec![ProgPoint::before(n)]),
    )
}

fn allocate(insts: Vec<Vec<Operand>>, regs: Vec<u32>) -> Result<Output, RegAllocError> {
    let (func, cfg) = straight_line(insts);
    run(&func, &cfg, &int_machine(regs), false)
}

fn alloc_of(out: &Output, inst: usize, operand: usize) -> Allocation {
    out.allocs[out.inst_alloc_offsets[inst] + operand]
}

#[test]
fn one_register_spills_and_reloads() {
    let out = allocate(
        vec![
            vec![Operand::new_def(v(0), OperandConstraint::Reg)],
            vec![Operand::new_use(v(0), OperandConstraint::Reg)],
            vec![Operand::new_def(v(1), OperandConstraint::Reg)],
            vec![Operand::new_use(v(1), OperandConstraint::Reg)],
            vec![Operand::new_use(v(0), OperandConstraint::Reg)],
        ],
        vec![0],
    )
    .unwrap();
    assert_eq!(out.num_spillslots, 1);
    assert_eq!(
        out.edits,
        vec![
            (
                ProgPoint::before(2),
                Edit::Move { from: Allocation::Reg(p(0)), to: Allocation::Stack(0) },
            ),
            (
                ProgPoint::before(4),
                Edit::Move { from: Allocation::Stack(0), to: Allocation::Reg(p(0)) },
            ),
        ]
    );
    assert_eq!(out.allocs, vec![Allocation::Reg(p(0)); 5]);
    assert_eq!(out.inst_alloc_offsets, vec![0, 1, 2, 3, 4]);
    assert_eq!(out.stats.edits, 2);
    assert_eq!(out.stats.allocations, 5);
    assert_eq!(out.stats.frame_bytes, 4);
    assert!(out.safepoint_slots.is_empty());
    assert!(out.debug_locations.is_empty());
}

#[test]
fn fixed_use_in_place_needs_no_move_and_pins_its_register() {
    let insts = vec![
        vec![Operand::new_def(v(2), OperandConstraint::FixedReg(p(0)))],
        vec![
            Operand::new_use(v(2), OperandConstraint::FixedReg(p(0))),
            Operand::new_def(v(3), OperandConstraint::Reg),
        ],
    ];
    let out = allocate(insts.clone(), vec![0, 1]).unwrap();
    assert!(out.edits.is_empty());
    assert_eq!(alloc_of(&out, 1, 0), Allocation::Reg(p(0)));
    assert_eq!(alloc_of(&out, 1, 1), Allocation::Reg(p(1)));
    assert_eq!(out.num_spillslots, 0);

    assert_eq!(allocate(insts, vec![0]).unwrap_err(), RegAllocError::OutOfRegisters);
}

#[test]
fn reuse_takes_the_location_of_its_source() {
    let out = allocate(
        vec![
            vec![Operand::new_def(v(4), OperandConstraint::Reg)],
            vec![
                Operand::new_use(v(4), OperandConstraint::Reg),
                Operand::new_def(v(5), OperandConstraint::Reuse(0)),
            ],
            vec![Operand::new_use(v(5), OperandConstraint::Reg)],
        ],
        vec![7, 8],
    )
    .unwrap();
    assert_eq!(alloc_of(&out, 1, 0), Allocation::Reg(p(7)));
    assert_eq!(alloc_of(&out, 1, 1), alloc_of(&out, 1, 0));
    assert_eq!(alloc_of(&out, 2, 0), Allocation::Reg(p(7)));
    assert_eq!(out.num_spillslots, 0);
    assert!(out.edits.is_empty());
}

#[test]
fn stack_use_of_a_value_never_in_a_register_makes_no_edit() {
    let out = allocate(vec![vec![Operand::new_use(v(6), OperandConstraint::Stack)]], vec![0]).unwrap();
    assert_eq!(out.allocs, vec![Allocation::Stack(0)]);
    assert!(out.edits.is_empty());
    assert_eq!(out.num_spillslots, 1);

    let out = allocate(
        vec![
            vec![Operand::new_def(v(6), OperandConstraint::Stack)],
            vec![Operand::new_use(v(6), OperandConstraint::Stack)],
        ],
        vec![0],
    )
    .unwrap();
    assert_eq!(out.allocs, vec![Allocation::Stack(0), Allocation::Stack(0)]);
    assert!(out.edits.is_empty());
    assert_eq!(out.num_spillslots, 1);
}

#[test]
fn two_values_fixed_to_one_register_conflict() {
    let result = allocate(
        vec![
            vec![
                Operand::new_use(v(1), OperandConstraint::FixedReg(p(0))),
                Operand::new_use(v(2), OperandConstraint::FixedReg(p(0))),
            ],
        ],
        vec![0, 1],
    );
    assert_eq!(result.unwrap_err(), RegAllocError::ConflictingFixedRegisters);
}
