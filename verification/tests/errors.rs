use fastalloc::fast::run;
use fastalloc::model::CFGInfo;
use fastalloc::model::FuncBody;
use fastalloc::model::MachineEnv;
use fastalloc::model::Operand;
use fastalloc::model::OperandConstraint;
use fastalloc::model::PReg;
use fastalloc::model::ProgPoint;
use fastalloc::model::RegAllocError;
use fastalloc::model::RegClass;
use fastalloc::model::VReg;

fn v(id: u32) -> VReg {
    VReg::new(id, RegClass::Int)
}

fn p(hw_enc: u32) -> PReg {
    PReg::new(hw_enc, RegClass::Int)
}

fn failure(insts: Vec<Vec<Operand>>, regs: Vec<u32>) -> RegAllocError {
    let n = insts.len();
    let func = FuncBody::new(insts);
    let cfg = CFGInfo::new(vec![0], vec![ProgPoint::before(0)], vec![ProgPoint::before(n)]);
    run(&func, &cfg, &MachineEnv::new(regs, Vec::new(), Vec::new()), false).unwrap_err()
}

fn cfg_failure(postorder: Vec<usize>, entry: Vec<usize>, exit: Vec<usize>) -> Option<RegAllocError> {
    let func = FuncBody::new(vec![
        vec![Operand::new_def(v(0), OperandConstraint::Reg)],
        vec![Operand::new_use(v(0), OperandConstraint::Reg)],
    ]);
    let cfg = CFGInfo::new(
        postorder,
        entry.into_iter().map(ProgPoint::before).collect(),
        exit.into_iter().map(ProgPoint::before).collect(),
    );
    run(&func, &cfg, &MachineEnv::new(vec![0], Vec::new(), Vec::new()), false).err()
}

#[test]
fn block_boundaries_that_do_not_fit_are_an_invalid_cfg() {
    assert_eq!(cfg_failure(vec![0], vec![0], vec![2]), None);
    // a block that ends behind the last instruction
    assert_eq!(cfg_failure(vec![0], vec![0], vec![3]), Some(RegAllocError::InvalidCFG));
    // a block that ends before it begins
    assert_eq!(cfg_failure(vec![0], vec![2], vec![1]), Some(RegAllocError::InvalidCFG));
    // a block without boundaries
    assert_eq!(cfg_failure(vec![1], vec![0], vec![2]), Some(RegAllocError::InvalidCFG));
    // entries and exits that do not pair up
    assert_eq!(cfg_failure(vec![0], vec![0, 1], vec![2]), Some(RegAllocError::InvalidCFG));
    // boundaries of a block that is not walked are not looked at
    assert_eq!(cfg_failure(vec![0], vec![0, 9], vec![2, 1]), None);
    // an empty walk is fine
    assert_eq!(cfg_failure(Vec::new(), Vec::new(), Vec::new()), None);
}

#[test]
fn an_invalid_cfg_is_found_before_anything_else() {
    let func = FuncBody::new(vec![vec![Operand::new_use(v(0), OperandConstraint::Reg)]]);
    let cfg = CFGInfo::new(vec![0], vec![ProgPoint::before(0)], vec![ProgPoint::before(2)]);
    let result = run(&func, &cfg, &MachineEnv::new(vec![0], Vec::new(), Vec::new()), false);
    assert_eq!(result.unwrap_err(), RegAllocError::InvalidCFG);
}

#[test]
fn register_use_of_a_value_that_is_nowhere_violates_ssa() {
    assert_eq!(
        failure(vec![vec![Operand::new_use(v(0), OperandConstraint::Reg)]], vec![0]),
        RegAllocError::SSAInvariantViolation
    );
    assert_eq!(
        failure(vec![vec![Operand::new_use(v(0), OperandConstraint::Any)]], vec![0]),
        RegAllocError::SSAInvariantViolation
    );
    assert_eq!(
        failure(vec![vec![Operand::new_use(v(0), OperandConstraint::FixedReg(p(0)))]], vec![0]),
        RegAllocError::SSAInvariantViolation
    );
}

#[test]
fn a_value_overwritten_by_a_reuse_is_gone() {
    // v0 is overwritten in place by v1 and has no slot: its later use finds nothing
    assert_eq!(
        failure(
            vec![
                vec![Operand::new_def(v(0), OperandConstraint::Reg)],
                vec![
                    Operand::new_use(v(0), OperandConstraint::Reg),
                    Operand::new_def(v(1), OperandConstraint::Reuse(0)),
                ],
                vec![Operand::new_use(v(0), OperandConstraint::Reg)],
            ],
            vec![0, 1]
        ),
        RegAllocError::SSAInvariantViolation
    );
}

#[test]
fn no_register_to_be_had_is_out_of_registers() {
    // a class without registers
    assert_eq!(
        failure(vec![vec![Operand::new_def(v(0), OperandConstraint::Reg)]], Vec::new()),
        RegAllocError::OutOfRegisters
    );
    // a fixed register that the machine does not offer
    assert_eq!(
        failure(vec![vec![Operand::new_def(v(0), OperandConstraint::FixedReg(p(5)))]], vec![0, 1]),
        RegAllocError::OutOfRegisters
    );
    // a fixed register of another class than the value
    assert_eq!(
        failure(
            vec![
                vec![
                    Operand::new_def(
                        v(0),
                        OperandConstraint::FixedReg(PReg::new(0, RegClass::Float))
                    ),
                ],
            ],
            vec![0]
        ),
        RegAllocError::OutOfRegisters
    );
    // the only register is pinned by the reuse of operand 0
    assert_eq!(
        failure(
            vec![
                vec![Operand::new_def(v(0), OperandConstraint::Reg)],
                vec![
                    Operand::new_use(v(0), OperandConstraint::Reg),
                    Operand::new_def(v(1), OperandConstraint::Reg),
                    Operand::new_def(v(2), OperandConstraint::Reuse(0)),
                ],
            ],
            vec![0]
        ),
        RegAllocError::OutOfRegisters
    );
}

#[test]
fn fixed_registers_conflict_across_uses_and_definitions() {
    assert_eq!(
        failure(
            vec![
                vec![Operand::new_def(v(0), OperandConstraint::Reg)],
                vec![
                    Operand::new_use(v(0), OperandConstraint::FixedReg(p(0))),
                    Operand::new_def(v(1), OperandConstraint::FixedReg(p(0))),
                ],
            ],
            vec![0, 1]
        ),
        RegAllocError::ConflictingFixedRegisters
    );
}

#[test]
fn one_value_fixed_twice_to_one_register_is_no_conflict() {
    let func = FuncBody::new(vec![
        vec![Operand::new_def(v(0), OperandConstraint::Reg)],
        vec![
            Operand::new_use(v(0), OperandConstraint::FixedReg(p(1))),
            Operand::new_use(v(0), OperandConstraint::FixedReg(p(1))),
        ],
    ]);
    let cfg = CFGInfo::new(vec![0], vec![ProgPoint::before(0)], vec![ProgPoint::before(2)]);
    let out = run(&func, &cfg, &MachineEnv::new(vec![0, 1], Vec::new(), Vec::new()), false).unwrap();
    assert_eq!(out.edits.len(), 1);
}

#[test]
fn reuse_must_be_a_definition_that_names_a_use_in_a_register() {
    // on a use
    assert_eq!(
        failure(
            vec![
                vec![Operand::new_def(v(0), OperandConstraint::Reg)],
                vec![
                    Operand::new_use(v(0), OperandConstraint::Reg),
                    Operand::new_use(v(0), OperandConstraint::Reuse(0)),
                ],
            ],
            vec![0, 1]
        ),
        RegAllocError::InvalidReuseConstraint
    );
    // naming a definition
    assert_eq!(
        failure(
            vec![
                vec![
                    Operand::new_def(v(0), OperandConstraint::Reg),
                    Operand::new_def(v(1), OperandConstraint::Reuse(0)),
                ],
            ],
            vec![0, 1]
        ),
        RegAllocError::InvalidReuseConstraint
    );
    // naming itself
    assert_eq!(
        failure(vec![vec![Operand::new_def(v(1), OperandConstraint::Reuse(0))]], vec![0, 1]),
        RegAllocError::InvalidReuseConstraint
    );
    // naming no operand
    assert_eq!(
        failure(vec![vec![Operand::new_def(v(1), OperandConstraint::Reuse(3))]], vec![0, 1]),
        RegAllocError::InvalidReuseConstraint
    );
    // naming a use of another class
    assert_eq!(
        failure(
            vec![
                vec![Operand::new_def(v(0), OperandConstraint::Reg)],
                vec![
                    Operand::new_use(v(0), OperandConstraint::Reg),
                    Operand::new_def(VReg::new(1, RegClass::Float), OperandConstraint::Reuse(0)),
                ],
            ],
            vec![0, 1]
        ),
        RegAllocError::InvalidReuseConstraint
    );
    // naming a use on the stack
    assert_eq!(
        failure(
            vec![
                vec![Operand::new_def(v(0), OperandConstraint::Stack)],
                vec![
                    Operand::new_use(v(0), OperandConstraint::Stack),
                    Operand::new_def(v(1), OperandConstraint::Reuse(0)),
                ],
            ],
            vec![0, 1]
        ),
        RegAllocError::InvalidReuseConstraint
    );
}

#[test]
fn the_first_faulty_operand_decides_the_error() {
    assert_eq!(
        failure(
            vec![
                vec![
                    Operand::new_use(v(0), OperandConstraint::Reuse(0)),
                    Operand::new_use(v(1), OperandConstraint::FixedReg(p(0))),
                    Operand::new_use(v(2), OperandConstraint::FixedReg(p(0))),
                ],
            ],
            vec![0]
        ),
        RegAllocError::InvalidReuseConstraint
    );
    assert_eq!(
        failure(
            vec![
                vec![
                    Operand::new_use(v(1), OperandConstraint::FixedReg(p(0))),
                    Operand::new_use(v(2), OperandConstraint::FixedReg(p(0))),
                    Operand::new_use(v(0), OperandConstraint::Reuse(0)),
                ],
            ],
            vec![0]
        ),
        RegAllocError::ConflictingFixedRegisters
    );
}
