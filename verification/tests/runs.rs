use fastalloc::fast::run;
use fastalloc::model::Allocation;
use fastalloc::model::CFGInfo;
use fastalloc::model::Edit;
use fastalloc::model::FuncBody;
use fastalloc::model::MachineEnv;
use fastalloc::model::Operand;
use fastalloc::model::OperandConstraint;
use fastalloc::model::OperandKind;
use fastalloc::model::Output;
use fastalloc::model::PReg;
use fastalloc::model::ProgPoint;
use fastalloc::model::RegClass;
use fastalloc::model::VReg;
use std::collections::HashMap;

fn v(id: u32) -> VReg {
    VReg::new(id, RegClass::Int)
}

fn r(hw_enc: u32) -> Allocation {
    Allocation::Reg(PReg::new(hw_enc, RegClass::Int))
}

fn s(offset: u64) -> Allocation {
    Allocation::Stack(offset)
}

fn mv(inst: usize, from: Allocation, to: Allocation) -> (ProgPoint, Edit) {
    (ProgPoint::before(inst), Edit::Move { from, to })
}

fn def(id: u32, constraint: OperandConstraint) -> Vec<Operand> {
    vec![Operand::new_def(v(id), constraint)]
}

fn use_of(id: u32, constraint: OperandConstraint) -> Vec<Operand> {
    vec![Operand::new_use(v(id), constraint)]
}

fn in_one_block(insts: &Vec<Vec<Operand>>, env: &MachineEnv) -> Output {
    let func = FuncBody::new(insts.clone());
    let cfg = CFGInfo::new(
        vec![0],
        vec![ProgPoint::before(0)],
        vec![ProgPoint::before(insts.len())],
    );
    run(&func, &cfg, env, false).unwrap()
}

fn ints(regs: Vec<u32>) -> MachineEnv {
    MachineEnv::new(regs, Vec::new(), Vec::new())
}

/// Runs the instructions, each of one operand at most, on a machine that
/// remembers which value every location holds, with each edit made just
/// before its instruction, and checks that every use reads its own value.
fn every_use_reads_its_value(insts: &Vec<Vec<Operand>>, out: &Output) {
    let mut machine: HashMap<Allocation, u32> = HashMap::new();
    for (inst, ops) in insts.iter().enumerate() {
        for (point, edit) in out.edits.iter() {
            if *point == ProgPoint::before(inst) {
                let Edit::Move { from, to } = edit;
                let value = machine[from];
                machine.insert(*to, value);
            }
        }
        assert!(ops.len() <= 1);
        for (i, op) in ops.iter().enumerate() {
            let at = out.allocs[out.inst_alloc_offsets[inst] + i];
            match op.kind() {
                OperandKind::Use => assert_eq!(machine.get(&at), Some(&op.vreg().vreg())),
                OperandKind::Def => {
                    machine.insert(at, op.vreg().vreg());
                }
            }
        }
    }
}

/// Checks the location of every operand against its constraint.
fn every_location_meets_its_constraint(insts: &Vec<Vec<Operand>>, env: &MachineEnv, out: &Output) {
    for (inst, ops) in insts.iter().enumerate() {
        let base = out.inst_alloc_offsets[inst];
        for (i, op) in ops.iter().enumerate() {
            let at = out.allocs[base + i];
            let pool = match op.vreg().class() {
                RegClass::Int => &env.int_regs,
                RegClass::Float => &env.float_regs,
                RegClass::Vector => &env.vector_regs,
            };
            let in_class = |at: Allocation| match at {
                Allocation::Reg(preg) => {
                    preg.class() == op.vreg().class() && pool.contains(&preg.hw_enc())
                }
                Allocation::Stack(_) => false,
            };
            match op.constraint() {
                OperandConstraint::Reg => assert!(in_class(at)),
                OperandConstraint::Any => assert!(in_class(at) || at.is_stack()),
                OperandConstraint::Stack => assert!(at.is_stack()),
                OperandConstraint::FixedReg(preg) => assert_eq!(at, Allocation::Reg(preg)),
                OperandConstraint::Reuse(source) => {
                    assert_eq!(at, out.allocs[base + source]);
                    assert!(at.is_reg());
                }
            }
        }
    }
}

#[test]
fn a_value_with_a_slot_is_not_stored_again() {
    let insts = vec![
        def(0, OperandConstraint::Reg),
        def(1, OperandConstraint::Reg),
        use_of(0, OperandConstraint::Reg),
        use_of(1, OperandConstraint::Reg),
        use_of(0, OperandConstraint::Reg),
    ];
    let out = in_one_block(&insts, &ints(vec![0]));
    assert_eq!(
        out.edits,
        vec![
            mv(1, r(0), s(0)),
            mv(2, r(0), s(4)),
            mv(2, s(0), r(0)),
            mv(3, s(4), r(0)),
            mv(4, s(0), r(0)),
        ]
    );
    assert_eq!(out.num_spillslots, 2);
    assert_eq!(out.stats.frame_bytes, 8);
    every_use_reads_its_value(&insts, &out);
    every_location_meets_its_constraint(&insts, &ints(vec![0]), &out);
}

#[test]
fn a_fixed_register_is_reached_by_a_move_and_taken_by_a_spill() {
    let insts = vec![
        def(0, OperandConstraint::Reg),
        use_of(0, OperandConstraint::FixedReg(PReg::new(1, RegClass::Int))),
        def(1, OperandConstraint::FixedReg(PReg::new(1, RegClass::Int))),
        use_of(0, OperandConstraint::Reg),
        use_of(1, OperandConstraint::Reg),
    ];
    let env = ints(vec![0, 1]);
    let out = in_one_block(&insts, &env);
    assert_eq!(out.edits, vec![mv(1, r(0), r(1)), mv(2, r(1), s(0)), mv(3, s(0), r(0))]);
    assert_eq!(out.allocs, vec![r(0), r(1), r(1), r(0), r(1)]);
    assert_eq!(out.num_spillslots, 1);
    every_use_reads_its_value(&insts, &out);
    every_location_meets_its_constraint(&insts, &env, &out);
}

#[test]
fn the_least_recently_used_value_is_evicted() {
    // v0 is used after v1 was defined, so v1 is the older one when v2 needs a register
    let insts = vec![
        def(0, OperandConstraint::Reg),
        def(1, OperandConstraint::Reg),
        use_of(0, OperandConstraint::Reg),
        def(2, OperandConstraint::Reg),
        use_of(0, OperandConstraint::Reg),
        use_of(1, OperandConstraint::Reg),
        use_of(2, OperandConstraint::Reg),
    ];
    let env = ints(vec![0, 1]);
    let out = in_one_block(&insts, &env);
    assert_eq!(out.allocs[3], r(1));
    assert_eq!(out.edits[0], mv(3, r(1), s(0)));
    every_use_reads_its_value(&insts, &out);
    every_location_meets_its_constraint(&insts, &env, &out);
}

#[test]
fn any_falls_back_to_the_stack_and_reg_does_not() {
    let insts = vec![def(0, OperandConstraint::Any), use_of(0, OperandConstraint::Any)];
    let out = in_one_block(&insts, &ints(Vec::new()));
    assert_eq!(out.allocs, vec![s(0), s(0)]);
    assert!(out.edits.is_empty());
    assert_eq!(out.num_spillslots, 1);
    every_use_reads_its_value(&insts, &out);

    // the only register is pinned, so the definition under `Any` goes to the stack
    let insts = vec![
        def(0, OperandConstraint::Reg),
        vec![
            Operand::new_use(v(0), OperandConstraint::FixedReg(PReg::new(0, RegClass::Int))),
            Operand::new_def(v(1), OperandConstraint::Any),
        ],
    ];
    let env = ints(vec![0]);
    let out = in_one_block(&insts, &env);
    assert_eq!(out.allocs, vec![r(0), r(0), s(0)]);
    every_location_meets_its_constraint(&insts, &env, &out);
}

#[test]
fn a_resident_value_used_on_the_stack_is_stored_and_leaves_its_register() {
    let insts = vec![
        def(0, OperandConstraint::Reg),
        use_of(0, OperandConstraint::Stack),
        def(1, OperandConstraint::Reg),
        use_of(0, OperandConstraint::Reg),
    ];
    let env = ints(vec![0, 1]);
    let out = in_one_block(&insts, &env);
    // after the store the register of v0 is free again and v1 gets it
    assert_eq!(out.allocs, vec![r(0), s(0), r(0), r(1)]);
    assert_eq!(out.edits, vec![mv(1, r(0), s(0)), mv(3, s(0), r(1))]);
    every_use_reads_its_value(&insts, &out);
    every_location_meets_its_constraint(&insts, &env, &out);
}

#[test]
fn blocks_are_walked_in_the_given_order_and_edits_come_out_in_program_order() {
    let insts = vec![
        def(0, OperandConstraint::Reg),
        def(1, OperandConstraint::Reg),
        use_of(1, OperandConstraint::Reg),
        use_of(0, OperandConstraint::Reg),
        def(2, OperandConstraint::Reg),
        def(3, OperandConstraint::Stack),
        use_of(2, OperandConstraint::Stack),
    ];
    let func = FuncBody::new(insts);
    let cfg = CFGInfo::new(
        vec![1, 0],
        vec![ProgPoint::before(0), ProgPoint::before(4)],
        vec![ProgPoint::before(4), ProgPoint::before(7)],
    );
    let out = run(&func, &cfg, &ints(vec![0]), true).unwrap();
    assert_eq!(out.allocs, vec![r(0), s(0), s(4), r(0), r(0), r(0), r(0)]);
    assert_eq!(out.inst_alloc_offsets, vec![3, 4, 5, 6, 0, 1, 2]);
    assert_eq!(out.edits, vec![mv(1, r(0), s(8)), mv(3, s(8), r(0)), mv(6, r(0), s(4))]);
    assert_eq!(out.num_spillslots, 3);
    assert_eq!(out.stats.edits, 3);
    assert_eq!(out.stats.allocations, 7);
    assert_eq!(out.stats.frame_bytes, 12);
}

#[test]
fn instructions_outside_the_walk_keep_offset_zero() {
    let func = FuncBody::new(vec![
        def(0, OperandConstraint::Reg),
        def(1, OperandConstraint::Reg),
        def(2, OperandConstraint::Reg),
    ]);
    let cfg = CFGInfo::new(vec![0], vec![ProgPoint::before(1)], vec![ProgPoint::before(2)]);
    let out = run(&func, &cfg, &ints(vec![0]), false).unwrap();
    assert_eq!(out.allocs, vec![r(0)]);
    assert_eq!(out.inst_alloc_offsets, vec![0, 0, 0]);
}

#[test]
fn each_class_has_its_own_registers_and_slot_size() {
    let int = VReg::new(0, RegClass::Int);
    let float = VReg::new(1, RegClass::Float);
    let vector = VReg::new(2, RegClass::Vector);
    let insts = vec![
        vec![Operand::new_def(int, OperandConstraint::Reg)],
        vec![Operand::new_def(float, OperandConstraint::Reg)],
        vec![Operand::new_def(vector, OperandConstraint::Reg)],
        vec![Operand::new_use(int, OperandConstraint::Stack)],
        vec![Operand::new_use(float, OperandConstraint::Stack)],
        vec![Operand::new_use(vector, OperandConstraint::Stack)],
    ];
    let env = MachineEnv::new(vec![5], vec![5], vec![6]);
    let out = in_one_block(&insts, &env);
    assert_eq!(
        out.allocs,
        vec![
            Allocation::Reg(PReg::new(5, RegClass::Int)),
            Allocation::Reg(PReg::new(5, RegClass::Float)),
            Allocation::Reg(PReg::new(6, RegClass::Vector)),
            s(0),
            // slots follow each other without padding: this one is not 8-aligned
            s(4),
            s(12),
        ]
    );
    assert_eq!(out.num_spillslots, 3);
    assert_eq!(out.stats.frame_bytes, 20);
    every_use_reads_its_value(&insts, &out);
    every_location_meets_its_constraint(&insts, &env, &out);
}

#[test]
fn reuse_overwrites_its_source_in_place() {
    let insts = vec![
        def(4, OperandConstraint::Reg),
        vec![
            Operand::new_use(v(4), OperandConstraint::Reg),
            Operand::new_def(v(6), OperandConstraint::Reg),
            Operand::new_def(v(5), OperandConstraint::Reuse(0)),
        ],
        use_of(5, OperandConstraint::Reg),
        use_of(6, OperandConstraint::Reg),
    ];
    let env = ints(vec![0, 1]);
    let out = in_one_block(&insts, &env);
    // the register of the reused operand is pinned: v6 takes the other one
    assert_eq!(out.allocs, vec![r(0), r(0), r(1), r(0), r(0), r(1)]);
    assert!(out.edits.is_empty());
    assert_eq!(out.num_spillslots, 0);
    every_location_meets_its_constraint(&insts, &env, &out);
}

#[test]
fn the_annotation_switch_changes_nothing() {
    let insts = vec![
        def(0, OperandConstraint::Reg),
        def(1, OperandConstraint::Reg),
        use_of(0, OperandConstraint::Reg),
    ];
    let func = FuncBody::new(insts.clone());
    let cfg = CFGInfo::new(vec![0], vec![ProgPoint::before(0)], vec![ProgPoint::before(3)]);
    let with = run(&func, &cfg, &ints(vec![0]), true).unwrap();
    let without = run(&func, &cfg, &ints(vec![0]), false).unwrap();
    assert_eq!(with.edits, without.edits);
    assert_eq!(with.allocs, without.allocs);
    assert_eq!(with.num_spillslots, without.num_spillslots);
}

#[test]
fn values_of_one_instruction_tie_and_the_lowest_goes() {
    let insts = vec![
        vec![
            Operand::new_def(v(7), OperandConstraint::Reg),
            Operand::new_def(v(3), OperandConstraint::Reg),
        ],
        def(9, OperandConstraint::Reg),
        use_of(7, OperandConstraint::Reg),
        use_of(3, OperandConstraint::Reg),
        use_of(9, OperandConstraint::Reg),
    ];
    let env = ints(vec![0, 1]);
    let out = in_one_block(&insts, &env);
    assert_eq!(out.allocs[0], r(0));
    assert_eq!(out.allocs[1], r(1));
    // v7 is the older of the two, but v3 was defined at the same instruction
    assert_eq!(out.allocs[2], r(1));
    assert_eq!(out.edits[0], mv(1, r(1), s(0)));
    every_location_meets_its_constraint(&insts, &env, &out);
}

#[test]
fn a_register_is_not_reserved_for_an_earlier_operand_of_the_instruction() {
    // with one register, both uses of the last instruction are given it in turn
    let insts = vec![
        def(0, OperandConstraint::Reg),
        def(1, OperandConstraint::Reg),
        vec![
            Operand::new_use(v(0), OperandConstraint::Reg),
            Operand::new_use(v(1), OperandConstraint::Reg),
        ],
    ];
    let env = ints(vec![0]);
    let out = in_one_block(&insts, &env);
    assert_eq!(out.allocs, vec![r(0), r(0), r(0), r(0)]);
    assert_eq!(
        out.edits,
        vec![mv(1, r(0), s(0)), mv(2, r(0), s(4)), mv(2, s(0), r(0)), mv(2, s(4), r(0))]
    );
    every_location_meets_its_constraint(&insts, &env, &out);
}
