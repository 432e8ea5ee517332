use fastalloc::edits::Edits;
use fastalloc::model::regclass_size;
use fastalloc::model::Allocation;
use fastalloc::model::Edit;
use fastalloc::model::InstPosition;
use fastalloc::model::Operand;
use fastalloc::model::OperandConstraint;
use fastalloc::model::OperandKind;
use fastalloc::model::PReg;
use fastalloc::model::ProgPoint;
use fastalloc::model::RegClass;
use fastalloc::model::SpillSlotData;
use fastalloc::model::VReg;
use fastalloc::order::sort_edits;
use fastalloc::regfile::contains_reg;
use fastalloc::regfile::holder_in;
use fastalloc::regfile::value_in;
use fastalloc::regfile::RegFile;
use fastalloc::spill::SpillSlots;

fn mv(from: Allocation, to: Allocation) -> Edit {
    Edit::Move { from, to }
}

fn reg(hw_enc: u32) -> Allocation {
    Allocation::Reg(PReg::new(hw_enc, RegClass::Int))
}

#[test]
fn register_class_sizes() {
    assert_eq!(regclass_size(RegClass::Int), 4);
    assert_eq!(regclass_size(RegClass::Float), 8);
    assert_eq!(regclass_size(RegClass::Vector), 8);
}

#[test]
fn model_values_keep_their_parts() {
    let vreg = VReg::new(7, RegClass::Float);
    assert_eq!(vreg.vreg(), 7);
    assert_eq!(vreg.class(), RegClass::Float);
    let preg = PReg::new(3, RegClass::Vector);
    assert_eq!(preg.hw_enc(), 3);
    assert_eq!(preg.class(), RegClass::Vector);
    let op = Operand::new(vreg, OperandKind::Def, OperandConstraint::FixedReg(preg));
    assert_eq!(op.vreg(), vreg);
    assert_eq!(op.kind(), OperandKind::Def);
    assert_eq!(op.constraint(), OperandConstraint::FixedReg(preg));
    assert_eq!(Operand::new_use(vreg, OperandConstraint::Any).kind(), OperandKind::Use);
    assert_eq!(Operand::new_def(vreg, OperandConstraint::Any).kind(), OperandKind::Def);
    assert_eq!(ProgPoint::before(4).inst(), 4);
    assert_eq!(ProgPoint::before(4).pos(), InstPosition::Before);
    assert_eq!(ProgPoint::after(4).pos(), InstPosition::After);
    assert!(reg(1).is_reg());
    assert!(!reg(1).is_stack());
    assert_eq!(reg(1).as_reg(), Some(PReg::new(1, RegClass::Int)));
    assert_eq!(reg(1).as_stack(), None);
    assert!(Allocation::Stack(8).is_stack());
    assert_eq!(Allocation::Stack(8).as_stack(), Some(8));
    assert_eq!(Allocation::Stack(8).as_reg(), None);
}

#[test]
fn program_points_are_ordered_by_instruction_then_side() {
    assert!(ProgPoint::before(1).precedes_or_equals(&ProgPoint::before(1)));
    assert!(ProgPoint::before(1).precedes_or_equals(&ProgPoint::after(1)));
    assert!(!ProgPoint::after(1).precedes_or_equals(&ProgPoint::before(1)));
    assert!(ProgPoint::after(1).precedes_or_equals(&ProgPoint::before(2)));
    assert!(!ProgPoint::before(2).precedes_or_equals(&ProgPoint::after(1)));
}

#[test]
fn edits_keep_the_order_of_pushes() {
    let mut edits = Edits::new();
    assert_eq!(edits.len(), 0);
    assert_eq!(edits.iter().count(), 0);
    edits.push(ProgPoint::before(3), mv(reg(0), Allocation::Stack(0)));
    edits.push(ProgPoint::before(1), mv(Allocation::Stack(0), reg(1)));
    assert_eq!(edits.len(), 2);
    assert_eq!(edits.get(1), (ProgPoint::before(1), mv(Allocation::Stack(0), reg(1))));
    let seen: Vec<(ProgPoint, Edit)> = edits.iter().copied().collect();
    assert_eq!(
        seen,
        vec![
            (ProgPoint::before(3), mv(reg(0), Allocation::Stack(0))),
            (ProgPoint::before(1), mv(Allocation::Stack(0), reg(1))),
        ]
    );
    assert_eq!(edits.clone().to_vec(), seen);
}

#[test]
fn sorting_edits_is_stable() {
    let a = (ProgPoint::before(2), mv(reg(0), Allocation::Stack(0)));
    let b = (ProgPoint::before(1), mv(reg(1), Allocation::Stack(4)));
    let c = (ProgPoint::before(2), mv(Allocation::Stack(8), reg(0)));
    let d = (ProgPoint::after(1), mv(reg(2), reg(3)));
    let e = (ProgPoint::before(1), mv(Allocation::Stack(0), reg(1)));
    assert_eq!(sort_edits(vec![a, b, c, d, e]), vec![b, e, d, a, c]);
    assert_eq!(sort_edits(Vec::new()), Vec::new());
}

#[test]
fn spill_slots_are_handed_out_back_to_back() {
    let mut slots = SpillSlots::new();
    assert_eq!(slots.count(), 0);
    assert_eq!(slots.frame_bytes(), 0);
    assert_eq!(slots.lookup(5), None);
    assert_eq!(slots.slot_for(5, RegClass::Int), 0);
    assert_eq!(slots.slot_for(9, RegClass::Float), 4);
    assert_eq!(slots.slot_for(2, RegClass::Vector), 12);
    assert_eq!(slots.slot_for(7, RegClass::Int), 20);
    assert_eq!(slots.frame_bytes(), 24);
    assert_eq!(slots.count(), 4);
    // a slot once given stays
    assert_eq!(slots.slot_for(9, RegClass::Float), 4);
    assert_eq!(slots.slot_for(5, RegClass::Vector), 0);
    assert_eq!(slots.lookup(2), Some(12));
    assert_eq!(slots.lookup(3), None);
    assert_eq!(slots.count(), 4);
    assert_eq!(slots.frame_bytes(), 24);
    assert_eq!(slots.get(1), SpillSlotData { vreg: 9, class: RegClass::Float, offset: 4 });
}

#[test]
fn list_searches() {
    assert!(contains_reg(&vec![4, 5, 6], 5));
    assert!(!contains_reg(&vec![4, 5, 6], 7));
    assert!(!contains_reg(&Vec::new(), 0));
    let pairs = vec![(10, 0), (11, 1), (12, 2)];
    assert_eq!(holder_in(&pairs, 1), Some(11));
    assert_eq!(holder_in(&pairs, 3), None);
    assert_eq!(value_in(&pairs, 12), Some(2));
    assert_eq!(value_in(&pairs, 2), None);
}

#[test]
fn tracker_selects_free_registers_in_pool_order() {
    let mut file = RegFile::new(RegClass::Int, vec![3, 1, 2]);
    assert_eq!(file.class(), RegClass::Int);
    assert!(file.has_reg(1));
    assert!(!file.has_reg(0));
    assert_eq!(file.select(), Some(3));
    assert_eq!(file.insert(100, 3), None);
    assert_eq!(file.select(), Some(1));
    assert_eq!(file.insert(101, 1), None);
    assert_eq!(file.select(), Some(2));
    assert_eq!(file.peek(100), Some(3));
    assert_eq!(file.peek(101), Some(1));
    assert_eq!(file.peek(102), None);
}

#[test]
fn tracker_evicts_the_least_recently_used() {
    let mut file = RegFile::new(RegClass::Int, vec![0, 1, 2]);
    file.begin(1);
    file.insert(100, 0);
    file.begin(2);
    file.insert(101, 1);
    file.begin(3);
    file.insert(102, 2);
    file.begin(4);
    // all registers are in use: the oldest value is the victim
    assert_eq!(file.select(), Some(0));
    // a lookup makes a value the most recent one
    assert_eq!(file.lookup(100), Some(0));
    assert_eq!(file.stamp_of(100), 4);
    assert_eq!(file.select(), Some(1));
    assert_eq!(file.lookup(103), None);
    assert_eq!(file.stamp_of(103), 0);
    assert_eq!(file.select(), Some(1));
    // peeking does not
    assert_eq!(file.peek(101), Some(1));
    assert_eq!(file.stamp_of(101), 2);
    assert_eq!(file.select(), Some(1));
    // taking the victim's register evicts it and returns the pair to spill
    assert_eq!(file.insert(103, 1), Some((101, 1)));
    assert_eq!(file.peek(101), None);
    assert_eq!(file.peek(103), Some(1));
    assert_eq!(file.select(), Some(2));
}

#[test]
fn tracker_breaks_ties_by_the_lowest_virtual_register() {
    // made resident at the same instruction: the lower number goes first
    let mut file = RegFile::new(RegClass::Int, vec![0, 1, 2]);
    file.begin(5);
    file.insert(105, 0);
    file.insert(103, 1);
    file.insert(104, 2);
    file.begin(6);
    assert_eq!(file.select(), Some(1));
    assert_eq!(file.insert(200, 1), Some((103, 1)));
    assert_eq!(file.select(), Some(2));
    assert_eq!(file.insert(201, 2), Some((104, 2)));
    assert_eq!(file.select(), Some(0));

    // made resident at different instructions: the older one goes first
    let mut file = RegFile::new(RegClass::Int, vec![0, 1]);
    file.begin(5);
    file.insert(105, 0);
    file.begin(6);
    file.insert(103, 1);
    file.begin(7);
    assert_eq!(file.select(), Some(0));

    // a tie with the oldest only: a lower number used later does not count
    let mut file = RegFile::new(RegClass::Int, vec![0, 1, 2]);
    file.begin(5);
    file.insert(105, 0);
    file.insert(107, 1);
    file.begin(6);
    file.insert(101, 2);
    file.begin(7);
    assert_eq!(file.select(), Some(0));

    // a pinned register takes its value out of the tie
    let mut file = RegFile::new(RegClass::Int, vec![0, 1, 2]);
    file.begin(5);
    file.insert(105, 0);
    file.insert(103, 1);
    file.insert(104, 2);
    file.pin(1);
    assert_eq!(file.select(), Some(2));
}

#[test]
fn tracker_skips_pinned_registers() {
    let mut file = RegFile::new(RegClass::Int, vec![0, 1]);
    file.pin(0);
    // a free register that is pinned is not handed out
    assert_eq!(file.select(), Some(1));
    file.insert(100, 0);
    file.insert(101, 1);
    // the least recently used value sits in a pinned register: the next one goes
    assert_eq!(file.select(), Some(1));
    file.pin(1);
    assert_eq!(file.select(), None);
    file.release_pins();
    assert_eq!(file.select(), Some(0));
}

#[test]
fn tracker_insert_rebinds_and_remove_forgets() {
    let mut file = RegFile::new(RegClass::Float, vec![0, 1]);
    assert_eq!(file.insert(100, 0), None);
    // the same value in the same register: nothing leaves
    assert_eq!(file.insert(100, 0), None);
    // the value moves to another register: its old register is free again
    assert_eq!(file.insert(100, 1), None);
    assert_eq!(file.peek(100), Some(1));
    assert_eq!(file.select(), Some(0));
    assert_eq!(file.insert(101, 0), None);
    // taking a register that another value holds evicts that value
    assert_eq!(file.insert(101, 1), Some((100, 1)));
    assert_eq!(file.peek(100), None);
    assert_eq!(file.remove(101), Some(1));
    assert_eq!(file.remove(101), None);
    assert_eq!(file.lookup(101), None);
    assert_eq!(file.select(), Some(0));
}

#[test]
fn tracker_with_no_register_selects_none() {
    let file = RegFile::new(RegClass::Vector, Vec::new());
    assert_eq!(file.select(), None);
    assert!(!file.has_reg(0));
}
