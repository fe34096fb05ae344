use xscript::vm::{RuntimeError, VM, STACK_SIZE};
use xscript::vm_base::VMInst;

#[test]
fn fresh_machine_is_zeroed() {
    let vm = VM::new();
    assert_eq!(vm.sp, 0);
    assert_eq!(vm.bp, 0);
    assert_eq!(vm.stack.len(), STACK_SIZE);
    assert!(vm.bp_stack.is_empty());
}

#[test]
fn arithmetic_combines_the_two_top_words() {
    let mut vm = VM::new();
    vm.run(&vec![VMInst::Entry(0), VMInst::PushI(5), VMInst::PushI(7), VMInst::Add])
        .unwrap();
    assert_eq!(vm.sp, 1);
    assert_eq!(vm.stack[1], 12);

    let mut vm = VM::new();
    vm.run(&vec![VMInst::PushI(10), VMInst::PushI(3), VMInst::Sub]).unwrap();
    assert_eq!(vm.stack[1], 7);

    let mut vm = VM::new();
    vm.run(&vec![VMInst::PushI(6), VMInst::PushI(7), VMInst::Mul]).unwrap();
    assert_eq!(vm.stack[1], 42);

    let mut vm = VM::new();
    vm.run(&vec![VMInst::PushI(7), VMInst::PushI(2), VMInst::Div]).unwrap();
    assert_eq!(vm.stack[1], 3);

    let mut vm = VM::new();
    vm.run(&vec![VMInst::PushI(7), VMInst::PushI(2), VMInst::Rem]).unwrap();
    assert_eq!(vm.stack[1], 1);
}

#[test]
fn division_truncates_toward_zero() {
    let mut vm = VM::new();
    vm.run(&vec![VMInst::PushI(-7), VMInst::PushI(2), VMInst::Div]).unwrap();
    assert_eq!(vm.stack[1], -3);

    let mut vm = VM::new();
    vm.run(&vec![VMInst::PushI(-7), VMInst::PushI(2), VMInst::Rem]).unwrap();
    assert_eq!(vm.stack[1], -1);
}

#[test]
fn division_by_zero_faults() {
    let mut vm = VM::new();
    let r = vm.run(&vec![VMInst::PushI(1), VMInst::PushI(0), VMInst::Div]);
    assert_eq!(r, Err(RuntimeError::DivisionByZero));
    let mut vm = VM::new();
    let r = vm.run(&vec![VMInst::PushI(1), VMInst::PushI(0), VMInst::Rem]);
    assert_eq!(r, Err(RuntimeError::DivisionByZero));
}

#[test]
fn frame_entry_and_return() {
    let mut vm = VM::new();
    vm.run_inst(&VMInst::Entry(2)).unwrap();
    assert_eq!(vm.sp, 2);
    assert_eq!(vm.bp, 2);
    assert_eq!(vm.bp_stack, vec![0]);
    vm.run_inst(&VMInst::PushI(9)).unwrap();
    assert_eq!(vm.sp, 3);
    vm.run_inst(&VMInst::Ret).unwrap();
    assert_eq!(vm.sp, 0);
    assert_eq!(vm.bp, 0);
    assert!(vm.bp_stack.is_empty());
}

#[test]
fn load_pushes_the_slot_value() {
    let mut vm = VM::new();
    vm.run(&vec![
        VMInst::Entry(1),
        VMInst::PushI(8),
        VMInst::StoreV(0),
        VMInst::LoadV(0),
    ])
    .unwrap();
    assert_eq!(vm.sp, 3);
    assert_eq!(vm.stack[3], 8);
    assert_eq!(vm.stack[0], 8);
}

#[test]
fn stack_overflow_faults() {
    let mut vm = VM::new();
    assert_eq!(
        vm.run_inst(&VMInst::Entry(STACK_SIZE)),
        Err(RuntimeError::StackOverflow)
    );
    let mut vm = VM::new();
    vm.run_inst(&VMInst::Entry(STACK_SIZE - 1)).unwrap();
    assert_eq!(vm.run_inst(&VMInst::PushI(1)), Err(RuntimeError::StackOverflow));
}

#[test]
fn stack_underflow_faults() {
    let mut vm = VM::new();
    assert_eq!(vm.run_inst(&VMInst::Add), Err(RuntimeError::StackUnderflow));
    let mut vm = VM::new();
    assert_eq!(vm.run_inst(&VMInst::Pop), Err(RuntimeError::StackUnderflow));
    let mut vm = VM::new();
    assert_eq!(vm.run_inst(&VMInst::Ret), Err(RuntimeError::StackUnderflow));
    let mut vm = VM::new();
    assert_eq!(vm.run_inst(&VMInst::LoadV(0)), Err(RuntimeError::StackUnderflow));
    let mut vm = VM::new();
    assert_eq!(vm.run_inst(&VMInst::StoreV(0)), Err(RuntimeError::StackUnderflow));
}

#[test]
fn undefined_instructions_fault_explicitly() {
    let mut vm = VM::new();
    assert_eq!(
        vm.run_inst(&VMInst::PushF("1.5".to_string())),
        Err(RuntimeError::UnsupportedInstruction)
    );
    assert_eq!(
        vm.run_inst(&VMInst::PushS("s".to_string())),
        Err(RuntimeError::UnsupportedInstruction)
    );
    assert_eq!(
        vm.run_inst(&VMInst::Call("f".to_string())),
        Err(RuntimeError::UnsupportedInstruction)
    );
}

#[test]
fn a_fault_stops_execution_where_it_stood() {
    let mut vm = VM::new();
    let r = vm.run(&vec![
        VMInst::PushI(4),
        VMInst::PushI(0),
        VMInst::Div,
        VMInst::PushI(9),
    ]);
    assert_eq!(r, Err(RuntimeError::DivisionByZero));
    assert_eq!(vm.sp, 2);
    assert_eq!(vm.stack[1], 4);
    assert_eq!(vm.stack[2], 0);
}

#[test]
fn wrapping_arithmetic() {
    let mut vm = VM::new();
    vm.run(&vec![VMInst::PushI(i64::MAX), VMInst::PushI(1), VMInst::Add]).unwrap();
    assert_eq!(vm.stack[1], i64::MIN);

    let mut vm = VM::new();
    vm.run(&vec![VMInst::PushI(i64::MIN), VMInst::PushI(-1), VMInst::Div]).unwrap();
    assert_eq!(vm.stack[1], i64::MIN);
}
