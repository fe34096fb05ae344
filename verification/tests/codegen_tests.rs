use xscript::codegen::{Codegen, CodegenError, CompileError};
use xscript::lexer::Lexer;
use xscript::parser::{ParseError, Parser};
use xscript::vm::VM;
use xscript::vm_base::VMInst;

fn compile(src: &str) -> Result<Vec<VMInst>, CompileError> {
    let lexer = Lexer::new_from_string(src.to_string());
    let parser = Parser::new(lexer);
    let mut codegen = Codegen::new(parser);
    codegen.gen()?;
    Ok(codegen.vm_insts)
}

#[test]
fn reassignment_reuses_the_slot() {
    // two writes to one name allocate exactly one slot
    let insts = compile("x = 1\nx = 2\n").unwrap();
    assert_eq!(
        insts,
        vec![
            VMInst::Entry(1),
            VMInst::PushI(1),
            VMInst::StoreV(0),
            VMInst::PushI(2),
            VMInst::StoreV(0),
            VMInst::Ret,
        ]
    );
}

#[test]
fn distinct_names_get_sequential_slots() {
    let insts = compile("a = 1\nb = 2\nc = 3\n").unwrap();
    assert_eq!(
        insts,
        vec![
            VMInst::Entry(3),
            VMInst::PushI(1),
            VMInst::StoreV(0),
            VMInst::PushI(2),
            VMInst::StoreV(1),
            VMInst::PushI(3),
            VMInst::StoreV(2),
            VMInst::Ret,
        ]
    );
}

#[test]
fn end_to_end_compile_and_run() {
    // `x = 3` then `y = x + 4` compiles to the documented instruction list
    let insts = compile("x = 3\ny = x + 4\n").unwrap();
    assert_eq!(
        insts,
        vec![
            VMInst::Entry(2),
            VMInst::PushI(3),
            VMInst::StoreV(0),
            VMInst::LoadV(0),
            VMInst::PushI(4),
            VMInst::Add,
            VMInst::StoreV(1),
            VMInst::Ret,
        ]
    );
    // executing it leaves slot 0 = 3 and slot 1 = 7; with a frame base of 2,
    // slot 0 lives at stack cell 1 and slot 1 at stack cell 0
    let mut vm = VM::new();
    vm.run(&insts).unwrap();
    assert_eq!(vm.stack[1], 3);
    assert_eq!(vm.stack[0], 7);
    assert_eq!(vm.sp, 0);
    assert_eq!(vm.bp, 0);
}

#[test]
fn read_before_write_fails() {
    // referencing a variable never assigned fails code generation
    match compile("y + 1\n") {
        Err(CompileError::Codegen(CodegenError::UndeclaredVariable(name, _))) => {
            assert_eq!(name, "y");
        }
        other => panic!("expected an undeclared variable error, got {:?}", other),
    }
}

#[test]
fn assignment_to_a_literal_fails() {
    match compile("1 = 2\n") {
        Err(CompileError::Codegen(CodegenError::UnsupportedLValue(_))) => {}
        other => panic!("expected an unsupported lvalue error, got {:?}", other),
    }
}

#[test]
fn operator_without_lowering_fails() {
    match compile("x = 1\nx < 1\n") {
        Err(CompileError::Codegen(CodegenError::UnsupportedOperator(_))) => {}
        other => panic!("expected an unsupported operator error, got {:?}", other),
    }
}

#[test]
fn parse_failure_aborts_generation() {
    match compile("(x\n") {
        Err(CompileError::Parse(ParseError::UnmatchedParen(_))) => {}
        other => panic!("expected an unmatched paren error, got {:?}", other),
    }
}

#[test]
fn assignment_value_stays_on_the_stack() {
    // the store reads the top of the stack without popping it
    let insts = compile("x = 3\n").unwrap();
    assert_eq!(
        insts,
        vec![VMInst::Entry(1), VMInst::PushI(3), VMInst::StoreV(0), VMInst::Ret]
    );
    let mut vm = VM::new();
    vm.run_inst(&insts[0]).unwrap();
    vm.run_inst(&insts[1]).unwrap();
    vm.run_inst(&insts[2]).unwrap();
    assert_eq!(vm.sp, 2);
    assert_eq!(vm.stack[2], 3);
    assert_eq!(vm.stack[0], 3);
}

#[test]
fn float_and_string_literals_lower_to_pushes() {
    let insts = compile("x = 1\nx = 2.5\n").unwrap();
    assert_eq!(
        insts,
        vec![
            VMInst::Entry(1),
            VMInst::PushI(1),
            VMInst::StoreV(0),
            VMInst::PushF("2.5".to_string()),
            VMInst::StoreV(0),
            VMInst::Ret,
        ]
    );
    let insts = compile("s = \"hi\"\n").unwrap();
    assert_eq!(
        insts,
        vec![
            VMInst::Entry(1),
            VMInst::PushS("hi".to_string()),
            VMInst::StoreV(0),
            VMInst::Ret,
        ]
    );
}
