use bfvm::interpreter::{Interpreter, RunError};
use bfvm::program::CompileError;
use bfvm::virtualmachine::{MemoryOverflowBehavior, Settings, Status, VmError, WaitReason};

const HELLO_WORLD: &str = "# prints Hello World!\n\
++++++++[>++++[>++>+++>+++>+<<<<-]>+>+>->>+[<]<-]>>.>---.+++++++..+++.>>.<-.<.+++.------.--------.>>+.>++.\n";

#[test]
fn run_hello_world() {
    let settings = Settings { memory_size: 128, memory_overflow_behavior: MemoryOverflowBehavior::Unchecked };
    let mut interpreter = Interpreter::with_vm_settings(settings);
    interpreter.load_source(HELLO_WORLD).expect("Could not load program");
    let out = interpreter.run(&Vec::new(), 100_000).expect("Error while running");
    assert_eq!(out, b"Hello World!\n".to_vec());
    assert_eq!(interpreter.status(), Status::Halted);
}

#[test]
fn echo_one_byte() {
    let mut interpreter = Interpreter::new();
    interpreter.load_source(",.").unwrap();
    interpreter.startup().unwrap();
    assert_eq!(interpreter.step(), Ok(Status::Waiting(WaitReason::NeedInput)));
    assert_eq!(interpreter.step(), Err(VmError::NotRunning));
    interpreter.supply_input(65).unwrap();
    assert_eq!(interpreter.step(), Ok(Status::Waiting(WaitReason::NeedOutput)));
    assert_eq!(interpreter.consume_output(), Ok(65));
    assert_eq!(interpreter.step(), Ok(Status::Halted));
    assert_eq!(interpreter.status(), Status::Halted);
}

#[test]
fn echo_through_run() {
    let mut interpreter = Interpreter::new();
    interpreter.load_source(",.").unwrap();
    assert_eq!(interpreter.run(&vec![65], 10), Ok(vec![65]));
    assert_eq!(interpreter.status(), Status::Halted);
}

#[test]
fn run_reports_exhausted_input_and_step_limit() {
    let mut interpreter = Interpreter::new();
    interpreter.load_source(",,").unwrap();
    assert_eq!(interpreter.run(&vec![1], 100), Err(RunError::InputExhausted));
    let mut looping = Interpreter::new();
    looping.load_source("+[]").unwrap();
    assert_eq!(looping.run(&Vec::new(), 50), Err(RunError::StepLimit));
    assert_eq!(looping.run(&Vec::new(), 50), Err(RunError::Vm(VmError::InvalidTransition)));
}

#[test]
fn run_reports_pointer_fault() {
    let mut interpreter = Interpreter::new();
    interpreter.load_source("<").unwrap();
    assert_eq!(interpreter.run(&Vec::new(), 10), Err(RunError::Vm(VmError::PointerOutOfBounds)));
}

#[test]
fn load_failure_keeps_the_old_program() {
    let mut interpreter = Interpreter::new();
    interpreter.load_source("+.").unwrap();
    assert!(matches!(interpreter.load_source("[+"), Err(CompileError::UnmatchedOpen(_))));
    assert_eq!(interpreter.dump_program(), "0x00000000: incd\n0x00000001: wr\n0x00000002: exit\n");
    assert_eq!(interpreter.run(&Vec::new(), 10), Ok(vec![1]));
}

#[test]
fn loading_resets_the_machine() {
    let mut interpreter = Interpreter::new();
    interpreter.load_source("+").unwrap();
    interpreter.run(&Vec::new(), 10).unwrap();
    interpreter.load_source("").unwrap();
    assert_eq!(interpreter.status(), Status::Idle);
    assert_eq!(interpreter.dump_program(), "0x00000000: exit\n");
    assert_eq!(interpreter.startup(), Ok(()));
    assert_eq!(interpreter.startup(), Err(VmError::InvalidTransition));
}
