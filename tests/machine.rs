use bfvm::program::Instruction;
use bfvm::virtualmachine::{MemoryOverflowBehavior, Settings, Status, VirtualMachine, VmError, WaitReason};

fn running(size: usize, policy: MemoryOverflowBehavior) -> VirtualMachine {
    let mut vm = VirtualMachine::with_settings(Settings { memory_size: size, memory_overflow_behavior: policy });
    vm.wakeup().unwrap();
    vm
}

#[test]
fn increments_wrap_after_256() {
    let mut vm = running(4, MemoryOverflowBehavior::Unchecked);
    for _ in 0..255 {
        vm.execute_instruction(&Instruction::IncData).unwrap();
    }
    assert_eq!(vm.mem_rd(), 255);
    vm.execute_instruction(&Instruction::IncData).unwrap();
    assert_eq!(vm.mem_rd(), 0);
    assert_eq!(vm.pc(), 256);
}

#[test]
fn decrement_of_zero_gives_255() {
    let mut vm = running(4, MemoryOverflowBehavior::Unchecked);
    vm.execute_instruction(&Instruction::DecData).unwrap();
    assert_eq!(vm.mem_rd(), 255);
}

#[test]
fn saturate_on_one_cell_keeps_pointer_at_zero() {
    let mut vm = running(1, MemoryOverflowBehavior::Saturate);
    for _ in 0..10 {
        vm.execute_instruction(&Instruction::IncPtr).unwrap();
        assert_eq!(vm.mp(), 0);
    }
    vm.execute_instruction(&Instruction::DecPtr).unwrap();
    assert_eq!(vm.mp(), 0);
}

#[test]
fn wrap_brings_pointer_round() {
    let n = 5;
    let mut vm = running(n, MemoryOverflowBehavior::Wrap);
    vm.execute_instruction(&Instruction::IncPtr).unwrap();
    vm.execute_instruction(&Instruction::IncPtr).unwrap();
    for _ in 0..n {
        vm.execute_instruction(&Instruction::IncPtr).unwrap();
    }
    assert_eq!(vm.mp(), 2);
    let mut back = running(n, MemoryOverflowBehavior::Wrap);
    back.execute_instruction(&Instruction::DecPtr).unwrap();
    assert_eq!(back.mp(), n - 1);
}

#[test]
fn unchecked_move_off_the_tape_fails() {
    let mut vm = running(2, MemoryOverflowBehavior::Unchecked);
    assert_eq!(vm.execute_instruction(&Instruction::DecPtr), Err(VmError::PointerOutOfBounds));
    assert_eq!(vm.mp(), 0);
    assert_eq!(vm.pc(), 0);
    vm.execute_instruction(&Instruction::IncPtr).unwrap();
    assert_eq!(vm.execute_instruction(&Instruction::IncPtr), Err(VmError::PointerOutOfBounds));
    assert_eq!(vm.mp(), 1);
}

#[test]
fn wakeup_only_from_idle() {
    let mut vm = VirtualMachine::new();
    assert_eq!(*vm.status(), Status::Idle);
    assert_eq!(vm.memory_size(), 4096);
    assert_eq!(vm.execute_instruction(&Instruction::IncData), Err(VmError::NotRunning));
    assert_eq!(vm.wakeup(), Ok(()));
    assert_eq!(*vm.status(), Status::Running);
    assert_eq!(vm.wakeup(), Err(VmError::InvalidTransition));
}

#[test]
fn jumps_follow_the_cell() {
    let mut vm = running(2, MemoryOverflowBehavior::Unchecked);
    assert_eq!(vm.execute_instruction(&Instruction::JZ(7)), Ok(Status::Running));
    assert_eq!(vm.pc(), 7);
    assert_eq!(vm.execute_instruction(&Instruction::JNZ(2)), Ok(Status::Running));
    assert_eq!(vm.pc(), 8);
    vm.mem_inc();
    vm.execute_instruction(&Instruction::JNZ(2)).unwrap();
    assert_eq!(vm.pc(), 2);
    vm.execute_instruction(&Instruction::JZ(40)).unwrap();
    assert_eq!(vm.pc(), 3);
}

#[test]
fn input_and_output_suspend_the_machine() {
    let mut vm = running(2, MemoryOverflowBehavior::Unchecked);
    assert_eq!(vm.consume_output(), Err(VmError::NotWaitingForOutput));
    assert_eq!(vm.supply_input(1), Err(VmError::NotWaitingForInput));
    assert_eq!(vm.execute_instruction(&Instruction::Input), Ok(Status::Waiting(WaitReason::NeedInput)));
    assert_eq!(vm.pc(), 0);
    assert_eq!(vm.execute_instruction(&Instruction::IncData), Err(VmError::NotRunning));
    assert_eq!(vm.consume_output(), Err(VmError::NotWaitingForOutput));
    assert_eq!(vm.read_byte(10, true), Ok(false));
    assert_eq!(*vm.status(), Status::Waiting(WaitReason::NeedInput));
    assert_eq!(vm.read_byte(42, true), Ok(true));
    assert_eq!(vm.mem_rd(), 42);
    assert_eq!(vm.pc(), 1);
    assert_eq!(*vm.status(), Status::Running);
    assert_eq!(vm.execute_instruction(&Instruction::Output), Ok(Status::Waiting(WaitReason::NeedOutput)));
    assert_eq!(vm.consume_output(), Ok(42));
    assert_eq!(vm.pc(), 2);
    assert_eq!(vm.consume_output(), Err(VmError::NotWaitingForOutput));
    assert_eq!(vm.mem_rd(), 42);
}

#[test]
fn write_byte_completes_the_write() {
    let mut vm = running(2, MemoryOverflowBehavior::Unchecked);
    assert_eq!(vm.write_byte(), Err(VmError::NotWaitingForOutput));
    for _ in 0..200 {
        vm.mem_inc();
    }
    assert_eq!(vm.execute_instruction(&Instruction::Output), Ok(Status::Waiting(WaitReason::NeedOutput)));
    assert_eq!(vm.write_byte(), Ok(200));
    assert_eq!(vm.pc(), 1);
    assert_eq!(*vm.status(), Status::Running);
    assert_eq!(vm.mem_rd(), 200);
    assert_eq!(vm.write_byte(), Err(VmError::NotWaitingForOutput));
}

#[test]
fn pointer_moves_follow_the_policy() {
    let mut vm = running(1, MemoryOverflowBehavior::Saturate);
    for _ in 0..5 {
        assert_eq!(vm.inc_mp(), Ok(()));
        assert_eq!(vm.mp(), 0);
    }
    assert_eq!(vm.pc(), 0);
    let mut wrap = running(3, MemoryOverflowBehavior::Wrap);
    wrap.inc_mp().unwrap();
    for _ in 0..3 {
        wrap.inc_mp().unwrap();
    }
    assert_eq!(wrap.mp(), 1);
    wrap.dec_mp().unwrap();
    wrap.dec_mp().unwrap();
    assert_eq!(wrap.mp(), 2);
    let mut unchecked = running(1, MemoryOverflowBehavior::Unchecked);
    assert_eq!(unchecked.inc_mp(), Err(VmError::PointerOutOfBounds));
    assert_eq!(unchecked.dec_mp(), Err(VmError::PointerOutOfBounds));
}

#[test]
fn read_byte_takes_newline_when_not_ignoring() {
    let mut vm = running(2, MemoryOverflowBehavior::Unchecked);
    vm.execute_instruction(&Instruction::Input).unwrap();
    assert_eq!(vm.read_byte(10, false), Ok(true));
    assert_eq!(vm.mem_rd(), 10);
}

#[test]
fn exit_halts_without_moving_pc() {
    let mut vm = running(2, MemoryOverflowBehavior::Unchecked);
    vm.execute_instruction(&Instruction::IncData).unwrap();
    assert_eq!(vm.execute_instruction(&Instruction::Exit), Ok(Status::Halted));
    assert_eq!(vm.pc(), 1);
    assert_eq!(vm.execute_instruction(&Instruction::IncData), Err(VmError::NotRunning));
    assert_eq!(vm.wakeup(), Err(VmError::InvalidTransition));
}

#[test]
fn reset_returns_to_initial_state() {
    let mut vm = running(3, MemoryOverflowBehavior::Unchecked);
    vm.mem_wr(9);
    vm.execute_instruction(&Instruction::IncPtr).unwrap();
    vm.mem_wr(7);
    vm.reset_core();
    assert_eq!((vm.pc(), vm.mp(), *vm.status()), (0, 0, Status::Idle));
    assert_eq!(vm.mem_rd(), 9);
    vm.reset_memory();
    assert_eq!(vm.mem_rd(), 0);
    vm.wakeup().unwrap();
    vm.mem_wr(5);
    vm.execute_instruction(&Instruction::Input).unwrap();
    vm.reset();
    assert_eq!((vm.pc(), vm.mp(), *vm.status()), (0, 0, Status::Idle));
    assert_eq!(vm.mem_rd(), 0);
    assert_eq!(vm.memory_size(), 3);
}

#[test]
fn default_settings() {
    let s = Settings::default();
    assert_eq!(s.memory_size, 4096);
    assert_eq!(s.memory_overflow_behavior, MemoryOverflowBehavior::Unchecked);
}
