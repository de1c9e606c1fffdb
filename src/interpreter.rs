use vstd::prelude::*;

use crate::token::scan_spec;
use crate::program::{compile_outcome, compiles, compiles_to, dump_spec, program_wf, CompileError, Instruction, Program};
use crate::virtualmachine::{
    consume_spec,
    initial_state,
    step_spec,
    supply_spec,
    with_status,
    Settings,
    Status,
    VirtualMachine,
    VmError,
    VmState,
    WaitReason,
};

verus! {

/// Why a bounded run stopped before the machine halted.
#[derive(Clone, Copy, Debug, PartialEq, Eq, Structural)]
pub enum RunError {
    /// The machine reported a misuse or a pointer move off the tape.
    Vm(VmError),
    /// A read was pending and no input byte was left.
    InputExhausted,
    /// The step budget ran out.
    StepLimit,
}

/// Drives a machine over `prog` with the bytes of `input`, collecting output after `out`,
/// for at most `fuel` steps: each step executes an instruction, supplies the next input byte
/// to a pending read, or takes the byte of a pending write. Gives the output or why the run
/// stopped, and the final state.
pub open spec fn drive(
    prog: Seq<Instruction>,
    v: VmState,
    input: Seq<u8>,
    out: Seq<u8>,
    fuel: nat,
) -> (Result<Seq<u8>, RunError>, VmState)
    decreases fuel,
{
    match v.status {
        Status::Halted => (Ok(out), v),
        _ => if fuel == 0 {
            (Err(RunError::StepLimit), v)
        } else {
            match v.status {
                Status::Waiting(WaitReason::NeedInput) => if input.len() == 0 {
                    (Err(RunError::InputExhausted), v)
                } else {
                    match supply_spec(v, input[0]) {
                        Ok(w) => drive(prog, w, input.drop_first(), out, (fuel - 1) as nat),
                        Err(e) => (Err(RunError::Vm(e)), v),
                    }
                },
                Status::Waiting(WaitReason::NeedOutput) => match consume_spec(v) {
                    Ok((b, w)) => drive(prog, w, input, out.push(b), (fuel - 1) as nat),
                    Err(e) => (Err(RunError::Vm(e)), v),
                },
                _ => if 0 <= v.pc < prog.len() {
                    match step_spec(v, prog[v.pc]) {
                        Ok(w) => drive(prog, w, input, out, (fuel - 1) as nat),
                        Err(e) => (Err(RunError::Vm(e)), v),
                    }
                } else {
                    (Err(RunError::Vm(VmError::NotRunning)), v)
                },
            }
        },
    }
}

/// A compiled program and the machine that runs it.
pub struct Interpreter {
    program: Program,
    vm: VirtualMachine,
}

impl Interpreter {
    /// The program counter stays on the program, and a suspended machine stands on the
    /// read or write that suspended it.
    pub closed spec fn wf(&self) -> bool {
        &&& program_wf(self.program@)
        &&& self.vm.wf()
        &&& 0 <= self.vm@.pc < self.program@.len()
        &&& self.vm@.status == Status::Waiting(WaitReason::NeedInput) ==> self.program@[self.vm@.pc]
            == Instruction::Input
        &&& self.vm@.status == Status::Waiting(WaitReason::NeedOutput) ==> self.program@[self.vm@.pc]
            == Instruction::Output
    }

    /// The loaded program.
    pub closed spec fn code(&self) -> Seq<Instruction> {
        self.program@
    }

    /// The state of the machine.
    pub closed spec fn machine(&self) -> VmState {
        self.vm@
    }

    /// An interpreter with the empty program and a machine with the default settings.
    pub fn new() -> (it: Interpreter)
        ensures
            it.wf(),
            it.code() == seq![Instruction::Exit],
            it.machine() == initial_state(4096, crate::virtualmachine::MemoryOverflowBehavior::Unchecked),
    {
        Interpreter { program: Program::new(), vm: VirtualMachine::new() }
    }

    /// An interpreter with the empty program and a machine built from `settings`.
    pub fn with_vm_settings(settings: Settings) -> (it: Interpreter)
        requires
            settings.memory_size >= 1,
        ensures
            it.wf(),
            it.code() == seq![Instruction::Exit],
            it.machine() == initial_state(
                settings.memory_size as int,
                settings.memory_overflow_behavior,
            ),
    {
        Interpreter { program: Program::new(), vm: VirtualMachine::with_settings(settings) }
    }

    /// Compiles `source` and, when that succeeds, loads it and resets the machine. On an error
    /// nothing changes.
    pub fn load_source(&mut self, source: &str) -> (r: Result<(), CompileError>)
        requires
            old(self).wf(),
        ensures
            final(self).wf(),
            r is Ok <==> compiles(source@),
            match r {
                Ok(()) => compiles_to(source@, final(self).code()) && final(self).machine() == initial_state(
                    old(self).machine().tape.len() as int,
                    old(self).machine().policy,
                ),
                Err(e) => {
                    &&& final(self).code() == old(self).code()
                    &&& final(self).machine() == old(self).machine()
                    &&& match scan_spec(source@) {
                        Ok(ts) => compile_outcome(ts, Err::<Program, CompileError>(e)),
                        Err(le) => e == CompileError::Lex(le),
                    }
                },
            },
    {
        let program = match Program::compile(source) {
            Ok(p) => p,
            Err(e) => return Err(e),
        };
        self.program = program;
        self.vm.reset();
        Ok(())
    }

    /// The disassembly of the loaded program.
    pub fn dump_program(&self) -> (r: String)
        ensures
            r@ == dump_spec(self.code(), self.code().len() as int),
    {
        self.program.dump()
    }

    /// Brings the machine from `Idle` to `Running`.
    pub fn startup(&mut self) -> (r: Result<(), VmError>)
        requires
            old(self).wf(),
        ensures
            final(self).wf(),
            final(self).code() == old(self).code(),
            old(self).machine().status == Status::Idle ==> r is Ok && final(self).machine()
                == with_status(old(self).machine(), Status::Running),
            old(self).machine().status != Status::Idle ==> r == Err::<(), VmError>(
                VmError::InvalidTransition,
            ) && final(self).machine() == old(self).machine(),
    {
        self.vm.wakeup()
    }

    /// The status of the machine.
    pub fn status(&self) -> (r: Status)
        ensures
            r == self.machine().status,
    {
        *self.vm.status()
    }

    /// Executes the instruction under the program counter; fails with `NotRunning` unless
    /// the machine runs. On an error nothing changes.
    pub fn step(&mut self) -> (r: Result<Status, VmError>)
        requires
            old(self).wf(),
        ensures
            final(self).wf(),
            final(self).code() == old(self).code(),
            match step_spec(old(self).machine(), old(self).code()[old(self).machine().pc]) {
                Ok(v) => r == Ok::<Status, VmError>(v.status) && final(self).machine() == v,
                Err(e) => r == Err::<Status, VmError>(e) && final(self).machine() == old(self).machine(),
            },
    {
        if *self.vm.status() != Status::Running {
            return Err(VmError::NotRunning);
        }
        let instruction = self.program.instruction(self.vm.pc());
        let r = self.vm.execute_instruction(instruction);
        proof {
            let k = old(self).vm@.pc;
            if k + 1 == self.program@.len() {
                assert(self.program@[k] == Instruction::Exit);
            }
            assert(match self.program@[k] {
                Instruction::JZ(t) => t < self.program@.len(),
                Instruction::JNZ(t) => t < self.program@.len(),
                _ => true,
            });
        }
        r
    }

    /// Completes a pending read with `byte`.
    pub fn supply_input(&mut self, byte: u8) -> (r: Result<(), VmError>)
        requires
            old(self).wf(),
        ensures
            final(self).wf(),
            final(self).code() == old(self).code(),
            match supply_spec(old(self).machine(), byte) {
                Ok(v) => r is Ok && final(self).machine() == v,
                Err(e) => r == Err::<(), VmError>(e) && final(self).machine() == old(self).machine(),
            },
    {
        self.vm.supply_input(byte)
    }

    /// Completes a pending write and returns its byte.
    pub fn consume_output(&mut self) -> (r: Result<u8, VmError>)
        requires
            old(self).wf(),
        ensures
            final(self).wf(),
            final(self).code() == old(self).code(),
            match consume_spec(old(self).machine()) {
                Ok((b, v)) => r == Ok::<u8, VmError>(b) && final(self).machine() == v,
                Err(e) => r == Err::<u8, VmError>(e) && final(self).machine() == old(self).machine(),
            },
    {
        self.vm.consume_output()
    }

    /// Starts the machine and drives it for at most `max_steps` steps, feeding it the bytes
    /// of `input` in order and collecting what it writes, until it halts.
    pub fn run(&mut self, input: &Vec<u8>, max_steps: usize) -> (r: Result<Vec<u8>, RunError>)
        requires
            old(self).wf(),
        ensures
            final(self).wf(),
            final(self).code() == old(self).code(),
            old(self).machine().status != Status::Idle ==> r == Err::<Vec<u8>, RunError>(
                RunError::Vm(VmError::InvalidTransition),
            ) && final(self).machine() == old(self).machine(),
            old(self).machine().status == Status::Idle ==> ({
                let (res, v) = drive(
                    old(self).code(),
                    with_status(old(self).machine(), Status::Running),
                    input@,
                    Seq::empty(),
                    max_steps as nat,
                );
                &&& final(self).machine() == v
                &&& match r {
                    Ok(out) => res == Ok::<Seq<u8>, RunError>(out@),
                    Err(e) => res == Err::<Seq<u8>, RunError>(e),
                }
            }),
    {
        if let Err(e) = self.startup() {
            return Err(RunError::Vm(e));
        }
        let ghost target = drive(self.code(), self.machine(), input@, Seq::empty(), max_steps as nat);
        assert(input@.skip(0) =~= input@);
        let mut out: Vec<u8> = Vec::new();
        let mut next_input: usize = 0;
        let mut fuel: usize = max_steps;
        while fuel > 0 && *self.vm.status() != Status::Halted
            invariant
                self.wf(),
                self.code() == old(self).code(),
                old(self).machine().status == Status::Idle,
                target == drive(
                    old(self).code(),
                    with_status(old(self).machine(), Status::Running),
                    input@,
                    Seq::empty(),
                    max_steps as nat,
                ),
                next_input <= input.len(),
                drive(self.code(), self.machine(), input@.skip(next_input as int), out@, fuel as nat)
                    == target,
            decreases fuel,
        {
            let status = *self.vm.status();
            match status {
                Status::Waiting(WaitReason::NeedInput) => {
                    if next_input >= input.len() {
                        return Err(RunError::InputExhausted);
                    }
                    let byte = input[next_input];
                    assert(input@.skip(next_input as int).drop_first() =~= input@.skip(
                        next_input as int + 1,
                    ));
                    if let Err(e) = self.supply_input(byte) {
                        return Err(RunError::Vm(e));
                    }
                    next_input = next_input + 1;
                },
                Status::Waiting(WaitReason::NeedOutput) => {
                    match self.consume_output() {
                        Ok(b) => out.push(b),
                        Err(e) => return Err(RunError::Vm(e)),
                    }
                },
                _ => {
                    if let Err(e) = self.step() {
                        return Err(RunError::Vm(e));
                    }
                },
            }
            fuel = fuel - 1;
        }
        if *self.vm.status() == Status::Halted {
            Ok(out)
        } else {
            Err(RunError::StepLimit)
        }
    }
}

} // verus!
