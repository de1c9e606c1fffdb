use vstd::prelude::*;
use vstd::arithmetic::div_mod::{lemma_add_mod_noop, lemma_mod_self_0, lemma_small_mod};

use crate::program::Instruction;

verus! {

/// What a suspended machine waits for.
#[derive(Clone, Copy, Debug, PartialEq, Eq, Structural)]
pub enum WaitReason {
    NeedInput,
    NeedOutput,
}

/// The control state of a machine.
#[derive(Clone, Copy, Debug, PartialEq, Eq, Structural)]
pub enum Status {
    /// Not started yet, or reset.
    Idle,
    /// Ready to execute the next instruction.
    Running,
    /// Suspended until the driver supplies or takes a byte.
    Waiting(WaitReason),
    /// Stopped by an `Exit` instruction.
    Halted,
}

/// What a pointer move past either end of the tape does.
#[derive(Clone, Copy, Debug, PartialEq, Eq, Structural)]
pub enum MemoryOverflowBehavior {
    /// The move fails with `VmError::PointerOutOfBounds`.
    Unchecked,
    /// The pointer stays at the end.
    Saturate,
    /// The pointer comes round to the other end.
    Wrap,
}

/// How a machine is built: the tape length and the overflow policy.
#[derive(Clone, Copy, Debug, PartialEq, Eq, Structural)]
pub struct Settings {
    pub memory_size: usize,
    pub memory_overflow_behavior: MemoryOverflowBehavior,
}

impl Default for Settings {
    /// A tape of 4096 cells and unchecked pointer moves.
    fn default() -> (s: Settings)
        ensures
            s.memory_size == 4096,
            s.memory_overflow_behavior == MemoryOverflowBehavior::Unchecked,
    {
        Settings { memory_size: 4096, memory_overflow_behavior: MemoryOverflowBehavior::Unchecked }
    }
}

/// A misuse of the machine, or a pointer move off the tape.
#[derive(Clone, Copy, Debug, PartialEq, Eq, Structural)]
pub enum VmError {
    /// An instruction was given to a machine that is not running.
    NotRunning,
    /// `wakeup` on a machine that is not idle.
    InvalidTransition,
    /// An input byte was supplied while no read is pending.
    NotWaitingForInput,
    /// An output byte was taken while no write is pending.
    NotWaitingForOutput,
    /// An unchecked pointer move past either end of the tape.
    PointerOutOfBounds,
}

/// The abstract state of a machine.
pub struct VmState {
    pub tape: Seq<u8>,
    pub mp: int,
    pub pc: int,
    pub status: Status,
    pub policy: MemoryOverflowBehavior,
}

/// A non-empty tape with the data pointer on it; a suspended machine can step past its
/// instruction.
pub open spec fn state_wf(v: VmState) -> bool {
    &&& 1 <= v.tape.len() <= usize::MAX
    &&& 0 <= v.mp < v.tape.len()
    &&& 0 <= v.pc <= usize::MAX
    &&& v.status is Waiting ==> v.pc < usize::MAX
}

pub open spec fn inc_byte(b: u8) -> u8 {
    if b == 255 {
        0
    } else {
        (b + 1) as u8
    }
}

pub open spec fn dec_byte(b: u8) -> u8 {
    if b == 0 {
        255
    } else {
        (b - 1) as u8
    }
}

/// Where a forward move puts the data pointer, or `None` where it falls off the tape.
pub open spec fn forward(v: VmState) -> Option<int> {
    if v.mp + 1 < v.tape.len() {
        Some(v.mp + 1)
    } else {
        match v.policy {
            MemoryOverflowBehavior::Unchecked => None,
            MemoryOverflowBehavior::Saturate => Some(v.mp),
            MemoryOverflowBehavior::Wrap => Some(0),
        }
    }
}

/// Where a backward move puts the data pointer, or `None` where it falls off the tape.
pub open spec fn backward(v: VmState) -> Option<int> {
    if v.mp > 0 {
        Some(v.mp - 1)
    } else {
        match v.policy {
            MemoryOverflowBehavior::Unchecked => None,
            MemoryOverflowBehavior::Saturate => Some(v.mp),
            MemoryOverflowBehavior::Wrap => Some(v.tape.len() - 1),
        }
    }
}

pub open spec fn with_mp(v: VmState, mp: int) -> VmState {
    VmState { tape: v.tape, mp, pc: v.pc + 1, status: v.status, policy: v.policy }
}

pub open spec fn with_cell(v: VmState, b: u8) -> VmState {
    VmState { tape: v.tape.update(v.mp, b), mp: v.mp, pc: v.pc + 1, status: v.status, policy: v.policy }
}

pub open spec fn with_pc(v: VmState, pc: int) -> VmState {
    VmState { tape: v.tape, mp: v.mp, pc, status: v.status, policy: v.policy }
}

pub open spec fn with_status(v: VmState, status: Status) -> VmState {
    VmState { tape: v.tape, mp: v.mp, pc: v.pc, status, policy: v.policy }
}

/// The effect of one instruction on a running machine.
pub open spec fn execute_spec(v: VmState, ins: Instruction) -> Result<VmState, VmError> {
    match ins {
        Instruction::IncPtr => match forward(v) {
            Some(m) => Ok(with_mp(v, m)),
            None => Err(VmError::PointerOutOfBounds),
        },
        Instruction::DecPtr => match backward(v) {
            Some(m) => Ok(with_mp(v, m)),
            None => Err(VmError::PointerOutOfBounds),
        },
        Instruction::IncData => Ok(with_cell(v, inc_byte(v.tape[v.mp]))),
        Instruction::DecData => Ok(with_cell(v, dec_byte(v.tape[v.mp]))),
        Instruction::Output => Ok(with_status(v, Status::Waiting(WaitReason::NeedOutput))),
        Instruction::Input => Ok(with_status(v, Status::Waiting(WaitReason::NeedInput))),
        Instruction::JZ(t) => Ok(with_pc(v, if v.tape[v.mp] == 0 { t as int } else { v.pc + 1 })),
        Instruction::JNZ(t) => Ok(with_pc(v, if v.tape[v.mp] != 0 { t as int } else { v.pc + 1 })),
        Instruction::Exit => Ok(with_status(v, Status::Halted)),
    }
}

/// One step: the instruction's effect when the machine runs, else `NotRunning`.
pub open spec fn step_spec(v: VmState, ins: Instruction) -> Result<VmState, VmError> {
    if v.status == Status::Running {
        execute_spec(v, ins)
    } else {
        Err(VmError::NotRunning)
    }
}

/// The state after the driver supplies `b` to a pending read.
pub open spec fn supply_spec(v: VmState, b: u8) -> Result<VmState, VmError> {
    if v.status == Status::Waiting(WaitReason::NeedInput) {
        Ok(with_status(with_cell(v, b), Status::Running))
    } else {
        Err(VmError::NotWaitingForInput)
    }
}

/// The byte and the state after the driver takes the output of a pending write.
pub open spec fn consume_spec(v: VmState) -> Result<(u8, VmState), VmError> {
    if v.status == Status::Waiting(WaitReason::NeedOutput) {
        Ok((v.tape[v.mp], with_status(with_pc(v, v.pc + 1), Status::Running)))
    } else {
        Err(VmError::NotWaitingForOutput)
    }
}

/// A machine in its initial state for a tape of `n` cells.
pub open spec fn initial_state(n: int, policy: MemoryOverflowBehavior) -> VmState {
    VmState { tape: Seq::new(n as nat, |i: int| 0u8), mp: 0, pc: 0, status: Status::Idle, policy }
}

/// The effect of executing `ins` `k` times in a row.
pub open spec fn repeat(v: VmState, ins: Instruction, k: nat) -> Result<VmState, VmError>
    decreases k,
{
    if k == 0 {
        Ok(v)
    } else {
        match repeat(v, ins, (k - 1) as nat) {
            Ok(w) => execute_spec(w, ins),
            Err(e) => Err(e),
        }
    }
}

/// `k` increments add `k` to the cell modulo 256 and touch nothing else.
pub proof fn lemma_repeat_inc(v: VmState, k: nat)
    requires
        state_wf(v),
    ensures
        repeat(v, Instruction::IncData, k) == Ok::<VmState, VmError>(VmState {
            tape: v.tape.update(v.mp, ((v.tape[v.mp] + k) % 256) as u8),
            mp: v.mp,
            pc: v.pc + k,
            status: v.status,
            policy: v.policy,
        }),
    decreases k,
{
    if k == 0 {
        assert(v.tape.update(v.mp, ((v.tape[v.mp] + 0) % 256) as u8) =~= v.tape);
    } else {
        lemma_repeat_inc(v, (k - 1) as nat);
        let x = v.tape[v.mp] + k - 1;
        assert((x % 256 + 1) % 256 == (x + 1) % 256) by {
            lemma_add_mod_noop(x, 1, 256);
            lemma_small_mod(1, 256);
        }
        if x % 256 + 1 < 256 {
            lemma_small_mod((x % 256 + 1) as nat, 256);
        } else {
            lemma_mod_self_0(256);
        }
        assert(v.tape.update(v.mp, ((v.tape[v.mp] + k - 1) % 256) as u8).update(
            v.mp,
            ((v.tape[v.mp] + k) % 256) as u8,
        ) =~= v.tape.update(v.mp, ((v.tape[v.mp] + k) % 256) as u8));
    }
}

/// Cell arithmetic wraps: 256 increments give the cell back its value, and one decrement of
/// a zero cell gives 255.
pub proof fn lemma_cell_wraps(v: VmState)
    requires
        state_wf(v),
    ensures
        repeat(v, Instruction::IncData, 256) is Ok,
        repeat(v, Instruction::IncData, 256)->Ok_0.tape == v.tape,
        v.tape[v.mp] == 0 ==> execute_spec(v, Instruction::DecData) is Ok && execute_spec(
            v,
            Instruction::DecData,
        )->Ok_0.tape[v.mp] == 255,
{
    lemma_repeat_inc(v, 256);
    let b = v.tape[v.mp];
    assert((b + 256) % 256 == b) by {
        lemma_add_mod_noop(b as int, 256, 256);
        lemma_mod_self_0(256);
        lemma_small_mod(b as nat, 256);
    }
    assert(v.tape.update(v.mp, ((b + 256) % 256) as u8) =~= v.tape);
}

/// Under `Wrap`, `k` forward moves put the data pointer `k` cells on, modulo the tape length.
pub proof fn lemma_repeat_forward_wrap(v: VmState, k: nat)
    requires
        state_wf(v),
        v.policy == MemoryOverflowBehavior::Wrap,
    ensures
        repeat(v, Instruction::IncPtr, k) is Ok,
        repeat(v, Instruction::IncPtr, k)->Ok_0.mp == (v.mp + k) % (v.tape.len() as int),
        repeat(v, Instruction::IncPtr, k)->Ok_0.tape == v.tape,
        repeat(v, Instruction::IncPtr, k)->Ok_0.policy == v.policy,
    decreases k,
{
    let n = v.tape.len() as int;
    if k == 0 {
        lemma_small_mod(v.mp as nat, n as nat);
    } else {
        lemma_repeat_forward_wrap(v, (k - 1) as nat);
        let x = v.mp + k - 1;
        assert((x % n + 1int % n) % n == (x + 1) % n) by {
            lemma_add_mod_noop(x, 1, n);
        }
        if n == 1 {
            assert(x % n == 0);
            assert((x + 1) % n == 0);
        } else {
            lemma_small_mod(1, n as nat);
            if x % n + 1 < n {
                lemma_small_mod((x % n + 1) as nat, n as nat);
            } else {
                lemma_mod_self_0(n);
            }
        }
    }
}

/// Pointer moves respect the overflow policy: under `Saturate` on a one-cell tape any number
/// of forward moves leaves the data pointer at 0, and under `Wrap` as many forward moves as
/// the tape has cells bring it back where it started.
pub proof fn lemma_pointer_policies(v: VmState, k: nat)
    requires
        state_wf(v),
    ensures
        v.policy == MemoryOverflowBehavior::Saturate && v.tape.len() == 1 ==> repeat(
            v,
            Instruction::IncPtr,
            k,
        ) is Ok && repeat(v, Instruction::IncPtr, k)->Ok_0.mp == 0,
        v.policy == MemoryOverflowBehavior::Wrap ==> repeat(
            v,
            Instruction::IncPtr,
            v.tape.len(),
        ) is Ok && repeat(v, Instruction::IncPtr, v.tape.len())->Ok_0.mp == v.mp,
{
    if v.policy == MemoryOverflowBehavior::Saturate && v.tape.len() == 1 {
        lemma_repeat_forward_saturate_single(v, k);
    }
    if v.policy == MemoryOverflowBehavior::Wrap {
        let n = v.tape.len() as int;
        lemma_repeat_forward_wrap(v, v.tape.len());
        assert((v.mp + n) % n == v.mp) by {
            lemma_add_mod_noop(v.mp, n, n);
            lemma_mod_self_0(n);
            lemma_small_mod(v.mp as nat, n as nat);
        }
    }
}

proof fn lemma_repeat_forward_saturate_single(v: VmState, k: nat)
    requires
        state_wf(v),
        v.policy == MemoryOverflowBehavior::Saturate,
        v.tape.len() == 1,
    ensures
        repeat(v, Instruction::IncPtr, k) is Ok,
        repeat(v, Instruction::IncPtr, k)->Ok_0.mp == 0,
        repeat(v, Instruction::IncPtr, k)->Ok_0.tape == v.tape,
        repeat(v, Instruction::IncPtr, k)->Ok_0.policy == v.policy,
    decreases k,
{
    if k > 0 {
        lemma_repeat_forward_saturate_single(v, (k - 1) as nat);
    }
}

/// A tape machine that executes one instruction at a time and suspends for I/O.
pub struct VirtualMachine {
    memory: Vec<u8>,
    mp: usize,
    pc: usize,
    status: Status,
    settings: Settings,
}

impl View for VirtualMachine {
    type V = VmState;

    closed spec fn view(&self) -> VmState {
        VmState {
            tape: self.memory@,
            mp: self.mp as int,
            pc: self.pc as int,
            status: self.status,
            policy: self.settings.memory_overflow_behavior,
        }
    }
}

impl VirtualMachine {
    pub open spec fn wf(&self) -> bool {
        state_wf(self@)
    }

    /// A machine with the default settings.
    pub fn new() -> (vm: VirtualMachine)
        ensures
            vm.wf(),
            vm@ == initial_state(4096, MemoryOverflowBehavior::Unchecked),
    {
        VirtualMachine::with_settings(Settings::default())
    }

    /// An idle machine with a zeroed tape of `settings.memory_size` cells.
    pub fn with_settings(settings: Settings) -> (vm: VirtualMachine)
        requires
            settings.memory_size >= 1,
        ensures
            vm.wf(),
            vm@ == initial_state(settings.memory_size as int, settings.memory_overflow_behavior),
    {
        let memory: Vec<u8> = vec![0u8; settings.memory_size];
        let vm = VirtualMachine { memory, mp: 0, pc: 0, status: Status::Idle, settings };
        assert(vm@.tape =~= Seq::new(settings.memory_size as nat, |i: int| 0u8));
        vm
    }

    /// Zeroes the tape and brings the machine back to its initial state.
    pub fn reset(&mut self)
        requires
            old(self).wf(),
        ensures
            final(self).wf(),
            final(self)@ == initial_state(old(self)@.tape.len() as int, old(self)@.policy),
    {
        self.reset_core();
        self.reset_memory();
        assert(self@.tape =~= initial_state(old(self)@.tape.len() as int, old(self)@.policy).tape);
    }

    /// Fills the tape with zeros; nothing else changes.
    pub fn reset_memory(&mut self)
        requires
            old(self).wf(),
        ensures
            final(self).wf(),
            final(self)@.tape == Seq::new(old(self)@.tape.len(), |i: int| 0u8),
            final(self)@.mp == old(self)@.mp,
            final(self)@.pc == old(self)@.pc,
            final(self)@.status == old(self)@.status,
            final(self)@.policy == old(self)@.policy,
    {
        let n = self.memory.len();
        let mut i: usize = 0;
        while i < n
            invariant
                n == self.memory.len(),
                i <= n,
                self.mp == old(self).mp,
                self.pc == old(self).pc,
                self.status == old(self).status,
                self.settings == old(self).settings,
                forall|k: int| 0 <= k < i ==> self.memory@[k] == 0u8,
            decreases n - i,
        {
            self.memory.set(i, 0u8);
            i = i + 1;
        }
        assert(self@.tape =~= Seq::new(old(self)@.tape.len(), |i: int| 0u8));
    }

    /// Puts the program counter and the data pointer to 0 and the status to `Idle`; the tape
    /// is kept.
    pub fn reset_core(&mut self)
        requires
            old(self).wf(),
        ensures
            final(self).wf(),
            final(self)@ == (VmState {
                tape: old(self)@.tape,
                mp: 0,
                pc: 0,
                status: Status::Idle,
                policy: old(self)@.policy,
            }),
    {
        self.pc = 0;
        self.mp = 0;
        self.status = Status::Idle;
    }

    /// Brings an idle machine to `Running`; fails with `InvalidTransition` in any other status.
    pub fn wakeup(&mut self) -> (r: Result<(), VmError>)
        requires
            old(self).wf(),
        ensures
            final(self).wf(),
            old(self)@.status == Status::Idle ==> r is Ok && final(self)@ == with_status(
                old(self)@,
                Status::Running,
            ),
            old(self)@.status != Status::Idle ==> r == Err::<(), VmError>(
                VmError::InvalidTransition,
            ) && final(self)@ == old(self)@,
    {
        match self.status {
            Status::Idle => {
                self.status = Status::Running;
                Ok(())
            },
            _ => Err(VmError::InvalidTransition),
        }
    }

    pub fn status(&self) -> (r: &Status)
        ensures
            *r == self@.status,
    {
        &self.status
    }

    /// The program counter.
    pub fn pc(&self) -> (r: usize)
        ensures
            r == self@.pc,
    {
        self.pc
    }

    /// The data pointer.
    pub fn mp(&self) -> (r: usize)
        ensures
            r == self@.mp,
    {
        self.mp
    }

    /// The number of cells of the tape.
    pub fn memory_size(&self) -> (r: usize)
        ensures
            r == self@.tape.len(),
    {
        self.memory.len()
    }

    /// Executes one instruction on a running machine; on an error nothing changes.
    pub fn execute_instruction(&mut self, instruction: &Instruction) -> (r: Result<Status, VmError>)
        requires
            old(self).wf(),
            old(self)@.pc < usize::MAX,
        ensures
            final(self).wf(),
            match step_spec(old(self)@, *instruction) {
                Ok(v) => r == Ok::<Status, VmError>(v.status) && final(self)@ == v,
                Err(e) => r == Err::<Status, VmError>(e) && final(self)@ == old(self)@,
            },
    {
        if self.status != Status::Running {
            return Err(VmError::NotRunning);
        }
        let mut next_pc = self.pc + 1;
        match *instruction {
            Instruction::IncPtr => self.inc_mp()?,
            Instruction::DecPtr => self.dec_mp()?,
            Instruction::IncData => self.mem_inc(),
            Instruction::DecData => self.mem_dec(),
            Instruction::Output => {
                self.status = Status::Waiting(WaitReason::NeedOutput);
                return Ok(self.status);
            },
            Instruction::Input => {
                self.status = Status::Waiting(WaitReason::NeedInput);
                return Ok(self.status);
            },
            Instruction::JNZ(addr) => {
                if self.mem_rd() != 0 {
                    next_pc = addr;
                }
            },
            Instruction::JZ(addr) => {
                if self.mem_rd() == 0 {
                    next_pc = addr;
                }
            },
            Instruction::Exit => {
                self.status = Status::Halted;
                return Ok(self.status);
            },
        }
        self.pc = next_pc;
        Ok(self.status)
    }

    /// The cell under the data pointer.
    pub fn mem_rd(&self) -> (r: u8)
        requires
            self.wf(),
        ensures
            r == self@.tape[self@.mp],
    {
        self.memory[self.mp]
    }

    /// Writes the cell under the data pointer.
    pub fn mem_wr(&mut self, val: u8)
        requires
            old(self).wf(),
        ensures
            final(self).wf(),
            final(self)@ == with_pc(with_cell(old(self)@, val), old(self)@.pc),
    {
        self.memory.set(self.mp, val);
    }

    /// Adds one to the cell under the data pointer, 255 wrapping to 0.
    pub fn mem_inc(&mut self)
        requires
            old(self).wf(),
        ensures
            final(self).wf(),
            final(self)@ == with_pc(with_cell(old(self)@, inc_byte(old(self)@.tape[old(self)@.mp])), old(self)@.pc),
    {
        let b = self.memory[self.mp];
        let v: u8 = if b == 255 {
            0
        } else {
            b + 1
        };
        self.memory.set(self.mp, v);
    }

    /// Subtracts one from the cell under the data pointer, 0 wrapping to 255.
    pub fn mem_dec(&mut self)
        requires
            old(self).wf(),
        ensures
            final(self).wf(),
            final(self)@ == with_pc(with_cell(old(self)@, dec_byte(old(self)@.tape[old(self)@.mp])), old(self)@.pc),
    {
        let b = self.memory[self.mp];
        let v: u8 = if b == 0 {
            255
        } else {
            b - 1
        };
        self.memory.set(self.mp, v);
    }

    /// Moves the data pointer forward under the overflow policy.
    pub fn inc_mp(&mut self) -> (r: Result<(), VmError>)
        requires
            old(self).wf(),
        ensures
            final(self).wf(),
            match forward(old(self)@) {
                Some(m) => r is Ok && final(self)@ == with_pc(with_mp(old(self)@, m), old(self)@.pc),
                None => r == Err::<(), VmError>(VmError::PointerOutOfBounds) && final(self)@ == old(self)@,
            },
    {
        if self.mp + 1 < self.memory.len() {
            self.mp = self.mp + 1;
            return Ok(());
        }
        match self.settings.memory_overflow_behavior {
            MemoryOverflowBehavior::Unchecked => Err(VmError::PointerOutOfBounds),
            MemoryOverflowBehavior::Saturate => Ok(()),
            MemoryOverflowBehavior::Wrap => {
                self.mp = 0;
                Ok(())
            },
        }
    }

    /// Moves the data pointer backward under the overflow policy.
    pub fn dec_mp(&mut self) -> (r: Result<(), VmError>)
        requires
            old(self).wf(),
        ensures
            final(self).wf(),
            match backward(old(self)@) {
                Some(m) => r is Ok && final(self)@ == with_pc(with_mp(old(self)@, m), old(self)@.pc),
                None => r == Err::<(), VmError>(VmError::PointerOutOfBounds) && final(self)@ == old(self)@,
            },
    {
        if self.mp > 0 {
            self.mp = self.mp - 1;
            return Ok(());
        }
        match self.settings.memory_overflow_behavior {
            MemoryOverflowBehavior::Unchecked => Err(VmError::PointerOutOfBounds),
            MemoryOverflowBehavior::Saturate => Ok(()),
            MemoryOverflowBehavior::Wrap => {
                self.mp = self.memory.len() - 1;
                Ok(())
            },
        }
    }

    /// Completes a pending read with `byte`: the byte goes into the cell under the data
    /// pointer, the program counter moves past the read and the machine runs again.
    pub fn supply_input(&mut self, byte: u8) -> (r: Result<(), VmError>)
        requires
            old(self).wf(),
        ensures
            final(self).wf(),
            match supply_spec(old(self)@, byte) {
                Ok(v) => r is Ok && final(self)@ == v,
                Err(e) => r == Err::<(), VmError>(e) && final(self)@ == old(self)@,
            },
    {
        if self.status != Status::Waiting(WaitReason::NeedInput) {
            return Err(VmError::NotWaitingForInput);
        }
        self.memory.set(self.mp, byte);
        self.pc = self.pc + 1;
        self.status = Status::Running;
        Ok(())
    }

    /// Completes a pending write: returns the cell under the data pointer, moves the program
    /// counter past the write and lets the machine run again.
    pub fn consume_output(&mut self) -> (r: Result<u8, VmError>)
        requires
            old(self).wf(),
        ensures
            final(self).wf(),
            match consume_spec(old(self)@) {
                Ok((b, v)) => r == Ok::<u8, VmError>(b) && final(self)@ == v,
                Err(e) => r == Err::<u8, VmError>(e) && final(self)@ == old(self)@,
            },
    {
        if self.status != Status::Waiting(WaitReason::NeedOutput) {
            return Err(VmError::NotWaitingForOutput);
        }
        let b = self.memory[self.mp];
        self.pc = self.pc + 1;
        self.status = Status::Running;
        Ok(b)
    }

    /// Offers an input byte to a pending read. With `ignore_newlines` a newline is turned
    /// down (`Ok(false)`, nothing changes) and the read stays pending; any other byte is
    /// supplied (`Ok(true)`).
    pub fn read_byte(&mut self, byte: u8, ignore_newlines: bool) -> (r: Result<bool, VmError>)
        requires
            old(self).wf(),
        ensures
            final(self).wf(),
            match supply_spec(old(self)@, byte) {
                Ok(v) => if ignore_newlines && byte == 10 {
                    r == Ok::<bool, VmError>(false) && final(self)@ == old(self)@
                } else {
                    r == Ok::<bool, VmError>(true) && final(self)@ == v
                },
                Err(e) => r == Err::<bool, VmError>(e) && final(self)@ == old(self)@,
            },
    {
        if self.status != Status::Waiting(WaitReason::NeedInput) {
            return Err(VmError::NotWaitingForInput);
        }
        if ignore_newlines && byte == 10 {
            return Ok(false);
        }
        self.supply_input(byte)?;
        Ok(true)
    }

    /// Completes a pending write, as `consume_output` does: returns the cell under the data
    /// pointer, moves the program counter past the write and lets the machine run again.
    pub fn write_byte(&mut self) -> (r: Result<u8, VmError>)
        requires
            old(self).wf(),
        ensures
            final(self).wf(),
            match consume_spec(old(self)@) {
                Ok((b, v)) => r == Ok::<u8, VmError>(b) && final(self)@ == v,
                Err(e) => r == Err::<u8, VmError>(e) && final(self)@ == old(self)@,
            },
    {
        self.consume_output()
    }
}

} // verus!
