//! The state read VM: its machine state, its control flow, how read words
//! land in memory, how execution accounts for gas, and the run of a program
//! up to a halt, a failure, a yield or a state read.
//!
//! The ALU, predicate, cryptographic, stack, total control flow and
//! temporary memory operations of the constraint set are stepped by
//! `essential_constraint_vm`; reading state is the caller's work, started and
//! finished here.
use crate::keys::copy_words;
use essential_constraint_vm::Repeat;
use essential_constraint_vm::Memory as TemporaryMemory;
use essential_state_asm::Temporary;
use essential_state_asm::Stack as StackOp;
use essential_state_asm::Op as StateReadOp;
use essential_state_asm::{Constraint, TotalControlFlow};
use vstd::prelude::*;

verus! {

/// Unit used to measure gas.
pub type Gas = u64;

/// Gas limits.
#[derive(Debug, PartialEq, Eq, Clone, Copy)]
pub struct GasLimit {
    /// The amount that may be spent synchronously until the execution future should yield.
    pub per_yield: Gas,
    /// The total amount of gas that may be spent.
    pub total: Gas,
}

/// The gas that may be spent between yields unless a caller chooses otherwise.
pub const DEFAULT_PER_YIELD: Gas = 4096;

impl GasLimit {
    /// Unlimited gas limit with default gas-per-yield.
    pub fn unlimited() -> (g: GasLimit)
        ensures
            g.per_yield == DEFAULT_PER_YIELD,
            g.total == u64::MAX,
    {
        GasLimit { per_yield: DEFAULT_PER_YIELD, total: u64::MAX }
    }
}

/// The gas cost of performing an operation would exceed the gas limit.
#[derive(Debug, PartialEq, Eq, Clone, Copy)]
pub struct OutOfGasError {
    /// Total spent prior to the operation that would exceed the limit.
    pub spent: Gas,
    /// The gas required for the operation that failed.
    pub op_gas: Gas,
    /// The total gas limit that would be exceeded.
    pub limit: Gas,
}

/// Errors of the VM's stack.
#[derive(Debug, PartialEq, Eq, Clone, Copy)]
pub enum StackError {
    /// Attempted to pop a word from an empty stack.
    Empty,
    /// An index into the stack was out of bounds.
    IndexOutOfBounds,
    /// The stack size exceeded the size limit.
    Overflow,
}

/// Errors occuring during `ControlFlow` operation.
#[derive(Debug, PartialEq, Eq, Clone, Copy)]
pub enum ControlFlowError {
    /// A `JumpIf` operation encountered an invalid condition.
    ///
    /// Condition values must be 0 (false) or 1 (true).
    InvalidJumpIfCondition(i64),
}

/// Errors occuring during `Memory` operation.
#[derive(Debug, PartialEq, Eq, Clone, Copy)]
pub enum MemoryError {
    /// Attempted to access a memory index that was out of bounds.
    IndexOutOfBounds,
    /// An operation would have caused memory to overflow.
    Overflow,
}

/// A synchronous operation failed.
#[derive(Debug, PartialEq, Eq)]
pub enum OpSyncError {
    /// An error occurred during a `Constraint` operation; its message.
    Constraint(String),
    /// An error occurred during a `ControlFlow` operation.
    ControlFlow(ControlFlowError),
    /// An error occurred during a `Memory` operation.
    Memory(MemoryError),
    /// An error occurred during a `Stack` operation.
    Stack(StackError),
}

/// An asynchronous operation failed.
#[derive(Debug, PartialEq, Eq)]
pub enum OpAsyncError<E> {
    /// An error occurred during a `StateRead` operation.
    StateRead(E),
    /// A `Memory` access related error occurred.
    Memory(MemoryError),
    /// An error occurred during a `Stack` operation.
    Stack(StackError),
}

/// An individual operation failed during state read execution.
#[derive(Debug, PartialEq, Eq)]
pub enum OpError<E> {
    /// A synchronous operation failed.
    Sync(OpSyncError),
    /// An asynchronous operation failed.
    Async(OpAsyncError<E>),
    /// An error occurred while parsing an operation from bytes; its message.
    FromBytes(String),
    /// The total gas limit was exceeded.
    OutOfGas(OutOfGasError),
}

/// State read execution failure.
#[derive(Debug, PartialEq, Eq)]
pub enum StateReadError<E> {
    /// The operation at the specified index failed.
    Op(usize, OpError<E>),
}

/// The largest number of words on the stack.
pub const STACK_SIZE_LIMIT: usize = 4096;

/// The largest number of words in memory.
pub const MEMORY_SIZE_LIMIT: usize = 4096;

/// The VM's stack of words.
#[derive(Debug, PartialEq, Eq)]
pub struct Stack {
    words: Vec<i64>,
}

impl View for Stack {
    type V = Seq<i64>;

    closed spec fn view(&self) -> Seq<i64> {
        self.words@
    }
}

impl Stack {
    /// A stack never holds more words than its limit.
    #[verifier::type_invariant]
    spec fn bounded(self) -> bool {
        self.words@.len() <= STACK_SIZE_LIMIT
    }

    /// An empty stack.
    pub fn new() -> (s: Stack)
        ensures
            s@ == Seq::<i64>::empty(),
    {
        Stack { words: Vec::new() }
    }

    /// A stack holding the given words, bottom first; `None` beyond the size limit.
    pub fn from_words(words: Vec<i64>) -> (r: Option<Stack>)
        ensures
            match r {
                Some(s) => words@.len() <= STACK_SIZE_LIMIT && s@ == words@,
                None => words@.len() > STACK_SIZE_LIMIT,
            },
    {
        if words.len() <= STACK_SIZE_LIMIT {
            Some(Stack { words })
        } else {
            None
        }
    }

    /// The words on the stack, bottom first.
    pub fn words(&self) -> (r: &Vec<i64>)
        ensures
            r@ == self@,
    {
        &self.words
    }

    /// The number of words on the stack, which is never beyond its limit.
    pub fn len(&self) -> (r: usize)
        ensures
            r == self@.len(),
            r <= STACK_SIZE_LIMIT,
    {
        proof {
            use_type_invariant(self);
        }
        self.words.len()
    }

    /// Push a word; fails where the stack is full.
    pub fn push(&mut self, word: i64) -> (r: Result<(), StackError>)
        ensures
            match r {
                Ok(()) => old(self)@.len() < STACK_SIZE_LIMIT && final(self)@ == old(self)@.push(word),
                Err(e) => old(self)@.len() >= STACK_SIZE_LIMIT && e == StackError::Overflow
                    && final(self)@ == old(self)@,
            },
    {
        if self.words.len() >= STACK_SIZE_LIMIT {
            return Err(StackError::Overflow);
        }
        let mut words: Vec<i64> = Vec::new();
        std::mem::swap(&mut words, &mut self.words);
        words.push(word);
        self.words = words;
        Ok(())
    }

    /// Pop the top word; fails where the stack is empty.
    pub fn pop(&mut self) -> (r: Result<i64, StackError>)
        ensures
            match r {
                Ok(w) => old(self)@.len() > 0 && w == old(self)@.last() && final(self)@
                    == old(self)@.drop_last(),
                Err(e) => old(self)@.len() == 0 && e == StackError::Empty && final(self)@ == old(self)@,
            },
    {
        proof {
            use_type_invariant(&*self);
        }
        let mut words: Vec<i64> = Vec::new();
        std::mem::swap(&mut words, &mut self.words);
        let r = match words.pop() {
            Some(w) => Ok(w),
            None => Err(StackError::Empty),
        };
        self.words = words;
        r
    }

    /// Pop the top 2 words; the last popped comes first.
    pub fn pop2(&mut self) -> (r: Result<[i64; 2], StackError>)
        ensures
            match r {
                Ok(ws) => {
                    let n = old(self)@.len();
                    &&& n >= 2
                    &&& ws@ == old(self)@.subrange(n - 2, n as int)
                    &&& final(self)@ == old(self)@.subrange(0, n - 2)
                },
                Err(e) => old(self)@.len() < 2 && e == StackError::Empty && final(self)@.len() == 0,
            },
    {
        let w1 = self.pop()?;
        let w0 = match self.pop() {
            Ok(w) => w,
            Err(e) => {
                return Err(e);
            },
        };
        let r = [w0, w1];
        assert(r@ =~= old(self)@.subrange(old(self)@.len() - 2, old(self)@.len() as int));
        assert(self@ =~= old(self)@.subrange(0, old(self)@.len() - 2));
        Ok(r)
    }

    /// Pop the top 4 words; the last popped comes first.
    pub fn pop4(&mut self) -> (r: Result<[i64; 4], StackError>)
        ensures
            match r {
                Ok(ws) => {
                    let n = old(self)@.len();
                    &&& n >= 4
                    &&& ws@ == old(self)@.subrange(n - 4, n as int)
                    &&& final(self)@ == old(self)@.subrange(0, n - 4)
                },
                Err(e) => old(self)@.len() < 4 && e == StackError::Empty && final(self)@.len() == 0,
            },
    {
        let hi = self.pop2()?;
        let lo = match self.pop2() {
            Ok(ws) => ws,
            Err(e) => {
                return Err(e);
            },
        };
        let r = [lo[0], lo[1], hi[0], hi[1]];
        let ghost n = old(self)@.len();
        assert(r@ =~= old(self)@.subrange(n - 4, n as int));
        assert(self@ =~= old(self)@.subrange(0, n - 4));
        Ok(r)
    }
}

/// A type representing the VM's memory.
#[derive(Debug, PartialEq, Eq)]
pub struct Memory {
    slots: Vec<Option<i64>>,
}

impl View for Memory {
    type V = Seq<Option<i64>>;

    closed spec fn view(&self) -> Seq<Option<i64>> {
        self.slots@
    }
}

impl Memory {
    /// Memory never holds more slots than its limit.
    #[verifier::type_invariant]
    spec fn bounded(self) -> bool {
        self.slots@.len() <= MEMORY_SIZE_LIMIT
    }

    /// Empty memory.
    pub fn new() -> (m: Memory)
        ensures
            m@ == Seq::<Option<i64>>::empty(),
    {
        Memory { slots: Vec::new() }
    }

    /// The number of slots in memory, which is never beyond its limit.
    pub fn len(&self) -> (r: usize)
        ensures
            r == self@.len(),
            r <= MEMORY_SIZE_LIMIT,
    {
        proof {
            use_type_invariant(self);
        }
        self.slots.len()
    }

    /// Appends slots; fails, changing nothing, where memory would outgrow its limit.
    pub fn extend(&mut self, words: Vec<Option<i64>>) -> (r: Result<(), MemoryError>)
        ensures
            match r {
                Ok(()) => old(self)@.len() + words@.len() <= MEMORY_SIZE_LIMIT && final(self)@ == old(
                    self,
                )@ + words@,
                Err(e) => old(self)@.len() + words@.len() > MEMORY_SIZE_LIMIT && e
                    == MemoryError::Overflow && final(self)@ == old(self)@,
            },
    {
        if words.len() > MEMORY_SIZE_LIMIT || self.slots.len() > MEMORY_SIZE_LIMIT - words.len() {
            return Err(MemoryError::Overflow);
        }
        let mut words = words;
        let mut slots: Vec<Option<i64>> = Vec::new();
        std::mem::swap(&mut slots, &mut self.slots);
        slots.append(&mut words);
        self.slots = slots;
        Ok(())
    }

    /// The slots of memory.
    pub fn into_slots(self) -> (r: Vec<Option<i64>>)
        ensures
            r@ == self@,
    {
        self.slots
    }
}

/// A stack operation of the constraint set.
#[verifier::external_type_specification]
#[verifier::external_body]
pub struct ExStackOp(StackOp);

/// An operation of a state read program.
#[verifier::external_type_specification]
pub struct ExStateReadOp(StateReadOp);

/// An operation of the constraint set.
#[verifier::external_type_specification]
pub struct ExConstraintOp(Constraint);

/// A state memory operation.
#[verifier::external_type_specification]
#[verifier::external_body]
pub struct ExStateMemoryOp(essential_state_asm::StateMemory);

/// An access operation of the constraint set.
#[verifier::external_type_specification]
#[verifier::external_body]
pub struct ExAccessOp(essential_state_asm::Access);

/// A total control flow operation of the constraint set.
#[verifier::external_type_specification]
#[verifier::external_body]
pub struct ExTotalControlFlowOp(TotalControlFlow);

/// A temporary memory operation of the constraint set.
#[verifier::external_type_specification]
#[verifier::external_body]
pub struct ExTemporaryOp(Temporary);

/// The counters of the repeat loops of the constraint set.
#[verifier::external_type_specification]
#[verifier::external_body]
pub struct ExRepeat(Repeat);

/// The temporary memory of the constraint set.
#[verifier::external_type_specification]
#[verifier::external_body]
pub struct ExTemporaryMemory(TemporaryMemory);

/// `essential_constraint_vm::Memory::new`: empty temporary memory.
#[verifier::external_body]
fn new_temporary_memory() -> (r: TemporaryMemory) {
    TemporaryMemory::new()
}

/// The counters of the repeat loops and the temporary memory of the
/// constraint set, as a plain value.
pub type Scratch = (Repeat, TemporaryMemory);

/// `essential_constraint_vm::Repeat::new`: no repeat loop open.
#[verifier::external_body]
fn new_repeat() -> (r: Repeat) {
    essential_constraint_vm::Repeat::new()
}

/// The operation execution state of the State Read VM.
#[derive(Debug, PartialEq)]
pub struct Vm {
    /// The "program counter", i.e. index of the current operation within the program.
    pub pc: usize,
    /// The stack machine.
    pub stack: Stack,
    /// The program memory, primarily used for collecting the state being read.
    pub memory: Memory,
    /// The counters of the repeat loops that are open.
    pub repeat: Repeat,
    /// The temporary memory of the constraint set's operations.
    pub temporary: TemporaryMemory,
}

impl Vm {
    /// A VM at the first operation, with empty stack and memory.
    pub fn new() -> (vm: Vm)
        ensures
            vm.pc == 0,
            vm.stack@ == Seq::<i64>::empty(),
            vm.memory@ == Seq::<Option<i64>>::empty(),
    {
        Vm { pc: 0, stack: Stack::new(), memory: Memory::new(), repeat: new_repeat(), temporary: new_temporary_memory() }
    }

    /// Consumes the `Vm` and returns the read state slots.
    pub fn into_state_slots(self) -> (r: Vec<Option<i64>>)
        ensures
            r@ == self.memory@,
    {
        self.memory.into_slots()
    }
}

/// The operations for controlling the flow of the program.
#[derive(Debug, PartialEq, Eq, Clone, Copy)]
pub enum ControlFlowOp {
    /// Jump to the index on top of the stack.
    Jump,
    /// Jump to the index below the top of the stack where the top is 1.
    JumpIf,
    /// End execution.
    Halt,
}

/// The set of operations that are performed asynchronously.
#[derive(Debug, PartialEq, Eq, Clone, Copy)]
pub enum OpAsync {
    /// Read a range of words from state starting at the key.
    StateReadWordRange,
    /// Read a range of words from external state starting at the key.
    StateReadWordRangeExt,
}

/// A word as a condition: 0 is false, 1 is true, other words are none.
pub open spec fn spec_bool_from_word(w: i64) -> Option<bool> {
    if w == 0 {
        Some(false)
    } else if w == 1 {
        Some(true)
    } else {
        None
    }
}

/// A word as a condition: 0 is false, 1 is true, other words are none.
pub fn bool_from_word(w: i64) -> (r: Option<bool>)
    ensures
        r == spec_bool_from_word(w),
{
    if w == 0 {
        Some(false)
    } else if w == 1 {
        Some(true)
    } else {
        None
    }
}

/// A word as an index: where it is neither negative nor beyond `usize`.
pub open spec fn spec_word_to_usize(w: i64) -> Option<usize> {
    if 0 <= w <= usize::MAX {
        Some(w as usize)
    } else {
        None
    }
}

/// A word as an index: where it is neither negative nor beyond `usize`.
pub fn word_to_usize(w: i64) -> (r: Option<usize>)
    ensures
        r == spec_word_to_usize(w),
{
    if w < 0 {
        None
    } else if w as u64 > usize::MAX as u64 {
        None
    } else {
        Some(w as usize)
    }
}

/// What `ControlFlow::Jump` gives for the stack `s`: the word on top as the
/// new program counter, which must not be negative.
pub open spec fn spec_jump(s: Seq<i64>) -> Result<usize, StackError> {
    if s.len() == 0 {
        Err(StackError::Empty)
    } else {
        match spec_word_to_usize(s.last()) {
            Some(pc) => Ok(pc),
            None => Err(StackError::IndexOutOfBounds),
        }
    }
}

/// What `ControlFlow::JumpIf` gives for the stack `s` at `pc`: with a
/// condition on top and a target below it, the target where the condition is
/// 1, the next operation where it is 0.
pub open spec fn spec_jump_if(s: Seq<i64>, pc: usize) -> Result<usize, OpSyncError> {
    let n = s.len();
    if n < 2 {
        Err(OpSyncError::Stack(StackError::Empty))
    } else {
        match spec_bool_from_word(s[n - 1]) {
            None => Err(OpSyncError::ControlFlow(ControlFlowError::InvalidJumpIfCondition(s[n - 1]))),
            Some(false) => Ok((pc + 1) as usize),
            Some(true) => match spec_word_to_usize(s[n - 2]) {
                Some(t) => Ok(t),
                None => Err(OpSyncError::Stack(StackError::IndexOutOfBounds)),
            },
        }
    }
}

/// What a control flow operation gives for the stack `s` at `pc`: the new
/// program counter, or `None` where execution halts.
pub open spec fn spec_ctrl_flow(op: ControlFlowOp, s: Seq<i64>, pc: usize) -> Result<
    Option<usize>,
    OpSyncError,
> {
    match op {
        ControlFlowOp::Jump => match spec_jump(s) {
            Ok(t) => Ok(Some(t)),
            Err(e) => Err(OpSyncError::Stack(e)),
        },
        ControlFlowOp::JumpIf => match spec_jump_if(s, pc) {
            Ok(t) => Ok(Some(t)),
            Err(e) => Err(e),
        },
        ControlFlowOp::Halt => Ok(None),
    }
}

/// What is left of the stack `s` after a control flow operation, whether it
/// succeeded or failed: the words it popped are gone, and a pop that found
/// too few words took those there were.
pub open spec fn spec_ctrl_flow_stack(op: ControlFlowOp, s: Seq<i64>) -> Seq<i64> {
    match op {
        ControlFlowOp::Jump => if s.len() == 0 {
            s
        } else {
            s.drop_last()
        },
        ControlFlowOp::JumpIf => if s.len() < 2 {
            Seq::empty()
        } else {
            s.subrange(0, s.len() - 2)
        },
        ControlFlowOp::Halt => s,
    }
}

/// `ControlFlow::Jump` operation: the new program counter is the word on top
/// of the stack, which must not be negative.
pub fn jump(vm: &mut Vm) -> (r: Result<usize, StackError>)
    ensures
        final(vm).pc == old(vm).pc,
        final(vm).memory@ == old(vm).memory@,
        final(vm).repeat == old(vm).repeat,
        final(vm).temporary == old(vm).temporary,
        r == spec_jump(old(vm).stack@),
        final(vm).stack@ == spec_ctrl_flow_stack(ControlFlowOp::Jump, old(vm).stack@),
{
    let new_pc = vm.stack.pop()?;
    match word_to_usize(new_pc) {
        Some(pc) => Ok(pc),
        None => Err(StackError::IndexOutOfBounds),
    }
}

/// `ControlFlow::JumpIf` operation: pops a target and a condition (on top);
/// jumps to the target where the condition is 1, steps on where it is 0.
pub fn jump_if(vm: &mut Vm) -> (r: Result<usize, OpSyncError>)
    requires
        old(vm).pc < usize::MAX,
    ensures
        final(vm).pc == old(vm).pc,
        final(vm).memory@ == old(vm).memory@,
        final(vm).repeat == old(vm).repeat,
        final(vm).temporary == old(vm).temporary,
        r == spec_jump_if(old(vm).stack@, old(vm).pc),
        final(vm).stack@ == spec_ctrl_flow_stack(ControlFlowOp::JumpIf, old(vm).stack@),
{
    let ws = match vm.stack.pop2() {
        Ok(ws) => ws,
        Err(e) => {
            return Err(OpSyncError::Stack(e));
        },
    };
    let new_pc = ws[0];
    let cond = ws[1];
    let cond = match bool_from_word(cond) {
        Some(b) => b,
        None => {
            return Err(OpSyncError::ControlFlow(ControlFlowError::InvalidJumpIfCondition(cond)));
        },
    };
    if cond {
        match word_to_usize(new_pc) {
            Some(pc) => Ok(pc),
            None => Err(OpSyncError::Stack(StackError::IndexOutOfBounds)),
        }
    } else {
        Ok(vm.pc + 1)
    }
}

/// Steps the VM by a control flow operation: the new program counter, or
/// `None` where execution halts.
pub fn step_op_ctrl_flow(op: ControlFlowOp, vm: &mut Vm) -> (r: Result<Option<usize>, OpSyncError>)
    requires
        old(vm).pc < usize::MAX,
    ensures
        final(vm).pc == old(vm).pc,
        final(vm).memory@ == old(vm).memory@,
        final(vm).repeat == old(vm).repeat,
        final(vm).temporary == old(vm).temporary,
        r == spec_ctrl_flow(op, old(vm).stack@, old(vm).pc),
        final(vm).stack@ == spec_ctrl_flow_stack(op, old(vm).stack@),
{
    match op {
        ControlFlowOp::Jump => match jump(vm) {
            Ok(pc) => Ok(Some(pc)),
            Err(e) => Err(OpSyncError::Stack(e)),
        },
        ControlFlowOp::JumpIf => match jump_if(vm) {
            Ok(pc) => Ok(Some(pc)),
            Err(e) => Err(e),
        },
        ControlFlowOp::Halt => Ok(None),
    }
}

/// The program counter after an operation other than control flow.
pub fn next_pc(pc: usize) -> (r: usize)
    requires
        pc < usize::MAX,
    ensures
        r == pc + 1,
{
    pc + 1
}

/// Writes words to the end of memory and pushes the index of the first of
/// them onto the stack.
pub fn write_words_to_memory<E>(vm: &mut Vm, words: Vec<Option<i64>>) -> (r: Result<(), OpAsyncError<E>>)
    ensures
        final(vm).pc == old(vm).pc,
        match r {
            Ok(()) => {
                &&& final(vm).memory@ == old(vm).memory@ + words@
                &&& final(vm).stack@ == old(vm).stack@.push(old(vm).memory@.len() as i64)
            },
            Err(OpAsyncError::Memory(MemoryError::Overflow)) => old(vm).memory@.len() + words@.len()
                > MEMORY_SIZE_LIMIT && final(vm).memory@ == old(vm).memory@ && final(vm).stack@ == old(
                vm,
            ).stack@,
            Err(OpAsyncError::Stack(StackError::IndexOutOfBounds)) => old(vm).memory@.len()
                > i64::MAX,
            Err(OpAsyncError::Stack(StackError::Overflow)) => old(vm).stack@.len() >= STACK_SIZE_LIMIT
                && final(vm).memory@ == old(vm).memory@ + words@ && final(vm).stack@ == old(vm).stack@,
            Err(_) => false,
        },
{
    let len = vm.memory.len();
    if len as u64 > 0x7fff_ffff_ffff_ffffu64 {
        return Err(OpAsyncError::Stack(StackError::IndexOutOfBounds));
    }
    let start = len as i64;
    match vm.memory.extend(words) {
        Ok(()) => {},
        Err(e) => {
            return Err(OpAsyncError::Memory(e));
        },
    }
    match vm.stack.push(start) {
        Ok(()) => Ok(()),
        Err(e) => Err(OpAsyncError::Stack(e)),
    }
}

/// What a state read operation asks for: a key of four words and a number of
/// words, and for an external read the address of the contract set.
#[derive(Debug, PartialEq, Eq)]
pub struct WordRangeArgs {
    pub key: [i64; 4],
    pub num_words: usize,
}

/// Pops the arguments of a state read: the number of words on top, which must
/// not be negative, then the key.
pub fn read_word_range_args<E>(vm: &mut Vm) -> (r: Result<WordRangeArgs, OpAsyncError<E>>)
    ensures
        final(vm).pc == old(vm).pc,
        final(vm).memory@ == old(vm).memory@,
        ({
            let s = old(vm).stack@;
            let n = s.len();
            match r {
                Ok(a) => n >= 5 && spec_word_to_usize(s[n - 1]) == Some(a.num_words) && a.key@
                    == s.subrange(n - 5, n - 1) && final(vm).stack@ == s.subrange(0, n - 5),
                Err(OpAsyncError::Stack(StackError::Empty)) => (n == 0 || (spec_word_to_usize(
                    s[n - 1],
                ) is Some && n < 5)) && final(vm).stack@.len() == 0,
                Err(OpAsyncError::Stack(StackError::IndexOutOfBounds)) => n > 0 && spec_word_to_usize(
                    s[n - 1],
                ) is None && final(vm).stack@ == s.drop_last(),
                Err(_) => false,
            }
        }),
{
    let len_word = match vm.stack.pop() {
        Ok(w) => w,
        Err(e) => {
            return Err(OpAsyncError::Stack(e));
        },
    };
    let num_words = match word_to_usize(len_word) {
        Some(n) => n,
        None => {
            return Err(OpAsyncError::Stack(StackError::IndexOutOfBounds));
        },
    };
    let key = match vm.stack.pop4() {
        Ok(k) => k,
        Err(e) => {
            return Err(OpAsyncError::Stack(e));
        },
    };
    let ghost s = old(vm).stack@;
    assert(s.drop_last().subrange(s.len() - 5, s.len() - 1) =~= s.subrange(s.len() - 5, s.len() - 1));
    assert(s.drop_last().subrange(0, s.len() - 5) =~= s.subrange(0, s.len() - 5));
    Ok(WordRangeArgs { key, num_words })
}

/// The big-endian bytes of four words, as `u8_32_from_word_4` lays them out.
pub open spec fn spec_bytes_of_words(words: Seq<i64>) -> Seq<u8> {
    Seq::new(
        32,
        |i: int| (((words[i / 8] as u64) >> ((8 * (7 - i % 8)) as u64)) & 0xff) as u8,
    )
}

/// `essential_types::convert::u8_32_from_word_4`.
///
/// Trusted: it lays out each word's big-endian bytes in turn, as the crate's
/// source shows (`to_be_bytes` on each word).
#[verifier::external_body]
fn u8_32_from_word_4(words: [i64; 4]) -> (r: [u8; 32])
    ensures
        r@ == spec_bytes_of_words(words@),
{
    essential_types::convert::u8_32_from_word_4(words)
}

/// What an external state read asks for: the contract set, the key and the
/// number of words.
#[derive(Debug, PartialEq, Eq)]
pub struct WordRangeExtArgs {
    pub set_addr: [u8; 32],
    pub key: [i64; 4],
    pub num_words: usize,
}

/// Pops the arguments of an external state read: the number of words on top,
/// which must not be negative, then the key, then the four words of the
/// address of the contract set.
pub fn read_word_range_ext_args<E>(vm: &mut Vm) -> (r: Result<WordRangeExtArgs, OpAsyncError<E>>)
    ensures
        final(vm).pc == old(vm).pc,
        final(vm).memory@ == old(vm).memory@,
        ({
            let s = old(vm).stack@;
            let n = s.len();
            match r {
                Ok(a) => {
                    &&& n >= 9
                    &&& spec_word_to_usize(s[n - 1]) == Some(a.num_words)
                    &&& a.key@ == s.subrange(n - 5, n - 1)
                    &&& a.set_addr@ == spec_bytes_of_words(s.subrange(n - 9, n - 5))
                    &&& final(vm).stack@ == s.subrange(0, n - 9)
                },
                Err(OpAsyncError::Stack(StackError::Empty)) => (n == 0 || (spec_word_to_usize(
                    s[n - 1],
                ) is Some && n < 9)) && final(vm).stack@.len() == 0,
                Err(OpAsyncError::Stack(StackError::IndexOutOfBounds)) => n > 0 && spec_word_to_usize(
                    s[n - 1],
                ) is None && final(vm).stack@ == s.drop_last(),
                Err(_) => false,
            }
        }),
{
    let args = read_word_range_args(vm)?;
    let addr_words = match vm.stack.pop4() {
        Ok(k) => k,
        Err(e) => {
            return Err(OpAsyncError::Stack(e));
        },
    };
    let set_addr = u8_32_from_word_4(addr_words);
    let ghost s = old(vm).stack@;
    assert(s.subrange(0, s.len() - 5).subrange(s.len() - 9, s.len() - 5) =~= s.subrange(
        s.len() - 9,
        s.len() - 5,
    ));
    assert(s.subrange(0, s.len() - 5).subrange(0, s.len() - 9) =~= s.subrange(0, s.len() - 9));
    Ok(WordRangeExtArgs { set_addr, key: args.key, num_words: args.num_words })
}

/// Track gas limits and expenditure for execution.
#[derive(Debug, PartialEq, Eq)]
pub struct GasExec {
    /// The total and yield gas limits.
    limit: GasLimit,
    /// The gas threshold at which the future should yield.
    next_yield_threshold: Gas,
    /// The gas spent so far.
    spent: Gas,
    /// Whether execution has ended, by halting, completing or failing.
    finished: bool,
}

/// What to do after an operation has been stepped.
#[derive(Debug, PartialEq, Eq)]
pub enum PollStep<E> {
    /// Go on with the next operation.
    Continue,
    /// Yield to the scheduler, then go on with the next operation.
    Yield,
    /// Execution halted; the total gas spent.
    Done(Gas),
    /// Execution failed.
    Fail(StateReadError<E>),
    /// An asynchronous operation is next: the caller performs it, then
    /// completes it with [`GasExec::complete_async`] and the gas given here.
    Await(OpAsync, Gas),
}

/// How the operation at the program counter starts.
#[derive(Debug, PartialEq, Eq)]
pub enum OpStart<E> {
    /// There is no operation there: execution is complete; the gas spent.
    Finished(Gas),
    /// Execution failed before the operation could run.
    Failed(StateReadError<E>),
    /// The operation may run; the gas that will have been spent once it has.
    Charged(Gas),
}

impl GasExec {
    /// The limits.
    pub closed spec fn spec_limit(&self) -> GasLimit {
        self.limit
    }

    /// The gas spent so far.
    pub closed spec fn spec_spent(&self) -> Gas {
        self.spent
    }

    /// The gas at which execution yields next.
    pub closed spec fn spec_threshold(&self) -> Gas {
        self.next_yield_threshold
    }

    /// Whether execution has ended: it cannot be resumed.
    pub closed spec fn spec_finished(&self) -> bool {
        self.finished
    }

    /// The gas spent never exceeds the total limit, and the next yield is
    /// never more than the gas allowed per yield away.
    pub closed spec fn wf(&self) -> bool {
        &&& self.spent <= self.limit.total
        &&& self.next_yield_threshold <= self.spent + self.limit.per_yield
    }

    /// Initialise gas execution tracking from a given gas limit.
    pub fn from(limit: GasLimit) -> (g: GasExec)
        ensures
            g.wf(),
            g.spec_limit() == limit,
            g.spec_spent() == 0,
            g.spec_threshold() == limit.per_yield,
            !g.spec_finished(),
    {
        GasExec { spent: 0, next_yield_threshold: limit.per_yield, limit, finished: false }
    }

    /// The gas spent so far.
    pub fn spent(&self) -> (r: Gas)
        ensures
            r == self.spec_spent(),
    {
        self.spent
    }

    /// The gas at which execution yields next.
    pub fn next_yield_threshold(&self) -> (r: Gas)
        ensures
            r == self.spec_threshold(),
    {
        self.next_yield_threshold
    }

    /// Checks that an operation of cost `op_gas` at `pc` fits the total limit:
    /// the gas that will have been spent once it completes, or the error that
    /// execution fails with.
    pub fn charge<E>(&self, pc: usize, op_gas: Gas) -> (r: Result<Gas, StateReadError<E>>)
        ensures
            match r {
                Ok(next) => self.spec_spent() + op_gas <= self.spec_limit().total && next
                    == self.spec_spent() + op_gas,
                Err(e) => self.spec_spent() + op_gas > self.spec_limit().total && e == StateReadError::<
                    E,
                >::Op(
                    pc,
                    OpError::OutOfGas(
                        OutOfGasError {
                            spent: self.spec_spent(),
                            op_gas,
                            limit: self.spec_limit().total,
                        },
                    ),
                ),
            },
    {
        match self.spent.checked_add(op_gas) {
            Some(next) => {
                if next <= self.limit.total {
                    return Ok(next);
                }
            },
            None => {},
        }
        Err(StateReadError::Op(pc, OpError::OutOfGas(out_of_gas(self, op_gas))))
    }

    /// Starts the operation at `pc`, given what reading it gave: nothing where
    /// the program has ended, the reason it could not be read, or its gas
    /// cost. A program that has ended completes with the gas spent; an
    /// operation that cannot be read, or whose cost exceeds the total limit,
    /// fails at `pc`; any other is charged.
    pub fn start_op<E>(&self, pc: usize, op: Option<Result<Gas, String>>) -> (r: OpStart<E>)
        ensures
            match op {
                None => r == OpStart::<E>::Finished(self.spec_spent()),
                Some(Err(msg)) => r == OpStart::<E>::Failed(
                    StateReadError::Op(pc, OpError::FromBytes(msg)),
                ),
                Some(Ok(op_gas)) => if self.spec_spent() + op_gas <= self.spec_limit().total {
                    r == OpStart::<E>::Charged((self.spec_spent() + op_gas) as u64)
                } else {
                    r == OpStart::<E>::Failed(
                        StateReadError::Op(
                            pc,
                            OpError::OutOfGas(
                                OutOfGasError {
                                    spent: self.spec_spent(),
                                    op_gas,
                                    limit: self.spec_limit().total,
                                },
                            ),
                        ),
                    )
                },
            },
    {
        match op {
            None => OpStart::Finished(self.spent),
            Some(Err(msg)) => OpStart::Failed(StateReadError::Op(pc, OpError::FromBytes(msg))),
            Some(Ok(op_gas)) => match self.charge(pc, op_gas) {
                Ok(next) => OpStart::Charged(next),
                Err(e) => OpStart::Failed(e),
            },
        }
    }

    /// Completes a synchronous operation that [`GasExec::charge`] admitted:
    /// on error, execution fails at the operation's index, with nothing
    /// spent; else the gas is spent and the program counter moves, or
    /// execution is done where it halted, and execution yields once the
    /// gas spent reaches the yield threshold, which then moves on by the
    /// gas allowed per yield.
    pub fn complete_sync<E>(
        &mut self,
        vm: &mut Vm,
        next_spent: Gas,
        res: Result<Option<usize>, OpSyncError>,
    ) -> (r: PollStep<E>)
        requires
            old(self).wf(),
            old(self).spec_spent() <= next_spent <= old(self).spec_limit().total,
        ensures
            final(self).wf(),
            final(self).spec_limit() == old(self).spec_limit(),
            final(vm).stack == old(vm).stack,
            final(vm).memory == old(vm).memory,
            final(vm).repeat == old(vm).repeat,
        final(vm).temporary == old(vm).temporary,
            final(self).spec_finished() == old(self).spec_finished(),
            match res {
                Err(e) => {
                    &&& r == PollStep::<E>::Fail(StateReadError::Op(old(vm).pc, OpError::Sync(e)))
                    &&& *final(self) == *old(self)
                    &&& final(vm).pc == old(vm).pc
                },
                Ok(None) => {
                    &&& r == PollStep::<E>::Done(next_spent)
                    &&& final(self).spec_spent() == next_spent
                    &&& final(self).spec_threshold() == old(self).spec_threshold()
                    &&& final(vm).pc == old(vm).pc
                },
                Ok(Some(pc)) => {
                    &&& final(self).spec_spent() == next_spent
                    &&& final(vm).pc == pc
                    &&& if old(self).spec_threshold() <= next_spent {
                        &&& r == PollStep::<E>::Yield
                        &&& final(self).spec_threshold() == (if next_spent
                            + old(self).spec_limit().per_yield > u64::MAX {
                            u64::MAX
                        } else {
                            (next_spent + old(self).spec_limit().per_yield) as u64
                        })
                    } else {
                        &&& r == PollStep::<E>::Continue
                        &&& final(self).spec_threshold() == old(self).spec_threshold()
                    }
                },
            },
    {
        match res {
            Err(e) => PollStep::Fail(StateReadError::Op(vm.pc, OpError::Sync(e))),
            Ok(opt) => {
                self.spent = next_spent;
                match opt {
                    None => PollStep::Done(self.spent),
                    Some(pc) => {
                        vm.pc = pc;
                        if self.next_yield_threshold <= self.spent {
                            self.next_yield_threshold = self.spent.saturating_add(
                                self.limit.per_yield,
                            );
                            PollStep::Yield
                        } else {
                            PollStep::Continue
                        }
                    },
                }
            },
        }
    }

    /// Completes an asynchronous operation that [`GasExec::charge`] admitted:
    /// on error, execution fails at the operation's index; else the gas is
    /// spent, the program counter moves, and the yield threshold starts
    /// afresh from the gas spent.
    pub fn complete_async<E>(
        &mut self,
        vm: &mut Vm,
        next_spent: Gas,
        res: Result<usize, OpAsyncError<E>>,
    ) -> (r: Result<(), StateReadError<E>>)
        requires
            old(self).wf(),
            old(self).spec_spent() <= next_spent <= old(self).spec_limit().total,
        ensures
            final(self).wf(),
            final(self).spec_limit() == old(self).spec_limit(),
            final(vm).stack == old(vm).stack,
            final(vm).memory == old(vm).memory,
            final(vm).repeat == old(vm).repeat,
        final(vm).temporary == old(vm).temporary,
            final(self).spec_finished() == old(self).spec_finished(),
            match res {
                Err(e) => {
                    &&& r == Err::<(), StateReadError<E>>(
                        StateReadError::Op(old(vm).pc, OpError::Async(e)),
                    )
                    &&& *final(self) == *old(self)
                    &&& final(vm).pc == old(vm).pc
                },
                Ok(pc) => {
                    &&& r is Ok
                    &&& final(vm).pc == pc
                    &&& final(self).spec_spent() == next_spent
                    &&& final(self).spec_threshold() == (if next_spent + old(
                        self,
                    ).spec_limit().per_yield > u64::MAX {
                        u64::MAX
                    } else {
                        (next_spent + old(self).spec_limit().per_yield) as u64
                    })
                },
            },
    {
        match res {
            Err(e) => Err(StateReadError::Op(vm.pc, OpError::Async(e))),
            Ok(pc) => {
                vm.pc = pc;
                self.spent = next_spent;
                self.next_yield_threshold = self.spent.saturating_add(self.limit.per_yield);
                Ok(())
            },
        }
    }
}

/// An ALU operation of the constraint set.
#[verifier::external_type_specification]
#[verifier::external_body]
pub struct ExAlu(essential_state_asm::Alu);

/// A predicate operation of the constraint set.
#[verifier::external_type_specification]
#[verifier::external_body]
pub struct ExPred(essential_state_asm::Pred);

/// A cryptographic operation of the constraint set.
#[verifier::external_type_specification]
#[verifier::external_body]
pub struct ExCrypto(essential_state_asm::Crypto);

/// The view of an outcome whose error is text.
pub open spec fn text_result(r: Result<(), String>) -> Result<(), Seq<char>> {
    match r {
        Ok(()) => Ok(()),
        Err(m) => Err(m@),
    }
}

/// What `essential_constraint_vm::step_op_alu` leaves on a stack, and whether
/// it succeeded or the text of its error.
pub uninterp spec fn alu_step_of(op: essential_state_asm::Alu, stack: Seq<i64>) -> (
    Seq<i64>,
    Result<(), Seq<char>>,
);

/// What `essential_constraint_vm::step_op_pred` leaves on a stack, and
/// whether it succeeded or the text of its error.
pub uninterp spec fn pred_step_of(op: essential_state_asm::Pred, stack: Seq<i64>) -> (
    Seq<i64>,
    Result<(), Seq<char>>,
);

/// What `essential_constraint_vm::step_op_crypto` leaves on a stack, and
/// whether it succeeded or the text of its error.
pub uninterp spec fn crypto_step_of(op: essential_state_asm::Crypto, stack: Seq<i64>) -> (
    Seq<i64>,
    Result<(), Seq<char>>,
);

/// `essential_constraint_vm::step_op_alu` on a stack of words.
///
/// Trusted: the result depends on the operation and the words alone, and is
/// named [`alu_step_of`].
#[verifier::external_body]
fn alu_step(op: essential_state_asm::Alu, stack: Vec<i64>) -> (r: (Vec<i64>, Result<(), String>))
    ensures
        alu_step_of(op, stack@) == (r.0@, text_result(r.1)),
{
    let mut s = essential_constraint_vm::Stack::from(stack);
    let r = match essential_constraint_vm::step_op_alu(op, &mut s) {
        Ok(()) => Ok(()),
        Err(e) => Err(e.to_string()),
    };
    (s.into(), r)
}

/// `essential_constraint_vm::step_op_pred` on a stack of words.
///
/// Trusted: the result depends on the operation and the words alone, and is
/// named [`pred_step_of`].
#[verifier::external_body]
fn pred_step(op: essential_state_asm::Pred, stack: Vec<i64>) -> (r: (Vec<i64>, Result<(), String>))
    ensures
        pred_step_of(op, stack@) == (r.0@, text_result(r.1)),
{
    let mut s = essential_constraint_vm::Stack::from(stack);
    let r = match essential_constraint_vm::step_op_pred(op, &mut s) {
        Ok(()) => Ok(()),
        Err(e) => Err(e.to_string()),
    };
    (s.into(), r)
}

/// `essential_constraint_vm::step_op_crypto` on a stack of words.
///
/// Trusted: the result depends on the operation and the words alone, and is
/// named [`crypto_step_of`].
#[verifier::external_body]
fn crypto_step(op: essential_state_asm::Crypto, stack: Vec<i64>) -> (r: (Vec<i64>, Result<(), String>))
    ensures
        crypto_step_of(op, stack@) == (r.0@, text_result(r.1)),
{
    let mut s = essential_constraint_vm::Stack::from(stack);
    let r = match essential_constraint_vm::step_op_crypto(op, &mut s) {
        Ok(()) => Ok(()),
        Err(e) => Err(e.to_string()),
    };
    (s.into(), r)
}

/// What `essential_constraint_vm::step_op_stack` leaves at `pc` on a stack
/// and in the repeat counters, and whether it steps on (`None`), moves to a
/// program counter or halts (`Some`), or the text of its error.
pub uninterp spec fn stack_step_of(op: StackOp, pc: usize, stack: Seq<i64>, repeat: Repeat) -> (
    Seq<i64>,
    Repeat,
    Result<Option<Option<usize>>, Seq<char>>,
);

/// The view of a stack step's outcome.
pub open spec fn flow_result(r: Result<Option<Option<usize>>, String>) -> Result<Option<Option<usize>>, Seq<char>> {
    match r {
        Ok(f) => Ok(f),
        Err(m) => Err(m@),
    }
}

/// `essential_constraint_vm::step_op_stack` on a stack of words and the
/// repeat counters.
///
/// Trusted: the result depends on the operation, the program counter, the
/// words and the counters alone, and is named [`stack_step_of`].
#[verifier::external_body]
fn stack_step(op: StackOp, pc: usize, stack: Vec<i64>, repeat: &mut Repeat) -> (r: (
    Vec<i64>,
    Result<Option<Option<usize>>, String>,
))
    ensures
        stack_step_of(op, pc, stack@, *old(repeat)) == (r.0@, *final(repeat), flow_result(r.1)),
{
    let mut s = essential_constraint_vm::Stack::from(stack);
    let r = match essential_constraint_vm::step_op_stack(op, pc, &mut s, repeat) {
        Ok(None) => Ok(None),
        Ok(Some(essential_constraint_vm::ProgramControlFlow::Pc(p))) => Ok(Some(Some(p))),
        Ok(Some(essential_constraint_vm::ProgramControlFlow::Halt)) => Ok(Some(None)),
        Err(e) => Err(e.to_string()),
    };
    (s.into(), r)
}

/// What `essential_constraint_vm::step_on_total_control_flow` leaves at
/// `pc` on a stack, and whether it steps on (`None`), moves to a program
/// counter or halts (`Some`), or the text of its error.
pub uninterp spec fn total_control_flow_step_of(op: TotalControlFlow, pc: usize, stack: Seq<i64>) -> (
    Seq<i64>,
    Result<Option<Option<usize>>, Seq<char>>,
);

/// `essential_constraint_vm::step_on_total_control_flow` on a stack of
/// words.
///
/// Trusted: the result depends on the operation, the program counter and the
/// words alone, and is named [`total_control_flow_step_of`].
#[verifier::external_body]
fn total_control_flow_step(op: TotalControlFlow, pc: usize, stack: Vec<i64>) -> (r: (
    Vec<i64>,
    Result<Option<Option<usize>>, String>,
))
    ensures
        total_control_flow_step_of(op, pc, stack@) == (r.0@, flow_result(r.1)),
{
    let mut s = essential_constraint_vm::Stack::from(stack);
    let r = match essential_constraint_vm::step_on_total_control_flow(op, &mut s, pc) {
        Ok(None) => Ok(None),
        Ok(Some(essential_constraint_vm::ProgramControlFlow::Pc(p))) => Ok(Some(Some(p))),
        Ok(Some(essential_constraint_vm::ProgramControlFlow::Halt)) => Ok(Some(None)),
        Err(e) => Err(e.to_string()),
    };
    (s.into(), r)
}

/// What `essential_constraint_vm::step_on_temporary` leaves on a stack and
/// in the temporary memory, and whether it succeeded or the text of its
/// error.
pub uninterp spec fn temporary_step_of(op: Temporary, stack: Seq<i64>, memory: TemporaryMemory) -> (
    Seq<i64>,
    TemporaryMemory,
    Result<(), Seq<char>>,
);

/// `essential_constraint_vm::step_on_temporary` on a stack of words and the
/// temporary memory.
///
/// Trusted: the result depends on the operation, the words and the memory
/// alone, and is named [`temporary_step_of`].
#[verifier::external_body]
fn temporary_step(op: Temporary, stack: Vec<i64>, memory: &mut TemporaryMemory) -> (r: (
    Vec<i64>,
    Result<(), String>,
))
    ensures
        temporary_step_of(op, stack@, *old(memory)) == (r.0@, *final(memory), text_result(r.1)),
{
    let mut s = essential_constraint_vm::Stack::from(stack);
    let r = match essential_constraint_vm::step_on_temporary(op, &mut s, memory) {
        Ok(()) => Ok(()),
        Err(e) => Err(e.to_string()),
    };
    (s.into(), r)
}

/// An operation of a state read program.
#[derive(Debug, Clone, Copy)]
pub enum Op {
    /// Push a word.
    Push(i64),
    /// Pop a word.
    Pop,
    /// An ALU operation of the constraint set.
    Alu(essential_state_asm::Alu),
    /// A predicate operation of the constraint set.
    Pred(essential_state_asm::Pred),
    /// A cryptographic operation of the constraint set.
    Crypto(essential_state_asm::Crypto),
    /// A stack operation of the constraint set, repeat loops among them.
    Stack(StackOp),
    /// A total control flow operation of the constraint set.
    TotalControlFlow(TotalControlFlow),
    /// A temporary memory operation of the constraint set.
    Temporary(Temporary),
    /// A control flow operation.
    ControlFlow(ControlFlowOp),
    /// A state read, performed asynchronously by the caller.
    Async(OpAsync),
}

/// Why an operation failed, as a plain value.
pub enum FailView {
    Constraint(Seq<char>),
    ControlFlow(ControlFlowError),
    Memory(MemoryError),
    Stack(StackError),
    OutOfGas(OutOfGasError),
    Other,
}

/// What a run of operations comes to, as a plain value.
pub enum RunView {
    Continue,
    Yield,
    Done(Gas),
    Await(OpAsync, Gas),
    Fail(usize, FailView),
}

/// The plain view of a synchronous operation's error.
pub open spec fn sync_err_view(e: OpSyncError) -> FailView {
    match e {
        OpSyncError::Constraint(m) => FailView::Constraint(m@),
        OpSyncError::ControlFlow(c) => FailView::ControlFlow(c),
        OpSyncError::Memory(m) => FailView::Memory(m),
        OpSyncError::Stack(s) => FailView::Stack(s),
    }
}

/// The plain view of what a run came to.
pub open spec fn poll_view<E>(p: PollStep<E>) -> RunView {
    match p {
        PollStep::Continue => RunView::Continue,
        PollStep::Yield => RunView::Yield,
        PollStep::Done(g) => RunView::Done(g),
        PollStep::Await(a, g) => RunView::Await(a, g),
        PollStep::Fail(StateReadError::Op(pc, e)) => RunView::Fail(
            pc,
            match e {
                OpError::Sync(se) => sync_err_view(se),
                OpError::OutOfGas(o) => FailView::OutOfGas(o),
                _ => FailView::Other,
            },
        ),
    }
}

/// What a constraint step comes to on the stack `s` at `pc`, from the words
/// it left and its outcome: the stack it leaves (the words left, unless they
/// outgrow the stack, which then stays as it was), and the next operation or
/// why it failed.
pub open spec fn spec_words_step(r: (Seq<i64>, Result<(), Seq<char>>), s: Seq<i64>, pc: usize) -> (
    Seq<i64>,
    Result<Option<usize>, FailView>,
) {
    let (t, res) = r;
    if t.len() <= STACK_SIZE_LIMIT {
        match res {
            Ok(()) => (t, Ok(Some((pc + 1) as usize))),
            Err(m) => (t, Err(FailView::Constraint(m))),
        }
    } else {
        match res {
            Ok(()) => (s, Err(FailView::Stack(StackError::Overflow))),
            Err(m) => (s, Err(FailView::Constraint(m))),
        }
    }
}

/// What a stack or total control flow operation of the constraint set comes
/// to on the stack `s` at `pc`, from what it left and its outcome: the stack
/// it leaves (the words left, unless they outgrow the stack, which then stays
/// as it was), and the next operation (`None` where execution halts) or why
/// it failed.
pub open spec fn spec_flow_step(
    r: (Seq<i64>, Result<Option<Option<usize>>, Seq<char>>),
    s: Seq<i64>,
    pc: usize,
) -> (Seq<i64>, Result<Option<usize>, FailView>) {
    let (t, res) = r;
    let next = match res {
        Ok(None) => Ok(Some((pc + 1) as usize)),
        Ok(Some(flow)) => Ok(flow),
        Err(m) => Err(FailView::Constraint(m)),
    };
    if t.len() <= STACK_SIZE_LIMIT {
        (t, next)
    } else {
        match res {
            Err(m) => (s, Err(FailView::Constraint(m))),
            _ => (s, Err(FailView::Stack(StackError::Overflow))),
        }
    }
}

/// What a synchronous operation does at `pc` to the stack `s` and the repeat
/// counters and temporary memory `rep`: the stack, counters and memory it
/// leaves, whether it succeeded or failed, and the next operation (`None`
/// where execution halts) or why it failed.
pub open spec fn spec_sync_op(op: Op, s: Seq<i64>, rep: Scratch, pc: usize) -> (
    Seq<i64>,
    Scratch,
    Result<Option<usize>, FailView>,
) {
    match op {
        Op::Push(w) => if s.len() < STACK_SIZE_LIMIT {
            (s.push(w), rep, Ok(Some((pc + 1) as usize)))
        } else {
            (s, rep, Err(FailView::Stack(StackError::Overflow)))
        },
        Op::Pop => if s.len() > 0 {
            (s.drop_last(), rep, Ok(Some((pc + 1) as usize)))
        } else {
            (s, rep, Err(FailView::Stack(StackError::Empty)))
        },
        Op::Alu(o) => {
            let (t, res) = spec_words_step(alu_step_of(o, s), s, pc);
            (t, rep, res)
        },
        Op::Pred(o) => {
            let (t, res) = spec_words_step(pred_step_of(o, s), s, pc);
            (t, rep, res)
        },
        Op::Crypto(o) => {
            let (t, res) = spec_words_step(crypto_step_of(o, s), s, pc);
            (t, rep, res)
        },
        Op::Stack(o) => {
            let (t, r2, res) = stack_step_of(o, pc, s, rep.0);
            let (t2, out) = spec_flow_step((t, res), s, pc);
            (t2, (r2, rep.1), out)
        },
        Op::TotalControlFlow(o) => {
            let (t, res) = total_control_flow_step_of(o, pc, s);
            let (t2, out) = spec_flow_step((t, res), s, pc);
            (t2, rep, out)
        },
        Op::Temporary(o) => {
            let (t, m2, res) = temporary_step_of(o, s, rep.1);
            let (t2, out) = spec_words_step((t, res), s, pc);
            (t2, (rep.0, m2), out)
        },
        Op::ControlFlow(c) => (
            spec_ctrl_flow_stack(c, s),
            rep,
            match spec_ctrl_flow(c, s, pc) {
                Ok(o) => Ok(o),
                Err(e) => Err(sync_err_view(e)),
            },
        ),
        Op::Async(_) => (s, rep, Err(FailView::Other)),
    }
}

/// The yield threshold after a yield at `spent`: one yield's gas later.
pub open spec fn next_threshold(spent: u64, per_yield: u64) -> u64 {
    if spent + per_yield > u64::MAX {
        u64::MAX
    } else {
        (spent + per_yield) as u64
    }
}

/// Running the program `ops`, whose operations cost `costs`, from `pc` with
/// stack `stack`, repeat counters `rep`, `spent` gas spent and the next yield
/// at `threshold`, for at most `fuel` operations: what it comes to, and the
/// program counter, stack, repeat counters, gas spent and threshold it
/// leaves. Each operation is first charged; one
/// that would take the gas spent beyond the total fails where it stands; an
/// asynchronous one is handed to the caller; a synchronous one runs, failing
/// where it stands, halting, or moving on, and execution yields as soon as
/// the gas spent reaches the threshold. The end of the program completes.
pub open spec fn spec_run(
    ops: Seq<Op>,
    costs: Seq<Gas>,
    limit: GasLimit,
    pc: usize,
    stack: Seq<i64>,
    rep: Scratch,
    spent: u64,
    threshold: u64,
    fuel: nat,
) -> (RunView, usize, Seq<i64>, Scratch, u64, u64)
    decreases fuel,
{
    if fuel == 0 {
        (RunView::Continue, pc, stack, rep, spent, threshold)
    } else if pc >= ops.len() {
        (RunView::Done(spent), pc, stack, rep, spent, threshold)
    } else if spent + costs[pc as int] > limit.total {
        (
            RunView::Fail(
                pc,
                FailView::OutOfGas(
                    OutOfGasError { spent, op_gas: costs[pc as int], limit: limit.total },
                ),
            ),
            pc,
            stack,
            rep,
            spent,
            threshold,
        )
    } else {
        let next = (spent + costs[pc as int]) as u64;
        match ops[pc as int] {
            Op::Async(a) => (RunView::Await(a, next), pc, stack, rep, spent, threshold),
            op => match spec_sync_op(op, stack, rep, pc) {
                (s2, r2, Err(f)) => (RunView::Fail(pc, f), pc, s2, r2, spent, threshold),
                (s2, r2, Ok(None)) => (RunView::Done(next), pc, s2, r2, next, threshold),
                (s2, r2, Ok(Some(p2))) => if threshold <= next {
                    (RunView::Yield, p2, s2, r2, next, next_threshold(next, limit.per_yield))
                } else {
                    spec_run(ops, costs, limit, p2, s2, r2, next, threshold, (fuel - 1) as nat)
                },
            },
        }
    }
}

/// The view of a synchronous step's outcome.
pub open spec fn sync_res_view(r: Result<Option<usize>, OpSyncError>) -> Result<Option<usize>, FailView> {
    match r {
        Ok(o) => Ok(o),
        Err(e) => Err(sync_err_view(e)),
    }
}

/// Replaces the stack with what a constraint step left on it.
fn words_step(vm: &mut Vm, r: (Vec<i64>, Result<(), String>), pc: usize) -> (res: Result<
    Option<usize>,
    OpSyncError,
>)
    requires
        pc < usize::MAX,
    ensures
        final(vm).pc == old(vm).pc,
        final(vm).memory@ == old(vm).memory@,
        final(vm).repeat == old(vm).repeat,
        final(vm).temporary == old(vm).temporary,
        (final(vm).stack@, sync_res_view(res)) == spec_words_step(
            (r.0@, text_result(r.1)),
            old(vm).stack@,
            pc,
        ),
{
    let (t, outcome) = r;
    let fits = match Stack::from_words(t) {
        Some(st) => {
            vm.stack = st;
            true
        },
        None => false,
    };
    match outcome {
        Ok(()) => if fits {
            Ok(Some(pc + 1))
        } else {
            Err(OpSyncError::Stack(StackError::Overflow))
        },
        Err(m) => Err(OpSyncError::Constraint(m)),
    }
}

/// Replaces the stack with what a stack step left on it, and moves on as
/// the step says.
fn stack_words_step(vm: &mut Vm, r: (Vec<i64>, Result<Option<Option<usize>>, String>), pc: usize) -> (res:
    Result<Option<usize>, OpSyncError>)
    requires
        pc < usize::MAX,
    ensures
        final(vm).pc == old(vm).pc,
        final(vm).memory@ == old(vm).memory@,
        final(vm).repeat == old(vm).repeat,
        final(vm).temporary == old(vm).temporary,
        (final(vm).stack@, sync_res_view(res)) == spec_flow_step(
            (r.0@, flow_result(r.1)),
            old(vm).stack@,
            pc,
        ),
{
    let (t, outcome) = r;
    let fits = match Stack::from_words(t) {
        Some(st) => {
            vm.stack = st;
            true
        },
        None => false,
    };
    match outcome {
        Ok(None) => if fits {
            Ok(Some(pc + 1))
        } else {
            Err(OpSyncError::Stack(StackError::Overflow))
        },
        Ok(Some(flow)) => if fits {
            Ok(flow)
        } else {
            Err(OpSyncError::Stack(StackError::Overflow))
        },
        Err(m) => Err(OpSyncError::Constraint(m)),
    }
}

/// Runs the synchronous operations of a program from the program counter, for
/// at most `fuel` operations (a run that uses them all comes to `Continue`),
/// as [`spec_run`] states: until it halts, ends, fails, yields, or reaches an
/// asynchronous operation, which the caller starts with [`start_state_read`],
/// performs, and completes with [`finish_state_read`] before running on.
/// Operations that cost no gas can loop for ever, so the run is bounded.
pub fn run_sync_ops<E>(
    vm: &mut Vm,
    gas: &mut GasExec,
    ops: &Vec<Op>,
    costs: &Vec<Gas>,
    fuel: usize,
) -> (r: PollStep<E>)
    requires
        old(gas).wf(),
        !old(gas).spec_finished(),
        costs@.len() == ops@.len(),
    ensures
        final(gas).wf(),
        final(gas).spec_limit() == old(gas).spec_limit(),
        final(gas).spec_finished() == (r is Done || r is Fail),
        final(vm).memory@ == old(vm).memory@,
        ({
            let (v, pc, s, rp, spent, th) = spec_run(
                ops@,
                costs@,
                old(gas).spec_limit(),
                old(vm).pc,
                old(vm).stack@,
                (old(vm).repeat, old(vm).temporary),
                old(gas).spec_spent(),
                old(gas).spec_threshold(),
                fuel as nat,
            );
            &&& poll_view(r) == v
            &&& final(vm).pc == pc
            &&& final(gas).spec_spent() == spent
            &&& final(gas).spec_threshold() == th
            &&& final(vm).stack@ == s
            &&& (final(vm).repeat, final(vm).temporary) == rp
        }),
{
    let ghost lim = gas.spec_limit();
    let ghost mem = vm.memory@;
    let ghost all = spec_run(
        ops@,
        costs@,
        lim,
        vm.pc,
        vm.stack@,
        (vm.repeat, vm.temporary),
        gas.spec_spent(),
        gas.spec_threshold(),
        fuel as nat,
    );
    let mut f = fuel;
    loop
        invariant
            lim == old(gas).spec_limit(),
            mem == old(vm).memory@,
            all == spec_run(
                ops@,
                costs@,
                old(gas).spec_limit(),
                old(vm).pc,
                old(vm).stack@,
                (old(vm).repeat, old(vm).temporary),
                old(gas).spec_spent(),
                old(gas).spec_threshold(),
                fuel as nat,
            ),
            gas.wf(),
            !gas.spec_finished(),
            gas.spec_limit() == lim,
            vm.memory@ == mem,
            costs@.len() == ops@.len(),
            spec_run(
                ops@,
                costs@,
                lim,
                vm.pc,
                vm.stack@,
                (vm.repeat, vm.temporary),
                gas.spec_spent(),
                gas.spec_threshold(),
                f as nat,
            ) == all,
        decreases f,
    {
        if f == 0 {
            return PollStep::Continue;
        }
        if vm.pc >= ops.len() {
            gas.finished = true;
            return PollStep::Done(gas.spent());
        }
        let pc = vm.pc;
        let next = match gas.start_op::<E>(pc, Some(Ok(costs[pc]))) {
            OpStart::Charged(n) => n,
            OpStart::Failed(e) => {
                gas.finished = true;
                return PollStep::Fail(e);
            },
            OpStart::Finished(g) => {
                gas.finished = true;
                return PollStep::Done(g);
            },
        };
        let ghost s0 = vm.stack@;
        let ghost r0 = (vm.repeat, vm.temporary);
        let op = ops[pc];
        let res: Result<Option<usize>, OpSyncError> = match op {
            Op::Async(a) => {
                return PollStep::Await(a, next);
            },
            Op::ControlFlow(c) => step_op_ctrl_flow(c, vm),
            Op::Push(w) => match vm.stack.push(w) {
                Ok(()) => Ok(Some(pc + 1)),
                Err(e) => Err(OpSyncError::Stack(e)),
            },
            Op::Pop => match vm.stack.pop() {
                Ok(_) => Ok(Some(pc + 1)),
                Err(e) => Err(OpSyncError::Stack(e)),
            },
            Op::Alu(o) => {
                let words = copy_words(vm.stack.words());
                let r = alu_step(o, words);
                words_step(vm, r, pc)
            },
            Op::Pred(o) => {
                let words = copy_words(vm.stack.words());
                let r = pred_step(o, words);
                words_step(vm, r, pc)
            },
            Op::Crypto(o) => {
                let words = copy_words(vm.stack.words());
                let r = crypto_step(o, words);
                words_step(vm, r, pc)
            },
            Op::Stack(o) => {
                let words = copy_words(vm.stack.words());
                let r = stack_step(o, pc, words, &mut vm.repeat);
                stack_words_step(vm, r, pc)
            },
            Op::TotalControlFlow(o) => {
                let words = copy_words(vm.stack.words());
                let r = total_control_flow_step(o, pc, words);
                stack_words_step(vm, r, pc)
            },
            Op::Temporary(o) => {
                let words = copy_words(vm.stack.words());
                let r = temporary_step(o, words, &mut vm.temporary);
                words_step(vm, r, pc)
            },
        };
        assert(spec_sync_op(op, s0, r0, pc) == (vm.stack@, (vm.repeat, vm.temporary), sync_res_view(res)));
        match gas.complete_sync::<E>(vm, next, res) {
            PollStep::Continue => {
                f = f - 1;
            },
            PollStep::Done(g) => {
                gas.finished = true;
                return PollStep::Done(g);
            },
            PollStep::Fail(e) => {
                gas.finished = true;
                return PollStep::Fail(e);
            },
            other => {
                return other;
            },
        }
    }
}

/// A state read that a program asks for: `num_words` words from `key` on,
/// in the state of the contract set at `set_addr`.
#[derive(Debug, PartialEq, Eq, Clone, Copy)]
pub struct StateReadRequest {
    pub set_addr: [u8; 32],
    pub key: [i64; 4],
    pub num_words: usize,
}

/// Starts the state read `op` that [`run_sync_ops`] stopped at: pops its
/// arguments off the stack. A read of the program's own state reads the set
/// at `this_set`; an external read names its set on the stack. The caller
/// performs the read and hands the words to [`finish_state_read`].
pub fn start_state_read<E>(vm: &mut Vm, op: OpAsync, this_set: [u8; 32]) -> (r: Result<
    StateReadRequest,
    OpAsyncError<E>,
>)
    ensures
        (r is Ok) == (spec_read_popped(op, old(vm).stack@) is Some),
        r is Ok ==> Some(final(vm).stack@) == spec_read_popped(op, old(vm).stack@),
        final(vm).pc == old(vm).pc,
        final(vm).memory@ == old(vm).memory@,
        ({
            let s = old(vm).stack@;
            let n = s.len();
            match op {
                OpAsync::StateReadWordRange => match r {
                    Ok(q) => {
                        &&& n >= 5
                        &&& q.set_addr == this_set
                        &&& spec_word_to_usize(s[n - 1]) == Some(q.num_words)
                        &&& q.key@ == s.subrange(n - 5, n - 1)
                        &&& final(vm).stack@ == s.subrange(0, n - 5)
                    },
                    Err(OpAsyncError::Stack(StackError::Empty)) => (n == 0 || (spec_word_to_usize(
                        s[n - 1],
                    ) is Some && n < 5)) && final(vm).stack@.len() == 0,
                    Err(OpAsyncError::Stack(StackError::IndexOutOfBounds)) => n > 0
                        && spec_word_to_usize(s[n - 1]) is None && final(vm).stack@ == s.drop_last(),
                    Err(_) => false,
                },
                OpAsync::StateReadWordRangeExt => match r {
                    Ok(q) => {
                        &&& n >= 9
                        &&& q.set_addr@ == spec_bytes_of_words(s.subrange(n - 9, n - 5))
                        &&& spec_word_to_usize(s[n - 1]) == Some(q.num_words)
                        &&& q.key@ == s.subrange(n - 5, n - 1)
                        &&& final(vm).stack@ == s.subrange(0, n - 9)
                    },
                    Err(OpAsyncError::Stack(StackError::Empty)) => (n == 0 || (spec_word_to_usize(
                        s[n - 1],
                    ) is Some && n < 9)) && final(vm).stack@.len() == 0,
                    Err(OpAsyncError::Stack(StackError::IndexOutOfBounds)) => n > 0
                        && spec_word_to_usize(s[n - 1]) is None && final(vm).stack@ == s.drop_last(),
                    Err(_) => false,
                },
            }
        }),
{
    match op {
        OpAsync::StateReadWordRange => match read_word_range_args::<E>(vm) {
            Ok(a) => Ok(StateReadRequest { set_addr: this_set, key: a.key, num_words: a.num_words }),
            Err(e) => Err(e),
        },
        OpAsync::StateReadWordRangeExt => match read_word_range_ext_args::<E>(vm) {
            Ok(a) => Ok(StateReadRequest { set_addr: a.set_addr, key: a.key, num_words: a.num_words }),
            Err(e) => Err(e),
        },
    }
}

/// Completes a state read with what the caller read: the words go to the
/// end of memory, where they start is pushed, execution moves to the next
/// operation and the read's gas is spent. A failed read, or words that do
/// not fit, fail the program at the read, spending nothing.
pub fn finish_state_read<E>(
    gas: &mut GasExec,
    vm: &mut Vm,
    next_spent: Gas,
    words: Result<Vec<Option<i64>>, E>,
) -> (r: Result<(), StateReadError<E>>)
    requires
        old(gas).wf(),
        !old(gas).spec_finished(),
        old(gas).spec_spent() <= next_spent <= old(gas).spec_limit().total,
        old(vm).pc < usize::MAX,
    ensures
        final(gas).wf(),
        final(gas).spec_limit() == old(gas).spec_limit(),
        final(gas).spec_finished() == r is Err,
        match words {
            Err(e) => {
                &&& r == Err::<(), StateReadError<E>>(
                    StateReadError::Op(old(vm).pc, OpError::Async(OpAsyncError::StateRead(e))),
                )
                &&& final(gas).spec_spent() == old(gas).spec_spent()
                &&& final(gas).spec_threshold() == old(gas).spec_threshold()
                &&& final(vm).pc == old(vm).pc
                &&& final(vm).stack@ == old(vm).stack@
                &&& final(vm).memory@ == old(vm).memory@
            },
            Ok(w) => {
                &&& (r is Ok <==> (old(vm).memory@.len() + w@.len() <= MEMORY_SIZE_LIMIT
                    && old(vm).stack@.len() < STACK_SIZE_LIMIT))
                &&& match r {
                    Ok(()) => {
                        &&& final(vm).memory@ == old(vm).memory@ + w@
                        &&& final(vm).stack@ == old(vm).stack@.push(old(vm).memory@.len() as i64)
                        &&& final(vm).pc == old(vm).pc + 1
                        &&& final(gas).spec_spent() == next_spent
                        &&& final(gas).spec_threshold() == next_threshold(
                            next_spent,
                            old(gas).spec_limit().per_yield,
                        )
                    },
                    Err(StateReadError::Op(pc, OpError::Async(e))) => {
                        &&& pc == old(vm).pc
                        &&& final(vm).pc == old(vm).pc
                        &&& final(gas).spec_spent() == old(gas).spec_spent()
                        &&& final(gas).spec_threshold() == old(gas).spec_threshold()
                        &&& final(vm).stack@ == old(vm).stack@
                        &&& (e == OpAsyncError::<E>::Memory(MemoryError::Overflow) && final(vm).memory@
                            == old(vm).memory@ || e == OpAsyncError::<E>::Stack(StackError::Overflow)
                            && final(vm).memory@ == old(vm).memory@ + w@)
                    },
                    Err(_) => false,
                }
            },
        },
{
    let pc = vm.pc;
    let _ = vm.memory.len();
    let res: Result<usize, OpAsyncError<E>> = match words {
        Err(e) => Err(OpAsyncError::StateRead(e)),
        Ok(w) => match write_words_to_memory::<E>(vm, w) {
            Ok(()) => {
                let _ = vm.memory.len();
                let _ = vm.stack.len();
                Ok(pc + 1)
            },
            Err(e) => Err(e),
        },
    };
    let r = gas.complete_async(vm, next_spent, res);
    if r.is_err() {
        gas.finished = true;
    }
    r
}

/// Running the program `ops` as [`spec_run`] does, but without ever
/// yielding: what it comes to, and the program counter, stack, repeat
/// counters and gas spent it leaves.
pub open spec fn spec_exec(
    ops: Seq<Op>,
    costs: Seq<Gas>,
    limit: GasLimit,
    pc: usize,
    stack: Seq<i64>,
    rep: Scratch,
    spent: u64,
    fuel: nat,
) -> (RunView, usize, Seq<i64>, Scratch, u64)
    decreases fuel,
{
    if fuel == 0 {
        (RunView::Continue, pc, stack, rep, spent)
    } else if pc >= ops.len() {
        (RunView::Done(spent), pc, stack, rep, spent)
    } else if spent + costs[pc as int] > limit.total {
        (
            RunView::Fail(
                pc,
                FailView::OutOfGas(
                    OutOfGasError { spent, op_gas: costs[pc as int], limit: limit.total },
                ),
            ),
            pc,
            stack,
            rep,
            spent,
        )
    } else {
        let next = (spent + costs[pc as int]) as u64;
        match ops[pc as int] {
            Op::Async(a) => (RunView::Await(a, next), pc, stack, rep, spent),
            op => match spec_sync_op(op, stack, rep, pc) {
                (s2, r2, Err(f)) => (RunView::Fail(pc, f), pc, s2, r2, spent),
                (s2, r2, Ok(None)) => (RunView::Done(next), pc, s2, r2, next),
                (s2, r2, Ok(Some(p2))) => spec_exec(ops, costs, limit, p2, s2, r2, next, (fuel - 1) as nat),
            },
        }
    }
}

/// Yielding does not change what a program comes to: a run that does not
/// yield comes to what the run without yields comes to, leaving the same
/// program counter, stack, repeat counters and gas spent; a run that yields stops at a state
/// from which the run without yields, with less fuel, comes to what it
/// comes to from the start.
pub proof fn lemma_yields_keep_outcome(
    ops: Seq<Op>,
    costs: Seq<Gas>,
    limit: GasLimit,
    pc: usize,
    stack: Seq<i64>,
    rep: Scratch,
    spent: u64,
    threshold: u64,
    fuel: nat,
)
    ensures
        ({
            let (v, p2, s2, r2, sp2, th2) = spec_run(ops, costs, limit, pc, stack, rep, spent, threshold, fuel);
            if v is Yield {
                exists|rest: nat|
                    rest < fuel && spec_exec(ops, costs, limit, pc, stack, rep, spent, fuel)
                        == #[trigger] spec_exec(ops, costs, limit, p2, s2, r2, sp2, rest)
            } else {
                spec_exec(ops, costs, limit, pc, stack, rep, spent, fuel) == (v, p2, s2, r2, sp2)
            }
        }),
    decreases fuel,
{
    if fuel > 0 && pc < ops.len() && spent + costs[pc as int] <= limit.total {
        let next = (spent + costs[pc as int]) as u64;
        match ops[pc as int] {
            Op::Async(_) => {},
            op => match spec_sync_op(op, stack, rep, pc) {
                (_, _, Err(_)) => {},
                (_, _, Ok(None)) => {},
                (s2, r2, Ok(Some(p2))) => {
                    if threshold > next {
                        lemma_yields_keep_outcome(
                            ops,
                            costs,
                            limit,
                            p2,
                            s2,
                            r2,
                            next,
                            threshold,
                            (fuel - 1) as nat,
                        );
                        let (v, q, t, rq, sp, th) = spec_run(
                            ops,
                            costs,
                            limit,
                            p2,
                            s2,
                            r2,
                            next,
                            threshold,
                            (fuel - 1) as nat,
                        );
                        if v is Yield {
                            let rest = choose|rest: nat|
                                rest < (fuel - 1) as nat && spec_exec(
                                    ops,
                                    costs,
                                    limit,
                                    p2,
                                    s2,
                                    r2,
                                    next,
                                    (fuel - 1) as nat,
                                ) == #[trigger] spec_exec(ops, costs, limit, q, t, rq, sp, rest);
                            assert(rest < fuel);
                        }
                    }
                },
            },
        }
    }
}

/// Whether a run came to an end of its own: it completed, failed, or
/// reached a state read; not a yield, and not the end of its fuel.
pub open spec fn settled(v: RunView) -> bool {
    !(v is Yield || v is Continue)
}

/// Whether the run without yields from the first state, given `k` more
/// operations' fuel than from the second, comes to what it comes to from the
/// second: it passes through the second state after `k` operations.
spec fn passes_through(
    ops: Seq<Op>,
    costs: Seq<Gas>,
    limit: GasLimit,
    pc: usize,
    stack: Seq<i64>,
    rep: Scratch,
    spent: u64,
    p2: usize,
    s2: Seq<i64>,
    r2: Scratch,
    sp2: u64,
    k: nat,
) -> bool {
    forall|f: nat|
        f >= k ==> #[trigger] spec_exec(ops, costs, limit, pc, stack, rep, spent, f) == spec_exec(
            ops,
            costs,
            limit,
            p2,
            s2,
            r2,
            sp2,
            (f - k) as nat,
        )
}

/// A run with more fuel passes through the state a run with less fuel
/// stops at, and a settled run stays settled whatever fuel it is given.
proof fn lemma_run_exec(
    ops: Seq<Op>,
    costs: Seq<Gas>,
    limit: GasLimit,
    pc: usize,
    stack: Seq<i64>,
    rep: Scratch,
    spent: u64,
    threshold: u64,
    fuel: nat,
)
    ensures
        ({
            let (v, p2, s2, r2, sp2, th2) = spec_run(ops, costs, limit, pc, stack, rep, spent, threshold, fuel);
            if settled(v) {
                forall|f: nat| f >= fuel ==> #[trigger] spec_exec(ops, costs, limit, pc, stack, rep, spent, f)
                    == (v, p2, s2, r2, sp2)
            } else {
                exists|k: nat|
                    k <= fuel && #[trigger] passes_through(ops, costs, limit, pc, stack, rep, spent, p2, s2, r2, sp2, k)
            }
        }),
    decreases fuel,
{
    let (v, p2, s2, r2, sp2, th2) = spec_run(ops, costs, limit, pc, stack, rep, spent, threshold, fuel);
    if fuel == 0 {
        assert forall|f: nat| f >= 0 implies #[trigger] spec_exec(ops, costs, limit, pc, stack, rep, spent, f)
            == spec_exec(ops, costs, limit, p2, s2, r2, sp2, (f - 0) as nat) by {}
        assert(passes_through(ops, costs, limit, pc, stack, rep, spent, p2, s2, r2, sp2, 0));
    } else if pc >= ops.len() || spent + costs[pc as int] > limit.total {
        assert forall|f: nat| f >= fuel implies #[trigger] spec_exec(ops, costs, limit, pc, stack, rep, spent, f)
            == (v, p2, s2, r2, sp2) by {}
    } else {
        let next = (spent + costs[pc as int]) as u64;
        match ops[pc as int] {
            Op::Async(_) => {
                assert forall|f: nat| f >= fuel implies #[trigger] spec_exec(ops, costs, limit, pc, stack, rep, spent, f)
                    == (v, p2, s2, r2, sp2) by {}
            },
            op => match spec_sync_op(op, stack, rep, pc) {
                (_, _, Err(_)) => {
                    assert forall|f: nat| f >= fuel implies #[trigger] spec_exec(ops, costs, limit, pc, stack, rep, spent, f)
                        == (v, p2, s2, r2, sp2) by {}
                },
                (_, _, Ok(None)) => {
                    assert forall|f: nat| f >= fuel implies #[trigger] spec_exec(ops, costs, limit, pc, stack, rep, spent, f)
                        == (v, p2, s2, r2, sp2) by {}
                },
                (t, rt, Ok(Some(q))) => {
                    if threshold <= next {
                        assert forall|f: nat| f >= 1 implies #[trigger] spec_exec(ops, costs, limit, pc, stack, rep, spent, f)
                            == spec_exec(ops, costs, limit, p2, s2, r2, sp2, (f - 1) as nat) by {}
                        assert(passes_through(ops, costs, limit, pc, stack, rep, spent, p2, s2, r2, sp2, 1));
                    } else {
                        lemma_run_exec(ops, costs, limit, q, t, rt, next, threshold, (fuel - 1) as nat);
                        if settled(v) {
                            assert forall|f: nat| f >= fuel implies #[trigger] spec_exec(ops, costs, limit, pc, stack, rep, spent, f)
                                == (v, p2, s2, r2, sp2) by {
                                assert(spec_exec(ops, costs, limit, pc, stack, rep, spent, f)
                                    == spec_exec(ops, costs, limit, q, t, rt, next, (f - 1) as nat));
                            }
                        } else {
                            let k = choose|k: nat|
                                k <= (fuel - 1) as nat && #[trigger] passes_through(ops, costs, limit, q, t, rt, next, p2, s2, r2, sp2, k);
                            assert forall|f: nat| f >= k + 1 implies #[trigger] spec_exec(ops, costs, limit, pc, stack, rep, spent, f)
                                == spec_exec(ops, costs, limit, p2, s2, r2, sp2, (f - (k + 1)) as nat) by {
                                assert(spec_exec(ops, costs, limit, pc, stack, rep, spent, f)
                                    == spec_exec(ops, costs, limit, q, t, rt, next, (f - 1) as nat));
                                assert(((f - 1) as nat - k) as nat == (f - (k + 1)) as nat);
                            }
                            assert(passes_through(ops, costs, limit, pc, stack, rep, spent, p2, s2, r2, sp2, k + 1));
                        }
                    }
                },
            },
        }
    }
}

/// Driving a program as a caller of [`run_sync_ops`] does: each call runs at
/// most `fuel` operations, and after a yield or the end of its fuel the
/// caller calls again, at most `polls` calls in all; what the last call came
/// to, and the program counter, stack, repeat counters and gas spent it left.
pub open spec fn spec_drive(
    ops: Seq<Op>,
    costs: Seq<Gas>,
    limit: GasLimit,
    pc: usize,
    stack: Seq<i64>,
    rep: Scratch,
    spent: u64,
    threshold: u64,
    fuel: nat,
    polls: nat,
) -> (RunView, usize, Seq<i64>, Scratch, u64)
    decreases polls,
{
    let (v, p2, s2, r2, sp2, th2) = spec_run(ops, costs, limit, pc, stack, rep, spent, threshold, fuel);
    if polls <= 1 || settled(v) {
        (v, p2, s2, r2, sp2)
    } else {
        spec_drive(ops, costs, limit, p2, s2, r2, sp2, th2, fuel, (polls - 1) as nat)
    }
}

/// A driven program that settles comes to what the run without yields comes
/// to, given enough fuel.
proof fn lemma_drive_exec(
    ops: Seq<Op>,
    costs: Seq<Gas>,
    limit: GasLimit,
    pc: usize,
    stack: Seq<i64>,
    rep: Scratch,
    spent: u64,
    threshold: u64,
    fuel: nat,
    polls: nat,
)
    ensures
        settled(spec_drive(ops, costs, limit, pc, stack, rep, spent, threshold, fuel, polls).0) ==> exists|k: nat|
            #[trigger] settles_at(ops, costs, limit, pc, stack, rep, spent, k, spec_drive(ops, costs, limit, pc, stack, rep, spent, threshold, fuel, polls)),
    decreases polls,
{
    let d = spec_drive(ops, costs, limit, pc, stack, rep, spent, threshold, fuel, polls);
    let (v, p2, s2, r2, sp2, th2) = spec_run(ops, costs, limit, pc, stack, rep, spent, threshold, fuel);
    lemma_run_exec(ops, costs, limit, pc, stack, rep, spent, threshold, fuel);
    if settled(d.0) {
        if settled(v) {
            assert(settles_at(ops, costs, limit, pc, stack, rep, spent, fuel, d));
        } else {
            lemma_drive_exec(ops, costs, limit, p2, s2, r2, sp2, th2, fuel, (polls - 1) as nat);
            let k1 = choose|k: nat| k <= fuel && #[trigger] passes_through(ops, costs, limit, pc, stack, rep, spent, p2, s2, r2, sp2, k);
            let k2 = choose|k: nat| #[trigger] settles_at(ops, costs, limit, p2, s2, r2, sp2, k, d);
            assert forall|f: nat| f >= k1 + k2 implies #[trigger] spec_exec(ops, costs, limit, pc, stack, rep, spent, f) == d by {
                assert(spec_exec(ops, costs, limit, pc, stack, rep, spent, f)
                    == spec_exec(ops, costs, limit, p2, s2, r2, sp2, (f - k1) as nat));
                assert(spec_exec(ops, costs, limit, p2, s2, r2, sp2, (f - k1) as nat) == d);
            }
            assert(settles_at(ops, costs, limit, pc, stack, rep, spent, k1 + k2, d));
        }
    }
}

/// Whether the run without yields, from the given state with `k` or more
/// operations' fuel, comes to `d`.
spec fn settles_at(
    ops: Seq<Op>,
    costs: Seq<Gas>,
    limit: GasLimit,
    pc: usize,
    stack: Seq<i64>,
    rep: Scratch,
    spent: u64,
    k: nat,
    d: (RunView, usize, Seq<i64>, Scratch, u64),
) -> bool {
    forall|f: nat| f >= k ==> #[trigger] spec_exec(ops, costs, limit, pc, stack, rep, spent, f) == d
}

/// The run without yields reads of the limits the total alone.
proof fn lemma_exec_total_only(
    ops: Seq<Op>,
    costs: Seq<Gas>,
    l1: GasLimit,
    l2: GasLimit,
    pc: usize,
    stack: Seq<i64>,
    rep: Scratch,
    spent: u64,
    fuel: nat,
)
    requires
        l1.total == l2.total,
    ensures
        spec_exec(ops, costs, l1, pc, stack, rep, spent, fuel) == spec_exec(ops, costs, l2, pc, stack, rep, spent, fuel),
    decreases fuel,
{
    if fuel > 0 && pc < ops.len() && spent + costs[pc as int] <= l1.total {
        match ops[pc as int] {
            Op::Async(_) => {},
            op => match spec_sync_op(op, stack, rep, pc) {
                (t, rt, Ok(Some(q))) => {
                    lemma_exec_total_only(ops, costs, l1, l2, q, t, rt, (spent + costs[pc as int]) as u64, (fuel - 1) as nat);
                },
                _ => {},
            },
        }
    }
}

/// The gas allowed per yield changes nothing of how a program ends: two
/// drives of a program from one state, under limits with the same total but
/// any gas per yield, any yield thresholds, any fuel per call and any number
/// of calls, that both settle (complete, fail, or reach a state read) come
/// to the same outcome, program counter, stack, repeat counters and gas
/// spent.
pub proof fn lemma_per_yield_keeps_outcome(
    ops: Seq<Op>,
    costs: Seq<Gas>,
    l1: GasLimit,
    l2: GasLimit,
    pc: usize,
    stack: Seq<i64>,
    rep: Scratch,
    spent: u64,
    th1: u64,
    th2: u64,
    fuel1: nat,
    fuel2: nat,
    polls1: nat,
    polls2: nat,
)
    requires
        l1.total == l2.total,
    ensures
        ({
            let d1 = spec_drive(ops, costs, l1, pc, stack, rep, spent, th1, fuel1, polls1);
            let d2 = spec_drive(ops, costs, l2, pc, stack, rep, spent, th2, fuel2, polls2);
            settled(d1.0) && settled(d2.0) ==> d1 == d2
        }),
{
    let d1 = spec_drive(ops, costs, l1, pc, stack, rep, spent, th1, fuel1, polls1);
    let d2 = spec_drive(ops, costs, l2, pc, stack, rep, spent, th2, fuel2, polls2);
    if settled(d1.0) && settled(d2.0) {
        lemma_drive_exec(ops, costs, l1, pc, stack, rep, spent, th1, fuel1, polls1);
        lemma_drive_exec(ops, costs, l2, pc, stack, rep, spent, th2, fuel2, polls2);
        let k1 = choose|k: nat| #[trigger] settles_at(ops, costs, l1, pc, stack, rep, spent, k, d1);
        let k2 = choose|k: nat| #[trigger] settles_at(ops, costs, l2, pc, stack, rep, spent, k, d2);
        let f = k1 + k2;
        assert(spec_exec(ops, costs, l1, pc, stack, rep, spent, f) == d1);
        assert(spec_exec(ops, costs, l2, pc, stack, rep, spent, f) == d2);
        lemma_exec_total_only(ops, costs, l1, l2, pc, stack, rep, spent, f);
    }
}

/// What is left of the stack `s` once the arguments of the state read `op`
/// are popped, where they are there: the number of words on top, which must
/// not be negative, then the key, and for an external read the address of
/// the set.
pub open spec fn spec_read_popped(op: OpAsync, s: Seq<i64>) -> Option<Seq<i64>> {
    let n = s.len();
    let need: int = match op {
        OpAsync::StateReadWordRange => 5,
        OpAsync::StateReadWordRangeExt => 9,
    };
    if n >= need && spec_word_to_usize(s[n - 1]) is Some {
        Some(s.subrange(0, n - need))
    } else {
        None
    }
}

/// The stack and memory that the state read `op` leaves, from stack `s` and
/// memory `mem`, once `words` were read for it; `None` where it fails.
pub open spec fn spec_read_step(op: OpAsync, s: Seq<i64>, mem: Seq<Option<i64>>, words: Seq<Option<i64>>) -> Option<
    (Seq<i64>, Seq<Option<i64>>),
> {
    match spec_read_popped(op, s) {
        None => None,
        Some(t) => if mem.len() + words.len() <= MEMORY_SIZE_LIMIT && t.len() < STACK_SIZE_LIMIT {
            Some((t.push(mem.len() as i64), mem + words))
        } else {
            None
        },
    }
}

/// The state of a program between operations: the program counter, stack,
/// repeat counters and temporary memory, memory, and gas spent.
pub type RunState = (usize, Seq<i64>, Scratch, Seq<Option<i64>>, u64);

/// Executing a program without yields from `st`, each stretch between state
/// reads with `fuel` operations' fuel, the state reads answered by
/// `replies` in turn: what it comes to and the state it leaves. A state read
/// that fails fails the execution where it stands.
pub open spec fn spec_exec_reads(
    ops: Seq<Op>,
    costs: Seq<Gas>,
    limit: GasLimit,
    st: RunState,
    replies: Seq<Seq<Option<i64>>>,
    fuel: nat,
) -> (RunView, RunState)
    decreases replies.len(),
{
    let (v, p2, s2, r2, sp2) = spec_exec(ops, costs, limit, st.0, st.1, st.2, st.4, fuel);
    let here = (p2, s2, r2, st.3, sp2);
    match v {
        RunView::Await(op, next) => if replies.len() == 0 {
            (v, here)
        } else {
            match spec_read_step(op, s2, st.3, replies[0]) {
                Some((s3, m3)) => if p2 < usize::MAX {
                    spec_exec_reads(ops, costs, limit, ((p2 + 1) as usize, s3, r2, m3, next), replies.drop_first(), fuel)
                } else {
                    (RunView::Fail(p2, FailView::Other), here)
                },
                None => (RunView::Fail(p2, FailView::Other), here),
            }
        },
        _ => (v, here),
    }
}

/// Driving a program from `st` as a caller does, across its state reads:
/// each stretch between reads is driven as [`spec_drive`] states, starting
/// from the yield threshold that the read before it left, and the reads are
/// answered by `replies` in turn.
pub open spec fn spec_drive_reads(
    ops: Seq<Op>,
    costs: Seq<Gas>,
    limit: GasLimit,
    st: RunState,
    threshold: u64,
    replies: Seq<Seq<Option<i64>>>,
    fuel: nat,
    polls: nat,
) -> (RunView, RunState)
    decreases replies.len(),
{
    let (v, p2, s2, r2, sp2) = spec_drive(ops, costs, limit, st.0, st.1, st.2, st.4, threshold, fuel, polls);
    let here = (p2, s2, r2, st.3, sp2);
    match v {
        RunView::Await(op, next) => if replies.len() == 0 {
            (v, here)
        } else {
            match spec_read_step(op, s2, st.3, replies[0]) {
                Some((s3, m3)) => if p2 < usize::MAX {
                    spec_drive_reads(
                        ops,
                        costs,
                        limit,
                        ((p2 + 1) as usize, s3, r2, m3, next),
                        next_threshold(next, limit.per_yield),
                        replies.drop_first(),
                        fuel,
                        polls,
                    )
                } else {
                    (RunView::Fail(p2, FailView::Other), here)
                },
                None => (RunView::Fail(p2, FailView::Other), here),
            }
        },
        _ => (v, here),
    }
}

/// Whether executing without yields, with `k` or more operations' fuel per
/// stretch, comes to `d`.
spec fn reads_settle_at(
    ops: Seq<Op>,
    costs: Seq<Gas>,
    limit: GasLimit,
    st: RunState,
    replies: Seq<Seq<Option<i64>>>,
    k: nat,
    d: (RunView, RunState),
) -> bool {
    forall|f: nat| f >= k ==> #[trigger] spec_exec_reads(ops, costs, limit, st, replies, f) == d
}

/// A driven program that settles across its reads comes to what executing
/// it without yields comes to, given enough fuel.
proof fn lemma_drive_reads_exec(
    ops: Seq<Op>,
    costs: Seq<Gas>,
    limit: GasLimit,
    st: RunState,
    threshold: u64,
    replies: Seq<Seq<Option<i64>>>,
    fuel: nat,
    polls: nat,
)
    ensures
        settled(spec_drive_reads(ops, costs, limit, st, threshold, replies, fuel, polls).0) ==> exists|k: nat|
            #[trigger] reads_settle_at(ops, costs, limit, st, replies, k, spec_drive_reads(ops, costs, limit, st, threshold, replies, fuel, polls)),
    decreases replies.len(),
{
    let dr = spec_drive_reads(ops, costs, limit, st, threshold, replies, fuel, polls);
    let d = spec_drive(ops, costs, limit, st.0, st.1, st.2, st.4, threshold, fuel, polls);
    let (v, p2, s2, r2, sp2) = d;
    if settled(dr.0) {
        assert(settled(v));
        lemma_drive_exec(ops, costs, limit, st.0, st.1, st.2, st.4, threshold, fuel, polls);
        let k = choose|k: nat| #[trigger] settles_at(ops, costs, limit, st.0, st.1, st.2, st.4, k, d);
        let ok_read = match v {
            RunView::Await(op, next) => replies.len() > 0 && spec_read_step(op, s2, st.3, replies[0]) is Some
                && p2 < usize::MAX,
            _ => false,
        };
        if ok_read {
            let (op, next) = match v {
                RunView::Await(op, next) => (op, next),
                _ => (OpAsync::StateReadWordRange, 0),
            };
            let (s3, m3) = spec_read_step(op, s2, st.3, replies[0])->Some_0;
            let st2: RunState = ((p2 + 1) as usize, s3, r2, m3, next);
            lemma_drive_reads_exec(ops, costs, limit, st2, next_threshold(next, limit.per_yield), replies.drop_first(), fuel, polls);
            let k2 = choose|k: nat| #[trigger] reads_settle_at(ops, costs, limit, st2, replies.drop_first(), k, dr);
            assert forall|f: nat| f >= k + k2 implies #[trigger] spec_exec_reads(ops, costs, limit, st, replies, f) == dr by {
                assert(spec_exec(ops, costs, limit, st.0, st.1, st.2, st.4, f) == d);
                assert(spec_exec_reads(ops, costs, limit, st2, replies.drop_first(), f) == dr);
            }
            assert(reads_settle_at(ops, costs, limit, st, replies, k + k2, dr));
        } else {
            assert forall|f: nat| f >= k implies #[trigger] spec_exec_reads(ops, costs, limit, st, replies, f) == dr by {
                assert(spec_exec(ops, costs, limit, st.0, st.1, st.2, st.4, f) == d);
            }
            assert(reads_settle_at(ops, costs, limit, st, replies, k, dr));
        }
    }
}

/// Executing without yields across reads reads of the limits the total
/// alone.
proof fn lemma_exec_reads_total_only(
    ops: Seq<Op>,
    costs: Seq<Gas>,
    l1: GasLimit,
    l2: GasLimit,
    st: RunState,
    replies: Seq<Seq<Option<i64>>>,
    fuel: nat,
)
    requires
        l1.total == l2.total,
    ensures
        spec_exec_reads(ops, costs, l1, st, replies, fuel) == spec_exec_reads(ops, costs, l2, st, replies, fuel),
    decreases replies.len(),
{
    lemma_exec_total_only(ops, costs, l1, l2, st.0, st.1, st.2, st.4, fuel);
    let (v, p2, s2, r2, sp2) = spec_exec(ops, costs, l1, st.0, st.1, st.2, st.4, fuel);
    match v {
        RunView::Await(op, next) => if replies.len() > 0 {
            match spec_read_step(op, s2, st.3, replies[0]) {
                Some((s3, m3)) => if p2 < usize::MAX {
                    lemma_exec_reads_total_only(ops, costs, l1, l2, ((p2 + 1) as usize, s3, r2, m3, next), replies.drop_first(), fuel);
                },
                None => {},
            }
        },
        _ => {},
    }
}

/// The gas allowed per yield changes nothing of how a whole execution ends,
/// across its state reads: two drives of a program from one state, under
/// limits with the same total but any gas per yield, any yield thresholds,
/// any fuel per call and any number of calls per stretch, whose reads are
/// answered alike, and that both settle, come to the same outcome and
/// leave the same program counter, stack, repeat counters and temporary
/// memory, memory and gas spent.
pub proof fn lemma_per_yield_keeps_execution(
    ops: Seq<Op>,
    costs: Seq<Gas>,
    l1: GasLimit,
    l2: GasLimit,
    st: RunState,
    th1: u64,
    th2: u64,
    replies: Seq<Seq<Option<i64>>>,
    fuel1: nat,
    fuel2: nat,
    polls1: nat,
    polls2: nat,
)
    requires
        l1.total == l2.total,
    ensures
        ({
            let d1 = spec_drive_reads(ops, costs, l1, st, th1, replies, fuel1, polls1);
            let d2 = spec_drive_reads(ops, costs, l2, st, th2, replies, fuel2, polls2);
            settled(d1.0) && settled(d2.0) ==> d1 == d2
        }),
{
    let d1 = spec_drive_reads(ops, costs, l1, st, th1, replies, fuel1, polls1);
    let d2 = spec_drive_reads(ops, costs, l2, st, th2, replies, fuel2, polls2);
    if settled(d1.0) && settled(d2.0) {
        lemma_drive_reads_exec(ops, costs, l1, st, th1, replies, fuel1, polls1);
        lemma_drive_reads_exec(ops, costs, l2, st, th2, replies, fuel2, polls2);
        let k1 = choose|k: nat| #[trigger] reads_settle_at(ops, costs, l1, st, replies, k, d1);
        let k2 = choose|k: nat| #[trigger] reads_settle_at(ops, costs, l2, st, replies, k, d2);
        let f = k1 + k2;
        assert(spec_exec_reads(ops, costs, l1, st, replies, f) == d1);
        assert(spec_exec_reads(ops, costs, l2, st, replies, f) == d2);
        lemma_exec_reads_total_only(ops, costs, l1, l2, st, replies, f);
    }
}

/// What every gas tracker built by [`GasExec::from`] and moved on by
/// [`GasExec::complete_sync`] and [`GasExec::complete_async`] keeps: the gas
/// spent is within the total limit, and execution yields again before it has
/// spent more than the gas allowed per yield beyond what it has spent now.
pub proof fn lemma_gas_bounds(g: GasExec)
    requires
        g.wf(),
    ensures
        g.spec_spent() <= g.spec_limit().total,
        g.spec_threshold() <= g.spec_spent() + g.spec_limit().per_yield,
{
}

/// Shorthand for constructing an `OutOfGasError`.
pub fn out_of_gas(exec: &GasExec, op_gas: Gas) -> (r: OutOfGasError)
    ensures
        r == (OutOfGasError {
            spent: exec.spec_spent(),
            op_gas,
            limit: exec.spec_limit().total,
        }),
{
    OutOfGasError { spent: exec.spent, limit: exec.limit.total, op_gas }
}

} // verus!
