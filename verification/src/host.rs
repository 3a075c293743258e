//! The machine itself: registers, stack, memory, and the execution of one
//! instruction at a time.
//!
//! [`HostState`] is the mathematical model of a machine and carries the
//! semantics of every instruction as specification functions; [`Host`] is the
//! executable machine, and each of its methods is proved to do what the model
//! says.

use vstd::prelude::*;
use std::collections::VecDeque;
use crate::opcodes::OpCodes;
use crate::program::Program;
use crate::messages::{StateView, VmState};

verus! {

/// The largest value a word can hold.
pub const WORD_MAX: u16 = 32767;

/// The operand that names register 0; the seven after it name the others.
pub const REGISTER_BASE: u16 = 32768;

/// The last operand that names a register.
pub const REGISTER_LAST: u16 = 32775;

/// Why an instruction could not be carried out.
#[derive(Debug, Clone, Copy, PartialEq, Eq, Structural)]
pub enum Trap {
    /// An operand above 32775 was read for its value.
    InvalidOperand(u16),
    /// The destination of a result is above 32775, or is a memory address
    /// where only a register will do.
    InvalidWriteTarget(u16),
    /// A word was wanted from an address that memory does not hold: by
    /// `rmem`, or as an operand of the instruction itself.
    ReadOutOfRange,
    /// `pop` or `ret` found the stack empty.
    StackUnderflow,
    /// `call` was given address 0.
    CallToZero,
    /// The word at the instruction pointer is no opcode.
    UnknownOpcode(u16),
    /// `mod` was given the divisor 0.
    DivisionByZero,
    /// A value above 32767 was about to be kept as a word: the memory word
    /// that `rmem` read, or the return address that `call` would push.
    ValueOutOfRange,
    /// The instruction counter has reached the largest number it can hold.
    CounterOverflow,
}

/// What one call of [`Host::step`] did.
#[derive(Debug, Clone, Copy, PartialEq, Eq, Structural)]
pub enum StepEvent {
    /// Nothing: the machine is halted, or the instruction pointer is past
    /// the end of memory.
    Idle,
    /// One instruction was carried out.
    Executed,
    /// Nothing: the instruction is `in` and no input is pending. Feed a line
    /// and step again.
    AwaitingInput,
    /// The instruction trapped. The machine is now halted and otherwise as it
    /// was.
    Trapped(Trap),
}

/// Why [`Host::run`] came back.
#[derive(Debug, Clone, Copy, PartialEq, Eq, Structural)]
pub enum Pause {
    /// The machine no longer runs: it halted, trapped, or left memory.
    Stopped,
    /// The budget of instructions is used up and the machine could go on.
    Exhausted,
    /// The next instruction is `in` and no input is pending.
    AwaitingInput,
}

/// The state of a machine, as mathematics.
#[verifier::ext_equal]
pub struct HostState {
    pub registers: Seq<u16>,
    pub stack: Seq<u16>,
    pub memory: Seq<u16>,
    pub ip: nat,
    pub input: Seq<u16>,
    pub output: Seq<u8>,
    pub halted: bool,
    pub count: nat,
}

/// What the instruction at the instruction pointer does to a state.
pub enum Effect {
    /// It completes and leaves this state (the counter not yet advanced).
    Advance(HostState),
    /// It waits for input and changes nothing.
    Wait,
    /// It traps.
    Fault(Trap),
}

/// Whether `v` is a value: at most 32767.
pub open spec fn is_word(v: u16) -> bool {
    v <= WORD_MAX
}

/// Whether every element of `s` is a value.
pub open spec fn all_words(s: Seq<u16>) -> bool {
    forall|i: int| 0 <= i < s.len() ==> is_word(#[trigger] s[i])
}

/// `m`, with zeros added at its end where it has fewer than `len` words.
pub open spec fn grown(m: Seq<u16>, len: nat) -> Seq<u16> {
    if m.len() >= len {
        m
    } else {
        m + Seq::new((len - m.len()) as nat, |i: int| 0u16)
    }
}

/// The 20 words of `memory` from `ip` on, with zeros where memory ends
/// before.
pub open spec fn window(memory: Seq<u16>, ip: nat) -> Seq<u16> {
    Seq::new(
        20,
        |i: int|
            if ip + i < memory.len() {
                memory[ip + i]
            } else {
                0u16
            },
    )
}

/// The sum of two values, modulo 32768.
pub open spec fn word_add(b: u16, c: u16) -> u16 {
    ((b + c) % 32768) as u16
}

/// The product of two values, modulo 32768.
pub open spec fn word_mult(b: u16, c: u16) -> u16 {
    ((b * c) % 32768) as u16
}

/// The remainder of `b` by a non-zero `c`.
pub open spec fn word_mod(b: u16, c: u16) -> u16 {
    (b % c) as u16
}

/// The 15-bit complement of a value.
pub open spec fn word_not(b: u16) -> u16 {
    !b & 0x7fff
}

/// The word that stands for an input character: its code point, modulo 32768.
pub open spec fn char_word(c: char) -> u16 {
    ((c as int) % 32768) as u16
}

/// The byte that `out` writes for a value: its low eight bits.
pub open spec fn low_byte(v: u16) -> u8 {
    (v % 256) as u8
}

/// What a three-operand instruction computes from the values of its second
/// and third operand.
pub open spec fn alu(op: OpCodes, b: u16, c: u16) -> Result<u16, Trap> {
    match op {
        OpCodes::eq => Ok(if b == c { 1u16 } else { 0u16 }),
        OpCodes::gt => Ok(if b > c { 1u16 } else { 0u16 }),
        OpCodes::add => Ok(word_add(b, c)),
        OpCodes::mult => Ok(word_mult(b, c)),
        OpCodes::mod_ => if c == 0 {
            Err(Trap::DivisionByZero)
        } else {
            Ok(word_mod(b, c))
        },
        OpCodes::and => Ok(b & c),
        OpCodes::or => Ok(b | c),
        _ => Ok(0u16),
    }
}

impl HostState {
    /// The state of a machine that has just been loaded with `memory`: all
    /// registers zero, the stack empty, no input and no output, at address
    /// 0, not halted, nothing executed.
    pub open spec fn initial(memory: Seq<u16>) -> HostState {
        HostState {
            registers: Seq::new(8, |i: int| 0u16),
            stack: Seq::empty(),
            memory,
            ip: 0,
            input: Seq::empty(),
            output: Seq::empty(),
            halted: false,
            count: 0,
        }
    }

    /// What holds of every machine: eight registers, nothing but values in
    /// the registers, on the stack and in the pending input, and a memory
    /// that the machine's address type can index.
    pub open spec fn wf(self) -> bool {
        &&& self.registers.len() == 8
        &&& self.memory.len() <= usize::MAX
        &&& all_words(self.registers)
        &&& all_words(self.stack)
        &&& all_words(self.input)
    }

    /// What a snapshot of this state shows.
    pub open spec fn snapshot(self) -> StateView {
        StateView {
            registers: self.registers,
            ip: self.ip as usize,
            count: self.count as u32,
            here: window(self.memory, self.ip),
        }
    }

    /// The words of memory from `start` up to, not including, `end`. Either
    /// end of the range that lies past the end of memory is taken as the end
    /// of memory, and a range that ends before it starts is empty.
    pub open spec fn dump(self, start: nat, end: nat) -> Seq<u16> {
        let len = self.memory.len();
        let low = if start < len {
            start
        } else {
            len
        };
        let high = if end < len {
            end
        } else {
            len
        };
        if low <= high {
            self.memory.subrange(low as int, high as int)
        } else {
            Seq::empty()
        }
    }

    /// Whether the machine would execute an instruction if stepped.
    pub open spec fn should_run(self) -> bool {
        self.ip < self.memory.len() && !self.halted
    }

    /// The `k`-th word of the instruction at the instruction pointer.
    pub open spec fn arg(self, k: nat) -> u16 {
        self.memory[(self.ip + k) as int]
    }

    /// This state with the instruction pointer `width` words further.
    pub open spec fn moved(self, width: nat) -> HostState {
        HostState { ip: self.ip + width, ..self }
    }

    /// This state with the instruction pointer at `address`.
    pub open spec fn at(self, address: nat) -> HostState {
        HostState { ip: address, ..self }
    }

    /// The value of an operand: itself where it is a literal, the register's
    /// content where it names a register.
    pub open spec fn resolve(self, operand: u16) -> Result<u16, Trap> {
        if operand <= WORD_MAX {
            Ok(operand)
        } else if operand <= REGISTER_LAST {
            Ok(self.registers[operand - REGISTER_BASE])
        } else {
            Err(Trap::InvalidOperand(operand))
        }
    }

    /// The word that `address` holds: a memory word or a register's content.
    pub open spec fn load(self, address: u16) -> Result<u16, Trap> {
        if address <= WORD_MAX {
            if address < self.memory.len() {
                Ok(self.memory[address as int])
            } else {
                Err(Trap::ReadOutOfRange)
            }
        } else if address <= REGISTER_LAST {
            Ok(self.registers[address - REGISTER_BASE])
        } else {
            Err(Trap::InvalidOperand(address))
        }
    }

    /// The state after `value` is written to `target`: to memory, which grows
    /// with zeros up to the address where it is too short, or to a register.
    pub open spec fn store(self, target: u16, value: u16) -> Result<HostState, Trap> {
        if target <= WORD_MAX {
            Ok(
                HostState {
                    memory: grown(self.memory, (target + 1) as nat).update(target as int, value),
                    ..self
                },
            )
        } else if target <= REGISTER_LAST {
            Ok(
                HostState {
                    registers: self.registers.update(target - REGISTER_BASE, value),
                    ..self
                },
            )
        } else {
            Err(Trap::InvalidWriteTarget(target))
        }
    }

    /// `value` goes to `target` and the instruction pointer moves on by
    /// `width`.
    pub open spec fn settle(self, target: u16, value: u16, width: nat) -> Effect {
        match self.store(target, value) {
            Ok(s) => Effect::Advance(s.moved(width)),
            Err(t) => Effect::Fault(t),
        }
    }

    /// `set a b`: `a` receives the value of `b`.
    pub open spec fn sem_set(self) -> Effect {
        match self.resolve(self.arg(2)) {
            Err(t) => Effect::Fault(t),
            Ok(b) => self.settle(self.arg(1), b, 3),
        }
    }

    /// `push b`: the value of `b` goes on the stack.
    pub open spec fn sem_push(self) -> Effect {
        match self.resolve(self.arg(1)) {
            Err(t) => Effect::Fault(t),
            Ok(b) => Effect::Advance(HostState { stack: self.stack.push(b), ..self.moved(2) }),
        }
    }

    /// `pop a`: the top of the stack leaves it and goes to `a`.
    pub open spec fn sem_pop(self) -> Effect {
        if self.stack.len() == 0 {
            Effect::Fault(Trap::StackUnderflow)
        } else {
            match self.store(self.arg(1), self.stack.last()) {
                Err(t) => Effect::Fault(t),
                Ok(s) => Effect::Advance(HostState { stack: self.stack.drop_last(), ..s.moved(2) }),
            }
        }
    }

    /// `op a b c`, for the seven instructions with three operands: `a`
    /// receives what `op` computes from the values of `b` and `c`.
    pub open spec fn sem_binary(self, op: OpCodes) -> Effect {
        match self.resolve(self.arg(2)) {
            Err(t) => Effect::Fault(t),
            Ok(b) => match self.resolve(self.arg(3)) {
                Err(t) => Effect::Fault(t),
                Ok(c) => match alu(op, b, c) {
                    Err(t) => Effect::Fault(t),
                    Ok(r) => self.settle(self.arg(1), r, 4),
                },
            },
        }
    }

    /// `jmp b`: execution goes on at the value of `b`.
    pub open spec fn sem_jmp(self) -> Effect {
        match self.resolve(self.arg(1)) {
            Err(t) => Effect::Fault(t),
            Ok(b) => Effect::Advance(self.at(b as nat)),
        }
    }

    /// `jt b c` and `jf b c`: execution goes on at the value of `c` where the
    /// value of `b` is non-zero (`jt`, `when_zero` false) or zero (`jf`,
    /// `when_zero` true), and at the next instruction otherwise.
    pub open spec fn sem_branch(self, when_zero: bool) -> Effect {
        match self.resolve(self.arg(1)) {
            Err(t) => Effect::Fault(t),
            Ok(b) => match self.resolve(self.arg(2)) {
                Err(t) => Effect::Fault(t),
                Ok(c) => if (b == 0) == when_zero {
                    Effect::Advance(self.at(c as nat))
                } else {
                    Effect::Advance(self.moved(3))
                },
            },
        }
    }

    /// `not a b`: `a` receives the 15-bit complement of the value of `b`.
    pub open spec fn sem_not(self) -> Effect {
        match self.resolve(self.arg(2)) {
            Err(t) => Effect::Fault(t),
            Ok(b) => self.settle(self.arg(1), word_not(b), 3),
        }
    }

    /// `rmem a b`: register `a` receives the memory word at the address that
    /// is the value of `b`.
    pub open spec fn sem_rmem(self) -> Effect {
        match self.resolve(self.arg(2)) {
            Err(t) => Effect::Fault(t),
            Ok(address) => match self.load(address) {
                Err(t) => Effect::Fault(t),
                Ok(word) => if self.arg(1) < REGISTER_BASE || self.arg(1) > REGISTER_LAST {
                    Effect::Fault(Trap::InvalidWriteTarget(self.arg(1)))
                } else if !is_word(word) {
                    Effect::Fault(Trap::ValueOutOfRange)
                } else {
                    self.settle(self.arg(1), word, 3)
                },
            },
        }
    }

    /// `wmem a b`: the memory word at the address that is the value of `a`
    /// receives the value of `b`.
    pub open spec fn sem_wmem(self) -> Effect {
        match self.resolve(self.arg(1)) {
            Err(t) => Effect::Fault(t),
            Ok(address) => match self.resolve(self.arg(2)) {
                Err(t) => Effect::Fault(t),
                Ok(b) => self.settle(address, b, 3),
            },
        }
    }

    /// `call b`: the address of the next instruction goes on the stack and
    /// execution goes on at the value of `b`, which may not be 0.
    pub open spec fn sem_call(self) -> Effect {
        match self.resolve(self.arg(1)) {
            Err(t) => Effect::Fault(t),
            Ok(b) => if b == 0 {
                Effect::Fault(Trap::CallToZero)
            } else if self.ip + 2 > WORD_MAX {
                Effect::Fault(Trap::ValueOutOfRange)
            } else {
                Effect::Advance(
                    HostState { stack: self.stack.push((self.ip + 2) as u16), ..self.at(b as nat) },
                )
            },
        }
    }

    /// `ret`: the top of the stack leaves it and execution goes on there.
    pub open spec fn sem_ret(self) -> Effect {
        if self.stack.len() == 0 {
            Effect::Fault(Trap::StackUnderflow)
        } else {
            Effect::Advance(
                HostState { stack: self.stack.drop_last(), ..self.at(self.stack.last() as nat) },
            )
        }
    }

    /// `out b`: the low byte of the value of `b` is written.
    pub open spec fn sem_out(self) -> Effect {
        match self.resolve(self.arg(1)) {
            Err(t) => Effect::Fault(t),
            Ok(b) => Effect::Advance(
                HostState { output: self.output.push(low_byte(b)), ..self.moved(2) },
            ),
        }
    }

    /// `in a`: the first pending input word leaves the queue and goes to `a`.
    /// With no input pending the instruction waits. Where `a` is no write
    /// target it traps, whether input is pending or not.
    pub open spec fn sem_in(self) -> Effect {
        if self.arg(1) > REGISTER_LAST {
            Effect::Fault(Trap::InvalidWriteTarget(self.arg(1)))
        } else if self.input.len() == 0 {
            Effect::Wait
        } else {
            match self.store(self.arg(1), self.input.first()) {
                Err(t) => Effect::Fault(t),
                Ok(s) => Effect::Advance(HostState { input: self.input.drop_first(), ..s.moved(2) }),
            }
        }
    }

    /// What the instruction at the instruction pointer does. It traps where
    /// the word there is no opcode, and where memory ends before its last
    /// operand.
    pub open spec fn execute(self) -> Effect {
        let word = self.memory[self.ip as int];
        let op = OpCodes::spec_parse(word);
        if op is unknown {
            Effect::Fault(Trap::UnknownOpcode(word))
        } else if self.ip + op.spec_argcount() >= self.memory.len() {
            Effect::Fault(Trap::ReadOutOfRange)
        } else {
            match op {
                OpCodes::halt => Effect::Advance(HostState { halted: true, ..self.moved(1) }),
                OpCodes::set => self.sem_set(),
                OpCodes::push => self.sem_push(),
                OpCodes::pop => self.sem_pop(),
                OpCodes::jmp => self.sem_jmp(),
                OpCodes::jt => self.sem_branch(false),
                OpCodes::jf => self.sem_branch(true),
                OpCodes::not => self.sem_not(),
                OpCodes::rmem => self.sem_rmem(),
                OpCodes::wmem => self.sem_wmem(),
                OpCodes::call => self.sem_call(),
                OpCodes::ret => self.sem_ret(),
                OpCodes::out => self.sem_out(),
                OpCodes::in_ => self.sem_in(),
                OpCodes::nop => Effect::Advance(self.moved(1)),
                _ => self.sem_binary(op),
            }
        }
    }

    /// This state, halted.
    pub open spec fn stopped(self) -> HostState {
        HostState { halted: true, ..self }
    }

    /// One step of the machine: the state it leaves and what happened.
    ///
    /// A machine that should not run is left alone. Otherwise the instruction
    /// at the instruction pointer is carried out and counted; or it waits for
    /// input and nothing changes; or it traps, and the machine is halted and
    /// otherwise unchanged. An instruction that the counter cannot count
    /// traps too.
    pub open spec fn step(self) -> (HostState, StepEvent) {
        if !self.should_run() {
            (self, StepEvent::Idle)
        } else if self.count >= u32::MAX {
            (self.stopped(), StepEvent::Trapped(Trap::CounterOverflow))
        } else {
            match self.execute() {
                Effect::Advance(s) => (HostState { count: self.count + 1, ..s }, StepEvent::Executed),
                Effect::Wait => (self, StepEvent::AwaitingInput),
                Effect::Fault(t) => (self.stopped(), StepEvent::Trapped(t)),
            }
        }
    }

    /// Steps until the machine should not run, waits for input, or `budget`
    /// instructions have been tried.
    pub open spec fn advance(self, budget: nat) -> (HostState, Pause)
        decreases budget,
    {
        if !self.should_run() {
            (self, Pause::Stopped)
        } else if budget == 0 {
            (self, Pause::Exhausted)
        } else {
            let (next, event) = self.step();
            if event is AwaitingInput {
                (next, Pause::AwaitingInput)
            } else {
                next.advance((budget - 1) as nat)
            }
        }
    }

    /// The halted flag is cleared, then the machine advances.
    pub open spec fn run(self, budget: nat) -> (HostState, Pause) {
        HostState { halted: false, ..self }.advance(budget)
    }
}

/// Whether `after` and `event` are what `effect` asks for when it comes upon
/// `before`, the counter left aside.
pub open spec fn carried_out(
    before: HostState,
    effect: Effect,
    after: HostState,
    event: StepEvent,
) -> bool {
    match effect {
        Effect::Advance(s) => event == StepEvent::Executed && after == s,
        Effect::Wait => event == StepEvent::AwaitingInput && after == before,
        Effect::Fault(t) => event == StepEvent::Trapped(t) && after == before,
    }
}


impl HostState {
    /// The state after `n` steps.
    pub open spec fn steps(self, n: nat) -> HostState
        decreases n,
    {
        if n == 0 {
            self
        } else {
            self.step().0.steps((n - 1) as nat)
        }
    }
}

/// What `add`, `mult`, `mod`, `and`, `or` and `not` compute from values is a
/// value again: at least 0 and below 32768.
pub proof fn lemma_results_are_words(b: u16, c: u16)
    requires
        is_word(b),
        is_word(c),
    ensures
        is_word(word_add(b, c)),
        is_word(word_mult(b, c)),
        c != 0 ==> is_word(word_mod(b, c)),
        is_word(word_not(b)),
        is_word(b & c),
        is_word(b | c),
{
    assert(b * c >= 0) by (nonlinear_arith)
        requires
            b >= 0,
            c >= 0,
    ;
    assert(b * c <= 32767 * 32767) by (nonlinear_arith)
        requires
            0 <= b <= 32767,
            0 <= c <= 32767,
    ;
    assert(!b & 0x7fff <= 32767) by (bit_vector);
    assert(b & c <= 32767) by (bit_vector)
        requires
            b <= 32767,
            c <= 32767,
    ;
    assert(b | c <= 32767) by (bit_vector)
        requires
            b <= 32767,
            c <= 32767,
    ;
}

/// The complement of a value is what is missing from it to 32767.
pub proof fn lemma_not_is_complement(b: u16)
    requires
        is_word(b),
    ensures
        word_not(b) == 32767 - b,
{
    assert(!b & 0x7fff == 32767 - b) by (bit_vector)
        requires
            b <= 32767,
    ;
}

/// Whatever a three-operand instruction computes from values is a value.
pub proof fn lemma_alu_is_word(op: OpCodes, b: u16, c: u16)
    requires
        is_word(b),
        is_word(c),
    ensures
        alu(op, b, c) matches Ok(r) ==> is_word(r),
{
    lemma_results_are_words(b, c);
}

/// A write to the memory address `target` that lies at or past the end of
/// memory makes memory end right after `target`: the old words stay, the new
/// words before `target` are zero, and `target` holds the value.
pub proof fn lemma_store_past_end(s: HostState, target: u16, value: u16)
    requires
        target <= WORD_MAX,
        target >= s.memory.len(),
    ensures
        s.store(target, value) matches Ok(t) && {
            &&& t.memory.len() == target + 1
            &&& t.memory[target as int] == value
            &&& forall|i: int| s.memory.len() <= i < target ==> t.memory[i] == 0
            &&& forall|i: int| 0 <= i < s.memory.len() ==> t.memory[i] == s.memory[i]
            &&& t == (HostState { memory: t.memory, ..s })
        },
{
}

/// A write to a memory address inside memory changes that word and no
/// other.
pub proof fn lemma_store_inside(s: HostState, target: u16, value: u16)
    requires
        target < s.memory.len(),
        target <= WORD_MAX,
    ensures
        s.store(target, value) matches Ok(t) && t == (HostState {
            memory: s.memory.update(target as int, value),
            ..s
        }),
{
}

/// What a write of a value leaves: a well-formed state whose memory is no
/// shorter, and in which each memory word is a value or is the word that was
/// there before.
pub proof fn lemma_store_keeps_words(s: HostState, target: u16, value: u16)
    requires
        s.wf(),
        is_word(value),
    ensures
        s.store(target, value) matches Ok(t) ==> {
            &&& t.wf()
            &&& t.memory.len() >= s.memory.len()
            &&& forall|i: int|
                0 <= i < t.memory.len() ==> is_word(#[trigger] t.memory[i]) || (i < s.memory.len()
                    && t.memory[i] == s.memory[i])
        },
{
}

/// What a completed instruction leaves: a well-formed state with the same
/// counter, whose memory is no shorter, and in which each memory word is a
/// value or is the word that was there before.
pub proof fn lemma_execute_keeps_words(s: HostState)
    requires
        s.wf(),
        s.should_run(),
    ensures
        s.execute() matches Effect::Advance(t) ==> {
            &&& t.wf()
            &&& t.count == s.count
            &&& t.memory.len() >= s.memory.len()
            &&& forall|i: int|
                0 <= i < t.memory.len() ==> is_word(#[trigger] t.memory[i]) || (i < s.memory.len()
                    && t.memory[i] == s.memory[i])
        },
{
    let op = OpCodes::spec_parse(s.memory[s.ip as int]);
    if !(op is unknown) && s.ip + op.spec_argcount() < s.memory.len() {
        match op {
            OpCodes::halt => {},
            OpCodes::set => {
                if let Ok(b) = s.resolve(s.arg(2)) {
                    lemma_store_keeps_words(s, s.arg(1), b);
                }
            },
            OpCodes::push => {},
            OpCodes::pop => {
                if s.stack.len() > 0 {
                    lemma_store_keeps_words(s, s.arg(1), s.stack.last());
                }
            },
            OpCodes::jmp => {},
            OpCodes::jt => {},
            OpCodes::jf => {},
            OpCodes::not => {
                if let Ok(b) = s.resolve(s.arg(2)) {
                    lemma_results_are_words(b, 0);
                    lemma_store_keeps_words(s, s.arg(1), word_not(b));
                }
            },
            OpCodes::rmem => {
                if let Ok(address) = s.resolve(s.arg(2)) {
                    if let Ok(word) = s.load(address) {
                        if is_word(word) {
                            lemma_store_keeps_words(s, s.arg(1), word);
                        }
                    }
                }
            },
            OpCodes::wmem => {
                if let Ok(address) = s.resolve(s.arg(1)) {
                    if let Ok(b) = s.resolve(s.arg(2)) {
                        lemma_store_keeps_words(s, address, b);
                    }
                }
            },
            OpCodes::call => {},
            OpCodes::ret => {},
            OpCodes::out => {},
            OpCodes::in_ => {
                if s.input.len() > 0 {
                    lemma_store_keeps_words(s, s.arg(1), s.input.first());
                }
            },
            OpCodes::nop => {},
            _ => {
                if let Ok(b) = s.resolve(s.arg(2)) {
                    if let Ok(c) = s.resolve(s.arg(3)) {
                        lemma_alu_is_word(op, b, c);
                        if let Ok(r) = alu(op, b, c) {
                            lemma_store_keeps_words(s, s.arg(1), r);
                        }
                    }
                }
            },
        }
    }
}

/// A step leaves a well-formed machine well-formed: the registers, the stack
/// and the pending input hold values only. Memory gets no shorter, and each
/// of its words is a value or is the word that was there before; so a memory
/// that holds values only does so after the step.
pub proof fn lemma_step_keeps_words(s: HostState)
    requires
        s.wf(),
    ensures
        s.step().0.wf(),
        s.step().0.memory.len() >= s.memory.len(),
        forall|i: int|
            0 <= i < s.step().0.memory.len() ==> is_word(#[trigger] s.step().0.memory[i]) || (i
                < s.memory.len() && s.step().0.memory[i] == s.memory[i]),
        all_words(s.memory) ==> all_words(s.step().0.memory),
{
    if s.should_run() && s.count < u32::MAX {
        lemma_execute_keeps_words(s);
    }
}

/// Every state that steps lead to from a well-formed one is well-formed, so
/// that every register holds a value. Each memory word of such a state is a
/// value or is the word that the first state had at that address; so where
/// the memory they start from holds values only, so does the memory of every
/// state they lead to.
pub proof fn lemma_reachable_states_hold_words(s: HostState, n: nat)
    requires
        s.wf(),
    ensures
        s.steps(n).wf(),
        all_words(s.steps(n).registers),
        s.steps(n).memory.len() >= s.memory.len(),
        forall|i: int|
            0 <= i < s.steps(n).memory.len() ==> is_word(#[trigger] s.steps(n).memory[i]) || (i
                < s.memory.len() && s.steps(n).memory[i] == s.memory[i]),
        all_words(s.memory) ==> all_words(s.steps(n).memory),
    decreases n,
{
    if n > 0 {
        lemma_step_keeps_words(s);
        lemma_reachable_states_hold_words(s.step().0, (n - 1) as nat);
    }
}

/// A step that executes an instruction advances the counter by exactly one;
/// any other step leaves it as it is.
pub proof fn lemma_step_counts(s: HostState)
    requires
        s.wf(),
    ensures
        s.step().1 is Executed ==> s.step().0.count == s.count + 1,
        !(s.step().1 is Executed) ==> s.step().0.count == s.count,
{
    if s.should_run() && s.count < u32::MAX {
        lemma_execute_keeps_words(s);
    }
}

/// Where advancing stops, the machine should not run; where the budget is
/// used up, it should; where it waits for input, it should run, its next
/// instruction is `in`, and no input is pending.
pub proof fn lemma_advance_pauses(s: HostState, budget: nat)
    requires
        s.wf(),
    ensures
        s.advance(budget).0.wf(),
        s.advance(budget).1 is Stopped ==> !s.advance(budget).0.should_run(),
        s.advance(budget).1 is Exhausted ==> s.advance(budget).0.should_run(),
        s.advance(budget).1 is AwaitingInput ==> {
            let t = s.advance(budget).0;
            &&& t.should_run()
            &&& t.input.len() == 0
            &&& OpCodes::spec_parse(t.memory[t.ip as int]) == OpCodes::in_
        },
        s.advance(budget).0.count <= s.count + budget,
    decreases budget,
{
    if s.should_run() && budget > 0 {
        lemma_step_keeps_words(s);
        lemma_step_counts(s);
        if !(s.step().1 is AwaitingInput) {
            lemma_advance_pauses(s.step().0, (budget - 1) as nat);
        }
    }
}

/// A `ret` that finds the stack as a `call` left it goes on at the address
/// right after that `call`, and leaves the stack as it was before the `call`.
pub proof fn lemma_call_then_ret(s: HostState, t: HostState)
    requires
        s.wf(),
        s.should_run(),
        OpCodes::spec_parse(s.memory[s.ip as int]) == OpCodes::call,
        s.step().1 is Executed,
        t.stack == s.step().0.stack,
        t.should_run(),
        OpCodes::spec_parse(t.memory[t.ip as int]) == OpCodes::ret,
        t.step().1 is Executed,
    ensures
        t.step().0.ip == s.ip + 2,
        t.step().0.stack == s.stack,
{
    let called = s.step().0;
    assert(called.stack == s.stack.push((s.ip + 2) as u16));
    assert(t.stack.drop_last() =~= s.stack);
}

/// A machine: eight registers, a stack, a memory that holds the program and
/// its data, the instruction pointer, the input that `in` has yet to read and
/// the output that `out` has written and nobody has collected yet.
pub struct Host {
    registers: [u16; 8],
    stack: Vec<u16>,
    memory: Vec<u16>,
    ip: usize,
    input_buffer: VecDeque<u16>,
    output: Vec<u8>,
    halted: bool,
    count: u32,
    /// The program the machine was made from.
    pub program: Program,
}

impl View for Host {
    type V = HostState;

    closed spec fn view(&self) -> HostState {
        HostState {
            registers: self.registers@,
            stack: self.stack@,
            memory: self.memory@,
            ip: self.ip as nat,
            input: self.input_buffer@,
            output: self.output@,
            halted: self.halted,
            count: self.count as nat,
        }
    }
}

/// Whether a valid operand is a memory address rather than a register.
fn is_memory(address: u16) -> (r: bool)
    requires
        address <= REGISTER_LAST,
    ensures
        r == (address <= WORD_MAX),
{
    address <= WORD_MAX
}

/// Whether a valid operand names a register.
fn is_register(address: u16) -> (r: bool)
    requires
        address <= REGISTER_LAST,
    ensures
        r == (address >= REGISTER_BASE),
{
    !is_memory(address)
}

/// The word that stands for an input character.
fn word_of_char(c: char) -> (w: u16)
    ensures
        w == char_word(c),
        is_word(w),
{
    let code: u32 = c as u32;
    (code % 32768) as u16
}

/// Adds zeros at the end of `memory` until it has `len` words.
fn grow(memory: &mut Vec<u16>, len: usize)
    ensures
        final(memory)@ == grown(old(memory)@, len as nat),
{
    while memory.len() < len
        invariant
            memory@ == grown(old(memory)@, memory@.len()),
            old(memory)@.len() <= memory@.len(),
            memory@.len() <= len || memory@.len() == old(memory)@.len(),
        decreases len - memory@.len(),
    {
        memory.push(0);
        assert(memory@ =~= grown(old(memory)@, memory@.len()));
    }
    assert(memory@ =~= grown(old(memory)@, len as nat));
}

impl Host {
    /// Whether the machine is as every machine is: see [`HostState::wf`].
    pub open spec fn wf(&self) -> bool {
        self@.wf()
    }

    /// The program the machine was made from.
    pub closed spec fn spec_program(&self) -> Program {
        self.program
    }

    /// The program the machine was made from.
    pub fn program(&self) -> (p: &Program)
        ensures
            *p == self.spec_program(),
    {
        &self.program
    }

    /// A machine with empty memory, at address 0, that has executed nothing.
    pub fn new() -> (host: Host)
        ensures
            host.wf(),
            host@ == HostState::initial(Seq::empty()),
            host.spec_program().data@ == Seq::<u16>::empty(),
            host.spec_program().path@ == Seq::<char>::empty(),
    {
        let host = Host {
            registers: [0u16; 8],
            stack: Vec::new(),
            memory: Vec::new(),
            ip: 0,
            input_buffer: VecDeque::new(),
            output: Vec::new(),
            halted: false,
            count: 0,
            program: Program::new(),
        };
        assert(host@.registers =~= Seq::new(8, |i: int| 0u16));
        host
    }

    /// A machine whose memory holds a copy of the program's words, with all
    /// registers zero, an empty stack, no input or output, at address 0.
    pub fn from(program: Program) -> (host: Host)
        ensures
            host.wf(),
            host@ == HostState::initial(program.data@),
            host.spec_program() == program,
    {
        let mut host = Host::new();
        let mut idx: usize = 0;
        while idx < program.data.len()
            invariant
                idx <= program.data@.len(),
                host.wf(),
                host@ == HostState::initial(program.data@.take(idx as int)),
            decreases program.data@.len() - idx,
        {
            host.memory.push(program.data[idx]);
            idx += 1;
            assert(host@.memory =~= program.data@.take(idx as int));
        }
        assert(host@.memory =~= program.data@);
        host.program = program;
        host
    }

    /// The address of the next instruction.
    pub fn ip(&self) -> (ip: usize)
        ensures
            ip == self@.ip,
    {
        self.ip
    }

    /// A snapshot of the registers, the instruction pointer, the counter and
    /// the 20 words of memory from the instruction pointer on, with zeros
    /// where memory ends before.
    pub fn create_state(&self) -> (st: VmState)
        ensures
            st@ == self@.snapshot(),
    {
        let len: usize = self.memory.len();
        let start: usize = if self.ip < len {
            self.ip
        } else {
            len
        };
        let end: usize = if len - start > 20 {
            start + 20
        } else {
            len
        };
        let here = vstd::slice::slice_subrange(self.memory.as_slice(), start, end);
        let st = VmState::from(self.registers, self.ip, self.count, here);
        assert(st@.here =~= window(self@.memory, self@.ip));
        st
    }

    /// The words of memory from `start` up to, not including, `end`, as
    /// [`HostState::dump`] says.
    pub fn create_memory_dump(&self, start: usize, end: usize) -> (dump: Vec<u16>)
        ensures
            dump@ == self@.dump(start as nat, end as nat),
    {
        let len: usize = self.memory.len();
        let low: usize = if start < len {
            start
        } else {
            len
        };
        let high: usize = if end < len {
            end
        } else {
            len
        };
        let mut dump: Vec<u16> = Vec::new();
        let mut idx: usize = low;
        while idx < high
            invariant
                low <= idx,
                idx <= high || high < low,
                high < low ==> idx == low,
                high <= self.memory@.len(),
                dump@ == self.memory@.subrange(low as int, idx as int),
            decreases high - idx,
        {
            dump.push(self.memory[idx]);
            idx += 1;
            assert(dump@ =~= self.memory@.subrange(low as int, idx as int));
        }
        assert(dump@ =~= self@.dump(start as nat, end as nat));
        dump
    }

    /// Queues a line of input for `in`: one word for each character, in
    /// order.
    pub fn feed_input(&mut self, line: &str)
        requires
            old(self).wf(),
        ensures
            final(self).wf(),
            final(self)@ == (HostState {
                input: old(self)@.input + line@.map_values(|c: char| char_word(c)),
                ..old(self)@
            }),
            final(self).spec_program() == old(self).spec_program(),
    {
        let ghost words = line@.map_values(|c: char| char_word(c));
        for c in it: line.chars()
            invariant
                it.seq() == line@,
                words == line@.map_values(|c: char| char_word(c)),
                self.wf(),
                self@ == (HostState {
                    input: old(self)@.input + words.take(it.index()),
                    ..old(self)@
                }),
                self.spec_program() == old(self).spec_program(),
        {
            let word: u16 = word_of_char(c);
            self.input_buffer.push_back(word);
            assert(self@.input =~= old(self)@.input + words.take(it.index() + 1)) by {
                assert(words[it.index()] == word);
            }
        }
        assert(words.take(words.len() as int) =~= words);
    }

    /// Hands over what `out` has written since the last call, and forgets it.
    pub fn take_output(&mut self) -> (bytes: Vec<u8>)
        ensures
            bytes@ == old(self)@.output,
            final(self)@ == (HostState { output: Seq::empty(), ..old(self)@ }),
            final(self).spec_program() == old(self).spec_program(),
    {
        let mut bytes: Vec<u8> = Vec::new();
        std::mem::swap(&mut self.output, &mut bytes);
        bytes
    }

    /// The value of an operand.
    fn resolve(&self, value: u16) -> (r: Result<u16, Trap>)
        requires
            self.wf(),
        ensures
            r == self@.resolve(value),
            r matches Ok(v) ==> is_word(v),
    {
        if value <= WORD_MAX {
            Ok(value)
        } else if value <= REGISTER_LAST {
            Ok(self.registers[(value - REGISTER_BASE) as usize])
        } else {
            Err(Trap::InvalidOperand(value))
        }
    }

    /// Writes `value` to a memory address or a register.
    fn write(&mut self, address: u16, value: u16) -> (r: Result<(), Trap>)
        requires
            old(self).wf(),
            is_word(value),
        ensures
            final(self).wf(),
            final(self).spec_program() == old(self).spec_program(),
            match old(self)@.store(address, value) {
                Ok(s) => r is Ok && final(self)@ == s,
                Err(t) => r == Err::<(), Trap>(t) && final(self)@ == old(self)@,
            },
    {
        if address <= WORD_MAX {
            let target: usize = address as usize;
            grow(&mut self.memory, target + 1);
            self.memory[target] = value;
            Ok(())
        } else if address <= REGISTER_LAST {
            self.registers[(address - REGISTER_BASE) as usize] = value;
            assert(all_words(self@.registers));
            Ok(())
        } else {
            Err(Trap::InvalidWriteTarget(address))
        }
    }

    /// Reads the word at a memory address, or a register.
    fn read(&self, address: u16) -> (r: Result<u16, Trap>)
        ensures
            r == self@.load(address),
    {
        if address <= WORD_MAX {
            if address as usize >= self.memory.len() {
                Err(Trap::ReadOutOfRange)
            } else {
                Ok(self.memory[address as usize])
            }
        } else if address <= REGISTER_LAST {
            Ok(self.registers[(address - REGISTER_BASE) as usize])
        } else {
            Err(Trap::InvalidOperand(address))
        }
    }

    /// The `k`-th word of the instruction at the instruction pointer.
    fn operand(&self, k: usize) -> (w: u16)
        requires
            self@.ip + k < self@.memory.len(),
        ensures
            w == self@.arg(k as nat),
    {
        assert(self.memory@.len() == self.memory.len());
        self.memory[self.ip + k]
    }

    /// Writes a result to its target and moves on by `width` words.
    fn settle(&mut self, target: u16, value: u16, width: usize) -> (event: StepEvent)
        requires
            old(self).wf(),
            is_word(value),
            old(self)@.ip + width <= usize::MAX,
        ensures
            final(self).wf(),
            final(self).spec_program() == old(self).spec_program(),
            carried_out(
                old(self)@,
                old(self)@.settle(target, value, width as nat),
                final(self)@,
                event,
            ),
    {
        match self.write(target, value) {
            Ok(()) => {
                self.ip += width;
                StepEvent::Executed
            },
            Err(t) => StepEvent::Trapped(t),
        }
    }

    /// Sets the halted flag.
    fn exec_halt(&mut self)
        ensures
            final(self)@ == old(self)@.stopped(),
            final(self).spec_program() == old(self).spec_program(),
    {
        self.halted = true;
    }

    /// `set a b`: writes the value of `b` to `a`.
    fn exec_set(&mut self) -> (event: StepEvent)
        requires
            old(self).wf(),
            old(self)@.ip + 2 < old(self)@.memory.len(),
        ensures
            final(self).wf(),
            final(self).spec_program() == old(self).spec_program(),
            carried_out(old(self)@, old(self)@.sem_set(), final(self)@, event),
    {
        let a: u16 = self.operand(1);
        let b: u16 = self.operand(2);
        match self.resolve(b) {
            Ok(value) => self.settle(a, value, 3),
            Err(t) => StepEvent::Trapped(t),
        }
    }

    /// `push b`: puts the value of `b` on the stack.
    fn exec_push(&mut self) -> (event: StepEvent)
        requires
            old(self).wf(),
            old(self)@.ip + 1 < old(self)@.memory.len(),
        ensures
            final(self).wf(),
            final(self).spec_program() == old(self).spec_program(),
            carried_out(old(self)@, old(self)@.sem_push(), final(self)@, event),
    {
        let a: u16 = self.operand(1);
        match self.resolve(a) {
            Ok(value) => {
                self.stack.push(value);
                self.ip += 2;
                StepEvent::Executed
            },
            Err(t) => StepEvent::Trapped(t),
        }
    }

    /// `pop a`: takes the top of the stack and writes it to `a`.
    fn exec_pop(&mut self) -> (event: StepEvent)
        requires
            old(self).wf(),
            old(self)@.ip + 1 < old(self)@.memory.len(),
        ensures
            final(self).wf(),
            final(self).spec_program() == old(self).spec_program(),
            carried_out(old(self)@, old(self)@.sem_pop(), final(self)@, event),
    {
        if self.stack.len() == 0 {
            return StepEvent::Trapped(Trap::StackUnderflow);
        }
        let a: u16 = self.operand(1);
        let top: u16 = self.stack[self.stack.len() - 1];
        match self.write(a, top) {
            Ok(()) => {
                self.stack.pop();
                self.ip += 2;
                assert(self@.stack =~= old(self)@.stack.drop_last());
                StepEvent::Executed
            },
            Err(t) => StepEvent::Trapped(t),
        }
    }

    /// The target of a three-operand instruction and the values of its other
    /// two operands.
    fn operands(&self) -> (r: Result<(u16, u16, u16), Trap>)
        requires
            self.wf(),
            self@.ip + 3 < self@.memory.len(),
        ensures
            match self@.resolve(self@.arg(2)) {
                Err(t) => r == Err::<(u16, u16, u16), Trap>(t),
                Ok(b) => match self@.resolve(self@.arg(3)) {
                    Err(t) => r == Err::<(u16, u16, u16), Trap>(t),
                    Ok(c) => r == Ok::<(u16, u16, u16), Trap>((self@.arg(1), b, c)) && is_word(b)
                        && is_word(c),
                },
            },
    {
        let a: u16 = self.operand(1);
        let b: u16 = self.operand(2);
        let c: u16 = self.operand(3);
        match self.resolve(b) {
            Err(t) => Err(t),
            Ok(rb) => match self.resolve(c) {
                Err(t) => Err(t),
                Ok(rc) => Ok((a, rb, rc)),
            },
        }
    }

    /// `eq a b c`: writes 1 to `a` where the values of `b` and `c` are equal, 0 where not.
    fn exec_eq(&mut self) -> (event: StepEvent)
        requires
            old(self).wf(),
            old(self)@.ip + 3 < old(self)@.memory.len(),
        ensures
            final(self).wf(),
            final(self).spec_program() == old(self).spec_program(),
            carried_out(old(self)@, old(self)@.sem_binary(OpCodes::eq), final(self)@, event),
    {
        match self.operands() {
            Err(t) => StepEvent::Trapped(t),
            Ok((a, b, c)) => if b == c {
                self.settle(a, 1, 4)
            } else {
                self.settle(a, 0, 4)
            },
        }
    }

    /// `gt a b c`: writes 1 to `a` where the value of `b` is above that of `c`, 0 where not.
    fn exec_gt(&mut self) -> (event: StepEvent)
        requires
            old(self).wf(),
            old(self)@.ip + 3 < old(self)@.memory.len(),
        ensures
            final(self).wf(),
            final(self).spec_program() == old(self).spec_program(),
            carried_out(old(self)@, old(self)@.sem_binary(OpCodes::gt), final(self)@, event),
    {
        match self.operands() {
            Err(t) => StepEvent::Trapped(t),
            Ok((a, b, c)) => if b > c {
                self.settle(a, 1, 4)
            } else {
                self.settle(a, 0, 4)
            },
        }
    }

    /// `jmp b`: goes on at the value of `b`.
    fn exec_jmp(&mut self) -> (event: StepEvent)
        requires
            old(self).wf(),
            old(self)@.ip + 1 < old(self)@.memory.len(),
        ensures
            final(self).wf(),
            final(self).spec_program() == old(self).spec_program(),
            carried_out(old(self)@, old(self)@.sem_jmp(), final(self)@, event),
    {
        let a: u16 = self.operand(1);
        match self.resolve(a) {
            Ok(target) => {
                self.ip = target as usize;
                StepEvent::Executed
            },
            Err(t) => StepEvent::Trapped(t),
        }
    }

    /// The values of both operands of a conditional jump.
    fn branch_operands(&self) -> (r: Result<(u16, u16), Trap>)
        requires
            self.wf(),
            self@.ip + 2 < self@.memory.len(),
        ensures
            match self@.resolve(self@.arg(1)) {
                Err(t) => r == Err::<(u16, u16), Trap>(t),
                Ok(b) => match self@.resolve(self@.arg(2)) {
                    Err(t) => r == Err::<(u16, u16), Trap>(t),
                    Ok(c) => r == Ok::<(u16, u16), Trap>((b, c)),
                },
            },
    {
        let a: u16 = self.operand(1);
        let b: u16 = self.operand(2);
        match self.resolve(a) {
            Err(t) => Err(t),
            Ok(ra) => match self.resolve(b) {
                Err(t) => Err(t),
                Ok(rb) => Ok((ra, rb)),
            },
        }
    }

    /// `jt b c`: goes on at the value of `c` where the value of `b` is not zero.
    fn exec_jt(&mut self) -> (event: StepEvent)
        requires
            old(self).wf(),
            old(self)@.ip + 2 < old(self)@.memory.len(),
        ensures
            final(self).wf(),
            final(self).spec_program() == old(self).spec_program(),
            carried_out(old(self)@, old(self)@.sem_branch(false), final(self)@, event),
    {
        match self.branch_operands() {
            Err(t) => StepEvent::Trapped(t),
            Ok((ra, rb)) => {
                if ra != 0 {
                    self.ip = rb as usize;
                } else {
                    self.ip += 3;
                }
                StepEvent::Executed
            },
        }
    }

    /// `jf b c`: goes on at the value of `c` where the value of `b` is zero.
    fn exec_jf(&mut self) -> (event: StepEvent)
        requires
            old(self).wf(),
            old(self)@.ip + 2 < old(self)@.memory.len(),
        ensures
            final(self).wf(),
            final(self).spec_program() == old(self).spec_program(),
            carried_out(old(self)@, old(self)@.sem_branch(true), final(self)@, event),
    {
        match self.branch_operands() {
            Err(t) => StepEvent::Trapped(t),
            Ok((ra, rb)) => {
                if ra == 0 {
                    self.ip = rb as usize;
                } else {
                    self.ip += 3;
                }
                StepEvent::Executed
            },
        }
    }

    /// `add a b c`: writes the sum of the values of `b` and `c`, modulo 32768, to `a`.
    fn exec_add(&mut self) -> (event: StepEvent)
        requires
            old(self).wf(),
            old(self)@.ip + 3 < old(self)@.memory.len(),
        ensures
            final(self).wf(),
            final(self).spec_program() == old(self).spec_program(),
            carried_out(old(self)@, old(self)@.sem_binary(OpCodes::add), final(self)@, event),
    {
        match self.operands() {
            Err(t) => StepEvent::Trapped(t),
            Ok((a, b, c)) => self.settle(a, (b + c) % 32768, 4),
        }
    }

    /// `mult a b c`: writes the product of the values of `b` and `c`, modulo 32768, to `a`.
    fn exec_mult(&mut self) -> (event: StepEvent)
        requires
            old(self).wf(),
            old(self)@.ip + 3 < old(self)@.memory.len(),
        ensures
            final(self).wf(),
            final(self).spec_program() == old(self).spec_program(),
            carried_out(old(self)@, old(self)@.sem_binary(OpCodes::mult), final(self)@, event),
    {
        match self.operands() {
            Err(t) => StepEvent::Trapped(t),
            Ok((a, b, c)) => {
                assert(b * c <= 32767 * 32767) by (nonlinear_arith)
                    requires
                        b <= 32767,
                        c <= 32767,
                ;
                let large: u32 = b as u32 * c as u32;
                let bounded: u32 = large % 32768;
                self.settle(a, bounded as u16, 4)
            },
        }
    }

    /// `mod a b c`: writes the remainder of the value of `b` by that of `c` to `a`.
    fn exec_mod(&mut self) -> (event: StepEvent)
        requires
            old(self).wf(),
            old(self)@.ip + 3 < old(self)@.memory.len(),
        ensures
            final(self).wf(),
            final(self).spec_program() == old(self).spec_program(),
            carried_out(old(self)@, old(self)@.sem_binary(OpCodes::mod_), final(self)@, event),
    {
        match self.operands() {
            Err(t) => StepEvent::Trapped(t),
            Ok((a, b, c)) => if c == 0 {
                StepEvent::Trapped(Trap::DivisionByZero)
            } else {
                self.settle(a, b % c, 4)
            },
        }
    }

    /// `and a b c`: writes the bitwise and of the values of `b` and `c` to `a`.
    fn exec_and(&mut self) -> (event: StepEvent)
        requires
            old(self).wf(),
            old(self)@.ip + 3 < old(self)@.memory.len(),
        ensures
            final(self).wf(),
            final(self).spec_program() == old(self).spec_program(),
            carried_out(old(self)@, old(self)@.sem_binary(OpCodes::and), final(self)@, event),
    {
        match self.operands() {
            Err(t) => StepEvent::Trapped(t),
            Ok((a, b, c)) => {
                let val: u16 = b & c;
                assert(val <= 32767) by (bit_vector)
                    requires
                        val == b & c,
                        b <= 32767,
                        c <= 32767,
                ;
                self.settle(a, val, 4)
            },
        }
    }

    /// `or a b c`: writes the bitwise or of the values of `b` and `c` to `a`.
    fn exec_or(&mut self) -> (event: StepEvent)
        requires
            old(self).wf(),
            old(self)@.ip + 3 < old(self)@.memory.len(),
        ensures
            final(self).wf(),
            final(self).spec_program() == old(self).spec_program(),
            carried_out(old(self)@, old(self)@.sem_binary(OpCodes::or), final(self)@, event),
    {
        match self.operands() {
            Err(t) => StepEvent::Trapped(t),
            Ok((a, b, c)) => {
                let val: u16 = b | c;
                assert(val <= 32767) by (bit_vector)
                    requires
                        val == b | c,
                        b <= 32767,
                        c <= 32767,
                ;
                self.settle(a, val, 4)
            },
        }
    }

    /// `not a b`: writes the 15-bit complement of the value of `b` to `a`.
    fn exec_not(&mut self) -> (event: StepEvent)
        requires
            old(self).wf(),
            old(self)@.ip + 2 < old(self)@.memory.len(),
        ensures
            final(self).wf(),
            final(self).spec_program() == old(self).spec_program(),
            carried_out(old(self)@, old(self)@.sem_not(), final(self)@, event),
    {
        let a: u16 = self.operand(1);
        let b: u16 = self.operand(2);
        match self.resolve(b) {
            Err(t) => StepEvent::Trapped(t),
            Ok(rb) => {
                let val: u16 = !rb & 0x7fff;
                assert(val <= 32767) by (bit_vector)
                    requires
                        val == !rb & 0x7fff,
                ;
                self.settle(a, val, 3)
            },
        }
    }

    /// `rmem a b`: writes the memory word at the value of `b` to register `a`.
    fn exec_rmem(&mut self) -> (event: StepEvent)
        requires
            old(self).wf(),
            old(self)@.ip + 2 < old(self)@.memory.len(),
        ensures
            final(self).wf(),
            final(self).spec_program() == old(self).spec_program(),
            carried_out(old(self)@, old(self)@.sem_rmem(), final(self)@, event),
    {
        let a: u16 = self.operand(1);
        let b: u16 = self.operand(2);
        let address: u16 = match self.resolve(b) {
            Ok(v) => v,
            Err(t) => {
                return StepEvent::Trapped(t);
            },
        };
        let word: u16 = match self.read(address) {
            Ok(v) => v,
            Err(t) => {
                return StepEvent::Trapped(t);
            },
        };
        if a > REGISTER_LAST || !is_register(a) {
            return StepEvent::Trapped(Trap::InvalidWriteTarget(a));
        }
        if word > WORD_MAX {
            return StepEvent::Trapped(Trap::ValueOutOfRange);
        }
        self.settle(a, word, 3)
    }

    /// `wmem a b`: writes the value of `b` to memory at the value of `a`.
    fn exec_wmem(&mut self) -> (event: StepEvent)
        requires
            old(self).wf(),
            old(self)@.ip + 2 < old(self)@.memory.len(),
        ensures
            final(self).wf(),
            final(self).spec_program() == old(self).spec_program(),
            carried_out(old(self)@, old(self)@.sem_wmem(), final(self)@, event),
    {
        match self.branch_operands() {
            Err(t) => StepEvent::Trapped(t),
            Ok((ra, rb)) => self.settle(ra, rb, 3),
        }
    }

    /// `call b`: puts the address of the next instruction on the stack and goes on
    /// at the value of `b`.
    fn exec_call(&mut self) -> (event: StepEvent)
        requires
            old(self).wf(),
            old(self)@.ip + 1 < old(self)@.memory.len(),
        ensures
            final(self).wf(),
            final(self).spec_program() == old(self).spec_program(),
            carried_out(old(self)@, old(self)@.sem_call(), final(self)@, event),
    {
        let a: u16 = self.operand(1);
        let target: u16 = match self.resolve(a) {
            Ok(v) => v,
            Err(t) => {
                return StepEvent::Trapped(t);
            },
        };
        if target == 0 {
            return StepEvent::Trapped(Trap::CallToZero);
        }
        let next_inst: usize = self.ip + 2;
        if next_inst > WORD_MAX as usize {
            return StepEvent::Trapped(Trap::ValueOutOfRange);
        }
        self.stack.push(next_inst as u16);
        self.ip = target as usize;
        StepEvent::Executed
    }

    /// `ret`: takes the top of the stack and goes on there.
    fn exec_ret(&mut self) -> (event: StepEvent)
        requires
            old(self).wf(),
        ensures
            final(self).wf(),
            final(self).spec_program() == old(self).spec_program(),
            carried_out(old(self)@, old(self)@.sem_ret(), final(self)@, event),
    {
        match self.stack.pop() {
            None => StepEvent::Trapped(Trap::StackUnderflow),
            Some(val) => {
                self.ip = val as usize;
                assert(self@.stack =~= old(self)@.stack.drop_last());
                StepEvent::Executed
            },
        }
    }

    /// `out b`: writes the low byte of the value of `b`.
    fn exec_out(&mut self) -> (event: StepEvent)
        requires
            old(self).wf(),
            old(self)@.ip + 1 < old(self)@.memory.len(),
        ensures
            final(self).wf(),
            final(self).spec_program() == old(self).spec_program(),
            carried_out(old(self)@, old(self)@.sem_out(), final(self)@, event),
    {
        let a: u16 = self.operand(1);
        match self.resolve(a) {
            Ok(value) => {
                self.output.push((value % 256) as u8);
                self.ip += 2;
                StepEvent::Executed
            },
            Err(t) => StepEvent::Trapped(t),
        }
    }

    /// `in a`: takes the first pending input word and writes it to `a`; waits where
    /// no input is pending.
    fn exec_in(&mut self) -> (event: StepEvent)
        requires
            old(self).wf(),
            old(self)@.ip + 1 < old(self)@.memory.len(),
        ensures
            final(self).wf(),
            final(self).spec_program() == old(self).spec_program(),
            carried_out(old(self)@, old(self)@.sem_in(), final(self)@, event),
    {
        let a: u16 = self.operand(1);
        if a > REGISTER_LAST {
            return StepEvent::Trapped(Trap::InvalidWriteTarget(a));
        }
        if self.input_buffer.len() == 0 {
            return StepEvent::AwaitingInput;
        }
        let val: u16 = self.input_buffer[0];
        match self.write(a, val) {
            Ok(()) => {
                self.input_buffer.pop_front();
                self.ip += 2;
                assert(self@.input =~= old(self)@.input.drop_first());
                StepEvent::Executed
            },
            Err(t) => StepEvent::Trapped(t),
        }
    }

    /// Executes the instruction at the instruction pointer, if the machine
    /// should run; see [`HostState::step`].
    pub fn step(&mut self) -> (event: StepEvent)
        requires
            old(self).wf(),
        ensures
            final(self).wf(),
            final(self).spec_program() == old(self).spec_program(),
            (final(self)@, event) == old(self)@.step(),
            event is Executed ==> final(self)@.count == old(self)@.count + 1,
            !(event is Executed) ==> final(self)@.count == old(self)@.count,
    {
        if !self.should_run() {
            return StepEvent::Idle;
        }
        if self.count == u32::MAX {
            self.exec_halt();
            return StepEvent::Trapped(Trap::CounterOverflow);
        }
        let inst = OpCodes::parse(self.memory[self.ip]);
        let event = if let OpCodes::unknown(val) = inst {
            StepEvent::Trapped(Trap::UnknownOpcode(val))
        } else if self.memory.len() - self.ip <= inst.argcount() {
            StepEvent::Trapped(Trap::ReadOutOfRange)
        } else {
            match inst {
                OpCodes::halt => {
                    self.exec_halt();
                    self.ip += 1;
                    StepEvent::Executed
                },
                OpCodes::set => self.exec_set(),
                OpCodes::push => self.exec_push(),
                OpCodes::pop => self.exec_pop(),
                OpCodes::eq => self.exec_eq(),
                OpCodes::gt => self.exec_gt(),
                OpCodes::jmp => self.exec_jmp(),
                OpCodes::jt => self.exec_jt(),
                OpCodes::jf => self.exec_jf(),
                OpCodes::add => self.exec_add(),
                OpCodes::mult => self.exec_mult(),
                OpCodes::mod_ => self.exec_mod(),
                OpCodes::and => self.exec_and(),
                OpCodes::or => self.exec_or(),
                OpCodes::not => self.exec_not(),
                OpCodes::rmem => self.exec_rmem(),
                OpCodes::wmem => self.exec_wmem(),
                OpCodes::call => self.exec_call(),
                OpCodes::ret => self.exec_ret(),
                OpCodes::out => self.exec_out(),
                OpCodes::in_ => self.exec_in(),
                OpCodes::nop => {
                    self.ip += 1;
                    StepEvent::Executed
                },
                OpCodes::unknown(val) => StepEvent::Trapped(Trap::UnknownOpcode(val)),
            }
        };
        match event {
            StepEvent::Executed => {
                self.count += 1;
            },
            StepEvent::Trapped(_) => {
                self.exec_halt();
            },
            _ => {},
        }
        event
    }

    /// Clears the halted flag and steps until the machine should not run,
    /// waits for input, or has been stepped `budget` times.
    pub fn run(&mut self, budget: usize) -> (pause: Pause)
        requires
            old(self).wf(),
        ensures
            final(self).wf(),
            final(self).spec_program() == old(self).spec_program(),
            (final(self)@, pause) == old(self)@.run(budget as nat),
    {
        self.halted = false;
        let mut left: usize = budget;
        while self.should_run() && left > 0
            invariant
                self.wf(),
                self.spec_program() == old(self).spec_program(),
                self@.advance(left as nat) == old(self)@.run(budget as nat),
            decreases left,
        {
            let event = self.step();
            if let StepEvent::AwaitingInput = event {
                return Pause::AwaitingInput;
            }
            left -= 1;
        }
        if self.should_run() {
            Pause::Exhausted
        } else {
            Pause::Stopped
        }
    }

    /// Whether a step would execute an instruction: the machine is not halted
    /// and the instruction pointer lies inside memory.
    pub fn should_run(&self) -> (r: bool)
        ensures
            r == self@.should_run(),
    {
        self.ip < self.memory.len() && !self.halted
    }
}

} // verus!
