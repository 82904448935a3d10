//! The virtual machine: its state, the meaning of each instruction, and the
//! fetch, decode and execute loop.

use crate::instruction::{
    decode, encoded_len, lemma_decode_roundtrip, parameter_of, register_index, shape, Instr,
    Instruction, Operand, Parameter, Register, REGISTER_COUNT,
};
use crate::wire::{word_at, words_of};
use vstd::prelude::*;

verus! {

/// The number of words of memory.
pub const MEMORY_SIZE: usize = 32768;

/// Why a run of the machine was aborted.
#[derive(Debug, Clone, Copy, PartialEq, Eq, Structural)]
pub enum VMError {
    /// `pop` or `ret` found the stack empty.
    PopFromEmptyStack,
    /// The word fetched as an opcode names no instruction.
    UnknownInstruction(u16),
    /// An operand names a register that the machine does not have; the
    /// value is the index it names.
    OOBRegister(u16),
}

/// The machine as the contracts see it.
pub struct Machine {
    /// The address of the next word to fetch.
    pub pc: u16,
    /// The eight registers.
    pub registers: Seq<u16>,
    /// The 32768 words of memory.
    pub memory: Seq<u16>,
    /// The stack, its top last.
    pub stack: Seq<u16>,
    /// The words that the input hook has handed to the machine, oldest first.
    pub inputs: Seq<u16>,
    /// The words that the machine has handed to the output hook, oldest first.
    pub outputs: Seq<u16>,
}

/// The memory cell that the word `addr` addresses. Memory has 15 address
/// bits: the sixteenth bit of an address is ignored.
pub open spec fn cell(addr: int) -> int {
    addr % (MEMORY_SIZE as int)
}

/// The sum of two words in the machine's arithmetic, modulo 32768.
pub open spec fn add_words(x: u16, y: u16) -> u16 {
    ((x + y) % 0x8000) as u16
}

/// The product of two words in the machine's arithmetic, modulo 32768.
pub open spec fn mult_words(x: u16, y: u16) -> u16 {
    ((x * y) % 0x8000) as u16
}

/// The remainder of `x` divided by `y`, reduced modulo 32768; 0 where `y` is 0.
pub open spec fn mod_words(x: u16, y: u16) -> u16 {
    if y == 0 {
        0
    } else {
        ((x % y) % 0x8000) as u16
    }
}

/// The bitwise and of two words, reduced to 15 bits.
pub open spec fn and_words(x: u16, y: u16) -> u16 {
    ((x & y) % 0x8000) as u16
}

/// The bitwise or of two words, reduced to 15 bits.
pub open spec fn or_words(x: u16, y: u16) -> u16 {
    ((x | y) % 0x8000) as u16
}

/// The bitwise complement of a word, reduced to 15 bits.
pub open spec fn not_word(x: u16) -> u16 {
    ((!x) % 0x8000) as u16
}

/// 1 where the condition holds, 0 where it does not.
pub open spec fn flag(b: bool) -> u16 {
    if b {
        1
    } else {
        0
    }
}

/// The word after `pc`, `n` words on, where addresses wrap at two to the sixteenth.
pub open spec fn advance(pc: u16, n: int) -> u16 {
    ((pc + n) % 0x10000) as u16
}

impl Machine {
    /// A machine has eight registers and 32768 words of memory.
    pub open spec fn well_formed(self) -> bool {
        &&& self.registers.len() == REGISTER_COUNT
        &&& self.memory.len() == MEMORY_SIZE
    }

    /// The machine before its first step, with `image` loaded at address 0:
    /// all registers 0, the stack empty, nothing read or written yet.
    pub open spec fn loaded(image: Seq<u16>) -> Machine {
        Machine {
            pc: 0,
            registers: Seq::new(REGISTER_COUNT as nat, |i: int| 0u16),
            memory: Seq::new(
                MEMORY_SIZE as nat,
                |i: int|
                    if i < image.len() {
                        image[i]
                    } else {
                        0u16
                    },
            ),
            stack: Seq::empty(),
            inputs: Seq::empty(),
            outputs: Seq::empty(),
        }
    }

    /// The four words from `pc` on, which hold the next instruction.
    pub open spec fn window(self) -> Seq<u16> {
        Seq::new(4, |k: int| self.memory[cell(self.pc + k)])
    }

    /// This machine with another program counter.
    pub open spec fn at(self, pc: u16) -> Machine {
        Machine { pc, ..self }
    }

    /// The contents of the register with index `r`, or the fault where
    /// there is no such register.
    pub open spec fn register(self, r: u16) -> Result<u16, VMError> {
        if r < REGISTER_COUNT {
            Ok(self.registers[r as int])
        } else {
            Err(VMError::OOBRegister(r))
        }
    }

    /// The value of an operand: a literal's own value, a register's contents.
    pub open spec fn value(self, o: Operand) -> Result<u16, VMError>
        recommends
            !(o is Label),
    {
        match o {
            Operand::Literal(l) => Ok(l),
            Operand::Register(r) => self.register(r),
            Operand::Label(_) => Ok(0),
        }
    }

    /// The machine after `v` was stored in the register with index `r`, or
    /// the machine unchanged and the fault where there is no such register.
    pub open spec fn store(self, r: u16, v: u16) -> (Machine, Result<bool, VMError>) {
        if r < REGISTER_COUNT {
            (Machine { registers: self.registers.update(r as int, v), ..self }, Ok(true))
        } else {
            (self, Err(VMError::OOBRegister(r)))
        }
    }

    /// The machine after `v` was pushed.
    pub open spec fn pushed(self, v: u16) -> Machine {
        Machine { stack: self.stack.push(v), ..self }
    }

    /// The machine after its top of stack was dropped.
    pub open spec fn popped(self) -> Machine {
        Machine { stack: self.stack.drop_last(), ..self }
    }

    /// The machine after it jumped to the value of `target`.
    pub open spec fn jump(self, target: Operand) -> (Machine, Result<bool, VMError>) {
        match self.value(target) {
            Ok(addr) => (self.at(addr), Ok(true)),
            Err(e) => (self, Err(e)),
        }
    }

    /// The machine after a conditional jump: `cond` is evaluated first; where
    /// its value, compared with 0, agrees with `when_zero`, the machine jumps
    /// to the value of `target`.
    pub open spec fn branch(self, cond: Operand, target: Operand, when_zero: bool) -> (
        Machine,
        Result<bool, VMError>,
    ) {
        match self.value(cond) {
            Ok(c) => if (c == 0) == when_zero {
                self.jump(target)
            } else {
                (self, Ok(true))
            },
            Err(e) => (self, Err(e)),
        }
    }

    /// The machine after `op` of the value of `b` was stored in register `a`.
    pub open spec fn unary(self, a: u16, b: Operand, op: spec_fn(u16) -> u16) -> (
        Machine,
        Result<bool, VMError>,
    ) {
        match self.value(b) {
            Ok(x) => self.store(a, op(x)),
            Err(e) => (self, Err(e)),
        }
    }

    /// The machine after `op` of the values of `b` and `c` was stored in
    /// register `a`. The operands are evaluated in order, the register is
    /// looked at last.
    pub open spec fn binary(
        self,
        a: u16,
        b: Operand,
        c: Operand,
        op: spec_fn(u16, u16) -> u16,
    ) -> (Machine, Result<bool, VMError>) {
        match self.value(b) {
            Ok(x) => match self.value(c) {
                Ok(y) => self.store(a, op(x, y)),
                Err(e) => (self, Err(e)),
            },
            Err(e) => (self, Err(e)),
        }
    }

    /// The meaning of one instruction: the machine after it and, where it
    /// did not fault, whether the run goes on (`false` after `halt`).
    /// `input` is the word that the input hook hands over; only `in` uses it.
    /// Where an instruction faults, the machine is as the fault found it.
    pub open spec fn evaluate(self, i: Instr, input: u16) -> (Machine, Result<bool, VMError>)
        recommends
            i.well_formed(),
            i.resolved(),
    {
        let a = i.operands[0];
        let b = i.operands[1];
        let c = i.operands[2];
        let ra = a->Register_0;
        if i.opcode == 0 {
            (self, Ok(false))
        } else if i.opcode == 1 {
            self.unary(ra, b, |x: u16| x)
        } else if i.opcode == 2 {
            match self.value(a) {
                Ok(v) => (self.pushed(v), Ok(true)),
                Err(e) => (self, Err(e)),
            }
        } else if i.opcode == 3 {
            if self.stack.len() == 0 {
                (self, Err(VMError::PopFromEmptyStack))
            } else {
                self.popped().store(ra, self.stack.last())
            }
        } else if i.opcode == 4 {
            self.binary(ra, b, c, |x: u16, y: u16| flag(x == y))
        } else if i.opcode == 5 {
            self.binary(ra, b, c, |x: u16, y: u16| flag(x > y))
        } else if i.opcode == 6 {
            self.jump(a)
        } else if i.opcode == 7 {
            self.branch(a, b, false)
        } else if i.opcode == 8 {
            self.branch(a, b, true)
        } else if i.opcode == 9 {
            self.binary(ra, b, c, |x: u16, y: u16| add_words(x, y))
        } else if i.opcode == 10 {
            self.binary(ra, b, c, |x: u16, y: u16| mult_words(x, y))
        } else if i.opcode == 11 {
            self.binary(ra, b, c, |x: u16, y: u16| mod_words(x, y))
        } else if i.opcode == 12 {
            self.binary(ra, b, c, |x: u16, y: u16| and_words(x, y))
        } else if i.opcode == 13 {
            self.binary(ra, b, c, |x: u16, y: u16| or_words(x, y))
        } else if i.opcode == 14 {
            self.unary(ra, b, |x: u16| not_word(x))
        } else if i.opcode == 15 {
            match self.value(b) {
                Ok(addr) => self.store(ra, self.memory[cell(addr as int)]),
                Err(e) => (self, Err(e)),
            }
        } else if i.opcode == 16 {
            match self.value(b) {
                Ok(v) => match self.value(a) {
                    Ok(addr) => (
                        Machine { memory: self.memory.update(cell(addr as int), v), ..self },
                        Ok(true),
                    ),
                    Err(e) => (self, Err(e)),
                },
                Err(e) => (self, Err(e)),
            }
        } else if i.opcode == 17 {
            self.pushed(self.pc).jump(a)
        } else if i.opcode == 18 {
            if self.stack.len() == 0 {
                (self, Err(VMError::PopFromEmptyStack))
            } else {
                (self.popped().at(self.stack.last()), Ok(true))
            }
        } else if i.opcode == 19 {
            match self.value(a) {
                Ok(v) => (Machine { outputs: self.outputs.push(v), ..self }, Ok(true)),
                Err(e) => (self, Err(e)),
            }
        } else if i.opcode == 20 {
            Machine { inputs: self.inputs.push(input), ..self }.store(ra, input)
        } else {
            (self, Ok(true))
        }
    }

    /// One step of the machine: fetch and decode the instruction at `pc`,
    /// move `pc` past it, execute it. Where the step faults, `pc` is back at
    /// the instruction that faulted.
    pub open spec fn step(self, input: u16) -> (Machine, Result<bool, VMError>) {
        let w = self.window();
        match decode(w) {
            None => (self, Err(VMError::UnknownInstruction(w[0]))),
            Some(i) => {
                let (after, r) = self.at(advance(self.pc, encoded_len(w[0]) as int)).evaluate(
                    i,
                    input,
                );
                match r {
                    Ok(_) => (after, r),
                    Err(_) => (after.at(self.pc), r),
                }
            },
        }
    }

    /// A run of at most `n` steps. `feed` is the input record of the
    /// machine: the word that the input hook hands over when `k` words
    /// have been read before is `feed[k]`. The run ends early at `halt`
    /// (`Ok(false)`) and at a fault; `Ok(true)` says that `n` steps were
    /// made and the machine can go on.
    pub open spec fn run(self, feed: Seq<u16>, n: nat) -> (Machine, Result<bool, VMError>)
        decreases n,
    {
        if n == 0 {
            (self, Ok(true))
        } else {
            let (next, r) = self.step(feed[self.inputs.len() as int]);
            if r == Ok::<bool, VMError>(true) {
                next.run(feed, (n - 1) as nat)
            } else {
                (next, r)
            }
        }
    }

    /// A step reads at most one word. Where it reads none, what it does
    /// depends on no input; where it reads one, the word is appended to
    /// the input record.
    pub proof fn lemma_step_input(self, w1: u16, w2: u16)
        ensures
            self.step(w1).0.inputs == self.inputs || self.step(w1).0.inputs == self.inputs.push(
                w1,
            ),
            self.step(w1).0.inputs == self.inputs ==> self.step(w2) == self.step(w1),
    {
        let w = self.window();
        if decode(w) is Some {
            let i = decode(w)->0;
            let m = self.at(advance(self.pc, encoded_len(w[0]) as int));
            if i.opcode == 20 {
                assert(m.evaluate(i, w1).0.inputs == self.inputs.push(w1));
                assert(self.inputs.push(w1).len() == self.inputs.len() + 1);
            } else {
                assert(m.evaluate(i, w1) == m.evaluate(i, w2));
            }
        }
    }

    /// A run of `n + 1` steps is a run of `n` steps and, where the machine
    /// can go on after them, one step more.
    pub proof fn lemma_run_extend(self, feed: Seq<u16>, n: nat)
        ensures
            self.run(feed, n + 1) == if self.run(feed, n).1 == Ok::<bool, VMError>(true) {
                self.run(feed, n).0.step(feed[self.run(feed, n).0.inputs.len() as int])
            } else {
                self.run(feed, n)
            },
        decreases n,
    {
        reveal_with_fuel(Machine::run, 2);
        if n > 0 {
            let (next, r) = self.step(feed[self.inputs.len() as int]);
            if r == Ok::<bool, VMError>(true) {
                next.lemma_run_extend(feed, (n - 1) as nat);
            }
        }
    }
}

/// What `add`, `mult`, `mod`, `and`, `or` and `not` store fits in 15 bits:
/// where such an instruction does not fault, its register holds a value
/// up to 0x7FFF afterwards, and nothing else of the machine has changed.
pub proof fn lemma_arithmetic_stays_in_15_bits(m: Machine, i: Instr, input: u16)
    requires
        m.well_formed(),
        i.well_formed(),
        9 <= i.opcode <= 14,
        m.evaluate(i, input).1 is Ok,
    ensures
        i.operands[0] is Register,
        i.operands[0]->Register_0 < REGISTER_COUNT,
        m.evaluate(i, input).0.registers[i.operands[0]->Register_0 as int] <= 0x7FFF,
        m.evaluate(i, input).0 == (Machine {
            registers: m.evaluate(i, input).0.registers,
            ..m
        }),
        forall|r: int|
            0 <= r < REGISTER_COUNT && r != i.operands[0]->Register_0 ==> m.evaluate(
                i,
                input,
            ).0.registers[r] == m.registers[r],
{
    assert(shape(i.opcode)[0] is Reg);
}

/// A `call` whose target holds a `ret` leaves the machine as it was but for
/// the program counter: after the two steps registers, memory, stack and
/// the records of input and output are as before the `call`, and the
/// program counter stands behind the `call`.
pub proof fn lemma_call_then_ret(m: Machine, w1: u16, w2: u16)
    requires
        m.well_formed(),
        decode(m.window()) is Some,
        decode(m.window())->0.opcode == 17,
        m.step(w1).1 is Ok,
        decode(m.step(w1).0.window()) is Some,
        decode(m.step(w1).0.window())->0.opcode == 18,
    ensures
        m.step(w1).1 == Ok::<bool, VMError>(true),
        m.step(w1).0.step(w2) == (m.at(advance(m.pc, 2)), Ok::<bool, VMError>(true)),
{
    let called = m.step(w1).0;
    assert(called.stack.drop_last() =~= m.stack);
}

/// Where the machine gets its input words from.
trait InputHook {
    /// The hook may be called.
    spec fn ready(&self) -> bool;

    /// The hook may return `w`.
    spec fn allows(&self, w: u16) -> bool;

    fn read(&mut self) -> (w: u16)
        requires
            old(self).ready(),
        ensures
            final(self).ready(),
            old(self).allows(w),
            forall|x: u16|
                #![trigger final(self).allows(x)]
                #![trigger old(self).allows(x)]
                final(self).allows(x) == old(self).allows(x),
    ;
}

/// Where the machine sends its output words to.
trait OutputHook {
    /// The hook may be called, with any word.
    spec fn ready(&self) -> bool;

    /// The hook may return when it was handed `w`.
    spec fn allows(&self, w: u16) -> bool;

    fn write(&mut self, w: u16)
        requires
            old(self).ready(),
        ensures
            final(self).ready(),
            old(self).allows(w),
            forall|x: u16|
                #![trigger final(self).allows(x)]
                #![trigger old(self).allows(x)]
                final(self).allows(x) == old(self).allows(x),
    ;
}

/// Where the machine shows its state when it meets `dmp`.
trait DumpHook {
    /// The hook may be called, with any state.
    spec fn ready(&self) -> bool;

    /// The hook may return when it was handed this state.
    spec fn allows(&self, registers: &[u16; 8], stack: &Vec<u16>, memory: &[u16; 32768]) -> bool;

    fn dump(&mut self, registers: &[u16; 8], stack: &Vec<u16>, memory: &[u16; 32768])
        requires
            old(self).ready(),
        ensures
            final(self).ready(),
            old(self).allows(registers, stack, memory),
            forall|r: &[u16; 8], s: &Vec<u16>, m: &[u16; 32768]|
                #![trigger final(self).allows(r, s, m)]
                #![trigger old(self).allows(r, s, m)]
                final(self).allows(r, s, m) == old(self).allows(r, s, m),
    ;
}

/// The input of a machine that was given none: every word is 0.
struct NoInput;

impl InputHook for NoInput {
    spec fn ready(&self) -> bool {
        true
    }

    spec fn allows(&self, w: u16) -> bool {
        w == 0
    }

    fn read(&mut self) -> (w: u16) {
        0
    }
}

/// The output of a machine that was given none: every word is dropped.
struct NoOutput;

impl OutputHook for NoOutput {
    spec fn ready(&self) -> bool {
        true
    }

    spec fn allows(&self, w: u16) -> bool {
        true
    }

    fn write(&mut self, w: u16) {
    }
}

/// The diagnostics of a machine that was given none: nothing is shown.
struct NoDump;

impl DumpHook for NoDump {
    spec fn ready(&self) -> bool {
        true
    }

    spec fn allows(&self, registers: &[u16; 8], stack: &Vec<u16>, memory: &[u16; 32768]) -> bool {
        true
    }

    fn dump(&mut self, registers: &[u16; 8], stack: &Vec<u16>, memory: &[u16; 32768]) {
    }
}

/// A closure that serves as input hook.
struct InputFn<F: FnMut() -> u16> {
    f: F,
}

impl<F: FnMut() -> u16> InputHook for InputFn<F> {
    spec fn ready(&self) -> bool {
        call_requires(self.f, ())
    }

    spec fn allows(&self, w: u16) -> bool {
        call_ensures(self.f, (), w)
    }

    fn read(&mut self) -> (w: u16) {
        (self.f)()
    }
}

/// A closure that serves as output hook.
struct OutputFn<F: FnMut(u16)> {
    f: F,
}

impl<F: FnMut(u16)> OutputHook for OutputFn<F> {
    spec fn ready(&self) -> bool {
        forall|w: u16| call_requires(self.f, (w,))
    }

    spec fn allows(&self, w: u16) -> bool {
        call_ensures(self.f, (w,), ())
    }

    fn write(&mut self, w: u16) {
        (self.f)(w)
    }
}

/// A closure that serves as diagnostic hook.
struct DumpFn<F: FnMut(&[u16; 8], &Vec<u16>, &[u16; 32768])> {
    f: F,
}

impl<F: FnMut(&[u16; 8], &Vec<u16>, &[u16; 32768])> DumpHook for DumpFn<F> {
    spec fn ready(&self) -> bool {
        forall|registers: &[u16; 8], stack: &Vec<u16>, memory: &[u16; 32768]|
            call_requires(self.f, (registers, stack, memory))
    }

    spec fn allows(&self, registers: &[u16; 8], stack: &Vec<u16>, memory: &[u16; 32768]) -> bool {
        call_ensures(self.f, (registers, stack, memory), ())
    }

    fn dump(&mut self, registers: &[u16; 8], stack: &Vec<u16>, memory: &[u16; 32768]) {
        (self.f)(registers, stack, memory)
    }
}

/// A virtual machine: program counter, eight registers, 32768 words of
/// memory, a stack, and the hooks through which it reads and writes words
/// and shows its state. For the contracts it keeps a record of the words
/// that it got from its input hook and of those that it gave to its output
/// hook: each call of a hook stands beside the entry in the record.
pub struct VM<'a> {
    pc: u16,
    registers: [u16; 8],
    memory: [u16; 32768],
    stack: Vec<u16>,
    input_callback: Box<dyn InputHook + 'a>,
    output_callback: Box<dyn OutputHook + 'a>,
    dump_callback: Box<dyn DumpHook + 'a>,
    /// The words read so far.
    inputs: Ghost<Seq<u16>>,
    /// The words written so far.
    outputs: Ghost<Seq<u16>>,
}

impl<'a> View for VM<'a> {
    type V = Machine;

    closed spec fn view(&self) -> Machine {
        Machine {
            pc: self.pc,
            registers: self.registers@,
            memory: self.memory@,
            stack: self.stack@,
            inputs: self.inputs@,
            outputs: self.outputs@,
        }
    }
}

/// The word that the input hook handed over between two states of a
/// machine: the newest word of the input record where the record has
/// grown, 0 where it has not.
pub open spec fn word_read(before: Machine, after: Machine) -> u16 {
    if after.inputs.len() > before.inputs.len() {
        after.inputs.last()
    } else {
        0
    }
}

/// Two states of a machine have the same input hook: it may return the
/// same words.
pub open spec fn same_input_hook(before: VM, after: VM) -> bool {
    forall|w: u16|
        #![trigger after.input_allows(w)]
        #![trigger before.input_allows(w)]
        after.input_allows(w) == before.input_allows(w)
}

/// Two states of a machine have the same output hook: it may return on the
/// same words.
pub open spec fn same_output_hook(before: VM, after: VM) -> bool {
    forall|w: u16|
        #![trigger after.output_allows(w)]
        #![trigger before.output_allows(w)]
        after.output_allows(w) == before.output_allows(w)
}

/// Two states of a machine have the same diagnostic hook: it may return on
/// the same states.
pub open spec fn same_dump_hook(before: VM, after: VM) -> bool {
    forall|r: &[u16; 8], s: &Vec<u16>, m: &[u16; 32768]|
        #![trigger after.dump_allows(r, s, m)]
        #![trigger before.dump_allows(r, s, m)]
        after.dump_allows(r, s, m) == before.dump_allows(r, s, m)
}

/// Two states of a machine have the same hooks: both can run or neither
/// can, and each hook is as it was.
pub open spec fn same_hooks(before: VM, after: VM) -> bool {
    &&& after.ready() == before.ready()
    &&& same_input_hook(before, after)
    &&& same_output_hook(before, after)
    &&& same_dump_hook(before, after)
}

/// The hooks of a machine in which no closure was installed: the input
/// hook returns 0, the other two take everything.
pub open spec fn fresh_hooks(vm: VM) -> bool {
    &&& forall|w: u16| #[trigger] vm.input_allows(w) <==> w == 0
    &&& forall|w: u16| #[trigger] vm.output_allows(w)
    &&& forall|r: &[u16; 8], s: &Vec<u16>, m: &[u16; 32768]| #[trigger] vm.dump_allows(r, s, m)
}

/// The words that were written between two states of a machine are words
/// on which the output hook may return.
pub open spec fn writes_allowed(before: VM, after: VM) -> bool {
    forall|k: int|
        before@.outputs.len() <= k < after@.outputs.len() ==> before.output_allows(
            #[trigger] after@.outputs[k],
        )
}

/// The words that were read between two states of a machine are words
/// that the input hook may return.
pub open spec fn reads_allowed(before: VM, after: VM) -> bool {
    forall|k: int|
        before@.inputs.len() <= k < after@.inputs.len() ==> before.input_allows(
            #[trigger] after@.inputs[k],
        )
}

/// How the result of `VM::execute` reads the end of a run of `n` steps:
/// `Ok` where the machine halted, the fault where it faulted. A run that was
/// cut off after `u64::MAX` steps gives `Ok` too.
pub open spec fn ended(r: Result<(), VMError>, end: Result<bool, VMError>, n: nat) -> bool {
    match r {
        Ok(_) => end == Ok::<bool, VMError>(false) || (end == Ok::<bool, VMError>(true) && n
            == u64::MAX),
        Err(e) => end == Err::<bool, VMError>(e),
    }
}

impl<'a> VM<'a> {
    /// The machine can run: each of its hooks may be called. It is so from
    /// the start, and stays so where each closure is installed with what
    /// the contract of its installation asks.
    pub closed spec fn ready(&self) -> bool {
        &&& self.input_callback.ready()
        &&& self.output_callback.ready()
        &&& self.dump_callback.ready()
    }

    /// The input hook of the machine may return `w`: `w` is 0 where no
    /// closure was installed, else a word that the contract of the closure
    /// allows.
    pub closed spec fn input_allows(&self, w: u16) -> bool {
        self.input_callback.allows(w)
    }

    /// The output hook of the machine may return when it was handed `w`:
    /// always where no closure was installed, else where the contract of
    /// the closure says so.
    pub closed spec fn output_allows(&self, w: u16) -> bool {
        self.output_callback.allows(w)
    }

    /// The diagnostic hook of the machine may return when it was handed
    /// this state: always where no closure was installed, else where the
    /// contract of the closure says so.
    pub closed spec fn dump_allows(
        &self,
        registers: &[u16; 8],
        stack: &Vec<u16>,
        memory: &[u16; 32768],
    ) -> bool {
        self.dump_callback.allows(registers, stack, memory)
    }

    /// A machine with empty memory, whose input hook returns 0, whose output
    /// hook drops what it gets and whose diagnostic hook shows nothing.
    pub fn new() -> (vm: Self)
        ensures
            vm.ready(),
            fresh_hooks(vm),
            vm@ == Machine::loaded(Seq::empty()),
    {
        let vm = VM {
            pc: 0,
            registers: [0;8],
            memory: [0;32768],
            stack: Vec::new(),
            input_callback: Box::new(NoInput),
            output_callback: Box::new(NoOutput),
            dump_callback: Box::new(NoDump),
            inputs: Ghost(Seq::empty()),
            outputs: Ghost(Seq::empty()),
        };
        assert(vm@.registers =~= Machine::loaded(Seq::empty()).registers);
        assert(vm@.memory =~= Machine::loaded(Seq::empty()).memory);
        vm
    }

    /// Every machine has eight registers and 32768 words of memory.
    pub proof fn lemma_view_well_formed(&self)
        ensures
            self@.well_formed(),
    {
    }

    /// Installs the closure that the machine calls for each word it reads.
    /// The closure must be one that may be called at any time.
    pub fn set_input_callback<F: 'a>(&mut self, f: F) where F: FnMut() -> u16
        requires
            old(self).ready(),
            call_requires(f, ()),
        ensures
            final(self).ready(),
            forall|w: u16| #[trigger] final(self).input_allows(w) <==> call_ensures(f, (), w),
            same_output_hook(*old(self), *final(self)),
            same_dump_hook(*old(self), *final(self)),
            final(self)@ == old(self)@,
    {
        self.input_callback = Box::new(InputFn { f });
    }

    /// Installs the closure that the machine calls with each word it
    /// writes. The closure must be one that takes every word.
    pub fn set_output_callback<F: 'a>(&mut self, f: F) where F: FnMut(u16)
        requires
            old(self).ready(),
            forall|w: u16| call_requires(f, (w,)),
        ensures
            final(self).ready(),
            forall|w: u16| #[trigger] final(self).output_allows(w) <==> call_ensures(f, (w,), ()),
            same_input_hook(*old(self), *final(self)),
            same_dump_hook(*old(self), *final(self)),
            final(self)@ == old(self)@,
    {
        self.output_callback = Box::new(OutputFn { f });
    }

    /// Installs the closure that the machine calls when it meets `dmp`,
    /// with its registers, its stack and its memory. The closure must be
    /// one that takes every state.
    pub fn set_dump_callback<F: 'a>(&mut self, f: F) where
        F: FnMut(&[u16; 8], &Vec<u16>, &[u16; 32768]),

        requires
            old(self).ready(),
            forall|registers: &[u16; 8], stack: &Vec<u16>, memory: &[u16; 32768]|
                call_requires(f, (registers, stack, memory)),
        ensures
            final(self).ready(),
            forall|registers: &[u16; 8], stack: &Vec<u16>, memory: &[u16; 32768]|
                #[trigger] final(self).dump_allows(registers, stack, memory) <==> call_ensures(
                    f,
                    (registers, stack, memory),
                    (),
                ),
            same_input_hook(*old(self), *final(self)),
            same_output_hook(*old(self), *final(self)),
            final(self)@ == old(self)@,
    {
        self.dump_callback = Box::new(DumpFn { f });
    }

    /// The program counter.
    pub fn pc(&self) -> (pc: u16)
        ensures
            pc == self@.pc,
    {
        self.pc
    }

    /// The eight registers.
    pub fn registers(&self) -> (r: &[u16; 8])
        ensures
            r@ == self@.registers,
    {
        &self.registers
    }

    /// The stack, its top last.
    pub fn stack(&self) -> (s: &Vec<u16>)
        ensures
            s@ == self@.stack,
    {
        &self.stack
    }

    /// The word in the memory cell that `addr` addresses.
    pub fn memory(&self, addr: u16) -> (w: u16)
        ensures
            w == self@.memory[cell(addr as int)],
    {
        self.memory[(addr % 32768) as usize]
    }

    /// Fetches the word at `pc` and moves `pc` to the next word.
    fn next_word(&mut self) -> (w: u16)
        ensures
            same_hooks(*old(self), *final(self)),
            w == old(self)@.memory[cell(old(self)@.pc as int)],
            final(self)@ == old(self)@.at(advance(old(self)@.pc, 1)),
    {
        let v = self.memory[(self.pc % 32768) as usize];
        self.pc = self.pc.wrapping_add(1);
        v
    }

    /// The word `k` words behind `pc` is the `k`-th word of the window.
    proof fn lemma_window(m: Machine, k: int)
        requires
            0 <= k < 4,
        ensures
            m.window()[k] == m.memory[cell(advance(m.pc, k) as int)],
            advance(advance(m.pc, k), 1) == advance(m.pc, k + 1),
    {
    }

    /// Fetches the word at `pc` as a register operand. `m` is the
    /// machine before the instruction was fetched and `k` the place of the
    /// word in the instruction.
    fn fetch_register(&mut self, Ghost(m): Ghost<Machine>, Ghost(k): Ghost<int>) -> (r: Register)
        requires
            0 <= k < 4,
            old(self)@ == m.at(advance(m.pc, k)),
        ensures
            same_hooks(*old(self), *final(self)),
            r.0 == register_index(m.window()[k]),
            final(self)@ == m.at(advance(m.pc, k + 1)),
    {
        proof {
            Self::lemma_window(m, k);
        }
        let word = self.next_word();
        Register::from(word)
    }

    /// Fetches the word at `pc` as a parameter. `m` is the machine
    /// before the instruction was fetched and `k` the place of the word in
    /// the instruction.
    fn fetch_parameter(&mut self, Ghost(m): Ghost<Machine>, Ghost(k): Ghost<int>) -> (p: Parameter)
        requires
            0 <= k < 4,
            old(self)@ == m.at(advance(m.pc, k)),
        ensures
            same_hooks(*old(self), *final(self)),
            p@ == parameter_of(m.window()[k]),
            final(self)@ == m.at(advance(m.pc, k + 1)),
    {
        proof {
            Self::lemma_window(m, k);
        }
        let word = self.next_word();
        Parameter::from(word)
    }

    /// Fetches and decodes the instruction at `pc`, and leaves `pc` behind
    /// it: behind the whole instruction, or behind the first word where that
    /// word is no opcode.
    pub fn load_instruction(&mut self) -> (r: Result<Instruction, VMError>)
        ensures
            same_hooks(*old(self), *final(self)),
            match decode(old(self)@.window()) {
                Some(i) => r is Ok && r->Ok_0@ == i && final(self)@ == old(self)@.at(
                    advance(old(self)@.pc, encoded_len(old(self)@.window()[0]) as int),
                ),
                None => r == Err::<Instruction, VMError>(
                    VMError::UnknownInstruction(old(self)@.window()[0]),
                ) && final(self)@ == old(self)@.at(advance(old(self)@.pc, 1)),
            },
    {
        let ghost m = self@;
        let ghost w = m.window();
        proof {
            Self::lemma_window(m, 0);
        }
        let instr = self.next_word();
        match instr {
            0 => {
                assert(Instruction::Halt@.operands =~= decode(w)->0.operands);
                Ok(Instruction::Halt)
            },
            1 => {
                let a = self.fetch_register(Ghost(m), Ghost(1));
                let b = self.fetch_parameter(Ghost(m), Ghost(2));
                let i = Instruction::SetReg(a, b);
                assert(i@.operands =~= decode(w)->0.operands);
                Ok(i)
            },
            2 => {
                let a = self.fetch_parameter(Ghost(m), Ghost(1));
                let i = Instruction::Push(a);
                assert(i@.operands =~= decode(w)->0.operands);
                Ok(i)
            },
            3 => {
                let a = self.fetch_register(Ghost(m), Ghost(1));
                let i = Instruction::Pop(a);
                assert(i@.operands =~= decode(w)->0.operands);
                Ok(i)
            },
            4 => {
                let a = self.fetch_register(Ghost(m), Ghost(1));
                let b = self.fetch_parameter(Ghost(m), Ghost(2));
                let c = self.fetch_parameter(Ghost(m), Ghost(3));
                let i = Instruction::Eq(a, b, c);
                assert(i@.operands =~= decode(w)->0.operands);
                Ok(i)
            },
            5 => {
                let a = self.fetch_register(Ghost(m), Ghost(1));
                let b = self.fetch_parameter(Ghost(m), Ghost(2));
                let c = self.fetch_parameter(Ghost(m), Ghost(3));
                let i = Instruction::Gt(a, b, c);
                assert(i@.operands =~= decode(w)->0.operands);
                Ok(i)
            },
            6 => {
                let a = self.fetch_parameter(Ghost(m), Ghost(1));
                let i = Instruction::Jmp(a);
                assert(i@.operands =~= decode(w)->0.operands);
                Ok(i)
            },
            7 => {
                let a = self.fetch_parameter(Ghost(m), Ghost(1));
                let b = self.fetch_parameter(Ghost(m), Ghost(2));
                let i = Instruction::Jt(a, b);
                assert(i@.operands =~= decode(w)->0.operands);
                Ok(i)
            },
            8 => {
                let a = self.fetch_parameter(Ghost(m), Ghost(1));
                let b = self.fetch_parameter(Ghost(m), Ghost(2));
                let i = Instruction::Jf(a, b);
                assert(i@.operands =~= decode(w)->0.operands);
                Ok(i)
            },
            9 => {
                let a = self.fetch_register(Ghost(m), Ghost(1));
                let b = self.fetch_parameter(Ghost(m), Ghost(2));
                let c = self.fetch_parameter(Ghost(m), Ghost(3));
                let i = Instruction::Add(a, b, c);
                assert(i@.operands =~= decode(w)->0.operands);
                Ok(i)
            },
            10 => {
                let a = self.fetch_register(Ghost(m), Ghost(1));
                let b = self.fetch_parameter(Ghost(m), Ghost(2));
                let c = self.fetch_parameter(Ghost(m), Ghost(3));
                let i = Instruction::Mult(a, b, c);
                assert(i@.operands =~= decode(w)->0.operands);
                Ok(i)
            },
            11 => {
                let a = self.fetch_register(Ghost(m), Ghost(1));
                let b = self.fetch_parameter(Ghost(m), Ghost(2));
                let c = self.fetch_parameter(Ghost(m), Ghost(3));
                let i = Instruction::Mod(a, b, c);
                assert(i@.operands =~= decode(w)->0.operands);
                Ok(i)
            },
            12 => {
                let a = self.fetch_register(Ghost(m), Ghost(1));
                let b = self.fetch_parameter(Ghost(m), Ghost(2));
                let c = self.fetch_parameter(Ghost(m), Ghost(3));
                let i = Instruction::And(a, b, c);
                assert(i@.operands =~= decode(w)->0.operands);
                Ok(i)
            },
            13 => {
                let a = self.fetch_register(Ghost(m), Ghost(1));
                let b = self.fetch_parameter(Ghost(m), Ghost(2));
                let c = self.fetch_parameter(Ghost(m), Ghost(3));
                let i = Instruction::Or(a, b, c);
                assert(i@.operands =~= decode(w)->0.operands);
                Ok(i)
            },
            14 => {
                let a = self.fetch_register(Ghost(m), Ghost(1));
                let b = self.fetch_parameter(Ghost(m), Ghost(2));
                let i = Instruction::Not(a, b);
                assert(i@.operands =~= decode(w)->0.operands);
                Ok(i)
            },
            15 => {
                let a = self.fetch_register(Ghost(m), Ghost(1));
                let b = self.fetch_parameter(Ghost(m), Ghost(2));
                let i = Instruction::Rmem(a, b);
                assert(i@.operands =~= decode(w)->0.operands);
                Ok(i)
            },
            16 => {
                let a = self.fetch_parameter(Ghost(m), Ghost(1));
                let b = self.fetch_parameter(Ghost(m), Ghost(2));
                let i = Instruction::Wmem(a, b);
                assert(i@.operands =~= decode(w)->0.operands);
                Ok(i)
            },
            17 => {
                let a = self.fetch_parameter(Ghost(m), Ghost(1));
                let i = Instruction::Call(a);
                assert(i@.operands =~= decode(w)->0.operands);
                Ok(i)
            },
            18 => {
                assert(Instruction::Ret@.operands =~= decode(w)->0.operands);
                Ok(Instruction::Ret)
            },
            19 => {
                let a = self.fetch_parameter(Ghost(m), Ghost(1));
                let i = Instruction::Out(a);
                assert(i@.operands =~= decode(w)->0.operands);
                Ok(i)
            },
            20 => {
                let a = self.fetch_register(Ghost(m), Ghost(1));
                let i = Instruction::In(a);
                assert(i@.operands =~= decode(w)->0.operands);
                Ok(i)
            },
            21 => {
                assert(Instruction::Noop@.operands =~= decode(w)->0.operands);
                Ok(Instruction::Noop)
            },
            0xff => {
                assert(Instruction::Dmp@.operands =~= decode(w)->0.operands);
                Ok(Instruction::Dmp)
            },
            _ => Err(VMError::UnknownInstruction(instr)),
        }
    }

    /// The contents of a register.
    fn get_register(&self, reg: &Register) -> (r: Result<u16, VMError>)
        ensures
            r == self@.register(reg.0),
    {
        if reg.0 >= 8 {
            return Err(VMError::OOBRegister(reg.0));
        }
        Ok(self.registers[reg.0 as usize])
    }

    /// Stores `v` in a register.
    fn set_register(&mut self, reg: &Register, v: u16) -> (r: Result<(), VMError>)
        ensures
            same_hooks(*old(self), *final(self)),
            final(self)@ == old(self)@.store(reg.0, v).0,
            match r {
                Ok(_) => old(self)@.store(reg.0, v).1 == Ok::<bool, VMError>(true),
                Err(e) => old(self)@.store(reg.0, v).1 == Err::<bool, VMError>(e),
            },
    {
        if reg.0 >= 8 {
            return Err(VMError::OOBRegister(reg.0));
        }
        self.registers[reg.0 as usize] = v;
        Ok(())
    }

    /// The value of an operand.
    fn get_parameter(&self, param: &Parameter) -> (r: Result<u16, VMError>)
        requires
            !(param@ is Label),
        ensures
            r == self@.value(param@),
    {
        match param {
            Parameter::Register(r) => self.get_register(r),
            Parameter::Literal(l) => Ok(*l),
            Parameter::Label(_) => Ok(0),
        }
    }

    /// Pushes a word.
    fn stack_push(&mut self, v: u16)
        ensures
            same_hooks(*old(self), *final(self)),
            final(self)@ == old(self)@.pushed(v),
    {
        self.stack.push(v);
    }

    /// Pops the top of the stack.
    fn stack_pop(&mut self) -> (r: Result<u16, VMError>)
        ensures
            same_hooks(*old(self), *final(self)),
            old(self)@.stack.len() == 0 ==> r == Err::<u16, VMError>(VMError::PopFromEmptyStack)
                && final(self)@ == old(self)@,
            old(self)@.stack.len() > 0 ==> r == Ok::<u16, VMError>(old(self)@.stack.last())
                && final(self)@ == old(self)@.popped(),
    {
        match self.stack.pop() {
            Some(x) => Ok(x),
            None => Err(VMError::PopFromEmptyStack),
        }
    }

    /// The remainder modulo 32768 of a sum or product that wrapped at two
    /// to the sixteenth is the remainder of the sum or product itself.
    proof fn lemma_wrapped(x: u16, y: u16)
        ensures
            x.wrapping_add(y) % 32768 == add_words(x, y),
            x.wrapping_mul(y) % 32768 == mult_words(x, y),
    {
        let p: int = x as int * y as int;
        assert(0 <= p) by (nonlinear_arith)
            requires
                p == x as int * y as int,
                0 <= x,
                0 <= y,
        ;
        assert((p % 65536) % 32768 == p % 32768);
    }

    /// Executes one instruction. The result says whether the run goes on:
    /// `false` after `halt`.
    pub fn evaluate(&mut self, instr: Instruction) -> (r: Result<bool, VMError>)
        requires
            old(self).ready(),
            instr@.resolved(),
        ensures
            same_hooks(*old(self), *final(self)),
            reads_allowed(*old(self), *final(self)),
            writes_allowed(*old(self), *final(self)),
            (final(self)@, r) == old(self)@.evaluate(
                instr@,
                word_read(old(self)@, final(self)@),
            ),
    {
        proof {
            instr.lemma_view_well_formed();
        }
        match instr {
            Instruction::Halt => {
                return Ok(false);
            },
            Instruction::SetReg(ref a, ref b) => {
                assert(instr@.operands[1] == b@);
                let v = self.get_parameter(b)?;
                self.set_register(a, v)?;
            },
            Instruction::Push(ref a) => {
                assert(instr@.operands[0] == a@);
                let v = self.get_parameter(a)?;
                self.stack_push(v);
            },
            Instruction::Pop(ref a) => {
                let v = self.stack_pop()?;
                self.set_register(a, v)?;
            },
            Instruction::Eq(ref a, ref b, ref c) => {
                assert(instr@.operands[1] == b@ && instr@.operands[2] == c@);
                let x = self.get_parameter(b)?;
                let y = self.get_parameter(c)?;
                let v = if x == y { 1 } else { 0 };
                self.set_register(a, v)?;
            },
            Instruction::Gt(ref a, ref b, ref c) => {
                assert(instr@.operands[1] == b@ && instr@.operands[2] == c@);
                let x = self.get_parameter(b)?;
                let y = self.get_parameter(c)?;
                let v = if x > y { 1 } else { 0 };
                self.set_register(a, v)?;
            },
            Instruction::Jmp(ref a) => {
                assert(instr@.operands[0] == a@);
                self.pc = self.get_parameter(a)?;
            },
            Instruction::Jt(ref a, ref b) => {
                assert(instr@.operands[0] == a@ && instr@.operands[1] == b@);
                if self.get_parameter(a)? != 0 {
                    self.pc = self.get_parameter(b)?;
                }
            },
            Instruction::Jf(ref a, ref b) => {
                assert(instr@.operands[0] == a@ && instr@.operands[1] == b@);
                if self.get_parameter(a)? == 0 {
                    self.pc = self.get_parameter(b)?;
                }
            },
            Instruction::Add(ref a, ref b, ref c) => {
                assert(instr@.operands[1] == b@ && instr@.operands[2] == c@);
                let x = self.get_parameter(b)?;
                let y = self.get_parameter(c)?;
                proof {
                    Self::lemma_wrapped(x, y);
                }
                let v = x.wrapping_add(y) % 32768;
                self.set_register(a, v)?;
            },
            Instruction::Mult(ref a, ref b, ref c) => {
                assert(instr@.operands[1] == b@ && instr@.operands[2] == c@);
                let x = self.get_parameter(b)?;
                let y = self.get_parameter(c)?;
                proof {
                    Self::lemma_wrapped(x, y);
                }
                let v = x.wrapping_mul(y) % 32768;
                self.set_register(a, v)?;
            },
            Instruction::Mod(ref a, ref b, ref c) => {
                assert(instr@.operands[1] == b@ && instr@.operands[2] == c@);
                let x = self.get_parameter(b)?;
                let y = self.get_parameter(c)?;
                let v = if y == 0 { 0 } else { (x % y) % 32768 };
                self.set_register(a, v)?;
            },
            Instruction::And(ref a, ref b, ref c) => {
                assert(instr@.operands[1] == b@ && instr@.operands[2] == c@);
                let x = self.get_parameter(b)?;
                let y = self.get_parameter(c)?;
                let v = (x & y) % 32768;
                self.set_register(a, v)?;
            },
            Instruction::Or(ref a, ref b, ref c) => {
                assert(instr@.operands[1] == b@ && instr@.operands[2] == c@);
                let x = self.get_parameter(b)?;
                let y = self.get_parameter(c)?;
                let v = (x | y) % 32768;
                self.set_register(a, v)?;
            },
            Instruction::Not(ref a, ref b) => {
                assert(instr@.operands[1] == b@);
                let v = !self.get_parameter(b)?;
                self.set_register(a, v % 32768)?;
            },
            Instruction::Rmem(ref a, ref b) => {
                assert(instr@.operands[1] == b@);
                let addr = self.get_parameter(b)?;
                let v = self.memory[(addr % 32768) as usize];
                self.set_register(a, v)?;
            },
            Instruction::Wmem(ref a, ref b) => {
                assert(instr@.operands[0] == a@ && instr@.operands[1] == b@);
                let v = self.get_parameter(b)?;
                let addr = self.get_parameter(a)?;
                self.memory[(addr % 32768) as usize] = v;
            },
            Instruction::Call(ref a) => {
                assert(instr@.operands[0] == a@);
                let pc = self.pc;
                self.stack_push(pc);
                self.pc = self.get_parameter(a)?;
            },
            Instruction::Ret => {
                self.pc = self.stack_pop()?;
            },
            Instruction::Out(ref a) => {
                assert(instr@.operands[0] == a@);
                let param = self.get_parameter(a)?;
                self.output_callback.write(param);
                proof {
                    self.outputs@ = self.outputs@.push(param);
                }
            },
            Instruction::In(ref a) => {
                let v = self.input_callback.read();
                proof {
                    self.inputs@ = self.inputs@.push(v);
                }
                self.set_register(a, v)?;
            },
            Instruction::Dmp => {
                self.dump_callback.dump(&self.registers, &self.stack, &self.memory);
            },
            Instruction::Noop => {},
        }
        Ok(true)
    }

    /// Makes one step: fetches, decodes and executes the instruction at
    /// `pc`. The result says whether the run goes on. Where the step faults,
    /// `pc` is put back to the instruction that faulted.
    pub fn step(&mut self) -> (r: Result<bool, VMError>)
        requires
            old(self).ready(),
        ensures
            same_hooks(*old(self), *final(self)),
            reads_allowed(*old(self), *final(self)),
            writes_allowed(*old(self), *final(self)),
            (final(self)@, r) == old(self)@.step(word_read(old(self)@, final(self)@)),
    {
        let start = self.pc;
        proof {
            if decode(self@.window()) is Some {
                lemma_decode_roundtrip(self@.window());
            }
        }
        let instr = match self.load_instruction() {
            Ok(instr) => instr,
            Err(e) => {
                self.pc = start;
                return Err(e);
            },
        };
        match self.evaluate(instr) {
            Ok(more) => Ok(more),
            Err(e) => {
                self.pc = start;
                Err(e)
            },
        }
    }

    /// Runs the machine for at most `limit` steps. `Ok(false)` says that it
    /// halted, `Ok(true)` that it made `limit` steps and can go on.
    pub fn run(&mut self, limit: u64) -> (r: Result<bool, VMError>)
        requires
            old(self).ready(),
        ensures
            same_hooks(*old(self), *final(self)),
            reads_allowed(*old(self), *final(self)),
            writes_allowed(*old(self), *final(self)),
            exists|n: nat|
                n <= limit && #[trigger] old(self)@.run(final(self)@.inputs, n) == (
                    final(self)@,
                    r,
                ) && (r == Ok::<bool, VMError>(true) ==> n == limit),
    {
        let ghost start = self@;
        let mut done: u64 = 0;
        while done < limit
            invariant
                done <= limit,
                self.ready(),
                same_hooks(*old(self), *self),
                reads_allowed(*old(self), *self),
                writes_allowed(*old(self), *self),
                start == old(self)@,
                start.inputs.is_prefix_of(self@.inputs),
                forall|feed: Seq<u16>|
                    self@.inputs.is_prefix_of(feed) ==> #[trigger] start.run(feed, done as nat)
                        == (self@, Ok::<bool, VMError>(true)),
            decreases limit - done,
        {
            let ghost before = self@;
            let r = self.step();
            proof {
                let w = word_read(before, self@);
                before.lemma_step_input(w, w);
                assert(before.inputs.is_prefix_of(self@.inputs));
                assert forall|feed: Seq<u16>| self@.inputs.is_prefix_of(feed) implies (
                #[trigger] start.run(feed, (done + 1) as nat)) == (self@, r) by {
                    assert(before.inputs.is_prefix_of(feed));
                    start.lemma_run_extend(feed, done as nat);
                    let fed = feed[before.inputs.len() as int];
                    before.lemma_step_input(w, fed);
                    if self@.inputs != before.inputs {
                        assert(self@.inputs[before.inputs.len() as int] == w);
                        assert(fed == w);
                    }
                }
            }
            match r {
                Ok(true) => {
                    done += 1;
                    assert forall|feed: Seq<u16>| self@.inputs.is_prefix_of(feed) implies (
                    #[trigger] start.run(feed, done as nat)) == (self@, r) by {
                        assert(start.run(feed, (done - 1 + 1) as nat) == (self@, r));
                    }
                },
                _ => {
                    assert(self@.inputs.is_prefix_of(self@.inputs));
                    assert(start.run(self@.inputs, (done + 1) as nat) == (self@, r));
                    return r;
                },
            }
        }
        assert(self@.inputs.is_prefix_of(self@.inputs));
        assert(start.run(self@.inputs, done as nat) == (self@, Ok::<bool, VMError>(true)));
        Ok(true)
    }

    /// Runs the machine until it halts or faults. A run is cut off after
    /// `u64::MAX` steps.
    pub fn execute(&mut self) -> (r: Result<(), VMError>)
        requires
            old(self).ready(),
        ensures
            same_hooks(*old(self), *final(self)),
            reads_allowed(*old(self), *final(self)),
            writes_allowed(*old(self), *final(self)),
            exists|n: nat, end: Result<bool, VMError>|
                n <= u64::MAX && old(self)@.run(final(self)@.inputs, n) == (final(self)@, end)
                    && #[trigger] ended(r, end, n),
    {
        let end = self.run(u64::MAX);
        let r = match end {
            Ok(_) => Ok(()),
            Err(e) => Err(e),
        };
        proof {
            let n = choose|n: nat|
                n <= u64::MAX && #[trigger] old(self)@.run(self@.inputs, n) == (self@, end) && (end
                    == Ok::<bool, VMError>(true) ==> n == u64::MAX);
            match end {
                Ok(more) => {
                    assert(ended(r, end, n));
                },
                Err(e) => {
                    assert(ended(r, end, n));
                },
            }
        }
        r
    }

    /// A machine whose memory holds the words of `image` from address 0 on,
    /// each word given by two bytes, the less significant first. A last odd
    /// byte is dropped, and so is what does not fit in memory.
    pub fn new_from_reader(image: &[u8]) -> (vm: Self)
        ensures
            vm.ready(),
            fresh_hooks(vm),
            vm@ == Machine::loaded(words_of(image@)),
    {
        let mut vm = VM::new();
        let ghost fresh = vm;
        let words = image.len() / 2;
        let n = if words < MEMORY_SIZE {
            words
        } else {
            MEMORY_SIZE
        };
        let mut i: usize = 0;
        while i < n
            invariant
                i <= n <= MEMORY_SIZE,
                n <= words_of(image@).len(),
                n == MEMORY_SIZE || n == words_of(image@).len(),
                same_hooks(fresh, vm),
                vm@.pc == 0,
                vm@.registers == Machine::loaded(Seq::empty()).registers,
                vm@.stack == Seq::<u16>::empty(),
                vm@.inputs == Seq::<u16>::empty(),
                vm@.outputs == Seq::<u16>::empty(),
                forall|j: int| 0 <= j < i ==> vm.memory@[j] == words_of(image@)[j],
                forall|j: int| i <= j < MEMORY_SIZE ==> vm.memory@[j] == 0,
            decreases n - i,
        {
            vm.memory[i] = word_at(image, i);
            i += 1;
        }
        assert(vm@.memory =~= Machine::loaded(words_of(image@)).memory);
        vm
    }
}

} // verus!
