//! The instruction set: opcodes, operand shapes and the word encoding.

use crate::wire::{bytes_of, lemma_bytes_of_concat, push_word};
use vstd::prelude::*;
use vstd::std_specs::convert::FromSpecImpl;

verus! {

/// The number of machine registers.
pub const REGISTER_COUNT: u16 = 8;

/// The first operand word that names a register.
pub const REGISTER_BASE: u16 = 0x8000;

/// The opcode word of the diagnostic `dmp` instruction.
pub const DMP_OPCODE: u16 = 0xff;

/// An operand as the contracts see it.
pub enum Operand {
    Literal(u16),
    Register(u16),
    Label(Seq<char>),
}

/// What an operand slot of an opcode accepts: a register only, or any parameter.
pub enum Slot {
    Reg,
    Param,
}

/// An instruction as the contracts see it: the opcode word and its operands in order.
pub struct Instr {
    pub opcode: u16,
    pub operands: Seq<Operand>,
}

/// The opcode words of the instruction set: 0 to 21, and `dmp`.
pub open spec fn is_opcode(idx: u16) -> bool {
    idx <= 21 || idx == DMP_OPCODE
}

/// The operand slots of each opcode, in encoding order.
pub open spec fn shape(idx: u16) -> Seq<Slot> {
    if idx == 1 || idx == 14 || idx == 15 {
        seq![Slot::Reg, Slot::Param]
    } else if idx == 2 || idx == 6 || idx == 17 || idx == 19 {
        seq![Slot::Param]
    } else if idx == 3 || idx == 20 {
        seq![Slot::Reg]
    } else if idx == 4 || idx == 5 || (9 <= idx && idx <= 13) {
        seq![Slot::Reg, Slot::Param, Slot::Param]
    } else if idx == 7 || idx == 8 || idx == 16 {
        seq![Slot::Param, Slot::Param]
    } else {
        Seq::empty()
    }
}

/// The number of words that an instruction with opcode `idx` occupies.
pub open spec fn encoded_len(idx: u16) -> nat {
    1 + shape(idx).len()
}

/// The register index that the operand word `w` names: the distance of `w`
/// from `REGISTER_BASE`, taken modulo two to the sixteenth, so that every
/// word names exactly one index and only 0x8000 to 0x8007 name a register
/// that exists.
pub open spec fn register_index(w: u16) -> u16 {
    if w >= REGISTER_BASE {
        (w - REGISTER_BASE) as u16
    } else {
        (w + REGISTER_BASE) as u16
    }
}

/// The operand word of the register with index `r`.
pub open spec fn register_word(r: u16) -> u16 {
    if r >= REGISTER_BASE {
        (r - REGISTER_BASE) as u16
    } else {
        (r + REGISTER_BASE) as u16
    }
}

/// How a parameter slot reads the word `w`: a literal up to 0x7FFF, a
/// register reference above.
pub open spec fn parameter_of(w: u16) -> Operand {
    if w < REGISTER_BASE {
        Operand::Literal(w)
    } else {
        Operand::Register(register_index(w))
    }
}

/// How a slot of kind `slot` reads the word `w`.
pub open spec fn operand_of(slot: Slot, w: u16) -> Operand {
    match slot {
        Slot::Reg => Operand::Register(register_index(w)),
        Slot::Param => parameter_of(w),
    }
}

/// The word that encodes an operand. A label has no encoding.
pub open spec fn operand_word(o: Operand) -> u16
    recommends
        !(o is Label),
{
    match o {
        Operand::Literal(x) => x,
        Operand::Register(r) => register_word(r),
        Operand::Label(_) => 0,
    }
}

impl Instr {
    /// The opcode is known, and each slot holds what its kind accepts.
    pub open spec fn well_formed(self) -> bool {
        &&& is_opcode(self.opcode)
        &&& self.operands.len() == shape(self.opcode).len()
        &&& forall|i: int|
            0 <= i < self.operands.len() && shape(self.opcode)[i] is Reg
                ==> #[trigger] self.operands[i] is Register
    }

    /// No operand is a label.
    pub open spec fn resolved(self) -> bool {
        forall|i: int| 0 <= i < self.operands.len() ==> !(#[trigger] self.operands[i] is Label)
    }

    /// The words of the encoded instruction: the opcode, then each operand.
    pub open spec fn words(self) -> Seq<u16> {
        seq![self.opcode] + Seq::new(self.operands.len(), |i: int| operand_word(self.operands[i]))
    }
}

/// Decodes the instruction at the front of `w`: the first word is the
/// opcode, the following words fill its slots. `None` where the first word
/// is no opcode.
pub open spec fn decode(w: Seq<u16>) -> Option<Instr>
    recommends
        w.len() >= 4,
{
    if is_opcode(w[0]) {
        Some(
            Instr {
                opcode: w[0],
                operands: Seq::new(
                    shape(w[0]).len(),
                    |i: int| operand_of(shape(w[0])[i], w[i + 1]),
                ),
            },
        )
    } else {
        None
    }
}

/// Each operand word is the encoding of what its slot reads from it.
pub proof fn lemma_operand_roundtrip(slot: Slot, w: u16)
    ensures
        operand_word(operand_of(slot, w)) == w,
        !(operand_of(slot, w) is Label),
        slot is Reg ==> operand_of(slot, w) is Register,
{
}

/// Encoding a decoded instruction gives back the words it was decoded
/// from: as many words from the front of `w` as the instruction is long.
pub proof fn lemma_decode_roundtrip(w: Seq<u16>)
    requires
        w.len() >= 4,
        decode(w) is Some,
    ensures
        decode(w)->0.well_formed(),
        decode(w)->0.resolved(),
        decode(w)->0.words() == w.take(encoded_len(w[0]) as int),
{
    let instr = decode(w)->0;
    assert forall|i: int| 0 <= i < instr.operands.len() implies operand_word(
        #[trigger] instr.operands[i],
    ) == w[i + 1] && !(instr.operands[i] is Label) && (shape(w[0])[i] is Reg
        ==> instr.operands[i] is Register) by {
        lemma_operand_roundtrip(shape(w[0])[i], w[i + 1]);
    }
    assert(instr.words() =~= w.take(encoded_len(w[0]) as int));
}

/// A reference to a register by index. Indices 0 to 7 name the machine's
/// registers; any other index is kept as it is and faults when the machine
/// uses it.
#[derive(Debug, Clone, Copy, PartialEq, Eq)]
pub struct Register(pub u16);

impl Register {
    /// The operand word of this register reference.
    pub fn to_word(&self) -> (w: u16)
        ensures
            w == register_word(self.0),
    {
        self.0.wrapping_add(REGISTER_BASE)
    }
}

impl From<u16> for Register {
    /// The register reference that the operand word `p` names.
    fn from(p: u16) -> (r: Register) {
        Register(p.wrapping_sub(REGISTER_BASE))
    }
}

impl FromSpecImpl<u16> for Register {
    open spec fn obeys_from_spec() -> bool {
        true
    }

    open spec fn from_spec(p: u16) -> Register {
        Register(register_index(p))
    }
}

/// An operand of an instruction.
#[derive(Debug, Clone, PartialEq, Eq)]
pub enum Parameter {
    Literal(u16),
    Register(Register),
    Label(String),
}

impl View for Parameter {
    type V = Operand;

    open spec fn view(&self) -> Operand {
        match *self {
            Parameter::Literal(x) => Operand::Literal(x),
            Parameter::Register(r) => Operand::Register(r.0),
            Parameter::Label(s) => Operand::Label(s@),
        }
    }
}

impl Parameter {
    /// The operand word of this parameter. A label has none: resolve it first.
    pub fn to_word(&self) -> (w: u16)
        requires
            !(self@ is Label),
        ensures
            w == operand_word(self@),
    {
        match self {
            Parameter::Literal(x) => *x,
            Parameter::Register(r) => r.to_word(),
            Parameter::Label(_) => 0,
        }
    }

    /// A parameter equal to this one.
    pub fn duplicate(&self) -> (p: Parameter)
        ensures
            p@ == self@,
    {
        match self {
            Parameter::Literal(x) => Parameter::Literal(*x),
            Parameter::Register(r) => Parameter::Register(*r),
            Parameter::Label(s) => Parameter::Label(s.clone()),
        }
    }
}

impl From<u16> for Parameter {
    /// The parameter that the operand word `p` stands for.
    fn from(p: u16) -> (r: Parameter) {
        if p <= 32767 {
            Parameter::Literal(p)
        } else {
            Parameter::Register(Register::from(p))
        }
    }
}

impl FromSpecImpl<u16> for Parameter {
    open spec fn obeys_from_spec() -> bool {
        true
    }

    open spec fn from_spec(p: u16) -> Parameter {
        if p < REGISTER_BASE {
            Parameter::Literal(p)
        } else {
            Parameter::Register(Register(register_index(p)))
        }
    }
}

/// One instruction of the machine. Each variant is named after its
/// mnemonic, but for `SetReg`, whose mnemonic is `set`.
#[derive(Debug, PartialEq, Eq)]
pub enum Instruction {
    /// `halt`: stops the run.
    Halt,
    /// `set a b`: stores the value of `b` in register `a`.
    SetReg(Register, Parameter),
    /// `push a`: pushes the value of `a`.
    Push(Parameter),
    /// `pop a`: pops the top of the stack into register `a`.
    Pop(Register),
    /// `eq a b c`: stores 1 in `a` where `b` equals `c`, else 0.
    Eq(Register, Parameter, Parameter),
    /// `gt a b c`: stores 1 in `a` where `b` is greater than `c`, else 0.
    Gt(Register, Parameter, Parameter),
    /// `jmp a`: jumps to `a`.
    Jmp(Parameter),
    /// `jt a b`: jumps to `b` where `a` is not 0.
    Jt(Parameter, Parameter),
    /// `jf a b`: jumps to `b` where `a` is 0.
    Jf(Parameter, Parameter),
    /// `add a b c`: stores the sum of `b` and `c`, modulo 32768, in `a`.
    Add(Register, Parameter, Parameter),
    /// `mult a b c`: stores the product of `b` and `c`, modulo 32768, in `a`.
    Mult(Register, Parameter, Parameter),
    /// `mod a b c`: stores the remainder of `b` divided by `c` in `a`.
    Mod(Register, Parameter, Parameter),
    /// `and a b c`: stores the bitwise and of `b` and `c` in `a`.
    And(Register, Parameter, Parameter),
    /// `or a b c`: stores the bitwise or of `b` and `c` in `a`.
    Or(Register, Parameter, Parameter),
    /// `not a b`: stores the bitwise complement of `b`, on 15 bits, in `a`.
    Not(Register, Parameter),
    /// `rmem a b`: stores the word at address `b` in `a`.
    Rmem(Register, Parameter),
    /// `wmem a b`: stores the value of `b` at address `a`.
    Wmem(Parameter, Parameter),
    /// `call a`: pushes the address of the next instruction and jumps to `a`.
    Call(Parameter),
    /// `ret`: pops an address and jumps to it.
    Ret,
    /// `out a`: writes the value of `a`.
    Out(Parameter),
    /// `in a`: reads a word into register `a`.
    In(Register),
    /// `noop`: does nothing.
    Noop,
    /// `dmp`: shows the state of the machine for diagnosis.
    Dmp,
}

/// The model of an instruction without operands.
pub open spec fn instr0(opcode: u16) -> Instr {
    Instr { opcode, operands: Seq::empty() }
}

/// The model of an instruction with one parameter.
pub open spec fn instr_p(opcode: u16, a: Operand) -> Instr {
    Instr { opcode, operands: seq![a] }
}

/// The model of an instruction with one register.
pub open spec fn instr_r(opcode: u16, a: u16) -> Instr {
    Instr { opcode, operands: seq![Operand::Register(a)] }
}

/// The model of an instruction with a register and a parameter.
pub open spec fn instr_rp(opcode: u16, a: u16, b: Operand) -> Instr {
    Instr { opcode, operands: seq![Operand::Register(a), b] }
}

/// The model of an instruction with two parameters.
pub open spec fn instr_pp(opcode: u16, a: Operand, b: Operand) -> Instr {
    Instr { opcode, operands: seq![a, b] }
}

/// The model of an instruction with a register and two parameters.
pub open spec fn instr_rpp(opcode: u16, a: u16, b: Operand, c: Operand) -> Instr {
    Instr { opcode, operands: seq![Operand::Register(a), b, c] }
}

impl View for Instruction {
    type V = Instr;

    open spec fn view(&self) -> Instr {
        match *self {
            Instruction::Halt => instr0(0),
            Instruction::SetReg(a, b) => instr_rp(1, a.0, b@),
            Instruction::Push(a) => instr_p(2, a@),
            Instruction::Pop(a) => instr_r(3, a.0),
            Instruction::Eq(a, b, c) => instr_rpp(4, a.0, b@, c@),
            Instruction::Gt(a, b, c) => instr_rpp(5, a.0, b@, c@),
            Instruction::Jmp(a) => instr_p(6, a@),
            Instruction::Jt(a, b) => instr_pp(7, a@, b@),
            Instruction::Jf(a, b) => instr_pp(8, a@, b@),
            Instruction::Add(a, b, c) => instr_rpp(9, a.0, b@, c@),
            Instruction::Mult(a, b, c) => instr_rpp(10, a.0, b@, c@),
            Instruction::Mod(a, b, c) => instr_rpp(11, a.0, b@, c@),
            Instruction::And(a, b, c) => instr_rpp(12, a.0, b@, c@),
            Instruction::Or(a, b, c) => instr_rpp(13, a.0, b@, c@),
            Instruction::Not(a, b) => instr_rp(14, a.0, b@),
            Instruction::Rmem(a, b) => instr_rp(15, a.0, b@),
            Instruction::Wmem(a, b) => instr_pp(16, a@, b@),
            Instruction::Call(a) => instr_p(17, a@),
            Instruction::Ret => instr0(18),
            Instruction::Out(a) => instr_p(19, a@),
            Instruction::In(a) => instr_r(20, a.0),
            Instruction::Noop => instr0(21),
            Instruction::Dmp => instr0(DMP_OPCODE),
        }
    }
}

impl Instruction {
    /// The number of words that an instruction with opcode `idx` occupies.
    pub fn len_by_idx(idx: u16) -> (n: u16)
        requires
            is_opcode(idx),
        ensures
            n == encoded_len(idx),
    {
        match idx {
            0 => 1,
            1 => 3,
            2 => 2,
            3 => 2,
            4 => 4,
            5 => 4,
            6 => 2,
            7 => 3,
            8 => 3,
            9 => 4,
            10 => 4,
            11 => 4,
            12 => 4,
            13 => 4,
            14 => 3,
            15 => 3,
            16 => 3,
            17 => 2,
            18 => 1,
            19 => 2,
            20 => 2,
            _ => 1,
        }
    }

    /// The number of words that this instruction occupies.
    pub fn len(&self) -> (n: u16)
        ensures
            n == encoded_len(self@.opcode),
            n == self@.words().len(),
            1 <= n <= 4,
    {
        proof {
            self.lemma_view_well_formed();
        }
        Instruction::len_by_idx(self.idx())
    }

    /// The opcode word of this instruction.
    pub fn idx(&self) -> (i: u16)
        ensures
            i == self@.opcode,
    {
        match self {
            Instruction::Halt => 0,
            Instruction::SetReg(_, _) => 1,
            Instruction::Push(_) => 2,
            Instruction::Pop(_) => 3,
            Instruction::Eq(_, _, _) => 4,
            Instruction::Gt(_, _, _) => 5,
            Instruction::Jmp(_) => 6,
            Instruction::Jt(_, _) => 7,
            Instruction::Jf(_, _) => 8,
            Instruction::Add(_, _, _) => 9,
            Instruction::Mult(_, _, _) => 10,
            Instruction::Mod(_, _, _) => 11,
            Instruction::And(_, _, _) => 12,
            Instruction::Or(_, _, _) => 13,
            Instruction::Not(_, _) => 14,
            Instruction::Rmem(_, _) => 15,
            Instruction::Wmem(_, _) => 16,
            Instruction::Call(_) => 17,
            Instruction::Ret => 18,
            Instruction::Out(_) => 19,
            Instruction::In(_) => 20,
            Instruction::Noop => 21,
            Instruction::Dmp => 0xff,
        }
    }

    /// The model of every instruction has a known opcode and the operands
    /// that the opcode's shape asks for.
    pub proof fn lemma_view_well_formed(&self)
        ensures
            self@.well_formed(),
    {
    }

    /// Appends the encoded instruction to `out`: its opcode word, then one
    /// word for each operand, each word as two bytes.
    pub fn write(&self, out: &mut Vec<u8>)
        requires
            self@.resolved(),
        ensures
            final(out)@ == old(out)@ + bytes_of(self@.words()),
    {
        let mut buf = [0u16;4];
        buf[0] = self.idx();
        match self {
            Instruction::SetReg(a, b) => {
                assert(self@.operands[1] == b@);
                buf[1] = a.to_word();
                buf[2] = b.to_word();
            },
            Instruction::Push(a) => {
                assert(self@.operands[0] == a@);
                buf[1] = a.to_word();
            },
            Instruction::Pop(a) => {
                buf[1] = a.to_word();
            },
            Instruction::Eq(a, b, c) => {
                assert(self@.operands[1] == b@ && self@.operands[2] == c@);
                buf[1] = a.to_word();
                buf[2] = b.to_word();
                buf[3] = c.to_word();
            },
            Instruction::Gt(a, b, c) => {
                assert(self@.operands[1] == b@ && self@.operands[2] == c@);
                buf[1] = a.to_word();
                buf[2] = b.to_word();
                buf[3] = c.to_word();
            },
            Instruction::Jmp(a) => {
                assert(self@.operands[0] == a@);
                buf[1] = a.to_word();
            },
            Instruction::Jt(a, b) => {
                assert(self@.operands[0] == a@ && self@.operands[1] == b@);
                buf[1] = a.to_word();
                buf[2] = b.to_word();
            },
            Instruction::Jf(a, b) => {
                assert(self@.operands[0] == a@ && self@.operands[1] == b@);
                buf[1] = a.to_word();
                buf[2] = b.to_word();
            },
            Instruction::Add(a, b, c) => {
                assert(self@.operands[1] == b@ && self@.operands[2] == c@);
                buf[1] = a.to_word();
                buf[2] = b.to_word();
                buf[3] = c.to_word();
            },
            Instruction::Mult(a, b, c) => {
                assert(self@.operands[1] == b@ && self@.operands[2] == c@);
                buf[1] = a.to_word();
                buf[2] = b.to_word();
                buf[3] = c.to_word();
            },
            Instruction::Mod(a, b, c) => {
                assert(self@.operands[1] == b@ && self@.operands[2] == c@);
                buf[1] = a.to_word();
                buf[2] = b.to_word();
                buf[3] = c.to_word();
            },
            Instruction::And(a, b, c) => {
                assert(self@.operands[1] == b@ && self@.operands[2] == c@);
                buf[1] = a.to_word();
                buf[2] = b.to_word();
                buf[3] = c.to_word();
            },
            Instruction::Or(a, b, c) => {
                assert(self@.operands[1] == b@ && self@.operands[2] == c@);
                buf[1] = a.to_word();
                buf[2] = b.to_word();
                buf[3] = c.to_word();
            },
            Instruction::Not(a, b) => {
                assert(self@.operands[1] == b@);
                buf[1] = a.to_word();
                buf[2] = b.to_word();
            },
            Instruction::Rmem(a, b) => {
                assert(self@.operands[1] == b@);
                buf[1] = a.to_word();
                buf[2] = b.to_word();
            },
            Instruction::Wmem(a, b) => {
                assert(self@.operands[0] == a@ && self@.operands[1] == b@);
                buf[1] = a.to_word();
                buf[2] = b.to_word();
            },
            Instruction::Call(a) => {
                assert(self@.operands[0] == a@);
                buf[1] = a.to_word();
            },
            Instruction::Out(a) => {
                assert(self@.operands[0] == a@);
                buf[1] = a.to_word();
            },
            Instruction::In(a) => {
                buf[1] = a.to_word();
            },
            _ => {},
        }
        let n = self.len() as usize;
        assert(buf@.take(n as int) =~= self@.words());
        let mut i: usize = 0;
        while i < n
            invariant
                i <= n <= 4,
                out@ == old(out)@ + bytes_of(buf@.take(i as int)),
            decreases n - i,
        {
            push_word(out, buf[i]);
            proof {
                lemma_bytes_of_concat(buf@.take(i as int), seq![buf@[i as int]]);
                assert(buf@.take(i as int + 1) =~= buf@.take(i as int) + seq![buf@[i as int]]);
            }
            i += 1;
        }
    }
}

} // verus!
