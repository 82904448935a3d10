//! The assembler: from program elements to the binary image, by way of the
//! label table.

use crate::instruction::{encoded_len, Instr, Instruction, Operand, Parameter};
use crate::parser::{column_of, line_of, parse, parse_text};
use crate::wire::{bytes_of, lemma_bytes_of_concat, push_word};
use vstd::prelude::*;

verus! {

/// One unit of an assembly program.
#[derive(Debug, PartialEq, Eq)]
pub enum ProgramElement {
    /// The definition of a label: it names the address of what follows.
    Label(String),
    Instruction(Instruction),
    /// Words that go into the image as they are.
    Data(Vec<u16>),
}

/// A program element as the contracts see it.
pub enum Element {
    Label(Seq<char>),
    Instruction(Instr),
    Data(Seq<u16>),
}

impl View for ProgramElement {
    type V = Element;

    open spec fn view(&self) -> Element {
        match *self {
            ProgramElement::Label(s) => Element::Label(s@),
            ProgramElement::Instruction(i) => Element::Instruction(i@),
            ProgramElement::Data(d) => Element::Data(d@),
        }
    }
}

/// A label table as the contracts see it: from names to addresses.
pub type Labels = Map<Seq<char>, u16>;

impl Element {
    /// The number of words that the element takes in the image.
    pub open spec fn size(self) -> nat {
        match self {
            Element::Label(_) => 0,
            Element::Instruction(i) => encoded_len(i.opcode),
            Element::Data(d) => d.len(),
        }
    }

    /// The words of the element in the image.
    pub open spec fn words(self) -> Seq<u16> {
        match self {
            Element::Label(_) => Seq::empty(),
            Element::Instruction(i) => i.words(),
            Element::Data(d) => d,
        }
    }

    /// The element holds no reference to a label.
    pub open spec fn resolved(self) -> bool {
        self matches Element::Instruction(i) ==> i.resolved()
    }

    /// The element holds no reference to a label that `labels` lacks.
    pub open spec fn resolvable(self, labels: Labels) -> bool {
        self matches Element::Instruction(i) ==> first_unknown(i, labels) is None
    }

    /// The element with each reference to a label replaced by the label's address.
    pub open spec fn resolve(self, labels: Labels) -> Element {
        match self {
            Element::Instruction(i) => Element::Instruction(resolve(i, labels)),
            _ => self,
        }
    }
}

/// The operand is a reference to a label that `labels` lacks.
pub open spec fn unknown(o: Operand, labels: Labels) -> bool {
    o matches Operand::Label(name) && !labels.contains_key(name)
}

/// The operand, or the address of the label it refers to.
pub open spec fn resolve_operand(o: Operand, labels: Labels) -> Operand {
    match o {
        Operand::Label(name) => Operand::Literal(labels[name]),
        _ => o,
    }
}

/// The name of the first operand of `i`, in encoding order, that refers to
/// a label that `labels` lacks.
pub open spec fn first_unknown(i: Instr, labels: Labels) -> Option<Seq<char>> {
    if i.operands.len() > 0 && unknown(i.operands[0], labels) {
        Some(i.operands[0]->Label_0)
    } else if i.operands.len() > 1 && unknown(i.operands[1], labels) {
        Some(i.operands[1]->Label_0)
    } else if i.operands.len() > 2 && unknown(i.operands[2], labels) {
        Some(i.operands[2]->Label_0)
    } else {
        None
    }
}

/// The instruction with each reference to a label replaced by the label's address.
pub open spec fn resolve(i: Instr, labels: Labels) -> Instr {
    Instr {
        opcode: i.opcode,
        operands: Seq::new(i.operands.len(), |k: int| resolve_operand(i.operands[k], labels)),
    }
}

/// The elements of a program as the contracts see them.
pub open spec fn program(elems: Seq<ProgramElement>) -> Seq<Element> {
    Seq::new(elems.len(), |i: int| elems[i]@)
}

/// The number of words that the first `n` elements take in the image.
pub open spec fn offset(prog: Seq<Element>, n: int) -> nat
    decreases n,
{
    if n <= 0 {
        0
    } else {
        offset(prog, n - 1) + prog[n - 1].size()
    }
}

/// The address that a label defined after `n` words gets: addresses are
/// words, so the count is taken modulo two to the sixteenth.
pub open spec fn address(n: nat) -> u16 {
    (n % 0x10000) as u16
}

/// The label table of the first `n` elements: each label with the address
/// of the words that follow its definition. Of two definitions of one name
/// the later one stands.
pub open spec fn labels_of(prog: Seq<Element>, n: int) -> Labels
    decreases n,
{
    if n <= 0 {
        Map::empty()
    } else {
        match prog[n - 1] {
            Element::Label(name) => labels_of(prog, n - 1).insert(
                name,
                address(offset(prog, n - 1)),
            ),
            _ => labels_of(prog, n - 1),
        }
    }
}

/// The index of the first element from `from` on that refers to a label
/// that `labels` lacks; the number of elements where there is none.
pub open spec fn first_unresolvable(prog: Seq<Element>, labels: Labels, from: int) -> int
    decreases prog.len() - from,
{
    if from < 0 || from >= prog.len() {
        prog.len() as int
    } else if !prog[from].resolvable(labels) {
        from
    } else {
        first_unresolvable(prog, labels, from + 1)
    }
}

/// The program with the elements before index `upto` resolved and the
/// others as they are.
pub open spec fn resolve_program(prog: Seq<Element>, labels: Labels, upto: int) -> Seq<Element> {
    Seq::new(
        prog.len(),
        |i: int|
            if i < upto {
                prog[i].resolve(labels)
            } else {
                prog[i]
            },
    )
}

/// The words of the first `n` elements, in order.
pub open spec fn image_words(prog: Seq<Element>, n: int) -> Seq<u16>
    decreases n,
{
    if n <= 0 {
        Seq::empty()
    } else {
        image_words(prog, n - 1) + prog[n - 1].words()
    }
}

/// A label defined at index `i` and not again after it has, in the table
/// of the whole program, the address of the words that follow it: the
/// number of words of the elements before it, as a word.
pub proof fn lemma_label_address(prog: Seq<Element>, i: int, n: int)
    requires
        0 <= i < n <= prog.len(),
        prog[i] is Label,
        forall|j: int| i < j < n ==> prog[j] != prog[i],
    ensures
        labels_of(prog, n).contains_key(prog[i]->Label_0),
        labels_of(prog, n)[prog[i]->Label_0] == address(offset(prog, i)),
    decreases n,
{
    if n > i + 1 {
        lemma_label_address(prog, i, n - 1);
        assert(prog[n - 1] != prog[i]);
    }
}

/// The first `i` elements take no more words than the first `n`, where `i`
/// is at most `n`.
pub proof fn lemma_offset_monotonic(prog: Seq<Element>, i: int, n: int)
    requires
        0 <= i <= n,
    ensures
        offset(prog, i) <= offset(prog, n),
    decreases n,
{
    if i < n {
        lemma_offset_monotonic(prog, i, n - 1);
    }
}

/// For a program whose labels are each defined once and whose words an
/// address can count, the table gives each label the number of words of
/// the elements before its definition.
pub proof fn lemma_labels_are_offsets(prog: Seq<Element>, i: int)
    requires
        0 <= i < prog.len(),
        prog[i] is Label,
        forall|j: int| 0 <= j < prog.len() && j != i ==> prog[j] != prog[i],
        offset(prog, prog.len() as int) < 0x10000,
    ensures
        labels_of(prog, prog.len() as int).contains_key(prog[i]->Label_0),
        labels_of(prog, prog.len() as int)[prog[i]->Label_0] == offset(prog, i),
{
    lemma_label_address(prog, i, prog.len() as int);
    lemma_offset_monotonic(prog, i, prog.len() as int);
}

/// A resolved instruction holds no label.
pub proof fn lemma_resolve_resolved(i: Instr, labels: Labels)
    ensures
        resolve(i, labels).resolved(),
        resolve(i, labels).opcode == i.opcode,
        resolve(i, labels).operands.len() == i.operands.len(),
{
}

impl ProgramElement {
    /// The number of words that the element takes in the image, as a word.
    pub fn size(&self) -> (n: u16)
        ensures
            n == address(self@.size()),
    {
        match self {
            ProgramElement::Label(_) => 0,
            ProgramElement::Instruction(instr) => instr.len(),
            ProgramElement::Data(v) => (v.len() % 0x10000) as u16,
        }
    }
}

/// The label table: the names defined in a program, each with its address.
pub struct LabelTable {
    entries: Vec<(String, u16)>,
}

/// The table that the first `n` of `entries` make, each entry standing
/// over the earlier ones of its name.
spec fn entries_map(entries: Seq<(String, u16)>, n: int) -> Labels
    decreases n,
{
    if n <= 0 {
        Map::empty()
    } else {
        entries_map(entries, n - 1).insert(entries[n - 1].0@, entries[n - 1].1)
    }
}

impl View for LabelTable {
    type V = Labels;

    closed spec fn view(&self) -> Labels {
        entries_map(self.entries@, self.entries@.len() as int)
    }
}

impl LabelTable {
    /// The empty table.
    pub fn new() -> (t: Self)
        ensures
            t@ == Labels::empty(),
    {
        LabelTable { entries: Vec::new() }
    }

    /// Gives `name` the address `addr`, whatever it had before.
    pub fn insert(&mut self, name: String, addr: u16)
        ensures
            final(self)@ == old(self)@.insert(name@, addr),
    {
        let ghost before = self.entries@;
        self.entries.push((name, addr));
        proof {
            Self::lemma_entries_prefix(before, self.entries@, before.len() as int);
        }
    }

    /// The address of `name`, if the table has it.
    pub fn get(&self, name: &String) -> (r: Option<u16>)
        ensures
            r == if self@.contains_key(name@) {
                Some(self@[name@])
            } else {
                None
            },
    {
        let mut i = self.entries.len();
        while i > 0
            invariant
                i <= self.entries@.len(),
                self@.contains_key(name@) == entries_map(self.entries@, i as int).contains_key(
                    name@,
                ),
                self@.contains_key(name@) ==> self@[name@] == entries_map(
                    self.entries@,
                    i as int,
                )[name@],
            decreases i,
        {
            i -= 1;
            if self.entries[i].0 == *name {
                return Some(self.entries[i].1);
            }
        }
        None
    }

    /// The table of the first `n` entries does not depend on later entries.
    proof fn lemma_entries_prefix(a: Seq<(String, u16)>, b: Seq<(String, u16)>, n: int)
        requires
            n <= a.len() <= b.len(),
            forall|i: int| 0 <= i < a.len() ==> a[i] == b[i],
        ensures
            entries_map(a, n) == entries_map(b, n),
        decreases n,
    {
        if n > 0 {
            Self::lemma_entries_prefix(a, b, n - 1);
        }
    }
}

/// Walks the program once and notes, for each label, the address of the
/// words that follow its definition.
pub fn locate_labels(elems: &Vec<ProgramElement>) -> (labels: LabelTable)
    ensures
        labels@ == labels_of(program(elems@), elems@.len() as int),
{
    let mut acc = 0u16;
    let mut map = LabelTable::new();
    let ghost prog = program(elems@);
    let mut i: usize = 0;
    while i < elems.len()
        invariant
            i <= elems@.len(),
            prog == program(elems@),
            acc == address(offset(prog, i as int)),
            map@ == labels_of(prog, i as int),
        decreases elems@.len() - i,
    {
        let elem = &elems[i];
        if let ProgramElement::Label(s) = elem {
            map.insert(s.clone(), acc);
        }
        acc = acc.wrapping_add(elem.size());
        i += 1;
    }
    map
}

/// The parameter itself, or the address of the label it refers to; the
/// label's name where the table lacks it.
pub fn reify_label(param: &Parameter, labels: &LabelTable) -> (r: Result<Parameter, String>)
    ensures
        match r {
            Ok(p) => !unknown(param@, labels@) && p@ == resolve_operand(param@, labels@),
            Err(name) => unknown(param@, labels@) && name@ == param@->Label_0,
        },
{
    match param {
        Parameter::Label(s) => match labels.get(s) {
            Some(adr) => Ok(Parameter::Literal(adr)),
            None => Err(s.clone()),
        },
        _ => Ok(param.duplicate()),
    }
}

/// The instruction with each reference to a label replaced by the label's
/// address; the name of the first label that the table lacks.
pub fn reify_instruction(i: &Instruction, labels: &LabelTable) -> (r: Result<Instruction, String>)
    ensures
        match r {
            Ok(resolved) => first_unknown(i@, labels@) is None && resolved@ == resolve(
                i@,
                labels@,
            ),
            Err(name) => first_unknown(i@, labels@) == Some(name@),
        },
{
    match i {
        Instruction::SetReg(a, b) => {
            assert(i@.operands =~= seq![Operand::Register(a.0), b@]);
            let b = reify_label(b, labels)?;
            let r = Instruction::SetReg(*a, b);
            assert(r@.operands =~= resolve(i@, labels@).operands);
            Ok(r)
        },
        Instruction::Push(a) => {
            assert(i@.operands =~= seq![a@]);
            let a = reify_label(a, labels)?;
            let r = Instruction::Push(a);
            assert(r@.operands =~= resolve(i@, labels@).operands);
            Ok(r)
        },
        Instruction::Pop(a) => {
            assert(i@.operands =~= seq![Operand::Register(a.0)]);
            let r = Instruction::Pop(*a);
            assert(r@.operands =~= resolve(i@, labels@).operands);
            Ok(r)
        },
        Instruction::Eq(a, b, c) => {
            assert(i@.operands =~= seq![Operand::Register(a.0), b@, c@]);
            let b = reify_label(b, labels)?;
            let c = reify_label(c, labels)?;
            let r = Instruction::Eq(*a, b, c);
            assert(r@.operands =~= resolve(i@, labels@).operands);
            Ok(r)
        },
        Instruction::Gt(a, b, c) => {
            assert(i@.operands =~= seq![Operand::Register(a.0), b@, c@]);
            let b = reify_label(b, labels)?;
            let c = reify_label(c, labels)?;
            let r = Instruction::Gt(*a, b, c);
            assert(r@.operands =~= resolve(i@, labels@).operands);
            Ok(r)
        },
        Instruction::Jmp(a) => {
            assert(i@.operands =~= seq![a@]);
            let a = reify_label(a, labels)?;
            let r = Instruction::Jmp(a);
            assert(r@.operands =~= resolve(i@, labels@).operands);
            Ok(r)
        },
        Instruction::Jt(a, b) => {
            assert(i@.operands =~= seq![a@, b@]);
            let a = reify_label(a, labels)?;
            let b = reify_label(b, labels)?;
            let r = Instruction::Jt(a, b);
            assert(r@.operands =~= resolve(i@, labels@).operands);
            Ok(r)
        },
        Instruction::Jf(a, b) => {
            assert(i@.operands =~= seq![a@, b@]);
            let a = reify_label(a, labels)?;
            let b = reify_label(b, labels)?;
            let r = Instruction::Jf(a, b);
            assert(r@.operands =~= resolve(i@, labels@).operands);
            Ok(r)
        },
        Instruction::Add(a, b, c) => {
            assert(i@.operands =~= seq![Operand::Register(a.0), b@, c@]);
            let b = reify_label(b, labels)?;
            let c = reify_label(c, labels)?;
            let r = Instruction::Add(*a, b, c);
            assert(r@.operands =~= resolve(i@, labels@).operands);
            Ok(r)
        },
        Instruction::Mult(a, b, c) => {
            assert(i@.operands =~= seq![Operand::Register(a.0), b@, c@]);
            let b = reify_label(b, labels)?;
            let c = reify_label(c, labels)?;
            let r = Instruction::Mult(*a, b, c);
            assert(r@.operands =~= resolve(i@, labels@).operands);
            Ok(r)
        },
        Instruction::Mod(a, b, c) => {
            assert(i@.operands =~= seq![Operand::Register(a.0), b@, c@]);
            let b = reify_label(b, labels)?;
            let c = reify_label(c, labels)?;
            let r = Instruction::Mod(*a, b, c);
            assert(r@.operands =~= resolve(i@, labels@).operands);
            Ok(r)
        },
        Instruction::And(a, b, c) => {
            assert(i@.operands =~= seq![Operand::Register(a.0), b@, c@]);
            let b = reify_label(b, labels)?;
            let c = reify_label(c, labels)?;
            let r = Instruction::And(*a, b, c);
            assert(r@.operands =~= resolve(i@, labels@).operands);
            Ok(r)
        },
        Instruction::Or(a, b, c) => {
            assert(i@.operands =~= seq![Operand::Register(a.0), b@, c@]);
            let b = reify_label(b, labels)?;
            let c = reify_label(c, labels)?;
            let r = Instruction::Or(*a, b, c);
            assert(r@.operands =~= resolve(i@, labels@).operands);
            Ok(r)
        },
        Instruction::Not(a, b) => {
            assert(i@.operands =~= seq![Operand::Register(a.0), b@]);
            let b = reify_label(b, labels)?;
            let r = Instruction::Not(*a, b);
            assert(r@.operands =~= resolve(i@, labels@).operands);
            Ok(r)
        },
        Instruction::Rmem(a, b) => {
            assert(i@.operands =~= seq![Operand::Register(a.0), b@]);
            let b = reify_label(b, labels)?;
            let r = Instruction::Rmem(*a, b);
            assert(r@.operands =~= resolve(i@, labels@).operands);
            Ok(r)
        },
        Instruction::Wmem(a, b) => {
            assert(i@.operands =~= seq![a@, b@]);
            let a = reify_label(a, labels)?;
            let b = reify_label(b, labels)?;
            let r = Instruction::Wmem(a, b);
            assert(r@.operands =~= resolve(i@, labels@).operands);
            Ok(r)
        },
        Instruction::Call(a) => {
            assert(i@.operands =~= seq![a@]);
            let a = reify_label(a, labels)?;
            let r = Instruction::Call(a);
            assert(r@.operands =~= resolve(i@, labels@).operands);
            Ok(r)
        },
        Instruction::Out(a) => {
            assert(i@.operands =~= seq![a@]);
            let a = reify_label(a, labels)?;
            let r = Instruction::Out(a);
            assert(r@.operands =~= resolve(i@, labels@).operands);
            Ok(r)
        },
        Instruction::In(a) => {
            assert(i@.operands =~= seq![Operand::Register(a.0)]);
            let r = Instruction::In(*a);
            assert(r@.operands =~= resolve(i@, labels@).operands);
            Ok(r)
        },
        Instruction::Halt => {
            assert(Instruction::Halt@.operands =~= resolve(i@, labels@).operands);
            Ok(Instruction::Halt)
        },
        Instruction::Ret => {
            assert(Instruction::Ret@.operands =~= resolve(i@, labels@).operands);
            Ok(Instruction::Ret)
        },
        Instruction::Noop => {
            assert(Instruction::Noop@.operands =~= resolve(i@, labels@).operands);
            Ok(Instruction::Noop)
        },
        Instruction::Dmp => {
            assert(Instruction::Dmp@.operands =~= resolve(i@, labels@).operands);
            Ok(Instruction::Dmp)
        },
    }
}

/// Replaces, element by element, each reference to a label by the label's
/// address. At the first reference to a label that the table lacks it
/// stops and returns the name: the elements before that one are resolved,
/// that one and those after it are as they were.
pub fn reify_labels(elems: &mut Vec<ProgramElement>, labels: &LabelTable) -> (r: Result<
    (),
    String,
>)
    ensures
        program(final(elems)@) == resolve_program(
            program(old(elems)@),
            labels@,
            first_unresolvable(program(old(elems)@), labels@, 0),
        ),
        match r {
            Ok(_) => first_unresolvable(program(old(elems)@), labels@, 0) == old(elems)@.len()
                && forall|i: int|
                0 <= i < final(elems)@.len() ==> (#[trigger] program(final(elems)@)[i]).resolved(),
            Err(name) => {
                let at = first_unresolvable(program(old(elems)@), labels@, 0);
                &&& 0 <= at < old(elems)@.len()
                &&& program(old(elems)@)[at] matches Element::Instruction(i)
                &&& first_unknown(i, labels@) == Some(name@)
            },
        },
{
    let ghost prog = program(elems@);
    let mut i: usize = 0;
    while i < elems.len()
        invariant
            i <= elems@.len(),
            elems@.len() == prog.len(),
            prog == program(old(elems)@),
            first_unresolvable(prog, labels@, 0) == first_unresolvable(prog, labels@, i as int),
            program(elems@) == resolve_program(prog, labels@, i as int),
        decreases elems@.len() - i,
    {
        let ghost before = elems@;
        assert(program(elems@)[i as int] == prog[i as int]);
        let next = match &elems[i] {
            ProgramElement::Instruction(instr) => match reify_instruction(instr, labels) {
                Ok(resolved) => Some(resolved),
                Err(name) => {
                    return Err(name);
                },
            },
            _ => None,
        };
        if let Some(resolved) = next {
            elems.set(i, ProgramElement::Instruction(resolved));
        }
        assert(program(elems@) =~= resolve_program(prog, labels@, i + 1)) by {
            assert forall|j: int| 0 <= j < prog.len() implies program(elems@)[j]
                == resolve_program(prog, labels@, i + 1)[j] by {
                if j != i {
                    assert(elems@[j] == before[j]);
                    assert(program(before)[j] == resolve_program(prog, labels@, i as int)[j]);
                }
            }
        }
        i += 1;
    }
    proof {
        assert forall|j: int| 0 <= j < elems@.len() implies (#[trigger] program(
            elems@,
        )[j]).resolved() by {
            assert(program(elems@)[j] == prog[j].resolve(labels@));
            if let Element::Instruction(instr) = prog[j] {
                lemma_resolve_resolved(instr, labels@);
            }
        }
    }
    Ok(())
}

/// Appends the image of the program to `out`: nothing for a label, the
/// encoding of each instruction, the words of each data element, every
/// word as two bytes with the less significant first.
pub fn write_program(out: &mut Vec<u8>, prg: &Vec<ProgramElement>)
    requires
        forall|i: int| 0 <= i < prg@.len() ==> (#[trigger] program(prg@)[i]).resolved(),
    ensures
        final(out)@ == old(out)@ + bytes_of(image_words(program(prg@), prg@.len() as int)),
{
    let ghost prog = program(prg@);
    let mut i: usize = 0;
    assert(out@ =~= old(out)@ + bytes_of(image_words(prog, 0)));
    while i < prg.len()
        invariant
            i <= prg@.len(),
            prog == program(prg@),
            forall|k: int| 0 <= k < prg@.len() ==> (#[trigger] prog[k]).resolved(),
            out@ == old(out)@ + bytes_of(image_words(prog, i as int)),
        decreases prg@.len() - i,
    {
        let ghost sofar = image_words(prog, i as int);
        assert(prog[i as int].resolved());
        proof {
            lemma_bytes_of_concat(sofar, prog[i as int].words());
        }
        match &prg[i] {
            ProgramElement::Instruction(instr) => {
                instr.write(out);
            },
            ProgramElement::Data(d) => {
                let ghost start = out@;
                let mut j: usize = 0;
                assert(out@ =~= start + bytes_of(d@.take(0)));
                while j < d.len()
                    invariant
                        j <= d@.len(),
                        out@ == start + bytes_of(d@.take(j as int)),
                    decreases d@.len() - j,
                {
                    push_word(out, d[j]);
                    proof {
                        lemma_bytes_of_concat(d@.take(j as int), seq![d@[j as int]]);
                        assert(d@.take(j + 1) =~= d@.take(j as int) + seq![d@[j as int]]);
                    }
                    j += 1;
                }
                assert(d@.take(d@.len() as int) =~= d@);
            },
            _ => {
                assert(bytes_of(Seq::<u16>::empty()) =~= Seq::<u8>::empty());
            },
        }
        assert(out@ =~= old(out)@ + bytes_of(image_words(prog, i + 1)));
        i += 1;
    }
}

/// Why a text could not be assembled.
#[derive(Debug)]
pub enum AssemblerError {
    /// The text is no program. The message names the line and the column
    /// of the first thing that is wrong.
    ParserError(String),
    /// An instruction refers to a label that the program does not define.
    /// The value is the label's name.
    LabelResolveError(String),
}

/// The character that writes the decimal digit `d`.
pub open spec fn digit_char(d: nat) -> char {
    (d + 0x30) as char
}

/// The decimal digits that write `n`, without leading zeros.
pub open spec fn decimal_text(n: nat) -> Seq<char>
    decreases n,
{
    if n < 10 {
        seq![digit_char(n)]
    } else {
        decimal_text(n / 10).push(digit_char(n % 10))
    }
}

/// The message for a parse error at a line and a column.
pub open spec fn position_text(line: nat, column: nat) -> Seq<char> {
    "unexpected input at line "@ + decimal_text(line) + ", column "@ + decimal_text(column)
}

/// The text of one decimal digit.
fn digit_text(d: usize) -> (r: &'static str)
    requires
        d < 10,
    ensures
        r@ == seq![digit_char(d as nat)],
{
    match d {
        0 => {
            proof {
                reveal_strlit("0");
            }
            "0"
        },
        1 => {
            proof {
                reveal_strlit("1");
            }
            "1"
        },
        2 => {
            proof {
                reveal_strlit("2");
            }
            "2"
        },
        3 => {
            proof {
                reveal_strlit("3");
            }
            "3"
        },
        4 => {
            proof {
                reveal_strlit("4");
            }
            "4"
        },
        5 => {
            proof {
                reveal_strlit("5");
            }
            "5"
        },
        6 => {
            proof {
                reveal_strlit("6");
            }
            "6"
        },
        7 => {
            proof {
                reveal_strlit("7");
            }
            "7"
        },
        8 => {
            proof {
                reveal_strlit("8");
            }
            "8"
        },
        _ => {
            proof {
                reveal_strlit("9");
            }
            "9"
        },
    }
}

/// The decimal digits that write `n`.
pub fn decimal(n: usize) -> (r: String)
    ensures
        r@ == decimal_text(n as nat),
    decreases n,
{
    if n < 10 {
        digit_text(n).to_owned()
    } else {
        let mut r = decimal(n / 10);
        r.append(digit_text(n % 10));
        r
    }
}

/// The message for a parse error at a line and a column.
pub fn describe_position(line: usize, column: usize) -> (msg: String)
    ensures
        msg@ == position_text(line as nat, column as nat),
{
    let mut msg = "unexpected input at line ".to_owned();
    msg.append(decimal(line).as_str());
    msg.append(", column ");
    msg.append(decimal(column).as_str());
    msg
}

/// What `assemble` owes for the text `src`: `out` before and after, and
/// the result.
pub open spec fn assembled(
    src: Seq<char>,
    before: Seq<u8>,
    after: Seq<u8>,
    r: Result<(), AssemblerError>,
) -> bool {
    match parse_text(src) {
        Err(at) => {
            &&& after == before
            &&& r matches Err(AssemblerError::ParserError(msg))
            &&& msg@ == position_text(line_of(src, at), column_of(src, at))
        },
        Ok(prog) => {
            let labels = labels_of(prog, prog.len() as int);
            let stop = first_unresolvable(prog, labels, 0);
            if stop < prog.len() {
                &&& after == before
                &&& r matches Err(AssemblerError::LabelResolveError(name))
                &&& prog[stop] matches Element::Instruction(i)
                &&& first_unknown(i, labels) == Some(name@)
            } else {
                &&& r is Ok
                &&& after == before + bytes_of(
                    image_words(
                        resolve_program(prog, labels, prog.len() as int),
                        prog.len() as int,
                    ),
                )
            }
        },
    }
}

/// Assembles the text `src` and appends the image to `out`: parses it,
/// gives each label the address of what follows its definition, replaces
/// each reference to a label by that address, and writes the words out.
/// Where the text is no program, or refers to a label that it does not
/// define, `out` is left as it was.
pub fn assemble(out: &mut Vec<u8>, src: &str) -> (r: Result<(), AssemblerError>)
    ensures
        assembled(src@, old(out)@, final(out)@, r),
{
    let mut res = match parse(src) {
        Ok(res) => res,
        Err((line, column)) => {
            return Err(AssemblerError::ParserError(describe_position(line, column)));
        },
    };
    let ghost prog = program(res@);
    let labels = locate_labels(&res);
    match reify_labels(&mut res, &labels) {
        Ok(_) => {},
        Err(name) => {
            return Err(AssemblerError::LabelResolveError(name));
        },
    }
    assert(program(res@).len() == prog.len());
    write_program(out, &res);
    Ok(())
}

} // verus!
