//! The parser: from assembly text to program elements.
//!
//! A program is a run of label definitions and instructions, with
//! whitespace and comments between them. A comment runs from `;` to the end
//! of its line. A label definition is a name and a colon; a name is a run of
//! characters other than whitespace and the colon. An instruction is its
//! mnemonic in lower case and then its operands, each after whitespace or a
//! comment. A mnemonic and an operand end where whitespace, a comment or the
//! text ends. Where a name and a colon can be read, they are a label
//! definition, also where the name is a mnemonic.
//!
//! An operand is a register reference (`$0` to `$7`), a decimal literal up
//! to 65535, a hexadecimal literal (`x` and one to four digits), a
//! character literal (one character between single quotes) or a reference
//! to a label (a colon and a name). The first operand of some instructions
//! must be a register reference.
//!
//! The grammar is given by the functions from `skip_trivia` to
//! `parse_text`; `parse` and the functions that it is made of compute what
//! they define. An error is reported with the place of the mnemonic or the
//! operand that could not be read.

use crate::assembler::{program, Element, ProgramElement};
use crate::instruction::{is_opcode, shape, Instr, Instruction, Operand, Parameter, Register, Slot};
use vstd::prelude::*;

verus! {

/// A space, a tab, a line feed or a carriage return.
pub open spec fn is_space(c: char) -> bool {
    c == ' ' || c == '\t' || c == '\n' || c == '\r'
}

/// A character that a name may hold: any but whitespace and the colon.
pub open spec fn is_name_char(c: char) -> bool {
    !is_space(c) && c != ':'
}

/// A character that a mnemonic or a number may run up to: any but
/// whitespace and the semicolon that opens a comment.
pub open spec fn is_word_char(c: char) -> bool {
    !is_space(c) && c != ';'
}

/// A decimal digit.
pub open spec fn is_digit(c: char) -> bool {
    '0' <= c <= '9'
}

/// A hexadecimal digit, in either case.
pub open spec fn is_hex_digit(c: char) -> bool {
    is_digit(c) || 'a' <= c <= 'f' || 'A' <= c <= 'F'
}

/// The value of a decimal digit.
pub open spec fn digit_value(c: char) -> nat {
    (c as u32 - '0' as u32) as nat
}

/// The value of a hexadecimal digit.
pub open spec fn hex_digit_value(c: char) -> nat {
    if is_digit(c) {
        digit_value(c)
    } else if 'a' <= c <= 'f' {
        (c as u32 - 'a' as u32 + 10) as nat
    } else {
        (c as u32 - 'A' as u32 + 10) as nat
    }
}

/// A token ends at `p`: the text ends there, or whitespace or a comment begins.
pub open spec fn at_boundary(s: Seq<char>, p: int) -> bool {
    p >= s.len() || !is_word_char(s[p])
}

/// The end of the whitespace and comments that begin at `p`. `in_comment`
/// says that `p` lies in a comment.
pub open spec fn skip_trivia(s: Seq<char>, p: int, in_comment: bool) -> int
    decreases s.len() - p,
{
    if p < 0 || p >= s.len() {
        p
    } else if in_comment {
        skip_trivia(s, p + 1, s[p] != '\n')
    } else if is_space(s[p]) {
        skip_trivia(s, p + 1, false)
    } else if s[p] == ';' {
        skip_trivia(s, p + 1, true)
    } else {
        p
    }
}

/// The end of the longest run of name characters that begins at `p`.
pub open spec fn name_end(s: Seq<char>, p: int) -> int
    decreases s.len() - p,
{
    if 0 <= p < s.len() && is_name_char(s[p]) {
        name_end(s, p + 1)
    } else {
        p
    }
}

/// The end of the longest run of word characters that begins at `p`.
pub open spec fn word_end(s: Seq<char>, p: int) -> int
    decreases s.len() - p,
{
    if 0 <= p < s.len() && is_word_char(s[p]) {
        word_end(s, p + 1)
    } else {
        p
    }
}

/// The end of the longest run of decimal digits that begins at `p`.
pub open spec fn digits_end(s: Seq<char>, p: int) -> int
    decreases s.len() - p,
{
    if 0 <= p < s.len() && is_digit(s[p]) {
        digits_end(s, p + 1)
    } else {
        p
    }
}

/// The end of the longest run of hexadecimal digits that begins at `p`.
pub open spec fn hex_end(s: Seq<char>, p: int) -> int
    decreases s.len() - p,
{
    if 0 <= p < s.len() && is_hex_digit(s[p]) {
        hex_end(s, p + 1)
    } else {
        p
    }
}

/// The number that the decimal digits from `from` up to `to` write.
pub open spec fn decimal_value(s: Seq<char>, from: int, to: int) -> nat
    decreases to - from,
{
    if to <= from {
        0
    } else {
        decimal_value(s, from, to - 1) * 10 + digit_value(s[to - 1])
    }
}

/// The number that the hexadecimal digits from `from` up to `to` write.
pub open spec fn hex_value(s: Seq<char>, from: int, to: int) -> nat
    decreases to - from,
{
    if to <= from {
        0
    } else {
        hex_value(s, from, to - 1) * 16 + hex_digit_value(s[to - 1])
    }
}

/// A register reference at `p`: `$` and one digit from 0 to 7. The result
/// is the register's index and the end of the token.
pub open spec fn register_at(s: Seq<char>, p: int) -> Option<(u16, int)> {
    if 0 <= p && p + 1 < s.len() && s[p] == '$' && '0' <= s[p + 1] <= '7' && at_boundary(
        s,
        p + 2,
    ) {
        Some((digit_value(s[p + 1]) as u16, p + 2))
    } else {
        None
    }
}

/// A character literal at `p`: one character between single quotes. It
/// stands for the character's code point, reduced modulo two to the
/// sixteenth.
pub open spec fn char_literal_at(s: Seq<char>, p: int) -> Option<(u16, int)> {
    if 0 <= p && p + 2 < s.len() && s[p] == '\'' && s[p + 2] == '\'' && at_boundary(s, p + 3) {
        Some(((s[p + 1] as u32 % 0x10000) as u16, p + 3))
    } else {
        None
    }
}

/// A hexadecimal literal at `p`: `x` and one to four hexadecimal digits.
pub open spec fn hex_literal_at(s: Seq<char>, p: int) -> Option<(u16, int)> {
    let e = hex_end(s, p + 1);
    if 0 <= p < s.len() && s[p] == 'x' && 1 <= e - (p + 1) <= 4 && at_boundary(s, e) {
        Some((hex_value(s, p + 1, e) as u16, e))
    } else {
        None
    }
}

/// A decimal literal at `p`: decimal digits that write a number up to 65535.
pub open spec fn int_literal_at(s: Seq<char>, p: int) -> Option<(u16, int)> {
    let e = digits_end(s, p);
    if 0 <= p < e && at_boundary(s, e) && decimal_value(s, p, e) <= 0xFFFF {
        Some((decimal_value(s, p, e) as u16, e))
    } else {
        None
    }
}

/// A reference to a label at `p`: a colon and a name.
pub open spec fn label_ref_at(s: Seq<char>, p: int) -> Option<(Seq<char>, int)> {
    let e = name_end(s, p + 1);
    if 0 <= p < s.len() && s[p] == ':' && p + 1 < e && at_boundary(s, e) {
        Some((s.subrange(p + 1, e), e))
    } else {
        None
    }
}

/// A parameter at `p`: a character, hexadecimal or decimal literal, a
/// register reference or a reference to a label. Its first character says
/// which.
pub open spec fn parameter_at(s: Seq<char>, p: int) -> Option<(Operand, int)> {
    if p < 0 || p >= s.len() {
        None
    } else if s[p] == '\'' {
        match char_literal_at(s, p) {
            Some((v, e)) => Some((Operand::Literal(v), e)),
            None => None,
        }
    } else if s[p] == 'x' {
        match hex_literal_at(s, p) {
            Some((v, e)) => Some((Operand::Literal(v), e)),
            None => None,
        }
    } else if s[p] == '$' {
        match register_at(s, p) {
            Some((r, e)) => Some((Operand::Register(r), e)),
            None => None,
        }
    } else if s[p] == ':' {
        match label_ref_at(s, p) {
            Some((name, e)) => Some((Operand::Label(name), e)),
            None => None,
        }
    } else {
        match int_literal_at(s, p) {
            Some((v, e)) => Some((Operand::Literal(v), e)),
            None => None,
        }
    }
}

/// What a slot of kind `slot` reads at `p`.
pub open spec fn operand_at(slot: Slot, s: Seq<char>, p: int) -> Option<(Operand, int)> {
    match slot {
        Slot::Reg => match register_at(s, p) {
            Some((r, e)) => Some((Operand::Register(r), e)),
            None => None,
        },
        Slot::Param => parameter_at(s, p),
    }
}

/// The mnemonic of each opcode.
pub open spec fn mnemonic(opcode: u16) -> Seq<char> {
    if opcode == 0 {
        seq!['h', 'a', 'l', 't']
    } else if opcode == 1 {
        seq!['s', 'e', 't']
    } else if opcode == 2 {
        seq!['p', 'u', 's', 'h']
    } else if opcode == 3 {
        seq!['p', 'o', 'p']
    } else if opcode == 4 {
        seq!['e', 'q']
    } else if opcode == 5 {
        seq!['g', 't']
    } else if opcode == 6 {
        seq!['j', 'm', 'p']
    } else if opcode == 7 {
        seq!['j', 't']
    } else if opcode == 8 {
        seq!['j', 'f']
    } else if opcode == 9 {
        seq!['a', 'd', 'd']
    } else if opcode == 10 {
        seq!['m', 'u', 'l', 't']
    } else if opcode == 11 {
        seq!['m', 'o', 'd']
    } else if opcode == 12 {
        seq!['a', 'n', 'd']
    } else if opcode == 13 {
        seq!['o', 'r']
    } else if opcode == 14 {
        seq!['n', 'o', 't']
    } else if opcode == 15 {
        seq!['r', 'm', 'e', 'm']
    } else if opcode == 16 {
        seq!['w', 'm', 'e', 'm']
    } else if opcode == 17 {
        seq!['c', 'a', 'l', 'l']
    } else if opcode == 18 {
        seq!['r', 'e', 't']
    } else if opcode == 19 {
        seq!['o', 'u', 't']
    } else if opcode == 20 {
        seq!['i', 'n']
    } else if opcode == 21 {
        seq!['n', 'o', 'o', 'p']
    } else {
        seq!['d', 'm', 'p']
    }
}

/// The opcode whose mnemonic is `word`, if there is one.
pub open spec fn opcode_of(word: Seq<char>) -> Option<u16> {
    if exists|k: u16| is_opcode(k) && #[trigger] mnemonic(k) == word {
        Some(choose|k: u16| is_opcode(k) && #[trigger] mnemonic(k) == word)
    } else {
        None
    }
}

/// The operands of the slots from index `k` on, read from `p` on, each
/// after the whitespace and comments before it. The result is the operands
/// and the end of the last one, or the place where an operand is missing or
/// malformed.
pub open spec fn operands_at(s: Seq<char>, p: int, slots: Seq<Slot>, k: int) -> Result<
    (Seq<Operand>, int),
    int,
>
    decreases slots.len() - k,
{
    if k < 0 || k >= slots.len() {
        Ok((Seq::empty(), p))
    } else {
        let q = skip_trivia(s, p, false);
        match operand_at(slots[k], s, q) {
            None => Err(q),
            Some((o, e)) => match operands_at(s, e, slots, k + 1) {
                Ok((rest, end)) => Ok((seq![o] + rest, end)),
                Err(at) => Err(at),
            },
        }
    }
}

/// The instruction at `p`: its mnemonic, which runs up to the next
/// whitespace, comment or end of text, and its operands. The result is the
/// instruction and its end, or the place of what is wrong: `p` where no
/// mnemonic stands there, else the place of the operand.
pub open spec fn instruction_at(s: Seq<char>, p: int) -> Result<(Instr, int), int> {
    let e = word_end(s, p);
    match opcode_of(s.subrange(p, e)) {
        None => Err(p),
        Some(opcode) => match operands_at(s, e, shape(opcode), 0) {
            Ok((operands, end)) => Ok((Instr { opcode, operands }, end)),
            Err(at) => Err(at),
        },
    }
}

/// The element at `p`: a label definition where a name and a colon stand
/// there, else an instruction.
pub open spec fn element_at(s: Seq<char>, p: int) -> Result<(Element, int), int> {
    let n = name_end(s, p);
    if p < n < s.len() && s[n] == ':' {
        Ok((Element::Label(s.subrange(p, n)), n + 1))
    } else {
        match instruction_at(s, p) {
            Ok((i, end)) => Ok((Element::Instruction(i), end)),
            Err(at) => Err(at),
        }
    }
}

/// The elements from `p` to the end of the text, or the place of the first
/// thing that is neither whitespace, comment nor element. An element ends
/// behind its start and within the text (`lemma_element_advances`); the test
/// for that is here so that the definition is seen to come to an end.
pub open spec fn elements_from(s: Seq<char>, p: int) -> Result<Seq<Element>, int>
    decreases s.len() - p,
{
    let q = skip_trivia(s, p, false);
    if p < 0 || p >= s.len() || q >= s.len() {
        Ok(Seq::empty())
    } else {
        match element_at(s, q) {
            Err(at) => Err(at),
            Ok((element, e)) => if e <= p || e > s.len() {
                Err(q)
            } else {
                match elements_from(s, e) {
                    Ok(rest) => Ok(seq![element] + rest),
                    Err(at) => Err(at),
                }
            },
        }
    }
}

/// The program that the text `s` writes, or the place of the first error,
/// counted in characters from the start of the text.
pub open spec fn parse_text(s: Seq<char>) -> Result<Seq<Element>, int> {
    elements_from(s, 0)
}

/// The number of line feeds before `p`: the line of `p`, counted from 0.
pub open spec fn line_of(s: Seq<char>, p: int) -> nat
    decreases p,
{
    if p <= 0 {
        0
    } else if s[p - 1] == '\n' {
        line_of(s, p - 1) + 1
    } else {
        line_of(s, p - 1)
    }
}

/// The number of characters between `p` and the start of its line: the
/// column of `p`, counted from 0.
pub open spec fn column_of(s: Seq<char>, p: int) -> nat
    decreases p,
{
    if p <= 0 || s[p - 1] == '\n' {
        0
    } else {
        column_of(s, p - 1) + 1
    }
}

/// Whitespace and comments end at or behind the place where they begin,
/// and within the text.
pub proof fn lemma_skip_trivia_bounds(s: Seq<char>, p: int, in_comment: bool)
    requires
        0 <= p <= s.len(),
    ensures
        p <= skip_trivia(s, p, in_comment) <= s.len(),
    decreases s.len() - p,
{
    if p < s.len() {
        if in_comment {
            lemma_skip_trivia_bounds(s, p + 1, s[p] != '\n');
        } else if is_space(s[p]) {
            lemma_skip_trivia_bounds(s, p + 1, false);
        } else if s[p] == ';' {
            lemma_skip_trivia_bounds(s, p + 1, true);
        }
    }
}

/// A run of characters ends at or behind the place where it begins, and
/// within the text.
pub proof fn lemma_run_bounds(s: Seq<char>, p: int)
    requires
        0 <= p <= s.len(),
    ensures
        p <= name_end(s, p) <= s.len(),
        p <= word_end(s, p) <= s.len(),
        p <= digits_end(s, p) <= s.len(),
        p <= hex_end(s, p) <= s.len(),
    decreases s.len() - p,
{
    if p < s.len() {
        lemma_run_bounds(s, p + 1);
    }
}

/// An operand is not empty and ends within the text, and what a register
/// slot reads is a register.
pub proof fn lemma_operand_bounds(slot: Slot, s: Seq<char>, p: int)
    requires
        0 <= p <= s.len(),
        operand_at(slot, s, p) is Some,
    ensures
        p < operand_at(slot, s, p)->Some_0.1 <= s.len(),
        slot is Reg ==> operand_at(slot, s, p)->Some_0.0 is Register,
{
    lemma_run_bounds(s, p);
    if p < s.len() {
        lemma_run_bounds(s, p + 1);
    }
}

/// The operands of an instruction are as many as the slots that are left,
/// each register slot gets a register, and the last operand ends within
/// the text.
pub proof fn lemma_operands_bounds(s: Seq<char>, p: int, slots: Seq<Slot>, k: int)
    requires
        0 <= p <= s.len(),
        0 <= k <= slots.len(),
        operands_at(s, p, slots, k) is Ok,
    ensures
        p <= operands_at(s, p, slots, k)->Ok_0.1 <= s.len(),
        k < slots.len() ==> p < operands_at(s, p, slots, k)->Ok_0.1,
        operands_at(s, p, slots, k)->Ok_0.0.len() == slots.len() - k,
        forall|i: int|
            0 <= i < slots.len() - k && slots[k + i] is Reg ==> #[trigger] operands_at(
                s,
                p,
                slots,
                k,
            )->Ok_0.0[i] is Register,
    decreases slots.len() - k,
{
    if k < slots.len() {
        let q = skip_trivia(s, p, false);
        lemma_skip_trivia_bounds(s, p, false);
        lemma_operand_bounds(slots[k], s, q);
        let (o, e) = operand_at(slots[k], s, q)->0;
        lemma_operands_bounds(s, e, slots, k + 1);
        let rest = operands_at(s, e, slots, k + 1)->Ok_0.0;
        let all = operands_at(s, p, slots, k)->Ok_0.0;
        assert(all == seq![o] + rest);
        assert forall|i: int| 0 <= i < slots.len() - k && slots[k + i] is Reg implies (
        #[trigger] all[i]) is Register by {
            if i > 0 {
                assert(all[i] == rest[i - 1]);
                assert(slots[(k + 1) + (i - 1)] is Reg);
            }
        }
    }
}

/// An instruction in a text is not empty, ends within the text, and has
/// the operands that its opcode asks for.
pub proof fn lemma_instruction_well_formed(s: Seq<char>, p: int)
    requires
        0 <= p <= s.len(),
        instruction_at(s, p) is Ok,
    ensures
        p < instruction_at(s, p)->Ok_0.1 <= s.len(),
        instruction_at(s, p)->Ok_0.0.well_formed(),
{
    let e = word_end(s, p);
    lemma_run_bounds(s, p);
    let word = s.subrange(p, e);
    let opcode = opcode_of(word)->0;
    assert(is_opcode(opcode) && mnemonic(opcode) == word);
    assert(mnemonic(opcode).len() >= 2);
    lemma_operands_bounds(s, e, shape(opcode), 0);
    let i = instruction_at(s, p)->Ok_0.0;
    assert forall|k: int| 0 <= k < i.operands.len() && shape(i.opcode)[k] is Reg implies (
    #[trigger] i.operands[k]) is Register by {
        assert(shape(opcode)[0 + k] is Reg);
    }
}

/// An element in a text is not empty and ends within the text: reading
/// element after element comes to the end of the text.
pub proof fn lemma_element_advances(s: Seq<char>, p: int)
    requires
        0 <= p <= s.len(),
        element_at(s, p) is Ok,
    ensures
        p < element_at(s, p)->Ok_0.1 <= s.len(),
        element_at(s, p)->Ok_0.0 matches Element::Instruction(i) ==> i.well_formed(),
        !(element_at(s, p)->Ok_0.0 is Data),
{
    lemma_run_bounds(s, p);
    let n = name_end(s, p);
    if !(p < n < s.len() && s[n] == ':') {
        lemma_instruction_well_formed(s, p);
    }
}

/// Every instruction of a parsed program has the operands that its opcode
/// asks for, and a parsed program holds no data.
pub proof fn lemma_parsed_well_formed(s: Seq<char>, p: int)
    requires
        0 <= p <= s.len(),
        elements_from(s, p) is Ok,
    ensures
        forall|k: int|
            0 <= k < elements_from(s, p)->Ok_0.len() ==> !(#[trigger] elements_from(
                s,
                p,
            )->Ok_0[k] is Data) && (elements_from(s, p)->Ok_0[k] matches Element::Instruction(i)
                ==> i.well_formed()),
    decreases s.len() - p,
{
    let q = skip_trivia(s, p, false);
    lemma_skip_trivia_bounds(s, p, false);
    if p < s.len() && q < s.len() {
        lemma_element_advances(s, q);
        let (element, e) = element_at(s, q)->Ok_0;
        lemma_parsed_well_formed(s, e);
        let rest = elements_from(s, e)->Ok_0;
        let all = elements_from(s, p)->Ok_0;
        assert(all == seq![element] + rest);
        assert forall|k: int| 0 <= k < all.len() implies !(#[trigger] all[k] is Data) && (
        all[k] matches Element::Instruction(i) ==> i.well_formed()) by {
            if k > 0 {
                assert(all[k] == rest[k - 1]);
            }
        }
    }
}

/// The number that decimal digits write does not shrink as digits are added.
pub proof fn lemma_decimal_grows(s: Seq<char>, from: int, mid: int, to: int)
    requires
        from <= mid <= to,
    ensures
        decimal_value(s, from, mid) <= decimal_value(s, from, to),
    decreases to - mid,
{
    if mid < to {
        lemma_decimal_grows(s, from, mid, to - 1);
    }
}

/// No two opcodes share a mnemonic.
pub proof fn lemma_mnemonics_differ(j: u16, k: u16)
    requires
        is_opcode(j),
        is_opcode(k),
        mnemonic(j) == mnemonic(k),
    ensures
        j == k,
{
    let a = mnemonic(j);
    let b = mnemonic(k);
    assert(a.len() == b.len() && a[0] == b[0] && a[1] == b[1] && a[2] == b[2]);
}

/// Line and column of a place are no greater than the place itself.
pub proof fn lemma_position_bounds(s: Seq<char>, p: int)
    requires
        0 <= p,
    ensures
        line_of(s, p) <= p,
        column_of(s, p) <= p,
    decreases p,
{
    if p > 0 {
        lemma_position_bounds(s, p - 1);
    }
}

/// The result of reading operands: the operands and the place where the
/// last one ends.
pub open spec fn found(operands: Seq<Operand>, end: int) -> Result<(Seq<Operand>, int), int> {
    Ok((operands, end))
}

/// The result of reading operands where one is missing or malformed at `at`.
pub open spec fn missing(at: int) -> Result<(Seq<Operand>, int), int> {
    Err(at)
}

/// What is parsed so far, followed by what the rest of the text gives.
pub open spec fn followed_by(done: Seq<Element>, rest: Result<Seq<Element>, int>) -> Result<
    Seq<Element>,
    int,
> {
    match rest {
        Ok(more) => Ok(done + more),
        Err(at) => Err(at),
    }
}

/// A text with its characters laid out for reading by position.
pub struct Source<'a> {
    text: &'a str,
    chars: Vec<char>,
}

impl<'a> View for Source<'a> {
    type V = Seq<char>;

    closed spec fn view(&self) -> Seq<char> {
        self.chars@
    }
}

impl<'a> Source<'a> {
    #[verifier::type_invariant]
    spec fn consistent(self) -> bool {
        self.chars@ == self.text@
    }

    /// The text `text`, ready for reading.
    pub fn new(text: &'a str) -> (src: Self)
        ensures
            src@ == text@,
    {
        let mut chars: Vec<char> = Vec::new();
        for c in iter: text.chars()
            invariant
                chars@ == iter.seq().take(iter.index()),
                iter.seq() == text@,
        {
            chars.push(c);
        }
        assert(chars@ =~= text@);
        Source { text, chars }
    }

    /// The number of characters of the text.
    pub fn len(&self) -> (n: usize)
        ensures
            n == self@.len(),
    {
        self.chars.len()
    }

    /// The character at `p`.
    pub fn char_at(&self, p: usize) -> (c: char)
        requires
            p < self@.len(),
        ensures
            c == self@[p as int],
    {
        self.chars[p]
    }

    /// The characters from `from` up to `to`, as a string.
    pub fn slice(&self, from: usize, to: usize) -> (r: String)
        requires
            from <= to <= self@.len(),
        ensures
            r@ == self@.subrange(from as int, to as int),
    {
        proof {
            use_type_invariant(self);
        }
        self.text.substring_char(from, to).to_owned()
    }

    /// The line and the column of the character at `at`, both counted from 0.
    pub fn position(&self, at: usize) -> (r: (usize, usize))
        requires
            at <= self@.len(),
        ensures
            r.0 == line_of(self@, at as int),
            r.1 == column_of(self@, at as int),
    {
        let mut line: usize = 0;
        let mut column: usize = 0;
        let mut i: usize = 0;
        while i < at
            invariant
                i <= at <= self@.len(),
                line == line_of(self@, i as int),
                column == column_of(self@, i as int),
                line <= i,
                column <= i,
            decreases at - i,
        {
            if self.char_at(i) == '\n' {
                line += 1;
                column = 0;
            } else {
                column += 1;
            }
            i += 1;
        }
        (line, column)
    }

    /// A token ends at `p`.
    fn boundary(&self, p: usize) -> (b: bool)
        ensures
            b == at_boundary(self@, p as int),
    {
        if p >= self.len() {
            true
        } else {
            let c = self.char_at(p);
            c == ' ' || c == '\t' || c == '\n' || c == '\r' || c == ';'
        }
    }

    /// The end of the whitespace and comments that begin at `p`.
    fn skip(&self, p: usize) -> (q: usize)
        requires
            p <= self@.len(),
        ensures
            q == skip_trivia(self@, p as int, false),
            p <= q <= self@.len(),
    {
        let mut q = p;
        let mut in_comment = false;
        while q < self.len()
            invariant
                p <= q <= self@.len(),
                skip_trivia(self@, p as int, false) == skip_trivia(self@, q as int, in_comment),
            decreases self@.len() - q,
        {
            let c = self.char_at(q);
            if in_comment {
                in_comment = c != '\n';
            } else if c == ' ' || c == '\t' || c == '\n' || c == '\r' {
            } else if c == ';' {
                in_comment = true;
            } else {
                return q;
            }
            q += 1;
        }
        q
    }

    /// The end of the name that begins at `p`.
    fn scan_name(&self, p: usize) -> (q: usize)
        requires
            p <= self@.len(),
        ensures
            q == name_end(self@, p as int),
            p <= q <= self@.len(),
    {
        let mut q = p;
        while q < self.len()
            invariant
                p <= q <= self@.len(),
                name_end(self@, p as int) == name_end(self@, q as int),
            decreases self@.len() - q,
        {
            let c = self.char_at(q);
            if c == ' ' || c == '\t' || c == '\n' || c == '\r' || c == ':' {
                return q;
            }
            q += 1;
        }
        q
    }

    /// The end of the word that begins at `p`.
    fn scan_word(&self, p: usize) -> (q: usize)
        requires
            p <= self@.len(),
        ensures
            q == word_end(self@, p as int),
            p <= q <= self@.len(),
            at_boundary(self@, q as int),
    {
        let mut q = p;
        while q < self.len()
            invariant
                p <= q <= self@.len(),
                word_end(self@, p as int) == word_end(self@, q as int),
            decreases self@.len() - q,
        {
            if self.boundary(q) {
                return q;
            }
            q += 1;
        }
        q
    }

    /// The end of the decimal digits that begin at `p`.
    fn scan_digits(&self, p: usize) -> (q: usize)
        requires
            p <= self@.len(),
        ensures
            q == digits_end(self@, p as int),
            p <= q <= self@.len(),
            forall|i: int| p <= i < q ==> is_digit(#[trigger] self@[i]),
    {
        let mut q = p;
        while q < self.len()
            invariant
                p <= q <= self@.len(),
                digits_end(self@, p as int) == digits_end(self@, q as int),
                forall|i: int| p <= i < q ==> is_digit(#[trigger] self@[i]),
            decreases self@.len() - q,
        {
            let c = self.char_at(q);
            if !(c >= '0' && c <= '9') {
                return q;
            }
            q += 1;
        }
        q
    }

    /// The end of the hexadecimal digits that begin at `p`.
    fn scan_hex(&self, p: usize) -> (q: usize)
        requires
            p <= self@.len(),
        ensures
            q == hex_end(self@, p as int),
            p <= q <= self@.len(),
            forall|i: int| p <= i < q ==> is_hex_digit(#[trigger] self@[i]),
    {
        let mut q = p;
        while q < self.len()
            invariant
                p <= q <= self@.len(),
                hex_end(self@, p as int) == hex_end(self@, q as int),
                forall|i: int| p <= i < q ==> is_hex_digit(#[trigger] self@[i]),
            decreases self@.len() - q,
        {
            let c = self.char_at(q);
            if !((c >= '0' && c <= '9') || (c >= 'a' && c <= 'f') || (c >= 'A' && c <= 'F')) {
                return q;
            }
            q += 1;
        }
        q
    }

    /// The character literal at `p`, with the place where it ends.
    fn parse_char(&self, p: usize) -> (r: Option<(u16, usize)>)
        requires
            p <= self@.len(),
        ensures
            match r {
                Some((v, e)) => char_literal_at(self@, p as int) == Some((v, e as int)) && p < e
                    <= self@.len(),
                None => char_literal_at(self@, p as int) is None,
            },
    {
        let len = self.len();
        if len - p < 3 {
            return None;
        }
        if self.char_at(p) == '\'' && self.char_at(p + 2) == '\'' && self.boundary(p + 3) {
            Some((((self.char_at(p + 1) as u32) % 0x10000) as u16, p + 3))
        } else {
            None
        }
    }

    /// The hexadecimal literal at `p`, with the place where it ends.
    fn parse_hex(&self, p: usize) -> (r: Option<(u16, usize)>)
        requires
            p <= self@.len(),
        ensures
            match r {
                Some((v, e)) => hex_literal_at(self@, p as int) == Some((v, e as int)) && p < e
                    <= self@.len(),
                None => hex_literal_at(self@, p as int) is None,
            },
    {
        if p >= self.len() || self.char_at(p) != 'x' {
            return None;
        }
        let e = self.scan_hex(p + 1);
        if e - (p + 1) < 1 || e - (p + 1) > 4 || !self.boundary(e) {
            return None;
        }
        let mut acc: u32 = 0;
        let mut i = p + 1;
        while i < e
            invariant
                p + 1 <= i <= e <= self@.len(),
                e - (p + 1) <= 4,
                forall|k: int| p + 1 <= k < e ==> is_hex_digit(#[trigger] self@[k]),
                acc == hex_value(self@, p + 1, i as int),
                i - (p + 1) == 0 ==> acc == 0,
                i - (p + 1) == 1 ==> acc < 0x10,
                i - (p + 1) == 2 ==> acc < 0x100,
                i - (p + 1) == 3 ==> acc < 0x1000,
                i - (p + 1) == 4 ==> acc < 0x10000,
            decreases e - i,
        {
            let c = self.char_at(i);
            assert(is_hex_digit(self@[i as int]));
            let d = if c >= '0' && c <= '9' {
                c as u32 - '0' as u32
            } else if c >= 'a' && c <= 'f' {
                c as u32 - 'a' as u32 + 10
            } else {
                c as u32 - 'A' as u32 + 10
            };
            acc = acc * 16 + d;
            i += 1;
        }
        Some((acc as u16, e))
    }

    /// The decimal literal at `p`, with the place where it ends.
    fn parse_int(&self, p: usize) -> (r: Option<(u16, usize)>)
        requires
            p <= self@.len(),
        ensures
            match r {
                Some((v, e)) => int_literal_at(self@, p as int) == Some((v, e as int)) && p < e
                    <= self@.len(),
                None => int_literal_at(self@, p as int) is None,
            },
    {
        let e = self.scan_digits(p);
        if e == p || !self.boundary(e) {
            return None;
        }
        let mut acc: u32 = 0;
        let mut i = p;
        while i < e
            invariant
                p <= i <= e <= self@.len(),
                forall|k: int| p <= k < e ==> is_digit(#[trigger] self@[k]),
                e == digits_end(self@, p as int),
                acc == decimal_value(self@, p as int, i as int),
                acc <= 0xFFFF,
            decreases e - i,
        {
            let c = self.char_at(i);
            assert(is_digit(self@[i as int]));
            acc = acc * 10 + (c as u32 - '0' as u32);
            i += 1;
            assert(acc == decimal_value(self@, p as int, i as int));
            if acc > 0xFFFF {
                proof {
                    lemma_decimal_grows(self@, p as int, i as int, e as int);
                }
                return None;
            }
        }
        Some((acc as u16, e))
    }

    /// The reference to a label at `p`, with the place where it ends.
    fn parse_label_ref(&self, p: usize) -> (r: Option<(String, usize)>)
        requires
            p <= self@.len(),
        ensures
            match r {
                Some((name, e)) => label_ref_at(self@, p as int) == Some((name@, e as int)) && p
                    < e <= self@.len(),
                None => label_ref_at(self@, p as int) is None,
            },
    {
        if p >= self.len() || self.char_at(p) != ':' {
            return None;
        }
        let e = self.scan_name(p + 1);
        if e == p + 1 || !self.boundary(e) {
            return None;
        }
        Some((self.slice(p + 1, e), e))
    }

    /// The opcode whose mnemonic the characters from `p` up to `e` spell.
    fn opcode(&self, p: usize, e: usize) -> (r: Option<u16>)
        requires
            p <= e <= self@.len(),
        ensures
            r == opcode_of(self@.subrange(p as int, e as int)),
            r matches Some(k) ==> is_opcode(k) && p < e,
    {
        let ghost word = self@.subrange(p as int, e as int);
        let r = if e - p == 2 {
            let a = self.char_at(p + 0);
            let b = self.char_at(p + 1);
            assert(word =~= seq![a, b]);
            if a == 'e' && b == 'q' {
                Some(4)
            } else if a == 'g' && b == 't' {
                Some(5)
            } else if a == 'j' && b == 't' {
                Some(7)
            } else if a == 'j' && b == 'f' {
                Some(8)
            } else if a == 'o' && b == 'r' {
                Some(13)
            } else if a == 'i' && b == 'n' {
                Some(20)
            } else {
                None
            }
        } else if e - p == 3 {
            let a = self.char_at(p + 0);
            let b = self.char_at(p + 1);
            let c = self.char_at(p + 2);
            assert(word =~= seq![a, b, c]);
            if a == 's' && b == 'e' && c == 't' {
                Some(1)
            } else if a == 'p' && b == 'o' && c == 'p' {
                Some(3)
            } else if a == 'j' && b == 'm' && c == 'p' {
                Some(6)
            } else if a == 'a' && b == 'd' && c == 'd' {
                Some(9)
            } else if a == 'm' && b == 'o' && c == 'd' {
                Some(11)
            } else if a == 'a' && b == 'n' && c == 'd' {
                Some(12)
            } else if a == 'n' && b == 'o' && c == 't' {
                Some(14)
            } else if a == 'r' && b == 'e' && c == 't' {
                Some(18)
            } else if a == 'o' && b == 'u' && c == 't' {
                Some(19)
            } else if a == 'd' && b == 'm' && c == 'p' {
                Some(0xff)
            } else {
                None
            }
        } else if e - p == 4 {
            let a = self.char_at(p + 0);
            let b = self.char_at(p + 1);
            let c = self.char_at(p + 2);
            let d = self.char_at(p + 3);
            assert(word =~= seq![a, b, c, d]);
            if a == 'h' && b == 'a' && c == 'l' && d == 't' {
                Some(0)
            } else if a == 'p' && b == 'u' && c == 's' && d == 'h' {
                Some(2)
            } else if a == 'm' && b == 'u' && c == 'l' && d == 't' {
                Some(10)
            } else if a == 'r' && b == 'm' && c == 'e' && d == 'm' {
                Some(15)
            } else if a == 'w' && b == 'm' && c == 'e' && d == 'm' {
                Some(16)
            } else if a == 'c' && b == 'a' && c == 'l' && d == 'l' {
                Some(17)
            } else if a == 'n' && b == 'o' && c == 'o' && d == 'p' {
                Some(21)
            } else {
                None
            }
        } else {
            None
        };
        proof {
            match r {
                Some(k) => {
                    assert(is_opcode(k) && mnemonic(k) == word);
                    let chosen = choose|k: u16| is_opcode(k) && #[trigger] mnemonic(k) == word;
                    lemma_mnemonics_differ(chosen, k);
                },
                None => {
                    assert forall|k: u16| is_opcode(k) implies #[trigger] mnemonic(k) != word by {
                        let m = mnemonic(k);
                        if m == word {
                            assert(m.len() == e - p);
                            assert(m[0] == word[0] && m[1] == word[1]);
                            assert(m.len() > 2 ==> m[2] == word[2]);
                            assert(m.len() > 3 ==> m[3] == word[3]);
                        }
                    }
                },
            }
        }
        r
    }

    /// The register reference after the whitespace and comments at `p`.
    fn next_reg(&self, p: usize) -> (r: Result<(Register, usize), usize>)
        requires
            p <= self@.len(),
        ensures
            match r {
                Ok((reg, e)) => operand_at(Slot::Reg, self@, skip_trivia(self@, p as int, false))
                    == Some((Operand::Register(reg.0), e as int)) && p < e <= self@.len(),
                Err(at) => operand_at(Slot::Reg, self@, skip_trivia(self@, p as int, false))
                    is None && at == skip_trivia(self@, p as int, false) && p <= at <= self@.len(),
            },
    {
        let q = self.skip(p);
        match parse_reg(self, q) {
            Some(found) => Ok(found),
            None => Err(q),
        }
    }

    /// The parameter after the whitespace and comments at `p`.
    fn next_param(&self, p: usize) -> (r: Result<(Parameter, usize), usize>)
        requires
            p <= self@.len(),
        ensures
            match r {
                Ok((param, e)) => operand_at(
                    Slot::Param,
                    self@,
                    skip_trivia(self@, p as int, false),
                ) == Some((param@, e as int)) && p < e <= self@.len(),
                Err(at) => operand_at(Slot::Param, self@, skip_trivia(self@, p as int, false))
                    is None && at == skip_trivia(self@, p as int, false) && p <= at
                    <= self@.len(),
            },
    {
        let q = self.skip(p);
        match parse_param(self, q) {
            Some(found) => Ok(found),
            None => Err(q),
        }
    }

    /// The operands of an instruction that takes a register, read from `p` on.
    fn operands_r(&self, p: usize) -> (r: Result<(Register, usize), usize>)
        requires
            p <= self@.len(),
        ensures
            match r {
                Ok((a, e)) => p < e <= self@.len() && operands_at(
                    self@,
                    p as int,
                    seq![Slot::Reg],
                    0,
                ) == found(seq![Operand::Register(a.0)], e as int),
                Err(at) => p <= at <= self@.len() && operands_at(
                    self@,
                    p as int,
                    seq![Slot::Reg],
                    0,
                ) == missing(at as int),
            },
    {
        proof {
            reveal_with_fuel(operands_at, 4);
        }
        let ghost slots = seq![Slot::Reg];
        assert(slots[0] == Slot::Reg);
        let (a, e0) = match self.next_reg(p) {
            Ok(read) => read,
            Err(at) => {
                return Err(at);
            },
        };
        proof {
            let s = self@;
            assert(operands_at(s, e0 as int, slots, 1) == found(Seq::empty(), e0 as int));
            assert(seq![Operand::Register(a.0)] + Seq::<Operand>::empty() =~=
                seq![Operand::Register(a.0)]);
            assert(operands_at(s, p as int, slots, 0) ==
                found(seq![Operand::Register(a.0)], e0 as int));
        }
        Ok((a, e0))
    }

    /// The operands of an instruction that takes a parameter, read from `p` on.
    fn operands_p(&self, p: usize) -> (r: Result<(Parameter, usize), usize>)
        requires
            p <= self@.len(),
        ensures
            match r {
                Ok((a, e)) => p < e <= self@.len() && operands_at(
                    self@,
                    p as int,
                    seq![Slot::Param],
                    0,
                ) == found(seq![a@], e as int),
                Err(at) => p <= at <= self@.len() && operands_at(
                    self@,
                    p as int,
                    seq![Slot::Param],
                    0,
                ) == missing(at as int),
            },
    {
        proof {
            reveal_with_fuel(operands_at, 4);
        }
        let ghost slots = seq![Slot::Param];
        assert(slots[0] == Slot::Param);
        let (a, e0) = match self.next_param(p) {
            Ok(read) => read,
            Err(at) => {
                return Err(at);
            },
        };
        proof {
            let s = self@;
            assert(operands_at(s, e0 as int, slots, 1) == found(Seq::empty(), e0 as int));
            assert(seq![a@] + Seq::<Operand>::empty() =~= seq![a@]);
            assert(operands_at(s, p as int, slots, 0) == found(seq![a@], e0 as int));
        }
        Ok((a, e0))
    }

    /// The operands of an instruction that takes a register and a parameter, read from `p` on.
    fn operands_rp(&self, p: usize) -> (r: Result<(Register, Parameter, usize), usize>)
        requires
            p <= self@.len(),
        ensures
            match r {
                Ok((a, b, e)) => p < e <= self@.len() && operands_at(
                    self@,
                    p as int,
                    seq![Slot::Reg, Slot::Param],
                    0,
                ) == found(seq![Operand::Register(a.0), b@], e as int),
                Err(at) => p <= at <= self@.len() && operands_at(
                    self@,
                    p as int,
                    seq![Slot::Reg, Slot::Param],
                    0,
                ) == missing(at as int),
            },
    {
        proof {
            reveal_with_fuel(operands_at, 4);
        }
        let ghost slots = seq![Slot::Reg, Slot::Param];
        assert(slots[0] == Slot::Reg);
        let (a, e0) = match self.next_reg(p) {
            Ok(read) => read,
            Err(at) => {
                return Err(at);
            },
        };
        assert(slots[1] == Slot::Param);
        let (b, e1) = match self.next_param(e0) {
            Ok(read) => read,
            Err(at) => {
                return Err(at);
            },
        };
        proof {
            let s = self@;
            assert(operands_at(s, e1 as int, slots, 2) == found(Seq::empty(), e1 as int));
            assert(seq![b@] + Seq::<Operand>::empty() =~= seq![b@]);
            assert(operands_at(s, e0 as int, slots, 1) == found(seq![b@], e1 as int));
            assert(seq![Operand::Register(a.0)] + seq![b@] =~= seq![Operand::Register(a.0), b@]);
            assert(operands_at(s, p as int, slots, 0) ==
                found(seq![Operand::Register(a.0), b@], e1 as int));
        }
        Ok((a, b, e1))
    }

    /// The operands of an instruction that takes two parameters, read from `p` on.
    fn operands_pp(&self, p: usize) -> (r: Result<(Parameter, Parameter, usize), usize>)
        requires
            p <= self@.len(),
        ensures
            match r {
                Ok((a, b, e)) => p < e <= self@.len() && operands_at(
                    self@,
                    p as int,
                    seq![Slot::Param, Slot::Param],
                    0,
                ) == found(seq![a@, b@], e as int),
                Err(at) => p <= at <= self@.len() && operands_at(
                    self@,
                    p as int,
                    seq![Slot::Param, Slot::Param],
                    0,
                ) == missing(at as int),
            },
    {
        proof {
            reveal_with_fuel(operands_at, 4);
        }
        let ghost slots = seq![Slot::Param, Slot::Param];
        assert(slots[0] == Slot::Param);
        let (a, e0) = match self.next_param(p) {
            Ok(read) => read,
            Err(at) => {
                return Err(at);
            },
        };
        assert(slots[1] == Slot::Param);
        let (b, e1) = match self.next_param(e0) {
            Ok(read) => read,
            Err(at) => {
                return Err(at);
            },
        };
        proof {
            let s = self@;
            assert(operands_at(s, e1 as int, slots, 2) == found(Seq::empty(), e1 as int));
            assert(seq![b@] + Seq::<Operand>::empty() =~= seq![b@]);
            assert(operands_at(s, e0 as int, slots, 1) == found(seq![b@], e1 as int));
            assert(seq![a@] + seq![b@] =~= seq![a@, b@]);
            assert(operands_at(s, p as int, slots, 0) == found(seq![a@, b@], e1 as int));
        }
        Ok((a, b, e1))
    }

    /// The operands of an instruction that takes a register and two parameters, read from `p` on.
    fn operands_rpp(&self, p: usize) -> (r: Result<(Register, Parameter, Parameter, usize), usize>)
        requires
            p <= self@.len(),
        ensures
            match r {
                Ok((a, b, c, e)) => p < e <= self@.len() && operands_at(
                    self@,
                    p as int,
                    seq![Slot::Reg, Slot::Param, Slot::Param],
                    0,
                ) == found(seq![Operand::Register(a.0), b@, c@], e as int),
                Err(at) => p <= at <= self@.len() && operands_at(
                    self@,
                    p as int,
                    seq![Slot::Reg, Slot::Param, Slot::Param],
                    0,
                ) == missing(at as int),
            },
    {
        proof {
            reveal_with_fuel(operands_at, 4);
        }
        let ghost slots = seq![Slot::Reg, Slot::Param, Slot::Param];
        assert(slots[0] == Slot::Reg);
        let (a, e0) = match self.next_reg(p) {
            Ok(read) => read,
            Err(at) => {
                return Err(at);
            },
        };
        assert(slots[1] == Slot::Param);
        let (b, e1) = match self.next_param(e0) {
            Ok(read) => read,
            Err(at) => {
                return Err(at);
            },
        };
        assert(slots[2] == Slot::Param);
        let (c, e2) = match self.next_param(e1) {
            Ok(read) => read,
            Err(at) => {
                return Err(at);
            },
        };
        proof {
            let s = self@;
            assert(operands_at(s, e2 as int, slots, 3) == found(Seq::empty(), e2 as int));
            assert(seq![c@] + Seq::<Operand>::empty() =~= seq![c@]);
            assert(operands_at(s, e1 as int, slots, 2) == found(seq![c@], e2 as int));
            assert(seq![b@] + seq![c@] =~= seq![b@, c@]);
            assert(operands_at(s, e0 as int, slots, 1) == found(seq![b@, c@], e2 as int));
            assert(seq![Operand::Register(a.0)] + seq![b@, c@] =~=
                seq![Operand::Register(a.0), b@, c@]);
            assert(operands_at(s, p as int, slots, 0) ==
                found(seq![Operand::Register(a.0), b@, c@], e2 as int));
        }
        Ok((a, b, c, e2))
    }
}

/// The register reference at `p`, with the place where it ends.
pub fn parse_reg(src: &Source, p: usize) -> (r: Option<(Register, usize)>)
    requires
        p <= src@.len(),
    ensures
        match r {
            Some((reg, e)) => register_at(src@, p as int) == Some((reg.0, e as int)) && p < e
                <= src@.len(),
            None => register_at(src@, p as int) is None,
        },
{
    let len = src.len();
    if len - p < 2 {
        return None;
    }
    let c = src.char_at(p + 1);
    if src.char_at(p) == '$' && c >= '0' && c <= '7' && src.boundary(p + 2) {
        Some((Register((c as u32 - '0' as u32) as u16), p + 2))
    } else {
        None
    }
}

/// The parameter at `p`, with the place where it ends.
pub fn parse_param(src: &Source, p: usize) -> (r: Option<(Parameter, usize)>)
    requires
        p <= src@.len(),
    ensures
        match r {
            Some((param, e)) => parameter_at(src@, p as int) == Some((param@, e as int)) && p
                < e <= src@.len(),
            None => parameter_at(src@, p as int) is None,
        },
{
    if p >= src.len() {
        return None;
    }
    let c = src.char_at(p);
    if c == '\'' {
        match src.parse_char(p) {
            Some((v, e)) => Some((Parameter::Literal(v), e)),
            None => None,
        }
    } else if c == 'x' {
        match src.parse_hex(p) {
            Some((v, e)) => Some((Parameter::Literal(v), e)),
            None => None,
        }
    } else if c == '$' {
        match parse_reg(src, p) {
            Some((r, e)) => Some((Parameter::Register(r), e)),
            None => None,
        }
    } else if c == ':' {
        match src.parse_label_ref(p) {
            Some((name, e)) => Some((Parameter::Label(name), e)),
            None => None,
        }
    } else {
        match src.parse_int(p) {
            Some((v, e)) => Some((Parameter::Literal(v), e)),
            None => None,
        }
    }
}

/// The instruction at `p`, with the place where it ends; or the place
/// of what is wrong.
pub fn parse_instruction(src: &Source, p: usize) -> (r: Result<(Instruction, usize), usize>)
    requires
        p <= src@.len(),
    ensures
        match r {
            Ok((i, e)) => instruction_at(src@, p as int) == Ok::<(Instr, int), int>(
                (i@, e as int),
            ) && p < e <= src@.len(),
            Err(at) => instruction_at(src@, p as int) == Err::<(Instr, int), int>(at as int)
                && p <= at <= src@.len(),
        },
{
    let e = src.scan_word(p);
    let opcode = match src.opcode(p, e) {
        Some(opcode) => opcode,
        None => {
            return Err(p);
        },
    };
    match opcode {
        0 => {
            assert(Instruction::Halt@.operands =~= Seq::<Operand>::empty());
            Ok((Instruction::Halt, e))
        },
        1 => {
            assert(shape(1) =~= seq![Slot::Reg, Slot::Param]);
            match src.operands_rp(e) {
                Ok((a, b, end)) => Ok((Instruction::SetReg(a, b), end)),
                Err(at) => Err(at),
            }
        },
        2 => {
            assert(shape(2) =~= seq![Slot::Param]);
            match src.operands_p(e) {
                Ok((a, end)) => Ok((Instruction::Push(a), end)),
                Err(at) => Err(at),
            }
        },
        3 => {
            assert(shape(3) =~= seq![Slot::Reg]);
            match src.operands_r(e) {
                Ok((a, end)) => Ok((Instruction::Pop(a), end)),
                Err(at) => Err(at),
            }
        },
        4 => {
            assert(shape(4) =~= seq![Slot::Reg, Slot::Param, Slot::Param]);
            match src.operands_rpp(e) {
                Ok((a, b, c, end)) => Ok((Instruction::Eq(a, b, c), end)),
                Err(at) => Err(at),
            }
        },
        5 => {
            assert(shape(5) =~= seq![Slot::Reg, Slot::Param, Slot::Param]);
            match src.operands_rpp(e) {
                Ok((a, b, c, end)) => Ok((Instruction::Gt(a, b, c), end)),
                Err(at) => Err(at),
            }
        },
        6 => {
            assert(shape(6) =~= seq![Slot::Param]);
            match src.operands_p(e) {
                Ok((a, end)) => Ok((Instruction::Jmp(a), end)),
                Err(at) => Err(at),
            }
        },
        7 => {
            assert(shape(7) =~= seq![Slot::Param, Slot::Param]);
            match src.operands_pp(e) {
                Ok((a, b, end)) => Ok((Instruction::Jt(a, b), end)),
                Err(at) => Err(at),
            }
        },
        8 => {
            assert(shape(8) =~= seq![Slot::Param, Slot::Param]);
            match src.operands_pp(e) {
                Ok((a, b, end)) => Ok((Instruction::Jf(a, b), end)),
                Err(at) => Err(at),
            }
        },
        9 => {
            assert(shape(9) =~= seq![Slot::Reg, Slot::Param, Slot::Param]);
            match src.operands_rpp(e) {
                Ok((a, b, c, end)) => Ok((Instruction::Add(a, b, c), end)),
                Err(at) => Err(at),
            }
        },
        10 => {
            assert(shape(10) =~= seq![Slot::Reg, Slot::Param, Slot::Param]);
            match src.operands_rpp(e) {
                Ok((a, b, c, end)) => Ok((Instruction::Mult(a, b, c), end)),
                Err(at) => Err(at),
            }
        },
        11 => {
            assert(shape(11) =~= seq![Slot::Reg, Slot::Param, Slot::Param]);
            match src.operands_rpp(e) {
                Ok((a, b, c, end)) => Ok((Instruction::Mod(a, b, c), end)),
                Err(at) => Err(at),
            }
        },
        12 => {
            assert(shape(12) =~= seq![Slot::Reg, Slot::Param, Slot::Param]);
            match src.operands_rpp(e) {
                Ok((a, b, c, end)) => Ok((Instruction::And(a, b, c), end)),
                Err(at) => Err(at),
            }
        },
        13 => {
            assert(shape(13) =~= seq![Slot::Reg, Slot::Param, Slot::Param]);
            match src.operands_rpp(e) {
                Ok((a, b, c, end)) => Ok((Instruction::Or(a, b, c), end)),
                Err(at) => Err(at),
            }
        },
        14 => {
            assert(shape(14) =~= seq![Slot::Reg, Slot::Param]);
            match src.operands_rp(e) {
                Ok((a, b, end)) => Ok((Instruction::Not(a, b), end)),
                Err(at) => Err(at),
            }
        },
        15 => {
            assert(shape(15) =~= seq![Slot::Reg, Slot::Param]);
            match src.operands_rp(e) {
                Ok((a, b, end)) => Ok((Instruction::Rmem(a, b), end)),
                Err(at) => Err(at),
            }
        },
        16 => {
            assert(shape(16) =~= seq![Slot::Param, Slot::Param]);
            match src.operands_pp(e) {
                Ok((a, b, end)) => Ok((Instruction::Wmem(a, b), end)),
                Err(at) => Err(at),
            }
        },
        17 => {
            assert(shape(17) =~= seq![Slot::Param]);
            match src.operands_p(e) {
                Ok((a, end)) => Ok((Instruction::Call(a), end)),
                Err(at) => Err(at),
            }
        },
        18 => {
            assert(Instruction::Ret@.operands =~= Seq::<Operand>::empty());
            Ok((Instruction::Ret, e))
        },
        19 => {
            assert(shape(19) =~= seq![Slot::Param]);
            match src.operands_p(e) {
                Ok((a, end)) => Ok((Instruction::Out(a), end)),
                Err(at) => Err(at),
            }
        },
        20 => {
            assert(shape(20) =~= seq![Slot::Reg]);
            match src.operands_r(e) {
                Ok((a, end)) => Ok((Instruction::In(a), end)),
                Err(at) => Err(at),
            }
        },
        21 => {
            assert(Instruction::Noop@.operands =~= Seq::<Operand>::empty());
            Ok((Instruction::Noop, e))
        },
        _ => {
            assert(Instruction::Dmp@.operands =~= Seq::<Operand>::empty());
            Ok((Instruction::Dmp, e))
        },
    }
}

/// The element at `p`, with the place where it ends; or the place of
/// what is wrong.
pub fn parse_elem(src: &Source, p: usize) -> (r: Result<(ProgramElement, usize), usize>)
    requires
        p <= src@.len(),
    ensures
        match r {
            Ok((element, e)) => element_at(src@, p as int) == Ok::<(Element, int), int>(
                (element@, e as int),
            ) && p < e <= src@.len(),
            Err(at) => element_at(src@, p as int) == Err::<(Element, int), int>(at as int)
                && p <= at <= src@.len(),
        },
{
    let n = src.scan_name(p);
    if n > p && n < src.len() && src.char_at(n) == ':' {
        Ok((ProgramElement::Label(src.slice(p, n)), n + 1))
    } else {
        match parse_instruction(src, p) {
            Ok((i, e)) => Ok((ProgramElement::Instruction(i), e)),
            Err(at) => Err(at),
        }
    }
}

/// Parses an assembly text. The result is its elements in the order of
/// the text, or the line and the column, both counted from 0, of the first
/// thing in it that is neither whitespace, comment, label definition nor
/// instruction.
pub fn parse(src: &str) -> (r: Result<Vec<ProgramElement>, (usize, usize)>)
    ensures
        match parse_text(src@) {
            Ok(prog) => r is Ok && program(r->Ok_0@) == prog,
            Err(at) => r == Err::<Vec<ProgramElement>, (usize, usize)>(
                (line_of(src@, at) as usize, column_of(src@, at) as usize),
            ) && line_of(src@, at) <= at && column_of(src@, at) <= at && at <= src@.len()
                <= usize::MAX,
        },
{
    let source = Source::new(src);
    let mut elements: Vec<ProgramElement> = Vec::new();
    let mut p: usize = 0;
    assert(program(elements@) + Seq::<Element>::empty() =~= Seq::<Element>::empty());
    loop
        invariant
            p <= source@.len(),
            source@ == src@,
            parse_text(src@) == followed_by(program(elements@), elements_from(src@, p as int)),
        decreases source@.len() - p,
    {
        let q = source.skip(p);
        if q >= source.len() {
            assert(program(elements@) + Seq::<Element>::empty() =~= program(elements@));
            return Ok(elements);
        }
        match parse_elem(&source, q) {
            Err(at) => {
                let found = source.position(at);
                proof {
                    lemma_position_bounds(src@, at as int);
                }
                return Err(found);
            },
            Ok((element, e)) => {
                let ghost before = program(elements@);
                let ghost model = element@;
                elements.push(element);
                proof {
                    assert(program(elements@) =~= before + seq![model]);
                    match elements_from(src@, e as int) {
                        Ok(rest) => {
                            assert(before + (seq![model] + rest) =~= (before + seq![model]) + rest);
                        },
                        Err(_) => {},
                    }
                }
                p = e;
            },
        }
    }
}

} // verus!
