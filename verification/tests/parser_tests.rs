use rustacor::assembler::ProgramElement;
use rustacor::instruction::{Instruction, Parameter, Register};
use rustacor::parser::{
    parse, parse_elem, parse_instruction, parse_param, parse_reg, Source,
};

fn lit(v: u16) -> Parameter {
    Parameter::Literal(v)
}

fn reg(i: u16) -> Parameter {
    Parameter::Register(Register(i))
}

fn label(name: &str) -> Parameter {
    Parameter::Label(name.to_string())
}

fn ins(i: Instruction) -> ProgramElement {
    ProgramElement::Instruction(i)
}

fn def(name: &str) -> ProgramElement {
    ProgramElement::Label(name.to_string())
}

#[test]
fn test() {
    let x = parse("; KNOTHASH SYNACOR VM ASM
; STORES MAIN STATE IN 0x4000-0x40ff
; STORES DENSE HASH IN 0x4100-0x410f
jmp :main
xor:
    ; $6 = x & ~y
    not $6 $2
    and $6 $1 $6

    ; $7 = ~y & y
    not $7 $1
    and $7 $7 $2

    ; $0 = $6 | $7
    or $0 $6 $7
    ret");
    match x {
        Ok(_) => println!("{:?}", x),
        Err(e) => println!("{:?}", e),
    }
}

#[test]
fn the_knot_hash_fragment_parses_to_its_elements() {
    let x = parse("; KNOTHASH SYNACOR VM ASM
; STORES MAIN STATE IN 0x4000-0x40ff
; STORES DENSE HASH IN 0x4100-0x410f
jmp :main
xor:
    ; $6 = x & ~y
    not $6 $2
    and $6 $1 $6

    ; $7 = ~y & y
    not $7 $1
    and $7 $7 $2

    ; $0 = $6 | $7
    or $0 $6 $7
    ret");
    assert_eq!(
        x,
        Ok(vec![
            ins(Instruction::Jmp(label("main"))),
            def("xor"),
            ins(Instruction::Not(Register(6), reg(2))),
            ins(Instruction::And(Register(6), reg(1), reg(6))),
            ins(Instruction::Not(Register(7), reg(1))),
            ins(Instruction::And(Register(7), reg(7), reg(2))),
            ins(Instruction::Or(Register(0), reg(6), reg(7))),
            ins(Instruction::Ret),
        ])
    );
}

#[test]
fn empty_text_is_the_empty_program() {
    assert_eq!(parse(""), Ok(vec![]));
    assert_eq!(parse("  \t\r\n\n"), Ok(vec![]));
    assert_eq!(parse("; nothing here"), Ok(vec![]));
    assert_eq!(parse("; nothing here\n   ; nor here\n"), Ok(vec![]));
}

#[test]
fn every_mnemonic() {
    let src = "halt
set $1 2
push 3
pop $4
eq $5 6 7
gt $6 7 8
jmp 9
jt 10 11
jf 12 13
add $7 14 15
mult $0 16 17
mod $1 18 19
and $2 20 21
or $3 22 23
not $4 24
rmem $5 25
wmem 26 27
call 28
ret
out 29
in $6
noop
dmp";
    assert_eq!(
        parse(src),
        Ok(vec![
            ins(Instruction::Halt),
            ins(Instruction::SetReg(Register(1), lit(2))),
            ins(Instruction::Push(lit(3))),
            ins(Instruction::Pop(Register(4))),
            ins(Instruction::Eq(Register(5), lit(6), lit(7))),
            ins(Instruction::Gt(Register(6), lit(7), lit(8))),
            ins(Instruction::Jmp(lit(9))),
            ins(Instruction::Jt(lit(10), lit(11))),
            ins(Instruction::Jf(lit(12), lit(13))),
            ins(Instruction::Add(Register(7), lit(14), lit(15))),
            ins(Instruction::Mult(Register(0), lit(16), lit(17))),
            ins(Instruction::Mod(Register(1), lit(18), lit(19))),
            ins(Instruction::And(Register(2), lit(20), lit(21))),
            ins(Instruction::Or(Register(3), lit(22), lit(23))),
            ins(Instruction::Not(Register(4), lit(24))),
            ins(Instruction::Rmem(Register(5), lit(25))),
            ins(Instruction::Wmem(lit(26), lit(27))),
            ins(Instruction::Call(lit(28))),
            ins(Instruction::Ret),
            ins(Instruction::Out(lit(29))),
            ins(Instruction::In(Register(6))),
            ins(Instruction::Noop),
            ins(Instruction::Dmp),
        ])
    );
}

#[test]
fn every_kind_of_parameter() {
    assert_eq!(parse("out 123"), Ok(vec![ins(Instruction::Out(lit(123)))]));
    assert_eq!(parse("out 0"), Ok(vec![ins(Instruction::Out(lit(0)))]));
    assert_eq!(parse("out 007"), Ok(vec![ins(Instruction::Out(lit(7)))]));
    assert_eq!(parse("out x1A2B"), Ok(vec![ins(Instruction::Out(lit(0x1A2B)))]));
    assert_eq!(parse("out xabcd"), Ok(vec![ins(Instruction::Out(lit(0xABCD)))]));
    assert_eq!(parse("out xF"), Ok(vec![ins(Instruction::Out(lit(15)))]));
    assert_eq!(parse("out 'A'"), Ok(vec![ins(Instruction::Out(lit(65)))]));
    assert_eq!(parse("out $0"), Ok(vec![ins(Instruction::Out(reg(0)))]));
    assert_eq!(parse("out $7"), Ok(vec![ins(Instruction::Out(reg(7)))]));
    assert_eq!(
        parse("out :name"),
        Ok(vec![ins(Instruction::Out(label("name")))])
    );
}

#[test]
fn decimal_literals_go_up_to_65535() {
    assert_eq!(parse("out 65535"), Ok(vec![ins(Instruction::Out(lit(65535)))]));
    assert_eq!(
        parse("out 0000000000000000065535"),
        Ok(vec![ins(Instruction::Out(lit(65535)))])
    );
    assert_eq!(parse("out 65536"), Err((0, 4)));
    assert_eq!(parse("out 99999999999999999999999999"), Err((0, 4)));
}

#[test]
fn hexadecimal_literals_have_one_to_four_digits() {
    assert_eq!(parse("out x0"), Ok(vec![ins(Instruction::Out(lit(0)))]));
    assert_eq!(parse("out xFFFF"), Ok(vec![ins(Instruction::Out(lit(0xFFFF)))]));
    assert_eq!(parse("out x"), Err((0, 4)));
    assert_eq!(parse("out x12345"), Err((0, 4)));
    assert_eq!(parse("out x12G"), Err((0, 4)));
}

#[test]
fn character_literals_stand_for_their_code_point() {
    assert_eq!(parse("out ' '"), Ok(vec![ins(Instruction::Out(lit(32)))]));
    assert_eq!(parse("out ';'"), Ok(vec![ins(Instruction::Out(lit(59)))]));
    assert_eq!(parse("out '''"), Ok(vec![ins(Instruction::Out(lit(39)))]));
    assert_eq!(parse("out '\n'"), Ok(vec![ins(Instruction::Out(lit(10)))]));
    assert_eq!(parse("out 'é'"), Ok(vec![ins(Instruction::Out(lit(0xE9)))]));
    assert_eq!(parse("out '€'"), Ok(vec![ins(Instruction::Out(lit(0x20AC)))]));
    assert_eq!(parse("out '😀'"), Ok(vec![ins(Instruction::Out(lit(0xF600)))]));
    assert_eq!(parse("out 'ab'"), Err((0, 4)));
    assert_eq!(parse("out ''"), Err((0, 4)));
    assert_eq!(parse("out 'a"), Err((0, 4)));
}

#[test]
fn registers_go_from_0_to_7() {
    assert_eq!(parse("pop $8"), Err((0, 4)));
    assert_eq!(parse("pop $9"), Err((0, 4)));
    assert_eq!(parse("pop $"), Err((0, 4)));
    assert_eq!(parse("pop $10"), Err((0, 4)));
    assert_eq!(parse("pop $a"), Err((0, 4)));
    assert_eq!(parse("out $8"), Err((0, 4)));
}

#[test]
fn a_register_slot_takes_a_register_only() {
    assert_eq!(parse("pop 5"), Err((0, 4)));
    assert_eq!(parse("set 1 2"), Err((0, 4)));
    assert_eq!(parse("in :name"), Err((0, 3)));
    assert_eq!(parse("add 'a' 1 2"), Err((0, 4)));
}

#[test]
fn names_hold_anything_but_whitespace_and_colons() {
    assert_eq!(parse("hi.there_1:"), Ok(vec![def("hi.there_1")]));
    assert_eq!(parse("$0:"), Ok(vec![def("$0")]));
    assert_eq!(parse("a;b:"), Ok(vec![def("a;b")]));
    assert_eq!(parse("größe:"), Ok(vec![def("größe")]));
    assert_eq!(
        parse("jmp :hi.there_1"),
        Ok(vec![ins(Instruction::Jmp(label("hi.there_1")))])
    );
    assert_eq!(
        parse("jmp :a;b ; comment"),
        Ok(vec![ins(Instruction::Jmp(label("a;b")))])
    );
}

#[test]
fn a_mnemonic_before_a_colon_is_a_label() {
    assert_eq!(parse("halt:"), Ok(vec![def("halt")]));
    assert_eq!(
        parse("noop:\nnoop"),
        Ok(vec![def("noop"), ins(Instruction::Noop)])
    );
}

#[test]
fn labels_stand_alone_or_before_an_instruction() {
    assert_eq!(
        parse("start: halt"),
        Ok(vec![def("start"), ins(Instruction::Halt)])
    );
    assert_eq!(
        parse("start:halt"),
        Ok(vec![def("start"), ins(Instruction::Halt)])
    );
    assert_eq!(parse("a:b:"), Ok(vec![def("a"), def("b")]));
    assert_eq!(parse("a:\n\nb:\n"), Ok(vec![def("a"), def("b")]));
}

#[test]
fn comments_run_to_the_end_of_the_line() {
    assert_eq!(
        parse("halt;Stop it\nnoop ; and go on"),
        Ok(vec![ins(Instruction::Halt), ins(Instruction::Noop)])
    );
    assert_eq!(
        parse("  add $0 1 2 ;Add two numbers  \n test:;Label   \nhalt;Stop it"),
        Ok(vec![
            ins(Instruction::Add(Register(0), lit(1), lit(2))),
            def("test"),
            ins(Instruction::Halt),
        ])
    );
    assert_eq!(
        parse("out ; the operand follows\n 65;done"),
        Ok(vec![ins(Instruction::Out(lit(65)))])
    );
    assert_eq!(parse("; a: b: halt"), Ok(vec![]));
}

#[test]
fn whitespace_of_any_kind_separates() {
    assert_eq!(
        parse("\tadd\t$0\r\n1\n\n   2\r\nhalt"),
        Ok(vec![
            ins(Instruction::Add(Register(0), lit(1), lit(2))),
            ins(Instruction::Halt),
        ])
    );
}

#[test]
fn tokens_must_be_separated() {
    assert_eq!(parse("haltnoop"), Err((0, 0)));
    assert_eq!(parse("retret"), Err((0, 0)));
    assert_eq!(parse("out65"), Err((0, 0)));
    assert_eq!(parse("out 65halt"), Err((0, 4)));
    assert_eq!(parse("set $0$1"), Err((0, 4)));
    assert_eq!(parse("jmp :a:"), Err((0, 4)));
}

#[test]
fn mnemonics_are_lower_case() {
    assert_eq!(parse("HALT"), Err((0, 0)));
    assert_eq!(parse("Halt"), Err((0, 0)));
    assert_eq!(parse("ste $0 $2"), Err((0, 0)));
}

#[test]
fn missing_operands_are_found_where_they_should_stand() {
    assert_eq!(parse("out"), Err((0, 3)));
    assert_eq!(parse("out   "), Err((0, 6)));
    assert_eq!(parse("add $0"), Err((0, 6)));
    assert_eq!(parse("add $0 $2"), Err((0, 9)));
    assert_eq!(parse("add $0 1\nhalt"), Err((1, 0)));
    assert_eq!(parse("set"), Err((0, 3)));
}

#[test]
fn surplus_operands_are_no_elements() {
    assert_eq!(parse("halt 5"), Err((0, 5)));
    assert_eq!(parse("out 1 2"), Err((0, 6)));
}

#[test]
fn errors_carry_line_and_column_from_zero() {
    assert_eq!(parse("?"), Err((0, 0)));
    assert_eq!(parse("halt\n  ?"), Err((1, 2)));
    assert_eq!(parse("halt\nnoop\n\n\tout x"), Err((3, 5)));
    assert_eq!(parse("; first\nhalt ; second\nbogus"), Err((2, 0)));
    assert_eq!(parse(":"), Err((0, 0)));
    assert_eq!(parse("a: :"), Err((0, 3)));
}

#[test]
fn columns_count_characters() {
    assert_eq!(parse("é: ü: ?"), Err((0, 6)));
}

#[test]
fn the_first_error_is_reported() {
    assert_eq!(parse("bogus\nout"), Err((0, 0)));
    assert_eq!(parse("out 1\nout ?\nbogus"), Err((1, 4)));
    assert_eq!(parse("out 1\nout\nbogus"), Err((2, 0)));
}

#[test]
fn source_gives_characters_by_position() {
    let src = Source::new("aé:€");
    assert_eq!(src.len(), 4);
    assert_eq!(src.char_at(0), 'a');
    assert_eq!(src.char_at(1), 'é');
    assert_eq!(src.char_at(3), '€');
    assert_eq!(src.slice(1, 3), "é:".to_string());
    assert_eq!(src.slice(2, 2), String::new());
    assert_eq!(src.slice(0, 4), "aé:€".to_string());
}

#[test]
fn position_counts_lines_and_columns() {
    let src = Source::new("ab\ncd\n\nef");
    assert_eq!(src.position(0), (0, 0));
    assert_eq!(src.position(2), (0, 2));
    assert_eq!(src.position(3), (1, 0));
    assert_eq!(src.position(5), (1, 2));
    assert_eq!(src.position(6), (2, 0));
    assert_eq!(src.position(7), (3, 0));
    assert_eq!(src.position(9), (3, 2));
}

#[test]
fn parse_elem_reads_one_element() {
    let src = Source::new("top: set $1 :top ; back\nhalt");
    assert_eq!(parse_elem(&src, 0), Ok((def("top"), 4)));
    assert_eq!(
        parse_elem(&src, 5),
        Ok((ins(Instruction::SetReg(Register(1), label("top"))), 16))
    );
    assert_eq!(parse_elem(&src, 24), Ok((ins(Instruction::Halt), 28)));
    assert_eq!(parse_elem(&src, 4), Err(4));
    assert_eq!(parse_elem(&src, 28), Err(28));
}

#[test]
fn parse_instruction_reads_one_instruction() {
    let src = Source::new("eq $0 'a' x61");
    assert_eq!(
        parse_instruction(&src, 0),
        Ok((Instruction::Eq(Register(0), lit(97), lit(97)), 13))
    );
    assert_eq!(parse_instruction(&src, 3), Err(3));
}

#[test]
fn parse_reg_and_parse_param_read_one_operand() {
    let src = Source::new("$3 $8 77 :x");
    assert_eq!(parse_reg(&src, 0), Some((Register(3), 2)));
    assert_eq!(parse_reg(&src, 3), None);
    assert_eq!(parse_reg(&src, 6), None);
    assert_eq!(parse_param(&src, 0), Some((reg(3), 2)));
    assert_eq!(parse_param(&src, 3), None);
    assert_eq!(parse_param(&src, 6), Some((lit(77), 8)));
    assert_eq!(parse_param(&src, 9), Some((label("x"), 11)));
    assert_eq!(parse_param(&src, 11), None);
}
