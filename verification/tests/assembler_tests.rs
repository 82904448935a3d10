use rustacor::assembler::{
    assemble, decimal, describe_position, locate_labels, reify_instruction, reify_label, reify_labels, write_program,
    AssemblerError, LabelTable, ProgramElement,
};
use rustacor::instruction::{Instruction, Parameter, Register};
use rustacor::parser::parse;

fn lit(v: u16) -> Parameter {
    Parameter::Literal(v)
}

fn label(name: &str) -> Parameter {
    Parameter::Label(name.to_string())
}

fn name(s: &str) -> String {
    s.to_string()
}

fn words(bytes: &[u8]) -> Vec<u16> {
    assert_eq!(bytes.len() % 2, 0);
    bytes
        .chunks(2)
        .map(|c| c[0] as u16 | (c[1] as u16) << 8)
        .collect()
}

fn assembled(src: &str) -> Vec<u16> {
    let mut out = Vec::new();
    assemble(&mut out, src).expect("the program assembles");
    words(&out)
}

#[test]
fn sizes_of_elements() {
    assert_eq!(ProgramElement::Label(name("a")).size(), 0);
    assert_eq!(ProgramElement::Instruction(Instruction::Halt).size(), 1);
    assert_eq!(
        ProgramElement::Instruction(Instruction::Add(Register(0), lit(1), lit(2))).size(),
        4
    );
    assert_eq!(ProgramElement::Data(vec![]).size(), 0);
    assert_eq!(ProgramElement::Data(vec![1, 2, 3]).size(), 3);
}

#[test]
fn size_of_data_is_taken_as_a_word() {
    assert_eq!(ProgramElement::Data(vec![0; 65535]).size(), 65535);
    assert_eq!(ProgramElement::Data(vec![0; 65536]).size(), 0);
    assert_eq!(ProgramElement::Data(vec![0; 70000]).size(), 4464);
}

#[test]
fn label_table_keeps_the_last_address_of_a_name() {
    let mut t = LabelTable::new();
    assert_eq!(t.get(&name("a")), None);
    t.insert(name("a"), 1);
    t.insert(name("b"), 2);
    assert_eq!(t.get(&name("a")), Some(1));
    assert_eq!(t.get(&name("b")), Some(2));
    assert_eq!(t.get(&name("c")), None);
    t.insert(name("a"), 3);
    assert_eq!(t.get(&name("a")), Some(3));
    assert_eq!(t.get(&name("b")), Some(2));
    assert_eq!(t.get(&name("")), None);
}

#[test]
fn labels_get_the_sum_of_the_sizes_before_them() {
    let prog = vec![
        ProgramElement::Label(name("zero")),
        ProgramElement::Instruction(Instruction::Jmp(label("end"))),
        ProgramElement::Label(name("two")),
        ProgramElement::Label(name("also_two")),
        ProgramElement::Data(vec![9, 9, 9]),
        ProgramElement::Instruction(Instruction::Add(Register(0), lit(1), lit(2))),
        ProgramElement::Label(name("nine")),
        ProgramElement::Instruction(Instruction::Halt),
        ProgramElement::Label(name("end")),
    ];
    let t = locate_labels(&prog);
    assert_eq!(t.get(&name("zero")), Some(0));
    assert_eq!(t.get(&name("two")), Some(2));
    assert_eq!(t.get(&name("also_two")), Some(2));
    assert_eq!(t.get(&name("nine")), Some(9));
    assert_eq!(t.get(&name("end")), Some(10));
    assert_eq!(t.get(&name("main")), None);
}

#[test]
fn the_last_definition_of_a_label_wins() {
    let prog = parse("a:\nnoop\na:\nnoop\nnoop\na:\nhalt").unwrap();
    assert_eq!(locate_labels(&prog).get(&name("a")), Some(3));
    assert_eq!(assembled("jmp :a\na:\nnoop\na:\nhalt"), vec![6, 3, 21, 0]);
}

#[test]
fn label_addresses_wrap_at_65536() {
    let prog = vec![
        ProgramElement::Data(vec![0; 65535]),
        ProgramElement::Label(name("last")),
        ProgramElement::Instruction(Instruction::Noop),
        ProgramElement::Label(name("wrapped")),
        ProgramElement::Instruction(Instruction::Jmp(lit(0))),
        ProgramElement::Label(name("two")),
    ];
    let t = locate_labels(&prog);
    assert_eq!(t.get(&name("last")), Some(65535));
    assert_eq!(t.get(&name("wrapped")), Some(0));
    assert_eq!(t.get(&name("two")), Some(2));
}

#[test]
fn reify_label_replaces_labels_only() {
    let mut t = LabelTable::new();
    t.insert(name("here"), 42);
    assert_eq!(reify_label(&label("here"), &t), Ok(lit(42)));
    assert_eq!(reify_label(&label("there"), &t), Err(name("there")));
    assert_eq!(reify_label(&lit(7), &t), Ok(lit(7)));
    assert_eq!(
        reify_label(&Parameter::Register(Register(3)), &t),
        Ok(Parameter::Register(Register(3)))
    );
}

#[test]
fn reify_instruction_names_the_first_unknown_label() {
    let mut t = LabelTable::new();
    t.insert(name("k"), 5);
    assert_eq!(
        reify_instruction(&Instruction::Jt(label("k"), label("k")), &t),
        Ok(Instruction::Jt(lit(5), lit(5)))
    );
    assert_eq!(
        reify_instruction(&Instruction::Jt(label("x"), label("y")), &t),
        Err(name("x"))
    );
    assert_eq!(
        reify_instruction(&Instruction::Jt(label("k"), label("y")), &t),
        Err(name("y"))
    );
    assert_eq!(
        reify_instruction(&Instruction::Add(Register(1), label("y"), label("x")), &t),
        Err(name("y"))
    );
    assert_eq!(
        reify_instruction(&Instruction::Pop(Register(9)), &t),
        Ok(Instruction::Pop(Register(9)))
    );
    assert_eq!(reify_instruction(&Instruction::Ret, &t), Ok(Instruction::Ret));
}

#[test]
fn reify_labels_leaves_no_label() {
    let mut prog = parse(
        "a: set $0 :a\npush :b\neq $1 :a :b\ngt $1 :b :a\njmp :a\njt :a :b\njf :b :a\nb:
add $2 :a :b\nmult $2 :a :b\nmod $2 :a :b\nand $2 :a :b\nor $2 :a :b\nnot $3 :b
rmem $4 :b\nwmem :a :b\ncall :b\nout :b\nhalt",
    )
    .unwrap();
    let t = locate_labels(&prog);
    assert_eq!(t.get(&name("a")), Some(0));
    assert_eq!(t.get(&name("b")), Some(21));
    assert_eq!(reify_labels(&mut prog, &t), Ok(()));
    let (a, b) = (|| lit(0), || lit(21));
    assert_eq!(
        prog,
        vec![
            ProgramElement::Label(name("a")),
            ProgramElement::Instruction(Instruction::SetReg(Register(0), a())),
            ProgramElement::Instruction(Instruction::Push(b())),
            ProgramElement::Instruction(Instruction::Eq(Register(1), a(), b())),
            ProgramElement::Instruction(Instruction::Gt(Register(1), b(), a())),
            ProgramElement::Instruction(Instruction::Jmp(a())),
            ProgramElement::Instruction(Instruction::Jt(a(), b())),
            ProgramElement::Instruction(Instruction::Jf(b(), a())),
            ProgramElement::Label(name("b")),
            ProgramElement::Instruction(Instruction::Add(Register(2), a(), b())),
            ProgramElement::Instruction(Instruction::Mult(Register(2), a(), b())),
            ProgramElement::Instruction(Instruction::Mod(Register(2), a(), b())),
            ProgramElement::Instruction(Instruction::And(Register(2), a(), b())),
            ProgramElement::Instruction(Instruction::Or(Register(2), a(), b())),
            ProgramElement::Instruction(Instruction::Not(Register(3), b())),
            ProgramElement::Instruction(Instruction::Rmem(Register(4), b())),
            ProgramElement::Instruction(Instruction::Wmem(a(), b())),
            ProgramElement::Instruction(Instruction::Call(b())),
            ProgramElement::Instruction(Instruction::Out(b())),
            ProgramElement::Instruction(Instruction::Halt),
        ]
    );
}

#[test]
fn reify_labels_leaves_registers_and_data_alone() {
    let mut prog = vec![
        ProgramElement::Data(vec![1, 2, 3]),
        ProgramElement::Instruction(Instruction::SetReg(
            Register(1),
            Parameter::Register(Register(2)),
        )),
        ProgramElement::Label(name("l")),
    ];
    let t = locate_labels(&prog);
    assert_eq!(reify_labels(&mut prog, &t), Ok(()));
    assert_eq!(
        prog,
        vec![
            ProgramElement::Data(vec![1, 2, 3]),
            ProgramElement::Instruction(Instruction::SetReg(
                Register(1),
                Parameter::Register(Register(2)),
            )),
            ProgramElement::Label(name("l")),
        ]
    );
}

#[test]
fn reify_labels_stops_at_the_first_unknown_label() {
    let mut prog = parse("a: jmp :a\njt :a :nowhere\njmp :a\njmp :nowhere_else").unwrap();
    let t = locate_labels(&prog);
    assert_eq!(reify_labels(&mut prog, &t), Err(name("nowhere")));
    assert_eq!(
        prog,
        vec![
            ProgramElement::Label(name("a")),
            ProgramElement::Instruction(Instruction::Jmp(lit(0))),
            ProgramElement::Instruction(Instruction::Jt(label("a"), label("nowhere"))),
            ProgramElement::Instruction(Instruction::Jmp(label("a"))),
            ProgramElement::Instruction(Instruction::Jmp(label("nowhere_else"))),
        ]
    );
}

#[test]
fn write_program_emits_instructions_and_data() {
    let prog = vec![
        ProgramElement::Label(name("start")),
        ProgramElement::Instruction(Instruction::Out(lit(0x4142))),
        ProgramElement::Data(vec![0x0102, 0xFFFE]),
        ProgramElement::Label(name("end")),
        ProgramElement::Instruction(Instruction::Pop(Register(7))),
    ];
    let mut out = vec![0xAAu8];
    write_program(&mut out, &prog);
    assert_eq!(
        out,
        vec![0xAA, 19, 0, 0x42, 0x41, 0x02, 0x01, 0xFE, 0xFF, 3, 0, 0x07, 0x80]
    );
}

#[test]
fn write_program_of_nothing_writes_nothing() {
    let mut out = Vec::new();
    write_program(&mut out, &vec![]);
    write_program(&mut out, &vec![ProgramElement::Label(name("only"))]);
    write_program(&mut out, &vec![ProgramElement::Data(vec![])]);
    assert_eq!(out, Vec::<u8>::new());
}

#[test]
fn assemble_minimal_output() {
    let mut out = Vec::new();
    assert!(assemble(&mut out, "out 65\nhalt").is_ok());
    assert_eq!(out, vec![19, 0, 65, 0, 0, 0]);
}

#[test]
fn assemble_resolves_forward_and_backward_labels() {
    assert_eq!(
        assembled("jmp :end\nout 65\nend:\nhalt"),
        vec![6, 4, 19, 65, 0]
    );
    assert_eq!(
        assembled("top:\nnoop\njt $0 :top\ncall :top\nhalt"),
        vec![21, 7, 0x8000, 0, 17, 0, 0]
    );
}

#[test]
fn assemble_encodes_registers_and_literals() {
    assert_eq!(
        assembled("set $0 32767\nadd $1 $0 $0\nhalt"),
        vec![1, 0x8000, 32767, 9, 0x8001, 0x8000, 0x8000, 0]
    );
    assert_eq!(assembled("out 'A'\nout x41\ndmp"), vec![19, 65, 19, 65, 0xff]);
}

#[test]
fn assemble_appends_to_the_sink() {
    let mut out = vec![1u8, 2, 3];
    assert!(assemble(&mut out, "halt").is_ok());
    assert_eq!(out, vec![1, 2, 3, 0, 0]);
    assert!(assemble(&mut out, "").is_ok());
    assert_eq!(out, vec![1, 2, 3, 0, 0]);
}

#[test]
fn assemble_reports_the_unknown_label_and_writes_nothing() {
    let mut out = vec![9u8];
    match assemble(&mut out, "out 1\njmp :nowhere\nhalt") {
        Err(AssemblerError::LabelResolveError(n)) => assert_eq!(n, "nowhere"),
        other => panic!("unexpected result {:?}", other),
    }
    assert_eq!(out, vec![9]);
}

#[test]
fn assemble_reports_the_place_of_a_parse_error_and_writes_nothing() {
    let mut out = vec![9u8];
    match assemble(&mut out, "out 1\n  jmp ?\nhalt") {
        Err(AssemblerError::ParserError(msg)) => {
            assert_eq!(msg, "unexpected input at line 1, column 6")
        }
        other => panic!("unexpected result {:?}", other),
    }
    assert_eq!(out, vec![9]);
    match assemble(&mut out, "out 1\nhalt\n   what") {
        Err(AssemblerError::ParserError(msg)) => {
            assert_eq!(msg, "unexpected input at line 2, column 3")
        }
        other => panic!("unexpected result {:?}", other),
    }
}

#[test]
fn a_parse_error_comes_before_a_label_error() {
    let mut out = Vec::new();
    assert!(matches!(
        assemble(&mut out, "jmp :nowhere\nbogus"),
        Err(AssemblerError::ParserError(_))
    ));
}

#[test]
fn decimal_writes_numbers_without_leading_zeros() {
    assert_eq!(decimal(0), "0");
    assert_eq!(decimal(7), "7");
    assert_eq!(decimal(9), "9");
    assert_eq!(decimal(10), "10");
    assert_eq!(decimal(1234567890), "1234567890");
    assert_eq!(decimal(usize::MAX), usize::MAX.to_string());
}

#[test]
fn describe_position_names_line_and_column() {
    assert_eq!(
        describe_position(0, 0),
        "unexpected input at line 0, column 0"
    );
    assert_eq!(
        describe_position(12, 345),
        "unexpected input at line 12, column 345"
    );
}
