use rustacor::instruction::{Instruction, Parameter, Register};

fn encode(i: &Instruction) -> Vec<u8> {
    let mut out = Vec::new();
    i.write(&mut out);
    out
}

#[test]
fn it_works() {}

#[test]
fn register_words_start_at_0x8000() {
    assert_eq!(Register(0).to_word(), 0x8000);
    assert_eq!(Register(7).to_word(), 0x8007);
    assert_eq!(Register(8).to_word(), 0x8008);
}

#[test]
fn register_from_word_takes_the_distance_from_0x8000() {
    assert_eq!(Register::from(0x8000), Register(0));
    assert_eq!(Register::from(0x8007), Register(7));
    assert_eq!(Register::from(0x8008), Register(8));
    assert_eq!(Register::from(0x8100), Register(0x100));
    assert_eq!(Register::from(0xFFFF), Register(0x7FFF));
    assert_eq!(Register::from(5), Register(0x8005));
}

#[test]
fn register_word_round_trip_on_every_word() {
    let mut w: u32 = 0;
    while w <= 0xFFFF {
        assert_eq!(Register::from(w as u16).to_word(), w as u16);
        w += 1;
    }
}

#[test]
fn parameter_from_word_splits_at_0x8000() {
    assert_eq!(Parameter::from(0), Parameter::Literal(0));
    assert_eq!(Parameter::from(0x7FFF), Parameter::Literal(0x7FFF));
    assert_eq!(Parameter::from(0x8000), Parameter::Register(Register(0)));
    assert_eq!(Parameter::from(0x8007), Parameter::Register(Register(7)));
    assert_eq!(Parameter::from(0x8008), Parameter::Register(Register(8)));
}

#[test]
fn parameter_words() {
    assert_eq!(Parameter::Literal(65).to_word(), 65);
    assert_eq!(Parameter::Literal(0x7FFF).to_word(), 0x7FFF);
    assert_eq!(Parameter::Register(Register(3)).to_word(), 0x8003);
}

#[test]
fn parameter_word_round_trip_on_every_word() {
    let mut w: u32 = 0;
    while w <= 0xFFFF {
        assert_eq!(Parameter::from(w as u16).to_word(), w as u16);
        w += 1;
    }
}

#[test]
fn duplicate_keeps_the_parameter() {
    let label = Parameter::Label("loop".to_string());
    assert_eq!(label.duplicate(), label);
    assert_eq!(Parameter::Literal(9).duplicate(), Parameter::Literal(9));
    assert_eq!(
        Parameter::Register(Register(2)).duplicate(),
        Parameter::Register(Register(2))
    );
}

#[test]
fn len_by_idx_follows_the_opcode_table() {
    let expected: [(u16, u16); 23] = [
        (0, 1),
        (1, 3),
        (2, 2),
        (3, 2),
        (4, 4),
        (5, 4),
        (6, 2),
        (7, 3),
        (8, 3),
        (9, 4),
        (10, 4),
        (11, 4),
        (12, 4),
        (13, 4),
        (14, 3),
        (15, 3),
        (16, 3),
        (17, 2),
        (18, 1),
        (19, 2),
        (20, 2),
        (21, 1),
        (0xff, 1),
    ];
    for (idx, len) in expected {
        assert_eq!(Instruction::len_by_idx(idx), len);
    }
}

#[test]
fn idx_and_len_of_each_instruction() {
    let r = Register(1);
    let p = || Parameter::Literal(2);
    let all = vec![
        (Instruction::Halt, 0, 1),
        (Instruction::SetReg(r, p()), 1, 3),
        (Instruction::Push(p()), 2, 2),
        (Instruction::Pop(r), 3, 2),
        (Instruction::Eq(r, p(), p()), 4, 4),
        (Instruction::Gt(r, p(), p()), 5, 4),
        (Instruction::Jmp(p()), 6, 2),
        (Instruction::Jt(p(), p()), 7, 3),
        (Instruction::Jf(p(), p()), 8, 3),
        (Instruction::Add(r, p(), p()), 9, 4),
        (Instruction::Mult(r, p(), p()), 10, 4),
        (Instruction::Mod(r, p(), p()), 11, 4),
        (Instruction::And(r, p(), p()), 12, 4),
        (Instruction::Or(r, p(), p()), 13, 4),
        (Instruction::Not(r, p()), 14, 3),
        (Instruction::Rmem(r, p()), 15, 3),
        (Instruction::Wmem(p(), p()), 16, 3),
        (Instruction::Call(p()), 17, 2),
        (Instruction::Ret, 18, 1),
        (Instruction::Out(p()), 19, 2),
        (Instruction::In(r), 20, 2),
        (Instruction::Noop, 21, 1),
        (Instruction::Dmp, 0xff, 1),
    ];
    for (i, idx, len) in all {
        assert_eq!(i.idx(), idx);
        assert_eq!(i.len(), len);
        assert_eq!(encode(&i).len(), 2 * len as usize);
    }
}

#[test]
fn write_gives_little_endian_words() {
    assert_eq!(encode(&Instruction::Halt), vec![0, 0]);
    assert_eq!(
        encode(&Instruction::Out(Parameter::Literal(65))),
        vec![19, 0, 65, 0]
    );
    assert_eq!(
        encode(&Instruction::Out(Parameter::Literal(0x1234))),
        vec![19, 0, 0x34, 0x12]
    );
    assert_eq!(
        encode(&Instruction::SetReg(Register(0), Parameter::Literal(32767))),
        vec![1, 0, 0x00, 0x80, 0xFF, 0x7F]
    );
    assert_eq!(
        encode(&Instruction::Add(
            Register(1),
            Parameter::Register(Register(0)),
            Parameter::Register(Register(7))
        )),
        vec![9, 0, 0x01, 0x80, 0x00, 0x80, 0x07, 0x80]
    );
    assert_eq!(encode(&Instruction::Dmp), vec![0xff, 0]);
}

#[test]
fn write_appends_to_what_is_there() {
    let mut out = vec![7u8, 8, 9];
    Instruction::Jt(Parameter::Literal(1), Parameter::Literal(0x0203)).write(&mut out);
    assert_eq!(out, vec![7, 8, 9, 7, 0, 1, 0, 3, 2]);
}
