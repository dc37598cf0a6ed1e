use corewars::load_file::{Field, Instruction, Opcode};
use corewars::parser::{parse, Result};

#[test]
fn dump_warrior() {
    let warrior = match parse(";redcode\n;name Imp\n;author A. K. Dewdney\nstart mov.i 0, 1\nend start") {
        Result::Success(w, _) => w,
        Result::Failure(err, _) => panic!("failed to parse: {}", err.message()),
    };
    assert_eq!(warrior.to_string(), ";redcode\n;name Imp\n;author A. K. Dewdney\nORG     0\nMOV.I   $0,     $1");
}

#[test]
fn dump_instruction() {
    let instruction = Instruction::new(Opcode::Mov, Field::direct(-100), Field::immediate(1));
    assert_eq!(instruction.to_string(), "MOV.B   $-100,  #1");
}
