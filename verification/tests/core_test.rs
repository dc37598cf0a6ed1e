use corewars::load_file::{AddressMode, Field, Instruction, Modifier, Offset, Opcode, Program, Value, Warrior};
use corewars::parser::{parse, Result};
use corewars::sim::address::EvalTime;
use corewars::sim::process::Error as ProcessError;
use corewars::sim::{apply_a_pointer, apply_b_pointer, resolve_a_pointer, resolve_b_pointer, Core};

fn parsed(source: &str) -> Warrior {
    match parse(source) {
        Result::Success(w, _) => w,
        Result::Failure(err, _) => panic!("Failed to parse warrior: {}", err.message()),
    }
}

fn build_core(program: &str) -> Core {
    let warrior = parsed(program);
    let mut core = Core::new(8000).unwrap();
    core.load_warrior(&warrior).expect("Failed to load warrior");
    core
}

fn offset(value: i32) -> Offset {
    Offset::new(value, 8000)
}

#[test]
fn create_offset() {
    let offset = Offset::new(1234, 12);
    assert_eq!(offset.value(), 10);
}

#[test]
fn set_offset_value() {
    let mut offset = Offset::new(1234, 12);
    offset.set_value(20);
    assert_eq!(offset.value(), 8);
}

#[test]
fn add_to_offset() {
    let mut offset = Offset::new(0, 12);

    assert_eq!(offset.add_i32(20), Offset::new(8, 12));
    assert_eq!(offset.add_offset(Offset::new(20, 12)), Offset::new(8, 12));

    offset = offset.add_i32(20);
    assert_eq!(offset, Offset::new(8, 12));
    offset = offset.add_i32(20);
    assert_eq!(offset, Offset::new(4, 12));
}

const OPCODES: [Opcode; 17] = [
    Opcode::Add,
    Opcode::Cmp,
    Opcode::Dat,
    Opcode::Div,
    Opcode::Djn,
    Opcode::Jmn,
    Opcode::Jmp,
    Opcode::Jmz,
    Opcode::Mod,
    Opcode::Mov,
    Opcode::Mul,
    Opcode::Nop,
    Opcode::SkipEq,
    Opcode::Slt,
    Opcode::Sne,
    Opcode::Spl,
    Opcode::Sub,
];

fn mode_pairs() -> Vec<(AddressMode, AddressMode)> {
    let mut pairs = Vec::new();
    for a in AddressMode::iter_values() {
        for b in AddressMode::iter_values() {
            pairs.push((a, b));
        }
    }
    pairs
}

#[test]
fn dat_default() {
    for (a_mode, b_mode) in mode_pairs() {
        assert_eq!(Modifier::default_88_to_94(Opcode::Dat, a_mode, b_mode), Modifier::F);
    }
    assert_eq!(OPCODES.len(), Opcode::iter_values().len());
}

#[test]
fn modifier_b_default() {
    for opcode in [Opcode::Mov, Opcode::Cmp, Opcode::SkipEq, Opcode::Sne] {
        for a_mode in AddressMode::iter_values() {
            if a_mode != AddressMode::Immediate {
                assert_eq!(Modifier::default_88_to_94(opcode, a_mode, AddressMode::Immediate), Modifier::B);
            }
        }
    }

    for opcode in [Opcode::Add, Opcode::Sub, Opcode::Mul, Opcode::Div, Opcode::Mod] {
        for a_mode in AddressMode::iter_values() {
            if a_mode != AddressMode::Immediate {
                assert_eq!(Modifier::default_88_to_94(opcode, a_mode, AddressMode::Immediate), Modifier::B);
            }
        }
    }

    for (a_mode, b_mode) in mode_pairs() {
        if a_mode != AddressMode::Immediate {
            assert_eq!(Modifier::default_88_to_94(Opcode::Slt, a_mode, b_mode), Modifier::B);
        }
    }

    for opcode in [Opcode::Jmp, Opcode::Jmz, Opcode::Jmn, Opcode::Djn, Opcode::Spl, Opcode::Nop] {
        for (a_mode, b_mode) in mode_pairs() {
            assert_eq!(Modifier::default_88_to_94(opcode, a_mode, b_mode), Modifier::B);
        }
    }
}

#[test]
fn modifier_ab_default() {
    let opcodes = [
        Opcode::Mov,
        Opcode::Cmp,
        Opcode::SkipEq,
        Opcode::Sne,
        Opcode::Add,
        Opcode::Sub,
        Opcode::Mul,
        Opcode::Div,
        Opcode::Mod,
        Opcode::Slt,
    ];
    for opcode in opcodes {
        for b_mode in AddressMode::iter_values() {
            assert_eq!(Modifier::default_88_to_94(opcode, AddressMode::Immediate, b_mode), Modifier::AB);
        }
    }
}

#[test]
fn modifier_i_default() {
    for opcode in [Opcode::Mov, Opcode::Cmp, Opcode::SkipEq, Opcode::Sne] {
        for (a_mode, b_mode) in mode_pairs() {
            if a_mode != AddressMode::Immediate && b_mode != AddressMode::Immediate {
                assert_eq!(Modifier::default_88_to_94(opcode, a_mode, b_mode), Modifier::I);
            }
        }
    }
}

#[test]
fn modifier_f_default() {
    for opcode in [Opcode::Add, Opcode::Sub, Opcode::Mul, Opcode::Div, Opcode::Mod] {
        for (a_mode, b_mode) in mode_pairs() {
            if a_mode != AddressMode::Immediate && b_mode != AddressMode::Immediate {
                assert_eq!(Modifier::default_88_to_94(opcode, a_mode, b_mode), Modifier::F);
            }
        }
    }
}

#[test]
fn value_to_string() {
    assert_eq!(String::from("some_label"), Value::Label(String::from("some_label")).to_string());
    assert_eq!(String::from("123"), Value::Literal(123).to_string());
}

#[test]
fn new_core() {
    let core = Core::new(128).unwrap();
    assert_eq!(core.size(), 128);
}

#[test]
fn load_program() {
    let mut core = Core::new(128).unwrap();

    let warrior = parsed(
        "
        mov $1, #1
        jmp #-1, #2
        jmp #-1, #2
        ",
    );

    core.load_warrior(&warrior).expect("Failed to load warrior");
    assert_eq!(core.size(), 128);

    let loaded: Vec<Instruction> = (0..4).map(|i| core.get(i)).collect();
    assert_eq!(
        loaded,
        vec![
            Instruction::new(Opcode::Mov, Field::direct(1), Field::immediate(1)),
            Instruction::new(Opcode::Jmp, Field::immediate(-1), Field::immediate(2)),
            Instruction::new(Opcode::Jmp, Field::immediate(-1), Field::immediate(2)),
            Instruction::default(),
        ]
    );
}

#[test]
fn load_program_too_long() {
    let mut core = Core::new(128).unwrap();
    let warrior = Warrior {
        program: Program {
            instructions: vec![Instruction::new(Opcode::Dat, Field::direct(1), Field::direct(1)); 255],
            origin: None,
        },
        ..Default::default()
    };

    core.load_warrior(&warrior).expect_err("Should have failed to load warrior: too long");

    assert_eq!(core.size(), 128);
}

#[test]
fn wrap_program_counter_on_overflow() {
    let mut core = build_core("mov $0, $1");

    for i in 0..core.size() {
        assert_eq!(core.program_counter().unwrap().value(), i);
        core.step().unwrap();
    }

    assert_eq!(core.program_counter().unwrap().value(), 0);
    core.step().unwrap();
    assert_eq!(core.program_counter().unwrap().value(), 1);
}

#[test]
fn immediate_mode() {
    let core = build_core("dat #1, #2");
    let pc = offset(0);
    let instruction = core.get(0);

    assert_eq!(resolve_a_pointer(&core, pc), offset(0));
    assert_eq!(resolve_b_pointer(&core, pc), offset(0));
    assert_eq!(core.get(0), instruction);
}

#[test]
fn direct_mode() {
    let core = build_core("dat $1, $2");
    let pc = offset(0);
    let instruction = core.get(0);

    assert_eq!(resolve_a_pointer(&core, pc), offset(1));
    assert_eq!(resolve_b_pointer(&core, pc), offset(2));

    assert_eq!(core.get(0), instruction);
}

fn check_indirect_mode(modifier: &str, expected_a: i32, expected_b: i32) {
    let core = build_core(&format!(
        "
        dat {0}1, {0}2
        dat #3, #4
        dat #5, #6
        ",
        modifier
    ));

    let pc = offset(0);
    let instruction = core.get(0);

    assert_eq!(resolve_a_pointer(&core, pc), offset(expected_a));
    assert_eq!(resolve_b_pointer(&core, pc), offset(expected_b));

    assert_eq!(core.get(0), instruction);
    assert_eq!(core.get(1), Instruction::new(Opcode::Dat, Field::immediate(3), Field::immediate(4)));
    assert_eq!(core.get(2), Instruction::new(Opcode::Dat, Field::immediate(5), Field::immediate(6)));
}

#[test]
fn indirect_mode_a() {
    check_indirect_mode("*", 4, 7);
}

#[test]
fn indirect_mode_b() {
    check_indirect_mode("@", 5, 8);
}

fn check_side_effects(
    program: &str,
    expected_a: i32,
    expected_b: i32,
    time: EvalTime,
    after_1: Instruction,
    after_2: Instruction,
) {
    let mut core = build_core(program);

    let pc = offset(0);
    let instruction = core.get(0);

    assert_eq!(resolve_a_pointer(&core, pc), offset(expected_a));
    assert_eq!(resolve_b_pointer(&core, pc), offset(expected_b));

    assert_eq!(core.get(0), instruction);
    assert_eq!(core.get(1), Instruction::new(Opcode::Dat, Field::immediate(3), Field::immediate(4)));
    assert_eq!(core.get(2), Instruction::new(Opcode::Dat, Field::immediate(5), Field::immediate(6)));

    apply_a_pointer(&mut core, pc, time);
    apply_b_pointer(&mut core, pc, time);

    assert_eq!(core.get(0), instruction);
    assert_eq!(core.get(1), after_1);
    assert_eq!(core.get(2), after_2);
}

#[test]
fn indirect_predecrement_a() {
    check_side_effects(
        "dat {1, {2\ndat #3, #4\ndat #5, #6",
        3,
        6,
        EvalTime::Pre,
        Instruction::new(Opcode::Dat, Field::immediate(2), Field::immediate(4)),
        Instruction::new(Opcode::Dat, Field::immediate(4), Field::immediate(6)),
    );
}

#[test]
fn indirect_predecrement_b() {
    check_side_effects(
        "dat <1, <2\ndat #3, #4\ndat #5, #6",
        4,
        7,
        EvalTime::Pre,
        Instruction::new(Opcode::Dat, Field::immediate(3), Field::immediate(3)),
        Instruction::new(Opcode::Dat, Field::immediate(5), Field::immediate(5)),
    );
}

#[test]
fn indirect_postincrement_a() {
    check_side_effects(
        "dat }1, }2\ndat #3, #4\ndat #5, #6",
        4,
        7,
        EvalTime::Post,
        Instruction::new(Opcode::Dat, Field::immediate(4), Field::immediate(4)),
        Instruction::new(Opcode::Dat, Field::immediate(6), Field::immediate(6)),
    );
}

#[test]
fn indirect_postincrement_b() {
    check_side_effects(
        "dat >1, >2\ndat #3, #4\ndat #5, #6",
        5,
        8,
        EvalTime::Post,
        Instruction::new(Opcode::Dat, Field::immediate(3), Field::immediate(5)),
        Instruction::new(Opcode::Dat, Field::immediate(5), Field::immediate(7)),
    );
}

#[test]
fn execute_dat() {
    // A fresh core holds only default DAT instructions, so the first thread,
    // started at 0 by an empty warrior, terminates at once.
    let mut core = Core::new(4).unwrap();
    core.load_warrior(&Warrior::default()).unwrap();
    assert_eq!(core.step().unwrap_err(), ProcessError::ExecuteDat(Offset::new(0, 4)));
}

#[test]
fn execute_div() {
    let mut core = build_core(
        "
        div $1, $2
        dat #8, #7
        dat #4, #2
        ",
    );

    core.step().unwrap();
    assert_eq!(core.get(2), Instruction::new(Opcode::Dat, Field::immediate(2), Field::immediate(3)));
}

#[test]
fn execute_mov() {
    let instruction = Instruction {
        opcode: Opcode::Mov,
        modifier: Modifier::I,
        a_field: Field::direct(0),
        b_field: Field::direct(1),
    };
    let mut core = build_core("mov.i $0, $1");
    let current = |core: &Core| core.get(core.program_counter().unwrap().value() as i32);

    assert_eq!(current(&core), instruction);

    core.step().unwrap();
    assert_eq!(current(&core), instruction);

    core.step().unwrap();
    assert_eq!(current(&core), instruction);
}

#[test]
fn execute_jmp() {
    let mut core = build_core("jmp $3, #0");

    core.step().unwrap();

    assert_eq!(core.program_counter().unwrap().value(), 3);
    let cells: Vec<Instruction> = (0..4).map(|i| core.get(i)).collect();
    assert_eq!(
        cells,
        vec![
            Instruction::new(Opcode::Jmp, Field::direct(3), Field::immediate(0)),
            Default::default(),
            Default::default(),
            Default::default()
        ]
    );
}

#[test]
fn steps_count_every_call() {
    let mut core = Core::new(10).unwrap();
    core.load_warrior(&parsed("mov 0, 1")).unwrap();
    core.step().unwrap();
    core.load_warrior(&parsed(";name other\ndat 0, 0")).unwrap();
    core.step().unwrap();
    assert_eq!(core.steps_taken(), 2);
    // The second warrior's only thread dies on its DAT.
    assert!(core.step().is_err());
    assert_eq!(core.steps_taken(), 3);
}
