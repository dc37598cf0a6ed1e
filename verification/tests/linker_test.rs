use corewars::linker::{parse, Core, Field, Instruction, Program};
use corewars::load_file::{self, AddressMode, Modifier, Opcode, Value};

fn label_field(label: &str) -> Field {
    Field { value: Value::Label(label.into()), ..Default::default() }
}

fn literal_field(value: i32) -> Field {
    Field { value: Value::Literal(value), ..Default::default() }
}

#[test]
fn load_file_default_instruction() {
    let expected_instruction = Instruction {
        opcode: Opcode::Dat,
        modifier: Modifier::F,
        field_a: Field { address_mode: AddressMode::Immediate, value: Value::Literal(0) },
        field_b: Field { address_mode: AddressMode::Immediate, value: Value::Literal(0) },
    };

    assert_eq!(Instruction::default(), expected_instruction);

    let expected_core_instruction = load_file::Instruction {
        opcode: Opcode::Dat,
        modifier: Modifier::F,
        a_field: load_file::Field { address_mode: AddressMode::Direct, value: Value::Literal(0) },
        b_field: load_file::Field { address_mode: AddressMode::Direct, value: Value::Literal(0) },
    };

    assert_eq!(load_file::Instruction::default(), expected_core_instruction);
}

#[test]
fn load_file_labels() {
    let mut core = Core::new(200);

    core.add_label(123, "baz".into()).expect("Should add baz");
    core.add_label(0, "foo".into()).expect("Should add foo");
    core.add_label(0, "bar".into()).expect("Should add bar");

    core.add_label(256, "goblin".into()).expect_err("Should fail to add labels > 200");
    core.add_label(5, "baz".into()).expect_err("Should error duplicate label");

    assert_eq!(core.label_address("foo").unwrap(), 0);
    assert_eq!(core.label_address("bar").unwrap(), 0);

    // The last declaration of a label is the one used
    assert_eq!(core.label_address("baz").unwrap(), 5);

    assert!(core.label_address("goblin").is_none());
    assert!(core.label_address("never_mentioned").is_none());
}

#[test]
fn load_file_resolve_failure() {
    let mut core = Core::new(10);

    core.add_label(0, "foo".into()).expect("Should add foo");

    core.set(5, Instruction { field_a: label_field("not_real"), ..Default::default() });

    core.resolve().expect_err("Should fail to resolve");
}

#[test]
fn load_file_resolve_labels() {
    let mut core = Core::new(10);

    core.add_label(0, "foo".into()).expect("Should add foo");
    core.add_label(7, "baz".into()).expect("Should add baz");

    core.set(3, Instruction { field_a: label_field("baz"), field_b: label_field("foo"), ..Default::default() });

    core.resolve().expect("Should resolve all labels in core");

    assert_eq!(
        core.get(3).expect("Should have instruction at pos 5"),
        Instruction { field_a: literal_field(4), field_b: literal_field(-3), ..Default::default() }
    )
}

#[test]
fn program_labels() {
    let mut program = Program::with_capacity(200);

    program.add_label(123, "baz".into()).expect("Should add baz");
    program.add_label(0, "foo".into()).expect("Should add foo");
    program.add_label(0, "bar".into()).expect("Should add bar");

    program.add_label(256, "goblin".into()).expect_err("Should fail to add labels > 200");
    program.add_label(5, "baz".into()).expect_err("Should error duplicate label");

    assert_eq!(program.label_address("foo").unwrap(), 0);
    assert_eq!(program.label_address("bar").unwrap(), 0);
    assert_eq!(program.label_address("baz").unwrap(), 5);

    assert!(program.label_address("goblin").is_none());
    assert!(program.label_address("never_mentioned").is_none());
}

#[test]
fn program_resolve_failure() {
    let mut program = Program::with_capacity(10);

    program.add_label(0, "foo".into()).expect("Should add foo");

    program.set(5, Instruction { field_a: label_field("not_real"), ..Default::default() });

    program.resolve().expect_err("Should fail to resolve");
}

#[test]
fn program_resolve_labels() {
    let mut program = Program::with_capacity(10);

    program.add_label(0, "foo".into()).expect("Should add foo");
    program.add_label(7, "baz".into()).expect("Should add baz");

    program.set(3, Instruction { field_a: label_field("baz"), field_b: label_field("foo"), ..Default::default() });

    program.resolve().expect("Failed to resolve labels");

    assert_eq!(
        program.get(3).expect("Instruction not found"),
        Instruction { field_a: literal_field(4), field_b: literal_field(-3), ..Default::default() }
    )
}

#[test]
fn resolve_constants() {
    let mut program = Program::with_capacity(5);

    program.set(0, Instruction { field_a: label_field("CORESIZE"), ..Default::default() });

    assert_eq!(program.get(0).expect("No instruction found").field_a.value, Value::Label("CORESIZE".into()));

    program.resolve().expect("Failed to resolve labels");

    let coresize: Vec<char> = "CORESIZE".chars().collect();
    let expected_value = load_file::default_constant_list()
        .into_iter()
        .find(|(name, _)| *name == coresize)
        .map(|(_, value)| value)
        .unwrap() as i32;

    assert_eq!(program.get(0).expect("No instruction found").field_a.value, Value::Literal(expected_value));
}

#[test]
fn test_opcode_from_str() {
    assert_eq!(Opcode::from_str("MOV").unwrap(), Opcode::Mov);
}

#[test]
fn parse_empty() {
    let result = parse("");
    assert!(result.is_err());
    assert_eq!(result.unwrap_err().details, "No input found");
}

#[test]
fn duplicate_labels() {
    let simple_input = "
            label1  dat 0,0
            label1  dat 0,0
        ";

    parse(simple_input).expect_err("Should fail for duplicate label");
}

#[test]
fn parser_parse_simple_file() {
    let simple_input = "
            preload
            begin:  mov 1, 3 ; make sure comments parse out
                    mov 100, #12
            loop:
            main    dat #0, #0
                    jmp +123, #45
                    jmp begin
                    jmp -1
        ";

    let mut expected_core = Core::default();

    expected_core.set(0, Instruction::new(Opcode::Mov, Field::direct(1), Field::direct(3)));
    expected_core.set(1, Instruction::new(Opcode::Mov, Field::direct(100), Field::immediate(12)));
    expected_core.set(2, Instruction::new(Opcode::Dat, Field::immediate(0), Field::immediate(0)));
    expected_core.set(3, Instruction::new(Opcode::Jmp, Field::direct(123), Field::immediate(45)));
    expected_core.set(4, Instruction::new(Opcode::Jmp, Field::direct(-4), Field::immediate(0)));
    expected_core.set(5, Instruction::new(Opcode::Jmp, Field::direct(-1), Field::immediate(0)));

    let parsed = parse(simple_input).expect("Should parse simple file");

    assert_eq!(parsed, expected_core);
    assert_eq!(parsed.label_address("loop"), Some(2));
    assert_eq!(parsed.label_address("preload"), Some(0));
}

#[test]
fn parse_reports_label_not_found() {
    let err = parse("jmp nowhere").expect_err("should fail");
    assert_eq!(err.details, "Label 'nowhere' not found");
}

#[test]
fn add_label_reports_invalid_address() {
    let mut core = Core::new(10);
    assert_eq!(core.add_label(11, "far".into()), Err("Address 11 is not valid for core of size 10".to_string()));
}
