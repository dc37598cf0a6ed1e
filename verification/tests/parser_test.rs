use corewars::load_file::{AddressMode, Field, Instruction, Modifier, Opcode, Program, Value};
use corewars::parser::error::Error;
use corewars::parser::phase::evaluation::{deserialize, evaluate, evaluate_expression, evaluate_origin};
use corewars::parser::phase::expansion::{expand, Collector, LabelValue};
use corewars::parser::{parse, Result, Warning};

fn strings(lines: &[&str]) -> Vec<String> {
    lines.iter().map(|s| s.to_string()).collect()
}

fn key(s: &str) -> Vec<char> {
    s.chars().collect()
}

#[test]
fn evaluation_parse_simple_file() {
    let simple_input = strings(&["mov 1, 3", "mov 100, #12", "dat #0, #0", "jmp +123, #45", "jmp -4", "jmp -1"]);

    let expected_core = vec![
        Instruction::new(Opcode::Mov, Field::direct(1), Field::direct(3)),
        Instruction::new(Opcode::Mov, Field::direct(100), Field::immediate(12)),
        Instruction::new(Opcode::Dat, Field::immediate(0), Field::immediate(0)),
        Instruction::new(Opcode::Jmp, Field::direct(123), Field::immediate(45)),
        Instruction::new(Opcode::Jmp, Field::direct(-4), Field::direct(0)),
        Instruction::new(Opcode::Jmp, Field::direct(-1), Field::direct(0)),
    ];

    let parsed = evaluate(simple_input).unwrap_or_else(|err| panic!("Failed to parse simple file: {}", err.message()));

    assert_eq!(parsed, expected_core);
}

#[test]
fn evaluation_evaluates_origin() {
    let evaluated = evaluate_expression("2 * (4 + 3)").expect("Should parse successfully");
    assert_eq!(evaluated, 14);
    assert_eq!(evaluate_origin("2 * (4 + 3)".to_string()).expect("Should parse successfully"), 14);
}

#[test]
fn evaluation_fails_for_negative_origin() {
    evaluate_expression("-10").expect_err("-10 should be an invalid origin");
    assert_eq!(evaluate_origin("-10".to_string()), Err(Error::InvalidOrigin));
}

#[test]
fn deserialize_parse_simple_file() {
    let simple_input = strings(&["mov 1, 3", "mov 100, #12", "dat #0, #0", "jmp +123, #45", "jmp -4", "jmp -1"]);

    let expected_core = Program {
        instructions: vec![
            Instruction::new(Opcode::Mov, Field::direct(1), Field::direct(3)),
            Instruction::new(Opcode::Mov, Field::direct(100), Field::immediate(12)),
            Instruction::new(Opcode::Dat, Field::immediate(0), Field::immediate(0)),
            Instruction::new(Opcode::Jmp, Field::direct(123), Field::immediate(45)),
            Instruction::new(Opcode::Jmp, Field::direct(-4), Field::immediate(0)),
            Instruction::new(Opcode::Jmp, Field::direct(-1), Field::immediate(0)),
        ],
        ..Default::default()
    };

    let parsed = deserialize(simple_input, None).unwrap_or_else(|err| panic!("Failed to parse simple file: {}", err.message()));

    assert_eq!(parsed, expected_core);
}

#[test]
fn parse_org() {
    let parsed = deserialize(vec![], Some("1".into())).unwrap_or_else(|err| panic!("Failed to parse origin file: {}", err.message()));

    assert_eq!(parsed, Program { instructions: vec![], origin: Some(1) });
}

#[test]
fn expansion_collects_equ() {
    let mut collector = Collector::new();

    collector.process_equ("foo", "1");
    let labels = collector.finish();

    assert_eq!(Some(&LabelValue::Substitution(vec![String::from("1")])), labels.get(&key("foo")));
}

#[test]
fn expansion_collects_multi_line_equ() {
    let mut collector = Collector::new();

    collector.process_equ("foo", "mov 1, 1");
    collector.process_equ_continuation("jne 0, -1");
    let labels = collector.finish();

    assert_eq!(
        Some(&LabelValue::Substitution(vec![String::from("mov 1, 1"), String::from("jne 0, -1")])),
        labels.get(&key("foo"))
    );
}

#[test]
fn expansion_collects_label_offset() {
    let mut collector = Collector::new();

    collector.add_pending_label("foo");
    collector.add_pending_label("bar");
    collector.resolve_pending_labels(1);

    collector.add_pending_label("zip");
    collector.add_pending_label("zap");
    collector.add_pending_label("gone");
    let labels = collector.finish();

    assert_eq!(Some(&LabelValue::AbsoluteOffset(1)), labels.get(&key("foo")));
    assert_eq!(Some(&LabelValue::AbsoluteOffset(1)), labels.get(&key("bar")));
    assert_eq!(None, labels.get(&key("zip")));
}

fn expanded(lines: &[&str]) -> Vec<String> {
    expand(strings(lines), None).expect("should expand").text
}

#[test]
fn expansion_repeats_for_block() {
    assert_eq!(expanded(&["for 3", "mov 0, 1", "rof"]), strings(&["mov 0, 1", "mov 0, 1", "mov 0, 1"]));
}

#[test]
fn expansion_empty_for_block() {
    assert_eq!(expanded(&["for 0", "mov 0, 1", "rof"]), Vec::<String>::new());
}

#[test]
fn expansion_repeats_multiple_lines() {
    assert_eq!(
        expanded(&["for 3", "mov 0, 1", "mov 2, 3", "rof"]),
        strings(&["mov 0, 1", "mov 2, 3", "mov 0, 1", "mov 2, 3", "mov 0, 1", "mov 2, 3"])
    );
}

#[test]
fn expansion_nested_for() {
    assert_eq!(
        expanded(&["for 2", "for 3", "mov 0, 1", "rof", "mov 1, 2", "rof"]),
        strings(&["mov 0, 1", "mov 0, 1", "mov 0, 1", "mov 1, 2", "mov 0, 1", "mov 0, 1", "mov 0, 1", "mov 1, 2"])
    );
}

#[test]
fn expansion_evaluates_for_count() {
    assert_eq!(expanded(&["for 2 + 2", "mov 0, 1", "rof"]), strings(&["mov 0, 1", "mov 0, 1", "mov 0, 1", "mov 0, 1"]));
}

#[test]
fn expansion_repeat_index() {
    assert_eq!(
        expanded(&["base", "N for 2 + 2", "mov base, N", "rof"]),
        strings(&["mov 0, 1", "mov -1, 2", "mov -2, 3", "mov -3, 4"])
    );
}

#[test]
fn expansion_repeat_index_twice() {
    assert_eq!(
        expanded(&["base", "N for 3", "mov base, N", "mov base, N", "rof"]),
        strings(&["mov 0, 1", "mov -1, 1", "mov -2, 2", "mov -3, 2", "mov -4, 3", "mov -5, 3"])
    );
}

#[test]
fn expansion_repeat_and_expand() {
    assert_eq!(
        expanded(&["foo equ mov 0, 1", "for 3", "foo", "rof"]),
        strings(&["mov 0, 1", "mov 0, 1", "mov 0, 1"])
    );
}

#[test]
fn expansion_repeat_equ() {
    assert_eq!(expanded(&["for 3", "foo equ mov 0, 1", "rof", "foo"]), strings(&["mov 0, 1"]));
}

#[test]
fn expansion_substitutes_labels() {
    assert_eq!(
        expanded(&["foo equ 1", "nop 1, foo", "lbl1", "lbl2 mov 1, foo", "mov 2, lbl1", "lbl3 mov 3, lbl3"]),
        strings(&["nop 1, 1", "mov 1, 1", "mov 2, -1", "mov 3, 0"])
    );
}

#[test]
fn expansion_substitutes_origin() {
    let lines = expand(strings(&["nop 0, 0", "start mov 0, 1"]), Some("start".to_string())).expect("should expand");
    assert_eq!(lines.origin, Some("1".to_string()));
}

#[test]
fn expansion_rof_without_for_fails() {
    assert_eq!(expand(strings(&["rof"]), None).map(|l| l.text), Err(Error::InvalidSyntax));
}

#[test]
fn expansion_uses_curline() {
    assert_eq!(expanded(&["nop 0, 0", "mov CURLINE, 0"]), strings(&["nop 0, 0", "mov 1, 0"]));
}

#[test]
fn parse_whole_warrior() {
    let input = ";redcode\n;name Imp\nstart mov 0, 1\n end start\n";
    match parse(input) {
        Result::Success(warrior, warnings) => {
            assert!(warnings.is_empty());
            assert_eq!(warrior.program.instructions, vec![Instruction::new(Opcode::Mov, Field::direct(0), Field::direct(1))]);
            assert_eq!(warrior.program.origin, Some(0));
            assert_eq!(warrior.metadata.name, Some("Imp".to_string()));
        },
        Result::Failure(err, _) => panic!("failed to parse: {}", err.message()),
    }
}

#[test]
fn parse_reports_missing_arguments() {
    match parse("add 1") {
        Result::Failure(err, _) => assert_eq!(err, Error::InvalidArguments { opcode: Opcode::Add }),
        Result::Success(..) => panic!("should fail"),
    }
    assert_eq!(
        Error::InvalidArguments { opcode: Opcode::Add }.message(),
        "expected additional arguments for ADD opcode"
    );
}

#[test]
fn parse_reports_unknown_label() {
    match parse("jmp nowhere") {
        Result::Failure(err, _) => assert_eq!(err, Error::LabelNotFound { label: "nowhere".to_string(), line: None }),
        Result::Success(..) => panic!("should fail"),
    }
}

#[test]
fn parse_one_field_instructions() {
    let parsed = evaluate(strings(&["dat 5", "spl.a 3"])).expect("should parse");
    assert_eq!(
        parsed,
        vec![
            Instruction { opcode: Opcode::Dat, modifier: Modifier::F, a_field: Field::immediate(0), b_field: Field::direct(5) },
            Instruction { opcode: Opcode::Spl, modifier: Modifier::A, a_field: Field::direct(3), b_field: Field::direct(0) },
        ]
    );
}

#[test]
fn parse_address_modes() {
    let parsed = evaluate(strings(&["mov @1, <2"])).expect("should parse");
    assert_eq!(parsed[0].a_field.address_mode, AddressMode::IndirectB);
    assert_eq!(parsed[0].b_field.address_mode, AddressMode::PreDecIndirectB);
    assert_eq!(parsed[0].b_field.value, Value::Literal(2));
}

#[test]
fn deserialize_keeps_labels() {
    let parsed = deserialize(strings(&["jmp foo"]), None).expect("should parse");
    assert_eq!(parsed.instructions[0].a_field, Field::direct_label("foo"));
}

#[test]
fn parse_first_origin_stands() {
    match parse("org 1\norg 0\nmov 0, 1\nmov 0, 1") {
        Result::Success(warrior, _) => assert_eq!(warrior.program.origin, Some(1)),
        Result::Failure(err, _) => panic!("failed to parse: {}", err.message()),
    }
}

#[test]
fn parse_ignores_text_after_end() {
    match parse("mov 0, 1\nend\nthis is not redcode at all") {
        Result::Success(warrior, _) => assert_eq!(warrior.program.instructions.len(), 1),
        Result::Failure(err, _) => panic!("failed to parse: {}", err.message()),
    }
}

#[test]
fn parse_reports_invalid_syntax() {
    match parse("mov 0, 1 ~") {
        Result::Failure(err, _) => {
            assert_eq!(err, Error::InvalidSyntax);
            assert_eq!(err.message(), "invalid syntax");
        },
        Result::Success(..) => panic!("should fail"),
    }
}

#[test]
fn result_helpers() {
    let ok: Result<i32> = Result::ok(3);
    assert_eq!(ok.unwrap(), 3);
    let ok2: Result<i32> = Result::ok(4);
    assert_eq!(ok2.expect("should hold a value"), 4);
    match Result::<i32>::err(Error::InvalidOrigin) {
        Result::Failure(e, w) => {
            assert_eq!(e, Error::InvalidOrigin);
            assert!(w.is_empty());
        },
        Result::Success(..) => panic!("should be a failure"),
    }
}

#[test]
fn expression_precedence() {
    assert_eq!(evaluate_expression("1 + 2 * 3").unwrap(), 7);
    assert_eq!(evaluate_expression("(1 + 2) * 3").unwrap(), 9);
    assert_eq!(evaluate_expression("10 / 3").unwrap(), 3);
    assert_eq!(evaluate_expression("10 % 3").unwrap(), 1);
    assert_eq!(evaluate_expression("2 < 3 && 3 > 2").unwrap(), 1);
    assert_eq!(evaluate_expression("1 / 0"), Err(Error::InvalidSyntax));
    assert_eq!(
        evaluate_expression("foo + 1"),
        Err(Error::LabelNotFound { label: "foo".to_string(), line: None })
    );
}

#[test]
fn expansion_expands_expression_labels() {
    assert_eq!(
        expanded(&["five equ 5", "lbl mov 0, 1", "dat 0, 0", "for five + lbl", "mov 1, 2", "rof"]),
        strings(&["mov 0, 1", "dat 0, 0", "mov 1, 2", "mov 1, 2", "mov 1, 2"])
    );
}

#[test]
fn expansion_expression_equ() {
    assert_eq!(expanded(&["step equ 4", "mov 1, step"]), strings(&["mov 1, 4"]));
}

#[test]
fn expansion_subsequent_equ() {
    assert_eq!(
        expanded(&["foo equ 4", "bar equ 1", "mov 1, foo", "nop bar, bar"]),
        strings(&["mov 1, 4", "nop 1, 1"])
    );
}

#[test]
fn expansion_statement_equ() {
    assert_eq!(
        expanded(&["step equ mov 1, 2", "lbl1 step", "step", "nop lbl1, 0"]),
        strings(&["mov 1, 2", "mov 1, 2", "nop -2, 0"])
    );
}

#[test]
fn expansion_partial_statement_equ() {
    assert_eq!(
        expanded(&["step equ mov 1,", "step lbl1", "lbl1", "lbl2 step 2", "step lbl2", "lbl3 step lbl3"]),
        strings(&["mov 1, 1", "mov 1, 2", "mov 1, -1", "mov 1, 0"])
    );
}

#[test]
fn expansion_multiline_equ() {
    assert_eq!(
        expanded(&["do_thing equ mov 1, 2", "equ mov 3, 4", "do_thing", "lbl1 do_thing", "nop 0, lbl1"]),
        strings(&["mov 1, 2", "mov 3, 4", "mov 1, 2", "mov 3, 4", "nop 0, -2"])
    );
}

#[test]
fn expansion_equ_in_expression() {
    assert_eq!(
        expanded(&[
            "org lbl_b",
            "four equ 2+2",
            "lbl_a dat four+1, four+3",
            "nop -1, -1",
            "lbl_b dat 1, 1",
            "nop -1, -1",
            "lbl_c add #lbl_a+1, #lbl_b+four+3+4",
        ]),
        strings(&["org 2", "dat 2+2+1, 2+2+3", "nop -1, -1", "dat 1, 1", "nop -1, -1", "add #-4+1, #-2+2+2+3+4"])
    );
}

#[test]
fn expansion_default_labels() {
    assert_eq!(
        expanded(&["add 2, CURLINE", "mov 1, CORESIZE-1", "add 3, CURLINE", "dat MAXLENGTH, MAXLENGTH"]),
        strings(&["add 2, 0", "mov 1, 8000-1", "add 3, 2", "dat 100, 100"])
    );
}

fn expanded_origin(origin: Option<&str>) -> (Vec<String>, Option<String>) {
    let lines = expand(strings(&["mov 1, 1", "start nop 1, 1", "mov 2, 3"]), origin.map(|s| s.to_string()))
        .expect("should expand");
    (lines.text, lines.origin)
}

#[test]
fn expansion_origin_label() {
    assert_eq!(
        expanded_origin(Some("start")),
        (strings(&["mov 1, 1", "nop 1, 1", "mov 2, 3"]), Some("1".to_string()))
    );
}

#[test]
fn expansion_origin_expression() {
    assert_eq!(
        expanded_origin(Some("start + 1")),
        (strings(&["mov 1, 1", "nop 1, 1", "mov 2, 3"]), Some("1 + 1".to_string()))
    );
}

#[test]
fn expansion_origin_literal() {
    assert_eq!(
        expanded_origin(Some("1")),
        (strings(&["mov 1, 1", "nop 1, 1", "mov 2, 3"]), Some("1".to_string()))
    );
}

#[test]
fn expansion_origin_none() {
    assert_eq!(expanded_origin(None), (strings(&["mov 1, 1", "nop 1, 1", "mov 2, 3"]), None));
}

#[test]
fn parse_warns_about_origins() {
    let input = "org 1\norg 2\norg\nmov 0, 1\nend 0";
    match parse(input) {
        Result::Success(w, warnings) => {
            assert_eq!(w.program.origin, Some(1));
            assert_eq!(
                warnings,
                vec![
                    Warning::OriginRedefinition { old: "1".to_string(), new: "2".to_string() },
                    Warning::MissingOrigin,
                    Warning::OriginRedefinition { old: "1".to_string(), new: "0".to_string() },
                ]
            );
            assert_eq!(warnings[1].message(), "ORG must be given an argument");
        },
        Result::Failure(err, _) => panic!("failed to parse: {}", err.message()),
    }
}

#[test]
fn parse_keeps_warnings_on_failure() {
    match parse("org 1\norg 2\nmov 0, missing") {
        Result::Failure(_, warnings) => {
            assert_eq!(warnings, vec![Warning::OriginRedefinition { old: "1".to_string(), new: "2".to_string() }]);
        },
        Result::Success(..) => panic!("expected a failure"),
    }
}
