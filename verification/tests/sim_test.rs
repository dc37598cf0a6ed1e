use corewars::load_file::Offset;
use corewars::sim::process::{Entry, Error, Queue};

#[test]
fn queue_multiple_processes() {
    let mut queue = Queue::new();

    assert_eq!(queue.peek().unwrap_err(), Error::NoRemainingProcesses);
    assert_eq!(queue.pop().unwrap_err(), Error::NoRemainingProcesses);

    let starting_offset = Offset::new(10, 8000);

    queue.push("p1".into(), starting_offset, None);
    assert_eq!(queue.peek().unwrap(), &Entry { name: "p1".into(), thread: 0, offset: starting_offset });
    assert!(queue.thread_count("p1") > 0);

    queue.push("p2".into(), starting_offset.add_i32(5), None);
    assert!(queue.thread_count("p2") > 0);

    assert_eq!(queue.pop().unwrap(), Entry { name: "p1".into(), thread: 0, offset: starting_offset });
    assert_eq!(queue.peek().unwrap(), &Entry { name: "p2".into(), thread: 0, offset: starting_offset.add_i32(5) });
    assert!(!(queue.thread_count("p1") > 0));
    assert!(queue.thread_count("p2") > 0);

    assert_eq!(queue.pop().unwrap(), Entry { name: "p2".into(), thread: 0, offset: starting_offset.add_i32(5) });
    assert!(!(queue.thread_count("p1") > 0));
    assert!(!(queue.thread_count("p2") > 0));

    assert_eq!(queue.peek().unwrap_err(), Error::NoRemainingProcesses);
    assert_eq!(queue.pop().unwrap_err(), Error::NoRemainingProcesses);

    assert!(!(queue.thread_count("p1") > 0));
    assert!(!(queue.thread_count("p2") > 0));
}

#[test]
fn queue_single_process() {
    let mut queue = Queue::new();
    let starting_offset = Offset::new(10, 8000);

    queue.push("p1".into(), starting_offset, None);
    assert_eq!(queue.peek().unwrap(), &Entry { name: "p1".into(), thread: 0, offset: starting_offset });
    assert!(queue.thread_count("p1") > 0);

    // should increment the thread id to 1
    queue.push("p1".into(), starting_offset, None);
    queue.pop().unwrap();
    assert_eq!(queue.peek().unwrap(), &Entry { name: "p1".into(), thread: 1, offset: starting_offset });
    assert!(queue.thread_count("p1") > 0);

    queue.push("p1".into(), starting_offset, Some(1));
    queue.pop().unwrap();
    assert_eq!(queue.peek().unwrap(), &Entry { name: "p1".into(), thread: 1, offset: starting_offset });
    assert!(queue.thread_count("p1") > 0);
}

#[test]
fn offset_wraps_around() {
    assert_eq!(Offset::new(-1, 8000).value(), 7999);
    assert_eq!(Offset::new(8005, 8000).value(), 5);
    assert_eq!(Offset::new(7999, 8000).add_i32(2).value(), 1);
    assert_eq!(Offset::new(1, 8000).sub_i32(3).value(), 7998);
}

use corewars::load_file::{Field, Instruction, Modifier, Opcode, Warrior};
use corewars::parser::{parse, Result};
use corewars::sim::process::Error as ProcessError;
use corewars::sim::{Core, Error as CoreError};

fn warrior(source: &str) -> Warrior {
    match parse(source) {
        Result::Success(w, _) => w,
        Result::Failure(err, _) => panic!("failed to parse: {}", err.message()),
    }
}

fn build_core(source: &str) -> Core {
    let mut core = Core::new(8000).unwrap();
    core.load_warrior(&warrior(source)).unwrap();
    core
}

#[test]
fn core_size_limits() {
    assert_eq!(Core::new(0).unwrap().size(), 0);
    assert_eq!(Core::new(u32::MAX).unwrap_err(), CoreError::InvalidCoreSize(u32::MAX));
    assert_eq!(Core::new(8000).unwrap().size(), 8000);
}

#[test]
fn core_rejects_unresolved_labels() {
    let mut core = Core::new(10).unwrap();
    let mut w = warrior("mov 0, 1");
    w.program.instructions[0].b_field = Field::direct_label("nowhere");
    assert_eq!(core.load_warrior(&w).unwrap_err(), CoreError::UnresolvedLabels);
    assert_eq!(core.program_counter(), None);
    assert_eq!(core.get(0), Instruction::default());
}

#[test]
fn core_rejects_long_warrior() {
    let mut core = Core::new(1).unwrap();
    assert_eq!(core.load_warrior(&warrior("mov 0, 1\nmov 0, 1")).unwrap_err(), CoreError::WarriorTooLong);
}

#[test]
fn core_loads_same_warrior_twice() {
    let mut core = Core::new(10).unwrap();
    let w = warrior(";name imp\nmov 0, 1");
    core.load_warrior(&w).unwrap();
    core.load_warrior(&w).unwrap();
    core.step().unwrap();
    core.step().unwrap();
    assert_eq!(core.program_counter().unwrap().value(), 1);
    assert_eq!(core.steps_taken(), 2);
}

#[test]
fn execute_dat_ends_last_thread() {
    let mut core = build_core("dat 0, 0");
    assert_eq!(core.step().unwrap_err(), ProcessError::ExecuteDat(core.program_counter().unwrap_or(Offset::new(0, 8000))));
    assert_eq!(core.steps_taken(), 1);
    assert_eq!(core.step().unwrap_err(), ProcessError::NoRemainingProcesses);
}

#[test]
fn execute_div_divides_fields() {
    let mut core = build_core(
        "
        div $1, $2
        dat #8, #7
        dat #4, #2
        ",
    );

    core.step().unwrap();
    assert_eq!(core.get(2), Instruction::new(Opcode::Dat, Field::immediate(2), Field::immediate(3)));
}

#[test]
fn execute_div_by_zero_ends_last_thread() {
    let mut core = build_core(
        "
        div $1, $2
        dat #8, #7
        dat #0, #2
        ",
    );

    assert_eq!(core.step().unwrap_err(), ProcessError::DivideByZero);
    assert_eq!(core.get(2), Instruction::new(Opcode::Dat, Field::immediate(0), Field::immediate(3)));
}

#[test]
fn execute_mov_copies_forward() {
    let mut core = build_core("mov.i $0, $1");
    let instruction = core.get(0);

    core.step().unwrap();
    assert_eq!(core.get(1), instruction);
    assert_eq!(core.program_counter().unwrap().value(), 1);

    core.step().unwrap();
    assert_eq!(core.get(2), instruction);
    assert_eq!(core.program_counter().unwrap().value(), 2);
}

#[test]
fn execute_jmp_moves_counter() {
    let mut core = build_core("jmp $3, #0");
    core.step().unwrap();
    assert_eq!(core.program_counter().unwrap().value(), 3);
    assert_eq!(core.get(1), Instruction::default());
}

#[test]
fn execute_add() {
    let mut core = build_core("add.ab #5, $1\ndat #0, #10");
    core.step().unwrap();
    assert_eq!(core.get(1).b_field.unwrap_value(), 15);
}

#[test]
fn execute_seq() {
    for (program, expected) in [
        ("cmp.f $1, $2\ndat #0, #1\ndat #0, #1", 2),
        ("seq.f $1, $2\ndat #0, #1\ndat #0, #1", 2),
        ("cmp.f $1, $2\ndat #0, #1\ndat #1, #1", 1),
        ("seq.f $1, $2\ndat #0, #1\ndat #2, #0", 1),
    ] {
        let mut core = build_core(program);
        core.step().unwrap();
        assert_eq!(core.program_counter().unwrap().value(), expected);
    }
}

#[test]
fn execute_unsupported() {
    let mut core = build_core("sub 1, 2");
    assert_eq!(core.step().unwrap_err(), ProcessError::UnsupportedOpcode(Opcode::Sub));
}

#[test]
fn run_imp_until_limit() {
    let mut core = build_core("mov 0, 1");
    core.run(Some(100)).unwrap();
    assert_eq!(core.steps_taken(), 100);
    assert_eq!(core.program_counter().unwrap().value(), 100);
}

#[test]
fn postincrement_indirect() {
    let mut core = build_core("mov.i >1, $2\ndat #0, #5");
    core.step().unwrap();
    assert_eq!(core.get(1).b_field.unwrap_value(), 6);
}

#[test]
fn core_to_string_shortens_default_runs() {
    let mut core = Core::new(10).unwrap();
    core.load_warrior(&warrior("mov.i 0, 1")).unwrap();
    assert_eq!(
        core.to_string(),
        "MOV.I   $0,     $1   <= PC\nDAT.F   $0,     $0\n...     (6 more)\nDAT.F   $0,     $0"
    );

    let mut small = Core::new(4).unwrap();
    small.load_warrior(&warrior("mov.i 0, 1")).unwrap();
    assert_eq!(small.to_string(), "MOV.I   $0,     $1   <= PC\nDAT.F   $0,     $0\nDAT.F   $0,     $0");
}

#[test]
fn offset_move_back() {
    let o = Offset::new(7990, 8000);
    assert_eq!(o.add_i32(25).sub_i32(25), o);
    assert_eq!(o.add_i32(8000), o);
}

#[test]
fn process_error_messages() {
    assert_eq!(ProcessError::DivideByZero.message(), "terminated due to division by 0");
    assert_eq!(ProcessError::ExecuteDat(Offset::new(12, 8000)).message(), "terminated due to reaching a DAT at offset 12");
    assert_eq!(ProcessError::UnsupportedOpcode(Opcode::Spl).message(), "opcode SPL is not supported by the simulator");
}

use corewars::sim::address::EvalTime;
use corewars::sim::modifier::Executor;
use corewars::sim::{apply_a_pointer, apply_b_pointer, resolve_a_pointer, resolve_b_pointer};

#[test]
fn pointers_by_address_mode() {
    let core = build_core("dat #1, $2");
    let pc = Offset::new(0, 8000);
    assert_eq!(resolve_a_pointer(&core, pc).value(), 0);
    assert_eq!(resolve_b_pointer(&core, pc).value(), 2);

    let core = build_core("dat *1, @1\ndat #3, #4");
    assert_eq!(resolve_a_pointer(&core, pc).value(), 4);
    assert_eq!(resolve_b_pointer(&core, pc).value(), 5);

    let core = build_core("dat {1, <1\ndat #3, #4");
    assert_eq!(resolve_a_pointer(&core, pc).value(), 3);
    assert_eq!(resolve_b_pointer(&core, pc).value(), 4);
}

#[test]
fn pointer_side_effects() {
    let mut core = build_core("dat {1, >1\ndat #3, #4");
    let pc = Offset::new(0, 8000);
    apply_a_pointer(&mut core, pc, EvalTime::Post);
    assert_eq!(core.get(1).a_field.unwrap_value(), 3);
    apply_a_pointer(&mut core, pc, EvalTime::Pre);
    assert_eq!(core.get(1).a_field.unwrap_value(), 2);
    apply_b_pointer(&mut core, pc, EvalTime::Pre);
    assert_eq!(core.get(1).b_field.unwrap_value(), 4);
    apply_b_pointer(&mut core, pc, EvalTime::Post);
    assert_eq!(core.get(1).b_field.unwrap_value(), 5);
}

#[test]
fn field_modifier() {
    for (modifier, expected_a, expected_b) in [("a", 35, 6), ("b", 5, 46), ("ab", 5, 36), ("ba", 45, 6), ("f", 35, 46), ("x", 45, 36)] {
        let mut core = build_core(&format!(
            "
            dat.{}  $1, $2
            dat     $3, $4
            sub.x   $5, $6
            ",
            modifier
        ));

        let zero = Offset::new(0, 8000);
        let exec = Executor::new(&mut core, zero);

        exec.run_on_fields(&mut core, |a: Offset, b: Offset| {
            let string_ans = a.value().to_string() + &b.value().to_string();
            Some(zero.add_i32(string_ans.parse::<i32>().unwrap()))
        });

        assert_eq!(
            core.get(2),
            Instruction {
                opcode: Opcode::Sub,
                modifier: Modifier::X,
                a_field: Field::direct(expected_a),
                b_field: Field::direct(expected_b),
            },
            "modifier {}",
            modifier
        );
    }
}

#[test]
fn instruction_modifier() {
    let mut core = build_core(
        "
        dat.i $1, $2
        add.f $3, $4
        sub.x $5, $6
        ",
    );

    let output = Offset::new(0, 8000);
    let zero = Offset::new(0, 8000);

    let exec = Executor::new(&mut core, zero);

    exec.run_on_instructions(
        &mut core,
        |a: Offset, b: Offset| {
            let string_ans = a.value().to_string() + &b.value().to_string();
            Some(output.add_i32(string_ans.parse::<i32>().unwrap()))
        },
        Some(|a: Instruction, b: Instruction| {
            assert_eq!(a.opcode, Opcode::Add);
            assert_eq!(b.opcode, Opcode::Sub);

            Some(Instruction {
                opcode: Opcode::Nop,
                modifier: Modifier::AB,
                a_field: Field::direct(0),
                b_field: Field::direct(0),
            })
        }),
    );

    assert_eq!(
        core.get(2),
        Instruction {
            opcode: Opcode::Nop,
            modifier: Modifier::AB,
            a_field: Field::direct(35),
            b_field: Field::direct(46),
        }
    );
}

#[test]
fn core_error_messages() {
    assert_eq!(CoreError::WarriorTooLong.message(), "warrior has too many instructions to fit in the core");
    assert_eq!(CoreError::InvalidCoreSize(u32::MAX).message(), "cannot create a core with size 4294967295; must be less than 4294967295");
    assert_eq!(CoreError::UnresolvedLabels.message(), "warrior has unresolved labels");
    assert_eq!(
        CoreError::WarriorAlreadyLoaded(ProcessError::ProcessNameExists("imp".to_string())).message(),
        "a process with the name 'imp' already exists"
    );
}
