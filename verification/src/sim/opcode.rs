//! What each opcode does during a simulation step.

use vstd::prelude::*;

use crate::load_file::program::instructions_model;
use crate::load_file::{Instruction, Offset, Opcode, SpecInstruction};

use super::address::{cells_wf, field_value, value_of};
use super::modifier::{compares_equal, divides_by_zero, executed, executor_start, Executor, FieldOp};
use super::process::{Error, SpecError};

verus! {

/// What executing an instruction leads to.
pub enum Outcome {
    /// The process goes on at the program counter moved by this much.
    Advance(int),
    /// The process executed a `DAT`.
    Dat,
    /// The process divided by zero.
    DivideByZero,
    /// The simulator does not run this opcode.
    Unsupported(Opcode),
}

/// The cells after executing the instruction at `pc`, and what it leads to:
/// `DAT` ends the process; `JMP` moves the program counter by its A value;
/// `ADD`, `MOV` and `DIV` write into the B target; `CMP` and `SEQ` skip the
/// next instruction when the operands are equal.
pub open spec fn execution(cells: Seq<SpecInstruction>, pc: int) -> (Seq<SpecInstruction>, Outcome) {
    let instruction = cells[pc];
    match instruction.opcode {
        Opcode::Dat => (cells, Outcome::Dat),
        Opcode::Jmp => (cells, Outcome::Advance(field_value(instruction.a_field) as int)),
        Opcode::Add => {
            let (c, ex) = executor_start(cells, pc);
            (executed(c, ex, FieldOp::Add, false), Outcome::Advance(1))
        },
        Opcode::Mov => {
            let (c, ex) = executor_start(cells, pc);
            (executed(c, ex, FieldOp::Copy, true), Outcome::Advance(1))
        },
        Opcode::Div => {
            let (c, ex) = executor_start(cells, pc);
            (executed(c, ex, FieldOp::Divide, false), if divides_by_zero(c, ex) {
                Outcome::DivideByZero
            } else {
                Outcome::Advance(1)
            })
        },
        Opcode::Cmp | Opcode::SkipEq => {
            let (c, ex) = executor_start(cells, pc);
            (c, Outcome::Advance(if compares_equal(c, ex) {
                2
            } else {
                1
            }))
        },
        _ => (cells, Outcome::Unsupported(instruction.opcode)),
    }
}

/// What an executed instruction tells the process: how far to move its
/// program counter.
#[derive(Debug)]
pub struct Executed {
    pub program_counter_offset: i32,
}

/// Whether an exec result of executing agrees with an outcome.
pub open spec fn outcome_matches(res: Result<Executed, Error>, outcome: Outcome, pc: Offset) -> bool {
    match outcome {
        Outcome::Advance(d) => res matches Ok(e) && e.program_counter_offset == d,
        Outcome::Dat => res matches Err(e) && e@ == SpecError::ExecuteDat(pc),
        Outcome::DivideByZero => res matches Err(e) && e@ == SpecError::DivideByZero,
        Outcome::Unsupported(o) => res matches Err(e) && e@ == SpecError::UnsupportedOpcode(o),
    }
}

/// Executes the instruction at `pc`, as [`execution`] says.
pub fn execute_at(cells: &mut Vec<Instruction>, pc: Offset) -> (res: Result<Executed, Error>)
    requires
        cells_wf(instructions_model(old(cells)@)),
        pc.wf(),
        pc.size() == old(cells)@.len(),
    ensures
        cells_wf(instructions_model(final(cells)@)),
        final(cells)@.len() == old(cells)@.len(),
        instructions_model(final(cells)@) == execution(instructions_model(old(cells)@), pc.pos() as int).0,
        outcome_matches(res, execution(instructions_model(old(cells)@), pc.pos() as int).1, pc),
{
    let ghost m = instructions_model(cells@);
    proof {
        pc.lemma_wf();
    }
    let i = pc.value() as usize;
    assert(m[i as int] == cells@[i as int]@);
    let opcode = cells[i].opcode;
    match opcode {
        Opcode::Dat => Err(Error::ExecuteDat(pc)),
        Opcode::Jmp => {
            assert(m[i as int].a_field.value is Literal);
            let v = value_of(&cells[i].a_field);
            Ok(Executed { program_counter_offset: v })
        },
        Opcode::Add | Opcode::Mov | Opcode::Div => {
            let ex = Executor::start(cells, pc);
            let op = match opcode {
                Opcode::Add => FieldOp::Add,
                Opcode::Mov => FieldOp::Copy,
                _ => FieldOp::Divide,
            };
            let (zero, _) = ex.run_on_cells(cells, op, opcode == Opcode::Mov);
            if opcode == Opcode::Div && zero {
                Err(Error::DivideByZero)
            } else {
                Ok(Executed { program_counter_offset: 1 })
            }
        },
        Opcode::Cmp | Opcode::SkipEq => {
            let ex = Executor::start(cells, pc);
            let ghost before = cells@;
            let (_, equal) = ex.run_on_cells(cells, FieldOp::Compare, true);
            proof {
                let c = instructions_model(before);
                assert(executed(c, ex@, FieldOp::Compare, true) =~= c);
                assert(instructions_model(cells@) == c);
            }
            Ok(Executed { program_counter_offset: if equal { 2 } else { 1 } })
        },
        _ => Err(Error::UnsupportedOpcode(opcode)),
    }
}

} // verus!
