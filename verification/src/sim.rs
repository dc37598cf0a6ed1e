//! Simulation of a Core War battle: a [`Core`] of instructions in which
//! loaded warriors run, one instruction per step, in the order of the
//! process queue.

pub mod address;
pub mod modifier;
pub mod opcode;
pub mod process;

use vstd::prelude::*;

use crate::load_file::metadata::opt_text;
use crate::load_file::offset::{moved_offset, offset_at};
use crate::load_file::program::instructions_model;
use crate::load_file::offset::wrap;
use crate::load_file::{Instruction, Modifier, Offset, Opcode, SpecInstruction, Warrior};
use crate::text;

use address::{cells_wf, field_value, EvalTime};
use modifier::Executor;
use opcode::{execution, Executed, Outcome};
use process::{count_named, Queue, SpecEntry};

verus! {

/// The number of steps [`Core::run`] takes when no limit is given.
pub const DEFAULT_MAXCYCLES: usize = 10_000;

/// An error while creating a core or loading a warrior into it.
#[derive(Debug)]
pub enum Error {
    /// The warrior has more instructions than the core has cells.
    WarriorTooLong,
    /// A core cannot have this size: `u32::MAX` cells are not allowed.
    InvalidCoreSize(u32),
    /// A warrior of the same name is already loaded.
    WarriorAlreadyLoaded(process::Error),
    /// The warrior still has fields that name labels instead of numbers.
    UnresolvedLabels,
}

/// The mathematical model of an [`Error`].
pub enum SpecError {
    WarriorTooLong,
    InvalidCoreSize(u32),
    WarriorAlreadyLoaded(process::SpecError),
    UnresolvedLabels,
}

impl View for Error {
    type V = SpecError;

    open spec fn view(&self) -> SpecError {
        match self {
            Error::WarriorTooLong => SpecError::WarriorTooLong,
            Error::InvalidCoreSize(n) => SpecError::InvalidCoreSize(*n),
            Error::WarriorAlreadyLoaded(e) => SpecError::WarriorAlreadyLoaded(e@),
            Error::UnresolvedLabels => SpecError::UnresolvedLabels,
        }
    }
}

impl PartialEq for Error {
    fn eq(&self, other: &Self) -> (res: bool) {
        match (self, other) {
            (Error::WarriorTooLong, Error::WarriorTooLong) => true,
            (Error::InvalidCoreSize(a), Error::InvalidCoreSize(b)) => *a == *b,
            (Error::WarriorAlreadyLoaded(a), Error::WarriorAlreadyLoaded(b)) => a.eq(b),
            (Error::UnresolvedLabels, Error::UnresolvedLabels) => true,
            _ => false,
        }
    }
}

impl vstd::std_specs::cmp::PartialEqSpecImpl for Error {
    open spec fn obeys_eq_spec() -> bool {
        true
    }

    open spec fn eq_spec(&self, other: &Self) -> bool {
        self@ == other@
    }
}

/// The message describing an error.
pub open spec fn error_message(e: SpecError) -> Seq<char> {
    match e {
        SpecError::WarriorTooLong => "warrior has too many instructions to fit in the core"@,
        SpecError::InvalidCoreSize(n) => "cannot create a core with size "@ + text::decimal(n as int)
            + "; must be less than 4294967295"@,
        SpecError::WarriorAlreadyLoaded(p) => process::error_message(p),
        SpecError::UnresolvedLabels => "warrior has unresolved labels"@,
    }
}

impl Error {
    /// A description of the error, as [`error_message`] says.
    pub fn message(&self) -> (res: String)
        ensures
            res@ == error_message(self@),
    {
        match self {
            Error::WarriorTooLong => String::from_str("warrior has too many instructions to fit in the core"),
            Error::InvalidCoreSize(n) => {
                let mut v = text::chars_of("cannot create a core with size ");
                let mut d = text::usize_to_chars(*n as usize);
                v.append(&mut d);
                let mut t = text::chars_of("; must be less than 4294967295");
                v.append(&mut t);
                text::string_from(v.as_slice())
            },
            Error::WarriorAlreadyLoaded(p) => p.message(),
            Error::UnresolvedLabels => String::from_str("warrior has unresolved labels"),
        }
    }
}

/// The state of a simulation: the cells, the queued threads, and the number
/// of steps taken.
pub struct SimState {
    pub cells: Seq<SpecInstruction>,
    pub entries: Seq<SpecEntry>,
    pub steps: int,
}

/// One step: the thread at the front of the queue executes the instruction
/// at its program counter and, unless that ends it, goes to the back of the
/// queue with its program counter moved. The step fails when the queue is
/// empty, on an unsupported opcode, or when the thread ends (on `DAT` or a
/// division by zero) and its process has no other thread.
pub open spec fn sim_step(st: SimState) -> (SimState, Result<(), process::SpecError>) {
    if st.entries.len() == 0 {
        (SimState { steps: st.steps + 1, ..st }, Err(process::SpecError::NoRemainingProcesses))
    } else {
        let e = st.entries[0];
        let (cells, outcome) = execution(st.cells, e.offset.pos() as int);
        let rest = st.entries.drop_first();
        match outcome {
            Outcome::Advance(d) => (
                SimState {
                    cells,
                    entries: rest.push(SpecEntry { offset: moved_offset(e.offset, d), ..e }),
                    steps: st.steps + 1,
                },
                Ok(()),
            ),
            Outcome::Dat => (
                SimState { cells, entries: rest, steps: st.steps + 1 },
                if count_named(rest, e.name) == 0 {
                    Err(process::SpecError::ExecuteDat(e.offset))
                } else {
                    Ok(())
                },
            ),
            Outcome::DivideByZero => (
                SimState { cells, entries: rest, steps: st.steps + 1 },
                if count_named(rest, e.name) == 0 {
                    Err(process::SpecError::DivideByZero)
                } else {
                    Ok(())
                },
            ),
            Outcome::Unsupported(o) => (
                SimState { cells, entries: rest, steps: st.steps + 1 },
                Err(process::SpecError::UnsupportedOpcode(o)),
            ),
        }
    }
}

/// Steps until `max_cycles` steps have been taken or a step fails.
pub open spec fn sim_run(st: SimState, max_cycles: int) -> (SimState, Result<(), process::SpecError>)
    decreases max_cycles - st.steps,
{
    if st.steps >= max_cycles {
        (st, Ok(()))
    } else {
        let (next, r) = sim_step(st);
        if r is Err {
            (next, r)
        } else {
            sim_run(next, max_cycles)
        }
    }
}

/// Applying an address mode's side effect keeps the size of the core.
proof fn lemma_applied_len(cells: Seq<SpecInstruction>, pc: int, f: crate::load_file::SpecField, t: EvalTime)
    requires
        cells.len() > 0,
    ensures
        address::applied(cells, pc, f, t).len() == cells.len(),
{
    let n = cells.len() as int;
    let loc = crate::load_file::offset::wrap(pc + address::field_value(f), n);
    assert(0 <= loc < n);
}

/// Reading the operands keeps the size of the core, and both pointers are
/// positions in it.
proof fn lemma_start_len(cells: Seq<SpecInstruction>, pc: int)
    requires
        cells.len() > 0,
    ensures
        modifier::executor_start(cells, pc).0.len() == cells.len(),
        0 <= modifier::executor_start(cells, pc).1.b_ptr < cells.len(),
{
    let c0 = cells;
    lemma_applied_len(c0, pc, c0[pc].a_field, EvalTime::Pre);
    let c1 = address::applied(c0, pc, c0[pc].a_field, EvalTime::Pre);
    lemma_applied_len(c1, pc, c1[pc].a_field, EvalTime::Post);
    let c2 = address::applied(c1, pc, c1[pc].a_field, EvalTime::Post);
    let b_ptr = address::pointer(c2, pc, c2[pc].b_field);
    assert(0 <= b_ptr < cells.len());
    lemma_applied_len(c2, pc, c2[pc].b_field, EvalTime::Pre);
    let c3 = address::applied(c2, pc, c2[pc].b_field, EvalTime::Pre);
    lemma_applied_len(c3, pc, c3[pc].b_field, EvalTime::Post);
}

/// A step never changes the size of the core, and counts one step.
pub proof fn law_step_keeps_size(st: SimState)
    requires
        st.cells.len() > 0,
    ensures
        sim_step(st).0.cells.len() == st.cells.len(),
        sim_step(st).0.steps == st.steps + 1,
{
    if st.entries.len() > 0 {
        let pc = st.entries[0].offset.pos() as int;
        lemma_start_len(st.cells, pc);
    }
}

/// A run that does not fail takes exactly the steps up to the limit; one
/// that fails stops within it.
pub proof fn law_run_reaches_limit(st: SimState, max_cycles: int)
    requires
        st.cells.len() > 0,
        st.steps <= max_cycles,
    ensures
        sim_run(st, max_cycles).0.steps <= max_cycles,
        sim_run(st, max_cycles).1 is Ok ==> sim_run(st, max_cycles).0.steps == max_cycles,
        sim_run(st, max_cycles).0.cells.len() == st.cells.len(),
    decreases max_cycles - st.steps,
{
    if st.steps < max_cycles {
        law_step_keeps_size(st);
        let (next, r) = sim_step(st);
        if r is Ok {
            law_run_reaches_limit(next, max_cycles);
        }
    }
}

/// Every field of every cell holds a number.
pub open spec fn cells_resolved(cells: Seq<SpecInstruction>) -> bool {
    forall|i: int|
        0 <= i < cells.len() ==> (#[trigger] cells[i]).a_field.value is Literal && cells[i].b_field.value is Literal
}

/// A size a core can run warriors with: positive and fitting in an `i32`.
pub open spec fn runnable_size(n: int) -> bool {
    0 < n <= i32::MAX
}

/// The state after `k` steps from `st`, whatever each step returns.
pub open spec fn sim_steps(st: SimState, k: nat) -> SimState
    decreases k,
{
    if k == 0 {
        st
    } else {
        sim_steps(sim_step(st).0, (k - 1) as nat)
    }
}

/// Every step counts, whether it succeeds or fails: `k` steps add exactly
/// `k` to the number of steps taken.
pub proof fn law_steps_counted(st: SimState, k: nat)
    ensures
        sim_steps(st, k).steps == st.steps + k,
    decreases k,
{
    if k > 0 {
        law_steps_counted(sim_step(st).0, (k - 1) as nat);
    }
}

/// The number of calls in `stepped` that were steps.
pub open spec fn count_steps(stepped: Seq<bool>) -> nat
    decreases stepped.len(),
{
    if stepped.len() == 0 {
        0
    } else {
        count_steps(stepped.drop_last()) + if stepped.last() {
            1nat
        } else {
            0nat
        }
    }
}

/// Over any run of calls on a core, each either a step (which
/// [`Core::step`] makes exactly a [`sim_step`], whatever it returns) or a
/// call that keeps the number of steps (such as loading a warrior or
/// reading the core), the steps taken grow by exactly the number of steps.
pub proof fn law_steps_over_calls(states: Seq<SimState>, stepped: Seq<bool>)
    requires
        states.len() == stepped.len() + 1,
        forall|i: int|
            0 <= i < stepped.len() ==> if #[trigger] stepped[i] {
                states[i + 1] == sim_step(states[i]).0
            } else {
                states[i + 1].steps == states[i].steps
            },
    ensures
        states.last().steps == states[0].steps + count_steps(stepped),
    decreases stepped.len(),
{
    if stepped.len() > 0 {
        let k = stepped.len() - 1;
        let prefix = states.drop_last();
        assert forall|i: int| 0 <= i < stepped.drop_last().len() implies if #[trigger] stepped.drop_last()[i] {
            prefix[i + 1] == sim_step(prefix[i]).0
        } else {
            prefix[i + 1].steps == prefix[i].steps
        } by {
            assert(stepped.drop_last()[i] == stepped[i]);
        }
        law_steps_over_calls(prefix, stepped.drop_last());
        assert(stepped[k] == stepped.last());
        if stepped[k] {
            lemma_step_counts(states[k]);
        }
    }
}

/// A step counts one step, whatever it returns.
proof fn lemma_step_counts(st: SimState)
    ensures
        sim_step(st).0.steps == st.steps + 1,
{
}

/// Address-mode side effects change only field values: every cell keeps
/// its opcode and modifier.
proof fn lemma_applied_keeps_kinds(cells: Seq<SpecInstruction>, pc: int, f: crate::load_file::SpecField, t: EvalTime)
    requires
        cells.len() > 0,
    ensures
        address::applied(cells, pc, f, t).len() == cells.len(),
        forall|i: int|
            0 <= i < cells.len() ==> (#[trigger] address::applied(cells, pc, f, t)[i]).opcode == cells[i].opcode
                && address::applied(cells, pc, f, t)[i].modifier == cells[i].modifier,
{
    let n = cells.len() as int;
    let loc = wrap(pc + field_value(f), n);
    assert(0 <= loc < n);
}

/// Reading the operands keeps every cell's opcode and modifier.
proof fn lemma_start_keeps_kinds(cells: Seq<SpecInstruction>, pc: int)
    requires
        cells.len() > 0,
    ensures
        modifier::executor_start(cells, pc).0.len() == cells.len(),
        forall|i: int|
            0 <= i < cells.len() ==> (#[trigger] modifier::executor_start(cells, pc).0[i]).opcode == cells[i].opcode
                && modifier::executor_start(cells, pc).0[i].modifier == cells[i].modifier,
{
    let c0 = cells;
    lemma_applied_keeps_kinds(c0, pc, c0[pc].a_field, EvalTime::Pre);
    let c1 = address::applied(c0, pc, c0[pc].a_field, EvalTime::Pre);
    lemma_applied_keeps_kinds(c1, pc, c1[pc].a_field, EvalTime::Post);
    let c2 = address::applied(c1, pc, c1[pc].a_field, EvalTime::Post);
    lemma_applied_keeps_kinds(c2, pc, c2[pc].b_field, EvalTime::Pre);
    let c3 = address::applied(c2, pc, c2[pc].b_field, EvalTime::Pre);
    lemma_applied_keeps_kinds(c3, pc, c3[pc].b_field, EvalTime::Post);
}

/// A comparison (`CMP` or `SEQ`) never fails and never changes the cells
/// beyond its operands' address-mode side effects; it skips the next
/// instruction (moving the thread by 2) exactly when the fields its
/// modifier selects are equal (the A operand's against the B operand's,
/// each wrapped into the core) and, with the `I` modifier, the A operand
/// is also the same instruction as the B target (opcode, modifier, modes
/// and values); otherwise it moves the thread by 1.
pub proof fn law_compare_skips_exactly_when_equal(st: SimState)
    requires
        st.entries.len() > 0,
        st.cells.len() > 0,
        0 <= st.entries[0].offset.pos() < st.cells.len(),
        st.cells[st.entries[0].offset.pos() as int].opcode == Opcode::Cmp || st.cells[st.entries[0].offset.pos() as int].opcode
            == Opcode::SkipEq,
    ensures
        ({
            let e = st.entries[0];
            let pc = e.offset.pos() as int;
            let n = st.cells.len() as int;
            let (c, ex) = modifier::executor_start(st.cells, pc);
            let aa = wrap(field_value(ex.a_value.a_field) as int, n);
            let ab = wrap(field_value(ex.a_value.b_field) as int, n);
            let ba = wrap(field_value(ex.b_value.a_field) as int, n);
            let bb = wrap(field_value(ex.b_value.b_field) as int, n);
            let equal = match st.cells[pc].modifier {
                Modifier::A => aa == ba,
                Modifier::B => ab == bb,
                Modifier::AB => aa == bb,
                Modifier::BA => ab == ba,
                Modifier::F => aa == ba && ab == bb,
                Modifier::X => ab == ba && aa == bb,
                Modifier::I => aa == ba && ab == bb && ex.a_value == c[ex.b_ptr],
            };
            &&& sim_step(st).1 == Ok::<(), process::SpecError>(())
            &&& sim_step(st).0.cells == c
            &&& sim_step(st).0.entries == st.entries.drop_first().push(
                SpecEntry { offset: moved_offset(e.offset, if equal { 2 } else { 1 }), ..e },
            )
        }),
{
    let pc = st.entries[0].offset.pos() as int;
    lemma_start_keeps_kinds(st.cells, pc);
}

/// A division (`DIV`) whose modifier selects a pair with a zero divisor
/// (the B operand's A field for `A`, `BA`, `F`, `I` and `X`; its B field
/// for `B`, `AB`, `F`, `I` and `X`) ends the thread: it leaves the queue,
/// and the step fails with `DivideByZero` when it was its process's last
/// thread. Otherwise the thread moves on by 1.
pub proof fn law_division_by_zero_ends_thread(st: SimState)
    requires
        st.entries.len() > 0,
        st.cells.len() > 0,
        0 <= st.entries[0].offset.pos() < st.cells.len(),
        st.cells[st.entries[0].offset.pos() as int].opcode == Opcode::Div,
    ensures
        ({
            let e = st.entries[0];
            let pc = e.offset.pos() as int;
            let n = st.cells.len() as int;
            let (c, ex) = modifier::executor_start(st.cells, pc);
            let ba = wrap(field_value(ex.b_value.a_field) as int, n);
            let bb = wrap(field_value(ex.b_value.b_field) as int, n);
            let zero = match st.cells[pc].modifier {
                Modifier::A | Modifier::BA => ba == 0,
                Modifier::B | Modifier::AB => bb == 0,
                Modifier::F | Modifier::I | Modifier::X => ba == 0 || bb == 0,
            };
            let rest = st.entries.drop_first();
            if zero {
                &&& sim_step(st).0.entries == rest
                &&& sim_step(st).1 == if count_named(rest, e.name) == 0 {
                    Err::<(), process::SpecError>(process::SpecError::DivideByZero)
                } else {
                    Ok::<(), process::SpecError>(())
                }
            } else {
                &&& sim_step(st).1 == Ok::<(), process::SpecError>(())
                &&& sim_step(st).0.entries == rest.push(SpecEntry { offset: moved_offset(e.offset, 1), ..e })
            }
        }),
{
    let pc = st.entries[0].offset.pos() as int;
    lemma_start_keeps_kinds(st.cells, pc);
}

/// A field holding the number `v`, with the address mode of `f`.
pub open spec fn number_field(f: crate::load_file::SpecField, v: int) -> crate::load_file::SpecField {
    crate::load_file::SpecField { value: crate::load_file::SpecValue::Literal(v as i32), ..f }
}

/// An addition (`ADD`) writes into the B target the sums, wrapped into the
/// core, of the fields its modifier pairs (A operand's field first, B
/// operand's second): `A` a+a into A, `B` b+b into B, `AB` a+b into B, `BA`
/// b+a into A, `F` and `I` both straight pairs, `X` both crossed pairs; the
/// thread then moves on by 1.
pub proof fn law_addition_writes_sums(st: SimState)
    requires
        st.entries.len() > 0,
        st.cells.len() > 0,
        0 <= st.entries[0].offset.pos() < st.cells.len(),
        st.cells[st.entries[0].offset.pos() as int].opcode == Opcode::Add,
    ensures
        ({
            let e = st.entries[0];
            let pc = e.offset.pos() as int;
            let n = st.cells.len() as int;
            let (c, ex) = modifier::executor_start(st.cells, pc);
            let aa = wrap(field_value(ex.a_value.a_field) as int, n);
            let ab = wrap(field_value(ex.a_value.b_field) as int, n);
            let ba = wrap(field_value(ex.b_value.a_field) as int, n);
            let bb = wrap(field_value(ex.b_value.b_field) as int, n);
            let t = c[ex.b_ptr];
            let target = match st.cells[pc].modifier {
                Modifier::A => SpecInstruction { a_field: number_field(t.a_field, wrap(aa + ba, n)), ..t },
                Modifier::B => SpecInstruction { b_field: number_field(t.b_field, wrap(ab + bb, n)), ..t },
                Modifier::AB => SpecInstruction { b_field: number_field(t.b_field, wrap(aa + bb, n)), ..t },
                Modifier::BA => SpecInstruction { a_field: number_field(t.a_field, wrap(ab + ba, n)), ..t },
                Modifier::F | Modifier::I => SpecInstruction {
                    a_field: number_field(t.a_field, wrap(aa + ba, n)),
                    b_field: number_field(t.b_field, wrap(ab + bb, n)),
                    ..t
                },
                Modifier::X => SpecInstruction {
                    a_field: number_field(t.a_field, wrap(ab + ba, n)),
                    b_field: number_field(t.b_field, wrap(aa + bb, n)),
                    ..t
                },
            };
            &&& sim_step(st).1 == Ok::<(), process::SpecError>(())
            &&& sim_step(st).0.cells == c.update(ex.b_ptr, target)
            &&& sim_step(st).0.entries == st.entries.drop_first().push(SpecEntry { offset: moved_offset(e.offset, 1), ..e })
        }),
{
    let pc = st.entries[0].offset.pos() as int;
    lemma_start_keeps_kinds(st.cells, pc);
}

/// A move (`MOV`) copies into the B target the A operand's values its
/// modifier selects (`A` a into A, `B` b into B, `AB` a into B, `BA` b into
/// A, `F` both, `X` both crossed), each wrapped into the core; with `I` it
/// copies both values and the A operand's opcode and modifier. The thread
/// then moves on by 1.
pub proof fn law_move_copies(st: SimState)
    requires
        st.entries.len() > 0,
        st.cells.len() > 0,
        0 <= st.entries[0].offset.pos() < st.cells.len(),
        st.cells[st.entries[0].offset.pos() as int].opcode == Opcode::Mov,
    ensures
        ({
            let e = st.entries[0];
            let pc = e.offset.pos() as int;
            let n = st.cells.len() as int;
            let (c, ex) = modifier::executor_start(st.cells, pc);
            let aa = wrap(field_value(ex.a_value.a_field) as int, n);
            let ab = wrap(field_value(ex.a_value.b_field) as int, n);
            let t = c[ex.b_ptr];
            let target = match st.cells[pc].modifier {
                Modifier::A => SpecInstruction { a_field: number_field(t.a_field, aa), ..t },
                Modifier::B => SpecInstruction { b_field: number_field(t.b_field, ab), ..t },
                Modifier::AB => SpecInstruction { b_field: number_field(t.b_field, aa), ..t },
                Modifier::BA => SpecInstruction { a_field: number_field(t.a_field, ab), ..t },
                Modifier::F => SpecInstruction {
                    a_field: number_field(t.a_field, aa),
                    b_field: number_field(t.b_field, ab),
                    ..t
                },
                Modifier::X => SpecInstruction {
                    a_field: number_field(t.a_field, ab),
                    b_field: number_field(t.b_field, aa),
                    ..t
                },
                Modifier::I => SpecInstruction {
                    opcode: ex.a_value.opcode,
                    modifier: ex.a_value.modifier,
                    a_field: number_field(t.a_field, aa),
                    b_field: number_field(t.b_field, ab),
                },
            };
            &&& sim_step(st).1 == Ok::<(), process::SpecError>(())
            &&& sim_step(st).0.cells == c.update(ex.b_ptr, target)
            &&& sim_step(st).0.entries == st.entries.drop_first().push(SpecEntry { offset: moved_offset(e.offset, 1), ..e })
        }),
{
    let pc = st.entries[0].offset.pos() as int;
    lemma_start_keeps_kinds(st.cells, pc);
}

/// A jump (`JMP`) changes no cell and moves the thread by its A value; a
/// `DAT` changes no cell and ends the thread, failing with `ExecuteDat` at
/// its position when it was its process's last thread.
pub proof fn law_jump_and_dat(st: SimState)
    requires
        st.entries.len() > 0,
        0 <= st.entries[0].offset.pos() < st.cells.len(),
    ensures
        ({
            let e = st.entries[0];
            let i = st.cells[e.offset.pos() as int];
            let rest = st.entries.drop_first();
            &&& i.opcode == Opcode::Jmp ==> sim_step(st).1 == Ok::<(), process::SpecError>(()) && sim_step(st).0.cells
                == st.cells && sim_step(st).0.entries == rest.push(
                SpecEntry { offset: moved_offset(e.offset, field_value(i.a_field) as int), ..e },
            )
            &&& i.opcode == Opcode::Dat ==> sim_step(st).0.cells == st.cells && sim_step(st).0.entries == rest
                && sim_step(st).1 == if count_named(rest, e.name) == 0 {
                Err::<(), process::SpecError>(process::SpecError::ExecuteDat(e.offset))
            } else {
                Ok::<(), process::SpecError>(())
            }
        }),
{
}

/// The cells after loading a program at the start of the core.
pub open spec fn loaded(cells: Seq<SpecInstruction>, program: Seq<SpecInstruction>) -> Seq<SpecInstruction> {
    program + cells.skip(program.len() as int)
}

/// The name a warrior's process gets: its name, or `Warrior0`.
pub open spec fn process_name(w: &Warrior) -> Seq<char> {
    match opt_text(w.metadata.name) {
        Some(n) => n,
        None => "Warrior0"@,
    }
}

/// The number of default cells from `i` on, before another kind of cell.
pub open spec fn default_run(cells: Seq<SpecInstruction>, i: int) -> nat
    decreases cells.len() - i,
{
    if 0 <= i < cells.len() && cells[i] == SpecInstruction::default_instruction() {
        1 + default_run(cells, i + 1)
    } else {
        0
    }
}

/// A run of default cells ends within the cells.
pub proof fn lemma_default_run_bounded(cells: Seq<SpecInstruction>, i: int)
    requires
        0 <= i <= cells.len(),
    ensures
        i + default_run(cells, i) <= cells.len(),
    decreases cells.len() - i,
{
    if i < cells.len() {
        lemma_default_run_bounded(cells, i + 1);
    }
}

/// The line that marks the program counter.
pub open spec fn pc_marker() -> Seq<char> {
    "   <= PC"@
}

/// The lines describing the cells from `i` on: the program counter's cell
/// is marked; a run of more than five default cells after a default cell is
/// shortened to a default cell, a count of the others, and a default cell.
pub open spec fn core_lines(cells: Seq<SpecInstruction>, pc: Option<int>, i: int) -> Seq<Seq<char>>
    decreases cells.len() - i,
{
    if i < 0 || i >= cells.len() {
        Seq::empty()
    } else if pc == Some(i) {
        seq![cells[i].text() + pc_marker()] + core_lines(cells, pc, i + 1)
    } else if cells[i] != SpecInstruction::default_instruction() {
        seq![cells[i].text()] + core_lines(cells, pc, i + 1)
    } else {
        let k = default_run(cells, i + 1);
        let d = SpecInstruction::default_instruction().text();
        proof {
            lemma_default_run_bounded(cells, i + 1);
        }
        let shown = if k > 5 {
            seq![d, "...     ("@ + text::decimal(k - 2) + " more)"@, d]
        } else {
            Seq::new(k as nat, |_j: int| d)
        };
        shown + core_lines(cells, pc, i + 1 + k)
    }
}

/// Lines joined by line breaks.
pub open spec fn joined(lines: Seq<Seq<char>>) -> Seq<char>
    decreases lines.len(),
{
    if lines.len() == 0 {
        Seq::empty()
    } else if lines.len() == 1 {
        lines[0]
    } else {
        joined(lines.drop_last()) + seq!['\n'] + lines.last()
    }
}

/// The full memory of a battle at a point in time.
#[derive(Debug)]
pub struct Core {
    instructions: Vec<Instruction>,
    process_queue: Queue,
    steps_taken: usize,
}

impl Core {
    /// The cells of the core.
    pub closed spec fn cells(&self) -> Seq<SpecInstruction> {
        instructions_model(self.instructions@)
    }

    /// The queued threads, front first.
    pub closed spec fn entries(&self) -> Seq<SpecEntry> {
        self.process_queue.entries()
    }

    /// For each process ever queued, its number of queued threads.
    pub closed spec fn counts(&self) -> Map<Seq<char>, usize> {
        self.process_queue.counts()
    }

    /// For each process that has been given thread ids, the next one.
    pub closed spec fn next_ids(&self) -> Map<Seq<char>, usize> {
        self.process_queue.next_ids()
    }

    /// The thread id the next thread of process `name` gets.
    pub closed spec fn fresh_thread(&self, name: Seq<char>) -> usize {
        self.process_queue.fresh_id(name)
    }

    /// Whether process `name` can have no more threads: its thread ids or
    /// its thread count reached the largest `usize`.
    pub closed spec fn thread_limit_reached(&self, name: Seq<char>) -> bool {
        self.process_queue.fresh_id(name) == usize::MAX || (self.process_queue.counts().contains_key(name)
            && self.process_queue.counts()[name] == usize::MAX)
    }

    /// The number of steps taken.
    pub closed spec fn steps(&self) -> usize {
        self.steps_taken
    }

    /// The state of the simulation.
    pub open spec fn state(&self) -> SimState {
        SimState { cells: self.cells(), entries: self.entries(), steps: self.steps() as int }
    }

    /// Fewer than `u32::MAX` cells, all holding numbers; the queue is
    /// consistent, and every queued program counter is a position in this
    /// core.
    pub closed spec fn wf(&self) -> bool {
        &&& self.cells().len() < u32::MAX
        &&& cells_resolved(self.cells())
        &&& self.process_queue.wf()
        &&& forall|i: int|
            0 <= i < self.entries().len() ==> (#[trigger] self.entries()[i]).offset.wf() && self.entries()[i].offset.size()
                == self.cells().len()
    }

    /// A well-formed core has fewer than `u32::MAX` cells, all holding
    /// numbers, and its queued program counters are positions in it; with a
    /// queued thread, its size is one that offsets can use.
    pub proof fn lemma_bounds(&self)
        requires
            self.wf(),
        ensures
            self.cells().len() < u32::MAX,
            cells_resolved(self.cells()),
            forall|i: int|
                0 <= i < self.entries().len() ==> (#[trigger] self.entries()[i]).offset.pos() < self.cells().len(),
            self.entries().len() > 0 ==> runnable_size(self.cells().len() as int),
    {
        assert forall|i: int| 0 <= i < self.entries().len() implies (#[trigger] self.entries()[i]).offset.pos()
            < self.cells().len() by {
            self.entries()[i].offset.lemma_wf();
        }
        if self.entries().len() > 0 {
            self.entries()[0].offset.lemma_wf();
        }
    }

    /// A well-formed core with a queued thread has a size that offsets can use.
    proof fn lemma_running(&self)
        requires
            self.wf(),
            self.entries().len() > 0,
        ensures
            cells_wf(self.cells()),
    {
        self.entries()[0].offset.lemma_wf();
    }

    /// For each process ever queued, the count is its number of queued
    /// threads, and every queued thread's process is known.
    pub proof fn lemma_counts_agree(&self)
        requires
            self.wf(),
        ensures
            forall|n: Seq<char>| #[trigger] self.counts().contains_key(n) ==> self.counts()[n] == count_named(self.entries(), n),
            forall|i: int| 0 <= i < self.entries().len() ==> self.counts().contains_key(#[trigger] self.entries()[i].name),
    {
        self.process_queue.lemma_counts_agree();
    }

    /// A core of `core_size` cells, each `DAT.F $0, $0`, with no process.
    /// The size `u32::MAX` is refused; every other size, zero included, is
    /// accepted (though only sizes from 1 to `i32::MAX` can run a warrior).
    pub fn new(core_size: u32) -> (res: Result<Core, Error>)
        ensures
            match res {
                Ok(c) => c.wf() && core_size < u32::MAX && c.cells() == Seq::new(
                    core_size as nat,
                    |_i: int| SpecInstruction::default_instruction(),
                ) && c.entries().len() == 0 && c.steps() == 0 && c.counts() == Map::<Seq<char>, usize>::empty()
                    && c.next_ids() == Map::<Seq<char>, usize>::empty(),
                Err(e) => e@ == SpecError::InvalidCoreSize(core_size) && core_size == u32::MAX,
            },
    {
        if core_size == u32::MAX {
            return Err(Error::InvalidCoreSize(core_size));
        }
        let n = core_size as usize;
        let mut instructions: Vec<Instruction> = Vec::new();
        let mut i: usize = 0;
        while i < n
            invariant
                i <= n,
                instructions@.len() == i,
                instructions_model(instructions@) == Seq::new(i as nat, |_i: int| SpecInstruction::default_instruction()),
            decreases n - i,
        {
            let ghost before = instructions@;
            let d = Instruction::default();
            instructions.push(d);
            proof {
                assert(instructions_model(instructions@) =~= instructions_model(before).push(d@));
                assert(Seq::new(i as nat, |_i: int| SpecInstruction::default_instruction()).push(SpecInstruction::default_instruction())
                    =~= Seq::new((i + 1) as nat, |_i: int| SpecInstruction::default_instruction()));
            }
            i = i + 1;
        }
        let res = Core { instructions, process_queue: Queue::new(), steps_taken: 0 };
        Ok(res)
    }

    /// The cells, one line each (shortening long runs of default cells),
    /// with the next thread's program counter marked, as [`core_lines`] says.
    pub fn to_string(&self) -> (res: String)
        requires
            self.wf(),
        ensures
            res@ == joined(core_lines(
                self.cells(),
                if self.entries().len() > 0 {
                    Some(self.entries()[0].offset.pos() as int)
                } else {
                    None
                },
                0,
            )),
    {
        let ghost cells = self.cells();
        let pc: Option<usize> = match self.process_queue.peek() {
            Ok(e) => {
                proof {
                    e.offset.lemma_wf();
                }
                Some(e.offset.value() as usize)
            },
            Err(_) => None,
        };
        let ghost pcm: Option<int> = match pc {
            Some(p) => Some(p as int),
            None => None,
        };
        let n = self.instructions.len();
        let default = Instruction::default();
        let d = default.to_string();
        let mut lines: Vec<String> = Vec::new();
        let mut i: usize = 0;
        while i < n
            invariant
                i <= n,
                n == cells.len(),
                cells == self.cells(),
                d@ == SpecInstruction::default_instruction().text(),
                default@ == SpecInstruction::default_instruction(),
                core_lines(cells, pcm, 0) == crate::parser::phase::comment::strings_model(lines@) + core_lines(cells, pcm, i as int),
                pcm == match pc {
                    Some(p) => Some(p as int),
                    None => None::<int>,
                },
            decreases n - i,
        {
            let ghost before = crate::parser::phase::comment::strings_model(lines@);
            assert(cells[i as int] == self.instructions@[i as int]@);
            assert(core_lines(cells, pcm, i as int) == if pcm == Some(i as int) {
                seq![cells[i as int].text() + pc_marker()] + core_lines(cells, pcm, i + 1)
            } else if cells[i as int] != SpecInstruction::default_instruction() {
                seq![cells[i as int].text()] + core_lines(cells, pcm, i + 1)
            } else {
                let k = default_run(cells, i + 1);
                let dd = SpecInstruction::default_instruction().text();
                (if k > 5 {
                    seq![dd, "...     ("@ + text::decimal(k - 2) + " more)"@, dd]
                } else {
                    Seq::new(k as nat, |_j: int| dd)
                }) + core_lines(cells, pcm, i + 1 + k)
            });
            let is_pc = match pc {
                Some(p) => p == i,
                None => false,
            };
            if is_pc {
                let mut line = self.instructions[i].to_string();
                line.append("   <= PC");
                lines.push(line);
                proof {
                    assert(crate::parser::phase::comment::strings_model(lines@) =~= before.push(cells[i as int].text() + pc_marker()));
                    assert(before + core_lines(cells, pcm, i as int) =~= crate::parser::phase::comment::strings_model(lines@) + core_lines(cells, pcm, i + 1));
                }
                i = i + 1;
            } else if !self.instructions[i].eq(&default) {
                lines.push(self.instructions[i].to_string());
                proof {
                    assert(crate::parser::phase::comment::strings_model(lines@) =~= before.push(cells[i as int].text()));
                    assert(before + core_lines(cells, pcm, i as int) =~= crate::parser::phase::comment::strings_model(lines@) + core_lines(cells, pcm, i + 1));
                }
                i = i + 1;
            } else {
                let mut j = i + 1;
                while j < n && self.instructions[j].eq(&default)
                    invariant
                        i < j <= n,
                        n == cells.len(),
                        cells == self.cells(),
                        default@ == SpecInstruction::default_instruction(),
                        default_run(cells, i + 1) == (j - i - 1) + default_run(cells, j as int),
                    decreases n - j,
                {
                    assert(cells[j as int] == self.instructions@[j as int]@);
                    j = j + 1;
                }
                proof {
                    if j < n {
                        assert(cells[j as int] == self.instructions@[j as int]@);
                    }
                }
                let skipped = j - i - 1;
                let ghost k = skipped as int;
                assert(default_run(cells, i + 1) == k);
                let ghost shown = if k > 5 {
                    seq![d@, "...     ("@ + text::decimal(k - 2) + " more)"@, d@]
                } else {
                    Seq::new(k as nat, |_j: int| d@)
                };
                if skipped > 5 {
                    lines.push(default.to_string());
                    let mut more = String::from_str("...     (");
                    let count = text::usize_to_chars(skipped - 2);
                    let count_s = text::string_from(count.as_slice());
                    more.append(count_s.as_str());
                    more.append(" more)");
                    lines.push(more);
                    lines.push(default.to_string());
                } else {
                    let mut t: usize = 0;
                    while t < skipped
                        invariant
                            t <= skipped,
                            d@ == SpecInstruction::default_instruction().text(),
                            default@ == SpecInstruction::default_instruction(),
                            crate::parser::phase::comment::strings_model(lines@) == before + Seq::new(t as nat, |_j: int| d@),
                        decreases skipped - t,
                    {
                        let ghost b2 = lines@;
                        lines.push(default.to_string());
                        proof {
                            assert(crate::parser::phase::comment::strings_model(lines@) =~= crate::parser::phase::comment::strings_model(b2).push(d@));
                            assert(Seq::new(t as nat, |_j: int| d@).push(d@) =~= Seq::new((t + 1) as nat, |_j: int| d@));
                        }
                        t = t + 1;
                    }
                }
                proof {
                    assert(crate::parser::phase::comment::strings_model(lines@) =~= before + shown);
                    assert(before + core_lines(cells, pcm, i as int) =~= crate::parser::phase::comment::strings_model(lines@) + core_lines(cells, pcm, j as int));
                }
                i = j;
            }
        }
        proof {
            assert(core_lines(cells, pcm, n as int) == Seq::<Seq<char>>::empty());
            assert(crate::parser::phase::comment::strings_model(lines@) + Seq::<Seq<char>>::empty() =~= crate::parser::phase::comment::strings_model(lines@));
        }
        join_lines(&lines)
    }

    /// The program counter of the thread that runs next, if any.
    pub fn program_counter(&self) -> (res: Option<Offset>)
        ensures
            match res {
                Some(o) => self.entries().len() > 0 && o == self.entries()[0].offset,
                None => self.entries().len() == 0,
            },
    {
        match self.process_queue.peek() {
            Ok(e) => Some(e.offset),
            Err(_) => None,
        }
    }

    /// The number of steps taken.
    pub fn steps_taken(&self) -> (res: usize)
        ensures
            res == self.steps(),
    {
        self.steps_taken
    }

    /// The number of cells (available to programs as `CORESIZE`).
    pub fn size(&self) -> (res: u32)
        requires
            self.wf(),
        ensures
            res == self.cells().len(),
    {
        self.instructions.len() as u32
    }

    /// A copy of the instruction in the cell at `index`, wrapped into the core.
    pub fn get(&self, index: i32) -> (res: Instruction)
        requires
            self.wf(),
            runnable_size(self.cells().len() as int),
        ensures
            res@ == address::cell_at(self.cells(), index as int),
    {
        let o = address::offset_of(index as i64, self.instructions.len());
        proof {
            o.lemma_wf();
        }
        let i = o.value() as usize;
        assert(self.cells()[i as int] == self.instructions@[i as int]@);
        self.instructions[i].clone()
    }

    /// Loads a warrior at the start of the core: its instructions are
    /// copied into the first cells, and a new thread of its process (named
    /// after the warrior, or `Warrior0`) is queued at its origin. A warrior
    /// longer than the core is refused, then one with unresolved labels, and
    /// then one whose process can take no more threads (at the limit of
    /// `usize` thread ids or counts); a refused warrior leaves the core as it
    /// was.
    pub fn load_warrior(&mut self, warrior: &Warrior) -> (res: Result<(), Error>)
        requires
            old(self).wf(),
            warrior.program.instructions@.len() <= old(self).cells().len() ==> runnable_size(
                old(self).cells().len() as int,
            ),
        ensures
            final(self).wf(),
            final(self).steps() == old(self).steps(),
            match res {
                Ok(()) => {
                    &&& warrior.program.instructions@.len() <= old(self).cells().len()
                    &&& cells_resolved(warrior.program.model())
                    &&& !old(self).thread_limit_reached(process_name(warrior))
                    &&& old(self).fresh_thread(process_name(warrior)) < usize::MAX
                    &&& (old(self).counts().contains_key(process_name(warrior)) ==> old(self).counts()[process_name(warrior)]
                        < usize::MAX)
                    &&& final(self).cells() == loaded(old(self).cells(), warrior.program.model())
                    &&& final(self).entries() == old(self).entries().push(SpecEntry {
                        name: process_name(warrior),
                        thread: old(self).fresh_thread(process_name(warrior)),
                        offset: offset_at(
                            (match warrior.program.origin {
                                Some(o) => o,
                                None => 0u32,
                            }) as i32 as int,
                            old(self).cells().len(),
                        ),
                    })
                    &&& final(self).counts() == old(self).counts().insert(
                        process_name(warrior),
                        (if old(self).counts().contains_key(process_name(warrior)) {
                            old(self).counts()[process_name(warrior)] + 1
                        } else {
                            1
                        }) as usize,
                    )
                    &&& final(self).next_ids() == old(self).next_ids().insert(
                        process_name(warrior),
                        (old(self).fresh_thread(process_name(warrior)) + 1) as usize,
                    )
                },
                Err(e) => {
                    &&& final(self).state() == old(self).state()
                    &&& final(self).counts() == old(self).counts()
                    &&& final(self).next_ids() == old(self).next_ids()
                    &&& if warrior.program.instructions@.len() > old(self).cells().len() {
                        e@ == SpecError::WarriorTooLong
                    } else if !cells_resolved(warrior.program.model()) {
                        e@ == SpecError::UnresolvedLabels
                    } else {
                        old(self).thread_limit_reached(process_name(warrior))
                            && e@ == SpecError::WarriorAlreadyLoaded(process::SpecError::ProcessNameExists(process_name(warrior)))
                    }
                },
            },
    {
        let n = self.instructions.len();
        let count = warrior.program.instructions.len();
        if count > n {
            return Err(Error::WarriorTooLong);
        }
        if !program_resolved(&warrior.program.instructions) {
            return Err(Error::UnresolvedLabels);
        }
        let name = match &warrior.metadata.name {
            Some(s) => s.clone(),
            None => String::from_str("Warrior0"),
        };
        let fresh = self.process_queue.next_thread_id(name.as_str());
        let full = self.process_queue.contains_process(name.as_str()) && self.process_queue.thread_count(name.as_str()) == usize::MAX;
        if fresh == usize::MAX || full {
            return Err(Error::WarriorAlreadyLoaded(process::Error::ProcessNameExists(name)));
        }
        let ghost old_cells = self.cells();
        let ghost program = warrior.program.model();
        let mut i: usize = 0;
        while i < count
            invariant
                i <= count <= n,
                n == self.instructions@.len(),
                count == warrior.program.instructions@.len(),
                program == warrior.program.model(),
                old_cells.len() == n,
                self.cells() == program.take(i as int) + old_cells.skip(i as int),
                cells_resolved(program),
                cells_resolved(old_cells),
                old_cells.len() < u32::MAX,
                self.process_queue.wf(),
                self.entries() == old(self).entries(),
                self.steps() == old(self).steps(),
                self.counts() == old(self).counts(),
                self.process_queue.next_ids() == old(self).process_queue.next_ids(),
                forall|k: int|
                    0 <= k < self.entries().len() ==> (#[trigger] self.entries()[k]).offset.wf() && self.entries()[k].offset.size()
                        == n,
            decreases count - i,
        {
            let ghost before = self.cells();
            let c = warrior.program.instructions[i].clone();
            let ghost cv = c@;
            self.instructions.set(i, c);
            proof {
                assert(program[i as int] == cv);
                assert(self.cells() =~= before.update(i as int, cv));
                assert(self.cells() =~= program.take(i + 1) + old_cells.skip(i + 1));
            }
            i = i + 1;
        }
        proof {
            assert(program.take(count as int) =~= program);
            assert forall|j: int| 0 <= j < self.cells().len() implies (#[trigger] self.cells()[j]).a_field.value is Literal
                && self.cells()[j].b_field.value is Literal by {
                if j < count {
                    assert(self.cells()[j] == program[j]);
                } else {
                    assert(self.cells()[j] == old_cells[j]);
                }
            }
        }
        let origin = match warrior.program.origin {
            Some(o) => o,
            None => 0,
        };
        let start = Offset::new(origin as i32, n as u32);
        let ghost old_entries = self.entries();
        self.process_queue.push(name, start, None);
        proof {
            assert forall|k: int| 0 <= k < self.entries().len() implies (#[trigger] self.entries()[k]).offset.wf()
                && self.entries()[k].offset.size() == self.cells().len() by {
                if k < old_entries.len() {
                    assert(self.entries()[k] == old_entries[k]);
                }
            }
        }
        Ok(())
    }

    /// Runs one step of the simulation, as [`sim_step`] says. No process is
    /// added or forgotten and no thread id is given out: the counts stay
    /// those of the queued threads, over the same processes.
    pub fn step(&mut self) -> (res: Result<(), process::Error>)
        requires
            old(self).wf(),
            old(self).steps() < usize::MAX,
        ensures
            final(self).wf(),
            final(self).counts().dom() == old(self).counts().dom(),
            final(self).next_ids() == old(self).next_ids(),
            (final(self).state(), match res {
                Ok(()) => Ok::<(), process::SpecError>(()),
                Err(e) => Err::<(), process::SpecError>(e@),
            }) == sim_step(old(self).state()),
    {
        self.steps_taken = self.steps_taken + 1;
        let ghost st = self.entries();
        assert forall|k: int| 0 <= k < st.len() implies (#[trigger] st[k]).offset.wf() && st[k].offset.size() == self.cells().len() by {
            assert(old(self).entries()[k] == st[k]);
        }
        let before_len = self.process_queue.len();
        let pc = match self.process_queue.peek() {
            Ok(e) => e.offset,
            Err(e) => {
                return Err(e);
            },
        };
        assert(pc == st[0].offset);
        proof {
            self.lemma_running();
            self.process_queue.lemma_counts_agree();
            assert(self.counts().contains_key(st[0].name));
            assert(self.counts().insert(st[0].name, (self.counts()[st[0].name] - 1) as usize).dom() =~= self.counts().dom());
        }
        let result = opcode::execute_at(&mut self.instructions, pc);
        let current = match self.process_queue.pop() {
            Ok(c) => c,
            Err(e) => {
                return Err(e);
            },
        };
        proof {
            assert forall|k: int| 0 <= k < self.entries().len() implies (#[trigger] self.entries()[k]).offset.wf()
                && self.entries()[k].offset.size() == self.cells().len() by {
                assert(self.entries()[k] == st[k + 1]);
            }
        }
        match result {
            Err(e) => match e {
                process::Error::DivideByZero | process::Error::ExecuteDat(_) => {
                    let alive = self.process_queue.thread_count(current.name.as_str());
                    if alive == 0 {
                        Err(e)
                    } else {
                        Ok(())
                    }
                },
                other => Err(other),
            },
            Ok(executed) => {
                let len = self.process_queue.len();
                let threads = self.process_queue.thread_count(current.name.as_str());
                proof {
                    process::lemma_count_bounded(self.entries(), current@.name);
                    assert(self.process_queue.counts().contains_key(current@.name));
                    assert(len == before_len - 1);
                }
                let next = current.offset.moved(executed.program_counter_offset as i64);
                let ghost before = self.entries();
                self.process_queue.push(current.name, next, Some(current.thread));
                proof {
                    assert forall|k: int| 0 <= k < self.entries().len() implies (#[trigger] self.entries()[k]).offset.wf()
                        && self.entries()[k].offset.size() == self.cells().len() by {
                        if k < before.len() {
                            assert(self.entries()[k] == before[k]);
                        }
                    }
                }
                Ok(())
            },
        }
    }

    /// Runs steps until `max_cycles` steps (10 000 when `None`) have been
    /// taken, or a step fails, as [`sim_run`] says.
    pub fn run(&mut self, max_cycles: Option<usize>) -> (res: Result<(), process::Error>)
        requires
            old(self).wf(),
        ensures
            final(self).wf(),
            final(self).counts().dom() == old(self).counts().dom(),
            final(self).next_ids() == old(self).next_ids(),
            (final(self).state(), match res {
                Ok(()) => Ok::<(), process::SpecError>(()),
                Err(e) => Err::<(), process::SpecError>(e@),
            }) == sim_run(old(self).state(), match max_cycles {
                Some(m) => m as int,
                None => DEFAULT_MAXCYCLES as int,
            }),
    {
        let max = match max_cycles {
            Some(m) => m,
            None => DEFAULT_MAXCYCLES,
        };
        let ghost goal = sim_run(self.state(), max as int);
        loop
            invariant
                self.wf(),
                self.counts().dom() == old(self).counts().dom(),
                self.next_ids() == old(self).next_ids(),
                goal == sim_run(self.state(), max as int),
                goal == sim_run(old(self).state(), match max_cycles {
                    Some(m) => m as int,
                    None => DEFAULT_MAXCYCLES as int,
                }),
            decreases max - self.steps(),
        {
            if self.steps_taken >= max {
                return Ok(());
            }
            let r = self.step();
            if r.is_err() {
                return r;
            }
        }
    }
}

impl Default for Core {
    /// A core of the default size (`CORESIZE`, 8000 cells).
    fn default() -> (res: Self)
        ensures
            res.wf(),
            res.cells() == Seq::new(8000, |_i: int| SpecInstruction::default_instruction()),
            res.entries().len() == 0,
            res.steps() == 0,
    {
        match Core::new(8000) {
            Ok(c) => c,
            Err(_) => vstd::pervasive::unreached(),
        }
    }
}

/// Whether every field of the instructions holds a number.
fn program_resolved(instructions: &Vec<Instruction>) -> (res: bool)
    ensures
        res == cells_resolved(instructions_model(instructions@)),
{
    let mut i: usize = 0;
    while i < instructions.len()
        invariant
            i <= instructions@.len(),
            forall|j: int|
                0 <= j < i ==> (#[trigger] instructions@[j])@.a_field.value is Literal && instructions@[j]@.b_field.value
                    is Literal,
        decreases instructions@.len() - i,
    {
        let a_ok = match instructions[i].a_field.value {
            crate::load_file::Value::Literal(_) => true,
            crate::load_file::Value::Label(_) => false,
        };
        let b_ok = match instructions[i].b_field.value {
            crate::load_file::Value::Literal(_) => true,
            crate::load_file::Value::Label(_) => false,
        };
        if !(a_ok && b_ok) {
            assert(instructions_model(instructions@)[i as int] == instructions@[i as int]@);
            return false;
        }
        i = i + 1;
    }
    assert forall|j: int| 0 <= j < instructions_model(instructions@).len() implies (#[trigger] instructions_model(
        instructions@,
    )[j]).a_field.value is Literal && instructions_model(instructions@)[j].b_field.value is Literal by {
        assert(instructions_model(instructions@)[j] == instructions@[j]@);
    }
    true
}

/// Lines joined by line breaks, as [`joined`] says.
fn join_lines(lines: &Vec<String>) -> (res: String)
    ensures
        res@ == joined(crate::parser::phase::comment::strings_model(lines@)),
{
    let ghost all = crate::parser::phase::comment::strings_model(lines@);
    let mut v: Vec<char> = Vec::new();
    let mut i: usize = 0;
    assert(all.take(0) =~= Seq::<Seq<char>>::empty());
    while i < lines.len()
        invariant
            i <= lines@.len(),
            all == crate::parser::phase::comment::strings_model(lines@),
            v@ == joined(all.take(i as int)),
        decreases lines@.len() - i,
    {
        if i > 0 {
            v.push('\n');
        }
        let mut c = text::chars_of(lines[i].as_str());
        v.append(&mut c);
        proof {
            assert(all.take(i + 1).drop_last() =~= all.take(i as int));
            assert(all.take(i + 1).last() == lines@[i as int]@);
            if i == 0 {
                assert(all.take(1)[0] == lines@[0]@);
            }
        }
        i = i + 1;
    }
    assert(all.take(i as int) =~= all);
    text::string_from(v.as_slice())
}

/// The position the A field of the instruction at `program_counter` points to.
pub fn resolve_a_pointer(core: &Core, program_counter: Offset) -> (res: Offset)
    requires
        core.wf(),
        program_counter.wf(),
        program_counter.size() == core.cells().len(),
    ensures
        res.wf(),
        res.size() == core.cells().len(),
        res.pos() == address::pointer(core.cells(), program_counter.pos() as int, core.cells()[program_counter.pos() as int].a_field),
{
    proof {
        program_counter.lemma_wf();
    }
    let i = program_counter.value() as usize;
    assert(core.cells()[i as int] == core.instructions@[i as int]@);
    address::pointer_of(&core.instructions, program_counter, &core.instructions[i].a_field)
}

/// The position the B field of the instruction at `program_counter` points to.
pub fn resolve_b_pointer(core: &Core, program_counter: Offset) -> (res: Offset)
    requires
        core.wf(),
        program_counter.wf(),
        program_counter.size() == core.cells().len(),
    ensures
        res.wf(),
        res.size() == core.cells().len(),
        res.pos() == address::pointer(core.cells(), program_counter.pos() as int, core.cells()[program_counter.pos() as int].b_field),
{
    proof {
        program_counter.lemma_wf();
    }
    let i = program_counter.value() as usize;
    assert(core.cells()[i as int] == core.instructions@[i as int]@);
    address::pointer_of(&core.instructions, program_counter, &core.instructions[i].b_field)
}

/// Applies the side effect of the A field of the instruction at `program_counter`.
pub fn apply_a_pointer(core: &mut Core, program_counter: Offset, eval_time: EvalTime)
    requires
        old(core).wf(),
        program_counter.wf(),
        program_counter.size() == old(core).cells().len(),
    ensures
        final(core).wf(),
        final(core).entries() == old(core).entries(),
        final(core).steps() == old(core).steps(),
        final(core).cells() == address::applied(old(core).cells(), program_counter.pos() as int, old(core).cells()[program_counter.pos() as int].a_field, eval_time),
{
    proof {
        program_counter.lemma_wf();
    }
    let i = program_counter.value() as usize;
    assert(core.cells()[i as int] == core.instructions@[i as int]@);
    let f = core.instructions[i].a_field.clone();
    let ghost es = core.entries();
    address::apply_pointer_to(&mut core.instructions, program_counter, &f, eval_time);
    assert(core.entries() == es);
}

/// Applies the side effect of the B field of the instruction at `program_counter`.
pub fn apply_b_pointer(core: &mut Core, program_counter: Offset, eval_time: EvalTime)
    requires
        old(core).wf(),
        program_counter.wf(),
        program_counter.size() == old(core).cells().len(),
    ensures
        final(core).wf(),
        final(core).entries() == old(core).entries(),
        final(core).steps() == old(core).steps(),
        final(core).cells() == address::applied(old(core).cells(), program_counter.pos() as int, old(core).cells()[program_counter.pos() as int].b_field, eval_time),
{
    proof {
        program_counter.lemma_wf();
    }
    let i = program_counter.value() as usize;
    assert(core.cells()[i as int] == core.instructions@[i as int]@);
    let f = core.instructions[i].b_field.clone();
    let ghost es = core.entries();
    address::apply_pointer_to(&mut core.instructions, program_counter, &f, eval_time);
    assert(core.entries() == es);
}

impl Executor {
    /// Reads the operands of the instruction at `program_counter`, applying
    /// the address modes' side effects.
    pub fn new(core: &mut Core, program_counter: Offset) -> (res: Executor)
        requires
            old(core).wf(),
            program_counter.wf(),
            program_counter.size() == old(core).cells().len(),
        ensures
            final(core).wf(),
            final(core).entries() == old(core).entries(),
            final(core).steps() == old(core).steps(),
            modifier::executor_wf(&res, final(core).cells().len() as int),
            (final(core).cells(), res@) == modifier::executor_start(old(core).cells(), program_counter.pos() as int),
    {
        let ghost es = core.entries();
        proof {
            program_counter.lemma_wf();
        }
        let res = Executor::start(&mut core.instructions, program_counter);
        assert(core.entries() == es);
        res
    }

    /// Calls `field_op` on the operand offsets the instruction's modifier
    /// selects and writes each result it gives into the B target's field,
    /// as [`modifier::executed_with`] says.
    pub fn run_on_fields<F>(self, core: &mut Core, field_op: F)
        where
            F: Fn(Offset, Offset) -> Option<Offset>,
        requires
            old(core).wf(),
            modifier::executor_wf(&self, old(core).cells().len() as int),
            forall|a: Offset, b: Offset| #[trigger] call_requires(field_op, (a, b)),
        ensures
            final(core).wf(),
            final(core).entries() == old(core).entries(),
            final(core).steps() == old(core).steps(),
            exists|ra: Option<Offset>, rb: Option<Offset>|
                {
                    let (pa, pb) = modifier::selected_pairs(old(core).cells(), self@);
                    &&& modifier::gave(field_op, pa, old(core).cells().len() as int, ra)
                    &&& modifier::gave(field_op, pb, old(core).cells().len() as int, rb)
                    &&& final(core).cells() == #[trigger] modifier::executed_with(old(core).cells(), self@, ra, rb, None)
                },
    {
        let ghost es = core.entries();
        let ghost m = core.cells();
        let ghost ex = self@;
        let ghost a_value = self.a_value;
        proof {
            self.program_counter.lemma_wf();
        }
        self.run_with(&mut core.instructions, field_op, Some(no_instruction_op));
        proof {
            let (ra, rb, ri) = choose|ra: Option<Offset>, rb: Option<Offset>, ri: Option<Instruction>|
                modifier::results_given(m, ex, a_value, field_op, Some(no_instruction_op), ra, rb, ri)
                    && core.cells() == #[trigger] modifier::executed_with(m, ex, ra, rb, ri);
            assert(ri is None);
            assert(core.cells() == modifier::executed_with(m, ex, ra, rb, None));
        }
        assert(core.entries() == es);
    }

    /// Like [`run_on_fields`](Self::run_on_fields); with the `I` modifier it
    /// then calls `instruction_op` (if any) on the A operand and the B target
    /// and gives the target the opcode and modifier of its result, as
    /// [`modifier::executed_with`] and [`modifier::results_given`] say.
    pub fn run_on_instructions<F, G>(self, core: &mut Core, field_op: F, instruction_op: Option<G>)
        where
            F: Fn(Offset, Offset) -> Option<Offset>,
            G: Fn(Instruction, Instruction) -> Option<Instruction>,
        requires
            old(core).wf(),
            modifier::executor_wf(&self, old(core).cells().len() as int),
            forall|a: Offset, b: Offset| #[trigger] call_requires(field_op, (a, b)),
            instruction_op matches Some(g) ==> forall|a: Instruction, b: Instruction| #[trigger] call_requires(g, (a, b)),
        ensures
            final(core).wf(),
            final(core).entries() == old(core).entries(),
            final(core).steps() == old(core).steps(),
            exists|ra: Option<Offset>, rb: Option<Offset>, ri: Option<Instruction>|
                modifier::results_given(old(core).cells(), self@, self.a_value, field_op, instruction_op, ra, rb, ri)
                    && final(core).cells() == #[trigger] modifier::executed_with(old(core).cells(), self@, ra, rb, ri),
    {
        let ghost es = core.entries();
        proof {
            self.program_counter.lemma_wf();
        }
        self.run_with(&mut core.instructions, field_op, instruction_op);
        assert(core.entries() == es);
    }
}

/// The instruction operation of [`Executor::run_on_fields`]: it gives nothing.
fn no_instruction_op(a: Instruction, b: Instruction) -> (res: Option<Instruction>)
    ensures
        res is None,
{
    None
}

/// Executes the instruction of the thread at the front of the queue, as
/// [`execution`] says; the queue is left as it is. `None` when no thread is queued.
pub fn execute(core: &mut Core) -> (res: Option<Result<Executed, process::Error>>)
    requires
        old(core).wf(),
    ensures
        final(core).wf(),
        final(core).entries() == old(core).entries(),
        final(core).steps() == old(core).steps(),
        match res {
            None => old(core).entries().len() == 0 && final(core).cells() == old(core).cells(),
            Some(r) => old(core).entries().len() > 0 && final(core).cells() == execution(
                old(core).cells(),
                old(core).entries()[0].offset.pos() as int,
            ).0 && opcode::outcome_matches(r, execution(old(core).cells(), old(core).entries()[0].offset.pos() as int).1, old(core).entries()[0].offset),
        },
{
    let pc = match core.process_queue.peek() {
        Ok(e) => e.offset,
        Err(_) => {
            return None;
        },
    };
    proof {
        core.lemma_running();
    }
    Some(opcode::execute_at(&mut core.instructions, pc))
}

} // verus!
