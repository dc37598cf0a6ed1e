//! Address modes during simulation: where a field points, and the pre- and
//! post-increment side effects of the indirect modes.

use vstd::prelude::*;

use crate::load_file::offset::{moved_offset, wrap};
use crate::load_file::program::instructions_model;
use crate::load_file::{AddressMode, Field, Instruction, Offset, SpecField, SpecInstruction, SpecValue};

verus! {

/// The number a field holds (fields in a core always hold numbers).
pub open spec fn field_value(f: SpecField) -> i32 {
    match f.value {
        SpecValue::Literal(n) => n,
        SpecValue::Label(_) => 0,
    }
}

/// Every field of every cell holds a number, and the core's size is a
/// positive `i32`.
pub open spec fn cells_wf(cells: Seq<SpecInstruction>) -> bool {
    &&& 0 < cells.len() <= i32::MAX
    &&& forall|i: int| 0 <= i < cells.len() ==> (#[trigger] cells[i]).a_field.value is Literal && cells[i].b_field.value is Literal
}

/// The cell at `pos`, wrapped into the core.
pub open spec fn cell_at(cells: Seq<SpecInstruction>, pos: int) -> SpecInstruction {
    cells[wrap(pos, cells.len() as int)]
}

/// The position a field of the instruction at `pc` points to.
pub open spec fn pointer(cells: Seq<SpecInstruction>, pc: int, f: SpecField) -> int {
    let v = field_value(f) as int;
    let pointed = cell_at(cells, pc + v);
    let offset = match f.address_mode {
        AddressMode::Immediate => 0,
        AddressMode::Direct => v,
        AddressMode::IndirectA | AddressMode::PostIncIndirectA => v + field_value(pointed.a_field),
        AddressMode::IndirectB | AddressMode::PostIncIndirectB => v + field_value(pointed.b_field),
        AddressMode::PreDecIndirectA => v + field_value(pointed.a_field) - 1,
        AddressMode::PreDecIndirectB => v + field_value(pointed.b_field) - 1,
    };
    wrap(pc + offset, cells.len() as int)
}

/// Whether an address mode's side effect is applied before or after the operand is read.
#[derive(Clone, Copy, Debug, PartialEq, Eq, Structural)]
pub enum EvalTime {
    Pre,
    Post,
}

/// A field holding `value` wrapped into a core of `n` cells, keeping its address mode.
pub open spec fn with_wrapped(f: SpecField, value: int, n: int) -> SpecField {
    SpecField { value: SpecValue::Literal(wrap(value, n) as i32), ..f }
}

/// The cells after the side effect of field `f` of the instruction at `pc`:
/// a pre-decrement (before the operand is read) or a post-increment (after)
/// of the field of the cell it points through, wrapped into the core.
pub open spec fn applied(cells: Seq<SpecInstruction>, pc: int, f: SpecField, time: EvalTime) -> Seq<SpecInstruction> {
    let n = cells.len() as int;
    let loc = wrap(pc + field_value(f), n);
    let pointed = cells[loc];
    let a_value = wrap(field_value(pointed.a_field) as int, n);
    let b_value = wrap(field_value(pointed.b_field) as int, n);
    match (time, f.address_mode) {
        (EvalTime::Pre, AddressMode::PreDecIndirectA) => cells.update(loc, SpecInstruction { a_field: with_wrapped(pointed.a_field, a_value - 1, n), ..pointed }),
        (EvalTime::Pre, AddressMode::PreDecIndirectB) => cells.update(loc, SpecInstruction { b_field: with_wrapped(pointed.b_field, b_value - 1, n), ..pointed }),
        (EvalTime::Post, AddressMode::PostIncIndirectA) => cells.update(loc, SpecInstruction { a_field: with_wrapped(pointed.a_field, a_value + 1, n), ..pointed }),
        (EvalTime::Post, AddressMode::PostIncIndirectB) => cells.update(loc, SpecInstruction { b_field: with_wrapped(pointed.b_field, b_value + 1, n), ..pointed }),
        _ => cells,
    }
}

/// The number held by a field of a core cell.
pub fn value_of(f: &Field) -> (res: i32)
    requires
        f@.value is Literal,
    ensures
        res == field_value(f@),
{
    f.unwrap_value()
}

/// The offset in a core of `n` cells that holds `value`, wrapped.
pub fn offset_of(value: i64, n: usize) -> (res: Offset)
    requires
        0 < n <= i32::MAX,
        -0x1_0000_0000 <= value <= 0x1_0000_0000,
    ensures
        res.wf(),
        res.size() == n,
        res.pos() == wrap(value as int, n as int),
{
    let zero = Offset::new(0, n as u32);
    proof {
        vstd::arithmetic::div_mod::lemma_small_mod(0, n as nat);
    }
    zero.moved(value)
}

/// Where a field of the instruction at `pc` points, as [`pointer`] says.
pub fn pointer_of(cells: &Vec<Instruction>, pc: Offset, f: &Field) -> (res: Offset)
    requires
        cells_wf(instructions_model(cells@)),
        pc.wf(),
        pc.size() == cells@.len(),
        f@.value is Literal,
    ensures
        res.wf(),
        res.size() == cells@.len(),
        res.pos() == pointer(instructions_model(cells@), pc.pos() as int, f@),
{
    let ghost m = instructions_model(cells@);
    let n = cells.len();
    let v = value_of(f);
    let target = pc.moved(v as i64);
    let pointed = &cells[target.value() as usize];
    assert(m[target.pos() as int] == pointed@);
    assert(m[target.pos() as int].a_field.value is Literal);
    let offset: i64 = match f.address_mode {
        AddressMode::Immediate => 0,
        AddressMode::Direct => v as i64,
        AddressMode::IndirectA | AddressMode::PostIncIndirectA => v as i64 + value_of(&pointed.a_field) as i64,
        AddressMode::IndirectB | AddressMode::PostIncIndirectB => v as i64 + value_of(&pointed.b_field) as i64,
        AddressMode::PreDecIndirectA => v as i64 + value_of(&pointed.a_field) as i64 - 1,
        AddressMode::PreDecIndirectB => v as i64 + value_of(&pointed.b_field) as i64 - 1,
    };
    pc.moved(offset)
}

/// The field `f` holding `value` wrapped into a core of `n` cells.
fn wrapped_field(f: &Field, value: i64, n: usize) -> (res: Field)
    requires
        0 < n <= i32::MAX,
        -0x1_0000_0000 <= value <= 0x1_0000_0000,
    ensures
        res@ == with_wrapped(f@, value as int, n as int),
{
    let o = offset_of(value, n);
    Field { address_mode: f.address_mode, value: crate::load_file::Value::Literal(o.value() as i32) }
}

/// Applies the side effect of field `f` of the instruction at `pc`, as [`applied`] says.
pub fn apply_pointer_to(cells: &mut Vec<Instruction>, pc: Offset, f: &Field, time: EvalTime)
    requires
        cells_wf(instructions_model(old(cells)@)),
        pc.wf(),
        pc.size() == old(cells)@.len(),
        f@.value is Literal,
    ensures
        instructions_model(final(cells)@) == applied(instructions_model(old(cells)@), pc.pos() as int, f@, time),
        cells_wf(instructions_model(final(cells)@)),
        final(cells)@.len() == old(cells)@.len(),
{
    let ghost m = instructions_model(cells@);
    let n = cells.len();
    let v = value_of(f);
    let loc = pc.moved(v as i64);
    let i = loc.value() as usize;
    assert(m[i as int] == cells@[i as int]@);
    let pointed = cells[i].clone();
    let a_value = offset_of(value_of(&pointed.a_field) as i64, n);
    let b_value = offset_of(value_of(&pointed.b_field) as i64, n);
    let update: Option<Instruction> = match (time, f.address_mode) {
        (EvalTime::Pre, AddressMode::PreDecIndirectA) => Some(Instruction {
            a_field: wrapped_field(&pointed.a_field, a_value.value() as i64 - 1, n),
            ..pointed
        }),
        (EvalTime::Pre, AddressMode::PreDecIndirectB) => Some(Instruction {
            b_field: wrapped_field(&pointed.b_field, b_value.value() as i64 - 1, n),
            ..pointed
        }),
        (EvalTime::Post, AddressMode::PostIncIndirectA) => Some(Instruction {
            a_field: wrapped_field(&pointed.a_field, a_value.value() as i64 + 1, n),
            ..pointed
        }),
        (EvalTime::Post, AddressMode::PostIncIndirectB) => Some(Instruction {
            b_field: wrapped_field(&pointed.b_field, b_value.value() as i64 + 1, n),
            ..pointed
        }),
        _ => None,
    };
    match update {
        Some(new_cell) => {
            let ghost c = new_cell@;
            cells.set(i, new_cell);
            proof {
                assert(instructions_model(cells@) =~= m.update(i as int, c));
                assert forall|j: int| 0 <= j < m.len() implies (#[trigger] instructions_model(cells@)[j]).a_field.value is Literal
                    && instructions_model(cells@)[j].b_field.value is Literal by {
                    if j != i {
                        assert(instructions_model(cells@)[j] == m[j]);
                    }
                }
            }
        },
        None => {},
    }
}

} // verus!
