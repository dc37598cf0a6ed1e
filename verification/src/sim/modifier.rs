//! Opcode modifiers during simulation: which fields of the A and B operands
//! an operation reads, and which fields of the B target it writes.

use vstd::prelude::*;

use crate::load_file::offset::{offset_at, wrap};
use crate::load_file::program::instructions_model;
use crate::load_file::{Field, Instruction, Modifier, Offset, SpecField, SpecInstruction, SpecValue, Value};

use super::address::{applied, apply_pointer_to, cells_wf, field_value, pointer, pointer_of, value_of, EvalTime};

verus! {

/// The operation an opcode performs on a pair of field values (each a
/// position in the core).
#[derive(Clone, Copy, Debug, PartialEq, Eq, Structural)]
pub enum FieldOp {
    /// The sum, wrapped into the core.
    Add,
    /// The A value.
    Copy,
    /// The integer quotient of A by B; nothing is written when B is zero.
    Divide,
    /// Nothing is written; the values are compared.
    Compare,
}

/// The value an operation writes for the pair `(a, b)`, if any.
pub open spec fn field_op_result(op: FieldOp, a: int, b: int, n: int) -> Option<int> {
    match op {
        FieldOp::Add => Some(wrap(a + b, n)),
        FieldOp::Copy => Some(a),
        FieldOp::Divide => if b == 0 {
            None
        } else {
            Some(a / b)
        },
        FieldOp::Compare => None,
    }
}

/// The operand registers of an instruction being executed: the program
/// counter, the A and B operands read through the pointers, and the pointers.
pub struct SpecExecutor {
    pub pc: int,
    pub a_value: SpecInstruction,
    pub b_value: SpecInstruction,
    pub a_ptr: int,
    pub b_ptr: int,
}

/// The cells and registers once the operands of the instruction at `pc`
/// are read: the A pointer is resolved, its pre-decrement applied, the A
/// operand read, its post-increment applied; then the same for B.
pub open spec fn executor_start(cells: Seq<SpecInstruction>, pc: int) -> (Seq<SpecInstruction>, SpecExecutor) {
    let c0 = cells;
    let a_ptr = pointer(c0, pc, c0[pc].a_field);
    let c1 = applied(c0, pc, c0[pc].a_field, EvalTime::Pre);
    let a_value = c1[a_ptr];
    let c2 = applied(c1, pc, c1[pc].a_field, EvalTime::Post);
    let b_ptr = pointer(c2, pc, c2[pc].b_field);
    let c3 = applied(c2, pc, c2[pc].b_field, EvalTime::Pre);
    let b_value = c3[b_ptr];
    let c4 = applied(c3, pc, c3[pc].b_field, EvalTime::Post);
    (c4, SpecExecutor { pc, a_value, b_value, a_ptr, b_ptr })
}

/// The pairs of operand values an operation reads for the A and the B field
/// of the target, by modifier (`None` where that field is not touched).
pub open spec fn operand_pairs(modifier: Modifier, aa: int, ab: int, ba: int, bb: int) -> (Option<(int, int)>, Option<(int, int)>) {
    match modifier {
        Modifier::A => (Some((aa, ba)), None),
        Modifier::B => (None, Some((ab, bb))),
        Modifier::AB => (None, Some((aa, bb))),
        Modifier::BA => (Some((ab, ba)), None),
        Modifier::F | Modifier::I => (Some((aa, ba)), Some((ab, bb))),
        Modifier::X => (Some((ab, ba)), Some((aa, bb))),
    }
}

/// A field with the result of an operation written into it, if there is one.
pub open spec fn written(f: SpecField, pair: Option<(int, int)>, op: FieldOp, n: int) -> SpecField {
    match pair {
        Some((a, b)) => match field_op_result(op, a, b, n) {
            Some(r) => SpecField { value: SpecValue::Literal(r as i32), ..f },
            None => f,
        },
        None => f,
    }
}

/// The operand values, each wrapped into the core: A operand's A and B
/// fields, then B operand's.
pub open spec fn operand_values(ex: SpecExecutor, n: int) -> (int, int, int, int) {
    (
        wrap(field_value(ex.a_value.a_field) as int, n),
        wrap(field_value(ex.a_value.b_field) as int, n),
        wrap(field_value(ex.b_value.a_field) as int, n),
        wrap(field_value(ex.b_value.b_field) as int, n),
    )
}

/// The cells after the operation writes into the B target: the fields the
/// modifier selects get the operation's results, and, when whole
/// instructions are operated on, with the `I` modifier a copy also takes
/// the A operand's opcode and modifier.
pub open spec fn executed(cells: Seq<SpecInstruction>, ex: SpecExecutor, op: FieldOp, whole: bool) -> Seq<SpecInstruction> {
    let n = cells.len() as int;
    let modifier = cells[ex.pc].modifier;
    let (aa, ab, ba, bb) = operand_values(ex, n);
    let (pa, pb) = operand_pairs(modifier, aa, ab, ba, bb);
    let target = cells[ex.b_ptr];
    let fields = SpecInstruction { a_field: written(target.a_field, pa, op, n), b_field: written(target.b_field, pb, op, n), ..target };
    let result = if whole && modifier == Modifier::I && op == FieldOp::Copy {
        SpecInstruction { opcode: ex.a_value.opcode, modifier: ex.a_value.modifier, ..fields }
    } else {
        fields
    };
    cells.update(ex.b_ptr, result)
}

/// Whether a division meets a zero divisor in one of the pairs it reads.
pub open spec fn divides_by_zero(cells: Seq<SpecInstruction>, ex: SpecExecutor) -> bool {
    let n = cells.len() as int;
    let (aa, ab, ba, bb) = operand_values(ex, n);
    let (pa, pb) = operand_pairs(cells[ex.pc].modifier, aa, ab, ba, bb);
    (pa matches Some((_, b)) && b == 0) || (pb matches Some((_, b)) && b == 0)
}

/// Whether the pairs a comparison reads are equal (and, with the `I`
/// modifier, the A operand equals the B target).
pub open spec fn compares_equal(cells: Seq<SpecInstruction>, ex: SpecExecutor) -> bool {
    let n = cells.len() as int;
    let (aa, ab, ba, bb) = operand_values(ex, n);
    let modifier = cells[ex.pc].modifier;
    let (pa, pb) = operand_pairs(modifier, aa, ab, ba, bb);
    &&& (pa matches Some((a, b)) ==> a == b)
    &&& (pb matches Some((a, b)) ==> a == b)
    &&& (modifier == Modifier::I ==> ex.a_value == cells[ex.b_ptr])
}

/// The pairs of wrapped operand values an instruction's modifier selects,
/// for the A and the B field of the target.
pub open spec fn selected_pairs(cells: Seq<SpecInstruction>, ex: SpecExecutor) -> (Option<(int, int)>, Option<(int, int)>) {
    let (aa, ab, ba, bb) = operand_values(ex, cells.len() as int);
    operand_pairs(cells[ex.pc].modifier, aa, ab, ba, bb)
}

/// Whether `r` is a result that `op` may give for `pair`, taken as offsets
/// in a core of `n` cells; nothing where the modifier selects no pair.
pub open spec fn gave<F: Fn(Offset, Offset) -> Option<Offset>>(op: F, pair: Option<(int, int)>, n: int, r: Option<Offset>) -> bool {
    match pair {
        Some((a, b)) => call_ensures(op, (offset_at(a, n as nat), offset_at(b, n as nat)), r),
        None => r is None,
    }
}

/// A field with an operation's result written into it, if it gave one.
pub open spec fn result_written(f: SpecField, r: Option<Offset>) -> SpecField {
    match r {
        Some(o) => SpecField { value: SpecValue::Literal(o.pos() as i32), ..f },
        None => f,
    }
}

/// The B target with the field results `ra` and `rb` written into it.
pub open spec fn target_with(cells: Seq<SpecInstruction>, ex: SpecExecutor, ra: Option<Offset>, rb: Option<Offset>) -> SpecInstruction {
    let t = cells[ex.b_ptr];
    SpecInstruction { a_field: result_written(t.a_field, ra), b_field: result_written(t.b_field, rb), ..t }
}

/// An instruction with number fields, built from its model (a label, which
/// no core cell holds, becomes `0`).
pub open spec fn literal_instruction(s: SpecInstruction) -> Instruction {
    Instruction {
        opcode: s.opcode,
        modifier: s.modifier,
        a_field: Field { address_mode: s.a_field.address_mode, value: Value::Literal(field_value(s.a_field)) },
        b_field: Field { address_mode: s.b_field.address_mode, value: Value::Literal(field_value(s.b_field)) },
    }
}

/// The cells after the results of caller-given operations are written: the
/// field results into the B target's fields, then the opcode and modifier
/// of an instruction result, if there is one.
pub open spec fn executed_with(
    cells: Seq<SpecInstruction>,
    ex: SpecExecutor,
    ra: Option<Offset>,
    rb: Option<Offset>,
    ri: Option<Instruction>,
) -> Seq<SpecInstruction> {
    let t = target_with(cells, ex, ra, rb);
    cells.update(
        ex.b_ptr,
        match ri {
            Some(i) => SpecInstruction { opcode: i.opcode, modifier: i.modifier, ..t },
            None => t,
        },
    )
}

/// Whether `ra`, `rb` and `ri` are results the operations may give: a field
/// result for each pair the modifier selects and, with the `I` modifier and
/// an instruction operation, its result on the A operand and the B target
/// (with its field results written).
pub open spec fn results_given<F: Fn(Offset, Offset) -> Option<Offset>, G: Fn(Instruction, Instruction) -> Option<Instruction>>(
    cells: Seq<SpecInstruction>,
    ex: SpecExecutor,
    a_value: Instruction,
    field_op: F,
    instruction_op: Option<G>,
    ra: Option<Offset>,
    rb: Option<Offset>,
    ri: Option<Instruction>,
) -> bool {
    let n = cells.len() as int;
    let (pa, pb) = selected_pairs(cells, ex);
    &&& gave(field_op, pa, n, ra)
    &&& gave(field_op, pb, n, rb)
    &&& match instruction_op {
        Some(g) => if cells[ex.pc].modifier == Modifier::I {
            call_ensures(g, (a_value, literal_instruction(target_with(cells, ex, ra, rb))), ri)
        } else {
            ri is None
        },
        None => ri is None,
    }
}

/// The operand registers of an instruction being executed.
#[derive(Debug)]
pub struct Executor {
    pub program_counter: Offset,
    pub a_value: Instruction,
    pub b_value: Instruction,
    pub a_ptr: Offset,
    pub b_ptr: Offset,
}

impl View for Executor {
    type V = SpecExecutor;

    open spec fn view(&self) -> SpecExecutor {
        SpecExecutor {
            pc: self.program_counter.pos() as int,
            a_value: self.a_value@,
            b_value: self.b_value@,
            a_ptr: self.a_ptr.pos() as int,
            b_ptr: self.b_ptr.pos() as int,
        }
    }
}

/// The registers are consistent with a core of `n` cells.
pub open spec fn executor_wf(ex: &Executor, n: int) -> bool {
    &&& ex.program_counter.wf() && ex.program_counter.size() == n
    &&& ex.a_ptr.wf() && ex.a_ptr.size() == n
    &&& ex.b_ptr.wf() && ex.b_ptr.size() == n
    &&& ex.a_value@.a_field.value is Literal && ex.a_value@.b_field.value is Literal
    &&& ex.b_value@.a_field.value is Literal && ex.b_value@.b_field.value is Literal
}

/// The result of an operation on one pair, as [`field_op_result`] says.
fn exec_field_op(op: FieldOp, a: u32, b: u32, n: usize) -> (res: Option<i32>)
    requires
        0 < n <= i32::MAX,
        a < n,
        b < n,
    ensures
        match res {
            Some(r) => field_op_result(op, a as int, b as int, n as int) == Some(r as int) && 0 <= r < n,
            None => field_op_result(op, a as int, b as int, n as int) is None,
        },
{
    match op {
        FieldOp::Add => {
            let o = super::address::offset_of(a as i64 + b as i64, n);
            Some(o.value() as i32)
        },
        FieldOp::Copy => Some(a as i32),
        FieldOp::Divide => if b == 0 {
            None
        } else {
            proof {
                vstd::arithmetic::div_mod::lemma_div_is_ordered_by_denominator(a as int, 1, b as int);
            }
            Some((a / b) as i32)
        },
        FieldOp::Compare => None,
    }
}

/// A field with the result of an operation written into it, as [`written`] says.
fn exec_written(f: &Field, pair: Option<(u32, u32)>, op: FieldOp, n: usize) -> (res: Field)
    requires
        0 < n <= i32::MAX,
        pair matches Some((a, b)) ==> a < n && b < n,
        f@.value is Literal,
    ensures
        res@ == written(f@, match pair {
            Some((a, b)) => Some((a as int, b as int)),
            None => None,
        }, op, n as int),
        res@.value is Literal,
{
    match pair {
        Some((a, b)) => match exec_field_op(op, a, b, n) {
            Some(r) => Field { address_mode: f.address_mode, value: Value::Literal(r) },
            None => f.clone(),
        },
        None => f.clone(),
    }
}

/// The pairs an operation reads, as [`operand_pairs`] says.
fn exec_operand_pairs(modifier: Modifier, aa: u32, ab: u32, ba: u32, bb: u32) -> (res: (Option<(u32, u32)>, Option<(u32, u32)>))
    ensures
        ({
            let (pa, pb) = operand_pairs(modifier, aa as int, ab as int, ba as int, bb as int);
            &&& pa == match res.0 {
                Some((a, b)) => Some((a as int, b as int)),
                None => None,
            }
            &&& pb == match res.1 {
                Some((a, b)) => Some((a as int, b as int)),
                None => None,
            }
        }),
        res.0 matches Some((a, b)) ==> (a == aa || a == ab) && (b == ba || b == bb),
        res.1 matches Some((a, b)) ==> (a == aa || a == ab) && (b == ba || b == bb),
{
    match modifier {
        Modifier::A => (Some((aa, ba)), None),
        Modifier::B => (None, Some((ab, bb))),
        Modifier::AB => (None, Some((aa, bb))),
        Modifier::BA => (Some((ab, ba)), None),
        Modifier::F | Modifier::I => (Some((aa, ba)), Some((ab, bb))),
        Modifier::X => (Some((ab, ba)), Some((aa, bb))),
    }
}

impl Executor {
    /// Reads the operands of the instruction at `pc`, applying the address
    /// modes' side effects, as [`executor_start`] says.
    pub fn start(cells: &mut Vec<Instruction>, pc: Offset) -> (res: Executor)
        requires
            cells_wf(instructions_model(old(cells)@)),
            pc.wf(),
            pc.size() == old(cells)@.len(),
        ensures
            cells_wf(instructions_model(final(cells)@)),
            final(cells)@.len() == old(cells)@.len(),
            executor_wf(&res, old(cells)@.len() as int),
            (instructions_model(final(cells)@), res@) == executor_start(instructions_model(old(cells)@), pc.pos() as int),
    {
        let ghost c0 = instructions_model(cells@);
        proof {
            pc.lemma_wf();
        }
        let i = pc.value() as usize;
        assert(c0[i as int] == cells@[i as int]@);
        let a_field = cells[i].a_field.clone();
        let a_ptr = pointer_of(cells, pc, &a_field);
        proof {
            a_ptr.lemma_wf();
        }
        apply_pointer_to(cells, pc, &a_field, EvalTime::Pre);
        let ghost c1 = instructions_model(cells@);
        assert(c1[a_ptr.pos() as int] == cells@[a_ptr.pos() as int]@);
        let a_value = cells[a_ptr.value() as usize].clone();
        assert(c1[i as int] == cells@[i as int]@);
        let a_field2 = cells[i].a_field.clone();
        apply_pointer_to(cells, pc, &a_field2, EvalTime::Post);
        let ghost c2 = instructions_model(cells@);
        assert(c2[i as int] == cells@[i as int]@);
        let b_field = cells[i].b_field.clone();
        let b_ptr = pointer_of(cells, pc, &b_field);
        proof {
            b_ptr.lemma_wf();
        }
        apply_pointer_to(cells, pc, &b_field, EvalTime::Pre);
        let ghost c3 = instructions_model(cells@);
        assert(c3[b_ptr.pos() as int] == cells@[b_ptr.pos() as int]@);
        let b_value = cells[b_ptr.value() as usize].clone();
        assert(c3[i as int] == cells@[i as int]@);
        let b_field2 = cells[i].b_field.clone();
        apply_pointer_to(cells, pc, &b_field2, EvalTime::Post);
        Executor { program_counter: pc, a_value, b_value, a_ptr, b_ptr }
    }

    /// The resolved A pointer.
    pub fn a_ptr(&self) -> (res: Offset)
        ensures
            res == self.a_ptr,
    {
        self.a_ptr
    }

    /// Performs `op` on the operand fields the instruction's modifier selects,
    /// writing the results into the B target, as [`executed`] says. Returns
    /// whether a division met a zero divisor and whether a comparison found
    /// the operands equal.
    pub fn run_on_cells(&self, cells: &mut Vec<Instruction>, op: FieldOp, whole: bool) -> (res: (bool, bool))
        requires
            cells_wf(instructions_model(old(cells)@)),
            executor_wf(self, old(cells)@.len() as int),
        ensures
            cells_wf(instructions_model(final(cells)@)),
            final(cells)@.len() == old(cells)@.len(),
            instructions_model(final(cells)@) == executed(instructions_model(old(cells)@), self@, op, whole),
            res.0 == divides_by_zero(instructions_model(old(cells)@), self@),
            res.1 == compares_equal(instructions_model(old(cells)@), self@),
    {
        let ghost m = instructions_model(cells@);
        let n = cells.len();
        proof {
            self.program_counter.lemma_wf();
            self.b_ptr.lemma_wf();
        }
        let pc = self.program_counter.value() as usize;
        let bp = self.b_ptr.value() as usize;
        assert(m[pc as int] == cells@[pc as int]@);
        assert(m[bp as int] == cells@[bp as int]@);
        let modifier = cells[pc].modifier;
        let aa = super::address::offset_of(value_of(&self.a_value.a_field) as i64, n).value();
        let ab = super::address::offset_of(value_of(&self.a_value.b_field) as i64, n).value();
        let ba = super::address::offset_of(value_of(&self.b_value.a_field) as i64, n).value();
        let bb = super::address::offset_of(value_of(&self.b_value.b_field) as i64, n).value();
        let (pa, pb) = exec_operand_pairs(modifier, aa, ab, ba, bb);
        let target = cells[bp].clone();
        let zero = (match pa {
            Some((_, b)) => b == 0,
            None => false,
        }) || (match pb {
            Some((_, b)) => b == 0,
            None => false,
        });
        let same_instruction = self.a_value.eq(&target);
        let equal = (match pa {
            Some((a, b)) => a == b,
            None => true,
        }) && (match pb {
            Some((a, b)) => a == b,
            None => true,
        }) && (modifier != Modifier::I || same_instruction);
        let a_field = exec_written(&target.a_field, pa, op, n);
        let b_field = exec_written(&target.b_field, pb, op, n);
        let result = if whole && modifier == Modifier::I && op == FieldOp::Copy {
            Instruction { opcode: self.a_value.opcode, modifier: self.a_value.modifier, a_field, b_field }
        } else {
            Instruction { opcode: target.opcode, modifier: target.modifier, a_field, b_field }
        };
        let ghost r = result@;
        cells.set(bp, result);
        proof {
            assert(instructions_model(cells@) =~= m.update(bp as int, r));
            assert forall|j: int| 0 <= j < m.len() implies (#[trigger] instructions_model(cells@)[j]).a_field.value is Literal
                && instructions_model(cells@)[j].b_field.value is Literal by {
                if j != bp {
                    assert(instructions_model(cells@)[j] == m[j]);
                }
            }
        }
        (zero, equal)
    }
    /// Calls `field_op` on the operand offsets the instruction's modifier
    /// selects and writes each result it gives into the B target's field;
    /// with the `I` modifier, then calls `instruction_op` (if any) on the A
    /// operand and the B target and takes the opcode and modifier of its
    /// result, as [`executed_with`] and [`results_given`] say.
    pub fn run_with<F, G>(self, cells: &mut Vec<Instruction>, field_op: F, instruction_op: Option<G>)
        where
            F: Fn(Offset, Offset) -> Option<Offset>,
            G: Fn(Instruction, Instruction) -> Option<Instruction>,
        requires
            cells_wf(instructions_model(old(cells)@)),
            executor_wf(&self, old(cells)@.len() as int),
            forall|a: Offset, b: Offset| #[trigger] call_requires(field_op, (a, b)),
            instruction_op matches Some(g) ==> forall|a: Instruction, b: Instruction| #[trigger] call_requires(g, (a, b)),
        ensures
            cells_wf(instructions_model(final(cells)@)),
            final(cells)@.len() == old(cells)@.len(),
            exists|ra: Option<Offset>, rb: Option<Offset>, ri: Option<Instruction>|
                results_given(instructions_model(old(cells)@), self@, self.a_value, field_op, instruction_op, ra, rb, ri)
                    && instructions_model(final(cells)@) == #[trigger] executed_with(instructions_model(old(cells)@), self@, ra, rb, ri),
    {
        let ghost m = instructions_model(cells@);
        let ghost ex = self@;
        let ghost a_value = self.a_value;
        let n = cells.len();
        proof {
            self.program_counter.lemma_wf();
            self.b_ptr.lemma_wf();
        }
        let pc = self.program_counter.value() as usize;
        let bp = self.b_ptr.value() as usize;
        assert(m[pc as int] == cells@[pc as int]@);
        assert(m[bp as int] == cells@[bp as int]@);
        let modifier = cells[pc].modifier;
        let aa = super::address::offset_of(value_of(&self.a_value.a_field) as i64, n).value();
        let ab = super::address::offset_of(value_of(&self.a_value.b_field) as i64, n).value();
        let ba = super::address::offset_of(value_of(&self.b_value.a_field) as i64, n).value();
        let bb = super::address::offset_of(value_of(&self.b_value.b_field) as i64, n).value();
        let (pa, pb) = exec_operand_pairs(modifier, aa, ab, ba, bb);
        let ra = match pa {
            Some((a, b)) => field_op(Offset::new(a as i32, n as u32), Offset::new(b as i32, n as u32)),
            None => None,
        };
        let rb = match pb {
            Some((a, b)) => field_op(Offset::new(a as i32, n as u32), Offset::new(b as i32, n as u32)),
            None => None,
        };
        let opcode = cells[bp].opcode;
        let target_modifier = cells[bp].modifier;
        let a_mode = cells[bp].a_field.address_mode;
        let b_mode = cells[bp].b_field.address_mode;
        let old_a = value_of(&cells[bp].a_field);
        let old_b = value_of(&cells[bp].b_field);
        let new_a = match ra {
            Some(o) => o.value() as i32,
            None => old_a,
        };
        let new_b = match rb {
            Some(o) => o.value() as i32,
            None => old_b,
        };
        let ghost t = target_with(m, ex, ra, rb);
        let ri = if modifier == Modifier::I {
            match instruction_op {
                Some(g) => {
                    let arg = Instruction {
                        opcode,
                        modifier: target_modifier,
                        a_field: Field { address_mode: a_mode, value: Value::Literal(new_a) },
                        b_field: Field { address_mode: b_mode, value: Value::Literal(new_b) },
                    };
                    assert(arg == literal_instruction(t));
                    g(self.a_value, arg)
                },
                None => None,
            }
        } else {
            None
        };
        let (res_opcode, res_modifier) = match &ri {
            Some(i) => (i.opcode, i.modifier),
            None => (opcode, target_modifier),
        };
        let result = Instruction {
            opcode: res_opcode,
            modifier: res_modifier,
            a_field: Field { address_mode: a_mode, value: Value::Literal(new_a) },
            b_field: Field { address_mode: b_mode, value: Value::Literal(new_b) },
        };
        let ghost r = result@;
        cells.set(bp, result);
        proof {
            assert(results_given(m, ex, a_value, field_op, instruction_op, ra, rb, ri));
            assert(instructions_model(cells@) =~= executed_with(m, ex, ra, rb, ri));
            assert forall|j: int| 0 <= j < m.len() implies (#[trigger] instructions_model(cells@)[j]).a_field.value is Literal
                && instructions_model(cells@)[j].b_field.value is Literal by {
                if j != bp {
                    assert(instructions_model(cells@)[j] == m[j]);
                }
            }
        }
    }
}

} // verus!
