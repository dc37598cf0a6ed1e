//! The in-memory representation of a Redcode warrior ("load file" format).

pub mod metadata;
pub mod offset;
pub mod program;
pub mod types;

pub use metadata::Metadata;
pub use offset::Offset;
pub use program::Program;
pub use types::{AddressMode, Modifier, Opcode, PseudoOpcode, SpecValue, Value};

use vstd::prelude::*;

use crate::text;

verus! {

/// The names and values of the constants every warrior may refer to.
pub open spec fn default_constants() -> Seq<(Seq<char>, u32)> {
    seq![
        (seq!['C', 'O', 'R', 'E', 'S', 'I', 'Z', 'E'], 8000u32),
        (seq!['M', 'A', 'X', 'P', 'R', 'O', 'C', 'E', 'S', 'S', 'E', 'S'], 8000u32),
        (seq!['M', 'A', 'X', 'C', 'Y', 'C', 'L', 'E', 'S'], 80000u32),
        (seq!['M', 'A', 'X', 'L', 'E', 'N', 'G', 'T', 'H'], 100u32),
        (seq!['M', 'I', 'N', 'D', 'I', 'S', 'T', 'A', 'N', 'C', 'E'], 100u32),
        (seq!['R', 'O', 'U', 'N', 'D', 'S'], 1u32),
    ]
}

/// The predefined constants (`CORESIZE`, `MAXPROCESSES`, ...) with their values.
pub fn default_constant_list() -> (res: Vec<(Vec<char>, u32)>)
    ensures
        res@.len() == default_constants().len(),
        forall|i: int|
            0 <= i < res@.len() ==> (#[trigger] res@[i]).0@ == default_constants()[i].0
                && res@[i].1 == default_constants()[i].1,
{
    let mut res: Vec<(Vec<char>, u32)> = Vec::new();
    res.push((vec!['C', 'O', 'R', 'E', 'S', 'I', 'Z', 'E'], 8000));
    res.push((vec!['M', 'A', 'X', 'P', 'R', 'O', 'C', 'E', 'S', 'S', 'E', 'S'], 8000));
    res.push((vec!['M', 'A', 'X', 'C', 'Y', 'C', 'L', 'E', 'S'], 80000));
    res.push((vec!['M', 'A', 'X', 'L', 'E', 'N', 'G', 'T', 'H'], 100));
    res.push((vec!['M', 'I', 'N', 'D', 'I', 'S', 'T', 'A', 'N', 'C', 'E'], 100));
    res.push((vec!['R', 'O', 'U', 'N', 'D', 'S'], 1));
    assert(res@[0].0@ =~= default_constants()[0].0);
    assert(res@[1].0@ =~= default_constants()[1].0);
    assert(res@[2].0@ =~= default_constants()[2].0);
    assert(res@[3].0@ =~= default_constants()[3].0);
    assert(res@[4].0@ =~= default_constants()[4].0);
    assert(res@[5].0@ =~= default_constants()[5].0);
    res
}

/// One field of an instruction: an address mode and a value.
#[derive(Debug)]
pub struct Field {
    pub address_mode: AddressMode,
    pub value: Value,
}

/// The mathematical model of a [`Field`].
pub struct SpecField {
    pub address_mode: AddressMode,
    pub value: SpecValue,
}

impl View for Field {
    type V = SpecField;

    open spec fn view(&self) -> SpecField {
        SpecField { address_mode: self.address_mode, value: self.value@ }
    }
}

impl Clone for Field {
    fn clone(&self) -> (res: Self)
        ensures
            res@ == self@,
    {
        Field { address_mode: self.address_mode, value: self.value.clone() }
    }
}

impl PartialEq for Field {
    fn eq(&self, other: &Self) -> (res: bool) {
        self.address_mode == other.address_mode && self.value.eq(&other.value)
    }
}

impl vstd::std_specs::cmp::PartialEqSpecImpl for Field {
    open spec fn obeys_eq_spec() -> bool {
        true
    }

    open spec fn eq_spec(&self, other: &Self) -> bool {
        self@ == other@
    }
}

impl Default for Field {
    fn default() -> (res: Self)
        ensures
            res@ == (SpecField { address_mode: AddressMode::Direct, value: SpecValue::Literal(0) }),
    {
        Field { address_mode: AddressMode::Direct, value: Value::Literal(0) }
    }
}

impl SpecField {
    /// A field with a literal value and the given address mode.
    pub open spec fn literal(address_mode: AddressMode, value: i32) -> SpecField {
        SpecField { address_mode, value: SpecValue::Literal(value) }
    }

    /// The text this field is written as: the address mode's symbol, then the value.
    pub open spec fn text(self) -> Seq<char> {
        self.address_mode.name() + self.value.text()
    }
}

impl Field {
    /// A direct-mode field holding a literal.
    pub fn direct(value: i32) -> (res: Self)
        ensures
            res@ == SpecField::literal(AddressMode::Direct, value),
    {
        Field { address_mode: AddressMode::Direct, value: Value::Literal(value) }
    }

    /// A direct-mode field referring to a label.
    pub fn direct_label(label: &str) -> (res: Self)
        ensures
            res@ == (SpecField { address_mode: AddressMode::Direct, value: SpecValue::Label(label@) }),
    {
        Field { address_mode: AddressMode::Direct, value: Value::Label(label.to_owned()) }
    }

    /// An immediate-mode field holding a literal.
    pub fn immediate(value: i32) -> (res: Self)
        ensures
            res@ == SpecField::literal(AddressMode::Immediate, value),
    {
        Field { address_mode: AddressMode::Immediate, value: Value::Literal(value) }
    }

    /// The literal value of this field; the field must hold a literal.
    pub fn unwrap_value(&self) -> (res: i32)
        requires
            self@.value is Literal,
        ensures
            self@.value == SpecValue::Literal(res),
    {
        self.value.unwrap()
    }

    /// Replaces this field's value by a literal, keeping the address mode.
    pub fn set_value(&mut self, value: i32)
        ensures
            final(self)@ == SpecField::literal(old(self)@.address_mode, value),
    {
        self.value = Value::Literal(value);
    }

    /// The text this field is written as.
    pub fn to_string(&self) -> (res: String)
        ensures
            res@ == self@.text(),
    {
        let mut res = self.address_mode.to_string();
        let v = self.value.to_string();
        res.append(v.as_str());
        res
    }
}

/// `s` padded on the right with spaces to `width` characters (longer texts
/// are kept whole).
pub open spec fn padded(s: Seq<char>, width: nat) -> Seq<char> {
    if s.len() >= width {
        s
    } else {
        s + Seq::new((width - s.len()) as nat, |_i: int| ' ')
    }
}

/// Pads `v` on the right with spaces to `width` characters after `start`.
pub(crate) fn pad_from(v: &mut Vec<char>, start: usize, width: usize)
    requires
        start <= old(v)@.len(),
        width <= 64,
    ensures
        final(v)@ == old(v)@.take(start as int) + padded(old(v)@.skip(start as int), width as nat),
{
    let ghost s0 = v@.skip(start as int);
    let ghost pre = v@.take(start as int);
    assert(v@ =~= pre + s0);
    while v.len() - start < width
        invariant
            start <= v@.len(),
            width <= 64,
            s0.len() < width ==> v@ == pre + s0 + Seq::new((v@.len() - start - s0.len()) as nat, |_i: int| ' '),
            s0.len() < width ==> v@.len() - start <= width,
            s0.len() >= width ==> v@ == pre + s0,
            v@.len() - start >= s0.len(),
        decreases width - (v@.len() - start),
    {
        let ghost before = v@;
        v.push(' ');
        proof {
            let k = (before.len() - start - s0.len()) as nat;
            assert(Seq::new(k, |_i: int| ' ').push(' ') =~= Seq::new(k + 1, |_i: int| ' '));
            assert(v@ =~= pre + s0 + Seq::new(k + 1, |_i: int| ' '));
        }
    }
    proof {
        if s0.len() < width {
            assert(v@.len() - start == width);
        }
    }
}

/// A single Redcode instruction.
#[derive(Debug)]
pub struct Instruction {
    pub opcode: Opcode,
    pub modifier: Modifier,
    pub a_field: Field,
    pub b_field: Field,
}

/// The mathematical model of an [`Instruction`].
pub struct SpecInstruction {
    pub opcode: Opcode,
    pub modifier: Modifier,
    pub a_field: SpecField,
    pub b_field: SpecField,
}

impl View for Instruction {
    type V = SpecInstruction;

    open spec fn view(&self) -> SpecInstruction {
        SpecInstruction {
            opcode: self.opcode,
            modifier: self.modifier,
            a_field: self.a_field@,
            b_field: self.b_field@,
        }
    }
}

impl Clone for Instruction {
    fn clone(&self) -> (res: Self)
        ensures
            res@ == self@,
    {
        Instruction {
            opcode: self.opcode,
            modifier: self.modifier,
            a_field: self.a_field.clone(),
            b_field: self.b_field.clone(),
        }
    }
}

impl PartialEq for Instruction {
    fn eq(&self, other: &Self) -> (res: bool) {
        self.opcode == other.opcode && self.modifier == other.modifier && self.a_field.eq(
            &other.a_field,
        ) && self.b_field.eq(&other.b_field)
    }
}

impl vstd::std_specs::cmp::PartialEqSpecImpl for Instruction {
    open spec fn obeys_eq_spec() -> bool {
        true
    }

    open spec fn eq_spec(&self, other: &Self) -> bool {
        self@ == other@
    }
}

impl SpecInstruction {
    /// The text of an instruction in load-file format: `OPCODE.MODIFIER`
    /// and the A field with its comma, each padded to 8 characters, then
    /// the B field.
    pub open spec fn text(self) -> Seq<char> {
        padded(self.opcode.name() + seq!['.'] + self.modifier.name(), 8) + padded(self.a_field.text() + seq![','], 8)
            + self.b_field.text()
    }

    /// The instruction every core cell holds before anything is loaded: `DAT.F $0, $0`.
    pub open spec fn default_instruction() -> SpecInstruction {
        SpecInstruction {
            opcode: Opcode::Dat,
            modifier: Modifier::F,
            a_field: SpecField::literal(AddressMode::Direct, 0),
            b_field: SpecField::literal(AddressMode::Direct, 0),
        }
    }

    /// An instruction with its modifier chosen by the default conversion rules.
    pub open spec fn with_default_modifier(opcode: Opcode, a_field: SpecField, b_field: SpecField) -> SpecInstruction {
        SpecInstruction {
            opcode,
            modifier: Modifier::default_for(opcode, a_field.address_mode, b_field.address_mode),
            a_field,
            b_field,
        }
    }
}

impl Default for Instruction {
    fn default() -> (res: Self)
        ensures
            res@ == SpecInstruction::default_instruction(),
    {
        Instruction {
            opcode: Opcode::Dat,
            modifier: Modifier::F,
            a_field: Field::default(),
            b_field: Field::default(),
        }
    }
}

impl Instruction {
    /// The text of this instruction in load-file format.
    pub fn to_string(&self) -> (res: String)
        ensures
            res@ == self@.text(),
    {
        let mut v = self.opcode.name_chars();
        v.push('.');
        let mut m = self.modifier.name_chars();
        v.append(&mut m);
        pad_from(&mut v, 0, 8);
        let start = v.len();
        let a = self.a_field.to_string();
        let mut a_chars = text::chars_of(a.as_str());
        v.append(&mut a_chars);
        v.push(',');
        let ghost before_pad = v@;
        pad_from(&mut v, start, 8);
        let b = self.b_field.to_string();
        let mut b_chars = text::chars_of(b.as_str());
        v.append(&mut b_chars);
        proof {
            let op = self@.opcode.name() + seq!['.'] + self@.modifier.name();
            assert(before_pad.take(start as int) =~= padded(op, 8));
            assert(before_pad.skip(start as int) =~= self@.a_field.text() + seq![',']);
            assert(padded(op, 8).take(0) + padded(op, 8).skip(0) =~= padded(op, 8));
        }
        text::string_from(v.as_slice())
    }

    /// An instruction whose modifier is the default for its opcode and address modes.
    pub fn new(opcode: Opcode, a_field: Field, b_field: Field) -> (res: Self)
        ensures
            res@ == SpecInstruction::with_default_modifier(opcode, a_field@, b_field@),
    {
        let modifier = Modifier::default_88_to_94(opcode, a_field.address_mode, b_field.address_mode);
        Instruction { opcode, modifier, a_field, b_field }
    }
}

/// A warrior: its program and the metadata found in its comments.
#[derive(Debug)]
pub struct Warrior {
    pub program: Program,
    pub metadata: Metadata,
}

impl Default for Warrior {
    fn default() -> (res: Self)
        ensures
            res.program.instructions@.len() == 0,
            res.program.origin is None,
            res.metadata.is_empty(),
    {
        Warrior { program: Program::default(), metadata: Metadata::default() }
    }
}

impl Warrior {
    /// The warrior in load-file format: its metadata comments, then its program.
    pub fn to_string(&self) -> (res: String)
        ensures
            res@ == self.metadata@.text() + self.program.text(),
    {
        let mut m = self.metadata.to_string();
        let p = self.program.to_string();
        m.append(p.as_str());
        m
    }

    /// The number of instructions in this warrior's program (truncated to 32 bits).
    pub fn len(&self) -> (res: u32)
        ensures
            res == self.program.instructions@.len() as u32,
    {
        self.program.instructions.len() as u32
    }

    /// Whether this warrior's program has no instructions.
    pub fn is_empty(&self) -> (res: bool)
        ensures
            res == (self.program.instructions@.len() == 0),
    {
        self.program.instructions.len() == 0
    }
}

} // verus!
