//! Programs whose fields may still name labels, and the cores and programs
//! that keep a label table and resolve the labels into relative offsets.

use vstd::prelude::*;

use crate::load_file::{self, AddressMode, Modifier, Opcode, SpecField, SpecInstruction, SpecValue, Value};
use crate::name_map::NameMap;
use crate::text::{self, decimal};

pub mod memory;
pub mod parse;
pub mod program;

pub use memory::Core;
pub use parse::{parse, Error};
pub use self::program::Program;

verus! {

/// The number of instructions a core holds by default.
pub const DEFAULT_CORE_SIZE: usize = 8000;

/// One field of an instruction: an address mode and a value, which may be a
/// label still to be resolved.
#[derive(Debug)]
pub struct Field {
    pub address_mode: AddressMode,
    pub value: Value,
}

impl View for Field {
    type V = SpecField;

    open spec fn view(&self) -> SpecField {
        SpecField { address_mode: self.address_mode, value: self.value@ }
    }
}

impl Clone for Field {
    fn clone(&self) -> (res: Self)
        ensures
            res@ == self@,
    {
        Field { address_mode: self.address_mode, value: self.value.clone() }
    }
}

impl PartialEq for Field {
    fn eq(&self, other: &Self) -> (res: bool) {
        self.address_mode == other.address_mode && self.value.eq(&other.value)
    }
}

impl vstd::std_specs::cmp::PartialEqSpecImpl for Field {
    open spec fn obeys_eq_spec() -> bool {
        true
    }

    open spec fn eq_spec(&self, other: &Self) -> bool {
        self@ == other@
    }
}

impl Default for Field {
    fn default() -> (res: Self)
        ensures
            res@ == SpecField::literal(AddressMode::Immediate, 0),
    {
        Field { address_mode: AddressMode::Immediate, value: Value::Literal(0) }
    }
}

/// The message for a label that is not in the table.
pub open spec fn label_not_found(label: Seq<char>) -> Seq<char> {
    "Label '"@ + label + "' not found"@
}

/// The message for a label whose offset does not fit in `i32`.
pub open spec fn label_out_of_range(label: Seq<char>) -> Seq<char> {
    "Label '"@ + label + "' is out of range"@
}

/// A field with its label, if any, replaced by the label's address
/// relative to `from`.
pub open spec fn resolved_field(f: SpecField, from: usize, labels: Map<Seq<char>, usize>) -> Result<SpecField, Seq<char>> {
    match f.value {
        SpecValue::Literal(_) => Ok(f),
        SpecValue::Label(l) => if !labels.contains_key(l) {
            Err(label_not_found(l))
        } else {
            match (labels[l] as i32).checked_sub(from as i32) {
                Some(d) => Ok(SpecField { value: SpecValue::Literal(d), ..f }),
                None => Err(label_out_of_range(l)),
            }
        },
    }
}

/// The characters of a literal text.
pub(crate) fn literal(s: &str) -> (res: Vec<char>)
    ensures
        res@ == s@,
{
    text::chars_of(s)
}

/// `a`, then `b`, then `c`.
pub(crate) fn join3(a: &str, b: &[char], c: &str) -> (res: String)
    ensures
        res@ == a@ + b@ + c@,
{
    let mut v = literal(a);
    let mut i: usize = 0;
    while i < b.len()
        invariant
            i <= b@.len(),
            v@ == a@ + b@.take(i as int),
        decreases b@.len() - i,
    {
        v.push(b[i]);
        i = i + 1;
        assert(v@ =~= a@ + b@.take(i as int));
    }
    let mut tail = literal(c);
    v.append(&mut tail);
    assert(b@.take(b@.len() as int) =~= b@);
    text::string_from(v.as_slice())
}

impl Field {
    /// A direct-mode field holding a literal.
    pub fn direct(value: i32) -> (res: Self)
        ensures
            res@ == SpecField::literal(AddressMode::Direct, value),
    {
        Field { address_mode: AddressMode::Direct, value: Value::Literal(value) }
    }

    /// An immediate-mode field holding a literal.
    pub fn immediate(value: i32) -> (res: Self)
        ensures
            res@ == SpecField::literal(AddressMode::Immediate, value),
    {
        Field { address_mode: AddressMode::Immediate, value: Value::Literal(value) }
    }

    /// This field with its label, if any, replaced by the label's address
    /// relative to `from`.
    pub fn resolve(&self, from: usize, labels: &NameMap<usize>) -> (res: Result<Self, String>)
        requires
            labels.wf(),
        ensures
            match res {
                Ok(f) => resolved_field(self@, from, labels.map()) == Ok::<SpecField, Seq<char>>(f@),
                Err(m) => resolved_field(self@, from, labels.map()) == Err::<SpecField, Seq<char>>(m@),
            },
    {
        match &self.value {
            Value::Literal(_) => Ok(self.clone()),
            Value::Label(label) => {
                let name = text::chars_of(label.as_str());
                match labels.get(name.as_slice()) {
                    None => Err(join3("Label '", name.as_slice(), "' not found")),
                    Some(address) => match (*address as i32).checked_sub(from as i32) {
                        Some(d) => Ok(Field { address_mode: self.address_mode, value: Value::Literal(d) }),
                        None => Err(join3("Label '", name.as_slice(), "' is out of range")),
                    },
                }
            },
        }
    }
}

/// A single Redcode instruction, whose fields may name labels.
#[derive(Debug)]
pub struct Instruction {
    pub opcode: Opcode,
    pub modifier: Modifier,
    pub field_a: Field,
    pub field_b: Field,
}

impl View for Instruction {
    type V = SpecInstruction;

    open spec fn view(&self) -> SpecInstruction {
        SpecInstruction {
            opcode: self.opcode,
            modifier: self.modifier,
            a_field: self.field_a@,
            b_field: self.field_b@,
        }
    }
}

impl Clone for Instruction {
    fn clone(&self) -> (res: Self)
        ensures
            res@ == self@,
    {
        Instruction {
            opcode: self.opcode,
            modifier: self.modifier,
            field_a: self.field_a.clone(),
            field_b: self.field_b.clone(),
        }
    }
}

impl PartialEq for Instruction {
    fn eq(&self, other: &Self) -> (res: bool) {
        self.opcode == other.opcode && self.modifier == other.modifier && self.field_a.eq(&other.field_a)
            && self.field_b.eq(&other.field_b)
    }
}

impl vstd::std_specs::cmp::PartialEqSpecImpl for Instruction {
    open spec fn obeys_eq_spec() -> bool {
        true
    }

    open spec fn eq_spec(&self, other: &Self) -> bool {
        self@ == other@
    }
}

/// The instruction a fresh cell holds: `DAT.F #0, #0`.
pub open spec fn default_instruction() -> SpecInstruction {
    SpecInstruction {
        opcode: Opcode::Dat,
        modifier: Modifier::F,
        a_field: SpecField::literal(AddressMode::Immediate, 0),
        b_field: SpecField::literal(AddressMode::Immediate, 0),
    }
}

impl Default for Instruction {
    fn default() -> (res: Self)
        ensures
            res@ == default_instruction(),
    {
        Instruction { opcode: Opcode::Dat, modifier: Modifier::F, field_a: Field::default(), field_b: Field::default() }
    }
}

/// An instruction with both fields resolved, or the first field's error.
pub open spec fn resolved_instruction(i: SpecInstruction, from: usize, labels: Map<Seq<char>, usize>) -> Result<SpecInstruction, Seq<char>> {
    match resolved_field(i.a_field, from, labels) {
        Err(m) => Err(m),
        Ok(a) => match resolved_field(i.b_field, from, labels) {
            Err(m) => Err(m),
            Ok(b) => Ok(SpecInstruction { a_field: a, b_field: b, ..i }),
        },
    }
}

impl Instruction {
    /// The same instruction as parsed by the load-file parser.
    pub fn from_parsed(i: load_file::Instruction) -> (res: Self)
        ensures
            res@ == i@,
    {
        Instruction {
            opcode: i.opcode,
            modifier: i.modifier,
            field_a: Field { address_mode: i.a_field.address_mode, value: i.a_field.value },
            field_b: Field { address_mode: i.b_field.address_mode, value: i.b_field.value },
        }
    }

    /// An instruction whose modifier is the default for its opcode and address modes.
    pub fn new(opcode: Opcode, field_a: Field, field_b: Field) -> (res: Self)
        ensures
            res@ == SpecInstruction::with_default_modifier(opcode, field_a@, field_b@),
    {
        let modifier = Modifier::default_88_to_94(opcode, field_a.address_mode, field_b.address_mode);
        Instruction { opcode, modifier, field_a, field_b }
    }

    /// This instruction with the labels of both fields resolved relative to `from`.
    pub fn resolve(&self, from: usize, labels: &NameMap<usize>) -> (res: Result<Self, String>)
        requires
            labels.wf(),
        ensures
            match res {
                Ok(i) => resolved_instruction(self@, from, labels.map()) == Ok::<SpecInstruction, Seq<char>>(i@),
                Err(m) => resolved_instruction(self@, from, labels.map()) == Err::<SpecInstruction, Seq<char>>(m@),
            },
    {
        let field_a = match self.field_a.resolve(from, labels) {
            Ok(f) => f,
            Err(m) => {
                return Err(m);
            },
        };
        let field_b = match self.field_b.resolve(from, labels) {
            Ok(f) => f,
            Err(m) => {
                return Err(m);
            },
        };
        Ok(Instruction { opcode: self.opcode, modifier: self.modifier, field_a, field_b })
    }
}

/// The message for an address outside a core or program of `size` cells.
pub open spec fn invalid_address(kind: Seq<char>, index: usize, size: usize) -> Seq<char> {
    "Address "@ + decimal(index as int) + " is not valid for "@ + kind + " of size "@ + decimal(size as int)
}

/// The message for a label declared twice.
pub open spec fn duplicate_label(label: Seq<char>) -> Seq<char> {
    "Label '"@ + label + "' already exists"@
}

/// The message for an address outside a core or program of `size` cells.
pub(crate) fn invalid_address_message(kind: &str, index: usize, size: usize) -> (res: String)
    ensures
        res@ == invalid_address(kind@, index, size),
{
    let mut v = literal("Address ");
    let mut a = text::usize_to_chars(index);
    v.append(&mut a);
    let mut b = literal(" is not valid for ");
    v.append(&mut b);
    let mut k = literal(kind);
    v.append(&mut k);
    let mut c = literal(" of size ");
    v.append(&mut c);
    let mut d = text::usize_to_chars(size);
    v.append(&mut d);
    text::string_from(v.as_slice())
}

/// The models of a sequence of instructions.
pub open spec fn instructions_model(v: Seq<Instruction>) -> Seq<SpecInstruction> {
    v.map_values(|i: Instruction| i@)
}

/// The labels table after declaring `label` at `index` in a space of `size`
/// cells: an address past the end is refused; a label declared again takes
/// its new address, and the declaration is reported as an error.
pub open spec fn declare_label(
    labels: Map<Seq<char>, usize>,
    kind: Seq<char>,
    size: usize,
    index: usize,
    label: Seq<char>,
) -> (Map<Seq<char>, usize>, Result<(), Seq<char>>) {
    if index > size {
        (labels, Err(invalid_address(kind, index, size)))
    } else if labels.contains_key(label) {
        (labels.insert(label, index), Err(duplicate_label(label)))
    } else {
        (labels.insert(label, index), Ok(()))
    }
}

/// Resolving is idempotent: a resolved field holds a literal, which
/// resolves to itself, from any address and with any labels.
pub proof fn law_resolve_idempotent(f: SpecField, from: usize, labels: Map<Seq<char>, usize>, from2: usize, labels2: Map<Seq<char>, usize>)
    requires
        resolved_field(f, from, labels) is Ok,
    ensures
        resolved_field(resolved_field(f, from, labels)->Ok_0, from2, labels2) == resolved_field(f, from, labels),
{
}

/// A label resolves to its address relative to the field's own address.
pub proof fn law_resolve_relative(f: SpecField, from: usize, labels: Map<Seq<char>, usize>)
    requires
        f.value matches SpecValue::Label(l) && labels.contains_key(l),
        i32::MIN <= (labels[f.value->Label_0] as i32) - (from as i32) <= i32::MAX,
    ensures
        resolved_field(f, from, labels) == Ok::<SpecField, Seq<char>>(
            SpecField { value: SpecValue::Literal(((labels[f.value->Label_0] as i32) - (from as i32)) as i32), ..f },
        ),
{
}

/// After a label is declared at an address within the space, the label
/// stands for that address, whether or not it was declared before; other
/// labels keep theirs.
pub proof fn law_last_label_wins(
    labels: Map<Seq<char>, usize>,
    kind: Seq<char>,
    size: usize,
    index: usize,
    label: Seq<char>,
    other: Seq<char>,
)
    requires
        index <= size,
    ensures
        declare_label(labels, kind, size, index, label).0.contains_key(label),
        declare_label(labels, kind, size, index, label).0[label] == index,
        other != label ==> declare_label(labels, kind, size, index, label).0.contains_key(other) == labels.contains_key(other),
        other != label && labels.contains_key(other) ==> declare_label(labels, kind, size, index, label).0[other] == labels[other],
{
}

/// Declares `label` at `index` in `labels`, as [`declare_label`] says.
pub(crate) fn add_label_to(labels: &mut NameMap<usize>, kind: &str, size: usize, index: usize, label: String) -> (res: Result<(), String>)
    requires
        old(labels).wf(),
    ensures
        final(labels).wf(),
        final(labels).map() == declare_label(old(labels).map(), kind@, size, index, label@).0,
        match res {
            Ok(()) => declare_label(old(labels).map(), kind@, size, index, label@).1 == Ok::<(), Seq<char>>(()),
            Err(m) => declare_label(old(labels).map(), kind@, size, index, label@).1 == Err::<(), Seq<char>>(m@),
        },
{
    if index > size {
        return Err(invalid_address_message(kind, index, size));
    }
    let name = text::chars_of(label.as_str());
    if labels.insert(name.as_slice(), index) {
        Err(join3("Label '", name.as_slice(), "' already exists"))
    } else {
        Ok(())
    }
}

} // verus!
