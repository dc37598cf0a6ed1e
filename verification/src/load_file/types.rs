//! The value types of a Redcode instruction: opcodes, modifiers, address
//! modes and field values, with their textual names.

use vstd::prelude::*;

use crate::text;

verus! {

/// The message given when no variant of an enum has the given name.
pub open spec fn no_variant_message(input: Seq<char>, enum_name: Seq<char>) -> Seq<char> {
    seq!['N', 'o', ' ', 'v', 'a', 'r', 'i', 'a', 'n', 't', ' ', '\''] + input + seq![
        '\'',
        ' ',
        'f',
        'o',
        'u',
        'n',
        'd',
        ' ',
        'f',
        'o',
        'r',
        ' ',
        'e',
        'n',
        'u',
        'm',
        ' ',
        '\'',
    ] + enum_name + seq!['\'']
}

fn no_variant_error(input: &[char], enum_name: &[char]) -> (res: String)
    ensures
        res@ == no_variant_message(input@, enum_name@),
{
    let mut v: Vec<char> = vec!['N', 'o', ' ', 'v', 'a', 'r', 'i', 'a', 'n', 't', ' ', '\''];
    let mut i: usize = 0;
    let ghost start = v@;
    while i < input.len()
        invariant
            i <= input@.len(),
            v@ == start + input@.take(i as int),
        decreases input@.len() - i,
    {
        v.push(input[i]);
        i = i + 1;
        assert(v@ =~= start + input@.take(i as int));
    }
    let mut middle: Vec<char> = vec![
        '\'',
        ' ',
        'f',
        'o',
        'u',
        'n',
        'd',
        ' ',
        'f',
        'o',
        'r',
        ' ',
        'e',
        'n',
        'u',
        'm',
        ' ',
        '\'',
    ];
    v.append(&mut middle);
    let ghost start2 = v@;
    let mut j: usize = 0;
    while j < enum_name.len()
        invariant
            j <= enum_name@.len(),
            v@ == start2 + enum_name@.take(j as int),
        decreases enum_name@.len() - j,
    {
        v.push(enum_name[j]);
        j = j + 1;
        assert(v@ =~= start2 + enum_name@.take(j as int));
    }
    v.push('\'');
    assert(input@.take(input@.len() as int) =~= input@);
    assert(enum_name@.take(enum_name@.len() as int) =~= enum_name@);
    assert(v@ =~= no_variant_message(input@, enum_name@));
    text::string_from(v.as_slice())
}

/// An instruction's operation.
#[derive(Clone, Copy, Debug, PartialEq, Eq, Structural, Hash)]
pub enum Opcode {
    Add,
    Cmp,
    Dat,
    Div,
    Djn,
    Jmn,
    Jmp,
    Jmz,
    Mod,
    Mov,
    Mul,
    Nop,
    SkipEq,
    Slt,
    Sne,
    Spl,
    Sub,
}

impl Opcode {
    /// The textual name of this variant.
    pub open spec fn name(self) -> Seq<char> {
        match self {
            Opcode::Add => seq!['A', 'D', 'D'],
            Opcode::Cmp => seq!['C', 'M', 'P'],
            Opcode::Dat => seq!['D', 'A', 'T'],
            Opcode::Div => seq!['D', 'I', 'V'],
            Opcode::Djn => seq!['D', 'J', 'N'],
            Opcode::Jmn => seq!['J', 'M', 'N'],
            Opcode::Jmp => seq!['J', 'M', 'P'],
            Opcode::Jmz => seq!['J', 'M', 'Z'],
            Opcode::Mod => seq!['M', 'O', 'D'],
            Opcode::Mov => seq!['M', 'O', 'V'],
            Opcode::Mul => seq!['M', 'U', 'L'],
            Opcode::Nop => seq!['N', 'O', 'P'],
            Opcode::SkipEq => seq!['S', 'E', 'Q'],
            Opcode::Slt => seq!['S', 'L', 'T'],
            Opcode::Sne => seq!['S', 'N', 'E'],
            Opcode::Spl => seq!['S', 'P', 'L'],
            Opcode::Sub => seq!['S', 'U', 'B'],
        }
    }

    /// The variant with the given name, if any.
    pub open spec fn from_name(s: Seq<char>) -> Option<Opcode> {
        if s == seq!['A', 'D', 'D'] {
            Some(Opcode::Add)
        } else if s == seq!['C', 'M', 'P'] {
            Some(Opcode::Cmp)
        } else if s == seq!['D', 'A', 'T'] {
            Some(Opcode::Dat)
        } else if s == seq!['D', 'I', 'V'] {
            Some(Opcode::Div)
        } else if s == seq!['D', 'J', 'N'] {
            Some(Opcode::Djn)
        } else if s == seq!['J', 'M', 'N'] {
            Some(Opcode::Jmn)
        } else if s == seq!['J', 'M', 'P'] {
            Some(Opcode::Jmp)
        } else if s == seq!['J', 'M', 'Z'] {
            Some(Opcode::Jmz)
        } else if s == seq!['M', 'O', 'D'] {
            Some(Opcode::Mod)
        } else if s == seq!['M', 'O', 'V'] {
            Some(Opcode::Mov)
        } else if s == seq!['M', 'U', 'L'] {
            Some(Opcode::Mul)
        } else if s == seq!['N', 'O', 'P'] {
            Some(Opcode::Nop)
        } else if s == seq!['S', 'E', 'Q'] {
            Some(Opcode::SkipEq)
        } else if s == seq!['S', 'L', 'T'] {
            Some(Opcode::Slt)
        } else if s == seq!['S', 'N', 'E'] {
            Some(Opcode::Sne)
        } else if s == seq!['S', 'P', 'L'] {
            Some(Opcode::Spl)
        } else if s == seq!['S', 'U', 'B'] {
            Some(Opcode::Sub)
        } else {
            None
        }
    }

    /// All variants, in declaration order.
    pub open spec fn all() -> Seq<Opcode> {
        seq![Opcode::Add, Opcode::Cmp, Opcode::Dat, Opcode::Div, Opcode::Djn, Opcode::Jmn, Opcode::Jmp, Opcode::Jmz, Opcode::Mod, Opcode::Mov, Opcode::Mul, Opcode::Nop, Opcode::SkipEq, Opcode::Slt, Opcode::Sne, Opcode::Spl, Opcode::Sub]
    }

    /// The characters of this variant's name.
    pub fn name_chars(&self) -> (res: Vec<char>)
        ensures
            res@ == self.name(),
    {
        let res = match self {
            Opcode::Add => vec!['A', 'D', 'D'],
            Opcode::Cmp => vec!['C', 'M', 'P'],
            Opcode::Dat => vec!['D', 'A', 'T'],
            Opcode::Div => vec!['D', 'I', 'V'],
            Opcode::Djn => vec!['D', 'J', 'N'],
            Opcode::Jmn => vec!['J', 'M', 'N'],
            Opcode::Jmp => vec!['J', 'M', 'P'],
            Opcode::Jmz => vec!['J', 'M', 'Z'],
            Opcode::Mod => vec!['M', 'O', 'D'],
            Opcode::Mov => vec!['M', 'O', 'V'],
            Opcode::Mul => vec!['M', 'U', 'L'],
            Opcode::Nop => vec!['N', 'O', 'P'],
            Opcode::SkipEq => vec!['S', 'E', 'Q'],
            Opcode::Slt => vec!['S', 'L', 'T'],
            Opcode::Sne => vec!['S', 'N', 'E'],
            Opcode::Spl => vec!['S', 'P', 'L'],
            Opcode::Sub => vec!['S', 'U', 'B'],
        };
        assert(res@ =~= self.name());
        res
    }

    /// This variant's name, as it is written in Redcode.
    pub fn to_string(&self) -> (res: String)
        ensures
            res@ == self.name(),
    {
        let v = self.name_chars();
        text::string_from(v.as_slice())
    }

    /// Parses a variant from its exact name.
    pub fn from_str(input: &str) -> (res: Result<Opcode, String>)
        ensures
            match res {
                Ok(v) => Opcode::from_name(input@) == Some(v),
                Err(msg) => Opcode::from_name(input@) is None && msg@ == no_variant_message(
                    input@,
                    seq!['O', 'p', 'c', 'o', 'd', 'e'],
                ),
            },
    {
        let chars = text::chars_of(input);
        match Opcode::from_chars(chars.as_slice()) {
            Some(v) => Ok(v),
            None => Err(no_variant_error(chars.as_slice(), vec!['O', 'p', 'c', 'o', 'd', 'e'].as_slice())),
        }
    }

    /// The variant whose name is exactly `s`, if any.
    pub fn from_chars(s: &[char]) -> (res: Option<Opcode>)
        ensures
            res == Opcode::from_name(s@),
    {
        let all = Self::iter_values();
        let mut i: usize = 0;
        while i < all.len()
            invariant
                i <= all@.len(),
                all@ == Self::all(),
                forall|j: int| 0 <= j < i ==> all@[j].name() != s@,
            decreases all@.len() - i,
        {
            let n = all[i].name_chars();
            if text::chars_equal(s, n.as_slice()) {
                return Some(all[i]);
            }
            i = i + 1;
        }
        None
    }

    /// All variants, in declaration order.
    pub fn iter_values() -> (res: Vec<Opcode>)
        ensures
            res@ == Opcode::all(),
    {
        let res = vec![Opcode::Add, Opcode::Cmp, Opcode::Dat, Opcode::Div, Opcode::Djn, Opcode::Jmn, Opcode::Jmp, Opcode::Jmz, Opcode::Mod, Opcode::Mov, Opcode::Mul, Opcode::Nop, Opcode::SkipEq, Opcode::Slt, Opcode::Sne, Opcode::Spl, Opcode::Sub];
        assert(res@ =~= Opcode::all());
        res
    }
}

/// A directive to the assembler rather than an instruction.
#[derive(Clone, Copy, Debug, PartialEq, Eq, Structural, Hash)]
pub enum PseudoOpcode {
    Org,
    End,
    Equ,
    For,
}

impl PseudoOpcode {
    /// The textual name of this variant.
    pub open spec fn name(self) -> Seq<char> {
        match self {
            PseudoOpcode::Org => seq!['O', 'R', 'G'],
            PseudoOpcode::End => seq!['E', 'N', 'D'],
            PseudoOpcode::Equ => seq!['E', 'Q', 'U'],
            PseudoOpcode::For => seq!['F', 'O', 'R'],
        }
    }

    /// The variant with the given name, if any.
    pub open spec fn from_name(s: Seq<char>) -> Option<PseudoOpcode> {
        if s == seq!['O', 'R', 'G'] {
            Some(PseudoOpcode::Org)
        } else if s == seq!['E', 'N', 'D'] {
            Some(PseudoOpcode::End)
        } else if s == seq!['E', 'Q', 'U'] {
            Some(PseudoOpcode::Equ)
        } else if s == seq!['F', 'O', 'R'] {
            Some(PseudoOpcode::For)
        } else {
            None
        }
    }

    /// All variants, in declaration order.
    pub open spec fn all() -> Seq<PseudoOpcode> {
        seq![PseudoOpcode::Org, PseudoOpcode::End, PseudoOpcode::Equ, PseudoOpcode::For]
    }

    /// The characters of this variant's name.
    pub fn name_chars(&self) -> (res: Vec<char>)
        ensures
            res@ == self.name(),
    {
        let res = match self {
            PseudoOpcode::Org => vec!['O', 'R', 'G'],
            PseudoOpcode::End => vec!['E', 'N', 'D'],
            PseudoOpcode::Equ => vec!['E', 'Q', 'U'],
            PseudoOpcode::For => vec!['F', 'O', 'R'],
        };
        assert(res@ =~= self.name());
        res
    }

    /// This variant's name, as it is written in Redcode.
    pub fn to_string(&self) -> (res: String)
        ensures
            res@ == self.name(),
    {
        let v = self.name_chars();
        text::string_from(v.as_slice())
    }

    /// Parses a variant from its exact name.
    pub fn from_str(input: &str) -> (res: Result<PseudoOpcode, String>)
        ensures
            match res {
                Ok(v) => PseudoOpcode::from_name(input@) == Some(v),
                Err(msg) => PseudoOpcode::from_name(input@) is None && msg@ == no_variant_message(
                    input@,
                    seq!['P', 's', 'e', 'u', 'd', 'o', 'O', 'p', 'c', 'o', 'd', 'e'],
                ),
            },
    {
        let chars = text::chars_of(input);
        match PseudoOpcode::from_chars(chars.as_slice()) {
            Some(v) => Ok(v),
            None => Err(no_variant_error(chars.as_slice(), vec!['P', 's', 'e', 'u', 'd', 'o', 'O', 'p', 'c', 'o', 'd', 'e'].as_slice())),
        }
    }

    /// The variant whose name is exactly `s`, if any.
    pub fn from_chars(s: &[char]) -> (res: Option<PseudoOpcode>)
        ensures
            res == PseudoOpcode::from_name(s@),
    {
        let all = Self::iter_values();
        let mut i: usize = 0;
        while i < all.len()
            invariant
                i <= all@.len(),
                all@ == Self::all(),
                forall|j: int| 0 <= j < i ==> all@[j].name() != s@,
            decreases all@.len() - i,
        {
            let n = all[i].name_chars();
            if text::chars_equal(s, n.as_slice()) {
                return Some(all[i]);
            }
            i = i + 1;
        }
        None
    }

    /// All variants, in declaration order.
    pub fn iter_values() -> (res: Vec<PseudoOpcode>)
        ensures
            res@ == PseudoOpcode::all(),
    {
        let res = vec![PseudoOpcode::Org, PseudoOpcode::End, PseudoOpcode::Equ, PseudoOpcode::For];
        assert(res@ =~= PseudoOpcode::all());
        res
    }
}

/// Selects which fields of the operands an instruction acts on.
#[derive(Clone, Copy, Debug, PartialEq, Eq, Structural, Hash)]
pub enum Modifier {
    A,
    B,
    AB,
    BA,
    F,
    X,
    I,
}

impl Modifier {
    /// The textual name of this variant.
    pub open spec fn name(self) -> Seq<char> {
        match self {
            Modifier::A => seq!['A'],
            Modifier::B => seq!['B'],
            Modifier::AB => seq!['A', 'B'],
            Modifier::BA => seq!['B', 'A'],
            Modifier::F => seq!['F'],
            Modifier::X => seq!['X'],
            Modifier::I => seq!['I'],
        }
    }

    /// The variant with the given name, if any.
    pub open spec fn from_name(s: Seq<char>) -> Option<Modifier> {
        if s == seq!['A'] {
            Some(Modifier::A)
        } else if s == seq!['B'] {
            Some(Modifier::B)
        } else if s == seq!['A', 'B'] {
            Some(Modifier::AB)
        } else if s == seq!['B', 'A'] {
            Some(Modifier::BA)
        } else if s == seq!['F'] {
            Some(Modifier::F)
        } else if s == seq!['X'] {
            Some(Modifier::X)
        } else if s == seq!['I'] {
            Some(Modifier::I)
        } else {
            None
        }
    }

    /// All variants, in declaration order.
    pub open spec fn all() -> Seq<Modifier> {
        seq![Modifier::A, Modifier::B, Modifier::AB, Modifier::BA, Modifier::F, Modifier::X, Modifier::I]
    }

    /// The characters of this variant's name.
    pub fn name_chars(&self) -> (res: Vec<char>)
        ensures
            res@ == self.name(),
    {
        let res = match self {
            Modifier::A => vec!['A'],
            Modifier::B => vec!['B'],
            Modifier::AB => vec!['A', 'B'],
            Modifier::BA => vec!['B', 'A'],
            Modifier::F => vec!['F'],
            Modifier::X => vec!['X'],
            Modifier::I => vec!['I'],
        };
        assert(res@ =~= self.name());
        res
    }

    /// This variant's name, as it is written in Redcode.
    pub fn to_string(&self) -> (res: String)
        ensures
            res@ == self.name(),
    {
        let v = self.name_chars();
        text::string_from(v.as_slice())
    }

    /// Parses a variant from its exact name.
    pub fn from_str(input: &str) -> (res: Result<Modifier, String>)
        ensures
            match res {
                Ok(v) => Modifier::from_name(input@) == Some(v),
                Err(msg) => Modifier::from_name(input@) is None && msg@ == no_variant_message(
                    input@,
                    seq!['M', 'o', 'd', 'i', 'f', 'i', 'e', 'r'],
                ),
            },
    {
        let chars = text::chars_of(input);
        match Modifier::from_chars(chars.as_slice()) {
            Some(v) => Ok(v),
            None => Err(no_variant_error(chars.as_slice(), vec!['M', 'o', 'd', 'i', 'f', 'i', 'e', 'r'].as_slice())),
        }
    }

    /// The variant whose name is exactly `s`, if any.
    pub fn from_chars(s: &[char]) -> (res: Option<Modifier>)
        ensures
            res == Modifier::from_name(s@),
    {
        let all = Self::iter_values();
        let mut i: usize = 0;
        while i < all.len()
            invariant
                i <= all@.len(),
                all@ == Self::all(),
                forall|j: int| 0 <= j < i ==> all@[j].name() != s@,
            decreases all@.len() - i,
        {
            let n = all[i].name_chars();
            if text::chars_equal(s, n.as_slice()) {
                return Some(all[i]);
            }
            i = i + 1;
        }
        None
    }

    /// All variants, in declaration order.
    pub fn iter_values() -> (res: Vec<Modifier>)
        ensures
            res@ == Modifier::all(),
    {
        let res = vec![Modifier::A, Modifier::B, Modifier::AB, Modifier::BA, Modifier::F, Modifier::X, Modifier::I];
        assert(res@ =~= Modifier::all());
        res
    }
}

/// How a field's value is used to find the operand.
#[derive(Clone, Copy, Debug, PartialEq, Eq, Structural, Hash)]
pub enum AddressMode {
    Immediate,
    Direct,
    IndirectA,
    IndirectB,
    PreDecIndirectA,
    PreDecIndirectB,
    PostIncIndirectA,
    PostIncIndirectB,
}

impl AddressMode {
    /// The textual name of this variant.
    pub open spec fn name(self) -> Seq<char> {
        match self {
            AddressMode::Immediate => seq!['#'],
            AddressMode::Direct => seq!['$'],
            AddressMode::IndirectA => seq!['*'],
            AddressMode::IndirectB => seq!['@'],
            AddressMode::PreDecIndirectA => seq!['{'],
            AddressMode::PreDecIndirectB => seq!['<'],
            AddressMode::PostIncIndirectA => seq!['}'],
            AddressMode::PostIncIndirectB => seq!['>'],
        }
    }

    /// The variant with the given name, if any.
    pub open spec fn from_name(s: Seq<char>) -> Option<AddressMode> {
        if s == seq!['#'] {
            Some(AddressMode::Immediate)
        } else if s == seq!['$'] {
            Some(AddressMode::Direct)
        } else if s == seq!['*'] {
            Some(AddressMode::IndirectA)
        } else if s == seq!['@'] {
            Some(AddressMode::IndirectB)
        } else if s == seq!['{'] {
            Some(AddressMode::PreDecIndirectA)
        } else if s == seq!['<'] {
            Some(AddressMode::PreDecIndirectB)
        } else if s == seq!['}'] {
            Some(AddressMode::PostIncIndirectA)
        } else if s == seq!['>'] {
            Some(AddressMode::PostIncIndirectB)
        } else {
            None
        }
    }

    /// All variants, in declaration order.
    pub open spec fn all() -> Seq<AddressMode> {
        seq![AddressMode::Immediate, AddressMode::Direct, AddressMode::IndirectA, AddressMode::IndirectB, AddressMode::PreDecIndirectA, AddressMode::PreDecIndirectB, AddressMode::PostIncIndirectA, AddressMode::PostIncIndirectB]
    }

    /// The characters of this variant's name.
    pub fn name_chars(&self) -> (res: Vec<char>)
        ensures
            res@ == self.name(),
    {
        let res = match self {
            AddressMode::Immediate => vec!['#'],
            AddressMode::Direct => vec!['$'],
            AddressMode::IndirectA => vec!['*'],
            AddressMode::IndirectB => vec!['@'],
            AddressMode::PreDecIndirectA => vec!['{'],
            AddressMode::PreDecIndirectB => vec!['<'],
            AddressMode::PostIncIndirectA => vec!['}'],
            AddressMode::PostIncIndirectB => vec!['>'],
        };
        assert(res@ =~= self.name());
        res
    }

    /// This variant's name, as it is written in Redcode.
    pub fn to_string(&self) -> (res: String)
        ensures
            res@ == self.name(),
    {
        let v = self.name_chars();
        text::string_from(v.as_slice())
    }

    /// Parses a variant from its exact name.
    pub fn from_str(input: &str) -> (res: Result<AddressMode, String>)
        ensures
            match res {
                Ok(v) => AddressMode::from_name(input@) == Some(v),
                Err(msg) => AddressMode::from_name(input@) is None && msg@ == no_variant_message(
                    input@,
                    seq!['A', 'd', 'd', 'r', 'e', 's', 's', 'M', 'o', 'd', 'e'],
                ),
            },
    {
        let chars = text::chars_of(input);
        match AddressMode::from_chars(chars.as_slice()) {
            Some(v) => Ok(v),
            None => Err(no_variant_error(chars.as_slice(), vec!['A', 'd', 'd', 'r', 'e', 's', 's', 'M', 'o', 'd', 'e'].as_slice())),
        }
    }

    /// The variant whose name is exactly `s`, if any.
    pub fn from_chars(s: &[char]) -> (res: Option<AddressMode>)
        ensures
            res == AddressMode::from_name(s@),
    {
        let all = Self::iter_values();
        let mut i: usize = 0;
        while i < all.len()
            invariant
                i <= all@.len(),
                all@ == Self::all(),
                forall|j: int| 0 <= j < i ==> all@[j].name() != s@,
            decreases all@.len() - i,
        {
            let n = all[i].name_chars();
            if text::chars_equal(s, n.as_slice()) {
                return Some(all[i]);
            }
            i = i + 1;
        }
        None
    }

    /// All variants, in declaration order.
    pub fn iter_values() -> (res: Vec<AddressMode>)
        ensures
            res@ == AddressMode::all(),
    {
        let res = vec![AddressMode::Immediate, AddressMode::Direct, AddressMode::IndirectA, AddressMode::IndirectB, AddressMode::PreDecIndirectA, AddressMode::PreDecIndirectB, AddressMode::PostIncIndirectA, AddressMode::PostIncIndirectB];
        assert(res@ =~= AddressMode::all());
        res
    }
}

impl Default for Opcode {
    fn default() -> (res: Self)
        ensures
            res == Opcode::Dat,
    {
        Opcode::Dat
    }
}

impl Default for Modifier {
    fn default() -> (res: Self)
        ensures
            res == Modifier::F,
    {
        Modifier::F
    }
}

impl Default for AddressMode {
    fn default() -> (res: Self)
        ensures
            res == AddressMode::Direct,
    {
        AddressMode::Direct
    }
}

/// Whether an opcode only transfers control (jumps, splits, no-op).
pub open spec fn is_control_opcode(opcode: Opcode) -> bool {
    matches!(opcode, Opcode::Jmp | Opcode::Jmz | Opcode::Jmn | Opcode::Djn | Opcode::Spl | Opcode::Nop)
}

/// Whether an opcode compares or copies whole instructions.
pub open spec fn is_comparing_opcode(opcode: Opcode) -> bool {
    matches!(opcode, Opcode::Mov | Opcode::Cmp | Opcode::SkipEq | Opcode::Sne)
}

/// Whether an opcode is arithmetic.
pub open spec fn is_arithmetic_opcode(opcode: Opcode) -> bool {
    matches!(opcode, Opcode::Add | Opcode::Sub | Opcode::Mul | Opcode::Div | Opcode::Mod)
}

impl Modifier {
    /// The modifier an instruction gets when none is written, following the
    /// ICWS'88 to ICWS'94 conversion rules.
    pub open spec fn default_for(opcode: Opcode, a_mode: AddressMode, b_mode: AddressMode) -> Modifier {
        if opcode == Opcode::Dat {
            Modifier::F
        } else if is_control_opcode(opcode) {
            Modifier::B
        } else if a_mode == AddressMode::Immediate {
            Modifier::AB
        } else if b_mode == AddressMode::Immediate {
            Modifier::B
        } else if is_comparing_opcode(opcode) {
            Modifier::I
        } else if opcode == Opcode::Slt {
            Modifier::B
        } else {
            Modifier::F
        }
    }

    /// The default modifier of an instruction, from its opcode and the address
    /// modes of its two fields (ICWS'94 section A.2.1.2).
    pub fn default_88_to_94(opcode: Opcode, a_mode: AddressMode, b_mode: AddressMode) -> (res: Modifier)
        ensures
            res == Modifier::default_for(opcode, a_mode, b_mode),
    {
        match opcode {
            Opcode::Dat => Modifier::F,
            Opcode::Jmp | Opcode::Jmz | Opcode::Jmn | Opcode::Djn | Opcode::Spl | Opcode::Nop => Modifier::B,
            _ => {
                if a_mode == AddressMode::Immediate {
                    Modifier::AB
                } else if b_mode == AddressMode::Immediate {
                    Modifier::B
                } else {
                    match opcode {
                        Opcode::Mov | Opcode::Cmp | Opcode::SkipEq | Opcode::Sne => Modifier::I,
                        Opcode::Slt => Modifier::B,
                        _ => Modifier::F,
                    }
                }
            },
        }
    }
}

/// A `DAT` always defaults to the `F` modifier, whatever its address modes.
pub proof fn lemma_dat_defaults_to_f(a_mode: AddressMode, b_mode: AddressMode)
    ensures
        Modifier::default_for(Opcode::Dat, a_mode, b_mode) == Modifier::F,
{
}

/// Jumps, splits and `NOP` always default to the `B` modifier.
pub proof fn lemma_control_defaults_to_b(opcode: Opcode, a_mode: AddressMode, b_mode: AddressMode)
    requires
        is_control_opcode(opcode),
    ensures
        Modifier::default_for(opcode, a_mode, b_mode) == Modifier::B,
{
}

/// Any other opcode with an immediate A-field defaults to `AB`.
pub proof fn lemma_immediate_a_defaults_to_ab(opcode: Opcode, b_mode: AddressMode)
    requires
        is_comparing_opcode(opcode) || is_arithmetic_opcode(opcode) || opcode == Opcode::Slt,
    ensures
        Modifier::default_for(opcode, AddressMode::Immediate, b_mode) == Modifier::AB,
{
}

/// With a non-immediate A-field and an immediate B-field, the comparing and
/// arithmetic opcodes default to `B`; `SLT` does so whatever its B-field.
pub proof fn lemma_immediate_b_defaults_to_b(opcode: Opcode, a_mode: AddressMode, b_mode: AddressMode)
    requires
        a_mode != AddressMode::Immediate,
        ((is_comparing_opcode(opcode) || is_arithmetic_opcode(opcode)) && b_mode == AddressMode::Immediate)
            || opcode == Opcode::Slt,
    ensures
        Modifier::default_for(opcode, a_mode, b_mode) == Modifier::B,
{
}

/// Without immediate fields, `MOV`, `CMP`, `SEQ` and `SNE` default to `I`
/// and the arithmetic opcodes to `F`.
pub proof fn lemma_no_immediate_defaults(opcode: Opcode, a_mode: AddressMode, b_mode: AddressMode)
    requires
        a_mode != AddressMode::Immediate,
        b_mode != AddressMode::Immediate,
    ensures
        is_comparing_opcode(opcode) ==> Modifier::default_for(opcode, a_mode, b_mode) == Modifier::I,
        is_arithmetic_opcode(opcode) ==> Modifier::default_for(opcode, a_mode, b_mode) == Modifier::F,
{
}

/// The value held in an instruction field: a label still to be resolved,
/// or a literal number.
#[derive(Debug)]
pub enum Value {
    Label(String),
    Literal(i32),
}

/// The mathematical model of a [`Value`].
pub enum SpecValue {
    Label(Seq<char>),
    Literal(i32),
}

impl View for Value {
    type V = SpecValue;

    open spec fn view(&self) -> SpecValue {
        match self {
            Value::Label(s) => SpecValue::Label(s@),
            Value::Literal(n) => SpecValue::Literal(*n),
        }
    }
}

impl Clone for Value {
    fn clone(&self) -> (res: Self)
        ensures
            res@ == self@,
    {
        match self {
            Value::Label(s) => Value::Label(s.clone()),
            Value::Literal(n) => Value::Literal(*n),
        }
    }
}

impl PartialEq for Value {
    fn eq(&self, other: &Self) -> (res: bool) {
        match (self, other) {
            (Value::Label(a), Value::Label(b)) => a.eq(b),
            (Value::Literal(a), Value::Literal(b)) => *a == *b,
            _ => false,
        }
    }
}

impl vstd::std_specs::cmp::PartialEqSpecImpl for Value {
    open spec fn obeys_eq_spec() -> bool {
        true
    }

    open spec fn eq_spec(&self, other: &Self) -> bool {
        self@ == other@
    }
}

impl Default for Value {
    fn default() -> (res: Self)
        ensures
            res@ == SpecValue::Literal(0),
    {
        Value::Literal(0)
    }
}

impl From<i32> for Value {
    fn from(n: i32) -> (res: Self)
        ensures
            res@ == SpecValue::Literal(n),
    {
        Value::Literal(n)
    }
}

impl vstd::std_specs::convert::FromSpecImpl<i32> for Value {
    open spec fn obeys_from_spec() -> bool {
        true
    }

    open spec fn from_spec(n: i32) -> Self {
        Value::Literal(n)
    }
}

impl SpecValue {
    /// The text a value is written as: the label itself, or the decimal number.
    pub open spec fn text(self) -> Seq<char> {
        match self {
            SpecValue::Label(s) => s,
            SpecValue::Literal(n) => text::decimal(n as int),
        }
    }
}

impl Value {
    /// The literal number held by this value. Only literals can be unwrapped.
    pub fn unwrap(&self) -> (res: i32)
        requires
            self@ is Literal,
        ensures
            self@ == SpecValue::Literal(res),
    {
        match self {
            Value::Literal(n) => *n,
            Value::Label(_) => {
                proof {
                    assert(false);
                }
                0
            },
        }
    }

    /// The text this value is written as.
    pub fn to_string(&self) -> (res: String)
        ensures
            res@ == self@.text(),
    {
        match self {
            Value::Label(s) => s.clone(),
            Value::Literal(n) => text::i32_to_string(*n),
        }
    }
}

} // verus!
