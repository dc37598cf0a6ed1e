//! A parsed Redcode program: its instructions and entry point.

use vstd::prelude::*;

use super::{pad_from, padded, Instruction, PseudoOpcode, SpecInstruction};
use crate::text;

verus! {

/// A parsed Redcode program, which can be loaded into a core for execution.
#[derive(Debug)]
pub struct Program {
    /// The instructions, copied one-to-one into the core when loaded.
    pub instructions: Vec<Instruction>,
    /// The program's entry point as an instruction index.
    pub origin: Option<u32>,
}

/// The models of a sequence of instructions.
pub open spec fn instructions_model(v: Seq<Instruction>) -> Seq<SpecInstruction> {
    v.map_values(|i: Instruction| i@)
}

/// `old` with `value` written at `index`, first padding with default
/// instructions up to `index` where it is too short.
pub open spec fn set_or_extend(old: Seq<SpecInstruction>, index: int, value: SpecInstruction) -> Seq<SpecInstruction> {
    if index < old.len() {
        old.update(index, value)
    } else {
        old + Seq::new((index - old.len()) as nat, |_i: int| SpecInstruction::default_instruction())
            + seq![value]
    }
}

/// Whether two lists of instructions are equal, instruction by instruction.
fn instructions_equal(a: &Vec<Instruction>, b: &Vec<Instruction>) -> (res: bool)
    ensures
        res == (instructions_model(a@) == instructions_model(b@)),
{
    if a.len() != b.len() {
        assert(instructions_model(a@).len() != instructions_model(b@).len());
        return false;
    }
    let mut i: usize = 0;
    while i < a.len()
        invariant
            a@.len() == b@.len(),
            i <= a@.len(),
            forall|j: int| 0 <= j < i ==> a@[j]@ == b@[j]@,
        decreases a@.len() - i,
    {
        if !a[i].eq(&b[i]) {
            assert(instructions_model(a@)[i as int] != instructions_model(b@)[i as int]);
            return false;
        }
        i = i + 1;
    }
    assert(instructions_model(a@) =~= instructions_model(b@));
    true
}

impl PartialEq for Program {
    fn eq(&self, other: &Self) -> (res: bool) {
        instructions_equal(&self.instructions, &other.instructions) && match (self.origin, other.origin) {
            (Some(x), Some(y)) => x == y,
            (None, None) => true,
            _ => false,
        }
    }
}

impl vstd::std_specs::cmp::PartialEqSpecImpl for Program {
    open spec fn obeys_eq_spec() -> bool {
        true
    }

    open spec fn eq_spec(&self, other: &Self) -> bool {
        self.model() == other.model() && self.origin == other.origin
    }
}

impl Default for Program {
    fn default() -> (res: Self)
        ensures
            res.instructions@.len() == 0,
            res.origin is None,
    {
        Program { instructions: Vec::new(), origin: None }
    }
}

impl Program {
    /// The models of this program's instructions.
    pub open spec fn model(&self) -> Seq<SpecInstruction> {
        instructions_model(self.instructions@)
    }

    /// The number of instructions in this program, which must fit in a `u32`.
    pub fn len(&self) -> (res: u32)
        requires
            self.instructions@.len() <= u32::MAX,
        ensures
            res == self.instructions@.len(),
    {
        self.instructions.len() as u32
    }

    /// Whether this program has no instructions.
    pub fn is_empty(&self) -> (res: bool)
        ensures
            res == (self.instructions@.len() == 0),
    {
        self.instructions.len() == 0
    }

    /// A copy of the instruction at `index`, if there is one.
    pub fn get(&self, index: u32) -> (res: Option<Instruction>)
        ensures
            match res {
                Some(instruction) => index < self.instructions@.len() && instruction@
                    == self.model()[index as int],
                None => index >= self.instructions@.len(),
            },
    {
        let i = index as usize;
        if i < self.instructions.len() {
            Some(self.instructions[i].clone())
        } else {
            None
        }
    }

    /// Writes `value` at `index`, first extending the program with default
    /// instructions if it is shorter than that.
    pub fn set(&mut self, index: u32, value: Instruction)
        requires
            (index as int) < usize::MAX,
        ensures
            final(self).model() == set_or_extend(old(self).model(), index as int, value@),
            final(self).origin == old(self).origin,
    {
        self.set_at(index as usize, value);
    }

    /// Writes `value` at `index`, as [`set`](Self::set) does.
    pub(crate) fn set_at(&mut self, i: usize, value: Instruction)
        requires
            (i as int) < usize::MAX,
        ensures
            final(self).model() == set_or_extend(old(self).model(), i as int, value@),
            final(self).origin == old(self).origin,
    {
        let ghost old_model = self.model();
        let ghost v = value@;
        if i < self.instructions.len() {
            self.instructions.set(i, value);
            assert(self.model() =~= set_or_extend(old_model, i as int, v));
        } else {
            let start = self.instructions.len();
            while self.instructions.len() < i
                invariant
                    start <= self.instructions@.len() <= i,
                    self.model() =~= old_model + Seq::new(
                        (self.instructions@.len() - start) as nat,
                        |_i: int| SpecInstruction::default_instruction(),
                    ),
                    old_model.len() == start,
                    self.origin == old(self).origin,
                decreases i - self.instructions@.len(),
            {
                let d = Instruction::default();
                let ghost before = self.model();
                self.instructions.push(d);
                assert(self.model() =~= before.push(SpecInstruction::default_instruction()));
            }
            self.instructions.push(value);
            assert(self.model() =~= set_or_extend(old_model, i as int, v));
        }
    }
}

/// The lines of instructions, each after a line break.
pub open spec fn instruction_lines(v: Seq<SpecInstruction>) -> Seq<char>
    decreases v.len(),
{
    if v.len() == 0 {
        Seq::empty()
    } else {
        instruction_lines(v.drop_last()) + seq!['\n'] + v.last().text()
    }
}

/// The first line of a text: everything before its first line break.
pub open spec fn first_line(t: Seq<char>) -> Seq<char> {
    match super::metadata::first_index_of(t, '\n') {
        Some(p) => t.take(p),
        None => t,
    }
}

/// The instruction lines are empty or begin with a line break.
proof fn lemma_instruction_lines_start(v: Seq<SpecInstruction>)
    ensures
        instruction_lines(v).len() > 0 ==> instruction_lines(v)[0] == '\n',
    decreases v.len(),
{
    if v.len() > 0 {
        lemma_instruction_lines_start(v.drop_last());
    }
}

/// The load-file text of a program with an origin starts with a first line
/// made of `ORG`, padded to eight characters, and the decimal digits of the
/// origin: reading the digits after the padding gives the origin back.
pub proof fn law_dump_states_origin(p: Program, o: u32)
    requires
        p.origin == Some(o),
    ensures
        first_line(p.text()).len() > 8,
        first_line(p.text()).take(8) == seq!['O', 'R', 'G', ' ', ' ', ' ', ' ', ' '],
        forall|j: int| 8 <= j < first_line(p.text()).len() ==> text::is_digit(#[trigger] first_line(p.text())[j]),
        text::digits_value(first_line(p.text()).skip(8)) == o,
{
    let head = padded(PseudoOpcode::Org.name(), 8);
    let d = text::nat_digits(o as nat);
    let rest = instruction_lines(p.model());
    let t = p.text();
    text::lemma_nat_digits(o as nat);
    lemma_instruction_lines_start(p.model());
    assert(head =~= seq!['O', 'R', 'G', ' ', ' ', ' ', ' ', ' ']);
    assert(text::decimal(o as int) == d);
    assert(t =~= head + d + rest);
    let k: int = 8 + d.len() as int;
    assert forall|j: int| 0 <= j < k implies t[j] != '\n' by {
        if j < 8 {
            assert(t[j] == head[j]);
        } else {
            assert(t[j] == d[j - 8]);
            assert(text::is_digit(d[j - 8]));
        }
    }
    super::metadata::lemma_first_index_of(t, '\n');
    if rest.len() > 0 {
        assert(t[k] == rest[0]);
        assert(super::metadata::first_index_of(t, '\n') == Some(k));
    } else {
        assert(t.len() == k);
        assert(super::metadata::first_index_of(t, '\n') is None);
    }
    let fl = first_line(t);
    assert(fl =~= head + d);
    assert(fl.take(8) =~= head);
    assert(fl.skip(8) =~= d);
    assert forall|j: int| 8 <= j < fl.len() implies text::is_digit(#[trigger] fl[j]) by {
        assert(fl[j] == d[j - 8]);
    }
}

impl Program {
    /// The program in load-file format: `ORG` and the origin (0 when not
    /// set), then one line per instruction.
    pub open spec fn text(&self) -> Seq<char> {
        padded(PseudoOpcode::Org.name(), 8) + text::decimal(
            (match self.origin {
                Some(o) => o,
                None => 0u32,
            }) as int,
        ) + instruction_lines(self.model())
    }

    /// The program in load-file format, as [`text`](Self::text) says.
    pub fn to_string(&self) -> (res: String)
        ensures
            res@ == self.text(),
    {
        let mut v = PseudoOpcode::Org.name_chars();
        pad_from(&mut v, 0, 8);
        let origin = match self.origin {
            Some(o) => o,
            None => 0,
        };
        let mut digits = text::usize_to_chars(origin as usize);
        v.append(&mut digits);
        let ghost head = v@;
        proof {
            assert(head =~= padded(PseudoOpcode::Org.name(), 8) + text::decimal(origin as int));
        }
        let mut i: usize = 0;
        while i < self.instructions.len()
            invariant
                i <= self.instructions@.len(),
                v@ == head + instruction_lines(self.model().take(i as int)),
            decreases self.instructions@.len() - i,
        {
            v.push('\n');
            let line = self.instructions[i].to_string();
            let mut chars = text::chars_of(line.as_str());
            v.append(&mut chars);
            proof {
                let m = self.model();
                assert(m.take(i + 1).drop_last() =~= m.take(i as int));
                assert(m.take(i + 1).last() == self.instructions@[i as int]@);
                assert(v@ =~= head + instruction_lines(m.take(i + 1)));
            }
            i = i + 1;
        }
        assert(self.model().take(i as int) =~= self.model());
        text::string_from(v.as_slice())
    }
}

} // verus!
