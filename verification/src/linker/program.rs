//! A program of instructions with a label table, starting with the
//! predefined constants, whose labels are resolved into relative offsets.

use vstd::prelude::*;

use crate::load_file::{self, SpecInstruction};
use crate::name_map::NameMap;

use super::{add_label_to, declare_label, default_instruction, instructions_model, resolved_instruction, Instruction};

verus! {

/// A program: its instructions, the resolved copy of them once
/// [`resolve`](Program::resolve) succeeded, and its labels.
#[derive(Debug)]
pub struct Program {
    instructions: Vec<Instruction>,
    resolved: Option<Vec<Instruction>>,
    labels: NameMap<usize>,
}

/// The labels every program starts with: the predefined constants.
pub open spec fn constant_addresses(cs: Seq<(Seq<char>, u32)>) -> Map<Seq<char>, usize>
    decreases cs.len(),
{
    if cs.len() == 0 {
        Map::empty()
    } else {
        constant_addresses(cs.drop_last()).insert(cs.last().0, cs.last().1 as usize)
    }
}

/// The instructions with their labels resolved relative to their own
/// indexes, or the error of the first one that cannot be.
pub open spec fn resolved_all(instructions: Seq<SpecInstruction>, labels: Map<Seq<char>, usize>) -> Result<Seq<SpecInstruction>, Seq<char>>
    decreases instructions.len(),
{
    if instructions.len() == 0 {
        Ok(Seq::empty())
    } else {
        match resolved_all(instructions.drop_last(), labels) {
            Err(m) => Err(m),
            Ok(acc) => match resolved_instruction(instructions.last(), (instructions.len() - 1) as usize, labels) {
                Ok(r) => Ok(acc.push(r)),
                Err(m) => Err(m),
            },
        }
    }
}

/// `old` with `value` at `index`, first padding with default instructions.
pub open spec fn set_or_extend(old: Seq<SpecInstruction>, index: int, value: SpecInstruction) -> Seq<SpecInstruction> {
    if index < old.len() {
        old.update(index, value)
    } else {
        old + Seq::new((index - old.len()) as nat, |_i: int| default_instruction()) + seq![value]
    }
}

/// What a write puts at an index is read back there; the instructions before
/// it are kept, and the program grows to include the index.
pub proof fn law_set_then_get(old: Seq<SpecInstruction>, index: int, value: SpecInstruction, other: int)
    requires
        0 <= index,
    ensures
        set_or_extend(old, index, value)[index] == value,
        set_or_extend(old, index, value).len() == if index < old.len() {
            old.len() as int
        } else {
            index + 1
        },
        0 <= other < old.len() && other != index ==> set_or_extend(old, index, value)[other] == old[other],
{
}

/// The predefined constants as a label table.
fn constant_labels() -> (res: NameMap<usize>)
    ensures
        res.wf(),
        res.map() == constant_addresses(load_file::default_constants()),
{
    let mut labels: NameMap<usize> = NameMap::new();
    let constants = load_file::default_constant_list();
    let ghost cs = load_file::default_constants();
    let mut i: usize = 0;
    while i < constants.len()
        invariant
            i <= constants@.len(),
            labels.wf(),
            constants@.len() == cs.len(),
            cs == load_file::default_constants(),
            forall|j: int|
                0 <= j < constants@.len() ==> (#[trigger] constants@[j]).0@ == cs[j].0 && constants@[j].1 == cs[j].1,
            labels.map() == constant_addresses(cs.take(i as int)),
        decreases constants@.len() - i,
    {
        labels.insert(constants[i].0.as_slice(), constants[i].1 as usize);
        proof {
            assert(cs.take(i + 1).drop_last() =~= cs.take(i as int));
        }
        i = i + 1;
    }
    assert(cs.take(i as int) =~= cs);
    labels
}

impl Program {
    /// The instructions.
    pub closed spec fn model(&self) -> Seq<SpecInstruction> {
        instructions_model(self.instructions@)
    }

    /// The resolved instructions, once resolved.
    pub closed spec fn resolved_model(&self) -> Option<Seq<SpecInstruction>> {
        match self.resolved {
            Some(v) => Some(instructions_model(v@)),
            None => None,
        }
    }

    /// The labels, with their addresses.
    pub closed spec fn label_map(&self) -> Map<Seq<char>, usize> {
        self.labels.map()
    }

    /// In a well-formed program the number of instructions (and of resolved
    /// ones) fits in a `usize`.
    pub proof fn lemma_model_len(&self)
        requires
            self.wf(),
        ensures
            self.model().len() <= usize::MAX,
            self.resolved_model() matches Some(r) ==> r.len() <= usize::MAX,
    {
    }

    /// The label table is well formed, and the instructions number no more
    /// than a `usize` holds.
    pub closed spec fn wf(&self) -> bool {
        &&& self.labels.wf()
        &&& self.instructions@.len() <= usize::MAX
        &&& self.resolved matches Some(v) ==> v@.len() <= usize::MAX
    }

    /// An empty program, whose labels are the predefined constants.
    pub fn new() -> (res: Self)
        ensures
            res.wf(),
            res.model() == Seq::<SpecInstruction>::empty(),
            res.resolved_model() is None,
            res.label_map() == constant_addresses(load_file::default_constants()),
    {
        let res = Program { instructions: Vec::new(), resolved: None, labels: constant_labels() };
        assert(res.model() =~= Seq::<SpecInstruction>::empty());
        res
    }

    /// A program of `size` default instructions, whose labels are the
    /// predefined constants.
    pub fn with_capacity(size: usize) -> (res: Self)
        ensures
            res.wf(),
            res.model() == Seq::new(size as nat, |_i: int| default_instruction()),
            res.resolved_model() is None,
            res.label_map() == constant_addresses(load_file::default_constants()),
    {
        let mut instructions: Vec<Instruction> = Vec::new();
        let mut i: usize = 0;
        while i < size
            invariant
                i <= size,
                instructions@.len() == i,
                instructions_model(instructions@) == Seq::new(i as nat, |_i: int| default_instruction()),
            decreases size - i,
        {
            let ghost before = instructions@;
            let d = Instruction::default();
            instructions.push(d);
            proof {
                assert(instructions_model(instructions@) =~= instructions_model(before).push(d@));
                assert(Seq::new(i as nat, |_i: int| default_instruction()).push(default_instruction()) =~= Seq::new((i + 1) as nat, |_i: int| default_instruction()));
            }
            i = i + 1;
        }
        Program { instructions, resolved: None, labels: constant_labels() }
    }

    /// A copy of the instruction at `index`, from the resolved instructions
    /// once resolved; `None` past the end.
    pub fn get(&self, index: usize) -> (res: Option<Instruction>)
        ensures
            ({
                let v = match self.resolved_model() {
                    Some(r) => r,
                    None => self.model(),
                };
                match res {
                    Some(i) => index < v.len() && v[index as int] == i@,
                    None => index >= v.len(),
                }
            }),
    {
        let v = match &self.resolved {
            Some(r) => r,
            None => &self.instructions,
        };
        if index < v.len() {
            Some(v[index].clone())
        } else {
            None
        }
    }

    /// Writes `value` at `index`, first extending the program with default
    /// instructions if it is shorter than that.
    pub fn set(&mut self, index: usize, value: Instruction)
        requires
            index < usize::MAX,
        ensures
            final(self).wf() == old(self).wf(),
            final(self).model() == set_or_extend(old(self).model(), index as int, value@),
            final(self).resolved_model() == old(self).resolved_model(),
            final(self).label_map() == old(self).label_map(),
    {
        let ghost old_model = self.model();
        let ghost v = value@;
        if index < self.instructions.len() {
            self.instructions.set(index, value);
            assert(self.model() =~= set_or_extend(old_model, index as int, v));
        } else {
            let start = self.instructions.len();
            while self.instructions.len() < index
                invariant
                    start <= self.instructions@.len() <= index,
                    self.model() =~= old_model + Seq::new((self.instructions@.len() - start) as nat, |_i: int| default_instruction()),
                    old_model.len() == start,
                    self.resolved == old(self).resolved,
                    self.labels == old(self).labels,
                decreases index - self.instructions@.len(),
            {
                let ghost before = self.model();
                self.instructions.push(Instruction::default());
                assert(self.model() =~= before.push(default_instruction()));
            }
            self.instructions.push(value);
            assert(self.model() =~= set_or_extend(old_model, index as int, v));
        }
    }

    /// Declares `label` at `index`, as [`declare_label`] says: an address
    /// past the end of the program is refused, and a label declared twice
    /// takes its new address but is reported as an error.
    pub fn add_label(&mut self, index: usize, label: String) -> (res: Result<(), String>)
        requires
            old(self).wf(),
        ensures
            final(self).wf(),
            final(self).model() == old(self).model(),
            final(self).resolved_model() == old(self).resolved_model(),
            final(self).label_map() == declare_label(old(self).label_map(), "program"@, old(self).model().len() as usize, index, label@).0,
            match res {
                Ok(()) => declare_label(old(self).label_map(), "program"@, old(self).model().len() as usize, index, label@).1
                    == Ok::<(), Seq<char>>(()),
                Err(m) => declare_label(old(self).label_map(), "program"@, old(self).model().len() as usize, index, label@).1
                    == Err::<(), Seq<char>>(m@),
            },
    {
        let size = self.instructions.len();
        add_label_to(&mut self.labels, "program", size, index, label)
    }

    /// The address of `label`, if declared.
    pub fn label_address(&self, label: &str) -> (res: Option<usize>)
        requires
            self.wf(),
        ensures
            match res {
                Some(a) => self.label_map().contains_key(label@) && self.label_map()[label@] == a,
                None => !self.label_map().contains_key(label@),
            },
    {
        let name = crate::text::chars_of(label);
        match self.labels.get(name.as_slice()) {
            Some(a) => Some(*a),
            None => None,
        }
    }

    /// Resolves the labels of every instruction relative to its own index,
    /// as [`resolved_all`] says, keeping the result; on an error nothing changes.
    pub fn resolve(&mut self) -> (res: Result<(), String>)
        requires
            old(self).wf(),
        ensures
            final(self).wf(),
            final(self).model() == old(self).model(),
            final(self).label_map() == old(self).label_map(),
            match res {
                Ok(()) => resolved_all(old(self).model(), old(self).label_map()) == Ok::<Seq<SpecInstruction>, Seq<char>>(
                    final(self).resolved_model()->Some_0,
                ) && final(self).resolved_model() is Some,
                Err(m) => resolved_all(old(self).model(), old(self).label_map()) == Err::<Seq<SpecInstruction>, Seq<char>>(m@)
                    && final(self).resolved_model() == old(self).resolved_model(),
            },
    {
        let ghost all = self.model();
        let mut out: Vec<Instruction> = Vec::new();
        let mut i: usize = 0;
        assert(all.take(0) =~= Seq::<SpecInstruction>::empty());
        assert(instructions_model(out@) =~= Seq::<SpecInstruction>::empty());
        while i < self.instructions.len()
            invariant
                i <= self.instructions@.len(),
                self.wf(),
                all == self.model(),
                resolved_all(all.take(i as int), self.label_map()) == Ok::<Seq<SpecInstruction>, Seq<char>>(instructions_model(out@)),
                out@.len() == i,
            decreases self.instructions@.len() - i,
        {
            proof {
                assert(all.take(i + 1).drop_last() =~= all.take(i as int));
            }
            let ghost before = out@;
            match self.instructions[i].resolve(i, &self.labels) {
                Ok(r) => {
                    out.push(r);
                    assert(instructions_model(out@) =~= instructions_model(before).push(r@));
                },
                Err(m) => {
                    proof {
                        lemma_resolved_all_error(all, i as int + 1, self.label_map(), m@);
                    }
                    return Err(m);
                },
            }
            i = i + 1;
        }
        assert(all.take(i as int) =~= all);
        self.resolved = Some(out);
        Ok(())
    }
}

/// An error in a prefix of the instructions is the error of all of them.
proof fn lemma_resolved_all_error(all: Seq<SpecInstruction>, k: int, labels: Map<Seq<char>, usize>, m: Seq<char>)
    requires
        0 <= k <= all.len(),
        resolved_all(all.take(k), labels) == Err::<Seq<SpecInstruction>, Seq<char>>(m),
    ensures
        resolved_all(all, labels) == Err::<Seq<SpecInstruction>, Seq<char>>(m),
    decreases all.len() - k,
{
    if k < all.len() {
        assert(all.take(k + 1).drop_last() =~= all.take(k));
        lemma_resolved_all_error(all, k + 1, labels, m);
    } else {
        assert(all.take(k) =~= all);
    }
}

impl Default for Program {
    fn default() -> (res: Self)
        ensures
            res.wf(),
            res.model() == Seq::<SpecInstruction>::empty(),
            res.resolved_model() is None,
            res.label_map() == constant_addresses(load_file::default_constants()),
    {
        Program::new()
    }
}

/// Whether two lists of instructions are equal, instruction by instruction.
fn instructions_equal(a: &Vec<Instruction>, b: &Vec<Instruction>) -> (res: bool)
    ensures
        res == (instructions_model(a@) == instructions_model(b@)),
{
    if a.len() != b.len() {
        assert(instructions_model(a@).len() != instructions_model(b@).len());
        return false;
    }
    let mut i: usize = 0;
    while i < a.len()
        invariant
            a@.len() == b@.len(),
            i <= a@.len(),
            forall|j: int| 0 <= j < i ==> a@[j]@ == b@[j]@,
        decreases a@.len() - i,
    {
        if !a[i].eq(&b[i]) {
            assert(instructions_model(a@)[i as int] != instructions_model(b@)[i as int]);
            return false;
        }
        i = i + 1;
    }
    assert(instructions_model(a@) =~= instructions_model(b@));
    true
}

impl PartialEq for Program {
    fn eq(&self, other: &Self) -> (res: bool) {
        let same_resolved = match (&self.resolved, &other.resolved) {
            (Some(a), Some(b)) => instructions_equal(a, b),
            _ => false,
        };
        same_resolved || instructions_equal(&self.instructions, &other.instructions)
    }
}

impl vstd::std_specs::cmp::PartialEqSpecImpl for Program {
    open spec fn obeys_eq_spec() -> bool {
        true
    }

    /// Two programs are equal when both are resolved to the same
    /// instructions, or their instructions are the same.
    open spec fn eq_spec(&self, other: &Self) -> bool {
        (self.resolved_model() is Some && self.resolved_model() == other.resolved_model()) || self.model() == other.model()
    }
}

} // verus!
