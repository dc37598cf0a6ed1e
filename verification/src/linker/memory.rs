//! A core of instruction cells with a label table, whose labels are
//! resolved into offsets relative to each cell.

use vstd::prelude::*;

use crate::load_file::SpecInstruction;
use crate::name_map::NameMap;

use super::{add_label_to, declare_label, resolved_instruction, Instruction, DEFAULT_CORE_SIZE};

verus! {

/// A core: cells that may hold an instruction, the resolved copy of them
/// once [`resolve`](Core::resolve) succeeded, and the labels declared so far.
#[derive(Debug)]
pub struct Core {
    instructions: Vec<Option<Instruction>>,
    resolved: Option<Vec<Option<Instruction>>>,
    labels: NameMap<usize>,
}

/// The models of a sequence of cells.
pub open spec fn cells_model(v: Seq<Option<Instruction>>) -> Seq<Option<SpecInstruction>> {
    v.map_values(|c: Option<Instruction>| match c {
        Some(i) => Some(i@),
        None => None,
    })
}

/// The cells with every instruction's labels resolved relative to its own
/// index, or the error of the first one that cannot be.
pub open spec fn resolved_cells(cells: Seq<Option<SpecInstruction>>, labels: Map<Seq<char>, usize>) -> Result<Seq<Option<SpecInstruction>>, Seq<char>>
    decreases cells.len(),
{
    if cells.len() == 0 {
        Ok(Seq::empty())
    } else {
        match resolved_cells(cells.drop_last(), labels) {
            Err(m) => Err(m),
            Ok(acc) => match cells.last() {
                None => Ok(acc.push(None)),
                Some(i) => match resolved_instruction(i, (cells.len() - 1) as usize, labels) {
                    Ok(r) => Ok(acc.push(Some(r))),
                    Err(m) => Err(m),
                },
            },
        }
    }
}

/// A copy of a cell.
fn clone_cell(c: &Option<Instruction>) -> (res: Option<Instruction>)
    ensures
        cells_model(seq![res]) == cells_model(seq![*c]),
{
    match c {
        Some(i) => Some(i.clone()),
        None => None,
    }
}

/// Whether two lists of cells are equal, cell by cell.
fn cells_equal(a: &Vec<Option<Instruction>>, b: &Vec<Option<Instruction>>) -> (res: bool)
    ensures
        res == (cells_model(a@) == cells_model(b@)),
{
    if a.len() != b.len() {
        assert(cells_model(a@).len() != cells_model(b@).len());
        return false;
    }
    let mut i: usize = 0;
    while i < a.len()
        invariant
            a@.len() == b@.len(),
            i <= a@.len(),
            forall|j: int| 0 <= j < i ==> cells_model(a@)[j] == cells_model(b@)[j],
        decreases a@.len() - i,
    {
        let same = match (&a[i], &b[i]) {
            (Some(x), Some(y)) => x.eq(y),
            (None, None) => true,
            _ => false,
        };
        if !same {
            assert(cells_model(a@)[i as int] != cells_model(b@)[i as int]);
            return false;
        }
        i = i + 1;
    }
    assert(cells_model(a@) =~= cells_model(b@));
    true
}

impl Core {
    /// The cells.
    pub closed spec fn cells(&self) -> Seq<Option<SpecInstruction>> {
        cells_model(self.instructions@)
    }

    /// The resolved cells, once resolved.
    pub closed spec fn resolved_model(&self) -> Option<Seq<Option<SpecInstruction>>> {
        match self.resolved {
            Some(v) => Some(cells_model(v@)),
            None => None,
        }
    }

    /// The labels declared so far, with their addresses.
    pub closed spec fn label_map(&self) -> Map<Seq<char>, usize> {
        self.labels.map()
    }

    /// The label table is well formed.
    pub closed spec fn wf(&self) -> bool {
        self.labels.wf()
    }

    /// A core of `core_size` empty cells, with no labels.
    pub fn new(core_size: usize) -> (res: Self)
        ensures
            res.wf(),
            res.cells() == Seq::new(core_size as nat, |_i: int| None::<SpecInstruction>),
            res.resolved_model() is None,
            res.label_map() == Map::<Seq<char>, usize>::empty(),
    {
        let mut instructions: Vec<Option<Instruction>> = Vec::new();
        let mut i: usize = 0;
        while i < core_size
            invariant
                i <= core_size,
                instructions@.len() == i,
                cells_model(instructions@) == Seq::new(i as nat, |_i: int| None::<SpecInstruction>),
            decreases core_size - i,
        {
            let ghost before = instructions@;
            instructions.push(None);
            proof {
                assert(cells_model(instructions@) =~= cells_model(before).push(None));
                assert(Seq::new(i as nat, |_i: int| None::<SpecInstruction>).push(None) =~= Seq::new((i + 1) as nat, |_i: int| None::<SpecInstruction>));
            }
            i = i + 1;
        }
        Core { instructions, resolved: None, labels: NameMap::new() }
    }

    /// The instruction at `index`: from the resolved cells once resolved.
    /// `None` for an empty cell or an index past the end.
    pub fn get(&self, index: usize) -> (res: Option<Instruction>)
        ensures
            ({
                let cells = match self.resolved_model() {
                    Some(r) => r,
                    None => self.cells(),
                };
                match res {
                    Some(i) => index < cells.len() && cells[index as int] == Some(i@),
                    None => index >= cells.len() || cells[index as int] is None,
                }
            }),
    {
        let cells = match &self.resolved {
            Some(r) => r,
            None => &self.instructions,
        };
        if index < cells.len() {
            let c = clone_cell(&cells[index]);
            assert(cells_model(seq![c])[0] == cells_model(cells@)[index as int]);
            c
        } else {
            None
        }
    }

    /// Writes `value` into the cell at `index`, which must be in the core.
    pub fn set(&mut self, index: usize, value: Instruction)
        requires
            index < old(self).cells().len(),
        ensures
            final(self).wf() == old(self).wf(),
            final(self).cells() == old(self).cells().update(index as int, Some(value@)),
            final(self).resolved_model() == old(self).resolved_model(),
            final(self).label_map() == old(self).label_map(),
    {
        let ghost before = self.instructions@;
        let ghost v = value@;
        self.instructions.set(index, Some(value));
        assert(cells_model(self.instructions@) =~= cells_model(before).update(index as int, Some(v)));
    }

    /// Declares `label` at `index`, as [`declare_label`] says: an address
    /// past the end of the core is refused, and a label declared twice takes
    /// its new address but is reported as an error.
    pub fn add_label(&mut self, index: usize, label: String) -> (res: Result<(), String>)
        requires
            old(self).wf(),
        ensures
            final(self).wf(),
            final(self).cells() == old(self).cells(),
            final(self).resolved_model() == old(self).resolved_model(),
            final(self).label_map() == declare_label(old(self).label_map(), "core"@, old(self).cells().len() as usize, index, label@).0,
            match res {
                Ok(()) => declare_label(old(self).label_map(), "core"@, old(self).cells().len() as usize, index, label@).1
                    == Ok::<(), Seq<char>>(()),
                Err(m) => declare_label(old(self).label_map(), "core"@, old(self).cells().len() as usize, index, label@).1
                    == Err::<(), Seq<char>>(m@),
            },
    {
        let size = self.instructions.len();
        add_label_to(&mut self.labels, "core", size, index, label)
    }

    /// The address of `label`, if declared.
    pub fn label_address(&self, label: &str) -> (res: Option<usize>)
        requires
            self.wf(),
        ensures
            match res {
                Some(a) => self.label_map().contains_key(label@) && self.label_map()[label@] == a,
                None => !self.label_map().contains_key(label@),
            },
    {
        let name = crate::text::chars_of(label);
        match self.labels.get(name.as_slice()) {
            Some(a) => Some(*a),
            None => None,
        }
    }

    /// Resolves the labels of every instruction relative to its own cell, as
    /// [`resolved_cells`] says, keeping the result; on an error nothing changes.
    pub fn resolve(&mut self) -> (res: Result<(), String>)
        requires
            old(self).wf(),
        ensures
            final(self).wf(),
            final(self).cells() == old(self).cells(),
            final(self).label_map() == old(self).label_map(),
            match res {
                Ok(()) => resolved_cells(old(self).cells(), old(self).label_map()) == Ok::<Seq<Option<SpecInstruction>>, Seq<char>>(
                    final(self).resolved_model()->Some_0,
                ) && final(self).resolved_model() is Some,
                Err(m) => resolved_cells(old(self).cells(), old(self).label_map()) == Err::<Seq<Option<SpecInstruction>>, Seq<char>>(m@)
                    && final(self).resolved_model() == old(self).resolved_model(),
            },
    {
        let ghost all = self.cells();
        let mut out: Vec<Option<Instruction>> = Vec::new();
        let mut i: usize = 0;
        assert(all.take(0) =~= Seq::<Option<SpecInstruction>>::empty());
        assert(cells_model(out@) =~= Seq::<Option<SpecInstruction>>::empty());
        while i < self.instructions.len()
            invariant
                i <= self.instructions@.len(),
                self.wf(),
                all == self.cells(),
                resolved_cells(all.take(i as int), self.label_map()) == Ok::<Seq<Option<SpecInstruction>>, Seq<char>>(cells_model(out@)),
            decreases self.instructions@.len() - i,
        {
            proof {
                assert(all.take(i + 1).drop_last() =~= all.take(i as int));
            }
            let ghost before = out@;
            match &self.instructions[i] {
                None => {
                    out.push(None);
                    assert(cells_model(out@) =~= cells_model(before).push(None));
                },
                Some(ins) => match ins.resolve(i, &self.labels) {
                    Ok(r) => {
                        out.push(Some(r));
                        assert(cells_model(out@) =~= cells_model(before).push(Some(r@)));
                    },
                    Err(m) => {
                        proof {
                            lemma_resolved_cells_error(all, i as int + 1, self.label_map(), m@);
                        }
                        return Err(m);
                    },
                },
            }
            i = i + 1;
        }
        assert(all.take(i as int) =~= all);
        self.resolved = Some(out);
        Ok(())
    }
}

/// An error in a prefix of the cells is the error of all of them.
proof fn lemma_resolved_cells_error(all: Seq<Option<SpecInstruction>>, k: int, labels: Map<Seq<char>, usize>, m: Seq<char>)
    requires
        0 <= k <= all.len(),
        resolved_cells(all.take(k), labels) == Err::<Seq<Option<SpecInstruction>>, Seq<char>>(m),
    ensures
        resolved_cells(all, labels) == Err::<Seq<Option<SpecInstruction>>, Seq<char>>(m),
    decreases all.len() - k,
{
    if k < all.len() {
        assert(all.take(k + 1).drop_last() =~= all.take(k));
        lemma_resolved_cells_error(all, k + 1, labels, m);
    } else {
        assert(all.take(k) =~= all);
    }
}

impl Core {
    /// The number of cells.
    pub fn cells_len(&self) -> (res: usize)
        ensures
            res == self.cells().len(),
    {
        self.instructions.len()
    }

    /// Makes the resolved cells the core's own cells.
    pub(crate) fn keep_resolved(&mut self)
        requires
            old(self).resolved_model() is Some,
        ensures
            final(self).wf() == old(self).wf(),
            final(self).cells() == old(self).resolved_model()->Some_0,
            final(self).resolved_model() == old(self).resolved_model(),
            final(self).label_map() == old(self).label_map(),
    {
        let mut copy: Vec<Option<Instruction>> = Vec::new();
        match &self.resolved {
            Some(r) => {
                let mut i: usize = 0;
                while i < r.len()
                    invariant
                        i <= r@.len(),
                        copy@.len() == i,
                        cells_model(copy@) == cells_model(r@).take(i as int),
                    decreases r@.len() - i,
                {
                    let c = clone_cell(&r[i]);
                    let ghost before = copy@;
                    copy.push(c);
                    proof {
                        assert(cells_model(seq![c])[0] == cells_model(r@)[i as int]);
                        assert(cells_model(copy@) =~= cells_model(before).push(cells_model(seq![c])[0]));
                        assert(cells_model(r@).take(i as int).push(cells_model(r@)[i as int]) =~= cells_model(r@).take(i + 1));
                    }
                    i = i + 1;
                }
                assert(cells_model(r@).take(r@.len() as int) =~= cells_model(r@));
            },
            None => {},
        }
        self.instructions = copy;
    }
}

impl Default for Core {
    fn default() -> (res: Self)
        ensures
            res.wf(),
            res.cells() == Seq::new(DEFAULT_CORE_SIZE as nat, |_i: int| None::<SpecInstruction>),
            res.resolved_model() is None,
            res.label_map() == Map::<Seq<char>, usize>::empty(),
    {
        Core::new(DEFAULT_CORE_SIZE)
    }
}

impl PartialEq for Core {
    fn eq(&self, other: &Self) -> (res: bool) {
        let same_resolved = match (&self.resolved, &other.resolved) {
            (Some(a), Some(b)) => cells_equal(a, b),
            _ => false,
        };
        same_resolved || cells_equal(&self.instructions, &other.instructions)
    }
}

impl vstd::std_specs::cmp::PartialEqSpecImpl for Core {
    open spec fn obeys_eq_spec() -> bool {
        true
    }

    /// Two cores are equal when both are resolved to the same cells, or
    /// their cells are the same.
    open spec fn eq_spec(&self, other: &Self) -> bool {
        (self.resolved_model() is Some && self.resolved_model() == other.resolved_model())
            || self.cells() == other.cells()
    }
}

} // verus!
