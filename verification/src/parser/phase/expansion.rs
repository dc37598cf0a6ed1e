//! This phase finds and expands substitutions, namely:
//! - `EQU` definitions,
//! - `FOR` ... `ROF` blocks,
//! - standard labels, which alias an address.
//!
//! Labels used in the right-hand side of an expression are substituted in place.

use vstd::prelude::*;

use crate::load_file;
use crate::name_map::NameMap;
use crate::text;

use crate::parser::error::{Error, SpecError};
use crate::parser::grammar;

use super::evaluation;
use substitute::lines_model;

pub mod machine;
pub mod run;
pub mod substitute;

verus! {

/// What a label stands for.
#[derive(Debug)]
pub enum LabelValue {
    /// The index of the instruction the label is declared at.
    AbsoluteOffset(u32),
    /// A number that is substituted as it is, wherever the label is used.
    RelativeOffset(i32),
    /// Lines of text that replace the label (from `EQU`).
    Substitution(Vec<String>),
}

/// The mathematical model of a [`LabelValue`].
pub enum SpecLabelValue {
    AbsoluteOffset(u32),
    RelativeOffset(i32),
    Substitution(Seq<Seq<char>>),
}

/// The characters of each string.
pub open spec fn texts(v: Seq<String>) -> Seq<Seq<char>> {
    v.map_values(|l: String| l@)
}

impl View for LabelValue {
    type V = SpecLabelValue;

    open spec fn view(&self) -> SpecLabelValue {
        match self {
            LabelValue::AbsoluteOffset(o) => SpecLabelValue::AbsoluteOffset(*o),
            LabelValue::RelativeOffset(o) => SpecLabelValue::RelativeOffset(*o),
            LabelValue::Substitution(v) => SpecLabelValue::Substitution(texts(v@)),
        }
    }
}

/// A copy of a list of strings.
pub fn clone_strings(v: &Vec<String>) -> (res: Vec<String>)
    ensures
        res@ == v@,
        texts(res@) == texts(v@),
{
    let mut res: Vec<String> = Vec::new();
    let mut i: usize = 0;
    while i < v.len()
        invariant
            i <= v@.len(),
            res@ == v@.take(i as int),
        decreases v@.len() - i,
    {
        let c = v[i].clone();
        res.push(c);
        i = i + 1;
        assert(res@ =~= v@.take(i as int));
    }
    assert(v@.take(v@.len() as int) =~= v@);
    res
}

impl Clone for LabelValue {
    fn clone(&self) -> (res: Self)
        ensures
            res@ == self@,
    {
        match self {
            LabelValue::AbsoluteOffset(o) => LabelValue::AbsoluteOffset(*o),
            LabelValue::RelativeOffset(o) => LabelValue::RelativeOffset(*o),
            LabelValue::Substitution(v) => LabelValue::Substitution(clone_strings(v)),
        }
    }
}

impl PartialEq for LabelValue {
    fn eq(&self, other: &Self) -> (res: bool) {
        match (self, other) {
            (LabelValue::AbsoluteOffset(a), LabelValue::AbsoluteOffset(b)) => *a == *b,
            (LabelValue::RelativeOffset(a), LabelValue::RelativeOffset(b)) => *a == *b,
            (LabelValue::Substitution(a), LabelValue::Substitution(b)) => strings_equal(a, b),
            _ => false,
        }
    }
}

impl vstd::std_specs::cmp::PartialEqSpecImpl for LabelValue {
    open spec fn obeys_eq_spec() -> bool {
        true
    }

    open spec fn eq_spec(&self, other: &Self) -> bool {
        self@ == other@
    }
}

/// Whether two lists of strings hold the same texts.
pub fn strings_equal(a: &Vec<String>, b: &Vec<String>) -> (res: bool)
    ensures
        res == (texts(a@) == texts(b@)),
{
    if a.len() != b.len() {
        assert(texts(a@).len() != texts(b@).len());
        return false;
    }
    let mut i: usize = 0;
    while i < a.len()
        invariant
            a@.len() == b@.len(),
            i <= a@.len(),
            forall|j: int| 0 <= j < i ==> a@[j]@ == b@[j]@,
        decreases a@.len() - i,
    {
        if !a[i].eq(&b[i]) {
            assert(texts(a@)[i as int] != texts(b@)[i as int]);
            return false;
        }
        i = i + 1;
    }
    assert(texts(a@) =~= texts(b@));
    true
}

/// The models of the values of a label map.
pub open spec fn labels_model(m: Map<Seq<char>, LabelValue>) -> Map<Seq<char>, SpecLabelValue> {
    m.map_values(|v: LabelValue| v@)
}

/// The labels every program starts with: the predefined constants, as relative
/// offsets so that they are substituted as they are.
pub open spec fn default_labels() -> Map<Seq<char>, SpecLabelValue> {
    constant_labels(load_file::default_constants())
}

/// The labels for a list of named constants, each a relative offset.
pub open spec fn constant_labels(cs: Seq<(Seq<char>, u32)>) -> Map<Seq<char>, SpecLabelValue>
    decreases cs.len(),
{
    if cs.len() == 0 {
        Map::empty()
    } else {
        constant_labels(cs.drop_last()).insert(
            cs.last().0,
            SpecLabelValue::RelativeOffset(cs.last().1 as i32),
        )
    }
}

/// A `FOR` block being collected.
#[derive(Debug)]
pub struct ForStatement {
    pub index_label: Option<String>,
    pub iter_count: u32,
    pub start_line: usize,
    pub start_offset: u32,
}

/// The mathematical model of a [`ForStatement`].
pub struct SpecFor {
    pub index_label: Option<Seq<char>>,
    pub iter_count: u32,
    pub start_line: usize,
    pub start_offset: u32,
}

impl View for ForStatement {
    type V = SpecFor;

    open spec fn view(&self) -> SpecFor {
        SpecFor {
            index_label: match self.index_label {
                Some(l) => Some(l@),
                None => None,
            },
            iter_count: self.iter_count,
            start_line: self.start_line,
            start_offset: self.start_offset,
        }
    }
}

/// The models of a stack of `FOR` blocks.
pub open spec fn fors_model(v: Seq<ForStatement>) -> Seq<SpecFor> {
    v.map_values(|f: ForStatement| f@)
}

/// The state of label collection: the labels found so far, the `EQU` being
/// collected, the labels waiting for their instruction, and open `FOR` blocks.
#[derive(Debug)]
pub struct Collector {
    pub labels: NameMap<LabelValue>,
    pub current_equ: Option<(String, Vec<String>)>,
    pub pending_labels: Vec<String>,
    pub for_stack: Vec<ForStatement>,
    pub for_offsets: NameMap<u32>,
}

/// The mathematical model of a [`Collector`].
pub struct SpecCollector {
    pub labels: Map<Seq<char>, SpecLabelValue>,
    pub equ: Option<(Seq<char>, Seq<Seq<char>>)>,
    pub pending: Set<Seq<char>>,
    pub fors: Seq<SpecFor>,
    pub for_offsets: Map<Seq<char>, u32>,
}

/// The texts of the labels waiting for their instruction.
pub open spec fn pending_set(v: Seq<String>) -> Set<Seq<char>> {
    Set::new(|k: Seq<char>| exists|i: int| 0 <= i < v.len() && #[trigger] v[i]@ == k)
}

/// The label and lines of the `EQU` being collected.
pub open spec fn equ_model(e: Option<(String, Vec<String>)>) -> Option<(Seq<char>, Seq<Seq<char>>)> {
    match e {
        Some((l, v)) => Some((l@, texts(v@))),
        None => None,
    }
}

/// `labels` with the finished `EQU`, if any, added.
pub open spec fn with_equ(
    labels: Map<Seq<char>, SpecLabelValue>,
    equ: Option<(Seq<char>, Seq<Seq<char>>)>,
) -> Map<Seq<char>, SpecLabelValue> {
    match equ {
        Some((l, v)) => labels.insert(l, SpecLabelValue::Substitution(v)),
        None => labels,
    }
}

/// `labels` with each pending label set to the absolute offset `offset`.
pub open spec fn with_pending(
    labels: Map<Seq<char>, SpecLabelValue>,
    pending: Set<Seq<char>>,
    offset: u32,
) -> Map<Seq<char>, SpecLabelValue> {
    Map::new(
        |k: Seq<char>| labels.contains_key(k) || pending.contains(k),
        |k: Seq<char>| if pending.contains(k) {
            SpecLabelValue::AbsoluteOffset(offset)
        } else {
            labels[k]
        },
    )
}

/// The name of the label holding the number of the current line.
pub open spec fn curline() -> Seq<char> {
    seq!['C', 'U', 'R', 'L', 'I', 'N', 'E']
}

impl SpecCollector {
    /// The finished `EQU`, if any, moved into the labels.
    pub open spec fn resolve_equ(self) -> SpecCollector {
        SpecCollector { labels: with_equ(self.labels, self.equ), equ: None, ..self }
    }

    /// The finished `EQU` and then the pending labels, at `offset`, moved into the labels.
    pub open spec fn resolve_pending(self, offset: u32) -> SpecCollector {
        let c = self.resolve_equ();
        SpecCollector { labels: with_pending(c.labels, self.pending, offset), pending: Set::empty(), ..c }
    }

    /// A new `EQU` begins; the one before it, if any, is finished.
    pub open spec fn process_equ(self, label: Seq<char>, substitution: Seq<char>) -> SpecCollector {
        SpecCollector { equ: Some((label, seq![substitution])), ..self.resolve_equ() }
    }

    /// Another line of the current `EQU`; without one, nothing changes.
    pub open spec fn equ_continuation(self, substitution: Seq<char>) -> SpecCollector {
        match self.equ {
            Some((l, v)) => SpecCollector { equ: Some((l, v.push(substitution))), ..self },
            None => self,
        }
    }

    /// A label waits for the offset of the next instruction.
    pub open spec fn add_pending(self, label: Seq<char>) -> SpecCollector {
        SpecCollector { pending: self.pending.insert(label), ..self }
    }

    /// A `FOR` block begins.
    pub open spec fn push_for(self, f: SpecFor) -> SpecCollector {
        SpecCollector { fors: self.fors.push(f), ..self }
    }

    /// The innermost `FOR` block ends: it leaves the stack, and its index
    /// label, if any, records the block's start offset.
    pub open spec fn pop_for(self) -> SpecCollector {
        let f = self.fors.last();
        SpecCollector {
            fors: self.fors.drop_last(),
            for_offsets: match f.index_label {
                Some(l) => self.for_offsets.insert(l, f.start_offset),
                None => self.for_offsets,
            },
            ..self
        }
    }

    /// The value of `label` at the line with offset `offset`: substitutions
    /// always; other labels, and `CURLINE`, only outside of `FOR` blocks.
    pub open spec fn label_value(self, label: Seq<char>, offset: u32) -> Option<SpecLabelValue> {
        if self.labels.contains_key(label) && self.labels[label] is Substitution {
            Some(self.labels[label])
        } else if self.fors.len() == 0 {
            if self.labels.contains_key(label) {
                Some(self.labels[label])
            } else if label == curline() {
                Some(SpecLabelValue::RelativeOffset(offset as i32))
            } else {
                None
            }
        } else {
            None
        }
    }

    /// The labels once collection is done: the last `EQU` is finished.
    pub open spec fn finish(self) -> Map<Seq<char>, SpecLabelValue> {
        with_equ(self.labels, self.equ)
    }
}

/// An `EQU` that was started is found among the labels once collection is
/// done, with its lines (when no other `EQU` follows).
pub proof fn law_equ_collected(c: SpecCollector, label: Seq<char>, substitution: Seq<char>)
    ensures
        c.process_equ(label, substitution).finish().contains_key(label),
        c.process_equ(label, substitution).finish()[label] == SpecLabelValue::Substitution(seq![substitution]),
{
}

/// A continuation line is added to the `EQU` being collected.
pub proof fn law_equ_continued(c: SpecCollector, label: Seq<char>, first: Seq<char>, next: Seq<char>)
    ensures
        c.process_equ(label, first).equ_continuation(next).finish()[label] == SpecLabelValue::Substitution(seq![first, next]),
{
    assert(seq![first].push(next) =~= seq![first, next]);
}

/// A label waiting for its instruction takes the offset it is resolved at.
pub proof fn law_pending_resolved(c: SpecCollector, label: Seq<char>, offset: u32)
    ensures
        c.add_pending(label).resolve_pending(offset).labels.contains_key(label),
        c.add_pending(label).resolve_pending(offset).labels[label] == SpecLabelValue::AbsoluteOffset(offset),
        c.add_pending(label).resolve_pending(offset).pending.len() == 0,
{
}

/// Labels that were not pending keep their values when pending labels are
/// resolved, unless the current `EQU` redefines them.
pub proof fn law_resolve_keeps_others(c: SpecCollector, label: Seq<char>, offset: u32)
    requires
        c.labels.contains_key(label),
        !c.pending.contains(label),
        !(c.equ matches Some((l, _)) && l == label),
    ensures
        c.resolve_pending(offset).labels[label] == c.labels[label],
{
}

impl Collector {
    /// The labels collected so far.
    pub open spec fn label_map(&self) -> Map<Seq<char>, SpecLabelValue> {
        labels_model(self.labels.map())
    }

    /// The model of this collector.
    pub open spec fn model(&self) -> SpecCollector {
        SpecCollector {
            labels: self.label_map(),
            equ: equ_model(self.current_equ),
            pending: pending_set(self.pending_labels@),
            fors: fors_model(self.for_stack@),
            for_offsets: self.for_offsets.map(),
        }
    }

    /// The maps are well formed.
    pub open spec fn wf(&self) -> bool {
        self.labels.wf() && self.for_offsets.wf()
    }

    /// A collector holding only the predefined constants.
    pub fn new() -> (res: Collector)
        ensures
            res.wf(),
            res.model() == (SpecCollector {
                labels: default_labels(),
                equ: None,
                pending: Set::empty(),
                fors: Seq::empty(),
                for_offsets: Map::empty(),
            }),
    {
        let mut labels: NameMap<LabelValue> = NameMap::new();
        let constants = load_file::default_constant_list();
        let ghost cs = load_file::default_constants();
        let mut i: usize = 0;
        while i < constants.len()
            invariant
                i <= constants@.len(),
                labels.wf(),
                constants@.len() == cs.len(),
                cs == load_file::default_constants(),
                forall|j: int|
                    0 <= j < constants@.len() ==> (#[trigger] constants@[j]).0@ == cs[j].0
                        && constants@[j].1 == cs[j].1,
                labels_model(labels.map()) == constant_labels(cs.take(i as int)),
            decreases constants@.len() - i,
        {
            labels.insert(constants[i].0.as_slice(), LabelValue::RelativeOffset(constants[i].1 as i32));
            proof {
                assert(cs.take(i + 1).drop_last() =~= cs.take(i as int));
                assert(labels_model(labels.map()) =~= constant_labels(cs.take(i + 1)));
            }
            i = i + 1;
        }
        proof {
            assert(cs.take(i as int) =~= cs);
        }
        let res = Collector {
            labels,
            current_equ: None,
            pending_labels: Vec::new(),
            for_stack: Vec::new(),
            for_offsets: NameMap::new(),
        };
        assert(pending_set(res.pending_labels@) =~= Set::empty());
        assert(fors_model(res.for_stack@) =~= Seq::empty());
        res
    }

    /// Finishes the current `EQU`, if any, adding it to the labels.
    pub fn resolve_pending_equ(&mut self)
        requires
            old(self).wf(),
        ensures
            final(self).wf(),
            final(self).model() == old(self).model().resolve_equ(),
    {
        let equ = self.current_equ.take();
        match equ {
            Some((label, values)) => {
                let chars = text::chars_of(label.as_str());
                self.labels.insert(chars.as_slice(), LabelValue::Substitution(values));
                proof {
                    assert(self.label_map() =~= old(self).label_map().insert(label@, SpecLabelValue::Substitution(texts(values@))));
                }
            },
            None => {},
        }
    }

    /// Starts a new `EQU` for `label` with its first line, finishing the one before, if any.
    pub fn process_equ(&mut self, label: &str, substitution: &str)
        requires
            old(self).wf(),
        ensures
            final(self).wf(),
            final(self).model() == old(self).model().process_equ(label@, substitution@),
    {
        self.resolve_pending_equ();
        let mut values: Vec<String> = Vec::new();
        values.push(substitution.to_string());
        self.current_equ = Some((label.to_string(), values));
        assert(texts(values@) =~= seq![substitution@]);
    }

    /// Adds a line to the current `EQU`; without one, nothing changes.
    pub fn process_equ_continuation(&mut self, substitution: &str)
        requires
            old(self).wf(),
        ensures
            final(self).wf(),
            final(self).model() == old(self).model().equ_continuation(substitution@),
    {
        let equ = self.current_equ.take();
        match equ {
            Some((label, values)) => {
                let mut values = values;
                let ghost old_values = values@;
                values.push(substitution.to_string());
                assert(texts(values@) =~= texts(old_values).push(substitution@));
                self.current_equ = Some((label, values));
            },
            None => {},
        }
    }

    /// A label that will take the offset of the next instruction.
    pub fn add_pending_label(&mut self, label: &str)
        requires
            old(self).wf(),
        ensures
            final(self).wf(),
            final(self).model() == old(self).model().add_pending(label@),
    {
        let ghost old_pending = self.pending_labels@;
        self.pending_labels.push(label.to_string());
        proof {
            let n = self.pending_labels@.len();
            assert(self.pending_labels@[n - 1]@ == label@);
            assert forall|k: Seq<char>| pending_set(self.pending_labels@).contains(k) == pending_set(old_pending).insert(label@).contains(k) by {
                if pending_set(old_pending).contains(k) {
                    let j = choose|j: int| 0 <= j < old_pending.len() && #[trigger] old_pending[j]@ == k;
                    assert(self.pending_labels@[j] == old_pending[j]);
                }
                if pending_set(self.pending_labels@).contains(k) {
                    let j = choose|j: int| 0 <= j < self.pending_labels@.len() && #[trigger] self.pending_labels@[j]@ == k;
                    if j < n - 1 {
                        assert(self.pending_labels@[j] == old_pending[j]);
                    }
                }
            }
            assert(pending_set(self.pending_labels@) =~= pending_set(old_pending).insert(label@));
        }
    }

    /// Gives every pending label the absolute offset `offset`, after
    /// finishing the current `EQU`, if any.
    pub fn resolve_pending_labels(&mut self, offset: u32)
        requires
            old(self).wf(),
        ensures
            final(self).wf(),
            final(self).model() == old(self).model().resolve_pending(offset),
    {
        let mut pending: Vec<String> = Vec::new();
        std::mem::swap(&mut pending, &mut self.pending_labels);
        self.resolve_pending_equ();
        let ghost base = self.label_map();
        let ghost mid = self.model();
        proof {
            assert(pending_set(self.pending_labels@) =~= Set::<Seq<char>>::empty());
            assert(with_pending(base, pending_set(pending@.take(0)), offset) =~= base);
        }
        let mut j: usize = 0;
        while j < pending.len()
            invariant
                j <= pending@.len(),
                self.wf(),
                self.model() == (SpecCollector {
                    labels: with_pending(base, pending_set(pending@.take(j as int)), offset),
                    ..mid
                }),
            decreases pending@.len() - j,
        {
            let chars = text::chars_of(pending[j].as_str());
            let ghost before = self.label_map();
            self.labels.insert(chars.as_slice(), LabelValue::AbsoluteOffset(offset));
            proof {
                let s0 = pending_set(pending@.take(j as int));
                let s1 = pending_set(pending@.take(j + 1));
                assert forall|k: Seq<char>| s1.contains(k) == s0.insert(pending@[j as int]@).contains(k) by {
                    if s0.contains(k) {
                        let w = choose|w: int| 0 <= w < j && #[trigger] pending@.take(j as int)[w]@ == k;
                        assert(pending@.take(j + 1)[w] == pending@.take(j as int)[w]);
                    }
                    if s1.contains(k) {
                        let w = choose|w: int| 0 <= w < j + 1 && #[trigger] pending@.take(j + 1)[w]@ == k;
                        if w < j {
                            assert(pending@.take(j + 1)[w] == pending@.take(j as int)[w]);
                        }
                    }
                    if k == pending@[j as int]@ {
                        assert(pending@.take(j + 1)[j as int] == pending@[j as int]);
                    }
                }
                assert(s1 =~= s0.insert(pending@[j as int]@));
                assert(self.label_map() =~= before.insert(chars@, SpecLabelValue::AbsoluteOffset(offset)));
                assert(self.label_map() =~= with_pending(base, s1, offset));
            }
            j = j + 1;
        }
        proof {
            assert(pending@.take(j as int) =~= pending@);
        }
    }

    /// Opens a `FOR` block at line `line`, with `offset` instructions before
    /// it, repeated as many times as `expression` evaluates to. Returns
    /// `false`, changing nothing, when `expression` is not a non-negative
    /// number.
    pub fn push_for(&mut self, label: Option<String>, line: usize, offset: u32, expression: &str) -> (ok: bool)
        requires
            old(self).wf(),
        ensures
            final(self).wf(),
            ok == (evaluation::expression_result(expression@) is Ok),
            ok ==> final(self).model() == old(self).model().push_for(SpecFor {
                index_label: match label {
                    Some(l) => Some(l@),
                    None => None,
                },
                iter_count: evaluation::expression_result(expression@)->Ok_0,
                start_line: line,
                start_offset: offset,
            }),
            !ok ==> final(self).model() == old(self).model(),
    {
        match evaluation::evaluate_expression(expression) {
            Ok(count) => {
                let f = ForStatement { index_label: label, iter_count: count, start_line: line, start_offset: offset };
                let ghost old_stack = self.for_stack@;
                self.for_stack.push(f);
                assert(fors_model(self.for_stack@) =~= fors_model(old_stack).push(f@));
                true
            },
            Err(_) => false,
        }
    }

    /// Closes the innermost `FOR` block, recording its start offset for its
    /// index label, if any. `None` when no block is open.
    pub fn pop_for(&mut self) -> (res: Option<ForStatement>)
        requires
            old(self).wf(),
        ensures
            final(self).wf(),
            match res {
                Some(f) => old(self).model().fors.len() > 0 && f@ == old(self).model().fors.last()
                    && final(self).model() == old(self).model().pop_for(),
                None => old(self).model().fors.len() == 0 && final(self).model() == old(self).model(),
            },
    {
        let ghost old_stack = self.for_stack@;
        match self.for_stack.pop() {
            Some(f) => {
                assert(fors_model(self.for_stack@) =~= fors_model(old_stack).drop_last());
                match &f.index_label {
                    Some(l) => {
                        let chars = text::chars_of(l.as_str());
                        self.for_offsets.insert(chars.as_slice(), f.start_offset);
                    },
                    None => {},
                }
                Some(f)
            },
            None => None,
        }
    }

    /// The value of `label` on the line with offset `current_offset`: a
    /// substitution always; other labels, and `CURLINE` (the offset itself),
    /// only outside of `FOR` blocks, so that offsets are computed once the
    /// blocks are unrolled.
    pub fn get_label_value(&self, label: &[char], current_offset: u32) -> (res: Option<LabelValue>)
        requires
            self.wf(),
        ensures
            match res {
                Some(v) => self.model().label_value(label@, current_offset) == Some(v@),
                None => self.model().label_value(label@, current_offset) is None,
            },
    {
        let value = self.labels.get(label);
        match value {
            Some(v) => {
                proof {
                    assert(self.label_map()[label@] == v@);
                }
                match v {
                    LabelValue::Substitution(_) => return Some(v.clone()),
                    _ => {},
                }
                if self.for_stack.len() == 0 {
                    Some(v.clone())
                } else {
                    None
                }
            },
            None => {
                if self.for_stack.len() == 0 && text::chars_equal(label, vec!['C', 'U', 'R', 'L', 'I', 'N', 'E'].as_slice()) {
                    Some(LabelValue::RelativeOffset(current_offset as i32))
                } else {
                    None
                }
            },
        }
    }

    /// The labels once collection is done: the current `EQU`, if any, is finished.
    pub fn finish(self) -> (res: NameMap<LabelValue>)
        requires
            self.wf(),
        ensures
            res.wf(),
            labels_model(res.map()) == self.model().finish(),
    {
        let mut c = self;
        c.resolve_pending_equ();
        c.labels
    }
}

/// The result of expansion and substitution: the lines of instructions and
/// the origin expression, if any.
#[derive(Debug)]
pub struct Lines {
    pub text: Vec<String>,
    pub origin: Option<String>,
}

/// The model of an optional string.
pub open spec fn opt_model(o: Option<String>) -> Option<Seq<char>> {
    match o {
        Some(s) => Some(s@),
        None => None,
    }
}

/// The lines after every offset label is replaced by its number, relative to
/// each line's offset (`counter` for the first). A line that is just a label
/// is emptied and takes no offset; a line that starts with a label loses it;
/// `ORG` takes no offset. `None` where a line is not valid or a number does
/// not fit.
pub open spec fn substituted_lines(
    lines: Seq<Seq<char>>,
    labels: Map<Seq<char>, SpecLabelValue>,
    counter: int,
) -> Option<Seq<Seq<char>>>
    decreases lines.len(),
{
    if lines.len() == 0 {
        Some(Seq::empty())
    } else {
        let line = lines[0];
        match grammar::tokens_of(line) {
            None => None,
            Some(tokens) => if tokens.len() == 0 {
                None
            } else if tokens[0].rule == grammar::Rule::Label && tokens.len() == 1 {
                match substituted_lines(lines.drop_first(), labels, counter) {
                    Some(rest) => Some(seq![Seq::<char>::empty()] + rest),
                    None => None,
                }
            } else {
                let stripped = if tokens[0].rule == grammar::Rule::Label {
                    line.skip(tokens[1].start as int)
                } else {
                    line
                };
                let next = if machine::is_org(line, tokens[0]) {
                    counter
                } else {
                    counter + 1
                };
                if next > u32::MAX {
                    None
                } else {
                    match substitute::substituted(stripped, labels, counter as u32) {
                        None => None,
                        Some(l) => match substituted_lines(lines.drop_first(), labels, next) {
                            Some(rest) => Some(seq![l] + rest),
                            None => None,
                        },
                    }
                }
            },
        }
    }
}

/// The outcome of the whole phase: the lines and origin after labels are
/// collected and substituted, or `None` where the text cannot be expanded.
pub open spec fn expansion_result(text: Seq<Seq<char>>, origin: Option<Seq<char>>) -> Option<(Seq<Seq<char>>, Option<Seq<char>>)> {
    match machine::collected(text) {
        None => None,
        Some((lines, labels)) => match substituted_lines(lines, labels, 0) {
            None => None,
            Some(out) => match origin {
                None => Some((out, None)),
                Some(o) => match substitute::substituted(o, labels, 0) {
                    Some(o2) => Some((out, Some(o2))),
                    None => None,
                },
            },
        },
    }
}

/// With no label tokens there is no offset label to replace.
proof fn lemma_no_offset_label(s: Seq<char>, tokens: Seq<grammar::Token>, k: int, labels: Map<Seq<char>, SpecLabelValue>)
    requires
        forall|j: int| 0 <= j < tokens.len() ==> (#[trigger] tokens[j]).rule != grammar::Rule::Label,
    ensures
        substitute::first_offset_label(s, tokens, k, labels) is None,
    decreases tokens.len() - k,
{
    if 0 <= k < tokens.len() {
        lemma_no_offset_label(s, tokens, k + 1, labels);
    }
}

/// Substitution leaves lines that name no label unchanged.
proof fn lemma_plain_substituted(lines: Seq<Seq<char>>, labels: Map<Seq<char>, SpecLabelValue>, counter: int)
    requires
        forall|i: int| 0 <= i < lines.len() ==> machine::plain_line(#[trigger] lines[i]),
        0 <= counter,
        counter + lines.len() <= u32::MAX,
    ensures
        substituted_lines(lines, labels, counter) == Some(lines),
    decreases lines.len(),
{
    if lines.len() > 0 {
        let line = lines[0];
        assert(machine::plain_line(line));
        let tokens = grammar::tokens_of(line)->Some_0;
        lemma_no_offset_label(line, tokens, 0, labels);
        let next = if machine::is_org(line, tokens[0]) {
            counter
        } else {
            counter + 1
        };
        assert forall|i: int| 0 <= i < lines.drop_first().len() implies machine::plain_line(#[trigger] lines.drop_first()[i]) by {
            assert(lines.drop_first()[i] == lines[i + 1]);
        }
        lemma_plain_substituted(lines.drop_first(), labels, next);
        assert(seq![line] + lines.drop_first() =~= lines);
    }
}

/// Expansion leaves a program that names no label (and has no `EQU`, `FOR`
/// or `ROF`), and has no origin, unchanged. Instruction offsets are `u32`
/// values, so the program has fewer than `u32::MAX` lines.
pub proof fn law_plain_program_expands_to_itself(lines: Seq<Seq<char>>)
    requires
        forall|i: int| 0 <= i < lines.len() ==> machine::plain_line(#[trigger] lines[i]),
        lines.len() < u32::MAX,
    ensures
        expansion_result(lines, None) == Some((lines, None::<Seq<char>>)),
{
    machine::law_plain_lines_unchanged(lines);
    let labels = machine::collected(lines)->Some_0.1;
    lemma_plain_substituted(lines, labels, 0);
}

/// Replaces the offset labels of every line, as [`substituted_lines`] says.
pub fn substitute_offsets(lines: &Vec<Vec<char>>, labels: &NameMap<LabelValue>) -> (res: Option<Vec<String>>)
    requires
        labels.wf(),
    ensures
        match res {
            Some(out) => substituted_lines(lines_model(lines@), labels_model(labels.map()), 0) == Some(texts(out@)),
            None => substituted_lines(lines_model(lines@), labels_model(labels.map()), 0) is None,
        },
{
    let ghost m = labels_model(labels.map());
    let ghost all = lines_model(lines@);
    let mut out: Vec<String> = Vec::new();
    let mut counter: u32 = 0;
    let mut j: usize = 0;
    proof {
        assert(all.skip(0) =~= all);
        assert(texts(out@) =~= Seq::<Seq<char>>::empty());
        match substituted_lines(all, m, 0) {
            Some(rest) => {
                assert(Seq::<Seq<char>>::empty() + rest =~= rest);
            },
            None => {},
        }
    }
    while j < lines.len()
        invariant
            j <= lines@.len(),
            labels.wf(),
            m == labels_model(labels.map()),
            all == lines_model(lines@),
            substituted_lines(all, m, 0) == match substituted_lines(all.skip(j as int), m, counter as int) {
                Some(rest) => Some(texts(out@) + rest),
                None => None,
            },
        decreases lines@.len() - j,
    {
        proof {
            assert(all.skip(j as int).drop_first() =~= all.skip(j + 1));
            assert(all.skip(j as int)[0] == all[j as int]);
        }
        let line = &lines[j];
        let tokens = match grammar::tokenize(line.as_slice()) {
            Some(t) => t,
            None => {
                return None;
            },
        };
        let len = line.len();
        proof {
            grammar::lemma_tokens_in_bounds(line@);
        }
        if tokens.len() == 0 {
            return None;
        }
        let ghost before = out@;
        if tokens[0].rule == grammar::Rule::Label && tokens.len() == 1 {
            out.push(String::new());
            proof {
                assert(texts(out@) =~= texts(before) + seq![Seq::<char>::empty()]);
                match substituted_lines(all.skip(j + 1), m, counter as int) {
                    Some(rest) => {
                        assert(texts(before) + (seq![Seq::<char>::empty()] + rest) =~= texts(out@) + rest);
                    },
                    None => {},
                }
            }
        } else {
            let mut stripped = if tokens[0].rule == grammar::Rule::Label {
                text::slice_range(line.as_slice(), tokens[1].start, line.len())
            } else {
                run::copy_line(line)
            };
            proof {
                if tokens@[0].rule == grammar::Rule::Label {
                    assert(stripped@ =~= line@.skip(tokens@[1].start as int));
                }
            }
            let org = if tokens[0].rule == grammar::Rule::Opcode {
                let word = text::slice_range(line.as_slice(), tokens[0].start, tokens[0].end);
                let upper = text::to_ascii_uppercase(word.as_slice());
                text::chars_equal(upper.as_slice(), load_file::PseudoOpcode::Org.name_chars().as_slice())
            } else {
                false
            };
            assert(org == machine::is_org(line@, tokens@[0]));
            if !org && counter == u32::MAX {
                return None;
            }
            if !substitute::substitute_offsets_in_line(&mut stripped, labels, counter) {
                return None;
            }
            out.push(text::string_from(stripped.as_slice()));
            if !org {
                counter = counter + 1;
            }
            proof {
                assert(texts(out@) =~= texts(before) + seq![stripped@]);
                match substituted_lines(all.skip(j + 1), m, counter as int) {
                    Some(rest) => {
                        assert(texts(before) + (seq![stripped@] + rest) =~= texts(out@) + rest);
                    },
                    None => {},
                }
            }
        }
        j = j + 1;
    }
    proof {
        assert(all.skip(j as int) =~= Seq::<Seq<char>>::empty());
        assert(texts(out@) + Seq::<Seq<char>>::empty() =~= texts(out@));
    }
    Some(out)
}

/// Collects and substitutes all labels found in the lines `text` and in the
/// `origin` expression: `EQU` substitutions are expanded, `FOR` blocks are
/// unrolled, and each label that stands for an offset is replaced by its
/// number. Fails with [`Error::InvalidSyntax`] where the text cannot be
/// expanded (a line that is not valid Redcode, a `ROF` without a `FOR`, an
/// invalid `FOR` count, a number that does not fit in `i32`, or a
/// substitution that does not end).
pub fn expand(text: Vec<String>, origin: Option<String>) -> (res: Result<Lines, Error>)
    ensures
        match res {
            Ok(l) => expansion_result(texts(text@), opt_model(origin)) == Some((texts(l.text@), opt_model(l.origin))),
            Err(e) => e@ == SpecError::InvalidSyntax && expansion_result(texts(text@), opt_model(origin)) is None,
        },
{
    let mut lines = run::strings_to_lines(&text);
    let labels = match run::collect_and_expand(&mut lines) {
        Some(l) => l,
        None => {
            return Err(Error::InvalidSyntax);
        },
    };
    let out = match substitute_offsets(&lines, &labels) {
        Some(o) => o,
        None => {
            return Err(Error::InvalidSyntax);
        },
    };
    match origin {
        None => Ok(Lines { text: out, origin: None }),
        Some(o) => {
            let mut chars = text::chars_of(o.as_str());
            if substitute::substitute_offsets_in_line(&mut chars, &labels, 0) {
                Ok(Lines { text: out, origin: Some(text::string_from(chars.as_slice())) })
            } else {
                Err(Error::InvalidSyntax)
            }
        },
    }
}

} // verus!
