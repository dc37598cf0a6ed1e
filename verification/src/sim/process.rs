//! The process queue of a core. A core has a single queue, which may hold
//! several "threads" of execution of several processes and determines which
//! one runs next.

use std::collections::VecDeque;

use vstd::prelude::*;

use crate::load_file::{Offset, Opcode};
use crate::name_map::NameMap;
use crate::text;

verus! {

/// One scheduled thread of execution: its process name, thread id and position.
#[derive(Debug)]
pub struct Entry {
    pub name: String,
    pub thread: usize,
    pub offset: Offset,
}

/// The mathematical model of an [`Entry`].
pub struct SpecEntry {
    pub name: Seq<char>,
    pub thread: usize,
    pub offset: Offset,
}

impl View for Entry {
    type V = SpecEntry;

    open spec fn view(&self) -> SpecEntry {
        SpecEntry { name: self.name@, thread: self.thread, offset: self.offset }
    }
}

impl PartialEq for Entry {
    fn eq(&self, other: &Self) -> (res: bool) {
        self.name.eq(&other.name) && self.thread == other.thread && self.offset == other.offset
    }
}

impl vstd::std_specs::cmp::PartialEqSpecImpl for Entry {
    open spec fn obeys_eq_spec() -> bool {
        true
    }

    open spec fn eq_spec(&self, other: &Self) -> bool {
        self@ == other@
    }
}

/// A process-related error.
#[derive(Debug)]
pub enum Error {
    /// All processes terminated.
    NoRemainingProcesses,
    /// A process already exists with the given name.
    ProcessNameExists(String),
    /// The warrior attempted to execute a DAT instruction.
    ExecuteDat(Offset),
    /// The warrior attempted to execute a division by zero.
    DivideByZero,
    /// The warrior attempted to execute an opcode the simulator does not run.
    UnsupportedOpcode(Opcode),
}

/// The mathematical model of an [`Error`].
pub enum SpecError {
    NoRemainingProcesses,
    ProcessNameExists(Seq<char>),
    ExecuteDat(Offset),
    DivideByZero,
    UnsupportedOpcode(Opcode),
}

impl View for Error {
    type V = SpecError;

    open spec fn view(&self) -> SpecError {
        match self {
            Error::NoRemainingProcesses => SpecError::NoRemainingProcesses,
            Error::ProcessNameExists(s) => SpecError::ProcessNameExists(s@),
            Error::ExecuteDat(o) => SpecError::ExecuteDat(*o),
            Error::DivideByZero => SpecError::DivideByZero,
            Error::UnsupportedOpcode(o) => SpecError::UnsupportedOpcode(*o),
        }
    }
}

impl PartialEq for Error {
    fn eq(&self, other: &Self) -> (res: bool) {
        match (self, other) {
            (Error::NoRemainingProcesses, Error::NoRemainingProcesses) => true,
            (Error::ProcessNameExists(a), Error::ProcessNameExists(b)) => a.eq(b),
            (Error::ExecuteDat(a), Error::ExecuteDat(b)) => *a == *b,
            (Error::DivideByZero, Error::DivideByZero) => true,
            (Error::UnsupportedOpcode(a), Error::UnsupportedOpcode(b)) => *a == *b,
            _ => false,
        }
    }
}

impl vstd::std_specs::cmp::PartialEqSpecImpl for Error {
    open spec fn obeys_eq_spec() -> bool {
        true
    }

    open spec fn eq_spec(&self, other: &Self) -> bool {
        self@ == other@
    }
}

/// The description of an error.
pub open spec fn error_message(e: SpecError) -> Seq<char> {
    match e {
        SpecError::NoRemainingProcesses => "no process running to execute"@,
        SpecError::ProcessNameExists(name) => "a process with the name '"@ + name + "' already exists"@,
        SpecError::ExecuteDat(offset) => "terminated due to reaching a DAT at offset "@ + text::decimal(offset.pos() as int),
        SpecError::DivideByZero => "terminated due to division by 0"@,
        SpecError::UnsupportedOpcode(opcode) => "opcode "@ + opcode.name() + " is not supported by the simulator"@,
    }
}

impl Error {
    /// A description of the error, as [`error_message`] says.
    pub fn message(&self) -> (res: String)
        ensures
            res@ == error_message(self@),
    {
        let mut v: Vec<char>;
        match self {
            Error::NoRemainingProcesses => {
                v = text::chars_of("no process running to execute");
            },
            Error::ProcessNameExists(name) => {
                v = text::chars_of("a process with the name '");
                let mut n = text::chars_of(name.as_str());
                v.append(&mut n);
                let mut t = text::chars_of("' already exists");
                v.append(&mut t);
            },
            Error::ExecuteDat(offset) => {
                v = text::chars_of("terminated due to reaching a DAT at offset ");
                let mut n = text::usize_to_chars(offset.value() as usize);
                v.append(&mut n);
            },
            Error::DivideByZero => {
                v = text::chars_of("terminated due to division by 0");
            },
            Error::UnsupportedOpcode(opcode) => {
                v = text::chars_of("opcode ");
                let mut n = opcode.name_chars();
                v.append(&mut n);
                let mut t = text::chars_of(" is not supported by the simulator");
                v.append(&mut t);
            },
        }
        text::string_from(v.as_slice())
    }
}

/// The number of entries in `entries` that belong to the process `name`.
pub open spec fn count_named(entries: Seq<SpecEntry>, name: Seq<char>) -> nat
    decreases entries.len(),
{
    if entries.len() == 0 {
        0
    } else {
        count_named(entries.drop_last(), name) + (if entries.last().name == name {
            1nat
        } else {
            0nat
        })
    }
}

proof fn lemma_count_drop_first(entries: Seq<SpecEntry>, name: Seq<char>)
    requires
        entries.len() > 0,
    ensures
        count_named(entries, name) == count_named(entries.drop_first(), name) + (if entries[0].name
            == name {
            1nat
        } else {
            0nat
        }),
    decreases entries.len(),
{
    if entries.len() > 1 {
        lemma_count_drop_first(entries.drop_last(), name);
        assert(entries.drop_last().drop_first() =~= entries.drop_first().drop_last());
        assert(entries.drop_first().last() == entries.last());
        assert(entries.drop_last()[0] == entries[0]);
    } else {
        assert(entries.drop_first().len() == 0);
        assert(entries.drop_last().len() == 0);
        assert(count_named(entries.drop_last(), name) == 0);
        assert(count_named(entries.drop_first(), name) == 0);
        assert(entries.last() == entries[0]);
    }
}

proof fn lemma_count_positive(entries: Seq<SpecEntry>, i: int)
    requires
        0 <= i < entries.len(),
    ensures
        count_named(entries, entries[i].name) > 0,
    decreases entries.len(),
{
    if i < entries.len() - 1 {
        lemma_count_positive(entries.drop_last(), i);
    }
}

/// The queue is first in, first out: adding at the back does not change
/// what comes off the front, and what is added comes off after the others;
/// the process added has one more queued entry.
pub proof fn law_fifo(entries: Seq<SpecEntry>, e: SpecEntry)
    ensures
        entries.len() > 0 ==> entries.push(e)[0] == entries[0],
        entries.len() > 0 ==> entries.push(e).drop_first() == entries.drop_first().push(e),
        entries.len() == 0 ==> entries.push(e)[0] == e,
        count_named(entries.push(e), e.name) == count_named(entries, e.name) + 1,
{
    assert(entries.push(e).drop_last() =~= entries);
    if entries.len() > 0 {
        assert(entries.push(e).drop_first() =~= entries.drop_first().push(e));
    }
}

/// A process has no more entries than the queue.
pub proof fn lemma_count_bounded(entries: Seq<SpecEntry>, name: Seq<char>)
    ensures
        count_named(entries, name) <= entries.len(),
    decreases entries.len(),
{
    if entries.len() > 0 {
        lemma_count_bounded(entries.drop_last(), name);
    }
}

/// A representation of the process queue: a first-in, first-out queue of entries.
#[derive(Debug)]
pub struct Queue {
    /// The entries waiting to be executed, in order.
    queue: VecDeque<Entry>,
    /// For each process name, the number of its entries in the queue.
    processes: NameMap<usize>,
    /// For each process name, the next thread id to give out.
    next_thread_id: NameMap<usize>,
}

impl Queue {
    /// The queued entries, front first.
    pub closed spec fn entries(&self) -> Seq<SpecEntry> {
        self.queue@.map_values(|e: Entry| e@)
    }

    /// For each process ever added, its number of queued entries.
    pub closed spec fn counts(&self) -> Map<Seq<char>, usize> {
        self.processes.map()
    }

    /// For each process that has been given thread ids, the next one.
    pub closed spec fn next_ids(&self) -> Map<Seq<char>, usize> {
        self.next_thread_id.map()
    }

    /// The counts agree with the queue: every queued process is known, and
    /// each known process's count is its number of queued entries.
    pub closed spec fn wf(&self) -> bool {
        &&& self.processes.wf()
        &&& self.next_thread_id.wf()
        &&& forall|i: int|
            0 <= i < self.entries().len() ==> self.counts().contains_key(
                #[trigger] self.entries()[i].name,
            )
        &&& forall|n: Seq<char>| #[trigger]
            self.counts().contains_key(n) ==> self.counts()[n] == count_named(self.entries(), n)
    }

    /// What the well-formedness of a queue says of its counts.
    pub proof fn lemma_counts_agree(&self)
        requires
            self.wf(),
        ensures
            forall|n: Seq<char>| #[trigger] self.counts().contains_key(n) ==> self.counts()[n] == count_named(self.entries(), n),
            forall|i: int| 0 <= i < self.entries().len() ==> self.counts().contains_key(#[trigger] self.entries()[i].name),
    {
    }

    /// The thread id a new entry of `name` gets when none is given.
    pub open spec fn fresh_id(&self, name: Seq<char>) -> usize {
        if self.next_ids().contains_key(name) {
            self.next_ids()[name]
        } else {
            0
        }
    }

    /// An empty queue.
    pub fn new() -> (res: Queue)
        ensures
            res.wf(),
            res.entries().len() == 0,
            res.counts() == Map::<Seq<char>, usize>::empty(),
            res.next_ids() == Map::<Seq<char>, usize>::empty(),
    {
        let res = Queue {
            queue: VecDeque::new(),
            processes: NameMap::new(),
            next_thread_id: NameMap::new(),
        };
        assert(res.entries().len() == 0);
        res
    }

    /// Removes and returns the entry at the front of the queue.
    pub fn pop(&mut self) -> (res: Result<Entry, Error>)
        requires
            old(self).wf(),
        ensures
            final(self).wf(),
            final(self).next_ids() == old(self).next_ids(),
            match res {
                Ok(entry) => {
                    &&& old(self).entries().len() > 0
                    &&& entry@ == old(self).entries()[0]
                    &&& final(self).entries() == old(self).entries().drop_first()
                    &&& final(self).counts() == old(self).counts().insert(
                        entry@.name,
                        (old(self).counts()[entry@.name] - 1) as usize,
                    )
                },
                Err(e) => {
                    &&& old(self).entries().len() == 0
                    &&& e@ == SpecError::NoRemainingProcesses
                    &&& final(self).entries() == old(self).entries()
                    &&& final(self).counts() == old(self).counts()
                },
            },
    {
        let ghost old_entries = self.entries();
        match self.queue.pop_front() {
            None => {
                assert(self.entries() =~= old_entries);
                assert(self.processes == old(self).processes);
                assert(self.next_thread_id == old(self).next_thread_id);
                assert(self.counts() == old(self).counts());
                assert(self.wf());
                Err(Error::NoRemainingProcesses)
            },
            Some(entry) => {
                assert(self.queue@ =~= old(self).queue@.drop_first());
                assert(self.entries() =~= old_entries.drop_first());
                let name = text::chars_of(entry.name.as_str());
                proof {
                    assert(old_entries[0] == entry@);
                }
                let count = match self.processes.get(name.as_slice()) {
                    Some(c) => *c,
                    None => 0,
                };
                let decremented = count.saturating_sub(1);
                self.processes.insert(name.as_slice(), decremented);
                proof {
                    lemma_count_positive(old_entries, 0);
                    lemma_count_drop_first(old_entries, entry@.name);
                    assert forall|n: Seq<char>| #[trigger]
                        self.counts().contains_key(n) implies self.counts()[n] == count_named(
                        self.entries(),
                        n,
                    ) by {
                        lemma_count_drop_first(old_entries, n);
                        assert(old(self).counts().contains_key(n));
                        assert(old(self).counts()[n] == count_named(old_entries, n));
                    }
                    assert forall|i: int|
                        0 <= i < self.entries().len() implies self.counts().contains_key(
                        #[trigger] self.entries()[i].name,
                    ) by {
                        assert(self.entries()[i] == old_entries[i + 1]);
                        assert(old(self).counts().contains_key(old_entries[i + 1].name));
                    }
                    assert(self.processes.wf());
                    assert(self.next_thread_id.wf());
                }
                Ok(entry)
            },
        }
    }

    /// The entry at the front of the queue, without removing it.
    pub fn peek(&self) -> (res: Result<&Entry, Error>)
        ensures
            match res {
                Ok(entry) => self.entries().len() > 0 && entry@ == self.entries()[0],
                Err(e) => self.entries().len() == 0 && e@ == SpecError::NoRemainingProcesses,
            },
    {
        if self.queue.len() == 0 {
            Err(Error::NoRemainingProcesses)
        } else {
            Ok(&self.queue[0])
        }
    }

    /// Adds an entry for `process_name` at the back of the queue. Its thread id
    /// is `thread` if given, otherwise the process's next fresh id.
    pub fn push(&mut self, process_name: String, offset: Offset, thread: Option<usize>)
        requires
            old(self).wf(),
            thread is None ==> old(self).fresh_id(process_name@) < usize::MAX,
            old(self).counts().contains_key(process_name@) ==> old(self).counts()[process_name@]
                < usize::MAX,
        ensures
            final(self).wf(),
            final(self).entries() == old(self).entries().push(
                SpecEntry {
                    name: process_name@,
                    thread: match thread {
                        Some(id) => id,
                        None => old(self).fresh_id(process_name@),
                    },
                    offset,
                },
            ),
            final(self).next_ids() == (match thread {
                Some(_) => old(self).next_ids(),
                None => old(self).next_ids().insert(
                    process_name@,
                    (old(self).fresh_id(process_name@) + 1) as usize,
                ),
            }),
            final(self).counts() == old(self).counts().insert(
                process_name@,
                (if old(self).counts().contains_key(process_name@) {
                    old(self).counts()[process_name@] + 1
                } else {
                    1
                }) as usize,
            ),
    {
        let name = text::chars_of(process_name.as_str());
        let ghost old_entries = self.entries();
        let thread_id = match thread {
            Some(id) => id,
            None => {
                let id = match self.next_thread_id.get(name.as_slice()) {
                    Some(n) => *n,
                    None => 0,
                };
                self.next_thread_id.insert(name.as_slice(), id + 1);
                id
            },
        };
        self.queue.push_back(Entry { name: process_name, thread: thread_id, offset });
        assert(self.entries() =~= old_entries.push(self.queue@.last()@));
        let count = match self.processes.get(name.as_slice()) {
            Some(c) => *c,
            None => 0,
        };
        self.processes.insert(name.as_slice(), count + 1);
        proof {
            let new_entries = self.entries();
            assert(new_entries.drop_last() =~= old_entries);
            assert forall|n: Seq<char>| #[trigger]
                self.counts().contains_key(n) implies self.counts()[n] == count_named(
                new_entries,
                n,
            ) by {
                if n != name@ && !old(self).counts().contains_key(n) {
                    assert(false);
                }
                if n == name@ && !old(self).counts().contains_key(n) {
                    assert(count_named(old_entries, n) == 0) by {
                        if count_named(old_entries, n) > 0 {
                            lemma_count_witness(old_entries, n);
                        }
                    }
                }
            }
            assert forall|i: int|
                0 <= i < new_entries.len() implies self.counts().contains_key(
                #[trigger] new_entries[i].name,
            ) by {
                if i < old_entries.len() {
                    assert(new_entries[i] == old_entries[i]);
                }
            }
        }
    }

    /// The number of queued entries.
    pub fn len(&self) -> (res: usize)
        ensures
            res == self.entries().len(),
    {
        self.queue.len()
    }

    /// The thread id a new entry of `name` gets when none is given, as
    /// [`fresh_id`](Self::fresh_id) says.
    pub fn next_thread_id(&self, name: &str) -> (res: usize)
        requires
            self.wf(),
        ensures
            res == self.fresh_id(name@),
    {
        let n = text::chars_of(name);
        match self.next_thread_id.get(n.as_slice()) {
            Some(id) => *id,
            None => 0,
        }
    }

    /// Whether the process `name` was ever added to the queue.
    pub fn contains_process(&self, name: &str) -> (res: bool)
        requires
            self.wf(),
        ensures
            res == self.counts().contains_key(name@),
    {
        let n = text::chars_of(name);
        self.processes.contains(n.as_slice())
    }

    /// The number of queued entries of the process `name`, which must have been
    /// added to the queue at some point.
    pub fn thread_count(&self, name: &str) -> (res: usize)
        requires
            self.wf(),
            self.counts().contains_key(name@),
        ensures
            res == self.counts()[name@],
            res == count_named(self.entries(), name@),
    {
        let n = text::chars_of(name);
        match self.processes.get(n.as_slice()) {
            Some(c) => *c,
            None => 0,
        }
    }
}

proof fn lemma_count_witness(entries: Seq<SpecEntry>, name: Seq<char>)
    requires
        count_named(entries, name) > 0,
    ensures
        exists|i: int| 0 <= i < entries.len() && #[trigger] entries[i].name == name,
    decreases entries.len(),
{
    if entries.last().name == name {
        assert(entries[entries.len() - 1].name == name);
    } else {
        lemma_count_witness(entries.drop_last(), name);
        let i = choose|i: int| 0 <= i < entries.drop_last().len() && #[trigger] entries.drop_last()[i].name == name;
        assert(entries[i] == entries.drop_last()[i]);
    }
}

} // verus!
