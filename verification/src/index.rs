//! The directory index: what the disk showed of the paths a search consults.
//!
//! The resolver never reads the disk. It asks the index, and where the index
//! holds no answer for a path the search stops and names that path, so that
//! the caller can probe it, record the answer and resolve again.

use vstd::prelude::*;

use crate::path::{texts, CandidatePath, PathView};

verus! {

/// The mathematical value of a directory record.
pub struct RecordView {
    pub stored_name: Seq<char>,
    pub children: Seq<Seq<char>>,
}

/// The mathematical value of a probe.
pub enum ProbeView {
    Absent,
    Directory(RecordView),
}

/// What the disk shows of one directory.
#[derive(Debug, PartialEq, Eq)]
pub struct DirRecord {
    /// The directory's own name as the disk stores it, which on a
    /// filesystem that ignores case may differ from the name it was asked
    /// for by.
    pub stored_name: String,
    /// The names of the directories inside it, in listing order. A
    /// directory that cannot be read has none.
    pub children: Vec<String>,
}

/// What the disk shows of one path.
#[derive(Debug, PartialEq, Eq)]
pub enum Probe {
    /// No directory is there.
    Absent,
    /// A directory is there.
    Directory(DirRecord),
}

impl View for DirRecord {
    type V = RecordView;

    open spec fn view(&self) -> RecordView {
        RecordView { stored_name: self.stored_name@, children: texts(self.children@) }
    }
}

impl View for Probe {
    type V = ProbeView;

    open spec fn view(&self) -> ProbeView {
        match self {
            Probe::Absent => ProbeView::Absent,
            Probe::Directory(record) => ProbeView::Directory(record@),
        }
    }
}

impl PathView {
    /// The name that a directory at this path is stored by when the disk
    /// keeps the spelling it was asked for by: the last component, or the
    /// empty text where there is none.
    pub open spec fn own_name(self) -> Seq<char> {
        match self.name() {
            Some(name) => name,
            None => Seq::empty(),
        }
    }
}

impl DirRecord {
    /// A directory at `path` that is stored under the name `path` ends in.
    pub fn plain(path: &CandidatePath, children: Vec<String>) -> (record: DirRecord)
        ensures
            record@ == (RecordView { stored_name: path@.own_name(), children: texts(children@) }),
    {
        let stored_name = match path.name() {
            Some(name) => name.clone(),
            None => String::new(),
        };
        DirRecord { stored_name, children }
    }
}

/// Whether the index shows a directory at `path` that the disk stores
/// under `name`.
pub open spec fn stored_as(index: Map<PathView, ProbeView>, path: PathView, name: Seq<char>)
    -> bool {
    &&& index.contains_key(path)
    &&& index[path] matches ProbeView::Directory(record)
    &&& record.stored_name == name
}

/// The answers recorded for a list of entries: a later entry for a path
/// replaces an earlier one.
pub open spec fn answers(entries: Seq<(CandidatePath, Probe)>) -> Map<PathView, ProbeView>
    decreases entries.len(),
{
    if entries.len() == 0 {
        Map::empty()
    } else {
        answers(entries.drop_last()).insert(entries.last().0@, entries.last().1@)
    }
}

/// An entry for `path` at `k` with none after it is the answer for `path`.
proof fn lemma_answer_is_last_entry(entries: Seq<(CandidatePath, Probe)>, path: PathView, k: int)
    requires
        0 <= k < entries.len(),
        entries[k].0@ == path,
        forall|j: int| k < j < entries.len() ==> entries[j].0@ != path,
    ensures
        answers(entries).contains_key(path),
        answers(entries)[path] == entries[k].1@,
    decreases entries.len(),
{
    if k < entries.len() - 1 {
        lemma_answer_is_last_entry(entries.drop_last(), path, k);
    }
}

/// Where no entry is for `path`, the index holds no answer for it.
proof fn lemma_no_entry_no_answer(entries: Seq<(CandidatePath, Probe)>, path: PathView)
    requires
        forall|j: int| 0 <= j < entries.len() ==> entries[j].0@ != path,
    ensures
        !answers(entries).contains_key(path),
    decreases entries.len(),
{
    if entries.len() > 0 {
        lemma_no_entry_no_answer(entries.drop_last(), path);
    }
}

/// A record of probes, by path.
pub struct DirectoryIndex {
    entries: Vec<(CandidatePath, Probe)>,
}

impl View for DirectoryIndex {
    type V = Map<PathView, ProbeView>;

    closed spec fn view(&self) -> Map<PathView, ProbeView> {
        answers(self.entries@)
    }
}

impl DirectoryIndex {
    /// An index that holds no answer yet.
    pub fn new() -> (index: DirectoryIndex)
        ensures
            index@ == Map::<PathView, ProbeView>::empty(),
    {
        DirectoryIndex { entries: Vec::new() }
    }

    /// Records what the disk shows of `path`, in place of any earlier answer.
    pub fn record(&mut self, path: CandidatePath, probe: Probe)
        ensures
            final(self)@ == old(self)@.insert(path@, probe@),
    {
        let ghost before = self.entries@;
        self.entries.push((path, probe));
        assert(self.entries@.drop_last() =~= before);
    }

    /// The answer recorded for `path`, or `None` where there is none.
    pub fn lookup(&self, path: &CandidatePath) -> (answer: Option<&Probe>)
        ensures
            match answer {
                Some(probe) => self@.contains_key(path@) && self@[path@] == probe@,
                None => !self@.contains_key(path@),
            },
    {
        let mut i: usize = self.entries.len();
        while i > 0
            invariant
                i <= self.entries.len(),
                forall|j: int| i <= j < self.entries.len() ==> self.entries@[j].0@ != path@,
            decreases i,
        {
            i -= 1;
            if self.entries[i].0.same_as(path) {
                proof {
                    lemma_answer_is_last_entry(self.entries@, path@, i as int);
                }
                return Some(&self.entries[i].1);
            }
        }
        proof {
            lemma_no_entry_no_answer(self.entries@, path@);
        }
        None
    }

    /// Whether an answer is recorded for `path`.
    pub fn knows(&self, path: &CandidatePath) -> (known: bool)
        ensures
            known == self@.contains_key(path@),
    {
        self.lookup(path).is_some()
    }
}

} // verus!
