//! The process table: one record for every process the supervisor has seen.
//!
//! The table is a finite map from process id to record. Records are created
//! for the root tracee and for every descendant that a fork-class event
//! announces; they are changed in place and never removed, so that the whole
//! tree is still there when the report is drawn up.

use std::collections::HashMap;
use vstd::prelude::*;
use vstd::std_specs::iter::IteratorSpec;

verus! {

broadcast use vstd::std_specs::hash::group_hash_axioms;

/// What the supervisor knows of one observed process.
#[derive(Debug, Clone)]
pub struct ProcInfo {
    /// Whether the process has been seen to terminate, or has been detached.
    pub exited: bool,
    /// The children of the process, in the order in which they were discovered.
    pub children: Vec<i32>,
    /// The resident set size in bytes, as read just before the process went away.
    pub rss: u64,
}

/// The mathematical value of a [`ProcInfo`].
pub struct Record {
    pub exited: bool,
    pub children: Seq<i32>,
    pub rss: u64,
}

impl Record {
    /// The record of a process that has just been discovered.
    pub open spec fn fresh() -> Record {
        Record { exited: false, children: Seq::empty(), rss: 0 }
    }

    /// This record, marked as exited.
    pub open spec fn gone(self) -> Record {
        Record { exited: true, ..self }
    }

    /// This record, with `bytes` as its memory reading.
    pub open spec fn measured(self, bytes: u64) -> Record {
        Record { rss: bytes, ..self }
    }

    /// This record, with `child` added behind the children known so far.
    pub open spec fn parent_of(self, child: i32) -> Record {
        Record { children: self.children.push(child), ..self }
    }
}

impl View for ProcInfo {
    type V = Record;

    open spec fn view(&self) -> Record {
        Record { exited: self.exited, children: self.children@, rss: self.rss }
    }
}

impl Default for ProcInfo {
    fn default() -> (info: ProcInfo)
        ensures
            info@ == Record::fresh(),
    {
        ProcInfo { exited: false, children: Vec::new(), rss: 0 }
    }
}

/// `table` with the record of `id` replaced by `f` of it; unchanged where
/// `id` has no record.
pub open spec fn amend(table: Map<i32, Record>, id: i32, f: spec_fn(Record) -> Record) -> Map<
    i32,
    Record,
> {
    if table.contains_key(id) {
        table.insert(id, f(table[id]))
    } else {
        table
    }
}

/// Every record of `table` is marked as exited.
pub open spec fn all_gone(table: Map<i32, Record>) -> bool {
    forall|id: i32| table.contains_key(id) ==> (#[trigger] table[id]).exited
}

/// `id` has a record in `table` that is not yet marked as exited.
pub open spec fn alive(table: Map<i32, Record>, id: i32) -> bool {
    table.contains_key(id) && !table[id].exited
}

/// `ids` lists the ids of `table` that are still alive, each of them once.
pub open spec fn lists_alive(table: Map<i32, Record>, ids: Seq<i32>) -> bool {
    &&& ids.no_duplicates()
    &&& forall|id: i32| ids.contains(id) <==> alive(table, id)
}

/// The process table.
pub struct ProcTable {
    procs: HashMap<i32, ProcInfo>,
}

impl View for ProcTable {
    type V = Map<i32, Record>;

    closed spec fn view(&self) -> Map<i32, Record> {
        self.procs@.map_values(|info: ProcInfo| info@)
    }
}

impl ProcTable {
    /// A table of this type never holds more records than memory has room for.
    pub proof fn lemma_finite(&self)
        ensures
            self@.dom().finite(),
            self@.dom().len() <= usize::MAX,
    {
        assert(self@.dom() =~= self.procs@.dom());
        assert(self.procs.len() == self.procs@.dom().len());
    }

    /// The empty table.
    pub fn new() -> (table: ProcTable)
        ensures
            table@ == Map::<i32, Record>::empty(),
    {
        let table = ProcTable { procs: HashMap::new() };
        assert(table@ =~= Map::<i32, Record>::empty());
        table
    }

    /// The number of records.
    pub fn len(&self) -> (n: usize)
        ensures
            n == self@.dom().len(),
    {
        assert(self@.dom() =~= self.procs@.dom());
        self.procs.len()
    }

    /// Whether `id` has a record.
    pub fn contains(&self, id: i32) -> (found: bool)
        ensures
            found == self@.contains_key(id),
    {
        self.procs.contains_key(&id)
    }

    /// The record of `id`, if it has one.
    pub fn get(&self, id: i32) -> (info: Option<&ProcInfo>)
        ensures
            match info {
                Some(info) => self@.contains_key(id) && info@ == self@[id],
                None => !self@.contains_key(id),
            },
    {
        self.procs.get(&id)
    }

    /// Gives `id` the record of a newly discovered process. A record that
    /// `id` had before is replaced.
    pub fn insert_new(&mut self, id: i32)
        ensures
            final(self)@ == old(self)@.insert(id, Record::fresh()),
    {
        self.procs.insert(id, ProcInfo::default());
        assert(self@ =~= old(self)@.insert(id, Record::fresh()));
    }

    /// Marks the record of `id` as exited. Without such a record nothing changes.
    pub fn mark_exited(&mut self, id: i32)
        ensures
            final(self)@ == amend(old(self)@, id, |r: Record| r.gone()),
    {
        match self.procs.remove(&id) {
            Some(info) => {
                let ProcInfo { exited: _, children, rss } = info;
                self.procs.insert(id, ProcInfo { exited: true, children, rss });
            },
            None => {},
        }
        assert(self@ =~= amend(old(self)@, id, |r: Record| r.gone()));
    }

    /// Stores `bytes` as the memory reading of `id`. Without a record of `id`
    /// nothing changes.
    pub fn record_rss(&mut self, id: i32, bytes: u64)
        ensures
            final(self)@ == amend(old(self)@, id, |r: Record| r.measured(bytes)),
    {
        match self.procs.remove(&id) {
            Some(info) => {
                let ProcInfo { exited, children, rss: _ } = info;
                self.procs.insert(id, ProcInfo { exited, children, rss: bytes });
            },
            None => {},
        }
        assert(self@ =~= amend(old(self)@, id, |r: Record| r.measured(bytes)));
    }

    /// Adds `child` behind the children of `parent`. Without a record of
    /// `parent` nothing changes.
    pub fn append_child(&mut self, parent: i32, child: i32)
        ensures
            final(self)@ == amend(old(self)@, parent, |r: Record| r.parent_of(child)),
    {
        match self.procs.remove(&parent) {
            Some(info) => {
                let ProcInfo { exited, children, rss } = info;
                let mut children = children;
                children.push(child);
                self.procs.insert(parent, ProcInfo { exited, children, rss });
            },
            None => {},
        }
        assert(self@ =~= amend(old(self)@, parent, |r: Record| r.parent_of(child)));
    }

    /// The ids that have a record, each of them once, in no particular order.
    pub fn ids(&self) -> (out: Vec<i32>)
        ensures
            out@.no_duplicates(),
            out@.to_set() == self@.dom(),
            out@.len() == self@.dom().len(),
    {
        let mut out: Vec<i32> = Vec::new();
        for id in it: self.procs.keys()
            invariant
                it.seq() == self.procs.keys().remaining(),
                out@.len() == it.index(),
                forall|j: int| 0 <= j < it.index() ==> out@[j] == *(#[trigger] it.seq()[j]),
        {
            out.push(*id);
        }
        proof {
            assert(out@ =~= self.procs.keys().remaining().unref());
            assert(self@.dom() =~= self.procs@.dom());
        }
        out
    }

    /// Whether every record is marked as exited.
    pub fn all_exited(&self) -> (done: bool)
        ensures
            done == all_gone(self@),
    {
        let ids = self.ids();
        let mut i: usize = 0;
        while i < ids.len()
            invariant
                i <= ids.len(),
                ids@.to_set() == self@.dom(),
                forall|j: int| 0 <= j < i ==> (#[trigger] self@[ids@[j]]).exited,
            decreases ids.len() - i,
        {
            let id = ids[i];
            assert(ids@.to_set().contains(id));
            match self.get(id) {
                Some(info) => {
                    if !info.exited {
                        return false;
                    }
                },
                None => {},
            }
            i += 1;
        }
        proof {
            assert forall|id: i32| self@.contains_key(id) implies (#[trigger] self@[id]).exited by {
                assert(ids@.to_set().contains(id));
                let j = choose|j: int| 0 <= j < ids@.len() && ids@[j] == id;
                assert(self@[ids@[j]].exited);
            }
        }
        true
    }

    /// The ids whose records are not yet marked as exited, each of them once,
    /// in no particular order.
    pub fn alive_ids(&self) -> (out: Vec<i32>)
        ensures
            lists_alive(self@, out@),
    {
        let ids = self.ids();
        let mut out: Vec<i32> = Vec::new();
        let mut i: usize = 0;
        while i < ids.len()
            invariant
                i <= ids.len(),
                ids@.no_duplicates(),
                ids@.to_set() == self@.dom(),
                out@.no_duplicates(),
                forall|id: i32|
                    out@.contains(id) <==> (exists|j: int|
                        0 <= j < i && #[trigger] ids@[j] == id && alive(self@, id)),
            decreases ids.len() - i,
        {
            let id = ids[i];
            assert(ids@.to_set().contains(id));
            let live = match self.get(id) {
                Some(info) => !info.exited,
                None => false,
            };
            if live {
                proof {
                    if out@.contains(id) {
                        let j = choose|j: int| 0 <= j < i && ids@[j] == id && alive(self@, id);
                        assert(ids@[j] == ids@[i as int]);
                    }
                }
                let ghost before = out@;
                out.push(id);
                proof {
                    assert(out@ == before.push(id));
                    assert forall|x: i32|
                        out@.contains(x) <==> (exists|j: int|
                            0 <= j < i + 1 && #[trigger] ids@[j] == x && alive(self@, x)) by {
                        if out@.contains(x) {
                            let k = choose|k: int| 0 <= k < out@.len() && out@[k] == x;
                            if k < before.len() {
                                assert(before[k] == x);
                                assert(before.contains(x));
                                let j = choose|j: int|
                                    0 <= j < i && ids@[j] == x && alive(self@, x);
                                assert(0 <= j < i + 1 && ids@[j] == x && alive(self@, x));
                            } else {
                                assert(x == id);
                                assert(ids@[i as int] == x);
                            }
                        }
                        if exists|j: int| 0 <= j < i + 1 && #[trigger] ids@[j] == x && alive(self@, x) {
                            let j = choose|j: int|
                                0 <= j < i + 1 && #[trigger] ids@[j] == x && alive(self@, x);
                            if j < i {
                                assert(before.contains(x));
                                let k = choose|k: int| 0 <= k < before.len() && before[k] == x;
                                assert(out@[k] == x);
                            } else {
                                assert(out@[before.len() as int] == x);
                            }
                        }
                    }
                }
            } else {
                proof {
                    assert forall|x: i32|
                        out@.contains(x) <==> (exists|j: int|
                            0 <= j < i + 1 && #[trigger] ids@[j] == x && alive(self@, x)) by {
                        if out@.contains(x) {
                            let j = choose|j: int|
                                0 <= j < i && ids@[j] == x && alive(self@, x);
                            assert(0 <= j < i + 1 && ids@[j] == x && alive(self@, x));
                        }
                        if exists|j: int| 0 <= j < i + 1 && #[trigger] ids@[j] == x && alive(self@, x) {
                            let j = choose|j: int|
                                0 <= j < i + 1 && #[trigger] ids@[j] == x && alive(self@, x);
                            assert(j < i);
                        }
                    }
                }
            }
            i += 1;
        }
        proof {
            assert forall|id: i32| out@.contains(id) <==> alive(self@, id) by {
                if alive(self@, id) {
                    assert(ids@.to_set().contains(id));
                    let j = choose|j: int| 0 <= j < ids@.len() && ids@[j] == id;
                    assert(0 <= j < i && ids@[j] == id && alive(self@, id));
                }
            }
        }
        out
    }
}

} // verus!
