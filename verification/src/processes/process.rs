//! Processes and the table of all processes.
use vstd::prelude::*;
use std::collections::BTreeMap;
use super::vma::VMA;

verus! {

/// A process: its id and the name of the application it runs.
#[derive(Debug)]
pub struct Process {
    pub id: usize,
    pub name: String,
}

/// Hands out process ids in increasing order, starting at 1.
pub struct PidCounter {
    next: usize,
}

impl PidCounter {
    /// The id the next process gets.
    pub closed spec fn spec_next(&self) -> usize {
        self.next
    }

    /// A counter whose first id is 1.
    pub fn new() -> (r: PidCounter)
        ensures
            r.spec_next() == 1,
    {
        PidCounter { next: 1 }
    }

    /// Takes the next id; the counter wraps around at `usize::MAX`.
    pub fn fetch_next(&mut self) -> (r: usize)
        ensures
            r == old(self).spec_next(),
            final(self).spec_next() == (if old(self).spec_next() == usize::MAX {
                0
            } else {
                (old(self).spec_next() + 1) as usize
            }),
    {
        let r = self.next;
        self.next = self.next.wrapping_add(1);
        r
    }
}

impl Process {
    /// A new process running the application `name`, with the next free id.
    pub fn new(pids: &mut PidCounter, name: &str) -> (r: Process)
        ensures
            r.id == old(pids).spec_next(),
            r.name@ == name@,
            final(pids).spec_next() == (if old(pids).spec_next() == usize::MAX {
                0
            } else {
                (old(pids).spec_next() + 1) as usize
            }),
    {
        let pid = pids.fetch_next();
        Process { id: pid, name: name.to_string() }
    }
}

/// All processes, by id.
pub struct ProcessTable {
    processes: BTreeMap<usize, Process>,
}

impl ProcessTable {
    /// The processes by id.
    pub closed spec fn processes(&self) -> Map<usize, Process> {
        self.processes@
    }

    /// An empty table.
    pub fn new() -> (r: ProcessTable)
        ensures
            r.processes() == Map::<usize, Process>::empty(),
    {
        ProcessTable { processes: BTreeMap::new() }
    }
}

/// Adds `process` to the table, replacing a process with the same id.
pub fn add_process(table: &mut ProcessTable, process: Process)
    ensures
        final(table).processes() == old(table).processes().insert(process.id, process),
{
    let id = process.id;
    table.processes.insert(id, process);
}

/// Removes the process with id `process_id` from the table.
pub fn remove_process(table: &mut ProcessTable, process_id: usize)
    ensures
        final(table).processes() == old(table).processes().remove(process_id),
{
    table.processes.remove(&process_id);
}

/// The name of the application the process `process_id` runs, if the process exists.
pub fn get_app_name(table: &ProcessTable, process_id: usize) -> (r: Option<String>)
    ensures
        match r {
            Some(name) => table.processes().contains_key(process_id) && name@
                == table.processes()[process_id].name@,
            None => !table.processes().contains_key(process_id),
        },
{
    let process = table.processes.get(&process_id);
    match process {
        None => None,
        Some(p) => Some(p.name.clone()),
    }
}

/// Adds a VMA to a process. Processes hold no areas yet, so the process is
/// never found and the table stays as it is.
pub fn add_vma(table: &mut ProcessTable, process_id: usize, vma: VMA) -> (r: Result<(), &'static str>)
    ensures
        final(table).processes() == old(table).processes(),
        r matches Err(msg) && msg@ == "Process not found"@,
{
    Err("Process not found")
}

/// Law: a process added to the table is found by its id, with its name,
/// until it is removed; after removal its id is not found.
pub proof fn law_add_then_get(t0: ProcessTable, t1: ProcessTable, t2: ProcessTable, p: Process)
    requires
        t1.processes() == t0.processes().insert(p.id, p),
        t2.processes() == t1.processes().remove(p.id),
    ensures
        t1.processes().contains_key(p.id),
        t1.processes()[p.id].name@ == p.name@,
        !t2.processes().contains_key(p.id),
{
}

/// Law: two processes made one after the other from the same counter get
/// different ids.
pub proof fn law_new_pids_differ(c0: PidCounter, c1: PidCounter, c2: PidCounter, p1: Process, p2: Process)
    requires
        p1.id == c0.spec_next(),
        c1.spec_next() == (if c0.spec_next() == usize::MAX {
            0
        } else {
            (c0.spec_next() + 1) as usize
        }),
        p2.id == c1.spec_next(),
    ensures
        p1.id != p2.id,
{
}

} // verus!
