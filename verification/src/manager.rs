//! The farm controller's job manager: one entry per port label,
//! accumulating telemetry and raw serial logs.

use vstd::prelude::*;
use crate::expect::copy_range;
use crate::job::{JobData, JobDataV};
use crate::status::JobUpdate;

verus! {

/// One port as the controller sees it: its job record and the raw serial
/// log captured since the last `JobStart`.
#[derive(Debug)]
pub struct PortManagerEntry {
    pub data: JobData,
    pub log_buffer: Vec<u8>,
}

impl Clone for PortManagerEntry {
    fn clone(&self) -> (r: Self)
        ensures
            r.data@ == self.data@,
            r.log_buffer@ == self.log_buffer@,
    {
        PortManagerEntry {
            data: self.data.clone(),
            log_buffer: copy_range(&self.log_buffer, 0, self.log_buffer.len()),
        }
    }
}

/// The first entry whose record carries this label.
pub open spec fn spec_entry_index(ports: Seq<PortManagerEntry>, label: Seq<char>) -> Option<int>
    decreases ports.len(),
{
    if ports.len() == 0 {
        None
    } else if ports.first().data.label@ == label {
        Some(0)
    } else {
        match spec_entry_index(ports.drop_first(), label) {
            Some(i) => Some(i + 1),
            None => None,
        }
    }
}

proof fn lemma_entry_index(ports: Seq<PortManagerEntry>, label: Seq<char>)
    ensures
        match spec_entry_index(ports, label) {
            Some(i) => 0 <= i < ports.len() && ports[i].data.label@ == label && (forall|j: int|
                0 <= j < i ==> ports[j].data.label@ != label),
            None => forall|j: int| 0 <= j < ports.len() ==> ports[j].data.label@ != label,
        },
    decreases ports.len(),
{
    if ports.len() > 0 {
        lemma_entry_index(ports.drop_first(), label);
        let rest = ports.drop_first();
        assert(forall|j: int| 0 <= j < rest.len() ==> #[trigger] rest[j] == ports[j + 1]);
        if ports.first().data.label@ != label {
            match spec_entry_index(rest, label) {
                Some(i) => {
                    assert forall|j: int| 0 <= j < i + 1 implies ports[j].data.label@ != label by {
                        if j > 0 {
                            assert(rest[j - 1].data.label@ != label);
                        }
                    }
                },
                None => {
                    assert forall|j: int|
                        0 <= j < ports.len() implies ports[j].data.label@ != label by {
                        if j > 0 {
                            assert(rest[j - 1].data.label@ != label);
                        }
                    }
                },
            }
        }
    }
}

/// The controller's port table.
#[derive(Debug)]
pub struct JobManager {
    pub ports: Vec<PortManagerEntry>,
}

impl JobManager {
    pub fn new() -> (r: JobManager)
        ensures
            r.ports@ =~= Seq::<PortManagerEntry>::empty(),
    {
        JobManager { ports: Vec::new() }
    }

    /// The index of the entry for `port_label`, appending a fresh entry
    /// when none exists yet.
    #[verifier::loop_isolation(false)]
    pub fn get_port_mut(&mut self, port_label: &str) -> (r: usize)
        ensures
            ({
                match spec_entry_index(old(self).ports@, port_label@) {
                    Some(i) => r == i && final(self).ports@ == old(self).ports@,
                    None => {
                        &&& r == old(self).ports@.len()
                        &&& final(self).ports@.len() == old(self).ports@.len() + 1
                        &&& forall|j: int|
                            0 <= j < old(self).ports@.len() ==> final(self).ports@[j] == old(
                                self,
                            ).ports@[j]
                        &&& final(self).ports@.last().data@ == JobDataV::fresh(port_label@)
                        &&& final(self).ports@.last().log_buffer@ =~= Seq::<u8>::empty()
                    },
                }
            }),
            r < final(self).ports@.len(),
            final(self).ports@[r as int].data.label@ == port_label@,
    {
        proof {
            lemma_entry_index(self.ports@, port_label@);
        }
        let n = self.ports.len();
        for i in 0..n
            invariant
                n == self.ports@.len(),
                self.ports@ == old(self).ports@,
                forall|j: int| 0 <= j < i ==> self.ports@[j].data.label@ != port_label@,
        {
            if self.ports[i].data.label == String::from_str(port_label) {
                return i;
            }
        }
        let entry = PortManagerEntry {
            data: JobData::with_label(port_label),
            log_buffer: Vec::new(),
        };
        self.ports.push(entry);
        n
    }

    /// A copy of every entry.
    pub fn get_ports(&self) -> (r: Vec<PortManagerEntry>)
        ensures
            r@.len() == self.ports@.len(),
            forall|i: int|
                0 <= i < r@.len() ==> (#[trigger] r@[i]).data@ == self.ports@[i].data@
                    && r@[i].log_buffer@ == self.ports@[i].log_buffer@,
    {
        let mut r: Vec<PortManagerEntry> = Vec::new();
        let n = self.ports.len();
        for i in 0..n
            invariant
                n == self.ports@.len(),
                r@.len() == i,
                forall|j: int|
                    0 <= j < i ==> (#[trigger] r@[j]).data@ == self.ports@[j].data@
                        && r@[j].log_buffer@ == self.ports@[j].log_buffer@,
        {
            r.push(self.ports[i].clone());
        }
        r
    }

    /// A copy of the entry for `label`, if any.
    #[verifier::loop_isolation(false)]
    pub fn get_port(&self, label: &str) -> (r: Option<PortManagerEntry>)
        ensures
            match r {
                Some(e) => spec_entry_index(self.ports@, label@) matches Some(i) && e.data@
                    == self.ports@[i].data@ && e.log_buffer@ == self.ports@[i].log_buffer@,
                None => spec_entry_index(self.ports@, label@) is None,
            },
    {
        proof {
            lemma_entry_index(self.ports@, label@);
        }
        let n = self.ports.len();
        for i in 0..n
            invariant
                n == self.ports@.len(),
                forall|j: int| 0 <= j < i ==> self.ports@[j].data.label@ != label@,
        {
            if self.ports[i].data.label == String::from_str(label) {
                return Some(self.ports[i].clone());
            }
        }
        None
    }

    /// Appends captured serial bytes to the entry for `port_label`,
    /// creating it if needed.
    pub fn append_log_data(&mut self, port_label: &str, chunk: &[u8])
        ensures
            ({
                match spec_entry_index(old(self).ports@, port_label@) {
                    Some(i) => {
                        &&& final(self).ports@.len() == old(self).ports@.len()
                        &&& forall|j: int|
                            0 <= j < old(self).ports@.len() && j != i ==> final(self).ports@[j]
                                == old(self).ports@[j]
                        &&& final(self).ports@[i].data@ == old(self).ports@[i].data@
                        &&& final(self).ports@[i].log_buffer@ == old(
                            self,
                        ).ports@[i].log_buffer@ + chunk@
                    },
                    None => {
                        &&& final(self).ports@.len() == old(self).ports@.len() + 1
                        &&& forall|j: int|
                            0 <= j < old(self).ports@.len() ==> final(self).ports@[j] == old(
                                self,
                            ).ports@[j]
                        &&& final(self).ports@.last().data@ == JobDataV::fresh(port_label@)
                        &&& final(self).ports@.last().log_buffer@ == chunk@
                    },
                }
            }),
    {
        let idx = self.get_port_mut(port_label);
        let ghost pre = self.ports@;
        let mut entry = self.ports.remove(idx);
        let ghost e0 = entry;
        let n = chunk.len();
        for k in 0..n
            invariant
                n == chunk@.len(),
                entry.data == e0.data,
                entry.log_buffer@ =~= e0.log_buffer@ + chunk@.subrange(0, k as int),
        {
            entry.log_buffer.push(chunk[k]);
            proof {
                assert(entry.log_buffer@ =~= e0.log_buffer@ + chunk@.subrange(0, k as int + 1));
            }
        }
        proof {
            assert(entry.log_buffer@ =~= e0.log_buffer@ + chunk@);
        }
        self.ports.insert(idx, entry);
        proof {
            assert(forall|j: int|
                0 <= j < pre.len() && j != idx ==> final(self).ports@[j] == pre[j]);
            assert(Seq::<u8>::empty() + chunk@ =~= chunk@);
        }
    }

    /// Merges one telemetry message for `port_label`, creating the entry
    /// if needed. A fresh `JobStart` clears the captured log first.
    pub fn accept_update(&mut self, port_label: &str, u: JobUpdate)
        ensures
            ({
                match spec_entry_index(old(self).ports@, port_label@) {
                    Some(i) => {
                        &&& final(self).ports@.len() == old(self).ports@.len()
                        &&& forall|j: int|
                            0 <= j < old(self).ports@.len() && j != i ==> final(self).ports@[j]
                                == old(self).ports@[j]
                        &&& final(self).ports@[i].data@ == old(self).ports@[i].data@.spec_update(
                            u@,
                        )
                        &&& final(self).ports@[i].log_buffer@ == (if u is JobStart {
                            Seq::<u8>::empty()
                        } else {
                            old(self).ports@[i].log_buffer@
                        })
                    },
                    None => {
                        &&& final(self).ports@.len() == old(self).ports@.len() + 1
                        &&& forall|j: int|
                            0 <= j < old(self).ports@.len() ==> final(self).ports@[j] == old(
                                self,
                            ).ports@[j]
                        &&& final(self).ports@.last().data@ == JobDataV::fresh(
                            port_label@,
                        ).spec_update(u@)
                        &&& final(self).ports@.last().log_buffer@ =~= Seq::<u8>::empty()
                    },
                }
            }),
    {
        let idx = self.get_port_mut(port_label);
        let ghost pre = self.ports@;
        let is_start = matches!(&u, JobUpdate::JobStart(_));
        let mut entry = self.ports.remove(idx);
        if is_start {
            entry.log_buffer = Vec::new();
        }
        entry.data.update(u);
        self.ports.insert(idx, entry);
        proof {
            assert(final(self).ports@[idx as int].log_buffer@ =~= (if is_start {
                Seq::<u8>::empty()
            } else {
                pre[idx as int].log_buffer@
            }));
        }
    }
}

} // verus!
