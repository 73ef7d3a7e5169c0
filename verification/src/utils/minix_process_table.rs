//! The process table: one slot for each endpoint.

use std::collections::BTreeMap;
use super::endpoint::Endpoint;
use super::minix_process::{MinixProcess, ProcessView};
use super::minix_shared::SharedImage;
use vstd::prelude::*;

verus! {

/// Number of slots of the process table.
pub const MAX_PROCESSES: usize = 256;

/// What the contracts say of the table: for each slot the process in it.
pub type TableView = Seq<Option<ProcessView>>;

/// `endpoint` names a slot and a process is in it.
pub open spec fn present(t: TableView, endpoint: Endpoint) -> bool {
    0 <= endpoint < t.len() && t[endpoint as int] is Some
}

/// The process at `endpoint`.
pub open spec fn proc(t: TableView, endpoint: Endpoint) -> ProcessView {
    t[endpoint as int]->0
}

/// The table with the process `p` at `endpoint`.
pub open spec fn put(t: TableView, endpoint: Endpoint, p: ProcessView) -> TableView {
    t.update(endpoint as int, Some(p))
}

/// A slot without a process.
pub fn vacant(_index: usize) -> (slot: Option<MinixProcess>)
    ensures
        slot is None,
{
    None
}

/// Calls `array_init::array_init` with `vacant`, which makes an array by one
/// call of its argument for each index. Of that array the contract says that
/// every slot of it is what `vacant` returns: empty.
#[verifier::external_body]
fn empty_slots() -> (slots: [Option<MinixProcess>; MAX_PROCESSES])
    ensures
        forall|i: int| 0 <= i < MAX_PROCESSES ==> slots@[i] is None,
{
    array_init::array_init(vacant)
}

/// All guests, by endpoint, and the endpoint of each host process.
pub struct MinixProcessTable {
    table: [Option<MinixProcess>; MAX_PROCESSES],
    pid_map: BTreeMap<i32, Endpoint>,
    usermapped: SharedImage,
}

impl View for MinixProcessTable {
    type V = TableView;

    closed spec fn view(&self) -> TableView {
        Seq::new(
            MAX_PROCESSES as nat,
            |i: int|
                match self.table@[i] {
                    Some(p) => Some(p@),
                    None => None,
                },
        )
    }
}

impl MinixProcessTable {
    /// The endpoint under which each host process was entered.
    pub closed spec fn pids(&self) -> Map<i32, Endpoint> {
        self.pid_map@
    }

    /// What the shared kernel information page holds.
    pub closed spec fn shared(&self) -> SharedImage {
        self.usermapped
    }

    /// What the shared kernel information page holds.
    pub fn usermapped(&self) -> (image: &SharedImage)
        ensures
            *image == self.shared(),
    {
        &self.usermapped
    }

    /// The table has `MAX_PROCESSES` slots.
    pub broadcast proof fn lemma_len(&self)
        ensures
            #[trigger] self@.len() == MAX_PROCESSES,
    {
    }

    /// A table without processes.
    pub fn new() -> (t: Self)
        ensures
            t@ == Seq::new(MAX_PROCESSES as nat, |i: int| None::<ProcessView>),
            t.pids() == Map::<i32, Endpoint>::empty(),
            t.shared() == SharedImage::initial(),
    {
        let t = Self {
            table: empty_slots(),
            pid_map: BTreeMap::new(),
            usermapped: SharedImage::default(),
        };
        proof {
            assert(t@ =~= Seq::new(MAX_PROCESSES as nat, |i: int| None::<ProcessView>));
        }
        t
    }

    /// The process at `endpoint`, if there is one.
    pub fn get(&self, endpoint: Endpoint) -> (r: Option<&MinixProcess>)
        ensures
            match r {
                Some(p) => present(self@, endpoint) && p@ == proc(self@, endpoint),
                None => !present(self@, endpoint),
            },
    {
        if 0 <= endpoint && endpoint < MAX_PROCESSES as i32 {
            self.table[endpoint as usize].as_ref()
        } else {
            None
        }
    }

    /// The process at `endpoint`, to be changed in place.
    pub fn get_mut(&mut self, endpoint: Endpoint) -> (r: Option<&mut MinixProcess>)
        ensures
            match r {
                Some(p) => {
                    &&& present(old(self)@, endpoint)
                    &&& p@ == proc(old(self)@, endpoint)
                    &&& final(self)@ =~= put(old(self)@, endpoint, final(p)@)
                },
                None => !present(old(self)@, endpoint) && final(self)@ =~= old(self)@,
            },
            final(self).pids() == old(self).pids(),
            final(self).shared() == old(self).shared(),
    {
        if 0 <= endpoint && endpoint < MAX_PROCESSES as i32 {
            match &mut self.table[endpoint as usize] {
                Some(p) => Some(p),
                None => None,
            }
        } else {
            None
        }
    }

    /// The endpoint under which the host process `pid` was entered.
    pub fn pid_to_endpoint(&self, pid: i32) -> (r: Option<Endpoint>)
        ensures
            r == (if self.pids().dom().contains(pid) {
                Some(self.pids()[pid])
            } else {
                None
            }),
    {
        match self.pid_map.get(&pid) {
            Some(e) => Some(*e),
            None => None,
        }
    }

    /// The process entered for the host process `pid`.
    pub fn get_by_pid(&self, pid: i32) -> (r: Option<&MinixProcess>)
        ensures
            match r {
                Some(p) => {
                    &&& self.pids().dom().contains(pid)
                    &&& present(self@, self.pids()[pid])
                    &&& p@ == proc(self@, self.pids()[pid])
                },
                None => !(self.pids().dom().contains(pid) && present(self@, self.pids()[pid])),
            },
    {
        match self.pid_to_endpoint(pid) {
            Some(e) => self.get(e),
            None => None,
        }
    }

    /// Enters `process` at `endpoint`. Fails, and leaves the table as it is,
    /// where `endpoint` names no slot or the slot is taken.
    pub fn insert(&mut self, process: MinixProcess, endpoint: Endpoint) -> (r: Result<(), ()>)
        ensures
            r is Ok <==> 0 <= endpoint < MAX_PROCESSES && !present(old(self)@, endpoint),
            r is Ok ==> final(self)@ == put(old(self)@, endpoint, process@) && final(self).pids()
                == old(self).pids().insert(process@.pid, endpoint),
            r is Err ==> final(self)@ == old(self)@ && final(self).pids() == old(self).pids(),
            final(self).shared() == old(self).shared(),
    {
        if !(0 <= endpoint && endpoint < MAX_PROCESSES as i32) {
            return Err(());
        }
        let idx: usize = endpoint as usize;
        if self.table[idx].is_some() {
            return Err(());
        }
        let pid: i32 = process.pid();
        self.table[idx] = Some(process);
        self.pid_map.insert(pid, endpoint);
        proof {
            assert(self@ =~= put(old(self)@, endpoint, process@));
        }
        Ok(())
    }

    /// Takes the process at `endpoint` out of the table.
    pub fn remove(&mut self, endpoint: Endpoint) -> (r: Option<MinixProcess>)
        ensures
            match r {
                Some(p) => {
                    &&& present(old(self)@, endpoint)
                    &&& p@ == proc(old(self)@, endpoint)
                    &&& final(self)@ == old(self)@.update(endpoint as int, None)
                    &&& final(self).pids() == old(self).pids().remove(p@.pid)
                },
                None => {
                    &&& !present(old(self)@, endpoint)
                    &&& final(self)@ == old(self)@
                    &&& final(self).pids() == old(self).pids()
                },
            },
            final(self).shared() == old(self).shared(),
    {
        if !(0 <= endpoint && endpoint < MAX_PROCESSES as i32) {
            return None;
        }
        let idx: usize = endpoint as usize;
        let process = self.table[idx].take();
        match process {
            Some(p) => {
                self.pid_map.remove(&p.pid);
                proof {
                    assert(self@ =~= old(self)@.update(endpoint as int, None));
                }
                Some(p)
            },
            None => {
                proof {
                    assert(self@ =~= old(self)@);
                }
                None
            },
        }
    }

    /// Takes every process out of the table.
    pub fn clear(&mut self)
        ensures
            final(self)@ == Seq::new(MAX_PROCESSES as nat, |i: int| None::<ProcessView>),
            final(self).shared() == old(self).shared(),
    {
        let mut i: usize = 0;
        while i < MAX_PROCESSES
            invariant
                i <= MAX_PROCESSES,
                self.shared() == old(self).shared(),
                forall|j: int| 0 <= j < i ==> self@[j] is None,
            decreases MAX_PROCESSES - i,
        {
            let ghost before = self@;
            let _ = self.remove(i as Endpoint);
            i = i + 1;
        }
        proof {
            assert(self@ =~= Seq::new(MAX_PROCESSES as nat, |i: int| None::<ProcessView>));
        }
    }
}

/// Indexing by an endpoint is for endpoints that are known to have a
/// process.
impl vstd::std_specs::core::IndexSpecImpl<Endpoint> for MinixProcessTable {
    open spec fn index_req(&self, index: &Endpoint) -> bool {
        present(self@, *index)
    }
}

impl core::ops::Index<Endpoint> for MinixProcessTable {
    type Output = MinixProcess;

    /// The process at `index`, which has to be there.
    fn index(&self, index: Endpoint) -> (r: &MinixProcess)
        ensures
            r@ == proc(self@, index),
    {
        self.get(index).unwrap()
    }
}

} // verus!
