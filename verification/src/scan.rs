//! The scan coordinator: the executable state machine behind a port scan.

use crate::model::{Action, Probe, ScanModel};
use crate::ports::PORT_COUNT;
use vstd::prelude::*;

verus! {

/// The concurrency limit of a scan whose caller names none.
pub const DEFAULT_CONCURRENCY: usize = 100;

/// Why a scan refused a request.
#[derive(Clone, Copy, Debug, PartialEq, Eq)]
pub enum ScanError {
    /// A concurrency limit of zero was asked for: no probe could ever start.
    ZeroConcurrency,
    /// An outcome was reported for a port that has no probe in flight.
    NotInFlight,
}

/// The limit that a caller's choice stands for: the choice itself, or
/// `DEFAULT_CONCURRENCY` where the caller made none.
pub open spec fn effective_limit(concurrency: Option<usize>) -> nat {
    match concurrency {
        Some(limit) => limit as nat,
        None => DEFAULT_CONCURRENCY as nat,
    }
}

/// Resolves a caller's choice of concurrency limit. A limit of zero is
/// refused, never replaced by another value.
pub fn concurrency_limit(concurrency: Option<usize>) -> (limit: Result<usize, ScanError>)
    ensures
        concurrency == Some(0usize) ==> limit == Err::<usize, ScanError>(
            ScanError::ZeroConcurrency,
        ),
        concurrency != Some(0usize) ==> limit is Ok && limit->Ok_0 == effective_limit(concurrency),
{
    match concurrency {
        Some(0) => Err(ScanError::ZeroConcurrency),
        Some(limit) => Ok(limit),
        None => Ok(DEFAULT_CONCURRENCY),
    }
}

/// A running scan of one host: which candidates are launched, which probes
/// are in flight, and which ports were found open.
pub struct Scan {
    candidates: Vec<u16>,
    limit: usize,
    launched: usize,
    in_flight: Vec<u16>,
    open: Vec<u16>,
    seen: Vec<bool>,
    completed: Ghost<Seq<Probe>>,
}

impl View for Scan {
    type V = ScanModel;

    closed spec fn view(&self) -> ScanModel {
        ScanModel {
            candidates: self.candidates@,
            limit: self.limit as nat,
            launched: self.launched as nat,
            in_flight: self.in_flight@.to_multiset(),
            completed: self.completed@,
        }
    }
}

impl Scan {
    /// The stored list of open ports is the one that the record of outcomes
    /// gives, and the table of ports seen open marks exactly its ports.
    pub closed spec fn tracks_open_ports(&self) -> bool {
        &&& self.open@ == self@.open_ports()
        &&& self.seen@.len() == PORT_COUNT
        &&& forall|port: u16| self.seen@[port as int] == self.open@.contains(port)
    }

    /// The scan is in a state that `new`, `next_action` and `complete` can
    /// lead to.
    pub open spec fn wf(&self) -> bool {
        self@.wf() && self.tracks_open_ports()
    }

    /// Prepares a scan of `candidates` with at most `concurrency` probes in
    /// flight, or `DEFAULT_CONCURRENCY` where none is given. Nothing is
    /// launched yet.
    pub fn new(candidates: Vec<u16>, concurrency: Option<usize>) -> (scan: Result<Scan, ScanError>)
        ensures
            concurrency == Some(0usize) ==> scan is Err && scan->Err_0
                == ScanError::ZeroConcurrency,
            concurrency != Some(0usize) ==> scan is Ok && scan->Ok_0.wf() && scan->Ok_0@
                == ScanModel::start(candidates@, effective_limit(concurrency)),
    {
        match concurrency_limit(concurrency) {
            Err(error) => Err(error),
            Ok(limit) => {
                let scan = Scan {
                    candidates,
                    limit,
                    launched: 0,
                    in_flight: Vec::new(),
                    open: Vec::new(),
                    seen: vec![false; PORT_COUNT],
                    completed: Ghost(Seq::empty()),
                };
                proof {
                    broadcast use vstd::seq_lib::group_to_multiset_ensures;
                    broadcast use vstd::multiset::group_multiset_axioms;

                    ScanModel::lemma_start_wf(candidates@, limit as nat);
                    assert(scan@.in_flight =~= vstd::multiset::Multiset::empty());
                }
                Ok(scan)
            },
        }
    }

    /// Says what to do next and, where that is a launch, takes the slot: the
    /// port counts as in flight from this call on.
    pub fn next_action(&mut self) -> (action: Action)
        requires
            old(self).wf(),
        ensures
            final(self).wf(),
            action == old(self)@.next_action(),
            final(self)@ == old(self)@.after_next_action(),
    {
        proof {
            broadcast use vstd::seq_lib::group_to_multiset_ensures;

        }
        if self.launched < self.candidates.len() && self.in_flight.len() < self.limit {
            let port = self.candidates[self.launched];
            self.launched = self.launched + 1;
            self.in_flight.push(port);
            proof {
                old(self)@.lemma_launch_wf();
                assert(self@ == old(self)@.launch());
            }
            Action::Launch(port)
        } else if self.in_flight.len() > 0 {
            Action::Wait
        } else {
            Action::Done
        }
    }

    /// Records the outcome of the probe of `port` and frees its slot. The
    /// port joins the open ports at its first open report only. A port with
    /// no probe in flight is refused and changes nothing.
    pub fn complete(&mut self, port: u16, open: bool) -> (reported: Result<(), ScanError>)
        requires
            old(self).wf(),
        ensures
            final(self).wf(),
            old(self)@.in_flight.contains(port) ==> reported is Ok && final(self)@ == old(
                self,
            )@.complete(port, open),
            !old(self)@.in_flight.contains(port) ==> reported is Err && reported->Err_0
                == ScanError::NotInFlight && *final(self) == *old(self),
    {
        proof {
            broadcast use vstd::seq_lib::group_to_multiset_ensures;

        }
        match position(&self.in_flight, port) {
            None => Err(ScanError::NotInFlight),
            Some(slot) => {
                self.in_flight.remove(slot);
                if open && !self.seen[port as usize] {
                    self.open.push(port);
                    self.seen.set(port as usize, true);
                }
                self.completed = Ghost(self.completed@.push(Probe { port, open }));
                proof {
                    old(self)@.lemma_complete_wf(port, open);
                    assert(self@ == old(self)@.complete(port, open));
                    assert forall|other: u16|
                        self.seen@[other as int] == self.open@.contains(other) by {
                        if self.open@.len() > old(self).open@.len() {
                            vstd::seq_lib::lemma_seq_contains_after_push(
                                old(self).open@,
                                port,
                                other,
                            );
                        }
                    }
                }
                Ok(())
            },
        }
    }

    /// Whether every candidate has been probed and reported.
    pub fn is_done(&self) -> (done: bool)
        requires
            self.wf(),
        ensures
            done == self@.is_done(),
    {
        proof {
            broadcast use vstd::seq_lib::group_to_multiset_ensures;

        }
        self.launched == self.candidates.len() && self.in_flight.len() == 0
    }

    /// The most probes that the scan lets run at once.
    pub fn limit(&self) -> (limit: usize)
        requires
            self.wf(),
        ensures
            limit == self@.limit,
    {
        self.limit
    }

    /// How many probes are in flight.
    pub fn in_flight(&self) -> (count: usize)
        requires
            self.wf(),
        ensures
            count == self@.in_flight.len(),
            count <= self@.limit,
    {
        proof {
            broadcast use vstd::seq_lib::group_to_multiset_ensures;

        }
        self.in_flight.len()
    }

    /// How many candidates have not been launched yet.
    pub fn pending(&self) -> (count: usize)
        requires
            self.wf(),
        ensures
            count == self@.candidates.len() - self@.launched,
    {
        self.candidates.len() - self.launched
    }

    /// The ports found open, each once, in the order in which they were
    /// first reported open.
    pub fn into_open_ports(self) -> (ports: Vec<u16>)
        requires
            self.wf(),
        ensures
            ports@ == self@.open_ports(),
            ports@.no_duplicates(),
    {
        proof {
            crate::model::lemma_open_ports_of(self@.completed);
        }
        self.open
    }
}

/// The first index at which `port` stands in `ports`.
fn position(ports: &Vec<u16>, port: u16) -> (found: Option<usize>)
    ensures
        match found {
            Some(index) => index < ports.len() && ports[index as int] == port,
            None => !ports@.contains(port),
        },
{
    let mut index: usize = 0;
    while index < ports.len()
        invariant
            index <= ports.len(),
            forall|i: int| 0 <= i < index ==> ports[i] != port,
        decreases ports.len() - index,
    {
        if ports[index] == port {
            return Some(index);
        }
        index = index + 1;
    }
    None
}

} // verus!
