//! The scan as a mathematical state machine.
//!
//! A scan launches its candidates in order, never holding more probes in
//! flight than its limit, and records every reported outcome in the order in
//! which the reports arrive. The ports found open are read off that record:
//! each port on which some probe found a listener, once.

use vstd::multiset::Multiset;
use vstd::prelude::*;

verus! {

/// One finished connection attempt: the port that was tried and whether the
/// connection was established.
pub struct Probe {
    pub port: u16,
    pub open: bool,
}

/// What the caller of a scan has to do next.
#[derive(Clone, Copy, Debug, PartialEq, Eq)]
pub enum Action {
    /// Start a probe of this port. The scan already counts it as in flight.
    Launch(u16),
    /// Every free slot is taken or every candidate is launched, and probes
    /// are still running: report the next one that finishes.
    Wait,
    /// Every candidate has been probed and reported.
    Done,
}

/// The ports of a record of probes, in the order of the record.
pub open spec fn probed_ports(completed: Seq<Probe>) -> Seq<u16> {
    completed.map_values(|probe: Probe| probe.port)
}

/// Whether the record holds a probe of `port` that found a listener.
pub open spec fn reported_open(completed: Seq<Probe>, port: u16) -> bool {
    exists|i: int|
        0 <= i < completed.len() && (#[trigger] completed[i]).open && completed[i].port == port
}

/// The ports on which a probe of the record found a listener, each once, in
/// the order of the first such probe of each.
pub open spec fn open_ports_of(completed: Seq<Probe>) -> Seq<u16>
    decreases completed.len(),
{
    if completed.len() == 0 {
        Seq::empty()
    } else {
        let earlier = open_ports_of(completed.drop_last());
        let last = completed.last();
        if last.open && !earlier.contains(last.port) {
            earlier.push(last.port)
        } else {
            earlier
        }
    }
}

/// Recording one more probe appends its port to the probed ports, and to the
/// open ports exactly when it found a listener on a port not yet among them.
pub proof fn lemma_record_push(completed: Seq<Probe>, probe: Probe)
    ensures
        probed_ports(completed.push(probe)) == probed_ports(completed).push(probe.port),
        open_ports_of(completed.push(probe)) == if probe.open && !open_ports_of(
            completed,
        ).contains(probe.port) {
            open_ports_of(completed).push(probe.port)
        } else {
            open_ports_of(completed)
        },
{
    completed.lemma_push_map_commute(|probe: Probe| probe.port, probe);
    assert(completed.push(probe).drop_last() =~= completed);
}

/// The open ports of a record hold no port twice, and hold a port exactly
/// when some probe of the record found a listener on it.
pub proof fn lemma_open_ports_of(completed: Seq<Probe>)
    ensures
        open_ports_of(completed).no_duplicates(),
        forall|port: u16|
            open_ports_of(completed).contains(port) <==> reported_open(completed, port),
    decreases completed.len(),
{
    let found = open_ports_of(completed);
    if completed.len() > 0 {
        let front = completed.drop_last();
        let last = completed.last();
        let earlier = open_ports_of(front);
        lemma_open_ports_of(front);
        assert forall|port: u16| found.contains(port) <==> reported_open(completed, port) by {
            if found.contains(port) {
                if earlier.contains(port) {
                    assert(reported_open(front, port));
                    let i = choose|i: int|
                        0 <= i < front.len() && (#[trigger] front[i]).open && front[i].port
                            == port;
                    assert(completed[i].open && completed[i].port == port);
                } else {
                    assert(completed[completed.len() - 1].open);
                }
            }
            if reported_open(completed, port) {
                let i = choose|i: int|
                    0 <= i < completed.len() && (#[trigger] completed[i]).open
                        && completed[i].port == port;
                if i < front.len() {
                    assert(front[i].open && front[i].port == port);
                    assert(reported_open(front, port));
                    assert(earlier.contains(port));
                    let j = choose|j: int| 0 <= j < earlier.len() && earlier[j] == port;
                    assert(found[j] == port);
                } else if earlier.contains(port) {
                    let j = choose|j: int| 0 <= j < earlier.len() && earlier[j] == port;
                    assert(found[j] == port);
                } else {
                    assert(found[found.len() - 1] == port);
                }
            }
        }
    }
}

/// The state of a scan.
pub struct ScanModel {
    /// The ports to probe, in the order in which they are launched.
    pub candidates: Seq<u16>,
    /// The most probes that may be in flight at once.
    pub limit: nat,
    /// How many candidates have been launched: `candidates[0..launched]`.
    pub launched: nat,
    /// The ports whose probes were launched and have not been reported yet.
    pub in_flight: Multiset<u16>,
    /// The reported probes, oldest first.
    pub completed: Seq<Probe>,
}

impl ScanModel {
    /// A scan that has launched nothing yet.
    pub open spec fn start(candidates: Seq<u16>, limit: nat) -> ScanModel {
        ScanModel {
            candidates,
            limit,
            launched: 0,
            in_flight: Multiset::empty(),
            completed: Seq::empty(),
        }
    }

    /// The candidates launched so far.
    pub open spec fn launched_ports(self) -> Seq<u16> {
        self.candidates.take(self.launched as int)
    }

    /// The ports found open so far, each once, in the order in which they
    /// were first reported open.
    pub open spec fn open_ports(self) -> Seq<u16> {
        open_ports_of(self.completed)
    }

    /// The limit is positive, no more probes are in flight than it allows,
    /// and every launched probe is either still in flight or reported, once.
    pub open spec fn wf(self) -> bool {
        &&& 1 <= self.limit
        &&& self.launched <= self.candidates.len()
        &&& self.in_flight.len() <= self.limit
        &&& self.launched_ports().to_multiset() == self.in_flight.add(
            probed_ports(self.completed).to_multiset(),
        )
    }

    /// A candidate is waiting and a slot is free.
    pub open spec fn can_launch(self) -> bool {
        self.launched < self.candidates.len() && self.in_flight.len() < self.limit
    }

    /// Every candidate has been launched and reported.
    pub open spec fn is_done(self) -> bool {
        self.launched == self.candidates.len() && self.in_flight.len() == 0
    }

    /// The state after the next waiting candidate took a free slot.
    pub open spec fn launch(self) -> ScanModel {
        ScanModel {
            launched: self.launched + 1,
            in_flight: self.in_flight.insert(self.candidates[self.launched as int]),
            ..self
        }
    }

    /// The state after the probe of `port` was reported with outcome `open`:
    /// its slot is free again and the outcome is on record.
    pub open spec fn complete(self, port: u16, open: bool) -> ScanModel {
        ScanModel {
            in_flight: self.in_flight.remove(port),
            completed: self.completed.push(Probe { port, open }),
            ..self
        }
    }

    /// A free slot goes to the next waiting candidate at once; otherwise the
    /// caller waits while anything is in flight, and is done when nothing is.
    pub open spec fn next_action(self) -> Action {
        if self.can_launch() {
            Action::Launch(self.candidates[self.launched as int])
        } else if self.in_flight.len() > 0 {
            Action::Wait
        } else {
            Action::Done
        }
    }

    /// The state that goes with `next_action`: only a launch changes it.
    pub open spec fn after_next_action(self) -> ScanModel {
        if self.can_launch() {
            self.launch()
        } else {
            self
        }
    }

    /// Every outcome on record is what a host with exactly these listening
    /// ports answers.
    pub open spec fn answered_by(self, listening: Set<u16>) -> bool {
        forall|i: int|
            0 <= i < self.completed.len() ==> (#[trigger] self.completed[i]).open
                == listening.contains(self.completed[i].port)
    }
}

impl ScanModel {
    /// A scan with a positive limit starts well-formed, with no port found
    /// open.
    pub proof fn lemma_start_wf(candidates: Seq<u16>, limit: nat)
        requires
            1 <= limit,
        ensures
            Self::start(candidates, limit).wf(),
            Self::start(candidates, limit).open_ports() == Seq::<u16>::empty(),
            !Self::start(candidates, limit).is_done() <==> candidates.len() > 0,
    {
        broadcast use vstd::seq_lib::group_to_multiset_ensures;
        broadcast use vstd::multiset::group_multiset_axioms;

        let scan = Self::start(candidates, limit);
        assert(scan.launched_ports() =~= Seq::<u16>::empty());
        assert(probed_ports(scan.completed) =~= Seq::<u16>::empty());
        assert(scan.launched_ports().to_multiset() =~= scan.in_flight.add(
            probed_ports(scan.completed).to_multiset(),
        ));
    }

    /// Launching keeps the scan well-formed and finds no port open.
    pub proof fn lemma_launch_wf(self)
        requires
            self.wf(),
            self.can_launch(),
        ensures
            self.launch().wf(),
            self.launch().open_ports() == self.open_ports(),
    {
        broadcast use vstd::seq_lib::group_to_multiset_ensures;
        broadcast use vstd::multiset::group_multiset_axioms;

        let next = self.launch();
        let port = self.candidates[self.launched as int];
        assert(next.launched_ports() =~= self.launched_ports().push(port));
        assert(next.launched_ports().to_multiset() =~= next.in_flight.add(
            probed_ports(next.completed).to_multiset(),
        ));
    }

    /// Reporting a probe that is in flight keeps the scan well-formed; the
    /// port joins the open ports exactly when the probe found a listener and
    /// the port is not among them yet.
    pub proof fn lemma_complete_wf(self, port: u16, open: bool)
        requires
            self.wf(),
            self.in_flight.contains(port),
        ensures
            self.complete(port, open).wf(),
            self.complete(port, open).open_ports() == if open && !self.open_ports().contains(
                port,
            ) {
                self.open_ports().push(port)
            } else {
                self.open_ports()
            },
    {
        broadcast use vstd::seq_lib::group_to_multiset_ensures;
        broadcast use vstd::multiset::group_multiset_axioms;

        let next = self.complete(port, open);
        lemma_record_push(self.completed, Probe { port, open });
        assert(next.launched_ports().to_multiset() =~= next.in_flight.add(
            probed_ports(next.completed).to_multiset(),
        ));
    }
}

} // verus!
