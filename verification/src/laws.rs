//! What holds of every scan, whatever the concurrency limit and whatever the
//! order in which the probes finish.

use crate::model::{lemma_open_ports_of, probed_ports, reported_open, ScanModel};
use crate::ports::{port_seq, PORT_COUNT};
use vstd::prelude::*;

verus! {

/// How many launches and reports a scan still has before it is done.
pub open spec fn steps_left(scan: ScanModel) -> int {
    2 * (scan.candidates.len() - scan.launched) + scan.in_flight.len()
}

/// Every port found open was launched, and every launched port is a
/// candidate: the scan reports no port that is not among its candidates.
pub proof fn lemma_open_ports_were_launched(scan: ScanModel)
    requires
        scan.wf(),
    ensures
        forall|port: u16|
            scan.open_ports().contains(port) ==> scan.launched_ports().contains(port),
        forall|port: u16| scan.launched_ports().contains(port) ==> scan.candidates.contains(port),
{
    lemma_open_ports_of(scan.completed);
    assert forall|port: u16| scan.open_ports().contains(port) implies scan.launched_ports().contains(
        port,
    ) by {
        assert(reported_open(scan.completed, port));
        lemma_reported_ports_were_launched(scan, port);
    }
    assert forall|port: u16| scan.launched_ports().contains(port) implies scan.candidates.contains(
        port,
    ) by {
        let i = choose|i: int|
            0 <= i < scan.launched_ports().len() && scan.launched_ports()[i] == port;
        assert(scan.candidates[i] == port);
    }
}

/// A port with a probe on record was launched.
pub proof fn lemma_reported_ports_were_launched(scan: ScanModel, port: u16)
    requires
        scan.wf(),
        exists|i: int| 0 <= i < scan.completed.len() && (#[trigger] scan.completed[i]).port == port,
    ensures
        scan.launched_ports().contains(port),
{
    broadcast use vstd::multiset::group_multiset_axioms;

    let probed = probed_ports(scan.completed);
    let i = choose|i: int|
        0 <= i < scan.completed.len() && (#[trigger] scan.completed[i]).port == port;
    assert(probed[i] == port);
    vstd::seq_lib::to_multiset_contains(probed, port);
    vstd::seq_lib::to_multiset_contains(scan.launched_ports(), port);
}

/// Outcomes that are the host's answers stay so: a fresh scan has none on
/// record, a launch records none, and a report that is the host's answer
/// keeps the record truthful.
pub proof fn lemma_answers_are_kept(scan: ScanModel, listening: Set<u16>, port: u16, open: bool)
    ensures
        ScanModel::start(scan.candidates, scan.limit).answered_by(listening),
        scan.answered_by(listening) ==> scan.launch().answered_by(listening),
        scan.answered_by(listening) && open == listening.contains(port) ==> scan.complete(
            port,
            open,
        ).answered_by(listening),
{
}

/// The limit is never exceeded: a well-formed scan holds at most `limit`
/// probes in flight, and at most as many as it has candidates.
pub proof fn lemma_in_flight_bounded(scan: ScanModel)
    requires
        scan.wf(),
    ensures
        scan.in_flight.len() <= scan.limit,
        scan.in_flight.len() <= scan.launched <= scan.candidates.len(),
{
    broadcast use vstd::multiset::group_multiset_axioms;

    vstd::seq_lib::to_multiset_len(scan.launched_ports());
    vstd::seq_lib::to_multiset_len(probed_ports(scan.completed));
}

/// A scan cannot stall and cannot run on: while it is not done, the next
/// action is a launch or a wait for a probe that is in flight; each launch
/// and each report brings the end one step nearer; and the action is `Done`
/// exactly when every candidate has been launched and reported.
pub proof fn lemma_progress(scan: ScanModel)
    requires
        scan.wf(),
    ensures
        steps_left(scan) >= 0,
        scan.is_done() <==> steps_left(scan) == 0,
        scan.is_done() <==> scan.next_action() == crate::model::Action::Done,
        scan.next_action() == crate::model::Action::Wait ==> scan.in_flight.len() > 0,
        scan.can_launch() ==> steps_left(scan.launch()) == steps_left(scan) - 1,
        forall|port: u16, open: bool|
            scan.in_flight.contains(port) ==> steps_left(#[trigger] scan.complete(port, open))
                == steps_left(scan) - 1,
{
    broadcast use vstd::multiset::group_multiset_axioms;
    broadcast use vstd::multiset::group_multiset_properties;

}

/// The result of a finished scan is fixed by the candidates and the host
/// alone: the ports found open are the candidates on which the host listens,
/// each once, however often it is a candidate.
pub proof fn lemma_result_is_listening_candidates(scan: ScanModel, listening: Set<u16>)
    requires
        scan.wf(),
        scan.is_done(),
        scan.answered_by(listening),
    ensures
        scan.open_ports().to_set() == scan.candidates.to_set().intersect(listening),
        scan.open_ports().no_duplicates(),
{
    broadcast use vstd::multiset::group_multiset_axioms;

    let probed = probed_ports(scan.completed);
    lemma_open_ports_of(scan.completed);
    lemma_open_ports_were_launched(scan);
    assert(scan.launched_ports() =~= scan.candidates);
    assert(scan.in_flight =~= vstd::multiset::Multiset::empty());
    assert(scan.candidates.to_multiset() =~= probed.to_multiset());
    assert forall|port: u16|
        scan.open_ports().contains(port) <==> scan.candidates.contains(port) && listening.contains(
            port,
        ) by {
        if scan.open_ports().contains(port) {
            assert(reported_open(scan.completed, port));
        }
        if scan.candidates.contains(port) && listening.contains(port) {
            vstd::seq_lib::to_multiset_contains(scan.candidates, port);
            vstd::seq_lib::to_multiset_contains(probed, port);
            let i = choose|i: int| 0 <= i < probed.len() && probed[i] == port;
            assert(scan.completed[i].open && scan.completed[i].port == port);
            assert(reported_open(scan.completed, port));
        }
    }
    assert(scan.open_ports().to_set() =~= scan.candidates.to_set().intersect(listening));
}

/// Two finished scans of the same candidates against the same listeners find
/// the same ports open, whatever their concurrency limits and whatever the
/// orders in which their probes finished: the same set, of the same size, and
/// each list a rearrangement of the other.
pub proof fn lemma_limit_does_not_change_result(
    first: ScanModel,
    second: ScanModel,
    listening: Set<u16>,
)
    requires
        first.wf(),
        first.is_done(),
        first.answered_by(listening),
        second.wf(),
        second.is_done(),
        second.answered_by(listening),
        first.candidates == second.candidates,
    ensures
        first.open_ports().to_set() == second.open_ports().to_set(),
        first.open_ports().len() == second.open_ports().len(),
        first.open_ports().to_multiset() == second.open_ports().to_multiset(),
{
    broadcast use vstd::multiset::group_multiset_axioms;

    let one = first.open_ports();
    let two = second.open_ports();
    lemma_result_is_listening_candidates(first, listening);
    lemma_result_is_listening_candidates(second, listening);
    one.lemma_multiset_has_no_duplicates();
    two.lemma_multiset_has_no_duplicates();
    assert forall|port: u16| one.to_multiset().count(port) == two.to_multiset().count(port) by {
        vstd::seq_lib::to_multiset_contains(one, port);
        vstd::seq_lib::to_multiset_contains(two, port);
        assert(one.to_set().contains(port) == two.to_set().contains(port));
    }
    assert(one.to_multiset() =~= two.to_multiset());
    vstd::seq_lib::to_multiset_len(one);
    vstd::seq_lib::to_multiset_len(two);
}

/// Scanning again changes nothing: a second finished scan with the same
/// candidates and the same limit, against listeners that have not changed,
/// finds the same ports open as the first.
pub proof fn lemma_repeated_scan_agrees(first: ScanModel, second: ScanModel, listening: Set<u16>)
    requires
        first.wf(),
        first.is_done(),
        first.answered_by(listening),
        second.wf(),
        second.is_done(),
        second.answered_by(listening),
        first.candidates == second.candidates,
        first.limit == second.limit,
    ensures
        first.open_ports().to_set() == second.open_ports().to_set(),
        first.open_ports().len() == second.open_ports().len(),
        first.open_ports().to_multiset() == second.open_ports().to_multiset(),
{
    lemma_limit_does_not_change_result(first, second, listening);
}

/// No port is found open twice, even where it is a candidate more than once
/// or is reported open more than once.
pub proof fn lemma_no_duplicates(scan: ScanModel)
    requires
        scan.wf(),
    ensures
        scan.open_ports().no_duplicates(),
{
    lemma_open_ports_of(scan.completed);
}

/// Where no port is a candidate twice, no port is probed twice.
pub proof fn lemma_no_repeated_probe(scan: ScanModel)
    requires
        scan.wf(),
        scan.candidates.no_duplicates(),
    ensures
        probed_ports(scan.completed).no_duplicates(),
{
    broadcast use vstd::seq_lib::group_to_multiset_ensures;
    broadcast use vstd::multiset::group_multiset_axioms;

    let probed = probed_ports(scan.completed);
    let launched = scan.launched_ports();
    let waiting = scan.candidates.skip(scan.launched as int);
    assert(scan.candidates =~= launched + waiting);
    vstd::seq_lib::lemma_multiset_commutative(launched, waiting);
    scan.candidates.lemma_multiset_has_no_duplicates();
    assert forall|port: u16| #[trigger]
        probed.to_multiset().contains(port) implies probed.to_multiset().count(port) == 1 by {
        assert(scan.candidates.to_multiset().count(port) <= 1);
    }
    probed.lemma_multiset_has_no_duplicates_conv();
}

/// Where the host listens on none of the candidates, no port is found open.
pub proof fn lemma_no_listener(scan: ScanModel, listening: Set<u16>)
    requires
        scan.wf(),
        scan.answered_by(listening),
        forall|i: int|
            0 <= i < scan.candidates.len() ==> !listening.contains(#[trigger] scan.candidates[i]),
    ensures
        scan.open_ports() == Seq::<u16>::empty(),
{
    let found = scan.open_ports();
    lemma_open_ports_of(scan.completed);
    lemma_open_ports_were_launched(scan);
    if found.len() > 0 {
        let port = found[0];
        assert(found.contains(port));
        assert(reported_open(scan.completed, port));
        assert(scan.candidates.contains(port));
    }
    assert(found =~= Seq::<u16>::empty());
}

/// A range holds exactly the ports from its lower bound up to, and without,
/// its upper bound, each once.
pub proof fn lemma_port_seq_bounds(from: int, to: int)
    requires
        0 <= from,
        to <= PORT_COUNT,
    ensures
        port_seq(from, to).no_duplicates(),
        forall|port: u16| port_seq(from, to).contains(port) <==> from <= port < to,
{
    let range = port_seq(from, to);
    assert forall|port: u16| from <= port < to implies range.contains(port) by {
        assert(range[port - from] == port);
    }
}

/// A scan of the range `[from, to)` finds no port open outside the range: in
/// particular never `to` itself.
pub proof fn lemma_range_scan_excludes_upper_bound(scan: ScanModel, from: int, to: int)
    requires
        scan.wf(),
        0 <= from,
        to <= PORT_COUNT,
        scan.candidates == port_seq(from, to),
    ensures
        forall|port: u16| scan.open_ports().contains(port) ==> from <= port < to,
{
    lemma_open_ports_were_launched(scan);
    lemma_port_seq_bounds(from, to);
}

/// A finished scan of the range `[from, to)` against a host that listens on
/// exactly one port of the range finds exactly that port.
pub proof fn lemma_single_listener(
    scan: ScanModel,
    listening: Set<u16>,
    from: int,
    to: int,
    port: u16,
)
    requires
        scan.wf(),
        scan.is_done(),
        scan.answered_by(listening),
        0 <= from,
        to <= PORT_COUNT,
        scan.candidates == port_seq(from, to),
        from <= port < to,
        forall|other: u16| from <= other < to ==> (listening.contains(other) <==> other == port),
    ensures
        scan.open_ports() == seq![port],
{
    let found = scan.open_ports();
    lemma_result_is_listening_candidates(scan, listening);
    lemma_port_seq_bounds(from, to);
    assert forall|other: u16| found.contains(other) <==> other == port by {
        assert(found.to_set().contains(other) == found.contains(other));
        assert(scan.candidates.to_set().contains(other) == scan.candidates.contains(other));
    }
    assert(found.contains(port));
    if found.len() >= 2 {
        assert(found.contains(found[0]) && found.contains(found[1]));
    }
    assert(found =~= seq![port]);
}

} // verus!
