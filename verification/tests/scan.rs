use oports::model::Action;
use oports::ports::{all_ports, port_range};
use oports::scan::{concurrency_limit, Scan, ScanError, DEFAULT_CONCURRENCY};

/// Which of the running probes finishes next.
#[derive(Clone, Copy)]
enum Finish {
    Oldest,
    Newest,
    Shuffled(u64),
}

/// What one simulated scan did.
struct Run {
    open: Vec<u16>,
    launches: Vec<u16>,
    reports: usize,
    actions: usize,
    peak: usize,
}

/// Drives a scan to its end against a host that listens on `listening`,
/// finishing the running probes in the given order.
fn run(candidates: Vec<u16>, concurrency: Option<usize>, listening: &[u16], finish: Finish) -> Run {
    let mut scan = Scan::new(candidates, concurrency).expect("the limit is positive");
    let limit = scan.limit();
    let mut running: Vec<u16> = Vec::new();
    let mut launches = Vec::new();
    let mut reports = 0;
    let mut actions = 0;
    let mut peak = 0;
    let mut state = match finish {
        Finish::Shuffled(seed) => seed,
        _ => 0,
    };
    loop {
        let action = scan.next_action();
        assert!(scan.in_flight() <= limit);
        assert_eq!(scan.in_flight(), running.len() + usize::from(matches!(action, Action::Launch(_))));
        match action {
            Action::Launch(port) => {
                running.push(port);
                launches.push(port);
                peak = peak.max(running.len());
            }
            Action::Wait => {
                assert!(!running.is_empty());
                let index = match finish {
                    Finish::Oldest => 0,
                    Finish::Newest => running.len() - 1,
                    Finish::Shuffled(_) => {
                        state = state
                            .wrapping_mul(6364136223846793005)
                            .wrapping_add(1442695040888963407);
                        ((state >> 33) as usize) % running.len()
                    }
                };
                let port = running.remove(index);
                assert_eq!(scan.complete(port, listening.contains(&port)), Ok(()));
                reports += 1;
            }
            Action::Done => {
                assert!(running.is_empty());
                assert!(scan.is_done());
                assert_eq!(scan.pending(), 0);
                break;
            }
        }
        assert!(!scan.is_done() || running.is_empty());
        actions += 1;
    }
    Run { open: scan.into_open_ports(), launches, reports, actions, peak }
}

fn sorted(mut ports: Vec<u16>) -> Vec<u16> {
    ports.sort();
    ports
}

#[test]
fn single_listener_in_range_is_the_whole_result() {
    let found = run(port_range(4000, 4100), None, &[4045], Finish::Shuffled(7));
    assert_eq!(found.open.len(), 1);
    assert_eq!(found.open[0], 4045);
}

#[test]
fn closed_range_gives_empty_result() {
    let found = run(port_range(0, 10), Some(100), &[4045], Finish::Shuffled(7));
    assert_eq!(found.open.len(), 0);
}

#[test]
fn listener_outside_the_candidates_is_not_reported() {
    let found = run(vec![4041], None, &[4040], Finish::Oldest);
    assert_eq!(found.open, Vec::<u16>::new());
    let found = run(vec![4040], None, &[4040], Finish::Oldest);
    assert_eq!(found.open, vec![4040]);
}

#[test]
fn full_scan_finds_every_listener() {
    let found = run(all_ports(), Some(100), &[4050, 4060], Finish::Shuffled(11));
    assert!(found.open.len() > 0);
    assert!(found.open.contains(&4050));
    assert!(found.open.contains(&4060));
    assert_eq!(sorted(found.open), vec![4050, 4060]);
    assert_eq!(found.launches.len(), 65536);
    assert_eq!(found.peak, 100);
}

#[test]
fn full_scan_reaches_the_first_and_the_last_port() {
    let found = run(all_ports(), Some(1000), &[0, 65535], Finish::Oldest);
    assert_eq!(found.open, vec![0, 65535]);
}

#[test]
fn result_does_not_depend_on_the_limit() {
    let listening = [22, 80, 443, 8080];
    let candidates: Vec<u16> = vec![8080, 21, 22, 23, 25, 80, 110, 443, 993];
    let expected = vec![22, 80, 443, 8080];
    for concurrency in [Some(1), Some(2), Some(3), None, Some(9), Some(10), Some(usize::MAX)] {
        for finish in [Finish::Oldest, Finish::Newest, Finish::Shuffled(1), Finish::Shuffled(99)] {
            let found = run(candidates.clone(), concurrency, &listening, finish);
            assert_eq!(sorted(found.open), expected);
        }
    }
}

#[test]
fn repeated_scans_agree() {
    let listening = [4045, 4050];
    let first = run(port_range(4000, 4100), Some(8), &listening, Finish::Shuffled(3));
    let second = run(port_range(4000, 4100), Some(8), &listening, Finish::Shuffled(4));
    assert_eq!(sorted(first.open), vec![4045, 4050]);
    assert_eq!(sorted(second.open), vec![4045, 4050]);
}

#[test]
fn no_port_is_reported_twice() {
    let listening: Vec<u16> = (100..200).collect();
    let found = run(port_range(0, 300), Some(17), &listening, Finish::Shuffled(5));
    let mut unique = found.open.clone();
    unique.sort();
    unique.dedup();
    assert_eq!(unique.len(), found.open.len());
    assert_eq!(unique, listening);
}

#[test]
fn no_port_is_reported_twice_when_candidates_repeat() {
    let listening: Vec<u16> = (100..200).collect();
    let mut candidates = port_range(0, 300);
    candidates.extend(port_range(50, 250));
    candidates.extend(port_range(150, 160));
    let found = run(candidates, Some(17), &listening, Finish::Shuffled(5));
    assert_eq!(found.launches.len(), 510);
    assert_eq!(found.open.len(), 100);
    assert_eq!(sorted(found.open), listening);
}

#[test]
fn a_probe_cannot_be_reported_twice() {
    let mut scan = Scan::new(vec![80, 443], Some(2)).unwrap();
    assert_eq!(scan.next_action(), Action::Launch(80));
    assert_eq!(scan.next_action(), Action::Launch(443));
    assert_eq!(scan.complete(80, true), Ok(()));
    assert_eq!(scan.complete(80, true), Err(ScanError::NotInFlight));
    assert_eq!(scan.in_flight(), 1);
    assert_eq!(scan.complete(443, false), Ok(()));
    assert_eq!(scan.next_action(), Action::Done);
    assert_eq!(scan.into_open_ports(), vec![80]);
}

#[test]
fn a_port_that_was_not_launched_is_refused() {
    let mut scan = Scan::new(vec![80, 443], Some(1)).unwrap();
    assert_eq!(scan.complete(80, true), Err(ScanError::NotInFlight));
    assert_eq!(scan.next_action(), Action::Launch(80));
    assert_eq!(scan.complete(443, true), Err(ScanError::NotInFlight));
    assert_eq!(scan.in_flight(), 1);
    assert_eq!(scan.pending(), 1);
    assert!(!scan.is_done());
    assert_eq!(scan.into_open_ports(), Vec::<u16>::new());
}

#[test]
fn range_scan_never_includes_the_upper_bound() {
    let listening = [3999, 4000, 4099, 4100];
    let found = run(port_range(4000, 4100), None, &listening, Finish::Newest);
    assert!(!found.open.contains(&4100));
    assert!(!found.open.contains(&3999));
    assert_eq!(sorted(found.open), vec![4000, 4099]);
}

#[test]
fn open_ports_come_in_the_order_of_the_reports() {
    let listening = [1, 2, 3, 4, 5];
    let oldest = run(port_range(1, 6), Some(5), &listening, Finish::Oldest);
    assert_eq!(oldest.open, vec![1, 2, 3, 4, 5]);
    let newest = run(port_range(1, 6), Some(5), &listening, Finish::Newest);
    assert_eq!(newest.open, vec![5, 4, 3, 2, 1]);
}

#[test]
fn limit_of_one_probes_in_candidate_order() {
    let candidates: Vec<u16> = vec![443, 22, 8080, 80];
    let found = run(candidates.clone(), Some(1), &[80, 443, 8080], Finish::Shuffled(13));
    assert_eq!(found.peak, 1);
    assert_eq!(found.launches, candidates);
    assert_eq!(found.open, vec![443, 8080, 80]);
}

#[test]
fn free_slots_are_filled_before_any_wait() {
    let mut scan = Scan::new(port_range(10, 20), Some(3)).unwrap();
    assert_eq!(scan.limit(), 3);
    assert_eq!(scan.pending(), 10);
    assert_eq!(scan.next_action(), Action::Launch(10));
    assert_eq!(scan.next_action(), Action::Launch(11));
    assert_eq!(scan.next_action(), Action::Launch(12));
    assert_eq!(scan.next_action(), Action::Wait);
    assert_eq!(scan.next_action(), Action::Wait);
    assert_eq!(scan.in_flight(), 3);
    assert_eq!(scan.complete(11, false), Ok(()));
    assert_eq!(scan.in_flight(), 2);
    assert_eq!(scan.next_action(), Action::Launch(13));
    assert_eq!(scan.next_action(), Action::Wait);
    assert_eq!(scan.pending(), 6);
}

#[test]
fn peak_is_the_smaller_of_limit_and_candidate_count() {
    assert_eq!(run(port_range(0, 50), Some(8), &[], Finish::Shuffled(2)).peak, 8);
    assert_eq!(run(port_range(0, 50), Some(50), &[], Finish::Shuffled(2)).peak, 50);
    assert_eq!(run(port_range(0, 50), Some(5000), &[], Finish::Shuffled(2)).peak, 50);
    assert_eq!(run(port_range(0, 250), None, &[], Finish::Shuffled(2)).peak, 100);
}

#[test]
fn every_candidate_is_launched_and_reported_once() {
    let found = run(port_range(100, 177), Some(6), &[120], Finish::Shuffled(21));
    assert_eq!(found.launches, port_range(100, 177));
    assert_eq!(found.reports, 77);
    assert_eq!(found.actions, 2 * 77);
}

#[test]
fn repeated_candidate_is_probed_each_time() {
    let found = run(vec![80, 81, 80], Some(2), &[80], Finish::Oldest);
    assert_eq!(found.launches, vec![80, 81, 80]);
    assert_eq!(found.reports, 3);
    assert_eq!(found.open, vec![80]);
}

#[test]
fn repeated_candidate_is_reported_open_once() {
    let candidates: Vec<u16> = vec![443, 80, 443, 22, 80, 80, 443];
    for concurrency in [Some(1), Some(2), Some(7), None] {
        for finish in [Finish::Oldest, Finish::Newest, Finish::Shuffled(8)] {
            let found = run(candidates.clone(), concurrency, &[80, 443], finish);
            assert_eq!(found.launches, candidates);
            assert_eq!(found.reports, 7);
            assert_eq!(sorted(found.open), vec![80, 443]);
        }
    }
}

#[test]
fn two_open_reports_of_one_port_add_it_once() {
    let mut scan = Scan::new(vec![80, 80, 443], Some(3)).unwrap();
    assert_eq!(scan.next_action(), Action::Launch(80));
    assert_eq!(scan.next_action(), Action::Launch(80));
    assert_eq!(scan.next_action(), Action::Launch(443));
    assert_eq!(scan.in_flight(), 3);
    assert_eq!(scan.complete(80, true), Ok(()));
    assert_eq!(scan.complete(443, true), Ok(()));
    assert_eq!(scan.complete(80, true), Ok(()));
    assert_eq!(scan.complete(80, true), Err(ScanError::NotInFlight));
    assert_eq!(scan.next_action(), Action::Done);
    assert_eq!(scan.into_open_ports(), vec![80, 443]);
}

#[test]
fn port_joins_the_result_at_its_first_open_report() {
    let mut scan = Scan::new(vec![80, 443, 80], Some(3)).unwrap();
    assert_eq!(scan.next_action(), Action::Launch(80));
    assert_eq!(scan.next_action(), Action::Launch(443));
    assert_eq!(scan.next_action(), Action::Launch(80));
    assert_eq!(scan.complete(80, false), Ok(()));
    assert_eq!(scan.complete(443, true), Ok(()));
    assert_eq!(scan.complete(80, true), Ok(()));
    assert_eq!(scan.next_action(), Action::Done);
    assert_eq!(scan.into_open_ports(), vec![443, 80]);
}

#[test]
fn empty_candidates_are_done_at_once() {
    let mut scan = Scan::new(Vec::new(), None).unwrap();
    assert!(scan.is_done());
    assert_eq!(scan.next_action(), Action::Done);
    assert_eq!(scan.in_flight(), 0);
    assert_eq!(scan.into_open_ports(), Vec::<u16>::new());
}

#[test]
fn open_port_does_not_end_the_scan_early() {
    let found = run(port_range(0, 20), Some(4), &[0], Finish::Oldest);
    assert_eq!(found.open, vec![0]);
    assert_eq!(found.launches.len(), 20);
    assert_eq!(found.reports, 20);
}

#[test]
fn zero_concurrency_is_refused() {
    assert_eq!(Scan::new(vec![80], Some(0)).err(), Some(ScanError::ZeroConcurrency));
    assert_eq!(Scan::new(Vec::new(), Some(0)).err(), Some(ScanError::ZeroConcurrency));
    assert_eq!(concurrency_limit(Some(0)), Err(ScanError::ZeroConcurrency));
}

#[test]
fn missing_concurrency_means_one_hundred() {
    assert_eq!(DEFAULT_CONCURRENCY, 100);
    assert_eq!(concurrency_limit(None), Ok(100));
    assert_eq!(Scan::new(vec![80], None).unwrap().limit(), 100);
}

#[test]
fn given_concurrency_is_kept() {
    assert_eq!(concurrency_limit(Some(1)), Ok(1));
    assert_eq!(concurrency_limit(Some(7)), Ok(7));
    assert_eq!(concurrency_limit(Some(usize::MAX)), Ok(usize::MAX));
    assert_eq!(Scan::new(vec![80], Some(7)).unwrap().limit(), 7);
}
