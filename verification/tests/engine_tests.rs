use port_scanner::report::sort_ports;
use port_scanner::scan::select_open;
use port_scanner::scan::worker_ports;
use std::collections::HashSet;

/// Runs one worker of a pool against a mock transport: `open` says which
/// ports would accept a connection.
fn run_worker(i: u16, threads: u16, open: &dyn Fn(u16) -> bool) -> Vec<u16> {
    let ports = worker_ports(i, threads);
    let outcomes: Vec<bool> = ports.iter().map(|p| open(*p)).collect();
    select_open(&ports, &outcomes)
}

#[test]
fn single_worker_walks_ports_linearly() {
    let ports = worker_ports(0, 1);
    let expected: Vec<u16> = (1..=65534).collect();
    assert_eq!(ports, expected);
}

#[test]
fn worker_sequences_follow_start_and_stride() {
    for i in 0..4u16 {
        let ports = worker_ports(i, 4);
        for (k, p) in ports.iter().enumerate() {
            assert_eq!(*p as u64, i as u64 + 1 + k as u64 * 4);
        }
        let last = *ports.last().unwrap();
        assert!(65535 - last <= 4);
        for w in ports.windows(2) {
            assert!(65535 - w[0] > 4);
            assert!(w[0] < w[1]);
        }
    }
}

#[test]
fn workers_never_share_a_port() {
    let mut seen: HashSet<u16> = HashSet::new();
    for i in 0..7u16 {
        for p in worker_ports(i, 7) {
            assert!(seen.insert(p), "port {} assigned twice", p);
        }
    }
}

#[test]
fn huge_stride_gives_one_port_per_worker() {
    let ports = worker_ports(0, 65535);
    assert_eq!(ports, vec![1]);
    let ports = worker_ports(65534, 65535);
    assert_eq!(ports, vec![65535]);
}

#[test]
fn select_open_keeps_exactly_the_successes() {
    let ports: Vec<u16> = vec![1, 2, 3, 4];
    let open: Vec<bool> = vec![true, false, true, false];
    assert_eq!(select_open(&ports, &open), vec![1, 3]);
}

#[test]
fn select_open_reports_nothing_without_successes() {
    let ports: Vec<u16> = vec![10, 20, 30];
    let open: Vec<bool> = vec![false, false, false];
    assert_eq!(select_open(&ports, &open), Vec::<u16>::new());
}

#[test]
fn select_open_keeps_probe_order() {
    let ports: Vec<u16> = vec![9, 5, 7];
    let open: Vec<bool> = vec![true, true, true];
    assert_eq!(select_open(&ports, &open), vec![9, 5, 7]);
}

#[test]
fn two_open_ports_reported_sorted_whatever_the_worker_order() {
    let open = |p: u16| p == 22 || p == 80;
    for order in [[0u16, 1, 2, 3], [3, 1, 0, 2], [2, 3, 1, 0]] {
        let mut collected: Vec<u16> = Vec::new();
        for i in order {
            collected.extend(run_worker(i, 4, &open));
        }
        assert_eq!(sort_ports(&collected), vec![22, 80]);
    }
}

#[test]
fn no_open_ports_gives_empty_report() {
    let mut collected: Vec<u16> = Vec::new();
    for i in 0..4u16 {
        collected.extend(run_worker(i, 4, &|_| false));
    }
    assert_eq!(sort_ports(&collected), Vec::<u16>::new());
}

#[test]
fn every_open_port_is_discovered_by_exactly_one_worker() {
    let open = |p: u16| p % 1000 == 0;
    let mut collected: Vec<u16> = Vec::new();
    for i in 0..5u16 {
        collected.extend(run_worker(i, 5, &open));
    }
    let report = sort_ports(&collected);
    let expected: Vec<u16> = (1..=65u16).map(|k| k * 1000).collect();
    assert_eq!(report, expected);
}
