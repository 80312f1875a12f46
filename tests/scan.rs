use port_scan::chunks::chunk_ports;
use port_scan::merge::{merge_chunk_results, open_ports};
use port_scan::outcome::{probe_outcome, ConnectAttempt, PortInformation, PortStatus};
use port_scan::work_group::WorkGroup;

fn run_group(chunk: Vec<u16>, limit: usize, attempt_of: fn(u16) -> ConnectAttempt) -> Vec<PortInformation> {
    let (mut group, launch) = WorkGroup::new(chunk, limit);
    assert!(launch.len() <= limit);
    let mut running = launch;
    while let Some(port) = running.pop() {
        assert!(group.is_in_flight(port));
        if let Some(next) = group.complete(port, attempt_of(port)) {
            running.insert(0, next);
        }
        assert!(running.len() <= limit);
    }
    assert!(group.is_done());
    group.into_outcomes()
}

fn run_scan(ports: &Vec<u16>, chunk_size: usize, attempt_of: fn(u16) -> ConnectAttempt) -> Vec<PortInformation> {
    let tasks = chunk_ports(ports, chunk_size)
        .into_iter()
        .map(|chunk| Some(run_group(chunk, chunk_size, attempt_of)))
        .collect();
    let merged = merge_chunk_results(tasks);
    assert_eq!(merged.dropped_chunks, 0);
    merged.outcomes
}

fn only_80_listens(port: u16) -> ConnectAttempt {
    if port == 80 {
        ConnectAttempt::Connected
    } else {
        ConnectAttempt::Failed
    }
}

fn sorted(mut v: Vec<PortInformation>) -> Vec<(u16, bool)> {
    v.sort_by_key(|p| p.id);
    v.into_iter().map(|p| (p.id, p.status == PortStatus::OPEN)).collect()
}

#[test]
fn connected_probe_is_open() {
    let r = probe_outcome(8080, ConnectAttempt::Connected);
    assert_eq!(r.id, 8080);
    assert_eq!(r.status, PortStatus::OPEN);
}

#[test]
fn refused_probe_is_closed() {
    let r = probe_outcome(9999, ConnectAttempt::Failed);
    assert_eq!(r.id, 9999);
    assert_eq!(r.status, PortStatus::CLOSED);
}

#[test]
fn timed_out_probe_is_closed() {
    let r = probe_outcome(443, ConnectAttempt::TimedOut);
    assert_eq!(r.id, 443);
    assert_eq!(r.status, PortStatus::CLOSED);
}

#[test]
fn same_attempt_gives_same_status() {
    for a in [ConnectAttempt::Connected, ConnectAttempt::Failed, ConnectAttempt::TimedOut] {
        assert_eq!(probe_outcome(22, a), probe_outcome(22, a));
    }
}

#[test]
fn chunks_of_two() {
    let r = chunk_ports(&vec![1, 2, 3, 4, 5], 2);
    assert_eq!(r, vec![vec![1, 2], vec![3, 4], vec![5]]);
}

#[test]
fn one_chunk_when_size_covers_list() {
    assert_eq!(chunk_ports(&vec![1, 2, 3, 4, 5], 5), vec![vec![1, 2, 3, 4, 5]]);
    assert_eq!(chunk_ports(&vec![1, 2, 3], 1024), vec![vec![1, 2, 3]]);
}

#[test]
fn no_chunks_for_empty_list() {
    assert!(chunk_ports(&vec![], 3).is_empty());
}

#[test]
fn group_keeps_limit_in_flight() {
    let (mut g, launch) = WorkGroup::new(vec![10, 20, 30, 40, 50], 2);
    assert_eq!(launch, vec![10, 20]);
    assert_eq!(g.complete(20, ConnectAttempt::Failed), Some(30));
    assert_eq!(g.complete(10, ConnectAttempt::Connected), Some(40));
    assert_eq!(g.complete(40, ConnectAttempt::TimedOut), Some(50));
    assert!(!g.is_done());
    assert!(!g.is_in_flight(40));
    assert!(g.is_in_flight(50));
    assert_eq!(g.complete(30, ConnectAttempt::Failed), None);
    assert_eq!(g.complete(50, ConnectAttempt::Failed), None);
    assert!(g.is_done());
    let out = g.into_outcomes();
    let ids: Vec<u16> = out.iter().map(|p| p.id).collect();
    assert_eq!(ids, vec![20, 10, 40, 30, 50]);
    assert_eq!(out[1].status, PortStatus::OPEN);
    assert_eq!(out[2].status, PortStatus::CLOSED);
}

#[test]
fn result_size_matches_port_list() {
    for ports in [vec![], vec![7], vec![80, 80, 443, 80], (1..=100).collect::<Vec<u16>>()] {
        for size in [1, 2, 3, 64] {
            let r = run_scan(&ports, size, only_80_listens);
            assert_eq!(r.len(), ports.len());
        }
    }
}

#[test]
fn every_port_has_an_outcome() {
    let ports = vec![5, 3, 3, 1, 80];
    let r = run_scan(&ports, 2, only_80_listens);
    for p in &ports {
        assert!(r.iter().any(|o| o.id == *p));
    }
    assert_eq!(r.iter().filter(|o| o.id == 3).count(), 2);
}

#[test]
fn chunk_size_does_not_change_outcomes() {
    let ports = vec![1, 2, 3, 4, 5];
    let a = run_scan(&ports, 2, only_80_listens);
    let b = run_scan(&ports, 5, only_80_listens);
    assert_eq!(sorted(a), sorted(b));
}

#[test]
fn three_ports_three_outcomes() {
    let ports = vec![22, 80, 9999];
    let r = run_scan(&ports, 1024, only_80_listens);
    assert_eq!(r.len(), 3);
    let s = sorted(r);
    assert_eq!(s.iter().map(|x| x.0).collect::<Vec<u16>>(), vec![22, 80, 9999]);
    assert_eq!(s[2], (9999, false));
}

#[test]
fn failed_join_drops_its_chunk() {
    let a = vec![probe_outcome(1, ConnectAttempt::Connected)];
    let c = vec![probe_outcome(5, ConnectAttempt::Failed), probe_outcome(6, ConnectAttempt::Connected)];
    let merged = merge_chunk_results(vec![Some(a), None, Some(c)]);
    assert_eq!(merged.dropped_chunks, 1);
    let ids: Vec<u16> = merged.outcomes.iter().map(|p| p.id).collect();
    assert_eq!(ids, vec![1, 5, 6]);
}

#[test]
fn report_lists_open_ports_only() {
    let all = vec![
        probe_outcome(22, ConnectAttempt::Failed),
        probe_outcome(80, ConnectAttempt::Connected),
        probe_outcome(81, ConnectAttempt::TimedOut),
        probe_outcome(443, ConnectAttempt::Connected),
    ];
    let open: Vec<u16> = open_ports(&all).iter().map(|p| p.id).collect();
    assert_eq!(open, vec![80, 443]);
}
