use netscan::engine::{assemble_results, progress_permille, record_host, record_liveness};
use netscan::net::IpAddress;
use netscan::scan::{parse_ports_range, ScanResult};
use netscan::store::{HostKey, ResultStore};

fn addr(last: u8) -> IpAddress {
    IpAddress { v6: false, bits: u32::from_be_bytes([10, 0, 0, last]) as u128 }
}

#[test]
fn live_host_keeps_open_and_closed_results() {
    let results = assemble_results(&vec![80, 443], &vec![Some(true), Some(false)]);
    assert!(results.contains(&ScanResult { port: 80, is_open: true }));
    assert!(results.contains(&ScanResult { port: 443, is_open: false }));
    assert_eq!(results.len(), 2);
    let mut store = ResultStore::new();
    record_host(&mut store, addr(1), results.clone());
    assert_eq!(store.get(&HostKey { addr: addr(1), reachable: true }), Some(&results));
}

#[test]
fn failed_task_leaves_no_result() {
    let results = assemble_results(&vec![1, 2, 3], &vec![Some(true), None, Some(false)]);
    assert_eq!(results, vec![ScanResult { port: 1, is_open: true }, ScanResult { port: 3, is_open: false }]);
}

#[test]
fn unreachable_host_recorded_with_empty_results() {
    let mut store = ResultStore::new();
    let live = record_liveness(&mut store, &vec![(addr(1), true), (addr(2), false)]);
    assert_eq!(live, vec![addr(1)]);
    assert_eq!(store.len(), 1);
    assert_eq!(store.get(&HostKey { addr: addr(2), reachable: false }), Some(&Vec::new()));
    assert_eq!(store.get(&HostKey { addr: addr(1), reachable: true }), None);
    assert_eq!(progress_permille(store.len(), 2), 500);
    record_host(&mut store, addr(1), vec![]);
    assert_eq!(progress_permille(store.len(), 2), 1000);
}

fn run(store: &mut ResultStore) {
    let probes = vec![(addr(1), true), (addr(2), false), (addr(3), true)];
    let live = record_liveness(store, &probes);
    for a in live {
        let ports = parse_ports_range("80-81");
        let outcomes: Vec<Option<bool>> = ports.iter().map(|p| Some(*p == 80)).collect();
        record_host(store, a, assemble_results(&ports, &outcomes));
    }
}

#[test]
fn rerun_gives_identical_entries() {
    let mut store = ResultStore::new();
    run(&mut store);
    let first: Vec<(HostKey, Vec<ScanResult>)> =
        store.entries().iter().map(|e| (e.key, e.results.clone())).collect();
    run(&mut store);
    let second: Vec<(HostKey, Vec<ScanResult>)> =
        store.entries().iter().map(|e| (e.key, e.results.clone())).collect();
    assert_eq!(first, second);
    assert_eq!(store.len(), 3);
}

#[test]
fn thousands_of_port_tasks_all_collected() {
    let ports = parse_ports_range("1-5000");
    let outcomes: Vec<Option<bool>> = ports.iter().map(|p| Some(p % 7 == 0)).collect();
    let results = assemble_results(&ports, &outcomes);
    assert_eq!(results.len(), 5000);
    let mut seen: Vec<u16> = results.iter().map(|r| r.port).collect();
    seen.sort();
    seen.dedup();
    assert_eq!(seen.len(), 5000);
    assert_eq!(seen, ports);
}

#[test]
fn store_insert_is_last_write_wins() {
    let mut store = ResultStore::new();
    let k = HostKey { addr: addr(9), reachable: true };
    store.insert(k, vec![ScanResult { port: 1, is_open: true }]);
    store.insert(k, vec![ScanResult { port: 2, is_open: false }]);
    assert_eq!(store.len(), 1);
    assert_eq!(store.get(&k), Some(&vec![ScanResult { port: 2, is_open: false }]));
}

#[test]
fn progress_values() {
    assert_eq!(progress_permille(0, 0), 0);
    assert_eq!(progress_permille(5, 0), 0);
    assert_eq!(progress_permille(1, 3), 333);
    assert_eq!(progress_permille(4, 3), 1000);
    assert_eq!(progress_permille(0, 3), 0);
}
