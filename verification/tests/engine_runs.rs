use port_scanner::address::{AddrBlock, IpAddress, PortRange, ScanTarget};
use port_scanner::engine::{ScanParameters, Scanner, Step};
use port_scanner::params::parse_addresses;
use port_scanner::ports::parse_port_range;
use port_scanner::probe::{ConnectOutcome, PortState, ScanResult};
use port_scanner::range::{RangeError, ScanRange};
use port_scanner::report::Report;

fn params(concurrent_scans: usize) -> ScanParameters {
    ScanParameters { concurrent_scans, enable_adaptive_timing: false, wait_timeout: 1_000_000 }
}

/// Runs the engine to its end against a network given as a function of the target.
/// Probes complete oldest first, each after 500 microseconds. Returns the results and
/// the largest number of probes that were in flight at once.
fn drive(
    scanner: &mut Scanner,
    network: &dyn Fn(ScanTarget) -> ConnectOutcome,
    cancel_after: Option<usize>,
) -> (Vec<ScanResult>, usize) {
    let mut results = Vec::new();
    let mut flying: Vec<(ScanTarget, u64)> = Vec::new();
    let mut most = 0;
    let mut dispatched = 0;
    loop {
        let cancelled = match cancel_after {
            Some(n) => dispatched >= n,
            None => false,
        };
        match scanner.poll(cancelled) {
            Step::Dispatch { target, timeout } => {
                dispatched += 1;
                flying.push((target, timeout));
                assert_eq!(scanner.in_flight, flying.len());
                if flying.len() > most {
                    most = flying.len();
                }
            }
            Step::Wait => {
                assert!(!flying.is_empty());
                let (target, timeout) = flying.remove(0);
                results.push(scanner.complete(target, network(target), 500, timeout));
            }
            Step::Close => {
                assert!(flying.is_empty());
                break;
            }
        }
    }
    (results, most)
}

fn range_of(targets: &str, ports: &str, excludes: Vec<IpAddress>) -> ScanRange {
    let blocks = match parse_addresses(targets) {
        Ok(b) => b,
        Err(e) => panic!("{}", e.message()),
    };
    let ports = parse_port_range(ports).unwrap();
    ScanRange::create(blocks, ports, excludes).ok().unwrap()
}

#[test]
fn open_and_closed_port_on_one_host() {
    let range = range_of("127.0.0.1", "22-23", Vec::new());
    let mut scanner = Scanner::new(params(2), range);
    let network = |t: ScanTarget| if t.port == 22 { ConnectOutcome::Connected } else { ConnectOutcome::Refused };
    let (results, most) = drive(&mut scanner, &network, None);
    let host = IpAddress::v4(0x7F00_0001);
    assert_eq!(
        results,
        vec![
            ScanResult { address: host, port: 22, state: PortState::Open(500) },
            ScanResult { address: host, port: 23, state: PortState::Closed(500) },
        ]
    );
    assert_eq!(most, 2);
    assert!(scanner.down.is_empty());
    let mut report = Report::new();
    for r in results {
        report.record(r);
    }
    assert_eq!(report.hosts.len(), 1);
    assert!(!report.hosts[0].is_down());
    assert_eq!(report.hosts[0].open_ports, vec![22]);
    assert_eq!(report.hosts[0].closed_ports, vec![23]);
}

#[test]
fn unreachable_host_gives_one_result() {
    let range = range_of("10.0.0.5/32", "1-10", Vec::new());
    let mut scanner = Scanner::new(params(1), range);
    let network = |_t: ScanTarget| ConnectOutcome::Unreachable;
    let (results, _) = drive(&mut scanner, &network, None);
    let host = IpAddress::v4(0x0A00_0005);
    assert_eq!(results, vec![ScanResult { address: host, port: 1, state: PortState::HostDown }]);
    assert_eq!(scanner.down, vec![host]);
}

#[test]
fn excluded_sole_target_gives_no_result() {
    let host = IpAddress::v4(0x7F00_0001);
    let range = range_of("127.0.0.1", "1-100", vec![host]);
    let mut scanner = Scanner::new(params(4), range);
    assert_eq!(scanner.poll(false), Step::Close);
    let range = range_of("127.0.0.1", "1-100", vec![host]);
    let mut scanner = Scanner::new(params(4), range);
    let network = |_t: ScanTarget| ConnectOutcome::Connected;
    let (results, most) = drive(&mut scanner, &network, None);
    assert!(results.is_empty());
    assert_eq!(most, 0);
}

#[test]
fn cancelled_before_start_gives_no_result() {
    let range = range_of("10.0.0.0/24", "1-100", Vec::new());
    let mut scanner = Scanner::new(params(4), range);
    let network = |_t: ScanTarget| ConnectOutcome::Connected;
    let (results, _) = drive(&mut scanner, &network, Some(0));
    assert!(results.is_empty());
    assert!(scanner.range.is_finished());
    assert_eq!(scanner.poll(false), Step::Close);
}

#[test]
fn every_pair_left_after_exclusion_gives_one_result() {
    let excluded = IpAddress::v4(0x0A00_0002);
    let range = range_of("10.0.0.0/30, 192.168.1.7", "1-3", vec![excluded]);
    let mut scanner = Scanner::new(params(3), range);
    let network = |_t: ScanTarget| ConnectOutcome::TimedOut;
    let (results, most) = drive(&mut scanner, &network, None);
    assert_eq!(results.len(), (3 + 1) * 3);
    assert!(most <= 3);
    assert!(results.iter().all(|r| r.address != excluded));
    assert!(results.iter().all(|r| r.state == PortState::ConnTimeout(1_000_000)));
    for (i, a) in results.iter().enumerate() {
        for b in results.iter().skip(i + 1) {
            assert!(a.address != b.address || a.port != b.port);
        }
    }
}

#[test]
fn in_flight_never_exceeds_the_limit() {
    let range = range_of("10.0.0.0/28", "1-5", Vec::new());
    let mut scanner = Scanner::new(params(7), range);
    let network = |_t: ScanTarget| ConnectOutcome::Refused;
    let (results, most) = drive(&mut scanner, &network, None);
    assert_eq!(results.len(), 16 * 5);
    assert_eq!(most, 7);
}

#[test]
fn cancellation_lets_probes_in_flight_report() {
    let range = range_of("10.0.0.0/24", "1-10", Vec::new());
    let mut scanner = Scanner::new(params(4), range);
    let network = |_t: ScanTarget| ConnectOutcome::Connected;
    let (results, _) = drive(&mut scanner, &network, Some(6));
    assert_eq!(results.len(), 6);
    assert!(results.len() <= 256 * 10);
    assert!(scanner.closed);
    assert_eq!(scanner.in_flight, 0);
}

#[test]
fn down_host_is_skipped_and_the_next_host_scanned() {
    let range = range_of("10.0.0.4/31", "1-3", Vec::new());
    let mut scanner = Scanner::new(params(1), range);
    let bad = IpAddress::v4(0x0A00_0004);
    let good = IpAddress::v4(0x0A00_0005);
    let network = move |t: ScanTarget| {
        if t.address == bad && t.port == 2 {
            ConnectOutcome::Unreachable
        } else {
            ConnectOutcome::Connected
        }
    };
    let (results, _) = drive(&mut scanner, &network, None);
    assert_eq!(
        results,
        vec![
            ScanResult { address: bad, port: 1, state: PortState::Open(500) },
            ScanResult { address: bad, port: 2, state: PortState::HostDown },
            ScanResult { address: good, port: 1, state: PortState::Open(500) },
            ScanResult { address: good, port: 2, state: PortState::Open(500) },
            ScanResult { address: good, port: 3, state: PortState::Open(500) },
        ]
    );
}

#[test]
fn adaptive_budget_is_fixed_at_dispatch() {
    let range = range_of("10.0.0.1", "1-3", Vec::new());
    let p = ScanParameters { concurrent_scans: 1, enable_adaptive_timing: true, wait_timeout: 1_000_000 };
    let mut scanner = Scanner::new(p, range);
    let first = match scanner.poll(false) {
        Step::Dispatch { target, timeout } => {
            assert_eq!(timeout, 1_000_000);
            target
        }
        other => panic!("{:?}", other),
    };
    assert_eq!(scanner.poll(false), Step::Wait);
    let r = scanner.complete(first, ConnectOutcome::Connected, 10_000, 1_000_000);
    assert_eq!(r.state, PortState::Open(10_000));
    let second = match scanner.poll(false) {
        Step::Dispatch { target, timeout } => {
            assert_eq!(timeout, 30_000);
            target
        }
        other => panic!("{:?}", other),
    };
    let r = scanner.complete(second, ConnectOutcome::TimedOut, 30_000, 30_000);
    assert_eq!(r.state, PortState::ConnTimeout(30_000));
    match scanner.poll(false) {
        Step::Dispatch { timeout, .. } => assert_eq!(timeout, 30_000),
        other => panic!("{:?}", other),
    }
}

#[test]
fn enumeration_is_in_address_then_port_order() {
    let blocks = vec![
        AddrBlock { v6: false, first: 10, last: 11 },
        AddrBlock { v6: true, first: 1, last: 1 },
    ];
    let mut range = ScanRange::create(blocks, PortRange { first: 65534, last: 65535 }, Vec::new()).ok().unwrap();
    let mut seen = Vec::new();
    while let Some(t) = range.next(false, &Vec::new()) {
        seen.push((t.address.v6, t.address.bits, t.port));
    }
    assert_eq!(
        seen,
        vec![
            (false, 10, 65534),
            (false, 10, 65535),
            (false, 11, 65534),
            (false, 11, 65535),
            (true, 1, 65534),
            (true, 1, 65535),
        ]
    );
    assert!(range.is_finished());
    assert_eq!(range.next(false, &Vec::new()), None);
}

#[test]
fn enumeration_reaches_the_top_of_the_address_space() {
    let blocks = vec![AddrBlock { v6: true, first: u128::MAX - 1, last: u128::MAX }];
    let mut range = ScanRange::create(blocks, PortRange { first: 0, last: 0 }, Vec::new()).ok().unwrap();
    assert_eq!(range.next(false, &Vec::new()), Some(ScanTarget { address: IpAddress::v6(u128::MAX - 1), port: 0 }));
    assert_eq!(range.next(false, &Vec::new()), Some(ScanTarget { address: IpAddress::v6(u128::MAX), port: 0 }));
    assert_eq!(range.next(false, &Vec::new()), None);
}

#[test]
fn stopped_range_yields_nothing() {
    let mut range = ScanRange::create(
        vec![AddrBlock::host(IpAddress::v4(1))],
        PortRange { first: 1, last: 2 },
        Vec::new(),
    )
    .ok()
    .unwrap();
    assert_eq!(range.next(false, &Vec::new()), Some(ScanTarget { address: IpAddress::v4(1), port: 1 }));
    range.stop();
    assert_eq!(range.next(false, &Vec::new()), None);
    let mut range = ScanRange::create(
        vec![AddrBlock::host(IpAddress::v4(1))],
        PortRange { first: 1, last: 2 },
        Vec::new(),
    )
    .ok()
    .unwrap();
    assert_eq!(range.next(true, &Vec::new()), None);
    assert_eq!(range.next(false, &Vec::new()), None);
}

#[test]
fn overlapping_blocks_give_each_target_once() {
    let range = range_of("10.0.0.0/30,10.0.0.1,10.0.0.2/31,10.0.0.9", "7-8", Vec::new());
    let mut scanner = Scanner::new(params(5), range);
    let network = |_t: ScanTarget| ConnectOutcome::Connected;
    let (results, _) = drive(&mut scanner, &network, None);
    let seen: Vec<(u128, u16)> = results.iter().map(|r| (r.address.bits, r.port)).collect();
    assert_eq!(
        seen,
        vec![
            (0x0A00_0000, 7),
            (0x0A00_0000, 8),
            (0x0A00_0001, 7),
            (0x0A00_0001, 8),
            (0x0A00_0002, 7),
            (0x0A00_0002, 8),
            (0x0A00_0003, 7),
            (0x0A00_0003, 8),
            (0x0A00_0009, 7),
            (0x0A00_0009, 8),
        ]
    );
}

#[test]
fn same_number_in_both_families_is_two_hosts() {
    let blocks = vec![AddrBlock { v6: false, first: 1, last: 1 }, AddrBlock { v6: true, first: 1, last: 1 }];
    let mut range = ScanRange::create(blocks, PortRange { first: 9, last: 9 }, Vec::new()).ok().unwrap();
    assert_eq!(range.next(false, &Vec::new()), Some(ScanTarget { address: IpAddress::v4(1), port: 9 }));
    assert_eq!(range.next(false, &Vec::new()), Some(ScanTarget { address: IpAddress::v6(1), port: 9 }));
    assert_eq!(range.next(false, &Vec::new()), None);
}

#[test]
fn cancellation_with_all_slots_busy_ends_the_sequence() {
    let range = range_of("10.0.0.0/24", "1-10", Vec::new());
    let mut scanner = Scanner::new(params(1), range);
    let target = match scanner.poll(false) {
        Step::Dispatch { target, .. } => target,
        other => panic!("{:?}", other),
    };
    assert_eq!(scanner.poll(true), Step::Wait);
    assert!(scanner.range.is_finished());
    let r = scanner.complete(target, ConnectOutcome::Connected, 1, 1_000_000);
    assert_eq!(r.port, 1);
    assert_eq!(scanner.poll(false), Step::Close);
    assert_eq!(scanner.poll(false), Step::Close);
}

#[test]
fn halted_engine_drains_and_closes() {
    let range = range_of("10.0.0.0/24", "1-10", Vec::new());
    let mut scanner = Scanner::new(params(3), range);
    let first = match scanner.poll(false) {
        Step::Dispatch { target, .. } => target,
        other => panic!("{:?}", other),
    };
    scanner.halt();
    assert_eq!(scanner.in_flight, 1);
    assert_eq!(scanner.poll(false), Step::Wait);
    scanner.complete(first, ConnectOutcome::Refused, 1, 1_000_000);
    assert_eq!(scanner.poll(false), Step::Close);
}

#[test]
fn host_down_is_recorded_once() {
    let range = range_of("10.0.0.1", "1-4", Vec::new());
    let mut scanner = Scanner::new(params(2), range);
    let a = match scanner.poll(false) {
        Step::Dispatch { target, .. } => target,
        other => panic!("{:?}", other),
    };
    let b = match scanner.poll(false) {
        Step::Dispatch { target, .. } => target,
        other => panic!("{:?}", other),
    };
    assert_eq!(scanner.poll(false), Step::Wait);
    assert_eq!(scanner.complete(a, ConnectOutcome::Unreachable, 1, 10).state, PortState::HostDown);
    assert_eq!(scanner.complete(b, ConnectOutcome::Unreachable, 1, 10).state, PortState::HostDown);
    assert_eq!(scanner.down, vec![IpAddress::v4(0x0A00_0001)]);
    assert_eq!(scanner.poll(false), Step::Close);
}

#[test]
fn malformed_ranges_are_refused() {
    let good = AddrBlock { v6: false, first: 1, last: 2 };
    let backwards = AddrBlock { v6: true, first: 2, last: 1 };
    let too_wide = AddrBlock { v6: false, first: 0, last: 0x1_0000_0000 };
    let ports = PortRange { first: 1, last: 2 };
    let reversed = PortRange { first: 2, last: 1 };
    assert_eq!(ScanRange::create(vec![good], reversed, Vec::new()).err(), Some(RangeError::ReversedPorts));
    assert_eq!(ScanRange::create(vec![backwards], reversed, Vec::new()).err(), Some(RangeError::ReversedPorts));
    assert_eq!(ScanRange::create(vec![good, backwards], ports, Vec::new()).err(), Some(RangeError::MalformedBlock));
    assert_eq!(ScanRange::create(vec![too_wide], ports, Vec::new()).err(), Some(RangeError::MalformedBlock));
    assert!(ScanRange::create(vec![good], ports, Vec::new()).is_ok());
    assert!(ScanRange::create(Vec::new(), ports, Vec::new()).is_ok());
}

#[test]
fn empty_target_list_closes_at_once() {
    let range = ScanRange::create(Vec::new(), PortRange { first: 1, last: 2 }, Vec::new()).ok().unwrap();
    let mut scanner = Scanner::new(params(2), range);
    assert_eq!(scanner.poll(false), Step::Close);
}
