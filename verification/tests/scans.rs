use network_scanner::address::ipv4;
use network_scanner::arp::arp_request;
use network_scanner::discover::{Discovery, Listening};
use network_scanner::event::Event;
use network_scanner::link::{Interface, Link};
use network_scanner::mac::MacAddr;
use network_scanner::network::Network;
use network_scanner::scan::{breakdown_text, Action, Input, Progress, Scan, Worker};
use network_scanner::vendor::{parse_vendors, VendorTable};

const MAC: MacAddr = MacAddr(0, 3, 0x93, 1, 2, 3);

fn registry() -> VendorTable {
    parse_vendors("000393\tApple, Inc.\n")
}

#[test]
fn a_scan_probes_every_port_of_every_host() {
    let table = registry();
    let ip = ipv4(192, 168, 1, 20);
    let mut scan = Scan::new(vec![22, 80]);
    assert_eq!(scan.advance(false, 8), Action::Wait);
    assert!(scan.room_for(ip));
    match scan.handle(Input::Host(ip, MAC), &table) {
        Some(Event::Device(device)) => {
            assert_eq!(device.status, "Up • scanning ports");
            assert_eq!(device.ip_address, ip);
            assert_eq!(device.mac_address, "00:03:93:01:02:03");
            assert_eq!(device.vendor, "Apple, Inc.");
            assert_eq!(device.open_ports, "");
        }
        _ => panic!("the host was not reported"),
    }
    assert!(!scan.room_for(ip));
    assert_eq!(scan.advance(false, 8), Action::Launch(ip, 22));
    assert_eq!(scan.advance(false, 8), Action::Launch(ip, 80));
    assert_eq!(scan.advance(false, 8), Action::Wait);
    assert!(scan.is_running(ip, 80) && !scan.is_running(ip, 443));
    match scan.handle(Input::Answer(ip, 80, true), &table) {
        Some(Event::Device(device)) => {
            assert_eq!(device.status, "Up • scanning ports");
            assert_eq!(device.open_ports, "80");
        }
        _ => panic!("the open port was not reported"),
    }
    assert!(scan.handle(Input::DiscoveryEnded, &table).is_none());
    assert!(!scan.finished());
    match scan.handle(Input::Answer(ip, 22, true), &table) {
        Some(Event::Device(device)) => {
            assert_eq!(device.status, "Up");
            assert_eq!(device.open_ports, "22, 80");
        }
        _ => panic!("the end was not reported"),
    }
    assert!(scan.finished());
    assert_eq!(scan.advance(false, 8), Action::Stop);
    assert_eq!(
        scan.progress(),
        Progress {
            completed: 2,
            total: 2,
            discovery_done: true
        }
    );
}

#[test]
fn closed_ports_are_only_reported_at_the_end() {
    let table = registry();
    let ip = ipv4(10, 0, 0, 1);
    let mut scan = Scan::new(vec![22, 80]);
    scan.handle(Input::Host(ip, MAC), &table);
    scan.advance(false, 8);
    scan.advance(false, 8);
    assert!(scan.handle(Input::Answer(ip, 22, false), &table).is_none());
    match scan.handle(Input::Answer(ip, 80, false), &table) {
        Some(Event::Device(device)) => {
            assert_eq!(device.status, "Up");
            assert_eq!(device.open_ports, "");
        }
        _ => panic!("the end was not reported"),
    }
}

#[test]
fn no_more_probes_run_than_allowed() {
    let table = registry();
    let mut scan = Scan::new(vec![1, 2, 3]);
    scan.handle(Input::Host(1, MAC), &table);
    assert_eq!(scan.advance(false, 2), Action::Launch(1, 1));
    assert_eq!(scan.advance(false, 2), Action::Launch(1, 2));
    assert_eq!(scan.advance(false, 2), Action::Wait);
    scan.handle(Input::Answer(1, 1, false), &table);
    assert_eq!(scan.advance(false, 2), Action::Launch(1, 3));
    assert_eq!(scan.advance(true, 2), Action::Stop);
}

#[test]
fn without_ports_hosts_are_up_at_once() {
    let table = registry();
    let mut scan = Scan::new(vec![]);
    match scan.handle(Input::Host(5, MAC), &table) {
        Some(Event::Device(device)) => assert_eq!(device.status, "Up"),
        _ => panic!("the host was not reported"),
    }
    assert_eq!(scan.advance(false, 8), Action::Wait);
    scan.discovery_ended();
    assert_eq!(scan.advance(false, 8), Action::Stop);
    assert_eq!(scan.progress().total, 0);
}

#[test]
fn progress_grows_with_the_hosts() {
    let table = registry();
    let mut scan = Scan::new(vec![22, 80, 443]);
    scan.handle(Input::Host(1, MAC), &table);
    scan.handle(Input::Host(2, MAC), &table);
    match scan.handle(Input::Tick, &table) {
        Some(Event::Progress(progress)) => {
            assert_eq!(progress.completed, 0);
            assert_eq!(progress.total, 6);
            assert!(!progress.discovery_done);
        }
        _ => panic!("the progress was not reported"),
    }
}

#[test]
fn a_cancelled_scan_reports_what_is_incomplete() {
    let table = registry();
    let mut scan = Scan::new(vec![22]);
    scan.handle(Input::Host(9, MAC), &table);
    scan.handle(Input::Host(3, MAC), &table);
    scan.handle(Input::Host(7, MAC), &table);
    assert_eq!(scan.advance(false, 1), Action::Launch(9, 22));
    scan.handle(Input::Answer(9, 22, true), &table);
    let (devices, outcome) = scan.conclude(true, Ok(Ok(())));
    assert!(outcome.is_ok());
    let shown: Vec<(u32, &str)> = devices
        .iter()
        .map(|device| (device.ip_address, device.status.as_str()))
        .collect();
    assert_eq!(
        shown,
        vec![(3, "Up • ports incomplete"), (7, "Up • ports incomplete")]
    );
    let (devices, outcome) = scan.conclude(false, Ok(Err("search failed".into())));
    assert!(devices.is_empty());
    assert_eq!(outcome.unwrap_err(), "search failed");
    let (devices, outcome) = scan.conclude(true, Err("panic".into()));
    assert!(devices.is_empty());
    assert_eq!(outcome.unwrap_err(), "ARP worker failed: panic");
}

#[test]
fn workers_that_break_down_are_named() {
    assert_eq!(breakdown_text(Worker::Tcp, "x"), "TCP worker failed: x");
    assert_eq!(breakdown_text(Worker::Arp, "x"), "ARP worker failed: x");
    assert_eq!(breakdown_text(Worker::Scan, "x"), "Scan task failed: x");
}

#[test]
fn a_scan_has_room_for_every_host_that_a_search_reports() {
    let table = registry();
    let link = Link {
        interface: Interface {
            name: "test".into(),
            index: 1,
            up: true,
            loopback: false,
            mac: Some(MAC),
            ips: Vec::new(),
        },
        address: Network::parse("192.168.1.10/24").unwrap(),
        mac: MAC,
    };
    let other = ipv4(192, 168, 1, 20);
    let mut reply = arp_request(MacAddr(0, 1, 2, 3, 4, 5), other, link.address.ip).to_vec();
    reply[21] = 2;
    reply[32..38].copy_from_slice(&[0, 3, 0x93, 1, 2, 3]);
    let own = link.address.ip;
    let (mut search, first) = Discovery::new(link, &vec![own, other]);
    let mut scan = Scan::new(vec![22]);
    let mut found = vec![first.unwrap()];
    for _ in 0..3 {
        if let Listening::Report(ip, mac) = search.packet(&reply) {
            found.push((ip, mac));
        }
    }
    assert_eq!(found.len(), 2);
    for (ip, mac) in found {
        assert!(scan.room_for(ip));
        scan.handle(Input::Host(ip, mac), &table);
    }
    assert_eq!(scan.progress().total, 2);
}

#[test]
fn a_probe_that_breaks_down_fails_the_scan() {
    let table = registry();
    let mut scan = Scan::new(vec![22, 80]);
    scan.handle(Input::Host(1, MAC), &table);
    assert_eq!(scan.advance(false, 1), Action::Launch(1, 22));
    assert!(scan.handle(Input::Breakdown("task panicked".into()), &table).is_none());
    assert_eq!(scan.advance(false, 8), Action::Stop);
    assert_eq!(scan.advance(true, 8), Action::Stop);
    let (report, cancels_search) = scan.leave();
    assert!(report.is_none() && cancels_search);
    for search in [Ok(Ok(())), Ok(Err("search".into())), Err("panic".into())] {
        let (devices, outcome) = scan.conclude(true, search);
        assert!(devices.is_empty());
        assert_eq!(outcome.unwrap_err(), "TCP worker failed: task panicked");
    }
}

#[test]
fn a_scan_that_is_left_reports_its_progress() {
    let table = registry();
    let mut scan = Scan::new(vec![22, 80]);
    scan.handle(Input::Host(1, MAC), &table);
    match scan.leave() {
        (Some(Event::Progress(progress)), false) => assert_eq!(progress.total, 2),
        _ => panic!("the progress was not reported"),
    }
}

#[test]
fn each_host_shows_exactly_the_ports_that_answered_open() {
    let table = registry();
    let mut scan = Scan::new(vec![22, 80, 443]);
    scan.handle(Input::Host(1, MAC), &table);
    scan.handle(Input::Host(2, MAC), &table);
    while let Action::Launch(_, _) = scan.advance(false, 8) {}
    let mut shown = std::collections::BTreeMap::new();
    for (ip, port, open) in [
        (1, 443, true),
        (2, 22, false),
        (1, 80, false),
        (2, 443, false),
        (1, 22, true),
        (2, 80, true),
    ] {
        if let Some(Event::Device(device)) = scan.handle(Input::Answer(ip, port, open), &table) {
            shown.insert(device.ip_address, device.open_ports);
        }
    }
    assert_eq!(shown[&1], "22, 443");
    assert_eq!(shown[&2], "80");
}
