use std::collections::VecDeque;

use network_scanner::capture::CaptureState;
use network_scanner::device::Device;
use network_scanner::event::Event;
use network_scanner::link::{Interface, Link};
use network_scanner::mac::MacAddr;
use network_scanner::network::{parse_subnet, Network};
use network_scanner::ports::parse_ports;
use network_scanner::scan::Progress;
use network_scanner::session::{Polled, Preset, ScannerApp, EVENTS_PER_POLL};

fn link(name: &str, address: &str) -> Link {
    Link {
        interface: Interface {
            name: name.into(),
            index: 1,
            up: true,
            loopback: false,
            mac: Some(MacAddr(0, 1, 2, 3, 4, 5)),
            ips: Vec::new(),
        },
        address: Network::parse(address).unwrap(),
        mac: MacAddr(0, 1, 2, 3, 4, 5),
    }
}

fn app() -> ScannerApp {
    ScannerApp::new(vec![
        link("eth0", "192.168.1.10/24"),
        link("wlan0", "10.0.0.7/16"),
    ])
}

fn device(ip: u32, open_ports: &str) -> Device {
    Device {
        status: "Up".into(),
        ip_address: ip,
        mac_address: "00:03:93:01:02:03".into(),
        vendor: "Apple".into(),
        open_ports: open_ports.into(),
    }
}

fn started() -> ScannerApp {
    let mut app = app();
    let available = app.interfaces.clone();
    app.start(available).unwrap();
    app
}

#[test]
fn a_new_session_proposes_the_first_network() {
    let app = app();
    assert_eq!(app.subnet, "192.168.1.0/24");
    assert_eq!(app.ports, "22, 80, 443");
    assert_eq!(app.export_path, "scan-results.csv");
    assert_eq!(app.message, "Ready");
    assert_eq!(app.timeout_ms, 700);
    assert_eq!(app.concurrency, 256);
    assert!(!app.active && !app.started && app.devices.is_empty());
    assert!(matches!(app.capture_state, CaptureState::Unchecked));
    let alone = ScannerApp::new(Vec::new());
    assert_eq!(alone.subnet, "192.168.1.0/24");
    assert!(parse_subnet(&alone.subnet).is_ok());
    assert!(parse_subnet(&app.subnet).is_ok());
}

#[test]
fn the_capture_is_checked_once_for_each_link() {
    let mut app = app();
    let first = app.refresh_capture().unwrap();
    assert_eq!(first.interface.name, "eth0");
    assert!(app.checking);
    assert!(matches!(app.capture_state, CaptureState::Checking));
    assert!(app.refresh_capture().is_none());
    app.poll_capture(Polled::Empty);
    assert!(app.checking && !app.can_recheck());
    app.poll_capture(Polled::Received(CaptureState::Ready));
    assert!(matches!(app.capture_state, CaptureState::Ready));
    assert!(app.can_recheck());
    assert!(app.refresh_capture().is_none());
    app.subnet = "10.0.5.0/24".into();
    assert_eq!(app.refresh_capture().unwrap().interface.name, "wlan0");
    app.poll_capture(Polled::Disconnected);
    match &app.capture_state {
        CaptureState::Unavailable(message) => assert_eq!(
            message,
            "Capture check failed unexpectedly. Retry the check."
        ),
        other => panic!("unexpected state {other:?}"),
    }
    let links = app.interfaces.clone();
    app.refresh_interfaces(links);
    assert!(app.refresh_capture().is_some());
    app.subnet = "nonsense".into();
    assert!(app.refresh_capture().is_none());
    assert!(!app.checking);
    match &app.capture_state {
        CaptureState::Unavailable(message) => {
            assert_eq!(message, "Enter an IPv4 CIDR, for example 192.168.1.0/24.")
        }
        other => panic!("unexpected state {other:?}"),
    }
}

#[test]
fn a_refused_start_changes_nothing_but_the_error() {
    let mut app = app();
    app.subnet = "10.0.0.0/8".into();
    app.ports = "none".into();
    let links = app.interfaces.clone();
    assert!(app.start_or_tell(links.clone()).is_none());
    assert_eq!(
        app.error.as_deref(),
        Some("Use a /20 or smaller range (at most 4096 addresses).")
    );
    assert!(!app.active && !app.started);
    app.subnet = "192.168.1.0/24".into();
    assert!(app.start_or_tell(links.clone()).is_none());
    assert_eq!(
        app.error.as_deref(),
        Some("Invalid port 'none': use numbers 1–65535.")
    );
    app.ports.clear();
    app.selected_interface = Some("wlan0".into());
    assert!(app.start_or_tell(links).is_none());
    assert_eq!(
        app.error.as_deref(),
        Some("No matching active interface covers this subnet. Choose an interface on the directly connected IPv4 LAN.")
    );
}

#[test]
fn a_start_hands_over_what_was_entered() {
    let mut app = app();
    app.devices.insert(1, device(1, ""));
    app.error = Some("old".into());
    app.notice = Some("old".into());
    app.set_timeout(900);
    app.set_concurrency(32);
    let links = app.interfaces.clone();
    let job = app.start_or_tell(links).unwrap();
    assert_eq!(job.network.to_text(), "192.168.1.0/24");
    assert_eq!(job.link.interface.name, "eth0");
    assert_eq!(job.ports, vec![22, 80, 443]);
    assert_eq!(job.timeout_ms, 900);
    assert_eq!(job.concurrency, 32);
    assert!(app.active && app.started && app.listening);
    assert!(app.devices.is_empty() && app.error.is_none() && app.notice.is_none());
    assert_eq!(app.message, "Opening ARP interface…");
    assert!(app.refresh_capture().is_none());
    assert!(app.can_stop(false) && !app.can_stop(true));
    app.stop();
    assert_eq!(app.message, "Cancelling…");
}

#[test]
fn reports_are_taken_in_until_the_scan_ends() {
    let mut app = started();
    app.read_clock(12);
    assert_eq!(app.elapsed_secs, 12);
    let mut waiting = VecDeque::from(vec![
        Event::Status("Scanning".into()),
        Event::Capture(CaptureState::Ready),
        Event::Device(device(2, "")),
        Event::Device(device(2, "22")),
        Event::Progress(Progress {
            completed: 1,
            total: 3,
            discovery_done: true,
        }),
    ]);
    app.poll_scan(&mut waiting, true, false);
    assert!(waiting.is_empty());
    assert_eq!(app.message, "Scanning");
    assert!(matches!(app.capture_state, CaptureState::Ready));
    assert_eq!(app.devices.len(), 1);
    assert_eq!(app.devices[&2].open_ports, "22");
    assert_eq!(app.progress.completed, 1);
    assert!(app.active && app.listening && app.awaits_something());
    let mut waiting = VecDeque::from(vec![
        Event::Finished(Ok(())),
        Event::Status("late".into()),
    ]);
    app.poll_scan(&mut waiting, true, false);
    assert_eq!(waiting.len(), 1);
    assert_eq!(app.message, "Scan complete");
    assert!(!app.active && !app.listening && !app.awaits_something());
    assert!(app.shows_progress());
    app.read_clock(99);
    assert_eq!(app.elapsed_secs, 12);
}

#[test]
fn the_end_of_a_scan_is_told() {
    let mut cancelled = started();
    let mut waiting = VecDeque::from(vec![Event::Finished(Ok(()))]);
    cancelled.poll_scan(&mut waiting, true, true);
    assert_eq!(cancelled.message, "Scan cancelled");
    assert!(cancelled.error.is_none());
    let mut failed = started();
    let mut waiting = VecDeque::from(vec![Event::Finished(Err("why".into()))]);
    failed.poll_scan(&mut waiting, true, true);
    assert_eq!(failed.message, "Scan failed");
    assert_eq!(failed.error.as_deref(), Some("why"));
    failed.dismiss_error();
    assert!(failed.error.is_none());
    let mut lost = started();
    let mut waiting = VecDeque::from(vec![Event::Status("last words".into())]);
    lost.poll_scan(&mut waiting, false, false);
    assert_eq!(lost.message, "last words");
    assert!(!lost.active && !lost.listening);
    assert_eq!(
        lost.error.as_deref(),
        Some("Scan worker disconnected unexpectedly.")
    );
}

#[test]
fn an_export_holds_all_devices_whatever_is_shown() {
    let mut app = app();
    assert!(!app.can_export());
    app.devices.insert(1, device(1, "22, 443"));
    app.devices.insert(2, device(2, ""));
    app.search = "nothing like it".into();
    app.open_only = true;
    app.export_path = " out.csv ".into();
    assert!(app.can_export());
    let job = app.begin_export();
    assert_eq!(job.target, "out.csv");
    assert_eq!(job.notice, "Exported 2 devices to  out.csv ");
    assert_eq!(
        job.contents,
        "status,ip_address,mac_address,vendor,open_ports\nUp,0.0.0.1,00:03:93:01:02:03,Apple,\"22, 443\"\nUp,0.0.0.2,00:03:93:01:02:03,Apple,\n"
    );
    assert!(app.exporting && !app.can_export());
    app.poll_export(Polled::Empty);
    assert!(app.exporting);
    app.poll_export(Polled::Received(Ok(job.notice)));
    assert!(!app.exporting);
    assert_eq!(
        app.notice.as_deref(),
        Some("Exported 2 devices to  out.csv ")
    );
    app.begin_export();
    assert!(app.notice.is_none());
    app.poll_export(Polled::Received(Err("disk full".into())));
    assert_eq!(app.error.as_deref(), Some("disk full"));
    app.begin_export();
    app.poll_export(Polled::Disconnected);
    assert_eq!(
        app.error.as_deref(),
        Some("CSV export worker disconnected.")
    );
}

#[test]
fn choosing_an_interface_proposes_its_subnet() {
    let mut app = app();
    app.selected_interface = Some("wlan0".into());
    app.select_interface(&None);
    assert_eq!(app.subnet, "10.0.0.0/24");
    let links = app.interfaces.clone();
    assert_eq!(app.start(links).unwrap().link.interface.name, "wlan0");
    app.subnet = "10.0.3.0/24".into();
    app.select_interface(&Some("wlan0".into()));
    assert_eq!(app.subnet, "10.0.3.0/24");
    app.selected_interface = None;
    app.select_interface(&Some("wlan0".into()));
    assert_eq!(app.subnet, "10.0.3.0/24");
    app.selected_interface = Some("gone".into());
    app.select_interface(&None);
    assert_eq!(app.subnet, "10.0.3.0/24");
}

#[test]
fn presets_enter_their_ports() {
    let mut app = app();
    app.choose_preset(Preset::Common);
    assert_eq!(app.ports, "22, 53, 80, 139, 443, 445, 3389, 8080");
    app.choose_preset(Preset::Web);
    assert_eq!(app.ports, "80, 443, 8000, 8080, 8443");
    assert_eq!(
        parse_ports(&app.ports).unwrap(),
        vec![80, 443, 8000, 8080, 8443]
    );
    app.choose_preset(Preset::ArpOnly);
    assert_eq!(app.ports, "");
    assert!(parse_ports(&app.ports).unwrap().is_empty());
    app.command_copied();
    assert_eq!(
        app.notice.as_deref(),
        Some("Command copied. Run it in a terminal, then restart this application.")
    );
}

#[test]
fn no_more_reports_are_taken_in_than_the_limit() {
    assert_eq!(EVENTS_PER_POLL, 1024);
    let mut app = started();
    let mut waiting: VecDeque<Event> = (0..1025)
        .map(|index: u32| Event::Status(index.to_string()))
        .collect();
    app.poll(Polled::Empty, Polled::Empty, 3, &mut waiting, true, false);
    assert_eq!(app.message, "1023");
    assert_eq!(waiting.len(), 1);
    assert!(app.active && app.listening);
    assert_eq!(app.elapsed_secs, 3);
    app.poll(Polled::Empty, Polled::Empty, 4, &mut waiting, true, false);
    assert_eq!(app.message, "1024");
    assert!(waiting.is_empty());
    assert!(app.active && app.listening);
}

#[test]
fn a_full_row_does_not_notice_the_end_of_the_channel() {
    let mut app = started();
    let mut waiting: VecDeque<Event> = (0..1024)
        .map(|index: u32| Event::Status(index.to_string()))
        .collect();
    app.poll_scan(&mut waiting, false, false);
    assert_eq!(app.message, "1023");
    assert!(app.active && app.listening);
    app.poll_scan(&mut waiting, false, false);
    assert!(!app.active && !app.listening);
}

#[test]
fn nothing_is_taken_in_while_nothing_is_awaited() {
    let mut app = app();
    let mut waiting = VecDeque::from(vec![Event::Status("stray".into())]);
    app.poll_scan(&mut waiting, false, false);
    assert_eq!(app.message, "Ready");
    assert_eq!(waiting.len(), 1);
}

#[test]
fn settings_stay_within_their_bounds() {
    let mut app = app();
    for (asked, taken) in [(0, 100), (100, 100), (1500, 1500), (3000, 3000), (u64::MAX, 3000)] {
        app.set_timeout(asked);
        assert_eq!(app.timeout_ms, taken);
    }
    for (asked, taken) in [(0, 16), (16, 16), (300, 300), (512, 512), (usize::MAX, 512)] {
        app.set_concurrency(asked);
        assert_eq!(app.concurrency, taken);
    }
}
