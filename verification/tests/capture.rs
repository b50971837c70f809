use std::io;

use network_scanner::capture::{
    capture_config, capture_error, capture_failure, check_capture, check_exit_code, check_report, io_failure,
    open_capture,
    ready_text, scan_failure_text, CaptureState, IoFailure, IoKind, Opened,
};
use network_scanner::link::{Interface, Link};
use network_scanner::mac::MacAddr;
use network_scanner::network::Network;
use network_scanner::panel::{capture_text, offers_command, Platform};
use network_scanner::shell::{linux_capture_command, shell_quote};

#[test]
fn capture_errors_distinguish_missing_permissions_from_adapter_errors() {
    assert!(matches!(
        capture_error(io::Error::from(io::ErrorKind::PermissionDenied)),
        CaptureState::Denied(_)
    ));
    assert!(matches!(
        capture_error(io::Error::from(io::ErrorKind::NotFound)),
        CaptureState::Unavailable(_)
    ));
    assert!(matches!(
        capture_error(io::Error::from(io::ErrorKind::Other)),
        CaptureState::Unavailable(_)
    ));
}

#[test]
fn permission_command_quotes_shell_metacharacters_as_literal_path() {
    assert_eq!(
        shell_quote("/tmp/a b/$(id)`id`'scanner"),
        "'/tmp/a b/$(id)`id`'\"'\"'scanner'"
    );
}

#[test]
fn the_text_of_an_error_is_part_of_the_message() {
    match capture_error(io::Error::new(io::ErrorKind::NotFound, "no such device")) {
        CaptureState::Unavailable(message) => {
            assert_eq!(message, "Cannot open packet capture: no such device")
        }
        other => panic!("unexpected state {other:?}"),
    }
    match capture_failure(IoFailure {
        kind: IoKind::PermissionDenied,
        text: "not permitted".into(),
    }) {
        CaptureState::Denied(message) => {
            assert_eq!(message, "Cannot open packet capture: not permitted")
        }
        other => panic!("unexpected state {other:?}"),
    }
}

#[test]
fn only_an_ethernet_channel_is_accepted() {
    assert!(open_capture(Opened::Ethernet).is_ok());
    assert!(open_capture(Opened::Other).is_err());
    assert!(matches!(check_capture(Opened::Ethernet), CaptureState::Ready));
    match check_capture(Opened::Other) {
        CaptureState::Unavailable(message) => {
            assert_eq!(message, "This interface does not support Ethernet ARP.")
        }
        other => panic!("unexpected state {other:?}"),
    }
    let denied = Opened::Failed(io_failure(io::Error::from(
        io::ErrorKind::PermissionDenied,
    )));
    assert!(matches!(check_capture(denied), CaptureState::Denied(_)));
}

#[test]
fn exit_codes_tell_the_outcomes_apart() {
    assert_eq!(check_exit_code(&CaptureState::Ready), 0);
    assert_eq!(check_exit_code(&CaptureState::Denied("x".into())), 2);
    assert_eq!(check_exit_code(&CaptureState::Unavailable("x".into())), 1);
    assert_eq!(check_exit_code(&CaptureState::Unchecked), 1);
    assert_eq!(
        ready_text("eth0", 0xC0A8_010A),
        "Packet capture ready on eth0 (192.168.1.10)."
    );
}

#[test]
fn a_scan_without_capture_says_why() {
    assert_eq!(
        scan_failure_text(&CaptureState::Denied("No access".into())),
        "No access. Grant packet-capture access and restart the application."
    );
    assert_eq!(
        scan_failure_text(&CaptureState::Unavailable("No adapter".into())),
        "No adapter"
    );
}

#[test]
fn the_capture_is_opened_with_short_timeouts() {
    let config = capture_config();
    assert_eq!(config.read_timeout_ms, 100);
    assert_eq!(config.write_timeout_ms, 100);
    assert_eq!(config.read_buffer_size, 65536);
    assert!(!config.promiscuous);
}

#[test]
fn the_permission_command_names_the_executable() {
    assert_eq!(
        linux_capture_command(Some("/opt/it's here/scanner")).as_deref(),
        Some("sudo setcap cap_net_raw=ep '/opt/it'\"'\"'s here/scanner'")
    );
    assert!(linux_capture_command(None).is_none());
    assert_eq!(shell_quote(""), "''");
}

#[test]
fn the_panel_explains_the_state_of_the_capture() {
    let ready = capture_text(&CaptureState::Ready, Platform::Linux);
    assert_eq!(ready.headline, "Packet capture ready");
    assert!(!ready.bad && ready.details.is_empty());
    let checking = capture_text(&CaptureState::Checking, Platform::Linux);
    assert_eq!(checking.headline, "Checking packet capture…");
    let denied = CaptureState::Denied("refused".into());
    let shown = capture_text(&denied, Platform::Windows);
    assert_eq!(shown.headline, "Packet capture access denied");
    assert!(shown.bad);
    assert_eq!(
        shown.details,
        vec![
            "refused".to_string(),
            "Install Npcap with WinPcap compatibility and allow capture access, or run as administrator.".to_string(),
        ]
    );
    let gone = CaptureState::Unavailable("gone".into());
    assert_eq!(
        capture_text(&gone, Platform::Windows).details,
        vec![
            "gone".to_string(),
            "Check the Npcap installation and adapter status.".to_string(),
        ]
    );
    assert_eq!(
        capture_text(&gone, Platform::Other).details,
        vec!["gone".to_string()]
    );
    assert!(offers_command(&denied, Platform::Linux));
    assert!(!offers_command(&denied, Platform::Other));
    assert!(!offers_command(&gone, Platform::Linux));
}

#[test]
fn the_capture_check_reports_each_outcome() {
    let link = Link {
        interface: Interface {
            name: "eth0".into(),
            index: 1,
            up: true,
            loopback: false,
            mac: Some(MacAddr(0, 1, 2, 3, 4, 5)),
            ips: Vec::new(),
        },
        address: Network::parse("192.168.1.10/24").unwrap(),
        mac: MacAddr(0, 1, 2, 3, 4, 5),
    };
    assert_eq!(
        check_report(None),
        (
            Some("No active IPv4 Ethernet/Wi-Fi interface found.".to_string()),
            1
        )
    );
    assert_eq!(
        check_report(Some((&link, &CaptureState::Ready))),
        (
            Some("Packet capture ready on eth0 (192.168.1.10).".to_string()),
            0
        )
    );
    assert_eq!(
        check_report(Some((&link, &CaptureState::Denied("x".into())))),
        (None, 2)
    );
    assert_eq!(
        check_report(Some((&link, &CaptureState::Unavailable("x".into())))),
        (None, 1)
    );
}
