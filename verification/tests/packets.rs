use std::collections::HashSet;
use std::io;

use network_scanner::address::ipv4;
use network_scanner::arp::{arp_reply, arp_request};
use network_scanner::capture::{io_failure, CaptureState, Opened};
use network_scanner::discover::{
    begin_search, check_sending, search_outcome, Discovery, Listening, Requests, Sending,
};
use network_scanner::event::Event;
use network_scanner::link::{Interface, Link};
use network_scanner::mac::MacAddr;
use network_scanner::network::Network;
use pnet::packet::arp::{ArpOperations, ArpPacket, MutableArpPacket};
use pnet::packet::ethernet::{EtherTypes, EthernetPacket};
use pnet::packet::Packet;

fn test_link() -> Link {
    Link {
        interface: Interface {
            name: "test".into(),
            index: 1,
            up: false,
            loopback: false,
            mac: Some(MacAddr(0, 1, 2, 3, 4, 5)),
            ips: Vec::new(),
        },
        address: Network::parse("192.168.1.10/24").unwrap(),
        mac: MacAddr(0, 1, 2, 3, 4, 5),
    }
}

fn outside(mac: MacAddr) -> pnet::util::MacAddr {
    pnet::util::MacAddr::new(mac.0, mac.1, mac.2, mac.3, mac.4, mac.5)
}

fn reply_of(ip: u32, mac: MacAddr, link: &Link) -> [u8; 42] {
    let mut bytes = arp_request(mac, ip, link.address.ip);
    let mut arp = MutableArpPacket::new(&mut bytes[14..]).unwrap();
    arp.set_operation(ArpOperations::Reply);
    arp.set_target_hw_addr(outside(link.mac));
    bytes
}

#[test]
fn request_has_valid_ethernet_and_arp_fields() {
    let link = test_link();
    let target = ipv4(192, 168, 1, 20);
    let bytes = arp_request(link.mac, link.address.ip, target);
    let ethernet = EthernetPacket::new(&bytes).unwrap();
    assert_eq!(ethernet.get_destination(), outside(MacAddr::broadcast()));
    assert_eq!(ethernet.get_ethertype(), EtherTypes::Arp);
    let arp = ArpPacket::new(ethernet.payload()).unwrap();
    assert_eq!(arp.get_operation(), ArpOperations::Request);
    assert_eq!(u32::from(arp.get_sender_proto_addr()), link.address.ip);
    assert_eq!(arp.get_sender_hw_addr(), outside(link.mac));
    assert_eq!(u32::from(arp.get_target_proto_addr()), target);
    assert_eq!(arp.get_target_hw_addr(), outside(MacAddr::zero()));
}

#[test]
fn reply_filter_rejects_unrelated_and_truncated_packets() {
    let link = test_link();
    let remote_ip = ipv4(192, 168, 1, 20);
    let remote_mac = MacAddr(0, 3, 0x93, 1, 2, 3);
    let allowed = HashSet::from([remote_ip]);
    let mut bytes = arp_request(remote_mac, remote_ip, link.address.ip);
    {
        let mut arp = MutableArpPacket::new(&mut bytes[14..]).unwrap();
        arp.set_operation(ArpOperations::Reply);
        arp.set_target_hw_addr(outside(link.mac));
    }
    assert_eq!(
        arp_reply(&bytes, &link, &allowed),
        Some((remote_ip, remote_mac))
    );
    assert_eq!(arp_reply(&bytes[..20], &link, &allowed), None);
    assert_eq!(arp_reply(&bytes, &link, &HashSet::new()), None);
    MutableArpPacket::new(&mut bytes[14..])
        .unwrap()
        .set_target_proto_addr(ipv4(127, 0, 0, 1).into());
    assert_eq!(arp_reply(&bytes, &link, &allowed), None);
}

#[test]
fn a_request_is_exactly_these_bytes() {
    let bytes = arp_request(
        MacAddr(0, 1, 2, 3, 4, 5),
        ipv4(192, 168, 1, 10),
        ipv4(192, 168, 1, 20),
    );
    assert_eq!(
        bytes,
        [
            255, 255, 255, 255, 255, 255, 0, 1, 2, 3, 4, 5, 8, 6, 0, 1, 8, 0, 6, 4, 0, 1, 0, 1, 2, 3,
            4, 5, 192, 168, 1, 10, 0, 0, 0, 0, 0, 0, 192, 168, 1, 20
        ]
    );
}

#[test]
fn every_field_of_a_reply_counts() {
    let link = test_link();
    let ip = ipv4(192, 168, 1, 20);
    let mac = MacAddr(0, 3, 0x93, 1, 2, 3);
    let allowed = HashSet::from([ip]);
    let good = reply_of(ip, mac, &link);
    assert_eq!(arp_reply(&good, &link, &allowed), Some((ip, mac)));
    // Source, Ethernet type, hardware and protocol type, lengths, operation, target.
    for index in [6, 12, 13, 14, 15, 16, 17, 18, 19, 20, 21, 22, 28, 32, 38] {
        let mut bytes = good;
        bytes[index] ^= 0x40;
        assert_eq!(arp_reply(&bytes, &link, &allowed), None, "byte {index}");
    }
    // Padding behind the packet does not.
    let mut padded = good.to_vec();
    padded.extend([0u8; 18]);
    assert_eq!(arp_reply(&padded, &link, &allowed), Some((ip, mac)));
}

#[test]
fn group_and_zero_senders_are_ignored() {
    let link = test_link();
    let ip = ipv4(192, 168, 1, 20);
    let allowed = HashSet::from([ip]);
    for mac in [MacAddr::zero(), MacAddr::broadcast(), MacAddr(1, 0, 0, 0, 0, 1)] {
        assert_eq!(arp_reply(&reply_of(ip, mac, &link), &link, &allowed), None);
    }
    let request = arp_request(MacAddr(0, 3, 0x93, 1, 2, 3), ip, link.address.ip);
    assert_eq!(arp_reply(&request, &link, &allowed), None);
}

#[test]
fn every_other_address_is_asked_twice() {
    let link = test_link();
    let addresses = vec![ipv4(192, 168, 1, 9), link.address.ip, ipv4(192, 168, 1, 11)];
    let mut requests = Requests::new(&link, &addresses);
    let mut asked = Vec::new();
    while let Some(frame) = requests.next_frame(false) {
        asked.push([frame[38], frame[39], frame[40], frame[41]]);
    }
    assert_eq!(
        asked,
        vec![
            [192, 168, 1, 9],
            [192, 168, 1, 11],
            [192, 168, 1, 9],
            [192, 168, 1, 11]
        ]
    );
    assert!(Requests::new(&link, &addresses).next_frame(true).is_none());
}

#[test]
fn frames_that_are_not_sent_stop_the_sender() {
    assert!(check_sending(Sending::Done).is_ok());
    assert_eq!(
        check_sending(Sending::NoBuffer).unwrap_err(),
        "ARP transmit buffer unavailable."
    );
    assert_eq!(
        check_sending(Sending::Failed(io_failure(io::Error::new(
            io::ErrorKind::Other,
            "gone"
        )))).unwrap_err(),
        "ARP transmit failed: gone"
    );
}

#[test]
fn each_host_is_reported_once() {
    let link = test_link();
    let ip = ipv4(192, 168, 1, 20);
    let mac = MacAddr(0, 3, 0x93, 1, 2, 3);
    let reply = reply_of(ip, mac, &link);
    let (mut discovery, first) = Discovery::new(link.clone(), &vec![ip, link.address.ip]);
    assert_eq!(first, Some((link.address.ip, link.mac)));
    assert!(matches!(
        discovery.packet(&reply),
        Listening::Report(found, by) if found == ip && by == mac
    ));
    assert!(matches!(discovery.packet(&reply), Listening::Poll));
    assert!(matches!(discovery.packet(&reply[..30]), Listening::Poll));
    let (_, none) = Discovery::new(link, &vec![ip]);
    assert_eq!(none, None);
}

#[test]
fn listening_ends_two_seconds_after_the_last_request() {
    let (mut discovery, _) = Discovery::new(test_link(), &vec![]);
    assert!(matches!(discovery.poll(false, false, 10_000), Listening::Read));
    assert!(matches!(discovery.poll(false, true, 20_000), Listening::Read));
    assert!(matches!(discovery.poll(false, true, 21_999), Listening::Read));
    assert!(matches!(
        discovery.poll(false, true, 22_000),
        Listening::Stop(Ok(()))
    ));
    let (mut cancelled, _) = Discovery::new(test_link(), &vec![]);
    assert!(matches!(cancelled.poll(true, false, 0), Listening::Stop(Ok(()))));
    assert!(matches!(cancelled.reported(true), Listening::Poll));
    assert!(matches!(cancelled.reported(false), Listening::Stop(Ok(()))));
}

#[test]
fn only_lasting_read_errors_stop_the_search() {
    let (discovery, _) = Discovery::new(test_link(), &vec![]);
    for kind in [
        io::ErrorKind::TimedOut,
        io::ErrorKind::WouldBlock,
        io::ErrorKind::Interrupted,
    ] {
        assert!(matches!(
            discovery.read_failed(io_failure(io::Error::from(kind))),
            Listening::Poll
        ));
    }
    match discovery.read_failed(io_failure(io::Error::new(
        io::ErrorKind::BrokenPipe,
        "cut off",
    ))) {
        Listening::Stop(Err(message)) => assert_eq!(message, "ARP capture failed: cut off"),
        _ => panic!("the error was passed over"),
    }
}

#[test]
fn the_outcome_of_a_search_tells_the_first_cause() {
    assert!(search_outcome(Ok(()), Some(Ok(()))).is_ok());
    assert_eq!(
        search_outcome(Err("listening".into()), Some(Err("sending".into()))).unwrap_err(),
        "listening"
    );
    assert_eq!(
        search_outcome(Ok(()), Some(Err("sending".into()))).unwrap_err(),
        "sending"
    );
    assert_eq!(
        search_outcome(Err("listening".into()), None).unwrap_err(),
        "ARP sender thread panicked."
    );
}

#[test]
fn a_search_begins_only_where_the_capture_opens() {
    let (event, begun) = begin_search(Opened::Ethernet);
    assert!(matches!(event, Event::Capture(CaptureState::Ready)));
    assert!(begun.is_ok());
    let (event, begun) = begin_search(Opened::Other);
    assert!(matches!(event, Event::Capture(CaptureState::Unavailable(_))));
    assert_eq!(
        begun.unwrap_err(),
        "This interface does not support Ethernet ARP."
    );
    let refused = io::Error::new(io::ErrorKind::PermissionDenied, "refused");
    let (event, begun) = begin_search(Opened::Failed(io_failure(refused)));
    assert!(matches!(event, Event::Capture(CaptureState::Denied(_))));
    assert_eq!(
        begun.unwrap_err(),
        "Cannot open packet capture: refused. Grant packet-capture access and restart the application."
    );
    let missing = io::Error::new(io::ErrorKind::NotFound, "no such device");
    let (event, begun) = begin_search(Opened::Failed(io_failure(missing)));
    assert!(matches!(event, Event::Capture(CaptureState::Unavailable(_))));
    assert_eq!(
        begun.unwrap_err(),
        "Cannot open packet capture: no such device"
    );
}
