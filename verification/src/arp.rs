//! The packets of the address resolution protocol.

use std::collections::HashSet;

use pnet::packet::arp::{ArpHardwareType, ArpOperation, ArpPacket, MutableArpPacket};
use pnet::packet::ethernet::{EtherType, EthernetPacket, MutableEthernetPacket};
use pnet::util::MacAddr as HardwareAddr;
use vstd::prelude::*;

use crate::link::Link;
use crate::mac::MacAddr;

verus! {

/// The Ethernet type of address resolution.
pub const ETHERTYPE_ARP: u16 = 0x0806;

/// The Ethernet type of IPv4.
pub const ETHERTYPE_IPV4: u16 = 0x0800;

/// The hardware type of Ethernet.
pub const HARDWARE_ETHERNET: u16 = 1;

/// The operation that asks who has an address.
pub const OPERATION_REQUEST: u16 = 1;

/// The operation that answers.
pub const OPERATION_REPLY: u16 = 2;

/// An Ethernet frame, without its destination.
pub struct Frame {
    pub source: MacAddr,
    pub ethertype: u16,
    pub payload: Vec<u8>,
}

/// The contents of a [`Frame`].
#[verifier::ext_equal]
pub struct FrameView {
    pub source: MacAddr,
    pub ethertype: u16,
    pub payload: Seq<u8>,
}

impl View for Frame {
    type V = FrameView;

    open spec fn view(&self) -> FrameView {
        FrameView { source: self.source, ethertype: self.ethertype, payload: self.payload@ }
    }
}

/// A packet of address resolution.
#[derive(Clone, Copy, Debug, PartialEq, Eq, Structural)]
pub struct Arp {
    pub hardware_type: u16,
    pub protocol_type: u16,
    pub hardware_length: u8,
    pub protocol_length: u8,
    pub operation: u16,
    pub sender_mac: MacAddr,
    pub sender_ip: u32,
    pub target_mac: MacAddr,
    pub target_ip: u32,
}

/// The bytes of a 16-bit number, most significant first.
pub open spec fn u16_bytes(n: u16) -> Seq<u8> {
    seq![(n / 256) as u8, (n % 256) as u8]
}

/// The 16-bit number that stands at an index.
pub open spec fn u16_at(bytes: Seq<u8>, i: int) -> u16 {
    (bytes[i] * 256 + bytes[i + 1]) as u16
}

/// The bytes of a hardware address.
pub open spec fn mac_bytes(mac: MacAddr) -> Seq<u8> {
    seq![mac.0, mac.1, mac.2, mac.3, mac.4, mac.5]
}

/// The hardware address that stands at an index.
pub open spec fn mac_at(bytes: Seq<u8>, i: int) -> MacAddr {
    MacAddr(bytes[i], bytes[i + 1], bytes[i + 2], bytes[i + 3], bytes[i + 4], bytes[i + 5])
}

/// The bytes of an IPv4 address, most significant first.
pub open spec fn ip_bytes(ip: u32) -> Seq<u8> {
    seq![
        crate::address::ipv4_byte(ip, 0),
        crate::address::ipv4_byte(ip, 1),
        crate::address::ipv4_byte(ip, 2),
        crate::address::ipv4_byte(ip, 3),
    ]
}

/// The IPv4 address that stands at an index.
pub open spec fn ip_at(bytes: Seq<u8>, i: int) -> u32 {
    crate::address::ipv4_number(bytes[i], bytes[i + 1], bytes[i + 2], bytes[i + 3])
}

/// The header of an Ethernet frame.
pub open spec fn ethernet_header(destination: MacAddr, source: MacAddr, ethertype: u16) -> Seq<u8> {
    mac_bytes(destination) + mac_bytes(source) + u16_bytes(ethertype)
}

/// The frame that the bytes hold: there must be a whole header, and what follows it is the
/// payload.
pub open spec fn frame_of(bytes: Seq<u8>) -> Option<FrameView> {
    if bytes.len() >= 14 {
        Some(
            FrameView {
                source: mac_at(bytes, 6),
                ethertype: u16_at(bytes, 12),
                payload: bytes.skip(14),
            },
        )
    } else {
        None
    }
}

/// The bytes of a packet of address resolution.
pub open spec fn arp_bytes(arp: Arp) -> Seq<u8> {
    u16_bytes(arp.hardware_type) + u16_bytes(arp.protocol_type) + seq![
        arp.hardware_length,
        arp.protocol_length,
    ] + u16_bytes(arp.operation) + mac_bytes(arp.sender_mac) + ip_bytes(arp.sender_ip) + mac_bytes(
        arp.target_mac,
    ) + ip_bytes(arp.target_ip)
}

/// The packet of address resolution that the bytes begin with: they must hold all of it.
pub open spec fn arp_of(bytes: Seq<u8>) -> Option<Arp> {
    if bytes.len() >= 28 {
        Some(
            Arp {
                hardware_type: u16_at(bytes, 0),
                protocol_type: u16_at(bytes, 2),
                hardware_length: bytes[4],
                protocol_length: bytes[5],
                operation: u16_at(bytes, 6),
                sender_mac: mac_at(bytes, 8),
                sender_ip: ip_at(bytes, 14),
                target_mac: mac_at(bytes, 18),
                target_ip: ip_at(bytes, 24),
            },
        )
    } else {
        None
    }
}

/// Calls the setters of `pnet::packet::ethernet::MutableEthernetPacket` for the destination,
/// the source and the type on an empty header. They write the three one after another, the
/// type with its most significant byte first.
#[verifier::external_body]
fn encode_ethernet(destination: MacAddr, source: MacAddr, ethertype: u16) -> (result: Vec<u8>)
    ensures
        result@ == ethernet_header(destination, source, ethertype),
{
    let (d, s) = (destination, source);
    let mut bytes = vec![0u8; 14];
    let mut packet = MutableEthernetPacket::new(&mut bytes).unwrap();
    packet.set_destination(HardwareAddr(d.0, d.1, d.2, d.3, d.4, d.5));
    packet.set_source(HardwareAddr(s.0, s.1, s.2, s.3, s.4, s.5));
    packet.set_ethertype(EtherType(ethertype));
    bytes
}

/// Calls the setters of `pnet::packet::arp::MutableArpPacket` for all nine fields on an empty
/// packet. They write the fields one after another, each number with its most significant
/// byte first.
#[verifier::external_body]
fn encode_arp(arp: Arp) -> (result: Vec<u8>)
    ensures
        result@ == arp_bytes(arp),
{
    let (s, t) = (arp.sender_mac, arp.target_mac);
    let mut bytes = vec![0u8; 28];
    let mut packet = MutableArpPacket::new(&mut bytes).unwrap();
    packet.set_hardware_type(ArpHardwareType(arp.hardware_type));
    packet.set_protocol_type(EtherType(arp.protocol_type));
    packet.set_hw_addr_len(arp.hardware_length);
    packet.set_proto_addr_len(arp.protocol_length);
    packet.set_operation(ArpOperation(arp.operation));
    packet.set_sender_hw_addr(HardwareAddr(s.0, s.1, s.2, s.3, s.4, s.5));
    packet.set_sender_proto_addr(arp.sender_ip.into());
    packet.set_target_hw_addr(HardwareAddr(t.0, t.1, t.2, t.3, t.4, t.5));
    packet.set_target_proto_addr(arp.target_ip.into());
    bytes
}

/// Calls `pnet::packet::ethernet::EthernetPacket::new`, which wants a whole header, and the
/// getters of the source, the type and the payload, which read what stands in their places.
#[verifier::external_body]
fn decode_ethernet(bytes: &[u8]) -> (result: Option<Frame>)
    ensures
        match frame_of(bytes@) {
            Some(frame) => result is Some && result->0@ == frame,
            None => result is None,
        },
{
    let packet = EthernetPacket::new(bytes)?;
    let s = packet.get_source();
    Some(
        Frame {
            source: MacAddr(s.0, s.1, s.2, s.3, s.4, s.5),
            ethertype: packet.get_ethertype().0,
            payload: pnet::packet::Packet::payload(&packet).to_vec(),
        },
    )
}

/// Calls `pnet::packet::arp::ArpPacket::new`, which wants a whole packet, and the getters of
/// all nine fields, which read what stands in their places.
#[verifier::external_body]
fn decode_arp(bytes: &[u8]) -> (result: Option<Arp>)
    ensures
        result == arp_of(bytes@),
{
    let packet = ArpPacket::new(bytes)?;
    let (s, t) = (packet.get_sender_hw_addr(), packet.get_target_hw_addr());
    Some(Arp {
        hardware_type: packet.get_hardware_type().0,
        protocol_type: packet.get_protocol_type().0,
        hardware_length: packet.get_hw_addr_len(),
        protocol_length: packet.get_proto_addr_len(),
        operation: packet.get_operation().0,
        sender_mac: MacAddr(s.0, s.1, s.2, s.3, s.4, s.5),
        sender_ip: packet.get_sender_proto_addr().into(),
        target_mac: MacAddr(t.0, t.1, t.2, t.3, t.4, t.5),
        target_ip: packet.get_target_proto_addr().into(),
    })
}

/// The packet that asks who has an address.
pub open spec fn request(source: MacAddr, source_ip: u32, target: u32) -> Arp {
    Arp {
        hardware_type: HARDWARE_ETHERNET,
        protocol_type: ETHERTYPE_IPV4,
        hardware_length: 6,
        protocol_length: 4,
        operation: OPERATION_REQUEST,
        sender_mac: source,
        sender_ip: source_ip,
        target_mac: MacAddr::spec_zero(),
        target_ip: target,
    }
}

/// The frame that asks everyone who has an address.
pub open spec fn request_frame(source: MacAddr, source_ip: u32, target: u32) -> Seq<u8> {
    ethernet_header(MacAddr::spec_broadcast(), source, ETHERTYPE_ARP) + arp_bytes(
        request(source, source_ip, target),
    )
}

/// The frame that asks everyone who has an address.
pub fn arp_request(source: MacAddr, source_ip: u32, target: u32) -> (result: [u8; 42])
    ensures
        result@ == request_frame(source, source_ip, target),
        result@[12] == 8 && result@[13] == 6,
        result@[20] == 0 && result@[21] == 1,
{
    let header = encode_ethernet(MacAddr::broadcast(), source, ETHERTYPE_ARP);
    let packet = encode_arp(
        Arp {
            hardware_type: HARDWARE_ETHERNET,
            protocol_type: ETHERTYPE_IPV4,
            hardware_length: 6,
            protocol_length: 4,
            operation: OPERATION_REQUEST,
            sender_mac: source,
            sender_ip: source_ip,
            target_mac: MacAddr::zero(),
            target_ip: target,
        },
    );
    let ghost all = request_frame(source, source_ip, target);
    let mut bytes: [u8; 42] = [0u8; 42];
    let mut i: usize = 0;
    while i < 42
        invariant
            0 <= i <= 42,
            header@.len() == 14,
            packet@.len() == 28,
            all == header@ + packet@,
            forall|j: int| 0 <= j < i ==> #[trigger] bytes@[j] == all[j],
        decreases 42 - i,
    {
        if i < 14 {
            bytes[i] = header[i];
        } else {
            bytes[i] = packet[i - 14];
        }
        i += 1;
    }
    assert(bytes@ =~= all);
    proof {
        law_request_byte_for_byte(source, source_ip, target);
    }
    bytes
}

/// Whether a packet answers a request of the given address and names a station: it is
/// addressed to the one that asked, and the one that sent it speaks for itself.
pub open spec fn answers(arp: Arp, source: MacAddr, link_ip: u32, link_mac: MacAddr) -> bool {
    &&& arp.operation == OPERATION_REPLY
    &&& arp.hardware_type == HARDWARE_ETHERNET
    &&& arp.protocol_type == ETHERTYPE_IPV4
    &&& arp.hardware_length == 6
    &&& arp.protocol_length == 4
    &&& arp.target_ip == link_ip
    &&& arp.target_mac == link_mac
    &&& arp.sender_mac == source
    &&& arp.sender_mac != MacAddr::spec_zero()
    &&& !arp.sender_mac.is_group()
}

/// The host that a frame announces: it must be one of the allowed addresses that answers.
pub open spec fn announced(
    bytes: Seq<u8>,
    link_ip: u32,
    link_mac: MacAddr,
    allowed: Set<u32>,
) -> Option<(u32, MacAddr)> {
    match frame_of(bytes) {
        None => None,
        Some(frame) => match arp_of(frame.payload) {
            None => None,
            Some(arp) => if frame.ethertype == ETHERTYPE_ARP && answers(
                arp,
                frame.source,
                link_ip,
                link_mac,
            ) && allowed.contains(arp.sender_ip) {
                Some((arp.sender_ip, arp.sender_mac))
            } else {
                None
            },
        },
    }
}

/// The host that a frame announces.
pub fn arp_reply(bytes: &[u8], link: &Link, allowed: &HashSet<u32>) -> (result: Option<
    (u32, MacAddr),
>)
    ensures
        result == announced(bytes@, link.address.ip, link.mac, allowed@),
{
    broadcast use vstd::std_specs::hash::group_hash_axioms;

    let frame = match decode_ethernet(bytes) {
        Some(frame) => frame,
        None => {
            return None;
        },
    };
    if frame.ethertype != ETHERTYPE_ARP {
        return None;
    }
    let arp = match decode_arp(frame.payload.as_slice()) {
        Some(arp) => arp,
        None => {
            return None;
        },
    };
    let ip: u32 = arp.sender_ip;
    let mac = arp.sender_mac;
    if arp.operation != OPERATION_REPLY || arp.hardware_type != HARDWARE_ETHERNET
        || arp.protocol_type != ETHERTYPE_IPV4 || arp.hardware_length != 6 || arp.protocol_length
        != 4 || arp.target_ip != link.address.ip || arp.target_mac != link.mac || frame.source
        != mac || mac.is_zero() || mac.0 % 2 == 1 || !allowed.contains(&ip) {
        return None;
    }
    Some((ip, mac))
}

// ---------------------------------------------------------------------------------------
// Laws.

/// Reading a packet gives back the packet that was written, whatever follows it.
pub proof fn law_packet_reads_back(arp: Arp, rest: Seq<u8>)
    ensures
        arp_bytes(arp).len() == 28,
        arp_of(arp_bytes(arp) + rest) == Some(arp),
{
    let bytes = arp_bytes(arp) + rest;
    assert(u16_at(bytes, 0) == arp.hardware_type);
    assert(u16_at(bytes, 2) == arp.protocol_type);
    assert(u16_at(bytes, 6) == arp.operation);
    assert(mac_at(bytes, 8) == arp.sender_mac);
    crate::address::law_bytes_make_up_the_address(arp.sender_ip);
    assert(ip_at(bytes, 14) == arp.sender_ip);
    assert(mac_at(bytes, 18) == arp.target_mac);
    crate::address::law_bytes_make_up_the_address(arp.target_ip);
    assert(ip_at(bytes, 24) == arp.target_ip);
}

/// Reading a frame gives back the source, the type and the payload that were written.
pub proof fn law_frame_reads_back(
    destination: MacAddr,
    source: MacAddr,
    ethertype: u16,
    payload: Seq<u8>,
)
    ensures
        frame_of(ethernet_header(destination, source, ethertype) + payload) == Some(
            FrameView { source, ethertype, payload },
        ),
        mac_at(ethernet_header(destination, source, ethertype) + payload, 0) == destination,
{
    let bytes = ethernet_header(destination, source, ethertype) + payload;
    assert(bytes.skip(14) =~= payload);
    assert(u16_at(bytes, 12) == ethertype);
    assert(mac_at(bytes, 6) == source);
}

/// A request is a frame of address resolution to everyone, and asks for the target in the
/// name of the source.
pub proof fn law_request_is_well_formed(source: MacAddr, source_ip: u32, target: u32)
    ensures
        request_frame(source, source_ip, target).len() == 42,
        mac_at(request_frame(source, source_ip, target), 0) == MacAddr::spec_broadcast(),
        frame_of(request_frame(source, source_ip, target)) == Some(
            FrameView {
                source,
                ethertype: ETHERTYPE_ARP,
                payload: arp_bytes(request(source, source_ip, target)),
            },
        ),
        arp_of(arp_bytes(request(source, source_ip, target))) == Some(
            request(source, source_ip, target),
        ),
{
    let arp = request(source, source_ip, target);
    law_packet_reads_back(arp, Seq::empty());
    assert(arp_bytes(arp) + Seq::<u8>::empty() =~= arp_bytes(arp));
    law_frame_reads_back(MacAddr::spec_broadcast(), source, ETHERTYPE_ARP, arp_bytes(arp));
}

/// No request announces a host, not even that of another scanner.
pub proof fn law_request_announces_nobody(
    source: MacAddr,
    source_ip: u32,
    target: u32,
    link_ip: u32,
    link_mac: MacAddr,
    allowed: Set<u32>,
)
    ensures
        announced(request_frame(source, source_ip, target), link_ip, link_mac, allowed) is None,
{
    law_request_is_well_formed(source, source_ip, target);
}

/// The answer that a station with the given addresses sends to a request of the link
/// announces the station if its address was asked for, whatever padding follows.
pub proof fn law_reply_announces_its_sender(
    ip: u32,
    mac: MacAddr,
    link_ip: u32,
    link_mac: MacAddr,
    allowed: Set<u32>,
    padding: Seq<u8>,
)
    requires
        mac != MacAddr::spec_zero(),
        !mac.is_group(),
    ensures
        ({
            let arp = Arp {
                operation: OPERATION_REPLY,
                target_mac: link_mac,
                ..request(mac, ip, link_ip)
            };
            announced(
                ethernet_header(link_mac, mac, ETHERTYPE_ARP) + (arp_bytes(arp) + padding),
                link_ip,
                link_mac,
                allowed,
            ) == if allowed.contains(ip) {
                Some((ip, mac))
            } else {
                None
            }
        }),
{
    let arp = Arp {
        operation: OPERATION_REPLY,
        target_mac: link_mac,
        ..request(mac, ip, link_ip)
    };
    law_packet_reads_back(arp, padding);
    law_frame_reads_back(link_mac, mac, ETHERTYPE_ARP, arp_bytes(arp) + padding);
}

/// A frame that was cut off announces nobody.
pub proof fn law_truncated_frame_announces_nobody(
    bytes: Seq<u8>,
    link_ip: u32,
    link_mac: MacAddr,
    allowed: Set<u32>,
)
    requires
        bytes.len() < 42,
    ensures
        announced(bytes, link_ip, link_mac, allowed) is None,
{
}

/// Whoever is announced was asked for, and has the address of a single station.
pub proof fn law_announced_host_was_asked_for(
    bytes: Seq<u8>,
    link_ip: u32,
    link_mac: MacAddr,
    allowed: Set<u32>,
)
    ensures
        announced(bytes, link_ip, link_mac, allowed) matches Some((ip, mac)) ==> allowed.contains(
            ip,
        ) && mac != MacAddr::spec_zero() && !mac.is_group(),
{
}

/// A request holds, byte for byte: the address of everyone, the source, the type of frames of
/// address resolution, and a packet that asks in the name of the source, over Ethernet and with
/// addresses of six and of four bytes, for the hardware address of the target, which is left
/// open.
pub proof fn law_request_byte_for_byte(source: MacAddr, source_ip: u32, target: u32)
    ensures
        request_frame(source, source_ip, target) == seq![
            255u8, 255u8, 255u8, 255u8, 255u8, 255u8,
            source.0, source.1, source.2, source.3, source.4, source.5,
            8u8, 6u8,
            0u8, 1u8,
            8u8, 0u8,
            6u8, 4u8,
            0u8, 1u8,
            source.0, source.1, source.2, source.3, source.4, source.5,
            (source_ip as int / 0x100_0000) as u8,
            (source_ip as int / 0x1_0000 % 0x100) as u8,
            (source_ip as int / 0x100 % 0x100) as u8,
            (source_ip as int % 0x100) as u8,
            0u8, 0u8, 0u8, 0u8, 0u8, 0u8,
            (target as int / 0x100_0000) as u8,
            (target as int / 0x1_0000 % 0x100) as u8,
            (target as int / 0x100 % 0x100) as u8,
            (target as int % 0x100) as u8,
        ],
{
}

/// Whoever reads a request finds an Ethernet frame of address resolution from the source, and in
/// it operation 1 of hardware of type 1 for IPv4, with the lengths 6 and 4, the addresses of the
/// source, no hardware address of the target, and the target.
pub proof fn law_request_is_read_as_a_request(source: MacAddr, source_ip: u32, target: u32)
    ensures
        frame_of(request_frame(source, source_ip, target)) matches Some(frame) && {
            &&& frame.source == source
            &&& frame.ethertype == 0x0806
            &&& arp_of(frame.payload) matches Some(arp) && {
                &&& arp.hardware_type == 1
                &&& arp.protocol_type == 0x0800
                &&& arp.hardware_length == 6
                &&& arp.protocol_length == 4
                &&& arp.operation == 1
                &&& arp.sender_mac == source
                &&& arp.sender_ip == source_ip
                &&& arp.target_mac == MacAddr(0, 0, 0, 0, 0, 0)
                &&& arp.target_ip == target
            }
        },
{
    law_request_is_well_formed(source, source_ip, target);
}

/// A frame announces a host exactly if it holds, byte for byte, an answer of address resolution
/// to the asking station from the single station that it is about, and that host was asked for.
pub proof fn law_announcement_byte_for_byte(
    bytes: Seq<u8>,
    link_ip: u32,
    link_mac: MacAddr,
    allowed: Set<u32>,
    ip: u32,
    mac: MacAddr,
)
    ensures
        announced(bytes, link_ip, link_mac, allowed) == Some((ip, mac)) <==> {
            &&& bytes.len() >= 42
            &&& bytes[6] == mac.0 && bytes[7] == mac.1 && bytes[8] == mac.2
            &&& bytes[9] == mac.3 && bytes[10] == mac.4 && bytes[11] == mac.5
            &&& bytes[12] == 8 && bytes[13] == 6
            &&& bytes[14] == 0 && bytes[15] == 1
            &&& bytes[16] == 8 && bytes[17] == 0
            &&& bytes[18] == 6 && bytes[19] == 4
            &&& bytes[20] == 0 && bytes[21] == 2
            &&& bytes[22] == mac.0 && bytes[23] == mac.1 && bytes[24] == mac.2
            &&& bytes[25] == mac.3 && bytes[26] == mac.4 && bytes[27] == mac.5
            &&& ip == bytes[28] * 0x100_0000 + bytes[29] * 0x1_0000 + bytes[30] * 0x100 + bytes[31]
            &&& bytes[32] == link_mac.0 && bytes[33] == link_mac.1 && bytes[34] == link_mac.2
            &&& bytes[35] == link_mac.3 && bytes[36] == link_mac.4 && bytes[37] == link_mac.5
            &&& link_ip == bytes[38] * 0x100_0000 + bytes[39] * 0x1_0000 + bytes[40] * 0x100
                + bytes[41]
            &&& mac.0 % 2 == 0
            &&& mac.number() > 0
            &&& allowed.contains(ip)
        },
{
    if bytes.len() >= 42 {
        let payload = bytes.skip(14);
        assert forall|i: int| 0 <= i < payload.len() implies #[trigger] payload[i] == bytes[i
            + 14] by {}
        assert(u16_at(bytes, 12) == bytes[12] * 0x100 + bytes[13]);
        assert(u16_at(payload, 0) == bytes[14] * 0x100 + bytes[15]);
        assert(u16_at(payload, 2) == bytes[16] * 0x100 + bytes[17]);
        assert(u16_at(payload, 6) == bytes[20] * 0x100 + bytes[21]);
        assert(mac_at(payload, 8) == MacAddr(
            bytes[22],
            bytes[23],
            bytes[24],
            bytes[25],
            bytes[26],
            bytes[27],
        ));
        assert(mac_at(payload, 18) == MacAddr(
            bytes[32],
            bytes[33],
            bytes[34],
            bytes[35],
            bytes[36],
            bytes[37],
        ));
        assert(ip_at(payload, 14) == bytes[28] * 0x100_0000 + bytes[29] * 0x1_0000 + bytes[30]
            * 0x100 + bytes[31]);
        assert(ip_at(payload, 24) == bytes[38] * 0x100_0000 + bytes[39] * 0x1_0000 + bytes[40]
            * 0x100 + bytes[41]);
        if mac.number() == 0 {
            assert(mac == MacAddr::spec_zero());
        }
    }
}

} // verus!
