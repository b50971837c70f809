use network_scanner::address::{ipv4, ipv4_to_text};
use network_scanner::link::{
    choose_link, default_subnet, links, scanning_message, Address, Interface, Link,
};
use network_scanner::mac::MacAddr;
use network_scanner::network::{check_subnet, parse_subnet, targets, Network};
use network_scanner::panel::{interface_choices, selected_text};
use network_scanner::ports::{parse_ports, MAX_PORTS};

fn test_link() -> Link {
    Link {
        interface: Interface {
            name: "test".into(),
            index: 1,
            up: false,
            loopback: false,
            mac: Some(MacAddr(0, 1, 2, 3, 4, 5)),
            ips: Vec::new(),
        },
        address: Network::parse("192.168.1.10/24").unwrap(),
        mac: MacAddr(0, 1, 2, 3, 4, 5),
    }
}

#[test]
fn inputs_are_validated_and_normalized() {
    assert_eq!(
        parse_subnet("192.168.1.42/24").unwrap().to_text(),
        "192.168.1.0/24"
    );
    for invalid in ["::1/128", "invalid", "10.0.0.0/8"] {
        assert!(parse_subnet(invalid).is_err());
    }
    assert_eq!(parse_ports("443, 22,80,22").unwrap(), vec![22, 80, 443]);
    assert!(parse_ports("").unwrap().is_empty());
    assert_eq!(parse_ports("22, 80-82, 81").unwrap(), vec![22, 80, 81, 82]);
    assert_eq!(parse_ports("1-256, 128-256").unwrap().len(), MAX_PORTS);
    assert!(parse_ports("1-256, 443").is_err());
    assert_eq!(parse_ports("65535-65535").unwrap(), vec![65535]);
    for invalid in ["0", "65536", "80,", "80-22", "1-65535", "22-23-24"] {
        assert!(parse_ports(invalid).is_err());
    }
}

#[test]
fn interface_selection_respects_explicit_choice_and_subnet() {
    let broad = test_link();
    let mut narrow = broad.clone();
    narrow.interface.name = "secondary".into();
    narrow.address = Network::parse("192.168.1.130/25").unwrap();
    let network = Network::parse("192.168.1.160/28").unwrap();
    let available = vec![broad.clone(), narrow];
    assert_eq!(
        choose_link(network, available.clone(), None)
            .unwrap()
            .interface
            .name,
        "secondary"
    );
    assert_eq!(
        choose_link(network, available.clone(), Some("test"))
            .unwrap()
            .address,
        broad.address
    );
    assert!(choose_link(network, available.clone(), Some("missing")).is_err());
    assert!(choose_link(
        Network::parse("192.168.1.0/24").unwrap(),
        available,
        Some("secondary")
    )
    .is_err());
}

#[test]
fn host_ranges_handle_point_to_point_and_single_host() {
    let local = test_link().address;
    assert_eq!(
        targets(Network::parse("192.168.1.0/24").unwrap(), local).len(),
        254
    );
    assert_eq!(
        targets(Network::parse("192.168.1.20/31").unwrap(), local).len(),
        2
    );
    assert_eq!(
        targets(Network::parse("192.168.1.20/32").unwrap(), local).len(),
        1
    );
    assert!(targets(Network::parse("192.168.1.255/32").unwrap(), local).is_empty());
}

#[test]
fn networks_have_bounds_and_contents() {
    let network = Network::parse("10.1.2.99/26").unwrap();
    assert_eq!(network.network(), ipv4(10, 1, 2, 64));
    assert_eq!(network.broadcast(), ipv4(10, 1, 2, 127));
    assert!(network.contains(ipv4(10, 1, 2, 127)));
    assert!(!network.contains(ipv4(10, 1, 2, 128)));
    assert!(!network.contains(ipv4(10, 1, 2, 63)));
    assert_eq!(network.to_text(), "10.1.2.99/26");
    let all = Network::new(ipv4(1, 2, 3, 4), 0).unwrap();
    assert_eq!(all.network(), 0);
    assert_eq!(all.broadcast(), u32::MAX);
    assert!(Network::new(0, 33).is_none());
    assert_eq!(
        Network::parse("10.0.0.1/255.255.255.0"),
        Network::new(ipv4(10, 0, 0, 1), 24)
    );
    assert_eq!(Network::parse("10.0.0.1"), Network::new(ipv4(10, 0, 0, 1), 32));
    assert_eq!(Network::parse("10.0.0.1/33"), None);
}

#[test]
fn refused_subnets_say_why() {
    let unreadable = "Enter an IPv4 CIDR, for example 192.168.1.0/24.";
    let too_large = "Use a /20 or smaller range (at most 4096 addresses).";
    assert_eq!(parse_subnet("nonsense").unwrap_err(), unreadable);
    assert_eq!(parse_subnet("10.0.0.0/19").unwrap_err(), too_large);
    assert_eq!(check_subnet(None).unwrap_err(), unreadable);
    assert_eq!(check_subnet(Some((0, 8))).unwrap_err(), too_large);
    assert_eq!(check_subnet(Some((0, 40))).unwrap_err(), "invalid prefix");
    assert_eq!(
        check_subnet(Some((ipv4(10, 0, 31, 7), 20))).unwrap(),
        Network::new(ipv4(10, 0, 16, 0), 20).unwrap()
    );
    assert_eq!(
        parse_subnet("  10.0.31.7/20\n").unwrap().to_text(),
        "10.0.16.0/20"
    );
}

#[test]
fn an_accepted_subnet_is_accepted_again() {
    let network = parse_subnet("172.16.5.77/22").unwrap();
    assert_eq!(parse_subnet(&network.to_text()).unwrap(), network);
}

#[test]
fn targets_ascend_and_leave_out_the_ends_of_both_networks() {
    let network = Network::parse("192.168.1.248/29").unwrap();
    let local = Network::parse("192.168.1.10/24").unwrap();
    let list = targets(network, local);
    assert_eq!(list.first(), Some(&ipv4(192, 168, 1, 249)));
    assert_eq!(list.last(), Some(&ipv4(192, 168, 1, 254)));
    assert_eq!(list.len(), 6);
    assert!(list.windows(2).all(|pair| pair[0] < pair[1]));
    // The end of the local network is no host of the other network either.
    let wide = Network::parse("10.0.0.0/23").unwrap();
    let inner = Network::parse("10.0.0.5/24").unwrap();
    let list = targets(wide, inner);
    assert!(!list.contains(&ipv4(10, 0, 0, 255)));
    assert!(list.contains(&ipv4(10, 0, 1, 0)));
    assert_eq!(list.len(), 509);
}

#[test]
fn refused_ports_say_why() {
    assert_eq!(
        parse_ports("22, x ,80").unwrap_err(),
        "Invalid port 'x': use numbers 1–65535."
    );
    assert_eq!(
        parse_ports("0").unwrap_err(),
        "Invalid port '0': use numbers 1–65535."
    );
    assert_eq!(
        parse_ports("80-").unwrap_err(),
        "Invalid port '': use numbers 1–65535."
    );
    assert_eq!(
        parse_ports("22-23-24").unwrap_err(),
        "Invalid port '23-24': use numbers 1–65535."
    );
    assert_eq!(
        parse_ports("22, 90-80").unwrap_err(),
        "Reversed port range:  90-80"
    );
    assert_eq!(
        parse_ports("1-257").unwrap_err(),
        "Specify at most 256 distinct ports."
    );
    assert_eq!(
        parse_ports("1-200,300-400").unwrap_err(),
        "Specify at most 256 distinct ports."
    );
    assert_eq!(parse_ports(" +22 , 80 - 81 ").unwrap(), vec![22, 80, 81]);
    assert!(parse_ports(" \t ").unwrap().is_empty());
}

#[test]
fn written_ports_are_read_back() {
    let ports: Vec<u16> = vec![1, 22, 443, 65535];
    let text = network_scanner::device::ports_to_text(&ports);
    assert_eq!(text, "1, 22, 443, 65535");
    assert_eq!(parse_ports(&text).unwrap(), ports);
    // The same ports over and over are few different ones.
    let many: Vec<u16> = (0..1000).map(|index: u16| 1 + index % 256).collect();
    let text = network_scanner::device::ports_to_text(&many);
    assert_eq!(parse_ports(&text).unwrap().len(), 256);
}

fn interface(name: &str, up: bool, loopback: bool, mac: Option<MacAddr>) -> Interface {
    Interface {
        name: name.into(),
        index: 7,
        up,
        loopback,
        mac,
        ips: vec![
            Address::V6,
            Address::V4(Network::parse("10.0.0.2/24").unwrap()),
            Address::V4(Network::parse("10.0.1.2/16").unwrap()),
        ],
    }
}

#[test]
fn only_usable_interfaces_make_links() {
    let mac = Some(MacAddr(0, 1, 2, 3, 4, 5));
    let all = vec![
        interface("down", false, false, mac),
        interface("lo", true, true, mac),
        interface("none", true, false, None),
        interface("zero", true, false, Some(MacAddr::zero())),
        interface("eth0", true, false, mac),
    ];
    let found = links(&all);
    assert_eq!(found.len(), 2);
    assert_eq!(found[0].interface.name, "eth0");
    assert_eq!(found[0].address.to_text(), "10.0.0.2/24");
    assert_eq!(found[1].address.to_text(), "10.0.1.2/16");
    assert_eq!(found[1].mac, MacAddr(0, 1, 2, 3, 4, 5));
    let choices = interface_choices(&found);
    assert_eq!(choices.len(), 1);
    assert_eq!(choices[0].name, "eth0");
    assert_eq!(choices[0].label, "eth0 · 10.0.0.2");
    assert_eq!(selected_text(&None), "Automatic");
    assert_eq!(selected_text(&Some("eth0".into())), "eth0");
}

#[test]
fn of_equal_links_the_last_is_chosen() {
    let first = test_link();
    let mut second = first.clone();
    second.interface.name = "other".into();
    let network = Network::parse("192.168.1.0/28").unwrap();
    let chosen = choose_link(network, vec![first, second], None).unwrap();
    assert_eq!(chosen.interface.name, "other");
}

#[test]
fn no_link_is_explained() {
    let network = Network::parse("10.9.0.0/24").unwrap();
    assert_eq!(
        choose_link(network, vec![test_link()], None).unwrap_err(),
        "No matching active interface covers this subnet. Choose an interface on the directly connected IPv4 LAN."
    );
}

#[test]
fn the_proposed_subnet_is_accepted_and_reachable() {
    let mut link = test_link();
    link.address = Network::parse("10.20.30.40/16").unwrap();
    assert_eq!(default_subnet(&link), "10.20.30.0/24");
    let network = parse_subnet(&default_subnet(&link)).unwrap();
    assert!(choose_link(network, vec![link.clone()], Some("test")).is_ok());
    link.address = Network::parse("10.20.30.40/28").unwrap();
    assert_eq!(default_subnet(&link), "10.20.30.32/28");
    assert_eq!(
        scanning_message(network, &link),
        "Scanning 10.20.30.0/24 via test (10.20.30.40)…"
    );
}

#[test]
fn addresses_are_written_in_dotted_decimal() {
    assert_eq!(ipv4_to_text(ipv4(192, 168, 1, 42)), "192.168.1.42");
    assert_eq!(ipv4_to_text(0), "0.0.0.0");
    assert_eq!(ipv4_to_text(u32::MAX), "255.255.255.255");
}
