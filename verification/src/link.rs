//! The interfaces of this machine, and the choice of one for a scan.

use vstd::prelude::*;

use crate::address::ipv4_to_text;
use crate::mac::MacAddr;
use crate::network::Network;
use crate::text::{concat2, concat3, equal_text};

verus! {

/// An address of an interface.
#[derive(Clone, Copy, Debug, PartialEq, Eq, Structural)]
pub enum Address {
    V4(Network),
    V6,
}

/// A network interface of this machine.
#[derive(Debug)]
pub struct Interface {
    pub name: String,
    pub index: u32,
    pub up: bool,
    pub loopback: bool,
    pub mac: Option<MacAddr>,
    pub ips: Vec<Address>,
}

/// The contents of an [`Interface`].
#[verifier::ext_equal]
pub struct InterfaceView {
    pub name: Seq<char>,
    pub index: u32,
    pub up: bool,
    pub loopback: bool,
    pub mac: Option<MacAddr>,
    pub ips: Seq<Address>,
}

/// An interface with one of its IPv4 addresses and its hardware address.
#[derive(Debug)]
pub struct Link {
    pub interface: Interface,
    pub address: Network,
    pub mac: MacAddr,
}

/// The contents of a [`Link`].
#[verifier::ext_equal]
pub struct LinkView {
    pub interface: InterfaceView,
    pub address: Network,
    pub mac: MacAddr,
}

impl View for Interface {
    type V = InterfaceView;

    open spec fn view(&self) -> InterfaceView {
        InterfaceView {
            name: self.name@,
            index: self.index,
            up: self.up,
            loopback: self.loopback,
            mac: self.mac,
            ips: self.ips@,
        }
    }
}

impl View for Link {
    type V = LinkView;

    open spec fn view(&self) -> LinkView {
        LinkView { interface: self.interface@, address: self.address, mac: self.mac }
    }
}

impl Clone for Interface {
    fn clone(&self) -> (result: Interface)
        ensures
            result@ == self@,
    {
        let mut ips: Vec<Address> = Vec::new();
        let mut i: usize = 0;
        while i < self.ips.len()
            invariant
                0 <= i <= self.ips.len(),
                ips@ == self.ips@.take(i as int),
            decreases self.ips.len() - i,
        {
            ips.push(self.ips[i]);
            assert(self.ips@.take(i + 1) =~= self.ips@.take(i as int).push(self.ips@[i as int]));
            i += 1;
        }
        assert(self.ips@.take(i as int) =~= self.ips@);
        Interface {
            name: self.name.clone(),
            index: self.index,
            up: self.up,
            loopback: self.loopback,
            mac: self.mac,
            ips,
        }
    }
}

impl Clone for Link {
    fn clone(&self) -> (result: Link)
        ensures
            result@ == self@,
    {
        Link { interface: self.interface.clone(), address: self.address, mac: self.mac }
    }
}

impl InterfaceView {
    /// The IPv4 addresses have prefixes that are no longer than an address.
    pub open spec fn wf(self) -> bool {
        forall|i: int|
            0 <= i < self.ips.len() ==> (#[trigger] self.ips[i] matches Address::V4(network)
                ==> network.wf())
    }

    /// Whether the interface can carry a scan: it is up, leads out of the machine and has a
    /// hardware address.
    pub open spec fn usable(self) -> bool {
        self.up && !self.loopback && self.mac is Some && self.mac->0 != MacAddr::spec_zero()
    }

    /// The link over an address of the interface, where it is an IPv4 address.
    pub open spec fn link(self, address: Address) -> Option<LinkView> {
        match address {
            Address::V4(network) => Some(
                LinkView { interface: self, address: network, mac: self.mac->0 },
            ),
            Address::V6 => None,
        }
    }

    /// The links over the interface: one for each IPv4 address, in their order.
    pub open spec fn links(self) -> Seq<LinkView> {
        if self.usable() {
            self.ips.filter_map(|address: Address| self.link(address))
        } else {
            Seq::empty()
        }
    }
}

/// The contents of the links of a list.
pub open spec fn link_views(links: Seq<Link>) -> Seq<LinkView> {
    links.map_values(|link: Link| link@)
}

/// The contents of the interfaces of a list.
pub open spec fn interface_views(interfaces: Seq<Interface>) -> Seq<InterfaceView> {
    interfaces.map_values(|interface: Interface| interface@)
}

/// Whether all interfaces of a list have valid addresses.
pub open spec fn valid_interfaces(interfaces: Seq<InterfaceView>) -> bool {
    forall|i: int| 0 <= i < interfaces.len() ==> (#[trigger] interfaces[i]).wf()
}

/// Whether all links of a list have valid addresses.
pub open spec fn valid_links(links: Seq<LinkView>) -> bool {
    forall|i: int| 0 <= i < links.len() ==> (#[trigger] links[i]).address.wf()
}

/// The links over all the interfaces, in their order.
pub open spec fn all_links(interfaces: Seq<InterfaceView>) -> Seq<LinkView>
    decreases interfaces.len(),
{
    if interfaces.len() == 0 {
        Seq::empty()
    } else {
        all_links(interfaces.drop_last()) + interfaces.last().links()
    }
}

/// Adds the links over one interface to a list.
fn add_links(interface: &Interface, result: &mut Vec<Link>)
    ensures
        link_views(final(result)@) == link_views(old(result)@) + interface@.links(),
{
    let ghost before = link_views(result@);
    let ghost over = |address: Address| interface@.link(address);
    assert(before + Seq::<LinkView>::empty() =~= before);
    let mac = match interface.mac {
        Some(mac) => mac,
        None => {
            return ;
        },
    };
    if !interface.up || interface.loopback || mac.is_zero() {
        return ;
    }
    let mut i: usize = 0;
    assert(interface@.ips.take(0).filter_map(over) =~= Seq::empty());
    while i < interface.ips.len()
        invariant
            0 <= i <= interface.ips.len(),
            interface@.usable(),
            interface.mac == Some(mac),
            over == (|address: Address| interface@.link(address)),
            link_views(result@) == before + interface@.ips.take(i as int).filter_map(over),
        decreases interface.ips.len() - i,
    {
        proof {
            interface@.ips.lemma_filter_map_take_succ(over, i as int);
        }
        let ghost so_far = interface@.ips.take(i as int).filter_map(over);
        let ghost listed = result@;
        if let Address::V4(network) = interface.ips[i] {
            let link = Link { interface: interface.clone(), address: network, mac };
            result.push(link);
            proof {
                assert(over(interface@.ips[i as int]) == Some(link@));
                assert(link_views(result@) =~= link_views(listed).push(link@));
                assert(link_views(result@) =~= before + (so_far + seq![link@]));
            }
        } else {
            assert(so_far + Seq::<LinkView>::empty() =~= so_far);
        }
        i += 1;
    }
    assert(interface@.ips.take(i as int) =~= interface@.ips);
}

/// The links over the interfaces of this machine.
pub fn links(interfaces: &Vec<Interface>) -> (result: Vec<Link>)
    ensures
        link_views(result@) == all_links(interface_views(interfaces@)),
        valid_interfaces(interface_views(interfaces@)) ==> valid_links(link_views(result@)),
{
    let ghost views = interface_views(interfaces@);
    let mut result: Vec<Link> = Vec::new();
    let mut i: usize = 0;
    assert(link_views(result@) =~= Seq::empty());
    while i < interfaces.len()
        invariant
            0 <= i <= interfaces.len(),
            views == interface_views(interfaces@),
            link_views(result@) == all_links(views.take(i as int)),
        decreases interfaces.len() - i,
    {
        proof {
            assert(views.take(i + 1).drop_last() =~= views.take(i as int));
            assert(views.take(i + 1).last() == interfaces@[i as int]@);
        }
        add_links(&interfaces[i], &mut result);
        i += 1;
    }
    assert(views.take(i as int) =~= views);
    proof {
        if valid_interfaces(views) {
            lemma_links_wf(views);
        }
    }
    result
}

/// Every link lies over an interface that is up, is no loopback and has a hardware address
/// other than zero, and its address is an IPv4 address of that interface.
pub proof fn law_links_are_usable(interfaces: Seq<InterfaceView>)
    ensures
        forall|i: int|
            0 <= i < all_links(interfaces).len() ==> {
                let link = #[trigger] all_links(interfaces)[i];
                &&& interfaces.contains(link.interface)
                &&& link.interface.usable()
                &&& link.mac == link.interface.mac->0
                &&& link.interface.ips.contains(Address::V4(link.address))
            },
    decreases interfaces.len(),
{
    if interfaces.len() > 0 {
        let shorter = interfaces.drop_last();
        let last = interfaces.last();
        law_links_are_usable(shorter);
        assert forall|i: int| 0 <= i < all_links(interfaces).len() implies {
            let link = #[trigger] all_links(interfaces)[i];
            &&& interfaces.contains(link.interface)
            &&& link.interface.usable()
            &&& link.mac == link.interface.mac->0
            &&& link.interface.ips.contains(Address::V4(link.address))
        } by {
            let link = all_links(interfaces)[i];
            if i < all_links(shorter).len() {
                assert(link == all_links(shorter)[i]);
                let k = choose|k: int| 0 <= k < shorter.len() && shorter[k] == link.interface;
                assert(interfaces[k] == link.interface);
            } else {
                let over = |address: Address| last.link(address);
                assert(link == last.links()[i - all_links(shorter).len()]);
                assert(last.ips.filter_map(over).contains(link));
                last.ips.lemma_filter_map_contains(over, link);
                assert(interfaces[interfaces.len() - 1] == last);
            }
        }
    }
}

/// The links over interfaces with valid addresses have valid addresses.
proof fn lemma_links_wf(interfaces: Seq<InterfaceView>)
    requires
        valid_interfaces(interfaces),
    ensures
        valid_links(all_links(interfaces)),
{
    law_links_are_usable(interfaces);
    assert forall|i: int| 0 <= i < all_links(interfaces).len() implies (#[trigger] all_links(
        interfaces,
    )[i]).address.wf() by {
        let link = all_links(interfaces)[i];
        let k = choose|k: int| 0 <= k < interfaces.len() && interfaces[k] == link.interface;
        assert(interfaces[k].wf());
        let n = choose|n: int|
            0 <= n < link.interface.ips.len() && link.interface.ips[n] == Address::V4(link.address);
        assert(link.interface.ips[n] is V4);
    }
}

// ---------------------------------------------------------------------------------------
// The link that a scan goes over.

/// Whether a link may carry a scan of a network: it is the selected one, if one is selected,
/// and its own network covers the other.
pub open spec fn suits(link: LinkView, network: Network, selected: Option<Seq<char>>) -> bool {
    &&& selected matches Some(name) ==> link.interface.name == name
    &&& link.address.lowest() <= network.lowest() <= link.address.highest()
    &&& link.address.lowest() <= network.highest() <= link.address.highest()
}

/// The link that carries a scan: of those that may, one with the narrowest network, and of
/// several the last.
pub open spec fn chosen_link(
    available: Seq<LinkView>,
    network: Network,
    selected: Option<Seq<char>>,
) -> Option<LinkView>
    decreases available.len(),
{
    if available.len() == 0 {
        None
    } else {
        let earlier = chosen_link(available.drop_last(), network, selected);
        let link = available.last();
        if suits(link, network, selected) && (earlier matches Some(other)
            ==> other.address.prefix <= link.address.prefix) {
            Some(link)
        } else {
            earlier
        }
    }
}

/// What is said where no link may carry the scan.
pub open spec fn no_link_text() -> Seq<char> {
    "No matching active interface covers this subnet. Choose an interface on the directly connected IPv4 LAN."@
}

/// The contents of an optional name.
pub open spec fn name_view(selected: Option<&str>) -> Option<Seq<char>> {
    match selected {
        Some(name) => Some(name@),
        None => None,
    }
}

/// Whether a link may carry a scan of a network.
pub fn is_suitable(link: &Link, network: Network, selected: Option<&str>) -> (result: bool)
    requires
        link.address.wf(),
        network.wf(),
    ensures
        result == suits(link@, network, name_view(selected)),
{
    proof {
        network.lemma_bounds();
    }
    let named = match selected {
        Some(name) => equal_text(link.interface.name.as_str(), name),
        None => true,
    };
    named && link.address.contains(network.network()) && link.address.contains(
        network.broadcast(),
    )
}

/// Whether the result of a choice is right.
pub open spec fn right_choice(result: Result<Link, String>, choice: Option<LinkView>) -> bool {
    match choice {
        Some(link) => result is Ok && result->Ok_0@ == link,
        None => result is Err && result->Err_0@ == no_link_text(),
    }
}

/// Chooses the link that a scan goes over.
pub fn choose_link(network: Network, available: Vec<Link>, selected: Option<&str>) -> (result:
    Result<Link, String>)
    requires
        network.wf(),
        valid_links(link_views(available@)),
    ensures
        right_choice(
            result,
            chosen_link(link_views(available@), network, name_view(selected)),
        ),
        result matches Ok(link) ==> link.address.wf(),
{
    let ghost views = link_views(available@);
    let ghost name = name_view(selected);
    let mut best: Option<usize> = None;
    let mut i: usize = 0;
    while i < available.len()
        invariant
            0 <= i <= available.len(),
            network.wf(),
            valid_links(views),
            views == link_views(available@),
            name == name_view(selected),
            best matches Some(k) ==> k < i,
            chosen_link(views.take(i as int), network, name) == (match best {
                Some(k) => Some(views[k as int]),
                None => None::<LinkView>,
            }),
        decreases available.len() - i,
    {
        proof {
            assert(views.take(i + 1).drop_last() =~= views.take(i as int));
            assert(views.take(i + 1).last() == available@[i as int]@);
            assert(views[i as int].address.wf());
        }
        if is_suitable(&available[i], network, selected) {
            let better = match best {
                Some(k) => available[k].address.prefix <= available[i].address.prefix,
                None => true,
            };
            if better {
                best = Some(i);
            }
        }
        i += 1;
    }
    assert(views.take(i as int) =~= views);
    match best {
        Some(k) => {
            assert(views[k as int].address.wf());
            Ok(available[k].clone())
        },
        None => Err(
            "No matching active interface covers this subnet. Choose an interface on the directly connected IPv4 LAN.".to_string(),
        ),
    }
}

/// A choice is one of the links that may carry the scan, and none of them has a narrower
/// network. There is a choice exactly where there is such a link.
pub proof fn law_choice_is_the_narrowest(
    available: Seq<LinkView>,
    network: Network,
    selected: Option<Seq<char>>,
)
    ensures
        match chosen_link(available, network, selected) {
            Some(link) => {
                &&& available.contains(link)
                &&& suits(link, network, selected)
                &&& forall|i: int|
                    0 <= i < available.len() && suits(#[trigger] available[i], network, selected)
                        ==> available[i].address.prefix <= link.address.prefix
            },
            None => forall|i: int|
                0 <= i < available.len() ==> !suits(#[trigger] available[i], network, selected),
        },
    decreases available.len(),
{
    if available.len() > 0 {
        let shorter = available.drop_last();
        law_choice_is_the_narrowest(shorter, network, selected);
        assert(available[available.len() - 1] == available.last());
        assert forall|i: int| 0 <= i < shorter.len() implies #[trigger] available[i]
            == shorter[i] by {}
        if let Some(link) = chosen_link(shorter, network, selected) {
            let k = choose|k: int| 0 <= k < shorter.len() && shorter[k] == link;
            assert(available[k] == link);
        }
    }
}

/// Every address of the network lies in the network of the link that was chosen for it.
pub proof fn law_chosen_link_reaches_every_address(
    available: Seq<LinkView>,
    network: Network,
    selected: Option<Seq<char>>,
    ip: u32,
)
    requires
        network.has(ip),
    ensures
        chosen_link(available, network, selected) matches Some(link) ==> link.address.has(ip) && (
        selected matches Some(name) ==> link.interface.name == name),
{
    law_choice_is_the_narrowest(available, network, selected);
}

// ---------------------------------------------------------------------------------------
// The subnet that is proposed for a link.

/// The network that is proposed for a link: its own, but no wider than a prefix of 24 bits.
pub open spec fn default_network(address: Network) -> Network {
    let prefix = if address.prefix < 24 {
        24u8
    } else {
        address.prefix
    };
    Network { ip: (Network { ip: address.ip, prefix }).lowest() as u32, prefix }
}

/// The subnet that is proposed for a link, which is one that the subnet field accepts.
pub fn default_subnet(link: &Link) -> (result: String)
    requires
        link.address.wf(),
    ensures
        result@ == crate::network::cidr_text(
            default_network(link.address).ip,
            default_network(link.address).prefix,
        ),
        crate::network::subnet_of(result@) == Ok::<Network, Seq<char>>(
            default_network(link.address),
        ),
{
    let prefix: u8 = if link.address.prefix < 24 {
        24
    } else {
        link.address.prefix
    };
    let network = Network { ip: link.address.ip, prefix };
    proof {
        network.lemma_bounds();
    }
    let low: u32 = network.network();
    let whole = Network { ip: low, prefix };
    proof {
        crate::network::lemma_lowest_is_fixed(network);
    }
    whole.to_text()
}

/// A link may carry a scan of the subnet that is proposed for it.
pub proof fn law_default_subnet_suits_its_link(link: LinkView)
    requires
        link.address.wf(),
    ensures
        default_network(link.address).wf(),
        suits(link, default_network(link.address), None),
        suits(link, default_network(link.address), Some(link.interface.name)),
{
    let prefix = if link.address.prefix < 24 {
        24u8
    } else {
        link.address.prefix
    };
    let inner = Network { ip: link.address.ip, prefix };
    inner.lemma_bounds();
    crate::network::lemma_lowest_is_fixed(inner);
    crate::network::lemma_narrower_lies_within(link.address, inner);
}

/// What is shown when a scan begins.
pub open spec fn scanning_text(network: Network, name: Seq<char>, ip: u32) -> Seq<char> {
    "Scanning "@ + crate::network::cidr_text(network.ip, network.prefix) + " via "@ + name + " ("@
        + crate::address::ipv4_text(ip) + ")…"@
}

/// What is shown when a scan begins.
pub fn scanning_message(network: Network, link: &Link) -> (result: String)
    requires
        network.wf(),
    ensures
        result@ == scanning_text(network, link.interface.name@, link.address.ip),
{
    let subnet = network.to_text();
    let address = ipv4_to_text(link.address.ip);
    let front = concat3("Scanning ", subnet.as_str(), " via ");
    let named = concat3(front.as_str(), link.interface.name.as_str(), " (");
    concat3(named.as_str(), address.as_str(), ")…")
}

/// An interface that is up, leads out of the machine and has a hardware address other than zero
/// has one link for each of its IPv4 addresses, in their order. Any other interface has none.
pub proof fn law_each_address_has_a_link(interface: InterfaceView)
    ensures
        interface.up && !interface.loopback && interface.mac is Some && interface.mac->0.number()
            > 0 ==> interface.links().map_values(|link: LinkView| Address::V4(link.address))
            == interface.ips.filter(|address: Address| address is V4),
        !interface.up || interface.loopback || interface.mac is None || interface.mac->0.number()
            == 0 ==> interface.links().len() == 0,
        forall|i: int|
            0 <= i < interface.links().len() ==> (#[trigger] interface.links()[i]).interface
                == interface && interface.links()[i].mac == interface.mac->0,
{
    if interface.mac is Some && interface.mac->0.number() == 0 {
        assert(interface.mac->0 == MacAddr::spec_zero());
    }
    lemma_links_of(interface, interface.ips);
}

proof fn lemma_links_of(interface: InterfaceView, ips: Seq<Address>)
    ensures
        ({
            let links = ips.filter_map(|address: Address| interface.link(address));
            &&& links.map_values(|link: LinkView| Address::V4(link.address)) == ips.filter(
                |address: Address| address is V4,
            )
            &&& forall|i: int|
                0 <= i < links.len() ==> (#[trigger] links[i]).interface == interface
                    && links[i].mac == interface.mac->0
        }),
    decreases ips.len(),
{
    reveal(Seq::filter);
    reveal(Seq::filter_map);
    let over = |address: Address| interface.link(address);
    let shown = |link: LinkView| Address::V4(link.address);
    let kept = |address: Address| address is V4;
    let links = ips.filter_map(over);
    if ips.len() == 0 {
        assert(links.map_values(shown) =~= ips.filter(kept));
    } else {
        let shorter = ips.drop_last();
        lemma_links_of(interface, shorter);
        let earlier = shorter.filter_map(over);
        match ips.last() {
            Address::V4(network) => {
                let link = LinkView { interface, address: network, mac: interface.mac->0 };
                assert(links =~= earlier.push(link));
                assert(links.map_values(shown) =~= earlier.map_values(shown).push(ips.last()));
            },
            Address::V6 => {
                assert(links =~= earlier);
            },
        }
    }
}

/// The links of several interfaces are those of the first ones and then those of the others.
pub proof fn law_links_keep_the_order_of_the_interfaces(
    first: Seq<InterfaceView>,
    others: Seq<InterfaceView>,
)
    ensures
        all_links(Seq::empty()) == Seq::<LinkView>::empty(),
        first.len() == 1 ==> all_links(first) == first[0].links(),
        all_links(first + others) == all_links(first) + all_links(others),
    decreases others.len(),
{
    if others.len() == 0 {
        assert(first + others =~= first);
        assert(all_links(first) + all_links(others) =~= all_links(first));
    } else {
        law_links_keep_the_order_of_the_interfaces(first, others.drop_last());
        assert((first + others).drop_last() =~= first + others.drop_last());
        assert((first + others).last() == others.last());
        assert(all_links(first + others) =~= all_links(first) + all_links(others));
    }
    if first.len() == 1 {
        assert(first.drop_last() =~= Seq::empty());
        assert(all_links(first.drop_last()) =~= Seq::<LinkView>::empty());
        assert(all_links(first) =~= first[0].links());
    }
}

/// A link may carry a scan exactly if it is over the selected interface, where one is selected,
/// and every address of the scanned network lies in its own network.
pub proof fn law_suitable_link_covers_the_network(
    link: LinkView,
    network: Network,
    selected: Option<Seq<char>>,
)
    requires
        link.address.wf(),
        network.wf(),
    ensures
        suits(link, network, selected) <==> (selected is None || selected
            == Some(link.interface.name)) && forall|ip: u32| #[trigger]
            network.has(ip) ==> link.address.has(ip),
{
    network.lemma_bounds();
    link.address.lemma_bounds();
    if forall|ip: u32| #[trigger] network.has(ip) ==> link.address.has(ip) {
        assert(network.has(network.lowest() as u32));
        assert(network.has(network.highest() as u32));
    }
}

/// Of the links that may carry a scan the one with the longest prefix is chosen, and of several
/// with that prefix the last.
pub proof fn law_last_of_the_narrowest_links_is_chosen(
    available: Seq<LinkView>,
    network: Network,
    selected: Option<Seq<char>>,
    i: int,
)
    requires
        0 <= i < available.len(),
        suits(available[i], network, selected),
        forall|j: int|
            0 <= j < available.len() && suits(#[trigger] available[j], network, selected)
                ==> available[j].address.prefix <= available[i].address.prefix,
        forall|j: int|
            i < j < available.len() && suits(#[trigger] available[j], network, selected)
                ==> available[j].address.prefix < available[i].address.prefix,
    ensures
        chosen_link(available, network, selected) == Some(available[i]),
    decreases available.len(),
{
    let shorter = available.drop_last();
    let n = shorter.len() as int;
    assert forall|j: int| 0 <= j < n implies #[trigger] shorter[j] == available[j] by {}
    assert(available[n] == available.last());
    if i < n {
        assert(suits(shorter[i], network, selected));
        law_last_of_the_narrowest_links_is_chosen(shorter, network, selected, i);
    } else {
        law_choice_is_the_narrowest(shorter, network, selected);
        if let Some(other) = chosen_link(shorter, network, selected) {
            let k = choose|k: int| 0 <= k < shorter.len() && shorter[k] == other;
            assert(available[k] == other);
        }
    }
}

/// The network that is proposed for a link holds the address of the link, and is its own one
/// where that has a prefix of 24 bits or more, and otherwise the one of 24 bits.
pub proof fn law_proposed_network_holds_the_address(address: Network)
    requires
        address.wf(),
    ensures
        default_network(address).has(address.ip),
        default_network(address).ip == default_network(address).lowest(),
        address.prefix >= 24 ==> default_network(address).prefix == address.prefix,
        address.prefix < 24 ==> default_network(address).prefix == 24,
{
    let whole = Network { ip: address.ip, prefix: default_network(address).prefix };
    whole.lemma_bounds();
    crate::network::lemma_lowest_is_fixed(whole);
}

/// The message at the start of a scan names the network, the interface and its address; the one
/// for a scan that no link may carry is fixed.
pub proof fn law_messages_about_links(network: Network, name: Seq<char>, ip: u32)
    ensures
        scanning_text(network, name, ip) == "Scanning "@ + (crate::address::ipv4_text(network.ip)
            + "/"@ + crate::text::decimal(network.prefix as nat)) + " via "@ + name + " ("@
            + crate::address::ipv4_text(ip) + ")…"@,
        no_link_text()
            == "No matching active interface covers this subnet. Choose an interface on the directly connected IPv4 LAN."@,
{
}

/// The result of a right choice is the chosen link, and a refusal where there is none.
pub proof fn law_right_choices(result: Result<Link, String>, choice: Option<LinkView>)
    requires
        right_choice(result, choice),
    ensures
        result is Ok <==> choice is Some,
        result matches Ok(link) ==> link@ == choice->0,
        result matches Err(message) ==> message@
            == "No matching active interface covers this subnet. Choose an interface on the directly connected IPv4 LAN."@,
{
}

} // verus!
