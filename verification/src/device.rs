//! What is known of a device on the network.

use vstd::prelude::*;
use vstd::string::StringExecFns;

use crate::address::ipv4_to_text;
use crate::text::{contains, decimal_text, lowercase, split_at_each, to_chars};

verus! {

/// A device that answered, as it is shown and exported.
#[derive(Debug)]
pub struct Device {
    pub status: String,
    pub ip_address: u32,
    pub mac_address: String,
    pub vendor: String,
    pub open_ports: String,
}

/// The contents of a [`Device`].
#[verifier::ext_equal]
pub struct DeviceView {
    pub status: Seq<char>,
    pub ip_address: u32,
    pub mac_address: Seq<char>,
    pub vendor: Seq<char>,
    pub open_ports: Seq<char>,
}

impl View for Device {
    type V = DeviceView;

    open spec fn view(&self) -> DeviceView {
        DeviceView {
            status: self.status@,
            ip_address: self.ip_address,
            mac_address: self.mac_address@,
            vendor: self.vendor@,
            open_ports: self.open_ports@,
        }
    }
}

impl Clone for Device {
    fn clone(&self) -> (result: Device)
        ensures
            result == *self,
    {
        Device {
            status: self.status.clone(),
            ip_address: self.ip_address,
            mac_address: self.mac_address.clone(),
            vendor: self.vendor.clone(),
            open_ports: self.open_ports.clone(),
        }
    }
}

impl DeviceView {
    /// Whether the device is shown for a query in lower case: some text of the device
    /// contains it, letter case aside, and open ports are there if they are asked for.
    pub open spec fn matches(self, query: Seq<char>, open_only: bool) -> bool {
        &&& open_only ==> self.open_ports.len() > 0
        &&& {
            ||| query.len() == 0
            ||| crate::text::contains_text(crate::text::lowercased(self.status), query)
            ||| crate::text::contains_text(crate::text::lowercased(self.mac_address), query)
            ||| crate::text::contains_text(crate::text::lowercased(self.vendor), query)
            ||| crate::text::contains_text(crate::text::lowercased(self.open_ports), query)
            ||| crate::text::contains_text(crate::address::ipv4_text(self.ip_address), query)
        }
    }

    /// The number of open ports: how many pieces the commas cut their text into.
    pub open spec fn port_count(self) -> nat {
        if self.open_ports.len() == 0 {
            0
        } else {
            crate::text::split(self.open_ports, ',').len()
        }
    }
}

/// Whether some of the texts contains the query.
pub fn any_contains(texts: &Vec<String>, query: &str) -> (result: bool)
    ensures
        result == exists|i: int|
            0 <= i < texts@.len() && crate::text::contains_text((#[trigger] texts@[i])@, query@),
{
    let part = to_chars(query);
    let mut i: usize = 0;
    while i < texts.len()
        invariant
            0 <= i <= texts.len(),
            part@ == query@,
            forall|j: int|
                0 <= j < i ==> !crate::text::contains_text((#[trigger] texts@[j])@, query@),
        decreases texts.len() - i,
    {
        let whole = to_chars(texts[i].as_str());
        if contains(whole.as_slice(), part.as_slice()) {
            return true;
        }
        i += 1;
    }
    false
}

impl Device {
    /// Whether the device is shown for a query in lower case.
    pub fn matches(&self, query: &str, open_only: bool) -> (result: bool)
        ensures
            result == self@.matches(query@, open_only),
    {
        if open_only && self.open_ports.as_str().is_empty() {
            return false;
        }
        if query.is_empty() {
            return true;
        }
        let mut texts: Vec<String> = Vec::new();
        texts.push(lowercase(self.status.as_str()));
        texts.push(lowercase(self.mac_address.as_str()));
        texts.push(lowercase(self.vendor.as_str()));
        texts.push(lowercase(self.open_ports.as_str()));
        texts.push(ipv4_to_text(self.ip_address));
        let result = any_contains(&texts, query);
        proof {
            assert(texts@[0]@ == crate::text::lowercased(self.status@));
            assert(texts@[1]@ == crate::text::lowercased(self.mac_address@));
            assert(texts@[2]@ == crate::text::lowercased(self.vendor@));
            assert(texts@[3]@ == crate::text::lowercased(self.open_ports@));
            assert(texts@[4]@ == crate::address::ipv4_text(self.ip_address));
        }
        result
    }

    /// The number of open ports.
    pub fn port_count(&self) -> (result: usize)
        ensures
            result == self@.port_count(),
    {
        if self.open_ports.as_str().is_empty() {
            0
        } else {
            let chars = to_chars(self.open_ports.as_str());
            let pieces = split_at_each(chars.as_slice(), ',');
            assert(pieces@.len() == pieces@.map_values(|piece: &[char]| piece@).len());
            pieces.len()
        }
    }
}

/// The text of a list of ports: their numbers with a comma and a space between each two.
pub open spec fn ports_text(ports: Seq<u16>) -> Seq<char> {
    crate::text::joined(ports.map_values(|port: u16| crate::text::decimal(port as nat)), ", "@)
}

/// The text of a list of ports.
pub fn ports_to_text(ports: &Vec<u16>) -> (result: String)
    ensures
        result@ == ports_text(ports@),
{
    let ghost number = |port: u16| crate::text::decimal(port as nat);
    let ghost parts = ports@.map_values(number);
    let mut result = String::new();
    let mut i: usize = 0;
    assert(parts.take(0) =~= Seq::empty());
    while i < ports.len()
        invariant
            0 <= i <= ports.len(),
            number == (|port: u16| crate::text::decimal(port as nat)),
            parts == ports@.map_values(number),
            result@ == crate::text::joined(parts.take(i as int), ", "@),
        decreases ports.len() - i,
    {
        let ghost longer = parts.take(i + 1);
        assert(longer.drop_last() =~= parts.take(i as int));
        assert(longer.last() == crate::text::decimal(ports@[i as int] as nat));
        if i > 0 {
            result.append(", ");
        }
        result.append(decimal_text(ports[i] as u64).as_str());
        proof {
            if i == 0 {
                assert(longer.len() == 1);
                assert(result@ =~= longer[0]);
            }
        }
        i += 1;
    }
    assert(parts.take(ports.len() as int) =~= parts);
    result
}

/// The count of open ports is right for every list of ports that is written out.
pub proof fn law_port_count_counts_the_list(device: DeviceView, ports: Seq<u16>)
    requires
        device.open_ports == ports_text(ports),
    ensures
        device.port_count() == ports.len(),
{
    let number = |port: u16| crate::text::decimal(port as nat);
    let parts = ports.map_values(number);
    if ports.len() > 0 {
        assert forall|i: int| 0 <= i < parts.len() implies crate::text::occurrences(
            #[trigger] parts[i],
            ',',
        ) == 0 by {
            crate::text::lemma_decimal_digits(ports[i] as nat);
            crate::text::lemma_no_occurrences(parts[i], ',');
        }
        crate::text::lemma_joined_occurrences(parts, ", "@, ',');
        reveal_strlit(", ");
        assert(", "@ =~= seq![',', ' ']);
        assert(crate::text::occurrences(", "@, ',') == 1) by {
            reveal_with_fuel(crate::text::occurrences, 3);
        }
        assert((parts.len() - 1) * 1 == parts.len() - 1);
        crate::text::lemma_split_len(device.open_ports, ',');
        assert(device.open_ports.len() > 0) by {
            crate::text::lemma_decimal_digits(ports.last() as nat);
            assert(parts.last().len() >= 1);
        }
    }
}

/// A list of ports is written in its order, each port in decimal, with a comma and a space
/// between each two.
pub proof fn law_port_is_written_behind_the_others(ports: Seq<u16>, port: u16)
    ensures
        ports_text(Seq::empty()) == Seq::<char>::empty(),
        ports_text(ports.push(port)) == if ports.len() == 0 {
            crate::text::decimal(port as nat)
        } else {
            ports_text(ports) + seq![',', ' '] + crate::text::decimal(port as nat)
        },
{
    let number = |port: u16| crate::text::decimal(port as nat);
    assert(Seq::<u16>::empty().map_values(number) =~= Seq::empty());
    assert(ports.push(port).map_values(number) =~= ports.map_values(number).push(
        crate::text::decimal(port as nat),
    ));
    reveal_strlit(", ");
    assert(", "@ =~= seq![',', ' ']);
    crate::text::law_join_adds_one_text(
        ports.map_values(number),
        crate::text::decimal(port as nat),
        ", "@,
    );
}

/// A device is shown exactly if it has an open port or none is demanded, and what is searched
/// for, if anything, stands in one of its five texts, those in which letters can occur taken in
/// small letters.
pub proof fn law_shown_devices_hold_the_query(
    device: DeviceView,
    query: Seq<char>,
    open_only: bool,
)
    ensures
        device.matches(query, open_only) <==> (!open_only || device.open_ports.len() > 0) && (
        query.len() == 0 || exists|front: Seq<char>, back: Seq<char>| #[trigger]
            (front + query + back) == crate::text::lowercased(device.status) || (front + query
                + back) == crate::text::lowercased(device.mac_address) || (front + query + back)
                == crate::text::lowercased(device.vendor) || (front + query + back)
                == crate::text::lowercased(device.open_ports) || (front + query + back)
                == crate::address::ipv4_text(device.ip_address)),
{
    crate::text::law_contained_text_stands_somewhere(
        crate::text::lowercased(device.status),
        query,
    );
    crate::text::law_contained_text_stands_somewhere(
        crate::text::lowercased(device.mac_address),
        query,
    );
    crate::text::law_contained_text_stands_somewhere(
        crate::text::lowercased(device.vendor),
        query,
    );
    crate::text::law_contained_text_stands_somewhere(
        crate::text::lowercased(device.open_ports),
        query,
    );
    crate::text::law_contained_text_stands_somewhere(
        crate::address::ipv4_text(device.ip_address),
        query,
    );
}

/// The open ports of a device are none where their text is empty, and otherwise one more than
/// there are commas in it.
pub proof fn law_commas_separate_the_ports(device: DeviceView)
    ensures
        device.port_count() == if device.open_ports.len() == 0 {
            0
        } else {
            crate::text::occurrences(device.open_ports, ',') + 1
        },
{
    crate::text::lemma_split_len(device.open_ports, ',');
}

} // verus!
