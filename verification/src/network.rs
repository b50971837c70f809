//! IPv4 networks: blocks of addresses that share a prefix.

use vstd::arithmetic::power2::pow2;
use vstd::prelude::*;

use crate::text::{to_chars, to_text, trim};

verus! {

/// The most addresses that a scan may cover.
pub const MAX_ADDRESSES: u32 = 4096;

/// An address together with the length of the prefix that its network shares.
#[derive(Clone, Copy, Debug, PartialEq, Eq, Structural)]
pub struct Network {
    pub ip: u32,
    pub prefix: u8,
}

/// How many addresses share a prefix of the given length.
pub open spec fn block_size(prefix: u8) -> int {
    pow2((32 - prefix) as nat) as int
}

/// An address and a prefix length in the usual notation.
pub open spec fn cidr_text(ip: u32, prefix: u8) -> Seq<char> {
    crate::address::ipv4_text(ip) + "/"@ + crate::text::decimal(prefix as nat)
}

/// What `ipnetwork` makes of a text: an address and a prefix length of at most 32, or nothing
/// where the text is not in a notation that it knows.
pub uninterp spec fn parsed_cidr(text: Seq<char>) -> Option<(u32, u8)>;

/// Calls `ipnetwork::Ipv4Network::from_str`. A prefix length that it accepts is at most 32.
#[verifier::external_body]
fn parse_cidr(text: &str) -> (result: Option<(u32, u8)>)
    ensures
        result == parsed_cidr(text@),
        result matches Some((_, prefix)) ==> prefix <= 32,
{
    match text.parse::<ipnetwork::Ipv4Network>() {
        Ok(network) => Some((network.ip().into(), network.prefix())),
        Err(_) => None,
    }
}

/// Calls the `Display` of `ipnetwork::Ipv4Network`, which writes the address in dotted
/// decimal, a slash and the prefix length. Its `from_str` reads that text back.
#[verifier::external_body]
fn display_cidr(ip: u32, prefix: u8) -> (result: String)
    requires
        prefix <= 32,
    ensures
        result@ == cidr_text(ip, prefix),
        parsed_cidr(result@) == Some((ip, prefix)),
{
    ipnetwork::Ipv4Network::new(ip.into(), prefix).unwrap().to_string()
}

/// Calls `ipnetwork::Ipv4Network::network`, the lowest address with the prefix.
#[verifier::external_body]
fn lowest_address(ip: u32, prefix: u8) -> (result: u32)
    requires
        prefix <= 32,
    ensures
        result == ip - ip as int % block_size(prefix),
{
    ipnetwork::Ipv4Network::new(ip.into(), prefix).unwrap().network().into()
}

/// Calls `ipnetwork::Ipv4Network::broadcast`, the highest address with the prefix.
#[verifier::external_body]
fn highest_address(ip: u32, prefix: u8) -> (result: u32)
    requires
        prefix <= 32,
    ensures
        result == ip - ip as int % block_size(prefix) + block_size(prefix) - 1,
{
    ipnetwork::Ipv4Network::new(ip.into(), prefix).unwrap().broadcast().into()
}

/// Calls `ipnetwork::Ipv4Network::contains`: whether two addresses have the same prefix.
#[verifier::external_body]
fn shares_prefix(ip: u32, prefix: u8, other: u32) -> (result: bool)
    requires
        prefix <= 32,
    ensures
        result == (other - other as int % block_size(prefix) == ip - ip as int % block_size(
            prefix,
        )),
{
    ipnetwork::Ipv4Network::new(ip.into(), prefix).unwrap().contains(other.into())
}

/// Calls `ipnetwork::Ipv4Network::iter`, which yields the addresses with the prefix from the
/// lowest to the highest. It counts them in 32 bits, so the prefix must not be empty.
#[verifier::external_body]
fn list_addresses(ip: u32, prefix: u8) -> (result: Vec<u32>)
    requires
        1 <= prefix <= 32,
    ensures
        result@ == Seq::new(
            block_size(prefix) as nat,
            |i: int| (ip - ip as int % block_size(prefix) + i) as u32,
        ),
{
    ipnetwork::Ipv4Network::new(ip.into(), prefix).unwrap().iter().map(u32::from).collect()
}

/// A block holds at least one address and at most all of them.
pub proof fn lemma_block_size(prefix: u8)
    requires
        prefix <= 32,
    ensures
        1 <= block_size(prefix) <= 0x1_0000_0000,
        prefix >= 20 ==> block_size(prefix) <= 4096,
        prefix == 32 ==> block_size(prefix) == 1,
        prefix == 31 ==> block_size(prefix) == 2,
        prefix <= 30 ==> block_size(prefix) >= 4,
{
    vstd::arithmetic::power2::lemma2_to64();
    vstd::arithmetic::power2::lemma_pow2_pos((32 - prefix) as nat);
    if prefix > 0 {
        vstd::arithmetic::power2::lemma_pow2_strictly_increases((32 - prefix) as nat, 32);
    }
    if prefix > 20 {
        vstd::arithmetic::power2::lemma_pow2_strictly_increases((32 - prefix) as nat, 12);
    }
    if prefix < 30 {
        vstd::arithmetic::power2::lemma_pow2_strictly_increases(2, (32 - prefix) as nat);
    }
}

/// A wider block is made up of whole narrower ones.
pub proof fn lemma_block_divides(wide: u8, narrow: u8)
    requires
        wide <= narrow <= 32,
    ensures
        block_size(wide) % block_size(narrow) == 0,
        block_size(narrow) <= block_size(wide),
{
    lemma_block_size(wide);
    lemma_block_size(narrow);
    let a = (narrow - wide) as nat;
    let b = (32 - narrow) as nat;
    vstd::arithmetic::power2::lemma_pow2_adds(a, b);
    vstd::arithmetic::power2::lemma_pow2_pos(a);
    assert(pow2(a) * pow2(b) == block_size(wide));
    let q = pow2(a) as int;
    let d = pow2(b) as int;
    vstd::arithmetic::div_mod::lemma_mod_multiples_basic(q, d);
    assert(q * d >= d) by (nonlinear_arith)
        requires
            q >= 1,
            d >= 1,
    ;
}

/// The usual text of a network neither begins nor ends with white space.
proof fn lemma_cidr_text_trimmed(ip: u32, prefix: u8)
    ensures
        crate::text::trimmed(cidr_text(ip, prefix)) == cidr_text(
            ip,
            prefix,
        ),
{
    let text = cidr_text(ip, prefix);
    let first = crate::text::decimal(crate::address::ipv4_byte(ip, 0) as nat);
    let last = crate::text::decimal(prefix as nat);
    crate::text::lemma_decimal_digits(crate::address::ipv4_byte(ip, 0) as nat);
    crate::text::lemma_decimal_digits(prefix as nat);
    assert(text[0] == first[0]);
    assert(text.last() == last[last.len() - 1]);
    crate::text::lemma_already_trimmed(text);
}

/// The lowest address of a network is that of its own network.
pub proof fn lemma_lowest_is_fixed(network: Network)
    requires
        network.wf(),
    ensures
        (Network { ip: network.lowest() as u32, prefix: network.prefix }).lowest()
            == network.lowest(),
{
    network.lemma_bounds();
}

/// A network lies within every network with a shorter prefix that its address lies in.
pub proof fn lemma_narrower_lies_within(wide: Network, narrow: Network)
    requires
        wide.wf(),
        narrow.wf(),
        wide.prefix <= narrow.prefix,
        wide.ip == narrow.ip,
    ensures
        wide.lowest() <= narrow.lowest(),
        narrow.highest() <= wide.highest(),
{
    lemma_block_size(wide.prefix);
    lemma_block_size(narrow.prefix);
    lemma_block_divides(wide.prefix, narrow.prefix);
    wide.lemma_bounds();
    narrow.lemma_bounds();
    let big = wide.size();
    let small = narrow.size();
    let k = big / small;
    vstd::arithmetic::div_mod::lemma_fundamental_div_mod(big, small);
    let q = wide.lowest() / big;
    vstd::arithmetic::div_mod::lemma_fundamental_div_mod(wide.lowest(), big);
    let n = narrow.lowest() / small;
    vstd::arithmetic::div_mod::lemma_fundamental_div_mod(narrow.lowest(), small);
    // Both bounds are multiples of the narrower size.
    assert(big * q == small * (k * q)) by (nonlinear_arith)
        requires
            big == small * k,
    ;
    assert(big * q + big == small * (k * q + k)) by (nonlinear_arith)
        requires
            big == small * k,
    ;
    let a = k * q;
    let b = k * q + k;
    assert(wide.lowest() == small * a);
    assert(wide.highest() + 1 == small * b);
    assert(narrow.lowest() == small * n);
    assert(n < a ==> small * n + small <= small * a) by (nonlinear_arith)
        requires
            small >= 1,
    ;
    assert(n >= a ==> small * n >= small * a) by (nonlinear_arith)
        requires
            small >= 1,
    ;
    assert(n >= b ==> small * n >= small * b) by (nonlinear_arith)
        requires
            small >= 1,
    ;
    assert(n < b ==> small * n + small <= small * b) by (nonlinear_arith)
        requires
            small >= 1,
    ;
}

impl Network {
    /// The prefix is no longer than an address.
    pub open spec fn wf(self) -> bool {
        self.prefix <= 32
    }

    /// How many addresses the network has.
    pub open spec fn size(self) -> int {
        block_size(self.prefix)
    }

    /// The lowest address of the network.
    pub open spec fn lowest(self) -> int {
        self.ip - self.ip as int % self.size()
    }

    /// The highest address of the network.
    pub open spec fn highest(self) -> int {
        self.lowest() + self.size() - 1
    }

    /// Whether an address lies in the network.
    pub open spec fn has(self, ip: u32) -> bool {
        self.lowest() <= ip <= self.highest()
    }

    /// The addresses of the network, from the lowest to the highest.
    pub open spec fn addresses(self) -> Seq<u32> {
        Seq::new(self.size() as nat, |i: int| (self.lowest() + i) as u32)
    }

    /// The bounds of a network are addresses, and its own address lies between them.
    pub proof fn lemma_bounds(self)
        requires
            self.wf(),
        ensures
            0 <= self.lowest() <= self.ip <= self.highest() <= u32::MAX,
            self.lowest() % self.size() == 0,
    {
        lemma_block_size(self.prefix);
        let size = self.size();
        let ip = self.ip as int;
        vstd::arithmetic::div_mod::lemma_fundamental_div_mod(ip, size);
        vstd::arithmetic::div_mod::lemma_mod_bound(ip, size);
        let q = ip / size;
        assert(self.lowest() == size * q);
        vstd::arithmetic::div_mod::lemma_div_pos_is_pos(ip, size);
        assert(0 <= size * q) by (nonlinear_arith)
            requires
                size >= 1,
                q >= 0,
        ;
        vstd::arithmetic::div_mod::lemma_mod_multiples_basic(q, size);
        assert(size * q == q * size) by (nonlinear_arith);
        lemma_block_divides(0, self.prefix);
        let all: int = 0x1_0000_0000;
        vstd::arithmetic::power2::lemma2_to64();
        assert(block_size(0) == all);
        vstd::arithmetic::div_mod::lemma_fundamental_div_mod(all, size);
        let m = all / size;
        assert(all == size * m);
        assert(q < m) by (nonlinear_arith)
            requires
                size * q <= ip,
                ip < all,
                all == size * m,
                size >= 1,
        ;
        assert(size * q + size <= size * m) by (nonlinear_arith)
            requires
                q < m,
                size >= 1,
        ;
    }

    /// An address lies in a network exactly if it has the prefix of the network.
    pub proof fn lemma_has(self, other: u32)
        requires
            self.wf(),
        ensures
            self.has(other) <==> other - other as int % self.size() == self.lowest(),
    {
        lemma_block_size(self.prefix);
        self.lemma_bounds();
        let size = self.size();
        let there = Network { ip: other, prefix: self.prefix };
        there.lemma_bounds();
        if there.lowest() != self.lowest() && self.has(other) {
            let a = self.lowest();
            let b = there.lowest();
            vstd::arithmetic::div_mod::lemma_fundamental_div_mod(a, size);
            vstd::arithmetic::div_mod::lemma_fundamental_div_mod(b, size);
            let p = a / size;
            let q = b / size;
            assert(p < q ==> size * p + size <= size * q) by (nonlinear_arith)
                requires
                    size >= 1,
            ;
            assert(q < p ==> size * q + size <= size * p) by (nonlinear_arith)
                requires
                    size >= 1,
            ;
            assert(false);
        }
    }

    /// The network of an address with a prefix length, which is at most 32.
    pub fn new(ip: u32, prefix: u8) -> (result: Option<Network>)
        ensures
            result is Some <==> prefix <= 32,
            result matches Some(network) ==> network == (Network { ip, prefix }) && network.wf(),
    {
        if prefix <= 32 {
            Some(Network { ip, prefix })
        } else {
            None
        }
    }

    /// Reads an address with a prefix length.
    pub fn parse(text: &str) -> (result: Option<Network>)
        ensures
            match parsed_cidr(text@) {
                Some((ip, prefix)) => result == Some(Network { ip, prefix }) && (Network {
                    ip,
                    prefix,
                }).wf(),
                None => result is None,
            },
    {
        match parse_cidr(text) {
            Some((ip, prefix)) => Some(Network { ip, prefix }),
            None => None,
        }
    }

    /// The usual text of the address and its prefix length, which `parse` reads back. So
    /// does the subnet field, where it accepts the network.
    pub fn to_text(&self) -> (result: String)
        requires
            self.wf(),
        ensures
            result@ == cidr_text(self.ip, self.prefix),
            parsed_cidr(result@) == Some((self.ip, self.prefix)),
            self.prefix >= 20 && self.ip == self.lowest() ==> subnet_of(result@) == Ok::<
                Network,
                Seq<char>,
            >(*self),
    {
        proof {
            lemma_cidr_text_trimmed(self.ip, self.prefix);
        }
        display_cidr(self.ip, self.prefix)
    }

    /// The lowest address.
    pub fn network(&self) -> (result: u32)
        requires
            self.wf(),
        ensures
            result == self.lowest(),
    {
        lowest_address(self.ip, self.prefix)
    }

    /// The highest address.
    pub fn broadcast(&self) -> (result: u32)
        requires
            self.wf(),
        ensures
            result == self.highest(),
    {
        highest_address(self.ip, self.prefix)
    }

    /// Whether an address lies in the network.
    pub fn contains(&self, ip: u32) -> (result: bool)
        requires
            self.wf(),
        ensures
            result == self.has(ip),
    {
        proof {
            self.lemma_has(ip);
        }
        shares_prefix(self.ip, self.prefix, ip)
    }
}

// ---------------------------------------------------------------------------------------
// The subnet that the user asks for.

/// What a subnet is taken for, or why it is refused: it must be readable, and no larger than
/// a scan may cover. The network is the whole block that the address lies in.
pub open spec fn checked_subnet(parsed: Option<(u32, u8)>) -> Result<Network, Seq<char>> {
    match parsed {
        None => Err("Enter an IPv4 CIDR, for example 192.168.1.0/24."@),
        Some((ip, prefix)) => if prefix < 20 {
            Err("Use a /20 or smaller range (at most 4096 addresses)."@)
        } else if prefix > 32 {
            Err("invalid prefix"@)
        } else {
            Ok(Network { ip: (Network { ip, prefix }).lowest() as u32, prefix })
        },
    }
}

/// What the subnet field is taken for.
pub open spec fn subnet_of(input: Seq<char>) -> Result<Network, Seq<char>> {
    checked_subnet(parsed_cidr(crate::text::trimmed(input)))
}

/// Whether a result agrees with what was to be returned.
pub open spec fn same_outcome<T>(result: Result<T, String>, expected: Result<T, Seq<char>>) -> bool {
    match expected {
        Ok(value) => result == Ok::<T, String>(value),
        Err(message) => result is Err && result->Err_0@ == message,
    }
}

/// Checks an address and a prefix length that were read.
pub fn check_subnet(parsed: Option<(u32, u8)>) -> (result: Result<Network, String>)
    ensures
        same_outcome(result, checked_subnet(parsed)),
        result matches Ok(network) ==> network.wf(),
{
    match parsed {
        None => Err("Enter an IPv4 CIDR, for example 192.168.1.0/24.".to_string()),
        Some((ip, prefix)) => if prefix < 20 {
            Err("Use a /20 or smaller range (at most 4096 addresses).".to_string())
        } else if prefix > 32 {
            Err("invalid prefix".to_string())
        } else {
            let network = Network { ip, prefix };
            proof {
                network.lemma_bounds();
            }
            Ok(Network { ip: network.network(), prefix })
        },
    }
}

/// Reads the subnet field.
pub fn parse_subnet(input: &str) -> (result: Result<Network, String>)
    ensures
        same_outcome(result, subnet_of(input@)),
        result matches Ok(network) ==> network.wf(),
{
    let chars = to_chars(input);
    let text = to_text(trim(chars.as_slice()));
    check_subnet(parse_cidr(text.as_str()))
}

/// A subnet that is accepted has at most as many addresses as a scan may cover, and its
/// address is the lowest of them.
pub proof fn law_accepted_subnet_is_small_and_normal(input: Seq<char>)
    ensures
        subnet_of(input) matches Ok(network) ==> {
            &&& network.wf()
            &&& network.prefix >= 20
            &&& network.size() <= MAX_ADDRESSES
            &&& network.ip == network.lowest()
        },
{
    if let Some((ip, prefix)) = parsed_cidr(crate::text::trimmed(input)) {
        if 20 <= prefix <= 32 {
            lemma_block_size(prefix);
            (Network { ip, prefix }).lemma_bounds();
        }
    }
}

// ---------------------------------------------------------------------------------------
// The addresses that are asked.

/// Whether an address is one of the two ends of a network that no host has.
pub open spec fn reserved(network: Network, ip: u32) -> bool {
    network.prefix < 31 && (ip == network.lowest() || ip == network.highest())
}

/// Picks the addresses that are the ends of neither network.
pub open spec fn may_be_host(network: Network, local: Network) -> spec_fn(u32) -> bool {
    |ip: u32| !reserved(network, ip) && !reserved(local, ip)
}

/// The addresses that a scan of `network` asks from the network `local`, in ascending order.
pub open spec fn target_addresses(network: Network, local: Network) -> Seq<u32> {
    network.addresses().filter(may_be_host(network, local))
}

/// The addresses that a scan of `network` asks from the network `local`.
pub fn targets(network: Network, local: Network) -> (result: Vec<u32>)
    requires
        network.wf(),
        network.prefix >= 1,
        local.wf(),
    ensures
        result@ == target_addresses(network, local),
{
    let all = list_addresses(network.ip, network.prefix);
    let low: u32 = network.network();
    let high: u32 = network.broadcast();
    let local_low: u32 = local.network();
    let local_high: u32 = local.broadcast();
    let ghost keep = may_be_host(network, local);
    assert(all@ =~= network.addresses());
    let mut result: Vec<u32> = Vec::new();
    let mut i: usize = 0;
    proof {
        reveal(Seq::filter);
        assert(all@.take(0).filter(keep) =~= Seq::empty());
    }
    while i < all.len()
        invariant
            0 <= i <= all.len(),
            keep == may_be_host(network, local),
            low == network.lowest(),
            high == network.highest(),
            local_low == local.lowest(),
            local_high == local.highest(),
            result@ == all@.take(i as int).filter(keep),
        decreases all.len() - i,
    {
        let ip: u32 = all[i];
        proof {
            reveal(Seq::filter);
            assert(all@.take(i + 1).drop_last() =~= all@.take(i as int));
            assert(all@.take(i + 1).last() == ip);
        }
        if (network.prefix >= 31 || (ip != low && ip != high)) && (local.prefix >= 31 || (ip
            != local_low && ip != local_high)) {
            assert(keep(ip));
            result.push(ip);
        }
        i += 1;
    }
    assert(all@.take(i as int) =~= all@);
    result
}

/// A part of an ascending list is ascending.
proof fn lemma_filter_ascending(s: Seq<u32>, keep: spec_fn(u32) -> bool)
    requires
        crate::ordered::ascending(s),
    ensures
        crate::ordered::ascending(s.filter(keep)),
        forall|i: int| 0 <= i < s.filter(keep).len() ==> s.contains(#[trigger] s.filter(keep)[i]),
    decreases s.len(),
{
    reveal(Seq::filter);
    if s.len() > 0 {
        let shorter = s.drop_last();
        let part = shorter.filter(keep);
        lemma_filter_ascending(shorter, keep);
        assert forall|i: int| 0 <= i < part.len() implies #[trigger] part[i] < s.last() && s.contains(
            part[i],
        ) by {
            let k = choose|k: int| 0 <= k < shorter.len() && shorter[k] == part[i];
            assert(s[k] == part[i]);
        }
        assert(s.contains(s[s.len() - 1]));
    }
}

/// The addresses of a network are the numbers between its bounds, in ascending order.
pub proof fn lemma_addresses(network: Network)
    requires
        network.wf(),
    ensures
        crate::ordered::ascending(network.addresses()),
        forall|ip: u32| #[trigger] network.addresses().contains(ip) <==> network.has(ip),
{
    network.lemma_bounds();
    lemma_block_size(network.prefix);
    let all = network.addresses();
    assert forall|ip: u32| #[trigger] all.contains(ip) <==> network.has(ip) by {
        if network.has(ip) {
            assert(all[ip - network.lowest()] == ip);
        }
        if all.contains(ip) {
            let i = choose|i: int| 0 <= i < all.len() && all[i] == ip;
            assert(all[i] == network.lowest() + i);
        }
    }
}

/// A scan asks, in ascending order and so once each, exactly the addresses of the network
/// that a host may have: never an end of the network or of the local network, except where
/// they have no room for anything else.
pub proof fn law_targets_are_the_hosts_of_the_network(network: Network, local: Network)
    requires
        network.wf(),
        local.wf(),
    ensures
        crate::ordered::ascending(target_addresses(network, local)),
        forall|ip: u32| #[trigger]
            target_addresses(network, local).contains(ip) <==> network.has(ip) && !reserved(
                network,
                ip,
            ) && !reserved(local, ip),
        target_addresses(network, local).len() <= network.size(),
{
    let all = network.addresses();
    let keep = may_be_host(network, local);
    lemma_addresses(network);
    lemma_block_size(network.prefix);
    lemma_filter_ascending(all, keep);
    all.lemma_filter_len(keep);
    assert forall|ip: u32| #[trigger] target_addresses(network, local).contains(ip) <==> (
    network.has(ip) && keep(ip)) by {
        if all.filter(keep).contains(ip) {
            all.lemma_filter_contains_rev(keep, ip);
            let i = choose|i: int| 0 <= i < all.filter(keep).len() && all.filter(keep)[i] == ip;
            all.lemma_filter_pred(keep, i);
        }
        if network.has(ip) && keep(ip) {
            assert(all.contains(ip));
            let i = choose|i: int| 0 <= i < all.len() && all[i] == ip;
            all.lemma_filter_contains(keep, i);
        }
    }
}

/// A list of which every item is kept stays as it is.
proof fn lemma_filter_all(s: Seq<u32>, keep: spec_fn(u32) -> bool)
    requires
        forall|i: int| 0 <= i < s.len() ==> keep(#[trigger] s[i]),
    ensures
        s.filter(keep) == s,
    decreases s.len(),
{
    reveal(Seq::filter);
    if s.len() > 0 {
        let shorter = s.drop_last();
        assert forall|i: int| 0 <= i < shorter.len() implies keep(#[trigger] shorter[i]) by {
            assert(shorter[i] == s[i]);
        }
        lemma_filter_all(shorter, keep);
        assert(keep(s[s.len() - 1]));
    }
    assert(s.filter(keep) =~= s);
}

/// A scan asks all addresses of a network but its two ends, and both or the only one where
/// the network has no more than two, unless an end of the local network lies within.
pub proof fn law_number_of_targets(network: Network, local: Network)
    requires
        network.wf(),
        local.wf(),
        forall|ip: u32| network.has(ip) && #[trigger] reserved(local, ip) ==> reserved(network, ip),
    ensures
        target_addresses(network, local).len() == if network.prefix >= 31 {
            network.size()
        } else {
            network.size() - 2
        },
{
    let all = network.addresses();
    let keep = may_be_host(network, local);
    network.lemma_bounds();
    lemma_block_size(network.prefix);
    lemma_addresses(network);
    let size = network.size();
    if network.prefix >= 31 {
        assert forall|i: int| 0 <= i < all.len() implies keep(#[trigger] all[i]) by {
            assert(all.contains(all[i]));
            assert(!reserved(network, all[i]));
            assert(!reserved(local, all[i]));
        }
        lemma_filter_all(all, keep);
    } else {
        let first = seq![all[0]];
        let middle = all.subrange(1, size - 1);
        let last = seq![all[size - 1]];
        assert(all =~= first + middle + last);
        Seq::filter_distributes_over_add(first + middle, last, keep);
        Seq::filter_distributes_over_add(first, middle, keep);
        assert forall|i: int| 0 <= i < middle.len() implies keep(#[trigger] middle[i]) by {
            assert(middle[i] == all[i + 1]);
            assert(all.contains(all[i + 1]));
            assert(!reserved(network, all[i + 1]));
            assert(!reserved(local, all[i + 1]));
        }
        lemma_filter_all(middle, keep);
        assert(!keep(all[0]));
        assert(!keep(all[size - 1]));
        assert(first.filter(keep) =~= Seq::empty() && last.filter(keep) =~= Seq::empty()) by {
            reveal_with_fuel(Seq::filter, 2);
        }
    }
}

/// A network is a block of as many addresses as the bits behind its prefix can tell apart. It
/// begins at a multiple of that number, and holds its own address. An address lies in it exactly
/// if it agrees with that address in front of those bits.
pub proof fn law_network_is_the_block_of_its_prefix(network: Network, other: u32)
    requires
        network.wf(),
    ensures
        network.size() == pow2((32 - network.prefix) as nat),
        network.lowest() % network.size() == 0,
        network.lowest() <= network.ip <= network.highest(),
        network.highest() - network.lowest() + 1 == network.size(),
        network.has(network.ip),
        network.has(other) <==> other as int / pow2((32 - network.prefix) as nat) as int
            == network.ip as int / pow2((32 - network.prefix) as nat) as int,
{
    let size = network.size();
    lemma_block_size(network.prefix);
    network.lemma_bounds();
    network.lemma_has(other);
    vstd::arithmetic::div_mod::lemma_fundamental_div_mod(other as int, size);
    vstd::arithmetic::div_mod::lemma_fundamental_div_mod(network.ip as int, size);
    let p = other as int / size;
    let q = network.ip as int / size;
    assert(size * p == size * q ==> p == q) by (nonlinear_arith)
        requires
            size >= 1,
    ;
}

/// The addresses of a network are all those that lie in it, each once and from the lowest to the
/// highest.
pub proof fn law_addresses_are_those_of_the_network(network: Network)
    requires
        network.wf(),
    ensures
        network.addresses().len() == network.size(),
        forall|i: int|
            0 <= i < network.addresses().len() ==> #[trigger] network.addresses()[i]
                == network.lowest() + i,
        forall|ip: u32| #[trigger] network.addresses().contains(ip) <==> network.has(ip),
{
    lemma_addresses(network);
    network.lemma_bounds();
    lemma_block_size(network.prefix);
}

/// An address is asked exactly if it lies in the network and is the first or the last neither of
/// that network nor of the local one; a network of one or two addresses has no such ends. The
/// addresses are asked from the lowest to the highest.
pub proof fn law_asked_addresses_leave_out_the_ends(network: Network, local: Network, ip: u32)
    requires
        network.wf(),
        local.wf(),
    ensures
        target_addresses(network, local).contains(ip) <==> {
            &&& network.has(ip)
            &&& network.prefix >= 31 || (ip != network.lowest() && ip != network.highest())
            &&& local.prefix >= 31 || (ip != local.lowest() && ip != local.highest())
        },
        forall|i: int, j: int|
            0 <= i < j < target_addresses(network, local).len() ==> target_addresses(
                network,
                local,
            )[i] < target_addresses(network, local)[j],
{
    law_targets_are_the_hosts_of_the_network(network, local);
}

/// An address with a prefix length from 20 to 32 is taken for the whole network that it lies in.
/// A shorter prefix is refused as too wide, and a text that is no such address as unreadable.
pub proof fn law_subnet_is_the_network_of_its_address(ip: u32, prefix: u8)
    ensures
        checked_subnet(None) == Err::<Network, Seq<char>>(
            "Enter an IPv4 CIDR, for example 192.168.1.0/24."@,
        ),
        prefix < 20 ==> checked_subnet(Some((ip, prefix))) == Err::<Network, Seq<char>>(
            "Use a /20 or smaller range (at most 4096 addresses)."@,
        ),
        20 <= prefix <= 32 ==> checked_subnet(Some((ip, prefix))) is Ok,
        checked_subnet(Some((ip, prefix))) matches Ok(network) ==> {
            &&& network.prefix == prefix
            &&& network.has(ip)
            &&& network.ip == network.lowest()
        },
{
    if 20 <= prefix <= 32 {
        let network = Network { ip, prefix };
        network.lemma_bounds();
        lemma_lowest_is_fixed(network);
    }
}

/// Blanks around a subnet do not matter.
pub proof fn law_blanks_around_a_subnet(front: Seq<char>, core: Seq<char>, back: Seq<char>)
    requires
        forall|i: int| 0 <= i < front.len() ==> crate::text::is_white_space(#[trigger] front[i]),
        forall|i: int| 0 <= i < back.len() ==> crate::text::is_white_space(#[trigger] back[i]),
        core.len() > 0 ==> !crate::text::is_white_space(core[0]) && !crate::text::is_white_space(
            core.last(),
        ),
    ensures
        subnet_of(front + core + back) == checked_subnet(parsed_cidr(core)),
{
    crate::text::law_trimming_takes_the_blank_ends(front, core, back);
}

/// A slash cuts the text of a network into its address and its prefix length in decimal.
pub proof fn law_slash_stands_before_the_prefix(ip: u32, prefix: u8)
    ensures
        cidr_text(ip, prefix) == crate::address::ipv4_text(ip) + seq!['/'] + crate::text::decimal(
            prefix as nat,
        ),
{
    reveal_strlit("/");
    assert("/"@ =~= seq!['/']);
}

/// A result that is right has the very value, or the very message.
pub proof fn law_right_results(
    result: Result<Network, String>,
    expected: Result<Network, Seq<char>>,
)
    requires
        same_outcome(result, expected),
    ensures
        result is Ok <==> expected is Ok,
        result matches Ok(network) ==> network == expected->Ok_0,
        result matches Err(message) ==> message@ == expected->Err_0,
{
}

} // verus!
