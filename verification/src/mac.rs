//! Hardware addresses.

use vstd::prelude::*;

use crate::text::digit_char;

verus! {

/// A 48-bit hardware address, first byte first.
#[derive(Clone, Copy, Debug, PartialEq, Eq, Structural)]
pub struct MacAddr(pub u8, pub u8, pub u8, pub u8, pub u8, pub u8);

/// A byte as two hexadecimal digits in lower case.
pub open spec fn hex_byte(b: u8) -> Seq<char> {
    seq![digit_char(b as int / 16), digit_char(b as int % 16)]
}

/// A hardware address as six pairs of hexadecimal digits with colons between them.
pub open spec fn mac_text(mac: MacAddr) -> Seq<char> {
    hex_byte(mac.0).push(':') + hex_byte(mac.1).push(':') + hex_byte(mac.2).push(':') + hex_byte(
        mac.3,
    ).push(':') + hex_byte(mac.4).push(':') + hex_byte(mac.5)
}

/// Calls the `Display` of `pnet::util::MacAddr`, which writes the six bytes in order, each as
/// two lower-case hexadecimal digits, with colons between them.
#[verifier::external_body]
fn display_mac(mac: MacAddr) -> (result: String)
    ensures
        result@ == mac_text(mac),
{
    pnet::util::MacAddr::new(mac.0, mac.1, mac.2, mac.3, mac.4, mac.5).to_string()
}

impl MacAddr {
    /// The address of which every bit is zero.
    pub open spec fn spec_zero() -> MacAddr {
        MacAddr(0, 0, 0, 0, 0, 0)
    }

    /// The address that every station listens to.
    pub open spec fn spec_broadcast() -> MacAddr {
        MacAddr(255, 255, 255, 255, 255, 255)
    }

    /// Whether the address stands for a group of stations.
    pub open spec fn is_group(self) -> bool {
        self.0 % 2 == 1
    }

    /// Whether the address was assigned locally, outside any registry.
    pub open spec fn is_private(self) -> bool {
        self.0 / 2 % 2 == 1
    }

    /// The address as a number, first byte most significant.
    pub open spec fn number(self) -> int {
        ((((self.0 * 256 + self.1) * 256 + self.2) * 256 + self.3) * 256 + self.4) * 256 + self.5
    }

    /// The address of which every bit is zero.
    pub fn zero() -> (result: MacAddr)
        ensures
            result == MacAddr::spec_zero(),
    {
        MacAddr(0, 0, 0, 0, 0, 0)
    }

    /// The address that every station listens to.
    pub fn broadcast() -> (result: MacAddr)
        ensures
            result == MacAddr::spec_broadcast(),
    {
        MacAddr(255, 255, 255, 255, 255, 255)
    }

    /// Whether every bit is zero.
    pub fn is_zero(&self) -> (result: bool)
        ensures
            result == (*self == MacAddr::spec_zero()),
    {
        self.0 == 0 && self.1 == 0 && self.2 == 0 && self.3 == 0 && self.4 == 0 && self.5 == 0
    }

    /// The usual text of the address.
    pub fn to_text(&self) -> (result: String)
        ensures
            result@ == mac_text(*self),
    {
        display_mac(*self)
    }
}

/// An address is that of a group where the lowest bit of its first byte is set, and was assigned
/// locally where the next bit is.
pub proof fn law_bits_of_the_first_byte(mac: MacAddr)
    ensures
        mac.is_group() <==> mac.0 & 1 != 0,
        mac.is_private() <==> mac.0 & 2 != 0,
{
    let first = mac.0;
    assert(first & 1 == first % 2) by (bit_vector);
    assert((first & 2 != 0) == (first / 2 % 2 == 1)) by (bit_vector);
}

/// The number of an address is made of its six bytes, the first of them most significant.
pub proof fn law_number_of_a_hardware_address(mac: MacAddr)
    ensures
        mac.number() == mac.0 * 0x100_0000_0000 + mac.1 * 0x1_0000_0000 + mac.2 * 0x100_0000
            + mac.3 * 0x1_0000 + mac.4 * 0x100 + mac.5,
        MacAddr::spec_zero().number() == 0,
        MacAddr::spec_broadcast().number() == 0xFFFF_FFFF_FFFF,
{
}

/// A byte is written with two hexadecimal digits, which read back as the byte.
pub proof fn law_byte_reads_back(b: u8)
    ensures
        hex_byte(b).len() == 2,
        crate::text::parsed_number(hex_byte(b), 16, 255) == Some(b as int),
        forall|i: int| 0 <= i < 2 ==> !(65 <= #[trigger] hex_byte(b)[i] as int <= 90),
        forall|i: int| 0 <= i < 2 ==> #[trigger] hex_byte(b)[i] != ':',
{
    let text = hex_byte(b);
    let high = b as int / 16;
    let low = b as int % 16;
    assert(crate::text::digit_value(digit_char(high)) == high);
    assert(crate::text::digit_value(digit_char(low)) == low);
    assert(text[0] == digit_char(high) && text[1] == digit_char(low));
    assert(crate::text::unsigned_digits(text) == text);
    assert(text.drop_last() =~= seq![digit_char(high)]);
    assert(text.drop_last().drop_last() =~= Seq::empty());
    assert(crate::text::digits_value(Seq::<char>::empty(), 16) == 0);
    assert(crate::text::digits_value(text.drop_last(), 16) == high);
    assert(crate::text::digits_value(text, 16) == high * 16 + low);
}

/// The colons cut the text of an address into its six bytes in order.
pub proof fn law_text_of_a_hardware_address(mac: MacAddr)
    ensures
        crate::text::split(mac_text(mac), ':') == seq![
            hex_byte(mac.0),
            hex_byte(mac.1),
            hex_byte(mac.2),
            hex_byte(mac.3),
            hex_byte(mac.4),
            hex_byte(mac.5),
        ],
{
    let (a, b, c, d, e, f) = (
        hex_byte(mac.0),
        hex_byte(mac.1),
        hex_byte(mac.2),
        hex_byte(mac.3),
        hex_byte(mac.4),
        hex_byte(mac.5),
    );
    law_byte_reads_back(mac.0);
    law_byte_reads_back(mac.1);
    law_byte_reads_back(mac.2);
    law_byte_reads_back(mac.3);
    law_byte_reads_back(mac.4);
    law_byte_reads_back(mac.5);
    crate::text::lemma_unsplit(a, ':');
    crate::text::lemma_unsplit(b, ':');
    crate::text::lemma_unsplit(c, ':');
    crate::text::lemma_unsplit(d, ':');
    crate::text::lemma_unsplit(e, ':');
    crate::text::lemma_unsplit(f, ':');
    let colon = seq![':'];
    let ab = a + colon + b;
    let abc = ab + colon + c;
    let abcd = abc + colon + d;
    let abcde = abcd + colon + e;
    crate::text::lemma_split_concat(a, b, ':');
    crate::text::lemma_split_concat(ab, c, ':');
    crate::text::lemma_split_concat(abc, d, ':');
    crate::text::lemma_split_concat(abcd, e, ':');
    crate::text::lemma_split_concat(abcde, f, ':');
    assert(mac_text(mac) =~= abcde + colon + f);
    assert(crate::text::split(mac_text(mac), ':') =~= seq![a, b, c, d, e, f]);
}

} // verus!
