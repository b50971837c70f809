//! IPv4 addresses, held as 32-bit numbers whose most significant byte comes first.

use vstd::prelude::*;
use vstd::string::StringExecFns;

use crate::text::decimal_text;

verus! {

/// The address `a.b.c.d` as a number.
pub open spec fn ipv4_number(a: u8, b: u8, c: u8, d: u8) -> u32 {
    (((a * 256 + b) * 256 + c) * 256 + d) as u32
}

/// The byte of an address at `index`, counted from the most significant one.
pub open spec fn ipv4_byte(ip: u32, index: int) -> u8 {
    if index == 0 {
        (ip / 0x100_0000) as u8
    } else if index == 1 {
        (ip / 0x1_0000 % 256) as u8
    } else if index == 2 {
        (ip / 0x100 % 256) as u8
    } else {
        (ip % 256) as u8
    }
}

/// An address as four decimal numbers with dots between them.
pub open spec fn ipv4_text(ip: u32) -> Seq<char> {
    crate::text::decimal(ipv4_byte(ip, 0) as nat) + "."@ + crate::text::decimal(
        ipv4_byte(ip, 1) as nat,
    ) + "."@ + crate::text::decimal(ipv4_byte(ip, 2) as nat) + "."@ + crate::text::decimal(
        ipv4_byte(ip, 3) as nat,
    )
}

/// The address `a.b.c.d`.
pub fn ipv4(a: u8, b: u8, c: u8, d: u8) -> (result: u32)
    ensures
        result == ipv4_number(a, b, c, d),
{
    ((a as u32 * 256 + b as u32) * 256 + c as u32) * 256 + d as u32
}

/// The bytes of an address, most significant first.
pub fn ipv4_bytes(ip: u32) -> (result: (u8, u8, u8, u8))
    ensures
        result.0 == ipv4_byte(ip, 0),
        result.1 == ipv4_byte(ip, 1),
        result.2 == ipv4_byte(ip, 2),
        result.3 == ipv4_byte(ip, 3),
{
    (
        (ip / 0x100_0000) as u8,
        (ip / 0x1_0000 % 256) as u8,
        (ip / 0x100 % 256) as u8,
        (ip % 256) as u8,
    )
}

/// The usual text of an address.
pub fn ipv4_to_text(ip: u32) -> (result: String)
    ensures
        result@ == ipv4_text(ip),
{
    let (a, b, c, d) = ipv4_bytes(ip);
    let mut result = decimal_text(a as u64);
    result.append(".");
    result.append(decimal_text(b as u64).as_str());
    result.append(".");
    result.append(decimal_text(c as u64).as_str());
    result.append(".");
    result.append(decimal_text(d as u64).as_str());
    result
}

/// An address is the number that its bytes make up.
pub proof fn law_bytes_make_up_the_address(ip: u32)
    ensures
        ipv4_number(ipv4_byte(ip, 0), ipv4_byte(ip, 1), ipv4_byte(ip, 2), ipv4_byte(ip, 3)) == ip,
{
}

/// The number of an address is made of its four bytes, the first of them most significant.
pub proof fn law_number_of_an_address(a: u8, b: u8, c: u8, d: u8)
    ensures
        ipv4_number(a, b, c, d) == a * 0x100_0000 + b * 0x1_0000 + c * 0x100 + d,
        ipv4_byte(ipv4_number(a, b, c, d), 0) == a,
        ipv4_byte(ipv4_number(a, b, c, d), 1) == b,
        ipv4_byte(ipv4_number(a, b, c, d), 2) == c,
        ipv4_byte(ipv4_number(a, b, c, d), 3) == d,
{
}

/// The dots cut the text of an address into its four bytes in decimal, the most significant
/// first.
pub proof fn law_text_of_an_address(a: u8, b: u8, c: u8, d: u8)
    ensures
        crate::text::split(ipv4_text(ipv4_number(a, b, c, d)), '.') == seq![
            crate::text::decimal(a as nat),
            crate::text::decimal(b as nat),
            crate::text::decimal(c as nat),
            crate::text::decimal(d as nat),
        ],
{
    law_number_of_an_address(a, b, c, d);
    let (p, q, r, s) = (
        crate::text::decimal(a as nat),
        crate::text::decimal(b as nat),
        crate::text::decimal(c as nat),
        crate::text::decimal(d as nat),
    );
    reveal_strlit(".");
    let dot = seq!['.'];
    assert("."@ =~= dot);
    crate::text::lemma_decimal_digits(a as nat);
    crate::text::lemma_decimal_digits(b as nat);
    crate::text::lemma_decimal_digits(c as nat);
    crate::text::lemma_decimal_digits(d as nat);
    crate::text::lemma_unsplit(p, '.');
    crate::text::lemma_unsplit(q, '.');
    crate::text::lemma_unsplit(r, '.');
    crate::text::lemma_unsplit(s, '.');
    crate::text::lemma_split_concat(p, q, '.');
    crate::text::lemma_split_concat(p + dot + q, r, '.');
    crate::text::lemma_split_concat(p + dot + q + dot + r, s, '.');
    assert(ipv4_text(ipv4_number(a, b, c, d)) =~= p + dot + q + dot + r + dot + s);
    assert(crate::text::split(ipv4_text(ipv4_number(a, b, c, d)), '.') =~= seq![p, q, r, s]);
}

} // verus!
