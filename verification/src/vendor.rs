//! The registry of hardware address blocks and the names of their holders.

use std::collections::HashMap;

use vstd::prelude::*;
use vstd::slice::slice_subrange;

use crate::mac::MacAddr;
use crate::text::{find, parse_number, split_lines, to_chars, to_text, trim};

verus! {

/// A block of addresses: how many leading bits are fixed, and their value.
pub type Block = (u8, u64);

/// What one line of registry data assigns: a block and the name of its holder. A line is a
/// prefix of six, seven or nine hexadecimal digits, a tab and a name that is not blank;
/// comments and other lines assign nothing.
pub open spec fn assignment(line: Seq<char>) -> Option<(Block, Seq<char>)> {
    let tab = crate::text::position(line, '\t');
    let prefix = line.take(tab);
    let name = line.skip(tab + 1);
    if line.len() > 0 && line[0] == '#' {
        None
    } else if tab >= line.len() {
        None
    } else if prefix.len() != 6 && prefix.len() != 7 && prefix.len() != 9 {
        None
    } else if crate::text::trimmed(name).len() == 0 {
        None
    } else {
        match crate::text::parsed_number(prefix, 16, u64::MAX as int) {
            Some(value) => Some((((prefix.len() * 4) as u8, value as u64), name)),
            None => None,
        }
    }
}

/// The registry that the lines make up: of two lines on one block the later one counts.
pub open spec fn registry(lines: Seq<Seq<char>>) -> Map<Block, Seq<char>>
    decreases lines.len(),
{
    if lines.len() == 0 {
        Map::empty()
    } else {
        let earlier = registry(lines.drop_last());
        match assignment(lines.last()) {
            Some((block, name)) => earlier.insert(block, name),
            None => earlier,
        }
    }
}

/// The block of the given width that an address lies in.
pub open spec fn block_of(mac: MacAddr, bits: u8) -> Block {
    let width: int = if bits == 36 {
        0x1000
    } else if bits == 28 {
        0x10_0000
    } else {
        0x100_0000
    };
    (bits, (mac.number() / width) as u64)
}

/// The name to show for an address: that of the narrowest block that the registry assigns.
pub open spec fn vendor_name(mac: MacAddr, table: Map<Block, Seq<char>>) -> Seq<char> {
    if mac == MacAddr::spec_zero() || mac.is_group() {
        "Not a device MAC"@
    } else if mac.is_private() {
        "Private MAC (vendor unavailable)"@
    } else if table.contains_key(block_of(mac, 36)) {
        table[block_of(mac, 36)]
    } else if table.contains_key(block_of(mac, 28)) {
        table[block_of(mac, 28)]
    } else if table.contains_key(block_of(mac, 24)) {
        table[block_of(mac, 24)]
    } else {
        "Not in IEEE database"@
    }
}

/// Whether a block can occur: at most 36 fixed bits, and a value of 36 bits.
spec fn fits(block: Block) -> bool {
    block.0 <= 36 && block.1 < 0x10_0000_0000
}

/// The single number under which a block is kept.
spec fn packed(block: Block) -> u64 {
    (block.0 * 0x10_0000_0000 + block.1) as u64
}

fn pack(bits: u8, value: u64) -> (result: u64)
    requires
        fits((bits, value)),
    ensures
        result == packed((bits, value)),
{
    bits as u64 * 0x10_0000_0000 + value
}

/// The names of the holders of address blocks.
pub struct VendorTable {
    names: HashMap<u64, String>,
}

impl View for VendorTable {
    type V = Map<Block, Seq<char>>;

    closed spec fn view(&self) -> Map<Block, Seq<char>> {
        Map::new(
            |block: Block| fits(block) && self.names@.contains_key(packed(block)),
            |block: Block| self.names@[packed(block)]@,
        )
    }
}

impl VendorTable {
    /// Every number in the table stands for a block.
    pub closed spec fn wf(&self) -> bool {
        forall|key: u64| #[trigger]
            self.names@.contains_key(key) ==> exists|block: Block|
                fits(block) && #[trigger] packed(block) == key
    }

    /// A registry without any assignment.
    pub fn new() -> (result: VendorTable)
        ensures
            result.wf(),
            result@ == Map::<Block, Seq<char>>::empty(),
    {
        broadcast use vstd::std_specs::hash::group_hash_axioms;

        let result = VendorTable { names: HashMap::new() };
        assert(result@ =~= Map::<Block, Seq<char>>::empty());
        result
    }

    fn assign(&mut self, bits: u8, value: u64, name: String)
        requires
            old(self).wf(),
            fits((bits, value)),
        ensures
            final(self).wf(),
            final(self)@ == old(self)@.insert((bits, value), name@),
    {
        broadcast use vstd::std_specs::hash::group_hash_axioms;

        let key: u64 = pack(bits, value);
        self.names.insert(key, name);
        assert(packed((bits, value)) == key);
        assert forall|block: Block| fits(block) && #[trigger] packed(block) == key implies block == (
            bits,
            value,
        ) by {}
        assert(self@ =~= old(self)@.insert((bits, value), name@));
    }

    /// The number of assigned blocks.
    pub fn len(&self) -> (result: usize)
        requires
            self.wf(),
        ensures
            result == self@.dom().len(),
    {
        broadcast use vstd::std_specs::hash::group_hash_axioms;

        proof {
            let blocks = self@.dom();
            let keys = self.names@.dom();
            let unpacked = |key: u64| ((key / 0x10_0000_0000) as u8, (key % 0x10_0000_0000) as u64);
            assert forall|block: Block| fits(block) implies unpacked(#[trigger] packed(block))
                == block by {}
            assert forall|key: u64| #[trigger] keys.contains(key) implies blocks.contains(
                unpacked(key),
            ) && packed(unpacked(key)) == key by {
                let block = choose|block: Block| fits(block) && #[trigger] packed(block) == key;
                assert(unpacked(packed(block)) == block);
            }
            assert(vstd::relations::injective_on(unpacked, keys));
            assert(keys.map(unpacked) =~= blocks) by {
                assert forall|block: Block| #[trigger] blocks.contains(block) implies keys.map(
                    unpacked,
                ).contains(block) by {
                    assert(keys.contains(packed(block)));
                    assert(unpacked(packed(block)) == block);
                }
            }
            vstd::set_lib::lemma_map_size(keys, blocks, unpacked);
        }
        self.names.len()
    }

    fn name_of(&self, bits: u8, value: u64) -> (result: Option<&String>)
        requires
            fits((bits, value)),
        ensures
            match result {
                Some(name) => self@.contains_key((bits, value)) && name@ == self@[(bits, value)],
                None => !self@.contains_key((bits, value)),
            },
    {
        broadcast use vstd::std_specs::hash::group_hash_axioms;

        let key: u64 = pack(bits, value);
        self.names.get(&key)
    }
}

/// A number of at most nine hexadecimal digits has at most 36 bits.
proof fn lemma_hex_bound(s: Seq<char>)
    requires
        s.len() <= 9,
        crate::text::all_digits(s, 16),
    ensures
        0 <= crate::text::digits_value(s, 16) < vstd::arithmetic::power::pow(16, s.len()),
    decreases s.len(),
{
    reveal(vstd::arithmetic::power::pow);
    if s.len() > 0 {
        assert(crate::text::digit_value(s[s.len() - 1]) < 16);
        assert forall|i: int| 0 <= i < s.drop_last().len() implies crate::text::digit_value(
            #[trigger] s.drop_last()[i],
        ) < 16 by {
            assert(s.drop_last()[i] == s[i]);
        }
        lemma_hex_bound(s.drop_last());
    }
}

/// What one line of registry data assigns.
fn parse_assignment(line: &[char]) -> (result: Option<(u8, u64, String)>)
    ensures
        match assignment(line@) {
            Some((block, name)) => {
                &&& result is Some
                &&& fits(block)
                &&& ((result->0).0, (result->0).1) == block
                &&& (result->0).2@ == name
            },
            None => result is None,
        },
{
    if line.len() > 0 && line[0] == '#' {
        return None;
    }
    let tab: usize = find(line, '\t');
    if tab >= line.len() {
        return None;
    }
    let prefix = slice_subrange(line, 0, tab);
    let name = slice_subrange(line, tab + 1, line.len());
    proof {
        assert(prefix@ =~= line@.take(tab as int));
        assert(name@ =~= line@.skip(tab + 1));
    }
    if tab != 6 && tab != 7 && tab != 9 {
        return None;
    }
    if trim(name).len() == 0 {
        return None;
    }
    match parse_number(prefix, 16, u64::MAX) {
        Some(value) => {
            proof {
                let digits = crate::text::unsigned_digits(prefix@);
                lemma_hex_bound(digits);
                vstd::arithmetic::power::lemma_pow_increases(16, digits.len(), 9);
                assert(vstd::arithmetic::power::pow(16, 9) == 0x10_0000_0000) by {
                    reveal(vstd::arithmetic::power::pow);
                    reveal_with_fuel(vstd::arithmetic::power::pow, 10);
                }
            }
            Some((tab as u8 * 4, value, to_text(name)))
        },
        None => None,
    }
}

/// Reads registry data.
pub fn parse_vendors(data: &str) -> (result: VendorTable)
    ensures
        result.wf(),
        result@ == registry(crate::text::lines(data@)),
{
    let chars = to_chars(data);
    let lines = split_lines(chars.as_slice());
    let ghost texts = lines@.map_values(|line: &[char]| line@);
    let mut result = VendorTable::new();
    let mut i: usize = 0;
    while i < lines.len()
        invariant
            0 <= i <= lines.len(),
            texts == lines@.map_values(|line: &[char]| line@),
            result.wf(),
            result@ == registry(texts.take(i as int)),
        decreases lines.len() - i,
    {
        proof {
            assert(texts.take(i + 1).drop_last() =~= texts.take(i as int));
            assert(texts.take(i + 1).last() == lines@[i as int]@);
        }
        match parse_assignment(lines[i]) {
            Some((bits, value, name)) => result.assign(bits, value, name),
            None => {},
        }
        i += 1;
    }
    assert(texts.take(lines.len() as int) =~= texts);
    result
}

/// The registry read from `data`, which is read only on first use.
pub fn vendor_table<'a>(cache: &'a mut Option<VendorTable>, data: &str) -> (result: &'a VendorTable)
    ensures
        *final(cache) == Some(*result),
        match *old(cache) {
            Some(table) => *result == table,
            None => result.wf() && result@ == registry(crate::text::lines(data@)),
        },
{
    if cache.is_none() {
        *cache = Some(parse_vendors(data));
    }
    cache.as_ref().unwrap()
}

/// The name to show for an address.
pub fn lookup_vendor<'a>(mac: MacAddr, table: &'a VendorTable) -> (result: &'a str)
    ensures
        result@ == vendor_name(mac, table@),
{
    if mac.is_zero() || mac.0 % 2 == 1 {
        return "Not a device MAC";
    }
    if mac.0 / 2 % 2 == 1 {
        return "Private MAC (vendor unavailable)";
    }
    let value: u64 = ((((mac.0 as u64 * 256 + mac.1 as u64) * 256 + mac.2 as u64) * 256
        + mac.3 as u64) * 256 + mac.4 as u64) * 256 + mac.5 as u64;
    if let Some(name) = table.name_of(36, value / 0x1000) {
        return name.as_str();
    }
    if let Some(name) = table.name_of(28, value / 0x10_0000) {
        return name.as_str();
    }
    if let Some(name) = table.name_of(24, value / 0x100_0000) {
        return name.as_str();
    }
    "Not in IEEE database"
}

/// The name to show for an address, by the registry read from `data` on first use.
pub fn vendor<'a>(mac: MacAddr, cache: &'a mut Option<VendorTable>, data: &str) -> (result: &'a str)
    ensures
        *final(cache) is Some,
        match *old(cache) {
            Some(table) => *final(cache) == Some(table),
            None => (*final(cache))->0@ == registry(crate::text::lines(data@)),
        },
        result@ == vendor_name(mac, (*final(cache))->0@),
{
    lookup_vendor(mac, vendor_table(cache, data))
}

/// A later line on a block replaces what earlier lines said of it, and touches no other
/// block.
pub proof fn law_later_line_counts(lines: Seq<Seq<char>>, line: Seq<char>)
    requires
        assignment(line) is Some,
    ensures
        registry(lines.push(line)) == registry(lines).insert(
            (assignment(line)->0).0,
            (assignment(line)->0).1,
        ),
{
    assert(lines.push(line).drop_last() =~= lines);
}

/// Comments assign nothing, and lines that assign nothing leave the registry as it is.
pub proof fn law_other_lines_are_ignored(lines: Seq<Seq<char>>, line: Seq<char>)
    ensures
        line.len() > 0 && line[0] == '#' ==> assignment(line) is None,
        assignment(line) is None ==> registry(lines.push(line)) == registry(lines),
{
    assert(lines.push(line).drop_last() =~= lines);
}

/// Once a block of a given width names the holder of an address, no assignment of a wider
/// block changes the name.
pub proof fn law_narrowest_block_wins(
    mac: MacAddr,
    table: Map<Block, Seq<char>>,
    bits: u8,
    wider: Block,
    name: Seq<char>,
)
    requires
        bits == 36 || bits == 28 || bits == 24,
        table.contains_key(block_of(mac, bits)),
        wider.0 < bits,
    ensures
        vendor_name(mac, table.insert(wider, name)) == vendor_name(mac, table),
{
}

/// An address that was not assigned by the registry gets the same answer from every table.
pub proof fn law_unregistered_addresses_name_no_vendor(
    mac: MacAddr,
    a: Map<Block, Seq<char>>,
    b: Map<Block, Seq<char>>,
)
    requires
        mac == MacAddr::spec_zero() || mac.is_group() || mac.is_private(),
    ensures
        vendor_name(mac, a) == vendor_name(mac, b),
{
}

/// The name of a registered address: of the blocks of 36, 28 and 24 bits that it lies in the
/// narrowest one assigned gives the name, and only where none of them is assigned is the address
/// not in the registry. The leading bits of an address are the first digits of its number.
pub proof fn law_narrowest_assigned_block_names_the_vendor(
    mac: MacAddr,
    table: Map<Block, Seq<char>>,
)
    requires
        mac.number() > 0,
        mac.0 % 4 == 0,
    ensures
        ({
            let large: Block = (24, (mac.0 * 0x1_0000 + mac.1 * 0x100 + mac.2) as u64);
            let medium: Block = (28, (large.1 * 0x10 + mac.3 / 0x10) as u64);
            let small: Block = (36, (large.1 * 0x1000 + mac.3 * 0x10 + mac.4 / 0x10) as u64);
            let name = vendor_name(mac, table);
            &&& table.contains_key(small) ==> name == table[small]
            &&& !table.contains_key(small) && table.contains_key(medium) ==> name == table[medium]
            &&& !table.contains_key(small) && !table.contains_key(medium) && table.contains_key(
                large,
            ) ==> name == table[large]
            &&& !table.contains_key(small) && !table.contains_key(medium) && !table.contains_key(
                large,
            ) ==> name == "Not in IEEE database"@
        }),
{
    assert(mac != MacAddr::spec_zero());
    let n = mac.number();
    let front = mac.0 * 0x1_0000 + mac.1 * 0x100 + mac.2;
    assert(n == front * 0x100_0000 + mac.3 * 0x1_0000 + mac.4 * 0x100 + mac.5);
    assert(n / 0x100_0000 == front);
    assert(n / 0x10_0000 == front * 0x10 + mac.3 as int / 0x10);
    assert(n / 0x1000 == front * 0x1000 + mac.3 * 0x10 + mac.4 as int / 0x10);
}

/// Addresses that no registry assigns are named for what they are: the zero address and those of
/// groups belong to no device, and the locally assigned ones are private.
pub proof fn law_unassignable_addresses_are_named(mac: MacAddr, table: Map<Block, Seq<char>>)
    ensures
        mac.number() == 0 || mac.0 % 2 == 1 ==> vendor_name(mac, table) == "Not a device MAC"@,
        mac.0 % 4 == 2 ==> vendor_name(mac, table) == "Private MAC (vendor unavailable)"@,
{
    if mac.number() == 0 {
        assert(mac == MacAddr::spec_zero());
    }
}

/// A line of six, seven or nine hexadecimal digits, a tab and a name assigns the block with
/// those leading digits to that name, as it is written.
pub proof fn law_line_assigns_its_prefix(prefix: Seq<char>, name: Seq<char>)
    requires
        prefix.len() == 6 || prefix.len() == 7 || prefix.len() == 9,
        forall|i: int|
            0 <= i < prefix.len() ==> crate::text::digit_value(#[trigger] prefix[i]) < 16,
        exists|i: int| 0 <= i < name.len() && !crate::text::is_white_space(#[trigger] name[i]),
    ensures
        assignment(prefix + seq!['\t'] + name) matches Some((block, holder)) && holder == name
            && block.0 == 4 * prefix.len() && block.1 == crate::text::digits_value(prefix, 16),
{
    let line = prefix + seq!['\t'] + name;
    let n = prefix.len() as int;
    assert forall|i: int| 0 <= i < n implies #[trigger] line[i] != '\t' by {
        assert(line[i] == prefix[i]);
        assert(crate::text::digit_value(prefix[i]) < 16);
    }
    crate::text::lemma_position_unique(line, '\t', n);
    assert(line.take(n) =~= prefix);
    assert(line.skip(n + 1) =~= name);
    assert(line[0] == prefix[0]);
    assert(crate::text::digit_value(prefix[0]) < 16);
    assert(crate::text::unsigned_digits(prefix) == prefix);
    lemma_hex_bound(prefix);
    vstd::arithmetic::power::lemma_pow_increases(16, prefix.len(), 9);
    assert(vstd::arithmetic::power::pow(16, 9) == 0x10_0000_0000) by {
        reveal(vstd::arithmetic::power::pow);
        reveal_with_fuel(vstd::arithmetic::power::pow, 10);
    }
    let i = choose|i: int| 0 <= i < name.len() && !crate::text::is_white_space(#[trigger] name[i]);
    crate::text::lemma_not_blank(name, i);
}

/// Comments, lines without a tab, prefixes of another length or with other characters, and blank
/// names assign nothing.
pub proof fn law_malformed_lines_assign_nothing(prefix: Seq<char>, name: Seq<char>)
    requires
        forall|i: int| 0 <= i < prefix.len() ==> #[trigger] prefix[i] != '\t',
    ensures
        assignment(prefix) is None,
        prefix.len() > 0 && prefix[0] == '#' ==> assignment(prefix + seq!['\t'] + name) is None,
        prefix.len() != 6 && prefix.len() != 7 && prefix.len() != 9 ==> assignment(
            prefix + seq!['\t'] + name,
        ) is None,
        crate::text::trimmed(name).len() == 0 ==> assignment(prefix + seq!['\t'] + name) is None,
        (exists|i: int|
            1 <= i < prefix.len() && crate::text::digit_value(#[trigger] prefix[i]) >= 16)
            ==> assignment(prefix + seq!['\t'] + name) is None,
{
    let line = prefix + seq!['\t'] + name;
    let n = prefix.len() as int;
    assert forall|i: int| 0 <= i < n implies #[trigger] line[i] != '\t' by {
        assert(line[i] == prefix[i]);
    }
    crate::text::lemma_position_unique(line, '\t', n);
    crate::text::lemma_position_unique(prefix, '\t', n);
    assert(line.take(n) =~= prefix);
    assert(line.skip(n + 1) =~= name);
    if n > 0 {
        assert(line[0] == prefix[0]);
    }
    if exists|i: int| 1 <= i < prefix.len() && crate::text::digit_value(#[trigger] prefix[i]) >= 16 {
        let i = choose|i: int|
            1 <= i < prefix.len() && crate::text::digit_value(#[trigger] prefix[i]) >= 16;
        let digits = crate::text::unsigned_digits(prefix);
        let k = if prefix[0] == '+' {
            i - 1
        } else {
            i
        };
        assert(digits[k] == prefix[i]);
        assert(!crate::text::all_digits(digits, 16));
    }
}

/// A registry of no lines is empty, so it holds nothing but what its lines assign.
pub proof fn law_registry_holds_what_its_lines_assign(lines: Seq<Seq<char>>, block: Block)
    ensures
        registry(lines).contains_key(block) <==> exists|i: int|
            0 <= i < lines.len() && (assignment(#[trigger] lines[i]) matches Some((assigned, _))
                && assigned == block),
        registry(lines).contains_key(block) ==> exists|i: int|
            {
                &&& 0 <= i < lines.len()
                &&& assignment(#[trigger] lines[i]) == Some((block, registry(lines)[block]))
                &&& forall|j: int|
                    i < j < lines.len() ==> !(assignment(#[trigger] lines[j]) matches Some(
                        (assigned, _),
                    ) && assigned == block)
            },
    decreases lines.len(),
{
    if lines.len() > 0 {
        let shorter = lines.drop_last();
        let n = shorter.len() as int;
        law_registry_holds_what_its_lines_assign(shorter, block);
        assert forall|i: int| 0 <= i < n implies #[trigger] shorter[i] == lines[i] by {}
        assert(lines[n] == lines.last());
        let here = assignment(lines[n]) matches Some((assigned, _)) && assigned == block;
        if here {
            assert(assignment(lines[n]) == Some((block, registry(lines)[block])));
        } else if registry(shorter).contains_key(block) {
            assert(registry(lines)[block] == registry(shorter)[block]);
            let i = choose|i: int|
                {
                    &&& 0 <= i < shorter.len()
                    &&& assignment(#[trigger] shorter[i]) == Some((block, registry(shorter)[block]))
                    &&& forall|j: int|
                        i < j < shorter.len() ==> !(assignment(#[trigger] shorter[j]) matches Some(
                            (assigned, _),
                        ) && assigned == block)
                };
            assert(assignment(lines[i]) == Some((block, registry(lines)[block])));
            assert forall|j: int| i < j < lines.len() implies !(assignment(
                #[trigger] lines[j],
            ) matches Some((assigned, _)) && assigned == block) by {
                if j < n {
                    assert(shorter[j] == lines[j]);
                }
            }
        } else {
            assert forall|i: int| 0 <= i < lines.len() implies !(assignment(
                #[trigger] lines[i],
            ) matches Some((assigned, _)) && assigned == block) by {
                if i < n {
                    assert(shorter[i] == lines[i]);
                }
            }
        }
    }
}

/// A line with a prefix of six, seven or nine characters that reads as a hexadecimal number, a
/// tab and a name that is not blank assigns the block of that number and of four bits for each
/// character to that name.
pub proof fn law_line_assigns_what_its_prefix_reads_as(
    prefix: Seq<char>,
    name: Seq<char>,
    value: int,
)
    requires
        prefix.len() == 6 || prefix.len() == 7 || prefix.len() == 9,
        crate::text::parsed_number(prefix, 16, u64::MAX as int) == Some(value),
        forall|i: int| 0 <= i < prefix.len() ==> #[trigger] prefix[i] != '\t',
        crate::text::trimmed(name).len() > 0,
    ensures
        assignment(prefix + seq!['\t'] + name) matches Some((block, holder)) && holder == name
            && block.0 == 4 * prefix.len() && block.1 == value,
{
    let line = prefix + seq!['\t'] + name;
    let n = prefix.len() as int;
    assert forall|i: int| 0 <= i < n implies #[trigger] line[i] != '\t' by {
        assert(line[i] == prefix[i]);
    }
    crate::text::lemma_position_unique(line, '\t', n);
    assert(line.take(n) =~= prefix);
    assert(line.skip(n + 1) =~= name);
    assert(line[0] == prefix[0]);
    let digits = crate::text::unsigned_digits(prefix);
    crate::text::lemma_digits_value_grows(digits, digits.len() as int, 16);
    assert(digits.take(digits.len() as int) =~= digits);
    if prefix[0] == '#' {
        assert(digits[0] == '#');
        assert(crate::text::digit_value('#') == 16);
    }
}

} // verus!
