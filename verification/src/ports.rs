//! Lists of TCP ports, as the user writes them.

use std::collections::BTreeSet;

use vstd::prelude::*;
use vstd::slice::slice_subrange;

use crate::text::{concat2, concat3, find, parse_number, split_at_each, to_chars, to_text, trim};

verus! {

/// The most ports that a scan probes on each host.
pub const MAX_PORTS: usize = 256;

/// What is said of a port that is no number from 1 to 65535.
pub open spec fn invalid_port(text: Seq<char>) -> Seq<char> {
    "Invalid port '"@ + crate::text::trimmed(text) + "': use numbers 1–65535."@
}

/// What is said of a range that ends before it starts.
pub open spec fn reversed_range(value: Seq<char>) -> Seq<char> {
    "Reversed port range: "@ + value
}

/// What is said of a list of too many ports.
pub open spec fn too_many_ports() -> Seq<char> {
    "Specify at most 256 distinct ports."@
}

/// The port that a text stands for.
pub open spec fn port_of(text: Seq<char>) -> Result<u16, Seq<char>> {
    match crate::text::parsed_number(crate::text::trimmed(text), 10, 65535) {
        Some(n) => if n == 0 {
            Err(invalid_port(text))
        } else {
            Ok(n as u16)
        },
        None => Err(invalid_port(text)),
    }
}

/// The two ends that an entry of the list stands for: those of a range, or one port twice.
pub open spec fn range_ends(value: Seq<char>) -> Result<(u16, u16), Seq<char>> {
    let text = crate::text::trimmed(value);
    let dash = crate::text::position(text, '-');
    if dash < text.len() {
        match port_of(text.take(dash)) {
            Err(message) => Err(message),
            Ok(start) => match port_of(text.skip(dash + 1)) {
                Err(message) => Err(message),
                Ok(end) => Ok((start, end)),
            },
        }
    } else {
        match port_of(value) {
            Err(message) => Err(message),
            Ok(port) => Ok((port, port)),
        }
    }
}

/// The ports from one to another, both of them with it.
pub open spec fn ports_between(start: u16, end: u16) -> Set<u16> {
    Set::new(|port: u16| start <= port <= end)
}

/// The ports that an entry of the list stands for.
pub open spec fn entry_ports(value: Seq<char>) -> Result<Set<u16>, Seq<char>> {
    match range_ends(value) {
        Err(message) => Err(message),
        Ok((start, end)) => if start > end {
            Err(reversed_range(value))
        } else if end - start + 1 > MAX_PORTS {
            Err(too_many_ports())
        } else {
            Ok(ports_between(start, end))
        },
    }
}

/// The ports that the entries stand for together. The first entry that is wrong, or that
/// makes the ports too many, decides what is said.
pub open spec fn all_ports(values: Seq<Seq<char>>) -> Result<Set<u16>, Seq<char>>
    decreases values.len(),
{
    if values.len() == 0 {
        Ok(Set::empty())
    } else {
        match all_ports(values.drop_last()) {
            Err(message) => Err(message),
            Ok(earlier) => match entry_ports(values.last()) {
                Err(message) => Err(message),
                Ok(ports) => if earlier.union(ports).len() > MAX_PORTS {
                    Err(too_many_ports())
                } else {
                    Ok(earlier.union(ports))
                },
            },
        }
    }
}

/// The ports that the port field asks for: none where it is blank.
pub open spec fn ports_of(input: Seq<char>) -> Result<Set<u16>, Seq<char>> {
    if crate::text::trimmed(input).len() == 0 {
        Ok(Set::empty())
    } else {
        all_ports(crate::text::split(input, ','))
    }
}

/// Whether the ports get larger from each to the next.
pub open spec fn ascending_ports(list: Seq<u16>) -> bool {
    forall|i: int, j: int| 0 <= i < j < list.len() ==> list[i] < list[j]
}

/// Whether a result lists the expected ports in ascending order, or gives the expected
/// message.
pub open spec fn lists_ports(
    result: Result<Vec<u16>, String>,
    expected: Result<Set<u16>, Seq<char>>,
) -> bool {
    match expected {
        Ok(ports) => {
            &&& result is Ok
            &&& ascending_ports(result->Ok_0@)
            &&& result->Ok_0@.to_set() == ports
        },
        Err(message) => result is Err && result->Err_0@ == message,
    }
}

/// Reads one port.
pub fn parse_port(text: &[char]) -> (result: Result<u16, String>)
    ensures
        match port_of(text@) {
            Ok(port) => result == Ok::<u16, String>(port),
            Err(message) => result is Err && result->Err_0@ == message,
        },
{
    let trimmed = trim(text);
    match parse_number(trimmed, 10, 65535) {
        Some(n) if n != 0 => Ok(n as u16),
        _ => {
            let shown = to_text(trimmed);
            Err(concat3("Invalid port '", shown.as_str(), "': use numbers 1–65535."))
        },
    }
}

/// Reads the two ends of an entry of the list.
pub fn parse_range(value: &[char]) -> (result: Result<(u16, u16), String>)
    ensures
        match range_ends(value@) {
            Ok(ends) => result == Ok::<(u16, u16), String>(ends),
            Err(message) => result is Err && result->Err_0@ == message,
        },
{
    let text = trim(value);
    let dash: usize = find(text, '-');
    if dash < text.len() {
        let front = slice_subrange(text, 0, dash);
        let back = slice_subrange(text, dash + 1, text.len());
        assert(front@ =~= text@.take(dash as int));
        assert(back@ =~= text@.skip(dash + 1));
        match parse_port(front) {
            Err(message) => Err(message),
            Ok(start) => match parse_port(back) {
                Err(message) => Err(message),
                Ok(end) => Ok((start, end)),
            },
        }
    } else {
        match parse_port(value) {
            Err(message) => Err(message),
            Ok(port) => Ok((port, port)),
        }
    }
}

/// Puts the ports from one to another into a set.
fn extend(ports: &mut BTreeSet<u16>, start: u16, end: u16)
    requires
        start <= end,
    ensures
        final(ports)@ == old(ports)@.union(ports_between(start, end)),
{
    broadcast use vstd::laws_cmp::group_laws_cmp;

    let ghost before = ports@;
    let mut port: u16 = start;
    ports.insert(port);
    assert(ports@ =~= before.union(ports_between(start, port)));
    while port < end
        invariant
            start <= port <= end,
            vstd::laws_cmp::obeys_cmp::<u16>(),
            ports@ == before.union(ports_between(start, port)),
        decreases end - port,
    {
        port += 1;
        ports.insert(port);
        assert(ports@ =~= before.union(ports_between(start, port)));
    }
}

/// The order that sets keep their ports in is the ascending one.
proof fn lemma_set_order(s: Seq<&u16>)
    requires
        vstd::std_specs::btree::increasing_seq(s),
    ensures
        ascending_ports(s.unref()),
{
    broadcast use vstd::laws_cmp::group_laws_cmp;
    broadcast use vstd::std_specs::btree::group_btree_axioms;

    assert(vstd::laws_cmp::obeys_cmp::<&u16>());
    assert forall|i: int, j: int| 0 <= i < j < s.len() implies s.unref()[i] < s.unref()[j] by {
        assert(vstd::std_specs::cmp::OrdSpec::cmp_spec(&s[i], &s[j]) is Less);
    }
}

/// The ports of a set, in ascending order.
fn in_list(ports: &BTreeSet<u16>) -> (result: Vec<u16>)
    ensures
        ascending_ports(result@),
        result@.to_set() == ports@,
{
    let mut result: Vec<u16> = Vec::new();
    let ghost all = vstd::std_specs::iter::IteratorSpec::remaining(&ports.iter()).unref();
    for port in it: ports.iter()
        invariant
            it.seq().unref() == all,
            result@ == all.take(it.index() as int),
    {
        result.push(*port);
        assert(all.take(it.index() + 1) =~= all.take(it.index() as int).push(*port));
    }
    proof {
        assert(all.take(all.len() as int) =~= all);
        lemma_set_order(vstd::std_specs::iter::IteratorSpec::remaining(&ports.iter()));
    }
    result
}

/// Reads the port field: ports and ranges of ports with commas between them.
pub fn parse_ports(input: &str) -> (result: Result<Vec<u16>, String>)
    ensures
        lists_ports(result, ports_of(input@)),
{
    let chars = to_chars(input);
    if trim(chars.as_slice()).len() == 0 {
        let none: Vec<u16> = Vec::new();
        assert(none@.to_set() =~= Set::empty());
        return Ok(none);
    }
    let values = split_at_each(chars.as_slice(), ',');
    let ghost texts = values@.map_values(|piece: &[char]| piece@);
    let mut ports: BTreeSet<u16> = BTreeSet::new();
    let mut i: usize = 0;
    while i < values.len()
        invariant
            0 <= i <= values.len(),
            texts == values@.map_values(|piece: &[char]| piece@),
            texts == crate::text::split(input@, ','),
            crate::text::trimmed(input@).len() > 0,
            all_ports(texts.take(i as int)) == Ok::<Set<u16>, Seq<char>>(ports@),
        decreases values.len() - i,
    {
        let value = values[i];
        proof {
            assert(texts.take(i + 1).drop_last() =~= texts.take(i as int));
            assert(texts.take(i + 1).last() == value@);
            if all_ports(texts.take(i + 1)) is Err {
                lemma_first_error(texts, i + 1);
            }
        }
        let (start, end) = match parse_range(value) {
            Ok(ends) => ends,
            Err(message) => {
                return Err(message);
            },
        };
        if start > end {
            let shown = to_text(value);
            return Err(concat2("Reversed port range: ", shown.as_str()));
        }
        if (end - start) as usize + 1 > MAX_PORTS {
            return Err("Specify at most 256 distinct ports.".to_string());
        }
        extend(&mut ports, start, end);
        if ports.len() > MAX_PORTS {
            return Err("Specify at most 256 distinct ports.".to_string());
        }
        i += 1;
    }
    assert(texts.take(i as int) =~= texts);
    Ok(in_list(&ports))
}

/// A list goes wrong where its front does, and in the same way.
proof fn lemma_first_error(values: Seq<Seq<char>>, n: int)
    requires
        0 <= n <= values.len(),
        all_ports(values.take(n)) is Err,
    ensures
        all_ports(values) == all_ports(values.take(n)),
    decreases values.len(),
{
    if n == values.len() {
        assert(values.take(n) =~= values);
    } else {
        assert(values.drop_last().take(n) =~= values.take(n));
        lemma_first_error(values.drop_last(), n);
    }
}

/// The ports that a list asks for are never more than a scan probes, and port 0 is not among
/// them.
pub proof fn law_accepted_ports_are_few_and_valid(input: Seq<char>)
    ensures
        ports_of(input) matches Ok(ports) ==> {
            &&& ports.finite()
            &&& ports.len() <= MAX_PORTS
            &&& !ports.contains(0)
        },
{
    if crate::text::trimmed(input).len() > 0 {
        lemma_all_ports(crate::text::split(input, ','));
    }
}

proof fn lemma_port_is_not_zero(text: Seq<char>)
    ensures
        port_of(text) matches Ok(port) ==> port != 0,
{
    let digits = crate::text::unsigned_digits(crate::text::trimmed(text));
    crate::text::lemma_digits_value_grows(digits, digits.len() as int, 10);
    assert(digits.take(digits.len() as int) =~= digits);
}

/// The ports between two ports are finitely many.
proof fn lemma_ports_between(start: u16, end: u16)
    ensures
        ports_between(start, end).finite(),
    decreases end,
{
    if start > end {
        assert(ports_between(start, end) =~= Set::empty());
    } else if end == 0 {
        assert(ports_between(start, end) =~= Set::empty().insert(0u16));
    } else {
        lemma_ports_between(start, (end - 1) as u16);
        assert(ports_between(start, end) =~= ports_between(start, (end - 1) as u16).insert(end));
    }
}

proof fn lemma_all_ports(values: Seq<Seq<char>>)
    ensures
        all_ports(values) matches Ok(ports) ==> {
            &&& ports.finite()
            &&& ports.len() <= MAX_PORTS
            &&& !ports.contains(0)
        },
    decreases values.len(),
{
    if values.len() > 0 {
        lemma_all_ports(values.drop_last());
        if let Ok((start, end)) = range_ends(values.last()) {
            lemma_ports_between(start, end);
            let text = crate::text::trimmed(values.last());
            lemma_port_is_not_zero(values.last());
            lemma_port_is_not_zero(text.take(crate::text::position(text, '-')));
        }
    }
}

/// A list that is accepted asks for exactly the ports of its entries, in whatever order and
/// however often they are written.
pub proof fn law_accepted_ports_are_those_of_the_entries(input: Seq<char>, port: u16)
    requires
        crate::text::trimmed(input).len() > 0,
    ensures
        ports_of(input) matches Ok(ports) ==> (ports.contains(port) <==> exists|i: int|
            0 <= i < crate::text::split(input, ',').len() && (entry_ports(
                #[trigger] crate::text::split(input, ',')[i],
            ) matches Ok(entry) && entry.contains(port))),
{
    lemma_union_of_entries(crate::text::split(input, ','), port);
}

proof fn lemma_union_of_entries(values: Seq<Seq<char>>, port: u16)
    ensures
        all_ports(values) matches Ok(ports) ==> (ports.contains(port) <==> exists|i: int|
            0 <= i < values.len() && (entry_ports(#[trigger] values[i]) matches Ok(entry)
                && entry.contains(port))),
    decreases values.len(),
{
    if values.len() > 0 {
        let shorter = values.drop_last();
        lemma_union_of_entries(shorter, port);
        assert forall|i: int| 0 <= i < shorter.len() implies #[trigger] shorter[i]
            == values[i] by {}
        if let Ok(ports) = all_ports(values) {
            let earlier = all_ports(shorter)->Ok_0;
            assert forall|i: int|
                0 <= i < values.len() && (entry_ports(#[trigger] values[i]) matches Ok(entry)
                    && entry.contains(port)) implies ports.contains(port) by {
                if i < shorter.len() {
                    assert(shorter[i] == values[i]);
                }
            }
            if earlier.contains(port) {
                let i = choose|i: int|
                    0 <= i < shorter.len() && (entry_ports(#[trigger] shorter[i]) matches Ok(
                        entry,
                    ) && entry.contains(port));
                assert(entry_ports(values[i]) matches Ok(entry) && entry.contains(port));
            } else if ports.contains(port) {
                assert(entry_ports(values[values.len() - 1]) matches Ok(entry) && entry.contains(
                    port,
                ));
            }
        }
    }
}

/// A decimal number with or without a space before it is an entry for that one port.
proof fn lemma_number_entry(port: u16, text: Seq<char>)
    requires
        port != 0,
        text == crate::text::decimal(port as nat) || text == seq![' '] + crate::text::decimal(
            port as nat,
        ),
    ensures
        entry_ports(text) == Ok::<Set<u16>, Seq<char>>(Set::empty().insert(port)),
        forall|i: int| 0 <= i < text.len() ==> #[trigger] text[i] != ',',
{
    let digits = crate::text::decimal(port as nat);
    crate::text::lemma_decimal_digits(port as nat);
    crate::text::lemma_already_trimmed(digits);
    if text != digits {
        crate::text::lemma_trimmed_start(text, 1);
        assert(text.skip(1) =~= digits);
        crate::text::lemma_trimmed_end(digits, digits.len() as int);
        assert(digits.take(digits.len() as int) =~= digits);
    }
    assert(crate::text::trimmed(text) == digits);
    crate::text::lemma_position_unique(digits, '-', digits.len() as int);
    crate::text::law_decimal_reads_back(port as nat);
    assert(crate::text::parsed_number(digits, 10, 65535) == Some(port as int));
    assert(ports_between(port, port) =~= Set::empty().insert(port));
}

/// The ports of a list are those of its front and the last.
proof fn lemma_set_of_front(ports: Seq<u16>)
    requires
        ports.len() > 0,
    ensures
        ports.drop_last().to_set().union(Set::empty().insert(ports.last())) == ports.to_set(),
        ports.drop_last().to_set().len() <= ports.to_set().len(),
{
    let front = ports.drop_last();
    assert forall|port: u16| ports.to_set().contains(port) == (front.to_set().contains(port)
        || port == ports.last()) by {
        if ports.contains(port) {
            let i = choose|i: int| 0 <= i < ports.len() && ports[i] == port;
            if i < front.len() {
                assert(front[i] == port);
            }
        }
        if front.contains(port) {
            let i = choose|i: int| 0 <= i < front.len() && front[i] == port;
            assert(ports[i] == port);
        }
        assert(ports[ports.len() - 1] == ports.last());
    }
    assert(front.to_set().union(Set::empty().insert(ports.last())) =~= ports.to_set());
    vstd::seq_lib::seq_to_set_is_finite(ports);
    vstd::set_lib::lemma_len_subset(front.to_set(), ports.to_set());
}

/// What the entries of a list of written-out ports stand for.
proof fn lemma_written_entries(ports: Seq<u16>)
    requires
        ports.len() > 0,
        ports.to_set().len() <= MAX_PORTS,
        forall|i: int| 0 <= i < ports.len() ==> #[trigger] ports[i] != 0,
    ensures
        all_ports(crate::text::split(crate::device::ports_text(ports), ',')) == Ok::<
            Set<u16>,
            Seq<char>,
        >(ports.to_set()),
    decreases ports.len(),
{
    let number = |port: u16| crate::text::decimal(port as nat);
    let parts = ports.map_values(number);
    let text = crate::device::ports_text(ports);
    let last = ports.last();
    let digits = crate::text::decimal(last as nat);
    assert(ports[ports.len() - 1] == last);
    if ports.len() == 1 {
        assert(text == digits);
        lemma_number_entry(last, digits);
        crate::text::lemma_unsplit(digits, ',');
        let values = crate::text::split(text, ',');
        assert(values.drop_last() =~= Seq::empty());
        assert(all_ports(values.drop_last()) == Ok::<Set<u16>, Seq<char>>(Set::empty()));
        assert(Set::empty().union(Set::empty().insert(last)) =~= ports.to_set());
    } else {
        let shorter = ports.drop_last();
        let front = crate::device::ports_text(shorter);
        assert forall|i: int| 0 <= i < shorter.len() implies #[trigger] shorter[i] != 0 by {
            assert(shorter[i] == ports[i]);
        }
        lemma_set_of_front(ports);
        lemma_written_entries(shorter);
        assert(parts.drop_last() =~= shorter.map_values(number));
        assert(parts.last() == digits);
        reveal_strlit(", ");
        let back = seq![' '] + digits;
        assert(text =~= front + seq![','] + back);
        lemma_number_entry(last, back);
        crate::text::lemma_unsplit(back, ',');
        crate::text::lemma_split_concat(front, back, ',');
        let values = crate::text::split(text, ',');
        assert(values.drop_last() =~= crate::text::split(front, ','));
        assert(values.last() == back);
    }
}

/// A list of ports that is written out, as the ports of a device are, is accepted and asks
/// for the ports that it was written from, unless they are more different ones than a scan
/// probes.
pub proof fn law_written_ports_read_back(ports: Seq<u16>)
    requires
        ports.to_set().len() <= MAX_PORTS,
        forall|i: int| 0 <= i < ports.len() ==> #[trigger] ports[i] != 0,
    ensures
        ports_of(crate::device::ports_text(ports)) == Ok::<Set<u16>, Seq<char>>(ports.to_set()),
{
    let number = |port: u16| crate::text::decimal(port as nat);
    let parts = ports.map_values(number);
    let text = crate::device::ports_text(ports);
    if ports.len() == 0 {
        assert(text =~= Seq::empty());
        assert(ports.to_set() =~= Set::empty());
    } else {
        lemma_written_entries(ports);
        assert forall|i: int| 0 <= i < parts.len() implies (#[trigger] parts[i]).len() > 0
            && !crate::text::is_white_space(parts[i][0]) && !crate::text::is_white_space(
            parts[i].last(),
        ) by {
            crate::text::lemma_decimal_digits(ports[i] as nat);
        }
        crate::text::lemma_joined_ends(parts, ", "@);
        crate::text::lemma_already_trimmed(text);
    }
}

/// The ports between two ports are as many as the difference says.
proof fn lemma_ports_between_len(start: u16, end: u16)
    requires
        start <= end,
    ensures
        ports_between(start, end).finite(),
        ports_between(start, end).len() == end - start + 1,
    decreases end - start,
{
    if start == end {
        assert(ports_between(start, end) =~= Set::empty().insert(start));
    } else {
        let shorter = ports_between(start, (end - 1) as u16);
        lemma_ports_between_len(start, (end - 1) as u16);
        assert(ports_between(start, end) =~= shorter.insert(end));
    }
}

/// A field with one entry asks for what the entry stands for.
proof fn lemma_single_entry(value: Seq<char>)
    requires
        crate::text::trimmed(value).len() > 0,
        forall|i: int| 0 <= i < value.len() ==> #[trigger] value[i] != ',',
    ensures
        ports_of(value) == entry_ports(value),
{
    crate::text::lemma_unsplit(value, ',');
    let values = crate::text::split(value, ',');
    assert(values =~= seq![value]);
    assert(values.drop_last() =~= Seq::empty());
    assert(all_ports(values.drop_last()) == Ok::<Set<u16>, Seq<char>>(Set::empty()));
    if let Ok((start, end)) = range_ends(value) {
        if start <= end {
            lemma_ports_between_len(start, end);
        }
        assert(Set::empty().union(ports_between(start, end)) =~= ports_between(start, end));
    }
}

/// A field with two numbers and a dash between them asks for every port from the one to the
/// other and for no other port, blanks around the numbers aside. It is refused where a number
/// is no port, where the range ends before it starts, and where it holds more than 256 ports.
pub proof fn law_range_asks_for_every_port_between(front: Seq<char>, back: Seq<char>)
    requires
        forall|i: int| 0 <= i < front.len() ==> #[trigger] front[i] != ',' && front[i] != '-',
        forall|i: int| 0 <= i < back.len() ==> #[trigger] back[i] != ',',
    ensures
        ({
            let asked = ports_of(front + seq!['-'] + back);
            let first = crate::text::parsed_number(crate::text::trimmed(front), 10, 65535);
            let last = crate::text::parsed_number(crate::text::trimmed(back), 10, 65535);
            &&& first is None || first == Some(0int) ==> asked == Err::<Set<u16>, Seq<char>>(
                "Invalid port '"@ + crate::text::trimmed(front) + "': use numbers 1–65535."@,
            )
            &&& first matches Some(a) ==> a > 0 ==> {
                &&& last is None || last == Some(0int) ==> asked == Err::<Set<u16>, Seq<char>>(
                    "Invalid port '"@ + crate::text::trimmed(back) + "': use numbers 1–65535."@,
                )
                &&& last matches Some(b) ==> b > 0 ==> {
                    &&& a > b ==> asked == Err::<Set<u16>, Seq<char>>(
                        "Reversed port range: "@ + (front + seq!['-'] + back),
                    )
                    &&& b - a >= 256 ==> asked == Err::<Set<u16>, Seq<char>>(
                        "Specify at most 256 distinct ports."@,
                    )
                    &&& 0 <= b - a < 256 ==> asked is Ok && forall|port: u16| #[trigger]
                        asked->Ok_0.contains(port) <==> a <= port <= b
                }
            }
        }),
{
    let value = front + seq!['-'] + back;
    crate::text::lemma_trimmed_around(front, '-', back);
    let text = crate::text::trimmed(value);
    let start = crate::text::trimmed_start(front);
    let end = crate::text::trimmed_end(back);
    assert forall|i: int| 0 <= i < start.len() implies #[trigger] start[i] != '-' by {
        crate::text::lemma_start_is_end_part(front);
        assert(start[i] == front[front.len() - start.len() + i]);
    }
    assert forall|i: int| 0 <= i < start.len() implies #[trigger] text[i] != '-' by {
        assert(text[i] == start[i]);
    }
    crate::text::lemma_position_unique(text, '-', start.len() as int);
    assert(text.take(start.len() as int) =~= start);
    assert(text.skip((start.len() + 1) as int) =~= end);
    assert forall|i: int| 0 <= i < value.len() implies #[trigger] value[i] != ',' by {
        if i < front.len() {
            assert(value[i] == front[i]);
        } else if i > front.len() {
            assert(value[i] == back[i - front.len() - 1]);
        }
    }
    lemma_single_entry(value);
    lemma_parsed_port(crate::text::trimmed(front));
    lemma_parsed_port(crate::text::trimmed(back));
}

proof fn lemma_parsed_port(digits: Seq<char>)
    ensures
        crate::text::parsed_number(digits, 10, 65535) matches Some(n) ==> 0 <= n <= 65535,
{
    let plain = crate::text::unsigned_digits(digits);
    crate::text::lemma_digits_value_grows(plain, plain.len() as int, 10);
    assert(plain.take(plain.len() as int) =~= plain);
}

/// A field that holds two ports in decimal with a dash between them is accepted where the second
/// is not smaller and at most 255 larger, and asks for exactly the ports from the one to the
/// other, both of them with it.
pub proof fn law_written_range_reads_back(a: u16, b: u16)
    requires
        0 < a <= b,
        b - a < 256,
    ensures
        ({
            let text = crate::text::decimal(a as nat) + seq!['-'] + crate::text::decimal(b as nat);
            ports_of(text) is Ok && forall|port: u16| #[trigger]
                ports_of(text)->Ok_0.contains(port) <==> a <= port <= b
        }),
{
    let front = crate::text::decimal(a as nat);
    let back = crate::text::decimal(b as nat);
    crate::text::lemma_decimal_digits(a as nat);
    crate::text::lemma_decimal_digits(b as nat);
    crate::text::lemma_already_trimmed(front);
    crate::text::lemma_already_trimmed(back);
    crate::text::law_decimal_reads_back(a as nat);
    crate::text::law_decimal_reads_back(b as nat);
    assert(crate::text::parsed_number(front, 10, 65535) == Some(a as int));
    assert(crate::text::parsed_number(back, 10, 65535) == Some(b as int));
    law_range_asks_for_every_port_between(front, back);
}

/// A field with one number asks for that port and no other, blanks around it aside, and is
/// refused where the number is no port.
pub proof fn law_number_asks_for_its_port(value: Seq<char>)
    requires
        crate::text::trimmed(value).len() > 0,
        forall|i: int| 0 <= i < value.len() ==> #[trigger] value[i] != ',' && value[i] != '-',
    ensures
        match crate::text::parsed_number(crate::text::trimmed(value), 10, 65535) {
            Some(n) => if n > 0 {
                ports_of(value) is Ok && forall|port: u16| #[trigger]
                    ports_of(value)->Ok_0.contains(port) <==> port == n
            } else {
                ports_of(value) == Err::<Set<u16>, Seq<char>>(
                    "Invalid port '"@ + crate::text::trimmed(value) + "': use numbers 1–65535."@,
                )
            },
            None => ports_of(value) == Err::<Set<u16>, Seq<char>>(
                "Invalid port '"@ + crate::text::trimmed(value) + "': use numbers 1–65535."@,
            ),
        },
{
    let (front, back) = crate::text::lemma_trimmed_parts(value);
    let text = crate::text::trimmed(value);
    assert forall|i: int| 0 <= i < text.len() implies #[trigger] text[i] != '-' by {
        assert(text[i] == value[front.len() + i]);
    }
    crate::text::lemma_position_unique(text, '-', text.len() as int);
    lemma_single_entry(value);
    lemma_parsed_port(text);
}

/// One more entry behind a comma adds the ports that it would ask for alone. The first mistake
/// is the one that is told, and more than 256 different ports are refused.
pub proof fn law_comma_adds_the_ports_of_an_entry(earlier: Seq<char>, value: Seq<char>)
    requires
        crate::text::trimmed(earlier).len() > 0,
        crate::text::trimmed(value).len() > 0,
        forall|i: int| 0 <= i < value.len() ==> #[trigger] value[i] != ',',
    ensures
        ports_of(earlier + seq![','] + value) == match ports_of(earlier) {
            Err(message) => Err(message),
            Ok(some) => match ports_of(value) {
                Err(message) => Err(message),
                Ok(more) => if some.union(more).len() > 256 {
                    Err("Specify at most 256 distinct ports."@)
                } else {
                    Ok(some.union(more))
                },
            },
        },
{
    let text = earlier + seq![','] + value;
    assert(text[earlier.len() as int] == ',');
    crate::text::lemma_not_blank(text, earlier.len() as int);
    crate::text::lemma_unsplit(value, ',');
    crate::text::lemma_split_concat(earlier, value, ',');
    let values = crate::text::split(text, ',');
    assert(values.drop_last() =~= crate::text::split(earlier, ','));
    assert(values.last() == value);
    lemma_single_entry(value);
}

/// A blank field asks for no port, and a blank entry between commas is no port.
pub proof fn law_blank_fields_and_entries(blank: Seq<char>, earlier: Seq<char>)
    requires
        crate::text::trimmed(blank).len() == 0,
    ensures
        ports_of(blank) == Ok::<Set<u16>, Seq<char>>(Set::empty()),
        (forall|i: int| 0 <= i < blank.len() ==> #[trigger] blank[i] != ',') ==> ports_of(
            earlier + seq![','] + blank,
        ) is Err,
{
    if forall|i: int| 0 <= i < blank.len() ==> #[trigger] blank[i] != ',' {
        let text = earlier + seq![','] + blank;
        assert(text[earlier.len() as int] == ',');
        crate::text::lemma_not_blank(text, earlier.len() as int);
        crate::text::lemma_unsplit(blank, ',');
        crate::text::lemma_split_concat(earlier, blank, ',');
        let values = crate::text::split(text, ',');
        assert(values.last() == blank);
        let none = crate::text::trimmed(blank);
        assert(none =~= Seq::empty());
        assert(crate::text::position(none, '-') == 0);
        assert(crate::text::unsigned_digits(none).len() == 0);
        assert(crate::text::parsed_number(none, 10, 65535) is None);
        assert(entry_ports(blank) is Err);
    }
}

/// A list of ports that is right for a set of ports goes up from each port to the next and holds
/// every port of the set and no other; a refusal that is right has the very message.
pub proof fn law_right_lists(
    result: Result<Vec<u16>, String>,
    expected: Result<Set<u16>, Seq<char>>,
    port: u16,
)
    requires
        lists_ports(result, expected),
    ensures
        result is Ok <==> expected is Ok,
        result matches Ok(list) ==> {
            &&& list@.contains(port) <==> expected->Ok_0.contains(port)
            &&& forall|i: int, j: int| 0 <= i < j < list@.len() ==> list@[i] < list@[j]
        },
        result matches Err(message) ==> message@ == expected->Err_0,
{
    if let Ok(list) = result {
        assert(list@.to_set().contains(port) <==> list@.contains(port));
    }
}

/// One port is read from a number from 1 to 65535, blanks around it aside, and from nothing else.
pub proof fn law_port_is_a_number(text: Seq<char>)
    ensures
        match crate::text::parsed_number(crate::text::trimmed(text), 10, 65535) {
            Some(n) => n > 0 ==> port_of(text) is Ok && port_of(text)->Ok_0 == n,
            None => port_of(text) is Err,
        },
        crate::text::parsed_number(crate::text::trimmed(text), 10, 65535) == Some(0int) ==> port_of(
            text,
        ) is Err,
        port_of(text) matches Err(message) ==> message == "Invalid port '"@
            + crate::text::trimmed(text) + "': use numbers 1–65535."@,
{
    lemma_parsed_port(crate::text::trimmed(text));
}

} // verus!
