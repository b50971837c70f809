//! The devices as a file of comma-separated values.

use std::collections::BTreeMap;

use vstd::prelude::*;
use vstd::string::StringExecFns;

use crate::address::ipv4_to_text;
use crate::device::{Device, DeviceView};
use crate::ordered::ascending_keys;
use crate::text::{concat2, concat3, decimal_text, to_chars, to_text, trim};

verus! {

/// Whether a field is put in quotes: it holds a comma, a quote or an end of line.
pub open spec fn needs_quotes(field: Seq<char>) -> bool {
    exists|i: int|
        0 <= i < field.len() && (#[trigger] field[i] == ',' || field[i] == '"' || field[i] == '\r'
            || field[i] == '\n')
}

/// The text with every quote written twice.
pub open spec fn doubled(field: Seq<char>) -> Seq<char>
    decreases field.len(),
{
    if field.len() == 0 {
        Seq::empty()
    } else if field.last() == '"' {
        doubled(field.drop_last()).push('"').push('"')
    } else {
        doubled(field.drop_last()).push(field.last())
    }
}

/// A field as it is written.
pub open spec fn csv_field(field: Seq<char>) -> Seq<char> {
    if needs_quotes(field) {
        seq!['"'] + doubled(field) + seq!['"']
    } else {
        field
    }
}

/// A line of fields as it is written.
pub open spec fn csv_record(fields: Seq<Seq<char>>) -> Seq<char> {
    crate::text::joined(fields.map_values(|field: Seq<char>| csv_field(field)), seq![',']).push(
        '\n',
    )
}

/// The contents of a list of strings.
pub open spec fn texts(list: Seq<String>) -> Seq<Seq<char>> {
    list.map_values(|text: String| text@)
}

/// Calls `csv::Writer::write_record` on a new writer. It writes the fields with commas between
/// them and a line feed behind them. A field that holds a comma, a quote, a carriage return or
/// a line feed is put in quotes, and the quotes in it are doubled. A lone empty field would be
/// quoted too, so there must be two fields or more.
#[verifier::external_body]
fn write_record(fields: &Vec<String>) -> (result: String)
    requires
        fields@.len() >= 2,
    ensures
        result@ == csv_record(texts(fields@)),
{
    let mut writer = csv::Writer::from_writer(Vec::new());
    writer.write_record(fields).unwrap();
    String::from_utf8(writer.into_inner().ok().unwrap()).unwrap()
}

/// The names of the columns.
pub open spec fn column_names() -> Seq<Seq<char>> {
    seq!["status"@, "ip_address"@, "mac_address"@, "vendor"@, "open_ports"@]
}

/// The fields of a device, in the order of the columns.
pub open spec fn device_fields(device: DeviceView) -> Seq<Seq<char>> {
    seq![
        device.status,
        crate::address::ipv4_text(device.ip_address),
        device.mac_address,
        device.vendor,
        device.open_ports,
    ]
}

/// The lines of devices.
pub open spec fn csv_lines(devices: Seq<DeviceView>) -> Seq<char>
    decreases devices.len(),
{
    if devices.len() == 0 {
        Seq::empty()
    } else {
        csv_lines(devices.drop_last()) + csv_record(device_fields(devices.last()))
    }
}

/// The file: the names of the columns and a line for each device, or nothing at all where
/// there is no device.
pub open spec fn csv_file(devices: Seq<DeviceView>) -> Seq<char> {
    if devices.len() == 0 {
        Seq::empty()
    } else {
        csv_record(column_names()) + csv_lines(devices)
    }
}

/// The line of the column names.
pub fn header_line() -> (result: String)
    ensures
        result@ == csv_record(column_names()),
{
    let mut fields: Vec<String> = Vec::new();
    fields.push("status".to_string());
    fields.push("ip_address".to_string());
    fields.push("mac_address".to_string());
    fields.push("vendor".to_string());
    fields.push("open_ports".to_string());
    assert(texts(fields@) =~= column_names());
    write_record(&fields)
}

/// The line of a device.
pub fn device_line(device: &Device) -> (result: String)
    ensures
        result@ == csv_record(device_fields(device@)),
{
    let mut fields: Vec<String> = Vec::new();
    fields.push(device.status.clone());
    fields.push(ipv4_to_text(device.ip_address));
    fields.push(device.mac_address.clone());
    fields.push(device.vendor.clone());
    fields.push(device.open_ports.clone());
    assert(texts(fields@) =~= device_fields(device@));
    write_record(&fields)
}

/// The file of all devices, in the order of their addresses.
pub fn export_text(devices: &BTreeMap<u32, Device>) -> (result: String)
    ensures
        result@ == csv_file(crate::table::listed(crate::table::device_views(devices@))),
{
    let keys = ascending_keys(devices);
    let ghost all = crate::table::listed(crate::table::device_views(devices@));
    proof {
        assert(crate::table::device_views(devices@).dom() =~= devices@.dom());
        assert(all.len() == keys@.len());
    }
    let mut result = String::new();
    if keys.len() == 0 {
        assert(result@ =~= Seq::empty());
        return result;
    }
    let header = header_line();
    result.append(header.as_str());
    let mut i: usize = 0;
    proof {
        assert(result@ =~= csv_record(column_names()) + csv_lines(all.take(0)));
    }
    while i < keys.len()
        invariant
            0 <= i <= keys.len(),
            keys@.to_set() == devices@.dom(),
            all == keys@.map_values(|ip: u32| crate::table::device_views(devices@)[ip]),
            result@ == csv_record(column_names()) + csv_lines(all.take(i as int)),
        decreases keys.len() - i,
    {
        let key: u32 = keys[i];
        proof {
            assert(keys@.to_set().contains(key));
            assert(devices@.contains_key(key));
            assert(all.take(i + 1).drop_last() =~= all.take(i as int));
            assert(all.take(i + 1).last() == devices@[key]@);
        }
        if let Some(device) = devices.get(&key) {
            let line = device_line(device);
            result.append(line.as_str());
            assert(result@ =~= csv_record(column_names()) + (csv_lines(all.take(i as int))
                + line@));
        }
        i += 1;
    }
    assert(all.take(i as int) =~= all);
    result
}

/// What is said after the file was written.
pub open spec fn notice_text(count: nat, path: Seq<char>) -> Seq<char> {
    "Exported "@ + crate::text::decimal(count) + " devices to "@ + path
}

/// The path of the file: what was typed, without blank ends.
pub fn export_path(path: &str) -> (result: String)
    ensures
        result@ == crate::text::trimmed(path@),
{
    let chars = to_chars(path);
    to_text(trim(chars.as_slice()))
}

/// What is said where the file cannot be created.
pub fn create_error(text: &str) -> (result: String)
    ensures
        result@ == "Cannot create CSV: "@ + text@
            + ". Choose a new filename if it already exists."@,
{
    concat3("Cannot create CSV: ", text, ". Choose a new filename if it already exists.")
}

/// What is said after the file was written.
pub fn export_notice(count: usize, path: &str) -> (result: String)
    ensures
        result@ == "Exported "@ + crate::text::decimal(count as nat) + " devices to "@ + path@,
        result@ == notice_text(count as nat, path@),
{
    let number = decimal_text(count as u64);
    let front = concat3("Exported ", number.as_str(), " devices to ");
    concat2(front.as_str(), path)
}

// ---------------------------------------------------------------------------------------
// Reading.

/// Where a reader stands in a field.
pub enum Reading {
    /// Before its first character.
    Start,
    /// In a field without quotes.
    Plain,
    /// Between quotes.
    Quoted,
    /// Behind a quote that closes the field, unless another follows it.
    Closing,
}

/// The lines of fields that a reader of comma-separated values finds in a text, from a place
/// in a line of which it has read the fields `line`, and of the next field the front `field`.
/// A field may stand in quotes, between which a quote is written twice and all else stands for
/// itself.
pub open spec fn csv_reads(
    text: Seq<char>,
    reading: Reading,
    field: Seq<char>,
    line: Seq<Seq<char>>,
) -> Seq<Seq<Seq<char>>>
    decreases text.len(),
{
    if text.len() == 0 {
        if reading is Start && line.len() == 0 {
            Seq::empty()
        } else {
            seq![line.push(field)]
        }
    } else {
        let c = text[0];
        let rest = text.drop_first();
        match reading {
            Reading::Quoted => if c == '"' {
                csv_reads(rest, Reading::Closing, field, line)
            } else {
                csv_reads(rest, Reading::Quoted, field.push(c), line)
            },
            _ => if c == ',' {
                csv_reads(rest, Reading::Start, Seq::empty(), line.push(field))
            } else if c == '\n' {
                seq![line.push(field)] + csv_reads(rest, Reading::Start, Seq::empty(), Seq::empty())
            } else if c == '"' && reading is Start {
                csv_reads(rest, Reading::Quoted, field, line)
            } else if c == '"' && reading is Closing {
                csv_reads(rest, Reading::Quoted, field.push('"'), line)
            } else {
                csv_reads(rest, Reading::Plain, field.push(c), line)
            },
        }
    }
}

/// The lines of fields that a reader finds in a text.
pub open spec fn csv_read(text: Seq<char>) -> Seq<Seq<Seq<char>>> {
    csv_reads(text, Reading::Start, Seq::empty(), Seq::empty())
}

/// Whether a text goes on after a field as a line does.
pub open spec fn field_ends(rest: Seq<char>) -> bool {
    rest.len() > 0 && (rest[0] == ',' || rest[0] == '\n')
}

/// A reader between quotes reads what was doubled.
proof fn lemma_reads_doubled(
    field: Seq<char>,
    rest: Seq<char>,
    read: Seq<char>,
    line: Seq<Seq<char>>,
)
    ensures
        csv_reads(doubled(field) + rest, Reading::Quoted, read, line) == csv_reads(
            rest,
            Reading::Quoted,
            read + field,
            line,
        ),
    decreases field.len(),
{
    if field.len() == 0 {
        assert(doubled(field) + rest =~= rest);
        assert(read + field =~= read);
    } else {
        let shorter = field.drop_last();
        let c = field.last();
        let written = if c == '"' {
            seq!['"', '"']
        } else {
            seq![c]
        };
        assert(doubled(field) + rest =~= doubled(shorter) + (written + rest));
        lemma_reads_doubled(shorter, written + rest, read, line);
        let so_far = read + shorter;
        assert(read + field =~= so_far.push(c));
        if c == '"' {
            let second = seq!['"'] + rest;
            assert((written + rest).drop_first() =~= second);
            assert(second.drop_first() =~= rest);
            assert(csv_reads(written + rest, Reading::Quoted, so_far, line) == csv_reads(
                second,
                Reading::Closing,
                so_far,
                line,
            ));
        } else {
            assert((written + rest).drop_first() =~= rest);
        }
    }
}

/// The rest of a field without special characters has none either.
proof fn lemma_tail_needs_no_quotes(field: Seq<char>)
    requires
        field.len() > 0,
        !needs_quotes(field),
    ensures
        !needs_quotes(field.drop_first()),
{
    let tail = field.drop_first();
    if needs_quotes(tail) {
        let i = choose|i: int|
            0 <= i < tail.len() && (#[trigger] tail[i] == ',' || tail[i] == '"' || tail[i] == '\r'
                || tail[i] == '\n');
        assert(field[i + 1] == tail[i]);
    }
}

/// A reader in a plain field reads what holds no special character.
proof fn lemma_reads_plain(
    field: Seq<char>,
    rest: Seq<char>,
    read: Seq<char>,
    line: Seq<Seq<char>>,
)
    requires
        !needs_quotes(field),
    ensures
        csv_reads(field + rest, Reading::Plain, read, line) == csv_reads(
            rest,
            Reading::Plain,
            read + field,
            line,
        ),
    decreases field.len(),
{
    if field.len() == 0 {
        assert(field + rest =~= rest);
        assert(read + field =~= read);
    } else {
        let c = field[0];
        let tail = field.drop_first();
        lemma_tail_needs_no_quotes(field);
        assert((field + rest).drop_first() =~= tail + rest);
        lemma_reads_plain(tail, rest, read.push(c), line);
        assert(read.push(c) + tail =~= read + field);
        assert(field[0] == c);
    }
}

/// What a reader finds in a text that goes on after a field.
pub open spec fn after_field(
    rest: Seq<char>,
    field: Seq<char>,
    line: Seq<Seq<char>>,
) -> Seq<Seq<Seq<char>>> {
    if rest[0] == ',' {
        csv_reads(rest.drop_first(), Reading::Start, Seq::empty(), line.push(field))
    } else {
        seq![line.push(field)] + csv_read(rest.drop_first())
    }
}

/// A reader reads a field as it was before it was written.
pub proof fn law_field_reads_back(field: Seq<char>, rest: Seq<char>, line: Seq<Seq<char>>)
    requires
        field_ends(rest),
    ensures
        csv_reads(csv_field(field) + rest, Reading::Start, Seq::empty(), line) == after_field(
            rest,
            field,
            line,
        ),
{
    let none = Seq::<char>::empty();
    let text = csv_field(field) + rest;
    assert(none + field =~= field);
    if needs_quotes(field) {
        let inner = doubled(field) + (seq!['"'] + rest);
        assert(text.drop_first() =~= inner);
        assert(text[0] == '"');
        lemma_reads_doubled(field, seq!['"'] + rest, none, line);
        assert((seq!['"'] + rest).drop_first() =~= rest);
        assert(csv_reads(seq!['"'] + rest, Reading::Quoted, field, line) == csv_reads(
            rest,
            Reading::Closing,
            field,
            line,
        ));
    } else if field.len() == 0 {
        assert(text =~= rest);
        assert(field =~= none);
    } else {
        let c = field[0];
        let tail = field.drop_first();
        lemma_tail_needs_no_quotes(field);
        assert(text.drop_first() =~= tail + rest);
        assert(field[0] == c);
        lemma_reads_plain(tail, rest, none.push(c), line);
        assert(none.push(c) + tail =~= field);
    }
}

/// A join begins with its first part.
proof fn lemma_joined_front(parts: Seq<Seq<char>>, separator: Seq<char>)
    requires
        parts.len() >= 2,
    ensures
        crate::text::joined(parts, separator) == parts[0] + separator + crate::text::joined(
            parts.drop_first(),
            separator,
        ),
    decreases parts.len(),
{
    let back = parts.drop_first();
    if parts.len() == 2 {
        assert(parts.drop_last() =~= seq![parts[0]]);
        assert(back =~= seq![parts[1]]);
        assert(crate::text::joined(parts.drop_last(), separator) == parts[0]);
    } else {
        let shorter = parts.drop_last();
        lemma_joined_front(shorter, separator);
        assert(shorter.drop_first() =~= back.drop_last());
        let middle = crate::text::joined(back.drop_last(), separator);
        assert((parts[0] + separator + middle) + separator + parts.last() =~= parts[0] + separator
            + (middle + separator + parts.last()));
    }
}

/// A reader finds in a line exactly the fields that it was written from, whatever they hold,
/// and goes on with what follows the line.
pub proof fn law_record_reads_back(
    fields: Seq<Seq<char>>,
    following: Seq<char>,
    line: Seq<Seq<char>>,
)
    requires
        fields.len() > 0,
    ensures
        csv_reads(csv_record(fields) + following, Reading::Start, Seq::empty(), line) == seq![
            line + fields,
        ] + csv_read(following),
    decreases fields.len(),
{
    let write = |field: Seq<char>| csv_field(field);
    let parts = fields.map_values(write);
    let first = fields[0];
    let text = csv_record(fields) + following;
    if fields.len() == 1 {
        let rest = seq!['\n'] + following;
        assert(text =~= csv_field(first) + rest);
        law_field_reads_back(first, rest, line);
        assert(rest.drop_first() =~= following);
        assert(line.push(first) =~= line + fields);
    } else {
        let others = fields.drop_first();
        lemma_joined_front(parts, seq![',']);
        assert(parts.drop_first() =~= others.map_values(write));
        let next = csv_record(others) + following;
        let rest = seq![','] + next;
        assert(text =~= csv_field(first) + rest);
        law_field_reads_back(first, rest, line);
        assert(rest.drop_first() =~= next);
        law_record_reads_back(others, following, line.push(first));
        assert(line.push(first) + others =~= line + fields);
    }
}

/// The fields of devices.
pub open spec fn all_fields(devices: Seq<DeviceView>) -> Seq<Seq<Seq<char>>> {
    devices.map_values(|device: DeviceView| device_fields(device))
}

proof fn lemma_lines_read_back(devices: Seq<DeviceView>, following: Seq<char>)
    ensures
        csv_read(csv_lines(devices) + following) == all_fields(devices) + csv_read(following),
    decreases devices.len(),
{
    if devices.len() == 0 {
        assert(csv_lines(devices) + following =~= following);
        assert(all_fields(devices) + csv_read(following) =~= csv_read(following));
    } else {
        let shorter = devices.drop_last();
        let fields = device_fields(devices.last());
        let line = csv_record(fields);
        let none = Seq::<Seq<char>>::empty();
        assert(csv_lines(devices) + following =~= csv_lines(shorter) + (line + following));
        lemma_lines_read_back(shorter, line + following);
        law_record_reads_back(fields, following, none);
        assert(none + fields =~= fields);
        assert(all_fields(devices) =~= all_fields(shorter).push(fields));
        assert(all_fields(devices) + csv_read(following) =~= all_fields(shorter) + (seq![fields]
            + csv_read(following)));
    }
}

/// A reader of the file finds the names of the columns, and then the fields of every device,
/// in order and as they were, whatever they hold. A file of no devices is empty.
pub proof fn law_file_reads_back(devices: Seq<DeviceView>)
    ensures
        csv_read(csv_file(devices)) == if devices.len() == 0 {
            Seq::empty()
        } else {
            seq![column_names()] + all_fields(devices)
        },
{
    if devices.len() > 0 {
        let none = Seq::<Seq<char>>::empty();
        law_record_reads_back(column_names(), csv_lines(devices), none);
        assert(none + column_names() =~= column_names());
        lemma_lines_read_back(devices, Seq::empty());
        assert(csv_lines(devices) + Seq::<char>::empty() =~= csv_lines(devices));
        assert(all_fields(devices) + csv_read(Seq::empty()) =~= all_fields(devices));
    }
}

/// Every device is in the file, whether or not it is shown at the moment.
pub proof fn law_file_holds_every_device(devices: Map<u32, DeviceView>, ip: u32)
    requires
        devices.dom().finite(),
        devices.contains_key(ip),
    ensures
        csv_read(csv_file(crate::table::listed(devices))).contains(device_fields(devices[ip])),
{
    let all = crate::table::listed(devices);
    let keys = crate::ordered::in_order(devices.dom());
    crate::ordered::lemma_in_order_exists(devices.dom());
    assert(keys.to_set().contains(ip));
    let i = choose|i: int| 0 <= i < keys.len() && keys[i] == ip;
    assert(all[i] == devices[ip]);
    law_file_reads_back(all);
    let lines = csv_read(csv_file(all));
    assert(lines == seq![column_names()] + all_fields(all));
    assert(lines[i + 1] == device_fields(devices[ip]));
}

/// The file holds a line of names and then, one line for each device and in their order, the
/// fields of the devices; without devices it is empty.
pub proof fn law_file_gains_a_line(devices: Seq<DeviceView>, device: DeviceView)
    ensures
        csv_file(Seq::empty()).len() == 0,
        csv_file(devices.push(device)) == (if devices.len() == 0 {
            csv_record(
                seq!["status"@, "ip_address"@, "mac_address"@, "vendor"@, "open_ports"@],
            )
        } else {
            csv_file(devices)
        }) + csv_record(
            seq![
                device.status,
                crate::address::ipv4_text(device.ip_address),
                device.mac_address,
                device.vendor,
                device.open_ports,
            ],
        ),
{
    assert(devices.push(device).drop_last() =~= devices);
    assert(devices.push(device).last() == device);
    if devices.len() == 0 {
        assert(csv_lines(devices) =~= Seq::empty());
        assert(csv_file(devices.push(device)) =~= csv_record(column_names()) + csv_record(
            device_fields(device),
        ));
    } else {
        assert(csv_file(devices.push(device)) =~= csv_file(devices) + csv_record(
            device_fields(device),
        ));
    }
}

/// A field without a comma, a quote or an end of line is written as it is; any other begins and
/// ends with a quote.
pub proof fn law_plain_field_is_written_as_it_is(field: Seq<char>)
    ensures
        (forall|i: int|
            0 <= i < field.len() ==> #[trigger] field[i] != ',' && field[i] != '"' && field[i]
                != '\r' && field[i] != '\n') ==> csv_field(field) == field,
        (exists|i: int|
            0 <= i < field.len() && (#[trigger] field[i] == ',' || field[i] == '"' || field[i]
                == '\r' || field[i] == '\n')) ==> csv_field(field).len() >= field.len() + 2
            && csv_field(field)[0] == '"' && csv_field(field).last() == '"',
{
    lemma_doubled_is_not_shorter(field);
}

proof fn lemma_doubled_is_not_shorter(field: Seq<char>)
    ensures
        doubled(field).len() >= field.len(),
    decreases field.len(),
{
    if field.len() > 0 {
        lemma_doubled_is_not_shorter(field.drop_last());
    }
}

/// What is said after the file was written tells the number of devices apart, and the path as it
/// was typed.
pub proof fn law_notice_tells_the_number(count: nat, other: nat, path: Seq<char>)
    ensures
        notice_text(count, path) == notice_text(other, path) ==> count == other,
        exists|front: Seq<char>| notice_text(count, path) == #[trigger] (front + path),
{
    let front = "Exported "@ + crate::text::decimal(count) + " devices to "@;
    assert(notice_text(count, path) == front + path);
    if notice_text(count, path) == notice_text(other, path) {
        let a = crate::text::decimal(count);
        let b = crate::text::decimal(other);
        let text = notice_text(count, path);
        let n = "Exported "@.len() as int;
        let tail = " devices to "@ + path;
        assert(text =~= "Exported "@ + a + tail);
        assert(text =~= "Exported "@ + b + tail);
        assert(a.len() == b.len());
        assert(text.subrange(n, n + a.len()) =~= a);
        assert(text.subrange(n, n + b.len()) =~= b);
        lemma_same_number(a, count, other);
    }
}

proof fn lemma_same_number(text: Seq<char>, a: nat, b: nat)
    requires
        text == crate::text::decimal(a),
        text == crate::text::decimal(b),
    ensures
        a == b,
    decreases a,
{
    crate::text::lemma_decimal_digits(a / 10);
    crate::text::lemma_decimal_digits(b / 10);
    assert(text.last() == crate::text::digit_char((a % 10) as int));
    assert(text.last() == crate::text::digit_char((b % 10) as int));
    assert(crate::text::digit_char((a % 10) as int) as int == 48 + a % 10);
    assert(crate::text::digit_char((b % 10) as int) as int == 48 + b % 10);
    if a >= 10 && b >= 10 {
        assert(text.drop_last() =~= crate::text::decimal(a / 10));
        assert(text.drop_last() =~= crate::text::decimal(b / 10));
        lemma_same_number(text.drop_last(), a / 10, b / 10);
    } else if a >= 10 {
        assert(text.len() >= 2);
    } else if b >= 10 {
        assert(text.len() >= 2);
    }
}

} // verus!
