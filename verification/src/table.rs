//! The table of devices: which rows are shown, and in what order.

use std::collections::BTreeMap;

use vstd::prelude::*;

use crate::device::{Device, DeviceView};
use crate::ordered::ascending_keys;
use crate::text::{before, lowercase, to_chars, to_text, trim};

verus! {

/// What the rows are ordered by.
#[derive(Clone, Copy, Debug, PartialEq, Eq, Structural)]
pub enum SortBy {
    Ip,
    Vendor,
    OpenPorts,
}

impl Default for SortBy {
    fn default() -> (result: SortBy)
        ensures
            result == SortBy::Ip,
    {
        SortBy::Ip
    }
}

/// The contents of the devices of a map.
pub open spec fn device_views(devices: Map<u32, Device>) -> Map<u32, DeviceView> {
    devices.map_values(|device: Device| device@)
}

/// Whether every device is kept under its own address.
pub open spec fn by_address(devices: Map<u32, DeviceView>) -> bool {
    forall|ip: u32| #[trigger] devices.contains_key(ip) ==> devices[ip].ip_address == ip
}

/// The devices in the order of their addresses.
pub open spec fn listed(devices: Map<u32, DeviceView>) -> Seq<DeviceView> {
    crate::ordered::in_order(devices.dom()).map_values(|ip: u32| devices[ip])
}

/// What is searched for: the text of the search field, letter case and blank ends aside, and
/// nothing where it is blank.
pub open spec fn query_of(search: Seq<char>) -> Seq<char> {
    if crate::text::trimmed(search).len() == 0 {
        Seq::empty()
    } else {
        crate::text::lowercased(crate::text::trimmed(search))
    }
}

/// Picks the devices that are shown.
pub open spec fn wanted(query: Seq<char>, open_only: bool) -> spec_fn(DeviceView) -> bool {
    |device: DeviceView| device.matches(query, open_only)
}

/// The devices that are shown, in the order of their addresses.
pub open spec fn matching_devices(
    devices: Map<u32, DeviceView>,
    query: Seq<char>,
    open_only: bool,
) -> Seq<DeviceView> {
    listed(devices).filter(wanted(query, open_only))
}

/// Whether a device comes before another. Devices that are alike in what they are ordered by
/// go by their addresses.
pub open spec fn comes_before(a: DeviceView, b: DeviceView, sort_by: SortBy) -> bool {
    match sort_by {
        SortBy::Ip => a.ip_address < b.ip_address,
        SortBy::Vendor => crate::text::text_before(a.vendor, b.vendor) || (a.vendor == b.vendor
            && a.ip_address < b.ip_address),
        SortBy::OpenPorts => a.port_count() < b.port_count() || (a.port_count() == b.port_count()
            && a.ip_address < b.ip_address),
    }
}

/// Whether a row may stand above another: it does not come after it, or not before it where
/// the order is descending.
pub open spec fn may_precede(a: DeviceView, b: DeviceView, sort_by: SortBy, descending: bool) -> bool {
    if descending {
        !comes_before(a, b, sort_by)
    } else {
        !comes_before(b, a, sort_by)
    }
}

/// Whether the rows stand in order.
pub open spec fn in_row_order(rows: Seq<DeviceView>, sort_by: SortBy, descending: bool) -> bool {
    forall|i: int, j: int|
        0 <= i < j < rows.len() ==> may_precede(rows[i], rows[j], sort_by, descending)
}

/// The contents of rows.
pub open spec fn row_views(rows: Seq<&Device>) -> Seq<DeviceView> {
    rows.map_values(|device: &Device| device@)
}

/// The order of rows has no cycles.
pub proof fn lemma_row_order(
    a: DeviceView,
    b: DeviceView,
    c: DeviceView,
    sort_by: SortBy,
    descending: bool,
)
    ensures
        may_precede(a, b, sort_by, descending) || may_precede(b, a, sort_by, descending),
        may_precede(a, b, sort_by, descending) && may_precede(b, c, sort_by, descending)
            ==> may_precede(a, c, sort_by, descending),
        may_precede(a, b, sort_by, descending) && may_precede(b, a, sort_by, descending)
            ==> a.ip_address == b.ip_address,
{
    crate::text::lemma_text_order_total(a.vendor, b.vendor);
    crate::text::lemma_text_order_total(b.vendor, a.vendor);
    crate::text::lemma_text_order_total(b.vendor, c.vendor);
    crate::text::lemma_text_order_total(c.vendor, b.vendor);
    crate::text::lemma_text_order_total(a.vendor, c.vendor);
    crate::text::lemma_text_order_total(c.vendor, a.vendor);
    if crate::text::text_before(a.vendor, b.vendor) && crate::text::text_before(
        b.vendor,
        c.vendor,
    ) {
        crate::text::lemma_text_order_transitive(a.vendor, b.vendor, c.vendor);
    }
    if crate::text::text_before(c.vendor, b.vendor) && crate::text::text_before(
        b.vendor,
        a.vendor,
    ) {
        crate::text::lemma_text_order_transitive(c.vendor, b.vendor, a.vendor);
    }
}

/// Whether a device comes before another.
pub fn is_before(a: &Device, b: &Device, sort_by: SortBy) -> (result: bool)
    ensures
        result == comes_before(a@, b@, sort_by),
{
    match sort_by {
        SortBy::Ip => a.ip_address < b.ip_address,
        SortBy::Vendor => {
            let first = to_chars(a.vendor.as_str());
            let second = to_chars(b.vendor.as_str());
            proof {
                crate::text::lemma_text_order_total(a.vendor@, b.vendor@);
            }
            before(first.as_slice(), second.as_slice()) || (a.ip_address < b.ip_address && !before(
                second.as_slice(),
                first.as_slice(),
            ))
        },
        SortBy::OpenPorts => {
            let first: usize = a.port_count();
            let second: usize = b.port_count();
            first < second || (first == second && a.ip_address < b.ip_address)
        },
    }
}

/// Whether a row may stand above another.
pub fn stands_above(a: &Device, b: &Device, sort_by: SortBy, descending: bool) -> (result: bool)
    ensures
        result == may_precede(a@, b@, sort_by, descending),
{
    if descending {
        !is_before(a, b, sort_by)
    } else {
        !is_before(b, a, sort_by)
    }
}

/// Merges two lists of rows that stand in order.
fn merge<'a>(
    a: &Vec<&'a Device>,
    b: &Vec<&'a Device>,
    sort_by: SortBy,
    descending: bool,
) -> (result: Vec<&'a Device>)
    requires
        in_row_order(row_views(a@), sort_by, descending),
        in_row_order(row_views(b@), sort_by, descending),
        a@.len() + b@.len() <= usize::MAX,
    ensures
        in_row_order(row_views(result@), sort_by, descending),
        row_views(result@).to_multiset() == row_views(a@).to_multiset().add(
            row_views(b@).to_multiset(),
        ),
{
    let ghost left = row_views(a@);
    let ghost right = row_views(b@);
    let mut result: Vec<&'a Device> = Vec::new();
    let mut i: usize = 0;
    let mut j: usize = 0;
    proof {
        broadcast use vstd::multiset::group_multiset_axioms;
        broadcast use vstd::seq_lib::group_to_multiset_ensures;

        assert(row_views(result@) =~= Seq::empty());
        assert(left.take(0) =~= Seq::empty());
        assert(right.take(0) =~= Seq::empty());
        assert(row_views(result@).to_multiset() =~= left.take(0).to_multiset().add(
            right.take(0).to_multiset(),
        ));
    }
    while i < a.len() || j < b.len()
        invariant
            0 <= i <= a.len(),
            0 <= j <= b.len(),
            a@.len() + b@.len() <= usize::MAX,
            left == row_views(a@),
            right == row_views(b@),
            in_row_order(left, sort_by, descending),
            in_row_order(right, sort_by, descending),
            in_row_order(row_views(result@), sort_by, descending),
            forall|k: int, n: int|
                0 <= k < row_views(result@).len() && i <= n < left.len() ==> may_precede(
                    #[trigger] row_views(result@)[k],
                    #[trigger] left[n],
                    sort_by,
                    descending,
                ),
            forall|k: int, n: int|
                0 <= k < row_views(result@).len() && j <= n < right.len() ==> may_precede(
                    #[trigger] row_views(result@)[k],
                    #[trigger] right[n],
                    sort_by,
                    descending,
                ),
            row_views(result@).to_multiset() == left.take(i as int).to_multiset().add(
                right.take(j as int).to_multiset(),
            ),
        decreases a.len() - i + b.len() - j,
    {
        let from_left = j >= b.len() || (i < a.len() && stands_above(a[i], b[j], sort_by, descending));
        let ghost rows = row_views(result@);
        let ghost i0 = i as int;
        let ghost j0 = j as int;
        let next: &'a Device = if from_left {
            a[i]
        } else {
            b[j]
        };
        proof {
            broadcast use vstd::multiset::group_multiset_axioms;
            broadcast use vstd::seq_lib::group_to_multiset_ensures;

            assert(from_left ==> next@ == left[i0]);
            assert(!from_left ==> next@ == right[j0]);
            if i0 < left.len() && j0 < right.len() {
                lemma_row_order(left[i0], right[j0], right[j0], sort_by, descending);
                assert(from_left ==> may_precede(left[i0], right[j0], sort_by, descending));
                assert(!from_left ==> may_precede(right[j0], left[i0], sort_by, descending));
            }
            // The next row may stand above all that are left.
            assert forall|n: int| i0 <= n < left.len() && !(from_left && n == i0) implies may_precede(
                next@,
                #[trigger] left[n],
                sort_by,
                descending,
            ) by {
                if n > i0 {
                    assert(may_precede(left[i0], left[n], sort_by, descending));
                    lemma_row_order(next@, left[i0], left[n], sort_by, descending);
                }
            }
            assert forall|n: int|
                j0 <= n < right.len() && !(!from_left && n == j0) implies may_precede(
                next@,
                #[trigger] right[n],
                sort_by,
                descending,
            ) by {
                if n > j0 {
                    assert(may_precede(right[j0], right[n], sort_by, descending));
                    lemma_row_order(next@, right[j0], right[n], sort_by, descending);
                }
            }
            if from_left {
                assert(left.take(i0 + 1) =~= left.take(i0).push(left[i0]));
            } else {
                assert(right.take(j0 + 1) =~= right.take(j0).push(right[j0]));
            }
        }
        result.push(next);
        if from_left {
            i += 1;
        } else {
            j += 1;
        }
        proof {
            broadcast use vstd::multiset::group_multiset_axioms;
            broadcast use vstd::seq_lib::group_to_multiset_ensures;

            assert(row_views(result@) =~= rows.push(next@));
            assert(row_views(result@).to_multiset() =~= left.take(i as int).to_multiset().add(
                right.take(j as int).to_multiset(),
            ));
        }
    }
    assert(left.take(i as int) =~= left);
    assert(right.take(j as int) =~= right);
    result
}

/// Puts rows in order.
pub fn sort_rows<'a>(rows: Vec<&'a Device>, sort_by: SortBy, descending: bool) -> (result: Vec<
    &'a Device,
>)
    ensures
        in_row_order(row_views(result@), sort_by, descending),
        row_views(result@).to_multiset() == row_views(rows@).to_multiset(),
    decreases rows@.len(),
{
    if rows.len() < 2 {
        return rows;
    }
    let half: usize = rows.len() / 2;
    let mut front: Vec<&'a Device> = Vec::new();
    let mut back: Vec<&'a Device> = Vec::new();
    let mut i: usize = 0;
    while i < rows.len()
        invariant
            0 <= i <= rows.len(),
            half < rows@.len(),
            front@ == rows@.take(if i < half { i as int } else { half as int }),
            back@ == (if i < half {
                Seq::empty()
            } else {
                rows@.subrange(half as int, i as int)
            }),
        decreases rows.len() - i,
    {
        if i < half {
            front.push(rows[i]);
            assert(rows@.take(i + 1) =~= rows@.take(i as int).push(rows@[i as int]));
            assert(rows@.subrange(half as int, half as int) =~= Seq::empty());
        } else {
            back.push(rows[i]);
            assert(rows@.subrange(half as int, i + 1) =~= rows@.subrange(half as int, i as int).push(
                rows@[i as int],
            ));
        }
        i += 1;
    }
    proof {
        assert(row_views(rows@) =~= row_views(front@) + row_views(back@));
        vstd::seq_lib::lemma_multiset_commutative(row_views(front@), row_views(back@));
        broadcast use vstd::seq_lib::group_to_multiset_ensures;
    }
    let first = sort_rows(front, sort_by, descending);
    let second = sort_rows(back, sort_by, descending);
    proof {
        broadcast use vstd::seq_lib::group_to_multiset_ensures;

        assert(row_views(first@).len() == row_views(first@).to_multiset().len());
        assert(row_views(second@).len() == row_views(second@).to_multiset().len());
        assert(row_views(rows@).len() == rows@.len());
    }
    merge(&first, &second, sort_by, descending)
}

/// The devices that are shown for a query in lower case, in the order of their addresses.
pub fn matching<'a>(devices: &'a BTreeMap<u32, Device>, query: &str, open_only: bool) -> (result:
    Vec<&'a Device>)
    ensures
        row_views(result@) == matching_devices(device_views(devices@), query@, open_only),
{
    let keys = ascending_keys(devices);
    let ghost all = listed(device_views(devices@));
    let ghost keep = wanted(query@, open_only);
    let mut result: Vec<&'a Device> = Vec::new();
    let mut i: usize = 0;
    proof {
        reveal(Seq::filter);
        assert(device_views(devices@).dom() =~= devices@.dom());
        assert(all.take(0).filter(keep) =~= Seq::empty());
        assert(row_views(result@) =~= Seq::empty());
    }
    while i < keys.len()
        invariant
            0 <= i <= keys.len(),
            keys@.to_set() == devices@.dom(),
            all == keys@.map_values(|ip: u32| device_views(devices@)[ip]),
            keep == wanted(query@, open_only),
            row_views(result@) == all.take(i as int).filter(keep),
        decreases keys.len() - i,
    {
        let key: u32 = keys[i];
        proof {
            reveal(Seq::filter);
            assert(keys@.to_set().contains(key));
            assert(devices@.contains_key(key));
            assert(all.take(i + 1).drop_last() =~= all.take(i as int));
            assert(all.take(i + 1).last() == devices@[key]@);
        }
        let ghost rows = row_views(result@);
        if let Some(device) = devices.get(&key) {
            if device.matches(query, open_only) {
                result.push(device);
                assert(row_views(result@) =~= rows.push(device@));
            }
        }
        i += 1;
    }
    assert(all.take(i as int) =~= all);
    result
}

/// The rows of the table: the devices that are shown for the search, in order.
pub fn rows<'a>(
    devices: &'a BTreeMap<u32, Device>,
    search: &str,
    open_only: bool,
    sort_by: SortBy,
    descending: bool,
) -> (result: Vec<&'a Device>)
    ensures
        in_row_order(row_views(result@), sort_by, descending),
        row_views(result@).to_multiset() == matching_devices(
            device_views(devices@),
            query_of(search@),
            open_only,
        ).to_multiset(),
{
    let chars = to_chars(search);
    let trimmed = trim(chars.as_slice());
    let query = if trimmed.len() == 0 {
        String::new()
    } else {
        lowercase(to_text(trimmed).as_str())
    };
    assert(query@ =~= query_of(search@));
    sort_rows(matching(devices, query.as_str(), open_only), sort_by, descending)
}

// ---------------------------------------------------------------------------------------
// Laws.

/// Rows of devices with different addresses can be put in order in one way only.
pub proof fn law_row_order_is_unique(
    a: Seq<DeviceView>,
    b: Seq<DeviceView>,
    sort_by: SortBy,
    descending: bool,
)
    requires
        in_row_order(a, sort_by, descending),
        in_row_order(b, sort_by, descending),
        a.to_multiset() == b.to_multiset(),
        forall|i: int, j: int|
            0 <= i < j < a.len() ==> (#[trigger] a[i]).ip_address != (#[trigger] a[j]).ip_address,
    ensures
        a == b,
    decreases a.len(),
{
    broadcast use vstd::multiset::group_multiset_axioms;
    broadcast use vstd::seq_lib::group_to_multiset_ensures;

    assert(a.to_multiset().len() == a.len());
    assert(b.to_multiset().len() == b.len());
    if a.len() == 0 {
        assert(a =~= b);
    } else {
        let last = a.last();
        let other = b.last();
        assert(a.contains(last));
        assert(b.to_multiset().count(last) > 0);
        assert(b.contains(last));
        assert(b.contains(other));
        assert(a.to_multiset().count(other) > 0);
        assert(a.contains(other));
        let i = choose|i: int| 0 <= i < a.len() && a[i] == other;
        let j = choose|j: int| 0 <= j < b.len() && b[j] == last;
        if i < a.len() - 1 {
            assert(may_precede(a[i], a[a.len() - 1], sort_by, descending));
            if j < b.len() - 1 {
                assert(may_precede(b[j], b[b.len() - 1], sort_by, descending));
                lemma_row_order(last, other, last, sort_by, descending);
                assert(a[i].ip_address != a[a.len() - 1].ip_address);
            }
        }
        assert(last == other);
        let shorter = a.drop_last();
        let rest = b.drop_last();
        assert(a =~= shorter.push(last));
        assert(b =~= rest.push(last));
        assert(shorter.to_multiset() =~= rest.to_multiset()) by {
            assert(a.to_multiset() =~= shorter.to_multiset().insert(last));
            assert(b.to_multiset() =~= rest.to_multiset().insert(last));
            assert forall|x: DeviceView| shorter.to_multiset().count(x)
                == rest.to_multiset().count(x) by {
                let added = shorter.to_multiset().insert(last);
                assert(added == rest.to_multiset().insert(last));
                assert(added.count(x) == rest.to_multiset().insert(last).count(x));
            }
        }
        law_row_order_is_unique(shorter, rest, sort_by, descending);
    }
}

/// The devices that are shown are exactly those that match, and every address is shown once.
pub proof fn law_matching_devices_are_those_that_match(
    devices: Map<u32, DeviceView>,
    query: Seq<char>,
    open_only: bool,
)
    requires
        devices.dom().finite(),
        by_address(devices),
    ensures
        forall|i: int|
            0 <= i < matching_devices(devices, query, open_only).len() ==> {
                let device = #[trigger] matching_devices(devices, query, open_only)[i];
                devices.contains_key(device.ip_address) && devices[device.ip_address] == device
                    && device.matches(query, open_only)
            },
        forall|ip: u32| #[trigger]
            devices.contains_key(ip) && devices[ip].matches(query, open_only) ==> matching_devices(
                devices,
                query,
                open_only,
            ).contains(devices[ip]),
        forall|i: int, j: int|
            0 <= i < j < matching_devices(devices, query, open_only).len()
                ==> (#[trigger] matching_devices(devices, query, open_only)[i]).ip_address < (
            #[trigger] matching_devices(devices, query, open_only)[j]).ip_address,
{
    let keys = crate::ordered::in_order(devices.dom());
    let all = listed(devices);
    let keep = wanted(query, open_only);
    let part = all.filter(keep);
    crate::ordered::lemma_in_order_exists(devices.dom());
    assert forall|i: int| 0 <= i < all.len() implies devices.contains_key(
        (#[trigger] all[i]).ip_address,
    ) && devices[all[i].ip_address] == all[i] && all[i].ip_address == keys[i] by {
        assert(keys.to_set().contains(keys[i]));
        assert(devices.contains_key(keys[i]));
    }
    assert forall|i: int| 0 <= i < part.len() implies {
        let device = #[trigger] part[i];
        devices.contains_key(device.ip_address) && devices[device.ip_address] == device
            && device.matches(query, open_only)
    } by {
        all.lemma_filter_pred(keep, i);
        assert(part.contains(part[i]));
        all.lemma_filter_contains_rev(keep, part[i]);
        let k = choose|k: int| 0 <= k < all.len() && all[k] == part[i];
        assert(all[k] == part[i]);
    }
    assert forall|ip: u32| #[trigger]
        devices.contains_key(ip) && devices[ip].matches(query, open_only) implies part.contains(
        devices[ip],
    ) by {
        assert(keys.to_set().contains(ip));
        let k = choose|k: int| 0 <= k < keys.len() && keys[k] == ip;
        assert(all[k] == devices[ip]);
        all.lemma_filter_contains(keep, k);
    }
    lemma_filter_by_address(all, keep);
}

/// A blank search hides no device, and with the filter for open ports it hides exactly those
/// without.
pub proof fn law_blank_search_hides_nothing(devices: Map<u32, DeviceView>, search: Seq<char>)
    requires
        crate::text::trimmed(search).len() == 0,
    ensures
        matching_devices(devices, query_of(search), false) == listed(devices),
        matching_devices(devices, query_of(search), true) == listed(devices).filter(
            |device: DeviceView| device.open_ports.len() > 0,
        ),
{
    let all = listed(devices);
    let keep = wanted(query_of(search), false);
    assert forall|i: int| 0 <= i < all.len() implies keep(#[trigger] all[i]) by {}
    lemma_filter_keeps_all(all, keep);
    let has_open = |device: DeviceView| device.open_ports.len() > 0;
    assert(wanted(query_of(search), true) =~= has_open);
}

proof fn lemma_filter_keeps_all(s: Seq<DeviceView>, keep: spec_fn(DeviceView) -> bool)
    requires
        forall|i: int| 0 <= i < s.len() ==> keep(#[trigger] s[i]),
    ensures
        s.filter(keep) == s,
    decreases s.len(),
{
    reveal(Seq::filter);
    if s.len() > 0 {
        let shorter = s.drop_last();
        assert forall|i: int| 0 <= i < shorter.len() implies keep(#[trigger] shorter[i]) by {
            assert(shorter[i] == s[i]);
        }
        lemma_filter_keeps_all(shorter, keep);
        assert(keep(s[s.len() - 1]));
    }
    assert(s.filter(keep) =~= s);
}

/// For each search and each order there is only one table of rows.
pub proof fn law_rows_are_determined(
    devices: Map<u32, DeviceView>,
    query: Seq<char>,
    open_only: bool,
    sort_by: SortBy,
    descending: bool,
    a: Seq<DeviceView>,
    b: Seq<DeviceView>,
)
    requires
        devices.dom().finite(),
        by_address(devices),
        in_row_order(a, sort_by, descending),
        in_row_order(b, sort_by, descending),
        a.to_multiset() == matching_devices(devices, query, open_only).to_multiset(),
        b.to_multiset() == matching_devices(devices, query, open_only).to_multiset(),
    ensures
        a == b,
{
    broadcast use vstd::seq_lib::group_to_multiset_ensures;

    let shown = matching_devices(devices, query, open_only);
    law_matching_devices_are_those_that_match(devices, query, open_only);
    assert(shown.no_duplicates());
    shown.lemma_multiset_has_no_duplicates();
    a.lemma_multiset_has_no_duplicates_conv();
    assert forall|i: int, j: int| 0 <= i < j < a.len() implies (#[trigger] a[i]).ip_address != (
    #[trigger] a[j]).ip_address by {
        assert(a.contains(a[i]) && a.contains(a[j]));
        assert(shown.to_multiset().count(a[i]) > 0 && shown.to_multiset().count(a[j]) > 0);
        assert(shown.contains(a[i]) && shown.contains(a[j]));
        let m = choose|m: int| 0 <= m < shown.len() && shown[m] == a[i];
        let n = choose|n: int| 0 <= n < shown.len() && shown[n] == a[j];
        assert(devices[shown[m].ip_address] == a[i]);
        assert(devices[shown[n].ip_address] == a[j]);
    }
    law_row_order_is_unique(a, b, sort_by, descending);
}

/// A part of a list in the order of addresses is in that order.
proof fn lemma_filter_by_address(s: Seq<DeviceView>, keep: spec_fn(DeviceView) -> bool)
    requires
        forall|i: int, j: int|
            0 <= i < j < s.len() ==> (#[trigger] s[i]).ip_address < (#[trigger] s[j]).ip_address,
    ensures
        forall|i: int, j: int|
            0 <= i < j < s.filter(keep).len() ==> (#[trigger] s.filter(keep)[i]).ip_address < (
            #[trigger] s.filter(keep)[j]).ip_address,
    decreases s.len(),
{
    reveal(Seq::filter);
    if s.len() > 0 {
        let shorter = s.drop_last();
        let part = shorter.filter(keep);
        lemma_filter_by_address(shorter, keep);
        assert forall|i: int| 0 <= i < part.len() implies (#[trigger] part[i]).ip_address
            < s.last().ip_address by {
            assert(part.contains(part[i]));
            shorter.lemma_filter_contains_rev(keep, part[i]);
            let k = choose|k: int| 0 <= k < shorter.len() && shorter[k] == part[i];
            assert(s[k] == part[i]);
        }
    }
}

/// Turning the order round turns the rows round.
pub proof fn law_descending_rows_are_reversed(rows: Seq<DeviceView>, sort_by: SortBy)
    ensures
        in_row_order(rows, sort_by, true) <==> in_row_order(rows.reverse(), sort_by, false),
        rows.reverse().to_multiset() == rows.to_multiset(),
{
    let turned = rows.reverse();
    let n = rows.len() as int;
    if in_row_order(rows, sort_by, true) {
        assert forall|i: int, j: int| 0 <= i < j < n implies may_precede(
            turned[i],
            turned[j],
            sort_by,
            false,
        ) by {
            assert(may_precede(rows[n - 1 - j], rows[n - 1 - i], sort_by, true));
        }
    }
    if in_row_order(turned, sort_by, false) {
        assert forall|i: int, j: int| 0 <= i < j < n implies may_precede(
            rows[i],
            rows[j],
            sort_by,
            true,
        ) by {
            assert(may_precede(turned[n - 1 - j], turned[n - 1 - i], sort_by, false));
        }
    }
    lemma_reverse_multiset(rows);
}

proof fn lemma_reverse_multiset(rows: Seq<DeviceView>)
    ensures
        rows.reverse().to_multiset() == rows.to_multiset(),
    decreases rows.len(),
{
    broadcast use vstd::multiset::group_multiset_axioms;
    broadcast use vstd::seq_lib::group_to_multiset_ensures;

    if rows.len() == 0 {
        assert(rows.reverse() =~= rows);
    } else {
        let shorter = rows.drop_last();
        let one = seq![rows.last()];
        lemma_reverse_multiset(shorter);
        assert(rows.reverse() =~= one + shorter.reverse());
        assert(rows =~= shorter + one);
        vstd::seq_lib::lemma_multiset_commutative(one, shorter.reverse());
        vstd::seq_lib::lemma_multiset_commutative(shorter, one);
        assert(rows.reverse().to_multiset() =~= rows.to_multiset());
    }
}

/// Rows ordered by address: the addresses go up from row to row, or down in descending order.
pub proof fn law_rows_by_address(rows: Seq<DeviceView>, i: int, j: int)
    requires
        0 <= i < j < rows.len(),
    ensures
        in_row_order(rows, SortBy::Ip, false) ==> rows[i].ip_address <= rows[j].ip_address,
        in_row_order(rows, SortBy::Ip, true) ==> rows[i].ip_address >= rows[j].ip_address,
{
    if in_row_order(rows, SortBy::Ip, false) {
        assert(may_precede(rows[i], rows[j], SortBy::Ip, false));
    }
    if in_row_order(rows, SortBy::Ip, true) {
        assert(may_precede(rows[i], rows[j], SortBy::Ip, true));
    }
}

/// Rows ordered by vendor: no vendor stands above one that comes before it in the alphabet, or
/// in descending order below. Devices of one vendor go by their addresses.
pub proof fn law_rows_by_vendor(rows: Seq<DeviceView>, i: int, j: int)
    requires
        0 <= i < j < rows.len(),
    ensures
        in_row_order(rows, SortBy::Vendor, false) ==> {
            ||| crate::text::text_before(rows[i].vendor, rows[j].vendor)
            ||| rows[i].vendor == rows[j].vendor && rows[i].ip_address <= rows[j].ip_address
        },
        in_row_order(rows, SortBy::Vendor, true) ==> {
            ||| crate::text::text_before(rows[j].vendor, rows[i].vendor)
            ||| rows[i].vendor == rows[j].vendor && rows[i].ip_address >= rows[j].ip_address
        },
{
    crate::text::lemma_text_order_total(rows[i].vendor, rows[j].vendor);
    crate::text::lemma_text_order_total(rows[j].vendor, rows[i].vendor);
    if in_row_order(rows, SortBy::Vendor, false) {
        assert(may_precede(rows[i], rows[j], SortBy::Vendor, false));
    }
    if in_row_order(rows, SortBy::Vendor, true) {
        assert(may_precede(rows[i], rows[j], SortBy::Vendor, true));
    }
}

/// Rows ordered by open ports: no row has more open ports than a later one, or fewer in
/// descending order. Devices with as many open ports go by their addresses.
pub proof fn law_rows_by_open_ports(rows: Seq<DeviceView>, i: int, j: int)
    requires
        0 <= i < j < rows.len(),
    ensures
        in_row_order(rows, SortBy::OpenPorts, false) ==> {
            &&& rows[i].port_count() <= rows[j].port_count()
            &&& rows[i].port_count() == rows[j].port_count() ==> rows[i].ip_address
                <= rows[j].ip_address
        },
        in_row_order(rows, SortBy::OpenPorts, true) ==> {
            &&& rows[i].port_count() >= rows[j].port_count()
            &&& rows[i].port_count() == rows[j].port_count() ==> rows[i].ip_address
                >= rows[j].ip_address
        },
{
    if in_row_order(rows, SortBy::OpenPorts, false) {
        assert(may_precede(rows[i], rows[j], SortBy::OpenPorts, false));
    }
    if in_row_order(rows, SortBy::OpenPorts, true) {
        assert(may_precede(rows[i], rows[j], SortBy::OpenPorts, true));
    }
}

/// Where the open ports of two rows are written out from lists of ports, the row with the
/// shorter list stands above the other, or below it in descending order.
pub proof fn law_shorter_port_lists_stand_first(
    rows: Seq<DeviceView>,
    i: int,
    j: int,
    above: Seq<u16>,
    below: Seq<u16>,
)
    requires
        0 <= i < j < rows.len(),
        rows[i].open_ports == crate::device::ports_text(above),
        rows[j].open_ports == crate::device::ports_text(below),
    ensures
        in_row_order(rows, SortBy::OpenPorts, false) ==> above.len() <= below.len(),
        in_row_order(rows, SortBy::OpenPorts, true) ==> above.len() >= below.len(),
{
    law_rows_by_open_ports(rows, i, j);
    crate::device::law_port_count_counts_the_list(rows[i], above);
    crate::device::law_port_count_counts_the_list(rows[j], below);
}

/// What is searched for is what stands in the field in small letters, without the blanks around
/// it.
pub proof fn law_query_is_the_field(front: Seq<char>, core: Seq<char>, back: Seq<char>)
    requires
        forall|i: int| 0 <= i < front.len() ==> crate::text::is_white_space(#[trigger] front[i]),
        forall|i: int| 0 <= i < back.len() ==> crate::text::is_white_space(#[trigger] back[i]),
        core.len() > 0 ==> !crate::text::is_white_space(core[0]) && !crate::text::is_white_space(
            core.last(),
        ),
    ensures
        query_of(front + core + back) == if core.len() == 0 {
            Seq::empty()
        } else {
            crate::text::lowercased(core)
        },
{
    crate::text::law_trimming_takes_the_blank_ends(front, core, back);
}

/// The devices are listed once each, from the lowest address to the highest.
pub proof fn law_devices_are_listed_by_address(devices: Map<u32, DeviceView>, ip: u32)
    requires
        devices.dom().finite(),
        by_address(devices),
    ensures
        listed(devices).len() == devices.dom().len(),
        forall|i: int, j: int|
            0 <= i < j < listed(devices).len() ==> (#[trigger] listed(devices)[i]).ip_address < (
            #[trigger] listed(devices)[j]).ip_address,
        devices.contains_key(ip) <==> exists|i: int|
            0 <= i < listed(devices).len() && (#[trigger] listed(devices)[i]).ip_address == ip,
        forall|i: int|
            0 <= i < listed(devices).len() ==> {
                let device = #[trigger] listed(devices)[i];
                devices.contains_key(device.ip_address) && devices[device.ip_address] == device
            },
{
    let keys = crate::ordered::in_order(devices.dom());
    crate::ordered::lemma_in_order_exists(devices.dom());
    let all = listed(devices);
    assert forall|i: int| 0 <= i < all.len() implies (#[trigger] all[i]).ip_address == keys[i]
        && devices.contains_key(keys[i]) by {
        assert(keys.to_set().contains(keys[i]));
        assert(devices.contains_key(keys[i]));
    }
    if devices.contains_key(ip) {
        assert(keys.to_set().contains(ip));
        let i = choose|i: int| 0 <= i < keys.len() && keys[i] == ip;
        assert(all[i].ip_address == ip);
    }
    assert(keys.no_duplicates());
    keys.unique_seq_to_set();
}

} // verus!
