//! The texts that the window shows.

use std::collections::BTreeMap;

use vstd::prelude::*;
use vstd::string::StringExecFns;

use crate::address::ipv4_to_text;
use crate::capture::{CaptureState, CaptureView};
use crate::device::{Device, DeviceView};
use crate::link::{Link, LinkView};
use crate::ordered::ascending_keys;
use crate::scan::Progress;
use crate::table::SortBy;
use crate::text::{concat2, concat3, decimal_text, equal_text};

verus! {

// ---------------------------------------------------------------------------------------
// The choice of an interface.

/// An entry of the list of interfaces: the name, and the text that is shown for it.
#[verifier::ext_equal]
pub struct ChoiceView {
    pub name: Seq<char>,
    pub label: Seq<char>,
}

/// An entry of the list of interfaces.
pub struct Choice {
    pub name: String,
    pub label: String,
}

impl View for Choice {
    type V = ChoiceView;

    open spec fn view(&self) -> ChoiceView {
        ChoiceView { name: self.name@, label: self.label@ }
    }
}

/// The entry for a link.
pub open spec fn choice_of(link: LinkView) -> ChoiceView {
    ChoiceView {
        name: link.interface.name,
        label: link.interface.name + " · "@ + crate::address::ipv4_text(link.address.ip),
    }
}

/// Whether some entry has the name.
pub open spec fn offers(choices: Seq<ChoiceView>, name: Seq<char>) -> bool {
    exists|i: int| 0 <= i < choices.len() && #[trigger] choices[i].name == name
}

/// The entries for links: one for each interface, which shows the address of its first link.
pub open spec fn choices_of(links: Seq<LinkView>) -> Seq<ChoiceView>
    decreases links.len(),
{
    if links.len() == 0 {
        Seq::empty()
    } else {
        let earlier = choices_of(links.drop_last());
        if offers(earlier, links.last().interface.name) {
            earlier
        } else {
            earlier.push(choice_of(links.last()))
        }
    }
}

/// The contents of entries.
pub open spec fn choice_views(choices: Seq<Choice>) -> Seq<ChoiceView> {
    choices.map_values(|choice: Choice| choice@)
}

/// Whether some entry has the name.
fn is_offered(choices: &Vec<Choice>, name: &str) -> (result: bool)
    ensures
        result == offers(choice_views(choices@), name@),
{
    let ghost views = choice_views(choices@);
    let mut i: usize = 0;
    while i < choices.len()
        invariant
            0 <= i <= choices.len(),
            views == choice_views(choices@),
            forall|j: int| 0 <= j < i ==> #[trigger] views[j].name != name@,
        decreases choices.len() - i,
    {
        assert(views[i as int] == choices@[i as int]@);
        if equal_text(choices[i].name.as_str(), name) {
            assert(views[i as int].name == name@);
            return true;
        }
        i += 1;
    }
    false
}

/// The entries of the list of interfaces.
pub fn interface_choices(links: &Vec<Link>) -> (result: Vec<Choice>)
    ensures
        choice_views(result@) == choices_of(crate::link::link_views(links@)),
{
    let ghost views = crate::link::link_views(links@);
    let mut result: Vec<Choice> = Vec::new();
    let mut i: usize = 0;
    assert(choice_views(result@) =~= Seq::empty());
    while i < links.len()
        invariant
            0 <= i <= links.len(),
            views == crate::link::link_views(links@),
            choice_views(result@) == choices_of(views.take(i as int)),
        decreases links.len() - i,
    {
        proof {
            assert(views.take(i + 1).drop_last() =~= views.take(i as int));
            assert(views.take(i + 1).last() == links@[i as int]@);
        }
        let link = &links[i];
        if !is_offered(&result, link.interface.name.as_str()) {
            let ghost before = result@;
            let address = ipv4_to_text(link.address.ip);
            let choice = Choice {
                name: link.interface.name.clone(),
                label: concat3(link.interface.name.as_str(), " · ", address.as_str()),
            };
            result.push(choice);
            assert(choice_views(result@) =~= choice_views(before).push(choice@));
        }
        i += 1;
    }
    assert(views.take(i as int) =~= views);
    result
}

/// Every interface is offered, and none twice.
pub proof fn law_each_interface_is_offered_once(links: Seq<LinkView>)
    ensures
        forall|i: int|
            0 <= i < links.len() ==> offers(choices_of(links), (#[trigger] links[i]).interface.name),
        forall|i: int, j: int|
            0 <= i < j < choices_of(links).len() ==> (#[trigger] choices_of(links)[i]).name != (
            #[trigger] choices_of(links)[j]).name,
    decreases links.len(),
{
    if links.len() > 0 {
        let shorter = links.drop_last();
        let earlier = choices_of(shorter);
        let all = choices_of(links);
        let last = links.last();
        law_each_interface_is_offered_once(shorter);
        assert forall|i: int| 0 <= i < links.len() implies offers(
            all,
            (#[trigger] links[i]).interface.name,
        ) by {
            if i < shorter.len() {
                assert(shorter[i] == links[i]);
                let k = choose|k: int|
                    0 <= k < earlier.len() && #[trigger] earlier[k].name == links[i].interface.name;
                assert(all[k] == earlier[k]);
            } else if !offers(earlier, last.interface.name) {
                assert(all[earlier.len() as int].name == last.interface.name);
            }
        }
        if !offers(earlier, last.interface.name) {
            assert forall|i: int, j: int| 0 <= i < j < all.len() implies (#[trigger] all[i]).name
                != (#[trigger] all[j]).name by {
                assert(all[i] == earlier[i]);
                if j < earlier.len() {
                    assert(all[j] == earlier[j]);
                }
            }
        }
    }
}

/// What is shown as the choice of an interface.
pub fn selected_text(selected: &Option<String>) -> (result: String)
    ensures
        result@ == match *selected {
            Some(name) => name@,
            None => "Automatic"@,
        },
{
    match selected {
        Some(name) => name.clone(),
        None => "Automatic".to_string(),
    }
}

// ---------------------------------------------------------------------------------------
// The state of the capture.

/// The systems for which there is advice of their own.
#[derive(Clone, Copy, Debug, PartialEq, Eq, Structural)]
pub enum Platform {
    Linux,
    Windows,
    Other,
}

/// What is shown of the capture: a headline, whether it is bad news, and more lines below.
#[verifier::ext_equal]
pub struct CaptureTextView {
    pub headline: Seq<char>,
    pub bad: bool,
    pub details: Seq<Seq<char>>,
}

/// What is shown of the capture.
pub struct CaptureText {
    pub headline: String,
    pub bad: bool,
    pub details: Vec<String>,
}

impl View for CaptureText {
    type V = CaptureTextView;

    open spec fn view(&self) -> CaptureTextView {
        CaptureTextView {
            headline: self.headline@,
            bad: self.bad,
            details: crate::export::texts(self.details@),
        }
    }
}

/// What to do where the system refuses the capture.
pub open spec fn denied_advice(platform: Platform) -> Seq<char> {
    match platform {
        Platform::Linux => "Grant CAP_NET_RAW to this executable, then close and reopen the app. The GUI can run as your normal user."@,
        Platform::Windows => "Install Npcap with WinPcap compatibility and allow capture access, or run as administrator."@,
        Platform::Other => "Allow access to the BPF capture devices or run with suitable capture privileges."@,
    }
}

/// What is shown of the capture.
pub open spec fn capture_lines(state: CaptureView, platform: Platform) -> CaptureTextView {
    match state {
        CaptureView::Ready => CaptureTextView {
            headline: "Packet capture ready"@,
            bad: false,
            details: Seq::empty(),
        },
        CaptureView::Unchecked => CaptureTextView {
            headline: "Checking packet capture…"@,
            bad: false,
            details: Seq::empty(),
        },
        CaptureView::Checking => CaptureTextView {
            headline: "Checking packet capture…"@,
            bad: false,
            details: Seq::empty(),
        },
        CaptureView::Denied(message) => CaptureTextView {
            headline: "Packet capture access denied"@,
            bad: true,
            details: seq![message, denied_advice(platform)],
        },
        CaptureView::Unavailable(message) => CaptureTextView {
            headline: "Packet capture unavailable"@,
            bad: true,
            details: if platform == Platform::Windows {
                seq![message, "Check the Npcap installation and adapter status."@]
            } else {
                seq![message]
            },
        },
    }
}

/// What is shown of the capture.
pub fn capture_text(state: &CaptureState, platform: Platform) -> (result: CaptureText)
    ensures
        result@ == capture_lines(state@, platform),
{
    let mut details: Vec<String> = Vec::new();
    match state {
        CaptureState::Ready => {
            assert(crate::export::texts(details@) =~= Seq::empty());
            CaptureText { headline: "Packet capture ready".to_string(), bad: false, details }
        },
        CaptureState::Unchecked | CaptureState::Checking => {
            assert(crate::export::texts(details@) =~= Seq::empty());
            CaptureText { headline: "Checking packet capture…".to_string(), bad: false, details }
        },
        CaptureState::Denied(message) => {
            details.push(message.clone());
            let advice = match platform {
                Platform::Linux => "Grant CAP_NET_RAW to this executable, then close and reopen the app. The GUI can run as your normal user.".to_string(),
                Platform::Windows => "Install Npcap with WinPcap compatibility and allow capture access, or run as administrator.".to_string(),
                Platform::Other => "Allow access to the BPF capture devices or run with suitable capture privileges.".to_string(),
            };
            details.push(advice);
            assert(crate::export::texts(details@) =~= seq![message@, denied_advice(platform)]);
            CaptureText { headline: "Packet capture access denied".to_string(), bad: true, details }
        },
        CaptureState::Unavailable(message) => {
            details.push(message.clone());
            if let Platform::Windows = platform {
                details.push("Check the Npcap installation and adapter status.".to_string());
                assert(crate::export::texts(details@)
                    =~= seq![message@, "Check the Npcap installation and adapter status."@]);
            } else {
                assert(crate::export::texts(details@) =~= seq![message@]);
            }
            CaptureText { headline: "Packet capture unavailable".to_string(), bad: true, details }
        },
    }
}

/// Whether the command that grants access is offered: where the system refused, on Linux.
pub fn offers_command(state: &CaptureState, platform: Platform) -> (result: bool)
    ensures
        result == (state@ is Denied && platform == Platform::Linux),
{
    match (state, platform) {
        (CaptureState::Denied(_), Platform::Linux) => true,
        _ => false,
    }
}

// ---------------------------------------------------------------------------------------
// Numbers.

/// How many open ports the devices have together.
pub open spec fn port_total(devices: Seq<DeviceView>) -> nat
    decreases devices.len(),
{
    if devices.len() == 0 {
        0
    } else {
        port_total(devices.drop_last()) + devices.last().port_count()
    }
}

/// How many open ports the devices have together, as long as that can be counted.
pub fn open_port_total(devices: &BTreeMap<u32, Device>) -> (result: Option<usize>)
    ensures
        ({
            let total = port_total(crate::table::listed(crate::table::device_views(devices@)));
            match result {
                Some(n) => n == total,
                None => total > usize::MAX,
            }
        }),
{
    let keys = ascending_keys(devices);
    let ghost all = crate::table::listed(crate::table::device_views(devices@));
    assert(crate::table::device_views(devices@).dom() =~= devices@.dom());
    let mut total: usize = 0;
    let mut i: usize = 0;
    while i < keys.len()
        invariant
            0 <= i <= keys.len(),
            keys@.to_set() == devices@.dom(),
            all == keys@.map_values(|ip: u32| crate::table::device_views(devices@)[ip]),
            all == crate::table::listed(crate::table::device_views(devices@)),
            total == port_total(all.take(i as int)),
        decreases keys.len() - i,
    {
        let key: u32 = keys[i];
        proof {
            assert(keys@.to_set().contains(key));
            assert(devices@.contains_key(key));
            assert(all.take(i + 1).drop_last() =~= all.take(i as int));
            assert(all.take(i + 1).last() == devices@[key]@);
        }
        if let Some(device) = devices.get(&key) {
            match total.checked_add(device.port_count()) {
                Some(sum) => {
                    total = sum;
                },
                None => {
                    proof {
                        lemma_port_total_grows(all, i + 1);
                    }
                    return None;
                },
            }
        }
        i += 1;
    }
    assert(all.take(i as int) =~= all);
    Some(total)
}

proof fn lemma_port_total_grows(devices: Seq<DeviceView>, n: int)
    requires
        0 <= n <= devices.len(),
    ensures
        port_total(devices.take(n)) <= port_total(devices),
    decreases devices.len(),
{
    if n == devices.len() {
        assert(devices.take(n) =~= devices);
    } else {
        assert(devices.drop_last().take(n) =~= devices.take(n));
        lemma_port_total_grows(devices.drop_last(), n);
    }
}

/// A number below a hundred with two digits.
pub open spec fn two_digits(n: nat) -> Seq<char> {
    if n < 10 {
        "0"@ + crate::text::decimal(n)
    } else {
        crate::text::decimal(n)
    }
}

/// Minutes and seconds.
pub open spec fn clock_text(seconds: u64) -> Seq<char> {
    crate::text::decimal((seconds / 60) as nat) + ":"@ + two_digits((seconds % 60) as nat)
}

/// Minutes and seconds.
pub fn elapsed_text(seconds: u64) -> (result: String)
    ensures
        result@ == clock_text(seconds),
        result@ == crate::text::decimal((seconds / 60) as nat) + ":"@ + two_digits(
            (seconds % 60) as nat,
        ),
{
    let minutes = decimal_text(seconds / 60);
    let rest: u64 = seconds % 60;
    let digits = decimal_text(rest);
    let mut result = concat2(minutes.as_str(), ":");
    if rest < 10 {
        let padded = concat2("0", digits.as_str());
        result.append(padded.as_str());
    } else {
        result.append(digits.as_str());
    }
    result
}

/// The part of the work that is done, as a numerator and a denominator. Before any host was
/// found the work counts as not begun, and without hosts as done once the search is over.
pub open spec fn done_part(progress: Progress) -> (usize, usize) {
    if progress.total > 0 {
        (progress.completed, progress.total)
    } else if progress.discovery_done {
        (1, 1)
    } else {
        (0, 1)
    }
}

/// The part of the work that is done.
pub fn progress_part(progress: Progress) -> (result: (usize, usize))
    ensures
        result == done_part(progress),
        result.1 > 0,
{
    if progress.total > 0 {
        (progress.completed, progress.total)
    } else if progress.discovery_done {
        (1, 1)
    } else {
        (0, 1)
    }
}

/// The part that is done of a consistent scan is never more than the whole.
pub proof fn law_progress_is_at_most_whole(progress: Progress)
    requires
        progress.completed <= progress.total,
    ensures
        done_part(progress).0 <= done_part(progress).1,
        0 < done_part(progress).1,
{
}

/// What the progress bar says.
pub open spec fn progress_line(progress: Progress, active: bool) -> Seq<char> {
    "TCP probes: "@ + crate::text::decimal(progress.completed as nat) + " / "@
        + crate::text::decimal(progress.total as nat) + if progress.discovery_done || !active {
        ""@
    } else {
        " · discovering hosts"@
    }
}

/// What the progress bar says.
pub fn progress_text(progress: Progress, active: bool) -> (result: String)
    ensures
        result@ == progress_line(progress, active),
        result@ == "TCP probes: "@ + crate::text::decimal(progress.completed as nat) + " / "@
            + crate::text::decimal(progress.total as nat) + if progress.discovery_done || !active {
            ""@
        } else {
            " · discovering hosts"@
        },
{
    let completed = decimal_text(progress.completed as u64);
    let total = decimal_text(progress.total as u64);
    let front = concat3("TCP probes: ", completed.as_str(), " / ");
    let tail = if progress.discovery_done || !active {
        ""
    } else {
        " · discovering hosts"
    };
    concat3(front.as_str(), total.as_str(), tail)
}

/// What stands above the table.
pub fn count_text(rows: usize, devices: usize) -> (result: String)
    ensures
        result@ == crate::text::decimal(rows as nat) + " of "@ + crate::text::decimal(
            devices as nat,
        ) + " devices · Right-click a row to copy"@,
{
    let shown = decimal_text(rows as u64);
    let all = decimal_text(devices as u64);
    let front = concat3(shown.as_str(), " of ", all.as_str());
    concat2(front.as_str(), " devices · Right-click a row to copy")
}

// ---------------------------------------------------------------------------------------
// The table.

/// What stands in place of a table without rows: a headline and a line below.
pub open spec fn empty_lines(no_devices: bool, active: bool) -> (Seq<char>, Seq<char>) {
    if no_devices {
        (
            if active {
                "Listening for devices…"@
            } else {
                "No devices discovered"@
            },
            "Choose your LAN subnet and start a scan."@,
        )
    } else {
        ("No matching devices"@, "Try another search or disable the open-port filter."@)
    }
}

/// What stands in place of a table without rows.
pub fn empty_text(no_devices: bool, active: bool) -> (result: (String, String))
    ensures
        (result.0@, result.1@) == empty_lines(no_devices, active),
{
    if no_devices {
        let headline = if active {
            "Listening for devices…".to_string()
        } else {
            "No devices discovered".to_string()
        };
        (headline, "Choose your LAN subnet and start a scan.".to_string())
    } else {
        (
            "No matching devices".to_string(),
            "Try another search or disable the open-port filter.".to_string(),
        )
    }
}

/// What an order of the rows is called.
pub open spec fn sort_name(sort_by: SortBy) -> Seq<char> {
    match sort_by {
        SortBy::Ip => "IP address"@,
        SortBy::Vendor => "Vendor"@,
        SortBy::OpenPorts => "Open port count"@,
    }
}

/// What the columns are called.
pub fn column_titles() -> (result: Vec<String>)
    ensures
        crate::export::texts(result@) == seq![
            "STATUS"@,
            "IP ADDRESS"@,
            "MAC ADDRESS"@,
            "VENDOR"@,
            "OPEN PORTS"@,
        ],
{
    let mut result: Vec<String> = Vec::new();
    result.push("STATUS".to_string());
    result.push("IP ADDRESS".to_string());
    result.push("MAC ADDRESS".to_string());
    result.push("VENDOR".to_string());
    result.push("OPEN PORTS".to_string());
    assert(crate::export::texts(result@) =~= seq![
        "STATUS"@,
        "IP ADDRESS"@,
        "MAC ADDRESS"@,
        "VENDOR"@,
        "OPEN PORTS"@,
    ]);
    result
}

/// The cells of a row: the fields of the device, with a dash where no port is open.
pub open spec fn row_cells(device: DeviceView) -> Seq<Seq<char>> {
    crate::export::device_fields(device).update(
        4,
        if device.open_ports.len() == 0 {
            "—"@
        } else {
            device.open_ports
        },
    )
}

/// The cells of a row.
pub fn cells(device: &Device) -> (result: Vec<String>)
    ensures
        crate::export::texts(result@) == row_cells(device@),
{
    let mut result: Vec<String> = Vec::new();
    result.push(device.status.clone());
    result.push(ipv4_to_text(device.ip_address));
    result.push(device.mac_address.clone());
    result.push(device.vendor.clone());
    if device.open_ports.as_str().is_empty() {
        result.push("—".to_string());
    } else {
        result.push(device.open_ports.clone());
    }
    assert(crate::export::texts(result@) =~= row_cells(device@));
    result
}

/// What can be copied of a row: the texts of the menu, each with what it copies.
pub fn copy_items(device: &Device) -> (result: Vec<(String, String)>)
    ensures
        result@.map_values(|item: (String, String)| (item.0@, item.1@)) == seq![
            ("Copy IP address"@, crate::address::ipv4_text(device.ip_address)),
            ("Copy MAC address"@, device.mac_address@),
            ("Copy open ports"@, device.open_ports@),
        ],
{
    let mut result: Vec<(String, String)> = Vec::new();
    result.push(("Copy IP address".to_string(), ipv4_to_text(device.ip_address)));
    result.push(("Copy MAC address".to_string(), device.mac_address.clone()));
    result.push(("Copy open ports".to_string(), device.open_ports.clone()));
    assert(result@.map_values(|item: (String, String)| (item.0@, item.1@)) =~= seq![
        ("Copy IP address"@, crate::address::ipv4_text(device.ip_address)),
        ("Copy MAC address"@, device.mac_address@),
        ("Copy open ports"@, device.open_ports@),
    ]);
    result
}

/// What an order of the rows is called.
pub fn sort_text(sort_by: SortBy) -> (result: String)
    ensures
        result@ == match sort_by {
            SortBy::Ip => "IP address"@,
            SortBy::Vendor => "Vendor"@,
            SortBy::OpenPorts => "Open port count"@,
        },
        result@ == sort_name(sort_by),
{
    match sort_by {
        SortBy::Ip => "IP address".to_string(),
        SortBy::Vendor => "Vendor".to_string(),
        SortBy::OpenPorts => "Open port count".to_string(),
    }
}

/// What the button of the export says.
pub fn export_label(exporting: bool) -> (result: String)
    ensures
        result@ == if exporting {
            "Exporting…"@
        } else {
            "Export all to CSV"@
        },
{
    if exporting {
        "Exporting…".to_string()
    } else {
        "Export all to CSV".to_string()
    }
}

/// What the header says of the state.
pub fn state_label(active: bool) -> (result: String)
    ensures
        result@ == if active {
            "● SCANNING"@
        } else {
            "● READY"@
        },
{
    if active {
        "● SCANNING".to_string()
    } else {
        "● READY".to_string()
    }
}

// ---------------------------------------------------------------------------------------
// Laws.

/// One more link adds an entry with the name of its interface and its address, unless an earlier
/// link lies over the same interface.
pub proof fn law_first_link_of_an_interface_is_offered(links: Seq<LinkView>, link: LinkView)
    ensures
        choices_of(Seq::empty()).len() == 0,
        (exists|i: int|
            0 <= i < links.len() && (#[trigger] links[i]).interface.name == link.interface.name)
            ==> choices_of(links.push(link)) == choices_of(links),
        (forall|i: int|
            0 <= i < links.len() ==> (#[trigger] links[i]).interface.name != link.interface.name)
            ==> choices_of(links.push(link)) == choices_of(links).push(
            (ChoiceView {
                name: link.interface.name,
                label: link.interface.name + " · "@ + crate::address::ipv4_text(link.address.ip),
            }),
        ),
{
    assert(links.push(link).drop_last() =~= links);
    law_each_interface_is_offered_once(links);
    if exists|i: int|
        0 <= i < links.len() && (#[trigger] links[i]).interface.name == link.interface.name {
        let i = choose|i: int|
            0 <= i < links.len() && (#[trigger] links[i]).interface.name == link.interface.name;
        assert(offers(choices_of(links), links[i].interface.name));
    } else {
        lemma_offered_interface_has_a_link(links, link.interface.name);
    }
}

proof fn lemma_offered_interface_has_a_link(links: Seq<LinkView>, name: Seq<char>)
    ensures
        offers(choices_of(links), name) ==> exists|i: int|
            0 <= i < links.len() && (#[trigger] links[i]).interface.name == name,
    decreases links.len(),
{
    if links.len() > 0 && offers(choices_of(links), name) {
        let shorter = links.drop_last();
        let earlier = choices_of(shorter);
        let all = choices_of(links);
        lemma_offered_interface_has_a_link(shorter, name);
        let k = choose|k: int| 0 <= k < all.len() && #[trigger] all[k].name == name;
        if k < earlier.len() {
            assert(earlier[k].name == name);
            let i = choose|i: int|
                0 <= i < shorter.len() && (#[trigger] shorter[i]).interface.name == name;
            assert(links[i].interface.name == name);
        } else {
            assert(links[links.len() - 1].interface.name == name);
        }
    }
}

/// What is shown of the capture is bad news exactly where it is denied or unavailable, and then
/// the reason stands first below. What is advised depends on the system.
pub proof fn law_capture_is_shown(state: CaptureView, platform: Platform, message: Seq<char>)
    ensures
        capture_lines(state, platform).bad <==> state is Denied || state is Unavailable,
        !capture_lines(state, platform).bad ==> capture_lines(state, platform).details.len() == 0,
        capture_lines(state, platform).headline == match state {
            CaptureView::Ready => "Packet capture ready"@,
            CaptureView::Denied(_) => "Packet capture access denied"@,
            CaptureView::Unavailable(_) => "Packet capture unavailable"@,
            _ => "Checking packet capture…"@,
        },
        capture_lines(CaptureView::Denied(message), Platform::Linux).details == seq![
            message,
            "Grant CAP_NET_RAW to this executable, then close and reopen the app. The GUI can run as your normal user."@,
        ],
        capture_lines(CaptureView::Denied(message), Platform::Windows).details == seq![
            message,
            "Install Npcap with WinPcap compatibility and allow capture access, or run as administrator."@,
        ],
        capture_lines(CaptureView::Denied(message), Platform::Other).details == seq![
            message,
            "Allow access to the BPF capture devices or run with suitable capture privileges."@,
        ],
        capture_lines(CaptureView::Unavailable(message), Platform::Windows).details == seq![
            message,
            "Check the Npcap installation and adapter status."@,
        ],
        platform != Platform::Windows ==> capture_lines(
            CaptureView::Unavailable(message),
            platform,
        ).details == seq![message],
{
}

/// One more device adds its open ports to the total.
pub proof fn law_total_adds_the_ports_of_a_device(devices: Seq<DeviceView>, device: DeviceView)
    ensures
        port_total(Seq::empty()) == 0,
        port_total(devices.push(device)) == port_total(devices) + device.port_count(),
{
    assert(devices.push(device).drop_last() =~= devices);
}

/// The time is shown as minutes, a colon and two digits of seconds, which together are the time.
pub proof fn law_time_reads_back(seconds: u64)
    ensures
        exists|minutes: Seq<char>, rest: Seq<char>|
            {
                &&& clock_text(seconds) == #[trigger] (minutes + seq![':'] + rest)
                &&& rest.len() == 2
                &&& crate::text::parsed_number(
                    minutes,
                    10,
                    u64::MAX as int,
                ) matches Some(m) && crate::text::parsed_number(rest, 10, 59) matches Some(s) && m
                    * 60 + s == seconds
                &&& minutes.len() > 1 ==> minutes[0] != '0'
            },
{
    let minutes = crate::text::decimal((seconds / 60) as nat);
    let s = (seconds % 60) as nat;
    let rest = two_digits(s);
    reveal_strlit(":");
    assert(":"@ =~= seq![':']);
    crate::text::law_decimal_reads_back((seconds / 60) as nat);
    crate::text::law_decimal_is_plain((seconds / 60) as nat);
    assert(crate::text::parsed_number(minutes, 10, u64::MAX as int) == Some((seconds / 60) as int));
    lemma_two_digits(s);
    assert(clock_text(seconds) == minutes + seq![':'] + rest);
}

proof fn lemma_two_digits(n: nat)
    requires
        n < 60,
    ensures
        two_digits(n).len() == 2,
        crate::text::parsed_number(two_digits(n), 10, 59) == Some(n as int),
{
    reveal_strlit("0");
    assert("0"@ =~= seq!['0']);
    reveal_with_fuel(crate::text::decimal, 2);
    let high = crate::text::digit_char((n / 10) as int);
    let low = crate::text::digit_char((n % 10) as int);
    assert(two_digits(n) =~= seq![high, low]);
    assert(crate::text::digit_value(high) == n / 10);
    assert(crate::text::digit_value(low) == n % 10);
    crate::text::law_smallest_numbers(Seq::empty(), high, 10, 59);
    crate::text::law_number_grows_by_a_digit(seq![high], low, 10, 59);
    assert(seq![high].push(low) =~= two_digits(n));
}

/// The part that is done is that of the probes, where there are any to be made. Otherwise it is
/// nothing while hosts are searched for, and then all.
pub proof fn law_done_part(progress: Progress)
    ensures
        progress.total > 0 ==> done_part(progress).0 == progress.completed && done_part(progress).1
            == progress.total,
        progress.total == 0 && progress.discovery_done ==> done_part(progress) == (
            1usize,
            1usize,
        ),
        progress.total == 0 && !progress.discovery_done ==> done_part(progress) == (
            0usize,
            1usize,
        ),
{
}

/// The progress bar counts the probes, and says that hosts are searched for exactly as long as a
/// running scan does so.
pub proof fn law_progress_bar(progress: Progress, active: bool)
    ensures
        ({
            let counts = "TCP probes: "@ + crate::text::decimal(progress.completed as nat) + " / "@
                + crate::text::decimal(progress.total as nat);
            &&& active && !progress.discovery_done ==> progress_line(progress, active) == counts
                + " · discovering hosts"@
            &&& !active || progress.discovery_done ==> progress_line(progress, active) == counts
        }),
{
    reveal_strlit("");
    let counts = "TCP probes: "@ + crate::text::decimal(progress.completed as nat) + " / "@
        + crate::text::decimal(progress.total as nat);
    assert(counts + ""@ =~= counts);
}

/// A table without rows says that nothing matches where there are devices, and otherwise that
/// there is none, or none yet.
pub proof fn law_empty_table(active: bool)
    ensures
        empty_lines(false, active) == (
            "No matching devices"@,
            "Try another search or disable the open-port filter."@,
        ),
        empty_lines(true, true) == (
            "Listening for devices…"@,
            "Choose your LAN subnet and start a scan."@,
        ),
        empty_lines(true, false) == (
            "No devices discovered"@,
            "Choose your LAN subnet and start a scan."@,
        ),
{
}

/// A row shows the status, the address, the hardware address, the vendor and the open ports of
/// its device, with a dash in place of no ports.
pub proof fn law_row_shows_its_device(device: DeviceView)
    ensures
        row_cells(device).len() == 5,
        row_cells(device)[0] == device.status,
        row_cells(device)[1] == crate::address::ipv4_text(device.ip_address),
        row_cells(device)[2] == device.mac_address,
        row_cells(device)[3] == device.vendor,
        device.open_ports.len() > 0 ==> row_cells(device)[4] == device.open_ports,
        device.open_ports.len() == 0 ==> row_cells(device)[4] == "—"@,
{
}

/// The orders of the rows have different names.
pub proof fn law_orders_have_different_names(a: SortBy, b: SortBy)
    ensures
        sort_name(a) == sort_name(b) ==> a == b,
{
    reveal_strlit("IP address");
    reveal_strlit("Vendor");
    reveal_strlit("Open port count");
    assert("IP address"@.len() == 10);
    assert("Vendor"@.len() == 6);
    assert("Open port count"@.len() == 15);
}

} // verus!
