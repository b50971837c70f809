//! What the user has entered and sees, and how it changes.

use std::collections::{BTreeMap, VecDeque};

use vstd::prelude::*;

use crate::address::ipv4;
use crate::capture::{CaptureState, CaptureView};
use crate::device::{Device, DeviceView};
use crate::event::Event;
use crate::export::{export_notice, export_path, export_text};
use crate::link::{choose_link, default_subnet, Link, LinkView};
use crate::network::{parse_subnet, Network};
use crate::ports::parse_ports;
use crate::scan::Progress;
use crate::table::SortBy;
use crate::text::equal_text;

verus! {

/// How many reports of a scan are taken in at a time, so that a busy network cannot hold up the
/// window.
pub const EVENTS_PER_POLL: usize = 1024;

/// The shortest time to wait for an answer of a port that can be chosen, in milliseconds.
pub const TIMEOUT_MIN_MS: u64 = 100;

/// The longest time to wait for an answer of a port that can be chosen, in milliseconds.
pub const TIMEOUT_MAX_MS: u64 = 3000;

/// The smallest number of probes under way at a time that can be chosen.
pub const CONCURRENCY_MIN: usize = 16;

/// The largest number of probes under way at a time that can be chosen.
pub const CONCURRENCY_MAX: usize = 512;

/// How many probes are under way at a time, unless the user chooses otherwise.
pub const TCP_CONCURRENCY: usize = 256;

/// What came out of a channel.
pub enum Polled<T> {
    /// A message.
    Received(T),
    /// No message yet.
    Empty,
    /// No message any more.
    Disconnected,
}

/// The state of the application.
pub struct ScannerApp {
    /// The subnet to scan, as entered.
    pub subnet: String,
    /// The ports to probe, as entered.
    pub ports: String,
    /// The file to export to, as entered.
    pub export_path: String,
    /// The devices that were found, by address.
    pub devices: BTreeMap<u32, Device>,
    /// Whether reports of a scan are awaited.
    pub listening: bool,
    /// Whether a scan is running.
    pub active: bool,
    /// What the scan is doing.
    pub message: String,
    /// What went wrong last.
    pub error: Option<String>,
    /// The links of this machine.
    pub interfaces: Vec<Link>,
    /// The interface that the user chose, if any.
    pub selected_interface: Option<String>,
    /// How long to wait for an answer of a port, in milliseconds.
    pub timeout_ms: u64,
    /// How many probes may be under way at a time.
    pub concurrency: usize,
    /// What the rows are searched for.
    pub search: String,
    /// Whether only devices with open ports are shown.
    pub open_only: bool,
    /// What the rows are ordered by.
    pub sort_by: SortBy,
    /// Whether the order is turned round.
    pub descending: bool,
    /// How far the scan has come.
    pub progress: Progress,
    /// Whether a scan was ever started.
    pub started: bool,
    /// How long the last scan took so far, in seconds.
    pub elapsed_secs: u64,
    /// What went well last.
    pub notice: Option<String>,
    /// Whether the outcome of an export is awaited.
    pub exporting: bool,
    /// Whether packets can be captured.
    pub capture_state: CaptureState,
    /// The interface and the address that the capture was checked for.
    pub capture_key: Option<(String, u32)>,
    /// Whether the outcome of a check of the capture is awaited.
    pub checking: bool,
}

/// The contents of a [`ScannerApp`].
#[verifier::ext_equal]
pub struct AppView {
    pub subnet: Seq<char>,
    pub ports: Seq<char>,
    pub export_path: Seq<char>,
    pub devices: Map<u32, DeviceView>,
    pub listening: bool,
    pub active: bool,
    pub message: Seq<char>,
    pub error: Option<Seq<char>>,
    pub interfaces: Seq<LinkView>,
    pub selected_interface: Option<Seq<char>>,
    pub timeout_ms: u64,
    pub concurrency: usize,
    pub search: Seq<char>,
    pub open_only: bool,
    pub sort_by: SortBy,
    pub descending: bool,
    pub progress: Progress,
    pub started: bool,
    pub elapsed_secs: u64,
    pub notice: Option<Seq<char>>,
    pub exporting: bool,
    pub capture_state: CaptureView,
    pub capture_key: Option<(Seq<char>, u32)>,
    pub checking: bool,
}

/// The contents of an optional text.
pub open spec fn optional(text: Option<String>) -> Option<Seq<char>> {
    match text {
        Some(text) => Some(text@),
        None => None,
    }
}

/// The contents of an optional key.
pub open spec fn key_view(key: Option<(String, u32)>) -> Option<(Seq<char>, u32)> {
    match key {
        Some((name, ip)) => Some((name@, ip)),
        None => None,
    }
}

impl View for ScannerApp {
    type V = AppView;

    open spec fn view(&self) -> AppView {
        AppView {
            subnet: self.subnet@,
            ports: self.ports@,
            export_path: self.export_path@,
            devices: crate::table::device_views(self.devices@),
            listening: self.listening,
            active: self.active,
            message: self.message@,
            error: optional(self.error),
            interfaces: crate::link::link_views(self.interfaces@),
            selected_interface: optional(self.selected_interface),
            timeout_ms: self.timeout_ms,
            concurrency: self.concurrency,
            search: self.search@,
            open_only: self.open_only,
            sort_by: self.sort_by,
            descending: self.descending,
            progress: self.progress,
            started: self.started,
            elapsed_secs: self.elapsed_secs,
            notice: optional(self.notice),
            exporting: self.exporting,
            capture_state: self.capture_state@,
            capture_key: key_view(self.capture_key),
            checking: self.checking,
        }
    }
}

/// The start of a scan: what is to be scanned, over what, and how.
pub struct Job {
    pub network: Network,
    pub link: Link,
    pub ports: Vec<u16>,
    pub timeout_ms: u64,
    pub concurrency: usize,
}

/// An export: the file to create, what to write to it, and what to say afterwards.
pub struct ExportJob {
    pub target: String,
    pub contents: String,
    pub notice: String,
}

/// Lists of ports that are often wanted.
#[derive(Clone, Copy, Debug, PartialEq, Eq, Structural)]
pub enum Preset {
    Common,
    Web,
    ArpOnly,
}

/// The first link over the interface of the given name.
pub open spec fn first_named(links: Seq<LinkView>, name: Seq<char>) -> Option<LinkView>
    decreases links.len(),
{
    if links.len() == 0 {
        None
    } else if links[0].interface.name == name {
        Some(links[0])
    } else {
        first_named(links.drop_first(), name)
    }
}

/// The subnet that is proposed for a link.
pub open spec fn proposed_subnet(link: LinkView) -> Seq<char> {
    let network = crate::link::default_network(link.address);
    crate::network::cidr_text(network.ip, network.prefix)
}

/// The link that a scan of a network goes over, or why there is none: the network was refused,
/// or no link leads to it.
pub open spec fn link_or_reason(
    network: Result<Network, Seq<char>>,
    available: Seq<LinkView>,
    selected: Option<Seq<char>>,
) -> Result<LinkView, Seq<char>> {
    match network {
        Err(message) => Err(message),
        Ok(network) => match crate::link::chosen_link(available, network, selected) {
            Some(link) => Ok(link),
            None => Err(crate::link::no_link_text()),
        },
    }
}

impl AppView {
    /// What holds of the application at any time: the addresses of the links are valid, every
    /// device is kept under its own address, and the settings stay within their bounds.
    pub open spec fn wf(self) -> bool {
        &&& crate::link::valid_links(self.interfaces)
        &&& crate::table::by_address(self.devices)
        &&& self.settings_in_bounds()
    }

    /// Whether the settings are ones that can be chosen.
    pub open spec fn settings_in_bounds(self) -> bool {
        &&& TIMEOUT_MIN_MS <= self.timeout_ms <= TIMEOUT_MAX_MS
        &&& CONCURRENCY_MIN <= self.concurrency <= CONCURRENCY_MAX
    }

    /// The application when it starts.
    pub open spec fn initial(interfaces: Seq<LinkView>) -> AppView {
        AppView {
            subnet: if interfaces.len() > 0 {
                proposed_subnet(interfaces[0])
            } else {
                "192.168.1.0/24"@
            },
            ports: "22, 80, 443"@,
            export_path: "scan-results.csv"@,
            devices: Map::empty(),
            listening: false,
            active: false,
            message: "Ready"@,
            error: None,
            interfaces,
            selected_interface: None,
            timeout_ms: 700,
            concurrency: TCP_CONCURRENCY,
            search: Seq::empty(),
            open_only: false,
            sort_by: SortBy::Ip,
            descending: false,
            progress: (Progress { completed: 0, total: 0, discovery_done: false }),
            started: false,
            elapsed_secs: 0,
            notice: None,
            exporting: false,
            capture_state: CaptureView::Unchecked,
            capture_key: None,
            checking: false,
        }
    }

    /// The link that a scan of the given network goes over, or why there is none.
    pub open spec fn link_for(
        self,
        network: Result<Network, Seq<char>>,
        available: Seq<LinkView>,
    ) -> Result<LinkView, Seq<char>> {
        link_or_reason(network, available, self.selected_interface)
    }

    /// The link whose capture is to be checked: the one that a scan would go over, if it was
    /// not checked last, and if no scan is running.
    pub open spec fn to_check(self, network: Result<Network, Seq<char>>) -> Option<LinkView> {
        match self.link_for(network, self.interfaces) {
            Ok(link) => if self.active || self.capture_key == Some(
                (link.interface.name, link.address.ip),
            ) {
                None
            } else {
                Some(link)
            },
            Err(_) => None,
        }
    }

    /// The application after it made sure that the right capture is checked.
    pub open spec fn capture_refreshed(self, network: Result<Network, Seq<char>>) -> AppView {
        if self.active {
            self
        } else {
            match self.link_for(network, self.interfaces) {
                Err(message) => AppView {
                    capture_key: None,
                    checking: false,
                    capture_state: CaptureView::Unavailable(message),
                    ..self
                },
                Ok(link) => match self.to_check(network) {
                    None => self,
                    Some(_) => AppView {
                        capture_key: Some((link.interface.name, link.address.ip)),
                        checking: true,
                        capture_state: CaptureView::Checking,
                        ..self
                    },
                },
            }
        }
    }

    /// Why a scan cannot be started: the subnet, the ports and the interface are looked at in
    /// this order.
    pub open spec fn start_error(
        self,
        network: Result<Network, Seq<char>>,
        available: Seq<LinkView>,
    ) -> Option<Seq<char>> {
        match network {
            Err(message) => Some(message),
            Ok(_) => match crate::ports::ports_of(self.ports) {
                Err(message) => Some(message),
                Ok(_) => match self.link_for(network, available) {
                    Err(message) => Some(message),
                    Ok(_) => None,
                },
            },
        }
    }

    /// The application after a scan was started over a link: what an earlier scan or check
    /// left behind is gone.
    pub open spec fn scan_started(self, link: LinkView) -> AppView {
        AppView {
            capture_key: Some((link.interface.name, link.address.ip)),
            checking: false,
            capture_state: CaptureView::Checking,
            listening: true,
            devices: Map::empty(),
            progress: (Progress { completed: 0, total: 0, discovery_done: false }),
            started: true,
            elapsed_secs: 0,
            notice: None,
            active: true,
            error: None,
            message: "Opening ARP interface…"@,
            ..self
        }
    }

    /// The application after it looked for the outcome of a check of the capture.
    pub open spec fn capture_polled(self, polled: Polled<CaptureState>) -> AppView {
        if !self.checking {
            self
        } else {
            match polled {
                Polled::Received(state) => AppView {
                    capture_state: state@,
                    checking: false,
                    ..self
                },
                Polled::Disconnected => AppView {
                    capture_state: CaptureView::Unavailable(
                        "Capture check failed unexpectedly. Retry the check."@,
                    ),
                    checking: false,
                    ..self
                },
                Polled::Empty => self,
            }
        }
    }

    /// The application after it looked for the outcome of an export.
    pub open spec fn export_polled(self, polled: Polled<Result<String, String>>) -> AppView {
        if !self.exporting {
            self
        } else {
            match polled {
                Polled::Received(Ok(notice)) => AppView {
                    notice: Some(notice@),
                    exporting: false,
                    ..self
                },
                Polled::Received(Err(error)) => AppView {
                    error: Some(error@),
                    exporting: false,
                    ..self
                },
                Polled::Disconnected => AppView {
                    error: Some("CSV export worker disconnected."@),
                    exporting: false,
                    ..self
                },
                Polled::Empty => self,
            }
        }
    }

    /// The application after it looked at the clock.
    pub open spec fn clock_read(self, elapsed_secs: u64) -> AppView {
        if self.active && self.started {
            AppView { elapsed_secs, ..self }
        } else {
            self
        }
    }

    /// The application after a report of the scan.
    pub open spec fn event_taken(self, polled: Polled<Event>, cancelled: bool) -> AppView {
        match polled {
            Polled::Received(Event::Device(device)) => AppView {
                devices: self.devices.insert(device.ip_address, device@),
                ..self
            },
            Polled::Received(Event::Status(message)) => AppView { message: message@, ..self },
            Polled::Received(Event::Progress(progress)) => AppView { progress, ..self },
            Polled::Received(Event::Capture(state)) => AppView { capture_state: state@, ..self },
            Polled::Received(Event::Finished(Ok(_))) => AppView {
                active: false,
                message: if cancelled {
                    "Scan cancelled"@
                } else {
                    "Scan complete"@
                },
                ..self
            },
            Polled::Received(Event::Finished(Err(error))) => AppView {
                active: false,
                message: "Scan failed"@,
                error: Some(error@),
                ..self
            },
            Polled::Empty => self,
            Polled::Disconnected => if self.active {
                AppView {
                    active: false,
                    error: Some("Scan worker disconnected unexpectedly."@),
                    ..self
                }
            } else {
                self
            },
        }
    }

    /// The application after it took in the reports that wait in a channel, in their order: no
    /// more than `budget` of them, and none behind the end of the scan. Where fewer wait, it
    /// sees whether the channel is still connected.
    pub open spec fn events_taken(
        self,
        waiting: Seq<Event>,
        connected: bool,
        cancelled: bool,
        budget: nat,
    ) -> AppView
        decreases budget,
    {
        if budget == 0 {
            self
        } else if waiting.len() == 0 {
            if connected {
                self.event_taken(Polled::Empty, cancelled)
            } else {
                self.event_taken(Polled::Disconnected, cancelled)
            }
        } else {
            let next = self.event_taken(Polled::Received(waiting[0]), cancelled);
            if waiting[0] is Finished {
                next
            } else {
                next.events_taken(
                    waiting.drop_first(),
                    connected,
                    cancelled,
                    (budget - 1) as nat,
                )
            }
        }
    }

    /// The application after it looked for reports of the scan: once the scan is over none
    /// are awaited.
    pub open spec fn scan_polled(
        self,
        waiting: Seq<Event>,
        connected: bool,
        cancelled: bool,
    ) -> AppView {
        if !self.listening {
            self
        } else {
            let next = self.events_taken(waiting, connected, cancelled, EVENTS_PER_POLL as nat);
            AppView { listening: next.active, ..next }
        }
    }

    /// The reports that wait in the channel after the application looked for them.
    pub open spec fn left_waiting(self, waiting: Seq<Event>) -> Seq<Event> {
        if self.listening {
            waiting.skip(taken(waiting, EVENTS_PER_POLL as nat) as int)
        } else {
            waiting
        }
    }

    /// The application after the user chose another interface than before: the subnet that is
    /// proposed for it takes the place of the one entered.
    pub open spec fn interface_selected(self, previous: Option<Seq<char>>) -> AppView {
        if previous == self.selected_interface {
            self
        } else {
            match self.selected_interface {
                None => self,
                Some(name) => match first_named(self.interfaces, name) {
                    None => self,
                    Some(link) => AppView { subnet: proposed_subnet(link), ..self },
                },
            }
        }
    }

    /// The application after the user chose a time to wait for an answer of a port.
    pub open spec fn timeout_set(self, timeout_ms: u64) -> AppView {
        AppView {
            timeout_ms: if timeout_ms < TIMEOUT_MIN_MS {
                TIMEOUT_MIN_MS
            } else if timeout_ms > TIMEOUT_MAX_MS {
                TIMEOUT_MAX_MS
            } else {
                timeout_ms
            },
            ..self
        }
    }

    /// The application after the user chose how many probes may be under way at a time.
    pub open spec fn concurrency_set(self, concurrency: usize) -> AppView {
        AppView {
            concurrency: if concurrency < CONCURRENCY_MIN {
                CONCURRENCY_MIN
            } else if concurrency > CONCURRENCY_MAX {
                CONCURRENCY_MAX
            } else {
                concurrency
            },
            ..self
        }
    }

    /// Whether the user may stop the scan.
    pub open spec fn can_stop(self, cancelled: bool) -> bool {
        self.active && !cancelled
    }

    /// Whether the user may have the capture checked again.
    pub open spec fn can_recheck(self) -> bool {
        !self.active && !self.checking
    }

    /// Whether the progress of a scan is shown.
    pub open spec fn shows_progress(self) -> bool {
        self.active || self.started
    }

    /// Whether something is awaited.
    pub open spec fn awaits_something(self) -> bool {
        self.active || self.exporting || self.checking
    }

    /// Whether an export may begin.
    pub open spec fn can_export(self) -> bool {
        self.devices.dom().len() > 0 && !self.exporting
    }
}

/// How many of the reports that wait are taken in with a budget: the end of the scan is the last.
pub open spec fn taken(waiting: Seq<Event>, budget: nat) -> nat
    decreases budget,
{
    if budget == 0 || waiting.len() == 0 {
        0
    } else if waiting[0] is Finished {
        1
    } else {
        1 + taken(waiting.drop_first(), (budget - 1) as nat)
    }
}

/// Whether no more reports are to be taken in after this one.
pub open spec fn is_last(polled: Polled<Event>) -> bool {
    match polled {
        Polled::Received(event) => event is Finished,
        _ => true,
    }
}

/// The ports of a preset.
pub open spec fn preset_text(preset: Preset) -> Seq<char> {
    match preset {
        Preset::Common => "22, 53, 80, 139, 443, 445, 3389, 8080"@,
        Preset::Web => "80, 443, 8000, 8080, 8443"@,
        Preset::ArpOnly => Seq::empty(),
    }
}

/// Whether a job is a scan of the network over the link, with what the user entered.
pub open spec fn right_job(job: Job, app: AppView, network: Network, link: LinkView) -> bool {
    &&& job.network == network
    &&& job.link@ == link
    &&& crate::ports::ports_of(app.ports) is Ok
    &&& crate::ports::ascending_ports(job.ports@)
    &&& job.ports@.to_set() == crate::ports::ports_of(app.ports)->Ok_0
    &&& job.timeout_ms == app.timeout_ms
    &&& job.concurrency == app.concurrency
}

/// The contents of the outcome of reading the subnet.
pub open spec fn network_view(network: Result<Network, String>) -> Result<Network, Seq<char>> {
    match network {
        Ok(network) => Ok(network),
        Err(message) => Err(message@),
    }
}

/// Copies a list of links.
fn copy_links(links: &Vec<Link>) -> (result: Vec<Link>)
    ensures
        crate::link::link_views(result@) == crate::link::link_views(links@),
{
    let ghost views = crate::link::link_views(links@);
    let mut result: Vec<Link> = Vec::new();
    let mut i: usize = 0;
    assert(crate::link::link_views(result@) =~= views.take(0));
    while i < links.len()
        invariant
            0 <= i <= links.len(),
            views == crate::link::link_views(links@),
            crate::link::link_views(result@) == views.take(i as int),
        decreases links.len() - i,
    {
        let ghost before = result@;
        let link = links[i].clone();
        result.push(link);
        assert(crate::link::link_views(result@) =~= crate::link::link_views(before).push(link@));
        assert(views.take(i + 1) =~= views.take(i as int).push(views[i as int]));
        i += 1;
    }
    assert(views.take(i as int) =~= views);
    result
}

/// Chooses the link for a network that may have been refused.
fn link_for(
    network: Result<Network, String>,
    available: Vec<Link>,
    selected: &Option<String>,
) -> (result: Result<Link, String>)
    requires
        network matches Ok(network) ==> network.wf(),
        crate::link::valid_links(crate::link::link_views(available@)),
    ensures
        match link_or_reason(
            network_view(network),
            crate::link::link_views(available@),
            optional(*selected),
        ) {
            Ok(link) => result is Ok && result->Ok_0@ == link,
            Err(message) => result is Err && result->Err_0@ == message,
        },
        result matches Ok(link) ==> link.address.wf(),
{
    match network {
        Err(message) => Err(message),
        Ok(network) => match selected {
            Some(name) => choose_link(network, available, Some(name.as_str())),
            None => choose_link(network, available, None),
        },
    }
}

/// The network that is proposed where there is no interface is a whole one, and its text is the
/// usual one.
proof fn lemma_fallback_subnet()
    ensures
        ({
            let network = Network {
                ip: crate::address::ipv4_number(192, 168, 1, 0),
                prefix: 24,
            };
            &&& network.lowest() == network.ip
            &&& crate::network::cidr_text(network.ip, network.prefix) == "192.168.1.0/24"@
        }),
{
    let ip = crate::address::ipv4_number(192, 168, 1, 0);
    assert(ip == 0xC0A8_0100);
    vstd::arithmetic::power2::lemma2_to64();
    assert(crate::network::block_size(24) == 256);
    assert(0xC0A8_0100int % 256 == 0);
    assert(ip as int % crate::network::block_size(24) == 0);
    reveal_strlit("192.168.1.0/24");
    reveal_strlit(".");
    reveal_strlit("/");
    reveal_with_fuel(crate::text::decimal, 3);
    assert(crate::text::decimal(192) =~= seq!['1', '9', '2']);
    assert(crate::text::decimal(168) =~= seq!['1', '6', '8']);
    assert(crate::text::decimal(1) =~= seq!['1']);
    assert(crate::text::decimal(0) =~= seq!['0']);
    assert(crate::text::decimal(24) =~= seq!['2', '4']);
    assert(crate::network::cidr_text(ip, 24) =~= "192.168.1.0/24"@);
}

impl ScannerApp {
    /// The application when it starts.
    pub fn new(interfaces: Vec<Link>) -> (result: ScannerApp)
        requires
            crate::link::valid_links(crate::link::link_views(interfaces@)),
        ensures
            result@ == AppView::initial(crate::link::link_views(interfaces@)),
            result@.wf(),
            crate::network::subnet_of(result@.subnet) is Ok,
    {
        let subnet = if interfaces.len() > 0 {
            assert(crate::link::link_views(interfaces@)[0].address.wf());
            default_subnet(&interfaces[0])
        } else {
            let network = Network { ip: ipv4(192, 168, 1, 0), prefix: 24 };
            proof {
                lemma_fallback_subnet();
            }
            network.to_text()
        };
        let result = ScannerApp {
            subnet,
            ports: "22, 80, 443".to_string(),
            export_path: "scan-results.csv".to_string(),
            devices: BTreeMap::new(),
            listening: false,
            active: false,
            message: "Ready".to_string(),
            error: None,
            interfaces,
            selected_interface: None,
            timeout_ms: 700,
            concurrency: TCP_CONCURRENCY,
            search: String::new(),
            open_only: false,
            sort_by: SortBy::default(),
            descending: false,
            progress: Progress::default(),
            started: false,
            elapsed_secs: 0,
            notice: None,
            exporting: false,
            capture_state: CaptureState::Unchecked,
            capture_key: None,
            checking: false,
        };
        proof {
            assert(result@.devices =~= Map::empty());
            assert(result@ =~= AppView::initial(crate::link::link_views(interfaces@)));
        }
        result
    }

    /// Makes sure that the capture of the link for a network is checked, and returns the link
    /// whose check is to begin.
    pub fn refresh_capture_for(&mut self, network: Result<Network, String>) -> (result: Option<Link>)
        requires
            old(self)@.wf(),
            network matches Ok(network) ==> network.wf(),
        ensures
            final(self)@ == old(self)@.capture_refreshed(network_view(network)),
            final(self)@.wf(),
            match old(self)@.to_check(network_view(network)) {
                None => result is None,
                Some(link) => result is Some && result->0@ == link,
            },
    {
        if self.active {
            assert(self@.to_check(network_view(network)) is None);
            return None;
        }
        let available = copy_links(&self.interfaces);
        match link_for(network, available, &self.selected_interface) {
            Err(message) => {
                self.capture_key = None;
                self.checking = false;
                self.capture_state = CaptureState::Unavailable(message);
                None
            },
            Ok(link) => {
                let same = match &self.capture_key {
                    Some((name, ip)) => *ip == link.address.ip && equal_text(
                        name.as_str(),
                        link.interface.name.as_str(),
                    ),
                    None => false,
                };
                if same {
                    return None;
                }
                self.capture_key = Some((link.interface.name.clone(), link.address.ip));
                self.capture_state = CaptureState::Checking;
                self.checking = true;
                Some(link)
            },
        }
    }

    /// Makes sure that the capture of the link for the subnet entered is checked.
    pub fn refresh_capture(&mut self) -> (result: Option<Link>)
        requires
            old(self)@.wf(),
        ensures
            final(self)@ == old(self)@.capture_refreshed(
                crate::network::subnet_of(old(self)@.subnet),
            ),
            final(self)@.wf(),
            match old(self)@.to_check(crate::network::subnet_of(old(self)@.subnet)) {
                None => result is None,
                Some(link) => result is Some && result->0@ == link,
            },
    {
        let network = parse_subnet(self.subnet.as_str());
        self.refresh_capture_for(network)
    }

    /// Starts a scan of a network over one of the links, or says why not.
    pub fn start_on(&mut self, network: Result<Network, String>, available: Vec<Link>) -> (result:
        Result<Job, String>)
        requires
            old(self)@.wf(),
            crate::link::valid_links(crate::link::link_views(available@)),
            network matches Ok(network) ==> network.wf(),
        ensures
            final(self)@.wf(),
            match old(self)@.start_error(
                network_view(network),
                crate::link::link_views(available@),
            ) {
                Some(message) => {
                    &&& result is Err
                    &&& result->Err_0@ == message
                    &&& final(self)@ == old(self)@
                },
                None => {
                    let link = old(self)@.link_for(
                        network_view(network),
                        crate::link::link_views(available@),
                    )->Ok_0;
                    &&& result is Ok
                    &&& right_job(result->Ok_0, old(self)@, network->Ok_0, link)
                    &&& result->Ok_0.network.wf()
                    &&& result->Ok_0.link.address.wf()
                    &&& final(self)@ == old(self)@.scan_started(link)
                },
            },
    {
        let subnet = match network {
            Ok(subnet) => subnet,
            Err(message) => {
                return Err(message);
            },
        };
        let ports = match parse_ports(self.ports.as_str()) {
            Ok(ports) => ports,
            Err(message) => {
                return Err(message);
            },
        };
        let link = match link_for(Ok(subnet), available, &self.selected_interface) {
            Ok(link) => link,
            Err(message) => {
                return Err(message);
            },
        };
        self.capture_key = Some((link.interface.name.clone(), link.address.ip));
        self.checking = false;
        self.capture_state = CaptureState::Checking;
        self.listening = true;
        self.devices = BTreeMap::new();
        self.progress = Progress::default();
        self.started = true;
        self.elapsed_secs = 0;
        self.notice = None;
        self.active = true;
        self.error = None;
        self.message = "Opening ARP interface…".to_string();
        proof {
            assert(self@.devices =~= Map::empty());
        }
        Ok(
            Job {
                network: subnet,
                link,
                ports,
                timeout_ms: self.timeout_ms,
                concurrency: self.concurrency,
            },
        )
    }

    /// Starts a scan with what the user entered, or says why not.
    pub fn start(&mut self, available: Vec<Link>) -> (result: Result<Job, String>)
        requires
            old(self)@.wf(),
            crate::link::valid_links(crate::link::link_views(available@)),
        ensures
            final(self)@.wf(),
            match old(self)@.start_error(
                crate::network::subnet_of(old(self)@.subnet),
                crate::link::link_views(available@),
            ) {
                Some(message) => {
                    &&& result is Err
                    &&& result->Err_0@ == message
                    &&& final(self)@ == old(self)@
                },
                None => {
                    let network = crate::network::subnet_of(old(self)@.subnet);
                    let link = old(self)@.link_for(
                        network,
                        crate::link::link_views(available@),
                    )->Ok_0;
                    &&& result is Ok
                    &&& right_job(result->Ok_0, old(self)@, network->Ok_0, link)
                    &&& result->Ok_0.network.wf()
                    &&& result->Ok_0.link.address.wf()
                    &&& final(self)@ == old(self)@.scan_started(link)
                },
            },
    {
        let network = parse_subnet(self.subnet.as_str());
        self.start_on(network, available)
    }

    /// Starts a scan because the user asked for it. Where it cannot be started, the reason is
    /// shown.
    pub fn start_or_tell(&mut self, available: Vec<Link>) -> (result: Option<Job>)
        requires
            old(self)@.wf(),
            crate::link::valid_links(crate::link::link_views(available@)),
        ensures
            final(self)@.wf(),
            match old(self)@.start_error(
                crate::network::subnet_of(old(self)@.subnet),
                crate::link::link_views(available@),
            ) {
                Some(message) => {
                    &&& result is None
                    &&& final(self)@ == (AppView { error: Some(message), ..old(self)@ })
                    &&& final(self)@ == old(self)@.controlled(Control::StartInVain(message))
                },
                None => {
                    let network = crate::network::subnet_of(old(self)@.subnet);
                    let link = old(self)@.link_for(
                        network,
                        crate::link::link_views(available@),
                    )->Ok_0;
                    &&& result is Some
                    &&& right_job(result->0, old(self)@, network->Ok_0, link)
                    &&& result->0.network.wf()
                    &&& result->0.link.address.wf()
                    &&& final(self)@ == old(self)@.scan_started(link)
                },
            },
    {
        match self.start(available) {
            Ok(job) => Some(job),
            Err(error) => {
                self.error = Some(error);
                None
            },
        }
    }

    /// Takes in the outcome of a check of the capture.
    pub fn poll_capture(&mut self, polled: Polled<CaptureState>)
        requires
            old(self)@.wf(),
        ensures
            final(self)@ == old(self)@.capture_polled(polled),
            final(self)@.wf(),
    {
        if self.checking {
            match polled {
                Polled::Received(state) => {
                    self.capture_state = state;
                    self.checking = false;
                },
                Polled::Disconnected => {
                    self.capture_state = CaptureState::Unavailable(
                        "Capture check failed unexpectedly. Retry the check.".to_string(),
                    );
                    self.checking = false;
                },
                Polled::Empty => {},
            }
        }
    }

    /// Takes in the outcome of an export.
    pub fn poll_export(&mut self, polled: Polled<Result<String, String>>)
        requires
            old(self)@.wf(),
        ensures
            final(self)@ == old(self)@.export_polled(polled),
            final(self)@.wf(),
    {
        if self.exporting {
            match polled {
                Polled::Received(Ok(notice)) => {
                    self.notice = Some(notice);
                    self.exporting = false;
                },
                Polled::Received(Err(error)) => {
                    self.error = Some(error);
                    self.exporting = false;
                },
                Polled::Disconnected => {
                    self.error = Some("CSV export worker disconnected.".to_string());
                    self.exporting = false;
                },
                Polled::Empty => {},
            }
        }
    }

    /// Takes in the time since the scan was started.
    pub fn read_clock(&mut self, elapsed_secs: u64)
        requires
            old(self)@.wf(),
        ensures
            final(self)@ == old(self)@.clock_read(elapsed_secs),
            final(self)@.wf(),
    {
        if self.active && self.started {
            self.elapsed_secs = elapsed_secs;
        }
    }

    /// Takes in one report of the scan, and says whether more may follow.
    pub fn take_event(&mut self, polled: Polled<Event>, cancelled: bool) -> (result: bool)
        requires
            old(self)@.wf(),
        ensures
            final(self)@ == old(self)@.event_taken(polled, cancelled),
            final(self)@.wf(),
            result == !is_last(polled),
    {
        match polled {
            Polled::Received(event) => match event {
                Event::Device(device) => {
                    let ip: u32 = device.ip_address;
                    self.devices.insert(ip, device);
                    proof {
                        assert(self@.devices =~= old(self)@.devices.insert(ip, device@));
                    }
                    true
                },
                Event::Status(message) => {
                    self.message = message;
                    true
                },
                Event::Progress(progress) => {
                    self.progress = progress;
                    true
                },
                Event::Capture(state) => {
                    self.capture_state = state;
                    true
                },
                Event::Finished(result) => {
                    self.active = false;
                    match result {
                        Ok(()) => {
                            self.message = if cancelled {
                                "Scan cancelled".to_string()
                            } else {
                                "Scan complete".to_string()
                            };
                        },
                        Err(error) => {
                            self.message = "Scan failed".to_string();
                            self.error = Some(error);
                        },
                    }
                    false
                },
            },
            Polled::Empty => false,
            Polled::Disconnected => {
                if self.active {
                    self.active = false;
                    self.error = Some("Scan worker disconnected unexpectedly.".to_string());
                }
                false
            },
        }
    }

    /// Takes in reports of the scan from the front of those that wait in the channel, and leaves
    /// the others there. `connected` says whether more may still come.
    pub fn poll_scan(&mut self, waiting: &mut VecDeque<Event>, connected: bool, cancelled: bool)
        requires
            old(self)@.wf(),
        ensures
            final(self)@ == old(self)@.scan_polled(old(waiting)@, connected, cancelled),
            final(waiting)@ == old(self)@.left_waiting(old(waiting)@),
            final(self)@.wf(),
    {
        if !self.listening {
            return ;
        }
        let ghost all = waiting@;
        let ghost limit = EVENTS_PER_POLL as nat;
        let mut budget: usize = EVENTS_PER_POLL;
        let mut count: usize = 0;
        assert(all.skip(0) =~= all);
        while budget > 0
            invariant
                self@.wf(),
                self@.listening,
                budget + count <= EVENTS_PER_POLL,
                limit == EVENTS_PER_POLL as nat,
                waiting@ == all.skip(count as int),
                count <= all.len(),
                old(self)@.events_taken(all, connected, cancelled, limit) == self@.events_taken(
                    waiting@,
                    connected,
                    cancelled,
                    budget as nat,
                ),
                taken(all, limit) == count + taken(waiting@, budget as nat),
            decreases budget,
        {
            let ghost rest = waiting@;
            match waiting.pop_front() {
                Some(event) => {
                    proof {
                        assert(waiting@ =~= rest.drop_first());
                        assert(rest.drop_first() =~= all.skip(count + 1));
                    }
                    count += 1;
                    if self.take_event(Polled::Received(event), cancelled) {
                        budget -= 1;
                    } else {
                        budget = 0;
                    }
                },
                None => {
                    assert(waiting@ =~= rest);
                    if connected {
                        self.take_event(Polled::Empty, cancelled);
                    } else {
                        self.take_event(Polled::Disconnected, cancelled);
                    }
                    budget = 0;
                },
            }
        }
        if !self.active {
            self.listening = false;
        }
    }

    /// Takes in what has happened since the last time: the outcome of a check and of an export,
    /// the time since the scan was started, and reports of the scan.
    pub fn poll(
        &mut self,
        capture: Polled<CaptureState>,
        export: Polled<Result<String, String>>,
        elapsed_secs: u64,
        waiting: &mut VecDeque<Event>,
        connected: bool,
        cancelled: bool,
    )
        requires
            old(self)@.wf(),
        ensures
            final(self)@ == old(self)@.capture_polled(capture).export_polled(export).clock_read(
                elapsed_secs,
            ).scan_polled(old(waiting)@, connected, cancelled),
            final(waiting)@ == old(self)@.left_waiting(old(waiting)@),
            final(self)@.wf(),
    {
        self.poll_capture(capture);
        self.poll_export(export);
        self.read_clock(elapsed_secs);
        self.poll_scan(waiting, connected, cancelled);
    }

    /// Sets how long to wait for an answer of a port; a time out of bounds becomes the nearest
    /// that can be chosen.
    pub fn set_timeout(&mut self, timeout_ms: u64)
        requires
            old(self)@.wf(),
        ensures
            final(self)@ == old(self)@.timeout_set(timeout_ms),
            final(self)@ == old(self)@.controlled(Control::SetTimeout(timeout_ms)),
            final(self)@.wf(),
    {
        self.timeout_ms = if timeout_ms < TIMEOUT_MIN_MS {
            TIMEOUT_MIN_MS
        } else if timeout_ms > TIMEOUT_MAX_MS {
            TIMEOUT_MAX_MS
        } else {
            timeout_ms
        };
    }

    /// Sets how many probes may be under way at a time; a number out of bounds becomes the
    /// nearest that can be chosen.
    pub fn set_concurrency(&mut self, concurrency: usize)
        requires
            old(self)@.wf(),
        ensures
            final(self)@ == old(self)@.concurrency_set(concurrency),
            final(self)@ == old(self)@.controlled(Control::SetConcurrency(concurrency)),
            final(self)@.wf(),
    {
        self.concurrency = if concurrency < CONCURRENCY_MIN {
            CONCURRENCY_MIN
        } else if concurrency > CONCURRENCY_MAX {
            CONCURRENCY_MAX
        } else {
            concurrency
        };
    }

    /// Notes that the user stopped the scan.
    pub fn stop(&mut self)
        requires
            old(self)@.wf(),
        ensures
            final(self)@ == (AppView { message: "Cancelling…"@, ..old(self)@ }),
            final(self)@ == old(self)@.controlled(Control::Stop),
            final(self)@.wf(),
    {
        self.message = "Cancelling…".to_string();
    }

    /// Takes in the links of this machine anew, so that the capture is checked again.
    pub fn refresh_interfaces(&mut self, interfaces: Vec<Link>)
        requires
            old(self)@.wf(),
            crate::link::valid_links(crate::link::link_views(interfaces@)),
        ensures
            final(self)@ == (AppView {
                interfaces: crate::link::link_views(interfaces@),
                capture_key: None,
                ..old(self)@
            }),
            final(self)@ == old(self)@.controlled(
                Control::RefreshInterfaces(crate::link::link_views(interfaces@)),
            ),
            final(self)@.wf(),
    {
        self.interfaces = interfaces;
        self.capture_key = None;
    }

    /// Proposes a subnet after the user chose an interface; `previous` is the earlier choice.
    pub fn select_interface(&mut self, previous: &Option<String>)
        requires
            old(self)@.wf(),
        ensures
            final(self)@ == old(self)@.interface_selected(optional(*previous)),
            final(self)@.wf(),
    {
        let name = match &self.selected_interface {
            Some(name) => name.clone(),
            None => {
                return ;
            },
        };
        let same = match previous {
            Some(earlier) => equal_text(earlier.as_str(), name.as_str()),
            None => false,
        };
        if same {
            return ;
        }
        let ghost views = self@.interfaces;
        let mut i: usize = 0;
        assert(views.skip(0) =~= views);
        while i < self.interfaces.len()
            invariant
                0 <= i <= self.interfaces.len(),
                self@ == old(self)@,
                self@.wf(),
                views == self@.interfaces,
                optional(*previous) != self@.selected_interface,
                self@.selected_interface == Some(name@),
                first_named(views, name@) == first_named(views.skip(i as int), name@),
            decreases self.interfaces.len() - i,
        {
            assert(views.skip(i as int)[0] == self.interfaces@[i as int]@);
            if equal_text(self.interfaces[i].interface.name.as_str(), name.as_str()) {
                assert(views[i as int].address.wf());
                self.subnet = default_subnet(&self.interfaces[i]);
                return ;
            }
            assert(views.skip(i as int).drop_first() =~= views.skip(i + 1));
            i += 1;
        }
        assert(views.skip(i as int) =~= Seq::empty());
    }

    /// Enters the ports of a preset.
    pub fn choose_preset(&mut self, preset: Preset)
        requires
            old(self)@.wf(),
        ensures
            final(self)@ == (AppView { ports: preset_text(preset), ..old(self)@ }),
            final(self)@ == old(self)@.controlled(Control::ChoosePreset(preset)),
            final(self)@.wf(),
    {
        self.ports = match preset {
            Preset::Common => "22, 53, 80, 139, 443, 445, 3389, 8080".to_string(),
            Preset::Web => "80, 443, 8000, 8080, 8443".to_string(),
            Preset::ArpOnly => String::new(),
        };
        assert(self@.ports =~= preset_text(preset));
    }

    /// Whether an export may begin.
    pub fn can_export(&self) -> (result: bool)
        ensures
            result == self@.can_export(),
    {
        assert(self@.devices.dom() =~= self.devices@.dom());
        self.devices.len() > 0 && !self.exporting
    }

    /// Begins an export of all devices, whichever of them are shown.
    pub fn begin_export(&mut self) -> (result: ExportJob)
        requires
            old(self)@.wf(),
        ensures
            final(self)@ == (AppView { exporting: true, notice: None, ..old(self)@ }),
            final(self)@ == old(self)@.controlled(Control::Export),
            final(self)@.wf(),
            result.target@ == crate::text::trimmed(old(self)@.export_path),
            result.contents@ == crate::export::csv_file(crate::table::listed(old(self)@.devices)),
            result.notice@ == "Exported "@ + crate::text::decimal(old(self)@.devices.dom().len())
                + " devices to "@ + old(self)@.export_path,
    {
        assert(self@.devices.dom() =~= self.devices@.dom());
        let target = export_path(self.export_path.as_str());
        let contents = export_text(&self.devices);
        let notice = export_notice(self.devices.len(), self.export_path.as_str());
        self.exporting = true;
        self.notice = None;
        ExportJob { target, contents, notice }
    }

    /// Whether the user may stop the scan.
    pub fn can_stop(&self, cancelled: bool) -> (result: bool)
        ensures
            result == (self@.active && !cancelled),
            result == self@.can_stop(cancelled),
    {
        self.active && !cancelled
    }

    /// Whether the user may have the capture checked again.
    pub fn can_recheck(&self) -> (result: bool)
        ensures
            result == (!self@.active && !self@.checking),
            result == self@.can_recheck(),
    {
        !self.active && !self.checking
    }

    /// Whether the progress of a scan is shown.
    pub fn shows_progress(&self) -> (result: bool)
        ensures
            result == (self@.active || self@.started),
            result == self@.shows_progress(),
    {
        self.active || self.started
    }

    /// Whether the window is to be drawn again soon, because something is awaited.
    pub fn awaits_something(&self) -> (result: bool)
        ensures
            result == (self@.active || self@.exporting || self@.checking),
            result == self@.awaits_something(),
    {
        self.active || self.exporting || self.checking
    }

    /// Clears away the last error.
    pub fn dismiss_error(&mut self)
        requires
            old(self)@.wf(),
        ensures
            final(self)@ == (AppView { error: None, ..old(self)@ }),
            final(self)@ == old(self)@.controlled(Control::DismissError),
            final(self)@.wf(),
    {
        self.error = None;
    }

    /// Says that the command that grants access to the capture was copied.
    pub fn command_copied(&mut self)
        requires
            old(self)@.wf(),
        ensures
            final(self)@ == (AppView {
                notice: Some(
                    "Command copied. Run it in a terminal, then restart this application."@,
                ),
                ..old(self)@
            }),
            final(self)@ == old(self)@.controlled(Control::CopyCommand),
            final(self)@.wf(),
    {
        self.notice = Some(
            "Command copied. Run it in a terminal, then restart this application.".to_string(),
        );
    }
}

// ---------------------------------------------------------------------------------------
// Laws.

/// A capture is checked once, and not again until something changes; and never while a scan
/// is running.
pub proof fn law_capture_is_checked_once(app: AppView, network: Result<Network, Seq<char>>)
    ensures
        app.capture_refreshed(network).to_check(network) is None,
        app.capture_refreshed(network).capture_refreshed(network) == app.capture_refreshed(network),
        app.active ==> app.capture_refreshed(network) == app && app.to_check(network) is None,
{
}

/// A check that is told as begun is awaited, and shown as such, whatever was shown before.
pub proof fn law_check_is_awaited(app: AppView, network: Result<Network, Seq<char>>)
    ensures
        app.to_check(network) is Some ==> app.capture_refreshed(network).checking
            && app.capture_refreshed(network).capture_state == CaptureView::Checking,
{
}

/// No more reports are taken in at a time than the limit, each once and from the front; and as
/// many as the limit where so many wait and the scan does not end among them.
pub proof fn law_reports_taken_are_limited(app: AppView, waiting: Seq<Event>)
    requires
        app.listening,
    ensures
        ({
            let n = taken(waiting, EVENTS_PER_POLL as nat);
            &&& n <= EVENTS_PER_POLL
            &&& n <= waiting.len()
            &&& waiting == waiting.take(n as int) + app.left_waiting(waiting)
            &&& (forall|i: int| 0 <= i < waiting.len() ==> !(#[trigger] waiting[i] is Finished))
                ==> n == if waiting.len() < EVENTS_PER_POLL {
                waiting.len()
            } else {
                EVENTS_PER_POLL as nat
            }
        }),
{
    let limit = EVENTS_PER_POLL as nat;
    lemma_taken(waiting, limit);
    let n = taken(waiting, limit) as int;
    assert(waiting =~= waiting.take(n) + waiting.skip(n));
}

/// At most as many reports are taken in as wait and as the budget allows; those before the last
/// that is taken do not end the scan.
proof fn lemma_taken(waiting: Seq<Event>, budget: nat)
    ensures
        taken(waiting, budget) <= budget,
        taken(waiting, budget) <= waiting.len(),
        forall|i: int|
            0 <= i < taken(waiting, budget) - 1 ==> !(#[trigger] waiting[i] is Finished),
        (forall|i: int| 0 <= i < waiting.len() ==> !(#[trigger] waiting[i] is Finished)) ==> taken(
            waiting,
            budget,
        ) == if waiting.len() < budget {
            waiting.len()
        } else {
            budget
        },
    decreases budget,
{
    if budget > 0 && waiting.len() > 0 && !(waiting[0] is Finished) {
        let rest = waiting.drop_first();
        lemma_taken(rest, (budget - 1) as nat);
        assert forall|i: int| 0 <= i < taken(waiting, budget) - 1 implies !(
        #[trigger] waiting[i] is Finished) by {
            if i > 0 {
                assert(rest[i - 1] == waiting[i]);
            }
        }
        if forall|i: int| 0 <= i < waiting.len() ==> !(#[trigger] waiting[i] is Finished) {
            assert forall|i: int| 0 <= i < rest.len() implies !(#[trigger] rest[i] is Finished) by {
                assert(rest[i] == waiting[i + 1]);
            }
        }
    } else if budget > 0 && waiting.len() > 0 {
        assert(waiting[0] is Finished);
    }
}

/// What is left waiting is taken in the next time: two looks with the limits `first` and
/// `second` come to the same as one with both, so no report is lost or taken in twice.
pub proof fn law_next_poll_goes_on(
    app: AppView,
    waiting: Seq<Event>,
    connected: bool,
    cancelled: bool,
    first: nat,
    second: nat,
)
    requires
        first <= waiting.len(),
        forall|i: int| 0 <= i < first ==> !(#[trigger] waiting[i] is Finished),
    ensures
        taken(waiting, first) == first,
        app.events_taken(waiting, connected, cancelled, first + second) == app.events_taken(
            waiting,
            connected,
            cancelled,
            first,
        ).events_taken(waiting.skip(first as int), connected, cancelled, second),
    decreases first,
{
    if first == 0 {
        assert(waiting.skip(0) =~= waiting);
    } else {
        assert(!(waiting[0] is Finished));
        let rest = waiting.drop_first();
        assert forall|i: int| 0 <= i < first - 1 implies !(#[trigger] rest[i] is Finished) by {
            assert(rest[i] == waiting[i + 1]);
        }
        let next = app.event_taken(Polled::Received(waiting[0]), cancelled);
        law_next_poll_goes_on(next, rest, connected, cancelled, (first - 1) as nat, second);
        assert(rest.skip(first - 1) =~= waiting.skip(first as int));
    }
}

/// A scan that ends, fails or breaks down always leaves the application ready for the next,
/// whatever was reported before, as soon as the end is among the reports that are taken in or
/// the channel is found disconnected.
pub proof fn law_ended_scan_is_released(
    app: AppView,
    waiting: Seq<Event>,
    connected: bool,
    cancelled: bool,
    last: int,
)
    requires
        app.listening,
        0 <= last <= waiting.len(),
        last < EVENTS_PER_POLL,
        forall|i: int| 0 <= i < last ==> !(#[trigger] waiting[i] is Finished),
        if last < waiting.len() {
            waiting[last] is Finished
        } else {
            !connected
        },
    ensures
        !app.scan_polled(waiting, connected, cancelled).active,
        !app.scan_polled(waiting, connected, cancelled).listening,
{
    lemma_ended_scan(app, waiting, connected, cancelled, last, EVENTS_PER_POLL as nat);
}

proof fn lemma_ended_scan(
    app: AppView,
    waiting: Seq<Event>,
    connected: bool,
    cancelled: bool,
    last: int,
    budget: nat,
)
    requires
        0 <= last <= waiting.len(),
        last < budget,
        forall|i: int| 0 <= i < last ==> !(#[trigger] waiting[i] is Finished),
        if last < waiting.len() {
            waiting[last] is Finished
        } else {
            !connected
        },
    ensures
        !app.events_taken(waiting, connected, cancelled, budget).active,
    decreases last,
{
    if last > 0 {
        assert(!(waiting[0] is Finished));
        let rest = waiting.drop_first();
        assert forall|i: int| 0 <= i < last - 1 implies !(#[trigger] rest[i] is Finished) by {
            assert(rest[i] == waiting[i + 1]);
        }
        if last < waiting.len() {
            assert(rest[last - 1] == waiting[last]);
        }
        let next = app.event_taken(Polled::Received(waiting[0]), cancelled);
        lemma_ended_scan(next, rest, connected, cancelled, last - 1, (budget - 1) as nat);
    }
}

/// The outcome of a scan is told: a failure with its reason, and otherwise whether the scan
/// was cancelled.
pub proof fn law_outcome_is_told(
    app: AppView,
    outcome: Result<(), String>,
    following: Seq<Event>,
    connected: bool,
    cancelled: bool,
)
    requires
        app.listening,
    ensures
        ({
            let waiting = seq![Event::Finished(outcome)] + following;
            let after = app.scan_polled(waiting, connected, cancelled);
            match outcome {
                Ok(_) => after.error == app.error && after.message == if cancelled {
                    "Scan cancelled"@
                } else {
                    "Scan complete"@
                },
                Err(reason) => after.error == Some(reason@) && after.message == "Scan failed"@,
            }
        }),
{
    let waiting = seq![Event::Finished(outcome)] + following;
    assert(waiting[0] == Event::Finished(outcome));
}

/// Whether a report is about the device with the address.
pub open spec fn is_about(event: Event, ip: u32) -> bool {
    event matches Event::Device(device) && device.ip_address == ip
}

/// What is shown of a device is what was reported of it last, of all the reports that were
/// taken in, whatever comes behind them.
pub proof fn law_last_report_counts(
    app: AppView,
    waiting: Seq<Event>,
    connected: bool,
    cancelled: bool,
    budget: nat,
    ip: u32,
    last: int,
)
    requires
        0 <= last < taken(waiting, budget),
        is_about(waiting[last], ip),
        forall|i: int| last < i < taken(waiting, budget) ==> !is_about(#[trigger] waiting[i], ip),
    ensures
        app.events_taken(waiting, connected, cancelled, budget).devices.contains_key(ip),
        app.events_taken(waiting, connected, cancelled, budget).devices[ip]
            == waiting[last]->Device_0@,
    decreases budget,
{
    lemma_taken(waiting, budget);
    let rest = waiting.drop_first();
    let next = app.event_taken(Polled::Received(waiting[0]), cancelled);
    if waiting[0] is Finished {
        assert(last == 0);
    } else {
        let n = taken(rest, (budget - 1) as nat);
        lemma_taken(rest, (budget - 1) as nat);
        assert forall|i: int| last - 1 < i < n && 0 <= i implies !is_about(#[trigger] rest[i], ip) by {
            assert(rest[i] == waiting[i + 1]);
        }
        if last > 0 {
            assert(rest[last - 1] == waiting[last]);
            law_last_report_counts(
                next,
                rest,
                connected,
                cancelled,
                (budget - 1) as nat,
                ip,
                last - 1,
            );
        } else {
            lemma_other_reports(next, rest, connected, cancelled, (budget - 1) as nat, ip);
        }
    }
}

proof fn lemma_other_reports(
    app: AppView,
    waiting: Seq<Event>,
    connected: bool,
    cancelled: bool,
    budget: nat,
    ip: u32,
)
    requires
        app.devices.contains_key(ip),
        forall|i: int| 0 <= i < taken(waiting, budget) ==> !is_about(#[trigger] waiting[i], ip),
    ensures
        app.events_taken(waiting, connected, cancelled, budget).devices.contains_key(ip),
        app.events_taken(waiting, connected, cancelled, budget).devices[ip] == app.devices[ip],
    decreases budget,
{
    if budget > 0 && waiting.len() > 0 {
        let rest = waiting.drop_first();
        lemma_taken(waiting, budget);
        assert(!is_about(waiting[0], ip));
        if !(waiting[0] is Finished) {
            let n = taken(rest, (budget - 1) as nat);
            lemma_taken(rest, (budget - 1) as nat);
            assert forall|i: int| 0 <= i < n implies !is_about(#[trigger] rest[i], ip) by {
                assert(rest[i] == waiting[i + 1]);
            }
            let next = app.event_taken(Polled::Received(waiting[0]), cancelled);
            lemma_other_reports(next, rest, connected, cancelled, (budget - 1) as nat, ip);
        }
    }
}

/// Whether a report changes what the scan is said to be doing.
pub open spec fn says_something(event: Event) -> bool {
    event is Status || event is Finished
}

/// What the scan is said to be doing is what it said last, of all the reports that were taken
/// in.
pub proof fn law_last_message_is_shown(
    app: AppView,
    waiting: Seq<Event>,
    connected: bool,
    cancelled: bool,
    budget: nat,
    last: int,
)
    requires
        0 <= last < taken(waiting, budget),
        waiting[last] is Status,
        forall|i: int|
            last < i < taken(waiting, budget) ==> !says_something(#[trigger] waiting[i]),
    ensures
        app.events_taken(waiting, connected, cancelled, budget).message
            == waiting[last]->Status_0@,
    decreases budget,
{
    lemma_taken(waiting, budget);
    let rest = waiting.drop_first();
    let next = app.event_taken(Polled::Received(waiting[0]), cancelled);
    if !(waiting[0] is Finished) {
        let n = taken(rest, (budget - 1) as nat);
        lemma_taken(rest, (budget - 1) as nat);
        assert forall|i: int| last - 1 < i < n && 0 <= i implies !says_something(
            #[trigger] rest[i],
        ) by {
            assert(rest[i] == waiting[i + 1]);
        }
        if last > 0 {
            assert(rest[last - 1] == waiting[last]);
            law_last_message_is_shown(
                next,
                rest,
                connected,
                cancelled,
                (budget - 1) as nat,
                last - 1,
            );
        } else {
            lemma_silent_reports(next, rest, connected, cancelled, (budget - 1) as nat);
        }
    }
}

proof fn lemma_silent_reports(
    app: AppView,
    waiting: Seq<Event>,
    connected: bool,
    cancelled: bool,
    budget: nat,
)
    requires
        forall|i: int| 0 <= i < taken(waiting, budget) ==> !says_something(#[trigger] waiting[i]),
    ensures
        app.events_taken(waiting, connected, cancelled, budget).message == app.message,
    decreases budget,
{
    if budget > 0 && waiting.len() > 0 {
        let rest = waiting.drop_first();
        lemma_taken(waiting, budget);
        assert(!says_something(waiting[0]));
        let n = taken(rest, (budget - 1) as nat);
        lemma_taken(rest, (budget - 1) as nat);
        assert forall|i: int| 0 <= i < n implies !says_something(#[trigger] rest[i]) by {
            assert(rest[i] == waiting[i + 1]);
        }
        let next = app.event_taken(Polled::Received(waiting[0]), cancelled);
        lemma_silent_reports(next, rest, connected, cancelled, (budget - 1) as nat);
    }
}

/// What the user can do with the controls.
pub enum Control {
    /// Choose an interface, or none.
    SelectInterface(Option<Seq<char>>),
    /// Have the interfaces listed anew, or the capture checked again.
    RefreshInterfaces(Seq<LinkView>),
    /// Enter a subnet.
    EnterSubnet(Seq<char>),
    /// Enter ports.
    EnterPorts(Seq<char>),
    /// Choose a preset of ports.
    ChoosePreset(Preset),
    /// Choose how long to wait for an answer of a port.
    SetTimeout(u64),
    /// Choose how many probes may be under way at a time.
    SetConcurrency(usize),
    /// Start a scan over a link.
    Start(LinkView),
    /// Try to start a scan that cannot be started.
    StartInVain(Seq<char>),
    /// Stop the scan.
    Stop,
    /// Enter a file to export to.
    EnterExportPath(Seq<char>),
    /// Export the devices.
    Export,
    /// Copy the command that grants access to the capture.
    CopyCommand,
    /// Clear away the last error.
    DismissError,
    /// Enter what to search for, which rows to show and in what order.
    Filter(Seq<char>, bool, SortBy, bool),
}

impl AppView {
    /// The application after the user did something with the controls.
    pub open spec fn controlled(self, control: Control) -> AppView {
        match control {
            Control::SelectInterface(selected) => (AppView {
                selected_interface: selected,
                ..self
            }).interface_selected(self.selected_interface),
            Control::RefreshInterfaces(interfaces) => AppView {
                interfaces,
                capture_key: None,
                ..self
            },
            Control::EnterSubnet(subnet) => AppView { subnet, ..self },
            Control::EnterPorts(ports) => AppView { ports, ..self },
            Control::ChoosePreset(preset) => AppView { ports: preset_text(preset), ..self },
            Control::SetTimeout(timeout_ms) => self.timeout_set(timeout_ms),
            Control::SetConcurrency(concurrency) => self.concurrency_set(concurrency),
            Control::Start(link) => self.scan_started(link),
            Control::StartInVain(message) => AppView { error: Some(message), ..self },
            Control::Stop => AppView { message: "Cancelling…"@, ..self },
            Control::EnterExportPath(export_path) => AppView { export_path, ..self },
            Control::Export => AppView { exporting: true, notice: None, ..self },
            Control::CopyCommand => AppView {
                notice: Some(
                    "Command copied. Run it in a terminal, then restart this application."@,
                ),
                ..self
            },
            Control::DismissError => AppView { error: None, ..self },
            Control::Filter(search, open_only, sort_by, descending) => AppView {
                search,
                open_only,
                sort_by,
                descending,
                ..self
            },
        }
    }

    /// The application after the user did several things one after another.
    pub open spec fn all_controlled(self, controls: Seq<Control>) -> AppView
        decreases controls.len(),
    {
        if controls.len() == 0 {
            self
        } else {
            self.all_controlled(controls.drop_last()).controlled(controls.last())
        }
    }
}

/// Whatever the user does, the settings stay within their bounds: they are so when the
/// application starts, and no control takes them out.
pub proof fn law_controls_keep_the_settings_in_bounds(
    app: AppView,
    interfaces: Seq<LinkView>,
    controls: Seq<Control>,
)
    requires
        app.settings_in_bounds(),
    ensures
        AppView::initial(interfaces).settings_in_bounds(),
        app.all_controlled(controls).settings_in_bounds(),
    decreases controls.len(),
{
    if controls.len() > 0 {
        law_controls_keep_the_settings_in_bounds(app, interfaces, controls.drop_last());
    }
}

/// A setting that can be chosen is taken as it is.
pub proof fn law_settings_in_bounds_are_taken(app: AppView, timeout_ms: u64, concurrency: usize)
    ensures
        TIMEOUT_MIN_MS <= timeout_ms <= TIMEOUT_MAX_MS ==> app.timeout_set(timeout_ms).timeout_ms
            == timeout_ms,
        CONCURRENCY_MIN <= concurrency <= CONCURRENCY_MAX ==> app.concurrency_set(
            concurrency,
        ).concurrency == concurrency,
{
}

/// Polling leaves the settings as the user chose them.
pub proof fn law_polling_keeps_the_settings(
    app: AppView,
    capture: Polled<CaptureState>,
    export: Polled<Result<String, String>>,
    elapsed_secs: u64,
    waiting: Seq<Event>,
    connected: bool,
    cancelled: bool,
)
    ensures
        ({
            let after = app.capture_polled(capture).export_polled(export).clock_read(
                elapsed_secs,
            ).scan_polled(waiting, connected, cancelled);
            after.timeout_ms == app.timeout_ms && after.concurrency == app.concurrency
        }),
{
    let heard = app.capture_polled(capture).export_polled(export).clock_read(elapsed_secs);
    lemma_reports_keep_the_settings(heard, waiting, connected, cancelled, EVENTS_PER_POLL as nat);
}

proof fn lemma_reports_keep_the_settings(
    app: AppView,
    waiting: Seq<Event>,
    connected: bool,
    cancelled: bool,
    budget: nat,
)
    ensures
        ({
            let after = app.events_taken(waiting, connected, cancelled, budget);
            after.timeout_ms == app.timeout_ms && after.concurrency == app.concurrency
        }),
    decreases budget,
{
    if budget > 0 && waiting.len() > 0 && !(waiting[0] is Finished) {
        let next = app.event_taken(Polled::Received(waiting[0]), cancelled);
        lemma_reports_keep_the_settings(
            next,
            waiting.drop_first(),
            connected,
            cancelled,
            (budget - 1) as nat,
        );
    }
}

/// Without ports only hosts are looked for: the preset for that asks for no port.
pub proof fn law_arp_only_asks_for_no_ports(app: AppView)
    ensures
        crate::ports::ports_of(app.controlled(Control::ChoosePreset(Preset::ArpOnly)).ports) == Ok::<
            Set<u16>,
            Seq<char>,
        >(Set::empty()),
{
    assert(crate::text::trimmed(Seq::<char>::empty()) =~= Seq::empty());
}

/// A new scan forgets the devices, the error and the notice of the one before, and keeps what
/// the user entered.
pub proof fn law_new_scan_starts_afresh(app: AppView, link: LinkView)
    ensures
        app.scan_started(link).devices.dom() =~= Set::empty(),
        app.scan_started(link).error is None,
        app.scan_started(link).notice is None,
        app.scan_started(link).active,
        app.scan_started(link).listening,
        app.scan_started(link).subnet == app.subnet,
        app.scan_started(link).ports == app.ports,
        app.scan_started(link).export_path == app.export_path,
        app.scan_started(link).selected_interface == app.selected_interface,
        app.scan_started(link).search == app.search,
{
}

/// After the user chose an interface, a scan over it can find a link for the subnet that is
/// proposed: the subnet lies in the network of that link.
pub proof fn law_chosen_interface_can_be_scanned(app: AppView, previous: Option<Seq<char>>)
    requires
        app.wf(),
        app.selected_interface is Some,
        app.selected_interface != previous,
        first_named(app.interfaces, app.selected_interface->0) is Some,
    ensures
        ({
            let link = first_named(app.interfaces, app.selected_interface->0)->0;
            let network = crate::link::default_network(link.address);
            &&& app.interface_selected(previous).subnet == crate::network::cidr_text(
                network.ip,
                network.prefix,
            )
            &&& crate::link::chosen_link(
                app.interfaces,
                network,
                app.selected_interface,
            ) is Some
        }),
{
    let name = app.selected_interface->0;
    lemma_first_named(app.interfaces, name);
    let link = first_named(app.interfaces, name)->0;
    let i = choose|i: int| 0 <= i < app.interfaces.len() && app.interfaces[i] == link;
    assert(app.interfaces[i].address.wf());
    crate::link::law_default_subnet_suits_its_link(link);
    crate::link::law_choice_is_the_narrowest(
        app.interfaces,
        crate::link::default_network(link.address),
        app.selected_interface,
    );
}

proof fn lemma_first_named(links: Seq<LinkView>, name: Seq<char>)
    ensures
        first_named(links, name) matches Some(link) ==> links.contains(link) && link.interface.name
            == name,
    decreases links.len(),
{
    if links.len() > 0 {
        let rest = links.drop_first();
        assert(links[0] == links[0]);
        lemma_first_named(rest, name);
        if let Some(link) = first_named(rest, name) {
            if links[0].interface.name != name {
                let i = choose|i: int| 0 <= i < rest.len() && rest[i] == link;
                assert(links[i + 1] == link);
            }
        }
    }
}

/// A scan is started exactly if the subnet is accepted, the ports are accepted and some link may
/// carry it. Otherwise the first of these that is not so is told.
pub proof fn law_first_obstacle_is_told(
    app: AppView,
    network: Result<Network, Seq<char>>,
    available: Seq<LinkView>,
)
    ensures
        network matches Err(message) ==> app.start_error(network, available) == Some(message),
        network matches Ok(subnet) ==> match crate::ports::ports_of(app.ports) {
            Err(message) => app.start_error(network, available) == Some(message),
            Ok(_) => match crate::link::chosen_link(available, subnet, app.selected_interface) {
                None => app.start_error(network, available) == Some(
                    "No matching active interface covers this subnet. Choose an interface on the directly connected IPv4 LAN."@,
                ),
                Some(link) => app.start_error(network, available) is None && app.link_for(
                    network,
                    available,
                ) == Ok::<LinkView, Seq<char>>(link),
            },
        },
{
}

/// A started scan is shown as under way over its link, with nothing found yet. What the user
/// entered and chose, the links and an export under way stay as they are.
pub proof fn law_started_scan_is_under_way(app: AppView, link: LinkView)
    ensures
        ({
            let after = app.scan_started(link);
            &&& after.capture_key == Some((link.interface.name, link.address.ip))
            &&& !after.checking
            &&& after.capture_state == CaptureView::Checking
            &&& after.listening && after.active && after.started
            &&& after.devices.dom() == Set::<u32>::empty()
            &&& after.progress.completed == 0 && after.progress.total == 0
            &&& !after.progress.discovery_done
            &&& after.elapsed_secs == 0
            &&& after.notice is None && after.error is None
            &&& after.message == "Opening ARP interface…"@
            &&& after == (AppView {
                capture_key: after.capture_key,
                checking: after.checking,
                capture_state: after.capture_state,
                listening: after.listening,
                active: after.active,
                started: after.started,
                devices: after.devices,
                progress: after.progress,
                elapsed_secs: after.elapsed_secs,
                notice: after.notice,
                error: after.error,
                message: after.message,
                ..app
            })
        }),
{
}

/// While no scan is running, a subnet that is refused or that no link leads to makes the capture
/// unavailable for that reason. A link other than the one checked last is checked, and its
/// check is then awaited. The link checked last is not checked again. Nothing but the capture
/// changes.
pub proof fn law_capture_follows_the_subnet(
    app: AppView,
    network: Result<Network, Seq<char>>,
)
    requires
        !app.active,
    ensures
        ({
            let after = app.capture_refreshed(network);
            let reason = match network {
                Err(message) => Some(message),
                Ok(subnet) => if crate::link::chosen_link(
                    app.interfaces,
                    subnet,
                    app.selected_interface,
                ) is None {
                    Some(
                        "No matching active interface covers this subnet. Choose an interface on the directly connected IPv4 LAN."@,
                    )
                } else {
                    None
                },
            };
            &&& reason matches Some(message) ==> {
                &&& after.capture_state == CaptureView::Unavailable(message)
                &&& after.capture_key is None
                &&& !after.checking
                &&& app.to_check(network) is None
            }
            &&& reason is None ==> {
                let link = crate::link::chosen_link(
                    app.interfaces,
                    network->Ok_0,
                    app.selected_interface,
                )->0;
                let key = (link.interface.name, link.address.ip);
                if app.capture_key == Some(key) {
                    after == app && app.to_check(network) is None
                } else {
                    &&& app.to_check(network) == Some(link)
                    &&& after.capture_key == Some(key)
                    &&& after.checking
                    &&& after.capture_state == CaptureView::Checking
                }
            }
            &&& after == (AppView {
                capture_state: after.capture_state,
                capture_key: after.capture_key,
                checking: after.checking,
                ..app
            })
        }),
{
}

/// The outcome of a check is taken in once, and only where one is awaited; a check that broke
/// down is told. Nothing but the state of the capture changes.
pub proof fn law_outcome_of_a_check_is_shown(app: AppView, polled: Polled<CaptureState>)
    ensures
        ({
            let after = app.capture_polled(polled);
            &&& !app.checking || polled is Empty ==> after == app
            &&& app.checking && !(polled is Empty) ==> !after.checking
            &&& app.checking ==> (polled matches Polled::Received(state) ==> after.capture_state
                == state@)
            &&& app.checking && polled is Disconnected ==> after.capture_state
                == CaptureView::Unavailable("Capture check failed unexpectedly. Retry the check."@)
            &&& after == (AppView {
                capture_state: after.capture_state,
                checking: after.checking,
                ..app
            })
        }),
{
}

/// The outcome of an export is taken in once, and only where one is awaited: as a notice where
/// it went well, and otherwise as an error. Nothing else changes.
pub proof fn law_outcome_of_an_export_is_shown(
    app: AppView,
    polled: Polled<Result<String, String>>,
)
    ensures
        ({
            let after = app.export_polled(polled);
            &&& !app.exporting || polled is Empty ==> after == app
            &&& app.exporting && !(polled is Empty) ==> !after.exporting
            &&& app.exporting ==> (polled matches Polled::Received(outcome) ==> match outcome {
                Ok(text) => after.notice == Some(text@) && after.error == app.error,
                Err(text) => after.error == Some(text@) && after.notice == app.notice,
            })
            &&& app.exporting && polled is Disconnected ==> after.error == Some(
                "CSV export worker disconnected."@,
            ) && after.notice == app.notice
            &&& after == (AppView {
                notice: after.notice,
                error: after.error,
                exporting: after.exporting,
                ..app
            })
        }),
{
}

/// The time runs while a scan that was started is running, and stands still otherwise.
pub proof fn law_clock_runs_with_the_scan(app: AppView, elapsed_secs: u64)
    ensures
        app.active && app.started ==> app.clock_read(elapsed_secs).elapsed_secs == elapsed_secs,
        !app.active || !app.started ==> app.clock_read(elapsed_secs) == app,
        app.clock_read(elapsed_secs) == (AppView {
            elapsed_secs: app.clock_read(elapsed_secs).elapsed_secs,
            ..app
        }),
{
}

/// A report of a device puts the device under its address, in place of what was there, and
/// changes no other device.
pub proof fn law_device_is_kept_under_its_address(
    app: AppView,
    device: Device,
    cancelled: bool,
    other: u32,
)
    requires
        other != device.ip_address,
    ensures
        ({
            let after = app.event_taken(Polled::Received(Event::Device(device)), cancelled);
            &&& after.devices.contains_key(device.ip_address)
            &&& after.devices[device.ip_address] == device@
            &&& after.devices.contains_key(other) <==> app.devices.contains_key(other)
            &&& app.devices.contains_key(other) ==> after.devices[other] == app.devices[other]
            &&& after == (AppView { devices: after.devices, ..app })
        }),
{
}

/// Each other report of a running scan changes what it is about and nothing else.
pub proof fn law_report_changes_what_it_is_about(
    app: AppView,
    message: String,
    progress: Progress,
    state: CaptureState,
    cancelled: bool,
)
    ensures
        ({
            let after = app.event_taken(Polled::Received(Event::Status(message)), cancelled);
            after.message == message@ && after == (AppView { message: after.message, ..app })
        }),
        ({
            let after = app.event_taken(Polled::Received(Event::Progress(progress)), cancelled);
            after.progress == progress && after == (AppView { progress: after.progress, ..app })
        }),
        ({
            let after = app.event_taken(Polled::Received(Event::Capture(state)), cancelled);
            after.capture_state == state@ && after == (AppView {
                capture_state: after.capture_state,
                ..app
            })
        }),
        app.event_taken(Polled::Empty, cancelled) == app,
{
}

/// The end of a scan makes it inactive and tells how it ended. A channel that closes before the
/// end does the same with an error, and one that closes after it does nothing.
pub proof fn law_end_makes_the_scan_inactive(
    app: AppView,
    outcome: Result<(), String>,
    cancelled: bool,
)
    ensures
        ({
            let after = app.event_taken(Polled::Received(Event::Finished(outcome)), cancelled);
            &&& !after.active
            &&& outcome is Ok ==> after.error == app.error && after.message == if cancelled {
                "Scan cancelled"@
            } else {
                "Scan complete"@
            }
            &&& outcome matches Err(text) ==> after.error == Some(text@) && after.message
                == "Scan failed"@
            &&& after == (AppView {
                active: after.active,
                message: after.message,
                error: after.error,
                ..app
            })
        }),
        ({
            let after = app.event_taken(Polled::Disconnected, cancelled);
            &&& !app.active ==> after == app
            &&& app.active ==> !after.active && after.error == Some(
                "Scan worker disconnected unexpectedly."@,
            )
            &&& after == (AppView { active: after.active, error: after.error, ..app })
        }),
{
}

/// Reports are taken in one by one from the front, as long as the budget lasts, and none behind
/// the end of the scan. A channel that is found empty is seen to be closed or not.
pub proof fn law_reports_are_taken_one_by_one(
    app: AppView,
    event: Event,
    rest: Seq<Event>,
    connected: bool,
    cancelled: bool,
    budget: nat,
)
    ensures
        app.events_taken(seq![event] + rest, connected, cancelled, 0) == app,
        app.events_taken(Seq::empty(), true, cancelled, budget) == app,
        app.events_taken(Seq::empty(), false, cancelled, budget + 1) == app.event_taken(
            Polled::Disconnected,
            cancelled,
        ),
        app.events_taken(seq![event] + rest, connected, cancelled, budget + 1) == if event
            is Finished {
            app.event_taken(Polled::Received(event), cancelled)
        } else {
            app.event_taken(Polled::Received(event), cancelled).events_taken(
                rest,
                connected,
                cancelled,
                budget,
            )
        },
{
    assert((seq![event] + rest).drop_first() =~= rest);
}

/// A look for reports takes in up to 1024 of them while they are awaited, and none otherwise.
/// They are awaited until the scan is inactive.
pub proof fn law_look_for_reports(
    app: AppView,
    waiting: Seq<Event>,
    connected: bool,
    cancelled: bool,
)
    ensures
        !app.listening ==> app.scan_polled(waiting, connected, cancelled) == app
            && app.left_waiting(waiting) == waiting,
        app.listening ==> {
            let after = app.scan_polled(waiting, connected, cancelled);
            let taken_in = app.events_taken(waiting, connected, cancelled, 1024);
            &&& after.listening == after.active
            &&& after.active == taken_in.active
            &&& after == (AppView { listening: after.listening, ..taken_in })
            &&& app.left_waiting(waiting) == waiting.skip(taken(waiting, 1024) as int)
        },
{
}

/// The end of the scan is the last report that is taken in; without it as many are taken in as
/// wait or as the budget allows.
pub proof fn law_end_is_the_last_report(waiting: Seq<Event>, budget: nat, last: int)
    requires
        0 <= last < waiting.len(),
        forall|i: int| 0 <= i < last ==> !(#[trigger] waiting[i] is Finished),
        waiting[last] is Finished,
    ensures
        taken(waiting, budget) == if last < budget {
            (last + 1) as nat
        } else {
            budget
        },
        is_last(Polled::Received(waiting[last])),
        last > 0 ==> !is_last(Polled::Received(waiting[0])),
        is_last(Polled::Empty),
        is_last(Polled::Disconnected),
    decreases last,
{
    if budget > 0 && last > 0 {
        let rest = waiting.drop_first();
        assert(!(waiting[0] is Finished));
        assert forall|i: int| 0 <= i < last - 1 implies !(#[trigger] rest[i] is Finished) by {
            assert(rest[i] == waiting[i + 1]);
        }
        assert(rest[last - 1] == waiting[last]);
        law_end_is_the_last_report(rest, (budget - 1) as nat, last - 1);
    }
}

/// Choosing another interface enters the subnet that is proposed for the first of its links.
/// Choosing the same one, none, or one that has no link changes nothing.
pub proof fn law_chosen_interface_proposes_its_subnet(
    app: AppView,
    previous: Option<Seq<char>>,
    i: int,
)
    requires
        0 <= i < app.interfaces.len(),
        forall|j: int| 0 <= j < i ==> (#[trigger] app.interfaces[j]).interface.name
            != app.interfaces[i].interface.name,
    ensures
        ({
            let after = app.interface_selected(previous);
            let link = app.interfaces[i];
            let network = crate::link::default_network(link.address);
            &&& app.selected_interface is None || app.selected_interface == previous ==> after
                == app
            &&& app.selected_interface == Some(link.interface.name) && app.selected_interface
                != previous ==> after.subnet == crate::address::ipv4_text(network.ip) + "/"@
                + crate::text::decimal(network.prefix as nat)
            &&& after == (AppView { subnet: after.subnet, ..app })
        }),
{
    lemma_first_named_is_first(app.interfaces, i);
}

proof fn lemma_first_named_is_first(links: Seq<LinkView>, i: int)
    requires
        0 <= i < links.len(),
        forall|j: int| 0 <= j < i ==> (#[trigger] links[j]).interface.name
            != links[i].interface.name,
    ensures
        first_named(links, links[i].interface.name) == Some(links[i]),
    decreases i,
{
    if i > 0 {
        let rest = links.drop_first();
        assert(links[0].interface.name != links[i].interface.name);
        assert(rest[i - 1] == links[i]);
        assert forall|j: int| 0 <= j < i - 1 implies (#[trigger] rest[j]).interface.name
            != rest[i - 1].interface.name by {
            assert(rest[j] == links[j + 1]);
        }
        lemma_first_named_is_first(rest, i - 1);
    }
}

/// An interface without a link has no subnet to propose.
pub proof fn law_interface_without_a_link_proposes_nothing(
    app: AppView,
    previous: Option<Seq<char>>,
)
    requires
        forall|j: int| 0 <= j < app.interfaces.len() ==> Some(
            (#[trigger] app.interfaces[j]).interface.name,
        ) != app.selected_interface,
    ensures
        app.interface_selected(previous) == app,
{
    if let Some(name) = app.selected_interface {
        lemma_first_named(app.interfaces, name);
        if let Some(link) = first_named(app.interfaces, name) {
            let k = choose|k: int| 0 <= k < app.interfaces.len() && app.interfaces[k] == link;
            assert(Some(app.interfaces[k].interface.name) != app.selected_interface);
        }
    }
}

/// A setting becomes the nearest value between its bounds, which are 100 and 3000 milliseconds,
/// and 16 and 512 probes. Nothing else changes.
pub proof fn law_settings_become_the_nearest_in_bounds(
    app: AppView,
    timeout_ms: u64,
    concurrency: usize,
)
    ensures
        ({
            let after = app.timeout_set(timeout_ms);
            &&& timeout_ms < 100 ==> after.timeout_ms == 100
            &&& 100 <= timeout_ms <= 3000 ==> after.timeout_ms == timeout_ms
            &&& timeout_ms > 3000 ==> after.timeout_ms == 3000
            &&& after == (AppView { timeout_ms: after.timeout_ms, ..app })
        }),
        ({
            let after = app.concurrency_set(concurrency);
            &&& concurrency < 16 ==> after.concurrency == 16
            &&& 16 <= concurrency <= 512 ==> after.concurrency == concurrency
            &&& concurrency > 512 ==> after.concurrency == 512
            &&& after == (AppView { concurrency: after.concurrency, ..app })
        }),
{
}

/// The application starts with the subnet that is proposed for the first link, or the usual one
/// where there is no link, and with the usual settings; nothing was scanned, checked or exported.
pub proof fn law_application_starts_idle(interfaces: Seq<LinkView>)
    ensures
        ({
            let app = AppView::initial(interfaces);
            &&& app.interfaces == interfaces
            &&& interfaces.len() == 0 ==> app.subnet == "192.168.1.0/24"@
            &&& interfaces.len() > 0 ==> {
                let network = crate::link::default_network(interfaces[0].address);
                app.subnet == crate::address::ipv4_text(network.ip) + "/"@ + crate::text::decimal(
                    network.prefix as nat,
                )
            }
            &&& app.ports == "22, 80, 443"@
            &&& app.export_path == "scan-results.csv"@
            &&& app.message == "Ready"@
            &&& app.selected_interface is None
            &&& app.timeout_ms == 700 && app.concurrency == 256
            &&& app.devices.dom() == Set::<u32>::empty()
            &&& app.search.len() == 0 && !app.open_only
            &&& app.sort_by == SortBy::Ip && !app.descending
            &&& !app.listening && !app.active && !app.started && !app.exporting && !app.checking
            &&& app.error is None && app.notice is None && app.capture_key is None
            &&& app.capture_state == CaptureView::Unchecked
            &&& app.elapsed_secs == 0
            &&& app.progress.completed == 0 && app.progress.total == 0
            &&& !app.progress.discovery_done
        }),
{
}

/// An export may begin exactly if some device was found and none is under way.
pub proof fn law_found_devices_can_be_exported(app: AppView)
    requires
        app.devices.dom().finite(),
    ensures
        app.can_export() <==> !app.exporting && exists|ip: u32| #[trigger]
            app.devices.contains_key(ip),
{
    let keys = app.devices.dom();
    if app.can_export() {
        if forall|ip: u32| !(#[trigger] app.devices.contains_key(ip)) {
            assert forall|ip: u32| !keys.contains(ip) by {
                assert(!app.devices.contains_key(ip));
            }
            assert(keys =~= Set::empty());
        }
    }
    if exists|ip: u32| #[trigger] app.devices.contains_key(ip) {
        let ip = choose|ip: u32| #[trigger] app.devices.contains_key(ip);
        assert(keys.contains(ip));
        if keys.len() == 0 {
            keys.lemma_len0_is_empty();
        }
    }
}

/// The presets ask for the ports of the usual services, of the usual web servers, and for none.
pub proof fn law_presets_ask_for_their_ports()
    ensures
        crate::ports::ports_of(preset_text(Preset::Common)) == Ok::<Set<u16>, Seq<char>>(
            seq![22u16, 53u16, 80u16, 139u16, 443u16, 445u16, 3389u16, 8080u16].to_set(),
        ),
        crate::ports::ports_of(preset_text(Preset::Web)) == Ok::<Set<u16>, Seq<char>>(
            seq![80u16, 443u16, 8000u16, 8080u16, 8443u16].to_set(),
        ),
        preset_text(Preset::ArpOnly).len() == 0,
{
    let common = seq![22u16, 53u16, 80u16, 139u16, 443u16, 445u16, 3389u16, 8080u16];
    let web = seq![80u16, 443u16, 8000u16, 8080u16, 8443u16];
    lemma_common_text();
    lemma_web_text();
    common.lemma_cardinality_of_set();
    web.lemma_cardinality_of_set();
    crate::ports::law_written_ports_read_back(common);
    crate::ports::law_written_ports_read_back(web);
}

proof fn lemma_common_text()
    ensures
        crate::device::ports_text(
            seq![22u16, 53u16, 80u16, 139u16, 443u16, 445u16, 3389u16, 8080u16],
        ) == "22, 53, 80, 139, 443, 445, 3389, 8080"@,
{
    let none = Seq::<u16>::empty();
    let a = none.push(22u16);
    let b = a.push(53u16);
    let c = b.push(80u16);
    let d = c.push(139u16);
    let e = d.push(443u16);
    let f = e.push(445u16);
    let g = f.push(3389u16);
    let h = g.push(8080u16);
    crate::device::law_port_is_written_behind_the_others(none, 22u16);
    crate::device::law_port_is_written_behind_the_others(a, 53u16);
    crate::device::law_port_is_written_behind_the_others(b, 80u16);
    crate::device::law_port_is_written_behind_the_others(c, 139u16);
    crate::device::law_port_is_written_behind_the_others(d, 443u16);
    crate::device::law_port_is_written_behind_the_others(e, 445u16);
    crate::device::law_port_is_written_behind_the_others(f, 3389u16);
    crate::device::law_port_is_written_behind_the_others(g, 8080u16);
    assert(h =~= seq![22u16, 53u16, 80u16, 139u16, 443u16, 445u16, 3389u16, 8080u16]);
    reveal_with_fuel(crate::text::decimal, 5);
    assert(crate::text::decimal(22) =~= seq!['2', '2']);
    assert(crate::text::decimal(53) =~= seq!['5', '3']);
    assert(crate::text::decimal(80) =~= seq!['8', '0']);
    assert(crate::text::decimal(139) =~= seq!['1', '3', '9']);
    assert(crate::text::decimal(443) =~= seq!['4', '4', '3']);
    assert(crate::text::decimal(445) =~= seq!['4', '4', '5']);
    assert(crate::text::decimal(3389) =~= seq!['3', '3', '8', '9']);
    assert(crate::text::decimal(8080) =~= seq!['8', '0', '8', '0']);
    reveal_strlit("22, 53, 80, 139, 443, 445, 3389, 8080");
    assert(crate::device::ports_text(h) =~= "22, 53, 80, 139, 443, 445, 3389, 8080"@);
}

proof fn lemma_web_text()
    ensures
        crate::device::ports_text(seq![80u16, 443u16, 8000u16, 8080u16, 8443u16])
            == "80, 443, 8000, 8080, 8443"@,
{
    let none = Seq::<u16>::empty();
    let a = none.push(80u16);
    let b = a.push(443u16);
    let c = b.push(8000u16);
    let d = c.push(8080u16);
    let e = d.push(8443u16);
    crate::device::law_port_is_written_behind_the_others(none, 80u16);
    crate::device::law_port_is_written_behind_the_others(a, 443u16);
    crate::device::law_port_is_written_behind_the_others(b, 8000u16);
    crate::device::law_port_is_written_behind_the_others(c, 8080u16);
    crate::device::law_port_is_written_behind_the_others(d, 8443u16);
    assert(e =~= seq![80u16, 443u16, 8000u16, 8080u16, 8443u16]);
    reveal_with_fuel(crate::text::decimal, 5);
    assert(crate::text::decimal(80) =~= seq!['8', '0']);
    assert(crate::text::decimal(443) =~= seq!['4', '4', '3']);
    assert(crate::text::decimal(8000) =~= seq!['8', '0', '0', '0']);
    assert(crate::text::decimal(8080) =~= seq!['8', '0', '8', '0']);
    assert(crate::text::decimal(8443) =~= seq!['8', '4', '4', '3']);
    reveal_strlit("80, 443, 8000, 8080, 8443");
    assert(crate::device::ports_text(e) =~= "80, 443, 8000, 8080, 8443"@);
}

/// Each control changes what it is for and nothing else.
pub proof fn law_controls_do_what_they_are_for(
    app: AppView,
    links: Seq<LinkView>,
    text: Seq<char>,
    preset: Preset,
)
    ensures
        ({
            let after = app.controlled(Control::Stop);
            after.message == "Cancelling…"@ && after == (AppView { message: after.message, ..app })
        }),
        ({
            let after = app.controlled(Control::RefreshInterfaces(links));
            &&& after.interfaces == links
            &&& after.capture_key is None
            &&& after == (AppView {
                interfaces: after.interfaces,
                capture_key: after.capture_key,
                ..app
            })
        }),
        ({
            let after = app.controlled(Control::EnterSubnet(text));
            after.subnet == text && after == (AppView { subnet: after.subnet, ..app })
        }),
        ({
            let after = app.controlled(Control::EnterPorts(text));
            after.ports == text && after == (AppView { ports: after.ports, ..app })
        }),
        ({
            let after = app.controlled(Control::ChoosePreset(preset));
            after.ports == preset_text(preset) && after == (AppView { ports: after.ports, ..app })
        }),
        ({
            let after = app.controlled(Control::StartInVain(text));
            after.error == Some(text) && after == (AppView { error: after.error, ..app })
        }),
        ({
            let after = app.controlled(Control::EnterExportPath(text));
            after.export_path == text && after == (AppView {
                export_path: after.export_path,
                ..app
            })
        }),
        ({
            let after = app.controlled(Control::Export);
            &&& after.exporting
            &&& after.notice is None
            &&& after == (AppView { exporting: after.exporting, notice: after.notice, ..app })
        }),
        ({
            let after = app.controlled(Control::CopyCommand);
            after.notice == Some(
                "Command copied. Run it in a terminal, then restart this application."@,
            ) && after == (AppView { notice: after.notice, ..app })
        }),
        ({
            let after = app.controlled(Control::DismissError);
            after.error is None && after == (AppView { error: after.error, ..app })
        }),
{
}

/// A job that is right scans the accepted network over the chosen link, and asks there for every
/// port of the field and no other, in ascending order, with the settings of the user.
pub proof fn law_right_jobs(job: Job, app: AppView, network: Network, link: LinkView, port: u16)
    requires
        right_job(job, app, network, link),
    ensures
        job.network == network,
        job.link@ == link,
        job.timeout_ms == app.timeout_ms,
        job.concurrency == app.concurrency,
        crate::ports::ports_of(app.ports) is Ok,
        job.ports@.contains(port) <==> crate::ports::ports_of(app.ports)->Ok_0.contains(port),
        forall|i: int, j: int| 0 <= i < j < job.ports@.len() ==> job.ports@[i] < job.ports@[j],
{
    assert(job.ports@.to_set().contains(port) <==> job.ports@.contains(port));
}

/// From its start to its end a scan can be stopped, once, and its progress is shown; meanwhile
/// the capture is not checked again and the window is drawn anew. After the end the progress
/// stays, and the capture may be checked.
pub proof fn law_what_can_be_done_when(
    app: AppView,
    link: LinkView,
    outcome: Result<(), String>,
    cancelled: bool,
)
    ensures
        ({
            let running = app.scan_started(link);
            let ended = running.event_taken(Polled::Received(Event::Finished(outcome)), cancelled);
            &&& running.can_stop(false) && !running.can_stop(true)
            &&& !running.can_recheck() && running.shows_progress() && running.awaits_something()
            &&& !ended.can_stop(cancelled) && ended.can_recheck() && ended.shows_progress()
            &&& ended.awaits_something() <==> app.exporting
        }),
        app.can_recheck() <==> !app.active && !app.checking,
        app.can_stop(cancelled) <==> app.active && !cancelled,
        app.shows_progress() <==> app.active || app.started,
        app.awaits_something() <==> app.active || app.checking || app.exporting,
{
}

} // verus!
