//! The progress of a scan: which hosts were found, which ports are still to be probed, and
//! what is to be reported of each step.

use std::collections::{BTreeMap, VecDeque};

use vstd::multiset::Multiset;
use vstd::prelude::*;

use crate::device::{ports_to_text, Device, DeviceView};
use crate::discover::DiscoveryView;
use crate::event::Event;
use crate::mac::MacAddr;
use crate::ordered::{ascending_keys, insert_port};
use crate::text::concat2;
use crate::vendor::{lookup_vendor, VendorTable};

verus! {

/// An address and the port on it that is to be tried.
pub type Probe = (u32, u16);

/// How far the probes of a scan have come.
#[derive(Clone, Copy, Debug, PartialEq, Eq, Structural)]
pub struct Progress {
    pub completed: usize,
    pub total: usize,
    pub discovery_done: bool,
}

impl Default for Progress {
    fn default() -> (result: Progress)
        ensures
            result == (Progress { completed: 0, total: 0, discovery_done: false }),
    {
        Progress { completed: 0, total: 0, discovery_done: false }
    }
}

/// What is known of one host.
pub struct HostProgress {
    device: Device,
    open: Vec<u16>,
    remaining: usize,
}

/// The contents of a [`HostProgress`].
#[verifier::ext_equal]
pub struct HostView {
    pub device: DeviceView,
    pub open: Seq<u16>,
    pub remaining: nat,
}

impl View for HostProgress {
    type V = HostView;

    closed spec fn view(&self) -> HostView {
        HostView { device: self.device@, open: self.open@, remaining: self.remaining as nat }
    }
}

/// The state of a scan.
pub struct Scan {
    ports: Vec<u16>,
    hosts: BTreeMap<u32, HostProgress>,
    pending: VecDeque<Probe>,
    running: Vec<Probe>,
    discovery_done: bool,
    completed: usize,
    failure: Option<String>,
    ended: Ghost<Multiset<Probe>>,
}

/// The contents of a [`Scan`]: the ports to probe on every host, the hosts that were found,
/// the probes that wait in line, those that are under way, whether the search for hosts is
/// over, how many probes have ended, which, and what a probe said that broke down.
#[verifier::ext_equal]
pub struct ScanView {
    pub ports: Seq<u16>,
    pub hosts: Map<u32, HostView>,
    pub pending: Seq<Probe>,
    pub running: Multiset<Probe>,
    pub discovery_done: bool,
    pub completed: nat,
    pub failure: Option<Seq<char>>,
    pub ended: Multiset<Probe>,
}

/// What the caller of a scan is to do.
#[derive(Clone, Copy, Debug, PartialEq, Eq, Structural)]
pub enum Action {
    /// Leave the loop.
    Stop,
    /// Start a probe of the port on the address.
    Launch(u32, u16),
    /// Wait for the next input.
    Wait,
}

/// What can happen while a scan waits.
pub enum Input {
    /// A host answered.
    Host(u32, MacAddr),
    /// No more hosts will be found.
    DiscoveryEnded,
    /// A probe of the port on the address ended; the port is open or not.
    Answer(u32, u16, bool),
    /// A probe broke down, and said why.
    Breakdown(String),
    /// It is time to show the progress.
    Tick,
}

impl View for Scan {
    type V = ScanView;

    closed spec fn view(&self) -> ScanView {
        ScanView {
            ports: self.ports@,
            hosts: self.hosts@.map_values(|host: HostProgress| host@),
            pending: self.pending@,
            running: self.running@.to_multiset(),
            discovery_done: self.discovery_done,
            completed: self.completed as nat,
            failure: match self.failure {
                Some(text) => Some(text@),
                None => None,
            },
            ended: self.ended@,
        }
    }
}

/// What is shown of a host while its ports are probed, and afterwards.
pub open spec fn status_text(done: bool) -> Seq<char> {
    if done {
        "Up"@
    } else {
        "Up • scanning ports"@
    }
}

/// What is shown of a host whose ports were not all probed when the scan was cancelled.
pub open spec fn incomplete_text() -> Seq<char> {
    "Up • ports incomplete"@
}

/// Picks the probes of one host.
pub open spec fn on_host(ip: u32) -> spec_fn(Probe) -> bool {
    |probe: Probe| probe.0 == ip
}

impl HostView {
    /// The host after one of its probes ended.
    pub open spec fn answered(self, port: u16, open: bool) -> HostView {
        let ports = if open {
            crate::ordered::with_port(self.open, port)
        } else {
            self.open
        };
        let remaining = (self.remaining - 1) as nat;
        HostView {
            device: DeviceView {
                status: if remaining == 0 {
                    status_text(true)
                } else {
                    self.device.status
                },
                open_ports: if open {
                    crate::device::ports_text(ports)
                } else {
                    self.device.open_ports
                },
                ..self.device
            },
            open: ports,
            remaining,
        }
    }
}

impl ScanView {
    /// A scan that knows no host yet.
    pub open spec fn initial(ports: Seq<u16>) -> ScanView {
        ScanView {
            ports,
            hosts: Map::empty(),
            pending: Seq::empty(),
            running: Multiset::empty(),
            discovery_done: false,
            completed: 0,
            failure: None,
            ended: Multiset::empty(),
        }
    }

    /// The probes of a host, in the order of the ports.
    pub open spec fn probes_of(self, ip: u32) -> Seq<Probe> {
        self.ports.map_values(|port: u16| (ip, port))
    }

    /// The probes that have not ended: those in line and those under way.
    pub open spec fn outstanding(self) -> Multiset<Probe> {
        self.pending.to_multiset().add(self.running)
    }

    /// How many probes of a host have not ended.
    pub open spec fn outstanding_of(self, ip: u32) -> nat {
        self.outstanding().filter(on_host(ip)).len()
    }

    /// How many probes the hosts that were found need.
    pub open spec fn total(self) -> nat {
        self.hosts.dom().len() * self.ports.len()
    }

    /// Whether nothing is left to do.
    pub open spec fn finished(self) -> bool {
        self.discovery_done && self.running.len() == 0 && self.pending.len() == 0
    }

    /// Whether what is known of a host agrees with its probes.
    pub open spec fn host_agrees(self, ip: u32) -> bool {
        let host = self.hosts[ip];
        &&& host.remaining == self.outstanding_of(ip)
        &&& host.open.len() + host.remaining <= self.ports.len()
        &&& crate::ordered::in_port_order(host.open)
        &&& forall|i: int| 0 <= i < host.open.len() ==> self.ports.contains(#[trigger] host.open[i])
        &&& host.device.ip_address == ip
        &&& host.device.status == status_text(host.remaining == 0)
        &&& host.device.open_ports == crate::device::ports_text(host.open)
    }

    /// How often a probe is made: for a host that was found as often as the port is asked
    /// for, and otherwise not at all.
    pub open spec fn times(self, probe: Probe) -> nat {
        if self.hosts.contains_key(probe.0) {
            self.ports.to_multiset().count(probe.1)
        } else {
            0
        }
    }

    /// What holds between any two steps of a scan: the probes that ended and those that did
    /// not are exactly the probes to be made, and what is known of each host agrees with its
    /// probes.
    pub open spec fn consistent(self) -> bool {
        &&& self.hosts.dom().finite()
        &&& forall|ip: u32| #[trigger] self.hosts.contains_key(ip) ==> self.host_agrees(ip)
        &&& forall|probe: Probe|
            #![trigger self.outstanding().count(probe)]
            #![trigger self.ended.count(probe)]
            self.ended.count(probe) + self.outstanding().count(probe) == self.times(probe)
        &&& self.completed == self.ended.len()
        &&& self.completed + self.outstanding().len() == self.total()
    }

    /// The device that is reported when a host is found.
    pub open spec fn found_device(self, ip: u32, mac: MacAddr, vendor: Seq<char>) -> DeviceView {
        DeviceView {
            status: status_text(self.ports.len() == 0),
            ip_address: ip,
            mac_address: crate::mac::mac_text(mac),
            vendor,
            open_ports: Seq::empty(),
        }
    }

    /// The scan after a host was found: all ports of the host wait in line.
    pub open spec fn host_found(self, ip: u32, mac: MacAddr, vendor: Seq<char>) -> ScanView {
        ScanView {
            hosts: self.hosts.insert(
                ip,
                HostView {
                    device: self.found_device(ip, mac, vendor),
                    open: Seq::empty(),
                    remaining: self.ports.len(),
                },
            ),
            pending: self.pending + self.probes_of(ip),
            ..self
        }
    }

    /// Whether a host may be reported: it is a new one, or there is nothing to probe.
    pub open spec fn accepts(self, ip: u32) -> bool {
        !self.hosts.contains_key(ip) || self.ports.len() == 0
    }

    /// The scan after the first probe in line was started.
    pub open spec fn launched(self) -> ScanView {
        ScanView {
            pending: self.pending.drop_first(),
            running: self.running.insert(self.pending[0]),
            ..self
        }
    }

    /// The scan after a probe that was under way ended.
    pub open spec fn answered(self, probe: Probe, open: bool) -> ScanView {
        ScanView {
            hosts: self.hosts.insert(probe.0, self.hosts[probe.0].answered(probe.1, open)),
            running: self.running.remove(probe),
            completed: self.completed + 1,
            ended: self.ended.insert(probe),
            ..self
        }
    }

    /// What is shown anew of a host after one of its probes ended: the host, where the port is
    /// open or no probe of it is left, and otherwise nothing.
    pub open spec fn shown_anew(self, ip: u32, open: bool) -> Option<DeviceView> {
        if open || self.hosts[ip].remaining == 0 {
            Some(self.hosts[ip].device)
        } else {
            None
        }
    }

    /// The hosts of which some probe has not ended.
    pub open spec fn unfinished(self) -> Set<u32> {
        self.hosts.dom().filter(|ip: u32| self.hosts[ip].remaining > 0)
    }

    /// What is shown of the unfinished hosts after the scan was cancelled, in the order of
    /// their addresses.
    pub open spec fn incomplete_devices(self) -> Seq<DeviceView> {
        crate::ordered::in_order(self.unfinished()).map_values(
            |ip: u32| DeviceView { status: incomplete_text(), ..self.hosts[ip].device },
        )
    }

    /// What is to be done next.
    pub open spec fn next_action(self, cancelled: bool, concurrency: usize) -> Action {
        if cancelled || self.failure is Some {
            Action::Stop
        } else if self.running.len() < concurrency && self.pending.len() > 0 {
            Action::Launch(self.pending[0].0, self.pending[0].1)
        } else if self.finished() {
            Action::Stop
        } else {
            Action::Wait
        }
    }

    /// The scan after the search for hosts ended.
    pub open spec fn discovery_ended(self) -> ScanView {
        ScanView { discovery_done: true, ..self }
    }

    /// The scan after a probe broke down.
    pub open spec fn broken_down(self, text: Seq<char>) -> ScanView {
        ScanView { failure: Some(text), ..self }
    }
}

// ---------------------------------------------------------------------------------------
// The invariant.

/// Filtering a sum filters both parts.
proof fn lemma_filter_add(a: Multiset<Probe>, b: Multiset<Probe>, ip: u32)
    ensures
        a.add(b).filter(on_host(ip)).len() == a.filter(on_host(ip)).len() + b.filter(
            on_host(ip),
        ).len(),
{
    broadcast use vstd::multiset::group_multiset_axioms;

    let f = on_host(ip);
    assert(a.add(b).filter(f) =~= a.filter(f).add(b.filter(f)));
}

/// The probes of one host are that many, all of them of that host.
proof fn lemma_probes_of(ports: Seq<u16>, ip: u32, other: u32)
    ensures
        ports.map_values(|port: u16| (ip, port)).to_multiset().len() == ports.len(),
        ports.map_values(|port: u16| (ip, port)).to_multiset().filter(on_host(other)).len() == (if ip == other {
            ports.len()
        } else {
            0
        }),
        forall|probe: Probe|
            ports.map_values(|port: u16| (ip, port)).to_multiset().count(probe) > 0 ==> probe.0
                == ip,
{
    broadcast use vstd::multiset::group_multiset_axioms;
    broadcast use vstd::seq_lib::group_to_multiset_ensures;

    let probes = ports.map_values(|port: u16| (ip, port));
    let all = probes.to_multiset();
    let f = on_host(other);
    assert forall|probe: Probe| all.count(probe) > 0 implies probe.0 == ip by {
        assert(probes.contains(probe));
    }
    if ip == other {
        assert(all.filter(f) =~= all);
    } else {
        assert(all.filter(f) =~= Multiset::empty());
    }
}

/// Among the probes of one host, each port occurs as often as among the ports.
proof fn lemma_probe_count(ports: Seq<u16>, ip: u32, probe: Probe)
    ensures
        ports.map_values(|port: u16| (ip, port)).to_multiset().count(probe) == (if probe.0 == ip {
            ports.to_multiset().count(probe.1)
        } else {
            0
        }),
    decreases ports.len(),
{
    broadcast use vstd::multiset::group_multiset_axioms;
    broadcast use vstd::seq_lib::group_to_multiset_ensures;

    let probes = ports.map_values(|port: u16| (ip, port));
    if ports.len() > 0 {
        let shorter = ports.drop_last();
        lemma_probe_count(shorter, ip, probe);
        assert(ports =~= shorter.push(ports.last()));
        assert(probes =~= shorter.map_values(|port: u16| (ip, port)).push((ip, ports.last())));
    }
}

/// A scan that has just begun satisfies the invariant.
pub proof fn law_initial_scan_is_consistent(ports: Seq<u16>)
    ensures
        ScanView::initial(ports).consistent(),
{
    broadcast use vstd::multiset::group_multiset_axioms;
    broadcast use vstd::seq_lib::group_to_multiset_ensures;

    let scan = ScanView::initial(ports);
    assert(scan.outstanding() =~= Multiset::empty());
    assert(0 * ports.len() == 0);
}

/// A host that is found keeps the invariant.
pub proof fn law_found_host_keeps_consistency(
    scan: ScanView,
    ip: u32,
    mac: MacAddr,
    vendor: Seq<char>,
)
    requires
        scan.consistent(),
        scan.accepts(ip),
    ensures
        scan.host_found(ip, mac, vendor).consistent(),
{
    broadcast use vstd::multiset::group_multiset_axioms;

    let next = scan.host_found(ip, mac, vendor);
    let added = scan.probes_of(ip).to_multiset();
    assert(next.outstanding() =~= scan.outstanding().add(added)) by {
        vstd::seq_lib::lemma_multiset_commutative(scan.pending, scan.probes_of(ip));
    }
    lemma_probes_of(scan.ports, ip, ip);
    assert forall|other: u32| #[trigger] next.hosts.contains_key(other) implies next.host_agrees(
        other,
    ) by {
        lemma_filter_add(scan.outstanding(), added, other);
        lemma_probes_of(scan.ports, ip, other);
        if other == ip {
            assert(scan.outstanding_of(ip) == 0) by {
                if scan.hosts.contains_key(ip) {
                    assert(scan.host_agrees(ip));
                } else {
                    let f = on_host(ip);
                    assert forall|probe: Probe| scan.outstanding().filter(f).count(probe) == 0 by {
                        if scan.outstanding().count(probe) > 0 {
                            assert(scan.hosts.contains_key(probe.0));
                        }
                    }
                    assert(scan.outstanding().filter(f) =~= Multiset::empty());
                }
            }
            assert(crate::device::ports_text(Seq::empty()) =~= Seq::empty());
        } else {
            assert(scan.hosts.contains_key(other));
            assert(scan.host_agrees(other));
        }
    }
    assert forall|probe: Probe|
        #![trigger next.outstanding().count(probe)]
        #![trigger next.ended.count(probe)]
        next.ended.count(probe) + next.outstanding().count(probe) == next.times(probe) by {
        assert(scan.ended.count(probe) + scan.outstanding().count(probe) == scan.times(probe));
        lemma_probe_count(scan.ports, ip, probe);
        if scan.ports.len() == 0 {
            assert(scan.ports.to_multiset().count(probe.1) == 0) by {
                broadcast use vstd::seq_lib::group_to_multiset_ensures;

                assert(!scan.ports.contains(probe.1));
            }
        }
    }
    if scan.hosts.contains_key(ip) {
        assert(next.hosts.dom() =~= scan.hosts.dom());
    } else {
        let n = scan.hosts.dom().len() as int;
        let k = scan.ports.len() as int;
        assert((n + 1) * k == n * k + k) by (nonlinear_arith);
    }
}

/// Starting a probe keeps the invariant: no probe is lost or added.
pub proof fn law_launch_keeps_consistency(scan: ScanView)
    requires
        scan.consistent(),
        scan.pending.len() > 0,
    ensures
        scan.launched().outstanding() == scan.outstanding(),
        scan.launched().consistent(),
{
    broadcast use vstd::multiset::group_multiset_axioms;
    broadcast use vstd::seq_lib::group_to_multiset_ensures;

    let next = scan.launched();
    assert(scan.pending.drop_first() =~= scan.pending.remove(0));
    assert(scan.pending.contains(scan.pending[0]));
    assert(next.outstanding() =~= scan.outstanding());
    assert forall|ip: u32| #[trigger] next.hosts.contains_key(ip) implies next.host_agrees(ip) by {
        assert(scan.hosts.contains_key(ip));
        assert(scan.host_agrees(ip));
    }
}

/// A probe under way belongs to a host that was found and waits for it.
pub proof fn law_probe_belongs_to_found_host(scan: ScanView, probe: Probe)
    requires
        scan.consistent(),
        scan.running.count(probe) > 0,
    ensures
        scan.hosts.contains_key(probe.0),
        scan.hosts[probe.0].remaining > 0,
        scan.ports.contains(probe.1),
        scan.completed < scan.total(),
{
    broadcast use vstd::multiset::group_multiset_axioms;

    let ip = probe.0;
    assert(scan.outstanding().count(probe) > 0);
    assert(scan.times(probe) > 0);
    assert(scan.ports.contains(probe.1)) by {
        broadcast use vstd::seq_lib::group_to_multiset_ensures;

        assert(scan.ports.to_multiset().count(probe.1) > 0);
    }
    assert(scan.hosts.contains_key(ip));
    assert(scan.host_agrees(ip));
    let f = on_host(ip);
    assert(scan.outstanding().filter(f).count(probe) > 0);
    vstd::multiset::axiom_count_le_len(scan.outstanding().filter(f), probe);
    vstd::multiset::axiom_count_le_len(scan.outstanding(), probe);
}

/// The end of a probe keeps the invariant.
pub proof fn law_answer_keeps_consistency(scan: ScanView, probe: Probe, open: bool)
    requires
        scan.consistent(),
        scan.running.count(probe) > 0,
    ensures
        scan.answered(probe, open).consistent(),
{
    broadcast use vstd::multiset::group_multiset_axioms;

    law_probe_belongs_to_found_host(scan, probe);
    let next = scan.answered(probe, open);
    let one = Multiset::singleton(probe);
    assert(scan.outstanding() =~= next.outstanding().add(one));
    assert(next.hosts.dom() =~= scan.hosts.dom());
    assert forall|ip: u32| #[trigger] next.hosts.contains_key(ip) implies next.host_agrees(ip) by {
        assert(scan.hosts.contains_key(ip));
        assert(scan.host_agrees(ip));
        lemma_filter_add(next.outstanding(), one, ip);
        let f = on_host(ip);
        if ip == probe.0 {
            assert(one.filter(f) =~= one);
            let before = scan.hosts[ip].open;
            crate::ordered::lemma_with_port(before, probe.1);
            let after = next.hosts[ip].open;
            assert forall|i: int| 0 <= i < after.len() implies scan.ports.contains(
                #[trigger] after[i],
            ) by {
                if open && after[i] != probe.1 {
                    let k = choose|k: int| 0 <= k < before.len() && before[k] == after[i];
                    assert(scan.ports.contains(before[k]));
                }
            }
        } else {
            assert(one.filter(f) =~= Multiset::empty());
        }
    }
    assert forall|other: Probe|
        #![trigger next.outstanding().count(other)]
        #![trigger next.ended.count(other)]
        next.ended.count(other) + next.outstanding().count(other) == next.times(other) by {
        assert(scan.ended.count(other) + scan.outstanding().count(other) == scan.times(other));
    }
}

/// The end of the search keeps the invariant.
pub proof fn law_end_of_search_keeps_consistency(scan: ScanView)
    requires
        scan.consistent(),
    ensures
        scan.discovery_ended().consistent(),
{
    lemma_same_probes(scan, scan.discovery_ended());
}

/// A probe that breaks down keeps the invariant: it counts as not ended.
pub proof fn law_breakdown_keeps_consistency(scan: ScanView, text: Seq<char>)
    requires
        scan.consistent(),
    ensures
        scan.broken_down(text).consistent(),
{
    lemma_same_probes(scan, scan.broken_down(text));
}

/// The invariant speaks of the hosts and the probes only.
proof fn lemma_same_probes(scan: ScanView, next: ScanView)
    requires
        scan.consistent(),
        next.ports == scan.ports,
        next.hosts == scan.hosts,
        next.pending == scan.pending,
        next.running == scan.running,
        next.completed == scan.completed,
        next.ended == scan.ended,
    ensures
        next.consistent(),
{
    assert(next.outstanding() == scan.outstanding());
    assert forall|ip: u32| #[trigger] next.hosts.contains_key(ip) implies next.host_agrees(ip) by {
        assert(scan.hosts.contains_key(ip));
        assert(scan.host_agrees(ip));
    }
    assert forall|probe: Probe|
        #![trigger next.outstanding().count(probe)]
        #![trigger next.ended.count(probe)]
        next.ended.count(probe) + next.outstanding().count(probe) == next.times(probe) by {
        assert(scan.ended.count(probe) + scan.outstanding().count(probe) == scan.times(probe));
    }
}

/// The progress that is shown never runs over: at most as many probes have ended as there
/// are.
pub proof fn law_progress_stays_within_total(scan: ScanView)
    requires
        scan.consistent(),
    ensures
        scan.completed <= scan.total(),
{
}

/// What is shown of a host is a list of ports in order, all of them asked for, and the count
/// of open ports is the length of that list.
pub proof fn law_shown_ports_are_ordered_and_counted(scan: ScanView, ip: u32)
    requires
        scan.consistent(),
        scan.hosts.contains_key(ip),
    ensures
        ({
            let host = scan.hosts[ip];
            &&& host.device.open_ports == crate::device::ports_text(host.open)
            &&& crate::ordered::in_port_order(host.open)
            &&& forall|i: int|
                0 <= i < host.open.len() ==> scan.ports.contains(#[trigger] host.open[i])
            &&& host.device.port_count() == host.open.len()
            &&& host.open.len() <= scan.ports.len()
        }),
{
    assert(scan.host_agrees(ip));
    crate::device::law_port_count_counts_the_list(scan.hosts[ip].device, scan.hosts[ip].open);
}

/// When a scan is finished, every port of every host was tried, each as often as it was asked
/// for, and every host is shown as done.
pub proof fn law_finished_scan_is_complete(scan: ScanView)
    requires
        scan.consistent(),
        scan.finished(),
    ensures
        scan.completed == scan.total(),
        forall|probe: Probe| #[trigger] scan.ended.count(probe) == scan.times(probe),
        forall|ip: u32| #[trigger]
            scan.hosts.contains_key(ip) ==> scan.hosts[ip].remaining == 0
                && scan.hosts[ip].device.status == "Up"@,
{
    broadcast use vstd::multiset::group_multiset_axioms;
    broadcast use vstd::seq_lib::group_to_multiset_ensures;

    vstd::multiset::lemma_multiset_empty_len(scan.running);
    vstd::multiset::lemma_multiset_empty_len(scan.pending.to_multiset());
    assert(scan.outstanding() =~= Multiset::empty());
    assert forall|ip: u32| #[trigger] scan.hosts.contains_key(ip) implies scan.hosts[ip].remaining
        == 0 && scan.hosts[ip].device.status == "Up"@ by {
        assert(scan.host_agrees(ip));
        let f = on_host(ip);
        assert(scan.outstanding().filter(f) =~= Multiset::empty());
    }
}

// ---------------------------------------------------------------------------------------
// The steps.

impl HostProgress {
    fn answer(&mut self, port: u16, open: bool)
        requires
            old(self)@.remaining > 0,
        ensures
            final(self)@ == old(self)@.answered(port, open),
    {
        self.remaining = self.remaining - 1;
        if open {
            insert_port(&mut self.open, port);
            self.device.open_ports = ports_to_text(&self.open);
        }
        if self.remaining == 0 {
            self.device.status = "Up".to_string();
        }
    }
}

impl Scan {
    /// A scan is consistent, and the number of its probes can be counted.
    pub open spec fn wf(&self) -> bool {
        self@.consistent() && self@.total() <= usize::MAX
    }

    /// Whether a host can be taken in: it may be reported, and its probes can be counted.
    pub open spec fn has_room_for(&self, ip: u32) -> bool {
        self@.accepts(ip) && (self@.hosts.dom().len() + 1) * self@.ports.len() <= usize::MAX
    }

    /// A scan that knows no host yet.
    pub fn new(ports: Vec<u16>) -> (result: Scan)
        ensures
            result@ == ScanView::initial(ports@),
            result.wf(),
    {
        broadcast use vstd::multiset::group_multiset_axioms;
        broadcast use vstd::seq_lib::group_to_multiset_ensures;

        let result = Scan {
            ports,
            hosts: BTreeMap::new(),
            pending: VecDeque::new(),
            running: Vec::new(),
            discovery_done: false,
            completed: 0,
            failure: None,
            ended: Ghost(Multiset::empty()),
        };
        proof {
            assert(result@.hosts =~= Map::empty());
            assert(result@.running =~= Multiset::empty());
            assert(result@ =~= ScanView::initial(ports@));
            law_initial_scan_is_consistent(ports@);
            assert(0 * ports@.len() == 0);
        }
        result
    }

    /// How far the scan has come.
    pub fn progress(&self) -> (result: Progress)
        requires
            self.wf(),
        ensures
            result.completed == self@.completed,
            result.total == self@.total(),
            result.discovery_done == self@.discovery_done,
            numbers_of(result) == self@.told(),
    {
        proof {
            assert(self@.hosts.dom() =~= self.hosts@.dom());
        }
        let total: usize = self.hosts.len() * self.ports.len();
        Progress { completed: self.completed, total, discovery_done: self.discovery_done }
    }

    /// Whether nothing is left to do.
    pub fn finished(&self) -> (result: bool)
        ensures
            result == self@.finished(),
    {
        broadcast use vstd::seq_lib::group_to_multiset_ensures;

        self.discovery_done && self.running.len() == 0 && self.pending.len() == 0
    }

    /// Whether a host can be taken in.
    pub fn room_for(&self, ip: u32) -> (result: bool)
        ensures
            result == self.has_room_for(ip),
    {
        proof {
            assert(self@.hosts.dom() =~= self.hosts@.dom());
        }
        if self.ports.len() == 0 {
            assert((self@.hosts.dom().len() + 1) * 0 == 0) by (nonlinear_arith);
            return true;
        }
        if self.hosts.contains_key(&ip) {
            return false;
        }
        let known: usize = self.hosts.len();
        let each: usize = self.ports.len();
        if known == usize::MAX {
            assert((usize::MAX + 1) * each > usize::MAX) by (nonlinear_arith)
                requires
                    each >= 1,
            ;
            return false;
        }
        let count: usize = known + 1;
        match count.checked_mul(each) {
            Some(_) => true,
            None => false,
        }
    }

    /// Whether a probe is under way.
    pub fn is_running(&self, ip: u32, port: u16) -> (result: bool)
        ensures
            result == (self@.running.count((ip, port)) > 0),
    {
        broadcast use vstd::seq_lib::group_to_multiset_ensures;

        let mut i: usize = 0;
        while i < self.running.len()
            invariant
                0 <= i <= self.running.len(),
                forall|j: int| 0 <= j < i ==> self.running@[j] != (ip, port),
            decreases self.running.len() - i,
        {
            if self.running[i].0 == ip && self.running[i].1 == port {
                proof {
                    broadcast use vstd::seq_lib::group_to_multiset_ensures;

                    assert(self.running@[i as int] == (ip, port));
                    assert(self.running@.contains((ip, port)));
                }
                return true;
            }
            i += 1;
        }
        assert(!self.running@.contains((ip, port)));
        false
    }

    /// Starts the first probe in line, unless there is none or as many as allowed are under
    /// way.
    pub fn next_probe(&mut self, concurrency: usize) -> (result: Option<Probe>)
        requires
            old(self).wf(),
        ensures
            final(self).wf(),
            if old(self)@.running.len() < concurrency && old(self)@.pending.len() > 0 {
                result == Some(old(self)@.pending[0]) && final(self)@ == old(self)@.launched()
            } else {
                result is None && final(self)@ == old(self)@
            },
    {
        broadcast use vstd::seq_lib::group_to_multiset_ensures;

        if self.running.len() >= concurrency {
            return None;
        }
        match self.pending.pop_front() {
            Some(probe) => {
                self.running.push(probe);
                proof {
                    law_launch_keeps_consistency(old(self)@);
                    assert(self@.pending =~= old(self)@.pending.drop_first());
                    assert(self@ =~= old(self)@.launched());
                }
                Some(probe)
            },
            None => {
                assert(self@ =~= old(self)@);
                None
            },
        }
    }

    /// Takes in a host that answered, and returns what is to be shown of it.
    pub fn host_found(&mut self, ip: u32, mac: MacAddr, table: &VendorTable) -> (result: Device)
        requires
            old(self).wf(),
            old(self).has_room_for(ip),
        ensures
            final(self).wf(),
            result@ == old(self)@.found_device(
                ip,
                mac,
                crate::vendor::vendor_name(mac, table@),
            ),
            final(self)@ == old(self)@.host_found(
                ip,
                mac,
                crate::vendor::vendor_name(mac, table@),
            ),
    {
        let ghost vendor = crate::vendor::vendor_name(mac, table@);
        let device = Device {
            status: if self.ports.len() == 0 {
                "Up".to_string()
            } else {
                "Up • scanning ports".to_string()
            },
            ip_address: ip,
            mac_address: mac.to_text(),
            vendor: lookup_vendor(mac, table).to_string(),
            open_ports: String::new(),
        };
        assert(device@ =~= self@.found_device(ip, mac, vendor));
        let host = HostProgress {
            device: device.clone(),
            open: Vec::new(),
            remaining: self.ports.len(),
        };
        self.hosts.insert(ip, host);
        let ghost probes = self@.probes_of(ip);
        let mut i: usize = 0;
        assert(probes.take(0) =~= Seq::empty());
        assert(self.pending@ + Seq::<Probe>::empty() =~= self.pending@);
        while i < self.ports.len()
            invariant
                0 <= i <= self.ports.len(),
                self.ports@ == old(self).ports@,
                probes == self.ports@.map_values(|port: u16| (ip, port)),
                self.hosts@ == old(self).hosts@.insert(ip, host),
                self.running@ == old(self).running@,
                self.discovery_done == old(self).discovery_done,
                self.completed == old(self).completed,
                self.failure == old(self).failure,
                self.ended@ == old(self).ended@,
                self.pending@ == old(self).pending@ + probes.take(i as int),
            decreases self.ports.len() - i,
        {
            self.pending.push_back((ip, self.ports[i]));
            assert(self.pending@ =~= old(self).pending@ + probes.take(i + 1));
            i += 1;
        }
        proof {
            assert(probes.take(self.ports@.len() as int) =~= probes);
            assert(self@.hosts =~= old(self)@.host_found(ip, mac, vendor).hosts);
            assert(self@ =~= old(self)@.host_found(ip, mac, vendor));
            law_found_host_keeps_consistency(old(self)@, ip, mac, vendor);
            let n = old(self)@.hosts.dom().len() as int;
            let k = self.ports@.len() as int;
            assert(n * k <= (n + 1) * k) by (nonlinear_arith)
                requires
                    k >= 0,
            ;
            if old(self)@.hosts.contains_key(ip) {
                assert(self@.hosts.dom() =~= old(self)@.hosts.dom());
            }
        }
        device
    }

    /// Notes that no more hosts will be found.
    pub fn discovery_ended(&mut self)
        requires
            old(self).wf(),
        ensures
            final(self).wf(),
            final(self)@ == old(self)@.discovery_ended(),
    {
        self.discovery_done = true;
        proof {
            assert(self@ =~= old(self)@.discovery_ended());
            law_end_of_search_keeps_consistency(old(self)@);
        }
    }

    /// Notes that a probe broke down.
    pub fn probe_broke_down(&mut self, text: String)
        requires
            old(self).wf(),
        ensures
            final(self).wf(),
            final(self)@ == old(self)@.broken_down(text@),
    {
        self.failure = Some(text);
        proof {
            assert(self@ =~= old(self)@.broken_down(text@));
            law_breakdown_keeps_consistency(old(self)@, text@);
        }
    }

    /// Takes in the end of a probe, and returns what is to be shown anew of its host: the
    /// host is shown again where the port is open, and where no probe of it is left.
    pub fn probe_done(&mut self, ip: u32, port: u16, open: bool) -> (result: Option<Device>)
        requires
            old(self).wf(),
            old(self)@.running.count((ip, port)) > 0,
        ensures
            final(self).wf(),
            final(self)@ == old(self)@.answered((ip, port), open),
            result is Some <==> final(self)@.shown_anew(ip, open) is Some,
            result matches Some(device) ==> Some(device@) == final(self)@.shown_anew(ip, open),
            match result {
                Some(device) => device@ == final(self)@.hosts[ip].device && (open
                    || final(self)@.hosts[ip].remaining == 0),
                None => !open && final(self)@.hosts[ip].remaining > 0,
            },
    {
        broadcast use vstd::seq_lib::group_to_multiset_ensures;

        proof {
            law_probe_belongs_to_found_host(old(self)@, (ip, port));
            law_answer_keeps_consistency(old(self)@, (ip, port), open);
        }
        let mut i: usize = 0;
        while self.running[i].0 != ip || self.running[i].1 != port
            invariant
                0 <= i < self.running.len(),
                self.running@.contains((ip, port)),
                forall|j: int| 0 <= j < i ==> self.running@[j] != (ip, port),
            decreases self.running.len() - i,
        {
            assert(self.running@[i as int] != (ip, port));
            if i + 1 == self.running.len() {
                assert(!self.running@.contains((ip, port)));
            }
            i += 1;
        }
        assert(self.running@[i as int] == (ip, port));
        self.running.remove(i);
        self.completed = self.completed + 1;
        proof {
            self.ended@ = self.ended@.insert((ip, port));
        }
        assert(self.hosts@.contains_key(ip)) by {
            assert(old(self)@.hosts.contains_key(ip));
        }
        match self.hosts.remove(&ip) {
            Some(mut host) => {
                assert(host@ == old(self)@.hosts[ip]);
                host.answer(port, open);
                let result = if open || host.remaining == 0 {
                    Some(host.device.clone())
                } else {
                    None
                };
                self.hosts.insert(ip, host);
                proof {
                    assert(self@.hosts =~= old(self)@.answered((ip, port), open).hosts);
                    assert(self@ =~= old(self)@.answered((ip, port), open));
                    assert(self@.hosts.dom() =~= old(self)@.hosts.dom());
                }
                result
            },
            None => None,
        }
    }

    /// What is to be shown of the unfinished hosts after the scan was cancelled.
    pub fn incomplete_devices(&self) -> (result: Vec<Device>)
        ensures
            result@.map_values(|device: Device| device@) == self@.incomplete_devices(),
    {
        let ghost shown = |ip: u32| DeviceView {
            status: incomplete_text(),
            ..self@.hosts[ip].device
        };
        let ghost view_of = |device: Device| device@;
        let keys = ascending_keys(&self.hosts);
        let mut result: Vec<Device> = Vec::new();
        let ghost mut picked: Seq<u32> = Seq::empty();
        let mut i: usize = 0;
        while i < keys.len()
            invariant
                0 <= i <= keys.len(),
                shown == (|ip: u32| DeviceView {
                    status: incomplete_text(),
                    ..self@.hosts[ip].device
                }),
                view_of == (|device: Device| device@),
                crate::ordered::ascending(keys@),
                keys@.to_set() == self.hosts@.dom(),
                crate::ordered::ascending(picked),
                forall|j: int|
                    0 <= j < picked.len() ==> keys@.take(i as int).contains(#[trigger] picked[j])
                        && self@.unfinished().contains(picked[j]),
                forall|j: int|
                    #![trigger keys@[j]]
                    0 <= j < i && self@.unfinished().contains(keys@[j]) ==> picked.contains(
                        keys@[j],
                    ),
                result@.map_values(view_of) == picked.map_values(shown),
            decreases keys.len() - i,
        {
            let ip: u32 = keys[i];
            proof {
                assert(keys@.to_set().contains(ip));
                assert(self@.hosts.contains_key(ip));
                assert forall|j: int| 0 <= j < picked.len() implies #[trigger] picked[j] < ip by {
                    assert(keys@.take(i as int).contains(picked[j]));
                }
                assert(keys@.take(i + 1) =~= keys@.take(i as int).push(ip));
                assert forall|x: u32| keys@.take(i as int).contains(x) implies keys@.take(
                    i + 1,
                ).contains(x) by {
                    let k = choose|k: int|
                        0 <= k < keys@.take(i as int).len() && keys@.take(i as int)[k] == x;
                    assert(keys@.take(i + 1)[k] == x);
                }
                assert(keys@.take(i + 1)[i as int] == ip);
            }
            if let Some(host) = self.hosts.get(&ip) {
                assert(host@ == self@.hosts[ip]);
                if host.remaining > 0 {
                    let mut device = host.device.clone();
                    device.status = "Up • ports incomplete".to_string();
                    let ghost before = result@;
                    let ghost fewer = picked;
                    result.push(device);
                    proof {
                        picked = picked.push(ip);
                        assert(device@ =~= shown(ip));
                        assert(result@.map_values(view_of) =~= before.map_values(view_of).push(
                            view_of(device),
                        ));
                        assert(picked.map_values(shown) =~= fewer.map_values(shown).push(
                            shown(ip),
                        ));
                        assert forall|j: int|
                            #![trigger keys@[j]]
                            0 <= j < i + 1 && self@.unfinished().contains(
                                keys@[j],
                            ) implies picked.contains(keys@[j]) by {
                            if j < i {
                                let k = choose|k: int| 0 <= k < fewer.len() && fewer[k] == keys@[j];
                                assert(picked[k] == keys@[j]);
                            } else {
                                assert(picked[fewer.len() as int] == ip);
                            }
                        }
                    }
                }
            }
            i += 1;
        }
        proof {
            assert forall|ip: u32| self@.unfinished().contains(ip) implies picked.contains(ip) by {
                assert(self.hosts@.dom().contains(ip));
                assert(keys@.contains(ip));
                let j = choose|j: int| 0 <= j < keys@.len() && keys@[j] == ip;
                assert(picked.contains(keys@[j]));
            }
            assert(picked.to_set() =~= self@.unfinished());
            crate::ordered::lemma_in_order(picked);
        }
        result
    }

    /// Decides what is to be done next, and notes a probe that is to be started.
    pub fn advance(&mut self, cancelled: bool, concurrency: usize) -> (result: Action)
        requires
            old(self).wf(),
        ensures
            final(self).wf(),
            result == old(self)@.next_action(cancelled, concurrency),
            cancelled ==> result == Action::Stop && final(self)@ == old(self)@,
            final(self)@ == (if result is Launch {
                old(self)@.launched()
            } else {
                old(self)@
            }),
    {
        if cancelled || self.failure.is_some() {
            return Action::Stop;
        }
        match self.next_probe(concurrency) {
            Some(probe) => Action::Launch(probe.0, probe.1),
            None => if self.finished() {
                Action::Stop
            } else {
                Action::Wait
            },
        }
    }

    /// Takes in what happened, and returns what is to be reported of it.
    pub fn handle(&mut self, input: Input, table: &VendorTable) -> (result: Option<Event>)
        requires
            old(self).wf(),
            input matches Input::Host(ip, _) ==> old(self).has_room_for(ip),
            input matches Input::Answer(ip, port, _) ==> old(self)@.running.count((ip, port)) > 0,
        ensures
            final(self).wf(),
            match input {
                Input::Host(ip, mac) => {
                    let vendor = crate::vendor::vendor_name(mac, table@);
                    &&& final(self)@ == old(self)@.host_found(ip, mac, vendor)
                    &&& result matches Some(Event::Device(device)) && device@ == old(
                        self,
                    )@.found_device(ip, mac, vendor)
                },
                Input::DiscoveryEnded => {
                    &&& final(self)@ == old(self)@.discovery_ended()
                    &&& result is None
                },
                Input::Answer(ip, port, open) => {
                    let host = final(self)@.hosts[ip];
                    &&& final(self)@ == old(self)@.answered((ip, port), open)
                    &&& result is Some <==> final(self)@.shown_anew(ip, open) is Some
                    &&& if open || host.remaining == 0 {
                        result matches Some(Event::Device(device)) && device@ == host.device
                    } else {
                        result is None
                    }
                },
                Input::Breakdown(text) => {
                    &&& final(self)@ == old(self)@.broken_down(text@)
                    &&& result is None
                },
                Input::Tick => {
                    &&& final(self)@ == old(self)@
                    &&& result matches Some(Event::Progress(progress)) && progress.completed == old(
                        self,
                    )@.completed && progress.total == old(self)@.total() && progress.discovery_done
                        == old(self)@.discovery_done
                },
            },
    {
        match input {
            Input::Host(ip, mac) => Some(Event::Device(self.host_found(ip, mac, table))),
            Input::DiscoveryEnded => {
                self.discovery_ended();
                None
            },
            Input::Answer(ip, port, open) => match self.probe_done(ip, port, open) {
                Some(device) => Some(Event::Device(device)),
                None => None,
            },
            Input::Breakdown(text) => {
                self.probe_broke_down(text);
                None
            },
            Input::Tick => Some(Event::Progress(self.progress())),
        }
    }
}

/// The workers of a scan, which can break down.
#[derive(Clone, Copy, Debug, PartialEq, Eq, Structural)]
pub enum Worker {
    /// A probe of a port.
    Tcp,
    /// The search for hosts.
    Arp,
    /// The scan itself.
    Scan,
}

/// What is said of a worker that broke down.
pub open spec fn breakdown(worker: Worker, text: Seq<char>) -> Seq<char> {
    match worker {
        Worker::Tcp => "TCP worker failed: "@ + text,
        Worker::Arp => "ARP worker failed: "@ + text,
        Worker::Scan => "Scan task failed: "@ + text,
    }
}

/// What is said of a worker that broke down.
pub fn breakdown_text(worker: Worker, text: &str) -> (result: String)
    ensures
        result@ == breakdown(worker, text@),
{
    match worker {
        Worker::Tcp => concat2("TCP worker failed: ", text),
        Worker::Arp => concat2("ARP worker failed: ", text),
        Worker::Scan => concat2("Scan task failed: ", text),
    }
}

/// What a scan comes to after the search for hosts has ended or broken down: a probe that broke
/// down is told first, then a search that did, and otherwise the scan comes to what the search
/// came to.
pub open spec fn scan_outcome(
    failure: Option<Seq<char>>,
    search: Result<Result<(), String>, String>,
) -> Option<Seq<char>> {
    match failure {
        Some(text) => Some(breakdown(Worker::Tcp, text)),
        None => match search {
            Err(text) => Some(breakdown(Worker::Arp, text@)),
            Ok(outcome) => crate::discover::failure_of(outcome),
        },
    }
}

impl ScanView {
    /// What is told of the progress: how many probes have ended, how many there are in all, and
    /// whether the search for hosts is over.
    pub open spec fn told(self) -> (nat, nat, bool) {
        (self.completed, self.total(), self.discovery_done)
    }

    /// The devices that are reported at the end: those that a cancelled scan left incomplete,
    /// unless a worker broke down.
    pub open spec fn reported_at_the_end(self, cancelled: bool, search_broke_down: bool) -> Seq<
        DeviceView,
    > {
        if cancelled && self.failure is None && !search_broke_down {
            self.incomplete_devices()
        } else {
            Seq::empty()
        }
    }
}

/// The three numbers of a report of progress.
pub open spec fn numbers_of(progress: Progress) -> (nat, nat, bool) {
    (progress.completed as nat, progress.total as nat, progress.discovery_done)
}

impl Scan {
    /// What is to be done on leaving the loop, before the probes under way are dropped and the
    /// end of the search is awaited: the last report, and whether the search is to be cancelled.
    /// A scan of which a probe broke down reports nothing more and cancels the search.
    pub fn leave(&self) -> (result: (Option<Event>, bool))
        requires
            self.wf(),
        ensures
            result.1 == (self@.failure is Some),
            result.0 matches Some(event) ==> (event matches Event::Progress(progress)
                && numbers_of(progress) == self@.told()),
            match self@.failure {
                Some(_) => result.0 is None,
                None => result.0 matches Some(Event::Progress(progress)) && progress.completed
                    == self@.completed && progress.total == self@.total()
                    && progress.discovery_done == self@.discovery_done,
            },
    {
        match self.failure {
            Some(_) => (None, true),
            None => (Some(Event::Progress(self.progress())), false),
        }
    }

    /// What a scan comes to, once it was left and the search for hosts has ended or broken
    /// down: the devices to report, which are those left incomplete by a cancelled scan unless
    /// a worker broke down, and the outcome.
    pub fn conclude(&self, cancelled: bool, search: Result<Result<(), String>, String>) -> (result:
        (Vec<Device>, Result<(), String>))
        ensures
            crate::discover::fails_with(result.1, scan_outcome(self@.failure, search)),
            result.0@.map_values(|device: Device| device@) == self@.reported_at_the_end(
                cancelled,
                search is Err,
            ),
            result.0@.map_values(|device: Device| device@) == if cancelled && self@.failure is None
                && search is Ok {
                self@.incomplete_devices()
            } else {
                Seq::empty()
            },
    {
        let none: Vec<Device> = Vec::new();
        assert(none@.map_values(|device: Device| device@) =~= Seq::empty());
        if let Some(text) = &self.failure {
            return (none, Err(breakdown_text(Worker::Tcp, text.as_str())));
        }
        match search {
            Ok(outcome) => if cancelled {
                (self.incomplete_devices(), outcome)
            } else {
                (none, outcome)
            },
            Err(text) => (none, Err(breakdown_text(Worker::Arp, text.as_str()))),
        }
    }
}

/// A scan of which a probe broke down stops, whatever else is left to do, and fails for that
/// reason, whatever the search comes to.
pub proof fn law_breakdown_ends_the_scan(
    scan: ScanView,
    text: Seq<char>,
    cancelled: bool,
    concurrency: usize,
    search: Result<Result<(), String>, String>,
)
    ensures
        scan.broken_down(text).next_action(cancelled, concurrency) == Action::Stop,
        scan_outcome(scan.broken_down(text).failure, search) == Some(breakdown(Worker::Tcp, text)),
{
}

/// A scan may take in every host that a search reports, as long as it took in no others: the
/// search reports each only once.
pub proof fn law_reported_host_is_accepted(
    search: DiscoveryView,
    packets: Seq<Seq<u8>>,
    scan: ScanView,
    i: int,
)
    requires
        0 <= i < search.hosts_in(packets).len(),
        forall|ip: u32| #[trigger]
            scan.hosts.contains_key(ip) ==> search.seen.contains(ip) || exists|j: int|
                0 <= j < i && #[trigger] search.hosts_in(packets)[j].0 == ip,
    ensures
        scan.accepts(search.hosts_in(packets)[i].0),
{
    crate::discover::law_each_host_is_reported_once(search, packets);
    let all = search.hosts_in(packets);
    let ip = all[i].0;
    if scan.hosts.contains_key(ip) {
        assert(!search.seen.contains(ip));
        let j = choose|j: int| 0 <= j < i && #[trigger] all[j].0 == ip;
        assert(all[j].0 != all[i].0);
    }
}

/// A device that a cancelled scan leaves incomplete is reported as such, with its address and
/// the ports that were found open.
pub proof fn law_incomplete_devices_are_the_unfinished(scan: ScanView)
    requires
        scan.consistent(),
    ensures
        crate::ordered::ascending(crate::ordered::in_order(scan.unfinished())),
        crate::ordered::in_order(scan.unfinished()).to_set() == scan.unfinished(),
        scan.incomplete_devices().len() == crate::ordered::in_order(scan.unfinished()).len(),
        forall|i: int|
            0 <= i < scan.incomplete_devices().len() ==> {
                let device = #[trigger] scan.incomplete_devices()[i];
                let ip = crate::ordered::in_order(scan.unfinished())[i];
                &&& device.ip_address == ip
                &&& device.status == incomplete_text()
                &&& device.open_ports == crate::device::ports_text(scan.hosts[ip].open)
                &&& scan.hosts[ip].remaining > 0
            },
{
    let keys = scan.unfinished();
    scan.hosts.dom().lemma_len_filter(|ip: u32| scan.hosts[ip].remaining > 0);
    crate::ordered::lemma_in_order_exists(keys);
    let list = crate::ordered::in_order(keys);
    assert forall|i: int| 0 <= i < scan.incomplete_devices().len() implies {
        let device = #[trigger] scan.incomplete_devices()[i];
        let ip = list[i];
        &&& device.ip_address == ip
        &&& device.status == incomplete_text()
        &&& device.open_ports == crate::device::ports_text(scan.hosts[ip].open)
        &&& scan.hosts[ip].remaining > 0
    } by {
        let ip = list[i];
        assert(list.to_set().contains(ip));
        assert(scan.hosts.contains_key(ip));
        assert(scan.host_agrees(ip));
    }
}

/// An answer shows in one place only: an open port joins the open ports of its host, a closed
/// one changes nothing that is shown of them, and no other host is touched.
pub proof fn law_answer_shows_on_its_host_only(scan: ScanView, probe: Probe, open: bool)
    requires
        scan.consistent(),
        scan.running.count(probe) > 0,
    ensures
        ({
            let before = scan.hosts[probe.0];
            let after = scan.answered(probe, open).hosts[probe.0];
            &&& after.open.to_multiset() == if open {
                before.open.to_multiset().insert(probe.1)
            } else {
                before.open.to_multiset()
            }
            &&& after.device.open_ports == crate::device::ports_text(after.open)
            &&& after.device.ip_address == before.device.ip_address
            &&& after.device.mac_address == before.device.mac_address
            &&& after.device.vendor == before.device.vendor
        }),
        forall|ip: u32|
            ip != probe.0 && #[trigger] scan.hosts.contains_key(ip) ==> scan.answered(
                probe,
                open,
            ).hosts[ip] == scan.hosts[ip],
{
    law_probe_belongs_to_found_host(scan, probe);
    assert(scan.host_agrees(probe.0));
    crate::ordered::lemma_with_port(scan.hosts[probe.0].open, probe.1);
}

/// Progress never goes back: the number of ended probes only grows, and so does the number of
/// probes to be made, by as many as there are ports for each new host.
pub proof fn law_progress_never_goes_back(
    scan: ScanView,
    ip: u32,
    mac: MacAddr,
    vendor: Seq<char>,
    probe: Probe,
    open: bool,
)
    requires
        scan.consistent(),
    ensures
        !scan.hosts.contains_key(ip) ==> scan.host_found(ip, mac, vendor).total() == scan.total()
            + scan.ports.len(),
        scan.host_found(ip, mac, vendor).completed == scan.completed,
        scan.launched().total() == scan.total(),
        scan.launched().completed == scan.completed,
        scan.running.count(probe) > 0 ==> scan.answered(probe, open).total() == scan.total(),
        scan.answered(probe, open).completed == scan.completed + 1,
        scan.discovery_ended().total() == scan.total(),
        scan.discovery_ended().completed == scan.completed,
{
    if !scan.hosts.contains_key(ip) {
        let next = scan.host_found(ip, mac, vendor);
        assert(next.hosts.dom() =~= scan.hosts.dom().insert(ip));
        let n = scan.hosts.dom().len() as int;
        let k = scan.ports.len() as int;
        assert((n + 1) * k == n * k + k) by (nonlinear_arith);
    }
    if scan.running.count(probe) > 0 {
        law_probe_belongs_to_found_host(scan, probe);
        assert(scan.answered(probe, open).hosts.dom() =~= scan.hosts.dom());
    }
}

/// No more probes are under way than are allowed, as long as the limit stays the same.
pub proof fn law_concurrency_is_respected(scan: ScanView, concurrency: usize)
    requires
        scan.running.len() <= concurrency,
        scan.next_action(false, concurrency) is Launch,
    ensures
        scan.launched().running.len() <= concurrency,
{
    broadcast use vstd::multiset::group_multiset_axioms;

}

/// A scan that is neither cancelled nor finished and lost no probe never stops, and one that has nothing under
/// way and nothing in line waits only for hosts.
pub proof fn law_scan_stops_only_when_done(scan: ScanView, concurrency: usize)
    requires
        concurrency > 0,
    ensures
        scan.next_action(false, concurrency) == Action::Stop <==> scan.finished()
            || scan.failure is Some,
        scan.next_action(false, concurrency) == Action::Wait && scan.running.len() == 0
            ==> !scan.discovery_done && scan.pending.len() == 0,
{
}

// ---------------------------------------------------------------------------------------
// Whole runs.

/// A step of a scan.
pub enum Step {
    /// A host was found, with its hardware address and the name of its vendor.
    Found(u32, MacAddr, Seq<char>),
    /// The first probe in line was started.
    Launched,
    /// A probe of the port on the address ended; the port is open or not.
    Answered(u32, u16, bool),
    /// No more hosts will be found.
    SearchEnded,
    /// A probe broke down.
    BrokenDown(Seq<char>),
}

impl ScanView {
    /// Whether a step may be taken.
    pub open spec fn may(self, step: Step) -> bool {
        match step {
            Step::Found(ip, _, _) => self.accepts(ip),
            Step::Launched => self.pending.len() > 0,
            Step::Answered(ip, port, _) => self.running.count((ip, port)) > 0,
            Step::SearchEnded => true,
            Step::BrokenDown(_) => true,
        }
    }

    /// The scan after a step.
    pub open spec fn after(self, step: Step) -> ScanView {
        match step {
            Step::Found(ip, mac, vendor) => self.host_found(ip, mac, vendor),
            Step::Launched => self.launched(),
            Step::Answered(ip, port, open) => self.answered((ip, port), open),
            Step::SearchEnded => self.discovery_ended(),
            Step::BrokenDown(text) => self.broken_down(text),
        }
    }
}

/// The scan of the ports after a run of steps.
pub open spec fn run(ports: Seq<u16>, steps: Seq<Step>) -> ScanView
    decreases steps.len(),
{
    if steps.len() == 0 {
        ScanView::initial(ports)
    } else {
        run(ports, steps.drop_last()).after(steps.last())
    }
}

/// Whether each step of a run may be taken where it stands.
pub open spec fn may_run(ports: Seq<u16>, steps: Seq<Step>) -> bool
    decreases steps.len(),
{
    steps.len() > 0 ==> may_run(ports, steps.drop_last()) && run(ports, steps.drop_last()).may(
        steps.last(),
    )
}

/// The ports of a host that answered open in a run.
pub open spec fn open_answers(steps: Seq<Step>, ip: u32) -> Multiset<u16>
    decreases steps.len(),
{
    if steps.len() == 0 {
        Multiset::empty()
    } else {
        let earlier = open_answers(steps.drop_last(), ip);
        match steps.last() {
            Step::Answered(host, port, true) => if host == ip {
                earlier.insert(port)
            } else {
                earlier
            },
            _ => earlier,
        }
    }
}

/// After any run each host that was found shows exactly the ports that answered open, in order,
/// and a host that was not found has none. All that the invariant says holds too.
pub proof fn law_run_shows_exactly_the_open_answers(ports: Seq<u16>, steps: Seq<Step>)
    requires
        may_run(ports, steps),
    ensures
        run(ports, steps).consistent(),
        run(ports, steps).ports == ports,
        forall|ip: u32| #[trigger]
            run(ports, steps).hosts.contains_key(ip) ==> {
                let host = run(ports, steps).hosts[ip];
                &&& host.open.to_multiset() == open_answers(steps, ip)
                &&& crate::ordered::in_port_order(host.open)
                &&& host.device.open_ports == crate::device::ports_text(host.open)
            },
        forall|ip: u32|
            !(#[trigger] run(ports, steps).hosts.contains_key(ip)) ==> open_answers(steps, ip)
                == Multiset::<u16>::empty(),
    decreases steps.len(),
{
    broadcast use vstd::multiset::group_multiset_axioms;
    broadcast use vstd::seq_lib::group_to_multiset_ensures;

    let now = run(ports, steps);
    if steps.len() == 0 {
        law_initial_scan_is_consistent(ports);
    } else {
        let before = steps.drop_last();
        let scan = run(ports, before);
        law_run_shows_exactly_the_open_answers(ports, before);
        match steps.last() {
            Step::Found(found, mac, vendor) => {
                law_found_host_keeps_consistency(scan, found, mac, vendor);
                if scan.hosts.contains_key(found) {
                    assert(scan.host_agrees(found));
                    assert(scan.hosts[found].open =~= Seq::empty());
                }
                assert(Seq::<u16>::empty().to_multiset() =~= Multiset::empty());
            },
            Step::Launched => {
                law_launch_keeps_consistency(scan);
            },
            Step::Answered(host, port, open) => {
                law_answer_keeps_consistency(scan, (host, port), open);
                law_answer_shows_on_its_host_only(scan, (host, port), open);
                law_probe_belongs_to_found_host(scan, (host, port));
            },
            Step::SearchEnded => {
                law_end_of_search_keeps_consistency(scan);
            },
            Step::BrokenDown(text) => {
                law_breakdown_keeps_consistency(scan, text);
            },
        }
        assert forall|ip: u32| #[trigger] now.hosts.contains_key(ip) implies {
            let host = now.hosts[ip];
            &&& host.open.to_multiset() == open_answers(steps, ip)
            &&& crate::ordered::in_port_order(host.open)
            &&& host.device.open_ports == crate::device::ports_text(host.open)
        } by {
            assert(now.host_agrees(ip));
            assert(scan.hosts.contains_key(ip) || !scan.hosts.contains_key(ip));
        }
        assert forall|ip: u32| !(#[trigger] now.hosts.contains_key(ip)) implies open_answers(
            steps,
            ip,
        ) == Multiset::<u16>::empty() by {
            assert(!scan.hosts.contains_key(ip));
        }
    }
}

/// Once a run has finished, each host shows as open exactly the ports that answered open, and
/// every port asked for was tried on it as often as it was asked for.
pub proof fn law_finished_run_tried_everything(ports: Seq<u16>, steps: Seq<Step>, ip: u32, port: u16)
    requires
        may_run(ports, steps),
        run(ports, steps).finished(),
        run(ports, steps).hosts.contains_key(ip),
    ensures
        run(ports, steps).hosts[ip].open.to_multiset() == open_answers(steps, ip),
        run(ports, steps).ended.count((ip, port)) == ports.to_multiset().count(port),
        run(ports, steps).hosts[ip].device.status == "Up"@,
{
    law_run_shows_exactly_the_open_answers(ports, steps);
    law_finished_scan_is_complete(run(ports, steps));
}

/// A cancelled scan stops, whatever its state and however many probes may run at once: no probe
/// is started any more.
pub proof fn law_cancelled_scan_stops(scan: ScanView, concurrency: usize)
    ensures
        scan.next_action(true, concurrency) == Action::Stop,
{
}

/// As long as nothing stands against it, the first probe in line is started where fewer are
/// under way than may be.
pub proof fn law_probe_in_line_is_started(scan: ScanView, concurrency: usize)
    requires
        scan.failure is None,
        scan.pending.len() > 0,
        scan.running.len() < concurrency,
    ensures
        scan.next_action(false, concurrency) == Action::Launch(
            scan.pending[0].0,
            scan.pending[0].1,
        ),
{
}

/// A scan that was not cancelled and of which no probe broke down stops exactly if the search is
/// over and no probe is in line or under way, and waits exactly if there is more to come that it
/// cannot start now.
pub proof fn law_scan_goes_on_until_it_is_done(scan: ScanView, concurrency: usize)
    requires
        scan.failure is None,
    ensures
        scan.next_action(false, concurrency) == Action::Stop <==> scan.discovery_done
            && scan.running.len() == 0 && scan.pending.len() == 0,
        scan.next_action(false, concurrency) == Action::Wait <==> (scan.pending.len() == 0
            || scan.running.len() >= concurrency) && !(scan.discovery_done && scan.running.len()
            == 0 && scan.pending.len() == 0),
{
}

/// Starting a probe moves the first one in line to those under way, and changes nothing else.
pub proof fn law_started_probe_leaves_the_line(scan: ScanView)
    requires
        scan.pending.len() > 0,
    ensures
        scan.pending == seq![scan.pending[0]] + scan.launched().pending,
        forall|probe: Probe| #[trigger]
            scan.launched().running.count(probe) == scan.running.count(probe) + if probe
                == scan.pending[0] {
                1int
            } else {
                0int
            },
        scan.launched().ports == scan.ports,
        scan.launched().hosts == scan.hosts,
        scan.launched().completed == scan.completed,
        scan.launched().ended == scan.ended,
        scan.launched().failure == scan.failure,
        scan.launched().discovery_done == scan.discovery_done,
{
    broadcast use vstd::multiset::group_multiset_axioms;

    assert(scan.pending =~= seq![scan.pending[0]] + scan.launched().pending);
}

/// A host that was found is shown with its addresses and its vendor, as up, and as being scanned
/// where there are ports to probe. One probe of each port joins the end of the line, in the order
/// of the ports. Nothing else changes.
pub proof fn law_found_host_joins_the_line(
    scan: ScanView,
    ip: u32,
    mac: MacAddr,
    vendor: Seq<char>,
)
    ensures
        ({
            let after = scan.host_found(ip, mac, vendor);
            let host = after.hosts[ip];
            &&& after.hosts.contains_key(ip)
            &&& host.device == scan.found_device(ip, mac, vendor)
            &&& host.device.ip_address == ip
            &&& host.device.mac_address == crate::mac::mac_text(mac)
            &&& host.device.vendor == vendor
            &&& host.device.open_ports.len() == 0
            &&& host.device.status == if scan.ports.len() == 0 {
                "Up"@
            } else {
                "Up • scanning ports"@
            }
            &&& host.open.len() == 0
            &&& host.remaining == scan.ports.len()
            &&& after.pending.len() == scan.pending.len() + scan.ports.len()
            &&& forall|i: int|
                0 <= i < scan.pending.len() ==> #[trigger] after.pending[i] == scan.pending[i]
            &&& forall|i: int|
                0 <= i < scan.ports.len() ==> after.pending[scan.pending.len() + i] == (
                    ip,
                    #[trigger] scan.ports[i],
                )
            &&& forall|other: u32|
                other != ip ==> {
                    &&& #[trigger] after.hosts.contains_key(other) <==> scan.hosts.contains_key(
                        other,
                    )
                    &&& after.hosts.contains_key(other) ==> after.hosts[other]
                        == scan.hosts[other]
                }
            &&& after.ports == scan.ports
            &&& after.running == scan.running
            &&& after.completed == scan.completed
            &&& after.ended == scan.ended
            &&& after.failure == scan.failure
            &&& after.discovery_done == scan.discovery_done
        }),
{
}

/// An answer takes one probe from those under way and counts it. Its host has one probe less to
/// go, and is shown as up once it has none left. The line, the ports and the search stay as they
/// are.
pub proof fn law_answer_takes_its_probe(scan: ScanView, probe: Probe, open: bool)
    requires
        scan.consistent(),
        scan.running.count(probe) > 0,
    ensures
        ({
            let after = scan.answered(probe, open);
            let host = after.hosts[probe.0];
            let before = scan.hosts[probe.0];
            &&& after.hosts.dom() == scan.hosts.dom()
            &&& host.remaining + 1 == before.remaining
            &&& host.device.status == if host.remaining == 0 {
                "Up"@
            } else {
                "Up • scanning ports"@
            }
            &&& crate::ordered::in_port_order(host.open)
            &&& after.completed == scan.completed + 1
            &&& after.pending == scan.pending
            &&& after.ports == scan.ports
            &&& after.failure == scan.failure
            &&& after.discovery_done == scan.discovery_done
            &&& forall|other: Probe|
                {
                    &&& #[trigger] after.running.count(other) == scan.running.count(other)
                        - if other == probe {
                        1int
                    } else {
                        0int
                    }
                    &&& after.ended.count(other) == scan.ended.count(other) + if other == probe {
                        1int
                    } else {
                        0int
                    }
                }
        }),
{
    broadcast use vstd::multiset::group_multiset_axioms;

    law_probe_belongs_to_found_host(scan, probe);
    law_answer_keeps_consistency(scan, probe, open);
    assert(scan.host_agrees(probe.0));
    let after = scan.answered(probe, open);
    assert(after.hosts.contains_key(probe.0));
    assert(after.host_agrees(probe.0));
    assert(after.hosts.dom() =~= scan.hosts.dom());
    lemma_running_host_has_probes_left(scan, probe);
}

/// A host with a probe under way has probes left to go.
proof fn lemma_running_host_has_probes_left(scan: ScanView, probe: Probe)
    requires
        scan.consistent(),
        scan.running.count(probe) > 0,
        scan.hosts.contains_key(probe.0),
    ensures
        scan.hosts[probe.0].remaining > 0,
{
    broadcast use vstd::multiset::group_multiset_axioms;

    assert(scan.host_agrees(probe.0));
    let own = scan.outstanding().filter(on_host(probe.0));
    assert(own.count(probe) > 0);
    if own.len() == 0 {
        assert(own =~= Multiset::empty());
    }
}

/// The end of the search and a breakdown are noted, and change nothing else. A scan begins with
/// its ports and nothing else.
pub proof fn law_other_steps_note_one_thing(scan: ScanView, text: Seq<char>)
    ensures
        scan.discovery_ended().discovery_done,
        scan.discovery_ended() == (ScanView {
            discovery_done: scan.discovery_ended().discovery_done,
            ..scan
        }),
        scan.broken_down(text).failure == Some(text),
        scan.broken_down(text) == (ScanView { failure: scan.broken_down(text).failure, ..scan }),
        ({
            let first = ScanView::initial(scan.ports);
            &&& first.ports == scan.ports
            &&& first.hosts.dom() == Set::<u32>::empty()
            &&& first.pending.len() == 0
            &&& first.running.len() == 0
            &&& first.ended.len() == 0
            &&& first.completed == 0
            &&& !first.discovery_done
            &&& first.failure is None
        }),
{
    broadcast use vstd::multiset::group_multiset_axioms;
}

/// A cancelled scan reports every host of which a probe had not ended, and no other host, once
/// each and in the order of the addresses. Each is shown as it was, but as incomplete.
pub proof fn law_cancelled_scan_reports_unfinished_hosts(scan: ScanView)
    requires
        scan.consistent(),
    ensures
        ({
            let shown = scan.incomplete_devices();
            &&& forall|i: int, j: int|
                0 <= i < j < shown.len() ==> (#[trigger] shown[i]).ip_address < (
                #[trigger] shown[j]).ip_address
            &&& forall|i: int|
                0 <= i < shown.len() ==> {
                    let device = #[trigger] shown[i];
                    let host = scan.hosts[device.ip_address];
                    &&& scan.hosts.contains_key(device.ip_address)
                    &&& host.remaining > 0
                    &&& device.status == "Up • ports incomplete"@
                    &&& device.mac_address == host.device.mac_address
                    &&& device.vendor == host.device.vendor
                    &&& device.open_ports == host.device.open_ports
                }
            &&& forall|ip: u32| #[trigger]
                scan.hosts.contains_key(ip) && scan.hosts[ip].remaining > 0 ==> exists|i: int|
                    0 <= i < shown.len() && (#[trigger] shown[i]).ip_address == ip
        }),
{
    law_incomplete_devices_are_the_unfinished(scan);
    let list = crate::ordered::in_order(scan.unfinished());
    let shown = scan.incomplete_devices();
    assert forall|i: int| 0 <= i < shown.len() implies {
        let device = #[trigger] shown[i];
        let host = scan.hosts[device.ip_address];
        &&& scan.hosts.contains_key(device.ip_address)
        &&& host.remaining > 0
        &&& device.status == "Up • ports incomplete"@
        &&& device.mac_address == host.device.mac_address
        &&& device.vendor == host.device.vendor
        &&& device.open_ports == host.device.open_ports
    } by {
        assert(shown[i].ip_address == list[i]);
        assert(list.to_set().contains(list[i]));
    }
    assert forall|ip: u32| #[trigger]
        scan.hosts.contains_key(ip) && scan.hosts[ip].remaining > 0 implies exists|i: int|
        0 <= i < shown.len() && (#[trigger] shown[i]).ip_address == ip by {
        assert(scan.unfinished().contains(ip));
        assert(list.to_set().contains(ip));
        let i = choose|i: int| 0 <= i < list.len() && list[i] == ip;
        assert(shown[i].ip_address == ip);
    }
}

/// What a scan comes to: a probe that broke down is told first, then a search that broke down,
/// then a search that failed; otherwise all went well.
pub proof fn law_first_failure_is_told(
    failure: Option<Seq<char>>,
    search: Result<Result<(), String>, String>,
)
    ensures
        failure matches Some(text) ==> scan_outcome(failure, search) == Some(
            "TCP worker failed: "@ + text,
        ),
        failure is None && search is Err ==> scan_outcome(failure, search) == Some(
            "ARP worker failed: "@ + search->Err_0@,
        ),
        failure is None ==> (search matches Ok(outcome) ==> scan_outcome(failure, search)
            == match outcome {
            Ok(_) => None,
            Err(text) => Some(text@),
        }),
        forall|text: Seq<char>| #[trigger]
            breakdown(Worker::Scan, text) == "Scan task failed: "@ + text,
{
}

/// The progress that is told counts every probe that ended, and of every host that was found one
/// probe for each port.
pub proof fn law_progress_that_is_told(scan: ScanView)
    requires
        scan.consistent(),
    ensures
        scan.told().0 == scan.ended.len(),
        scan.told().1 == scan.hosts.dom().len() * scan.ports.len(),
        scan.told().1 == scan.ended.len() + scan.running.len() + scan.pending.len(),
        scan.told().2 == scan.discovery_done,
        forall|progress: Progress| #[trigger] numbers_of(progress) == scan.told() ==> {
            &&& progress.completed == scan.completed
            &&& progress.total == scan.total()
            &&& progress.discovery_done == scan.discovery_done
        },
{
    broadcast use vstd::multiset::group_multiset_axioms;
    broadcast use vstd::seq_lib::group_to_multiset_ensures;

}

/// Only a cancelled scan of which no worker broke down reports hosts at its end, and it reports
/// every host that is not finished.
pub proof fn law_reports_at_the_end(
    scan: ScanView,
    cancelled: bool,
    search_broke_down: bool,
    ip: u32,
)
    requires
        scan.consistent(),
    ensures
        ({
            let shown = scan.reported_at_the_end(cancelled, search_broke_down);
            (exists|i: int| 0 <= i < shown.len() && (#[trigger] shown[i]).ip_address == ip) <==> {
                &&& cancelled
                &&& scan.failure is None
                &&& !search_broke_down
                &&& scan.hosts.contains_key(ip)
                &&& scan.hosts[ip].remaining > 0
            }
        }),
{
    law_cancelled_scan_reports_unfinished_hosts(scan);
    let shown = scan.reported_at_the_end(cancelled, search_broke_down);
    if cancelled && scan.failure is None && !search_broke_down {
        assert(shown == scan.incomplete_devices());
        if scan.hosts.contains_key(ip) && scan.hosts[ip].remaining > 0 {
            let i = choose|i: int|
                0 <= i < scan.incomplete_devices().len() && (
                #[trigger] scan.incomplete_devices()[i]).ip_address == ip;
            assert(shown[i].ip_address == ip);
        }
        if exists|i: int| 0 <= i < shown.len() && (#[trigger] shown[i]).ip_address == ip {
            let i = choose|i: int| 0 <= i < shown.len() && (#[trigger] shown[i]).ip_address == ip;
            assert(scan.incomplete_devices()[i].ip_address == ip);
        }
    }
}

/// A host is taken in exactly if it was not found before or there is nothing to probe.
pub proof fn law_new_host_is_taken_in(scan: ScanView, ip: u32)
    ensures
        scan.accepts(ip) <==> scan.ports.len() == 0 || !scan.hosts.dom().contains(ip),
{
}

/// An open port is shown at once, with all that is known of its host, and a host that has no
/// probe left is shown as up. A closed port of a host with probes left shows nothing.
pub proof fn law_open_port_is_shown_at_once(scan: ScanView, probe: Probe, open: bool)
    requires
        scan.consistent(),
        scan.running.count(probe) > 0,
    ensures
        ({
            let after = scan.answered(probe, open);
            let shown = after.shown_anew(probe.0, open);
            &&& shown is Some <==> open || scan.hosts[probe.0].remaining == 1
            &&& shown matches Some(device) ==> {
                &&& device == after.hosts[probe.0].device
                &&& device.ip_address == probe.0
                &&& open ==> after.hosts[probe.0].open.contains(probe.1)
                &&& device.open_ports == crate::device::ports_text(after.hosts[probe.0].open)
            }
        }),
{
    broadcast use vstd::seq_lib::group_to_multiset_ensures;

    law_answer_takes_its_probe(scan, probe, open);
    law_answer_shows_on_its_host_only(scan, probe, open);
    law_probe_belongs_to_found_host(scan, probe);
    assert(scan.host_agrees(probe.0));
    let after = scan.answered(probe, open).hosts[probe.0];
    if open {
        assert(after.open.to_multiset().count(probe.1) > 0);
        assert(after.open.contains(probe.1));
    }
}

} // verus!
