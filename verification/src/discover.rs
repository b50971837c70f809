//! The search for hosts: which addresses are asked, who counts as found, and how long to
//! listen.

use std::collections::HashSet;

use vstd::prelude::*;

use crate::arp::{arp_reply, arp_request};
use crate::capture::{
    open_capture, scan_failure_text, CaptureState, CaptureView, IoFailure, IoKind, Opened,
};
use crate::event::Event;
use crate::link::{Link, LinkView};
use crate::mac::MacAddr;
use crate::text::concat2;

verus! {

/// How long to listen after the last request was sent, in milliseconds.
pub const ARP_GRACE_MS: u64 = 2000;

/// How long to pause after each request, in milliseconds.
pub const SEND_PAUSE_MS: u64 = 2;

// ---------------------------------------------------------------------------------------
// Beginning.

/// Why a search cannot begin: the capture did not open.
pub open spec fn opening_error(opened: Opened) -> Option<Seq<char>> {
    match opened {
        Opened::Ethernet => None,
        _ => Some(crate::capture::scan_failure(crate::capture::opened_state(opened))),
    }
}

/// Begins a search after an attempt to open the capture. What the attempt came to is reported
/// once, and where the capture did not open the search ends there, with the reason.
pub fn begin_search(opened: Opened) -> (result: (Event, Result<(), String>))
    ensures
        result.0 matches Event::Capture(state) && state@ == crate::capture::opened_state(opened),
        fails_with(result.1, opening_error(opened)),
{
    match open_capture(opened) {
        Ok(()) => (Event::Capture(CaptureState::Ready), Ok(())),
        Err(state) => {
            let message = scan_failure_text(&state);
            (Event::Capture(state), Err(message))
        },
    }
}

/// A search begins exactly where the capture is reported as ready, and a refused permission is
/// told with what to do about it.
pub proof fn law_search_begins_where_capture_is_ready(opened: Opened)
    ensures
        opening_error(opened) is None <==> crate::capture::opened_state(opened)
            == CaptureView::Ready,
        opened matches Opened::Failed(failure) ==> failure.kind == IoKind::PermissionDenied ==> (
        opening_error(opened) == Some(
            "Cannot open packet capture: "@ + failure.text@
                + ". Grant packet-capture access and restart the application."@,
        )),
{
}

// ---------------------------------------------------------------------------------------
// Asking.

/// Picks every address but one.
pub open spec fn other_than(own: u32) -> spec_fn(u32) -> bool {
    |ip: u32| ip != own
}

/// The addresses in the order in which they are asked: all but the own one, and then once
/// more.
pub open spec fn asked(addresses: Seq<u32>, own: u32) -> Seq<u32> {
    addresses.filter(other_than(own)) + addresses.filter(other_than(own))
}

/// The requests of a search that are still to be sent.
pub struct Requests {
    source: MacAddr,
    source_ip: u32,
    plan: Vec<u32>,
    next: usize,
}

/// The contents of [`Requests`]: who asks, and the addresses that are still to be asked.
#[verifier::ext_equal]
pub struct RequestsView {
    pub source: MacAddr,
    pub source_ip: u32,
    pub remaining: Seq<u32>,
}

impl View for Requests {
    type V = RequestsView;

    closed spec fn view(&self) -> RequestsView {
        RequestsView {
            source: self.source,
            source_ip: self.source_ip,
            remaining: self.plan@.skip(self.next as int),
        }
    }
}

impl RequestsView {
    /// The frames that are still to be sent.
    pub open spec fn frames(self) -> Seq<Seq<u8>> {
        self.remaining.map_values(
            |target: u32| crate::arp::request_frame(self.source, self.source_ip, target),
        )
    }
}

/// Appends the addresses other than the own one to a list.
fn push_others(addresses: &Vec<u32>, own: u32, plan: &mut Vec<u32>)
    ensures
        final(plan)@ == old(plan)@ + addresses@.filter(other_than(own)),
{
    let ghost before = plan@;
    let ghost keep = other_than(own);
    let mut i: usize = 0;
    proof {
        reveal(Seq::filter);
        assert(addresses@.take(0).filter(keep) =~= Seq::empty());
        assert(before + Seq::<u32>::empty() =~= before);
    }
    while i < addresses.len()
        invariant
            0 <= i <= addresses.len(),
            keep == other_than(own),
            plan@ == before + addresses@.take(i as int).filter(keep),
        decreases addresses.len() - i,
    {
        let ip: u32 = addresses[i];
        proof {
            reveal(Seq::filter);
            assert(addresses@.take(i + 1).drop_last() =~= addresses@.take(i as int));
            assert(addresses@.take(i + 1).last() == ip);
        }
        let ghost so_far = addresses@.take(i as int).filter(keep);
        if ip != own {
            plan.push(ip);
            assert((before + so_far).push(ip) =~= before + so_far.push(ip));
        }
        i += 1;
    }
    assert(addresses@.take(i as int) =~= addresses@);
}

impl Requests {
    /// Whether the requests are in a state that their own functions lead to.
    pub closed spec fn wf(&self) -> bool {
        self.next <= self.plan@.len()
    }

    /// The requests for all the addresses, in two rounds.
    pub fn new(link: &Link, addresses: &Vec<u32>) -> (result: Requests)
        ensures
            result.wf(),
            result@ == (RequestsView {
                source: link.mac,
                source_ip: link.address.ip,
                remaining: asked(addresses@, link.address.ip),
            }),
    {
        let own: u32 = link.address.ip;
        let mut plan: Vec<u32> = Vec::new();
        push_others(addresses, own, &mut plan);
        push_others(addresses, own, &mut plan);
        assert(plan@ =~= asked(addresses@, own));
        assert(plan@.skip(0) =~= plan@);
        Requests { source: link.mac, source_ip: own, plan, next: 0 }
    }

    /// The next frame to send: none after the last, and none once the search is to stop.
    pub fn next_frame(&mut self, stopped: bool) -> (result: Option<[u8; 42]>)
        requires
            old(self).wf(),
        ensures
            final(self).wf(),
            result is None <==> stopped || old(self)@.remaining.len() == 0,
            result matches Some(frame) ==> old(self)@.frames()
                == seq![frame@] + final(self)@.frames(),
            match result {
                None => final(self)@ == old(self)@,
                Some(frame) => {
                    &&& frame@ == crate::arp::request_frame(
                        old(self)@.source,
                        old(self)@.source_ip,
                        old(self)@.remaining[0],
                    )
                    &&& final(self)@ == (RequestsView {
                        remaining: old(self)@.remaining.drop_first(),
                        ..old(self)@
                    })
                },
            },
    {
        if stopped || self.next >= self.plan.len() {
            return None;
        }
        let target: u32 = self.plan[self.next];
        let ghost before = self@.remaining;
        assert(before[0] == target);
        self.next = self.next + 1;
        assert(self@.remaining =~= before.drop_first());
        let frame = arp_request(self.source, self.source_ip, target);
        assert(old(self)@.frames() =~= seq![frame@] + self@.frames());
        Some(frame)
    }
}

/// What became of a frame that was to be sent.
pub enum Sending {
    /// It was sent.
    Done,
    /// There was no room for it.
    NoBuffer,
    /// It could not be sent.
    Failed(IoFailure),
}

/// What is said of a frame that was not sent; after it no more are sent.
pub open spec fn sending_error(sending: Sending) -> Option<Seq<char>> {
    match sending {
        Sending::Done => None,
        Sending::NoBuffer => Some("ARP transmit buffer unavailable."@),
        Sending::Failed(failure) => Some("ARP transmit failed: "@ + failure.text@),
    }
}

/// Whether a result is a failure with the given message, or no failure where there is none.
pub open spec fn fails_with(result: Result<(), String>, message: Option<Seq<char>>) -> bool {
    match message {
        None => result is Ok,
        Some(text) => result is Err && result->Err_0@ == text,
    }
}

/// The message of a failure.
pub open spec fn failure_of(result: Result<(), String>) -> Option<Seq<char>> {
    match result {
        Ok(_) => None,
        Err(message) => Some(message@),
    }
}

/// Whether the next frame may be sent.
pub fn check_sending(sending: Sending) -> (result: Result<(), String>)
    ensures
        fails_with(result, sending_error(sending)),
{
    match sending {
        Sending::Done => Ok(()),
        Sending::NoBuffer => Err("ARP transmit buffer unavailable.".to_string()),
        Sending::Failed(failure) => Err(concat2("ARP transmit failed: ", failure.text.as_str())),
    }
}

// ---------------------------------------------------------------------------------------
// Listening.

/// The state of the one who listens.
pub struct Discovery {
    link: Link,
    allowed: HashSet<u32>,
    seen: HashSet<u32>,
    finish_at: Option<u64>,
}

/// The contents of a [`Discovery`]: the link, the addresses that may be reported, those that
/// were, and when to stop, once that is known.
#[verifier::ext_equal]
pub struct DiscoveryView {
    pub link: LinkView,
    pub allowed: Set<u32>,
    pub seen: Set<u32>,
    pub finish_at: Option<u64>,
}

impl View for Discovery {
    type V = DiscoveryView;

    closed spec fn view(&self) -> DiscoveryView {
        DiscoveryView {
            link: self.link@,
            allowed: self.allowed@,
            seen: self.seen@,
            finish_at: self.finish_at,
        }
    }
}

/// What the one who listens is to do.
pub enum Listening {
    /// Look at the clock, and then go on.
    Poll,
    /// Read the next packet.
    Read,
    /// Report a host.
    Report(u32, MacAddr),
    /// Stop, with this outcome.
    Stop(Result<(), String>),
}

impl DiscoveryView {
    /// The state before anything was heard: the own address counts as seen, if it may be
    /// reported.
    pub open spec fn initial(link: LinkView, addresses: Seq<u32>) -> DiscoveryView {
        let allowed = addresses.to_set();
        DiscoveryView {
            link,
            allowed,
            seen: if allowed.contains(link.address.ip) {
                Set::empty().insert(link.address.ip)
            } else {
                Set::empty()
            },
            finish_at: None,
        }
    }

    /// The host that a packet brings: one that answers and was not seen before.
    pub open spec fn new_host(self, bytes: Seq<u8>) -> Option<(u32, MacAddr)> {
        match crate::arp::announced(bytes, self.link.address.ip, self.link.mac, self.allowed) {
            Some((ip, mac)) => if self.seen.contains(ip) {
                None
            } else {
                Some((ip, mac))
            },
            None => None,
        }
    }

    /// The state after a packet.
    pub open spec fn heard(self, bytes: Seq<u8>) -> DiscoveryView {
        match self.new_host(bytes) {
            Some((ip, _)) => DiscoveryView { seen: self.seen.insert(ip), ..self },
            None => self,
        }
    }

    /// The state after a look at the clock: once all requests are sent the end is fixed.
    pub open spec fn polled(self, cancelled: bool, all_sent: bool, now: u64) -> DiscoveryView {
        if !cancelled && self.finish_at is None && all_sent {
            DiscoveryView { finish_at: Some((now + ARP_GRACE_MS) as u64), ..self }
        } else {
            self
        }
    }

    /// Whether the end has come.
    pub open spec fn is_over(self, now: u64) -> bool {
        self.finish_at matches Some(end) && now >= end
    }

    /// Whether to go on listening.
    pub open spec fn goes_on(self, cancelled: bool, now: u64) -> bool {
        !cancelled && !self.is_over(now)
    }

    /// The host that needs no answer: the own one, where its address is listed.
    pub open spec fn own_host(link: LinkView, addresses: Seq<u32>) -> Option<(u32, MacAddr)> {
        if addresses.contains(link.address.ip) {
            Some((link.address.ip, link.mac))
        } else {
            None
        }
    }

    /// The hosts that a row of packets brings.
    pub open spec fn hosts_in(self, packets: Seq<Seq<u8>>) -> Seq<(u32, MacAddr)>
        decreases packets.len(),
    {
        if packets.len() == 0 {
            Seq::empty()
        } else {
            let later = self.heard(packets[0]).hosts_in(packets.drop_first());
            match self.new_host(packets[0]) {
                Some(host) => seq![host] + later,
                None => later,
            }
        }
    }
}

/// What is said where reading failed for good. A read that timed out, would block or was
/// interrupted is tried again.
pub open spec fn reading_error(failure: IoFailure) -> Option<Seq<char>> {
    match failure.kind {
        IoKind::TimedOut => None,
        IoKind::WouldBlock => None,
        IoKind::Interrupted => None,
        _ => Some("ARP capture failed: "@ + failure.text@),
    }
}

/// The set of the addresses of a list.
fn to_set(addresses: &Vec<u32>) -> (result: HashSet<u32>)
    ensures
        result@ == addresses@.to_set(),
{
    broadcast use vstd::std_specs::hash::group_hash_axioms;

    let mut result: HashSet<u32> = HashSet::new();
    let mut i: usize = 0;
    assert(addresses@.take(0).to_set() =~= Set::empty());
    while i < addresses.len()
        invariant
            0 <= i <= addresses.len(),
            result@ == addresses@.take(i as int).to_set(),
        decreases addresses.len() - i,
    {
        let ip: u32 = addresses[i];
        result.insert(ip);
        proof {
            let longer = addresses@.take(i + 1);
            let shorter = addresses@.take(i as int);
            assert forall|x: u32| longer.to_set().contains(x) == shorter.to_set().insert(
                ip,
            ).contains(x) by {
                if longer.contains(x) {
                    let k = choose|k: int| 0 <= k < longer.len() && longer[k] == x;
                    if k < i {
                        assert(shorter[k] == x);
                    }
                }
                if shorter.contains(x) {
                    let k = choose|k: int| 0 <= k < shorter.len() && shorter[k] == x;
                    assert(longer[k] == x);
                }
                assert(longer[i as int] == ip);
            }
            assert(longer.to_set() =~= shorter.to_set().insert(ip));
        }
        i += 1;
    }
    assert(addresses@.take(i as int) =~= addresses@);
    result
}

impl Discovery {
    /// Begins to listen for the given addresses. The own address needs no answer: where it is
    /// one of them, it comes back as the first host.
    pub fn new(link: Link, addresses: &Vec<u32>) -> (result: (Discovery, Option<(u32, MacAddr)>))
        ensures
            result.0@ == DiscoveryView::initial(link@, addresses@),
            result.1 == DiscoveryView::own_host(link@, addresses@),
            result.1 == if addresses@.contains(link.address.ip) {
                Some((link.address.ip, link.mac))
            } else {
                None
            },
    {
        broadcast use vstd::std_specs::hash::group_hash_axioms;

        let allowed = to_set(addresses);
        let mut seen: HashSet<u32> = HashSet::new();
        let own: u32 = link.address.ip;
        let mut first: Option<(u32, MacAddr)> = None;
        if allowed.contains(&own) {
            seen.insert(own);
            first = Some((own, link.mac));
        }
        (Discovery { link, allowed, seen, finish_at: None }, first)
    }

    /// Decides whether to go on listening, at a time in milliseconds.
    pub fn poll(&mut self, cancelled: bool, all_sent: bool, now: u64) -> (result: Listening)
        requires
            now <= u64::MAX - ARP_GRACE_MS,
        ensures
            final(self)@ == old(self)@.polled(cancelled, all_sent, now),
            result is Read <==> final(self)@.goes_on(cancelled, now),
            if cancelled || final(self)@.is_over(now) {
                result == Listening::Stop(Ok(()))
            } else {
                result is Read
            },
    {
        if cancelled {
            return Listening::Stop(Ok(()));
        }
        if self.finish_at.is_none() && all_sent {
            self.finish_at = Some(now + ARP_GRACE_MS);
        }
        match self.finish_at {
            Some(end) if now >= end => Listening::Stop(Ok(())),
            _ => Listening::Read,
        }
    }

    /// Takes a packet that was read.
    pub fn packet(&mut self, bytes: &[u8]) -> (result: Listening)
        ensures
            final(self)@ == old(self)@.heard(bytes@),
            match old(self)@.new_host(bytes@) {
                Some((ip, mac)) => result == Listening::Report(ip, mac),
                None => result is Poll,
            },
    {
        broadcast use vstd::std_specs::hash::group_hash_axioms;

        match arp_reply(bytes, &self.link, &self.allowed) {
            Some((ip, mac)) => {
                if self.seen.contains(&ip) {
                    Listening::Poll
                } else {
                    self.seen.insert(ip);
                    Listening::Report(ip, mac)
                }
            },
            None => Listening::Poll,
        }
    }

    /// Takes note of whether a report was still wanted; where it was not, nobody waits for
    /// more.
    pub fn reported(&self, wanted: bool) -> (result: Listening)
        ensures
            if wanted {
                result is Poll
            } else {
                result == Listening::Stop(Ok(()))
            },
    {
        if wanted {
            Listening::Poll
        } else {
            Listening::Stop(Ok(()))
        }
    }

    /// Takes an error of reading.
    pub fn read_failed(&self, failure: IoFailure) -> (result: Listening)
        ensures
            match reading_error(failure) {
                None => result is Poll,
                Some(message) => result matches Listening::Stop(outcome) && fails_with(
                    outcome,
                    Some(message),
                ),
            },
    {
        match failure.kind {
            IoKind::TimedOut | IoKind::WouldBlock | IoKind::Interrupted => Listening::Poll,
            _ => Listening::Stop(Err(concat2("ARP capture failed: ", failure.text.as_str()))),
        }
    }
}

/// What a search comes to: a sender that broke down is told first, then what went wrong with
/// listening, then what went wrong with sending.
pub open spec fn search_error(
    captured: Option<Seq<char>>,
    sent: Option<Option<Seq<char>>>,
) -> Option<Seq<char>> {
    match sent {
        None => Some("ARP sender thread panicked."@),
        Some(sending) => match captured {
            Some(message) => Some(message),
            None => sending,
        },
    }
}

/// The message of the sender's failure; nothing where the sender broke down.
pub open spec fn sender_failure(sent: Option<Result<(), String>>) -> Option<Option<Seq<char>>> {
    match sent {
        None => None,
        Some(result) => Some(failure_of(result)),
    }
}

/// What a search comes to, from what listening came to and what sending came to. A sender
/// that broke down came to nothing.
pub fn search_outcome(captured: Result<(), String>, sent: Option<Result<(), String>>) -> (result:
    Result<(), String>)
    ensures
        fails_with(result, search_error(failure_of(captured), sender_failure(sent))),
{
    match sent {
        None => Err("ARP sender thread panicked.".to_string()),
        Some(sending) => match captured {
            Err(message) => Err(message),
            Ok(()) => sending,
        },
    }
}

// ---------------------------------------------------------------------------------------
// Laws.

/// Every address but the own one is asked twice as often as it is listed, and the own one
/// never.
pub proof fn law_every_address_is_asked_twice(addresses: Seq<u32>, own: u32, ip: u32)
    ensures
        asked(addresses, own).to_multiset().count(ip) == if ip == own {
            0
        } else {
            2 * addresses.to_multiset().count(ip)
        },
{
    let others = addresses.filter(other_than(own));
    lemma_filter_count(addresses, own, ip);
    vstd::seq_lib::lemma_multiset_commutative(others, others);
}

proof fn lemma_filter_count(addresses: Seq<u32>, own: u32, ip: u32)
    ensures
        addresses.filter(other_than(own)).to_multiset().count(ip) == if ip == own {
            0
        } else {
            addresses.to_multiset().count(ip)
        },
    decreases addresses.len(),
{
    broadcast use vstd::seq_lib::group_to_multiset_ensures;

    reveal(Seq::filter);
    if addresses.len() > 0 {
        let shorter = addresses.drop_last();
        lemma_filter_count(shorter, own, ip);
        assert(addresses =~= shorter.push(addresses.last()));
    } else {
        assert(addresses.filter(other_than(own)) =~= Seq::empty());
        assert(addresses =~= Seq::empty());
    }
}

/// No host is reported twice, however many packets come: each one that is reported was not
/// seen before and may be reported, and no two have the same address.
pub proof fn law_each_host_is_reported_once(state: DiscoveryView, packets: Seq<Seq<u8>>)
    ensures
        forall|i: int|
            0 <= i < state.hosts_in(packets).len() ==> {
                let host = #[trigger] state.hosts_in(packets)[i];
                !state.seen.contains(host.0) && state.allowed.contains(host.0)
            },
        forall|i: int, j: int|
            0 <= i < j < state.hosts_in(packets).len() ==> state.hosts_in(packets)[i].0
                != state.hosts_in(packets)[j].0,
    decreases packets.len(),
{
    if packets.len() > 0 {
        let next = state.heard(packets[0]);
        let later = next.hosts_in(packets.drop_first());
        law_each_host_is_reported_once(next, packets.drop_first());
        let all = state.hosts_in(packets);
        if let Some(host) = state.new_host(packets[0]) {
            assert(all =~= seq![host] + later);
            assert forall|i: int| 0 <= i < all.len() implies {
                let host = #[trigger] all[i];
                !state.seen.contains(host.0) && state.allowed.contains(host.0)
            } by {
                if i > 0 {
                    assert(all[i] == later[i - 1]);
                    assert(!next.seen.contains(later[i - 1].0));
                }
            }
            assert forall|i: int, j: int| 0 <= i < j < all.len() implies all[i].0 != all[j].0 by {
                assert(all[j] == later[j - 1]);
                assert(next.seen.contains(host.0));
                assert(!next.seen.contains(later[j - 1].0));
                if i > 0 {
                    assert(all[i] == later[i - 1]);
                }
            }
        }
    }
}

/// The own host, which is reported first, is not reported again.
pub proof fn law_own_host_is_not_heard(link: LinkView, addresses: Seq<u32>, packets: Seq<Seq<u8>>)
    ensures
        forall|i: int|
            0 <= i < DiscoveryView::initial(link, addresses).hosts_in(packets).len()
                ==> (#[trigger] DiscoveryView::initial(link, addresses).hosts_in(packets)[i]).0
                != link.address.ip && addresses.contains(
                DiscoveryView::initial(link, addresses).hosts_in(packets)[i].0,
            ),
{
    law_each_host_is_reported_once(DiscoveryView::initial(link, addresses), packets);
}

/// The end is fixed once, when all requests are sent, and comes no sooner than the time to
/// listen after that; before it only a cancelled search stops.
pub proof fn law_listening_lasts(state: DiscoveryView, all_sent: bool, now: u64, later: u64)
    requires
        now <= u64::MAX - ARP_GRACE_MS,
        state.finish_at is None,
    ensures
        !all_sent ==> !state.polled(false, all_sent, now).is_over(later),
        all_sent && later < now + ARP_GRACE_MS ==> !state.polled(false, all_sent, now).is_over(
            later,
        ),
        all_sent && later >= now + ARP_GRACE_MS ==> state.polled(false, all_sent, now).is_over(
            later,
        ),
        forall|sent: bool|
            all_sent ==> #[trigger] state.polled(false, all_sent, now).polled(false, sent, later)
                == state.polled(false, all_sent, now),
{
}

/// The addresses are asked in two equal rounds, each in the order of the list and without the
/// own address.
pub proof fn law_requests_go_out_in_two_equal_rounds(addresses: Seq<u32>, own: u32, ip: u32)
    ensures
        ({
            let before = asked(addresses, own);
            let after = asked(addresses.push(ip), own);
            let round = before.take(before.len() as int / 2);
            &&& before == round + round
            &&& ip == own ==> after == before
            &&& ip != own ==> after == round.push(ip) + round.push(ip)
            &&& asked(Seq::empty(), own).len() == 0
        }),
{
    reveal(Seq::filter);
    let round = addresses.filter(other_than(own));
    assert(asked(addresses, own).take(round.len() as int) =~= round);
    assert(addresses.push(ip).drop_last() =~= addresses);
    assert(Seq::<u32>::empty().filter(other_than(own)) =~= Seq::empty());
}

/// The first answer of a host is reported, and the host is then seen. A packet that announces
/// nobody, or somebody who was seen, is not reported and changes nothing. No packet changes the
/// link, the addresses that may be reported, or the end.
pub proof fn law_first_answer_is_reported(state: DiscoveryView, bytes: Seq<u8>)
    ensures
        ({
            let heard = crate::arp::announced(
                bytes,
                state.link.address.ip,
                state.link.mac,
                state.allowed,
            );
            &&& heard is None ==> state.new_host(bytes) is None && state.heard(bytes) == state
            &&& heard matches Some((ip, mac)) ==> if state.seen.contains(ip) {
                state.new_host(bytes) is None && state.heard(bytes) == state
            } else {
                &&& state.new_host(bytes) == Some((ip, mac))
                &&& state.heard(bytes).seen == state.seen.insert(ip)
                &&& state.heard(bytes).new_host(bytes) is None
            }
        }),
        state.heard(bytes).link == state.link,
        state.heard(bytes).allowed == state.allowed,
        state.heard(bytes).finish_at == state.finish_at,
{
}

/// What is heard in two rows of packets is what is heard in the first and then, knowing those,
/// in the second.
pub proof fn law_packets_are_heard_one_by_one(
    state: DiscoveryView,
    bytes: Seq<u8>,
    later: Seq<Seq<u8>>,
)
    ensures
        state.hosts_in(seq![bytes] + later) == match state.new_host(bytes) {
            Some(host) => seq![host] + state.heard(bytes).hosts_in(later),
            None => state.heard(bytes).hosts_in(later),
        },
        state.hosts_in(Seq::empty()).len() == 0,
{
    assert((seq![bytes] + later).drop_first() =~= later);
}

/// A search begins with the link and the listed addresses. Nobody is seen yet but the own
/// address, and that only where it is listed; when to stop is not known yet.
pub proof fn law_search_begins_unheard(link: LinkView, addresses: Seq<u32>, ip: u32)
    ensures
        ({
            let state = DiscoveryView::initial(link, addresses);
            &&& state.link == link
            &&& state.allowed.contains(ip) <==> addresses.contains(ip)
            &&& state.seen.contains(ip) <==> ip == link.address.ip && addresses.contains(ip)
            &&& state.finish_at is None
        }),
{
}

/// The end is two seconds after the first look at the clock at which all requests were sent. A
/// cancelled search, one with requests left, and one whose end is known fix nothing. A search is
/// over exactly from its end on.
pub proof fn law_end_is_fixed_once(
    state: DiscoveryView,
    cancelled: bool,
    all_sent: bool,
    now: u64,
    later: u64,
)
    requires
        now <= u64::MAX - 2000,
    ensures
        cancelled || !all_sent || state.finish_at is Some ==> state.polled(
            cancelled,
            all_sent,
            now,
        ) == state,
        !cancelled && all_sent && state.finish_at is None ==> {
            &&& state.polled(cancelled, all_sent, now).finish_at is Some
            &&& state.polled(cancelled, all_sent, now).finish_at->0 == now + 2000
            &&& state.polled(cancelled, all_sent, now).link == state.link
            &&& state.polled(cancelled, all_sent, now).allowed == state.allowed
            &&& state.polled(cancelled, all_sent, now).seen == state.seen
        },
        state.is_over(later) <==> state.finish_at is Some && state.finish_at->0 <= later,
{
}

/// Reading goes on after a timeout, after a read that would block and after an interruption, and
/// ends with the text of any other failure. Sending goes on after each frame that was sent, and
/// ends with the reason after one that was not.
pub proof fn law_failures_of_the_search(failure: IoFailure)
    ensures
        reading_error(failure) is None <==> failure.kind == IoKind::TimedOut || failure.kind
            == IoKind::WouldBlock || failure.kind == IoKind::Interrupted,
        reading_error(failure) is Some ==> reading_error(failure)->0 == "ARP capture failed: "@
            + failure.text@,
        sending_error(Sending::Done) is None,
        sending_error(Sending::NoBuffer) == Some("ARP transmit buffer unavailable."@),
        sending_error(Sending::Failed(failure)) == Some("ARP transmit failed: "@ + failure.text@),
{
}

/// A search comes to what went wrong with listening, or else with sending, or else to nothing
/// wrong; but a sender that broke down is told before all.
pub proof fn law_outcome_of_the_search(captured: Option<Seq<char>>, sending: Option<Seq<char>>)
    ensures
        search_error(captured, None) == Some("ARP sender thread panicked."@),
        captured is Some ==> search_error(captured, Some(sending)) == captured,
        captured is None ==> search_error(captured, Some(sending)) == sending,
{
}

/// Where a capture did not open, a search ends with the reason.
pub proof fn law_unopened_capture_ends_the_search(failure: IoFailure)
    ensures
        opening_error(Opened::Ethernet) is None,
        opening_error(Opened::Other) == Some("This interface does not support Ethernet ARP."@),
        failure.kind != IoKind::PermissionDenied ==> opening_error(Opened::Failed(failure)) == Some(
            "Cannot open packet capture: "@ + failure.text@,
        ),
        failure.kind == IoKind::PermissionDenied ==> opening_error(Opened::Failed(failure)) == Some(
            "Cannot open packet capture: "@ + failure.text@
                + ". Grant packet-capture access and restart the application."@,
        ),
{
}

/// The frames of a search ask, one after another and in the order in which the addresses are
/// asked, for each of them in the name of the link.
pub proof fn law_frames_ask_for_the_addresses(requests: RequestsView, i: int)
    requires
        0 <= i < requests.remaining.len(),
    ensures
        requests.frames().len() == requests.remaining.len(),
        crate::arp::frame_of(requests.frames()[i]) matches Some(frame) && {
            &&& frame.ethertype == 0x0806
            &&& crate::arp::arp_of(frame.payload) matches Some(arp) && {
                &&& arp.operation == 1
                &&& arp.sender_mac == requests.source
                &&& arp.sender_ip == requests.source_ip
                &&& arp.target_ip == requests.remaining[i]
            }
        },
{
    crate::arp::law_request_is_read_as_a_request(
        requests.source,
        requests.source_ip,
        requests.remaining[i],
    );
}

/// A result fails with a message exactly if it is an error with that very text, and with none
/// exactly if it is no error.
pub proof fn law_failures_have_their_message(result: Result<(), String>, text: Seq<char>)
    ensures
        fails_with(result, None) <==> result is Ok,
        fails_with(result, Some(text)) <==> (result matches Err(message) && message@ == text),
        fails_with(result, failure_of(result)),
        failure_of(result) is None <==> result is Ok,
        sender_failure(None) is None,
        sender_failure(Some(result)) == Some(failure_of(result)),
{
}

/// A search that was not cancelled goes on until two seconds after all requests were sent, and
/// for as long as some are not; a cancelled one stops.
pub proof fn law_search_goes_on_until_its_end(
    state: DiscoveryView,
    cancelled: bool,
    all_sent: bool,
    now: u64,
)
    requires
        now <= u64::MAX - 2000,
    ensures
        ({
            let after = state.polled(cancelled, all_sent, now);
            &&& cancelled ==> !after.goes_on(cancelled, now)
            &&& !cancelled && state.finish_at is None ==> after.goes_on(cancelled, now)
            &&& !cancelled ==> (state.finish_at matches Some(end) ==> (after.goes_on(cancelled, now)
                <==> now < end))
        }),
{
}

/// The own host is reported exactly where its address is listed, with the hardware address of the
/// link, and then counts as seen.
pub proof fn law_own_host_needs_no_answer(link: LinkView, addresses: Seq<u32>)
    ensures
        addresses.contains(link.address.ip) ==> DiscoveryView::own_host(link, addresses) == Some(
            (link.address.ip, link.mac),
        ),
        !addresses.contains(link.address.ip) ==> DiscoveryView::own_host(link, addresses) is None,
        DiscoveryView::initial(link, addresses).seen.contains(link.address.ip)
            <==> DiscoveryView::own_host(link, addresses) is Some,
{
}

} // verus!
