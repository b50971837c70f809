//! Whether packets can be captured, and what to tell where they cannot.

use vstd::prelude::*;

use crate::link::Link;
use crate::text::{concat2, concat3};

verus! {

/// The kinds of I/O failure that are told apart.
#[derive(Clone, Copy, Debug, PartialEq, Eq, Structural)]
pub enum IoKind {
    PermissionDenied,
    TimedOut,
    WouldBlock,
    Interrupted,
    Other,
}

/// The type `std::io::Error`, of which only the kind and the text are ever read.
#[verifier::external_type_specification]
#[verifier::external_body]
pub struct ExIoError(std::io::Error);

/// The kind of an I/O error.
pub uninterp spec fn io_error_kind(error: std::io::Error) -> IoKind;

/// Calls `std::io::Error::kind`, which reads the kind from the error; every kind that has no
/// name here becomes `Other`.
#[verifier::external_body]
fn kind_of(error: &std::io::Error) -> (result: IoKind)
    ensures
        result == io_error_kind(*error),
{
    match error.kind() {
        std::io::ErrorKind::PermissionDenied => IoKind::PermissionDenied,
        std::io::ErrorKind::TimedOut => IoKind::TimedOut,
        std::io::ErrorKind::WouldBlock => IoKind::WouldBlock,
        std::io::ErrorKind::Interrupted => IoKind::Interrupted,
        _ => IoKind::Other,
    }
}

/// Calls the `Display` of `std::io::Error`. The text of an error of the system is worded by
/// the system, so nothing is claimed of it.
#[verifier::external_body]
fn text_of(error: &std::io::Error) -> (result: String) {
    error.to_string()
}

/// Whether a text is what the `Display` of an error may come to. The same error need not be
/// worded alike every time.
pub closed spec fn may_be_worded(error: std::io::Error, text: String) -> bool {
    call_ensures(text_of, (&error,), text)
}

/// What is kept of an I/O error: its kind, and its text as the system words it.
pub struct IoFailure {
    pub kind: IoKind,
    pub text: String,
}

/// Takes note of an I/O error.
pub fn io_failure(error: std::io::Error) -> (result: IoFailure)
    ensures
        result.kind == io_error_kind(error),
        may_be_worded(error, result.text),
{
    IoFailure { kind: kind_of(&error), text: text_of(&error) }
}

/// What is known of the access to packet capture.
#[derive(Debug)]
pub enum CaptureState {
    Unchecked,
    Checking,
    Ready,
    Denied(String),
    Unavailable(String),
}

/// The contents of a [`CaptureState`].
#[verifier::ext_equal]
pub enum CaptureView {
    Unchecked,
    Checking,
    Ready,
    Denied(Seq<char>),
    Unavailable(Seq<char>),
}

impl View for CaptureState {
    type V = CaptureView;

    open spec fn view(&self) -> CaptureView {
        match self {
            CaptureState::Unchecked => CaptureView::Unchecked,
            CaptureState::Checking => CaptureView::Checking,
            CaptureState::Ready => CaptureView::Ready,
            CaptureState::Denied(message) => CaptureView::Denied(message@),
            CaptureState::Unavailable(message) => CaptureView::Unavailable(message@),
        }
    }
}

impl Clone for CaptureState {
    fn clone(&self) -> (result: CaptureState)
        ensures
            result == *self,
    {
        match self {
            CaptureState::Unchecked => CaptureState::Unchecked,
            CaptureState::Checking => CaptureState::Checking,
            CaptureState::Ready => CaptureState::Ready,
            CaptureState::Denied(message) => CaptureState::Denied(message.clone()),
            CaptureState::Unavailable(message) => CaptureState::Unavailable(message.clone()),
        }
    }
}

/// What a failure to open the capture means: a refused permission is told apart from every
/// other failure.
pub open spec fn failure_state(kind: IoKind, text: Seq<char>) -> CaptureView {
    let message = "Cannot open packet capture: "@ + text;
    if kind == IoKind::PermissionDenied {
        CaptureView::Denied(message)
    } else {
        CaptureView::Unavailable(message)
    }
}

/// What a failure to open the capture means.
pub fn capture_failure(failure: IoFailure) -> (result: CaptureState)
    ensures
        result@ == failure_state(failure.kind, failure.text@),
{
    let message = concat2("Cannot open packet capture: ", failure.text.as_str());
    match failure.kind {
        IoKind::PermissionDenied => CaptureState::Denied(message),
        _ => CaptureState::Unavailable(message),
    }
}

/// What an error of opening the capture means. The message ends with the text of the error,
/// which is worded by the system.
pub fn capture_error(error: std::io::Error) -> (result: CaptureState)
    ensures
        exists|text: String| #[trigger]
            may_be_worded(error, text) && result@ == failure_state(io_error_kind(error), text@),
{
    let failure = io_failure(error);
    let ghost text = failure.text;
    let result = capture_failure(failure);
    assert(may_be_worded(error, text));
    result
}

/// How the capture is opened.
pub struct CaptureConfig {
    pub read_timeout_ms: u64,
    pub write_timeout_ms: u64,
    pub read_buffer_size: usize,
    pub promiscuous: bool,
}

/// Short timeouts, so that a cancelled scan ends soon, and no promiscuous mode.
pub fn capture_config() -> (result: CaptureConfig)
    ensures
        result.read_timeout_ms == 100,
        result.write_timeout_ms == 100,
        result.read_buffer_size == 65536,
        !result.promiscuous,
{
    CaptureConfig {
        read_timeout_ms: 100,
        write_timeout_ms: 100,
        read_buffer_size: 65536,
        promiscuous: false,
    }
}

/// What opening a capture channel came to.
pub enum Opened {
    /// A channel that carries Ethernet frames.
    Ethernet,
    /// A channel of another kind.
    Other,
    /// No channel.
    Failed(IoFailure),
}

/// The state that follows from an attempt to open the capture.
pub open spec fn opened_state(opened: Opened) -> CaptureView {
    match opened {
        Opened::Ethernet => CaptureView::Ready,
        Opened::Other => CaptureView::Unavailable("This interface does not support Ethernet ARP."@),
        Opened::Failed(failure) => failure_state(failure.kind, failure.text@),
    }
}

/// Accepts Ethernet channels only.
pub fn open_capture(opened: Opened) -> (result: Result<(), CaptureState>)
    ensures
        result is Ok <==> opened is Ethernet,
        result matches Err(state) ==> state@ == opened_state(opened),
{
    match opened {
        Opened::Ethernet => Ok(()),
        Opened::Other => Err(
            CaptureState::Unavailable("This interface does not support Ethernet ARP.".to_string()),
        ),
        Opened::Failed(failure) => Err(capture_failure(failure)),
    }
}

/// The state to show after a channel was opened and dropped again.
pub fn check_capture(opened: Opened) -> (result: CaptureState)
    ensures
        result@ == opened_state(opened),
{
    match open_capture(opened) {
        Ok(()) => CaptureState::Ready,
        Err(state) => state,
    }
}

/// What a scan reports that could not open the capture.
pub open spec fn scan_failure(state: CaptureView) -> Seq<char> {
    match state {
        CaptureView::Denied(message) => message
            + ". Grant packet-capture access and restart the application."@,
        CaptureView::Unavailable(message) => message,
        _ => Seq::empty(),
    }
}

/// What a scan reports that could not open the capture.
pub fn scan_failure_text(state: &CaptureState) -> (result: String)
    requires
        state is Denied || state is Unavailable,
    ensures
        result@ == scan_failure(state@),
{
    match state {
        CaptureState::Denied(message) => concat2(
            message.as_str(),
            ". Grant packet-capture access and restart the application.",
        ),
        CaptureState::Unavailable(message) => message.clone(),
        _ => String::new(),
    }
}

/// The exit code of the capture check: 0 where packets can be captured, 2 where the system
/// refused, 1 for every other outcome.
pub open spec fn exit_code(state: CaptureView) -> i32 {
    match state {
        CaptureView::Ready => 0,
        CaptureView::Denied(_) => 2,
        _ => 1,
    }
}

/// The exit code of the capture check.
pub fn check_exit_code(state: &CaptureState) -> (result: i32)
    ensures
        result == exit_code(state@),
{
    match state {
        CaptureState::Ready => 0,
        CaptureState::Denied(_) => 2,
        _ => 1,
    }
}

/// What the capture check prints where packets can be captured.
pub fn ready_text(name: &str, ip: u32) -> (result: String)
    ensures
        result@ == "Packet capture ready on "@ + name@ + " ("@ + crate::address::ipv4_text(ip)
            + ")."@,
{
    let address = crate::address::ipv4_to_text(ip);
    let front = concat3("Packet capture ready on ", name, " (");
    concat3(front.as_str(), address.as_str(), ").")
}

/// What the capture check prints, and its exit code. Of a state other than ready nothing is
/// worded here. No interface to check is an outcome of its own.
pub fn check_report(checked: Option<(&Link, &CaptureState)>) -> (result: (Option<String>, i32))
    ensures
        match checked {
            None => {
                &&& result.0 is Some
                &&& result.0->0@ == "No active IPv4 Ethernet/Wi-Fi interface found."@
                &&& result.1 == 1
            },
            Some((link, state)) => {
                &&& result.0 is Some <==> state@ == CaptureView::Ready
                &&& result.0 is Some ==> result.0->0@ == "Packet capture ready on "@
                    + link.interface.name@ + " ("@ + crate::address::ipv4_text(link.address.ip)
                    + ")."@
                &&& result.1 == exit_code(state@)
            },
        },
{
    match checked {
        None => (Some("No active IPv4 Ethernet/Wi-Fi interface found.".to_string()), 1),
        Some((link, state)) => {
            let line = match state {
                CaptureState::Ready => Some(
                    ready_text(link.interface.name.as_str(), link.address.ip),
                ),
                _ => None,
            };
            (line, check_exit_code(state))
        },
    }
}

/// An interface on which the system refused the capture is never reported as ready, nor is
/// one that has no Ethernet channel.
pub proof fn law_ready_means_ethernet(opened: Opened)
    ensures
        opened_state(opened) == CaptureView::Ready <==> opened is Ethernet,
        exit_code(opened_state(opened)) == 0 <==> opened is Ethernet,
{
}

/// The exit code tells a refused permission from everything else.
pub proof fn law_denied_means_permission(failure: IoFailure)
    ensures
        exit_code(opened_state(Opened::Failed(failure))) == 2 <==> failure.kind
            == IoKind::PermissionDenied,
{
}

/// What an attempt to open the capture is taken for: an Ethernet channel is ready, a refused
/// permission is denied, and everything else is unavailable, with the reason.
pub proof fn law_attempt_decides_the_state(failure: IoFailure)
    ensures
        opened_state(Opened::Ethernet) == CaptureView::Ready,
        opened_state(Opened::Other) == CaptureView::Unavailable(
            "This interface does not support Ethernet ARP."@,
        ),
        failure.kind == IoKind::PermissionDenied ==> opened_state(Opened::Failed(failure))
            == CaptureView::Denied("Cannot open packet capture: "@ + failure.text@),
        failure.kind != IoKind::PermissionDenied ==> opened_state(Opened::Failed(failure))
            == CaptureView::Unavailable("Cannot open packet capture: "@ + failure.text@),
{
}

/// The exit code is 0 for a ready capture, 2 for a denied one and 1 for every other state. A scan
/// tells the reason of a capture that is unavailable, and for a denied one also what to do.
pub proof fn law_state_decides_the_exit_code(state: CaptureView, message: Seq<char>)
    ensures
        exit_code(state) == 0 <==> state == CaptureView::Ready,
        exit_code(state) == 2 <==> state is Denied,
        exit_code(state) == 1 <==> state != CaptureView::Ready && !(state is Denied),
        scan_failure(CaptureView::Unavailable(message)) == message,
        scan_failure(CaptureView::Denied(message)) == message
            + ". Grant packet-capture access and restart the application."@,
{
}

} // verus!
