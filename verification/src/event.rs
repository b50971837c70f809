//! What a scan reports while it runs.

use vstd::prelude::*;

use crate::capture::CaptureState;
use crate::device::Device;
use crate::scan::Progress;

verus! {

/// A report of a running scan.
pub enum Event {
    /// A device was found, or something about it changed.
    Device(Device),
    /// What the scan is doing now.
    Status(String),
    /// How far the scan has come.
    Progress(Progress),
    /// Whether packets can be captured.
    Capture(CaptureState),
    /// The scan is over.
    Finished(Result<(), String>),
}

} // verus!
