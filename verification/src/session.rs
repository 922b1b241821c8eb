//! Capture session lifecycle: an Idle/Capturing state machine.
//!
//! The controller makes every start/stop decision; the host executes the
//! decisions against the audio backend (enumerating devices, opening the
//! stream bound to the downmix callback, beginning playback, dropping the
//! stream) and reports the outcome back. At most one session is active at a
//! time: a start while capturing decides to open nothing, and a stop waits
//! for the host to release the stream before the session counts as idle.

use vstd::prelude::*;

verus! {

use crate::device::DeviceChoice;
use crate::format::{SupportedFormat, StreamConfig, spec_negotiate};

/// The failures a capture session can report. The first four are
/// synchronous outcomes of starting; the last is an asynchronous fault
/// reported out-of-band after the stream started, which leaves the session
/// capturing until the caller stops it.
#[derive(Clone, Copy, Debug, PartialEq, Eq)]
pub enum CaptureError {
    /// Device selection exhausted every heuristic: no input device exists.
    NoDeviceFound,
    /// The chosen device's supported formats could not be enumerated.
    ConfigQueryFailed,
    /// No advertised format could be matched. The first-acceptable
    /// negotiator always falls back to a default, so starting never reports
    /// this; it exists for policies that reject instead of falling back.
    ConfigUnsupported,
    /// The backend rejected opening the capture stream.
    StreamOpenFailed,
    /// The backend rejected starting playback of the capture stream.
    StreamStartFailed,
    /// An asynchronous fault after the stream started.
    StreamRuntimeError,
}

impl CaptureError {
    /// A human-readable description of the failure.
    pub fn message(&self) -> (m: &'static str) {
        match self {
            CaptureError::NoDeviceFound => "no loopback capture device found",
            CaptureError::ConfigQueryFailed => "could not query supported stream configurations",
            CaptureError::ConfigUnsupported => "no supported stream configuration matched",
            CaptureError::StreamOpenFailed => "could not build the capture stream",
            CaptureError::StreamStartFailed => "could not start the capture stream",
            CaptureError::StreamRuntimeError => "the capture stream reported an error",
        }
    }
}

/// The decision `plan_start` hands the host.
#[derive(Clone, Copy, Debug, PartialEq, Eq)]
pub enum StartPlan {
    /// A session is already capturing: succeed without opening a second
    /// stream.
    AlreadyCapturing,
    /// Starting cannot proceed; the session stays idle and nothing is left
    /// behind.
    Fail(CaptureError),
    /// Open the capture stream with this configuration, bind the downmix
    /// callback and an error callback, begin playback, and report back.
    Open(StreamConfig),
}

/// The Idle/Capturing state of the capture session.
pub struct SessionController {
    active: bool,
    config: Option<StreamConfig>,
}

impl SessionController {
    /// Whether a capture session is currently active.
    pub closed spec fn is_capturing(self) -> bool {
        self.active
    }

    /// The stream configuration of the active session.
    pub closed spec fn current_config(self) -> Option<StreamConfig> {
        self.config
    }

    /// A configuration is held exactly while a session is active.
    pub open spec fn wf(self) -> bool {
        self.is_capturing() <==> self.current_config() is Some
    }

    /// The idle state: no session, no stream, no configuration held.
    pub closed spec fn spec_idle() -> SessionController {
        SessionController { active: false, config: None }
    }

    /// The start decision, given the device search outcome and the formats
    /// the chosen device advertises (`None` when the query itself failed).
    pub open spec fn spec_plan_start(
        self,
        selection: DeviceChoice,
        formats: Option<Seq<SupportedFormat>>,
    ) -> StartPlan {
        if self.is_capturing() {
            StartPlan::AlreadyCapturing
        } else if selection is NoDevice {
            StartPlan::Fail(CaptureError::NoDeviceFound)
        } else {
            match formats {
                None => StartPlan::Fail(CaptureError::ConfigQueryFailed),
                Some(fs) => StartPlan::Open(spec_negotiate(fs)),
            }
        }
    }

    /// A fresh, idle controller.
    pub fn new() -> (c: Self)
        ensures
            c == Self::spec_idle(),
            !c.is_capturing(),
            c.wf(),
    {
        SessionController { active: false, config: None }
    }

    /// Whether a session is active, for the host.
    pub fn capturing(&self) -> (b: bool)
        ensures
            b == self.is_capturing(),
    {
        self.active
    }

    /// Decide how to handle a start request: a no-op when already
    /// capturing, a failure that leaves the session idle when no device was
    /// found or its formats could not be queried, and otherwise an order to
    /// open the stream with the negotiated configuration.
    pub fn plan_start(
        &self,
        selection: DeviceChoice,
        formats: Option<&Vec<SupportedFormat>>,
    ) -> (p: StartPlan)
        ensures
            p == self.spec_plan_start(selection, spec_formats_view(formats)),
    {
        if self.active {
            StartPlan::AlreadyCapturing
        } else if matches!(selection, DeviceChoice::NoDevice) {
            StartPlan::Fail(CaptureError::NoDeviceFound)
        } else {
            match formats {
                None => StartPlan::Fail(CaptureError::ConfigQueryFailed),
                Some(fs) => StartPlan::Open(crate::format::negotiate(fs)),
            }
        }
    }

    /// Record that the host opened the stream and began playback: the
    /// session transitions to Capturing with this configuration.
    pub fn confirm_started(&mut self, config: StreamConfig)
        requires
            !old(self).is_capturing(),
        ensures
            final(self).is_capturing(),
            final(self).wf(),
            final(self).current_config() == Some(config),
    {
        self.active = true;
        self.config = Some(config);
    }

    /// Handle a stop request: the session becomes idle and holds nothing.
    /// The result says whether a stream was open; when it was, the host must
    /// release it (and join the worker owning it) before `stop` returns to
    /// its caller. Stopping while idle is a safe no-op.
    pub fn stop(&mut self) -> (was_capturing: bool)
        ensures
            *final(self) == Self::spec_idle(),
            !final(self).is_capturing(),
            final(self).wf(),
            was_capturing == old(self).is_capturing(),
    {
        let was = self.active;
        self.active = false;
        self.config = None;
        was
    }
}

/// The view of the optionally borrowed advertised formats.
pub open spec fn spec_formats_view(formats: Option<&Vec<SupportedFormat>>) -> Option<
    Seq<SupportedFormat>,
> {
    match formats {
        Some(fs) => Some(fs@),
        None => None,
    }
}

/// Starting is idempotent: while a session is capturing, every further
/// start decision is to succeed without opening a second stream, so at most
/// one session is ever active.
pub proof fn lemma_start_idempotent(
    c: SessionController,
    selection: DeviceChoice,
    formats: Option<Seq<SupportedFormat>>,
)
    requires
        c.is_capturing(),
    ensures
        c.spec_plan_start(selection, formats) == StartPlan::AlreadyCapturing,
{
}

/// Stopping is idempotent and releasing: after a stop the controller is
/// exactly the idle state, holding no stream or configuration, a second
/// stop leaves it unchanged, and a following start proceeds as from a fresh
/// controller — with a device selected and its formats enumerated, the plan
/// is to open a fresh stream.
pub proof fn lemma_stop_then_start(selection: DeviceChoice, formats: Seq<SupportedFormat>)
    ensures
        !SessionController::spec_idle().is_capturing(),
        SessionController::spec_idle().current_config() is None,
        !(selection is NoDevice) ==> SessionController::spec_idle().spec_plan_start(
            selection,
            Some(formats),
        ) == StartPlan::Open(spec_negotiate(formats)),
{
}

} // verus!
