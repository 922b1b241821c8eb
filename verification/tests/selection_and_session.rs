use loopback_capture::device::{select_loopback_device, DeviceChoice};
use loopback_capture::format::{negotiate, SampleKind, StreamConfig, SupportedFormat};
use loopback_capture::session::{CaptureError, SessionController, StartPlan};

fn names(list: &[&str]) -> Vec<Vec<u8>> {
    list.iter().map(|n| n.as_bytes().to_vec()).collect()
}

// A device named "Speakers (loopback)" with default output "Speakers" wins
// over an unrelated "Microphone" device.
#[test]
fn selector_prefers_matching_loopback() {
    let out = b"Speakers".to_vec();
    let inputs = names(&["Microphone", "Speakers (loopback)"]);
    let c = select_loopback_device(Some(&out), &inputs, true);
    assert_eq!(c, DeviceChoice::Input(1));
}

#[test]
fn selector_matching_loopback_beats_earlier_plain_loopback() {
    let out = b"Speakers".to_vec();
    let inputs = names(&["Monitor (loopback)", "Speakers (loopback)"]);
    let c = select_loopback_device(Some(&out), &inputs, true);
    assert_eq!(c, DeviceChoice::Input(1));
}

#[test]
fn selector_marker_match_is_case_insensitive() {
    let out = b"Speakers".to_vec();
    let inputs = names(&["Speakers (Loopback)"]);
    let c = select_loopback_device(Some(&out), &inputs, true);
    assert_eq!(c, DeviceChoice::Input(0));
}

#[test]
fn selector_falls_back_to_any_loopback() {
    let inputs = names(&["Microphone", "Monitor LOOPBACK tap"]);
    let c = select_loopback_device(None, &inputs, true);
    assert_eq!(c, DeviceChoice::Input(1));
}

#[test]
fn selector_falls_back_to_default_input() {
    let inputs = names(&["Microphone", "Headset"]);
    let c = select_loopback_device(Some(&b"Speakers".to_vec()), &inputs, true);
    assert_eq!(c, DeviceChoice::DefaultInput);
}

#[test]
fn selector_reports_no_device() {
    let inputs = names(&[]);
    let c = select_loopback_device(None, &inputs, false);
    assert_eq!(c, DeviceChoice::NoDevice);
}

fn fmt(kind: SampleKind, channels: u16, min: u32, max: u32) -> SupportedFormat {
    SupportedFormat { kind, channels, min_sample_rate: min, max_sample_rate: max }
}

// The first float-sampled format wins, at its maximum sample rate.
#[test]
fn negotiate_picks_first_float_format_at_max_rate() {
    let formats = vec![
        fmt(SampleKind::Other, 1, 8000, 44100),
        fmt(SampleKind::F32, 6, 16000, 96000),
        fmt(SampleKind::F32, 2, 8000, 48000),
    ];
    assert_eq!(negotiate(&formats), StreamConfig { channels: 6, sample_rate: 96000 });
}

#[test]
fn negotiate_falls_back_to_stereo_48k() {
    let formats = vec![fmt(SampleKind::Other, 2, 8000, 44100)];
    assert_eq!(negotiate(&formats), StreamConfig { channels: 2, sample_rate: 48000 });
    assert_eq!(negotiate(&Vec::new()), StreamConfig { channels: 2, sample_rate: 48000 });
}

// Two starts in a row yield exactly one active session: the second start
// succeeds without opening a second stream.
#[test]
fn start_twice_keeps_one_session() {
    let mut ctrl = SessionController::new();
    assert!(!ctrl.capturing());
    let formats = vec![fmt(SampleKind::F32, 2, 8000, 48000)];
    let plan = ctrl.plan_start(DeviceChoice::Input(0), Some(&formats));
    assert_eq!(plan, StartPlan::Open(StreamConfig { channels: 2, sample_rate: 48000 }));
    ctrl.confirm_started(StreamConfig { channels: 2, sample_rate: 48000 });
    assert!(ctrl.capturing());
    let again = ctrl.plan_start(DeviceChoice::Input(0), Some(&formats));
    assert_eq!(again, StartPlan::AlreadyCapturing);
    assert!(ctrl.capturing());
}

// After a stop the stream is released and another start immediately
// proceeds; stopping twice is safe.
#[test]
fn stop_releases_and_start_again_succeeds() {
    let mut ctrl = SessionController::new();
    ctrl.confirm_started(StreamConfig { channels: 2, sample_rate: 48000 });
    assert!(ctrl.stop()); // a stream was held: the host must release it
    assert!(!ctrl.capturing());
    assert!(!ctrl.stop()); // second stop: nothing held, still a success
    assert!(!ctrl.capturing());
    let formats = vec![fmt(SampleKind::F32, 2, 8000, 48000)];
    let plan = ctrl.plan_start(DeviceChoice::Input(0), Some(&formats));
    assert_eq!(plan, StartPlan::Open(StreamConfig { channels: 2, sample_rate: 48000 }));
}

#[test]
fn start_failures_leave_session_idle() {
    let ctrl = SessionController::new();
    let plan = ctrl.plan_start(DeviceChoice::NoDevice, None);
    assert_eq!(plan, StartPlan::Fail(CaptureError::NoDeviceFound));
    let plan = ctrl.plan_start(DeviceChoice::DefaultInput, None);
    assert_eq!(plan, StartPlan::Fail(CaptureError::ConfigQueryFailed));
    assert!(!ctrl.capturing());
}

#[test]
fn error_messages_are_distinct() {
    let all = [
        CaptureError::NoDeviceFound,
        CaptureError::ConfigQueryFailed,
        CaptureError::ConfigUnsupported,
        CaptureError::StreamOpenFailed,
        CaptureError::StreamStartFailed,
        CaptureError::StreamRuntimeError,
    ];
    for (i, a) in all.iter().enumerate() {
        assert!(!a.message().is_empty());
        for b in &all[i + 1..] {
            assert_ne!(a.message(), b.message());
        }
    }
}
