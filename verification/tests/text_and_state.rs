use mictrayrs::audio::{
    format_devices, probe_snapshot, toggle_target, write_failed_message, DeviceInfo,
    MicControllerTrait, Readback, Snapshot, StubMic,
};
use mictrayrs::log::line_text;
use mictrayrs::mic::State;
use mictrayrs::text::{decimal, decimal_padded};

fn dev(id: &str, name: &str, console: bool, comms: bool) -> DeviceInfo {
    DeviceInfo {
        id: id.to_string(),
        name: name.to_string(),
        is_default_console: console,
        is_default_comms: comms,
    }
}

fn snap(muted: Option<bool>) -> Snapshot {
    Snapshot {
        device_id: "{0.0.1}.{abc}".to_string(),
        device_name: "麦克风阵列".to_string(),
        muted,
        follows_default: true,
        selected_id: String::new(),
        error: None,
    }
}

#[test]
fn decimal_text() {
    assert_eq!(decimal(0), "0");
    assert_eq!(decimal(7), "7");
    assert_eq!(decimal(1234567890123), "1234567890123");
    assert_eq!(decimal_padded(42, 6), "    42");
    assert_eq!(decimal_padded(1234567, 6), "1234567");
}

#[test]
fn log_line_pads_milliseconds_to_six_columns() {
    assert_eq!(line_text(42, "hello"), "[+    42ms] hello\n");
    assert_eq!(line_text(12345678, "x"), "[+12345678ms] x\n");
}

#[test]
fn label_lists_default_roles() {
    assert_eq!(dev("a", "Mic", false, false).label(), "Mic");
    assert_eq!(dev("a", "Mic", true, false).label(), "Mic [默认]");
    assert_eq!(dev("a", "Mic", false, true).label(), "Mic [通信默认]");
    assert_eq!(dev("a", "Mic", true, true).label(), "Mic [默认 / 通信默认]");
}

#[test]
fn device_roles_follow_default_ids() {
    let d = DeviceInfo::from_endpoint(
        "x".to_string(),
        "X".to_string(),
        &Some("x".to_string()),
        &Some("y".to_string()),
    );
    assert!(d.is_default_console);
    assert!(!d.is_default_comms);
    let e = DeviceInfo::from_endpoint("z".to_string(), "Z".to_string(), &None, &None);
    assert!(!e.is_default_console && !e.is_default_comms);
}

#[test]
fn format_devices_numbers_each_device() {
    let lines = format_devices(&[dev("id0", "A", true, false), dev("id1", "B", false, false)]);
    assert_eq!(
        lines,
        vec![
            "      活动录音设备 2 个:".to_string(),
            "        [0] A [默认]".to_string(),
            "             id=id0".to_string(),
            "        [1] B".to_string(),
            "             id=id1".to_string(),
        ]
    );
    assert_eq!(format_devices(&[]), vec!["      活动录音设备 0 个:".to_string()]);
}

#[test]
fn state_text_keeps_unknown_distinct() {
    assert_eq!(snap(Some(true)).state_text(), "已静音");
    assert_eq!(snap(Some(false)).state_text(), "未静音");
    assert_eq!(snap(None).state_text(), "状态未知");
}

#[test]
fn unknown_snapshot() {
    let s = Snapshot::unknown("boom".to_string());
    assert_eq!(s.device_id, "");
    assert_eq!(s.device_name, "(未找到可用麦克风)");
    assert_eq!(s.muted, None);
    assert!(s.follows_default);
    assert_eq!(s.selected_id, "");
    assert_eq!(s.error.as_deref(), Some("boom"));
}

#[test]
fn from_parts_follows_default_only_without_selection() {
    let a = Snapshot::from_parts("id", "name", Some(true), None, "");
    assert!(a.follows_default);
    let b = Snapshot::from_parts("id", "name", Some(false), Some("e".to_string()), "sel");
    assert!(!b.follows_default);
    assert_eq!(b.selected_id, "sel");
    assert_eq!(b.error.as_deref(), Some("e"));
}

#[test]
fn toggle_refuses_to_write_when_state_is_unknown() {
    assert_eq!(toggle_target(&snap(None)), None);
    assert_eq!(toggle_target(&snap(Some(true))), Some(false));
    assert_eq!(toggle_target(&snap(Some(false))), Some(true));
}

#[test]
fn stub_backend_reports_unknown_everywhere() {
    let m = StubMic::new("no backend".to_string());
    for s in [m.snapshot(), m.set_muted(true), m.toggle_muted(), m.select_device("x")] {
        assert_eq!(s.muted, None);
        assert_eq!(s.error.as_deref(), Some("no backend"));
        assert_eq!(s.device_name, "(未找到可用麦克风)");
    }
    assert!(m.devices().is_empty());
}

#[test]
fn readback_success_stops_and_reports_no_error() {
    let mut rb = Readback::new();
    assert!(!rb.record(true, Err("0x8000".to_string())));
    assert!(rb.record(true, Ok(true)));
    assert_eq!(rb.verdict(true), (Some(true), None));
}

#[test]
fn readback_mismatch_reports_the_value_read() {
    let mut rb = Readback::new();
    for _ in 0..3 {
        assert!(!rb.record(true, Ok(false)));
    }
    let (m, e) = rb.verdict(true);
    assert_eq!(m, Some(false));
    assert_eq!(e.as_deref(), Some("SetMute(true) 未生效：回读实际值 = false（可能被系统/驱动接管）"));
}

#[test]
fn readback_failures_leave_the_state_unknown() {
    let mut rb = Readback::new();
    rb.record(false, Err("E1".to_string()));
    rb.record(false, Err("E2".to_string()));
    assert_eq!(
        rb.verdict(false),
        (None, Some("SetMute(false) 后回读失败: E2".to_string()))
    );
    assert_eq!(
        Readback::new().verdict(false),
        (None, Some("SetMute 后无法回读，状态未知".to_string()))
    );
}

#[test]
fn write_failure_message() {
    assert_eq!(
        write_failed_message(true, "0x80070005"),
        "IAudioEndpointVolume::SetMute(true) 失败: 0x80070005"
    );
}

#[test]
fn probe_snapshot_cases() {
    let ok = probe_snapshot(Ok(("id".into(), "nm".into(), true)), None, "");
    assert_eq!((ok.device_id.as_str(), ok.muted, ok.error.is_none()), ("id", Some(true), true));
    let named = probe_snapshot(Err("read".into()), Some(("id".into(), "nm".into())), "sel");
    assert_eq!(named.device_name, "nm");
    assert_eq!(named.muted, None);
    assert!(!named.follows_default);
    let lost = probe_snapshot(Err("read".into()), None, "");
    assert_eq!(lost.device_id, "");
    assert_eq!(lost.device_name, "(未找到可用麦克风)");
    assert_eq!(lost.error.as_deref(), Some("read"));
}

#[test]
fn icon_state_and_colors() {
    assert_eq!(State::from_muted(Some(true)), State::Off);
    assert_eq!(State::from_muted(Some(false)), State::On);
    assert_eq!(State::from_muted(None), State::Unknown);
    assert_eq!(State::On.rgb(), (0x22, 0xB1, 0x4C));
    assert_eq!(State::Off.rgb(), (0xE8, 0x11, 0x23));
    assert_eq!(State::Unknown.rgb(), (0x9A, 0xA0, 0xA6));
    assert!(State::Off.has_slash());
    assert!(!State::On.has_slash() && !State::Unknown.has_slash());
}

/// A backend that remembers the state and every write, to watch the default toggle.
struct FakeMic {
    state: std::sync::Mutex<Option<bool>>,
    writes: std::sync::Mutex<Vec<bool>>,
}

impl FakeMic {
    fn new(state: Option<bool>) -> FakeMic {
        FakeMic {
            state: std::sync::Mutex::new(state),
            writes: std::sync::Mutex::new(Vec::new()),
        }
    }
}

impl MicControllerTrait for FakeMic {
    fn snapshot(&self) -> Snapshot {
        let m = *self.state.lock().unwrap();
        Snapshot::from_parts("id", "Fake", m, None, "")
    }

    fn set_muted(&self, muted: bool) -> Snapshot {
        self.writes.lock().unwrap().push(muted);
        *self.state.lock().unwrap() = Some(muted);
        self.snapshot()
    }

    fn devices(&self) -> Vec<DeviceInfo> {
        Vec::new()
    }

    fn select_device(&self, _id: &str) -> Snapshot {
        self.snapshot()
    }
}

#[test]
fn default_toggle_writes_the_negation_of_a_known_state() {
    let m = FakeMic::new(Some(false));
    assert_eq!(m.toggle_muted().muted, Some(true));
    assert_eq!(m.toggle_muted().muted, Some(false));
    assert_eq!(*m.writes.lock().unwrap(), vec![true, false]);
}

#[test]
fn default_toggle_never_writes_an_unknown_state() {
    let m = FakeMic::new(None);
    let r = m.toggle_muted();
    assert_eq!(r.muted, None);
    assert!(m.writes.lock().unwrap().is_empty());
}
