use mictrayrs::audio::{DeviceInfo, Snapshot};
use mictrayrs::cli::{export_dir, has_flag};
use mictrayrs::diag::{diag_report, err_suffix, observe, poll_decision, round_trip_plan};
use mictrayrs::envinfo::probe;
use mictrayrs::mic::State;
use mictrayrs::preview::{preview_sheet, zoom_sheet};
use mictrayrs::tray::{menu_action, menu_model, tooltip_text, truncate, MenuAction};

fn snap(muted: Option<bool>, name: &str, selected: &str) -> Snapshot {
    Snapshot {
        device_id: "dev-1".to_string(),
        device_name: name.to_string(),
        muted,
        follows_default: selected.is_empty(),
        selected_id: selected.to_string(),
        error: None,
    }
}

fn dev(id: &str, name: &str) -> DeviceInfo {
    DeviceInfo {
        id: id.to_string(),
        name: name.to_string(),
        is_default_console: false,
        is_default_comms: false,
    }
}

fn args(v: &[&str]) -> Vec<String> {
    v.iter().map(|s| s.to_string()).collect()
}

#[test]
fn truncate_counts_characters() {
    assert_eq!(truncate("abc", 3), "abc");
    assert_eq!(truncate("abcdef", 4), "abc…");
    assert_eq!(truncate("麦克风阵列设备", 4), "麦克风…");
    assert_eq!(truncate("ab", 0), "…");
}

#[test]
fn tooltip_shows_state_and_short_name() {
    let s = snap(Some(true), &"x".repeat(50), "");
    let t = tooltip_text(&s);
    assert_eq!(t, format!("MicTrayRs — 已静音｜{}…", "x".repeat(39)));
    assert!(t.chars().count() <= 60);
}

#[test]
fn menu_model_checks_follow_default() {
    let devs = vec![dev("a", "A"), dev("b", "B")];
    let m = menu_model(&snap(None, "麦克风", ""), &devs, true);
    assert_eq!(m.info, "当前麦克风：麦克风（状态未知）");
    assert!(m.follow_checked);
    assert!(m.autostart_checked);
    assert_eq!(m.devices.len(), 2);
    assert_eq!(m.devices[0].id, "dev:a");
    assert_eq!(m.devices[1].text, "B");
    assert!(!m.devices[0].checked && !m.devices[1].checked);
}

#[test]
fn menu_model_checks_the_selected_device() {
    let devs = vec![dev("a", "A"), dev("b", "B")];
    let m = menu_model(&snap(Some(false), "B", "b"), &devs, false);
    assert!(!m.follow_checked);
    assert!(!m.devices[0].checked);
    assert!(m.devices[1].checked);
}

#[test]
fn menu_ids_dispatch_to_actions() {
    assert!(matches!(menu_action("dev:abc"), MenuAction::SelectDevice(s) if s == "abc"));
    assert!(matches!(menu_action("dev:"), MenuAction::SelectDevice(s) if s.is_empty()));
    assert!(matches!(menu_action("toggle_mute"), MenuAction::ToggleMute));
    assert!(matches!(menu_action("toggle_overlay"), MenuAction::ToggleOverlay));
    assert!(matches!(menu_action("toggle_autostart"), MenuAction::ToggleAutostart));
    assert!(matches!(menu_action("dev_rescan"), MenuAction::RescanDevices));
    assert!(matches!(menu_action("quit"), MenuAction::Quit));
    assert!(matches!(menu_action("info_device"), MenuAction::Info));
    assert!(matches!(menu_action("other"), MenuAction::Unknown(s) if s == "other"));
}

#[test]
fn device_item_ids_round_trip_through_dispatch() {
    let devs = vec![dev("{0.0.1.00000000}.{x}", "A")];
    let m = menu_model(&snap(None, "A", ""), &devs, false);
    match menu_action(&m.devices[0].id) {
        MenuAction::SelectDevice(id) => assert_eq!(id, devs[0].id),
        _ => panic!("device item did not dispatch to a selection"),
    }
}

#[test]
fn err_suffix_wraps_the_error() {
    let mut s = snap(None, "A", "");
    assert_eq!(err_suffix(&s), "");
    s.error = Some("E".to_string());
    assert_eq!(err_suffix(&s), "   [E]");
}

#[test]
fn round_trip_is_skipped_when_state_unknown() {
    assert_eq!(round_trip_plan(&snap(None, "A", "")), None);
    assert_eq!(round_trip_plan(&snap(Some(true), "A", "")), Some((false, true)));
}

#[test]
fn diag_report_with_successful_round_trip() {
    let s = snap(Some(false), "Mic", "");
    let a = snap(Some(true), "Mic", "");
    let b = snap(Some(false), "Mic", "");
    let env = probe(vec![], Some(true), Some(true), String::new());
    let text = diag_report(&s, &env, &[dev("dev-1", "Mic")], &a, &b);
    let lines = [
        "MicTrayRs 音频诊断",
        "========================================",
        "受控设备 : Mic",
        "设备 id  : dev-1",
        "选择模式 : 跟随系统默认",
        "当前状态 : 未静音",
        "",
        "环境自检:",
        "    MMDevApi.dll      : 存在（系统音频组件完整）",
        "    CLSID 已注册      : 是（{BCDE0395-E52F-467C-8E3D-C4579291692E}）",
        "    宿主标记          : 未命中",
        "    结论              : 本机 WASAPI 链路正常，应以「活动录音设备」清单为准。",
        "",
        "活动录音设备:",
        "  [0] Mic",
        "       id=dev-1",
        "",
        "往返测试 : 起始状态 = 未静音",
        "  SetMute(true) -> 回读 = 已静音",
        "  SetMute(false) -> 回读 = 未静音   （已恢复原状态）",
        "结论     : 端点静音「读-写-回读」链路正常。",
        "           若此时 Windows 侧仍看不到变化，说明控制的不是你在看的那只麦，",
        "           或该机型把静音开关放在硬件/驱动层（端点静音 API 管不到）。",
        "========================================",
    ];
    let mut expected = String::new();
    for l in lines.iter() {
        expected.push_str(l);
        expected.push_str("\r\n");
    }
    assert_eq!(text, expected);
}

#[test]
fn diag_report_when_state_unknown() {
    let mut s = snap(None, "(未找到可用麦克风)", "");
    s.device_id = String::new();
    s.error = Some("E".to_string());
    let env = probe(vec![], None, None, String::new());
    let text = diag_report(&s, &env, &[], &s, &s);
    assert!(text.contains("设备 id  : (未知)\r\n"));
    assert!(text.contains("读取错误 : E\r\n"));
    assert!(text.contains("  （枚举不到任何录音设备。\r\n"));
    assert!(text.ends_with("往返测试 : 跳过（当前状态读取失败，不做冒险写入）\r\n========================================\r\n"));
}

#[test]
fn diag_report_with_failed_round_trip() {
    let s = snap(Some(true), "Mic", "sel");
    let mut a = snap(Some(true), "Mic", "sel");
    a.error = Some("X".to_string());
    let b = snap(Some(true), "Mic", "sel");
    let env = probe(vec![], None, None, String::new());
    let text = diag_report(&s, &env, &[], &a, &b);
    assert!(text.contains("选择模式 : 显式选择\r\n"));
    assert!(text.contains("  SetMute(false) -> 回读 = 已静音   [X]\r\n"));
    assert!(text.contains("结论     : 端点静音读写异常，详见上方错误行（含 HRESULT）。\r\n"));
}

#[test]
fn observe_reports_device_change_and_new_errors_once() {
    let prev = snap(Some(false), "A", "");
    let mut next = snap(Some(true), "B", "");
    next.error = Some("E".to_string());
    let o = observe(&prev, &next);
    assert_eq!(o.state, State::Off);
    assert!(o.muted_look);
    assert!(o.device_changed);
    assert_eq!(o.new_error.as_deref(), Some("E"));
    let again = observe(&next, &next);
    assert!(!again.device_changed);
    assert!(again.new_error.is_none());
}

#[test]
fn poll_reports_first_and_changed_snapshots() {
    let a = snap(Some(false), "A", "");
    let b = snap(Some(true), "A", "");
    let first = poll_decision(&None, &a);
    assert!(first.changed && !first.external_mute_change);
    let same = poll_decision(&Some(a.clone()), &a);
    assert!(!same.changed);
    let flip = poll_decision(&Some(a.clone()), &b);
    assert!(flip.changed && flip.external_mute_change);
    let renamed = poll_decision(&Some(a.clone()), &snap(Some(false), "Z", ""));
    assert!(!renamed.changed);
}

#[test]
fn command_line_switches() {
    let a = args(&["app", "--diag"]);
    assert!(has_flag(&a, "--diag"));
    assert!(!has_flag(&a, "--selftest"));
    assert_eq!(export_dir(&args(&["app"])), None);
    assert_eq!(export_dir(&args(&["app", "--export-icons"])), Some(None));
    assert_eq!(export_dir(&args(&["app", "--export-icons", "--diag"])), Some(None));
    assert_eq!(export_dir(&args(&["app", "--export-icons", "out"])), Some(Some("out".to_string())));
    assert_eq!(export_dir(&args(&["app", "--export-icons=d/e", "x"])), Some(Some("d/e".to_string())));
}

fn icons() -> Vec<Vec<u8>> {
    let sizes = [16usize, 20, 24, 32, 48, 96];
    let colors = [[1u8, 2, 3, 255], [4, 5, 6, 255], [7, 8, 9, 0]];
    let mut v = Vec::new();
    for c in colors.iter() {
        for s in sizes.iter() {
            v.push(c.repeat(s * s));
        }
    }
    v
}

#[test]
fn preview_sheet_layout() {
    let sheet = preview_sheet(&icons());
    assert_eq!((sheet.w, sheet.h), (292, 624));
    let at = |x: usize, y: usize| -> Vec<u8> {
        let i = (y * 292 + x) * 4;
        sheet.px[i..i + 4].to_vec()
    };
    // Size 96 (left edge 188) of the first state on the dark row, and padding beside it.
    assert_eq!(at(188, 0), vec![1, 2, 3, 255]);
    assert_eq!(at(187, 0), vec![0x1F, 0x1F, 0x1F, 255]);
    // Size 16 (left edge 8) is centred: top at (96 - 16) / 2 = 40.
    assert_eq!(at(8, 40), vec![1, 2, 3, 255]);
    assert_eq!(at(8, 39), vec![0x1F, 0x1F, 0x1F, 255]);
    // Third state is transparent; light rows start at y = 312.
    assert_eq!(at(188, 208), vec![0x1F, 0x1F, 0x1F, 255]);
    assert_eq!(at(188, 312), vec![1, 2, 3, 255]);
    assert_eq!(at(0, 313), vec![0xF3, 0xF3, 0xF3, 255]);
}

#[test]
fn zoom_sheet_layout() {
    let sheet = zoom_sheet(&icons());
    assert_eq!((sheet.w, sheet.h), (592, 608));
    let at = |x: usize, y: usize| -> Vec<u8> {
        let i = (y * 592 + x) * 4;
        sheet.px[i..i + 4].to_vec()
    };
    // Size 32 at six times: 192 pixels from x = 392, bottom of the first cell at y = 200.
    assert_eq!(at(392, 8), vec![1, 2, 3, 255]);
    assert_eq!(at(583, 199), vec![1, 2, 3, 255]);
    assert_eq!(at(584, 199), vec![0x60, 0x60, 0x60, 255]);
    // Size 16 at six times (96 pixels) is bottom-aligned: top at 8 + 192 - 96 = 104.
    assert_eq!(at(8, 103), vec![0x60, 0x60, 0x60, 255]);
    assert_eq!(at(8, 104), vec![1, 2, 3, 255]);
}
