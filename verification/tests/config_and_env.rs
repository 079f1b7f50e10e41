use mictrayrs::config::{config_text, device_id_update, parse_config, Config};
use mictrayrs::envinfo::{mmde_clsid, probe, registration_detail, select_markers};

#[test]
fn parse_reads_trimmed_device_id() {
    let c = parse_config("  device_id =  {0.0.1.00000000}.{abc}  \r\n");
    assert_eq!(c.device_id, "{0.0.1.00000000}.{abc}");
}

#[test]
fn parse_skips_comments_blank_and_other_keys() {
    let text = "# device_id=no\n; device_id=no\n\nother=1\nnot a pair\ndevice_id=yes\n";
    assert_eq!(parse_config(text).device_id, "yes");
}

#[test]
fn parse_last_assignment_wins_and_keeps_equals_in_value() {
    let text = "device_id=a\r\ndevice_id=b=c\r\n";
    assert_eq!(parse_config(text).device_id, "b=c");
}

#[test]
fn parse_trims_unicode_white_space() {
    let text = "\u{3000}device_id\u{a0}=\u{2003}x\u{3000}";
    assert_eq!(parse_config(text).device_id, "x");
}

#[test]
fn parse_of_empty_or_missing_key_is_default() {
    assert_eq!(parse_config("").device_id, "");
    assert_eq!(parse_config("device_id=\n").device_id, "");
    assert_eq!(parse_config("deviceid=x").device_id, "");
    assert_eq!(Config::default().device_id, "");
}

#[test]
fn written_config_reads_back() {
    for id in ["", "{0.0.1.00000000}.{0a1b}", "名字 带 空格"] {
        let cfg = Config { device_id: id.to_string() };
        let text = config_text(&cfg);
        assert!(text.starts_with("# MicTrayRs 配置。"));
        assert!(text.ends_with(&format!("device_id={}\r\n", id)));
        assert_eq!(parse_config(&text).device_id, id);
    }
}

#[test]
fn device_id_update_only_when_changed() {
    let cfg = Config { device_id: "a".to_string() };
    assert!(device_id_update(&cfg, "a").is_none());
    assert_eq!(device_id_update(&cfg, "b").unwrap().device_id, "b");
}

#[test]
fn report_marks_sandbox_only_with_markers() {
    let r = probe(vec![], Some(true), Some(true), "x".to_string());
    assert!(!r.in_sandbox);
    let r = probe(vec!["LSBOX_X".to_string()], None, None, String::new());
    assert!(r.in_sandbox);
}

#[test]
fn format_when_backend_works() {
    let r = probe(vec![], Some(true), Some(true), "MMDeviceEnumerator → C:\\x.dll".to_string());
    let lines = mictrayrs::envinfo::format(&r, true);
    assert_eq!(
        lines,
        vec![
            "环境自检:".to_string(),
            "    MMDevApi.dll      : 存在（系统音频组件完整）".to_string(),
            format!("    CLSID 已注册      : 是（{}）", mmde_clsid()),
            "    注册详情          : MMDeviceEnumerator → C:\\x.dll".to_string(),
            "    宿主标记          : 未命中".to_string(),
            "    结论              : 本机 WASAPI 链路正常，应以「活动录音设备」清单为准。".to_string(),
        ]
    );
}

#[test]
fn format_with_markers_and_missing_registration() {
    let r = probe(
        vec!["A_LSBOX".to_string(), "GENIE_TRASH".to_string()],
        Some(true),
        Some(false),
        String::new(),
    );
    let lines = mictrayrs::envinfo::format(&r, false);
    assert_eq!(lines.len(), 5);
    assert_eq!(
        lines[2],
        "    CLSID 已注册      : **否**（{BCDE0395-E52F-467C-8E3D-C4579291692E}）"
    );
    assert_eq!(
        lines[3],
        "    宿主标记          : 命中 2 个 —— A_LSBOX, GENIE_TRASH（仅供参考，不代表 COM 不可用）"
    );
    assert!(lines[4].starts_with("    结论              : `HKCR\\CLSID\\{BCDE0395"));
}

#[test]
fn format_conclusions_by_cause() {
    let dll = mictrayrs::envinfo::format(&probe(vec![], Some(false), Some(false), String::new()), false);
    assert!(dll[4].contains("系统缺少 MMDevApi.dll"));
    let reg_ok = mictrayrs::envinfo::format(&probe(vec![], None, Some(true), String::new()), false);
    assert!(reg_ok[4].contains("CLSID 注册正常，但 COM 创建仍失败"));
    let unknown = mictrayrs::envinfo::format(&probe(vec![], None, None, String::new()), false);
    assert_eq!(unknown[1], "    MMDevApi.dll      : 未探测");
    assert_eq!(unknown[2], "    CLSID 已注册      : 未探测");
    assert!(unknown[4].ends_with("无法完成环境判断（非 Windows 平台或探测失败）。"));
}

#[test]
fn markers_are_filtered_case_insensitively_sorted_and_capped() {
    let names: Vec<String> = vec![
        "PATH", "lsbox_b", "zz_GENIE_TRASH", "WorkBuddy_Startup_Pid", "HOME", "LSBOX_A",
        "x_codebuddy_safe_delete", "LSBOX_9", "LSBOX_8", "LSBOX_7", "LSBOX_6", "LSBOX_5",
    ]
    .into_iter()
    .map(String::from)
    .collect();
    let m = select_markers(&names);
    assert_eq!(
        m,
        vec![
            "LSBOX_5", "LSBOX_6", "LSBOX_7", "LSBOX_8", "LSBOX_9", "LSBOX_A",
            "WorkBuddy_Startup_Pid", "lsbox_b",
        ]
    );
    assert!(select_markers(&vec!["PATH".to_string(), "LSBO".to_string()]).is_empty());
}

#[test]
fn registration_detail_joins_name_and_server() {
    assert_eq!(
        registration_detail(
            Some("MMDeviceEnumerator class".to_string()),
            Some("C:\\Windows\\System32\\MMDevApi.dll".to_string())
        ),
        "MMDeviceEnumerator class → C:\\Windows\\System32\\MMDevApi.dll"
    );
}

#[test]
fn registration_detail_marks_unreadable_values() {
    assert_eq!(
        registration_detail(None, None),
        "(无默认值) → (读不到 InprocServer32)"
    );
}
