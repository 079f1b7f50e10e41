//! The diagnostic report (`--diag`), and the decisions taken when a new snapshot
//! arrives (from the program's own actions or from polling the device).

use vstd::prelude::*;
use crate::audio::{DeviceInfo, Snapshot, label_spec, state_text_spec, same_opt_text};
use crate::envinfo::{Report, format_spec};
use crate::mic::{State, state_of};
use crate::text::{dec, decimal, views, join2, join3, bool_text, bool_str};

verus! {

/// `"   [error]"` for a snapshot with an error, empty otherwise.
pub open spec fn err_suffix_spec(error: Option<String>) -> Seq<char> {
    match error {
        Some(e) => "   ["@ + e@ + "]"@,
        None => Seq::<char>::empty(),
    }
}

/// The error of `s` as a suffix for a report line.
pub fn err_suffix(s: &Snapshot) -> (r: String)
    ensures
        r@ == err_suffix_spec(s.error),
{
    match &s.error {
        Some(e) => join3("   [", e.as_str(), "]"),
        None => String::new(),
    }
}

/// Whether the audio backend reached a device: the state was read and the device is known.
pub open spec fn com_ok_spec(s: Snapshot) -> bool {
    s.muted is Some && s.device_id@.len() > 0
}

/// The writes of the report's round trip: the opposite state, then the original one; none
/// when the state could not be read.
pub open spec fn round_trip_plan_spec(muted: Option<bool>) -> Option<(bool, bool)> {
    match muted {
        Some(orig) => Some((!orig, orig)),
        None => None,
    }
}

/// The two mute writes the diagnostic round trip makes, or `None` to skip it.
pub fn round_trip_plan(s: &Snapshot) -> (r: Option<(bool, bool)>)
    ensures
        r == round_trip_plan_spec(s.muted),
{
    match s.muted {
        Some(orig) => Some((!orig, orig)),
        None => None,
    }
}

/// Separator line of the report.
pub open spec fn rule() -> Seq<char> {
    "========================================\r\n"@
}

/// Report head: the controlled device, selection mode, state and read error.
pub open spec fn diag_head(s: Snapshot) -> Seq<char> {
    "MicTrayRs 音频诊断\r\n"@ + rule() + "受控设备 : "@ + s.device_name@ + "\r\n"@ + "设备 id  : "@
        + (if s.device_id@.len() == 0 {
        "(未知)"@
    } else {
        s.device_id@
    }) + "\r\n"@ + "选择模式 : "@ + (if s.follows_default {
        "跟随系统默认"@
    } else {
        "显式选择"@
    }) + "\r\n"@ + "当前状态 : "@ + state_text_spec(s.muted) + "\r\n"@ + match s.error {
        Some(e) => "读取错误 : "@ + e@ + "\r\n"@,
        None => Seq::<char>::empty(),
    }
}

/// Lines, each followed by CRLF.
pub open spec fn crlf_lines(lines: Seq<Seq<char>>) -> Seq<char>
    decreases lines.len(),
{
    if lines.len() == 0 {
        Seq::<char>::empty()
    } else {
        crlf_lines(lines.drop_last()) + lines.last() + "\r\n"@
    }
}

/// Report lines of the devices `devs[0..n]`.
pub open spec fn device_block(devs: Seq<DeviceInfo>) -> Seq<char>
    decreases devs.len(),
{
    if devs.len() == 0 {
        Seq::<char>::empty()
    } else {
        let d = devs.last();
        device_block(devs.drop_last()) + "  ["@ + dec((devs.len() - 1) as nat) + "] "@
            + label_spec(d.name@, d.is_default_console, d.is_default_comms) + "\r\n"@
            + "       id="@ + d.id@ + "\r\n"@
    }
}

/// Report section listing the devices, with a hint when there is none.
pub open spec fn diag_devices(devs: Seq<DeviceInfo>) -> Seq<char> {
    "\r\n活动录音设备:\r\n"@ + (if devs.len() == 0 {
        "  （枚举不到任何录音设备。\r\n"@
            + "    按上方环境自检的结论行处理：CLSID 未注册 → `sfc /scannow`；\r\n"@
            + "    CLSID 正常 → 重启 Audiosrv；也请先在系统「声音设置 → 输入」里确认确有可用设备）\r\n"@
    } else {
        Seq::<char>::empty()
    }) + device_block(devs)
}

/// One write line of the round trip: the value written and the state read back.
pub open spec fn trip_line(want: bool, s: Snapshot) -> Seq<char> {
    "  SetMute("@ + bool_text(want) + ") -> 回读 = "@ + state_text_spec(s.muted) + err_suffix_spec(
        s.error,
    )
}

/// The verdict of the round trip: sound when both read-backs show the written values.
pub open spec fn trip_verdict(ok: bool) -> Seq<char> {
    if ok {
        "结论     : 端点静音「读-写-回读」链路正常。\r\n"@
            + "           若此时 Windows 侧仍看不到变化，说明控制的不是你在看的那只麦，\r\n"@
            + "           或该机型把静音开关放在硬件/驱动层（端点静音 API 管不到）。\r\n"@
    } else {
        "结论     : 端点静音读写异常，详见上方错误行（含 HRESULT）。\r\n"@
    }
}

/// The round trip from the known state `orig`: `a` is read back after writing `!orig`, `b`
/// after writing `orig` again.
pub open spec fn trip_known(orig: bool, a: Snapshot, b: Snapshot) -> Seq<char> {
    "起始状态 = "@ + (if orig {
        "已静音"@
    } else {
        "未静音"@
    }) + "\r\n"@ + trip_line(!orig, a) + "\r\n"@ + trip_line(orig, b) + "   （已恢复原状态）\r\n"@
        + trip_verdict(a.muted == Some(!orig) && b.muted == Some(orig))
}

/// Report section of the write / read-back round trip. It is skipped when the state is
/// unknown; otherwise `a` and `b` are the snapshots after writing `!orig` and then `orig`.
pub open spec fn diag_trip(muted: Option<bool>, a: Snapshot, b: Snapshot) -> Seq<char> {
    "\r\n往返测试 : "@ + match muted {
        None => "跳过（当前状态读取失败，不做冒险写入）\r\n"@,
        Some(orig) => trip_known(orig, a, b),
    }
}

/// The whole diagnostic report.
pub open spec fn diag_spec(
    s: Snapshot,
    env: Seq<Seq<char>>,
    devs: Seq<DeviceInfo>,
    a: Snapshot,
    b: Snapshot,
) -> Seq<char> {
    diag_head(s) + "\r\n"@ + crlf_lines(env) + diag_devices(devs) + diag_trip(s.muted, a, b) + rule()
}

/// Law: the report ends with the outcome of the round trip, then the closing rule. With an
/// unknown state it ends with the skip line; otherwise it calls the write / read-back path
/// sound only when the first read-back shows the negated state and the second the original
/// state again, and reports an anomaly in every other case.
pub proof fn lemma_diag_verdict(
    s: Snapshot,
    env: Seq<Seq<char>>,
    devs: Seq<DeviceInfo>,
    a: Snapshot,
    b: Snapshot,
)
    ensures
        s.muted is None ==> ("跳过（当前状态读取失败，不做冒险写入）\r\n"@
            + "========================================\r\n"@).is_suffix_of(diag_spec(s, env, devs, a, b)),
        s.muted matches Some(orig) && a.muted == Some(!orig) && b.muted == Some(orig) ==> (
        "结论     : 端点静音「读-写-回读」链路正常。\r\n"@
            + "           若此时 Windows 侧仍看不到变化，说明控制的不是你在看的那只麦，\r\n"@
            + "           或该机型把静音开关放在硬件/驱动层（端点静音 API 管不到）。\r\n"@
            + "========================================\r\n"@).is_suffix_of(diag_spec(s, env, devs, a, b)),
        s.muted matches Some(orig) && !(a.muted == Some(!orig) && b.muted == Some(orig)) ==> (
        "结论     : 端点静音读写异常，详见上方错误行（含 HRESULT）。\r\n"@
            + "========================================\r\n"@).is_suffix_of(diag_spec(s, env, devs, a, b)),
{
    let pre = diag_head(s) + "\r\n"@ + crlf_lines(env) + diag_devices(devs) + "\r\n往返测试 : "@;
    let full = diag_spec(s, env, devs, a, b);
    match s.muted {
        None => {
            let tail = "跳过（当前状态读取失败，不做冒险写入）\r\n"@ + rule();
            assert(full =~= pre + tail);
            assert(full.subrange(full.len() - tail.len(), full.len() as int) =~= tail);
        },
        Some(orig) => {
            let ok = a.muted == Some(!orig) && b.muted == Some(orig);
            let mid = "起始状态 = "@ + (if orig {
                "已静音"@
            } else {
                "未静音"@
            }) + "\r\n"@ + trip_line(!orig, a) + "\r\n"@ + trip_line(orig, b) + "   （已恢复原状态）\r\n"@;
            let tail = trip_verdict(ok) + rule();
            assert(full =~= (pre + mid) + tail);
            assert(full.subrange(full.len() - tail.len(), full.len() as int) =~= tail);
        },
    }
}

fn append_device_block(out: &mut String, devs: &[DeviceInfo])
    ensures
        final(out)@ == old(out)@ + device_block(devs@),
{
    let ghost start = out@;
    let n = devs.len();
    let mut i: usize = 0;
    while i < n
        invariant
            n == devs@.len(),
            i <= n,
            out@ == start + device_block(devs@.take(i as int)),
        decreases n - i,
    {
        let d = &devs[i];
        assert(devs@.take(i + 1).drop_last() =~= devs@.take(i as int));
        out.append("  [");
        out.append(decimal(i as u128).as_str());
        out.append("] ");
        out.append(d.label().as_str());
        out.append("\r\n");
        out.append("       id=");
        out.append(d.id.as_str());
        out.append("\r\n");
        i = i + 1;
    }
    assert(devs@.take(n as int) =~= devs@);
}

fn append_crlf_lines(out: &mut String, lines: &Vec<String>)
    ensures
        final(out)@ == old(out)@ + crlf_lines(views(lines@)),
{
    let ghost start = out@;
    let n = lines.len();
    let mut i: usize = 0;
    while i < n
        invariant
            n == lines@.len(),
            i <= n,
            out@ == start + crlf_lines(views(lines@).take(i as int)),
        decreases n - i,
    {
        assert(views(lines@).take(i + 1).drop_last() =~= views(lines@).take(i as int));
        out.append(lines[i].as_str());
        out.append("\r\n");
        i = i + 1;
    }
    assert(views(lines@).take(n as int) =~= views(lines@));
}

fn device_id_text(s: &Snapshot) -> (r: &str)
    ensures
        r@ == (if s.device_id@.len() == 0 {
            "(未知)"@
        } else {
            s.device_id@
        }),
{
    if s.device_id.as_str().unicode_len() == 0 {
        "(未知)"
    } else {
        s.device_id.as_str()
    }
}

fn error_line(s: &Snapshot) -> (r: String)
    ensures
        r@ == match s.error {
            Some(e) => "读取错误 : "@ + e@ + "\r\n"@,
            None => Seq::<char>::empty(),
        },
{
    match &s.error {
        Some(e) => join3("读取错误 : ", e.as_str(), "\r\n"),
        None => String::new(),
    }
}

fn append_head(out: &mut String, s: &Snapshot)
    ensures
        final(out)@ == old(out)@ + diag_head(*s),
{
    let mut h = String::from_str("MicTrayRs 音频诊断\r\n");
    h.append("========================================\r\n");
    h.append("受控设备 : ");
    h.append(s.device_name.as_str());
    h.append("\r\n");
    h.append("设备 id  : ");
    h.append(device_id_text(s));
    h.append("\r\n");
    h.append("选择模式 : ");
    h.append(if s.follows_default { "跟随系统默认" } else { "显式选择" });
    h.append("\r\n");
    h.append("当前状态 : ");
    h.append(s.state_text());
    h.append("\r\n");
    h.append(error_line(s).as_str());
    out.append(h.as_str());
}

fn append_devices(out: &mut String, devs: &[DeviceInfo])
    ensures
        final(out)@ == old(out)@ + diag_devices(devs@),
{
    let ghost start = out@;
    out.append("\r\n活动录音设备:\r\n");
    if devs.len() == 0 {
        out.append("  （枚举不到任何录音设备。\r\n");
        out.append("    按上方环境自检的结论行处理：CLSID 未注册 → `sfc /scannow`；\r\n");
        out.append("    CLSID 正常 → 重启 Audiosrv；也请先在系统「声音设置 → 输入」里确认确有可用设备）\r\n");
    }
    append_device_block(out, devs);
    assert(out@ =~= start + diag_devices(devs@));
}

fn append_trip_line(out: &mut String, want: bool, s: &Snapshot)
    ensures
        final(out)@ == old(out)@ + trip_line(want, *s),
{
    let ghost start = out@;
    out.append("  SetMute(");
    out.append(bool_str(want));
    out.append(") -> 回读 = ");
    out.append(s.state_text());
    out.append(err_suffix(s).as_str());
    assert(out@ =~= start + trip_line(want, *s));
}

fn append_trip_known(out: &mut String, orig: bool, a: &Snapshot, b: &Snapshot)
    ensures
        final(out)@ == old(out)@ + trip_known(orig, *a, *b),
{
    let ghost start = out@;
    out.append("起始状态 = ");
    out.append(if orig { "已静音" } else { "未静音" });
    out.append("\r\n");
    append_trip_line(out, !orig, a);
    out.append("\r\n");
    append_trip_line(out, orig, b);
    out.append("   （已恢复原状态）\r\n");
    let ghost mid = out@;
    if a.muted == Some(!orig) && b.muted == Some(orig) {
        out.append("结论     : 端点静音「读-写-回读」链路正常。\r\n");
        out.append("           若此时 Windows 侧仍看不到变化，说明控制的不是你在看的那只麦，\r\n");
        out.append("           或该机型把静音开关放在硬件/驱动层（端点静音 API 管不到）。\r\n");
    } else {
        out.append("结论     : 端点静音读写异常，详见上方错误行（含 HRESULT）。\r\n");
    }
    assert(out@ =~= mid + trip_verdict(a.muted == Some(!orig) && b.muted == Some(orig)));
    assert(out@ =~= start + trip_known(orig, *a, *b));
}

fn append_trip(out: &mut String, s: &Snapshot, a: &Snapshot, b: &Snapshot)
    ensures
        final(out)@ == old(out)@ + diag_trip(s.muted, *a, *b),
{
    let ghost start = out@;
    out.append("\r\n往返测试 : ");
    match s.muted {
        None => {
            out.append("跳过（当前状态读取失败，不做冒险写入）\r\n");
        },
        Some(orig) => {
            append_trip_known(out, orig, a, b);
        },
    }
    assert(out@ =~= start + diag_trip(s.muted, *a, *b));
}

/// The diagnostic report for the snapshot `s`, the environment self-check `env`, the device
/// list `devs`, and the snapshots `a`, `b` read back after the round trip's two writes (unused
/// when the state of `s` is unknown, as no write is made then).
pub fn diag_report(s: &Snapshot, env: &Report, devs: &[DeviceInfo], a: &Snapshot, b: &Snapshot) -> (r: String)
    ensures
        r@ == diag_spec(
            *s,
            format_spec(
                env.mmdevapi_dll,
                env.clsid_found,
                env.clsid_detail@,
                env.in_sandbox,
                views(env.markers@),
                com_ok_spec(*s),
            ),
            devs@,
            *a,
            *b,
        ),
        s.muted is None ==> ("跳过（当前状态读取失败，不做冒险写入）\r\n"@
            + "========================================\r\n"@).is_suffix_of(r@),
        s.muted matches Some(orig) && a.muted == Some(!orig) && b.muted == Some(orig) ==> (
        "结论     : 端点静音「读-写-回读」链路正常。\r\n"@
            + "           若此时 Windows 侧仍看不到变化，说明控制的不是你在看的那只麦，\r\n"@
            + "           或该机型把静音开关放在硬件/驱动层（端点静音 API 管不到）。\r\n"@
            + "========================================\r\n"@).is_suffix_of(r@),
        s.muted matches Some(orig) && !(a.muted == Some(!orig) && b.muted == Some(orig)) ==> (
        "结论     : 端点静音读写异常，详见上方错误行（含 HRESULT）。\r\n"@
            + "========================================\r\n"@).is_suffix_of(r@),
{
    let mut out = String::new();
    append_head(&mut out, s);
    let com_ok = s.muted.is_some() && s.device_id.as_str().unicode_len() != 0;
    out.append("\r\n");
    let env_lines = crate::envinfo::format(env, com_ok);
    append_crlf_lines(&mut out, &env_lines);
    append_devices(&mut out, devs);
    append_trip(&mut out, s, a, b);
    out.append("========================================\r\n");
    proof {
        assert(Seq::<char>::empty() + diag_head(*s) == diag_head(*s));
        lemma_diag_verdict(
            *s,
            format_spec(
                env.mmdevapi_dll,
                env.clsid_found,
                env.clsid_detail@,
                env.in_sandbox,
                views(env.markers@),
                com_ok_spec(*s),
            ),
            devs@,
            *a,
            *b,
        );
    }
    out
}

// ---------------------------------------------------------------------------
// Reacting to a new snapshot
// ---------------------------------------------------------------------------

/// What the interface does with a new snapshot.
pub struct Observation {
    /// The icon state to draw.
    pub state: State,
    /// Whether the overlay shows the muted look.
    pub muted_look: bool,
    /// Whether the controlled device or the selection changed, so the menu is stale.
    pub device_changed: bool,
    /// An error to log: one not already reported by the previous snapshot.
    pub new_error: Option<String>,
}

/// The device, its name or the selection differ between two snapshots.
pub open spec fn device_changed_spec(prev: Snapshot, next: Snapshot) -> bool {
    prev.device_id@ != next.device_id@ || prev.device_name@ != next.device_name@
        || prev.selected_id@ != next.selected_id@
}

/// Compares the previously shown snapshot with a new one.
pub fn observe(prev: &Snapshot, next: &Snapshot) -> (o: Observation)
    ensures
        o.state == state_of(next.muted),
        o.muted_look == (next.muted == Some(true)),
        o.device_changed == device_changed_spec(*prev, *next),
        o.device_changed <==> (prev.device_id@ != next.device_id@ || prev.device_name@
            != next.device_name@ || prev.selected_id@ != next.selected_id@),
        match next.error {
            Some(e) => if same_opt_text(prev.error, Some(e@)) {
                o.new_error is None
            } else {
                same_opt_text(o.new_error, Some(e@))
            },
            None => o.new_error is None,
        },
{
    let device_changed = !prev.device_id.eq(&next.device_id) || !prev.device_name.eq(
        &next.device_name,
    ) || !prev.selected_id.eq(&next.selected_id);
    let state = State::from_muted(next.muted);
    let muted_look = match state {
        State::Off => true,
        _ => false,
    };
    let new_error = match &next.error {
        Some(e) => {
            let repeated = match &prev.error {
                Some(p) => p.eq(e),
                None => false,
            };
            if repeated {
                None
            } else {
                Some(e.clone())
            }
        },
        None => None,
    };
    Observation { state, muted_look, device_changed, new_error }
}

/// Law: the menu goes stale exactly when the controlled device, its name or the selection
/// changes: a change of any one of them alone is enough, and a snapshot that keeps all
/// three (whatever its mute state or error) leaves the menu as it is.
pub proof fn lemma_menu_staleness(prev: Snapshot, next: Snapshot)
    ensures
        prev.device_id@ != next.device_id@ ==> device_changed_spec(prev, next),
        prev.device_name@ != next.device_name@ ==> device_changed_spec(prev, next),
        prev.selected_id@ != next.selected_id@ ==> device_changed_spec(prev, next),
        prev.device_id@ == next.device_id@ && prev.device_name@ == next.device_name@
            && prev.selected_id@ == next.selected_id@ ==> !device_changed_spec(prev, next),
{
}

/// What the poller does with a snapshot it just read.
pub struct PollDecision {
    /// Whether to push the snapshot to the interface.
    pub changed: bool,
    /// Whether the mute state changed outside the program since the last poll.
    pub external_mute_change: bool,
}

/// A poll is reported when it is the first one, or when the mute state, the controlled
/// device or the selection changed since the last reported poll.
pub open spec fn poll_changed_spec(last: Option<Snapshot>, snap: Snapshot) -> bool {
    match last {
        None => true,
        Some(p) => p.muted != snap.muted || p.device_id@ != snap.device_id@ || p.selected_id@
            != snap.selected_id@,
    }
}

/// Law: the first poll is always reported; after that a poll is reported when the mute
/// state, the controlled device or the selection differs from the last reported snapshot
/// (any one alone is enough), and a poll that matches it in all three is not.
pub proof fn lemma_poll_reports_changes(p: Snapshot, snap: Snapshot)
    ensures
        poll_changed_spec(None, snap),
        p.muted != snap.muted ==> poll_changed_spec(Some(p), snap),
        p.device_id@ != snap.device_id@ ==> poll_changed_spec(Some(p), snap),
        p.selected_id@ != snap.selected_id@ ==> poll_changed_spec(Some(p), snap),
        p.muted == snap.muted && p.device_id@ == snap.device_id@ && p.selected_id@
            == snap.selected_id@ ==> !poll_changed_spec(Some(p), snap),
{
}

/// Compares a polled snapshot with the last reported one.
pub fn poll_decision(last: &Option<Snapshot>, snap: &Snapshot) -> (d: PollDecision)
    ensures
        d.changed == poll_changed_spec(*last, *snap),
        last is None ==> d.changed,
        last matches Some(p) ==> (d.changed <==> (p.muted != snap.muted || p.device_id@
            != snap.device_id@ || p.selected_id@ != snap.selected_id@)),
        d.external_mute_change == (last is Some && last->0.muted != snap.muted),
{
    match last {
        None => PollDecision { changed: true, external_mute_change: false },
        Some(p) => {
            let mute_changed = p.muted != snap.muted;
            PollDecision {
                changed: mute_changed || !p.device_id.eq(&snap.device_id) || !p.selected_id.eq(
                    &snap.selected_id,
                ),
                external_mute_change: mute_changed,
            }
        },
    }
}

} // verus!
