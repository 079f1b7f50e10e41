//! Environment self-check: which layer a failure to reach the microphone stops at.
//!
//! The probes themselves (environment variables, the system directory, the class
//! registration of the device enumerator) are read by the caller; this module
//! holds the report built from them and its text.

use vstd::prelude::*;
use crate::text::{dec, decimal, views, join_spec, join_strings, join2, join3, chars_of};

verus! {

/// The class id of the audio device enumerator that the checks look up.
pub open spec fn mmde_clsid_spec() -> Seq<char> {
    "{BCDE0395-E52F-467C-8E3D-C4579291692E}"@
}

/// The class id of the audio device enumerator.
pub fn mmde_clsid() -> (r: &'static str)
    ensures
        r@ == mmde_clsid_spec(),
{
    "{BCDE0395-E52F-467C-8E3D-C4579291692E}"
}

/// Result of the environment self-check.
pub struct Report {
    /// Whether marker variables of a hosting sandbox were found. Informational only: it
    /// does not show that the audio stack is unusable.
    pub in_sandbox: bool,
    /// The marker variables found (at most a few).
    pub markers: Vec<String>,
    /// Whether the audio endpoint library exists.
    pub mmdevapi_dll: Option<bool>,
    /// Whether the enumerator class is registered; `None` when not probed.
    pub clsid_found: Option<bool>,
    /// Details of the class registration lookup.
    pub clsid_detail: String,
}

/// Assembles the report from the probe results; the sandbox flag is set exactly when a
/// marker variable was found.
pub fn probe(
    markers: Vec<String>,
    mmdevapi_dll: Option<bool>,
    clsid_found: Option<bool>,
    clsid_detail: String,
) -> (r: Report)
    ensures
        r.in_sandbox == (markers@.len() > 0),
        r.markers@ == markers@,
        r.mmdevapi_dll == mmdevapi_dll,
        r.clsid_found == clsid_found,
        r.clsid_detail@ == clsid_detail@,
{
    Report {
        in_sandbox: markers.len() > 0,
        markers,
        mmdevapi_dll,
        clsid_found,
        clsid_detail,
    }
}

/// Details of a found class registration: its name and its server library, each with a
/// placeholder when it could not be read.
pub open spec fn registration_detail_spec(class_name: Option<Seq<char>>, server: Option<Seq<char>>) -> Seq<char> {
    (match class_name {
        Some(n) => n,
        None => "(无默认值)"@,
    }) + " → "@ + (match server {
        Some(d) => d,
        None => "(读不到 InprocServer32)"@,
    })
}

/// The detail text of a found class registration, from the class name and the server
/// library path as read (`None` when unreadable).
pub fn registration_detail(class_name: Option<String>, server: Option<String>) -> (r: String)
    ensures
        r@ == registration_detail_spec(
            match class_name {
                Some(n) => Some(n@),
                None => None,
            },
            match server {
                Some(d) => Some(d@),
                None => None,
            },
        ),
{
    let name = match class_name {
        Some(n) => n,
        None => String::from_str("(无默认值)"),
    };
    let dll = match server {
        Some(d) => d,
        None => String::from_str("(读不到 InprocServer32)"),
    };
    join3(name.as_str(), " → ", dll.as_str())
}

/// The verdict line of the self-check, from the most specific known cause down.
pub open spec fn conclusion_spec(mmdevapi_dll: Option<bool>, clsid_found: Option<bool>, com_ok: bool) -> Seq<char> {
    if com_ok {
        "本机 WASAPI 链路正常，应以「活动录音设备」清单为准。"@
    } else if mmdevapi_dll == Some(false) {
        "系统缺少 MMDevApi.dll，音频组件已损坏（可用 `sfc /scannow` 修复）。"@
    } else if clsid_found == Some(false) {
        "`HKCR\\CLSID\\"@ + mmde_clsid_spec()
            + "` 未注册 → MMDevApi 的 COM 注册信息缺失。先跑 `sfc /scannow`；仍不行则检查 Windows Audio 服务（Audiosrv）与 MMDevApi 组件是否被安全软件拦截。"@
    } else if clsid_found == Some(true) {
        "CLSID 注册正常，但 COM 创建仍失败 → 通常是 Windows Audio 服务（Audiosrv）异常或被杀软拦截，建议重启 Audiosrv（管理员 PowerShell：`Restart-Service Audiosrv`）后重试。"@
    } else {
        "无法完成环境判断（非 Windows 平台或探测失败）。"@
    }
}

fn conclusion(r: &Report, com_ok: bool) -> (s: String)
    ensures
        s@ == conclusion_spec(r.mmdevapi_dll, r.clsid_found, com_ok),
{
    if com_ok {
        return String::from_str("本机 WASAPI 链路正常，应以「活动录音设备」清单为准。");
    }
    if r.mmdevapi_dll == Some(false) {
        return String::from_str("系统缺少 MMDevApi.dll，音频组件已损坏（可用 `sfc /scannow` 修复）。");
    }
    if r.clsid_found == Some(false) {
        return join3(
            "`HKCR\\CLSID\\",
            mmde_clsid(),
            "` 未注册 → MMDevApi 的 COM 注册信息缺失。先跑 `sfc /scannow`；仍不行则检查 Windows Audio 服务（Audiosrv）与 MMDevApi 组件是否被安全软件拦截。",
        );
    }
    if r.clsid_found == Some(true) {
        return String::from_str(
            "CLSID 注册正常，但 COM 创建仍失败 → 通常是 Windows Audio 服务（Audiosrv）异常或被杀软拦截，建议重启 Audiosrv（管理员 PowerShell：`Restart-Service Audiosrv`）后重试。",
        );
    }
    String::from_str("无法完成环境判断（非 Windows 平台或探测失败）。")
}

/// Line on the endpoint library.
pub open spec fn dll_line(d: Option<bool>) -> Seq<char> {
    match d {
        Some(true) => "    MMDevApi.dll      : 存在（系统音频组件完整）"@,
        Some(false) => "    MMDevApi.dll      : **缺失**（系统音频组件异常）"@,
        None => "    MMDevApi.dll      : 未探测"@,
    }
}

/// Line on the class registration.
pub open spec fn clsid_line(f: Option<bool>) -> Seq<char> {
    match f {
        Some(true) => "    CLSID 已注册      : 是（"@ + mmde_clsid_spec() + "）"@,
        Some(false) => "    CLSID 已注册      : **否**（"@ + mmde_clsid_spec() + "）"@,
        None => "    CLSID 已注册      : 未探测"@,
    }
}

/// Line on the sandbox markers.
pub open spec fn marker_line(in_sandbox: bool, markers: Seq<Seq<char>>) -> Seq<char> {
    if in_sandbox {
        "    宿主标记          : 命中 "@ + dec(markers.len()) + " 个 —— "@ + join_spec(markers, ", "@)
            + "（仅供参考，不代表 COM 不可用）"@
    } else {
        "    宿主标记          : 未命中"@
    }
}

/// The lines of the self-check report: title, library, registration, registration details
/// (only when there are any), markers, verdict.
pub open spec fn format_spec(
    mmdevapi_dll: Option<bool>,
    clsid_found: Option<bool>,
    clsid_detail: Seq<char>,
    in_sandbox: bool,
    markers: Seq<Seq<char>>,
    com_ok: bool,
) -> Seq<Seq<char>> {
    seq!["环境自检:"@, dll_line(mmdevapi_dll), clsid_line(clsid_found)] + (if clsid_detail.len()
        == 0 {
        seq![]
    } else {
        seq!["    注册详情          : "@ + clsid_detail]
    }) + seq![
        marker_line(in_sandbox, markers),
        "    结论              : "@ + conclusion_spec(mmdevapi_dll, clsid_found, com_ok),
    ]
}

/// The self-check report as text lines; `com_ok` says whether the audio backend did reach a
/// device.
pub fn format(r: &Report, com_ok: bool) -> (out: Vec<String>)
    ensures
        views(out@) == format_spec(
            r.mmdevapi_dll,
            r.clsid_found,
            r.clsid_detail@,
            r.in_sandbox,
            views(r.markers@),
            com_ok,
        ),
{
    let mut out: Vec<String> = Vec::new();
    out.push(String::from_str("环境自检:"));
    out.push(
        match r.mmdevapi_dll {
            Some(true) => String::from_str("    MMDevApi.dll      : 存在（系统音频组件完整）"),
            Some(false) => String::from_str("    MMDevApi.dll      : **缺失**（系统音频组件异常）"),
            None => String::from_str("    MMDevApi.dll      : 未探测"),
        },
    );
    out.push(
        match r.clsid_found {
            Some(true) => join3("    CLSID 已注册      : 是（", mmde_clsid(), "）"),
            Some(false) => join3("    CLSID 已注册      : **否**（", mmde_clsid(), "）"),
            None => String::from_str("    CLSID 已注册      : 未探测"),
        },
    );
    let has_detail = r.clsid_detail.as_str().unicode_len() != 0;
    if has_detail {
        out.push(join2("    注册详情          : ", r.clsid_detail.as_str()));
    }
    if r.in_sandbox {
        let line = join3(
            "    宿主标记          : 命中 ",
            decimal(r.markers.len() as u128).as_str(),
            " 个 —— ",
        ).concat(join_strings(&r.markers, ", ").as_str()).concat("（仅供参考，不代表 COM 不可用）");
        out.push(line);
    } else {
        out.push(String::from_str("    宿主标记          : 未命中"));
    }
    out.push(join2("    结论              : ", conclusion(r, com_ok).as_str()));
    proof {
        let expected = format_spec(
            r.mmdevapi_dll,
            r.clsid_found,
            r.clsid_detail@,
            r.in_sandbox,
            views(r.markers@),
            com_ok,
        );
        assert(views(out@) =~= expected);
    }
    out
}


// ---------------------------------------------------------------------------
// Sandbox marker variables
// ---------------------------------------------------------------------------

/// Code of `c` after ASCII upper-casing.
pub open spec fn upper_code(c: char) -> u32 {
    if 97 <= (c as u32) <= 122 {
        (c as u32 - 32) as u32
    } else {
        c as u32
    }
}

/// `needle` occurs in the upper-cased `name` at position `i`.
pub open spec fn occurs_at(name: Seq<char>, needle: Seq<char>, i: int) -> bool {
    &&& 0 <= i
    &&& i + needle.len() <= name.len()
    &&& forall|j: int| 0 <= j < needle.len() ==> upper_code(#[trigger] name[i + j]) == needle[j] as u32
}

/// The upper-cased `name` contains `needle`.
pub open spec fn contains_upper(name: Seq<char>, needle: Seq<char>) -> bool {
    exists|i: int| occurs_at(name, needle, i)
}

/// Whether a variable name marks a hosting sandbox.
pub open spec fn is_marker(name: Seq<char>) -> bool {
    contains_upper(name, "LSBOX"@) || contains_upper(name, "CODEBUDDY_SAFE_DELETE"@)
        || contains_upper(name, "GENIE_TRASH"@) || contains_upper(name, "WORKBUDDY_STARTUP_PID"@)
}

/// The marker names among `names`, in their order.
pub open spec fn keep_markers(names: Seq<Seq<char>>) -> Seq<Seq<char>>
    decreases names.len(),
{
    if names.len() == 0 {
        seq![]
    } else if is_marker(names.last()) {
        keep_markers(names.drop_last()).push(names.last())
    } else {
        keep_markers(names.drop_last())
    }
}

/// Strict lexicographic order on character codes (the order of Rust's `String`).
pub open spec fn lex_lt(a: Seq<char>, b: Seq<char>) -> bool
    decreases a.len(),
{
    if b.len() == 0 {
        false
    } else if a.len() == 0 {
        true
    } else if a[0] != b[0] {
        (a[0] as u32) < (b[0] as u32)
    } else {
        lex_lt(a.drop_first(), b.drop_first())
    }
}

/// Ascending order.
pub open spec fn sorted(s: Seq<Seq<char>>) -> bool {
    forall|i: int, j: int| 0 <= i < j < s.len() ==> !lex_lt(#[trigger] s[j], #[trigger] s[i])
}

/// At most the first 8 elements.
pub open spec fn first8(s: Seq<Seq<char>>) -> Seq<Seq<char>> {
    if s.len() > 8 {
        s.take(8)
    } else {
        s
    }
}

proof fn lemma_lex_asym(a: Seq<char>, b: Seq<char>)
    ensures
        !(lex_lt(a, b) && lex_lt(b, a)),
    decreases a.len(),
{
    if a.len() > 0 && b.len() > 0 && a[0] == b[0] {
        lemma_lex_asym(a.drop_first(), b.drop_first());
    }
}

proof fn lemma_lex_trans(a: Seq<char>, b: Seq<char>, c: Seq<char>)
    requires
        lex_lt(a, b),
        lex_lt(b, c),
    ensures
        lex_lt(a, c),
    decreases a.len(),
{
    if a.len() > 0 && b.len() > 0 && c.len() > 0 && a[0] == b[0] && b[0] == c[0] {
        lemma_lex_trans(a.drop_first(), b.drop_first(), c.drop_first());
    }
}

/// `needle` in upper-cased `name`.
fn contains_upper_exec(name: &Vec<char>, needle: &Vec<char>) -> (r: bool)
    ensures
        r == contains_upper(name@, needle@),
{
    let n = name.len();
    let m = needle.len();
    if m > n {
        assert forall|i: int| !occurs_at(name@, needle@, i) by {}
        return false;
    }
    let mut i: usize = 0;
    while i <= n - m
        invariant
            n == name@.len(),
            m == needle@.len(),
            m <= n,
            i <= n - m + 1,
            forall|k: int| 0 <= k < i ==> !occurs_at(name@, needle@, k),
        decreases n - m + 1 - i,
    {
        let mut j: usize = 0;
        let mut ok = true;
        while j < m
            invariant
                n == name@.len(),
                m == needle@.len(),
                i + m <= n,
                j <= m,
                ok ==> forall|t: int| 0 <= t < j ==> upper_code(#[trigger] name@[i + t]) == needle@[t] as u32,
                !ok ==> !occurs_at(name@, needle@, i as int),
            decreases m - j,
        {
            let c = name[i + j] as u32;
            let u: u32 = if 97 <= c && c <= 122 { c - 32 } else { c };
            if u != needle[j] as u32 {
                assert(upper_code(name@[i + j]) != needle@[j as int] as u32);
                ok = false;
            }
            j = j + 1;
        }
        if ok {
            assert(occurs_at(name@, needle@, i as int));
            return true;
        }
        i = i + 1;
    }
    assert forall|k: int| !occurs_at(name@, needle@, k) by {
        if occurs_at(name@, needle@, k) {
            assert(0 <= k < i);
        }
    }
    false
}

fn is_marker_exec(name: &str) -> (r: bool)
    ensures
        r == is_marker(name@),
{
    let cs = chars_of(name);
    contains_upper_exec(&cs, &chars_of("LSBOX")) || contains_upper_exec(&cs, &chars_of("CODEBUDDY_SAFE_DELETE"))
        || contains_upper_exec(&cs, &chars_of("GENIE_TRASH")) || contains_upper_exec(
        &cs,
        &chars_of("WORKBUDDY_STARTUP_PID"),
    )
}

fn lex_less(a: &str, b: &str) -> (r: bool)
    ensures
        r == lex_lt(a@, b@),
{
    let x = chars_of(a);
    let y = chars_of(b);
    let mut i: usize = 0;
    assert(a@.skip(0) =~= a@);
    assert(b@.skip(0) =~= b@);
    while i < x.len() && i < y.len() && x[i] == y[i]
        invariant
            x@ == a@,
            y@ == b@,
            i <= x@.len(),
            i <= y@.len(),
            lex_lt(a@, b@) == lex_lt(a@.skip(i as int), b@.skip(i as int)),
        decreases x@.len() - i,
    {
        assert(a@.skip(i as int).drop_first() =~= a@.skip(i + 1));
        assert(b@.skip(i as int).drop_first() =~= b@.skip(i + 1));
        i = i + 1;
    }
    if i == y.len() {
        false
    } else if i == x.len() {
        true
    } else {
        (x[i] as u32) < (y[i] as u32)
    }
}

/// The marker variables among the variable names `names`: those whose upper-cased name
/// contains one of the sandbox markers, sorted ascending, at most 8 of them.
pub fn select_markers(names: &Vec<String>) -> (out: Vec<String>)
    ensures
        exists|full: Seq<Seq<char>>|
            {
                &&& sorted(full)
                &&& full.to_multiset() == keep_markers(views(names@)).to_multiset()
                &&& views(out@) == first8(full)
            },
{
    let mut res: Vec<String> = Vec::new();
    let n = names.len();
    let mut i: usize = 0;
    assert(views(res@) =~= views(names@).take(0));
    assert(keep_markers(views(names@).take(0)) =~= views(res@));
    while i < n
        invariant
            n == names@.len(),
            i <= n,
            sorted(views(res@)),
            views(res@).to_multiset() == keep_markers(views(names@).take(i as int)).to_multiset(),
        decreases n - i,
    {
        let ghost before = views(res@);
        assert(views(names@).take(i + 1).drop_last() =~= views(names@).take(i as int));
        let name = &names[i];
        if is_marker_exec(name.as_str()) {
            let mut p: usize = 0;
            while p < res.len() && !lex_less(name.as_str(), res[p].as_str())
                invariant
                    views(res@) == before,
                    p <= res@.len(),
                    forall|k: int| 0 <= k < p ==> !lex_lt(name@, #[trigger] before[k]),
                decreases res@.len() - p,
            {
                p = p + 1;
            }
            let ghost x = name@;
            res.insert(p, name.clone());
            proof {
                let after = views(res@);
                assert(after =~= before.insert(p as int, x));
                vstd::seq_lib::to_multiset_insert(before, p as int, x);
                vstd::seq_lib::to_multiset_build(keep_markers(views(names@).take(i as int)), x);
                assert forall|a: int, b: int| 0 <= a < b < after.len() implies !lex_lt(#[trigger] after[b], #[trigger] after[a]) by {
                    if a < p && b == p {
                    } else if a == p && b > p {
                        if lex_lt(before[b - 1], x) {
                            if b - 1 == p {
                                lemma_lex_asym(x, before[p as int]);
                            } else {
                                lemma_lex_trans(before[b - 1], x, before[p as int]);
                            }
                        }
                    } else if a < p && b > p {
                    } else {
                    }
                }
            }
        }
        i = i + 1;
    }
    assert(views(names@).take(n as int) =~= views(names@));
    let ghost full = views(res@);
    res.truncate(8);
    assert(views(res@) =~= first8(full));
    res
}

} // verus!
