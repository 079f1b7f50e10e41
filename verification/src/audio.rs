//! Microphone backend interface: device and state snapshots, the toggle rule,
//! the placeholder backend, and the decisions of a set-then-read-back write.
//!
//! A snapshot whose `muted` is `None` means the state could not be read. It is
//! never treated as "not muted", and no write is derived from it.

use vstd::prelude::*;
use crate::text::{dec, decimal, join2, join3, bool_text, bool_str};

verus! {

/// One active capture device.
#[derive(Clone, Debug, PartialEq, Eq)]
pub struct DeviceInfo {
    pub id: String,
    pub name: String,
    /// The system default capture device (console role).
    pub is_default_console: bool,
    /// The default communications capture device.
    pub is_default_comms: bool,
}

/// The bracketed role tags of a device line, if any.
pub open spec fn role_tags(console: bool, comms: bool) -> Seq<char> {
    if console && comms {
        "默认 / 通信默认"@
    } else if console {
        "默认"@
    } else {
        "通信默认"@
    }
}

/// The one-line text of a device in menus and logs.
pub open spec fn label_spec(name: Seq<char>, console: bool, comms: bool) -> Seq<char> {
    if !console && !comms {
        name
    } else {
        name + " ["@ + role_tags(console, comms) + "]"@
    }
}

/// Header line of a device listing.
pub open spec fn devices_header(n: nat) -> Seq<char> {
    "      活动录音设备 "@ + dec(n) + " 个:"@
}

/// Line naming device number `i`.
pub open spec fn device_line(i: nat, d: DeviceInfo) -> Seq<char> {
    "        ["@ + dec(i) + "] "@ + label_spec(d.name@, d.is_default_console, d.is_default_comms)
}

/// Line giving the id of a device.
pub open spec fn device_id_line(d: DeviceInfo) -> Seq<char> {
    "             id="@ + d.id@
}

impl DeviceInfo {
    /// The device as seen by the endpoint enumeration: its role flags say whether its id
    /// is the id of the default console / communications device.
    pub fn from_endpoint(
        id: String,
        name: String,
        console_id: &Option<String>,
        comms_id: &Option<String>,
    ) -> (r: DeviceInfo)
        ensures
            r.id@ == id@,
            r.name@ == name@,
            r.is_default_console == (console_id is Some && console_id->0@ == id@),
            r.is_default_comms == (comms_id is Some && comms_id->0@ == id@),
    {
        let console = match console_id {
            Some(c) => c.eq(&id),
            None => false,
        };
        let comms = match comms_id {
            Some(c) => c.eq(&id),
            None => false,
        };
        DeviceInfo { id, name, is_default_console: console, is_default_comms: comms }
    }

    /// The text shown for the device: its name, followed by its default roles in brackets.
    pub fn label(&self) -> (r: String)
        ensures
            r@ == label_spec(self.name@, self.is_default_console, self.is_default_comms),
    {
        if !self.is_default_console && !self.is_default_comms {
            return self.name.clone();
        }
        let tags = if self.is_default_console && self.is_default_comms {
            "默认 / 通信默认"
        } else if self.is_default_console {
            "默认"
        } else {
            "通信默认"
        };
        join3(self.name.as_str(), " [", tags).concat("]")
    }
}

/// The listing of `devs` for the startup log and the diagnostic report: a header with the
/// count, then for each device a numbered label line and an id line.
pub fn format_devices(devs: &[DeviceInfo]) -> (out: Vec<String>)
    ensures
        out@.len() == 2 * devs@.len() + 1,
        out@[0]@ == devices_header(devs@.len()),
        forall|i: int|
            0 <= i < devs@.len() ==> (#[trigger] out@[2 * i + 1])@ == device_line(
                i as nat,
                devs@[i],
            ) && out@[2 * i + 2]@ == device_id_line(devs@[i]),
{
    let mut out: Vec<String> = Vec::new();
    let n = devs.len();
    out.push(join3("      活动录音设备 ", decimal(n as u128).as_str(), " 个:"));
    let mut i: usize = 0;
    while i < n
        invariant
            n == devs@.len(),
            i <= n,
            out@.len() == 2 * i + 1,
            out@[0]@ == devices_header(n as nat),
            forall|k: int|
                0 <= k < i ==> (#[trigger] out@[2 * k + 1])@ == device_line(k as nat, devs@[k])
                    && out@[2 * k + 2]@ == device_id_line(devs@[k]),
        decreases n - i,
    {
        let d = &devs[i];
        let line = join3("        [", decimal(i as u128).as_str(), "] ").concat(d.label().as_str());
        out.push(line);
        out.push(join2("             id=", d.id.as_str()));
        i = i + 1;
    }
    out
}

/// The device state after an operation.
#[derive(Clone, Debug)]
pub struct Snapshot {
    /// Id of the device actually controlled (the resolved default device when following it).
    pub device_id: String,
    /// Readable name of that device.
    pub device_name: String,
    /// The real mute state; `None` when it could not be read.
    pub muted: Option<bool>,
    /// Whether the controlled device follows the system default.
    pub follows_default: bool,
    /// Id explicitly chosen by the user (empty: follow the system default).
    pub selected_id: String,
    /// Reason of the last failure, if any.
    pub error: Option<String>,
}

/// Status word for a mute state.
pub open spec fn state_text_spec(muted: Option<bool>) -> Seq<char> {
    match muted {
        Some(true) => "已静音"@,
        Some(false) => "未静音"@,
        None => "状态未知"@,
    }
}

/// Name shown when no usable microphone was found.
pub open spec fn no_device_name() -> Seq<char> {
    "(未找到可用麦克风)"@
}

/// Views of two optional strings agree.
pub open spec fn same_opt_text(a: Option<String>, b: Option<Seq<char>>) -> bool {
    match (a, b) {
        (Some(x), Some(y)) => x@ == y,
        (None, None) => true,
        _ => false,
    }
}

impl Snapshot {
    /// The snapshot used when no device information can be had at all.
    pub fn unknown(reason: String) -> (r: Snapshot)
        ensures
            r.device_id@ == Seq::<char>::empty(),
            r.device_name@ == no_device_name(),
            r.muted is None,
            r.follows_default,
            r.selected_id@ == Seq::<char>::empty(),
            same_opt_text(r.error, Some(reason@)),
    {
        Snapshot {
            device_id: String::new(),
            device_name: String::from_str("(未找到可用麦克风)"),
            muted: None,
            follows_default: true,
            selected_id: String::new(),
            error: Some(reason),
        }
    }

    /// A snapshot of the resolved device `id`/`name` while `selected_id` is the user's choice
    /// (empty: following the system default).
    pub fn from_parts(
        id: &str,
        name: &str,
        muted: Option<bool>,
        error: Option<String>,
        selected_id: &str,
    ) -> (r: Snapshot)
        ensures
            r.device_id@ == id@,
            r.device_name@ == name@,
            r.muted == muted,
            r.follows_default == (selected_id@.len() == 0),
            r.selected_id@ == selected_id@,
            r.error == error,
    {
        Snapshot {
            device_id: String::from_str(id),
            device_name: String::from_str(name),
            muted,
            follows_default: selected_id.unicode_len() == 0,
            selected_id: String::from_str(selected_id),
            error,
        }
    }

    /// The status word of the snapshot; an unreadable state is "unknown", never "not muted".
    pub fn state_text(&self) -> (r: &'static str)
        ensures
            r@ == state_text_spec(self.muted),
    {
        match self.muted {
            Some(true) => "已静音",
            Some(false) => "未静音",
            None => "状态未知",
        }
    }
}

/// What a toggle writes: the negation of a known state, and nothing when the state is unknown.
pub open spec fn toggle_target_spec(muted: Option<bool>) -> Option<bool> {
    match muted {
        Some(m) => Some(!m),
        None => None,
    }
}

/// The value a toggle writes, given the snapshot just read; `None` refuses the write.
pub fn toggle_target(cur: &Snapshot) -> (r: Option<bool>)
    ensures
        r == toggle_target_spec(cur.muted),
{
    match cur.muted {
        Some(m) => Some(!m),
        None => None,
    }
}

/// Law: a toggle never writes when the state is unknown, writes the opposite of a known
/// state, and toggling the state a toggle wrote asks for the original state again.
pub proof fn lemma_toggle_rule(muted: Option<bool>)
    ensures
        muted is None ==> toggle_target_spec(muted) is None,
        muted matches Some(m) ==> toggle_target_spec(muted) == Some(!m),
        toggle_target_spec(muted) matches Some(w) ==> toggle_target_spec(Some(w)) == muted,
{
}

/// A microphone backend. Platforms provide their own implementation.
pub trait MicControllerTrait: Send + Sync {
    /// Whether `r` is an answer this backend may give to a read of the state. A backend
    /// that describes nothing admits every snapshot.
    open spec fn read_answer(&self, r: Snapshot) -> bool {
        true
    }

    /// Whether `r` is an answer this backend may give to a write of `want` followed by
    /// its read-back. A backend that describes nothing admits every snapshot.
    open spec fn write_answer(&self, want: bool, r: Snapshot) -> bool {
        true
    }

    /// Reads the real state of the controlled device.
    fn snapshot(&self) -> (r: Snapshot)
        ensures
            self.read_answer(r),
    ;

    /// Sets the mute state, reads it back and reports what was read.
    fn set_muted(&self, muted: bool) -> (r: Snapshot)
        ensures
            self.write_answer(muted, r),
    ;

    /// Read, negate, write, read back. When the state cannot be read the write is
    /// refused and the snapshot just read is returned.
    ///
    /// The answer is either a read that found the state unknown (nothing was written), or
    /// the answer to writing the negation of the known state that a read found.
    fn toggle_muted(&self) -> (r: Snapshot)
        default_ensures
            (r.muted is None && self.read_answer(r)) || exists|cur: Snapshot, want: bool|
                #![trigger self.read_answer(cur), self.write_answer(want, r)]
                self.read_answer(cur) && cur.muted == Some(!want) && self.write_answer(want, r),
    {
        let cur = self.snapshot();
        match toggle_target(&cur) {
            Some(want) => {
                let r = self.set_muted(want);
                assert(self.read_answer(cur) && cur.muted == Some(!want));
                r
            },
            None => cur,
        }
    }

    /// The active capture devices.
    fn devices(&self) -> Vec<DeviceInfo>;

    /// Selects the controlled device by id (empty: follow the system default).
    fn select_device(&self, id: &str) -> Snapshot;
}

/// A backend for platforms without audio control: every answer is the unknown snapshot.
pub struct StubMic {
    reason: String,
}

/// `s` is the unknown snapshot carrying `reason`.
pub open spec fn is_unknown_with(s: Snapshot, reason: Seq<char>) -> bool {
    &&& s.device_id@ == Seq::<char>::empty()
    &&& s.device_name@ == no_device_name()
    &&& s.muted is None
    &&& s.follows_default
    &&& s.selected_id@ == Seq::<char>::empty()
    &&& same_opt_text(s.error, Some(reason))
}

impl StubMic {
    /// Why this backend is in use.
    pub closed spec fn reason(&self) -> Seq<char> {
        self.reason@
    }

    pub fn new(reason: String) -> (r: StubMic)
        ensures
            r.reason() == reason@,
    {
        StubMic { reason }
    }
}

impl MicControllerTrait for StubMic {
    /// Every read gives the unknown snapshot carrying the reason.
    open spec fn read_answer(&self, r: Snapshot) -> bool {
        is_unknown_with(r, self.reason())
    }

    /// Every write is refused with the unknown snapshot carrying the reason.
    open spec fn write_answer(&self, want: bool, r: Snapshot) -> bool {
        is_unknown_with(r, self.reason())
    }

    fn snapshot(&self) -> (r: Snapshot)
        ensures
            is_unknown_with(r, self.reason()),
    {
        Snapshot::unknown(self.reason.clone())
    }

    fn set_muted(&self, _muted: bool) -> (r: Snapshot)
        ensures
            is_unknown_with(r, self.reason()),
    {
        self.snapshot()
    }

    fn devices(&self) -> (r: Vec<DeviceInfo>)
        ensures
            r@.len() == 0,
    {
        Vec::new()
    }

    fn select_device(&self, _id: &str) -> (r: Snapshot)
        ensures
            is_unknown_with(r, self.reason()),
    {
        self.snapshot()
    }
}


// ---------------------------------------------------------------------------
// Set-then-read-back decisions
// ---------------------------------------------------------------------------

/// Message for a failed mute write.
pub open spec fn write_failed_text(want: bool, e: Seq<char>) -> Seq<char> {
    "IAudioEndpointVolume::SetMute("@ + bool_text(want) + ") 失败: "@ + e
}

/// Message for a failed read-back attempt.
pub open spec fn read_failed_text(want: bool, e: Seq<char>) -> Seq<char> {
    "SetMute("@ + bool_text(want) + ") 后回读失败: "@ + e
}

/// Message when the read-back shows a value other than the one written.
pub open spec fn not_applied_text(want: bool, actual: bool) -> Seq<char> {
    "SetMute("@ + bool_text(want) + ") 未生效：回读实际值 = "@ + bool_text(actual)
        + "（可能被系统/驱动接管）"@
}

/// Message when no read-back attempt succeeded and none reported an error.
pub open spec fn no_readback_text() -> Seq<char> {
    "SetMute 后无法回读，状态未知"@
}

/// The message of a failed mute write of `want`.
pub fn write_failed_message(want: bool, e: &str) -> (r: String)
    ensures
        r@ == write_failed_text(want, e@),
{
    join3("IAudioEndpointVolume::SetMute(", bool_str(want), ") 失败: ").concat(e)
}

/// What the read-back attempts after a write have seen so far.
pub struct Readback {
    /// The last value read successfully.
    pub actual: Option<bool>,
    /// The message of the last failed read.
    pub last_err: Option<String>,
}

impl Readback {
    /// Nothing read yet.
    pub fn new() -> (r: Readback)
        ensures
            r.actual is None,
            r.last_err is None,
    {
        Readback { actual: None, last_err: None }
    }

    /// Records one read-back attempt after writing `want`. Returns whether to stop
    /// retrying: only a read that shows `want` stops.
    pub fn record(&mut self, want: bool, read: Result<bool, String>) -> (stop: bool)
        ensures
            match read {
                Ok(b) => {
                    &&& final(self).actual == Some(b)
                    &&& final(self).last_err == old(self).last_err
                    &&& stop == (b == want)
                },
                Err(e) => {
                    &&& final(self).actual == old(self).actual
                    &&& same_opt_text(final(self).last_err, Some(read_failed_text(want, e@)))
                    &&& !stop
                },
            },
    {
        match read {
            Ok(b) => {
                self.actual = Some(b);
                b == want
            },
            Err(e) => {
                self.last_err = Some(
                    join3("SetMute(", bool_str(want), ") 后回读失败: ").concat(e.as_str()),
                );
                false
            },
        }
    }

    /// The mute state and error to report after writing `want`: the last value read, with
    /// no error only when it equals `want`; otherwise the reason.
    pub fn verdict(self, want: bool) -> (r: (Option<bool>, Option<String>))
        ensures
            r.0 == self.actual,
            r.1 is None <==> self.actual == Some(want),
            match self.actual {
                Some(a) => a != want ==> same_opt_text(r.1, Some(not_applied_text(want, a))),
                None => match self.last_err {
                    Some(e) => same_opt_text(r.1, Some(e@)),
                    None => same_opt_text(r.1, Some(no_readback_text())),
                },
            },
    {
        match self.actual {
            Some(a) => {
                if a == want {
                    (Some(a), None)
                } else {
                    let msg = join3("SetMute(", bool_str(want), ") 未生效：回读实际值 = ").concat(
                        bool_str(a),
                    ).concat("（可能被系统/驱动接管）");
                    (Some(a), Some(msg))
                }
            },
            None => match self.last_err {
                Some(e) => (None, Some(e)),
                None => (None, Some(String::from_str("SetMute 后无法回读，状态未知"))),
            },
        }
    }
}

/// The snapshot of a probe: the state read from the resolved device when the read
/// succeeded; otherwise an unknown state with the read error, naming the device when it
/// could still be identified.
pub fn probe_snapshot(
    read: Result<(String, String, bool), String>,
    identity: Option<(String, String)>,
    selected_id: &str,
) -> (r: Snapshot)
    ensures
        r.selected_id@ == selected_id@,
        r.follows_default == (selected_id@.len() == 0),
        match read {
            Ok(t) => r.device_id@ == t.0@ && r.device_name@ == t.1@ && r.muted == Some(t.2)
                && r.error is None,
            Err(e) => {
                &&& r.muted is None
                &&& same_opt_text(r.error, Some(e@))
                &&& match identity {
                    Some(ident) => r.device_id@ == ident.0@ && r.device_name@ == ident.1@,
                    None => r.device_id@ == Seq::<char>::empty() && r.device_name@
                        == no_device_name(),
                }
            },
        },
{
    match read {
        Ok((id, name, muted)) => Snapshot::from_parts(
            id.as_str(),
            name.as_str(),
            Some(muted),
            None,
            selected_id,
        ),
        Err(e) => match identity {
            Some((id, name)) => Snapshot::from_parts(
                id.as_str(),
                name.as_str(),
                None,
                Some(e),
                selected_id,
            ),
            None => {
                proof {
                    reveal_strlit("");
                }
                Snapshot::from_parts("", "(未找到可用麦克风)", None, Some(e), selected_id)
            },
        },
    }
}

} // verus!
