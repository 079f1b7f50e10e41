//! Tray texts, the model of the tray menu, and the dispatch of menu ids to actions.

use vstd::prelude::*;
use crate::audio::{DeviceInfo, Snapshot, label_spec, state_text_spec};
use crate::text::{join2, join3, str_equal, starts_with};

verus! {

/// Prefix of the ids of device items; the bare prefix selects the system default.
pub open spec fn dev_prefix() -> Seq<char> {
    "dev:"@
}

/// `s` cut to at most `max_chars` characters, the last one replaced by `…` when cut.
pub open spec fn truncate_spec(s: Seq<char>, max_chars: nat) -> Seq<char> {
    if s.len() <= max_chars {
        s
    } else {
        s.take(if max_chars == 0 { 0 } else { max_chars - 1 }) + "…"@
    }
}

/// Cuts `s` to at most `max_chars` characters (counting characters, not bytes), marking a
/// cut with `…`.
pub fn truncate(s: &str, max_chars: usize) -> (r: String)
    ensures
        r@ == truncate_spec(s@, max_chars as nat),
{
    if s.unicode_len() <= max_chars {
        return String::from_str(s);
    }
    let keep = if max_chars == 0 { 0 } else { max_chars - 1 };
    join2(s.substring_char(0, keep), "…")
}

/// Law: a cut text is at most `max_chars` characters long (for `max_chars` ≥ 1), and a text
/// that fits is returned unchanged.
pub proof fn lemma_truncate_bounds(s: Seq<char>, max_chars: nat)
    ensures
        max_chars >= 1 ==> truncate_spec(s, max_chars).len() <= max_chars,
        s.len() <= max_chars ==> truncate_spec(s, max_chars) == s,
        s.len() > max_chars >= 1 ==> truncate_spec(s, max_chars).take(max_chars - 1) == s.take(max_chars - 1),
{
    reveal_strlit("…");
    if s.len() > max_chars && max_chars >= 1 {
        let k = max_chars - 1;
        assert((s.take(k) + "…"@).take(k) =~= s.take(k));
    }
}

/// Hover text of the tray icon.
pub open spec fn tooltip_spec(muted: Option<bool>, name: Seq<char>) -> Seq<char> {
    "MicTrayRs — "@ + state_text_spec(muted) + "｜"@ + truncate_spec(name, 40)
}

/// The hover text of the tray icon: the state and the (shortened) device name.
pub fn tooltip_text(snap: &Snapshot) -> (r: String)
    ensures
        r@ == tooltip_spec(snap.muted, snap.device_name@),
{
    join3("MicTrayRs — ", snap.state_text(), "｜").concat(
        truncate(snap.device_name.as_str(), 40).as_str(),
    )
}

/// Law: the hover text stays within 60 characters (the system limit is 128).
pub proof fn lemma_tooltip_short(muted: Option<bool>, name: Seq<char>)
    ensures
        tooltip_spec(muted, name).len() <= 60,
{
    reveal_strlit("MicTrayRs — ");
    reveal_strlit("已静音");
    reveal_strlit("未静音");
    reveal_strlit("状态未知");
    reveal_strlit("｜");
    lemma_truncate_bounds(name, 40);
}

/// One device entry of the device submenu.
pub struct DeviceItem {
    /// Menu id: the device prefix followed by the device id.
    pub id: String,
    pub text: String,
    pub checked: bool,
}

/// The content of the tray menu that depends on the state.
pub struct MenuModel {
    /// The first, informational line.
    pub info: String,
    /// Whether "follow the system default" is checked.
    pub follow_checked: bool,
    /// The device entries, in the order of the device list.
    pub devices: Vec<DeviceItem>,
    /// Whether "start with Windows" is checked.
    pub autostart_checked: bool,
}

/// The informational first line of the menu.
pub open spec fn info_spec(muted: Option<bool>, name: Seq<char>) -> Seq<char> {
    "当前麦克风："@ + truncate_spec(name, 24) + "（"@ + state_text_spec(muted) + "）"@
}

/// Whether the entry of device `id` is checked: only in explicit mode, for the selected id.
pub open spec fn device_checked(follows_default: bool, selected: Seq<char>, id: Seq<char>) -> bool {
    !follows_default && selected == id
}

/// The menu content for the state `snap`, the device list and the autostart setting.
pub fn menu_model(snap: &Snapshot, devices: &[DeviceInfo], autostart: bool) -> (m: MenuModel)
    ensures
        m.info@ == info_spec(snap.muted, snap.device_name@),
        m.follow_checked == snap.follows_default,
        m.autostart_checked == autostart,
        m.devices@.len() == devices@.len(),
        forall|i: int|
            0 <= i < devices@.len() ==> {
                &&& (#[trigger] m.devices@[i]).id@ == dev_prefix() + devices@[i].id@
                &&& m.devices@[i].text@ == truncate_spec(
                    label_spec(
                        devices@[i].name@,
                        devices@[i].is_default_console,
                        devices@[i].is_default_comms,
                    ),
                    48,
                )
                &&& m.devices@[i].checked == device_checked(
                    snap.follows_default,
                    snap.selected_id@,
                    devices@[i].id@,
                )
            },
{
    let info = join2("当前麦克风：", truncate(snap.device_name.as_str(), 24).as_str()).concat(
        "（",
    ).concat(snap.state_text()).concat("）");
    let mut items: Vec<DeviceItem> = Vec::new();
    let n = devices.len();
    let mut i: usize = 0;
    while i < n
        invariant
            n == devices@.len(),
            i <= n,
            items@.len() == i,
            forall|k: int|
                0 <= k < i ==> {
                    &&& (#[trigger] items@[k]).id@ == dev_prefix() + devices@[k].id@
                    &&& items@[k].text@ == truncate_spec(
                        label_spec(
                            devices@[k].name@,
                            devices@[k].is_default_console,
                            devices@[k].is_default_comms,
                        ),
                        48,
                    )
                    &&& items@[k].checked == device_checked(
                        snap.follows_default,
                        snap.selected_id@,
                        devices@[k].id@,
                    )
                },
        decreases n - i,
    {
        let d = &devices[i];
        let checked = !snap.follows_default && snap.selected_id.eq(&d.id);
        items.push(
            DeviceItem {
                id: join2("dev:", d.id.as_str()),
                text: truncate(d.label().as_str(), 48),
                checked,
            },
        );
        i = i + 1;
    }
    MenuModel { info, follow_checked: snap.follows_default, devices: items, autostart_checked: autostart }
}

/// What a menu id asks for.
pub enum MenuAction {
    /// Select the device with this id (empty: follow the system default).
    SelectDevice(String),
    ToggleMute,
    ToggleOverlay,
    ToggleAutostart,
    RescanDevices,
    Quit,
    /// The informational line; nothing to do.
    Info,
    /// An id this menu does not have.
    Unknown(String),
}

/// Id of the informational line.
pub open spec fn id_info_spec() -> Seq<char> {
    "info_device"@
}

/// Id of "toggle mute".
pub open spec fn id_toggle_spec() -> Seq<char> {
    "toggle_mute"@
}

/// Id of "show/hide overlay".
pub open spec fn id_overlay_spec() -> Seq<char> {
    "toggle_overlay"@
}

/// Id of "start with Windows".
pub open spec fn id_autostart_spec() -> Seq<char> {
    "toggle_autostart"@
}

/// Id of "rescan devices".
pub open spec fn id_rescan_spec() -> Seq<char> {
    "dev_rescan"@
}

/// Id of "quit".
pub open spec fn id_quit_spec() -> Seq<char> {
    "quit"@
}

/// Id of the informational line.
pub fn id_info() -> (r: &'static str)
    ensures
        r@ == id_info_spec(),
{
    "info_device"
}

/// Id of "toggle mute".
pub fn id_toggle() -> (r: &'static str)
    ensures
        r@ == id_toggle_spec(),
{
    "toggle_mute"
}

/// Id of "show/hide overlay".
pub fn id_overlay() -> (r: &'static str)
    ensures
        r@ == id_overlay_spec(),
{
    "toggle_overlay"
}

/// Id of "start with Windows".
pub fn id_autostart() -> (r: &'static str)
    ensures
        r@ == id_autostart_spec(),
{
    "toggle_autostart"
}

/// Id of "rescan devices".
pub fn id_rescan() -> (r: &'static str)
    ensures
        r@ == id_rescan_spec(),
{
    "dev_rescan"
}

/// Id of "quit".
pub fn id_quit() -> (r: &'static str)
    ensures
        r@ == id_quit_spec(),
{
    "quit"
}

/// Id of "follow the system default" (the bare device prefix).
pub fn dev_prefix_str() -> (r: &'static str)
    ensures
        r@ == dev_prefix(),
{
    "dev:"
}

/// The action of the menu id `id`: ids with the device prefix select the device named by
/// the rest of the id; the fixed ids map to their actions.
pub open spec fn menu_action_spec(id: Seq<char>) -> MenuActionView {
    if dev_prefix().len() <= id.len() && id.take(dev_prefix().len() as int) == dev_prefix() {
        MenuActionView::SelectDevice(id.skip(dev_prefix().len() as int))
    } else if id == id_toggle_spec() {
        MenuActionView::ToggleMute
    } else if id == id_overlay_spec() {
        MenuActionView::ToggleOverlay
    } else if id == id_autostart_spec() {
        MenuActionView::ToggleAutostart
    } else if id == id_rescan_spec() {
        MenuActionView::RescanDevices
    } else if id == id_quit_spec() {
        MenuActionView::Quit
    } else if id == id_info_spec() {
        MenuActionView::Info
    } else {
        MenuActionView::Unknown(id)
    }
}

/// A menu action, with its strings as character sequences.
pub enum MenuActionView {
    SelectDevice(Seq<char>),
    ToggleMute,
    ToggleOverlay,
    ToggleAutostart,
    RescanDevices,
    Quit,
    Info,
    Unknown(Seq<char>),
}

impl MenuAction {
    /// The action with its strings taken by their characters.
    pub open spec fn view(&self) -> MenuActionView {
        match self {
            MenuAction::SelectDevice(s) => MenuActionView::SelectDevice(s@),
            MenuAction::ToggleMute => MenuActionView::ToggleMute,
            MenuAction::ToggleOverlay => MenuActionView::ToggleOverlay,
            MenuAction::ToggleAutostart => MenuActionView::ToggleAutostart,
            MenuAction::RescanDevices => MenuActionView::RescanDevices,
            MenuAction::Quit => MenuActionView::Quit,
            MenuAction::Info => MenuActionView::Info,
            MenuAction::Unknown(s) => MenuActionView::Unknown(s@),
        }
    }
}

/// The action that the menu id `id` asks for.
pub fn menu_action(id: &str) -> (r: MenuAction)
    ensures
        r.view() == menu_action_spec(id@),
{
    proof {
        reveal_strlit("dev:");
    }
    if starts_with(id, "dev:") {
        let rest = id.substring_char(4, id.unicode_len());
        return MenuAction::SelectDevice(String::from_str(rest));
    }
    if str_equal(id, "toggle_mute") {
        MenuAction::ToggleMute
    } else if str_equal(id, "toggle_overlay") {
        MenuAction::ToggleOverlay
    } else if str_equal(id, "toggle_autostart") {
        MenuAction::ToggleAutostart
    } else if str_equal(id, "dev_rescan") {
        MenuAction::RescanDevices
    } else if str_equal(id, "quit") {
        MenuAction::Quit
    } else if str_equal(id, "info_device") {
        MenuAction::Info
    } else {
        MenuAction::Unknown(String::from_str(id))
    }
}

/// Law: the id of every device entry dispatches back to selecting exactly that device, and
/// the entry "follow the system default" (the bare prefix) selects the empty id.
pub proof fn lemma_device_ids_round_trip(id: Seq<char>)
    ensures
        menu_action_spec(dev_prefix() + id) == MenuActionView::SelectDevice(id),
        menu_action_spec(dev_prefix()) == MenuActionView::SelectDevice(Seq::<char>::empty()),
{
    reveal_strlit("dev:");
    assert((dev_prefix() + id).take(4) =~= dev_prefix());
    assert((dev_prefix() + id).skip(4) =~= id);
    assert(dev_prefix().take(4) =~= dev_prefix());
    assert(dev_prefix().skip(4) =~= Seq::<char>::empty());
}

/// Law: each fixed menu entry dispatches to its own action, and no fixed id is mistaken for
/// a device entry.
pub proof fn lemma_fixed_ids_round_trip()
    ensures
        menu_action_spec("toggle_mute"@) == MenuActionView::ToggleMute,
        menu_action_spec("toggle_overlay"@) == MenuActionView::ToggleOverlay,
        menu_action_spec("toggle_autostart"@) == MenuActionView::ToggleAutostart,
        menu_action_spec("dev_rescan"@) == MenuActionView::RescanDevices,
        menu_action_spec("quit"@) == MenuActionView::Quit,
        menu_action_spec("info_device"@) == MenuActionView::Info,
{
    reveal_strlit("dev:");
    reveal_strlit("toggle_mute");
    reveal_strlit("toggle_overlay");
    reveal_strlit("toggle_autostart");
    reveal_strlit("dev_rescan");
    reveal_strlit("quit");
    reveal_strlit("info_device");
    assert("dev_rescan"@.take(4)[3] != dev_prefix()[3]);
    assert("toggle_mute"@.take(4)[0] != dev_prefix()[0]);
    assert("toggle_overlay"@.take(4)[0] != dev_prefix()[0]);
    assert("toggle_autostart"@.take(4)[0] != dev_prefix()[0]);
    assert("quit"@.take(4)[0] != dev_prefix()[0]);
    assert("info_device"@.take(4)[0] != dev_prefix()[0]);
    assert("toggle_overlay"@.len() != "toggle_mute"@.len());
}

/// Law: the device submenu is a single choice. In follow-default mode no device entry is
/// checked; otherwise only entries whose id is the selected id are, so with distinct ids at
/// most one is.
pub proof fn lemma_single_choice(snap: Snapshot, devices: Seq<DeviceInfo>, m: MenuModel)
    requires
        m.follow_checked == snap.follows_default,
        m.devices@.len() == devices.len(),
        forall|i: int|
            0 <= i < devices.len() ==> (#[trigger] m.devices@[i]).checked == device_checked(
                snap.follows_default,
                snap.selected_id@,
                devices[i].id@,
            ),
        forall|i: int, j: int|
            0 <= i < j < devices.len() ==> (#[trigger] devices[i]).id@ != (#[trigger] devices[j]).id@,
    ensures
        m.follow_checked ==> forall|i: int| 0 <= i < m.devices@.len() ==> !(#[trigger] m.devices@[i]).checked,
        forall|i: int, j: int|
            0 <= i < j < m.devices@.len() ==> !((#[trigger] m.devices@[i]).checked && (#[trigger] m.devices@[j]).checked),
{
    assert forall|i: int, j: int|
        0 <= i < j < m.devices@.len() implies !((#[trigger] m.devices@[i]).checked && (#[trigger] m.devices@[j]).checked) by {
        assert(devices[i].id@ != devices[j].id@);
    }
}

} // verus!
