//! What the window shows and what its buttons do.
use crate::device::{ConnectionMode, DeviceInfo, DeviceTransport, DeviceView};
use crate::i18n::Language;
use crate::scanner::{card_views, SavedCard};
use crate::text::{
    begins_with, decimal, decimal_text, decoded, digits_value, is_digit, join_texts, joined_by,
    lowered, numeral, same_text, texts, trim_text, trimmed, written_numbers_are_read_back, Numeral,
};
use crate::wire::copy_range;
use vstd::prelude::*;
use vstd::utf8::{decode_utf8, encode_utf8, valid_utf8};

verus! {

/// The most lines that the log keeps.
pub const LOG_LIMIT: usize = 1000;

/// The number with at least `width` digits.
pub open spec fn padded(n: nat, width: nat) -> Seq<char> {
    if decimal(n).len() >= width {
        decimal(n)
    } else {
        zeros((width - decimal(n).len()) as nat) + decimal(n)
    }
}

/// A run of zeros.
pub open spec fn zeros(n: nat) -> Seq<char> {
    Seq::new(n, |i: int| '0')
}

fn pad(n: u64, width: usize) -> (digits: String)
    ensures
        digits@ == padded(n as nat, width as nat),
{
    let plain: String = decimal_text(n);
    let count: usize = plain.as_str().unicode_len();
    let mut digits: String = String::new();
    let mut i: usize = count;
    assert(digits@ =~= zeros(0));
    while i < width
        invariant
            count <= i,
            i <= width || i == count,
            digits@ == zeros((i - count) as nat),
        decreases width - i,
    {
        digits.push('0');
        i = i + 1;
        assert(digits@ =~= zeros((i - count) as nat));
    }
    let all: String = digits.concat(plain.as_str());
    assert(all@ =~= padded(n as nat, width as nat));
    all
}

/// A time of day with milliseconds.
pub fn timestamp(hour: u16, minute: u16, second: u16, millisecond: u16) -> (text: String)
    ensures
        text@ == padded(hour as nat, 2) + ":"@ + padded(minute as nat, 2) + ":"@ + padded(
            second as nat,
            2,
        ) + "."@ + padded(millisecond as nat, 3),
{
    pad(hour as u64, 2).concat(":").concat(pad(minute as u64, 2).as_str()).concat(":").concat(
        pad(second as u64, 2).as_str(),
    ).concat(".").concat(pad(millisecond as u64, 3).as_str())
}

/// A keypad theme that was loaded.
pub struct ThemeInfo {
    /// Its name.
    pub name: String,
    /// The cache version it was made for.
    pub version: String,
    /// How many files it has.
    pub items: usize,
}

/// What is known of a theme.
pub ghost struct ThemeView {
    pub name: Seq<char>,
    pub version: Seq<char>,
    pub items: nat,
}

impl View for ThemeInfo {
    type V = ThemeView;

    open spec fn view(&self) -> ThemeView {
        ThemeView { name: self.name@, version: self.version@, items: self.items as nat }
    }
}

/// The state of the window.
pub struct AirCardApp {
    /// The language of its texts.
    pub language: Language,
    /// The devices in reach.
    pub devices: Vec<DeviceInfo>,
    /// The device that is selected.
    pub selected_udid: Option<String>,
    /// The transports that the user allows.
    pub connection_mode: ConnectionMode,
    /// The card that was entered.
    pub card_hash: String,
    /// The cards that were seen before.
    pub saved_cards: Vec<SavedCard>,
    /// Artwork is prepared.
    pub has_skin: bool,
    /// The log is being scanned.
    pub scanning_syslog: bool,
    /// There is a scan that can be told to stop.
    pub can_stop_scan: bool,
    /// The theme that is loaded.
    pub theme: Option<ThemeInfo>,
    /// The cache version that the user chose.
    pub forced_telephony_ver: String,
    /// The keypad language that the user chose.
    pub keypad_language: String,
    /// The user wants bold keys.
    pub passcode_bold: bool,
    /// A write is going on.
    pub is_busy: bool,
    /// How far the write is.
    pub progress_step: usize,
    /// How far it will go.
    pub progress_total: usize,
    /// What it is doing.
    pub progress_msg: String,
    /// The line at the bottom.
    pub status_msg: String,
    /// A worker is running.
    pub has_task: bool,
    /// The log.
    pub logs: Vec<String>,
}

/// What the window shows.
#[verifier::ext_equal]
pub ghost struct AppView {
    pub language: Language,
    pub devices: Seq<DeviceView>,
    pub selected: Option<Seq<char>>,
    pub mode: ConnectionMode,
    pub card_hash: Seq<char>,
    pub saved: Seq<(Seq<char>, Seq<char>)>,
    pub has_skin: bool,
    pub scanning: bool,
    pub can_stop_scan: bool,
    pub theme: Option<ThemeView>,
    pub telephony: Seq<char>,
    pub keypad: Seq<char>,
    pub bold: bool,
    pub busy: bool,
    pub step: nat,
    pub total: nat,
    pub progress: Seq<char>,
    pub status: Seq<char>,
    pub has_task: bool,
    pub logs: Seq<Seq<char>>,
}

/// The views of a run of devices.
pub open spec fn device_list(devices: Seq<DeviceInfo>) -> Seq<DeviceView> {
    Seq::new(devices.len(), |i: int| devices[i]@)
}

/// The text of an optional string.
pub open spec fn opt_text(s: Option<String>) -> Option<Seq<char>> {
    match s {
        Some(s) => Some(s@),
        None => None,
    }
}

/// What is known of an optional theme.
pub open spec fn opt_theme(t: Option<ThemeInfo>) -> Option<ThemeView> {
    match t {
        Some(t) => Some(t@),
        None => None,
    }
}

impl View for AirCardApp {
    type V = AppView;

    open spec fn view(&self) -> AppView {
        AppView {
            language: self.language,
            devices: device_list(self.devices@),
            selected: opt_text(self.selected_udid),
            mode: self.connection_mode,
            card_hash: self.card_hash@,
            saved: card_views(self.saved_cards@),
            has_skin: self.has_skin,
            scanning: self.scanning_syslog,
            can_stop_scan: self.can_stop_scan,
            theme: opt_theme(self.theme),
            telephony: self.forced_telephony_ver@,
            keypad: self.keypad_language@,
            bold: self.passcode_bold,
            busy: self.is_busy,
            step: self.progress_step as nat,
            total: self.progress_total as nat,
            progress: self.progress_msg@,
            status: self.status_msg@,
            has_task: self.has_task,
            logs: texts(self.logs@),
        }
    }
}

/// The log after a line: stamped with the time, and without the oldest line where
/// there are too many.
pub open spec fn logged(logs: Seq<Seq<char>>, now: Seq<char>, text: Seq<char>) -> Seq<Seq<char>> {
    let more = logs.push("["@ + now + "] "@ + text);
    if more.len() > LOG_LIMIT {
        more.skip(1)
    } else {
        more
    }
}

/// The window after a line in the log.
pub open spec fn noted(v: AppView, now: Seq<char>, text: Seq<char>) -> AppView {
    AppView { logs: logged(v.logs, now, text), ..v }
}

/// The window after a line in the log and one at the bottom.
pub open spec fn told(v: AppView, now: Seq<char>, text: Seq<char>, status: Seq<char>) -> AppView {
    AppView { logs: logged(v.logs, now, text), status, ..v }
}

/// The log never grows beyond its limit.
pub proof fn log_is_bounded(logs: Seq<Seq<char>>, now: Seq<char>, text: Seq<char>)
    requires
        logs.len() <= LOG_LIMIT,
    ensures
        logged(logs, now, text).len() <= LOG_LIMIT,
        logged(logs, now, text).len() > 0,
        logged(logs, now, text).last() == "["@ + now + "] "@ + text,
{
}

/// Some device in the list has this identifier.
pub open spec fn is_listed(devices: Seq<DeviceView>, udid: Seq<char>) -> bool {
    exists|i: int| 0 <= i < devices.len() && lowered((#[trigger] devices[i]).udid) == lowered(udid)
}

/// The device can be used in the mode: in the mode for the network alone, only while
/// no cable is attached.
pub open spec fn is_usable_in(d: DeviceView, mode: ConnectionMode) -> bool {
    if mode == ConnectionMode::Wifi {
        d.reached_by(DeviceTransport::Wifi) && !d.reached_by(DeviceTransport::Usb)
    } else {
        d.reached_in(mode)
    }
}

/// The selected device can be used in the selected mode.
pub open spec fn is_available(v: AppView) -> bool {
    match v.selected {
        Some(udid) => exists|i: int|
            0 <= i < v.devices.len() && lowered((#[trigger] v.devices[i]).udid) == lowered(udid)
                && is_usable_in(v.devices[i], v.mode),
        None => false,
    }
}

/// The selected device is in reach both ways.
pub open spec fn is_cabled(v: AppView) -> bool {
    match v.selected {
        Some(udid) => exists|i: int|
            0 <= i < v.devices.len() && lowered((#[trigger] v.devices[i]).udid) == lowered(udid)
                && v.devices[i].wifi && v.devices[i].usb,
        None => false,
    }
}

/// What stands at the bottom where the selected device cannot be used.
pub open spec fn unavailable_text(v: AppView) -> Seq<char> {
    if v.mode == ConnectionMode::Wifi && is_cabled(v) {
        v.language.shows(
            "Disconnect the USB cable and refresh to guarantee the full AirTraffic path uses WiFi."@,
        )
    } else {
        v.language.shows("Selected iPhone has no"@) + " "@ + v.language.shows(v.mode.name()) + " "@
            + v.language.shows("connection. Refresh devices or change transport mode."@)
    }
}

/// The window after the check before an operation, which may have failed.
pub open spec fn validated(v: AppView, now: Seq<char>, operation: Seq<char>) -> AppView {
    if v.selected is None {
        told(
            v,
            now,
            operation + " failed: No connected iPhone selected."@,
            v.language.shows("Please select a connected iPhone."@),
        )
    } else if !is_available(v) {
        told(
            v,
            now,
            operation + " failed: Selected device is unavailable in "@ + v.mode.name() + " mode."@,
            unavailable_text(v),
        )
    } else {
        v
    }
}

/// The log after the lines about the first `n` devices.
pub open spec fn devices_logged(
    logs: Seq<Seq<char>>,
    now: Seq<char>,
    devices: Seq<DeviceView>,
    n: nat,
) -> Seq<Seq<char>>
    decreases n,
{
    if n == 0 {
        logs
    } else {
        let d = devices[n - 1];
        logged(
            devices_logged(logs, now, devices, (n - 1) as nat),
            now,
            "Device #"@ + decimal(n) + ": "@ + d.label + " - UDID: "@ + d.udid,
        )
    }
}

/// The selection after the list of devices changed: kept while the device is listed,
/// otherwise the first device.
pub open spec fn reselected(selected: Option<Seq<char>>, devices: Seq<DeviceView>) -> Option<Seq<char>> {
    if devices.len() == 0 {
        None
    } else if selected matches Some(udid) && is_listed(devices, udid) {
        selected
    } else {
        Some(devices[0].udid)
    }
}

/// The window after the devices were listed.
pub open spec fn refreshed(v: AppView, now: Seq<char>, found: Result<Seq<DeviceView>, Seq<char>>) -> AppView {
    let begun = noted(v, now, "Scanning for connected iOS devices via usbmuxd..."@);
    match found {
        Err(error) => told(
            begun,
            now,
            "Device scan error: "@ + error,
            v.language.shows("Could not enumerate devices:"@) + " "@ + error,
        ),
        Ok(devices) => if devices.len() == 0 {
            AppView {
                devices,
                selected: None,
                ..told(
                    begun,
                    now,
                    "No devices detected. Connect by USB, or enable WiFi sync after initial USB pairing."@,
                    v.language.shows("No iPhone connected via USB or paired WiFi."@),
                )
            }
        } else {
            AppView {
                devices,
                selected: reselected(v.selected, devices),
                logs: devices_logged(begun.logs, now, devices, devices.len()),
                status: v.language.shows("Found"@) + " "@ + decimal(devices.len()) + " "@
                    + v.language.shows("connected device(s); transport mode:"@) + " "@
                    + v.language.shows(v.mode.name()),
                ..begun
            }
        },
    }
}

/// After a list that is not empty, a listed device is selected.
pub proof fn selection_is_listed(selected: Option<Seq<char>>, devices: Seq<DeviceView>)
    requires
        devices.len() > 0,
    ensures
        reselected(selected, devices) matches Some(udid) && is_listed(devices, udid),
{
    assert(lowered(devices[0].udid) == lowered(devices[0].udid));
}

/// What a button starts.
pub enum Task {
    /// Nothing.
    Idle,
    /// Tell the running scan to stop.
    StopScan,
    /// Scan the log of the device.
    Scan { udid: String },
    /// Write the prepared artwork to a card over the chosen transport; tell a scan to
    /// stop first.
    FlashCard { udid: String, mode: ConnectionMode, hash: String, stop_scan: bool },
    /// Bring back the original artwork of a card over the chosen transport; tell a scan
    /// to stop first.
    RestoreCard { udid: String, mode: ConnectionMode, hash: String, stop_scan: bool },
    /// Write the loaded theme over the chosen transport.
    FlashTheme { udid: String, mode: ConnectionMode },
}

/// Which task it is.
pub ghost enum TaskView {
    Idle,
    StopScan,
    Scan(Seq<char>),
    FlashCard(Seq<char>, ConnectionMode, Seq<char>, bool),
    RestoreCard(Seq<char>, ConnectionMode, Seq<char>, bool),
    FlashTheme(Seq<char>, ConnectionMode),
}

impl View for Task {
    type V = TaskView;

    open spec fn view(&self) -> TaskView {
        match self {
            Task::Idle => TaskView::Idle,
            Task::StopScan => TaskView::StopScan,
            Task::Scan { udid } => TaskView::Scan(udid@),
            Task::FlashCard { udid, mode, hash, stop_scan } => TaskView::FlashCard(
                udid@,
                *mode,
                hash@,
                *stop_scan,
            ),
            Task::RestoreCard { udid, mode, hash, stop_scan } => TaskView::RestoreCard(
                udid@,
                *mode,
                hash@,
                *stop_scan,
            ),
            Task::FlashTheme { udid, mode } => TaskView::FlashTheme(udid@, *mode),
        }
    }
}

/// What the scan button does.
pub open spec fn scan_toggled(v: AppView, now: Seq<char>) -> (AppView, TaskView) {
    if v.scanning {
        (
            AppView {
                can_stop_scan: false,
                ..told(
                    v,
                    now,
                    "Stopping wallet scan..."@,
                    v.language.shows("Stopping wallet scan..."@),
                )
            },
            if v.can_stop_scan {
                TaskView::StopScan
            } else {
                TaskView::Idle
            },
        )
    } else if v.busy || v.has_task {
        (v, TaskView::Idle)
    } else if v.selected is None || !is_available(v) {
        (validated(v, now, "Syslog scan"@), TaskView::Idle)
    } else {
        (
            AppView {
                can_stop_scan: true,
                scanning: true,
                has_task: true,
                ..told(
                    v,
                    now,
                    "Initiating syslog monitor session..."@,
                    v.language.shows("Scanning syslog... Open Wallet or tap your card on iPhone."@),
                )
            },
            TaskView::Scan(v.selected.unwrap()),
        )
    }
}

/// The window once a card is being written or restored.
pub open spec fn card_started(
    v: AppView,
    now: Seq<char>,
    progress: Seq<char>,
    status: Seq<char>,
    verb: Seq<char>,
) -> AppView {
    AppView {
        scanning: false,
        busy: true,
        step: 0,
        total: 3,
        progress,
        has_task: true,
        ..told(
            v,
            now,
            verb + trimmed(v.card_hash) + " (UDID: "@ + v.selected.unwrap() + ", transport: "@
                + v.mode.name() + ")"@,
            v.language.shows(status),
        )
    }
}

/// What the button that writes a card does.
pub open spec fn card_flashed(v: AppView, now: Seq<char>) -> (AppView, TaskView) {
    if v.busy || v.scanning || v.has_task {
        (v, TaskView::Idle)
    } else if v.selected is None || !is_available(v) {
        (validated(v, now, "Card flash"@), TaskView::Idle)
    } else if trimmed(v.card_hash).len() == 0 {
        (
            told(
                v,
                now,
                "Flash failed: Target card hash is empty."@,
                v.language.shows("Please enter or scan a target card hash."@),
            ),
            TaskView::Idle,
        )
    } else if !v.has_skin {
        (
            told(
                v,
                now,
                "Flash failed: No skin image prepared."@,
                v.language.shows("Please choose a card skin image first."@),
            ),
            TaskView::Idle,
        )
    } else {
        (
            card_started(
                v,
                now,
                "Initiating card flash..."@,
                "Writing card skin to iPhone..."@,
                "Starting card skin flash for hash: "@,
            ),
            TaskView::FlashCard(
                v.selected.unwrap(),
                v.mode,
                trimmed(v.card_hash),
                v.can_stop_scan,
            ),
        )
    }
}

/// What the button that restores a card does, given whether there is a backup.
pub open spec fn card_restored(v: AppView, now: Seq<char>, backup: bool) -> (AppView, TaskView) {
    if v.selected is None || !is_available(v) {
        (validated(v, now, "Restore original card"@), TaskView::Idle)
    } else if trimmed(v.card_hash).len() == 0 {
        (
            told(
                v,
                now,
                "Restore failed: Target card hash is empty."@,
                v.language.shows("Please enter or scan a target card hash."@),
            ),
            TaskView::Idle,
        )
    } else if !backup {
        (
            told(
                v,
                now,
                "Restore failed: Original card face backup not found."@,
                v.language.shows("Original card backup not found."@),
            ),
            TaskView::Idle,
        )
    } else {
        (
            card_started(
                v,
                now,
                "Restoring original card face..."@,
                "Restoring original card face..."@,
                "Starting original card face restore for hash: "@,
            ),
            TaskView::RestoreCard(
                v.selected.unwrap(),
                v.mode,
                trimmed(v.card_hash),
                v.can_stop_scan,
            ),
        )
    }
}

/// What the button that writes a theme does.
pub open spec fn theme_flashed(v: AppView, now: Seq<char>) -> (AppView, TaskView) {
    if v.busy || v.scanning || v.has_task {
        (v, TaskView::Idle)
    } else if v.selected is None || !is_available(v) {
        (validated(v, now, "Theme flash"@), TaskView::Idle)
    } else {
        match v.theme {
            None => (
                told(
                    v,
                    now,
                    "Theme flash failed: No .passthm theme loaded."@,
                    v.language.shows("Please select a .passthm theme file first."@),
                ),
                TaskView::Idle,
            ),
            Some(theme) => (
                AppView {
                    busy: true,
                    step: 0,
                    total: theme.items,
                    progress: "Starting passcode theme flash..."@,
                    has_task: true,
                    ..told(
                        v,
                        now,
                        "Flashing passcode theme '"@ + theme.name + "' ("@ + decimal(theme.items)
                            + " button assets) to device "@ + v.selected.unwrap() + " over "@
                            + v.mode.name(),
                        v.language.shows("Writing passcode theme buttons..."@),
                    )
                },
                TaskView::FlashTheme(v.selected.unwrap(), v.mode),
            ),
        }
    }
}

/// The buttons that write a card or a theme, or start a scan, start nothing while a
/// worker runs.
pub proof fn one_worker_at_a_time(v: AppView, now: Seq<char>)
    requires
        v.busy || v.has_task,
    ensures
        card_flashed(v, now) == (v, TaskView::Idle),
        theme_flashed(v, now) == (v, TaskView::Idle),
        !(scan_toggled(v, now).1 is Scan),
{
}

/// What is started is started for the selected device, while it can be used in the
/// selected mode.
pub proof fn tasks_use_the_selection(v: AppView, now: Seq<char>, backup: bool)
    ensures
        scan_toggled(v, now).1 matches TaskView::Scan(udid) ==> v.selected == Some(udid)
            && is_available(v),
        card_flashed(v, now).1 matches TaskView::FlashCard(udid, mode, hash, _) ==> v.selected == Some(
            udid,
        ) && mode == v.mode && is_available(v) && hash == trimmed(v.card_hash) && hash.len() > 0 && v.has_skin,
        card_restored(v, now, backup).1 matches TaskView::RestoreCard(udid, mode, hash, _) ==> v.selected
            == Some(udid) && mode == v.mode && is_available(v) && hash == trimmed(v.card_hash) && backup,
        theme_flashed(v, now).1 matches TaskView::FlashTheme(udid, mode) ==> v.selected == Some(udid)
            && mode == v.mode && is_available(v) && v.theme is Some,
{
}

/// What a worker reports.
pub enum Report {
    /// It has come this far.
    Progress { step: usize, total: usize, message: String },
    /// A line for the log.
    Line(String),
    /// A card came up; these are the stored cards now.
    CardFound { hash: String, name: String, saved: Vec<SavedCard> },
    /// It is done.
    Finished(String),
    /// It has failed.
    Failed(String),
}

/// The window after a report.
pub open spec fn reported(v: AppView, now: Seq<char>, report: Report) -> AppView {
    match report {
        Report::Progress { step, total, message } => {
            let shown = v.language.shows(message@);
            let line = "["@ + decimal(step as nat) + "/"@ + decimal(total as nat) + "] "@ + shown;
            AppView { step: step as nat, total: total as nat, progress: shown, ..told(v, now, line, line) }
        },
        Report::Line(line) => noted(v, now, line@),
        Report::CardFound { hash, name, saved } => {
            let line = v.language.shows("Card captured"@) + ": "@ + name@ + " ("@ + hash@ + ")"@;
            AppView { card_hash: hash@, saved: card_views(saved@), ..told(v, now, line, line) }
        },
        Report::Finished(message) => AppView {
            busy: false,
            scanning: false,
            has_task: false,
            ..told(v, now, "Operation completed: "@ + message@, message@)
        },
        Report::Failed(message) => AppView {
            busy: false,
            scanning: false,
            has_task: false,
            ..told(
                v,
                now,
                "Operation failed: "@ + message@,
                v.language.shows("Error: "@) + message@,
            )
        },
    }
}

/// Whatever a worker's end was, the window is free for the next one.
pub proof fn an_end_frees_the_window(v: AppView, now: Seq<char>, report: Report)
    requires
        report is Finished || report is Failed,
    ensures
        !reported(v, now, report).busy,
        !reported(v, now, report).scanning,
        !reported(v, now, report).has_task,
{
}

/// The window after a theme was loaded or could not be.
pub open spec fn theme_loaded(v: AppView, now: Seq<char>, theme: Result<ThemeView, Seq<char>>) -> AppView {
    match theme {
        Err(error) => told(
            v,
            now,
            "Failed to parse theme: "@ + error,
            v.language.shows("Failed to parse theme:"@) + " "@ + error,
        ),
        Ok(theme) => AppView {
            theme: Some(theme),
            ..told(
                v,
                now,
                "Passcode theme loaded: '"@ + theme.name + "' (telephony: "@ + theme.version
                    + ", lang: "@ + v.keypad + ", bold: "@ + truth(v.bold) + ", "@ + decimal(
                    theme.items,
                ) + " assets)"@,
                v.language.shows("Loaded"@) + " '"@ + theme.name + "' - "@ + decimal(theme.items)
                    + " "@ + v.language.shows("assets"@) + ", "@ + v.language.shows("target:"@) + " "@
                    + theme.version + ", "@ + v.language.shows("lang:"@) + " "@ + v.keypad + ", "@
                    + v.language.shows("bold:"@) + " "@ + v.language.shows(
                    if v.bold {
                        "ON"@
                    } else {
                        "OFF"@
                    },
                ),
            )
        },
    }
}

/// How a truth value prints.
pub open spec fn truth(b: bool) -> Seq<char> {
    if b {
        "true"@
    } else {
        "false"@
    }
}

/// The cache version that the user's choice asks for.
pub open spec fn cache_version(choice: Seq<char>) -> Seq<char> {
    if choice == "TelephonyUI-9"@ || choice == "TelephonyUI-8"@ {
        choice
    } else {
        "TelephonyUI-10"@
    }
}

/// What is missing before a card can be written.
pub open spec fn card_needs(v: AppView) -> Seq<Seq<char>> {
    let device = if v.selected is None {
        seq![v.language.shows("connect iPhone"@)]
    } else if !is_available(v) {
        seq![v.language.shows("choose available transport"@)]
    } else {
        Seq::empty()
    };
    let hash = if trimmed(v.card_hash).len() == 0 {
        device.push(v.language.shows("enter card hash"@))
    } else {
        device
    };
    if !v.has_skin {
        hash.push(v.language.shows("choose image"@))
    } else {
        hash
    }
}

/// What is missing before a theme can be written.
pub open spec fn theme_needs(v: AppView) -> Seq<Seq<char>> {
    let device = if v.selected is None {
        seq![v.language.shows("connect iPhone"@)]
    } else if !is_available(v) {
        seq![v.language.shows("choose available transport"@)]
    } else {
        Seq::empty()
    };
    if v.theme is None {
        device.push(v.language.shows("select theme"@))
    } else {
        device
    }
}

/// A card can be written.
pub open spec fn can_flash_card(v: AppView) -> bool {
    !v.busy && is_available(v) && trimmed(v.card_hash).len() > 0 && v.has_skin
}

/// The button that writes a card is active exactly when no write is going on and
/// nothing is missing.
pub proof fn card_button_agrees(v: AppView)
    ensures
        can_flash_card(v) == (!v.busy && card_needs(v).len() == 0),
{
}

/// The window at its start, before its first lines in the log.
pub open spec fn fresh(language: Language, saved: Seq<(Seq<char>, Seq<char>)>) -> AppView {
    AppView {
        language,
        devices: Seq::empty(),
        selected: None,
        mode: ConnectionMode::Auto,
        card_hash: Seq::empty(),
        saved,
        has_skin: false,
        scanning: false,
        can_stop_scan: false,
        theme: None,
        telephony: "Auto (TelephonyUI-10)"@,
        keypad: "English"@,
        bold: false,
        busy: false,
        step: 0,
        total: 0,
        progress: Seq::empty(),
        status: language.shows("Ready. Connect iPhone via USB or paired WiFi and unlock it."@),
        has_task: false,
        logs: Seq::empty(),
    }
}

/// The window at its start.
pub open spec fn started(
    language: Language,
    saved: Seq<(Seq<char>, Seq<char>)>,
    apple_ready: bool,
    now: Seq<char>,
) -> AppView {
    noted(
        noted(
            noted(fresh(language, saved), now, "AirCard Windows v1.2.1 initialized"@),
            now,
            "Apple Support Runtime: "@ + if apple_ready {
                "Loaded and operational"@
            } else {
                "Not found (iTunes required)"@
            },
        ),
        now,
        "Loaded "@ + decimal(saved.len()) + " saved card(s) from database"@,
    )
}

/// What the dot in the status bar says.
#[derive(Debug, Clone, Copy, PartialEq, Eq, Structural)]
pub enum StatusKind {
    Working,
    Wrong,
    Fine,
}

impl AirCardApp {
    /// The window at its start.
    pub fn new(language: Language, saved_cards: Vec<SavedCard>, apple_ready: bool, now: &str) -> (app:
        AirCardApp)
        ensures
            app@ == started(language, card_views(saved_cards@), apple_ready, now@),
    {
        let count: usize = saved_cards.len();
        let mut app = AirCardApp {
            language,
            devices: Vec::new(),
            selected_udid: None,
            connection_mode: ConnectionMode::Auto,
            card_hash: String::new(),
            saved_cards,
            has_skin: false,
            scanning_syslog: false,
            can_stop_scan: false,
            theme: None,
            forced_telephony_ver: "Auto (TelephonyUI-10)".to_owned(),
            keypad_language: "English".to_owned(),
            passcode_bold: false,
            is_busy: false,
            progress_step: 0,
            progress_total: 0,
            progress_msg: String::new(),
            status_msg: language.text(
                "Ready. Connect iPhone via USB or paired WiFi and unlock it.",
            ).to_owned(),
            has_task: false,
            logs: Vec::new(),
        };
        assert(app@ =~= fresh(language, card_views(saved_cards@)));
        app.add_log(now, "AirCard Windows v1.2.1 initialized");
        let runtime: String = "Apple Support Runtime: ".to_owned().concat(
            if apple_ready {
                "Loaded and operational"
            } else {
                "Not found (iTunes required)"
            },
        );
        app.add_log(now, runtime.as_str());
        let loaded: String = "Loaded ".to_owned().concat(decimal_text(count as u64).as_str()).concat(
            " saved card(s) from database",
        );
        app.add_log(now, loaded.as_str());
        app
    }

    /// Adds a line to the log.
    pub fn add_log(&mut self, now: &str, text: &str)
        ensures
            final(self)@ == noted(old(self)@, now@, text@),
    {
        let ghost before = self@;
        let line: String = "[".to_owned().concat(now).concat("] ").concat(text);
        self.logs.push(line);
        assert(texts(self.logs@) =~= before.logs.push(line@));
        if self.logs.len() > LOG_LIMIT {
            let ghost more = self.logs@;
            let _first = self.logs.remove(0);
            assert(texts(self.logs@) =~= texts(more).skip(1));
        }
        assert(self@ =~= noted(before, now@, text@));
    }

    fn tell(&mut self, now: &str, text: &str, status: String)
        ensures
            final(self)@ == told(old(self)@, now@, text@, status@),
    {
        self.add_log(now, text);
        self.status_msg = status;
    }

    fn say(&self, source: &str) -> (shown: String)
        ensures
            shown@ == self.language.shows(source@),
    {
        self.language.text(source).to_owned()
    }

    fn lists(&self, udid: &str) -> (listed: bool)
        ensures
            listed == is_listed(self@.devices, udid@),
    {
        let ghost all = self@.devices;
        let mut i: usize = 0;
        while i < self.devices.len()
            invariant
                all == device_list(self.devices@),
                i <= self.devices@.len(),
                forall|k: int| 0 <= k < i ==> lowered((#[trigger] all[k]).udid) != lowered(udid@),
            decreases self.devices@.len() - i,
        {
            assert(all[i as int] == self.devices@[i as int]@);
            if self.devices[i].is_called(udid) {
                return true;
            }
            i = i + 1;
        }
        false
    }

    /// Takes the result of listing the devices.
    pub fn refresh_devices(&mut self, now: &str, found: Result<Vec<DeviceInfo>, String>)
        ensures
            final(self)@ == refreshed(
                old(self)@,
                now@,
                match found {
                    Ok(devices) => Ok(device_list(devices@)),
                    Err(error) => Err(error@),
                },
            ),
    {
        let ghost before = self@;
        self.add_log(now, "Scanning for connected iOS devices via usbmuxd...");
        match found {
            Err(error) => {
                let line: String = "Device scan error: ".to_owned().concat(error.as_str());
                let status: String = self.say("Could not enumerate devices:").concat(" ").concat(
                    error.as_str(),
                );
                self.tell(now, line.as_str(), status);
            },
            Ok(devices) => {
                let ghost list = device_list(devices@);
                self.devices = devices;
                let still: bool = match &self.selected_udid {
                    Some(udid) => self.lists(udid.as_str()),
                    None => false,
                };
                if self.devices.len() == 0 {
                    self.selected_udid = None;
                    let status: String = self.say("No iPhone connected via USB or paired WiFi.");
                    self.tell(
                        now,
                        "No devices detected. Connect by USB, or enable WiFi sync after initial USB pairing.",
                        status,
                    );
                } else {
                    if !still {
                        assert(list[0] == self.devices@[0]@);
                        self.selected_udid = Some(self.devices[0].udid.clone());
                    }
                    assert(self@.selected == reselected(before.selected, list));
                    let ghost begun = self@;
                    let count: usize = self.devices.len();
                    let mut i: usize = 0;
                    while i < count
                        invariant
                            count == self.devices@.len(),
                            i <= count,
                            list == device_list(self.devices@),
                            begun.devices == list,
                            self@ == (AppView {
                                logs: devices_logged(begun.logs, now@, list, i as nat),
                                ..begun
                            }),
                        decreases count - i,
                    {
                        assert(list[i as int] == self.devices@[i as int]@);
                        let line: String = "Device #".to_owned().concat(
                            decimal_text(i as u64 + 1).as_str(),
                        ).concat(": ").concat(self.devices[i].label.as_str()).concat(
                            " - UDID: ",
                        ).concat(self.devices[i].udid.as_str());
                        let ghost kept = self@.devices;
                        self.add_log(now, line.as_str());
                        proof {
                            assert(self@.devices == kept);
                            assert(self.devices@.len() == list.len());
                        }
                        i = i + 1;
                    }
                    self.status_msg =
                    self.say("Found").concat(" ").concat(
                        decimal_text(count as u64).as_str(),
                    ).concat(" ").concat(
                        self.say("connected device(s); transport mode:").as_str(),
                    ).concat(" ").concat(self.say(self.connection_mode.label()).as_str());
                }
            },
        }
        assert(self@ =~= refreshed(
            before,
            now@,
            match found {
                Ok(devices) => Ok(device_list(devices@)),
                Err(error) => Err(error@),
            },
        ));
    }

    /// Whether the selected device can be used in the selected mode.
    pub fn selected_transport_available(&self) -> (available: bool)
        ensures
            available == is_available(self@),
    {
        let ghost all = self@.devices;
        match &self.selected_udid {
            None => false,
            Some(udid) => {
                let mut i: usize = 0;
                while i < self.devices.len()
                    invariant
                        all == device_list(self.devices@),
                        self@.selected == Some(udid@),
                        i <= self.devices@.len(),
                        forall|k: int|
                            0 <= k < i ==> !(lowered((#[trigger] all[k]).udid) == lowered(udid@)
                                && is_usable_in(all[k], self.connection_mode)),
                    decreases self.devices@.len() - i,
                {
                    assert(all[i as int] == self.devices@[i as int]@);
                    if self.devices[i].is_called(udid.as_str()) {
                        let fits: bool = if self.connection_mode == ConnectionMode::Wifi {
                            self.devices[i].has_transport(DeviceTransport::Wifi)
                                && !self.devices[i].has_transport(DeviceTransport::Usb)
                        } else {
                            self.devices[i].supports(self.connection_mode)
                        };
                        if fits {
                            assert(self@.devices[i as int] == all[i as int]);
                            return true;
                        }
                    }
                    i = i + 1;
                }
                false
            },
        }
    }

    fn cabled(&self) -> (both: bool)
        ensures
            both == is_cabled(self@),
    {
        let ghost all = self@.devices;
        match &self.selected_udid {
            None => false,
            Some(udid) => {
                let mut i: usize = 0;
                while i < self.devices.len()
                    invariant
                        all == device_list(self.devices@),
                        self@.selected == Some(udid@),
                        i <= self.devices@.len(),
                        forall|k: int|
                            0 <= k < i ==> !(lowered((#[trigger] all[k]).udid) == lowered(udid@)
                                && all[k].wifi && all[k].usb),
                    decreases self.devices@.len() - i,
                {
                    assert(all[i as int] == self.devices@[i as int]@);
                    if self.devices[i].is_called(udid.as_str()) && self.devices[i].wifi
                        && self.devices[i].usb {
                        assert(self@.devices[i as int] == all[i as int]);
                        return true;
                    }
                    i = i + 1;
                }
                false
            },
        }
    }

    /// Checks that the selected device can be used, and says so where it cannot.
    pub fn validate_selected_transport(&mut self, now: &str, operation: &str) -> (valid: bool)
        ensures
            final(self)@ == validated(old(self)@, now@, operation@),
            valid == is_available(old(self)@),
    {
        if self.selected_udid.is_none() {
            let line: String = operation.to_owned().concat(
                " failed: No connected iPhone selected.",
            );
            let status: String = self.say("Please select a connected iPhone.");
            self.tell(now, line.as_str(), status);
            return false;
        }
        if !self.selected_transport_available() {
            let line: String = operation.to_owned().concat(
                " failed: Selected device is unavailable in ",
            ).concat(self.connection_mode.label()).concat(" mode.");
            let status: String = if self.connection_mode == ConnectionMode::Wifi && self.cabled() {
                self.say(
                    "Disconnect the USB cable and refresh to guarantee the full AirTraffic path uses WiFi.",
                )
            } else {
                self.say("Selected iPhone has no").concat(" ").concat(
                    self.say(self.connection_mode.label()).as_str(),
                ).concat(" ").concat(
                    self.say("connection. Refresh devices or change transport mode.").as_str(),
                )
            };
            self.tell(now, line.as_str(), status);
            return false;
        }
        true
    }

    fn selected(&self) -> (udid: String)
        requires
            self@.selected is Some,
        ensures
            udid@ == self@.selected.unwrap(),
    {
        match &self.selected_udid {
            Some(udid) => udid.clone(),
            None => String::new(),
        }
    }

    /// What the scan button does.
    pub fn toggle_syslog_scan(&mut self, now: &str) -> (task: Task)
        ensures
            (final(self)@, task@) == scan_toggled(old(self)@, now@),
    {
        let ghost before = self@;
        if self.scanning_syslog {
            let can_stop: bool = self.can_stop_scan;
            self.can_stop_scan = false;
            let status: String = self.say("Stopping wallet scan...");
            self.tell(now, "Stopping wallet scan...", status);
            assert(self@ =~= scan_toggled(before, now@).0);
            return if can_stop {
                Task::StopScan
            } else {
                Task::Idle
            };
        }
        if self.is_busy || self.has_task {
            return Task::Idle;
        }
        if !self.validate_selected_transport(now, "Syslog scan") {
            return Task::Idle;
        }
        let udid: String = self.selected();
        self.can_stop_scan = true;
        self.scanning_syslog = true;
        let status: String = self.say(
            "Scanning syslog... Open Wallet or tap your card on iPhone.",
        );
        self.tell(now, "Initiating syslog monitor session...", status);
        self.has_task = true;
        assert(self@ =~= scan_toggled(before, now@).0);
        Task::Scan { udid }
    }

    fn start_card(&mut self, now: &str, progress: &str, status: &str, verb: &str, hash: &str, udid: &str)
        requires
            hash@ == trimmed(old(self)@.card_hash),
            old(self)@.selected == Some(udid@),
        ensures
            final(self)@ == card_started(old(self)@, now@, progress@, status@, verb@),
    {
        let ghost before = self@;
        self.scanning_syslog = false;
        self.is_busy = true;
        self.progress_step = 0;
        self.progress_total = 3;
        self.progress_msg = progress.to_owned();
        let shown: String = self.say(status);
        let line: String = verb.to_owned().concat(hash).concat(" (UDID: ").concat(udid).concat(
            ", transport: ",
        ).concat(self.connection_mode.label()).concat(")");
        self.tell(now, line.as_str(), shown);
        self.has_task = true;
        assert(self@ =~= card_started(before, now@, progress@, status@, verb@));
    }

    /// What the button that writes a card does.
    pub fn flash_card(&mut self, now: &str) -> (task: Task)
        ensures
            (final(self)@, task@) == card_flashed(old(self)@, now@),
    {
        if self.is_busy || self.scanning_syslog || self.has_task {
            return Task::Idle;
        }
        if !self.validate_selected_transport(now, "Card flash") {
            return Task::Idle;
        }
        let udid: String = self.selected();
        let hash: String = trim_text(self.card_hash.as_str());
        if hash.as_str().unicode_len() == 0 {
            let status: String = self.say("Please enter or scan a target card hash.");
            self.tell(now, "Flash failed: Target card hash is empty.", status);
            return Task::Idle;
        }
        if !self.has_skin {
            let status: String = self.say("Please choose a card skin image first.");
            self.tell(now, "Flash failed: No skin image prepared.", status);
            return Task::Idle;
        }
        let stop_scan: bool = self.can_stop_scan;
        self.start_card(
            now,
            "Initiating card flash...",
            "Writing card skin to iPhone...",
            "Starting card skin flash for hash: ",
            hash.as_str(),
            udid.as_str(),
        );
        Task::FlashCard { udid, mode: self.connection_mode, hash, stop_scan }
    }

    /// What the button that restores a card does, given whether there is a backup.
    pub fn restore_original_card(&mut self, now: &str, backup: bool) -> (task: Task)
        ensures
            (final(self)@, task@) == card_restored(old(self)@, now@, backup),
    {
        if !self.validate_selected_transport(now, "Restore original card") {
            return Task::Idle;
        }
        let udid: String = self.selected();
        let hash: String = trim_text(self.card_hash.as_str());
        if hash.as_str().unicode_len() == 0 {
            let status: String = self.say("Please enter or scan a target card hash.");
            self.tell(now, "Restore failed: Target card hash is empty.", status);
            return Task::Idle;
        }
        if !backup {
            let status: String = self.say("Original card backup not found.");
            self.tell(now, "Restore failed: Original card face backup not found.", status);
            return Task::Idle;
        }
        let stop_scan: bool = self.can_stop_scan;
        self.start_card(
            now,
            "Restoring original card face...",
            "Restoring original card face...",
            "Starting original card face restore for hash: ",
            hash.as_str(),
            udid.as_str(),
        );
        Task::RestoreCard { udid, mode: self.connection_mode, hash, stop_scan }
    }

    /// What the button that writes a theme does.
    pub fn flash_theme(&mut self, now: &str) -> (task: Task)
        ensures
            (final(self)@, task@) == theme_flashed(old(self)@, now@),
    {
        let ghost before = self@;
        if self.is_busy || self.scanning_syslog || self.has_task {
            return Task::Idle;
        }
        if !self.validate_selected_transport(now, "Theme flash") {
            return Task::Idle;
        }
        let udid: String = self.selected();
        let (name, items): (String, usize) = match &self.theme {
            Some(theme) => (theme.name.clone(), theme.items),
            None => {
                let status: String = self.say("Please select a .passthm theme file first.");
                self.tell(now, "Theme flash failed: No .passthm theme loaded.", status);
                return Task::Idle;
            },
        };
        self.is_busy = true;
        self.progress_step = 0;
        self.progress_total = items;
        self.progress_msg = "Starting passcode theme flash...".to_owned();
        let status: String = self.say("Writing passcode theme buttons...");
        let line: String = "Flashing passcode theme '".to_owned().concat(name.as_str()).concat(
            "' (",
        ).concat(decimal_text(items as u64).as_str()).concat(" button assets) to device ").concat(
            udid.as_str(),
        ).concat(" over ").concat(self.connection_mode.label());
        self.tell(now, line.as_str(), status);
        self.has_task = true;
        assert(self@ =~= theme_flashed(before, now@).0);
        Task::FlashTheme { udid, mode: self.connection_mode }
    }

    /// Takes a report of a worker.
    pub fn handle_messages(&mut self, now: &str, report: Report)
        ensures
            final(self)@ == reported(old(self)@, now@, report),
    {
        let ghost before = self@;
        match report {
            Report::Progress { step, total, message } => {
                self.progress_step = step;
                self.progress_total = total;
                let shown: String = self.say(message.as_str());
                let line: String = "[".to_owned().concat(decimal_text(step as u64).as_str()).concat(
                    "/",
                ).concat(decimal_text(total as u64).as_str()).concat("] ").concat(shown.as_str());
                self.progress_msg = shown;
                let status: String = line.clone();
                self.tell(now, line.as_str(), status);
            },
            Report::Line(line) => {
                self.add_log(now, line.as_str());
            },
            Report::CardFound { hash, name, saved } => {
                let line: String = self.say("Card captured").concat(": ").concat(
                    name.as_str(),
                ).concat(" (").concat(hash.as_str()).concat(")");
                self.card_hash = hash;
                self.saved_cards = saved;
                let status: String = line.clone();
                self.tell(now, line.as_str(), status);
            },
            Report::Finished(message) => {
                self.is_busy = false;
                self.scanning_syslog = false;
                self.has_task = false;
                let line: String = "Operation completed: ".to_owned().concat(message.as_str());
                self.tell(now, line.as_str(), message);
            },
            Report::Failed(message) => {
                self.is_busy = false;
                self.scanning_syslog = false;
                self.has_task = false;
                let line: String = "Operation failed: ".to_owned().concat(message.as_str());
                let status: String = self.say("Error: ").concat(message.as_str());
                self.tell(now, line.as_str(), status);
            },
        }
        assert(self@ =~= reported(before, now@, report));
    }

    /// The cache version to load a theme for.
    pub fn target_version(&self) -> (version: &'static str)
        ensures
            version@ == cache_version(self@.telephony),
    {
        if same_text(self.forced_telephony_ver.as_str(), "TelephonyUI-9") {
            "TelephonyUI-9"
        } else if same_text(self.forced_telephony_ver.as_str(), "TelephonyUI-8") {
            "TelephonyUI-8"
        } else {
            "TelephonyUI-10"
        }
    }

    /// Takes a theme that was loaded, or the reason why it could not be.
    pub fn load_theme(&mut self, now: &str, loaded: Result<ThemeInfo, String>)
        ensures
            final(self)@ == theme_loaded(
                old(self)@,
                now@,
                match loaded {
                    Ok(theme) => Ok(theme@),
                    Err(error) => Err(error@),
                },
            ),
    {
        let ghost before = self@;
        match loaded {
            Err(error) => {
                let line: String = "Failed to parse theme: ".to_owned().concat(error.as_str());
                let status: String = self.say("Failed to parse theme:").concat(" ").concat(
                    error.as_str(),
                );
                self.tell(now, line.as_str(), status);
            },
            Ok(theme) => {
                let count: String = decimal_text(theme.items as u64);
                let line: String = "Passcode theme loaded: '".to_owned().concat(
                    theme.name.as_str(),
                ).concat("' (telephony: ").concat(theme.version.as_str()).concat(", lang: ").concat(
                    self.keypad_language.as_str(),
                ).concat(", bold: ").concat(
                    if self.passcode_bold {
                        "true"
                    } else {
                        "false"
                    },
                ).concat(", ").concat(count.as_str()).concat(" assets)");
                let bold: String = self.say(
                    if self.passcode_bold {
                        "ON"
                    } else {
                        "OFF"
                    },
                );
                let status: String = self.say("Loaded").concat(" '").concat(
                    theme.name.as_str(),
                ).concat("' - ").concat(count.as_str()).concat(" ").concat(
                    self.say("assets").as_str(),
                ).concat(", ").concat(self.say("target:").as_str()).concat(" ").concat(
                    theme.version.as_str(),
                ).concat(", ").concat(self.say("lang:").as_str()).concat(" ").concat(
                    self.keypad_language.as_str(),
                ).concat(", ").concat(self.say("bold:").as_str()).concat(" ").concat(bold.as_str());
                self.tell(now, line.as_str(), status);
                self.theme = Some(theme);
            },
        }
        assert(self@ =~= theme_loaded(
            before,
            now@,
            match loaded {
                Ok(theme) => Ok(theme@),
                Err(error) => Err(error@),
            },
        ));
    }

    /// Changes the transports that the user allows.
    pub fn set_mode(&mut self, now: &str, mode: ConnectionMode)
        ensures
            final(self)@ == if mode == old(self)@.mode {
                old(self)@
            } else {
                AppView {
                    mode,
                    ..told(
                        old(self)@,
                        now@,
                        "Transport mode changed to "@ + mode.name() + "."@,
                        old(self)@.language.shows("Transport mode"@) + ": "@ + old(
                            self,
                        )@.language.shows(mode.name()),
                    )
                }
            },
    {
        if mode != self.connection_mode {
            self.connection_mode = mode;
            let line: String = "Transport mode changed to ".to_owned().concat(mode.label()).concat(
                ".",
            );
            let status: String = self.say("Transport mode").concat(": ").concat(
                self.say(mode.label()).as_str(),
            );
            self.tell(now, line.as_str(), status);
        }
    }

    /// Changes the language.
    pub fn set_language(&mut self, language: Language) -> (changed: bool)
        ensures
            changed == (language != old(self)@.language),
            final(self)@ == if changed {
                AppView { language, status: language.shows("Language changed."@), ..old(self)@ }
            } else {
                old(self)@
            },
    {
        if language == self.language {
            return false;
        }
        self.language = language;
        self.status_msg = self.say("Language changed.");
        true
    }

    /// Selects a device.
    pub fn select_device(&mut self, now: &str, udid: String)
        ensures
            final(self)@ == if old(self)@.selected == Some(udid@) {
                old(self)@
            } else {
                AppView {
                    selected: Some(udid@),
                    ..noted(old(self)@, now@, "Selected device: "@ + udid@)
                }
            },
    {
        let same: bool = match &self.selected_udid {
            Some(current) => same_text(current.as_str(), udid.as_str()),
            None => false,
        };
        if !same {
            let line: String = "Selected device: ".to_owned().concat(udid.as_str());
            self.selected_udid = Some(udid);
            self.add_log(now, line.as_str());
        }
    }

    /// Whether the button that writes a card is active.
    pub fn can_flash(&self) -> (active: bool)
        ensures
            active == can_flash_card(self@),
    {
        !self.is_busy && self.selected_transport_available() && trim_text(
            self.card_hash.as_str(),
        ).as_str().unicode_len() > 0 && self.has_skin
    }

    /// Whether the button that restores a card is active, given whether there is a
    /// backup.
    pub fn can_restore(&self, backup: bool) -> (active: bool)
        ensures
            active == (!self@.busy && !self@.scanning && is_available(self@) && trimmed(
                self@.card_hash,
            ).len() > 0 && self@.selected is Some && backup),
    {
        !self.is_busy && !self.scanning_syslog && self.selected_transport_available() && trim_text(
            self.card_hash.as_str(),
        ).as_str().unicode_len() > 0 && self.selected_udid.is_some() && backup
    }

    /// Whether the button that writes a theme is active.
    pub fn can_flash_theme(&self) -> (active: bool)
        ensures
            active == (!self@.busy && is_available(self@) && self@.theme is Some),
    {
        !self.is_busy && self.selected_transport_available() && self.theme.is_some()
    }

    fn device_needs(&self) -> (needs: Vec<String>)
        ensures
            texts(needs@) == if self@.selected is None {
                seq![self@.language.shows("connect iPhone"@)]
            } else if !is_available(self@) {
                seq![self@.language.shows("choose available transport"@)]
            } else {
                Seq::empty()
            },
    {
        let mut needs: Vec<String> = Vec::new();
        if self.selected_udid.is_none() {
            needs.push(self.say("connect iPhone"));
            assert(texts(needs@) =~= seq![self@.language.shows("connect iPhone"@)]);
        } else if !self.selected_transport_available() {
            needs.push(self.say("choose available transport"));
            assert(texts(needs@) =~= seq![self@.language.shows("choose available transport"@)]);
        } else {
            assert(texts(needs@) =~= Seq::<Seq<char>>::empty());
        }
        needs
    }

    fn need_text(&self, needs: &Vec<String>) -> (text: Option<String>)
        ensures
            match text {
                Some(text) => needs@.len() > 0 && text@ == self@.language.shows("Need: "@) + joined_by(
                    texts(needs@),
                    ", "@,
                ),
                None => needs@.len() == 0,
            },
    {
        if needs.len() == 0 {
            None
        } else {
            Some(self.say("Need: ").concat(join_texts(needs, ", ").as_str()))
        }
    }

    /// What is missing before a card can be written, as a text.
    pub fn card_need_text(&self) -> (text: Option<String>)
        ensures
            match text {
                Some(text) => card_needs(self@).len() > 0 && text@ == self@.language.shows(
                    "Need: "@,
                ) + joined_by(card_needs(self@), ", "@),
                None => card_needs(self@).len() == 0,
            },
    {
        let mut needs: Vec<String> = self.device_needs();
        let ghost first = texts(needs@);
        if trim_text(self.card_hash.as_str()).as_str().unicode_len() == 0 {
            let need: String = self.say("enter card hash");
            needs.push(need);
            assert(texts(needs@) =~= first.push(need@));
        }
        let ghost second = texts(needs@);
        if !self.has_skin {
            let need: String = self.say("choose image");
            needs.push(need);
            assert(texts(needs@) =~= second.push(need@));
        }
        assert(texts(needs@) == card_needs(self@));
        self.need_text(&needs)
    }

    /// What is missing before a theme can be written, as a text.
    pub fn theme_need_text(&self) -> (text: Option<String>)
        ensures
            match text {
                Some(text) => theme_needs(self@).len() > 0 && text@ == self@.language.shows(
                    "Need: "@,
                ) + joined_by(theme_needs(self@), ", "@),
                None => theme_needs(self@).len() == 0,
            },
    {
        let mut needs: Vec<String> = self.device_needs();
        let ghost first = texts(needs@);
        if self.theme.is_none() {
            let need: String = self.say("select theme");
            needs.push(need);
            assert(texts(needs@) =~= first.push(need@));
        }
        assert(texts(needs@) == theme_needs(self@));
        self.need_text(&needs)
    }

    /// What the dot in the status bar says.
    pub fn status_kind(&self) -> (kind: StatusKind)
        ensures
            kind == if self@.busy || self@.scanning {
                StatusKind::Working
            } else if "Error"@.is_prefix_of(self@.status) || "Failed"@.is_prefix_of(self@.status) {
                StatusKind::Wrong
            } else {
                StatusKind::Fine
            },
    {
        if self.is_busy || self.scanning_syslog {
            StatusKind::Working
        } else if begins_with(self.status_msg.as_str(), "Error") || begins_with(
            self.status_msg.as_str(),
            "Failed",
        ) {
            StatusKind::Wrong
        } else {
            StatusKind::Fine
        }
    }

    /// The whole log, with the given line ends.
    pub fn log_text(&self, line_end: &str) -> (text: String)
        ensures
            text@ == joined_by(self@.logs, line_end@),
    {
        join_texts(&self.logs, line_end)
    }
}

/// The first eight bytes of an identifier, or all of them.
pub open spec fn first_bytes(hash: Seq<char>) -> Seq<u8> {
    if encode_utf8(hash).len() < 8 {
        encode_utf8(hash)
    } else {
        encode_utf8(hash).take(8)
    }
}

/// The first eight bytes of an identifier end where a character ends.
pub open spec fn has_beginning(hash: Seq<char>) -> bool {
    valid_utf8(first_bytes(hash))
}

/// A stored card in words: its name and the beginning of its identifier.
pub open spec fn card_words(name: Seq<char>, hash: Seq<char>, more: Seq<char>) -> Seq<char> {
    name + " ("@ + decode_utf8(first_bytes(hash)) + more + ")"@
}

fn card_text(card: &SavedCard, more: &str) -> (text: String)
    requires
        has_beginning(card.hash@),
    ensures
        text@ == card_words(card.name@, card.hash@, more@),
{
    let bytes: &[u8] = card.hash.as_str().as_bytes();
    let end: usize = if bytes.len() < 8 {
        bytes.len()
    } else {
        8
    };
    let first: Vec<u8> = copy_range(bytes, 0, end);
    assert(first@ =~= first_bytes(card.hash@));
    let start: String = match decoded(first.as_slice()) {
        Ok(start) => start,
        Err(_) => String::new(),
    };
    card.name.clone().concat(" (").concat(start.as_str()).concat(more).concat(")")
}

/// How a stored card stands in the list of stored cards.
pub fn card_label(card: &SavedCard) -> (label: String)
    requires
        has_beginning(card.hash@),
    ensures
        label@ == card_words(card.name@, card.hash@, "..."@),
{
    card_text(card, "...")
}

/// The first stored card from `k` on with this identifier.
pub open spec fn saved_at(
    saved: Seq<(Seq<char>, Seq<char>)>,
    hash: Seq<char>,
    k: int,
) -> Option<int>
    decreases saved.len() - k,
{
    if k < 0 || k >= saved.len() {
        None
    } else if saved[k].0 == hash {
        Some(k)
    } else {
        saved_at(saved, hash, k + 1)
    }
}

/// The first device from `k` on with exactly this identifier.
pub open spec fn device_at(devices: Seq<DeviceView>, udid: Seq<char>, k: int) -> Option<int>
    decreases devices.len() - k,
{
    if k < 0 || k >= devices.len() {
        None
    } else if devices[k].udid == udid {
        Some(k)
    } else {
        device_at(devices, udid, k + 1)
    }
}

/// A device as it stands in the list of devices.
pub open spec fn device_words(device: DeviceView) -> Seq<char> {
    device.name + " ["@ + device.summary + "]"@
}

/// How a device stands in the list of devices.
pub fn device_label(device: &DeviceInfo) -> (label: String)
    ensures
        label@ == device_words(device@),
{
    device.name.clone().concat(" [").concat(device.summary.as_str()).concat("]")
}

impl AirCardApp {
    /// What stands in the closed list of stored cards.
    pub fn selected_card_label(&self) -> (label: String)
        requires
            saved_at(self@.saved, self@.card_hash, 0) matches Some(i) ==> has_beginning(
                self@.saved[i].0,
            ),
        ensures
            label@ == match saved_at(self@.saved, self@.card_hash, 0) {
                Some(i) => card_words(self@.saved[i].1, self@.saved[i].0, ""@),
                None => self@.language.shows("Select..."@),
            },
    {
        let mut i: usize = 0;
        while i < self.saved_cards.len()
            invariant
                i <= self.saved_cards@.len(),
                saved_at(self@.saved, self@.card_hash, 0) matches Some(i) ==> has_beginning(
                    self@.saved[i].0,
                ),
                saved_at(self@.saved, self@.card_hash, 0) == saved_at(
                    self@.saved,
                    self@.card_hash,
                    i as int,
                ),
            decreases self.saved_cards@.len() - i,
        {
            let card: &SavedCard = &self.saved_cards[i];
            assert(self@.saved[i as int] == (card.hash@, card.name@));
            if same_text(card.hash.as_str(), self.card_hash.as_str()) {
                return card_text(card, "");
            }
            i = i + 1;
        }
        self.say("Select...")
    }

    /// What stands in the closed list of devices.
    pub fn selected_device_label(&self) -> (label: String)
        ensures
            label@ == match self@.selected {
                Some(udid) => match device_at(self@.devices, udid, 0) {
                    Some(i) => device_words(self@.devices[i]),
                    None => self@.language.shows("No device"@),
                },
                None => self@.language.shows("No device"@),
            },
    {
        match &self.selected_udid {
            None => {},
            Some(udid) => {
                let mut i: usize = 0;
                while i < self.devices.len()
                    invariant
                        i <= self.devices@.len(),
                        self@.selected == Some(udid@),
                        device_at(self@.devices, udid@, 0) == device_at(
                            self@.devices,
                            udid@,
                            i as int,
                        ),
                    decreases self.devices@.len() - i,
                {
                    assert(self@.devices[i as int] == self.devices@[i as int]@);
                    if same_text(self.devices[i].udid.as_str(), udid.as_str()) {
                        return device_label(&self.devices[i]);
                    }
                    i = i + 1;
                }
            },
        }
        self.say("No device")
    }

    /// Notes that a theme is being opened, and gives the cache version to load it for.
    pub fn open_theme(&mut self, now: &str, path: &str) -> (version: &'static str)
        ensures
            final(self)@ == noted(old(self)@, now@, "Opening passcode theme package: "@ + path@),
            version@ == cache_version(old(self)@.telephony),
    {
        let line: String = "Opening passcode theme package: ".to_owned().concat(path);
        self.add_log(now, line.as_str());
        self.target_version()
    }

    /// Takes news of the artwork.
    pub fn skin_news(&mut self, now: &str, news: &SkinNews)
        ensures
            final(self)@ == skin_told(old(self)@, now@, *news),
    {
        match news {
            SkinNews::Opening(path) => {
                let line: String = "Opening skin image: ".to_owned().concat(path.as_str());
                self.add_log(now, line.as_str());
            },
            SkinNews::Undecodable(error) => {
                let line: String = "Image decode failed: ".to_owned().concat(error.as_str());
                let status: String = "Could not decode image: ".to_owned().concat(error.as_str());
                self.tell(now, line.as_str(), status);
            },
            SkinNews::Unprepared(error) => {
                let line: String = "Image preparation failed: ".to_owned().concat(error.as_str());
                let status: String = "Could not prepare image: ".to_owned().concat(error.as_str());
                self.tell(now, line.as_str(), status);
            },
            SkinNews::Prepared { file, source, image, size } => {
                let line: String = "Skin processed: source ".to_owned().concat(
                    size_text(*source).as_str(),
                ).concat(" resampled to 1536x969 PNG (").concat(size.as_str()).concat(" KB)");
                let name: &str = match file {
                    Some(file) => file.as_str(),
                    None => "image",
                };
                let status: String = "Prepared ".to_owned().concat(name).concat(" (").concat(
                    size_text(*image).as_str(),
                ).concat(" -> 1536x969 PNG, ").concat(size.as_str()).concat(" KB)");
                self.tell(now, line.as_str(), status);
                self.has_skin = true;
            },
            SkinNews::Cropped { across, down, size } => {
                let line: String = "Crop updated: focus (".to_owned().concat(
                    across.as_str(),
                ).concat(", ").concat(down.as_str()).concat("), prepared PNG ").concat(
                    size.as_str(),
                ).concat(" KB");
                let status: String = self.say("Crop position updated.");
                self.tell(now, line.as_str(), status);
                self.has_skin = true;
            },
            SkinNews::Uncropped(error) => {
                let line: String = "Crop preparation failed: ".to_owned().concat(error.as_str());
                let status: String = "Could not update crop: ".to_owned().concat(error.as_str());
                self.tell(now, line.as_str(), status);
            },
            SkinNews::Exported(path) => {
                let line: String = "Exported prepared card skin PNG: ".to_owned().concat(
                    path.as_str(),
                );
                let status: String = "Saved prepared PNG: ".to_owned().concat(path.as_str());
                self.tell(now, line.as_str(), status);
            },
            SkinNews::Unexported(error) => {
                let line: String = "Failed to save PNG: ".to_owned().concat(error.as_str());
                let status: String = "Could not save PNG: ".to_owned().concat(error.as_str());
                self.tell(now, line.as_str(), status);
            },
        }
    }
}

/// What became of a piece of artwork. Sizes in kilobytes and the focus of a crop come
/// as texts.
pub enum SkinNews {
    /// The image at this path is being opened.
    Opening(String),
    /// It could not be read.
    Undecodable(String),
    /// It could not be made into artwork.
    Unprepared(String),
    /// It was made into artwork.
    Prepared {
        /// The name of its file, where it can be shown.
        file: Option<String>,
        /// The size that the artwork was made from.
        source: (u32, u32),
        /// The size of the image.
        image: (u32, u32),
        /// The size of the artwork.
        size: String,
    },
    /// The artwork was made anew with another focus.
    Cropped { across: String, down: String, size: String },
    /// That failed.
    Uncropped(String),
    /// The artwork was written to this path.
    Exported(String),
    /// That failed.
    Unexported(String),
}

/// A width and a height in words.
pub open spec fn size_words(size: (u32, u32)) -> Seq<char> {
    decimal(size.0 as nat) + "x"@ + decimal(size.1 as nat)
}

fn size_text(size: (u32, u32)) -> (text: String)
    ensures
        text@ == size_words(size),
{
    decimal_text(size.0 as u64).concat("x").concat(decimal_text(size.1 as u64).as_str())
}

/// The window after news of the artwork.
pub open spec fn skin_told(v: AppView, now: Seq<char>, news: SkinNews) -> AppView {
    match news {
        SkinNews::Opening(path) => noted(v, now, "Opening skin image: "@ + path@),
        SkinNews::Undecodable(error) => told(
            v,
            now,
            "Image decode failed: "@ + error@,
            "Could not decode image: "@ + error@,
        ),
        SkinNews::Unprepared(error) => told(
            v,
            now,
            "Image preparation failed: "@ + error@,
            "Could not prepare image: "@ + error@,
        ),
        SkinNews::Prepared { file, source, image, size } => AppView {
            has_skin: true,
            ..told(
                v,
                now,
                "Skin processed: source "@ + size_words(source) + " resampled to 1536x969 PNG ("@
                    + size@ + " KB)"@,
                "Prepared "@ + (match file {
                    Some(file) => file@,
                    None => "image"@,
                }) + " ("@ + size_words(image) + " -> 1536x969 PNG, "@ + size@ + " KB)"@,
            )
        },
        SkinNews::Cropped { across, down, size } => AppView {
            has_skin: true,
            ..told(
                v,
                now,
                "Crop updated: focus ("@ + across@ + ", "@ + down@ + "), prepared PNG "@ + size@
                    + " KB"@,
                v.language.shows("Crop position updated."@),
            )
        },
        SkinNews::Uncropped(error) => told(
            v,
            now,
            "Crop preparation failed: "@ + error@,
            "Could not update crop: "@ + error@,
        ),
        SkinNews::Exported(path) => told(
            v,
            now,
            "Exported prepared card skin PNG: "@ + path@,
            "Saved prepared PNG: "@ + path@,
        ),
        SkinNews::Unexported(error) => told(
            v,
            now,
            "Failed to save PNG: "@ + error@,
            "Could not save PNG: "@ + error@,
        ),
    }
}

/// What the window says when a piece of work is done, before translation.
pub open spec fn success_words(task: TaskView) -> Option<Seq<char>> {
    match task {
        TaskView::Scan { .. } => Some("Syslog scan finished"@),
        TaskView::FlashCard { .. } => Some(
            "Artwork submitted. Force quit Wallet and reopen it to verify the appearance."@,
        ),
        TaskView::RestoreCard { .. } => Some(
            "Original card face restored. Force close Wallet and reopen it."@,
        ),
        TaskView::FlashTheme { .. } => Some(
            "Passcode theme applied! Lock your iPhone to view the new keypad."@,
        ),
        _ => None,
    }
}

impl Task {
    /// What the window says when the piece of work is done, in the language.
    pub fn success_text(&self, language: Language) -> (text: Option<String>)
        ensures
            match success_words(self@) {
                Some(words) => text matches Some(text) && text@ == language.shows(words),
                None => text is None,
            },
    {
        let source: &str = match self {
            Task::Scan { .. } => "Syslog scan finished",
            Task::FlashCard { .. } => {
                "Artwork submitted. Force quit Wallet and reopen it to verify the appearance."
            },
            Task::RestoreCard { .. } => {
                "Original card face restored. Force close Wallet and reopen it."
            },
            Task::FlashTheme { .. } => {
                "Passcode theme applied! Lock your iPhone to view the new keypad."
            },
            _ => {
                return None;
            },
        };
        Some(language.text(source).to_owned())
    }
}

/// What the window holds apart from its log, its status line and the work at hand is
/// the same.
pub open spec fn keeps_settings(before: AppView, after: AppView) -> bool {
    &&& after.language == before.language
    &&& after.devices == before.devices
    &&& after.selected == before.selected
    &&& after.mode == before.mode
    &&& after.card_hash == before.card_hash
    &&& after.saved == before.saved
    &&& after.has_skin == before.has_skin
    &&& after.theme == before.theme
    &&& after.telephony == before.telephony
    &&& after.keypad == before.keypad
    &&& after.bold == before.bold
}

/// The work at hand is the same.
pub open spec fn keeps_work(before: AppView, after: AppView) -> bool {
    &&& after.scanning == before.scanning
    &&& after.can_stop_scan == before.can_stop_scan
    &&& after.busy == before.busy
    &&& after.has_task == before.has_task
    &&& after.step == before.step
    &&& after.total == before.total
    &&& after.progress == before.progress
}

/// A line is added to the log behind all the others, stamped with the time. The oldest
/// line goes only where there are a thousand, and no other line is touched.
pub proof fn a_line_joins_the_log(app: &mut AirCardApp, now: &str, text: &str)
    requires
        call_ensures(AirCardApp::add_log, (app, now, text), ()),
    ensures
        final(app)@.logs.len() > 0,
        final(app)@.logs.last() == "["@ + now@ + "] "@ + text@,
        old(app)@.logs.len() < 1000 ==> final(app)@.logs.drop_last() == old(app)@.logs,
        old(app)@.logs.len() == 1000 ==> final(app)@.logs.drop_last() == old(app)@.logs.skip(1),
        keeps_settings(old(app)@, final(app)@),
        keeps_work(old(app)@, final(app)@),
        final(app)@.status == old(app)@.status,
{
    let line = "["@ + now@ + "] "@ + text@;
    let more = old(app)@.logs.push(line);
    assert(more.drop_last() =~= old(app)@.logs);
    if more.len() > LOG_LIMIT {
        assert(more.skip(1).drop_last() =~= old(app)@.logs.skip(1));
    }
}

/// The selected device can be used exactly where a listed device has its identifier,
/// whatever the case of the letters, and is in reach as the mode asks: over the
/// network alone only while no cable is attached.
pub proof fn a_device_is_available_as_the_mode_asks(app: AirCardApp, available: bool)
    requires
        call_ensures(AirCardApp::selected_transport_available, (&app,), available),
    ensures
        available <==> (app.selected_udid matches Some(udid) && exists|i: int|
            0 <= i < app.devices@.len() && lowered((#[trigger] app.devices@[i]).udid@) == lowered(
                udid@,
            ) && match app.connection_mode {
                ConnectionMode::Usb => app.devices@[i].usb,
                ConnectionMode::Wifi => app.devices@[i].wifi && !app.devices@[i].usb,
                ConnectionMode::Auto => app.devices@[i].usb || app.devices@[i].wifi,
            }),
{
    let v = app@;
    let mode = v.mode;
    assert(mode.allows(DeviceTransport::Usb) == (mode != ConnectionMode::Wifi));
    assert(mode.allows(DeviceTransport::Wifi) == (mode != ConnectionMode::Usb));
    if let Some(udid) = v.selected {
        if available {
            let i = choose|i: int|
                0 <= i < v.devices.len() && lowered((#[trigger] v.devices[i]).udid) == lowered(udid)
                    && is_usable_in(v.devices[i], v.mode);
            assert(app.devices@[i]@ == v.devices[i]);
        }
        if exists|i: int|
            0 <= i < app.devices@.len() && lowered((#[trigger] app.devices@[i]).udid@) == lowered(
                udid,
            ) && match app.connection_mode {
                ConnectionMode::Usb => app.devices@[i].usb,
                ConnectionMode::Wifi => app.devices@[i].wifi && !app.devices@[i].usb,
                ConnectionMode::Auto => app.devices@[i].usb || app.devices@[i].wifi,
            } {
            let i = choose|i: int|
                0 <= i < app.devices@.len() && lowered((#[trigger] app.devices@[i]).udid@)
                    == lowered(udid) && match app.connection_mode {
                    ConnectionMode::Usb => app.devices@[i].usb,
                    ConnectionMode::Wifi => app.devices@[i].wifi && !app.devices@[i].usb,
                    ConnectionMode::Auto => app.devices@[i].usb || app.devices@[i].wifi,
                };
            assert(v.devices[i] == app.devices@[i]@);
        }
    }
}

/// A list of devices replaces the one before, whole. The selection stays where its
/// device is still listed; otherwise it goes to the first device, or to none where
/// none is listed. Where the devices could not be listed, nothing of this changes.
pub proof fn the_device_list_is_replaced(
    app: &mut AirCardApp,
    now: &str,
    found: Result<Vec<DeviceInfo>, String>,
)
    requires
        call_ensures(AirCardApp::refresh_devices, (app, now, found), ()),
    ensures
        keeps_work(old(app)@, final(app)@),
        final(app)@.mode == old(app)@.mode,
        final(app)@.card_hash == old(app)@.card_hash,
        final(app)@.saved == old(app)@.saved,
        final(app)@.theme == old(app)@.theme,
        final(app)@.has_skin == old(app)@.has_skin,
        found is Err ==> final(app)@.devices == old(app)@.devices && final(app)@.selected
            == old(app)@.selected,
        found matches Ok(devices) ==> ({
            let listed = exists|i: int|
                0 <= i < devices@.len() && (old(app)@.selected matches Some(udid) && lowered(
                    (#[trigger] devices@[i]).udid@,
                ) == lowered(udid));
            &&& final(app)@.devices == device_list(devices@)
            &&& devices@.len() == 0 ==> final(app)@.selected is None
            &&& devices@.len() > 0 && listed ==> final(app)@.selected == old(app)@.selected
            &&& devices@.len() > 0 && !listed ==> final(app)@.selected == Some(devices@[0].udid@)
        }),
{
    if let Ok(devices) = found {
        let views = device_list(devices@);
        if let Some(udid) = old(app)@.selected {
            if is_listed(views, udid) {
                let i = choose|i: int|
                    0 <= i < views.len() && lowered((#[trigger] views[i]).udid) == lowered(udid);
                assert(lowered(devices@[i].udid@) == lowered(udid));
            }
            if exists|i: int|
                0 <= i < devices@.len() && lowered((#[trigger] devices@[i]).udid@) == lowered(udid) {
                let i = choose|i: int|
                    0 <= i < devices@.len() && lowered((#[trigger] devices@[i]).udid@) == lowered(
                        udid,
                    );
                assert(lowered(views[i].udid) == lowered(udid));
            }
        }
    }
}

/// Every listed device is logged, in order and with its number, while there is room in
/// the log.
pub proof fn every_device_is_logged(
    logs: Seq<Seq<char>>,
    now: Seq<char>,
    devices: Seq<DeviceView>,
    n: nat,
)
    requires
        n <= devices.len(),
        logs.len() + n <= 1000,
    ensures
        devices_logged(logs, now, devices, n) == logs + Seq::new(
            n,
            |i: int|
                "["@ + now + "] "@ + ("Device #"@ + decimal((i + 1) as nat) + ": "@
                    + devices[i].label + " - UDID: "@ + devices[i].udid),
        ),
    decreases n,
{
    if n == 0 {
        assert(devices_logged(logs, now, devices, n) =~= logs);
    } else {
        every_device_is_logged(logs, now, devices, (n - 1) as nat);
        assert(devices_logged(logs, now, devices, n) =~= logs + Seq::new(
            n,
            |i: int|
                "["@ + now + "] "@ + ("Device #"@ + decimal((i + 1) as nat) + ": "@
                    + devices[i].label + " - UDID: "@ + devices[i].udid),
        ));
    }
}

/// The window is ready for a new piece of work.
pub open spec fn is_free(v: AppView) -> bool {
    !v.busy && !v.scanning && !v.has_task
}

/// The button that writes a card starts the writing exactly where the window is free,
/// the selected device can be used, a card is entered and artwork is prepared. The
/// writing is then for that device, that mode and that card. Otherwise nothing starts,
/// and nothing but the log and the status line changes.
pub proof fn the_card_button_writes(app: &mut AirCardApp, now: &str, task: Task)
    requires
        call_ensures(AirCardApp::flash_card, (app, now), task),
    ensures
        keeps_settings(old(app)@, final(app)@),
        task@ is FlashCard <==> is_free(old(app)@) && is_available(old(app)@) && trimmed(
            old(app)@.card_hash,
        ).len() > 0 && old(app)@.has_skin,
        task@ is FlashCard || task@ is Idle,
        task@ matches TaskView::FlashCard(udid, mode, hash, stop_scan) ==> old(app)@.selected == Some(
            udid,
        ) && mode == old(app)@.mode && hash == trimmed(old(app)@.card_hash) && stop_scan
            == old(app)@.can_stop_scan && final(app)@.busy && final(app)@.has_task && final(app)@.step == 0 && final(app)@.total == 3,
        task@ is Idle ==> keeps_work(old(app)@, final(app)@),
        !is_free(old(app)@) ==> final(app)@ == old(app)@,
        is_free(old(app)@) && task@ is Idle ==> final(app)@.logs != old(app)@.logs
            || old(app)@.logs.len() >= 1000,
{
    let v = old(app)@;
    if is_free(v) && task@ is Idle && v.logs.len() < 1000 {
        assert(final(app)@.logs.len() == v.logs.len() + 1);
    }
}

/// The button that restores a card starts the restoring exactly where the selected
/// device can be used, a card is entered and there is a backup of it. It is then for
/// that device, that mode and that card. Otherwise nothing but the log and the status
/// line changes.
pub proof fn the_restore_button_restores(
    app: &mut AirCardApp,
    now: &str,
    backup: bool,
    task: Task,
)
    requires
        call_ensures(AirCardApp::restore_original_card, (app, now, backup), task),
    ensures
        keeps_settings(old(app)@, final(app)@),
        task@ is RestoreCard <==> is_available(old(app)@) && trimmed(old(app)@.card_hash).len() > 0
            && backup,
        task@ is RestoreCard || task@ is Idle,
        task@ matches TaskView::RestoreCard(udid, mode, hash, stop_scan) ==> old(app)@.selected
            == Some(udid) && mode == old(app)@.mode && hash == trimmed(old(app)@.card_hash)
            && stop_scan == old(app)@.can_stop_scan && final(app)@.busy && final(app)@.has_task
            && !final(app)@.scanning && final(app)@.step == 0 && final(app)@.total == 3,
        task@ is Idle ==> keeps_work(old(app)@, final(app)@),
{
}

/// The button that writes a theme starts the writing exactly where the window is free,
/// the selected device can be used and a theme is loaded; the progress goes up to the
/// number of its files. Otherwise nothing but the log and the status line changes.
pub proof fn the_theme_button_writes(app: &mut AirCardApp, now: &str, task: Task)
    requires
        call_ensures(AirCardApp::flash_theme, (app, now), task),
    ensures
        keeps_settings(old(app)@, final(app)@),
        task@ is FlashTheme <==> is_free(old(app)@) && is_available(old(app)@)
            && old(app)@.theme is Some,
        task@ is FlashTheme || task@ is Idle,
        task@ matches TaskView::FlashTheme(udid, mode) ==> old(app)@.selected == Some(udid) && mode
            == old(app)@.mode && final(app)@.busy && final(app)@.has_task && final(app)@.step == 0
            && final(app)@.total == old(app)@.theme.unwrap().items,
        task@ is Idle ==> keeps_work(old(app)@, final(app)@),
        !is_free(old(app)@) ==> final(app)@ == old(app)@,
{
}

/// The scan button starts a scan of the selected device exactly where the window is
/// free and the device can be used. While a scan runs it stops that scan, and once
/// only.
pub proof fn the_scan_button_starts_and_stops(app: &mut AirCardApp, now: &str, task: Task)
    requires
        call_ensures(AirCardApp::toggle_syslog_scan, (app, now), task),
    ensures
        keeps_settings(old(app)@, final(app)@),
        task@ is Scan <==> is_free(old(app)@) && is_available(old(app)@),
        task@ matches TaskView::Scan(udid) ==> old(app)@.selected == Some(udid) && final(app)@.scanning && final(app)@.has_task && final(app)@.can_stop_scan && !final(app)@.busy,
        task@ is StopScan <==> old(app)@.scanning && old(app)@.can_stop_scan,
        old(app)@.scanning ==> !final(app)@.can_stop_scan && final(app)@.scanning,
        task@ is Scan || task@ is StopScan || task@ is Idle,
        !old(app)@.scanning && task@ is Idle ==> keeps_work(old(app)@, final(app)@),
{
}

/// The check before an operation passes exactly where the selected device can be used,
/// and then changes nothing; otherwise it says so, and changes nothing else.
pub proof fn the_check_only_speaks(
    app: &mut AirCardApp,
    now: &str,
    operation: &str,
    valid: bool,
)
    requires
        call_ensures(AirCardApp::validate_selected_transport, (app, now, operation), valid),
    ensures
        valid <==> is_available(old(app)@),
        valid ==> final(app)@ == old(app)@,
        keeps_settings(old(app)@, final(app)@),
        keeps_work(old(app)@, final(app)@),
        !valid && old(app)@.logs.len() < 1000 ==> final(app)@.logs.len() == old(app)@.logs.len() + 1,
{
}

/// A report of progress is shown as it is; a found card is entered, and the stored
/// cards are taken over; a line goes into the log alone; the end of the work frees the
/// window. No report changes the selection, the mode or the theme.
pub proof fn reports_are_shown(app: &mut AirCardApp, now: &str, report: Report)
    requires
        call_ensures(AirCardApp::handle_messages, (app, now, report), ()),
    ensures
        final(app)@.devices == old(app)@.devices,
        final(app)@.selected == old(app)@.selected,
        final(app)@.mode == old(app)@.mode,
        final(app)@.theme == old(app)@.theme,
        final(app)@.has_skin == old(app)@.has_skin,
        final(app)@.language == old(app)@.language,
        report matches Report::Progress { step, total, message } ==> final(app)@.step == step
            && final(app)@.total == total && final(app)@.progress == old(app)@.language.shows(
            message@,
        ) && final(app)@.busy == old(app)@.busy && final(app)@.has_task == old(app)@.has_task
            && final(app)@.scanning == old(app)@.scanning && final(app)@.card_hash
            == old(app)@.card_hash,
        report matches Report::Line(line) ==> keeps_settings(old(app)@, final(app)@) && keeps_work(
            old(app)@,
            final(app)@,
        ) && final(app)@.status == old(app)@.status && final(app)@.logs.last() == "["@ + now@ + "] "@
            + line@,
        report matches Report::CardFound { hash, name, saved } ==> final(app)@.card_hash == hash@
            && final(app)@.saved == card_views(saved@) && keeps_work(old(app)@, final(app)@),
        report is Finished || report is Failed ==> is_free(final(app)@) && keeps_settings(
            old(app)@,
            final(app)@,
        ),
        report matches Report::Finished(message) ==> final(app)@.status == message@,
        report matches Report::Failed(message) ==> final(app)@.status == old(app)@.language.shows(
            "Error: "@,
        ) + message@,
{
}

/// A theme that was loaded is kept as it is; one that could not be loaded leaves the
/// one before in place.
pub proof fn a_loaded_theme_is_kept(
    app: &mut AirCardApp,
    now: &str,
    loaded: Result<ThemeInfo, String>,
)
    requires
        call_ensures(AirCardApp::load_theme, (app, now, loaded), ()),
    ensures
        loaded matches Ok(theme) ==> final(app)@.theme == Some(theme@),
        loaded is Err ==> final(app)@.theme == old(app)@.theme,
        final(app)@.devices == old(app)@.devices,
        final(app)@.selected == old(app)@.selected,
        final(app)@.mode == old(app)@.mode,
        final(app)@.card_hash == old(app)@.card_hash,
        final(app)@.has_skin == old(app)@.has_skin,
        keeps_work(old(app)@, final(app)@),
{
}

/// A choice of the user takes effect and touches no other choice: the mode, the
/// language, the device.
pub proof fn choices_take_effect(
    a: &mut AirCardApp,
    b: &mut AirCardApp,
    c: &mut AirCardApp,
    now: &str,
    mode: ConnectionMode,
    language: Language,
    udid: String,
    changed: bool,
)
    requires
        call_ensures(AirCardApp::set_mode, (a, now, mode), ()),
        call_ensures(AirCardApp::set_language, (b, language), changed),
        call_ensures(AirCardApp::select_device, (c, now, udid), ()),
    ensures
        final(a)@.mode == mode,
        final(a)@.selected == old(a)@.selected,
        final(a)@.devices == old(a)@.devices,
        keeps_work(old(a)@, final(a)@),
        mode == old(a)@.mode ==> final(a)@ == old(a)@,
        final(b)@.language == language,
        changed <==> language != old(b)@.language,
        final(b)@.selected == old(b)@.selected,
        final(b)@.mode == old(b)@.mode,
        final(b)@.logs == old(b)@.logs,
        keeps_work(old(b)@, final(b)@),
        final(c)@.selected == Some(udid@),
        final(c)@.mode == old(c)@.mode,
        final(c)@.devices == old(c)@.devices,
        keeps_work(old(c)@, final(c)@),
        old(c)@.selected == Some(udid@) ==> final(c)@ == old(c)@,
{
}

/// The buttons that write are active exactly where nothing is missing and no work that
/// writes is going on; the one that restores also waits for a scan to end.
pub proof fn buttons_are_active_where_nothing_is_missing(
    app: AirCardApp,
    backup: bool,
    card: bool,
    restore: bool,
    theme: bool,
)
    requires
        call_ensures(AirCardApp::can_flash, (&app,), card),
        call_ensures(AirCardApp::can_restore, (&app, backup), restore),
        call_ensures(AirCardApp::can_flash_theme, (&app,), theme),
    ensures
        card <==> !app.is_busy && is_available(app@) && trimmed(app.card_hash@).len() > 0
            && app.has_skin,
        restore <==> !app.is_busy && !app.scanning_syslog && is_available(app@) && trimmed(
            app.card_hash@,
        ).len() > 0 && backup,
        theme <==> !app.is_busy && is_available(app@) && app.theme is Some,
{
}

/// What is missing is named, one thing after the other: a device, or a way to it; a
/// card; artwork or a theme. Nothing is named where nothing is missing.
pub proof fn what_is_missing_is_named(v: AppView)
    ensures
        card_needs(v).len() == (if v.selected is None || !is_available(v) {
            1int
        } else {
            0
        }) + (if trimmed(v.card_hash).len() == 0 {
            1int
        } else {
            0
        }) + (if v.has_skin {
            0int
        } else {
            1
        }),
        v.selected is None ==> card_needs(v)[0] == v.language.shows("connect iPhone"@)
            && theme_needs(v)[0] == v.language.shows("connect iPhone"@),
        v.selected is Some && !is_available(v) ==> card_needs(v)[0] == v.language.shows(
            "choose available transport"@,
        ) && theme_needs(v)[0] == v.language.shows("choose available transport"@),
        trimmed(v.card_hash).len() == 0 ==> card_needs(v).contains(
            v.language.shows("enter card hash"@),
        ),
        !v.has_skin ==> card_needs(v).last() == v.language.shows("choose image"@),
        theme_needs(v).len() == (if v.selected is None || !is_available(v) {
            1int
        } else {
            0
        }) + (if v.theme is None {
            1int
        } else {
            0
        }),
        v.theme is None ==> theme_needs(v).last() == v.language.shows("select theme"@),
{
    let needs = card_needs(v);
    let device: int = if v.selected is None || !is_available(v) {
        1
    } else {
        0
    };
    if trimmed(v.card_hash).len() == 0 {
        assert(needs[device] == v.language.shows("enter card hash"@));
    }
}

/// The texts of what is missing join those words, and there is none exactly where
/// nothing is missing.
pub proof fn needs_are_told(app: AirCardApp, card: Option<String>, theme: Option<String>)
    requires
        call_ensures(AirCardApp::card_need_text, (&app,), card),
        call_ensures(AirCardApp::theme_need_text, (&app,), theme),
    ensures
        card is None <==> is_available(app@) && trimmed(app.card_hash@).len() > 0 && app.has_skin,
        theme is None <==> is_available(app@) && app.theme is Some,
        card matches Some(text) ==> text@ == app.language.shows("Need: "@) + joined_by(
            card_needs(app@),
            ", "@,
        ),
        theme matches Some(text) ==> text@ == app.language.shows("Need: "@) + joined_by(
            theme_needs(app@),
            ", "@,
        ),
{
}

/// The dot shows work while there is any, something wrong where the status line begins
/// so, and otherwise that all is well.
pub proof fn the_dot_tells_the_state(app: AirCardApp, kind: StatusKind)
    requires
        call_ensures(AirCardApp::status_kind, (&app,), kind),
    ensures
        kind == StatusKind::Working <==> app.is_busy || app.scanning_syslog,
        kind == StatusKind::Wrong <==> !app.is_busy && !app.scanning_syslog && ("Error"@.is_prefix_of(
            app.status_msg@,
        ) || "Failed"@.is_prefix_of(app.status_msg@)),
{
}

/// A theme is loaded for the cache version that the user chose, where that is one of
/// the two older ones, and otherwise for the newest.
pub proof fn the_chosen_version_is_used(app: AirCardApp, version: &'static str)
    requires
        call_ensures(AirCardApp::target_version, (&app,), version),
    ensures
        app.forced_telephony_ver@ == "TelephonyUI-9"@ ==> version@ == "TelephonyUI-9"@,
        app.forced_telephony_ver@ == "TelephonyUI-8"@ ==> version@ == "TelephonyUI-8"@,
        app.forced_telephony_ver@ != "TelephonyUI-9"@ && app.forced_telephony_ver@
            != "TelephonyUI-8"@ ==> version@ == "TelephonyUI-10"@,
{
}

/// The stored card that is found for an identifier is the first one that has it, and
/// there is none only where no card has it.
pub proof fn the_first_stored_card_is_found(
    saved: Seq<(Seq<char>, Seq<char>)>,
    hash: Seq<char>,
    k: int,
)
    requires
        0 <= k,
    ensures
        saved_at(saved, hash, k) matches Some(i) ==> k <= i < saved.len() && saved[i].0 == hash
            && forall|j: int| k <= j < i ==> (#[trigger] saved[j]).0 != hash,
        saved_at(saved, hash, k) is None ==> forall|j: int|
            k <= j < saved.len() ==> (#[trigger] saved[j]).0 != hash,
    decreases saved.len() - k,
{
    if k < saved.len() && saved[k].0 != hash {
        the_first_stored_card_is_found(saved, hash, k + 1);
    }
}

/// The device that is found for an identifier is the first one that has exactly it,
/// and there is none only where no device has it.
pub proof fn the_first_device_is_found(devices: Seq<DeviceView>, udid: Seq<char>, k: int)
    requires
        0 <= k,
    ensures
        device_at(devices, udid, k) matches Some(i) ==> k <= i < devices.len() && devices[i].udid
            == udid && forall|j: int| k <= j < i ==> (#[trigger] devices[j]).udid != udid,
        device_at(devices, udid, k) is None ==> forall|j: int|
            k <= j < devices.len() ==> (#[trigger] devices[j]).udid != udid,
    decreases devices.len() - k,
{
    if k < devices.len() && devices[k].udid != udid {
        the_first_device_is_found(devices, udid, k + 1);
    }
}

/// The closed list of devices shows the selected device, where it is listed.
pub proof fn the_selected_device_is_shown(app: AirCardApp, label: String, i: int)
    requires
        call_ensures(AirCardApp::selected_device_label, (&app,), label),
        0 <= i < app.devices@.len(),
        app.selected_udid matches Some(udid) && udid@ == app.devices@[i].udid@,
        forall|j: int| 0 <= j < i ==> (#[trigger] app.devices@[j]).udid@ != app.devices@[i].udid@,
    ensures
        label@ == app.devices@[i].name@ + " ["@ + app.devices@[i].summary@ + "]"@,
{
    let views = app@.devices;
    let udid = app.devices@[i].udid@;
    assert(views[i].udid == udid);
    the_first_device_is_found(views, udid, 0);
    if let Some(k) = device_at(views, udid, 0) {
        if k < i {
            assert(app.devices@[k].udid@ == views[k].udid);
        }
        if i < k {
            assert(views[i].udid != udid);
        }
    }
}

/// A number is padded with zeros on its left up to the width, and with nothing where
/// it is wide enough; it still stands for the same number.
pub proof fn padding_keeps_the_number(n: u64, width: nat)
    ensures
        padded(n as nat, width).len() >= width,
        decimal(n as nat).len() >= width ==> padded(n as nat, width) == decimal(n as nat),
        decimal(n as nat).len() < width ==> padded(n as nat, width).len() == width,
        numeral(padded(n as nat, width)) == Numeral::Number(n),
{
    written_numbers_are_read_back(n);
    let digits = decimal(n as nat);
    if digits.len() < width {
        let more = (width - digits.len()) as nat;
        leading_zeros(digits, more);
        assert(digits[0] != '+') by {
            assert(is_digit(digits[0]));
        }
        assert(padded(n as nat, width)[0] == '0');
    }
}

proof fn leading_zeros(digits: Seq<char>, more: nat)
    ensures
        digits_value(zeros(more) + digits) == digits_value(digits),
    decreases digits.len(),
{
    let whole = zeros(more) + digits;
    if digits.len() == 0 {
        assert(whole =~= zeros(more));
        zeros_are_nothing(more);
    } else {
        assert(whole.drop_last() =~= zeros(more) + digits.drop_last());
        assert(whole.last() == digits.last());
        leading_zeros(digits.drop_last(), more);
    }
}

proof fn zeros_are_nothing(more: nat)
    ensures
        digits_value(zeros(more)) == Numeral::Number(0),
    decreases more,
{
    if more > 0 {
        assert(zeros(more).drop_last() =~= zeros((more - 1) as nat));
        zeros_are_nothing((more - 1) as nat);
    }
}

/// The time of day has two digits each for hours, minutes and seconds, and three for
/// milliseconds.
pub proof fn a_time_of_day_has_its_form(
    hour: u16,
    minute: u16,
    second: u16,
    millisecond: u16,
    text: String,
)
    requires
        hour < 100,
        minute < 100,
        second < 100,
        millisecond < 1000,
        call_ensures(timestamp, (hour, minute, second, millisecond), text),
    ensures
        text@.len() == 12,
        text@[2] == ':' && text@[5] == ':' && text@[8] == '.',
        numeral(text@.subrange(0, 2)) == Numeral::Number(hour as u64),
        numeral(text@.subrange(3, 5)) == Numeral::Number(minute as u64),
        numeral(text@.subrange(6, 8)) == Numeral::Number(second as u64),
        numeral(text@.subrange(9, 12)) == Numeral::Number(millisecond as u64),
{
    reveal_strlit(":");
    reveal_strlit(".");
    reveal_with_fuel(decimal, 4);
    padding_keeps_the_number(hour as u64, 2);
    padding_keeps_the_number(minute as u64, 2);
    padding_keeps_the_number(second as u64, 2);
    padding_keeps_the_number(millisecond as u64, 3);
    assert(text@.subrange(0, 2) =~= padded(hour as nat, 2));
    assert(text@.subrange(3, 5) =~= padded(minute as nat, 2));
    assert(text@.subrange(6, 8) =~= padded(second as nat, 2));
    assert(text@.subrange(9, 12) =~= padded(millisecond as nat, 3));
}

/// Artwork is prepared once it was made or made anew; no other news of it takes that
/// back or brings it about.
pub proof fn artwork_is_prepared_by_its_news(app: &mut AirCardApp, now: &str, news: SkinNews)
    requires
        call_ensures(AirCardApp::skin_news, (app, now, &news), ()),
    ensures
        news is Prepared || news is Cropped ==> final(app)@.has_skin,
        !(news is Prepared || news is Cropped) ==> final(app)@.has_skin == old(app)@.has_skin,
        final(app)@.selected == old(app)@.selected,
        final(app)@.devices == old(app)@.devices,
        final(app)@.theme == old(app)@.theme,
        final(app)@.card_hash == old(app)@.card_hash,
        keeps_work(old(app)@, final(app)@),
{
}

/// A window begins without a device, a card, artwork or work, with the stored cards
/// that it is given, and with three lines in its log.
pub proof fn a_window_begins_empty(
    language: Language,
    saved: Vec<SavedCard>,
    ready: bool,
    now: &str,
    app: AirCardApp,
)
    requires
        call_ensures(AirCardApp::new, (language, saved, ready, now), app),
    ensures
        app@.saved == card_views(saved@),
        app@.language == language,
        app@.devices.len() == 0,
        app@.selected is None,
        app@.mode == ConnectionMode::Auto,
        app@.card_hash.len() == 0,
        !app@.has_skin,
        app@.theme is None,
        is_free(app@),
        !app@.can_stop_scan,
        !app@.bold,
        app@.logs.len() == 3,
        app@.logs[2] == "["@ + now@ + "] "@ + ("Loaded "@ + decimal(saved@.len())
            + " saved card(s) from database"@),
{
}

/// Each piece of work has its own words for success, and what is no work has none.
pub proof fn work_has_words_for_success(task: Task, language: Language, text: Option<String>)
    requires
        call_ensures(Task::success_text, (&task, language), text),
    ensures
        text is None <==> task is Idle || task is StopScan,
        task is Scan ==> text.unwrap()@ == language.shows("Syslog scan finished"@),
        task is FlashCard ==> text.unwrap()@ == language.shows(
            "Artwork submitted. Force quit Wallet and reopen it to verify the appearance."@,
        ),
        task is RestoreCard ==> text.unwrap()@ == language.shows(
            "Original card face restored. Force close Wallet and reopen it."@,
        ),
        task is FlashTheme ==> text.unwrap()@ == language.shows(
            "Passcode theme applied! Lock your iPhone to view the new keypad."@,
        ),
{
}

/// The closed list of stored cards shows the first stored card with the entered
/// identifier: its name, and the beginning of the identifier in brackets.
pub proof fn the_entered_card_is_shown(app: AirCardApp, label: String, i: int)
    requires
        call_ensures(AirCardApp::selected_card_label, (&app,), label),
        0 <= i < app.saved_cards@.len(),
        app.saved_cards@[i].hash@ == app.card_hash@,
        forall|j: int| 0 <= j < i ==> (#[trigger] app.saved_cards@[j]).hash@ != app.card_hash@,
    ensures
        ({
            let bytes = encode_utf8(app.card_hash@);
            let n = if bytes.len() < 8 {
                bytes.len() as int
            } else {
                8
            };
            label@ == app.saved_cards@[i].name@ + " ("@ + decode_utf8(bytes.take(n)) + ")"@
        }),
{
    reveal_strlit("");
    let saved = app@.saved;
    let hash = app.card_hash@;
    assert(saved[i] == app.saved_cards@[i]@);
    the_first_stored_card_is_found(saved, hash, 0);
    if let Some(k) = saved_at(saved, hash, 0) {
        assert(saved[k] == app.saved_cards@[k]@);
        if k < i {
            assert(app.saved_cards@[k].hash@ == saved[k].0);
        }
        if i < k {
            assert(saved[i].0 != hash);
        }
        let bytes = encode_utf8(hash);
        assert(bytes.take(bytes.len() as int) =~= bytes);
        let words = saved[i].1 + " ("@ + decode_utf8(first_bytes(hash));
        assert(words + ""@ =~= words);
    } else {
        assert(saved[i].0 != hash);
    }
}

/// The log is given as its lines, in order, with the line end between them.
pub proof fn the_log_is_given_line_by_line(app: AirCardApp, line_end: &str, text: String)
    requires
        call_ensures(AirCardApp::log_text, (&app, line_end), text),
    ensures
        app.logs@.len() == 0 ==> text@.len() == 0,
        app.logs@.len() == 1 ==> text@ == app.logs@[0]@,
        app.logs@.len() > 1 ==> text@ == joined_by(app@.logs.drop_last(), line_end@) + line_end@
            + app.logs@[app.logs@.len() - 1]@,
{
}

/// The status line says why an operation cannot begin: no device is selected, a cable
/// is in the way of the network, or the device is not in reach as the mode asks.
pub proof fn the_status_says_what_is_in_the_way(
    app: &mut AirCardApp,
    now: &str,
    operation: &str,
    valid: bool,
)
    requires
        call_ensures(AirCardApp::validate_selected_transport, (app, now, operation), valid),
        !valid,
    ensures
        ({
            let v = old(app)@;
            let cabled = v.selected matches Some(udid) && exists|i: int|
                0 <= i < v.devices.len() && lowered((#[trigger] v.devices[i]).udid) == lowered(udid)
                    && v.devices[i].usb && v.devices[i].wifi;
            final(app)@.status == if v.selected is None {
                v.language.shows("Please select a connected iPhone."@)
            } else if v.mode == ConnectionMode::Wifi && cabled {
                v.language.shows(
                    "Disconnect the USB cable and refresh to guarantee the full AirTraffic path uses WiFi."@,
                )
            } else {
                v.language.shows("Selected iPhone has no"@) + " "@ + v.language.shows(v.mode.name())
                    + " "@ + v.language.shows(
                    "connection. Refresh devices or change transport mode."@,
                )
            }
        }),
        old(app)@.selected is None ==> final(app)@.logs.last() == "["@ + now@ + "] "@ + (operation@
            + " failed: No connected iPhone selected."@),
{
    let v = old(app)@;
    if let Some(udid) = v.selected {
        if is_cabled(v) {
            let i = choose|i: int|
                0 <= i < v.devices.len() && lowered((#[trigger] v.devices[i]).udid) == lowered(udid)
                    && v.devices[i].wifi && v.devices[i].usb;
            assert(v.devices[i].usb && v.devices[i].wifi);
        }
    }
}

/// Progress and found cards are told in the log and at the bottom alike.
pub proof fn progress_and_cards_are_told(app: &mut AirCardApp, now: &str, report: Report)
    requires
        call_ensures(AirCardApp::handle_messages, (app, now, report), ()),
        report is Progress || report is CardFound,
    ensures
        final(app)@.logs.last() == "["@ + now@ + "] "@ + final(app)@.status,
        report matches Report::Progress { step, total, message } ==> final(app)@.status == "["@
            + decimal(step as nat) + "/"@ + decimal(total as nat) + "] "@
            + old(app)@.language.shows(message@),
        report matches Report::CardFound { hash, name, saved } ==> final(app)@.status
            == old(app)@.language.shows("Card captured"@) + ": "@ + name@ + " ("@ + hash@ + ")"@,
{
}

} // verus!
