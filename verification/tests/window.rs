use aircard::app_state::{
    card_label, device_label, timestamp, AirCardApp, Report, SkinNews, StatusKind, Task, ThemeInfo,
    LOG_LIMIT,
};
use aircard::device::{ConnectionMode, DeviceInfo, DeviceTransport};
use aircard::i18n::Language;
use aircard::scanner::SavedCard;

const HASH: &str = "OM6NYhwXMZrAw0sRUjR62wmF4ZQ=";

fn phone(udid: &str, usb: bool, wifi: bool) -> DeviceInfo {
    DeviceInfo {
        udid: udid.into(),
        name: "Phone".into(),
        label: format!("Phone {udid}"),
        summary: "USB".into(),
        usb,
        wifi,
    }
}

fn window() -> AirCardApp {
    AirCardApp::new(Language::English, Vec::new(), true, "12:00:00.000")
}

fn ready() -> AirCardApp {
    let mut app = window();
    app.refresh_devices("t", Ok(vec![phone("A", true, true)]));
    app.card_hash = format!(" {HASH} ");
    app.has_skin = true;
    app
}

#[test]
fn times_have_fixed_widths() {
    assert_eq!(timestamp(1, 2, 3, 4), "01:02:03.004");
    assert_eq!(timestamp(23, 59, 59, 999), "23:59:59.999");
}

#[test]
fn a_window_starts_ready() {
    let app = AirCardApp::new(
        Language::English,
        vec![SavedCard { hash: HASH.into(), name: "One".into() }],
        false,
        "12:00:00.000",
    );
    assert_eq!(
        app.logs,
        vec![
            "[12:00:00.000] AirCard Windows v1.2.1 initialized",
            "[12:00:00.000] Apple Support Runtime: Not found (iTunes required)",
            "[12:00:00.000] Loaded 1 saved card(s) from database",
        ]
    );
    assert_eq!(app.status_msg, "Ready. Connect iPhone via USB or paired WiFi and unlock it.");
    assert_eq!(app.forced_telephony_ver, "Auto (TelephonyUI-10)");
    assert_eq!(app.status_kind(), StatusKind::Fine);
}

#[test]
fn the_log_is_bounded() {
    let mut app = window();
    for i in 0..LOG_LIMIT + 10 {
        app.add_log("t", &i.to_string());
    }
    assert_eq!(app.logs.len(), LOG_LIMIT);
    assert_eq!(app.logs[LOG_LIMIT - 1], format!("[t] {}", LOG_LIMIT + 9));
    app.logs.truncate(2);
    assert_eq!(app.log_text("\n"), format!("{}\n{}", app.logs[0], app.logs[1]));
}

#[test]
fn a_refresh_keeps_the_selection_where_it_can() {
    let mut app = window();
    app.refresh_devices("t", Ok(vec![phone("A", true, false), phone("B", true, false)]));
    assert_eq!(app.selected_udid.as_deref(), Some("A"));
    assert_eq!(
        app.status_msg,
        "Found 2 connected device(s); transport mode: Auto (USB preferred)"
    );
    assert!(app.logs.contains(&"[t] Device #2: Phone B - UDID: B".to_owned()));
    app.select_device("t", "B".into());
    app.refresh_devices("t", Ok(vec![phone("A", true, false), phone("b", true, false)]));
    assert_eq!(app.selected_udid.as_deref(), Some("B"));
    app.refresh_devices("t", Err("no service".into()));
    assert_eq!(app.status_msg, "Could not enumerate devices: no service");
    assert_eq!(app.selected_udid.as_deref(), Some("B"));
    app.refresh_devices("t", Ok(vec![]));
    assert_eq!(app.selected_udid, None);
    assert_eq!(app.status_msg, "No iPhone connected via USB or paired WiFi.");
}

#[test]
fn the_network_alone_needs_the_cable_off() {
    let mut app = ready();
    assert!(app.selected_transport_available());
    app.set_mode("t", ConnectionMode::Wifi);
    assert_eq!(app.status_msg, "Transport mode: WiFi only");
    assert!(!app.selected_transport_available());
    assert!(!app.validate_selected_transport("t", "Card flash"));
    assert!(app.status_msg.starts_with("Disconnect the USB cable"));
    app.refresh_devices("t", Ok(vec![phone("A", false, true)]));
    assert!(app.validate_selected_transport("t", "Card flash"));
    app.set_mode("t", ConnectionMode::Usb);
    assert!(!app.validate_selected_transport("t", "Card flash"));
    assert_eq!(
        app.status_msg,
        "Selected iPhone has no USB only connection. Refresh devices or change transport mode."
    );
    app.selected_udid = None;
    assert!(!app.validate_selected_transport("t", "Card flash"));
    assert_eq!(app.status_msg, "Please select a connected iPhone.");
    assert!(app.logs.contains(&"[t] Card flash failed: No connected iPhone selected.".to_owned()));
}

#[test]
fn one_worker_runs_at_a_time() {
    let mut app = ready();
    match app.toggle_syslog_scan("t") {
        Task::Scan { udid } => assert_eq!(udid, "A"),
        _ => panic!("no scan"),
    }
    assert!(app.scanning_syslog);
    assert!(matches!(app.flash_card("t"), Task::Idle));
    assert!(matches!(app.flash_theme("t"), Task::Idle));
    assert!(matches!(app.toggle_syslog_scan("t"), Task::StopScan));
    assert!(matches!(app.toggle_syslog_scan("t"), Task::Idle));
    app.handle_messages("t", Report::Finished("Syslog scan finished".into()));
    assert!(!app.scanning_syslog);
    assert_eq!(app.status_msg, "Syslog scan finished");
    assert!(matches!(app.flash_card("t"), Task::FlashCard { .. }));
}

#[test]
fn a_card_is_written_with_its_trimmed_hash() {
    let mut app = ready();
    assert!(app.can_flash());
    assert_eq!(app.card_need_text(), None);
    match app.flash_card("t") {
        Task::FlashCard { udid, mode, hash, stop_scan } => {
            assert_eq!((udid.as_str(), hash.as_str(), stop_scan), ("A", HASH, false));
            assert_eq!(mode, ConnectionMode::Auto);
        },
        _ => panic!("nothing to do"),
    }
    assert!(app.is_busy);
    assert_eq!(app.progress_total, 3);
    assert_eq!(app.status_kind(), StatusKind::Working);
    assert!(app.logs.contains(&format!(
        "[t] Starting card skin flash for hash: {HASH} (UDID: A, transport: Auto (USB preferred))"
    )));
    app.handle_messages("t", Report::Progress { step: 1, total: 3, message: "Copying".into() });
    assert_eq!(app.status_msg, "[1/3] Copying");
    app.handle_messages("t", Report::Failed("lost".into()));
    assert_eq!(app.status_msg, "Error: lost");
    assert_eq!(app.status_kind(), StatusKind::Wrong);
    assert!(!app.is_busy);
}

#[test]
fn what_is_missing_is_named() {
    let mut app = window();
    assert_eq!(
        app.card_need_text().as_deref(),
        Some("Need: connect iPhone, enter card hash, choose image")
    );
    assert_eq!(app.theme_need_text().as_deref(), Some("Need: connect iPhone, select theme"));
    app.refresh_devices("t", Ok(vec![phone("A", true, false)]));
    assert!(matches!(app.flash_card("t"), Task::Idle));
    assert_eq!(app.status_msg, "Please enter or scan a target card hash.");
    app.card_hash = HASH.into();
    assert!(matches!(app.flash_card("t"), Task::Idle));
    assert_eq!(app.status_msg, "Please choose a card skin image first.");
    assert!(matches!(app.flash_theme("t"), Task::Idle));
    assert_eq!(app.status_msg, "Please select a .passthm theme file first.");
    assert!(matches!(app.restore_original_card("t", false), Task::Idle));
    assert_eq!(app.status_msg, "Original card backup not found.");
    assert!(!app.can_restore(false));
    assert!(app.can_restore(true));
    assert!(matches!(app.restore_original_card("t", true), Task::RestoreCard { .. }));
    assert_eq!(app.status_msg, "Restoring original card face...");
}

#[test]
fn themes_are_loaded_for_a_cache_version() {
    let mut app = ready();
    assert_eq!(app.open_theme("t", "x.passthm"), "TelephonyUI-10");
    app.forced_telephony_ver = "TelephonyUI-9".into();
    assert_eq!(app.target_version(), "TelephonyUI-9");
    app.forced_telephony_ver = "TelephonyUI-8".into();
    assert_eq!(app.open_theme("t", "x.passthm"), "TelephonyUI-8");
    assert!(app.logs.contains(&"[t] Opening passcode theme package: x.passthm".to_owned()));
    app.load_theme("t", Err("broken".into()));
    assert_eq!(app.status_msg, "Failed to parse theme: broken");
    assert!(!app.can_flash_theme());
    let theme = ThemeInfo { name: "Dark".into(), version: "TelephonyUI-8".into(), items: 12 };
    app.load_theme("t", Ok(theme));
    assert_eq!(
        app.status_msg,
        "Loaded 'Dark' - 12 assets, target: TelephonyUI-8, lang: English, bold: OFF"
    );
    assert!(app.can_flash_theme());
    assert!(matches!(app.flash_theme("t"), Task::FlashTheme { .. }));
    assert_eq!(app.progress_total, 12);
    assert!(app.logs.contains(
        &"[t] Flashing passcode theme 'Dark' (12 button assets) to device A over Auto (USB preferred)"
            .to_owned()
    ));
}

#[test]
fn found_cards_are_shown() {
    let mut app = ready();
    let saved = vec![SavedCard { hash: HASH.into(), name: "Transit".into() }];
    app.handle_messages(
        "t",
        Report::CardFound { hash: HASH.into(), name: "Transit".into(), saved },
    );
    assert_eq!(app.card_hash, HASH);
    assert_eq!(app.status_msg, format!("Card captured: Transit ({HASH})"));
    assert_eq!(app.selected_card_label(), "Transit (OM6NYhwX)");
    assert_eq!(card_label(&app.saved_cards[0]), "Transit (OM6NYhwX...)");
    let wide = SavedCard { hash: "ééééabc".into(), name: "Wide".into() };
    assert_eq!(card_label(&wide), "Wide (éééé...)");
    let short = SavedCard { hash: "é".into(), name: "Short".into() };
    assert_eq!(card_label(&short), "Short (é...)");
    app.card_hash.clear();
    assert_eq!(app.selected_card_label(), "Select...");
    app.handle_messages("t", Report::Line("note".into()));
    assert_eq!(app.logs.last().unwrap(), "[t] note");
}

#[test]
fn the_selected_device_is_shown() {
    let mut app = ready();
    assert_eq!(app.selected_device_label(), "Phone [USB]");
    assert_eq!(device_label(&app.devices[0]), "Phone [USB]");
    app.select_device("t", "a".into());
    assert_eq!(app.selected_device_label(), "No device");
    assert!(app.logs.contains(&"[t] Selected device: a".to_owned()));
    assert!(app.devices[0].has_transport(DeviceTransport::Wifi));
}

#[test]
fn the_language_can_be_changed() {
    let mut app = window();
    assert!(!app.set_language(Language::English));
    assert!(app.set_language(Language::SimplifiedChinese));
    assert_eq!(app.status_msg, Language::SimplifiedChinese.text("Language changed."));
    let task = Task::Scan { udid: "A".into() };
    assert_eq!(
        task.success_text(Language::English).as_deref(),
        Some("Syslog scan finished")
    );
    assert_eq!(Task::Idle.success_text(Language::English), None);
}

#[test]
fn artwork_is_reported() {
    let mut app = window();
    app.skin_news("t", &SkinNews::Opening("a.png".into()));
    assert_eq!(app.logs.last().unwrap(), "[t] Opening skin image: a.png");
    app.skin_news("t", &SkinNews::Undecodable("bad".into()));
    assert_eq!(app.status_msg, "Could not decode image: bad");
    assert!(!app.has_skin);
    app.skin_news(
        "t",
        &SkinNews::Prepared {
            file: None,
            source: (10, 20),
            image: (30, 40),
            size: "1.5".into(),
        },
    );
    assert!(app.has_skin);
    assert_eq!(app.status_msg, "Prepared image (30x40 -> 1536x969 PNG, 1.5 KB)");
    assert_eq!(
        app.logs.last().unwrap(),
        "[t] Skin processed: source 10x20 resampled to 1536x969 PNG (1.5 KB)"
    );
    app.skin_news(
        "t",
        &SkinNews::Cropped { across: "0.50".into(), down: "0.25".into(), size: "2.0".into() },
    );
    assert_eq!(
        app.logs.last().unwrap(),
        "[t] Crop updated: focus (0.50, 0.25), prepared PNG 2.0 KB"
    );
    app.skin_news("t", &SkinNews::Uncropped("bad".into()));
    assert_eq!(app.status_msg, "Could not update crop: bad");
    app.skin_news("t", &SkinNews::Unprepared("bad".into()));
    assert_eq!(app.status_msg, "Could not prepare image: bad");
    app.skin_news("t", &SkinNews::Exported("o.png".into()));
    assert_eq!(app.status_msg, "Saved prepared PNG: o.png");
    app.skin_news("t", &SkinNews::Unexported("full".into()));
    assert_eq!(app.status_msg, "Could not save PNG: full");
}
