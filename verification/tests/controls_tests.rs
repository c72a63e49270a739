use netspeed::app::{App, AppState};
use netspeed::cli::{
    json_escape, not_started_message, progress_start_line, result_line, CliProgress, OutputFormat,
};
use netspeed::controls::{handle_key, handle_speedtest, Key, KeyAction};
use netspeed::network::InterfaceStatus;
use netspeed::speedtest::{
    status_error_message, transfer_size, SpeedTestProgress, SpeedTestResult,
    DOWNLOAD_TRANSFER_SIZES, UPLOAD_TRANSFER_SIZES,
};
use netspeed::view::{panel_view, popup_area, popup_item_label, state_label, PanelView, PopupArea};

fn app() -> App<f64> {
    let mut a: App<f64> = App::new(
        "eth0".to_string(),
        vec!["eth0".to_string(), "wlan0".to_string(), "tun0".to_string()],
    );
    a.interface_status = InterfaceStatus::Up;
    a
}

#[test]
fn quit_keys() {
    let mut a = app();
    assert!(matches!(handle_key(&mut a, Key::Char('q'), false), KeyAction::Quit));
    assert!(matches!(handle_key(&mut a, Key::Char('Q'), false), KeyAction::Quit));
    assert!(matches!(handle_key(&mut a, Key::Char('c'), true), KeyAction::Quit));
    assert!(matches!(handle_key(&mut a, Key::Char('c'), false), KeyAction::Continue));
    a.interface_selector_open = true;
    assert!(matches!(handle_key(&mut a, Key::Char('q'), false), KeyAction::Continue));
    assert!(matches!(handle_key(&mut a, Key::Char('c'), true), KeyAction::Quit));
}

#[test]
fn speed_test_key_starts_a_test_on_a_usable_interface() {
    let mut a = app();
    match handle_key(&mut a, Key::Char('s'), false) {
        KeyAction::StartSpeedTest(i) => assert_eq!(i, "eth0"),
        other => panic!("{:?}", other),
    }
    assert_eq!(a.state, AppState::SpeedTesting);
    assert_eq!(a.speed_test_progress.as_deref(), Some("Connecting…"));
    // a second press while testing does nothing
    assert!(matches!(handle_key(&mut a, Key::Char('S'), false), KeyAction::Continue));
    assert_eq!(a.state, AppState::SpeedTesting);
}

#[test]
fn speed_test_key_explains_a_refusal() {
    let mut a = app();
    a.interface_status = InterfaceStatus::NoCarrier;
    assert!(matches!(handle_key(&mut a, Key::Char('s'), false), KeyAction::Continue));
    assert_eq!(a.state, AppState::Monitoring);
    assert_eq!(
        a.speed_test_progress.as_deref(),
        Some("Error: interface 'eth0' has no carrier; speed test not started")
    );
}

#[test]
fn selector_navigation_wraps_and_up_undoes_down() {
    let mut a = app();
    handle_key(&mut a, Key::Down, false); // closed: no move
    assert_eq!(a.selected_interface_idx, 0);
    handle_key(&mut a, Key::Char('i'), false);
    assert!(a.interface_selector_open);
    handle_key(&mut a, Key::Up, false);
    assert_eq!(a.selected_interface_idx, 2);
    handle_key(&mut a, Key::Down, false);
    assert_eq!(a.selected_interface_idx, 0);
    handle_key(&mut a, Key::Down, false);
    handle_key(&mut a, Key::Down, false);
    handle_key(&mut a, Key::Down, false);
    assert_eq!(a.selected_interface_idx, 0);
    handle_key(&mut a, Key::Esc, false);
    assert!(!a.interface_selector_open);
}

#[test]
fn enter_switches_interface_and_forgets_measurements() {
    let mut a = app();
    a.push_speeds(10.0, 2.0);
    a.add_traffic(1000, 200);
    handle_key(&mut a, Key::Char('I'), false);
    handle_key(&mut a, Key::Enter, false); // same interface: nothing forgotten
    assert_eq!(a.total_rx, 1000);
    assert!(!a.interface_selector_open);
    handle_key(&mut a, Key::Char('i'), false);
    handle_key(&mut a, Key::Down, false);
    match handle_key(&mut a, Key::Enter, false) {
        KeyAction::SwitchInterface(i) => assert_eq!(i, "wlan0"),
        other => panic!("{:?}", other),
    }
    assert_eq!(a.interface, "wlan0");
    assert_eq!((a.total_rx, a.total_tx, a.peak_download), (0, 0, 0.0));
    assert!(a.download_history.is_empty());
    assert!(!a.interface_selector_open);
}

#[test]
fn speed_test_reports_move_the_monitor() {
    let mut a = app();
    a.state = AppState::SpeedTesting;
    handle_speedtest(&mut a, SpeedTestProgress::Downloading(0.0), None);
    assert_eq!(a.speed_test_progress.as_deref(), Some("↓ Downloading…"));
    handle_speedtest(&mut a, SpeedTestProgress::Uploading(5.0), Some("5.00 Mbps".to_string()));
    assert_eq!(a.speed_test_progress.as_deref(), Some("↑ Uploading: 5.00 Mbps"));
    handle_speedtest(
        &mut a,
        SpeedTestProgress::Done(SpeedTestResult { download_mbps: 9.0, upload_mbps: 3.0 }),
        None,
    );
    assert_eq!(a.state, AppState::SpeedTestDone);
    assert!(a.speed_test_progress.is_none());
    assert_eq!(a.speed_test_result.as_ref().unwrap().download_mbps, 9.0);
    handle_speedtest(&mut a, SpeedTestProgress::Error("timeout".to_string()), None);
    assert_eq!(a.state, AppState::Monitoring);
    assert_eq!(a.speed_test_progress.as_deref(), Some("Error: timeout"));
}

#[test]
fn json_escaping() {
    assert_eq!(json_escape("eth0"), "eth0");
    assert_eq!(json_escape("a\"b\\c\nd\re\tf"), "a\\\"b\\\\c\\nd\\re\\tf");
}

#[test]
fn cli_lines() {
    assert_eq!(progress_start_line("eth0", CliProgress::Quiet), None);
    assert_eq!(
        progress_start_line("eth0", CliProgress::Basic).as_deref(),
        Some("Testing network speed on eth0...")
    );
    assert_eq!(
        progress_start_line("eth0", CliProgress::Detailed).as_deref(),
        Some("testing_interface=eth0")
    );
    assert_eq!(
        not_started_message("wlan0", &InterfaceStatus::Down),
        "interface 'wlan0' is down; speed test not started"
    );
}

#[test]
fn status_messages_and_sizes() {
    assert_eq!(
        status_error_message("download", 429, Some("60")),
        "download test hit Cloudflare's rate limit (HTTP 429); retry after 60 s"
    );
    assert_eq!(
        status_error_message("upload", 429, None),
        "upload test hit Cloudflare's rate limit (HTTP 429); try again later"
    );
    assert_eq!(status_error_message("upload", 503, None), "upload test failed: HTTP 503");
    assert_eq!(transfer_size(&DOWNLOAD_TRANSFER_SIZES, 0), 1_000_000);
    assert_eq!(transfer_size(&DOWNLOAD_TRANSFER_SIZES, 1), 2_000_000);
    assert_eq!(transfer_size(&DOWNLOAD_TRANSFER_SIZES, 99), 5_000_000);
    assert_eq!(transfer_size(&UPLOAD_TRANSFER_SIZES, 3), 10_000_000);
}

#[test]
fn screen_decisions() {
    assert_eq!(state_label(AppState::Monitoring), "● Monitoring");
    assert_eq!(state_label(AppState::SpeedTestDone), "✓ Test Done");
    assert_eq!(popup_area(80, 24, 3), PopupArea { x: 19, y: 9, width: 42, height: 5 });
    assert_eq!(popup_area(10, 5, 3), PopupArea { x: 2, y: 2, width: 6, height: 1 });
    assert_eq!(popup_area(2, 2, 0), PopupArea { x: 1, y: 1, width: 0, height: 0 });
    assert_eq!(popup_item_label("eth0", true), "▶ eth0");
    assert_eq!(popup_item_label("eth0", false), "  eth0");

    let mut a = app();
    assert!(matches!(panel_view(&a), PanelView::Prompt));
    a.state = AppState::SpeedTesting;
    assert!(matches!(panel_view(&a), PanelView::Running(ref t) if t == "Running…"));
    a.state = AppState::Monitoring;
    a.speed_test_progress = Some("Error: timeout".to_string());
    assert!(matches!(panel_view(&a), PanelView::Failure(ref t) if t == "Error: timeout"));
    a.speed_test_progress = Some("↓ Downloading…".to_string());
    a.speed_test_result = Some(SpeedTestResult { download_mbps: 1.0, upload_mbps: 1.0 });
    assert!(matches!(panel_view(&a), PanelView::Outcome));
}

#[test]
fn result_lines() {
    assert_eq!(
        result_line("eth0", OutputFormat::Text, "713.88", "14.06"),
        "interface=eth0 download_mbps=713.88 upload_mbps=14.06"
    );
    assert_eq!(
        result_line("eth0", OutputFormat::Json, "713.88", "14.06"),
        "{\"interface\":\"eth0\",\"download_mbps\":713.88,\"upload_mbps\":14.06}"
    );
    assert_eq!(
        result_line("we\"ird", OutputFormat::Json, "1.00", "2.00"),
        "{\"interface\":\"we\\\"ird\",\"download_mbps\":1.00,\"upload_mbps\":2.00}"
    );
}

#[test]
fn popup_counts_rows_in_sixteen_bits() {
    assert_eq!(popup_area(80, 24, 65_536 + 3), popup_area(80, 24, 3));
}

#[test]
fn refusal_names_the_status_given() {
    assert_eq!(
        netspeed::speedtest::cloudflare_status_error("upload", reqwest::StatusCode::BAD_REQUEST, None),
        "upload test failed: HTTP 400"
    );
    assert_eq!(
        netspeed::speedtest::cloudflare_status_error(
            "download",
            reqwest::StatusCode::TOO_MANY_REQUESTS,
            Some("60")
        ),
        "download test hit Cloudflare's rate limit (HTTP 429); retry after 60 s"
    );
}

#[test]
fn history_holds_the_newest_samples() {
    let mut a = app();
    for i in 0..70 {
        a.push_speeds(i as f64, (100 - i) as f64);
    }
    let dl: Vec<f64> = a.download_history.iter().cloned().collect();
    let want: Vec<f64> = (10..70).map(|i| i as f64).collect();
    assert_eq!(dl, want);
    assert_eq!(a.peak_download, 69.0);
    assert_eq!(a.peak_upload, 100.0);
}
