use netspeed::speedtest::{
    cloudflare_status_error, download_url, SpeedTestProgress, SpeedTestResult,
    DOWNLOAD_TRANSFER_SIZES, MIN_TRANSFER_BYTES, UPLOAD_TRANSFER_SIZES,
};

// ── download_url ─────────────────────────────────────────────────────────────

#[test]
fn download_url_uses_requested_payload_size() {
    assert_eq!(
        download_url(MIN_TRANSFER_BYTES),
        "https://speed.cloudflare.com/__down?bytes=1000000"
    );
}

#[test]
fn download_transfer_sizes_start_small_and_stop_before_cloudflare_limit() {
    assert_eq!(DOWNLOAD_TRANSFER_SIZES[0], MIN_TRANSFER_BYTES);
    assert_eq!(
        DOWNLOAD_TRANSFER_SIZES[DOWNLOAD_TRANSFER_SIZES.len() - 1],
        5_000_000
    );
}

#[test]
fn upload_transfer_sizes_start_small_and_ramp_up() {
    assert_eq!(UPLOAD_TRANSFER_SIZES[0], MIN_TRANSFER_BYTES);
    assert_eq!(
        UPLOAD_TRANSFER_SIZES[UPLOAD_TRANSFER_SIZES.len() - 1],
        10_000_000
    );
}

#[test]
fn cloudflare_rate_limit_error_is_explicit() {
    let msg = cloudflare_status_error(
        "download",
        reqwest::StatusCode::TOO_MANY_REQUESTS,
        Some("60"),
    );
    assert!(msg.contains("rate limit"));
    assert!(msg.contains("HTTP 429"));
    assert!(msg.contains("60"));
}

#[test]
fn cloudflare_status_error_names_direction() {
    let msg = cloudflare_status_error("upload", reqwest::StatusCode::BAD_REQUEST, None);
    assert!(msg.contains("upload"));
    assert!(msg.contains("HTTP 400"));
}

// ── SpeedTestResult ───────────────────────────────────────────────────────────

#[test]
fn speed_test_result_fields_accessible() {
    let r = SpeedTestResult {
        download_mbps: 123.4,
        upload_mbps: 56.7,
    };
    assert_eq!(r.download_mbps, 123.4);
    assert_eq!(r.upload_mbps, 56.7);
}

#[test]
fn speed_test_result_is_cloneable() {
    let r = SpeedTestResult {
        download_mbps: 100.0,
        upload_mbps: 50.0,
    };
    let r2 = r.clone();
    assert_eq!(r2.download_mbps, r.download_mbps);
    assert_eq!(r2.upload_mbps, r.upload_mbps);
}

// ── SpeedTestProgress ─────────────────────────────────────────────────────────

#[test]
fn progress_downloading_holds_speed() {
    if let SpeedTestProgress::Downloading(mbps) = SpeedTestProgress::Downloading(75.0) {
        assert_eq!(mbps, 75.0);
    } else {
        panic!("wrong variant");
    }
}

#[test]
fn progress_uploading_holds_speed() {
    if let SpeedTestProgress::Uploading(mbps) = SpeedTestProgress::Uploading(30.0) {
        assert_eq!(mbps, 30.0);
    } else {
        panic!("wrong variant");
    }
}

#[test]
fn progress_done_holds_result() {
    let result = SpeedTestResult {
        download_mbps: 200.0,
        upload_mbps: 40.0,
    };
    if let SpeedTestProgress::Done(r) = SpeedTestProgress::Done(result) {
        assert_eq!(r.download_mbps, 200.0);
        assert_eq!(r.upload_mbps, 40.0);
    } else {
        panic!("wrong variant");
    }
}

#[test]
fn progress_error_holds_message() {
    if let SpeedTestProgress::Error(msg) = SpeedTestProgress::<f64>::Error("timeout".into()) {
        assert_eq!(msg, "timeout");
    } else {
        panic!("wrong variant");
    }
}

#[test]
fn progress_is_cloneable() {
    let p = SpeedTestProgress::Downloading(50.0);
    let _p2 = p.clone();
}
