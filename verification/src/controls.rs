//! How the terminal monitor reacts: a key press and a speed-test report each
//! move the monitor's state, and a key press may ask the caller for work
//! (quit, start a speed test, watch another interface).
use vstd::prelude::*;
use crate::app::{App, AppState, measurements_cleared};
use crate::cli::{not_started_message, not_started_text};
use crate::speedtest::SpeedTestProgress;
use crate::text::{chars_to_string, push_chars, push_str, to_chars};

verus! {

broadcast use vstd::string::group_string_axioms;

/// A key press, as far as the monitor tells keys apart.
#[derive(Debug, Clone, Copy, PartialEq, Eq, Structural)]
pub enum Key {
    Char(char),
    Up,
    Down,
    Enter,
    Esc,
    Other,
}

/// What the caller does after a key press.
#[derive(Debug)]
pub enum KeyAction {
    /// Keep running.
    Continue,
    /// Leave the monitor.
    Quit,
    /// Start a speed test on the named interface.
    StartSpeedTest(String),
    /// Watch the named interface from now on: read its link state and
    /// restart its byte counting.
    SwitchInterface(String),
}

/// `q` or `Q` with the selector closed, or Ctrl-C.
pub open spec fn is_quit_key(key: Key, ctrl: bool, selector_open: bool) -> bool {
    ||| (key == Key::Char('q') || key == Key::Char('Q')) && !selector_open
    ||| key == Key::Char('c') && ctrl
}

/// `s` or `S` with the selector closed and no test running.
pub open spec fn is_speed_test_key<S>(key: Key, app: App<S>) -> bool {
    &&& key == Key::Char('s') || key == Key::Char('S')
    &&& !app.interface_selector_open
    &&& app.state != AppState::SpeedTesting
}

/// `s`/`S` asks for a speed test exactly when the selector is closed and the
/// monitor is not already testing: in monitoring and after a finished test
/// alike. Neither key ever quits.
pub proof fn lemma_speed_test_key_when<S>(key: Key, app: App<S>, ctrl: bool)
    ensures
        is_speed_test_key(key, app) <==> ((key == Key::Char('s') || key == Key::Char('S'))
            && !app.interface_selector_open && (app.state == AppState::Monitoring || app.state
            == AppState::SpeedTestDone)),
        (key == Key::Char('s') || key == Key::Char('S')) ==> !is_quit_key(
            key,
            ctrl,
            app.interface_selector_open,
        ),
{
}

/// Only `q`, `Q` (with the selector closed) and Ctrl-C quit; `q` and `Q`
/// always quit while the selector is closed.
pub proof fn lemma_quit_keys(key: Key, ctrl: bool, selector_open: bool)
    ensures
        is_quit_key(key, ctrl, selector_open) ==> (key == Key::Char('q') || key == Key::Char('Q')
            || key == Key::Char('c')),
        is_quit_key(key, ctrl, selector_open) && key != Key::Char('c') ==> !selector_open,
        key == Key::Char('c') ==> (is_quit_key(key, ctrl, selector_open) <==> ctrl),
        !selector_open && (key == Key::Char('q') || key == Key::Char('Q')) ==> is_quit_key(
            key,
            ctrl,
            selector_open,
        ),
{
}

/// The selector's position after moving down a list of `n` entries: the next
/// entry, wrapping from the last to the first.
pub open spec fn index_down(idx: nat, n: nat) -> nat {
    if n > 0 {
        (idx + 1) % n
    } else {
        idx
    }
}

/// The selector's position after moving up a list of `n` entries: the
/// previous entry, wrapping from the first to the last.
pub open spec fn index_up(idx: nat, n: nat) -> nat {
    if n > 0 {
        ((idx + n - 1) as nat) % n
    } else {
        idx
    }
}

/// The text shown while a test starts.
pub open spec fn connecting_text() -> Seq<char> {
    "Connecting…"@
}

/// Moving down then up leaves a selector inside the list where it was.
pub proof fn lemma_up_undoes_down(idx: nat, n: nat)
    requires
        idx < n,
    ensures
        index_up(index_down(idx, n), n) == idx,
        index_down(index_up(idx, n), n) == idx,
        index_down(idx, n) < n,
        index_up(idx, n) < n,
{
    if idx + 1 < n {
        assert((idx + 1) % n == idx + 1) by (nonlinear_arith)
            requires
                idx + 1 < n,
        ;
        assert(((idx + 1 + n - 1) as nat) % n == idx) by (nonlinear_arith)
            requires
                idx < n,
        ;
    } else {
        assert((idx + 1) % n == 0) by (nonlinear_arith)
            requires
                idx + 1 == n,
        ;
        assert(((n - 1) as nat) % n == idx) by (nonlinear_arith)
            requires
                idx + 1 == n,
        ;
    }
    if idx > 0 {
        assert(((idx + n - 1) as nat) % n == idx - 1) by (nonlinear_arith)
            requires
                0 < idx < n,
        ;
        assert((((idx - 1) as nat) + 1) % n == idx) by (nonlinear_arith)
            requires
                0 < idx < n,
        ;
    } else {
        assert(((n - 1) as nat) % n == n - 1) by (nonlinear_arith)
            requires
                0 < n,
        ;
        assert((((n - 1) as nat) + 1) % n == 0) by (nonlinear_arith)
            requires
                0 < n,
        ;
    }
}

/// Applies a key press to the monitor.
///
/// `q`/`Q` (selector closed) and Ctrl-C quit. `s`/`S` (selector closed, no
/// test running) starts a speed test when the interface is up, and otherwise
/// shows why none starts. `i`/`I` opens or closes the interface selector; with
/// it open, Up and Down move its highlight around the list, Enter switches to
/// the highlighted interface (forgetting the measurements when it differs from
/// the current one) and closes it, and Esc closes it. Other keys do nothing.
pub fn handle_key<S: Copy + Default>(app: &mut App<S>, key: Key, ctrl: bool) -> (r: KeyAction)
    requires
        key == Key::Enter && old(app).interface_selector_open ==> old(
            app,
        ).selected_interface_idx < old(app).available_interfaces@.len(),
        key == Key::Down && old(app).interface_selector_open
            && old(app).available_interfaces@.len() > 0 ==> old(app).selected_interface_idx + 1
            <= usize::MAX,
        key == Key::Up && old(app).interface_selector_open
            && old(app).available_interfaces@.len() > 0 ==> old(app).selected_interface_idx + old(
            app,
        ).available_interfaces@.len() <= usize::MAX,
    ensures
        ({
            let a = *old(app);
            let b = *final(app);
            let open = a.interface_selector_open;
            let n = a.available_interfaces@.len();
            if is_quit_key(key, ctrl, open) {
                r is Quit && b == a
            } else if is_speed_test_key(key, a) {
                if a.interface_status is Up {
                    &&& r matches KeyAction::StartSpeedTest(i) && i == a.interface
                    &&& b == (App {
                        state: AppState::SpeedTesting,
                        speed_test_progress: b.speed_test_progress,
                        ..a
                    })
                    &&& b.speed_test_progress matches Some(t) && t@ == connecting_text()
                } else {
                    &&& r is Continue
                    &&& b == (App {
                        state: AppState::Monitoring,
                        speed_test_progress: b.speed_test_progress,
                        ..a
                    })
                    &&& b.speed_test_progress matches Some(t) && t@ == "Error: "@
                        + not_started_text(a.interface@, a.interface_status)
                }
            } else if key == Key::Char('i') || key == Key::Char('I') {
                r is Continue && b == (App { interface_selector_open: !open, ..a })
            } else if key == Key::Down && open {
                r is Continue && b == (App {
                    selected_interface_idx: index_down(a.selected_interface_idx as nat, n) as usize,
                    ..a
                })
            } else if key == Key::Up && open {
                r is Continue && b == (App {
                    selected_interface_idx: index_up(a.selected_interface_idx as nat, n) as usize,
                    ..a
                })
            } else if key == Key::Enter && open {
                let chosen = a.available_interfaces@[a.selected_interface_idx as int];
                if chosen@ != a.interface@ {
                    &&& r matches KeyAction::SwitchInterface(i) && i == chosen
                    &&& measurements_cleared(b)
                    &&& b == (App {
                        interface: chosen,
                        interface_selector_open: false,
                        download_speed: b.download_speed,
                        upload_speed: b.upload_speed,
                        peak_download: b.peak_download,
                        peak_upload: b.peak_upload,
                        download_history: b.download_history,
                        upload_history: b.upload_history,
                        total_rx: b.total_rx,
                        total_tx: b.total_tx,
                        ..a
                    })
                } else {
                    r is Continue && b == (App { interface_selector_open: false, ..a })
                }
            } else if key == Key::Esc && open {
                r is Continue && b == (App { interface_selector_open: false, ..a })
            } else {
                r is Continue && b == a
            }
        }),
{
    let open = app.interface_selector_open;
    if !open && (key == Key::Char('q') || key == Key::Char('Q')) {
        return KeyAction::Quit;
    }
    if key == Key::Char('c') && ctrl {
        return KeyAction::Quit;
    }
    if (key == Key::Char('s') || key == Key::Char('S')) && !open && !(app.state
        == AppState::SpeedTesting) {
        if !app.interface_status.is_usable() {
            let mut out: Vec<char> = Vec::new();
            push_str(&mut out, "Error: ");
            let msg = not_started_message(app.interface.as_str(), &app.interface_status);
            let mc = to_chars(msg.as_str());
            push_chars(&mut out, &mc);
            app.speed_test_progress = Some(chars_to_string(&out));
            app.state = AppState::Monitoring;
            return KeyAction::Continue;
        }
        app.state = AppState::SpeedTesting;
        let t = to_chars("Connecting…");
        app.speed_test_progress = Some(chars_to_string(&t));
        return KeyAction::StartSpeedTest(app.interface.clone());
    }
    match key {
        Key::Char(c) => {
            if c == 'i' || c == 'I' {
                app.interface_selector_open = !open;
            }
        },
        Key::Down => {
            if open {
                let n = app.available_interfaces.len();
                if n > 0 {
                    app.selected_interface_idx = (app.selected_interface_idx + 1) % n;
                }
            }
        },
        Key::Up => {
            if open {
                let n = app.available_interfaces.len();
                if n > 0 {
                    app.selected_interface_idx = (app.selected_interface_idx + n - 1) % n;
                }
            }
        },
        Key::Enter => {
            if open {
                let new_iface = app.available_interfaces[app.selected_interface_idx].clone();
                let mut action = KeyAction::Continue;
                if !(new_iface == app.interface) {
                    app.interface = new_iface.clone();
                    app.reset_for_interface();
                    action = KeyAction::SwitchInterface(new_iface);
                }
                app.interface_selector_open = false;
                return action;
            }
        },
        Key::Esc => {
            if open {
                app.interface_selector_open = false;
            }
        },
        Key::Other => {},
    }
    KeyAction::Continue
}

/// The progress line of a running phase: the phase alone while its speed is
/// below what is worth showing (`shown_speed` is `None`), otherwise the
/// phase and the speed as written for the reader.
pub open spec fn phase_text(arrow_phase: Seq<char>, shown_speed: Option<Seq<char>>) -> Seq<char> {
    match shown_speed {
        None => arrow_phase + "…"@,
        Some(v) => arrow_phase + ": "@ + v,
    }
}

/// Applies a speed-test report to the monitor.
///
/// A download or upload report shows the phase (with `shown_speed`, the
/// measured speed as written for the reader, or `None` while it is too small
/// to show); a final result is kept and the test marked done; an error is
/// shown and the monitor goes back to monitoring.
pub fn handle_speedtest<S>(
    app: &mut App<S>,
    progress: SpeedTestProgress<S>,
    shown_speed: Option<String>,
)
    ensures
        ({
            let a = *old(app);
            let b = *final(app);
            let shown = match shown_speed {
                Some(v) => Some(v@),
                None => None,
            };
            match progress {
                SpeedTestProgress::Downloading(_) => {
                    &&& b == (App { speed_test_progress: b.speed_test_progress, ..a })
                    &&& b.speed_test_progress matches Some(t) && t@ == phase_text(
                        "↓ Downloading"@,
                        shown,
                    )
                },
                SpeedTestProgress::Uploading(_) => {
                    &&& b == (App { speed_test_progress: b.speed_test_progress, ..a })
                    &&& b.speed_test_progress matches Some(t) && t@ == phase_text(
                        "↑ Uploading"@,
                        shown,
                    )
                },
                SpeedTestProgress::Done(res) => b == (App {
                    speed_test_result: Some(res),
                    speed_test_progress: None,
                    state: AppState::SpeedTestDone,
                    ..a
                }),
                SpeedTestProgress::Error(e) => {
                    &&& b == (App {
                        speed_test_progress: b.speed_test_progress,
                        state: AppState::Monitoring,
                        ..a
                    })
                    &&& b.speed_test_progress matches Some(t) && t@ == "Error: "@ + e@
                },
            }
        }),
{
    match progress {
        SpeedTestProgress::Downloading(_) => {
            let mut out: Vec<char> = Vec::new();
            push_str(&mut out, "↓ Downloading");
            push_phase_speed(&mut out, &shown_speed);
            app.speed_test_progress = Some(chars_to_string(&out));
        },
        SpeedTestProgress::Uploading(_) => {
            let mut out: Vec<char> = Vec::new();
            push_str(&mut out, "↑ Uploading");
            push_phase_speed(&mut out, &shown_speed);
            app.speed_test_progress = Some(chars_to_string(&out));
        },
        SpeedTestProgress::Done(result) => {
            app.speed_test_result = Some(result);
            app.speed_test_progress = None;
            app.state = AppState::SpeedTestDone;
        },
        SpeedTestProgress::Error(e) => {
            let mut out: Vec<char> = Vec::new();
            push_str(&mut out, "Error: ");
            push_str(&mut out, e.as_str());
            app.speed_test_progress = Some(chars_to_string(&out));
            app.state = AppState::Monitoring;
        },
    }
}

fn push_phase_speed(out: &mut Vec<char>, shown_speed: &Option<String>)
    ensures
        final(out)@ == phase_text(
            old(out)@,
            match shown_speed {
                Some(v) => Some(v@),
                None => None,
            },
        ),
{
    match shown_speed {
        None => push_str(out, "…"),
        Some(v) => {
            push_str(out, ": ");
            push_str(out, v.as_str());
        },
    }
}

} // verus!
