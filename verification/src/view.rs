//! What the terminal screen shows, decided apart from drawing it: the header's
//! state text, the speed-test panel's content, and the interface selector's
//! place and entries.
use vstd::prelude::*;
use crate::app::{App, AppState};
use crate::speedtest::SpeedTestResult;
use crate::text::{chars_to_string, push_str, to_chars};

verus! {

broadcast use vstd::string::group_string_axioms;

/// The header's text for each state.
pub open spec fn state_text(state: AppState) -> Seq<char> {
    match state {
        AppState::Monitoring => "● Monitoring"@,
        AppState::SpeedTesting => "◎ Testing…"@,
        AppState::SpeedTestDone => "✓ Test Done"@,
    }
}

/// The header's text for `state`.
pub fn state_label(state: AppState) -> (r: &'static str)
    ensures
        r@ == state_text(state),
{
    match state {
        AppState::Monitoring => "● Monitoring",
        AppState::SpeedTesting => "◎ Testing…",
        AppState::SpeedTestDone => "✓ Test Done",
    }
}

/// What the speed-test panel shows.
#[derive(Debug)]
pub enum PanelView {
    /// A refused or failed test: the message, and an invitation to retry.
    Failure(String),
    /// The last result, and an invitation to run again.
    Outcome,
    /// An invitation to run a first test.
    Prompt,
    /// The running test's progress line.
    Running(String),
    /// Nothing.
    Blank,
}

/// `t` begins with `"Error:"`.
pub open spec fn is_error_text(t: Seq<char>) -> bool {
    t.len() >= 6 && t.take(6) == "Error:"@
}

fn starts_with_error(t: &String) -> (r: bool)
    ensures
        r == is_error_text(t@),
{
    proof {
        reveal_strlit("Error:");
    }
    let cs = to_chars(t.as_str());
    let pat = to_chars("Error:");
    if cs.len() < 6 {
        return false;
    }
    let mut i: usize = 0;
    while i < 6
        invariant
            i <= 6,
            cs@.len() >= 6,
            cs@ == t@,
            pat@ == "Error:"@,
            pat@.len() == 6,
            forall|j: int| 0 <= j < i ==> cs@[j] == pat@[j],
        decreases 6 - i,
    {
        if cs[i] != pat[i] {
            assert(cs@.take(6)[i as int] != pat@[i as int]);
            return false;
        }
        i = i + 1;
    }
    assert(cs@.take(6) =~= pat@);
    true
}

/// The panel's content for a monitor in state `state` with progress line
/// `progress` and result `result`.
pub open spec fn panel_for<S>(
    state: AppState,
    progress: Option<Seq<char>>,
    result: Option<SpeedTestResult<S>>,
) -> PanelKind {
    match state {
        AppState::Monitoring => {
            if progress matches Some(t) && is_error_text(t) {
                PanelKind::Failure
            } else if result is Some {
                PanelKind::Outcome
            } else {
                PanelKind::Prompt
            }
        },
        AppState::SpeedTesting => PanelKind::Running,
        AppState::SpeedTestDone => {
            if result is Some {
                PanelKind::Outcome
            } else {
                PanelKind::Blank
            }
        },
    }
}

/// A held result is shown whenever no failure is: right after a test
/// finishes and, later, while monitoring; a running test shows its progress;
/// and the result view never appears without a result.
pub proof fn lemma_panel_shows_result<S>(
    state: AppState,
    progress: Option<Seq<char>>,
    result: Option<SpeedTestResult<S>>,
)
    ensures
        state == AppState::SpeedTestDone && result is Some ==> panel_for(state, progress, result)
            is Outcome,
        state == AppState::Monitoring && result is Some && !(progress matches Some(t)
            && is_error_text(t)) ==> panel_for(state, progress, result) is Outcome,
        state == AppState::Monitoring && (progress matches Some(t) && is_error_text(t))
            ==> panel_for(state, progress, result) is Failure,
        state == AppState::SpeedTesting ==> panel_for(state, progress, result) is Running,
        panel_for(state, progress, result) is Outcome ==> result is Some,
        result is None && state == AppState::SpeedTestDone ==> panel_for(state, progress, result)
            is Blank,
{
}

/// A progress line shows a failure exactly when it begins with the six
/// characters `Error:`.
pub proof fn lemma_error_text(t: Seq<char>)
    ensures
        is_error_text(t) <==> (t.len() >= 6 && t[0] == 'E' && t[1] == 'r' && t[2] == 'r' && t[3]
            == 'o' && t[4] == 'r' && t[5] == ':'),
{
    reveal_strlit("Error:");
    let e = "Error:"@;
    assert(e.len() == 6 && e[0] == 'E' && e[1] == 'r' && e[2] == 'r' && e[3] == 'o' && e[4] == 'r'
        && e[5] == ':');
    if t.len() >= 6 {
        assert(t.take(6)[0] == t[0] && t.take(6)[1] == t[1] && t.take(6)[2] == t[2] && t.take(6)[3]
            == t[3] && t.take(6)[4] == t[4] && t.take(6)[5] == t[5]);
        if t[0] == 'E' && t[1] == 'r' && t[2] == 'r' && t[3] == 'o' && t[4] == 'r' && t[5] == ':' {
            assert(t.take(6) =~= "Error:"@);
        }
    }
}

/// The kinds of panel content.
pub enum PanelKind {
    Failure,
    Outcome,
    Prompt,
    Running,
    Blank,
}

/// The panel's content for `app`: in monitoring, a failure message when the
/// progress line reports one, else the last result, else a prompt; while
/// testing, the progress line (or `"Running…"` before the first); when done,
/// the result.
pub fn panel_view<S>(app: &App<S>) -> (r: PanelView)
    ensures
        ({
            let progress = match app.speed_test_progress {
                Some(t) => Some(t@),
                None => None,
            };
            match panel_for(app.state, progress, app.speed_test_result) {
                PanelKind::Failure => r matches PanelView::Failure(t) && progress == Some(t@),
                PanelKind::Outcome => r is Outcome,
                PanelKind::Prompt => r is Prompt,
                PanelKind::Running => r matches PanelView::Running(t) && t@ == match progress {
                    Some(p) => p,
                    None => "Running…"@,
                },
                PanelKind::Blank => r is Blank,
            }
        }),
{
    match app.state {
        AppState::Monitoring => {
            match &app.speed_test_progress {
                Some(t) => {
                    if starts_with_error(t) {
                        return PanelView::Failure(t.clone());
                    }
                },
                None => {},
            }
            if app.speed_test_result.is_some() {
                PanelView::Outcome
            } else {
                PanelView::Prompt
            }
        },
        AppState::SpeedTesting => {
            match &app.speed_test_progress {
                Some(t) => PanelView::Running(t.clone()),
                None => {
                    let cs = to_chars("Running…");
                    PanelView::Running(chars_to_string(&cs))
                },
            }
        },
        AppState::SpeedTestDone => {
            if app.speed_test_result.is_some() {
                PanelView::Outcome
            } else {
                PanelView::Blank
            }
        },
    }
}

/// The interface selector's rectangle.
#[derive(Debug, Clone, Copy, PartialEq, Eq, Structural)]
pub struct PopupArea {
    pub x: u16,
    pub y: u16,
    pub width: u16,
    pub height: u16,
}

/// `a - b`, or 0 when `b` is larger.
pub open spec fn sat_sub(a: int, b: int) -> int {
    if a >= b {
        a - b
    } else {
        0
    }
}

/// The selector for `n_items` interfaces on a screen of `area_width` by
/// `area_height` cells: at most 42 wide, one row per interface plus two
/// for its border (the count taken modulo 2^16, as a 16-bit cell count holds
/// it), each at least 4 cells short of the screen, and centred.
///
/// A count whose remainder modulo 2^16 is 65534 or 65535 leaves no room for
/// the border rows in 16 bits, and is not accepted.
pub fn popup_area(area_width: u16, area_height: u16, n_items: usize) -> (r: PopupArea)
    requires
        n_items % 65536 + 2 <= u16::MAX,
    ensures
        r.width == (if 42 <= sat_sub(area_width as int, 4) {
            42
        } else {
            sat_sub(area_width as int, 4)
        }),
        r.height == (if n_items % 65536 + 2 <= sat_sub(area_height as int, 4) {
            n_items % 65536 + 2
        } else {
            sat_sub(area_height as int, 4)
        }),
        r.x == (area_width - r.width) / 2,
        r.y == (area_height - r.height) / 2,
        r.x + r.width <= area_width,
        r.y + r.height <= area_height,
{
    let avail_w = area_width.saturating_sub(4);
    let width = if 42 <= avail_w {
        42
    } else {
        avail_w
    };
    let avail_h = area_height.saturating_sub(4);
    let rows = ((n_items % 65536) as u16) + 2;
    let height = if rows <= avail_h {
        rows
    } else {
        avail_h
    };
    let x = area_width.saturating_sub(width) / 2;
    let y = area_height.saturating_sub(height) / 2;
    PopupArea { x, y, width, height }
}

/// The selector's line for `iface`: marked with an arrow when highlighted.
pub fn popup_item_label(iface: &str, selected: bool) -> (r: String)
    ensures
        r@ == (if selected {
            "▶ "@
        } else {
            "  "@
        }) + iface@,
{
    let mut out: Vec<char> = Vec::new();
    if selected {
        push_str(&mut out, "▶ ");
    } else {
        push_str(&mut out, "  ");
    }
    push_str(&mut out, iface);
    chars_to_string(&out)
}

} // verus!
