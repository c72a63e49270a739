//! The monitor's state: the interface watched, the recent speed samples and
//! their peaks, byte totals, and the speed test's standing.
//!
//! A speed sample has the type `S` that the caller measures in (Mbps).
use vstd::prelude::*;
use std::collections::VecDeque;
use crate::network::{InterfaceStatus, string_views};
use crate::speedtest::SpeedTestResult;
use vstd::std_specs::cmp::{PartialOrdIs, PartialOrdSpec};

verus! {

/// How many samples of each direction the history keeps.
pub const HISTORY_SIZE: usize = 60;

/// The history's capacity, as a number.
pub open spec fn history_size() -> nat {
    HISTORY_SIZE as nat
}

/// What the monitor is doing.
#[derive(Debug, Clone, Copy, PartialEq, Eq, Structural)]
pub enum AppState {
    Monitoring,
    SpeedTesting,
    SpeedTestDone,
}

/// `s` after appending `v` to a history that holds at most `cap` samples:
/// a full history first drops its oldest sample.
pub open spec fn capped_push<T>(s: Seq<T>, v: T, cap: nat) -> Seq<T> {
    if s.len() >= cap && s.len() > 0 {
        s.drop_first().push(v)
    } else {
        s.push(v)
    }
}

/// Appends `val` to `deque`, first dropping the oldest entry when `deque`
/// already holds `cap` or more.
pub fn push_capped<T>(deque: &mut VecDeque<T>, val: T, cap: usize)
    ensures
        final(deque)@ == capped_push(old(deque)@, val, cap as nat),
{
    broadcast use vstd::std_specs::vecdeque::axiom_spec_len;
    if deque.len() >= cap {
        let _ = deque.pop_front();
    }
    deque.push_back(val);
    assert(final(deque)@ =~= capped_push(old(deque)@, val, cap as nat));
}

/// A history stays within its capacity, keeps its newest samples in the
/// order they came, and ends with the sample just pushed.
pub proof fn lemma_capped_push<T>(s: Seq<T>, v: T, cap: nat)
    requires
        cap > 0,
        s.len() <= cap,
    ensures
        capped_push(s, v, cap).len() <= cap,
        capped_push(s, v, cap).last() == v,
        capped_push(s, v, cap).drop_last() == s.subrange(
            s.len() - capped_push(s, v, cap).drop_last().len(),
            s.len() as int,
        ),
        s.len() < cap ==> capped_push(s, v, cap).len() == s.len() + 1,
        s.len() == cap ==> capped_push(s, v, cap).len() == cap,
{
    let r = capped_push(s, v, cap);
    if s.len() >= cap && s.len() > 0 {
        assert(r.drop_last() =~= s.subrange(1, s.len() as int));
    } else {
        assert(r.drop_last() =~= s.subrange(0, s.len() as int));
    }
}

/// A history after appending the samples `vs` in order, one push each.
pub open spec fn push_all<T>(s: Seq<T>, vs: Seq<T>, cap: nat) -> Seq<T>
    decreases vs.len(),
{
    if vs.len() == 0 {
        s
    } else {
        capped_push(push_all(s, vs.drop_last(), cap), vs.last(), cap)
    }
}

/// The smaller of two numbers.
pub open spec fn min_nat(a: nat, b: nat) -> nat {
    if a <= b {
        a
    } else {
        b
    }
}

/// However many samples arrive, a history of capacity `cap` holds the
/// newest `cap` of all it has seen, oldest first; it is full once `cap`
/// samples have come.
pub proof fn lemma_history_keeps_newest<T>(s: Seq<T>, vs: Seq<T>, cap: nat)
    requires
        cap > 0,
        s.len() <= cap,
    ensures
        push_all(s, vs, cap).len() == min_nat(s.len() + vs.len(), cap),
        push_all(s, vs, cap) == (s + vs).subrange(
            (s.len() + vs.len()) - min_nat(s.len() + vs.len(), cap),
            (s.len() + vs.len()) as int,
        ),
    decreases vs.len(),
{
    let all = s + vs;
    let n = all.len();
    if vs.len() == 0 {
        assert(all =~= s);
        assert(all.subrange(0, n as int) =~= s);
    } else {
        let init = vs.drop_last();
        lemma_history_keeps_newest(s, init, cap);
        let prev = push_all(s, init, cap);
        assert((s + init) =~= all.subrange(0, n - 1));
        lemma_capped_push(prev, vs.last(), cap);
        let r = push_all(s, vs, cap);
        assert(all[n - 1] == vs.last());
        if prev.len() >= cap {
            assert(r =~= all.subrange(n - cap, n as int));
        } else {
            assert(r =~= all.subrange(n - min_nat(n, cap), n as int));
        }
    }
}

/// A sample never lowers a peak, for a sample type whose ordering is
/// consistent (vstd's `obeys_partial_cmp_spec_properties`): the peak after
/// the sample is not below the peak before it.
pub proof fn lemma_peak_never_drops<S: PartialOrd>(peak: S, v: S)
    requires
        vstd::laws_cmp::obeys_partial_cmp_spec_properties::<S>(),
    ensures
        !peak.is_gt(&next_peak(peak, v)),
{
    reveal(vstd::laws_cmp::obeys_partial_cmp_spec_properties);
    reveal(vstd::laws_eq::obeys_eq_spec_properties);
}

/// The first position of `x` in `s`.
pub open spec fn first_position<A>(s: Seq<A>, x: A) -> Option<int>
    decreases s.len(),
{
    if s.len() == 0 {
        None
    } else if s[0] == x {
        Some(0)
    } else {
        match first_position(s.drop_first(), x) {
            Some(i) => Some(i + 1),
            None => None,
        }
    }
}

proof fn lemma_first_position<A>(s: Seq<A>, x: A, k: int)
    requires
        0 <= k <= s.len(),
        forall|j: int| 0 <= j < k ==> #[trigger] s[j] != x,
        k == s.len() || s[k] == x,
    ensures
        first_position(s, x) == (if k == s.len() {
            None::<int>
        } else {
            Some(k)
        }),
    decreases k,
{
    if k > 0 {
        let t = s.drop_first();
        assert(s[0] != x);
        assert forall|j: int| 0 <= j < k - 1 implies #[trigger] t[j] != x by {
            assert(t[j] == s[j + 1]);
        }
        if k < s.len() {
            assert(t[k - 1] == s[k]);
        }
        lemma_first_position(t, x, k - 1);
    }
}

/// Where the selector starts: at `interface`'s first place in the list, or
/// at the top when it is not listed.
pub open spec fn initial_index(available: Seq<Seq<char>>, interface: Seq<char>) -> int {
    match first_position(available, interface) {
        Some(i) => i,
        None => 0,
    }
}

/// The selector starts on an entry of a non-empty list, and on the
/// interface itself when that is listed.
pub proof fn lemma_initial_index_in_list(available: Seq<Seq<char>>, interface: Seq<char>)
    ensures
        available.len() > 0 ==> 0 <= initial_index(available, interface) < available.len(),
        available.contains(interface) ==> available[initial_index(available, interface)]
            == interface,
        forall|k: int|
            0 <= k < initial_index(available, interface) ==> #[trigger] available[k] != interface,
    decreases available.len(),
{
    if available.len() > 0 && available[0] != interface {
        let rest = available.drop_first();
        lemma_initial_index_in_list(rest, interface);
        assert forall|k: int|
            0 <= k < initial_index(available, interface) implies #[trigger] available[k]
            != interface by {
            if k > 0 {
                assert(available[k] == rest[k - 1]);
            }
        }
        if available.contains(interface) {
            let j = choose|j: int| 0 <= j < available.len() && available[j] == interface;
            assert(rest[j - 1] == interface);
            assert(rest.contains(interface));
        }
    }
}

/// The position of `interface` in `available`, or 0 when it is not there.
pub fn interface_index(interface: &String, available: &Vec<String>) -> (r: usize)
    ensures
        r == initial_index(string_views(available@), interface@),
{
    let ghost ns = string_views(available@);
    let mut i: usize = 0;
    while i < available.len()
        invariant
            i <= available@.len(),
            ns == string_views(available@),
            forall|j: int| 0 <= j < i ==> #[trigger] ns[j] != interface@,
        decreases available@.len() - i,
    {
        if available[i] == *interface {
            proof {
                lemma_first_position(ns, interface@, i as int);
            }
            return i;
        }
        i = i + 1;
    }
    proof {
        lemma_first_position(ns, interface@, ns.len() as int);
    }
    0
}

/// The monitor.
#[derive(Debug)]
pub struct App<S> {
    pub interface: String,
    pub available_interfaces: Vec<String>,
    pub download_speed: S,
    pub upload_speed: S,
    pub peak_download: S,
    pub peak_upload: S,
    pub download_history: VecDeque<S>,
    pub upload_history: VecDeque<S>,
    pub total_rx: u64,
    pub total_tx: u64,
    pub state: AppState,
    pub interface_status: InterfaceStatus,
    pub speed_test_result: Option<SpeedTestResult<S>>,
    pub speed_test_progress: Option<String>,
    pub interface_selector_open: bool,
    pub selected_interface_idx: usize,
}

/// `a` and `b` agree on everything but the measurements (speeds, peaks,
/// histories and byte totals).
pub open spec fn same_session<S>(a: App<S>, b: App<S>) -> bool {
    &&& a.interface == b.interface
    &&& a.available_interfaces == b.available_interfaces
    &&& a.state == b.state
    &&& a.interface_status == b.interface_status
    &&& a.speed_test_result == b.speed_test_result
    &&& a.speed_test_progress == b.speed_test_progress
    &&& a.interface_selector_open == b.interface_selector_open
    &&& a.selected_interface_idx == b.selected_interface_idx
}

/// `a` and `b` hold the same measurements.
pub open spec fn same_measurements<S>(a: App<S>, b: App<S>) -> bool {
    &&& a.download_speed == b.download_speed
    &&& a.upload_speed == b.upload_speed
    &&& a.peak_download == b.peak_download
    &&& a.peak_upload == b.peak_upload
    &&& a.download_history@ == b.download_history@
    &&& a.upload_history@ == b.upload_history@
    &&& a.total_rx == b.total_rx
    &&& a.total_tx == b.total_tx
}

/// No measurement yet: every speed and peak is `S::default()`, the
/// histories are empty and nothing has been counted.
pub open spec fn measurements_cleared<S: Default>(a: App<S>) -> bool {
    &&& call_ensures(S::default, (), a.download_speed)
    &&& a.upload_speed == a.download_speed
    &&& a.peak_download == a.download_speed
    &&& a.peak_upload == a.download_speed
    &&& a.download_history@.len() == 0
    &&& a.upload_history@.len() == 0
    &&& a.total_rx == 0
    &&& a.total_tx == 0
}

/// The peak after a sample `v`: `v` when it is greater than the old peak.
pub open spec fn next_peak<S: PartialOrd>(peak: S, v: S) -> S {
    if v.is_gt(&peak) {
        v
    } else {
        peak
    }
}

impl<S: Copy> App<S> {
    /// A monitor of `interface` that has measured nothing yet, with the
    /// selector on `interface`'s place in `available_interfaces`.
    pub fn new(interface: String, available_interfaces: Vec<String>) -> (app: Self) where
        S: Default,
        ensures
            app.interface == interface,
            app.available_interfaces == available_interfaces,
            measurements_cleared(app),
            app.state == AppState::Monitoring,
            app.interface_status matches InterfaceStatus::Unknown(s) && s@.len() == 0,
            app.speed_test_result is None,
            app.speed_test_progress is None,
            !app.interface_selector_open,
            app.selected_interface_idx == initial_index(string_views(available_interfaces@), interface@),
    {
        let idx = interface_index(&interface, &available_interfaces);
        let zero = S::default();
        App {
            interface,
            available_interfaces,
            download_speed: zero,
            upload_speed: zero,
            peak_download: zero,
            peak_upload: zero,
            download_history: VecDeque::with_capacity(HISTORY_SIZE),
            upload_history: VecDeque::with_capacity(HISTORY_SIZE),
            total_rx: 0,
            total_tx: 0,
            state: AppState::Monitoring,
            interface_status: InterfaceStatus::Unknown(String::new()),
            speed_test_result: None,
            speed_test_progress: None,
            interface_selector_open: false,
            selected_interface_idx: idx,
        }
    }

    /// Records one sample of each direction: it becomes the current speed,
    /// raises the peak it exceeds, and joins the capped history.
    pub fn push_speeds(&mut self, download: S, upload: S) where S: PartialOrd,
        ensures
            same_session(*final(self), *old(self)),
            final(self).total_rx == old(self).total_rx,
            final(self).total_tx == old(self).total_tx,
            final(self).download_speed == download,
            final(self).upload_speed == upload,
            final(self).peak_download == download || final(self).peak_download == old(
                self,
            ).peak_download,
            final(self).peak_upload == upload || final(self).peak_upload == old(self).peak_upload,
            S::obeys_partial_cmp_spec() ==> final(self).peak_download == next_peak(
                old(self).peak_download,
                download,
            ),
            S::obeys_partial_cmp_spec() ==> final(self).peak_upload == next_peak(
                old(self).peak_upload,
                upload,
            ),
            final(self).download_history@ == capped_push(
                old(self).download_history@,
                download,
                history_size(),
            ),
            final(self).upload_history@ == capped_push(
                old(self).upload_history@,
                upload,
                history_size(),
            ),
    {
        self.download_speed = download;
        self.upload_speed = upload;
        if download > self.peak_download {
            self.peak_download = download;
        }
        if upload > self.peak_upload {
            self.peak_upload = upload;
        }
        push_capped(&mut self.download_history, download, HISTORY_SIZE);
        push_capped(&mut self.upload_history, upload, HISTORY_SIZE);
    }

    /// Forgets every measurement, as when the monitor moves to another
    /// interface; the session (interface, selector, speed test) stays.
    pub fn reset_for_interface(&mut self) where S: Default,
        ensures
            same_session(*final(self), *old(self)),
            measurements_cleared(*final(self)),
    {
        let zero = S::default();
        self.download_speed = zero;
        self.upload_speed = zero;
        self.peak_download = zero;
        self.peak_upload = zero;
        self.download_history.clear();
        self.upload_history.clear();
        self.total_rx = 0;
        self.total_tx = 0;
    }

    /// Adds the bytes counted since the last sample to the totals.
    pub fn add_traffic(&mut self, rx_delta: u64, tx_delta: u64)
        requires
            old(self).total_rx + rx_delta <= u64::MAX,
            old(self).total_tx + tx_delta <= u64::MAX,
        ensures
            same_session(*final(self), *old(self)),
            final(self).total_rx == old(self).total_rx + rx_delta,
            final(self).total_tx == old(self).total_tx + tx_delta,
            final(self).download_speed == old(self).download_speed,
            final(self).upload_speed == old(self).upload_speed,
            final(self).peak_download == old(self).peak_download,
            final(self).peak_upload == old(self).peak_upload,
            final(self).download_history@ == old(self).download_history@,
            final(self).upload_history@ == old(self).upload_history@,
    {
        self.total_rx = self.total_rx + rx_delta;
        self.total_tx = self.total_tx + tx_delta;
    }
}

} // verus!
