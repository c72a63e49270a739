//! Network interfaces: the kernel's interface table (`/proc/net/dev`), its
//! routing table (`/proc/net/route`), the link state in `/sys/class/net`, and
//! byte counts shown to a reader.
//!
//! Every function here computes on the text of those files; reading them is
//! the caller's part.
use vstd::prelude::*;
use crate::text::{
    is_trimmed, lemma_trim_is_trimmed, chars_eq_str, chars_to_string, decimal, digit, digit_char, lines, opt_chars, push_decimal, parse_u64, parse_u64_chars, push_chars, push_str,
    split_lines, split_once, split_once_chars, split_words, to_chars, trim, trim_chars, views,
    words,
};

verus! {

broadcast use vstd::string::group_string_axioms;

/// The link state of an interface.
#[derive(Debug, Clone, PartialEq, Eq)]
pub enum InterfaceStatus {
    Up,
    NoCarrier,
    Down,
    Unknown(String),
}

/// The short name of a link state.
pub open spec fn status_label(s: InterfaceStatus) -> Seq<char> {
    match s {
        InterfaceStatus::Up => "up"@,
        InterfaceStatus::NoCarrier => "no carrier"@,
        InterfaceStatus::Down => "down"@,
        InterfaceStatus::Unknown(_) => "unknown"@,
    }
}

/// The phrase that completes "interface 'x' ..." for a link state.
pub open spec fn status_description(s: InterfaceStatus) -> Seq<char> {
    match s {
        InterfaceStatus::Up => "is up"@,
        InterfaceStatus::NoCarrier => "has no carrier"@,
        InterfaceStatus::Down => "is down"@,
        InterfaceStatus::Unknown(_) => "status is unknown"@,
    }
}

impl InterfaceStatus {
    /// A speed test can run only over an interface that is up.
    pub fn is_usable(&self) -> (r: bool)
        ensures
            r == (*self is Up),
    {
        match self {
            InterfaceStatus::Up => true,
            _ => false,
        }
    }

    pub fn label(&self) -> (r: &str)
        ensures
            r@ == status_label(*self),
    {
        match self {
            InterfaceStatus::Up => "up",
            InterfaceStatus::NoCarrier => "no carrier",
            InterfaceStatus::Down => "down",
            InterfaceStatus::Unknown(_) => "unknown",
        }
    }

    pub fn description(&self) -> (r: &str)
        ensures
            r@ == status_description(*self),
    {
        match self {
            InterfaceStatus::Up => "is up",
            InterfaceStatus::NoCarrier => "has no carrier",
            InterfaceStatus::Down => "is down",
            InterfaceStatus::Unknown(_) => "status is unknown",
        }
    }
}

/// The byte counters of one interface.
#[derive(Debug, Clone)]
pub struct InterfaceStats {
    pub name: String,
    pub rx_bytes: u64,
    pub tx_bytes: u64,
}

impl View for InterfaceStats {
    type V = (Seq<char>, u64, u64);

    open spec fn view(&self) -> (Seq<char>, u64, u64) {
        (self.name@, self.rx_bytes, self.tx_bytes)
    }
}

/// The views of a sequence of interface records.
pub open spec fn stats_views(v: Seq<InterfaceStats>) -> Seq<(Seq<char>, u64, u64)> {
    v.map_values(|s: InterfaceStats| s@)
}

// ───────────────────────────── /proc/net/dev ─────────────────────────────

/// `ls` without its first `n` lines (empty when it has no more than `n`).
pub open spec fn skip_lines(ls: Seq<Seq<char>>, n: nat) -> Seq<Seq<char>> {
    if ls.len() <= n {
        Seq::empty()
    } else {
        ls.skip(n as int)
    }
}

/// The words of `ws` that read as `u64`, in order; the others are dropped.
pub open spec fn parsed_numbers(ws: Seq<Seq<char>>) -> Seq<u64>
    decreases ws.len(),
{
    if ws.len() == 0 {
        Seq::empty()
    } else {
        let r = parsed_numbers(ws.drop_last());
        match parse_u64(ws.last()) {
            Some(v) => r.push(v),
            None => r,
        }
    }
}

/// The numbers of a word list are exactly the values of the words that read
/// as `u64`, kept in order and unchanged: `ws` filtered to the words that
/// parse, each replaced by its value.
pub proof fn lemma_parsed_numbers_are_the_parses(ws: Seq<Seq<char>>)
    ensures
        parsed_numbers(ws) == ws.filter(|w: Seq<char>| parse_u64(w) is Some).map_values(
            |w: Seq<char>| parse_u64(w).unwrap(),
        ),
    decreases ws.len(),
{
    reveal(Seq::filter);
    let p = |w: Seq<char>| parse_u64(w) is Some;
    let f = |w: Seq<char>| parse_u64(w).unwrap();
    if ws.len() > 0 {
        lemma_parsed_numbers_are_the_parses(ws.drop_last());
        let sub = ws.drop_last().filter(p);
        if p(ws.last()) {
            assert(ws.filter(p) == sub.push(ws.last()));
            assert(sub.push(ws.last()).map_values(f) =~= sub.map_values(f).push(f(ws.last())));
        } else {
            assert(ws.filter(p) == sub);
        }
    } else {
        assert(ws.filter(p).map_values(f) =~= Seq::<u64>::empty());
    }
}

proof fn lemma_filter_keeps_all(ws: Seq<Seq<char>>)
    requires
        forall|i: int| 0 <= i < ws.len() ==> parse_u64(#[trigger] ws[i]) is Some,
    ensures
        ws.filter(|w: Seq<char>| parse_u64(w) is Some) == ws,
    decreases ws.len(),
{
    reveal(Seq::filter);
    let p = |w: Seq<char>| parse_u64(w) is Some;
    if ws.len() > 0 {
        let init = ws.drop_last();
        assert forall|i: int| 0 <= i < init.len() implies parse_u64(#[trigger] init[i]) is Some by {
            assert(init[i] == ws[i]);
        }
        lemma_filter_keeps_all(init);
        assert(parse_u64(ws[ws.len() - 1]) is Some);
        assert(ws.filter(p) =~= init.push(ws.last()));
        assert(init.push(ws.last()) =~= ws);
    }
}

/// A data line whose words after the colon all read as numbers, nine or
/// more of them, yields its trimmed name and, unchanged, the values of the
/// first and the ninth of those words as the received and transmitted byte
/// counts.
pub proof fn lemma_dev_entry_counters(line: Seq<char>)
    requires
        split_once(trim(line), ':') is Some,
        words(split_once(trim(line), ':').unwrap().1).len() >= 9,
        forall|i: int|
            0 <= i < words(split_once(trim(line), ':').unwrap().1).len() ==> parse_u64(
                #[trigger] words(split_once(trim(line), ':').unwrap().1)[i],
            ) is Some,
    ensures
        ({
            let p = split_once(trim(line), ':').unwrap();
            let w = words(p.1);
            dev_entry(line) == Some(
                (trim(p.0), parse_u64(w[0]).unwrap(), parse_u64(w[8]).unwrap()),
            )
        }),
{
    let p = split_once(trim(line), ':').unwrap();
    let w = words(p.1);
    lemma_parsed_numbers_are_the_parses(w);
    lemma_filter_keeps_all(w);
    let f = |x: Seq<char>| parse_u64(x).unwrap();
    assert(parsed_numbers(w) == w.map_values(f));
    assert(parsed_numbers(w)[0] == f(w[0]));
    assert(parsed_numbers(w)[8] == f(w[8]));
}

/// One data line of `/proc/net/dev`: `name: rx_bytes … tx_bytes …`.
///
/// The line is trimmed and split at its first `':'`; the name is the trimmed
/// text before it. Of the words after it, those that read as numbers count as
/// fields; with at least nine of them, the first is the received and the
/// ninth the transmitted byte count. Any other line gives nothing.
pub open spec fn dev_entry(line: Seq<char>) -> Option<(Seq<char>, u64, u64)> {
    match split_once(trim(line), ':') {
        Some(p) => {
            let f = parsed_numbers(words(p.1));
            if f.len() >= 9 {
                Some((trim(p.0), f[0], f[8]))
            } else {
                None
            }
        },
        None => None,
    }
}

/// The entries of the lines `ls`, in order.
pub open spec fn dev_entries(ls: Seq<Seq<char>>) -> Seq<(Seq<char>, u64, u64)>
    decreases ls.len(),
{
    if ls.len() == 0 {
        Seq::empty()
    } else {
        let r = dev_entries(ls.drop_last());
        match dev_entry(ls.last()) {
            Some(e) => r.push(e),
            None => r,
        }
    }
}

/// The interfaces listed in the text of `/proc/net/dev`: two header lines,
/// then one line per interface.
pub open spec fn parse_dev(content: Seq<char>) -> Seq<(Seq<char>, u64, u64)> {
    dev_entries(skip_lines(lines(content), 2))
}

fn parse_numbers(ws: &Vec<Vec<char>>) -> (r: Vec<u64>)
    ensures
        r@ == parsed_numbers(views(ws@)),
{
    let mut r: Vec<u64> = Vec::new();
    let mut i: usize = 0;
    while i < ws.len()
        invariant
            i <= ws@.len(),
            r@ == parsed_numbers(views(ws@).take(i as int)),
        decreases ws@.len() - i,
    {
        let ghost pre = views(ws@).take(i as int);
        assert(views(ws@).take(i + 1).drop_last() =~= pre);
        assert(views(ws@).take(i + 1).last() == ws@[i as int]@);
        match parse_u64_chars(&ws[i]) {
            Some(v) => r.push(v),
            None => {},
        }
        i = i + 1;
    }
    assert(views(ws@).take(ws@.len() as int) =~= views(ws@));
    r
}

fn parse_dev_line(line: &Vec<char>) -> (r: Option<InterfaceStats>)
    ensures
        match dev_entry(line@) {
            Some(e) => r matches Some(s) && s@ == e,
            None => r is None,
        },
{
    let t = trim_chars(line, 0, line.len());
    assert(line@.subrange(0, line@.len() as int) =~= line@);
    match split_once_chars(&t, ':') {
        Some((name, data)) => {
            let ws = split_words(&data);
            let fields = parse_numbers(&ws);
            if fields.len() >= 9 {
                let n = trim_chars(&name, 0, name.len());
                assert(name@.subrange(0, name@.len() as int) =~= name@);
                Some(InterfaceStats { name: chars_to_string(&n), rx_bytes: fields[0], tx_bytes: fields[8] })
            } else {
                None
            }
        },
        None => None,
    }
}

/// Parses the text of `/proc/net/dev` into one record per interface line.
pub fn parse_dev_str(content: &str) -> (r: Vec<InterfaceStats>)
    ensures
        stats_views(r@) == parse_dev(content@),
{
    let cs = to_chars(content);
    let ls = split_lines(&cs);
    let ghost all = views(ls@);
    let mut r: Vec<InterfaceStats> = Vec::new();
    let mut i: usize = 2;
    while i < ls.len()
        invariant
            2 <= i,
            i < ls@.len() ==> i <= ls@.len(),
            all == views(ls@),
            ls@.len() > 2 ==> i <= ls@.len(),
            ls@.len() > 2 ==> stats_views(r@) == dev_entries(all.subrange(2, i as int)),
            ls@.len() <= 2 ==> r@.len() == 0,
        decreases ls@.len() - i,
    {
        let ghost pre = all.subrange(2, i as int);
        assert(all.subrange(2, i + 1).drop_last() =~= pre);
        assert(all.subrange(2, i + 1).last() == ls@[i as int]@);
        match parse_dev_line(&ls[i]) {
            Some(s) => {
                let ghost r0 = r@;
                r.push(s);
                assert(stats_views(r@) =~= stats_views(r0).push(s@));
            },
            None => {},
        }
        i = i + 1;
    }
    proof {
        if ls@.len() > 2 {
            assert(all.subrange(2, all.len() as int) =~= all.skip(2));
        } else {
            assert(stats_views(r@) =~= Seq::<(Seq<char>, u64, u64)>::empty());
        }
    }
    r
}

/// Every interface name read from `/proc/net/dev` is trimmed: it neither
/// starts nor ends with whitespace, and trimming it again changes nothing.
pub proof fn lemma_dev_names_trimmed(content: Seq<char>)
    ensures
        forall|i: int|
            0 <= i < parse_dev(content).len() ==> is_trimmed(#[trigger] parse_dev(content)[i].0)
                && trim(parse_dev(content)[i].0) == parse_dev(content)[i].0,
{
    lemma_entries_trimmed(skip_lines(lines(content), 2));
}

proof fn lemma_entries_trimmed(ls: Seq<Seq<char>>)
    ensures
        forall|i: int|
            0 <= i < dev_entries(ls).len() ==> is_trimmed(#[trigger] dev_entries(ls)[i].0) && trim(
                dev_entries(ls)[i].0,
            ) == dev_entries(ls)[i].0,
    decreases ls.len(),
{
    if ls.len() > 0 {
        lemma_entries_trimmed(ls.drop_last());
        let r = dev_entries(ls.drop_last());
        match dev_entry(ls.last()) {
            Some(e) => {
                let p = split_once(trim(ls.last()), ':').unwrap();
                lemma_trim_is_trimmed(p.0);
                assert forall|i: int| 0 <= i < r.push(e).len() implies is_trimmed(
                    #[trigger] r.push(e)[i].0,
                ) && trim(r.push(e)[i].0) == r.push(e)[i].0 by {
                    if i < r.len() {
                        assert(r.push(e)[i] == r[i]);
                    }
                }
            },
            None => {},
        }
    }
}

/// The first entry named `name`.
pub open spec fn find_entry(es: Seq<(Seq<char>, u64, u64)>, name: Seq<char>) -> Option<
    (Seq<char>, u64, u64),
>
    decreases es.len(),
{
    if es.len() == 0 {
        None
    } else if es[0].0 == name {
        Some(es[0])
    } else {
        find_entry(es.drop_first(), name)
    }
}

/// Why a lookup in the interface table failed.
#[derive(Debug, Clone)]
pub enum NetError {
    /// No line of `/proc/net/dev` names the interface.
    InterfaceNotFound(String),
}

impl NetError {
    /// The message for a reader.
    pub fn message(&self) -> (r: String)
        ensures
            self matches NetError::InterfaceNotFound(n) ==> r@ == "Interface '"@ + n@
                + "' not found in /proc/net/dev"@,
    {
        match self {
            NetError::InterfaceNotFound(n) => {
                let mut out: Vec<char> = Vec::new();
                push_str(&mut out, "Interface '");
                let nc = to_chars(n.as_str());
                push_chars(&mut out, &nc);
                push_str(&mut out, "' not found in /proc/net/dev");
                chars_to_string(&out)
            },
        }
    }
}

/// The counters of `interface`, from the text of `/proc/net/dev`.
pub fn get_interface_stats(content: &str, interface: &str) -> (r: Result<InterfaceStats, NetError>)
    ensures
        match find_entry(parse_dev(content@), interface@) {
            Some(e) => r matches Ok(s) && s@ == e,
            None => r matches Err(NetError::InterfaceNotFound(n)) && n@ == interface@,
        },
{
    let stats = parse_dev_str(content);
    let ghost es = parse_dev(content@);
    let want = to_chars(interface);
    assert(es.skip(0) =~= es);
    let mut i: usize = 0;
    while i < stats.len()
        invariant
            i <= stats@.len(),
            es == stats_views(stats@),
            es == parse_dev(content@),
            want@ == interface@,
            find_entry(es, interface@) == find_entry(es.skip(i as int), interface@),
        decreases stats@.len() - i,
    {
        let same = chars_eq_str(&want, stats[i].name.as_str());
        let ghost rest = es.skip(i as int);
        assert(rest[0] == stats@[i as int]@);
        assert(rest.drop_first() =~= es.skip(i + 1));
        if same {
            assert(rest[0].0 == interface@);
            assert(find_entry(rest, interface@) == Some(rest[0]));
            let found = InterfaceStats {
                name: chars_to_string(&want),
                rx_bytes: stats[i].rx_bytes,
                tx_bytes: stats[i].tx_bytes,
            };
            assert(found@ == rest[0]);
            return Ok(found);
        }
        i = i + 1;
    }
    assert(es.skip(i as int).len() == 0);
    Err(NetError::InterfaceNotFound(chars_to_string(&want)))
}

/// The loopback interface's name.
pub open spec fn loopback() -> Seq<char> {
    seq!['l', 'o']
}

/// The names of the entries other than the loopback interface, in order.
pub open spec fn non_loopback_names(es: Seq<(Seq<char>, u64, u64)>) -> Seq<Seq<char>>
    decreases es.len(),
{
    if es.len() == 0 {
        Seq::empty()
    } else {
        let r = non_loopback_names(es.drop_last());
        if es.last().0 == loopback() {
            r
        } else {
            r.push(es.last().0)
        }
    }
}

/// The interface list never holds the loopback interface, and every name on
/// it is the name of an entry of the table.
pub proof fn lemma_no_loopback_listed(es: Seq<(Seq<char>, u64, u64)>)
    ensures
        forall|i: int|
            0 <= i < non_loopback_names(es).len() ==> #[trigger] non_loopback_names(es)[i]
                != loopback() && exists|j: int| 0 <= j < es.len() && es[j].0 == non_loopback_names(
                es,
            )[i],
    decreases es.len(),
{
    if es.len() > 0 {
        let init = es.drop_last();
        lemma_no_loopback_listed(init);
        let r = non_loopback_names(init);
        assert forall|i: int| 0 <= i < non_loopback_names(es).len() implies #[trigger] non_loopback_names(es)[i]
            != loopback() && exists|j: int| 0 <= j < es.len() && es[j].0 == non_loopback_names(
            es,
        )[i] by {
            if i < r.len() {
                assert(non_loopback_names(es)[i] == r[i]);
                let j = choose|j: int| 0 <= j < init.len() && init[j].0 == r[i];
                assert(es[j] == init[j]);
            } else {
                assert(es[es.len() - 1].0 == non_loopback_names(es)[i]);
            }
        }
    }
}

/// The interface list is complete and in table order: it is the table's
/// names with only `lo` taken out, whatever the counters say.
pub proof fn lemma_listed_names_are_all_but_loopback(es: Seq<(Seq<char>, u64, u64)>)
    ensures
        non_loopback_names(es) == es.map_values(|e: (Seq<char>, u64, u64)| e.0).filter(
            |n: Seq<char>| n != loopback(),
        ),
        forall|j: int|
            0 <= j < es.len() && es[j].0 != loopback() ==> non_loopback_names(es).contains(
                #[trigger] es[j].0,
            ),
    decreases es.len(),
{
    reveal(Seq::filter);
    let names = es.map_values(|e: (Seq<char>, u64, u64)| e.0);
    let p = |n: Seq<char>| n != loopback();
    if es.len() > 0 {
        lemma_listed_names_are_all_but_loopback(es.drop_last());
        assert(names.drop_last() =~= es.drop_last().map_values(|e: (Seq<char>, u64, u64)| e.0));
        assert(names.last() == es.last().0);
    } else {
        assert(names.filter(p) =~= Seq::<Seq<char>>::empty());
    }
    assert forall|j: int| 0 <= j < es.len() && es[j].0 != loopback() implies non_loopback_names(
        es,
    ).contains(#[trigger] es[j].0) by {
        assert(names[j] == es[j].0);
        names.lemma_filter_contains(p, j);
    }
}

/// A successful lookup finds an entry with the name asked for.
pub proof fn lemma_find_entry_name(es: Seq<(Seq<char>, u64, u64)>, name: Seq<char>)
    ensures
        find_entry(es, name) matches Some(e) ==> e.0 == name && es.contains(e),
    decreases es.len(),
{
    if es.len() > 0 && es[0].0 != name {
        lemma_find_entry_name(es.drop_first(), name);
        if let Some(e) = find_entry(es, name) {
            let j = choose|j: int| 0 <= j < es.drop_first().len() && es.drop_first()[j] == e;
            assert(es[j + 1] == e);
        }
    } else if es.len() > 0 {
        assert(es[0] == es[0]);
        assert(es.contains(es[0]));
    }
}

/// A lookup succeeds exactly when some entry has the name, and then gives
/// the first such entry of the table.
pub proof fn lemma_find_entry_first(es: Seq<(Seq<char>, u64, u64)>, name: Seq<char>)
    ensures
        find_entry(es, name) is Some <==> exists|j: int| 0 <= j < es.len() && #[trigger] es[j].0
            == name,
        find_entry(es, name) matches Some(e) ==> exists|j: int|
            0 <= j < es.len() && #[trigger] es[j] == e && e.0 == name && forall|k: int|
                0 <= k < j ==> #[trigger] es[k].0 != name,
    decreases es.len(),
{
    if es.len() > 0 {
        let t = es.drop_first();
        lemma_find_entry_first(t, name);
        if es[0].0 == name {
            assert(es[0] == es[0]);
        } else {
            if exists|j: int| 0 <= j < es.len() && #[trigger] es[j].0 == name {
                let j = choose|j: int| 0 <= j < es.len() && #[trigger] es[j].0 == name;
                assert(t[j - 1].0 == name);
            }
            if exists|j: int| 0 <= j < t.len() && #[trigger] t[j].0 == name {
                let j = choose|j: int| 0 <= j < t.len() && #[trigger] t[j].0 == name;
                assert(es[j + 1].0 == name);
            }
            if let Some(e) = find_entry(es, name) {
                let j = choose|j: int|
                    0 <= j < t.len() && #[trigger] t[j] == e && e.0 == name && forall|k: int|
                        0 <= k < j ==> #[trigger] t[k].0 != name;
                assert(es[j + 1] == e);
                assert forall|k: int| 0 <= k < j + 1 implies #[trigger] es[k].0 != name by {
                    if k > 0 {
                        assert(es[k] == t[k - 1]);
                    }
                }
            }
        }
    }
}

/// The string views of a sequence of `String`s.
pub open spec fn string_views(v: Seq<String>) -> Seq<Seq<char>> {
    v.map_values(|s: String| s@)
}

/// The interfaces of `/proc/net/dev` other than `lo`, in the table's order.
pub fn list_interfaces(content: &str) -> (r: Vec<String>)
    ensures
        string_views(r@) == non_loopback_names(parse_dev(content@)),
{
    let stats = parse_dev_str(content);
    let ghost es = parse_dev(content@);
    let mut r: Vec<String> = Vec::new();
    let mut i: usize = 0;
    while i < stats.len()
        invariant
            i <= stats@.len(),
            es == stats_views(stats@),
            string_views(r@) == non_loopback_names(es.take(i as int)),
        decreases stats@.len() - i,
    {
        let ghost pre = es.take(i as int);
        assert(es.take(i + 1).drop_last() =~= pre);
        assert(es.take(i + 1).last() == stats@[i as int]@);
        let name = to_chars(stats[i].name.as_str());
        proof {
            reveal_strlit("lo");
            assert("lo"@ =~= loopback());
        }
        if !chars_eq_str(&name, "lo") {
            let ghost r0 = r@;
            r.push(chars_to_string(&name));
            assert(string_views(r@) =~= string_views(r0).push(name@));
        }
        i = i + 1;
    }
    assert(es.take(es.len() as int) =~= es);
    r
}

/// The bytes counted since `prev`, for each direction; a counter that went
/// back (the interface was reset) counts as zero.
pub fn traffic_delta(prev: &InterfaceStats, curr: &InterfaceStats) -> (r: (u64, u64))
    ensures
        r.0 == (if curr.rx_bytes >= prev.rx_bytes {
            curr.rx_bytes - prev.rx_bytes
        } else {
            0
        }),
        r.1 == (if curr.tx_bytes >= prev.tx_bytes {
            curr.tx_bytes - prev.tx_bytes
        } else {
            0
        }),
{
    (curr.rx_bytes.saturating_sub(prev.rx_bytes), curr.tx_bytes.saturating_sub(prev.tx_bytes))
}

/// The bytes moved between two readings of one interface's counters.
pub open spec fn delta_of(prev: InterfaceStats, curr: InterfaceStats) -> (u64, u64) {
    (
        if curr.rx_bytes >= prev.rx_bytes {
            (curr.rx_bytes - prev.rx_bytes) as u64
        } else {
            0
        },
        if curr.tx_bytes >= prev.tx_bytes {
            (curr.tx_bytes - prev.tx_bytes) as u64
        } else {
            0
        },
    )
}

/// One step of watching an interface's counters, given the previous reading
/// and the current one (`None` when it could not be read): the bytes moved
/// since the previous reading, when both exist, and the reading to compare
/// the next one with.
pub fn counter_step(prev: Option<InterfaceStats>, curr: Option<InterfaceStats>) -> (r: (
    Option<(u64, u64)>,
    Option<InterfaceStats>,
))
    ensures
        r.1 == curr,
        match (prev, curr) {
            (Some(p), Some(c)) => r.0 == Some(delta_of(p, c)),
            _ => r.0 is None,
        },
{
    let moved = match (&prev, &curr) {
        (Some(p), Some(c)) => Some(traffic_delta(p, c)),
        _ => None,
    };
    (moved, curr)
}

// ───────────────────────────── /proc/net/route ─────────────────────────────

/// The destination `00000000` (0.0.0.0) of the default route.
pub open spec fn default_destination() -> Seq<char> {
    seq!['0', '0', '0', '0', '0', '0', '0', '0']
}

/// The interface of the first line whose second column is the default
/// destination.
pub open spec fn route_default(ls: Seq<Seq<char>>) -> Option<Seq<char>>
    decreases ls.len(),
{
    if ls.len() == 0 {
        None
    } else {
        let w = words(ls[0]);
        if w.len() >= 2 && w[1] == default_destination() {
            Some(w[0])
        } else {
            route_default(ls.drop_first())
        }
    }
}

/// The default-route interface named in the text of `/proc/net/route`, whose
/// first line is a header.
pub open spec fn default_route_interface(content: Seq<char>) -> Option<Seq<char>> {
    route_default(skip_lines(lines(content), 1))
}

/// A routing-table line whose second column is the default destination.
pub open spec fn is_default_line(l: Seq<char>) -> bool {
    words(l).len() >= 2 && words(l)[1] == default_destination()
}

/// The default route found is that of the first line naming the default
/// destination, and there is one exactly when some line does.
pub proof fn lemma_route_default_first(ls: Seq<Seq<char>>)
    ensures
        route_default(ls) is Some <==> exists|j: int| 0 <= j < ls.len() && is_default_line(
            #[trigger] ls[j],
        ),
        route_default(ls) matches Some(n) ==> exists|j: int|
            0 <= j < ls.len() && is_default_line(#[trigger] ls[j]) && words(ls[j])[0] == n
                && forall|k: int| 0 <= k < j ==> !is_default_line(#[trigger] ls[k]),
    decreases ls.len(),
{
    if ls.len() > 0 {
        let t = ls.drop_first();
        lemma_route_default_first(t);
        if is_default_line(ls[0]) {
            assert(is_default_line(ls[0]));
        } else {
            if exists|j: int| 0 <= j < ls.len() && is_default_line(#[trigger] ls[j]) {
                let j = choose|j: int| 0 <= j < ls.len() && is_default_line(#[trigger] ls[j]);
                assert(t[j - 1] == ls[j]);
            }
            if exists|j: int| 0 <= j < t.len() && is_default_line(#[trigger] t[j]) {
                let j = choose|j: int| 0 <= j < t.len() && is_default_line(#[trigger] t[j]);
                assert(ls[j + 1] == t[j]);
            }
            if let Some(n) = route_default(ls) {
                let j = choose|j: int|
                    0 <= j < t.len() && is_default_line(#[trigger] t[j]) && words(t[j])[0] == n
                        && forall|k: int| 0 <= k < j ==> !is_default_line(#[trigger] t[k]);
                assert(ls[j + 1] == t[j]);
                assert forall|k: int| 0 <= k < j + 1 implies !is_default_line(#[trigger] ls[k]) by {
                    if k > 0 {
                        assert(ls[k] == t[k - 1]);
                    }
                }
            }
        }
    }
}

/// Finds the default-route interface in the text of `/proc/net/route`.
pub fn default_iface_from_route(content: &str) -> (r: Option<String>)
    ensures
        match default_route_interface(content@) {
            Some(n) => r matches Some(s) && s@ == n,
            None => r is None,
        },
{
    let cs = to_chars(content);
    let ls = split_lines(&cs);
    let ghost all = views(ls@);
    proof {
        reveal_strlit("00000000");
    }
    let mut i: usize = 1;
    while i < ls.len()
        invariant
            1 <= i,
            all == views(ls@),
            all == lines(content@),
            ls@.len() > 1 ==> i <= ls@.len(),
            ls@.len() > 1 ==> route_default(skip_lines(all, 1)) == route_default(
                all.subrange(i as int, all.len() as int),
            ),
            "00000000"@ == default_destination(),
        decreases ls@.len() - i,
    {
        let ghost rest = all.subrange(i as int, all.len() as int);
        proof {
            if i == 1 {
                assert(rest =~= all.skip(1));
            }
        }
        assert(rest[0] == ls@[i as int]@);
        assert(rest.drop_first() =~= all.subrange(i + 1, all.len() as int));
        let w = split_words(&ls[i]);
        if w.len() >= 2 {
            assert(views(w@)[1] == w@[1]@);
            assert(views(w@)[0] == w@[0]@);
            if chars_eq_str(&w[1], "00000000") {
                assert(words(rest[0]) == views(w@));
                assert(route_default(rest) == Some(w@[0]@));
                return Some(chars_to_string(&w[0]));
            }
        }
        i = i + 1;
    }
    proof {
        if ls@.len() > 1 {
            assert(all.subrange(i as int, all.len() as int).len() == 0);
        }
    }
    None
}

/// The interface to watch when none is named: the default-route interface of
/// the routing table `route`, or else the first interface other than `lo` in
/// the interface table `dev`.
pub open spec fn default_interface_of(route: Seq<char>, dev: Seq<char>) -> Option<Seq<char>> {
    match default_route_interface(route) {
        Some(n) => Some(n),
        None => {
            let names = non_loopback_names(parse_dev(dev));
            if names.len() > 0 {
                Some(names[0])
            } else {
                None
            }
        },
    }
}

/// Picks the interface to watch from the texts of `/proc/net/route` and
/// `/proc/net/dev`; `dev` matters only when `route` names no default route.
pub fn default_interface(route: &str, dev: &str) -> (r: Option<String>)
    ensures
        match default_interface_of(route@, dev@) {
            Some(n) => r matches Some(s) && s@ == n,
            None => r is None,
        },
{
    match default_iface_from_route(route) {
        Some(i) => Some(i),
        None => {
            let mut names = list_interfaces(dev);
            if names.len() > 0 {
                assert(string_views(names@)[0] == names@[0]@);
                Some(names.swap_remove(0))
            } else {
                None
            }
        },
    }
}

// ───────────────────────────── /sys/class/net ─────────────────────────────

/// The carrier file reads `0`: the link has no carrier.
pub open spec fn carrier_lost(carrier: Option<Seq<char>>) -> bool {
    carrier matches Some(c) && trim(c) == seq!['0']
}

/// The link state given the texts of an interface's `operstate` and (when it
/// could be read) `carrier` files.
pub fn interface_status_from_sys(operstate: &str, carrier: Option<&str>) -> (r: InterfaceStatus)
    ensures
        carrier_lost(opt_chars(carrier)) ==> r is NoCarrier,
        !carrier_lost(opt_chars(carrier)) ==> {
            if trim(operstate@) == "up"@ {
                r is Up
            } else if trim(operstate@) == "down"@ {
                r is Down
            } else {
                r matches InterfaceStatus::Unknown(s) && s@ == trim(operstate@)
            }
        },
{
    proof {
        reveal_strlit("0");
        assert("0"@ =~= seq!['0']);
    }
    match carrier {
        Some(c) => {
            let cc = to_chars(c);
            let t = trim_chars(&cc, 0, cc.len());
            assert(cc@.subrange(0, cc@.len() as int) =~= cc@);
            if chars_eq_str(&t, "0") {
                return InterfaceStatus::NoCarrier;
            }
        },
        None => {},
    }
    let oc = to_chars(operstate);
    let t = trim_chars(&oc, 0, oc.len());
    assert(oc@.subrange(0, oc@.len() as int) =~= oc@);
    if chars_eq_str(&t, "up") {
        InterfaceStatus::Up
    } else if chars_eq_str(&t, "down") {
        InterfaceStatus::Down
    } else {
        InterfaceStatus::Unknown(chars_to_string(&t))
    }
}

// ───────────────────────────── byte counts ─────────────────────────────

/// `2^k`.
pub open spec fn two_pow(k: nat) -> nat
    decreases k,
{
    if k == 0 {
        1
    } else {
        2 * two_pow((k - 1) as nat)
    }
}

/// `n / d` rounded to the nearest integer, a tie going to the even one.
pub open spec fn round_half_even(n: nat, d: nat) -> nat {
    let q = n / d;
    let r = n % d;
    if 2 * r > d || (2 * r == d && q % 2 == 1) {
        q + 1
    } else {
        q
    }
}

/// The exponent of the spacing of binary64 numbers around `n`: how often
/// `n` must be halved to fit in a 53-bit significand.
pub open spec fn f64_spacing_exp(n: nat) -> nat
    decreases n,
{
    if n < 0x20_0000_0000_0000 {
        0
    } else {
        1 + f64_spacing_exp(n / 2)
    }
}

/// The binary64 number nearest to `n`, a tie going to the even significand:
/// the value of `n as f64`.
pub open spec fn nearest_f64(n: nat) -> nat {
    let p = two_pow(f64_spacing_exp(n));
    round_half_even(n, p) * p
}

/// `t` tenths, written with one decimal place.
pub open spec fn tenths_text(t: nat) -> Seq<char> {
    decimal(t / 10) + seq!['.', digit_char(t % 10)]
}

/// `h` hundredths, written with two decimal places.
pub open spec fn hundredths_text(h: nat) -> Seq<char> {
    decimal(h / 100) + seq!['.', digit_char((h / 10) % 10), digit_char(h % 10)]
}

pub open spec fn kib() -> nat {
    1024
}

pub open spec fn mib() -> nat {
    1024 * 1024
}

pub open spec fn gib() -> nat {
    1024 * 1024 * 1024
}

/// A byte count for a reader: whole bytes below one KiB; otherwise the count
/// in KB (one decimal), MB or GB (two decimals) of 1024-based units, from the
/// binary64 value of the count divided by the unit, rounded half to even as
/// `{:.1}` and `{:.2}` do.
pub open spec fn bytes_text(b: nat) -> Seq<char> {
    if b < kib() {
        decimal(b) + seq![' ', 'B']
    } else if b < mib() {
        tenths_text(round_half_even(b * 10, kib())) + seq![' ', 'K', 'B']
    } else if b < gib() {
        hundredths_text(round_half_even(b * 100, mib())) + seq![' ', 'M', 'B']
    } else {
        hundredths_text(round_half_even(nearest_f64(b) * 100, gib())) + seq![' ', 'G', 'B']
    }
}

/// Rounding half to even lands within half a step of the exact quotient,
/// and on an even number when it is exactly halfway.
pub proof fn lemma_round_half_even_nearest(n: nat, d: nat)
    requires
        d > 0,
    ensures
        2 * n <= 2 * round_half_even(n, d) * d + d,
        2 * round_half_even(n, d) * d <= 2 * n + d,
        (2 * n == 2 * round_half_even(n, d) * d + d || 2 * round_half_even(n, d) * d == 2 * n + d)
            ==> round_half_even(n, d) % 2 == 0,
{
    let q = n / d;
    let r = n % d;
    vstd::arithmetic::div_mod::lemma_fundamental_div_mod(n as int, d as int);
    let k = round_half_even(n, d);
    assert(2 * k * d == 2 * (k * d)) by (nonlinear_arith);
    if k == q + 1 {
        assert(k * d == d * q + d) by (nonlinear_arith)
            requires
                k == q + 1,
        ;
    } else {
        assert(k * d == d * q) by (nonlinear_arith)
            requires
                k == q,
        ;
    }
}

fn round_half_even_exec(n: u128, d: u128) -> (r: u128)
    requires
        d > 0,
        n / d < u128::MAX,
    ensures
        r == round_half_even(n as nat, d as nat),
{
    let q = n / d;
    let rem = n % d;
    if rem > d - rem || (rem == d - rem && q % 2 == 1) {
        q + 1
    } else {
        q
    }
}

fn nearest_f64_value(n: u128) -> (v: u128)
    requires
        n <= u64::MAX,
    ensures
        v == nearest_f64(n as nat),
        v <= n + 4096,
{
    let mut m: u128 = n;
    let mut p: u128 = 1;
    let ghost mut k: nat = 0;
    while m >= 0x20_0000_0000_0000
        invariant
            p == two_pow(k),
            p >= 1,
            m == n / p,
            f64_spacing_exp(n as nat) == k + f64_spacing_exp(m as nat),
            p == 1 || p * 0x10_0000_0000_0000 <= n,
        decreases m,
    {
        proof {
            vstd::arithmetic::div_mod::lemma_div_denominator(n as int, p as int, 2);
            vstd::arithmetic::div_mod::lemma_fundamental_div_mod(n as int, p as int);
            assert(p * m <= n) by (nonlinear_arith)
                requires
                    n == p * (n / p) + n % p,
                    n % p >= 0,
                    m == n / p,
            ;
            assert(p * 2 * 0x10_0000_0000_0000 <= n) by (nonlinear_arith)
                requires
                    p * m <= n,
                    m >= 0x20_0000_0000_0000,
                    p >= 1,
            ;
        }
        m = m / 2;
        p = p * 2;
        proof {
            k = k + 1;
        }
    }
    proof {
        vstd::arithmetic::div_mod::lemma_fundamental_div_mod(n as int, p as int);
        assert(p <= 4096) by (nonlinear_arith)
            requires
                p == 1 || p * 0x10_0000_0000_0000 <= n,
                n <= u64::MAX,
        ;
    }
    let q = n / p;
    assert(q <= n) by (nonlinear_arith)
        requires
            p >= 1,
            q == n / p,
    ;
    let q2 = round_half_even_exec(n, p);
    assert(q2 * p <= n + p) by (nonlinear_arith)
        requires
            q2 <= q + 1,
            n == p * q + n % p,
            n % p >= 0,
            p >= 1,
    ;
    q2 * p
}

/// Appends `t` tenths with one decimal place.
fn push_tenths(out: &mut Vec<char>, t: u128)
    ensures
        final(out)@ == old(out)@ + tenths_text(t as nat),
{
    push_decimal(out, t / 10);
    out.push('.');
    out.push(digit(t % 10));
    assert(final(out)@ =~= old(out)@ + tenths_text(t as nat));
}

/// Appends `h` hundredths with two decimal places.
fn push_hundredths(out: &mut Vec<char>, h: u128)
    ensures
        final(out)@ == old(out)@ + hundredths_text(h as nat),
{
    push_decimal(out, h / 100);
    out.push('.');
    out.push(digit((h / 10) % 10));
    out.push(digit(h % 10));
    assert(final(out)@ =~= old(out)@ + hundredths_text(h as nat));
}

/// A byte count for a reader, such as `"1.5 KB"`.
pub fn format_bytes(bytes: u64) -> (r: String)
    ensures
        r@ == bytes_text(bytes as nat),
{
    let b = bytes as u128;
    let mut out: Vec<char> = Vec::new();
    if b < 1024 {
        push_decimal(&mut out, b);
        out.push(' ');
        out.push('B');
    } else if b < 1024 * 1024 {
        push_tenths(&mut out, round_half_even_exec(b * 10, 1024));
        out.push(' ');
        out.push('K');
        out.push('B');
    } else if b < 1024 * 1024 * 1024 {
        push_hundredths(&mut out, round_half_even_exec(b * 100, 1024 * 1024));
        out.push(' ');
        out.push('M');
        out.push('B');
    } else {
        let v = nearest_f64_value(b);
        push_hundredths(&mut out, round_half_even_exec(v * 100, 1024 * 1024 * 1024));
        out.push(' ');
        out.push('G');
        out.push('B');
    }
    assert(out@ =~= bytes_text(bytes as nat));
    chars_to_string(&out)
}

} // verus!
