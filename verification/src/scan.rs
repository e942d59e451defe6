//! Scanning: the networks that `iw dev <name> scan` reports.
//!
//! A report is a line `BSS ...` followed by lines about the network it names.
//! Signal strengths are decimal fractions: [`signal_fields`] gives their texts,
//! and [`scan`] takes the numbers that they stand for, rounded towards zero.

use vstd::prelude::*;
use vstd::string::*;

use crate::command;
use crate::net;
use crate::order;
use crate::steps;
use crate::text;

verus! {

/// A network that was seen.
#[derive(Debug)]
pub struct ScanResult {
    pub ssid: String,
    pub signal_dbm: i32,
    pub secured: bool,
}

/// The values of a [`ScanResult`].
#[verifier::ext_equal]
pub struct ScanView {
    pub ssid: Seq<char>,
    pub signal_dbm: i32,
    pub secured: bool,
}

impl View for ScanResult {
    type V = ScanView;

    open spec fn view(&self) -> ScanView {
        ScanView { ssid: self.ssid@, signal_dbm: self.signal_dbm, secured: self.secured }
    }
}

/// Results are sorted by signal, strongest first.
impl order::Sortable for ScanResult {
    type Model = ScanView;

    open spec fn model(&self) -> ScanView {
        self@
    }

    open spec fn le(a: ScanView, b: ScanView) -> bool {
        a.signal_dbm >= b.signal_dbm
    }

    proof fn le_total(a: ScanView, b: ScanView) {
    }

    proof fn le_transitive(a: ScanView, b: ScanView, c: ScanView) {
    }

    fn at_most(&self, other: &ScanResult) -> (r: bool) {
        self.signal_dbm >= other.signal_dbm
    }
}

// ---------------------------------------------------------------------------
// Model
// ---------------------------------------------------------------------------

/// What a line of a report says, once trimmed.
pub enum LineView {
    /// A new report begins.
    Bss,
    /// The signal strength, as far as a word states it.
    Signal(Option<Seq<char>>),
    Ssid(Seq<char>),
    /// The network is secured.
    Secured,
    Other,
}

pub open spec fn line_meaning(line: Seq<char>) -> LineView {
    let t = text::trim(line);
    if "BSS "@.is_prefix_of(t) {
        LineView::Bss
    } else {
        match text::strip_prefix(t, "signal: "@) {
            Some(s) => LineView::Signal(text::first_word(s)),
            None => match text::strip_prefix(t, "SSID: "@) {
                Some(s) => LineView::Ssid(s),
                None => if "RSN:"@.is_prefix_of(t) || "WPA:"@.is_prefix_of(t) {
                    LineView::Secured
                } else {
                    LineView::Other
                },
            },
        }
    }
}

/// The texts of the signal strengths of a scan, one for each line that has one.
pub open spec fn signal_texts(lines: Seq<Seq<char>>) -> Seq<Option<Seq<char>>>
    decreases lines.len(),
{
    if lines.len() == 0 {
        Seq::empty()
    } else {
        let before = signal_texts(lines.drop_last());
        match line_meaning(lines.last()) {
            LineView::Signal(w) => before.push(w),
            _ => before,
        }
    }
}

/// A network without a stated signal counts as this weak.
pub const NO_SIGNAL: i32 = -100;

/// The reports read so far, and what is known of the one being read.
pub struct Reading {
    pub reports: Seq<ScanView>,
    pub ssid: Option<Seq<char>>,
    pub signal: i32,
    pub secured: bool,
}

/// The reports once the one being read is complete. One without a name is none.
pub open spec fn completed(r: Reading) -> Seq<ScanView> {
    match r.ssid {
        Some(name) => if name.len() == 0 {
            r.reports
        } else {
            r.reports.push(ScanView { ssid: name, signal_dbm: r.signal, secured: r.secured })
        },
        None => r.reports,
    }
}

/// The reading of these lines; `signals` are the numbers of their signal
/// strengths, where they are numbers.
pub open spec fn reading(lines: Seq<Seq<char>>, signals: Seq<Option<i32>>) -> Reading
    decreases lines.len(),
{
    if lines.len() == 0 {
        Reading { reports: Seq::empty(), ssid: None, signal: NO_SIGNAL, secured: false }
    } else {
        let r = reading(lines.drop_last(), signals);
        match line_meaning(lines.last()) {
            LineView::Bss => Reading {
                reports: completed(r),
                ssid: None,
                signal: NO_SIGNAL,
                secured: false,
            },
            LineView::Signal(_) => Reading {
                signal: match signals[signal_texts(lines.drop_last()).len() as int] {
                    Some(n) => n,
                    None => NO_SIGNAL,
                },
                ..r
            },
            LineView::Ssid(s) => Reading { ssid: Some(s), ..r },
            LineView::Secured => Reading { secured: true, ..r },
            LineView::Other => r,
        }
    }
}

/// The reports of a scan, in order.
pub open spec fn reports(raw: Seq<char>, signals: Seq<Option<i32>>) -> Seq<ScanView> {
    completed(reading(text::lines(raw), signals))
}

/// The index of the result for a network; the number of results where there is
/// none.
pub open spec fn index_of(results: Seq<ScanView>, ssid: Seq<char>) -> int
    decreases results.len(),
{
    if results.len() == 0 || results[0].ssid == ssid {
        0
    } else {
        1 + index_of(results.drop_first(), ssid)
    }
}

/// Take up a report: of two reports of a network the stronger one is kept.
pub open spec fn taken_up(results: Seq<ScanView>, report: ScanView) -> Seq<ScanView> {
    let i = index_of(results, report.ssid);
    if i < results.len() {
        if report.signal_dbm > results[i].signal_dbm {
            results.update(i, report)
        } else {
            results
        }
    } else {
        results.push(report)
    }
}

/// The strongest report of each network, in the order in which the networks
/// were first seen.
pub open spec fn strongest(reports: Seq<ScanView>) -> Seq<ScanView>
    decreases reports.len(),
{
    if reports.len() == 0 {
        Seq::empty()
    } else {
        taken_up(strongest(reports.drop_last()), reports.last())
    }
}

pub proof fn lemma_index_of(results: Seq<ScanView>, ssid: Seq<char>)
    ensures
        0 <= index_of(results, ssid) <= results.len(),
        index_of(results, ssid) < results.len() ==> results[index_of(results, ssid)].ssid == ssid,
        forall|i: int| 0 <= i < index_of(results, ssid) ==> (#[trigger] results[i]).ssid != ssid,
    decreases results.len(),
{
    if results.len() > 0 && results[0].ssid != ssid {
        let rest = results.drop_first();
        lemma_index_of(rest, ssid);
        assert forall|i: int| 0 <= i < index_of(results, ssid) implies (
        #[trigger] results[i]).ssid != ssid by {
            if i > 0 {
                assert(results[i] == rest[i - 1]);
            }
        }
    }
}

proof fn lemma_index_of_unique(results: Seq<ScanView>, ssid: Seq<char>, n: int)
    requires
        0 <= n <= results.len(),
        n < results.len() ==> results[n].ssid == ssid,
        forall|i: int| 0 <= i < n ==> (#[trigger] results[i]).ssid != ssid,
    ensures
        index_of(results, ssid) == n,
{
    lemma_index_of(results, ssid);
    let m = index_of(results, ssid);
    if n < m {
        assert(results[n].ssid != ssid);
    } else if m < n {
        assert(results[m].ssid != ssid);
    }
}

// ---------------------------------------------------------------------------
// Reading a scan
// ---------------------------------------------------------------------------

pub enum Line {
    Bss,
    Signal(Option<String>),
    Ssid(String),
    Secured,
    Other,
}

impl View for Line {
    type V = LineView;

    open spec fn view(&self) -> LineView {
        match self {
            Line::Bss => LineView::Bss,
            Line::Signal(w) => LineView::Signal(text::opt_text(*w)),
            Line::Ssid(s) => LineView::Ssid(s@),
            Line::Secured => LineView::Secured,
            Line::Other => LineView::Other,
        }
    }
}

/// What a line of a report says.
fn read_line(line: &str) -> (r: Line)
    ensures
        r@ == line_meaning(line@),
{
    let t = text::trimmed(line);
    if text::begins_with(t.as_str(), "BSS ") {
        return Line::Bss;
    }
    if let Some(s) = text::after_prefix(t.as_str(), "signal: ") {
        return Line::Signal(text::first_word_of(s.as_str()));
    }
    if let Some(s) = text::after_prefix(t.as_str(), "SSID: ") {
        return Line::Ssid(s);
    }
    if text::begins_with(t.as_str(), "RSN:") || text::begins_with(t.as_str(), "WPA:") {
        return Line::Secured;
    }
    Line::Other
}

pub open spec fn opt_texts(v: Seq<Option<String>>) -> Seq<Option<Seq<char>>> {
    Seq::new(v.len(), |i: int| text::opt_text(v[i]))
}

/// The texts of the signal strengths of a scan, one for each line that has one.
pub fn signal_fields(raw: &str) -> (r: Vec<Option<String>>)
    ensures
        opt_texts(r@) == signal_texts(text::lines(raw@)),
{
    let lines = text::lines_of(raw);
    let ghost all = text::texts(lines@);
    let mut out: Vec<Option<String>> = Vec::new();
    let mut i: usize = 0;
    assert(all.take(0) =~= Seq::<Seq<char>>::empty());
    assert(opt_texts(out@) =~= signal_texts(all.take(0)));
    while i < lines.len()
        invariant
            i <= lines@.len(),
            all == text::texts(lines@),
            opt_texts(out@) == signal_texts(all.take(i as int)),
        decreases lines.len() - i,
    {
        assert(all.take(i + 1).drop_last() =~= all.take(i as int));
        assert(all.take(i + 1).last() == lines@[i as int]@);
        let ghost before = opt_texts(out@);
        if let Line::Signal(w) = read_line(lines[i].as_str()) {
            out.push(w);
            assert(opt_texts(out@) =~= before.push(text::opt_text(w)));
        }
        i += 1;
    }
    assert(all.take(i as int) =~= all);
    out
}

/// Take up a report.
fn take_up(results: &mut Vec<ScanResult>, report: ScanResult)
    ensures
        order::models(final(results)@) == taken_up(order::models(old(results)@), report@),
{
    let ghost before = order::models(results@);
    let mut i: usize = 0;
    while i < results.len()
        invariant
            i <= results@.len(),
            results@ == old(results)@,
            before == order::models(results@),
            forall|k: int| 0 <= k < i ==> (#[trigger] before[k]).ssid != report@.ssid,
        decreases results.len() - i,
    {
        if text::same(results[i].ssid.as_str(), report.ssid.as_str()) {
            proof {
                lemma_index_of_unique(before, report@.ssid, i as int);
            }
            if report.signal_dbm > results[i].signal_dbm {
                results.set(i, report);
                assert(order::models(results@) =~= before.update(i as int, report@));
            }
            return;
        }
        i += 1;
    }
    proof {
        lemma_index_of_unique(before, report@.ssid, i as int);
    }
    results.push(report);
    assert(order::models(results@) =~= before.push(report@));
}

/// Complete the report being read.
fn flush(results: &mut Vec<ScanResult>, ssid: Option<String>, signal: i32, secured: bool)
    ensures
        order::models(final(results)@) == (match ssid {
            Some(name) => if name@.len() == 0 {
                order::models(old(results)@)
            } else {
                taken_up(
                    order::models(old(results)@),
                    ScanView { ssid: name@, signal_dbm: signal, secured },
                )
            },
            None => order::models(old(results)@),
        }),
{
    if let Some(name) = ssid {
        if !name.as_str().is_empty() {
            take_up(results, ScanResult { ssid: name, signal_dbm: signal, secured });
        }
    }
}

/// The networks that a scan reported, each once with its strongest report, the
/// strongest network first. `signals` are the numbers that the texts of
/// [`signal_fields`] stand for, where they stand for one.
pub fn scan(raw: &str, signals: &Vec<Option<i32>>) -> (r: Vec<ScanResult>)
    requires
        signals@.len() == signal_texts(text::lines(raw@)).len(),
    ensures
        order::stable_sort_of::<ScanResult>(
            order::models(r@),
            strongest(reports(raw@, signals@)),
        ),
{
    let lines = text::lines_of(raw);
    let ghost all = text::texts(lines@);
    let mut results: Vec<ScanResult> = Vec::new();
    let mut ssid: Option<String> = None;
    let mut signal: i32 = NO_SIGNAL;
    let mut secured: bool = false;
    let mut used: usize = 0;
    let mut i: usize = 0;
    assert(all.take(0) =~= Seq::<Seq<char>>::empty());
    assert(order::models(results@) =~= strongest(reading(all.take(0), signals@).reports));
    while i < lines.len()
        invariant
            i <= lines@.len(),
            all == text::texts(lines@),
            all == text::lines(raw@),
            signals@.len() == signal_texts(all).len(),
            used == signal_texts(all.take(i as int)).len(),
            order::models(results@) == strongest(
                reading(all.take(i as int), signals@).reports,
            ),
            text::opt_text(ssid) == reading(all.take(i as int), signals@).ssid,
            signal == reading(all.take(i as int), signals@).signal,
            secured == reading(all.take(i as int), signals@).secured,
        decreases lines.len() - i,
    {
        let ghost now = reading(all.take(i as int), signals@);
        proof {
            assert(all.take(i + 1).drop_last() =~= all.take(i as int));
            assert(all.take(i + 1).last() == lines@[i as int]@);
            lemma_signals_grow(all, i + 1);
        }
        match read_line(lines[i].as_str()) {
            Line::Bss => {
                flush(&mut results, ssid, signal, secured);
                proof {
                    lemma_completed(now);
                }
                ssid = None;
                signal = NO_SIGNAL;
                secured = false;
            },
            Line::Signal(_) => {
                assert(used < signals.len());
                signal = match signals[used] {
                    Some(n) => n,
                    None => NO_SIGNAL,
                };
                used += 1;
            },
            Line::Ssid(s) => {
                ssid = Some(s);
            },
            Line::Secured => {
                secured = true;
            },
            Line::Other => {},
        }
        i += 1;
    }
    assert(all.take(i as int) =~= all);
    flush(&mut results, ssid, signal, secured);
    proof {
        lemma_completed(reading(all, signals@));
    }
    order::stable_sort(results)
}

proof fn lemma_completed(r: Reading)
    ensures
        strongest(completed(r)) == (match r.ssid {
            Some(name) => if name.len() == 0 {
                strongest(r.reports)
            } else {
                taken_up(
                    strongest(r.reports),
                    ScanView { ssid: name, signal_dbm: r.signal, secured: r.secured },
                )
            },
            None => strongest(r.reports),
        }),
{
    if let Some(name) = r.ssid {
        if name.len() > 0 {
            let e = ScanView { ssid: name, signal_dbm: r.signal, secured: r.secured };
            assert(r.reports.push(e).drop_last() =~= r.reports);
        }
    }
}

proof fn lemma_signals_grow(lines: Seq<Seq<char>>, n: int)
    requires
        0 <= n <= lines.len(),
    ensures
        signal_texts(lines.take(n)).len() <= signal_texts(lines).len(),
    decreases lines.len() - n,
{
    if n == lines.len() {
        assert(lines.take(n) =~= lines);
    } else {
        lemma_signals_grow(lines, n + 1);
        assert(lines.take(n + 1).drop_last() =~= lines.take(n));
    }
}

// ---------------------------------------------------------------------------
// Asking for a scan
// ---------------------------------------------------------------------------

/// The steps before a scan, and the command whose output [`scan`] reads. An
/// interface that is not wireless is refused.
pub fn prepare_scan(iface: &str, names: &Vec<String>) -> (r: net::NetResult<
    (steps::Step, command::CommandLine),
>)
    ensures
        if text::texts(names@).contains(iface@) {
            &&& r matches Ok(p)
            &&& p.0@ == steps::may("ip"@, seq!["link"@, "set"@, iface@, "up"@])
            &&& p.1@ == (command::CommandView {
                program: "iw"@,
                args: seq!["dev"@, iface@, "scan"@],
            })
        } else {
            r matches Err(e) && e@ == "unknown wireless interface: "@ + iface@
        },
{
    match net::validate_iface(iface, names) {
        Ok(_) => {},
        Err(e) => {
            return Err(e);
        },
    }
    let up = command::command("ip", vec!["link", "set", iface, "up"]);
    assert(up@.args =~= seq!["link"@, "set"@, iface@, "up"@]);
    let ask = command::command("iw", vec!["dev", iface, "scan"]);
    assert(ask@.args =~= seq!["dev"@, iface@, "scan"@]);
    Ok((steps::Step::Run { command: up, required: false }, ask))
}

// ---------------------------------------------------------------------------
// Laws
// ---------------------------------------------------------------------------

/// No network is listed twice; each result is one of the reports; and every
/// reported network is listed, at least as strong as any of its reports.
pub proof fn each_network_is_listed_once_at_its_strongest(reports: Seq<ScanView>)
    ensures
        forall|i: int, j: int|
            0 <= i < j < strongest(reports).len() ==> (#[trigger] strongest(reports)[i]).ssid != (
            #[trigger] strongest(reports)[j]).ssid,
        forall|i: int|
            0 <= i < strongest(reports).len() ==> reports.contains(
                #[trigger] strongest(reports)[i],
            ),
        forall|k: int|
            0 <= k < reports.len() ==> {
                let i = index_of(strongest(reports), (#[trigger] reports[k]).ssid);
                i < strongest(reports).len() && strongest(reports)[i].signal_dbm
                    >= reports[k].signal_dbm
            },
    decreases reports.len(),
{
    if reports.len() > 0 {
        let front = reports.drop_last();
        let e = reports.last();
        each_network_is_listed_once_at_its_strongest(front);
        let old = strongest(front);
        let new = strongest(reports);
        lemma_index_of(old, e.ssid);
        let at = index_of(old, e.ssid);
        assert forall|i: int| 0 <= i < new.len() implies reports.contains(#[trigger] new[i]) by {
            if new[i] == e {
                assert(reports[reports.len() - 1] == e);
            } else {
                assert(new[i] == old[i]);
                assert(front.contains(old[i]));
                let k = choose|k: int| 0 <= k < front.len() && front[k] == old[i];
                assert(reports[k] == old[i]);
            }
        }
        assert forall|i: int, j: int| 0 <= i < j < new.len() implies (#[trigger] new[i]).ssid != (
        #[trigger] new[j]).ssid by {
            if j < old.len() {
                assert(old[i].ssid != old[j].ssid);
            } else {
                assert(old[i].ssid != e.ssid);
            }
        }
        assert forall|k: int| 0 <= k < reports.len() implies {
            let i = index_of(new, (#[trigger] reports[k]).ssid);
            i < new.len() && new[i].signal_dbm >= reports[k].signal_dbm
        } by {
            if k < front.len() {
                assert(reports[k] == front[k]);
                lemma_index_of(old, front[k].ssid);
                let i = index_of(old, front[k].ssid);
                assert forall|m: int| 0 <= m < i implies (#[trigger] new[m]).ssid
                    != reports[k].ssid by {
                    assert(old[m].ssid != front[k].ssid);
                }
                lemma_index_of_unique(new, reports[k].ssid, i);
            } else {
                assert forall|m: int| 0 <= m < at implies (#[trigger] new[m]).ssid != e.ssid by {
                    assert(old[m].ssid != e.ssid);
                }
                lemma_index_of_unique(new, e.ssid, at);
            }
        }
    }
}

/// The first of the reports of a network that none of its reports is stronger than.
pub open spec fn is_first_strongest(reports: Seq<ScanView>, k: int) -> bool {
    &&& 0 <= k < reports.len()
    &&& forall|j: int|
        0 <= j < reports.len() && (#[trigger] reports[j]).ssid == reports[k].ssid
            ==> reports[j].signal_dbm <= reports[k].signal_dbm
    &&& forall|j: int|
        0 <= j < k && (#[trigger] reports[j]).ssid == reports[k].ssid ==> reports[j].signal_dbm
            < reports[k].signal_dbm
}

/// Of the reports of a network that are equally strong and the strongest, the first
/// is the one that is listed.
pub proof fn the_first_of_the_strongest_is_listed(reports: Seq<ScanView>, i: int)
    requires
        0 <= i < strongest(reports).len(),
    ensures
        exists|k: int| #[trigger]
            is_first_strongest(reports, k) && reports[k] == strongest(reports)[i],
    decreases reports.len(),
{
    let front = reports.drop_last();
    let e = reports.last();
    let old = strongest(front);
    let new = strongest(reports);
    let last = reports.len() - 1;
    let at = index_of(old, e.ssid);
    lemma_index_of(old, e.ssid);
    each_network_is_listed_once_at_its_strongest(front);
    each_network_is_listed_once_at_its_strongest(reports);
    if i < old.len() && new[i] == old[i] && (i != at || e.signal_dbm <= old[i].signal_dbm) {
        the_first_of_the_strongest_is_listed(front, i);
        let k = choose|k: int| #[trigger] is_first_strongest(front, k) && front[k] == old[i];
        assert(reports[k] == front[k]);
        assert forall|j: int|
            0 <= j < reports.len() && (#[trigger] reports[j]).ssid
                == reports[k].ssid implies reports[j].signal_dbm <= reports[k].signal_dbm by {
            if j < last {
                assert(front[j] == reports[j]);
            } else if i != at {
                assert(old[at].ssid == e.ssid);
            }
        }
        assert forall|j: int|
            0 <= j < k && (#[trigger] reports[j]).ssid
                == reports[k].ssid implies reports[j].signal_dbm < reports[k].signal_dbm by {
            assert(front[j] == reports[j]);
        }
        assert(is_first_strongest(reports, k));
    } else {
        assert(new[i] == e);
        assert forall|j: int|
            0 <= j < last && (#[trigger] reports[j]).ssid
                == e.ssid implies reports[j].signal_dbm < e.signal_dbm by {
            assert(front[j] == reports[j]);
        }
        assert(is_first_strongest(reports, last));
    }
}

/// No report has an empty name.
pub proof fn every_report_has_a_name(lines: Seq<Seq<char>>, signals: Seq<Option<i32>>, k: int)
    ensures
        0 <= k < reading(lines, signals).reports.len() ==> reading(
            lines,
            signals,
        ).reports[k].ssid.len() > 0,
        0 <= k < completed(reading(lines, signals)).len() ==> completed(
            reading(lines, signals),
        )[k].ssid.len() > 0,
    decreases lines.len(),
{
    if lines.len() > 0 {
        every_report_has_a_name(lines.drop_last(), signals, k);
    }
}

proof fn lemma_line_words()
    ensures
        "BSS "@.len() == 4 && "BSS "@[0] == 'B',
        "signal: "@.len() == 8 && "signal: "@[0] == 's',
        "SSID: "@.len() == 6 && "SSID: "@[0] == 'S',
        "RSN:"@.len() == 4 && "RSN:"@[0] == 'R',
        "WPA:"@.len() == 4 && "WPA:"@[0] == 'W',
{
    reveal_strlit("BSS ");
    reveal_strlit("signal: ");
    reveal_strlit("SSID: ");
    reveal_strlit("RSN:");
    reveal_strlit("WPA:");
}

/// Does the line, trimmed, begin with `key`?
pub open spec fn begins(line: Seq<char>, key: Seq<char>) -> bool {
    key.is_prefix_of(text::trim(line))
}

/// What follows `key` in a line that, trimmed, begins with it.
pub open spec fn behind(line: Seq<char>, key: Seq<char>) -> Seq<char> {
    text::trim(line).skip(key.len() as int)
}

#[verifier::spinoff_prover]
#[verifier::rlimit(50)]
proof fn lemma_meaning(line: Seq<char>)
    ensures
        begins(line, "BSS "@) <==> line_meaning(line) is Bss,
        begins(line, "signal: "@) <==> line_meaning(line) is Signal,
        begins(line, "SSID: "@) <==> line_meaning(line) is Ssid,
        begins(line, "RSN:"@) || begins(line, "WPA:"@) <==> line_meaning(line) is Secured,
        begins(line, "SSID: "@) ==> line_meaning(line) == LineView::Ssid(behind(line, "SSID: "@)),
        begins(line, "signal: "@) ==> line_meaning(line) == LineView::Signal(
            text::first_word(behind(line, "signal: "@)),
        ),
{
    lemma_line_words();
    let t = text::trim(line);
    assert forall|key: Seq<char>| key.len() > 0 && #[trigger] key.is_prefix_of(t) implies t[0]
        == key[0] by {
        assert(t.subrange(0, key.len() as int)[0] == t[0]);
    }
}

/// What is read so far, one line further. A `BSS` line completes the report and begins a
/// fresh one; a `signal`, an `SSID`, an `RSN` or a `WPA` line says one thing of the
/// report and leaves the rest; any other line says nothing.
#[verifier::spinoff_prover]
#[verifier::rlimit(50)]
pub proof fn a_line_says_one_thing(
    lines: Seq<Seq<char>>,
    line: Seq<char>,
    signals: Seq<Option<i32>>,
)
    ensures
        ({
            let r = reading(lines, signals);
            let next = reading(lines.push(line), signals);
            &&& begins(line, "BSS "@) ==> {
                &&& next.reports == completed(r)
                &&& next.ssid is None
                &&& next.signal == -100
                &&& !next.secured
            }
            &&& !begins(line, "BSS "@) ==> next.reports == r.reports
            &&& begins(line, "SSID: "@) ==> next.ssid == Some(behind(line, "SSID: "@))
                && next.signal == r.signal && next.secured == r.secured
            &&& begins(line, "RSN:"@) || begins(line, "WPA:"@) ==> next.secured && next.ssid
                == r.ssid && next.signal == r.signal
            &&& begins(line, "signal: "@) ==> {
                &&& next.ssid == r.ssid
                &&& next.secured == r.secured
                &&& next.signal == (match signals[signal_texts(lines).len() as int] {
                    Some(n) => n,
                    None => -100i32,
                })
            }
            &&& !begins(line, "BSS "@) && !begins(line, "SSID: "@) && !begins(line, "RSN:"@)
                && !begins(line, "WPA:"@) && !begins(line, "signal: "@) ==> next == r
        }),
        signal_texts(lines.push(line)) == (if begins(line, "signal: "@) {
            signal_texts(lines).push(text::first_word(behind(line, "signal: "@)))
        } else {
            signal_texts(lines)
        }),
{
    lemma_meaning(line);
    assert(lines.push(line).drop_last() =~= lines);
}

proof fn lemma_own_lines(
    before: Seq<Seq<char>>,
    bss: Seq<char>,
    own: Seq<Seq<char>>,
    signals: Seq<Option<i32>>,
)
    requires
        own.len() > 0,
        forall|i: int| 0 <= i < own.len() ==> !begins(#[trigger] own[i], "BSS "@),
    ensures
        before.push(bss) + own == (before.push(bss) + own.drop_last()).push(own.last()),
        !begins(own.last(), "BSS "@),
        forall|i: int| 0 <= i < own.len() - 1 ==> #[trigger] own.drop_last()[i] == own[i],
        forall|i: int|
            0 <= i < own.len() - 1 ==> !begins(#[trigger] own.drop_last()[i], "BSS "@),
{
    assert(before.push(bss) + own =~= (before.push(bss) + own.drop_last()).push(own.last()));
    assert(own[own.len() - 1] == own.last());
    assert forall|i: int| 0 <= i < own.len() - 1 implies !begins(
        #[trigger] own.drop_last()[i],
        "BSS "@,
    ) by {
        assert(own.drop_last()[i] == own[i]);
    }
}

/// Does the line mark its network as secured?
pub open spec fn marks_secured(line: Seq<char>) -> bool {
    begins(line, "RSN:"@) || begins(line, "WPA:"@)
}

/// A report is secured exactly where one of its lines, from its `BSS` line to the next
/// or to the end, begins with `RSN:` or `WPA:`. The other lines do not matter, nor does
/// their order, and the reports before it stay as they were.
#[verifier::spinoff_prover]
#[verifier::rlimit(50)]
pub proof fn a_report_is_secured_if_a_line_says_so(
    before: Seq<Seq<char>>,
    bss: Seq<char>,
    own: Seq<Seq<char>>,
    signals: Seq<Option<i32>>,
)
    requires
        begins(bss, "BSS "@),
        forall|i: int| 0 <= i < own.len() ==> !begins(#[trigger] own[i], "BSS "@),
    ensures
        ({
            let r = reading(before.push(bss) + own, signals);
            &&& r.reports == completed(reading(before, signals))
            &&& r.secured <==> exists|i: int|
                0 <= i < own.len() && marks_secured(#[trigger] own[i])
        }),
    decreases own.len(),
{
    let head = before.push(bss);
    if own.len() == 0 {
        assert(head + own =~= head);
        a_line_says_one_thing(before, bss, signals);
    } else {
        let front = own.drop_last();
        lemma_own_lines(before, bss, own, signals);
        a_report_is_secured_if_a_line_says_so(before, bss, front, signals);
        a_line_says_one_thing(head + front, own.last(), signals);
        lemma_meaning(own.last());
        if exists|i: int| 0 <= i < own.len() && marks_secured(#[trigger] own[i]) {
            let i = choose|i: int| 0 <= i < own.len() && marks_secured(#[trigger] own[i]);
            if i < own.len() - 1 {
                assert(marks_secured(front[i]));
            }
        }
        if exists|i: int| 0 <= i < front.len() && marks_secured(#[trigger] front[i]) {
            let i = choose|i: int| 0 <= i < front.len() && marks_secured(#[trigger] front[i]);
            assert(marks_secured(own[i]));
        }
        assert(marks_secured(own.last()) ==> marks_secured(own[own.len() - 1]));
    }
}

/// The index of the last of the lines that begins with `key`; -1 where none does.
pub open spec fn last_with(lines: Seq<Seq<char>>, key: Seq<char>) -> int
    decreases lines.len(),
{
    if lines.len() == 0 {
        -1
    } else if begins(lines.last(), key) {
        lines.len() - 1
    } else {
        last_with(lines.drop_last(), key)
    }
}

proof fn lemma_last_with(lines: Seq<Seq<char>>, key: Seq<char>)
    ensures
        -1 <= last_with(lines, key) < lines.len(),
    decreases lines.len(),
{
    if lines.len() > 0 {
        lemma_last_with(lines.drop_last(), key);
    }
}

/// A report has the name that the last of its `SSID` lines gives, and none where there
/// is no such line; what else its lines say does not matter.
pub proof fn a_report_has_its_last_name(
    before: Seq<Seq<char>>,
    bss: Seq<char>,
    own: Seq<Seq<char>>,
    signals: Seq<Option<i32>>,
)
    requires
        begins(bss, "BSS "@),
        forall|i: int| 0 <= i < own.len() ==> !begins(#[trigger] own[i], "BSS "@),
    ensures
        reading(before.push(bss) + own, signals).ssid == (if last_with(own, "SSID: "@) >= 0 {
            Some(behind(own[last_with(own, "SSID: "@)], "SSID: "@))
        } else {
            None
        }),
    decreases own.len(),
{
    let head = before.push(bss);
    lemma_last_with(own, "SSID: "@);
    if own.len() == 0 {
        assert(head + own =~= head);
        a_line_says_one_thing(before, bss, signals);
    } else {
        let front = own.drop_last();
        lemma_own_lines(before, bss, own, signals);
        a_report_has_its_last_name(before, bss, front, signals);
        a_line_says_one_thing(head + front, own.last(), signals);
        lemma_meaning(own.last());
        lemma_last_with(front, "SSID: "@);
    }
}

/// A report has the strength that the last of its `signal` lines states, and -100 where
/// there is no such line or it states no number; what else its lines say does not
/// matter.
#[verifier::spinoff_prover]
#[verifier::rlimit(50)]
pub proof fn a_report_has_its_last_signal(
    before: Seq<Seq<char>>,
    bss: Seq<char>,
    own: Seq<Seq<char>>,
    signals: Seq<Option<i32>>,
)
    requires
        begins(bss, "BSS "@),
        forall|i: int| 0 <= i < own.len() ==> !begins(#[trigger] own[i], "BSS "@),
    ensures
        ({
            let k = last_with(own, "signal: "@);
            let r = reading(before.push(bss) + own, signals);
            if k >= 0 {
                r.signal == (match signals[signal_texts(before.push(bss) + own.take(k)).len()
                    as int] {
                    Some(n) => n,
                    None => -100i32,
                })
            } else {
                r.signal == -100
            }
        }),
    decreases own.len(),
{
    let head = before.push(bss);
    lemma_last_with(own, "signal: "@);
    if own.len() == 0 {
        assert(head + own =~= head);
        a_line_says_one_thing(before, bss, signals);
    } else {
        let front = own.drop_last();
        lemma_own_lines(before, bss, own, signals);
        a_report_has_its_last_signal(before, bss, front, signals);
        a_line_says_one_thing(head + front, own.last(), signals);
        lemma_meaning(own.last());
        lemma_last_with(front, "signal: "@);
        let k = last_with(own, "signal: "@);
        if k < own.len() - 1 && k >= 0 {
            assert(front.take(k) =~= own.take(k));
        } else if k >= 0 {
            assert(own.take(k) =~= front);
        }
    }
}

/// A report is listed exactly where it has a name, with that name, its strength and
/// whether it is secured.
pub proof fn a_named_report_is_taken(r: Reading)
    ensures
        match r.ssid {
            Some(name) => if name.len() > 0 {
                &&& completed(r).len() == r.reports.len() + 1
                &&& completed(r).drop_last() == r.reports
                &&& completed(r).last().ssid == name
                &&& completed(r).last().signal_dbm == r.signal
                &&& completed(r).last().secured == r.secured
            } else {
                completed(r) == r.reports
            },
            None => completed(r) == r.reports,
        },
{
    match r.ssid {
        Some(name) => {
            if name.len() > 0 {
                assert(completed(r).drop_last() =~= r.reports);
            }
        },
        None => {},
    }
}

/// In the list of networks a stronger one stands before a weaker one, and each is the
/// strongest of a network that was reported.
pub proof fn the_strongest_network_comes_first(
    list: Seq<ScanView>,
    reports: Seq<ScanView>,
    i: int,
    j: int,
)
    requires
        order::stable_sort_of::<ScanResult>(list, strongest(reports)),
        0 <= i < j < list.len(),
    ensures
        list[i].signal_dbm >= list[j].signal_dbm,
        reports.contains(list[i]),
        reports.contains(list[j]),
{
    assert(<ScanResult as order::Sortable>::le(list[i], list[j]));
    each_network_is_listed_once_at_its_strongest(reports);
    order::a_sort_keeps_the_elements::<ScanResult>(list, strongest(reports), list[i]);
    order::a_sort_keeps_the_elements::<ScanResult>(list, strongest(reports), list[j]);
    assert(list.contains(list[i]) && list.contains(list[j]));
}

/// A network that is seen for the first time is listed behind the others; one that was
/// seen before keeps its place.
pub proof fn networks_stand_where_they_were_first_seen(reports: Seq<ScanView>, e: ScanView, i: int)
    ensures
        ({
            let old = strongest(reports);
            let new = strongest(reports.push(e));
            &&& 0 <= i < old.len() ==> i < new.len() && new[i].ssid == old[i].ssid
            &&& new.len() == old.len() + if exists|k: int|
                0 <= k < old.len() && (#[trigger] old[k]).ssid == e.ssid {
                0int
            } else {
                1int
            }
            &&& new.len() > old.len() ==> new.last() == e
        }),
        strongest(Seq::<ScanView>::empty()).len() == 0,
{
    assert(reports.push(e).drop_last() =~= reports);
    let old = strongest(reports);
    lemma_index_of(old, e.ssid);
    if exists|k: int| 0 <= k < old.len() && (#[trigger] old[k]).ssid == e.ssid {
        let k = choose|k: int| 0 <= k < old.len() && (#[trigger] old[k]).ssid == e.ssid;
        if index_of(old, e.ssid) == old.len() {
            assert(old[k].ssid != e.ssid);
        }
    }
}

/// The reports of a scan are those that its lines tell, the last one included.
pub proof fn the_reports_of_a_scan(raw: Seq<char>, signals: Seq<Option<i32>>)
    ensures
        reports(raw, signals) == completed(reading(text::lines(raw), signals)),
        reading(Seq::<Seq<char>>::empty(), signals).reports.len() == 0,
        reading(Seq::<Seq<char>>::empty(), signals).ssid is None,
{
}

} // verus!
