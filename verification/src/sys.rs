//! System overview: model, memory, disk, processor times and per-interface byte
//! counters, as the kernel reports them.

use vstd::prelude::*;
use vstd::string::*;

use crate::numeral;
use crate::order;
use crate::text;

verus! {

/// What was received and sent on an interface so far. The rates follow from the
/// differences between two looks.
#[derive(Debug)]
pub struct NetCounters {
    pub iface: String,
    pub rx_bytes: u64,
    pub tx_bytes: u64,
}

/// The values of [`NetCounters`].
#[verifier::ext_equal]
pub struct CountersView {
    pub iface: Seq<char>,
    pub rx_bytes: u64,
    pub tx_bytes: u64,
}

impl View for NetCounters {
    type V = CountersView;

    open spec fn view(&self) -> CountersView {
        CountersView { iface: self.iface@, rx_bytes: self.rx_bytes, tx_bytes: self.tx_bytes }
    }
}

/// Counters are sorted by the name of the interface.
impl order::Sortable for NetCounters {
    type Model = CountersView;

    open spec fn model(&self) -> CountersView {
        self@
    }

    open spec fn le(a: CountersView, b: CountersView) -> bool {
        order::text_le(a.iface, b.iface)
    }

    proof fn le_total(a: CountersView, b: CountersView) {
        order::lemma_text_le_total(a.iface, b.iface);
    }

    proof fn le_transitive(a: CountersView, b: CountersView, c: CountersView) {
        order::lemma_text_le_transitive(a.iface, b.iface, c.iface);
    }

    fn at_most(&self, other: &NetCounters) -> (r: bool) {
        order::text_at_most(self.iface.as_str(), other.iface.as_str())
    }
}

// ---------------------------------------------------------------------------
// Model and uptime
// ---------------------------------------------------------------------------

/// The model that the device tree names, without the NULs at its end.
pub open spec fn model_of(contents: Option<Seq<char>>) -> Seq<char> {
    match contents {
        Some(s) => {
            let name = text::trim(text::trim_end_char(s, '\0'));
            if name.len() > 0 {
                name
            } else {
                "Unknown"@
            }
        },
        None => "Unknown"@,
    }
}

/// The model of the board, from the device tree's `model` file.
pub fn model(contents: Option<String>) -> (r: String)
    ensures
        r@ == model_of(text::opt_text(contents)),
{
    match contents {
        Some(s) => {
            let ended = text::trimmed_end_char(s.as_str(), '\0');
            let name = text::trimmed(ended.as_str());
            if name.as_str().is_empty() {
                "Unknown".to_string()
            } else {
                name
            }
        },
        None => "Unknown".to_string(),
    }
}

/// The word at `index` of a text.
pub open spec fn word_at(s: Seq<char>, index: int) -> Option<Seq<char>> {
    if index < text::words(s).len() {
        Some(text::words(s)[index])
    } else {
        None
    }
}

fn nth_word(s: &str, index: usize) -> (r: Option<String>)
    ensures
        text::opt_text(r) == word_at(s@, index as int),
{
    let list = text::words_of(s);
    if index < list.len() {
        assert(text::texts(list@)[index as int] == list@[index as int]@);
        Some(list[index].clone())
    } else {
        None
    }
}

/// The word of `/proc/uptime` that states the seconds since the boot.
pub fn uptime_field(contents: Option<String>) -> (r: Option<String>)
    ensures
        text::opt_text(r) == match contents {
            Some(s) => word_at(s@, 0),
            None => None,
        },
{
    match contents {
        Some(s) => nth_word(s.as_str(), 0),
        None => None,
    }
}

// ---------------------------------------------------------------------------
// Memory and disk
// ---------------------------------------------------------------------------

/// The first of `lines` that begins with `key`.
pub open spec fn line_with(lines: Seq<Seq<char>>, key: Seq<char>) -> Option<Seq<char>>
    decreases lines.len(),
{
    if lines.len() == 0 {
        None
    } else if key.is_prefix_of(lines[0]) {
        Some(lines[0])
    } else {
        line_with(lines.drop_first(), key)
    }
}

/// The number of kilobytes that the entry `key` of `/proc/meminfo` states; none
/// where there is no such entry or no such number.
pub open spec fn kilobytes(meminfo: Seq<char>, key: Seq<char>) -> nat {
    match line_with(text::lines(meminfo), key) {
        Some(line) => match word_at(line, 1) {
            Some(word) => match numeral::read_up_to(word, u64::MAX as nat) {
                Some(n) => n,
                None => 0,
            },
            None => 0,
        },
        None => 0,
    }
}

fn find_kilobytes(meminfo: &str, key: &str) -> (r: u64)
    ensures
        r == kilobytes(meminfo@, key@),
{
    let lines = text::lines_of(meminfo);
    let ghost all = text::lines(meminfo@);
    let mut i: usize = 0;
    assert(all.skip(0) =~= all);
    while i < lines.len()
        invariant
            i <= lines@.len(),
            all == text::lines(meminfo@),
            text::texts(lines@) == all,
            line_with(all, key@) == line_with(all.skip(i as int), key@),
        decreases lines.len() - i,
    {
        assert(all[i as int] == lines@[i as int]@);
        assert(all.skip(i as int)[0] == all[i as int]);
        if text::begins_with(lines[i].as_str(), key) {
            return match nth_word(lines[i].as_str(), 1) {
                Some(word) => match numeral::parse_up_to(word.as_str(), u64::MAX) {
                    Some(n) => n,
                    None => 0,
                },
                None => 0,
            };
        }
        assert(all.skip(i as int).drop_first() =~= all.skip(i + 1));
        i += 1;
    }
    0
}

/// Does an entry of `/proc/meminfo` state more than fits as a number of bytes?
pub open spec fn memory_overflows(meminfo: Seq<char>) -> bool {
    kilobytes(meminfo, "MemTotal:"@) * 1024 > u64::MAX || kilobytes(meminfo, "MemAvailable:"@)
        * 1024 > u64::MAX
}

pub fn mem_overflows(meminfo: &str) -> (r: bool)
    ensures
        r == memory_overflows(meminfo@),
{
    let most: u64 = u64::MAX / 1024;
    find_kilobytes(meminfo, "MemTotal:") > most || find_kilobytes(meminfo, "MemAvailable:") > most
}

/// What is left of `total` without `free`; nothing where `free` is more.
pub open spec fn used_of(total: int, free: int) -> int {
    if free <= total {
        total - free
    } else {
        0
    }
}

/// `(total_bytes, used_bytes)` of the memory, from `/proc/meminfo`.
pub fn mem(meminfo: &str) -> (r: (u64, u64))
    requires
        !memory_overflows(meminfo@),
    ensures
        r.0 == kilobytes(meminfo@, "MemTotal:"@) * 1024,
        r.1 == used_of(r.0 as int, (kilobytes(meminfo@, "MemAvailable:"@) * 1024) as int),
        r.1 <= r.0,
{
    let total: u64 = find_kilobytes(meminfo, "MemTotal:") * 1024;
    let available: u64 = find_kilobytes(meminfo, "MemAvailable:") * 1024;
    (total, total.saturating_sub(available))
}

/// Does the filesystem hold more bytes than can be counted?
pub fn disk_overflows(blocks: u64, available: u64, block_size: u64) -> (r: bool)
    ensures
        r == (blocks * block_size > u64::MAX || available * block_size > u64::MAX),
{
    blocks.checked_mul(block_size).is_none() || available.checked_mul(block_size).is_none()
}

/// `(total_bytes, used_bytes)` of a filesystem with so many blocks of a size, so
/// many of them available.
pub fn disk(blocks: u64, available: u64, block_size: u64) -> (r: (u64, u64))
    requires
        blocks * block_size <= u64::MAX,
        available * block_size <= u64::MAX,
    ensures
        r.0 == blocks * block_size,
        r.1 == used_of(blocks * block_size, available * block_size),
        r.1 <= r.0,
{
    let total: u64 = blocks * block_size;
    let free: u64 = available * block_size;
    (total, total.saturating_sub(free))
}

// ---------------------------------------------------------------------------
// Processor
// ---------------------------------------------------------------------------

pub open spec fn sum(v: Seq<u64>) -> int
    decreases v.len(),
{
    if v.len() == 0 {
        0
    } else {
        sum(v.drop_last()) + v.last()
    }
}

/// The times on the first line of `/proc/stat`, after its label.
pub open spec fn jiffies(stat: Option<Seq<char>>) -> Seq<u64> {
    match stat {
        Some(s) => if text::lines(s).len() > 0 && text::words(text::lines(s)[0]).len() > 0 {
            numeral::numbers(text::words(text::lines(s)[0]).drop_first())
        } else {
            Seq::empty()
        },
        None => Seq::empty(),
    }
}

/// The time at `index`: 0 where there is none.
pub open spec fn time_at(v: Seq<u64>, index: int) -> int {
    if index < v.len() {
        v[index] as int
    } else {
        0
    }
}

/// The times of the aggregate `cpu` line of `/proc/stat`: user, nice, system,
/// idle, iowait, irq, softirq, steal and what follows them.
pub fn cpu_line(stat: Option<String>) -> (r: Vec<u64>)
    ensures
        r@ == jiffies(text::opt_text(stat)),
{
    if let Some(s) = stat {
        let lines = text::lines_of(s.as_str());
        if lines.len() > 0 {
            assert(text::texts(lines@)[0] == lines@[0]@);
            let mut words = text::words_of(lines[0].as_str());
            if words.len() > 0 {
                let ghost all = text::texts(words@);
                words.remove(0);
                assert(text::texts(words@) =~= all.drop_first());
                return numeral::numbers_of(&words);
            }
        }
    }
    Vec::new()
}

proof fn lemma_sum_grows(v: Seq<u64>, i: int)
    requires
        0 <= i <= v.len(),
    ensures
        0 <= sum(v.take(i)) <= sum(v),
    decreases v.len() - i, i,
{
    if i == v.len() {
        assert(v.take(i) =~= v);
        if i > 0 {
            lemma_sum_grows(v.drop_last(), i - 1);
            assert(v.drop_last().take(i - 1) =~= v.drop_last());
        }
    } else {
        lemma_sum_grows(v, i + 1);
        assert(v.take(i + 1).drop_last() =~= v.take(i));
        lemma_sum_nonnegative(v.take(i));
    }
}

proof fn lemma_sum_nonnegative(v: Seq<u64>)
    ensures
        0 <= sum(v),
    decreases v.len(),
{
    if v.len() > 0 {
        lemma_sum_nonnegative(v.drop_last());
    }
}

/// Are the times more than can be added up?
pub fn cpu_overflows(times: &Vec<u64>) -> (r: bool)
    ensures
        r == (sum(times@) > u64::MAX),
{
    let mut total: u64 = 0;
    let mut i: usize = 0;
    assert(times@.take(0) =~= Seq::<u64>::empty());
    while i < times.len()
        invariant
            i <= times@.len(),
            total == sum(times@.take(i as int)),
        decreases times.len() - i,
    {
        assert(times@.take(i + 1).drop_last() =~= times@.take(i as int));
        if times[i] > u64::MAX - total {
            proof {
                lemma_sum_grows(times@, i + 1);
            }
            return true;
        }
        total = total + times[i];
        i += 1;
    }
    assert(times@.take(i as int) =~= times@);
    false
}

proof fn lemma_two_at_most_sum(v: Seq<u64>, i: int)
    requires
        0 <= i,
    ensures
        time_at(v, i) + time_at(v, i + 1) <= sum(v),
{
    lemma_sum_nonnegative(v);
    if i + 1 < v.len() {
        lemma_sum_grows(v, i + 2);
        assert(v.take(i + 2).drop_last() =~= v.take(i + 1));
        assert(v.take(i + 1).drop_last() =~= v.take(i));
        assert(sum(v.take(i + 2)) == sum(v.take(i + 1)) + v[i + 1]);
        assert(sum(v.take(i + 1)) == sum(v.take(i)) + v[i]);
        lemma_sum_nonnegative(v.take(i));
    } else if i < v.len() {
        lemma_sum_grows(v, i + 1);
        assert(v.take(i + 1).drop_last() =~= v.take(i));
        assert(sum(v.take(i + 1)) == sum(v.take(i)) + v[i]);
        lemma_sum_nonnegative(v.take(i));
    }
}

/// `(idle, total)` of the times: idle is what was spent idling and waiting for
/// input and output.
pub fn cpu_times(times: &Vec<u64>) -> (r: (u64, u64))
    requires
        sum(times@) <= u64::MAX,
    ensures
        r.0 == time_at(times@, 3) + time_at(times@, 4),
        r.1 == sum(times@),
        r.0 <= r.1,
{
    proof {
        lemma_two_at_most_sum(times@, 3);
    }
    let idle: u64 = if times.len() > 3 {
        times[3]
    } else {
        0
    };
    let waiting: u64 = if times.len() > 4 {
        times[4]
    } else {
        0
    };
    let mut total: u64 = 0;
    let mut i: usize = 0;
    assert(times@.take(0) =~= Seq::<u64>::empty());
    while i < times.len()
        invariant
            i <= times@.len(),
            sum(times@) <= u64::MAX,
            total == sum(times@.take(i as int)),
        decreases times.len() - i,
    {
        assert(times@.take(i + 1).drop_last() =~= times@.take(i as int));
        proof {
            lemma_sum_grows(times@, i + 1);
        }
        total = total + times[i];
        i += 1;
    }
    assert(times@.take(i as int) =~= times@);
    (idle + waiting, total)
}

/// How much the idle and the total time grew between two looks.
pub fn cpu_growth(first: (u64, u64), second: (u64, u64)) -> (r: (u64, u64))
    ensures
        r.0 == used_of(second.0 as int, first.0 as int),
        r.1 == used_of(second.1 as int, first.1 as int),
{
    (second.0.saturating_sub(first.0), second.1.saturating_sub(first.1))
}

// ---------------------------------------------------------------------------
// Network counters
// ---------------------------------------------------------------------------

/// An interface and what its two counter files say.
#[derive(Debug)]
pub struct CounterFiles {
    pub iface: String,
    pub rx_bytes: Option<String>,
    pub tx_bytes: Option<String>,
}

/// The number that a counter file states; 0 where it states none.
pub open spec fn counter(contents: Option<Seq<char>>) -> u64 {
    match contents {
        Some(s) => match numeral::read_up_to(text::trim(s), u64::MAX as nat) {
            Some(n) => n as u64,
            None => 0,
        },
        None => 0,
    }
}

fn read_counter(contents: Option<String>) -> (r: u64)
    ensures
        r == counter(text::opt_text(contents)),
{
    match contents {
        Some(s) => match numeral::parse_up_to(text::trimmed(s.as_str()).as_str(), u64::MAX) {
            Some(n) => n,
            None => 0,
        },
        None => 0,
    }
}

/// The counters of all interfaces but the loopback, in the order given.
pub open spec fn counters(entries: Seq<CounterFiles>) -> Seq<CountersView>
    decreases entries.len(),
{
    if entries.len() == 0 {
        Seq::empty()
    } else {
        let rest = counters(entries.drop_last());
        let e = entries.last();
        if e.iface@ == "lo"@ {
            rest
        } else {
            rest.push(
                CountersView {
                    iface: e.iface@,
                    rx_bytes: counter(text::opt_text(e.rx_bytes)),
                    tx_bytes: counter(text::opt_text(e.tx_bytes)),
                },
            )
        }
    }
}

/// The byte counters of all interfaces but the loopback, in the order of the
/// interfaces' names.
pub fn net_counters(entries: Vec<CounterFiles>) -> (r: Vec<NetCounters>)
    ensures
        order::stable_sort_of::<NetCounters>(order::models(r@), counters(entries@)),
{
    let ghost all = entries@;
    let mut rest: Vec<CounterFiles> = entries;
    let mut out: Vec<NetCounters> = Vec::new();
    let n: usize = rest.len();
    let mut done: usize = 0;
    assert(order::models(out@) =~= counters(all.take(0)));
    while done < n
        invariant
            done <= n == all.len(),
            rest@ == all.skip(done as int),
            order::models(out@) == counters(all.take(done as int)),
        decreases n - done,
    {
        let e = rest.remove(0);
        assert(e == all[done as int]);
        assert(rest@ =~= all.skip(done + 1));
        assert(all.take(done + 1).drop_last() =~= all.take(done as int));
        if !text::same(e.iface.as_str(), "lo") {
            let ghost before = out@;
            let counted = NetCounters {
                iface: e.iface,
                rx_bytes: read_counter(e.rx_bytes),
                tx_bytes: read_counter(e.tx_bytes),
            };
            out.push(counted);
            assert(order::models(out@) =~= order::models(before).push(counted@));
        }
        done += 1;
    }
    assert(all.take(done as int) =~= all);
    order::stable_sort(out)
}

// ---------------------------------------------------------------------------
// Laws
// ---------------------------------------------------------------------------

proof fn lemma_counters(entries: Seq<CounterFiles>, name: Seq<char>)
    ensures
        (exists|i: int| 0 <= i < counters(entries).len() && (#[trigger] counters(entries)[i]).iface == name)
            == (name != "lo"@ && exists|i: int|
            0 <= i < entries.len() && (#[trigger] entries[i]).iface@ == name),
    decreases entries.len(),
{
    if entries.len() > 0 {
        let front = entries.drop_last();
        let c = counters(entries);
        let f = counters(front);
        lemma_counters(front, name);
        if name != "lo"@ && exists|i: int|
            0 <= i < entries.len() && (#[trigger] entries[i]).iface@ == name {
            let i = choose|i: int|
                0 <= i < entries.len() && (#[trigger] entries[i]).iface@ == name;
            if i == entries.len() - 1 {
                assert(c[c.len() - 1].iface == name);
            } else {
                assert(front[i].iface@ == name);
                let j = choose|j: int| 0 <= j < f.len() && (#[trigger] f[j]).iface == name;
                assert(c[j] == f[j]);
            }
        }
        if exists|i: int| 0 <= i < c.len() && (#[trigger] c[i]).iface == name {
            let i = choose|i: int| 0 <= i < c.len() && (#[trigger] c[i]).iface == name;
            if i < f.len() {
                assert(f[i].iface == name);
                let j = choose|j: int|
                    0 <= j < front.len() && (#[trigger] front[j]).iface@ == name;
                assert(entries[j].iface@ == name);
            } else {
                assert(entries[entries.len() - 1].iface@ == name);
            }
        }
    }
}

/// Every interface has its counters in the overview, but for the loopback, which
/// never has.
pub proof fn all_but_the_loopback_are_counted(
    entries: Seq<CounterFiles>,
    list: Seq<CountersView>,
    name: Seq<char>,
)
    requires
        order::stable_sort_of::<NetCounters>(list, counters(entries)),
    ensures
        (exists|i: int| 0 <= i < list.len() && (#[trigger] list[i]).iface == name) == (name
            != "lo"@ && exists|i: int|
            0 <= i < entries.len() && (#[trigger] entries[i]).iface@ == name),
{
    lemma_counters(entries, name);
    let c = counters(entries);
    if exists|i: int| 0 <= i < list.len() && (#[trigger] list[i]).iface == name {
        let i = choose|i: int| 0 <= i < list.len() && (#[trigger] list[i]).iface == name;
        order::a_sort_keeps_the_elements::<NetCounters>(list, c, list[i]);
        let j = choose|j: int| 0 <= j < c.len() && c[j] == list[i];
        assert(c[j].iface == name);
    }
    if exists|i: int| 0 <= i < c.len() && (#[trigger] c[i]).iface == name {
        let i = choose|i: int| 0 <= i < c.len() && (#[trigger] c[i]).iface == name;
        order::a_sort_keeps_the_elements::<NetCounters>(list, c, c[i]);
        let j = choose|j: int| 0 <= j < list.len() && list[j] == c[i];
        assert(list[j].iface == name);
    }
}

/// The model is what the device tree names, without the NULs at its end and the
/// whitespace around it.
pub proof fn the_model_that_the_device_tree_names(name: Seq<char>)
    requires
        name.len() > 0,
        !text::is_whitespace(name[0]),
        !text::is_whitespace(name.last()),
        name.last() != '\0',
    ensures
        model_of(Some(name)) == name,
        model_of(Some(name.push('\0'))) == name,
        model_of(Some(seq![' '] + name.push('\n'))) == name,
        model_of(Some(Seq::<char>::empty())) == "Unknown"@,
        model_of(Some(seq!['\0'])) == "Unknown"@,
        model_of(None) == "Unknown"@,
{
    let none = Seq::<char>::empty();
    assert(none + name + none =~= name);
    text::trimming_takes_the_whitespace_at_both_ends(name, none, name, none);
    assert(name.push('\0').drop_last() =~= name);
    reveal_with_fuel(text::trim_end_char, 2);
    let padded = seq![' '] + name.push('\n');
    assert(padded =~= seq![' '] + name + seq!['\n']);
    assert(padded.last() == '\n');
    text::trimming_takes_the_whitespace_at_both_ends(padded, seq![' '], name, seq!['\n']);
    assert(seq!['\0'].drop_last() =~= none);
}

/// Of the lines that begin with a key the first one counts.
pub proof fn the_first_line_with_a_key_counts(
    before: Seq<Seq<char>>,
    key: Seq<char>,
    rest: Seq<char>,
    behind: Seq<Seq<char>>,
)
    requires
        forall|i: int| 0 <= i < before.len() ==> !key.is_prefix_of(#[trigger] before[i]),
    ensures
        line_with(before, key) is None,
        line_with(before.push(key + rest) + behind, key) == Some(key + rest),
    decreases before.len(),
{
    let all = before.push(key + rest) + behind;
    if before.len() == 0 {
        assert(all[0] == key + rest);
        assert((key + rest).subrange(0, key.len() as int) =~= key);
    } else {
        let others = before.drop_first();
        assert(!key.is_prefix_of(before[0]));
        assert forall|i: int| 0 <= i < others.len() implies !key.is_prefix_of(
            #[trigger] others[i],
        ) by {
            assert(others[i] == before[i + 1]);
        }
        the_first_line_with_a_key_counts(others, key, rest, behind);
        assert(all.drop_first() =~= others.push(key + rest) + behind);
        assert(all[0] == before[0]);
    }
}

/// An entry `key: n kB` states n kilobytes, wherever among the other entries it stands
/// and however much whitespace is before the number.
pub proof fn an_entry_states_its_kilobytes(
    meminfo: Seq<char>,
    before: Seq<Seq<char>>,
    key: Seq<char>,
    blank: Seq<char>,
    n: nat,
    unit: Seq<char>,
    behind: Seq<Seq<char>>,
)
    requires
        n <= u64::MAX,
        text::is_word(key),
        text::is_blank(blank),
        blank.len() > 0,
        unit.len() > 0 ==> text::is_whitespace(unit[0]),
        forall|i: int| 0 <= i < before.len() ==> !key.is_prefix_of(#[trigger] before[i]),
        text::lines(meminfo) == before.push(key + (blank + numeral::decimal(n) + unit)) + behind,
    ensures
        kilobytes(meminfo, key) == n,
{
    let d = numeral::decimal(n);
    numeral::decimal_reads_back(n);
    let rest = blank + d + unit;
    the_first_line_with_a_key_counts(before, key, rest, behind);
    assert(text::is_word(d)) by {
        assert forall|i: int| 0 <= i < d.len() implies !text::is_whitespace(#[trigger] d[i]) by {
            assert(numeral::is_digit(d[i]));
        }
    }
    let none = Seq::<char>::empty();
    assert(rest[0] == blank[0]);
    text::whitespace_separates_words(none, key, rest);
    assert(none + key + rest =~= key + rest);
    text::whitespace_separates_words(blank, d, unit);
    assert(text::words(key + rest)[1] == d);
}

/// What is used is what is left of the total without what is free, and nothing where
/// more is free than there is.
pub proof fn what_is_used_and_what_is_free_make_the_total(total: int, free: int)
    requires
        0 <= total,
        0 <= free,
    ensures
        free <= total ==> used_of(total, free) + free == total,
        free > total ==> used_of(total, free) == 0,
{
}

/// The processor times are the numbers of the first line, behind its label; the lines
/// after it do not matter.
pub proof fn the_first_line_has_the_processor_times(
    label: Seq<char>,
    rest: Seq<char>,
    others: Seq<char>,
)
    requires
        text::is_word(label),
        rest.len() > 0 ==> text::is_whitespace(rest[0]),
        text::is_line(label + rest),
    ensures
        jiffies(Some((label + rest).push('\n') + others)) == numeral::numbers(text::words(rest)),
        jiffies(Some(Seq::<char>::empty())).len() == 0,
        jiffies(None).len() == 0,
{
    let line = label + rest;
    text::where_lines_end(line, others);
    let none = Seq::<char>::empty();
    text::whitespace_separates_words(none, label, rest);
    assert(none + label + rest =~= line);
    assert(text::words(line).drop_first() =~= text::words(rest));
}

/// The total of the times is their sum, each once; the fourth and the fifth are those of
/// idling and of waiting.
pub proof fn the_times_add_up(times: Seq<u64>, more: u64)
    ensures
        sum(Seq::<u64>::empty()) == 0,
        sum(times.push(more)) == sum(times) + more,
        times.len() >= 5 ==> time_at(times, 3) == times[3] && time_at(times, 4) == times[4],
        times.len() == 4 ==> time_at(times, 3) == times[3] && time_at(times, 4) == 0,
        times.len() <= 3 ==> time_at(times, 3) == 0 && time_at(times, 4) == 0,
{
    assert(times.push(more).drop_last() =~= times);
}

/// A counter is the number that its file states, with any whitespace around it, and 0
/// where it states none; an interface has its own two counters.
pub proof fn an_interface_has_its_own_counters(
    entries: Seq<CounterFiles>,
    e: CounterFiles,
    n: nat,
)
    requires
        n <= u64::MAX,
    ensures
        counter(Some(numeral::decimal(n))) == n,
        counter(Some(numeral::decimal(n).push('\n'))) == n,
        counter(None) == 0,
        e.iface@ == "lo"@ ==> counters(entries.push(e)) == counters(entries),
        e.iface@ != "lo"@ ==> {
            let list = counters(entries.push(e));
            &&& list.drop_last() == counters(entries)
            &&& list.last().iface == e.iface@
            &&& list.last().rx_bytes == counter(text::opt_text(e.rx_bytes))
            &&& list.last().tx_bytes == counter(text::opt_text(e.tx_bytes))
        },
{
    let d = numeral::decimal(n);
    numeral::decimal_reads_back(n);
    let none = Seq::<char>::empty();
    assert(numeral::is_digit(d[0]) && numeral::is_digit(d[d.len() - 1]));
    assert(none + d + none =~= d);
    assert(d.push('\n') =~= none + d + seq!['\n']);
    text::trimming_takes_the_whitespace_at_both_ends(d, none, d, none);
    text::trimming_takes_the_whitespace_at_both_ends(d.push('\n'), none, d, seq!['\n']);
    assert(entries.push(e).drop_last() =~= entries);
    if e.iface@ != "lo"@ {
        assert(counters(entries.push(e)).drop_last() =~= counters(entries));
    }
}

/// In the overview the interfaces stand in the order of their names.
pub proof fn counters_are_listed_by_name(
    list: Seq<CountersView>,
    entries: Seq<CounterFiles>,
    i: int,
    j: int,
)
    requires
        order::stable_sort_of::<NetCounters>(list, counters(entries)),
        0 <= i < j < list.len(),
    ensures
        order::text_le(list[i].iface, list[j].iface),
{
    assert(<NetCounters as order::Sortable>::le(list[i], list[j]));
}

/// Words are counted from the first one on.
pub proof fn which_word_stands_where(s: Seq<char>, index: int)
    requires
        0 <= index,
    ensures
        word_at(s, index) is Some <==> index < text::words(s).len(),
        index < text::words(s).len() ==> word_at(s, index) == Some(text::words(s)[index]),
        word_at(s, 0) == text::first_word(s),
        memory_overflows(s) <==> kilobytes(s, "MemTotal:"@) > u64::MAX / 1024 || kilobytes(
            s,
            "MemAvailable:"@,
        ) > u64::MAX / 1024,
{
}

} // verus!
