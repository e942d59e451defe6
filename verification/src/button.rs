//! Button: an optional button that resets the box when it is held.
//!
//! The button is named `chip:line`. It is polled at a fixed interval; once it
//! was held long enough without a break, the box is reset.

use vstd::prelude::*;
use vstd::string::*;

use crate::numeral;
use crate::text;

verus! {

/// Milliseconds between two looks at the button.
pub const POLL_MS: u64 = 200;

/// The name of a chip: `gpiochip0`, `0` and `/dev/gpiochip0` mean the same.
pub open spec fn chip_name(chip: Seq<char>) -> Seq<char> {
    let c = text::strip_repeated(text::trim(chip), "/dev/"@);
    if "gpiochip"@.is_prefix_of(c) {
        c
    } else {
        "gpiochip"@ + text::trim(c)
    }
}

/// The chip and the line that `chip:line` names.
pub open spec fn chip_and_line(s: Seq<char>) -> Option<(Seq<char>, nat)> {
    match text::rsplit_once(s, ':') {
        Some((chip, line)) => match numeral::read_up_to(text::trim(line), u32::MAX as nat) {
            Some(n) => Some((chip_name(chip), n)),
            None => None,
        },
        None => None,
    }
}

/// Parse `chip:line`, accepting `gpiochip0:17`, `0:17`, or `/dev/gpiochip0:17`.
pub fn parse(s: &str) -> (r: Option<(String, u32)>)
    ensures
        match r {
            Some((chip, line)) => chip_and_line(s@) == Some((chip@, line as nat)),
            None => chip_and_line(s@) is None,
        },
{
    let (chip, line) = match text::cut_last(s, ':') {
        Some(p) => p,
        None => {
            return None;
        },
    };
    let chip = text::after_repeated(text::trimmed(chip.as_str()).as_str(), "/dev/");
    let chip = if text::begins_with(chip.as_str(), "gpiochip") {
        chip
    } else {
        let mut c = "gpiochip".to_string();
        c.append(text::trimmed(chip.as_str()).as_str());
        c
    };
    match numeral::parse_up_to(text::trimmed(line.as_str()).as_str(), u32::MAX as u64) {
        Some(n) => Some((chip, n as u32)),
        None => None,
    }
}

/// What the setting of the button means.
#[derive(Debug)]
pub enum ButtonSetup {
    /// There is no button.
    Disabled,
    /// The setting is not of the form `chip:line`.
    Invalid,
    /// The button is this line of this device.
    Watch { device: String, line: u32 },
}

/// Read the setting of the button.
pub fn setup(reset_button: &str) -> (r: ButtonSetup)
    ensures
        if text::trim(reset_button@).len() == 0 {
            r is Disabled
        } else {
            match chip_and_line(text::trim(reset_button@)) {
                Some((chip, n)) => r matches ButtonSetup::Watch { device, line } && device@
                    == "/dev/"@ + chip && line == n,
                None => r is Invalid,
            }
        },
{
    let spec_text = text::trimmed(reset_button);
    if spec_text.as_str().is_empty() {
        return ButtonSetup::Disabled;
    }
    match parse(spec_text.as_str()) {
        Some((chip, line)) => {
            let mut device = "/dev/".to_string();
            device.append(chip.as_str());
            ButtonSetup::Watch { device, line }
        },
        None => ButtonSetup::Invalid,
    }
}

/// How long the button was held, and how long it has to be, in milliseconds.
#[derive(Debug)]
pub struct HoldTimer {
    held: u64,
    need: u64,
}

/// How long a button has to be held, in milliseconds: at least a second.
pub open spec fn needed_ms(hold_secs: u64) -> int {
    if hold_secs == 0 {
        1000
    } else {
        hold_secs * 1000
    }
}

/// How long a button that was held for `held` is held after another look.
pub open spec fn ticked(held: int, active: bool) -> int {
    if active {
        held + POLL_MS
    } else {
        0
    }
}

/// Does another look find a button that was held for `held` held long enough?
pub open spec fn fires(held: int, need: int, active: bool) -> bool {
    active && ticked(held, active) >= need
}

impl HoldTimer {
    pub closed spec fn held(&self) -> int {
        self.held as int
    }

    pub closed spec fn need(&self) -> int {
        self.need as int
    }

    /// The button was not yet held long enough, and was held for a whole number
    /// of looks.
    pub open spec fn wf(&self) -> bool {
        &&& 0 <= self.held() < self.need()
        &&& self.held() % (POLL_MS as int) == 0
        &&& self.need() % (POLL_MS as int) == 0
    }

    /// A timer for a button that has to be held `hold_secs` seconds.
    pub fn new(hold_secs: u64) -> (r: HoldTimer)
        requires
            needed_ms(hold_secs) <= u64::MAX,
        ensures
            r.wf(),
            r.held() == 0,
            r.need() == needed_ms(hold_secs),
    {
        let secs: u64 = if hold_secs == 0 {
            1
        } else {
            hold_secs
        };
        HoldTimer { held: 0, need: secs * 1000 }
    }

    /// Take a look at the button: has it been held long enough now? Once it has,
    /// the timer has done its work. Letting go starts it afresh.
    pub fn tick(&mut self, active: bool) -> (r: bool)
        requires
            old(self).wf(),
        ensures
            final(self).need() == old(self).need(),
            final(self).held() == ticked(old(self).held(), active),
            r == fires(old(self).held(), old(self).need(), active),
            !r ==> final(self).wf(),
    {
        if active {
            self.held = self.held + POLL_MS;
            self.held >= self.need
        } else {
            self.held = 0;
            false
        }
    }
}

// ---------------------------------------------------------------------------
// Laws
// ---------------------------------------------------------------------------

/// For how many looks up to the last the button was held without a break.
pub open spec fn held_looks(looks: Seq<bool>) -> nat
    decreases looks.len(),
{
    if looks.len() == 0 || !looks.last() {
        0
    } else {
        held_looks(looks.drop_last()) + 1
    }
}

/// What a fresh timer holds after these looks.
pub open spec fn held_after(looks: Seq<bool>) -> int
    decreases looks.len(),
{
    if looks.len() == 0 {
        0
    } else {
        ticked(held_after(looks.drop_last()), looks.last())
    }
}

/// A fresh timer counts the looks since the button was last let go.
pub proof fn only_an_unbroken_hold_counts(looks: Seq<bool>)
    ensures
        held_after(looks) == held_looks(looks) * POLL_MS,
        held_looks(looks) <= looks.len(),
        forall|i: int|
            looks.len() - held_looks(looks) <= i < looks.len() ==> #[trigger] looks[i],
        held_looks(looks) < looks.len() ==> !looks[looks.len() - held_looks(looks) - 1],
    decreases looks.len(),
{
    if looks.len() > 0 && looks.last() {
        let front = looks.drop_last();
        only_an_unbroken_hold_counts(front);
        assert forall|i: int|
            looks.len() - held_looks(looks) <= i < looks.len() implies #[trigger] looks[i] by {
            if i < looks.len() - 1 {
                assert(front[i] == looks[i]);
            }
        }
        if held_looks(looks) < looks.len() {
            assert(front[front.len() - held_looks(front) - 1] == looks[looks.len() - held_looks(
                looks,
            ) - 1]);
        }
    }
}

/// Did the look at `i` find the button held long enough?
pub open spec fn fired_at(looks: Seq<bool>, need: int, i: int) -> bool {
    fires(held_after(looks.take(i)), need, looks[i])
}

/// The box is reset at the first look that ends an unbroken hold of the needed time:
/// after looks of which none fired, the next one fires exactly where, with it, the
/// button was held without a break for that long; and until then the timer is
/// sound.
pub proof fn the_first_long_hold_fires(looks: Seq<bool>, hold_secs: u64, active: bool)
    requires
        forall|i: int|
            0 <= i < looks.len() ==> !#[trigger] fired_at(looks, needed_ms(hold_secs), i),
    ensures
        fires(held_after(looks), needed_ms(hold_secs), active) <==> held_looks(looks.push(active))
            * POLL_MS >= needed_ms(hold_secs),
        0 <= held_after(looks) < needed_ms(hold_secs),
{
    let next = looks.push(active);
    assert(next.drop_last() =~= looks);
    only_an_unbroken_hold_counts(looks);
    only_an_unbroken_hold_counts(next);
    if looks.len() > 0 {
        let last = looks.len() - 1;
        assert(looks.take(last) =~= looks.drop_last());
        assert(!fired_at(looks, needed_ms(hold_secs), last));
    }
}

/// A button is named by its chip, in any of three ways, and the number of its line: the
/// bare number of the chip, its name, and its path mean the same.
#[verifier::spinoff_prover]
#[verifier::rlimit(50)]
pub proof fn three_names_of_a_button(chip: nat, line: nat)
    requires
        line <= u32::MAX,
    ensures
        ({
            let number = numeral::decimal(chip);
            let behind = ":"@ + numeral::decimal(line);
            let button = Some(("gpiochip"@ + number, line));
            &&& chip_and_line(number + behind) == button
            &&& chip_and_line("gpiochip"@ + number + behind) == button
            &&& chip_and_line("/dev/gpiochip"@ + number + behind) == button
        }),
{
    let number = numeral::decimal(chip);
    let digits = numeral::decimal(line);
    numeral::decimal_reads_back(chip);
    numeral::decimal_reads_back(line);
    reveal_strlit(":");
    reveal_strlit("gpiochip");
    reveal_strlit("/dev/gpiochip");
    reveal_strlit("/dev/");
    assert forall|i: int| 0 <= i < digits.len() implies digits[i] != ':' by {
        assert(numeral::is_digit(digits[i]));
    }
    lemma_no_blanks(digits);
    assert(numeral::is_digit(number[0]) && numeral::is_digit(number[number.len() - 1]));
    lemma_no_blanks(number);
    let name = "gpiochip"@ + number;
    let path = "/dev/gpiochip"@ + number;
    text::the_last_separator_cuts(number, ':', digits);
    text::the_last_separator_cuts(name, ':', digits);
    text::the_last_separator_cuts(path, ':', digits);
    assert(number + (":"@ + digits) =~= number.push(':') + digits);
    assert(name + (":"@ + digits) =~= name.push(':') + digits);
    assert(path + (":"@ + digits) =~= path.push(':') + digits);
    let none = Seq::<char>::empty();
    assert(name[0] == 'g' && name.last() == number.last());
    assert(path[0] == '/' && path.last() == number.last());
    assert(none + name + none =~= name && none + path + none =~= path);
    text::trimming_takes_the_whitespace_at_both_ends(name, none, name, none);
    text::trimming_takes_the_whitespace_at_both_ends(path, none, path, none);
    // The path without the directory is the name.
    assert(path =~= "/dev/"@ + name);
    text::stripping_repeatedly_strips_all(name, "/dev/"@);
    text::stripping_repeatedly_strips_all(number, "/dev/"@);
    assert(!"/dev/"@.is_prefix_of(name)) by {
        if "/dev/"@.is_prefix_of(name) {
            assert(name.subrange(0, 5)[0] == '/');
        }
    }
    assert(!"/dev/"@.is_prefix_of(number)) by {
        if "/dev/"@.is_prefix_of(number) {
            assert(number.subrange(0, 5)[0] == '/');
        }
    }
    assert(name.subrange(0, 8) =~= "gpiochip"@);
    assert(!"gpiochip"@.is_prefix_of(number)) by {
        if "gpiochip"@.is_prefix_of(number) {
            assert(number.subrange(0, 8)[0] == 'g');
        }
    }
}

proof fn lemma_no_blanks(digits: Seq<char>)
    requires
        digits.len() > 0,
        numeral::all_digits(digits),
    ensures
        text::trim(digits) == digits,
{
    let none = Seq::<char>::empty();
    assert(none + digits + none =~= digits);
    assert(numeral::is_digit(digits[0]) && numeral::is_digit(digits[digits.len() - 1]));
    text::trimming_takes_the_whitespace_at_both_ends(digits, none, digits, none);
}

/// A setting without a colon, or without a number behind its last colon, names no
/// button.
pub proof fn what_names_no_button(chip: Seq<char>, line: Seq<char>)
    requires
        !line.contains(':'),
    ensures
        chip_and_line(line) is None,
        chip_and_line(chip.push(':') + line) is Some <==> numeral::read_up_to(
            text::trim(line),
            u32::MAX as nat,
        ) is Some,
{
    text::the_last_separator_cuts(chip, ':', line);
}

/// A button has to be held the configured seconds, at least one; every look at it counts
/// a fifth of a second, and letting go counts anew.
pub proof fn how_long_a_button_has_to_be_held(hold_secs: u64, held: int)
    ensures
        needed_ms(hold_secs) == 1000 * if hold_secs < 1 {
            1int
        } else {
            hold_secs as int
        },
        ticked(held, true) == held + 200,
        ticked(held, false) == 0,
        !fires(held, needed_ms(hold_secs), false),
        fires(held, needed_ms(hold_secs), true) <==> held + 200 >= needed_ms(hold_secs),
{
}

} // verus!
