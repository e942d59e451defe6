//! Numerals: decimal and hexadecimal numbers as text.

use vstd::prelude::*;
use vstd::string::*;
use vstd::utf8::*;

use crate::text;

verus! {

// ---------------------------------------------------------------------------
// Writing decimal numbers
// ---------------------------------------------------------------------------

/// The character of the decimal digit `d`.
pub open spec fn digit(d: int) -> char {
    (48 + d) as char
}

/// The decimal numeral of `n`, without leading zeros.
pub open spec fn decimal(n: nat) -> Seq<char>
    decreases n,
{
    if n < 10 {
        seq![digit(n as int)]
    } else {
        decimal(n / 10).push(digit((n % 10) as int))
    }
}

fn digit_char(d: u64) -> (c: char)
    requires
        d < 10,
    ensures
        c == digit(d as int),
{
    (48u8 + d as u8) as char
}

/// Append the decimal numeral of `n`.
pub fn push_decimal(out: &mut String, n: u64)
    ensures
        final(out)@ == old(out)@ + decimal(n as nat),
    decreases n,
{
    if n >= 10 {
        push_decimal(out, n / 10);
    }
    out.push(digit_char(n % 10));
    assert(out@ =~= old(out)@ + decimal(n as nat));
}

pub fn decimal_of(n: u64) -> (r: String)
    ensures
        r@ == decimal(n as nat),
{
    let mut r = String::new();
    push_decimal(&mut r, n);
    assert(Seq::<char>::empty() + decimal(n as nat) =~= decimal(n as nat));
    r
}

// ---------------------------------------------------------------------------
// Reading decimal numbers
// ---------------------------------------------------------------------------

pub open spec fn is_digit(c: char) -> bool {
    '0' <= c <= '9'
}

pub open spec fn all_digits(s: Seq<char>) -> bool {
    forall|i: int| 0 <= i < s.len() ==> is_digit(#[trigger] s[i])
}

/// The number that a sequence of decimal digits stands for.
pub open spec fn digits_value(s: Seq<char>) -> nat
    decreases s.len(),
{
    if s.len() == 0 {
        0
    } else {
        digits_value(s.drop_last()) * 10 + (s.last() as nat - 48) as nat
    }
}

/// The number written in `s`: one or more decimal digits.
pub open spec fn read_digits(s: Seq<char>) -> Option<nat> {
    if s.len() > 0 && all_digits(s) {
        Some(digits_value(s))
    } else {
        None
    }
}

/// The number written in `s`: decimal digits, after an optional plus sign.
pub open spec fn read_natural(s: Seq<char>) -> Option<nat> {
    if s.len() > 0 && s[0] == '+' {
        read_digits(s.drop_first())
    } else {
        read_digits(s)
    }
}

/// The number written in `s` where it is at most `max`.
pub open spec fn read_up_to(s: Seq<char>, max: nat) -> Option<nat> {
    match read_natural(s) {
        Some(n) => if n <= max {
            Some(n)
        } else {
            None
        },
        None => None,
    }
}

proof fn lemma_value_grows(s: Seq<char>, i: int)
    requires
        0 <= i <= s.len(),
        all_digits(s),
    ensures
        digits_value(s.take(i)) <= digits_value(s),
    decreases s.len() - i,
{
    if i == s.len() {
        assert(s.take(i) =~= s);
    } else {
        lemma_value_grows(s, i + 1);
        assert(s.take(i + 1).drop_last() =~= s.take(i));
    }
}

/// Read the digits `cs[from..]` as a number of at most `max`.
fn digits_from(cs: &Vec<char>, from: usize, max: u64) -> (r: Option<u64>)
    requires
        from <= cs@.len(),
    ensures
        match r {
            Some(n) => read_digits(cs@.skip(from as int)) == Some(n as nat) && n <= max,
            None => match read_digits(cs@.skip(from as int)) {
                Some(n) => n > max,
                None => true,
            },
        },
{
    let ghost t = cs@.skip(from as int);
    if from == cs.len() {
        return None;
    }
    let mut n: u64 = 0;
    let mut i: usize = from;
    while i < cs.len()
        invariant
            from <= i <= cs@.len(),
            t == cs@.skip(from as int),
            n == digits_value(t.take(i - from)),
            n <= max,
            forall|j: int| 0 <= j < i - from ==> is_digit(#[trigger] t[j]),
        decreases cs.len() - i,
    {
        let c = cs[i];
        assert(t[i - from] == c);
        if !('0' <= c && c <= '9') {
            assert(!is_digit(t[i - from]));
            return None;
        }
        let d: u64 = (c as u32 - 48) as u64;
        assert(t.take(i - from + 1).drop_last() =~= t.take(i - from));
        if d > max || n > max / 10 || n * 10 > max - d {
            proof {
                assert(digits_value(t.take(i - from + 1)) == n * 10 + d);
                assert(n * 10 + d > max);
                if all_digits(t) {
                    lemma_value_grows(t, i - from + 1);
                }
            }
            return None;
        }
        n = n * 10 + d;
        i += 1;
    }
    assert(t.take(i - from) =~= t);
    Some(n)
}

/// Read an unsigned decimal number of at most `max`.
pub fn parse_up_to(s: &str, max: u64) -> (r: Option<u64>)
    ensures
        match r {
            Some(n) => read_up_to(s@, max as nat) == Some(n as nat) && n <= max,
            None => read_up_to(s@, max as nat) is None,
        },
{
    let cs = text::chars_of(s);
    assert(cs@.skip(0) =~= cs@);
    assert(cs@.len() > 0 ==> cs@.skip(1) =~= cs@.drop_first());
    let from: usize = if cs.len() > 0 && cs[0] == '+' {
        1
    } else {
        0
    };
    digits_from(&cs, from, max)
}

/// Those of the texts that are 64-bit numbers, in their order.
pub open spec fn numbers(list: Seq<Seq<char>>) -> Seq<u64>
    decreases list.len(),
{
    if list.len() == 0 {
        Seq::empty()
    } else {
        let rest = numbers(list.drop_last());
        match read_up_to(list.last(), u64::MAX as nat) {
            Some(n) => rest.push(n as u64),
            None => rest,
        }
    }
}

pub fn numbers_of(list: &Vec<String>) -> (r: Vec<u64>)
    ensures
        r@ == numbers(text::texts(list@)),
{
    let mut out: Vec<u64> = Vec::new();
    let mut i: usize = 0;
    let ghost t = text::texts(list@);
    assert(t.take(0) =~= Seq::<Seq<char>>::empty());
    while i < list.len()
        invariant
            i <= list@.len(),
            t == text::texts(list@),
            out@ == numbers(t.take(i as int)),
        decreases list.len() - i,
    {
        assert(t.take(i + 1).drop_last() =~= t.take(i as int));
        assert(t.take(i + 1).last() == list@[i as int]@);
        if let Some(n) = parse_up_to(list[i].as_str(), u64::MAX) {
            out.push(n);
        }
        i += 1;
    }
    assert(t.take(i as int) =~= t);
    out
}

/// The integer written in `s`: decimal digits, after an optional sign.
pub open spec fn read_integer(s: Seq<char>) -> Option<int> {
    if s.len() > 0 && s[0] == '-' {
        match read_digits(s.drop_first()) {
            Some(n) => Some(-(n as int)),
            None => None,
        }
    } else {
        match read_natural(s) {
            Some(n) => Some(n as int),
            None => None,
        }
    }
}

/// The integer written in `s` where 32 bits hold it.
pub open spec fn read_i32(s: Seq<char>) -> Option<int> {
    match read_integer(s) {
        Some(n) => if i32::MIN <= n <= i32::MAX {
            Some(n)
        } else {
            None
        },
        None => None,
    }
}

pub fn parse_i32(s: &str) -> (r: Option<i32>)
    ensures
        match r {
            Some(n) => read_i32(s@) == Some(n as int),
            None => read_i32(s@) is None,
        },
{
    let cs = text::chars_of(s);
    assert(cs@.skip(0) =~= cs@);
    assert(cs@.len() > 0 ==> cs@.skip(1) =~= cs@.drop_first());
    if cs.len() > 0 && cs[0] == '-' {
        match digits_from(&cs, 1, 2_147_483_648) {
            Some(n) => Some((-(n as i64)) as i32),
            None => None,
        }
    } else {
        let from: usize = if cs.len() > 0 && cs[0] == '+' {
            1
        } else {
            0
        };
        match digits_from(&cs, from, 2_147_483_647) {
            Some(n) => Some(n as i32),
            None => None,
        }
    }
}

/// Reading back a decimal numeral gives the number that was written.
pub proof fn decimal_reads_back(n: nat)
    ensures
        read_natural(decimal(n)) == Some(n),
        decimal(n).len() > 0,
        all_digits(decimal(n)),
        digits_value(decimal(n)) == n,
    decreases n,
{
    if n < 10 {
        assert(decimal(n).drop_last() =~= Seq::<char>::empty());
        reveal_with_fuel(digits_value, 2);
    } else {
        decimal_reads_back(n / 10);
        let s = decimal(n);
        assert(s.drop_last() =~= decimal(n / 10));
        assert forall|i: int| 0 <= i < s.len() implies is_digit(#[trigger] s[i]) by {
            if i < s.len() - 1 {
                assert(s[i] == decimal(n / 10)[i]);
            }
        }
    }
    assert(is_digit(decimal(n)[0]));
}

// ---------------------------------------------------------------------------
// Hexadecimal
// ---------------------------------------------------------------------------

/// The lower-case hexadecimal digit of `d`.
pub open spec fn hex_digit(d: int) -> char {
    if d < 10 {
        (48 + d) as char
    } else {
        (87 + d) as char
    }
}

/// Each byte as two lower-case hexadecimal digits.
pub open spec fn hex(bytes: Seq<u8>) -> Seq<char> {
    Seq::new(
        bytes.len() * 2,
        |i: int|
            if i % 2 == 0 {
                hex_digit(bytes[i / 2] as int / 16)
            } else {
                hex_digit(bytes[i / 2] as int % 16)
            },
    )
}

fn hex_char(d: u8) -> (c: char)
    requires
        d < 16,
    ensures
        c == hex_digit(d as int),
{
    if d < 10 {
        (48 + d) as char
    } else {
        (87 + d) as char
    }
}

/// `bytes` in hexadecimal, two digits for each.
pub fn hex_encode(bytes: &[u8]) -> (r: String)
    ensures
        r@ == hex(bytes@),
{
    let mut r = String::new();
    let mut i: usize = 0;
    while i < bytes.len()
        invariant
            i <= bytes@.len(),
            r@ == hex(bytes@.take(i as int)),
        decreases bytes.len() - i,
    {
        let b: u8 = bytes[i];
        r.push(hex_char(b / 16));
        r.push(hex_char(b % 16));
        assert(r@ =~= hex(bytes@.take(i + 1)));
        i += 1;
    }
    assert(bytes@.take(i as int) =~= bytes@);
    r
}

/// The value of a hexadecimal digit of either case.
pub open spec fn hex_value(b: u8) -> Option<int> {
    if 48 <= b <= 57 {
        Some(b - 48)
    } else if 97 <= b <= 102 {
        Some(b - 87)
    } else if 65 <= b <= 70 {
        Some(b - 55)
    } else {
        None
    }
}

/// The byte that two characters stand for: two hexadecimal digits, or a plus
/// sign and one.
pub open spec fn hex_pair(a: u8, b: u8) -> Option<int> {
    match hex_value(b) {
        Some(y) => if a == 43 {
            Some(y)
        } else {
            match hex_value(a) {
                Some(x) => Some(16 * x + y),
                None => None,
            }
        },
        None => None,
    }
}

/// Do the first `n` pairs of `b` each stand for a byte?
pub open spec fn hex_pairs(b: Seq<u8>, n: int) -> bool {
    forall|k: int|
        0 <= k < n ==> (#[trigger] hex_pair(b[2 * k], b[2 * k + 1])) is Some
}

/// The bytes that the UTF-8 text `b` spells in hexadecimal.
pub open spec fn unhex(b: Seq<u8>) -> Option<Seq<u8>> {
    if b.len() % 2 == 0 && hex_pairs(b, b.len() as int / 2) {
        Some(Seq::new((b.len() / 2) as nat, |k: int| hex_pair(b[2 * k], b[2 * k + 1])->0 as u8))
    } else {
        None
    }
}

/// Would reading the UTF-8 text `b` two bytes at a time, up to its first pair
/// that is not hexadecimal, cut a character in two?
pub open spec fn cuts_character(b: Seq<u8>) -> bool {
    &&& b.len() % 2 == 0
    &&& exists|k: int|
        0 <= k && 2 * k + 2 < b.len() && hex_pairs(b, k) && is_continuation_byte(
            #[trigger] b[2 * k + 2],
        )
}

fn hex_digit_value(b: u8) -> (r: Option<u8>)
    ensures
        match r {
            Some(d) => d < 16 && hex_value(b) == Some(d as int),
            None => hex_value(b) is None,
        },
{
    if 48 <= b && b <= 57 {
        Some(b - 48)
    } else if 97 <= b && b <= 102 {
        Some(b - 87)
    } else if 65 <= b && b <= 70 {
        Some(b - 55)
    } else {
        None
    }
}

fn pair_value(a: u8, b: u8) -> (r: Option<u8>)
    ensures
        match r {
            Some(d) => hex_pair(a, b) == Some(d as int),
            None => hex_pair(a, b) is None,
        },
{
    match hex_digit_value(b) {
        Some(y) => if a == 43 {
            Some(y)
        } else {
            match hex_digit_value(a) {
                Some(x) => Some(16 * x + y),
                None => None,
            }
        },
        None => None,
    }
}

/// The bytes that `s` spells in hexadecimal; `None` where it spells none.
pub fn hex_decode(s: &str) -> (r: Option<Vec<u8>>)
    requires
        !cuts_character(encode_utf8(s@)),
    ensures
        match r {
            Some(bytes) => unhex(encode_utf8(s@)) == Some(bytes@),
            None => unhex(encode_utf8(s@)) is None,
        },
{
    let b = s.as_bytes();
    if b.len() % 2 != 0 {
        return None;
    }
    let mut out: Vec<u8> = Vec::new();
    let n: usize = b.len() / 2;
    let mut i: usize = 0;
    while i < n
        invariant
            i <= n,
            b@ == encode_utf8(s@),
            n * 2 == b@.len(),
            b@.len() <= usize::MAX,
            hex_pairs(b@, i as int),
            out@ == Seq::new(i as nat, |k: int| hex_pair(b@[2 * k], b@[2 * k + 1])->0 as u8),
        decreases n - i,
    {
        match pair_value(b[2 * i], b[2 * i + 1]) {
            Some(d) => {
                out.push(d);
            },
            None => {
                assert(hex_pair(b@[2 * i as int], b@[2 * i as int + 1]) is None);
                return None;
            },
        }
        i += 1;
        assert(out@ =~= Seq::new(
            i as nat,
            |k: int| hex_pair(b@[2 * k], b@[2 * k + 1])->0 as u8,
        ));
    }
    Some(out)
}

/// Would `hex_decode` cut a character of `s` in two?
pub fn hex_text_cuts_character(s: &str) -> (r: bool)
    ensures
        r == cuts_character(encode_utf8(s@)),
{
    let b = s.as_bytes();
    if b.len() % 2 != 0 {
        return false;
    }
    let n: usize = b.len() / 2;
    let mut i: usize = 0;
    while i < n
        invariant
            i <= n,
            b@ == encode_utf8(s@),
            n * 2 == b@.len(),
            b@.len() <= usize::MAX,
            hex_pairs(b@, i as int),
            forall|k: int|
                0 <= k < i && 2 * k + 2 < b@.len() ==> !is_continuation_byte(
                    #[trigger] b@[2 * k + 2],
                ),
        decreases n - i,
    {
        if i + 1 < n && 0x80 <= b[2 * i + 2] && b[2 * i + 2] <= 0xbf {
            assert(is_continuation_byte(b@[2 * (i as int) + 2]));
            return true;
        }
        if pair_value(b[2 * i], b[2 * i + 1]).is_none() {
            assert(hex_pair(b@[2 * i as int], b@[2 * i as int + 1]) is None);
            return false;
        }
        i += 1;
    }
    false
}

/// Is every character a decimal digit or one of `a` to `f`?
pub open spec fn is_lower_hex(s: Seq<char>) -> bool {
    forall|i: int| 0 <= i < s.len() ==> is_digit(#[trigger] s[i]) || 'a' <= s[i] <= 'f'
}

/// The hexadecimal form of bytes has two lower-case digits for each.
pub proof fn hex_has_two_digits_for_each_byte(bytes: Seq<u8>)
    ensures
        hex(bytes).len() == 2 * bytes.len(),
        is_lower_hex(hex(bytes)),
{
}

/// Decoding the hexadecimal form of some bytes gives them back, and reads
/// nothing but whole characters.
pub proof fn hex_decodes_back(bytes: Seq<u8>)
    ensures
        unhex(encode_utf8(hex(bytes))) == Some(bytes),
        !cuts_character(encode_utf8(hex(bytes))),
{
    let s = hex(bytes);
    assert forall|i: int| 0 <= i < s.len() implies (s[i] as u32) < 128 by {}
    is_ascii_chars_encode_utf8(s);
    let b = encode_utf8(s);
    assert forall|k: int| 0 <= k < bytes.len() implies (#[trigger] hex_pair(
        b[2 * k],
        b[2 * k + 1],
    )) == Some(bytes[k] as int) by {
        assert(s[2 * k] == hex_digit(bytes[k] as int / 16));
        assert(s[2 * k + 1] == hex_digit(bytes[k] as int % 16));
    }
    assert(unhex(b)->0 =~= bytes);
}

/// A number is read from one or more decimal digits, with or without a plus sign before
/// them, and from nothing else; it is read as far as it is not too great.
pub proof fn what_is_read_as_a_number(s: Seq<char>, max: nat)
    ensures
        s.len() > 0 && all_digits(s) ==> read_natural(s) == Some(digits_value(s))
            && read_natural(seq!['+'] + s) == Some(digits_value(s)),
        s.len() == 0 ==> read_natural(s) is None,
        read_natural(s) is Some ==> s.len() > 0 && (is_digit(s[0]) || s[0] == '+') && forall|i: int|
            1 <= i < s.len() ==> '0' <= #[trigger] s[i] <= '9',
        read_up_to(s, max) is Some <==> read_natural(s) is Some && read_natural(s)->0 <= max,
        read_up_to(s, max) is Some ==> read_up_to(s, max) == read_natural(s),
{
    let p = seq!['+'] + s;
    assert(p.drop_first() =~= s);
    if s.len() > 0 && all_digits(s) {
        assert(is_digit(s[0]));
    }
    if read_natural(s) is Some {
        if s[0] == '+' {
            assert forall|i: int| 1 <= i < s.len() implies '0' <= #[trigger] s[i] <= '9' by {
                assert(s.drop_first()[i - 1] == s[i]);
                assert(is_digit(s.drop_first()[i - 1]));
            }
        } else {
            assert(is_digit(s[0]));
            assert forall|i: int| 1 <= i < s.len() implies '0' <= #[trigger] s[i] <= '9' by {
                assert(is_digit(s[i]));
            }
        }
    }
}

/// A digit behind a number makes it ten times as much and that digit more.
pub proof fn each_digit_counts_ten_times_the_next(s: Seq<char>, d: nat)
    requires
        d < 10,
    ensures
        digits_value(Seq::<char>::empty()) == 0,
        digits_value(s.push((48 + d) as char)) == 10 * digits_value(s) + d,
        d >= 1 ==> decimal(d) == seq![(48 + d) as char],
        digits_value(s) > 0 ==> decimal(10 * digits_value(s) + d) == decimal(digits_value(s)).push(
            (48 + d) as char,
        ),
{
    let t = s.push((48 + d) as char);
    assert(t.drop_last() =~= s);
    let n = digits_value(s);
    assert((10 * n + d) / 10 == n && (10 * n + d) % 10 == d as int) by (nonlinear_arith)
        requires
            d < 10,
    ;
}

/// The numbers of a list are those of its texts that are 64-bit numbers: one more text
/// adds its number, if it is one, and nothing else.
pub proof fn a_text_adds_its_number(list: Seq<Seq<char>>, s: Seq<char>)
    ensures
        numbers(Seq::<Seq<char>>::empty()) == Seq::<u64>::empty(),
        read_natural(s) is Some && read_natural(s)->0 <= u64::MAX ==> numbers(list.push(s))
            == numbers(list).push(read_natural(s)->0 as u64),
        read_natural(s) is None || read_natural(s)->0 > u64::MAX ==> numbers(list.push(s))
            == numbers(list),
{
    assert(list.push(s).drop_last() =~= list);
}

/// Integers with and without a sign, as far as 32 bits hold them.
pub proof fn a_minus_sign_negates(n: nat)
    ensures
        n <= i32::MAX ==> read_i32(decimal(n)) == Some(n as int),
        n <= i32::MAX ==> read_i32(seq!['-'] + decimal(n)) == Some(-(n as int)),
        n > i32::MAX ==> read_i32(decimal(n)) is None,
        n > i32::MAX + 1 ==> read_i32(seq!['-'] + decimal(n)) is None,
{
    decimal_reads_back(n);
    let s = seq!['-'] + decimal(n);
    assert(s.drop_first() =~= decimal(n));
    assert(is_digit(decimal(n)[0]));
}

/// The hexadecimal digits of a byte: first that of its sixteens, then that of the rest.
pub proof fn the_two_digits_of_a_byte(bytes: Seq<u8>, b: u8)
    ensures
        hex(bytes.push(b)) == hex(bytes).push("0123456789abcdef"@[b as int / 16]).push(
            "0123456789abcdef"@[b as int % 16],
        ),
        hex(Seq::<u8>::empty()) == Seq::<char>::empty(),
{
    reveal_strlit("0123456789abcdef");
    let all = hex(bytes.push(b));
    let n = hex(bytes).len();
    assert(all.len() == n + 2);
    lemma_digit_of(b as int / 16);
    lemma_digit_of(b as int % 16);
    assert(all =~= hex(bytes).push(hex_digit(b as int / 16)).push(hex_digit(b as int % 16)));
}

proof fn lemma_digit_of(d: int)
    requires
        0 <= d < 16,
    ensures
        hex_digit(d) == "0123456789abcdef"@[d],
{
    reveal_strlit("0123456789abcdef");
}

/// A hexadecimal digit is read in either case, and nothing else is one.
pub proof fn which_bytes_are_hexadecimal_digits(b: u8)
    ensures
        hex_value(b) is Some <==> '0' as u8 <= b <= '9' as u8 || 'a' as u8 <= b <= 'f' as u8
            || 'A' as u8 <= b <= 'F' as u8,
        '0' as u8 <= b <= '9' as u8 ==> hex_value(b) == Some(b - '0' as u8),
        'a' as u8 <= b <= 'f' as u8 ==> hex_value(b) == Some(b - 'a' as u8 + 10),
        'A' as u8 <= b <= 'F' as u8 ==> hex_value(b) == Some(b - 'A' as u8 + 10),
{
}

} // verus!
