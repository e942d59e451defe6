//! Text: the string operations that the rest of the library is written in.
//!
//! A string is modelled as the sequence of its characters. Each operation has a
//! spec function over `Seq<char>` and an executable function of the same name
//! with an `_of` or verb form that returns exactly that value.

use vstd::prelude::*;
use vstd::string::*;
use vstd::utf8::*;

verus! {

// ---------------------------------------------------------------------------
// Characters and strings
// ---------------------------------------------------------------------------

/// `String::push` appends one character to the end of the string.
pub assume_specification[ String::push ](s: &mut String, c: char)
    ensures
        final(s)@ == old(s)@.push(c),
;

/// The texts that a list of strings holds.
pub open spec fn texts(v: Seq<String>) -> Seq<Seq<char>> {
    Seq::new(v.len(), |i: int| v[i]@)
}

/// The text of an optional string.
pub open spec fn opt_text(o: Option<String>) -> Option<Seq<char>> {
    match o {
        Some(s) => Some(s@),
        None => None,
    }
}

/// The error of a result, if it is one.
pub open spec fn fault_of(r: Result<(), String>) -> Option<Seq<char>> {
    match r {
        Ok(_) => None,
        Err(e) => Some(e@),
    }
}

pub proof fn lemma_texts_push(v: Seq<String>, s: String)
    ensures
        texts(v.push(s)) == texts(v).push(s@),
{
    assert(texts(v.push(s)) =~= texts(v).push(s@));
}

/// The characters of `s`, in order.
pub fn chars_of(s: &str) -> (r: Vec<char>)
    ensures
        r@ == s@,
{
    let mut r: Vec<char> = Vec::new();
    for c in it: s.chars()
        invariant
            it.seq() == s@,
            r@ == it.seq().take(it.index()),
    {
        r.push(c);
        assert(r@ =~= it.seq().take(it.index() + 1));
    }
    assert(s@.take(s@.len() as int) =~= s@);
    r
}

/// The string that holds the characters `from..to` of `chars`.
pub fn string_of(chars: &Vec<char>, from: usize, to: usize) -> (r: String)
    requires
        from <= to <= chars@.len(),
    ensures
        r@ == chars@.subrange(from as int, to as int),
{
    let mut r = String::new();
    let mut i: usize = from;
    while i < to
        invariant
            from <= i <= to <= chars@.len(),
            r@ == chars@.subrange(from as int, i as int),
        decreases to - i,
    {
        r.push(chars[i]);
        assert(r@ =~= chars@.subrange(from as int, i + 1));
        i += 1;
    }
    r
}

/// Are the two texts equal?
pub fn same(a: &str, b: &str) -> (r: bool)
    ensures
        r == (a@ == b@),
{
    let x = chars_of(a);
    let y = chars_of(b);
    if x.len() != y.len() {
        return false;
    }
    let mut i: usize = 0;
    while i < x.len()
        invariant
            i <= x@.len() == y@.len(),
            x@ == a@,
            y@ == b@,
            forall|j: int| 0 <= j < i ==> x@[j] == y@[j],
        decreases x.len() - i,
    {
        if x[i] != y[i] {
            return false;
        }
        i += 1;
    }
    assert(x@ =~= y@);
    true
}

/// The number of bytes of the UTF-8 form of `s`.
pub fn byte_len(s: &str) -> (r: usize)
    ensures
        r == encode_utf8(s@).len(),
{
    s.as_bytes().len()
}

/// Does the text hold the character `c`?
pub fn has_char(s: &str, c: char) -> (r: bool)
    ensures
        r == s@.contains(c),
{
    let cs = chars_of(s);
    let mut i: usize = 0;
    while i < cs.len()
        invariant
            i <= cs@.len(),
            cs@ == s@,
            forall|j: int| 0 <= j < i ==> cs@[j] != c,
        decreases cs.len() - i,
    {
        if cs[i] == c {
            assert(s@[i as int] == c);
            return true;
        }
        i += 1;
    }
    false
}

// ---------------------------------------------------------------------------
// Whitespace and trimming
// ---------------------------------------------------------------------------

/// The characters with the Unicode property `White_Space`.
pub open spec fn is_whitespace(c: char) -> bool {
    let u = c as u32;
    ||| 0x09 <= u <= 0x0d
    ||| u == 0x20
    ||| u == 0x85
    ||| u == 0xa0
    ||| u == 0x1680
    ||| 0x2000 <= u <= 0x200a
    ||| u == 0x2028
    ||| u == 0x2029
    ||| u == 0x202f
    ||| u == 0x205f
    ||| u == 0x3000
}

pub fn whitespace(c: char) -> (r: bool)
    ensures
        r == is_whitespace(c),
{
    let u = c as u32;
    (0x09 <= u && u <= 0x0d) || u == 0x20 || u == 0x85 || u == 0xa0 || u == 0x1680 || (0x2000 <= u
        && u <= 0x200a) || u == 0x2028 || u == 0x2029 || u == 0x202f || u == 0x205f || u == 0x3000
}

/// `s` without its leading whitespace.
pub open spec fn trim_start(s: Seq<char>) -> Seq<char>
    decreases s.len(),
{
    if s.len() > 0 && is_whitespace(s[0]) {
        trim_start(s.drop_first())
    } else {
        s
    }
}

/// `s` without its trailing whitespace.
pub open spec fn trim_end(s: Seq<char>) -> Seq<char>
    decreases s.len(),
{
    if s.len() > 0 && is_whitespace(s.last()) {
        trim_end(s.drop_last())
    } else {
        s
    }
}

/// `s` without its leading and trailing whitespace.
pub open spec fn trim(s: Seq<char>) -> Seq<char> {
    trim_end(trim_start(s))
}

/// How many leading characters of `cs[from..]` are whitespace, as the index
/// that follows them.
fn skip_whitespace(cs: &Vec<char>, from: usize) -> (r: usize)
    requires
        from <= cs@.len(),
    ensures
        from <= r <= cs@.len(),
        cs@.skip(r as int) == trim_start(cs@.skip(from as int)),
        r < cs@.len() ==> !is_whitespace(cs@[r as int]),
{
    let mut i: usize = from;
    while i < cs.len() && whitespace(cs[i])
        invariant
            from <= i <= cs@.len(),
            trim_start(cs@.skip(i as int)) == trim_start(cs@.skip(from as int)),
        decreases cs.len() - i,
    {
        assert(cs@.skip(i as int).drop_first() =~= cs@.skip(i + 1));
        i += 1;
    }
    i
}

pub fn trimmed(s: &str) -> (r: String)
    ensures
        r@ == trim(s@),
{
    let cs = chars_of(s);
    assert(cs@.skip(0) =~= cs@);
    let from = skip_whitespace(&cs, 0);
    let mut to: usize = cs.len();
    assert(cs@.subrange(from as int, to as int) =~= cs@.skip(from as int));
    while to > from && whitespace(cs[to - 1])
        invariant
            from <= to <= cs@.len(),
            trim_end(cs@.subrange(from as int, to as int)) == trim(cs@),
        decreases to,
    {
        assert(cs@.subrange(from as int, to as int).drop_last() =~= cs@.subrange(
            from as int,
            to - 1,
        ));
        assert(cs@.subrange(from as int, to as int).last() == cs@[to - 1]);
        to -= 1;
    }
    assert(to > from ==> cs@.subrange(from as int, to as int).last() == cs@[to - 1]);
    string_of(&cs, from, to)
}

/// `s` without the characters `c` at its end.
pub open spec fn trim_end_char(s: Seq<char>, c: char) -> Seq<char>
    decreases s.len(),
{
    if s.len() > 0 && s.last() == c {
        trim_end_char(s.drop_last(), c)
    } else {
        s
    }
}

pub fn trimmed_end_char(s: &str, c: char) -> (r: String)
    ensures
        r@ == trim_end_char(s@, c),
{
    let cs = chars_of(s);
    let mut to: usize = cs.len();
    assert(cs@.subrange(0, to as int) =~= cs@);
    while to > 0 && cs[to - 1] == c
        invariant
            to <= cs@.len(),
            trim_end_char(cs@.subrange(0, to as int), c) == trim_end_char(s@, c),
        decreases to,
    {
        assert(cs@.subrange(0, to as int).drop_last() =~= cs@.subrange(0, to - 1));
        to -= 1;
    }
    string_of(&cs, 0, to)
}

// ---------------------------------------------------------------------------
// Prefixes and substrings
// ---------------------------------------------------------------------------

/// Does `p` stand in `cs` at index `at`?
fn stands_at(cs: &Vec<char>, at: usize, p: &Vec<char>) -> (r: bool)
    requires
        at <= cs@.len(),
    ensures
        r == p@.is_prefix_of(cs@.skip(at as int)),
{
    if p.len() > cs.len() - at {
        return false;
    }
    let mut i: usize = 0;
    while i < p.len()
        invariant
            i <= p@.len() <= cs.len() - at,
            at <= cs.len(),
            forall|j: int| 0 <= j < i ==> p@[j] == cs@[at + j],
        decreases p.len() - i,
    {
        if p[i] != cs[at + i] {
            assert(cs@.skip(at as int).subrange(0, p@.len() as int)[i as int] == cs@[at + i]);
            return false;
        }
        i += 1;
    }
    assert(p@ =~= cs@.skip(at as int).subrange(0, p@.len() as int));
    true
}

/// Does `s` begin with `p`?
pub fn begins_with(s: &str, p: &str) -> (r: bool)
    ensures
        r == p@.is_prefix_of(s@),
{
    let cs = chars_of(s);
    let ps = chars_of(p);
    assert(cs@.skip(0) =~= cs@);
    stands_at(&cs, 0, &ps)
}

/// What follows the prefix `p` of `s`, if `s` begins with it.
pub open spec fn strip_prefix(s: Seq<char>, p: Seq<char>) -> Option<Seq<char>> {
    if p.is_prefix_of(s) {
        Some(s.skip(p.len() as int))
    } else {
        None
    }
}

pub fn after_prefix(s: &str, p: &str) -> (r: Option<String>)
    ensures
        opt_text(r) == strip_prefix(s@, p@),
{
    let cs = chars_of(s);
    let ps = chars_of(p);
    assert(cs@.skip(0) =~= cs@);
    if stands_at(&cs, 0, &ps) {
        let r = string_of(&cs, ps.len(), cs.len());
        assert(cs@.subrange(ps@.len() as int, cs@.len() as int) =~= cs@.skip(ps@.len() as int));
        Some(r)
    } else {
        None
    }
}

/// What precedes the suffix `p` of `s`, if `s` ends with it.
pub open spec fn strip_suffix(s: Seq<char>, p: Seq<char>) -> Option<Seq<char>> {
    if p.is_suffix_of(s) {
        Some(s.take(s.len() - p.len()))
    } else {
        None
    }
}

pub fn before_suffix(s: &str, p: &str) -> (r: Option<String>)
    ensures
        opt_text(r) == strip_suffix(s@, p@),
{
    let cs = chars_of(s);
    let ps = chars_of(p);
    if ps.len() > cs.len() {
        return None;
    }
    let at: usize = cs.len() - ps.len();
    if stands_at(&cs, at, &ps) {
        assert(cs@.skip(at as int).subrange(0, ps@.len() as int) =~= cs@.subrange(
            at as int,
            cs@.len() as int,
        ));
        Some(string_of(&cs, 0, at))
    } else {
        assert(cs@.skip(at as int).subrange(0, ps@.len() as int) =~= cs@.subrange(
            at as int,
            cs@.len() as int,
        ));
        None
    }
}

/// `s` without every leading repetition of `p`.
pub open spec fn strip_repeated(s: Seq<char>, p: Seq<char>) -> Seq<char>
    decreases s.len(),
{
    if p.len() > 0 && p.is_prefix_of(s) {
        strip_repeated(s.skip(p.len() as int), p)
    } else {
        s
    }
}

pub fn after_repeated(s: &str, p: &str) -> (r: String)
    ensures
        r@ == strip_repeated(s@, p@),
{
    let cs = chars_of(s);
    let ps = chars_of(p);
    let mut at: usize = 0;
    assert(cs@.skip(0) =~= cs@);
    while ps.len() > 0 && stands_at(&cs, at, &ps)
        invariant
            at <= cs@.len(),
            ps@ == p@,
            strip_repeated(cs@.skip(at as int), p@) == strip_repeated(s@, p@),
        decreases cs.len() - at,
    {
        assert(cs@.skip(at as int).skip(p@.len() as int) =~= cs@.skip(at + p@.len()));
        at += ps.len();
    }
    let r = string_of(&cs, at, cs.len());
    assert(cs@.subrange(at as int, cs@.len() as int) =~= cs@.skip(at as int));
    r
}

/// Does `p` occur somewhere in `s`?
pub open spec fn occurs_in(p: Seq<char>, s: Seq<char>) -> bool {
    exists|i: int| 0 <= i <= s.len() && p.is_prefix_of(#[trigger] s.skip(i))
}

pub fn has_substring(s: &str, p: &str) -> (r: bool)
    ensures
        r == occurs_in(p@, s@),
{
    let cs = chars_of(s);
    let ps = chars_of(p);
    let mut at: usize = 0;
    loop
        invariant
            at <= cs@.len(),
            cs@ == s@,
            ps@ == p@,
            forall|i: int| 0 <= i < at ==> !p@.is_prefix_of(#[trigger] s@.skip(i)),
        decreases cs.len() - at,
    {
        if stands_at(&cs, at, &ps) {
            assert(p@.is_prefix_of(s@.skip(at as int)));
            return true;
        }
        if at == cs.len() {
            return false;
        }
        at += 1;
    }
}

// ---------------------------------------------------------------------------
// Splitting
// ---------------------------------------------------------------------------

/// The index of the first character of `s` that is one of `seps`; the length of
/// `s` where there is none.
pub open spec fn find(s: Seq<char>, seps: Seq<char>) -> int
    decreases s.len(),
{
    if s.len() == 0 || seps.contains(s[0]) {
        0
    } else {
        1 + find(s.drop_first(), seps)
    }
}

pub proof fn lemma_find(s: Seq<char>, seps: Seq<char>)
    ensures
        0 <= find(s, seps) <= s.len(),
        find(s, seps) < s.len() ==> seps.contains(s[find(s, seps)]),
        forall|j: int| 0 <= j < find(s, seps) ==> !seps.contains(#[trigger] s[j]),
    decreases s.len(),
{
    if s.len() == 0 || seps.contains(s[0]) {
    } else {
        let t = s.drop_first();
        lemma_find(t, seps);
        assert forall|j: int| 0 <= j < find(s, seps) implies !seps.contains(#[trigger] s[j]) by {
            if j > 0 {
                assert(s[j] == t[j - 1]);
            }
        }
        if find(s, seps) < s.len() {
            assert(s[find(s, seps)] == t[find(t, seps)]);
        }
    }
}

/// `find` is the only index that separates characters outside `seps` from one
/// inside.
pub proof fn lemma_find_unique(s: Seq<char>, seps: Seq<char>, n: int)
    requires
        0 <= n <= s.len(),
        n < s.len() ==> seps.contains(s[n]),
        forall|j: int| 0 <= j < n ==> !seps.contains(#[trigger] s[j]),
    ensures
        find(s, seps) == n,
{
    lemma_find(s, seps);
    let m = find(s, seps);
    if m < n {
        assert(!seps.contains(s[m]));
    } else if n < m {
        assert(!seps.contains(s[n]));
    }
}

/// Is `c` one of `seps`?
fn one_of(c: char, seps: &Vec<char>) -> (r: bool)
    ensures
        r == seps@.contains(c),
{
    let mut i: usize = 0;
    while i < seps.len()
        invariant
            i <= seps@.len(),
            forall|j: int| 0 <= j < i ==> seps@[j] != c,
        decreases seps.len() - i,
    {
        if seps[i] == c {
            return true;
        }
        i += 1;
    }
    false
}

/// The first index of `cs`, from `from` on, at which one of `seps` stands.
fn find_from(cs: &Vec<char>, from: usize, seps: &Vec<char>) -> (r: usize)
    requires
        from <= cs@.len(),
    ensures
        from <= r <= cs@.len(),
        r == from + find(cs@.skip(from as int), seps@),
{
    let mut i: usize = from;
    while i < cs.len() && !one_of(cs[i], seps)
        invariant
            from <= i <= cs@.len(),
            forall|j: int| from <= j < i ==> !seps@.contains(#[trigger] cs@[j]),
        decreases cs.len() - i,
    {
        i += 1;
    }
    proof {
        let t = cs@.skip(from as int);
        assert forall|j: int| 0 <= j < i - from implies !seps@.contains(#[trigger] t[j]) by {
            assert(t[j] == cs@[from + j]);
        }
        lemma_find_unique(t, seps@, i - from);
    }
    i
}

/// The pieces of `s` between the characters that are one of `seps`.
pub open spec fn split(s: Seq<char>, seps: Seq<char>) -> Seq<Seq<char>>
    decreases s.len(),
{
    let n = find(s, seps);
    if 0 <= n < s.len() {
        seq![s.take(n)] + split(s.skip(n + 1), seps)
    } else {
        seq![s]
    }
}

pub fn pieces(s: &str, seps: &str) -> (r: Vec<String>)
    ensures
        texts(r@) == split(s@, seps@),
{
    let cs = chars_of(s);
    let sp = chars_of(seps);
    let mut out: Vec<String> = Vec::new();
    let mut from: usize = 0;
    assert(cs@.skip(0) =~= cs@);
    assert(texts(out@) =~= Seq::<Seq<char>>::empty());
    assert(Seq::<Seq<char>>::empty() + split(s@, seps@) =~= split(s@, seps@));
    loop
        invariant
            from <= cs@.len(),
            cs@ == s@,
            sp@ == seps@,
            texts(out@) + split(cs@.skip(from as int), seps@) == split(s@, seps@),
        decreases cs.len() - from,
    {
        let at = find_from(&cs, from, &sp);
        let ghost rest = cs@.skip(from as int);
        let piece = string_of(&cs, from, at);
        assert(piece@ =~= rest.take(at - from));
        let ghost before = out@;
        out.push(piece);
        proof {
            lemma_texts_push(before, piece);
        }
        if at == cs.len() {
            assert(rest.take(at - from) =~= rest);
            assert(texts(out@) =~= texts(before) + seq![rest]);
            return out;
        }
        proof {
            assert(rest.skip(at - from + 1) =~= cs@.skip(at + 1));
            assert(texts(out@) + split(cs@.skip(at + 1), seps@) =~= texts(before) + (seq![
                piece@,
            ] + split(cs@.skip(at + 1), seps@)));
        }
        from = at + 1;
    }
}

/// The part of `s` before its first character that is one of `seps`, and the
/// part after it.
pub open spec fn split_once(s: Seq<char>, seps: Seq<char>) -> Option<(Seq<char>, Seq<char>)> {
    let n = find(s, seps);
    if 0 <= n < s.len() {
        Some((s.take(n), s.skip(n + 1)))
    } else {
        None
    }
}

/// The texts of an optional pair of strings.
pub open spec fn opt_pair(o: Option<(String, String)>) -> Option<(Seq<char>, Seq<char>)> {
    match o {
        Some((a, b)) => Some((a@, b@)),
        None => None,
    }
}

pub fn cut_first(s: &str, seps: &str) -> (r: Option<(String, String)>)
    ensures
        opt_pair(r) == split_once(s@, seps@),
{
    let cs = chars_of(s);
    let sp = chars_of(seps);
    assert(cs@.skip(0) =~= cs@);
    let at = find_from(&cs, 0, &sp);
    if at < cs.len() {
        let head = string_of(&cs, 0, at);
        let tail = string_of(&cs, at + 1, cs.len());
        assert(head@ =~= s@.take(at as int));
        assert(tail@ =~= s@.skip(at + 1));
        Some((head, tail))
    } else {
        None
    }
}

/// The index of the last `c` in `s`; -1 where there is none.
pub open spec fn find_last(s: Seq<char>, c: char) -> int
    decreases s.len(),
{
    if s.len() == 0 {
        -1
    } else if s.last() == c {
        s.len() - 1
    } else {
        find_last(s.drop_last(), c)
    }
}

pub proof fn lemma_find_last(s: Seq<char>, c: char)
    ensures
        -1 <= find_last(s, c) < s.len(),
        find_last(s, c) >= 0 ==> s[find_last(s, c)] == c,
        forall|j: int| find_last(s, c) < j < s.len() ==> s[j] != c,
    decreases s.len(),
{
    if s.len() == 0 || s.last() == c {
    } else {
        lemma_find_last(s.drop_last(), c);
        assert forall|j: int| find_last(s, c) < j < s.len() implies s[j] != c by {
            if j < s.len() - 1 {
                assert(s[j] == s.drop_last()[j]);
            }
        }
    }
}

/// The part of `s` before its last `c`, and the part after it.
pub open spec fn rsplit_once(s: Seq<char>, c: char) -> Option<(Seq<char>, Seq<char>)> {
    let n = find_last(s, c);
    if 0 <= n < s.len() {
        Some((s.take(n), s.skip(n + 1)))
    } else {
        None
    }
}

pub fn cut_last(s: &str, c: char) -> (r: Option<(String, String)>)
    ensures
        opt_pair(r) == rsplit_once(s@, c),
{
    let cs = chars_of(s);
    let mut to: usize = cs.len();
    assert(cs@.take(to as int) =~= cs@);
    while to > 0
        invariant
            to <= cs@.len(),
            cs@ == s@,
            find_last(cs@.take(to as int), c) == find_last(s@, c),
        decreases to,
    {
        if cs[to - 1] == c {
            assert(cs@.take(to as int).last() == c);
            let head = string_of(&cs, 0, to - 1);
            let tail = string_of(&cs, to, cs.len());
            assert(head@ =~= s@.take(to - 1));
            assert(tail@ =~= s@.skip(to as int));
            return Some((head, tail));
        }
        assert(cs@.take(to as int).drop_last() =~= cs@.take(to - 1));
        to -= 1;
    }
    None
}

// ---------------------------------------------------------------------------
// Lines and words
// ---------------------------------------------------------------------------

/// `s` without one carriage return at its end.
pub open spec fn strip_cr(s: Seq<char>) -> Seq<char> {
    if s.len() > 0 && s.last() == '\r' {
        s.drop_last()
    } else {
        s
    }
}

/// The lines of `s`. A line ends at a line feed or at a carriage return and a
/// line feed, which are not part of it; nothing follows the last line end.
pub open spec fn lines(s: Seq<char>) -> Seq<Seq<char>>
    decreases s.len(),
{
    if s.len() == 0 {
        Seq::empty()
    } else {
        let n = find(s, seq!['\n']);
        if 0 <= n < s.len() {
            seq![strip_cr(s.take(n))] + lines(s.skip(n + 1))
        } else {
            seq![s]
        }
    }
}

pub fn lines_of(s: &str) -> (r: Vec<String>)
    ensures
        texts(r@) == lines(s@),
{
    let cs = chars_of(s);
    let nl: Vec<char> = vec!['\n'];
    assert(nl@ =~= seq!['\n']);
    let mut out: Vec<String> = Vec::new();
    let mut from: usize = 0;
    assert(cs@.skip(0) =~= cs@);
    assert(texts(out@) =~= Seq::<Seq<char>>::empty());
    assert(texts(out@) + lines(s@) =~= lines(s@));
    while from < cs.len()
        invariant
            from <= cs@.len(),
            cs@ == s@,
            nl@ == seq!['\n'],
            texts(out@) + lines(cs@.skip(from as int)) == lines(s@),
        decreases cs.len() - from,
    {
        let at = find_from(&cs, from, &nl);
        let ghost rest = cs@.skip(from as int);
        let ghost before = out@;
        if at == cs.len() {
            let line = string_of(&cs, from, at);
            assert(line@ =~= rest);
            out.push(line);
            proof {
                lemma_texts_push(before, line);
                assert(texts(out@) =~= texts(before) + seq![rest]);
            }
            return out;
        }
        let to: usize = if at > from && cs[at - 1] == '\r' {
            at - 1
        } else {
            at
        };
        let line = string_of(&cs, from, to);
        out.push(line);
        proof {
            lemma_texts_push(before, line);
            let whole = rest.take(at - from);
            assert(whole.len() > 0 ==> whole.last() == cs@[at - 1]);
            assert(line@ =~= strip_cr(whole));
            assert(rest.skip(at - from + 1) =~= cs@.skip(at + 1));
            assert(texts(out@) + lines(cs@.skip(at + 1)) =~= texts(before) + (seq![line@] + lines(
                cs@.skip(at + 1),
            )));
        }
        from = at + 1;
    }
    assert(cs@.skip(from as int) =~= Seq::<char>::empty());
    assert(texts(out@) + Seq::<Seq<char>>::empty() =~= texts(out@));
    out
}

/// The text with these lines, each ended by a line feed.
pub open spec fn unlines(lines: Seq<Seq<char>>) -> Seq<char>
    decreases lines.len(),
{
    if lines.len() == 0 {
        Seq::empty()
    } else {
        unlines(lines.drop_last()) + lines.last() + "\n"@
    }
}

/// The text with these lines, each ended by a line feed.
pub fn text_of_lines(lines: &Vec<String>) -> (r: String)
    ensures
        r@ == unlines(texts(lines@)),
{
    let mut r = String::new();
    let mut i: usize = 0;
    let ghost all = texts(lines@);
    assert(all.take(0) =~= Seq::<Seq<char>>::empty());
    while i < lines.len()
        invariant
            i <= lines@.len(),
            all == texts(lines@),
            r@ == unlines(all.take(i as int)),
        decreases lines.len() - i,
    {
        r.append(lines[i].as_str());
        r.append("\n");
        assert(all.take(i + 1).drop_last() =~= all.take(i as int));
        assert(all.take(i + 1).last() == lines@[i as int]@);
        i += 1;
    }
    assert(all.take(i as int) =~= all);
    r
}

/// Append a line to a list of lines.
pub fn push_line(lines: &mut Vec<String>, line: &str)
    ensures
        texts(final(lines)@) == texts(old(lines)@).push(line@),
{
    let s = line.to_string();
    proof {
        lemma_texts_push(lines@, s);
    }
    lines.push(s);
}

/// Append a line that is a key and a value.
pub fn push_setting(lines: &mut Vec<String>, key: &str, value: &str)
    ensures
        texts(final(lines)@) == texts(old(lines)@).push(key@ + value@),
{
    let mut s = key.to_string();
    s.append(value);
    proof {
        lemma_texts_push(lines@, s);
    }
    lines.push(s);
}

/// The number of leading characters of `s` that are not whitespace.
pub open spec fn word_len(s: Seq<char>) -> int
    decreases s.len(),
{
    if s.len() == 0 || is_whitespace(s[0]) {
        0
    } else {
        1 + word_len(s.drop_first())
    }
}

pub proof fn lemma_word_len(s: Seq<char>)
    ensures
        0 <= word_len(s) <= s.len(),
        forall|j: int| 0 <= j < word_len(s) ==> !is_whitespace(#[trigger] s[j]),
        word_len(s) < s.len() ==> is_whitespace(s[word_len(s)]),
    decreases s.len(),
{
    if s.len() == 0 || is_whitespace(s[0]) {
    } else {
        let t = s.drop_first();
        lemma_word_len(t);
        assert forall|j: int| 0 <= j < word_len(s) implies !is_whitespace(#[trigger] s[j]) by {
            if j > 0 {
                assert(s[j] == t[j - 1]);
            }
        }
    }
}

pub proof fn lemma_trim_start_len(s: Seq<char>)
    ensures
        trim_start(s).len() <= s.len(),
        trim_start(s).len() > 0 ==> !is_whitespace(trim_start(s)[0]),
    decreases s.len(),
{
    if s.len() > 0 && is_whitespace(s[0]) {
        lemma_trim_start_len(s.drop_first());
    }
}

/// The words of `s`: its longest runs of characters that are not whitespace.
pub open spec fn words(s: Seq<char>) -> Seq<Seq<char>>
    decreases s.len(),
    via words_decreases
{
    let t = trim_start(s);
    if t.len() == 0 {
        Seq::empty()
    } else {
        seq![t.take(word_len(t))] + words(t.skip(word_len(t)))
    }
}

#[via_fn]
proof fn words_decreases(s: Seq<char>) {
    lemma_trim_start_len(s);
    lemma_word_len(trim_start(s));
}

pub fn words_of(s: &str) -> (r: Vec<String>)
    ensures
        texts(r@) == words(s@),
{
    let cs = chars_of(s);
    let mut out: Vec<String> = Vec::new();
    let mut from: usize = 0;
    assert(cs@.skip(0) =~= cs@);
    assert(texts(out@) =~= Seq::<Seq<char>>::empty());
    assert(texts(out@) + words(s@) =~= words(s@));
    loop
        invariant
            from <= cs@.len(),
            cs@ == s@,
            texts(out@) + words(cs@.skip(from as int)) == words(s@),
        decreases cs.len() - from,
    {
        let start = skip_whitespace(&cs, from);
        if start == cs.len() {
            assert(words(cs@.skip(from as int)) =~= Seq::<Seq<char>>::empty());
            assert(texts(out@) + Seq::<Seq<char>>::empty() =~= texts(out@));
            return out;
        }
        let ghost t = cs@.skip(start as int);
        let mut end: usize = start;
        assert(cs@.skip(start as int) =~= t);
        while end < cs.len() && !whitespace(cs[end])
            invariant
                start <= end <= cs@.len(),
                t == cs@.skip(start as int),
                word_len(t) == (end - start) + word_len(cs@.skip(end as int)),
            decreases cs.len() - end,
        {
            assert(cs@.skip(end as int).drop_first() =~= cs@.skip(end + 1));
            end += 1;
        }
        let word = string_of(&cs, start, end);
        let ghost before = out@;
        out.push(word);
        proof {
            lemma_texts_push(before, word);
            lemma_word_len(t);
            assert(word_len(t) == end - start);
            assert(word@ =~= t.take(end - start));
            assert(t.skip(end - start) =~= cs@.skip(end as int));
            assert(texts(out@) + words(cs@.skip(end as int)) =~= texts(before) + (seq![word@]
                + words(cs@.skip(end as int))));
            assert(!is_whitespace(t[0]));
        }
        from = end;
    }
}

/// The first word of a text.
pub open spec fn first_word(s: Seq<char>) -> Option<Seq<char>> {
    if words(s).len() > 0 {
        Some(words(s)[0])
    } else {
        None
    }
}

pub fn first_word_of(s: &str) -> (r: Option<String>)
    ensures
        opt_text(r) == first_word(s@),
{
    let list = words_of(s);
    assert(texts(list@).len() == list@.len());
    if list.len() > 0 {
        assert(texts(list@)[0] == list@[0]@);
        Some(list[0].clone())
    } else {
        None
    }
}

// ---------------------------------------------------------------------------
// Laws
// ---------------------------------------------------------------------------

proof fn lemma_find_last_unique(s: Seq<char>, c: char, n: int)
    requires
        -1 <= n < s.len(),
        n >= 0 ==> s[n] == c,
        forall|j: int| n < j < s.len() ==> s[j] != c,
    ensures
        find_last(s, c) == n,
{
    lemma_find_last(s, c);
}

/// Cutting at the last separator leaves the last of the pieces between
/// separators.
pub proof fn the_last_piece_follows_the_last_separator(s: Seq<char>, c: char)
    ensures
        split(s, seq![c]).len() >= 1,
        split(s, seq![c]).last() == (match rsplit_once(s, c) {
            Some((_, tail)) => tail,
            None => s,
        }),
    decreases s.len(),
{
    lemma_find(s, seq![c]);
    let n = find(s, seq![c]);
    if n < s.len() {
        let t = s.skip(n + 1);
        the_last_piece_follows_the_last_separator(t, c);
        lemma_find_last(t, c);
        assert(seq![c].contains(s[n]));
        let m = find_last(t, c);
        assert forall|j: int| n + 1 + m < j < s.len() implies s[j] != c by {
            if j > n {
                assert(s[j] == t[j - n - 1]);
            }
        }
        if m >= 0 {
            assert(s[n + 1 + m] == t[m]);
        }
        lemma_find_last_unique(s, c, n + 1 + m);
        assert(s.skip(n + 1 + m + 1) =~= t.skip(m + 1));
    } else {
        assert forall|j: int| 0 <= j < s.len() implies s[j] != c by {
            assert(!seq![c].contains(s[j]));
            assert(seq![c][0] == c);
        }
        lemma_find_last_unique(s, c, -1);
    }
}

/// A text that begins with a line and its end has that line first.
pub proof fn lines_of_a_line_and_a_text(line: Seq<char>, rest: Seq<char>)
    requires
        !line.contains('\n'),
    ensures
        lines(line + seq!['\n'] + rest) == seq![strip_cr(line)] + lines(rest),
{
    let s = line + seq!['\n'] + rest;
    let nl = seq!['\n'];
    let n = line.len() as int;
    assert(s[n] == '\n');
    assert(nl[0] == '\n');
    assert(nl.contains(s[n]));
    assert forall|j: int| 0 <= j < n implies !nl.contains(#[trigger] s[j]) by {
        assert(s[j] == line[j]);
        assert(line.contains(line[j]));
    }
    lemma_find_unique(s, nl, n);
    assert(s.take(n) =~= line);
    assert(s.skip(n + 1) =~= rest);
}

/// Can the text stand as a line: does it hold no line end?
pub open spec fn is_line(s: Seq<char>) -> bool {
    !s.contains('\n') && (s.len() > 0 ==> s.last() != '\r')
}

proof fn lemma_lines_then_line(s: Seq<char>, line: Seq<char>)
    requires
        s.len() == 0 || s.last() == '\n',
        is_line(line),
    ensures
        lines(s + line + seq!['\n']) == lines(s).push(line),
    decreases s.len(),
{
    let whole = s + line + seq!['\n'];
    if s.len() == 0 {
        assert(whole =~= line + seq!['\n'] + Seq::<char>::empty());
        lines_of_a_line_and_a_text(line, Seq::empty());
        assert(lines(whole) =~= lines(s).push(line));
    } else {
        let nl = seq!['\n'];
        lemma_find(s, nl);
        let n = find(s, nl);
        assert(nl[0] == '\n');
        if n == s.len() {
            assert(!nl.contains(s[s.len() - 1]));
        }
        assert forall|j: int| 0 <= j < n implies !nl.contains(#[trigger] whole[j]) by {
            assert(whole[j] == s[j]);
        }
        assert(whole[n] == s[n]);
        lemma_find_unique(whole, nl, n);
        let rest = s.skip(n + 1);
        if rest.len() > 0 {
            assert(rest.last() == s.last());
        }
        lemma_lines_then_line(rest, line);
        assert(whole.skip(n + 1) =~= rest + line + nl);
        assert(whole.take(n) =~= s.take(n));
        assert(lines(whole) =~= lines(s).push(line));
    }
}

/// Reading back the lines of a text that was written from lines gives those
/// lines.
pub proof fn lines_read_back(list: Seq<Seq<char>>)
    requires
        forall|i: int| 0 <= i < list.len() ==> is_line(#[trigger] list[i]),
    ensures
        lines(unlines(list)) == list,
        list.len() > 0 ==> unlines(list).last() == '\n',
    decreases list.len(),
{
    reveal_strlit("\n");
    if list.len() > 0 {
        let front = list.drop_last();
        assert forall|i: int| 0 <= i < front.len() implies is_line(#[trigger] front[i]) by {
            assert(front[i] == list[i]);
        }
        lines_read_back(front);
        assert("\n"@ =~= seq!['\n']);
        assert(is_line(list[list.len() - 1]));
        lemma_lines_then_line(unlines(front), list.last());
        assert(list =~= front.push(list.last()));
    } else {
        assert(lines(unlines(list)) =~= list);
    }
}

/// Is every character whitespace?
pub open spec fn is_blank(s: Seq<char>) -> bool {
    forall|i: int| 0 <= i < s.len() ==> is_whitespace(#[trigger] s[i])
}

proof fn lemma_trim_start_cuts(s: Seq<char>) -> (n: int)
    ensures
        0 <= n <= s.len(),
        trim_start(s) == s.skip(n),
        is_blank(s.take(n)),
        n < s.len() ==> !is_whitespace(s[n]),
    decreases s.len(),
{
    if s.len() > 0 && is_whitespace(s[0]) {
        let m = lemma_trim_start_cuts(s.drop_first());
        assert(s.drop_first().skip(m) =~= s.skip(m + 1));
        assert forall|i: int| 0 <= i < m + 1 implies is_whitespace(#[trigger] s.take(m + 1)[i]) by {
            if i > 0 {
                assert(s.drop_first().take(m)[i - 1] == s[i]);
            }
        }
        m + 1
    } else {
        assert(s.skip(0) =~= s);
        0
    }
}

proof fn lemma_trim_end_cuts(s: Seq<char>) -> (n: int)
    ensures
        0 <= n <= s.len(),
        trim_end(s) == s.take(n),
        is_blank(s.skip(n)),
        n > 0 ==> !is_whitespace(s[n - 1]),
    decreases s.len(),
{
    if s.len() > 0 && is_whitespace(s.last()) {
        let front = s.drop_last();
        let m = lemma_trim_end_cuts(front);
        assert(front.take(m) =~= s.take(m));
        assert forall|i: int| 0 <= i < s.len() - m implies is_whitespace(
            #[trigger] s.skip(m)[i],
        ) by {
            if i < front.len() - m {
                assert(front.skip(m)[i] == s[m + i]);
            }
        }
        m
    } else {
        assert(s.take(s.len() as int) =~= s);
        s.len() as int
    }
}

/// Trimming takes away whitespace at both ends, all of it, and nothing else. So a text
/// that neither begins nor ends with whitespace is what remains of it between any
/// whitespace.
#[verifier::spinoff_prover]
#[verifier::rlimit(50)]
pub proof fn trimming_takes_the_whitespace_at_both_ends(
    s: Seq<char>,
    before: Seq<char>,
    core: Seq<char>,
    after: Seq<char>,
)
    requires
        s == before + core + after,
        is_blank(before),
        is_blank(after),
        core.len() > 0 ==> !is_whitespace(core[0]) && !is_whitespace(core.last()),
    ensures
        trim(s) == core,
{
    let a = lemma_trim_start_cuts(s);
    let t = s.skip(a);
    let b = lemma_trim_end_cuts(t);
    if core.len() == 0 {
        assert(is_blank(s)) by {
            assert forall|i: int| 0 <= i < s.len() implies is_whitespace(#[trigger] s[i]) by {
                if i < before.len() {
                    assert(s[i] == before[i]);
                } else {
                    assert(s[i] == after[i - before.len()]);
                }
            }
        }
        if a < s.len() {
            assert(is_whitespace(s[a]));
        }
        assert(trim(s) =~= core);
    } else {
        let n = before.len() as int;
        assert(s[n] == core[0]);
        if a < n {
            assert(s[a] == before[a]);
        } else if a > n {
            assert(s.take(a)[n] == s[n]);
        }
        assert(a == n);
        assert(t =~= core + after);
        let m = core.len() as int;
        assert(t[m - 1] == core.last());
        if b < m {
            assert(t.skip(b)[m - 1 - b] == t[m - 1]);
        } else if b > m {
            assert(t[b - 1] == after[b - 1 - m]);
        }
        assert(t.take(m) =~= core);
    }
}

/// Which characters are whitespace: those with the Unicode property of that name, which
/// are tab, the line breaks, the space and the other spaces of Unicode. Of the printable
/// ASCII characters it is only the space.
pub proof fn which_characters_are_whitespace(c: char)
    ensures
        is_whitespace(c) <==> {
            ||| c == '\t'
            ||| c == '\n'
            ||| c == '\u{b}'
            ||| c == '\u{c}'
            ||| c == '\r'
            ||| c == ' '
            ||| c == '\u{85}'
            ||| c == '\u{a0}'
            ||| c == '\u{1680}'
            ||| '\u{2000}' <= c <= '\u{200a}'
            ||| c == '\u{2028}'
            ||| c == '\u{2029}'
            ||| c == '\u{202f}'
            ||| c == '\u{205f}'
            ||| c == '\u{3000}'
        },
        '!' <= c <= '~' ==> !is_whitespace(c),
{
}

/// A prefix is stripped exactly from a text that begins with it, and a suffix from one
/// that ends with it; what remains is the rest.
pub proof fn stripping_leaves_the_rest(s: Seq<char>, p: Seq<char>, rest: Seq<char>)
    ensures
        strip_prefix(s, p) == Some(rest) <==> s == p + rest,
        strip_suffix(s, p) == Some(rest) <==> s == rest + p,
{
    if s == p + rest {
        assert(s.subrange(0, p.len() as int) =~= p);
        assert(s.skip(p.len() as int) =~= rest);
    }
    if strip_prefix(s, p) == Some(rest) {
        assert(s.subrange(0, p.len() as int) == p);
        assert(s =~= p + rest);
    }
    if s == rest + p {
        assert(s.subrange(rest.len() as int, s.len() as int) =~= p);
        assert(s.take(s.len() - p.len()) =~= rest);
    }
    if strip_suffix(s, p) == Some(rest) {
        assert(s.subrange(s.len() - p.len(), s.len() as int) == p);
        assert(s =~= rest + p);
    }
}

/// What is left after stripping a prefix as often as it stands there does not begin with
/// it, and one more of it before the text makes no difference.
pub proof fn stripping_repeatedly_strips_all(s: Seq<char>, p: Seq<char>)
    requires
        p.len() > 0,
    ensures
        !p.is_prefix_of(strip_repeated(s, p)),
        strip_repeated(p + s, p) == strip_repeated(s, p),
        !p.is_prefix_of(s) ==> strip_repeated(s, p) == s,
    decreases s.len(),
{
    assert((p + s).subrange(0, p.len() as int) =~= p);
    assert((p + s).skip(p.len() as int) =~= s);
    if p.is_prefix_of(s) {
        stripping_repeatedly_strips_all(s.skip(p.len() as int), p);
    }
}

/// A text occurs in another exactly where the other is made of something before it, it,
/// and something behind it.
pub proof fn what_it_is_to_occur(p: Seq<char>, s: Seq<char>, before: Seq<char>, behind: Seq<char>)
    ensures
        s == before + p + behind ==> occurs_in(p, s),
        occurs_in(p, s) ==> exists|i: int|
            0 <= i <= s.len() - p.len() && #[trigger] s.subrange(i, i + p.len()) == p,
{
    if s == before + p + behind {
        let t = s.skip(before.len() as int);
        assert(t.subrange(0, p.len() as int) =~= p);
        assert(p.is_prefix_of(t));
    }
    if occurs_in(p, s) {
        let i = choose|i: int| 0 <= i <= s.len() && p.is_prefix_of(#[trigger] s.skip(i));
        assert(s.skip(i).subrange(0, p.len() as int) == p);
        assert(s.subrange(i, i + p.len()) =~= s.skip(i).subrange(0, p.len() as int));
    }
}

/// Splitting at a separator gives the piece before the first one, and then what
/// splitting the rest gives; a text without a separator is one piece.
pub proof fn splitting_cuts_at_every_separator(
    piece: Seq<char>,
    sep: char,
    rest: Seq<char>,
    seps: Seq<char>,
)
    requires
        seps.contains(sep),
        forall|i: int| 0 <= i < piece.len() ==> !seps.contains(#[trigger] piece[i]),
    ensures
        split(piece, seps) == seq![piece],
        split(piece.push(sep) + rest, seps) == seq![piece] + split(rest, seps),
        split_once(piece, seps) is None,
        split_once(piece.push(sep) + rest, seps) == Some((piece, rest)),
{
    lemma_find_unique(piece, seps, piece.len() as int);
    let s = piece.push(sep) + rest;
    let n = piece.len() as int;
    assert(s[n] == sep);
    assert forall|j: int| 0 <= j < n implies !seps.contains(#[trigger] s[j]) by {
        assert(s[j] == piece[j]);
    }
    lemma_find_unique(s, seps, n);
    assert(s.take(n) =~= piece);
    assert(s.skip(n + 1) =~= rest);
}

/// Cutting at the last separator gives what stands before it and what stands behind it.
pub proof fn the_last_separator_cuts(before: Seq<char>, c: char, behind: Seq<char>)
    requires
        !behind.contains(c),
    ensures
        rsplit_once(before.push(c) + behind, c) == Some((before, behind)),
        rsplit_once(behind, c) is None,
{
    let s = before.push(c) + behind;
    lemma_find_last(s, c);
    lemma_find_last(behind, c);
    let n = find_last(s, c);
    let m = before.len() as int;
    assert(s[m] == c);
    if n > m {
        assert(s[n] == behind[n - m - 1]);
        assert(behind.contains(behind[n - m - 1]));
    }
    assert(n == m) by {
        if n < m {
            assert(s[m] != c);
        }
    }
    assert(s.take(m) =~= before);
    assert(s.skip(m + 1) =~= behind);
    let k = find_last(behind, c);
    if 0 <= k < behind.len() {
        assert(behind.contains(behind[k]));
    }
}

/// Is it a word: not empty, and without whitespace?
pub open spec fn is_word(s: Seq<char>) -> bool {
    s.len() > 0 && forall|i: int| 0 <= i < s.len() ==> !is_whitespace(#[trigger] s[i])
}

/// The words of a text are what its whitespace separates: after any whitespace, a word
/// that whitespace or the end follows is the first one, and the others are those of the
/// rest. A blank text has none.
#[verifier::spinoff_prover]
#[verifier::rlimit(50)]
pub proof fn whitespace_separates_words(blank: Seq<char>, word: Seq<char>, rest: Seq<char>)
    requires
        is_blank(blank),
        is_word(word),
        rest.len() > 0 ==> is_whitespace(rest[0]),
    ensures
        words(blank) == Seq::<Seq<char>>::empty(),
        words(blank + word + rest) == seq![word] + words(rest),
        first_word(blank + word + rest) == Some(word),
{
    let s = blank + word + rest;
    let a = lemma_trim_start_cuts(s);
    let n = blank.len() as int;
    assert(s[n] == word[0]);
    if a < n {
        assert(s[a] == blank[a]);
    } else if a > n {
        assert(s.take(a)[n] == s[n]);
    }
    let t = s.skip(n);
    assert(t =~= word + rest);
    lemma_word_len(t);
    let w = word_len(t);
    let m = word.len() as int;
    if w < m {
        assert(t[w] == word[w]);
    } else if w > m {
        assert(t[m] == rest[0]);
    }
    assert(t.take(m) =~= word);
    assert(t.skip(m) =~= rest);
    let b = lemma_trim_start_cuts(blank);
    if b < blank.len() {
        assert(is_whitespace(blank[b]));
    }
    assert(trim_start(blank).len() == 0);
}

/// A line ends at a line feed, with or without a carriage return before it; what follows
/// the last line feed is a line too, unless it is empty.
pub proof fn where_lines_end(line: Seq<char>, rest: Seq<char>)
    requires
        !line.contains('\n'),
        line.len() > 0 ==> line.last() != '\r',
    ensures
        lines(Seq::<char>::empty()) == Seq::<Seq<char>>::empty(),
        line.len() > 0 ==> lines(line) == seq![line],
        lines(line.push('\n') + rest) == seq![line] + lines(rest),
        lines(line.push('\r').push('\n') + rest) == seq![line] + lines(rest),
{
    lines_of_a_line_and_a_text(line, rest);
    let r = line.push('\r');
    assert(!r.contains('\n')) by {
        if r.contains('\n') {
            let k = choose|k: int| 0 <= k < r.len() && r[k] == '\n';
            assert(line.contains(line[k]));
        }
    }
    lines_of_a_line_and_a_text(r, rest);
    assert(r.drop_last() =~= line);
    assert(line + seq!['\n'] + rest =~= line.push('\n') + rest);
    assert(r + seq!['\n'] + rest =~= r.push('\n') + rest);
    let nl = seq!['\n'];
    assert forall|j: int| 0 <= j < line.len() implies !nl.contains(#[trigger] line[j]) by {
        assert(line.contains(line[j]));
    }
    lemma_find_unique(line, nl, line.len() as int);
}

/// Every line of a text of lines is followed by a line feed.
pub proof fn every_line_ends_with_a_line_feed(list: Seq<Seq<char>>, line: Seq<char>)
    ensures
        unlines(Seq::<Seq<char>>::empty()) == Seq::<char>::empty(),
        unlines(list.push(line)) == unlines(list) + line.push('\n'),
{
    reveal_strlit("\n");
    assert(list.push(line).drop_last() =~= list);
    assert(unlines(list) + line + "\n"@ =~= unlines(list) + line.push('\n'));
}

/// A character at the end is taken away as often as it stands there, and nowhere else.
pub proof fn a_character_at_the_end_goes_altogether(s: Seq<char>, c: char)
    ensures
        trim_end_char(s.push(c), c) == trim_end_char(s, c),
        s.len() == 0 || s.last() != c ==> trim_end_char(s, c) == s,
{
    assert(s.push(c).drop_last() =~= s);
}

} // verus!
