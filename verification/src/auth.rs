//! Authentication: credentials and sessions.
//!
//! The password is kept as a salted SHA-256 hash. A login starts a session
//! under a random token; a session ends at logout, when the credentials change,
//! or after its time to live. Random bytes and the time are arguments: the time
//! is a count of nanoseconds from some fixed moment.

use vstd::prelude::*;
use vstd::string::*;
use vstd::utf8::*;

use crate::digest;
use crate::numeral;
use crate::text;

verus! {

/// How long a session lasts: 12 hours, in nanoseconds.
pub const SESSION_TTL: u64 = 43_200_000_000_000;

/// How many random bytes a session token and a salt are made of.
pub const RANDOM_LEN: usize = 16;

// ---------------------------------------------------------------------------
// Credentials
// ---------------------------------------------------------------------------

/// A user name with the salt and the hash of its password, both in hexadecimal.
#[derive(Clone)]
pub struct Credentials {
    pub username: String,
    pub salt: String,
    pub hash: String,
}

/// The texts of a [`Credentials`].
#[verifier::ext_equal]
pub struct CredentialsView {
    pub username: Seq<char>,
    pub salt: Seq<char>,
    pub hash: Seq<char>,
}

impl View for Credentials {
    type V = CredentialsView;

    open spec fn view(&self) -> CredentialsView {
        CredentialsView { username: self.username@, salt: self.salt@, hash: self.hash@ }
    }
}

/// The stored form of the password `pass` under `salt`.
pub open spec fn password_hash(salt: Seq<u8>, pass: Seq<char>) -> Seq<char> {
    numeral::hex(digest::sha256(salt + encode_utf8(pass)))
}

/// The credentials of `user` with the password `pass`, salted with `salt`.
pub open spec fn credentials(
    user: Seq<char>,
    pass: Seq<char>,
    salt: Seq<u8>,
) -> CredentialsView {
    CredentialsView { username: user, salt: numeral::hex(salt), hash: password_hash(salt, pass) }
}

impl CredentialsView {
    /// Is the salt text read in whole characters?
    pub open spec fn salt_is_readable(self) -> bool {
        !numeral::cuts_character(encode_utf8(self.salt))
    }

    /// Are `user` and `pass` the user name and the password?
    pub open spec fn accept(self, user: Seq<char>, pass: Seq<char>) -> bool {
        &&& self.username == user
        &&& match numeral::unhex(encode_utf8(self.salt)) {
            Some(salt) => password_hash(salt, pass) == self.hash,
            None => false,
        }
    }
}

/// The digest of the salt followed by the password.
fn password_digest(salt: &[u8], password: &str) -> (r: Vec<u8>)
    ensures
        r@ == digest::sha256(salt@ + encode_utf8(password@)),
{
    let mut data: Vec<u8> = Vec::new();
    data.extend_from_slice(salt);
    data.extend_from_slice(password.as_bytes());
    assert(data@ =~= salt@ + encode_utf8(password@));
    digest::sha256_of(data.as_slice())
}

/// The stored form of a password.
pub fn hash_password(salt: &[u8], password: &str) -> (r: String)
    ensures
        r@ == password_hash(salt@, password@),
{
    numeral::hex_encode(password_digest(salt, password).as_slice())
}

/// The credentials of `user`, under a fresh random salt.
pub fn make_credentials(user: &str, pass: &str, salt: &[u8; RANDOM_LEN]) -> (c: Credentials)
    ensures
        c@ == credentials(user@, pass@, salt@),
        c.salt@.len() == 32,
        numeral::is_lower_hex(c.salt@),
{
    proof {
        numeral::hex_has_two_digits_for_each_byte(salt@);
    }
    Credentials {
        username: user.to_string(),
        salt: numeral::hex_encode(salt.as_slice()),
        hash: hash_password(salt.as_slice(), pass),
    }
}

/// A session token: random bytes in hexadecimal.
pub fn random_hex(random: &[u8]) -> (r: String)
    ensures
        r@ == numeral::hex(random@),
{
    numeral::hex_encode(random)
}

impl Credentials {
    /// Is the salt text read in whole characters?
    pub fn salt_is_readable(&self) -> (r: bool)
        ensures
            r == self@.salt_is_readable(),
    {
        !numeral::hex_text_cuts_character(self.salt.as_str())
    }

    /// Is `user` the user name, and is the stored hash that of `digest`?
    pub fn match_digest(&self, user: &str, digest: &[u8]) -> (r: bool)
        ensures
            r == (self.username@ == user@ && self.hash@ == numeral::hex(digest@)),
    {
        text::same(self.username.as_str(), user) && text::same(
            self.hash.as_str(),
            numeral::hex_encode(digest).as_str(),
        )
    }
}

/// Why `user` and `pass` are refused as new credentials.
pub open spec fn credentials_fault(user: Seq<char>, pass: Seq<char>) -> Option<Seq<char>> {
    if user.len() == 0 {
        Some("username is required"@)
    } else if encode_utf8(pass).len() < 4 {
        Some("password must be at least 4 characters"@)
    } else {
        None
    }
}

/// Refuse an empty user name and a password of fewer than 4 bytes.
pub fn check_credentials(user: &str, pass: &str) -> (r: Result<(), String>)
    ensures
        match r {
            Ok(_) => credentials_fault(user@, pass@) is None,
            Err(e) => credentials_fault(user@, pass@) == Some(e@),
        },
{
    if user.is_empty() {
        return Err("username is required".to_string());
    }
    if text::byte_len(pass) < 4 {
        return Err("password must be at least 4 characters".to_string());
    }
    Ok(())
}

// ---------------------------------------------------------------------------
// Sessions
// ---------------------------------------------------------------------------

struct Session {
    token: String,
    started: u64,
}

spec fn holds(s: Seq<Session>, token: Seq<char>) -> bool {
    exists|i: int| 0 <= i < s.len() && (#[trigger] s[i]).token@ == token
}

spec fn started(s: Seq<Session>, token: Seq<char>) -> u64 {
    s[choose|i: int| 0 <= i < s.len() && (#[trigger] s[i]).token@ == token].started
}

/// No token stands for two sessions.
spec fn distinct(s: Seq<Session>) -> bool {
    forall|i: int, j: int|
        0 <= i < j < s.len() ==> (#[trigger] s[i]).token@ != (#[trigger] s[j]).token@
}

spec fn session_map(s: Seq<Session>) -> Map<Seq<char>, u64> {
    Map::new(|t: Seq<char>| holds(s, t), |t: Seq<char>| started(s, t))
}

proof fn lemma_started(s: Seq<Session>, i: int)
    requires
        distinct(s),
        0 <= i < s.len(),
    ensures
        holds(s, s[i].token@),
        started(s, s[i].token@) == s[i].started,
{
    let t = s[i].token@;
    assert(holds(s, t));
    let k = choose|k: int| 0 <= k < s.len() && (#[trigger] s[k]).token@ == t;
    assert(k == i);
}

/// How long a session has lasted at `now`.
pub open spec fn elapsed(started: u64, now: u64) -> int {
    if now >= started {
        now - started
    } else {
        0
    }
}

/// The sessions that have not outlived their time at `now`.
pub open spec fn live(sessions: Map<Seq<char>, u64>, now: u64) -> Map<Seq<char>, u64> {
    Map::new(
        |t: Seq<char>| sessions.contains_key(t) && elapsed(sessions[t], now) < SESSION_TTL,
        |t: Seq<char>| sessions[t],
    )
}

/// The index of the session under `token`.
fn find(list: &Vec<Session>, token: &str) -> (r: Option<usize>)
    ensures
        match r {
            Some(i) => i < list@.len() && list@[i as int].token@ == token@ && holds(
                list@,
                token@,
            ),
            None => !holds(list@, token@),
        },
{
    let mut i: usize = 0;
    while i < list.len()
        invariant
            i <= list@.len(),
            forall|k: int| 0 <= k < i ==> (#[trigger] list@[k]).token@ != token@,
        decreases list.len() - i,
    {
        if text::same(list[i].token.as_str(), token) {
            return Some(i);
        }
        i += 1;
    }
    None
}

/// The sessions without the one under `token`, if there is one.
fn without(list: Vec<Session>, token: &str) -> (r: Vec<Session>)
    requires
        distinct(list@),
    ensures
        distinct(r@),
        session_map(r@) == session_map(list@).remove(token@),
{
    let ghost before = list@;
    let mut rest = list;
    match find(&rest, token) {
        Some(i) => {
            rest.remove(i);
            proof {
                let after = rest@;
                assert forall|t: Seq<char>| t != token@ && holds(before, t) implies holds(after, t)
                    && started(after, t) == started(before, t) by {
                    let k = choose|k: int|
                        0 <= k < before.len() && (#[trigger] before[k]).token@ == t;
                    let k2 = if k < i {
                        k
                    } else {
                        k - 1
                    };
                    assert(after[k2] == before[k]);
                    lemma_started(after, k2);
                    lemma_started(before, k);
                }
                assert forall|t: Seq<char>| holds(after, t) implies t != token@ && holds(
                    before,
                    t,
                ) by {
                    let k = choose|k: int| 0 <= k < after.len() && (#[trigger] after[k]).token@ == t;
                    let k2 = if k < i {
                        k
                    } else {
                        k + 1
                    };
                    assert(after[k] == before[k2]);
                }
            }
        },
        None => {},
    }
    assert(session_map(rest@) =~= session_map(before).remove(token@));
    rest
}

/// The sessions and one under `token` that starts at `now`.
fn with(list: Vec<Session>, token: &str, now: u64) -> (r: Vec<Session>)
    requires
        distinct(list@),
    ensures
        distinct(r@),
        session_map(r@) == session_map(list@).insert(token@, now),
{
    let mut open = without(list, token);
    let ghost before = open@;
    assert(!session_map(before).contains_key(token@));
    open.push(Session { token: token.to_string(), started: now });
    proof {
        let after = open@;
        assert forall|k: int| 0 <= k < before.len() implies (#[trigger] before[k]).token@
            != token@ by {
            assert(!holds(before, token@));
        }
        assert(distinct(after));
        lemma_started(after, before.len() as int);
        assert forall|t: Seq<char>| t != token@ implies holds(after, t) == holds(before, t) && (
        holds(after, t) ==> started(after, t) == started(before, t)) by {
            if holds(before, t) {
                let k = choose|k: int| 0 <= k < before.len() && (#[trigger] before[k]).token@ == t;
                assert(after[k] == before[k]);
                lemma_started(after, k);
                lemma_started(before, k);
            }
            if holds(after, t) {
                let k = choose|k: int| 0 <= k < after.len() && (#[trigger] after[k]).token@ == t;
                assert(after[k] == before[k]);
            }
        }
        assert(session_map(after) =~= session_map(before).insert(token@, now));
        assert(session_map(after) =~= session_map(list@).insert(token@, now));
    }
    open
}

/// Those of the sessions that have not outlived their time at `now`.
fn unexpired(list: Vec<Session>, now: u64) -> (r: Vec<Session>)
    requires
        distinct(list@),
    ensures
        distinct(r@),
        session_map(r@) == live(session_map(list@), now),
{
    let ghost before = list@;
    let mut rest = list;
    let mut i: usize = 0;
    while i < rest.len()
        invariant
            i <= rest@.len(),
            distinct(before),
            distinct(rest@),
            forall|k: int|
                0 <= k < i ==> elapsed((#[trigger] rest@[k]).started, now) < SESSION_TTL,
            forall|k: int| 0 <= k < rest@.len() ==> before.contains(#[trigger] rest@[k]),
            forall|k: int|
                0 <= k < before.len() && elapsed((#[trigger] before[k]).started, now)
                    < SESSION_TTL ==> rest@.contains(before[k]),
        decreases rest.len() - i,
    {
        let s = rest[i].started;
        let age: u64 = if now >= s {
            now - s
        } else {
            0
        };
        let ghost cur = rest@;
        if age < SESSION_TTL {
            i += 1;
        } else {
            rest.remove(i);
            proof {
                let next = rest@;
                assert forall|k: int| 0 <= k < next.len() implies before.contains(
                    #[trigger] next[k],
                ) by {
                    let k2 = if k < i {
                        k
                    } else {
                        k + 1
                    };
                    assert(next[k] == cur[k2]);
                }
                assert forall|k: int|
                    0 <= k < before.len() && elapsed((#[trigger] before[k]).started, now)
                        < SESSION_TTL implies next.contains(before[k]) by {
                    assert(cur.contains(before[k]));
                    let j = choose|j: int| 0 <= j < cur.len() && cur[j] == before[k];
                    let j2 = if j < i {
                        j
                    } else {
                        j - 1
                    };
                    assert(next[j2] == before[k]);
                }
            }
        }
    }
    proof {
        let after = rest@;
        assert forall|t: Seq<char>| #[trigger] holds(after, t) implies holds(before, t) && started(
            after,
            t,
        ) == started(before, t) && elapsed(started(before, t), now) < SESSION_TTL by {
            let k = choose|k: int| 0 <= k < after.len() && (#[trigger] after[k]).token@ == t;
            lemma_started(after, k);
            assert(before.contains(after[k]));
            let j = choose|j: int| 0 <= j < before.len() && before[j] == after[k];
            lemma_started(before, j);
        }
        assert forall|t: Seq<char>| #[trigger]
            holds(before, t) && elapsed(started(before, t), now) < SESSION_TTL implies holds(
            after,
            t,
        ) by {
            let j = choose|j: int| 0 <= j < before.len() && (#[trigger] before[j]).token@ == t;
            lemma_started(before, j);
            assert(after.contains(before[j]));
            let k = choose|k: int| 0 <= k < after.len() && after[k] == before[j];
            assert(after[k].token@ == t);
        }
        assert(session_map(after) =~= live(session_map(before), now));
    }
    rest
}

// ---------------------------------------------------------------------------
// Auth
// ---------------------------------------------------------------------------

/// The credentials and the open sessions.
pub struct Auth {
    creds: Credentials,
    sessions: Vec<Session>,
}

/// What an [`Auth`] holds: the credentials, and for each session token the time
/// at which the session started.
#[verifier::ext_equal]
pub struct AuthView {
    pub creds: CredentialsView,
    pub sessions: Map<Seq<char>, u64>,
}

impl AuthView {
    /// The token that a login is given: the random bytes in hexadecimal, where user
    /// name and password are right.
    pub open spec fn new_token(
        self,
        user: Seq<char>,
        pass: Seq<char>,
        random: Seq<u8>,
    ) -> Option<Seq<char>> {
        if self.creds.accept(user, pass) {
            Some(numeral::hex(random))
        } else {
            None
        }
    }

    /// What is held after a login: a session more, where the login was given a
    /// token.
    pub open spec fn logged_in(
        self,
        user: Seq<char>,
        pass: Seq<char>,
        random: Seq<u8>,
        now: u64,
    ) -> AuthView {
        match self.new_token(user, pass, random) {
            Some(token) => AuthView { sessions: self.sessions.insert(token, now), ..self },
            None => self,
        }
    }
}

impl View for Auth {
    type V = AuthView;

    closed spec fn view(&self) -> AuthView {
        AuthView { creds: self.creds@, sessions: session_map(self.sessions@) }
    }
}

impl Auth {
    /// Each session has its own token.
    #[verifier::type_invariant]
    closed spec fn sessions_are_distinct(self) -> bool {
        distinct(self.sessions@)
    }

    /// Take up the stored credentials; where there are none, those of `admin`
    /// with the password `password`, under a fresh random salt. The flag says
    /// that they are new and have to be stored.
    pub fn load(stored: Option<Credentials>, salt: &[u8; RANDOM_LEN]) -> (r: (Auth, bool))
        ensures
            r.0@.sessions == Map::<Seq<char>, u64>::empty(),
            r.1 == (stored is None),
            r.0@.creds == (match stored {
                Some(c) => c@,
                None => credentials("admin"@, "password"@, salt@),
            }),
    {
        let fresh = stored.is_none();
        let creds = match stored {
            Some(c) => c,
            None => make_credentials("admin", "password", salt),
        };
        let auth = Auth { creds, sessions: Vec::new() };
        assert(auth@.sessions =~= Map::<Seq<char>, u64>::empty());
        (auth, fresh)
    }

    /// The credentials, as they are to be stored.
    pub fn stored(&self) -> (c: &Credentials)
        ensures
            c@ == self@.creds,
    {
        &self.creds
    }

    pub fn username(&self) -> (r: String)
        ensures
            r@ == self@.creds.username,
    {
        self.creds.username.clone()
    }

    /// Are `user` and `pass` the user name and the password?
    pub fn verify(&self, user: &str, pass: &str) -> (r: bool)
        requires
            self@.creds.username == user@ ==> self@.creds.salt_is_readable(),
        ensures
            r == self@.creds.accept(user@, pass@),
    {
        if !text::same(self.creds.username.as_str(), user) {
            return false;
        }
        match numeral::hex_decode(self.creds.salt.as_str()) {
            Some(salt) => self.creds.match_digest(
                user,
                password_digest(salt.as_slice(), pass).as_slice(),
            ),
            None => false,
        }
    }

    /// The open sessions, taken out.
    fn take_sessions(&mut self) -> (r: Vec<Session>)
        ensures
            r@ == old(self).sessions@,
            distinct(r@),
            final(self).creds == old(self).creds,
            final(self).sessions@.len() == 0,
    {
        proof {
            use_type_invariant(&*self);
        }
        let mut taken: Vec<Session> = Vec::new();
        std::mem::swap(&mut self.sessions, &mut taken);
        taken
    }

    /// End the session under `token`, if there is one.
    pub fn logout(&mut self, token: &str)
        ensures
            final(self)@.creds == old(self)@.creds,
            final(self)@.sessions == old(self)@.sessions.remove(token@),
    {
        let open = self.take_sessions();
        let rest = without(open, token);
        self.sessions = rest;
    }

    /// Verify credentials and start a session, returning its token: the random
    /// bytes in hexadecimal.
    pub fn login(
        &mut self,
        user: &str,
        pass: &str,
        random: &[u8; RANDOM_LEN],
        now: u64,
    ) -> (r: Option<String>)
        requires
            old(self)@.creds.username == user@ ==> old(self)@.creds.salt_is_readable(),
        ensures
            final(self)@ == old(self)@.logged_in(user@, pass@, random@, now),
            text::opt_text(r) == old(self)@.new_token(user@, pass@, random@),
            r matches Some(token) ==> token@.len() == 32 && numeral::is_lower_hex(token@),
    {
        if !self.verify(user, pass) {
            return None;
        }
        proof {
            numeral::hex_has_two_digits_for_each_byte(random@);
        }
        let token = random_hex(random.as_slice());
        let open = self.take_sessions();
        let more = with(open, token.as_str(), now);
        self.sessions = more;
        Some(token)
    }

    /// Is this session token valid (and not expired)? Expired sessions are
    /// dropped.
    pub fn validate(&mut self, token: &str, now: u64) -> (r: bool)
        ensures
            final(self)@.creds == old(self)@.creds,
            final(self)@.sessions == live(old(self)@.sessions, now),
            r == live(old(self)@.sessions, now).contains_key(token@),
    {
        let open = self.take_sessions();
        let rest = unexpired(open, now);
        let found: bool = find(&rest, token).is_some();
        self.sessions = rest;
        found
    }

    /// Change the credentials and end every session, once the new credentials
    /// are stored. `saved` is what came of storing `make_credentials(user, pass,
    /// salt)`; where the new credentials are refused it has no bearing.
    pub fn set_credentials(
        &mut self,
        user: &str,
        pass: &str,
        salt: &[u8; RANDOM_LEN],
        saved: Result<(), String>,
    ) -> (r: Result<(), String>)
        ensures
            match (credentials_fault(user@, pass@), saved) {
                (Some(m), _) => r matches Err(e) && e@ == m && final(self)@ == old(self)@,
                (None, Err(m)) => r matches Err(e) && e@ == m@ && final(self)@ == old(self)@,
                (None, Ok(_)) => {
                    &&& r is Ok
                    &&& final(self)@.creds == credentials(user@, pass@, salt@)
                    &&& final(self)@.sessions == Map::<Seq<char>, u64>::empty()
                },
            },
    {
        match check_credentials(user, pass) {
            Ok(_) => {},
            Err(e) => {
                return Err(e);
            },
        }
        match saved {
            Ok(_) => {},
            Err(e) => {
                return Err(e);
            },
        }
        self.sessions = Vec::new();
        self.creds = make_credentials(user, pass, salt);
        assert(self@.sessions =~= Map::<Seq<char>, u64>::empty());
        Ok(())
    }
}

// ---------------------------------------------------------------------------
// Laws
// ---------------------------------------------------------------------------

/// Credentials made for a user and a password are read in whole characters,
/// and accept that user with that password.
pub proof fn made_credentials_are_accepted(user: Seq<char>, pass: Seq<char>, salt: Seq<u8>)
    ensures
        credentials(user, pass, salt).salt_is_readable(),
        credentials(user, pass, salt).accept(user, pass),
{
    numeral::hex_decodes_back(salt);
}

/// No other user name is accepted.
pub proof fn another_user_is_refused(c: CredentialsView, user: Seq<char>, pass: Seq<char>)
    requires
        c.username != user,
    ensures
        !c.accept(user, pass),
{
}

/// A login is given a token exactly where user name and password are right. The
/// token has 32 lower-case hexadecimal digits and is valid at once, and every session
/// that was open stays open. Without a token nothing changes, and the credentials
/// never do.
pub proof fn a_login_starts_one_session(
    before: AuthView,
    user: Seq<char>,
    pass: Seq<char>,
    random: Seq<u8>,
    now: u64,
    other: Seq<char>,
)
    requires
        random.len() == RANDOM_LEN,
    ensures
        ({
            let token = before.new_token(user, pass, random);
            let after = before.logged_in(user, pass, random, now);
            &&& token is Some <==> before.creds.accept(user, pass)
            &&& after.creds == before.creds
            &&& match token {
                Some(t) => {
                    &&& t.len() == 32
                    &&& numeral::is_lower_hex(t)
                    &&& live(after.sessions, now).contains_key(t)
                    &&& live(before.sessions, now).contains_key(other) ==> live(
                        after.sessions,
                        now,
                    ).contains_key(other)
                    &&& other != t ==> live(after.sessions, now).contains_key(other) == live(
                        before.sessions,
                        now,
                    ).contains_key(other)
                },
                None => after == before,
            }
        }),
{
    numeral::hex_has_two_digits_for_each_byte(random);
}

/// A session is valid from its start for as long as it may last, and no longer.
pub proof fn a_session_lasts_its_time(
    sessions: Map<Seq<char>, u64>,
    token: Seq<char>,
    start: u64,
    now: u64,
)
    ensures
        live(sessions.insert(token, start), now).contains_key(token) <==> elapsed(start, now)
            < SESSION_TTL,
{
}

/// Where no session is open, no token is valid at any time.
pub proof fn no_session_no_valid_token(token: Seq<char>, now: u64)
    ensures
        !live(Map::<Seq<char>, u64>::empty(), now).contains_key(token),
{
}

/// A session that has expired stays so: dropping expired sessions at
/// one time and asking at a later one is the same as asking at the later one.
pub proof fn an_expired_session_stays_expired(
    sessions: Map<Seq<char>, u64>,
    now: u64,
    later: u64,
)
    requires
        now <= later,
    ensures
        live(live(sessions, now), later) == live(sessions, later),
{
    assert(live(live(sessions, now), later) =~= live(sessions, later));
}

/// After logout no time makes the token valid, and every other session is as
/// it was.
pub proof fn logout_ends_one_session(
    sessions: Map<Seq<char>, u64>,
    token: Seq<char>,
    other: Seq<char>,
    now: u64,
)
    ensures
        !live(sessions.remove(token), now).contains_key(token),
        other != token ==> live(sessions.remove(token), now).contains_key(other) == live(
            sessions,
            now,
        ).contains_key(other),
{
}

/// A password is stored as the SHA-256 of the salt followed by the password's bytes, in
/// hexadecimal, beside the user name and the salt; and it is accepted exactly where the
/// user name is the same and that digest is.
pub proof fn how_a_password_is_stored_and_accepted(
    user: Seq<char>,
    pass: Seq<char>,
    salt: Seq<u8>,
    who: Seq<char>,
    word: Seq<char>,
)
    ensures
        ({
            let c = credentials(user, pass, salt);
            &&& c.username == user
            &&& c.salt == numeral::hex(salt)
            &&& c.hash == numeral::hex(digest::sha256(salt + encode_utf8(pass)))
            &&& c.accept(who, word) <==> who == user && numeral::hex(
                digest::sha256(salt + encode_utf8(word)),
            ) == numeral::hex(digest::sha256(salt + encode_utf8(pass)))
        }),
{
    numeral::hex_decodes_back(salt);
}

/// A session lasts twelve hours: it is open while less than that has passed since its
/// start, under its own token only, and it keeps its start.
pub proof fn a_session_lasts_twelve_hours(
    sessions: Map<Seq<char>, u64>,
    token: Seq<char>,
    now: u64,
)
    ensures
        live(sessions, now).contains_key(token) <==> sessions.contains_key(token) && (now
            < sessions[token] || now - sessions[token] < 12 * 3600 * 1_000_000_000),
        live(sessions, now).contains_key(token) ==> live(sessions, now)[token] == sessions[token],
{
}

/// New credentials are refused exactly where the user name is empty or the password has
/// fewer than four bytes; the user name is looked at first.
pub proof fn which_credentials_are_refused(user: Seq<char>, pass: Seq<char>)
    ensures
        credentials_fault(user, pass) is None <==> user.len() > 0 && encode_utf8(pass).len() >= 4,
        user.len() == 0 ==> credentials_fault(user, pass) == Some("username is required"@),
        user.len() > 0 && encode_utf8(pass).len() < 4 ==> credentials_fault(user, pass) == Some(
            "password must be at least 4 characters"@,
        ),
{
}

} // verus!
