//! Self-update: is a release newer, and the update in place from it.
//!
//! A download is verified by SHA-256 against the `SHA256SUMS` of the same release,
//! and is run once (`camera-box version`) before it is installed, so that a corrupt
//! or wrong-architecture download is rejected rather than bricking the box.

use vstd::prelude::*;
use vstd::string::*;

use crate::command;
use crate::digest;
use crate::numeral;
use crate::text;

verus! {

// ---------------------------------------------------------------------------
// Versions
// ---------------------------------------------------------------------------

/// `X.Y.Z` of a `vX.Y.Z` tag.
pub open spec fn version_text(tag: Seq<char>) -> Seq<char> {
    text::strip_repeated(text::trim(tag), "v"@)
}

/// `X.Y.Z` from a `vX.Y.Z` tag.
pub fn ver_num(tag: &str) -> (r: String)
    ensures
        r@ == version_text(tag@),
{
    text::after_repeated(text::trimmed(tag).as_str(), "v")
}

/// The number at `index`; 0 where there is none.
pub open spec fn number_at(v: Seq<u64>, index: int) -> u64 {
    if index < v.len() {
        v[index]
    } else {
        0
    }
}

/// The first three numbers among the pieces of a version.
pub open spec fn version_numbers(s: Seq<char>) -> (u64, u64, u64) {
    let v = numeral::numbers(text::split(s, ".-+"@));
    (number_at(v, 0), number_at(v, 1), number_at(v, 2))
}

fn nth(v: &Vec<u64>, index: usize) -> (r: u64)
    ensures
        r == number_at(v@, index as int),
{
    if index < v.len() {
        v[index]
    } else {
        0
    }
}

pub fn parse_ver(s: &str) -> (r: (u64, u64, u64))
    ensures
        r == version_numbers(s@),
{
    let v = numeral::numbers_of(&text::pieces(s, ".-+"));
    (nth(&v, 0), nth(&v, 1), nth(&v, 2))
}

/// Is the version `a` newer than `b`? The first number that differs decides.
pub open spec fn newer(a: (u64, u64, u64), b: (u64, u64, u64)) -> bool {
    if a.0 != b.0 {
        a.0 > b.0
    } else if a.1 != b.1 {
        a.1 > b.1
    } else {
        a.2 > b.2
    }
}

/// Is version `a` strictly newer than `b`?
pub fn version_gt(a: &str, b: &str) -> (r: bool)
    ensures
        r == newer(version_numbers(a@), version_numbers(b@)),
{
    let x = parse_ver(a);
    let y = parse_ver(b);
    if x.0 != y.0 {
        x.0 > y.0
    } else if x.1 != y.1 {
        x.1 > y.1
    } else {
        x.2 > y.2
    }
}

// ---------------------------------------------------------------------------
// Assets
// ---------------------------------------------------------------------------

/// The release asset for a kernel machine type.
pub open spec fn asset_for(machine: Seq<char>) -> Option<Seq<char>> {
    if machine == "aarch64"@ || machine == "arm64"@ {
        Some("camera-box-pi-zero-2w-arm64"@)
    } else if machine == "armv7l"@ {
        Some("camera-box-pi-zero-2w-armv7"@)
    } else if machine == "armv6l"@ {
        Some("camera-box-pi-zero-w-armv6"@)
    } else {
        None
    }
}

/// What a command wrote, where it succeeded.
pub open spec fn output(outcome: command::Outcome) -> Option<Seq<char>> {
    match outcome {
        command::Outcome::Ended { success, stdout, .. } => if success {
            Some(stdout@)
        } else {
            None
        },
        command::Outcome::NotStarted(_) => None,
    }
}

/// The asset that matches the hardware that `uname -m` reports.
pub open spec fn asset_of(uname: command::Outcome) -> Option<Seq<char>> {
    match output(uname) {
        Some(s) => asset_for(text::trim(s)),
        None => None,
    }
}

/// The command that tells the machine type.
pub fn machine_command() -> (r: command::CommandLine)
    ensures
        r@.program == "uname"@,
        r@.args == seq!["-m"@],
{
    let r = command::command("uname", vec!["-m"]);
    assert(r@.args =~= seq!["-m"@]);
    r
}

/// The release asset that matches this hardware, by the kernel machine type that
/// the machine command tells. The ARMv7 build serves both the Pi Zero 2 W
/// (32-bit) and the Luckfox Lyra Zero W.
pub fn detect_asset(uname: command::Outcome) -> (r: Option<String>)
    ensures
        text::opt_text(r) == asset_of(uname),
{
    match command::sh_out(&machine_command(), uname) {
        Ok(s) => {
            let m = text::trimmed(s.as_str());
            if text::same(m.as_str(), "aarch64") || text::same(m.as_str(), "arm64") {
                Some("camera-box-pi-zero-2w-arm64".to_string())
            } else if text::same(m.as_str(), "armv7l") {
                Some("camera-box-pi-zero-2w-armv7".to_string())
            } else if text::same(m.as_str(), "armv6l") {
                Some("camera-box-pi-zero-w-armv6".to_string())
            } else {
                None
            }
        },
        Err(_) => None,
    }
}

// ---------------------------------------------------------------------------
// The latest release
// ---------------------------------------------------------------------------

/// The string that the member `key` of a JSON object holds, where the text is an
/// object with such a member; the error where the text is no JSON.
pub uninterp spec fn json_string(json: Seq<char>, key: Seq<char>) -> Result<
    Option<Seq<char>>,
    Seq<char>,
>;

/// The texts of a result of [`string_member`].
pub open spec fn member_text(r: Result<Option<String>, String>) -> Result<
    Option<Seq<char>>,
    Seq<char>,
> {
    match r {
        Ok(o) => Ok(text::opt_text(o)),
        Err(e) => Err(e@),
    }
}

/// `serde_json::from_str` into a `Value`, `Value::get` with a string key and
/// `Value::as_str`, of the `serde_json` crate. Claimed: the result is a function
/// of the text and the key, here named `json_string`. What is JSON, and how an
/// error reads, is not stated.
#[verifier::external_body]
pub(crate) fn string_member(json: &str, key: &str) -> (r: Result<Option<String>, String>)
    ensures
        member_text(r) == json_string(json@, key@),
{
    let v: serde_json::Value = match serde_json::from_str(json) {
        Ok(v) => v,
        Err(e) => return Err(e.to_string()),
    };
    match v.get(key) {
        Some(member) => match member.as_str() {
            Some(s) => Ok(Some(s.to_string())),
            None => Ok(None),
        },
        None => Ok(None),
    }
}

/// The command that asks for the latest release.
pub open spec fn latest_view() -> command::CommandView {
    command::CommandView {
        program: "curl"@,
        args: seq![
            "-fsSL"@,
            "-A"@,
            "camera-box"@,
            "--max-time"@,
            "20"@,
            "https://api.github.com/repos/codesource/camerabox/releases/latest"@,
        ],
    }
}

/// The command that asks for the latest release.
pub fn latest_command() -> (r: command::CommandLine)
    ensures
        r@ == latest_view(),
{
    let r = command::command(
        "curl",
        vec![
            "-fsSL",
            "-A",
            "camera-box",
            "--max-time",
            "20",
            "https://api.github.com/repos/codesource/camerabox/releases/latest",
        ],
    );
    assert(r@ =~= latest_view());
    r
}

/// The tag that a release's description states, given what it holds as
/// `tag_name`.
pub open spec fn tag_in(member: Result<Option<Seq<char>>, Seq<char>>) -> Result<
    Seq<char>,
    Seq<char>,
> {
    match member {
        Ok(Some(tag)) => Ok(tag),
        Ok(None) => Err("no tag_name in the latest release"@),
        Err(e) => Err("parsing release info: "@ + e),
    }
}

/// The texts of a result.
pub open spec fn result_text(r: Result<String, String>) -> Result<Seq<char>, Seq<char>> {
    match r {
        Ok(s) => Ok(s@),
        Err(e) => Err(e@),
    }
}

/// The tag that a release's description states, given what it holds as
/// `tag_name`.
pub fn stated_tag(member: Result<Option<String>, String>) -> (r: Result<String, String>)
    ensures
        result_text(r) == tag_in(member_text(member)),
{
    match member {
        Ok(Some(tag)) => Ok(tag),
        Ok(None) => Err("no tag_name in the latest release".to_string()),
        Err(e) => {
            let mut m = "parsing release info: ".to_string();
            m.append(e.as_str());
            Err(m)
        },
    }
}

/// The error of a command: that it did not start, or what it wrote about it.
pub open spec fn trouble(program: Seq<char>, outcome: command::Outcome) -> Option<Seq<char>> {
    match outcome {
        command::Outcome::NotStarted(e) => Some("spawn "@ + program + ": "@ + e@),
        command::Outcome::Ended { success, stderr, .. } => if success {
            None
        } else {
            Some(text::trim(stderr@))
        },
    }
}

/// The tag of the latest release, from what came of asking for it.
pub open spec fn tag_of(outcome: command::Outcome) -> Result<Seq<char>, Seq<char>> {
    match trouble("curl"@, outcome) {
        Some(e) => Err("could not reach GitHub (is the device online?): "@ + e),
        None => tag_in(json_string(output(outcome)->0, "tag_name"@)),
    }
}

/// `tag_name` of the latest release (e.g. `v0.3.4`), from what came of asking for
/// it.
pub fn latest_tag(outcome: command::Outcome) -> (r: Result<String, String>)
    ensures
        result_text(r) == tag_of(outcome),
{
    match command::sh_out(&latest_command(), outcome) {
        Ok(body) => stated_tag(string_member(body.as_str(), "tag_name")),
        Err(e) => {
            let mut m = "could not reach GitHub (is the device online?): ".to_string();
            m.append(e.as_str());
            Err(m)
        },
    }
}

/// What is known of the latest release.
#[derive(Debug)]
pub struct UpdateInfo {
    pub current: String,
    pub latest: String,
    pub tag: String,
    pub update_available: bool,
    pub asset: Option<String>,
}

/// What is known of the release `tag`: whether it is newer than what is running,
/// and its asset for this hardware.
pub open spec fn describes(
    info: UpdateInfo,
    current: Seq<char>,
    tag: Seq<char>,
    uname: command::Outcome,
) -> bool {
    &&& info.current@ == current
    &&& info.latest@ == version_text(tag)
    &&& info.tag@ == tag
    &&& info.update_available == newer(
        version_numbers(version_text(tag)),
        version_numbers(current),
    )
    &&& text::opt_text(info.asset) == asset_of(uname)
}

/// The answer to the question whether there is an update, given the tag of the
/// latest release: what is known of it; where the tag could not be had, an HTTP
/// status (bad gateway) and the error.
pub fn check_update(
    current: &str,
    tag: Result<String, String>,
    uname: command::Outcome,
) -> (r: Result<UpdateInfo, (u16, String)>)
    ensures
        match tag {
            Ok(tag) => r matches Ok(info) && describes(info, current@, tag@, uname),
            Err(e) => r matches Err((status, m)) && status == 502 && m@ == e@,
        },
{
    match tag {
        Ok(tag) => {
            let latest = ver_num(tag.as_str());
            let update_available: bool = version_gt(latest.as_str(), current);
            Ok(
                UpdateInfo {
                    current: current.to_string(),
                    latest,
                    tag,
                    update_available,
                    asset: detect_asset(uname),
                },
            )
        },
        Err(e) => Err((502, e)),
    }
}

/// The answer to an update that is over: what is said of one that succeeded, after
/// which the service is restarted; an HTTP status (internal server error) and the
/// error of one that failed.
pub fn apply_update(result: Result<String, String>) -> (r: Result<String, (u16, String)>)
    ensures
        match result {
            Ok(tag) => r matches Ok(m) && m@ == "Updated to "@ + tag@ + "; restarting…"@,
            Err(e) => r matches Err((status, m)) && status == 500 && m@ == e@,
        },
{
    match result {
        Ok(tag) => {
            let mut m = "Updated to ".to_string();
            m.append(tag.as_str());
            m.append("; restarting…");
            Ok(m)
        },
        Err(e) => Err((500, e)),
    }
}

// ---------------------------------------------------------------------------
// Checksums
// ---------------------------------------------------------------------------

/// The lower-case equivalent of a text.
pub uninterp spec fn lower_case(s: Seq<char>) -> Seq<char>;

pub open spec fn is_ascii(s: Seq<char>) -> bool {
    forall|i: int| 0 <= i < s.len() ==> (#[trigger] s[i]) as int <= 127
}

/// An ASCII letter in lower case; any other character as it is.
pub open spec fn ascii_lower(c: char) -> char {
    if 'A' <= c <= 'Z' {
        (c as int + 32) as char
    } else {
        c
    }
}

/// `str::to_lowercase` of the standard library. Claimed: the result is a function
/// of the text, here named `lower_case`, and of an ASCII text it is that text with
/// `a` to `z` in place of `A` to `Z`. What becomes of other texts is not stated.
#[verifier::external_body]
pub(crate) fn lowered(s: &str) -> (r: String)
    ensures
        r@ == lower_case(s@),
        is_ascii(s@) ==> r@ == s@.map_values(|c: char| ascii_lower(c)),
{
    s.to_lowercase()
}

/// The name of a file as `sha256sum` lists it, without the marks before it.
pub open spec fn listed_name(word: Seq<char>) -> Seq<char> {
    text::strip_repeated(text::strip_repeated(word, "./"@), "*"@)
}

/// Does a line of `SHA256SUMS` speak of the asset?
pub open spec fn speaks_of(line: Seq<char>, asset: Seq<char>) -> bool {
    text::words(line).len() >= 2 && listed_name(text::words(line)[1]) == asset
}

/// The hash on the first of the lines that speaks of the asset.
pub open spec fn listed_hash(lines: Seq<Seq<char>>, asset: Seq<char>) -> Option<Seq<char>>
    decreases lines.len(),
{
    if lines.len() == 0 {
        None
    } else if speaks_of(lines[0], asset) {
        Some(text::words(lines[0])[0])
    } else {
        listed_hash(lines.drop_first(), asset)
    }
}

/// The hash that `sums` lists for the asset, as it stands there.
pub fn find_hash(sums: &str, asset: &str) -> (r: Option<String>)
    ensures
        text::opt_text(r) == listed_hash(text::lines(sums@), asset@),
{
    let lines = text::lines_of(sums);
    let ghost all = text::lines(sums@);
    let mut i: usize = 0;
    assert(all.skip(0) =~= all);
    while i < lines.len()
        invariant
            i <= lines@.len(),
            all == text::lines(sums@),
            text::texts(lines@) == all,
            listed_hash(all, asset@) == listed_hash(all.skip(i as int), asset@),
        decreases lines.len() - i,
    {
        assert(all[i as int] == lines@[i as int]@);
        assert(all.skip(i as int)[0] == all[i as int]);
        let words = text::words_of(lines[i].as_str());
        if words.len() >= 2 {
            assert(text::texts(words@)[0] == words@[0]@);
            assert(text::texts(words@)[1] == words@[1]@);
            let name = text::after_repeated(
                text::after_repeated(words[1].as_str(), "./").as_str(),
                "*",
            );
            if text::same(name.as_str(), asset) {
                return Some(words[0].clone());
            }
        }
        assert(all.skip(i as int).drop_first() =~= all.skip(i + 1));
        i += 1;
    }
    None
}

/// The error of a download with the digest `digest` where `want` is listed, if
/// there is one.
pub open spec fn digest_fault(
    digest: Seq<u8>,
    want: Option<Seq<char>>,
    asset: Seq<char>,
) -> Option<Seq<char>> {
    match want {
        None => Some("no checksum for "@ + asset + " in SHA256SUMS"@),
        Some(w) => if numeral::hex(digest) == w {
            None
        } else {
            Some(
                "checksum mismatch for "@ + asset + " (got "@ + numeral::hex(digest)
                    + ", expected "@ + w + ")"@,
            )
        },
    }
}

/// Is the digest the one that is wanted, a lower-case hexadecimal numeral?
pub fn check_digest(digest: &[u8], want: Option<String>, asset: &str) -> (r: Result<(), String>)
    ensures
        text::fault_of(r) == digest_fault(digest@, text::opt_text(want), asset@),
{
    let got = numeral::hex_encode(digest);
    match want {
        None => {
            let mut m = "no checksum for ".to_string();
            m.append(asset);
            m.append(" in SHA256SUMS");
            Err(m)
        },
        Some(w) => {
            if text::same(got.as_str(), w.as_str()) {
                Ok(())
            } else {
                let mut m = "checksum mismatch for ".to_string();
                m.append(asset);
                m.append(" (got ");
                m.append(got.as_str());
                m.append(", expected ");
                m.append(w.as_str());
                m.append(")");
                Err(m)
            }
        },
    }
}

/// The hash that `sums` lists for the asset, in lower case.
pub open spec fn wanted_hash(sums: Seq<char>, asset: Seq<char>) -> Option<Seq<char>> {
    match listed_hash(text::lines(sums), asset) {
        Some(h) => Some(lower_case(h)),
        None => None,
    }
}

/// Verify the SHA-256 of `data` against the asset's entry in `sums`, which is in
/// the format of `sha256sum`.
pub fn verify_sha256(data: &[u8], sums: &str, asset: &str) -> (r: Result<(), String>)
    ensures
        text::fault_of(r) == digest_fault(
            digest::sha256(data@),
            wanted_hash(sums@, asset@),
            asset@,
        ),
        // The case of the letters of a listed hash does not matter.
        listed_hash(text::lines(sums@), asset@) matches Some(h) ==> is_ascii(h) ==> (r is Ok
            <==> h.map_values(|c: char| ascii_lower(c)) == numeral::hex(digest::sha256(data@))),
{
    let got = digest::sha256_of(data);
    let want = match find_hash(sums, asset) {
        Some(h) => Some(lowered(h.as_str())),
        None => None,
    };
    check_digest(got.as_slice(), want, asset)
}

// ---------------------------------------------------------------------------
// The update
// ---------------------------------------------------------------------------

/// A file that an update works on.
#[derive(Debug, Clone, Copy, PartialEq, Eq, Structural)]
pub enum File {
    /// What was downloaded, in the directory for temporary files.
    Download,
    /// The release's `SHA256SUMS`, beside it.
    Checksums,
    /// The binary that is running.
    Target,
    /// The running binary's backup: its name with the extension `bak`.
    Backup,
    /// The new binary, staged in the directory of the running one.
    Staged,
}

/// What a file is called: its name, or the extension that replaces that of the
/// running binary.
pub open spec fn file_name(file: File) -> Option<Seq<char>> {
    match file {
        File::Download => Some("camera-box.update"@),
        File::Checksums => Some("camera-box.SHA256SUMS"@),
        File::Target => None,
        File::Backup => Some("bak"@),
        File::Staged => Some(".camera-box.new"@),
    }
}

/// The name of a file, or the extension that makes it the backup; nothing for the
/// running binary, whose name the system tells.
pub fn name_of(file: File) -> (r: Option<String>)
    ensures
        text::opt_text(r) == file_name(file),
{
    match file {
        File::Download => Some("camera-box.update".to_string()),
        File::Checksums => Some("camera-box.SHA256SUMS".to_string()),
        File::Target => None,
        File::Backup => Some("bak".to_string()),
        File::Staged => Some(".camera-box.new".to_string()),
    }
}

/// How far an update has come: what is being done.
#[derive(Debug, Clone, Copy, PartialEq, Eq, Structural)]
pub enum Phase {
    DetectAsset,
    AskLatest,
    Download,
    DownloadSums,
    Verify,
    MakeExecutable,
    SelfCheck,
    Locate,
    BackUp,
    Stage,
    MakeStagedExecutable,
    Install,
    CleanUp,
    Over,
}

/// What is running, and the paths of the download and of the checksums, where
/// they are texts.
#[derive(Debug)]
pub struct Site {
    pub current: String,
    pub paths: Option<(String, String)>,
}

/// An update on its way.
#[derive(Debug)]
pub struct Update {
    pub phase: Phase,
    pub asset: String,
    pub tag: String,
    pub download: String,
    pub sums: String,
}

/// The values of an [`Update`].
#[verifier::ext_equal]
pub struct UpdateView {
    pub phase: Phase,
    pub asset: Seq<char>,
    pub tag: Seq<char>,
    pub download: Seq<char>,
    pub sums: Seq<char>,
}

impl View for Update {
    type V = UpdateView;

    open spec fn view(&self) -> UpdateView {
        UpdateView {
            phase: self.phase,
            asset: self.asset@,
            tag: self.tag@,
            download: self.download@,
            sums: self.sums@,
        }
    }
}

/// What is to be done next.
#[derive(Debug)]
pub enum UpdateAction {
    /// Run a command.
    Run(command::CommandLine),
    /// Read the download and the checksums.
    Read,
    /// Make a file executable.
    MakeExecutable(File),
    /// Locate the running binary.
    Locate,
    Copy(File, File),
    Rename(File, File),
    Remove(File),
    /// The update is over: the tag that was installed, or the error.
    Finish(Result<String, String>),
}

/// The values of an [`UpdateAction`].
#[verifier::ext_equal]
pub enum ActionView {
    Run(command::CommandView),
    Read,
    MakeExecutable(File),
    Locate,
    Copy(File, File),
    Rename(File, File),
    Remove(File),
    Finish(Result<Seq<char>, Seq<char>>),
}

impl View for UpdateAction {
    type V = ActionView;

    open spec fn view(&self) -> ActionView {
        match self {
            UpdateAction::Run(c) => ActionView::Run(c@),
            UpdateAction::Read => ActionView::Read,
            UpdateAction::MakeExecutable(f) => ActionView::MakeExecutable(*f),
            UpdateAction::Locate => ActionView::Locate,
            UpdateAction::Copy(a, b) => ActionView::Copy(*a, *b),
            UpdateAction::Rename(a, b) => ActionView::Rename(*a, *b),
            UpdateAction::Remove(f) => ActionView::Remove(*f),
            UpdateAction::Finish(r) => ActionView::Finish(result_text(*r)),
        }
    }
}

/// What came of an action.
#[derive(Debug)]
pub enum UpdateEvent {
    /// A command was run.
    Ran(command::Outcome),
    /// The download and the checksums were read.
    Contents { download: Result<Vec<u8>, String>, sums: Result<String, String> },
    /// The running binary was located: does its path have a parent directory?
    Located(Result<bool, String>),
    /// A file was made executable, copied, renamed or removed.
    Done(Result<(), String>),
}

/// Is this what comes of the action of the phase?
pub open spec fn answers_to(phase: Phase, event: UpdateEvent) -> bool {
    match phase {
        Phase::DetectAsset | Phase::AskLatest | Phase::Download | Phase::DownloadSums
        | Phase::SelfCheck => event is Ran,
        Phase::Verify => event is Contents,
        Phase::Locate => event is Located,
        Phase::Over => false,
        _ => event is Done,
    }
}

pub fn is_answer(phase: Phase, event: &UpdateEvent) -> (r: bool)
    ensures
        r == answers_to(phase, *event),
{
    match phase {
        Phase::DetectAsset | Phase::AskLatest | Phase::Download | Phase::DownloadSums
        | Phase::SelfCheck => matches!(event, UpdateEvent::Ran(_)),
        Phase::Verify => matches!(event, UpdateEvent::Contents { .. }),
        Phase::Locate => matches!(event, UpdateEvent::Located(_)),
        Phase::Over => false,
        _ => matches!(event, UpdateEvent::Done(_)),
    }
}

/// Where the assets of a release are.
pub open spec fn release_url(tag: Seq<char>, file: Seq<char>) -> Seq<char> {
    "https://github.com/codesource/camerabox/releases/download/"@ + tag + "/"@ + file
}

/// The command that downloads the asset of a release.
pub open spec fn download_view(u: UpdateView) -> command::CommandView {
    command::CommandView {
        program: "curl"@,
        args: seq![
            "-fL"@,
            "-A"@,
            "camera-box"@,
            "--max-time"@,
            "300"@,
            "-o"@,
            u.download,
            release_url(u.tag, u.asset),
        ],
    }
}

/// The command that downloads the checksums of a release.
pub open spec fn sums_view(u: UpdateView) -> command::CommandView {
    command::CommandView {
        program: "curl"@,
        args: seq![
            "-fsSL"@,
            "-A"@,
            "camera-box"@,
            "--max-time"@,
            "60"@,
            "-o"@,
            u.sums,
            release_url(u.tag, "SHA256SUMS"@),
        ],
    }
}

/// The error with which the event ends an update that is in its phase, if it
/// does.
pub open spec fn update_fault(
    u: UpdateView,
    current: Seq<char>,
    has_paths: bool,
    event: UpdateEvent,
) -> Option<Seq<char>> {
    match (u.phase, event) {
        (Phase::DetectAsset, UpdateEvent::Ran(o)) => if asset_of(o) is Some {
            None
        } else {
            Some("unsupported architecture — no matching release asset"@)
        },
        (Phase::AskLatest, UpdateEvent::Ran(o)) => match tag_of(o) {
            Err(e) => Some(e),
            Ok(tag) => if !newer(version_numbers(version_text(tag)), version_numbers(current)) {
                Some(
                    "already up to date (running "@ + current + ", latest "@ + version_text(tag)
                        + ")"@,
                )
            } else if !has_paths {
                Some("non-UTF8 temp path"@)
            } else {
                None
            },
        },
        (Phase::Download, UpdateEvent::Ran(o)) => match trouble("curl"@, o) {
            Some(e) => Some("downloading "@ + u.asset + ": "@ + e),
            None => None,
        },
        (Phase::DownloadSums, UpdateEvent::Ran(o)) => match trouble("curl"@, o) {
            Some(e) => Some("downloading SHA256SUMS: "@ + e),
            None => None,
        },
        (Phase::Verify, UpdateEvent::Contents { download, sums }) => match (download, sums) {
            (Err(e), _) => Some("reading download: "@ + e@),
            (Ok(_), Err(e)) => Some("reading SHA256SUMS: "@ + e@),
            (Ok(data), Ok(text)) => digest_fault(
                digest::sha256(data@),
                wanted_hash(text@, u.asset),
                u.asset,
            ),
        },
        (Phase::SelfCheck, UpdateEvent::Ran(o)) => match o {
            command::Outcome::NotStarted(e) => Some("the downloaded binary won't run: "@ + e@),
            command::Outcome::Ended { success, .. } => if success {
                None
            } else {
                Some("the downloaded binary failed its self-check (wrong architecture?)"@)
            },
        },
        (Phase::Locate, UpdateEvent::Located(r)) => match r {
            Err(e) => Some("locating current binary: "@ + e@),
            Ok(has_parent) => if has_parent {
                None
            } else {
                Some("target has no parent directory"@)
            },
        },
        (Phase::MakeExecutable, UpdateEvent::Done(Err(e))) => Some("chmod download: "@ + e@),
        (Phase::Stage, UpdateEvent::Done(Err(e))) => Some("staging new binary: "@ + e@),
        (Phase::MakeStagedExecutable, UpdateEvent::Done(Err(e))) => Some("chmod staged: "@ + e@),
        (Phase::Install, UpdateEvent::Done(Err(e))) => Some("installing (rename): "@ + e@),
        _ => None,
    }
}

/// The phase that follows.
pub open spec fn phase_after(phase: Phase) -> Phase {
    match phase {
        Phase::DetectAsset => Phase::AskLatest,
        Phase::AskLatest => Phase::Download,
        Phase::Download => Phase::DownloadSums,
        Phase::DownloadSums => Phase::Verify,
        Phase::Verify => Phase::MakeExecutable,
        Phase::MakeExecutable => Phase::SelfCheck,
        Phase::SelfCheck => Phase::Locate,
        Phase::Locate => Phase::BackUp,
        Phase::BackUp => Phase::Stage,
        Phase::Stage => Phase::MakeStagedExecutable,
        Phase::MakeStagedExecutable => Phase::Install,
        Phase::Install => Phase::CleanUp,
        Phase::CleanUp => Phase::Over,
        Phase::Over => Phase::Over,
    }
}

/// What is done in the phase that an update is in.
pub open spec fn action_of(u: UpdateView) -> ActionView {
    match u.phase {
        Phase::DetectAsset => ActionView::Run(
            command::CommandView { program: "uname"@, args: seq!["-m"@] },
        ),
        Phase::AskLatest => ActionView::Run(latest_view()),
        Phase::Download => ActionView::Run(download_view(u)),
        Phase::DownloadSums => ActionView::Run(sums_view(u)),
        Phase::Verify => ActionView::Read,
        Phase::MakeExecutable => ActionView::MakeExecutable(File::Download),
        Phase::SelfCheck => ActionView::Run(
            command::CommandView { program: u.download, args: seq!["version"@] },
        ),
        Phase::Locate => ActionView::Locate,
        Phase::BackUp => ActionView::Copy(File::Target, File::Backup),
        Phase::Stage => ActionView::Copy(File::Download, File::Staged),
        Phase::MakeStagedExecutable => ActionView::MakeExecutable(File::Staged),
        Phase::Install => ActionView::Rename(File::Staged, File::Target),
        Phase::CleanUp => ActionView::Remove(File::Download),
        Phase::Over => ActionView::Finish(Ok(u.tag)),
    }
}

/// The paths of a [`Site`].
pub open spec fn site_paths(site: Site) -> Option<(Seq<char>, Seq<char>)> {
    text::opt_pair(site.paths)
}

/// The update after an event that does not end it.
pub open spec fn went_on(site: Site, u: UpdateView, event: UpdateEvent) -> UpdateView {
    let next = UpdateView { phase: phase_after(u.phase), ..u };
    match (u.phase, event) {
        (Phase::DetectAsset, UpdateEvent::Ran(o)) => UpdateView { asset: asset_of(o)->0, ..next },
        (Phase::AskLatest, UpdateEvent::Ran(o)) => UpdateView {
            tag: tag_of(o)->Ok_0,
            download: (site_paths(site)->0).0,
            sums: (site_paths(site)->0).1,
            ..next
        },
        _ => next,
    }
}

/// What becomes of an update in a phase, and what is to be done next.
pub open spec fn next_update(site: Site, u: UpdateView, event: UpdateEvent) -> (
    UpdateView,
    ActionView,
) {
    match update_fault(u, site.current@, site.paths is Some, event) {
        Some(e) => (UpdateView { phase: Phase::Over, ..u }, ActionView::Finish(Err(e))),
        None => (went_on(site, u, event), action_of(went_on(site, u, event))),
    }
}

/// An update that has not begun.
pub open spec fn fresh() -> UpdateView {
    UpdateView {
        phase: Phase::DetectAsset,
        asset: Seq::empty(),
        tag: Seq::empty(),
        download: Seq::empty(),
        sums: Seq::empty(),
    }
}

fn message(before: &str, about: &str) -> (r: String)
    ensures
        r@ == before@ + about@,
{
    let mut m = before.to_string();
    m.append(about);
    m
}

fn url(tag: &str, file: &str) -> (r: String)
    ensures
        r@ == release_url(tag@, file@),
{
    let mut m = "https://github.com/codesource/camerabox/releases/download/".to_string();
    m.append(tag);
    m.append("/");
    m.append(file);
    m
}

/// The error of a run of curl, if it failed.
fn curl_result(outcome: command::Outcome) -> (r: Result<(), String>)
    ensures
        text::fault_of(r) == trouble("curl"@, outcome),
{
    match command::sh_out(&command::command("curl", Vec::new()), outcome) {
        Ok(_) => Ok(()),
        Err(e) => Err(e),
    }
}

impl Update {
    /// Begin an update.
    pub fn begin() -> (r: (Update, UpdateAction))
        ensures
            r.0@ == fresh(),
            r.1@ == action_of(fresh()),
    {
        let u = Update {
            phase: Phase::DetectAsset,
            asset: String::new(),
            tag: String::new(),
            download: String::new(),
            sums: String::new(),
        };
        assert(u@ =~= fresh());
        let a = u.action();
        (u, a)
    }

    /// What is done in the phase that the update is in.
    fn action(&self) -> (r: UpdateAction)
        ensures
            r@ == action_of(self@),
    {
        match self.phase {
            Phase::DetectAsset => {
                let c = machine_command();
                assert(c@ =~= command::CommandView { program: "uname"@, args: seq!["-m"@] });
                UpdateAction::Run(c)
            },
            Phase::AskLatest => UpdateAction::Run(latest_command()),
            Phase::Download => {
                let from = url(self.tag.as_str(), self.asset.as_str());
                let c = command::command(
                    "curl",
                    vec![
                        "-fL",
                        "-A",
                        "camera-box",
                        "--max-time",
                        "300",
                        "-o",
                        self.download.as_str(),
                        from.as_str(),
                    ],
                );
                assert(c@ =~= download_view(self@));
                UpdateAction::Run(c)
            },
            Phase::DownloadSums => {
                let from = url(self.tag.as_str(), "SHA256SUMS");
                let c = command::command(
                    "curl",
                    vec![
                        "-fsSL",
                        "-A",
                        "camera-box",
                        "--max-time",
                        "60",
                        "-o",
                        self.sums.as_str(),
                        from.as_str(),
                    ],
                );
                assert(c@ =~= sums_view(self@));
                UpdateAction::Run(c)
            },
            Phase::Verify => UpdateAction::Read,
            Phase::MakeExecutable => UpdateAction::MakeExecutable(File::Download),
            Phase::SelfCheck => {
                let c = command::command(self.download.as_str(), vec!["version"]);
                assert(c@ =~= command::CommandView {
                    program: self.download@,
                    args: seq!["version"@],
                });
                UpdateAction::Run(c)
            },
            Phase::Locate => UpdateAction::Locate,
            Phase::BackUp => UpdateAction::Copy(File::Target, File::Backup),
            Phase::Stage => UpdateAction::Copy(File::Download, File::Staged),
            Phase::MakeStagedExecutable => UpdateAction::MakeExecutable(File::Staged),
            Phase::Install => UpdateAction::Rename(File::Staged, File::Target),
            Phase::CleanUp => UpdateAction::Remove(File::Download),
            Phase::Over => UpdateAction::Finish(Ok(self.tag.clone())),
        }
    }

    fn next_phase(phase: Phase) -> (r: Phase)
        ensures
            r == phase_after(phase),
    {
        match phase {
            Phase::DetectAsset => Phase::AskLatest,
            Phase::AskLatest => Phase::Download,
            Phase::Download => Phase::DownloadSums,
            Phase::DownloadSums => Phase::Verify,
            Phase::Verify => Phase::MakeExecutable,
            Phase::MakeExecutable => Phase::SelfCheck,
            Phase::SelfCheck => Phase::Locate,
            Phase::Locate => Phase::BackUp,
            Phase::BackUp => Phase::Stage,
            Phase::Stage => Phase::MakeStagedExecutable,
            Phase::MakeStagedExecutable => Phase::Install,
            Phase::Install => Phase::CleanUp,
            Phase::CleanUp => Phase::Over,
            Phase::Over => Phase::Over,
        }
    }

    /// Take note of the event: the error that it means, if any.
    fn take(&mut self, site: &Site, event: UpdateEvent) -> (r: Result<(), String>)
        requires
            answers_to(old(self).phase, event),
        ensures
            text::fault_of(r) == update_fault(
                old(self)@,
                site.current@,
                site.paths is Some,
                event,
            ),
            r is Ok ==> final(self)@ == (UpdateView {
                phase: old(self).phase,
                ..went_on(*site, old(self)@, event)
            }),
            r is Err ==> final(self)@ == old(self)@,
    {
        match (self.phase, event) {
            (Phase::DetectAsset, UpdateEvent::Ran(o)) => match detect_asset(o) {
                Some(asset) => {
                    self.asset = asset;
                    Ok(())
                },
                None => Err("unsupported architecture — no matching release asset".to_string()),
            },
            (Phase::AskLatest, UpdateEvent::Ran(o)) => self.take_tag(site, latest_tag(o)),
            (Phase::Download, UpdateEvent::Ran(o)) => match curl_result(o) {
                Ok(_) => Ok(()),
                Err(e) => {
                    let mut m = message("downloading ", self.asset.as_str());
                    m.append(": ");
                    m.append(e.as_str());
                    Err(m)
                },
            },
            (Phase::DownloadSums, UpdateEvent::Ran(o)) => match curl_result(o) {
                Ok(_) => Ok(()),
                Err(e) => Err(message("downloading SHA256SUMS: ", e.as_str())),
            },
            (Phase::Verify, UpdateEvent::Contents { download, sums }) => match (download, sums) {
                (Err(e), _) => Err(message("reading download: ", e.as_str())),
                (Ok(_), Err(e)) => Err(message("reading SHA256SUMS: ", e.as_str())),
                (Ok(data), Ok(text)) => verify_sha256(
                    data.as_slice(),
                    text.as_str(),
                    self.asset.as_str(),
                ),
            },
            (Phase::SelfCheck, UpdateEvent::Ran(o)) => match o {
                command::Outcome::NotStarted(e) => Err(
                    message("the downloaded binary won't run: ", e.as_str()),
                ),
                command::Outcome::Ended { success, .. } => if success {
                    Ok(())
                } else {
                    Err(
                        "the downloaded binary failed its self-check (wrong architecture?)".to_string(),
                    )
                },
            },
            (Phase::Locate, UpdateEvent::Located(r)) => match r {
                Err(e) => Err(message("locating current binary: ", e.as_str())),
                Ok(has_parent) => if has_parent {
                    Ok(())
                } else {
                    Err("target has no parent directory".to_string())
                },
            },
            (Phase::MakeExecutable, UpdateEvent::Done(Err(e))) => Err(
                message("chmod download: ", e.as_str()),
            ),
            (Phase::Stage, UpdateEvent::Done(Err(e))) => Err(
                message("staging new binary: ", e.as_str()),
            ),
            (Phase::MakeStagedExecutable, UpdateEvent::Done(Err(e))) => Err(
                message("chmod staged: ", e.as_str()),
            ),
            (Phase::Install, UpdateEvent::Done(Err(e))) => Err(
                message("installing (rename): ", e.as_str()),
            ),
            _ => Ok(()),
        }
    }

    /// Take note of the latest release: the error that it means, if any.
    pub fn take_tag(&mut self, site: &Site, tag: Result<String, String>) -> (r: Result<(), String>)
        ensures
            match result_text(tag) {
                Err(e) => text::fault_of(r) == Some(e),
                Ok(t) => if !newer(
                    version_numbers(version_text(t)),
                    version_numbers(site.current@),
                ) {
                    text::fault_of(r) == Some(
                        "already up to date (running "@ + site.current@ + ", latest "@
                            + version_text(t) + ")"@,
                    )
                } else if site.paths is None {
                    text::fault_of(r) == Some("non-UTF8 temp path"@)
                } else {
                    r is Ok && final(self)@ == (UpdateView {
                        tag: t,
                        download: (site_paths(*site)->0).0,
                        sums: (site_paths(*site)->0).1,
                        ..old(self)@
                    })
                },
            },
            r is Err ==> final(self)@ == old(self)@,
    {
        let tag = match tag {
            Ok(tag) => tag,
            Err(e) => return Err(e),
        };
        let latest = ver_num(tag.as_str());
        if !version_gt(latest.as_str(), site.current.as_str()) {
            let mut m = message("already up to date (running ", site.current.as_str());
            m.append(", latest ");
            m.append(latest.as_str());
            m.append(")");
            return Err(m);
        }
        match &site.paths {
            Some(paths) => {
                self.tag = tag;
                self.download = paths.0.clone();
                self.sums = paths.1.clone();
                Ok(())
            },
            None => Err("non-UTF8 temp path".to_string()),
        }
    }

    /// Go on with an update after what came of its last action.
    pub fn run_update(self, site: &Site, event: UpdateEvent) -> (r: (Update, UpdateAction))
        requires
            answers_to(self.phase, event),
        ensures
            (r.0@, r.1@) == next_update(*site, self@, event),
    {
        let mut u = self;
        match u.take(site, event) {
            Err(e) => {
                u.phase = Phase::Over;
                assert(u@ =~= UpdateView { phase: Phase::Over, ..self@ });
                (u, UpdateAction::Finish(Err(e)))
            },
            Ok(_) => {
                u.phase = Update::next_phase(u.phase);
                assert(u@ =~= went_on(*site, self@, event));
                let a = u.action();
                (u, a)
            },
        }
    }
}

// ---------------------------------------------------------------------------
// Laws
// ---------------------------------------------------------------------------

/// Versions are strictly ordered: none is newer than itself, of two that differ
/// exactly one is newer, and newer than a newer one is newer.
pub proof fn versions_are_strictly_ordered(
    a: (u64, u64, u64),
    b: (u64, u64, u64),
    c: (u64, u64, u64),
)
    ensures
        !newer(a, a),
        a != b ==> newer(a, b) != newer(b, a),
        newer(a, b) && newer(b, c) ==> newer(a, c),
{
}

proof fn lemma_split_numeral(n: nat, rest: Seq<char>)
    ensures
        text::split(numeral::decimal(n), ".-+"@) == seq![numeral::decimal(n)],
        text::split(numeral::decimal(n) + "."@ + rest, ".-+"@) == seq![numeral::decimal(n)]
            + text::split(rest, ".-+"@),
{
    let d = numeral::decimal(n);
    let seps = ".-+"@;
    reveal_strlit(".-+");
    reveal_strlit(".");
    numeral::decimal_reads_back(n);
    assert forall|j: int| 0 <= j < d.len() implies !seps.contains(#[trigger] d[j]) by {
        assert(numeral::is_digit(d[j]));
    }
    text::lemma_find_unique(d, seps, d.len() as int);
    let s = d + "."@ + rest;
    assert(s[d.len() as int] == '.');
    assert(seps[0] == '.');
    assert forall|j: int| 0 <= j < d.len() implies !seps.contains(#[trigger] s[j]) by {
        assert(s[j] == d[j]);
    }
    text::lemma_find_unique(s, seps, d.len() as int);
    assert(s.take(d.len() as int) =~= d);
    assert(s.skip(d.len() as int + 1) =~= rest);
}

/// The text `X.Y.Z` of a version.
pub open spec fn dotted(v: (u64, u64, u64)) -> Seq<char> {
    numeral::decimal(v.0 as nat) + "."@ + (numeral::decimal(v.1 as nat) + "."@ + numeral::decimal(
        v.2 as nat,
    ))
}

/// A version that is written as `X.Y.Z`, or as the tag `vX.Y.Z`, is read as these
/// three numbers.
pub proof fn a_version_reads_back(v: (u64, u64, u64))
    ensures
        version_numbers(dotted(v)) == v,
        version_text("v"@ + dotted(v)) == dotted(v),
        version_text(dotted(v)) == dotted(v),
{
    let a = numeral::decimal(v.0 as nat);
    let b = numeral::decimal(v.1 as nat);
    let c = numeral::decimal(v.2 as nat);
    let s = dotted(v);
    lemma_split_numeral(v.0 as nat, b + "."@ + c);
    lemma_split_numeral(v.1 as nat, c);
    lemma_split_numeral(v.2 as nat, c);
    let list = text::split(s, ".-+"@);
    assert(list =~= seq![a, b, c]);
    numeral::decimal_reads_back(v.0 as nat);
    numeral::decimal_reads_back(v.1 as nat);
    numeral::decimal_reads_back(v.2 as nat);
    reveal_with_fuel(numeral::numbers, 4);
    assert(list.drop_last() =~= seq![a, b]);
    assert(list.drop_last().drop_last() =~= seq![a]);
    assert(list.drop_last().drop_last().drop_last() =~= Seq::<Seq<char>>::empty());
    assert(numeral::numbers(list) =~= seq![v.0, v.1, v.2]);

    reveal_strlit("v");
    let t = "v"@ + s;
    assert(s[0] == a[0]);
    assert(s.last() == c.last());
    assert(numeral::is_digit(a[0]));
    assert(numeral::is_digit(c[c.len() - 1]));
    assert(t.last() == s.last());
    assert(text::trim(t) == t);
    assert(text::trim(s) == s);
    assert(t.skip("v"@.len() as int) =~= s);
    assert("v"@.is_prefix_of(t));
    reveal_with_fuel(text::strip_repeated, 2);
    assert(!"v"@.is_prefix_of(s)) by {
        if "v"@.is_prefix_of(s) {
            assert("v"@[0] == s[0]);
        }
    }
}

/// What these events make of an update that begins on the site, and what is to be
/// done next.
pub open spec fn run(site: Site, events: Seq<UpdateEvent>) -> (UpdateView, ActionView)
    decreases events.len(),
{
    if events.len() == 0 {
        (fresh(), action_of(fresh()))
    } else {
        next_update(site, run(site, events.drop_last()).0, events.last())
    }
}

/// Does each of the events come of the action before it?
pub open spec fn is_run(site: Site, events: Seq<UpdateEvent>) -> bool
    decreases events.len(),
{
    events.len() == 0 || {
        &&& is_run(site, events.drop_last())
        &&& answers_to(run(site, events.drop_last()).0.phase, events.last())
    }
}

/// How many answers it takes to come to a phase.
pub open spec fn rank(phase: Phase) -> int {
    match phase {
        Phase::DetectAsset => 0,
        Phase::AskLatest => 1,
        Phase::Download => 2,
        Phase::DownloadSums => 3,
        Phase::Verify => 4,
        Phase::MakeExecutable => 5,
        Phase::SelfCheck => 6,
        Phase::Locate => 7,
        Phase::BackUp => 8,
        Phase::Stage => 9,
        Phase::MakeStagedExecutable => 10,
        Phase::Install => 11,
        Phase::CleanUp => 12,
        Phase::Over => 13,
    }
}

/// Was an action on a file carried out?
pub open spec fn succeeded(event: UpdateEvent) -> bool {
    event matches UpdateEvent::Done(Ok(_))
}

/// Was the release newer than what is running?
pub open spec fn was_newer(site: Site, events: Seq<UpdateEvent>, tag: Seq<char>) -> bool {
    &&& tag_of(events[1]->Ran_0) == Ok::<Seq<char>, Seq<char>>(tag)
    &&& newer(version_numbers(version_text(tag)), version_numbers(site.current@))
}

/// Did the checksum of the download match the one of this hardware's asset?
pub open spec fn was_verified(events: Seq<UpdateEvent>) -> bool {
    &&& asset_of(events[0]->Ran_0) is Some
    &&& events[4]->download is Ok
    &&& events[4]->sums is Ok
    &&& digest_fault(
        digest::sha256(events[4]->download->Ok_0@),
        wanted_hash(events[4]->sums->Ok_0@, asset_of(events[0]->Ran_0)->0),
        asset_of(events[0]->Ran_0)->0,
    ) is None
}

/// Did the download run on this machine?
pub open spec fn did_run(events: Seq<UpdateEvent>) -> bool {
    output(events[6]->Ran_0) is Some
}

#[verifier::spinoff_prover]
#[verifier::rlimit(50)]
proof fn lemma_run(site: Site, events: Seq<UpdateEvent>)
    requires
        is_run(site, events),
    ensures
        ({
            let (u, a) = run(site, events);
            &&& u.phase != Phase::Over ==> a == action_of(u) && rank(u.phase) == events.len()
            &&& u.phase == Phase::Over ==> a is Finish
            &&& u.phase != Phase::Over && events.len() >= 1 ==> asset_of(events[0]->Ran_0) == Some(
                u.asset,
            )
            &&& a !is Finish || a->Finish_0 is Ok ==> {
                &&& events.len() >= 2 ==> was_newer(site, events, u.tag)
                &&& events.len() >= 5 ==> was_verified(events)
                &&& events.len() >= 7 ==> did_run(events)
            }
            &&& a is Finish && a->Finish_0 is Ok ==> {
                &&& events.len() == 13
                &&& succeeded(events[11])
                &&& a->Finish_0->Ok_0 == u.tag
            }
            &&& a is Finish && a->Finish_0 is Err ==> {
                &&& events.len() <= 12
                &&& events.len() == 12 ==> !succeeded(events[11])
            }
        }),
    decreases events.len(),
{
    if events.len() > 0 {
        let front = events.drop_last();
        lemma_run(site, front);
        let before = run(site, front).0;
        assert(before.phase != Phase::Over);
        assert(rank(before.phase) == front.len());
        if before.phase == Phase::CleanUp {
            assert(events[11] == front[11]);
            lemma_install_succeeded(site, front);
        }
    }
}

proof fn lemma_install_succeeded(site: Site, events: Seq<UpdateEvent>)
    requires
        is_run(site, events),
        run(site, events).0.phase == Phase::CleanUp,
        events.len() == 12,
    ensures
        succeeded(events[11]),
{
    let before = run(site, events.drop_last()).0;
    assert(before.phase == Phase::Install);
}

/// A release is installed only if it is newer than what is running, its checksum
/// matched, and it ran. An update that reports success has installed it.
pub proof fn only_a_checked_release_is_installed(site: Site, events: Seq<UpdateEvent>)
    requires
        is_run(site, events),
        ({
            let a = run(site, events).1;
            a == ActionView::Rename(File::Staged, File::Target) || (a is Finish && a->Finish_0 is Ok)
        }),
    ensures
        was_newer(site, events, run(site, events).0.tag),
        was_verified(events),
        did_run(events),
        run(site, events).1 is Finish ==> {
            &&& run(site, events.take(11)).1 == ActionView::Rename(File::Staged, File::Target)
            &&& succeeded(events[11])
            &&& run(site, events).1->Finish_0 == Ok::<Seq<char>, Seq<char>>(
                run(site, events).0.tag,
            )
        },
{
    lemma_run(site, events);
    if run(site, events).1 is Finish {
        assert(events.drop_last().drop_last() =~= events.take(11));
        lemma_run(site, events.drop_last());
        lemma_is_run(site, events, 11);
        lemma_run(site, events.take(11));
    }
}

/// An update that reports an error has not replaced the running binary.
pub proof fn a_failed_update_installs_nothing(site: Site, events: Seq<UpdateEvent>, i: int)
    requires
        is_run(site, events),
        run(site, events).1 is Finish,
        run(site, events).1->Finish_0 is Err,
        0 <= i < events.len(),
        run(site, events.take(i)).1 == ActionView::Rename(File::Staged, File::Target),
    ensures
        !succeeded(events[i]),
{
    lemma_run(site, events);
    lemma_is_run(site, events, i);
    lemma_run(site, events.take(i));
}

proof fn lemma_is_run(site: Site, events: Seq<UpdateEvent>, i: int)
    requires
        is_run(site, events),
        0 <= i <= events.len(),
    ensures
        is_run(site, events.take(i)),
    decreases events.len(),
{
    if i == events.len() {
        assert(events.take(i) =~= events);
    } else {
        lemma_is_run(site, events.drop_last(), i);
        assert(events.drop_last().take(i) =~= events.take(i));
    }
}

/// An update that is over goes no further, and any other ends after at most
/// thirteen answers.
pub proof fn an_update_ends(site: Site, events: Seq<UpdateEvent>)
    requires
        is_run(site, events),
    ensures
        run(site, events).0.phase == Phase::Over || events.len() < 13,
        run(site, events).1 is Finish == (run(site, events).0.phase == Phase::Over),
        forall|e: UpdateEvent| run(site, events).1 is Finish ==> !is_run(site, #[trigger] events.push(e)),
{
    lemma_run(site, events);
    assert forall|e: UpdateEvent| run(site, events).1 is Finish implies !is_run(
        site,
        #[trigger] events.push(e),
    ) by {
        assert(events.push(e).drop_last() =~= events);
    }
}

/// A version is newer exactly where one of its three numbers is greater, as a
/// number, and those before it are the same. So one more in any place is newer, and
/// what stands behind that place does not matter.
pub proof fn the_first_greater_number_makes_a_version_newer(
    a: (u64, u64, u64),
    b: (u64, u64, u64),
)
    ensures
        newer(a, b) <==> {
            ||| a.0 > b.0
            ||| a.0 == b.0 && a.1 > b.1
            ||| a.0 == b.0 && a.1 == b.1 && a.2 > b.2
        },
        forall|n: u64, y: u64, z: u64|
            n < u64::MAX ==> #[trigger] newer(((n + 1) as u64, a.1, a.2), (n, y, z)),
        forall|n: u64, z: u64|
            n < u64::MAX ==> #[trigger] newer((a.0, (n + 1) as u64, a.2), (a.0, n, z)),
        forall|n: u64| n < u64::MAX ==> #[trigger] newer((a.0, a.1, (n + 1) as u64), (a.0, a.1, n)),
{
}

/// What stands behind the three numbers of a version, after a hyphen, a plus sign or a
/// dot, does not count.
#[verifier::spinoff_prover]
#[verifier::rlimit(50)]
pub proof fn what_follows_three_numbers_does_not_count(
    v: (u64, u64, u64),
    sep: char,
    suffix: Seq<char>,
)
    requires
        sep == '-' || sep == '+' || sep == '.',
    ensures
        version_numbers(dotted(v).push(sep) + suffix) == v,
{
    let a = numeral::decimal(v.0 as nat);
    let b = numeral::decimal(v.1 as nat);
    let c = numeral::decimal(v.2 as nat);
    let seps = ".-+"@;
    reveal_strlit(".-+");
    let tail = c.push(sep) + suffix;
    let s = dotted(v).push(sep) + suffix;
    lemma_split_numeral(v.0 as nat, b + "."@ + tail);
    lemma_split_numeral(v.1 as nat, tail);
    assert(s =~= a + "."@ + (b + "."@ + tail));
    numeral::decimal_reads_back(v.0 as nat);
    numeral::decimal_reads_back(v.1 as nat);
    numeral::decimal_reads_back(v.2 as nat);
    assert(tail[c.len() as int] == sep);
    assert(seps[0] == '.' && seps[1] == '-' && seps[2] == '+');
    assert forall|j: int| 0 <= j < c.len() implies !seps.contains(#[trigger] tail[j]) by {
        assert(tail[j] == c[j]);
        assert(numeral::is_digit(c[j]));
    }
    text::lemma_find_unique(tail, seps, c.len() as int);
    assert(tail.take(c.len() as int) =~= c);
    let rest = text::split(tail.skip(c.len() as int + 1), seps);
    let list = text::split(s, seps);
    assert(list =~= seq![a, b, c] + rest);
    lemma_numbers_of_more(seq![a, b, c], rest);
    reveal_with_fuel(numeral::numbers, 4);
    let three = seq![a, b, c];
    assert(three.drop_last() =~= seq![a, b]);
    assert(three.drop_last().drop_last() =~= seq![a]);
    assert(three.drop_last().drop_last().drop_last() =~= Seq::<Seq<char>>::empty());
    assert(numeral::numbers(three) =~= seq![v.0, v.1, v.2]);
}

proof fn lemma_numbers_of_more(list: Seq<Seq<char>>, more: Seq<Seq<char>>)
    ensures
        numeral::numbers(list).is_prefix_of(numeral::numbers(list + more)),
    decreases more.len(),
{
    if more.len() == 0 {
        assert(list + more =~= list);
    } else {
        lemma_numbers_of_more(list, more.drop_last());
        assert((list + more).drop_last() =~= list + more.drop_last());
        let front = numeral::numbers(list + more.drop_last());
        let all = numeral::numbers(list + more);
        assert forall|i: int| 0 <= i < front.len() implies all[i] == front[i] by {}
        assert(numeral::numbers(list).is_prefix_of(all));
    }
}

/// An update is offered exactly where a number of the tagged version is greater than
/// that of the running one and those before it are the same.
pub proof fn an_update_is_offered_for_a_greater_version(
    info: UpdateInfo,
    latest: (u64, u64, u64),
    running: (u64, u64, u64),
    uname: command::Outcome,
)
    requires
        describes(info, dotted(running), "v"@ + dotted(latest), uname),
    ensures
        info.update_available <==> {
            ||| latest.0 > running.0
            ||| latest.0 == running.0 && latest.1 > running.1
            ||| latest.0 == running.0 && latest.1 == running.1 && latest.2 > running.2
        },
        info.current@ == dotted(running),
        info.latest@ == dotted(latest),
        info.tag@ == "v"@ + dotted(latest),
{
    a_version_reads_back(latest);
    a_version_reads_back(running);
}

/// The machine types that have an asset, and which: 64-bit ARM, ARMv7 and ARMv6.
/// Whitespace around what the kernel tells does not matter.
pub proof fn each_machine_has_its_own_asset(machine: Seq<char>, stdout: String, stderr: String)
    requires
        text::trim(stdout@) == machine,
    ensures
        ({
            let asset = asset_of(command::Outcome::Ended { success: true, stdout, stderr });
            &&& asset == Some("camera-box-pi-zero-2w-arm64"@) <==> machine == "aarch64"@ || machine
                == "arm64"@
            &&& asset == Some("camera-box-pi-zero-2w-armv7"@) <==> machine == "armv7l"@
            &&& asset == Some("camera-box-pi-zero-w-armv6"@) <==> machine == "armv6l"@
            &&& asset is None <==> machine != "aarch64"@ && machine != "arm64"@ && machine
                != "armv7l"@ && machine != "armv6l"@
        }),
        asset_of(command::Outcome::Ended { success: false, stdout, stderr }) is None,
        asset_of(command::Outcome::NotStarted(stderr)) is None,
{
    reveal_strlit("camera-box-pi-zero-2w-arm64");
    reveal_strlit("camera-box-pi-zero-2w-armv7");
    reveal_strlit("camera-box-pi-zero-w-armv6");
    reveal_strlit("aarch64");
    reveal_strlit("arm64");
    reveal_strlit("armv7l");
    reveal_strlit("armv6l");
    assert("camera-box-pi-zero-2w-arm64"@[25] != "camera-box-pi-zero-2w-armv7"@[25]);
    assert("camera-box-pi-zero-2w-arm64"@.len() != "camera-box-pi-zero-w-armv6"@.len());
    assert("armv7l"@[4] != "armv6l"@[4]);
    assert("aarch64"@.len() == 7 && "arm64"@.len() == 5 && "armv7l"@.len() == 6);
}

/// The tag is what the release's description holds as `tag_name`, unchanged; where
/// the command that asked for it failed, the error says what it wrote.
pub proof fn the_tag_is_the_one_that_the_release_states(stdout: String, stderr: String)
    ensures
        ({
            let answered = command::Outcome::Ended { success: true, stdout, stderr };
            match json_string(stdout@, "tag_name"@) {
                Ok(Some(tag)) => tag_of(answered) == Ok::<Seq<char>, Seq<char>>(tag),
                Ok(None) => tag_of(answered) == Err::<Seq<char>, Seq<char>>(
                    "no tag_name in the latest release"@,
                ),
                Err(e) => tag_of(answered) == Err::<Seq<char>, Seq<char>>(
                    "parsing release info: "@ + e,
                ),
            }
        }),
        tag_of(command::Outcome::Ended { success: false, stdout, stderr }) == Err::<
            Seq<char>,
            Seq<char>,
        >("could not reach GitHub (is the device online?): "@ + text::trim(stderr@)),
        tag_of(command::Outcome::NotStarted(stderr)) == Err::<Seq<char>, Seq<char>>(
            "could not reach GitHub (is the device online?): "@ + ("spawn curl: "@ + stderr@),
        ),
{
    reveal_strlit("spawn ");
    reveal_strlit("curl");
    reveal_strlit(": ");
    reveal_strlit("spawn curl: ");
    assert("spawn "@ + "curl"@ + ": "@ + stderr@ =~= "spawn curl: "@ + stderr@);
}

/// A hash is listed for an asset exactly where a line's second word names it, with any
/// marks before the name; of several such lines the first counts, and it is its first
/// word.
pub proof fn the_first_line_that_names_an_asset_counts(
    lines: Seq<Seq<char>>,
    asset: Seq<char>,
    i: int,
)
    requires
        0 <= i < lines.len(),
        text::words(lines[i]).len() >= 2,
        text::strip_repeated(text::strip_repeated(text::words(lines[i])[1], "./"@), "*"@) == asset,
        forall|j: int|
            0 <= j < i ==> text::words(#[trigger] lines[j]).len() < 2 || text::strip_repeated(
                text::strip_repeated(text::words(lines[j])[1], "./"@),
                "*"@,
            ) != asset,
    ensures
        listed_hash(lines, asset) == Some(text::words(lines[i])[0]),
    decreases lines.len(),
{
    if i > 0 {
        let rest = lines.drop_first();
        assert(rest[i - 1] == lines[i]);
        assert forall|j: int| 0 <= j < i - 1 implies text::words(#[trigger] rest[j]).len() < 2
            || text::strip_repeated(text::strip_repeated(text::words(rest[j])[1], "./"@), "*"@)
            != asset by {
            assert(rest[j] == lines[j + 1]);
        }
        assert(text::words(lines[0]).len() < 2 || text::strip_repeated(
            text::strip_repeated(text::words(lines[0])[1], "./"@),
            "*"@,
        ) != asset);
        the_first_line_that_names_an_asset_counts(rest, asset, i - 1);
    }
}

/// Where no line's second word names an asset, no hash is listed for it.
pub proof fn an_asset_that_no_line_names_has_no_hash(lines: Seq<Seq<char>>, asset: Seq<char>)
    requires
        forall|j: int|
            0 <= j < lines.len() ==> text::words(#[trigger] lines[j]).len() < 2
                || text::strip_repeated(
                text::strip_repeated(text::words(lines[j])[1], "./"@),
                "*"@,
            ) != asset,
    ensures
        listed_hash(lines, asset) is None,
    decreases lines.len(),
{
    if lines.len() > 0 {
        let rest = lines.drop_first();
        assert(text::words(lines[0]).len() < 2 || text::strip_repeated(
            text::strip_repeated(text::words(lines[0])[1], "./"@),
            "*"@,
        ) != asset);
        assert forall|j: int| 0 <= j < rest.len() implies text::words(#[trigger] rest[j]).len() < 2
            || text::strip_repeated(text::strip_repeated(text::words(rest[j])[1], "./"@), "*"@)
            != asset by {
            assert(rest[j] == lines[j + 1]);
        }
        an_asset_that_no_line_names_has_no_hash(rest, asset);
    }
}

/// A download passes exactly where the hash that is wanted is its digest in
/// hexadecimal, whatever the asset is called; of two different digests at most one
/// passes.
pub proof fn only_the_wanted_digest_passes(
    digest: Seq<u8>,
    want: Option<Seq<char>>,
    asset: Seq<char>,
)
    ensures
        digest_fault(digest, want, asset) is None <==> want == Some(numeral::hex(digest)),
        want is None ==> digest_fault(digest, want, asset) == Some(
            "no checksum for "@ + asset + " in SHA256SUMS"@,
        ),
        want is Some && want != Some(numeral::hex(digest)) ==> digest_fault(digest, want, asset)
            == Some(
            "checksum mismatch for "@ + asset + " (got "@ + numeral::hex(digest) + ", expected "@
                + want->0 + ")"@,
        ),
{
}

/// Is it the answer of an action that succeeded? For the description of the latest
/// release that is one with a newer tag, for the files one with a matching checksum.
pub open spec fn is_good(site: Site, events: Seq<UpdateEvent>, i: int) -> bool {
    match events[i] {
        UpdateEvent::Ran(o) => {
            &&& output(o) is Some
            &&& i == 0 ==> asset_of(o) is Some
            &&& i == 1 ==> tag_of(o) is Ok && was_newer(site, events, tag_of(o)->Ok_0)
        },
        UpdateEvent::Contents { .. } => was_verified(events),
        UpdateEvent::Located(r) => r == Ok::<bool, String>(true),
        // The backup and the cleaning up are best effort.
        UpdateEvent::Done(r) => r is Ok || i == 8 || i == 12,
    }
}

/// An update in which every action succeeds does all of this, in this order: tell the
/// hardware, ask for the latest release, download its asset and its checksums, verify
/// the one by the other, make it executable, run it, locate the running binary, back
/// it up, stage the new one beside it, make that executable, and put it in the place
/// of the running one.
#[verifier::spinoff_prover]
#[verifier::rlimit(50)]
pub proof fn an_update_does_its_work_in_order(site: Site, events: Seq<UpdateEvent>)
    requires
        is_run(site, events),
        site.paths is Some,
        forall|i: int| 0 <= i < events.len() ==> #[trigger] is_good(site, events, i),
    ensures
        ({
            let (u, action) = run(site, events);
            let n = events.len();
            let base = "https://github.com/codesource/camerabox/releases/download/"@;
            let (download, sums) = (site_paths(site)->0);
            &&& n == 0 ==> (action matches ActionView::Run(c) && c.program == "uname"@ && c.args
                == seq!["-m"@])
            &&& n == 1 ==> (action matches ActionView::Run(c) && c.program == "curl"@
                && c.args.contains(
                "https://api.github.com/repos/codesource/camerabox/releases/latest"@,
            ))
            &&& n >= 2 ==> Ok::<Seq<char>, Seq<char>>(u.tag) == tag_of(events[1]->Ran_0)
            &&& n >= 1 ==> Some(u.asset) == asset_of(events[0]->Ran_0)
            &&& n == 2 ==> (action matches ActionView::Run(c) && c.program == "curl"@
                && c.args.contains(base + u.tag + "/"@ + u.asset) && c.args.contains(download))
            &&& n == 3 ==> (action matches ActionView::Run(c) && c.program == "curl"@
                && c.args.contains(base + u.tag + "/"@ + "SHA256SUMS"@) && c.args.contains(sums))
            &&& n == 4 ==> action is Read
            &&& n == 5 ==> action == ActionView::MakeExecutable(File::Download)
            &&& n == 6 ==> (action matches ActionView::Run(c) && c.program == download && c.args
                == seq!["version"@])
            &&& n == 7 ==> action is Locate
            &&& n == 8 ==> action == ActionView::Copy(File::Target, File::Backup)
            &&& n == 9 ==> action == ActionView::Copy(File::Download, File::Staged)
            &&& n == 10 ==> action == ActionView::MakeExecutable(File::Staged)
            &&& n == 11 ==> action == ActionView::Rename(File::Staged, File::Target)
            &&& n == 12 ==> action == ActionView::Remove(File::Download)
            &&& n == 13 ==> action == ActionView::Finish(Ok(u.tag))
            &&& n <= 13
        }),
{
    lemma_good_run(site, events);
    let u = run(site, events).0;
    if events.len() == 1 {
        assert(latest_view().args[5]
            == "https://api.github.com/repos/codesource/camerabox/releases/latest"@);
    } else if events.len() == 2 {
        assert(download_view(u).args[7] == release_url(u.tag, u.asset));
        assert(download_view(u).args[6] == u.download);
    } else if events.len() == 3 {
        assert(sums_view(u).args[7] == release_url(u.tag, "SHA256SUMS"@));
        assert(sums_view(u).args[6] == u.sums);
    }
}

#[verifier::spinoff_prover]
#[verifier::rlimit(50)]
proof fn lemma_good_run(site: Site, events: Seq<UpdateEvent>)
    requires
        is_run(site, events),
        site.paths is Some,
        forall|i: int| 0 <= i < events.len() ==> #[trigger] is_good(site, events, i),
    ensures
        ({
            let (u, action) = run(site, events);
            &&& action == action_of(u)
            &&& rank(u.phase) == events.len()
            &&& events.len() >= 1 ==> Some(u.asset) == asset_of(events[0]->Ran_0)
            &&& events.len() >= 2 ==> {
                &&& Ok::<Seq<char>, Seq<char>>(u.tag) == tag_of(events[1]->Ran_0)
                &&& (u.download, u.sums) == site_paths(site)->0
            }
        }),
    decreases events.len(),
{
    if events.len() > 0 {
        let front = events.drop_last();
        let last = events.len() - 1;
        assert forall|i: int| 0 <= i < front.len() implies #[trigger] is_good(site, front, i) by {
            assert(is_good(site, events, i));
            assert(front[i] == events[i]);
            if front[i] is Contents {
                lemma_contents_at(site, events, i);
            }
        }
        lemma_good_run(site, front);
        assert(is_good(site, events, last));
    }
}

proof fn lemma_contents_at(site: Site, events: Seq<UpdateEvent>, i: int)
    requires
        is_run(site, events),
        0 <= i < events.len(),
        events[i] is Contents,
    ensures
        i == 4,
{
    lemma_is_run(site, events, i);
    lemma_is_run(site, events, i + 1);
    assert(events.take(i + 1).drop_last() =~= events.take(i));
    assert(events.take(i + 1).last() == events[i]);
    lemma_run(site, events.take(i));
}

/// Whitespace around a tag does not matter.
pub proof fn whitespace_around_a_tag_does_not_matter(
    v: (u64, u64, u64),
    before: Seq<char>,
    behind: Seq<char>,
)
    requires
        text::is_blank(before),
        text::is_blank(behind),
    ensures
        version_text(before + ("v"@ + dotted(v)) + behind) == dotted(v),
{
    let tag = "v"@ + dotted(v);
    let c = numeral::decimal(v.2 as nat);
    numeral::decimal_reads_back(v.2 as nat);
    reveal_strlit("v");
    assert(tag[0] == 'v');
    assert(numeral::is_digit(c[c.len() - 1]));
    assert(tag.last() == c.last());
    let none = Seq::<char>::empty();
    assert(none + tag + none =~= tag);
    text::trimming_takes_the_whitespace_at_both_ends(tag, none, tag, none);
    text::trimming_takes_the_whitespace_at_both_ends(before + tag + behind, before, tag, behind);
    a_version_reads_back(v);
}

/// What the commands of an update are asked to do: to fail on an HTTP error, to follow
/// redirects, to name the program, not to take too long, and where to put what they get.
pub proof fn the_commands_of_an_update(u: UpdateView)
    ensures
        latest_view().program == "curl"@,
        latest_view().args == seq![
            "-fsSL"@,
            "-A"@,
            "camera-box"@,
            "--max-time"@,
            "20"@,
            "https://api.github.com/repos/codesource/camerabox/releases/latest"@,
        ],
        download_view(u).program == "curl"@,
        download_view(u).args == seq![
            "-fL"@,
            "-A"@,
            "camera-box"@,
            "--max-time"@,
            "300"@,
            "-o"@,
            u.download,
            "https://github.com/codesource/camerabox/releases/download/"@ + u.tag + "/"@ + u.asset,
        ],
        sums_view(u).program == "curl"@,
        sums_view(u).args == seq![
            "-fsSL"@,
            "-A"@,
            "camera-box"@,
            "--max-time"@,
            "60"@,
            "-o"@,
            u.sums,
            "https://github.com/codesource/camerabox/releases/download/"@ + u.tag + "/"@
                + "SHA256SUMS"@,
        ],
        file_name(File::Download) == Some("camera-box.update"@),
        file_name(File::Checksums) == Some("camera-box.SHA256SUMS"@),
        file_name(File::Backup) == Some("bak"@),
        file_name(File::Staged) == Some(".camera-box.new"@),
        file_name(File::Target) is None,
{
}

/// The error of a command is that it did not start, or what it wrote about its failure,
/// without the whitespace around it; a success is none, whatever it wrote.
pub proof fn the_trouble_with_a_command(
    program: Seq<char>,
    stdout: String,
    stderr: String,
)
    ensures
        trouble(program, command::Outcome::Ended { success: true, stdout, stderr }) is None,
        output(command::Outcome::Ended { success: true, stdout, stderr }) == Some(stdout@),
        trouble(program, command::Outcome::Ended { success: false, stdout, stderr }) == Some(
            text::trim(stderr@),
        ),
        output(command::Outcome::Ended { success: false, stdout, stderr }) is None,
        trouble(program, command::Outcome::NotStarted(stderr)) == Some(
            "spawn "@ + program + ": "@ + stderr@,
        ),
        output(command::Outcome::NotStarted(stderr)) is None,
{
}

/// The hash that is wanted is the one that is listed, in lower case; none where none is.
pub proof fn the_wanted_hash_is_the_listed_one(sums: Seq<char>, asset: Seq<char>)
    ensures
        wanted_hash(sums, asset) == match listed_hash(text::lines(sums), asset) {
            Some(h) => Some(lower_case(h)),
            None => None,
        },
{
}

/// Every failure that matters ends an update at once, with an error that says what went
/// wrong.
#[verifier::spinoff_prover]
#[verifier::rlimit(50)]
pub proof fn a_failure_ends_an_update(site: Site, u: UpdateView, event: UpdateEvent, e: Seq<char>)
    requires
        answers_to(u.phase, event),
    ensures
        ({
            let action = next_update(site, u, event).1;
            let fails_with = |message: Seq<char>|
                action == ActionView::Finish(Err::<Seq<char>, Seq<char>>(message));
            &&& (event matches UpdateEvent::Ran(o) ==> {
                &&& u.phase is DetectAsset && asset_of(o) is None ==> fails_with(
                    "unsupported architecture — no matching release asset"@,
                )
                &&& u.phase is AskLatest && tag_of(o) == Err::<Seq<char>, Seq<char>>(e)
                    ==> fails_with(e)
                &&& u.phase is AskLatest && (tag_of(o) matches Ok(tag) && !newer(
                    version_numbers(version_text(tag)),
                    version_numbers(site.current@),
                )) ==> fails_with(
                    "already up to date (running "@ + site.current@ + ", latest "@ + version_text(
                        tag_of(o)->Ok_0,
                    ) + ")"@,
                )
                &&& u.phase is AskLatest && site.paths is None && (tag_of(o) matches Ok(tag)
                    && newer(
                    version_numbers(version_text(tag)),
                    version_numbers(site.current@),
                )) ==> fails_with("non-UTF8 temp path"@)
                &&& u.phase is Download && trouble("curl"@, o) == Some(e) ==> fails_with(
                    "downloading "@ + u.asset + ": "@ + e,
                )
                &&& u.phase is DownloadSums && trouble("curl"@, o) == Some(e) ==> fails_with(
                    "downloading SHA256SUMS: "@ + e,
                )
                &&& u.phase is SelfCheck ==> {
                    &&& o matches command::Outcome::NotStarted(m) ==> fails_with(
                        "the downloaded binary won't run: "@ + m@,
                    )
                    &&& o matches command::Outcome::Ended { success, .. } ==> !success
                        ==> fails_with(
                        "the downloaded binary failed its self-check (wrong architecture?)"@,
                    )
                }
            })
            &&& (event matches UpdateEvent::Contents { download, sums } ==> {
                &&& download matches Err(m) ==> fails_with("reading download: "@ + m@)
                &&& download is Ok ==> (sums matches Err(m) ==> fails_with(
                    "reading SHA256SUMS: "@ + m@,
                ))
                &&& download is Ok && sums is Ok && digest_fault(
                    digest::sha256(download->Ok_0@),
                    wanted_hash(sums->Ok_0@, u.asset),
                    u.asset,
                ) == Some(e) ==> fails_with(e)
            })
            &&& (event matches UpdateEvent::Located(r) ==> {
                &&& r matches Err(m) ==> fails_with("locating current binary: "@ + m@)
                &&& r matches Ok(has_parent) ==> !has_parent ==> fails_with(
                    "target has no parent directory"@,
                )
            })
            &&& (event matches UpdateEvent::Done(Err(m)) ==> {
                &&& u.phase is MakeExecutable ==> fails_with("chmod download: "@ + m@)
                &&& u.phase is Stage ==> fails_with("staging new binary: "@ + m@)
                &&& u.phase is MakeStagedExecutable ==> fails_with("chmod staged: "@ + m@)
                &&& u.phase is Install ==> fails_with("installing (rename): "@ + m@)
                &&& u.phase is BackUp || u.phase is CleanUp ==> !(action is Finish
                    && action->Finish_0 is Err)
            })
        }),
{
}

/// A version with fewer than three numbers has zeros for the others.
pub proof fn missing_numbers_are_zero(a: u64, b: u64)
    ensures
        version_numbers(numeral::decimal(a as nat)) == (a, 0u64, 0u64),
        version_numbers(numeral::decimal(a as nat) + "."@ + numeral::decimal(b as nat)) == (
            a,
            b,
            0u64,
        ),
        version_numbers(Seq::<char>::empty()) == (0u64, 0u64, 0u64),
{
    let x = numeral::decimal(a as nat);
    let y = numeral::decimal(b as nat);
    let none = Seq::<Seq<char>>::empty();
    lemma_split_numeral(a as nat, y);
    lemma_split_numeral(b as nat, y);
    numeral::decimal_reads_back(a as nat);
    numeral::decimal_reads_back(b as nat);
    numeral::a_text_adds_its_number(none, x);
    numeral::a_text_adds_its_number(none.push(x), y);
    assert(none.push(x) =~= seq![x]);
    assert(none.push(x).push(y) =~= seq![x] + seq![y]);
    let empty = Seq::<char>::empty();
    numeral::a_text_adds_its_number(none, empty);
    assert(none.push(empty) =~= seq![empty]);
    assert(text::split(empty, ".-+"@) =~= seq![empty]);
}

} // verus!
