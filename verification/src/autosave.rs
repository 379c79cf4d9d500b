//! The systemd units of automatic saving.

use crate::files::FileFacts;
use crate::text;
use vstd::prelude::*;
use vstd::utf8;

verus! {

/// The service that saves a session.
pub const SERVICE_NAME: &'static str = "hyprloom-autosave.service";

/// The timer that runs the service.
pub const TIMER_NAME: &'static str = "hyprloom-autosave.timer";

/// The service of earlier versions.
pub const LEGACY_SERVICE_NAME: &'static str = "hyprflow-autosave.service";

/// The timer of earlier versions.
pub const LEGACY_TIMER_NAME: &'static str = "hyprflow-autosave.timer";

// ── Unit files ─────────────────────────────────────────────────────────────

/// A character inside a quoted path.
pub open spec fn escaped(c: char) -> Seq<char> {
    if c == '\\' {
        seq!['\\', '\\']
    } else if c == '"' {
        seq!['\\', '"']
    } else if c == '%' {
        seq!['%', '%']
    } else {
        seq![c]
    }
}

/// The characters of a path inside quotes.
pub open spec fn all_escaped(path: Seq<char>) -> Seq<char>
    decreases path.len(),
{
    if path.len() == 0 {
        Seq::empty()
    } else {
        all_escaped(path.drop_last()) + escaped(path.last())
    }
}

/// A path as it stands in a unit file.
pub open spec fn quoted_path(path: Seq<char>) -> Seq<char> {
    seq!['"'] + all_escaped(path) + seq!['"']
}

/// Quotes a path for a unit file.
pub fn systemd_quote_path(path: &str) -> (r: String)
    ensures
        r@ == quoted_path(path@),
{
    let chars = text::chars_of(path);
    let ghost all = path@;
    let mut out = String::new();
    out.push('"');
    let mut i: usize = 0;
    assert(all.take(0) =~= Seq::<char>::empty());
    assert(out@ =~= seq!['"'] + all_escaped(all.take(0)));
    while i < chars.len()
        invariant
            i <= chars.len(),
            chars@ == all,
            out@ == seq!['"'] + all_escaped(all.take(i as int)),
        decreases chars.len() - i,
    {
        let c = chars[i];
        let ghost before = out@;
        assert(all.take(i + 1).drop_last() =~= all.take(i as int));
        assert(all.take(i + 1).last() == c);
        if c == '\\' {
            out.push('\\');
            out.push('\\');
        } else if c == '"' {
            out.push('\\');
            out.push('"');
        } else if c == '%' {
            out.push('%');
            out.push('%');
        } else {
            out.push(c);
        }
        assert(out@ =~= before + escaped(c));
        assert(out@ =~= seq!['"'] + (all_escaped(all.take(i as int)) + escaped(c)));
        i += 1;
    }
    assert(all.take(i as int) =~= all);
    out.push('"');
    assert(out@ =~= quoted_path(all));
    out
}

proof fn lemma_escaped_apart(a: Seq<char>, b: Seq<char>)
    requires
        all_escaped(a) == all_escaped(b),
    ensures
        a == b,
    decreases a.len(),
{
    if a.len() > 0 && b.len() > 0 {
        let x = a.last();
        let y = b.last();
        let start = all_escaped(a.drop_last());
        let other = all_escaped(b.drop_last());
        assert(escaped(x).last() == x && escaped(y).last() == y);
        assert((start + escaped(x)).last() == x);
        assert((other + escaped(y)).last() == y);
        assert(x == y);
        assert(start =~= all_escaped(a).take(start.len() as int));
        assert(other =~= all_escaped(b).take(other.len() as int));
        lemma_escaped_apart(a.drop_last(), b.drop_last());
        assert(a =~= a.drop_last().push(x));
        assert(b =~= b.drop_last().push(y));
    } else if a.len() > 0 {
        assert(all_escaped(a).len() > 0);
    } else if b.len() > 0 {
        assert(all_escaped(b).len() > 0);
    } else {
        assert(a =~= b);
    }
}

/// No two paths are quoted alike.
pub proof fn law_quoted_paths_are_told_apart(a: Seq<char>, b: Seq<char>)
    requires
        quoted_path(a) == quoted_path(b),
    ensures
        a == b,
{
    let inner = quoted_path(a).subrange(1, quoted_path(a).len() - 1);
    assert(inner =~= all_escaped(a));
    assert(quoted_path(b).subrange(1, quoted_path(b).len() - 1) =~= all_escaped(b));
    lemma_escaped_apart(a, b);
}

/// What the service file holds.
pub open spec fn service_text(binary: Seq<char>) -> Seq<char> {
    "[Unit]\nDescription=Hyprloom autosave session\n\n[Service]\nType=oneshot\nExecStart="@
        + quoted_path(binary) + " autosave --now\n"@
}

/// What the service file holds.
pub fn service_content(binary: &str) -> (r: String)
    ensures
        r@ == service_text(binary@),
{
    "[Unit]\nDescription=Hyprloom autosave session\n\n[Service]\nType=oneshot\nExecStart=".to_owned().concat(
    systemd_quote_path(binary).as_str()).concat(" autosave --now\n")
}

/// What the timer file holds.
pub open spec fn timer_text() -> Seq<char> {
    "[Unit]\nDescription=Hyprloom autosave timer\n\n[Timer]\nOnUnitActiveSec=10min\nOnBootSec=1min\n\n[Install]\nWantedBy=timers.target\n"@
}

/// What the timer file holds.
pub fn timer_content() -> (r: String)
    ensures
        r@ == timer_text(),
{
    "[Unit]\nDescription=Hyprloom autosave timer\n\n[Timer]\nOnUnitActiveSec=10min\nOnBootSec=1min\n\n[Install]\nWantedBy=timers.target\n".to_owned()
}

// ── Directories and files ──────────────────────────────────────────────────

/// Why a parent directory cannot be trusted.  Others may write to it only
/// where they can delete nothing but their own.
pub open spec fn parent_complaint(facts: FileFacts, path: Seq<char>) -> Option<Seq<char>> {
    if !facts.is_directory {
        Some("autosave parent is not a directory: "@ + path)
    } else if facts.mode & 0o022 != 0 && facts.mode & 0o1000 == 0 {
        Some("autosave parent is writable by another user: "@ + path)
    } else {
        None
    }
}

/// Why the directory of the units cannot be trusted.
pub open spec fn directory_complaint(facts: FileFacts, path: Seq<char>) -> Option<Seq<char>> {
    if !facts.is_directory {
        Some("autosave path is not a directory: "@ + path)
    } else if !facts.is_owned || facts.mode & 0o022 != 0 {
        Some("autosave directory is not user-owned and private: "@ + path)
    } else {
        None
    }
}

/// Why a unit file cannot be read.
pub open spec fn unit_complaint(facts: FileFacts, path: Seq<char>) -> Option<Seq<char>> {
    if !facts.is_file {
        Some("systemd unit is not a regular file: "@ + path)
    } else if !facts.is_owned {
        Some("systemd unit is not user-owned: "@ + path)
    } else {
        None
    }
}

/// Why a record cannot be made private.
pub open spec fn marker_complaint(facts: FileFacts, path: Seq<char>) -> Option<Seq<char>> {
    if !facts.is_file {
        Some("autosave transaction marker is not a regular file: "@ + path)
    } else if !facts.is_owned {
        Some("autosave transaction marker is not user-owned: "@ + path)
    } else {
        None
    }
}

/// Why a record cannot be trusted after it was made private.
pub open spec fn privacy_complaint(facts: FileFacts, path: Seq<char>) -> Option<Seq<char>> {
    if !facts.is_owned || facts.mode & 0o077 != 0 {
        Some("autosave transaction marker is not private: "@ + path)
    } else {
        None
    }
}

/// Checks the parent of the directory of the units.
pub fn check_parent(facts: FileFacts, path: &str) -> (r: Option<String>)
    ensures
        r.deep_view() == parent_complaint(facts, path@),
{
    if !facts.is_directory {
        return Some("autosave parent is not a directory: ".to_owned().concat(path));
    }
    if facts.mode & 0o022 != 0 && facts.mode & 0o1000 == 0 {
        return Some("autosave parent is writable by another user: ".to_owned().concat(path));
    }
    None
}

/// Checks the directory of the units.
pub fn check_directory(facts: FileFacts, path: &str) -> (r: Option<String>)
    ensures
        r.deep_view() == directory_complaint(facts, path@),
{
    if !facts.is_directory {
        return Some("autosave path is not a directory: ".to_owned().concat(path));
    }
    if !facts.is_owned || facts.mode & 0o022 != 0 {
        return Some(
            "autosave directory is not user-owned and private: ".to_owned().concat(path),
        );
    }
    None
}

/// Why the program that the service runs cannot be one.
pub open spec fn program_complaint(is_absolute: bool, facts: FileFacts) -> Option<Seq<char>> {
    if !is_absolute {
        Some("current executable path is not absolute"@)
    } else if !facts.is_file {
        Some("current executable is not a regular file"@)
    } else if facts.mode & 0o111 == 0 {
        Some("current executable is not executable"@)
    } else {
        None
    }
}

/// Checks the program that the service is to run.
pub fn check_program(is_absolute: bool, facts: FileFacts) -> (r: Option<String>)
    ensures
        r.deep_view() == program_complaint(is_absolute, facts),
{
    if !is_absolute {
        return Some("current executable path is not absolute".to_owned());
    }
    if !facts.is_file {
        return Some("current executable is not a regular file".to_owned());
    }
    if facts.mode & 0o111 == 0 {
        return Some("current executable is not executable".to_owned());
    }
    None
}

/// Checks a unit file that is to be read.
pub fn check_unit(facts: FileFacts, path: &str) -> (r: Option<String>)
    ensures
        r.deep_view() == unit_complaint(facts, path@),
{
    if !facts.is_file {
        return Some("systemd unit is not a regular file: ".to_owned().concat(path));
    }
    if !facts.is_owned {
        return Some("systemd unit is not user-owned: ".to_owned().concat(path));
    }
    None
}

/// Checks the record of an install before it is made private.
pub fn check_marker(facts: FileFacts, path: &str) -> (r: Option<String>)
    ensures
        r.deep_view() == marker_complaint(facts, path@),
{
    if !facts.is_file {
        return Some(
            "autosave transaction marker is not a regular file: ".to_owned().concat(path),
        );
    }
    if !facts.is_owned {
        return Some("autosave transaction marker is not user-owned: ".to_owned().concat(path));
    }
    None
}

/// The permissions of a record.
pub const MARKER_MODE: u32 = 0o600;

/// Tells whether the permissions of a record have to be changed.
pub fn needs_private_mode(mode: u32) -> (r: bool)
    ensures
        r == (mode & 0o777 != MARKER_MODE),
{
    mode & 0o777 != MARKER_MODE
}

/// Checks the record of an install after it was made private.
pub fn check_privacy(facts: FileFacts, path: &str) -> (r: Option<String>)
    ensures
        r.deep_view() == privacy_complaint(facts, path@),
{
    if !facts.is_owned || facts.mode & 0o077 != 0 {
        return Some("autosave transaction marker is not private: ".to_owned().concat(path));
    }
    None
}

// ── Interrupted installs ───────────────────────────────────────────────────

/// How far an install went.
#[derive(Debug, Clone, Copy, PartialEq, Eq, Structural)]
pub enum InstallPhase {
    /// Nothing was touched.
    Prepared,
    /// The old units are stored.
    BackedUp,
    /// The service was written.
    ServiceWritten,
    /// The timer was written.
    TimerWritten,
    /// All is done.
    Committed,
}

/// What is recorded of a phase.
pub open spec fn phase_text(phase: InstallPhase) -> Seq<char> {
    match phase {
        InstallPhase::Prepared => "prepared"@,
        InstallPhase::BackedUp => "backed-up"@,
        InstallPhase::ServiceWritten => "service-written"@,
        InstallPhase::TimerWritten => "timer-written"@,
        InstallPhase::Committed => "committed"@,
    }
}

/// What is recorded of a phase.
pub fn phase_name(phase: InstallPhase) -> (r: &'static str)
    ensures
        r@ == phase_text(phase),
{
    match phase {
        InstallPhase::Prepared => "prepared",
        InstallPhase::BackedUp => "backed-up",
        InstallPhase::ServiceWritten => "service-written",
        InstallPhase::TimerWritten => "timer-written",
        InstallPhase::Committed => "committed",
    }
}

/// What an install does next.
#[derive(Debug, Clone, Copy, PartialEq, Eq, Structural)]
pub enum InstallStep {
    /// Stores the old units.
    StoreUnits,
    /// Writes the service.
    WriteService,
    /// Writes the timer.
    WriteTimer,
    /// Nothing but to record that all is written.
    Commit,
    /// Removes what was stored.
    CleanUp,
}

/// The step that follows a phase, and the phase that is recorded when it is
/// done.
pub open spec fn step_after(phase: InstallPhase) -> (InstallStep, Option<InstallPhase>) {
    match phase {
        InstallPhase::Prepared => (InstallStep::StoreUnits, Some(InstallPhase::BackedUp)),
        InstallPhase::BackedUp => (InstallStep::WriteService, Some(InstallPhase::ServiceWritten)),
        InstallPhase::ServiceWritten => (InstallStep::WriteTimer, Some(InstallPhase::TimerWritten)),
        InstallPhase::TimerWritten => (InstallStep::Commit, Some(InstallPhase::Committed)),
        InstallPhase::Committed => (InstallStep::CleanUp, None),
    }
}

/// The step that follows a phase, and the phase that is recorded when it is
/// done.
pub fn next_install_step(phase: InstallPhase) -> (r: (InstallStep, Option<InstallPhase>))
    ensures
        r == step_after(phase),
{
    match phase {
        InstallPhase::Prepared => (InstallStep::StoreUnits, Some(InstallPhase::BackedUp)),
        InstallPhase::BackedUp => (InstallStep::WriteService, Some(InstallPhase::ServiceWritten)),
        InstallPhase::ServiceWritten => (InstallStep::WriteTimer, Some(InstallPhase::TimerWritten)),
        InstallPhase::TimerWritten => (InstallStep::Commit, Some(InstallPhase::Committed)),
        InstallPhase::Committed => (InstallStep::CleanUp, None),
    }
}

/// What the record of a phase holds.
pub open spec fn marker_text(phase: InstallPhase) -> Seq<char> {
    phase_text(phase) + "\n"@
}

/// What the record of a phase holds.
pub fn marker_content(phase: InstallPhase) -> (r: String)
    ensures
        r@ == marker_text(phase),
{
    phase_name(phase).to_owned().concat("\n")
}

/// Whether the old units have to be put back after an interruption; nothing
/// where the record is not understood.
pub open spec fn needs_rollback(record: Seq<char>) -> Option<bool> {
    let phase = text::trimmed(record);
    if phase == phase_text(InstallPhase::Prepared) || phase == phase_text(
        InstallPhase::Committed,
    ) {
        Some(false)
    } else if phase == phase_text(InstallPhase::BackedUp) || phase == phase_text(
        InstallPhase::ServiceWritten,
    ) || phase == phase_text(InstallPhase::TimerWritten) {
        Some(true)
    } else {
        None
    }
}

/// Tells whether the old units have to be put back after an interruption.
pub fn rollback_is_needed(record: &str) -> (r: Result<bool, String>)
    ensures
        match r {
            Ok(needed) => needs_rollback(record@) == Some(needed),
            Err(reason) => needs_rollback(record@) is None && reason@
                == "autosave transaction marker has an unknown phase"@,
        },
{
    let phase = text::trim(record);
    let phase = phase.as_str();
    if text::same(phase, "prepared") || text::same(phase, "committed") {
        return Ok(false);
    }
    if text::same(phase, "backed-up") || text::same(phase, "service-written") || text::same(
        phase,
        "timer-written",
    ) {
        return Ok(true);
    }
    Err("autosave transaction marker has an unknown phase".to_owned())
}

proof fn lemma_line(s: Seq<char>)
    requires
        s.len() > 0,
        !text::is_space(s[0]),
        !text::is_space(s.last()),
    ensures
        text::trimmed(s + "\n"@) == s,
{
    reveal_strlit("\n");
    let line = s + "\n"@;
    assert(line[0] == s[0]);
    assert(line.last() == '\n');
    assert(line.drop_last() =~= s);
    assert(text::trimmed_start(line) == line);
    assert(text::trimmed_end(s) == s);
    assert(text::trimmed_end(line) == text::trimmed_end(line.drop_last()));
}

/// What is recorded of a phase is read back: the old units are put back after
/// an interruption wherever a unit may have been written, and nowhere else.  A
/// unit is written only while the record says so.
pub proof fn law_half_installs_are_rolled_back(phase: InstallPhase)
    ensures
        needs_rollback(marker_text(phase)) == Some(
            phase is BackedUp || phase is ServiceWritten || phase is TimerWritten,
        ),
        step_after(phase).0 is WriteService || step_after(phase).0 is WriteTimer ==> needs_rollback(
            marker_text(phase),
        ) == Some(true),
{
    reveal_strlit("prepared");
    reveal_strlit("backed-up");
    reveal_strlit("service-written");
    reveal_strlit("timer-written");
    reveal_strlit("committed");
    assert("backed-up"@[0] == 'b');
    assert("committed"@[0] == 'c');
    lemma_line(phase_text(phase));
}

// ── Systemctl ──────────────────────────────────────────────────────────────

/// Result of one systemctl invocation: spawn and exit success plus bounded
/// stderr for diagnostics.
#[derive(Debug)]
pub struct SystemctlOutcome {
    /// Whether the command spawned and exited successfully.
    pub success: bool,
    /// The process exit status, when it exited (None on spawn failure).
    /// State queries distinguish outcomes by code: `0` enabled/active, `1`
    /// disabled/inactive, anything else is a query error.
    pub code: Option<i32>,
    /// Bounded stderr text from the command, for stage-and-unit errors.
    pub stderr: String,
}

/// Injectable systemctl boundary so uninstall transitions can be scripted.
pub trait SystemctlRunner {
    /// Run one systemctl command with the given arguments.
    fn run(&self, args: &[&str]) -> SystemctlOutcome;
}

/// The most characters of a complaint that are kept.
pub const SYSTEMCTL_STDERR_LIMIT: usize = 400;

/// The start of a complaint.
pub open spec fn bounded(s: Seq<char>) -> Seq<char> {
    text::trimmed(
        if s.len() > SYSTEMCTL_STDERR_LIMIT {
            s.take(SYSTEMCTL_STDERR_LIMIT as int) + "…"@
        } else {
            s
        },
    )
}

/// The text that `String::from_utf8_lossy` makes of some bytes.
pub uninterp spec fn lossy_text(bytes: Seq<u8>) -> Seq<char>;

/// Calls `String::from_utf8_lossy` and takes the text over.  The text depends
/// on the bytes alone, and it is what they stand for where they are UTF-8.
#[verifier::external_body]
fn decode_lossily(bytes: &[u8]) -> (r: String)
    ensures
        r@ == lossy_text(bytes@),
        utf8::valid_utf8(bytes@) ==> r@ == utf8::decode_utf8(bytes@),
{
    String::from_utf8_lossy(bytes).into_owned()
}

/// The start of the complaint that a command wrote.
pub fn bounded_stderr(bytes: &[u8]) -> (r: String)
    ensures
        r@ == bounded(lossy_text(bytes@)),
        utf8::valid_utf8(bytes@) ==> r@ == bounded(utf8::decode_utf8(bytes@)),
{
    let complaint = decode_lossily(bytes);
    bounded_text(complaint.as_str())
}

/// The start of a complaint.
pub fn bounded_text(complaint: &str) -> (r: String)
    ensures
        r@ == bounded(complaint@),
{
    let chars = text::chars_of(complaint);
    if chars.len() > SYSTEMCTL_STDERR_LIMIT {
        let head = text::start(complaint, SYSTEMCTL_STDERR_LIMIT);
        return text::trim(head.concat("…").as_str());
    }
    text::trim(complaint)
}

/// What systemctl may answer to a command.
pub open spec fn may_answer<S: SystemctlRunner + ?Sized>(
    systemctl: &S,
    words: Seq<Seq<char>>,
    outcome: SystemctlOutcome,
) -> bool {
    exists|args: &[&str]|
        args.deep_view() == words && #[trigger] call_ensures(S::run, (systemctl, args), outcome)
}

/// A command that may have succeeded.
pub open spec fn may_succeed<S: SystemctlRunner + ?Sized>(
    systemctl: &S,
    words: Seq<Seq<char>>,
) -> bool {
    exists|outcome: SystemctlOutcome|
        outcome.success && #[trigger] may_answer(systemctl, words, outcome)
}

/// The words of a command that switches a unit.
pub open spec fn switch_words(verb: Seq<char>, unit: Seq<char>) -> Seq<Seq<char>> {
    seq!["--user"@, verb, "--now"@, unit]
}

/// The words of a command that asks for the state of a unit.
pub open spec fn query_words(verb: Seq<char>, unit: Seq<char>) -> Seq<Seq<char>> {
    seq!["--user"@, verb, "--quiet"@, unit]
}

fn switch<S: SystemctlRunner + ?Sized>(systemctl: &S, verb: &str, unit: &str) -> (r:
    SystemctlOutcome)
    ensures
        may_answer(systemctl, switch_words(verb@, unit@), r),
{
    let args: [&str; 4] = ["--user", verb, "--now", unit];
    assert(args.deep_view() =~= switch_words(verb@, unit@));
    let words: &[&str] = &args;
    assert(words.deep_view() =~= switch_words(verb@, unit@));
    let outcome = systemctl.run(words);
    assert(call_ensures(S::run, (systemctl, words), outcome));
    outcome
}

fn query<S: SystemctlRunner + ?Sized>(systemctl: &S, verb: &str, unit: &str) -> (r:
    SystemctlOutcome)
    ensures
        may_answer(systemctl, query_words(verb@, unit@), r),
{
    let args: [&str; 4] = ["--user", verb, "--quiet", unit];
    assert(args.deep_view() =~= query_words(verb@, unit@));
    let words: &[&str] = &args;
    assert(words.deep_view() =~= query_words(verb@, unit@));
    let outcome = systemctl.run(words);
    assert(call_ensures(S::run, (systemctl, words), outcome));
    outcome
}

// ── State ──────────────────────────────────────────────────────────────────

/// What may be told of the state of either timer.
pub open spec fn may_tell<S: SystemctlRunner + ?Sized>(
    systemctl: &S,
    verb: Seq<char>,
    r: bool,
) -> bool {
    if r {
        may_succeed(systemctl, query_words(verb, TIMER_NAME@)) || may_succeed(
            systemctl,
            query_words(verb, LEGACY_TIMER_NAME@),
        )
    } else {
        exists|first: SystemctlOutcome, second: SystemctlOutcome|
            {
                &&& !first.success
                &&& !second.success
                &&& #[trigger] may_answer(systemctl, query_words(verb, TIMER_NAME@), first)
                &&& #[trigger] may_answer(
                    systemctl,
                    query_words(verb, LEGACY_TIMER_NAME@),
                    second,
                )
            }
    }
}

fn either_timer<S: SystemctlRunner + ?Sized>(systemctl: &S, verb: &str) -> (r: bool)
    ensures
        may_tell(systemctl, verb@, r),
{
    let first = query(systemctl, verb, TIMER_NAME);
    if first.success {
        return true;
    }
    let second = query(systemctl, verb, LEGACY_TIMER_NAME);
    if second.success {
        return true;
    }
    assert(may_answer(systemctl, query_words(verb@, TIMER_NAME@), first));
    assert(may_answer(systemctl, query_words(verb@, LEGACY_TIMER_NAME@), second));
    false
}

/// Return whether the current or legacy autosave timer is active.
pub fn is_active<S: SystemctlRunner + ?Sized>(systemctl: &S) -> (r: bool)
    ensures
        may_tell(systemctl, "is-active"@, r),
{
    either_timer(systemctl, "is-active")
}

/// Return whether the current or legacy autosave timer is enabled.
pub fn is_enabled<S: SystemctlRunner + ?Sized>(systemctl: &S) -> (r: bool)
    ensures
        may_tell(systemctl, "is-enabled"@, r),
{
    either_timer(systemctl, "is-enabled")
}

// ── Uninstalling ───────────────────────────────────────────────────────────

/// What stands at the path of a unit.
#[derive(Debug, Clone, Copy, PartialEq, Eq, Structural)]
pub enum UnitState {
    /// Nothing.
    Missing,
    /// A regular file.
    Regular,
    /// Something else.
    Other,
}

/// What stands at the paths of all units.
#[derive(Debug, Clone, Copy, PartialEq, Eq, Structural)]
pub struct UnitFiles {
    /// The service.
    pub service: UnitState,
    /// The timer.
    pub timer: UnitState,
    /// The service of earlier versions.
    pub legacy_service: UnitState,
    /// The timer of earlier versions.
    pub legacy_timer: UnitState,
}

/// Return whether a Hyprloom autosave timer file is installed.
pub fn is_installed(units: UnitFiles) -> (r: bool)
    ensures
        r == (units.timer is Regular || units.legacy_timer is Regular),
{
    units.timer == UnitState::Regular || units.legacy_timer == UnitState::Regular
}

/// The units that are regular files.
pub open spec fn regular_units(states: Seq<(Seq<char>, UnitState)>) -> Seq<Seq<char>>
    decreases states.len(),
{
    if states.len() == 0 {
        Seq::empty()
    } else if states.last().1 is Regular {
        regular_units(states.drop_last()).push(states.last().0)
    } else {
        regular_units(states.drop_last())
    }
}

/// The units that are removed: all that are regular files, and none where some
/// unit is no file.
pub open spec fn removable(states: Seq<(Seq<char>, UnitState)>) -> Seq<Seq<char>> {
    if first_other(states) is Some {
        Seq::empty()
    } else {
        regular_units(states)
    }
}

/// The first unit that is no file.
pub open spec fn first_other(states: Seq<(Seq<char>, UnitState)>) -> Option<Seq<char>>
    decreases states.len(),
{
    if states.len() == 0 {
        None
    } else if first_other(states.drop_last()) is Some {
        first_other(states.drop_last())
    } else if states.last().1 is Other {
        Some(states.last().0)
    } else {
        None
    }
}

/// The units in the order in which they are removed.
pub open spec fn units_in_order(units: UnitFiles) -> Seq<(Seq<char>, UnitState)> {
    seq![
        (SERVICE_NAME@, units.service),
        (TIMER_NAME@, units.timer),
        (LEGACY_SERVICE_NAME@, units.legacy_service),
        (LEGACY_TIMER_NAME@, units.legacy_timer),
    ]
}

/// What an uninstall removes, or why it removes nothing.
#[derive(Debug)]
pub struct UninstallPlan {
    /// The units to remove, in order.
    pub remove: Vec<String>,
    /// The unit that is no file; nothing is removed then.
    pub refused: Option<String>,
}

fn plan_removal(units: UnitFiles) -> (r: UninstallPlan)
    ensures
        r.remove.deep_view() == removable(units_in_order(units)),
        r.refused.deep_view() == first_other(units_in_order(units)),
{
    let states: [(&str, UnitState); 4] = [
        (SERVICE_NAME, units.service),
        (TIMER_NAME, units.timer),
        (LEGACY_SERVICE_NAME, units.legacy_service),
        (LEGACY_TIMER_NAME, units.legacy_timer),
    ];
    let ghost all = units_in_order(units);
    let mut remove: Vec<String> = Vec::new();
    let mut refused: Option<String> = None;
    let mut i: usize = 0;
    assert(all.take(0) =~= Seq::<(Seq<char>, UnitState)>::empty());
    assert(remove.deep_view() =~= Seq::<Seq<char>>::empty());
    while i < 4
        invariant
            i <= 4,
            all == units_in_order(units),
            states@.len() == 4,
            forall|k: int|
                0 <= k < 4 ==> all[k] == ((#[trigger] states@[k]).0@, states@[k].1),
            remove.deep_view() == regular_units(all.take(i as int)),
            refused.deep_view() == first_other(all.take(i as int)),
        decreases 4 - i,
    {
        let (name, state) = states[i];
        assert(all[i as int] == (name@, state));
        assert(all.take(i + 1).drop_last() =~= all.take(i as int));
        assert(all.take(i + 1).last() == all[i as int]);
        if state == UnitState::Regular {
            let ghost before = remove.deep_view();
            let copy = name.to_owned();
            remove.push(copy);
            assert(remove.deep_view() =~= before.push(name@));
        } else if state == UnitState::Other && refused.is_none() {
            refused = Some(name.to_owned());
        }
        i += 1;
    }
    assert(all.take(4) =~= all);
    if refused.is_some() {
        let none: Vec<String> = Vec::new();
        assert(none.deep_view() =~= Seq::<Seq<char>>::empty());
        return UninstallPlan { remove: none, refused };
    }
    UninstallPlan { remove, refused }
}

/// The failure to disable a timer.
pub open spec fn disable_complaint(timer: Seq<char>, complaint: Seq<char>) -> Seq<char> {
    "could not disable autosave timer '"@ + timer + "' (units retained): "@ + complaint
}

/// A timer that an uninstall disables.
#[derive(Debug, Clone, Copy, PartialEq, Eq, Structural)]
pub enum UninstallPhase {
    /// The timer.
    DisableTimer,
    /// The timer of earlier versions.
    DisableLegacyTimer,
}

/// What an uninstall does next.
#[derive(Debug)]
pub enum UninstallStep {
    /// Disable and stop a timer.
    Run(UninstallPhase),
    /// Remove the units.
    Remove(UninstallPlan),
    /// Give up; every unit stays.
    Fail(String),
}

/// What an uninstall does next, in the abstract.
pub ghost enum UninstallStepView {
    Run(UninstallPhase),
    Remove(Seq<Seq<char>>, Option<Seq<char>>),
    Fail(Seq<char>),
}

impl View for UninstallStep {
    type V = UninstallStepView;

    open spec fn view(&self) -> UninstallStepView {
        match self {
            UninstallStep::Run(phase) => UninstallStepView::Run(*phase),
            UninstallStep::Remove(plan) => UninstallStepView::Remove(
                plan.remove.deep_view(),
                plan.refused.deep_view(),
            ),
            UninstallStep::Fail(message) => UninstallStepView::Fail(message@),
        }
    }
}

/// The timer of a phase.
pub open spec fn timer_of(phase: UninstallPhase) -> Seq<char> {
    match phase {
        UninstallPhase::DisableTimer => TIMER_NAME@,
        UninstallPhase::DisableLegacyTimer => LEGACY_TIMER_NAME@,
    }
}

/// The words of the command of a phase.
pub open spec fn uninstall_words(phase: UninstallPhase) -> Seq<Seq<char>> {
    switch_words("disable"@, timer_of(phase))
}

/// What follows once the timers are disabled.
pub open spec fn removal(units: UnitFiles) -> UninstallStepView {
    UninstallStepView::Remove(removable(units_in_order(units)), first_other(units_in_order(units)))
}

/// What follows once the timer is disabled, where there is one.
pub open spec fn after_timer(units: UnitFiles) -> UninstallStepView {
    if units.legacy_timer is Regular {
        UninstallStepView::Run(UninstallPhase::DisableLegacyTimer)
    } else {
        removal(units)
    }
}

/// The first step of an uninstall.
pub open spec fn uninstall_start(units: UnitFiles) -> UninstallStepView {
    if units.timer is Regular {
        UninstallStepView::Run(UninstallPhase::DisableTimer)
    } else {
        after_timer(units)
    }
}

/// The step after the command of a phase.
pub open spec fn uninstall_step(
    units: UnitFiles,
    phase: UninstallPhase,
    last: SystemctlOutcome,
) -> UninstallStepView {
    if !last.success {
        UninstallStepView::Fail(disable_complaint(timer_of(phase), last.stderr@))
    } else if phase is DisableTimer {
        after_timer(units)
    } else {
        removal(units)
    }
}

/// What an uninstall does after some answers.
pub open spec fn uninstall_after(
    units: UnitFiles,
    answers: Seq<SystemctlOutcome>,
) -> UninstallStepView
    decreases answers.len(),
{
    if answers.len() == 0 {
        uninstall_start(units)
    } else {
        match uninstall_after(units, answers.drop_last()) {
            UninstallStepView::Run(phase) => uninstall_step(units, phase, answers.last()),
            step => step,
        }
    }
}

/// Units are removed only once every timer that is installed was disabled, the
/// current one before the legacy one, and a failure removes nothing.
pub proof fn law_units_go_after_their_timers(units: UnitFiles, answers: Seq<SystemctlOutcome>)
    requires
        forall|k: int|
            0 <= k < answers.len() ==> #[trigger] uninstall_after(units, answers.take(k)) is Run,
    ensures
        uninstall_after(units, answers) is Remove ==> {
            let first = UninstallStepView::Run(UninstallPhase::DisableTimer);
            let second = UninstallStepView::Run(UninstallPhase::DisableLegacyTimer);
            let timers = if units.timer is Regular && units.legacy_timer is Regular {
                seq![first, second]
            } else if units.timer is Regular {
                seq![first]
            } else if units.legacy_timer is Regular {
                seq![second]
            } else {
                Seq::empty()
            };
            &&& answers.len() == timers.len()
            &&& forall|k: int|
                0 <= k < answers.len() ==> #[trigger] uninstall_after(units, answers.take(k))
                    == timers[k] && answers[k].success
        },
        uninstall_after(units, answers) is Fail ==> answers.len() > 0 && !answers.last().success,
        uninstall_after(units, answers) matches UninstallStepView::Remove(remove, refused)
            ==> refused is Some ==> remove.len() == 0,
{
    let n = answers.len() as int;
    assert(answers.take(n) =~= answers);
    assert(answers.take(0) =~= Seq::<SystemctlOutcome>::empty());
    assert forall|k: int| 0 < k <= n implies #[trigger] answers.take(k).drop_last()
        == answers.take(k - 1) && answers.take(k).last() == answers[k - 1] by {
        assert(answers.take(k).drop_last() =~= answers.take(k - 1));
    }
    if n >= 1 {
        assert(answers.take(1).drop_last() == answers.take(0));
        assert(uninstall_after(units, answers.take(0)) is Run);
    }
    if n >= 2 {
        assert(answers.take(2).drop_last() == answers.take(1));
        assert(uninstall_after(units, answers.take(1)) is Run);
    }
    if n >= 3 {
        assert(answers.take(3).drop_last() == answers.take(2));
        assert(uninstall_after(units, answers.take(2)) is Run);
    }
}

fn removal_step(units: UnitFiles) -> (r: UninstallStep)
    ensures
        r@ == removal(units),
{
    UninstallStep::Remove(plan_removal(units))
}

/// The first step of an uninstall.
pub fn first_uninstall_step(units: UnitFiles) -> (r: UninstallStep)
    ensures
        r@ == uninstall_start(units),
{
    if units.timer == UnitState::Regular {
        UninstallStep::Run(UninstallPhase::DisableTimer)
    } else if units.legacy_timer == UnitState::Regular {
        UninstallStep::Run(UninstallPhase::DisableLegacyTimer)
    } else {
        removal_step(units)
    }
}

/// The step after the command of a phase.
pub fn next_uninstall_step(
    units: UnitFiles,
    phase: UninstallPhase,
    last: &SystemctlOutcome,
) -> (r: UninstallStep)
    ensures
        r@ == uninstall_step(units, phase, *last),
{
    let timer = match phase {
        UninstallPhase::DisableTimer => TIMER_NAME,
        UninstallPhase::DisableLegacyTimer => LEGACY_TIMER_NAME,
    };
    if !last.success {
        return UninstallStep::Fail(
            "could not disable autosave timer '".to_owned().concat(timer).concat(
                "' (units retained): ",
            ).concat(last.stderr.as_str()),
        );
    }
    if phase == UninstallPhase::DisableTimer && units.legacy_timer == UnitState::Regular {
        return UninstallStep::Run(UninstallPhase::DisableLegacyTimer);
    }
    removal_step(units)
}

/// Answers that systemctl may give in turn, each to the command that is due.
pub open spec fn may_answer_uninstall<S: SystemctlRunner + ?Sized>(
    systemctl: &S,
    units: UnitFiles,
    answers: Seq<SystemctlOutcome>,
) -> bool {
    forall|k: int|
        0 <= k < answers.len() ==> match #[trigger] uninstall_after(units, answers.take(k)) {
            UninstallStepView::Run(phase) => may_answer(
                systemctl,
                uninstall_words(phase),
                answers[k],
            ),
            _ => false,
        }
}

/// What comes of an uninstall after some answers.
pub open spec fn is_uninstall(
    units: UnitFiles,
    answers: Seq<SystemctlOutcome>,
    r: Result<UninstallPlan, String>,
) -> bool {
    match (uninstall_after(units, answers), r) {
        (UninstallStepView::Remove(remove, refused), Ok(plan)) => {
            &&& plan.remove.deep_view() == remove
            &&& plan.refused.deep_view() == refused
        },
        (UninstallStepView::Fail(reason), Err(message)) => message@ == reason,
        _ => false,
    }
}

/// Uninstall with a confirmed transition order.
///
/// Both timers must disable and stop before any unit file is removed, so a
/// refused disable never leaves a live timer without its definition.
/// Failures retain every unit and are retryable: where some unit is no file,
/// none is removed.
pub fn uninstall_with<S: SystemctlRunner + ?Sized>(units: UnitFiles, systemctl: &S) -> (r: Result<
    UninstallPlan,
    String,
>)
    ensures
        exists|answers: Seq<SystemctlOutcome>| #[trigger]
            may_answer_uninstall(systemctl, units, answers) && is_uninstall(units, answers, r),
        r matches Ok(plan) ==> (plan.refused is Some ==> plan.remove@.len() == 0),
{
    let ghost mut answers: Seq<SystemctlOutcome> = Seq::empty();
    let mut step = first_uninstall_step(units);
    loop
        invariant
            step@ == uninstall_after(units, answers),
            may_answer_uninstall(systemctl, units, answers),
        decreases
            match step {
                UninstallStep::Run(UninstallPhase::DisableTimer) => 2int,
                UninstallStep::Run(UninstallPhase::DisableLegacyTimer) => 1int,
                _ => 0int,
            },
    {
        match step {
            UninstallStep::Run(phase) => {
                let timer = match phase {
                    UninstallPhase::DisableTimer => TIMER_NAME,
                    UninstallPhase::DisableLegacyTimer => LEGACY_TIMER_NAME,
                };
                let outcome = switch(systemctl, "disable", timer);
                step = next_uninstall_step(units, phase, &outcome);
                proof {
                    let more = answers.push(outcome);
                    assert(more.drop_last() =~= answers);
                    assert forall|k: int| 0 <= k < more.len() implies match #[trigger]
                        uninstall_after(units, more.take(k)) {
                        UninstallStepView::Run(phase) => may_answer(
                            systemctl,
                            uninstall_words(phase),
                            more[k],
                        ),
                        _ => false,
                    } by {
                        if k < answers.len() {
                            assert(more.take(k) =~= answers.take(k));
                            assert(uninstall_after(units, answers.take(k)) is Run);
                        } else {
                            assert(more.take(k) =~= answers);
                        }
                    }
                    answers = more;
                }
            },
            UninstallStep::Remove(plan) => {
                let r = Ok::<UninstallPlan, String>(plan);
                assert(is_uninstall(units, answers, r));
                proof {
                    assert forall|k: int| 0 <= k < answers.len() implies #[trigger]
                        uninstall_after(units, answers.take(k)) is Run by {}
                    law_units_go_after_their_timers(units, answers);
                    assert(plan.refused.deep_view() is Some ==> plan.remove.deep_view().len() == 0);
                }
                return r;
            },
            UninstallStep::Fail(message) => {
                let r = Err::<UninstallPlan, String>(message);
                assert(is_uninstall(units, answers, r));
                return r;
            },
        }
    }
}

// ── Migrating ──────────────────────────────────────────────────────────────

/// Whether a legacy `HyprFlow` timer still carries the autosave schedule.
#[derive(Debug, Clone, Copy, PartialEq, Eq, Structural)]
pub enum LegacyTimerState {
    /// `is-enabled` exited zero: the legacy timer preserves a schedule.
    Enabled,
    /// `is-enabled` exited one: the legacy timer is disabled.
    Disabled,
    /// Spawn failure or an unexpected status: the state is unknown.
    QueryError,
}

/// The state that an exit status tells.
pub open spec fn legacy_state(code: Option<i32>) -> LegacyTimerState {
    match code {
        Some(0) => LegacyTimerState::Enabled,
        Some(1) => LegacyTimerState::Disabled,
        _ => LegacyTimerState::QueryError,
    }
}

/// The state that an exit status tells.
pub fn classify_legacy_state(outcome: &SystemctlOutcome) -> (r: LegacyTimerState)
    ensures
        r == legacy_state(outcome.code),
{
    match outcome.code {
        Some(0) => LegacyTimerState::Enabled,
        Some(1) => LegacyTimerState::Disabled,
        _ => LegacyTimerState::QueryError,
    }
}

/// A command of a migration.
#[derive(Debug, Clone, Copy, PartialEq, Eq, Structural)]
pub enum MigrationPhase {
    /// Ask whether the legacy timer is enabled.
    QueryLegacy,
    /// Enable and start the new timer.
    EnableTimer,
    /// Ask whether the new timer is enabled.
    VerifyTimer,
    /// Disable and stop the legacy timer.
    DisableLegacy,
}

/// What a migration does next.
#[derive(Debug)]
pub enum MigrationStep {
    /// Run a command.
    Run(MigrationPhase),
    /// Remove the legacy units.
    Remove,
    /// Give up; the legacy units stay.
    Fail(String),
}

/// What a migration does next, in the abstract.
pub ghost enum MigrationStepView {
    Run(MigrationPhase),
    Remove,
    Fail(Seq<char>),
}

impl View for MigrationStep {
    type V = MigrationStepView;

    open spec fn view(&self) -> MigrationStepView {
        match self {
            MigrationStep::Run(phase) => MigrationStepView::Run(*phase),
            MigrationStep::Remove => MigrationStepView::Remove,
            MigrationStep::Fail(message) => MigrationStepView::Fail(message@),
        }
    }
}

/// The words of the command of a phase.
pub open spec fn migration_words(phase: MigrationPhase) -> Seq<Seq<char>> {
    match phase {
        MigrationPhase::QueryLegacy => query_words("is-enabled"@, LEGACY_TIMER_NAME@),
        MigrationPhase::EnableTimer => switch_words("enable"@, TIMER_NAME@),
        MigrationPhase::VerifyTimer => query_words("is-enabled"@, TIMER_NAME@),
        MigrationPhase::DisableLegacy => switch_words("disable"@, LEGACY_TIMER_NAME@),
    }
}

/// The step after the command of a phase.
pub open spec fn migration_step(
    phase: MigrationPhase,
    last: SystemctlOutcome,
) -> MigrationStepView {
    match phase {
        MigrationPhase::QueryLegacy => match legacy_state(last.code) {
            LegacyTimerState::Enabled => MigrationStepView::Run(MigrationPhase::EnableTimer),
            LegacyTimerState::Disabled => MigrationStepView::Run(MigrationPhase::DisableLegacy),
            LegacyTimerState::QueryError => MigrationStepView::Fail(
                "could not query the legacy autosave timer state (legacy units retained)"@,
            ),
        },
        MigrationPhase::EnableTimer => if last.success {
            MigrationStepView::Run(MigrationPhase::VerifyTimer)
        } else {
            MigrationStepView::Fail(
                "could not enable the Hyprloom autosave timer during migration (legacy units retained): "@
                    + last.stderr@,
            )
        },
        MigrationPhase::VerifyTimer => if last.success {
            MigrationStepView::Run(MigrationPhase::DisableLegacy)
        } else {
            MigrationStepView::Fail(
                "could not verify the Hyprloom autosave timer during migration (legacy units retained): "@
                    + last.stderr@,
            )
        },
        MigrationPhase::DisableLegacy => if last.success {
            MigrationStepView::Remove
        } else {
            MigrationStepView::Fail(
                "could not disable the legacy autosave timer (legacy units retained): "@
                    + last.stderr@,
            )
        },
    }
}

/// The step after the command of a phase.  The legacy timer is disabled only
/// after it told that it carries no schedule, or after the new timer was
/// enabled and then found to be enabled.
pub fn next_migration_step(phase: MigrationPhase, last: &SystemctlOutcome) -> (r: MigrationStep)
    ensures
        r@ == migration_step(phase, *last),
{
    match phase {
        MigrationPhase::QueryLegacy => match classify_legacy_state(last) {
            LegacyTimerState::Enabled => MigrationStep::Run(MigrationPhase::EnableTimer),
            LegacyTimerState::Disabled => MigrationStep::Run(MigrationPhase::DisableLegacy),
            LegacyTimerState::QueryError => MigrationStep::Fail(
                "could not query the legacy autosave timer state (legacy units retained)".to_owned(),
            ),
        },
        MigrationPhase::EnableTimer => if last.success {
            MigrationStep::Run(MigrationPhase::VerifyTimer)
        } else {
            MigrationStep::Fail(
                "could not enable the Hyprloom autosave timer during migration (legacy units retained): ".to_owned().concat(
                last.stderr.as_str()),
            )
        },
        MigrationPhase::VerifyTimer => if last.success {
            MigrationStep::Run(MigrationPhase::DisableLegacy)
        } else {
            MigrationStep::Fail(
                "could not verify the Hyprloom autosave timer during migration (legacy units retained): ".to_owned().concat(
                last.stderr.as_str()),
            )
        },
        MigrationPhase::DisableLegacy => if last.success {
            MigrationStep::Remove
        } else {
            MigrationStep::Fail(
                "could not disable the legacy autosave timer (legacy units retained): ".to_owned().concat(
                last.stderr.as_str()),
            )
        },
    }
}

/// What a migration does after some answers.
pub open spec fn migration_after(answers: Seq<SystemctlOutcome>) -> MigrationStepView
    decreases answers.len(),
{
    if answers.len() == 0 {
        MigrationStepView::Run(MigrationPhase::QueryLegacy)
    } else {
        match migration_after(answers.drop_last()) {
            MigrationStepView::Run(phase) => migration_step(phase, answers.last()),
            step => step,
        }
    }
}

/// An enabled legacy schedule lives on: the legacy timer is disabled only
/// where it told that it is disabled, or where the new timer was enabled and
/// after that found to be enabled.  The legacy units go only after that.
pub proof fn law_schedule_lives_on(answers: Seq<SystemctlOutcome>)
    ensures
        migration_after(answers) == MigrationStepView::Run(MigrationPhase::DisableLegacy) ==> {
            ||| answers.len() == 1 && legacy_state(answers[0].code) is Disabled
            ||| {
                &&& answers.len() == 3
                &&& legacy_state(answers[0].code) is Enabled
                &&& migration_after(answers.take(1)) == MigrationStepView::Run(
                    MigrationPhase::EnableTimer,
                )
                &&& answers[1].success
                &&& migration_after(answers.take(2)) == MigrationStepView::Run(
                    MigrationPhase::VerifyTimer,
                )
                &&& answers[2].success
            }
        },
        migration_after(answers) is Remove && answers.len() > 0 && migration_after(
            answers.drop_last(),
        ) is Run ==> answers.last().success && migration_after(answers.drop_last())
            == MigrationStepView::Run(MigrationPhase::DisableLegacy),
{
    let n = answers.len() as int;
    assert(answers.take(n) =~= answers);
    assert(answers.take(0) =~= Seq::<SystemctlOutcome>::empty());
    assert(migration_after(answers.take(0)) == MigrationStepView::Run(MigrationPhase::QueryLegacy));
    if n >= 1 {
        lemma_migration_goes_on(answers, 0);
    }
    if n >= 2 {
        lemma_migration_goes_on(answers, 1);
    }
    if n >= 3 {
        lemma_migration_goes_on(answers, 2);
    }
    if n >= 4 {
        lemma_migration_goes_on(answers, 3);
        assert(!(migration_after(answers.take(4)) is Run));
        lemma_migration_ends(answers, 4);
    }
}

/// One more answer.
proof fn lemma_migration_goes_on(answers: Seq<SystemctlOutcome>, k: int)
    requires
        0 <= k < answers.len(),
    ensures
        migration_after(answers.take(k + 1)) == match migration_after(answers.take(k)) {
            MigrationStepView::Run(phase) => migration_step(phase, answers[k]),
            step => step,
        },
{
    assert(answers.take(k + 1).drop_last() =~= answers.take(k));
    assert(answers.take(k + 1).last() == answers[k]);
}

/// A migration that has ended stays as it ended.
proof fn lemma_migration_ends(answers: Seq<SystemctlOutcome>, k: int)
    requires
        0 <= k <= answers.len(),
        !(migration_after(answers.take(k)) is Run),
    ensures
        migration_after(answers) == migration_after(answers.take(k)),
    decreases answers.len() - k,
{
    if k < answers.len() {
        assert(answers.take(k + 1).drop_last() =~= answers.take(k));
        lemma_migration_ends(answers, k + 1);
    } else {
        assert(answers.take(k) =~= answers);
    }
}

fn run_migration_phase<S: SystemctlRunner + ?Sized>(systemctl: &S, phase: MigrationPhase) -> (r:
    SystemctlOutcome)
    ensures
        may_answer(systemctl, migration_words(phase), r),
{
    match phase {
        MigrationPhase::QueryLegacy => query(systemctl, "is-enabled", LEGACY_TIMER_NAME),
        MigrationPhase::EnableTimer => switch(systemctl, "enable", TIMER_NAME),
        MigrationPhase::VerifyTimer => query(systemctl, "is-enabled", TIMER_NAME),
        MigrationPhase::DisableLegacy => switch(systemctl, "disable", LEGACY_TIMER_NAME),
    }
}

/// Answers that systemctl may give in turn, each to the command that is due.
pub open spec fn may_answer_migration<S: SystemctlRunner + ?Sized>(
    systemctl: &S,
    answers: Seq<SystemctlOutcome>,
) -> bool {
    forall|k: int|
        0 <= k < answers.len() ==> match #[trigger] migration_after(answers.take(k)) {
            MigrationStepView::Run(phase) => may_answer(
                systemctl,
                migration_words(phase),
                answers[k],
            ),
            _ => false,
        }
}

/// What comes of a migration after some answers.
pub open spec fn is_migration(answers: Seq<SystemctlOutcome>, r: Result<bool, String>) -> bool {
    match (migration_after(answers), r) {
        (MigrationStepView::Remove, Ok(retire)) => retire,
        (MigrationStepView::Fail(reason), Err(message)) => message@ == reason,
        _ => false,
    }
}

/// The outcome of a migration.
pub open spec fn may_migrate<S: SystemctlRunner + ?Sized>(
    systemctl: &S,
    units: UnitFiles,
    r: Result<bool, String>,
) -> bool {
    if units.legacy_service is Missing && units.legacy_timer is Missing {
        r == Ok::<bool, String>(false)
    } else {
        exists|answers: Seq<SystemctlOutcome>| #[trigger]
            may_answer_migration(systemctl, answers) && is_migration(answers, r)
    }
}

/// Retires the units of earlier versions.  An enabled legacy schedule must
/// live on in the replacement timer before the legacy units are touched.
/// `true` tells that the legacy units are to be removed.
pub fn migrate_legacy_units_with<S: SystemctlRunner + ?Sized>(
    units: UnitFiles,
    systemctl: &S,
) -> (r: Result<bool, String>)
    ensures
        may_migrate(systemctl, units, r),
{
    if units.legacy_service == UnitState::Missing && units.legacy_timer == UnitState::Missing {
        return Ok(false);
    }
    let ghost mut answers: Seq<SystemctlOutcome> = Seq::empty();
    let mut phase = MigrationPhase::QueryLegacy;
    loop
        invariant
            !(units.legacy_service is Missing && units.legacy_timer is Missing),
            migration_after(answers) == MigrationStepView::Run(phase),
            may_answer_migration(systemctl, answers),
        decreases
            match phase {
                MigrationPhase::QueryLegacy => 3int,
                MigrationPhase::EnableTimer => 2int,
                MigrationPhase::VerifyTimer => 1int,
                MigrationPhase::DisableLegacy => 0int,
            },
    {
        let outcome = run_migration_phase(systemctl, phase);
        let step = next_migration_step(phase, &outcome);
        proof {
            let more = answers.push(outcome);
            assert(more.drop_last() =~= answers);
            assert forall|k: int| 0 <= k < more.len() implies match #[trigger]
                migration_after(more.take(k)) {
                MigrationStepView::Run(phase) => may_answer(
                    systemctl,
                    migration_words(phase),
                    more[k],
                ),
                _ => false,
            } by {
                if k < answers.len() {
                    assert(more.take(k) =~= answers.take(k));
                    assert(migration_after(answers.take(k)) is Run);
                } else {
                    assert(more.take(k) =~= answers);
                }
            }
            answers = more;
            assert(may_answer_migration(systemctl, answers));
            assert(migration_after(answers) == step@);
        }
        match step {
            MigrationStep::Run(next) => {
                phase = next;
            },
            MigrationStep::Remove => {
                let r = Ok::<bool, String>(true);
                assert(is_migration(answers, r));
                return r;
            },
            MigrationStep::Fail(message) => {
                let r = Err::<bool, String>(message);
                assert(is_migration(answers, r));
                return r;
            },
        }
    }
}

} // verus!
