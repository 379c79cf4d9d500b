//! What the command line asks for.

use crate::lists;
use crate::text;
use vstd::prelude::*;

verus! {

// ── The age of a session ───────────────────────────────────────────────────

/// The seconds that a unit of age stands for.
pub open spec fn unit_seconds(unit: char) -> Option<nat> {
    match unit {
        'm' => Some(60),
        'h' => Some(3600),
        'd' => Some(86400),
        _ => None,
    }
}

/// The longest age, in seconds, that can be told in milliseconds.
pub const LONGEST_AGE: u64 = 9223372036854775;

/// The seconds that an age such as `30m`, `24h` or `7d` stands for.
pub open spec fn age_in(s: Seq<char>) -> Option<nat> {
    if s.len() == 0 {
        None
    } else {
        match (unit_seconds(s.last()), text::number_up_to(s.drop_last(), u64::MAX as int)) {
            (Some(unit), Some(n)) => if n * unit <= LONGEST_AGE {
                Some(n * unit)
            } else {
                None
            },
            _ => None,
        }
    }
}

/// Reads an age such as `30m`, `24h` or `7d`, in seconds.
pub fn parse_max_age(age: &str) -> (r: Option<u64>)
    ensures
        match r {
            Some(seconds) => age_in(age@) == Some(seconds as nat),
            None => age_in(age@) is None,
        },
{
    let chars = text::chars_of(age);
    if chars.len() == 0 {
        return None;
    }
    let unit: u64 = match chars[chars.len() - 1] {
        'm' => 60,
        'h' => 3600,
        'd' => 86400,
        _ => {
            return None;
        },
    };
    let number = text::start(age, chars.len() - 1);
    assert(number@ =~= age@.drop_last());
    match text::parse_u64(number.as_str()) {
        Some(n) => match n.checked_mul(unit) {
            Some(seconds) => if seconds <= LONGEST_AGE {
                Some(seconds)
            } else {
                None
            },
            None => None,
        },
        None => None,
    }
}

/// How old a session is.
#[derive(Debug, Clone, Copy, PartialEq, Eq, Structural)]
pub enum Age {
    /// It may be restored.
    Fresh,
    /// It was saved in the future.
    Future,
    /// It is older than asked for.
    TooOld,
}

/// Judges the age of a session, which is told in nanoseconds.
pub fn judge_age(age_ns: i128, longest_seconds: u64) -> (r: Age)
    ensures
        r is Future <==> age_ns < 0,
        r is TooOld <==> age_ns > longest_seconds * 1_000_000_000,
        r is Fresh <==> 0 <= age_ns <= longest_seconds * 1_000_000_000,
{
    if age_ns < 0 {
        return Age::Future;
    }
    if age_ns > longest_seconds as i128 * 1_000_000_000 {
        return Age::TooOld;
    }
    Age::Fresh
}

// ── Automatic saving ───────────────────────────────────────────────────────

/// What automatic saving is asked to do.
#[derive(Debug, Clone, Copy, PartialEq, Eq, Structural)]
pub enum AutosaveMode {
    /// Saves at once.
    Now,
    /// Installs the units.
    Install,
    /// Removes the units.
    Uninstall,
    /// Tells the state.
    Status,
}

/// What the flags ask for; nothing where they contradict each other.
pub fn choose_autosave_mode(now: bool, install: bool, uninstall: bool) -> (r: Option<AutosaveMode>)
    ensures
        r == Some(AutosaveMode::Now) <==> now && !install && !uninstall,
        r == Some(AutosaveMode::Install) <==> install && !now && !uninstall,
        r == Some(AutosaveMode::Uninstall) <==> uninstall && !now && !install,
        r == Some(AutosaveMode::Status) <==> !now && !install && !uninstall,
{
    if now && install || now && uninstall || install && uninstall {
        return None;
    }
    if install {
        Some(AutosaveMode::Install)
    } else if uninstall {
        Some(AutosaveMode::Uninstall)
    } else if now {
        Some(AutosaveMode::Now)
    } else {
        Some(AutosaveMode::Status)
    }
}

/// Whether automatic saving works.
#[derive(Debug, Clone, Copy, PartialEq, Eq, Structural)]
pub enum AutosaveStatus {
    /// No unit is installed.
    NotConfigured,
    /// The timer does not run.
    Inactive,
    /// The timer runs.
    Active,
}

/// Whether automatic saving works.
pub fn autosave_status(installed: bool, active: bool) -> (r: AutosaveStatus)
    ensures
        r is NotConfigured <==> !installed,
        r is Inactive <==> installed && !active,
        r is Active <==> installed && active,
{
    if !installed {
        AutosaveStatus::NotConfigured
    } else if !active {
        AutosaveStatus::Inactive
    } else {
        AutosaveStatus::Active
    }
}

/// Tells whether a session may be saved under a name: one that exists is
/// overwritten only where that is asked for, or where it is the last one.
pub fn may_save(name: &str, force: bool, is_saved: bool) -> (r: bool)
    ensures
        r == (force || !is_saved || name@ == "latest"@),
{
    force || !is_saved || text::same(name, "latest")
}

// ── Rotation ───────────────────────────────────────────────────────────────

/// Tells whether a session was saved automatically.
pub fn is_autosave_name(name: &str) -> (r: bool)
    ensures
        r == text::starts_with(name@, "autosave-"@),
{
    text::has_prefix(name, "autosave-")
}

/// A name that a user may give a session: a plain file name that is not hidden
/// and does not look like an automatic one.
pub open spec fn is_user_name(name: Seq<char>) -> bool {
    &&& name.len() > 0
    &&& name[0] != '.'
    &&& !text::has_char(name, '/')
    &&& !text::starts_with(name, "autosave-"@)
}

/// Tells whether a user may give a session this name.
pub fn is_user_session_name(name: &str) -> (r: bool)
    ensures
        r == is_user_name(name@),
{
    let chars = text::chars_of(name);
    chars.len() > 0 && chars[0] != '.' && !text::contains_char(name, '/') && !is_autosave_name(name)
}

/// The automatic sessions that are deleted, told from the newest on: all but
/// the newest ones, and never the one that a replacement is recovered from.
pub open spec fn pruned(
    names: Seq<Seq<char>>,
    retain: nat,
    kept: Option<Seq<char>>,
) -> Seq<Seq<char>> {
    names.skip(if retain < names.len() {
        retain as int
    } else {
        names.len() as int
    }).filter(|name: Seq<char>| Some(name) != kept)
}

/// Chooses the automatic sessions that are deleted.  The names are told from
/// the newest on.
pub fn autosaves_to_prune(names: &[String], retain: usize, kept: &Option<String>) -> (r: Vec<
    String,
>)
    ensures
        r.deep_view() == pruned(names.deep_view(), retain as nat, kept.deep_view()),
{
    let ghost all = names.deep_view();
    let ghost keep = |name: Seq<char>| Some(name) != kept.deep_view();
    let start: usize = if retain < names.len() {
        retain
    } else {
        names.len()
    };
    let ghost old = all.skip(start as int);
    let mut out: Vec<String> = Vec::new();
    let mut i: usize = start;
    proof {
        reveal(Seq::filter);
        assert(out.deep_view() =~= old.take(0).filter(keep));
    }
    while i < names.len()
        invariant
            start <= i <= names.len(),
            all == names.deep_view(),
            keep == (|name: Seq<char>| Some(name) != kept.deep_view()),
            old == all.skip(start as int),
            out.deep_view() == old.take(i - start).filter(keep),
        decreases names.len() - i,
    {
        let name = names[i].as_str();
        let ghost before = out.deep_view();
        proof {
            lists::lemma_filter_step(old, keep, i - start);
            assert(old[i - start] == name@);
        }
        let is_kept = match kept {
            Some(other) => text::same(name, other.as_str()),
            None => false,
        };
        if !is_kept {
            out.push(name.to_owned());
            assert(out.deep_view() =~= before.push(name@));
        }
        i += 1;
    }
    assert(old.take(i - start) =~= old);
    out
}

/// The newest automatic sessions are kept, and so is the one that a
/// replacement is recovered from.
pub proof fn law_newest_autosaves_are_kept(
    names: Seq<Seq<char>>,
    retain: nat,
    kept: Option<Seq<char>>,
    i: int,
)
    requires
        0 <= i < names.len(),
        names.no_duplicates(),
        i < retain || Some(names[i]) == kept,
    ensures
        !pruned(names, retain, kept).contains(names[i]),
{
    let start = if retain < names.len() {
        retain as int
    } else {
        names.len() as int
    };
    let old = names.skip(start);
    let keep = |name: Seq<char>| Some(name) != kept;
    let left = pruned(names, retain, kept);
    assert(left == old.filter(keep));
    if left.contains(names[i]) {
        let k = choose|k: int| 0 <= k < left.len() && left[k] == names[i];
        old.lemma_filter_pred(keep, k);
        old.lemma_filter_contains_rev(keep, left[k]);
        let j = choose|j: int| 0 <= j < old.len() && old[j] == left[k];
        assert(names[start + j] == names[i]);
    }
}

} // verus!
