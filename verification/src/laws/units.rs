//! What the commands for the service manager do, and which files are trusted.

use crate::autosave;
use crate::autosave::{
    InstallPhase, InstallStep, MigrationPhase, MigrationStepView, SystemctlOutcome,
    SystemctlRunner, UninstallPhase, UnitFiles,
};
use crate::files::FileFacts;
use crate::laws::effects;
use crate::laws::messages;
use crate::laws::texts;
use crate::text;
use vstd::prelude::*;

verus! {

// ── Timers ─────────────────────────────────────────────────────────────────

/// Which timers are enabled.
#[verifier::ext_equal]
pub ghost struct Timers {
    /// The timer of this program.
    pub own: bool,
    /// The timer of earlier versions.
    pub legacy: bool,
}

/// What the service manager does on a command of the user: it enables or
/// disables the unit that the command names, and a question changes nothing.
pub open spec fn managed(timers: Timers, words: Seq<Seq<char>>) -> Timers {
    if words.len() == 4 && words[0] == "--user"@ && words[2] == "--now"@ && (words[1] == "enable"@
        || words[1] == "disable"@) {
        let on = words[1] == "enable"@;
        if words[3] == "hyprloom-autosave.timer"@ {
            Timers { own: on, ..timers }
        } else if words[3] == "hyprflow-autosave.timer"@ {
            Timers { legacy: on, ..timers }
        } else {
            timers
        }
    } else {
        timers
    }
}

proof fn lemma_words()
    ensures
        forall|t: Timers| #[trigger] managed(
            t,
            autosave::migration_words(MigrationPhase::EnableTimer),
        ) == (Timers { own: true, ..t }),
        forall|t: Timers| #[trigger] managed(
            t,
            autosave::migration_words(MigrationPhase::DisableLegacy),
        ) == (Timers { legacy: false, ..t }),
        forall|t: Timers| #[trigger] managed(
            t,
            autosave::migration_words(MigrationPhase::QueryLegacy),
        ) == t,
        forall|t: Timers| #[trigger] managed(
            t,
            autosave::migration_words(MigrationPhase::VerifyTimer),
        ) == t,
        forall|t: Timers| #[trigger] managed(
            t,
            autosave::uninstall_words(UninstallPhase::DisableTimer),
        ) == (Timers { own: false, ..t }),
        forall|t: Timers| #[trigger] managed(
            t,
            autosave::uninstall_words(UninstallPhase::DisableLegacyTimer),
        ) == (Timers { legacy: false, ..t }),
{
    reveal_strlit("enable");
    reveal_strlit("disable");
    reveal_strlit("is-enabled");
    reveal_strlit("--now");
    reveal_strlit("--quiet");
    reveal_strlit("hyprloom-autosave.timer");
    reveal_strlit("hyprflow-autosave.timer");
    assert("hyprloom-autosave.timer"@[4] == 'l');
    assert("hyprflow-autosave.timer"@[4] == 'f');
    assert("--now"@.len() == 5);
    assert("--quiet"@.len() == 7);
    assert("enable"@.len() == 6);
    assert("disable"@.len() == 7);
}

/// A migration that is told that the legacy timer is enabled, and whose
/// commands succeed, ends with the timer of this program enabled in its place;
/// one that is told that it is disabled leaves the timer of this program as
/// it is.  Both disable the legacy timer before its units go.
pub proof fn law_migration_hands_the_schedule_over(
    timers: Timers,
    told: SystemctlOutcome,
    enabled: SystemctlOutcome,
    verified: SystemctlOutcome,
    disabled: SystemctlOutcome,
)
    requires
        told.code == Some(if timers.legacy {
            0i32
        } else {
            1i32
        }),
        enabled.success,
        verified.success,
        disabled.success,
    ensures
        ({
            let query = MigrationPhase::QueryLegacy;
            &&& autosave::migration_after(seq![]) == MigrationStepView::Run(query)
            &&& timers.legacy ==> {
                let t1 = managed(timers, autosave::migration_words(MigrationPhase::EnableTimer));
                let t2 = managed(t1, autosave::migration_words(MigrationPhase::DisableLegacy));
                &&& autosave::migration_step(query, told) == MigrationStepView::Run(
                    MigrationPhase::EnableTimer,
                )
                &&& autosave::migration_step(MigrationPhase::EnableTimer, enabled)
                    == MigrationStepView::Run(MigrationPhase::VerifyTimer)
                &&& autosave::migration_step(MigrationPhase::VerifyTimer, verified)
                    == MigrationStepView::Run(MigrationPhase::DisableLegacy)
                &&& autosave::migration_step(MigrationPhase::DisableLegacy, disabled)
                    == MigrationStepView::Remove
                &&& t2 == Timers { own: true, legacy: false }
            }
            &&& !timers.legacy ==> {
                &&& autosave::migration_step(query, told) == MigrationStepView::Run(
                    MigrationPhase::DisableLegacy,
                )
                &&& autosave::migration_step(MigrationPhase::DisableLegacy, disabled)
                    == MigrationStepView::Remove
                &&& managed(
                    timers,
                    autosave::migration_words(MigrationPhase::DisableLegacy),
                ) == timers
            }
        }),
{
    lemma_words();
    assert(autosave::migration_after(Seq::<SystemctlOutcome>::empty()) == MigrationStepView::Run(
        MigrationPhase::QueryLegacy,
    ));
}

/// A migration gives up at the first command that fails, and at a question
/// that is not answered; the legacy units stay then.
pub proof fn law_failed_migrations_give_up(phase: MigrationPhase, last: SystemctlOutcome)
    ensures
        phase != MigrationPhase::QueryLegacy && !last.success ==> autosave::migration_step(
            phase,
            last,
        ) is Fail,
        phase == MigrationPhase::QueryLegacy && last.code != Some(0i32) && last.code != Some(1i32)
            ==> autosave::migration_step(phase, last) is Fail,
{
}

/// An uninstall disables the timer that it is about.
pub proof fn law_uninstall_disables_timers(timers: Timers)
    ensures
        managed(timers, autosave::uninstall_words(UninstallPhase::DisableTimer)) == (Timers {
            own: false,
            ..timers
        }),
        managed(timers, autosave::uninstall_words(UninstallPhase::DisableLegacyTimer)) == (Timers {
            legacy: false,
            ..timers
        }),
{
    lemma_words();
}

// ── Installing ─────────────────────────────────────────────────────────────

/// How far an install went.
pub open spec fn progress(phase: InstallPhase) -> int {
    match phase {
        InstallPhase::Prepared => 0,
        InstallPhase::BackedUp => 1,
        InstallPhase::ServiceWritten => 2,
        InstallPhase::TimerWritten => 3,
        InstallPhase::Committed => 4,
    }
}

/// An install goes on step by step: it stores the old units, writes the
/// service, writes the timer, records that all is done, and cleans up.
pub proof fn law_install_goes_on(phase: InstallPhase)
    ensures
        match autosave::step_after(phase).1 {
            Some(next) => progress(next) == progress(phase) + 1,
            None => progress(phase) == 4,
        },
        autosave::step_after(phase).0 == InstallStep::StoreUnits <==> progress(phase) == 0,
        autosave::step_after(phase).0 == InstallStep::WriteService <==> progress(phase) == 1,
        autosave::step_after(phase).0 == InstallStep::WriteTimer <==> progress(phase) == 2,
        autosave::step_after(phase).0 == InstallStep::Commit <==> progress(phase) == 3,
        autosave::step_after(phase).0 == InstallStep::CleanUp <==> progress(phase) == 4,
{
}

// ── Files ──────────────────────────────────────────────────────────────────

/// Somebody else may write: the group or the others.
pub open spec fn others_may_write(mode: u32) -> bool {
    (mode / 16) % 2 == 1 || (mode / 2) % 2 == 1
}

proof fn lemma_modes(mode: u32)
    ensures
        mode & 0o022 == 0 <==> !others_may_write(mode),
        mode & 0o077 == 0 <==> mode % 64 == 0,
        mode & 0o1000 == 0 <==> (mode / 512) % 2 == 0,
        mode & 0o111 == 0 <==> (mode / 64) % 2 == 0 && (mode / 8) % 2 == 0 && mode % 2 == 0,
{
    assert(mode & 0o022 == 0 <==> (mode / 16) % 2 == 0 && (mode / 2) % 2 == 0) by (bit_vector);
    assert(mode & 0o077 == 0 <==> mode % 64 == 0) by (bit_vector);
    assert(mode & 0o1000 == 0 <==> (mode / 512) % 2 == 0) by (bit_vector);
    assert(mode & 0o111 == 0 <==> (mode / 64) % 2 == 0 && (mode / 8) % 2 == 0 && mode % 2 == 0)
        by (bit_vector);
}

/// Units are written only to a directory of the user to which nobody else may
/// write, below one in which nobody else may delete what is not their own;
/// only units and records of the user are read, and a record only where nobody
/// else may do anything with it.  The program that is run is a file that can
/// be run, told by its whole path.
pub proof fn law_only_private_files_are_trusted(
    facts: FileFacts,
    path: Seq<char>,
    is_absolute: bool,
)
    ensures
        autosave::parent_complaint(facts, path) is None <==> facts.is_directory && (
        !others_may_write(facts.mode) || (facts.mode / 512) % 2 == 1),
        autosave::directory_complaint(facts, path) is None <==> facts.is_directory && facts.is_owned
            && !others_may_write(facts.mode),
        autosave::unit_complaint(facts, path) is None <==> facts.is_file && facts.is_owned,
        autosave::marker_complaint(facts, path) is None <==> facts.is_file && facts.is_owned,
        autosave::privacy_complaint(facts, path) is None <==> facts.is_owned && facts.mode % 64
            == 0,
        autosave::program_complaint(is_absolute, facts) is None <==> is_absolute && facts.is_file
            && ((facts.mode / 64) % 2 == 1 || (facts.mode / 8) % 2 == 1 || facts.mode % 2 == 1),
{
    lemma_modes(facts.mode);
}

// ── Complaints ─────────────────────────────────────────────────────────────

/// A short complaint is told as it is, without the white space around it.
pub proof fn law_short_complaints_are_told(
    before: Seq<char>,
    body: Seq<char>,
    after: Seq<char>,
)
    requires
        texts::is_blank(before),
        texts::is_blank(after),
        body.len() > 0,
        !text::is_space(body[0]),
        !text::is_space(body.last()),
        before.len() + body.len() + after.len() <= 400,
    ensures
        autosave::bounded(before + body + after) == body,
{
    texts::law_trimming_takes_white_space_away(before, body, after);
}

/// A long complaint is cut off behind four hundred characters.
pub proof fn law_long_complaints_are_cut(s: Seq<char>)
    requires
        s.len() > 400,
        !text::is_space(s[0]),
    ensures
        ({
            let told = autosave::bounded(s);
            &&& told.len() == 401
            &&& told.take(400) == s.take(400)
        }),
{
    reveal_strlit("…");
    let cut = s.take(400) + "…"@;
    assert(cut[0] == s[0]);
    assert(cut.last() == '…');
    assert(text::trimmed_start(cut) == cut);
    assert(text::trimmed_end(cut) == cut);
    assert(cut.take(400) =~= s.take(400));
}

/// What is told twice is told alike: bounding a bounded complaint changes
/// nothing where it was short.
pub proof fn law_bounding_settles(s: Seq<char>)
    requires
        s.len() <= 400,
    ensures
        autosave::bounded(autosave::bounded(s)) == autosave::bounded(s),
{
    effects::law_trimming_twice_is_trimming_once(s);
    lemma_trimmed_is_shorter(s);
}

proof fn lemma_trimmed_is_shorter(s: Seq<char>)
    ensures
        text::trimmed(s).len() <= s.len(),
{
    text::lemma_trimmed_start(s);
    lemma_end_is_shorter(text::trimmed_start(s));
}

proof fn lemma_end_is_shorter(s: Seq<char>)
    ensures
        text::trimmed_end(s).len() <= s.len(),
    decreases s.len(),
{
    if s.len() > 0 && text::is_space(s.last()) {
        lemma_end_is_shorter(s.drop_last());
    }
}

/// What a question to the service manager asks for: whether a timer is
/// enabled, without more words than an answer needs.
pub open spec fn asked(timers: Timers, words: Seq<Seq<char>>) -> Option<bool> {
    if words.len() == 4 && words[0] == "--user"@ && words[1] == "is-enabled"@ && words[2]
        == "--quiet"@ {
        if words[3] == "hyprloom-autosave.timer"@ {
            Some(timers.own)
        } else if words[3] == "hyprflow-autosave.timer"@ {
            Some(timers.legacy)
        } else {
            None
        }
    } else {
        None
    }
}

/// A migration asks whether the legacy timer is enabled, and later whether the
/// timer of this program is.
pub proof fn law_migration_asks_for_the_timers(timers: Timers)
    ensures
        asked(timers, autosave::migration_words(MigrationPhase::QueryLegacy)) == Some(
            timers.legacy,
        ),
        asked(timers, autosave::migration_words(MigrationPhase::VerifyTimer)) == Some(timers.own),
        asked(timers, autosave::migration_words(MigrationPhase::EnableTimer)) is None,
        asked(timers, autosave::migration_words(MigrationPhase::DisableLegacy)) is None,
{
    reveal_strlit("enable");
    reveal_strlit("disable");
    reveal_strlit("is-enabled");
    reveal_strlit("hyprloom-autosave.timer");
    reveal_strlit("hyprflow-autosave.timer");
    assert("hyprloom-autosave.timer"@[4] == 'l');
    assert("hyprflow-autosave.timer"@[4] == 'f');
    assert("enable"@.len() == 6);
    assert("disable"@.len() == 7);
    assert("is-enabled"@.len() == 10);
}

/// Where no legacy unit is installed there is nothing to migrate; otherwise a
/// migration ends with its units to be removed, or with what failed.
pub proof fn law_migrations_retire_legacy_units<S: SystemctlRunner + ?Sized>(
    systemctl: &S,
    units: UnitFiles,
    r: Result<bool, String>,
)
    requires
        autosave::may_migrate(systemctl, units, r),
    ensures
        units.legacy_service is Missing && units.legacy_timer is Missing ==> r == Ok::<bool, String>(
            false,
        ),
        !(units.legacy_service is Missing && units.legacy_timer is Missing) && r is Ok ==> r->Ok_0,
{
}

/// The timer runs one minute after the start of the machine and every ten
/// minutes from then on, and is wanted by the timers of the user.
pub proof fn law_timer_runs_every_ten_minutes()
    ensures
        messages::holds(autosave::timer_text(), "\nOnUnitActiveSec=10min\n"@),
        messages::holds(autosave::timer_text(), "\nOnBootSec=1min\n"@),
        messages::holds(autosave::timer_text(), "\nWantedBy=timers.target\n"@),
{
    let t = autosave::timer_text();
    reveal_strlit("[Unit]\nDescription=Hyprloom autosave timer\n\n[Timer]\nOnUnitActiveSec=10min\nOnBootSec=1min\n\n[Install]\nWantedBy=timers.target\n");
    reveal_strlit("\nOnUnitActiveSec=10min\n");
    reveal_strlit("\nOnBootSec=1min\n");
    reveal_strlit("\nWantedBy=timers.target\n");
    assert(t.subrange(51, 74) =~= "\nOnUnitActiveSec=10min\n"@);
    assert(t.subrange(0, 51) + "\nOnUnitActiveSec=10min\n"@ + t.skip(74) =~= t);
    messages::lemma_holds(t.subrange(0, 51), "\nOnUnitActiveSec=10min\n"@, t.skip(74));
    assert(t.subrange(73, 89) =~= "\nOnBootSec=1min\n"@);
    assert(t.subrange(0, 73) + "\nOnBootSec=1min\n"@ + t.skip(89) =~= t);
    messages::lemma_holds(t.subrange(0, 73), "\nOnBootSec=1min\n"@, t.skip(89));
    assert(t.subrange(99, 123) =~= "\nWantedBy=timers.target\n"@);
    assert(t.subrange(0, 99) + "\nWantedBy=timers.target\n"@ + t.skip(123) =~= t);
    messages::lemma_holds(t.subrange(0, 99), "\nWantedBy=timers.target\n"@, t.skip(123));
}

} // verus!
