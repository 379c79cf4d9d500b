//! Messages name what they are about.

use crate::laws::hints;
use crate::process;
use crate::process::ProcessError;
use crate::restore::identity::ObservedClientView;
use crate::restore::report;
use crate::restore::report::{CompositorErrorView, RestoreErrorView};
use crate::restore::restoring;
use crate::restore::restoring::{RestoreItemView, RestoringView};
use crate::restore::targets;
use crate::restore::targets::LaunchProblem;
use crate::session::SessionClientView;
use crate::text;
use vstd::prelude::*;

verus! {

/// A text stands somewhere in another.
pub open spec fn holds(s: Seq<char>, part: Seq<char>) -> bool {
    !hints::lacks(s, part)
}

pub(crate) proof fn lemma_holds(before: Seq<char>, part: Seq<char>, after: Seq<char>)
    ensures
        holds(before + part + after, part),
{
    let s = before + part + after;
    let i = before.len() as int;
    assert(s.subrange(i, i + part.len()) =~= part);
}

/// What an error tells the user names the window, the class, the command or
/// the reason that it is about, each in quotes or behind a colon where the
/// sentence leads up to it.
pub proof fn law_errors_name_their_subject(a: Seq<char>, b: Seq<char>)
    ensures
        holds(
            report::error_message(RestoreErrorView::AmbiguousWindow { class: a, addresses: b }),
            "'"@ + a + "'"@,
        ),
        holds(
            report::error_message(RestoreErrorView::AmbiguousWindow { class: a, addresses: b }),
            "candidates: "@ + b,
        ),
        holds(
            report::error_message(RestoreErrorView::UncorrelatedWindow { class: a }),
            "'"@ + a + "'"@,
        ),
        holds(
            report::error_message(RestoreErrorView::WindowDisappeared { address: a }),
            "window "@ + a + " disappeared"@,
        ),
        holds(
            report::error_message(RestoreErrorView::WindowIdentityChanged { address: a }),
            "window "@ + a + " changed"@,
        ),
        holds(
            report::error_message(RestoreErrorView::UntrustedLaunch { target: a, command: b }),
            "command '"@ + b + "' for "@ + a,
        ),
        holds(
            report::error_message(RestoreErrorView::MissingLaunchBinary { target: a, command: b }),
            "binary '"@ + b + "' for "@ + a,
        ),
        holds(report::error_message(RestoreErrorView::Transaction(a)), "recorded: "@ + a),
        holds(
            report::error_message(RestoreErrorView::TransactionAfterRestore(a)),
            "completed"@,
        ),
        holds(
            report::error_message(RestoreErrorView::TransactionAfterRestore(a)),
            "recorded: "@ + a,
        ),
        holds(
            report::error_message(RestoreErrorView::UnsafeRecoverySnapshot { reason: a }),
            "snapshot"@,
        ),
        holds(
            report::error_message(RestoreErrorView::UnsafeRecoverySnapshot { reason: a }),
            "safely: "@ + a,
        ),
        holds(
            report::error_message(RestoreErrorView::UnsafeReplacementTarget { reason: a }),
            "target"@,
        ),
        holds(
            report::error_message(RestoreErrorView::UnsafeReplacementTarget { reason: a }),
            "safely: "@ + a,
        ),
{
    lemma_ambiguous(a, b);
    lemma_uncorrelated(a);
    lemma_disappeared(a);
    lemma_changed(a);
    lemma_launch_errors(a, b);
    lemma_transaction(a);
    lemma_transaction_after(a);
    lemma_snapshot(a);
    lemma_target(a);
}

proof fn lemma_ambiguous(a: Seq<char>, b: Seq<char>)
    ensures
        holds(
            report::error_message(RestoreErrorView::AmbiguousWindow { class: a, addresses: b }),
            "'"@ + a + "'"@,
        ),
        holds(
            report::error_message(RestoreErrorView::AmbiguousWindow { class: a, addresses: b }),
            "candidates: "@ + b,
        ),
{
    let none = Seq::<char>::empty();
    reveal_strlit("'");
    reveal_strlit("could not unambiguously identify the new '");
    reveal_strlit("' window; candidates: ");
    reveal_strlit("candidates: ");
    let m = report::error_message(RestoreErrorView::AmbiguousWindow { class: a, addresses: b });
    let start = "could not unambiguously identify the new '"@;
    let middle = "' window; candidates: "@;
    assert(m =~= start.drop_last() + ("'"@ + a + "'"@) + (middle.drop_first() + b));
    lemma_holds(start.drop_last(), "'"@ + a + "'"@, middle.drop_first() + b);
    assert(middle =~= middle.take(10) + "candidates: "@);
    assert(m =~= (start + a + middle.take(10)) + ("candidates: "@ + b) + none);
    lemma_holds(start + a + middle.take(10), "candidates: "@ + b, none);
}

proof fn lemma_uncorrelated(a: Seq<char>)
    ensures
        holds(
            report::error_message(RestoreErrorView::UncorrelatedWindow { class: a }),
            "'"@ + a + "'"@,
        ),
{
    reveal_strlit("'");
    reveal_strlit("could not safely correlate the new '");
    reveal_strlit("' window with its launch");
    let m = report::error_message(RestoreErrorView::UncorrelatedWindow { class: a });
    let start = "could not safely correlate the new '"@;
    let end = "' window with its launch"@;
    assert(m =~= start.drop_last() + ("'"@ + a + "'"@) + end.drop_first());
    lemma_holds(start.drop_last(), "'"@ + a + "'"@, end.drop_first());
}

proof fn lemma_disappeared(a: Seq<char>)
    ensures
        holds(
            report::error_message(RestoreErrorView::WindowDisappeared { address: a }),
            "window "@ + a + " disappeared"@,
        ),
{
    let none = Seq::<char>::empty();
    reveal_strlit(" disappeared");
    reveal_strlit(" disappeared before reconciliation completed");
    let m = report::error_message(RestoreErrorView::WindowDisappeared { address: a });
    let end = " disappeared before reconciliation completed"@;
    assert(end =~= " disappeared"@ + end.skip(12));
    assert(m =~= none + ("window "@ + a + " disappeared"@) + end.skip(12));
    lemma_holds(none, "window "@ + a + " disappeared"@, end.skip(12));
}

proof fn lemma_changed(a: Seq<char>)
    ensures
        holds(
            report::error_message(RestoreErrorView::WindowIdentityChanged { address: a }),
            "window "@ + a + " changed"@,
        ),
{
    let none = Seq::<char>::empty();
    reveal_strlit(" changed");
    reveal_strlit(" changed before reconciliation completed");
    let m = report::error_message(RestoreErrorView::WindowIdentityChanged { address: a });
    let end = " changed before reconciliation completed"@;
    assert(end =~= " changed"@ + end.skip(8));
    assert(m =~= none + ("window "@ + a + " changed"@) + end.skip(8));
    lemma_holds(none, "window "@ + a + " changed"@, end.skip(8));
}

/// A message that ends with a colon and a reason.
proof fn lemma_reason(start: Seq<char>, word: Seq<char>, a: Seq<char>)
    requires
        start.len() >= word.len(),
        start.skip(start.len() - word.len()) == word,
    ensures
        holds(start + a, word + a),
{
    let none = Seq::<char>::empty();
    let n = start.len() - word.len();
    assert(start =~= start.take(n) + start.skip(n));
    assert(start + a =~= start.take(n) + (word + a) + none);
    lemma_holds(start.take(n), word + a, none);
}

/// A message that tells something before its reason.
proof fn lemma_tells(start: Seq<char>, word: Seq<char>, a: Seq<char>, i: int)
    requires
        0 <= i,
        i + word.len() <= start.len(),
        start.subrange(i, i + word.len()) == word,
    ensures
        holds(start + a, word),
{
    let n = i + word.len();
    assert(start =~= start.take(i) + start.subrange(i, n) + start.skip(n));
    assert(start + a =~= start.take(i) + word + (start.skip(n) + a));
    lemma_holds(start.take(i), word, start.skip(n) + a);
}

proof fn lemma_transaction(a: Seq<char>)
    ensures
        holds(report::error_message(RestoreErrorView::Transaction(a)), "recorded: "@ + a),
{
    reveal_strlit("recorded: ");
    reveal_strlit("replacement transaction could not be recorded: ");
    let start = "replacement transaction could not be recorded: "@;
    assert(start.skip(start.len() - 10) =~= "recorded: "@);
    lemma_reason(start, "recorded: "@, a);
}

proof fn lemma_transaction_after(a: Seq<char>)
    ensures
        holds(
            report::error_message(RestoreErrorView::TransactionAfterRestore(a)),
            "completed"@,
        ),
        holds(
            report::error_message(RestoreErrorView::TransactionAfterRestore(a)),
            "recorded: "@ + a,
        ),
{
    reveal_strlit("recorded: ");
    reveal_strlit("completed");
    reveal_strlit("replacement completed but its finalization marker could not be recorded: ");
    let start = "replacement completed but its finalization marker could not be recorded: "@;
    assert(start.skip(start.len() - 10) =~= "recorded: "@);
    lemma_reason(start, "recorded: "@, a);
    assert(start.subrange(12, 21) =~= "completed"@);
    lemma_tells(start, "completed"@, a, 12);
}

proof fn lemma_snapshot(a: Seq<char>)
    ensures
        holds(
            report::error_message(RestoreErrorView::UnsafeRecoverySnapshot { reason: a }),
            "snapshot"@,
        ),
        holds(
            report::error_message(RestoreErrorView::UnsafeRecoverySnapshot { reason: a }),
            "safely: "@ + a,
        ),
{
    reveal_strlit("snapshot");
    reveal_strlit("safely: ");
    reveal_strlit("safety snapshot cannot be recovered safely: ");
    let start = "safety snapshot cannot be recovered safely: "@;
    assert(start.skip(start.len() - 8) =~= "safely: "@);
    lemma_reason(start, "safely: "@, a);
    assert(start.subrange(7, 15) =~= "snapshot"@);
    lemma_tells(start, "snapshot"@, a, 7);
}

proof fn lemma_target(a: Seq<char>)
    ensures
        holds(
            report::error_message(RestoreErrorView::UnsafeReplacementTarget { reason: a }),
            "target"@,
        ),
        holds(
            report::error_message(RestoreErrorView::UnsafeReplacementTarget { reason: a }),
            "safely: "@ + a,
        ),
{
    reveal_strlit("target");
    reveal_strlit("safely: ");
    reveal_strlit("replacement target cannot be recovered safely: ");
    let start = "replacement target cannot be recovered safely: "@;
    assert(start.skip(start.len() - 8) =~= "safely: "@);
    lemma_reason(start, "safely: "@, a);
    assert(start.subrange(12, 18) =~= "target"@);
    lemma_tells(start, "target"@, a, 12);
}

proof fn lemma_launch_errors(a: Seq<char>, b: Seq<char>)
    ensures
        holds(
            report::error_message(RestoreErrorView::UntrustedLaunch { target: a, command: b }),
            "command '"@ + b + "' for "@ + a,
        ),
        holds(
            report::error_message(RestoreErrorView::MissingLaunchBinary { target: a, command: b }),
            "binary '"@ + b + "' for "@ + a,
        ),
{
    let none = Seq::<char>::empty();
    reveal_strlit("launch command '");
    reveal_strlit("command '");
    reveal_strlit("' for ");
    reveal_strlit("binary '");
    let m = report::error_message(RestoreErrorView::UntrustedLaunch { target: a, command: b });
    let start = "launch command '"@;
    let end = " is not authorized by app identity or config"@;
    assert(start =~= start.take(7) + "command '"@);
    assert(m =~= start.take(7) + ("command '"@ + b + "' for "@ + a) + end);
    lemma_holds(start.take(7), "command '"@ + b + "' for "@ + a, end);
    let m = report::error_message(
        RestoreErrorView::MissingLaunchBinary { target: a, command: b },
    );
    assert(m =~= none + ("binary '"@ + b + "' for "@ + a) + " was not found"@);
    lemma_holds(none, "binary '"@ + b + "' for "@ + a, " was not found"@);
}

/// What the compositor complained about is told to the letter, behind what
/// kind of complaint it is.
pub proof fn law_compositor_errors_are_passed_on(cause: CompositorErrorView, reason: Seq<char>)
    ensures
        holds(
            report::error_message(RestoreErrorView::Hyprctl(cause)),
            report::compositor_message(cause),
        ),
        holds(
            report::compositor_message(CompositorErrorView::CommandFailed(reason)),
            "command failed: "@ + reason,
        ),
        holds(
            report::compositor_message(CompositorErrorView::ParseError(reason)),
            "parse error: "@ + reason,
        ),
        holds(
            report::compositor_message(CompositorErrorView::IoError(reason)),
            "IO error: "@ + reason,
        ),
{
    let none = Seq::<char>::empty();
    let m = report::error_message(RestoreErrorView::Hyprctl(cause));
    let inner = report::compositor_message(cause);
    assert(m =~= "hyprctl error: "@ + inner + none);
    lemma_holds("hyprctl error: "@, inner, none);
    reveal_strlit("hyprctl command failed: ");
    reveal_strlit("command failed: ");
    reveal_strlit("JSON parse error: ");
    reveal_strlit("parse error: ");
    let start = "hyprctl command failed: "@;
    assert(start =~= start.take(8) + "command failed: "@);
    assert(start + reason =~= start.take(8) + ("command failed: "@ + reason) + none);
    lemma_holds(start.take(8), "command failed: "@ + reason, none);
    let start = "JSON parse error: "@;
    assert(start =~= start.take(5) + "parse error: "@);
    assert(start + reason =~= start.take(5) + ("parse error: "@ + reason) + none);
    lemma_holds(start.take(5), "parse error: "@ + reason, none);
    let start = "IO error: "@;
    assert(start + reason =~= none + (start + reason) + none);
    lemma_holds(none, start + reason, none);
}

/// The limit on windows, the saved ones and the open ones are each told as
/// what they are.
pub proof fn law_too_many_windows_are_counted(saved: nat, open: nat, limit: nat)
    ensures
        ({
            let m = report::error_message(
                RestoreErrorView::TooManyWindows { targets: saved, current: open, limit },
            );
            &&& holds(m, "limited to "@ + text::digits(limit) + " "@)
            &&& holds(m, " "@ + text::digits(saved) + " saved"@)
            &&& holds(m, " "@ + text::digits(open) + " current"@)
        }),
{
    reveal_strlit("reconciliation is limited to ");
    reveal_strlit(" saved/current windows (got ");
    reveal_strlit(" saved and ");
    reveal_strlit(" current)");
    reveal_strlit("limited to ");
    reveal_strlit(" ");
    reveal_strlit(" saved");
    reveal_strlit(" current");
    let (l, t, c) = (text::digits(limit), text::digits(saved), text::digits(open));
    let m = report::error_message(
        RestoreErrorView::TooManyWindows { targets: saved, current: open, limit },
    );
    let p = "reconciliation is limited to "@;
    let q = " saved/current windows (got "@;
    let r = " saved and "@;
    let s = " current)"@;
    assert(m =~= p + l + q + t + r + c + s);
    assert(p =~= p.take(18) + "limited to "@);
    assert(q =~= " "@ + q.drop_first());
    assert(m =~= p.take(18) + ("limited to "@ + l + " "@) + (q.drop_first() + t + r + c + s));
    lemma_holds(p.take(18), "limited to "@ + l + " "@, q.drop_first() + t + r + c + s);
    assert(q =~= q.drop_last() + " "@);
    assert(r =~= " saved"@ + r.skip(6));
    assert(m =~= (p + l + q.drop_last()) + (" "@ + t + " saved"@) + (r.skip(6) + c + s));
    lemma_holds(p + l + q.drop_last(), " "@ + t + " saved"@, r.skip(6) + c + s);
    assert(r =~= r.drop_last() + " "@);
    assert(s =~= " current"@ + s.skip(8));
    assert(m =~= (p + l + q + t + r.drop_last()) + (" "@ + c + " current"@) + s.skip(8));
    lemma_holds(p + l + q + t + r.drop_last(), " "@ + c + " current"@, s.skip(8));
}

/// A process that is gone is named by its number.
pub proof fn law_missing_processes_are_named(pid: u32)
    ensures
        holds(
            process::error_message(ProcessError::NotFound(pid)),
            " "@ + text::decimal(pid as int) + " not found"@,
        ),
{
    reveal_strlit("process ");
    reveal_strlit(" ");
    let none = Seq::<char>::empty();
    let start = "process "@;
    let n = text::decimal(pid as int);
    assert(start =~= start.drop_last() + " "@);
    assert(process::error_message(ProcessError::NotFound(pid)) =~= start.drop_last() + (" "@ + n
        + " not found"@) + none);
    lemma_holds(start.drop_last(), " "@ + n + " not found"@, none);
}

/// A target is named by its class and its title.
pub proof fn law_targets_are_named(client: SessionClientView)
    ensures
        holds(targets::named(client).label, client.class + " '"@),
        holds(targets::named(client).label, "'"@ + client.title + "'"@),
        targets::named(client).client == client,
{
    reveal_strlit(" '");
    reveal_strlit("'");
    let none = Seq::<char>::empty();
    let label = targets::named(client).label;
    assert(label =~= none + (client.class + " '"@) + (client.title + "'"@));
    lemma_holds(none, client.class + " '"@, client.title + "'"@);
    assert(" '"@ =~= seq![' '] + "'"@);
    assert(label =~= (client.class + seq![' ']) + ("'"@ + client.title + "'"@) + none);
    lemma_holds(client.class + seq![' '], "'"@ + client.title + "'"@, none);
}

/// What is wrong with a launch is told with the command and the window.
pub proof fn law_launch_problems_are_named(label: Seq<char>, command: Seq<char>)
    ensures
        holds(
            targets::launch_reason(LaunchProblem::Untrusted { label, command }),
            "'"@ + command + "' for "@ + label + " is not authorized"@,
        ),
        holds(
            targets::launch_reason(LaunchProblem::Missing { label, command }),
            "'"@ + command + "' for "@ + label + " is not available"@,
        ),
{
    let none = Seq::<char>::empty();
    reveal_strlit("'");
    reveal_strlit("' for ");
    reveal_strlit("launch command '");
    reveal_strlit("binary '");
    reveal_strlit(" is not authorized");
    reveal_strlit(" is not authorized by app identity or config");
    let start = "launch command '"@;
    let end = " is not authorized by app identity or config"@;
    let part = "'"@ + command + "' for "@ + label + " is not authorized"@;
    assert(start =~= start.drop_last() + "'"@);
    assert(end =~= " is not authorized"@ + end.skip(18));
    assert(targets::launch_reason(LaunchProblem::Untrusted { label, command })
        =~= start.drop_last() + part + end.skip(18));
    lemma_holds(start.drop_last(), part, end.skip(18));
    let start = "binary '"@;
    let part = "'"@ + command + "' for "@ + label + " is not available"@;
    assert(start =~= start.drop_last() + "'"@);
    assert(targets::launch_reason(LaunchProblem::Missing { label, command }) =~= start.drop_last()
        + part + none);
    lemma_holds(start.drop_last(), part, none);
}

/// One line was added to a report: it starts with a word, tells of something,
/// and ends as it should.
pub open spec fn tells(
    before: Seq<Seq<char>>,
    after: Seq<Seq<char>>,
    start: Seq<char>,
    part: Seq<char>,
    end: Seq<char>,
) -> bool {
    &&& after.len() == before.len() + 1
    &&& after.drop_last() == before
    &&& start.is_prefix_of(after.last())
    &&& holds(after.last(), part)
    &&& end.is_suffix_of(after.last())
}

proof fn lemma_line_tells(
    before: Seq<Seq<char>>,
    start: Seq<char>,
    part: Seq<char>,
    middle: Seq<char>,
    end: Seq<char>,
)
    ensures
        tells(before, before + seq![start + part + middle + end], start, part, end),
{
    let line = start + part + middle + end;
    let after = before + seq![line];
    assert(after.drop_last() =~= before);
    assert(after.last() == line);
    assert(start =~= line.subrange(0, start.len() as int));
    assert(end =~= line.subrange(line.len() - end.len(), line.len() as int));
    lemma_holds(start, part, middle + end);
    assert(start + part + (middle + end) =~= line);
}

/// A repaired window is told of, by its name and its address, only where every
/// step is; a failure is always told of, by the name of the window and the
/// reason.
pub proof fn law_restores_tell_what_became_of_a_window(
    state: RestoringView,
    target: SessionClientView,
    placed: SessionClientView,
    name: Seq<char>,
    by_profile: bool,
    available: bool,
    reason: Seq<char>,
)
    requires
        state.items[state.index] == (RestoreItemView::Window {
            target,
            placed,
            name,
            by_profile,
            available,
        }),
    ensures
        ({
            let address = state.pending->0.client.address;
            let told = state.report.details;
            let repaired = restoring::step_repaired(state, None).report.details;
            let unrepaired = restoring::step_repaired(state, Some(reason)).report.details;
            let unlaunched = restoring::step_launch_failed(state, reason).report.details;
            &&& state.verbose ==> tells(told, repaired, "OK: "@, name, address)
            &&& !state.verbose ==> repaired == told
            &&& tells(told, unrepaired, "FAIL: "@, name, reason)
            &&& holds(unrepaired.last(), address)
            &&& tells(told, unlaunched, "FAIL: "@, name, reason)
        }),
{
    let address = state.pending->0.client.address;
    let told = state.report.details;
    let repaired = "OK: repaired "@ + name + " at address "@ + address;
    reveal_strlit("OK: ");
    reveal_strlit("OK: repaired ");
    assert("OK: repaired "@.subrange(0, 4) =~= "OK: "@);
    lemma_line_tells(told, "OK: repaired "@, name, " at address "@, address);
    assert("OK: "@ =~= repaired.subrange(0, 4));
    assert(told + Seq::<Seq<char>>::empty() =~= told);
    let middle = " at address "@ + address + " — "@;
    let failed = "FAIL: "@ + name + " at address "@ + address + " — "@ + reason;
    assert("FAIL: "@ + name + middle + reason =~= failed);
    lemma_line_tells(told, "FAIL: "@, name, middle, reason);
    let before = "FAIL: "@ + name + " at address "@;
    lemma_holds(before, address, " — "@ + reason);
    assert(before + address + (" — "@ + reason) =~= failed);
    lemma_line_tells(told, "FAIL: "@, name, " — "@, reason);
}

/// A launched window is told of by its class, its workspace and its place,
/// only where every step is.
pub proof fn law_restores_tell_where_a_window_was_placed(
    state: RestoringView,
    target: SessionClientView,
    placed: SessionClientView,
    name: Seq<char>,
    by_profile: bool,
    available: bool,
    window: ObservedClientView,
)
    requires
        state.items[state.index] == (RestoreItemView::Window {
            target,
            placed,
            name,
            by_profile,
            available,
        }),
    ensures
        ({
            let told = state.report.details;
            let after = restoring::step_launched(state, window).report.details;
            let place = "["@ + text::decimal(placed.at.0) + ", "@ + text::decimal(placed.at.1)
                + "]"@;
            &&& state.verbose ==> tells(told, after, "OK: "@, placed.class, place)
            &&& state.verbose ==> holds(
                after.last(),
                "ws="@ + text::decimal(placed.workspace) + " "@,
            )
            &&& !state.verbose ==> after == told
        }),
{
    let told = state.report.details;
    let x = text::decimal(placed.at.0);
    let y = text::decimal(placed.at.1);
    let ws = text::decimal(placed.workspace);
    let line = "OK: "@ + placed.class + " → ws="@ + ws + " at ["@ + x + ", "@ + y + "]"@;
    let place = "["@ + x + ", "@ + y + "]"@;
    reveal_strlit(" → ws=");
    reveal_strlit("ws=");
    reveal_strlit(" at [");
    reveal_strlit("[");
    reveal_strlit(" ");
    reveal_strlit(" at ");
    reveal_strlit(" → ");
    reveal_strlit("at ");
    assert(" → "@ + "ws="@ =~= " → ws="@);
    assert(" at "@ + "["@ =~= " at ["@);
    assert(" "@ + "at "@ =~= " at "@);
    let middle = " → ws="@ + ws + " at "@;
    assert("OK: "@ + placed.class + middle + place =~= line) by {
        assert("OK: "@ + placed.class + " → ws="@ + ws + (" at "@ + "["@) + x + ", "@ + y + "]"@
            == line);
        assert("OK: "@ + placed.class + middle + place =~= "OK: "@ + placed.class + " → ws="@
            + ws + (" at "@ + "["@) + x + ", "@ + y + "]"@);
    }
    lemma_line_tells(told, "OK: "@, placed.class, middle, place);
    let part = "ws="@ + ws + " "@;
    let before = "OK: "@ + placed.class + " → "@;
    let rest = "at "@ + place;
    lemma_holds(before, part, rest);
    assert(before + part + rest =~= "OK: "@ + placed.class + (" → "@ + "ws="@) + ws + (" "@
        + "at "@) + place);
    assert("OK: "@ + placed.class + " → ws="@ + ws + " at "@ + place =~= "OK: "@ + placed.class
        + middle + place);
    assert(told + Seq::<Seq<char>>::empty() =~= told);
}

} // verus!
