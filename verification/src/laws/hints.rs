//! How a terminal is opened again: in its directory, with the command that
//! ran in it.

use crate::capture;
use crate::capture::TerminalView;
use crate::config::AppConfigView;
use crate::hyprctl::HyprClientView;
use crate::process;
use crate::process::ChildProcessView;
use crate::session::LaunchInfoView;
use crate::text;
use crate::webapps;
use vstd::prelude::*;

verus! {

/// A text stands nowhere in another.
pub open spec fn lacks(s: Seq<char>, part: Seq<char>) -> bool {
    forall|i: int| 0 <= i <= s.len() - part.len() ==> #[trigger] s.subrange(i, i + part.len())
        != part
}

proof fn lemma_lacks_rest(s: Seq<char>, part: Seq<char>)
    requires
        s.len() > 0,
        lacks(s, part),
    ensures
        lacks(s.drop_first(), part),
{
    let rest = s.drop_first();
    assert forall|i: int| 0 <= i <= rest.len() - part.len() implies #[trigger] rest.subrange(
        i,
        i + part.len(),
    ) != part by {
        assert(rest.subrange(i, i + part.len()) =~= s.subrange(i + 1, i + 1 + part.len()));
    }
}

/// A text stays as it is where there is nothing to replace.
pub proof fn law_nothing_to_replace(s: Seq<char>, from: Seq<char>, to: Seq<char>)
    requires
        lacks(s, from),
    ensures
        text::replaced(s, from, to) == s,
    decreases s.len(),
{
    if s.len() > 0 && from.len() > 0 {
        if from.len() <= s.len() {
            assert(s.subrange(0, 0int + from.len()) != from);
        }
        assert(!text::occurs_at(s, from, 0));
        lemma_lacks_rest(s, from);
        law_nothing_to_replace(s.drop_first(), from, to);
        assert(seq![s[0]] + s.drop_first() =~= s);
    }
}

/// The first occurrence of a mark, which begins with a character that stands
/// nowhere else in it, gives way to the new text; what stands before it is
/// kept, and what stands behind it is treated alike.
pub proof fn law_first_mark_is_replaced(
    before: Seq<char>,
    mark: Seq<char>,
    after: Seq<char>,
    to: Seq<char>,
)
    requires
        mark.len() > 0,
        forall|i: int| 0 < i < mark.len() ==> #[trigger] mark[i] != mark[0],
        lacks(before, mark),
    ensures
        text::replaced(before + mark + after, mark, to) == before + to + text::replaced(
            after,
            mark,
            to,
        ),
    decreases before.len(),
{
    let s = before + mark + after;
    let rest = text::replaced(after, mark, to);
    if before.len() == 0 {
        assert(s.subrange(0, mark.len() as int) =~= mark);
        assert(s.skip(mark.len() as int) =~= after);
        assert(before + to + rest =~= to + rest);
    } else {
        if text::occurs_at(s, mark, 0) {
            let found = s.subrange(0, 0int + mark.len());
            if mark.len() <= before.len() {
                assert(before.subrange(0, 0int + mark.len()) =~= found);
            } else {
                let n = before.len() as int;
                assert(found[n] == s[n]);
                assert(s[n] == mark[0]);
                assert(mark[n] != mark[0]);
            }
        }
        lemma_lacks_rest(before, mark);
        law_first_mark_is_replaced(before.drop_first(), mark, after, to);
        assert(s.drop_first() =~= before.drop_first() + mark + after);
        assert(seq![s[0]] + (before.drop_first() + to + rest) =~= before + to + rest);
    }
}

/// One mark in a text gives way to the new text, and nothing else does.
pub proof fn law_one_mark_is_replaced(
    before: Seq<char>,
    mark: Seq<char>,
    after: Seq<char>,
    to: Seq<char>,
)
    requires
        mark.len() > 0,
        forall|i: int| 0 < i < mark.len() ==> #[trigger] mark[i] != mark[0],
        lacks(before, mark),
        lacks(after, mark),
    ensures
        text::replaced(before + mark + after, mark, to) == before + to + after,
{
    law_first_mark_is_replaced(before, mark, after, to);
    law_nothing_to_replace(after, mark, to);
}

proof fn lemma_marks()
    ensures
        "{last_command}"@.len() > 0,
        forall|i: int|
            0 < i < "{last_command}"@.len() ==> #[trigger] "{last_command}"@[i]
                != "{last_command}"@[0],
        "{cwd}"@.len() > 0,
        forall|i: int| 0 < i < "{cwd}"@.len() ==> #[trigger] "{cwd}"@[i] != "{cwd}"@[0],
{
    reveal_strlit("{last_command}");
    reveal_strlit("{cwd}");
}

/// A terminal whose settings ask for it is opened again in the directory of
/// its shell, with the flag that it understands.
pub proof fn law_terminal_is_opened_in_its_directory(
    client: HyprClientView,
    app: AppConfigView,
    terminal: TerminalView,
    shell: ChildProcessView,
)
    requires
        app.capture_cwd == Some(true),
        terminal.shell == Some(shell),
    ensures
        ({
            let args = capture::launch_info(client, Some(app), None, terminal).args;
            &&& args.len() == 2
            &&& args[1] == shell.cwd
            &&& args[0] == "--directory"@ || args[0] == "--working-directory"@
            &&& client.class == "ghostty"@ || client.initial_class == "com.mitchellh.ghostty"@
                ==> args[0] == "--working-directory"@
            &&& client.class == "kitty"@ && client.initial_class == "kitty"@ ==> args[0]
                == "--directory"@
            &&& capture::directory_argument(args) == Some(shell.cwd)
        }),
{
    reveal_strlit("--directory");
    reveal_strlit("--working-directory");
    reveal_strlit("ghostty");
    reveal_strlit("com.mitchellh.ghostty");
    reveal_strlit("kitty");
    assert(text::lowered("kitty"@).len() == 5);
    assert(text::lowered("ghostty"@).len() == 7);
    assert(text::lowered("com.mitchellh.ghostty"@).len() == 21);
}

/// The hint of a terminal is its template, with the command that ran in the
/// terminal where `{last_command}` stood and the directory of its shell where
/// `{cwd}` stood, in either order, or with one of them alone.  The command is
/// the hint that the terminal has without a template.
pub proof fn law_hint_fills_its_template(
    client: HyprClientView,
    app: AppConfigView,
    terminal: TerminalView,
    shell: ChildProcessView,
    command: Seq<char>,
    before: Seq<char>,
    between: Seq<char>,
    after: Seq<char>,
)
    requires
        app.capture_cwd == Some(true),
        app.capture_last_command == Some(true),
        terminal.shell == Some(shell),
        capture::launch_info(
            client,
            Some(AppConfigView { hint_template: None, ..app }),
            None,
            terminal,
        ).hint == Some(command),
    ensures
        ({
            let directory = shell.cwd;
            let hint = capture::launch_info(client, Some(app), None, terminal).hint;
            let c = "{last_command}"@;
            let d = "{cwd}"@;
            &&& app.hint_template == Some(before + c + between + d + after) && lacks(before, c)
                && lacks(between + d + after, c) && lacks(before + command + between, d) && lacks(
                after,
                d,
            ) ==> hint == Some(before + command + between + directory + after)
            &&& app.hint_template == Some(before + d + between + c + after) && lacks(
                before + d + between,
                c,
            ) && lacks(after, c) && lacks(before, d) && lacks(between + command + after, d)
                ==> hint == Some(before + directory + between + command + after)
            &&& app.hint_template == Some(before + c + after) && lacks(before, c) && lacks(after, c)
                && lacks(before + command + after, d) ==> hint == Some(before + command + after)
            &&& app.hint_template == Some(before + d + after) && lacks(before + d + after, c)
                && lacks(before, d) && lacks(after, d) ==> hint == Some(before + directory + after)
            &&& app.hint_template is Some && lacks(app.hint_template->0, c) && lacks(
                app.hint_template->0,
                d,
            ) ==> hint == app.hint_template
        }),
{
    let directory = shell.cwd;
    let c = "{last_command}"@;
    let d = "{cwd}"@;
    lemma_marks();
    law_terminal_is_opened_in_its_directory(client, app, terminal, shell);
    let bare = AppConfigView { hint_template: None, ..app };
    assert(capture::plain_hint(Some(bare), None, terminal) == capture::plain_hint(
        Some(app),
        None,
        terminal,
    ));
    if app.hint_template is Some {
        let template = app.hint_template->0;
        if template == before + c + between + d + after && lacks(before, c) && lacks(
            between + d + after,
            c,
        ) && lacks(before + command + between, d) && lacks(after, d) {
            assert(template =~= before + c + (between + d + after));
            law_one_mark_is_replaced(before, c, between + d + after, command);
            assert(before + command + (between + d + after) =~= (before + command + between) + d
                + after);
            law_one_mark_is_replaced(before + command + between, d, after, directory);
        }
        if template == before + d + between + c + after && lacks(before + d + between, c) && lacks(
            after,
            c,
        ) && lacks(before, d) && lacks(between + command + after, d) {
            assert(template =~= (before + d + between) + c + after);
            law_one_mark_is_replaced(before + d + between, c, after, command);
            assert((before + d + between) + command + after =~= before + d + (between + command
                + after));
            law_one_mark_is_replaced(before, d, between + command + after, directory);
            assert(before + directory + (between + command + after) =~= before + directory + between
                + command + after);
        }
        if template == before + c + after && lacks(before, c) && lacks(after, c) && lacks(
            before + command + after,
            d,
        ) {
            law_one_mark_is_replaced(before, c, after, command);
            law_nothing_to_replace(before + command + after, d, directory);
        }
        if template == before + d + after && lacks(before + d + after, c) && lacks(before, d)
            && lacks(after, d) {
            law_nothing_to_replace(template, c, command);
            law_one_mark_is_replaced(before, d, after, directory);
        }
        if lacks(template, c) && lacks(template, d) {
            law_nothing_to_replace(template, c, command);
            law_nothing_to_replace(template, d, directory);
        }
    }
}

/// A process whose command line is worth running again: neither empty nor a
/// shell nor a helper.
pub open spec fn is_work(child: ChildProcessView) -> bool {
    child.cmdline.len() > 0 && !process::is_shell(child.cmdline) && !process::is_helper(
        child.cmdline,
    )
}

/// The running command is the oldest one: no other has a smaller process ID,
/// and there is one as soon as one child is worth running again.
pub proof fn law_running_command_is_the_oldest(children: Seq<ChildProcessView>)
    ensures
        match capture::running_command(children) {
            Some(i) => {
                &&& 0 <= i < children.len()
                &&& is_work(children[i])
                &&& forall|k: int|
                    0 <= k < children.len() && is_work(#[trigger] children[k]) ==> children[i].pid
                        <= children[k].pid
                &&& forall|k: int|
                    0 <= k < i && is_work(#[trigger] children[k]) ==> children[i].pid
                        < children[k].pid
            },
            None => forall|k: int| 0 <= k < children.len() ==> !is_work(#[trigger] children[k]),
        },
    decreases children.len(),
{
    if children.len() > 0 {
        let front = children.drop_last();
        law_running_command_is_the_oldest(front);
        assert forall|k: int| 0 <= k < front.len() implies front[k] == #[trigger] children[k] by {}
    }
}

/// Without a template the hint of a terminal is the command line of the oldest
/// command below its shell, or the line of the shell itself where nothing runs
/// below it and it was started with a command; a plain shell gives no hint.
pub proof fn law_hint_is_the_running_command(
    client: HyprClientView,
    app: AppConfigView,
    terminal: TerminalView,
    shell: ChildProcessView,
    children: Seq<ChildProcessView>,
    i: int,
)
    requires
        app.capture_last_command == Some(true),
        app.hint_template is None,
        terminal.shell == Some(shell),
        terminal.below == Some(children),
    ensures
        ({
            let hint = capture::launch_info(client, Some(app), None, terminal).hint;
            let idle = forall|k: int| 0 <= k < children.len() ==> !is_work(#[trigger] children[k]);
            &&& 0 <= i < children.len() && is_work(children[i]) && (forall|k: int|
                0 <= k < children.len() && k != i && is_work(#[trigger] children[k])
                    ==> children[i].pid < children[k].pid) ==> hint == Some(children[i].cmdline)
            &&& idle && shell.cmdline.len() > 0 && !process::is_shell(shell.cmdline) ==> hint
                == Some(shell.cmdline)
            &&& idle && process::is_shell(shell.cmdline) ==> hint is None
        }),
{
    law_running_command_is_the_oldest(children);
}

/// A window that is opened from its desktop entry, one whose settings do not
/// ask for it, and one without a shell get no hint.
pub proof fn law_hints_need_a_terminal(
    client: HyprClientView,
    app: Option<AppConfigView>,
    desktop: Option<LaunchInfoView>,
    terminal: TerminalView,
)
    ensures
        ({
            let info = capture::launch_info(client, app, desktop, terminal);
            &&& desktop is Some ==> info.hint is None && info.args == desktop->0.args
            &&& terminal.shell is None ==> info.hint is None
            &&& app is None ==> info.hint is None
            &&& app is Some && app->0.capture_last_command != Some(true) ==> info.hint is None
            &&& desktop is None && (app is None || app->0.capture_cwd != Some(true)
                || terminal.shell is None) ==> info.args.len() == 0
        }),
{
}

/// The executable of a window: what the settings say comes first, its desktop
/// entry next, and its class last.
pub proof fn law_settings_name_the_executable(
    client: HyprClientView,
    app: AppConfigView,
    desktop: LaunchInfoView,
    terminal: TerminalView,
    binary: Seq<char>,
)
    ensures
        capture::launch_info(
            client,
            Some(AppConfigView { binary: Some(binary), ..app }),
            Some(desktop),
            terminal,
        ).command == binary,
        capture::launch_info(
            client,
            Some(AppConfigView { binary: Some(binary), ..app }),
            None,
            terminal,
        ).command == binary,
        capture::launch_info(
            client,
            Some(AppConfigView { binary: None, ..app }),
            Some(desktop),
            terminal,
        ).command == desktop.command,
        capture::launch_info(client, None, Some(desktop), terminal).command == desktop.command,
        !text::same_ignoring_case(client.class, "ghostty"@) && !text::same_ignoring_case(
            client.class,
            "com.mitchellh.ghostty"@,
        ) && !text::same_ignoring_case(client.class, "brave-browser"@) && client.initial_class
            == client.class ==> capture::launch_info(client, None, None, terminal).command
            == client.class,
        client.class == "com.mitchellh.ghostty"@ ==> capture::launch_info(
            client,
            None,
            None,
            terminal,
        ).command == "ghostty"@,
        client.class == "brave-browser"@ && client.initial_class == client.class
            ==> capture::launch_info(client, None, None, terminal).command == "brave"@,
{
    reveal_strlit("brave-browser");
    reveal_strlit("ghostty");
    reveal_strlit("com.mitchellh.ghostty");
    assert(text::lowered("brave-browser"@).len() == 13);
    assert(text::lowered("ghostty"@).len() == 7);
    assert(text::lowered("com.mitchellh.ghostty"@).len() == 21);
}

/// The directory among the arguments of a terminal is the one behind the first
/// flag for it, or in it behind an equals sign.
pub proof fn law_directory_among_arguments(
    front: Seq<Seq<char>>,
    directory: Seq<char>,
    rest: Seq<Seq<char>>,
)
    requires
        forall|i: int|
            0 <= i < front.len() ==> (#[trigger] front[i]).len() > 0 && front[i][0] != '-',
    ensures
        capture::directory_argument(front + seq!["--directory"@, directory] + rest) == Some(
            directory,
        ),
        capture::directory_argument(front + seq!["--working-directory"@, directory] + rest) == Some(
            directory,
        ),
        capture::directory_argument(front + seq!["--directory="@ + directory] + rest) == Some(
            directory,
        ),
        capture::directory_argument(front + seq!["--working-directory="@ + directory] + rest)
            == Some(directory),
        capture::directory_argument(front) is None,
{
    reveal_strlit("--directory");
    reveal_strlit("--working-directory");
    reveal_strlit("--directory=");
    reveal_strlit("--working-directory=");
    let a = front + seq!["--directory"@, directory] + rest;
    let b = front + seq!["--working-directory"@, directory] + rest;
    let x = "--directory="@ + directory;
    let y = "--working-directory="@ + directory;
    let c = front + seq![x] + rest;
    let d = front + seq![y] + rest;
    let n = front.len() as int;
    assert(a[n] == "--directory"@ && a[n + 1] == directory);
    assert(b[n] == "--working-directory"@ && b[n + 1] == directory);
    assert(c[n] == x);
    assert(d[n] == y);
    assert(x.take(12) =~= "--directory="@);
    assert(x.skip(12) =~= directory);
    assert(x[11] == '=');
    assert(y.take(20) =~= "--working-directory="@);
    assert(y.skip(20) =~= directory);
    assert(y[2] == 'w');
    assert(y[19] == '=');
    if text::starts_with(y, "--directory="@) {
        assert(y.take(12)[2] == 'd');
    }
    lemma_no_directory_before(a, front, 0);
    lemma_no_directory_before(b, front, 0);
    lemma_no_directory_before(c, front, 0);
    lemma_no_directory_before(d, front, 0);
    lemma_no_directory_before(front, front, 0);
}

proof fn lemma_no_directory_before(args: Seq<Seq<char>>, front: Seq<Seq<char>>, i: int)
    requires
        0 <= i <= front.len() <= args.len(),
        forall|k: int|
            0 <= k < front.len() ==> #[trigger] args[k] == front[k] && front[k].len() > 0
                && front[k][0] != '-',
    ensures
        capture::directory_from(args, i) == capture::directory_from(args, front.len() as int),
    decreases front.len() - i,
{
    reveal_strlit("--directory");
    reveal_strlit("--working-directory");
    reveal_strlit("--directory=");
    reveal_strlit("--working-directory=");
    if i < front.len() {
        assert(args[i] == front[i]);
        if text::starts_with(args[i], "--directory="@) {
            assert(args[i].take(12)[0] == '-');
        }
        if text::starts_with(args[i], "--working-directory="@) {
            assert(args[i].take(20)[0] == '-');
        }
        lemma_no_directory_before(args, front, i + 1);
    }
}

/// A configured executable overrules the desktop entry of a web application;
/// without one the entry counts.
pub proof fn law_configured_executables_overrule_entries(
    client: HyprClientView,
    app: AppConfigView,
    entries: Seq<Seq<char>>,
)
    ensures
        app.binary is Some ==> capture::desktop_for(client, Some(app), entries) is None,
        app.binary is None ==> capture::desktop_for(client, Some(app), entries)
            == capture::desktop_for(client, None, entries),
        !text::starts_with_ignoring_case(client.class, "chrome-"@)
            && !text::starts_with_ignoring_case(client.initial_class, "chrome-"@)
            ==> capture::desktop_for(client, None, entries) is None,
        client.class == client.initial_class ==> capture::desktop_for(client, None, entries)
            == webapps::discovered_launch(client.class, client.class, entries),
{
}

} // verus!
