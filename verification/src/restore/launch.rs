//! How saved windows are launched, and which launches are trusted.

use crate::capture;
use crate::config;
use crate::config::{Config, ConfigView};
use crate::placement;
use crate::session::{SessionClient, SessionClientView};
use crate::text;
use crate::webapps;
use vstd::prelude::*;

verus! {

// ── Kinds of windows ───────────────────────────────────────────────────────

/// A saved Ghostty window.
pub open spec fn is_ghostty(client: SessionClientView) -> bool {
    capture::is_ghostty(client.class) || capture::is_ghostty(client.initial_class)
}

/// A saved Brave window.
pub open spec fn is_brave(client: SessionClientView) -> bool {
    capture::is_brave(client.class) || capture::is_brave(client.initial_class)
}

/// A saved window of a web application.
pub open spec fn is_webapp(client: SessionClientView) -> bool {
    webapps::is_webapp(client.class) || webapps::is_webapp(client.initial_class)
}

/// Tells whether a saved window is one of Ghostty.
pub fn is_ghostty_class(client: &SessionClient) -> (r: bool)
    ensures
        r == is_ghostty(client@),
{
    capture::is_ghostty_class(client.class.as_str()) || capture::is_ghostty_class(
        client.initial_class.as_str(),
    )
}

/// Tells whether a saved window is one of Brave.
pub fn is_brave_client(client: &SessionClient) -> (r: bool)
    ensures
        r == is_brave(client@),
{
    capture::is_brave_class(client.class.as_str()) || capture::is_brave_class(
        client.initial_class.as_str(),
    )
}

/// Tells whether a saved window is one of a web application.
pub fn is_webapp_class(client: &SessionClient) -> (r: bool)
    ensures
        r == is_webapp(client@),
{
    webapps::is_webapp_class(client.class.as_str()) || webapps::is_webapp_class(
        client.initial_class.as_str(),
    )
}

// ── Commands ───────────────────────────────────────────────────────────────

/// The executable of a saved window.  Old snapshots name Ghostty by its class.
pub open spec fn binary_of(client: SessionClientView) -> Seq<char> {
    if is_ghostty(client) && (client.launch.command.len() == 0 || text::same_ignoring_case(
        client.launch.command,
        client.class,
    ) || text::same_ignoring_case(client.launch.command, client.initial_class)) {
        "ghostty"@
    } else {
        client.launch.command
    }
}

/// The executable of a saved window.
pub fn effective_binary(client: &SessionClient) -> (r: String)
    ensures
        r@ == binary_of(client@),
{
    let command = client.launch.command.as_str();
    if is_ghostty_class(client) && (command.is_empty() || text::eq_ignore_case(
        command,
        client.class.as_str(),
    ) || text::eq_ignore_case(command, client.initial_class.as_str())) {
        "ghostty".to_owned()
    } else {
        client.launch.command.clone()
    }
}

/// The arguments by which a terminal shows a hint and then runs a shell.
pub open spec fn hint_args(hint: Seq<char>) -> Seq<Seq<char>> {
    seq![
        "-e"@,
        "zsh"@,
        "-c"@,
        "echo '"@ + text::replaced(hint, seq!['\''], seq!['\'', '\\', '\'', '\''])
            + "'; exec zsh"@,
    ]
}

/// The command that opens a saved window: its executable, its arguments, and
/// for kitty the hint.
pub open spec fn command_of(client: SessionClientView) -> Seq<Seq<char>> {
    seq![binary_of(client)] + client.launch.args + (if text::same_ignoring_case(
        client.class,
        "kitty"@,
    ) && client.launch.hint is Some {
        hint_args(client.launch.hint->0)
    } else {
        seq![]
    })
}

/// Build the argv vector used to spawn `client`'s application.
///
/// For `kitty` windows that carry a `hint` (e.g. the last shell command),
/// the terminal opens with that hint visible and then drops to an interactive
/// shell.
pub fn build_launch_command(client: &SessionClient) -> (r: Vec<String>)
    ensures
        r.deep_view() == command_of(client@),
{
    let mut cmd: Vec<String> = Vec::new();
    cmd.push(effective_binary(client));
    let ghost head = seq![binary_of(client@)];
    assert(cmd.deep_view() =~= head);
    let mut args = text::copy_texts(&client.launch.args);
    let ghost given = args.deep_view();
    cmd.append(&mut args);
    assert(cmd.deep_view() =~= head + given);
    if text::eq_ignore_case(client.class.as_str(), "kitty") {
        if let Some(hint) = &client.launch.hint {
            proof {
                reveal_strlit("'");
                reveal_strlit("'\\''");
                assert("'"@ =~= seq!['\'']);
                assert("'\\''"@ =~= seq!['\'', '\\', '\'', '\'']);
            }
            let escaped = text::replace(hint.as_str(), "'", "'\\''");
            cmd.push("-e".to_owned());
            cmd.push("zsh".to_owned());
            cmd.push("-c".to_owned());
            cmd.push("echo '".to_owned().concat(escaped.as_str()).concat("'; exec zsh"));
            assert(cmd.deep_view() =~= head + given + hint_args(hint@));
        }
    }
    assert(cmd.deep_view() =~= command_of(client@));
    cmd
}

/// The operations announced for a window that is opened anew.
pub open spec fn dispatch_plan(client: SessionClientView, available: bool) -> Seq<Seq<char>> {
    let here = "address:0xNEW"@;
    seq!["exec "@ + text::joined(command_of(client), " "@)] + seq![
        "movetoworkspacesilent "@ + placement::quoted(placement::selector(client)) + ","@ + here,
    ] + placement::when(
        available && client.monitor.len() > 0,
        placement::monitor_moves(client.monitor, "0xNEW"@),
    ) + placement::when(
        client.monitor.len() == 0 || available,
        seq![
            "resizewindowpixel exact "@ + text::decimal(client.size.0) + " "@ + text::decimal(
                client.size.1,
            ) + ","@ + here,
            "movewindowpixel exact "@ + text::decimal(client.at.0) + " "@ + text::decimal(
                client.at.1,
            ) + ","@ + here,
        ],
    ) + placement::when(client.floating, seq!["togglefloating "@ + here]) + placement::when(
        client.fullscreen > 0,
        seq![
            "focuswindow "@ + here,
            "fullscreenstate "@ + text::decimal(client.fullscreen as int) + " "@ + text::decimal(
                client.fullscreen as int,
            ),
        ],
    ) + placement::when(client.pinned, seq!["pin "@ + here])
}

fn pixel_plan(start: &str, first: i32, second: i32) -> (r: String)
    ensures
        r@ == start@ + text::decimal(first as int) + " "@ + text::decimal(second as int) + ","@
            + "address:0xNEW"@,
{
    let a = text::number_text(first as i64);
    let b = text::number_text(second as i64);
    start.to_owned().concat(a.as_str()).concat(" ").concat(b.as_str()).concat(",").concat(
        "address:0xNEW",
    )
}

/// Build the list of `hyprctl dispatch` argument strings that would be
/// issued for a given client.
pub fn build_dispatch_commands(client: &SessionClient) -> (r: Vec<String>)
    ensures
        r.deep_view() == dispatch_plan(client@, true),
{
    build_dispatch_commands_for_monitor(client, true)
}

/// The operations announced for a window that is opened anew, on a desktop
/// that has its monitor or not.
pub fn build_dispatch_commands_for_monitor(
    client: &SessionClient,
    target_monitor_available: bool,
) -> (r: Vec<String>)
    ensures
        r.deep_view() == dispatch_plan(client@, target_monitor_available),
{
    let available = target_monitor_available;
    let ghost view = client@;
    let ghost here = "address:0xNEW"@;
    let launch = build_launch_command(client);
    let line = text::join(&launch, " ");
    let mut cmds: Vec<String> = Vec::new();
    cmds.push("exec ".to_owned().concat(line.as_str()));
    let ghost d1 = seq!["exec "@ + text::joined(command_of(view), " "@)];
    assert(cmds.deep_view() =~= d1);
    let chosen = placement::workspace_selector(client);
    let token = placement::quote_dispatch_token(chosen.as_str());
    cmds.push(
        "movetoworkspacesilent ".to_owned().concat(token.as_str()).concat(",").concat(
            "address:0xNEW",
        ),
    );
    let ghost d2 = seq![
        "movetoworkspacesilent "@ + placement::quoted(placement::selector(view)) + ","@ + here,
    ];
    assert(cmds.deep_view() =~= d1 + d2);
    if available && !client.monitor.as_str().is_empty() {
        let mut moves = placement::monitor_move_commands(client.monitor.as_str(), "0xNEW");
        let ghost added = moves.deep_view();
        cmds.append(&mut moves);
        assert(cmds.deep_view() =~= d1 + d2 + added);
    }
    let ghost d3 = placement::when(
        available && view.monitor.len() > 0,
        placement::monitor_moves(view.monitor, "0xNEW"@),
    );
    assert(cmds.deep_view() =~= d1 + d2 + d3);
    let ghost so_far = d1 + d2 + d3;
    if client.monitor.as_str().is_empty() || available {
        cmds.push(pixel_plan("resizewindowpixel exact ", client.size[0], client.size[1]));
        cmds.push(pixel_plan("movewindowpixel exact ", client.at[0], client.at[1]));
    }
    let ghost d4 = placement::when(
        view.monitor.len() == 0 || available,
        seq![
            "resizewindowpixel exact "@ + text::decimal(view.size.0) + " "@ + text::decimal(
                view.size.1,
            ) + ","@ + here,
            "movewindowpixel exact "@ + text::decimal(view.at.0) + " "@ + text::decimal(view.at.1)
                + ","@ + here,
        ],
    );
    assert(cmds.deep_view() =~= so_far + d4);
    let ghost so_far = so_far + d4;
    if client.floating {
        cmds.push("togglefloating ".to_owned().concat("address:0xNEW"));
    }
    let ghost d5 = placement::when(view.floating, seq!["togglefloating "@ + here]);
    assert(cmds.deep_view() =~= so_far + d5);
    let ghost so_far = so_far + d5;
    if client.fullscreen > 0 {
        cmds.push("focuswindow ".to_owned().concat("address:0xNEW"));
        let state = text::number_text(client.fullscreen as i64);
        cmds.push(
            "fullscreenstate ".to_owned().concat(state.as_str()).concat(" ").concat(state.as_str()),
        );
    }
    let ghost d6 = placement::when(
        view.fullscreen > 0,
        seq![
            "focuswindow "@ + here,
            "fullscreenstate "@ + text::decimal(view.fullscreen as int) + " "@ + text::decimal(
                view.fullscreen as int,
            ),
        ],
    );
    assert(cmds.deep_view() =~= so_far + d6);
    let ghost so_far = so_far + d6;
    if client.pinned {
        cmds.push("pin ".to_owned().concat("address:0xNEW"));
    }
    let ghost d7 = placement::when(view.pinned, seq!["pin "@ + here]);
    assert(cmds.deep_view() =~= so_far + d7);
    cmds
}

// ── Trust ──────────────────────────────────────────────────────────────────

/// A character with a meaning to a shell.
pub open spec fn is_metacharacter(c: char) -> bool {
    c == ';' || c == '&' || c == '|' || c == '$' || c == '`' || c == '(' || c == ')' || c == '<'
        || c == '>' || c == '\\' || c == '\n' || c == '\r'
}

/// No character has a meaning to a shell.
pub open spec fn is_inert(s: Seq<char>) -> bool {
    forall|i: int| 0 <= i < s.len() ==> !is_metacharacter(#[trigger] s[i])
}

/// No character has a meaning to a shell or opens a quote.
pub open spec fn is_inert_and_unquoted(s: Seq<char>) -> bool {
    is_inert(s) && !text::has_char(s, '\'') && !text::has_char(s, '"')
}

/// All arguments from place `i` on are inert.
pub open spec fn all_inert(args: Seq<Seq<char>>, i: int) -> bool {
    forall|k: int| i <= k < args.len() ==> is_inert(#[trigger] args[k])
}

fn contains_shell_metacharacter(value: &str) -> (r: bool)
    ensures
        r == !is_inert(value@),
{
    let x = text::chars_of(value);
    let mut i: usize = 0;
    while i < x.len()
        invariant
            x@ == value@,
            i <= x.len(),
            forall|k: int| 0 <= k < i ==> !is_metacharacter(#[trigger] value@[k]),
        decreases x.len() - i,
    {
        let c = x[i];
        assert(value@[i as int] == c);
        if c == ';' || c == '&' || c == '|' || c == '$' || c == '`' || c == '(' || c == ')' || c
            == '<' || c == '>' || c == '\\' || c == '\n' || c == '\r' {
            assert(is_metacharacter(value@[i as int]));
            return true;
        }
        i += 1;
    }
    false
}

fn contains_shell_metacharacter_or_quote(value: &str) -> (r: bool)
    ensures
        r == !is_inert_and_unquoted(value@),
{
    contains_shell_metacharacter(value) || text::contains_char(value, '\'')
        || text::contains_char(value, '"')
}

fn are_inert(args: &Vec<String>, from: usize) -> (r: bool)
    ensures
        r == all_inert(args.deep_view(), from as int),
{
    let ghost all = args.deep_view();
    let mut i: usize = from;
    while i < args.len()
        invariant
            from <= i,
            all == args.deep_view(),
            forall|k: int| from <= k < i && k < all.len() ==> is_inert(#[trigger] all[k]),
        decreases args.len() - i,
    {
        assert(all[i as int] == args[i as int]@);
        if contains_shell_metacharacter(args[i].as_str()) {
            return false;
        }
        i += 1;
    }
    true
}

/// The classes by which a saved window is known.
pub open spec fn identities(client: SessionClientView) -> Seq<Seq<char>> {
    webapps::identities_of(client.class, client.initial_class)
}

/// A class of the window belongs to a URL.
pub open spec fn url_is_own(client: SessionClientView, url: Seq<char>) -> bool {
    webapps::class_matches_url(client.class, url) || webapps::class_matches_url(
        client.initial_class,
        url,
    )
}

/// A class of the window is a text, up to case.
pub open spec fn is_own_class(client: SessionClientView, name: Seq<char>) -> bool {
    ||| client.class.len() > 0 && text::same_ignoring_case(client.class, name)
    ||| client.initial_class.len() > 0 && text::same_ignoring_case(client.initial_class, name)
}

/// The launch of a web application is trusted: it names the window's own class
/// and URL, and nothing in it has a meaning to a shell.
pub open spec fn webapp_is_trusted(client: SessionClientView, command: Seq<char>) -> bool {
    let args = client.launch.args;
    if webapps::launches_webapp(command) {
        args.len() > 0 && url_is_own(client, args[0]) && all_inert(args, 0)
    } else {
        &&& args.len() > 1
        &&& is_own_class(client, args[0])
        &&& is_inert_and_unquoted(args[0])
        &&& if webapps::focuses_webapp(command) {
            url_is_own(client, args[1]) && all_inert(args, 1)
        } else {
            &&& webapps::focuses_any(command)
            &&& is_inert(args[1])
            &&& match text::without_prefix(args[1], "omarchy-launch-webapp "@) {
                Some(nested) => text::words(nested).len() > 0 && url_is_own(
                    client,
                    text::words(nested)[0],
                ),
                None => false,
            }
        }
    }
}

/// The executable that a user configured for the window.
pub open spec fn configured_binary(
    client: SessionClientView,
    settings: ConfigView,
) -> Option<Seq<char>> {
    capture::configured_binary(config::app_for(settings.apps, client.class, client.initial_class))
}

/// The launch of a saved window is trusted: the user configured its
/// executable, or the executable is the application itself.
pub open spec fn is_trusted(client: SessionClientView, settings: ConfigView) -> bool {
    let command = binary_of(client);
    if configured_binary(client, settings) == Some(command) {
        true
    } else if is_ghostty(client) && text::same_ignoring_case(command, "ghostty"@) {
        true
    } else if is_brave(client) && text::same_ignoring_case(command, "brave"@) {
        true
    } else if is_webapp(client) {
        webapp_is_trusted(client, command)
    } else {
        is_own_class(client, command)
    }
}

fn owns_url(client: &SessionClient, url: &str) -> (r: bool)
    ensures
        r == url_is_own(client@, url@),
{
    webapps::webapp_class_matches_url(client.class.as_str(), url)
        || webapps::webapp_class_matches_url(client.initial_class.as_str(), url)
}

pub(crate) fn owns_class(client: &SessionClient, name: &str) -> (r: bool)
    ensures
        r == is_own_class(client@, name@),
{
    let class = client.class.as_str();
    let initial = client.initial_class.as_str();
    (!class.is_empty() && text::eq_ignore_case(class, name)) || (!initial.is_empty()
        && text::eq_ignore_case(initial, name))
}

/// Tells whether the launch of a web application is trusted.
pub fn webapp_launch_is_trusted(client: &SessionClient, command: &str) -> (r: bool)
    ensures
        r == webapp_is_trusted(client@, command@),
{
    let args = &client.launch.args;
    let ghost all = args.deep_view();
    assert(all == client@.launch.args);
    if text::eq_ignore_case(command, "omarchy-launch-webapp") {
        if args.len() == 0 {
            return false;
        }
        assert(all[0] == args[0]@);
        return owns_url(client, args[0].as_str()) && are_inert(args, 0);
    }
    if args.len() <= 1 {
        return false;
    }
    assert(all[0] == args[0]@);
    assert(all[1] == args[1]@);
    if !owns_class(client, args[0].as_str()) || contains_shell_metacharacter_or_quote(
        args[0].as_str(),
    ) {
        return false;
    }
    if text::eq_ignore_case(command, "omarchy-launch-or-focus-webapp") {
        return owns_url(client, args[1].as_str()) && are_inert(args, 1);
    }
    if text::eq_ignore_case(command, "omarchy-launch-or-focus") {
        let nested = match text::strip_prefix(args[1].as_str(), "omarchy-launch-webapp ") {
            Some(nested) => nested,
            None => {
                return false;
            },
        };
        let words = text::split_words(nested.as_str());
        if words.len() == 0 {
            return false;
        }
        assert(words.deep_view()[0] == words[0]@);
        return owns_url(client, words[0].as_str()) && !contains_shell_metacharacter(
            args[1].as_str(),
        );
    }
    false
}

/// Saved sessions are user-owned state, but automatic restore must not turn a
/// hand-edited launch command into an arbitrary executable hook.  Commands
/// captured from the app identity remain valid; apps whose executable differs
/// from their Hyprland class must explicitly opt in through
/// `apps.<class>.binary`.
pub fn launch_command_is_trusted(client: &SessionClient, config: &Config) -> (r: bool)
    ensures
        r == is_trusted(client@, config@),
{
    let command = effective_binary(client);
    let app = config::app_config_for(
        config,
        client.class.as_str(),
        client.initial_class.as_str(),
    );
    if let Some(settings) = app {
        if let Some(binary) = &settings.binary {
            if text::same(binary.as_str(), command.as_str()) {
                return true;
            }
        }
    }
    if is_ghostty_class(client) && text::eq_ignore_case(command.as_str(), "ghostty") {
        return true;
    }
    if is_brave_client(client) && text::eq_ignore_case(command.as_str(), "brave") {
        return true;
    }
    if is_webapp_class(client) {
        return webapp_launch_is_trusted(client, command.as_str());
    }
    owns_class(client, command.as_str())
}

/// A web application that is not launched by a configured executable, nor by
/// Ghostty or Brave, is trusted only without characters that mean something
/// to a shell in its URL, and in any argument that the launcher hands on.
pub proof fn law_trusted_webapps_are_inert(client: SessionClientView, settings: ConfigView)
    requires
        is_webapp(client),
        is_trusted(client, settings),
        configured_binary(client, settings) != Some(binary_of(client)),
        !is_ghostty(client),
        !is_brave(client),
    ensures
        client.launch.args.len() > 0,
        is_inert(client.launch.args[0]),
        webapps::focuses_any(binary_of(client)) ==> client.launch.args.len() > 1 && is_inert(
            client.launch.args[1],
        ),
        !webapps::focuses_any(binary_of(client)) ==> all_inert(client.launch.args, 0),
{
    let args = client.launch.args;
    let command = binary_of(client);
    assert(webapp_is_trusted(client, command));
    if !webapps::focuses_any(command) {
        assert forall|k: int| 0 <= k < args.len() implies is_inert(#[trigger] args[k]) by {
            if webapps::launches_webapp(command) {
            } else if k > 0 {
                assert(all_inert(args, 1));
            }
        }
    }
    if webapps::focuses_any(command) && webapps::launches_webapp(command) {
        reveal_strlit("omarchy-launch-webapp");
        reveal_strlit("omarchy-launch-or-focus");
        assert(text::lowered("omarchy-launch-webapp"@).len() == "omarchy-launch-webapp"@.len());
        assert(text::lowered("omarchy-launch-or-focus"@).len() == "omarchy-launch-or-focus"@.len());
    }
    if webapps::focuses_any(command) && webapps::focuses_webapp(command) {
        reveal_strlit("omarchy-launch-or-focus-webapp");
        reveal_strlit("omarchy-launch-or-focus");
        assert(text::lowered("omarchy-launch-or-focus-webapp"@).len()
            == "omarchy-launch-or-focus-webapp"@.len());
        assert(text::lowered("omarchy-launch-or-focus"@).len() == "omarchy-launch-or-focus"@.len());
    }
}

} // verus!
