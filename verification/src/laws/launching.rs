//! Which command opens a saved window, and which one is trusted.

use crate::config::{AppConfigView, ConfigView};
use crate::laws::recognition;
use crate::laws::texts;
use crate::lists;
use crate::restore::launch;
use crate::session::SessionClientView;
use crate::text;
use crate::webapps;
use vstd::prelude::*;

verus! {

// ── Commands ───────────────────────────────────────────────────────────────

/// The command that opens an ordinary window is the saved executable with the
/// saved arguments, and nothing else, unless a kitty window has a hint.
pub proof fn law_saved_command_opens_the_window(client: SessionClientView)
    requires
        recognition::is_ordinary_class(client.class),
        recognition::is_ordinary_class(client.initial_class),
    ensures
        ({
            let command = launch::command_of(client);
            let n = client.launch.args.len() as int;
            &&& command.len() >= 1 + n
            &&& command[0] == client.launch.command
            &&& command.subrange(1, 1 + n) == client.launch.args
            &&& client.launch.hint is None || !text::same_ignoring_case(client.class, "kitty"@)
                ==> command.len() == 1 + n
        }),
{
    let command = launch::command_of(client);
    assert(command.subrange(1, 1 + client.launch.args.len() as int) =~= client.launch.args);
}

/// A Ghostty window that was saved without an executable, or under its class,
/// is opened by Ghostty itself; one with another executable keeps it.
pub proof fn law_ghostty_opens_its_windows(client: SessionClientView)
    requires
        client.class == "com.mitchellh.ghostty"@,
    ensures
        client.launch.command.len() == 0 || client.launch.command == client.class
            ==> launch::command_of(client)[0] == "ghostty"@,
        client.launch.command == "/opt/ghostty"@ && client.initial_class == client.class
            ==> launch::command_of(client)[0] == client.launch.command,
{
    reveal_strlit("/opt/ghostty");
    reveal_strlit("com.mitchellh.ghostty");
    reveal_strlit("ghostty");
    assert(text::lowered("/opt/ghostty"@).len() == 12);
    assert(text::lowered("com.mitchellh.ghostty"@).len() == 21);
}

/// What a shell has read of one word.
pub ghost struct ShellReader {
    /// The word so far.
    pub word: Seq<char>,
    /// A single quote is open.
    pub quoted: bool,
    /// The next character stands for itself.
    pub escaped: bool,
}

/// A shell reads one more character of a word: between single quotes every
/// other character stands for itself, outside of them a backslash makes the
/// next one do so.
pub open spec fn shell_reads(reader: ShellReader, c: char) -> ShellReader {
    if reader.escaped {
        ShellReader { word: reader.word.push(c), escaped: false, ..reader }
    } else if c == '\'' {
        ShellReader { quoted: !reader.quoted, ..reader }
    } else if c == '\\' && !reader.quoted {
        ShellReader { escaped: true, ..reader }
    } else {
        ShellReader { word: reader.word.push(c), ..reader }
    }
}

/// What a shell makes of a text.
pub open spec fn shell_word(reader: ShellReader, s: Seq<char>) -> ShellReader
    decreases s.len(),
{
    if s.len() == 0 {
        reader
    } else {
        shell_word(shell_reads(reader, s[0]), s.drop_first())
    }
}

proof fn lemma_shell_concat(reader: ShellReader, a: Seq<char>, b: Seq<char>)
    ensures
        shell_word(reader, a + b) == shell_word(shell_word(reader, a), b),
    decreases a.len(),
{
    if a.len() == 0 {
        assert(a + b =~= b);
    } else {
        assert((a + b).drop_first() =~= a.drop_first() + b);
        lemma_shell_concat(shell_reads(reader, a[0]), a.drop_first(), b);
    }
}

proof fn lemma_shell_one(reader: ShellReader, c: char)
    ensures
        shell_word(reader, seq![c]) == shell_reads(reader, c),
{
    assert(seq![c].drop_first() =~= Seq::<char>::empty());
    assert(shell_word(shell_reads(reader, c), Seq::<char>::empty()) == shell_reads(reader, c));
}

proof fn lemma_quote_replaced(s: Seq<char>, to: Seq<char>)
    requires
        s.len() > 0,
    ensures
        text::replaced(s, seq!['\''], to) == (if s[0] == '\'' {
            to
        } else {
            seq![s[0]]
        }) + text::replaced(s.drop_first(), seq!['\''], to),
{
    assert(s.subrange(0, 1) =~= seq![s[0]]);
    assert(s.skip(1) =~= s.drop_first());
    assert(text::occurs_at(s, seq!['\''], 0) <==> s[0] == '\'') by {
        assert(seq!['\''][0] == '\'');
        assert(s.subrange(0, 1)[0] == s[0]);
    }
}

proof fn lemma_hint_is_read(reader: ShellReader, hint: Seq<char>)
    requires
        reader.quoted,
        !reader.escaped,
    ensures
        shell_word(
            reader,
            text::replaced(hint, seq!['\''], seq!['\'', '\\', '\'', '\'']),
        ) == (ShellReader { word: reader.word + hint, ..reader }),
    decreases hint.len(),
{
    let to = seq!['\'', '\\', '\'', '\''];
    if hint.len() == 0 {
        assert(text::replaced(hint, seq!['\''], to) =~= Seq::<char>::empty());
        assert(reader.word + hint =~= reader.word);
    } else {
        lemma_quote_replaced(hint, to);
        let rest = text::replaced(hint.drop_first(), seq!['\''], to);
        let next = ShellReader { word: reader.word.push(hint[0]), ..reader };
        if hint[0] == '\'' {
            lemma_shell_concat(reader, to, rest);
            let r1 = shell_reads(reader, '\'');
            let r2 = shell_reads(r1, '\\');
            let r3 = shell_reads(r2, '\'');
            assert(to =~= seq!['\''] + (seq!['\\'] + (seq!['\''] + seq!['\''])));
            lemma_shell_concat(reader, seq!['\''], seq!['\\'] + (seq!['\''] + seq!['\'']));
            lemma_shell_concat(r1, seq!['\\'], seq!['\''] + seq!['\'']);
            lemma_shell_concat(r2, seq!['\''], seq!['\'']);
            lemma_shell_one(reader, '\'');
            lemma_shell_one(r1, '\\');
            lemma_shell_one(r2, '\'');
            lemma_shell_one(r3, '\'');
            assert(shell_word(reader, to) == next);
        } else {
            lemma_shell_concat(reader, seq![hint[0]], rest);
            lemma_shell_one(reader, hint[0]);
            assert(shell_word(reader, seq![hint[0]]) == next);
        }
        lemma_hint_is_read(next, hint.drop_first());
        assert(next.word + hint.drop_first() =~= reader.word + hint);
    }
}

/// A kitty window with a hint is opened with a shell that prints the hint, to
/// the letter and whatever quotes it holds, and then stays open.
pub proof fn law_kitty_shows_its_hint(client: SessionClientView, hint: Seq<char>)
    requires
        client.class == "kitty"@,
        client.launch.hint == Some(hint),
    ensures
        ({
            let command = launch::command_of(client);
            let n = command.len() as int;
            let script = command[n - 1];
            let m = script.len() as int;
            let blank = ShellReader { word: seq![], quoted: false, escaped: false };
            &&& n == 1 + client.launch.args.len() + 4
            &&& command[n - 4] == "-e"@
            &&& command[n - 3] == "zsh"@
            &&& command[n - 2] == "-c"@
            &&& m >= 15
            &&& script.take(5) == "echo "@
            &&& script.skip(m - 10) == "; exec zsh"@
            &&& shell_word(blank, script.subrange(5, m - 10)) == ShellReader {
                word: hint,
                quoted: false,
                escaped: false,
            }
        }),
{
    reveal_strlit("echo ");
    reveal_strlit("echo '");
    reveal_strlit("; exec zsh");
    reveal_strlit("'; exec zsh");
    let command = launch::command_of(client);
    let n = command.len() as int;
    let shown = text::replaced(hint, seq!['\''], seq!['\'', '\\', '\'', '\'']);
    let script = "echo '"@ + shown + "'; exec zsh"@;
    let m = script.len() as int;
    assert(command[n - 1] == script);
    assert(script.take(5) =~= "echo "@);
    assert(script.skip(m - 10) =~= "; exec zsh"@);
    let q = seq!['\''];
    assert(script.subrange(5, m - 10) =~= q + (shown + q));
    let blank = ShellReader { word: seq![], quoted: false, escaped: false };
    let inside = shell_reads(blank, '\'');
    lemma_shell_concat(blank, q, shown + q);
    lemma_shell_one(blank, '\'');
    lemma_shell_concat(inside, shown, q);
    lemma_hint_is_read(inside, hint);
    let read = ShellReader { word: inside.word + hint, ..inside };
    lemma_shell_one(read, '\'');
    assert(inside.word + hint =~= hint);
}

// ── Trust ──────────────────────────────────────────────────────────────────

/// Without settings an ordinary window is opened only by an executable that is
/// named like its class or its initial class; any other command is refused.
pub proof fn law_only_the_application_itself_is_trusted(
    client: SessionClientView,
    settings: ConfigView,
)
    requires
        recognition::is_ordinary_class(client.class),
        recognition::is_ordinary_class(client.initial_class),
        settings.apps.len() == 0,
    ensures
        launch::is_trusted(client, settings) <==> (client.class.len() > 0
            && text::same_ignoring_case(client.class, client.launch.command)) || (
        client.initial_class.len() > 0 && text::same_ignoring_case(
            client.initial_class,
            client.launch.command,
        )),
{
    assert(lists::key_from(settings.apps, client.class, 0) is None);
    assert(lists::key_from(settings.apps, client.initial_class, 0) is None);
}

/// The executable that the settings name for a class is trusted, to the
/// letter; another one is not for being in the settings of that class.
pub proof fn law_configured_executable_is_trusted(
    client: SessionClientView,
    settings: ConfigView,
    app: AppConfigView,
    binary: Seq<char>,
)
    requires
        recognition::is_ordinary_class(client.class),
        recognition::is_ordinary_class(client.initial_class),
        settings.apps.len() > 0,
        settings.apps[0] == (client.class, app),
        app.binary == Some(binary),
    ensures
        client.launch.command == binary ==> launch::is_trusted(client, settings),
        client.launch.command != binary && !text::same_ignoring_case(
            client.class,
            client.launch.command,
        ) && !text::same_ignoring_case(client.initial_class, client.launch.command)
            ==> !launch::is_trusted(client, settings),
{
    assert(lists::key_from(settings.apps, client.class, 0) == Some(0int));
}

/// Ghostty and Brave are trusted to open their own windows.
pub proof fn law_own_programs_are_trusted(client: SessionClientView, settings: ConfigView)
    ensures
        client.class == "com.mitchellh.ghostty"@ && client.launch.command == "ghostty"@
            ==> launch::is_trusted(client, settings),
        client.class == "brave-browser"@ && client.initial_class == client.class
            && client.launch.command == "brave"@ ==> launch::is_trusted(client, settings),
{
    reveal_strlit("brave-browser");
    reveal_strlit("ghostty");
    reveal_strlit("com.mitchellh.ghostty");
    assert(text::lowered("brave-browser"@).len() == 13);
    assert(text::lowered("ghostty"@).len() == 7);
    assert(text::lowered("com.mitchellh.ghostty"@).len() == 21);
}

/// A text that a shell takes as it is.
pub open spec fn is_harmless(s: Seq<char>) -> bool {
    forall|i: int|
        0 <= i < s.len() ==> {
            let c = #[trigger] s[i];
            &&& c != ';' && c != '&' && c != '|' && c != '$' && c != '`'
            &&& c != '(' && c != ')' && c != '<' && c != '>'
            &&& c != '\\' && c != '\n' && c != '\r'
        }
}

/// A web application is opened by the launcher with its own URL; with another
/// one, or with anything that means something to a shell, it is refused, and
/// so is any other program.
pub proof fn law_web_application_is_opened_at_its_own_url(
    client: SessionClientView,
    settings: ConfigView,
    url: Seq<char>,
)
    requires
        text::starts_with_ignoring_case(client.class, "chrome-"@),
        client.initial_class == client.class,
        settings.apps.len() == 0,
        client.launch.args == seq![url],
    ensures
        ({
            let trusted = launch::is_trusted(client, settings);
            let own = webapps::class_matches_url(client.class, url);
            &&& client.launch.command == "omarchy-launch-webapp"@ ==> (trusted <==> own
                && is_harmless(url))
            &&& client.launch.command == "sh"@ ==> !trusted
        }),
{
    reveal_strlit("brave-browser");
    reveal_strlit("ghostty");
    reveal_strlit("com.mitchellh.ghostty");
    reveal_strlit("chrome-");
    reveal_strlit("omarchy-launch-webapp");
    reveal_strlit("sh");
    let class = client.class;
    assert(lists::key_from(settings.apps, class, 0) is None);
    assert(text::lowered(class.take(7))[0] == text::lowered("chrome-"@)[0]);
    assert(class.take(7)[0] == class[0]);
    assert(text::lowered(class)[0] == 'c');
    assert(text::lowered("brave-browser"@)[0] == 'b');
    assert(text::lowered("ghostty"@)[0] == 'g');
    if text::same_ignoring_case(class, "com.mitchellh.ghostty"@) {
        assert(text::lowered(class)[1] == text::lowered("com.mitchellh.ghostty"@)[1]);
        assert(text::lowered(class.take(7))[1] == text::lowered("chrome-"@)[1]);
        assert(class.take(7)[1] == class[1]);
    }
    assert(!launch::is_ghostty(client));
    assert(!launch::is_brave(client));
    assert(text::lowered("omarchy-launch-webapp"@).len() == 21);
    assert(text::lowered("sh"@).len() == 2);
    let args = client.launch.args;
    assert(args[0] == url);
    assert(launch::all_inert(args, 0) <==> launch::is_inert(url));
    assert(launch::is_inert(url) <==> is_harmless(url)) by {
        if launch::is_inert(url) {
            assert forall|i: int| 0 <= i < url.len() implies {
                let c = #[trigger] url[i];
                &&& c != ';' && c != '&' && c != '|' && c != '$' && c != '`'
                &&& c != '(' && c != ')' && c != '<' && c != '>'
                &&& c != '\\' && c != '\n' && c != '\r'
            } by {
                assert(!launch::is_metacharacter(url[i]));
            }
        }
    }
}

/// The launchers that show or focus a web application are trusted where they
/// name its own class, without quotes and without anything that means
/// something to a shell, and its own URL; the general one has to start the
/// launcher of web applications itself.  The class at the start counts as its
/// own, too.
pub proof fn law_focusing_launchers_are_trusted(
    client: SessionClientView,
    settings: ConfigView,
    name: Seq<char>,
    url: Seq<char>,
    nested: Seq<char>,
)
    requires
        text::starts_with_ignoring_case(client.class, "chrome-"@),
        text::starts_with_ignoring_case(client.initial_class, "chrome-"@),
        settings.apps.len() == 0,
        texts::is_word(url),
    ensures
        ({
            let trusted = launch::is_trusted(client, settings);
            let own = webapps::class_matches_url(client.class, url) || webapps::class_matches_url(
                client.initial_class,
                url,
            );
            let unquoted = texts::is_free_of(name, '\'') && texts::is_free_of(name, '"');
            let named = (text::same_ignoring_case(client.class, name)
                || text::same_ignoring_case(client.initial_class, name)) && is_harmless(name)
                && unquoted;
            &&& client.launch.command == "omarchy-launch-or-focus-webapp"@ && client.launch.args
                == seq![name, url] ==> (trusted <==> named && own && is_harmless(url))
            &&& client.launch.command == "omarchy-launch-or-focus"@ && client.launch.args == seq![
                name,
                "omarchy-launch-webapp "@ + url,
            ] ==> (trusted <==> named && own && is_harmless("omarchy-launch-webapp "@ + url))
            &&& client.launch.command == "omarchy-launch-or-focus"@ && client.launch.args == seq![
                name,
                nested,
            ] && !text::starts_with(nested, "omarchy-launch-webapp "@) ==> !trusted
            &&& client.launch.args.len() == 1 && client.launch.command
                == "omarchy-launch-or-focus"@ ==> !trusted
        }),
{
    reveal_strlit("omarchy-launch-webapp");
    reveal_strlit("omarchy-launch-or-focus");
    reveal_strlit("omarchy-launch-or-focus-webapp");
    reveal_strlit("omarchy-launch-webapp ");
    assert(text::lowered("omarchy-launch-webapp"@).len() == 21);
    assert(text::lowered("omarchy-launch-or-focus"@).len() == 23);
    assert(text::lowered("omarchy-launch-or-focus-webapp"@).len() == 30);
    lemma_is_web_application(client, settings);
    lemma_harmless(name);
    lemma_harmless(url);
    let long = "omarchy-launch-webapp "@ + url;
    lemma_harmless(long);
    assert(long.take(22) =~= "omarchy-launch-webapp "@);
    assert(long.skip(22) =~= url);
    let none = Seq::<char>::empty();
    texts::law_words_are_split_by_white_space(url, none);
    assert(url + none =~= url);
    assert(text::words(url)[0] == url);
    let args = client.launch.args;
    assert(texts::is_free_of(name, '\'') <==> !text::has_char(name, '\''));
    assert(texts::is_free_of(name, '"') <==> !text::has_char(name, '"'));
    if args == seq![name, url] {
        assert(args[0] == name && args[1] == url);
        assert(launch::all_inert(args, 1) <==> launch::is_inert(url));
    }
    if args == seq![name, long] {
        assert(args[0] == name && args[1] == long);
    }
    if args == seq![name, nested] {
        assert(args[0] == name && args[1] == nested);
    }
}

proof fn lemma_harmless(s: Seq<char>)
    ensures
        launch::is_inert(s) <==> is_harmless(s),
{
    if launch::is_inert(s) {
        assert forall|i: int| 0 <= i < s.len() implies {
            let c = #[trigger] s[i];
            &&& c != ';' && c != '&' && c != '|' && c != '$' && c != '`'
            &&& c != '(' && c != ')' && c != '<' && c != '>'
            &&& c != '\\' && c != '\n' && c != '\r'
        } by {
            assert(!launch::is_metacharacter(s[i]));
        }
    }
}

proof fn lemma_is_web_application(client: SessionClientView, settings: ConfigView)
    requires
        text::starts_with_ignoring_case(client.class, "chrome-"@),
        text::starts_with_ignoring_case(client.initial_class, "chrome-"@),
        settings.apps.len() == 0,
    ensures
        launch::is_trusted(client, settings) == launch::webapp_is_trusted(
            client,
            client.launch.command,
        ),
        client.class.len() > 0,
        client.initial_class.len() > 0,
{
    assert(lists::key_from(settings.apps, client.class, 0) is None);
    assert(lists::key_from(settings.apps, client.initial_class, 0) is None);
    lemma_class_of_a_web_application(client.class);
    lemma_class_of_a_web_application(client.initial_class);
    assert(!launch::is_ghostty(client));
    assert(!launch::is_brave(client));
}

proof fn lemma_class_of_a_web_application(class: Seq<char>)
    requires
        text::starts_with_ignoring_case(class, "chrome-"@),
    ensures
        class.len() > 0,
        !text::same_ignoring_case(class, "brave-browser"@),
        !text::same_ignoring_case(class, "ghostty"@),
        !text::same_ignoring_case(class, "com.mitchellh.ghostty"@),
{
    reveal_strlit("brave-browser");
    reveal_strlit("ghostty");
    reveal_strlit("com.mitchellh.ghostty");
    reveal_strlit("chrome-");
    assert(text::lowered(class.take(7))[0] == text::lowered("chrome-"@)[0]);
    assert(class.take(7)[0] == class[0]);
    assert(text::lowered(class)[0] == 'c');
    assert(text::lowered("brave-browser"@)[0] == 'b');
    assert(text::lowered("ghostty"@)[0] == 'g');
    if text::same_ignoring_case(class, "com.mitchellh.ghostty"@) {
        assert(text::lowered(class)[1] == text::lowered("com.mitchellh.ghostty"@)[1]);
        assert(text::lowered(class.take(7))[1] == text::lowered("chrome-"@)[1]);
        assert(class.take(7)[1] == class[1]);
    }
}

} // verus!
