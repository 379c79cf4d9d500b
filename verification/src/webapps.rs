//! Launchers of web applications, found in desktop entries.
//!
//! Omarchy web apps expose a Chrome window class that is not an executable,
//! such as `chrome-chatgpt.com__-Default`.  Their desktop entries hold the
//! launcher and the URL.

use crate::session::{LaunchInfo, LaunchInfoView};
use crate::text;
use vstd::prelude::*;

verus! {

// ── URLs ───────────────────────────────────────────────────────────────────

/// A character that ends the authority of a URL.
pub open spec fn ends_authority(c: char) -> bool {
    c == '/' || c == '?' || c == '#'
}

/// A character that ends the path of a URL.
pub open spec fn ends_path(c: char) -> bool {
    c == '?' || c == '#'
}

/// The length of the authority at the front of a text.
pub open spec fn authority_length(s: Seq<char>, i: int) -> int
    decreases s.len() - i,
{
    if i < 0 || i >= s.len() || ends_authority(s[i]) {
        i
    } else {
        authority_length(s, i + 1)
    }
}

/// The length of the path at the front of a text.
pub open spec fn path_length(s: Seq<char>, i: int) -> int
    decreases s.len() - i,
{
    if i < 0 || i >= s.len() || ends_path(s[i]) {
        i
    } else {
        path_length(s, i + 1)
    }
}

/// The text behind `://`.
pub open spec fn behind_scheme(url: Seq<char>) -> Option<Seq<char>> {
    match text::found(url, "://"@) {
        Some(i) => Some(url.skip(i + 3)),
        None => None,
    }
}

/// A URL for a browser.
pub open spec fn is_web_url(url: Seq<char>) -> bool {
    match text::found(url, "://"@) {
        Some(i) => text::same_ignoring_case(url.take(i), "http"@) || text::same_ignoring_case(
            url.take(i),
            "https"@,
        ),
        None => false,
    }
}

/// The part behind the last `@`.
pub open spec fn behind_user(authority: Seq<char>) -> Seq<char> {
    match text::split_at_last(authority, '@') {
        Some(sides) => sides.1,
        None => authority,
    }
}

/// The host of a URL.
pub open spec fn url_host(url: Seq<char>) -> Option<Seq<char>> {
    if !is_web_url(url) {
        None
    } else {
        let tail = behind_scheme(url)->0;
        let authority = tail.take(authority_length(tail, 0));
        let host = text::before_first(behind_user(authority), ':');
        if host.len() == 0 {
            None
        } else {
            Some(host)
        }
    }
}

/// The text without slashes in front of it.
pub open spec fn without_leading_slashes(s: Seq<char>) -> Seq<char>
    decreases s.len(),
{
    if s.len() > 0 && s[0] == '/' {
        without_leading_slashes(s.drop_first())
    } else {
        s
    }
}

/// The text without slashes behind it.
pub open spec fn without_trailing_slashes(s: Seq<char>) -> Seq<char>
    decreases s.len(),
{
    if s.len() > 0 && s.last() == '/' {
        without_trailing_slashes(s.drop_last())
    } else {
        s
    }
}

/// The path of a URL, without slashes around it.
pub open spec fn url_route(url: Seq<char>) -> Option<Seq<char>> {
    match behind_scheme(url) {
        Some(tail) => {
            let route = tail.skip(authority_length(tail, 0));
            Some(
                without_trailing_slashes(
                    without_leading_slashes(route.take(path_length(route, 0))),
                ),
            )
        },
        None => None,
    }
}

proof fn lemma_authority_length(s: Seq<char>, i: int)
    requires
        0 <= i <= s.len(),
    ensures
        i <= authority_length(s, i) <= s.len(),
    decreases s.len() - i,
{
    if i < s.len() && !ends_authority(s[i]) {
        lemma_authority_length(s, i + 1);
    }
}

proof fn lemma_path_length(s: Seq<char>, i: int)
    requires
        0 <= i <= s.len(),
    ensures
        i <= path_length(s, i) <= s.len(),
    decreases s.len() - i,
{
    if i < s.len() && !ends_path(s[i]) {
        lemma_path_length(s, i + 1);
    }
}

fn length_of_authority(s: &str) -> (r: usize)
    ensures
        r == authority_length(s@, 0),
        r <= s@.len(),
{
    let x = text::chars_of(s);
    let mut i: usize = 0;
    while i < x.len() && !(x[i] == '/' || x[i] == '?' || x[i] == '#')
        invariant
            x@ == s@,
            i <= x.len(),
            authority_length(s@, 0) == authority_length(s@, i as int),
        decreases x.len() - i,
    {
        i += 1;
    }
    i
}

fn length_of_path(s: &str) -> (r: usize)
    ensures
        r == path_length(s@, 0),
        r <= s@.len(),
{
    let x = text::chars_of(s);
    let mut i: usize = 0;
    while i < x.len() && !(x[i] == '?' || x[i] == '#')
        invariant
            x@ == s@,
            i <= x.len(),
            path_length(s@, 0) == path_length(s@, i as int),
        decreases x.len() - i,
    {
        i += 1;
    }
    i
}

fn trim_slashes(s: &str) -> (r: String)
    ensures
        r@ == without_trailing_slashes(without_leading_slashes(s@)),
{
    let x = text::chars_of(s);
    let mut from: usize = 0;
    assert(s@.skip(0) =~= s@);
    while from < x.len() && x[from] == '/'
        invariant
            x@ == s@,
            from <= x.len(),
            without_leading_slashes(s@) == without_leading_slashes(s@.skip(from as int)),
        decreases x.len() - from,
    {
        assert(s@.skip(from as int).drop_first() =~= s@.skip(from + 1));
        from += 1;
    }
    let ghost body = s@.skip(from as int);
    let mut to: usize = x.len();
    assert(body =~= s@.subrange(from as int, to as int));
    while to > from && x[to - 1] == '/'
        invariant
            x@ == s@,
            from <= to <= x.len(),
            without_trailing_slashes(body) == without_trailing_slashes(
                s@.subrange(from as int, to as int),
            ),
        decreases to,
    {
        assert(s@.subrange(from as int, to as int).drop_last() =~= s@.subrange(
            from as int,
            to - 1,
        ));
        to -= 1;
    }
    text::text_between(&x, from, to)
}

fn scheme_mark_length() -> (r: usize)
    ensures
        r == 3,
        "://"@.len() == 3,
{
    proof {
        reveal_strlit("://");
    }
    3
}

/// The host of a URL for a browser.
pub fn webapp_url_host(url: &str) -> (r: Option<String>)
    ensures
        r.deep_view() == url_host(url@),
{
    let at = match text::find(url, "://") {
        Some(at) => at,
        None => {
            return None;
        },
    };
    let scheme = text::start(url, at);
    if !text::eq_ignore_case(scheme.as_str(), "http") && !text::eq_ignore_case(
        scheme.as_str(),
        "https",
    ) {
        return None;
    }
    let mark = scheme_mark_length();
    let tail = text::rest(url, at + mark);
    let authority = text::start(tail.as_str(), length_of_authority(tail.as_str()));
    let named = match text::rsplit_once(authority.as_str(), '@') {
        Some((_, behind)) => behind,
        None => authority.clone(),
    };
    assert(named@ == behind_user(authority@));
    let host = text::until_char(named.as_str(), ':');
    if host.as_str().is_empty() {
        None
    } else {
        Some(host)
    }
}

/// The path of a URL, without slashes around it.
pub fn webapp_url_route(url: &str) -> (r: Option<String>)
    ensures
        r.deep_view() == url_route(url@),
{
    let at = match text::find(url, "://") {
        Some(at) => at,
        None => {
            return None;
        },
    };
    let mark = scheme_mark_length();
    let tail = text::rest(url, at + mark);
    let route = text::rest(tail.as_str(), length_of_authority(tail.as_str()));
    let path = text::start(route.as_str(), length_of_path(route.as_str()));
    Some(trim_slashes(path.as_str()))
}

// ── Classes ────────────────────────────────────────────────────────────────

/// The class of a web application.
pub open spec fn is_webapp(class: Seq<char>) -> bool {
    text::starts_with_ignoring_case(class, "chrome-"@)
}

/// A class without the part that marks it as one of a web application.
pub open spec fn webapp_identity(class: Seq<char>) -> Seq<char> {
    class.skip("chrome-"@.len() as int)
}

/// The end of a class that names a browser profile.
pub open spec fn is_profile_suffix(profile: Seq<char>) -> bool {
    text::same_ignoring_case(profile, "Default"@) || (text::starts_with(profile, "Profile_"@)
        && text::is_digits(profile.skip("Profile_"@.len() as int)))
}

/// The class of a web application belongs to a URL.  A class with two
/// underscores holds the host, the path with underscores for slashes, and the
/// profile; one without holds the host and the profile, and stands for the
/// root of the host.
pub open spec fn class_matches_url(class: Seq<char>, url: Seq<char>) -> bool {
    is_webapp(class) && url_host(url) is Some && url_route(url) is Some && {
        let host = url_host(url)->0;
        let route = url_route(url)->0;
        let identity = webapp_identity(class);
        match text::found(identity, "__"@) {
            Some(i) => {
                let suffix = identity.skip(i + 2);
                let class_route = match text::split_at_last(suffix, '-') {
                    Some(sides) => sides.0,
                    None => suffix,
                };
                &&& i > 0
                &&& text::same_ignoring_case(identity.take(i), host)
                &&& class_route == text::replaced(route, seq!['/'], seq!['_'])
            },
            None => {
                &&& route.len() == 0
                &&& text::starts_with_ignoring_case(identity, host + "-"@)
                &&& is_profile_suffix(identity.skip((host + "-"@).len() as int))
            },
        }
    }
}

/// The class of a web application in the default profile.
pub open spec fn uses_default_profile(class: Seq<char>) -> bool {
    is_webapp(class) && match text::split_at_last(webapp_identity(class), '-') {
        Some(sides) => text::same_ignoring_case(sides.1, "Default"@),
        None => false,
    }
}

/// Tells whether a class is one of a web application.
pub fn is_webapp_class(class: &str) -> (r: bool)
    ensures
        r == is_webapp(class@),
{
    text::has_prefix_ignoring_case(class, "chrome-")
}

fn is_webapp_profile_suffix(profile: &str) -> (r: bool)
    ensures
        r == is_profile_suffix(profile@),
{
    if text::eq_ignore_case(profile, "Default") {
        return true;
    }
    match text::strip_prefix(profile, "Profile_") {
        Some(number) => text::all_digits(number.as_str()),
        None => false,
    }
}

/// Tells whether the class of a web application belongs to a URL.
pub fn webapp_class_matches_url(class: &str, url: &str) -> (r: bool)
    ensures
        r == class_matches_url(class@, url@),
{
    if !is_webapp_class(class) {
        return false;
    }
    let host = match webapp_url_host(url) {
        Some(host) => host,
        None => {
            return false;
        },
    };
    let route = match webapp_url_route(url) {
        Some(route) => route,
        None => {
            return false;
        },
    };
    let identity = text::rest(class, "chrome-".unicode_len());
    proof {
        reveal_strlit("__");
        reveal_strlit("/");
        reveal_strlit("_");
        assert("/"@ =~= seq!['/']);
        assert("_"@ =~= seq!['_']);
    }
    match text::find(identity.as_str(), "__") {
        Some(at) => {
            if at == 0 {
                return false;
            }
            let class_host = text::start(identity.as_str(), at);
            let suffix = text::rest(identity.as_str(), at + 2);
            let class_route = match text::rsplit_once(suffix.as_str(), '-') {
                Some((front, _)) => front,
                None => suffix.clone(),
            };
            let expected = text::replace(route.as_str(), "/", "_");
            text::eq_ignore_case(class_host.as_str(), host.as_str()) && text::same(
                class_route.as_str(),
                expected.as_str(),
            )
        },
        None => {
            if !route.as_str().is_empty() {
                return false;
            }
            let expected = host.concat("-");
            if !text::has_prefix_ignoring_case(identity.as_str(), expected.as_str()) {
                return false;
            }
            let profile = text::rest(identity.as_str(), expected.as_str().unicode_len());
            is_webapp_profile_suffix(profile.as_str())
        },
    }
}

/// Tells whether the class of a web application is in the default profile.
pub fn webapp_class_uses_default_profile(class: &str) -> (r: bool)
    ensures
        r == uses_default_profile(class@),
{
    if !is_webapp_class(class) {
        return false;
    }
    let identity = text::rest(class, "chrome-".unicode_len());
    match text::rsplit_once(identity.as_str(), '-') {
        Some((_, profile)) => text::eq_ignore_case(profile.as_str(), "Default"),
        None => false,
    }
}

// ── Desktop entries ────────────────────────────────────────────────────────

/// The state of the reader of an `Exec` value.
pub ghost struct ExecReader {
    /// Complete arguments.
    pub tokens: Seq<Seq<char>>,
    /// The argument that is being read.
    pub current: Seq<char>,
    /// The quote that is open.
    pub quote: Option<char>,
    /// The next character stands for itself.
    pub escaped: bool,
}

/// Nothing read yet.
pub open spec fn blank_exec() -> ExecReader {
    ExecReader { tokens: seq![], current: seq![], quote: None, escaped: false }
}

/// The reader after one more character.  A backslash escapes outside quotes
/// and inside double quotes; an argument is never empty.
pub open spec fn read_exec_char(reader: ExecReader, c: char) -> ExecReader {
    if reader.escaped {
        ExecReader { current: reader.current.push(c), escaped: false, ..reader }
    } else if c == '\\' && (reader.quote is None || reader.quote == Some('"')) {
        ExecReader { escaped: true, ..reader }
    } else if reader.quote is Some {
        if reader.quote == Some(c) {
            ExecReader { quote: None, ..reader }
        } else {
            ExecReader { current: reader.current.push(c), ..reader }
        }
    } else if c == '\'' || c == '"' {
        ExecReader { quote: Some(c), ..reader }
    } else if text::is_space(c) {
        if reader.current.len() > 0 {
            ExecReader { tokens: reader.tokens.push(reader.current), current: seq![], ..reader }
        } else {
            reader
        }
    } else {
        ExecReader { current: reader.current.push(c), ..reader }
    }
}

/// The reader after a text.
pub open spec fn read_exec(s: Seq<char>) -> ExecReader
    decreases s.len(),
{
    if s.len() == 0 {
        blank_exec()
    } else {
        read_exec_char(read_exec(s.drop_last()), s.last())
    }
}

/// The arguments of an `Exec` value; none where it is not closed or empty.
pub open spec fn exec_tokens(value: Seq<char>) -> Option<Seq<Seq<char>>> {
    let reader = read_exec(value);
    let tokens = if reader.current.len() > 0 {
        reader.tokens.push(reader.current)
    } else {
        reader.tokens
    };
    if reader.escaped || reader.quote is Some || tokens.len() == 0 {
        None
    } else {
        Some(tokens)
    }
}

/// The contents of optional arguments.
pub open spec fn tokens_of(tokens: Option<Vec<String>>) -> Option<Seq<Seq<char>>> {
    match tokens {
        Some(list) => Some(list.deep_view()),
        None => None,
    }
}

/// Splits an `Exec` value into its arguments.
pub fn tokenize_desktop_exec(value: &str) -> (r: Option<Vec<String>>)
    ensures
        tokens_of(r) == exec_tokens(value@),
{
    let x = text::chars_of(value);
    let mut tokens: Vec<String> = Vec::new();
    let mut current = String::new();
    let mut quote: Option<char> = None;
    let mut escaped = false;
    let mut i: usize = 0;
    assert(tokens.deep_view() =~= Seq::<Seq<char>>::empty());
    while i < x.len()
        invariant
            x@ == value@,
            i <= x.len(),
            read_exec(value@.take(i as int)) == (ExecReader {
                tokens: tokens.deep_view(),
                current: current@,
                quote,
                escaped,
            }),
        decreases x.len() - i,
    {
        let c = x[i];
        proof {
            assert(value@.take(i + 1).drop_last() =~= value@.take(i as int));
            assert(value@.take(i + 1).last() == c);
        }
        if escaped {
            current.push(c);
            escaped = false;
        } else if c == '\\' && (quote.is_none() || quote == Some('"')) {
            escaped = true;
        } else if let Some(open) = quote {
            if c == open {
                quote = None;
            } else {
                current.push(c);
            }
        } else if c == '\'' || c == '"' {
            quote = Some(c);
        } else if text::char_is_space(c) {
            if !current.as_str().is_empty() {
                let ghost tokens0 = tokens.deep_view();
                let ghost token = current@;
                tokens.push(current);
                current = String::new();
                assert(tokens.deep_view() =~= tokens0.push(token));
            }
        } else {
            current.push(c);
        }
        i += 1;
    }
    assert(value@.take(value@.len() as int) =~= value@);
    if escaped || quote.is_some() {
        return None;
    }
    if !current.as_str().is_empty() {
        let ghost tokens0 = tokens.deep_view();
        let ghost token = current@;
        tokens.push(current);
        assert(tokens.deep_view() =~= tokens0.push(token));
    }
    if tokens.len() == 0 {
        None
    } else {
        Some(tokens)
    }
}

/// How a desktop entry launches a web application.
#[derive(Debug)]
pub struct DesktopLaunch {
    /// The launcher.
    pub command: String,
    /// Its arguments.
    pub args: Vec<String>,
    /// How closely the entry names the window.
    pub specificity: u8,
}

#[verifier::ext_equal]
pub ghost struct DesktopLaunchView {
    pub command: Seq<char>,
    pub args: Seq<Seq<char>>,
    pub specificity: u8,
}

impl View for DesktopLaunch {
    type V = DesktopLaunchView;

    open spec fn view(&self) -> DesktopLaunchView {
        DesktopLaunchView {
            command: self.command@,
            args: self.args.deep_view(),
            specificity: self.specificity,
        }
    }
}

/// The value of the last line with a prefix among the first `n` lines.
pub open spec fn last_value(lines: Seq<Seq<char>>, prefix: Seq<char>, n: int) -> Option<Seq<char>>
    decreases n,
{
    if n <= 0 {
        None
    } else if text::starts_with(text::trimmed(lines[n - 1]), prefix) {
        Some(text::trimmed(lines[n - 1]).skip(prefix.len() as int))
    } else {
        last_value(lines, prefix, n - 1)
    }
}

/// The value of the last line with a prefix, white space around lines aside.
pub open spec fn value_in(contents: Seq<char>, prefix: Seq<char>) -> Option<Seq<char>> {
    let lines = text::pieces(contents, '\n');
    last_value(lines, prefix, lines.len() as int)
}

/// The launcher that shows a web application or focuses it.
pub open spec fn focuses_webapp(command: Seq<char>) -> bool {
    text::same_ignoring_case(command, "omarchy-launch-or-focus-webapp"@)
}

/// The launcher that shows any application or focuses it.
pub open spec fn focuses_any(command: Seq<char>) -> bool {
    text::same_ignoring_case(command, "omarchy-launch-or-focus"@)
}

/// The launcher that shows a web application.
pub open spec fn launches_webapp(command: Seq<char>) -> bool {
    text::same_ignoring_case(command, "omarchy-launch-webapp"@)
}

/// Some identity is a text, up to case.
pub open spec fn names_identity(identities: Seq<Seq<char>>, argument: Seq<char>) -> bool {
    exists|i: int|
        0 <= i < identities.len() && (#[trigger] identities[i]).len() > 0
            && text::same_ignoring_case(identities[i], argument)
}

/// Some identity belongs to a URL.
pub open spec fn some_class_matches_url(identities: Seq<Seq<char>>, url: Seq<char>) -> bool {
    exists|i: int|
        0 <= i < identities.len() && class_matches_url(#[trigger] identities[i], url)
}

/// Some identity is in the default profile.
pub open spec fn some_class_is_default(identities: Seq<Seq<char>>) -> bool {
    exists|i: int| 0 <= i < identities.len() && uses_default_profile(#[trigger] identities[i])
}

/// The URL in the arguments of a launcher.
pub open spec fn launched_url(tokens: Seq<Seq<char>>) -> Option<Seq<char>> {
    if launches_webapp(tokens[0]) {
        if tokens.len() > 1 {
            Some(tokens[1])
        } else {
            None
        }
    } else if tokens.len() <= 2 {
        None
    } else if focuses_webapp(tokens[0]) {
        Some(tokens[2])
    } else {
        match text::without_prefix(tokens[2], "omarchy-launch-webapp "@) {
            Some(nested) => {
                let all = text::words(nested);
                if all.len() > 0 {
                    Some(all[0])
                } else {
                    None
                }
            },
            None => None,
        }
    }
}

/// The entry names the window in the launcher's first argument.
pub open spec fn argument_names(tokens: Seq<Seq<char>>, identities: Seq<Seq<char>>) -> bool {
    tokens.len() > 1 && names_identity(identities, tokens[1])
}

/// The entry names the window as its class at start.
pub open spec fn startup_names(contents: Seq<char>, identities: Seq<Seq<char>>) -> bool {
    match value_in(contents, "StartupWMClass="@) {
        Some(value) => names_identity(identities, text::trimmed(value)),
        None => false,
    }
}

/// The launcher of an entry shows one of the identities.
pub open spec fn entry_matches(
    contents: Seq<char>,
    tokens: Seq<Seq<char>>,
    identities: Seq<Seq<char>>,
) -> bool {
    &&& launches_webapp(tokens[0]) || focuses_webapp(tokens[0]) || focuses_any(tokens[0])
    &&& launched_url(tokens) is Some
    &&& some_class_matches_url(identities, launched_url(tokens)->0)
    &&& if launches_webapp(tokens[0]) {
        some_class_is_default(identities)
    } else {
        argument_names(tokens, identities) || startup_names(contents, identities)
    }
}

/// What a desktop entry says about one of the identities.
pub open spec fn desktop_launch(
    contents: Seq<char>,
    identities: Seq<Seq<char>>,
) -> Option<DesktopLaunchView> {
    match value_in(contents, "Exec="@) {
        Some(exec) => match exec_tokens(exec) {
            Some(tokens) => if entry_matches(contents, tokens, identities) {
                Some(
                    DesktopLaunchView {
                        command: tokens[0],
                        args: tokens.skip(1),
                        specificity: if argument_names(tokens, identities) {
                            3
                        } else if startup_names(contents, identities) {
                            2
                        } else {
                            1
                        },
                    },
                )
            } else {
                None
            },
            None => None,
        },
        None => None,
    }
}

fn find_value(contents: &str, prefix: &str) -> (r: Option<String>)
    ensures
        r.deep_view() == value_in(contents@, prefix@),
{
    let lines = text::split(contents, '\n');
    let ghost all = lines.deep_view();
    let mut n: usize = lines.len();
    while n > 0
        invariant
            n <= lines.len(),
            all == lines.deep_view(),
            all == text::pieces(contents@, '\n'),
            value_in(contents@, prefix@) == last_value(all, prefix@, n as int),
        decreases n,
    {
        assert(all[n - 1] == lines[n - 1]@);
        let line = text::trim(lines[n - 1].as_str());
        if let Some(value) = text::strip_prefix(line.as_str(), prefix) {
            return Some(value);
        }
        n -= 1;
    }
    None
}

fn any_names(identities: &[&str], argument: &str) -> (r: bool)
    ensures
        r == names_identity(identities.deep_view(), argument@),
{
    let ghost all = identities.deep_view();
    let mut i: usize = 0;
    while i < identities.len()
        invariant
            i <= identities.len(),
            all == identities.deep_view(),
            forall|k: int|
                0 <= k < i ==> (#[trigger] all[k]).len() == 0 || !text::same_ignoring_case(
                    all[k],
                    argument@,
                ),
        decreases identities.len() - i,
    {
        let identity = identities[i];
        assert(all[i as int] == identity@);
        if !identity.is_empty() && text::eq_ignore_case(identity, argument) {
            return true;
        }
        i += 1;
    }
    false
}

fn any_matches_url(identities: &[&str], url: &str) -> (r: bool)
    ensures
        r == some_class_matches_url(identities.deep_view(), url@),
{
    let ghost all = identities.deep_view();
    let mut i: usize = 0;
    while i < identities.len()
        invariant
            i <= identities.len(),
            all == identities.deep_view(),
            forall|k: int| 0 <= k < i ==> !class_matches_url(#[trigger] all[k], url@),
        decreases identities.len() - i,
    {
        let identity = identities[i];
        assert(all[i as int] == identity@);
        if webapp_class_matches_url(identity, url) {
            return true;
        }
        i += 1;
    }
    false
}

fn any_is_default(identities: &[&str]) -> (r: bool)
    ensures
        r == some_class_is_default(identities.deep_view()),
{
    let ghost all = identities.deep_view();
    let mut i: usize = 0;
    while i < identities.len()
        invariant
            i <= identities.len(),
            all == identities.deep_view(),
            forall|k: int| 0 <= k < i ==> !uses_default_profile(#[trigger] all[k]),
        decreases identities.len() - i,
    {
        let identity = identities[i];
        assert(all[i as int] == identity@);
        if webapp_class_uses_default_profile(identity) {
            return true;
        }
        i += 1;
    }
    false
}

fn find_launched_url(tokens: &Vec<String>) -> (r: Option<String>)
    requires
        tokens.len() > 0,
    ensures
        r.deep_view() == launched_url(tokens.deep_view()),
{
    let ghost all = tokens.deep_view();
    let command = tokens[0].as_str();
    assert(all[0] == command@);
    if text::eq_ignore_case(command, "omarchy-launch-webapp") {
        if tokens.len() > 1 {
            assert(all[1] == tokens[1]@);
            return Some(tokens[1].clone());
        }
        return None;
    }
    if tokens.len() <= 2 {
        return None;
    }
    assert(all[2] == tokens[2]@);
    if text::eq_ignore_case(command, "omarchy-launch-or-focus-webapp") {
        return Some(tokens[2].clone());
    }
    match text::strip_prefix(tokens[2].as_str(), "omarchy-launch-webapp ") {
        Some(nested) => {
            let words = text::split_words(nested.as_str());
            if words.len() > 0 {
                assert(words.deep_view()[0] == words[0]@);
                Some(words[0].clone())
            } else {
                None
            }
        },
        None => None,
    }
}

/// The contents of an optional launch.
pub open spec fn launch_of(launch: Option<DesktopLaunch>) -> Option<DesktopLaunchView> {
    match launch {
        Some(l) => Some(l@),
        None => None,
    }
}

/// Reads how a desktop entry launches a window with one of some classes.
pub fn parse_webapp_desktop_file(contents: &str, identities: &[&str]) -> (r: Option<DesktopLaunch>)
    ensures
        launch_of(r) == desktop_launch(contents@, identities.deep_view()),
{
    let exec = match find_value(contents, "Exec=") {
        Some(exec) => exec,
        None => {
            return None;
        },
    };
    let tokens = match tokenize_desktop_exec(exec.as_str()) {
        Some(tokens) => tokens,
        None => {
            return None;
        },
    };
    let ghost all = tokens.deep_view();
    assert(all.len() > 0);
    assert(all[0] == tokens[0]@);
    let command = tokens[0].as_str();
    let plain = text::eq_ignore_case(command, "omarchy-launch-webapp");
    if !(plain || text::eq_ignore_case(command, "omarchy-launch-or-focus-webapp")
        || text::eq_ignore_case(command, "omarchy-launch-or-focus")) {
        return None;
    }
    let by_argument = if tokens.len() > 1 {
        assert(all[1] == tokens[1]@);
        any_names(identities, tokens[1].as_str())
    } else {
        false
    };
    let by_startup = match find_value(contents, "StartupWMClass=") {
        Some(value) => {
            let class = text::trim(value.as_str());
            any_names(identities, class.as_str())
        },
        None => false,
    };
    let by_url = match find_launched_url(&tokens) {
        Some(url) => any_matches_url(identities, url.as_str()),
        None => false,
    };
    let matched = by_url && (if plain {
        any_is_default(identities)
    } else {
        by_argument || by_startup
    });
    if !matched {
        return None;
    }
    let specificity: u8 = if by_argument {
        3
    } else if by_startup {
        2
    } else {
        1
    };
    let command = tokens[0].clone();
    let mut args: Vec<String> = Vec::new();
    let mut i: usize = 1;
    while i < tokens.len()
        invariant
            1 <= i <= tokens.len(),
            args.len() == i - 1,
            forall|k: int| 0 <= k < i - 1 ==> (#[trigger] args[k])@ == tokens[k + 1]@,
        decreases tokens.len() - i,
    {
        args.push(tokens[i].clone());
        i += 1;
    }
    assert(args.deep_view() =~= all.skip(1));
    Some(DesktopLaunch { command, args, specificity })
}

// ── Choosing among entries ─────────────────────────────────────────────────

/// The closest launch so far, and whether another one is as close and differs.
pub ghost struct Closest {
    pub launch: DesktopLaunchView,
    pub contested: bool,
}

/// The closest launch after one more.
pub open spec fn closest_with(best: Option<Closest>, launch: DesktopLaunchView) -> Option<Closest> {
    match best {
        None => Some(Closest { launch, contested: false }),
        Some(b) => if launch.specificity > b.launch.specificity {
            Some(Closest { launch, contested: false })
        } else if launch.specificity == b.launch.specificity && (launch.command != b.launch.command
            || launch.args != b.launch.args) {
            Some(Closest { contested: true, ..b })
        } else {
            best
        },
    }
}

/// The closest launch among the first `n` entries.
pub open spec fn closest(
    entries: Seq<Seq<char>>,
    identities: Seq<Seq<char>>,
    n: int,
) -> Option<Closest>
    decreases n,
{
    if n <= 0 {
        None
    } else {
        match desktop_launch(entries[n - 1], identities) {
            Some(launch) => closest_with(closest(entries, identities, n - 1), launch),
            None => closest(entries, identities, n - 1),
        }
    }
}

/// The launch that the closest entries agree on.
pub open spec fn agreed_launch(
    entries: Seq<Seq<char>>,
    identities: Seq<Seq<char>>,
) -> Option<LaunchInfoView> {
    match closest(entries, identities, entries.len() as int) {
        Some(best) => if best.contested {
            None
        } else {
            Some(
                LaunchInfoView { command: best.launch.command, args: best.launch.args, hint: None },
            )
        },
        None => None,
    }
}

/// The classes by which a window is known.
pub open spec fn identities_of(class: Seq<char>, initial_class: Seq<char>) -> Seq<Seq<char>> {
    seq![class, initial_class]
}

/// The launcher recorded for a web application.
pub open spec fn discovered_launch(
    class: Seq<char>,
    initial_class: Seq<char>,
    entries: Seq<Seq<char>>,
) -> Option<LaunchInfoView> {
    if is_webapp(class) || is_webapp(initial_class) {
        agreed_launch(entries, identities_of(class, initial_class))
    } else {
        None
    }
}

/// The contents of an optional launcher.
pub open spec fn info_of(launch: Option<LaunchInfo>) -> Option<LaunchInfoView> {
    match launch {
        Some(l) => Some(l@),
        None => None,
    }
}

fn same_texts(a: &Vec<String>, b: &Vec<String>) -> (r: bool)
    ensures
        r == (a.deep_view() == b.deep_view()),
{
    if a.len() != b.len() {
        assert(a.deep_view().len() != b.deep_view().len());
        return false;
    }
    let mut i: usize = 0;
    while i < a.len()
        invariant
            a.len() == b.len(),
            i <= a.len(),
            forall|k: int| 0 <= k < i ==> a.deep_view()[k] == b.deep_view()[k],
        decreases a.len() - i,
    {
        if !text::same(a[i].as_str(), b[i].as_str()) {
            assert(a.deep_view()[i as int] != b.deep_view()[i as int]);
            return false;
        }
        i += 1;
    }
    assert(a.deep_view() =~= b.deep_view());
    true
}

/// The launcher that the closest of some desktop entries agree on.
pub fn find_webapp_launch_info_in_entries(
    class: &str,
    initial_class: &str,
    entries: &[String],
) -> (r: Option<LaunchInfo>)
    ensures
        info_of(r) == agreed_launch(entries.deep_view(), identities_of(class@, initial_class@)),
{
    let identities: [&str; 2] = [class, initial_class];
    let ghost ids = identities_of(class@, initial_class@);
    assert(identities.deep_view() =~= ids);
    let ghost all = entries.deep_view();
    let mut best: Option<(DesktopLaunch, bool)> = None;
    let mut i: usize = 0;
    while i < entries.len()
        invariant
            i <= entries.len(),
            all == entries.deep_view(),
            identities.deep_view() == ids,
            match (best, closest(all, ids, i as int)) {
                (Some(b), Some(c)) => b.0@ == c.launch && b.1 == c.contested,
                (None, None) => true,
                _ => false,
            },
        decreases entries.len() - i,
    {
        assert(all[i as int] == entries[i as int]@);
        if let Some(launch) = parse_webapp_desktop_file(entries[i].as_str(), &identities) {
            best = match best {
                None => Some((launch, false)),
                Some((held, contested)) => {
                    if launch.specificity > held.specificity {
                        Some((launch, false))
                    } else if launch.specificity == held.specificity && !(text::same(
                        launch.command.as_str(),
                        held.command.as_str(),
                    ) && same_texts(&launch.args, &held.args)) {
                        Some((held, true))
                    } else {
                        Some((held, contested))
                    }
                },
            };
        }
        i += 1;
    }
    match best {
        Some((launch, contested)) => if contested {
            None
        } else {
            Some(LaunchInfo { command: launch.command, args: launch.args, hint: None })
        },
        None => None,
    }
}

/// Find the launcher recorded by Omarchy for a Chrome web-app class in the
/// contents of the desktop entries of the system.  This is also used while
/// restoring snapshots whose launch command predates the discovery.
pub fn discover_webapp_launch_info(
    class: &str,
    initial_class: &str,
    entries: &[String],
) -> (r: Option<LaunchInfo>)
    ensures
        info_of(r) == discovered_launch(class@, initial_class@, entries.deep_view()),
{
    if !is_webapp_class(class) && !is_webapp_class(initial_class) {
        return None;
    }
    find_webapp_launch_info_in_entries(class, initial_class, entries)
}

// ── Laws ───────────────────────────────────────────────────────────────────

/// One of the first `n` entries says `launch`.
pub open spec fn is_said(
    entries: Seq<Seq<char>>,
    identities: Seq<Seq<char>>,
    n: int,
    launch: DesktopLaunchView,
) -> bool {
    exists|i: int|
        0 <= i < n && desktop_launch(#[trigger] entries[i], identities) == Some(launch)
}

/// None of the first `n` entries is closer than `launch`.
pub open spec fn is_closest(
    entries: Seq<Seq<char>>,
    identities: Seq<Seq<char>>,
    n: int,
    launch: DesktopLaunchView,
) -> bool {
    forall|other: DesktopLaunchView| #[trigger]
        is_said(entries, identities, n, other) ==> other.specificity <= launch.specificity
}

proof fn lemma_said_step(
    entries: Seq<Seq<char>>,
    identities: Seq<Seq<char>>,
    n: int,
    launch: DesktopLaunchView,
)
    requires
        0 < n <= entries.len(),
    ensures
        is_said(entries, identities, n, launch) <==> is_said(entries, identities, n - 1, launch)
            || desktop_launch(entries[n - 1], identities) == Some(launch),
{
    if is_said(entries, identities, n, launch) {
        let i = choose|i: int|
            0 <= i < n && desktop_launch(#[trigger] entries[i], identities) == Some(launch);
        if i < n - 1 {
            assert(desktop_launch(entries[i], identities) == Some(launch));
        }
    }
    if is_said(entries, identities, n - 1, launch) {
        let i = choose|i: int|
            0 <= i < n - 1 && desktop_launch(#[trigger] entries[i], identities) == Some(launch);
        assert(desktop_launch(entries[i], identities) == Some(launch));
    }
}

/// What is kept as closest: said by an entry, none closer, and contested
/// exactly if another entry is as close and says something else.
pub proof fn law_closest_entry(entries: Seq<Seq<char>>, identities: Seq<Seq<char>>, n: int)
    requires
        0 <= n <= entries.len(),
    ensures
        match closest(entries, identities, n) {
            Some(best) => {
                &&& is_said(entries, identities, n, best.launch)
                &&& is_closest(entries, identities, n, best.launch)
                &&& best.contested <==> exists|other: DesktopLaunchView| #[trigger]
                    is_said(entries, identities, n, other) && other.specificity
                        == best.launch.specificity && (other.command != best.launch.command
                        || other.args != best.launch.args)
            },
            None => forall|other: DesktopLaunchView| !#[trigger]
                is_said(entries, identities, n, other),
        },
    decreases n,
{
    if n > 0 {
        law_closest_entry(entries, identities, n - 1);
        assert forall|other: DesktopLaunchView| #[trigger]
            is_said(entries, identities, n, other) == (is_said(entries, identities, n - 1, other)
                || desktop_launch(entries[n - 1], identities) == Some(other)) by {
            lemma_said_step(entries, identities, n, other);
        }
        let before = closest(entries, identities, n - 1);
        match desktop_launch(entries[n - 1], identities) {
            Some(launch) => {
                assert(is_said(entries, identities, n, launch));
                let best = closest(entries, identities, n)->0;
                if before is Some {
                    let old = before->0;
                    assert(is_said(entries, identities, n - 1, old.launch));
                    assert(is_said(entries, identities, n, old.launch));
                    if old.contested {
                        let other = choose|other: DesktopLaunchView| #[trigger]
                            is_said(entries, identities, n - 1, other) && other.specificity
                                == old.launch.specificity && (other.command
                                != old.launch.command || other.args != old.launch.args);
                        assert(is_said(entries, identities, n, other));
                    }
                    if best.contested {
                        if launch.specificity == old.launch.specificity && (launch.command
                            != old.launch.command || launch.args != old.launch.args) {
                            assert(is_said(entries, identities, n, launch));
                        }
                    }
                }
            },
            None => {
                if before is Some {
                    let old = before->0;
                    assert(is_said(entries, identities, n, old.launch));
                    if old.contested {
                        let other = choose|other: DesktopLaunchView| #[trigger]
                            is_said(entries, identities, n - 1, other) && other.specificity
                                == old.launch.specificity && (other.command
                                != old.launch.command || other.args != old.launch.args);
                        assert(is_said(entries, identities, n, other));
                    }
                }
            },
        }
    }
}

} // verus!
