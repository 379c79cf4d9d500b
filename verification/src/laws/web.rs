//! Web applications: their addresses, their classes and their entries.

use crate::laws::settings;
use crate::laws::texts;
use crate::session::LaunchInfoView;
use crate::text;
use crate::webapps;
use crate::webapps::{DesktopLaunchView, ExecReader};
use vstd::prelude::*;

verus! {

// ── Places in texts ────────────────────────────────────────────────────────

proof fn lemma_found_at(s: Seq<char>, p: Seq<char>, from: int, at: int)
    requires
        0 <= from <= at,
        text::occurs_at(s, p, at),
        forall|k: int| from <= k < at ==> !#[trigger] text::occurs_at(s, p, k),
    ensures
        text::found_from(s, p, from) == Some(at),
    decreases at - from,
{
    if from < at {
        assert(!text::occurs_at(s, p, from));
        lemma_found_at(s, p, from + 1, at);
    }
}

proof fn lemma_found_nowhere(s: Seq<char>, p: Seq<char>, from: int)
    requires
        0 <= from,
        forall|k: int| from <= k ==> !#[trigger] text::occurs_at(s, p, k),
    ensures
        text::found_from(s, p, from) is None,
    decreases s.len() + 1 - from,
{
    if from + p.len() <= s.len() {
        assert(!text::occurs_at(s, p, from));
        lemma_found_nowhere(s, p, from + 1);
    }
}

/// The first place of a text in another is where it stands behind a part that
/// holds none of its first character.
pub proof fn law_text_is_found_where_it_first_stands(
    before: Seq<char>,
    part: Seq<char>,
    after: Seq<char>,
)
    requires
        part.len() > 0,
        texts::is_free_of(before, part[0]),
    ensures
        text::found(before + part + after, part) == Some(before.len() as int),
{
    let s = before + part + after;
    let at = before.len() as int;
    assert(s.subrange(at, at + part.len()) =~= part);
    assert forall|k: int| 0 <= k < at implies !#[trigger] text::occurs_at(s, part, k) by {
        if text::occurs_at(s, part, k) {
            assert(s.subrange(k, k + part.len())[0] == s[k]);
            assert(s[k] == before[k]);
        }
    }
    lemma_found_at(s, part, 0, at);
}

/// A text is not found where its first character does not stand.
pub proof fn law_text_is_not_found_without_its_first_character(s: Seq<char>, part: Seq<char>)
    requires
        part.len() > 0,
        texts::is_free_of(s, part[0]),
    ensures
        text::found(s, part) is None,
{
    assert forall|k: int| 0 <= k implies !#[trigger] text::occurs_at(s, part, k) by {
        if text::occurs_at(s, part, k) {
            assert(s.subrange(k, k + part.len())[0] == s[k]);
        }
    }
    lemma_found_nowhere(s, part, 0);
}

proof fn lemma_last_index(s: Seq<char>, c: char, n: int, at: int)
    requires
        0 <= at < n <= s.len(),
        s[at] == c,
        forall|k: int| at < k < n ==> s[k] != c,
    ensures
        text::last_index_before(s, c, n) == at,
    decreases n,
{
    if n - 1 > at {
        lemma_last_index(s, c, n - 1, at);
    }
}

/// A text is split at the last of its separators.
pub proof fn law_split_at_the_last_separator(before: Seq<char>, c: char, after: Seq<char>)
    requires
        texts::is_free_of(after, c),
    ensures
        text::split_at_last(before + seq![c] + after, c) == Some((before, after)),
{
    let s = before + seq![c] + after;
    let at = before.len() as int;
    assert forall|k: int| at < k < s.len() implies s[k] != c by {
        assert(s[k] == after[k - at - 1]);
    }
    lemma_last_index(s, c, s.len() as int, at);
    assert(s.take(at) =~= before);
    assert(s.skip(at + 1) =~= after);
}

/// A text without the separator is not split.
pub proof fn law_no_split_without_a_separator(s: Seq<char>, c: char)
    requires
        texts::is_free_of(s, c),
    ensures
        text::split_at_last(s, c) is None,
{
    lemma_no_last_index(s, c, s.len() as int);
}

proof fn lemma_no_last_index(s: Seq<char>, c: char, n: int)
    requires
        0 <= n <= s.len(),
        texts::is_free_of(s, c),
    ensures
        text::last_index_before(s, c, n) < 0,
    decreases n,
{
    if n > 0 {
        assert(s[n - 1] != c);
        lemma_no_last_index(s, c, n - 1);
    }
}

/// What stands before the first separator.
pub proof fn law_text_before_the_first_separator(before: Seq<char>, c: char, after: Seq<char>)
    requires
        texts::is_free_of(before, c),
    ensures
        text::before_first(before + seq![c] + after, c) == before,
        text::before_first(before, c) == before,
{
    let s = before + seq![c] + after;
    let n = before.len() as int;
    text::lemma_index_from(s, c, 0);
    text::lemma_index_from(before, c, 0);
    let i = text::index_from(s, c, 0);
    assert(s[n] == c);
    if i < n {
        assert(s[i] == before[i]);
    }
    if i > n {
        assert(s[n] != c);
    }
    assert(s.take(n) =~= before);
    let j = text::index_from(before, c, 0);
    if j < n {
        assert(before[j] == c);
    }
    assert(before.take(n) =~= before);
}

// ── Addresses ──────────────────────────────────────────────────────────────

/// A character that ends the authority of a URL.
pub open spec fn is_end(c: char) -> bool {
    c == '/' || c == '?' || c == '#'
}

/// No character ends the authority of a URL.
pub open spec fn is_authority(s: Seq<char>) -> bool {
    forall|i: int| 0 <= i < s.len() ==> !is_end(#[trigger] s[i])
}

/// What may stand behind an authority.
pub open spec fn is_behind_authority(s: Seq<char>) -> bool {
    s.len() > 0 ==> is_end(s[0])
}

/// A name of the Web's protocols.
pub open spec fn is_web_scheme(scheme: Seq<char>) -> bool {
    &&& texts::is_free_of(scheme, ':')
    &&& text::same_ignoring_case(scheme, "http"@) || text::same_ignoring_case(scheme, "https"@)
}

proof fn lemma_authority_length(s: Seq<char>, n: int, i: int)
    requires
        0 <= i <= n <= s.len(),
        forall|k: int| i <= k < n ==> !is_end(#[trigger] s[k]),
        n < s.len() ==> is_end(s[n]),
    ensures
        webapps::authority_length(s, i) == n,
    decreases n - i,
{
    if i < n {
        assert(!is_end(s[i]));
        lemma_authority_length(s, n, i + 1);
    }
}

proof fn lemma_path_length(s: Seq<char>, n: int, i: int)
    requires
        0 <= i <= n <= s.len(),
        forall|k: int| i <= k < n ==> #[trigger] s[k] != '?' && s[k] != '#',
        n < s.len() ==> s[n] == '?' || s[n] == '#',
    ensures
        webapps::path_length(s, i) == n,
    decreases n - i,
{
    if i < n {
        assert(s[i] != '?' && s[i] != '#');
        lemma_path_length(s, n, i + 1);
    }
}

/// Where the scheme ends and what stands behind it.
proof fn lemma_scheme(scheme: Seq<char>, tail: Seq<char>)
    requires
        texts::is_free_of(scheme, ':'),
    ensures
        webapps::behind_scheme(scheme + "://"@ + tail) == Some(tail),
        webapps::is_web_url(scheme + "://"@ + tail) <==> text::same_ignoring_case(scheme, "http"@)
            || text::same_ignoring_case(scheme, "https"@),
{
    reveal_strlit("://");
    let url = scheme + "://"@ + tail;
    law_text_is_found_where_it_first_stands(scheme, "://"@, tail);
    assert(url.skip(scheme.len() as int + 3) =~= tail);
    assert(url.take(scheme.len() as int) =~= scheme);
}

/// The host of a URL stands behind the scheme and the user and before the
/// port, the path, the query and the fragment; only URLs of the Web have one.
pub proof fn law_host_of_a_url(
    scheme: Seq<char>,
    user: Seq<char>,
    host: Seq<char>,
    port: Seq<char>,
    rest: Seq<char>,
)
    requires
        texts::is_free_of(scheme, ':'),
        is_authority(user) && (user.len() == 0 || user.last() == '@'),
        is_authority(host) && texts::is_free_of(host, '@') && texts::is_free_of(host, ':'),
        is_authority(port) && texts::is_free_of(port, '@') && (port.len() == 0 || port[0] == ':'),
        is_behind_authority(rest),
    ensures
        ({
            let url = scheme + "://"@ + (user + host + port + rest);
            &&& is_web_scheme(scheme) && host.len() > 0 ==> webapps::url_host(url) == Some(host)
            &&& !is_web_scheme(scheme) || host.len() == 0 ==> webapps::url_host(url) is None
        }),
{
    let authority = user + host + port;
    let tail = user + host + port + rest;
    lemma_scheme(scheme, tail);
    let n = authority.len() as int;
    assert forall|k: int| 0 <= k < n implies !is_end(#[trigger] tail[k]) by {
        if k < user.len() {
            assert(tail[k] == user[k]);
        } else if k < user.len() + host.len() {
            assert(tail[k] == host[k - user.len()]);
        } else {
            assert(tail[k] == port[k - user.len() - host.len()]);
        }
    }
    if n < tail.len() {
        assert(tail[n] == rest[0]);
    }
    lemma_authority_length(tail, n, 0);
    assert(tail.take(n) =~= authority);
    let named = host + port;
    assert(texts::is_free_of(named, '@'));
    if user.len() > 0 {
        assert(authority =~= user.drop_last() + seq!['@'] + named);
        law_split_at_the_last_separator(user.drop_last(), '@', named);
    } else {
        assert(authority =~= named);
        law_no_split_without_a_separator(authority, '@');
    }
    assert(webapps::behind_user(authority) =~= named);
    if port.len() > 0 {
        assert(named =~= host + seq![':'] + port.drop_first());
        law_text_before_the_first_separator(host, ':', port.drop_first());
    } else {
        assert(named =~= host);
        law_text_before_the_first_separator(host, ':', Seq::<char>::empty());
    }
}

proof fn lemma_leading_slashes(slashes: Seq<char>, s: Seq<char>)
    requires
        forall|i: int| 0 <= i < slashes.len() ==> #[trigger] slashes[i] == '/',
        s.len() == 0 || s[0] != '/',
    ensures
        webapps::without_leading_slashes(slashes + s) == s,
    decreases slashes.len(),
{
    if slashes.len() == 0 {
        assert(slashes + s =~= s);
    } else {
        assert((slashes + s)[0] == slashes[0]);
        assert((slashes + s).drop_first() =~= slashes.drop_first() + s);
        lemma_leading_slashes(slashes.drop_first(), s);
    }
}

proof fn lemma_trailing_slashes(s: Seq<char>, slashes: Seq<char>)
    requires
        forall|i: int| 0 <= i < slashes.len() ==> #[trigger] slashes[i] == '/',
        s.len() == 0 || s.last() != '/',
    ensures
        webapps::without_trailing_slashes(s + slashes) == s,
    decreases slashes.len(),
{
    if slashes.len() == 0 {
        assert(s + slashes =~= s);
    } else {
        assert((s + slashes).last() == slashes[slashes.len() - 1]);
        assert((s + slashes).drop_last() =~= s + slashes.drop_last());
        lemma_trailing_slashes(s, slashes.drop_last());
    }
}

/// The path of a URL stands behind the authority and before the query and the
/// fragment; slashes around it do not count.
pub proof fn law_path_of_a_url(
    scheme: Seq<char>,
    authority: Seq<char>,
    leading: Seq<char>,
    path: Seq<char>,
    trailing: Seq<char>,
    query: Seq<char>,
)
    requires
        texts::is_free_of(scheme, ':'),
        is_authority(authority),
        forall|i: int| 0 <= i < leading.len() ==> #[trigger] leading[i] == '/',
        forall|i: int| 0 <= i < trailing.len() ==> #[trigger] trailing[i] == '/',
        texts::is_free_of(path, '?') && texts::is_free_of(path, '#'),
        path.len() > 0 ==> leading.len() > 0 && path[0] != '/' && path.last() != '/',
        path.len() == 0 ==> trailing.len() == 0,
        query.len() > 0 ==> query[0] == '?' || query[0] == '#',
    ensures
        webapps::url_route(
            scheme + "://"@ + (authority + (leading + path + trailing + query)),
        ) == Some(path),
{
    let route = leading + path + trailing + query;
    let tail = authority + route;
    lemma_scheme(scheme, tail);
    let n = authority.len() as int;
    assert forall|k: int| 0 <= k < n implies !is_end(#[trigger] tail[k]) by {
        assert(tail[k] == authority[k]);
    }
    if n < tail.len() {
        assert(tail[n] == route[0]);
        if leading.len() > 0 {
            assert(route[0] == leading[0]);
        } else {
            assert(route =~= query);
        }
    }
    lemma_authority_length(tail, n, 0);
    assert(tail.skip(n) =~= route);
    let named = leading + path + trailing;
    let m = named.len() as int;
    assert forall|k: int| 0 <= k < m implies #[trigger] route[k] != '?' && route[k] != '#' by {
        if k < leading.len() {
            assert(route[k] == leading[k]);
        } else if k < leading.len() + path.len() {
            assert(route[k] == path[k - leading.len()]);
        } else {
            assert(route[k] == trailing[k - leading.len() - path.len()]);
        }
    }
    if m < route.len() {
        assert(route[m] == query[0]);
    }
    lemma_path_length(route, m, 0);
    assert(route.take(m) =~= named);
    assert(named =~= leading + (path + trailing));
    if path.len() > 0 {
        assert((path + trailing)[0] == path[0]);
    }
    lemma_leading_slashes(leading, path + trailing);
    lemma_trailing_slashes(path, trailing);
}

// ── Classes ────────────────────────────────────────────────────────────────

/// The class that a browser gives the window of a web application belongs to
/// the URL of that application: it holds the host, and behind two underscores
/// the path with underscores for slashes, and the profile at its end.  It
/// belongs to no URL of another host, nor to one of another path.
pub proof fn law_class_of_a_web_application(
    host: Seq<char>,
    path: Seq<char>,
    profile: Seq<char>,
    other_host: Seq<char>,
    other_path: Seq<char>,
)
    requires
        host.len() > 0,
        is_authority(host),
        texts::is_free_of(host, '@') && texts::is_free_of(host, ':') && texts::is_free_of(host, '_'),
        other_host.len() > 0,
        is_authority(other_host),
        texts::is_free_of(other_host, '@') && texts::is_free_of(other_host, ':'),
        path.len() > 0 && path[0] != '/' && path.last() != '/',
        texts::is_free_of(path, '?') && texts::is_free_of(path, '#'),
        other_path.len() > 0 && other_path[0] != '/' && other_path.last() != '/',
        texts::is_free_of(other_path, '?') && texts::is_free_of(other_path, '#'),
        texts::is_free_of(profile, '-'),
    ensures
        ({
            let shown = text::replaced(path, seq!['/'], seq!['_']);
            let class = "chrome-"@ + host + "__"@ + shown + "-"@ + profile;
            let scheme = "https"@;
            &&& webapps::class_matches_url(class, scheme + "://"@ + (host + (seq!['/'] + path)))
            &&& !text::same_ignoring_case(host, other_host) ==> !webapps::class_matches_url(
                class,
                scheme + "://"@ + (other_host + (seq!['/'] + path)),
            )
            &&& text::replaced(other_path, seq!['/'], seq!['_']) != shown
                ==> !webapps::class_matches_url(
                class,
                scheme + "://"@ + (host + (seq!['/'] + other_path)),
            )
        }),
{
    reveal_strlit("https");
    reveal_strlit("chrome-");
    reveal_strlit("__");
    reveal_strlit("-");
    let shown = text::replaced(path, seq!['/'], seq!['_']);
    let class = "chrome-"@ + host + "__"@ + shown + "-"@ + profile;
    lemma_plain_url(host, path);
    lemma_plain_url(other_host, path);
    lemma_plain_url(host, other_path);
    assert(class.take("chrome-"@.len() as int) =~= "chrome-"@);
    let identity = class.skip("chrome-"@.len() as int);
    let suffix = shown + "-"@ + profile;
    assert(identity =~= host + "__"@ + suffix);
    law_text_is_found_where_it_first_stands(host, "__"@, suffix);
    assert(identity.skip(host.len() as int + 2) =~= suffix);
    assert(identity.take(host.len() as int) =~= host);
    assert("-"@ =~= seq!['-']);
    law_split_at_the_last_separator(shown, '-', profile);
}

proof fn lemma_plain_url(host: Seq<char>, path: Seq<char>)
    requires
        host.len() > 0,
        is_authority(host),
        texts::is_free_of(host, '@') && texts::is_free_of(host, ':'),
        path.len() > 0 && path[0] != '/' && path.last() != '/',
        texts::is_free_of(path, '?') && texts::is_free_of(path, '#'),
    ensures
        webapps::url_host("https"@ + "://"@ + (host + (seq!['/'] + path))) == Some(host),
        webapps::url_route("https"@ + "://"@ + (host + (seq!['/'] + path))) == Some(path),
{
    let none = Seq::<char>::empty();
    let slash = seq!['/'];
    reveal_strlit("https");
    assert(none + host + none + (slash + path) =~= host + (slash + path));
    law_host_of_a_url("https"@, none, host, none, slash + path);
    assert(slash + path + none + none =~= slash + path);
    law_path_of_a_url("https"@, host, slash, path, none, none);
}

/// A class without a path belongs to the root of its host, in whatever case
/// the host is written, and to no path below it.
pub proof fn law_class_of_a_whole_site(host: Seq<char>, path: Seq<char>)
    requires
        host.len() > 0,
        is_authority(host),
        texts::is_free_of(host, '@') && texts::is_free_of(host, ':') && texts::is_free_of(host, '_'),
        path.len() > 0 && path[0] != '/' && path.last() != '/',
        texts::is_free_of(path, '?') && texts::is_free_of(path, '#'),
    ensures
        ({
            let class = "chrome-"@ + host + "-Default"@;
            &&& webapps::class_matches_url(class, "https"@ + "://"@ + (host + seq!['/']))
            &&& !webapps::class_matches_url(
                class,
                "https"@ + "://"@ + (host + (seq!['/'] + path)),
            )
        }),
{
    reveal_strlit("https");
    reveal_strlit("chrome-");
    reveal_strlit("__");
    reveal_strlit("-");
    reveal_strlit("-Default");
    reveal_strlit("Default");
    let none = Seq::<char>::empty();
    let slash = seq!['/'];
    let class = "chrome-"@ + host + "-Default"@;
    assert(class.take("chrome-"@.len() as int) =~= "chrome-"@);
    let identity = class.skip("chrome-"@.len() as int);
    assert(identity =~= host + "-Default"@);
    assert(texts::is_free_of(identity, '_'));
    law_text_is_not_found_without_its_first_character(identity, "__"@);
    assert(none + host + none + slash =~= host + slash);
    law_host_of_a_url("https"@, none, host, none, slash);
    assert(slash + none + none + none =~= slash);
    law_path_of_a_url("https"@, host, slash, none, none, none);
    lemma_plain_url(host, path);
    let start = host + "-"@;
    assert(identity.take(start.len() as int) =~= start);
    assert(identity.skip(start.len() as int) =~= "Default"@);
}

// ── Desktop entries ────────────────────────────────────────────────────────

/// The pieces of joined texts are those texts.
pub proof fn law_joined_pieces_are_read_back(lines: Seq<Seq<char>>, c: char)
    requires
        lines.len() > 0,
        forall|i: int| 0 <= i < lines.len() ==> texts::is_free_of(#[trigger] lines[i], c),
    ensures
        text::pieces(text::joined(lines, seq![c]), c) == lines,
    decreases lines.len(),
{
    let last = lines.len() - 1;
    assert(texts::is_free_of(lines[last], c));
    texts::law_text_without_separator_is_one_piece(lines[last], c);
    if lines.len() == 1 {
        assert(lines =~= seq![lines[0]]);
    } else {
        let front = lines.drop_last();
        assert forall|i: int| 0 <= i < front.len() implies texts::is_free_of(
            #[trigger] front[i],
            c,
        ) by {
            assert(front[i] == lines[i]);
        }
        law_joined_pieces_are_read_back(front, c);
        texts::law_pieces_of_two_texts(text::joined(front, seq![c]), c, lines.last());
        assert(front + seq![lines.last()] =~= lines);
    }
}

/// The value of a key in a desktop entry is that of the last line that bears
/// the key, white space around the line aside.
pub proof fn law_last_line_with_a_key_counts(
    lines: Seq<Seq<char>>,
    key: Seq<char>,
    value: Seq<char>,
    at: int,
)
    requires
        0 <= at < lines.len(),
        forall|i: int| 0 <= i < lines.len() ==> texts::is_free_of(#[trigger] lines[i], '\n'),
        text::trimmed(lines[at]) == key + value,
        forall|i: int|
            at < i < lines.len() ==> !text::starts_with(text::trimmed(#[trigger] lines[i]), key),
    ensures
        webapps::value_in(text::joined(lines, seq!['\n']), key) == Some(value),
{
    law_joined_pieces_are_read_back(lines, '\n');
    let line = key + value;
    assert(line.take(key.len() as int) =~= key);
    assert(line.skip(key.len() as int) =~= value);
    lemma_last_value(lines, key, at, lines.len() as int);
}

proof fn lemma_last_value(lines: Seq<Seq<char>>, key: Seq<char>, at: int, n: int)
    requires
        0 <= at < n <= lines.len(),
        text::starts_with(text::trimmed(lines[at]), key),
        forall|i: int| at < i < n ==> !text::starts_with(text::trimmed(#[trigger] lines[i]), key),
    ensures
        webapps::last_value(lines, key, n) == Some(
            text::trimmed(lines[at]).skip(key.len() as int),
        ),
    decreases n,
{
    if n - 1 > at {
        assert(!text::starts_with(text::trimmed(lines[n - 1]), key));
        lemma_last_value(lines, key, at, n - 1);
    }
}

// ── Command lines of entries ───────────────────────────────────────────────

spec fn is_open_to_words(reader: ExecReader) -> bool {
    !reader.escaped && reader.quote is None
}

proof fn lemma_exec_step(s: Seq<char>, c: char)
    ensures
        webapps::read_exec(s.push(c)) == webapps::read_exec_char(webapps::read_exec(s), c),
{
    assert(s.push(c).drop_last() =~= s);
}

/// No character of a text means anything to the reader of a command line.
pub open spec fn is_bare(s: Seq<char>) -> bool {
    s.len() > 0 && forall|i: int|
        0 <= i < s.len() ==> !text::is_space(#[trigger] s[i]) && s[i] != '\'' && s[i] != '"'
            && s[i] != '\\'
}

proof fn lemma_exec_bare(before: Seq<char>, s: Seq<char>)
    requires
        is_open_to_words(webapps::read_exec(before)),
        s.len() > 0 ==> is_bare(s),
    ensures
        webapps::read_exec(before + s) == (ExecReader {
            current: webapps::read_exec(before).current + s,
            ..webapps::read_exec(before)
        }),
    decreases s.len(),
{
    let reader = webapps::read_exec(before);
    if s.len() == 0 {
        assert(before + s =~= before);
        assert(reader.current + s =~= reader.current);
    } else {
        let front = s.drop_last();
        assert forall|i: int| 0 <= i < front.len() implies !text::is_space(#[trigger] front[i])
            && front[i] != '\'' && front[i] != '"' && front[i] != '\\' by {
            assert(front[i] == s[i]);
        }
        lemma_exec_bare(before, front);
        assert(before + s =~= (before + front).push(s.last()));
        lemma_exec_step(before + front, s.last());
        assert(s.last() == s[s.len() - 1]);
        assert((reader.current + front).push(s.last()) =~= reader.current + s);
    }
}

proof fn lemma_exec_quoted(before: Seq<char>, s: Seq<char>)
    requires
        webapps::read_exec(before).quote == Some('\''),
        !webapps::read_exec(before).escaped,
        texts::is_free_of(s, '\''),
    ensures
        webapps::read_exec(before + s) == (ExecReader {
            current: webapps::read_exec(before).current + s,
            ..webapps::read_exec(before)
        }),
    decreases s.len(),
{
    let reader = webapps::read_exec(before);
    if s.len() == 0 {
        assert(before + s =~= before);
        assert(reader.current + s =~= reader.current);
    } else {
        let front = s.drop_last();
        assert forall|i: int| 0 <= i < front.len() implies #[trigger] front[i] != '\'' by {
            assert(front[i] == s[i]);
        }
        lemma_exec_quoted(before, front);
        assert(before + s =~= (before + front).push(s.last()));
        lemma_exec_step(before + front, s.last());
        assert(s.last() == s[s.len() - 1]);
        assert((reader.current + front).push(s.last()) =~= reader.current + s);
    }
}

/// Bare words with one blank between them are the arguments of a command line.
pub proof fn law_bare_words_are_arguments(words: Seq<Seq<char>>)
    requires
        words.len() > 0,
        forall|i: int| 0 <= i < words.len() ==> is_bare(#[trigger] words[i]),
    ensures
        webapps::exec_tokens(text::joined(words, seq![' '])) == Some(words),
{
    lemma_bare_words(words);
    assert(words.drop_last().push(words.last()) =~= words);
}

proof fn lemma_bare_words(words: Seq<Seq<char>>)
    requires
        words.len() > 0,
        forall|i: int| 0 <= i < words.len() ==> is_bare(#[trigger] words[i]),
    ensures
        webapps::read_exec(text::joined(words, seq![' '])) == (ExecReader {
            tokens: words.drop_last(),
            current: words.last(),
            quote: None,
            escaped: false,
        }),
    decreases words.len(),
{
    let last = words.len() - 1;
    let none = Seq::<char>::empty();
    assert(is_bare(words[last]));
    if words.len() == 1 {
        assert(webapps::read_exec(none) == webapps::blank_exec());
        lemma_exec_bare(none, words[0]);
        assert(none + words[0] =~= words[0]);
        assert(words.drop_last() =~= Seq::<Seq<char>>::empty());
        assert(webapps::blank_exec().current + words[0] =~= words[0]);
    } else {
        let front = words.drop_last();
        assert forall|i: int| 0 <= i < front.len() implies is_bare(#[trigger] front[i]) by {
            assert(front[i] == words[i]);
        }
        lemma_bare_words(front);
        assert(is_bare(words[last - 1]));
        let before = text::joined(front, seq![' ']);
        assert(before + seq![' '] =~= before.push(' '));
        lemma_exec_step(before, ' ');
        let reader = webapps::read_exec(before + seq![' ']);
        assert(front.drop_last().push(front.last()) =~= front);
        assert(reader.tokens == front);
        lemma_exec_bare(before + seq![' '], words[last]);
        assert(reader.current + words[last] =~= words[last]);
    }
}

/// A text in single quotes is one argument, whatever stands in it but a
/// single quote; a quote that is not closed makes the command line useless.
pub proof fn law_quoted_text_is_one_argument(s: Seq<char>)
    requires
        s.len() > 0,
        texts::is_free_of(s, '\''),
    ensures
        webapps::exec_tokens(seq!['\''] + s + seq!['\'']) == Some(seq![s]),
        webapps::exec_tokens(seq!['\''] + s) is None,
{
    let none = Seq::<char>::empty();
    let q = seq!['\''];
    assert(webapps::read_exec(none) == webapps::blank_exec());
    assert(none.push('\'') =~= q);
    lemma_exec_step(none, '\'');
    lemma_exec_quoted(q, s);
    assert((q + s).push('\'') =~= q + s + q);
    lemma_exec_step(q + s, '\'');
    assert(webapps::blank_exec().current + s =~= s);
    assert(Seq::<Seq<char>>::empty().push(s) =~= seq![s]);
}

// ── Launchers ──────────────────────────────────────────────────────────────

/// A desktop entry with a command line: the last line that bears the key
/// holds bare words with blanks between them.
pub open spec fn runs(lines: Seq<Seq<char>>, words: Seq<Seq<char>>, at: int) -> bool {
    &&& 0 <= at < lines.len()
    &&& forall|i: int| 0 <= i < lines.len() ==> texts::is_free_of(#[trigger] lines[i], '\n')
    &&& text::trimmed(lines[at]) == "Exec="@ + text::joined(words, seq![' '])
    &&& forall|i: int|
        at < i < lines.len() ==> !text::starts_with(text::trimmed(#[trigger] lines[i]), "Exec="@)
    &&& words.len() > 0
    &&& forall|i: int| 0 <= i < words.len() ==> is_bare(#[trigger] words[i])
}

proof fn lemma_runs(lines: Seq<Seq<char>>, words: Seq<Seq<char>>, at: int)
    requires
        runs(lines, words, at),
    ensures
        webapps::value_in(text::joined(lines, seq!['\n']), "Exec="@) == Some(
            text::joined(words, seq![' ']),
        ),
        webapps::exec_tokens(text::joined(words, seq![' '])) == Some(words),
{
    law_last_line_with_a_key_counts(lines, "Exec="@, text::joined(words, seq![' ']), at);
    law_bare_words_are_arguments(words);
}

proof fn lemma_launchers_differ()
    ensures
        webapps::launches_webapp("omarchy-launch-webapp"@),
        !webapps::launches_webapp("omarchy-launch-or-focus-webapp"@),
        webapps::focuses_webapp("omarchy-launch-or-focus-webapp"@),
        !webapps::focuses_webapp("omarchy-launch-webapp"@),
        !webapps::focuses_any("omarchy-launch-webapp"@),
        !webapps::focuses_any("omarchy-launch-or-focus-webapp"@),
{
    reveal_strlit("omarchy-launch-webapp");
    reveal_strlit("omarchy-launch-or-focus-webapp");
    reveal_strlit("omarchy-launch-or-focus");
    assert(text::lowered("omarchy-launch-webapp"@).len() == 21);
    assert(text::lowered("omarchy-launch-or-focus-webapp"@).len() == 30);
    assert(text::lowered("omarchy-launch-or-focus"@).len() == 23);
}

/// The entry that shows or focuses a web application by its class and its URL
/// is how that application is opened: with that launcher and both arguments.
/// An entry for another URL is not.
pub proof fn law_entry_with_class_and_url_opens_the_application(
    class: Seq<char>,
    url: Seq<char>,
    lines: Seq<Seq<char>>,
    words: Seq<Seq<char>>,
    at: int,
)
    requires
        text::starts_with_ignoring_case(class, "chrome-"@),
        runs(lines, words, at),
        words == seq!["omarchy-launch-or-focus-webapp"@, class, url],
    ensures
        ({
            let found = webapps::discovered_launch(
                class,
                class,
                seq![text::joined(lines, seq!['\n'])],
            );
            &&& webapps::class_matches_url(class, url) ==> found == Some(
                LaunchInfoView {
                    command: "omarchy-launch-or-focus-webapp"@,
                    args: seq![class, url],
                    hint: None,
                },
            )
            &&& !webapps::class_matches_url(class, url) ==> found is None
        }),
{
    reveal_strlit("chrome-");
    let contents = text::joined(lines, seq!['\n']);
    let entries = seq![contents];
    let identities = webapps::identities_of(class, class);
    lemma_runs(lines, words, at);
    lemma_launchers_differ();
    assert(identities[0] == class);
    assert(identities[0].len() > 0);
    assert(webapps::names_identity(identities, words[1]));
    assert(words.skip(1) =~= seq![class, url]);
    lemma_one_entry(entries, identities);
    if webapps::class_matches_url(class, url) {
        assert(webapps::some_class_matches_url(identities, url)) by {
            assert(webapps::class_matches_url(identities[0], url));
        }
    } else {
        assert(identities[1] == class);
        assert(!webapps::some_class_matches_url(identities, url));
    }
}

/// The plain launcher opens a web application at its URL, where its class
/// stands for the default profile.
pub proof fn law_entry_with_url_opens_the_default_profile(
    name: Seq<char>,
    url: Seq<char>,
    lines: Seq<Seq<char>>,
    words: Seq<Seq<char>>,
    at: int,
)
    requires
        runs(lines, words, at),
        words == seq!["omarchy-launch-webapp"@, url],
        webapps::class_matches_url("chrome-"@ + name + "-Default"@, url),
    ensures
        ({
            let class = "chrome-"@ + name + "-Default"@;
            let other = "chrome-"@ + name + "-Profile"@;
            webapps::discovered_launch(class, class, seq![text::joined(lines, seq!['\n'])]) == Some(
                LaunchInfoView {
                    command: "omarchy-launch-webapp"@,
                    args: seq![url],
                    hint: None,
                },
            ) && webapps::discovered_launch(
                other,
                other,
                seq![text::joined(lines, seq!['\n'])],
            ) is None
        }),
{
    reveal_strlit("chrome-");
    reveal_strlit("-Default");
    reveal_strlit("Default");
    reveal_strlit("-Profile");
    reveal_strlit("Profile");
    let class = "chrome-"@ + name + "-Default"@;
    let other = "chrome-"@ + name + "-Profile"@;
    let contents = text::joined(lines, seq!['\n']);
    let entries = seq![contents];
    let identities = webapps::identities_of(class, class);
    lemma_runs(lines, words, at);
    lemma_launchers_differ();
    assert(words.skip(1) =~= seq![url]);
    assert(identities[0] == class && identities[1] == class);
    assert(webapps::class_matches_url(identities[0], url));
    assert(class.skip("chrome-"@.len() as int) =~= name + seq!['-'] + "Default"@);
    law_split_at_the_last_separator(name, '-', "Default"@);
    assert(webapps::uses_default_profile(class));
    assert(webapps::uses_default_profile(identities[0]));
    lemma_one_entry(entries, identities);
    let others = webapps::identities_of(other, other);
    assert(others[0] == other && others[1] == other);
    assert(other.skip("chrome-"@.len() as int) =~= name + seq!['-'] + "Profile"@);
    law_split_at_the_last_separator(name, '-', "Profile"@);
    assert(text::lowered("Profile"@)[0] == 'p');
    assert(text::lowered("Default"@)[0] == 'd');
    assert(!webapps::uses_default_profile(other));
    assert(!webapps::some_class_is_default(others));
    lemma_one_entry(entries, others);
}

proof fn lemma_one_entry(entries: Seq<Seq<char>>, identities: Seq<Seq<char>>)
    requires
        entries.len() == 1,
    ensures
        webapps::agreed_launch(entries, identities) == match webapps::desktop_launch(
            entries[0],
            identities,
        ) {
            Some(launch) => Some(
                LaunchInfoView { command: launch.command, args: launch.args, hint: None },
            ),
            None => None,
        },
{
    assert(webapps::closest(entries, identities, 0) is None);
}

/// Of two entries the closer one counts; two that are equally close count only
/// where they say the same.
pub proof fn law_closer_entries_count(
    entries: Seq<Seq<char>>,
    identities: Seq<Seq<char>>,
    a: DesktopLaunchView,
    b: DesktopLaunchView,
)
    requires
        entries.len() == 2,
        webapps::desktop_launch(entries[0], identities) == Some(a),
        webapps::desktop_launch(entries[1], identities) == Some(b),
    ensures
        ({
            let agreed = webapps::agreed_launch(entries, identities);
            let said = |l: DesktopLaunchView|
                Some(LaunchInfoView { command: l.command, args: l.args, hint: None });
            &&& a.specificity > b.specificity ==> agreed == said(a)
            &&& b.specificity > a.specificity ==> agreed == said(b)
            &&& a.specificity == b.specificity && a.command == b.command && a.args == b.args
                ==> agreed == said(a)
            &&& a.specificity == b.specificity && (a.command != b.command || a.args != b.args)
                ==> agreed is None
        }),
{
    assert(webapps::closest(entries, identities, 0) is None);
    assert(webapps::closest(entries, identities, 1) == webapps::closest_with(None, a));
}

/// An entry that names the window in its first argument is closer than one
/// that names it as its class at start, and that one closer than one that
/// only opens the same URL.
pub proof fn law_named_entries_are_closer(
    contents: Seq<char>,
    identities: Seq<Seq<char>>,
    launch: DesktopLaunchView,
)
    requires
        webapps::desktop_launch(contents, identities) == Some(launch),
    ensures
        ({
            let named = launch.args.len() > 0 && exists|i: int|
                0 <= i < identities.len() && (#[trigger] identities[i]).len() > 0
                    && text::same_ignoring_case(identities[i], launch.args[0]);
            &&& named ==> launch.specificity == 3
            &&& !named ==> launch.specificity == 2 || launch.specificity == 1
            &&& !named && webapps::value_in(contents, "StartupWMClass="@) is None
                ==> launch.specificity == 1
        }),
{
    let tokens = webapps::exec_tokens(webapps::value_in(contents, "Exec="@)->0)->0;
    if tokens.len() > 1 {
        assert(launch.args[0] == tokens[1]);
    }
}

/// A window that is no web application gets no launcher from the entries.
pub proof fn law_other_windows_get_no_launcher(
    class: Seq<char>,
    initial_class: Seq<char>,
    entries: Seq<Seq<char>>,
)
    requires
        !text::starts_with_ignoring_case(class, "chrome-"@),
        !text::starts_with_ignoring_case(initial_class, "chrome-"@),
    ensures
        webapps::discovered_launch(class, initial_class, entries) is None,
{
}

/// A class without a path may name a numbered profile at its end as well as
/// the default one; anything else there does not belong to the host.
pub proof fn law_profiles_of_a_whole_site(host: Seq<char>, n: nat, other: Seq<char>)
    requires
        host.len() > 0,
        is_authority(host),
        texts::is_free_of(host, '@') && texts::is_free_of(host, ':'),
        texts::is_free_of(host, '_') && texts::is_free_of(other, '_'),
        !text::same_ignoring_case(other, "Default"@),
    ensures
        webapps::is_profile_suffix("Profile_"@ + text::digits(n)),
        webapps::is_profile_suffix("Default"@),
        !webapps::is_profile_suffix("Profile_"@),
        !webapps::class_matches_url(
            "chrome-"@ + host + "-"@ + other,
            "https"@ + "://"@ + (host + seq!['/']),
        ),
{
    reveal_strlit("Profile_");
    reveal_strlit("Default");
    reveal_strlit("https");
    reveal_strlit("chrome-");
    reveal_strlit("__");
    reveal_strlit("-");
    let suffix = "Profile_"@ + text::digits(n);
    assert(suffix.take(8) =~= "Profile_"@);
    assert(suffix.skip(8) =~= text::digits(n));
    settings::lemma_digits_value(n);
    assert(text::lowered("Profile_"@).len() == 8);
    assert(text::lowered("Default"@).len() == 7);
    assert("Profile_"@.skip(8) =~= Seq::<char>::empty());
    let class = "chrome-"@ + host + "-"@ + other;
    assert(class.take(7) =~= "chrome-"@);
    let identity = class.skip(7);
    assert(identity =~= host + "-"@ + other);
    assert(texts::is_free_of(identity, '_')) by {
        assert forall|i: int| 0 <= i < identity.len() implies #[trigger] identity[i] != '_' by {
            if i < host.len() {
                assert(identity[i] == host[i]);
            } else if i > host.len() {
                assert(identity[i] == other[i - host.len() - 1]);
            }
        }
    }
    law_text_is_not_found_without_its_first_character(identity, "__"@);
    let none = Seq::<char>::empty();
    let slash = seq!['/'];
    assert(none + host + none + slash =~= host + slash);
    law_host_of_a_url("https"@, none, host, none, slash);
    let start = host + "-"@;
    assert(identity.skip(start.len() as int) =~= other);
    if text::starts_with(other, "Profile_"@) {
        assert(other.take(8)[7] == '_');
        assert(other[7] == '_');
    }
}

/// The general launcher opens a web application where its second argument
/// starts the launcher of web applications with the URL.
pub proof fn law_entry_with_nested_launcher_opens_the_application(
    class: Seq<char>,
    url: Seq<char>,
    contents: Seq<char>,
    tokens: Seq<Seq<char>>,
)
    requires
        text::starts_with_ignoring_case(class, "chrome-"@),
        texts::is_word(url),
        webapps::value_in(contents, "Exec="@) is Some,
        webapps::exec_tokens(webapps::value_in(contents, "Exec="@)->0) == Some(tokens),
        tokens == seq!["omarchy-launch-or-focus"@, class, "omarchy-launch-webapp "@ + url],
    ensures
        ({
            let found = webapps::discovered_launch(class, class, seq![contents]);
            &&& webapps::class_matches_url(class, url) ==> found == Some(
                LaunchInfoView {
                    command: "omarchy-launch-or-focus"@,
                    args: seq![class, "omarchy-launch-webapp "@ + url],
                    hint: None,
                },
            )
            &&& !webapps::class_matches_url(class, url) ==> found is None
        }),
{
    reveal_strlit("chrome-");
    reveal_strlit("omarchy-launch-webapp");
    reveal_strlit("omarchy-launch-webapp ");
    reveal_strlit("omarchy-launch-or-focus");
    reveal_strlit("omarchy-launch-or-focus-webapp");
    assert(text::lowered("omarchy-launch-webapp"@).len() == 21);
    assert(text::lowered("omarchy-launch-or-focus"@).len() == 23);
    assert(text::lowered("omarchy-launch-or-focus-webapp"@).len() == 30);
    let long = "omarchy-launch-webapp "@ + url;
    assert(long.take(22) =~= "omarchy-launch-webapp "@);
    assert(long.skip(22) =~= url);
    let none = Seq::<char>::empty();
    texts::law_words_are_split_by_white_space(url, none);
    assert(url + none =~= url);
    assert(text::words(url)[0] == url);
    let entries = seq![contents];
    let identities = webapps::identities_of(class, class);
    assert(identities[0] == class && identities[1] == class);
    assert(identities[0].len() > 0);
    assert(webapps::names_identity(identities, tokens[1]));
    assert(tokens.skip(1) =~= seq![class, long]);
    assert(webapps::launched_url(tokens) == Some(url));
    lemma_one_entry(entries, identities);
    if webapps::class_matches_url(class, url) {
        assert(webapps::class_matches_url(identities[0], url));
        assert(webapps::some_class_matches_url(identities, url));
    } else {
        assert(!webapps::some_class_matches_url(identities, url));
    }
}

/// An entry that names another window in its first argument still counts where
/// it names this one as its class at start.
pub proof fn law_class_at_start_names_the_application(
    class: Seq<char>,
    other: Seq<char>,
    url: Seq<char>,
    contents: Seq<char>,
    tokens: Seq<Seq<char>>,
)
    requires
        class.len() > 0,
        webapps::class_matches_url(class, url),
        !text::same_ignoring_case(class, other),
        webapps::value_in(contents, "Exec="@) is Some,
        webapps::exec_tokens(webapps::value_in(contents, "Exec="@)->0) == Some(tokens),
        tokens == seq!["omarchy-launch-or-focus-webapp"@, other, url],
    ensures
        ({
            let said = webapps::desktop_launch(contents, webapps::identities_of(class, class));
            let start = webapps::value_in(contents, "StartupWMClass="@);
            &&& start == Some(class) && text::trimmed(class) == class ==> said == Some(
                DesktopLaunchView {
                    command: "omarchy-launch-or-focus-webapp"@,
                    args: seq![other, url],
                    specificity: 2,
                },
            )
            &&& start is None ==> said is None
        }),
{
    lemma_launchers_differ();
    let identities = webapps::identities_of(class, class);
    assert(identities[0] == class && identities[1] == class);
    assert(webapps::class_matches_url(identities[0], url));
    assert(webapps::some_class_matches_url(identities, url));
    assert(!webapps::names_identity(identities, other));
    assert(tokens.skip(1) =~= seq![other, url]);
    assert(webapps::launched_url(tokens) == Some(url));
    assert(text::same_ignoring_case(identities[0], class));
}

} // verus!
