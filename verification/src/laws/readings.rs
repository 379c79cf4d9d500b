//! What the kernel and the compositor tell is read as it was written.

use crate::brave;
use crate::hyprctl;
use crate::json;
use crate::json::JsonView;
use crate::laws::settings;
use crate::laws::texts;
use crate::laws::web;
use crate::process::ChildProcessView;
use crate::procfs;
use crate::text;
use vstd::prelude::*;
use vstd::utf8;

verus! {

// ── Start times ────────────────────────────────────────────────────────────

/// The start time of a process is the twentieth field behind the last closing
/// parenthesis of its status line, whatever the name of the process holds.
pub proof fn law_start_time_of_a_process(
    name: Seq<char>,
    fields: Seq<Seq<char>>,
    n: nat,
)
    requires
        fields.len() >= 20,
        forall|i: int|
            0 <= i < fields.len() ==> texts::is_word(#[trigger] fields[i]) && texts::is_free_of(
                fields[i],
                ')',
            ),
        fields[19] == text::digits(n),
        n <= u64::MAX,
    ensures
        procfs::start_time_in(name + seq![')'] + (seq![' '] + text::joined(fields, " "@))) == Some(
            n,
        ),
{
    let tail = seq![' '] + text::joined(fields, " "@);
    lemma_joined_is_free(fields, ')');
    assert(texts::is_free_of(tail, ')'));
    web::law_split_at_the_last_separator(name, ')', tail);
    texts::law_leading_white_space_is_no_word(' ', text::joined(fields, " "@));
    texts::law_joined_words_are_read_back(fields);
    settings::lemma_digits_value(n);
    assert(text::is_digit(text::digits(n)[0]));
}

proof fn lemma_joined_is_free(fields: Seq<Seq<char>>, c: char)
    requires
        c != ' ',
        forall|i: int| 0 <= i < fields.len() ==> texts::is_free_of(#[trigger] fields[i], c),
    ensures
        texts::is_free_of(text::joined(fields, " "@), c),
    decreases fields.len(),
{
    reveal_strlit(" ");
    if fields.len() == 1 {
        assert(texts::is_free_of(fields[0], c));
    } else if fields.len() > 1 {
        let front = fields.drop_last();
        assert forall|i: int| 0 <= i < front.len() implies texts::is_free_of(
            #[trigger] front[i],
            c,
        ) by {
            assert(front[i] == fields[i]);
        }
        lemma_joined_is_free(front, c);
        assert(texts::is_free_of(fields[fields.len() - 1], c));
        let a = text::joined(front, " "@);
        let all = a + " "@ + fields.last();
        assert forall|i: int| 0 <= i < all.len() implies #[trigger] all[i] != c by {
            if i < a.len() {
                assert(all[i] == a[i]);
            } else if i > a.len() {
                assert(all[i] == fields.last()[i - a.len() - 1]);
            }
        }
    }
}

/// A status line that is cut off tells no start time.
pub proof fn law_short_status_line_tells_nothing(name: Seq<char>, fields: Seq<Seq<char>>)
    requires
        fields.len() < 20,
        forall|i: int|
            0 <= i < fields.len() ==> texts::is_word(#[trigger] fields[i]) && texts::is_free_of(
                fields[i],
                ')',
            ),
    ensures
        procfs::start_time_in(
            name + seq![')'] + (seq![' '] + text::joined(fields, " "@)),
        ) is None,
        texts::is_free_of(name, ')') ==> procfs::start_time_in(name) is None,
{
    let tail = seq![' '] + text::joined(fields, " "@);
    lemma_joined_is_free(fields, ')');
    assert(texts::is_free_of(tail, ')'));
    web::law_split_at_the_last_separator(name, ')', tail);
    texts::law_leading_white_space_is_no_word(' ', text::joined(fields, " "@));
    texts::law_joined_words_are_read_back(fields);
    if texts::is_free_of(name, ')') {
        web::law_no_split_without_a_separator(name, ')');
    }
}

// ── Children ───────────────────────────────────────────────────────────────

/// The numbers of children are read back as they were written.
pub proof fn law_child_numbers_are_read_back(pids: Seq<u32>)
    ensures
        procfs::pids_of(pids.map_values(|p: u32| text::digits(p as nat))) == Some(pids),
    decreases pids.len(),
{
    let words = pids.map_values(|p: u32| text::digits(p as nat));
    if pids.len() > 0 {
        let front = pids.drop_last();
        law_child_numbers_are_read_back(front);
        assert(words.drop_last() =~= front.map_values(|p: u32| text::digits(p as nat)));
        let n = pids.last() as nat;
        assert(words.last() == text::digits(n));
        settings::lemma_digits_value(n);
        assert(text::is_digit(text::digits(n)[0]));
        assert(front.push(pids.last()) =~= pids);
    } else {
        assert(pids =~= Seq::<u32>::empty());
    }
}

/// One word that is no number makes the whole list unreadable.
pub proof fn law_one_bad_child_spoils_the_list(words: Seq<Seq<char>>, i: int)
    requires
        0 <= i < words.len(),
        words[i].len() > 0,
        words[i][0] != '+',
        !text::is_digit(words[i][0]),
    ensures
        procfs::pids_of(words) is None,
    decreases words.len(),
{
    if i < words.len() - 1 {
        assert(words.drop_last()[i] == words[i]);
        law_one_bad_child_spoils_the_list(words.drop_last(), i);
    }
}

/// A child that is told is kept as it was told last, and another child stays.
pub proof fn law_children_are_gathered(
    s: Seq<ChildProcessView>,
    child: ChildProcessView,
    other: ChildProcessView,
)
    ensures
        procfs::gathered(s.push(child)).contains(child),
        other.pid != child.pid ==> (procfs::gathered(s.push(child)).contains(other)
            <==> procfs::gathered(s).contains(other)),
{
    let before = procfs::gathered(s);
    let all = s.push(child);
    assert(all.drop_last() =~= s);
    let after = procfs::gathered(all);
    assert(after == procfs::with_child(before, child));
    let at = procfs::child_place(before, child.pid, 0);
    lemma_place(before, child.pid, 0);
    assert(after[at] == child);
    if at < before.len() && before[at].pid == child.pid {
        assert(after == before.update(at, child));
        if after.contains(other) && other.pid != child.pid {
            let k = choose|k: int| 0 <= k < after.len() && after[k] == other;
            assert(before[k] == other);
        }
        if before.contains(other) && other.pid != child.pid {
            let k = choose|k: int| 0 <= k < before.len() && before[k] == other;
            assert(after[k] == other);
        }
    } else {
        assert(after == before.insert(at, child));
        if after.contains(other) && other.pid != child.pid {
            let k = choose|k: int| 0 <= k < after.len() && after[k] == other;
            if k < at {
                assert(before[k] == other);
            } else {
                assert(before[k - 1] == other);
            }
        }
        if before.contains(other) && other.pid != child.pid {
            let k = choose|k: int| 0 <= k < before.len() && before[k] == other;
            if k < at {
                assert(after[k] == other);
            } else {
                assert(after[k + 1] == other);
            }
        }
    }
}

proof fn lemma_place(s: Seq<ChildProcessView>, pid: u32, i: int)
    requires
        0 <= i <= s.len(),
    ensures
        i <= procfs::child_place(s, pid, i) <= s.len(),
    decreases s.len() - i,
{
    if i < s.len() && s[i].pid < pid {
        lemma_place(s, pid, i + 1);
    }
}

// ── Command lines ──────────────────────────────────────────────────────────

/// No byte is zero.
pub open spec fn has_no_zero(bytes: Seq<u8>) -> bool {
    forall|i: int| 0 <= i < bytes.len() ==> #[trigger] bytes[i] != 0
}

proof fn lemma_zero_is(bytes: Seq<u8>, from: int, at: int)
    requires
        0 <= from <= at <= bytes.len(),
        forall|k: int| from <= k < at ==> bytes[k] != 0,
        at < bytes.len() ==> bytes[at] == 0,
    ensures
        procfs::zero_from(bytes, from) == at,
    decreases at - from,
{
    if from < at {
        lemma_zero_is(bytes, from + 1, at);
    }
}

proof fn lemma_zero_shift(bytes: Seq<u8>, n: int, i: int)
    requires
        0 <= n <= bytes.len(),
        0 <= i <= bytes.len() - n,
    ensures
        procfs::zero_from(bytes.skip(n), i) + n == procfs::zero_from(bytes, n + i),
    decreases bytes.len() - n - i,
{
    if i < bytes.len() - n && bytes[n + i] != 0 {
        lemma_zero_shift(bytes, n, i + 1);
    }
}

proof fn lemma_arguments_shift(bytes: Seq<u8>, n: int, i: int)
    requires
        0 <= n <= bytes.len(),
        0 <= i,
    ensures
        procfs::arguments_from(bytes.skip(n), i) == procfs::arguments_from(bytes, n + i),
    decreases bytes.len() - n - i,
{
    let rest = bytes.skip(n);
    if i < rest.len() {
        lemma_zero_shift(bytes, n, i);
        procfs::lemma_zero_from(rest, i);
        let end = procfs::zero_from(rest, i);
        assert(rest.subrange(i, end) =~= bytes.subrange(n + i, n + end));
        if end < rest.len() {
            lemma_arguments_shift(bytes, n, end + 1);
        }
    }
}

/// The bytes up to a zero are the first argument, and the arguments behind the
/// zero follow.
pub proof fn law_zeros_part_arguments(first: Seq<u8>, rest: Seq<u8>)
    requires
        has_no_zero(first),
        first.len() > 0,
        utf8::valid_utf8(first),
        utf8::decode_utf8(first).len() > 0,
    ensures
        procfs::arguments_from(first + seq![0u8] + rest, 0) == seq![utf8::decode_utf8(first)]
            + procfs::arguments_from(rest, 0),
        procfs::arguments_from(first, 0) == seq![utf8::decode_utf8(first)],
        procfs::cmdline_in(first) == utf8::decode_utf8(first),
{
    let bytes = first + seq![0u8] + rest;
    let n = first.len() as int;
    assert forall|k: int| 0 <= k < n implies bytes[k] != 0 by {
        assert(bytes[k] == first[k]);
    }
    lemma_zero_is(bytes, 0, n);
    assert(bytes.subrange(0, n) =~= first);
    lemma_arguments_shift(bytes, n + 1, 0);
    assert(bytes.skip(n + 1) =~= rest);
    lemma_zero_is(first, 0, n);
    assert(first.subrange(0, n) =~= first);
}

/// A command line of a program and one argument has a blank between the two.
pub proof fn law_arguments_are_joined_by_blanks(first: Seq<u8>, second: Seq<u8>)
    requires
        has_no_zero(first),
        first.len() > 0,
        utf8::valid_utf8(first),
        utf8::decode_utf8(first).len() > 0,
        has_no_zero(second),
        second.len() > 0,
        utf8::valid_utf8(second),
        utf8::decode_utf8(second).len() > 0,
    ensures
        procfs::cmdline_in(first + seq![0u8] + second) == utf8::decode_utf8(first) + " "@
            + utf8::decode_utf8(second),
        procfs::cmdline_in(Seq::<u8>::empty()).len() == 0,
{
    law_zeros_part_arguments(first, second);
    law_zeros_part_arguments(second, seq![]);
    let a = utf8::decode_utf8(first);
    let b = utf8::decode_utf8(second);
    assert(seq![a] + seq![b] =~= seq![a, b]);
    assert(seq![a, b].drop_last() =~= seq![a]);
    assert(text::joined(seq![a, b].drop_last(), " "@) == a);
}

// ── The compositor ─────────────────────────────────────────────────────────

/// The version is the second word of the compositor's answer.
pub proof fn law_version_is_the_second_word(
    first: Seq<char>,
    version: Seq<char>,
    rest: Seq<char>,
)
    requires
        texts::is_word(first),
        texts::is_word(version),
        rest.len() > 0 ==> text::is_space(rest[0]),
    ensures
        hyprctl::version_in(first + (seq![' '] + (version + rest))) == version,
        hyprctl::version_in(first) == "unknown"@,
{
    let tail = seq![' '] + (version + rest);
    texts::law_words_are_split_by_white_space(first, tail);
    texts::law_leading_white_space_is_no_word(' ', version + rest);
    texts::law_words_are_split_by_white_space(version, rest);
    let none = Seq::<char>::empty();
    texts::law_words_are_split_by_white_space(first, none);
    texts::law_leading_white_space_is_no_word(' ', none);
    assert(first + none =~= first);
    let all = text::words(first + tail);
    assert(all[1] == version);
    assert(text::words(first).len() == 1);
}

/// The active window is the one at the address that its description tells; no
/// address, an empty one and a zero stand for no window.
pub proof fn law_active_window_is_told_by_its_address(
    members: Seq<(Seq<char>, JsonView)>,
    address: Seq<char>,
    i: int,
)
    requires
        0 <= i < members.len(),
        members[i] == ("address"@, JsonView::Text(address)),
        forall|k: int| 0 <= k < i ==> (#[trigger] members[k]).0 != "address"@,
    ensures
        address.len() > 0 && address != "0x0"@ ==> hyprctl::active_address(
            JsonView::Object(members),
        ) == Some(address),
        address.len() == 0 || address == "0x0"@ ==> hyprctl::active_address(
            JsonView::Object(members),
        ) is None,
        hyprctl::active_address(JsonView::Object(members.take(i))) is None,
        hyprctl::active_address(JsonView::Text(address)) is None,
{
    lemma_member(members, "address"@, 0, i);
    lemma_no_member(members.take(i), "address"@, 0);
}

proof fn lemma_member(members: Seq<(Seq<char>, JsonView)>, key: Seq<char>, from: int, i: int)
    requires
        0 <= from <= i < members.len(),
        members[i].0 == key,
        forall|k: int| from <= k < i ==> (#[trigger] members[k]).0 != key,
    ensures
        json::member_from(members, key, from) == Some(members[i].1),
    decreases i - from,
{
    if from < i {
        assert(members[from].0 != key);
        lemma_member(members, key, from + 1, i);
    }
}

proof fn lemma_no_member(members: Seq<(Seq<char>, JsonView)>, key: Seq<char>, from: int)
    requires
        0 <= from <= members.len(),
        forall|k: int| from <= k < members.len() ==> (#[trigger] members[k]).0 != key,
    ensures
        json::member_from(members, key, from) is None,
    decreases members.len() - from,
{
    if from < members.len() {
        assert(members[from].0 != key);
        lemma_no_member(members, key, from + 1);
    }
}

// ── Batches ────────────────────────────────────────────────────────────────

/// What the compositor has read of a batch.
pub ghost struct BatchReader {
    /// The requests that are complete.
    pub done: Seq<Seq<char>>,
    /// The request that is being read.
    pub current: Seq<char>,
    /// The next character stands for itself.
    pub escaped: bool,
}

/// A semicolon ends a request; a backslash lets the next character stand for
/// itself.
pub open spec fn batch_char(reader: BatchReader, c: char) -> BatchReader {
    if reader.escaped {
        BatchReader { current: reader.current.push(c), escaped: false, ..reader }
    } else if c == '\\' {
        BatchReader { escaped: true, ..reader }
    } else if c == ';' {
        BatchReader { done: reader.done.push(reader.current), current: seq![], ..reader }
    } else {
        BatchReader { current: reader.current.push(c), ..reader }
    }
}

/// What the compositor reads.
pub open spec fn batch_read(reader: BatchReader, s: Seq<char>) -> BatchReader
    decreases s.len(),
{
    if s.len() == 0 {
        reader
    } else {
        batch_read(batch_char(reader, s[0]), s.drop_first())
    }
}

proof fn lemma_batch_concat(reader: BatchReader, a: Seq<char>, b: Seq<char>)
    ensures
        batch_read(reader, a + b) == batch_read(batch_read(reader, a), b),
    decreases a.len(),
{
    if a.len() == 0 {
        assert(a + b =~= b);
    } else {
        assert((a + b).drop_first() =~= a.drop_first() + b);
        lemma_batch_concat(batch_char(reader, a[0]), a.drop_first(), b);
    }
}

proof fn lemma_batch_plain(reader: BatchReader, s: Seq<char>)
    requires
        !reader.escaped,
        texts::is_free_of(s, ';'),
        texts::is_free_of(s, '\\'),
    ensures
        batch_read(reader, s) == (BatchReader { current: reader.current + s, ..reader }),
    decreases s.len(),
{
    if s.len() == 0 {
        assert(reader.current + s =~= reader.current);
    } else {
        let rest = s.drop_first();
        assert(s[0] != ';' && s[0] != '\\');
        assert forall|i: int| 0 <= i < rest.len() implies #[trigger] rest[i] != ';' && rest[i]
            != '\\' by {
            assert(rest[i] == s[i + 1]);
        }
        let next = batch_char(reader, s[0]);
        lemma_batch_plain(next, rest);
        assert(next.current + rest =~= reader.current + s);
    }
}

proof fn lemma_replaced_first(s: Seq<char>, c: char, to: Seq<char>)
    requires
        s.len() > 0,
    ensures
        text::replaced(s, seq![c], to) == (if s[0] == c {
            to
        } else {
            seq![s[0]]
        }) + text::replaced(s.drop_first(), seq![c], to),
{
    assert(s.subrange(0, 1) =~= seq![s[0]]);
    assert(s.skip(1) =~= s.drop_first());
    assert(text::occurs_at(s, seq![c], 0) <==> s[0] == c) by {
        assert(seq![c][0] == c);
        assert(s.subrange(0, 1)[0] == s[0]);
    }
}

spec fn batch_form(c: char) -> Seq<char> {
    if c == '\\' {
        seq!['\\', '\\']
    } else if c == ';' {
        seq!['\\', ';']
    } else {
        seq![c]
    }
}

proof fn lemma_escaped_first(s: Seq<char>)
    requires
        s.len() > 0,
    ensures
        hyprctl::escaped_command(s) == batch_form(s[0]) + hyprctl::escaped_command(s.drop_first()),
{
    let double = seq!['\\', '\\'];
    let to = seq!['\\', ';'];
    let inner = text::replaced(s.drop_first(), seq!['\\'], double);
    lemma_replaced_first(s, '\\', double);
    let all = text::replaced(s, seq!['\\'], double);
    let last = text::replaced(inner, seq![';'], to);
    if s[0] == '\\' {
        assert(all =~= double + inner);
        lemma_replaced_first(all, ';', to);
        assert(all.drop_first() =~= seq!['\\'] + inner);
        lemma_replaced_first(all.drop_first(), ';', to);
        assert(all.drop_first().drop_first() =~= inner);
        assert(seq!['\\'] + (seq!['\\'] + last) =~= double + last);
    } else {
        assert(all =~= seq![s[0]] + inner);
        lemma_replaced_first(all, ';', to);
        assert(all.drop_first() =~= inner);
    }
}

proof fn lemma_batch_escaped(reader: BatchReader, command: Seq<char>)
    requires
        !reader.escaped,
    ensures
        batch_read(reader, hyprctl::escaped_command(command)) == (BatchReader {
            current: reader.current + command,
            ..reader
        }),
    decreases command.len(),
{
    if command.len() == 0 {
        assert(text::replaced(command, seq!['\\'], seq!['\\', '\\']) == command);
        assert(hyprctl::escaped_command(command) =~= Seq::<char>::empty());
        assert(reader.current + command =~= reader.current);
    } else {
        let c = command[0];
        let rest = hyprctl::escaped_command(command.drop_first());
        lemma_escaped_first(command);
        lemma_batch_concat(reader, batch_form(c), rest);
        let next = BatchReader { current: reader.current.push(c), ..reader };
        assert(batch_read(reader, batch_form(c)) == next) by {
            let form = batch_form(c);
            if form.len() == 2 {
                assert(form.drop_first() =~= seq![c]);
                let middle = batch_char(reader, '\\');
                assert(form.drop_first().drop_first() =~= Seq::<char>::empty());
                assert(batch_read(middle, form.drop_first()) == batch_read(
                    batch_char(middle, c),
                    form.drop_first().drop_first(),
                ));
            } else {
                assert(form.drop_first() =~= Seq::<char>::empty());
            }
            assert(batch_read(next, Seq::<char>::empty()) == next);
        }
        lemma_batch_escaped(next, command.drop_first());
        assert(next.current + command.drop_first() =~= reader.current + command);
    }
}

/// A batch holds one request for each command, in order: the command is read
/// back to the letter behind the word for a dispatch, though it may hold
/// semicolons and backslashes itself.
pub proof fn law_batch_holds_every_command(commands: Seq<Seq<char>>)
    requires
        commands.len() > 0,
    ensures
        ({
            let blank = BatchReader { done: seq![], current: seq![], escaped: false };
            let read = batch_read(blank, hyprctl::batch_text(commands));
            let n = commands.len() as int;
            &&& !read.escaped
            &&& read.done.len() == n - 1
            &&& read.current == (if n > 1 {
                " dispatch "@
            } else {
                "dispatch "@
            }) + commands[n - 1]
            &&& forall|i: int|
                0 <= i < n - 1 ==> #[trigger] read.done[i] == (if i > 0 {
                    " dispatch "@
                } else {
                    "dispatch "@
                }) + commands[i] + " "@
        }),
    decreases commands.len(),
{
    reveal_strlit("dispatch ");
    reveal_strlit(" dispatch ");
    reveal_strlit(" ; ");
    reveal_strlit(" ");
    reveal_strlit("");
    let blank = BatchReader { done: seq![], current: seq![], escaped: false };
    let n = commands.len() as int;
    let front = commands.drop_last();
    let last = commands.last();
    let form = hyprctl::escaped_command(last);
    if n == 1 {
        assert(hyprctl::batch_text(front) =~= Seq::<char>::empty());
        assert(hyprctl::batch_text(commands) =~= "dispatch "@ + form);
        lemma_batch_concat(blank, "dispatch "@, form);
        lemma_batch_plain(blank, "dispatch "@);
        assert(blank.current + "dispatch "@ =~= "dispatch "@);
        lemma_batch_escaped(BatchReader { current: "dispatch "@, ..blank }, last);
    } else {
        law_batch_holds_every_command(front);
        let before = hyprctl::batch_text(front);
        let r0 = batch_read(blank, before);
        assert(hyprctl::batch_text(commands) =~= before + (" "@ + (seq![';'] + (" dispatch "@
            + form))));
        lemma_batch_concat(blank, before, " "@ + (seq![';'] + (" dispatch "@ + form)));
        lemma_batch_concat(r0, " "@, seq![';'] + (" dispatch "@ + form));
        lemma_batch_plain(r0, " "@);
        let r1 = BatchReader { current: r0.current + " "@, ..r0 };
        let tail = " dispatch "@ + form;
        assert((seq![';'] + tail).drop_first() =~= tail);
        let r2 = BatchReader { done: r1.done.push(r1.current), current: seq![], ..r1 };
        assert(batch_read(r1, seq![';'] + tail) == batch_read(r2, tail));
        lemma_batch_concat(r2, " dispatch "@, form);
        lemma_batch_plain(r2, " dispatch "@);
        let r3 = BatchReader { current: r2.current + " dispatch "@, ..r2 };
        assert(r3.current =~= " dispatch "@);
        lemma_batch_escaped(r3, last);
        let read = batch_read(blank, hyprctl::batch_text(commands));
        assert(read.done == r1.done.push(r1.current));
        assert forall|i: int| 0 <= i < n - 1 implies #[trigger] read.done[i] == (if i > 0 {
            " dispatch "@
        } else {
            "dispatch "@
        }) + commands[i] + " "@ by {
            if i < n - 2 {
                assert(read.done[i] == r0.done[i]);
                assert(front[i] == commands[i]);
            } else {
                assert(read.done[i] == r0.current + " "@);
                assert(front[n - 2] == commands[n - 2]);
            }
        }
    }
}

// ── Browser profiles ───────────────────────────────────────────────────────

/// The profiles of a browser are the members of its profile cache: each with
/// the name of the member as its directory, and under the name that it was
/// given, or under its directory where it was given none.
pub proof fn law_profiles_are_read_from_the_cache(
    state: Seq<(Seq<char>, JsonView)>,
    profile: Seq<(Seq<char>, JsonView)>,
    cache: Seq<(Seq<char>, JsonView)>,
    i: int,
    name: Seq<char>,
)
    requires
        state.len() > 0,
        state[0] == ("profile"@, JsonView::Object(profile)),
        profile.len() > 0,
        profile[0] == ("info_cache"@, JsonView::Object(cache)),
        0 <= i < cache.len(),
    ensures
        ({
            let read = brave::profiles_in(JsonView::Object(state));
            &&& read.len() == cache.len()
            &&& read[i].directory == cache[i].0
            &&& cache[i].1 == JsonView::Object(seq![("name"@, JsonView::Text(name))]) && name.len()
                > 0 ==> read[i].name == name
            &&& cache[i].1 == JsonView::Object(seq![("name"@, JsonView::Text(seq![]))])
                ==> read[i].name == cache[i].0
            &&& cache[i].1 == JsonView::Object(seq![]) ==> read[i].name == cache[i].0
            &&& brave::profiles_in(JsonView::Object(seq![])).len() == 0
        }),
{
    assert(json::member_from(state, "profile"@, 0) == Some(state[0].1));
    assert(json::member_from(profile, "info_cache"@, 0) == Some(profile[0].1));
    let named = seq![("name"@, JsonView::Text(name))];
    assert(json::member_from(named, "name"@, 0) == Some(named[0].1));
    let blank = seq![("name"@, JsonView::Text(Seq::<char>::empty()))];
    assert(json::member_from(blank, "name"@, 0) == Some(blank[0].1));
    let none = Seq::<(Seq<char>, JsonView)>::empty();
    assert(json::member_from(none, "name"@, 0) is None);
    assert(json::member_from(none, "profile"@, 0) is None);
}

} // verus!
