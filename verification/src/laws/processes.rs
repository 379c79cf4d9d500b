//! What command lines tell about processes.

use crate::laws::hints;
use crate::laws::texts;
use crate::process;
use crate::process::{ChildProcessView, ProfileAnswer, ProfileWalkView, TreeWalkView};
use crate::text;
use vstd::prelude::*;

verus! {

// ── Programs ───────────────────────────────────────────────────────────────

/// Words behind a program, each with white space before it.
pub open spec fn is_behind_program(s: Seq<char>) -> bool {
    s.len() > 0 ==> text::is_space(s[0])
}

/// The program of a command line is the last name of the path that the line
/// starts with, whatever arguments follow.
pub proof fn law_program_of_a_command_line(
    directory: Seq<char>,
    name: Seq<char>,
    rest: Seq<char>,
)
    requires
        texts::is_directory_part(directory),
        texts::is_file_name(name),
        texts::is_word(directory + name),
        is_behind_program(rest),
    ensures
        process::program(directory + name + rest) == Some(name),
        text::words(directory + name + rest) == seq![directory + name] + text::words(rest),
{
    texts::law_words_are_split_by_white_space(directory + name, rest);
    texts::law_last_name_of_a_path(directory, name);
    let all = text::words(directory + name + rest);
    assert(all[0] == directory + name);
}

/// A name of an interactive shell.
pub open spec fn names_a_shell(name: Seq<char>) -> bool {
    name == "zsh"@ || name == "bash"@ || name == "fish"@ || name == "sh"@
}

/// A shell that runs by itself is told from one that runs a command: its line
/// starts with the path of a shell, and every argument is a flag other than
/// the one for a command string.  A script, a command string or the end of
/// flags makes it a command.
pub proof fn law_interactive_shells_are_told_apart(
    directory: Seq<char>,
    name: Seq<char>,
    rest: Seq<char>,
    i: int,
)
    requires
        texts::is_directory_part(directory),
        texts::is_file_name(name),
        texts::is_word(directory + name),
        is_behind_program(rest),
    ensures
        ({
            let line = directory + name + rest;
            let args = text::words(rest);
            &&& names_a_shell(name) && args.len() == 0 ==> process::is_shell(line)
            &&& names_a_shell(name) && (forall|k: int|
                0 <= k < args.len() ==> (#[trigger] args[k]).len() > 1 && args[k][0] == '-'
                    && args[k][1] != '-' && texts::is_free_of(args[k], 'c')) ==> process::is_shell(
                line,
            )
            &&& 0 <= i < args.len() && args[i].len() > 0 && args[i][0] != '-' && args[i][0] != '+'
                ==> !process::is_shell(line)
            &&& 0 <= i < args.len() && (args[i] == "-c"@ || args[i] == "-lc"@ || args[i] == "--"@)
                ==> !process::is_shell(line)
            &&& !names_a_shell(name) ==> !process::is_shell(line)
        }),
{
    law_program_of_a_command_line(directory, name, rest);
    let line = directory + name + rest;
    let all = text::words(line);
    let args = text::words(rest);
    reveal_strlit("--");
    reveal_strlit("-c");
    reveal_strlit("-lc");
    assert forall|k: int| 1 <= k < all.len() implies #[trigger] all[k] == args[k - 1] by {}
    if 0 <= i < args.len() {
        assert(all[i + 1] == args[i]);
        if args[i] == "-c"@ {
            assert(args[i].drop_first()[0] == 'c');
        }
        if args[i] == "-lc"@ {
            assert(args[i].drop_first()[1] == 'c');
        }
        assert(process::is_shell(line) ==> process::is_shell_flag(all[i + 1]));
    }
    if forall|k: int|
        0 <= k < args.len() ==> (#[trigger] args[k]).len() > 1 && args[k][0] == '-' && args[k][1]
            != '-' && texts::is_free_of(args[k], 'c') {
        assert forall|k: int| 1 <= k < all.len() implies process::is_shell_flag(
            #[trigger] all[k],
        ) by {
            let arg = args[k - 1];
            assert(all[k] == arg);
            assert(arg[0] == '-' && arg[1] != '-');
            assert(!text::has_char(arg.drop_first(), 'c')) by {
                assert(texts::is_free_of(arg, 'c'));
                assert forall|j: int| 0 <= j < arg.drop_first().len() implies #[trigger] arg.drop_first()[j]
                    != 'c' by {
                    assert(arg.drop_first()[j] == arg[j + 1]);
                }
            }
        }
    }
}

/// Multiplexers and the terminal's helper are told by their programs.
pub proof fn law_multiplexers_and_helpers_are_told_apart(
    directory: Seq<char>,
    name: Seq<char>,
    rest: Seq<char>,
)
    requires
        texts::is_directory_part(directory),
        texts::is_file_name(name),
        texts::is_word(directory + name),
        is_behind_program(rest),
    ensures
        process::is_multiplexer(directory + name + rest) <==> name == "tmux"@ || name == "screen"@
            || name == "zellij"@,
        process::is_helper(directory + name + rest) <==> name == "kitten"@,
{
    law_program_of_a_command_line(directory, name, rest);
}

/// An empty command line runs nothing.
pub proof fn law_empty_command_line_runs_nothing()
    ensures
        process::program(seq![]) is None,
        !process::is_shell(seq![]),
        !process::is_multiplexer(seq![]),
        !process::is_helper(seq![]),
{
    texts::law_leading_white_space_is_no_word(' ', Seq::<char>::empty());
}

// ── The process of a terminal ──────────────────────────────────────────────

/// Where a child with a known directory runs a shell, a shell is preferred;
/// where one runs anything but a multiplexer, no multiplexer is preferred;
/// among children of one kind the oldest is.
pub proof fn law_shells_are_preferred(children: Seq<ChildProcessView>, i: int)
    requires
        0 <= i < children.len(),
        children[i].cwd.len() > 0,
        !process::is_helper(children[i].cmdline),
    ensures
        ({
            let best = process::preferred(children);
            let kind = |c: ChildProcessView|
                (process::is_shell(c.cmdline), process::is_multiplexer(c.cmdline));
            &&& best is Some
            &&& 0 <= best->0 < children.len()
            &&& children[best->0].cwd.len() > 0
            &&& !process::is_helper(children[best->0].cmdline)
            &&& process::is_shell(children[i].cmdline) ==> process::is_shell(
                children[best->0].cmdline,
            )
            &&& !process::is_multiplexer(children[i].cmdline) ==> process::is_shell(
                children[best->0].cmdline,
            ) || !process::is_multiplexer(children[best->0].cmdline)
            &&& kind(children[i]) == kind(children[best->0]) ==> children[best->0].pid
                <= children[i].pid
        }),
{
    process::law_preferred_is_best(children);
}

// ── Profiles ───────────────────────────────────────────────────────────────

proof fn lemma_words_concat(words: Seq<Seq<char>>, rest: Seq<char>)
    requires
        words.len() > 0,
        forall|i: int| 0 <= i < words.len() ==> texts::is_word(#[trigger] words[i]),
        is_behind_program(rest),
    ensures
        text::words(text::joined(words, " "@) + rest) == words + text::words(rest),
    decreases words.len(),
{
    reveal_strlit(" ");
    assert(" "@ =~= seq![' ']);
    let first = words[0];
    let others = words.drop_first();
    assert(texts::is_word(first));
    if others.len() == 0 {
        texts::law_words_are_split_by_white_space(first, rest);
        assert(words =~= seq![first]);
    } else {
        assert forall|i: int| 0 <= i < others.len() implies texts::is_word(
            #[trigger] others[i],
        ) by {
            assert(others[i] == words[i + 1]);
        }
        lemma_words_concat(others, rest);
        assert(words =~= seq![first] + others);
        texts::lemma_joined_front(first, others, " "@);
        let tail = text::joined(others, " "@) + rest;
        let behind = seq![' '] + tail;
        assert(text::joined(words, " "@) + rest =~= first + behind);
        texts::law_words_are_split_by_white_space(first, behind);
        texts::law_leading_white_space_is_no_word(' ', tail);
        assert(seq![first] + (others + text::words(rest)) =~= words + text::words(rest));
    }
}

proof fn lemma_words_before_flag(words: Seq<Seq<char>>, rest: Seq<Seq<char>>, i: int)
    requires
        0 <= i <= words.len(),
        forall|k: int| 0 <= k < words.len() ==> (#[trigger] words[k]).len() > 0 && words[k][0] != '-',
        rest.len() > 0 ==> rest[0].len() > 0 && rest[0][0] == '-',
    ensures
        process::words_before_flag(words + rest, i) == words.skip(i),
    decreases words.len() - i,
{
    let all = words + rest;
    reveal_strlit("-");
    if i < words.len() {
        assert(all[i] == words[i]);
        assert(words[i][0] != '-');
        if text::starts_with(all[i], "-"@) {
            assert(all[i].take(1)[0] == '-');
        }
        lemma_words_before_flag(words, rest, i + 1);
        assert(seq![words[i]] + words.skip(i + 1) =~= words.skip(i));
    } else {
        assert(words.skip(i) =~= Seq::<Seq<char>>::empty());
        if rest.len() > 0 {
            assert(all[i] == rest[0]);
            assert(rest[0].take(1) =~= "-"@);
        }
    }
}

proof fn lemma_first_found(before: Seq<char>, part: Seq<char>, after: Seq<char>, from: int)
    requires
        part.len() > 0,
        0 <= from <= before.len(),
        hints::lacks(before + part.drop_last(), part),
    ensures
        text::found_from(before + part + after, part, from) == Some(before.len() as int),
    decreases before.len() - from,
{
    let s = before + part + after;
    let at = before.len() as int;
    if from == at {
        assert(s.subrange(at, at + part.len()) =~= part);
    } else {
        let shorter = before + part.drop_last();
        if text::occurs_at(s, part, from) {
            assert(s.subrange(from, from + part.len()) =~= shorter.subrange(
                from,
                from + part.len(),
            ));
        }
        lemma_first_found(before, part, after, from + 1);
    }
}

/// The profile that a browser's command line names is what stands behind its
/// flag, up to the next flag; its name may hold blanks.
pub proof fn law_profile_in_a_command_line(
    before: Seq<char>,
    words: Seq<Seq<char>>,
    rest: Seq<char>,
)
    requires
        hints::lacks(before + "--profile-directory="@.drop_last(), "--profile-directory="@),
        words.len() > 0,
        forall|i: int|
            0 <= i < words.len() ==> texts::is_word(#[trigger] words[i]) && words[i][0] != '-',
        is_behind_program(rest),
        text::words(rest).len() > 0 ==> text::words(rest)[0].len() > 0 && text::words(rest)[0][0]
            == '-',
    ensures
        process::profile_in(
            before + "--profile-directory="@ + (text::joined(words, " "@) + rest),
        ) == Some(text::joined(words, " "@)),
{
    let marker = "--profile-directory="@;
    reveal_strlit("--profile-directory=");
    let tail = text::joined(words, " "@) + rest;
    let line = before + marker + tail;
    lemma_first_found(before, marker, tail, 0);
    assert(line.skip(before.len() + marker.len() as int) =~= tail);
    assert forall|i: int| 0 <= i < words.len() implies texts::is_word(#[trigger] words[i]) by {}
    lemma_words_concat(words, rest);
    lemma_words_before_flag(words, text::words(rest), 0);
    assert(words.skip(0) =~= words);
    lemma_joined_is_long(words);
}

proof fn lemma_joined_is_long(words: Seq<Seq<char>>)
    requires
        words.len() > 0,
        forall|i: int| 0 <= i < words.len() ==> texts::is_word(#[trigger] words[i]),
    ensures
        text::joined(words, " "@).len() > 0,
{
    assert(texts::is_word(words[words.len() - 1]));
}

/// A command line without the flag names no profile.
pub proof fn law_no_profile_without_the_flag(line: Seq<char>)
    requires
        hints::lacks(line, "--profile-directory="@),
    ensures
        process::profile_in(line) is None,
{
    lemma_nowhere(line, "--profile-directory="@, 0);
}

proof fn lemma_nowhere(s: Seq<char>, part: Seq<char>, from: int)
    requires
        0 <= from,
        hints::lacks(s, part),
    ensures
        text::found_from(s, part, from) is None,
    decreases s.len() + 1 - from,
{
    if from + part.len() <= s.len() {
        assert(s.subrange(from, from + part.len()) != part);
        lemma_nowhere(s, part, from + 1);
    }
}

/// Profiles that differ by case alone are one, a new one is added behind the
/// others, and a command line that could not be read leaves the search
/// incomplete.
pub proof fn law_profiles_are_collected_once(walk: ProfileWalkView, line: Seq<char>)
    ensures
        ({
            let after = process::search_reads(walk, line);
            let profile = process::profile_in(line);
            &&& line.len() == 0 ==> !after.complete && after.profiles == walk.profiles
            &&& line.len() > 0 ==> after.complete == walk.complete
            &&& line.len() > 0 && profile is None ==> after.profiles == walk.profiles
            &&& line.len() > 0 && profile is Some && (exists|i: int|
                0 <= i < walk.profiles.len() && text::same_ignoring_case(
                    #[trigger] walk.profiles[i],
                    profile->0,
                )) ==> after.profiles == walk.profiles
            &&& line.len() > 0 && profile is Some && (forall|i: int|
                0 <= i < walk.profiles.len() ==> !text::same_ignoring_case(
                    #[trigger] walk.profiles[i],
                    profile->0,
                )) ==> after.profiles == walk.profiles.push(profile->0)
            &&& after.queue == walk.queue
            &&& after.visited == walk.visited
        }),
{
}

/// The profiles that are told are those that were found, each as often, in the
/// order of their lower case.
pub proof fn law_profiles_are_told_in_order(s: Seq<Seq<char>>)
    ensures
        process::in_order(s).to_multiset() == s.to_multiset(),
        process::in_order(s).len() == s.len(),
        forall|i: int, j: int|
            0 <= i < j < s.len() ==> !text::comes_before(
                text::lowered(#[trigger] process::in_order(s)[j]),
                text::lowered(#[trigger] process::in_order(s)[i]),
            ),
    decreases s.len(),
{
    broadcast use vstd::seq_lib::group_to_multiset_ensures;

    if s.len() > 0 {
        let front = s.drop_last();
        law_profiles_are_told_in_order(front);
        let rest = process::in_order(front);
        let x = s.last();
        let p = process::text_place(rest, x, rest.len() as int);
        lemma_text_place(rest, x, rest.len() as int);
        let r = rest.insert(p, x);
        assert(s =~= front.push(x));
        assert(r.to_multiset() =~= s.to_multiset());
        assert forall|i: int, j: int| 0 <= i < j < s.len() implies !text::comes_before(
            text::lowered(#[trigger] r[j]),
            text::lowered(#[trigger] r[i]),
        ) by {
            lemma_ordered_insert(rest, x, p, i, j);
        }
    }
}

proof fn lemma_text_place(s: Seq<Seq<char>>, x: Seq<char>, n: int)
    requires
        0 <= n <= s.len(),
    ensures
        0 <= process::text_place(s, x, n) <= n,
        forall|k: int|
            process::text_place(s, x, n) <= k < n ==> text::comes_before(
                text::lowered(x),
                text::lowered(#[trigger] s[k]),
            ),
        process::text_place(s, x, n) > 0 ==> !text::comes_before(
            text::lowered(x),
            text::lowered(s[process::text_place(s, x, n) - 1]),
        ),
    decreases n,
{
    if n > 0 && text::comes_before(text::lowered(x), text::lowered(s[n - 1])) {
        lemma_text_place(s, x, n - 1);
    }
}

proof fn lemma_ordered_insert(s: Seq<Seq<char>>, x: Seq<char>, p: int, i: int, j: int)
    requires
        0 <= p <= s.len(),
        0 <= i < j <= s.len(),
        forall|a: int, b: int|
            0 <= a < b < s.len() ==> !text::comes_before(
                text::lowered(#[trigger] s[b]),
                text::lowered(#[trigger] s[a]),
            ),
        forall|k: int|
            p <= k < s.len() ==> text::comes_before(text::lowered(x), text::lowered(#[trigger] s[k])),
        p > 0 ==> !text::comes_before(text::lowered(x), text::lowered(s[p - 1])),
    ensures
        !text::comes_before(
            text::lowered(s.insert(p, x)[j]),
            text::lowered(s.insert(p, x)[i]),
        ),
{
    let r = s.insert(p, x);
    if j < p {
        assert(r[j] == s[j] && r[i] == s[i]);
    } else if i > p {
        assert(r[j] == s[j - 1] && r[i] == s[i - 1]);
    } else if i == p {
        assert(r[i] == x && r[j] == s[j - 1]);
        text::lemma_comes_before_total(text::lowered(x), text::lowered(s[j - 1]));
    } else if j == p {
        assert(r[j] == x && r[i] == s[i]);
        if i < p - 1 && text::comes_before(text::lowered(x), text::lowered(s[i])) {
            assert(!text::comes_before(text::lowered(s[p - 1]), text::lowered(s[i])));
            text::lemma_comes_before_total(text::lowered(s[p - 1]), text::lowered(s[i]));
            if text::lowered(s[p - 1]) != text::lowered(s[i]) {
                text::lemma_comes_before_transitive(
                    text::lowered(x),
                    text::lowered(s[i]),
                    text::lowered(s[p - 1]),
                );
            }
        }
    } else {
        assert(r[j] == s[j - 1] && r[i] == s[i]);
        if j - 1 != i {
            assert(!text::comes_before(text::lowered(s[j - 1]), text::lowered(s[i])));
        }
    }
}

// ── Walks ──────────────────────────────────────────────────────────────────

proof fn lemma_meets_all(walk: TreeWalkView, children: Seq<ChildProcessView>, pid: u32, j: int)
    ensures
        walk.visited.contains(pid) ==> process::walk_meets(walk, children).visited.contains(pid),
        0 <= j < children.len() ==> process::walk_meets(walk, children).visited.contains(
            children[j].pid,
        ),
    decreases children.len(),
{
    if children.len() > 0 {
        let front = children.drop_last();
        lemma_meets_all(walk, front, pid, j);
        let before = process::walk_meets(walk, front);
        let after = process::walk_meets(walk, children);
        if walk.visited.contains(pid) {
            let k = choose|k: int| 0 <= k < before.visited.len() && before.visited[k] == pid;
            assert(after.visited[k] == pid);
        }
        if 0 <= j < children.len() - 1 {
            assert(front[j] == children[j]);
            let k = choose|k: int|
                0 <= k < before.visited.len() && before.visited[k] == children[j].pid;
            assert(after.visited[k] == children[j].pid);
        } else if j == children.len() - 1 {
            if !before.visited.contains(children[j].pid) {
                assert(after.visited[before.visited.len() as int] == children[j].pid);
            }
        }
    }
}

proof fn lemma_by_pid_holds(children: Seq<ChildProcessView>, child: ChildProcessView)
    ensures
        process::by_pid(children).contains(child) <==> children.contains(child),
{
    broadcast use vstd::seq_lib::group_to_multiset_ensures;

    process::law_by_pid_orders(children);
    assert(process::by_pid(children).to_multiset().contains(child) <==> process::by_pid(
        children,
    ).contains(child));
    assert(children.to_multiset().contains(child) <==> children.contains(child));
}

/// A walk through the descendants of a process meets every child that is told
/// of.
pub proof fn law_walk_meets_every_child(
    pid: u32,
    answers: Seq<Seq<ChildProcessView>>,
    k: int,
    j: int,
)
    requires
        0 <= k < answers.len(),
        0 <= j < answers[k].len(),
    ensures
        ({
            let walk = process::walk_run(pid, answers);
            let child = answers[k][j].pid;
            &&& walk.visited.contains(child)
            &&& child != pid ==> exists|i: int|
                0 <= i < walk.found.len() && (#[trigger] walk.found[i]).pid == child
        }),
{
    let child = answers[k][j];
    lemma_walk_visits(pid, answers, k, j);
    process::law_walk_meets_each_process_once(pid, answers);
    let walk = process::walk_run(pid, answers);
    let i = choose|i: int| 0 <= i < walk.visited.len() && walk.visited[i] == child.pid;
    if child.pid != pid {
        assert(walk.visited[0] == pid);
        assert(i > 0);
        assert(walk.found[i - 1].pid == walk.visited[i]);
    }
}

proof fn lemma_walk_visits(pid: u32, answers: Seq<Seq<ChildProcessView>>, k: int, j: int)
    requires
        0 <= k < answers.len(),
        0 <= j < answers[k].len(),
    ensures
        process::walk_run(pid, answers).visited.contains(answers[k][j].pid),
    decreases answers.len(),
{
    let front = answers.drop_last();
    let before = process::walk_run(pid, front);
    let popped = TreeWalkView { queue: before.queue.drop_first(), ..before };
    let sorted = process::by_pid(answers.last());
    let child = answers[k][j];
    if k < answers.len() - 1 {
        assert(front[k] == answers[k]);
        lemma_walk_visits(pid, front, k, j);
        lemma_meets_all(popped, sorted, child.pid, 0);
    } else {
        assert(answers.last().contains(child));
        lemma_by_pid_holds(answers.last(), child);
        let m = choose|m: int| 0 <= m < sorted.len() && sorted[m] == child;
        lemma_meets_all(popped, sorted, child.pid, m);
    }
}

proof fn lemma_meets_only(walk: TreeWalkView, children: Seq<ChildProcessView>, i: int)
    requires
        0 <= i < process::walk_meets(walk, children).found.len(),
    ensures
        ({
            let x = process::walk_meets(walk, children).found[i];
            walk.found.contains(x) || children.contains(x)
        }),
    decreases children.len(),
{
    if children.len() > 0 {
        let front = children.drop_last();
        let before = process::walk_meets(walk, front);
        let after = process::walk_meets(walk, children);
        if i < before.found.len() {
            assert(after.found[i] == before.found[i]);
            lemma_meets_only(walk, front, i);
            if front.contains(after.found[i]) {
                let k = choose|k: int| 0 <= k < front.len() && front[k] == after.found[i];
                assert(children[k] == after.found[i]);
            }
        } else {
            assert(children[children.len() - 1] == after.found[i]);
        }
    } else {
        assert(walk.found.contains(walk.found[i]));
    }
}

/// A walk finds nothing that no answer told of.
pub proof fn law_walk_finds_only_what_was_told(
    pid: u32,
    answers: Seq<Seq<ChildProcessView>>,
    i: int,
)
    requires
        0 <= i < process::walk_run(pid, answers).found.len(),
    ensures
        exists|k: int|
            0 <= k < answers.len() && (#[trigger] answers[k]).contains(
                process::walk_run(pid, answers).found[i],
            ),
    decreases answers.len(),
{
    if answers.len() > 0 {
        let front = answers.drop_last();
        let before = process::walk_run(pid, front);
        let popped = TreeWalkView { queue: before.queue.drop_first(), ..before };
        let sorted = process::by_pid(answers.last());
        let x = process::walk_run(pid, answers).found[i];
        lemma_meets_only(popped, sorted, i);
        if before.found.contains(x) {
            let m = choose|m: int| 0 <= m < before.found.len() && before.found[m] == x;
            law_walk_finds_only_what_was_told(pid, front, m);
            let k = choose|k: int| 0 <= k < front.len() && (#[trigger] front[k]).contains(x);
            assert(answers[k] == front[k]);
        } else {
            lemma_by_pid_holds(answers.last(), x);
            assert(answers[answers.len() - 1].contains(x));
        }
    }
}

/// A search for profiles looks at every child that is told of, with the
/// command line that was told, and a child without one leaves it incomplete.
pub proof fn law_search_looks_at_every_child(
    walk: ProfileWalkView,
    children: Seq<ChildProcessView>,
    j: int,
)
    requires
        0 <= j < children.len(),
    ensures
        ({
            let after = process::search_meets(walk, children);
            &&& after.visited.contains(children[j].pid)
            &&& children[j].cmdline.len() == 0 ==> !after.complete
            &&& !walk.complete ==> !after.complete
            &&& after.profiles == walk.profiles
        }),
    decreases children.len(),
{
    let front = children.drop_last();
    let before = process::search_meets(walk, front);
    let after = process::search_meets(walk, children);
    lemma_search_keeps(walk, front);
    if j < children.len() - 1 {
        assert(front[j] == children[j]);
        law_search_looks_at_every_child(walk, front, j);
        let k = choose|k: int|
            0 <= k < before.visited.len() && before.visited[k] == children[j].pid;
        assert(after.visited[k] == children[j].pid);
    } else if !before.visited.contains(children[j].pid) {
        assert(after.visited[before.visited.len() as int] == children[j].pid);
    }
}

proof fn lemma_search_keeps(walk: ProfileWalkView, children: Seq<ChildProcessView>)
    ensures
        ({
            let after = process::search_meets(walk, children);
            &&& !walk.complete ==> !after.complete
            &&& after.profiles == walk.profiles
        }),
    decreases children.len(),
{
    if children.len() > 0 {
        lemma_search_keeps(walk, children.drop_last());
    }
}

/// A child that a search meets for the first time waits to be looked at, with
/// its command line.
pub proof fn law_new_children_wait(walk: ProfileWalkView, child: ChildProcessView)
    requires
        !walk.visited.contains(child.pid),
    ensures
        ({
            let after = process::search_meets(walk, seq![child]);
            &&& after.queue == walk.queue.push((child.pid, Some(child.cmdline)))
            &&& after.visited == walk.visited.push(child.pid)
            &&& after.complete == (walk.complete && child.cmdline.len() > 0)
        }),
{
    assert(seq![child].drop_last() =~= Seq::<ChildProcessView>::empty());
    assert(process::search_meets(walk, seq![child].drop_last()) == walk);
}

// ── The only shell ─────────────────────────────────────────────────────────

/// A process that runs a shell in a known directory.
pub open spec fn is_shell_somewhere(child: ChildProcessView) -> bool {
    child.cwd.len() > 0 && process::is_shell(child.cmdline)
}

proof fn lemma_some_shell(children: Seq<ChildProcessView>, i: int)
    requires
        0 <= i < children.len(),
        is_shell_somewhere(children[i]),
    ensures
        process::shell_count(children) >= 1,
    decreases children.len(),
{
    if i < children.len() - 1 {
        assert(children.drop_last()[i] == children[i]);
        lemma_some_shell(children.drop_last(), i);
    }
}

proof fn lemma_two_shells(children: Seq<ChildProcessView>, i: int, j: int)
    requires
        0 <= i < j < children.len(),
        is_shell_somewhere(children[i]),
        is_shell_somewhere(children[j]),
    ensures
        process::shell_count(children) >= 2,
    decreases children.len(),
{
    let front = children.drop_last();
    assert(front[i] == children[i]);
    if j < children.len() - 1 {
        assert(front[j] == children[j]);
        lemma_two_shells(front, i, j);
    } else {
        lemma_some_shell(front, i);
    }
}

proof fn lemma_no_shell(children: Seq<ChildProcessView>)
    requires
        forall|k: int| 0 <= k < children.len() ==> !is_shell_somewhere(#[trigger] children[k]),
    ensures
        process::shell_count(children) == 0,
    decreases children.len(),
{
    if children.len() > 0 {
        let front = children.drop_last();
        assert forall|k: int| 0 <= k < front.len() implies !is_shell_somewhere(
            #[trigger] front[k],
        ) by {
            assert(front[k] == children[k]);
        }
        assert(!is_shell_somewhere(children[children.len() - 1]));
        lemma_no_shell(front);
    }
}

proof fn lemma_one_shell(children: Seq<ChildProcessView>, i: int)
    requires
        0 <= i < children.len(),
        is_shell_somewhere(children[i]),
        forall|k: int|
            0 <= k < children.len() && k != i ==> !is_shell_somewhere(#[trigger] children[k]),
    ensures
        process::shell_count(children) == 1,
    decreases children.len(),
{
    let front = children.drop_last();
    let last = children.len() - 1;
    assert(children.last() == children[last]);
    assert forall|k: int| 0 <= k < front.len() && k != i implies !is_shell_somewhere(
        #[trigger] front[k],
    ) by {
        assert(front[k] == children[k]);
    }
    if i < last {
        assert(front[i] == children[i]);
        lemma_one_shell(front, i);
    } else {
        lemma_no_shell(front);
    }
}

/// A terminal's shell is the only shell below it; with two of them, or with
/// none, nothing tells which process belongs to the window.
pub proof fn law_only_shell_is_taken(below: Seq<ChildProcessView>, i: int, j: int)
    ensures
        0 <= i < below.len() && is_shell_somewhere(below[i]) && (forall|k: int|
            0 <= k < below.len() && k != i ==> !is_shell_somewhere(#[trigger] below[k])) ==> ({
            let shell = process::terminal_shell(below);
            shell is Some && is_shell_somewhere(shell->0) && shell->0 == below[i]
        }),
        0 <= i < j < below.len() && is_shell_somewhere(below[i]) && is_shell_somewhere(below[j])
            ==> process::terminal_shell(below) is None,
        (forall|k: int| 0 <= k < below.len() ==> !is_shell_somewhere(#[trigger] below[k]))
            ==> process::terminal_shell(below) is None,
{
    process::law_terminal_shell_is_the_only_shell(below);
    process::law_preferred_is_best(below);
    if 0 <= i < below.len() && is_shell_somewhere(below[i]) && (forall|k: int|
        0 <= k < below.len() && k != i ==> !is_shell_somewhere(#[trigger] below[k])) {
        lemma_one_shell(below, i);
        let best = process::preferred(below)->0;
        assert(process::terminal_shell(below) == Some(below[best]));
        assert(is_shell_somewhere(below[best]));
        assert(best == i);
    }
    if 0 <= i < j < below.len() && is_shell_somewhere(below[i]) && is_shell_somewhere(below[j]) {
        lemma_two_shells(below, i, j);
    }
    if forall|k: int| 0 <= k < below.len() ==> !is_shell_somewhere(#[trigger] below[k]) {
        lemma_no_shell(below);
    }
}

/// A search reads the command line that it knows of a process, and asks for
/// that of the first; where it gets no answer, or not all children, it is
/// incomplete.
pub proof fn law_search_reads_each_process(walk: ProfileWalkView, answer: ProfileAnswer)
    requires
        walk.queue.len() > 0,
        answer.children is Ok,
        answer.children->Ok_0@.len() == 0,
    ensures
        ({
            let after = process::search_step(walk, answer);
            let rest = walk.queue.drop_first();
            let popped = ProfileWalkView { queue: rest, ..walk };
            &&& after.queue == rest
            &&& walk.queue[0].1 is Some ==> after.profiles == process::search_reads(
                popped,
                walk.queue[0].1->0,
            ).profiles
            &&& walk.queue[0].1 is None && answer.cmdline is Ok ==> after.profiles
                == process::search_reads(popped, answer.cmdline->Ok_0@).profiles
            &&& walk.queue[0].1 is None && answer.cmdline is Err ==> !after.complete
                && after.profiles == walk.profiles
        }),
{
    let list = answer.children->Ok_0;
    assert(list.deep_view() =~= Seq::<ChildProcessView>::empty());
    assert(process::by_pid(list.deep_view()) =~= Seq::<ChildProcessView>::empty());
}

/// Children that could not be listed leave a search incomplete, and what a
/// search tells in the end is whether it was complete and what it found.
pub proof fn law_searches_tell_whether_they_were_complete(
    walk: ProfileWalkView,
    answer: ProfileAnswer,
)
    requires
        walk.queue.len() > 0,
    ensures
        answer.children is Err ==> !process::search_step(walk, answer).complete,
        process::discovered(walk).complete == walk.complete,
        process::discovered(walk).profiles.len() == walk.profiles.len(),
{
    law_profiles_are_told_in_order(walk.profiles);
}

} // verus!
