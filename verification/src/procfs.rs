//! Reading what the kernel tells about processes.

use crate::process::{ChildProcess, ChildProcessView};
use crate::text;
use vstd::prelude::*;
use vstd::utf8;

verus! {

// ── Start times ────────────────────────────────────────────────────────────

/// The place of the start time among the fields behind the name.
pub const START_TIME_FIELD: usize = 19;

/// The start time that a status line tells.  The name of the process stands in
/// parentheses and may hold anything, so the fields count from the last
/// closing one.
pub open spec fn start_time_in(stat: Seq<char>) -> Option<nat> {
    match text::split_at_last(stat, ')') {
        None => None,
        Some((_, fields)) => if text::words(fields).len() > START_TIME_FIELD {
            text::number_up_to(text::words(fields)[START_TIME_FIELD as int], u64::MAX as int)
        } else {
            None
        },
    }
}

/// Reads the start time from a status line.
pub fn parse_start_time(stat: &str) -> (r: Option<u64>)
    ensures
        match r {
            Some(time) => start_time_in(stat@) == Some(time as nat),
            None => start_time_in(stat@) is None,
        },
{
    let (_, fields) = match text::rsplit_once(stat, ')') {
        Some(parts) => parts,
        None => {
            return None;
        },
    };
    let words = text::split_words(fields.as_str());
    assert(words.deep_view().len() == words.len());
    if words.len() <= START_TIME_FIELD {
        return None;
    }
    assert(words.deep_view()[START_TIME_FIELD as int] == words[START_TIME_FIELD as int]@);
    text::parse_u64(words[START_TIME_FIELD].as_str())
}

// ── Children ───────────────────────────────────────────────────────────────

/// The numbers that words stand for; nothing where one is no process number.
pub open spec fn pids_of(words: Seq<Seq<char>>) -> Option<Seq<u32>>
    decreases words.len(),
{
    if words.len() == 0 {
        Some(Seq::empty())
    } else {
        match (pids_of(words.drop_last()), text::number_up_to(words.last(), u32::MAX as int)) {
            (Some(before), Some(n)) => Some(before.push(n as u32)),
            _ => None,
        }
    }
}

proof fn lemma_bad_word(words: Seq<Seq<char>>, n: int)
    requires
        0 <= n <= words.len(),
        pids_of(words.take(n)) is None,
    ensures
        pids_of(words) is None,
    decreases words.len() - n,
{
    if n < words.len() {
        assert(words.take(n + 1).drop_last() =~= words.take(n));
        lemma_bad_word(words, n + 1);
    } else {
        assert(words.take(n) =~= words);
    }
}

/// The process numbers in an optional list.
pub open spec fn list_of(pids: Option<Vec<u32>>) -> Option<Seq<u32>> {
    match pids {
        Some(list) => Some(list@),
        None => None,
    }
}

/// Reads the children that a thread lists.
pub fn parse_child_pids(content: &str) -> (r: Option<Vec<u32>>)
    ensures
        list_of(r) == pids_of(text::words(content@)),
{
    let words = text::split_words(content);
    let ghost all = words.deep_view();
    let mut out: Vec<u32> = Vec::new();
    let mut i: usize = 0;
    assert(all.take(0) =~= Seq::<Seq<char>>::empty());
    assert(out@ =~= Seq::<u32>::empty());
    while i < words.len()
        invariant
            i <= words.len(),
            all == words.deep_view(),
            all == text::words(content@),
            pids_of(all.take(i as int)) == Some(out@),
        decreases words.len() - i,
    {
        assert(all[i as int] == words[i as int]@);
        assert(all.take(i + 1).drop_last() =~= all.take(i as int));
        assert(all.take(i + 1).last() == all[i as int]);
        match text::parse_u64(words[i].as_str()) {
            Some(n) => {
                if n > u32::MAX as u64 {
                    proof {
                        lemma_bad_word(all, i + 1);
                    }
                    return None;
                }
                out.push(n as u32);
            },
            None => {
                proof {
                    lemma_bad_word(all, i + 1);
                }
                return None;
            },
        }
        i += 1;
    }
    assert(all.take(i as int) =~= all);
    Some(out)
}

/// The first place, from `i` on, at which a child may stand.
pub open spec fn child_place(s: Seq<ChildProcessView>, pid: u32, i: int) -> int
    decreases s.len() - i,
{
    if i < 0 || i >= s.len() || s[i].pid >= pid {
        i
    } else {
        child_place(s, pid, i + 1)
    }
}

/// Children with one more; a child that was listed before is told anew.
pub open spec fn with_child(s: Seq<ChildProcessView>, child: ChildProcessView) -> Seq<
    ChildProcessView,
> {
    let i = child_place(s, child.pid, 0);
    if i < s.len() && s[i].pid == child.pid {
        s.update(i, child)
    } else {
        s.insert(i, child)
    }
}

/// The children that the threads of a process list, each once, in the order of
/// their numbers.
pub open spec fn gathered(s: Seq<ChildProcessView>) -> Seq<ChildProcessView>
    decreases s.len(),
{
    if s.len() == 0 {
        s
    } else {
        with_child(gathered(s.drop_last()), s.last())
    }
}

/// The children of a process are in order and listed once.
pub proof fn law_children_are_listed_once(s: Seq<ChildProcessView>)
    ensures
        forall|i: int, j: int|
            0 <= i < j < gathered(s).len() ==> (#[trigger] gathered(s)[i]).pid
                < (#[trigger] gathered(s)[j]).pid,
    decreases s.len(),
{
    if s.len() > 0 {
        law_children_are_listed_once(s.drop_last());
        lemma_child_place(gathered(s.drop_last()), s.last().pid, 0);
    }
}

proof fn lemma_child_place(s: Seq<ChildProcessView>, pid: u32, i: int)
    requires
        0 <= i <= s.len(),
    ensures
        i <= child_place(s, pid, i) <= s.len(),
        forall|k: int| i <= k < child_place(s, pid, i) ==> (#[trigger] s[k]).pid < pid,
        child_place(s, pid, i) < s.len() ==> s[child_place(s, pid, i)].pid >= pid,
    decreases s.len() - i,
{
    if i < s.len() && s[i].pid < pid {
        lemma_child_place(s, pid, i + 1);
    }
}

/// Puts together the children that the threads of a process list.
pub fn gather_children(listed: &Vec<ChildProcess>) -> (r: Vec<ChildProcess>)
    ensures
        r.deep_view() == gathered(listed.deep_view()),
{
    let ghost all = listed.deep_view();
    let mut out: Vec<ChildProcess> = Vec::new();
    let mut n: usize = 0;
    assert(all.take(0) =~= Seq::<ChildProcessView>::empty());
    assert(out.deep_view() =~= Seq::<ChildProcessView>::empty());
    while n < listed.len()
        invariant
            n <= listed.len(),
            all == listed.deep_view(),
            out.deep_view() == gathered(all.take(n as int)),
        decreases listed.len() - n,
    {
        let child = &listed[n];
        assert(all[n as int] == child@);
        assert(all.take(n + 1).drop_last() =~= all.take(n as int));
        assert(all.take(n + 1).last() == all[n as int]);
        let ghost before = out.deep_view();
        let mut i: usize = 0;
        while i < out.len() && out[i].pid < child.pid
            invariant
                i <= out.len(),
                before == out.deep_view(),
                child_place(before, child@.pid, 0) == child_place(before, child@.pid, i as int),
            decreases out.len() - i,
        {
            assert(before[i as int] == out[i as int]@);
            i += 1;
        }
        assert(child_place(before, child@.pid, i as int) == i) by {
            if i < out.len() {
                assert(before[i as int] == out[i as int]@);
            }
        }
        let copy = child.clone();
        if i < out.len() && out[i].pid == child.pid {
            assert(before[i as int] == out[i as int]@);
            out.set(i, copy);
            assert(out.deep_view() =~= before.update(i as int, child@));
        } else {
            assert(i < out.len() ==> before[i as int] == out[i as int]@);
            out.insert(i, copy);
            assert(out.deep_view() =~= before.insert(i as int, child@));
        }
        n += 1;
    }
    assert(all.take(n as int) =~= all);
    out
}

// ── Command lines ──────────────────────────────────────────────────────────

/// Calls `std::str::from_utf8` and copies the text: the bytes are decoded
/// where they are UTF-8, and nothing comes back where they are not.
#[verifier::external_body]
fn decode(bytes: &[u8]) -> (r: Option<String>)
    ensures
        match r {
            Some(s) => utf8::valid_utf8(bytes@) && s@ == utf8::decode_utf8(bytes@),
            None => !utf8::valid_utf8(bytes@),
        },
{
    std::str::from_utf8(bytes).ok().map(|s| s.to_owned())
}

/// The place of the first zero, from `i` on, or the end.
pub open spec fn zero_from(bytes: Seq<u8>, i: int) -> int
    decreases bytes.len() - i,
{
    if i < 0 || i >= bytes.len() || bytes[i] == 0 {
        i
    } else {
        zero_from(bytes, i + 1)
    }
}

pub proof fn lemma_zero_from(bytes: Seq<u8>, i: int)
    requires
        0 <= i <= bytes.len(),
    ensures
        i <= zero_from(bytes, i) <= bytes.len(),
    decreases bytes.len() - i,
{
    if i < bytes.len() && bytes[i] != 0 {
        lemma_zero_from(bytes, i + 1);
    }
}

/// The argument that some bytes hold, if they hold any.
pub open spec fn argument_in(bytes: Seq<u8>) -> Seq<Seq<char>> {
    if utf8::valid_utf8(bytes) && utf8::decode_utf8(bytes).len() > 0 {
        seq![utf8::decode_utf8(bytes)]
    } else {
        Seq::empty()
    }
}

/// The arguments from place `i` on.  Zeros end them; what is empty or no text
/// is left out.
pub open spec fn arguments_from(bytes: Seq<u8>, i: int) -> Seq<Seq<char>>
    decreases bytes.len() - i,
    via arguments_end
{
    if i < 0 || i >= bytes.len() {
        Seq::empty()
    } else {
        let end = zero_from(bytes, i);
        if end < bytes.len() {
            argument_in(bytes.subrange(i, end)) + arguments_from(bytes, end + 1)
        } else {
            argument_in(bytes.subrange(i, end))
        }
    }
}

#[via_fn]
proof fn arguments_end(bytes: Seq<u8>, i: int) {
    if 0 <= i < bytes.len() {
        lemma_zero_from(bytes, i);
    }
}

/// The command line that the kernel tells.
pub open spec fn cmdline_in(bytes: Seq<u8>) -> Seq<char> {
    text::joined(arguments_from(bytes, 0), " "@)
}

/// Reads the command line that the kernel tells; it is empty where nothing is
/// told.
pub fn parse_cmdline(bytes: &[u8]) -> (r: String)
    ensures
        r@ == cmdline_in(bytes@),
{
    let ghost all = arguments_from(bytes@, 0);
    let mut out: Vec<String> = Vec::new();
    let mut i: usize = 0;
    assert(out.deep_view() =~= Seq::<Seq<char>>::empty());
    assert(Seq::<Seq<char>>::empty() + all =~= all);
    while i < bytes.len()
        invariant
            all == arguments_from(bytes@, 0),
            out.deep_view() + arguments_from(bytes@, i as int) == all,
        decreases bytes.len() - i,
    {
        let mut end: usize = i;
        while end < bytes.len() && bytes[end] != 0
            invariant
                i <= end <= bytes.len(),
                zero_from(bytes@, i as int) == zero_from(bytes@, end as int),
            decreases bytes.len() - end,
        {
            end += 1;
        }
        assert(zero_from(bytes@, i as int) == end);
        let piece = vstd::slice::slice_subrange(bytes, i, end);
        let ghost before = out.deep_view();
        let ghost rest = if end < bytes.len() {
            arguments_from(bytes@, end + 1)
        } else {
            Seq::empty()
        };
        let ghost found = argument_in(bytes@.subrange(i as int, end as int));
        assert(arguments_from(bytes@, i as int) =~= found + rest);
        assert(before + (found + rest) =~= (before + found) + rest);
        if let Some(argument) = decode(piece) {
            if !argument.as_str().is_empty() {
                out.push(argument);
                assert(out.deep_view() =~= before.push(argument@));
            }
        }
        assert(out.deep_view() =~= before + found);
        if end >= bytes.len() {
            assert(out.deep_view() + rest =~= out.deep_view());
            return text::join(&out, " ");
        }
        i = end + 1;
    }
    assert(out.deep_view() + Seq::<Seq<char>>::empty() =~= out.deep_view());
    text::join(&out, " ")
}

} // verus!
