//! Inspect process trees used for terminal and browser identity.

use crate::hungarian;
use crate::paths;
use crate::text;
use vstd::prelude::*;

verus! {

/// Errors returned while inspecting a process or its descendants.
#[derive(Debug)]
pub enum ProcessError {
    /// The requested process no longer exists or is not visible.
    NotFound(u32),
    /// Process metadata could not be read.
    IoError(String),
}

/// What an error tells the user.
pub open spec fn error_message(error: ProcessError) -> Seq<char> {
    match error {
        ProcessError::NotFound(pid) => "process "@ + text::decimal(pid as int) + " not found"@,
        ProcessError::IoError(reason) => "IO error: "@ + reason@,
    }
}

impl ProcessError {
    /// What the error tells the user.
    pub fn message(&self) -> (r: String)
        ensures
            r@ == error_message(*self),
    {
        match self {
            ProcessError::NotFound(pid) => {
                let number = text::number_text(*pid as i64);
                "process ".to_owned().concat(number.as_str()).concat(" not found")
            },
            ProcessError::IoError(reason) => "IO error: ".to_owned().concat(reason.as_str()),
        }
    }
}

/// Process metadata used to identify terminal shells and browser instances.
#[derive(Debug)]
pub struct ChildProcess {
    /// Process ID.
    pub pid: u32,
    /// Current working directory, empty when it is not available.
    pub cwd: String,
    /// Space-separated process command line.
    pub cmdline: String,
}

#[verifier::ext_equal]
pub ghost struct ChildProcessView {
    pub pid: u32,
    pub cwd: Seq<char>,
    pub cmdline: Seq<char>,
}

impl View for ChildProcess {
    type V = ChildProcessView;

    open spec fn view(&self) -> ChildProcessView {
        ChildProcessView { pid: self.pid, cwd: self.cwd@, cmdline: self.cmdline@ }
    }
}

impl DeepView for ChildProcess {
    type V = ChildProcessView;

    open spec fn deep_view(&self) -> ChildProcessView {
        self@
    }
}

impl Clone for ChildProcess {
    fn clone(&self) -> (r: Self)
        ensures
            r@ == self@,
    {
        ChildProcess { pid: self.pid, cwd: self.cwd.clone(), cmdline: self.cmdline.clone() }
    }
}

/// The profile flags found while walking a Chromium process tree, together
/// with whether every process lookup needed for that conclusion succeeded.
///
/// An empty profile list is only evidence of the normal `Default` profile when
/// the walk completed; an incomplete walk could simply have missed a flag.
#[derive(Debug, PartialEq, Eq)]
pub struct ProfileDiscovery {
    /// Distinct browser profile directories found in the process tree.
    pub profiles: Vec<String>,
    /// Whether every process lookup needed for the result succeeded.
    pub complete: bool,
}

#[verifier::ext_equal]
pub ghost struct ProfileDiscoveryView {
    pub profiles: Seq<Seq<char>>,
    pub complete: bool,
}

impl View for ProfileDiscovery {
    type V = ProfileDiscoveryView;

    open spec fn view(&self) -> ProfileDiscoveryView {
        ProfileDiscoveryView { profiles: self.profiles.deep_view(), complete: self.complete }
    }
}

// ── Order by process ID ────────────────────────────────────────────────────

/// The place behind the last of the first `i` processes with no larger ID.
pub open spec fn place_for(s: Seq<ChildProcessView>, pid: u32, i: int) -> int
    decreases i,
{
    if i <= 0 {
        0
    } else if s[i - 1].pid > pid {
        place_for(s, pid, i - 1)
    } else {
        i
    }
}

/// The processes by ascending ID; those with the same ID keep their order.
pub open spec fn by_pid(s: Seq<ChildProcessView>) -> Seq<ChildProcessView>
    decreases s.len(),
{
    if s.len() == 0 {
        s
    } else {
        let rest = by_pid(s.drop_last());
        rest.insert(place_for(rest, s.last().pid, rest.len() as int), s.last())
    }
}

/// Processes by ascending ID.
pub open spec fn is_by_pid(s: Seq<ChildProcessView>) -> bool {
    forall|i: int, j: int| 0 <= i <= j < s.len() ==> (#[trigger] s[i]).pid <= (#[trigger] s[j]).pid
}

proof fn lemma_place_for(s: Seq<ChildProcessView>, pid: u32, i: int)
    requires
        0 <= i <= s.len(),
        is_by_pid(s),
        forall|k: int| i <= k < s.len() ==> (#[trigger] s[k]).pid > pid,
    ensures
        0 <= place_for(s, pid, i) <= i,
        forall|k: int| 0 <= k < place_for(s, pid, i) ==> (#[trigger] s[k]).pid <= pid,
        forall|k: int| place_for(s, pid, i) <= k < s.len() ==> (#[trigger] s[k]).pid > pid,
    decreases i,
{
    if i > 0 && s[i - 1].pid > pid {
        lemma_place_for(s, pid, i - 1);
    }
}

/// Ordering processes keeps each of them and brings their IDs into ascending
/// order.
pub proof fn law_by_pid_orders(s: Seq<ChildProcessView>)
    ensures
        is_by_pid(by_pid(s)),
        by_pid(s).len() == s.len(),
        by_pid(s).to_multiset() == s.to_multiset(),
    decreases s.len(),
{
    if s.len() > 0 {
        let rest = by_pid(s.drop_last());
        law_by_pid_orders(s.drop_last());
        let at = place_for(rest, s.last().pid, rest.len() as int);
        lemma_place_for(rest, s.last().pid, rest.len() as int);
        let out = rest.insert(at, s.last());
        assert forall|i: int, j: int| 0 <= i <= j < out.len() implies (#[trigger] out[i]).pid <= (
        #[trigger] out[j]).pid by {
            let i0 = if i < at { i } else { i - 1 };
            let j0 = if j < at { j } else { j - 1 };
            if i != at {
                assert(out[i] == rest[i0]);
            }
            if j != at {
                assert(out[j] == rest[j0]);
            }
        }
        broadcast use vstd::seq_lib::group_to_multiset_ensures;

        assert(rest.insert(at, s.last()).to_multiset() =~= rest.to_multiset().insert(s.last()));
        assert(s =~= s.drop_last().push(s.last()));
        assert(s.to_multiset() =~= s.drop_last().to_multiset().insert(s.last()));
    }
}

fn sort_by_pid(children: Vec<ChildProcess>) -> (r: Vec<ChildProcess>)
    ensures
        r.deep_view() == by_pid(children.deep_view()),
{
    let ghost all = children.deep_view();
    let mut out: Vec<ChildProcess> = Vec::new();
    let mut i: usize = 0;
    assert(out.deep_view() =~= by_pid(all.take(0)));
    while i < children.len()
        invariant
            i <= children.len(),
            all == children.deep_view(),
            out.deep_view() == by_pid(all.take(i as int)),
        decreases children.len() - i,
    {
        let child = children[i].clone();
        let ghost rest = out.deep_view();
        let mut at: usize = out.len();
        while at > 0 && out[at - 1].pid > child.pid
            invariant
                at <= out.len(),
                rest == out.deep_view(),
                place_for(rest, child.pid, rest.len() as int) == place_for(
                    rest,
                    child.pid,
                    at as int,
                ),
            decreases at,
        {
            at -= 1;
        }
        let ghost view = child@;
        out.insert(at, child);
        proof {
            assert(out.deep_view() =~= rest.insert(at as int, view));
            assert(all.take(i + 1).drop_last() =~= all.take(i as int));
            assert(all.take(i + 1).last() == view);
        }
        i += 1;
    }
    assert(all.take(all.len() as int) =~= all);
    out
}

// ── Walking a process tree ─────────────────────────────────────────────────

/// A walk through a process tree, breadth first.
#[derive(Debug)]
pub struct TreeWalk {
    queue: Vec<u32>,
    visited: Vec<u32>,
    found: Vec<ChildProcess>,
}

/// How far a walk has come.
#[verifier::ext_equal]
pub ghost struct TreeWalkView {
    /// Processes whose children are still to be asked for.
    pub queue: Seq<u32>,
    /// Processes that were met.
    pub visited: Seq<u32>,
    /// Processes that were met below the first.
    pub found: Seq<ChildProcessView>,
}

impl View for TreeWalk {
    type V = TreeWalkView;

    closed spec fn view(&self) -> TreeWalkView {
        TreeWalkView {
            queue: self.queue@,
            visited: self.visited@,
            found: self.found.deep_view(),
        }
    }
}

/// The walk that has met one process.
pub open spec fn walk_start(pid: u32) -> TreeWalkView {
    TreeWalkView { queue: seq![pid], visited: seq![pid], found: seq![] }
}

/// The walk after meeting some children in turn; one that was met before
/// changes nothing.
pub open spec fn walk_meets(walk: TreeWalkView, children: Seq<ChildProcessView>) -> TreeWalkView
    decreases children.len(),
{
    if children.len() == 0 {
        walk
    } else {
        let before = walk_meets(walk, children.drop_last());
        let child = children.last();
        if before.visited.contains(child.pid) {
            before
        } else {
            TreeWalkView {
                queue: before.queue.push(child.pid),
                visited: before.visited.push(child.pid),
                found: before.found.push(child),
            }
        }
    }
}

/// The walk after the children of its next process are known.
pub open spec fn walk_step(walk: TreeWalkView, children: Seq<ChildProcessView>) -> TreeWalkView {
    walk_meets(
        TreeWalkView { queue: walk.queue.drop_first(), ..walk },
        by_pid(children),
    )
}

/// The walk after a number of answers.
pub open spec fn walk_run(pid: u32, answers: Seq<Seq<ChildProcessView>>) -> TreeWalkView
    decreases answers.len(),
{
    if answers.len() == 0 {
        walk_start(pid)
    } else {
        walk_step(walk_run(pid, answers.drop_last()), answers.last())
    }
}

/// Each process is met once, the first of them first.
pub open spec fn walk_is_orderly(walk: TreeWalkView) -> bool {
    &&& walk.visited.no_duplicates()
    &&& walk.visited.len() == walk.found.len() + 1
    &&& forall|i: int|
        0 <= i < walk.found.len() ==> (#[trigger] walk.found[i]).pid == walk.visited[i + 1]
}

proof fn lemma_meets_orderly(walk: TreeWalkView, children: Seq<ChildProcessView>)
    requires
        walk_is_orderly(walk),
    ensures
        walk_is_orderly(walk_meets(walk, children)),
        walk_meets(walk, children).visited.len() - walk.visited.len() == walk_meets(
            walk,
            children,
        ).queue.len() - walk.queue.len(),
        walk_meets(walk, children).visited.len() >= walk.visited.len(),
        walk_meets(walk, children).visited[0] == walk.visited[0],
    decreases children.len(),
{
    if children.len() > 0 {
        lemma_meets_orderly(walk, children.drop_last());
    }
}

/// A walk meets each process once and never its first process again.
pub proof fn law_walk_meets_each_process_once(pid: u32, answers: Seq<Seq<ChildProcessView>>)
    ensures
        walk_is_orderly(walk_run(pid, answers)),
        walk_run(pid, answers).visited[0] == pid,
    decreases answers.len(),
{
    if answers.len() > 0 {
        law_walk_meets_each_process_once(pid, answers.drop_last());
        let before = walk_run(pid, answers.drop_last());
        lemma_meets_orderly(
            TreeWalkView { queue: before.queue.drop_first(), ..before },
            by_pid(answers.last()),
        );
    }
}

/// There are no more process IDs than numbers of 32 bits.
proof fn lemma_visited_limit(visited: Seq<u32>)
    requires
        visited.no_duplicates(),
    ensures
        visited.len() <= 0x1_0000_0000,
{
    let s = visited.map_values(|p: u32| p as int);
    assert(s.no_duplicates()) by {
        assert forall|i: int, j: int| 0 <= i < s.len() && 0 <= j < s.len() && i != j implies s[i]
            != s[j] by {
            assert(visited[i] != visited[j]);
        }
    }
    hungarian::lemma_pigeonhole(s, 0x1_0000_0000);
}

fn contains_pid(pids: &Vec<u32>, pid: u32) -> (r: bool)
    ensures
        r == pids@.contains(pid),
{
    let mut i: usize = 0;
    while i < pids.len()
        invariant
            i <= pids.len(),
            forall|k: int| 0 <= k < i ==> pids[k] != pid,
        decreases pids.len() - i,
    {
        if pids[i] == pid {
            assert(pids@[i as int] == pid);
            return true;
        }
        i += 1;
    }
    false
}

impl TreeWalk {
    /// Starts a walk at a process.
    pub fn new(pid: u32) -> (r: Self)
        ensures
            r@ == walk_start(pid),
    {
        let mut queue: Vec<u32> = Vec::new();
        queue.push(pid);
        let mut visited: Vec<u32> = Vec::new();
        visited.push(pid);
        let r = TreeWalk { queue, visited, found: Vec::new() };
        assert(r@.queue =~= seq![pid]);
        assert(r@.visited =~= seq![pid]);
        assert(r@.found =~= seq![]);
        r
    }

    /// The process whose children the walk asks for next.
    pub fn next_pid(&self) -> (r: Option<u32>)
        ensures
            r == if self@.queue.len() > 0 {
                Some(self@.queue[0])
            } else {
                None
            },
    {
        if self.queue.len() > 0 {
            Some(self.queue[0])
        } else {
            None
        }
    }

    /// Goes on with the children of the next process.
    pub fn answer(&mut self, children: Vec<ChildProcess>)
        requires
            old(self)@.queue.len() > 0,
        ensures
            final(self)@ == walk_step(old(self)@, children.deep_view()),
    {
        let ghost before = self@;
        let sorted = sort_by_pid(children);
        let ghost all = sorted.deep_view();
        self.queue.remove(0);
        let ghost popped = TreeWalkView { queue: before.queue.drop_first(), ..before };
        assert(self@ =~= popped);
        let mut i: usize = 0;
        assert(all.take(0) =~= Seq::<ChildProcessView>::empty());
        while i < sorted.len()
            invariant
                i <= sorted.len(),
                all == sorted.deep_view(),
                self@ == walk_meets(popped, all.take(i as int)),
            decreases sorted.len() - i,
        {
            let child = sorted[i].clone();
            proof {
                assert(all.take(i + 1).drop_last() =~= all.take(i as int));
                assert(all.take(i + 1).last() == child@);
            }
            if !contains_pid(&self.visited, child.pid) {
                let ghost w = self@;
                let ghost c = child@;
                self.queue.push(child.pid);
                self.visited.push(child.pid);
                self.found.push(child);
                assert(self@ =~= TreeWalkView {
                    queue: w.queue.push(c.pid),
                    visited: w.visited.push(c.pid),
                    found: w.found.push(c),
                });
            }
            i += 1;
        }
        assert(all.take(all.len() as int) =~= all);
    }

    /// The processes that were met below the first, by ascending ID.
    pub fn descendants(self) -> (r: Vec<ChildProcess>)
        ensures
            r.deep_view() == by_pid(self@.found),
    {
        sort_by_pid(self.found)
    }
}

/// Tells whether a process ID is among those of some processes.
pub open spec fn has_pid(children: Seq<ChildProcessView>, pid: u32) -> bool {
    exists|i: int| 0 <= i < children.len() && (#[trigger] children[i]).pid == pid
}

fn lists_pid(children: &Vec<ChildProcess>, pid: u32) -> (r: bool)
    ensures
        r == has_pid(children.deep_view(), pid),
{
    let ghost all = children.deep_view();
    let mut i: usize = 0;
    while i < children.len()
        invariant
            i <= children.len(),
            all == children.deep_view(),
            forall|k: int| 0 <= k < i ==> (#[trigger] all[k]).pid != pid,
        decreases children.len() - i,
    {
        assert(all[i as int] == children[i as int]@);
        if children[i].pid == pid {
            return true;
        }
        i += 1;
    }
    false
}

/// The children in an answer; a failed one gives none.
pub open spec fn children_in(answer: Result<Vec<ChildProcess>, ProcessError>) -> Seq<
    ChildProcessView,
> {
    match answer {
        Ok(list) => list.deep_view(),
        Err(_) => seq![],
    }
}

/// The children in some answers.
pub open spec fn children_in_all(
    answers: Seq<Result<Vec<ChildProcess>, ProcessError>>,
) -> Seq<Seq<ChildProcessView>> {
    answers.map_values(|a: Result<Vec<ChildProcess>, ProcessError>| children_in(a))
}

/// The answer at place `k` may be given for the process that the walk asks for
/// there.
pub open spec fn answer_fits(
    gives: spec_fn(u32, Result<Vec<ChildProcess>, ProcessError>) -> bool,
    pid: u32,
    answers: Seq<Result<Vec<ChildProcess>, ProcessError>>,
    k: int,
) -> bool {
    let walk = walk_run(pid, children_in_all(answers.take(k)));
    walk.queue.len() > 0 && gives(walk.queue[0], answers[k])
}

/// The answers that the walk from a process gets, when `gives` tells what may
/// be answered for a process.
pub open spec fn answered(
    gives: spec_fn(u32, Result<Vec<ChildProcess>, ProcessError>) -> bool,
    pid: u32,
    answers: Seq<Result<Vec<ChildProcess>, ProcessError>>,
) -> bool {
    forall|k: int|
        0 <= k < answers.len() ==> #[trigger] answer_fits(gives, pid, answers, k)
}

/// The outcome of a walk through all descendants: the answers lead to its
/// end, or the next one is an error.
pub open spec fn is_walk_outcome(
    gives: spec_fn(u32, Result<Vec<ChildProcess>, ProcessError>) -> bool,
    pid: u32,
    answers: Seq<Result<Vec<ChildProcess>, ProcessError>>,
    r: Result<Vec<ChildProcess>, ProcessError>,
) -> bool {
    let walk = walk_run(pid, children_in_all(answers));
    &&& answered(gives, pid, answers)
    &&& forall|k: int| 0 <= k < answers.len() ==> #[trigger] answers[k] is Ok
    &&& match r {
        Ok(list) => walk.queue.len() == 0 && list.deep_view() == by_pid(walk.found),
        Err(_) => walk.queue.len() > 0 && gives(walk.queue[0], r),
    }
}

/// Some answers lead to the outcome of a walk.
pub open spec fn comes_of_a_walk(
    gives: spec_fn(u32, Result<Vec<ChildProcess>, ProcessError>) -> bool,
    pid: u32,
    r: Result<Vec<ChildProcess>, ProcessError>,
) -> bool {
    exists|answers: Seq<Result<Vec<ChildProcess>, ProcessError>>| #[trigger]
        is_walk_outcome(gives, pid, answers, r)
}

/// No answer names a process.
pub open spec fn never_named(
    answers: Seq<Result<Vec<ChildProcess>, ProcessError>>,
    candidate: u32,
) -> bool {
    forall|k: int|
        0 <= k < answers.len() ==> !has_pid(children_in(#[trigger] answers[k]), candidate)
}

/// The outcome of looking for a process below another, failed lookups passed
/// over: it is named in the last answer and in none before, or the walk ends
/// without it.
pub open spec fn is_search_outcome(
    gives: spec_fn(u32, Result<Vec<ChildProcess>, ProcessError>) -> bool,
    pid: u32,
    candidate: u32,
    answers: Seq<Result<Vec<ChildProcess>, ProcessError>>,
    found: bool,
) -> bool {
    &&& answered(gives, pid, answers)
    &&& if found {
        &&& answers.len() > 0
        &&& has_pid(children_in(answers.last()), candidate)
        &&& never_named(answers.drop_last(), candidate)
    } else {
        &&& walk_run(pid, children_in_all(answers)).queue.len() == 0
        &&& never_named(answers, candidate)
    }
}

/// Some answers lead to the outcome of a search.
pub open spec fn comes_of_a_search(
    gives: spec_fn(u32, Result<Vec<ChildProcess>, ProcessError>) -> bool,
    pid: u32,
    candidate: u32,
    found: bool,
) -> bool {
    exists|answers: Seq<Result<Vec<ChildProcess>, ProcessError>>| #[trigger]
        is_search_outcome(gives, pid, candidate, answers, found)
}

/// What is left of a walk: the processes to ask for, and those that may still
/// turn up.
spec fn walk_left(walk: TreeWalkView) -> int {
    0x1_0000_0000 - walk.visited.len() + walk.queue.len()
}

/// One more answer that may be given.
proof fn lemma_answered_grows(
    gives: spec_fn(u32, Result<Vec<ChildProcess>, ProcessError>) -> bool,
    pid: u32,
    answers: Seq<Result<Vec<ChildProcess>, ProcessError>>,
    answer: Result<Vec<ChildProcess>, ProcessError>,
)
    requires
        answered(gives, pid, answers),
        walk_run(pid, children_in_all(answers)).queue.len() > 0,
        gives(walk_run(pid, children_in_all(answers)).queue[0], answer),
    ensures
        answered(gives, pid, answers.push(answer)),
{
    let longer = answers.push(answer);
    assert forall|k: int| 0 <= k < longer.len() implies #[trigger] answer_fits(
        gives,
        pid,
        longer,
        k,
    ) by {
        if k < answers.len() {
            assert(answer_fits(gives, pid, answers, k));
            assert(longer.take(k) =~= answers.take(k));
            assert(longer[k] == answers[k]);
        } else {
            assert(longer.take(k) =~= answers);
        }
    }
}

/// A step brings a walk nearer to its end.
proof fn lemma_walk_step(walk: TreeWalkView, children: Seq<ChildProcessView>)
    requires
        walk_is_orderly(walk),
        walk.queue.len() > 0,
    ensures
        0 <= walk_left(walk_step(walk, children)),
        walk_left(walk_step(walk, children)) < walk_left(walk),
{
    lemma_meets_orderly(
        TreeWalkView { queue: walk.queue.drop_first(), ..walk },
        by_pid(children),
    );
    lemma_visited_limit(walk_step(walk, children).visited);
}

/// The walk after one more answer.
proof fn lemma_walk_answer(
    pid: u32,
    answers: Seq<Result<Vec<ChildProcess>, ProcessError>>,
    answer: Result<Vec<ChildProcess>, ProcessError>,
)
    requires
        walk_run(pid, children_in_all(answers)).queue.len() > 0,
    ensures
        walk_run(pid, children_in_all(answers.push(answer))) == walk_step(
            walk_run(pid, children_in_all(answers)),
            children_in(answer),
        ),
        0 <= walk_left(walk_run(pid, children_in_all(answers.push(answer)))),
        walk_left(walk_run(pid, children_in_all(answers.push(answer)))) < walk_left(
            walk_run(pid, children_in_all(answers)),
        ),
{
    let longer = children_in_all(answers.push(answer));
    assert(longer.drop_last() =~= children_in_all(answers));
    assert(longer.last() == children_in(answer));
    law_walk_meets_each_process_once(pid, children_in_all(answers));
    lemma_walk_step(walk_run(pid, children_in_all(answers)), children_in(answer));
}

/// Provider for process metadata used during capture and restore.
pub trait ProcessInfoProvider {
    /// Return the current working directory for `pid`.
    fn get_cwd(&self, pid: u32) -> Result<String, ProcessError>;

    /// Return direct child processes for `pid`.
    fn get_children(&self, pid: u32) -> Result<Vec<ChildProcess>, ProcessError>;

    /// Return all descendants in deterministic PID order.  Process trees can
    /// contain wrappers, multiplexers, and helper processes between a
    /// terminal and its interactive shell, so callers should not assume that
    /// the shell is an immediate child.
    fn get_descendants(&self, pid: u32) -> (r: Result<Vec<ChildProcess>, ProcessError>)
        default_ensures
            comes_of_a_walk(
                |p: u32, a: Result<Vec<ChildProcess>, ProcessError>|
                    call_ensures(Self::get_children, (self, p), a),
                pid,
                r,
            ),
    {
        let ghost gives = |p: u32, a: Result<Vec<ChildProcess>, ProcessError>|
            call_ensures(Self::get_children, (self, p), a);
        let mut walk = TreeWalk::new(pid);
        let ghost mut answers: Seq<Result<Vec<ChildProcess>, ProcessError>> = Seq::empty();
        assert(children_in_all(answers) =~= Seq::<Seq<ChildProcessView>>::empty());
        loop
            invariant
                gives == (|p: u32, a: Result<Vec<ChildProcess>, ProcessError>|
                    call_ensures(Self::get_children, (self, p), a)),
                walk@ == walk_run(pid, children_in_all(answers)),
                answered(gives, pid, answers),
                forall|k: int| 0 <= k < answers.len() ==> #[trigger] answers[k] is Ok,
            decreases walk_left(walk@),
        {
            let head = match walk.next_pid() {
                Some(head) => head,
                None => {
                    let list = walk.descendants();
                    assert(is_walk_outcome(gives, pid, answers, Ok(list)));
                    return Ok(list);
                },
            };
            match self.get_children(head) {
                Ok(children) => {
                    proof {
                        let answer = Ok::<Vec<ChildProcess>, ProcessError>(children);
                        assert(gives(head, answer));
                        lemma_answered_grows(gives, pid, answers, answer);
                        lemma_walk_answer(pid, answers, answer);
                        answers = answers.push(answer);
                    }
                    walk.answer(children);
                },
                Err(error) => {
                    assert(gives(head, Err(error)));
                    assert(is_walk_outcome(gives, pid, answers, Err(error)));
                    return Err(error);
                },
            }
        }
    }

    /// Return the complete process command line when the provider can see it.
    /// Test doubles that only model child processes may keep the default.
    fn get_cmdline(&self, pid: u32) -> (r: Result<String, ProcessError>)
        default_ensures
            r == Err::<String, ProcessError>(ProcessError::NotFound(pid)),
    {
        Err(ProcessError::NotFound(pid))
    }

    /// Return the kernel process-start timestamp when the provider can read
    /// one.  The default keeps lightweight test doubles compatible.
    fn get_start_time(&self, pid: u32) -> (r: Result<u64, ProcessError>)
        default_ensures
            r == Err::<u64, ProcessError>(ProcessError::NotFound(pid)),
    {
        Err(ProcessError::NotFound(pid))
    }

    /// Return whether a failed start-time read is meaningful for this
    /// provider.  Real `/proc` inspection is reliable enough to fail closed;
    /// small test doubles and integrations that do not model timestamps can
    /// retain the PID-only fallback.
    fn has_reliable_process_start_time(&self) -> (r: bool)
        default_ensures
            !r,
    {
        false
    }

    /// Return whether `candidate_pid` is the root process or one of its
    /// descendants.  This is used to correlate a newly launched process with
    /// the window it eventually creates.
    fn is_process_related(&self, root_pid: u32, candidate_pid: u32) -> (r: bool)
        default_ensures
            root_pid == candidate_pid ==> r,
            root_pid != candidate_pid ==> comes_of_a_search(
                |p: u32, a: Result<Vec<ChildProcess>, ProcessError>|
                    call_ensures(Self::get_children, (self, p), a),
                root_pid,
                candidate_pid,
                r,
            ),
    {
        if root_pid == candidate_pid {
            return true;
        }
        let ghost gives = |p: u32, a: Result<Vec<ChildProcess>, ProcessError>|
            call_ensures(Self::get_children, (self, p), a);
        let mut walk = TreeWalk::new(root_pid);
        let ghost mut answers: Seq<Result<Vec<ChildProcess>, ProcessError>> = Seq::empty();
        assert(children_in_all(answers) =~= Seq::<Seq<ChildProcessView>>::empty());
        loop
            invariant
                gives == (|p: u32, a: Result<Vec<ChildProcess>, ProcessError>|
                    call_ensures(Self::get_children, (self, p), a)),
                walk@ == walk_run(root_pid, children_in_all(answers)),
                answered(gives, root_pid, answers),
                never_named(answers, candidate_pid),
                root_pid != candidate_pid,
            decreases walk_left(walk@),
        {
            let head = match walk.next_pid() {
                Some(head) => head,
                None => {
                    assert(is_search_outcome(gives, root_pid, candidate_pid, answers, false));
                    return false;
                },
            };
            let answer = self.get_children(head);
            let ghost longer = answers.push(answer);
            proof {
                assert(gives(head, answer));
                lemma_answered_grows(gives, root_pid, answers, answer);
                lemma_walk_answer(root_pid, answers, answer);
                assert(longer.drop_last() =~= answers);
            }
            let children = match answer {
                Ok(children) => children,
                Err(_) => {
                    let none: Vec<ChildProcess> = Vec::new();
                    assert(none.deep_view() =~= Seq::<ChildProcessView>::empty());
                    none
                },
            };
            if lists_pid(&children, candidate_pid) {
                assert(is_search_outcome(gives, root_pid, candidate_pid, longer, true));
                return true;
            }
            walk.answer(children);
            proof {
                assert forall|k: int| 0 <= k < longer.len() implies !has_pid(
                    children_in(#[trigger] longer[k]),
                    candidate_pid,
                ) by {
                    if k < answers.len() {
                        assert(longer[k] == answers[k]);
                    }
                }
                answers = longer;
            }
        }
    }
}

// ── Shells ─────────────────────────────────────────────────────────────────

/// The name of the program of a command line.
pub open spec fn program(cmdline: Seq<char>) -> Option<Seq<char>> {
    let all = text::words(cmdline);
    if all.len() == 0 {
        None
    } else {
        paths::base_name(all[0])
    }
}

/// A flag that still describes the shell itself: no end of flags, and no
/// command string.
pub open spec fn is_shell_flag(argument: Seq<char>) -> bool {
    argument.len() > 0 && (argument[0] == '+' || (argument[0] == '-' && argument != "--"@
        && !text::has_char(argument.drop_first(), 'c')))
}

/// The name of a shell.
pub open spec fn is_shell_name(name: Seq<char>) -> bool {
    name == "zsh"@ || name == "bash"@ || name == "fish"@ || name == "sh"@
}

/// A command line of an interactive shell.
pub open spec fn is_shell(cmdline: Seq<char>) -> bool {
    let all = text::words(cmdline);
    &&& program(cmdline) is Some
    &&& is_shell_name(program(cmdline)->0)
    &&& forall|i: int| 1 <= i < all.len() ==> is_shell_flag(#[trigger] all[i])
}

/// A command line of a terminal multiplexer.
pub open spec fn is_multiplexer(cmdline: Seq<char>) -> bool {
    match program(cmdline) {
        Some(name) => name == "tmux"@ || name == "screen"@ || name == "zellij"@,
        None => false,
    }
}

/// A command line of a terminal's helper.
pub open spec fn is_helper(cmdline: Seq<char>) -> bool {
    program(cmdline) == Some("kitten"@)
}

fn program_name(cmdline: &str) -> (r: Option<String>)
    ensures
        r.deep_view() == program(cmdline@),
{
    let all = text::split_words(cmdline);
    if all.len() == 0 {
        None
    } else {
        assert(all.deep_view()[0] == all[0]@);
        paths::file_name(all[0].as_str())
    }
}

fn describes_the_shell(argument: &str) -> (r: bool)
    ensures
        r == is_shell_flag(argument@),
{
    let x = text::chars_of(argument);
    if x.len() == 0 {
        return false;
    }
    if x[0] == '+' {
        return true;
    }
    if x[0] != '-' || text::same(argument, "--") {
        return false;
    }
    let flags = text::rest(argument, 1);
    assert(argument@.skip(1) =~= argument@.drop_first());
    !text::contains_char(flags.as_str(), 'c')
}

/// Whether a process command line represents an interactive shell itself,
/// rather than a shell running a command.  This accepts paths such as
/// `/usr/bin/zsh` and rejects `zsh -c ...`.
pub fn is_plain_shell(cmdline: &str) -> (r: bool)
    ensures
        r == is_shell(cmdline@),
{
    let name = match program_name(cmdline) {
        Some(name) => name,
        None => {
            return false;
        },
    };
    if !(text::same(name.as_str(), "zsh") || text::same(name.as_str(), "bash") || text::same(
        name.as_str(),
        "fish",
    ) || text::same(name.as_str(), "sh")) {
        return false;
    }
    let all = text::split_words(cmdline);
    let ghost words = text::words(cmdline@);
    let mut i: usize = 1;
    while i < all.len()
        invariant
            1 <= i,
            words == text::words(cmdline@),
            all.deep_view() == words,
            program(cmdline@) is Some,
            is_shell_name(program(cmdline@)->0),
            forall|k: int| 1 <= k < i && k < words.len() ==> is_shell_flag(#[trigger] words[k]),
        decreases all.len() - i,
    {
        assert(words[i as int] == all[i as int]@);
        if !describes_the_shell(all[i].as_str()) {
            return false;
        }
        i += 1;
    }
    true
}

fn is_terminal_wrapper(cmdline: &str) -> (r: bool)
    ensures
        r == is_multiplexer(cmdline@),
{
    match program_name(cmdline) {
        Some(name) => text::same(name.as_str(), "tmux") || text::same(name.as_str(), "screen")
            || text::same(name.as_str(), "zellij"),
        None => false,
    }
}

/// Return whether `cmdline` names an internal helper process rather than an
/// interactive application.
pub fn is_helper_process(cmdline: &str) -> (r: bool)
    ensures
        r == is_helper(cmdline@),
{
    match program_name(cmdline) {
        Some(name) => text::same(name.as_str(), "kitten"),
        None => false,
    }
}

/// A process that may be the one a user works with.
pub open spec fn may_be_terminal(child: ChildProcessView) -> bool {
    child.cwd.len() > 0 && !is_helper(child.cmdline)
}

/// Shells come first and multiplexers last.
pub open spec fn terminal_rank(child: ChildProcessView) -> int {
    if is_shell(child.cmdline) {
        0
    } else if is_multiplexer(child.cmdline) {
        2
    } else {
        1
    }
}

/// One process is preferred to another: by rank, then by process ID.
pub open spec fn is_preferred(a: ChildProcessView, b: ChildProcessView) -> bool {
    terminal_rank(a) < terminal_rank(b) || (terminal_rank(a) == terminal_rank(b) && a.pid < b.pid)
}

/// The place of the preferred process, the first among equals.
pub open spec fn preferred(children: Seq<ChildProcessView>) -> Option<int>
    decreases children.len(),
{
    if children.len() == 0 {
        None
    } else {
        let last = children.len() - 1;
        match preferred(children.drop_last()) {
            Some(i) => if may_be_terminal(children[last]) && is_preferred(
                children[last],
                children[i],
            ) {
                Some(last)
            } else {
                Some(i)
            },
            None => if may_be_terminal(children[last]) {
                Some(last)
            } else {
                None
            },
        }
    }
}

/// The preferred process is one that may be chosen, none is preferred to it,
/// and there is one as soon as any may be chosen.
pub proof fn law_preferred_is_best(children: Seq<ChildProcessView>)
    ensures
        match preferred(children) {
            Some(i) => {
                &&& 0 <= i < children.len()
                &&& may_be_terminal(children[i])
                &&& forall|k: int|
                    0 <= k < children.len() && may_be_terminal(#[trigger] children[k])
                        ==> !is_preferred(children[k], children[i])
            },
            None => forall|k: int|
                0 <= k < children.len() ==> !may_be_terminal(#[trigger] children[k]),
        },
    decreases children.len(),
{
    if children.len() > 0 {
        let rest = children.drop_last();
        law_preferred_is_best(rest);
        assert forall|k: int| 0 <= k < rest.len() implies rest[k] == children[k] by {}
        match preferred(children) {
            Some(i) => {
                assert forall|k: int|
                    0 <= k < children.len() && may_be_terminal(
                        #[trigger] children[k],
                    ) implies !is_preferred(children[k], children[i]) by {
                    if k < rest.len() {
                        assert(may_be_terminal(rest[k]));
                    }
                }
            },
            None => {
                assert forall|k: int| 0 <= k < children.len() implies !may_be_terminal(
                    #[trigger] children[k],
                ) by {
                    if k < rest.len() {
                        assert(!may_be_terminal(rest[k]));
                    }
                }
            },
        }
    }
}

fn rank(child: &ChildProcess) -> (r: u8)
    ensures
        r == terminal_rank(child@),
{
    if is_plain_shell(child.cmdline.as_str()) {
        0
    } else if is_terminal_wrapper(child.cmdline.as_str()) {
        2
    } else {
        1
    }
}

/// Pick a likely terminal shell deterministically.  A plain shell is
/// preferred over application commands, and terminal multiplexers are kept
/// as a last resort; PID is the stable tie-breaker.
pub fn select_terminal_child(children: &[ChildProcess]) -> (r: Option<&ChildProcess>)
    ensures
        match preferred(children.deep_view()) {
            Some(i) => r is Some && 0 <= i < children.len() && *r->0 == children[i],
            None => r is None,
        },
{
    let ghost all = children.deep_view();
    let mut best: Option<usize> = None;
    let mut i: usize = 0;
    while i < children.len()
        invariant
            i <= children.len(),
            all == children.deep_view(),
            match preferred(all.take(i as int)) {
                Some(k) => best == Some(k as usize) && 0 <= k < i,
                None => best is None,
            },
        decreases children.len() - i,
    {
        let child = &children[i];
        proof {
            assert(all.take(i + 1).drop_last() =~= all.take(i as int));
            assert(all.take(i + 1)[i as int] == child@);
        }
        if !child.cwd.as_str().is_empty() && !is_helper_process(child.cmdline.as_str()) {
            match best {
                Some(k) => {
                    let other = &children[k];
                    assert(all.take(i + 1)[k as int] == other@);
                    let mine = rank(child);
                    let theirs = rank(other);
                    if mine < theirs || (mine == theirs && child.pid < other.pid) {
                        best = Some(i);
                    }
                },
                None => {
                    best = Some(i);
                },
            }
        }
        i += 1;
    }
    assert(all.take(all.len() as int) =~= all);
    match best {
        Some(k) => Some(&children[k]),
        None => None,
    }
}

/// A shell whose directory is known.
pub open spec fn is_placed_shell(child: ChildProcessView) -> bool {
    child.cwd.len() > 0 && is_shell(child.cmdline)
}

/// The number of shells among some processes.
pub open spec fn shell_count(children: Seq<ChildProcessView>) -> nat
    decreases children.len(),
{
    if children.len() == 0 {
        0
    } else {
        shell_count(children.drop_last()) + (if is_placed_shell(children.last()) {
            1nat
        } else {
            0nat
        })
    }
}

/// The shell of a terminal with these descendants.  With several shells, or
/// with none that is known, nothing tells which process belongs to a window.
pub open spec fn terminal_shell(descendants: Seq<ChildProcessView>) -> Option<ChildProcessView> {
    if shell_count(descendants) == 1 {
        match preferred(descendants) {
            Some(i) => Some(descendants[i]),
            None => None,
        }
    } else {
        None
    }
}

/// The shell of a terminal, from its descendants.
pub fn terminal_shell_among(descendants: &[ChildProcess]) -> (r: Option<ChildProcess>)
    ensures
        r.deep_view() == terminal_shell(descendants.deep_view()),
{
    let ghost all = descendants.deep_view();
    let mut count: usize = 0;
    let mut i: usize = 0;
    while i < descendants.len()
        invariant
            i <= descendants.len(),
            all == descendants.deep_view(),
            count <= i,
            count == shell_count(all.take(i as int)),
        decreases descendants.len() - i,
    {
        let child = &descendants[i];
        proof {
            assert(all.take(i + 1).drop_last() =~= all.take(i as int));
            assert(all.take(i + 1).last() == child@);
        }
        if !child.cwd.as_str().is_empty() && is_plain_shell(child.cmdline.as_str()) {
            count += 1;
        }
        i += 1;
    }
    assert(all.take(all.len() as int) =~= all);
    if count != 1 {
        return None;
    }
    match select_terminal_child(descendants) {
        Some(child) => Some(child.clone()),
        None => None,
    }
}

proof fn lemma_shell_count_positive(children: Seq<ChildProcessView>, k: int)
    requires
        0 <= k < children.len(),
        is_placed_shell(children[k]),
    ensures
        shell_count(children) >= 1,
    decreases children.len(),
{
    if k < children.len() - 1 {
        lemma_shell_count_positive(children.drop_last(), k);
    }
}

proof fn lemma_shell_exists(children: Seq<ChildProcessView>) -> (k: int)
    requires
        shell_count(children) >= 1,
    ensures
        0 <= k < children.len(),
        is_placed_shell(children[k]),
    decreases children.len(),
{
    if is_placed_shell(children.last()) {
        children.len() - 1
    } else {
        lemma_shell_exists(children.drop_last())
    }
}

/// A shell is never a helper.
proof fn lemma_shell_is_no_helper(cmdline: Seq<char>)
    requires
        is_shell(cmdline),
    ensures
        !is_helper(cmdline),
{
    reveal_strlit("zsh");
    reveal_strlit("bash");
    reveal_strlit("fish");
    reveal_strlit("sh");
    reveal_strlit("kitten");
    assert("kitten"@.len() == 6);
}

/// What is taken for the shell of a terminal is its only shell.
pub proof fn law_terminal_shell_is_the_only_shell(descendants: Seq<ChildProcessView>)
    ensures
        shell_count(descendants) == 1 ==> terminal_shell(descendants) is Some && is_placed_shell(
            terminal_shell(descendants)->0,
        ),
        shell_count(descendants) != 1 ==> terminal_shell(descendants) is None,
{
    if shell_count(descendants) == 1 {
        let k = lemma_shell_exists(descendants);
        lemma_shell_is_no_helper(descendants[k].cmdline);
        law_preferred_is_best(descendants);
        assert(may_be_terminal(descendants[k]));
        let i = preferred(descendants)->0;
        assert(!is_preferred(descendants[k], descendants[i]));
    }
}

/// Select a likely interactive shell from the complete terminal process tree.
pub fn select_terminal_process<P: ProcessInfoProvider + ?Sized>(
    process_info: &P,
    terminal_pid: u32,
) -> (r: Option<ChildProcess>)
    ensures
        exists|answer: Result<Vec<ChildProcess>, ProcessError>|
            {
                &&& #[trigger] call_ensures(
                    P::get_descendants,
                    (process_info, terminal_pid),
                    answer,
                )
                &&& match answer {
                    Ok(list) => r.deep_view() == terminal_shell(list.deep_view()),
                    Err(_) => r is None,
                }
            },
{
    let answer = process_info.get_descendants(terminal_pid);
    assert(call_ensures(P::get_descendants, (process_info, terminal_pid), answer));
    match answer {
        Ok(list) => terminal_shell_among(&list),
        Err(_) => None,
    }
}

// ── Browser profiles ───────────────────────────────────────────────────────

/// The words before the first flag.
pub open spec fn words_before_flag(all: Seq<Seq<char>>, i: int) -> Seq<Seq<char>>
    decreases all.len() - i,
{
    if i < 0 || i >= all.len() || text::starts_with(all[i], "-"@) {
        seq![]
    } else {
        seq![all[i]] + words_before_flag(all, i + 1)
    }
}

/// The profile that a command line names.  Its name may hold spaces.
pub open spec fn profile_in(cmdline: Seq<char>) -> Option<Seq<char>> {
    let marker = "--profile-directory="@;
    match text::found(cmdline, marker) {
        Some(i) => {
            let tail = cmdline.skip(i + marker.len());
            let value = text::joined(words_before_flag(text::words(tail), 0), " "@);
            if value.len() > 0 {
                Some(value)
            } else {
                None
            }
        },
        None => None,
    }
}

/// Extract a Chromium `--profile-directory` value from a command line.
pub fn profile_directory_from_cmdline(cmdline: &str) -> (r: Option<String>)
    ensures
        r.deep_view() == profile_in(cmdline@),
{
    let marker = "--profile-directory=";
    let at = match text::find(cmdline, marker) {
        Some(at) => at,
        None => {
            return None;
        },
    };
    let tail = text::rest(cmdline, at + marker.unicode_len());
    let all = text::split_words(tail.as_str());
    let ghost words = all.deep_view();
    let mut parts: Vec<String> = Vec::new();
    let mut i: usize = 0;
    assert(parts.deep_view() =~= Seq::<Seq<char>>::empty());
    assert(Seq::<Seq<char>>::empty() + words_before_flag(words, 0) =~= words_before_flag(words, 0));
    while i < all.len() && !text::has_prefix(all[i].as_str(), "-")
        invariant
            i <= all.len(),
            words == all.deep_view(),
            words_before_flag(words, 0) == parts.deep_view() + words_before_flag(words, i as int),
        decreases all.len() - i,
    {
        let ghost before = parts.deep_view();
        assert(words[i as int] == all[i as int]@);
        parts.push(all[i].clone());
        proof {
            assert(parts.deep_view() =~= before.push(words[i as int]));
            assert(before + (seq![words[i as int]] + words_before_flag(words, i + 1)) =~= before.push(
                words[i as int],
            ) + words_before_flag(words, i + 1));
        }
        i += 1;
    }
    proof {
        if i < all.len() {
            assert(words[i as int] == all[i as int]@);
        }
        assert(parts.deep_view() + Seq::<Seq<char>>::empty() =~= parts.deep_view());
    }
    let value = text::join(&parts, " ");
    if value.as_str().is_empty() {
        None
    } else {
        Some(value)
    }
}

/// How far a search for profiles has come.
#[verifier::ext_equal]
pub ghost struct ProfileWalkView {
    /// Processes still to be looked at, with their command line if it is known.
    pub queue: Seq<(u32, Option<Seq<char>>)>,
    /// Processes that were met.
    pub visited: Seq<u32>,
    /// Profiles that were met, no two alike up to case.
    pub profiles: Seq<Seq<char>>,
    /// Nothing was missing so far.
    pub complete: bool,
}

/// The search that has met one process.
pub open spec fn search_start(pid: u32) -> ProfileWalkView {
    ProfileWalkView {
        queue: seq![(pid, None)],
        visited: seq![pid],
        profiles: seq![],
        complete: true,
    }
}

/// A profile is known, up to case.
pub open spec fn knows_profile(profiles: Seq<Seq<char>>, profile: Seq<char>) -> bool {
    exists|i: int|
        0 <= i < profiles.len() && text::same_ignoring_case(#[trigger] profiles[i], profile)
}

/// The search after reading a command line.  One that is empty could not be
/// read.
pub open spec fn search_reads(walk: ProfileWalkView, cmdline: Seq<char>) -> ProfileWalkView {
    if cmdline.len() == 0 {
        ProfileWalkView { complete: false, ..walk }
    } else {
        match profile_in(cmdline) {
            Some(profile) => if knows_profile(walk.profiles, profile) {
                walk
            } else {
                ProfileWalkView { profiles: walk.profiles.push(profile), ..walk }
            },
            None => walk,
        }
    }
}

/// The search after meeting some children in turn.
pub open spec fn search_meets(
    walk: ProfileWalkView,
    children: Seq<ChildProcessView>,
) -> ProfileWalkView
    decreases children.len(),
{
    if children.len() == 0 {
        walk
    } else {
        let before = search_meets(walk, children.drop_last());
        let child = children.last();
        let checked = ProfileWalkView {
            complete: before.complete && child.cmdline.len() > 0,
            ..before
        };
        if before.visited.contains(child.pid) {
            checked
        } else {
            ProfileWalkView {
                queue: checked.queue.push((child.pid, Some(child.cmdline))),
                visited: checked.visited.push(child.pid),
                ..checked
            }
        }
    }
}

/// The command line in an answer; a failed one is empty.
pub open spec fn cmdline_in(answer: Result<String, ProcessError>) -> Seq<char> {
    match answer {
        Ok(cmdline) => cmdline@,
        Err(_) => seq![],
    }
}

/// What a provider answers for one process.
pub ghost struct ProfileAnswer {
    /// Its command line, asked for when it is not known yet.
    pub cmdline: Result<String, ProcessError>,
    /// Its children.
    pub children: Result<Vec<ChildProcess>, ProcessError>,
}

/// The search after its next process was looked at.
pub open spec fn search_step(walk: ProfileWalkView, answer: ProfileAnswer) -> ProfileWalkView {
    let popped = ProfileWalkView { queue: walk.queue.drop_first(), ..walk };
    let read = match walk.queue[0].1 {
        Some(cmdline) => search_reads(popped, cmdline),
        None => search_reads(popped, cmdline_in(answer.cmdline)),
    };
    match answer.children {
        Ok(list) => search_meets(read, by_pid(list.deep_view())),
        Err(_) => ProfileWalkView { complete: false, ..read },
    }
}

/// The search after a number of answers.
pub open spec fn search_run(pid: u32, answers: Seq<ProfileAnswer>) -> ProfileWalkView
    decreases answers.len(),
{
    if answers.len() == 0 {
        search_start(pid)
    } else {
        search_step(search_run(pid, answers.drop_last()), answers.last())
    }
}

/// The place behind the last of the first `i` texts that do not come later.
pub open spec fn text_place(s: Seq<Seq<char>>, x: Seq<char>, i: int) -> int
    decreases i,
{
    if i <= 0 {
        0
    } else if text::comes_before(text::lowered(x), text::lowered(s[i - 1])) {
        text_place(s, x, i - 1)
    } else {
        i
    }
}

/// The texts in the order of their lower case.
pub open spec fn in_order(s: Seq<Seq<char>>) -> Seq<Seq<char>>
    decreases s.len(),
{
    if s.len() == 0 {
        s
    } else {
        let rest = in_order(s.drop_last());
        rest.insert(text_place(rest, s.last(), rest.len() as int), s.last())
    }
}

/// What a finished search tells.
pub open spec fn discovered(walk: ProfileWalkView) -> ProfileDiscoveryView {
    ProfileDiscoveryView { profiles: in_order(walk.profiles), complete: walk.complete }
}

/// An answer that a provider may give on the next process of a search.
pub open spec fn search_answer_fits<P: ProcessInfoProvider + ?Sized>(
    provider: &P,
    walk: ProfileWalkView,
    answer: ProfileAnswer,
) -> bool {
    &&& walk.queue.len() > 0
    &&& walk.queue[0].1 is None ==> call_ensures(
        P::get_cmdline,
        (provider, walk.queue[0].0),
        answer.cmdline,
    )
    &&& call_ensures(P::get_children, (provider, walk.queue[0].0), answer.children)
}

/// The answers that a search from a process gets.
pub open spec fn search_answered<P: ProcessInfoProvider + ?Sized>(
    provider: &P,
    pid: u32,
    answers: Seq<ProfileAnswer>,
) -> bool {
    forall|k: int|
        0 <= k < answers.len() ==> search_answer_fits(
            provider,
            #[trigger] search_run(pid, answers.take(k)),
            answers[k],
        )
}

/// The outcome of a search: the answers lead to its end.
pub open spec fn is_discovery<P: ProcessInfoProvider + ?Sized>(
    provider: &P,
    pid: u32,
    answers: Seq<ProfileAnswer>,
    r: ProfileDiscoveryView,
) -> bool {
    &&& search_answered(provider, pid, answers)
    &&& search_run(pid, answers).queue.len() == 0
    &&& r == discovered(search_run(pid, answers))
}

/// A search for the profiles of a browser in its process tree.
#[derive(Debug)]
pub struct ProfileWalk {
    queue: Vec<(u32, Option<String>)>,
    visited: Vec<u32>,
    profiles: Vec<String>,
    complete: bool,
}

impl View for ProfileWalk {
    type V = ProfileWalkView;

    closed spec fn view(&self) -> ProfileWalkView {
        ProfileWalkView {
            queue: self.queue.deep_view(),
            visited: self.visited@,
            profiles: self.profiles.deep_view(),
            complete: self.complete,
        }
    }
}

impl ProfileWalk {
    /// Starts a search at a process.
    pub fn new(pid: u32) -> (r: Self)
        ensures
            r@ == search_start(pid),
    {
        let mut queue: Vec<(u32, Option<String>)> = Vec::new();
        queue.push((pid, None));
        let mut visited: Vec<u32> = Vec::new();
        visited.push(pid);
        let r = ProfileWalk { queue, visited, profiles: Vec::new(), complete: true };
        assert(r@.queue =~= seq![(pid, None)]);
        assert(r@.visited =~= seq![pid]);
        assert(r@.profiles =~= seq![]);
        r
    }

    /// The next process, and whether its command line is still unknown.
    pub fn next_process(&self) -> (r: Option<(u32, bool)>)
        ensures
            r == if self@.queue.len() > 0 {
                Some((self@.queue[0].0, self@.queue[0].1 is None))
            } else {
                None
            },
    {
        if self.queue.len() > 0 {
            assert(self@.queue[0] == self.queue[0].deep_view());
            Some((self.queue[0].0, self.queue[0].1.is_none()))
        } else {
            None
        }
    }

    fn read(&mut self, cmdline: &str)
        ensures
            final(self)@ == search_reads(old(self)@, cmdline@),
    {
        let ghost before = self@;
        if cmdline.is_empty() {
            self.complete = false;
            assert(self@ =~= ProfileWalkView { complete: false, ..before });
            return ;
        }
        if let Some(profile) = profile_directory_from_cmdline(cmdline) {
            let ghost all = self.profiles.deep_view();
            let mut i: usize = 0;
            while i < self.profiles.len()
                invariant
                    i <= self.profiles.len(),
                    *self == *old(self),
                    before == self@,
                    all == self.profiles.deep_view(),
                    all == self@.profiles,
                    cmdline@.len() > 0,
                    profile_in(cmdline@) == Some(profile@),
                    forall|k: int|
                        0 <= k < i ==> !text::same_ignoring_case(#[trigger] all[k], profile@),
                decreases self.profiles.len() - i,
            {
                assert(all[i as int] == self.profiles[i as int]@);
                if text::eq_ignore_case(self.profiles[i].as_str(), profile.as_str()) {
                    return ;
                }
                i += 1;
            }
            let ghost added = profile@;
            self.profiles.push(profile);
            assert(self@ =~= ProfileWalkView { profiles: before.profiles.push(added), ..before });
        }
    }

    fn meet(&mut self, children: Vec<ChildProcess>)
        ensures
            final(self)@ == search_meets(old(self)@, by_pid(children.deep_view())),
    {
        let ghost before = self@;
        let sorted = sort_by_pid(children);
        let ghost all = sorted.deep_view();
        let mut i: usize = 0;
        assert(all.take(0) =~= Seq::<ChildProcessView>::empty());
        while i < sorted.len()
            invariant
                i <= sorted.len(),
                all == sorted.deep_view(),
                self@ == search_meets(before, all.take(i as int)),
            decreases sorted.len() - i,
        {
            let child = &sorted[i];
            proof {
                assert(all.take(i + 1).drop_last() =~= all.take(i as int));
                assert(all.take(i + 1).last() == child@);
            }
            let ghost w = self@;
            if child.cmdline.as_str().is_empty() {
                self.complete = false;
            }
            let ghost checked = ProfileWalkView {
                complete: w.complete && child@.cmdline.len() > 0,
                ..w
            };
            assert(self@ =~= checked);
            if !contains_pid(&self.visited, child.pid) {
                let entry: (u32, Option<String>) = (child.pid, Some(child.cmdline.clone()));
                assert(entry.deep_view() == (child@.pid, Some(child@.cmdline)));
                self.queue.push(entry);
                self.visited.push(child.pid);
                assert(self@ =~= ProfileWalkView {
                    queue: checked.queue.push((child@.pid, Some(child@.cmdline))),
                    visited: checked.visited.push(child@.pid),
                    ..checked
                });
            }
            i += 1;
        }
        assert(all.take(all.len() as int) =~= all);
    }

    /// Goes on with what is known of the next process; `cmdline` counts only
    /// where its command line was unknown.
    pub fn answer(
        &mut self,
        cmdline: Result<String, ProcessError>,
        children: Result<Vec<ChildProcess>, ProcessError>,
    )
        requires
            old(self)@.queue.len() > 0,
        ensures
            final(self)@ == search_step(old(self)@, (ProfileAnswer { cmdline, children })),
    {
        let ghost before = self@;
        let ghost answers = ProfileAnswer { cmdline, children };
        let (_, known) = self.queue.remove(0);
        proof {
            assert(self@ =~= ProfileWalkView { queue: before.queue.drop_first(), ..before });
            assert(before.queue[0].1 == known.deep_view());
        }
        match known {
            Some(line) => {
                self.read(line.as_str());
            },
            None => match cmdline {
                Ok(line) => {
                    self.read(line.as_str());
                },
                Err(_) => {
                    let nothing = String::new();
                    self.read(nothing.as_str());
                },
            },
        }
        match children {
            Ok(list) => {
                self.meet(list);
            },
            Err(_) => {
                let ghost w = self@;
                self.complete = false;
                assert(self@ =~= ProfileWalkView { complete: false, ..w });
            },
        }
    }

    /// What the search tells.
    pub fn finish(self) -> (r: ProfileDiscovery)
        ensures
            r@ == discovered(self@),
    {
        let ghost all = self.profiles.deep_view();
        let mut out: Vec<String> = Vec::new();
        let mut i: usize = 0;
        assert(out.deep_view() =~= in_order(all.take(0)));
        while i < self.profiles.len()
            invariant
                i <= self.profiles.len(),
                all == self.profiles.deep_view(),
                out.deep_view() == in_order(all.take(i as int)),
            decreases self.profiles.len() - i,
        {
            let profile = self.profiles[i].clone();
            let key = text::to_lowered(profile.as_str());
            let ghost rest = out.deep_view();
            let mut at: usize = out.len();
            loop
                invariant_except_break
                    at <= out.len(),
                    rest == out.deep_view(),
                    key@ == text::lowered(profile@),
                    text_place(rest, profile@, rest.len() as int) == text_place(
                        rest,
                        profile@,
                        at as int,
                    ),
                ensures
                    at <= out.len(),
                    at == text_place(rest, profile@, rest.len() as int),
                decreases at,
            {
                if at == 0 {
                    break ;
                }
                assert(rest[at - 1] == out[at - 1]@);
                let other = text::to_lowered(out[at - 1].as_str());
                if !text::is_before(key.as_str(), other.as_str()) {
                    break ;
                }
                at -= 1;
            }
            let ghost view = profile@;
            out.insert(at, profile);
            proof {
                assert(out.deep_view() =~= rest.insert(at as int, view));
                assert(all.take(i + 1).drop_last() =~= all.take(i as int));
                assert(all.take(i + 1).last() == view);
            }
            i += 1;
        }
        assert(all.take(all.len() as int) =~= all);
        ProfileDiscovery { profiles: out, complete: self.complete }
    }
}

spec fn search_is_orderly(walk: ProfileWalkView) -> bool {
    walk.visited.no_duplicates()
}

spec fn search_left(walk: ProfileWalkView) -> int {
    0x1_0000_0000 - walk.visited.len() + walk.queue.len()
}

proof fn lemma_search_meets(walk: ProfileWalkView, children: Seq<ChildProcessView>)
    requires
        search_is_orderly(walk),
    ensures
        search_is_orderly(search_meets(walk, children)),
        search_left(search_meets(walk, children)) == search_left(walk),
    decreases children.len(),
{
    if children.len() > 0 {
        lemma_search_meets(walk, children.drop_last());
    }
}

proof fn lemma_search_step(walk: ProfileWalkView, answer: ProfileAnswer)
    requires
        search_is_orderly(walk),
        walk.queue.len() > 0,
    ensures
        search_is_orderly(search_step(walk, answer)),
        search_left(search_step(walk, answer)) == search_left(walk) - 1,
        0 <= search_left(search_step(walk, answer)),
{
    let popped = ProfileWalkView { queue: walk.queue.drop_first(), ..walk };
    let read = match walk.queue[0].1 {
        Some(cmdline) => search_reads(popped, cmdline),
        None => search_reads(popped, cmdline_in(answer.cmdline)),
    };
    assert(read.visited == walk.visited);
    match answer.children {
        Ok(list) => {
            lemma_search_meets(read, by_pid(list.deep_view()));
        },
        Err(_) => {},
    }
    lemma_visited_limit(search_step(walk, answer).visited);
}

proof fn lemma_search_run(pid: u32, answers: Seq<ProfileAnswer>)
    requires
        search_goes_on(pid, answers),
    ensures
        search_is_orderly(search_run(pid, answers)),
    decreases answers.len(),
{
    if answers.len() > 0 {
        let rest = answers.drop_last();
        assert forall|k: int| 0 <= k < rest.len() implies (#[trigger] search_run(
            pid,
            rest.take(k),
        )).queue.len() > 0 by {
            assert(rest.take(k) =~= answers.take(k));
            assert(search_run(pid, answers.take(k)).queue.len() > 0);
        }
        lemma_search_run(pid, rest);
        assert(answers.take(answers.len() - 1) =~= rest);
        assert(search_run(pid, answers.take(answers.len() - 1)).queue.len() > 0);
        lemma_search_step(search_run(pid, rest), answers.last());
    }
}

proof fn lemma_search_grows<P: ProcessInfoProvider + ?Sized>(
    provider: &P,
    pid: u32,
    answers: Seq<ProfileAnswer>,
    answer: ProfileAnswer,
)
    requires
        search_answered(provider, pid, answers),
        search_answer_fits(provider, search_run(pid, answers), answer),
    ensures
        search_answered(provider, pid, answers.push(answer)),
{
    let longer = answers.push(answer);
    assert forall|k: int| 0 <= k < longer.len() implies search_answer_fits(
        provider,
        #[trigger] search_run(pid, longer.take(k)),
        longer[k],
    ) by {
        if k < answers.len() {
            assert(longer.take(k) =~= answers.take(k));
            assert(longer[k] == answers[k]);
        } else {
            assert(longer.take(k) =~= answers);
        }
    }
}

spec fn search_goes_on(pid: u32, answers: Seq<ProfileAnswer>) -> bool {
    forall|k: int|
        0 <= k < answers.len() ==> (#[trigger] search_run(pid, answers.take(k))).queue.len() > 0
}

proof fn lemma_search_goes_on<P: ProcessInfoProvider + ?Sized>(
    provider: &P,
    pid: u32,
    answers: Seq<ProfileAnswer>,
)
    requires
        search_answered(provider, pid, answers),
    ensures
        search_goes_on(pid, answers),
{
    assert forall|k: int| 0 <= k < answers.len() implies (#[trigger] search_run(
        pid,
        answers.take(k),
    )).queue.len() > 0 by {
        assert(search_answer_fits(provider, search_run(pid, answers.take(k)), answers[k]));
    }
}

/// One more answer.
proof fn lemma_search_answer(pid: u32, answers: Seq<ProfileAnswer>, answer: ProfileAnswer)
    requires
        search_goes_on(pid, answers),
        search_run(pid, answers).queue.len() > 0,
    ensures
        search_run(pid, answers.push(answer)) == search_step(search_run(pid, answers), answer),
        0 <= search_left(search_run(pid, answers.push(answer))),
        search_left(search_run(pid, answers.push(answer))) < search_left(search_run(pid, answers)),
{
    assert(answers.push(answer).drop_last() =~= answers);
    assert(answers.push(answer).last() == answer);
    lemma_search_run(pid, answers);
    let walk = search_run(pid, answers);
    lemma_search_step(walk, answer);
}

/// Search a process and its descendants for profile flags without losing
/// whether process metadata was unavailable during the walk.
///
/// Chromium puts the profile flag on either the browser process or a helper,
/// depending on how an existing browser process was reused.
pub fn find_profile_discovery<P: ProcessInfoProvider + ?Sized>(
    process_info: &P,
    root_pid: u32,
) -> (r: ProfileDiscovery)
    ensures
        exists|answers: Seq<ProfileAnswer>| #[trigger]
            is_discovery(process_info, root_pid, answers, r@),
{
    let mut walk = ProfileWalk::new(root_pid);
    let ghost mut answers: Seq<ProfileAnswer> = Seq::empty();
    loop
        invariant
            walk@ == search_run(root_pid, answers),
            search_answered(process_info, root_pid, answers),
        decreases search_left(walk@),
    {
        let (pid, unknown) = match walk.next_process() {
            Some(next) => next,
            None => {
                let r = walk.finish();
                assert(is_discovery(process_info, root_pid, answers, r@));
                return r;
            },
        };
        let cmdline = if unknown {
            process_info.get_cmdline(pid)
        } else {
            Err(ProcessError::NotFound(pid))
        };
        let children = process_info.get_children(pid);
        proof {
            let answer = ProfileAnswer { cmdline, children };
            assert(search_answer_fits(process_info, walk@, answer));
            lemma_search_grows(process_info, root_pid, answers, answer);
            lemma_search_goes_on(process_info, root_pid, answers);
            lemma_search_answer(root_pid, answers, answer);
            answers = answers.push(answer);
        }
        walk.answer(cmdline, children);
    }
}

/// The profiles that a search may find.
pub open spec fn may_find_profiles<P: ProcessInfoProvider + ?Sized>(
    provider: &P,
    pid: u32,
    profiles: Seq<Seq<char>>,
) -> bool {
    exists|answers: Seq<ProfileAnswer>, found: ProfileDiscoveryView| #[trigger]
        is_discovery(provider, pid, answers, found) && profiles == found.profiles
}

/// Search a process and its descendants for all application profile flags.
pub fn find_profile_directories<P: ProcessInfoProvider + ?Sized>(
    process_info: &P,
    root_pid: u32,
) -> (r: Vec<String>)
    ensures
        may_find_profiles(process_info, root_pid, r.deep_view()),
{
    let found = find_profile_discovery(process_info, root_pid);
    proof {
        let answers = choose|answers: Seq<ProfileAnswer>| #[trigger]
            is_discovery(process_info, root_pid, answers, found@);
        assert(is_discovery(process_info, root_pid, answers, found@)
            && found.profiles.deep_view() == found@.profiles);
    }
    found.profiles
}

/// A profile that is the only one found.
pub open spec fn only_profile(profiles: Seq<Seq<char>>) -> Option<Seq<char>> {
    if profiles.len() == 1 {
        Some(profiles[0])
    } else {
        None
    }
}

/// Return a single profile only when the process tree provides an
/// unambiguous identity for it.
pub fn find_profile_directory<P: ProcessInfoProvider + ?Sized>(
    process_info: &P,
    root_pid: u32,
) -> (r: Option<String>)
    ensures
        exists|answers: Seq<ProfileAnswer>, found: ProfileDiscoveryView| #[trigger]
            is_discovery(process_info, root_pid, answers, found) && r.deep_view() == only_profile(
                found.profiles,
            ),
{
    let found = find_profile_discovery(process_info, root_pid);
    let mut profiles = found.profiles;
    let ghost all = profiles.deep_view();
    if profiles.len() != 1 {
        return None;
    }
    assert(all[0] == profiles[0]@);
    profiles.pop()
}

} // verus!
