//! Closing the desktop that a session replaces.
//!
//! A replacement closes only windows that were read at its start.  With a
//! safety snapshot it closes only windows of that snapshot, and leaves a
//! window alone where anything speaks against it.

use crate::hyprctl::{HyprClient, HyprClientView};
use crate::lists;
use crate::lists::{Table, TextSet};
use crate::restore::identity;
use crate::restore::identity::{ObservedClient, ObservedClientView};
use crate::restore::launched;
use crate::restore::observe;
use crate::restore::observe::ProcessState;
use crate::restore::report::{ReconcileReport, RestoreError, RestoreErrorView};
use crate::session;
use crate::session::{SessionClient, SessionClientView};
use crate::text;
use vstd::prelude::*;

verus! {

// ── The safety snapshot ────────────────────────────────────────────────────

/// The last of the first `n` saved windows at an address.
pub open spec fn saved_at(clients: Seq<SessionClientView>, address: Seq<char>, n: int) -> Option<
    int,
>
    decreases n,
{
    if n <= 0 {
        None
    } else if clients[n - 1].address == Some(address) && address.len() > 0 {
        Some(n - 1)
    } else {
        saved_at(clients, address, n - 1)
    }
}

/// A window stands at an address of the snapshot.
pub open spec fn is_saved_address(clients: Seq<SessionClientView>, address: Seq<char>) -> bool {
    saved_at(clients, address, clients.len() as int) is Some
}

fn find_saved(clients: &Vec<SessionClient>, address: &str) -> (r: Option<usize>)
    ensures
        match r {
            Some(i) => i < clients.len() && saved_at(
                clients.deep_view(),
                address@,
                clients.deep_view().len() as int,
            ) == Some(i as int),
            None => saved_at(
                clients.deep_view(),
                address@,
                clients.deep_view().len() as int,
            ) is None,
        },
{
    let ghost all = clients.deep_view();
    let mut n: usize = clients.len();
    while n > 0
        invariant
            n <= clients.len(),
            all == clients.deep_view(),
            saved_at(all, address@, all.len() as int) == saved_at(all, address@, n as int),
        decreases n,
    {
        assert(all[n - 1] == clients[n - 1]@);
        if !address.is_empty() {
            if let Some(saved) = &clients[n - 1].address {
                if text::same(saved.as_str(), address) {
                    return Some(n - 1);
                }
            }
        }
        n -= 1;
    }
    None
}

// ── Closing ────────────────────────────────────────────────────────────────

/// What is recorded before the first window is closed.
#[derive(Debug)]
pub struct ClosingMark {
    /// Where the window stands.
    pub address: String,
    /// Its process.
    pub pid: u32,
    /// The start time of its process.
    pub start_time: Option<u64>,
    /// Its stable ID.
    pub stable_id: Option<String>,
}

#[verifier::ext_equal]
pub ghost struct ClosingMarkView {
    pub address: Seq<char>,
    pub pid: u32,
    pub start_time: Option<u64>,
    pub stable_id: Option<Seq<char>>,
}

impl View for ClosingMark {
    type V = ClosingMarkView;

    open spec fn view(&self) -> ClosingMarkView {
        ClosingMarkView {
            address: self.address@,
            pid: self.pid,
            start_time: self.start_time,
            stable_id: self.stable_id.deep_view(),
        }
    }
}

/// What a replacement asks for.
#[derive(Debug)]
pub enum CloseAction {
    /// Go on.
    Continue,
    /// Read the start time of a process and then the windows again.
    Recheck {
        /// The window.
        address: String,
        /// Its process.
        pid: u32,
    },
    /// Record what is closed first, if anything is to be recorded, and close
    /// a window.
    Close {
        /// The command that closes it.
        command: String,
        /// What is recorded before.
        mark: Option<ClosingMark>,
    },
    /// Record that the replacement goes on.
    MarkInProgress,
    /// Wait until the windows are gone.
    Wait,
}

#[verifier::ext_equal]
pub ghost enum CloseActionView {
    Continue,
    Recheck { address: Seq<char>, pid: u32 },
    Close { command: Seq<char>, mark: Option<ClosingMarkView> },
    MarkInProgress,
    Wait,
}

impl View for CloseAction {
    type V = CloseActionView;

    open spec fn view(&self) -> CloseActionView {
        match *self {
            CloseAction::Continue => CloseActionView::Continue,
            CloseAction::Recheck { address, pid } => CloseActionView::Recheck {
                address: address@,
                pid,
            },
            CloseAction::Close { command, mark } => CloseActionView::Close {
                command: command@,
                mark: match mark {
                    Some(m) => Some(m@),
                    None => None,
                },
            },
            CloseAction::MarkInProgress => CloseActionView::MarkInProgress,
            CloseAction::Wait => CloseActionView::Wait,
        }
    }
}

/// The state of a replacement.
#[verifier::ext_equal]
pub ghost struct ReplacementView {
    /// The windows at the start.
    pub queue: Seq<HyprClientView>,
    /// The window at hand.
    pub index: int,
    /// The windows of the safety snapshot.
    pub safety: Option<Seq<SessionClientView>>,
    /// The progress is recorded.
    pub marked: bool,
    /// The windows that were closed and may still be there.
    pub pending: Seq<(Seq<char>, ObservedClientView)>,
    /// The addresses that are left alone.
    pub protected: Set<Seq<char>>,
    /// The addresses that were closed.
    pub dispatched: Set<Seq<char>>,
    /// A window was closed.
    pub started: bool,
}

/// The windows of a list that have an address.
pub open spec fn addressed(clients: Seq<HyprClientView>) -> Seq<HyprClientView> {
    clients.filter(|c: HyprClientView| c.address.len() > 0)
}

/// A replacement at its start.
pub open spec fn replacement_start(
    clients: Seq<HyprClientView>,
    safety: Option<Seq<SessionClientView>>,
    marked: bool,
) -> ReplacementView {
    ReplacementView {
        queue: addressed(clients),
        index: 0,
        safety,
        marked,
        pending: Seq::empty(),
        protected: Set::empty(),
        dispatched: Set::empty(),
        started: false,
    }
}

/// The window at hand is left alone from now on.
pub open spec fn leaves_alone(state: ReplacementView) -> ReplacementView {
    let address = state.queue[state.index].address;
    ReplacementView {
        pending: lists::without_key(state.pending, address),
        protected: state.protected.insert(address),
        index: state.index + 1,
        ..state
    }
}

/// The window at hand is gone.
pub open spec fn finds_gone(state: ReplacementView) -> ReplacementView {
    ReplacementView {
        pending: lists::without_key(state.pending, state.queue[state.index].address),
        index: state.index + 1,
        ..state
    }
}

/// What a replacement asks for.
pub open spec fn step_on(state: ReplacementView) -> (ReplacementView, CloseActionView) {
    if state.index >= state.queue.len() {
        (
            state,
            if state.marked && !state.started {
                CloseActionView::MarkInProgress
            } else {
                CloseActionView::Wait
            },
        )
    } else {
        let client = state.queue[state.index];
        if state.safety is Some && !is_saved_address(state.safety->0, client.address) {
            (leaves_alone(state), CloseActionView::Continue)
        } else {
            (state, CloseActionView::Recheck { address: client.address, pid: client.pid })
        }
    }
}

/// The window at hand as it was read at the start.
pub open spec fn expected_at(
    state: ReplacementView,
    start_time: Option<u64>,
) -> ObservedClientView {
    launched::expected_window(state.queue[state.index], start_time, None)
}

/// The window at hand may be closed: it is still the same, nothing else may be
/// meant, and the safety snapshot holds it where there is one.
pub open spec fn may_close(
    state: ReplacementView,
    start_time: Option<u64>,
    clients: Seq<HyprClientView>,
    process: ProcessState,
    place: int,
) -> bool {
    let address = state.queue[state.index].address;
    let current = clients[place];
    let expected = expected_at(state, start_time);
    &&& observe::still_stands(expected, current, process)
    &&& !observe::is_one_of_several(expected, current, clients)
    &&& match state.safety {
        Some(saved) => match saved_at(saved, address, saved.len() as int) {
            Some(i) => observe::is_still_saved(saved[i], current),
            None => true,
        },
        None => true,
    }
}

/// The command that closes a window.
pub open spec fn close_command(address: Seq<char>) -> Seq<char> {
    "closewindow address:"@ + address
}

/// The windows were read again.  `start_time` is that of the process of the
/// window at hand, and `process` tells of the process of the window that now
/// stands at its address.
pub open spec fn step_rechecked(
    state: ReplacementView,
    start_time: Option<u64>,
    clients: Seq<HyprClientView>,
    process: ProcessState,
) -> Result<(ReplacementView, CloseActionView), RestoreErrorView> {
    let address = state.queue[state.index].address;
    match observe::address_from(clients, address, 0) {
        None => Ok((finds_gone(state), CloseActionView::Continue)),
        Some(place) => if may_close(state, start_time, clients, process, place) {
            let current = clients[place];
            Ok(
                (
                    ReplacementView {
                        pending: lists::with_value(
                            state.pending,
                            address,
                            expected_at(state, start_time),
                        ),
                        ..state
                    },
                    CloseActionView::Close {
                        command: close_command(address),
                        mark: if state.marked && !state.started {
                            Some(
                                ClosingMarkView {
                                    address: current.address,
                                    pid: current.pid,
                                    start_time: process.start_time,
                                    stable_id: current.stable_id,
                                },
                            )
                        } else {
                            None
                        },
                    },
                ),
            )
        } else if state.safety is Some {
            Ok((leaves_alone(state), CloseActionView::Continue))
        } else {
            Err(RestoreErrorView::WindowIdentityChanged { address })
        },
    }
}

/// The compositor took the command that closes the window at hand.
pub open spec fn step_closed(state: ReplacementView) -> (ReplacementView, CloseActionView) {
    (
        ReplacementView {
            dispatched: state.dispatched.insert(state.queue[state.index].address),
            started: true,
            index: state.index + 1,
            ..state
        },
        if state.marked && !state.started {
            CloseActionView::MarkInProgress
        } else {
            CloseActionView::Continue
        },
    )
}

/// Some closed window is still there.  `processes` tells of the processes of
/// the windows that are there.
pub open spec fn some_remain(
    pending: Seq<(Seq<char>, ObservedClientView)>,
    clients: Seq<HyprClientView>,
    processes: Seq<ProcessState>,
) -> bool {
    exists|p: int, c: int|
        0 <= p < pending.len() && 0 <= c < clients.len() && remains(
            #[trigger] pending[p],
            #[trigger] clients[c],
            processes[c],
        )
}

/// A closed window is still there.
pub open spec fn remains(
    entry: (Seq<char>, ObservedClientView),
    current: HyprClientView,
    process: ProcessState,
) -> bool {
    current.address == entry.0 && observe::still_stands(entry.1, current, process)
}

/// A window that the restored session must leave alone: it was not there at
/// the start, or it was closed and came back, or it is not in the snapshot.
pub open spec fn is_newcomer(state: ReplacementView, address: Seq<char>) -> bool {
    ||| address.len() == 0
    ||| !launched::addresses_of(state.queue).contains(address)
    ||| state.dispatched.contains(address)
    ||| state.safety is Some && !is_saved_address(state.safety->0, address)
}

/// The addresses that the restored session must leave alone.
pub open spec fn protected_after(
    state: ReplacementView,
    clients: Seq<HyprClientView>,
) -> Set<Seq<char>> {
    Set::new(
        |a: Seq<char>|
            state.protected.contains(a) || (is_newcomer(state, a) && launched::addresses_of(
                clients,
            ).contains(a)),
    )
}

/// A replacement is complete and may be finished.
pub open spec fn is_clean(report: crate::restore::report::ReconcileReportView) -> bool {
    report.failed == 0 && report.skipped == 0
}

/// Tells whether nothing failed and nothing was left out.
pub fn report_is_clean(report: &ReconcileReport) -> (r: bool)
    ensures
        r == is_clean(report@),
{
    report.failed == 0 && report.skipped == 0
}

/// What comes of waiting for a while.
#[derive(Debug, Clone, Copy, PartialEq, Eq, Structural)]
pub enum WaitStep {
    /// Wait on.
    GoOn,
    /// Nothing has to be waited for any more.
    Done,
    /// The time is up.
    TimedOut,
}

/// What comes of waiting for windows to close.
pub open spec fn wait_after(still_open: bool, elapsed: u64, limit: u64) -> WaitStep {
    if !still_open {
        WaitStep::Done
    } else if elapsed >= limit {
        WaitStep::TimedOut
    } else {
        WaitStep::GoOn
    }
}

/// Tells what comes of waiting for windows to close.  Windows that are gone
/// end it, however late that is seen.
pub fn wait_step(still_open: bool, elapsed: u64, limit: u64) -> (r: WaitStep)
    ensures
        r == wait_after(still_open, elapsed, limit),
{
    if !still_open {
        WaitStep::Done
    } else if elapsed >= limit {
        WaitStep::TimedOut
    } else {
        WaitStep::GoOn
    }
}

/// A replacement that closes the desktop.
#[derive(Debug)]
pub struct Replacement {
    queue: Vec<HyprClient>,
    index: usize,
    safety: Option<Vec<SessionClient>>,
    marked: bool,
    pending: Table<ObservedClient>,
    protected: TextSet,
    dispatched: TextSet,
    started: bool,
}

/// The windows of an optional snapshot.
pub open spec fn saved_of(saved: Option<Vec<SessionClient>>) -> Option<Seq<SessionClientView>> {
    match saved {
        Some(list) => Some(list.deep_view()),
        None => None,
    }
}

impl View for Replacement {
    type V = ReplacementView;

    closed spec fn view(&self) -> ReplacementView {
        ReplacementView {
            queue: self.queue.deep_view(),
            index: self.index as int,
            safety: saved_of(self.safety),
            marked: self.marked,
            pending: self.pending@,
            protected: self.protected@,
            dispatched: self.dispatched@,
            started: self.started,
        }
    }
}

/// The outcome of a step.
pub open spec fn is_step(
    after: ReplacementView,
    r: Result<CloseAction, RestoreError>,
    expected: Result<(ReplacementView, CloseActionView), RestoreErrorView>,
) -> bool {
    match (r, expected) {
        (Ok(action), Ok((state, asked))) => after == state && action@ == asked,
        (Err(error), Err(problem)) => error@ == problem,
        _ => false,
    }
}

impl Replacement {
    /// Starts to close the windows that were read.
    pub(crate) fn begin(
        clients: &[HyprClient],
        safety: Option<&[SessionClient]>,
        marked: bool,
    ) -> (r: Self)
        ensures
            r@ == replacement_start(
                clients.deep_view(),
                match safety {
                    Some(saved) => Some(saved.deep_view()),
                    None => None,
                },
                marked,
            ),
    {
        let ghost all = clients.deep_view();
        let ghost keep = |c: HyprClientView| c.address.len() > 0;
        let mut queue: Vec<HyprClient> = Vec::new();
        let mut i: usize = 0;
        proof {
            reveal(Seq::filter);
            assert(queue.deep_view() =~= all.take(0).filter(keep));
        }
        while i < clients.len()
            invariant
                i <= clients.len(),
                all == clients.deep_view(),
                keep == (|c: HyprClientView| c.address.len() > 0),
                queue.deep_view() == all.take(i as int).filter(keep),
            decreases clients.len() - i,
        {
            let client = &clients[i];
            let ghost before = queue.deep_view();
            proof {
                lists::lemma_filter_step(all, keep, i as int);
                assert(all[i as int] == client@);
            }
            if !client.address.as_str().is_empty() {
                let copy = client.clone();
                queue.push(copy);
                assert(queue.deep_view() =~= before.push(client@));
            }
            i += 1;
        }
        assert(all.take(all.len() as int) =~= all);
        let saved = match safety {
            Some(saved) => Some(session::copy_clients(saved)),
            None => None,
        };
        Replacement {
            queue,
            index: 0,
            safety: saved,
            marked,
            pending: Table::new(),
            protected: TextSet::new(),
            dispatched: TextSet::new(),
            started: false,
        }
    }

    fn leave_alone(&mut self)
        requires
            old(self)@.index < old(self)@.queue.len(),
        ensures
            final(self)@ == leaves_alone(old(self)@),
    {
        assert(self@.queue.len() == self.queue.len());
        assert(self@.queue[self.index as int] == self.queue[self.index as int]@);
        let address = self.queue[self.index].address.clone();
        self.pending.remove(address.as_str());
        self.protected.insert(address);
        self.index += 1;
    }

    fn saves(&self, address: &str) -> (r: bool)
        ensures
            r == (self@.safety is Some ==> is_saved_address(self@.safety->0, address@)),
    {
        match &self.safety {
            Some(saved) => find_saved(saved, address).is_some(),
            None => true,
        }
    }

    /// Goes on.
    pub(crate) fn next(&mut self) -> (r: CloseAction)
        requires
            old(self)@.index <= old(self)@.queue.len(),
        ensures
            (final(self)@, r@) == step_on(old(self)@),
            final(self)@.index <= final(self)@.queue.len(),
    {
        assert(self@.queue.len() == self.queue.len());
        if self.index >= self.queue.len() {
            return if self.marked && !self.started {
                CloseAction::MarkInProgress
            } else {
                CloseAction::Wait
            };
        }
        let client = &self.queue[self.index];
        assert(self@.queue[self.index as int] == client@);
        if !self.saves(client.address.as_str()) {
            self.leave_alone();
            return CloseAction::Continue;
        }
        CloseAction::Recheck { address: client.address.clone(), pid: client.pid }
    }

    /// Takes the windows that were read again.
    pub(crate) fn rechecked(
        &mut self,
        start_time: Option<u64>,
        clients: &[HyprClient],
        process: ProcessState,
    ) -> (r: Result<CloseAction, RestoreError>)
        requires
            old(self)@.index < old(self)@.queue.len(),
        ensures
            is_step(
                final(self)@,
                r,
                step_rechecked(old(self)@, start_time, clients.deep_view(), process),
            ),
            final(self)@.index <= final(self)@.queue.len(),
    {
        assert(self@.queue.len() == self.queue.len());
        let ghost here = clients.deep_view();
        let client = self.queue[self.index].clone();
        assert(self@.queue[self.index as int] == client@);
        let address = client.address.clone();
        let place = match observe::find_address(clients, address.as_str()) {
            Some(place) => place,
            None => {
                self.pending.remove(address.as_str());
                self.index += 1;
                return Ok(CloseAction::Continue);
            },
        };
        let current = &clients[place];
        assert(here[place as int] == current@);
        let expected = launched::expect_window(client, start_time, None);
        assert(expected@ == expected_at(self@, start_time));
        let is_safe = observe::observed_window_identity_matches(&expected, current, process)
            && !observe::identity_is_ambiguous_without_stable_id(&expected, current, clients);
        let is_saved = match &self.safety {
            Some(saved) => match find_saved(saved, address.as_str()) {
                Some(i) => {
                    assert(saved.deep_view()[i as int] == saved[i as int]@);
                    observe::safety_snapshot_identity_matches(&saved[i], current)
                },
                None => true,
            },
            None => true,
        };
        assert((is_safe && is_saved) == may_close(
            self@,
            start_time,
            here,
            process,
            place as int,
        ));
        if !is_safe || !is_saved {
            if self.safety.is_some() {
                self.leave_alone();
                return Ok(CloseAction::Continue);
            }
            return Err(RestoreError::WindowIdentityChanged { address });
        }
        let mark = if self.marked && !self.started {
            Some(
                ClosingMark {
                    address: current.address.clone(),
                    pid: current.pid,
                    start_time: process.start_time,
                    stable_id: text::copy_option(&current.stable_id),
                },
            )
        } else {
            None
        };
        let command = "closewindow address:".to_owned().concat(address.as_str());
        self.pending.insert(address, expected);
        Ok(CloseAction::Close { command, mark })
    }

    /// Takes note that the compositor took the command.
    pub(crate) fn closed(&mut self) -> (r: CloseAction)
        requires
            old(self)@.index < old(self)@.queue.len(),
        ensures
            (final(self)@, r@) == step_closed(old(self)@),
            final(self)@.index <= final(self)@.queue.len(),
    {
        assert(self@.queue.len() == self.queue.len());
        assert(self@.queue[self.index as int] == self.queue[self.index as int]@);
        let first = !self.started;
        let address = self.queue[self.index].address.clone();
        self.dispatched.insert(address);
        self.started = true;
        self.index += 1;
        if self.marked && first {
            CloseAction::MarkInProgress
        } else {
            CloseAction::Continue
        }
    }

    /// Tells whether every window was looked at.
    pub(crate) fn is_done(&self) -> (r: bool)
        ensures
            r == (self@.index >= self@.queue.len()),
    {
        assert(self@.queue.len() == self.queue.len());
        self.index >= self.queue.len()
    }

    /// Tells whether some closed window is still there.
    pub(crate) fn still_closing(&self, clients: &[HyprClient], processes: &[ProcessState]) -> (r: bool)
        requires
            processes.len() == clients.len(),
        ensures
            r == some_remain(self@.pending, clients.deep_view(), processes@),
    {
        let ghost held = self@.pending;
        let ghost here = clients.deep_view();
        let mut p: usize = 0;
        while p < self.pending.entries.len()
            invariant
                processes.len() == clients.len(),
                held == self.pending@,
                held.len() == self.pending.entries.len(),
                here == clients.deep_view(),
                p <= self.pending.entries.len(),
                forall|q: int, k: int|
                    0 <= q < p && 0 <= k < here.len() ==> !remains(
                        #[trigger] held[q],
                        #[trigger] here[k],
                        processes@[k],
                    ),
            decreases self.pending.entries.len() - p,
        {
            let entry = &self.pending.entries[p];
            assert(held[p as int] == (entry.0@, entry.1@));
            let mut c: usize = 0;
            while c < clients.len()
                invariant
                    processes.len() == clients.len(),
                    here == clients.deep_view(),
                    held == self.pending@,
                    held.len() == self.pending.entries.len(),
                    p < self.pending.entries.len(),
                    held[p as int] == (entry.0@, entry.1@),
                    c <= clients.len(),
                    forall|k: int|
                        0 <= k < c ==> !remains(
                            held[p as int],
                            #[trigger] here[k],
                            processes@[k],
                        ),
                decreases clients.len() - c,
            {
                let current = &clients[c];
                assert(here[c as int] == current@);
                if text::same(current.address.as_str(), entry.0.as_str())
                    && observe::observed_window_identity_matches(
                    &entry.1,
                    current,
                    processes[c],
                ) {
                    assert(remains(held[p as int], here[c as int], processes@[c as int]));
                    return true;
                }
                c += 1;
            }
            p += 1;
        }
        false
    }

    /// The addresses that the restored session must leave alone, after the
    /// windows were read once more.
    pub(crate) fn protect_newcomers(self, clients: &[HyprClient]) -> (r: TextSet)
        ensures
            r@ == protected_after(self@, clients.deep_view()),
    {
        let ghost state = self@;
        let ghost here = clients.deep_view();
        let initial = launched::collect_addresses(self.queue.as_slice());
        let mut protected = self.protected.clone();
        let mut i: usize = 0;
        assert(protected@ =~= protected_after(state, here.take(0)));
        while i < clients.len()
            invariant
                i <= clients.len(),
                state == self@,
                here == clients.deep_view(),
                initial@ == launched::addresses_of(state.queue),
                protected@ == protected_after(state, here.take(i as int)),
            decreases clients.len() - i,
        {
            let client = &clients[i];
            assert(here[i as int] == client@);
            let ghost head = here.take(i as int);
            let ghost more = here.take(i + 1);
            let address = client.address.as_str();
            let newcomer = address.is_empty() || !initial.contains(address)
                || self.dispatched.contains(address) || !self.saves(address);
            assert(newcomer == is_newcomer(state, client@.address));
            proof {
                assert(more =~= head.push(here[i as int]));
                assert forall|a: Seq<char>| #[trigger]
                    launched::addresses_of(more).contains(a) == (launched::addresses_of(
                        head,
                    ).contains(a) || a == client@.address) by {
                    if launched::addresses_of(head).contains(a) {
                        let k = choose|k: int|
                            0 <= k < head.len() && (#[trigger] head[k]).address == a;
                        assert(more[k] == head[k]);
                    }
                    if a == client@.address {
                        assert(more[i as int] == client@);
                    }
                    if launched::addresses_of(more).contains(a) {
                        let k = choose|k: int|
                            0 <= k < more.len() && (#[trigger] more[k]).address == a;
                        if k < i {
                            assert(head[k] == more[k]);
                        }
                    }
                }
            }
            if newcomer {
                protected.insert(address.to_owned());
            }
            assert(protected@ =~= protected_after(state, more));
            i += 1;
        }
        assert(here.take(i as int) =~= here);
        protected
    }
}

// ── Laws ───────────────────────────────────────────────────────────────────

/// A window is closed only if it is still the window that was read at the
/// start.  With a safety snapshot, it is closed only if the snapshot holds it.
pub proof fn law_only_known_windows_are_closed(
    state: ReplacementView,
    start_time: Option<u64>,
    clients: Seq<HyprClientView>,
    process: ProcessState,
)
    requires
        state.index < state.queue.len(),
        state.safety is Some ==> is_saved_address(
            state.safety->0,
            state.queue[state.index].address,
        ),
        step_rechecked(state, start_time, clients, process) is Ok,
        (step_rechecked(state, start_time, clients, process)->Ok_0).1 is Close,
    ensures
        ({
            let address = state.queue[state.index].address;
            let place = observe::address_from(clients, address, 0);
            &&& place is Some
            &&& (step_rechecked(state, start_time, clients, process)->Ok_0).1->command
                == close_command(address)
            &&& observe::still_stands(
                expected_at(state, start_time),
                clients[place->0],
                process,
            )
            &&& state.safety is Some ==> exists|i: int|
                0 <= i < state.safety->0.len() && observe::is_still_saved(
                    #[trigger] state.safety->0[i],
                    clients[place->0],
                )
        }),
{
    if state.safety is Some {
        let saved = state.safety->0;
        lemma_saved_at(saved, state.queue[state.index].address, saved.len() as int);
    }
}

proof fn lemma_saved_at(clients: Seq<SessionClientView>, address: Seq<char>, n: int)
    requires
        0 <= n <= clients.len(),
    ensures
        match saved_at(clients, address, n) {
            Some(i) => 0 <= i < n && clients[i].address == Some(address),
            None => true,
        },
    decreases n,
{
    if n > 0 {
        lemma_saved_at(clients, address, n - 1);
    }
}

/// With a safety snapshot, a replacement asks to look again only at windows
/// that the snapshot holds; every other window is protected.
pub proof fn law_other_windows_are_protected(state: ReplacementView)
    requires
        0 <= state.index < state.queue.len(),
        state.safety is Some,
    ensures
        step_on(state).1 is Recheck <==> is_saved_address(
            state.safety->0,
            state.queue[state.index].address,
        ),
        !(step_on(state).1 is Recheck) ==> step_on(state).0.protected.contains(
            state.queue[state.index].address,
        ),
{
}

/// Before the first window is closed, what is closed is recorded; after that,
/// the progress is recorded once.
pub proof fn law_first_close_is_recorded(
    state: ReplacementView,
    start_time: Option<u64>,
    clients: Seq<HyprClientView>,
    process: ProcessState,
)
    requires
        state.index < state.queue.len(),
        state.marked,
        step_rechecked(state, start_time, clients, process) is Ok,
        (step_rechecked(state, start_time, clients, process)->Ok_0).1 is Close,
    ensures
        (step_rechecked(state, start_time, clients, process)->Ok_0).1->mark is Some
            <==> !state.started,
        step_closed(state).1 is MarkInProgress <==> !state.started,
        step_closed(state).0.started,
{
}

/// What came up after a replacement started is protected, and so is what was
/// closed and came back.
pub proof fn law_newcomers_are_protected(
    state: ReplacementView,
    clients: Seq<HyprClientView>,
    i: int,
)
    requires
        0 <= i < clients.len(),
        !launched::addresses_of(state.queue).contains(clients[i].address)
            || state.dispatched.contains(clients[i].address),
    ensures
        protected_after(state, clients).contains(clients[i].address),
{
    assert(launched::addresses_of(clients).contains(clients[i].address));
}

} // verus!
