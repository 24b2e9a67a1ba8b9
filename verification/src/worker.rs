//! The polling loop of one Modbus device, as a state machine.
//!
//! A device worker repeats rounds while its running flag is set: it waits for
//! the next interval tick, connects (retrying a failed connection up to
//! `MAX_RECONNECT_ATTEMPTS` times, `RECONNECT_INTERVAL_SECS` apart, as long as
//! the flag stays set), reads `REGISTER_COUNT` holding registers from
//! `START_ADDRESS`, and drops the connection. A round whose connection cannot
//! be made is skipped.
//!
//! `WorkerState::step` takes the outcome of the last action and returns the
//! next state and the next action; the caller performs the action.

use vstd::prelude::*;

verus! {

/// How many times a failed connection is retried within one round.
pub const MAX_RECONNECT_ATTEMPTS: usize = 5;

/// Seconds to wait before each reconnection attempt.
pub const RECONNECT_INTERVAL_SECS: u64 = 5;

/// First holding register read in each round.
pub const START_ADDRESS: u16 = 0;

/// Number of holding registers read in each round.
pub const REGISTER_COUNT: u16 = 5;

/// Where the worker stands in its loop.
#[derive(Clone, Copy, Debug, PartialEq, Eq, Structural)]
pub enum WorkerPhase {
    /// At the top of the loop: the running flag decides whether to go on.
    CheckingRunning,
    /// Waiting for the next interval tick.
    WaitingTick,
    /// A connection attempt is pending.
    Connecting,
    /// A connection failed and retries remain: the running flag decides.
    CheckingRetry,
    /// Waiting before the next reconnection attempt.
    BackingOff,
    /// The round is given up: the failure is reported.
    Skipping,
    /// Connected: the registers are being read.
    Reading,
    /// The loop has ended.
    Stopped,
}

/// The worker's state: its phase, the number of successful connections so
/// far (which numbers the reads), and the reconnection attempts made in the
/// current round.
#[derive(Clone, Copy, Debug, PartialEq, Eq, Structural)]
pub struct WorkerState {
    pub phase: WorkerPhase,
    pub read_count: usize,
    pub attempts: usize,
}

/// The outcome of the action the worker asked for.
#[derive(Clone, Copy, Debug, PartialEq, Eq, Structural)]
pub enum WorkerEvent {
    /// The running flag was read, with this value.
    Running(bool),
    /// The interval ticked.
    Ticked,
    /// The connection was established.
    Connected,
    /// The connection attempt failed.
    ConnectFailed,
    /// The wait before a reconnection is over.
    BackoffElapsed,
    /// The skipped round was reported.
    Skipped,
    /// The read finished (successfully or not) and the connection is dropped.
    ReadFinished,
}

/// What the worker asks its driver to do next.
#[derive(Clone, Copy, Debug, PartialEq, Eq, Structural)]
pub enum WorkerAction {
    /// Read the running flag and report it as `WorkerEvent::Running`.
    CheckRunning,
    /// Wait for the next interval tick.
    WaitTick,
    /// Try to connect to the device.
    Connect,
    /// Report reconnection attempt number `attempt`, then wait `secs` seconds.
    Backoff { attempt: usize, secs: u64 },
    /// Report that the round is skipped because no connection could be made.
    SkipRound,
    /// Announce read number `read_number`, read `register_count` holding
    /// registers from `start_address`, report the result and drop the connection.
    ReadRegisters { read_number: usize, start_address: u16, register_count: u16 },
    /// Leave the loop.
    Exit,
}

/// The address of the register at position `index` of a read that starts at
/// `start`; `None` when it would not fit in 16 bits.
pub fn register_address(start: u16, index: u16) -> (r: Option<u16>)
    ensures
        r == (if start + index <= u16::MAX {
            Some((start + index) as u16)
        } else {
            None::<u16>
        }),
{
    start.checked_add(index)
}

/// Phases that belong to the connection part of a round.
pub open spec fn in_round(s: WorkerState) -> bool {
    s.phase == WorkerPhase::Connecting || s.phase == WorkerPhase::CheckingRetry
        || s.phase == WorkerPhase::BackingOff
}

impl WorkerState {
    /// The invariant of every reachable state.
    pub open spec fn wf(self) -> bool {
        &&& self.attempts <= MAX_RECONNECT_ATTEMPTS
        &&& self.phase == WorkerPhase::CheckingRetry ==> self.attempts < MAX_RECONNECT_ATTEMPTS
        &&& self.phase == WorkerPhase::BackingOff ==> self.attempts >= 1
        &&& self.phase == WorkerPhase::Reading ==> self.read_count >= 1
    }

    /// The action that goes with a state.
    pub open spec fn pending_action(self) -> WorkerAction {
        match self.phase {
            WorkerPhase::CheckingRunning => WorkerAction::CheckRunning,
            WorkerPhase::WaitingTick => WorkerAction::WaitTick,
            WorkerPhase::Connecting => WorkerAction::Connect,
            WorkerPhase::CheckingRetry => WorkerAction::CheckRunning,
            WorkerPhase::BackingOff => WorkerAction::Backoff {
                attempt: self.attempts,
                secs: RECONNECT_INTERVAL_SECS,
            },
            WorkerPhase::Skipping => WorkerAction::SkipRound,
            WorkerPhase::Reading => WorkerAction::ReadRegisters {
                read_number: self.read_count,
                start_address: START_ADDRESS,
                register_count: REGISTER_COUNT,
            },
            WorkerPhase::Stopped => WorkerAction::Exit,
        }
    }

    /// The state after `event`. An event that does not answer the pending
    /// action leaves the state as it is.
    pub open spec fn next_state(self, event: WorkerEvent) -> WorkerState {
        let with_phase = |p: WorkerPhase| WorkerState { phase: p, ..self };
        match (self.phase, event) {
            (WorkerPhase::CheckingRunning, WorkerEvent::Running(true)) => with_phase(
                WorkerPhase::WaitingTick,
            ),
            (WorkerPhase::CheckingRunning, WorkerEvent::Running(false)) => with_phase(
                WorkerPhase::Stopped,
            ),
            (WorkerPhase::WaitingTick, WorkerEvent::Ticked) => WorkerState {
                phase: WorkerPhase::Connecting,
                attempts: 0,
                ..self
            },
            (WorkerPhase::Connecting, WorkerEvent::Connected) => WorkerState {
                phase: WorkerPhase::Reading,
                read_count: (self.read_count + 1) as usize,
                ..self
            },
            (WorkerPhase::Connecting, WorkerEvent::ConnectFailed) => if self.attempts
                < MAX_RECONNECT_ATTEMPTS {
                with_phase(WorkerPhase::CheckingRetry)
            } else {
                with_phase(WorkerPhase::Skipping)
            },
            (WorkerPhase::CheckingRetry, WorkerEvent::Running(true)) => WorkerState {
                phase: WorkerPhase::BackingOff,
                attempts: (self.attempts + 1) as usize,
                ..self
            },
            (WorkerPhase::CheckingRetry, WorkerEvent::Running(false)) => with_phase(
                WorkerPhase::Skipping,
            ),
            (WorkerPhase::BackingOff, WorkerEvent::BackoffElapsed) => with_phase(
                WorkerPhase::Connecting,
            ),
            (WorkerPhase::Skipping, WorkerEvent::Skipped) => with_phase(
                WorkerPhase::CheckingRunning,
            ),
            (WorkerPhase::Reading, WorkerEvent::ReadFinished) => with_phase(
                WorkerPhase::CheckingRunning,
            ),
            _ => self,
        }
    }

    /// Whether `event` can be taken without overflowing the read counter
    /// (the loop counts its reads in a `usize`).
    pub open spec fn can_take(self, event: WorkerEvent) -> bool {
        (self.phase == WorkerPhase::Connecting && event == WorkerEvent::Connected)
            ==> self.read_count < usize::MAX
    }

    /// A fresh worker, about to check its running flag for the first time,
    /// and the action it asks for.
    pub fn new() -> (r: (WorkerState, WorkerAction))
        ensures
            r.0 == (WorkerState { phase: WorkerPhase::CheckingRunning, read_count: 0, attempts: 0 }),
            r.0.wf(),
            r.1 == r.0.pending_action(),
            r.1 == WorkerAction::CheckRunning,
    {
        let s = WorkerState { phase: WorkerPhase::CheckingRunning, read_count: 0, attempts: 0 };
        (s, WorkerAction::CheckRunning)
    }

    /// The action that goes with this state.
    pub fn action(&self) -> (a: WorkerAction)
        ensures
            a == self.pending_action(),
    {
        match self.phase {
            WorkerPhase::CheckingRunning => WorkerAction::CheckRunning,
            WorkerPhase::WaitingTick => WorkerAction::WaitTick,
            WorkerPhase::Connecting => WorkerAction::Connect,
            WorkerPhase::CheckingRetry => WorkerAction::CheckRunning,
            WorkerPhase::BackingOff => WorkerAction::Backoff {
                attempt: self.attempts,
                secs: RECONNECT_INTERVAL_SECS,
            },
            WorkerPhase::Skipping => WorkerAction::SkipRound,
            WorkerPhase::Reading => WorkerAction::ReadRegisters {
                read_number: self.read_count,
                start_address: START_ADDRESS,
                register_count: REGISTER_COUNT,
            },
            WorkerPhase::Stopped => WorkerAction::Exit,
        }
    }

    /// Takes the outcome of the pending action and returns the next state
    /// with the action that goes with it.
    pub fn step(self, event: WorkerEvent) -> (r: (WorkerState, WorkerAction))
        requires
            self.wf(),
            self.can_take(event),
        ensures
            r.0 == self.next_state(event),
            r.1 == r.0.pending_action(),
            r.0.wf(),
    {
        let next = match (self.phase, event) {
            (WorkerPhase::CheckingRunning, WorkerEvent::Running(running)) => {
                if running {
                    WorkerState { phase: WorkerPhase::WaitingTick, ..self }
                } else {
                    WorkerState { phase: WorkerPhase::Stopped, ..self }
                }
            },
            (WorkerPhase::WaitingTick, WorkerEvent::Ticked) => WorkerState {
                phase: WorkerPhase::Connecting,
                attempts: 0,
                ..self
            },
            (WorkerPhase::Connecting, WorkerEvent::Connected) => WorkerState {
                phase: WorkerPhase::Reading,
                read_count: self.read_count + 1,
                ..self
            },
            (WorkerPhase::Connecting, WorkerEvent::ConnectFailed) => {
                if self.attempts < MAX_RECONNECT_ATTEMPTS {
                    WorkerState { phase: WorkerPhase::CheckingRetry, ..self }
                } else {
                    WorkerState { phase: WorkerPhase::Skipping, ..self }
                }
            },
            (WorkerPhase::CheckingRetry, WorkerEvent::Running(running)) => {
                if running {
                    WorkerState {
                        phase: WorkerPhase::BackingOff,
                        attempts: self.attempts + 1,
                        ..self
                    }
                } else {
                    WorkerState { phase: WorkerPhase::Skipping, ..self }
                }
            },
            (WorkerPhase::BackingOff, WorkerEvent::BackoffElapsed) => WorkerState {
                phase: WorkerPhase::Connecting,
                ..self
            },
            (WorkerPhase::Skipping, WorkerEvent::Skipped) => WorkerState {
                phase: WorkerPhase::CheckingRunning,
                ..self
            },
            (WorkerPhase::Reading, WorkerEvent::ReadFinished) => WorkerState {
                phase: WorkerPhase::CheckingRunning,
                ..self
            },
            _ => self,
        };
        let action = next.action();
        (next, action)
    }
}


/// The state reached from `s` by taking `events` in order.
pub open spec fn run(s: WorkerState, events: Seq<WorkerEvent>) -> WorkerState
    decreases events.len(),
{
    if events.len() == 0 {
        s
    } else {
        run(s.next_state(events[0]), events.drop_first())
    }
}

/// How many connection attempts the round that `s` stands in makes while
/// `events` are taken, counting each entry into `Connecting` until the round
/// ends (by a read or a skip).
pub open spec fn connects_in_round(s: WorkerState, events: Seq<WorkerEvent>) -> nat
    decreases events.len(),
{
    if events.len() == 0 || !(in_round(s) || s.phase == WorkerPhase::WaitingTick) {
        0
    } else {
        let n = s.next_state(events[0]);
        (if n.phase == WorkerPhase::Connecting && s.phase != WorkerPhase::Connecting {
            1nat
        } else {
            0nat
        }) + connects_in_round(n, events.drop_first())
    }
}

/// How many `Connected` events the worker accepts while taking `events` from `s`.
pub open spec fn successful_connects(s: WorkerState, events: Seq<WorkerEvent>) -> nat
    decreases events.len(),
{
    if events.len() == 0 {
        0
    } else {
        (if s.phase == WorkerPhase::Connecting && events[0] == WorkerEvent::Connected {
            1nat
        } else {
            0nat
        }) + successful_connects(s.next_state(events[0]), events.drop_first())
    }
}

/// States from which the worker makes no further connection attempt as long
/// as its running flag reads false.
pub open spec fn winding_down(s: WorkerState) -> bool {
    s.phase == WorkerPhase::CheckingRunning || s.phase == WorkerPhase::CheckingRetry
        || s.phase == WorkerPhase::Skipping || s.phase == WorkerPhase::Stopped
}

/// Every step keeps the worker's invariant.
pub proof fn lemma_next_state_wf(s: WorkerState, e: WorkerEvent)
    requires
        s.wf(),
        s.can_take(e),
    ensures
        s.next_state(e).wf(),
{
}

/// The invariant holds after any sequence of events that leaves the read
/// counter room to grow.
pub proof fn lemma_run_wf(s: WorkerState, events: Seq<WorkerEvent>)
    requires
        s.wf(),
        s.read_count + events.len() <= usize::MAX,
    ensures
        run(s, events).wf(),
    decreases events.len(),
{
    if events.len() > 0 {
        let n = s.next_state(events[0]);
        assert(n.read_count <= s.read_count + 1);
        lemma_next_state_wf(s, events[0]);
        lemma_run_wf(s.next_state(events[0]), events.drop_first());
    }
}

/// A stopped worker stays stopped, whatever happens, and only asks to exit.
pub proof fn lemma_stopped_is_final(s: WorkerState, events: Seq<WorkerEvent>)
    requires
        s.phase == WorkerPhase::Stopped,
    ensures
        run(s, events) == s,
        run(s, events).pending_action() == WorkerAction::Exit,
    decreases events.len(),
{
    if events.len() > 0 {
        lemma_stopped_is_final(s.next_state(events[0]), events.drop_first());
    }
}

/// The connection attempts that a round can still make from `s`.
pub open spec fn connects_left(s: WorkerState) -> int {
    match s.phase {
        WorkerPhase::WaitingTick => MAX_RECONNECT_ATTEMPTS + 1,
        WorkerPhase::BackingOff => MAX_RECONNECT_ATTEMPTS - s.attempts + 1,
        _ => MAX_RECONNECT_ATTEMPTS - s.attempts,
    }
}

proof fn lemma_connects_within_budget(s: WorkerState, events: Seq<WorkerEvent>)
    requires
        s.wf(),
    ensures
        (in_round(s) || s.phase == WorkerPhase::WaitingTick) ==> connects_in_round(s, events)
            <= connects_left(s),
    decreases events.len(),
{
    if events.len() > 0 && (in_round(s) || s.phase == WorkerPhase::WaitingTick) {
        let n = s.next_state(events[0]);
        if !(s.phase == WorkerPhase::Connecting && events[0] == WorkerEvent::Connected) {
            lemma_next_state_wf(s, events[0]);
            lemma_connects_within_budget(n, events.drop_first());
        }
        assert(connects_in_round(s, events) == (if n.phase == WorkerPhase::Connecting && s.phase
            != WorkerPhase::Connecting {
            1nat
        } else {
            0nat
        }) + connects_in_round(n, events.drop_first()));
    }
}

/// Each round makes at most one connection attempt plus
/// `MAX_RECONNECT_ATTEMPTS` retries, whatever the outcomes.
pub proof fn lemma_round_connects_bounded(s: WorkerState, events: Seq<WorkerEvent>)
    requires
        s.wf(),
        s.phase == WorkerPhase::WaitingTick,
    ensures
        connects_in_round(s, events) <= MAX_RECONNECT_ATTEMPTS + 1,
{
    lemma_connects_within_budget(s, events);
}

/// Once the running flag reads false at a check, no further connection is
/// attempted while every later check reads false too: the worker only reports
/// the skipped round, checks the flag and stops.
pub proof fn lemma_stop_flag_ends_connecting(s: WorkerState, events: Seq<WorkerEvent>)
    requires
        winding_down(s),
        forall|i: int| 0 <= i < events.len() ==> events[i] != WorkerEvent::Running(true),
    ensures
        winding_down(run(s, events)),
        run(s, events).pending_action() != WorkerAction::Connect,
    decreases events.len(),
{
    if events.len() > 0 {
        let rest = events.drop_first();
        assert forall|i: int| 0 <= i < rest.len() implies rest[i] != WorkerEvent::Running(true) by {
            assert(rest[i] == events[i + 1]);
        }
        lemma_stop_flag_ends_connecting(s.next_state(events[0]), rest);
    }
}

/// Reads are numbered by the successful connections: after any events, the
/// read counter has grown by exactly the number of accepted `Connected` events.
pub proof fn lemma_reads_count_connections(s: WorkerState, events: Seq<WorkerEvent>)
    requires
        s.read_count + events.len() <= usize::MAX,
    ensures
        run(s, events).read_count == s.read_count + successful_connects(s, events),
    decreases events.len(),
{
    if events.len() > 0 {
        let n = s.next_state(events[0]);
        assert(n.read_count <= s.read_count + 1);
        lemma_reads_count_connections(n, events.drop_first());
    }
}


/// How many times the worker enters `phase` while taking `events` from `s`.
pub open spec fn entries_into(s: WorkerState, events: Seq<WorkerEvent>, phase: WorkerPhase) -> nat
    decreases events.len(),
{
    if events.len() == 0 {
        0
    } else {
        let n = s.next_state(events[0]);
        (if n.phase == phase && s.phase != phase {
            1nat
        } else {
            0nat
        }) + entries_into(n, events.drop_first(), phase)
    }
}

/// How far the worker is from stopping while its running flag reads false.
pub open spec fn stop_rank(s: WorkerState) -> nat {
    match s.phase {
        WorkerPhase::Stopped => 0,
        WorkerPhase::CheckingRunning => 1,
        WorkerPhase::Skipping => 2,
        WorkerPhase::Reading => 2,
        WorkerPhase::CheckingRetry => 3,
        WorkerPhase::Connecting => 4,
        WorkerPhase::BackingOff => 5,
        WorkerPhase::WaitingTick => 5,
    }
}

/// While the running flag reads false, every event that moves the worker
/// brings it strictly closer to stopping; only a stopped worker is at
/// distance 0. So from any state the worker stops after at most five moves.
pub proof fn lemma_cleared_flag_leads_to_stop(s: WorkerState, e: WorkerEvent)
    requires
        e != WorkerEvent::Running(true),
    ensures
        s.next_state(e) != s ==> stop_rank(s.next_state(e)) < stop_rank(s),
        stop_rank(s) == 0 <==> s.phase == WorkerPhase::Stopped,
        stop_rank(s) <= 5,
{
}

/// The connections still to come while the running flag reads false.
pub open spec fn connects_to_come(s: WorkerState) -> nat {
    if s.phase == WorkerPhase::WaitingTick || s.phase == WorkerPhase::BackingOff {
        1
    } else {
        0
    }
}

/// The reads still to come while the running flag reads false.
pub open spec fn reads_to_come(s: WorkerState) -> nat {
    if s.phase == WorkerPhase::WaitingTick || s.phase == WorkerPhase::BackingOff || s.phase
        == WorkerPhase::Connecting {
        1
    } else {
        0
    }
}

proof fn lemma_cleared_flag_work_budget(s: WorkerState, events: Seq<WorkerEvent>)
    requires
        forall|i: int| 0 <= i < events.len() ==> events[i] != WorkerEvent::Running(true),
    ensures
        entries_into(s, events, WorkerPhase::Connecting) <= connects_to_come(s),
        entries_into(s, events, WorkerPhase::Reading) <= reads_to_come(s),
    decreases events.len(),
{
    if events.len() > 0 {
        let rest = events.drop_first();
        assert forall|i: int| 0 <= i < rest.len() implies rest[i] != WorkerEvent::Running(true) by {
            assert(rest[i] == events[i + 1]);
        }
        lemma_cleared_flag_work_budget(s.next_state(events[0]), rest);
    }
}

/// Once the running flag reads false for good, the worker makes at most one
/// more connection attempt and at most one more read, from whatever state it
/// is in.
pub proof fn lemma_cleared_flag_bounds_work(s: WorkerState, events: Seq<WorkerEvent>)
    requires
        forall|i: int| 0 <= i < events.len() ==> events[i] != WorkerEvent::Running(true),
    ensures
        entries_into(s, events, WorkerPhase::Connecting) <= 1,
        entries_into(s, events, WorkerPhase::Reading) <= 1,
{
    lemma_cleared_flag_work_budget(s, events);
}


/// The events of a round in which every connection attempt fails while the
/// running flag stays set: after the attempt that fails, `retries` more
/// rounds of (flag set, wait over, attempt fails).
pub open spec fn failing_attempts(retries: nat) -> Seq<WorkerEvent>
    decreases retries,
{
    if retries == 0 {
        seq![WorkerEvent::ConnectFailed]
    } else {
        seq![WorkerEvent::ConnectFailed, WorkerEvent::Running(true), WorkerEvent::BackoffElapsed]
            + failing_attempts((retries - 1) as nat)
    }
}

proof fn lemma_failing_attempts(c: WorkerState, retries: nat)
    requires
        c.phase == WorkerPhase::Connecting,
        c.attempts + retries == MAX_RECONNECT_ATTEMPTS,
    ensures
        connects_in_round(c, failing_attempts(retries)) == retries,
        run(c, failing_attempts(retries)).phase == WorkerPhase::Skipping,
    decreases retries,
{
    let evs = failing_attempts(retries);
    if retries == 0 {
        let n = c.next_state(WorkerEvent::ConnectFailed);
        assert(n.phase == WorkerPhase::Skipping);
        assert(evs.drop_first() =~= Seq::<WorkerEvent>::empty());
        assert(connects_in_round(n, evs.drop_first()) == 0);
        assert(run(n, evs.drop_first()) == n);
    } else {
        let rest = failing_attempts((retries - 1) as nat);
        let s1 = c.next_state(WorkerEvent::ConnectFailed);
        let s2 = s1.next_state(WorkerEvent::Running(true));
        let s3 = s2.next_state(WorkerEvent::BackoffElapsed);
        assert(s1.phase == WorkerPhase::CheckingRetry);
        assert(s2.phase == WorkerPhase::BackingOff && s2.attempts == c.attempts + 1);
        assert(s3.phase == WorkerPhase::Connecting && s3.attempts == c.attempts + 1);
        let e1 = evs.drop_first();
        let e2 = e1.drop_first();
        let e3 = e2.drop_first();
        assert(evs[0] == WorkerEvent::ConnectFailed);
        assert(e1 =~= seq![WorkerEvent::Running(true), WorkerEvent::BackoffElapsed] + rest);
        assert(e1[0] == WorkerEvent::Running(true));
        assert(e2 =~= seq![WorkerEvent::BackoffElapsed] + rest);
        assert(e2[0] == WorkerEvent::BackoffElapsed);
        assert(e3 =~= rest);
        lemma_failing_attempts(s3, (retries - 1) as nat);
        assert(connects_in_round(s2, e2) == 1 + connects_in_round(s3, e3));
        assert(connects_in_round(s1, e1) == connects_in_round(s2, e2));
        assert(connects_in_round(c, evs) == connects_in_round(s1, e1));
        assert(run(c, evs) == run(s1, e1));
        assert(run(s1, e1) == run(s2, e2));
        assert(run(s2, e2) == run(s3, e3));
    }
}

/// Every round starts afresh: from any state waiting for the tick, whatever
/// earlier rounds did, a round in which every connection fails while the
/// running flag stays set makes exactly `MAX_RECONNECT_ATTEMPTS + 1`
/// connection attempts and then gives the round up.
pub proof fn lemma_each_round_gets_all_retries(s: WorkerState)
    requires
        s.wf(),
        s.phase == WorkerPhase::WaitingTick,
    ensures
        connects_in_round(s, seq![WorkerEvent::Ticked] + failing_attempts(MAX_RECONNECT_ATTEMPTS as nat))
            == MAX_RECONNECT_ATTEMPTS + 1,
        run(s, seq![WorkerEvent::Ticked] + failing_attempts(MAX_RECONNECT_ATTEMPTS as nat)).phase
            == WorkerPhase::Skipping,
{
    let rest = failing_attempts(MAX_RECONNECT_ATTEMPTS as nat);
    let evs = seq![WorkerEvent::Ticked] + rest;
    let c = s.next_state(WorkerEvent::Ticked);
    assert(c.phase == WorkerPhase::Connecting);
    assert(evs[0] == WorkerEvent::Ticked);
    assert(evs.drop_first() =~= rest);
    lemma_failing_attempts(c, MAX_RECONNECT_ATTEMPTS as nat);
}

} // verus!
