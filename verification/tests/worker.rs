use modbus_watch::worker::{
    register_address, WorkerAction, WorkerEvent, WorkerPhase, WorkerState, MAX_RECONNECT_ATTEMPTS,
    RECONNECT_INTERVAL_SECS, REGISTER_COUNT, START_ADDRESS,
};

fn feed(state: WorkerState, events: &[WorkerEvent]) -> (WorkerState, Vec<WorkerAction>) {
    let mut state = state;
    let mut actions = Vec::new();
    for e in events {
        let (s, a) = state.step(*e);
        state = s;
        actions.push(a);
    }
    (state, actions)
}

#[test]
fn worker_starts_by_checking_the_flag() {
    let (s, a) = WorkerState::new();
    assert_eq!(s, WorkerState { phase: WorkerPhase::CheckingRunning, read_count: 0, attempts: 0 });
    assert_eq!(a, WorkerAction::CheckRunning);
    assert_eq!(s.action(), WorkerAction::CheckRunning);
}

#[test]
fn worker_constants() {
    assert_eq!(MAX_RECONNECT_ATTEMPTS, 5);
    assert_eq!(RECONNECT_INTERVAL_SECS, 5);
    assert_eq!(START_ADDRESS, 0);
    assert_eq!(REGISTER_COUNT, 5);
}

#[test]
fn worker_happy_round_reads_five_registers_from_zero() {
    let (s, _) = WorkerState::new();
    let (s, actions) = feed(
        s,
        &[WorkerEvent::Running(true), WorkerEvent::Ticked, WorkerEvent::Connected, WorkerEvent::ReadFinished],
    );
    assert_eq!(
        actions,
        vec![
            WorkerAction::WaitTick,
            WorkerAction::Connect,
            WorkerAction::ReadRegisters { read_number: 1, start_address: 0, register_count: 5 },
            WorkerAction::CheckRunning,
        ]
    );
    assert_eq!(s.read_count, 1);
    assert_eq!(s.phase, WorkerPhase::CheckingRunning);
}

#[test]
fn worker_reads_are_numbered_consecutively() {
    let (s, _) = WorkerState::new();
    let round = [WorkerEvent::Running(true), WorkerEvent::Ticked, WorkerEvent::Connected, WorkerEvent::ReadFinished];
    let (s, _) = feed(s, &round);
    let (s, actions) = feed(s, &round);
    assert_eq!(actions[2], WorkerAction::ReadRegisters { read_number: 2, start_address: 0, register_count: 5 });
    assert_eq!(s.read_count, 2);
}

#[test]
fn worker_stops_when_flag_is_clear() {
    let (s, _) = WorkerState::new();
    let (s, a) = s.step(WorkerEvent::Running(false));
    assert_eq!(s.phase, WorkerPhase::Stopped);
    assert_eq!(a, WorkerAction::Exit);
}

#[test]
fn worker_retries_five_times_then_skips() {
    let (s, _) = WorkerState::new();
    let (mut s, actions) = feed(s, &[WorkerEvent::Running(true), WorkerEvent::Ticked]);
    assert_eq!(actions[1], WorkerAction::Connect);
    let mut connects = 1;
    for attempt in 1..=5usize {
        let (s1, a1) = s.step(WorkerEvent::ConnectFailed);
        assert_eq!(a1, WorkerAction::CheckRunning);
        let (s2, a2) = s1.step(WorkerEvent::Running(true));
        assert_eq!(a2, WorkerAction::Backoff { attempt, secs: 5 });
        let (s3, a3) = s2.step(WorkerEvent::BackoffElapsed);
        assert_eq!(a3, WorkerAction::Connect);
        connects += 1;
        s = s3;
    }
    let (s, a) = s.step(WorkerEvent::ConnectFailed);
    assert_eq!(a, WorkerAction::SkipRound);
    assert_eq!(connects, 6);
    let (s, a) = s.step(WorkerEvent::Skipped);
    assert_eq!(a, WorkerAction::CheckRunning);
    assert_eq!(s.read_count, 0);
    let (s, a) = s.step(WorkerEvent::Running(true));
    assert_eq!(a, WorkerAction::WaitTick);
    let (s, a) = s.step(WorkerEvent::Ticked);
    assert_eq!(a, WorkerAction::Connect);
    assert_eq!(s.attempts, 0);
}

#[test]
fn worker_connects_after_retry_and_counts_the_read() {
    let (s, _) = WorkerState::new();
    let (s, actions) = feed(
        s,
        &[
            WorkerEvent::Running(true),
            WorkerEvent::Ticked,
            WorkerEvent::ConnectFailed,
            WorkerEvent::Running(true),
            WorkerEvent::BackoffElapsed,
            WorkerEvent::Connected,
        ],
    );
    assert_eq!(actions[3], WorkerAction::Backoff { attempt: 1, secs: 5 });
    assert_eq!(actions[5], WorkerAction::ReadRegisters { read_number: 1, start_address: 0, register_count: 5 });
    assert_eq!(s.read_count, 1);
}

#[test]
fn worker_stop_during_retry_skips_then_exits() {
    let (s, _) = WorkerState::new();
    let (s, actions) = feed(
        s,
        &[
            WorkerEvent::Running(true),
            WorkerEvent::Ticked,
            WorkerEvent::ConnectFailed,
            WorkerEvent::Running(false),
            WorkerEvent::Skipped,
            WorkerEvent::Running(false),
        ],
    );
    assert_eq!(
        actions[2..].to_vec(),
        vec![WorkerAction::CheckRunning, WorkerAction::SkipRound, WorkerAction::CheckRunning, WorkerAction::Exit]
    );
    assert!(!actions.contains(&WorkerAction::Backoff { attempt: 1, secs: 5 }));
    assert_eq!(s.phase, WorkerPhase::Stopped);
}

#[test]
fn worker_stopped_stays_stopped() {
    let s = WorkerState { phase: WorkerPhase::Stopped, read_count: 3, attempts: 0 };
    for e in [
        WorkerEvent::Running(true),
        WorkerEvent::Ticked,
        WorkerEvent::Connected,
        WorkerEvent::ConnectFailed,
        WorkerEvent::BackoffElapsed,
        WorkerEvent::Skipped,
        WorkerEvent::ReadFinished,
    ] {
        let (s2, a) = s.step(e);
        assert_eq!(s2, s);
        assert_eq!(a, WorkerAction::Exit);
    }
}

#[test]
fn worker_ignores_an_unexpected_event() {
    let (s, _) = WorkerState::new();
    let (s2, a) = s.step(WorkerEvent::Connected);
    assert_eq!(s2, s);
    assert_eq!(a, WorkerAction::CheckRunning);
    let s = WorkerState { phase: WorkerPhase::WaitingTick, read_count: 0, attempts: 0 };
    let (s2, a) = s.step(WorkerEvent::Running(false));
    assert_eq!(s2, s);
    assert_eq!(a, WorkerAction::WaitTick);
}

#[test]
fn worker_gives_up_at_once_when_attempts_are_spent() {
    let s = WorkerState { phase: WorkerPhase::Connecting, read_count: 7, attempts: 5 };
    let (s2, a) = s.step(WorkerEvent::ConnectFailed);
    assert_eq!(s2.phase, WorkerPhase::Skipping);
    assert_eq!(a, WorkerAction::SkipRound);
}

#[test]
fn register_addresses() {
    assert_eq!(register_address(0, 0), Some(0));
    assert_eq!(register_address(0, 4), Some(4));
    assert_eq!(register_address(100, 3), Some(103));
    assert_eq!(register_address(65535, 0), Some(65535));
    assert_eq!(register_address(65535, 1), None);
}

#[test]
fn worker_with_cleared_flag_stops_within_five_moves() {
    for start in [
        WorkerPhase::WaitingTick,
        WorkerPhase::Connecting,
        WorkerPhase::CheckingRetry,
        WorkerPhase::BackingOff,
        WorkerPhase::Skipping,
        WorkerPhase::Reading,
        WorkerPhase::CheckingRunning,
    ] {
        let mut s = WorkerState { phase: start, read_count: 1, attempts: 1 };
        let mut connects = 0;
        let mut reads = 0;
        let mut moves = 0;
        while s.phase != WorkerPhase::Stopped {
            let e = match s.action() {
                WorkerAction::CheckRunning => WorkerEvent::Running(false),
                WorkerAction::WaitTick => WorkerEvent::Ticked,
                WorkerAction::Connect => WorkerEvent::Connected,
                WorkerAction::Backoff { .. } => WorkerEvent::BackoffElapsed,
                WorkerAction::SkipRound => WorkerEvent::Skipped,
                WorkerAction::ReadRegisters { .. } => WorkerEvent::ReadFinished,
                WorkerAction::Exit => unreachable!(),
            };
            let (n, a) = s.step(e);
            if a == WorkerAction::Connect && s.phase != WorkerPhase::Connecting {
                connects += 1;
            }
            if matches!(a, WorkerAction::ReadRegisters { .. }) {
                reads += 1;
            }
            s = n;
            moves += 1;
        }
        assert!(moves <= 5);
        assert!(connects <= 1);
        assert!(reads <= 1);
    }
}
