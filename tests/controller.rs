use nn_trainer::execution::{ActiveButtons, Events, ExecutionObjects, Phase, Resume, RunMode, Wait, Wake};

#[test]
fn starts_paused_and_blocks() {
    let e = ExecutionObjects::new();
    assert_eq!(e.iteration, 0);
    assert_eq!(e.run_mode, RunMode::Pause);
    assert_eq!(e.wait_kind(), Wait::Block);
}

#[test]
fn pause_ignores_elapsed_waits_and_pause_requests() {
    let mut e = ExecutionObjects::new();
    for wake in [Wake::Elapsed, Wake::Event(Events::PauseRequested), Wake::Elapsed] {
        let (_, resume) = e.on_block(wake);
        assert_eq!(resume, Resume::KeepWaiting);
        assert_eq!(e.run_mode, RunMode::Pause);
    }
}

#[test]
fn pause_request_while_paused_publishes_at_once() {
    let mut e = ExecutionObjects::new();
    assert_eq!(e.on_block(Wake::Event(Events::PauseRequested)), (true, Resume::KeepWaiting));
    assert_eq!(e.run_mode, RunMode::Pause);
}

#[test]
fn step_request_advances_one_phase() {
    let mut e = ExecutionObjects::new();
    assert_eq!(e.on_block(Wake::Event(Events::SteppingRequested)), (false, Resume::Advance));
    assert_eq!(e.run_mode, RunMode::Stepping);
    assert_eq!(e.complete_phase(Phase::Forward), Phase::Backward);
    assert_eq!(e.wait_kind(), Wait::Block);
}

#[test]
fn elapsed_wait_while_stepping_continues() {
    let mut e = ExecutionObjects { iteration: 3, run_mode: RunMode::Stepping };
    assert_eq!(e.on_block(Wake::Elapsed), (false, Resume::Advance));
    assert_eq!(e.run_mode, RunMode::Stepping);
    assert_eq!(e.iteration, 3);
}

#[test]
fn play_request_switches_to_polling() {
    let mut e = ExecutionObjects::new();
    assert_eq!(e.on_block(Wake::Event(Events::PlayRequested)), (false, Resume::Poll));
    assert_eq!(e.run_mode, RunMode::Running);
    assert_eq!(e.wait_kind(), Wait::Poll);
}

#[test]
fn pause_while_running_halts_at_next_boundary() {
    let mut e = ExecutionObjects { iteration: 7, run_mode: RunMode::Running };
    assert!(!e.on_poll(None));
    assert_eq!(e.run_mode, RunMode::Running);
    assert!(e.on_poll(Some(Events::PauseRequested)));
    assert_eq!(e.run_mode, RunMode::Pause);
    assert_eq!(e.wait_kind(), Wait::Block);
}

#[test]
fn step_request_while_running() {
    let mut e = ExecutionObjects { iteration: 0, run_mode: RunMode::Running };
    assert!(!e.on_poll(Some(Events::SteppingRequested)));
    assert_eq!(e.run_mode, RunMode::Stepping);
    assert!(!e.on_poll(Some(Events::PlayRequested)));
    assert_eq!(e.run_mode, RunMode::Running);
}

#[test]
fn iteration_counts_full_cycles() {
    let mut e = ExecutionObjects::new();
    let mut phase = Phase::Forward;
    for _ in 0..6 {
        phase = e.complete_phase(phase);
    }
    assert_eq!(phase, Phase::Forward);
    assert_eq!(e.iteration, 3);
}

#[test]
fn buttons_follow_mode() {
    let e = ExecutionObjects { iteration: 0, run_mode: RunMode::Stepping };
    assert_eq!(e.buttons(), ActiveButtons { pause: false, stepping: true, play: false });
    let e = ExecutionObjects { iteration: 0, run_mode: RunMode::Pause };
    assert_eq!(e.buttons(), ActiveButtons { pause: true, stepping: false, play: false });
    let e = ExecutionObjects { iteration: 0, run_mode: RunMode::Running };
    assert_eq!(e.buttons(), ActiveButtons { pause: false, stepping: false, play: true });
}
