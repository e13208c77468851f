use polarize_core::process::{
    collect, missing_pipe, start_failure, CommandOutcome, RunAction, RunState, Sighting,
    DEFAULT_READER_GRACE_MS, POLL_INTERVAL_MS,
};

const GRACE: u128 = 300;

fn step(state: RunState, seen: Sighting, now: u128) -> (RunState, RunAction) {
    state.step("osascript", GRACE, seen, now)
}

fn readers(stdout_done: bool, stderr_done: bool) -> Sighting {
    Sighting::Readers { stdout_done, stderr_done }
}

#[test]
fn a_child_that_ends_in_time_reports_its_code() {
    let state = RunState::start(1_000, 500);
    assert_eq!(state, RunState::Watching { deadline: 1_500 });
    let (state, action) = step(state, Sighting::Running, 1_499);
    assert_eq!(action, RunAction::Sleep);
    let (state, action) = step(state, Sighting::Exited { code: Some(3) }, 1_600);
    assert_eq!(action, RunAction::LookAtReaders);
    assert_eq!(
        state,
        RunState::Draining { deadline: 1_900, exit_code: Some(3), timed_out: false }
    );
    let (state, action) = step(state, readers(true, true), 1_601);
    assert_eq!(action, RunAction::Collect);
    assert_eq!(
        collect(state, b"out\n", b"err\n"),
        Some(Ok(CommandOutcome {
            stdout: "out\n".to_string(),
            stderr: "err\n".to_string(),
            exit_code: Some(3),
            timed_out: false,
            output_truncated: false,
        }))
    );
}

#[test]
fn a_child_at_its_deadline_is_killed_and_has_no_code() {
    let (state, action) = step(RunState::start(0, 200), Sighting::Running, 200);
    assert_eq!(action, RunAction::KillAndReap);
    assert_eq!(state, RunState::Reaping);
    let (state, action) = step(state, readers(true, true), 900);
    assert_eq!(action, RunAction::Collect);
    assert_eq!(
        state,
        RunState::Finished { exit_code: None, timed_out: true, output_truncated: false }
    );
}

#[test]
fn the_grace_starts_once_a_killed_child_is_gone() {
    let (state, _) = step(RunState::start(0, 200), Sighting::Running, 210);
    let (state, action) = step(state, Sighting::Running, 600);
    assert_eq!((state.clone(), action), (RunState::Reaping, RunAction::LookAtReaders));
    let (state, action) = step(state, readers(false, true), 700);
    assert_eq!(action, RunAction::LookAtReaders);
    assert_eq!(
        state,
        RunState::Draining { deadline: 1_000, exit_code: None, timed_out: true }
    );
    let (late, action) = step(state.clone(), readers(false, true), 999);
    assert_eq!((late, action), (state.clone(), RunAction::Sleep));
    let (state, action) = step(state, readers(true, true), 999);
    assert_eq!(action, RunAction::Collect);
    let outcome = collect(state, b"late", b"").unwrap().unwrap();
    assert_eq!(outcome.stdout, "late");
    assert!(outcome.timed_out && !outcome.output_truncated);
}

#[test]
fn a_held_pipe_is_given_up_on_and_what_arrived_is_kept() {
    let (state, _) = step(RunState::start(0, 200), Sighting::Running, 210);
    let (state, action) = step(state, readers(false, true), 220);
    assert_eq!(action, RunAction::LookAtReaders);
    let (state, action) = step(state, readers(false, true), 519);
    assert_eq!(action, RunAction::Sleep);
    let (state, action) = step(state, readers(false, true), 520);
    assert_eq!(action, RunAction::Collect);
    let outcome = collect(state, b"early\n", b"").unwrap().unwrap();
    assert_eq!(outcome.stdout, "early\n");
    assert!(outcome.timed_out);
    assert!(outcome.output_truncated);
    assert_eq!(outcome.exit_code, None);
}

#[test]
fn a_child_that_cannot_be_watched_fails_the_run() {
    let lost = Sighting::Lost { error: "no such process".to_string() };
    let (state, action) = step(RunState::start(0, 200), lost, 10);
    assert_eq!(action, RunAction::KillAndFail);
    assert_eq!(
        collect(state, b"", b""),
        Some(Err("cannot wait for osascript: no such process".to_string()))
    );
}

#[test]
fn a_run_that_is_not_over_has_no_outcome() {
    assert_eq!(collect(RunState::start(0, 200), b"half", b""), None);
}

#[test]
fn the_last_moment_is_the_latest_deadline() {
    assert_eq!(
        RunState::start(u128::MAX - 1, 5),
        RunState::Watching { deadline: u128::MAX }
    );
}

#[test]
fn bytes_that_are_not_text_are_replaced() {
    let state = RunState::Finished { exit_code: Some(0), timed_out: false, output_truncated: false };
    let outcome = collect(state, b"a\xFFb", "héé".as_bytes()).unwrap().unwrap();
    assert_eq!(outcome.stdout, "a\u{FFFD}b");
    assert_eq!(outcome.stderr, "héé");
}

#[test]
fn failures_to_start_name_the_program() {
    assert_eq!(start_failure("sdef", "not found"), "cannot start sdef: not found");
    assert_eq!(missing_pipe("sdef", "stdin"), "sdef has no stdin pipe");
}

#[test]
fn the_waits_are_short() {
    assert_eq!(POLL_INTERVAL_MS, 10);
    assert_eq!(DEFAULT_READER_GRACE_MS, 2_000);
    assert_eq!(CommandOutcome::default().exit_code, None);
}
