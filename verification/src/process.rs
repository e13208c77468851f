//! Running one child process under a deadline: the decisions.
//!
//! A caller starts the child, watches it, and reads its output. After each
//! look it hands the sighting to [`RunState::step`], which says what to do
//! next. Killing a child does not close its pipes, because another process may
//! hold them open; so the wait for the readers of its output has a deadline of
//! its own.

use vstd::prelude::*;

verus! {

/// How often a wait looks again, in milliseconds.
pub const POLL_INTERVAL_MS: u64 = 10;

/// How long a run waits for the readers once the child is gone, in
/// milliseconds.
pub const DEFAULT_READER_GRACE_MS: u64 = 2_000;

/// What one finished or killed child produced.
#[derive(Debug, Clone, PartialEq, Eq)]
pub struct CommandOutcome {
    pub stdout: String,
    pub stderr: String,
    /// Absent when a signal ended the process, as it does at the deadline.
    pub exit_code: Option<i32>,
    /// Whether the deadline killed the child.
    pub timed_out: bool,
    /// Whether a reader was given up on, so that the output may be short.
    pub output_truncated: bool,
}

impl Default for CommandOutcome {
    /// A run without output, exit code or deadline.
    fn default() -> (r: Self)
        ensures
            r.stdout@.len() == 0,
            r.stderr@.len() == 0,
            r.exit_code is None,
            !r.timed_out,
            !r.output_truncated,
    {
        CommandOutcome {
            stdout: String::new(),
            stderr: String::new(),
            exit_code: None,
            timed_out: false,
            output_truncated: false,
        }
    }
}

/// How far a run has come. Times are nanoseconds on the caller's clock.
#[derive(Debug, Clone, PartialEq, Eq)]
pub enum RunState {
    /// The child is alive; it is killed at the deadline.
    Watching { deadline: u128 },
    /// The child is killed and reaped. Its readers have not been looked at since.
    Reaping,
    /// The child is gone; its readers are given up on at the deadline.
    Draining { deadline: u128, exit_code: Option<i32>, timed_out: bool },
    /// The run is over.
    Finished { exit_code: Option<i32>, timed_out: bool, output_truncated: bool },
    /// The child could not be watched.
    Failed { message: String },
}

/// What one look at the child, or at its readers, found.
#[derive(Debug, Clone, PartialEq, Eq)]
pub enum Sighting {
    /// The child ended. A child that a signal ended has no code.
    Exited { code: Option<i32> },
    /// The child is alive.
    Running,
    /// The child cannot be watched.
    Lost { error: String },
    /// Which of the two readers have read to the end.
    Readers { stdout_done: bool, stderr_done: bool },
}

/// What the caller does next.
#[derive(Debug, Clone, Copy, PartialEq, Eq, Structural)]
pub enum RunAction {
    /// Sleep for the poll interval, then look again.
    Sleep,
    /// Kill the child and reap it, then look at the readers.
    KillAndReap,
    /// Kill the child, and report the failure.
    KillAndFail,
    /// Look at the readers.
    LookAtReaders,
    /// Collect what the readers have read.
    Collect,
}

/// The moment `after` a moment, or the last one there is.
pub open spec fn later(now: u128, after: u128) -> u128 {
    if now + after > u128::MAX {
        u128::MAX
    } else {
        (now + after) as u128
    }
}

fn moment_after(now: u128, after: u128) -> (r: u128)
    ensures
        r == later(now, after),
{
    if now > u128::MAX - after {
        u128::MAX
    } else {
        now + after
    }
}

/// Whether a run that was in `state` goes on as `next`, with `action`, after a
/// sighting. A look at the readers tells nothing of a child that is watched: it
/// counts as alive. The grace of the readers starts at the look that finds the
/// child ended, or at the first look behind the reaping of a killed child.
pub open spec fn steps_to(
    state: RunState,
    program: Seq<char>,
    grace: u128,
    seen: Sighting,
    now: u128,
    next: RunState,
    action: RunAction,
) -> bool {
    match (state, seen) {
        (RunState::Watching { deadline }, Sighting::Exited { code }) => next
            == (RunState::Draining { deadline: later(now, grace), exit_code: code, timed_out: false })
            && action == RunAction::LookAtReaders,
        (
            RunState::Watching { deadline },
            Sighting::Running | Sighting::Readers { .. },
        ) => if now >= deadline {
            next == RunState::Reaping && action == RunAction::KillAndReap
        } else {
            next == state && action == RunAction::Sleep
        },
        (RunState::Watching { deadline }, Sighting::Lost { error }) => next matches RunState::Failed {
            message,
        } && message@ == "cannot wait for "@ + program + ": "@ + error@ && action
            == RunAction::KillAndFail,
        (RunState::Reaping, Sighting::Readers { stdout_done, stderr_done }) => if stdout_done
            && stderr_done {
            next == (RunState::Finished {
                exit_code: None,
                timed_out: true,
                output_truncated: false,
            }) && action == RunAction::Collect
        } else {
            next == (RunState::Draining {
                deadline: later(now, grace),
                exit_code: None,
                timed_out: true,
            }) && action == RunAction::LookAtReaders
        },
        (RunState::Reaping, _) => next == state && action == RunAction::LookAtReaders,
        (
            RunState::Draining { deadline, exit_code, timed_out },
            Sighting::Readers { stdout_done, stderr_done },
        ) => if stdout_done && stderr_done {
            next == (RunState::Finished { exit_code, timed_out, output_truncated: false })
                && action == RunAction::Collect
        } else if now >= deadline {
            next == (RunState::Finished { exit_code, timed_out, output_truncated: true })
                && action == RunAction::Collect
        } else {
            next == state && action == RunAction::Sleep
        },
        (RunState::Draining { .. }, _) => next == state && action == RunAction::LookAtReaders,
        (RunState::Finished { .. }, _) => next == state && action == RunAction::Collect,
        (RunState::Failed { .. }, _) => next == state && action == RunAction::KillAndFail,
    }
}

impl RunState {
    /// A run whose child has just been started.
    pub fn start(now: u128, timeout: u128) -> (r: Self)
        ensures
            r == (RunState::Watching { deadline: later(now, timeout) }),
    {
        RunState::Watching { deadline: moment_after(now, timeout) }
    }

    /// Takes in a sighting, and says what to do next. `grace` is how long the
    /// readers get once the child is gone.
    pub fn step(self, program: &str, grace: u128, seen: Sighting, now: u128) -> (r: (
        RunState,
        RunAction,
    ))
        ensures
            steps_to(self, program@, grace, seen, now, r.0, r.1),
    {
        match self {
            RunState::Watching { deadline } => match seen {
                Sighting::Exited { code } => (
                    RunState::Draining {
                        deadline: moment_after(now, grace),
                        exit_code: code,
                        timed_out: false,
                    },
                    RunAction::LookAtReaders,
                ),
                Sighting::Running | Sighting::Readers { .. } => if now >= deadline {
                    (RunState::Reaping, RunAction::KillAndReap)
                } else {
                    (RunState::Watching { deadline }, RunAction::Sleep)
                },
                Sighting::Lost { error } => {
                    let mut message = "cannot wait for ".to_owned();
                    message.append(program);
                    message.append(": ");
                    message.append(&error);
                    (RunState::Failed { message }, RunAction::KillAndFail)
                },
            },
            RunState::Reaping => match seen {
                Sighting::Readers { stdout_done, stderr_done } => {
                    if stdout_done && stderr_done {
                        (
                            RunState::Finished {
                                exit_code: None,
                                timed_out: true,
                                output_truncated: false,
                            },
                            RunAction::Collect,
                        )
                    } else {
                        (
                            RunState::Draining {
                                deadline: moment_after(now, grace),
                                exit_code: None,
                                timed_out: true,
                            },
                            RunAction::LookAtReaders,
                        )
                    }
                },
                _ => (RunState::Reaping, RunAction::LookAtReaders),
            },
            RunState::Draining { deadline, exit_code, timed_out } => match seen {
                Sighting::Readers { stdout_done, stderr_done } => {
                    if stdout_done && stderr_done {
                        (
                            RunState::Finished { exit_code, timed_out, output_truncated: false },
                            RunAction::Collect,
                        )
                    } else if now >= deadline {
                        (
                            RunState::Finished { exit_code, timed_out, output_truncated: true },
                            RunAction::Collect,
                        )
                    } else {
                        (
                            RunState::Draining { deadline, exit_code, timed_out },
                            RunAction::Sleep,
                        )
                    }
                },
                _ => (
                    RunState::Draining { deadline, exit_code, timed_out },
                    RunAction::LookAtReaders,
                ),
            },
            RunState::Finished { exit_code, timed_out, output_truncated } => (
                RunState::Finished { exit_code, timed_out, output_truncated },
                RunAction::Collect,
            ),
            RunState::Failed { message } => (
                RunState::Failed { message },
                RunAction::KillAndFail,
            ),
        }
    }
}

/// The text of bytes that need not be valid UTF-8: what cannot be decoded is
/// replaced.
pub uninterp spec fn lossy_text(bytes: Seq<u8>) -> Seq<char>;

/// `String::from_utf8_lossy` depends on the bytes alone; `lossy_text` names its
/// result. Bytes that are valid UTF-8 are decoded as they stand.
#[verifier::external_body]
fn decode_lossy(bytes: &[u8]) -> (text: String)
    ensures
        text@ == lossy_text(bytes@),
        vstd::utf8::valid_utf8(bytes@) ==> text@ == vstd::utf8::decode_utf8(bytes@),
{
    String::from_utf8_lossy(bytes).into_owned()
}

/// Puts together what a run produced from what its readers have read. A run
/// that is not over produces nothing yet; one that failed reports why.
pub fn collect(state: RunState, stdout: &[u8], stderr: &[u8]) -> (r: Option<
    Result<CommandOutcome, String>,
>)
    ensures
        match state {
            RunState::Finished { exit_code, timed_out, output_truncated } => r matches Some(
                Ok(outcome),
            ) && outcome.stdout@ == lossy_text(stdout@) && outcome.stderr@ == lossy_text(stderr@)
                && outcome.exit_code == exit_code && outcome.timed_out == timed_out
                && outcome.output_truncated == output_truncated && (vstd::utf8::valid_utf8(stdout@)
                ==> outcome.stdout@ == vstd::utf8::decode_utf8(stdout@)) && (
            vstd::utf8::valid_utf8(stderr@) ==> outcome.stderr@ == vstd::utf8::decode_utf8(
                stderr@,
            )),
            RunState::Failed { message } => r == Some(Err::<CommandOutcome, String>(message)),
            _ => r is None,
        },
{
    match state {
        RunState::Finished { exit_code, timed_out, output_truncated } => Some(
            Ok(
                CommandOutcome {
                    stdout: decode_lossy(stdout),
                    stderr: decode_lossy(stderr),
                    exit_code,
                    timed_out,
                    output_truncated,
                },
            ),
        ),
        RunState::Failed { message } => Some(Err(message)),
        _ => None,
    }
}

/// Why a child could not be started.
pub fn start_failure(program: &str, error: &str) -> (message: String)
    ensures
        message@ == "cannot start "@ + program@ + ": "@ + error@,
{
    let mut message = "cannot start ".to_owned();
    message.append(program);
    message.append(": ");
    message.append(error);
    message
}

/// Why a child that was started cannot be used: it lacks a pipe.
pub fn missing_pipe(program: &str, pipe: &str) -> (message: String)
    ensures
        message@ == program@ + " has no "@ + pipe@ + " pipe"@,
{
    let mut message = program.to_owned();
    message.append(" has no ");
    message.append(pipe);
    message.append(" pipe");
    message
}

// ---- laws -------------------------------------------------------------------

/// The deadline bounds the whole run, not just the child. A run sleeps only
/// before the deadline of the state that it is in. The readers get their grace,
/// and no more, from the look that found the child ended, or from the first look
/// behind its reaping. The deadline of a state never moves.
pub proof fn every_wait_ends(
    state: RunState,
    program: Seq<char>,
    grace: u128,
    seen: Sighting,
    now: u128,
    next: RunState,
    action: RunAction,
)
    requires
        steps_to(state, program, grace, seen, now, next, action),
    ensures
        action == RunAction::Sleep ==> next == state && match state {
            RunState::Watching { deadline } => now < deadline,
            RunState::Draining { deadline, .. } => now < deadline,
            _ => false,
        },
        (state is Watching || state is Reaping) && next is Draining ==> next->Draining_deadline
            == later(now, grace) && next->Draining_deadline <= now + grace,
        state is Watching && next is Draining ==> seen is Exited,
        state is Draining && next is Draining ==> next == state,
        next is Watching ==> next == state,
{
}

/// Output is given up on only when the grace is over. Of a killed child it runs
/// from the first look behind the reaping, at `gone`: a look before `gone + grace`
/// never cuts the output short.
pub proof fn readers_get_their_whole_grace(
    program: Seq<char>,
    grace: u128,
    first: Sighting,
    gone: u128,
    draining: RunState,
    first_action: RunAction,
    seen: Sighting,
    now: u128,
    next: RunState,
    action: RunAction,
)
    requires
        steps_to(RunState::Reaping, program, grace, first, gone, draining, first_action),
        steps_to(draining, program, grace, seen, now, next, action),
        now < later(gone, grace),
    ensures
        next matches RunState::Finished { output_truncated, .. } ==> !output_truncated,
        draining is Draining && next is Draining ==> next == draining,
{
}

/// A child is killed for its deadline exactly when it is still alive then, and
/// a run whose child was killed is marked so and has no exit code.
pub proof fn only_a_late_child_is_killed(
    state: RunState,
    program: Seq<char>,
    grace: u128,
    seen: Sighting,
    now: u128,
    next: RunState,
    action: RunAction,
)
    requires
        steps_to(state, program, grace, seen, now, next, action),
    ensures
        action == RunAction::KillAndReap <==> (state matches RunState::Watching { deadline }
            && (seen is Running || seen is Readers) && now >= deadline),
        next is Reaping <==> action == RunAction::KillAndReap || state is Reaping && !(
        seen is Readers),
        state is Reaping && next is Draining ==> next->Draining_timed_out
            && next->Draining_exit_code is None,
        state is Reaping && next is Finished ==> next->Finished_timed_out
            && next->Finished_exit_code is None,
{
}

/// What ended the child is what is reported: its code and whether it was late
/// are kept until the end, and output counts as short exactly when a reader was
/// not done.
pub proof fn the_end_is_kept(
    state: RunState,
    program: Seq<char>,
    grace: u128,
    stdout_done: bool,
    stderr_done: bool,
    now: u128,
    next: RunState,
    action: RunAction,
)
    requires
        steps_to(
            state,
            program,
            grace,
            (Sighting::Readers { stdout_done, stderr_done }),
            now,
            next,
            action,
        ),
        state is Draining || state is Reaping,
        next is Finished,
    ensures
        state is Draining ==> next->Finished_exit_code == state->Draining_exit_code,
        state is Draining ==> next->Finished_timed_out == state->Draining_timed_out,
        next->Finished_output_truncated == !(stdout_done && stderr_done),
{
}

/// A child that ended by itself is reported with its own code and is not marked
/// as late. A deadline lies as far ahead as was asked for, unless time ends
/// first.
pub proof fn ended_children_keep_their_code(
    deadline: u128,
    program: Seq<char>,
    grace: u128,
    code: Option<i32>,
    now: u128,
    next: RunState,
    action: RunAction,
)
    requires
        steps_to(
            (RunState::Watching { deadline }),
            program,
            grace,
            (Sighting::Exited { code }),
            now,
            next,
            action,
        ),
    ensures
        next is Draining,
        next->Draining_exit_code == code,
        !next->Draining_timed_out,
        now + grace <= u128::MAX ==> next->Draining_deadline == now + grace,
        action == RunAction::LookAtReaders,
{
}

/// A child that cannot be watched fails the run, and the message names the
/// program and what went wrong. A run that is over stays as it ended.
pub proof fn failed_runs_say_why(
    state: RunState,
    program: Seq<char>,
    grace: u128,
    seen: Sighting,
    now: u128,
    next: RunState,
    action: RunAction,
)
    requires
        steps_to(state, program, grace, seen, now, next, action),
    ensures
        next is Failed && !(state is Failed) ==> state is Watching && seen is Lost
            && next->Failed_message@ == "cannot wait for "@ + program + ": "@ + seen->Lost_error@,
        state is Watching && seen is Lost ==> next is Failed && action == RunAction::KillAndFail,
        state is Failed || state is Finished ==> next == state,
        next is Finished ==> action == RunAction::Collect,
        action == RunAction::Collect ==> next is Finished,
{
}

/// A run that is started lasts as long as it may, unless time ends first.
pub proof fn runs_last_as_long_as_they_may(now: u128, timeout: u128, r: RunState)
    requires
        call_ensures(RunState::start, (now, timeout), r),
    ensures
        r is Watching,
        now + timeout <= u128::MAX ==> r->Watching_deadline == now + timeout,
        now + timeout > u128::MAX ==> r->Watching_deadline == u128::MAX,
{
}

/// Only a run that is over is collected: a failed one as its message, a finished
/// one with its code, its marks and what each pipe gave. A pipe that gave valid
/// text gives that text.
pub proof fn outcomes_keep_what_was_read(
    state: RunState,
    stdout: &[u8],
    stderr: &[u8],
    r: Option<Result<CommandOutcome, String>>,
)
    requires
        call_ensures(collect, (state, stdout, stderr), r),
    ensures
        r is Some <==> state is Finished || state is Failed,
        state matches RunState::Failed { message } ==> r == Some(
            Err::<CommandOutcome, String>(message),
        ),
        state matches RunState::Finished { exit_code, timed_out, output_truncated } ==> (r->0
            matches Ok(outcome) && {
            &&& outcome.exit_code == exit_code
            &&& outcome.timed_out == timed_out
            &&& outcome.output_truncated == output_truncated
            &&& vstd::utf8::valid_utf8(stdout@) ==> outcome.stdout@ == vstd::utf8::decode_utf8(
                stdout@,
            )
            &&& vstd::utf8::valid_utf8(stderr@) ==> outcome.stderr@ == vstd::utf8::decode_utf8(
                stderr@,
            )
        }),
{
}

} // verus!
