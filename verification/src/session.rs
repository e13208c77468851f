//! The login session, and whether a tool may run in it.

use vstd::prelude::*;

use crate::error::PolarizeError;

verus! {

/// The two facts about the login session that a tool depends on.
#[derive(Debug, Clone, Copy, PartialEq, Eq, Structural)]
pub struct SessionState {
    /// Whether this session owns the console.
    pub on_console: bool,
    /// Whether the screen is locked.
    pub screen_locked: bool,
}

impl Default for SessionState {
    /// On the console, and unlocked.
    fn default() -> (r: Self)
        ensures
            r == (SessionState { on_console: true, screen_locked: false }),
    {
        SessionState { on_console: true, screen_locked: false }
    }
}

/// Reads the login session.
pub trait SessionInspector {
    fn session_state(&self) -> SessionState;
}

impl SessionState {
    /// Whether a tool may run in this state.
    pub open spec fn usable(self) -> bool {
        self.on_console && !self.screen_locked
    }

    /// The state that two optional flags report. A flag that is absent reads
    /// as the usable value.
    pub open spec fn of_flags(on_console: Option<bool>, screen_locked: Option<bool>) -> Self {
        SessionState {
            on_console: on_console.unwrap_or(true),
            screen_locked: screen_locked.unwrap_or(false),
        }
    }

    /// Builds a state from two optional flags. A flag that is absent reads as
    /// the usable value.
    pub fn from_flags(on_console: Option<bool>, screen_locked: Option<bool>) -> (r: Self)
        ensures
            r == Self::of_flags(on_console, screen_locked),
    {
        let fallback = SessionState::default();
        SessionState {
            on_console: on_console.unwrap_or(fallback.on_console),
            screen_locked: screen_locked.unwrap_or(fallback.screen_locked),
        }
    }

    /// Whether a tool may run in this state.
    pub fn is_usable(self) -> (r: bool)
        ensures
            r == self.usable(),
    {
        self.on_console && !self.screen_locked
    }
}

/// What the session check answers. The console comes first, because a locked
/// screen can be repaired only in a session that owns it.
pub open spec fn session_answer(state: SessionState) -> Result<(), PolarizeError> {
    if !state.on_console {
        Err(PolarizeError::SessionNotOnConsole)
    } else if state.screen_locked {
        Err(PolarizeError::ScreenLocked)
    } else {
        Ok(())
    }
}

/// Refuses a session that does not own the console, or whose screen is
/// locked.
pub fn check_session(state: SessionState) -> (r: Result<(), PolarizeError>)
    ensures
        r == session_answer(state),
{
    if !state.on_console {
        return Err(PolarizeError::SessionNotOnConsole);
    }
    if state.screen_locked {
        return Err(PolarizeError::ScreenLocked);
    }
    Ok(())
}

/// Reads the session state, and checks it.
pub fn ensure_session_usable<I: SessionInspector>(inspector: &I) -> (r: Result<(), PolarizeError>)
    ensures
        exists|state: SessionState|
            #[trigger] call_ensures(I::session_state, (inspector,), state) && r == session_answer(
                state,
            ),
{
    let state = inspector.session_state();
    check_session(state)
}

// ---- laws -------------------------------------------------------------------

/// A state is usable exactly when the check lets it pass.
pub proof fn usable_is_what_passes(state: SessionState)
    ensures
        state.usable() <==> session_answer(state) is Ok,
{
}

/// When no flag is reported, the session counts as usable; and reporting the
/// two usable values changes nothing.
pub proof fn absent_flags_are_usable(on_console: Option<bool>, screen_locked: Option<bool>)
    ensures
        SessionState::of_flags(None, None).usable(),
        SessionState::of_flags(None, screen_locked) == SessionState::of_flags(
            Some(true),
            screen_locked,
        ),
        SessionState::of_flags(on_console, None) == SessionState::of_flags(on_console, Some(false)),
{
}

/// A session is refused exactly when it is not on the console or its screen is
/// locked, and for the console first. What is not reported counts as usable.
pub proof fn sessions_are_refused_for_a_reason(on_console: Option<bool>, screen_locked: Option<bool>)
    ensures
        ({
            let state = SessionState::of_flags(on_console, screen_locked);
            &&& session_answer(state) == Err::<(), PolarizeError>(
                PolarizeError::SessionNotOnConsole,
            ) <==> on_console == Some(false)
            &&& session_answer(state) == Err::<(), PolarizeError>(PolarizeError::ScreenLocked)
                <==> on_console != Some(false) && screen_locked == Some(true)
            &&& session_answer(state) is Ok <==> on_console != Some(false) && screen_locked != Some(
                true,
            )
            &&& state.usable() <==> session_answer(state) is Ok
        }),
{
}

} // verus!
