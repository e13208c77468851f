//! The error that every tool reports.

use vstd::prelude::*;

use crate::action::ActionError;
use crate::binary64::Numbers;
use crate::coords::CoordError;
use crate::permission::PermissionError;
use crate::recording::RecordingError;
use crate::selector::SelectorError;

verus! {

/// Which axis a coordinate error refers to.
#[derive(Debug, Clone, Copy, PartialEq, Eq, Structural)]
pub enum CoordAxis {
    X,
    Y,
}

impl CoordAxis {
    /// The name of the axis.
    pub open spec fn shown(self) -> Seq<char> {
        match self {
            CoordAxis::X => "x"@,
            CoordAxis::Y => "y"@,
        }
    }

    /// The name of the axis.
    pub fn name(&self) -> (out: String)
        ensures
            out@ == self.shown(),
    {
        match self {
            CoordAxis::X => "x".to_owned(),
            CoordAxis::Y => "y".to_owned(),
        }
    }
}

/// Why a tool call failed.
#[derive(Debug, Clone, PartialEq, Eq)]
pub enum PolarizeError {
    /// A coordinate conversion was refused.
    Coord(CoordError),
    /// A permission that the tool needs is not granted.
    Permission(PermissionError),
    /// A selector did not resolve to one element.
    Selector(SelectorError),
    /// The element that was found cannot perform the action.
    Action(ActionError),
    /// A recording was refused.
    Recording(RecordingError),
    /// The app is not running.
    AppNotFound(String),
    /// The app has no such window.
    WindowNotFound(String),
    /// A call into the platform failed.
    Platform(String),
    /// The screen is locked.
    ScreenLocked,
    /// Another session holds the console.
    SessionNotOnConsole,
}

impl PolarizeError {
    /// Whether `text` is what the error says.
    pub open spec fn says<N: Numbers>(self, numbers: &N, text: Seq<char>) -> bool {
        match self {
            PolarizeError::Coord(e) => e.says(numbers, text),
            PolarizeError::Permission(e) => text == e.said(),
            PolarizeError::Selector(e) => text == e.said(),
            PolarizeError::Action(e) => text == e.said(),
            PolarizeError::Recording(e) => text == e.said(),
            PolarizeError::AppNotFound(s) => text == "app not found: "@ + s@,
            PolarizeError::WindowNotFound(s) => text == "window not found: "@ + s@,
            PolarizeError::Platform(s) => text == "platform error: "@ + s@,
            PolarizeError::ScreenLocked => text
                == "screen is locked; unlock this Mac and call the tool again"@,
            PolarizeError::SessionNotOnConsole => text
                == "login session is not on the console; another user holds the display through Fast User Switching"@,
        }
    }

    /// The error in words.
    pub fn message<N: Numbers>(&self, numbers: &N) -> (out: String)
        ensures
            self.says(numbers, out@),
    {
        match self {
            PolarizeError::Coord(e) => e.message(numbers),
            PolarizeError::Permission(e) => e.message(),
            PolarizeError::Selector(e) => e.message(),
            PolarizeError::Action(e) => e.message(),
            PolarizeError::Recording(e) => e.message(),
            PolarizeError::AppNotFound(s) => {
                let mut out = "app not found: ".to_owned();
                out.append(s);
                out
            },
            PolarizeError::WindowNotFound(s) => {
                let mut out = "window not found: ".to_owned();
                out.append(s);
                out
            },
            PolarizeError::Platform(s) => {
                let mut out = "platform error: ".to_owned();
                out.append(s);
                out
            },
            PolarizeError::ScreenLocked =>
                "screen is locked; unlock this Mac and call the tool again".to_owned(),
            PolarizeError::SessionNotOnConsole =>
                "login session is not on the console; another user holds the display through Fast User Switching".to_owned(),
        }
    }

    /// Whether the caller's request is at fault, and not the environment.
    pub open spec fn blames_request(self) -> bool {
        match self {
            PolarizeError::Coord(_)
            | PolarizeError::Selector(_)
            | PolarizeError::Action(_)
            | PolarizeError::Recording(_)
            | PolarizeError::AppNotFound(_)
            | PolarizeError::WindowNotFound(_) => true,
            PolarizeError::Permission(_)
            | PolarizeError::Platform(_)
            | PolarizeError::ScreenLocked
            | PolarizeError::SessionNotOnConsole => false,
        }
    }

    /// Whether the caller's request is at fault, and not the environment.
    pub fn is_bad_request(&self) -> (r: bool)
        ensures
            r == self.blames_request(),
    {
        match self {
            PolarizeError::Coord(_)
            | PolarizeError::Selector(_)
            | PolarizeError::Action(_)
            | PolarizeError::Recording(_)
            | PolarizeError::AppNotFound(_)
            | PolarizeError::WindowNotFound(_) => true,
            _ => false,
        }
    }

    /// The permission that is missing, when one is.
    pub fn missing_permission(&self) -> (r: Option<PermissionError>)
        ensures
            r == match *self {
                PolarizeError::Permission(e) => Some(e),
                _ => None,
            },
    {
        match self {
            PolarizeError::Permission(e) => Some(*e),
            _ => None,
        }
    }
}

impl From<CoordError> for PolarizeError {
    fn from(error: CoordError) -> (r: Self) {
        PolarizeError::Coord(error)
    }
}

impl vstd::std_specs::convert::FromSpecImpl<CoordError> for PolarizeError {
    open spec fn obeys_from_spec() -> bool {
        true
    }

    open spec fn from_spec(error: CoordError) -> Self {
        PolarizeError::Coord(error)
    }
}

impl From<PermissionError> for PolarizeError {
    fn from(error: PermissionError) -> (r: Self) {
        PolarizeError::Permission(error)
    }
}

impl vstd::std_specs::convert::FromSpecImpl<PermissionError> for PolarizeError {
    open spec fn obeys_from_spec() -> bool {
        true
    }

    open spec fn from_spec(error: PermissionError) -> Self {
        PolarizeError::Permission(error)
    }
}

impl From<SelectorError> for PolarizeError {
    fn from(error: SelectorError) -> (r: Self) {
        PolarizeError::Selector(error)
    }
}

impl vstd::std_specs::convert::FromSpecImpl<SelectorError> for PolarizeError {
    open spec fn obeys_from_spec() -> bool {
        true
    }

    open spec fn from_spec(error: SelectorError) -> Self {
        PolarizeError::Selector(error)
    }
}

impl From<ActionError> for PolarizeError {
    fn from(error: ActionError) -> (r: Self) {
        PolarizeError::Action(error)
    }
}

impl vstd::std_specs::convert::FromSpecImpl<ActionError> for PolarizeError {
    open spec fn obeys_from_spec() -> bool {
        true
    }

    open spec fn from_spec(error: ActionError) -> Self {
        PolarizeError::Action(error)
    }
}

impl From<RecordingError> for PolarizeError {
    fn from(error: RecordingError) -> (r: Self) {
        PolarizeError::Recording(error)
    }
}

impl vstd::std_specs::convert::FromSpecImpl<RecordingError> for PolarizeError {
    open spec fn obeys_from_spec() -> bool {
        true
    }

    open spec fn from_spec(error: RecordingError) -> Self {
        PolarizeError::Recording(error)
    }
}

// ---- laws -------------------------------------------------------------------

/// An error blames the request exactly when another request could do better: a
/// coordinate, a selector, an action, a recording, an app or a window that was
/// asked for wrongly. A missing permission, a failure of the platform and a
/// session that cannot be used are not its fault.
pub proof fn errors_blame_the_request_rightly(e: PolarizeError)
    ensures
        e.blames_request() <==> !(e is Permission) && !(e is Platform) && !(e is ScreenLocked) && !(
        e is SessionNotOnConsole),
{
}

/// What an error says names what is wrong, and keeps its message.
pub proof fn errors_keep_their_message<N: Numbers>(numbers: &N, e: PolarizeError, text: Seq<char>)
    requires
        e.says(numbers, text),
    ensures
        match e {
            PolarizeError::AppNotFound(s) => text == "app not found: "@ + s@,
            PolarizeError::WindowNotFound(s) => text == "window not found: "@ + s@,
            PolarizeError::Platform(s) => text == "platform error: "@ + s@,
            PolarizeError::Coord(inner) => inner.says(numbers, text),
            PolarizeError::Permission(inner) => text == inner.said(),
            PolarizeError::Selector(inner) => text == inner.said(),
            PolarizeError::Action(inner) => text == inner.said(),
            PolarizeError::Recording(inner) => text == inner.said(),
            PolarizeError::ScreenLocked => text
                == "screen is locked; unlock this Mac and call the tool again"@,
            PolarizeError::SessionNotOnConsole => text
                == "login session is not on the console; another user holds the display through Fast User Switching"@,
        },
{
}

/// An error tells of a missing permission exactly when it is one.
pub proof fn missing_permissions_are_told(e: PolarizeError, r: Option<PermissionError>)
    requires
        call_ensures(PolarizeError::missing_permission, (&e,), r),
    ensures
        r is Some <==> e is Permission,
        r matches Some(p) ==> e == PolarizeError::Permission(p),
{
}

} // verus!
