//! Permission states, and which permission each tool needs.

use vstd::prelude::*;

verus! {

/// The state of one system permission.
#[derive(Debug, Clone, Copy, PartialEq, Eq, Structural)]
pub enum PermissionState {
    /// The user was never asked.
    NotDetermined,
    /// The user, or a profile, denied it.
    Denied,
    /// The permission can be used.
    Granted,
    /// A policy blocks it.
    Restricted,
}

impl PermissionState {
    /// The name of the state.
    pub open spec fn shown(self) -> Seq<char> {
        match self {
            PermissionState::NotDetermined => "NotDetermined"@,
            PermissionState::Denied => "Denied"@,
            PermissionState::Granted => "Granted"@,
            PermissionState::Restricted => "Restricted"@,
        }
    }

    /// Whether a tool that needs this permission may run.
    pub fn is_usable(self) -> (r: bool)
        ensures
            r == (self == PermissionState::Granted),
    {
        matches!(self, PermissionState::Granted)
    }

    /// The name of the state.
    pub fn name(&self) -> (out: String)
        ensures
            out@ == self.shown(),
    {
        match self {
            PermissionState::NotDetermined => "NotDetermined".to_owned(),
            PermissionState::Denied => "Denied".to_owned(),
            PermissionState::Granted => "Granted".to_owned(),
            PermissionState::Restricted => "Restricted".to_owned(),
        }
    }
}

/// A system permission that a tool depends on.
#[derive(Debug, Clone, Copy, PartialEq, Eq, Hash, Structural)]
pub enum PermissionKind {
    /// Capturing pixels.
    ScreenRecording,
    /// Reading the accessibility tree, and posting input to other apps.
    Accessibility,
    /// Sending events to another app.
    Automation,
    /// Reading the pasteboard.
    Clipboard,
    /// Reading the input that the user makes.
    InputMonitoring,
}

impl PermissionKind {
    /// The name of the permission's settings pane.
    pub open spec fn shown(self) -> Seq<char> {
        match self {
            PermissionKind::ScreenRecording => "Screen Recording"@,
            PermissionKind::Accessibility => "Accessibility"@,
            PermissionKind::Automation => "Automation"@,
            PermissionKind::Clipboard => "Clipboard"@,
            PermissionKind::InputMonitoring => "Input Monitoring"@,
        }
    }

    /// The name of the permission's settings pane.
    pub fn name(&self) -> (out: String)
        ensures
            out@ == self.shown(),
    {
        match self {
            PermissionKind::ScreenRecording => "Screen Recording".to_owned(),
            PermissionKind::Accessibility => "Accessibility".to_owned(),
            PermissionKind::Automation => "Automation".to_owned(),
            PermissionKind::Clipboard => "Clipboard".to_owned(),
            PermissionKind::InputMonitoring => "Input Monitoring".to_owned(),
        }
    }
}

/// The current state of one permission.
#[derive(Debug, Clone, Copy, PartialEq, Eq, Structural)]
pub struct PermissionStatus {
    pub kind: PermissionKind,
    pub state: PermissionState,
}

/// One tool of the server.
#[derive(Debug, Clone, Copy, PartialEq, Eq, Hash, Structural)]
pub enum ToolKind {
    Screenshot,
    Describe,
    Tap,
    Keyboard,
    PerformAction,
    AwaitUiElement,
    AwaitScreenIdle,
    RunAppleScript,
    ScriptDictionary,
    SetValue,
    HitTest,
    ClipboardRead,
    ClipboardWrite,
    SetWindowFrame,
    WindowAction,
    FindText,
    DescribeNotifications,
    DismissNotification,
    ListWindows,
    AppLaunch,
    AppQuit,
    ListDisplays,
    FrontmostApp,
    AwaitWorkspaceEvent,
    RecordFlow,
}

/// The permission that a tool needs, if it needs one.
pub open spec fn needed_by(tool: ToolKind) -> Option<PermissionKind> {
    match tool {
        ToolKind::Screenshot | ToolKind::FindText => Some(PermissionKind::ScreenRecording),
        ToolKind::RunAppleScript => Some(PermissionKind::Automation),
        ToolKind::ClipboardRead => Some(PermissionKind::Clipboard),
        ToolKind::RecordFlow => Some(PermissionKind::InputMonitoring),
        ToolKind::ScriptDictionary
        | ToolKind::ClipboardWrite
        | ToolKind::AppLaunch
        | ToolKind::AppQuit
        | ToolKind::ListDisplays
        | ToolKind::FrontmostApp
        | ToolKind::AwaitWorkspaceEvent => None,
        ToolKind::Describe
        | ToolKind::Tap
        | ToolKind::Keyboard
        | ToolKind::PerformAction
        | ToolKind::AwaitUiElement
        | ToolKind::AwaitScreenIdle
        | ToolKind::SetValue
        | ToolKind::HitTest
        | ToolKind::SetWindowFrame
        | ToolKind::WindowAction
        | ToolKind::DescribeNotifications
        | ToolKind::DismissNotification
        | ToolKind::ListWindows => Some(PermissionKind::Accessibility),
    }
}

/// The state that a list of statuses reports for a permission: that of the
/// first status of its kind, or not determined when there is none.
pub open spec fn reported_state(
    kind: PermissionKind,
    statuses: Seq<PermissionStatus>,
) -> PermissionState
    decreases statuses.len(),
{
    if statuses.len() == 0 {
        PermissionState::NotDetermined
    } else if statuses[0].kind == kind {
        statuses[0].state
    } else {
        reported_state(kind, statuses.skip(1))
    }
}

/// The permission that a tool needs, if it needs one.
pub fn required_permission(tool: ToolKind) -> (r: Option<PermissionKind>)
    ensures
        r == needed_by(tool),
{
    match tool {
        ToolKind::Screenshot => Some(PermissionKind::ScreenRecording),
        ToolKind::Describe | ToolKind::Tap | ToolKind::Keyboard => Some(
            PermissionKind::Accessibility,
        ),
        ToolKind::PerformAction => Some(PermissionKind::Accessibility),
        ToolKind::AwaitUiElement | ToolKind::AwaitScreenIdle => Some(
            PermissionKind::Accessibility,
        ),
        ToolKind::RunAppleScript => Some(PermissionKind::Automation),
        // A scripting dictionary is read from disk; no event is sent.
        ToolKind::ScriptDictionary => None,
        ToolKind::SetValue => Some(PermissionKind::Accessibility),
        ToolKind::HitTest => Some(PermissionKind::Accessibility),
        // A read of the pasteboard can be withheld; a write never is.
        ToolKind::ClipboardRead => Some(PermissionKind::Clipboard),
        ToolKind::ClipboardWrite => None,
        ToolKind::SetWindowFrame | ToolKind::WindowAction => Some(PermissionKind::Accessibility),
        ToolKind::FindText => Some(PermissionKind::ScreenRecording),
        ToolKind::DescribeNotifications | ToolKind::DismissNotification => Some(
            PermissionKind::Accessibility,
        ),
        ToolKind::ListWindows => Some(PermissionKind::Accessibility),
        ToolKind::AppLaunch
        | ToolKind::AppQuit
        | ToolKind::ListDisplays
        | ToolKind::FrontmostApp
        | ToolKind::AwaitWorkspaceEvent => None,
        // The grant that posts input does not allow reading it.
        ToolKind::RecordFlow => Some(PermissionKind::InputMonitoring),
    }
}

/// Why a tool may not run.
#[derive(Debug, Clone, Copy, PartialEq, Eq, Structural)]
pub enum PermissionError {
    NotGranted { kind: PermissionKind, state: PermissionState },
}

impl PermissionError {
    /// What the error says.
    pub open spec fn said(self) -> Seq<char> {
        match self {
            PermissionError::NotGranted { kind, state } => kind.shown() + " permission is "@
                + state.shown() + ", not granted"@,
        }
    }

    /// The error in words.
    pub fn message(&self) -> (out: String)
        ensures
            out@ == self.said(),
    {
        match self {
            PermissionError::NotGranted { kind, state } => {
                let mut out = kind.name();
                out.append(" permission is ");
                out.append(&state.name());
                out.append(", not granted");
                out
            },
        }
    }
}

/// What the permission check of a tool answers.
pub open spec fn checked(tool: ToolKind, statuses: Seq<PermissionStatus>) -> Result<
    (),
    PermissionError,
> {
    match needed_by(tool) {
        None => Ok(()),
        Some(kind) => {
            let state = reported_state(kind, statuses);
            if state == PermissionState::Granted {
                Ok(())
            } else {
                Err(PermissionError::NotGranted { kind, state })
            }
        },
    }
}

/// Checks that the permission a tool needs is granted. A permission that no
/// status reports counts as not determined.
pub fn check_permission(tool: ToolKind, statuses: &[PermissionStatus]) -> (r: Result<
    (),
    PermissionError,
>)
    ensures
        r == checked(tool, statuses@),
{
    let kind = match required_permission(tool) {
        None => return Ok(()),
        Some(kind) => kind,
    };
    let mut state = PermissionState::NotDetermined;
    let mut i: usize = 0;
    let ghost mut found = false;
    assert(statuses@.skip(0) =~= statuses@);
    while i < statuses.len()
        invariant_except_break
            !found,
            state == PermissionState::NotDetermined,
        invariant
            i <= statuses@.len(),
            !found ==> reported_state(kind, statuses@) == reported_state(
                kind,
                statuses@.skip(i as int),
            ),
        ensures
            found ==> state == reported_state(kind, statuses@),
            !found ==> i == statuses@.len() && state == PermissionState::NotDetermined,
        decreases statuses@.len() - i,
    {
        if statuses[i].kind == kind {
            state = statuses[i].state;
            proof {
                found = true;
            }
            break;
        }
        assert(statuses@.skip(i as int).skip(1) =~= statuses@.skip(i + 1));
        i += 1;
    }
    if state.is_usable() {
        Ok(())
    } else {
        Err(PermissionError::NotGranted { kind, state })
    }
}

// ---- laws -------------------------------------------------------------------

/// A tool that needs no permission always passes the check.
pub proof fn free_tools_pass(tool: ToolKind, statuses: Seq<PermissionStatus>)
    requires
        needed_by(tool) is None,
    ensures
        checked(tool, statuses) is Ok,
{
}

/// A status of one permission has no effect on the check of a tool that
/// needs another one.
pub proof fn other_permissions_do_not_matter(
    tool: ToolKind,
    status: PermissionStatus,
    statuses: Seq<PermissionStatus>,
)
    requires
        needed_by(tool) != Some(status.kind),
    ensures
        checked(tool, seq![status] + statuses) == checked(tool, statuses),
{
    assert((seq![status] + statuses).skip(1) =~= statuses);
}

/// A tool needs the permission for what it does. Capturing pixels needs screen
/// recording; running a script, automation; reading the pasteboard, the
/// clipboard; recording the user's input, input monitoring. What reads or works
/// other apps' elements, windows or notifications, or posts input, needs
/// accessibility, and nothing else does. What is left needs nothing.
pub proof fn tools_need_what_they_use(tool: ToolKind)
    ensures
        needed_by(tool) == Some(PermissionKind::ScreenRecording) <==> tool == ToolKind::Screenshot
            || tool == ToolKind::FindText,
        needed_by(tool) == Some(PermissionKind::Automation) <==> tool == ToolKind::RunAppleScript,
        needed_by(tool) == Some(PermissionKind::Clipboard) <==> tool == ToolKind::ClipboardRead,
        needed_by(tool) == Some(PermissionKind::InputMonitoring) <==> tool == ToolKind::RecordFlow,
        needed_by(tool) == Some(PermissionKind::Accessibility) <==> tool == ToolKind::Describe
            || tool == ToolKind::Tap || tool == ToolKind::Keyboard || tool
            == ToolKind::PerformAction || tool == ToolKind::AwaitUiElement || tool
            == ToolKind::AwaitScreenIdle || tool == ToolKind::SetValue || tool == ToolKind::HitTest
            || tool == ToolKind::SetWindowFrame || tool == ToolKind::WindowAction || tool
            == ToolKind::DescribeNotifications || tool == ToolKind::DismissNotification || tool
            == ToolKind::ListWindows,
{
}

/// A tool may run exactly when it needs nothing, or when the first report on what
/// it needs says that it is granted. A refusal names what is needed, and the
/// state that was reported: not determined, where nothing was.
pub proof fn only_granted_tools_run(tool: ToolKind, statuses: Seq<PermissionStatus>)
    ensures
        checked(tool, statuses) is Ok <==> needed_by(tool) is None || exists|i: int|
            0 <= i < statuses.len() && (#[trigger] statuses[i]) == (PermissionStatus {
                kind: needed_by(tool)->0,
                state: PermissionState::Granted,
            }) && forall|j: int| 0 <= j < i ==> (#[trigger] statuses[j]).kind != statuses[i].kind,
        checked(tool, statuses) matches Err(PermissionError::NotGranted { kind, state }) ==> {
            &&& needed_by(tool) == Some(kind)
            &&& state != PermissionState::Granted
            &&& (forall|j: int| 0 <= j < statuses.len() ==> (#[trigger] statuses[j]).kind != kind)
                ==> state == PermissionState::NotDetermined
            &&& forall|i: int|
                0 <= i < statuses.len() && (#[trigger] statuses[i]).kind == kind && (forall|j: int|
                    0 <= j < i ==> (#[trigger] statuses[j]).kind != kind) ==> statuses[i].state
                    == state
        },
{
    if let Some(kind) = needed_by(tool) {
        lemma_reported_state(kind, statuses);
    }
}

proof fn lemma_reported_state(kind: PermissionKind, statuses: Seq<PermissionStatus>)
    ensures
        (forall|j: int| 0 <= j < statuses.len() ==> (#[trigger] statuses[j]).kind != kind)
            && reported_state(kind, statuses) == PermissionState::NotDetermined || exists|i: int|
            0 <= i < statuses.len() && (#[trigger] statuses[i]) == (PermissionStatus {
                kind,
                state: reported_state(kind, statuses),
            }) && forall|j: int| 0 <= j < i ==> (#[trigger] statuses[j]).kind != kind,
    decreases statuses.len(),
{
    if statuses.len() > 0 {
        let rest = statuses.skip(1);
        if statuses[0].kind == kind {
            assert(statuses[0] == (PermissionStatus {
                kind,
                state: reported_state(kind, statuses),
            }));
        } else {
            lemma_reported_state(kind, rest);
            if forall|j: int| 0 <= j < rest.len() ==> (#[trigger] rest[j]).kind != kind {
                assert forall|j: int| 0 <= j < statuses.len() implies (
                #[trigger] statuses[j]).kind != kind by {
                    if j > 0 {
                        assert(rest[j - 1] == statuses[j]);
                    }
                }
            } else {
                let i = choose|i: int|
                    0 <= i < rest.len() && (#[trigger] rest[i]) == (PermissionStatus {
                        kind,
                        state: reported_state(kind, rest),
                    }) && forall|j: int| 0 <= j < i ==> (#[trigger] rest[j]).kind != kind;
                assert(statuses[i + 1] == rest[i]);
                assert forall|j: int| 0 <= j < i + 1 implies (#[trigger] statuses[j]).kind != kind by {
                    if j > 0 {
                        assert(rest[j - 1] == statuses[j]);
                    }
                }
            }
        }
    }
}

/// What a refusal says names the permission and its state.
pub proof fn refusals_name_the_permission(kind: PermissionKind, state: PermissionState)
    ensures
        (PermissionError::NotGranted { kind, state }).said() == (match kind {
            PermissionKind::ScreenRecording => "Screen Recording"@,
            PermissionKind::Accessibility => "Accessibility"@,
            PermissionKind::Automation => "Automation"@,
            PermissionKind::Clipboard => "Clipboard"@,
            PermissionKind::InputMonitoring => "Input Monitoring"@,
        }) + " permission is "@ + (match state {
            PermissionState::NotDetermined => "NotDetermined"@,
            PermissionState::Denied => "Denied"@,
            PermissionState::Granted => "Granted"@,
            PermissionState::Restricted => "Restricted"@,
        }) + ", not granted"@,
{
}

/// A permission is usable exactly when it is granted.
pub proof fn only_what_is_granted_is_usable(state: PermissionState, usable: bool)
    requires
        call_ensures(PermissionState::is_usable, (state,), usable),
    ensures
        usable <==> state == PermissionState::Granted,
{
}

} // verus!
