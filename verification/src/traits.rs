//! What the platform does for the library.

use vstd::prelude::*;

use crate::ax::AxNode;
use crate::clipboard::{ClipboardContentType, RawClipboardRead};
use crate::coords::{PixelPoint, PixelRect, PixelSize};
use crate::error::PolarizeError;
use crate::find_text::{RecognizeOptions, RecognizedLine};
use crate::schema::{AppIdentifier, Modifier, NamedKey, PostPath, ScreenshotTarget};
use crate::set_value::AttributeWrite;
use crate::text::opt_view;
use crate::workspace::DisplayInfo;

verus! {

/// A captured image, in PNG form.
#[derive(Debug, Clone, PartialEq, Eq)]
pub struct CapturedImage {
    pub png_bytes: Vec<u8>,
    pub width: u32,
    pub height: u32,
}

/// Captures pixels.
pub trait ScreenCapture {
    /// Captures a display; the main one when `display_id` is `None`.
    fn capture_screen(&self, display_id: Option<u32>) -> Result<CapturedImage, PolarizeError>;

    /// Captures a window of an app; its frontmost one when `window_title` is
    /// `None`.
    fn capture_window(&self, app: &AppIdentifier, window_title: Option<&str>) -> Result<
        CapturedImage,
        PolarizeError,
    >;
}

/// The app that a call really read.
#[derive(Debug, Clone, PartialEq, Eq)]
pub struct ResolvedApp {
    /// The display name; empty when the app has none.
    pub name: String,
    pub bundle_id: Option<String>,
}

impl Default for ResolvedApp {
    /// An app without a name.
    fn default() -> (r: Self)
        ensures
            r.name@ == Seq::<char>::empty(),
            r.bundle_id is None,
    {
        ResolvedApp { name: String::new(), bundle_id: None }
    }
}

impl ResolvedApp {
    /// The identifier that addresses this app again: the bundle id, else the
    /// name, else nothing.
    pub open spec fn identified(self) -> Option<(Option<Seq<char>>, Option<Seq<char>>)> {
        if self.bundle_id is Some {
            Some((opt_view(self.bundle_id), None))
        } else if self.name@.len() > 0 {
            Some((None, Some(self.name@)))
        } else {
            None
        }
    }

    /// The most precise identifier that addresses this app again. A bundle id
    /// wins, because two processes can share one name.
    pub fn identifier(&self) -> (r: Option<AppIdentifier>)
        ensures
            crate::schema::app_view(r) == self.identified(),
    {
        match &self.bundle_id {
            Some(bundle_id) => Some(
                AppIdentifier { bundle_id: Some(bundle_id.clone()), app_name: None },
            ),
            None => if self.name.as_str().is_empty() {
                None
            } else {
                Some(AppIdentifier { bundle_id: None, app_name: Some(self.name.clone()) })
            },
        }
    }
}

/// Reads the accessibility tree of an app.
pub trait AccessibilityInspector {
    /// The app that was read, and the root of its tree. `app` is `None` for
    /// the frontmost app.
    fn describe(&self, app: Option<&AppIdentifier>) -> Result<(ResolvedApp, AxNode), PolarizeError>;
}

/// Posts mouse and keyboard input.
pub trait InputSynthesizer {
    /// Clicks at a point of the global pixel space. `pid` is the target app's
    /// process, when it is known. The answer says how the click was posted.
    fn click_at_pixel(&self, point: PixelPoint, click_count: u8, pid: Option<i32>) -> Result<
        PostPath,
        PolarizeError,
    >;

    /// Types a text.
    fn type_text(&self, text: &str, pid: Option<i32>) -> Result<PostPath, PolarizeError>;

    /// Presses one named key while the modifiers are held.
    fn press_key(&self, key: NamedKey, modifiers: &[Modifier], pid: Option<i32>) -> Result<
        PostPath,
        PolarizeError,
    >;
}

/// Finds apps and windows.
pub trait WindowManager {
    /// Brings an app to the front.
    fn activate_app(&self, app: &AppIdentifier) -> Result<(), PolarizeError>;

    /// Where a target lies in the global pixel space.
    fn resolve_target_rect(&self, target: &ScreenshotTarget) -> Result<PixelRect, PolarizeError>;

    /// The process of the app that a target names, if it names one.
    fn resolve_target_pid(&self, target: &ScreenshotTarget) -> Result<Option<i32>, PolarizeError>;

    /// The process of an app.
    fn resolve_app_pid(&self, app: &AppIdentifier) -> Result<Option<i32>, PolarizeError>;

    /// Activates an app without raising its window. `false` when that way is
    /// not available.
    fn activate_app_without_raise(&self, app: &AppIdentifier) -> Result<bool, PolarizeError>;
}

/// Performs accessibility actions.
pub trait ActionPerformer {
    /// Performs `action` on the element at `path`.
    fn perform_action_at_path(
        &self,
        app: Option<&AppIdentifier>,
        path: &[usize],
        action: &str,
    ) -> Result<(), PolarizeError>;
}

/// What one script run produced.
#[derive(Debug, Clone, PartialEq, Eq)]
pub struct ScriptOutcome {
    pub stdout: String,
    pub stderr: String,
    /// `None` when a signal ended the process.
    pub exit_code: Option<i32>,
    /// Whether the process was ended at its deadline.
    pub timed_out: bool,
}

impl Default for ScriptOutcome {
    /// A run that printed nothing and has no exit code.
    fn default() -> (r: Self)
        ensures
            r.stdout@ == Seq::<char>::empty(),
            r.stderr@ == Seq::<char>::empty(),
            r.exit_code is None,
            !r.timed_out,
    {
        ScriptOutcome {
            stdout: String::new(),
            stderr: String::new(),
            exit_code: None,
            timed_out: false,
        }
    }
}

/// The scripting dictionary of an app, as XML.
#[derive(Debug, Clone, PartialEq, Eq)]
pub struct AppSdef {
    pub app_name: String,
    pub xml: String,
}

impl Default for AppSdef {
    /// The empty dictionary of an app without a name.
    fn default() -> (r: Self)
        ensures
            r.app_name@ == Seq::<char>::empty(),
            r.xml@ == Seq::<char>::empty(),
    {
        AppSdef { app_name: String::new(), xml: String::new() }
    }
}

/// Runs scripts, and reads scripting dictionaries.
pub trait AppleScriptRunner {
    /// Runs `source`, and returns what it produced, whatever its exit code.
    fn run_script(&self, source: &str, target_app: Option<&str>, timeout_ms: u64) -> Result<
        ScriptOutcome,
        PolarizeError,
    >;

    /// The scripting dictionary of an app.
    fn app_sdef(&self, app: &AppIdentifier) -> Result<AppSdef, PolarizeError>;
}


/// Writes accessibility attributes.
pub trait ValueSetter {
    /// Writes one attribute of the element at `path`.
    fn set_value_at_path(
        &self,
        app: Option<&AppIdentifier>,
        path: &[usize],
        write: &AttributeWrite,
    ) -> Result<(), PolarizeError>;
}

/// Finds the element under a point.
pub trait HitTester {
    /// The app that was read, and the element on top at `point`, if there is
    /// one. `app` is `None` for a whole screen.
    fn element_at_pixel(&self, app: Option<&AppIdentifier>, point: PixelPoint) -> Result<
        (ResolvedApp, Option<AxNode>),
        PolarizeError,
    >;
}

/// Reads and writes the pasteboard.
pub trait ClipboardAccess {
    /// What the pasteboard reports for a content type.
    fn read_clipboard(&self, content_type: ClipboardContentType) -> Result<
        RawClipboardRead,
        PolarizeError,
    >;

    /// Replaces the pasteboard's contents.
    fn write_clipboard(&self, content_type: ClipboardContentType, text: &str) -> Result<
        (),
        PolarizeError,
    >;
}

/// One window of an app.
#[derive(Debug, Clone, PartialEq, Eq)]
pub struct WindowInfo {
    /// The title, when the window has one.
    pub title: Option<String>,
    /// Where the window lies in the global pixel space.
    pub rect: PixelRect,
    pub minimized: bool,
    pub main: bool,
    pub focused: bool,
    /// `None` when the window does not report it.
    pub full_screen: Option<bool>,
}

/// One write to a window.
#[derive(Debug, Clone, Copy, PartialEq, Eq, Structural)]
pub enum WindowWrite {
    SetPosition(PixelPoint),
    SetSize(PixelSize),
    SetMinimized(bool),
    SetMain(bool),
    SetFullScreen(bool),
    Raise,
    Close,
}

/// Reads and writes the windows of an app.
pub trait WindowController {
    /// The app that was read, and its windows from front to back.
    fn list_windows(&self, app: Option<&AppIdentifier>) -> Result<
        (ResolvedApp, Vec<WindowInfo>),
        PolarizeError,
    >;

    /// Applies the writes, in order, to the window at `index`.
    fn apply_window_writes(
        &self,
        app: Option<&AppIdentifier>,
        index: usize,
        writes: &[WindowWrite],
    ) -> Result<(), PolarizeError>;
}

/// Waits for the interface of an app to change.
pub trait UiChangeWaiter {
    /// Waits until the interface of `app` changes, or of the app in front when
    /// there is none, but no longer than `budget_ms`. Tells whether it changed.
    fn wait_for_change(&self, app: Option<&AppIdentifier>, budget_ms: u64) -> Result<
        bool,
        PolarizeError,
    >;
}

/// Reads the text in a captured image.
pub trait TextRecognizer {
    /// Every line of text in `image`, with boxes whose origin is the bottom
    /// left corner.
    fn recognize_text(&self, image: &CapturedImage, options: &RecognizeOptions) -> Result<
        Vec<RecognizedLine>,
        PolarizeError,
    >;
}

/// Lists the displays.
pub trait DisplayLister {
    /// Every active display.
    fn displays(&self) -> Result<Vec<DisplayInfo>, PolarizeError>;
}

// ---- laws -------------------------------------------------------------------

/// An app that was found is addressed by its bundle id where it has one, by its
/// name where it has only that, and not at all where it has neither.
pub proof fn apps_are_addressed_by_what_they_have(app: ResolvedApp, r: Option<AppIdentifier>)
    requires
        call_ensures(ResolvedApp::identifier, (&app,), r),
    ensures
        r is None <==> app.bundle_id is None && app.name@ == Seq::<char>::empty(),
        r matches Some(named) ==> {
            &&& named.bundle_id is Some <==> app.bundle_id is Some
            &&& named.bundle_id matches Some(id) ==> id@ == app.bundle_id->0@
            &&& named.app_name is Some <==> app.bundle_id is None
            &&& named.app_name matches Some(name) ==> name@ == app.name@
        },
{
    assert(app.name@.len() == 0 ==> app.name@ =~= Seq::<char>::empty());
}

} // verus!
