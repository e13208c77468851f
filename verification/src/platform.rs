//! The platform as the tools reach it.
//!
//! A tool works on a [`Platform`], which holds the parts of the platform that
//! the tool uses and the history of the calls that they got. The parts are
//! private to this module: a tool has no way to a call that the history does
//! not show. So a contract that says how the history grew says which calls
//! were made, how often, and in which order.

use vstd::prelude::*;

use crate::ax::AxNode;
use crate::clipboard::{ClipboardContentType, RawClipboardRead};
use crate::coords::{PixelPoint, PixelRect};
use crate::error::PolarizeError;
use crate::find_text::{RecognizeOptions, RecognizedLine};
use crate::notifications::Sleeper;
use crate::recording::{FlowRecorder, RawRecording, RecordingPlan};
use crate::schema::{AppIdentifier, Modifier, NamedKey, PostPath, ScreenshotTarget};
use crate::set_value::AttributeWrite;
use crate::text::opt_str_view;
use crate::traits::{
    AccessibilityInspector, ActionPerformer, AppSdef, AppleScriptRunner, CapturedImage,
    ClipboardAccess, DisplayLister, HitTester, InputSynthesizer, ResolvedApp, ScreenCapture,
    ScriptOutcome, TextRecognizer, ValueSetter, WindowManager,
};
use crate::workspace::DisplayInfo;

verus! {

/// The app that a call names, as texts.
pub open spec fn named(app: Option<&AppIdentifier>) -> Option<
    (Option<Seq<char>>, Option<Seq<char>>),
> {
    match app {
        Some(a) => Some(a@),
        None => None,
    }
}

/// One call that the platform got: its arguments, and what it replied.
#[allow(inconsistent_fields)]
pub enum Call {
    /// The accessibility tree of an app was read.
    Described {
        app: Option<(Option<Seq<char>>, Option<Seq<char>>)>,
        reply: Result<(ResolvedApp, AxNode), PolarizeError>,
    },
    /// The rectangle of a target was looked up.
    FoundRect { target: ScreenshotTarget, reply: Result<PixelRect, PolarizeError> },
    /// The process of a target was looked up.
    FoundTargetPid { target: ScreenshotTarget, reply: Result<Option<i32>, PolarizeError> },
    /// The process of an app was looked up.
    FoundAppPid {
        app: (Option<Seq<char>>, Option<Seq<char>>),
        reply: Result<Option<i32>, PolarizeError>,
    },
    /// An app was activated, if that can be done without raising its window.
    ActivatedInPlace {
        app: (Option<Seq<char>>, Option<Seq<char>>),
        reply: Result<bool, PolarizeError>,
    },
    /// An app was activated and its window raised.
    Activated { app: (Option<Seq<char>>, Option<Seq<char>>), reply: Result<(), PolarizeError> },
    /// A display was captured.
    CapturedScreen { display_id: Option<u32>, reply: Result<CapturedImage, PolarizeError> },
    /// A window of an app was captured.
    CapturedWindow {
        app: (Option<Seq<char>>, Option<Seq<char>>),
        window_title: Option<Seq<char>>,
        reply: Result<CapturedImage, PolarizeError>,
    },
    /// The pasteboard was read.
    ReadClipboard {
        content_type: ClipboardContentType,
        reply: Result<RawClipboardRead, PolarizeError>,
    },
    /// The contents of the pasteboard were replaced.
    WroteClipboard {
        content_type: ClipboardContentType,
        text: Seq<char>,
        reply: Result<(), PolarizeError>,
    },
    /// A script was run.
    RanScript {
        source: Seq<char>,
        target_app: Option<Seq<char>>,
        timeout_ms: u64,
        reply: Result<ScriptOutcome, PolarizeError>,
    },
    /// The scripting dictionary of an app was read.
    ReadDictionary {
        app: (Option<Seq<char>>, Option<Seq<char>>),
        reply: Result<AppSdef, PolarizeError>,
    },
    /// The displays were listed.
    ListedDisplays { reply: Result<Vec<DisplayInfo>, PolarizeError> },
    /// An element performed an action.
    Performed {
        app: Option<(Option<Seq<char>>, Option<Seq<char>>)>,
        path: Seq<usize>,
        action: Seq<char>,
        reply: Result<(), PolarizeError>,
    },
    /// An attribute of an element was written.
    Wrote {
        app: Option<(Option<Seq<char>>, Option<Seq<char>>)>,
        path: Seq<usize>,
        write: AttributeWrite,
        reply: Result<(), PolarizeError>,
    },
    /// A point was clicked.
    Clicked {
        point: PixelPoint,
        click_count: u8,
        pid: Option<i32>,
        reply: Result<PostPath, PolarizeError>,
    },
    /// A text was typed.
    Typed { text: Seq<char>, pid: Option<i32>, reply: Result<PostPath, PolarizeError> },
    /// A key was pressed.
    Pressed {
        key: NamedKey,
        modifiers: Seq<Modifier>,
        pid: Option<i32>,
        reply: Result<PostPath, PolarizeError>,
    },
    /// The element at a point was looked up.
    HitTested {
        app: Option<(Option<Seq<char>>, Option<Seq<char>>)>,
        point: PixelPoint,
        reply: Result<(ResolvedApp, Option<AxNode>), PolarizeError>,
    },
    /// The text in an image was read.
    Recognized {
        image: CapturedImage,
        options: RecognizeOptions,
        reply: Result<Vec<RecognizedLine>, PolarizeError>,
    },
    /// Raw events were recorded.
    Recorded { plan: RecordingPlan, reply: Result<RawRecording, PolarizeError> },
    /// The tool paused.
    Slept { ms: u64 },
}

/// The parts of the platform that a tool uses: one that it looks things up
/// with, one that it acts with, and one that it pauses with. A part that a tool
/// does not use is `()`.
pub struct Platform<'a, R, D, S> {
    reader: &'a R,
    doer: &'a D,
    sleeper: &'a S,
    calls: Ghost<Seq<Call>>,
}

impl<'a, R, D, S> Platform<'a, R, D, S> {
    /// The parts.
    pub closed spec fn parts(self) -> (&'a R, &'a D, &'a S) {
        (self.reader, self.doer, self.sleeper)
    }

    /// What the tool looks things up with.
    pub open spec fn reader(self) -> &'a R {
        self.parts().0
    }

    /// What the tool acts with.
    pub open spec fn doer(self) -> &'a D {
        self.parts().1
    }

    /// The calls that the parts got, in order.
    pub closed spec fn calls(self) -> Seq<Call> {
        self.calls@
    }

    /// Parts that got no call yet.
    pub fn new(reader: &'a R, doer: &'a D, sleeper: &'a S) -> (r: Self)
        ensures
            r.parts() == (reader, doer, sleeper),
            r.calls() == Seq::<Call>::empty(),
    {
        Platform { reader, doer, sleeper, calls: Ghost(Seq::empty()) }
    }
}

impl<'a, R: AccessibilityInspector, D, S> Platform<'a, R, D, S> {
    /// Reads the accessibility tree of an app.
    pub(crate) fn describe(
        &mut self,
        app: Option<&AppIdentifier>,
    ) -> (reply: Result<(ResolvedApp, AxNode), PolarizeError>)
        ensures
            final(self).parts() == old(self).parts(),
            final(self).calls() == old(self).calls().push(
                Call::Described { app: named(app), reply },
            ),
            call_ensures(R::describe, (old(self).reader(), app), reply),
    {
        let reply = self.reader.describe(app);
        proof {
            self.calls@ = self.calls@.push(Call::Described { app: named(app), reply });
        }
        reply
    }
}

impl<'a, R: WindowManager, D, S> Platform<'a, R, D, S> {
    /// Finds the rectangle of a target.
    pub(crate) fn resolve_target_rect(
        &mut self,
        target: &ScreenshotTarget,
    ) -> (reply: Result<PixelRect, PolarizeError>)
        ensures
            final(self).parts() == old(self).parts(),
            final(self).calls() == old(self).calls().push(
                Call::FoundRect { target: *target, reply },
            ),
            call_ensures(R::resolve_target_rect, (old(self).reader(), target), reply),
    {
        let reply = self.reader.resolve_target_rect(target);
        proof {
            self.calls@ = self.calls@.push(Call::FoundRect { target: *target, reply });
        }
        reply
    }

    /// Finds the process of a target.
    pub(crate) fn resolve_target_pid(
        &mut self,
        target: &ScreenshotTarget,
    ) -> (reply: Result<Option<i32>, PolarizeError>)
        ensures
            final(self).parts() == old(self).parts(),
            final(self).calls() == old(self).calls().push(
                Call::FoundTargetPid { target: *target, reply },
            ),
            call_ensures(R::resolve_target_pid, (old(self).reader(), target), reply),
    {
        let reply = self.reader.resolve_target_pid(target);
        proof {
            self.calls@ = self.calls@.push(Call::FoundTargetPid { target: *target, reply });
        }
        reply
    }

    /// Finds the process of an app.
    pub(crate) fn resolve_app_pid(
        &mut self,
        app: &AppIdentifier,
    ) -> (reply: Result<Option<i32>, PolarizeError>)
        ensures
            final(self).parts() == old(self).parts(),
            final(self).calls() == old(self).calls().push(
                Call::FoundAppPid { app: app@, reply },
            ),
            call_ensures(R::resolve_app_pid, (old(self).reader(), app), reply),
    {
        let reply = self.reader.resolve_app_pid(app);
        proof {
            self.calls@ = self.calls@.push(Call::FoundAppPid { app: app@, reply });
        }
        reply
    }

    /// Activates an app without raising its window.
    pub(crate) fn activate_app_without_raise(
        &mut self,
        app: &AppIdentifier,
    ) -> (reply: Result<bool, PolarizeError>)
        ensures
            final(self).parts() == old(self).parts(),
            final(self).calls() == old(self).calls().push(
                Call::ActivatedInPlace { app: app@, reply },
            ),
            call_ensures(R::activate_app_without_raise, (old(self).reader(), app), reply),
    {
        let reply = self.reader.activate_app_without_raise(app);
        proof {
            self.calls@ = self.calls@.push(Call::ActivatedInPlace { app: app@, reply });
        }
        reply
    }

    /// Activates an app and raises its window.
    pub(crate) fn activate_app(&mut self, app: &AppIdentifier) -> (reply: Result<(), PolarizeError>)
        ensures
            final(self).parts() == old(self).parts(),
            final(self).calls() == old(self).calls().push(
                Call::Activated { app: app@, reply },
            ),
            call_ensures(R::activate_app, (old(self).reader(), app), reply),
    {
        let reply = self.reader.activate_app(app);
        proof {
            self.calls@ = self.calls@.push(Call::Activated { app: app@, reply });
        }
        reply
    }
}

impl<'a, R: ScreenCapture, D, S> Platform<'a, R, D, S> {
    /// Captures a display.
    pub(crate) fn capture_screen(
        &mut self,
        display_id: Option<u32>,
    ) -> (reply: Result<CapturedImage, PolarizeError>)
        ensures
            final(self).parts() == old(self).parts(),
            final(self).calls() == old(self).calls().push(
                Call::CapturedScreen { display_id, reply },
            ),
            call_ensures(R::capture_screen, (old(self).reader(), display_id), reply),
    {
        let reply = self.reader.capture_screen(display_id);
        proof {
            self.calls@ = self.calls@.push(Call::CapturedScreen { display_id, reply });
        }
        reply
    }

    /// Captures a window of an app.
    pub(crate) fn capture_window(
        &mut self,
        app: &AppIdentifier,
        window_title: Option<&str>,
    ) -> (reply: Result<CapturedImage, PolarizeError>)
        ensures
            final(self).parts() == old(self).parts(),
            final(self).calls() == old(self).calls().push(
                Call::CapturedWindow { app: app@, window_title: opt_str_view(window_title), reply },
            ),
            call_ensures(R::capture_window, (old(self).reader(), app, window_title), reply),
    {
        let reply = self.reader.capture_window(app, window_title);
        proof {
            self.calls@ = self.calls@.push(
                Call::CapturedWindow { app: app@, window_title: opt_str_view(window_title), reply },
            );
        }
        reply
    }
}

impl<'a, R: ClipboardAccess, D, S> Platform<'a, R, D, S> {
    /// Reads the pasteboard.
    pub(crate) fn read_clipboard(
        &mut self,
        content_type: ClipboardContentType,
    ) -> (reply: Result<RawClipboardRead, PolarizeError>)
        ensures
            final(self).parts() == old(self).parts(),
            final(self).calls() == old(self).calls().push(
                Call::ReadClipboard { content_type, reply },
            ),
            call_ensures(R::read_clipboard, (old(self).reader(), content_type), reply),
    {
        let reply = self.reader.read_clipboard(content_type);
        proof {
            self.calls@ = self.calls@.push(Call::ReadClipboard { content_type, reply });
        }
        reply
    }

    /// Replaces the contents of the pasteboard.
    pub(crate) fn write_clipboard(
        &mut self,
        content_type: ClipboardContentType,
        text: &str,
    ) -> (reply: Result<(), PolarizeError>)
        ensures
            final(self).parts() == old(self).parts(),
            final(self).calls() == old(self).calls().push(
                Call::WroteClipboard { content_type, text: text@, reply },
            ),
            call_ensures(R::write_clipboard, (old(self).reader(), content_type, text), reply),
    {
        let reply = self.reader.write_clipboard(content_type, text);
        proof {
            self.calls@ = self.calls@.push(
                Call::WroteClipboard { content_type, text: text@, reply },
            );
        }
        reply
    }
}

impl<'a, R: AppleScriptRunner, D, S> Platform<'a, R, D, S> {
    /// Runs a script.
    pub(crate) fn run_script(
        &mut self,
        source: &str,
        target_app: Option<&str>,
        timeout_ms: u64,
    ) -> (reply: Result<ScriptOutcome, PolarizeError>)
        ensures
            final(self).parts() == old(self).parts(),
            final(self).calls() == old(self).calls().push(
                Call::RanScript {
                    source: source@,
                    target_app: opt_str_view(target_app),
                    timeout_ms,
                    reply,
                },
            ),
            call_ensures(
                R::run_script,
                (old(self).reader(), source, target_app, timeout_ms),
                reply,
            ),
    {
        let reply = self.reader.run_script(source, target_app, timeout_ms);
        proof {
            self.calls@ = self.calls@.push(
                Call::RanScript {
                    source: source@,
                    target_app: opt_str_view(target_app),
                    timeout_ms,
                    reply,
                },
            );
        }
        reply
    }

    /// Reads the scripting dictionary of an app.
    pub(crate) fn app_sdef(
        &mut self,
        app: &AppIdentifier,
    ) -> (reply: Result<AppSdef, PolarizeError>)
        ensures
            final(self).parts() == old(self).parts(),
            final(self).calls() == old(self).calls().push(
                Call::ReadDictionary { app: app@, reply },
            ),
            call_ensures(R::app_sdef, (old(self).reader(), app), reply),
    {
        let reply = self.reader.app_sdef(app);
        proof {
            self.calls@ = self.calls@.push(Call::ReadDictionary { app: app@, reply });
        }
        reply
    }
}

impl<'a, R: DisplayLister, D, S> Platform<'a, R, D, S> {
    /// Lists the displays.
    pub(crate) fn displays(&mut self) -> (reply: Result<Vec<DisplayInfo>, PolarizeError>)
        ensures
            final(self).parts() == old(self).parts(),
            final(self).calls() == old(self).calls().push(
                Call::ListedDisplays { reply },
            ),
            call_ensures(R::displays, (old(self).reader(),), reply),
    {
        let reply = self.reader.displays();
        proof {
            self.calls@ = self.calls@.push(Call::ListedDisplays { reply });
        }
        reply
    }
}

impl<'a, R, D: ActionPerformer, S> Platform<'a, R, D, S> {
    /// Has an element perform an action.
    pub(crate) fn perform_action_at_path(
        &mut self,
        app: Option<&AppIdentifier>,
        path: &[usize],
        action: &str,
    ) -> (reply: Result<(), PolarizeError>)
        ensures
            final(self).parts() == old(self).parts(),
            final(self).calls() == old(self).calls().push(
                Call::Performed { app: named(app), path: path@, action: action@, reply },
            ),
            call_ensures(D::perform_action_at_path, (old(self).doer(), app, path, action), reply),
    {
        let reply = self.doer.perform_action_at_path(app, path, action);
        proof {
            self.calls@ = self.calls@.push(
                Call::Performed { app: named(app), path: path@, action: action@, reply },
            );
        }
        reply
    }
}

impl<'a, R, D: ValueSetter, S> Platform<'a, R, D, S> {
    /// Writes an attribute of an element.
    pub(crate) fn set_value_at_path(
        &mut self,
        app: Option<&AppIdentifier>,
        path: &[usize],
        write: &AttributeWrite,
    ) -> (reply: Result<(), PolarizeError>)
        ensures
            final(self).parts() == old(self).parts(),
            final(self).calls() == old(self).calls().push(
                Call::Wrote { app: named(app), path: path@, write: *write, reply },
            ),
            call_ensures(D::set_value_at_path, (old(self).doer(), app, path, write), reply),
    {
        let reply = self.doer.set_value_at_path(app, path, write);
        proof {
            self.calls@ = self.calls@.push(
                Call::Wrote { app: named(app), path: path@, write: *write, reply },
            );
        }
        reply
    }
}

impl<'a, R, D: InputSynthesizer, S> Platform<'a, R, D, S> {
    /// Clicks a point.
    pub(crate) fn click_at_pixel(
        &mut self,
        point: PixelPoint,
        click_count: u8,
        pid: Option<i32>,
    ) -> (reply: Result<PostPath, PolarizeError>)
        ensures
            final(self).parts() == old(self).parts(),
            final(self).calls() == old(self).calls().push(
                Call::Clicked { point, click_count, pid, reply },
            ),
            call_ensures(D::click_at_pixel, (old(self).doer(), point, click_count, pid), reply),
    {
        let reply = self.doer.click_at_pixel(point, click_count, pid);
        proof {
            self.calls@ = self.calls@.push(Call::Clicked { point, click_count, pid, reply });
        }
        reply
    }

    /// Types a text.
    pub(crate) fn type_text(
        &mut self,
        text: &str,
        pid: Option<i32>,
    ) -> (reply: Result<PostPath, PolarizeError>)
        ensures
            final(self).parts() == old(self).parts(),
            final(self).calls() == old(self).calls().push(
                Call::Typed { text: text@, pid, reply },
            ),
            call_ensures(D::type_text, (old(self).doer(), text, pid), reply),
    {
        let reply = self.doer.type_text(text, pid);
        proof {
            self.calls@ = self.calls@.push(Call::Typed { text: text@, pid, reply });
        }
        reply
    }

    /// Presses a key.
    pub(crate) fn press_key(
        &mut self,
        key: NamedKey,
        modifiers: &[Modifier],
        pid: Option<i32>,
    ) -> (reply: Result<PostPath, PolarizeError>)
        ensures
            final(self).parts() == old(self).parts(),
            final(self).calls() == old(self).calls().push(
                Call::Pressed { key, modifiers: modifiers@, pid, reply },
            ),
            call_ensures(D::press_key, (old(self).doer(), key, modifiers, pid), reply),
    {
        let reply = self.doer.press_key(key, modifiers, pid);
        proof {
            self.calls@ = self.calls@.push(
                Call::Pressed { key, modifiers: modifiers@, pid, reply },
            );
        }
        reply
    }
}

impl<'a, R, D: HitTester, S> Platform<'a, R, D, S> {
    /// Finds the element at a point.
    pub(crate) fn element_at_pixel(
        &mut self,
        app: Option<&AppIdentifier>,
        point: PixelPoint,
    ) -> (reply: Result<(ResolvedApp, Option<AxNode>), PolarizeError>)
        ensures
            final(self).parts() == old(self).parts(),
            final(self).calls() == old(self).calls().push(
                Call::HitTested { app: named(app), point, reply },
            ),
            call_ensures(D::element_at_pixel, (old(self).doer(), app, point), reply),
    {
        let reply = self.doer.element_at_pixel(app, point);
        proof {
            self.calls@ = self.calls@.push(Call::HitTested { app: named(app), point, reply });
        }
        reply
    }
}

impl<'a, R, D: TextRecognizer, S> Platform<'a, R, D, S> {
    /// Reads the text in an image.
    pub(crate) fn recognize_text(
        &mut self,
        image: &CapturedImage,
        options: &RecognizeOptions,
    ) -> (reply: Result<Vec<RecognizedLine>, PolarizeError>)
        ensures
            final(self).parts() == old(self).parts(),
            final(self).calls() == old(self).calls().push(
                Call::Recognized { image: *image, options: *options, reply },
            ),
            call_ensures(D::recognize_text, (old(self).doer(), image, options), reply),
    {
        let reply = self.doer.recognize_text(image, options);
        proof {
            self.calls@ = self.calls@.push(
                Call::Recognized { image: *image, options: *options, reply },
            );
        }
        reply
    }
}

impl<'a, R, D: FlowRecorder, S> Platform<'a, R, D, S> {
    /// Records raw events.
    pub(crate) fn record_raw_events(
        &mut self,
        plan: &RecordingPlan,
    ) -> (reply: Result<RawRecording, PolarizeError>)
        ensures
            final(self).parts() == old(self).parts(),
            final(self).calls() == old(self).calls().push(
                Call::Recorded { plan: *plan, reply },
            ),
            call_ensures(D::record_raw_events, (old(self).doer(), plan), reply),
    {
        let reply = self.doer.record_raw_events(plan);
        proof {
            self.calls@ = self.calls@.push(Call::Recorded { plan: *plan, reply });
        }
        reply
    }
}

impl<'a, R, D, S: Sleeper> Platform<'a, R, D, S> {
    /// Pauses.
    pub(crate) fn sleep_ms(&mut self, ms: u64)
        ensures
            final(self).parts() == old(self).parts(),
            final(self).calls() == old(self).calls().push(Call::Slept { ms }),
    {
        self.sleeper.sleep_ms(ms);
        proof {
            self.calls@ = self.calls@.push(Call::Slept { ms });
        }
    }
}

} // verus!
