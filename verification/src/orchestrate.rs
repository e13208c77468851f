//! The core tools: tap, describe, screenshot and keyboard.

use vstd::prelude::*;

use crate::ax::{format_tree, rendered, AxNode};
use crate::binary64::{steady, Numbers};
use crate::coords::{fraction_refusal, place_fraction, placed, Fraction, PixelPoint, PixelRect};
use crate::error::PolarizeError;
use crate::platform::{Call, Platform};
use crate::schema::{
    app_view, as_opt_ref, base64_decoded, base64_encoded, base64_len, decoded, opt_ref, ActivationPath,
    AppIdentifier, DescribeRequest, DescribeResponse, KeyboardRequest, KeyboardResponse, PostPath,
    ScreenshotRequest, ScreenshotResponse, ScreenshotTarget, TapRequest, TapResponse,
};
use crate::text::{joined, opt_view};
use crate::traits::{
    AccessibilityInspector, CapturedImage, InputSynthesizer, ResolvedApp, ScreenCapture,
    WindowManager,
};

verus! {

/// The target of a request; the main screen when it names none.
pub open spec fn target_or_screen(target: Option<ScreenshotTarget>) -> ScreenshotTarget {
    match target {
        Some(t) => t,
        None => ScreenshotTarget::Screen { display_id: None },
    }
}

// ---- tap --------------------------------------------------------------------

/// How often a tap clicks; once when the request does not say.
pub open spec fn wanted_clicks(click_count: Option<u8>) -> u8 {
    match click_count {
        Some(n) => n,
        None => 1,
    }
}

/// A process that could not be found is no process.
pub open spec fn pid_or_none(pid: Result<Option<i32>, PolarizeError>) -> Option<i32> {
    match pid {
        Ok(p) => p,
        Err(_) => None,
    }
}

fn found_pid(pid: Result<Option<i32>, PolarizeError>) -> (r: Option<i32>)
    ensures
        r == pid_or_none(pid),
{
    match pid {
        Ok(p) => p,
        Err(_) => None,
    }
}

/// The looks and the click that follow once the target's rectangle is known,
/// and what is answered. A fraction that is refused is not followed by any
/// call. The platform gets the point in the global pixel space, never the
/// fraction. The answer names the way that the click was really posted.
pub open spec fn tapped_in<N: Numbers, W: WindowManager, I: InputSynthesizer>(
    numbers: &N,
    window_manager: &W,
    input: &I,
    request: TapRequest,
    rect: PixelRect,
    before: Seq<Call>,
    after: Seq<Call>,
    r: Result<TapResponse, PolarizeError>,
) -> bool {
    let fraction = Fraction { x: request.x, y: request.y };
    let target = target_or_screen(request.target);
    match fraction_refusal(fraction, rect.size) {
        Some(e) => after == before && r == Err::<TapResponse, PolarizeError>(
            PolarizeError::Coord(e),
        ),
        None => exists|
            point: PixelPoint,
            pid: Result<Option<i32>, PolarizeError>,
            posted: Result<PostPath, PolarizeError>,
        |
            {
                &&& placed(numbers, fraction, rect, point)
                &&& #[trigger] call_ensures(
                    W::resolve_target_pid,
                    (window_manager, &target),
                    pid,
                )
                &&& #[trigger] call_ensures(
                    I::click_at_pixel,
                    (input, point, wanted_clicks(request.click_count), pid_or_none(pid)),
                    posted,
                )
                &&& after == before.push(Call::FoundTargetPid { target, reply: pid }).push(
                    Call::Clicked {
                        point,
                        click_count: wanted_clicks(request.click_count),
                        pid: pid_or_none(pid),
                        reply: posted,
                    },
                )
                &&& r == match posted {
                    Err(e) => Err::<TapResponse, PolarizeError>(e),
                    Ok(post_path) => Ok(
                        TapResponse {
                            tapped: true,
                            pixel_x: point.x,
                            pixel_y: point.y,
                            post_path,
                        },
                    ),
                }
            },
    }
}

/// The calls that a tap makes, and what is answered. `before` and `after` are
/// the calls that the platform had got before, and has got in the end.
pub open spec fn tapped<N: Numbers, W: WindowManager, I: InputSynthesizer>(
    numbers: &N,
    window_manager: &W,
    input: &I,
    request: TapRequest,
    before: Seq<Call>,
    after: Seq<Call>,
    r: Result<TapResponse, PolarizeError>,
) -> bool {
    let target = target_or_screen(request.target);
    exists|rect: Result<PixelRect, PolarizeError>|
        #[trigger] call_ensures(W::resolve_target_rect, (window_manager, &target), rect) && {
            let looked = before.push(Call::FoundRect { target, reply: rect });
            match rect {
                Err(e) => after == looked && r == Err::<TapResponse, PolarizeError>(e),
                Ok(found) => tapped_in(
                    numbers,
                    window_manager,
                    input,
                    request,
                    found,
                    looked,
                    after,
                    r,
                ),
            }
        }
}

/// Clicks at a fraction of a target.
pub fn perform_tap_on<N: Numbers, W: WindowManager, I: InputSynthesizer>(
    numbers: &N,
    platform: &mut Platform<W, I, ()>,
    request: &TapRequest,
) -> (r: Result<TapResponse, PolarizeError>)
    ensures
        final(platform).parts() == old(platform).parts(),
        tapped(
            numbers,
            old(platform).reader(),
            old(platform).doer(),
            *request,
            old(platform).calls(),
            final(platform).calls(),
            r,
        ),
{
    let screen = ScreenshotTarget::Screen { display_id: None };
    let target: &ScreenshotTarget = match &request.target {
        Some(target) => target,
        None => &screen,
    };
    let rect = platform.resolve_target_rect(target);
    let rect = match rect {
        Err(e) => return Err(e),
        Ok(rect) => rect,
    };
    let fraction = Fraction { x: request.x, y: request.y };
    let point = match place_fraction(numbers, fraction, rect) {
        Err(e) => return Err(PolarizeError::Coord(e)),
        Ok(point) => point,
    };
    let click_count: u8 = request.click_count.unwrap_or(1);
    let pid = platform.resolve_target_pid(target);
    let posted = platform.click_at_pixel(point, click_count, found_pid(pid));
    match posted {
        Err(e) => Err(e),
        Ok(post_path) => Ok(
            TapResponse { tapped: true, pixel_x: point.x, pixel_y: point.y, post_path },
        ),
    }
}

/// Clicks at a fraction of a target. A fraction that is refused clicks nothing.
pub fn perform_tap<N: Numbers, W: WindowManager, I: InputSynthesizer>(
    numbers: &N,
    window_manager: &W,
    input: &I,
    request: &TapRequest,
) -> (r: Result<TapResponse, PolarizeError>)
    ensures
        exists|calls: Seq<Call>|
            #[trigger] tapped(numbers, window_manager, input, *request, seq![], calls, r),
{
    let mut platform = Platform::new(window_manager, input, &());
    perform_tap_on(numbers, &mut platform, request)
}

// ---- describe ---------------------------------------------------------------

/// What is answered for the tree that was read.
pub open spec fn described<N: Numbers>(
    numbers: &N,
    tree: Result<(ResolvedApp, AxNode), PolarizeError>,
    r: Result<DescribeResponse, PolarizeError>,
) -> bool {
    match tree {
        Err(e) => r == Err::<DescribeResponse, PolarizeError>(e),
        Ok((resolved, root)) => r matches Ok(response) && {
            &&& response.app_name@ == resolved.name@
            &&& opt_view(response.bundle_id) == opt_view(resolved.bundle_id)
            &&& response.root == root
            &&& exists|lines: Seq<Seq<char>>|
                #[trigger] rendered(numbers, root, lines) && response.formatted@ == joined(
                    lines,
                    "\n"@,
                )
        },
    }
}

/// Shapes a tree that was read into the answer of a request.
pub fn answer_describe<N: Numbers>(
    numbers: &N,
    tree: Result<(ResolvedApp, AxNode), PolarizeError>,
) -> (r: Result<DescribeResponse, PolarizeError>)
    ensures
        described(numbers, tree, r),
{
    let (resolved, root) = match tree {
        Err(e) => return Err(e),
        Ok(pair) => pair,
    };
    let formatted = format_tree(numbers, &root);
    Ok(
        DescribeResponse {
            app_name: resolved.name,
            bundle_id: resolved.bundle_id,
            root,
            formatted,
        },
    )
}

/// The one call that a description makes, and what is answered. `before` and
/// `after` are the calls that the platform had got before, and has got in the
/// end.
pub open spec fn read_and_described<N: Numbers, A: AccessibilityInspector>(
    numbers: &N,
    inspector: &A,
    request: DescribeRequest,
    before: Seq<Call>,
    after: Seq<Call>,
    r: Result<DescribeResponse, PolarizeError>,
) -> bool {
    exists|tree: Result<(ResolvedApp, AxNode), PolarizeError>|
        #[trigger] call_ensures(A::describe, (inspector, opt_ref(&request.app)), tree) && after
            == before.push(Call::Described { app: app_view(request.app), reply: tree })
            && described(numbers, tree, r)
}

/// Reads the tree of an app, and shows it as text too.
pub fn perform_describe_on<N: Numbers, A: AccessibilityInspector>(
    numbers: &N,
    platform: &mut Platform<A, (), ()>,
    request: &DescribeRequest,
) -> (r: Result<DescribeResponse, PolarizeError>)
    ensures
        final(platform).parts() == old(platform).parts(),
        read_and_described(
            numbers,
            old(platform).reader(),
            *request,
            old(platform).calls(),
            final(platform).calls(),
            r,
        ),
{
    let tree = platform.describe(as_opt_ref(&request.app));
    answer_describe(numbers, tree)
}

/// Reads the tree of an app, and shows it as text too.
pub fn perform_describe<N: Numbers, A: AccessibilityInspector>(
    numbers: &N,
    inspector: &A,
    request: &DescribeRequest,
) -> (r: Result<DescribeResponse, PolarizeError>)
    ensures
        exists|calls: Seq<Call>|
            #[trigger] read_and_described(numbers, inspector, *request, seq![], calls, r),
{
    let mut platform = Platform::new(inspector, &(), &());
    perform_describe_on(numbers, &mut platform, request)
}

// ---- screenshot -------------------------------------------------------------

/// Whether `image` is what capturing a target gave.
pub open spec fn captured<C: ScreenCapture>(
    capture: &C,
    target: ScreenshotTarget,
    image: Result<CapturedImage, PolarizeError>,
) -> bool {
    match target {
        ScreenshotTarget::Screen { display_id } => call_ensures(
            C::capture_screen,
            (capture, display_id),
            image,
        ),
        ScreenshotTarget::App { app } => call_ensures(
            C::capture_window,
            (capture, &app, None::<&str>),
            image,
        ),
        ScreenshotTarget::Window { app, window_title } => exists|title: &str|
            title@ == window_title@ && #[trigger] call_ensures(
                C::capture_window,
                (capture, &app, Some(title)),
                image,
            ),
    }
}

/// The call that captures a target.
pub open spec fn capture_call(
    target: ScreenshotTarget,
    reply: Result<CapturedImage, PolarizeError>,
) -> Call {
    match target {
        ScreenshotTarget::Screen { display_id } => Call::CapturedScreen { display_id, reply },
        ScreenshotTarget::App { app } => Call::CapturedWindow {
            app: app@,
            window_title: None,
            reply,
        },
        ScreenshotTarget::Window { app, window_title } => Call::CapturedWindow {
            app: app@,
            window_title: Some(window_title@),
            reply,
        },
    }
}

/// Captures a target.
pub(crate) fn capture_target<C: ScreenCapture, D>(
    platform: &mut Platform<C, D, ()>,
    target: &ScreenshotTarget,
) -> (image: Result<CapturedImage, PolarizeError>)
    ensures
        final(platform).parts() == old(platform).parts(),
        captured(old(platform).reader(), *target, image),
        final(platform).calls() == old(platform).calls().push(capture_call(*target, image)),
{
    match target {
        ScreenshotTarget::Screen { display_id } => platform.capture_screen(*display_id),
        ScreenshotTarget::App { app } => platform.capture_window(app, None),
        ScreenshotTarget::Window { app, window_title } => {
            let title = window_title.as_str();
            platform.capture_window(app, Some(title))
        },
    }
}

/// What is answered for an image that was captured. Decoding the answer gives
/// the image's bytes back. An image whose text would not fit in memory is
/// refused.
pub open spec fn screenshot_answer(
    image: Result<CapturedImage, PolarizeError>,
    r: Result<ScreenshotResponse, PolarizeError>,
) -> bool {
    match image {
        Err(e) => r == Err::<ScreenshotResponse, PolarizeError>(e),
        Ok(i) => if base64_len(i.png_bytes@.len()) <= isize::MAX {
            r matches Ok(response) && response.png_base64@ == base64_encoded(i.png_bytes@)
                && response.width == i.width && response.height == i.height && base64_decoded(
                response.png_base64@,
            ) == decoded(i.png_bytes@)
        } else {
            r matches Err(PolarizeError::Platform(s)) && s@
                == "the captured image is too large to encode"@
        },
    }
}

/// Shapes an image that was captured into the answer of a request.
pub fn answer_screenshot(image: Result<CapturedImage, PolarizeError>) -> (r: Result<
    ScreenshotResponse,
    PolarizeError,
>)
    ensures
        screenshot_answer(image, r),
{
    let image = match image {
        Err(e) => return Err(e),
        Ok(image) => image,
    };
    let n: usize = image.png_bytes.len();
    let groups: usize = if n % 3 == 0 {
        n / 3
    } else {
        n / 3 + 1
    };
    assert(groups == (n + 2) / 3);
    let most: usize = isize::MAX as usize / 4;
    if groups > most {
        assert(groups * 4 > isize::MAX);
        return Err(
            PolarizeError::Platform("the captured image is too large to encode".to_owned()),
        );
    }
    assert(groups * 4 <= isize::MAX);
    Ok(
        ScreenshotResponse::from_png_bytes(
            image.png_bytes.as_slice(),
            image.width,
            image.height,
        ),
    )
}

/// The one call that a screenshot makes, and what is answered. `before` and
/// `after` are the calls that the platform had got before, and has got in the
/// end.
pub open spec fn shot<C: ScreenCapture>(
    capture: &C,
    request: ScreenshotRequest,
    before: Seq<Call>,
    after: Seq<Call>,
    r: Result<ScreenshotResponse, PolarizeError>,
) -> bool {
    exists|image: Result<CapturedImage, PolarizeError>|
        #[trigger] captured(capture, request.target, image) && after == before.push(
            capture_call(request.target, image),
        ) && screenshot_answer(image, r)
}

/// Captures a target, as base64 text.
pub fn perform_screenshot_on<C: ScreenCapture>(
    platform: &mut Platform<C, (), ()>,
    request: &ScreenshotRequest,
) -> (r: Result<ScreenshotResponse, PolarizeError>)
    ensures
        final(platform).parts() == old(platform).parts(),
        shot(
            old(platform).reader(),
            *request,
            old(platform).calls(),
            final(platform).calls(),
            r,
        ),
{
    let image = capture_target(platform, &request.target);
    answer_screenshot(image)
}

/// Captures a target, as base64 text.
pub fn perform_screenshot<C: ScreenCapture>(capture: &C, request: &ScreenshotRequest) -> (r: Result<
    ScreenshotResponse,
    PolarizeError,
>)
    ensures
        exists|calls: Seq<Call>| #[trigger] shot(capture, *request, seq![], calls, r),
{
    let mut platform = Platform::new(capture, &(), &());
    perform_screenshot_on(&mut platform, request)
}

// ---- keyboard ---------------------------------------------------------------

/// The app that a request names.
pub open spec fn keyboard_target(request: KeyboardRequest) -> Option<AppIdentifier> {
    match request {
        KeyboardRequest::Type { target, .. } => target,
        KeyboardRequest::KeyPress { target, .. } => target,
    }
}

/// Whether `posted` is what typing or pressing the request's keys gave.
pub open spec fn keys_posted<I: InputSynthesizer>(
    input: &I,
    request: KeyboardRequest,
    pid: Option<i32>,
    posted: Result<PostPath, PolarizeError>,
) -> bool {
    match request {
        KeyboardRequest::Type { text, .. } => exists|t: &str|
            t@ == text@ && #[trigger] call_ensures(I::type_text, (input, t, pid), posted),
        KeyboardRequest::KeyPress { key, modifiers, .. } => exists|m: &[crate::schema::Modifier]|
            m@ == modifiers@ && #[trigger] call_ensures(I::press_key, (input, key, m, pid), posted),
    }
}

/// The call that types or presses the request's keys.
pub open spec fn keys_call(
    request: KeyboardRequest,
    pid: Option<i32>,
    reply: Result<PostPath, PolarizeError>,
) -> Call {
    match request {
        KeyboardRequest::Type { text, .. } => Call::Typed { text: text@, pid, reply },
        KeyboardRequest::KeyPress { key, modifiers, .. } => Call::Pressed {
            key,
            modifiers: modifiers@,
            pid,
            reply,
        },
    }
}

/// The keys are posted once, and answered. The answer names the way that they
/// were really posted.
pub open spec fn keys_answered<I: InputSynthesizer>(
    input: &I,
    request: KeyboardRequest,
    activation_path: ActivationPath,
    pid: Option<i32>,
    before: Seq<Call>,
    after: Seq<Call>,
    r: Result<KeyboardResponse, PolarizeError>,
) -> bool {
    exists|posted: Result<PostPath, PolarizeError>|
        {
            &&& #[trigger] keys_posted(input, request, pid, posted)
            &&& after == before.push(keys_call(request, pid, posted))
            &&& r == match posted {
                Err(e) => Err::<KeyboardResponse, PolarizeError>(e),
                Ok(post_path) => Ok(KeyboardResponse { sent: true, activation_path, post_path }),
            }
        }
}

/// What follows once the target is active: its process is looked up, when there
/// is a target, and then the keys are posted. A process that could not be found
/// is no failure.
pub open spec fn keys_sent<W: WindowManager, I: InputSynthesizer>(
    window_manager: &W,
    input: &I,
    request: KeyboardRequest,
    activation_path: ActivationPath,
    before: Seq<Call>,
    after: Seq<Call>,
    r: Result<KeyboardResponse, PolarizeError>,
) -> bool {
    match keyboard_target(request) {
        None => keys_answered(input, request, activation_path, None, before, after, r),
        Some(app) => exists|found: Result<Option<i32>, PolarizeError>|
            #[trigger] call_ensures(W::resolve_app_pid, (window_manager, &app), found)
                && keys_answered(
                input,
                request,
                activation_path,
                pid_or_none(found),
                before.push(Call::FoundAppPid { app: app@, reply: found }),
                after,
                r,
            ),
    }
}

/// The calls that a keyboard request makes, in order, and what is answered. A
/// target app is activated before any key: without raising its window when that
/// is possible, and with it when it is not. Where activating it fails, no call
/// follows. `before` and `after` are the calls that the platform had got before,
/// and has got in the end.
pub open spec fn typed<W: WindowManager, I: InputSynthesizer>(
    window_manager: &W,
    input: &I,
    request: KeyboardRequest,
    before: Seq<Call>,
    after: Seq<Call>,
    r: Result<KeyboardResponse, PolarizeError>,
) -> bool {
    match keyboard_target(request) {
        None => keys_sent(
            window_manager,
            input,
            request,
            ActivationPath::NotActivated,
            before,
            after,
            r,
        ),
        Some(app) => exists|free: Result<bool, PolarizeError>|
            #[trigger] call_ensures(
                W::activate_app_without_raise,
                (window_manager, &app),
                free,
            ) && {
                let tried = before.push(Call::ActivatedInPlace { app: app@, reply: free });
                match free {
                    Err(e) => after == tried && r == Err::<KeyboardResponse, PolarizeError>(e),
                    Ok(true) => keys_sent(
                        window_manager,
                        input,
                        request,
                        ActivationPath::RaiseFree,
                        tried,
                        after,
                        r,
                    ),
                    Ok(false) => exists|raised: Result<(), PolarizeError>|
                        #[trigger] call_ensures(W::activate_app, (window_manager, &app), raised)
                            && {
                            let activated = tried.push(
                                Call::Activated { app: app@, reply: raised },
                            );
                            match raised {
                                Err(e) => after == activated && r == Err::<
                                    KeyboardResponse,
                                    PolarizeError,
                                >(e),
                                Ok(_) => keys_sent(
                                    window_manager,
                                    input,
                                    request,
                                    ActivationPath::Raised,
                                    activated,
                                    after,
                                    r,
                                ),
                            }
                        },
                }
            },
    }
}

/// Types a text or presses a key, after activating the target app.
pub fn perform_keyboard_on<W: WindowManager, I: InputSynthesizer>(
    platform: &mut Platform<W, I, ()>,
    request: &KeyboardRequest,
) -> (r: Result<KeyboardResponse, PolarizeError>)
    ensures
        final(platform).parts() == old(platform).parts(),
        typed(
            old(platform).reader(),
            old(platform).doer(),
            *request,
            old(platform).calls(),
            final(platform).calls(),
            r,
        ),
{
    let target: &Option<AppIdentifier> = match request {
        KeyboardRequest::Type { target, .. } => target,
        KeyboardRequest::KeyPress { target, .. } => target,
    };
    match target {
        None => send_keys(platform, request, ActivationPath::NotActivated),
        Some(app) => {
            let free = platform.activate_app_without_raise(app);
            match free {
                Err(e) => Err(e),
                Ok(true) => send_keys(platform, request, ActivationPath::RaiseFree),
                Ok(false) => {
                    let raised = platform.activate_app(app);
                    match raised {
                        Err(e) => Err(e),
                        Ok(()) => send_keys(platform, request, ActivationPath::Raised),
                    }
                },
            }
        },
    }
}

/// Types a text or presses a key. A target app is activated first: without
/// raising its window when that is possible, and with it when it is not.
pub fn perform_keyboard<W: WindowManager, I: InputSynthesizer>(
    window_manager: &W,
    input: &I,
    request: &KeyboardRequest,
) -> (r: Result<KeyboardResponse, PolarizeError>)
    ensures
        exists|calls: Seq<Call>|
            #[trigger] typed(window_manager, input, *request, seq![], calls, r),
{
    let mut platform = Platform::new(window_manager, input, &());
    perform_keyboard_on(&mut platform, request)
}

/// Posts the keys of a request whose target is active.
fn send_keys<W: WindowManager, I: InputSynthesizer>(
    platform: &mut Platform<W, I, ()>,
    request: &KeyboardRequest,
    activation_path: ActivationPath,
) -> (r: Result<KeyboardResponse, PolarizeError>)
    ensures
        final(platform).parts() == old(platform).parts(),
        keys_sent(
            old(platform).reader(),
            old(platform).doer(),
            *request,
            activation_path,
            old(platform).calls(),
            final(platform).calls(),
            r,
        ),
{
    let target: &Option<AppIdentifier> = match request {
        KeyboardRequest::Type { target, .. } => target,
        KeyboardRequest::KeyPress { target, .. } => target,
    };
    let pid: Option<i32> = match target {
        None => None,
        Some(app) => {
            let found = platform.resolve_app_pid(app);
            found_pid(found)
        },
    };
    let ghost looked = platform.calls();
    let posted = match request {
        KeyboardRequest::Type { text, .. } => {
            let t = text.as_str();
            platform.type_text(t, pid)
        },
        KeyboardRequest::KeyPress { key, modifiers, .. } => {
            let m = modifiers.as_slice();
            platform.press_key(*key, m, pid)
        },
    };
    assert(keys_posted(old(platform).doer(), *request, pid, posted));
    let r = match posted {
        Err(e) => Err(e),
        Ok(post_path) => Ok(KeyboardResponse { sent: true, activation_path, post_path }),
    };
    assert(keys_answered(
        old(platform).doer(),
        *request,
        activation_path,
        pid,
        looked,
        platform.calls(),
        r,
    ));
    r
}

// ---- laws -------------------------------------------------------------------

/// A hit test and a tap of the same fraction of the same rectangle mean one
/// point, when the arithmetic always gives the same result.
pub proof fn one_fraction_is_one_point<N: Numbers>(
    numbers: &N,
    fraction: Fraction,
    rect: PixelRect,
    hit: PixelPoint,
    tap: PixelPoint,
)
    requires
        placed(numbers, fraction, rect, hit),
        placed(numbers, fraction, rect, tap),
        steady(numbers),
    ensures
        hit == tap,
{
}

/// Whether a call posts input: a click, a text or a key.
pub open spec fn posts_input(call: Call) -> bool {
    call is Clicked || call is Typed || call is Pressed
}

/// The target app of a keyboard request is active before any input is posted:
/// the call before the input, not counting the look-up of the process, either
/// activated the app in place or raised it. Input is posted at most once, as the
/// last call, and only when no activation failed. An answer comes only from
/// input that was posted.
pub proof fn activation_comes_first<W: WindowManager, I: InputSynthesizer>(
    window_manager: &W,
    input: &I,
    request: KeyboardRequest,
    before: Seq<Call>,
    after: Seq<Call>,
    r: Result<KeyboardResponse, PolarizeError>,
)
    requires
        typed(window_manager, input, request, before, after, r),
    ensures
        before.len() < after.len(),
        after.take(before.len() as int) == before,
        forall|i: int| before.len() <= i < after.len() - 1 ==> !posts_input(#[trigger] after[i]),
        r is Ok ==> posts_input(after.last()),
        posts_input(after.last()) ==> match keyboard_target(request) {
            None => after.len() == before.len() + 1,
            Some(app) => {
                let last = after[after.len() - 3];
                &&& after.len() >= before.len() + 3
                &&& after[after.len() - 2] is FoundAppPid
                &&& (last matches Call::ActivatedInPlace { app: a, reply } && a == app@ && reply
                    == Ok::<bool, PolarizeError>(true)) || (last matches Call::Activated {
                    app: a,
                    reply,
                } && a == app@ && reply is Ok)
            },
        },
{
    assert(after.take(before.len() as int) =~= before);
}

/// A tap clicks at most once, as its last call, and only the point that its
/// fraction was placed at. A fraction that is refused clicks nothing.
pub proof fn refused_fractions_click_nothing<N: Numbers, W: WindowManager, I: InputSynthesizer>(
    numbers: &N,
    window_manager: &W,
    input: &I,
    request: TapRequest,
    before: Seq<Call>,
    after: Seq<Call>,
    r: Result<TapResponse, PolarizeError>,
)
    requires
        tapped(numbers, window_manager, input, request, before, after, r),
    ensures
        before.len() < after.len(),
        after.take(before.len() as int) == before,
        forall|i: int| before.len() <= i < after.len() - 1 ==> !posts_input(#[trigger] after[i]),
        after[before.len() as int] is FoundRect,
        r is Ok ==> posts_input(after.last()),
        posts_input(after.last()) ==> (after[before.len() as int]->FoundRect_reply matches Ok(rect)
            && fraction_refusal(Fraction { x: request.x, y: request.y }, rect.size) is None
            && after.last() is Clicked && placed(
            numbers,
            Fraction { x: request.x, y: request.y },
            rect,
            after.last()->Clicked_point,
        )),
{
    assert(after.take(before.len() as int) =~= before);
}

/// A tap clicks where it was asked to: in the target, the main screen where none
/// is named, as often as was asked for, once where nothing was, and in the
/// target's own process where that is known. What is answered is the point that
/// was clicked, and how.
pub proof fn taps_click_what_was_asked_for<N: Numbers, W: WindowManager, I: InputSynthesizer>(
    numbers: &N,
    window_manager: &W,
    input: &I,
    request: TapRequest,
    before: Seq<Call>,
    after: Seq<Call>,
    tap: TapResponse,
)
    requires
        tapped(numbers, window_manager, input, request, before, after, Ok(tap)),
    ensures
        ({
            let first = before.len() as int;
            let target = match request.target {
                Some(target) => target,
                None => ScreenshotTarget::Screen { display_id: None },
            };
            &&& after.len() == first + 3
            &&& after[first] is FoundRect && after[first]->FoundRect_target == target
            &&& after[first + 1] is FoundTargetPid && after[first + 1]->FoundTargetPid_target
                == target
            &&& after[first + 2] is Clicked
            &&& after[first + 2]->Clicked_click_count == match request.click_count {
                Some(n) => n,
                None => 1u8,
            }
            &&& after[first + 2]->Clicked_pid == match after[first + 1]->FoundTargetPid_reply {
                Ok(pid) => pid,
                Err(_) => None,
            }
            &&& tap.tapped
            &&& after[first + 2]->Clicked_point == (PixelPoint { x: tap.pixel_x, y: tap.pixel_y })
            &&& after[first + 2]->Clicked_reply == Ok::<_, PolarizeError>(tap.post_path)
        }),
{
}

/// What was asked for is typed or pressed, all of it, in the process of the
/// target where it is known. The answer says how the target was activated and how
/// the keys were posted.
pub proof fn keys_are_what_was_asked_for<W: WindowManager, I: InputSynthesizer>(
    window_manager: &W,
    input: &I,
    request: KeyboardRequest,
    before: Seq<Call>,
    after: Seq<Call>,
    response: KeyboardResponse,
)
    requires
        typed(window_manager, input, request, before, after, Ok(response)),
    ensures
        response.sent,
        match request {
            KeyboardRequest::Type { text, target } => after.last() is Typed
                && after.last()->Typed_text == text@ && after.last()->Typed_reply == Ok::<
                _,
                PolarizeError,
            >(response.post_path) && (target is None ==> after.last()->Typed_pid is None),
            KeyboardRequest::KeyPress { key, modifiers, target } => after.last() is Pressed
                && after.last()->Pressed_key == key && after.last()->Pressed_modifiers
                == modifiers@ && after.last()->Pressed_reply == Ok::<_, PolarizeError>(
                response.post_path,
            ) && (target is None ==> after.last()->Pressed_pid is None),
        },
        ({
            let first = before.len() as int;
            let target = match request {
                KeyboardRequest::Type { target, .. } => target,
                KeyboardRequest::KeyPress { target, .. } => target,
            };
            &&& target is None <==> response.activation_path == ActivationPath::NotActivated
            &&& target matches Some(app) ==> {
                &&& after[first] is ActivatedInPlace && after[first]->ActivatedInPlace_app == app@
                &&& response.activation_path == ActivationPath::RaiseFree
                    <==> after[first]->ActivatedInPlace_reply == Ok::<_, PolarizeError>(true)
                &&& response.activation_path == ActivationPath::Raised ==> after[first + 1]
                    is Activated && after[first + 1]->Activated_app == app@
                &&& after[after.len() - 2] is FoundAppPid && after[after.len()
                    - 2]->FoundAppPid_app == app@
                &&& (match after.last() {
                    Call::Typed { pid, .. } => pid,
                    Call::Pressed { pid, .. } => pid,
                    _ => None,
                }) == match after[after.len() - 2]->FoundAppPid_reply {
                    Ok(pid) => pid,
                    Err(_) => None,
                }
            }
        }),
{
}

/// A screenshot captures what was asked for: a display, the window of an app, or
/// the window of a title. Decoding what is answered gives the captured image, and
/// its size is that of the image.
pub proof fn screenshots_capture_what_was_asked_for<C: ScreenCapture>(
    capture: &C,
    request: ScreenshotRequest,
    before: Seq<Call>,
    after: Seq<Call>,
    r: Result<ScreenshotResponse, PolarizeError>,
)
    requires
        shot(capture, request, before, after, r),
    ensures
        after.len() == before.len() + 1,
        match request.target {
            ScreenshotTarget::Screen { display_id } => after.last() is CapturedScreen
                && after.last()->CapturedScreen_display_id == display_id,
            ScreenshotTarget::App { app } => after.last() is CapturedWindow
                && after.last()->CapturedWindow_app == app@
                && after.last()->CapturedWindow_window_title is None,
            ScreenshotTarget::Window { app, window_title } => after.last() is CapturedWindow
                && after.last()->CapturedWindow_app == app@
                && after.last()->CapturedWindow_window_title == Some(window_title@),
        },
        ({
            let reply = match after.last() {
                Call::CapturedScreen { reply, .. } => reply,
                Call::CapturedWindow { reply, .. } => reply,
                _ => Err(PolarizeError::ScreenLocked),
            };
            &&& reply matches Err(e) ==> r == Err::<ScreenshotResponse, PolarizeError>(e)
            &&& reply matches Ok(image) ==> (r matches Ok(response) ==> base64_decoded(
                response.png_base64@,
            ) == Ok::<Seq<u8>, crate::schema::Base64Error>(image.png_bytes@) && response.width
                == image.width && response.height == image.height)
            &&& reply matches Ok(image) ==> (r is Err ==> image.png_bytes@.len() > isize::MAX / 4
                * 3)
        }),
{
}

/// A description reads the app that was asked for, and answers with the tree that
/// was read, and whose it is.
pub proof fn descriptions_keep_the_tree<N: Numbers, A: AccessibilityInspector>(
    numbers: &N,
    inspector: &A,
    request: DescribeRequest,
    before: Seq<Call>,
    after: Seq<Call>,
    r: Result<DescribeResponse, PolarizeError>,
)
    requires
        read_and_described(numbers, inspector, request, before, after, r),
    ensures
        after.len() == before.len() + 1,
        after.last() is Described && after.last()->Described_app == app_view(request.app),
        after.last()->Described_reply matches Err(e) ==> r == Err::<DescribeResponse, PolarizeError>(
            e,
        ),
        after.last()->Described_reply matches Ok((resolved, root)) ==> (r matches Ok(response) && {
            &&& response.root == root
            &&& response.app_name@ == resolved.name@
            &&& response.bundle_id is Some <==> resolved.bundle_id is Some
            &&& response.bundle_id matches Some(id) ==> id@ == resolved.bundle_id->0@
        }),
{
}

/// A target that is not found, or a fraction that is refused, clicks nothing and
/// is the answer; and so is a click that fails.
pub proof fn failed_taps_say_why<N: Numbers, W: WindowManager, I: InputSynthesizer>(
    numbers: &N,
    window_manager: &W,
    input: &I,
    request: TapRequest,
    before: Seq<Call>,
    after: Seq<Call>,
    r: Result<TapResponse, PolarizeError>,
)
    requires
        tapped(numbers, window_manager, input, request, before, after, r),
    ensures
        ({
            let first = before.len() as int;
            &&& after.len() == first + 1 || after.len() == first + 3
            &&& after[first] is FoundRect
            &&& after[first]->FoundRect_reply matches Err(e) ==> after.len() == first + 1 && r
                == Err::<TapResponse, PolarizeError>(e)
            &&& after[first]->FoundRect_reply is Ok && after.len() == first + 1 ==> r is Err
                && r->Err_0 is Coord
            &&& after.len() == first + 3 ==> after.last() is Clicked && (
            after.last()->Clicked_reply matches Err(e) ==> r == Err::<TapResponse, PolarizeError>(
                e,
            ))
        }),
{
}

/// An app that cannot be activated gets no key, and what went wrong is the
/// answer; and so is a key that fails.
pub proof fn failed_keys_say_why<W: WindowManager, I: InputSynthesizer>(
    window_manager: &W,
    input: &I,
    request: KeyboardRequest,
    before: Seq<Call>,
    after: Seq<Call>,
    e: PolarizeError,
)
    requires
        typed(window_manager, input, request, before, after, Err(e)),
    ensures
        match after.last() {
            Call::ActivatedInPlace { reply, .. } => reply == Err::<bool, PolarizeError>(e),
            Call::Activated { reply, .. } => reply == Err::<(), PolarizeError>(e),
            Call::Typed { reply, .. } => reply == Err::<PostPath, PolarizeError>(e),
            Call::Pressed { reply, .. } => reply == Err::<PostPath, PolarizeError>(e),
            _ => false,
        },
{
}

} // verus!
