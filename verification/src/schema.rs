//! Requests and responses of the core tools.

use base64::engine::general_purpose::STANDARD;
use base64::Engine;
use vstd::prelude::*;

use crate::ax::AxNode;
use crate::binary64::Real;
use crate::text::{copy_opt, opt_view};

verus! {

/// Names an app by bundle id, by name, or by both.
#[derive(Debug, Clone, PartialEq, Eq)]
pub struct AppIdentifier {
    pub bundle_id: Option<String>,
    pub app_name: Option<String>,
}

impl View for AppIdentifier {
    type V = (Option<Seq<char>>, Option<Seq<char>>);

    /// The bundle id and the name, as texts.
    open spec fn view(&self) -> Self::V {
        (opt_view(self.bundle_id), opt_view(self.app_name))
    }
}

impl Default for AppIdentifier {
    /// The identifier that names nothing.
    fn default() -> (r: Self)
        ensures
            r@ == (None::<Seq<char>>, None::<Seq<char>>),
    {
        AppIdentifier { bundle_id: None, app_name: None }
    }
}

impl AppIdentifier {
    /// A copy of the identifier.
    pub(crate) fn copy(&self) -> (r: Self)
        ensures
            r@ == self@,
    {
        AppIdentifier { bundle_id: copy_opt(&self.bundle_id), app_name: copy_opt(&self.app_name) }
    }
}

/// An optional app identifier, as texts.
pub open spec fn app_view(app: Option<AppIdentifier>) -> Option<
    (Option<Seq<char>>, Option<Seq<char>>),
> {
    match app {
        Some(a) => Some(a@),
        None => None,
    }
}

/// A reference into an optional value.
pub open spec fn opt_ref<T>(o: &Option<T>) -> Option<&T> {
    match o {
        Some(x) => Some(x),
        None => None,
    }
}

/// A reference into an optional value.
pub(crate) fn as_opt_ref<T>(o: &Option<T>) -> (r: Option<&T>)
    ensures
        r == opt_ref(o),
{
    match o {
        Some(x) => Some(x),
        None => None,
    }
}

/// What a screenshot captures, or a point refers to.
#[derive(Debug, Clone, PartialEq, Eq)]
pub enum ScreenshotTarget {
    /// A whole display; the main one when no id is given.
    Screen { display_id: Option<u32> },
    /// The frontmost window of an app.
    App { app: AppIdentifier },
    /// The window of an app with this title.
    Window { app: AppIdentifier, window_title: String },
}

#[derive(Debug, Clone, PartialEq, Eq)]
pub struct ScreenshotRequest {
    pub target: ScreenshotTarget,
}

/// A captured image, as base64 text.
#[derive(Debug, Clone, PartialEq, Eq)]
pub struct ScreenshotResponse {
    /// The image in PNG form, in padded base64 of the standard alphabet.
    pub png_base64: String,
    pub width: u32,
    pub height: u32,
}

/// Why a text is not base64.
#[derive(Debug, Clone, Copy, PartialEq, Eq, Structural)]
pub enum Base64Error {
    /// A byte that no base64 text holds, or that stands in the wrong place.
    InvalidByte { offset: usize, byte: u8 },
    /// The number of symbols cannot be.
    InvalidLength { length: usize },
    /// The last symbol carries bits that no encoder writes.
    InvalidLastSymbol { offset: usize, byte: u8 },
    /// The padding is missing or wrong.
    InvalidPadding,
}

/// The padded base64 text of some bytes, in the standard alphabet.
pub uninterp spec fn base64_encoded(bytes: Seq<u8>) -> Seq<char>;

/// What decoding a padded base64 text of the standard alphabet gives.
pub uninterp spec fn base64_decoded(text: Seq<char>) -> Result<Seq<u8>, Base64Error>;

/// The result of a decoding that succeeds.
pub open spec fn decoded(bytes: Seq<u8>) -> Result<Seq<u8>, Base64Error> {
    Ok(bytes)
}

/// The result of a decoding, with its bytes as a sequence.
pub open spec fn decoding(r: Result<Vec<u8>, Base64Error>) -> Result<Seq<u8>, Base64Error> {
    match r {
        Ok(bytes) => Ok(bytes@),
        Err(e) => Err(e),
    }
}

/// How many characters the padded base64 text of `n` bytes has.
pub open spec fn base64_len(n: nat) -> nat {
    (n + 2) / 3 * 4
}

/// `base64::Engine::encode` of the `STANDARD` engine: its text depends on the
/// bytes alone, and decoding it gives the bytes back. The text must fit in
/// one allocation, or the call panics.
#[verifier::external_body]
fn encode_base64(bytes: &[u8]) -> (out: String)
    requires
        base64_len(bytes@.len()) <= isize::MAX,
    ensures
        out@ == base64_encoded(bytes@),
        base64_decoded(out@) == decoded(bytes@),
{
    STANDARD.encode(bytes)
}

/// `base64::Engine::decode` of the `STANDARD` engine: its bytes, or its
/// error, depend on the characters alone.
#[verifier::external_body]
fn decode_base64(text: &str) -> (r: Result<Vec<u8>, Base64Error>)
    ensures
        decoding(r) == base64_decoded(text@),
{
    STANDARD.decode(text).map_err(|e| match e {
        base64::DecodeError::InvalidByte(offset, byte) => Base64Error::InvalidByte { offset, byte },
        base64::DecodeError::InvalidLength(length) => Base64Error::InvalidLength { length },
        base64::DecodeError::InvalidLastSymbol(offset, byte) => Base64Error::InvalidLastSymbol { offset, byte },
        base64::DecodeError::InvalidPadding => Base64Error::InvalidPadding,
    })
}

impl ScreenshotResponse {
    /// Builds a response from the bytes of a PNG image. Decoding the response
    /// gives those bytes back.
    pub fn from_png_bytes(png_bytes: &[u8], width: u32, height: u32) -> (r: Self)
        requires
            base64_len(png_bytes@.len()) <= isize::MAX,
        ensures
            r.png_base64@ == base64_encoded(png_bytes@),
            r.width == width,
            r.height == height,
            base64_decoded(r.png_base64@) == decoded(png_bytes@),
    {
        ScreenshotResponse { png_base64: encode_base64(png_bytes), width, height }
    }

    /// Decodes the response back to the bytes of the PNG image.
    pub fn decode_png_bytes(&self) -> (r: Result<Vec<u8>, Base64Error>)
        ensures
            decoding(r) == base64_decoded(self.png_base64@),
    {
        decode_base64(&self.png_base64)
    }
}

/// `app` is `None` to inspect the frontmost app.
#[derive(Debug, Clone, PartialEq, Eq)]
pub struct DescribeRequest {
    pub app: Option<AppIdentifier>,
}

#[derive(Debug, PartialEq, Eq)]
pub struct DescribeResponse {
    pub app_name: String,
    /// The app's bundle id, when it has one.
    pub bundle_id: Option<String>,
    pub root: AxNode,
    /// The tree as one indented line per node.
    pub formatted: String,
}

/// A mouse click at a fraction of a target; of the main screen when there is
/// no target.
#[derive(Debug, Clone, PartialEq, Eq)]
pub struct TapRequest {
    pub x: Real,
    pub y: Real,
    pub target: Option<ScreenshotTarget>,
    /// One when omitted.
    pub click_count: Option<u8>,
}

#[derive(Debug, Clone, Copy, PartialEq, Eq, Structural)]
pub struct TapResponse {
    pub tapped: bool,
    /// The pixel point that was clicked.
    pub pixel_x: Real,
    pub pixel_y: Real,
    /// How the click was posted.
    pub post_path: PostPath,
}

/// How input was posted.
#[derive(Debug, Clone, Copy, PartialEq, Eq, Structural)]
pub enum PostPath {
    /// Into the target app's own queue.
    Pid,
    /// Into the global stream; the shared cursor moves.
    Global,
}

/// A key that no character names.
#[derive(Debug, Clone, Copy, PartialEq, Eq, Structural)]
pub enum NamedKey {
    Return,
    Tab,
    Escape,
    Delete,
    ArrowUp,
    ArrowDown,
    ArrowLeft,
    ArrowRight,
    Space,
}

/// A modifier that is held during a key press.
#[derive(Debug, Clone, Copy, PartialEq, Eq, Structural)]
pub enum Modifier {
    Command,
    Shift,
    Option,
    Control,
}

/// Types a text, or presses one named key.
#[derive(Debug, Clone, PartialEq, Eq)]
pub enum KeyboardRequest {
    Type { text: String, target: Option<AppIdentifier> },
    KeyPress { key: NamedKey, modifiers: Vec<Modifier>, target: Option<AppIdentifier> },
}

#[derive(Debug, Clone, Copy, PartialEq, Eq, Structural)]
pub struct KeyboardResponse {
    pub sent: bool,
    /// How the target app was activated.
    pub activation_path: ActivationPath,
    /// How the keys were posted.
    pub post_path: PostPath,
}

/// How the target app of a keyboard request was activated.
#[derive(Debug, Clone, Copy, PartialEq, Eq, Structural)]
pub enum ActivationPath {
    /// The request names no app, so none was activated.
    NotActivated,
    /// Without raising its window.
    RaiseFree,
    /// With its window raised.
    Raised,
}

// ---- laws -------------------------------------------------------------------

/// An image comes back whole: decoding a response gives the bytes that it was
/// made from, and the response tells the image's own width and height.
pub proof fn images_come_back_whole(
    png_bytes: &[u8],
    width: u32,
    height: u32,
    response: ScreenshotResponse,
    back: Result<Vec<u8>, Base64Error>,
)
    requires
        call_ensures(ScreenshotResponse::from_png_bytes, (png_bytes, width, height), response),
        call_ensures(ScreenshotResponse::decode_png_bytes, (&response,), back),
    ensures
        back matches Ok(bytes) && bytes@ == png_bytes@,
        response.width == width && response.height == height,
{
}

} // verus!
