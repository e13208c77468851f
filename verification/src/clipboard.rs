//! Reading and writing the pasteboard.

use vstd::prelude::*;

use crate::error::PolarizeError;
use crate::permission::{PermissionError, PermissionKind, PermissionState};
use crate::platform::{Call, Platform};
use crate::text::opt_view;
use crate::traits::ClipboardAccess;

verus! {

/// Which content of the pasteboard a tool reads or writes.
#[derive(Debug, Clone, Copy, PartialEq, Eq, Structural)]
pub enum ClipboardContentType {
    PlainText,
}

impl Default for ClipboardContentType {
    /// Plain text.
    fn default() -> (r: Self)
        ensures
            r == ClipboardContentType::PlainText,
    {
        ClipboardContentType::PlainText
    }
}

/// What the pasteboard reported for one content type.
#[derive(Debug, Clone, PartialEq, Eq)]
pub struct RawClipboardRead {
    /// Whether the pasteboard lists the type.
    pub declared: bool,
    /// The value that it handed over, if any.
    pub value: Option<String>,
}

impl Default for RawClipboardRead {
    /// The report of an empty pasteboard.
    fn default() -> (r: Self)
        ensures
            !r.declared,
            r.value is None,
    {
        RawClipboardRead { declared: false, value: None }
    }
}

#[derive(Debug, Clone, Copy, PartialEq, Eq, Structural)]
pub struct ClipboardReadRequest {
    pub content_type: ClipboardContentType,
}

impl Default for ClipboardReadRequest {
    /// A read of plain text.
    fn default() -> (r: Self)
        ensures
            r.content_type == ClipboardContentType::PlainText,
    {
        ClipboardReadRequest { content_type: ClipboardContentType::PlainText }
    }
}

#[derive(Debug, Clone, PartialEq, Eq)]
pub struct ClipboardReadResponse {
    pub content_type: ClipboardContentType,
    /// `None` when the pasteboard holds nothing of the type.
    pub text: Option<String>,
}

#[derive(Debug, Clone, PartialEq, Eq)]
pub struct ClipboardWriteRequest {
    pub content_type: ClipboardContentType,
    pub text: String,
}

impl Default for ClipboardWriteRequest {
    /// A write of the empty text.
    fn default() -> (r: Self)
        ensures
            r.content_type == ClipboardContentType::PlainText,
            r.text@ == Seq::<char>::empty(),
    {
        ClipboardWriteRequest {
            content_type: ClipboardContentType::PlainText,
            text: String::new(),
        }
    }
}

#[derive(Debug, Clone, Copy, PartialEq, Eq, Structural)]
pub struct ClipboardWriteResponse {
    pub written: bool,
    pub content_type: ClipboardContentType,
    /// How many characters were written.
    pub characters: usize,
}

/// The error of a read that the system refused. The pasteboard gives no sign
/// that the user made a choice, so the state is never a denial.
pub open spec fn refused_read() -> PermissionError {
    PermissionError::NotGranted {
        kind: PermissionKind::Clipboard,
        state: PermissionState::NotDetermined,
    }
}

/// What a pasteboard's report means: a value is an answer, a listed type
/// without a value is a refusal, and anything else is an empty pasteboard.
pub open spec fn read_meaning(raw: RawClipboardRead) -> Result<
    Option<Seq<char>>,
    PermissionError,
> {
    match raw.value {
        Some(text) => Ok(Some(text@)),
        None => if raw.declared {
            Err(refused_read())
        } else {
            Ok(None)
        },
    }
}

/// Tells an empty pasteboard from a refused read.
pub fn classify_read(raw: &RawClipboardRead) -> (r: Result<Option<String>, PermissionError>)
    ensures
        match read_meaning(*raw) {
            Ok(text) => r matches Ok(found) && opt_view(found) == text,
            Err(e) => r == Err::<Option<String>, PermissionError>(e),
        },
{
    match &raw.value {
        Some(text) => Ok(Some(text.clone())),
        None => if raw.declared {
            Err(
                PermissionError::NotGranted {
                    kind: PermissionKind::Clipboard,
                    state: PermissionState::NotDetermined,
                },
            )
        } else {
            Ok(None)
        },
    }
}

/// What a read answers for what the pasteboard reported.
pub open spec fn read_answer(
    content_type: ClipboardContentType,
    reported: Result<RawClipboardRead, PolarizeError>,
    r: Result<ClipboardReadResponse, PolarizeError>,
) -> bool {
    match reported {
        Err(e) => r == Err::<ClipboardReadResponse, PolarizeError>(e),
        Ok(raw) => match read_meaning(raw) {
            Ok(text) => r matches Ok(response) && response.content_type == content_type && opt_view(
                response.text,
            ) == text,
            Err(e) => r == Err::<ClipboardReadResponse, PolarizeError>(
                PolarizeError::Permission(e),
            ),
        },
    }
}

/// Shapes what the pasteboard reported into the answer of a read.
pub fn answer_read(
    content_type: ClipboardContentType,
    reported: Result<RawClipboardRead, PolarizeError>,
) -> (r: Result<ClipboardReadResponse, PolarizeError>)
    ensures
        read_answer(content_type, reported, r),
{
    let raw = match reported {
        Err(e) => return Err(e),
        Ok(raw) => raw,
    };
    match classify_read(&raw) {
        Err(e) => Err(PolarizeError::Permission(e)),
        Ok(text) => Ok(ClipboardReadResponse { content_type, text }),
    }
}

/// The one call that a read makes, and what is answered. `before` and `after`
/// are the calls that the platform had got before, and has got in the end.
pub open spec fn read_once<C: ClipboardAccess>(
    clipboard: &C,
    request: ClipboardReadRequest,
    before: Seq<Call>,
    after: Seq<Call>,
    r: Result<ClipboardReadResponse, PolarizeError>,
) -> bool {
    let content_type = request.content_type;
    exists|reply: Result<RawClipboardRead, PolarizeError>|
        #[trigger] call_ensures(C::read_clipboard, (clipboard, content_type), reply) && after
            == before.push(Call::ReadClipboard { content_type, reply }) && read_answer(
            content_type,
            reply,
            r,
        )
}

/// Reads the pasteboard.
pub fn perform_clipboard_read_on<C: ClipboardAccess>(
    platform: &mut Platform<C, (), ()>,
    request: &ClipboardReadRequest,
) -> (r: Result<ClipboardReadResponse, PolarizeError>)
    ensures
        final(platform).parts() == old(platform).parts(),
        read_once(
            old(platform).reader(),
            *request,
            old(platform).calls(),
            final(platform).calls(),
            r,
        ),
{
    let reported = platform.read_clipboard(request.content_type);
    answer_read(request.content_type, reported)
}

/// Reads the pasteboard.
pub fn perform_clipboard_read<C: ClipboardAccess>(
    clipboard: &C,
    request: &ClipboardReadRequest,
) -> (r: Result<ClipboardReadResponse, PolarizeError>)
    ensures
        exists|calls: Seq<Call>| #[trigger] read_once(clipboard, *request, seq![], calls, r),
{
    let mut platform = Platform::new(clipboard, &(), &());
    perform_clipboard_read_on(&mut platform, request)
}

/// What a write answers for what the pasteboard said.
pub open spec fn write_answer(
    request: ClipboardWriteRequest,
    done: Result<(), PolarizeError>,
    r: Result<ClipboardWriteResponse, PolarizeError>,
) -> bool {
    match done {
        Err(e) => r == Err::<ClipboardWriteResponse, PolarizeError>(e),
        Ok(_) => r matches Ok(response) && response.written && response.content_type
            == request.content_type && response.characters == request.text@.len(),
    }
}

/// Shapes what the pasteboard said into the answer of a write.
pub fn answer_write(
    request: &ClipboardWriteRequest,
    done: Result<(), PolarizeError>,
) -> (r: Result<ClipboardWriteResponse, PolarizeError>)
    ensures
        write_answer(*request, done, r),
{
    match done {
        Err(e) => Err(e),
        Ok(()) => Ok(
            ClipboardWriteResponse {
                written: true,
                content_type: request.content_type,
                characters: request.text.as_str().unicode_len(),
            },
        ),
    }
}

/// The one call that a write makes, and what is answered. `before` and `after`
/// are the calls that the platform had got before, and has got in the end.
pub open spec fn written_once<C: ClipboardAccess>(
    clipboard: &C,
    request: ClipboardWriteRequest,
    before: Seq<Call>,
    after: Seq<Call>,
    r: Result<ClipboardWriteResponse, PolarizeError>,
) -> bool {
    let content_type = request.content_type;
    exists|text: &str, reply: Result<(), PolarizeError>|
        text@ == request.text@ && #[trigger] call_ensures(
            C::write_clipboard,
            (clipboard, content_type, text),
            reply,
        ) && after == before.push(
            Call::WroteClipboard { content_type, text: request.text@, reply },
        ) && write_answer(request, reply, r)
}

/// Replaces the contents of the pasteboard.
pub fn perform_clipboard_write_on<C: ClipboardAccess>(
    platform: &mut Platform<C, (), ()>,
    request: &ClipboardWriteRequest,
) -> (r: Result<ClipboardWriteResponse, PolarizeError>)
    ensures
        final(platform).parts() == old(platform).parts(),
        written_once(
            old(platform).reader(),
            *request,
            old(platform).calls(),
            final(platform).calls(),
            r,
        ),
{
    let text = request.text.as_str();
    let done = platform.write_clipboard(request.content_type, text);
    answer_write(request, done)
}

/// Replaces the contents of the pasteboard.
pub fn perform_clipboard_write<C: ClipboardAccess>(
    clipboard: &C,
    request: &ClipboardWriteRequest,
) -> (r: Result<ClipboardWriteResponse, PolarizeError>)
    ensures
        exists|calls: Seq<Call>| #[trigger] written_once(clipboard, *request, seq![], calls, r),
{
    let mut platform = Platform::new(clipboard, &(), &());
    perform_clipboard_write_on(&mut platform, request)
}

// ---- laws -------------------------------------------------------------------

/// A refused read is never reported as an empty pasteboard: the answer is
/// `None` only when the type is not listed, and an error only when it is
/// listed and no value came. A value always arrives, even an empty one.
pub proof fn refusal_is_not_emptiness(raw: RawClipboardRead)
    ensures
        read_meaning(raw) == Ok::<Option<Seq<char>>, PermissionError>(None) <==> !raw.declared
            && raw.value is None,
        read_meaning(raw) is Err <==> raw.declared && raw.value is None,
        raw.value matches Some(text) ==> read_meaning(raw) == Ok::<
            Option<Seq<char>>,
            PermissionError,
        >(Some(text@)),
{
}

/// A read answers with what the pasteboard reported, for the type that was asked
/// for: the text where there is one; nothing where the type is not listed; and a
/// missing clipboard permission, never an empty text, where it is listed and no
/// text came.
pub proof fn reads_answer_what_was_reported(
    content_type: ClipboardContentType,
    raw: RawClipboardRead,
    r: Result<ClipboardReadResponse, PolarizeError>,
)
    requires
        read_answer(content_type, Ok(raw), r),
    ensures
        raw.value matches Some(text) ==> r is Ok && r->Ok_0.text is Some && r->Ok_0.text->0@
            == text@,
        raw.value is None && !raw.declared ==> r is Ok && r->Ok_0.text is None,
        raw.value is None && raw.declared ==> r == Err::<ClipboardReadResponse, PolarizeError>(
            PolarizeError::Permission(
                PermissionError::NotGranted {
                    kind: PermissionKind::Clipboard,
                    state: PermissionState::NotDetermined,
                },
            ),
        ),
        r matches Ok(response) ==> response.content_type == content_type,
{
}

/// A write hands the whole text on, once, and says how many characters it had.
pub proof fn writes_hand_the_text_on<C: ClipboardAccess>(
    clipboard: &C,
    request: ClipboardWriteRequest,
    before: Seq<Call>,
    after: Seq<Call>,
    r: Result<ClipboardWriteResponse, PolarizeError>,
)
    requires
        written_once(clipboard, request, before, after, r),
    ensures
        after.len() == before.len() + 1,
        after.last() is WroteClipboard,
        after.last()->WroteClipboard_text == request.text@,
        after.last()->WroteClipboard_content_type == request.content_type,
        r is Ok <==> after.last()->WroteClipboard_reply is Ok,
        r matches Ok(response) ==> response.written && response.characters == request.text@.len()
            && response.content_type == request.content_type,
{
}

/// A read asks the pasteboard once, for the type that was asked for; a pasteboard
/// that fails is the answer.
pub proof fn reads_ask_for_the_wanted_type<C: ClipboardAccess>(
    clipboard: &C,
    request: ClipboardReadRequest,
    before: Seq<Call>,
    after: Seq<Call>,
    r: Result<ClipboardReadResponse, PolarizeError>,
)
    requires
        read_once(clipboard, request, before, after, r),
    ensures
        after.len() == before.len() + 1,
        after.last() is ReadClipboard,
        after.last()->ReadClipboard_content_type == request.content_type,
        after.last()->ReadClipboard_reply matches Err(e) ==> r == Err::<
            ClipboardReadResponse,
            PolarizeError,
        >(e),
        r matches Ok(response) ==> response.content_type == request.content_type,
{
}

} // verus!
