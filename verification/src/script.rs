//! Running scripts, reading what their failures mean, and listing what an
//! app's scripting dictionary offers.

use vstd::prelude::*;

use crate::error::PolarizeError;
use crate::permission::{PermissionError, PermissionKind, PermissionState};
use crate::platform::{Call, Platform};
use crate::schema::AppIdentifier;
use crate::text::{
    chars_of, decimal, find_from, first_from, lemma_first_from, occurs_at,
    opt_i32, opt_int, opt_str_view, opt_view, parsed_i32, replace, replaced, same, signed_decimal,
    slice_of, trim, trim_end, trimmed, trimmed_end, whitespace,
};
use crate::traits::{AppSdef, AppleScriptRunner, ScriptOutcome};

verus! {

pub const DEFAULT_TIMEOUT_MS: u64 = 30_000;

pub const MIN_TIMEOUT_MS: u64 = 100;

pub const MAX_TIMEOUT_MS: u64 = 120_000;

/// How many characters of a script's output are kept.
pub const MAX_OUTPUT_CHARS: usize = 64_000;

/// How many characters of a script's source an error shows.
pub const MAX_SOURCE_CHARS_IN_ERROR: usize = 48;

/// The user refused automation of the target.
pub const ERR_NOT_AUTHORIZED: i32 = -1743;

/// The user was not asked about automation of the target.
pub const ERR_NEEDS_CONSENT: i32 = -1744;

pub const ERR_APP_NOT_RUNNING: i32 = -600;

pub const ERR_NO_SUCH_OBJECT: i32 = -1728;

pub const ERR_USER_CANCELLED: i32 = -128;

// ---- timeout and output -----------------------------------------------------

/// The timeout that a run uses.
pub open spec fn timeout_of(requested: Option<u64>) -> u64 {
    match requested {
        None => DEFAULT_TIMEOUT_MS,
        Some(ms) => if ms < MIN_TIMEOUT_MS {
            MIN_TIMEOUT_MS
        } else if ms > MAX_TIMEOUT_MS {
            MAX_TIMEOUT_MS
        } else {
            ms
        },
    }
}

/// The timeout that a run uses, in milliseconds: the requested one held in
/// its range, or the default.
pub fn clamp_timeout_ms(requested: Option<u64>) -> (ms: u64)
    ensures
        ms == timeout_of(requested),
        MIN_TIMEOUT_MS <= ms <= MAX_TIMEOUT_MS,
{
    match requested {
        None => DEFAULT_TIMEOUT_MS,
        Some(ms) => if ms < MIN_TIMEOUT_MS {
            MIN_TIMEOUT_MS
        } else if ms > MAX_TIMEOUT_MS {
            MAX_TIMEOUT_MS
        } else {
            ms
        },
    }
}

/// The first `max` characters of a text.
pub open spec fn cut(text: Seq<char>, max: nat) -> Seq<char> {
    if text.len() <= max {
        text
    } else {
        text.take(max as int)
    }
}

/// Cuts a text to `max_chars` characters, and says whether it was longer.
pub(crate) fn truncate_chars(text: &str, max_chars: usize) -> (r: (String, bool))
    ensures
        r.0@ == cut(text@, max_chars as nat),
        r.1 == (text@.len() > max_chars),
{
    let chars = chars_of(text);
    if chars.len() <= max_chars {
        let all = slice_of(&chars, 0, chars.len());
        assert(all@ =~= text@);
        (all, false)
    } else {
        let part = slice_of(&chars, 0, max_chars);
        assert(part@ =~= text@.take(max_chars as int));
        (part, true)
    }
}

/// Cuts a script's output to the most that a response carries, and says
/// whether it was longer.
pub fn truncate_output(text: &str) -> (r: (String, bool))
    ensures
        r.0@ == cut(text@, MAX_OUTPUT_CHARS as nat),
        r.1 == (text@.len() > MAX_OUTPUT_CHARS),
{
    truncate_chars(text, MAX_OUTPUT_CHARS)
}

// ---- redaction --------------------------------------------------------------

/// A source without the contents of its string literals, on one line. Each
/// literal keeps its quotes around an ellipsis; a literal that is not closed
/// reaches to the end. `inside` says whether the text starts in a literal.
pub open spec fn without_literals(source: Seq<char>, inside: bool) -> Seq<char>
    decreases source.len(),
{
    if source.len() == 0 {
        seq![]
    } else if source[0] == '"' {
        if inside {
            seq!['"'] + without_literals(source.skip(1), false)
        } else {
            seq!['"', '\u{2026}'] + without_literals(source.skip(1), true)
        }
    } else if inside {
        if source[0] == '\\' && source.len() > 1 {
            without_literals(source.skip(2), true)
        } else {
            without_literals(source.skip(1), true)
        }
    } else if source[0] == '\n' || source[0] == '\r' || source[0] == '\t' {
        seq![' '] + without_literals(source.skip(1), false)
    } else {
        seq![source[0]] + without_literals(source.skip(1), false)
    }
}

/// What an error shows of a source: its start, without the contents of its
/// literals, and an ellipsis where it was cut.
pub open spec fn redacted(source: Seq<char>) -> Seq<char> {
    let flat = without_literals(source, false);
    if flat.len() > MAX_SOURCE_CHARS_IN_ERROR {
        flat.take(MAX_SOURCE_CHARS_IN_ERROR as int).push('\u{2026}')
    } else {
        flat
    }
}

/// What an error may show of a script's source.
pub fn redact_source(source: &str) -> (out: String)
    ensures
        out@ == redacted(source@),
{
    let chars = chars_of(source);
    let mut flat = String::new();
    let mut inside = false;
    let mut i: usize = 0;
    assert(source@.skip(0) =~= source@);
    assert(flat@ + without_literals(source@, false) =~= without_literals(source@, false));
    while i < chars.len()
        invariant
            i <= chars@.len(),
            chars@ == source@,
            flat@ + without_literals(source@.skip(i as int), inside) == without_literals(
                source@,
                false,
            ),
        decreases chars@.len() - i,
    {
        let c = chars[i];
        let ghost rest = source@.skip(i as int);
        let ghost before = flat@;
        proof {
            assert(rest.skip(1) =~= source@.skip(i + 1));
            if rest.len() > 1 {
                assert(rest.skip(2) =~= source@.skip(i + 2));
            }
        }
        if c == '"' {
            flat.push('"');
            if inside {
                inside = false;
                assert(flat@ =~= before + seq!['"']);
            } else {
                flat.push('\u{2026}');
                inside = true;
                assert(flat@ =~= before + seq!['"', '\u{2026}']);
            }
            i += 1;
        } else if inside {
            if c == '\\' && chars.len() - i > 1 {
                i += 2;
            } else {
                i += 1;
            }
        } else if c == '\n' || c == '\r' || c == '\t' {
            flat.push(' ');
            assert(flat@ =~= before + seq![' ']);
            i += 1;
        } else {
            flat.push(c);
            assert(flat@ =~= before + seq![c]);
            i += 1;
        }
        assert(flat@ + without_literals(source@.skip(i as int), inside) =~= before
            + without_literals(rest, if c == '"' { !inside } else { inside }));
    }
    assert(source@.skip(i as int) =~= seq![]);
    assert(flat@ =~= without_literals(source@, false));
    let (mut short, was_cut) = truncate_chars(&flat, MAX_SOURCE_CHARS_IN_ERROR);
    if was_cut {
        short.push('\u{2026}');
    }
    short
}

// ---- aiming at an app -------------------------------------------------------

/// A text as the contents of a string literal: backslashes and quotes are
/// escaped.
pub open spec fn escaped(text: Seq<char>) -> Seq<char> {
    replaced(replaced(text, "\\"@, "\\\\"@), "\""@, "\\\""@)
}

/// A source inside a `tell application` block.
pub open spec fn told(source: Seq<char>, target_app: Seq<char>) -> Seq<char> {
    "tell application \""@ + escaped(target_app) + "\"\n"@ + source + "\nend tell"@
}

/// Puts a source inside a `tell application` block for an app.
pub fn wrap_in_tell(source: &str, target_app: &str) -> (out: String)
    ensures
        out@ == told(source@, target_app@),
{
    proof {
        reveal_strlit("\\");
        reveal_strlit("\"");
    }
    let once = replace(target_app, "\\", "\\\\");
    let twice = replace(&once, "\"", "\\\"");
    let mut out = "tell application \"".to_owned();
    out.append(&twice);
    out.append("\"\n");
    out.append(source);
    out.append("\nend tell");
    out
}

// ---- failures ---------------------------------------------------------------

/// What a failed script run means.
#[derive(Debug, Clone, PartialEq, Eq)]
pub enum ScriptFailure {
    /// Automation of the target is not permitted.
    AutomationNotPermitted { state: PermissionState, message: String },
    /// The target app is not running.
    AppNotRunning { message: String },
    /// The app has no such object.
    ObjectNotFound { message: String },
    /// The user cancelled a dialog.
    Cancelled { message: String },
    /// Any other failure, with its code when one was printed.
    Script { code: Option<i32>, message: String },
    /// The run was ended at its deadline.
    Timeout { timeout_ms: u64, source_excerpt: String },
}

/// The position of the last `c` in a text.
pub open spec fn last_of(text: Seq<char>, c: char) -> Option<int>
    decreases text.len(),
{
    if text.len() == 0 {
        None
    } else if text.last() == c {
        Some(text.len() - 1)
    } else {
        last_of(text.drop_last(), c)
    }
}

/// The text without a final line end.
pub open spec fn unended(text: Seq<char>) -> Seq<char> {
    if text.len() > 1 && text.last() == '\n' && text[text.len() - 2] == '\r' {
        text.take(text.len() - 2)
    } else if text.len() > 0 && text.last() == '\n' {
        text.drop_last()
    } else {
        text
    }
}

/// The last line of a text that is not empty.
pub open spec fn last_line(text: Seq<char>) -> Seq<char> {
    let body = unended(text);
    match last_of(body, '\n') {
        Some(at) => body.skip(at + 1),
        None => body,
    }
}

/// The number in parentheses that a line ends with.
pub open spec fn trailing_code(line: Seq<char>) -> Option<int> {
    let kept = trimmed_end(line);
    if kept.len() == 0 || kept.last() != ')' {
        None
    } else {
        let inner = kept.drop_last();
        match last_of(inner, '(') {
            None => None,
            Some(at) => parsed_i32(trimmed(inner.skip(at + 1))),
        }
    }
}

/// The error code that a message carries: the number in parentheses at the
/// end of its last line.
pub open spec fn code_of(message: Seq<char>) -> Option<int> {
    if message.len() == 0 {
        None
    } else {
        trailing_code(last_line(message))
    }
}

/// The position of the last `c` before `to`.
fn find_last(chars: &Vec<char>, to: usize, c: char) -> (r: Option<usize>)
    requires
        to <= chars@.len(),
    ensures
        opt_int(r) == last_of(chars@.take(to as int), c),
{
    let mut i: usize = to;
    while i > 0
        invariant
            i <= to <= chars@.len(),
            last_of(chars@.take(i as int), c) == last_of(chars@.take(to as int), c),
        decreases i,
    {
        assert(chars@.take(i as int).drop_last() =~= chars@.take(i - 1));
        if chars[i - 1] == c {
            return Some(i - 1);
        }
        i -= 1;
    }
    None
}

proof fn lemma_last_of_bound(text: Seq<char>, c: char)
    ensures
        last_of(text, c) matches Some(at) ==> 0 <= at < text.len(),
    decreases text.len(),
{
    if text.len() > 0 && text.last() != c {
        lemma_last_of_bound(text.drop_last(), c);
    }
}

/// The error code that a message carries.
fn last_line_code(message: &str) -> (r: Option<i32>)
    ensures
        opt_i32(r) == code_of(message@),
{
    let chars = chars_of(message);
    if chars.len() == 0 {
        return None;
    }
    let mut end: usize = chars.len();
    if chars[end - 1] == '\n' {
        if end > 1 && chars[end - 2] == '\r' {
            end -= 2;
        } else {
            end -= 1;
        }
    }
    assert(chars@.take(end as int) =~= unended(message@));
    let ghost body = unended(message@);
    proof {
        lemma_last_of_bound(body, '\n');
    }
    let start: usize = match find_last(&chars, end, '\n') {
        Some(at) => at + 1,
        None => 0,
    };
    let line = slice_of(&chars, start, end);
    assert(line@ =~= last_line(message@));
    let kept = trim_end(&line);
    let kept_chars = chars_of(&kept);
    if kept_chars.len() == 0 || kept_chars[kept_chars.len() - 1] != ')' {
        return None;
    }
    let inner_len: usize = kept_chars.len() - 1;
    assert(kept_chars@.take(inner_len as int) =~= kept@.drop_last());
    proof {
        lemma_last_of_bound(kept@.drop_last(), '(');
    }
    match find_last(&kept_chars, inner_len, '(') {
        None => None,
        Some(at) => {
            let number = slice_of(&kept_chars, at + 1, inner_len);
            assert(number@ =~= kept@.drop_last().skip(at + 1));
            crate::text::parse_i32(&trim(&number))
        },
    }
}

/// The message of a failure: what was printed, or that nothing was.
pub open spec fn failure_message(stderr: Seq<char>) -> Seq<char> {
    if trimmed(stderr).len() == 0 {
        "osascript failed and printed no message"@
    } else {
        trimmed(stderr)
    }
}

/// What a failed run's error output means. The code that it carries decides.
pub open spec fn classified(stderr: Seq<char>, failure: ScriptFailure) -> bool {
    let text = failure_message(stderr);
    let code = code_of(text);
    if code == Some(ERR_NOT_AUTHORIZED as int) {
        failure matches ScriptFailure::AutomationNotPermitted { state, message } && state
            == PermissionState::Denied && message@ == text
    } else if code == Some(ERR_NEEDS_CONSENT as int) {
        failure matches ScriptFailure::AutomationNotPermitted { state, message } && state
            == PermissionState::NotDetermined && message@ == text
    } else if code == Some(ERR_APP_NOT_RUNNING as int) {
        failure matches ScriptFailure::AppNotRunning { message } && message@ == text
    } else if code == Some(ERR_NO_SUCH_OBJECT as int) {
        failure matches ScriptFailure::ObjectNotFound { message } && message@ == text
    } else if code == Some(ERR_USER_CANCELLED as int) {
        failure matches ScriptFailure::Cancelled { message } && message@ == text
    } else {
        failure matches ScriptFailure::Script { code: c, message } && opt_i32(c) == code
            && message@ == text
    }
}

/// Reads what a failed run's error output means.
pub fn parse_osascript_error(stderr: &str) -> (failure: ScriptFailure)
    ensures
        classified(stderr@, failure),
{
    let kept = trim(stderr);
    let message = if kept.as_str().is_empty() {
        "osascript failed and printed no message".to_owned()
    } else {
        kept
    };
    let code = last_line_code(&message);
    match code {
        Some(n) => if n == ERR_NOT_AUTHORIZED {
            ScriptFailure::AutomationNotPermitted { state: PermissionState::Denied, message }
        } else if n == ERR_NEEDS_CONSENT {
            ScriptFailure::AutomationNotPermitted {
                state: PermissionState::NotDetermined,
                message,
            }
        } else if n == ERR_APP_NOT_RUNNING {
            ScriptFailure::AppNotRunning { message }
        } else if n == ERR_NO_SUCH_OBJECT {
            ScriptFailure::ObjectNotFound { message }
        } else if n == ERR_USER_CANCELLED {
            ScriptFailure::Cancelled { message }
        } else {
            ScriptFailure::Script { code, message }
        },
        None => ScriptFailure::Script { code, message },
    }
}

/// The error that reports a failure. A missing permission stays one, and an
/// app that is not running is an app that was not found.
pub open spec fn reported(failure: ScriptFailure, error: PolarizeError) -> bool {
    match failure {
        ScriptFailure::AutomationNotPermitted { state, .. } => error == PolarizeError::Permission(
            PermissionError::NotGranted { kind: PermissionKind::Automation, state },
        ),
        ScriptFailure::AppNotRunning { message } => error matches PolarizeError::AppNotFound(s)
            && s@ == message@,
        ScriptFailure::ObjectNotFound { message } => error matches PolarizeError::Platform(s) && s@
            == "AppleScript found no such object: "@ + message@,
        ScriptFailure::Cancelled { message } => error matches PolarizeError::Platform(s) && s@
            == "AppleScript was cancelled: "@ + message@,
        ScriptFailure::Script { code: Some(code), message } => error matches
            PolarizeError::Platform(s) && s@ == "AppleScript error ("@ + signed_decimal(
            code as int,
        ) + "): "@ + message@,
        ScriptFailure::Script { code: None, message } => error matches PolarizeError::Platform(s)
            && s@ == "AppleScript error: "@ + message@,
        ScriptFailure::Timeout { timeout_ms, source_excerpt } => error matches
            PolarizeError::Platform(s) && s@ == "AppleScript timed out after "@ + decimal(
            timeout_ms as nat,
        ) + " ms: "@ + source_excerpt@,
    }
}

/// Turns a failure into the error that reports it.
pub fn script_failure_to_error(failure: ScriptFailure) -> (error: PolarizeError)
    ensures
        reported(failure, error),
{
    match failure {
        ScriptFailure::AutomationNotPermitted { state, .. } => PolarizeError::Permission(
            PermissionError::NotGranted { kind: PermissionKind::Automation, state },
        ),
        ScriptFailure::AppNotRunning { message } => PolarizeError::AppNotFound(message),
        ScriptFailure::ObjectNotFound { message } => {
            let mut s = "AppleScript found no such object: ".to_owned();
            s.append(&message);
            PolarizeError::Platform(s)
        },
        ScriptFailure::Cancelled { message } => {
            let mut s = "AppleScript was cancelled: ".to_owned();
            s.append(&message);
            PolarizeError::Platform(s)
        },
        ScriptFailure::Script { code: Some(code), message } => {
            let mut s = "AppleScript error (".to_owned();
            s.append(&crate::text::signed_text(code));
            s.append("): ");
            s.append(&message);
            PolarizeError::Platform(s)
        },
        ScriptFailure::Script { code: None, message } => {
            let mut s = "AppleScript error: ".to_owned();
            s.append(&message);
            PolarizeError::Platform(s)
        },
        ScriptFailure::Timeout { timeout_ms, source_excerpt } => {
            let mut s = "AppleScript timed out after ".to_owned();
            crate::text::push_decimal(&mut s, timeout_ms);
            s.append(" ms: ");
            s.append(&source_excerpt);
            PolarizeError::Platform(s)
        },
    }
}

/// What the automation preflight decided.
#[derive(Debug, Clone, Copy, PartialEq, Eq, Structural)]
pub enum AutomationCheck {
    Permitted,
    /// The state says whether the user refused or was not asked.
    Refused(PermissionState),
    /// Nothing useful; the run itself decides.
    Inconclusive,
}

/// What a preflight status means. Only the two refusal codes refuse.
pub open spec fn check_of_status(status: i32) -> AutomationCheck {
    if status == 0 {
        AutomationCheck::Permitted
    } else if status == ERR_NOT_AUTHORIZED {
        AutomationCheck::Refused(PermissionState::Denied)
    } else if status == ERR_NEEDS_CONSENT {
        AutomationCheck::Refused(PermissionState::NotDetermined)
    } else {
        AutomationCheck::Inconclusive
    }
}

/// Reads what a preflight status means.
pub fn automation_check_from_status(status: i32) -> (r: AutomationCheck)
    ensures
        r == check_of_status(status),
{
    if status == 0 {
        AutomationCheck::Permitted
    } else if status == ERR_NOT_AUTHORIZED {
        AutomationCheck::Refused(PermissionState::Denied)
    } else if status == ERR_NEEDS_CONSENT {
        AutomationCheck::Refused(PermissionState::NotDetermined)
    } else {
        AutomationCheck::Inconclusive
    }
}

// ---- scripting dictionaries -------------------------------------------------

/// A command or a class of a scripting dictionary.
#[derive(Debug, Clone, PartialEq, Eq)]
pub struct SdefEntry {
    pub name: String,
    pub description: Option<String>,
}

impl View for SdefEntry {
    type V = (Seq<char>, Option<Seq<char>>);

    /// The name and the description, as texts.
    open spec fn view(&self) -> Self::V {
        (self.name@, opt_view(self.description))
    }
}

/// The entries, as texts.
pub open spec fn entry_views(entries: Seq<SdefEntry>) -> Seq<(Seq<char>, Option<Seq<char>>)> {
    entries.map_values(|e: SdefEntry| e@)
}

/// A text with the five predefined XML entities decoded, the ampersand last.
pub open spec fn entities_decoded(text: Seq<char>) -> Seq<char> {
    let t1 = replaced(text, "&lt;"@, "<"@);
    let t2 = replaced(t1, "&gt;"@, ">"@);
    let t3 = replaced(t2, "&quot;"@, "\""@);
    let t4 = replaced(t3, "&apos;"@, "'"@);
    replaced(t4, "&amp;"@, "&"@)
}

/// Decodes the five predefined XML entities.
fn decode_entities(text: &str) -> (out: String)
    ensures
        out@ == entities_decoded(text@),
{
    proof {
        reveal_strlit("&lt;");
        reveal_strlit("&gt;");
        reveal_strlit("&quot;");
        reveal_strlit("&apos;");
        reveal_strlit("&amp;");
    }
    let t1 = replace(text, "&lt;", "<");
    let t2 = replace(&t1, "&gt;", ">");
    let t3 = replace(&t2, "&quot;", "\"");
    let t4 = replace(&t3, "&apos;", "'");
    replace(&t4, "&amp;", "&")
}

/// The value of the attribute that `needle` opens, in the text of a start
/// tag. The needle is the attribute's name, an equals sign and a quote. It
/// counts at the start of the text, or after whitespace; where it does not
/// count, the search goes on behind it.
pub open spec fn attribute_of(text: Seq<char>, needle: Seq<char>) -> Option<Seq<char>>
    decreases text.len(),
{
    match first_from(text, needle, 0) {
        None => None,
        Some(at) => {
            let start = at + needle.len();
            if needle.len() == 0 || at < 0 || start > text.len() {
                None
            } else if at == 0 || whitespace(text[at - 1]) {
                match first_from(text, "\""@, start) {
                    None => None,
                    Some(end) => Some(entities_decoded(text.subrange(start, end))),
                }
            } else {
                attribute_of(text.skip(start), needle)
            }
        },
    }
}

/// The text that opens an attribute.
pub open spec fn opening(key: Seq<char>) -> Seq<char> {
    key + "=\""@
}

/// A search in the rest of a text is a search of the text from there on.
proof fn lemma_first_from_skip(text: Seq<char>, needle: Seq<char>, k: int, from: int)
    requires
        0 <= k <= text.len(),
        0 <= from,
    ensures
        first_from(text, needle, k + from) == match first_from(text.skip(k), needle, from) {
            Some(at) => Some(at + k),
            None => None,
        },
    decreases text.len() - k - from,
{
    let rest = text.skip(k);
    if from + needle.len() > rest.len() {
    } else {
        assert(rest.subrange(from, from + needle.len()) =~= text.subrange(
            k + from,
            k + from + needle.len(),
        ));
        if occurs_at(rest, needle, from) {
        } else if from >= rest.len() {
        } else {
            lemma_first_from_skip(text, needle, k, from + 1);
        }
    }
}

/// The value of an attribute in the text of a start tag.
fn attribute_value(attributes: &str, key: &str) -> (r: Option<String>)
    ensures
        opt_view(r) == attribute_of(attributes@, opening(key@)),
{
    proof {
        reveal_strlit("=\"");
    }
    let mut opening_text = key.to_owned();
    opening_text.append("=\"");
    let text = chars_of(attributes);
    let needle = chars_of(&opening_text);
    let quote = chars_of("\"");
    let mut base: usize = 0;
    assert(attributes@.skip(0) =~= attributes@);
    loop
        invariant
            base <= text@.len(),
            text@ == attributes@,
            needle@ == opening(key@),
            needle@.len() > 0,
            quote@ == "\""@,
            attribute_of(text@.skip(base as int), needle@) == attribute_of(
                attributes@,
                opening(key@),
            ),
        decreases text@.len() - base,
    {
        let ghost rest = text@.skip(base as int);
        proof {
            lemma_first_from_skip(text@, needle@, base as int, 0);
            lemma_first_from(text@, needle@, base as int);
        }
        let at: usize = match find_from(&text, &needle, base) {
            None => return None,
            Some(at) => at,
        };
        assert(at + needle@.len() <= text.len());
        let start: usize = at + needle.len();
        if at == base || text[at - 1].is_whitespace() {
            proof {
                lemma_first_from_skip(text@, quote@, base as int, start - base);
                lemma_first_from(text@, quote@, start as int);
            }
            match find_from(&text, &quote, start) {
                None => return None,
                Some(end) => {
                    let raw = slice_of(&text, start, end);
                    assert(raw@ =~= rest.subrange(start - base, end - base));
                    return Some(decode_entities(&raw));
                },
            }
        }
        assert(rest.skip(start - base) =~= text@.skip(start as int));
        base = start;
    }
}

/// The attribute texts of every start tag that `open` opens, in order. The
/// name must end behind `open`, and a `>` must close the tag.
pub open spec fn start_tags(xml: Seq<char>, open: Seq<char>) -> Seq<Seq<char>>
    decreases xml.len(),
{
    match first_from(xml, open, 0) {
        None => seq![],
        Some(at) => {
            let start = at + open.len();
            if open.len() == 0 || at < 0 || start > xml.len() {
                seq![]
            } else {
                let after = xml.skip(start);
                let closed = first_from(after, ">"@, 0);
                if name_ends(after) && closed is Some && 0 <= closed->0 < after.len() {
                    seq![after.take(closed->0)] + start_tags(after.skip(closed->0 + 1), open)
                } else {
                    start_tags(after, open)
                }
            }
        },
    }
}

/// Whether an element's name ends where this text starts.
pub open spec fn name_ends(after: Seq<char>) -> bool {
    after.len() > 0 && (whitespace(after[0]) || after[0] == '>' || after[0] == '/')
}

/// The name and the description of each tag that has a name, without the
/// tags whose name came before.
pub open spec fn entries_of(tags: Seq<Seq<char>>) -> Seq<(Seq<char>, Option<Seq<char>>)>
    decreases tags.len(),
{
    if tags.len() == 0 {
        seq![]
    } else {
        let before = entries_of(tags.drop_last());
        match attribute_of(tags.last(), opening("name"@)) {
            None => before,
            Some(name) => if names_hold(before, name) {
                before
            } else {
                before.push((name, attribute_of(tags.last(), opening("description"@))))
            },
        }
    }
}

/// Whether one of the entries has this name.
pub open spec fn names_hold(entries: Seq<(Seq<char>, Option<Seq<char>>)>, name: Seq<char>) -> bool {
    exists|i: int| 0 <= i < entries.len() && (#[trigger] entries[i]).0 == name
}

/// What a dictionary lists for one element name.
pub open spec fn listed(xml: Seq<char>, element: Seq<char>) -> Seq<
    (Seq<char>, Option<Seq<char>>),
> {
    entries_of(start_tags(xml, "<"@ + element))
}

/// Whether one of the entries has this name.
fn has_name(entries: &Vec<SdefEntry>, name: &str) -> (r: bool)
    ensures
        r == names_hold(entry_views(entries@), name@),
{
    let mut i: usize = 0;
    while i < entries.len()
        invariant
            i <= entries@.len(),
            forall|j: int| 0 <= j < i ==> entries@[j].name@ != name@,
        decreases entries@.len() - i,
    {
        if same(&entries[i].name, name) {
            assert(entry_views(entries@)[i as int].0 == name@);
            return true;
        }
        i += 1;
    }
    assert forall|j: int| 0 <= j < entry_views(entries@).len() implies (#[trigger] entry_views(
        entries@,
    )[j]).0 != name@ by {
        assert(entry_views(entries@)[j] == entries@[j]@);
    }
    false
}

/// Lists the name and the description of every start tag of an element, in
/// the order in which the names first appear. This is a scan of the text, and
/// not a parse: a tag inside a comment is listed too.
pub fn scan_sdef_elements(xml: &str, element: &str) -> (entries: Vec<SdefEntry>)
    ensures
        entry_views(entries@) == listed(xml@, element@),
{
    proof {
        reveal_strlit("<");
        reveal_strlit(">");
    }
    let mut open_text = "<".to_owned();
    open_text.append(element);
    let text = chars_of(xml);
    let open = chars_of(&open_text);
    let close = chars_of(">");
    let ghost all = start_tags(xml@, open@);
    let ghost mut done: Seq<Seq<char>> = seq![];
    let mut entries: Vec<SdefEntry> = Vec::new();
    let mut base: usize = 0;
    assert(xml@.skip(0) =~= xml@);
    assert(done + all =~= all);
    assert(entry_views(entries@) =~= seq![]);
    loop
        invariant
            base <= text@.len(),
            text@ == xml@,
            open@ == "<"@ + element@,
            open@.len() > 0,
            close@ == ">"@,
            close@.len() == 1,
            all == start_tags(xml@, open@),
            done + start_tags(text@.skip(base as int), open@) == all,
            entry_views(entries@) == entries_of(done),
        decreases text@.len() - base,
    {
        let ghost rest = text@.skip(base as int);
        proof {
            lemma_first_from_skip(text@, open@, base as int, 0);
            lemma_first_from(text@, open@, base as int);
        }
        let at: usize = match find_from(&text, &open, base) {
            None => {
                assert(start_tags(rest, open@) =~= seq![]);
                assert(done =~= all);
                return entries;
            },
            Some(at) => at,
        };
        assert(at + open@.len() <= text.len());
        let start: usize = at + open.len();
        let ghost after = text@.skip(start as int);
        assert(rest.skip(start - base) =~= after);
        let ends = start < text.len() && (text[start].is_whitespace() || text[start] == '>'
            || text[start] == '/');
        assert(ends == name_ends(after));
        proof {
            lemma_first_from_skip(text@, close@, start as int, 0);
            lemma_first_from(text@, close@, start as int);
        }
        let closed: Option<usize> = if ends {
            find_from(&text, &close, start)
        } else {
            None
        };
        match closed {
            None => {
                base = start;
            },
            Some(end) => {
                let attributes = slice_of(&text, start, end);
                let ghost tag = after.take(end - start);
                assert(attributes@ =~= tag);
                assert(after.skip(end - start + 1) =~= text@.skip(end + 1));
                proof {
                    let tail = start_tags(text@.skip(end + 1), open@);
                    assert(done + (seq![tag] + tail) =~= done.push(tag) + tail);
                    assert(done.push(tag).drop_last() =~= done);
                }
                let ghost before = entries@;
                match attribute_value(&attributes, "name") {
                    None => {},
                    Some(name) => if !has_name(&entries, &name) {
                        let description = attribute_value(&attributes, "description");
                        let entry = SdefEntry { name, description };
                        entries.push(entry);
                        assert(entry_views(entries@) =~= entry_views(before).push(entry@));
                    },
                }
                proof {
                    done = done.push(tag);
                }
                base = end + 1;
            },
        }
    }
}

/// Lists the commands and the classes of a dictionary.
pub fn scan_sdef(xml: &str) -> (r: (Vec<SdefEntry>, Vec<SdefEntry>))
    ensures
        entry_views(r.0@) == listed(xml@, "command"@),
        entry_views(r.1@) == listed(xml@, "class"@),
{
    (scan_sdef_elements(xml, "command"), scan_sdef_elements(xml, "class"))
}

// ---- tool calls -------------------------------------------------------------

#[derive(Debug, Clone, PartialEq, Eq)]
pub struct RunAppleScriptRequest {
    pub source: String,
    /// The app that the script talks to; a blank name counts as none.
    pub target_app: Option<String>,
    pub timeout_ms: Option<u64>,
}

#[derive(Debug, Clone, PartialEq, Eq)]
pub struct RunAppleScriptResponse {
    /// What the script printed, without trailing whitespace.
    pub output: String,
    /// Whether the output was cut.
    pub truncated: bool,
    /// The timeout that the run used.
    pub timeout_ms: u64,
}

#[derive(Debug, Clone, PartialEq, Eq)]
pub struct ScriptDictionaryRequest {
    pub app: AppIdentifier,
}

#[derive(Debug, Clone, PartialEq, Eq)]
pub struct ScriptDictionaryResponse {
    pub app_name: String,
    /// The verbs of the app.
    pub commands: Vec<SdefEntry>,
    /// The nouns of the app.
    pub classes: Vec<SdefEntry>,
}

/// The app that a request names; a blank name names none.
pub open spec fn target_of(request: RunAppleScriptRequest) -> Option<Seq<char>> {
    match request.target_app {
        None => None,
        Some(name) => if trimmed(name@).len() == 0 {
            None
        } else {
            Some(trimmed(name@))
        },
    }
}

/// The source that a request runs: aimed at its app when it names one.
pub open spec fn script_of(request: RunAppleScriptRequest) -> Seq<char> {
    match target_of(request) {
        Some(name) => told(request.source@, name),
        None => request.source@,
    }
}

/// What is answered for what a run produced. A run that timed out shows only
/// the redacted source.
pub open spec fn run_answer(
    request: RunAppleScriptRequest,
    outcome: Result<ScriptOutcome, PolarizeError>,
    r: Result<RunAppleScriptResponse, PolarizeError>,
) -> bool {
    match outcome {
        Err(e) => r == Err::<RunAppleScriptResponse, PolarizeError>(e),
        Ok(o) => if o.timed_out {
            r matches Err(PolarizeError::Platform(s)) && s@ == "AppleScript timed out after "@
                + decimal(timeout_of(request.timeout_ms) as nat) + " ms: "@ + redacted(
                request.source@,
            )
        } else if o.exit_code != Some(0i32) {
            r matches Err(e) && exists|failure: ScriptFailure|
                #[trigger] classified(o.stderr@, failure) && reported(failure, e)
        } else {
            r matches Ok(response) && response.output@ == cut(
                trimmed_end(o.stdout@),
                MAX_OUTPUT_CHARS as nat,
            ) && response.truncated == (trimmed_end(o.stdout@).len() > MAX_OUTPUT_CHARS)
                && response.timeout_ms == timeout_of(request.timeout_ms)
        },
    }
}

/// Shapes what a run produced into the answer of a request.
pub fn answer_run(
    request: &RunAppleScriptRequest,
    outcome: Result<ScriptOutcome, PolarizeError>,
) -> (r: Result<RunAppleScriptResponse, PolarizeError>)
    ensures
        run_answer(*request, outcome, r),
{
    let timeout_ms = clamp_timeout_ms(request.timeout_ms);
    let o = match outcome {
        Err(e) => return Err(e),
        Ok(o) => o,
    };
    if o.timed_out {
        let failure = ScriptFailure::Timeout {
            timeout_ms,
            source_excerpt: redact_source(&request.source),
        };
        return Err(script_failure_to_error(failure));
    }
    let succeeded = match o.exit_code {
        Some(code) => code == 0,
        None => false,
    };
    if !succeeded {
        let failure = parse_osascript_error(&o.stderr);
        let ghost seen = failure;
        let error = script_failure_to_error(failure);
        assert(classified(o.stderr@, seen) && reported(seen, error));
        return Err(error);
    }
    let (output, truncated) = truncate_output(&trim_end(&o.stdout));
    Ok(RunAppleScriptResponse { output, truncated, timeout_ms })
}

/// The one call that a run makes, and what is answered. `before` and `after` are
/// the calls that the platform had got before, and has got in the end.
pub open spec fn ran<R: AppleScriptRunner>(
    runner: &R,
    request: RunAppleScriptRequest,
    before: Seq<Call>,
    after: Seq<Call>,
    r: Result<RunAppleScriptResponse, PolarizeError>,
) -> bool {
    let timeout_ms = timeout_of(request.timeout_ms);
    exists|source: &str, target: Option<&str>, outcome: Result<ScriptOutcome, PolarizeError>|
        {
            &&& #[trigger] call_ensures(
                R::run_script,
                (runner, source, target, timeout_ms),
                outcome,
            )
            &&& source@ == script_of(request)
            &&& opt_str_view(target) == target_of(request)
            &&& after == before.push(
                Call::RanScript {
                    source: script_of(request),
                    target_app: target_of(request),
                    timeout_ms,
                    reply: outcome,
                },
            )
            &&& run_answer(request, outcome, r)
        }
}

/// Runs one script, and shapes what it produced.
pub fn perform_run_applescript_on<R: AppleScriptRunner>(
    platform: &mut Platform<R, (), ()>,
    request: &RunAppleScriptRequest,
) -> (r: Result<RunAppleScriptResponse, PolarizeError>)
    ensures
        final(platform).parts() == old(platform).parts(),
        ran(old(platform).reader(), *request, old(platform).calls(), final(platform).calls(), r),
{
    let timeout_ms = clamp_timeout_ms(request.timeout_ms);
    let target_app: Option<String> = match &request.target_app {
        None => None,
        Some(name) => {
            let kept = trim(name);
            if kept.as_str().is_empty() {
                None
            } else {
                Some(kept)
            }
        },
    };
    let source: String = match &target_app {
        Some(name) => wrap_in_tell(&request.source, name),
        None => request.source.clone(),
    };
    let source_text = source.as_str();
    let target: Option<&str> = match &target_app {
        Some(name) => Some(name.as_str()),
        None => None,
    };
    let outcome = platform.run_script(source_text, target, timeout_ms);
    answer_run(request, outcome)
}

/// Runs one script, once, and shapes what it produced.
pub fn perform_run_applescript<R: AppleScriptRunner>(
    runner: &R,
    request: &RunAppleScriptRequest,
) -> (r: Result<RunAppleScriptResponse, PolarizeError>)
    ensures
        exists|calls: Seq<Call>| #[trigger] ran(runner, *request, seq![], calls, r),
{
    let mut platform = Platform::new(runner, &(), &());
    perform_run_applescript_on(&mut platform, request)
}

/// What is answered for the dictionary that was read.
pub open spec fn dictionary_answer(
    sdef: Result<AppSdef, PolarizeError>,
    r: Result<ScriptDictionaryResponse, PolarizeError>,
) -> bool {
    match sdef {
        Err(e) => r == Err::<ScriptDictionaryResponse, PolarizeError>(e),
        Ok(s) => r matches Ok(response) && response.app_name@ == s.app_name@ && entry_views(
            response.commands@,
        ) == listed(s.xml@, "command"@) && entry_views(response.classes@) == listed(
            s.xml@,
            "class"@,
        ),
    }
}

/// Shapes a dictionary that was read into the answer of a request.
pub fn answer_dictionary(sdef: Result<AppSdef, PolarizeError>) -> (r: Result<
    ScriptDictionaryResponse,
    PolarizeError,
>)
    ensures
        dictionary_answer(sdef, r),
{
    match sdef {
        Err(e) => Err(e),
        Ok(s) => {
            let (commands, classes) = scan_sdef(&s.xml);
            Ok(ScriptDictionaryResponse { app_name: s.app_name, commands, classes })
        },
    }
}

/// The one call that reading a dictionary makes, and what is answered. `before`
/// and `after` are the calls that the platform had got before, and has got in
/// the end.
pub open spec fn read_dictionary<R: AppleScriptRunner>(
    runner: &R,
    request: ScriptDictionaryRequest,
    before: Seq<Call>,
    after: Seq<Call>,
    r: Result<ScriptDictionaryResponse, PolarizeError>,
) -> bool {
    exists|sdef: Result<AppSdef, PolarizeError>|
        #[trigger] call_ensures(R::app_sdef, (runner, &request.app), sdef) && after == before.push(
            Call::ReadDictionary { app: request.app@, reply: sdef },
        ) && dictionary_answer(sdef, r)
}

/// Reads the scripting dictionary of an app, and lists its verbs and nouns.
pub fn perform_script_dictionary_on<R: AppleScriptRunner>(
    platform: &mut Platform<R, (), ()>,
    request: &ScriptDictionaryRequest,
) -> (r: Result<ScriptDictionaryResponse, PolarizeError>)
    ensures
        final(platform).parts() == old(platform).parts(),
        read_dictionary(
            old(platform).reader(),
            *request,
            old(platform).calls(),
            final(platform).calls(),
            r,
        ),
{
    let sdef = platform.app_sdef(&request.app);
    answer_dictionary(sdef)
}

/// Reads the scripting dictionary of an app, and lists its verbs and nouns.
pub fn perform_script_dictionary<R: AppleScriptRunner>(
    runner: &R,
    request: &ScriptDictionaryRequest,
) -> (r: Result<ScriptDictionaryResponse, PolarizeError>)
    ensures
        exists|calls: Seq<Call>| #[trigger] read_dictionary(runner, *request, seq![], calls, r),
{
    let mut platform = Platform::new(runner, &(), &());
    perform_script_dictionary_on(&mut platform, request)
}

// ---- laws -------------------------------------------------------------------

/// Whether a text that starts inside a literal stays inside it: it holds no
/// quote but an escaped one, and its last escape is complete.
pub open spec fn stays_inside(text: Seq<char>) -> bool
    decreases text.len(),
{
    if text.len() == 0 {
        true
    } else if text[0] == '"' {
        false
    } else if text[0] == '\\' {
        text.len() > 1 && stays_inside(text.skip(2))
    } else {
        stays_inside(text.skip(1))
    }
}

/// Whether a scan of `text` ends inside a literal.
pub open spec fn ends_inside(text: Seq<char>, inside: bool) -> bool
    decreases text.len(),
{
    if text.len() == 0 {
        inside
    } else if text[0] == '"' {
        ends_inside(text.skip(1), !inside)
    } else if inside && text[0] == '\\' && text.len() > 1 {
        ends_inside(text.skip(2), inside)
    } else {
        ends_inside(text.skip(1), inside)
    }
}

proof fn lemma_outside_prefix(before: Seq<char>, after: Seq<char>, inside: bool)
    requires
        !ends_inside(before, inside),
    ensures
        without_literals(before + after, inside) == without_literals(before, inside)
            + without_literals(after, false),
    decreases before.len(),
{
    if before.len() == 0 {
        assert(before + after =~= after);
        assert(without_literals(before, inside) + without_literals(after, false)
            =~= without_literals(after, false));
    } else {
        let all = before + after;
        assert(all.skip(1) =~= before.skip(1) + after);
        if before[0] == '"' {
            lemma_outside_prefix(before.skip(1), after, !inside);
        } else if inside && before[0] == '\\' && before.len() > 1 {
            assert(all.skip(2) =~= before.skip(2) + after);
            lemma_outside_prefix(before.skip(2), after, inside);
        } else {
            if inside && before[0] == '\\' {
                // An escape that the prefix leaves open would keep the scan inside.
                assert(before.skip(1) =~= seq![]);
            }
            lemma_outside_prefix(before.skip(1), after, inside);
        }
        assert(without_literals(all, inside) =~= without_literals(before, inside)
            + without_literals(after, false));
    }
}

proof fn lemma_body_vanishes(body: Seq<char>, after: Seq<char>)
    requires
        stays_inside(body),
    ensures
        without_literals(body + after, true) == without_literals(after, true),
    decreases body.len(),
{
    if body.len() == 0 {
        assert(body + after =~= after);
    } else {
        let all = body + after;
        assert(all.skip(1) =~= body.skip(1) + after);
        if body[0] == '\\' {
            assert(all.skip(2) =~= body.skip(2) + after);
            lemma_body_vanishes(body.skip(2), after);
        } else {
            lemma_body_vanishes(body.skip(1), after);
        }
    }
}

/// What stands inside a literal never shows: two sources that differ only in
/// the contents of one literal have the same redaction. `after` is empty for
/// a literal that is not closed.
pub proof fn literal_contents_never_show(
    before: Seq<char>,
    one: Seq<char>,
    other: Seq<char>,
    after: Seq<char>,
)
    requires
        !ends_inside(before, false),
        stays_inside(one),
        stays_inside(other),
    ensures
        redacted(before + seq!['"'] + one + after) == redacted(before + seq!['"'] + other + after),
{
    let quote = seq!['"'];
    let a = quote + (one + after);
    let b = quote + (other + after);
    assert(before + quote + one + after =~= before + a);
    assert(before + quote + other + after =~= before + b);
    lemma_outside_prefix(before, a, false);
    lemma_outside_prefix(before, b, false);
    assert(a.skip(1) =~= one + after);
    assert(b.skip(1) =~= other + after);
    lemma_body_vanishes(one, after);
    lemma_body_vanishes(other, after);
}

/// Whether a character may stand in a line.
pub open spec fn on_one_line(c: char) -> bool {
    c != '\n' && c != '\r' && c != '\t'
}

proof fn lemma_one_line(source: Seq<char>, inside: bool, i: int)
    requires
        0 <= i < without_literals(source, inside).len(),
    ensures
        on_one_line(without_literals(source, inside)[i]),
    decreases source.len(),
{
    let all = without_literals(source, inside);
    if source.len() > 0 {
        if source[0] == '"' {
            let head = if inside { 1int } else { 2int };
            if i >= head {
                assert(all[i] == without_literals(source.skip(1), !inside)[i - head]);
                lemma_one_line(source.skip(1), !inside, i - head);
            }
        } else if inside && source[0] == '\\' && source.len() > 1 {
            lemma_one_line(source.skip(2), inside, i);
        } else if inside {
            lemma_one_line(source.skip(1), inside, i);
        } else if i >= 1 {
            assert(all[i] == without_literals(source.skip(1), inside)[i - 1]);
            lemma_one_line(source.skip(1), inside, i - 1);
        }
    }
}

/// A redaction is one short line: it holds no line end and no tab, and at
/// most one character more than the cut leaves.
pub proof fn redaction_is_one_short_line(source: Seq<char>)
    ensures
        redacted(source).len() <= MAX_SOURCE_CHARS_IN_ERROR + 1,
        forall|i: int| 0 <= i < redacted(source).len() ==> on_one_line(#[trigger] redacted(source)[i]),
{
    let flat = without_literals(source, false);
    assert forall|i: int| 0 <= i < redacted(source).len() implies on_one_line(
        #[trigger] redacted(source)[i],
    ) by {
        if i < flat.len() && i < MAX_SOURCE_CHARS_IN_ERROR {
            assert(redacted(source)[i] == flat[i]);
            lemma_one_line(source, false, i);
        }
    }
}

/// A text with each backslash and each quote behind a backslash of its own.
pub open spec fn escaped_each(text: Seq<char>) -> Seq<char>
    decreases text.len(),
{
    if text.len() == 0 {
        seq![]
    } else if text[0] == '\\' || text[0] == '"' {
        seq!['\\', text[0]] + escaped_each(text.skip(1))
    } else {
        seq![text[0]] + escaped_each(text.skip(1))
    }
}

/// What the contents of a string literal stand for.
pub open spec fn unescaped(text: Seq<char>) -> Seq<char>
    decreases text.len(),
{
    if text.len() == 0 {
        seq![]
    } else if text[0] == '\\' && text.len() > 1 {
        seq![text[1]] + unescaped(text.skip(2))
    } else {
        seq![text[0]] + unescaped(text.skip(1))
    }
}

proof fn lemma_replace_char(head: char, rest: Seq<char>, from: char, to: Seq<char>)
    ensures
        replaced(seq![head] + rest, seq![from], to) == if head == from {
            to + replaced(rest, seq![from], to)
        } else {
            seq![head] + replaced(rest, seq![from], to)
        },
{
    let all = seq![head] + rest;
    assert(all.skip(1) =~= rest);
    assert(all.subrange(0, 1) =~= seq![head]);
    if head != from {
        assert(seq![head][0] != seq![from][0]);
    }
}

proof fn lemma_escaped_each(text: Seq<char>)
    ensures
        escaped(text) == escaped_each(text),
    decreases text.len(),
{
    reveal_strlit("\\");
    reveal_strlit("\\\\");
    reveal_strlit("\"");
    reveal_strlit("\\\"");
    let slash = seq!['\\'];
    let slashes = seq!['\\', '\\'];
    let quote = seq!['"'];
    let slash_quote = seq!['\\', '"'];
    assert("\\"@ =~= slash);
    assert("\\\\"@ =~= slashes);
    assert("\""@ =~= quote);
    assert("\\\""@ =~= slash_quote);
    if text.len() == 0 {
    } else {
        let c = text[0];
        let rest = text.skip(1);
        assert(text =~= seq![c] + rest);
        lemma_replace_char(c, rest, '\\', slashes);
        let tail = replaced(rest, slash, slashes);
        lemma_escaped_each(rest);
        if c == '\\' {
            let inner = seq!['\\'] + tail;
            assert(slashes + tail =~= seq!['\\'] + inner);
            lemma_replace_char('\\', inner, '"', slash_quote);
            lemma_replace_char('\\', tail, '"', slash_quote);
            assert(escaped(text) =~= seq!['\\', '\\'] + escaped(rest));
        } else {
            lemma_replace_char(c, tail, '"', slash_quote);
            if c == '"' {
                assert(escaped(text) =~= seq!['\\', '"'] + escaped(rest));
            } else {
                assert(escaped(text) =~= seq![c] + escaped(rest));
            }
        }
    }
}

proof fn lemma_escape_round_trip(text: Seq<char>)
    ensures
        stays_inside(escaped_each(text)),
        unescaped(escaped_each(text)) == text,
    decreases text.len(),
{
    if text.len() > 0 {
        let rest = text.skip(1);
        let e = escaped_each(text);
        let tail = escaped_each(rest);
        lemma_escape_round_trip(rest);
        if text[0] == '\\' || text[0] == '"' {
            assert(e.skip(2) =~= tail);
            assert(unescaped(e) =~= text);
        } else {
            assert(e.skip(1) =~= tail);
            assert(unescaped(e) =~= text);
        }
    }
}

/// An app's name cannot leave the literal that it is put in: its escaped form
/// never closes the literal, and it stands for the name itself.
pub proof fn app_name_stays_in_its_literal(name: Seq<char>)
    ensures
        stays_inside(escaped(name)),
        unescaped(escaped(name)) == name,
{
    lemma_escaped_each(name);
    lemma_escape_round_trip(name);
}

/// A missing automation permission is never reported as a broken script: the
/// two refusal codes are reported as that permission, with the state that
/// each one means, and the code of an app that is not running is reported as
/// an app that was not found.
pub proof fn refusals_keep_their_cause(
    stderr: Seq<char>,
    failure: ScriptFailure,
    error: PolarizeError,
)
    requires
        classified(stderr, failure),
        reported(failure, error),
    ensures
        code_of(failure_message(stderr)) == Some(ERR_NOT_AUTHORIZED as int) ==> error
            == PolarizeError::Permission(
            PermissionError::NotGranted {
                kind: PermissionKind::Automation,
                state: PermissionState::Denied,
            },
        ),
        code_of(failure_message(stderr)) == Some(ERR_NEEDS_CONSENT as int) ==> error
            == PolarizeError::Permission(
            PermissionError::NotGranted {
                kind: PermissionKind::Automation,
                state: PermissionState::NotDetermined,
            },
        ),
        code_of(failure_message(stderr)) == Some(ERR_APP_NOT_RUNNING as int) ==> error is AppNotFound,
        error is Permission ==> code_of(failure_message(stderr)) == Some(ERR_NOT_AUTHORIZED as int)
            || code_of(failure_message(stderr)) == Some(ERR_NEEDS_CONSENT as int),
{
}

/// The preflight and the run agree on what the two refusal codes mean.
pub proof fn preflight_agrees_with_the_run(stderr: Seq<char>, failure: ScriptFailure, status: i32)
    requires
        classified(stderr, failure),
        code_of(failure_message(stderr)) == Some(status as int),
    ensures
        check_of_status(status) matches AutomationCheck::Refused(state) ==> (failure matches
            ScriptFailure::AutomationNotPermitted { state: s, .. } && s == state),
        failure is AutomationNotPermitted ==> check_of_status(status) is Refused,
{
}

/// No dictionary lists a name twice.
pub proof fn listed_names_are_distinct(tags: Seq<Seq<char>>, i: int, j: int)
    requires
        0 <= i < j < entries_of(tags).len(),
    ensures
        entries_of(tags)[i].0 != entries_of(tags)[j].0,
    decreases tags.len(),
{
    let before = entries_of(tags.drop_last());
    if j < before.len() {
        listed_names_are_distinct(tags.drop_last(), i, j);
    } else {
        assert(entries_of(tags)[i] == before[i]);
    }
}

/// Where the tag is closed whose opening this text follows, if the name ends
/// there and a `>` comes.
pub open spec fn tag_end(after: Seq<char>) -> Option<int> {
    if name_ends(after) {
        first_from(after, ">"@, 0)
    } else {
        None
    }
}

/// Whether the end of `a` and the start of `b` make up a start tag that neither
/// has: an opening that stands across the border, or one of `a` whose tag only
/// `b` closes.
pub open spec fn runs_on(a: Seq<char>, b: Seq<char>, open: Seq<char>) -> bool
    decreases a.len(),
{
    match first_from(a, open, 0) {
        None => exists|j: int|
            0 <= j < a.len() < j + open.len() && #[trigger] occurs_at(a + b, open, j),
        Some(at) => {
            let start = at + open.len();
            if open.len() == 0 || at < 0 || start > a.len() {
                false
            } else {
                let after = a.skip(start);
                match tag_end(after) {
                    Some(end) => 0 <= end < after.len() && runs_on(after.skip(end + 1), b, open),
                    None => tag_end(after + b) is Some || runs_on(after, b, open),
                }
            }
        },
    }
}

/// What stands in the first part of a text stands in the text.
proof fn lemma_occurs_in_front(a: Seq<char>, b: Seq<char>, needle: Seq<char>, at: int)
    requires
        0 <= at,
        at + needle.len() <= a.len(),
    ensures
        occurs_at(a + b, needle, at) == occurs_at(a, needle, at),
{
    assert((a + b).subrange(at, at + needle.len()) =~= a.subrange(at, at + needle.len()));
}

/// What stands in the second part of a text stands in the text.
proof fn lemma_occurs_behind(a: Seq<char>, b: Seq<char>, needle: Seq<char>, at: int)
    requires
        0 <= at,
    ensures
        occurs_at(a + b, needle, a.len() + at) == occurs_at(b, needle, at),
{
    if at + needle.len() <= b.len() {
        assert((a + b).subrange(a.len() + at, a.len() + at + needle.len()) =~= b.subrange(
            at,
            at + needle.len(),
        ));
    }
}

/// A search that finds something in the first part of a text finds it in the
/// text.
proof fn lemma_found_in_front(a: Seq<char>, b: Seq<char>, needle: Seq<char>)
    requires
        first_from(a, needle, 0) is Some,
    ensures
        first_from(a + b, needle, 0) == first_from(a, needle, 0),
{
    lemma_first_from(a, needle, 0);
    lemma_first_from(a + b, needle, 0);
    let at = first_from(a, needle, 0)->0;
    lemma_occurs_in_front(a, b, needle, at);
    if let Some(other) = first_from(a + b, needle, 0) {
        if other < at {
            lemma_occurs_in_front(a, b, needle, other);
        }
    }
}

/// A search that finds nothing in the first part of a text, nor across the
/// border, finds what the second part has first.
proof fn lemma_found_behind(a: Seq<char>, b: Seq<char>, needle: Seq<char>)
    requires
        first_from(a, needle, 0) is None,
        forall|j: int|
            0 <= j < a.len() < j + needle.len() ==> !#[trigger] occurs_at(a + b, needle, j),
        needle.len() > 0,
    ensures
        first_from(a + b, needle, 0) == match first_from(b, needle, 0) {
            Some(at) => Some(a.len() + at),
            None => None,
        },
{
    lemma_first_from(a, needle, 0);
    lemma_first_from(b, needle, 0);
    lemma_first_from(a + b, needle, 0);
    if let Some(at) = first_from(b, needle, 0) {
        lemma_occurs_behind(a, b, needle, at);
    }
    if let Some(at) = first_from(a + b, needle, 0) {
        if at + needle.len() <= a.len() {
            lemma_occurs_in_front(a, b, needle, at);
        } else if at >= a.len() {
            lemma_occurs_behind(a, b, needle, at - a.len());
        }
    }
}

/// The start tags of a text are those of its parts, where none is cut between
/// them.
proof fn lemma_tags_of_parts(a: Seq<char>, b: Seq<char>, open: Seq<char>)
    requires
        open.len() > 0,
        !runs_on(a, b, open),
    ensures
        start_tags(a + b, open) == start_tags(a, open) + start_tags(b, open),
    decreases a.len(),
{
    reveal_strlit(">");
    match first_from(a, open, 0) {
        None => {
            lemma_found_behind(a, b, open);
            lemma_first_from(b, open, 0);
            if let Some(at) = first_from(b, open, 0) {
                let start = at + open.len();
                assert((a + b).skip(a.len() + start) =~= b.skip(start));
            }
            assert(start_tags(a + b, open) =~= start_tags(a, open) + start_tags(b, open));
        },
        Some(at) => {
            lemma_found_in_front(a, b, open);
            lemma_first_from(a, open, 0);
            let start = at + open.len();
            let after = a.skip(start);
            assert((a + b).skip(start) =~= after + b);
            lemma_first_from(after, ">"@, 0);
            lemma_first_from(after + b, ">"@, 0);
            match tag_end(after) {
                Some(end) => {
                    lemma_found_in_front(after, b, ">"@);
                    assert((after + b).take(end) =~= after.take(end));
                    assert((after + b).skip(end + 1) =~= after.skip(end + 1) + b);
                    lemma_tags_of_parts(after.skip(end + 1), b, open);
                    assert(start_tags(a + b, open) =~= start_tags(a, open) + start_tags(b, open));
                },
                None => {
                    lemma_tags_of_parts(after, b, open);
                },
            }
        },
    }
}

/// The name of each tag is listed.
proof fn lemma_names_are_held(tags: Seq<Seq<char>>, i: int)
    requires
        0 <= i < tags.len(),
    ensures
        attribute_of(tags[i], opening("name"@)) matches Some(name) ==> names_hold(
            entries_of(tags),
            name,
        ),
    decreases tags.len(),
{
    if let Some(name) = attribute_of(tags[i], opening("name"@)) {
        let before = entries_of(tags.drop_last());
        let now = entries_of(tags);
        if i < tags.len() - 1 {
            lemma_names_are_held(tags.drop_last(), i);
            let at = choose|at: int| 0 <= at < before.len() && (#[trigger] before[at]).0 == name;
            assert(now[at] == before[at]);
        } else if !names_hold(before, name) {
            assert(now[before.len() as int].0 == name);
        }
    }
}

/// Tags that are listed already list nothing more.
proof fn lemma_listed_once(tags: Seq<Seq<char>>, n: int)
    requires
        0 <= n <= tags.len(),
    ensures
        entries_of(tags + tags.take(n)) == entries_of(tags),
    decreases n,
{
    let again = tags + tags.take(n);
    if n == 0 {
        assert(again =~= tags);
    } else {
        lemma_listed_once(tags, n - 1);
        lemma_names_are_held(tags, n - 1);
        assert(again.drop_last() =~= tags + tags.take(n - 1));
        assert(again.last() == tags[n - 1]);
    }
}

/// A dictionary text that is written twice lists what it lists when it is
/// written once, unless the end of the one and the start of the other make up a
/// tag that the text does not have.
pub proof fn written_twice_lists_the_same(xml: Seq<char>, element: Seq<char>)
    requires
        !runs_on(xml, xml, "<"@ + element),
    ensures
        listed(xml + xml, element) == listed(xml, element),
{
    reveal_strlit("<");
    let open = "<"@ + element;
    lemma_tags_of_parts(xml, xml, open);
    let tags = start_tags(xml, open);
    assert(tags.take(tags.len() as int) =~= tags);
    lemma_listed_once(tags, tags.len() as int);
}

/// A text that ends with a `>`, as a whole document does, never runs on into
/// what follows.
pub proof fn whole_texts_do_not_run_on(a: Seq<char>, b: Seq<char>, open: Seq<char>)
    requires
        a.len() > 0 ==> a.last() == '>',
        open.len() > 0,
        !open.contains('>'),
    ensures
        !runs_on(a, b, open),
    decreases a.len(),
{
    reveal_strlit(">");
    lemma_first_from(a, open, 0);
    match first_from(a, open, 0) {
        None => {
            assert forall|j: int| 0 <= j < a.len() < j + open.len() implies !(
            #[trigger] occurs_at(a + b, open, j)) by {
                if occurs_at(a + b, open, j) {
                    let i = a.len() - 1 - j;
                    assert((a + b).subrange(j, j + open.len())[i] == open[i]);
                }
            }
        },
        Some(at) => {
            let start = at + open.len();
            let after = a.skip(start);
            if after.len() == 0 {
                assert(a.subrange(at, start)[open.len() - 1] == open[open.len() - 1]);
            } else {
                lemma_first_from(after, ">"@, 0);
                assert(occurs_at(after, ">"@, after.len() - 1)) by {
                    assert(after.subrange(after.len() - 1, after.len() as int) =~= ">"@);
                }
                match tag_end(after) {
                    Some(end) => whole_texts_do_not_run_on(after.skip(end + 1), b, open),
                    None => {
                        assert((after + b)[0] == after[0]);
                        whole_texts_do_not_run_on(after, b, open);
                    },
                }
            }
        },
    }
}

/// A run gets the time that was asked for, from a tenth of a second up to two
/// minutes, and half a minute where nothing was asked for.
pub proof fn timeouts_are_what_was_asked_for(requested: Option<u64>)
    ensures
        requested is None ==> timeout_of(requested) == 30_000,
        requested matches Some(ms) ==> (100 <= ms <= 120_000 ==> timeout_of(requested) == ms) && (ms
            < 100 ==> timeout_of(requested) == 100) && (ms > 120_000 ==> timeout_of(requested)
            == 120_000),
{
}

/// Cutting keeps the front of a text, as much of it as is allowed.
pub proof fn cutting_keeps_the_front(text: Seq<char>, max: nat)
    ensures
        cut(text, max).len() == if text.len() < max {
            text.len()
        } else {
            max
        },
        forall|i: int| 0 <= i < cut(text, max).len() ==> #[trigger] cut(text, max)[i] == text[i],
{
}

/// Where a character last stands in a text.
proof fn lemma_last_of(text: Seq<char>, c: char)
    ensures
        match last_of(text, c) {
            Some(at) => 0 <= at < text.len() && text[at] == c && forall|i: int|
                at < i < text.len() ==> #[trigger] text[i] != c,
            None => !text.contains(c),
        },
    decreases text.len(),
{
    if text.len() > 0 {
        let rest = text.drop_last();
        lemma_last_of(rest, c);
        assert forall|i: int| 0 <= i < rest.len() implies #[trigger] text[i] == rest[i] by {}
        if text.contains(c) && text.last() != c {
            let i = choose|i: int| 0 <= i < text.len() && text[i] == c;
            assert(rest[i] == c);
        }
    }
}

/// A message that ends with a number in brackets carries that number as its
/// code, whatever comes before it; and a message whose last line does not end
/// with a bracket carries none.
pub proof fn codes_stand_in_brackets_at_the_end(head: Seq<char>, code: i32, line: Seq<char>)
    requires
        !line.contains('\n'),
        line.len() > 0,
        line.last() != ')' && !whitespace(line.last()),
    ensures
        code_of(head + seq!['('] + signed_decimal(code as int) + seq![')']) == Some(code as int),
        code_of(head + seq!['\n'] + line) is None,
        code_of(line) is None,
{
    let number = signed_decimal(code as int);
    crate::text::signed_decimals_read_back(code);
    let message = head + seq!['('] + number + seq![')'];
    assert(unended(message) == message);
    lemma_last_of(message, '\n');
    let last = last_line(message);
    let from = message.len() - last.len();
    assert(from <= head.len()) by {
        if let Some(at) = last_of(message, '\n') {
            if at >= head.len() {
                if at < head.len() + 1 + number.len() && at > head.len() {
                    assert(message[at] == number[at - head.len() - 1]);
                }
            }
        }
    }
    let front = head.skip(from);
    assert(last =~= front + seq!['('] + number + seq![')']);
    crate::text::trimming_the_end_takes_only_whitespace(last);
    assert(trimmed_end(last) == last);
    let inner = last.drop_last();
    assert(inner =~= front + seq!['('] + number);
    lemma_last_of(inner, '(');
    let at = last_of(inner, '(')->0;
    assert(inner[front.len() as int] == '(');
    if at > front.len() {
        assert(inner[at] == number[at - front.len() - 1]);
    }
    assert(at == front.len());
    assert(inner.skip(at + 1) =~= number);
    let kept = crate::text::trimming_takes_only_the_ends(number);
    assert(kept.0 == 0) by {
        if kept.0 > 0 {
            assert(whitespace(number[0]));
        }
    }
    assert(kept.1 == number.len()) by {
        if kept.1 < number.len() {
            assert(whitespace(number[number.len() - 1]));
        }
    }
    assert(trimmed(number) =~= number);

    let other = head + seq!['\n'] + line;
    assert(other.last() == line.last());
    assert(other[head.len() as int] == '\n');
    assert(line.contains(line.last()));
    assert(unended(other) == other);
    lemma_last_of(other, '\n');
    let nl = last_of(other, '\n')->0;
    if nl > head.len() {
        assert(other[nl] == line[nl - head.len() - 1]);
        assert(line.contains(other[nl]));
    }
    assert(other.skip(nl + 1) =~= line);
    crate::text::trimming_the_end_takes_only_whitespace(line);
    lemma_last_of(line, '\n');
    assert(trimmed_end(line) == line);
    assert(unended(line) == line);
}

/// Each code means one kind of failure: a refusal of automation, the lack of a
/// question about it, an app that does not run, an object that there is not, or a
/// cancelled dialog. Any other is a failure of the script, and keeps its code. The
/// message is what was printed, without the whitespace at its ends.
pub proof fn codes_mean_what_they_say(stderr: Seq<char>, failure: ScriptFailure)
    requires
        classified(stderr, failure),
    ensures
        ({
            let code = code_of(failure_message(stderr));
            &&& failure matches ScriptFailure::AutomationNotPermitted { state, message } ==> (state
                == PermissionState::Denied && code == Some(-1743int) || state
                == PermissionState::NotDetermined && code == Some(-1744int)) && message@
                == failure_message(stderr)
            &&& failure matches ScriptFailure::AppNotRunning { message } ==> code == Some(-600int)
                && message@ == failure_message(stderr)
            &&& failure matches ScriptFailure::ObjectNotFound { message } ==> code == Some(
                -1728int,
            ) && message@ == failure_message(stderr)
            &&& failure matches ScriptFailure::Cancelled { message } ==> code == Some(-128int)
                && message@ == failure_message(stderr)
            &&& failure matches ScriptFailure::Script { code: c, message } ==> opt_i32(c) == code
                && message@ == failure_message(stderr) && code != Some(-1743int) && code != Some(
                -1744int,
            ) && code != Some(-600int) && code != Some(-1728int) && code != Some(-128int)
            &&& !(failure is Timeout)
            &&& trimmed(stderr).len() > 0 ==> failure_message(stderr) == trimmed(stderr)
            &&& trimmed(stderr).len() == 0 ==> failure_message(stderr)
                == "osascript failed and printed no message"@
        }),
{
}

/// What a failure is reported as keeps the message, and says which failure it is.
pub proof fn reports_keep_the_message(failure: ScriptFailure, error: PolarizeError)
    requires
        reported(failure, error),
    ensures
        match failure {
            ScriptFailure::AutomationNotPermitted { state, .. } => error
                == PolarizeError::Permission(
                PermissionError::NotGranted { kind: PermissionKind::Automation, state },
            ),
            ScriptFailure::AppNotRunning { message } => error is AppNotFound
                && error->AppNotFound_0@ == message@,
            ScriptFailure::ObjectNotFound { message } => error is Platform && error->Platform_0@
                == "AppleScript found no such object: "@ + message@,
            ScriptFailure::Cancelled { message } => error is Platform && error->Platform_0@
                == "AppleScript was cancelled: "@ + message@,
            ScriptFailure::Script { code, message } => error is Platform && error->Platform_0@
                == match code {
                Some(n) => "AppleScript error ("@ + signed_decimal(n as int) + "): "@ + message@,
                None => "AppleScript error: "@ + message@,
            },
            ScriptFailure::Timeout { timeout_ms, source_excerpt } => error is Platform
                && error->Platform_0@ == "AppleScript timed out after "@ + decimal(
                timeout_ms as nat,
            ) + " ms: "@ + source_excerpt@,
        },
{
}

/// A status of the preflight means that automation is permitted when it is zero,
/// that it was refused when it says so, that nobody was asked yet when it says
/// so, and else nothing.
pub proof fn statuses_mean_what_they_say(status: i32)
    ensures
        check_of_status(status) == AutomationCheck::Permitted <==> status == 0,
        check_of_status(status) == AutomationCheck::Refused(PermissionState::Denied) <==> status
            == -1743,
        check_of_status(status) == AutomationCheck::Refused(PermissionState::NotDetermined)
            <==> status == -1744,
        check_of_status(status) == AutomationCheck::Inconclusive <==> status != 0 && status != -1743
            && status != -1744,
{
}

/// A short source without quotes and without line breaks or tabs is shown as it
/// is; of a longer one the first 48 characters are shown, with a mark that there
/// is more.
pub proof fn plain_source_is_shown(source: Seq<char>)
    requires
        !source.contains('"'),
        !source.contains('\n') && !source.contains('\r') && !source.contains('\t'),
    ensures
        source.len() <= 48 ==> redacted(source) == source,
        source.len() > 48 ==> redacted(source) == source.take(48).push('\u{2026}'),
{
    lemma_plain_source(source);
}

proof fn lemma_plain_source(source: Seq<char>)
    requires
        !source.contains('"'),
        !source.contains('\n') && !source.contains('\r') && !source.contains('\t'),
    ensures
        without_literals(source, false) == source,
    decreases source.len(),
{
    if source.len() > 0 {
        let rest = source.skip(1);
        assert forall|c: char| rest.contains(c) implies source.contains(c) by {
            let i = choose|i: int| 0 <= i < rest.len() && rest[i] == c;
            assert(source[i + 1] == c);
        }
        assert(source.contains(source[0]));
        lemma_plain_source(rest);
        assert(seq![source[0]] + rest =~= source);
    } else {
        assert(without_literals(source, false) =~= source);
    }
}

/// A script that is aimed at an app runs inside a block that names the app, as
/// whole lines; one that is aimed at none, or at a blank name, runs as it is.
pub proof fn scripts_are_aimed_at_their_app(request: RunAppleScriptRequest)
    ensures
        (request.target_app is None || forall|i: int|
            0 <= i < request.target_app->0@.len() ==> whitespace(
                #[trigger] request.target_app->0@[i],
            )) ==> target_of(request) is None && script_of(request) == request.source@,
        target_of(request) matches Some(name) ==> {
            &&& request.target_app is Some && name == trimmed(request.target_app->0@) && name.len()
                > 0
            &&& script_of(request) == "tell application \""@ + escaped(name) + "\"\n"@
                + request.source@ + "\nend tell"@
        },
        target_of(request) is None ==> script_of(request) == request.source@,
        target_of(request) is None ==> request.target_app is None || trimmed(
            request.target_app->0@,
        ).len() == 0,
{
    if let Some(name) = request.target_app {
        let kept = crate::text::trimming_takes_only_the_ends(name@);
    }
}

/// A run answers with its output only when it ended in time and well: without
/// the whitespace at its end, and cut to 64,000 characters, which it says. A run
/// that was ended at its deadline says that, whatever else came of it, and shows
/// only the redacted source.
pub proof fn only_good_runs_answer(
    request: RunAppleScriptRequest,
    o: ScriptOutcome,
    r: Result<RunAppleScriptResponse, PolarizeError>,
)
    requires
        run_answer(request, Ok(o), r),
    ensures
        r is Ok <==> !o.timed_out && o.exit_code == Some(0i32),
        r matches Ok(response) ==> {
            &&& response.truncated <==> trimmed_end(o.stdout@).len() > 64_000
            &&& !response.truncated ==> response.output@ == trimmed_end(o.stdout@)
            &&& response.truncated ==> response.output@ == o.stdout@.take(64_000)
            &&& response.timeout_ms == timeout_of(request.timeout_ms)
        },
        o.timed_out ==> r is Err && r->Err_0 is Platform && r->Err_0->Platform_0@
            == "AppleScript timed out after "@ + decimal(timeout_of(request.timeout_ms) as nat)
            + " ms: "@ + redacted(request.source@),
        !o.timed_out && o.exit_code != Some(0i32) ==> exists|failure: ScriptFailure|
            #[trigger] classified(o.stderr@, failure) && reported(failure, r->Err_0),
{
    crate::text::trimming_the_end_takes_only_whitespace(o.stdout@);
    if trimmed_end(o.stdout@).len() > 64_000 {
        assert(trimmed_end(o.stdout@).take(64_000) =~= o.stdout@.take(64_000));
    }
}

/// Decoding leaves a text alone that holds no ampersand.
proof fn lemma_no_entities(text: Seq<char>)
    requires
        !text.contains('&'),
    ensures
        entities_decoded(text) == text,
{
    reveal_strlit("&lt;");
    reveal_strlit("&gt;");
    reveal_strlit("&quot;");
    reveal_strlit("&apos;");
    reveal_strlit("&amp;");
    lemma_unreplaced(text, "&lt;"@, "<"@);
    lemma_unreplaced(text, "&gt;"@, ">"@);
    lemma_unreplaced(text, "&quot;"@, "\""@);
    lemma_unreplaced(text, "&apos;"@, "'"@);
    lemma_unreplaced(text, "&amp;"@, "&"@);
}

proof fn lemma_unreplaced(text: Seq<char>, from: Seq<char>, to: Seq<char>)
    requires
        from.len() > 0,
        !text.contains(from[0]),
    ensures
        replaced(text, from, to) == text,
{
    let none: Seq<char> = seq![];
    crate::text::replacing_skips_what_cannot_fit(text, none, from, to);
    assert(text + none =~= text);
    assert(text + replaced(none, from, to) =~= text);
}

/// One entity between texts without an ampersand, as one replacement treats it.
proof fn lemma_one_entity(
    a: Seq<char>,
    entity: Seq<char>,
    b: Seq<char>,
    from: Seq<char>,
    to: Seq<char>,
)
    requires
        from.len() > 1 && from[0] == '&' && !from.skip(1).contains('&'),
        entity.len() > 1 && entity[0] == '&' && !entity.skip(1).contains('&'),
        from != entity,
        from.last() == ';' && entity.last() == ';' && !from.drop_last().contains(';')
            && !entity.drop_last().contains(';'),
        !a.contains('&') && !b.contains('&'),
    ensures
        replaced(a + entity + b, from, to) == a + entity + b,
{
    let rest = entity.skip(1) + b;
    assert(a + entity + b =~= a + (seq!['&'] + rest));
    crate::text::replacing_skips_what_cannot_fit(a, seq!['&'] + rest, from, to);
    let all = seq!['&'] + rest;
    assert(!occurs_at(all, from, 0)) by {
        if occurs_at(all, from, 0) {
            let part = all.subrange(0, from.len() as int);
            assert(all =~= entity + b);
            if from.len() <= entity.len() {
                assert forall|i: int| 0 <= i < from.len() implies from[i] == entity[i] by {
                    assert(part[i] == all[i]);
                }
                if from.len() < entity.len() {
                    assert(entity.drop_last()[from.len() - 1] == ';');
                } else {
                    assert(from =~= entity);
                }
            } else {
                assert(part[entity.len() - 1] == all[entity.len() - 1]);
                assert(from.drop_last()[entity.len() - 1] == ';');
            }
        }
    }
    assert(!rest.contains('&')) by {
        if rest.contains('&') {
            let i = choose|i: int| 0 <= i < rest.len() && rest[i] == '&';
            if i < entity.len() - 1 {
                assert(entity.skip(1)[i] == '&');
            } else {
                assert(b[i - (entity.len() - 1)] == '&');
            }
        }
    }
    lemma_unreplaced(rest, from, to);
    assert(all.skip(1) =~= rest);
    assert(seq![all[0]] + rest =~= all);
}

/// An entity stands for its character, whatever stands around it.
pub proof fn entities_stand_for_their_characters(a: Seq<char>, b: Seq<char>)
    requires
        !a.contains('&') && !b.contains('&'),
    ensures
        entities_decoded(a) == a,
        entities_decoded(a + "&lt;"@ + b) == a + seq!['<'] + b,
        entities_decoded(a + "&gt;"@ + b) == a + seq!['>'] + b,
        entities_decoded(a + "&quot;"@ + b) == a + seq!['"'] + b,
        entities_decoded(a + "&apos;"@ + b) == a + seq!['\''] + b,
        entities_decoded(a + "&amp;"@ + b) == a + seq!['&'] + b,
{
    reveal_strlit("&lt;");
    reveal_strlit("&gt;");
    reveal_strlit("&quot;");
    reveal_strlit("&apos;");
    reveal_strlit("&amp;");
    reveal_strlit("<");
    reveal_strlit(">");
    reveal_strlit("\"");
    reveal_strlit("'");
    reveal_strlit("&");
    lemma_no_entities(a);
    assert("<"@ =~= seq!['<'] && ">"@ =~= seq!['>'] && "\""@ =~= seq!['"'] && "'"@ =~= seq!['\'']
        && "&"@ =~= seq!['&']);
    lemma_entity(a, b, "&lt;"@, '<');
    lemma_entity(a, b, "&gt;"@, '>');
    lemma_entity(a, b, "&quot;"@, '"');
    lemma_entity(a, b, "&apos;"@, '\'');
    lemma_entity(a, b, "&amp;"@, '&');
}

proof fn lemma_entity(a: Seq<char>, b: Seq<char>, entity: Seq<char>, c: char)
    requires
        !a.contains('&') && !b.contains('&'),
        (entity == "&lt;"@ && c == '<') || (entity == "&gt;"@ && c == '>') || (entity == "&quot;"@
            && c == '"') || (entity == "&apos;"@ && c == '\'') || (entity == "&amp;"@ && c == '&'),
    ensures
        entities_decoded(a + entity + b) == a + seq![c] + b,
{
    reveal_strlit("&lt;");
    reveal_strlit("&gt;");
    reveal_strlit("&quot;");
    reveal_strlit("&apos;");
    reveal_strlit("&amp;");
    reveal_strlit("<");
    reveal_strlit(">");
    reveal_strlit("\"");
    reveal_strlit("'");
    reveal_strlit("&");
    assert("<"@ =~= seq!['<'] && ">"@ =~= seq!['>'] && "\""@ =~= seq!['"'] && "'"@ =~= seq!['\'']
        && "&"@ =~= seq!['&']);
    let lt = "&lt;"@;
    let gt = "&gt;"@;
    let quot = "&quot;"@;
    let apos = "&apos;"@;
    let amp = "&amp;"@;
    assert(lt[1] == 'l' && gt[1] == 'g' && quot[1] == 'q' && apos[2] == 'p' && amp[2] == 'm'
        && apos[1] == 'a' && amp[1] == 'a');
    lemma_replacing_step(a, b, entity, c, lt, '<');
    lemma_replacing_step(a, b, entity, c, gt, '>');
    lemma_replacing_step(a, b, entity, c, quot, '"');
    lemma_replacing_step(a, b, entity, c, apos, '\'');
    lemma_replacing_step(a, b, entity, c, amp, '&');
}

/// What one replacement does to a text with one entity, and to the same text
/// with the entity decoded already.
proof fn lemma_replacing_step(
    a: Seq<char>,
    b: Seq<char>,
    entity: Seq<char>,
    c: char,
    from: Seq<char>,
    to: char,
)
    requires
        !a.contains('&') && !b.contains('&'),
        from.len() > 1 && from[0] == '&' && from.last() == ';' && entity.len() > 1 && entity[0]
            == '&' && entity.last() == ';',
        forall|i: int| 0 < i < from.len() - 1 ==> #[trigger] from[i] != '&' && from[i] != ';',
        forall|i: int|
            0 < i < entity.len() - 1 ==> #[trigger] entity[i] != '&' && entity[i] != ';',
    ensures
        from == entity ==> replaced(a + entity + b, from, seq![to]) == a + seq![to] + b,
        from != entity ==> replaced(a + entity + b, from, seq![to]) == a + entity + b,
        c != '&' ==> replaced(a + seq![c] + b, from, seq![to]) == a + seq![c] + b,
{
    if from == entity {
        crate::text::replacing_skips_what_cannot_fit(a, from + b, from, seq![to]);
        crate::text::replacing_replaces(b, from, seq![to]);
        lemma_unreplaced(b, from, seq![to]);
        assert(a + entity + b =~= a + (from + b));
        assert(a + (seq![to] + b) =~= a + seq![to] + b);
    } else {
        assert(!from.skip(1).contains('&')) by {
            if from.skip(1).contains('&') {
                let i = choose|i: int| 0 <= i < from.skip(1).len() && from.skip(1)[i] == '&';
                assert(from[i + 1] == '&');
            }
        }
        assert(!entity.skip(1).contains('&')) by {
            if entity.skip(1).contains('&') {
                let i = choose|i: int| 0 <= i < entity.skip(1).len() && entity.skip(1)[i] == '&';
                assert(entity[i + 1] == '&');
            }
        }
        assert(!from.drop_last().contains(';')) by {
            if from.drop_last().contains(';') {
                let i = choose|i: int| 0 <= i < from.drop_last().len() && from.drop_last()[i]
                    == ';';
                assert(from[i] == ';');
            }
        }
        assert(!entity.drop_last().contains(';')) by {
            if entity.drop_last().contains(';') {
                let i = choose|i: int|
                    0 <= i < entity.drop_last().len() && entity.drop_last()[i] == ';';
                assert(entity[i] == ';');
            }
        }
        lemma_one_entity(a, entity, b, from, seq![to]);
    }
    if c != '&' {
        let done = a + seq![c] + b;
        assert(!done.contains('&')) by {
            if done.contains('&') {
                let i = choose|i: int| 0 <= i < done.len() && done[i] == '&';
                if i < a.len() {
                    assert(a[i] == '&');
                } else if i > a.len() {
                    assert(b[i - a.len() - 1] == '&');
                }
            }
        }
        lemma_unreplaced(done, from, seq![to]);
    }
}

/// An attribute is read where it stands: at the start or behind whitespace, up to
/// the quote that ends it.
pub proof fn attributes_are_read_where_they_stand(
    a: Seq<char>,
    key: Seq<char>,
    value: Seq<char>,
    rest: Seq<char>,
)
    requires
        !a.contains('"') && (a.len() > 0 ==> whitespace(a.last())),
        !value.contains('"') && !value.contains('&'),
        !key.contains('"'),
    ensures
        attribute_of(a + key + seq!['=', '"'] + value + seq!['"'] + rest, opening(key)) == Some(
            value,
        ),
{
    reveal_strlit("=\"");
    reveal_strlit("\"");
    let needle = opening(key);
    assert(needle =~= key + seq!['=', '"']);
    let text = a + key + seq!['=', '"'] + value + seq!['"'] + rest;
    let at = a.len() as int;
    assert(text.subrange(at, at + needle.len()) =~= needle);
    assert(occurs_at(text, needle, at));
    lemma_first_from(text, needle, 0);
    let found = first_from(text, needle, 0)->0;
    let q = needle.len() - 1;
    assert(needle[q] == '"');
    if found < at {
        assert(text.subrange(found, found + needle.len())[q] == text[found + q]);
        let i = found + q;
        if i < a.len() {
            assert(a[i] == '"');
        } else if i < a.len() + key.len() {
            assert(text[i] == key[i - a.len()]);
            assert(key.contains('"'));
        } else {
            assert(text[i] == '=');
        }
    }
    assert(found == at);
    assert(at > 0 ==> text[found - 1] == a.last());
    let start = found + needle.len();
    lemma_first_from(text, "\""@, start);
    assert("\""@ =~= seq!['"']);
    let end = start + value.len();
    assert(text.subrange(end, end + 1) =~= "\""@);
    assert(occurs_at(text, "\""@, end));
    let stop = first_from(text, "\""@, start)->0;
    if stop < end {
        assert(text.subrange(stop, stop + 1)[0] == text[stop]);
        assert(text[stop] == value[stop - start]);
        assert(value.contains('"'));
    }
    assert(stop == end);
    assert(text.subrange(start, end) =~= value);
    lemma_no_entities(value);
}

/// A key that only stands inside longer names is no attribute.
pub proof fn longer_names_are_other_attributes(text: Seq<char>, needle: Seq<char>)
    requires
        needle.len() > 0,
        forall|at: int|
            #[trigger] occurs_at(text, needle, at) ==> at > 0 && !whitespace(text[at - 1])
                && !occurs_at(text, needle, at - needle.len()),
    ensures
        attribute_of(text, needle) is None,
    decreases text.len(),
{
    lemma_first_from(text, needle, 0);
    if let Some(at) = first_from(text, needle, 0) {
        let start = at + needle.len();
        let rest = text.skip(start);
        assert forall|p: int| #[trigger] occurs_at(rest, needle, p) implies p > 0 && !whitespace(
            rest[p - 1],
        ) && !occurs_at(rest, needle, p - needle.len()) by {
            assert(rest.subrange(p, p + needle.len()) =~= text.subrange(
                start + p,
                start + p + needle.len(),
            ));
            assert(occurs_at(text, needle, start + p));
            if p == 0 {
                assert(occurs_at(text, needle, at));
            } else {
                assert(rest[p - 1] == text[start + p - 1]);
            }
            if occurs_at(rest, needle, p - needle.len()) {
                let s = p - needle.len();
                assert(rest.subrange(s, s + needle.len()) =~= text.subrange(
                    start + s,
                    start + s + needle.len(),
                ));
                assert(occurs_at(text, needle, start + p - needle.len()));
            }
        }
        longer_names_are_other_attributes(rest, needle);
    }
}

/// A tag is found where it opens: its attributes are what stands between its name
/// and its end. A longer name is another element's.
pub proof fn tags_are_found_where_they_open(
    a: Seq<char>,
    element: Seq<char>,
    attributes: Seq<char>,
    rest: Seq<char>,
    c: char,
)
    requires
        !a.contains('<'),
        !attributes.contains('>'),
        attributes.len() == 0 || whitespace(attributes[0]) || attributes[0] == '/',
        !whitespace(c) && c != '>' && c != '/',
    ensures
        start_tags(
            a + seq!['<'] + element + attributes + seq!['>'] + rest,
            seq!['<'] + element,
        ) == seq![attributes] + start_tags(rest, seq!['<'] + element),
        start_tags(a + seq!['<'] + element + seq![c] + rest, seq!['<'] + element) == start_tags(
            seq![c] + rest,
            seq!['<'] + element,
        ),
{
    reveal_strlit(">");
    assert(">"@ =~= seq!['>']);
    let open = seq!['<'] + element;
    let tail = attributes + seq!['>'] + rest;
    lemma_opened(a, element, tail);
    assert(a + seq!['<'] + element + attributes + seq!['>'] + rest =~= a + open + tail);
    assert(name_ends(tail)) by {
        if attributes.len() == 0 {
            assert(tail[0] == '>');
        } else {
            assert(tail[0] == attributes[0]);
        }
    }
    lemma_first_from(tail, ">"@, 0);
    let n = attributes.len() as int;
    assert(tail.subrange(n, n + 1) =~= ">"@);
    assert(occurs_at(tail, ">"@, n));
    let end = first_from(tail, ">"@, 0)->0;
    if end < n {
        assert(tail.subrange(end, end + 1)[0] == tail[end]);
        assert(attributes[end] == '>');
    }
    assert(tail.take(n) =~= attributes);
    assert(tail.skip(n + 1) =~= rest);
    let other = seq![c] + rest;
    lemma_opened(a, element, other);
    assert(a + seq!['<'] + element + seq![c] + rest =~= a + open + other);
    assert(!name_ends(other));
}

/// The first opening of a text whose front holds none.
proof fn lemma_opened(a: Seq<char>, element: Seq<char>, tail: Seq<char>)
    requires
        !a.contains('<'),
    ensures
        ({
            let open = seq!['<'] + element;
            &&& first_from(a + open + tail, open, 0) == Some(a.len() as int)
            &&& (a + open + tail).skip((a.len() + open.len()) as int) == tail
        }),
{
    let open = seq!['<'] + element;
    let text = a + open + tail;
    assert(text.subrange(a.len() as int, (a.len() + open.len()) as int) =~= open);
    assert(occurs_at(text, open, a.len() as int));
    lemma_first_from(text, open, 0);
    let at = first_from(text, open, 0)->0;
    if at < a.len() {
        assert(text.subrange(at, at + open.len())[0] == text[at]);
        assert(a[at] == '<');
    }
    assert(text.skip((a.len() + open.len()) as int) =~= tail);
}

/// Every tag with a name is listed under that name, and what is listed is the
/// name and the description of a tag: of the first one with that name.
pub proof fn every_named_tag_is_listed(tags: Seq<Seq<char>>, i: int)
    requires
        0 <= i < tags.len(),
    ensures
        attribute_of(tags[i], opening("name"@)) matches Some(name) ==> exists|k: int|
            0 <= k < entries_of(tags).len() && (#[trigger] entries_of(tags)[k]).0 == name,
        forall|k: int|
            0 <= k < entries_of(tags).len() ==> exists|j: int|
                0 <= j < tags.len() && attribute_of(#[trigger] tags[j], opening("name"@)) == Some(
                    (#[trigger] entries_of(tags)[k]).0,
                ) && attribute_of(tags[j], opening("description"@)) == entries_of(tags)[k].1
                    && forall|m: int|
                    0 <= m < j ==> attribute_of(#[trigger] tags[m], opening("name"@)) != Some(
                        entries_of(tags)[k].0,
                    ),
{
    lemma_names_are_held(tags, i);
    if let Some(name) = attribute_of(tags[i], opening("name"@)) {
        assert(names_hold(entries_of(tags), name));
    }
    assert forall|k: int| 0 <= k < entries_of(tags).len() implies exists|j: int|
        0 <= j < tags.len() && attribute_of(#[trigger] tags[j], opening("name"@)) == Some(
            (#[trigger] entries_of(tags)[k]).0,
        ) && attribute_of(tags[j], opening("description"@)) == entries_of(tags)[k].1 && forall|
            m: int,
        |
            0 <= m < j ==> attribute_of(#[trigger] tags[m], opening("name"@)) != Some(
                entries_of(tags)[k].0,
            ) by {
        let j = lemma_entry_origin(tags, k);
        assert(attribute_of(tags[j], opening("name"@)) == Some(entries_of(tags)[k].0));
    }
}

proof fn lemma_entry_origin(tags: Seq<Seq<char>>, k: int) -> (j: int)
    requires
        0 <= k < entries_of(tags).len(),
    ensures
        0 <= j < tags.len(),
        attribute_of(tags[j], opening("name"@)) == Some(entries_of(tags)[k].0),
        attribute_of(tags[j], opening("description"@)) == entries_of(tags)[k].1,
        forall|m: int|
            0 <= m < j ==> attribute_of(#[trigger] tags[m], opening("name"@)) != Some(
                entries_of(tags)[k].0,
            ),
    decreases tags.len(),
{
    let rest = tags.drop_last();
    let before = entries_of(rest);
    if k < before.len() {
        let j = lemma_entry_origin(rest, k);
        assert(entries_of(tags)[k] == before[k]);
        assert forall|m: int| 0 <= m < j implies attribute_of(#[trigger] tags[m], opening("name"@))
            != Some(entries_of(tags)[k].0) by {
            assert(rest[m] == tags[m]);
        }
        j
    } else {
        let j = tags.len() - 1;
        assert forall|m: int| 0 <= m < j implies attribute_of(#[trigger] tags[m], opening("name"@))
            != Some(entries_of(tags)[k].0) by {
            assert(rest[m] == tags[m]);
            lemma_names_are_held(rest, m);
        }
        j
    }
}

/// A script is run once, aimed at the app that was asked for and for as long as
/// was asked for: half a minute where nothing was, and never under a tenth of a
/// second nor over two minutes. A runner that fails is the answer.
pub proof fn runs_are_what_was_asked_for<R: AppleScriptRunner>(
    runner: &R,
    request: RunAppleScriptRequest,
    before: Seq<Call>,
    after: Seq<Call>,
    r: Result<RunAppleScriptResponse, PolarizeError>,
)
    requires
        ran(runner, request, before, after, r),
    ensures
        after.len() == before.len() + 1 && after.drop_last() == before,
        after.last() is RanScript,
        after.last()->RanScript_target_app == match request.target_app {
            Some(name) => if trimmed(name@).len() > 0 {
                Some(trimmed(name@))
            } else {
                None
            },
            None => None,
        },
        after.last()->RanScript_target_app is None ==> after.last()->RanScript_source
            == request.source@,
        after.last()->RanScript_target_app matches Some(name) ==> after.last()->RanScript_source
            == told(request.source@, name),
        request.timeout_ms is None ==> after.last()->RanScript_timeout_ms == 30_000,
        request.timeout_ms matches Some(ms) ==> {
            let used = after.last()->RanScript_timeout_ms;
            &&& 100 <= ms <= 120_000 ==> used == ms
            &&& ms < 100 ==> used == 100
            &&& ms > 120_000 ==> used == 120_000
        },
        after.last()->RanScript_reply matches Err(e) ==> r == Err::<
            RunAppleScriptResponse,
            PolarizeError,
        >(e),
        r matches Ok(response) ==> response.timeout_ms == after.last()->RanScript_timeout_ms,
{
    assert(after.drop_last() =~= before);
}

/// The dictionary of the app that was asked for is read once. What is answered as
/// verbs is what it lists as commands, and as nouns what it lists as classes.
pub proof fn dictionaries_are_of_the_asked_app<R: AppleScriptRunner>(
    runner: &R,
    request: ScriptDictionaryRequest,
    before: Seq<Call>,
    after: Seq<Call>,
    r: Result<ScriptDictionaryResponse, PolarizeError>,
)
    requires
        read_dictionary(runner, request, before, after, r),
    ensures
        after.len() == before.len() + 1 && after.drop_last() == before,
        after.last() is ReadDictionary && after.last()->ReadDictionary_app == request.app@,
        after.last()->ReadDictionary_reply matches Err(e) ==> r == Err::<
            ScriptDictionaryResponse,
            PolarizeError,
        >(e),
        after.last()->ReadDictionary_reply matches Ok(sdef) ==> (r matches Ok(response) && {
            &&& response.app_name@ == sdef.app_name@
            &&& entry_views(response.commands@) == listed(sdef.xml@, "command"@)
            &&& entry_views(response.classes@) == listed(sdef.xml@, "class"@)
        }),
{
    assert(after.drop_last() =~= before);
}

/// Blanks round a code, inside its brackets or behind them, do not count.
pub proof fn blanks_round_a_code_do_not_count(
    head: Seq<char>,
    left: Seq<char>,
    code: i32,
    right: Seq<char>,
    tail: Seq<char>,
)
    requires
        forall|i: int| 0 <= i < left.len() ==> whitespace(#[trigger] left[i]) && left[i] != '\n',
        forall|i: int| 0 <= i < right.len() ==> whitespace(#[trigger] right[i]) && right[i] != '\n',
        forall|i: int| 0 <= i < tail.len() ==> whitespace(#[trigger] tail[i]) && tail[i] != '\n',
    ensures
        code_of(
            head + seq!['('] + left + signed_decimal(code as int) + right + seq![')'] + tail,
        ) == Some(code as int),
{
    let number = signed_decimal(code as int);
    crate::text::signed_decimals_read_back(code);
    let padded = left + number + right;
    let message = head + seq!['('] + left + number + right + seq![')'] + tail;
    assert(message =~= head + seq!['('] + padded + seq![')'] + tail);
    assert forall|i: int| head.len() <= i < message.len() implies #[trigger] message[i] != '\n' by {
        let k = i - head.len() - 1;
        if 0 <= k < left.len() {
            assert(message[i] == left[k]);
        } else if left.len() <= k < left.len() + number.len() {
            assert(message[i] == number[k - left.len()]);
        } else if left.len() + number.len() <= k < padded.len() {
            assert(message[i] == right[k - left.len() - number.len()]);
        } else if k > padded.len() {
            assert(message[i] == tail[k - padded.len() - 1]);
        }
    }
    assert(unended(message) == message);
    lemma_last_of(message, '\n');
    let last = last_line(message);
    let from = message.len() - last.len();
    let front = head.skip(from);
    assert(last =~= front + seq!['('] + padded + seq![')'] + tail);
    crate::text::trimming_the_end_takes_only_whitespace(last);
    let closed = front + seq!['('] + padded + seq![')'];
    let n = trimmed_end(last).len() as int;
    assert(last[closed.len() - 1] == ')');
    assert(n >= closed.len());
    if n > closed.len() {
        assert(last[n - 1] == tail[n - 1 - closed.len()]);
    }
    assert(trimmed_end(last) =~= closed);
    let inner = closed.drop_last();
    assert(inner =~= front + seq!['('] + padded);
    lemma_last_of(inner, '(');
    let at = last_of(inner, '(')->0;
    assert(inner[front.len() as int] == '(');
    if at > front.len() {
        let k = at - front.len() - 1;
        assert(inner[at] == padded[k]);
        if k < left.len() {
            assert(padded[k] == left[k]);
        } else if k < left.len() + number.len() {
            assert(padded[k] == number[k - left.len()]);
        } else {
            assert(padded[k] == right[k - left.len() - number.len()]);
        }
    }
    assert(inner.skip(at + 1) =~= padded);
    let kept = crate::text::trimming_takes_only_the_ends(padded);
    assert(padded[left.len() as int] == number[0]);
    assert(padded[left.len() + number.len() - 1] == number[number.len() - 1]);
    assert(kept.0 < kept.1);
    assert(kept.0 == left.len()) by {
        if kept.0 < left.len() {
            assert(padded[kept.0] == left[kept.0]);
        }
    }
    assert(kept.1 == left.len() + number.len()) by {
        if kept.1 > left.len() + number.len() {
            assert(padded[kept.1 - 1] == right[kept.1 - 1 - left.len() - number.len()]);
        }
    }
    assert(trimmed(padded) =~= number);
}

} // verus!
