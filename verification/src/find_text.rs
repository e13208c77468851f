//! Finding text in a captured image.

use vstd::prelude::*;

use crate::ax::NormalizedFrame;
use crate::binary64::{places_are_distinct, steady, Numbers, Real, ONE, TWO, ZERO};
use crate::error::PolarizeError;
use crate::orchestrate::{capture_call, capture_target, captured, target_or_screen};
use crate::platform::{Call, Platform};
use crate::schema::ScreenshotTarget;
use crate::text::{
    byte_len, byte_offset, chars_of, contains, copy_all, decimal, find_from, first_from, join,
    joined, lemma_byte_len_push, lemma_byte_len_take, lemma_contains_is_found, lemma_first_from,
    lemma_texts_push, lowercased, occurs_at, push_decimal, quote, quoted, same, slice_of, texts,
    trim, trimmed, trimmed_end, trimmed_start, utf16_len, whitespace, width_in_utf16,
    width_in_utf8,
};
use crate::traits::{CapturedImage, ScreenCapture, TextRecognizer};

verus! {

/// The bits of the lowest confidence that a line may have when a request sets
/// none.
pub const DEFAULT_MIN_CONFIDENCE: u64 = 0x3FD3_3333_3333_3333;

/// How hard the recognizer works.
#[derive(Debug, Clone, Copy, PartialEq, Eq, Structural)]
pub enum RecognitionLevel {
    Accurate,
    Fast,
}

impl Default for RecognitionLevel {
    /// Accurate.
    fn default() -> (r: Self)
        ensures
            r == RecognitionLevel::Accurate,
    {
        RecognitionLevel::Accurate
    }
}

/// What the recognizer is asked to do.
#[derive(Debug, Clone, PartialEq, Eq)]
pub struct RecognizeOptions {
    pub level: RecognitionLevel,
    pub uses_language_correction: bool,
    /// Language tags; none for the recognizer's own choice.
    pub languages: Vec<String>,
}

impl Default for RecognizeOptions {
    /// Accurate, without language correction, in the recognizer's own choice
    /// of languages.
    fn default() -> (r: Self)
        ensures
            r.level == RecognitionLevel::Accurate,
            !r.uses_language_correction,
            r.languages@.len() == 0,
    {
        RecognizeOptions {
            level: RecognitionLevel::Accurate,
            uses_language_correction: false,
            languages: Vec::new(),
        }
    }
}

/// A rectangle whose origin is the bottom left corner of the image.
#[derive(Debug, Clone, Copy, PartialEq, Eq, Structural)]
pub struct VisionRect {
    pub x: Real,
    /// The bottom edge.
    pub y: Real,
    pub width: Real,
    pub height: Real,
}

impl Default for VisionRect {
    /// An empty rectangle at the origin.
    fn default() -> (r: Self)
        ensures
            r == (VisionRect {
                x: Real { bits: ZERO },
                y: Real { bits: ZERO },
                width: Real { bits: ZERO },
                height: Real { bits: ZERO },
            }),
    {
        let zero = Real { bits: ZERO };
        VisionRect { x: zero, y: zero, width: zero, height: zero }
    }
}

/// One word of a line, by its byte offsets, with its own box.
#[derive(Debug, Clone, Copy, PartialEq, Eq, Structural)]
pub struct RecognizedWord {
    pub byte_start: usize,
    pub byte_end: usize,
    pub bounds: VisionRect,
}

/// One line that the recognizer read.
#[derive(Debug, Clone, PartialEq, Eq)]
pub struct RecognizedLine {
    pub text: String,
    pub confidence: Real,
    pub bounds: VisionRect,
    /// Boxes of single words, when there are any.
    pub words: Vec<RecognizedWord>,
}

/// How a request's text is compared with a line.
#[derive(Debug, Clone, Copy, PartialEq, Eq, Structural)]
pub enum TextMatchMode {
    /// The line holds the text.
    Contains,
    /// The line, without leading and trailing whitespace, is the text.
    Exact,
}

impl Default for TextMatchMode {
    /// The line holds the text.
    fn default() -> (r: Self)
        ensures
            r == TextMatchMode::Contains,
    {
        TextMatchMode::Contains
    }
}

#[derive(Debug, Clone, PartialEq, Eq)]
pub struct FindTextRequest {
    pub text: String,
    /// What to read; the main screen when omitted.
    pub target: Option<ScreenshotTarget>,
    pub mode: TextMatchMode,
    pub case_sensitive: bool,
    /// The lowest confidence that a line may have.
    pub min_confidence: Option<Real>,
    /// Which match to take, in reading order; the first when omitted.
    pub index: Option<usize>,
    pub level: RecognitionLevel,
    pub uses_language_correction: bool,
    pub languages: Vec<String>,
}

/// Whether options ask for what a request asks for.
pub open spec fn asks(options: RecognizeOptions, request: FindTextRequest) -> bool {
    options.level == request.level && options.uses_language_correction
        == request.uses_language_correction && texts(options.languages@) == texts(
        request.languages@,
    )
}

impl FindTextRequest {
    /// A request that looks for a text on the main screen.
    pub fn new(text: &str) -> (r: Self)
        ensures
            r.text@ == text@,
            r.target is None,
            r.mode == TextMatchMode::Contains,
            !r.case_sensitive,
            r.min_confidence is None,
            r.index is None,
            r.level == RecognitionLevel::Accurate,
            !r.uses_language_correction,
            r.languages@.len() == 0,
    {
        FindTextRequest {
            text: text.to_owned(),
            target: None,
            mode: TextMatchMode::Contains,
            case_sensitive: false,
            min_confidence: None,
            index: None,
            level: RecognitionLevel::Accurate,
            uses_language_correction: false,
            languages: Vec::new(),
        }
    }

    /// What the request asks the recognizer to do.
    pub fn recognize_options(&self) -> (r: RecognizeOptions)
        ensures
            asks(r, *self),
    {
        RecognizeOptions {
            level: self.level,
            uses_language_correction: self.uses_language_correction,
            languages: copy_all(&self.languages),
        }
    }
}

/// One line that matched.
#[derive(Debug, Clone, PartialEq, Eq)]
pub struct TextMatch {
    /// The whole line.
    pub text: String,
    pub confidence: Real,
    /// Where the match lies, with its origin at the top left.
    pub frame: NormalizedFrame,
    pub center_x: Real,
    pub center_y: Real,
    /// The place of the match in reading order.
    pub index: usize,
    /// Whether the frame covers only the words that matched.
    pub narrowed_to_words: bool,
}

#[derive(Debug, Clone, PartialEq, Eq)]
pub struct FindTextResponse {
    pub matched: TextMatch,
    pub match_count: usize,
    pub observation_count: usize,
    pub below_confidence_count: usize,
    pub min_confidence: Real,
    pub image_width: u32,
    pub image_height: u32,
}

/// Why no match was returned.
#[derive(Debug, Clone, PartialEq, Eq)]
pub enum FindTextError {
    /// The request names no text.
    EmptyQuery,
    /// The confidence floor lies outside `0.0..=1.0`.
    InvalidConfidence { value: Real },
    /// No line matches.
    NoMatch { query: String, observations: usize, sample: String },
    /// Fewer lines match than the index needs.
    IndexOutOfRange { query: String, index: usize, matches: usize },
}

impl FindTextError {
    /// Whether `text` is what the error says.
    pub open spec fn says<N: Numbers>(self, numbers: &N, text: Seq<char>) -> bool {
        match self {
            FindTextError::EmptyQuery => text == "find_text needs a non-empty text to look for"@,
            FindTextError::InvalidConfidence { value } => exists|shown: String|
                #[trigger] call_ensures(N::shown, (numbers, value), shown) && text
                    == "min_confidence "@ + shown@ + " is out of range 0.0..=1.0"@,
            FindTextError::NoMatch { query, observations, sample } => text
                == "no recognized text matches "@ + quoted(query@) + "; "@ + decimal(
                observations as nat,
            ) + " line(s) recognized"@ + sample@,
            FindTextError::IndexOutOfRange { query, index, matches: found } => text == quoted(
                query@,
            ) + " matched "@ + decimal(found as nat) + " line(s), so index "@ + decimal(
                index as nat,
            ) + " is out of range"@,
        }
    }

    /// The error in words.
    pub fn message<N: Numbers>(&self, numbers: &N) -> (out: String)
        ensures
            self.says(numbers, out@),
    {
        match self {
            FindTextError::EmptyQuery => "find_text needs a non-empty text to look for".to_owned(),
            FindTextError::InvalidConfidence { value } => {
                let shown = numbers.shown(*value);
                let mut out = "min_confidence ".to_owned();
                out.append(&shown);
                out.append(" is out of range 0.0..=1.0");
                out
            },
            FindTextError::NoMatch { query, observations, sample } => {
                let mut out = "no recognized text matches ".to_owned();
                out.append(&quote(query));
                out.append("; ");
                push_decimal(&mut out, *observations as u64);
                out.append(" line(s) recognized");
                out.append(sample);
                out
            },
            FindTextError::IndexOutOfRange { query, index, matches: found } => {
                let mut out = quote(query);
                out.append(" matched ");
                push_decimal(&mut out, *found as u64);
                out.append(" line(s), so index ");
                push_decimal(&mut out, *index as u64);
                out.append(" is out of range");
                out
            },
        }
    }

    /// The error that a tool call reports; it keeps the whole message.
    pub fn into_error<N: Numbers>(self, numbers: &N) -> (r: PolarizeError)
        ensures
            r matches PolarizeError::Platform(s) && self.says(numbers, s@),
    {
        PolarizeError::Platform(self.message(numbers))
    }
}

// ---- words ------------------------------------------------------------------

/// The place of a word in a text, in bytes and in UTF-16 units.
#[derive(Debug, Clone, Copy, PartialEq, Eq, Structural)]
pub struct WordSpan {
    pub byte_start: usize,
    pub byte_end: usize,
    pub utf16_start: usize,
    pub utf16_len: usize,
}

/// Where the word that the first `n` characters leave open starts.
pub open spec fn open_word(text: Seq<char>, n: int) -> Option<int>
    decreases n,
{
    if n <= 0 || n > text.len() || whitespace(text[n - 1]) {
        None
    } else {
        match open_word(text, n - 1) {
            Some(start) => Some(start),
            None => Some(n - 1),
        }
    }
}

/// The words that end within the first `n` characters, by their first
/// character and the one behind their last.
pub open spec fn closed_words(text: Seq<char>, n: int) -> Seq<(int, int)>
    decreases n,
{
    if n <= 0 || n > text.len() {
        seq![]
    } else {
        let before = closed_words(text, n - 1);
        match open_word(text, n - 1) {
            Some(start) => if whitespace(text[n - 1]) {
                before.push((start, n - 1))
            } else {
                before
            },
            None => before,
        }
    }
}

/// The words of a text: its longest runs without whitespace.
pub open spec fn words_of(text: Seq<char>) -> Seq<(int, int)> {
    let closed = closed_words(text, text.len() as int);
    match open_word(text, text.len() as int) {
        Some(start) => closed.push((start, text.len() as int)),
        None => closed,
    }
}

/// Whether a span is the place of a word.
pub open spec fn spans(span: WordSpan, text: Seq<char>, word: (int, int)) -> bool {
    &&& span.byte_start == byte_len(text.take(word.0))
    &&& span.byte_end == byte_len(text.take(word.1))
    &&& span.utf16_start == utf16_len(text.take(word.0))
    &&& span.utf16_start + span.utf16_len == utf16_len(text.take(word.1))
}

/// Whether the spans are the places of these words, one each.
pub open spec fn spans_all(found: Seq<WordSpan>, text: Seq<char>, words: Seq<(int, int)>) -> bool {
    found.len() == words.len() && forall|i: int|
        0 <= i < found.len() ==> spans(#[trigger] found[i], text, words[i])
}

/// Splits a text at whitespace, and reports where each word lies.
pub fn word_spans(text: &str) -> (found: Vec<WordSpan>)
    ensures
        spans_all(found@, text@, words_of(text@)),
{
    let chars = chars_of(text);
    let total: usize = text.as_bytes().len();
    assert(byte_len(text@) == total);
    let mut found: Vec<WordSpan> = Vec::new();
    let mut bytes: usize = 0;
    let mut units: usize = 0;
    let mut open: Option<(usize, usize)> = None;
    let mut i: usize = 0;
    assert(text@.take(0) =~= seq![]);
    while i < chars.len()
        invariant
            i <= chars@.len(),
            chars@ == text@,
            byte_len(text@) == total,
            bytes == byte_len(text@.take(i as int)),
            units == utf16_len(text@.take(i as int)),
            spans_all(found@, text@, closed_words(text@, i as int)),
            match open {
                Some((b, u)) => open_word(text@, i as int) matches Some(start) && 0 <= start < i
                    && b == byte_len(text@.take(start)) && u == utf16_len(text@.take(start)) && u
                    <= units,
                None => open_word(text@, i as int) is None,
            },
        decreases chars@.len() - i,
    {
        let c = chars[i];
        proof {
            assert(text@.take(i + 1) =~= text@.take(i as int).push(c));
            assert(text@.take(i + 1).drop_last() =~= text@.take(i as int));
            lemma_byte_len_push(text@.take(i as int), c);
            lemma_byte_len_take(text@, i + 1);
        }
        if c.is_whitespace() {
            if let Some((byte_start, utf16_start)) = open {
                found.push(
                    WordSpan {
                        byte_start,
                        byte_end: bytes,
                        utf16_start,
                        utf16_len: units - utf16_start,
                    },
                );
            }
            open = None;
        } else if open.is_none() {
            open = Some((bytes, units));
        }
        bytes += width_in_utf8(c);
        units += width_in_utf16(c);
        i += 1;
    }
    assert(text@.take(i as int) =~= text@);
    if let Some((byte_start, utf16_start)) = open {
        found.push(
            WordSpan {
                byte_start,
                byte_end: bytes,
                utf16_start,
                utf16_len: units - utf16_start,
            },
        );
    }
    found
}

// ---- rectangles -------------------------------------------------------------

/// Whether `frame` is the rectangle with its origin moved to the top left:
/// both edges of each axis held inside `0.0..=1.0`, and the upper edge
/// measured from the top.
pub open spec fn flipped<N: Numbers>(
    numbers: &N,
    rect: VisionRect,
    frame: NormalizedFrame,
) -> bool {
    let x = rect.x.finite_or_zero();
    let y = rect.y.finite_or_zero();
    exists|right: Real, top: Real|
        #[trigger] call_ensures(N::sum, (numbers, x, rect.width.finite_or_zero()), right)
            && #[trigger] call_ensures(N::sum, (numbers, y, rect.height.finite_or_zero()), top)
            && frame_between(
            numbers,
            x.unit_clamped(),
            right.unit_clamped(),
            y.unit_clamped(),
            top.unit_clamped(),
            frame,
        )
}

/// Whether `frame` is the one between these edges, measured from the bottom
/// left.
pub open spec fn frame_between<N: Numbers>(
    numbers: &N,
    left: Real,
    right: Real,
    bottom: Real,
    top: Real,
    frame: NormalizedFrame,
) -> bool {
    let zero = Real { bits: ZERO };
    exists|from_top: Real, width: Real, height: Real|
        {
            &&& #[trigger] call_ensures(N::difference, (numbers, Real { bits: ONE }, top), from_top)
            &&& #[trigger] call_ensures(N::difference, (numbers, right, left), width)
            &&& #[trigger] call_ensures(N::difference, (numbers, top, bottom), height)
            &&& frame == (NormalizedFrame {
                x: left,
                y: from_top.unit_clamped(),
                width: width.greater(zero),
                height: height.greater(zero),
            })
        }
}

/// Moves the origin of a rectangle to the top left.
pub fn flip_to_top_left<N: Numbers>(numbers: &N, rect: VisionRect) -> (frame: NormalizedFrame)
    ensures
        flipped(numbers, rect, frame),
{
    let zero = Real { bits: ZERO };
    let one = Real { bits: ONE };
    let x = rect.x.or_zero();
    let y = rect.y.or_zero();
    let right_edge = numbers.sum(x, rect.width.or_zero());
    let top_edge = numbers.sum(y, rect.height.or_zero());
    let left = x.clamp_to_unit();
    let right = right_edge.clamp_to_unit();
    let bottom = y.clamp_to_unit();
    let top = top_edge.clamp_to_unit();
    let from_top = numbers.difference(one, top);
    let width = numbers.difference(right, left);
    let height = numbers.difference(top, bottom);
    let frame = NormalizedFrame {
        x: left,
        y: from_top.clamp_to_unit(),
        width: width.max(zero),
        height: height.max(zero),
    };
    assert(frame_between(numbers, left, right, bottom, top, frame));
    frame
}

/// Whether `r` is the smallest rectangle that covers both.
pub open spec fn united<N: Numbers>(
    numbers: &N,
    a: VisionRect,
    b: VisionRect,
    r: VisionRect,
) -> bool {
    exists|a_right: Real, b_right: Real, a_top: Real, b_top: Real|
        {
            &&& #[trigger] call_ensures(N::sum, (numbers, a.x, a.width), a_right)
            &&& #[trigger] call_ensures(N::sum, (numbers, b.x, b.width), b_right)
            &&& #[trigger] call_ensures(N::sum, (numbers, a.y, a.height), a_top)
            &&& #[trigger] call_ensures(N::sum, (numbers, b.y, b.height), b_top)
            &&& r.x == a.x.lesser(b.x)
            &&& r.y == a.y.lesser(b.y)
            &&& call_ensures(
                N::difference,
                (numbers, a_right.greater(b_right), r.x),
                r.width,
            )
            &&& call_ensures(N::difference, (numbers, a_top.greater(b_top), r.y), r.height)
        }
}

/// The smallest rectangle that covers both.
pub fn union<N: Numbers>(numbers: &N, a: VisionRect, b: VisionRect) -> (r: VisionRect)
    ensures
        united(numbers, a, b, r),
{
    let x = a.x.min(b.x);
    let y = a.y.min(b.y);
    let a_right = numbers.sum(a.x, a.width);
    let b_right = numbers.sum(b.x, b.width);
    let a_top = numbers.sum(a.y, a.height);
    let b_top = numbers.sum(b.y, b.height);
    let right = a_right.max(b_right);
    let top = a_top.max(b_top);
    VisionRect { x, y, width: numbers.difference(right, x), height: numbers.difference(top, y) }
}

// ---- matching ---------------------------------------------------------------

/// The first end, at or after `end`, where the text from `start` on is the
/// wanted text in lower case.
pub open spec fn folded_end(
    text: Seq<char>,
    folded: Seq<char>,
    start: int,
    end: int,
) -> Option<int>
    decreases text.len() + 1 - end,
{
    if start < 0 || end < start || end > text.len() {
        None
    } else {
        if lowercased(text.subrange(start, end)) == folded {
            Some(end)
        } else {
            folded_end(text, folded, start, end + 1)
        }
    }
}

/// The first place, at or after `start`, where a part of the text is the
/// wanted text in lower case.
pub open spec fn folded_range(text: Seq<char>, folded: Seq<char>, start: int) -> Option<(int, int)>
    decreases text.len() - start,
{
    if start < 0 || start >= text.len() {
        None
    } else {
        match folded_end(text, folded, start, start + 1) {
            Some(end) => Some((start, end)),
            None => folded_range(text, folded, start + 1),
        }
    }
}

/// Where `needle` first stands in `text`, by characters.
pub open spec fn range_within(
    text: Seq<char>,
    needle: Seq<char>,
    case_sensitive: bool,
) -> Option<(int, int)> {
    if needle.len() == 0 {
        None
    } else if case_sensitive {
        match first_from(text, needle, 0) {
            Some(start) => Some((start, start + needle.len())),
            None => None,
        }
    } else {
        folded_range(text, lowercased(needle), 0)
    }
}

/// Where a query matches a line, by characters.
pub open spec fn match_range(
    line: Seq<char>,
    query: Seq<char>,
    mode: TextMatchMode,
    case_sensitive: bool,
) -> Option<(int, int)> {
    match mode {
        TextMatchMode::Contains => range_within(line, query, case_sensitive),
        TextMatchMode::Exact => {
            let kept = trimmed(line);
            let equal = if case_sensitive {
                kept == query
            } else {
                lowercased(kept) == lowercased(query)
            };
            if equal {
                let start = match first_from(line, kept, 0) {
                    Some(at) => at,
                    None => 0,
                };
                Some((start, start + kept.len()))
            } else {
                None
            }
        },
    }
}

/// A range of characters, in bytes.
pub open spec fn in_bytes(text: Seq<char>, range: Option<(int, int)>) -> Option<(int, int)> {
    match range {
        Some((start, end)) => Some(
            (byte_len(text.take(start)) as int, byte_len(text.take(end)) as int),
        ),
        None => None,
    }
}

/// An optional pair of machine offsets as mathematical ones.
pub open spec fn opt_pair(o: Option<(usize, usize)>) -> Option<(int, int)> {
    match o {
        Some((a, b)) => Some((a as int, b as int)),
        None => None,
    }
}

/// The first place where a part of the text is the wanted text in lower case. A
/// part whose lower case is longer than that cannot go on to fit.
fn find_folded(chars: &Vec<char>, folded: &str) -> (r: Option<(usize, usize)>)
    ensures
        opt_pair(r) == folded_range(chars@, folded@, 0),
        r matches Some((start, end)) ==> start <= end <= chars@.len(),
{
    let wanted: usize = folded.unicode_len();
    let mut start: usize = 0;
    while start < chars.len()
        invariant
            start <= chars@.len(),
            wanted == folded@.len(),
            folded_range(chars@, folded@, 0) == folded_range(chars@, folded@, start as int),
        decreases chars@.len() - start,
    {
        let mut end: usize = start + 1;
        let mut going = true;
        while going
            invariant
                start < end,
                start < chars@.len(),
                going ==> end <= chars@.len(),
                wanted == folded@.len(),
                folded_range(chars@, folded@, 0) == folded_range(chars@, folded@, start as int),
                going ==> folded_end(chars@, folded@, start as int, start + 1) == folded_end(
                    chars@,
                    folded@,
                    start as int,
                    end as int,
                ),
                !going ==> folded_end(chars@, folded@, start as int, start + 1) is None,
            decreases chars@.len() + 1 - end + (if going { 1int } else { 0int }),
        {
            let candidate = slice_of(chars, start, end);
            let lower = candidate.as_str().to_lowercase();
            if same(&lower, folded) {
                return Some((start, end));
            }
            if lower.as_str().unicode_len() > wanted || end == chars.len() {
                going = false;
                proof {
                    assert forall|k: int| end <= k <= chars@.len() implies lowercased(
                        #[trigger] chars@.subrange(start as int, k),
                    ) != folded@ by {
                        let more = chars@.subrange(end as int, k);
                        assert(chars@.subrange(start as int, k) =~= candidate@ + more);
                    }
                    lemma_folded_end(chars@, folded@, start as int, end as int);
                }
            } else {
                end += 1;
            }
        }
        start += 1;
    }
    None
}

/// Where `needle` first stands in `haystack`, by characters.
fn find_chars(chars: &Vec<char>, needle: &str, case_sensitive: bool) -> (r: Option<(usize, usize)>)
    ensures
        opt_pair(r) == range_within(chars@, needle@, case_sensitive),
        r matches Some((start, end)) ==> start <= end <= chars@.len(),
{
    if needle.is_empty() {
        return None;
    }
    if case_sensitive {
        let wanted = chars_of(needle);
        proof {
            lemma_first_from(chars@, needle@, 0);
        }
        return match find_from(chars, &wanted, 0) {
            Some(start) => {
                assert(start + wanted@.len() <= chars.len());
                Some((start, start + wanted.len()))
            },
            None => None,
        };
    }
    find_folded(chars, &needle.to_lowercase())
}

/// Where `needle` first stands in `haystack`, as a byte range.
pub fn find_range(haystack: &str, needle: &str, case_sensitive: bool) -> (r: Option<(usize, usize)>)
    ensures
        opt_pair(r) == in_bytes(haystack@, range_within(haystack@, needle@, case_sensitive)),
{
    let chars = chars_of(haystack);
    match find_chars(&chars, needle, case_sensitive) {
        Some((start, end)) => Some(
            (byte_offset(haystack, &chars, start), byte_offset(haystack, &chars, end)),
        ),
        None => None,
    }
}

/// Where a query matches a line, as a byte range.
pub fn matched_range(line: &str, query: &str, mode: TextMatchMode, case_sensitive: bool) -> (r:
    Option<(usize, usize)>)
    ensures
        opt_pair(r) == in_bytes(line@, match_range(line@, query@, mode, case_sensitive)),
{
    match mode {
        TextMatchMode::Contains => find_range(line, query, case_sensitive),
        TextMatchMode::Exact => {
            let kept = trim(line);
            let equal = if case_sensitive {
                same(&kept, query)
            } else {
                same(&kept.as_str().to_lowercase(), &query.to_lowercase())
            };
            if !equal {
                return None;
            }
            let chars = chars_of(line);
            let kept_chars = chars_of(&kept);
            proof {
                lemma_first_from(chars@, kept@, 0);
                lemma_trimmed_occurs(line@);
            }
            let start: usize = match find_from(&chars, &kept_chars, 0) {
                Some(at) => at,
                None => 0,
            };
            assert(start + kept_chars@.len() <= chars.len());
            let end: usize = start + kept_chars.len();
            Some((byte_offset(line, &chars, start), byte_offset(line, &chars, end)))
        },
    }
}

/// A trimmed text stands in the text.
proof fn lemma_trimmed_occurs(text: Seq<char>)
    ensures
        exists|at: int| 0 <= at && occurs_at(text, trimmed(text), at),
{
    let at = lemma_trimmed_start(text);
    let rest = text.skip(at);
    lemma_trimmed_end(rest);
    let kept = trimmed(text);
    assert(text.subrange(at, at + kept.len()) =~= kept);
    assert(occurs_at(text, kept, at));
}

proof fn lemma_trimmed_start(text: Seq<char>) -> (at: int)
    ensures
        0 <= at <= text.len(),
        trimmed_start(text) == text.skip(at),
    decreases text.len(),
{
    if text.len() > 0 && whitespace(text[0]) {
        let at = lemma_trimmed_start(text.skip(1));
        assert(text.skip(1).skip(at) =~= text.skip(at + 1));
        at + 1
    } else {
        assert(text.skip(0) =~= text);
        0
    }
}

proof fn lemma_trimmed_end(text: Seq<char>)
    ensures
        trimmed_end(text).len() <= text.len(),
        trimmed_end(text) == text.take(trimmed_end(text).len() as int),
    decreases text.len(),
{
    if text.len() > 0 && whitespace(text.last()) {
        lemma_trimmed_end(text.drop_last());
        let n = trimmed_end(text).len() as int;
        assert(text.drop_last().take(n) =~= text.take(n));
    } else {
        assert(text.take(text.len() as int) =~= text);
    }
}

// ---- reading order ----------------------------------------------------------

/// A line with the frame of its own box.
#[derive(Debug, Clone, Copy)]
pub struct Row<'a> {
    pub frame: NormalizedFrame,
    pub line: &'a RecognizedLine,
}

/// Whether a text stands before another one: by their first different
/// characters, and a text before every longer one that starts with it.
pub open spec fn text_before(a: Seq<char>, b: Seq<char>) -> bool
    decreases a.len(),
{
    if b.len() == 0 {
        false
    } else if a.len() == 0 {
        true
    } else if a[0] != b[0] {
        a[0] < b[0]
    } else {
        text_before(a.skip(1), b.skip(1))
    }
}

/// Whether a row is read before another one: from top to bottom, then from
/// left to right, then by text.
pub open spec fn read_before(a: Row, b: Row) -> bool {
    if a.frame.y != b.frame.y {
        a.frame.y.place() < b.frame.y.place()
    } else if a.frame.x != b.frame.x {
        a.frame.x.place() < b.frame.x.place()
    } else {
        text_before(a.line.text@, b.line.text@)
    }
}

/// The rows with one more row behind every row that it is not read before.
pub open spec fn inserted<'a>(rows: Seq<Row<'a>>, row: Row<'a>) -> Seq<Row<'a>>
    decreases rows.len(),
{
    if rows.len() > 0 && read_before(row, rows.last()) {
        inserted(rows.drop_last(), row).push(rows.last())
    } else {
        rows.push(row)
    }
}

/// The rows in reading order. Rows that are read at the same place keep their
/// order.
pub open spec fn in_reading_order<'a>(rows: Seq<Row<'a>>) -> Seq<Row<'a>>
    decreases rows.len(),
{
    if rows.len() == 0 {
        seq![]
    } else {
        inserted(in_reading_order(rows.drop_last()), rows.last())
    }
}

fn stands_before(a: &str, b: &str) -> (answer: bool)
    ensures
        answer == text_before(a@, b@),
{
    let left = chars_of(a);
    let right = chars_of(b);
    let mut i: usize = 0;
    assert(a@.skip(0) =~= a@);
    assert(b@.skip(0) =~= b@);
    while i < left.len() && i < right.len()
        invariant
            i <= left@.len(),
            i <= right@.len(),
            left@ == a@,
            right@ == b@,
            text_before(a@, b@) == text_before(a@.skip(i as int), b@.skip(i as int)),
        decreases left@.len() - i,
    {
        if left[i] != right[i] {
            return left[i] < right[i];
        }
        assert(a@.skip(i as int).skip(1) =~= a@.skip(i + 1));
        assert(b@.skip(i as int).skip(1) =~= b@.skip(i + 1));
        i += 1;
    }
    i < right.len()
}

fn is_read_before(a: &Row, b: &Row) -> (answer: bool)
    ensures
        answer == read_before(*a, *b),
{
    proof {
        places_are_distinct(a.frame.y, b.frame.y);
        places_are_distinct(a.frame.x, b.frame.x);
    }
    if a.frame.y != b.frame.y {
        a.frame.y.stands_before(b.frame.y)
    } else if a.frame.x != b.frame.x {
        a.frame.x.stands_before(b.frame.x)
    } else {
        stands_before(&a.line.text, &b.line.text)
    }
}

/// Puts a row behind every row that it is not read before.
fn insert_row<'a>(rows: &mut Vec<Row<'a>>, row: Row<'a>)
    ensures
        final(rows)@ == inserted(old(rows)@, row),
{
    let ghost before = rows@;
    let mut at: usize = rows.len();
    assert(before.take(at as int) + before.skip(at as int) =~= before);
    while at > 0 && is_read_before(&row, &rows[at - 1])
        invariant
            at <= rows@.len(),
            rows@ == before,
            inserted(before, row) == inserted(before.take(at as int), row) + before.skip(at as int),
        decreases at,
    {
        proof {
            let head = before.take(at as int);
            assert(head.drop_last() =~= before.take(at - 1));
            assert(inserted(head, row) == inserted(before.take(at - 1), row).push(before[at - 1]));
            assert(inserted(before.take(at - 1), row).push(before[at - 1]) + before.skip(at as int)
                =~= inserted(before.take(at - 1), row) + before.skip(at - 1));
        }
        at -= 1;
    }
    rows.insert(at, row);
    assert(rows@ =~= before.take(at as int).push(row) + before.skip(at as int));
}

// ---- scanning ---------------------------------------------------------------

/// The confidence floor of a request.
pub open spec fn floor_of(request: FindTextRequest) -> Real {
    match request.min_confidence {
        Some(value) => value,
        None => Real { bits: DEFAULT_MIN_CONFIDENCE },
    }
}

/// Why a request is refused before anything is captured.
pub open spec fn request_refusal(request: FindTextRequest) -> Option<FindTextError> {
    if trimmed(request.text@).len() == 0 {
        Some(FindTextError::EmptyQuery)
    } else if !floor_of(request).in_unit() {
        Some(FindTextError::InvalidConfidence { value: floor_of(request) })
    } else {
        None
    }
}

/// Checks the parts of a request that need no pixels, and gives its
/// confidence floor.
pub fn validate(request: &FindTextRequest) -> (r: Result<Real, FindTextError>)
    ensures
        match request_refusal(*request) {
            Some(e) => r == Err::<Real, FindTextError>(e),
            None => r == Ok::<Real, FindTextError>(floor_of(*request)),
        },
{
    let query = trim(&request.text);
    if query.as_str().is_empty() {
        return Err(FindTextError::EmptyQuery);
    }
    let floor = match request.min_confidence {
        Some(value) => value,
        None => Real { bits: DEFAULT_MIN_CONFIDENCE },
    };
    if !floor.is_in_unit() {
        return Err(FindTextError::InvalidConfidence { value: floor });
    }
    Ok(floor)
}

/// The lines whose confidence is at least the floor.
pub open spec fn kept(lines: Seq<RecognizedLine>, floor: Real) -> Seq<RecognizedLine>
    decreases lines.len(),
{
    if lines.len() == 0 {
        seq![]
    } else {
        let before = kept(lines.drop_last(), floor);
        if floor.at_most(lines.last().confidence) {
            before.push(lines.last())
        } else {
            before
        }
    }
}

/// Whether the rows are these lines, each with the frame of its own box.
pub open spec fn laid_out<N: Numbers>(
    numbers: &N,
    lines: Seq<RecognizedLine>,
    rows: Seq<Row>,
) -> bool {
    rows.len() == lines.len() && forall|i: int|
        0 <= i < rows.len() ==> *(#[trigger] rows[i]).line == lines[i] && flipped(
            numbers,
            lines[i].bounds,
            rows[i].frame,
        )
}

/// Where the query of a request matches a line, in bytes.
pub open spec fn query_range(line: RecognizedLine, request: FindTextRequest) -> Option<(int, int)> {
    in_bytes(
        line.text@,
        match_range(line.text@, request.text@, request.mode, request.case_sensitive),
    )
}

/// The rows whose line matches.
pub open spec fn matching<'a>(rows: Seq<Row<'a>>, request: FindTextRequest) -> Seq<Row<'a>>
    decreases rows.len(),
{
    if rows.len() == 0 {
        seq![]
    } else {
        let before = matching(rows.drop_last(), request);
        if query_range(*rows.last().line, request) is Some {
            before.push(rows.last())
        } else {
            before
        }
    }
}

/// The boxes of the words that a byte range touches.
pub open spec fn touched(words: Seq<RecognizedWord>, range: (int, int)) -> Seq<VisionRect>
    decreases words.len(),
{
    if words.len() == 0 {
        seq![]
    } else {
        let before = touched(words.drop_last(), range);
        let word = words.last();
        if word.byte_start < range.1 && word.byte_end > range.0 {
            before.push(word.bounds)
        } else {
            before
        }
    }
}

/// Whether `r` covers all the boxes, taken in from the first one on.
pub open spec fn covered<N: Numbers>(numbers: &N, boxes: Seq<VisionRect>, r: Option<VisionRect>) -> bool
    decreases boxes.len(),
{
    if boxes.len() == 0 {
        r is None
    } else if boxes.len() == 1 {
        r == Some(boxes[0])
    } else {
        r is Some && exists|before: VisionRect| #[trigger]
            united(numbers, before, boxes.last(), r->0) && covered(
                numbers,
                boxes.drop_last(),
                Some(before),
            )
    }
}

/// Whether a frame is where a row matches: around the words that the match
/// touches, or the whole row when it has no such words.
pub open spec fn narrowed<N: Numbers>(
    numbers: &N,
    row: Row,
    range: (int, int),
    frame: NormalizedFrame,
    narrowed_to_words: bool,
) -> bool {
    let boxes = touched(row.line.words@, range);
    if boxes.len() == 0 {
        !narrowed_to_words && frame == row.frame
    } else {
        narrowed_to_words && exists|rect: VisionRect| #[trigger]
            covered(numbers, boxes, Some(rect)) && flipped(numbers, rect, frame)
    }
}

/// Whether a point is the middle of a side that starts at `from`.
pub open spec fn middle<N: Numbers>(numbers: &N, from: Real, length: Real, at: Real) -> bool {
    exists|half: Real| #[trigger]
        call_ensures(N::quotient, (numbers, length, Real { bits: TWO }), half) && call_ensures(
            N::sum,
            (numbers, from, half),
            at,
        )
}

/// Whether `found` is what is reported of a row that matches.
pub open spec fn reports<N: Numbers>(
    numbers: &N,
    row: Row,
    request: FindTextRequest,
    index: int,
    found: TextMatch,
) -> bool {
    &&& found.text@ == row.line.text@
    &&& found.confidence == row.line.confidence
    &&& found.index == index
    &&& query_range(*row.line, request) matches Some(range) && narrowed(
        numbers,
        row,
        range,
        found.frame,
        found.narrowed_to_words,
    )
    &&& middle(numbers, found.frame.x, found.frame.width, found.center_x)
    &&& middle(numbers, found.frame.y, found.frame.height, found.center_y)
}

/// Whether the matches are what is reported of these rows, one each.
pub open spec fn reports_all<N: Numbers>(
    numbers: &N,
    rows: Seq<Row>,
    request: FindTextRequest,
    found: Seq<TextMatch>,
) -> bool {
    found.len() == rows.len() && forall|i: int|
        0 <= i < found.len() ==> reports(numbers, rows[i], request, i, #[trigger] found[i])
}

/// The texts of the rows.
pub open spec fn row_texts(rows: Seq<Row>) -> Seq<Seq<char>> {
    rows.map_values(|row: Row| row.line.text@)
}

/// What a scan of recognized lines gave.
#[derive(Debug, Clone, PartialEq, Eq)]
pub struct MatchScan {
    /// The matches, in reading order.
    pub matches: Vec<TextMatch>,
    pub observation_count: usize,
    pub below_confidence_count: usize,
    pub min_confidence: Real,
    /// The text of every line that was kept, in reading order.
    pub recognized: Vec<String>,
}

/// Whether a scan is right for these lines.
pub open spec fn scanned<N: Numbers>(
    numbers: &N,
    lines: Seq<RecognizedLine>,
    request: FindTextRequest,
    scan: MatchScan,
) -> bool {
    &&& scan.observation_count == lines.len()
    &&& scan.below_confidence_count == lines.len() - kept(lines, floor_of(request)).len()
    &&& scan.min_confidence == floor_of(request)
    &&& exists|rows: Seq<Row>| #[trigger]
        laid_out(numbers, kept(lines, floor_of(request)), rows) && {
            let ordered = in_reading_order(rows);
            texts(scan.recognized@) == row_texts(ordered) && reports_all(
                numbers,
                matching(ordered, request),
                request,
                scan.matches@,
            )
        }
}

/// What a scan of these lines answers: its matches, or why the request is
/// refused.
pub open spec fn scan_answer<N: Numbers>(
    numbers: &N,
    lines: Seq<RecognizedLine>,
    request: FindTextRequest,
    r: Result<MatchScan, FindTextError>,
) -> bool {
    match request_refusal(request) {
        Some(e) => r == Err::<MatchScan, FindTextError>(e),
        None => r matches Ok(scan) && scanned(numbers, lines, request, scan),
    }
}

/// One more box behind the boxes that are covered.
proof fn lemma_covered_push<N: Numbers>(
    numbers: &N,
    boxes: Seq<VisionRect>,
    next: VisionRect,
    cover: Option<VisionRect>,
    grown: VisionRect,
)
    requires
        covered(numbers, boxes, cover),
        match cover {
            Some(rect) => united(numbers, rect, next, grown),
            None => grown == next,
        },
    ensures
        covered(numbers, boxes.push(next), Some(grown)),
{
    let after = boxes.push(next);
    let r = Some(grown);
    assert(after.drop_last() =~= boxes);
    if let Some(rect) = cover {
        assert(united(numbers, rect, after.last(), r->0));
        assert(covered(numbers, after.drop_last(), Some(rect)));
        assert(exists|before: VisionRect| #[trigger]
            united(numbers, before, after.last(), r->0) && covered(
                numbers,
                after.drop_last(),
                Some(before),
            ));
        assert(covered(numbers, after, r));
    }
}

/// Covers the boxes of the words that a byte range touches.
fn word_union<N: Numbers>(numbers: &N, line: &RecognizedLine, range: (usize, usize)) -> (r: Option<
    VisionRect,
>)
    ensures
        covered(numbers, touched(line.words@, (range.0 as int, range.1 as int)), r),
{
    let (start, end) = range;
    let mut cover: Option<VisionRect> = None;
    let mut i: usize = 0;
    let ghost wanted = (start as int, end as int);
    while i < line.words.len()
        invariant
            i <= line.words@.len(),
            wanted == (start as int, end as int),
            covered(numbers, touched(line.words@.take(i as int), wanted), cover),
        decreases line.words@.len() - i,
    {
        let word = line.words[i];
        let ghost before = touched(line.words@.take(i as int), wanted);
        assert(line.words@.take(i + 1).drop_last() =~= line.words@.take(i as int));
        if word.byte_start < end && word.byte_end > start {
            let grown = match cover {
                Some(rect) => union(numbers, rect, word.bounds),
                None => word.bounds,
            };
            proof {
                lemma_covered_push(numbers, before, word.bounds, cover, grown);
            }
            cover = Some(grown);
        }
        i += 1;
    }
    assert(line.words@.take(i as int) =~= line.words@);
    cover
}

/// Keeps the lines at or above the floor, each with the frame of its own box,
/// and puts them in reading order.
fn rows_of<'a, N: Numbers>(numbers: &N, lines: &'a [RecognizedLine], floor: Real) -> (r: Vec<
    Row<'a>,
>)
    ensures
        exists|rows: Seq<Row>| #[trigger]
            laid_out(numbers, kept(lines@, floor), rows) && r@ == in_reading_order(rows),
        r@.len() == kept(lines@, floor).len(),
        r@.len() <= lines@.len(),
{
    let mut sorted: Vec<Row> = Vec::new();
    let ghost mut rows: Seq<Row> = Seq::empty();
    let mut i: usize = 0;
    assert(lines@.take(0) =~= Seq::<RecognizedLine>::empty());
    while i < lines.len()
        invariant
            i <= lines@.len(),
            laid_out(numbers, kept(lines@.take(i as int), floor), rows),
            sorted@ == in_reading_order(rows),
            sorted@.len() == rows.len(),
            rows.len() <= i,
        decreases lines@.len() - i,
    {
        let line = &lines[i];
        assert(lines@.take(i + 1).drop_last() =~= lines@.take(i as int));
        if floor.is_at_most(line.confidence) {
            let row = Row { frame: flip_to_top_left(numbers, line.bounds), line };
            proof {
                assert(rows.push(row).drop_last() =~= rows);
                lemma_inserted_len(in_reading_order(rows), row);
            }
            insert_row(&mut sorted, row);
            proof {
                rows = rows.push(row);
            }
        }
        i += 1;
    }
    assert(lines@.take(i as int) =~= lines@);
    sorted
}

proof fn lemma_inserted_len<'a>(rows: Seq<Row<'a>>, row: Row<'a>)
    ensures
        inserted(rows, row).len() == rows.len() + 1,
    decreases rows.len(),
{
    if rows.len() > 0 {
        lemma_inserted_len(rows.drop_last(), row);
    }
}

/// Reports a row that matches.
fn report_match<N: Numbers>(
    numbers: &N,
    row: &Row,
    range: (usize, usize),
    index: usize,
    request: &FindTextRequest,
) -> (found: TextMatch)
    requires
        query_range(*row.line, *request) == Some((range.0 as int, range.1 as int)),
    ensures
        reports(numbers, *row, *request, index as int, found),
{
    let (frame, narrowed_to_words) = match word_union(numbers, row.line, range) {
        Some(rect) => (flip_to_top_left(numbers, rect), true),
        None => (row.frame, false),
    };
    let half_width = numbers.quotient(frame.width, Real { bits: TWO });
    let half_height = numbers.quotient(frame.height, Real { bits: TWO });
    TextMatch {
        text: row.line.text.clone(),
        confidence: row.line.confidence,
        frame,
        center_x: numbers.sum(frame.x, half_width),
        center_y: numbers.sum(frame.y, half_height),
        index,
        narrowed_to_words,
    }
}

/// Finds the text of a request in recognized lines.
pub fn scan_lines<N: Numbers>(numbers: &N, lines: &[RecognizedLine], request: &FindTextRequest) -> (r:
    Result<MatchScan, FindTextError>)
    ensures
        scan_answer(numbers, lines@, *request, r),
{
    let floor = match validate(request) {
        Ok(floor) => floor,
        Err(e) => return Err(e),
    };
    let rows = rows_of(numbers, lines, floor);
    let mut matches: Vec<TextMatch> = Vec::new();
    let mut recognized: Vec<String> = Vec::new();
    let mut i: usize = 0;
    while i < rows.len()
        invariant
            i <= rows@.len(),
            matches@.len() <= i,
            texts(recognized@) == row_texts(rows@.take(i as int)),
            reports_all(numbers, matching(rows@.take(i as int), *request), *request, matches@),
        decreases rows@.len() - i,
    {
        let row = &rows[i];
        proof {
            assert(rows@.take(i + 1).drop_last() =~= rows@.take(i as int));
            assert(row_texts(rows@.take(i + 1)) =~= row_texts(rows@.take(i as int)).push(
                row.line.text@,
            ));
        }
        let range = matched_range(
            &row.line.text,
            &request.text,
            request.mode,
            request.case_sensitive,
        );
        if let Some(range) = range {
            let found = report_match(numbers, row, range, matches.len(), request);
            matches.push(found);
        }
        let text = row.line.text.clone();
        proof {
            lemma_texts_push(recognized@, text);
        }
        recognized.push(text);
        i += 1;
    }
    assert(rows@.take(i as int) =~= rows@);
    Ok(
        MatchScan {
            matches,
            observation_count: lines.len(),
            below_confidence_count: lines.len() - rows.len(),
            min_confidence: floor,
            recognized,
        },
    )
}

// ---- answering --------------------------------------------------------------

/// How many recognized lines an error lists.
pub const SAMPLE_LEN: usize = 8;

/// The texts, each one quoted.
pub open spec fn all_quoted(list: Seq<Seq<char>>) -> Seq<Seq<char>> {
    list.map_values(|s: Seq<char>| quoted(s))
}

/// The first recognized lines, as an error lists them.
pub open spec fn sample(recognized: Seq<Seq<char>>) -> Seq<char> {
    if recognized.len() == 0 {
        seq![]
    } else if recognized.len() > SAMPLE_LEN {
        ": "@ + joined(all_quoted(recognized.take(SAMPLE_LEN as int)), ", "@) + ", …"@
    } else {
        ": "@ + joined(all_quoted(recognized), ", "@) + ""@
    }
}

fn sample_of(recognized: &Vec<String>) -> (out: String)
    ensures
        out@ == sample(texts(recognized@)),
{
    if recognized.len() == 0 {
        return String::new();
    }
    let limit: usize = if recognized.len() > SAMPLE_LEN {
        SAMPLE_LEN
    } else {
        recognized.len()
    };
    let ghost all = texts(recognized@);
    let mut listed: Vec<String> = Vec::new();
    let mut i: usize = 0;
    while i < limit
        invariant
            i <= limit <= recognized@.len(),
            all == texts(recognized@),
            texts(listed@) == all_quoted(all.take(i as int)),
        decreases limit - i,
    {
        let shown = quote(&recognized[i]);
        proof {
            lemma_texts_push(listed@, shown);
            assert(all_quoted(all.take(i + 1)) =~= all_quoted(all.take(i as int)).push(
                quoted(all[i as int]),
            ));
        }
        listed.push(shown);
        i += 1;
    }
    let mut out = ": ".to_owned();
    out.append(&join(&listed, ", "));
    if recognized.len() > SAMPLE_LEN {
        out.append(", …");
    } else {
        assert(all.take(i as int) =~= all);
        out.append("");
    }
    out
}

/// Whether two matches say the same.
pub open spec fn same_match(a: TextMatch, b: TextMatch) -> bool {
    &&& a.text@ == b.text@
    &&& a.confidence == b.confidence
    &&& a.frame == b.frame
    &&& a.center_x == b.center_x
    &&& a.center_y == b.center_y
    &&& a.index == b.index
    &&& a.narrowed_to_words == b.narrowed_to_words
}

/// The match that a request asks for; the first one when it does not say.
pub open spec fn wanted_index(request: FindTextRequest) -> usize {
    match request.index {
        Some(index) => index,
        None => 0,
    }
}

/// What picking a match of a scan answers.
pub open spec fn picked(
    scan: MatchScan,
    request: FindTextRequest,
    r: Result<TextMatch, FindTextError>,
) -> bool {
    let index = wanted_index(request);
    if scan.matches@.len() == 0 {
        r matches Err(FindTextError::NoMatch { query, observations, sample: s }) && query@
            == request.text@ && observations == scan.observation_count && s@ == sample(
            texts(scan.recognized@),
        )
    } else if index < scan.matches@.len() {
        r matches Ok(found) && same_match(found, scan.matches@[index as int])
    } else {
        r matches Err(FindTextError::IndexOutOfRange { query, index: i, matches: n }) && query@
            == request.text@ && i == index && n == scan.matches@.len()
    }
}

/// Picks the match that a request asks for.
pub fn pick_match(scan: &MatchScan, request: &FindTextRequest) -> (r: Result<
    TextMatch,
    FindTextError,
>)
    ensures
        picked(*scan, *request, r),
{
    if scan.matches.len() == 0 {
        return Err(
            FindTextError::NoMatch {
                query: request.text.clone(),
                observations: scan.observation_count,
                sample: sample_of(&scan.recognized),
            },
        );
    }
    let index: usize = match request.index {
        Some(index) => index,
        None => 0,
    };
    if index >= scan.matches.len() {
        return Err(
            FindTextError::IndexOutOfRange {
                query: request.text.clone(),
                index,
                matches: scan.matches.len(),
            },
        );
    }
    let found = &scan.matches[index];
    Ok(
        TextMatch {
            text: found.text.clone(),
            confidence: found.confidence,
            frame: found.frame,
            center_x: found.center_x,
            center_y: found.center_y,
            index: found.index,
            narrowed_to_words: found.narrowed_to_words,
        },
    )
}

/// Whether `r` is how a refusal is reported.
pub open spec fn refused<N: Numbers, T>(
    numbers: &N,
    e: FindTextError,
    r: Result<T, PolarizeError>,
) -> bool {
    r matches Err(PolarizeError::Platform(s)) && e.says(numbers, s@)
}

/// Whether `r` answers a request whose image gave these lines.
pub open spec fn find_answer<N: Numbers>(
    numbers: &N,
    image_width: u32,
    image_height: u32,
    lines: Seq<RecognizedLine>,
    request: FindTextRequest,
    r: Result<FindTextResponse, PolarizeError>,
) -> bool {
    exists|scan: Result<MatchScan, FindTextError>| #[trigger]
        scan_answer(numbers, lines, request, scan) && match scan {
            Err(e) => refused(numbers, e, r),
            Ok(s) => exists|found: Result<TextMatch, FindTextError>| #[trigger]
                picked(s, request, found) && match found {
                    Err(e) => refused(numbers, e, r),
                    Ok(matched) => r == Ok::<FindTextResponse, PolarizeError>(
                        FindTextResponse {
                            matched,
                            match_count: s.matches.len(),
                            observation_count: s.observation_count,
                            below_confidence_count: s.below_confidence_count,
                            min_confidence: s.min_confidence,
                            image_width,
                            image_height,
                        },
                    ),
                },
        }
}

/// Answers a request whose image gave these lines.
pub fn answer_find<N: Numbers>(
    numbers: &N,
    image_width: u32,
    image_height: u32,
    lines: &[RecognizedLine],
    request: &FindTextRequest,
) -> (r: Result<FindTextResponse, PolarizeError>)
    ensures
        find_answer(numbers, image_width, image_height, lines@, *request, r),
{
    let scanned = scan_lines(numbers, lines, request);
    let scan = match scanned {
        Ok(scan) => scan,
        Err(e) => {
            return Err(e.into_error(numbers));
        },
    };
    assert(scan_answer(numbers, lines@, *request, Ok(scan)));
    let picked_one = pick_match(&scan, request);
    assert(picked(scan, *request, picked_one));
    match picked_one {
        Ok(matched) => Ok(
            FindTextResponse {
                matched,
                match_count: scan.matches.len(),
                observation_count: scan.observation_count,
                below_confidence_count: scan.below_confidence_count,
                min_confidence: scan.min_confidence,
                image_width,
                image_height,
            },
        ),
        Err(e) => Err(e.into_error(numbers)),
    }
}

/// The reading of the text that follows a capture, and what is answered.
pub open spec fn read_and_found<N: Numbers, T: TextRecognizer>(
    numbers: &N,
    recognizer: &T,
    request: FindTextRequest,
    image: CapturedImage,
    before: Seq<Call>,
    after: Seq<Call>,
    r: Result<FindTextResponse, PolarizeError>,
) -> bool {
    exists|options: RecognizeOptions, lines: Result<Vec<RecognizedLine>, PolarizeError>|
        {
            &&& #[trigger] call_ensures(T::recognize_text, (recognizer, &image, &options), lines)
            &&& asks(options, request)
            &&& after == before.push(Call::Recognized { image, options, reply: lines })
            &&& match lines {
                Err(e) => r == Err::<FindTextResponse, PolarizeError>(e),
                Ok(found) => find_answer(
                    numbers,
                    image.width,
                    image.height,
                    found@,
                    request,
                    r,
                ),
            }
        }
}

/// The calls that finding a text makes, and what is answered. A request that is
/// refused makes none. `before` and `after` are the calls that the platform had
/// got before, and has got in the end.
pub open spec fn found_text<N: Numbers, C: ScreenCapture, T: TextRecognizer>(
    numbers: &N,
    capture: &C,
    recognizer: &T,
    request: FindTextRequest,
    before: Seq<Call>,
    after: Seq<Call>,
    r: Result<FindTextResponse, PolarizeError>,
) -> bool {
    let target = target_or_screen(request.target);
    match request_refusal(request) {
        Some(e) => after == before && refused(numbers, e, r),
        None => exists|image: Result<CapturedImage, PolarizeError>|
            #[trigger] captured(capture, target, image) && {
                let looked = before.push(capture_call(target, image));
                match image {
                    Err(e) => after == looked && r == Err::<FindTextResponse, PolarizeError>(e),
                    Ok(i) => read_and_found(numbers, recognizer, request, i, looked, after, r),
                }
            },
    }
}

/// Captures the target of a request, reads its text, and reports where the
/// wanted text stands.
pub fn perform_find_text_on<N: Numbers, C: ScreenCapture, T: TextRecognizer>(
    numbers: &N,
    platform: &mut Platform<C, T, ()>,
    request: &FindTextRequest,
) -> (r: Result<FindTextResponse, PolarizeError>)
    ensures
        final(platform).parts() == old(platform).parts(),
        found_text(
            numbers,
            old(platform).reader(),
            old(platform).doer(),
            *request,
            old(platform).calls(),
            final(platform).calls(),
            r,
        ),
{
    if let Err(e) = validate(request) {
        return Err(e.into_error(numbers));
    }
    let main_screen = ScreenshotTarget::Screen { display_id: None };
    let target = match &request.target {
        Some(target) => target,
        None => &main_screen,
    };
    let image = match capture_target(platform, target) {
        Ok(image) => image,
        Err(e) => return Err(e),
    };
    let options = request.recognize_options();
    match platform.recognize_text(&image, &options) {
        Ok(lines) => answer_find(numbers, image.width, image.height, &lines, request),
        Err(e) => Err(e),
    }
}

/// Captures the target of a request, reads its text, and reports where the
/// wanted text stands. A request that is refused captures nothing.
pub fn perform_find_text<N: Numbers, C: ScreenCapture, T: TextRecognizer>(
    numbers: &N,
    capture: &C,
    recognizer: &T,
    request: &FindTextRequest,
) -> (r: Result<FindTextResponse, PolarizeError>)
    ensures
        exists|calls: Seq<Call>|
            #[trigger] found_text(numbers, capture, recognizer, *request, seq![], calls, r),
{
    let mut platform = Platform::new(capture, recognizer, &());
    perform_find_text_on(numbers, &mut platform, request)
}

// ---- laws -------------------------------------------------------------------

/// Whether a stretch of a text is one of its words: it is not empty, holds no
/// whitespace, and reaches as far as it can on both sides.
pub open spec fn whole_word(text: Seq<char>, word: (int, int)) -> bool {
    &&& 0 <= word.0 < word.1 <= text.len()
    &&& forall|i: int| word.0 <= i < word.1 ==> !whitespace(#[trigger] text[i])
    &&& word.0 > 0 ==> whitespace(text[word.0 - 1])
    &&& word.1 < text.len() ==> whitespace(text[word.1])
}

proof fn lemma_open_word(text: Seq<char>, n: int)
    requires
        0 <= n <= text.len(),
    ensures
        match open_word(text, n) {
            Some(start) => 0 <= start < n && (forall|i: int|
                start <= i < n ==> !whitespace(#[trigger] text[i])) && (start > 0 ==> whitespace(
                text[start - 1],
            )),
            None => n > 0 ==> whitespace(text[n - 1]),
        },
    decreases n,
{
    if n > 0 {
        lemma_open_word(text, n - 1);
    }
}

/// Whether words come one after the other.
pub open spec fn apart(words: Seq<(int, int)>) -> bool {
    forall|i: int, j: int|
        0 <= i < j < words.len() ==> (#[trigger] words[i]).1 < (#[trigger] words[j]).0
}

/// Whether one of the words covers a place.
pub open spec fn in_a_word(words: Seq<(int, int)>, at: int) -> bool {
    exists|w: int| 0 <= w < words.len() && (#[trigger] words[w]).0 <= at < words[w].1
}

proof fn lemma_closed_words(text: Seq<char>, n: int)
    requires
        0 <= n <= text.len(),
    ensures
        apart(closed_words(text, n)),
        forall|w: int|
            0 <= w < closed_words(text, n).len() ==> whole_word(
                text,
                #[trigger] closed_words(text, n)[w],
            ) && closed_words(text, n)[w].1 < n,
        open_word(text, n) matches Some(start) ==> forall|w: int|
            0 <= w < closed_words(text, n).len() ==> (#[trigger] closed_words(text, n)[w]).1
                < start,
        forall|i: int|
            0 <= i < n && !whitespace(#[trigger] text[i]) ==> in_a_word(closed_words(text, n), i)
                || (open_word(text, n) matches Some(start) && start <= i),
    decreases n,
{
    if n > 0 {
        lemma_closed_words(text, n - 1);
        lemma_open_word(text, n - 1);
        let before = closed_words(text, n - 1);
        let after = closed_words(text, n);
        assert forall|i: int|
            0 <= i < n && !whitespace(#[trigger] text[i]) implies in_a_word(after, i) || (
        open_word(text, n) matches Some(start) && start <= i) by {
            if i < n - 1 {
                if in_a_word(before, i) {
                    let w = choose|w: int|
                        0 <= w < before.len() && (#[trigger] before[w]).0 <= i < before[w].1;
                    assert(after[w] == before[w]);
                } else if whitespace(text[n - 1]) {
                    assert(after[before.len() as int].0 <= i);
                }
            }
        }
    }
}

/// The words of a text are whole words, one after the other, and every
/// character that is no whitespace belongs to one of them.
pub proof fn words_cover_the_text(text: Seq<char>)
    ensures
        apart(words_of(text)),
        forall|w: int|
            0 <= w < words_of(text).len() ==> whole_word(text, #[trigger] words_of(text)[w]),
        forall|i: int|
            0 <= i < text.len() && !whitespace(#[trigger] text[i]) ==> in_a_word(words_of(text), i),
{
    let n = text.len() as int;
    lemma_closed_words(text, n);
    lemma_open_word(text, n);
    let closed = closed_words(text, n);
    let words = words_of(text);
    assert forall|i: int| 0 <= i < n && !whitespace(#[trigger] text[i]) implies in_a_word(
        words,
        i,
    ) by {
        if in_a_word(closed, i) {
            let w = choose|w: int|
                0 <= w < closed.len() && (#[trigger] closed[w]).0 <= i < closed[w].1;
            assert(words[w] == closed[w]);
        } else {
            assert(words[closed.len() as int].0 <= i);
        }
    }
}

proof fn lemma_folded_end(text: Seq<char>, folded: Seq<char>, start: int, end: int)
    requires
        0 <= start <= end,
    ensures
        match folded_end(text, folded, start, end) {
            Some(at) => end <= at <= text.len() && lowercased(text.subrange(start, at)) == folded
                && forall|k: int|
                end <= k < at ==> lowercased(#[trigger] text.subrange(start, k)) != folded,
            None => forall|k: int|
                end <= k <= text.len() ==> lowercased(#[trigger] text.subrange(start, k)) != folded,
        },
    decreases text.len() + 1 - end,
{
    if end <= text.len() && lowercased(text.subrange(start, end)) != folded {
        lemma_folded_end(text, folded, start, end + 1);
    }
}

/// A search that ignores case misses nothing. It finds nothing only when no part
/// of the text has the lower case of the wanted text. What it finds has it; no
/// part that starts earlier has it, and none that starts there and is shorter.
pub proof fn searches_miss_nothing(text: Seq<char>, folded: Seq<char>, from: int)
    requires
        0 <= from,
    ensures
        match folded_range(text, folded, from) {
            None => forall|i: int, j: int|
                from <= i < j <= text.len() ==> lowercased(#[trigger] text.subrange(i, j))
                    != folded,
            Some((start, end)) => {
                &&& from <= start < end <= text.len()
                &&& lowercased(text.subrange(start, end)) == folded
                &&& forall|i: int, j: int|
                    from <= i < start && i < j <= text.len() ==> lowercased(
                        #[trigger] text.subrange(i, j),
                    ) != folded
                &&& forall|j: int|
                    start < j < end ==> lowercased(#[trigger] text.subrange(start, j)) != folded
            },
        },
    decreases text.len() - from,
{
    if from < text.len() {
        lemma_folded_end(text, folded, from, from + 1);
        if folded_end(text, folded, from, from + 1) is None {
            searches_miss_nothing(text, folded, from + 1);
        }
    }
}

/// What a match covers is the wanted text: letter for letter when case
/// counts, and in lower case when it does not.
pub proof fn matched_text_is_wanted(
    line: Seq<char>,
    query: Seq<char>,
    mode: TextMatchMode,
    case_sensitive: bool,
)
    ensures
        match_range(line, query, mode, case_sensitive) matches Some((start, end)) ==> 0 <= start
            <= end <= line.len() && if case_sensitive {
            line.subrange(start, end) == query
        } else {
            lowercased(line.subrange(start, end)) == lowercased(query)
        },
{
    lemma_first_from(line, query, 0);
    lemma_first_from(line, trimmed(line), 0);
    lemma_trimmed_occurs(line);
    searches_miss_nothing(line, lowercased(query), 0);
}

/// When case counts, a text that is not empty is found exactly where the line
/// holds it.
pub proof fn held_text_is_found(line: Seq<char>, query: Seq<char>)
    requires
        query.len() > 0,
    ensures
        match_range(line, query, TextMatchMode::Contains, true) is Some <==> contains(line, query),
{
    lemma_contains_is_found(line, query);
}

/// When case does not count, a text that is not empty is found exactly when some
/// part of the line has its lower case.
pub proof fn held_text_is_found_in_any_case(line: Seq<char>, query: Seq<char>)
    requires
        query.len() > 0,
    ensures
        match_range(line, query, TextMatchMode::Contains, false) is Some <==> exists|
            i: int,
            j: int,
        |
            0 <= i < j <= line.len() && lowercased(#[trigger] line.subrange(i, j)) == lowercased(
                query,
            ),
{
    searches_miss_nothing(line, lowercased(query), 0);
}

/// A line that is exactly the wanted text, letter for letter, also holds it.
pub proof fn exact_match_is_held(line: Seq<char>, query: Seq<char>)
    requires
        match_range(line, query, TextMatchMode::Exact, true) is Some,
    ensures
        contains(line, query),
{
    lemma_trimmed_occurs(line);
}

proof fn lemma_text_order(a: Seq<char>, b: Seq<char>, c: Seq<char>)
    ensures
        !(text_before(a, b) && text_before(b, a)),
        !text_before(b, a) && !text_before(c, b) ==> !text_before(c, a),
    decreases a.len() + b.len() + c.len(),
{
    if a.len() > 0 && b.len() > 0 && c.len() > 0 {
        lemma_text_order(a.skip(1), b.skip(1), c.skip(1));
    } else if a.len() > 0 && b.len() > 0 {
        lemma_text_order(a.skip(1), b.skip(1), c);
    }
}

proof fn lemma_read_order(a: Row, b: Row, c: Row)
    ensures
        !(read_before(a, b) && read_before(b, a)),
        !read_before(b, a) && !read_before(c, b) ==> !read_before(c, a),
{
    lemma_text_order(a.line.text@, b.line.text@, c.line.text@);
    places_are_distinct(a.frame.y, b.frame.y);
    places_are_distinct(b.frame.y, c.frame.y);
    places_are_distinct(a.frame.y, c.frame.y);
    places_are_distinct(a.frame.x, b.frame.x);
    places_are_distinct(b.frame.x, c.frame.x);
    places_are_distinct(a.frame.x, c.frame.x);
}

/// Whether no row is read before one that stands in front of it.
pub open spec fn ordered(rows: Seq<Row>) -> bool {
    forall|i: int, j: int|
        0 <= i < j < rows.len() ==> !read_before(#[trigger] rows[j], #[trigger] rows[i])
}

proof fn lemma_inserted<'a>(rows: Seq<Row<'a>>, row: Row<'a>)
    requires
        ordered(rows),
    ensures
        ordered(inserted(rows, row)),
        inserted(rows, row).to_multiset() == rows.to_multiset().insert(row),
        inserted(rows, row).len() == rows.len() + 1,
        forall|i: int|
            0 <= i < inserted(rows, row).len() ==> #[trigger] inserted(rows, row)[i] == row || exists|
                j: int,
            |
                0 <= j < rows.len() && rows[j] == inserted(rows, row)[i],
    decreases rows.len(),
{
    broadcast use vstd::seq_lib::group_to_multiset_ensures;

    if rows.len() > 0 && read_before(row, rows.last()) {
        let head = rows.drop_last();
        let tail = rows.last();
        lemma_inserted(head, row);
        let inner = inserted(head, row);
        let all = inner.push(tail);
        assert(head.push(tail) =~= rows);
        assert(all.to_multiset() =~= rows.to_multiset().insert(row));
        assert forall|i: int, j: int| 0 <= i < j < all.len() implies !read_before(
            #[trigger] all[j],
            #[trigger] all[i],
        ) by {
            if j == inner.len() {
                if all[i] == row {
                    lemma_read_order(row, tail, row);
                } else {
                    let k = choose|k: int| 0 <= k < head.len() && head[k] == inner[i];
                    assert(rows[k] == all[i]);
                }
            }
        }
        assert forall|i: int| 0 <= i < all.len() implies #[trigger] all[i] == row || exists|j: int|
            0 <= j < rows.len() && rows[j] == all[i] by {
            if i < inner.len() && inner[i] != row {
                let k = choose|k: int| 0 <= k < head.len() && head[k] == inner[i];
                assert(rows[k] == all[i]);
            } else if i == inner.len() {
                assert(rows[rows.len() - 1] == all[i]);
            }
        }
    } else {
        let all = rows.push(row);
        assert forall|i: int, j: int| 0 <= i < j < all.len() implies !read_before(
            #[trigger] all[j],
            #[trigger] all[i],
        ) by {
            if j == rows.len() && i < rows.len() - 1 {
                lemma_read_order(rows[i], rows.last(), row);
            }
        }
        assert forall|i: int| 0 <= i < all.len() implies #[trigger] all[i] == row || exists|j: int|
            0 <= j < rows.len() && rows[j] == all[i] by {
            if i < rows.len() {
                assert(rows[i] == all[i]);
            }
        }
    }
}

/// Reading order drops no row, adds none, and puts no row in front of one that
/// is read before it.
pub proof fn reading_order_sorts(rows: Seq<Row>)
    ensures
        ordered(in_reading_order(rows)),
        in_reading_order(rows).to_multiset() == rows.to_multiset(),
        in_reading_order(rows).len() == rows.len(),
    decreases rows.len(),
{
    broadcast use vstd::seq_lib::group_to_multiset_ensures;

    if rows.len() > 0 {
        reading_order_sorts(rows.drop_last());
        lemma_inserted(in_reading_order(rows.drop_last()), rows.last());
        assert(rows.drop_last().push(rows.last()) =~= rows);
    }
}

/// Rows that are in reading order stay where they are.
pub proof fn reading_order_is_stable(rows: Seq<Row>)
    requires
        ordered(rows),
    ensures
        in_reading_order(rows) == rows,
    decreases rows.len(),
{
    if rows.len() > 0 {
        let head = rows.drop_last();
        assert(ordered(head));
        reading_order_is_stable(head);
        assert(head.push(rows.last()) =~= rows);
    }
}

proof fn lemma_matching(rows: Seq<Row>, request: FindTextRequest)
    ensures
        ordered(rows) ==> ordered(matching(rows, request)),
        forall|i: int|
            0 <= i < matching(rows, request).len() ==> rows.contains(
                #[trigger] matching(rows, request)[i],
            ) && query_range(*matching(rows, request)[i].line, request) is Some,
    decreases rows.len(),
{
    if rows.len() > 0 {
        let head = rows.drop_last();
        lemma_matching(head, request);
        let before = matching(head, request);
        let all = matching(rows, request);
        assert forall|i: int| 0 <= i < all.len() implies rows.contains(#[trigger] all[i])
            && query_range(*all[i].line, request) is Some by {
            if i < before.len() {
                let k = choose|k: int| 0 <= k < head.len() && head[k] == before[i];
                assert(rows[k] == all[i]);
            } else {
                assert(rows[rows.len() - 1] == all[i]);
            }
        }
        if ordered(rows) {
            assert(ordered(head));
            assert forall|i: int, j: int| 0 <= i < j < all.len() implies !read_before(
                #[trigger] all[j],
                #[trigger] all[i],
            ) by {
                if j == before.len() {
                    assert(head.contains(before[i]));
                    let k = choose|k: int| 0 <= k < head.len() && head[k] == before[i];
                    assert(rows[k] == all[i]);
                    assert(rows[rows.len() - 1] == all[j]);
                }
            }
        }
    }
}

/// Matches come back from top to bottom, then from left to right, and each of
/// them is a row whose line matches.
pub proof fn matches_are_in_reading_order(rows: Seq<Row>, request: FindTextRequest)
    ensures
        ordered(matching(in_reading_order(rows), request)),
        forall|i: int|
            0 <= i < matching(in_reading_order(rows), request).len() ==> query_range(
                *(#[trigger] matching(in_reading_order(rows), request)[i]).line,
                request,
            ) is Some,
{
    reading_order_sorts(rows);
    lemma_matching(in_reading_order(rows), request);
}

/// A line below the floor is never kept, and every other line is.
pub proof fn floor_decides(lines: Seq<RecognizedLine>, floor: Real)
    ensures
        kept(lines, floor) == lines.filter(|line: RecognizedLine| floor.at_most(line.confidence)),
        forall|i: int|
            0 <= i < kept(lines, floor).len() ==> floor.at_most(
                (#[trigger] kept(lines, floor)[i]).confidence,
            ),
        kept(lines, floor).len() <= lines.len(),
    decreases lines.len(),
{
    reveal(Seq::filter);
    if lines.len() > 0 {
        floor_decides(lines.drop_last(), floor);
    }
}

/// A frame's left edge lies in `0.0..=1.0`, and neither side is negative or
/// unordered.
pub proof fn flipped_frame_is_sane<N: Numbers>(
    numbers: &N,
    rect: VisionRect,
    frame: NormalizedFrame,
)
    requires
        flipped(numbers, rect, frame),
    ensures
        frame.x.in_unit(),
        (Real { bits: ZERO }).at_most(frame.width),
        (Real { bits: ZERO }).at_most(frame.height),
        frame.y.in_unit() || frame.y.nan(),
{
}

/// The floor of a request that is not refused lies in `0.0..=1.0`, and the
/// default floor does too.
pub proof fn accepted_floor_is_in_unit(request: FindTextRequest)
    ensures
        request_refusal(request) is None ==> floor_of(request).in_unit(),
        (Real { bits: DEFAULT_MIN_CONFIDENCE }).in_unit(),
{
}

/// Finding a text captures at most once, reads the text of that image at most
/// once, and does nothing else. A refused request does neither. An answer comes
/// only from an image that was captured and read.
pub proof fn refused_searches_capture_nothing<N: Numbers, C: ScreenCapture, T: TextRecognizer>(
    numbers: &N,
    capture: &C,
    recognizer: &T,
    request: FindTextRequest,
    before: Seq<Call>,
    after: Seq<Call>,
    r: Result<FindTextResponse, PolarizeError>,
)
    requires
        found_text(numbers, capture, recognizer, request, before, after, r),
    ensures
        request_refusal(request) is Some <==> after == before,
        after.len() <= before.len() + 2,
        r is Ok ==> after.len() == before.len() + 2 && after.last() is Recognized && after[(
        after.len() - 2) as int] == capture_call(
            target_or_screen(request.target),
            Ok(after.last()->Recognized_image),
        ),
{
    if request_refusal(request) is None {
        assert(after.len() > before.len());
    }
}

/// A word counts for a match exactly when it shares a byte with it, and the boxes
/// of the words that count stand in the order of the words. A word that holds no
/// byte counts where the match goes on before and behind it.
pub proof fn words_count_when_they_share_a_byte(
    words: Seq<RecognizedWord>,
    range: (int, int),
)
    requires
        forall|i: int|
            0 <= i < words.len() ==> (#[trigger] words[i]).byte_start <= words[i].byte_end,
        range.0 < range.1,
    ensures
        touched(words, range) == words.filter(
            |word: RecognizedWord|
                (exists|b: int|
                    #[trigger] holds_byte(word, b) && range.0 <= b < range.1) || range.0 < word.byte_start == word.byte_end < range.1,
        ).map_values(|word: RecognizedWord| word.bounds),
        forall|i: int|
            0 <= i < words.len() && (exists|b: int|
                #[trigger] holds_byte(words[i], b) && range.0 <= b < range.1) ==> touched(words, range).contains(words[i].bounds),
    decreases words.len(),
{
    reveal(Seq::filter);
    let counts = |word: RecognizedWord|
        (exists|b: int|
            #[trigger] holds_byte(word, b) && range.0 <= b < range.1) || range.0 < word.byte_start == word.byte_end < range.1;
    let bounds = |word: RecognizedWord| word.bounds;
    if words.len() > 0 {
        let rest = words.drop_last();
        let word = words.last();
        assert forall|i: int| 0 <= i < rest.len() implies (#[trigger] rest[i]).byte_start
            <= rest[i].byte_end by {
            assert(rest[i] == words[i]);
        }
        assert(words[words.len() - 1].byte_start <= words[words.len() - 1].byte_end);
        words_count_when_they_share_a_byte(rest, range);
        if word.byte_start < range.1 && word.byte_end > range.0 && word.byte_start
            < word.byte_end {
            let b = if word.byte_start > range.0 {
                word.byte_start as int
            } else {
                range.0
            };
            assert(holds_byte(word, b));
        }
        assert(counts(word) == (word.byte_start < range.1 && word.byte_end > range.0));
        let earlier = rest.filter(counts);
        if counts(word) {
            assert(words.filter(counts) == earlier.push(word));
            assert(earlier.push(word).map_values(bounds) =~= earlier.map_values(bounds).push(
                word.bounds,
            ));
            assert(touched(words, range)[touched(rest, range).len() as int] == word.bounds);
        }
        assert forall|i: int|
            0 <= i < words.len() && (exists|b: int|
                #[trigger] holds_byte(words[i], b) && range.0 <= b < range.1) implies touched(words, range).contains(
            words[i].bounds,
        ) by {
            if i < rest.len() {
                assert(rest[i] == words[i]);
                let k = choose|k: int|
                    0 <= k < touched(rest, range).len() && touched(rest, range)[k]
                        == words[i].bounds;
                assert(touched(words, range)[k] == words[i].bounds);
            }
        }
    } else {
        assert(touched(words, range) =~= words.filter(counts).map_values(bounds));
    }
}

/// Whether a word holds a byte of its line.
pub open spec fn holds_byte(word: RecognizedWord, b: int) -> bool {
    word.byte_start <= b < word.byte_end
}

/// A match is narrowed to words exactly when a word shares a byte with it, or
/// stands inside it without one. The frame is then that of a rectangle that
/// covers the box of each such word; else it is that of the whole line.
pub proof fn matches_are_narrowed_to_their_words<N: Numbers>(
    numbers: &N,
    row: Row,
    range: (int, int),
    frame: NormalizedFrame,
    narrowed_to_words: bool,
)
    requires
        narrowed(numbers, row, range, frame, narrowed_to_words),
        forall|i: int|
            0 <= i < row.line.words@.len() ==> (#[trigger] row.line.words@[i]).byte_start
                < row.line.words@[i].byte_end,
        range.0 < range.1,
    ensures
        narrowed_to_words <==> exists|i: int, b: int|
            0 <= i < row.line.words@.len() && #[trigger] holds_byte(row.line.words@[i], b) && range.0 <= b < range.1,
        !narrowed_to_words ==> frame == row.frame,
        narrowed_to_words ==> exists|rect: VisionRect|
            #[trigger] flipped(numbers, rect, frame) && forall|i: int, b: int|
                0 <= i < row.line.words@.len() && #[trigger] holds_byte(row.line.words@[i], b) && range.0 <= b < range.1
                    && !row.line.words@[i].bounds.x.nan() && !row.line.words@[i].bounds.y.nan()
                    ==> rect.x.at_most(row.line.words@[i].bounds.x) && rect.y.at_most(
                    row.line.words@[i].bounds.y,
                ),
        forall|i: int|
            0 <= i < row.line.words@.len() && (exists|b: int|
                #[trigger] holds_byte(row.line.words@[i], b) && range.0 <= b < range.1) && (forall|j: int, b: int|
                0 <= j < row.line.words@.len() && #[trigger] holds_byte(row.line.words@[j], b) && range.0 <= b < range.1
                    ==> j == i) ==> flipped(numbers, row.line.words@[i].bounds, frame),
{
    let words = row.line.words@;
    let boxes = touched(words, range);
    words_count_when_they_share_a_byte(words, range);
    lemma_touched(words, range);
    if boxes.len() > 0 {
        let rect = choose|rect: VisionRect| #[trigger]
            covered(numbers, boxes, Some(rect)) && flipped(numbers, rect, frame);
        lemma_covered(numbers, boxes, rect);
        assert forall|i: int, b: int|
            0 <= i < words.len() && #[trigger] holds_byte(words[i], b) && range.0 <= b < range.1 && !words[i].bounds.x.nan()
                && !words[i].bounds.y.nan() implies rect.x.at_most(words[i].bounds.x)
            && rect.y.at_most(words[i].bounds.y) by {
            assert(boxes.contains(words[i].bounds));
            let k = choose|k: int| 0 <= k < boxes.len() && boxes[k] == words[i].bounds;
            assert(boxes[k] == words[i].bounds);
        }
        assert forall|i: int|
            0 <= i < words.len() && (exists|b: int|
                #[trigger] holds_byte(words[i], b) && range.0 <= b < range.1) && (forall|j: int, b: int|
                0 <= j < words.len() && #[trigger] holds_byte(words[j], b) && range.0 <= b < range.1 ==> j == i) implies flipped(
            numbers,
            words[i].bounds,
            frame,
        ) by {
            lemma_touched_once(words, range, i);
            assert(rect == words[i].bounds);
        }
    }
}

/// The boxes that count come from words that count.
proof fn lemma_touched(words: Seq<RecognizedWord>, range: (int, int))
    requires
        forall|i: int|
            0 <= i < words.len() ==> (#[trigger] words[i]).byte_start < words[i].byte_end,
        range.0 < range.1,
    ensures
        touched(words, range).len() > 0 ==> exists|i: int, b: int|
            0 <= i < words.len() && #[trigger] holds_byte(words[i], b) && range.0 <= b < range.1,
    decreases words.len(),
{
    if touched(words, range).len() > 0 {
        let word = words.last();
        let last = words.len() - 1;
        if word.byte_start < range.1 && word.byte_end > range.0 {
            let b = if word.byte_start > range.0 {
                word.byte_start as int
            } else {
                range.0
            };
            assert(words[last].byte_start < words[last].byte_end);
            assert(holds_byte(words[last], b));
        } else {
            let rest = words.drop_last();
            assert forall|i: int| 0 <= i < rest.len() implies (#[trigger] rest[i]).byte_start
                < rest[i].byte_end by {
                assert(rest[i] == words[i]);
            }
            lemma_touched(rest, range);
            let (i, b) = choose|i: int, b: int|
                0 <= i < rest.len() && #[trigger] holds_byte(rest[i], b) && range.0 <= b < range.1;
            assert(words[i] == rest[i]);
        }
    }
}

/// Where one word alone counts, its box alone does.
proof fn lemma_touched_once(words: Seq<RecognizedWord>, range: (int, int), i: int)
    requires
        forall|k: int|
            0 <= k < words.len() ==> (#[trigger] words[k]).byte_start < words[k].byte_end,
        range.0 < range.1,
        0 <= i < words.len(),
        words[i].byte_start < range.1 && words[i].byte_end > range.0,
        forall|j: int, b: int|
            0 <= j < words.len() && #[trigger] holds_byte(words[j], b) && range.0 <= b < range.1 ==> j == i,
    ensures
        touched(words, range) == seq![words[i].bounds],
    decreases words.len(),
{
    let rest = words.drop_last();
    assert forall|k: int| 0 <= k < rest.len() implies (#[trigger] rest[k]).byte_start
        < rest[k].byte_end by {
        assert(rest[k] == words[k]);
    }
    if i == words.len() - 1 {
        lemma_touched(rest, range);
        if touched(rest, range).len() > 0 {
            let (j, b) = choose|j: int, b: int|
                0 <= j < rest.len() && #[trigger] holds_byte(rest[j], b) && range.0 <= b < range.1;
            assert(words[j] == rest[j]);
        }
        assert(touched(words, range) =~= seq![words[i].bounds]);
    } else {
        let last = words.len() - 1;
        if words[last].byte_start < range.1 && words[last].byte_end > range.0 {
            let b = if words[last].byte_start > range.0 {
                words[last].byte_start as int
            } else {
                range.0
            };
            assert(holds_byte(words[last], b));
        }
        assert(rest[i] == words[i]);
        assert forall|j: int, b: int|
            0 <= j < rest.len() && #[trigger] holds_byte(rest[j], b) && range.0 <= b < range.1 implies j == i by {
            assert(words[j] == rest[j]);
        }
        lemma_touched_once(rest, range, i);
    }
}

/// A rectangle that covers boxes starts no further right and no higher than any
/// of them.
proof fn lemma_covered<N: Numbers>(numbers: &N, boxes: Seq<VisionRect>, rect: VisionRect)
    requires
        covered(numbers, boxes, Some(rect)),
    ensures
        boxes.len() > 0,
        boxes.len() == 1 ==> rect == boxes[0],
        forall|k: int|
            0 <= k < boxes.len() && !(#[trigger] boxes[k]).x.nan() ==> rect.x.at_most(boxes[k].x),
        forall|k: int|
            0 <= k < boxes.len() && !(#[trigger] boxes[k]).y.nan() ==> rect.y.at_most(boxes[k].y),
    decreases boxes.len(),
{
    if boxes.len() > 1 {
        let before = choose|before: VisionRect| #[trigger]
            united(numbers, before, boxes.last(), rect) && covered(
                numbers,
                boxes.drop_last(),
                Some(before),
            );
        lemma_covered(numbers, boxes.drop_last(), before);
        assert forall|k: int| 0 <= k < boxes.len() && !(#[trigger] boxes[k]).x.nan() implies
            rect.x.at_most(boxes[k].x) by {
            if k < boxes.len() - 1 {
                assert(boxes.drop_last()[k] == boxes[k]);
            }
        }
        assert forall|k: int| 0 <= k < boxes.len() && !(#[trigger] boxes[k]).y.nan() implies
            rect.y.at_most(boxes[k].y) by {
            if k < boxes.len() - 1 {
                assert(boxes.drop_last()[k] == boxes[k]);
            }
        }
    }
}

/// The smallest rectangle over two has a corner that is no further right and no
/// higher than theirs, and is measured from there to an edge that is no further
/// left and no lower than theirs. Each of its edges is an edge of one of them.
pub proof fn unions_reach_from_edge_to_edge<N: Numbers>(
    numbers: &N,
    a: VisionRect,
    b: VisionRect,
    r: VisionRect,
)
    requires
        united(numbers, a, b, r),
        !a.x.nan() && !b.x.nan() && !a.y.nan() && !b.y.nan(),
    ensures
        r.x == a.x || r.x == b.x,
        r.y == a.y || r.y == b.y,
        r.x.at_most(a.x) && r.x.at_most(b.x),
        r.y.at_most(a.y) && r.y.at_most(b.y),
        exists|a_right: Real, b_right: Real, right: Real|
            {
                &&& #[trigger] call_ensures(N::sum, (numbers, a.x, a.width), a_right)
                &&& #[trigger] call_ensures(N::sum, (numbers, b.x, b.width), b_right)
                &&& #[trigger] call_ensures(N::difference, (numbers, right, r.x), r.width)
                &&& right == a_right || right == b_right
                &&& !a_right.nan() ==> a_right.at_most(right)
                &&& !b_right.nan() ==> b_right.at_most(right)
            },
        exists|a_top: Real, b_top: Real, top: Real|
            {
                &&& #[trigger] call_ensures(N::sum, (numbers, a.y, a.height), a_top)
                &&& #[trigger] call_ensures(N::sum, (numbers, b.y, b.height), b_top)
                &&& #[trigger] call_ensures(N::difference, (numbers, top, r.y), r.height)
                &&& top == a_top || top == b_top
                &&& !a_top.nan() ==> a_top.at_most(top)
                &&& !b_top.nan() ==> b_top.at_most(top)
            },
{
}

/// A box inside the image keeps its left edge. Its top edge, which it measures
/// from the bottom, is measured from the top: what is left of the whole above it.
/// Its width lies between its left and its right edge, and its height between its
/// bottom and its top edge.
pub proof fn flipped_boxes_hang_from_the_top<N: Numbers>(
    numbers: &N,
    rect: VisionRect,
    frame: NormalizedFrame,
    right: Real,
    top: Real,
)
    requires
        steady(numbers),
        flipped(numbers, rect, frame),
        rect.x.in_unit() && rect.y.in_unit() && rect.width.finite() && rect.height.finite(),
        call_ensures(N::sum, (numbers, rect.x, rect.width), right),
        call_ensures(N::sum, (numbers, rect.y, rect.height), top),
        right.in_unit() && top.in_unit(),
    ensures
        frame.x == rect.x,
        exists|from_top: Real, width: Real, height: Real|
            {
                &&& #[trigger] call_ensures(
                    N::difference,
                    (numbers, Real { bits: 0x3FF0_0000_0000_0000 }, top),
                    from_top,
                )
                &&& #[trigger] call_ensures(N::difference, (numbers, right, rect.x), width)
                &&& #[trigger] call_ensures(N::difference, (numbers, top, rect.y), height)
                &&& from_top.in_unit() ==> frame.y == from_top
                &&& (Real { bits: 0 }).at_most(width) && width.rank() > 0 ==> frame.width == width
                &&& (Real { bits: 0 }).at_most(height) && height.rank() > 0 ==> frame.height
                    == height
            },
{
}

/// What a match reports is where to tap: the centre of its frame, half its width
/// from its left edge and half its height from its top edge.
pub proof fn centres_lie_half_way<N: Numbers>(
    numbers: &N,
    row: Row,
    request: FindTextRequest,
    index: int,
    found: TextMatch,
)
    requires
        reports(numbers, row, request, index, found),
    ensures
        exists|half: Real|
            #[trigger] call_ensures(
                N::quotient,
                (numbers, found.frame.width, Real { bits: 0x4000_0000_0000_0000 }),
                half,
            ) && call_ensures(N::sum, (numbers, found.frame.x, half), found.center_x),
        exists|half: Real|
            #[trigger] call_ensures(
                N::quotient,
                (numbers, found.frame.height, Real { bits: 0x4000_0000_0000_0000 }),
                half,
            ) && call_ensures(N::sum, (numbers, found.frame.y, half), found.center_y),
        found.text@ == row.line.text@,
        found.confidence == row.line.confidence,
        found.index == index,
{
}

/// Texts are ordered by their first different characters; a text comes before
/// every longer one that starts with it.
pub proof fn texts_are_ordered_by_characters(a: Seq<char>, b: Seq<char>)
    ensures
        text_before(a, b) <==> exists|k: int|
            0 <= k <= a.len() && k < b.len() && #[trigger] a.take(k) == b.take(k) && (k == a.len()
                || a[k] < b[k]),
    decreases a.len(),
{
    if a.len() > 0 && b.len() > 0 && a[0] == b[0] {
        let x = a.skip(1);
        let y = b.skip(1);
        texts_are_ordered_by_characters(x, y);
        if text_before(a, b) {
            let k = choose|k: int|
                0 <= k <= x.len() && k < y.len() && #[trigger] x.take(k) == y.take(k) && (k
                    == x.len() || x[k] < y[k]);
            assert(a.take(k + 1) =~= seq![a[0]] + x.take(k));
            assert(b.take(k + 1) =~= seq![b[0]] + y.take(k));
            assert(a.take(k + 1) == b.take(k + 1));
            if k < x.len() {
                assert(a[k + 1] == x[k] && b[k + 1] == y[k]);
            }
        }
        if exists|k: int|
            0 <= k <= a.len() && k < b.len() && #[trigger] a.take(k) == b.take(k) && (k == a.len()
                || a[k] < b[k]) {
            let k = choose|k: int|
                0 <= k <= a.len() && k < b.len() && #[trigger] a.take(k) == b.take(k) && (k
                    == a.len() || a[k] < b[k]);
            assert(k > 0);
            assert(x.take(k - 1) =~= a.take(k).skip(1));
            assert(y.take(k - 1) =~= b.take(k).skip(1));
            assert(x.take(k - 1) == y.take(k - 1));
            if k < a.len() {
                assert(x[k - 1] == a[k] && y[k - 1] == b[k]);
            }
        }
    } else {
        if text_before(a, b) {
            assert(a.take(0) =~= b.take(0));
            assert(a.take(0) == b.take(0));
        }
        if exists|k: int|
            0 <= k <= a.len() && k < b.len() && #[trigger] a.take(k) == b.take(k) && (k == a.len()
                || a[k] < b[k]) {
            let k = choose|k: int|
                0 <= k <= a.len() && k < b.len() && #[trigger] a.take(k) == b.take(k) && (k
                    == a.len() || a[k] < b[k]);
            if k > 0 {
                assert(a.take(k)[0] == b.take(k)[0]);
            }
        }
    }
}

/// Lines are read from top to bottom; those of one height from left to right; and
/// those of one place in the order of their texts.
pub proof fn lines_are_read_downwards(rows: Seq<Row>, i: int, j: int)
    requires
        0 <= i < j < rows.len(),
    ensures
        ({
            let a = in_reading_order(rows)[i];
            let b = in_reading_order(rows)[j];
            &&& a.frame.y.place() <= b.frame.y.place()
            &&& a.frame.y == b.frame.y ==> a.frame.x.place() <= b.frame.x.place()
            &&& a.frame.y == b.frame.y && a.frame.x == b.frame.x ==> !text_before(
                b.line.text@,
                a.line.text@,
            )
            &&& !a.frame.y.nan() && !b.frame.y.nan() ==> !b.frame.y.below(a.frame.y)
        }),
{
    reading_order_sorts(rows);
    let a = in_reading_order(rows)[i];
    let b = in_reading_order(rows)[j];
    assert(!read_before(b, a));
    places_are_distinct(a.frame.y, b.frame.y);
    places_are_distinct(b.frame.y, a.frame.y);
    places_are_distinct(a.frame.x, b.frame.x);
}

/// Where the part of a line without the whitespace at its ends lies.
proof fn lemma_trimmed_place(line: Seq<char>) -> (kept: (int, int))
    ensures
        0 <= kept.0 <= kept.1 <= line.len(),
        trimmed(line) == line.subrange(kept.0, kept.1),
        forall|i: int| 0 <= i < kept.0 ==> whitespace(#[trigger] line[i]),
        forall|i: int| kept.1 <= i < line.len() ==> whitespace(#[trigger] line[i]),
        kept.0 < kept.1 ==> !whitespace(line[kept.0]) && !whitespace(line[kept.1 - 1]),
        kept.0 < kept.1 ==> first_from(line, trimmed(line), 0) == Some(kept.0),
{
    let kept = crate::text::trimming_takes_only_the_ends(line);
    lemma_first_from(line, trimmed(line), 0);
    if kept.0 < kept.1 {
        assert(line.subrange(kept.0, kept.0 + trimmed(line).len()) =~= trimmed(line));
        assert(occurs_at(line, trimmed(line), kept.0));
        let at = first_from(line, trimmed(line), 0)->0;
        if at < kept.0 {
            assert(line.subrange(at, at + trimmed(line).len())[0] == line[at]);
            assert(trimmed(line)[0] == line[kept.0]);
        }
    }
    kept
}

/// A line is the wanted text, exactly, when it is that text but for whitespace at
/// its ends: letter for letter when case counts, and in lower case when it does
/// not. What matches is then the line without that whitespace.
pub proof fn exact_matches_are_the_whole_line(
    line: Seq<char>,
    query: Seq<char>,
    case_sensitive: bool,
) -> (kept: (int, int))
    ensures
        0 <= kept.0 <= kept.1 <= line.len(),
        forall|i: int| 0 <= i < kept.0 ==> whitespace(#[trigger] line[i]),
        forall|i: int| kept.1 <= i < line.len() ==> whitespace(#[trigger] line[i]),
        kept.0 < kept.1 ==> !whitespace(line[kept.0]) && !whitespace(line[kept.1 - 1]),
        match_range(line, query, TextMatchMode::Exact, case_sensitive) is Some <==> if case_sensitive {
            line.subrange(kept.0, kept.1) == query
        } else {
            lowercased(line.subrange(kept.0, kept.1)) == lowercased(query)
        },
        kept.0 < kept.1 ==> (match_range(line, query, TextMatchMode::Exact, case_sensitive) matches
            Some(range) ==> range == kept),
{
    lemma_trimmed_place(line)
}

/// When case counts, what is found is the first place where the text stands; a
/// query without a character is found nowhere.
pub proof fn the_first_place_is_found(line: Seq<char>, query: Seq<char>)
    ensures
        match match_range(line, query, TextMatchMode::Contains, true) {
            Some((start, end)) => {
                &&& 0 <= start < end <= line.len()
                &&& line.subrange(start, end) == query
                &&& forall|i: int|
                    0 <= i < start && i + query.len() <= line.len() ==> #[trigger] line.subrange(
                        i,
                        i + query.len(),
                    ) != query
            },
            None => query.len() == 0 || forall|i: int|
                0 <= i && i + query.len() <= line.len() ==> #[trigger] line.subrange(
                    i,
                    i + query.len(),
                ) != query,
        },
        match_range(line, seq![], TextMatchMode::Contains, true) is None,
        match_range(line, seq![], TextMatchMode::Contains, false) is None,
{
    lemma_first_from(line, query, 0);
    assert forall|i: int|
        0 <= i && i + query.len() <= line.len() && #[trigger] line.subrange(i, i + query.len())
            == query implies occurs_at(line, query, i) by {}
}

/// The byte range of a match cuts the matched characters, and no others, out of
/// the bytes of the line.
pub proof fn match_ranges_cut_out_the_match(line: RecognizedLine, request: FindTextRequest)
    ensures
        query_range(line, request) is Some <==> match_range(
            line.text@,
            request.text@,
            request.mode,
            request.case_sensitive,
        ) is Some,
        query_range(line, request) matches Some((first, behind)) ==> {
            let chars = match_range(
                line.text@,
                request.text@,
                request.mode,
                request.case_sensitive,
            )->0;
            &&& 0 <= first <= behind <= vstd::utf8::encode_utf8(line.text@).len()
            &&& vstd::utf8::encode_utf8(line.text@).subrange(first, behind)
                == vstd::utf8::encode_utf8(line.text@.subrange(chars.0, chars.1))
        },
{
    matched_text_is_wanted(line.text@, request.text@, request.mode, request.case_sensitive);
    if let Some((start, end)) = match_range(
        line.text@,
        request.text@,
        request.mode,
        request.case_sensitive,
    ) {
        crate::text::byte_ranges_cut_out_the_characters(line.text@, start, end);
    }
}

/// A word's span cuts the word, and nothing else, out of the bytes of the text,
/// and counts its units.
pub proof fn spans_cut_out_their_words(span: WordSpan, text: Seq<char>, word: (int, int))
    requires
        spans(span, text, word),
        0 <= word.0 <= word.1 <= text.len(),
    ensures
        span.byte_start <= span.byte_end,
        vstd::utf8::encode_utf8(text).subrange(span.byte_start as int, span.byte_end as int)
            == vstd::utf8::encode_utf8(text.subrange(word.0, word.1)),
        span.utf16_len == utf16_len(text.subrange(word.0, word.1)),
        span.utf16_start == utf16_len(text.subrange(0, word.0)),
{
    crate::text::byte_ranges_cut_out_the_characters(text, word.0, word.1);
    crate::text::units_add_up(text.take(word.0), text.subrange(word.0, word.1));
    assert(text.take(word.0) + text.subrange(word.0, word.1) =~= text.take(word.1));
    assert(text.subrange(0, word.0) =~= text.take(word.0));
}

/// A request is refused exactly when its text is blank, or when the confidence
/// that it asks for is no number from zero to one; the text is judged first.
/// Where it asks for none, three tenths are asked for.
pub proof fn requests_are_refused_for_a_reason(request: FindTextRequest)
    ensures
        request_refusal(request) is Some && request_refusal(request)->0 is EmptyQuery <==> forall|
            i: int,
        |
            0 <= i < request.text@.len() ==> whitespace(#[trigger] request.text@[i]),
        request_refusal(request) matches Some(e) ==> e is EmptyQuery || (request.min_confidence
            is Some && e == (FindTextError::InvalidConfidence {
            value: request.min_confidence->0,
        })),
        request.min_confidence matches Some(value) && (value.nan() || value.rank() < 0
            || value.rank() > 0x3FF0_0000_0000_0000) ==> request_refusal(request) is Some,
        request.min_confidence matches Some(value) && !value.nan() && 0 <= value.rank()
            <= 0x3FF0_0000_0000_0000 && request_refusal(request) is Some ==> request_refusal(
            request,
        )->0 is EmptyQuery,
        floor_of(request) == match request.min_confidence {
            Some(value) => value,
            None => Real { bits: 0x3FD3_3333_3333_3333 },
        },
{
    let kept = crate::text::trimming_takes_only_the_ends(request.text@);
}

proof fn lemma_matching_is_filtered<'a>(rows: Seq<Row<'a>>, request: FindTextRequest)
    ensures
        matching(rows, request) == rows.filter(
            |row: Row<'a>| query_range(*row.line, request) is Some,
        ),
    decreases rows.len(),
{
    reveal(Seq::filter);
    if rows.len() > 0 {
        lemma_matching_is_filtered(rows.drop_last(), request);
    }
}

/// A scan leaves out the lines below the floor, and counts them. Of the others it
/// lists the texts in reading order, and it reports each one that matches: as
/// many as there are, numbered in that order, each as confident as its line.
pub proof fn scans_report_every_match<N: Numbers>(
    numbers: &N,
    lines: Seq<RecognizedLine>,
    request: FindTextRequest,
    scan: MatchScan,
)
    requires
        scanned(numbers, lines, request, scan),
    ensures
        scan.observation_count == lines.len(),
        scan.recognized@.len() == lines.filter(
            |line: RecognizedLine| floor_of(request).at_most(line.confidence),
        ).len(),
        scan.below_confidence_count + scan.recognized@.len() == lines.len(),
        scan.min_confidence == floor_of(request),
        exists|clear: Seq<RecognizedLine>, rows: Seq<Row>|
            {
                &&& clear == lines.filter(
                    |line: RecognizedLine| floor_of(request).at_most(line.confidence),
                )
                &&& #[trigger] laid_out(numbers, clear, rows)
                &&& texts(scan.recognized@) == in_reading_order(rows).map_values(
                    |row: Row| row.line.text@,
                )
                &&& scan.matches@.len() == in_reading_order(rows).filter(
                    |row: Row| query_range(*row.line, request) is Some,
                ).len()
                &&& forall|k: int|
                    0 <= k < scan.matches@.len() ==> {
                        let row = in_reading_order(rows).filter(
                            |row: Row| query_range(*row.line, request) is Some,
                        )[k];
                        &&& (#[trigger] scan.matches@[k]).index == k
                        &&& scan.matches@[k].text@ == row.line.text@
                        &&& scan.matches@[k].confidence == row.line.confidence
                        &&& floor_of(request).at_most(scan.matches@[k].confidence)
                    }
            },
{
    let floor = floor_of(request);
    floor_decides(lines, floor);
    let rows = choose|rows: Seq<Row>| #[trigger]
        laid_out(numbers, kept(lines, floor), rows) && {
            let ordered = in_reading_order(rows);
            texts(scan.recognized@) == row_texts(ordered) && reports_all(
                numbers,
                matching(ordered, request),
                request,
                scan.matches@,
            )
        };
    let ordered = in_reading_order(rows);
    reading_order_sorts(rows);
    lemma_matching_is_filtered(ordered, request);
    assert(texts(scan.recognized@).len() == scan.recognized@.len());
    lemma_matching(ordered, request);
    assert forall|k: int| 0 <= k < scan.matches@.len() implies (
    #[trigger] scan.matches@[k]).index == k && scan.matches@[k].text@ == matching(
        ordered,
        request,
    )[k].line.text@ && scan.matches@[k].confidence == matching(ordered, request)[k].line.confidence
        && floor.at_most(scan.matches@[k].confidence) by {
        let row = matching(ordered, request)[k];
        assert(reports(numbers, row, request, k, scan.matches@[k]));
        assert(ordered.contains(row));
        broadcast use vstd::seq_lib::group_to_multiset_ensures;

        assert(ordered.to_multiset().count(row) > 0);
        assert(rows.contains(row));
        let i = choose|i: int| 0 <= i < rows.len() && rows[i] == row;
        assert(*rows[i].line == kept(lines, floor)[i]);
    }
}

/// What is picked is the match that was asked for, the first where none was. Too
/// few matches are refused with how many there are, and none at all with how many
/// lines were read.
pub proof fn the_wanted_match_is_picked(
    scan: MatchScan,
    request: FindTextRequest,
    r: Result<TextMatch, FindTextError>,
)
    requires
        picked(scan, request, r),
    ensures
        ({
            let wanted = match request.index {
                Some(n) => n as int,
                None => 0,
            };
            &&& r is Ok <==> wanted < scan.matches@.len()
            &&& r matches Ok(found) ==> {
                let m = scan.matches@[wanted];
                &&& found.text@ == m.text@
                &&& found.frame == m.frame
                &&& found.center_x == m.center_x
                &&& found.center_y == m.center_y
                &&& found.confidence == m.confidence
                &&& found.index == m.index
                &&& found.narrowed_to_words == m.narrowed_to_words
            }
            &&& r matches Err(e) ==> match e {
                FindTextError::NoMatch { query, observations, .. } => scan.matches@.len() == 0
                    && query@ == request.text@ && observations == scan.observation_count,
                FindTextError::IndexOutOfRange { query, index, matches: n } => scan.matches@.len()
                    > 0 && query@ == request.text@ && index == wanted && n == scan.matches@.len(),
                _ => false,
            }
        }),
{
}

/// A sample of what was read shows the first eight texts, quoted, and says
/// whether there were more.
pub proof fn samples_show_the_first_texts(recognized: Seq<Seq<char>>)
    ensures
        sample(recognized).len() == 0 <==> recognized.len() == 0,
        0 < recognized.len() <= 8 ==> sample(recognized) == ": "@ + joined(
            recognized.map_values(|s: Seq<char>| quoted(s)),
            ", "@,
        ),
        recognized.len() > 8 ==> sample(recognized) == sample(recognized.take(8)) + ", …"@,
{
    reveal_strlit(": ");
    reveal_strlit("");
    reveal_strlit(", …");
    if 0 < recognized.len() <= 8 {
        assert(sample(recognized) =~= ": "@ + joined(all_quoted(recognized), ", "@));
    }
    if recognized.len() > 8 {
        let first = recognized.take(8);
        assert(sample(first) =~= ": "@ + joined(all_quoted(first), ", "@));
    }
}

/// A tool call answers with the match that was asked for, among all the matches
/// of a scan, and says how large the image was.
pub proof fn answers_report_the_scan<N: Numbers>(
    numbers: &N,
    image_width: u32,
    image_height: u32,
    lines: Seq<RecognizedLine>,
    request: FindTextRequest,
    response: FindTextResponse,
)
    requires
        find_answer(numbers, image_width, image_height, lines, request, Ok(response)),
    ensures
        request_refusal(request) is None,
        response.image_width == image_width && response.image_height == image_height,
        response.observation_count == lines.len(),
        response.min_confidence == floor_of(request),
        exists|scan: MatchScan, found: TextMatch|
            {
                &&& #[trigger] scanned(numbers, lines, request, scan)
                &&& #[trigger] picked(scan, request, Ok(found))
                &&& response.matched == found
                &&& response.match_count == scan.matches@.len()
                &&& response.below_confidence_count == scan.below_confidence_count
            },
{
    let scan = choose|scan: Result<MatchScan, FindTextError>| #[trigger]
        scan_answer(numbers, lines, request, scan) && match scan {
            Err(e) => false,
            Ok(s) => exists|found: Result<TextMatch, FindTextError>| #[trigger]
                picked(s, request, found) && match found {
                    Err(e) => false,
                    Ok(matched) => Ok::<FindTextResponse, PolarizeError>(response) == Ok::<
                        FindTextResponse,
                        PolarizeError,
                    >(
                        FindTextResponse {
                            matched,
                            match_count: s.matches.len(),
                            observation_count: s.observation_count,
                            below_confidence_count: s.below_confidence_count,
                            min_confidence: s.min_confidence,
                            image_width,
                            image_height,
                        },
                    ),
                },
        };
    let s = scan->Ok_0;
    let found = choose|found: Result<TextMatch, FindTextError>| #[trigger]
        picked(s, request, found) && found is Ok && response.matched == found->Ok_0
            && response.match_count == s.matches.len() && response.observation_count
            == s.observation_count && response.below_confidence_count == s.below_confidence_count
            && response.min_confidence == s.min_confidence && response.image_width == image_width
            && response.image_height == image_height;
    assert(picked(s, request, Ok(found->Ok_0)));
}

/// The recognizer is asked for what the request asks for.
pub proof fn the_recognizer_gets_the_request(options: RecognizeOptions, request: FindTextRequest)
    requires
        asks(options, request),
    ensures
        options.level == request.level,
        options.uses_language_correction == request.uses_language_correction,
        options.languages@.len() == request.languages@.len(),
        forall|i: int|
            0 <= i < options.languages@.len() ==> (#[trigger] options.languages@[i])@
                == request.languages@[i]@,
{
    assert(texts(options.languages@).len() == options.languages@.len());
    assert(texts(request.languages@).len() == request.languages@.len());
    assert forall|i: int| 0 <= i < options.languages@.len() implies (
    #[trigger] options.languages@[i])@ == request.languages@[i]@ by {
        assert(texts(options.languages@)[i] == texts(request.languages@)[i]);
    }
}

/// A search captures what was asked for, the main screen where nothing was, and
/// reads the text in that very image. What is answered tells the image's own size.
pub proof fn the_captured_image_is_searched<N: Numbers, C: ScreenCapture, T: TextRecognizer>(
    numbers: &N,
    capture: &C,
    recognizer: &T,
    request: FindTextRequest,
    before: Seq<Call>,
    after: Seq<Call>,
    r: Result<FindTextResponse, PolarizeError>,
)
    requires
        found_text(numbers, capture, recognizer, request, before, after, r),
        after.len() > before.len(),
    ensures
        ({
            let shot = after[before.len() as int];
            let reply = match shot {
                Call::CapturedScreen { reply, .. } => reply,
                Call::CapturedWindow { reply, .. } => reply,
                _ => Err(PolarizeError::ScreenLocked),
            };
            &&& match request.target {
                None => shot is CapturedScreen && shot->CapturedScreen_display_id is None,
                Some(ScreenshotTarget::Screen { display_id }) => shot is CapturedScreen
                    && shot->CapturedScreen_display_id == display_id,
                Some(ScreenshotTarget::App { app }) => shot is CapturedWindow
                    && shot->CapturedWindow_app == app@ && shot->CapturedWindow_window_title
                    is None,
                Some(ScreenshotTarget::Window { app, window_title }) => shot is CapturedWindow
                    && shot->CapturedWindow_app == app@ && shot->CapturedWindow_window_title
                    == Some(window_title@),
            }
            &&& after.len() == before.len() + 2 <==> reply is Ok
            &&& reply matches Err(e) ==> r == Err::<FindTextResponse, PolarizeError>(e)
            &&& reply matches Ok(image) ==> {
                &&& after.last() is Recognized && after.last()->Recognized_image == image
                &&& after.last()->Recognized_options.level == request.level
                &&& after.last()->Recognized_reply matches Err(e) ==> r == Err::<
                    FindTextResponse,
                    PolarizeError,
                >(e)
                &&& r matches Ok(response) ==> response.image_width == image.width
                    && response.image_height == image.height
            }
        }),
{
}

/// What a failed search says shows the text that was looked for, and the numbers
/// that do not fit.
pub proof fn failed_searches_show_the_text<N: Numbers>(
    numbers: &N,
    e: FindTextError,
    text: Seq<char>,
)
    requires
        e.says(numbers, text),
    ensures
        e is EmptyQuery ==> text == "find_text needs a non-empty text to look for"@,
        e matches FindTextError::InvalidConfidence { value } ==> exists|shown: String|
            #[trigger] call_ensures(N::shown, (numbers, value), shown) && text
                == "min_confidence "@ + shown@ + " is out of range 0.0..=1.0"@,
        e matches FindTextError::NoMatch { query, observations, sample } ==> text
            == "no recognized text matches "@ + quoted(query@) + "; "@ + decimal(
            observations as nat,
        ) + " line(s) recognized"@ + sample@,
        e matches FindTextError::IndexOutOfRange { query, index, matches: found } ==> text
            == quoted(query@) + " matched "@ + decimal(found as nat) + " line(s), so index "@
            + decimal(index as nat) + " is out of range"@,
{
}

} // verus!
