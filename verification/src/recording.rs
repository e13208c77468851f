//! Recording the input that a user makes.

use vstd::prelude::*;

use crate::binary64::{steady, Numbers, Real, ZERO};
use crate::coords::{fraction_refusal, size_refusal, Fraction, PixelSize};
use crate::error::PolarizeError;
use crate::platform::{Call, Platform};
use crate::schema::{Modifier, NamedKey};
use crate::text::{copy_opt, decimal, lemma_texts_push, opt_view, push_decimal, texts};
use crate::traits::DisplayLister;
use crate::workspace::DisplayInfo;

verus! {

/// Why a recording was refused.
#[derive(Debug, Clone, Copy, PartialEq, Eq, Structural)]
pub enum RecordingError {
    /// The recording would last zero milliseconds.
    EmptyDuration,
    /// The recording would keep no event.
    EmptyEventLimit,
    /// The platform listed no display.
    NoDisplays,
}

impl RecordingError {
    /// What the error says.
    pub open spec fn said(self) -> Seq<char> {
        match self {
            RecordingError::EmptyDuration =>
                "duration_ms must be at least 1; a recording of 0 ms can capture nothing"@,
            RecordingError::EmptyEventLimit =>
                "max_events must be at least 1; a recording that keeps 0 events reports nothing"@,
            RecordingError::NoDisplays =>
                "no display was reported, so a recorded click has nothing to normalize against"@,
        }
    }

    /// The error in words.
    pub fn message(&self) -> (out: String)
        ensures
            out@ == self.said(),
    {
        match self {
            RecordingError::EmptyDuration =>
                "duration_ms must be at least 1; a recording of 0 ms can capture nothing".to_owned(),
            RecordingError::EmptyEventLimit =>
                "max_events must be at least 1; a recording that keeps 0 events reports nothing".to_owned(),
            RecordingError::NoDisplays =>
                "no display was reported, so a recorded click has nothing to normalize against".to_owned(),
        }
    }
}

// ---- limits -----------------------------------------------------------------

pub const DEFAULT_DURATION_MS: u64 = 5_000;

pub const MAX_DURATION_MS: u64 = 60_000;

pub const DEFAULT_MAX_EVENTS: usize = 500;

pub const MAX_EVENT_LIMIT: usize = 5_000;

// ---- raw event types and flags ----------------------------------------------

pub const RAW_LEFT_MOUSE_DOWN: u32 = 1;

pub const RAW_LEFT_MOUSE_UP: u32 = 2;

pub const RAW_RIGHT_MOUSE_DOWN: u32 = 3;

pub const RAW_RIGHT_MOUSE_UP: u32 = 4;

pub const RAW_MOUSE_MOVED: u32 = 5;

pub const RAW_LEFT_MOUSE_DRAGGED: u32 = 6;

pub const RAW_RIGHT_MOUSE_DRAGGED: u32 = 7;

pub const RAW_KEY_DOWN: u32 = 10;

pub const RAW_KEY_UP: u32 = 11;

pub const RAW_FLAGS_CHANGED: u32 = 12;

pub const RAW_SCROLL_WHEEL: u32 = 22;

pub const RAW_OTHER_MOUSE_DOWN: u32 = 25;

pub const RAW_OTHER_MOUSE_UP: u32 = 26;

pub const RAW_OTHER_MOUSE_DRAGGED: u32 = 27;

/// The system turned the tap off because it was too slow.
pub const RAW_TAP_DISABLED_BY_TIMEOUT: u32 = 4_294_967_294;

/// The system turned the tap off on user input.
pub const RAW_TAP_DISABLED_BY_USER_INPUT: u32 = 4_294_967_295;

pub const FLAG_MASK_SHIFT: u64 = 0x0002_0000;

pub const FLAG_MASK_CONTROL: u64 = 0x0004_0000;

/// The Option key.
pub const FLAG_MASK_ALTERNATE: u64 = 0x0008_0000;

pub const FLAG_MASK_COMMAND: u64 = 0x0010_0000;

/// The order in which every event lists its modifiers.
pub const MODIFIER_ORDER: [Modifier; 4] = [
    Modifier::Command,
    Modifier::Shift,
    Modifier::Option,
    Modifier::Control,
];

// ---- what crosses the platform boundary -------------------------------------

/// The settings of a recording, after defaults and limits.
#[derive(Debug, Clone, Copy, PartialEq, Eq, Structural)]
pub struct RecordingPlan {
    pub duration_ms: u64,
    pub max_events: usize,
    /// Whether mouse moves and drags are kept.
    pub record_mouse_moves: bool,
    /// Whether the characters of key events are kept.
    pub capture_text: bool,
}

/// One event, as the platform read it.
#[derive(Debug, Clone, PartialEq, Eq)]
pub struct RawTapEvent {
    pub event_type: u32,
    pub timestamp_ns: u64,
    pub key_code: u16,
    pub flags: u64,
    pub click_count: i64,
    /// The point, in the global pixel space.
    pub pixel_x: Real,
    pub pixel_y: Real,
    pub scroll_delta_x: i64,
    pub scroll_delta_y: i64,
    /// The characters that a key event produced.
    pub characters: Option<String>,
}

impl Default for RawTapEvent {
    /// An event of no type, at the origin.
    fn default() -> (r: Self)
        ensures
            r.event_type == 0,
            r.timestamp_ns == 0,
            r.key_code == 0,
            r.flags == 0,
            r.click_count == 0,
            r.pixel_x.bits == 0,
            r.pixel_y.bits == 0,
            r.scroll_delta_x == 0,
            r.scroll_delta_y == 0,
            r.characters is None,
    {
        RawTapEvent {
            event_type: 0,
            timestamp_ns: 0,
            key_code: 0,
            flags: 0,
            click_count: 0,
            pixel_x: Real { bits: 0 },
            pixel_y: Real { bits: 0 },
            scroll_delta_x: 0,
            scroll_delta_y: 0,
            characters: None,
        }
    }
}

/// Everything that one recording collected.
#[derive(Debug, Clone, PartialEq, Eq)]
pub struct RawRecording {
    pub events: Vec<RawTapEvent>,
    /// The clock when the recording started, in nanoseconds.
    pub started_ns: u64,
    pub elapsed_ms: u64,
    /// How many events the platform turned away.
    pub dropped_events: usize,
}

impl Default for RawRecording {
    /// A recording of nothing.
    fn default() -> (r: Self)
        ensures
            r.events@.len() == 0,
            r.started_ns == 0,
            r.elapsed_ms == 0,
            r.dropped_events == 0,
    {
        RawRecording { events: Vec::new(), started_ns: 0, elapsed_ms: 0, dropped_events: 0 }
    }
}

/// Records raw events for a bounded time.
pub trait FlowRecorder {
    /// Records until the plan's time or its event limit is reached. A notice
    /// that the tap was turned off is an event like any other.
    fn record_raw_events(&self, plan: &RecordingPlan) -> Result<RawRecording, PolarizeError>;
}

// ---- the recorded flow ------------------------------------------------------

#[derive(Debug, Clone, Copy, PartialEq, Eq, Structural)]
pub enum RecordedEventKind {
    KeyDown,
    KeyUp,
    FlagsChanged,
    MouseDown,
    MouseUp,
    MouseMoved,
    MouseDragged,
    Scroll,
}

#[derive(Debug, Clone, Copy, PartialEq, Eq, Structural)]
pub enum MouseButton {
    Left,
    Right,
    Other,
}

/// Why a recording stopped.
#[derive(Debug, Clone, Copy, PartialEq, Eq, Structural)]
pub enum StopReason {
    Duration,
    EventLimit,
}

/// One event of a recorded flow. A field that a kind does not use is `None`.
#[derive(Debug, Clone, PartialEq, Eq)]
pub struct RecordedEvent {
    pub kind: RecordedEventKind,
    /// Milliseconds from the start of the recording.
    pub offset_ms: u64,
    pub modifiers: Vec<Modifier>,
    pub key: Option<NamedKey>,
    pub key_code: Option<u16>,
    /// The characters of a key event, when they were asked for.
    pub text: Option<String>,
    /// Whether the characters of a key event were withheld.
    pub redacted: bool,
    pub button: Option<MouseButton>,
    pub click_count: Option<u8>,
    /// The point, in fractions of its display.
    pub x: Option<Real>,
    pub y: Option<Real>,
    pub display_id: Option<u32>,
    pub scroll_delta_x: Option<i64>,
    pub scroll_delta_y: Option<i64>,
}

#[derive(Debug, Clone, Copy, PartialEq, Eq, Structural)]
pub struct RecordFlowRequest {
    pub duration_ms: Option<u64>,
    pub max_events: Option<usize>,
    pub record_mouse_moves: Option<bool>,
    pub capture_text: Option<bool>,
}

impl Default for RecordFlowRequest {
    /// Every setting at its default.
    fn default() -> (r: Self)
        ensures
            r.duration_ms is None,
            r.max_events is None,
            r.record_mouse_moves is None,
            r.capture_text is None,
    {
        RecordFlowRequest {
            duration_ms: None,
            max_events: None,
            record_mouse_moves: None,
            capture_text: None,
        }
    }
}

#[derive(Debug, Clone, PartialEq, Eq)]
pub struct RecordFlowResponse {
    pub events: Vec<RecordedEvent>,
    pub event_count: usize,
    pub requested_duration_ms: u64,
    pub recorded_ms: u64,
    pub stopped_because: StopReason,
    pub text_captured: bool,
    /// How often the tap was turned off for being slow.
    pub tap_disabled_by_timeout: u32,
    /// How often the tap was turned off on user input.
    pub tap_disabled_by_user_input: u32,
    pub dropped_events: usize,
    /// Whether no input is known to be missing.
    pub complete: bool,
    /// One line per reason why input is missing.
    pub warnings: Vec<String>,
}

// ---- the plan ---------------------------------------------------------------

/// The plan of a request. A recording that could hold nothing is refused,
/// the duration first.
pub open spec fn plan_of(request: RecordFlowRequest) -> Result<RecordingPlan, RecordingError> {
    let duration_ms = request.duration_ms.unwrap_or(DEFAULT_DURATION_MS);
    let max_events = request.max_events.unwrap_or(DEFAULT_MAX_EVENTS);
    if duration_ms == 0 {
        Err(RecordingError::EmptyDuration)
    } else if max_events == 0 {
        Err(RecordingError::EmptyEventLimit)
    } else {
        Ok(
            RecordingPlan {
                duration_ms: if duration_ms > MAX_DURATION_MS {
                    MAX_DURATION_MS
                } else {
                    duration_ms
                },
                max_events: if max_events > MAX_EVENT_LIMIT {
                    MAX_EVENT_LIMIT
                } else {
                    max_events
                },
                record_mouse_moves: request.record_mouse_moves.unwrap_or(false),
                capture_text: request.capture_text.unwrap_or(false),
            },
        )
    }
}

impl RecordingPlan {
    /// Applies the defaults and the limits to a request.
    pub fn resolve(request: &RecordFlowRequest) -> (r: Result<Self, RecordingError>)
        ensures
            r == plan_of(*request),
            r matches Ok(plan) ==> 1 <= plan.duration_ms <= MAX_DURATION_MS && 1 <= plan.max_events
                <= MAX_EVENT_LIMIT,
    {
        let duration_ms: u64 = request.duration_ms.unwrap_or(DEFAULT_DURATION_MS);
        if duration_ms == 0 {
            return Err(RecordingError::EmptyDuration);
        }
        let max_events: usize = request.max_events.unwrap_or(DEFAULT_MAX_EVENTS);
        if max_events == 0 {
            return Err(RecordingError::EmptyEventLimit);
        }
        Ok(
            RecordingPlan {
                duration_ms: if duration_ms > MAX_DURATION_MS {
                    MAX_DURATION_MS
                } else {
                    duration_ms
                },
                max_events: if max_events > MAX_EVENT_LIMIT {
                    MAX_EVENT_LIMIT
                } else {
                    max_events
                },
                record_mouse_moves: request.record_mouse_moves.unwrap_or(false),
                capture_text: request.capture_text.unwrap_or(false),
            },
        )
    }
}

// ---- tables -----------------------------------------------------------------

/// Whether a raw type is a mouse move or a drag.
pub open spec fn move_type(event_type: u32) -> bool {
    event_type == RAW_MOUSE_MOVED || event_type == RAW_LEFT_MOUSE_DRAGGED || event_type
        == RAW_RIGHT_MOUSE_DRAGGED || event_type == RAW_OTHER_MOUSE_DRAGGED
}

/// Whether a raw type is a mouse move or a drag.
pub fn is_mouse_move_type(event_type: u32) -> (r: bool)
    ensures
        r == move_type(event_type),
{
    event_type == RAW_MOUSE_MOVED || event_type == RAW_LEFT_MOUSE_DRAGGED || event_type
        == RAW_RIGHT_MOUSE_DRAGGED || event_type == RAW_OTHER_MOUSE_DRAGGED
}

/// Whether a raw type is a key going down or up.
pub fn is_key_type(event_type: u32) -> (r: bool)
    ensures
        r == (event_type == RAW_KEY_DOWN || event_type == RAW_KEY_UP),
{
    event_type == RAW_KEY_DOWN || event_type == RAW_KEY_UP
}

/// Whether a raw type is a notice that the tap was turned off.
pub fn is_tap_disabled_type(event_type: u32) -> (r: bool)
    ensures
        r == (event_type == RAW_TAP_DISABLED_BY_TIMEOUT || event_type
            == RAW_TAP_DISABLED_BY_USER_INPUT),
{
    event_type == RAW_TAP_DISABLED_BY_TIMEOUT || event_type == RAW_TAP_DISABLED_BY_USER_INPUT
}

/// The kind of a raw type, if it is recorded at all.
pub open spec fn kind_of(event_type: u32) -> Option<RecordedEventKind> {
    if event_type == RAW_KEY_DOWN {
        Some(RecordedEventKind::KeyDown)
    } else if event_type == RAW_KEY_UP {
        Some(RecordedEventKind::KeyUp)
    } else if event_type == RAW_FLAGS_CHANGED {
        Some(RecordedEventKind::FlagsChanged)
    } else if event_type == RAW_LEFT_MOUSE_DOWN || event_type == RAW_RIGHT_MOUSE_DOWN || event_type
        == RAW_OTHER_MOUSE_DOWN {
        Some(RecordedEventKind::MouseDown)
    } else if event_type == RAW_LEFT_MOUSE_UP || event_type == RAW_RIGHT_MOUSE_UP || event_type
        == RAW_OTHER_MOUSE_UP {
        Some(RecordedEventKind::MouseUp)
    } else if event_type == RAW_MOUSE_MOVED {
        Some(RecordedEventKind::MouseMoved)
    } else if event_type == RAW_LEFT_MOUSE_DRAGGED || event_type == RAW_RIGHT_MOUSE_DRAGGED
        || event_type == RAW_OTHER_MOUSE_DRAGGED {
        Some(RecordedEventKind::MouseDragged)
    } else if event_type == RAW_SCROLL_WHEEL {
        Some(RecordedEventKind::Scroll)
    } else {
        None
    }
}

/// The kind of a raw type, if it is recorded at all.
pub fn kind_for_raw_type(event_type: u32) -> (r: Option<RecordedEventKind>)
    ensures
        r == kind_of(event_type),
{
    match event_type {
        RAW_KEY_DOWN => Some(RecordedEventKind::KeyDown),
        RAW_KEY_UP => Some(RecordedEventKind::KeyUp),
        RAW_FLAGS_CHANGED => Some(RecordedEventKind::FlagsChanged),
        RAW_LEFT_MOUSE_DOWN | RAW_RIGHT_MOUSE_DOWN | RAW_OTHER_MOUSE_DOWN => Some(
            RecordedEventKind::MouseDown,
        ),
        RAW_LEFT_MOUSE_UP | RAW_RIGHT_MOUSE_UP | RAW_OTHER_MOUSE_UP => Some(
            RecordedEventKind::MouseUp,
        ),
        RAW_MOUSE_MOVED => Some(RecordedEventKind::MouseMoved),
        RAW_LEFT_MOUSE_DRAGGED | RAW_RIGHT_MOUSE_DRAGGED | RAW_OTHER_MOUSE_DRAGGED => Some(
            RecordedEventKind::MouseDragged,
        ),
        RAW_SCROLL_WHEEL => Some(RecordedEventKind::Scroll),
        _ => None,
    }
}

/// The button that a raw type names.
pub open spec fn button_of(event_type: u32) -> Option<MouseButton> {
    if event_type == RAW_LEFT_MOUSE_DOWN || event_type == RAW_LEFT_MOUSE_UP || event_type
        == RAW_LEFT_MOUSE_DRAGGED {
        Some(MouseButton::Left)
    } else if event_type == RAW_RIGHT_MOUSE_DOWN || event_type == RAW_RIGHT_MOUSE_UP || event_type
        == RAW_RIGHT_MOUSE_DRAGGED {
        Some(MouseButton::Right)
    } else if event_type == RAW_OTHER_MOUSE_DOWN || event_type == RAW_OTHER_MOUSE_UP || event_type
        == RAW_OTHER_MOUSE_DRAGGED {
        Some(MouseButton::Other)
    } else {
        None
    }
}

/// The button that a raw type names.
pub fn button_for_raw_type(event_type: u32) -> (r: Option<MouseButton>)
    ensures
        r == button_of(event_type),
{
    match event_type {
        RAW_LEFT_MOUSE_DOWN | RAW_LEFT_MOUSE_UP | RAW_LEFT_MOUSE_DRAGGED => Some(
            MouseButton::Left,
        ),
        RAW_RIGHT_MOUSE_DOWN | RAW_RIGHT_MOUSE_UP | RAW_RIGHT_MOUSE_DRAGGED => Some(
            MouseButton::Right,
        ),
        RAW_OTHER_MOUSE_DOWN | RAW_OTHER_MOUSE_UP | RAW_OTHER_MOUSE_DRAGGED => Some(
            MouseButton::Other,
        ),
        _ => None,
    }
}

/// The flag bit of a modifier.
pub open spec fn mask_of(modifier: Modifier) -> u64 {
    match modifier {
        Modifier::Command => FLAG_MASK_COMMAND,
        Modifier::Shift => FLAG_MASK_SHIFT,
        Modifier::Option => FLAG_MASK_ALTERNATE,
        Modifier::Control => FLAG_MASK_CONTROL,
    }
}

fn mask_for_modifier(modifier: Modifier) -> (r: u64)
    ensures
        r == mask_of(modifier),
{
    match modifier {
        Modifier::Command => FLAG_MASK_COMMAND,
        Modifier::Shift => FLAG_MASK_SHIFT,
        Modifier::Option => FLAG_MASK_ALTERNATE,
        Modifier::Control => FLAG_MASK_CONTROL,
    }
}

/// Whether a modifier's flag bit is set.
pub open spec fn held(flags: u64, modifier: Modifier) -> bool {
    flags & mask_of(modifier) != 0
}

/// The modifiers of a list whose flag bits are set, in the list's order.
pub open spec fn held_of(flags: u64, order: Seq<Modifier>) -> Seq<Modifier>
    decreases order.len(),
{
    if order.len() == 0 {
        seq![]
    } else if held(flags, order.last()) {
        held_of(flags, order.drop_last()).push(order.last())
    } else {
        held_of(flags, order.drop_last())
    }
}

/// The modifiers whose flag bits are set, in the fixed order.
pub open spec fn modifiers_of(flags: u64) -> Seq<Modifier> {
    held_of(
        flags,
        seq![Modifier::Command, Modifier::Shift, Modifier::Option, Modifier::Control],
    )
}

/// The modifiers whose flag bits are set, in the fixed order. A bit that no
/// modifier names is dropped.
pub fn modifiers_from_flags(flags: u64) -> (r: Vec<Modifier>)
    ensures
        r@ == modifiers_of(flags),
{
    let order = MODIFIER_ORDER;
    let ghost all = seq![Modifier::Command, Modifier::Shift, Modifier::Option, Modifier::Control];
    assert(order@ =~= all);
    let mut r: Vec<Modifier> = Vec::new();
    let mut i: usize = 0;
    while i < 4
        invariant
            i <= 4,
            order@ == all,
            all.len() == 4,
            r@ == held_of(flags, all.take(i as int)),
        decreases 4 - i,
    {
        let modifier = order[i];
        assert(all.take(i + 1).drop_last() =~= all.take(i as int));
        if flags & mask_for_modifier(modifier) != 0 {
            r.push(modifier);
        }
        i += 1;
    }
    assert(all.take(4) =~= all);
    r
}

/// The named key of a key code.
pub open spec fn key_of(key_code: u16) -> Option<NamedKey> {
    if key_code == 0x24 {
        Some(NamedKey::Return)
    } else if key_code == 0x30 {
        Some(NamedKey::Tab)
    } else if key_code == 0x31 {
        Some(NamedKey::Space)
    } else if key_code == 0x33 {
        Some(NamedKey::Delete)
    } else if key_code == 0x35 {
        Some(NamedKey::Escape)
    } else if key_code == 0x7B {
        Some(NamedKey::ArrowLeft)
    } else if key_code == 0x7C {
        Some(NamedKey::ArrowRight)
    } else if key_code == 0x7D {
        Some(NamedKey::ArrowDown)
    } else if key_code == 0x7E {
        Some(NamedKey::ArrowUp)
    } else {
        None
    }
}

/// The named key of a key code, when one has it.
pub fn named_key_from_key_code(key_code: u16) -> (r: Option<NamedKey>)
    ensures
        r == key_of(key_code),
{
    match key_code {
        0x24 => Some(NamedKey::Return),
        0x30 => Some(NamedKey::Tab),
        0x31 => Some(NamedKey::Space),
        0x33 => Some(NamedKey::Delete),
        0x35 => Some(NamedKey::Escape),
        0x7B => Some(NamedKey::ArrowLeft),
        0x7C => Some(NamedKey::ArrowRight),
        0x7D => Some(NamedKey::ArrowDown),
        0x7E => Some(NamedKey::ArrowUp),
        _ => None,
    }
}

// ---- points -----------------------------------------------------------------

/// A value held inside `0.0..=1.0`; zero when it is not finite.
pub open spec fn unit_of(value: Real) -> Real {
    if value.finite() {
        value.unit_clamped()
    } else {
        Real { bits: ZERO }
    }
}

fn clamp_unit(value: Real) -> (r: Real)
    ensures
        r == unit_of(value),
{
    if value.is_finite() {
        value.clamp_to_unit()
    } else {
        Real { bits: ZERO }
    }
}

/// Whether `answer` says if a display holds a point: its left and top edges
/// do, its right and bottom edges do not.
pub open spec fn holds_point<N: Numbers>(
    numbers: &N,
    display: DisplayInfo,
    pixel_x: Real,
    pixel_y: Real,
    answer: bool,
) -> bool {
    let frame = display.frame;
    exists|right: Real, bottom: Real|
        #[trigger] call_ensures(N::sum, (numbers, frame.x, frame.width), right)
            && #[trigger] call_ensures(N::sum, (numbers, frame.y, frame.height), bottom) && answer
            == (frame.x.at_most(pixel_x) && pixel_x.below(right) && frame.y.at_most(pixel_y)
            && pixel_y.below(bottom))
}

fn display_holds<N: Numbers>(numbers: &N, display: &DisplayInfo, pixel_x: Real, pixel_y: Real) -> (r:
    bool)
    ensures
        holds_point(numbers, *display, pixel_x, pixel_y, r),
{
    let frame = display.frame;
    let right = numbers.sum(frame.x, frame.width);
    let bottom = numbers.sum(frame.y, frame.height);
    frame.x.is_at_most(pixel_x) && pixel_x.is_below(right) && frame.y.is_at_most(pixel_y)
        && pixel_y.is_below(bottom)
}

/// The first position whose flag is set.
pub open spec fn first_set(flags: Seq<bool>) -> Option<int>
    decreases flags.len(),
{
    if flags.len() == 0 {
        None
    } else {
        match first_set(flags.drop_last()) {
            Some(i) => Some(i),
            None => if flags.last() {
                Some(flags.len() - 1)
            } else {
                None
            },
        }
    }
}

/// The display that a point belongs to: the first one that holds it, else the
/// main one, else the first one.
pub open spec fn display_for(displays: Seq<DisplayInfo>, holding: Seq<bool>) -> Option<int> {
    match first_set(holding) {
        Some(i) => Some(i),
        None => match first_set(displays.map_values(|d: DisplayInfo| d.is_main)) {
            Some(i) => Some(i),
            None => if displays.len() > 0 {
                Some(0)
            } else {
                None
            },
        },
    }
}

/// The first position whose flag is set.
fn find_set(flags: &Vec<bool>) -> (r: Option<usize>)
    ensures
        crate::text::opt_int(r) == first_set(flags@),
        r matches Some(i) ==> i < flags@.len(),
{
    let mut i: usize = 0;
    while i < flags.len()
        invariant
            i <= flags@.len(),
            first_set(flags@.take(i as int)) is None,
        decreases flags@.len() - i,
    {
        assert(flags@.take(i + 1).drop_last() =~= flags@.take(i as int));
        if flags[i] {
            proof {
                lemma_first_set_stays(flags@, i + 1);
            }
            return Some(i);
        }
        i += 1;
    }
    assert(flags@.take(i as int) =~= flags@);
    None
}

proof fn lemma_first_set_stays(flags: Seq<bool>, n: int)
    requires
        0 <= n <= flags.len(),
        first_set(flags.take(n)) is Some,
    ensures
        first_set(flags) == first_set(flags.take(n)),
    decreases flags.len() - n,
{
    if n < flags.len() {
        assert(flags.take(n + 1).drop_last() =~= flags.take(n));
        lemma_first_set_stays(flags, n + 1);
    } else {
        assert(flags.take(n) =~= flags);
    }
}

/// The display that a point belongs to, given which displays hold it.
pub fn pick_display(displays: &[DisplayInfo], holding: &Vec<bool>) -> (r: Option<usize>)
    requires
        holding@.len() == displays@.len(),
    ensures
        crate::text::opt_int(r) == display_for(displays@, holding@),
        r matches Some(i) ==> i < displays@.len(),
{
    if let Some(i) = find_set(holding) {
        return Some(i);
    }
    let mut mains: Vec<bool> = Vec::new();
    let mut i: usize = 0;
    while i < displays.len()
        invariant
            i <= displays@.len(),
            mains@ == displays@.take(i as int).map_values(|d: DisplayInfo| d.is_main),
        decreases displays@.len() - i,
    {
        mains.push(displays[i].is_main);
        i += 1;
        assert(mains@ =~= displays@.take(i as int).map_values(|d: DisplayInfo| d.is_main));
    }
    assert(displays@.take(i as int) =~= displays@);
    if let Some(k) = find_set(&mains) {
        return Some(k);
    }
    if displays.len() > 0 {
        Some(0)
    } else {
        None
    }
}

/// Whether `r` is the place of a coordinate along an edge, held inside
/// `0.0..=1.0`.
pub open spec fn along_edge<N: Numbers>(
    numbers: &N,
    pixel: Real,
    origin: Real,
    extent: Real,
    r: Real,
) -> bool {
    exists|distance: Real, fraction: Real|
        #[trigger] call_ensures(N::difference, (numbers, pixel, origin), distance)
            && #[trigger] call_ensures(N::quotient, (numbers, distance, extent), fraction) && r
            == unit_of(fraction)
}

/// Whether `r` is the display of a point, and the point in fractions of that
/// display. A display without a size puts every point at its origin.
pub open spec fn normalized<N: Numbers>(
    numbers: &N,
    pixel_x: Real,
    pixel_y: Real,
    displays: Seq<DisplayInfo>,
    r: Option<(u32, Real, Real)>,
) -> bool {
    exists|holding: Seq<bool>|
        #[trigger] all_held(numbers, displays, pixel_x, pixel_y, holding) && match display_for(
            displays,
            holding,
        ) {
            None => r is None,
            Some(i) => {
                let display = displays[i];
                let frame = display.frame;
                let zero = Real { bits: ZERO };
                if frame.width.at_most(zero) || frame.height.at_most(zero) {
                    r == Some((display.display_id, zero, zero))
                } else {
                    r matches Some((id, x, y)) && id == display.display_id && along_edge(
                        numbers,
                        pixel_x,
                        frame.x,
                        frame.width,
                        x,
                    ) && along_edge(numbers, pixel_y, frame.y, frame.height, y)
                }
            },
        }
}

/// Whether each flag says if its display holds a point.
pub open spec fn all_held<N: Numbers>(
    numbers: &N,
    displays: Seq<DisplayInfo>,
    pixel_x: Real,
    pixel_y: Real,
    holding: Seq<bool>,
) -> bool {
    holding.len() == displays.len() && forall|i: int|
        0 <= i < displays.len() ==> holds_point(
            numbers,
            displays[i],
            pixel_x,
            pixel_y,
            #[trigger] holding[i],
        )
}

/// The display of a point, and the point in fractions of that display.
pub fn normalize_to_display<N: Numbers>(
    numbers: &N,
    pixel_x: Real,
    pixel_y: Real,
    displays: &[DisplayInfo],
) -> (r: Option<(u32, Real, Real)>)
    ensures
        normalized(numbers, pixel_x, pixel_y, displays@, r),
{
    let mut holding: Vec<bool> = Vec::new();
    let mut i: usize = 0;
    while i < displays.len()
        invariant
            i <= displays@.len(),
            holding@.len() == i,
            forall|k: int|
                0 <= k < i ==> holds_point(
                    numbers,
                    displays@[k],
                    pixel_x,
                    pixel_y,
                    #[trigger] holding@[k],
                ),
        decreases displays@.len() - i,
    {
        let answer = display_holds(numbers, &displays[i], pixel_x, pixel_y);
        holding.push(answer);
        i += 1;
    }
    assert(all_held(numbers, displays@, pixel_x, pixel_y, holding@));
    match pick_display(displays, &holding) {
        None => None,
        Some(k) => {
            let display = displays[k];
            let frame = display.frame;
            let zero = Real { bits: ZERO };
            if frame.width.is_at_most(zero) || frame.height.is_at_most(zero) {
                return Some((display.display_id, zero, zero));
            }
            let from_left = numbers.difference(pixel_x, frame.x);
            let x = clamp_unit(numbers.quotient(from_left, frame.width));
            let from_top = numbers.difference(pixel_y, frame.y);
            let y = clamp_unit(numbers.quotient(from_top, frame.height));
            assert(along_edge(numbers, pixel_x, frame.x, frame.width, x));
            assert(along_edge(numbers, pixel_y, frame.y, frame.height, y));
            Some((display.display_id, x, y))
        },
    }
}

// ---- translation ------------------------------------------------------------

/// Whether an event of this kind comes from the keyboard.
pub open spec fn key_kind(kind: RecordedEventKind) -> bool {
    kind == RecordedEventKind::KeyDown || kind == RecordedEventKind::KeyUp || kind
        == RecordedEventKind::FlagsChanged
}

/// Whether an event of this kind has a point.
pub open spec fn pointed_kind(kind: RecordedEventKind) -> bool {
    !key_kind(kind)
}

/// Whether an event of this kind is a click's start or end.
pub open spec fn button_kind(kind: RecordedEventKind) -> bool {
    kind == RecordedEventKind::MouseDown || kind == RecordedEventKind::MouseUp
}

/// Milliseconds from the start to a time; zero for a time before it.
pub open spec fn offset_of(timestamp_ns: u64, started_ns: u64) -> int {
    if timestamp_ns < started_ns {
        0
    } else {
        (timestamp_ns - started_ns) / 1_000_000
    }
}

/// A click count as a byte, at least one.
pub open spec fn clicks_of(click_count: i64) -> u8 {
    if click_count < 1 {
        1
    } else if click_count > 255 {
        255
    } else {
        click_count as u8
    }
}

/// Whether an event is one that a recording keeps.
pub open spec fn kept(event_type: u32, plan: RecordingPlan) -> bool {
    kind_of(event_type) is Some && (plan.record_mouse_moves || !move_type(event_type))
}

/// Whether `r` is what a recording keeps of a raw event.
pub open spec fn translated<N: Numbers>(
    numbers: &N,
    raw: RawTapEvent,
    started_ns: u64,
    displays: Seq<DisplayInfo>,
    plan: RecordingPlan,
    r: Option<RecordedEvent>,
) -> bool {
    if !kept(raw.event_type, plan) {
        r is None
    } else {
        let kind = kind_of(raw.event_type)->0;
        r matches Some(event) && {
            &&& event.kind == kind
            &&& event.offset_ms == offset_of(raw.timestamp_ns, started_ns)
            &&& event.modifiers@ == modifiers_of(raw.flags)
            &&& event.key == if key_kind(kind) {
                key_of(raw.key_code)
            } else {
                None
            }
            &&& event.key_code == if key_kind(kind) {
                Some(raw.key_code)
            } else {
                None
            }
            &&& opt_view(event.text) == if key_kind(kind) && plan.capture_text {
                opt_view(raw.characters)
            } else {
                None
            }
            &&& event.redacted == (key_kind(kind) && !plan.capture_text)
            &&& event.button == button_of(raw.event_type)
            &&& event.click_count == if button_kind(kind) {
                Some(clicks_of(raw.click_count))
            } else {
                None
            }
            &&& event.scroll_delta_x == if kind == RecordedEventKind::Scroll {
                Some(raw.scroll_delta_x)
            } else {
                None
            }
            &&& event.scroll_delta_y == if kind == RecordedEventKind::Scroll {
                Some(raw.scroll_delta_y)
            } else {
                None
            }
            &&& if pointed_kind(kind) {
                exists|point: Option<(u32, Real, Real)>|
                    #[trigger] normalized(numbers, raw.pixel_x, raw.pixel_y, displays, point)
                        && carries(event, point)
            } else {
                carries(event, None)
            }
        }
    }
}

/// Whether an event carries a point and its display, or none of them.
pub open spec fn carries(event: RecordedEvent, point: Option<(u32, Real, Real)>) -> bool {
    match point {
        Some((id, x, y)) => event.display_id == Some(id) && event.x == Some(x) && event.y == Some(
            y,
        ),
        None => event.display_id is None && event.x is None && event.y is None,
    }
}

/// Turns one raw event into what a recording keeps of it. Characters are kept
/// only of key events, and only when they were asked for.
pub fn translate_event<N: Numbers>(
    numbers: &N,
    raw: &RawTapEvent,
    started_ns: u64,
    displays: &[DisplayInfo],
    plan: &RecordingPlan,
) -> (r: Option<RecordedEvent>)
    ensures
        translated(numbers, *raw, started_ns, displays@, *plan, r),
{
    if !plan.record_mouse_moves && is_mouse_move_type(raw.event_type) {
        return None;
    }
    let kind = match kind_for_raw_type(raw.event_type) {
        Some(kind) => kind,
        None => return None,
    };
    let offset_ms: u64 = raw.timestamp_ns.saturating_sub(started_ns) / 1_000_000;
    let is_key_event = matches!(
        kind,
        RecordedEventKind::KeyDown | RecordedEventKind::KeyUp | RecordedEventKind::FlagsChanged
    );
    let is_button_event = matches!(kind, RecordedEventKind::MouseDown | RecordedEventKind::MouseUp);
    let is_scroll = matches!(kind, RecordedEventKind::Scroll);
    let text = if plan.capture_text && is_key_event {
        copy_opt(&raw.characters)
    } else {
        None
    };
    let point: Option<(u32, Real, Real)> = if is_key_event {
        None
    } else {
        normalize_to_display(numbers, raw.pixel_x, raw.pixel_y, displays)
    };
    let (display_id, x, y): (Option<u32>, Option<Real>, Option<Real>) = match point {
        Some((id, x, y)) => (Some(id), Some(x), Some(y)),
        None => (None, None, None),
    };
    let clicks: u8 = if raw.click_count < 1 {
        1
    } else if raw.click_count > 255 {
        255
    } else {
        raw.click_count as u8
    };
    let event = RecordedEvent {
        kind,
        offset_ms,
        modifiers: modifiers_from_flags(raw.flags),
        key: if is_key_event {
            named_key_from_key_code(raw.key_code)
        } else {
            None
        },
        key_code: if is_key_event {
            Some(raw.key_code)
        } else {
            None
        },
        text,
        redacted: is_key_event && !plan.capture_text,
        button: button_for_raw_type(raw.event_type),
        click_count: if is_button_event {
            Some(clicks)
        } else {
            None
        },
        x,
        y,
        display_id,
        scroll_delta_x: if is_scroll {
            Some(raw.scroll_delta_x)
        } else {
            None
        },
        scroll_delta_y: if is_scroll {
            Some(raw.scroll_delta_y)
        } else {
            None
        },
    };
    assert(carries(event, point));
    Some(event)
}

// ---- assembly ---------------------------------------------------------------

/// How many raw events have this type, up to the largest count.
pub open spec fn count_type(events: Seq<RawTapEvent>, event_type: u32) -> int
    decreases events.len(),
{
    if events.len() == 0 {
        0
    } else {
        let before = count_type(events.drop_last(), event_type);
        if events.last().event_type == event_type && before < u32::MAX {
            before + 1
        } else {
            before
        }
    }
}

/// The flow of the events that were kept. An offset that would go backwards
/// is raised to the one before it.
pub open spec fn flow(kept: Seq<Option<RecordedEvent>>) -> Seq<RecordedEvent>
    decreases kept.len(),
{
    if kept.len() == 0 {
        seq![]
    } else {
        let before = flow(kept.drop_last());
        match kept.last() {
            None => before,
            Some(event) => before.push(
                RecordedEvent {
                    offset_ms: if before.len() > 0 && before.last().offset_ms > event.offset_ms {
                        before.last().offset_ms
                    } else {
                        event.offset_ms
                    },
                    ..event
                },
            ),
        }
    }
}

/// How many events are missing: those that the platform turned away, and
/// those over the limit.
pub open spec fn dropped_of(turned_away: usize, found: nat, limit: usize) -> int {
    let over = if found > limit {
        found - limit
    } else {
        0
    };
    if turned_away + over > usize::MAX {
        usize::MAX as int
    } else {
        turned_away + over
    }
}

/// The warning that the tap was turned off for being slow.
pub open spec fn timeout_warning(times: nat) -> Seq<char> {
    "macOS disabled the event tap "@ + decimal(times)
        + " time(s) on a timeout, and polarize turned it back on; input during that gap is missing"@
}

/// The warning that the tap was turned off on user input.
pub open spec fn input_warning(times: nat) -> Seq<char> {
    "macOS disabled the event tap "@ + decimal(times)
        + " time(s) on user input, and polarize turned it back on; input during that gap is missing"@
}

/// The warning that events are missing.
pub open spec fn dropped_warning(limit: nat, dropped: nat) -> Seq<char> {
    "the event budget of "@ + decimal(limit) + " filled, so "@ + decimal(dropped)
        + " later event(s) are missing; raise max_events or shorten duration_ms"@
}

/// The warnings of a recording, in their fixed order.
pub open spec fn warnings_of(timeouts: nat, inputs: nat, limit: nat, dropped: nat) -> Seq<
    Seq<char>,
> {
    let w0: Seq<Seq<char>> = seq![];
    let w1 = if timeouts > 0 {
        w0.push(timeout_warning(timeouts))
    } else {
        w0
    };
    let w2 = if inputs > 0 {
        w1.push(input_warning(inputs))
    } else {
        w1
    };
    if dropped > 0 {
        w2.push(dropped_warning(limit, dropped))
    } else {
        w2
    }
}

/// Whether a response reports a recording whose flow is `all`.
pub open spec fn assembled(
    raw: RawRecording,
    plan: RecordingPlan,
    all: Seq<RecordedEvent>,
    r: RecordFlowResponse,
) -> bool {
    let timeouts = count_type(raw.events@, RAW_TAP_DISABLED_BY_TIMEOUT);
    let inputs = count_type(raw.events@, RAW_TAP_DISABLED_BY_USER_INPUT);
    let dropped = dropped_of(raw.dropped_events, all.len(), plan.max_events);
    &&& r.events@ == if all.len() > plan.max_events {
        all.take(plan.max_events as int)
    } else {
        all
    }
    &&& r.event_count == r.events@.len()
    &&& r.requested_duration_ms == plan.duration_ms
    &&& r.recorded_ms == raw.elapsed_ms
    &&& r.stopped_because == if all.len() >= plan.max_events {
        StopReason::EventLimit
    } else {
        StopReason::Duration
    }
    &&& r.text_captured == plan.capture_text
    &&& r.tap_disabled_by_timeout == timeouts
    &&& r.tap_disabled_by_user_input == inputs
    &&& r.dropped_events == dropped
    &&& texts(r.warnings@) == warnings_of(
        timeouts as nat,
        inputs as nat,
        plan.max_events as nat,
        dropped as nat,
    )
    &&& r.complete == (r.warnings@.len() == 0)
}

/// Counts the raw events of a type.
fn count_of(events: &Vec<RawTapEvent>, event_type: u32) -> (n: u32)
    ensures
        n == count_type(events@, event_type),
{
    let mut n: u32 = 0;
    let mut i: usize = 0;
    while i < events.len()
        invariant
            i <= events@.len(),
            n == count_type(events@.take(i as int), event_type),
        decreases events@.len() - i,
    {
        assert(events@.take(i + 1).drop_last() =~= events@.take(i as int));
        if events[i].event_type == event_type && n < u32::MAX {
            n += 1;
        }
        i += 1;
    }
    assert(events@.take(i as int) =~= events@);
    n
}

/// Reports a recording whose flow is given.
pub fn report(raw: &RawRecording, plan: &RecordingPlan, flow: Vec<RecordedEvent>) -> (r:
    RecordFlowResponse)
    ensures
        assembled(*raw, *plan, flow@, r),
{
    let mut events = flow;
    let tap_disabled_by_timeout: u32 = count_of(&raw.events, RAW_TAP_DISABLED_BY_TIMEOUT);
    let tap_disabled_by_user_input: u32 = count_of(&raw.events, RAW_TAP_DISABLED_BY_USER_INPUT);
    let over: usize = if events.len() > plan.max_events {
        events.len() - plan.max_events
    } else {
        0
    };
    let dropped_events: usize = raw.dropped_events.saturating_add(over);
    let stopped_because = if events.len() >= plan.max_events {
        StopReason::EventLimit
    } else {
        StopReason::Duration
    };
    let ghost all = events@;
    events.truncate(plan.max_events);
    assert(events@ =~= if all.len() > plan.max_events {
        all.take(plan.max_events as int)
    } else {
        all
    });
    let mut warnings: Vec<String> = Vec::new();
    assert(texts(warnings@) =~= seq![]);
    if tap_disabled_by_timeout > 0 {
        let mut warning = "macOS disabled the event tap ".to_owned();
        push_decimal(&mut warning, tap_disabled_by_timeout as u64);
        warning.append(
            " time(s) on a timeout, and polarize turned it back on; input during that gap is missing",
        );
        proof {
            lemma_texts_push(warnings@, warning);
        }
        warnings.push(warning);
    }
    if tap_disabled_by_user_input > 0 {
        let mut warning = "macOS disabled the event tap ".to_owned();
        push_decimal(&mut warning, tap_disabled_by_user_input as u64);
        warning.append(
            " time(s) on user input, and polarize turned it back on; input during that gap is missing",
        );
        proof {
            lemma_texts_push(warnings@, warning);
        }
        warnings.push(warning);
    }
    if dropped_events > 0 {
        let mut warning = "the event budget of ".to_owned();
        push_decimal(&mut warning, plan.max_events as u64);
        warning.append(" filled, so ");
        push_decimal(&mut warning, dropped_events as u64);
        warning.append(" later event(s) are missing; raise max_events or shorten duration_ms");
        proof {
            lemma_texts_push(warnings@, warning);
        }
        warnings.push(warning);
    }
    RecordFlowResponse {
        event_count: events.len(),
        events,
        requested_duration_ms: plan.duration_ms,
        recorded_ms: raw.elapsed_ms,
        stopped_because,
        text_captured: plan.capture_text,
        tap_disabled_by_timeout,
        tap_disabled_by_user_input,
        dropped_events,
        complete: warnings.len() == 0,
        warnings,
    }
}

/// Whether a response reports a recording.
pub open spec fn recorded<N: Numbers>(
    numbers: &N,
    raw: RawRecording,
    displays: Seq<DisplayInfo>,
    plan: RecordingPlan,
    r: RecordFlowResponse,
) -> bool {
    exists|kept: Seq<Option<RecordedEvent>>|
        #[trigger] all_translated(numbers, raw, displays, plan, kept) && assembled(
            raw,
            plan,
            flow(kept),
            r,
        )
}

/// Whether each entry is what a recording keeps of the raw event there.
pub open spec fn all_translated<N: Numbers>(
    numbers: &N,
    raw: RawRecording,
    displays: Seq<DisplayInfo>,
    plan: RecordingPlan,
    kept: Seq<Option<RecordedEvent>>,
) -> bool {
    kept.len() == raw.events@.len() && forall|i: int|
        0 <= i < kept.len() ==> translated(
            numbers,
            raw.events@[i],
            raw.started_ns,
            displays,
            plan,
            #[trigger] kept[i],
        )
}

/// Turns a raw recording into the answer of a request. What was lost is
/// counted and named.
pub fn assemble_recording<N: Numbers>(
    numbers: &N,
    raw: &RawRecording,
    displays: &[DisplayInfo],
    plan: &RecordingPlan,
) -> (r: RecordFlowResponse)
    ensures
        recorded(numbers, *raw, displays@, *plan, r),
{
    let ghost mut kept: Seq<Option<RecordedEvent>> = seq![];
    let mut events: Vec<RecordedEvent> = Vec::new();
    let mut i: usize = 0;
    while i < raw.events.len()
        invariant
            i <= raw.events@.len(),
            kept.len() == i,
            forall|k: int|
                0 <= k < i ==> translated(
                    numbers,
                    raw.events@[k],
                    raw.started_ns,
                    displays@,
                    *plan,
                    #[trigger] kept[k],
                ),
            events@ == flow(kept),
        decreases raw.events@.len() - i,
    {
        let event = translate_event(numbers, &raw.events[i], raw.started_ns, displays, plan);
        proof {
            let before = kept;
            kept = kept.push(event);
            assert(kept.drop_last() =~= before);
        }
        if let Some(mut next) = event {
            if events.len() > 0 {
                let previous: u64 = events[events.len() - 1].offset_ms;
                if previous > next.offset_ms {
                    next.offset_ms = previous;
                }
            }
            events.push(next);
        }
        i += 1;
    }
    assert(all_translated(numbers, *raw, displays@, *plan, kept));
    report(raw, plan, events)
}

/// The recording that follows once the displays are listed, and what is
/// answered. Where there is no display, no call follows.
pub open spec fn recorded_answer<N: Numbers, R: FlowRecorder>(
    numbers: &N,
    recorder: &R,
    plan: RecordingPlan,
    listed: Result<Vec<DisplayInfo>, PolarizeError>,
    before: Seq<Call>,
    after: Seq<Call>,
    r: Result<RecordFlowResponse, PolarizeError>,
) -> bool {
    match listed {
        Err(e) => after == before && r == Err::<RecordFlowResponse, PolarizeError>(e),
        Ok(displays) => if displays@.len() == 0 {
            after == before && r == Err::<RecordFlowResponse, PolarizeError>(
                PolarizeError::Recording(RecordingError::NoDisplays),
            )
        } else {
            exists|raw: Result<RawRecording, PolarizeError>|
                #[trigger] call_ensures(R::record_raw_events, (recorder, &plan), raw) && after
                    == before.push(Call::Recorded { plan, reply: raw }) && match raw {
                    Err(e) => r == Err::<RecordFlowResponse, PolarizeError>(e),
                    Ok(rec) => r matches Ok(response) && recorded(
                        numbers,
                        rec,
                        displays@,
                        plan,
                        response,
                    ),
                }
        },
    }
}

/// The calls that a recording makes, and what is answered. A request that is
/// refused makes none. `before` and `after` are the calls that the platform had
/// got before, and has got in the end.
pub open spec fn flow_recorded<N: Numbers, R: FlowRecorder, D: DisplayLister>(
    numbers: &N,
    recorder: &R,
    displays: &D,
    request: RecordFlowRequest,
    before: Seq<Call>,
    after: Seq<Call>,
    r: Result<RecordFlowResponse, PolarizeError>,
) -> bool {
    match plan_of(request) {
        Err(e) => after == before && r == Err::<RecordFlowResponse, PolarizeError>(
            PolarizeError::Recording(e),
        ),
        Ok(plan) => exists|listed: Result<Vec<DisplayInfo>, PolarizeError>|
            #[trigger] call_ensures(D::displays, (displays,), listed) && recorded_answer(
                numbers,
                recorder,
                plan,
                listed,
                before.push(Call::ListedDisplays { reply: listed }),
                after,
                r,
            ),
    }
}

/// Records the input that a user makes, and reports it.
pub fn perform_record_flow_on<N: Numbers, R: FlowRecorder, D: DisplayLister>(
    numbers: &N,
    platform: &mut Platform<D, R, ()>,
    request: &RecordFlowRequest,
) -> (r: Result<RecordFlowResponse, PolarizeError>)
    ensures
        final(platform).parts() == old(platform).parts(),
        flow_recorded(
            numbers,
            old(platform).doer(),
            old(platform).reader(),
            *request,
            old(platform).calls(),
            final(platform).calls(),
            r,
        ),
{
    let plan = match RecordingPlan::resolve(request) {
        Err(e) => return Err(PolarizeError::Recording(e)),
        Ok(plan) => plan,
    };
    let listed = platform.displays();
    let displays = match listed {
        Err(e) => return Err(e),
        Ok(displays) => displays,
    };
    if displays.len() == 0 {
        return Err(PolarizeError::Recording(RecordingError::NoDisplays));
    }
    let raw = platform.record_raw_events(&plan);
    match raw {
        Err(e) => Err(e),
        Ok(rec) => Ok(assemble_recording(numbers, &rec, displays.as_slice(), &plan)),
    }
}

/// Records the input that a user makes, and reports it. A request that is
/// refused lists no display and opens no tap.
pub fn perform_record_flow<N: Numbers, R: FlowRecorder, D: DisplayLister>(
    numbers: &N,
    recorder: &R,
    displays: &D,
    request: &RecordFlowRequest,
) -> (r: Result<RecordFlowResponse, PolarizeError>)
    ensures
        exists|calls: Seq<Call>|
            #[trigger] flow_recorded(numbers, recorder, displays, *request, seq![], calls, r),
{
    let mut platform = Platform::new(displays, recorder, &());
    perform_record_flow_on(numbers, &mut platform, request)
}

// ---- laws -------------------------------------------------------------------

/// A recorded point is one that a tap accepts: both fractions lie in
/// `0.0..=1.0`, so no target of a positive size refuses them.
pub proof fn recorded_points_can_be_tapped<N: Numbers>(
    numbers: &N,
    pixel_x: Real,
    pixel_y: Real,
    displays: Seq<DisplayInfo>,
    point: (u32, Real, Real),
    size: PixelSize,
)
    requires
        normalized(numbers, pixel_x, pixel_y, displays, Some(point)),
        size_refusal(size) is None,
    ensures
        point.1.in_unit() && point.2.in_unit(),
        fraction_refusal(Fraction { x: point.1, y: point.2 }, size) is None,
{
}

/// A point always finds a display when there is one.
pub proof fn points_find_a_display<N: Numbers>(
    numbers: &N,
    pixel_x: Real,
    pixel_y: Real,
    displays: Seq<DisplayInfo>,
    r: Option<(u32, Real, Real)>,
)
    requires
        normalized(numbers, pixel_x, pixel_y, displays, r),
    ensures
        r is Some <==> displays.len() > 0,
{
    let holding = choose|holding: Seq<bool>|
        all_held(numbers, displays, pixel_x, pixel_y, holding) && match display_for(
            displays,
            holding,
        ) {
            None => r is None,
            Some(i) => {
                let display = displays[i];
                let frame = display.frame;
                let zero = Real { bits: ZERO };
                if frame.width.at_most(zero) || frame.height.at_most(zero) {
                    r == Some((display.display_id, zero, zero))
                } else {
                    r matches Some((id, x, y)) && id == display.display_id && along_edge(
                        numbers,
                        pixel_x,
                        frame.x,
                        frame.width,
                        x,
                    ) && along_edge(numbers, pixel_y, frame.y, frame.height, y)
                }
            },
        };
    if displays.len() == 0 {
        assert(first_set(holding) is None);
        assert(displays.map_values(|d: DisplayInfo| d.is_main).len() == 0);
    }
}

/// Where an event of a flow comes from: it is a kept event, with nothing but
/// its offset changed.
proof fn lemma_flow_origin(kept: Seq<Option<RecordedEvent>>, k: int) -> (at: int)
    requires
        0 <= k < flow(kept).len(),
    ensures
        0 <= at < kept.len(),
        kept[at] matches Some(event) && flow(kept)[k] == (RecordedEvent {
            offset_ms: flow(kept)[k].offset_ms,
            ..event
        }),
    decreases kept.len(),
{
    let rest = kept.drop_last();
    if k < flow(rest).len() {
        let at = lemma_flow_origin(rest, k);
        assert(flow(kept)[k] == flow(rest)[k]);
        at
    } else {
        kept.len() - 1
    }
}

/// The offsets of a flow never go backwards.
pub proof fn offsets_never_go_backwards(kept: Seq<Option<RecordedEvent>>, i: int, j: int)
    requires
        0 <= i <= j < flow(kept).len(),
    ensures
        flow(kept)[i].offset_ms <= flow(kept)[j].offset_ms,
    decreases kept.len(),
{
    let rest = kept.drop_last();
    let before = flow(rest);
    if j < before.len() {
        offsets_never_go_backwards(rest, i, j);
        assert(flow(kept)[i] == before[i] && flow(kept)[j] == before[j]);
    } else if i < before.len() {
        offsets_never_go_backwards(rest, i, before.len() - 1);
        assert(flow(kept)[i] == before[i]);
    }
}

/// Characters are reported only when they were asked for, and only of key
/// events. A key event whose characters were withheld says so.
pub proof fn text_needs_the_opt_in<N: Numbers>(
    numbers: &N,
    raw: RawRecording,
    displays: Seq<DisplayInfo>,
    plan: RecordingPlan,
    r: RecordFlowResponse,
    k: int,
)
    requires
        recorded(numbers, raw, displays, plan, r),
        0 <= k < r.events@.len(),
    ensures
        r.events@[k].text is Some ==> plan.capture_text && key_kind(r.events@[k].kind),
        r.events@[k].redacted == (key_kind(r.events@[k].kind) && !plan.capture_text),
{
    let kept = choose|kept: Seq<Option<RecordedEvent>>|
        #[trigger] all_translated(numbers, raw, displays, plan, kept) && assembled(
            raw,
            plan,
            flow(kept),
            r,
        );
    let at = lemma_flow_origin(kept, k);
    assert(r.events@[k] == flow(kept)[k]);
    assert(translated(
        numbers,
        raw.events@[at],
        raw.started_ns,
        displays,
        plan,
        kept[at],
    ));
}

/// A recording is complete exactly when nothing is known to be missing: the
/// tap was never turned off, and no event was dropped. It never holds more
/// events than its limit.
pub proof fn complete_means_nothing_lost(
    raw: RawRecording,
    plan: RecordingPlan,
    all: Seq<RecordedEvent>,
    r: RecordFlowResponse,
)
    requires
        assembled(raw, plan, all, r),
    ensures
        r.complete <==> r.tap_disabled_by_timeout == 0 && r.tap_disabled_by_user_input == 0
            && r.dropped_events == 0,
        r.complete ==> r.events@ == all,
        r.events@.len() <= plan.max_events,
{
    assert(texts(r.warnings@).len() == r.warnings@.len());
}

proof fn lemma_held_of(flags: u64, order: Seq<Modifier>, m: Modifier)
    ensures
        held_of(flags, order).contains(m) <==> order.contains(m) && held(flags, m),
    decreases order.len(),
{
    if order.len() > 0 {
        let rest = order.drop_last();
        lemma_held_of(flags, rest, m);
        let before = held_of(flags, rest);
        if order.contains(m) && order.last() != m {
            let i = choose|i: int| 0 <= i < order.len() && order[i] == m;
            assert(rest[i] == m);
        }
        if rest.contains(m) {
            let i = choose|i: int| 0 <= i < rest.len() && rest[i] == m;
            assert(order[i] == m);
        }
        if held(flags, order.last()) {
            let now = before.push(order.last());
            if before.contains(m) {
                let i = choose|i: int| 0 <= i < before.len() && before[i] == m;
                assert(now[i] == m);
            }
            if now.contains(m) && order.last() != m {
                let i = choose|i: int| 0 <= i < now.len() && now[i] == m;
                assert(before[i] == m);
            }
            if order.last() == m {
                assert(now[before.len() as int] == m);
                assert(order[order.len() - 1] == m);
            }
        } else if order.last() == m {
            assert(order[order.len() - 1] == m);
        }
    }
}

/// A modifier is listed exactly when its flag bit is set; no other bit
/// matters.
pub proof fn modifiers_follow_the_flags(flags: u64, m: Modifier)
    ensures
        modifiers_of(flags).contains(m) <==> held(flags, m),
{
    let order = seq![Modifier::Command, Modifier::Shift, Modifier::Option, Modifier::Control];
    lemma_held_of(flags, order, m);
    assert(order[0] == Modifier::Command);
    assert(order[1] == Modifier::Shift);
    assert(order[2] == Modifier::Option);
    assert(order[3] == Modifier::Control);
    assert(order.contains(m));
}

/// The flag bit of one modifier alone lists that modifier and nothing else.
pub proof fn each_bit_is_one_modifier(m: Modifier, other: Modifier)
    ensures
        held(mask_of(m), other) <==> m == other,
{
    assert(0x0002_0000u64 & 0x0002_0000u64 != 0) by (bit_vector);
    assert(0x0004_0000u64 & 0x0004_0000u64 != 0) by (bit_vector);
    assert(0x0008_0000u64 & 0x0008_0000u64 != 0) by (bit_vector);
    assert(0x0010_0000u64 & 0x0010_0000u64 != 0) by (bit_vector);
    assert(0x0002_0000u64 & 0x0004_0000u64 == 0 && 0x0004_0000u64 & 0x0002_0000u64 == 0)
        by (bit_vector);
    assert(0x0002_0000u64 & 0x0008_0000u64 == 0 && 0x0008_0000u64 & 0x0002_0000u64 == 0)
        by (bit_vector);
    assert(0x0002_0000u64 & 0x0010_0000u64 == 0 && 0x0010_0000u64 & 0x0002_0000u64 == 0)
        by (bit_vector);
    assert(0x0004_0000u64 & 0x0008_0000u64 == 0 && 0x0008_0000u64 & 0x0004_0000u64 == 0)
        by (bit_vector);
    assert(0x0004_0000u64 & 0x0010_0000u64 == 0 && 0x0010_0000u64 & 0x0004_0000u64 == 0)
        by (bit_vector);
    assert(0x0008_0000u64 & 0x0010_0000u64 == 0 && 0x0010_0000u64 & 0x0008_0000u64 == 0)
        by (bit_vector);
}

/// The tables agree with each other: only a press, a release or a drag names
/// a button; the moves are the kinds that move; and a notice that the tap was
/// turned off is never recorded as an event.
pub proof fn tables_agree(event_type: u32)
    ensures
        button_of(event_type) is Some <==> (kind_of(event_type) matches Some(k) && (button_kind(k)
            || k == RecordedEventKind::MouseDragged)),
        move_type(event_type) <==> (kind_of(event_type) matches Some(k) && (k
            == RecordedEventKind::MouseMoved || k == RecordedEventKind::MouseDragged)),
        event_type == RAW_TAP_DISABLED_BY_TIMEOUT || event_type == RAW_TAP_DISABLED_BY_USER_INPUT
            ==> kind_of(event_type) is None,
{
}

/// No two key codes name the same key.
pub proof fn named_keys_are_distinct(a: u16, b: u16)
    requires
        key_of(a) is Some,
        key_of(a) == key_of(b),
    ensures
        a == b,
{
}

/// Without leave to capture text, what was typed leaves no trace: raw events
/// that differ only in their characters have the same translations.
pub proof fn withheld_text_leaves_no_trace<N: Numbers>(
    numbers: &N,
    raw: RawTapEvent,
    characters: Option<String>,
    started_ns: u64,
    displays: Seq<DisplayInfo>,
    plan: RecordingPlan,
    r: Option<RecordedEvent>,
)
    requires
        !plan.capture_text,
    ensures
        translated(numbers, raw, started_ns, displays, plan, r) <==> translated(
            numbers,
            (RawTapEvent { characters, ..raw }),
            started_ns,
            displays,
            plan,
            r,
        ),
{
    let other = RawTapEvent { characters, ..raw };
    assert(other.pixel_x == raw.pixel_x && other.pixel_y == raw.pixel_y);
    if let Some(event) = r {
        assert((exists|point: Option<(u32, Real, Real)>|
            #[trigger] normalized(numbers, raw.pixel_x, raw.pixel_y, displays, point) && carries(
                event,
                point,
            )) == (exists|point: Option<(u32, Real, Real)>|
            #[trigger] normalized(numbers, other.pixel_x, other.pixel_y, displays, point)
                && carries(event, point)));
    }
}

/// Whether two events report the same.
pub open spec fn same_event(a: RecordedEvent, b: RecordedEvent) -> bool {
    &&& a.modifiers@ == b.modifiers@
    &&& opt_view(a.text) == opt_view(b.text)
    &&& a == (RecordedEvent { modifiers: a.modifiers, text: a.text, ..b })
}

/// A point has one display and one place there, when the arithmetic always gives
/// the same result.
proof fn lemma_one_place<N: Numbers>(
    numbers: &N,
    pixel_x: Real,
    pixel_y: Real,
    displays: Seq<DisplayInfo>,
    r: Option<(u32, Real, Real)>,
    s: Option<(u32, Real, Real)>,
)
    requires
        steady(numbers),
        normalized(numbers, pixel_x, pixel_y, displays, r),
        normalized(numbers, pixel_x, pixel_y, displays, s),
    ensures
        r == s,
{
    assert forall|a: Seq<bool>, b: Seq<bool>|
        #[trigger] all_held(numbers, displays, pixel_x, pixel_y, a) && #[trigger] all_held(
            numbers,
            displays,
            pixel_x,
            pixel_y,
            b,
        ) implies a == b by {
        assert forall|i: int| 0 <= i < a.len() implies a[i] == b[i] by {
            assert(holds_point(numbers, displays[i], pixel_x, pixel_y, a[i]));
            assert(holds_point(numbers, displays[i], pixel_x, pixel_y, b[i]));
        }
        assert(a =~= b);
    }
}

/// Without leave to capture text, events that differ only in their characters
/// become equal events, without text. Of the keyboard this holds whatever the
/// arithmetic does; of an event that has a point, when the arithmetic always
/// gives the same result. An event is marked as redacted exactly when it comes
/// from the keyboard.
pub proof fn withheld_text_changes_no_event<N: Numbers>(
    numbers: &N,
    raw: RawTapEvent,
    characters: Option<String>,
    started_ns: u64,
    displays: Seq<DisplayInfo>,
    plan: RecordingPlan,
    r: Option<RecordedEvent>,
    s: Option<RecordedEvent>,
)
    requires
        !plan.capture_text,
        translated(numbers, raw, started_ns, displays, plan, r),
        translated(
            numbers,
            (RawTapEvent { characters, ..raw }),
            started_ns,
            displays,
            plan,
            s,
        ),
        steady(numbers) || (kind_of(raw.event_type) matches Some(kind) ==> !pointed_kind(kind)),
    ensures
        r is Some <==> s is Some,
        r matches Some(event) ==> same_event(event, s->0) && event.text is None && (event.redacted
            <==> key_kind(event.kind)),
{
    if let (Some(event), Some(other)) = (r, s) {
        if pointed_kind(event.kind) {
            let p = choose|point: Option<(u32, Real, Real)>|
                #[trigger] normalized(numbers, raw.pixel_x, raw.pixel_y, displays, point)
                    && carries(event, point);
            let q = choose|point: Option<(u32, Real, Real)>|
                #[trigger] normalized(numbers, raw.pixel_x, raw.pixel_y, displays, point)
                    && carries(other, point);
            let twin = RawTapEvent { characters, ..raw };
            assert(twin.pixel_x == raw.pixel_x && twin.pixel_y == raw.pixel_y);
            assert(normalized(numbers, raw.pixel_x, raw.pixel_y, displays, q) && carries(other, q));
            lemma_one_place(numbers, raw.pixel_x, raw.pixel_y, displays, p, q);
        }
    }
}

/// Every code of the event tap is read as what it is. A press is a press and a
/// release a release, whichever button it is of: for each of the three buttons
/// the code behind that of its press is that of its release, and both name that
/// button, as does the code of its drag. Every other code is of no event.
pub proof fn codes_are_read_rightly(event_type: u32)
    ensures
        kind_of(event_type) == Some(RecordedEventKind::MouseDown) <==> event_type == 1 || event_type
            == 3 || event_type == 25,
        kind_of(event_type) == Some(RecordedEventKind::MouseUp) <==> event_type == 2 || event_type
            == 4 || event_type == 26,
        kind_of(event_type) == Some(RecordedEventKind::MouseDragged) <==> event_type == 6
            || event_type == 7 || event_type == 27,
        kind_of(event_type) == Some(RecordedEventKind::MouseMoved) <==> event_type == 5,
        kind_of(event_type) == Some(RecordedEventKind::KeyDown) <==> event_type == 10,
        kind_of(event_type) == Some(RecordedEventKind::KeyUp) <==> event_type == 11,
        kind_of(event_type) == Some(RecordedEventKind::FlagsChanged) <==> event_type == 12,
        kind_of(event_type) == Some(RecordedEventKind::Scroll) <==> event_type == 22,
        button_of(event_type) == Some(MouseButton::Left) <==> event_type == 1 || event_type == 2
            || event_type == 6,
        button_of(event_type) == Some(MouseButton::Right) <==> event_type == 3 || event_type == 4
            || event_type == 7,
        button_of(event_type) == Some(MouseButton::Other) <==> event_type == 25 || event_type == 26
            || event_type == 27,
        kind_of(event_type) == Some(RecordedEventKind::MouseDown) ==> kind_of(
            (event_type + 1) as u32,
        ) == Some(RecordedEventKind::MouseUp) && button_of((event_type + 1) as u32) == button_of(
            event_type,
        ) && button_of(event_type) is Some,
        move_type(event_type) <==> event_type == 5 || event_type == 6 || event_type == 7
            || event_type == 27,
{
}

/// A modifier is listed exactly when its bit is set, once, and the modifiers
/// stand in the order Command, Shift, Option, Control.
pub proof fn modifiers_are_their_bits(flags: u64)
    ensures
        modifiers_of(flags).contains(Modifier::Shift) <==> flags & 0x0002_0000 != 0,
        modifiers_of(flags).contains(Modifier::Control) <==> flags & 0x0004_0000 != 0,
        modifiers_of(flags).contains(Modifier::Option) <==> flags & 0x0008_0000 != 0,
        modifiers_of(flags).contains(Modifier::Command) <==> flags & 0x0010_0000 != 0,
        modifiers_of(flags) == seq![
            Modifier::Command,
            Modifier::Shift,
            Modifier::Option,
            Modifier::Control,
        ].filter(|m: Modifier| modifiers_of(flags).contains(m)),
{
    modifiers_follow_the_flags(flags, Modifier::Shift);
    modifiers_follow_the_flags(flags, Modifier::Control);
    modifiers_follow_the_flags(flags, Modifier::Option);
    modifiers_follow_the_flags(flags, Modifier::Command);
    let order = seq![Modifier::Command, Modifier::Shift, Modifier::Option, Modifier::Control];
    lemma_held_is_filtered(flags, order);
    let held_by_bit = |m: Modifier| held(flags, m);
    let listed = |m: Modifier| modifiers_of(flags).contains(m);
    assert forall|m: Modifier| #[trigger] held(flags, m) == modifiers_of(flags).contains(m) by {
        modifiers_follow_the_flags(flags, m);
    }
    assert(held_by_bit =~= listed);
}

proof fn lemma_held_is_filtered(flags: u64, order: Seq<Modifier>)
    ensures
        held_of(flags, order) == order.filter(|m: Modifier| held(flags, m)),
    decreases order.len(),
{
    reveal(Seq::filter);
    if order.len() > 0 {
        lemma_held_is_filtered(flags, order.drop_last());
    }
}

/// A key that has a name is named by its own code, and no other code has a name.
pub proof fn key_codes_are_named_rightly(key_code: u16)
    ensures
        key_of(key_code) == Some(NamedKey::Return) <==> key_code == 36,
        key_of(key_code) == Some(NamedKey::Tab) <==> key_code == 48,
        key_of(key_code) == Some(NamedKey::Space) <==> key_code == 49,
        key_of(key_code) == Some(NamedKey::Delete) <==> key_code == 51,
        key_of(key_code) == Some(NamedKey::Escape) <==> key_code == 53,
        key_of(key_code) == Some(NamedKey::ArrowLeft) <==> key_code == 123,
        key_of(key_code) == Some(NamedKey::ArrowRight) <==> key_code == 124,
        key_of(key_code) == Some(NamedKey::ArrowDown) <==> key_code == 125,
        key_of(key_code) == Some(NamedKey::ArrowUp) <==> key_code == 126,
{
}

/// What is kept of an event is what happened. Presses and releases of keys,
/// changes of the modifiers, presses and releases of buttons and turns of the
/// wheel are always kept; moves and drags only where they were asked for;
/// nothing else is. The offset is the whole milliseconds since the start. Only
/// events of the keyboard have a key, only presses and releases of a button have
/// a count of clicks, which lies in `1..=255`, and only turns of the wheel have
/// the way that it went, each along its own axis.
pub proof fn events_keep_what_happened<N: Numbers>(
    numbers: &N,
    raw: RawTapEvent,
    started_ns: u64,
    displays: Seq<DisplayInfo>,
    plan: RecordingPlan,
    r: Option<RecordedEvent>,
)
    requires
        translated(numbers, raw, started_ns, displays, plan, r),
    ensures
        ({
            let t = raw.event_type;
            let from_keys = 10 <= t <= 12;
            let a_click = 1 <= t <= 4 || t == 25 || t == 26;
            let a_move = 5 <= t <= 7 || t == 27;
            &&& r is Some <==> from_keys || a_click || t == 22 || (a_move
                && plan.record_mouse_moves)
            &&& r matches Some(event) ==> {
                &&& raw.timestamp_ns >= started_ns ==> event.offset_ms * 1_000_000
                    <= raw.timestamp_ns - started_ns < (event.offset_ms + 1) * 1_000_000
                &&& raw.timestamp_ns < started_ns ==> event.offset_ms == 0
                &&& event.key_code == if from_keys {
                    Some(raw.key_code)
                } else {
                    None
                }
                &&& event.key is Some ==> from_keys && key_of(raw.key_code) == event.key
                &&& event.key is None ==> !from_keys || key_of(raw.key_code) is None
                &&& event.redacted <==> from_keys && !plan.capture_text
                &&& event.text is Some <==> from_keys && plan.capture_text && raw.characters is Some
                &&& event.text matches Some(text) ==> text@ == raw.characters->0@
                &&& event.click_count is Some <==> a_click
                &&& event.click_count matches Some(n) ==> 1 <= n && (1 <= raw.click_count <= 255
                    ==> n == raw.click_count) && (raw.click_count < 1 ==> n == 1) && (
                raw.click_count > 255 ==> n == 255)
                &&& event.scroll_delta_x == if t == 22 {
                    Some(raw.scroll_delta_x)
                } else {
                    None
                }
                &&& event.scroll_delta_y == if t == 22 {
                    Some(raw.scroll_delta_y)
                } else {
                    None
                }
                &&& event.display_id is Some <==> !from_keys && displays.len() > 0
                &&& event.x is Some <==> event.display_id is Some
                &&& event.y is Some <==> event.display_id is Some
                &&& event.modifiers@ == modifiers_of(raw.flags)
                &&& event.kind == kind_of(t)->0
                &&& event.button == button_of(t)
            }
        }),
{
    codes_are_read_rightly(raw.event_type);
    if let Some(event) = r {
        let kind = kind_of(raw.event_type)->0;
        assert(key_kind(kind) <==> 10 <= raw.event_type <= 12);
        if pointed_kind(kind) {
            let point = choose|point: Option<(u32, Real, Real)>|
                #[trigger] normalized(numbers, raw.pixel_x, raw.pixel_y, displays, point)
                    && carries(event, point);
            points_find_a_display(numbers, raw.pixel_x, raw.pixel_y, displays, point);
        }
    }
}

proof fn lemma_first_set(flags: Seq<bool>)
    ensures
        match first_set(flags) {
            Some(i) => 0 <= i < flags.len() && flags[i] && forall|j: int|
                0 <= j < i ==> !#[trigger] flags[j],
            None => forall|j: int| 0 <= j < flags.len() ==> !#[trigger] flags[j],
        },
    decreases flags.len(),
{
    if flags.len() > 0 {
        let rest = flags.drop_last();
        lemma_first_set(rest);
        assert forall|j: int| 0 <= j < rest.len() implies #[trigger] flags[j] == rest[j] by {}
    }
}

/// A point belongs to the first display that holds it. Where none does, it
/// belongs to the main display, and where there is none, to the first one.
pub proof fn points_go_to_the_display_that_holds_them(
    displays: Seq<DisplayInfo>,
    holding: Seq<bool>,
)
    requires
        holding.len() == displays.len(),
    ensures
        match display_for(displays, holding) {
            Some(i) => 0 <= i < displays.len() && (holding[i] || forall|j: int|
                0 <= j < displays.len() ==> !#[trigger] holding[j]) && (forall|j: int|
                0 <= j < i ==> !#[trigger] holding[j]) && (!holding[i] ==> (displays[i].is_main
                && forall|j: int| 0 <= j < i ==> !(#[trigger] displays[j]).is_main) || (i == 0
                && forall|j: int| 0 <= j < displays.len() ==> !(#[trigger] displays[j]).is_main)),
            None => displays.len() == 0,
        },
{
    let mains = displays.map_values(|d: DisplayInfo| d.is_main);
    lemma_first_set(holding);
    lemma_first_set(mains);
    assert forall|j: int| 0 <= j < displays.len() implies mains[j] == (
    #[trigger] displays[j]).is_main by {}
}

/// A display holds the points from its left edge up to its right edge, and from
/// its top edge down to its bottom edge. The left and the top edge are its own;
/// the right and the bottom edge are not.
pub proof fn displays_hold_their_left_and_top_edges<N: Numbers>(
    numbers: &N,
    display: DisplayInfo,
    pixel_x: Real,
    pixel_y: Real,
    answer: bool,
    right: Real,
    bottom: Real,
)
    requires
        steady(numbers),
        holds_point(numbers, display, pixel_x, pixel_y, answer),
        call_ensures(N::sum, (numbers, display.frame.x, display.frame.width), right),
        call_ensures(N::sum, (numbers, display.frame.y, display.frame.height), bottom),
        !pixel_x.nan() && !pixel_y.nan() && !right.nan() && !bottom.nan(),
        !display.frame.x.nan() && !display.frame.y.nan(),
    ensures
        answer <==> display.frame.x.rank() <= pixel_x.rank() < right.rank()
            && display.frame.y.rank() <= pixel_y.rank() < bottom.rank(),
{
}

/// A recorded place is where the point lies along the edges of its display: its
/// distance from the left edge, as a part of the width, and its distance from the
/// top edge, as a part of the height.
pub proof fn recorded_places_lie_along_the_edges<N: Numbers>(
    numbers: &N,
    pixel_x: Real,
    pixel_y: Real,
    displays: Seq<DisplayInfo>,
    id: u32,
    x: Real,
    y: Real,
)
    requires
        normalized(numbers, pixel_x, pixel_y, displays, Some((id, x, y))),
    ensures
        exists|i: int|
            0 <= i < displays.len() && (#[trigger] displays[i]).display_id == id && {
                let frame = displays[i].frame;
                let zero = Real { bits: 0 };
                ||| (frame.width.at_most(zero) || frame.height.at_most(zero)) && x == zero && y
                    == zero
                ||| exists|dx: Real, dy: Real, fx: Real, fy: Real|
                    {
                        &&& #[trigger] call_ensures(N::difference, (numbers, pixel_x, frame.x), dx)
                        &&& #[trigger] call_ensures(N::difference, (numbers, pixel_y, frame.y), dy)
                        &&& #[trigger] call_ensures(N::quotient, (numbers, dx, frame.width), fx)
                        &&& #[trigger] call_ensures(N::quotient, (numbers, dy, frame.height), fy)
                        &&& fx.in_unit() ==> x == fx
                        &&& fy.in_unit() ==> y == fy
                        &&& x.in_unit() && y.in_unit()
                        &&& fx.finite() && fx.negative() ==> x.rank() == 0
                        &&& fy.finite() && fy.negative() ==> y.rank() == 0
                    }
            },
{
    let holding = choose|holding: Seq<bool>|
        all_held(numbers, displays, pixel_x, pixel_y, holding) && match display_for(
            displays,
            holding,
        ) {
            None => false,
            Some(i) => {
                let display = displays[i];
                let frame = display.frame;
                let zero = Real { bits: ZERO };
                if frame.width.at_most(zero) || frame.height.at_most(zero) {
                    Some((id, x, y)) == Some((display.display_id, zero, zero))
                } else {
                    id == display.display_id && along_edge(
                        numbers,
                        pixel_x,
                        frame.x,
                        frame.width,
                        x,
                    ) && along_edge(numbers, pixel_y, frame.y, frame.height, y)
                }
            },
        };
    points_go_to_the_display_that_holds_them(displays, holding);
    let i = display_for(displays, holding)->0;
    let frame = displays[i].frame;
    if !(frame.width.at_most(Real { bits: 0 }) || frame.height.at_most(Real { bits: 0 })) {
        let (dx, fx) = choose|dx: Real, fx: Real|
            #[trigger] call_ensures(N::difference, (numbers, pixel_x, frame.x), dx)
                && #[trigger] call_ensures(N::quotient, (numbers, dx, frame.width), fx) && x
                == unit_of(fx);
        let (dy, fy) = choose|dy: Real, fy: Real|
            #[trigger] call_ensures(N::difference, (numbers, pixel_y, frame.y), dy)
                && #[trigger] call_ensures(N::quotient, (numbers, dy, frame.height), fy) && y
                == unit_of(fy);
        assert(call_ensures(N::difference, (numbers, pixel_x, frame.x), dx) && call_ensures(
            N::difference,
            (numbers, pixel_y, frame.y),
            dy,
        ) && call_ensures(N::quotient, (numbers, dx, frame.width), fx) && call_ensures(
            N::quotient,
            (numbers, dy, frame.height),
            fy,
        ));
        assert(x.in_unit() && y.in_unit());
    }
}

/// How many of the entries are events.
proof fn lemma_flow_len(kept: Seq<Option<RecordedEvent>>)
    ensures
        flow(kept).len() == kept.filter(|e: Option<RecordedEvent>| e is Some).len(),
    decreases kept.len(),
{
    reveal(Seq::filter);
    if kept.len() > 0 {
        lemma_flow_len(kept.drop_last());
    }
}

/// A flow is the kept events, all of them and in their order. Each offset is its
/// own, or an earlier event's where that was later: never less than its own, and
/// its own where no earlier event is later.
pub proof fn flows_keep_every_event(kept: Seq<Option<RecordedEvent>>, k: int)
    requires
        0 <= k < flow(kept).len(),
    ensures
        ({
            let events = kept.filter(|e: Option<RecordedEvent>| e is Some);
            &&& flow(kept).len() == events.len()
            &&& flow(kept)[k] == (RecordedEvent {
                offset_ms: flow(kept)[k].offset_ms,
                ..events[k]->0
            })
            &&& forall|j: int|
                0 <= j <= k ==> flow(kept)[k].offset_ms >= (#[trigger] events[j])->0.offset_ms
            &&& exists|j: int|
                0 <= j <= k && flow(kept)[k].offset_ms == (#[trigger] events[j])->0.offset_ms
        }),
    decreases kept.len(),
{
    reveal(Seq::filter);
    lemma_flow_len(kept);
    let rest = kept.drop_last();
    let before = flow(rest);
    let events = kept.filter(|e: Option<RecordedEvent>| e is Some);
    let earlier = rest.filter(|e: Option<RecordedEvent>| e is Some);
    lemma_flow_len(rest);
    if k < before.len() {
        flows_keep_every_event(rest, k);
        assert(flow(kept)[k] == before[k]);
        assert forall|j: int| 0 <= j <= k implies flow(kept)[k].offset_ms >= (
        #[trigger] events[j])->0.offset_ms by {
            assert(events[j] == earlier[j]);
        }
        let j = choose|j: int|
            0 <= j <= k && before[k].offset_ms == (#[trigger] earlier[j])->0.offset_ms;
        assert(events[j] == earlier[j]);
    } else {
        assert(events[k] == kept.last());
        if before.len() > 0 {
            let last = before.len() - 1;
            flows_keep_every_event(rest, last);
            assert forall|j: int| 0 <= j <= k implies flow(kept)[k].offset_ms >= (
            #[trigger] events[j])->0.offset_ms by {
                if j < k {
                    assert(events[j] == earlier[j]);
                }
            }
            let j = choose|j: int|
                0 <= j <= last && before[last].offset_ms == (#[trigger] earlier[j])->0.offset_ms;
            assert(events[j] == earlier[j]);
        }
    }
}

/// How often an event type occurs is counted, up to the largest number there is.
proof fn lemma_count_is_exact(events: Seq<RawTapEvent>, event_type: u32)
    ensures
        count_type(events, event_type) == {
            let n = events.filter(|e: RawTapEvent| e.event_type == event_type).len();
            if n > u32::MAX {
                u32::MAX as int
            } else {
                n as int
            }
        },
    decreases events.len(),
{
    reveal(Seq::filter);
    if events.len() > 0 {
        lemma_count_is_exact(events.drop_last(), event_type);
    }
}

/// A report accounts for every event. It keeps the first ones, up to the limit;
/// those behind it, and those that were turned away, are counted as dropped. It
/// stopped at the limit exactly when there were as many events as that. Each
/// notice that the tap was off is counted for its own cause. There is one
/// warning for each kind of loss, and it names how much was lost.
pub proof fn reports_account_for_every_event(
    raw: RawRecording,
    plan: RecordingPlan,
    all: Seq<RecordedEvent>,
    r: RecordFlowResponse,
)
    requires
        assembled(raw, plan, all, r),
    ensures
        r.events@ == all.take(r.events@.len() as int),
        all.len() <= plan.max_events ==> r.events@.len() == all.len(),
        all.len() > plan.max_events ==> r.events@.len() == plan.max_events,
        r.event_count == r.events@.len(),
        raw.dropped_events + all.len() - r.events@.len() <= usize::MAX ==> r.dropped_events
            + r.events@.len() == raw.dropped_events + all.len(),
        r.stopped_because == StopReason::EventLimit <==> all.len() >= plan.max_events,
        r.stopped_because == StopReason::Duration <==> all.len() < plan.max_events,
        r.requested_duration_ms == plan.duration_ms && r.recorded_ms == raw.elapsed_ms,
        r.text_captured == plan.capture_text,
        raw.events@.len() <= u32::MAX ==> r.tap_disabled_by_timeout == raw.events@.filter(
            |e: RawTapEvent| e.event_type == 0xFFFF_FFFE,
        ).len() && r.tap_disabled_by_user_input == raw.events@.filter(
            |e: RawTapEvent| e.event_type == 0xFFFF_FFFF,
        ).len(),
        r.warnings@.len() == (if r.tap_disabled_by_timeout > 0 { 1int } else { 0 })
            + (if r.tap_disabled_by_user_input > 0 { 1int } else { 0 })
            + (if r.dropped_events > 0 { 1int } else { 0 }),
        r.complete <==> r.warnings@.len() == 0,
        r.tap_disabled_by_timeout > 0 ==> texts(r.warnings@)[0] == "macOS disabled the event tap "@
            + decimal(r.tap_disabled_by_timeout as nat)
            + " time(s) on a timeout, and polarize turned it back on; input during that gap is missing"@,
        r.tap_disabled_by_user_input > 0 ==> texts(r.warnings@).contains(
            "macOS disabled the event tap "@ + decimal(r.tap_disabled_by_user_input as nat)
                + " time(s) on user input, and polarize turned it back on; input during that gap is missing"@,
        ),
        r.dropped_events > 0 ==> texts(r.warnings@).last() == "the event budget of "@ + decimal(
            plan.max_events as nat,
        ) + " filled, so "@ + decimal(r.dropped_events as nat)
            + " later event(s) are missing; raise max_events or shorten duration_ms"@,
{
    lemma_count_is_exact(raw.events@, 0xFFFF_FFFE);
    lemma_count_is_exact(raw.events@, 0xFFFF_FFFF);
    raw.events@.lemma_filter_len(|e: RawTapEvent| e.event_type == 0xFFFF_FFFE);
    raw.events@.lemma_filter_len(|e: RawTapEvent| e.event_type == 0xFFFF_FFFF);
    assert(r.events@ =~= all.take(r.events@.len() as int));
    assert(texts(r.warnings@).len() == r.warnings@.len());
    if r.tap_disabled_by_user_input > 0 {
        let at = if r.tap_disabled_by_timeout > 0 {
            1int
        } else {
            0int
        };
        assert(texts(r.warnings@)[at] == input_warning(r.tap_disabled_by_user_input as nat));
    }
}

/// A request for a recording is refused exactly when it asks for no time or for
/// no events; the time is judged first. What is planned is what was asked for, up
/// to a minute and up to five thousand events; five seconds and five hundred
/// events where nothing was asked for. Moves and characters are recorded only
/// where they were asked for.
pub proof fn plans_are_what_was_asked_for(request: RecordFlowRequest)
    ensures
        plan_of(request) == Err::<RecordingPlan, RecordingError>(RecordingError::EmptyDuration)
            <==> request.duration_ms == Some(0u64),
        plan_of(request) == Err::<RecordingPlan, RecordingError>(RecordingError::EmptyEventLimit)
            <==> request.duration_ms != Some(0u64) && request.max_events == Some(0usize),
        plan_of(request) is Err ==> plan_of(request)->Err_0 != RecordingError::NoDisplays,
        plan_of(request) matches Ok(plan) ==> {
            &&& request.duration_ms matches Some(ms) ==> plan.duration_ms == if ms <= 60_000 {
                ms
            } else {
                60_000
            }
            &&& request.duration_ms is None ==> plan.duration_ms == 5_000
            &&& request.max_events matches Some(n) ==> plan.max_events == if n <= 5_000 {
                n
            } else {
                5_000
            }
            &&& request.max_events is None ==> plan.max_events == 500
            &&& plan.record_mouse_moves <==> request.record_mouse_moves == Some(true)
            &&& plan.capture_text <==> request.capture_text == Some(true)
        },
{
}

/// The displays are listed before anything is recorded, and nothing is recorded
/// where there are none, or where the request is refused. What is recorded is
/// what the request plans, once.
pub proof fn flows_are_recorded_as_planned<N: Numbers, R: FlowRecorder, D: DisplayLister>(
    numbers: &N,
    recorder: &R,
    displays: &D,
    request: RecordFlowRequest,
    before: Seq<Call>,
    after: Seq<Call>,
    r: Result<RecordFlowResponse, PolarizeError>,
)
    requires
        flow_recorded(numbers, recorder, displays, request, before, after, r),
    ensures
        ({
            let first = before.len() as int;
            &&& after.len() <= first + 2
            &&& after.len() == first <==> plan_of(request) is Err
            &&& plan_of(request) matches Err(e) ==> r == Err::<RecordFlowResponse, PolarizeError>(
                PolarizeError::Recording(e),
            )
            &&& after.len() > first ==> after[first] is ListedDisplays
            &&& after.len() == first + 2 ==> {
                &&& after[first]->ListedDisplays_reply matches Ok(listed) && listed@.len() > 0
                &&& after.last() is Recorded
                &&& plan_of(request) == Ok::<RecordingPlan, RecordingError>(
                    after.last()->Recorded_plan,
                )
                &&& r is Ok <==> after.last()->Recorded_reply is Ok
                &&& after.last()->Recorded_reply matches Err(e) ==> r == Err::<
                    RecordFlowResponse,
                    PolarizeError,
                >(e)
            }
            &&& after.len() == first + 1 ==> match after[first]->ListedDisplays_reply {
                Err(e) => r == Err::<RecordFlowResponse, PolarizeError>(e),
                Ok(listed) => listed@.len() == 0 && r == Err::<RecordFlowResponse, PolarizeError>(
                    PolarizeError::Recording(RecordingError::NoDisplays),
                ),
            }
        }),
{
}

/// What a refusal says names what was asked for wrongly, or what is missing.
pub proof fn refusals_name_what_is_wrong(e: RecordingError)
    ensures
        e.said() == match e {
            RecordingError::EmptyDuration =>
                "duration_ms must be at least 1; a recording of 0 ms can capture nothing"@,
            RecordingError::EmptyEventLimit =>
                "max_events must be at least 1; a recording that keeps 0 events reports nothing"@,
            RecordingError::NoDisplays =>
                "no display was reported, so a recorded click has nothing to normalize against"@,
        },
{
}

/// A raw type is one of a key exactly when a key went down or up, and says that
/// the tap is off exactly when it is one of the two highest numbers.
pub proof fn types_are_told_apart(event_type: u32, key: bool, moves: bool, off: bool)
    requires
        call_ensures(is_key_type, (event_type,), key),
        call_ensures(is_mouse_move_type, (event_type,), moves),
        call_ensures(is_tap_disabled_type, (event_type,), off),
    ensures
        key <==> event_type == 10 || event_type == 11,
        moves <==> 5 <= event_type <= 7 || event_type == 27,
        off <==> event_type >= 0xFFFF_FFFE,
{
}

} // verus!
