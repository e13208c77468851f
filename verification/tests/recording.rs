use polarize_core::binary64::{Numbers, Real};
use polarize_core::coords::{fraction_to_pixel, Fraction, PixelSize};
use polarize_core::error::PolarizeError;
use polarize_core::recording::{
    assemble_recording, button_for_raw_type, is_mouse_move_type, is_tap_disabled_type,
    kind_for_raw_type, modifiers_from_flags, named_key_from_key_code, normalize_to_display,
    perform_record_flow, translate_event, FlowRecorder, MouseButton, RawRecording, RawTapEvent,
    RecordFlowRequest, RecordedEventKind, RecordingError, RecordingPlan, StopReason,
    DEFAULT_DURATION_MS, DEFAULT_MAX_EVENTS, FLAG_MASK_ALTERNATE, FLAG_MASK_COMMAND,
    FLAG_MASK_CONTROL, FLAG_MASK_SHIFT, MAX_DURATION_MS, MAX_EVENT_LIMIT, RAW_FLAGS_CHANGED,
    RAW_KEY_DOWN, RAW_KEY_UP, RAW_LEFT_MOUSE_DOWN, RAW_LEFT_MOUSE_DRAGGED, RAW_LEFT_MOUSE_UP,
    RAW_MOUSE_MOVED, RAW_OTHER_MOUSE_DOWN, RAW_OTHER_MOUSE_DRAGGED, RAW_RIGHT_MOUSE_DRAGGED,
    RAW_RIGHT_MOUSE_UP, RAW_SCROLL_WHEEL, RAW_TAP_DISABLED_BY_TIMEOUT,
    RAW_TAP_DISABLED_BY_USER_INPUT,
};
use polarize_core::schema::{Modifier, NamedKey};
use polarize_core::traits::DisplayLister;
use polarize_core::workspace::{DisplayInfo, PixelFrame};
use std::cell::RefCell;

struct Ieee;

impl Numbers for Ieee {
    fn sum(&self, a: Real, b: Real) -> Real {
        num(f64::from_bits(a.bits) + f64::from_bits(b.bits))
    }

    fn difference(&self, a: Real, b: Real) -> Real {
        num(f64::from_bits(a.bits) - f64::from_bits(b.bits))
    }

    fn product(&self, a: Real, b: Real) -> Real {
        num(f64::from_bits(a.bits) * f64::from_bits(b.bits))
    }

    fn quotient(&self, a: Real, b: Real) -> Real {
        num(f64::from_bits(a.bits) / f64::from_bits(b.bits))
    }

    fn shown(&self, value: Real) -> String {
        format!("{}", f64::from_bits(value.bits))
    }

    fn shown_to_hundredths(&self, value: Real) -> String {
        format!("{:.2}", f64::from_bits(value.bits))
    }
}

fn num(value: f64) -> Real {
    Real { bits: value.to_bits() }
}

fn value(r: Real) -> f64 {
    f64::from_bits(r.bits)
}

fn display(id: u32, x: Real, y: Real, width: Real, height: Real, is_main: bool) -> DisplayInfo {
    DisplayInfo {
        display_id: id,
        frame: PixelFrame::new(x, y, width, height),
        scale_factor: num(2.0),
        is_main,
    }
}

fn one_display() -> Vec<DisplayInfo> {
    vec![display(1, num(0.0), num(0.0), num(1000.0), num(500.0), true)]
}

fn two_displays() -> Vec<DisplayInfo> {
    vec![
        display(1, num(0.0), num(0.0), num(1000.0), num(500.0), true),
        display(2, num(1000.0), num(0.0), num(800.0), num(400.0), false),
    ]
}

struct FakeDisplays(Vec<DisplayInfo>);

impl DisplayLister for FakeDisplays {
    fn displays(&self) -> Result<Vec<DisplayInfo>, PolarizeError> {
        Ok(self.0.clone())
    }
}

struct FailingDisplays;

impl DisplayLister for FailingDisplays {
    fn displays(&self) -> Result<Vec<DisplayInfo>, PolarizeError> {
        Err(PolarizeError::Platform("no window server".to_string()))
    }
}

struct FakeRecorder {
    recording: RawRecording,
    seen: RefCell<Vec<RecordingPlan>>,
}

impl FakeRecorder {
    fn new(recording: RawRecording) -> Self {
        Self {
            recording,
            seen: RefCell::new(Vec::new()),
        }
    }
}

impl FlowRecorder for FakeRecorder {
    fn record_raw_events(&self, plan: &RecordingPlan) -> Result<RawRecording, PolarizeError> {
        self.seen.borrow_mut().push(*plan);
        Ok(self.recording.clone())
    }
}

struct FailingRecorder;

impl FlowRecorder for FailingRecorder {
    fn record_raw_events(&self, _plan: &RecordingPlan) -> Result<RawRecording, PolarizeError> {
        Err(PolarizeError::Platform("tap refused".to_string()))
    }
}

fn plan() -> RecordingPlan {
    RecordingPlan {
        duration_ms: 5_000,
        max_events: 500,
        record_mouse_moves: false,
        capture_text: false,
    }
}

fn raw(event_type: u32, timestamp_ns: u64) -> RawTapEvent {
    RawTapEvent {
        event_type,
        timestamp_ns,
        ..RawTapEvent::default()
    }
}

#[test]
fn an_absent_duration_takes_the_default() {
    let resolved = RecordingPlan::resolve(&RecordFlowRequest::default()).expect("resolve");
    assert_eq!(resolved.duration_ms, DEFAULT_DURATION_MS);
}

#[test]
fn a_long_duration_is_clamped() {
    let request = RecordFlowRequest {
        duration_ms: Some(10 * MAX_DURATION_MS),
        ..RecordFlowRequest::default()
    };
    let resolved = RecordingPlan::resolve(&request).expect("resolve");
    assert_eq!(resolved.duration_ms, MAX_DURATION_MS);
}

#[test]
fn a_zero_duration_is_refused() {
    let request = RecordFlowRequest {
        duration_ms: Some(0),
        ..RecordFlowRequest::default()
    };
    assert_eq!(
        RecordingPlan::resolve(&request).unwrap_err(),
        RecordingError::EmptyDuration
    );
}

#[test]
fn an_absent_event_limit_takes_the_default() {
    let resolved = RecordingPlan::resolve(&RecordFlowRequest::default()).expect("resolve");
    assert_eq!(resolved.max_events, DEFAULT_MAX_EVENTS);
}

#[test]
fn a_large_event_limit_is_clamped() {
    let request = RecordFlowRequest {
        max_events: Some(MAX_EVENT_LIMIT * 4),
        ..RecordFlowRequest::default()
    };
    let resolved = RecordingPlan::resolve(&request).expect("resolve");
    assert_eq!(resolved.max_events, MAX_EVENT_LIMIT);
}

#[test]
fn a_zero_event_limit_is_refused() {
    let request = RecordFlowRequest {
        max_events: Some(0),
        ..RecordFlowRequest::default()
    };
    assert_eq!(
        RecordingPlan::resolve(&request).unwrap_err(),
        RecordingError::EmptyEventLimit
    );
}

#[test]
fn text_capture_and_mouse_moves_are_both_off_by_default() {
    let resolved = RecordingPlan::resolve(&RecordFlowRequest::default()).expect("resolve");
    assert!(!resolved.capture_text, "text capture must be opt-in");
    assert!(!resolved.record_mouse_moves);
}

#[test]
fn both_opt_ins_reach_the_plan() {
    let request = RecordFlowRequest {
        capture_text: Some(true),
        record_mouse_moves: Some(true),
        ..RecordFlowRequest::default()
    };
    let resolved = RecordingPlan::resolve(&request).expect("resolve");
    assert!(resolved.capture_text);
    assert!(resolved.record_mouse_moves);
}

#[test]
fn moves_and_drags_are_the_high_frequency_types() {
    for event_type in [
        RAW_MOUSE_MOVED,
        RAW_LEFT_MOUSE_DRAGGED,
        RAW_RIGHT_MOUSE_DRAGGED,
        RAW_OTHER_MOUSE_DRAGGED,
    ] {
        assert!(is_mouse_move_type(event_type), "type {event_type}");
    }
    assert!(!is_mouse_move_type(RAW_LEFT_MOUSE_DOWN));
    assert!(!is_mouse_move_type(RAW_KEY_DOWN));
}

#[test]
fn both_disable_notices_are_recognized() {
    assert!(is_tap_disabled_type(RAW_TAP_DISABLED_BY_TIMEOUT));
    assert!(is_tap_disabled_type(RAW_TAP_DISABLED_BY_USER_INPUT));
    assert!(!is_tap_disabled_type(RAW_KEY_DOWN));
}

#[test]
fn every_recorded_type_maps_to_one_kind() {
    assert_eq!(
        kind_for_raw_type(RAW_KEY_DOWN),
        Some(RecordedEventKind::KeyDown)
    );
    assert_eq!(
        kind_for_raw_type(RAW_KEY_UP),
        Some(RecordedEventKind::KeyUp)
    );
    assert_eq!(
        kind_for_raw_type(RAW_FLAGS_CHANGED),
        Some(RecordedEventKind::FlagsChanged)
    );
    assert_eq!(
        kind_for_raw_type(RAW_LEFT_MOUSE_DOWN),
        Some(RecordedEventKind::MouseDown)
    );
    assert_eq!(
        kind_for_raw_type(RAW_RIGHT_MOUSE_UP),
        Some(RecordedEventKind::MouseUp)
    );
    assert_eq!(
        kind_for_raw_type(RAW_MOUSE_MOVED),
        Some(RecordedEventKind::MouseMoved)
    );
    assert_eq!(
        kind_for_raw_type(RAW_LEFT_MOUSE_DRAGGED),
        Some(RecordedEventKind::MouseDragged)
    );
    assert_eq!(
        kind_for_raw_type(RAW_SCROLL_WHEEL),
        Some(RecordedEventKind::Scroll)
    );
}

#[test]
fn an_unknown_raw_type_maps_to_no_kind() {
    assert_eq!(kind_for_raw_type(23), None);
    assert_eq!(kind_for_raw_type(RAW_TAP_DISABLED_BY_TIMEOUT), None);
}

#[test]
fn the_button_table_covers_all_three_buttons() {
    assert_eq!(
        button_for_raw_type(RAW_LEFT_MOUSE_DOWN),
        Some(MouseButton::Left)
    );
    assert_eq!(
        button_for_raw_type(RAW_RIGHT_MOUSE_UP),
        Some(MouseButton::Right)
    );
    assert_eq!(
        button_for_raw_type(RAW_OTHER_MOUSE_DOWN),
        Some(MouseButton::Other)
    );
    assert_eq!(button_for_raw_type(RAW_KEY_DOWN), None);
    assert_eq!(button_for_raw_type(RAW_SCROLL_WHEEL), None);
}

#[test]
fn no_flags_produce_no_modifiers() {
    assert!(modifiers_from_flags(0).is_empty());
}

#[test]
fn each_mask_produces_its_own_modifier() {
    assert_eq!(
        modifiers_from_flags(FLAG_MASK_COMMAND),
        vec![Modifier::Command]
    );
    assert_eq!(modifiers_from_flags(FLAG_MASK_SHIFT), vec![Modifier::Shift]);
    assert_eq!(
        modifiers_from_flags(FLAG_MASK_ALTERNATE),
        vec![Modifier::Option]
    );
    assert_eq!(
        modifiers_from_flags(FLAG_MASK_CONTROL),
        vec![Modifier::Control]
    );
}

#[test]
fn modifiers_come_back_in_a_fixed_order() {
    let flags = FLAG_MASK_CONTROL | FLAG_MASK_COMMAND | FLAG_MASK_SHIFT;
    assert_eq!(
        modifiers_from_flags(flags),
        vec![Modifier::Command, Modifier::Shift, Modifier::Control]
    );
}

#[test]
fn unrelated_flag_bits_are_ignored() {
    assert!(modifiers_from_flags(0x0001_0000 | 0x0000_0001).is_empty());
}

#[test]
fn known_key_codes_map_back_to_their_named_keys() {
    assert_eq!(named_key_from_key_code(0x24), Some(NamedKey::Return));
    assert_eq!(named_key_from_key_code(0x30), Some(NamedKey::Tab));
    assert_eq!(named_key_from_key_code(0x31), Some(NamedKey::Space));
    assert_eq!(named_key_from_key_code(0x33), Some(NamedKey::Delete));
    assert_eq!(named_key_from_key_code(0x35), Some(NamedKey::Escape));
    assert_eq!(named_key_from_key_code(0x7B), Some(NamedKey::ArrowLeft));
    assert_eq!(named_key_from_key_code(0x7C), Some(NamedKey::ArrowRight));
    assert_eq!(named_key_from_key_code(0x7D), Some(NamedKey::ArrowDown));
    assert_eq!(named_key_from_key_code(0x7E), Some(NamedKey::ArrowUp));
}

#[test]
fn a_letter_key_code_names_no_named_key() {
    assert_eq!(named_key_from_key_code(0x00), None);
}

#[test]
fn a_point_normalizes_against_the_display_that_holds_it() {
    let (id, x, y) = normalize_to_display(&Ieee, num(500.0), num(250.0), &one_display()).expect("a display");
    assert_eq!(id, 1);
    assert!((value(x) - 0.5).abs() < 1e-9);
    assert!((value(y) - 0.5).abs() < 1e-9);
}

#[test]
fn a_point_on_a_second_display_reports_that_display() {
    let (id, x, y) = normalize_to_display(&Ieee, num(1400.0), num(100.0), &two_displays()).expect("a display");
    assert_eq!(id, 2);
    assert!((value(x) - 0.5).abs() < 1e-9);
    assert!((value(y) - 0.25).abs() < 1e-9);
}

#[test]
fn an_off_screen_point_clamps_against_the_main_display() {
    let (id, x, y) = normalize_to_display(&Ieee, num(-40.0), num(9_000.0), &two_displays()).expect("a display");
    assert_eq!(id, 1);
    assert_eq!(x, num(0.0));
    assert_eq!(y, num(1.0));
}

#[test]
fn no_display_normalizes_nothing() {
    assert_eq!(normalize_to_display(&Ieee, num(10.0), num(10.0), &[]), None);
}

#[test]
fn a_key_down_carries_its_code_and_its_named_key() {
    let event = RawTapEvent {
        event_type: RAW_KEY_DOWN,
        key_code: 0x24,
        ..raw(RAW_KEY_DOWN, 0)
    };
    let recorded = translate_event(&Ieee, &event, 0, &one_display(), &plan()).expect("an event");
    assert_eq!(recorded.kind, RecordedEventKind::KeyDown);
    assert_eq!(recorded.key_code, Some(0x24));
    assert_eq!(recorded.key, Some(NamedKey::Return));
}

#[test]
fn a_key_event_with_no_named_key_still_carries_its_code() {
    let event = RawTapEvent {
        key_code: 0x00,
        ..raw(RAW_KEY_DOWN, 0)
    };
    let recorded = translate_event(&Ieee, &event, 0, &one_display(), &plan()).expect("an event");
    assert_eq!(recorded.key_code, Some(0x00));
    assert_eq!(recorded.key, None);
}

#[test]
fn a_key_event_carries_the_modifiers_held_with_it() {
    let event = RawTapEvent {
        key_code: 0x24,
        flags: FLAG_MASK_COMMAND | FLAG_MASK_SHIFT,
        ..raw(RAW_KEY_DOWN, 0)
    };
    let recorded = translate_event(&Ieee, &event, 0, &one_display(), &plan()).expect("an event");
    assert_eq!(recorded.modifiers, vec![Modifier::Command, Modifier::Shift]);
}

#[test]
fn a_click_carries_a_normalized_point_and_a_click_count() {
    let event = RawTapEvent {
        pixel_x: num(250.0),
        pixel_y: num(125.0),
        click_count: 2,
        ..raw(RAW_LEFT_MOUSE_DOWN, 0)
    };
    let recorded = translate_event(&Ieee, &event, 0, &one_display(), &plan()).expect("an event");
    assert_eq!(recorded.kind, RecordedEventKind::MouseDown);
    assert_eq!(recorded.button, Some(MouseButton::Left));
    assert_eq!(recorded.click_count, Some(2));
    assert_eq!(recorded.display_id, Some(1));
    assert_eq!(recorded.x, Some(num(0.25)));
    assert_eq!(recorded.y, Some(num(0.25)));
    assert_eq!(recorded.key_code, None);
}

#[test]
fn a_click_count_of_zero_reads_as_one_click() {
    let event = RawTapEvent {
        click_count: 0,
        ..raw(RAW_LEFT_MOUSE_UP, 0)
    };
    let recorded = translate_event(&Ieee, &event, 0, &one_display(), &plan()).expect("an event");
    assert_eq!(recorded.click_count, Some(1));
}

#[test]
fn a_scroll_carries_both_deltas_and_no_key() {
    let event = RawTapEvent {
        scroll_delta_x: -2,
        scroll_delta_y: 7,
        ..raw(RAW_SCROLL_WHEEL, 0)
    };
    let recorded = translate_event(&Ieee, &event, 0, &one_display(), &plan()).expect("an event");
    assert_eq!(recorded.kind, RecordedEventKind::Scroll);
    assert_eq!(recorded.scroll_delta_x, Some(-2));
    assert_eq!(recorded.scroll_delta_y, Some(7));
    assert_eq!(recorded.key_code, None);
    assert_eq!(recorded.click_count, None);
}

#[test]
fn a_move_is_dropped_unless_the_caller_asks_for_it() {
    let event = raw(RAW_MOUSE_MOVED, 0);
    assert_eq!(translate_event(&Ieee, &event, 0, &one_display(), &plan()), None);
    let asked = RecordingPlan {
        record_mouse_moves: true,
        ..plan()
    };
    let recorded = translate_event(&Ieee, &event, 0, &one_display(), &asked).expect("an event");
    assert_eq!(recorded.kind, RecordedEventKind::MouseMoved);
}

#[test]
fn a_disable_notice_is_never_an_event() {
    let event = raw(RAW_TAP_DISABLED_BY_TIMEOUT, 0);
    assert_eq!(translate_event(&Ieee, &event, 0, &one_display(), &plan()), None);
}

#[test]
fn an_offset_counts_from_the_start_of_the_recording() {
    let event = raw(RAW_KEY_DOWN, 1_500_000_000);
    let recorded =
        translate_event(&Ieee, &event, 1_000_000_000, &one_display(), &plan()).expect("an event");
    assert_eq!(recorded.offset_ms, 500);
}

#[test]
fn an_event_stamped_before_the_start_gets_offset_zero() {
    let event = raw(RAW_KEY_DOWN, 5);
    let recorded =
        translate_event(&Ieee, &event, 1_000_000_000, &one_display(), &plan()).expect("an event");
    assert_eq!(recorded.offset_ms, 0);
}

#[test]
fn typed_text_is_withheld_by_default() {
    let event = RawTapEvent {
        key_code: 0x00,
        characters: Some("hunter2".to_string()),
        ..raw(RAW_KEY_DOWN, 0)
    };
    let recorded = translate_event(&Ieee, &event, 0, &one_display(), &plan()).expect("an event");
    assert_eq!(recorded.text, None, "a default recording holds no text");
    assert!(recorded.redacted);
}

#[test]
fn typed_text_travels_only_when_the_caller_opts_in() {
    let event = RawTapEvent {
        characters: Some("a".to_string()),
        ..raw(RAW_KEY_DOWN, 0)
    };
    let opted_in = RecordingPlan {
        capture_text: true,
        ..plan()
    };
    let recorded = translate_event(&Ieee, &event, 0, &one_display(), &opted_in).expect("an event");
    assert_eq!(recorded.text.as_deref(), Some("a"));
    assert!(!recorded.redacted);
}

#[test]
fn a_click_is_never_marked_redacted() {
    let recorded =
        translate_event(&Ieee, &raw(RAW_LEFT_MOUSE_DOWN, 0), 0, &one_display(), &plan()).expect("one");
    assert!(!recorded.redacted, "a click carries no characters at all");
    assert_eq!(recorded.text, None);
}

#[test]
fn only_a_key_event_ever_carries_text() {
    let mut opted_in = plan();
    opted_in.capture_text = true;

    for raw_type in [RAW_LEFT_MOUSE_DOWN, RAW_LEFT_MOUSE_UP, RAW_SCROLL_WHEEL] {
        let mut event = raw(raw_type, 0);
        event.characters = Some("hunter2".to_string());
        let recorded = translate_event(&Ieee, &event, 0, &one_display(), &opted_in)
            .expect("the event is recordable");
        assert_eq!(
            recorded.text, None,
            "a {:?} event carried text",
            recorded.kind
        );
    }

    let mut key = raw(RAW_KEY_DOWN, 0);
    key.characters = Some("hunter2".to_string());
    let recorded = translate_event(&Ieee, &key, 0, &one_display(), &opted_in).unwrap();
    assert_eq!(recorded.text.as_deref(), Some("hunter2"));
}

#[test]
fn a_recording_the_tap_truncated_is_not_complete() {
    let recording = RawRecording {
        events: vec![raw(RAW_KEY_DOWN, 0), raw(RAW_KEY_UP, 1_000_000)],
        started_ns: 0,
        elapsed_ms: 5_000,
        dropped_events: 7,
    };
    let mut plan = plan();
    plan.max_events = 2;

    let response = assemble_recording(&Ieee, &recording, &one_display(), &plan);

    assert_eq!(response.dropped_events, 7);
    assert!(!response.complete, "input was lost");
    assert_eq!(response.stopped_because, StopReason::EventLimit);
    assert!(
        response.warnings.iter().any(|w| w.contains("7")),
        "the warning must name how many were lost: {:?}",
        response.warnings
    );
}

#[test]
fn a_clean_recording_reports_itself_complete() {
    let recording = RawRecording {
        events: vec![raw(RAW_KEY_DOWN, 0), raw(RAW_KEY_UP, 1_000_000)],
        started_ns: 0,
        elapsed_ms: 5_000,
        dropped_events: 0,
    };
    let response = assemble_recording(&Ieee, &recording, &one_display(), &plan());
    assert_eq!(response.event_count, 2);
    assert_eq!(response.events.len(), 2);
    assert!(response.complete);
    assert!(response.warnings.is_empty());
    assert_eq!(response.stopped_because, StopReason::Duration);
    assert_eq!(response.recorded_ms, 5_000);
    assert_eq!(response.dropped_events, 0);
}

#[test]
fn a_tap_disabled_by_timeout_is_counted_and_reported() {
    let recording = RawRecording {
        events: vec![
            raw(RAW_KEY_DOWN, 0),
            raw(RAW_TAP_DISABLED_BY_TIMEOUT, 1),
            raw(RAW_KEY_UP, 2),
        ],
        started_ns: 0,
        elapsed_ms: 5_000,
        dropped_events: 0,
    };
    let response = assemble_recording(&Ieee, &recording, &one_display(), &plan());
    assert_eq!(response.tap_disabled_by_timeout, 1);
    assert_eq!(response.tap_disabled_by_user_input, 0);
    assert_eq!(response.event_count, 2, "the notice is not an event");
    assert!(!response.complete, "a disabled tap loses real input");
    assert_eq!(response.warnings.len(), 1);
    assert!(
        response.warnings[0].contains("timeout"),
        "the warning must name the cause: {}",
        response.warnings[0]
    );
}

#[test]
fn a_tap_disabled_by_user_input_is_counted_and_reported() {
    let recording = RawRecording {
        events: vec![raw(RAW_TAP_DISABLED_BY_USER_INPUT, 0)],
        started_ns: 0,
        elapsed_ms: 5_000,
        dropped_events: 0,
    };
    let response = assemble_recording(&Ieee, &recording, &one_display(), &plan());
    assert_eq!(response.tap_disabled_by_user_input, 1);
    assert!(!response.complete);
    assert_eq!(response.warnings.len(), 1);
}

#[test]
fn every_disable_notice_is_counted_not_just_the_first() {
    let recording = RawRecording {
        events: vec![
            raw(RAW_TAP_DISABLED_BY_TIMEOUT, 0),
            raw(RAW_TAP_DISABLED_BY_TIMEOUT, 1),
            raw(RAW_TAP_DISABLED_BY_USER_INPUT, 2),
        ],
        started_ns: 0,
        elapsed_ms: 100,
        dropped_events: 0,
    };
    let response = assemble_recording(&Ieee, &recording, &one_display(), &plan());
    assert_eq!(response.tap_disabled_by_timeout, 2);
    assert_eq!(response.tap_disabled_by_user_input, 1);
    assert_eq!(response.warnings.len(), 2, "one warning per cause");
}

#[test]
fn a_full_event_budget_truncates_and_says_so() {
    let small = RecordingPlan {
        max_events: 2,
        ..plan()
    };
    let recording = RawRecording {
        events: vec![
            raw(RAW_KEY_DOWN, 0),
            raw(RAW_KEY_UP, 1),
            raw(RAW_KEY_DOWN, 2),
            raw(RAW_KEY_UP, 3),
        ],
        started_ns: 0,
        elapsed_ms: 40,
        dropped_events: 0,
    };
    let response = assemble_recording(&Ieee, &recording, &one_display(), &small);
    assert_eq!(response.events.len(), 2);
    assert_eq!(response.event_count, 2);
    assert_eq!(response.dropped_events, 2);
    assert_eq!(response.stopped_because, StopReason::EventLimit);
    assert!(!response.complete);
    assert_eq!(response.warnings.len(), 1);
}

#[test]
fn offsets_never_go_backwards() {
    let recording = RawRecording {
        events: vec![
            raw(RAW_KEY_DOWN, 3_000_000),
            raw(RAW_KEY_UP, 1_000_000),
            raw(RAW_KEY_DOWN, 9_000_000),
        ],
        started_ns: 0,
        elapsed_ms: 10,
        dropped_events: 0,
    };
    let response = assemble_recording(&Ieee, &recording, &one_display(), &plan());
    let offsets: Vec<u64> = response
        .events
        .iter()
        .map(|event| event.offset_ms)
        .collect();
    assert_eq!(offsets, vec![3, 3, 9]);
}

#[test]
fn an_unrecorded_raw_type_is_left_out_silently() {
    let recording = RawRecording {
        events: vec![raw(24, 0), raw(RAW_KEY_DOWN, 0)],
        started_ns: 0,
        elapsed_ms: 10,
        dropped_events: 0,
    };
    let response = assemble_recording(&Ieee, &recording, &one_display(), &plan());
    assert_eq!(response.event_count, 1);
    assert!(response.complete, "an unread type is not lost input");
}

#[test]
fn the_response_reports_whether_text_was_captured() {
    let recording = RawRecording::default();
    let response = assemble_recording(&Ieee, &recording, &one_display(), &plan());
    assert!(!response.text_captured);
    let opted_in = RecordingPlan {
        capture_text: true,
        ..plan()
    };
    let response = assemble_recording(&Ieee, &recording, &one_display(), &opted_in);
    assert!(response.text_captured);
}

#[test]
fn the_resolved_plan_reaches_the_recorder() {
    let recorder = FakeRecorder::new(RawRecording::default());
    let request = RecordFlowRequest {
        duration_ms: Some(1_234),
        max_events: Some(7),
        record_mouse_moves: Some(true),
        capture_text: Some(true),
    };
    perform_record_flow(&Ieee, &recorder, &FakeDisplays(one_display()), &request).expect("a response");
    let seen = recorder.seen.borrow();
    assert_eq!(seen.len(), 1);
    assert_eq!(
        seen[0],
        RecordingPlan {
            duration_ms: 1_234,
            max_events: 7,
            record_mouse_moves: true,
            capture_text: true,
        }
    );
}

#[test]
fn a_refused_request_never_starts_a_tap() {
    let recorder = FakeRecorder::new(RawRecording::default());
    let request = RecordFlowRequest {
        duration_ms: Some(0),
        ..RecordFlowRequest::default()
    };
    let error =
        perform_record_flow(&Ieee, &recorder, &FakeDisplays(one_display()), &request).unwrap_err();
    assert!(error.message(&Ieee).contains("duration_ms"));
    assert!(
        recorder.seen.borrow().is_empty(),
        "a bad request must not open a tap"
    );
}

#[test]
fn an_empty_display_list_is_an_error() {
    let recorder = FakeRecorder::new(RawRecording::default());
    let error = perform_record_flow(
        &Ieee, &recorder,
        &FakeDisplays(Vec::new()),
        &RecordFlowRequest::default(),
    )
    .unwrap_err();
    assert_eq!(
        error.message(&Ieee),
        PolarizeError::from(RecordingError::NoDisplays).message(&Ieee)
    );
    assert!(recorder.seen.borrow().is_empty());
}

#[test]
fn a_display_read_failure_travels_back_unchanged() {
    let recorder = FakeRecorder::new(RawRecording::default());
    let error = perform_record_flow(&Ieee, &recorder, &FailingDisplays, &RecordFlowRequest::default())
        .unwrap_err();
    assert!(error.message(&Ieee).contains("no window server"));
}

#[test]
fn a_tap_failure_travels_back_unchanged() {
    let error = perform_record_flow(
        &Ieee, &FailingRecorder,
        &FakeDisplays(one_display()),
        &RecordFlowRequest::default(),
    )
    .unwrap_err();
    assert!(error.message(&Ieee).contains("tap refused"));
}

#[test]
fn the_response_carries_the_resolved_duration_and_the_real_one() {
    let recorder = FakeRecorder::new(RawRecording {
        events: vec![raw(RAW_KEY_DOWN, 0)],
        started_ns: 0,
        elapsed_ms: 812,
        dropped_events: 0,
    });
    let request = RecordFlowRequest {
        duration_ms: Some(5 * MAX_DURATION_MS),
        ..RecordFlowRequest::default()
    };
    let response =
        perform_record_flow(&Ieee, &recorder, &FakeDisplays(one_display()), &request).expect("ok");
    assert_eq!(response.requested_duration_ms, MAX_DURATION_MS);
    assert_eq!(response.recorded_ms, 812);
}

#[test]
fn a_platform_that_leaks_characters_is_still_redacted() {
    let recorder = FakeRecorder::new(RawRecording {
        events: vec![RawTapEvent {
            characters: Some("secret".to_string()),
            ..raw(RAW_KEY_DOWN, 0)
        }],
        started_ns: 0,
        elapsed_ms: 10,
        dropped_events: 0,
    });
    let response = perform_record_flow(
        &Ieee, &recorder,
        &FakeDisplays(one_display()),
        &RecordFlowRequest::default(),
    )
    .expect("ok");
    assert_eq!(response.events[0].text, None);
    assert!(response.events[0].redacted);
    assert!(!response.text_captured);
}

#[test]
fn a_recorded_click_is_a_fraction_a_tap_accepts() {
    let recorder = FakeRecorder::new(RawRecording {
        events: vec![RawTapEvent {
            pixel_x: num(12_000.0),
            pixel_y: num(-3.0),
            ..raw(RAW_LEFT_MOUSE_DOWN, 0)
        }],
        started_ns: 0,
        elapsed_ms: 10,
        dropped_events: 0,
    });
    let response = perform_record_flow(
        &Ieee, &recorder,
        &FakeDisplays(two_displays()),
        &RecordFlowRequest::default(),
    )
    .expect("ok");
    let event = &response.events[0];
    let fraction = Fraction {
        x: event.x.expect("an x"),
        y: event.y.expect("a y"),
    };
    let size = PixelSize {
        width: num(1000.0),
        height: num(500.0),
    };
    assert!(fraction_to_pixel(&Ieee, fraction, size).is_ok());
}
