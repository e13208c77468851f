use polarize_core::ax::NormalizedFrame;
use polarize_core::binary64::{Numbers, Real};
use polarize_core::coords::{fraction_to_pixel, Fraction, PixelSize};
use polarize_core::error::PolarizeError;
use polarize_core::find_text::{
    flip_to_top_left, matched_range, perform_find_text, pick_match, scan_lines, union, word_spans,
    FindTextError, FindTextRequest, RecognitionLevel, RecognizeOptions, RecognizedLine,
    RecognizedWord, TextMatchMode, VisionRect, DEFAULT_MIN_CONFIDENCE,
};
use polarize_core::schema::{AppIdentifier, ScreenshotTarget};
use polarize_core::traits::{CapturedImage, ScreenCapture, TextRecognizer};
use std::cell::RefCell;

struct Ieee;

impl Numbers for Ieee {
    fn sum(&self, a: Real, b: Real) -> Real {
        num(f64::from_bits(a.bits) + f64::from_bits(b.bits))
    }

    fn difference(&self, a: Real, b: Real) -> Real {
        num(f64::from_bits(a.bits) - f64::from_bits(b.bits))
    }

    fn product(&self, a: Real, b: Real) -> Real {
        num(f64::from_bits(a.bits) * f64::from_bits(b.bits))
    }

    fn quotient(&self, a: Real, b: Real) -> Real {
        num(f64::from_bits(a.bits) / f64::from_bits(b.bits))
    }

    fn shown(&self, value: Real) -> String {
        format!("{}", f64::from_bits(value.bits))
    }

    fn shown_to_hundredths(&self, value: Real) -> String {
        format!("{:.2}", f64::from_bits(value.bits))
    }
}

fn num(value: f64) -> Real {
    Real { bits: value.to_bits() }
}

fn value(r: Real) -> f64 {
    f64::from_bits(r.bits)
}

fn floor() -> Real {
    Real { bits: DEFAULT_MIN_CONFIDENCE }
}

fn vision_rect(x: Real, y: Real, width: Real, height: Real) -> VisionRect {
    VisionRect {
        x,
        y,
        width,
        height,
    }
}

fn line(text: &str, confidence: Real, bounds: VisionRect) -> RecognizedLine {
    RecognizedLine {
        text: text.to_string(),
        confidence,
        bounds,
        words: Vec::new(),
    }
}

fn assert_close(actual: Real, expected: Real, what: &str) {
    let (actual, expected) = (value(actual), value(expected));
    assert!(
        (actual - expected).abs() < 1e-9,
        "{what}: expected {expected}, got {actual}"
    );
}

fn assert_frame(actual: NormalizedFrame, expected: [Real; 4], what: &str) {
    assert_close(actual.x, expected[0], &format!("{what}.x"));
    assert_close(actual.y, expected[1], &format!("{what}.y"));
    assert_close(actual.width, expected[2], &format!("{what}.width"));
    assert_close(actual.height, expected[3], &format!("{what}.height"));
}

#[derive(Debug, Clone, PartialEq)]
enum CaptureCall {
    Screen(Option<u32>),
    Window(AppIdentifier, Option<String>),
}

struct FakeCapture {
    image: CapturedImage,
    calls: RefCell<Vec<CaptureCall>>,
    fail: bool,
}

impl FakeCapture {
    fn new() -> Self {
        Self {
            image: CapturedImage {
                png_bytes: vec![0x89, b'P', b'N', b'G'],
                width: 2560,
                height: 1600,
            },
            calls: RefCell::new(Vec::new()),
            fail: false,
        }
    }

    fn failing() -> Self {
        Self {
            fail: true,
            ..Self::new()
        }
    }
}

impl ScreenCapture for FakeCapture {
    fn capture_screen(&self, display_id: Option<u32>) -> Result<CapturedImage, PolarizeError> {
        self.calls
            .borrow_mut()
            .push(CaptureCall::Screen(display_id));
        if self.fail {
            return Err(PolarizeError::Platform("capture refused".to_string()));
        }
        Ok(self.image.clone())
    }

    fn capture_window(
        &self,
        app: &AppIdentifier,
        window_title: Option<&str>,
    ) -> Result<CapturedImage, PolarizeError> {
        self.calls.borrow_mut().push(CaptureCall::Window(
            app.clone(),
            window_title.map(str::to_string),
        ));
        if self.fail {
            return Err(PolarizeError::Platform("capture refused".to_string()));
        }
        Ok(self.image.clone())
    }
}

struct FakeRecognizer {
    lines: Vec<RecognizedLine>,
    calls: RefCell<Vec<(CapturedImage, RecognizeOptions)>>,
}

impl FakeRecognizer {
    fn new(lines: Vec<RecognizedLine>) -> Self {
        Self {
            lines,
            calls: RefCell::new(Vec::new()),
        }
    }
}

impl TextRecognizer for FakeRecognizer {
    fn recognize_text(
        &self,
        image: &CapturedImage,
        options: &RecognizeOptions,
    ) -> Result<Vec<RecognizedLine>, PolarizeError> {
        self.calls
            .borrow_mut()
            .push((image.clone(), options.clone()));
        Ok(self.lines.clone())
    }
}

#[test]
fn a_full_frame_box_flips_to_a_full_frame() {
    let frame = flip_to_top_left(&Ieee, vision_rect(num(0.0), num(0.0), num(1.0), num(1.0)));
    assert_frame(frame, [num(0.0), num(0.0), num(1.0), num(1.0)], "full frame");
}

#[test]
fn a_box_at_the_bottom_of_the_image_flips_to_the_bottom() {
    let frame = flip_to_top_left(&Ieee, vision_rect(num(0.0), num(0.0), num(1.0), num(0.1)));
    assert_frame(frame, [num(0.0), num(0.9), num(1.0), num(0.1)], "bottom strip");
}

#[test]
fn a_box_at_the_top_of_the_image_flips_to_zero() {
    let frame = flip_to_top_left(&Ieee, vision_rect(num(0.0), num(0.9), num(1.0), num(0.1)));
    assert_frame(frame, [num(0.0), num(0.0), num(1.0), num(0.1)], "top strip");
}

#[test]
fn each_corner_flips_to_the_mirrored_corner() {
    let cases = [
        ([num(0.0), num(0.0), num(0.1), num(0.1)], [num(0.0), num(0.9), num(0.1), num(0.1)], "bottom left"),
        ([num(0.9), num(0.0), num(0.1), num(0.1)], [num(0.9), num(0.9), num(0.1), num(0.1)], "bottom right"),
        ([num(0.0), num(0.9), num(0.1), num(0.1)], [num(0.0), num(0.0), num(0.1), num(0.1)], "top left"),
        ([num(0.9), num(0.9), num(0.1), num(0.1)], [num(0.9), num(0.0), num(0.1), num(0.1)], "top right"),
    ];
    for (input, expected, name) in cases {
        let frame = flip_to_top_left(&Ieee, vision_rect(input[0], input[1], input[2], input[3]));
        assert_frame(frame, expected, name);
    }
}

#[test]
fn the_x_axis_never_moves_in_a_flip() {
    let frame = flip_to_top_left(&Ieee, vision_rect(num(0.25), num(0.5), num(0.3), num(0.2)));
    assert_close(frame.x, num(0.25), "x");
    assert_close(frame.width, num(0.3), "width");
}

#[test]
fn a_box_reaching_outside_the_unit_square_clamps() {
    let frame = flip_to_top_left(&Ieee, vision_rect(num(-0.2), num(-0.1), num(0.5), num(0.4)));
    assert_frame(frame, [num(0.0), num(0.7), num(0.3), num(0.3)], "clamped low");

    let frame = flip_to_top_left(&Ieee, vision_rect(num(0.8), num(0.8), num(0.5), num(0.5)));
    assert_frame(frame, [num(0.8), num(0.0), num(0.2), num(0.2)], "clamped high");
}

#[test]
fn a_non_finite_box_component_becomes_zero() {
    let frame = flip_to_top_left(&Ieee, vision_rect(num(f64::NAN), num(0.0), num(f64::INFINITY), num(0.2)));
    assert!(frame.x.is_finite(), "x must be finite, got {:?}", frame.x);
    assert!(frame.y.is_finite(), "y must be finite, got {:?}", frame.y);
    assert!(frame.width.is_finite(), "width must be finite");
    assert!(frame.height.is_finite(), "height must be finite");
}

#[test]
fn every_flipped_frame_center_is_a_valid_tap_fraction() {
    let size = PixelSize {
        width: num(2560.0),
        height: num(1600.0),
    };
    let boxes = [
        vision_rect(num(0.0), num(0.0), num(1.0), num(1.0)),
        vision_rect(num(0.0), num(0.0), num(0.01), num(0.01)),
        vision_rect(num(0.99), num(0.99), num(0.01), num(0.01)),
        vision_rect(num(-0.5), num(-0.5), num(2.0), num(2.0)),
        vision_rect(num(0.5), num(0.5), num(0.0), num(0.0)),
    ];
    for rect in boxes {
        let frame = flip_to_top_left(&Ieee, rect);
        let fraction = Fraction {
            x: num(value(frame.x) + value(frame.width) / 2.0),
            y: num(value(frame.y) + value(frame.height) / 2.0),
        };
        assert!(
            fraction_to_pixel(&Ieee, fraction, size).is_ok(),
            "flipped center {fraction:?} must be a valid tap fraction"
        );
    }
}

#[test]
fn a_flip_moves_the_center_to_the_mirrored_center() {
    let rect = vision_rect(num(0.1), num(0.2), num(0.2), num(0.2));
    let vision_center_y = value(rect.y) + value(rect.height) / 2.0;
    let frame = flip_to_top_left(&Ieee, rect);
    let frame_center_y = value(frame.y) + value(frame.height) / 2.0;
    assert_close(num(frame_center_y), num(1.0 - vision_center_y), "mirrored center");
}

#[test]
fn a_union_of_two_boxes_covers_both() {
    let joined = union(
        &Ieee, vision_rect(num(0.1), num(0.5), num(0.1), num(0.05)),
        vision_rect(num(0.3), num(0.4), num(0.2), num(0.1)),
    );
    assert_close(joined.x, num(0.1), "union.x");
    assert_close(joined.y, num(0.4), "union.y");
    assert_close(joined.width, num(0.4), "union.width");
    assert_close(joined.height, num(0.15), "union.height");
}

#[test]
fn a_union_of_one_box_with_itself_is_that_box() {
    let rect = vision_rect(num(0.2), num(0.3), num(0.1), num(0.4));
    let joined = union(&Ieee, rect, rect);
    assert_close(joined.x, rect.x, "union.x");
    assert_close(joined.y, rect.y, "union.y");
    assert_close(joined.width, rect.width, "union.width");
    assert_close(joined.height, rect.height, "union.height");
}

#[test]
fn word_spans_splits_on_whitespace() {
    let spans = word_spans("File Edit View");
    assert_eq!(spans.len(), 3);
    assert_eq!(spans[0].byte_start, 0);
    assert_eq!(spans[0].byte_end, 4);
    assert_eq!(spans[1].byte_start, 5);
    assert_eq!(spans[1].byte_end, 9);
    assert_eq!(spans[2].byte_start, 10);
    assert_eq!(spans[2].byte_end, 14);
}

#[test]
fn word_spans_ignores_repeated_and_edge_whitespace() {
    let spans = word_spans("  Save   As  ");
    assert_eq!(spans.len(), 2);
    assert_eq!(spans[0].utf16_start, 2);
    assert_eq!(spans[0].utf16_len, 4);
    assert_eq!(spans[1].utf16_start, 9);
    assert_eq!(spans[1].utf16_len, 2);
}

#[test]
fn word_spans_counts_utf16_units_for_non_ascii_text() {
    let spans = word_spans("café 😀x");
    assert_eq!(spans.len(), 2);
    assert_eq!(spans[0].byte_end, 5);
    assert_eq!(spans[0].utf16_len, 4);
    assert_eq!(spans[1].utf16_start, 5);
    assert_eq!(spans[1].utf16_len, 3);
}

#[test]
fn word_spans_of_blank_text_is_empty() {
    assert!(word_spans("").is_empty());
    assert!(word_spans("   ").is_empty());
}

#[test]
fn contains_matches_a_substring_case_insensitively_by_default() {
    let range = matched_range("Save changes", "save", TextMatchMode::Contains, false);
    assert_eq!(range, Some((0, 4)));
}

#[test]
fn a_case_sensitive_contains_rejects_a_different_case() {
    assert_eq!(
        matched_range("Save changes", "save", TextMatchMode::Contains, true),
        None
    );
    assert_eq!(
        matched_range("Save changes", "Save", TextMatchMode::Contains, true),
        Some((0, 4))
    );
}

#[test]
fn contains_reports_the_byte_range_inside_a_multibyte_line() {
    let range = matched_range("café latte", "latte", TextMatchMode::Contains, false);
    assert_eq!(range, Some((6, 11)));
}

#[test]
fn exact_needs_the_whole_line_and_ignores_edge_whitespace() {
    assert_eq!(
        matched_range("  Save  ", "Save", TextMatchMode::Exact, false),
        Some((2, 6))
    );
    assert_eq!(
        matched_range("Save changes", "Save", TextMatchMode::Exact, false),
        None
    );
}

#[test]
fn a_line_that_does_not_hold_the_text_never_matches() {
    assert_eq!(
        matched_range("Cancel", "Save", TextMatchMode::Contains, false),
        None
    );
}

#[test]
fn a_line_below_the_confidence_floor_never_matches() {
    let lines = vec![
        line("Save", num(0.2), vision_rect(num(0.0), num(0.5), num(0.1), num(0.05))),
        line("Save", num(0.9), vision_rect(num(0.0), num(0.2), num(0.1), num(0.05))),
    ];
    let mut request = FindTextRequest::new("Save");
    request.min_confidence = Some(num(0.5));
    let scan = scan_lines(&Ieee, &lines, &request).expect("scan");
    assert_eq!(scan.matches.len(), 1);
    assert_close(scan.matches[0].confidence, num(0.9), "kept confidence");
    assert_eq!(scan.below_confidence_count, 1);
    assert_eq!(scan.observation_count, 2);
}

#[test]
fn a_request_with_no_floor_uses_the_default_floor() {
    let lines = vec![
        line(
            "Save",
            num(value(floor()) - 0.01),
            vision_rect(num(0.0), num(0.5), num(0.1), num(0.05)),
        ),
        line(
            "Save",
            floor(),
            vision_rect(num(0.0), num(0.2), num(0.1), num(0.05)),
        ),
    ];
    let scan = scan_lines(&Ieee, &lines, &FindTextRequest::new("Save")).expect("scan");
    assert_eq!(scan.matches.len(), 1);
    assert_close(scan.min_confidence, floor(), "floor");
    assert_eq!(scan.below_confidence_count, 1);
}

#[test]
fn an_out_of_range_min_confidence_is_rejected() {
    let mut request = FindTextRequest::new("Save");
    request.min_confidence = Some(num(1.5));
    let err = scan_lines(&Ieee, &[], &request).unwrap_err();
    assert_eq!(err, FindTextError::InvalidConfidence { value: num(1.5) });

    request.min_confidence = Some(num(-0.1));
    let err = scan_lines(&Ieee, &[], &request).unwrap_err();
    assert_eq!(err, FindTextError::InvalidConfidence { value: num(-0.1) });
}

#[test]
fn an_empty_request_text_is_rejected() {
    let request = FindTextRequest::new("   ");
    assert_eq!(
        scan_lines(&Ieee, &[], &request).unwrap_err(),
        FindTextError::EmptyQuery
    );
    let request = FindTextRequest::new("");
    assert_eq!(
        scan_lines(&Ieee, &[], &request).unwrap_err(),
        FindTextError::EmptyQuery
    );
}

#[test]
fn matches_come_back_top_to_bottom_then_left_to_right() {
    let lines = vec![
        line("Save right", num(0.9), vision_rect(num(0.6), num(0.1), num(0.2), num(0.05))),
        line("Save top", num(0.9), vision_rect(num(0.1), num(0.9), num(0.2), num(0.05))),
        line("Save left", num(0.9), vision_rect(num(0.1), num(0.1), num(0.2), num(0.05))),
    ];
    let scan = scan_lines(&Ieee, &lines, &FindTextRequest::new("Save")).expect("scan");
    let order: Vec<&str> = scan.matches.iter().map(|m| m.text.as_str()).collect();
    assert_eq!(order, vec!["Save top", "Save left", "Save right"]);
    assert_eq!(scan.matches[0].index, 0);
    assert_eq!(scan.matches[2].index, 2);
}

#[test]
fn the_recognized_list_holds_every_kept_line_in_reading_order() {
    let lines = vec![
        line("Cancel", num(0.9), vision_rect(num(0.6), num(0.1), num(0.2), num(0.05))),
        line("Save", num(0.9), vision_rect(num(0.1), num(0.9), num(0.2), num(0.05))),
        line("Noise", num(0.05), vision_rect(num(0.1), num(0.5), num(0.2), num(0.05))),
    ];
    let scan = scan_lines(&Ieee, &lines, &FindTextRequest::new("Save")).expect("scan");
    assert_eq!(
        scan.recognized,
        vec!["Save".to_string(), "Cancel".to_string()]
    );
}

#[test]
fn a_match_narrows_to_the_union_of_the_words_it_covers() {
    let mut recognized = line("File Edit View", num(0.9), vision_rect(num(0.0), num(0.9), num(0.3), num(0.04)));
    recognized.words = vec![
        RecognizedWord {
            byte_start: 0,
            byte_end: 4,
            bounds: vision_rect(num(0.0), num(0.9), num(0.08), num(0.04)),
        },
        RecognizedWord {
            byte_start: 5,
            byte_end: 9,
            bounds: vision_rect(num(0.1), num(0.9), num(0.08), num(0.04)),
        },
        RecognizedWord {
            byte_start: 10,
            byte_end: 14,
            bounds: vision_rect(num(0.22), num(0.9), num(0.08), num(0.04)),
        },
    ];
    let scan = scan_lines(&Ieee, &[recognized], &FindTextRequest::new("Edit")).expect("scan");
    let matched = &scan.matches[0];
    assert!(matched.narrowed_to_words, "must narrow to the matched word");
    assert_frame(matched.frame, [num(0.1), num(0.06), num(0.08), num(0.04)], "narrowed frame");
    assert_close(matched.center_x, num(0.14), "center_x");
}

#[test]
fn a_match_spanning_two_words_unions_both_boxes() {
    let mut recognized = line("Save As", num(0.9), vision_rect(num(0.0), num(0.5), num(0.2), num(0.04)));
    recognized.words = vec![
        RecognizedWord {
            byte_start: 0,
            byte_end: 4,
            bounds: vision_rect(num(0.0), num(0.5), num(0.09), num(0.04)),
        },
        RecognizedWord {
            byte_start: 5,
            byte_end: 7,
            bounds: vision_rect(num(0.12), num(0.5), num(0.08), num(0.04)),
        },
    ];
    let scan = scan_lines(&Ieee, &[recognized], &FindTextRequest::new("Save As")).expect("scan");
    assert_frame(
        scan.matches[0].frame,
        [num(0.0), num(0.46), num(0.2), num(0.04)],
        "unioned frame",
    );
}

#[test]
fn a_match_without_word_boxes_reports_the_whole_line_box() {
    let lines = vec![line("Save changes", num(0.9), vision_rect(num(0.1), num(0.5), num(0.3), num(0.04)))];
    let scan = scan_lines(&Ieee, &lines, &FindTextRequest::new("Save")).expect("scan");
    assert!(!scan.matches[0].narrowed_to_words);
    assert_frame(scan.matches[0].frame, [num(0.1), num(0.46), num(0.3), num(0.04)], "line frame");
}

#[test]
fn a_match_center_sits_in_the_middle_of_its_frame() {
    let lines = vec![line("Save", num(0.9), vision_rect(num(0.2), num(0.6), num(0.2), num(0.1)))];
    let scan = scan_lines(&Ieee, &lines, &FindTextRequest::new("Save")).expect("scan");
    let matched = &scan.matches[0];
    assert_close(matched.center_x, num(0.3), "center_x");
    assert_close(matched.center_y, num(0.35), "center_y");
}

#[test]
fn pick_takes_the_first_match_when_the_request_names_no_index() {
    let lines = vec![
        line("Save A", num(0.9), vision_rect(num(0.1), num(0.9), num(0.2), num(0.05))),
        line("Save B", num(0.9), vision_rect(num(0.1), num(0.5), num(0.2), num(0.05))),
    ];
    let request = FindTextRequest::new("Save");
    let scan = scan_lines(&Ieee, &lines, &request).expect("scan");
    assert_eq!(pick_match(&scan, &request).expect("pick").text, "Save A");
}

#[test]
fn pick_takes_the_index_the_request_names() {
    let lines = vec![
        line("Save A", num(0.9), vision_rect(num(0.1), num(0.9), num(0.2), num(0.05))),
        line("Save B", num(0.9), vision_rect(num(0.1), num(0.5), num(0.2), num(0.05))),
    ];
    let mut request = FindTextRequest::new("Save");
    request.index = Some(1);
    let scan = scan_lines(&Ieee, &lines, &request).expect("scan");
    assert_eq!(pick_match(&scan, &request).expect("pick").text, "Save B");
}

#[test]
fn pick_rejects_an_index_past_the_last_match() {
    let lines = vec![line("Save", num(0.9), vision_rect(num(0.1), num(0.9), num(0.2), num(0.05)))];
    let mut request = FindTextRequest::new("Save");
    request.index = Some(3);
    let scan = scan_lines(&Ieee, &lines, &request).expect("scan");
    let err = pick_match(&scan, &request).unwrap_err();
    assert_eq!(
        err,
        FindTextError::IndexOutOfRange {
            query: "Save".to_string(),
            index: 3,
            matches: 1,
        }
    );
}

#[test]
fn pick_reports_what_the_ocr_did_read_when_nothing_matches() {
    let lines = vec![
        line("Cancel", num(0.9), vision_rect(num(0.1), num(0.9), num(0.2), num(0.05))),
        line("Quit", num(0.9), vision_rect(num(0.1), num(0.5), num(0.2), num(0.05))),
    ];
    let request = FindTextRequest::new("Save");
    let scan = scan_lines(&Ieee, &lines, &request).expect("scan");
    let err = pick_match(&scan, &request).unwrap_err();
    let message = err.message(&Ieee);
    assert!(
        message.contains("Save"),
        "message names the query: {message}"
    );
    assert!(
        message.contains("Cancel"),
        "message lists what it read: {message}"
    );
    assert!(
        message.contains("Quit"),
        "message lists what it read: {message}"
    );
}

#[test]
fn find_text_captures_the_main_screen_when_no_target_is_set() {
    let capture = FakeCapture::new();
    let recognizer =
        FakeRecognizer::new(vec![line("Save", num(0.9), vision_rect(num(0.1), num(0.9), num(0.2), num(0.05)))]);
    perform_find_text(&Ieee, &capture, &recognizer, &FindTextRequest::new("Save")).expect("find");
    assert_eq!(*capture.calls.borrow(), vec![CaptureCall::Screen(None)]);
}

#[test]
fn find_text_captures_the_display_the_request_names() {
    let capture = FakeCapture::new();
    let recognizer =
        FakeRecognizer::new(vec![line("Save", num(0.9), vision_rect(num(0.1), num(0.9), num(0.2), num(0.05)))]);
    let mut request = FindTextRequest::new("Save");
    request.target = Some(ScreenshotTarget::Screen {
        display_id: Some(7),
    });
    perform_find_text(&Ieee, &capture, &recognizer, &request).expect("find");
    assert_eq!(*capture.calls.borrow(), vec![CaptureCall::Screen(Some(7))]);
}

#[test]
fn find_text_captures_one_window_when_the_request_names_one() {
    let app = AppIdentifier {
        bundle_id: Some("com.example.Game".to_string()),
        app_name: None,
    };
    let capture = FakeCapture::new();
    let recognizer =
        FakeRecognizer::new(vec![line("Save", num(0.9), vision_rect(num(0.1), num(0.9), num(0.2), num(0.05)))]);

    let mut request = FindTextRequest::new("Save");
    request.target = Some(ScreenshotTarget::App { app: app.clone() });
    perform_find_text(&Ieee, &capture, &recognizer, &request).expect("find");

    let mut request = FindTextRequest::new("Save");
    request.target = Some(ScreenshotTarget::Window {
        app: app.clone(),
        window_title: "Level 1".to_string(),
    });
    perform_find_text(&Ieee, &capture, &recognizer, &request).expect("find");

    assert_eq!(
        *capture.calls.borrow(),
        vec![
            CaptureCall::Window(app.clone(), None),
            CaptureCall::Window(app, Some("Level 1".to_string())),
        ]
    );
}

#[test]
fn find_text_hands_the_captured_pixels_and_options_to_the_recognizer() {
    let capture = FakeCapture::new();
    let recognizer =
        FakeRecognizer::new(vec![line("Save", num(0.9), vision_rect(num(0.1), num(0.9), num(0.2), num(0.05)))]);
    let mut request = FindTextRequest::new("Save");
    request.level = RecognitionLevel::Fast;
    request.languages = vec!["en-US".to_string()];
    perform_find_text(&Ieee, &capture, &recognizer, &request).expect("find");

    let calls = recognizer.calls.borrow();
    assert_eq!(calls.len(), 1);
    assert_eq!(calls[0].0, capture.image);
    assert_eq!(calls[0].1.level, RecognitionLevel::Fast);
    assert_eq!(calls[0].1.languages, vec!["en-US".to_string()]);
    assert!(
        !calls[0].1.uses_language_correction,
        "language correction stays off by default"
    );
}

#[test]
fn find_text_returns_a_tap_ready_center_and_the_image_size() {
    let capture = FakeCapture::new();
    let recognizer =
        FakeRecognizer::new(vec![line("Save", num(0.9), vision_rect(num(0.2), num(0.6), num(0.2), num(0.1)))]);
    let response =
        perform_find_text(&Ieee, &capture, &recognizer, &FindTextRequest::new("Save")).expect("find");

    assert_eq!(response.image_width, 2560);
    assert_eq!(response.image_height, 1600);
    let size = PixelSize {
        width: num(f64::from(response.image_width)),
        height: num(f64::from(response.image_height)),
    };
    let pixel = fraction_to_pixel(
        &Ieee, Fraction {
            x: response.matched.center_x,
            y: response.matched.center_y,
        },
        size,
    )
    .expect("a find_text center is always a valid tap fraction");
    assert_close(pixel.x, num(0.3 * 2560.0), "pixel x");
    assert_close(pixel.y, num(0.35 * 1600.0), "pixel y");
}

#[test]
fn find_text_reports_every_count_it_used() {
    let capture = FakeCapture::new();
    let recognizer = FakeRecognizer::new(vec![
        line("Save A", num(0.9), vision_rect(num(0.1), num(0.9), num(0.2), num(0.05))),
        line("Save B", num(0.8), vision_rect(num(0.1), num(0.5), num(0.2), num(0.05))),
        line("Save C", num(0.1), vision_rect(num(0.1), num(0.3), num(0.2), num(0.05))),
        line("Cancel", num(0.9), vision_rect(num(0.1), num(0.2), num(0.2), num(0.05))),
    ]);
    let response =
        perform_find_text(&Ieee, &capture, &recognizer, &FindTextRequest::new("Save")).expect("find");
    assert_eq!(response.observation_count, 4);
    assert_eq!(response.below_confidence_count, 1);
    assert_eq!(response.match_count, 2);
    assert_close(response.min_confidence, floor(), "floor");
    assert_eq!(response.matched.text, "Save A");
}

#[test]
fn find_text_errors_when_nothing_matches() {
    let capture = FakeCapture::new();
    let recognizer =
        FakeRecognizer::new(vec![line("Cancel", num(0.9), vision_rect(num(0.1), num(0.9), num(0.2), num(0.05)))]);
    let err =
        perform_find_text(&Ieee, &capture, &recognizer, &FindTextRequest::new("Save")).unwrap_err();
    assert!(
        err.message(&Ieee).contains("no recognized text matches"),
        "unexpected error: {err:?}"
    );
}

#[test]
fn find_text_never_captures_when_the_request_is_invalid() {
    let capture = FakeCapture::new();
    let recognizer = FakeRecognizer::new(Vec::new());
    let err = perform_find_text(&Ieee, &capture, &recognizer, &FindTextRequest::new("")).unwrap_err();
    assert!(err.message(&Ieee).contains("non-empty"), "unexpected: {err:?}");
    assert!(
        capture.calls.borrow().is_empty(),
        "an invalid request must never reach the platform"
    );
    assert!(recognizer.calls.borrow().is_empty());
}

#[test]
fn find_text_passes_a_capture_failure_straight_back() {
    let capture = FakeCapture::failing();
    let recognizer = FakeRecognizer::new(Vec::new());
    let err =
        perform_find_text(&Ieee, &capture, &recognizer, &FindTextRequest::new("Save")).unwrap_err();
    assert!(
        err.message(&Ieee).contains("capture refused"),
        "unexpected: {err:?}"
    );
    assert!(
        recognizer.calls.borrow().is_empty(),
        "a failed capture must not reach the recognizer"
    );
}

#[test]
fn a_find_text_refusal_travels_as_a_platform_error_for_now() {
    let err: PolarizeError = FindTextError::EmptyQuery.into_error(&Ieee);
    assert!(matches!(err, PolarizeError::Platform(_)));
    assert!(err.message(&Ieee).contains("non-empty"));
}
