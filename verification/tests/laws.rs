use polarize_core::ax::{flatten, AxNode};
use polarize_core::ax_batch::{AxAttributeSlot, AxAttributes};
use polarize_core::binary64::{Numbers, Real};
use polarize_core::bootstrap::{helper_args, needed_permissions, NeededPermission};
use polarize_core::coords::{fraction_to_pixel, pixel_to_fraction, Fraction, PixelPoint, PixelSize};
use polarize_core::error::PolarizeError;
use polarize_core::find_text::{
    flip_to_top_left, matched_range, scan_lines, word_spans, FindTextRequest, RecognizedLine,
    TextMatchMode, VisionRect,
};
use polarize_core::notifications::extract_banners;
use polarize_core::permission::{
    check_permission, PermissionError, PermissionKind, PermissionState, PermissionStatus, ToolKind,
};
use polarize_core::recording::{
    button_for_raw_type, kind_for_raw_type, modifiers_from_flags, named_key_from_key_code,
    FLAG_MASK_ALTERNATE, FLAG_MASK_COMMAND, FLAG_MASK_CONTROL, FLAG_MASK_SHIFT,
};
use polarize_core::schema::{Modifier, NamedKey};
use polarize_core::script::{
    automation_check_from_status, parse_osascript_error, redact_source, scan_sdef_elements,
    script_failure_to_error, wrap_in_tell, AutomationCheck, ERR_APP_NOT_RUNNING, ERR_NEEDS_CONSENT,
    ERR_NOT_AUTHORIZED, MAX_SOURCE_CHARS_IN_ERROR,
};
use polarize_core::selector::{find_all, node_at_path, ElementSelector};
use polarize_core::session::{check_session, SessionState};
use polarize_core::set_value::ValuePayload;

struct Ieee;

impl Numbers for Ieee {
    fn sum(&self, a: Real, b: Real) -> Real {
        num(f64::from_bits(a.bits) + f64::from_bits(b.bits))
    }

    fn difference(&self, a: Real, b: Real) -> Real {
        num(f64::from_bits(a.bits) - f64::from_bits(b.bits))
    }

    fn product(&self, a: Real, b: Real) -> Real {
        num(f64::from_bits(a.bits) * f64::from_bits(b.bits))
    }

    fn quotient(&self, a: Real, b: Real) -> Real {
        num(f64::from_bits(a.bits) / f64::from_bits(b.bits))
    }

    fn shown(&self, value: Real) -> String {
        format!("{}", f64::from_bits(value.bits))
    }

    fn shown_to_hundredths(&self, value: Real) -> String {
        format!("{:.2}", f64::from_bits(value.bits))
    }
}

fn num(value: f64) -> Real {
    Real { bits: value.to_bits() }
}

fn node(role: &str, children: Vec<AxNode>) -> AxNode {
    AxNode { role: role.to_string(), children, ..AxNode::default() }
}

fn text_node(label: &str) -> AxNode {
    AxNode { label: Some(label.to_string()), ..node("AXStaticText", vec![]) }
}

fn close_button(label: &str) -> AxNode {
    AxNode {
        label: Some(label.to_string()),
        actions: vec!["AXPress".to_string()],
        ..node("AXButton", vec![])
    }
}

fn tree() -> AxNode {
    node("AXWindow", vec![
        node("AXGroup", vec![node("AXButton", vec![]), node("AXGroup", vec![node("AXButton", vec![])])]),
        node("AXButton", vec![]),
    ])
}

#[test]
fn every_match_is_found_once_in_tree_order_and_resolves() {
    let selector = ElementSelector { role: Some("AXButton".to_string()), ..ElementSelector::default() };
    let root = tree();
    let paths = find_all(&root, &selector).unwrap();
    assert_eq!(paths, vec![vec![0, 0], vec![0, 1, 0], vec![1]]);
    for path in &paths {
        assert_eq!(node_at_path(&root, path).unwrap().role, "AXButton");
    }
    assert!(node_at_path(&root, &[0, 5]).is_none());
    let flat: Vec<(String, usize)> = flatten(&root).into_iter().map(|n| (n.role, n.depth)).collect();
    let expected = [
        ("AXWindow", 0),
        ("AXGroup", 1),
        ("AXButton", 2),
        ("AXGroup", 2),
        ("AXButton", 3),
        ("AXButton", 1),
    ];
    assert_eq!(flat.len(), expected.len());
    for (got, want) in flat.iter().zip(expected) {
        assert_eq!((got.0.as_str(), got.1), want);
    }
}

#[test]
fn no_prose_is_lost_between_banners() {
    let root = node("AXApplication", vec![
        node("AXGroup", vec![text_node("Mail"), text_node("Invoice"), close_button("Close")]),
        node("AXGroup", vec![node("AXGroup", vec![text_node("Calendar")]), text_node("Standup")]),
    ]);
    let banners = extract_banners(&root);
    let prose: Vec<&str> = banners.iter().flat_map(|b| b.texts.iter().map(String::as_str)).collect();
    assert_eq!(prose, vec!["Mail", "Invoice", "Calendar", "Standup"]);
    for banner in &banners {
        assert!(node_at_path(&root, &banner.path).is_some());
        assert!(!banner.texts.is_empty());
    }
}

#[test]
fn the_strongest_close_control_wins_and_the_first_among_equals() {
    let strong = AxNode { subrole: Some("AXCloseButton".to_string()), ..close_button("x") };
    let root = node("AXApplication", vec![node("AXGroup", vec![
        text_node("Mail"),
        close_button("Clear All"),
        close_button("Close"),
        strong.clone(),
        strong,
    ])]);
    let banners = extract_banners(&root);
    let path = banners[0].dismiss_path.clone().unwrap();
    assert_eq!(path, vec![0, 3]);
    let control = node_at_path(&root, &path).unwrap();
    assert!(control.actions.contains(banners[0].dismiss_action.as_ref().unwrap()));
}

#[test]
fn the_contents_of_a_literal_never_show() {
    let one = redact_source("tell application \"Mail\" to set x to \"hunter2\"");
    let other = redact_source("tell application \"Mail\" to set x to \"a much \\\" longer secret\"");
    assert_eq!(one, other);
    assert!(!one.contains("hunter2"));
    let long = redact_source(&"line\n".repeat(1_000));
    assert!(long.chars().count() <= MAX_SOURCE_CHARS_IN_ERROR + 1);
    assert!(!long.contains('\n'));
}

#[test]
fn an_app_name_stays_inside_its_literal() {
    let wrapped = wrap_in_tell("beep", "a\" & do shell script \"x\\");
    assert!(wrapped.starts_with("tell application \"a\\\" & do shell script \\\"x\\\\\"\n"), "{wrapped}");
}

#[test]
fn the_preflight_and_the_run_agree() {
    for (code, state) in [
        (ERR_NOT_AUTHORIZED, PermissionState::Denied),
        (ERR_NEEDS_CONSENT, PermissionState::NotDetermined),
    ] {
        assert_eq!(automation_check_from_status(code), AutomationCheck::Refused(state));
        let stderr = format!("execution error: no. ({code})");
        assert_eq!(
            script_failure_to_error(parse_osascript_error(&stderr)),
            PolarizeError::Permission(PermissionError::NotGranted {
                kind: PermissionKind::Automation,
                state,
            })
        );
    }
    let gone = format!("execution error: gone. ({})", ERR_APP_NOT_RUNNING);
    assert!(matches!(
        script_failure_to_error(parse_osascript_error(&gone)),
        PolarizeError::AppNotFound(_)
    ));
}

#[test]
fn a_dictionary_lists_each_name_once() {
    let xml = "<command name=\"open\" description=\"a\"/><command name=\"open\"/><command name=\"close\"/>";
    let names: Vec<String> = scan_sdef_elements(xml, "command").into_iter().map(|e| e.name).collect();
    assert_eq!(names, vec!["open", "close"]);
}

#[test]
fn an_unread_slot_changes_only_its_own_field() {
    let full = vec![
        AxAttributeSlot::Text("AXButton".to_string()),
        AxAttributeSlot::Text("Save".to_string()),
    ];
    let with_role = AxAttributes::from_slots(&full);
    let without = AxAttributes::from_slots(&[AxAttributeSlot::Unread, full[1].clone()]);
    assert_eq!(with_role.role, "AXButton");
    assert_eq!(without.role, "AXUnknown");
    assert_eq!(without.label, with_role.label);
    assert_eq!(without.enabled, with_role.enabled);
    assert_eq!(AxAttributes::from_batch(&full), None);
}

#[test]
fn a_session_is_usable_exactly_when_it_passes() {
    for on_console in [None, Some(true), Some(false)] {
        for screen_locked in [None, Some(true), Some(false)] {
            let state = SessionState::from_flags(on_console, screen_locked);
            assert_eq!(state.is_usable(), check_session(state).is_ok());
        }
    }
    assert!(SessionState::from_flags(None, None).is_usable());
}

#[test]
fn only_the_needed_permission_matters() {
    let granted = PermissionStatus { kind: PermissionKind::Accessibility, state: PermissionState::Granted };
    let denied = PermissionStatus { kind: PermissionKind::ScreenRecording, state: PermissionState::Denied };
    assert!(check_permission(ToolKind::Describe, &[granted, denied]).is_ok());
    assert!(check_permission(ToolKind::Describe, &[denied]).is_err());
    assert!(check_permission(ToolKind::Screenshot, &[granted, denied]).is_err());
}

#[test]
fn the_words_of_a_text_cover_it() {
    let text = " käse\tund 🧀  brot";
    let spans = word_spans(text);
    let words: Vec<&str> = spans.iter().map(|s| &text[s.byte_start..s.byte_end]).collect();
    assert_eq!(words, text.split_whitespace().collect::<Vec<&str>>());
    for span in &spans {
        assert_eq!(
            span.utf16_start,
            text[..span.byte_start].encode_utf16().count()
        );
        assert_eq!(
            span.utf16_len,
            text[span.byte_start..span.byte_end].encode_utf16().count()
        );
    }
}

#[test]
fn what_matches_is_what_was_asked_for() {
    let line = "  Größe ÄNDERN  ";
    for (query, mode, case_sensitive) in [
        ("größe", TextMatchMode::Contains, false),
        ("ändern", TextMatchMode::Contains, false),
        ("Größe", TextMatchMode::Contains, true),
        ("größe ändern", TextMatchMode::Exact, false),
        ("Größe ÄNDERN", TextMatchMode::Exact, true),
    ] {
        let (start, end) = matched_range(line, query, mode, case_sensitive).unwrap();
        assert_eq!(line[start..end].to_lowercase(), query.to_lowercase());
        if case_sensitive {
            assert_eq!(&line[start..end], query);
        }
    }
}

#[test]
fn lines_read_at_one_place_keep_their_order() {
    let line = |text: &str, confidence: f64| RecognizedLine {
        text: text.to_string(),
        confidence: num(confidence),
        bounds: VisionRect { x: num(0.1), y: num(0.5), width: num(0.2), height: num(0.1) },
        words: Vec::new(),
    };
    let lines = vec![line("b", 0.9), line("a", 0.8), line("b", 0.7), line("c", 0.1)];
    let mut request = FindTextRequest::new("b");
    request.mode = TextMatchMode::Exact;
    let scan = scan_lines(&Ieee, &lines, &request).unwrap();
    assert_eq!(scan.recognized, vec!["a", "b", "b"]);
    assert_eq!(scan.below_confidence_count, 1);
    let confidences: Vec<Real> = scan.matches.iter().map(|m| m.confidence).collect();
    assert_eq!(confidences, vec![num(0.9), num(0.7)]);
}

#[test]
fn a_flip_stays_inside_the_image() {
    for (x, y, width, height) in [(-3.0, 0.2, 9.0, 0.1), (0.4, 7.0, 0.2, -9.0), (f64::NAN, 0.0, 1.0, 1.0)] {
        let rect = VisionRect { x: num(x), y: num(y), width: num(width), height: num(height) };
        let frame = flip_to_top_left(&Ieee, rect);
        assert!(frame.x.is_in_unit() && frame.y.is_in_unit());
        assert!(num(0.0).is_at_most(frame.width) && num(0.0).is_at_most(frame.height));
    }
}

#[test]
fn a_modifier_shows_exactly_when_its_bit_is_set() {
    let bits = [
        (Modifier::Command, FLAG_MASK_COMMAND),
        (Modifier::Shift, FLAG_MASK_SHIFT),
        (Modifier::Option, FLAG_MASK_ALTERNATE),
        (Modifier::Control, FLAG_MASK_CONTROL),
    ];
    for mask in 0..16_u64 {
        let mut flags: u64 = 0;
        for (i, (_, bit)) in bits.iter().enumerate() {
            if mask >> i & 1 == 1 {
                flags |= bit;
            }
        }
        let found = modifiers_from_flags(flags);
        for (i, (modifier, _)) in bits.iter().enumerate() {
            assert_eq!(found.contains(modifier), mask >> i & 1 == 1);
        }
    }
}

#[test]
fn a_key_code_names_at_most_one_key() {
    let named: Vec<(u16, NamedKey)> = (0..=0xFF_u16)
        .filter_map(|code| named_key_from_key_code(code).map(|key| (code, key)))
        .collect();
    for (i, (_, key)) in named.iter().enumerate() {
        assert!(named[i + 1..].iter().all(|(_, other)| other != key));
    }
    for event_type in 0..64_u32 {
        if button_for_raw_type(event_type).is_some() {
            assert!(kind_for_raw_type(event_type).is_some());
        }
    }
}

#[test]
fn helper_arguments_are_pairs() {
    let needed = [NeededPermission::Accessibility, NeededPermission::Automation { target: "Mail".to_string() }];
    let args = helper_args(&needed, Some("/P.app"));
    assert_eq!(args, vec!["--needs", "accessibility", "--needs", "automation:Mail", "--for-bundle", "/P.app"]);
    assert!(needed_permissions(true, true, AutomationCheck::Permitted, "Mail").is_empty());
    assert_eq!(needed_permissions(false, true, AutomationCheck::Permitted, "Mail").len(), 1);
}

#[test]
fn no_role_takes_both_text_and_a_number() {
    let text = ValuePayload::Text { text: String::new() }.accepted_roles();
    let number = ValuePayload::Number { number: num(0.0) }.accepted_roles();
    assert!(text.iter().all(|role| !number.contains(role)));
}

#[test]
fn what_is_out_of_range_is_refused() {
    let size = PixelSize { width: num(10.0), height: num(20.0) };
    for bad in [-0.1, 1.1, f64::NAN, f64::INFINITY] {
        assert!(fraction_to_pixel(&Ieee, Fraction { x: num(bad), y: num(0.5) }, size).is_err());
        assert!(fraction_to_pixel(&Ieee, Fraction { x: num(0.5), y: num(bad) }, size).is_err());
    }
    assert!(pixel_to_fraction(&Ieee, PixelPoint { x: num(10.5), y: num(1.0) }, size).is_err());
    let flat = PixelSize { width: num(f64::NAN), height: num(20.0) };
    assert!(fraction_to_pixel(&Ieee, Fraction { x: num(0.5), y: num(0.5) }, flat).is_err());
}
