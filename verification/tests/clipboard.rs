use polarize_core::binary64::{Numbers, Real};
use polarize_core::clipboard::{
    classify_read, perform_clipboard_read, perform_clipboard_write, ClipboardContentType,
    ClipboardReadRequest, ClipboardWriteRequest, RawClipboardRead,
};
use polarize_core::error::PolarizeError;
use polarize_core::permission::{PermissionError, PermissionKind, PermissionState};
use polarize_core::traits::ClipboardAccess;
use std::cell::RefCell;

struct Ieee;

impl Numbers for Ieee {
    fn sum(&self, a: Real, b: Real) -> Real {
        num(f64::from_bits(a.bits) + f64::from_bits(b.bits))
    }

    fn difference(&self, a: Real, b: Real) -> Real {
        num(f64::from_bits(a.bits) - f64::from_bits(b.bits))
    }

    fn product(&self, a: Real, b: Real) -> Real {
        num(f64::from_bits(a.bits) * f64::from_bits(b.bits))
    }

    fn quotient(&self, a: Real, b: Real) -> Real {
        num(f64::from_bits(a.bits) / f64::from_bits(b.bits))
    }

    fn shown(&self, value: Real) -> String {
        format!("{}", f64::from_bits(value.bits))
    }

    fn shown_to_hundredths(&self, value: Real) -> String {
        format!("{:.2}", f64::from_bits(value.bits))
    }
}

fn num(value: f64) -> Real {
    Real { bits: value.to_bits() }
}

#[derive(Default)]
struct FakeClipboard {
    read: RawClipboardRead,
    read_calls: RefCell<Vec<ClipboardContentType>>,
    writes: RefCell<Vec<(ClipboardContentType, String)>>,
    write_fails: bool,
}

impl FakeClipboard {
    fn holding(text: &str) -> Self {
        Self {
            read: RawClipboardRead {
                declared: true,
                value: Some(text.to_string()),
            },
            ..Self::default()
        }
    }

    fn refusing() -> Self {
        Self {
            read: RawClipboardRead {
                declared: true,
                value: None,
            },
            ..Self::default()
        }
    }
}

impl ClipboardAccess for FakeClipboard {
    fn read_clipboard(
        &self,
        content_type: ClipboardContentType,
    ) -> Result<RawClipboardRead, PolarizeError> {
        self.read_calls.borrow_mut().push(content_type);
        Ok(self.read.clone())
    }

    fn write_clipboard(
        &self,
        content_type: ClipboardContentType,
        text: &str,
    ) -> Result<(), PolarizeError> {
        if self.write_fails {
            return Err(PolarizeError::Platform(
                "NSPasteboard setString:forType: reported false".to_string(),
            ));
        }
        self.writes
            .borrow_mut()
            .push((content_type, text.to_string()));
        Ok(())
    }
}

#[test]
fn a_declared_type_with_a_value_reads_as_text() {
    let raw = RawClipboardRead {
        declared: true,
        value: Some("hello".to_string()),
    };
    assert_eq!(classify_read(&raw).unwrap(), Some("hello".to_string()));
}

#[test]
fn an_undeclared_type_reads_as_no_text() {
    let raw = RawClipboardRead {
        declared: false,
        value: None,
    };
    assert_eq!(classify_read(&raw).unwrap(), None);
}

#[test]
fn a_declared_type_with_no_value_reads_as_a_refusal() {
    let raw = RawClipboardRead {
        declared: true,
        value: None,
    };
    let err = classify_read(&raw).unwrap_err();
    assert_eq!(
        err,
        PermissionError::NotGranted {
            kind: PermissionKind::Clipboard,
            state: PermissionState::NotDetermined,
        }
    );
    assert_eq!(
        err.message(),
        "Clipboard permission is NotDetermined, not granted"
    );
}

#[test]
fn a_refusal_never_reports_denied() {
    let raw = RawClipboardRead {
        declared: true,
        value: None,
    };
    let PermissionError::NotGranted { state, .. } = classify_read(&raw).unwrap_err();
    assert_eq!(state, PermissionState::NotDetermined);
}

#[test]
fn an_empty_string_is_text_not_an_absent_value() {
    let raw = RawClipboardRead {
        declared: true,
        value: Some(String::new()),
    };
    assert_eq!(classify_read(&raw).unwrap(), Some(String::new()));
}

#[test]
fn a_value_arrives_even_when_the_type_list_did_not_name_it() {
    let raw = RawClipboardRead {
        declared: false,
        value: Some("hello".to_string()),
    };
    assert_eq!(classify_read(&raw).unwrap(), Some("hello".to_string()));
}

#[test]
fn read_reports_the_pasteboard_text() {
    let clipboard = FakeClipboard::holding("hello");
    let response =
        perform_clipboard_read(&clipboard, &ClipboardReadRequest::default()).unwrap();
    assert_eq!(response.text.as_deref(), Some("hello"));
    assert_eq!(response.content_type, ClipboardContentType::PlainText);
}

#[test]
fn read_asks_the_platform_for_the_requested_type() {
    let clipboard = FakeClipboard::holding("hello");
    perform_clipboard_read(
        &clipboard,
        &ClipboardReadRequest {
            content_type: ClipboardContentType::PlainText,
        },
    )
    .unwrap();
    assert_eq!(
        clipboard.read_calls.borrow().as_slice(),
        [ClipboardContentType::PlainText]
    );
}

#[test]
fn read_reports_an_empty_clipboard_as_no_text() {
    let clipboard = FakeClipboard::default();
    let response =
        perform_clipboard_read(&clipboard, &ClipboardReadRequest::default()).unwrap();
    assert_eq!(response.text, None);
}

#[test]
fn read_reports_a_refusal_as_a_permission_error() {
    let clipboard = FakeClipboard::refusing();
    let err = perform_clipboard_read(&clipboard, &ClipboardReadRequest::default()).unwrap_err();
    assert!(matches!(err, PolarizeError::Permission(_)));
    assert!(err.message(&Ieee).contains("Clipboard"));
}

#[test]
fn write_sends_the_text_and_the_type_to_the_platform() {
    let clipboard = FakeClipboard::default();
    let response = perform_clipboard_write(
        &clipboard,
        &ClipboardWriteRequest {
            content_type: ClipboardContentType::PlainText,
            text: "hello".to_string(),
        },
    )
    .unwrap();
    assert!(response.written);
    assert_eq!(response.characters, 5);
    assert_eq!(
        clipboard.writes.borrow().as_slice(),
        [(ClipboardContentType::PlainText, "hello".to_string())]
    );
}

#[test]
fn write_counts_characters_not_bytes() {
    let clipboard = FakeClipboard::default();
    let response = perform_clipboard_write(
        &clipboard,
        &ClipboardWriteRequest {
            content_type: ClipboardContentType::PlainText,
            text: "héllo".to_string(),
        },
    )
    .unwrap();
    assert_eq!(response.characters, 5);
}

#[test]
fn a_failed_write_reports_the_platform_error() {
    let clipboard = FakeClipboard {
        write_fails: true,
        ..FakeClipboard::default()
    };
    let err = perform_clipboard_write(
        &clipboard,
        &ClipboardWriteRequest {
            content_type: ClipboardContentType::PlainText,
            text: "hello".to_string(),
        },
    )
    .unwrap_err();
    assert!(matches!(err, PolarizeError::Platform(_)));
}
