use polarize_core::ax::{format_tree, AxNode, NormalizedFrame};
use polarize_core::binary64::{Numbers, Real};
use polarize_core::coords::{PixelPoint, PixelRect, PixelSize};
use polarize_core::error::PolarizeError;
use polarize_core::orchestrate::{
    perform_describe, perform_keyboard, perform_screenshot, perform_tap,
};
use polarize_core::schema::{
    ActivationPath, AppIdentifier, DescribeRequest, KeyboardRequest, KeyboardResponse, Modifier,
    NamedKey, PostPath, ScreenshotRequest, ScreenshotTarget, TapRequest, TapResponse,
};
use polarize_core::traits::{
    AccessibilityInspector, CapturedImage, InputSynthesizer, ResolvedApp, ScreenCapture,
    WindowManager,
};
use std::cell::RefCell;

struct Ieee;

impl Numbers for Ieee {
    fn sum(&self, a: Real, b: Real) -> Real {
        num(f64::from_bits(a.bits) + f64::from_bits(b.bits))
    }

    fn difference(&self, a: Real, b: Real) -> Real {
        num(f64::from_bits(a.bits) - f64::from_bits(b.bits))
    }

    fn product(&self, a: Real, b: Real) -> Real {
        num(f64::from_bits(a.bits) * f64::from_bits(b.bits))
    }

    fn quotient(&self, a: Real, b: Real) -> Real {
        num(f64::from_bits(a.bits) / f64::from_bits(b.bits))
    }

    fn shown(&self, value: Real) -> String {
        format!("{}", f64::from_bits(value.bits))
    }

    fn shown_to_hundredths(&self, value: Real) -> String {
        format!("{:.2}", f64::from_bits(value.bits))
    }
}

fn num(value: f64) -> Real {
    Real { bits: value.to_bits() }
}

struct FakeWindowManager {
    rect: PixelRect,
    pid: Option<i32>,
    activated: RefCell<Vec<AppIdentifier>>,
    raise_free_activated: RefCell<Vec<AppIdentifier>>,
    raise_free_available: bool,
}

impl FakeWindowManager {
    fn new(size: PixelSize) -> Self {
        Self::with_origin(PixelPoint { x: num(0.0), y: num(0.0) }, size)
    }

    fn with_origin(origin: PixelPoint, size: PixelSize) -> Self {
        Self {
            rect: PixelRect { origin, size },
            pid: None,
            activated: RefCell::new(Vec::new()),
            raise_free_activated: RefCell::new(Vec::new()),
            raise_free_available: false,
        }
    }

    fn with_pid(size: PixelSize, pid: i32) -> Self {
        Self {
            rect: PixelRect {
                origin: PixelPoint { x: num(0.0), y: num(0.0) },
                size,
            },
            pid: Some(pid),
            activated: RefCell::new(Vec::new()),
            raise_free_activated: RefCell::new(Vec::new()),
            raise_free_available: false,
        }
    }

    fn with_raise_free_available(mut self) -> Self {
        self.raise_free_available = true;
        self
    }
}

impl WindowManager for FakeWindowManager {
    fn activate_app(&self, app: &AppIdentifier) -> Result<(), PolarizeError> {
        self.activated.borrow_mut().push(app.clone());
        Ok(())
    }

    fn resolve_target_rect(
        &self,
        _target: &ScreenshotTarget,
    ) -> Result<PixelRect, PolarizeError> {
        Ok(self.rect)
    }

    fn resolve_target_pid(
        &self,
        _target: &ScreenshotTarget,
    ) -> Result<Option<i32>, PolarizeError> {
        Ok(self.pid)
    }

    fn activate_app_without_raise(&self, app: &AppIdentifier) -> Result<bool, PolarizeError> {
        if self.raise_free_available {
            self.raise_free_activated.borrow_mut().push(app.clone());
        }
        Ok(self.raise_free_available)
    }

    fn resolve_app_pid(&self, _app: &AppIdentifier) -> Result<Option<i32>, PolarizeError> {
        Ok(self.pid)
    }
}

#[derive(Default)]
struct FakeInputSynthesizer {
    clicks: RefCell<Vec<(PixelPoint, u8, Option<i32>)>>,
    typed: RefCell<Vec<String>>,
    pressed: RefCell<Vec<(NamedKey, Vec<Modifier>)>>,
}

impl FakeInputSynthesizer {
    fn post_path(&self, pid: Option<i32>) -> PostPath {
        if pid.is_some() {
            PostPath::Pid
        } else {
            PostPath::Global
        }
    }
}

impl InputSynthesizer for FakeInputSynthesizer {
    fn click_at_pixel(
        &self,
        point: PixelPoint,
        click_count: u8,
        pid: Option<i32>,
    ) -> Result<PostPath, PolarizeError> {
        self.clicks.borrow_mut().push((point, click_count, pid));
        Ok(self.post_path(pid))
    }

    fn type_text(&self, text: &str, pid: Option<i32>) -> Result<PostPath, PolarizeError> {
        self.typed.borrow_mut().push(text.to_string());
        Ok(self.post_path(pid))
    }

    fn press_key(
        &self,
        key: NamedKey,
        modifiers: &[Modifier],
        pid: Option<i32>,
    ) -> Result<PostPath, PolarizeError> {
        self.pressed.borrow_mut().push((key, modifiers.to_vec()));
        Ok(self.post_path(pid))
    }
}

struct FakeAccessibilityInspector {
    app_name: String,
    bundle_id: Option<String>,
    root: AxNode,
}

impl AccessibilityInspector for FakeAccessibilityInspector {
    fn describe(
        &self,
        _app: Option<&AppIdentifier>,
    ) -> Result<(ResolvedApp, AxNode), PolarizeError> {
        Ok((
            ResolvedApp {
                name: self.app_name.clone(),
                bundle_id: self.bundle_id.clone(),
            },
            self.root.clone(),
        ))
    }
}

#[derive(Default)]
struct FakeScreenCapture {
    screen_calls: RefCell<Vec<Option<u32>>>,
    window_calls: RefCell<Vec<(AppIdentifier, Option<String>)>>,
}

impl ScreenCapture for FakeScreenCapture {
    fn capture_screen(&self, display_id: Option<u32>) -> Result<CapturedImage, PolarizeError> {
        self.screen_calls.borrow_mut().push(display_id);
        Ok(CapturedImage {
            png_bytes: vec![1, 2, 3, 4],
            width: 10,
            height: 20,
        })
    }

    fn capture_window(
        &self,
        app: &AppIdentifier,
        window_title: Option<&str>,
    ) -> Result<CapturedImage, PolarizeError> {
        self.window_calls
            .borrow_mut()
            .push((app.clone(), window_title.map(|s| s.to_string())));
        Ok(CapturedImage {
            png_bytes: vec![5, 6, 7],
            width: 30,
            height: 40,
        })
    }
}

fn leaf_tree() -> AxNode {
    AxNode {
        role: "AXWindow".to_string(),
        label: Some("Untitled".to_string()),
        frame: NormalizedFrame {
            x: num(0.0),
            y: num(0.0),
            width: num(1.0),
            height: num(1.0),
        },
        children: vec![],
        ..AxNode::default()
    }
}

#[test]
fn perform_tap_normalizes_center_fraction_to_pixel_center() {
    let wm = FakeWindowManager::new(PixelSize {
        width: num(2000.0),
        height: num(1000.0),
    });
    let input = FakeInputSynthesizer::default();
    let request = TapRequest {
        x: num(0.5),
        y: num(0.5),
        target: None,
        click_count: None,
    };

    let response = perform_tap(&Ieee, &wm, &input, &request).unwrap();

    assert_eq!(
        response,
        TapResponse {
            tapped: true,
            pixel_x: num(1000.0),
            pixel_y: num(500.0),
            post_path: PostPath::Global,
        }
    );
    assert_eq!(
        input.clicks.borrow().as_slice(),
        &[(
            PixelPoint {
                x: num(1000.0),
                y: num(500.0)
            },
            1,
            None
        )]
    );
}

#[test]
fn perform_tap_defaults_click_count_to_one() {
    let wm = FakeWindowManager::new(PixelSize {
        width: num(100.0),
        height: num(100.0),
    });
    let input = FakeInputSynthesizer::default();
    let request = TapRequest {
        x: num(0.0),
        y: num(0.0),
        target: None,
        click_count: None,
    };

    perform_tap(&Ieee, &wm, &input, &request).unwrap();

    assert_eq!(input.clicks.borrow()[0].1, 1);
}

#[test]
fn perform_tap_forwards_explicit_click_count() {
    let wm = FakeWindowManager::new(PixelSize {
        width: num(100.0),
        height: num(100.0),
    });
    let input = FakeInputSynthesizer::default();
    let request = TapRequest {
        x: num(0.0),
        y: num(0.0),
        target: None,
        click_count: Some(2),
    };

    perform_tap(&Ieee, &wm, &input, &request).unwrap();

    assert_eq!(input.clicks.borrow()[0].1, 2);
}

#[test]
fn perform_tap_adds_target_origin_to_the_global_pixel_point() {
    let wm = FakeWindowManager::with_origin(
        PixelPoint { x: num(100.0), y: num(50.0) },
        PixelSize {
            width: num(2000.0),
            height: num(1000.0),
        },
    );
    let input = FakeInputSynthesizer::default();
    let request = TapRequest {
        x: num(0.5),
        y: num(0.5),
        target: None,
        click_count: None,
    };

    let response = perform_tap(&Ieee, &wm, &input, &request).unwrap();

    assert_eq!(
        response,
        TapResponse {
            tapped: true,
            pixel_x: num(1100.0),
            pixel_y: num(550.0),
            post_path: PostPath::Global,
        }
    );
    assert_eq!(
        input.clicks.borrow().as_slice(),
        &[(
            PixelPoint {
                x: num(1100.0),
                y: num(550.0)
            },
            1,
            None
        )]
    );
}

#[test]
fn perform_tap_posts_by_pid_when_a_target_pid_is_available() {
    let wm = FakeWindowManager::with_pid(
        PixelSize {
            width: num(100.0),
            height: num(100.0),
        },
        4242,
    );
    let input = FakeInputSynthesizer::default();
    let request = TapRequest {
        x: num(0.0),
        y: num(0.0),
        target: Some(ScreenshotTarget::App {
            app: AppIdentifier {
                bundle_id: Some("com.apple.TextEdit".to_string()),
                app_name: None,
            },
        }),
        click_count: None,
    };

    let response = perform_tap(&Ieee, &wm, &input, &request).unwrap();

    assert_eq!(response.post_path, PostPath::Pid);
    assert_eq!(input.clicks.borrow()[0].2, Some(4242));
}

#[test]
fn perform_tap_falls_back_to_global_when_no_target_names_an_app() {
    let wm = FakeWindowManager::new(PixelSize {
        width: num(100.0),
        height: num(100.0),
    });
    let input = FakeInputSynthesizer::default();
    let request = TapRequest {
        x: num(0.0),
        y: num(0.0),
        target: None,
        click_count: None,
    };

    let response = perform_tap(&Ieee, &wm, &input, &request).unwrap();

    assert_eq!(response.post_path, PostPath::Global);
    assert_eq!(input.clicks.borrow()[0].2, None);
}

#[test]
fn perform_tap_rejects_out_of_range_fraction_without_calling_platform() {
    let wm = FakeWindowManager::new(PixelSize {
        width: num(100.0),
        height: num(100.0),
    });
    let input = FakeInputSynthesizer::default();
    let request = TapRequest {
        x: num(1.5),
        y: num(0.5),
        target: None,
        click_count: None,
    };

    let err = perform_tap(&Ieee, &wm, &input, &request).unwrap_err();

    assert!(matches!(err, PolarizeError::Coord(_)));
    assert!(
        input.clicks.borrow().is_empty(),
        "platform must not be called on bad input"
    );
}

#[test]
fn perform_describe_passes_app_through_and_shapes_response() {
    let inspector = FakeAccessibilityInspector {
        app_name: "TextEdit".to_string(),
        bundle_id: Some("com.apple.TextEdit".to_string()),
        root: leaf_tree(),
    };
    let request = DescribeRequest { app: None };

    let response = perform_describe(&Ieee, &inspector, &request).unwrap();

    assert_eq!(response.app_name, "TextEdit");
    assert_eq!(response.bundle_id.as_deref(), Some("com.apple.TextEdit"));
    assert_eq!(response.root, leaf_tree());
}

#[test]
fn perform_describe_fills_formatted_from_ax_format_tree() {
    let root = leaf_tree();
    let inspector = FakeAccessibilityInspector {
        app_name: "TextEdit".to_string(),
        bundle_id: None,
        root: root.clone(),
    };
    let request = DescribeRequest { app: None };

    let response = perform_describe(&Ieee, &inspector, &request).unwrap();

    assert_eq!(response.formatted, format_tree(&Ieee, &root));
}

#[test]
fn perform_screenshot_dispatches_screen_target_to_capture_screen() {
    let capture = FakeScreenCapture::default();
    let request = ScreenshotRequest {
        target: ScreenshotTarget::Screen {
            display_id: Some(2),
        },
    };

    let response = perform_screenshot(&capture, &request).unwrap();

    assert_eq!(capture.screen_calls.borrow().as_slice(), &[Some(2)]);
    assert!(capture.window_calls.borrow().is_empty());
    assert_eq!(response.decode_png_bytes().unwrap(), vec![1, 2, 3, 4]);
    assert_eq!((response.width, response.height), (10, 20));
}

#[test]
fn perform_screenshot_dispatches_app_target_to_capture_window_with_no_title() {
    let capture = FakeScreenCapture::default();
    let app = AppIdentifier {
        bundle_id: Some("com.apple.Notes".to_string()),
        app_name: None,
    };
    let request = ScreenshotRequest {
        target: ScreenshotTarget::App { app: app.clone() },
    };

    perform_screenshot(&capture, &request).unwrap();

    assert_eq!(capture.window_calls.borrow().as_slice(), &[(app, None)]);
}

#[test]
fn perform_screenshot_dispatches_window_target_with_title() {
    let capture = FakeScreenCapture::default();
    let app = AppIdentifier {
        bundle_id: None,
        app_name: Some("Safari".to_string()),
    };
    let request = ScreenshotRequest {
        target: ScreenshotTarget::Window {
            app: app.clone(),
            window_title: "Inbox".to_string(),
        },
    };

    perform_screenshot(&capture, &request).unwrap();

    assert_eq!(
        capture.window_calls.borrow().as_slice(),
        &[(app, Some("Inbox".to_string()))]
    );
}

#[test]
fn perform_keyboard_type_dispatches_to_type_text() {
    let wm = FakeWindowManager::new(PixelSize {
        width: num(100.0),
        height: num(100.0),
    });
    let input = FakeInputSynthesizer::default();
    let request = KeyboardRequest::Type {
        text: "hi".to_string(),
        target: None,
    };

    let response = perform_keyboard(&wm, &input, &request).unwrap();

    assert_eq!(
        response,
        KeyboardResponse {
            sent: true,
            activation_path: ActivationPath::NotActivated,
            post_path: PostPath::Global,
        }
    );
    assert_eq!(input.typed.borrow().as_slice(), &["hi".to_string()]);
    assert!(input.pressed.borrow().is_empty());
}

#[test]
fn perform_keyboard_key_press_dispatches_to_press_key_with_modifiers() {
    let wm = FakeWindowManager::new(PixelSize {
        width: num(100.0),
        height: num(100.0),
    });
    let input = FakeInputSynthesizer::default();
    let request = KeyboardRequest::KeyPress {
        key: NamedKey::Return,
        modifiers: vec![Modifier::Command],
        target: None,
    };

    perform_keyboard(&wm, &input, &request).unwrap();

    assert_eq!(
        input.pressed.borrow().as_slice(),
        &[(NamedKey::Return, vec![Modifier::Command])]
    );
    assert!(input.typed.borrow().is_empty());
}

#[test]
fn perform_keyboard_activates_target_app_before_typing() {
    let wm = FakeWindowManager::new(PixelSize {
        width: num(100.0),
        height: num(100.0),
    });
    let input = FakeInputSynthesizer::default();
    let target = AppIdentifier {
        bundle_id: Some("com.apple.TextEdit".to_string()),
        app_name: None,
    };
    let request = KeyboardRequest::Type {
        text: "hi".to_string(),
        target: Some(target.clone()),
    };

    let response = perform_keyboard(&wm, &input, &request).unwrap();

    assert_eq!(wm.activated.borrow().as_slice(), &[target]);
    assert_eq!(input.typed.borrow().as_slice(), &["hi".to_string()]);
    assert_eq!(response.activation_path, ActivationPath::Raised);
}

#[test]
fn perform_keyboard_activates_target_app_before_key_press() {
    let wm = FakeWindowManager::new(PixelSize {
        width: num(100.0),
        height: num(100.0),
    });
    let input = FakeInputSynthesizer::default();
    let target = AppIdentifier {
        bundle_id: None,
        app_name: Some("Safari".to_string()),
    };
    let request = KeyboardRequest::KeyPress {
        key: NamedKey::Return,
        modifiers: vec![],
        target: Some(target.clone()),
    };

    let response = perform_keyboard(&wm, &input, &request).unwrap();

    assert_eq!(wm.activated.borrow().as_slice(), &[target]);
    assert_eq!(response.activation_path, ActivationPath::Raised);
}

#[test]
fn perform_keyboard_prefers_raise_free_activation_when_available() {
    let wm = FakeWindowManager::new(PixelSize {
        width: num(100.0),
        height: num(100.0),
    })
    .with_raise_free_available();
    let input = FakeInputSynthesizer::default();
    let target = AppIdentifier {
        bundle_id: Some("com.apple.TextEdit".to_string()),
        app_name: None,
    };
    let request = KeyboardRequest::Type {
        text: "hi".to_string(),
        target: Some(target.clone()),
    };

    let response = perform_keyboard(&wm, &input, &request).unwrap();

    assert_eq!(wm.raise_free_activated.borrow().as_slice(), &[target]);
    assert!(
        wm.activated.borrow().is_empty(),
        "activate_app must not run when the raise-free path already succeeded"
    );
    assert_eq!(response.activation_path, ActivationPath::RaiseFree);
}

#[test]
fn perform_keyboard_does_not_activate_anything_when_target_is_none() {
    let wm = FakeWindowManager::new(PixelSize {
        width: num(100.0),
        height: num(100.0),
    });
    let input = FakeInputSynthesizer::default();
    let request = KeyboardRequest::Type {
        text: "hi".to_string(),
        target: None,
    };

    let response = perform_keyboard(&wm, &input, &request).unwrap();

    assert!(wm.activated.borrow().is_empty());
    assert!(wm.raise_free_activated.borrow().is_empty());
    assert_eq!(response.activation_path, ActivationPath::NotActivated);
    assert_eq!(response.post_path, PostPath::Global);
}

#[test]
fn perform_keyboard_posts_by_pid_when_a_target_pid_is_available() {
    let wm = FakeWindowManager::with_pid(
        PixelSize {
            width: num(100.0),
            height: num(100.0),
        },
        4242,
    );
    let input = FakeInputSynthesizer::default();
    let request = KeyboardRequest::Type {
        text: "hi".to_string(),
        target: Some(AppIdentifier {
            bundle_id: Some("com.apple.TextEdit".to_string()),
            app_name: None,
        }),
    };

    let response = perform_keyboard(&wm, &input, &request).unwrap();

    assert_eq!(response.post_path, PostPath::Pid);
}

#[test]
fn perform_keyboard_falls_back_to_global_when_no_target_names_an_app() {
    let wm = FakeWindowManager::new(PixelSize {
        width: num(100.0),
        height: num(100.0),
    });
    let input = FakeInputSynthesizer::default();
    let request = KeyboardRequest::Type {
        text: "hi".to_string(),
        target: None,
    };

    let response = perform_keyboard(&wm, &input, &request).unwrap();

    assert_eq!(response.post_path, PostPath::Global);
}
