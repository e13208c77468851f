use polarize_core::action::{
    perform_element_action, ActionError, PerformActionRequest, PerformActionResponse,
    DEFAULT_ACTION,
};
use polarize_core::ax::AxNode;
use polarize_core::binary64::{Numbers, Real};
use polarize_core::error::PolarizeError;
use polarize_core::schema::AppIdentifier;
use polarize_core::selector::{node_at_path, ElementPath, ElementSelector};
use polarize_core::traits::{AccessibilityInspector, ActionPerformer, ResolvedApp};
use std::cell::RefCell;

struct Ieee;

impl Numbers for Ieee {
    fn sum(&self, a: Real, b: Real) -> Real {
        num(f64::from_bits(a.bits) + f64::from_bits(b.bits))
    }

    fn difference(&self, a: Real, b: Real) -> Real {
        num(f64::from_bits(a.bits) - f64::from_bits(b.bits))
    }

    fn product(&self, a: Real, b: Real) -> Real {
        num(f64::from_bits(a.bits) * f64::from_bits(b.bits))
    }

    fn quotient(&self, a: Real, b: Real) -> Real {
        num(f64::from_bits(a.bits) / f64::from_bits(b.bits))
    }

    fn shown(&self, value: Real) -> String {
        format!("{}", f64::from_bits(value.bits))
    }

    fn shown_to_hundredths(&self, value: Real) -> String {
        format!("{:.2}", f64::from_bits(value.bits))
    }
}

fn num(value: f64) -> Real {
    Real { bits: value.to_bits() }
}

struct FakeInspector {
    root: AxNode,
    seen: RefCell<Vec<Option<AppIdentifier>>>,
}

impl FakeInspector {
    fn new(root: AxNode) -> Self {
        Self {
            root,
            seen: RefCell::new(Vec::new()),
        }
    }
}

impl AccessibilityInspector for FakeInspector {
    fn describe(&self, app: Option<&AppIdentifier>) -> Result<(ResolvedApp, AxNode), PolarizeError> {
        self.seen.borrow_mut().push(app.cloned());
        let resolved = ResolvedApp { name: "TestApp".to_string(), bundle_id: None };
        Ok((resolved, self.root.clone()))
    }
}

#[derive(Default)]
struct RecordingPerformer {
    calls: RefCell<Vec<(Option<AppIdentifier>, ElementPath, String)>>,
    fail_with: Option<String>,
}

impl RecordingPerformer {
    fn failing(message: &str) -> Self {
        Self {
            calls: RefCell::new(Vec::new()),
            fail_with: Some(message.to_string()),
        }
    }
}

impl ActionPerformer for RecordingPerformer {
    fn perform_action_at_path(
        &self,
        app: Option<&AppIdentifier>,
        path: &[usize],
        action: &str,
    ) -> Result<(), PolarizeError> {
        self.calls
            .borrow_mut()
            .push((app.cloned(), path.to_vec(), action.to_string()));
        match &self.fail_with {
            Some(message) => Err(PolarizeError::Platform(message.clone())),
            None => Ok(()),
        }
    }
}

fn button(label: &str, actions: &[&str], enabled: bool) -> AxNode {
    AxNode {
        role: "AXButton".to_string(),
        label: Some(label.to_string()),
        actions: actions.iter().map(|a| a.to_string()).collect(),
        interactive: !actions.is_empty(),
        enabled,
        ..AxNode::default()
    }
}

fn tree() -> AxNode {
    AxNode {
        role: "AXWindow".to_string(),
        label: Some("Main".to_string()),
        actions: vec!["AXRaise".to_string()],
        children: vec![
            AxNode {
                identifier: Some("save".to_string()),
                ..button("Save", &["AXPress"], true)
            },
            AxNode {
                role: "AXGroup".to_string(),
                children: vec![
                    button("Cancel", &["AXPress"], false),
                    button("Options", &["AXPress", "AXShowMenu"], true),
                ],
                ..AxNode::default()
            },
            AxNode {
                role: "AXStaticText".to_string(),
                label: Some("Ready".to_string()),
                ..AxNode::default()
            },
        ],
        ..AxNode::default()
    }
}

fn request(selector: ElementSelector) -> PerformActionRequest {
    PerformActionRequest {
        app: None,
        selector,
        action: None,
    }
}

fn by_label(label: &str) -> ElementSelector {
    ElementSelector {
        label: Some(label.to_string()),
        ..ElementSelector::default()
    }
}

#[test]
fn performs_the_named_action_and_reports_the_resolved_element() {
    let inspector = FakeInspector::new(tree());
    let performer = RecordingPerformer::default();
    let request = PerformActionRequest {
        app: None,
        selector: by_label("Options"),
        action: Some("AXShowMenu".to_string()),
    };

    let response = perform_element_action(&inspector, &performer, &request).unwrap();

    assert_eq!(
        response,
        PerformActionResponse {
            performed: true,
            action: "AXShowMenu".to_string(),
            path: vec![1, 1],
            role: "AXButton".to_string(),
            label: Some("Options".to_string()),
        }
    );
}

#[test]
fn the_performer_receives_the_exact_path_and_action_that_were_resolved() {
    let inspector = FakeInspector::new(tree());
    let performer = RecordingPerformer::default();
    let request = PerformActionRequest {
        app: None,
        selector: by_label("Options"),
        action: Some("AXShowMenu".to_string()),
    };

    perform_element_action(&inspector, &performer, &request).unwrap();

    assert_eq!(
        performer.calls.borrow().as_slice(),
        &[(None, vec![1, 1], "AXShowMenu".to_string())]
    );
}

#[test]
fn action_the_resolved_path_reads_back_to_the_element_the_response_names() {
    let root = tree();
    let inspector = FakeInspector::new(root.clone());
    let performer = RecordingPerformer::default();

    let response =
        perform_element_action(&inspector, &performer, &request(by_label("Options"))).unwrap();
    let node = node_at_path(&root, &response.path).unwrap();
    assert_eq!(node.role, response.role);
    assert_eq!(node.label, response.label);
}

#[test]
fn an_omitted_action_defaults_to_ax_press() {
    let inspector = FakeInspector::new(tree());
    let performer = RecordingPerformer::default();

    let response =
        perform_element_action(&inspector, &performer, &request(by_label("Save"))).unwrap();

    assert_eq!(response.action, DEFAULT_ACTION);
    assert_eq!(performer.calls.borrow()[0].2, "AXPress");
}

#[test]
fn the_root_element_resolves_to_an_empty_path() {
    let inspector = FakeInspector::new(tree());
    let performer = RecordingPerformer::default();
    let request = PerformActionRequest {
        app: None,
        selector: ElementSelector {
            role: Some("AXWindow".to_string()),
            ..ElementSelector::default()
        },
        action: Some("AXRaise".to_string()),
    };

    let response = perform_element_action(&inspector, &performer, &request).unwrap();

    assert_eq!(response.path, Vec::<usize>::new());
    assert_eq!(performer.calls.borrow()[0].1, Vec::<usize>::new());
}

#[test]
fn the_app_identifier_reaches_both_the_inspector_and_the_performer() {
    let inspector = FakeInspector::new(tree());
    let performer = RecordingPerformer::default();
    let app = AppIdentifier {
        bundle_id: Some("com.apple.TextEdit".to_string()),
        app_name: None,
    };
    let request = PerformActionRequest {
        app: Some(app.clone()),
        selector: by_label("Save"),
        action: None,
    };

    perform_element_action(&inspector, &performer, &request).unwrap();

    assert_eq!(inspector.seen.borrow().as_slice(), &[Some(app.clone())]);
    assert_eq!(performer.calls.borrow()[0].0, Some(app));
}

#[test]
fn an_action_the_element_does_not_offer_is_refused_before_the_platform_runs() {
    let inspector = FakeInspector::new(tree());
    let performer = RecordingPerformer::default();
    let request = PerformActionRequest {
        app: None,
        selector: by_label("Save"),
        action: Some("AXShowMenu".to_string()),
    };

    let err = perform_element_action(&inspector, &performer, &request).unwrap_err();

    let message = err.message(&Ieee);
    assert!(message.contains("AXShowMenu"), "{message}");
    assert!(
        message.contains("AXPress"),
        "names the real list: {message}"
    );
    assert!(message.contains("Save"), "names the element: {message}");
    assert!(
        performer.calls.borrow().is_empty(),
        "the platform must not be called on a refusal"
    );
}

#[test]
fn an_element_that_offers_no_action_at_all_is_refused() {
    let inspector = FakeInspector::new(tree());
    let performer = RecordingPerformer::default();

    let err = perform_element_action(&inspector, &performer, &request(by_label("Ready")))
        .unwrap_err();

    assert!(err.message(&Ieee).contains("it offers []"), "{err:?}");
    assert!(performer.calls.borrow().is_empty());
}

#[test]
fn action_a_disabled_element_is_refused_before_the_platform_runs() {
    let inspector = FakeInspector::new(tree());
    let performer = RecordingPerformer::default();

    let err = perform_element_action(&inspector, &performer, &request(by_label("Cancel")))
        .unwrap_err();

    let message = err.message(&Ieee);
    assert!(message.contains("disabled"), "{message}");
    assert!(message.contains("Cancel"), "names the element: {message}");
    assert!(
        performer.calls.borrow().is_empty(),
        "the platform must not be called on a disabled element"
    );
}

#[test]
fn the_refusal_errors_render_the_element_and_the_action() {
    let unsupported = ActionError::UnsupportedAction {
        element: "role=\"AXButton\", label=\"Save\"".to_string(),
        action: "AXShowMenu".to_string(),
        offered: "AXPress".to_string(),
    };
    assert_eq!(
        unsupported.message(),
        "element (role=\"AXButton\", label=\"Save\") does not offer action \"AXShowMenu\"; it offers [AXPress]"
    );

    let disabled = ActionError::Disabled {
        element: "role=\"AXButton\", label=\"Cancel\"".to_string(),
        action: "AXPress".to_string(),
    };
    assert_eq!(
        disabled.message(),
        "element (role=\"AXButton\", label=\"Cancel\") is disabled, so it cannot perform action \"AXPress\""
    );
}

#[test]
fn a_refusal_travels_as_its_own_error_variant() {
    let err: PolarizeError = ActionError::Disabled {
        element: "role=\"AXButton\"".to_string(),
        action: "AXPress".to_string(),
    }
    .into();
    assert!(matches!(err, PolarizeError::Action(_)), "{err:?}");
    assert!(err.message(&Ieee).contains("AXPress"));
}

#[test]
fn action_a_selector_that_matches_nothing_reports_the_selector_error() {
    let inspector = FakeInspector::new(tree());
    let performer = RecordingPerformer::default();

    let err =
        perform_element_action(&inspector, &performer, &request(by_label("Nope"))).unwrap_err();

    assert!(matches!(err, PolarizeError::Selector(_)), "{err:?}");
    assert!(err.message(&Ieee).contains("Nope"), "{err:?}");
    assert!(performer.calls.borrow().is_empty());
}

#[test]
fn action_an_empty_selector_is_refused_by_the_selector_module() {
    let inspector = FakeInspector::new(tree());
    let performer = RecordingPerformer::default();

    let err =
        perform_element_action(&inspector, &performer, &request(ElementSelector::default()))
            .unwrap_err();

    assert!(matches!(err, PolarizeError::Selector(_)), "{err:?}");
    assert!(performer.calls.borrow().is_empty());
}

#[test]
fn action_an_index_picks_among_several_matching_elements() {
    let inspector = FakeInspector::new(tree());
    let performer = RecordingPerformer::default();
    let request = PerformActionRequest {
        app: None,
        selector: ElementSelector {
            role: Some("AXButton".to_string()),
            index: Some(2),
            ..ElementSelector::default()
        },
        action: None,
    };

    let response = perform_element_action(&inspector, &performer, &request).unwrap();

    assert_eq!(response.path, vec![1, 1]);
    assert_eq!(response.label.as_deref(), Some("Options"));
}

#[test]
fn a_platform_failure_from_the_performer_reaches_the_caller() {
    let inspector = FakeInspector::new(tree());
    let performer = RecordingPerformer::failing("AXUIElementPerformAction failed");

    let err =
        perform_element_action(&inspector, &performer, &request(by_label("Save"))).unwrap_err();

    assert!(
        err.message(&Ieee).contains("AXUIElementPerformAction failed"),
        "{err:?}"
    );
}

#[test]
fn a_describe_failure_stops_the_call_before_any_action() {
    struct FailingInspector;
    impl AccessibilityInspector for FailingInspector {
        fn describe(
            &self,
            _app: Option<&AppIdentifier>,
        ) -> Result<(ResolvedApp, AxNode), PolarizeError> {
            Err(PolarizeError::AppNotFound("com.example.Nope".to_string()))
        }
    }
    let performer = RecordingPerformer::default();

    let err = perform_element_action(&FailingInspector, &performer, &request(by_label("Save")))
        .unwrap_err();

    assert!(matches!(err, PolarizeError::AppNotFound(_)), "{err:?}");
    assert!(performer.calls.borrow().is_empty());
}
