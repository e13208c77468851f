use polarize_core::ax::{AxNode, NormalizedFrame};
use polarize_core::binary64::{Numbers, Real};
use polarize_core::error::PolarizeError;
use polarize_core::notifications::{
    extract_banners, notification_center_app, perform_describe_notifications,
    perform_dismiss_notification, DescribeNotificationsRequest, DismissNotificationRequest,
    NotificationError, Sleeper, VerifySettings, DEFAULT_VERIFY_ATTEMPTS, DEFAULT_VERIFY_DELAY_MS,
    MAX_VERIFY_ATTEMPTS, MAX_VERIFY_DELAY_MS, NOTIFICATION_CENTER_BUNDLE_ID,
};
use polarize_core::schema::AppIdentifier;
use polarize_core::selector::node_at_path;
use polarize_core::traits::{AccessibilityInspector, ActionPerformer, ResolvedApp};
use std::cell::RefCell;

struct Ieee;

impl Numbers for Ieee {
    fn sum(&self, a: Real, b: Real) -> Real {
        num(f64::from_bits(a.bits) + f64::from_bits(b.bits))
    }

    fn difference(&self, a: Real, b: Real) -> Real {
        num(f64::from_bits(a.bits) - f64::from_bits(b.bits))
    }

    fn product(&self, a: Real, b: Real) -> Real {
        num(f64::from_bits(a.bits) * f64::from_bits(b.bits))
    }

    fn quotient(&self, a: Real, b: Real) -> Real {
        num(f64::from_bits(a.bits) / f64::from_bits(b.bits))
    }

    fn shown(&self, value: Real) -> String {
        format!("{}", f64::from_bits(value.bits))
    }

    fn shown_to_hundredths(&self, value: Real) -> String {
        format!("{:.2}", f64::from_bits(value.bits))
    }
}

fn num(value: f64) -> Real {
    Real { bits: value.to_bits() }
}

#[test]
fn a_clear_all_inside_a_banner_is_not_its_dismiss_control() {
    let tree = AxNode {
        role: "AXGroup".to_string(),
        children: vec![AxNode {
            role: "AXGroup".to_string(),
            children: vec![
                AxNode {
                    role: "AXStaticText".to_string(),
                    label: Some("Messages".to_string()),
                    ..AxNode::default()
                },
                AxNode {
                    role: "AXStaticText".to_string(),
                    label: Some("Hello there".to_string()),
                    ..AxNode::default()
                },
                AxNode {
                    role: "AXButton".to_string(),
                    label: Some("Clear All".to_string()),
                    actions: vec!["AXPress".to_string()],
                    ..AxNode::default()
                },
            ],
            ..AxNode::default()
        }],
        ..AxNode::default()
    };

    let banners = extract_banners(&tree);
    assert_eq!(banners.len(), 1);
    assert_eq!(
        banners[0].dismiss_path, None,
        "a dismiss would press Clear All and wipe every notification"
    );
}

#[test]
fn a_plain_close_control_inside_a_banner_still_dismisses_it() {
    let tree = AxNode {
        role: "AXGroup".to_string(),
        children: vec![AxNode {
            role: "AXGroup".to_string(),
            children: vec![
                AxNode {
                    role: "AXStaticText".to_string(),
                    label: Some("Messages".to_string()),
                    ..AxNode::default()
                },
                AxNode {
                    role: "AXButton".to_string(),
                    label: Some("Close".to_string()),
                    actions: vec!["AXPress".to_string()],
                    ..AxNode::default()
                },
            ],
            ..AxNode::default()
        }],
        ..AxNode::default()
    };
    assert_eq!(extract_banners(&tree)[0].dismiss_path, Some(vec![0, 1]));
}

#[test]
fn a_group_level_clear_all_does_not_swallow_unlabelled_banners() {
    let banner = |app: &str, body: &str| AxNode {
        role: "AXGroup".to_string(),
        children: vec![
            AxNode {
                role: "AXStaticText".to_string(),
                label: Some(app.to_string()),
                ..AxNode::default()
            },
            AxNode {
                role: "AXStaticText".to_string(),
                label: Some(body.to_string()),
                ..AxNode::default()
            },
            AxNode {
                role: "AXButton".to_string(),
                label: Some("Close".to_string()),
                actions: vec!["AXPress".to_string()],
                ..AxNode::default()
            },
        ],
        ..AxNode::default()
    };
    let tree = AxNode {
        role: "AXGroup".to_string(),
        children: vec![
            banner("Messages", "Hello there"),
            banner("Calendar", "Standup at 10"),
            AxNode {
                role: "AXButton".to_string(),
                label: Some("Clear All".to_string()),
                actions: vec!["AXPress".to_string()],
                ..AxNode::default()
            },
        ],
        ..AxNode::default()
    };

    let banners = extract_banners(&tree);
    assert_eq!(
        banners.len(),
        2,
        "Clear All made the whole root read as one banner: {banners:#?}"
    );
    let clear_all_path = Some(vec![2]);
    assert!(
        banners.iter().all(|b| b.dismiss_path != clear_all_path),
        "a dismiss would press Clear All and wipe every notification"
    );
}

#[test]
fn clear_all_is_not_a_banner_dismiss_control() {
    let tree = AxNode {
        role: "AXGroup".to_string(),
        children: vec![
            AxNode {
                role: "AXGroup".to_string(),
                subrole: Some("AXNotificationCenterBanner".to_string()),
                children: vec![
                    AxNode {
                        role: "AXStaticText".to_string(),
                        label: Some("Messages".to_string()),
                        ..AxNode::default()
                    },
                    AxNode {
                        role: "AXStaticText".to_string(),
                        label: Some("Hello there".to_string()),
                        ..AxNode::default()
                    },
                    AxNode {
                        role: "AXButton".to_string(),
                        label: Some("Close".to_string()),
                        actions: vec!["AXPress".to_string()],
                        ..AxNode::default()
                    },
                ],
                ..AxNode::default()
            },
            AxNode {
                role: "AXGroup".to_string(),
                subrole: Some("AXNotificationCenterBanner".to_string()),
                children: vec![
                    AxNode {
                        role: "AXStaticText".to_string(),
                        label: Some("Calendar".to_string()),
                        ..AxNode::default()
                    },
                    AxNode {
                        role: "AXStaticText".to_string(),
                        label: Some("Standup at 10".to_string()),
                        ..AxNode::default()
                    },
                    AxNode {
                        role: "AXButton".to_string(),
                        label: Some("Close".to_string()),
                        actions: vec!["AXPress".to_string()],
                        ..AxNode::default()
                    },
                ],
                ..AxNode::default()
            },
            AxNode {
                role: "AXButton".to_string(),
                label: Some("Clear All".to_string()),
                actions: vec!["AXPress".to_string()],
                ..AxNode::default()
            },
        ],
        ..AxNode::default()
    };

    let banners = extract_banners(&tree);
    assert_eq!(
        banners.len(),
        2,
        "the Clear All button collapsed both banners into one unit"
    );
    for banner in &banners {
        assert!(
            banner.dismiss_path.is_some(),
            "each banner keeps its own close control"
        );
    }
    let clear_all_path = Some(vec![2]);
    assert!(
        banners.iter().all(|b| b.dismiss_path != clear_all_path),
        "a banner's dismiss would press Clear All"
    );
}

fn text(label: &str) -> AxNode {
    AxNode {
        role: "AXStaticText".to_string(),
        label: Some(label.to_string()),
        ..AxNode::default()
    }
}

fn close_button() -> AxNode {
    AxNode {
        role: "AXButton".to_string(),
        label: Some("Close".to_string()),
        subrole: Some("AXCloseButton".to_string()),
        actions: vec!["AXPress".to_string()],
        interactive: true,
        ..AxNode::default()
    }
}

fn group(subrole: Option<&str>, children: Vec<AxNode>) -> AxNode {
    AxNode {
        role: "AXGroup".to_string(),
        subrole: subrole.map(str::to_string),
        children,
        ..AxNode::default()
    }
}

fn app_root(children: Vec<AxNode>) -> AxNode {
    AxNode {
        role: "AXApplication".to_string(),
        label: Some("Notification Center".to_string()),
        children,
        ..AxNode::default()
    }
}

fn todays_tree() -> AxNode {
    app_root(vec![AxNode {
        role: "AXWindow".to_string(),
        label: Some("Notification Center".to_string()),
        children: vec![group(
            Some("AXNotificationCenterBanner"),
            vec![
                text("Messages"),
                text("Ada Lovelace"),
                text("The engine is ready."),
                close_button(),
            ],
        )],
        ..AxNode::default()
    }])
}

#[test]
fn notification_center_app_names_the_documented_bundle_id() {
    let app = notification_center_app();
    assert_eq!(
        app.bundle_id.as_deref(),
        Some("com.apple.notificationcenterui")
    );
    assert_eq!(app.app_name, None);
    assert_eq!(
        NOTIFICATION_CENTER_BUNDLE_ID,
        "com.apple.notificationcenterui"
    );
}

#[test]
fn extract_banners_finds_todays_banner_shape() {
    let banners = extract_banners(&todays_tree());
    assert_eq!(banners.len(), 1);
    assert_eq!(banners[0].app.as_deref(), Some("Messages"));
    assert_eq!(banners[0].title.as_deref(), Some("Ada Lovelace"));
    assert_eq!(banners[0].body.as_deref(), Some("The engine is ready."));
}

#[test]
fn extract_banners_keeps_the_raw_text_run() {
    let banners = extract_banners(&todays_tree());
    assert_eq!(
        banners[0].texts,
        vec![
            "Messages".to_string(),
            "Ada Lovelace".to_string(),
            "The engine is ready.".to_string(),
        ]
    );
}

#[test]
fn extract_banners_finds_the_close_button_by_its_own_path() {
    let tree = todays_tree();
    let banners = extract_banners(&tree);
    let dismiss = banners[0].dismiss_path.clone().expect("a dismiss path");
    let node = node_at_path(&tree, &dismiss).expect("a node");
    assert_eq!(node.subrole.as_deref(), Some("AXCloseButton"));
    assert_eq!(banners[0].dismiss_action.as_deref(), Some("AXPress"));
}

#[test]
fn a_banner_path_reads_back_to_the_banner_root() {
    let tree = todays_tree();
    let banners = extract_banners(&tree);
    let node = node_at_path(&tree, &banners[0].path).expect("a node");
    assert_eq!(node.role, "AXGroup");
}

#[test]
fn a_banner_frame_comes_from_its_own_root_node() {
    let frame = NormalizedFrame {
        x: num(0.7),
        y: num(0.02),
        width: num(0.25),
        height: num(0.1),
    };
    let mut tree = todays_tree();
    tree.children[0].children[0].frame = frame;
    let banners = extract_banners(&tree);
    assert_eq!(banners[0].frame, frame);
}

#[test]
fn extract_banners_finds_two_sibling_banners_in_order() {
    let tree = app_root(vec![AxNode {
        role: "AXWindow".to_string(),
        children: vec![
            group(
                Some("AXNotificationCenterBanner"),
                vec![text("Mail"), text("Invoice"), close_button()],
            ),
            group(
                Some("AXNotificationCenterBanner"),
                vec![text("Calendar"), text("Standup"), close_button()],
            ),
        ],
        ..AxNode::default()
    }]);
    let banners = extract_banners(&tree);
    assert_eq!(banners.len(), 2);
    assert_eq!(banners[0].app.as_deref(), Some("Mail"));
    assert_eq!(banners[1].app.as_deref(), Some("Calendar"));
    assert_eq!(banners[0].index, 0);
    assert_eq!(banners[1].index, 1);
}

#[test]
fn extract_banners_finds_a_future_tree_shape() {
    let cell = |app: &str, title: &str, body: &str| AxNode {
        role: "AXCell".to_string(),
        children: vec![
            group(Some("AXNotificationHeaderV4"), vec![text(app), text(title)]),
            group(Some("AXNotificationBodyV4"), vec![text(body)]),
            AxNode {
                role: "AXButton".to_string(),
                label: Some("Clear".to_string()),
                subrole: Some("AXNotificationClearButtonV4".to_string()),
                actions: vec!["AXPress".to_string()],
                interactive: true,
                ..AxNode::default()
            },
        ],
        ..AxNode::default()
    };
    let tree = app_root(vec![AxNode {
        role: "AXWindow".to_string(),
        children: vec![AxNode {
            role: "AXScrollArea".to_string(),
            children: vec![AxNode {
                role: "AXList".to_string(),
                children: vec![
                    cell("Slack", "#general", "ship it"),
                    cell("Reminders", "Water plants", "now"),
                ],
                ..AxNode::default()
            }],
            ..AxNode::default()
        }],
        ..AxNode::default()
    }]);

    let banners = extract_banners(&tree);
    assert_eq!(banners.len(), 2, "one banner per cell");
    assert_eq!(banners[0].app.as_deref(), Some("Slack"));
    assert_eq!(banners[0].title.as_deref(), Some("#general"));
    assert_eq!(banners[0].body.as_deref(), Some("ship it"));
    assert!(banners[0].dismiss_path.is_some(), "the Clear button");
    assert_eq!(banners[1].app.as_deref(), Some("Reminders"));
}

#[test]
fn extract_banners_needs_no_subrole_string() {
    let tree = app_root(vec![AxNode {
        role: "AXWindow".to_string(),
        children: vec![AxNode {
            role: "AXUnknownFutureRole".to_string(),
            children: vec![text("Music"), text("Now playing"), close_button()],
            ..AxNode::default()
        }],
        ..AxNode::default()
    }]);
    let banners = extract_banners(&tree);
    assert_eq!(banners.len(), 1);
    assert_eq!(banners[0].app.as_deref(), Some("Music"));
}

#[test]
fn extract_banners_reports_a_banner_with_no_dismiss_control() {
    let tree = app_root(vec![AxNode {
        role: "AXWindow".to_string(),
        children: vec![group(None, vec![text("Finder"), text("Copy done")])],
        ..AxNode::default()
    }]);
    let banners = extract_banners(&tree);
    assert_eq!(banners.len(), 1);
    assert_eq!(banners[0].dismiss_path, None);
    assert_eq!(banners[0].dismiss_action, None);
}

#[test]
fn extract_banners_returns_nothing_when_no_text_exists() {
    let tree = app_root(vec![AxNode {
        role: "AXWindow".to_string(),
        children: vec![group(None, vec![])],
        ..AxNode::default()
    }]);
    assert!(extract_banners(&tree).is_empty());
}

#[test]
fn extract_banners_returns_nothing_for_a_bare_application_element() {
    assert!(extract_banners(&app_root(vec![])).is_empty());
}

#[test]
fn extract_banners_keeps_action_button_text_out_of_the_body() {
    let tree = app_root(vec![AxNode {
        role: "AXWindow".to_string(),
        children: vec![group(
            Some("AXNotificationCenterBanner"),
            vec![
                text("Messages"),
                text("Ada"),
                text("Hello"),
                AxNode {
                    role: "AXButton".to_string(),
                    label: Some("Reply".to_string()),
                    actions: vec!["AXPress".to_string()],
                    interactive: true,
                    ..AxNode::default()
                },
                close_button(),
            ],
        )],
        ..AxNode::default()
    }]);
    let banners = extract_banners(&tree);
    assert_eq!(banners[0].body.as_deref(), Some("Hello"));
    assert!(!banners[0].texts.iter().any(|t| t == "Reply"));
}

#[test]
fn a_plain_action_button_is_not_a_dismiss_control() {
    let tree = app_root(vec![AxNode {
        role: "AXWindow".to_string(),
        children: vec![group(
            None,
            vec![
                text("Messages"),
                text("Ada"),
                AxNode {
                    role: "AXButton".to_string(),
                    label: Some("Reply".to_string()),
                    actions: vec!["AXPress".to_string()],
                    interactive: true,
                    ..AxNode::default()
                },
            ],
        )],
        ..AxNode::default()
    }]);
    let banners = extract_banners(&tree);
    assert_eq!(banners.len(), 1);
    assert_eq!(banners[0].dismiss_path, None);
}

#[test]
fn one_text_reads_as_the_title_not_the_app() {
    let tree = app_root(vec![AxNode {
        role: "AXWindow".to_string(),
        children: vec![group(None, vec![text("Backup finished")])],
        ..AxNode::default()
    }]);
    let banners = extract_banners(&tree);
    assert_eq!(banners[0].app, None);
    assert_eq!(banners[0].title.as_deref(), Some("Backup finished"));
    assert_eq!(banners[0].body, None);
}

#[test]
fn two_texts_read_as_the_app_and_the_title() {
    let tree = app_root(vec![AxNode {
        role: "AXWindow".to_string(),
        children: vec![group(None, vec![text("Mail"), text("New message")])],
        ..AxNode::default()
    }]);
    let banners = extract_banners(&tree);
    assert_eq!(banners[0].app.as_deref(), Some("Mail"));
    assert_eq!(banners[0].title.as_deref(), Some("New message"));
    assert_eq!(banners[0].body, None);
}

#[test]
fn four_texts_join_the_last_two_into_the_body() {
    let tree = app_root(vec![AxNode {
        role: "AXWindow".to_string(),
        children: vec![group(
            None,
            vec![
                text("Mail"),
                text("Ada"),
                text("line one"),
                text("line two"),
            ],
        )],
        ..AxNode::default()
    }]);
    let banners = extract_banners(&tree);
    assert_eq!(banners[0].body.as_deref(), Some("line one\nline two"));
}

#[test]
fn an_identifier_hint_marks_a_banner_the_structure_would_split() {
    let tree = app_root(vec![AxNode {
        role: "AXWindow".to_string(),
        children: vec![AxNode {
            role: "AXGroup".to_string(),
            identifier: Some("notification-item-3".to_string()),
            children: vec![
                group(None, vec![text("Mail"), text("Ada")]),
                group(None, vec![text("Hello")]),
            ],
            ..AxNode::default()
        }],
        ..AxNode::default()
    }]);
    let banners = extract_banners(&tree);
    assert_eq!(banners.len(), 1, "the hint keeps the two groups together");
    assert_eq!(banners[0].body.as_deref(), Some("Hello"));
}

struct FakeInspector {
    trees: RefCell<Vec<AxNode>>,
    asked: RefCell<Vec<Option<AppIdentifier>>>,
}

impl FakeInspector {
    fn new(trees: Vec<AxNode>) -> Self {
        Self {
            trees: RefCell::new(trees),
            asked: RefCell::new(Vec::new()),
        }
    }
}

impl AccessibilityInspector for FakeInspector {
    fn describe(
        &self,
        app: Option<&AppIdentifier>,
    ) -> Result<(ResolvedApp, AxNode), PolarizeError> {
        self.asked.borrow_mut().push(app.cloned());
        let mut trees = self.trees.borrow_mut();
        let tree = if trees.len() > 1 {
            trees.remove(0)
        } else {
            trees[0].clone()
        };
        Ok((
            ResolvedApp {
                name: "Notification Center".to_string(),
                bundle_id: Some(NOTIFICATION_CENTER_BUNDLE_ID.to_string()),
            },
            tree,
        ))
    }
}

type RecordedCall = (Option<AppIdentifier>, Vec<usize>, String);

#[derive(Default)]
struct FakePerformer {
    calls: RefCell<Vec<RecordedCall>>,
}

impl ActionPerformer for FakePerformer {
    fn perform_action_at_path(
        &self,
        app: Option<&AppIdentifier>,
        path: &[usize],
        action: &str,
    ) -> Result<(), PolarizeError> {
        self.calls
            .borrow_mut()
            .push((app.cloned(), path.to_vec(), action.to_string()));
        Ok(())
    }
}

#[derive(Default)]
struct FakeSleeper {
    slept: RefCell<Vec<u64>>,
}

impl Sleeper for FakeSleeper {
    fn sleep_ms(&self, ms: u64) {
        self.slept.borrow_mut().push(ms);
    }
}

#[test]
fn describe_notifications_addresses_the_notification_centre() {
    let inspector = FakeInspector::new(vec![todays_tree()]);
    let request = DescribeNotificationsRequest::default();
    perform_describe_notifications(&inspector, &request).expect("a response");
    let asked = inspector.asked.borrow();
    assert_eq!(asked.len(), 1);
    assert_eq!(
        asked[0].as_ref().and_then(|a| a.bundle_id.as_deref()),
        Some(NOTIFICATION_CENTER_BUNDLE_ID)
    );
}

#[test]
fn describe_notifications_reports_every_banner_and_a_count() {
    let inspector = FakeInspector::new(vec![todays_tree()]);
    let response =
        perform_describe_notifications(&inspector, &DescribeNotificationsRequest::default())
            .expect("a response");
    assert_eq!(response.count, 1);
    assert_eq!(response.banners.len(), 1);
    assert_eq!(response.app_name, "Notification Center");
    assert!(response.formatted.contains("Ada Lovelace"));
}

#[test]
fn describe_notifications_reports_an_empty_list_without_an_error() {
    let inspector = FakeInspector::new(vec![app_root(vec![])]);
    let response =
        perform_describe_notifications(&inspector, &DescribeNotificationsRequest::default())
            .expect("a response");
    assert_eq!(response.count, 0);
    assert!(response.banners.is_empty());
    assert!(response.formatted.contains("no notification"));
}

#[test]
fn describe_notifications_filters_by_app_without_case() {
    let tree = app_root(vec![AxNode {
        role: "AXWindow".to_string(),
        children: vec![
            group(None, vec![text("Mail"), text("Invoice"), close_button()]),
            group(
                None,
                vec![text("Calendar"), text("Standup"), close_button()],
            ),
        ],
        ..AxNode::default()
    }]);
    let inspector = FakeInspector::new(vec![tree]);
    let request = DescribeNotificationsRequest {
        from_app: Some("cal".to_string()),
    };
    let response = perform_describe_notifications(&inspector, &request).expect("a response");
    assert_eq!(response.count, 1);
    assert_eq!(response.banners[0].app.as_deref(), Some("Calendar"));
}

fn empty_tree() -> AxNode {
    app_root(vec![AxNode {
        role: "AXWindow".to_string(),
        children: vec![],
        ..AxNode::default()
    }])
}

#[test]
fn dismiss_presses_the_close_button_at_its_resolved_path() {
    let inspector = FakeInspector::new(vec![todays_tree(), empty_tree()]);
    let performer = FakePerformer::default();
    let sleeper = FakeSleeper::default();
    let response = perform_dismiss_notification(
        &inspector,
        &performer,
        &sleeper,
        &DismissNotificationRequest::default(),
    )
    .expect("a response");

    let calls = performer.calls.borrow();
    assert_eq!(calls.len(), 1);
    assert_eq!(calls[0].1, vec![0, 0, 3]);
    assert_eq!(calls[0].2, "AXPress");
    assert_eq!(
        calls[0].0.as_ref().and_then(|a| a.bundle_id.as_deref()),
        Some(NOTIFICATION_CENTER_BUNDLE_ID),
        "a dismiss never addresses the frontmost app"
    );
    assert!(response.dismissed);
    assert_eq!(response.remaining, 0);
}

#[test]
fn dismiss_reports_a_banner_that_did_not_go_away() {
    let inspector = FakeInspector::new(vec![todays_tree(), todays_tree()]);
    let performer = FakePerformer::default();
    let sleeper = FakeSleeper::default();
    let request = DismissNotificationRequest {
        verify_attempts: Some(1),
        ..DismissNotificationRequest::default()
    };
    let response = perform_dismiss_notification(&inspector, &performer, &sleeper, &request)
        .expect("a response");
    assert!(!response.dismissed, "the banner is still in the tree");
    assert_eq!(response.remaining, 1);
    assert_eq!(performer.calls.borrow().len(), 1, "pressed exactly once");
}

#[test]
fn dismiss_re_reads_the_tree_until_the_banner_goes() {
    let inspector = FakeInspector::new(vec![
        todays_tree(),
        todays_tree(),
        todays_tree(),
        empty_tree(),
    ]);
    let performer = FakePerformer::default();
    let sleeper = FakeSleeper::default();
    let request = DismissNotificationRequest {
        verify_attempts: Some(3),
        verify_delay_ms: Some(40),
        ..DismissNotificationRequest::default()
    };
    let response = perform_dismiss_notification(&inspector, &performer, &sleeper, &request)
        .expect("a response");
    assert!(response.dismissed);
    assert_eq!(response.verify_attempts, 3);
    assert_eq!(sleeper.slept.borrow().as_slice(), &[40, 40, 40]);
}

#[test]
fn dismiss_refuses_a_banner_with_no_close_control_and_presses_nothing() {
    let tree = app_root(vec![AxNode {
        role: "AXWindow".to_string(),
        children: vec![group(None, vec![text("Finder"), text("Copy done")])],
        ..AxNode::default()
    }]);
    let inspector = FakeInspector::new(vec![tree]);
    let performer = FakePerformer::default();
    let sleeper = FakeSleeper::default();
    let err = perform_dismiss_notification(
        &inspector,
        &performer,
        &sleeper,
        &DismissNotificationRequest::default(),
    )
    .expect_err("a refusal");
    assert!(err.message(&Ieee).contains("no dismiss control"));
    assert!(performer.calls.borrow().is_empty());
}

#[test]
fn dismiss_selects_a_banner_by_title() {
    let tree = app_root(vec![AxNode {
        role: "AXWindow".to_string(),
        children: vec![
            group(None, vec![text("Mail"), text("Invoice"), close_button()]),
            group(
                None,
                vec![text("Calendar"), text("Standup"), close_button()],
            ),
        ],
        ..AxNode::default()
    }]);
    let inspector = FakeInspector::new(vec![tree, empty_tree()]);
    let performer = FakePerformer::default();
    let sleeper = FakeSleeper::default();
    let request = DismissNotificationRequest {
        title_contains: Some("Standup".to_string()),
        ..DismissNotificationRequest::default()
    };
    let response = perform_dismiss_notification(&inspector, &performer, &sleeper, &request)
        .expect("a response");
    assert_eq!(response.banner.app.as_deref(), Some("Calendar"));
    assert_eq!(performer.calls.borrow()[0].1, vec![0, 1, 2]);
}

#[test]
fn dismiss_rejects_an_index_past_the_last_banner() {
    let inspector = FakeInspector::new(vec![todays_tree()]);
    let performer = FakePerformer::default();
    let sleeper = FakeSleeper::default();
    let request = DismissNotificationRequest {
        index: Some(4),
        ..DismissNotificationRequest::default()
    };
    let err = perform_dismiss_notification(&inspector, &performer, &sleeper, &request)
        .expect_err("an error");
    assert!(err.message(&Ieee).contains("index 4"));
    assert!(performer.calls.borrow().is_empty());
}

#[test]
fn dismiss_reports_no_banner_at_all() {
    let inspector = FakeInspector::new(vec![empty_tree()]);
    let performer = FakePerformer::default();
    let sleeper = FakeSleeper::default();
    let err = perform_dismiss_notification(
        &inspector,
        &performer,
        &sleeper,
        &DismissNotificationRequest::default(),
    )
    .expect_err("an error");
    assert!(err.message(&Ieee).contains("no notification banner"));
}

#[test]
fn dismiss_reports_a_filter_that_matches_nothing() {
    let inspector = FakeInspector::new(vec![todays_tree()]);
    let performer = FakePerformer::default();
    let sleeper = FakeSleeper::default();
    let request = DismissNotificationRequest {
        from_app: Some("Xcode".to_string()),
        ..DismissNotificationRequest::default()
    };
    let err = perform_dismiss_notification(&inspector, &performer, &sleeper, &request)
        .expect_err("an error");
    assert!(err.message(&Ieee).contains("Xcode"));
}

#[test]
fn dismiss_counts_identical_banners_rather_than_matching_text() {
    let twin = || {
        group(
            Some("AXNotificationCenterBanner"),
            vec![text("Mail"), text("Invoice"), close_button()],
        )
    };
    let before = app_root(vec![AxNode {
        role: "AXWindow".to_string(),
        children: vec![twin(), twin()],
        ..AxNode::default()
    }]);
    let after = app_root(vec![AxNode {
        role: "AXWindow".to_string(),
        children: vec![twin()],
        ..AxNode::default()
    }]);
    let inspector = FakeInspector::new(vec![before, after]);
    let performer = FakePerformer::default();
    let sleeper = FakeSleeper::default();
    let response = perform_dismiss_notification(
        &inspector,
        &performer,
        &sleeper,
        &DismissNotificationRequest::default(),
    )
    .expect("a response");
    assert!(response.dismissed);
    assert_eq!(response.remaining, 1);
}

#[test]
fn dismiss_uses_the_only_action_a_close_control_offers() {
    let tree = app_root(vec![AxNode {
        role: "AXWindow".to_string(),
        children: vec![group(
            None,
            vec![
                text("Mail"),
                text("Invoice"),
                AxNode {
                    role: "AXButton".to_string(),
                    label: Some("Dismiss".to_string()),
                    actions: vec!["AXCancel".to_string()],
                    interactive: true,
                    ..AxNode::default()
                },
            ],
        )],
        ..AxNode::default()
    }]);
    let inspector = FakeInspector::new(vec![tree, empty_tree()]);
    let performer = FakePerformer::default();
    let sleeper = FakeSleeper::default();
    perform_dismiss_notification(
        &inspector,
        &performer,
        &sleeper,
        &DismissNotificationRequest::default(),
    )
    .expect("a response");
    assert_eq!(performer.calls.borrow()[0].2, "AXCancel");
}

#[test]
fn dismiss_clamps_its_verification_attempts() {
    let request = DismissNotificationRequest {
        verify_attempts: Some(999),
        verify_delay_ms: Some(999_999),
        ..DismissNotificationRequest::default()
    };
    let settings = VerifySettings::resolve(request.verify_attempts, request.verify_delay_ms);
    assert_eq!(settings.attempts, MAX_VERIFY_ATTEMPTS);
    assert_eq!(settings.delay_ms, MAX_VERIFY_DELAY_MS);

    let defaults = VerifySettings::resolve(None, None);
    assert_eq!(defaults.attempts, DEFAULT_VERIFY_ATTEMPTS);
    assert_eq!(defaults.delay_ms, DEFAULT_VERIFY_DELAY_MS);
}

#[test]
fn zero_verification_attempts_still_re_reads_the_tree_once() {
    let inspector = FakeInspector::new(vec![todays_tree(), empty_tree()]);
    let performer = FakePerformer::default();
    let sleeper = FakeSleeper::default();
    let request = DismissNotificationRequest {
        verify_attempts: Some(0),
        ..DismissNotificationRequest::default()
    };
    let response = perform_dismiss_notification(&inspector, &performer, &sleeper, &request)
        .expect("a response");
    assert!(response.dismissed);
    assert_eq!(response.verify_attempts, 1);
}

#[test]
fn a_notification_error_travels_as_a_platform_error_with_its_message() {
    let err: PolarizeError = NotificationError::NoBanners.into_error();
    assert!(matches!(err, PolarizeError::Platform(_)));
    assert!(err.message(&Ieee).contains("no notification banner"));
}
