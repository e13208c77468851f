use polarize_core::ax::{AxNode, NormalizedFrame};
use polarize_core::binary64::{Numbers, Real};
use polarize_core::selector::{find_all, find_one, node_at_path, ElementSelector, SelectorError};

struct Ieee;

impl Numbers for Ieee {
    fn sum(&self, a: Real, b: Real) -> Real {
        num(f64::from_bits(a.bits) + f64::from_bits(b.bits))
    }

    fn difference(&self, a: Real, b: Real) -> Real {
        num(f64::from_bits(a.bits) - f64::from_bits(b.bits))
    }

    fn product(&self, a: Real, b: Real) -> Real {
        num(f64::from_bits(a.bits) * f64::from_bits(b.bits))
    }

    fn quotient(&self, a: Real, b: Real) -> Real {
        num(f64::from_bits(a.bits) / f64::from_bits(b.bits))
    }

    fn shown(&self, value: Real) -> String {
        format!("{}", f64::from_bits(value.bits))
    }

    fn shown_to_hundredths(&self, value: Real) -> String {
        format!("{:.2}", f64::from_bits(value.bits))
    }
}

fn num(value: f64) -> Real {
    Real { bits: value.to_bits() }
}

fn node(role: &str, label: Option<&str>) -> AxNode {
    AxNode {
        role: role.to_string(),
        label: label.map(str::to_string),
        ..AxNode::default()
    }
}

fn tree() -> AxNode {
    AxNode {
        role: "AXWindow".to_string(),
        label: Some("Main".to_string()),
        frame: NormalizedFrame {
            x: num(0.0),
            y: num(0.0),
            width: num(1.0),
            height: num(1.0),
        },
        children: vec![
            AxNode {
                identifier: Some("save".to_string()),
                actions: vec!["AXPress".to_string()],
                ..node("AXButton", Some("Save"))
            },
            AxNode {
                children: vec![
                    AxNode {
                        enabled: false,
                        ..node("AXButton", Some("Cancel"))
                    },
                    node("AXButton", Some("Save")),
                ],
                ..node("AXGroup", None)
            },
            AxNode {
                subrole: Some("AXSearchField".to_string()),
                ..node("AXTextField", Some("Name"))
            },
        ],
        ..AxNode::default()
    }
}

#[test]
fn an_empty_selector_is_rejected_rather_than_matching_everything() {
    let selector = ElementSelector::default();
    assert!(selector.is_empty());
    assert_eq!(find_all(&tree(), &selector), Err(SelectorError::Empty));
    assert_eq!(find_one(&tree(), &selector), Err(SelectorError::Empty));
}

#[test]
fn an_index_only_selector_is_still_empty() {
    let selector = ElementSelector {
        index: Some(2),
        ..ElementSelector::default()
    };
    assert!(selector.is_empty());
    assert_eq!(find_one(&tree(), &selector), Err(SelectorError::Empty));
}

#[test]
fn an_enabled_only_selector_is_still_empty() {
    let selector = ElementSelector {
        enabled_only: true,
        ..ElementSelector::default()
    };
    assert!(selector.is_empty());
    assert_eq!(find_all(&tree(), &selector), Err(SelectorError::Empty));
    assert_eq!(find_one(&tree(), &selector), Err(SelectorError::Empty));
}

#[test]
fn every_filter_together_is_still_empty() {
    let selector = ElementSelector {
        enabled_only: true,
        index: Some(0),
        ..ElementSelector::default()
    };
    assert!(selector.is_empty());
    assert_eq!(find_one(&tree(), &selector), Err(SelectorError::Empty));
}

#[test]
fn enabled_only_still_filters_once_a_real_criterion_is_named() {
    let selector = ElementSelector {
        role: Some("AXButton".to_string()),
        enabled_only: true,
        ..ElementSelector::default()
    };
    assert!(!selector.is_empty());
    let with_filter = find_all(&tree(), &selector).unwrap();

    let without = ElementSelector {
        role: Some("AXButton".to_string()),
        ..ElementSelector::default()
    };
    let no_filter = find_all(&tree(), &without).unwrap();
    assert!(
        with_filter.len() < no_filter.len(),
        "the tree needs a disabled AXButton for this test to mean anything"
    );
}

#[test]
fn identifier_resolves_to_one_path() {
    let selector = ElementSelector {
        identifier: Some("save".to_string()),
        ..ElementSelector::default()
    };
    assert_eq!(find_one(&tree(), &selector), Ok(vec![0]));
}

#[test]
fn find_all_returns_paths_in_pre_order() {
    let selector = ElementSelector {
        role: Some("AXButton".to_string()),
        ..ElementSelector::default()
    };
    assert_eq!(
        find_all(&tree(), &selector),
        Ok(vec![vec![0], vec![1, 0], vec![1, 1]])
    );
}

#[test]
fn index_picks_the_nth_match_in_pre_order() {
    let selector = ElementSelector {
        label: Some("Save".to_string()),
        index: Some(1),
        ..ElementSelector::default()
    };
    assert_eq!(find_one(&tree(), &selector), Ok(vec![1, 1]));
}

#[test]
fn omitted_index_means_the_first_match() {
    let selector = ElementSelector {
        label: Some("Save".to_string()),
        ..ElementSelector::default()
    };
    assert_eq!(find_one(&tree(), &selector), Ok(vec![0]));
}

#[test]
fn several_criteria_must_all_hold() {
    let both = ElementSelector {
        role: Some("AXButton".to_string()),
        label: Some("Cancel".to_string()),
        ..ElementSelector::default()
    };
    assert_eq!(find_one(&tree(), &both), Ok(vec![1, 0]));

    let mismatched = ElementSelector {
        role: Some("AXTextField".to_string()),
        label: Some("Cancel".to_string()),
        ..ElementSelector::default()
    };
    assert!(matches!(
        find_one(&tree(), &mismatched),
        Err(SelectorError::NoMatch { .. })
    ));
}

#[test]
fn enabled_only_skips_a_disabled_element() {
    let selector = ElementSelector {
        label: Some("Cancel".to_string()),
        enabled_only: true,
        ..ElementSelector::default()
    };
    assert!(matches!(
        find_one(&tree(), &selector),
        Err(SelectorError::NoMatch { .. })
    ));
}

#[test]
fn label_contains_is_a_substring_match() {
    let selector = ElementSelector {
        label_contains: Some("anc".to_string()),
        ..ElementSelector::default()
    };
    assert_eq!(find_one(&tree(), &selector), Ok(vec![1, 0]));
}

#[test]
fn subrole_matches() {
    let selector = ElementSelector {
        subrole: Some("AXSearchField".to_string()),
        ..ElementSelector::default()
    };
    assert_eq!(find_one(&tree(), &selector), Ok(vec![2]));
}

#[test]
fn the_root_itself_can_match_and_resolves_to_an_empty_path() {
    let selector = ElementSelector {
        role: Some("AXWindow".to_string()),
        ..ElementSelector::default()
    };
    assert_eq!(find_one(&tree(), &selector), Ok(Vec::new()));
}

#[test]
fn an_out_of_range_index_names_how_many_matched() {
    let selector = ElementSelector {
        role: Some("AXButton".to_string()),
        index: Some(9),
        ..ElementSelector::default()
    };
    assert_eq!(
        find_one(&tree(), &selector),
        Err(SelectorError::IndexOutOfRange {
            selector: selector.describe(),
            index: 9,
            matches: 3,
        })
    );
}

#[test]
fn no_match_reports_the_selector_in_its_message() {
    let selector = ElementSelector {
        identifier: Some("nope".to_string()),
        ..ElementSelector::default()
    };
    let err = find_one(&tree(), &selector).unwrap_err();
    assert!(err.message().contains("nope"));
}

#[test]
fn node_at_path_walks_child_indices() {
    let tree = tree();
    assert_eq!(node_at_path(&tree, &[]).unwrap().role, "AXWindow");
    assert_eq!(
        node_at_path(&tree, &[1, 0]).unwrap().label.as_deref(),
        Some("Cancel")
    );
    assert!(node_at_path(&tree, &[9]).is_none());
    assert!(node_at_path(&tree, &[0, 0]).is_none());
}

#[test]
fn every_found_path_resolves_back_to_a_matching_node() {
    let tree = tree();
    let selector = ElementSelector {
        role: Some("AXButton".to_string()),
        ..ElementSelector::default()
    };
    for path in find_all(&tree, &selector).unwrap() {
        let node = node_at_path(&tree, &path).expect("path resolves");
        assert!(polarize_core::selector::matches(node, &selector));
    }
}
