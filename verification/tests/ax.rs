use polarize_core::ax::{flatten, format_tree, AxNode, NormalizedFrame};
use polarize_core::binary64::{Numbers, Real};

struct Ieee;

impl Numbers for Ieee {
    fn sum(&self, a: Real, b: Real) -> Real {
        num(f64::from_bits(a.bits) + f64::from_bits(b.bits))
    }

    fn difference(&self, a: Real, b: Real) -> Real {
        num(f64::from_bits(a.bits) - f64::from_bits(b.bits))
    }

    fn product(&self, a: Real, b: Real) -> Real {
        num(f64::from_bits(a.bits) * f64::from_bits(b.bits))
    }

    fn quotient(&self, a: Real, b: Real) -> Real {
        num(f64::from_bits(a.bits) / f64::from_bits(b.bits))
    }

    fn shown(&self, value: Real) -> String {
        format!("{}", f64::from_bits(value.bits))
    }

    fn shown_to_hundredths(&self, value: Real) -> String {
        format!("{:.2}", f64::from_bits(value.bits))
    }
}

fn num(value: f64) -> Real {
    Real { bits: value.to_bits() }
}

fn leaf(role: &str, label: &str) -> AxNode {
    AxNode {
        role: role.to_string(),
        label: Some(label.to_string()),
        frame: NormalizedFrame {
            x: num(0.0),
            y: num(0.0),
            width: num(0.1),
            height: num(0.05),
        },
        focusable: false,
        interactive: false,
        children: Vec::new(),
        ..AxNode::default()
    }
}

fn sample_tree() -> AxNode {
    AxNode {
        role: "AXWindow".to_string(),
        label: Some("Untitled".to_string()),
        frame: NormalizedFrame {
            x: num(0.0),
            y: num(0.0),
            width: num(1.0),
            height: num(1.0),
        },
        focusable: false,
        interactive: false,
        children: vec![
            AxNode {
                role: "AXButton".to_string(),
                label: Some("Save".to_string()),
                frame: NormalizedFrame {
                    x: num(0.1),
                    y: num(0.2),
                    width: num(0.15),
                    height: num(0.05),
                },
                focusable: true,
                interactive: true,
                children: vec![],
                ..AxNode::default()
            },
            AxNode {
                role: "AXGroup".to_string(),
                label: None,
                frame: NormalizedFrame {
                    x: num(0.0),
                    y: num(0.3),
                    width: num(1.0),
                    height: num(0.6),
                },
                focusable: false,
                interactive: false,
                children: vec![leaf("AXStaticText", "Hello")],
                ..AxNode::default()
            },
        ],
        ..AxNode::default()
    }
}

#[test]
fn flatten_single_node_has_depth_zero() {
    let node = leaf("AXButton", "OK");
    let flat = flatten(&node);
    assert_eq!(flat.len(), 1);
    assert_eq!(flat[0].depth, 0);
    assert_eq!(flat[0].role, "AXButton");
}

#[test]
fn flatten_is_pre_order_with_correct_depths() {
    let flat = flatten(&sample_tree());
    let roles_and_depths: Vec<(&str, usize)> =
        flat.iter().map(|n| (n.role.as_str(), n.depth)).collect();
    assert_eq!(
        roles_and_depths,
        vec![
            ("AXWindow", 0),
            ("AXButton", 1),
            ("AXGroup", 1),
            ("AXStaticText", 2),
        ]
    );
}

#[test]
fn flatten_preserves_children_order() {
    let mut tree = sample_tree();
    tree.children.swap(0, 1);
    let flat = flatten(&tree);
    assert_eq!(flat[1].role, "AXGroup");
    assert_eq!(flat[2].role, "AXStaticText");
    assert_eq!(flat[3].role, "AXButton");
}

#[test]
fn flatten_carries_frame_and_flags_through() {
    let flat = flatten(&sample_tree());
    let save_button = &flat[1];
    assert_eq!(save_button.label.as_deref(), Some("Save"));
    assert!(save_button.focusable);
    assert!(save_button.interactive);
    assert_eq!(
        save_button.frame,
        NormalizedFrame {
            x: num(0.1),
            y: num(0.2),
            width: num(0.15),
            height: num(0.05)
        }
    );
}

#[test]
fn format_tree_indents_by_depth_and_shows_flags() {
    let text = format_tree(&Ieee, &sample_tree());
    let lines: Vec<&str> = text.lines().collect();
    assert_eq!(lines.len(), 4);
    assert_eq!(lines[0], "AXWindow \"Untitled\" (0.00,0.00,1.00,1.00)");
    assert_eq!(
        lines[1],
        "  AXButton \"Save\" (0.10,0.20,0.15,0.05) [focusable,interactive]"
    );
    assert_eq!(lines[2], "  AXGroup \"\" (0.00,0.30,1.00,0.60)");
    assert_eq!(lines[3], "    AXStaticText \"Hello\" (0.00,0.00,0.10,0.05)");
}
