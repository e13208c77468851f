use polarize_core::ax::NormalizedFrame;
use polarize_core::ax_batch::{
    AxAttributeSlot, AxAttributes, BATCHED_ATTRIBUTES, DESCRIPTION, ENABLED, HELP, IDENTIFIER,
    POSITION, ROLE, ROLE_DESCRIPTION, SIZE, SUBROLE, TITLE, VALUE,
};
use polarize_core::binary64::{Numbers, Real};
use polarize_core::coords::{PixelPoint, PixelSize};

struct Ieee;

impl Numbers for Ieee {
    fn sum(&self, a: Real, b: Real) -> Real {
        num(f64::from_bits(a.bits) + f64::from_bits(b.bits))
    }

    fn difference(&self, a: Real, b: Real) -> Real {
        num(f64::from_bits(a.bits) - f64::from_bits(b.bits))
    }

    fn product(&self, a: Real, b: Real) -> Real {
        num(f64::from_bits(a.bits) * f64::from_bits(b.bits))
    }

    fn quotient(&self, a: Real, b: Real) -> Real {
        num(f64::from_bits(a.bits) / f64::from_bits(b.bits))
    }

    fn shown(&self, value: Real) -> String {
        format!("{}", f64::from_bits(value.bits))
    }

    fn shown_to_hundredths(&self, value: Real) -> String {
        format!("{:.2}", f64::from_bits(value.bits))
    }
}

fn num(value: f64) -> Real {
    Real { bits: value.to_bits() }
}

fn text(value: &str) -> AxAttributeSlot {
    AxAttributeSlot::Text(value.to_string())
}

fn full_slots() -> Vec<AxAttributeSlot> {
    vec![
        text("AXButton"),
        text("Save"),
        text("save the document"),
        text("saved"),
        AxAttributeSlot::Point(PixelPoint { x: num(10.0), y: num(20.0) }),
        AxAttributeSlot::Size(PixelSize {
            width: num(30.0),
            height: num(40.0),
        }),
        AxAttributeSlot::Flag(false),
        text("AXCloseButton"),
        text("button"),
        text("save-button"),
        text("Save the document"),
    ]
}

fn full_attributes() -> AxAttributes {
    AxAttributes {
        role: "AXButton".to_string(),
        label: Some("Save".to_string()),
        position: PixelPoint { x: num(10.0), y: num(20.0) },
        size: PixelSize {
            width: num(30.0),
            height: num(40.0),
        },
        enabled: false,
        subrole: Some("AXCloseButton".to_string()),
        role_description: Some("button".to_string()),
        identifier: Some("save-button".to_string()),
        help: Some("Save the document".to_string()),
    }
}

#[test]
fn the_attribute_names_match_their_index_constants() {
    assert_eq!(BATCHED_ATTRIBUTES[ROLE], "AXRole");
    assert_eq!(BATCHED_ATTRIBUTES[TITLE], "AXTitle");
    assert_eq!(BATCHED_ATTRIBUTES[DESCRIPTION], "AXDescription");
    assert_eq!(BATCHED_ATTRIBUTES[VALUE], "AXValue");
    assert_eq!(BATCHED_ATTRIBUTES[POSITION], "AXPosition");
    assert_eq!(BATCHED_ATTRIBUTES[SIZE], "AXSize");
    assert_eq!(BATCHED_ATTRIBUTES[ENABLED], "AXEnabled");
    assert_eq!(BATCHED_ATTRIBUTES[SUBROLE], "AXSubrole");
    assert_eq!(BATCHED_ATTRIBUTES[ROLE_DESCRIPTION], "AXRoleDescription");
    assert_eq!(BATCHED_ATTRIBUTES[IDENTIFIER], "AXIdentifier");
    assert_eq!(BATCHED_ATTRIBUTES[HELP], "AXHelp");
}

#[test]
fn the_attribute_names_hold_no_duplicate() {
    let mut seen = BATCHED_ATTRIBUTES.to_vec();
    seen.sort_unstable();
    let count = seen.len();
    seen.dedup();
    assert_eq!(seen.len(), count, "a duplicate name wastes a slot");
}

#[test]
fn a_full_result_set_fills_every_field() {
    assert_eq!(AxAttributes::from_slots(&full_slots()), full_attributes());
}

#[test]
fn an_empty_result_array_yields_every_default() {
    assert_eq!(AxAttributes::from_slots(&[]), AxAttributes::default());
}

#[test]
fn every_slot_unread_matches_the_empty_result_array() {
    let unread = vec![AxAttributeSlot::Unread; BATCHED_ATTRIBUTES.len()];
    assert_eq!(
        AxAttributes::from_slots(&unread),
        AxAttributes::from_slots(&[])
    );
}

#[test]
fn a_short_result_array_defaults_the_missing_tail() {
    let short = &full_slots()[..2];
    let read = AxAttributes::from_slots(short);
    assert_eq!(read.role, "AXButton");
    assert_eq!(read.label.as_deref(), Some("Save"));
    assert_eq!(read.position, PixelPoint { x: num(0.0), y: num(0.0) });
    assert!(read.enabled, "a missing AXEnabled slot means enabled");
    assert_eq!(read.subrole, None);
    assert_eq!(read.help, None);
}

#[test]
fn an_over_long_result_array_ignores_the_extra_slots() {
    let mut long = full_slots();
    long.push(text("an attribute nobody asked for"));
    long.push(AxAttributeSlot::Flag(true));
    assert_eq!(AxAttributes::from_slots(&long), full_attributes());
}

#[test]
fn an_unread_slot_in_every_position_degrades_only_that_field() {
    for index in 0..BATCHED_ATTRIBUTES.len() {
        let mut slots = full_slots();
        slots[index] = AxAttributeSlot::Unread;
        let read = AxAttributes::from_slots(&slots);
        let full = full_attributes();
        let name = BATCHED_ATTRIBUTES[index];

        match index {
            ROLE => assert_eq!(read.role, "AXUnknown", "{name}"),
            TITLE => assert_eq!(
                read.label.as_deref(),
                Some("save the document"),
                "an unread {name} falls through to AXDescription"
            ),
            DESCRIPTION | VALUE => {
                assert_eq!(read.label.as_deref(), Some("Save"), "{name}")
            }
            POSITION => assert_eq!(read.position, PixelPoint { x: num(0.0), y: num(0.0) }, "{name}"),
            SIZE => assert_eq!(
                read.size,
                PixelSize {
                    width: num(0.0),
                    height: num(0.0)
                },
                "{name}"
            ),
            ENABLED => assert!(read.enabled, "an unread {name} must not read as disabled"),
            SUBROLE => assert_eq!(read.subrole, None, "{name}"),
            ROLE_DESCRIPTION => assert_eq!(read.role_description, None, "{name}"),
            IDENTIFIER => assert_eq!(read.identifier, None, "{name}"),
            HELP => assert_eq!(read.help, None, "{name}"),
            _ => unreachable!("{name} has no rule"),
        }

        if !matches!(index, ROLE) {
            assert_eq!(read.role, full.role, "{name} disturbed AXRole");
        }
        if !matches!(index, POSITION) {
            assert_eq!(read.position, full.position, "{name} disturbed AXPosition");
        }
        if !matches!(index, SIZE) {
            assert_eq!(read.size, full.size, "{name} disturbed AXSize");
        }
        if !matches!(index, ENABLED) {
            assert_eq!(read.enabled, full.enabled, "{name} disturbed AXEnabled");
        }
        if !matches!(index, SUBROLE) {
            assert_eq!(read.subrole, full.subrole, "{name} disturbed AXSubrole");
        }
        if !matches!(index, IDENTIFIER) {
            assert_eq!(
                read.identifier, full.identifier,
                "{name} disturbed AXIdentifier"
            );
        }
        if !matches!(index, HELP) {
            assert_eq!(read.help, full.help, "{name} disturbed AXHelp");
        }
    }
}

#[test]
fn a_wrong_type_in_every_position_degrades_like_an_unread_slot() {
    for index in 0..BATCHED_ATTRIBUTES.len() {
        let mut wrong = full_slots();
        wrong[index] = match index {
            POSITION | SIZE | ENABLED => text("not what this attribute holds"),
            _ => AxAttributeSlot::Flag(true),
        };
        let mut unread = full_slots();
        unread[index] = AxAttributeSlot::Unread;
        assert_eq!(
            AxAttributes::from_slots(&wrong),
            AxAttributes::from_slots(&unread),
            "a wrong type in {} must read like an unread slot",
            BATCHED_ATTRIBUTES[index]
        );
    }
}

#[test]
fn a_point_in_the_size_slot_does_not_become_a_size() {
    let mut slots = full_slots();
    slots[SIZE] = AxAttributeSlot::Point(PixelPoint { x: num(9.0), y: num(9.0) });
    let read = AxAttributes::from_slots(&slots);
    assert_eq!(
        read.size,
        PixelSize {
            width: num(0.0),
            height: num(0.0)
        }
    );
    assert_eq!(read.position, PixelPoint { x: num(10.0), y: num(20.0) });
}

#[test]
fn the_label_prefers_the_title_then_the_description_then_the_value() {
    let mut slots = full_slots();
    assert_eq!(
        AxAttributes::from_slots(&slots).label.as_deref(),
        Some("Save")
    );

    slots[TITLE] = text("");
    assert_eq!(
        AxAttributes::from_slots(&slots).label.as_deref(),
        Some("save the document")
    );

    slots[DESCRIPTION] = AxAttributeSlot::Unread;
    assert_eq!(
        AxAttributes::from_slots(&slots).label.as_deref(),
        Some("saved")
    );

    slots[VALUE] = text("");
    assert_eq!(AxAttributes::from_slots(&slots).label, None);
}

#[test]
fn an_empty_string_attribute_reads_as_absent() {
    let mut slots = full_slots();
    for index in [SUBROLE, ROLE_DESCRIPTION, IDENTIFIER, HELP] {
        slots[index] = text("");
    }
    let read = AxAttributes::from_slots(&slots);
    assert_eq!(read.subrole, None);
    assert_eq!(read.role_description, None);
    assert_eq!(read.identifier, None);
    assert_eq!(read.help, None);
}

#[test]
fn an_empty_role_string_is_kept_exactly_as_read() {
    let mut slots = full_slots();
    slots[ROLE] = text("");
    assert_eq!(AxAttributes::from_slots(&slots).role, "");
}

#[test]
fn a_false_enabled_slot_reads_as_disabled() {
    let mut slots = full_slots();
    slots[ENABLED] = AxAttributeSlot::Flag(false);
    assert!(!AxAttributes::from_slots(&slots).enabled);

    slots[ENABLED] = AxAttributeSlot::Flag(true);
    assert!(AxAttributes::from_slots(&slots).enabled);
}

#[test]
fn from_batch_accepts_an_aligned_result_array() {
    assert_eq!(
        AxAttributes::from_batch(&full_slots()),
        Some(full_attributes())
    );
}

#[test]
fn from_batch_refuses_a_result_array_of_the_wrong_length() {
    assert_eq!(AxAttributes::from_batch(&[]), None);
    assert_eq!(AxAttributes::from_batch(&full_slots()[..3]), None);
    let mut long = full_slots();
    long.push(AxAttributeSlot::Unread);
    assert_eq!(AxAttributes::from_batch(&long), None);
}

#[test]
fn into_node_copies_every_attribute_into_the_node() {
    let frame = NormalizedFrame {
        x: num(0.1),
        y: num(0.2),
        width: num(0.3),
        height: num(0.4),
    };
    let child = AxAttributes::default().into_node(
        NormalizedFrame::default(),
        false,
        Vec::new(),
        Vec::new(),
    );
    let node = full_attributes().into_node(
        frame,
        true,
        vec!["AXPress".to_string()],
        vec![child.clone()],
    );

    assert_eq!(node.role, "AXButton");
    assert_eq!(node.label.as_deref(), Some("Save"));
    assert_eq!(node.frame, frame);
    assert!(node.focusable);
    assert!(node.interactive);
    assert!(!node.enabled);
    assert_eq!(node.subrole.as_deref(), Some("AXCloseButton"));
    assert_eq!(node.role_description.as_deref(), Some("button"));
    assert_eq!(node.identifier.as_deref(), Some("save-button"));
    assert_eq!(node.help.as_deref(), Some("Save the document"));
    assert_eq!(node.actions, vec!["AXPress".to_string()]);
    assert_eq!(node.children, vec![child]);
}

#[test]
fn into_node_reads_interactive_straight_from_the_action_list() {
    let quiet =
        full_attributes().into_node(NormalizedFrame::default(), false, Vec::new(), Vec::new());
    assert!(!quiet.interactive, "no action means not interactive");

    let loud = full_attributes().into_node(
        NormalizedFrame::default(),
        false,
        vec!["AXShowMenu".to_string()],
        Vec::new(),
    );
    assert!(loud.interactive, "one action means interactive");
}
