//! Reading one element's attributes from a batch result.
//!
//! A batch call answers with an array that lines up, slot by slot, with the
//! attribute names it was given. A slot that could not be read stays in the
//! array; it must never be taken for a value.

use vstd::prelude::*;

use crate::ax::{AxNode, NormalizedFrame};
use crate::binary64::{Real, ZERO};
use crate::coords::{PixelPoint, PixelSize};
use crate::text::{opt_str_view, opt_view};

verus! {

/// The attribute names of a batch call, in the order of its result.
pub const BATCHED_ATTRIBUTES: [&'static str; 11] = [
    "AXRole",
    "AXTitle",
    "AXDescription",
    "AXValue",
    "AXPosition",
    "AXSize",
    "AXEnabled",
    "AXSubrole",
    "AXRoleDescription",
    "AXIdentifier",
    "AXHelp",
];

/// How many attributes a batch call asks for.
pub const BATCH_LEN: usize = 11;

pub const ROLE: usize = 0;

pub const TITLE: usize = 1;

pub const DESCRIPTION: usize = 2;

pub const VALUE: usize = 3;

pub const POSITION: usize = 4;

pub const SIZE: usize = 5;

pub const ENABLED: usize = 6;

pub const SUBROLE: usize = 7;

pub const ROLE_DESCRIPTION: usize = 8;

pub const IDENTIFIER: usize = 9;

pub const HELP: usize = 10;

/// One slot of a batch result.
#[derive(Debug, Clone, PartialEq, Eq)]
pub enum AxAttributeSlot {
    /// No value that can be used.
    Unread,
    Text(String),
    Flag(bool),
    Point(PixelPoint),
    Size(PixelSize),
}

impl Default for AxAttributeSlot {
    /// A slot that was not read.
    fn default() -> (r: Self)
        ensures
            r is Unread,
    {
        AxAttributeSlot::Unread
    }
}

impl AxAttributeSlot {
    /// The slot's text, if it holds one.
    pub fn text(&self) -> (r: Option<&str>)
        ensures
            opt_str_view(r) == match *self {
                AxAttributeSlot::Text(s) => Some(s@),
                _ => None,
            },
    {
        match self {
            AxAttributeSlot::Text(value) => Some(value.as_str()),
            _ => None,
        }
    }

    /// The slot's flag, if it holds one.
    pub fn flag(&self) -> (r: Option<bool>)
        ensures
            r == match *self {
                AxAttributeSlot::Flag(b) => Some(b),
                _ => None,
            },
    {
        match self {
            AxAttributeSlot::Flag(value) => Some(*value),
            _ => None,
        }
    }

    /// The slot's point, if it holds one.
    pub fn point(&self) -> (r: Option<PixelPoint>)
        ensures
            r == match *self {
                AxAttributeSlot::Point(p) => Some(p),
                _ => None,
            },
    {
        match self {
            AxAttributeSlot::Point(value) => Some(*value),
            _ => None,
        }
    }

    /// The slot's size, if it holds one.
    pub fn size(&self) -> (r: Option<PixelSize>)
        ensures
            r == match *self {
                AxAttributeSlot::Size(s) => Some(s),
                _ => None,
            },
    {
        match self {
            AxAttributeSlot::Size(value) => Some(*value),
            _ => None,
        }
    }
}

/// The attributes of one element.
#[derive(Debug, Clone, PartialEq, Eq)]
pub struct AxAttributes {
    pub role: String,
    pub label: Option<String>,
    pub position: PixelPoint,
    pub size: PixelSize,
    pub enabled: bool,
    pub subrole: Option<String>,
    pub role_description: Option<String>,
    pub identifier: Option<String>,
    pub help: Option<String>,
}

/// The point at the origin.
pub open spec fn origin() -> PixelPoint {
    PixelPoint { x: Real { bits: ZERO }, y: Real { bits: ZERO } }
}

/// The empty size.
pub open spec fn no_size() -> PixelSize {
    PixelSize { width: Real { bits: ZERO }, height: Real { bits: ZERO } }
}

impl Default for AxAttributes {
    /// What an element of which nothing was read counts as: an enabled one of
    /// an unknown role.
    fn default() -> (r: Self)
        ensures
            r.role@ == "AXUnknown"@,
            r.label is None,
            r.position == origin(),
            r.size == no_size(),
            r.enabled,
            r.subrole is None && r.role_description is None && r.identifier is None && r.help
                is None,
    {
        let zero = Real { bits: ZERO };
        AxAttributes {
            role: "AXUnknown".to_owned(),
            label: None,
            position: PixelPoint { x: zero, y: zero },
            size: PixelSize { width: zero, height: zero },
            enabled: true,
            subrole: None,
            role_description: None,
            identifier: None,
            help: None,
        }
    }
}

/// The slot at a position; one that was not read when the array is too short.
pub open spec fn slot_at(slots: Seq<AxAttributeSlot>, index: int) -> AxAttributeSlot {
    if 0 <= index < slots.len() {
        slots[index]
    } else {
        AxAttributeSlot::Unread
    }
}

/// The text at a position, if there is one.
pub open spec fn text_of(slots: Seq<AxAttributeSlot>, index: int) -> Option<Seq<char>> {
    match slot_at(slots, index) {
        AxAttributeSlot::Text(s) => Some(s@),
        _ => None,
    }
}

/// The text at a position, if there is one that is not empty.
pub open spec fn non_empty_of(slots: Seq<AxAttributeSlot>, index: int) -> Option<Seq<char>> {
    match text_of(slots, index) {
        Some(s) => if s.len() > 0 {
            Some(s)
        } else {
            None
        },
        None => None,
    }
}

/// The label: the first of title, description and value that is not empty.
pub open spec fn label_of(slots: Seq<AxAttributeSlot>) -> Option<Seq<char>> {
    if non_empty_of(slots, TITLE as int) is Some {
        non_empty_of(slots, TITLE as int)
    } else if non_empty_of(slots, DESCRIPTION as int) is Some {
        non_empty_of(slots, DESCRIPTION as int)
    } else {
        non_empty_of(slots, VALUE as int)
    }
}

impl AxAttributes {
    /// Whether these are the attributes that a batch result holds.
    pub open spec fn read_from(self, slots: Seq<AxAttributeSlot>) -> bool {
        &&& self.role@ == match text_of(slots, ROLE as int) {
            Some(s) => s,
            None => "AXUnknown"@,
        }
        &&& opt_view(self.label) == label_of(slots)
        &&& self.position == match slot_at(slots, POSITION as int) {
            AxAttributeSlot::Point(p) => p,
            _ => origin(),
        }
        &&& self.size == match slot_at(slots, SIZE as int) {
            AxAttributeSlot::Size(s) => s,
            _ => no_size(),
        }
        &&& self.enabled == match slot_at(slots, ENABLED as int) {
            AxAttributeSlot::Flag(b) => b,
            _ => true,
        }
        &&& opt_view(self.subrole) == non_empty_of(slots, SUBROLE as int)
        &&& opt_view(self.role_description) == non_empty_of(slots, ROLE_DESCRIPTION as int)
        &&& opt_view(self.identifier) == non_empty_of(slots, IDENTIFIER as int)
        &&& opt_view(self.help) == non_empty_of(slots, HELP as int)
    }

    /// Reads a batch result of the length that was asked for. One of any
    /// other length cannot be trusted position by position.
    pub fn from_batch(slots: &[AxAttributeSlot]) -> (r: Option<Self>)
        ensures
            r is Some <==> slots@.len() == BATCH_LEN,
            r matches Some(attributes) ==> attributes.read_from(slots@),
    {
        if slots.len() == BATCH_LEN {
            Some(Self::from_slots(slots))
        } else {
            None
        }
    }

    /// Reads a positional array. A slot that is missing, was not read, or has
    /// another type leaves its field at the default; slots past the last
    /// attribute are ignored.
    pub fn from_slots(slots: &[AxAttributeSlot]) -> (r: Self)
        ensures
            r.read_from(slots@),
    {
        let defaults = Self::default();
        let role: String = match text_at(slots, ROLE) {
            Some(s) => s.to_owned(),
            None => defaults.role,
        };
        let label: Option<String> = match non_empty_at(slots, TITLE) {
            Some(s) => Some(s),
            None => match non_empty_at(slots, DESCRIPTION) {
                Some(s) => Some(s),
                None => non_empty_at(slots, VALUE),
            },
        };
        AxAttributes {
            role,
            label,
            position: match point_at(slots, POSITION) {
                Some(p) => p,
                None => defaults.position,
            },
            size: match size_at(slots, SIZE) {
                Some(s) => s,
                None => defaults.size,
            },
            enabled: match flag_at(slots, ENABLED) {
                Some(b) => b,
                None => defaults.enabled,
            },
            subrole: non_empty_at(slots, SUBROLE),
            role_description: non_empty_at(slots, ROLE_DESCRIPTION),
            identifier: non_empty_at(slots, IDENTIFIER),
            help: non_empty_at(slots, HELP),
        }
    }

    /// Joins the attributes with what a batch call cannot answer. A node is
    /// interactive exactly when it offers an action.
    pub fn into_node(
        self,
        frame: NormalizedFrame,
        focusable: bool,
        actions: Vec<String>,
        children: Vec<AxNode>,
    ) -> (node: AxNode)
        ensures
            node.role@ == self.role@,
            opt_view(node.label) == opt_view(self.label),
            node.frame == frame,
            node.focusable == focusable,
            node.interactive == (actions@.len() > 0),
            node.enabled == self.enabled,
            opt_view(node.subrole) == opt_view(self.subrole),
            opt_view(node.role_description) == opt_view(self.role_description),
            opt_view(node.identifier) == opt_view(self.identifier),
            opt_view(node.help) == opt_view(self.help),
            node.actions == actions,
            node.children == children,
    {
        AxNode {
            role: self.role,
            label: self.label,
            frame,
            focusable,
            interactive: actions.len() > 0,
            enabled: self.enabled,
            subrole: self.subrole,
            role_description: self.role_description,
            identifier: self.identifier,
            help: self.help,
            actions,
            children,
        }
    }
}

/// The text at a position, if there is one.
fn text_at(slots: &[AxAttributeSlot], index: usize) -> (r: Option<&str>)
    ensures
        opt_str_view(r) == text_of(slots@, index as int),
{
    if index < slots.len() {
        slots[index].text()
    } else {
        None
    }
}

/// The text at a position, if there is one that is not empty.
fn non_empty_at(slots: &[AxAttributeSlot], index: usize) -> (r: Option<String>)
    ensures
        opt_view(r) == non_empty_of(slots@, index as int),
{
    match text_at(slots, index) {
        Some(s) => if s.is_empty() {
            None
        } else {
            Some(s.to_owned())
        },
        None => None,
    }
}

/// The flag at a position, if there is one.
fn flag_at(slots: &[AxAttributeSlot], index: usize) -> (r: Option<bool>)
    ensures
        r == match slot_at(slots@, index as int) {
            AxAttributeSlot::Flag(b) => Some(b),
            _ => None,
        },
{
    if index < slots.len() {
        slots[index].flag()
    } else {
        None
    }
}

/// The point at a position, if there is one.
fn point_at(slots: &[AxAttributeSlot], index: usize) -> (r: Option<PixelPoint>)
    ensures
        r == match slot_at(slots@, index as int) {
            AxAttributeSlot::Point(p) => Some(p),
            _ => None,
        },
{
    if index < slots.len() {
        slots[index].point()
    } else {
        None
    }
}

/// The size at a position, if there is one.
fn size_at(slots: &[AxAttributeSlot], index: usize) -> (r: Option<PixelSize>)
    ensures
        r == match slot_at(slots@, index as int) {
            AxAttributeSlot::Size(s) => Some(s),
            _ => None,
        },
{
    if index < slots.len() {
        slots[index].size()
    } else {
        None
    }
}

// ---- laws -------------------------------------------------------------------

/// Only the slots that stand for attributes matter: two results that agree on
/// them are read alike, whatever follows. A missing slot is read like one
/// that was not read.
pub proof fn only_known_slots_matter(
    attributes: AxAttributes,
    one: Seq<AxAttributeSlot>,
    other: Seq<AxAttributeSlot>,
)
    requires
        attributes.read_from(one),
        forall|i: int| 0 <= i < BATCH_LEN ==> slot_at(one, i) == #[trigger] slot_at(other, i),
    ensures
        attributes.read_from(other),
{
    assert forall|i: int| 0 <= i < BATCH_LEN implies text_of(one, i) == #[trigger] text_of(
        other,
        i,
    ) by {
        assert(slot_at(one, i) == slot_at(other, i));
    }
    assert(slot_at(one, POSITION as int) == slot_at(other, POSITION as int));
    assert(slot_at(one, SIZE as int) == slot_at(other, SIZE as int));
    assert(slot_at(one, ENABLED as int) == slot_at(other, ENABLED as int));
}

/// A slot that was not read leaves its own field at the default, and changes
/// no other field. The label is shared by three slots.
pub proof fn unread_slot_degrades_only_its_field(
    attributes: AxAttributes,
    slots: Seq<AxAttributeSlot>,
    degraded: AxAttributes,
    i: int,
)
    requires
        0 <= i < slots.len(),
        attributes.read_from(slots),
        degraded.read_from(slots.update(i, AxAttributeSlot::Unread)),
    ensures
        degraded.role@ == if i == ROLE {
            "AXUnknown"@
        } else {
            attributes.role@
        },
        i != TITLE && i != DESCRIPTION && i != VALUE ==> opt_view(degraded.label) == opt_view(
            attributes.label,
        ),
        degraded.position == if i == POSITION {
            origin()
        } else {
            attributes.position
        },
        degraded.size == if i == SIZE {
            no_size()
        } else {
            attributes.size
        },
        degraded.enabled == (i == ENABLED || attributes.enabled),
        opt_view(degraded.subrole) == if i == SUBROLE {
            None
        } else {
            opt_view(attributes.subrole)
        },
        opt_view(degraded.role_description) == if i == ROLE_DESCRIPTION {
            None
        } else {
            opt_view(attributes.role_description)
        },
        opt_view(degraded.identifier) == if i == IDENTIFIER {
            None
        } else {
            opt_view(attributes.identifier)
        },
        opt_view(degraded.help) == if i == HELP {
            None
        } else {
            opt_view(attributes.help)
        },
{
}

/// Every attribute is read from its own place in the batch: the role, the title,
/// the description, the value, the position, the size, whether it is enabled, the
/// subrole, the role's description, the identifier and the help, in this order.
/// The label is the first of title, description and value that holds a text. An
/// empty text counts as none, but for the role. What is not there, or is of
/// another type, is read as unknown, as nothing, as the origin, as no size and as
/// enabled.
pub proof fn attributes_come_from_their_own_slots(
    attributes: AxAttributes,
    slots: Seq<AxAttributeSlot>,
)
    requires
        attributes.read_from(slots),
        slots.len() == 11,
    ensures
        ({
            let word = |i: int|
                match slots[i] {
                    AxAttributeSlot::Text(s) => if s@.len() > 0 {
                        Some(s@)
                    } else {
                        None
                    },
                    _ => None::<Seq<char>>,
                };
            &&& slots[0] matches AxAttributeSlot::Text(s) ==> attributes.role@ == s@
            &&& !(slots[0] is Text) ==> attributes.role@ == "AXUnknown"@
            &&& opt_view(attributes.label) == if word(1) is Some {
                word(1)
            } else if word(2) is Some {
                word(2)
            } else {
                word(3)
            }
            &&& slots[4] matches AxAttributeSlot::Point(p) ==> attributes.position == p
            &&& !(slots[4] is Point) ==> attributes.position.x.bits == 0
                && attributes.position.y.bits == 0
            &&& slots[5] matches AxAttributeSlot::Size(s) ==> attributes.size == s
            &&& !(slots[5] is Size) ==> attributes.size.width.bits == 0
                && attributes.size.height.bits == 0
            &&& attributes.enabled <==> slots[6] != AxAttributeSlot::Flag(false)
            &&& opt_view(attributes.subrole) == word(7)
            &&& opt_view(attributes.role_description) == word(8)
            &&& opt_view(attributes.identifier) == word(9)
            &&& opt_view(attributes.help) == word(10)
        }),
{
}

/// A node keeps everything that was read of it, and offers what it is given. It
/// is interactive exactly when it offers an action.
pub proof fn nodes_keep_what_was_read(
    attributes: AxAttributes,
    frame: NormalizedFrame,
    focusable: bool,
    actions: Vec<String>,
    children: Vec<AxNode>,
    node: AxNode,
)
    requires
        call_ensures(
            AxAttributes::into_node,
            (attributes, frame, focusable, actions, children),
            node,
        ),
    ensures
        node.interactive <==> node.actions@.len() > 0,
        node.actions@ == actions@ && node.children@ == children@,
        node.frame == frame && node.focusable == focusable,
        node.enabled == attributes.enabled && node.role@ == attributes.role@,
        node.label is Some <==> attributes.label is Some,
        node.label matches Some(s) ==> s@ == attributes.label->0@,
        node.subrole is Some <==> attributes.subrole is Some,
        node.subrole matches Some(s) ==> s@ == attributes.subrole->0@,
        node.role_description is Some <==> attributes.role_description is Some,
        node.role_description matches Some(s) ==> s@ == attributes.role_description->0@,
        node.identifier is Some <==> attributes.identifier is Some,
        node.identifier matches Some(s) ==> s@ == attributes.identifier->0@,
        node.help is Some <==> attributes.help is Some,
        node.help matches Some(s) ==> s@ == attributes.help->0@,
{
}

/// The names are asked for in the order in which their values are read.
pub proof fn names_are_asked_in_the_order_of_their_slots()
    ensures
        BATCHED_ATTRIBUTES@.len() == 11,
        crate::text::strs(BATCHED_ATTRIBUTES@) == seq![
            "AXRole"@,
            "AXTitle"@,
            "AXDescription"@,
            "AXValue"@,
            "AXPosition"@,
            "AXSize"@,
            "AXEnabled"@,
            "AXSubrole"@,
            "AXRoleDescription"@,
            "AXIdentifier"@,
            "AXHelp"@,
        ],
{
}

/// A batch is read exactly when it has a value for each name that was asked for.
pub proof fn whole_batches_are_read(slots: &[AxAttributeSlot], r: Option<AxAttributes>)
    requires
        call_ensures(AxAttributes::from_batch, (slots,), r),
    ensures
        r is Some <==> slots@.len() == 11,
        r matches Some(attributes) ==> attributes.read_from(slots@),
{
}

} // verus!
