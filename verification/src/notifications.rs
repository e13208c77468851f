//! Finding notification banners in an accessibility tree, and closing one.
//!
//! A banner is found by the shape of the tree: a container that holds prose,
//! usually beside a control that closes it. A name only ever adds evidence;
//! no name is required.

use vstd::prelude::*;

use crate::ax::{node_along, walk, walk_children, AxNode, NormalizedFrame};
use crate::binary64::Real;
use crate::error::PolarizeError;
use crate::platform::{Call, Platform};
use crate::schema::AppIdentifier;
use crate::selector::{
    copy_path, named_index, named_value, node_at_path, path_views, push_index, push_named,
    with_part, ElementPath,
};
use crate::text::{
    any_same, contains, copy_all, copy_opt, decimal, holds, join, joined, lowercased, opt_str_view,
    opt_view, push_decimal, replace, replaced, same, strs, texts,
};
use crate::traits::{AccessibilityInspector, ActionPerformer, ResolvedApp};

verus! {

/// The process that draws every notification banner.
pub const NOTIFICATION_CENTER_BUNDLE_ID: &'static str = "com.apple.notificationcenterui";

/// The app that both tools read.
pub fn notification_center_app() -> (r: AppIdentifier)
    ensures
        r@ == (Some(NOTIFICATION_CENTER_BUNDLE_ID@), None::<Seq<char>>),
{
    AppIdentifier { bundle_id: Some(NOTIFICATION_CENTER_BUNDLE_ID.to_owned()), app_name: None }
}

// ---- vocabulary -------------------------------------------------------------

/// Whether a role is that of a control, whose label is no prose.
pub open spec fn control_role(role: Seq<char>) -> bool {
    role == "AXButton"@ || role == "AXMenuButton"@ || role == "AXPopUpButton"@ || role
        == "AXCheckBox"@ || role == "AXRadioButton"@ || role == "AXTextField"@ || role
        == "AXTextArea"@ || role == "AXComboBox"@
}

fn is_control_role(role: &str) -> (r: bool)
    ensures
        r == control_role(role@),
{
    same(role, "AXButton") || same(role, "AXMenuButton") || same(role, "AXPopUpButton") || same(
        role,
        "AXCheckBox",
    ) || same(role, "AXRadioButton") || same(role, "AXTextField") || same(role, "AXTextArea")
        || same(role, "AXComboBox")
}

/// Fragments that mark a container as one banner.
pub open spec fn banner_hints() -> Seq<Seq<char>> {
    seq!["notification"@, "banner"@, "alert"@]
}

/// Fragments that mark a control as one that closes.
pub open spec fn dismiss_hints() -> Seq<Seq<char>> {
    seq!["close"@, "dismiss"@, "clear"@]
}

/// Fragments that mark a control as one that acts on every notification.
pub open spec fn clear_all_hints() -> Seq<Seq<char>> {
    seq!["all"@, "everything"@]
}

/// Whether the lower-case form of a text holds one of the hints.
pub open spec fn hinted(value: Seq<char>, hints: Seq<Seq<char>>) -> bool {
    exists|i: int| 0 <= i < hints.len() && contains(lowercased(value), #[trigger] hints[i])
}

/// Whether an optional text is there and holds one of the hints.
pub open spec fn opt_hinted(value: Option<String>, hints: Seq<Seq<char>>) -> bool {
    value matches Some(s) && hinted(s@, hints)
}

fn contains_hint(value: &str, hints: &[&str]) -> (r: bool)
    ensures
        r == hinted(value@, strs(hints@)),
{
    let lowered = value.to_lowercase();
    let mut i: usize = 0;
    while i < hints.len()
        invariant
            i <= hints@.len(),
            lowered@ == lowercased(value@),
            forall|j: int| 0 <= j < i ==> !contains(lowered@, (#[trigger] hints@[j])@),
        decreases hints@.len() - i,
    {
        if holds(&lowered, hints[i]) {
            assert(strs(hints@)[i as int] == hints@[i as int]@);
            return true;
        }
        i += 1;
    }
    assert forall|j: int| 0 <= j < strs(hints@).len() implies !contains(
        lowercased(value@),
        #[trigger] strs(hints@)[j],
    ) by {
        assert(strs(hints@)[j] == hints@[j]@);
    }
    false
}

fn opt_contains_hint(value: &Option<String>, hints: &[&str]) -> (r: bool)
    ensures
        r == opt_hinted(*value, strs(hints@)),
{
    match value {
        Some(s) => contains_hint(s, hints),
        None => false,
    }
}

// ---- prose ------------------------------------------------------------------

/// Whether a node's own label is prose: a leaf that is no control, with a
/// label that is not empty.
pub open spec fn text_leaf(node: AxNode) -> bool {
    node.children@.len() == 0 && !control_role(node.role@) && (node.label matches Some(label)
        && label@.len() > 0)
}

/// The prose of a subtree, in tree order. Nothing under a control counts.
pub open spec fn prose(node: AxNode) -> Seq<Seq<char>>
    decreases node, 0int,
{
    if control_role(node.role@) {
        seq![]
    } else if text_leaf(node) {
        seq![node.label->0@]
    } else {
        prose_of_children(node.children@, node.children@.len() as int)
    }
}

/// The prose of the first `n` children.
pub open spec fn prose_of_children(children: Seq<AxNode>, n: int) -> Seq<Seq<char>>
    decreases children, n,
{
    if n <= 0 || n > children.len() {
        seq![]
    } else {
        prose_of_children(children, n - 1) + prose(children[n - 1])
    }
}

fn is_text_leaf(node: &AxNode) -> (r: bool)
    ensures
        r == text_leaf(*node),
{
    if node.children.len() > 0 || is_control_role(&node.role) {
        return false;
    }
    match &node.label {
        Some(label) => !label.as_str().is_empty(),
        None => false,
    }
}

/// Whether a subtree holds any prose.
fn has_text(node: &AxNode) -> (r: bool)
    ensures
        r == (prose(*node).len() > 0),
    decreases node,
{
    if is_control_role(&node.role) {
        return false;
    }
    if is_text_leaf(node) {
        return true;
    }
    let mut i: usize = 0;
    while i < node.children.len()
        invariant
            i <= node.children@.len(),
            !control_role(node.role@),
            !text_leaf(*node),
            prose_of_children(node.children@, i as int).len() == 0,
        decreases node.children@.len() - i,
    {
        assert(decreases_to!(*node => node.children@[i as int]));
        if has_text(&node.children[i]) {
            proof {
                lemma_prose_grows(node.children@, i + 1, node.children@.len() as int);
            }
            return true;
        }
        i += 1;
    }
    false
}

proof fn lemma_prose_grows(children: Seq<AxNode>, m: int, n: int)
    requires
        0 <= m <= n <= children.len(),
    ensures
        prose_of_children(children, m).len() <= prose_of_children(children, n).len(),
    decreases n - m,
{
    if m < n {
        lemma_prose_grows(children, m, n - 1);
    }
}

/// Whether any of a node's children holds prose.
fn any_child_has_text(node: &AxNode) -> (r: bool)
    ensures
        r == (prose_of_children(node.children@, node.children@.len() as int).len() > 0),
{
    let mut i: usize = 0;
    while i < node.children.len()
        invariant
            i <= node.children@.len(),
            prose_of_children(node.children@, i as int).len() == 0,
        decreases node.children@.len() - i,
    {
        if has_text(&node.children[i]) {
            proof {
                lemma_prose_grows(node.children@, i + 1, node.children@.len() as int);
            }
            return true;
        }
        i += 1;
    }
    false
}

/// Collects the prose of a subtree.
fn collect_texts(node: &AxNode, out: &mut Vec<String>)
    ensures
        texts(final(out)@) == texts(old(out)@) + prose(*node),
    decreases node,
{
    let ghost before = texts(out@);
    if is_control_role(&node.role) {
        assert(before + seq![] =~= before);
        return;
    }
    if is_text_leaf(node) {
        if let Some(label) = &node.label {
            let copy = label.clone();
            proof {
                crate::text::lemma_texts_push(out@, copy);
            }
            out.push(copy);
            assert(texts(out@) =~= before + seq![label@]);
        }
        return;
    }
    let mut i: usize = 0;
    assert(before + prose_of_children(node.children@, 0) =~= before);
    while i < node.children.len()
        invariant
            i <= node.children@.len(),
            texts(out@) == before + prose_of_children(node.children@, i as int),
        decreases node.children@.len() - i,
    {
        assert(decreases_to!(*node => node.children@[i as int]));
        collect_texts(&node.children[i], out);
        assert(texts(out@) =~= before + prose_of_children(node.children@, i + 1));
        i += 1;
    }
}

// ---- close controls ---------------------------------------------------------

/// How strongly a node looks like a banner's close control.
#[derive(Debug, Clone, Copy, PartialEq, Eq, Structural)]
pub enum DismissEvidence {
    /// A name says so.
    Named,
    /// The system says so.
    Subrole,
}

/// Whether a control's own name says that it acts on every notification.
pub open spec fn clears_all(node: AxNode) -> bool {
    says_clear_all(node.identifier) || says_clear_all(node.label) || says_clear_all(node.help)
}

/// Whether one name holds both a dismiss word and an all-of-them word.
pub open spec fn says_clear_all(value: Option<String>) -> bool {
    opt_hinted(value, dismiss_hints()) && opt_hinted(value, clear_all_hints())
}

/// The evidence that a node is a close control. A node without an action is
/// none, and neither is one that acts on every notification.
pub open spec fn evidence(node: AxNode) -> Option<DismissEvidence> {
    if node.actions@.len() == 0 || clears_all(node) {
        None
    } else if opt_view(node.subrole) == Some("AXCloseButton"@) {
        Some(DismissEvidence::Subrole)
    } else if opt_hinted(node.identifier, dismiss_hints()) || opt_hinted(
        node.label,
        dismiss_hints(),
    ) || opt_hinted(node.help, dismiss_hints()) || opt_hinted(node.subrole, dismiss_hints()) {
        Some(DismissEvidence::Named)
    } else {
        None
    }
}

fn clears_everything(node: &AxNode) -> (r: bool)
    ensures
        r == clears_all(*node),
{
    let dismiss = ["close", "dismiss", "clear"];
    let all = ["all", "everything"];
    assert(strs(dismiss@) =~= dismiss_hints());
    assert(strs(all@) =~= clear_all_hints());
    (opt_contains_hint(&node.identifier, &dismiss) && opt_contains_hint(&node.identifier, &all))
        || (opt_contains_hint(&node.label, &dismiss) && opt_contains_hint(&node.label, &all)) || (
    opt_contains_hint(&node.help, &dismiss) && opt_contains_hint(&node.help, &all))
}

fn dismiss_evidence(node: &AxNode) -> (r: Option<DismissEvidence>)
    ensures
        r == evidence(*node),
{
    if node.actions.len() == 0 {
        return None;
    }
    if clears_everything(node) {
        return None;
    }
    if let Some(subrole) = &node.subrole {
        if same(subrole, "AXCloseButton") {
            return Some(DismissEvidence::Subrole);
        }
    }
    let dismiss = ["close", "dismiss", "clear"];
    assert(strs(dismiss@) =~= dismiss_hints());
    let named = opt_contains_hint(&node.identifier, &dismiss) || opt_contains_hint(
        &node.label,
        &dismiss,
    ) || opt_contains_hint(&node.help, &dismiss) || opt_contains_hint(&node.subrole, &dismiss);
    if named {
        Some(DismissEvidence::Named)
    } else {
        None
    }
}

/// Whether one piece of evidence is stronger than another.
pub open spec fn stronger(a: DismissEvidence, b: DismissEvidence) -> bool {
    a == DismissEvidence::Subrole && b == DismissEvidence::Named
}

/// The best close control among the first `n` children: of the strongest
/// ones, the last.
pub open spec fn best_child(children: Seq<AxNode>, n: int) -> Option<int>
    decreases n,
{
    if n <= 0 || n > children.len() {
        None
    } else {
        let before = best_child(children, n - 1);
        match evidence(children[n - 1]) {
            None => before,
            Some(found) => match before {
                None => Some(n - 1),
                Some(k) => match evidence(children[k]) {
                    Some(held) => if stronger(held, found) {
                        before
                    } else {
                        Some(n - 1)
                    },
                    None => Some(n - 1),
                },
            },
        }
    }
}

/// The best close control among a node's own children.
fn direct_dismiss_child(node: &AxNode) -> (r: Option<usize>)
    ensures
        crate::text::opt_int(r) == best_child(node.children@, node.children@.len() as int),
{
    let mut best: Option<(DismissEvidence, usize)> = None;
    let mut i: usize = 0;
    while i < node.children.len()
        invariant
            i <= node.children@.len(),
            match best {
                None => best_child(node.children@, i as int) is None,
                Some((held, k)) => best_child(node.children@, i as int) == Some(k as int) && k < i
                    && evidence(node.children@[k as int]) == Some(held),
            },
        decreases node.children@.len() - i,
    {
        if let Some(found) = dismiss_evidence(&node.children[i]) {
            match best {
                None => {
                    best = Some((found, i));
                },
                Some((held, _)) => {
                    if !(held == DismissEvidence::Subrole && found == DismissEvidence::Named) {
                        best = Some((found, i));
                    }
                },
            }
        }
        i += 1;
    }
    match best {
        None => None,
        Some((_, k)) => Some(k),
    }
}

/// Whether a container names itself a banner. Its label does not count: that
/// is the notification's own text.
pub open spec fn named_banner(node: AxNode) -> bool {
    opt_hinted(node.subrole, banner_hints()) || opt_hinted(node.identifier, banner_hints())
        || opt_hinted(node.role_description, banner_hints())
}

fn has_banner_hint(node: &AxNode) -> (r: bool)
    ensures
        r == named_banner(*node),
{
    let hints = ["notification", "banner", "alert"];
    assert(strs(hints@) =~= banner_hints());
    opt_contains_hint(&node.subrole, &hints) || opt_contains_hint(&node.identifier, &hints)
        || opt_contains_hint(&node.role_description, &hints)
}

/// Whether a node is one whole banner.
pub open spec fn banner_unit(node: AxNode) -> bool {
    best_child(node.children@, node.children@.len() as int) is Some || named_banner(node)
}

fn is_banner_unit(node: &AxNode) -> (r: bool)
    ensures
        r == banner_unit(*node),
{
    direct_dismiss_child(node).is_some() || has_banner_hint(node)
}

// ---- banner containers ------------------------------------------------------

/// Whether a node is looked into at all. The root is the app itself, so only
/// what is below it counts there.
pub open spec fn holds_prose(node: AxNode, is_root: bool) -> bool {
    if is_root {
        prose_of_children(node.children@, node.children@.len() as int).len() > 0
    } else {
        prose(node).len() > 0
    }
}

/// Whether a node only groups others: one of its first `n` children holds
/// prose, and each of them that does is a container.
pub open spec fn groups(children: Seq<AxNode>, n: int) -> bool {
    prose_of_children(children, n).len() > 0 && forall|i: int|
        0 <= i < n && prose(#[trigger] children[i]).len() > 0 ==> children[i].children@.len() > 0
}

/// The paths of the banner containers of a subtree, in tree order. A node
/// without prose has none. A node below the root that is one whole banner is
/// the only one. A node that only groups others has those of its children.
/// Any other node holds the prose itself, and is one.
pub open spec fn banner_roots(node: AxNode, path: Seq<usize>) -> Seq<Seq<usize>>
    decreases node, 0int,
{
    if !holds_prose(node, path.len() == 0) {
        seq![]
    } else if path.len() > 0 && banner_unit(node) {
        seq![path]
    } else if groups(node.children@, node.children@.len() as int) {
        roots_of_children(node.children@, path, node.children@.len() as int)
    } else {
        seq![path]
    }
}

/// The banner containers of the first `n` children.
pub open spec fn roots_of_children(children: Seq<AxNode>, path: Seq<usize>, n: int) -> Seq<
    Seq<usize>,
>
    decreases children, n,
{
    if n <= 0 || n > children.len() {
        seq![]
    } else {
        roots_of_children(children, path, n - 1) + banner_roots(
            children[n - 1],
            path.push((n - 1) as usize),
        )
    }
}

/// Whether a node only groups others.
fn all_containers(node: &AxNode) -> (r: bool)
    ensures
        r == groups(node.children@, node.children@.len() as int),
{
    let mut any = false;
    let mut i: usize = 0;
    while i < node.children.len()
        invariant
            i <= node.children@.len(),
            any == (prose_of_children(node.children@, i as int).len() > 0),
            forall|k: int|
                0 <= k < i && prose(#[trigger] node.children@[k]).len() > 0
                    ==> node.children@[k].children@.len() > 0,
        decreases node.children@.len() - i,
    {
        if has_text(&node.children[i]) {
            if node.children[i].children.len() == 0 {
                assert(prose(node.children@[i as int]).len() > 0);
                return false;
            }
            any = true;
        }
        i += 1;
    }
    any
}

/// Collects the paths of the banner containers of a subtree.
fn collect_banner_roots(node: &AxNode, path: &mut ElementPath, out: &mut Vec<ElementPath>)
    ensures
        final(path)@ == old(path)@,
        path_views(final(out)@) == path_views(old(out)@) + banner_roots(*node, old(path)@),
    decreases node,
{
    let ghost start = path@;
    let ghost before = path_views(out@);
    let is_root = path.len() == 0;
    let found = if is_root {
        any_child_has_text(node)
    } else {
        has_text(node)
    };
    if !found {
        assert(before + seq![] =~= before);
        return;
    }
    if (!is_root && is_banner_unit(node)) || !all_containers(node) {
        let copy = copy_path(path);
        out.push(copy);
        assert(path_views(out@) =~= before + seq![start]);
        return;
    }
    let mut i: usize = 0;
    assert(before + roots_of_children(node.children@, start, 0) =~= before);
    while i < node.children.len()
        invariant
            i <= node.children@.len(),
            path@ == start,
            path_views(out@) == before + roots_of_children(node.children@, start, i as int),
        decreases node.children@.len() - i,
    {
        assert(decreases_to!(*node => node.children@[i as int]));
        path.push(i);
        collect_banner_roots(&node.children[i], path, out);
        path.pop();
        proof {
            assert(path@ =~= start);
            assert(path_views(out@) =~= before + roots_of_children(node.children@, start, i + 1));
        }
        i += 1;
    }
}

// ---- the banner record ------------------------------------------------------

/// One notification banner.
#[derive(Debug, Clone, PartialEq, Eq)]
pub struct NotificationBanner {
    /// The banner's place in the list that it was returned in.
    pub index: usize,
    /// The name of the app that posted it.
    pub app: Option<String>,
    pub title: Option<String>,
    /// The rest of the text, joined with line ends.
    pub body: Option<String>,
    /// Every text of the banner, in tree order.
    pub texts: Vec<String>,
    pub frame: NormalizedFrame,
    /// The child indices of the banner's container, from the tree's root.
    pub path: ElementPath,
    /// The path of the control that closes the banner, when it has one.
    pub dismiss_path: Option<ElementPath>,
    pub dismiss_action: Option<String>,
    pub dismiss_label: Option<String>,
}

/// A notification banner, as texts and sequences.
#[verifier::ext_equal]
pub struct BannerView {
    pub index: nat,
    pub app: Option<Seq<char>>,
    pub title: Option<Seq<char>>,
    pub body: Option<Seq<char>>,
    pub texts: Seq<Seq<char>>,
    pub frame: NormalizedFrame,
    pub path: Seq<usize>,
    pub dismiss_path: Option<Seq<usize>>,
    pub dismiss_action: Option<Seq<char>>,
    pub dismiss_label: Option<Seq<char>>,
}

/// An optional path, as a sequence.
pub open spec fn opt_path(p: Option<ElementPath>) -> Option<Seq<usize>> {
    match p {
        Some(path) => Some(path@),
        None => None,
    }
}

impl View for NotificationBanner {
    type V = BannerView;

    open spec fn view(&self) -> BannerView {
        BannerView {
            index: self.index as nat,
            app: opt_view(self.app),
            title: opt_view(self.title),
            body: opt_view(self.body),
            texts: texts(self.texts@),
            frame: self.frame,
            path: self.path@,
            dismiss_path: opt_path(self.dismiss_path),
            dismiss_action: opt_view(self.dismiss_action),
            dismiss_label: opt_view(self.dismiss_label),
        }
    }
}

/// The banners of a list, as texts and sequences.
pub open spec fn banner_views(banners: Seq<NotificationBanner>) -> Seq<BannerView> {
    banners.map_values(|b: NotificationBanner| b@)
}

impl Default for NotificationBanner {
    /// A banner that holds nothing.
    fn default() -> (r: Self)
        ensures
            r@ == (BannerView {
                index: 0,
                app: None,
                title: None,
                body: None,
                texts: seq![],
                frame: NormalizedFrame {
                    x: Real { bits: 0 },
                    y: Real { bits: 0 },
                    width: Real { bits: 0 },
                    height: Real { bits: 0 },
                },
                path: seq![],
                dismiss_path: None,
                dismiss_action: None,
                dismiss_label: None,
            }),
    {
        let r = NotificationBanner {
            index: 0,
            app: None,
            title: None,
            body: None,
            texts: Vec::new(),
            frame: NormalizedFrame::default(),
            path: Vec::new(),
            dismiss_path: None,
            dismiss_action: None,
            dismiss_label: None,
        };
        assert(texts(r.texts@) =~= seq![]);
        r
    }
}

/// The strongest close control of a walk; of equally strong ones, the first.
pub open spec fn best_control(walked: Seq<(Seq<usize>, AxNode)>) -> Option<(Seq<usize>, AxNode)>
    decreases walked.len(),
{
    if walked.len() == 0 {
        None
    } else {
        let before = best_control(walked.drop_last());
        match evidence(walked.last().1) {
            None => before,
            Some(found) => match before {
                None => Some(walked.last()),
                Some(held) => if evidence(held.1) matches Some(e) && !stronger(found, e) {
                    before
                } else {
                    Some(walked.last())
                },
            },
        }
    }
}

/// The action that closes: a press when the control offers one, else its
/// first action.
pub open spec fn closing_action(node: AxNode) -> Seq<char> {
    if texts(node.actions@).contains("AXPress"@) {
        "AXPress"@
    } else {
        texts(node.actions@)[0]
    }
}

/// One candidate for a banner's close control.
pub struct Control {
    pub evidence: DismissEvidence,
    pub path: ElementPath,
    pub action: String,
    pub label: Option<String>,
}

impl Control {
    /// Whether the candidate describes an entry of a walk.
    pub open spec fn stands_for(self, entry: (Seq<usize>, AxNode)) -> bool {
        evidence(entry.1) == Some(self.evidence) && self.path@ == entry.0 && self.action@
            == closing_action(entry.1) && opt_view(self.label) == opt_view(entry.1.label)
    }
}

/// Whether a candidate is the best control of a walk, when there is one.
pub open spec fn is_best(best: Option<Control>, walked: Seq<(Seq<usize>, AxNode)>) -> bool {
    match best_control(walked) {
        None => best is None,
        Some(entry) => best matches Some(control) && control.stands_for(entry),
    }
}

/// Walks a subtree, and keeps the strongest close control.
fn walk_dismiss(
    node: &AxNode,
    path: &mut ElementPath,
    best: Option<Control>,
    Ghost(done): Ghost<Seq<(Seq<usize>, AxNode)>>,
) -> (r: Option<Control>)
    requires
        is_best(best, done),
    ensures
        final(path)@ == old(path)@,
        is_best(r, done + walk(*node, old(path)@)),
    decreases node,
{
    let ghost start = path@;
    let ghost here = done.push((start, *node));
    assert(here.drop_last() =~= done);
    let mut best = best;
    if let Some(found) = dismiss_evidence(node) {
        let better = match &best {
            None => true,
            Some(held) => found == DismissEvidence::Subrole && held.evidence
                == DismissEvidence::Named,
        };
        if better {
            let action = if any_same(&node.actions, "AXPress") {
                "AXPress".to_owned()
            } else {
                assert(texts(node.actions@)[0] == node.actions@[0]@);
                node.actions[0].clone()
            };
            best = Some(
                Control {
                    evidence: found,
                    path: copy_path(path),
                    action,
                    label: copy_opt(&node.label),
                },
            );
        }
    }
    assert(is_best(best, here));
    let mut i: usize = 0;
    assert(here + walk_children(node.children@, start, 0) =~= here);
    while i < node.children.len()
        invariant
            i <= node.children@.len(),
            path@ == start,
            is_best(best, here + walk_children(node.children@, start, i as int)),
        decreases node.children@.len() - i,
    {
        assert(decreases_to!(*node => node.children@[i as int]));
        let ghost so_far = here + walk_children(node.children@, start, i as int);
        path.push(i);
        best = walk_dismiss(&node.children[i], path, best, Ghost(so_far));
        path.pop();
        proof {
            assert(path@ =~= start);
            assert(so_far + walk(node.children@[i as int], start.push(i)) =~= here + walk_children(
                node.children@,
                start,
                i + 1,
            ));
        }
        i += 1;
    }
    assert(here + walk_children(node.children@, start, node.children@.len() as int) =~= done + walk(
        *node,
        start,
    ));
    best
}

/// The strongest close control of a banner.
fn find_dismiss(node: &AxNode, banner_path: &[usize]) -> (r: Option<Control>)
    ensures
        is_best(r, walk(*node, banner_path@)),
{
    let mut path = copy_path(banner_path);
    let r = walk_dismiss(node, &mut path, None, Ghost(Seq::<(Seq<usize>, AxNode)>::empty()));
    assert(Seq::<(Seq<usize>, AxNode)>::empty() + walk(*node, banner_path@) =~= walk(
        *node,
        banner_path@,
    ));
    r
}

/// The banner of a container. The first text names the app and the second is
/// the headline; a single text is the headline.
pub open spec fn banner_of(node: AxNode, path: Seq<usize>, index: nat) -> BannerView {
    let all = prose(node);
    let control = best_control(walk(node, path));
    BannerView {
        index,
        app: if all.len() > 1 {
            Some(all[0])
        } else {
            None
        },
        title: if all.len() > 1 {
            Some(all[1])
        } else {
            Some(all[0])
        },
        body: if all.len() > 2 {
            Some(joined(all.skip(2), "\n"@))
        } else {
            None
        },
        texts: all,
        frame: node.frame,
        path,
        dismiss_path: match control {
            Some(entry) => Some(entry.0),
            None => None,
        },
        dismiss_action: match control {
            Some(entry) => Some(closing_action(entry.1)),
            None => None,
        },
        dismiss_label: match control {
            Some(entry) => opt_view(entry.1.label),
            None => None,
        },
    }
}

/// A copy of the strings from `from` on.
fn copy_from(list: &Vec<String>, from: usize) -> (out: Vec<String>)
    requires
        from <= list@.len(),
    ensures
        texts(out@) == texts(list@).skip(from as int),
{
    let mut out: Vec<String> = Vec::new();
    let mut i: usize = from;
    while i < list.len()
        invariant
            from <= i <= list@.len(),
            out@ == list@.subrange(from as int, i as int),
        decreases list@.len() - i,
    {
        out.push(list[i].clone());
        i += 1;
        assert(list@.subrange(from as int, i as int) =~= list@.subrange(from as int, i - 1).push(
            list@[i - 1],
        ));
    }
    assert(texts(out@) =~= texts(list@).skip(from as int));
    out
}

/// Reads the banner of the container at `path`.
fn build_banner(root: &AxNode, path: ElementPath, index: usize) -> (r: Option<NotificationBanner>)
    ensures
        match node_along(*root, path@) {
            Some(node) => if prose(node).len() == 0 {
                r is None
            } else {
                r matches Some(banner) && banner@ == banner_of(node, path@, index as nat)
            },
            None => r is None,
        },
{
    let node = match node_at_path(root, &path) {
        Some(node) => node,
        None => return None,
    };
    let mut all: Vec<String> = Vec::new();
    collect_texts(node, &mut all);
    assert(texts(all@) =~= prose(*node));
    if all.len() == 0 {
        return None;
    }
    assert(forall|k: int| 0 <= k < all@.len() ==> texts(all@)[k] == (#[trigger] all@[k])@);
    let (app, title, body): (Option<String>, Option<String>, Option<String>) = if all.len() == 1 {
        (None, Some(all[0].clone()), None)
    } else if all.len() == 2 {
        (Some(all[0].clone()), Some(all[1].clone()), None)
    } else {
        let rest = copy_from(&all, 2);
        (Some(all[0].clone()), Some(all[1].clone()), Some(join(&rest, "\n")))
    };
    let control = find_dismiss(node, &path);
    let (dismiss_path, dismiss_action, dismiss_label): (
        Option<ElementPath>,
        Option<String>,
        Option<String>,
    ) = match control {
        Some(c) => (Some(c.path), Some(c.action), c.label),
        None => (None, None, None),
    };
    let banner = NotificationBanner {
        index,
        app,
        title,
        body,
        texts: all,
        frame: node.frame,
        path,
        dismiss_path,
        dismiss_action,
        dismiss_label,
    };
    assert(banner@ =~= banner_of(*node, path@, index as nat));
    Some(banner)
}

/// The banners of the first `n` containers. A container without prose gives
/// none, and keeps its number.
pub open spec fn banners_at(root: AxNode, roots: Seq<Seq<usize>>, n: int) -> Seq<BannerView>
    decreases n,
{
    if n <= 0 || n > roots.len() {
        seq![]
    } else {
        let before = banners_at(root, roots, n - 1);
        match node_along(root, roots[n - 1]) {
            Some(node) => if prose(node).len() == 0 {
                before
            } else {
                before.push(banner_of(node, roots[n - 1], (n - 1) as nat))
            },
            None => before,
        }
    }
}

/// Every banner of a tree.
pub open spec fn banners_of(root: AxNode) -> Seq<BannerView> {
    let roots = banner_roots(root, seq![]);
    banners_at(root, roots, roots.len() as int)
}

/// Finds every banner of a tree.
pub fn extract_banners(root: &AxNode) -> (out: Vec<NotificationBanner>)
    ensures
        banner_views(out@) == banners_of(*root),
{
    let mut roots: Vec<ElementPath> = Vec::new();
    let mut path: ElementPath = Vec::new();
    collect_banner_roots(root, &mut path, &mut roots);
    let ghost all = banner_roots(*root, seq![]);
    assert(path_views(roots@) =~= all);
    let mut out: Vec<NotificationBanner> = Vec::new();
    let mut i: usize = 0;
    assert(banner_views(out@) =~= seq![]);
    while i < roots.len()
        invariant
            i <= roots@.len(),
            path_views(roots@) == all,
            all.len() == roots@.len(),
            banner_views(out@) == banners_at(*root, all, i as int),
        decreases roots@.len() - i,
    {
        let ghost before = out@;
        assert(all[i as int] == roots@[i as int]@);
        if let Some(banner) = build_banner(root, copy_path(&roots[i]), i) {
            out.push(banner);
            assert(banner_views(out@) =~= banner_views(before).push(banner@));
        }
        i += 1;
    }
    out
}

// ---- text rendering ---------------------------------------------------------

/// One line that shows a banner.
pub open spec fn banner_line(b: BannerView) -> Seq<char> {
    let p1 = seq!["["@ + decimal(b.index) + "]"@];
    let p2 = with_part(
        p1,
        match b.app {
            Some(app) => Some(app + ":"@),
            None => None,
        },
    );
    let p3 = with_part(p2, b.title);
    let p4 = with_part(
        p3,
        match b.body {
            Some(body) => Some("\u{2014} "@ + replaced(body, "\n"@, " "@)),
            None => None,
        },
    );
    let p5 = with_part(
        p4,
        if b.dismiss_path is None {
            Some("(no dismiss control)"@)
        } else {
            None
        },
    );
    joined(p5, " "@)
}

/// The lines of the first `n` banners.
pub open spec fn banner_lines(banners: Seq<BannerView>) -> Seq<Seq<char>> {
    banners.map_values(|b: BannerView| banner_line(b))
}

/// One line per banner, or that there is none.
pub open spec fn banner_text(banners: Seq<BannerView>) -> Seq<char> {
    if banners.len() == 0 {
        "no notification banner is on screen"@
    } else {
        joined(banner_lines(banners), "\n"@)
    }
}

/// Appends one part to a list of parts.
fn push_part(parts: &mut Vec<String>, part: String)
    ensures
        texts(final(parts)@) == texts(old(parts)@).push(part@),
{
    proof {
        crate::text::lemma_texts_push(parts@, part);
    }
    parts.push(part);
}

impl NotificationBanner {
    /// One line that shows the banner.
    fn format_line(&self) -> (out: String)
        ensures
            out@ == banner_line(self@),
    {
        proof {
            reveal_strlit("\n");
        }
        let mut parts: Vec<String> = Vec::new();
        let mut first = "[".to_owned();
        push_decimal(&mut first, self.index as u64);
        first.append("]");
        push_part(&mut parts, first);
        assert(texts(parts@) =~= seq!["["@ + decimal(self.index as nat) + "]"@]);
        if let Some(app) = &self.app {
            let mut part = app.clone();
            part.append(":");
            push_part(&mut parts, part);
        }
        if let Some(title) = &self.title {
            push_part(&mut parts, title.clone());
        }
        if let Some(body) = &self.body {
            let mut part = "\u{2014} ".to_owned();
            part.append(&replace(body, "\n", " "));
            push_part(&mut parts, part);
        }
        if self.dismiss_path.is_none() {
            push_part(&mut parts, "(no dismiss control)".to_owned());
        }
        join(&parts, " ")
    }

    /// A copy of the banner under another number.
    fn numbered(&self, index: usize) -> (r: NotificationBanner)
        ensures
            r@ == (BannerView { index: index as nat, ..self@ }),
    {
        let r = NotificationBanner {
            index,
            app: copy_opt(&self.app),
            title: copy_opt(&self.title),
            body: copy_opt(&self.body),
            texts: copy_all(&self.texts),
            frame: self.frame,
            path: copy_path(&self.path),
            dismiss_path: match &self.dismiss_path {
                Some(path) => Some(copy_path(path)),
                None => None,
            },
            dismiss_action: copy_opt(&self.dismiss_action),
            dismiss_label: copy_opt(&self.dismiss_label),
        };
        assert(r@ =~= (BannerView { index: index as nat, ..self@ }));
        r
    }
}

/// Shows one line per banner, or that there is none.
fn format_banners(banners: &Vec<NotificationBanner>) -> (out: String)
    ensures
        out@ == banner_text(banner_views(banners@)),
{
    if banners.len() == 0 {
        return "no notification banner is on screen".to_owned();
    }
    let ghost all = banner_lines(banner_views(banners@));
    let mut lines: Vec<String> = Vec::new();
    let mut i: usize = 0;
    assert(texts(lines@) =~= all.take(0));
    while i < banners.len()
        invariant
            i <= banners@.len(),
            all == banner_lines(banner_views(banners@)),
            texts(lines@) == all.take(i as int),
        decreases banners@.len() - i,
    {
        let line = banners[i].format_line();
        push_part(&mut lines, line);
        assert(all[i as int] == banner_line(banners@[i as int]@));
        assert(all.take(i + 1) =~= all.take(i as int).push(all[i as int]));
        i += 1;
    }
    assert(all.take(i as int) =~= all);
    join(&lines, "\n")
}

// ---- filters ----------------------------------------------------------------

/// Whether a text holds another one when letter case is ignored.
pub open spec fn holds_ignoring_case(text: Seq<char>, needle: Seq<char>) -> bool {
    contains(lowercased(text), lowercased(needle))
}

fn contains_ignoring_case(haystack: &str, needle: &str) -> (r: bool)
    ensures
        r == holds_ignoring_case(haystack@, needle@),
{
    holds(&haystack.to_lowercase(), &needle.to_lowercase())
}

/// Whether a banner passes both filters.
pub open spec fn passes(
    b: BannerView,
    from_app: Option<Seq<char>>,
    title_contains: Option<Seq<char>>,
) -> bool {
    &&& from_app matches Some(needle) ==> (b.app matches Some(app) && holds_ignoring_case(
        app,
        needle,
    ))
    &&& title_contains matches Some(needle) ==> exists|i: int|
        0 <= i < b.texts.len() && holds_ignoring_case(#[trigger] b.texts[i], needle)
}

/// The banners that pass both filters, numbered from zero.
pub open spec fn filtered(
    banners: Seq<BannerView>,
    from_app: Option<Seq<char>>,
    title_contains: Option<Seq<char>>,
) -> Seq<BannerView>
    decreases banners.len(),
{
    if banners.len() == 0 {
        seq![]
    } else {
        let before = filtered(banners.drop_last(), from_app, title_contains);
        if passes(banners.last(), from_app, title_contains) {
            before.push(BannerView { index: before.len(), ..banners.last() })
        } else {
            before
        }
    }
}

fn banner_passes(
    banner: &NotificationBanner,
    from_app: Option<&str>,
    title_contains: Option<&str>,
) -> (r: bool)
    ensures
        r == passes(banner@, opt_str_view(from_app), opt_str_view(title_contains)),
{
    if let Some(needle) = from_app {
        match &banner.app {
            None => return false,
            Some(app) => if !contains_ignoring_case(app, needle) {
                return false;
            },
        }
    }
    if let Some(needle) = title_contains {
        let mut i: usize = 0;
        while i < banner.texts.len()
            invariant
                i <= banner.texts@.len(),
                title_contains == Some(needle),
                from_app matches Some(wanted) ==> (banner.app matches Some(app)
                    && holds_ignoring_case(app@, wanted@)),
                forall|k: int|
                    0 <= k < i ==> !holds_ignoring_case((#[trigger] banner.texts@[k])@, needle@),
            decreases banner.texts@.len() - i,
        {
            if contains_ignoring_case(&banner.texts[i], needle) {
                assert(banner@.texts[i as int] == banner.texts@[i as int]@);
                return true;
            }
            i += 1;
        }
        assert forall|k: int| 0 <= k < banner@.texts.len() implies !holds_ignoring_case(
            #[trigger] banner@.texts[k],
            needle@,
        ) by {
            assert(banner@.texts[k] == banner.texts@[k]@);
        }
        return false;
    }
    true
}

/// The banners of a tree that pass both filters, numbered from zero.
fn filtered_banners(root: &AxNode, from_app: Option<&str>, title_contains: Option<&str>) -> (out:
    Vec<NotificationBanner>)
    ensures
        banner_views(out@) == filtered(
            banners_of(*root),
            opt_str_view(from_app),
            opt_str_view(title_contains),
        ),
{
    let all = extract_banners(root);
    let ghost views = banner_views(all@);
    let mut out: Vec<NotificationBanner> = Vec::new();
    let mut i: usize = 0;
    assert(banner_views(out@) =~= seq![]);
    while i < all.len()
        invariant
            i <= all@.len(),
            views == banner_views(all@),
            banner_views(out@) == filtered(
                views.take(i as int),
                opt_str_view(from_app),
                opt_str_view(title_contains),
            ),
        decreases all@.len() - i,
    {
        let ghost before = out@;
        assert(views.take(i + 1).drop_last() =~= views.take(i as int));
        assert(views.take(i + 1).last() == all@[i as int]@);
        assert(banner_views(before).len() == before.len());
        if banner_passes(&all[i], from_app, title_contains) {
            let banner = all[i].numbered(out.len());
            out.push(banner);
            assert(banner_views(out@) =~= banner_views(before).push(banner@));
        }
        i += 1;
    }
    assert(views.take(i as int) =~= views);
    out
}

// ---- errors -----------------------------------------------------------------

/// Why a notification tool could not answer.
#[derive(Debug, Clone, PartialEq, Eq)]
pub enum NotificationError {
    NoBanners,
    /// Banners are on screen, but none passes the filters.
    NoMatch { filter: String, count: usize },
    /// Fewer banners pass the filters than the index needs.
    IndexOutOfRange { index: usize, matches: usize },
    /// The banner has no control that closes it.
    NoDismissControl { banner: String },
}

impl NotificationError {
    /// What the error says.
    pub open spec fn said(self) -> Seq<char> {
        match self {
            NotificationError::NoBanners => "no notification banner is on screen"@,
            NotificationError::NoMatch { filter, count } => "no notification banner matches ("@
                + filter@ + "); "@ + decimal(count as nat) + " banner(s) are on screen"@,
            NotificationError::IndexOutOfRange { index, matches: found } => decimal(found as nat)
                + " notification banner(s) match, so index "@ + decimal(index as nat)
                + " is out of range"@,
            NotificationError::NoDismissControl { banner } => "notification banner ("@ + banner@
                + ") publishes no dismiss control, so polarize will not guess which control to press"@,
        }
    }

    /// The error in words.
    pub fn message(&self) -> (out: String)
        ensures
            out@ == self.said(),
    {
        match self {
            NotificationError::NoBanners => "no notification banner is on screen".to_owned(),
            NotificationError::NoMatch { filter, count } => {
                let mut out = "no notification banner matches (".to_owned();
                out.append(filter);
                out.append("); ");
                push_decimal(&mut out, *count as u64);
                out.append(" banner(s) are on screen");
                out
            },
            NotificationError::IndexOutOfRange { index, matches: found } => {
                let mut out = crate::text::decimal_text(*found as u64);
                out.append(" notification banner(s) match, so index ");
                push_decimal(&mut out, *index as u64);
                out.append(" is out of range");
                out
            },
            NotificationError::NoDismissControl { banner } => {
                let mut out = "notification banner (".to_owned();
                out.append(banner);
                out.append(
                    ") publishes no dismiss control, so polarize will not guess which control to press",
                );
                out
            },
        }
    }

    /// The error that a tool call reports; it keeps the whole message.
    pub fn into_error(self) -> (r: PolarizeError)
        ensures
            r matches PolarizeError::Platform(s) && s@ == self.said(),
    {
        PolarizeError::Platform(self.message())
    }
}

// ---- describing -------------------------------------------------------------

#[derive(Debug, Clone, PartialEq, Eq)]
pub struct DescribeNotificationsRequest {
    /// Only banners whose app's name holds this text.
    pub from_app: Option<String>,
}

impl Default for DescribeNotificationsRequest {
    /// Every banner.
    fn default() -> (r: Self)
        ensures
            r.from_app is None,
    {
        DescribeNotificationsRequest { from_app: None }
    }
}

#[derive(Debug, Clone, PartialEq, Eq)]
pub struct DescribeNotificationsResponse {
    /// The app that was read.
    pub app_name: String,
    pub count: usize,
    pub banners: Vec<NotificationBanner>,
    /// One line per banner.
    pub formatted: String,
}

/// What is answered for the tree that was read.
pub open spec fn described(
    request: DescribeNotificationsRequest,
    tree: Result<(ResolvedApp, AxNode), PolarizeError>,
    r: Result<DescribeNotificationsResponse, PolarizeError>,
) -> bool {
    match tree {
        Err(e) => r == Err::<DescribeNotificationsResponse, PolarizeError>(e),
        Ok((resolved, root)) => {
            let shown = filtered(banners_of(root), opt_view(request.from_app), None);
            r matches Ok(response) && response.app_name@ == resolved.name@ && response.count
                == shown.len() && banner_views(response.banners@) == shown
                && response.formatted@ == banner_text(shown)
        },
    }
}

/// Shapes a tree that was read into the answer of a request.
pub fn answer_describe(
    request: &DescribeNotificationsRequest,
    tree: Result<(ResolvedApp, AxNode), PolarizeError>,
) -> (r: Result<DescribeNotificationsResponse, PolarizeError>)
    ensures
        described(*request, tree, r),
{
    let (resolved, root) = match tree {
        Err(e) => return Err(e),
        Ok(pair) => pair,
    };
    let from_app: Option<&str> = match &request.from_app {
        Some(s) => Some(s.as_str()),
        None => None,
    };
    let banners = filtered_banners(&root, from_app, None);
    assert(banner_views(banners@).len() == banners@.len());
    Ok(
        DescribeNotificationsResponse {
            app_name: resolved.name,
            count: banners.len(),
            formatted: format_banners(&banners),
            banners,
        },
    )
}

/// Whether an identifier names the notification centre.
pub open spec fn names_center(app: AppIdentifier) -> bool {
    app@ == (Some(NOTIFICATION_CENTER_BUNDLE_ID@), None::<Seq<char>>)
}

/// The notification centre, as a call names it.
pub open spec fn center() -> Option<(Option<Seq<char>>, Option<Seq<char>>)> {
    Some((Some(NOTIFICATION_CENTER_BUNDLE_ID@), None))
}

/// Whether a result is one that reading the notification centre gave.
pub open spec fn was_read<A: AccessibilityInspector>(
    inspector: &A,
    tree: Result<(ResolvedApp, AxNode), PolarizeError>,
) -> bool {
    exists|app: AppIdentifier|
        names_center(app) && #[trigger] call_ensures(A::describe, (inspector, Some(&app)), tree)
}

/// The one call that reading the banners makes, and what is answered. `before`
/// and `after` are the calls that the platform had got before, and has got in
/// the end.
pub open spec fn read_and_described<A: AccessibilityInspector>(
    inspector: &A,
    request: DescribeNotificationsRequest,
    before: Seq<Call>,
    after: Seq<Call>,
    r: Result<DescribeNotificationsResponse, PolarizeError>,
) -> bool {
    exists|tree: Result<(ResolvedApp, AxNode), PolarizeError>|
        #[trigger] was_read(inspector, tree) && after == before.push(
            Call::Described { app: center(), reply: tree },
        ) && described(request, tree, r)
}

/// Reads every banner that is on screen.
pub fn perform_describe_notifications_on<A: AccessibilityInspector>(
    platform: &mut Platform<A, (), ()>,
    request: &DescribeNotificationsRequest,
) -> (r: Result<DescribeNotificationsResponse, PolarizeError>)
    ensures
        final(platform).parts() == old(platform).parts(),
        read_and_described(
            old(platform).reader(),
            *request,
            old(platform).calls(),
            final(platform).calls(),
            r,
        ),
{
    let app = notification_center_app();
    let tree = platform.describe(Some(&app));
    assert(was_read(old(platform).reader(), tree));
    answer_describe(request, tree)
}

/// Reads every banner that is on screen.
pub fn perform_describe_notifications<A: AccessibilityInspector>(
    inspector: &A,
    request: &DescribeNotificationsRequest,
) -> (r: Result<DescribeNotificationsResponse, PolarizeError>)
    ensures
        exists|calls: Seq<Call>|
            #[trigger] read_and_described(inspector, *request, seq![], calls, r),
{
    let mut platform = Platform::new(inspector, &(), &());
    perform_describe_notifications_on(&mut platform, request)
}

// ---- dismissing -------------------------------------------------------------

pub const DEFAULT_VERIFY_ATTEMPTS: u32 = 3;

pub const MAX_VERIFY_ATTEMPTS: u32 = 20;

pub const DEFAULT_VERIFY_DELAY_MS: u64 = 120;

pub const MAX_VERIFY_DELAY_MS: u64 = 2_000;

/// How often, and how far apart, a dismissal re-reads the tree.
#[derive(Debug, Clone, Copy, PartialEq, Eq, Structural)]
pub struct VerifySettings {
    pub attempts: u32,
    pub delay_ms: u64,
}

impl VerifySettings {
    /// The settings of a request: at least one read, and no more and no
    /// slower than the limits allow.
    pub open spec fn resolved(attempts: Option<u32>, delay_ms: Option<u64>) -> Self {
        let wanted = attempts.unwrap_or(DEFAULT_VERIFY_ATTEMPTS);
        let delay = delay_ms.unwrap_or(DEFAULT_VERIFY_DELAY_MS);
        VerifySettings {
            attempts: if wanted < 1 {
                1
            } else if wanted > MAX_VERIFY_ATTEMPTS {
                MAX_VERIFY_ATTEMPTS
            } else {
                wanted
            },
            delay_ms: if delay > MAX_VERIFY_DELAY_MS {
                MAX_VERIFY_DELAY_MS
            } else {
                delay
            },
        }
    }

    /// Applies the defaults and the limits.
    pub fn resolve(attempts: Option<u32>, delay_ms: Option<u64>) -> (r: Self)
        ensures
            r == Self::resolved(attempts, delay_ms),
            1 <= r.attempts <= MAX_VERIFY_ATTEMPTS,
            r.delay_ms <= MAX_VERIFY_DELAY_MS,
    {
        let wanted: u32 = attempts.unwrap_or(DEFAULT_VERIFY_ATTEMPTS);
        let delay: u64 = delay_ms.unwrap_or(DEFAULT_VERIFY_DELAY_MS);
        VerifySettings {
            attempts: if wanted < 1 {
                1
            } else if wanted > MAX_VERIFY_ATTEMPTS {
                MAX_VERIFY_ATTEMPTS
            } else {
                wanted
            },
            delay_ms: if delay > MAX_VERIFY_DELAY_MS {
                MAX_VERIFY_DELAY_MS
            } else {
                delay
            },
        }
    }
}

/// Pauses the calling thread.
pub trait Sleeper {
    fn sleep_ms(&self, ms: u64);
}

#[derive(Debug, Clone, PartialEq, Eq)]
pub struct DismissNotificationRequest {
    /// Which of the matching banners to close; the first when omitted.
    pub index: Option<usize>,
    /// Only a banner whose app's name holds this text.
    pub from_app: Option<String>,
    /// Only a banner one of whose texts holds this text.
    pub title_contains: Option<String>,
    pub verify_attempts: Option<u32>,
    pub verify_delay_ms: Option<u64>,
}

impl Default for DismissNotificationRequest {
    /// The first banner.
    fn default() -> (r: Self)
        ensures
            r.index is None,
            r.from_app is None,
            r.title_contains is None,
            r.verify_attempts is None,
            r.verify_delay_ms is None,
    {
        DismissNotificationRequest {
            index: None,
            from_app: None,
            title_contains: None,
            verify_attempts: None,
            verify_delay_ms: None,
        }
    }
}

#[derive(Debug, Clone, PartialEq, Eq)]
pub struct DismissNotificationResponse {
    /// Whether the banner left the screen, as a fresh read of the tree says.
    pub dismissed: bool,
    /// The banner, as it was before the press.
    pub banner: NotificationBanner,
    pub action: String,
    /// How many banners are still on screen.
    pub remaining: usize,
    /// How many times the tree was read again.
    pub verify_attempts: u32,
}

/// The filters of a request in words.
pub open spec fn filter_text(request: DismissNotificationRequest) -> Seq<char> {
    let p0: Seq<Seq<char>> = seq![];
    let p1 = with_part(p0, named_value("from_app="@, request.from_app));
    let p2 = with_part(p1, named_value("title_contains="@, request.title_contains));
    let p3 = with_part(p2, named_index(request.index));
    if p3.len() == 0 {
        "no filter"@
    } else {
        joined(p3, ", "@)
    }
}

/// The filters of a request in words, for an error message.
fn describe_filter(request: &DismissNotificationRequest) -> (out: String)
    ensures
        out@ == filter_text(*request),
{
    let mut parts: Vec<String> = Vec::new();
    assert(texts(parts@) =~= seq![]);
    push_named(&mut parts, "from_app=", &request.from_app);
    push_named(&mut parts, "title_contains=", &request.title_contains);
    push_index(&mut parts, request.index);
    assert(texts(parts@).len() == parts@.len());
    if parts.len() == 0 {
        return "no filter".to_owned();
    }
    join(&parts, ", ")
}

/// How many banners have these texts.
pub open spec fn count_with(banners: Seq<BannerView>, key: Seq<Seq<char>>) -> nat
    decreases banners.len(),
{
    if banners.len() == 0 {
        0
    } else if banners.last().texts == key {
        count_with(banners.drop_last(), key) + 1
    } else {
        count_with(banners.drop_last(), key)
    }
}

/// Whether two lists hold the same texts in the same order.
fn same_texts(a: &Vec<String>, b: &Vec<String>) -> (r: bool)
    ensures
        r == (texts(a@) == texts(b@)),
{
    if a.len() != b.len() {
        assert(texts(a@).len() != texts(b@).len());
        return false;
    }
    let mut i: usize = 0;
    while i < a.len()
        invariant
            i <= a@.len(),
            a@.len() == b@.len(),
            forall|k: int| 0 <= k < i ==> (#[trigger] a@[k])@ == b@[k]@,
        decreases a@.len() - i,
    {
        if !same(&a[i], &b[i]) {
            assert(texts(a@)[i as int] != texts(b@)[i as int]);
            return false;
        }
        i += 1;
    }
    assert(texts(a@) =~= texts(b@));
    true
}

/// How many banners have these texts.
fn count_same(banners: &Vec<NotificationBanner>, key: &Vec<String>) -> (n: usize)
    ensures
        n == count_with(banner_views(banners@), texts(key@)),
        n <= banners@.len(),
{
    let ghost views = banner_views(banners@);
    let mut n: usize = 0;
    let mut i: usize = 0;
    while i < banners.len()
        invariant
            n <= i <= banners@.len(),
            views == banner_views(banners@),
            n == count_with(views.take(i as int), texts(key@)),
        decreases banners@.len() - i,
    {
        assert(views.take(i + 1).drop_last() =~= views.take(i as int));
        assert(views.take(i + 1).last() == banners@[i as int]@);
        if same_texts(&banners[i].texts, key) {
            n += 1;
        }
        i += 1;
    }
    assert(views.take(i as int) =~= views);
    n
}

/// What is pressed to close a banner, and what was on screen before.
pub struct DismissPlan {
    pub banner: NotificationBanner,
    pub path: ElementPath,
    pub action: String,
    /// How many banners had the same texts.
    pub alike: usize,
    /// How many banners there were.
    pub total: usize,
}

/// What is decided about a request before anything is pressed: an error when
/// no banner is on screen, none passes the filters, too few do, or the one
/// that is meant has no close control; else the press.
pub open spec fn planned(
    root: AxNode,
    request: DismissNotificationRequest,
    r: Result<DismissPlan, NotificationError>,
) -> bool {
    let all = banners_of(root);
    let found = filtered(all, opt_view(request.from_app), opt_view(request.title_contains));
    let index = match request.index {
        Some(i) => i as nat,
        None => 0,
    };
    if all.len() == 0 {
        r matches Err(NotificationError::NoBanners)
    } else if found.len() == 0 {
        r matches Err(NotificationError::NoMatch { filter, count }) && filter@ == filter_text(
            request,
        ) && count == all.len()
    } else if index >= found.len() {
        r matches Err(NotificationError::IndexOutOfRange { index: i, matches: n }) && i == index
            && n == found.len()
    } else {
        let banner = found[index as int];
        match (banner.dismiss_path, banner.dismiss_action) {
            (Some(path), Some(action)) => r matches Ok(plan) && plan.banner@ == banner
                && plan.path@ == path && plan.action@ == action && plan.alike == count_with(
                all,
                banner.texts,
            ) && plan.total == all.len(),
            _ => r matches Err(NotificationError::NoDismissControl { banner: text }) && text@
                == joined(banner.texts, " / "@),
        }
    }
}

/// Picks the banner that a request means, and the press that closes it.
pub fn plan_dismiss(root: &AxNode, request: &DismissNotificationRequest) -> (r: Result<
    DismissPlan,
    NotificationError,
>)
    ensures
        planned(*root, *request, r),
{
    let all = extract_banners(root);
    assert(banner_views(all@).len() == all@.len());
    if all.len() == 0 {
        return Err(NotificationError::NoBanners);
    }
    let from_app: Option<&str> = match &request.from_app {
        Some(s) => Some(s.as_str()),
        None => None,
    };
    let title_contains: Option<&str> = match &request.title_contains {
        Some(s) => Some(s.as_str()),
        None => None,
    };
    let found = filtered_banners(root, from_app, title_contains);
    assert(banner_views(found@).len() == found@.len());
    if found.len() == 0 {
        return Err(
            NotificationError::NoMatch { filter: describe_filter(request), count: all.len() },
        );
    }
    let index: usize = match request.index {
        Some(i) => i,
        None => 0,
    };
    if index >= found.len() {
        return Err(NotificationError::IndexOutOfRange { index, matches: found.len() });
    }
    assert(banner_views(found@)[index as int] == found@[index as int]@);
    let banner = found[index].numbered(found[index].index);
    match (&banner.dismiss_path, &banner.dismiss_action) {
        (Some(path), Some(action)) => {
            let path = copy_path(path);
            let action = action.clone();
            let alike: usize = count_same(&all, &banner.texts);
            Ok(DismissPlan { banner, path, action, alike, total: all.len() })
        },
        _ => Err(NotificationError::NoDismissControl { banner: join(&banner.texts, " / ") }),
    }
}

/// How many banners a tree shows, and whether fewer of them than `alike` have
/// these texts.
pub fn look_again(root: &AxNode, key: &Vec<String>, alike: usize) -> (r: (bool, usize))
    ensures
        r.0 == gone(*root, texts(key@), alike as nat),
        r.1 == banners_of(*root).len(),
{
    let now = extract_banners(root);
    assert(banner_views(now@).len() == now@.len());
    (count_same(&now, key) < alike, now.len())
}

/// Whether fewer than `alike` banners of a tree have these texts. Counting
/// keeps two equal banners apart: closing one of them is a real dismissal.
pub open spec fn gone(root: AxNode, key: Seq<Seq<char>>, alike: nat) -> bool {
    count_with(banners_of(root), key) < alike
}

/// What a list of re-reads of the tree amounts to. Each read but the last
/// succeeded and still showed the banner. The last one failed, or no longer
/// showed it, or was the last one allowed.
pub open spec fn judged(
    reads: Seq<Result<(ResolvedApp, AxNode), PolarizeError>>,
    settings: VerifySettings,
    plan: DismissPlan,
    r: Result<DismissNotificationResponse, PolarizeError>,
) -> bool {
    let key = plan.banner@.texts;
    let alike = plan.alike as nat;
    &&& 1 <= reads.len() <= settings.attempts
    &&& forall|i: int|
        0 <= i < reads.len() - 1 ==> ((#[trigger] reads[i]) matches Ok((_, tree)) && !gone(
            tree,
            key,
            alike,
        ))
    &&& match reads.last() {
        Err(e) => r == Err::<DismissNotificationResponse, PolarizeError>(e),
        Ok((_, tree)) => {
            &&& !gone(tree, key, alike) ==> reads.len() == settings.attempts
            &&& r matches Ok(response) && response.dismissed == gone(tree, key, alike)
                && response.banner@ == plan.banner@ && response.action@ == plan.action@
                && response.remaining == banners_of(tree).len() && response.verify_attempts
                == reads.len()
        },
    }
}

/// What one more read of the tree after `attempts` others decides: a read that
/// failed is the answer, and so is one that no longer shows the banner or that
/// is the last one allowed. After any other the tree is read again.
pub fn after_read(
    plan: &DismissPlan,
    settings: VerifySettings,
    attempts: u32,
    read: Result<(ResolvedApp, AxNode), PolarizeError>,
) -> (next: Option<Result<DismissNotificationResponse, PolarizeError>>)
    requires
        attempts < settings.attempts,
    ensures
        match read {
            Err(e) => next == Some(Err::<DismissNotificationResponse, PolarizeError>(e)),
            Ok((_, tree)) => {
                let left = gone(tree, plan.banner@.texts, plan.alike as nat);
                if left || attempts + 1 == settings.attempts {
                    next matches Some(Ok(response)) && response.dismissed == left
                        && response.remaining == banners_of(tree).len() && response.verify_attempts
                        == attempts + 1 && response.banner@ == plan.banner@ && response.action@
                        == plan.action@
                } else {
                    next is None
                }
            },
        },
{
    match read {
        Err(e) => Some(Err(e)),
        Ok((_resolved, tree)) => {
            let (dismissed, remaining) = look_again(&tree, &plan.banner.texts, plan.alike);
            if dismissed || attempts + 1 == settings.attempts {
                Some(
                    Ok(
                        DismissNotificationResponse {
                            dismissed,
                            banner: plan.banner.numbered(plan.banner.index),
                            action: plan.action.clone(),
                            remaining,
                            verify_attempts: attempts + 1,
                        },
                    ),
                )
            } else {
                None
            }
        },
    }
}

/// Whether each of the results is one that reading the notification centre
/// gave.
pub open spec fn all_read<A: AccessibilityInspector>(
    inspector: &A,
    reads: Seq<Result<(ResolvedApp, AxNode), PolarizeError>>,
) -> bool {
    forall|i: int| 0 <= i < reads.len() ==> was_read(inspector, #[trigger] reads[i])
}

/// The calls after a list of re-reads: a pause, and then a read, for each.
pub open spec fn reread(
    before: Seq<Call>,
    reads: Seq<Result<(ResolvedApp, AxNode), PolarizeError>>,
    delay_ms: u64,
) -> Seq<Call>
    decreases reads.len(),
{
    if reads.len() == 0 {
        before
    } else {
        reread(before, reads.drop_last(), delay_ms).push(Call::Slept { ms: delay_ms }).push(
            Call::Described { app: center(), reply: reads.last() },
        )
    }
}

/// The pauses and the re-reads that follow a press, and what is answered: what
/// these re-reads, and no others, amount to.
pub open spec fn verified<A: AccessibilityInspector>(
    inspector: &A,
    settings: VerifySettings,
    plan: DismissPlan,
    before: Seq<Call>,
    after: Seq<Call>,
    r: Result<DismissNotificationResponse, PolarizeError>,
) -> bool {
    exists|reads: Seq<Result<(ResolvedApp, AxNode), PolarizeError>>|
        #[trigger] judged(reads, settings, plan, r) && all_read(inspector, reads) && after
            == reread(before, reads, settings.delay_ms)
}

/// Whether a result is one that the planned press of the notification centre
/// gave.
pub open spec fn was_pressed<P: ActionPerformer>(
    performer: &P,
    plan: DismissPlan,
    done: Result<(), PolarizeError>,
) -> bool {
    exists|app: AppIdentifier, path: &[usize], action: &str|
        names_center(app) && path@ == plan.path@ && action@ == plan.action@
            && #[trigger] call_ensures(
            P::perform_action_at_path,
            (performer, Some(&app), path, action),
            done,
        )
}

/// The call that makes the planned press.
pub open spec fn press_call(plan: DismissPlan, reply: Result<(), PolarizeError>) -> Call {
    Call::Performed { app: center(), path: plan.path@, action: plan.action@, reply }
}

/// The one press, what follows it, and what is answered. A press that failed is
/// not followed by any call.
pub open spec fn pressed<A: AccessibilityInspector, P: ActionPerformer>(
    inspector: &A,
    performer: &P,
    settings: VerifySettings,
    plan: DismissPlan,
    before: Seq<Call>,
    after: Seq<Call>,
    r: Result<DismissNotificationResponse, PolarizeError>,
) -> bool {
    exists|done: Result<(), PolarizeError>|
        #[trigger] was_pressed(performer, plan, done) && {
            let acted = before.push(press_call(plan, done));
            match done {
                Err(e) => after == acted && r == Err::<DismissNotificationResponse, PolarizeError>(
                    e,
                ),
                Ok(_) => verified(inspector, settings, plan, acted, after, r),
            }
        }
}

/// What follows what was decided about a request: a refusal is not followed by
/// any call.
pub open spec fn carried_out<A: AccessibilityInspector, P: ActionPerformer>(
    inspector: &A,
    performer: &P,
    request: DismissNotificationRequest,
    plan: Result<DismissPlan, NotificationError>,
    before: Seq<Call>,
    after: Seq<Call>,
    r: Result<DismissNotificationResponse, PolarizeError>,
) -> bool {
    match plan {
        Err(e) => after == before && (r matches Err(PolarizeError::Platform(s)) && s@ == e.said()),
        Ok(p) => pressed(
            inspector,
            performer,
            VerifySettings::resolved(request.verify_attempts, request.verify_delay_ms),
            p,
            before,
            after,
            r,
        ),
    }
}

/// What follows the first read of the tree.
pub open spec fn decided<A: AccessibilityInspector, P: ActionPerformer>(
    inspector: &A,
    performer: &P,
    request: DismissNotificationRequest,
    tree: Result<(ResolvedApp, AxNode), PolarizeError>,
    before: Seq<Call>,
    after: Seq<Call>,
    r: Result<DismissNotificationResponse, PolarizeError>,
) -> bool {
    match tree {
        Err(e) => after == before && r == Err::<DismissNotificationResponse, PolarizeError>(e),
        Ok((_, root)) => exists|plan: Result<DismissPlan, NotificationError>|
            #[trigger] planned(root, request, plan) && carried_out(
                inspector,
                performer,
                request,
                plan,
                before,
                after,
                r,
            ),
    }
}

/// The calls that a dismissal makes, in order, and what is answered. A request
/// that is refused reads the tree once, presses nothing and does not pause.
/// `before` and `after` are the calls that the platform had got before, and has
/// got in the end.
pub open spec fn dismissed<A: AccessibilityInspector, P: ActionPerformer>(
    inspector: &A,
    performer: &P,
    request: DismissNotificationRequest,
    before: Seq<Call>,
    after: Seq<Call>,
    r: Result<DismissNotificationResponse, PolarizeError>,
) -> bool {
    exists|tree: Result<(ResolvedApp, AxNode), PolarizeError>|
        #[trigger] was_read(inspector, tree) && decided(
            inspector,
            performer,
            request,
            tree,
            before.push(Call::Described { app: center(), reply: tree }),
            after,
            r,
        )
}

/// Reads the tree again until the banner is gone, or the reads run out.
fn verify_dismissal<A: AccessibilityInspector, P, S: Sleeper>(
    platform: &mut Platform<A, P, S>,
    app: &AppIdentifier,
    settings: VerifySettings,
    plan: &DismissPlan,
) -> (r: Result<DismissNotificationResponse, PolarizeError>)
    requires
        names_center(*app),
        settings.attempts >= 1,
    ensures
        final(platform).parts() == old(platform).parts(),
        verified(
            old(platform).reader(),
            settings,
            *plan,
            old(platform).calls(),
            final(platform).calls(),
            r,
        ),
{
    let ghost mut reads: Seq<Result<(ResolvedApp, AxNode), PolarizeError>> = seq![];
    let ghost inspector = platform.reader();
    let ghost before = platform.calls();
    let mut attempts: u32 = 0;
    loop
        invariant
            names_center(*app),
            platform.parts() == old(platform).parts(),
            inspector == old(platform).reader(),
            before == old(platform).calls(),
            attempts < settings.attempts,
            reads.len() == attempts,
            all_read(inspector, reads),
            platform.calls() == reread(before, reads, settings.delay_ms),
            forall|i: int|
                0 <= i < reads.len() ==> ((#[trigger] reads[i]) matches Ok((_, tree)) && !gone(
                    tree,
                    plan.banner@.texts,
                    plan.alike as nat,
                )),
        decreases settings.attempts - attempts,
    {
        platform.sleep_ms(settings.delay_ms);
        let read = platform.describe(Some(app));
        let ghost earlier = reads;
        proof {
            reads = reads.push(read);
            assert(was_read(inspector, read));
            assert(forall|i: int| 0 <= i < earlier.len() ==> reads[i] == #[trigger] earlier[i]);
            assert(reads.drop_last() =~= earlier);
        }
        if let Some(r) = after_read(plan, settings, attempts, read) {
            assert(judged(reads, settings, *plan, r));
            return r;
        }
        attempts += 1;
    }
}

/// Closes one banner, and reports whether it went away.
pub fn perform_dismiss_notification_on<
    A: AccessibilityInspector,
    P: ActionPerformer,
    S: Sleeper,
>(platform: &mut Platform<A, P, S>, request: &DismissNotificationRequest) -> (r: Result<
    DismissNotificationResponse,
    PolarizeError,
>)
    ensures
        final(platform).parts() == old(platform).parts(),
        dismissed(
            old(platform).reader(),
            old(platform).doer(),
            *request,
            old(platform).calls(),
            final(platform).calls(),
            r,
        ),
{
    let app = notification_center_app();
    let tree = platform.describe(Some(&app));
    assert(was_read(old(platform).reader(), tree));
    let (_resolved, root) = match tree {
        Err(e) => return Err(e),
        Ok(pair) => pair,
    };
    let plan = plan_dismiss(&root, request);
    assert(planned(root, *request, plan));
    match plan {
        Err(e) => Err(e.into_error()),
        Ok(p) => {
            let path = p.path.as_slice();
            let action = p.action.as_str();
            let done = platform.perform_action_at_path(Some(&app), path, action);
            assert(was_pressed(old(platform).doer(), p, done));
            match done {
                Err(e) => Err(e),
                Ok(()) => {
                    let settings = VerifySettings::resolve(
                        request.verify_attempts,
                        request.verify_delay_ms,
                    );
                    verify_dismissal(platform, &app, settings, &p)
                },
            }
        },
    }
}

/// Closes one banner, and reports whether it went away. The answer is that of
/// a fresh read of the tree, made after the press, and never that of the press.
/// A request that is refused presses nothing.
pub fn perform_dismiss_notification<A: AccessibilityInspector, P: ActionPerformer, S: Sleeper>(
    inspector: &A,
    performer: &P,
    sleeper: &S,
    request: &DismissNotificationRequest,
) -> (r: Result<DismissNotificationResponse, PolarizeError>)
    ensures
        exists|calls: Seq<Call>|
            #[trigger] dismissed(inspector, performer, *request, seq![], calls, r),
{
    let mut platform = Platform::new(inspector, performer, sleeper);
    perform_dismiss_notification_on(&mut platform, request)
}

// ---- laws -------------------------------------------------------------------

/// The position in a walk of its strongest close control. Nothing is stronger
/// than it, and nothing before it is as strong.
pub open spec fn first_strongest(walked: Seq<(Seq<usize>, AxNode)>, at: int) -> bool {
    &&& 0 <= at < walked.len()
    &&& evidence(walked[at].1) is Some
    &&& forall|j: int|
        #![trigger walked[j]]
        0 <= j < walked.len() ==> match evidence(walked[j].1) {
            Some(e) => !stronger(e, evidence(walked[at].1)->0) && (e == evidence(walked[at].1)->0
                ==> at <= j),
            None => true,
        }
}

/// The close control that a banner reports is the first of the strongest
/// ones, and a banner reports none only when it holds none.
pub proof fn best_control_is_first_strongest(walked: Seq<(Seq<usize>, AxNode)>) -> (at: int)
    ensures
        match best_control(walked) {
            Some(entry) => first_strongest(walked, at) && walked[at] == entry,
            None => forall|j: int|
                0 <= j < walked.len() ==> evidence((#[trigger] walked[j]).1) is None,
        },
    decreases walked.len(),
{
    if walked.len() == 0 {
        0
    } else {
        let rest = walked.drop_last();
        let last = walked.len() - 1;
        let before = best_control_is_first_strongest(rest);
        let at = match evidence(walked[last].1) {
            None => before,
            Some(found) => match best_control(rest) {
                None => last,
                Some(held) => if !stronger(found, evidence(held.1)->0) {
                    before
                } else {
                    last
                },
            },
        };
        assert forall|j: int|
            #![trigger walked[j]]
            0 <= j < walked.len() && best_control(walked) is Some implies match evidence(
            walked[j].1,
        ) {
            Some(e) => !stronger(e, evidence(walked[at].1)->0) && (e == evidence(walked[at].1)->0
                ==> at <= j),
            None => true,
        } by {
            if j < last {
                assert(rest[j] == walked[j]);
            }
            if best_control(rest) is Some {
                assert(rest[before] == walked[before]);
            }
        }
        assert forall|j: int| 0 <= j < walked.len() && best_control(walked) is None implies evidence(
            (#[trigger] walked[j]).1,
        ) is None by {
            if j < last {
                assert(rest[j] == walked[j]);
            }
        }
        if best_control(rest) is Some {
            assert(rest[before] == walked[before]);
        }
        at
    }
}

proof fn lemma_roots_resolve(node: AxNode, path: Seq<usize>, k: int)
    requires
        0 <= k < banner_roots(node, path).len(),
    ensures
        ({
            let p = banner_roots(node, path)[k];
            &&& p.len() >= path.len()
            &&& p.take(path.len() as int) == path
            &&& node_along(node, p.skip(path.len() as int)) is Some
        }),
    decreases node, node.children@.len() + 1,
{
    let p = banner_roots(node, path)[k];
    if groups(node.children@, node.children@.len() as int) && !(path.len() > 0 && banner_unit(
        node,
    )) {
        assert(node.children.len() <= usize::MAX);
        lemma_child_roots_resolve(node, path, node.children@.len() as int, k);
    } else {
        assert(p == path);
        assert(p.take(path.len() as int) =~= path);
        assert(p.skip(path.len() as int) =~= seq![]);
    }
}

proof fn lemma_child_roots_resolve(node: AxNode, path: Seq<usize>, n: int, k: int)
    requires
        0 <= n <= node.children@.len() <= usize::MAX,
        0 <= k < roots_of_children(node.children@, path, n).len(),
    ensures
        ({
            let p = roots_of_children(node.children@, path, n)[k];
            &&& p.len() >= path.len()
            &&& p.take(path.len() as int) == path
            &&& node_along(node, p.skip(path.len() as int)) is Some
        }),
    decreases node, n,
{
    let before = roots_of_children(node.children@, path, n - 1);
    let p = roots_of_children(node.children@, path, n)[k];
    if k < before.len() {
        lemma_child_roots_resolve(node, path, n - 1, k);
    } else {
        let below = path.push((n - 1) as usize);
        assert(decreases_to!(node => node.children@[n - 1]));
        lemma_roots_resolve(node.children@[n - 1], below, k - before.len());
        lemma_descend(node, path, n - 1, p);
    }
}

/// A path below a child, seen from the child's parent.
proof fn lemma_descend(node: AxNode, path: Seq<usize>, c: int, p: Seq<usize>)
    requires
        0 <= c < node.children@.len() <= usize::MAX,
        p.len() > path.len(),
        p.take(path.len() as int + 1) == path.push(c as usize),
    ensures
        p.take(path.len() as int) == path,
        node_along(node, p.skip(path.len() as int)) == node_along(
            node.children@[c],
            p.skip(path.len() as int + 1),
        ),
{
    let at = path.len() as int;
    let below = path.push(c as usize);
    assert(p[at] == c) by {
        assert(p.take(at + 1)[at] == below[at]);
    }
    assert(p.take(at) =~= path) by {
        assert forall|m: int| 0 <= m < at implies p[m] == path[m] by {
            assert(p.take(at + 1)[m] == below[m]);
        }
    }
    assert(p.skip(at).skip(1) =~= p.skip(at + 1));
}

/// The prose of the containers at these paths, one after the other. The paths
/// lead to `node` after `at` steps.
pub open spec fn prose_at(node: AxNode, at: int, roots: Seq<Seq<usize>>) -> Seq<Seq<char>>
    decreases roots.len(),
{
    if roots.len() == 0 {
        seq![]
    } else {
        prose_at(node, at, roots.drop_last()) + (match node_along(node, roots.last().skip(at)) {
            Some(container) => prose(container),
            None => seq![],
        })
    }
}

proof fn lemma_prose_at_concat(node: AxNode, at: int, a: Seq<Seq<usize>>, b: Seq<Seq<usize>>)
    ensures
        prose_at(node, at, a + b) == prose_at(node, at, a) + prose_at(node, at, b),
    decreases b.len(),
{
    if b.len() == 0 {
        assert(a + b =~= a);
        assert(prose_at(node, at, a) + seq![] =~= prose_at(node, at, a));
    } else {
        lemma_prose_at_concat(node, at, a, b.drop_last());
        assert((a + b).drop_last() =~= a + b.drop_last());
        assert(prose_at(node, at, a + b) =~= prose_at(node, at, a) + prose_at(node, at, b));
    }
}

proof fn lemma_prose_at_child(node: AxNode, path: Seq<usize>, c: int, roots: Seq<Seq<usize>>)
    requires
        0 <= c < node.children@.len() <= usize::MAX,
        forall|k: int|
            0 <= k < roots.len() ==> (#[trigger] roots[k]).len() > path.len() && roots[k].take(
                path.len() as int + 1,
            ) == path.push(c as usize),
    ensures
        prose_at(node, path.len() as int, roots) == prose_at(
            node.children@[c],
            path.len() as int + 1,
            roots,
        ),
    decreases roots.len(),
{
    if roots.len() > 0 {
        let rest = roots.drop_last();
        assert(forall|k: int| 0 <= k < rest.len() ==> rest[k] == #[trigger] roots[k]);
        lemma_prose_at_child(node, path, c, rest);
        assert(roots[roots.len() - 1] == roots.last());
        lemma_descend(node, path, c, roots.last());
    }
}

proof fn lemma_roots_cover(node: AxNode, path: Seq<usize>)
    requires
        path.len() == 0 ==> !control_role(node.role@),
    ensures
        prose_at(node, path.len() as int, banner_roots(node, path)) == if path.len() == 0 {
            prose_of_children(node.children@, node.children@.len() as int)
        } else {
            prose(node)
        },
    decreases node, node.children@.len() + 1,
{
    let at = path.len() as int;
    let n = node.children@.len() as int;
    let roots = banner_roots(node, path);
    let wanted = if path.len() == 0 {
        prose_of_children(node.children@, n)
    } else {
        prose(node)
    };
    if !holds_prose(node, path.len() == 0) {
        assert(prose_at(node, at, roots) =~= wanted);
    } else if groups(node.children@, n) && !(path.len() > 0 && banner_unit(node)) {
        assert(node.children.len() <= usize::MAX);
        lemma_child_roots_cover(node, path, n);
        if n > 0 {
            assert(!text_leaf(node));
        } else {
            assert(prose_of_children(node.children@, n).len() == 0);
        }
    } else {
        assert(roots =~= seq![path]);
        assert(roots.drop_last() =~= seq![]);
        assert(roots.last() == path);
        assert(path.skip(at) =~= seq![]);
        assert(prose_at(node, at, roots.drop_last()) =~= seq![]);
        assert(node_along(node, roots.last().skip(at)) == Some(node));
        assert(prose_at(node, at, roots) =~= prose(node));
        if path.len() == 0 {
            if n == 0 {
                assert(prose_of_children(node.children@, n).len() == 0);
            }
            assert(!text_leaf(node));
        }
    }
}

proof fn lemma_child_roots_cover(node: AxNode, path: Seq<usize>, n: int)
    requires
        0 <= n <= node.children@.len() <= usize::MAX,
    ensures
        prose_at(node, path.len() as int, roots_of_children(node.children@, path, n))
            == prose_of_children(node.children@, n),
    decreases node, n,
{
    let at = path.len() as int;
    if n > 0 {
        let below = path.push((n - 1) as usize);
        let before = roots_of_children(node.children@, path, n - 1);
        let here = banner_roots(node.children@[n - 1], below);
        lemma_child_roots_cover(node, path, n - 1);
        assert(decreases_to!(node => node.children@[n - 1]));
        lemma_roots_cover(node.children@[n - 1], below);
        assert forall|k: int| 0 <= k < here.len() implies (#[trigger] here[k]).len() > path.len()
            && here[k].take(at + 1) == below by {
            lemma_roots_resolve(node.children@[n - 1], below, k);
        }
        lemma_prose_at_child(node, path, n - 1, here);
        lemma_prose_at_concat(node, at, before, here);
    }
}

/// The texts of a list of banners, one after the other.
pub open spec fn texts_of(banners: Seq<BannerView>) -> Seq<Seq<char>>
    decreases banners.len(),
{
    if banners.len() == 0 {
        seq![]
    } else {
        texts_of(banners.drop_last()) + banners.last().texts
    }
}

proof fn lemma_banner_texts(root: AxNode, roots: Seq<Seq<usize>>, n: int)
    requires
        0 <= n <= roots.len(),
    ensures
        texts_of(banners_at(root, roots, n)) == prose_at(root, 0, roots.take(n)),
    decreases n,
{
    if n > 0 {
        lemma_banner_texts(root, roots, n - 1);
        let before = banners_at(root, roots, n - 1);
        assert(roots.take(n).drop_last() =~= roots.take(n - 1));
        assert(roots[n - 1].skip(0) =~= roots[n - 1]);
        match node_along(root, roots[n - 1]) {
            Some(node) => {
                let banner = banner_of(node, roots[n - 1], (n - 1) as nat);
                assert(before.push(banner).drop_last() =~= before);
                if prose(node).len() == 0 {
                    assert(prose_at(root, 0, roots.take(n - 1)) + prose(node) =~= prose_at(
                        root,
                        0,
                        roots.take(n - 1),
                    ));
                }
            },
            None => {
                assert(prose_at(root, 0, roots.take(n - 1)) + seq![] =~= prose_at(
                    root,
                    0,
                    roots.take(n - 1),
                ));
            },
        }
    }
}

/// No prose is lost, whatever the shape of the tree: the texts of the banners,
/// one after the other, are all the prose below the app element, in tree
/// order. So a screen that shows any prose shows a banner.
pub proof fn every_text_is_in_a_banner(root: AxNode)
    requires
        !control_role(root.role@),
    ensures
        texts_of(banners_of(root)) == prose_of_children(
            root.children@,
            root.children@.len() as int,
        ),
{
    let roots = banner_roots(root, seq![]);
    lemma_roots_cover(root, seq![]);
    lemma_banner_texts(root, roots, roots.len() as int);
    assert(roots.take(roots.len() as int) =~= roots);
}

/// Where a banner comes from: its container is the node at its path, its
/// texts are the container's prose, and there is at least one.
pub proof fn banners_stand_for_containers(root: AxNode, k: int)
    requires
        0 <= k < banners_of(root).len(),
    ensures
        ({
            let b = banners_of(root)[k];
            node_along(root, b.path) matches Some(node) && b == banner_of(node, b.path, b.index)
                && b.texts.len() > 0
        }),
{
    let roots = banner_roots(root, seq![]);
    lemma_banner_origin(root, roots, roots.len() as int, k);
}

proof fn lemma_banner_origin(root: AxNode, roots: Seq<Seq<usize>>, n: int, k: int)
    requires
        0 <= n <= roots.len(),
        0 <= k < banners_at(root, roots, n).len(),
    ensures
        ({
            let b = banners_at(root, roots, n)[k];
            node_along(root, b.path) matches Some(node) && b == banner_of(node, b.path, b.index)
                && b.texts.len() > 0
        }),
    decreases n,
{
    let before = banners_at(root, roots, n - 1);
    if k < before.len() {
        lemma_banner_origin(root, roots, n - 1, k);
        assert(banners_at(root, roots, n)[k] == before[k]);
    }
}

/// The control that a banner would be closed with is a node of the tree, it
/// offers the action that would be performed, and it never acts on every
/// notification.
pub proof fn close_controls_are_safe(root: AxNode, k: int)
    requires
        0 <= k < banners_of(root).len(),
        banners_of(root)[k].dismiss_path is Some,
    ensures
        ({
            let b = banners_of(root)[k];
            &&& b.dismiss_action is Some
            &&& node_along(root, b.dismiss_path->0) matches Some(control) && evidence(control)
                is Some && !clears_all(control) && texts(control.actions@).contains(
                b.dismiss_action->0,
            )
        }),
{
    banners_stand_for_containers(root, k);
    let b = banners_of(root)[k];
    let node = node_along(root, b.path)->0;
    let walked = walk(node, b.path);
    let at = best_control_is_first_strongest(walked);
    crate::ax::walk_paths_resolve(node, b.path, at);
    let p = walked[at].0;
    lemma_along_twice(root, b.path, p);
    let control = walked[at].1;
    assert(texts(control.actions@)[0] == control.actions@[0]@);
    assert(texts(control.actions@).contains(texts(control.actions@)[0]));
}

proof fn lemma_along_twice(root: AxNode, path: Seq<usize>, p: Seq<usize>)
    requires
        p.len() >= path.len(),
        p.take(path.len() as int) == path,
        node_along(root, path) is Some,
    ensures
        node_along(root, p) == node_along(node_along(root, path)->0, p.skip(path.len() as int)),
    decreases path.len(),
{
    if path.len() == 0 {
        assert(p.skip(0) =~= p);
    } else {
        assert(p[0] == path[0]) by {
            assert(p.take(path.len() as int)[0] == path[0]);
        }
        let rest = path.skip(1);
        assert(p.skip(1).take(rest.len() as int) =~= rest) by {
            assert forall|m: int| 0 <= m < rest.len() implies p.skip(1)[m] == rest[m] by {
                assert(p.take(path.len() as int)[m + 1] == path[m + 1]);
            }
        }
        lemma_along_twice(root.children@[path[0] as int], rest, p.skip(1));
        assert(p.skip(1).skip(rest.len() as int) =~= p.skip(path.len() as int));
    }
}

/// The banners that pass a filter are numbered from zero, without a gap, and
/// each of them passes.
pub proof fn filtered_banners_are_numbered(
    banners: Seq<BannerView>,
    from_app: Option<Seq<char>>,
    title_contains: Option<Seq<char>>,
    k: int,
)
    requires
        0 <= k < filtered(banners, from_app, title_contains).len(),
    ensures
        filtered(banners, from_app, title_contains)[k].index == k,
        passes(filtered(banners, from_app, title_contains)[k], from_app, title_contains),
    decreases banners.len(),
{
    let rest = banners.drop_last();
    if k < filtered(rest, from_app, title_contains).len() {
        filtered_banners_are_numbered(rest, from_app, title_contains, k);
        assert(filtered(banners, from_app, title_contains)[k] == filtered(
            rest,
            from_app,
            title_contains,
        )[k]);
    } else {
        let last = banners.last();
        let kept = filtered(banners, from_app, title_contains)[k];
        assert(kept.texts == last.texts && kept.app == last.app);
        if title_contains is Some {
            let i = choose|i: int|
                0 <= i < last.texts.len() && holds_ignoring_case(
                    #[trigger] last.texts[i],
                    title_contains->0,
                );
            assert(holds_ignoring_case(kept.texts[i], title_contains->0));
        }
    }
}

/// A banner that passes a filter is one of the list, with a new number.
proof fn lemma_filtered_origin(
    banners: Seq<BannerView>,
    from_app: Option<Seq<char>>,
    title_contains: Option<Seq<char>>,
    k: int,
) -> (j: int)
    requires
        0 <= k < filtered(banners, from_app, title_contains).len(),
    ensures
        0 <= j < banners.len(),
        filtered(banners, from_app, title_contains)[k] == (BannerView {
            index: k as nat,
            ..banners[j]
        }),
    decreases banners.len(),
{
    let rest = banners.drop_last();
    let before = filtered(rest, from_app, title_contains);
    if k < before.len() {
        let j = lemma_filtered_origin(rest, from_app, title_contains, k);
        assert(filtered(banners, from_app, title_contains)[k] == before[k]);
        j
    } else {
        banners.len() - 1
    }
}

/// Whether pressing is safe: the control is a node of the tree, it offers the
/// action, it is a close control, and it never acts on every notification.
pub open spec fn safe_press(root: AxNode, path: Seq<usize>, action: Seq<char>) -> bool {
    node_along(root, path) matches Some(control) && evidence(control) is Some && !clears_all(
        control,
    ) && texts(control.actions@).contains(action)
}

/// A request that is not refused presses only what is safe to press.
pub proof fn planned_press_is_safe(
    root: AxNode,
    request: DismissNotificationRequest,
    plan: DismissPlan,
)
    requires
        planned(root, request, Ok(plan)),
    ensures
        safe_press(root, plan.path@, plan.action@),
{
    let all = banners_of(root);
    let index = match request.index {
        Some(i) => i as int,
        None => 0,
    };
    let j = lemma_filtered_origin(
        all,
        opt_view(request.from_app),
        opt_view(request.title_contains),
        index,
    );
    close_controls_are_safe(root, j);
}

proof fn lemma_reread(
    before: Seq<Call>,
    reads: Seq<Result<(ResolvedApp, AxNode), PolarizeError>>,
    delay_ms: u64,
)
    ensures
        reread(before, reads, delay_ms).len() == before.len() + 2 * reads.len(),
        forall|i: int|
            0 <= i < before.len() ==> #[trigger] reread(before, reads, delay_ms)[i] == before[i],
        forall|k: int|
            0 <= k < reads.len() ==> reread(before, reads, delay_ms)[before.len() + 2 * k]
                == (Call::Slept { ms: delay_ms }) && reread(before, reads, delay_ms)[before.len()
                + 2 * k + 1] == (Call::Described { app: center(), reply: #[trigger] reads[k] }),
    decreases reads.len(),
{
    if reads.len() > 0 {
        let earlier = reads.drop_last();
        lemma_reread(before, earlier, delay_ms);
        assert forall|k: int| 0 <= k < reads.len() implies reread(
            before,
            reads,
            delay_ms,
        )[before.len() + 2 * k] == (Call::Slept { ms: delay_ms }) && reread(
            before,
            reads,
            delay_ms,
        )[before.len() + 2 * k + 1] == (Call::Described {
            app: center(),
            reply: #[trigger] reads[k],
        }) by {
            if k < earlier.len() {
                assert(reads[k] == earlier[k]);
            }
        }
    }
}

/// A dismissal reads the tree, and presses nothing when the request is refused
/// for it. Else it presses once: what that tree shows to be safe to press. After
/// a press that worked come only pauses, each of the delay that was asked for,
/// and reads, in turn, at least one of each and no more than were asked for.
/// What is answered is what the last of these reads shows.
pub proof fn dismissals_press_once<A: AccessibilityInspector, P: ActionPerformer>(
    inspector: &A,
    performer: &P,
    request: DismissNotificationRequest,
    before: Seq<Call>,
    after: Seq<Call>,
    r: Result<DismissNotificationResponse, PolarizeError>,
)
    requires
        dismissed(inspector, performer, request, before, after, r),
    ensures
        ({
            let first = before.len() as int;
            let settings = VerifySettings::resolved(
                request.verify_attempts,
                request.verify_delay_ms,
            );
            &&& after.len() > first
            &&& after.take(first) == before
            &&& after[first] matches Call::Described { app, reply: tree } && app == center() && {
                &&& tree is Err ==> after.len() == first + 1
                &&& tree matches Ok((_, root)) ==> {
                    &&& forall|e: NotificationError|
                        #[trigger] planned(root, request, Err(e)) ==> after.len() == first + 1
                    &&& forall|p: DismissPlan|
                        #[trigger] planned(root, request, Ok(p)) ==> after.len() > first + 1 && (
                        after[first + 1] matches Call::Performed { app, path, action, reply: done }
                            && app == center() && path == p.path@ && action == p.action@
                            && safe_press(root, path, action) && (done is Err <==> after.len()
                            == first + 2))
                }
            }
            &&& after.len() <= first + 2 + 2 * settings.attempts
            &&& after.len() > first + 2 ==> (after.last() matches Call::Described { reply, .. } && (
            reply matches Ok((_, tree)) ==> (r matches Ok(response) && response.remaining
                == banners_of(tree).len() && response.verify_attempts * 2 == after.len() - first
                - 2)))
            &&& forall|i: int|
                first + 2 <= i < after.len() ==> if (i - first) % 2 == 0 {
                    #[trigger] after[i] == (Call::Slept { ms: settings.delay_ms })
                } else {
                    after[i] matches Call::Described { app, .. } && app == center()
                }
        }),
{
    let first = before.len() as int;
    let settings = VerifySettings::resolved(request.verify_attempts, request.verify_delay_ms);
    let tree = choose|tree: Result<(ResolvedApp, AxNode), PolarizeError>|
        #[trigger] was_read(inspector, tree) && decided(
            inspector,
            performer,
            request,
            tree,
            before.push(Call::Described { app: center(), reply: tree }),
            after,
            r,
        );
    let looked = before.push(Call::Described { app: center(), reply: tree });
    if let Ok((_, root)) = tree {
        let plan = choose|plan: Result<DismissPlan, NotificationError>|
            #[trigger] planned(root, request, plan) && carried_out(
                inspector,
                performer,
                request,
                plan,
                looked,
                after,
                r,
            );
        if let Ok(p) = plan {
            planned_press_is_safe(root, request, p);
            let done = choose|done: Result<(), PolarizeError>|
                #[trigger] was_pressed(performer, p, done) && {
                    let acted = looked.push(press_call(p, done));
                    match done {
                        Err(e) => after == acted && r == Err::<
                            DismissNotificationResponse,
                            PolarizeError,
                        >(e),
                        Ok(_) => verified(inspector, settings, p, acted, after, r),
                    }
                };
            let acted = looked.push(press_call(p, done));
            if done is Ok {
                let reads = choose|reads: Seq<Result<(ResolvedApp, AxNode), PolarizeError>>|
                    #[trigger] judged(reads, settings, p, r) && all_read(inspector, reads) && after
                        == reread(acted, reads, settings.delay_ms);
                lemma_reread(acted, reads, settings.delay_ms);
                assert(after[first] == acted[first]);
                assert(after[first + 1] == acted[first + 1]);
                assert forall|i: int| first + 2 <= i < after.len() implies if (i - first) % 2 == 0 {
                    #[trigger] after[i] == (Call::Slept { ms: settings.delay_ms })
                } else {
                    after[i] matches Call::Described { app, .. } && app == center()
                } by {
                    let k = (i - first - 2) / 2;
                    assert(0 <= k < reads.len());
                    let read = reads[k];
                    if (i - first) % 2 == 0 {
                        assert(i == acted.len() + 2 * k);
                    } else {
                        assert(i == acted.len() + 2 * k + 1);
                    }
                }
                let last = reads.len() - 1;
                assert(reads[last] == reads.last());
                assert(after.last() == after[acted.len() + 2 * last + 1]);
                assert(after.take(first) =~= before) by {
                    assert forall|i: int| 0 <= i < first implies after[i] == before[i] by {
                        assert(after[i] == acted[i]);
                    }
                }
            }
        }
    }
    assert(after.take(first) =~= before);
}

/// The roles whose labels are names of controls, and no prose.
proof fn lemma_controls(role: Seq<char>)
    ensures
        control_role(role) <==> seq![
            "AXButton"@,
            "AXMenuButton"@,
            "AXPopUpButton"@,
            "AXCheckBox"@,
            "AXRadioButton"@,
            "AXTextField"@,
            "AXTextArea"@,
            "AXComboBox"@,
        ].contains(role),
{
    let all = seq![
        "AXButton"@,
        "AXMenuButton"@,
        "AXPopUpButton"@,
        "AXCheckBox"@,
        "AXRadioButton"@,
        "AXTextField"@,
        "AXTextArea"@,
        "AXComboBox"@,
    ];
    assert(all[0] == "AXButton"@ && all[1] == "AXMenuButton"@ && all[2] == "AXPopUpButton"@);
    assert(all[3] == "AXCheckBox"@ && all[4] == "AXRadioButton"@ && all[5] == "AXTextField"@);
    assert(all[6] == "AXTextArea"@ && all[7] == "AXComboBox"@);
}

/// Where a piece of prose comes from: a leaf with that label, with no control on
/// the way to it.
proof fn lemma_prose_origin(node: AxNode, i: int) -> (p: Seq<usize>)
    requires
        0 <= i < prose(node).len(),
    ensures
        node_along(node, p) matches Some(leaf) && leaf.children@.len() == 0 && leaf.label is Some
            && leaf.label->0@ == prose(node)[i] && prose(node)[i].len() > 0,
        forall|m: int|
            0 <= m <= p.len() ==> (node_along(node, #[trigger] p.take(m)) matches Some(above)
                && !control_role(above.role@)),
    decreases node, node.children@.len() + 1,
{
    if text_leaf(node) {
        let p: Seq<usize> = seq![];
        assert forall|m: int| 0 <= m <= p.len() implies (node_along(node, #[trigger] p.take(m))
            matches Some(above) && !control_role(above.role@)) by {
            assert(p.take(m) =~= p);
        }
        p
    } else {
        assert(node.children.len() <= usize::MAX);
        lemma_child_prose_origin(node, node.children@.len() as int, i)
    }
}

proof fn lemma_child_prose_origin(node: AxNode, n: int, i: int) -> (p: Seq<usize>)
    requires
        !control_role(node.role@),
        0 <= n <= node.children@.len() <= usize::MAX,
        0 <= i < prose_of_children(node.children@, n).len(),
    ensures
        ({
            let text = prose_of_children(node.children@, n)[i];
            node_along(node, p) matches Some(leaf) && leaf.children@.len() == 0 && leaf.label
                is Some && leaf.label->0@ == text && text.len() > 0
        }),
        forall|m: int|
            0 <= m <= p.len() ==> (node_along(node, #[trigger] p.take(m)) matches Some(above)
                && !control_role(above.role@)),
    decreases node, n,
{
    let before = prose_of_children(node.children@, n - 1);
    if i < before.len() {
        let p = lemma_child_prose_origin(node, n - 1, i);
        assert(prose_of_children(node.children@, n)[i] == before[i]);
        p
    } else {
        let child = node.children@[n - 1];
        assert(decreases_to!(node => node.children@[n - 1]));
        let below = lemma_prose_origin(child, i - before.len());
        let p = seq![(n - 1) as usize] + below;
        assert(p.skip(1) =~= below);
        assert forall|m: int| 0 <= m <= p.len() implies (node_along(node, #[trigger] p.take(m))
            matches Some(above) && !control_role(above.role@)) by {
            if m > 0 {
                assert(p.take(m).skip(1) =~= below.take(m - 1));
                assert(p.take(m)[0] == n - 1);
            }
        }
        p
    }
}

/// A leaf with a label is prose, where no control is on the way to it.
proof fn lemma_prose_holds(node: AxNode, p: Seq<usize>)
    requires
        node_along(node, p) matches Some(leaf) && leaf.children@.len() == 0 && leaf.label is Some
            && leaf.label->0@.len() > 0,
        forall|m: int|
            0 <= m <= p.len() ==> (node_along(node, #[trigger] p.take(m)) matches Some(above)
                && !control_role(above.role@)),
    ensures
        prose(node).contains(node_along(node, p)->0.label->0@),
    decreases p.len(),
{
    let text = node_along(node, p)->0.label->0@;
    assert(p.take(0) =~= seq![]);
    assert(!control_role(node.role@));
    if p.len() == 0 {
        assert(prose(node)[0] == text);
    } else {
        let c = p[0] as int;
        let below = p.skip(1);
        assert forall|m: int| 0 <= m <= below.len() implies (node_along(
            node.children@[c],
            #[trigger] below.take(m),
        ) matches Some(above) && !control_role(above.role@)) by {
            assert(p.take(m + 1).skip(1) =~= below.take(m));
            assert(p.take(m + 1)[0] == p[0]);
            assert(node_along(node, p.take(m + 1)) is Some);
        }
        lemma_prose_holds(node.children@[c], below);
        lemma_child_prose_is_held(node.children@, node.children@.len() as int, c, text);
    }
}

proof fn lemma_child_prose_is_held(children: Seq<AxNode>, n: int, c: int, text: Seq<char>)
    requires
        0 <= c < n <= children.len(),
        prose(children[c]).contains(text),
    ensures
        prose_of_children(children, n).contains(text),
    decreases n,
{
    let before = prose_of_children(children, n - 1);
    let all = prose_of_children(children, n);
    if c < n - 1 {
        lemma_child_prose_is_held(children, n - 1, c, text);
        let i = choose|i: int| 0 <= i < before.len() && before[i] == text;
        assert(all[i] == text);
    } else {
        let i = choose|i: int| 0 <= i < prose(children[c]).len() && prose(children[c])[i] == text;
        assert(all[before.len() + i] == text);
    }
}

/// The container of a banner lies below no control, but for the app element
/// itself. None of the containers above it is a banner of its own, and it is one,
/// or holds prose that stands in it directly.
proof fn lemma_roots_stand_free(node: AxNode, path: Seq<usize>, k: int)
    requires
        0 <= k < banner_roots(node, path).len(),
    ensures
        ({
            let p = banner_roots(node, path)[k];
            let at = path.len() as int;
            &&& at <= p.len()
            &&& p.take(at) == path
            &&& forall|m: int|
                0 < m && at <= m <= p.len() ==> (node_along(
                    node,
                    (#[trigger] p.take(m)).skip(at),
                ) matches Some(above) && !control_role(above.role@) && (m < p.len()
                    ==> !banner_unit(above)))
            &&& node_along(node, p.skip(at)) matches Some(last) && (p.len() > 0 && banner_unit(last)
                || !groups(last.children@, last.children@.len() as int))
        }),
    decreases node, node.children@.len() + 1,
{
    let p = banner_roots(node, path)[k];
    let at = path.len() as int;
    if groups(node.children@, node.children@.len() as int) && !(path.len() > 0 && banner_unit(
        node,
    )) {
        assert(node.children.len() <= usize::MAX);
        lemma_child_roots_stand_free(node, path, node.children@.len() as int, k);
    } else {
        assert(p == path);
        assert(p.take(at) =~= path);
        assert(p.skip(at) =~= seq![]);
        assert forall|m: int| 0 < m && at <= m <= p.len() implies (node_along(
            node,
            (#[trigger] p.take(m)).skip(at),
        ) matches Some(above) && !control_role(above.role@) && (m < p.len() ==> !banner_unit(
            above,
        ))) by {
            assert(p.take(m).skip(at) =~= seq![]);
        }
    }
}

proof fn lemma_child_roots_stand_free(node: AxNode, path: Seq<usize>, n: int, k: int)
    requires
        0 <= n <= node.children@.len() <= usize::MAX,
        0 <= k < roots_of_children(node.children@, path, n).len(),
        path.len() > 0 ==> !control_role(node.role@) && !banner_unit(node),
    ensures
        ({
            let p = roots_of_children(node.children@, path, n)[k];
            let at = path.len() as int;
            &&& at < p.len()
            &&& p.take(at) == path
            &&& forall|m: int|
                0 < m && at <= m <= p.len() ==> (node_along(
                    node,
                    (#[trigger] p.take(m)).skip(at),
                ) matches Some(above) && !control_role(above.role@) && (m < p.len()
                    ==> !banner_unit(above)))
            &&& node_along(node, p.skip(at)) matches Some(last) && (p.len() > 0 && banner_unit(last)
                || !groups(last.children@, last.children@.len() as int))
        }),
    decreases node, n,
{
    let before = roots_of_children(node.children@, path, n - 1);
    let p = roots_of_children(node.children@, path, n)[k];
    let at = path.len() as int;
    if k < before.len() {
        lemma_child_roots_stand_free(node, path, n - 1, k);
    } else {
        let below = path.push((n - 1) as usize);
        assert(decreases_to!(node => node.children@[n - 1]));
        lemma_roots_stand_free(node.children@[n - 1], below, k - before.len());
        lemma_descend(node, path, n - 1, p);
        assert forall|m: int| 0 < m && at <= m <= p.len() implies (node_along(
            node,
            (#[trigger] p.take(m)).skip(at),
        ) matches Some(above) && !control_role(above.role@) && (m < p.len() ==> !banner_unit(
            above,
        ))) by {
            if m == at {
                assert(p.take(m).skip(at) =~= seq![]);
            } else {
                let q = p.take(m);
                assert(q.take(at + 1) =~= p.take(at + 1));
                lemma_descend(node, path, n - 1, q);
            }
        }
    }
}

proof fn lemma_banner_root(root: AxNode, roots: Seq<Seq<usize>>, n: int, k: int)
    requires
        0 <= n <= roots.len(),
        0 <= k < banners_at(root, roots, n).len(),
    ensures
        exists|r: int| 0 <= r < roots.len() && #[trigger] roots[r] == banners_at(root, roots, n)[k].path,
    decreases n,
{
    let before = banners_at(root, roots, n - 1);
    if k < before.len() {
        lemma_banner_root(root, roots, n - 1, k);
        assert(banners_at(root, roots, n)[k] == before[k]);
    } else {
        assert(roots[n - 1] == banners_at(root, roots, n)[k].path);
    }
}

/// No text of a banner belongs to a control. Each is the label of an element
/// without children that lies in the banner's container, and neither that element
/// nor any above it, below the app element, is a button, a menu button, a pop-up
/// button, a check box, a radio button, a text field, a text area or a combo box.
pub proof fn banner_texts_belong_to_no_control(root: AxNode, k: int, i: int) -> (p: Seq<usize>)
    requires
        0 <= k < banners_of(root).len(),
        0 <= i < banners_of(root)[k].texts.len(),
    ensures
        ({
            let b = banners_of(root)[k];
            &&& b.path.len() <= p.len()
            &&& p.take(b.path.len() as int) == b.path
            &&& node_along(root, p) matches Some(leaf) && leaf.children@.len() == 0 && leaf.label
                is Some && leaf.label->0@ == b.texts[i] && b.texts[i].len() > 0
            &&& forall|m: int|
                0 <= m <= p.len() && (m > 0 || b.path.len() == 0) ==> (node_along(
                    root,
                    #[trigger] p.take(m),
                ) matches Some(above) && !seq![
                    "AXButton"@,
                    "AXMenuButton"@,
                    "AXPopUpButton"@,
                    "AXCheckBox"@,
                    "AXRadioButton"@,
                    "AXTextField"@,
                    "AXTextArea"@,
                    "AXComboBox"@,
                ].contains(above.role@))
        }),
{
    let b = banners_of(root)[k];
    banners_stand_for_containers(root, k);
    let node = node_along(root, b.path)->0;
    let below = lemma_prose_origin(node, i);
    let p = b.path + below;
    let at = b.path.len() as int;
    assert(p.take(at) =~= b.path);
    assert(p.skip(at) =~= below);
    lemma_along_twice(root, b.path, p);
    let roots = banner_roots(root, seq![]);
    lemma_banner_root(root, roots, roots.len() as int, k);
    let r = choose|r: int| 0 <= r < roots.len() && #[trigger] roots[r] == b.path;
    lemma_roots_stand_free(root, seq![], r);
    assert(below.take(below.len() as int) =~= below);
    assert forall|m: int| 0 <= m <= p.len() && (m > 0 || at == 0) implies (node_along(
        root,
        #[trigger] p.take(m),
    ) matches Some(above) && !seq![
        "AXButton"@,
        "AXMenuButton"@,
        "AXPopUpButton"@,
        "AXCheckBox"@,
        "AXRadioButton"@,
        "AXTextField"@,
        "AXTextArea"@,
        "AXComboBox"@,
    ].contains(above.role@)) by {
        if m >= at {
            let q = p.take(m);
            assert(q.take(at) =~= b.path);
            assert(q.skip(at) =~= below.take(m - at));
            lemma_along_twice(root, b.path, q);
        } else {
            assert(b.path.take(m).skip(0) =~= p.take(m));
        }
        lemma_controls(node_along(root, p.take(m))->0.role@);
    }
    p
}

/// No prose is left out: a label of an element without children is a text of
/// some banner, unless the element, or one above it, is one of the controls.
pub proof fn labels_outside_controls_are_banner_texts(root: AxNode, p: Seq<usize>) -> (k: int)
    requires
        p.len() > 0,
        node_along(root, p) matches Some(leaf) && leaf.children@.len() == 0 && leaf.label is Some
            && leaf.label->0@.len() > 0,
        forall|m: int|
            0 <= m <= p.len() ==> (node_along(root, #[trigger] p.take(m)) matches Some(above)
                && !seq![
                "AXButton"@,
                "AXMenuButton"@,
                "AXPopUpButton"@,
                "AXCheckBox"@,
                "AXRadioButton"@,
                "AXTextField"@,
                "AXTextArea"@,
                "AXComboBox"@,
            ].contains(above.role@)),
    ensures
        0 <= k < banners_of(root).len(),
        banners_of(root)[k].texts.contains(node_along(root, p)->0.label->0@),
{
    let text = node_along(root, p)->0.label->0@;
    assert forall|m: int| 0 <= m <= p.len() implies (node_along(root, #[trigger] p.take(m)) matches
        Some(above) && !control_role(above.role@)) by {
        lemma_controls(node_along(root, p.take(m))->0.role@);
    }
    assert(p.take(0) =~= seq![]);
    assert(!control_role(root.role@));
    lemma_prose_holds(root, p);
    every_text_is_in_a_banner(root);
    assert(!text_leaf(root));
    lemma_texts_of(banners_of(root), text)
}

proof fn lemma_texts_of(banners: Seq<BannerView>, text: Seq<char>) -> (k: int)
    requires
        texts_of(banners).contains(text),
    ensures
        0 <= k < banners.len(),
        banners[k].texts.contains(text),
    decreases banners.len(),
{
    let i = choose|i: int| 0 <= i < texts_of(banners).len() && texts_of(banners)[i] == text;
    let before = texts_of(banners.drop_last());
    if i < before.len() {
        assert(before[i] == text);
        lemma_texts_of(banners.drop_last(), text)
    } else {
        assert(banners.last().texts[i - before.len()] == text);
        banners.len() - 1
    }
}

/// The first text of a banner names its app, the second is its title, and the
/// others, a line each, are its body. A banner with one text has only a title.
/// Its frame is that of its container.
pub proof fn banners_read_their_texts_in_order(root: AxNode, k: int)
    requires
        0 <= k < banners_of(root).len(),
    ensures
        ({
            let b = banners_of(root)[k];
            &&& b.texts.len() > 0
            &&& b.texts.len() == 1 ==> b.app is None && b.title == Some(b.texts[0]) && b.body
                is None
            &&& b.texts.len() > 1 ==> b.app == Some(b.texts[0]) && b.title == Some(b.texts[1])
            &&& b.texts.len() == 2 ==> b.body is None
            &&& b.texts.len() == 3 ==> b.body == Some(b.texts[2])
            &&& b.texts.len() > 3 ==> b.body == Some(
                b.texts[2] + seq!['\n'] + joined(b.texts.skip(3), seq!['\n']),
            )
            &&& node_along(root, b.path) matches Some(node) && b.frame == node.frame
            &&& b.dismiss_path is Some <==> b.dismiss_action is Some
        }),
{
    banners_stand_for_containers(root, k);
    reveal_strlit("\n");
    assert("\n"@ =~= seq!['\n']);
    let b = banners_of(root)[k];
    if b.texts.len() > 2 {
        let rest = b.texts.skip(3);
        assert(b.texts.skip(2) =~= seq![b.texts[2]] + rest);
        crate::text::joining_separates_the_parts(b.texts[2], rest, "\n"@);
        if b.texts.len() == 3 {
            assert(b.texts.skip(2) =~= seq![b.texts[2]]);
        }
    }
}

/// The words that hint at something, read off an attribute.
proof fn lemma_hints(value: Option<String>)
    ensures
        opt_hinted(value, dismiss_hints()) <==> (value matches Some(s) && (contains(
            lowercased(s@),
            "close"@,
        ) || contains(lowercased(s@), "dismiss"@) || contains(lowercased(s@), "clear"@))),
        opt_hinted(value, clear_all_hints()) <==> (value matches Some(s) && (contains(
            lowercased(s@),
            "all"@,
        ) || contains(lowercased(s@), "everything"@))),
        opt_hinted(value, banner_hints()) <==> (value matches Some(s) && (contains(
            lowercased(s@),
            "notification"@,
        ) || contains(lowercased(s@), "banner"@) || contains(lowercased(s@), "alert"@))),
{
    let d = dismiss_hints();
    assert(d.len() == 3 && d[0] == "close"@ && d[1] == "dismiss"@ && d[2] == "clear"@);
    let c = clear_all_hints();
    assert(c.len() == 2 && c[0] == "all"@ && c[1] == "everything"@);
    let b = banner_hints();
    assert(b.len() == 3 && b[0] == "notification"@ && b[1] == "banner"@ && b[2] == "alert"@);
}

/// Whether an attribute, in lower case, holds a word.
pub open spec fn mentions(value: Option<String>, word: Seq<char>) -> bool {
    value matches Some(s) && contains(lowercased(s@), word)
}

/// What closes one banner says so: it is the close button, or its identifier,
/// label, help or subrole says "close", "dismiss" or "clear"; the close button
/// counts for more. It offers some action. And what would act on every
/// notification closes none: its identifier, label or help says one of these
/// words together with "all" or "everything".
pub proof fn close_controls_say_so(node: AxNode)
    ensures
        ({
            let closing = |value: Option<String>|
                mentions(value, "close"@) || mentions(value, "dismiss"@) || mentions(
                    value,
                    "clear"@,
                );
            let sweeping = |value: Option<String>|
                closing(value) && (mentions(value, "all"@) || mentions(value, "everything"@));
            let button = node.subrole is Some && node.subrole->0@ == "AXCloseButton"@;
            let fit = node.actions@.len() > 0 && !sweeping(node.identifier) && !sweeping(node.label)
                && !sweeping(node.help);
            &&& evidence(node) == Some(DismissEvidence::Subrole) <==> fit && button
            &&& evidence(node) == Some(DismissEvidence::Named) <==> fit && !button && (closing(
                node.identifier,
            ) || closing(node.label) || closing(node.help) || closing(node.subrole))
            &&& stronger(DismissEvidence::Subrole, DismissEvidence::Named)
            &&& !stronger(DismissEvidence::Named, DismissEvidence::Subrole)
        }),
{
    lemma_hints(node.identifier);
    lemma_hints(node.label);
    lemma_hints(node.help);
    lemma_hints(node.subrole);
}

proof fn lemma_best_child(children: Seq<AxNode>, n: int)
    requires
        0 <= n <= children.len(),
    ensures
        best_child(children, n) is Some <==> exists|i: int|
            0 <= i < n && evidence(#[trigger] children[i]) is Some,
    decreases n,
{
    if n > 0 {
        lemma_best_child(children, n - 1);
        assert(children[n - 1] == children[n - 1]);
    }
}

/// A banner's container is found where it is: no container above it, below the
/// app element, has a close control of its own as a child or says in its subrole,
/// identifier or role description that it is a notification, a banner or an
/// alert. It does so itself, or some prose stands in it as a direct child.
pub proof fn containers_are_split_down_to_their_banners(root: AxNode, k: int)
    requires
        0 <= k < banners_of(root).len(),
    ensures
        ({
            let p = banners_of(root)[k].path;
            let unit = |node: AxNode|
                (exists|i: int|
                    0 <= i < node.children@.len() && evidence(#[trigger] node.children@[i])
                        is Some) || mentions(node.subrole, "notification"@) || mentions(
                    node.subrole,
                    "banner"@,
                ) || mentions(node.subrole, "alert"@) || mentions(
                    node.identifier,
                    "notification"@,
                ) || mentions(node.identifier, "banner"@) || mentions(node.identifier, "alert"@)
                    || mentions(node.role_description, "notification"@) || mentions(
                    node.role_description,
                    "banner"@,
                ) || mentions(node.role_description, "alert"@);
            &&& forall|m: int|
                0 < m < p.len() ==> (node_along(root, #[trigger] p.take(m)) matches Some(above)
                    && !unit(above))
            &&& node_along(root, p) matches Some(node) && (p.len() > 0 && unit(node) || exists|
                i: int,
            |
                0 <= i < node.children@.len() && (#[trigger] node.children@[i]).children@.len() == 0
                    && prose(node.children@[i]).len() > 0 || prose_of_children(
                node.children@,
                node.children@.len() as int,
            ).len() == 0)
        }),
{
    let roots = banner_roots(root, seq![]);
    lemma_banner_root(root, roots, roots.len() as int, k);
    let p = banners_of(root)[k].path;
    let r = choose|r: int| 0 <= r < roots.len() && #[trigger] roots[r] == p;
    lemma_roots_stand_free(root, seq![], r);
    assert(p.skip(0) =~= p);
    let unit = |node: AxNode|
        (exists|i: int|
            0 <= i < node.children@.len() && evidence(#[trigger] node.children@[i]) is Some)
            || mentions(node.subrole, "notification"@) || mentions(node.subrole, "banner"@)
            || mentions(node.subrole, "alert"@) || mentions(node.identifier, "notification"@)
            || mentions(node.identifier, "banner"@) || mentions(node.identifier, "alert"@)
            || mentions(node.role_description, "notification"@) || mentions(
            node.role_description,
            "banner"@,
        ) || mentions(node.role_description, "alert"@);
    assert forall|node: AxNode| #[trigger] banner_unit(node) == unit(node) by {
        lemma_best_child(node.children@, node.children@.len() as int);
        lemma_hints(node.subrole);
        lemma_hints(node.identifier);
        lemma_hints(node.role_description);
    }
    assert forall|m: int| 0 < m < p.len() implies (node_along(root, #[trigger] p.take(m)) matches
        Some(above) && !unit(above)) by {
        assert(p.take(m).skip(0) =~= p.take(m));
        assert(!banner_unit(node_along(root, p.take(m))->0));
    }
    let node = node_along(root, p)->0;
    assert(banner_unit(node) == unit(node));
}

/// A close control is worked with a press where it offers one, and else with the
/// first action that it offers.
pub proof fn closing_presses_where_it_can(node: AxNode)
    requires
        node.actions@.len() > 0,
    ensures
        texts(node.actions@).contains(closing_action(node)),
        texts(node.actions@).contains("AXPress"@) <==> closing_action(node) == "AXPress"@,
        !texts(node.actions@).contains("AXPress"@) ==> closing_action(node)
            == node.actions@[0]@,
{
    assert(texts(node.actions@)[0] == node.actions@[0]@);
    assert(texts(node.actions@).contains(texts(node.actions@)[0]));
}

/// The control that a banner reports is the one to close it with: an element of
/// its container, worked with its closing action, under its own label. None in
/// the container is stronger, and no equally strong one comes before it. A banner
/// reports none only where its container holds none.
pub proof fn banners_report_their_close_control(root: AxNode, k: int, q: Seq<usize>)
    requires
        0 <= k < banners_of(root).len(),
        node_along(root, banners_of(root)[k].path + q) is Some,
    ensures
        ({
            let b = banners_of(root)[k];
            let other = node_along(root, b.path + q)->0;
            &&& b.dismiss_path is None ==> evidence(other) is None && b.dismiss_action is None
                && b.dismiss_label is None
            &&& b.dismiss_path matches Some(p) ==> (node_along(root, p) matches Some(control) && {
                &&& evidence(control) is Some
                &&& b.dismiss_action == Some(closing_action(control))
                &&& b.dismiss_label is Some <==> control.label is Some
                &&& b.dismiss_label matches Some(label) ==> label == control.label->0@
                &&& evidence(other) == Some(DismissEvidence::Subrole) ==> evidence(control) == Some(
                    DismissEvidence::Subrole,
                )
                &&& evidence(other) == evidence(control) ==> p == b.path + q
                    || crate::ax::precedes(p, b.path + q)
            })
        }),
{
    let b = banners_of(root)[k];
    banners_stand_for_containers(root, k);
    let node = node_along(root, b.path)->0;
    let walked = walk(node, b.path);
    let at = best_control_is_first_strongest(walked);
    let full = b.path + q;
    assert(full.take(b.path.len() as int) =~= b.path);
    assert(full.skip(b.path.len() as int) =~= q);
    lemma_along_twice(root, b.path, full);
    crate::ax::walk_is_complete(node, b.path, q);
    let j = choose|j: int|
        0 <= j < walked.len() && #[trigger] walked[j] == (full, node_along(node, q)->0);
    if b.dismiss_path is Some {
        crate::ax::walk_paths_resolve(node, b.path, at);
        lemma_along_twice(root, b.path, walked[at].0);
        if at < j {
            crate::ax::walk_is_preorder(node, b.path, at, j);
        }
    }
}

/// The line of a banner: its number, the app, the title, the body on one line,
/// and whether nothing closes it; each where there is one.
pub proof fn lines_show_the_banner(b: BannerView)
    ensures
        banner_line(b) == "["@ + decimal(b.index) + "]"@ + (match b.app {
            Some(app) => " "@ + app + ":"@,
            None => seq![],
        }) + (match b.title {
            Some(title) => " "@ + title,
            None => seq![],
        }) + (match b.body {
            Some(body) => " \u{2014} "@ + replaced(body, "\n"@, " "@),
            None => seq![],
        }) + (if b.dismiss_path is None {
            " (no dismiss control)"@
        } else {
            seq![]
        }),
{
    reveal_strlit(" ");
    reveal_strlit("\u{2014} ");
    reveal_strlit(" \u{2014} ");
    reveal_strlit("(no dismiss control)");
    reveal_strlit(" (no dismiss control)");
    let first = "["@ + decimal(b.index) + "]"@;
    let app = match b.app {
        Some(app) => Some(app + ":"@),
        None => None,
    };
    let body = match b.body {
        Some(body) => Some("\u{2014} "@ + replaced(body, "\n"@, " "@)),
        None => None,
    };
    let closing = if b.dismiss_path is None {
        Some("(no dismiss control)"@)
    } else {
        None
    };
    let p1 = seq![first];
    let p2 = with_part(p1, app);
    let p3 = with_part(p2, b.title);
    let p4 = with_part(p3, body);
    lemma_joined_part(p1, app);
    lemma_joined_part(p2, b.title);
    lemma_joined_part(p3, body);
    lemma_joined_part(p4, closing);
    assert(joined(p1, " "@) == first);
    if let Some(name) = b.app {
        assert(" "@ + (name + ":"@) =~= " "@ + name + ":"@);
    }
    if let Some(text) = b.body {
        assert(" "@ + ("\u{2014} "@ + replaced(text, "\n"@, " "@)) =~= " \u{2014} "@ + replaced(
            text,
            "\n"@,
            " "@,
        ));
    }
    if b.dismiss_path is None {
        assert(" "@ + "(no dismiss control)"@ =~= " (no dismiss control)"@);
    }
}

proof fn lemma_joined_part(parts: Seq<Seq<char>>, part: Option<Seq<char>>)
    requires
        parts.len() > 0,
    ensures
        with_part(parts, part).len() > 0,
        joined(with_part(parts, part), " "@) == joined(parts, " "@) + (match part {
            Some(text) => " "@ + text,
            None => seq![],
        }),
{
    match part {
        Some(text) => {
            crate::text::lemma_joined_push(parts, text, " "@);
            assert(joined(parts, " "@) + " "@ + text =~= joined(parts, " "@) + (" "@ + text));
        },
        None => {
            assert(joined(parts, " "@) + seq![] =~= joined(parts, " "@));
        },
    }
}

/// A filter keeps the banners that it is for, all of them and in their order:
/// those whose app's name holds the one text, and of which some text holds the
/// other, whatever the case. Each keeps everything but its number.
pub proof fn filters_keep_what_they_are_for(
    banners: Seq<BannerView>,
    from_app: Option<Seq<char>>,
    title_contains: Option<Seq<char>>,
)
    ensures
        ({
            let wanted = |b: BannerView|
                (from_app is None || (b.app is Some && contains(
                    lowercased(b.app->0),
                    lowercased(from_app->0),
                ))) && (title_contains is None || exists|i: int|
                    0 <= i < b.texts.len() && contains(
                        lowercased(#[trigger] b.texts[i]),
                        lowercased(title_contains->0),
                    ));
            let kept = banners.filter(wanted);
            let shown = filtered(banners, from_app, title_contains);
            &&& shown.len() == kept.len()
            &&& forall|k: int|
                0 <= k < shown.len() ==> #[trigger] shown[k] == (BannerView {
                    index: k as nat,
                    ..kept[k]
                })
        }),
    decreases banners.len(),
{
    reveal(Seq::filter);
    let wanted = |b: BannerView|
        (from_app is None || (b.app is Some && contains(
            lowercased(b.app->0),
            lowercased(from_app->0),
        ))) && (title_contains is None || exists|i: int|
            0 <= i < b.texts.len() && contains(
                lowercased(#[trigger] b.texts[i]),
                lowercased(title_contains->0),
            ));
    if banners.len() > 0 {
        let rest = banners.drop_last();
        filters_keep_what_they_are_for(rest, from_app, title_contains);
        let last = banners.last();
        if passes(last, from_app, title_contains) && title_contains is Some {
            let i = choose|i: int|
                0 <= i < last.texts.len() && holds_ignoring_case(
                    #[trigger] last.texts[i],
                    title_contains->0,
                );
            assert(contains(lowercased(last.texts[i]), lowercased(title_contains->0)));
        }
        if wanted(last) && title_contains is Some {
            let i = choose|i: int|
                0 <= i < last.texts.len() && contains(
                    lowercased(#[trigger] last.texts[i]),
                    lowercased(title_contains->0),
                );
            assert(holds_ignoring_case(last.texts[i], title_contains->0));
        }
        assert(wanted(last) == passes(last, from_app, title_contains));
        let shown = filtered(banners, from_app, title_contains);
        let before = filtered(rest, from_app, title_contains);
        assert forall|k: int| 0 <= k < shown.len() implies #[trigger] shown[k] == (BannerView {
            index: k as nat,
            ..banners.filter(wanted)[k]
        }) by {
            if k < before.len() {
                assert(shown[k] == before[k]);
            }
        }
    }
}

/// Reading again is done as often and as far apart as was asked for, from once
/// up to twenty times and no more than two seconds apart; three times, 120
/// milliseconds apart, where nothing was asked for.
pub proof fn settings_are_what_was_asked_for(attempts: Option<u32>, delay_ms: Option<u64>)
    ensures
        ({
            let s = VerifySettings::resolved(attempts, delay_ms);
            &&& attempts is None ==> s.attempts == 3
            &&& attempts matches Some(n) ==> (1 <= n <= 20 ==> s.attempts == n) && (n == 0
                ==> s.attempts == 1) && (n > 20 ==> s.attempts == 20)
            &&& delay_ms is None ==> s.delay_ms == 120
            &&& delay_ms matches Some(ms) ==> (ms <= 2_000 ==> s.delay_ms == ms) && (ms > 2_000
                ==> s.delay_ms == 2_000)
        }),
{
}

proof fn lemma_count_with(banners: Seq<BannerView>, key: Seq<Seq<char>>)
    ensures
        count_with(banners, key) == banners.filter(|b: BannerView| b.texts == key).len(),
    decreases banners.len(),
{
    reveal(Seq::filter);
    if banners.len() > 0 {
        lemma_count_with(banners.drop_last(), key);
    }
}

/// What is planned is to close the banner that was asked for: of those that pass
/// the filter the one at the index, the first where there is no index. It is
/// closed with its own control. A request is refused only for a reason that
/// holds, and always for the first one that does.
pub proof fn plans_close_the_wanted_banner(
    root: AxNode,
    request: DismissNotificationRequest,
    r: Result<DismissPlan, NotificationError>,
)
    requires
        planned(root, request, r),
    ensures
        ({
            let all = banners_of(root);
            let found = filtered(all, opt_view(request.from_app), opt_view(request.title_contains));
            let wanted = match request.index {
                Some(n) => n as int,
                None => 0,
            };
            &&& r matches Ok(plan) ==> {
                &&& wanted < found.len()
                &&& plan.banner@ == found[wanted]
                &&& found[wanted].dismiss_path == Some(plan.path@)
                &&& found[wanted].dismiss_action == Some(plan.action@)
                &&& plan.alike == all.filter(|b: BannerView| b.texts == found[wanted].texts).len()
                &&& plan.total == all.len()
            }
            &&& r matches Err(e) ==> match e {
                NotificationError::NoBanners => all.len() == 0,
                NotificationError::NoMatch { count, .. } => found.len() == 0 && count == all.len()
                    && count > 0,
                NotificationError::IndexOutOfRange { index, matches: n } => n == found.len() && 0
                    < n <= index && request.index == Some(index),
                NotificationError::NoDismissControl { .. } => wanted < found.len() && (
                found[wanted].dismiss_path is None || found[wanted].dismiss_action is None),
            }
        }),
{
    let all = banners_of(root);
    let found = filtered(all, opt_view(request.from_app), opt_view(request.title_contains));
    if let Ok(plan) = r {
        lemma_count_with(all, plan.banner@.texts);
    }
}

/// A banner counts as gone exactly when fewer banners with its texts are left
/// than there were, and the tree is read again exactly while it is not gone and
/// reads are left.
pub proof fn only_fewer_banners_mean_gone(
    reads: Seq<Result<(ResolvedApp, AxNode), PolarizeError>>,
    settings: VerifySettings,
    plan: DismissPlan,
    r: Result<DismissNotificationResponse, PolarizeError>,
)
    requires
        judged(reads, settings, plan, r),
    ensures
        ({
            let left = |tree: AxNode|
                banners_of(tree).filter(|b: BannerView| b.texts == plan.banner@.texts).len();
            &&& 1 <= reads.len() <= settings.attempts
            &&& r is Err <==> reads.last() is Err
            &&& r matches Ok(response) ==> {
                let tree = reads.last()->Ok_0.1;
                &&& response.dismissed <==> left(tree) < plan.alike
                &&& response.remaining == banners_of(tree).len()
                &&& response.verify_attempts == reads.len()
                &&& response.banner@ == plan.banner@
                &&& response.action@ == plan.action@
                &&& response.dismissed || reads.len() == settings.attempts
            }
            &&& forall|i: int|
                0 <= i < reads.len() - 1 ==> (#[trigger] reads[i]) is Ok && left(reads[i]->Ok_0.1)
                    >= plan.alike
        }),
{
    let key = plan.banner@.texts;
    if reads.last() is Ok {
        lemma_count_with(banners_of(reads.last()->Ok_0.1), key);
    }
    let left = |tree: AxNode| banners_of(tree).filter(|b: BannerView| b.texts == key).len();
    assert forall|i: int| 0 <= i < reads.len() - 1 implies (#[trigger] reads[i]) is Ok && left(
        reads[i]->Ok_0.1,
    ) >= plan.alike by {
        lemma_count_with(banners_of(reads[i]->Ok_0.1), key);
    }
}

/// A description shows the banners of the named app, all of them where no app is
/// named: as a list, in words, and how many there are.
pub proof fn descriptions_show_the_banners(
    request: DescribeNotificationsRequest,
    resolved: ResolvedApp,
    root: AxNode,
    response: DescribeNotificationsResponse,
)
    requires
        described(request, Ok((resolved, root)), Ok(response)),
    ensures
        response.app_name@ == resolved.name@,
        response.count == response.banners@.len(),
        response.banners@.len() == filtered(
            banners_of(root),
            opt_view(request.from_app),
            None,
        ).len(),
        forall|k: int|
            0 <= k < response.banners@.len() ==> (#[trigger] response.banners@[k])@ == filtered(
                banners_of(root),
                opt_view(request.from_app),
                None,
            )[k],
        response.count == 0 ==> response.formatted@ == "no notification banner is on screen"@,
        response.count > 0 ==> response.formatted@ == joined(
            response.banners@.map_values(|b: NotificationBanner| banner_line(b@)),
            seq!['\n'],
        ),
{
    let shown = filtered(banners_of(root), opt_view(request.from_app), None);
    assert(banner_views(response.banners@).len() == response.banners@.len());
    assert forall|k: int| 0 <= k < response.banners@.len() implies (
    #[trigger] response.banners@[k])@ == shown[k] by {
        assert(banner_views(response.banners@)[k] == response.banners@[k]@);
    }
    reveal_strlit("\n");
    assert("\n"@ =~= seq!['\n']);
    assert(banner_lines(shown) =~= response.banners@.map_values(
        |b: NotificationBanner| banner_line(b@),
    ));
}

/// Banners are read, and their controls pressed, in the notification centre and
/// nowhere else; and what was pressed is what is answered for. The banner counts
/// as dismissed exactly when the last read shows fewer banners with its texts than
/// the first one did, and as left only when every read that was allowed was made.
pub proof fn dismissals_answer_for_the_pressed_banner<
    A: AccessibilityInspector,
    P: ActionPerformer,
>(
    inspector: &A,
    performer: &P,
    request: DismissNotificationRequest,
    before: Seq<Call>,
    after: Seq<Call>,
    response: DismissNotificationResponse,
) -> (plan: DismissPlan)
    requires
        dismissed(inspector, performer, request, before, after, Ok(response)),
    ensures
        ({
            let first = before.len() as int;
            let centre = Some((Some("com.apple.notificationcenterui"@), None::<Seq<char>>));
            &&& after[first] is Described && after[first]->Described_app == centre
            &&& after.last() is Described && after.last()->Described_app == centre
            &&& after[first + 1] is Performed && after[first + 1]->Performed_app == centre
            &&& after[first + 1]->Performed_path == plan.path@
            &&& after[first + 1]->Performed_action == plan.action@
            &&& after[first + 1]->Performed_reply is Ok
            &&& response.banner@ == plan.banner@ && response.action@ == plan.action@
            &&& after[first]->Described_reply matches Ok((_, root)) && after.last()->Described_reply
                matches Ok((_, tree)) && {
                &&& planned(root, request, Ok(plan))
                &&& response.remaining == banners_of(tree).len()
                &&& response.dismissed <==> count_with(banners_of(tree), plan.banner@.texts)
                    < count_with(banners_of(root), plan.banner@.texts)
            }
            &&& !response.dismissed && request.verify_attempts is None
                ==> response.verify_attempts == 3
            &&& request.verify_attempts matches Some(n) ==> (!response.dismissed && 1 <= n <= 20
                ==> response.verify_attempts == n)
        }),
{
    let r = Ok::<DismissNotificationResponse, PolarizeError>(response);
    let first = before.len() as int;
    let settings = VerifySettings::resolved(request.verify_attempts, request.verify_delay_ms);
    let tree = choose|tree: Result<(ResolvedApp, AxNode), PolarizeError>|
        #[trigger] was_read(inspector, tree) && decided(
            inspector,
            performer,
            request,
            tree,
            before.push(Call::Described { app: center(), reply: tree }),
            after,
            r,
        );
    let looked = before.push(Call::Described { app: center(), reply: tree });
    let root = tree->Ok_0.1;
    let plan = choose|plan: Result<DismissPlan, NotificationError>|
        #[trigger] planned(root, request, plan) && carried_out(
            inspector,
            performer,
            request,
            plan,
            looked,
            after,
            r,
        );
    let p = plan->Ok_0;
    let done = choose|done: Result<(), PolarizeError>|
        #[trigger] was_pressed(performer, p, done) && {
            let acted = looked.push(press_call(p, done));
            match done {
                Err(e) => after == acted && r == Err::<DismissNotificationResponse, PolarizeError>(
                    e,
                ),
                Ok(_) => verified(inspector, settings, p, acted, after, r),
            }
        };
    let acted = looked.push(press_call(p, done));
    let reads = choose|reads: Seq<Result<(ResolvedApp, AxNode), PolarizeError>>|
        #[trigger] judged(reads, settings, p, r) && all_read(inspector, reads) && after == reread(
            acted,
            reads,
            settings.delay_ms,
        );
    lemma_reread(acted, reads, settings.delay_ms);
    assert(after[first] == acted[first]);
    assert(after[first + 1] == acted[first + 1]);
    let last = reads.len() - 1;
    assert(reads[last] == reads.last());
    assert(after.last() == after[acted.len() + 2 * last + 1]);
    p
}

/// What is read as banners is read once, of the notification centre.
pub proof fn banners_are_read_of_the_notification_centre<A: AccessibilityInspector>(
    inspector: &A,
    request: DescribeNotificationsRequest,
    before: Seq<Call>,
    after: Seq<Call>,
    r: Result<DescribeNotificationsResponse, PolarizeError>,
)
    requires
        read_and_described(inspector, request, before, after, r),
    ensures
        after.len() == before.len() + 1 && after.drop_last() == before,
        after.last() is Described,
        after.last()->Described_app == Some(
            (Some("com.apple.notificationcenterui"@), None::<Seq<char>>),
        ),
        after.last()->Described_reply matches Err(e) ==> r == Err::<
            DescribeNotificationsResponse,
            PolarizeError,
        >(e),
        after.last()->Described_reply matches Ok((resolved, _)) ==> (r matches Ok(response)
            && response.app_name@ == resolved.name@ && response.count == response.banners@.len()),
{
    assert(after.drop_last() =~= before);
    if let Ok(response) = r {
        assert(banner_views(response.banners@).len() == response.banners@.len());
    }
}

/// A filter is shown by what it asks for, each in quotes, in the order of app,
/// title and number; and as no filter where it asks for nothing.
pub proof fn filters_are_shown_by_what_they_ask_for(request: DismissNotificationRequest)
    ensures
        request.from_app is None && request.title_contains is None && request.index is None
            ==> filter_text(request) == "no filter"@,
        request.from_app matches Some(app) ==> filter_text(request) == "from_app="@ + crate::text::quoted(app@)
            + match request.title_contains {
            Some(title) => ", "@ + ("title_contains="@ + crate::text::quoted(title@)),
            None => Seq::<char>::empty(),
        } + match request.index {
            Some(n) => ", "@ + ("index="@ + decimal(n as nat)),
            None => Seq::<char>::empty(),
        },
        request.from_app is None ==> (request.title_contains matches Some(title) ==> filter_text(
            request,
        ) == "title_contains="@ + crate::text::quoted(title@) + match request.index {
            Some(n) => ", "@ + ("index="@ + decimal(n as nat)),
            None => Seq::<char>::empty(),
        }),
        request.from_app is None && request.title_contains is None ==> (request.index matches Some(
            n,
        ) ==> filter_text(request) == "index="@ + decimal(n as nat)),
{
    let p0: Seq<Seq<char>> = seq![];
    let p1 = with_part(p0, named_value("from_app="@, request.from_app));
    let p2 = with_part(p1, named_value("title_contains="@, request.title_contains));
    if let Some(app) = request.from_app {
        crate::text::lemma_joined_push(p0, "from_app="@ + crate::text::quoted(app@), ", "@);
    }
    if let Some(title) = request.title_contains {
        crate::text::lemma_joined_push(p1, "title_contains="@ + crate::text::quoted(title@), ", "@);
    }
    if let Some(n) = request.index {
        crate::text::lemma_joined_push(p2, "index="@ + decimal(n as nat), ", "@);
    }
    let empty = Seq::<char>::empty();
    if let Some(app) = request.from_app {
        assert("from_app="@ + crate::text::quoted(app@) + empty =~= "from_app="@ + crate::text::quoted(app@));
        assert forall|a: Seq<char>, b: Seq<char>| #![trigger a + ", "@ + b]
            a + ", "@ + b == a + (", "@ + b) by {
            assert(a + ", "@ + b =~= a + (", "@ + b));
        }
        assert forall|a: Seq<char>| #[trigger] (a + empty) == a by {
            assert(a + empty =~= a);
        }
    } else if let Some(title) = request.title_contains {
        assert forall|a: Seq<char>, b: Seq<char>| #![trigger a + ", "@ + b]
            a + ", "@ + b == a + (", "@ + b) by {
            assert(a + ", "@ + b =~= a + (", "@ + b));
        }
        assert forall|a: Seq<char>| #[trigger] (a + empty) == a by {
            assert(a + empty =~= a);
        }
    }
}

/// What a refusal says tells how many banners there are or match, and what was
/// asked for.
pub proof fn refusals_count_the_banners(e: NotificationError)
    ensures
        e is NoBanners ==> e.said() == "no notification banner is on screen"@,
        e matches NotificationError::NoMatch { filter, count } ==> e.said()
            == "no notification banner matches ("@ + filter@ + "); "@ + decimal(count as nat)
            + " banner(s) are on screen"@,
        e matches NotificationError::IndexOutOfRange { index, matches: found } ==> e.said()
            == decimal(found as nat) + " notification banner(s) match, so index "@ + decimal(
            index as nat,
        ) + " is out of range"@,
        e matches NotificationError::NoDismissControl { banner } ==> e.said()
            == "notification banner ("@ + banner@
            + ") publishes no dismiss control, so polarize will not guess which control to press"@,
{
}

/// Of the children that close a banner, the one that is taken is the last of
/// those with the strongest sign of it; and none is taken only where none closes.
pub proof fn the_last_of_the_strongest_children_is_taken(children: Seq<AxNode>, n: int)
    requires
        0 <= n <= children.len(),
    ensures
        best_child(children, n) is None ==> forall|i: int|
            0 <= i < n ==> evidence(#[trigger] children[i]) is None,
        best_child(children, n) matches Some(k) ==> {
            &&& 0 <= k < n && evidence(children[k]) is Some
            &&& forall|i: int|
                0 <= i < n && evidence(#[trigger] children[i]) == Some(DismissEvidence::Subrole)
                    ==> i <= k && evidence(children[k]) == Some(DismissEvidence::Subrole)
            &&& evidence(children[k]) == Some(DismissEvidence::Named) ==> forall|i: int|
                k < i < n ==> evidence(#[trigger] children[i]) is None
        },
    decreases n,
{
    if n > 0 {
        the_last_of_the_strongest_children_is_taken(children, n - 1);
    }
}

} // verus!
