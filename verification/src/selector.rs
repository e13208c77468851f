//! Naming one element of an accessibility tree by its attributes.

use vstd::prelude::*;

use crate::ax::{node_along, walk, AxNode};
use crate::text::{contains, decimal, holds, join, joined, opt_view, quote, quoted, same, texts};

verus! {

/// The child indices that lead from a tree's root to one element.
pub type ElementPath = Vec<usize>;

/// Describes one element by its attributes. A node matches when it meets
/// every criterion that is set.
#[derive(Debug, Clone, PartialEq, Eq)]
pub struct ElementSelector {
    /// The element's identifier, exactly.
    pub identifier: Option<String>,
    /// The element's role, exactly.
    pub role: Option<String>,
    /// The element's subrole, exactly.
    pub subrole: Option<String>,
    /// The element's label, exactly.
    pub label: Option<String>,
    /// A part of the element's label.
    pub label_contains: Option<String>,
    /// Whether a disabled element never matches.
    pub enabled_only: bool,
    /// Which match to take, counted in pre-order from zero.
    pub index: Option<usize>,
}

impl Default for ElementSelector {
    /// The selector that names nothing.
    fn default() -> (r: Self)
        ensures
            r.names_nothing(),
            !r.enabled_only,
            r.index is None,
    {
        ElementSelector {
            identifier: None,
            role: None,
            subrole: None,
            label: None,
            label_contains: None,
            enabled_only: false,
            index: None,
        }
    }
}

/// Appends one part to a list of parts when there is one.
pub open spec fn with_part(parts: Seq<Seq<char>>, part: Option<Seq<char>>) -> Seq<Seq<char>> {
    match part {
        Some(text) => parts.push(text),
        None => parts,
    }
}

/// `name=` and the quoted value, for a value that is set.
pub open spec fn named_value(name: Seq<char>, value: Option<String>) -> Option<Seq<char>> {
    match value {
        Some(s) => Some(name + quoted(s@)),
        None => None,
    }
}

/// `index=` and the number, for an index that is set.
pub open spec fn named_index(value: Option<usize>) -> Option<Seq<char>> {
    match value {
        Some(n) => Some("index="@ + decimal(n as nat)),
        None => None,
    }
}

impl ElementSelector {
    /// Whether no criterion that names an element is set.
    pub open spec fn names_nothing(self) -> bool {
        self.identifier is None && self.role is None && self.subrole is None && self.label is None
            && self.label_contains is None
    }

    /// The criteria that are set, in words, in their fixed order.
    pub open spec fn parts(self) -> Seq<Seq<char>> {
        let p0: Seq<Seq<char>> = seq![];
        let p1 = with_part(p0, named_value("identifier="@, self.identifier));
        let p2 = with_part(p1, named_value("role="@, self.role));
        let p3 = with_part(p2, named_value("subrole="@, self.subrole));
        let p4 = with_part(p3, named_value("label="@, self.label));
        let p5 = with_part(p4, named_value("label_contains="@, self.label_contains));
        let p6 = with_part(
            p5,
            if self.enabled_only {
                Some("enabled_only=true"@)
            } else {
                None
            },
        );
        with_part(p6, named_index(self.index))
    }

    /// The selector in words.
    pub open spec fn described(self) -> Seq<char> {
        joined(self.parts(), ", "@)
    }

    /// Whether `node` meets every criterion.
    pub open spec fn selects(self, node: AxNode) -> bool {
        &&& self.identifier matches Some(wanted) ==> opt_view(node.identifier) == Some(wanted@)
        &&& self.role matches Some(wanted) ==> node.role@ == wanted@
        &&& self.subrole matches Some(wanted) ==> opt_view(node.subrole) == Some(wanted@)
        &&& self.label matches Some(wanted) ==> opt_view(node.label) == Some(wanted@)
        &&& self.label_contains matches Some(needle) ==> (node.label matches Some(label)
            && contains(label@, needle@))
        &&& self.enabled_only ==> node.enabled
    }

    /// Whether no criterion that names an element is set. `enabled_only` and
    /// `index` name none: one narrows a set of matches, the other picks from
    /// it.
    pub fn is_empty(&self) -> (r: bool)
        ensures
            r == self.names_nothing(),
    {
        self.identifier.is_none() && self.role.is_none() && self.subrole.is_none()
            && self.label.is_none() && self.label_contains.is_none()
    }

    /// The selector in words, for an error message.
    pub fn describe(&self) -> (out: String)
        ensures
            out@ == self.described(),
    {
        let mut parts: Vec<String> = Vec::new();
        assert(texts(parts@) =~= seq![]);
        push_named(&mut parts, "identifier=", &self.identifier);
        push_named(&mut parts, "role=", &self.role);
        push_named(&mut parts, "subrole=", &self.subrole);
        push_named(&mut parts, "label=", &self.label);
        push_named(&mut parts, "label_contains=", &self.label_contains);
        if self.enabled_only {
            let part = "enabled_only=true".to_owned();
            proof {
                crate::text::lemma_texts_push(parts@, part);
            }
            parts.push(part);
        }
        push_index(&mut parts, self.index);
        join(&parts, ", ")
    }
}

/// Appends `name` and the quoted value when the value is set.
pub(crate) fn push_named(parts: &mut Vec<String>, name: &str, value: &Option<String>)
    ensures
        texts(final(parts)@) == with_part(texts(old(parts)@), named_value(name@, *value)),
{
    if let Some(s) = value {
        let mut part = name.to_owned();
        part.append(&quote(s));
        proof {
            crate::text::lemma_texts_push(parts@, part);
        }
        parts.push(part);
    }
}

/// Appends `index=` and the number when the index is set.
pub(crate) fn push_index(parts: &mut Vec<String>, value: Option<usize>)
    ensures
        texts(final(parts)@) == with_part(texts(old(parts)@), named_index(value)),
{
    if let Some(n) = value {
        let mut part = "index=".to_owned();
        crate::text::push_decimal(&mut part, n as u64);
        proof {
            crate::text::lemma_texts_push(parts@, part);
        }
        parts.push(part);
    }
}

/// Why a selector did not resolve to one element.
#[derive(Debug, Clone, PartialEq, Eq)]
pub enum SelectorError {
    /// The selector names nothing.
    Empty,
    /// No node meets the selector.
    NoMatch { selector: String },
    /// Fewer nodes meet the selector than its index needs.
    IndexOutOfRange { selector: String, index: usize, matches: usize },
}

impl SelectorError {
    /// What the error says.
    pub open spec fn said(self) -> Seq<char> {
        match self {
            SelectorError::Empty =>
                "element selector is empty: set at least one of identifier, role, subrole, label, label_contains, enabled_only"@,
            SelectorError::NoMatch { selector } => "no element matches selector ("@ + selector@
                + ")"@,
            SelectorError::IndexOutOfRange { selector, index, matches: found } => "selector ("@
                + selector@ + ") matched "@ + decimal(found as nat) + " element(s), so index "@
                + decimal(index as nat) + " is out of range"@,
        }
    }

    /// The error in words.
    pub fn message(&self) -> (out: String)
        ensures
            out@ == self.said(),
    {
        match self {
            SelectorError::Empty =>
                "element selector is empty: set at least one of identifier, role, subrole, label, label_contains, enabled_only".to_owned(),
            SelectorError::NoMatch { selector } => {
                let mut out = "no element matches selector (".to_owned();
                out.append(selector);
                out.append(")");
                out
            },
            SelectorError::IndexOutOfRange { selector, index, matches: found } => {
                let mut out = "selector (".to_owned();
                out.append(selector);
                out.append(") matched ");
                crate::text::push_decimal(&mut out, *found as u64);
                out.append(" element(s), so index ");
                crate::text::push_decimal(&mut out, *index as u64);
                out.append(" is out of range");
                out
            },
        }
    }
}

// ---- matching ---------------------------------------------------------------

fn same_opt(actual: &Option<String>, wanted: &Option<String>) -> (r: bool)
    ensures
        r == (*wanted matches Some(w) ==> opt_view(*actual) == Some(w@)),
{
    match wanted {
        None => true,
        Some(w) => match actual {
            None => false,
            Some(a) => same(a, w),
        },
    }
}

/// Whether one node meets every criterion of the selector.
pub fn matches(node: &AxNode, selector: &ElementSelector) -> (r: bool)
    ensures
        r == selector.selects(*node),
{
    if !same_opt(&node.identifier, &selector.identifier) {
        return false;
    }
    if let Some(role) = &selector.role {
        if !same(&node.role, role) {
            return false;
        }
    }
    if !same_opt(&node.subrole, &selector.subrole) {
        return false;
    }
    if !same_opt(&node.label, &selector.label) {
        return false;
    }
    if let Some(needle) = &selector.label_contains {
        match &node.label {
            None => return false,
            Some(label) => if !holds(label, needle) {
                return false;
            },
        }
    }
    if selector.enabled_only && !node.enabled {
        return false;
    }
    true
}

// ---- searching --------------------------------------------------------------

/// The paths, as sequences of indices.
pub open spec fn path_views(paths: Seq<ElementPath>) -> Seq<Seq<usize>> {
    paths.map_values(|p: ElementPath| p@)
}

/// The paths of the selected entries of a walk, in the order of the walk.
pub open spec fn selected_paths(
    walked: Seq<(Seq<usize>, AxNode)>,
    selector: ElementSelector,
) -> Seq<Seq<usize>>
    decreases walked.len(),
{
    if walked.len() == 0 {
        seq![]
    } else if selector.selects(walked.last().1) {
        selected_paths(walked.drop_last(), selector).push(walked.last().0)
    } else {
        selected_paths(walked.drop_last(), selector)
    }
}

/// The paths of every node of the tree that the selector selects, in
/// pre-order.
pub open spec fn matching(root: AxNode, selector: ElementSelector) -> Seq<Seq<usize>> {
    selected_paths(walk(root, seq![]), selector)
}

proof fn lemma_selected_concat(
    a: Seq<(Seq<usize>, AxNode)>,
    b: Seq<(Seq<usize>, AxNode)>,
    selector: ElementSelector,
)
    ensures
        selected_paths(a + b, selector) == selected_paths(a, selector) + selected_paths(
            b,
            selector,
        ),
    decreases b.len(),
{
    if b.len() == 0 {
        assert(a + b =~= a);
    } else {
        lemma_selected_concat(a, b.drop_last(), selector);
        assert((a + b).drop_last() =~= a + b.drop_last());
    }
}

proof fn lemma_path_views_push(paths: Seq<ElementPath>, p: ElementPath)
    ensures
        path_views(paths.push(p)) == path_views(paths).push(p@),
{
    assert(path_views(paths.push(p)) =~= path_views(paths).push(p@));
}

/// A copy of a path.
pub(crate) fn copy_path(path: &[usize]) -> (out: Vec<usize>)
    ensures
        out@ == path@,
{
    let mut out: Vec<usize> = Vec::new();
    let mut i: usize = 0;
    while i < path.len()
        invariant
            i <= path@.len(),
            out@ == path@.take(i as int),
        decreases path@.len() - i,
    {
        out.push(path[i]);
        i += 1;
    }
    assert(path@.take(path@.len() as int) =~= path@);
    out
}

/// The paths of every element that the selector selects, in pre-order. A
/// selector that names nothing is refused.
pub fn find_all(root: &AxNode, selector: &ElementSelector) -> (r: Result<
    Vec<ElementPath>,
    SelectorError,
>)
    ensures
        if selector.names_nothing() {
            r == Err::<Vec<ElementPath>, SelectorError>(SelectorError::Empty)
        } else {
            r matches Ok(found) && path_views(found@) == matching(*root, *selector)
        },
{
    if selector.is_empty() {
        return Err(SelectorError::Empty);
    }
    let mut found: Vec<ElementPath> = Vec::new();
    let mut path: ElementPath = Vec::new();
    collect(root, selector, &mut path, &mut found);
    assert(path_views(found@) =~= matching(*root, *selector));
    Ok(found)
}

fn collect(
    node: &AxNode,
    selector: &ElementSelector,
    path: &mut ElementPath,
    found: &mut Vec<ElementPath>,
)
    ensures
        final(path)@ == old(path)@,
        path_views(final(found)@) == path_views(old(found)@) + selected_paths(
            walk(*node, old(path)@),
            *selector,
        ),
    decreases node,
{
    let ghost start = path@;
    let ghost before = path_views(found@);
    let ghost here = seq![(start, *node)];
    if matches(node, selector) {
        let copy = copy_path(path);
        proof {
            lemma_path_views_push(found@, copy);
        }
        found.push(copy);
    }
    proof {
        assert(here.drop_last() =~= seq![]);
        assert(selected_paths(here.drop_last(), *selector) =~= seq![]);
        assert(path_views(found@) =~= before + selected_paths(here, *selector));
    }
    let mut i: usize = 0;
    assert(here + crate::ax::walk_children(node.children@, start, 0) =~= here);
    while i < node.children.len()
        invariant
            i <= node.children@.len(),
            path@ == start,
            here == seq![(start, *node)],
            path_views(found@) == before + selected_paths(
                here + crate::ax::walk_children(node.children@, start, i as int),
                *selector,
            ),
        decreases node.children@.len() - i,
    {
        assert(decreases_to!(*node => node.children@[i as int]));
        path.push(i);
        let ghost done = here + crate::ax::walk_children(node.children@, start, i as int);
        let ghost part = walk(node.children@[i as int], start.push(i));
        collect(&node.children[i], selector, path, found);
        path.pop();
        proof {
            assert(path@ =~= start);
            lemma_selected_concat(done, part, *selector);
            assert(here + crate::ax::walk_children(node.children@, start, i + 1) =~= done + part);
            assert(path_views(found@) =~= before + selected_paths(done + part, *selector));
        }
        i += 1;
    }
}

/// The element that the selector names: the match at its index in pre-order,
/// or the first match when no index is set.
pub fn find_one(root: &AxNode, selector: &ElementSelector) -> (r: Result<
    ElementPath,
    SelectorError,
>)
    ensures
        found_one(*root, *selector, r),
{
    let found = match find_all(root, selector) {
        Err(e) => return Err(e),
        Ok(found) => found,
    };
    assert(path_views(found@).len() == found@.len());
    if found.is_empty() {
        return Err(SelectorError::NoMatch { selector: selector.describe() });
    }
    let index: usize = match selector.index {
        Some(index) => index,
        None => 0,
    };
    if index < found.len() {
        assert(path_views(found@)[index as int] == found@[index as int]@);
        Ok(copy_path(&found[index]))
    } else {
        Err(
            SelectorError::IndexOutOfRange {
                selector: selector.describe(),
                index,
                matches: found.len(),
            },
        )
    }
}

/// The index that a selector asks for.
pub open spec fn wanted_index(selector: ElementSelector) -> nat {
    match selector.index {
        Some(index) => index as nat,
        None => 0,
    }
}

/// What the search for one element answers.
pub open spec fn found_one(
    root: AxNode,
    selector: ElementSelector,
    r: Result<ElementPath, SelectorError>,
) -> bool {
    let all = matching(root, selector);
    let index = wanted_index(selector);
    if selector.names_nothing() {
        r == Err::<ElementPath, SelectorError>(SelectorError::Empty)
    } else if all.len() == 0 {
        r matches Err(SelectorError::NoMatch { selector: words }) && words@ == selector.described()
    } else if index < all.len() {
        r matches Ok(path) && path@ == all[index as int]
    } else {
        r matches Err(SelectorError::IndexOutOfRange { selector: words, index: i, matches: n })
            && words@ == selector.described() && i == index && n == all.len()
    }
}

/// Walks a path down from the root.
pub fn node_at_path<'a>(root: &'a AxNode, path: &[usize]) -> (r: Option<&'a AxNode>)
    ensures
        match node_along(*root, path@) {
            Some(node) => r == Some(&node),
            None => r is None,
        },
{
    let mut node = root;
    let mut i: usize = 0;
    assert(path@.skip(0) =~= path@);
    while i < path.len()
        invariant
            i <= path@.len(),
            node_along(*node, path@.skip(i as int)) == node_along(*root, path@),
        decreases path@.len() - i,
    {
        let index: usize = path[i];
        assert(path@.skip(i as int).skip(1) =~= path@.skip(i + 1));
        if index < node.children.len() {
            node = &node.children[index];
        } else {
            return None;
        }
        i += 1;
    }
    Some(node)
}

// ---- laws -------------------------------------------------------------------

/// Where the entry behind each selected path stands in the walk. The
/// positions rise, so the order of the walk is kept.
proof fn lemma_selected_positions(
    walked: Seq<(Seq<usize>, AxNode)>,
    selector: ElementSelector,
) -> (at: Seq<int>)
    ensures
        at.len() == selected_paths(walked, selector).len(),
        forall|k: int|
            0 <= k < at.len() ==> 0 <= #[trigger] at[k] < walked.len() && selector.selects(
                walked[at[k]].1,
            ) && selected_paths(walked, selector)[k] == walked[at[k]].0,
        forall|k: int, m: int| 0 <= k < m < at.len() ==> #[trigger] at[k] < #[trigger] at[m],
        forall|i: int|
            0 <= i < walked.len() && selector.selects((#[trigger] walked[i]).1) ==> at.contains(i),
    decreases walked.len(),
{
    if walked.len() == 0 {
        seq![]
    } else {
        let rest = walked.drop_last();
        let last = walked.len() - 1;
        let before = lemma_selected_positions(rest, selector);
        if selector.selects(walked.last().1) {
            let at = before.push(last);
            assert forall|i: int|
                0 <= i < walked.len() && selector.selects(
                    (#[trigger] walked[i]).1,
                ) implies at.contains(i) by {
                if i < last {
                    assert(rest[i] == walked[i]);
                    let k = choose|k: int| 0 <= k < before.len() && before[k] == i;
                    assert(at[k] == i);
                } else {
                    assert(at[before.len() as int] == i);
                }
            }
            assert forall|k: int| 0 <= k < at.len() implies 0 <= #[trigger] at[k] < walked.len()
                && selector.selects(walked[at[k]].1) && selected_paths(walked, selector)[k]
                == walked[at[k]].0 by {
                if k < before.len() {
                    assert(at[k] == before[k]);
                    assert(rest[at[k]] == walked[at[k]]);
                }
            }
            at
        } else {
            assert forall|i: int|
                0 <= i < walked.len() && selector.selects(
                    (#[trigger] walked[i]).1,
                ) implies before.contains(i) by {
                assert(rest[i] == walked[i]);
            }
            assert forall|k: int| 0 <= k < before.len() implies 0 <= #[trigger] before[k]
                < walked.len() && selector.selects(walked[before[k]].1) && selected_paths(
                walked,
                selector,
            )[k] == walked[before[k]].0 by {
                assert(rest[before[k]] == walked[before[k]]);
            }
            before
        }
    }
}

/// Every path that a search returns leads to a node that the selector
/// selects.
pub proof fn matches_resolve(root: AxNode, selector: ElementSelector, k: int)
    requires
        0 <= k < matching(root, selector).len(),
    ensures
        node_along(root, matching(root, selector)[k]) matches Some(node) && selector.selects(node),
{
    let walked = walk(root, seq![]);
    let at = lemma_selected_positions(walked, selector);
    crate::ax::walk_paths_resolve(root, seq![], at[k]);
    let path = walked[at[k]].0;
    assert(path.skip(0) =~= path);
}

/// A search misses no node that the selector selects.
pub proof fn matches_are_complete(root: AxNode, selector: ElementSelector, path: Seq<usize>)
    requires
        node_along(root, path) matches Some(node) && selector.selects(node),
    ensures
        matching(root, selector).contains(path),
{
    let walked = walk(root, seq![]);
    let at = lemma_selected_positions(walked, selector);
    crate::ax::walk_is_complete(root, seq![], path);
    let none: Seq<usize> = seq![];
    assert(none + path =~= path);
    let i = choose|i: int|
        0 <= i < walked.len() && walked[i] == (none + path, node_along(root, path)->0);
    assert(at.contains(i));
    let k = choose|k: int| 0 <= k < at.len() && at[k] == i;
    assert(matching(root, selector)[k] == path);
}

/// A search returns its matches in pre-order, so an index always names the
/// same element of the same tree.
pub proof fn matches_are_in_preorder(root: AxNode, selector: ElementSelector, k: int, m: int)
    requires
        0 <= k < m < matching(root, selector).len(),
    ensures
        crate::ax::precedes(matching(root, selector)[k], matching(root, selector)[m]),
{
    let at = lemma_selected_positions(walk(root, seq![]), selector);
    crate::ax::walk_is_preorder(root, seq![], at[k], at[m]);
}

/// A search answers with exactly the elements that were asked for: each
/// attribute that the selector names has that very text, the label holds the
/// wanted part, and the element is enabled where only enabled ones count.
pub proof fn matches_are_what_was_asked_for(
    root: AxNode,
    selector: ElementSelector,
    path: Seq<usize>,
)
    ensures
        matching(root, selector).contains(path) <==> (node_along(root, path) matches Some(node) && {
            &&& selector.identifier is Some ==> node.identifier is Some && node.identifier->0@
                == selector.identifier->0@
            &&& selector.role is Some ==> node.role@ == selector.role->0@
            &&& selector.subrole is Some ==> node.subrole is Some && node.subrole->0@
                == selector.subrole->0@
            &&& selector.label is Some ==> node.label is Some && node.label->0@
                == selector.label->0@
            &&& selector.label_contains is Some ==> node.label is Some && exists|i: int, j: int|
                0 <= i <= j <= node.label->0@.len() && #[trigger] node.label->0@.subrange(i, j)
                    == selector.label_contains->0@
            &&& selector.enabled_only ==> node.enabled
        }),
{
    if matching(root, selector).contains(path) {
        let k = choose|k: int|
            0 <= k < matching(root, selector).len() && matching(root, selector)[k] == path;
        matches_resolve(root, selector, k);
    }
    if let Some(node) = node_along(root, path) {
        if let (Some(label), Some(needle)) = (node.label, selector.label_contains) {
            if contains(label@, needle@) {
                let at = choose|at: int| crate::text::occurs_at(label@, needle@, at);
                assert(label@.subrange(at, at + needle@.len()) == needle@);
            }
            if exists|i: int, j: int|
                0 <= i <= j <= label@.len() && #[trigger] label@.subrange(i, j) == needle@ {
                let (i, j) = choose|i: int, j: int|
                    0 <= i <= j <= label@.len() && #[trigger] label@.subrange(i, j) == needle@;
                assert(label@.subrange(i, j).len() == j - i);
                assert(crate::text::occurs_at(label@, needle@, i));
            }
        }
        if selector.selects(node) {
            matches_are_complete(root, selector, path);
        }
    }
}

/// The element that a search for one finds has every attribute that the selector
/// names. Exactly as many matches come before it in pre-order as the index says,
/// none where there is no index. A selector that names no attribute finds
/// nothing, whatever else it asks for.
pub proof fn the_found_element_is_the_wanted_one(
    root: AxNode,
    selector: ElementSelector,
    path: ElementPath,
)
    requires
        found_one(root, selector, Ok(path)),
    ensures
        selector.identifier is Some || selector.role is Some || selector.subrole is Some
            || selector.label is Some || selector.label_contains is Some,
        node_along(root, path@) matches Some(node) && {
            &&& selector.identifier matches Some(s) ==> node.identifier is Some
                && node.identifier->0@ == s@
            &&& selector.role matches Some(s) ==> node.role@ == s@
            &&& selector.subrole matches Some(s) ==> node.subrole is Some && node.subrole->0@ == s@
            &&& selector.label matches Some(s) ==> node.label is Some && node.label->0@ == s@
            &&& selector.enabled_only ==> node.enabled
        },
        exists|earlier: Seq<Seq<usize>>|
            {
                &&& #[trigger] earlier.len() == match selector.index {
                    Some(n) => n as nat,
                    None => 0,
                }
                &&& earlier.no_duplicates()
                &&& forall|q: Seq<usize>|
                    #[trigger] earlier.contains(q) <==> matching(root, selector).contains(q)
                        && crate::ax::precedes(q, path@)
            },
{
    let all = matching(root, selector);
    let n = wanted_index(selector) as int;
    matches_resolve(root, selector, n);
    assert(all.contains(path@));
    matches_are_what_was_asked_for(root, selector, path@);
    let earlier = all.take(n);
    assert(earlier.len() == n);
    assert forall|i: int, j: int| 0 <= i < j < earlier.len() implies earlier[i] != earlier[j] by {
        let at = lemma_selected_positions(walk(root, seq![]), selector);
        crate::ax::walk_is_preorder(root, seq![], at[i], at[j]);
    }
    assert forall|q: Seq<usize>| #[trigger] earlier.contains(q) <==> all.contains(q)
        && crate::ax::precedes(q, path@) by {
        if earlier.contains(q) {
            let i = choose|i: int| 0 <= i < earlier.len() && earlier[i] == q;
            assert(all[i] == q);
            matches_are_in_preorder(root, selector, i, n);
        }
        if all.contains(q) && crate::ax::precedes(q, path@) {
            let i = choose|i: int| 0 <= i < all.len() && all[i] == q;
            if i > n {
                matches_are_in_preorder(root, selector, n, i);
                crate::ax::preorder_has_no_cycle(path@, q);
            } else if i == n {
                crate::ax::preorder_has_no_cycle(q, q);
            } else {
                assert(earlier[i] == q);
            }
        }
    }
    assert(earlier.len() == match selector.index {
        Some(n) => n as nat,
        None => 0,
    });
}

/// Two elements that differ in an attribute are never both found by a selector
/// that names that attribute.
pub proof fn one_name_is_one_attribute(
    root: AxNode,
    selector: ElementSelector,
    p: Seq<usize>,
    q: Seq<usize>,
)
    requires
        matching(root, selector).contains(p),
        matching(root, selector).contains(q),
    ensures
        node_along(root, p) matches Some(a) && (node_along(root, q) matches Some(b) && {
            &&& selector.identifier is Some ==> a.identifier is Some && b.identifier is Some
                && a.identifier->0@ == b.identifier->0@
            &&& selector.role is Some ==> a.role@ == b.role@
            &&& selector.subrole is Some ==> a.subrole is Some && b.subrole is Some
                && a.subrole->0@ == b.subrole->0@
            &&& selector.label is Some ==> a.label is Some && b.label is Some && a.label->0@
                == b.label->0@
        }),
{
    matches_are_what_was_asked_for(root, selector, p);
    matches_are_what_was_asked_for(root, selector, q);
}

/// A search for one element fails for a reason that holds: it named nothing, no
/// element matches, or there are just as many matches as it says, and too few.
pub proof fn a_failed_search_says_why(root: AxNode, selector: ElementSelector, e: SelectorError)
    requires
        found_one(root, selector, Err(e)),
    ensures
        match e {
            SelectorError::Empty => selector.identifier is None && selector.role is None
                && selector.subrole is None && selector.label is None && selector.label_contains
                is None,
            SelectorError::NoMatch { selector: words } => words@ == joined(selector.parts(), ", "@)
                && forall|path: Seq<usize>| !#[trigger] matching(root, selector).contains(path),
            SelectorError::IndexOutOfRange { selector: words, index, matches: n } => words@
                == joined(selector.parts(), ", "@) && selector.index == Some(index) && n
                == matching(root, selector).len() && 0 < n <= index,
        },
{
}

/// A description of a selector names each criterion that is set, with its quoted
/// value, and nothing else.
pub proof fn descriptions_name_what_is_set(selector: ElementSelector)
    ensures
        selector.identifier matches Some(s) ==> selector.parts().contains(
            "identifier="@ + quoted(s@),
        ),
        selector.role matches Some(s) ==> selector.parts().contains("role="@ + quoted(s@)),
        selector.subrole matches Some(s) ==> selector.parts().contains("subrole="@ + quoted(s@)),
        selector.label matches Some(s) ==> selector.parts().contains("label="@ + quoted(s@)),
        selector.label_contains matches Some(s) ==> selector.parts().contains(
            "label_contains="@ + quoted(s@),
        ),
        selector.enabled_only ==> selector.parts().contains("enabled_only=true"@),
        selector.index matches Some(n) ==> selector.parts().contains("index="@ + decimal(n as nat)),
        selector.parts().len() == (if selector.identifier is Some { 1int } else { 0 })
            + (if selector.role is Some { 1int } else { 0 })
            + (if selector.subrole is Some { 1int } else { 0 })
            + (if selector.label is Some { 1int } else { 0 })
            + (if selector.label_contains is Some { 1int } else { 0 })
            + (if selector.enabled_only { 1int } else { 0 })
            + (if selector.index is Some { 1int } else { 0 }),
{
    let p0: Seq<Seq<char>> = seq![];
    let p1 = with_part(p0, named_value("identifier="@, selector.identifier));
    let p2 = with_part(p1, named_value("role="@, selector.role));
    let p3 = with_part(p2, named_value("subrole="@, selector.subrole));
    let p4 = with_part(p3, named_value("label="@, selector.label));
    let p5 = with_part(p4, named_value("label_contains="@, selector.label_contains));
    let p6 = with_part(
        p5,
        if selector.enabled_only {
            Some("enabled_only=true"@)
        } else {
            None
        },
    );
    lemma_part_is_held(p0, named_value("identifier="@, selector.identifier));
    lemma_part_is_held(p1, named_value("role="@, selector.role));
    lemma_part_is_held(p2, named_value("subrole="@, selector.subrole));
    lemma_part_is_held(p3, named_value("label="@, selector.label));
    lemma_part_is_held(p4, named_value("label_contains="@, selector.label_contains));
    lemma_part_is_held(
        p5,
        if selector.enabled_only {
            Some("enabled_only=true"@)
        } else {
            None
        },
    );
    lemma_part_is_held(p6, named_index(selector.index));
}

proof fn lemma_part_is_held(parts: Seq<Seq<char>>, part: Option<Seq<char>>)
    ensures
        part matches Some(text) ==> with_part(parts, part).contains(text),
        forall|p: Seq<char>|
            #[trigger] parts.contains(p) ==> with_part(parts, part).contains(p),
{
    if let Some(text) = part {
        assert(parts.push(text)[parts.len() as int] == text);
        assert forall|p: Seq<char>| #[trigger] parts.contains(p) implies parts.push(text).contains(
            p,
        ) by {
            let i = choose|i: int| 0 <= i < parts.len() && parts[i] == p;
            assert(parts.push(text)[i] == p);
        }
    }
}

/// What a failed search says shows the selector, and the numbers that do not fit.
pub proof fn failed_searches_show_the_selector(e: SelectorError)
    ensures
        e is Empty ==> e.said()
            == "element selector is empty: set at least one of identifier, role, subrole, label, label_contains, enabled_only"@,
        e matches SelectorError::NoMatch { selector } ==> e.said()
            == "no element matches selector ("@ + selector@ + ")"@,
        e matches SelectorError::IndexOutOfRange { selector, index, matches: found } ==> e.said()
            == "selector ("@ + selector@ + ") matched "@ + decimal(found as nat)
            + " element(s), so index "@ + decimal(index as nat) + " is out of range"@,
{
}

/// One text in a list, or nothing in place of a text that is not there.
pub open spec fn at_most_one(part: Option<Seq<char>>) -> Seq<Seq<char>> {
    match part {
        Some(text) => seq![text],
        None => seq![],
    }
}

/// The criteria of a selector are described in one order: identifier, role,
/// subrole, label, part of a label, being enabled, and number.
pub proof fn criteria_are_described_in_order(selector: ElementSelector)
    ensures
        ({
            let named = |name: Seq<char>, value: Option<String>|
                match value {
                    Some(s) => Some(name + quoted(s@)),
                    None => None::<Seq<char>>,
                };
            selector.parts() == at_most_one(named("identifier="@, selector.identifier))
                + at_most_one(named("role="@, selector.role)) + at_most_one(
                named("subrole="@, selector.subrole),
            ) + at_most_one(named("label="@, selector.label)) + at_most_one(
                named("label_contains="@, selector.label_contains),
            ) + at_most_one(
                if selector.enabled_only {
                    Some("enabled_only=true"@)
                } else {
                    None
                },
            ) + at_most_one(
                match selector.index {
                    Some(n) => Some("index="@ + decimal(n as nat)),
                    None => None,
                },
            )
        }),
{
    assert forall|parts: Seq<Seq<char>>, part: Option<Seq<char>>|
        #[trigger] with_part(parts, part) == parts + at_most_one(part) by {
        assert(with_part(parts, part) =~= parts + at_most_one(part));
    }
    assert(Seq::<Seq<char>>::empty() + at_most_one(named_value("identifier="@, selector.identifier))
        =~= at_most_one(named_value("identifier="@, selector.identifier)));
}

} // verus!
