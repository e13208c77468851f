//! The accessibility tree, its walk in pre-order, and its text rendering.

use vstd::prelude::*;

use crate::binary64::{Numbers, Real};
use crate::text::{copy_opt, joined, opt_view, texts};

verus! {

/// A position and a size, in fractions of the containing screen or window.
#[derive(Debug, Clone, Copy, PartialEq, Eq, Structural)]
pub struct NormalizedFrame {
    pub x: Real,
    pub y: Real,
    pub width: Real,
    pub height: Real,
}

impl Default for NormalizedFrame {
    /// The empty frame at the origin.
    fn default() -> (r: Self)
        ensures
            r == (NormalizedFrame {
                x: Real { bits: 0 },
                y: Real { bits: 0 },
                width: Real { bits: 0 },
                height: Real { bits: 0 },
            }),
    {
        let zero = Real { bits: 0 };
        NormalizedFrame { x: zero, y: zero, width: zero, height: zero }
    }
}

/// One node of an accessibility tree.
#[derive(Debug, PartialEq, Eq)]
pub struct AxNode {
    /// The role, such as `"AXButton"`.
    pub role: String,
    /// The title, description or value, when the element has one.
    pub label: Option<String>,
    pub frame: NormalizedFrame,
    /// Whether the element can take keyboard focus.
    pub focusable: bool,
    /// Whether the element offers an action.
    pub interactive: bool,
    /// Whether the app reports the element as enabled.
    pub enabled: bool,
    pub subrole: Option<String>,
    pub role_description: Option<String>,
    /// The identifier that the app's developer gave the element.
    pub identifier: Option<String>,
    pub help: Option<String>,
    /// The names of the actions that the element offers.
    pub actions: Vec<String>,
    pub children: Vec<AxNode>,
}

impl Default for AxNode {
    /// An enabled node with nothing else set.
    fn default() -> (r: Self)
        ensures
            r.role@ == Seq::<char>::empty(),
            r.label is None,
            r.frame == (NormalizedFrame {
                x: Real { bits: 0 },
                y: Real { bits: 0 },
                width: Real { bits: 0 },
                height: Real { bits: 0 },
            }),
            r.enabled && !r.focusable && !r.interactive,
            r.subrole is None && r.role_description is None && r.identifier is None && r.help
                is None,
            r.actions@.len() == 0,
            r.children@.len() == 0,
    {
        AxNode {
            role: String::new(),
            label: None,
            frame: NormalizedFrame::default(),
            focusable: false,
            interactive: false,
            enabled: true,
            subrole: None,
            role_description: None,
            identifier: None,
            help: None,
            actions: Vec::new(),
            children: Vec::new(),
        }
    }
}

impl AxNode {
    /// Whether two trees hold the same values throughout.
    pub open spec fn same_tree(self, other: AxNode) -> bool
        decreases self,
    {
        &&& self.role@ == other.role@
        &&& opt_view(self.label) == opt_view(other.label)
        &&& self.frame == other.frame
        &&& self.focusable == other.focusable
        &&& self.interactive == other.interactive
        &&& self.enabled == other.enabled
        &&& opt_view(self.subrole) == opt_view(other.subrole)
        &&& opt_view(self.role_description) == opt_view(other.role_description)
        &&& opt_view(self.identifier) == opt_view(other.identifier)
        &&& opt_view(self.help) == opt_view(other.help)
        &&& texts(self.actions@) == texts(other.actions@)
        &&& self.children@.len() == other.children@.len()
        &&& forall|i: int|
            0 <= i < self.children@.len() ==> (#[trigger] self.children@[i]).same_tree(
                other.children@[i],
            )
    }
}

impl Clone for AxNode {
    fn clone(&self) -> (r: Self)
        ensures
            self.same_tree(r),
        decreases self,
    {
        let mut children: Vec<AxNode> = Vec::new();
        let mut i: usize = 0;
        while i < self.children.len()
            invariant
                i <= self.children@.len(),
                children@.len() == i,
                forall|k: int|
                    0 <= k < i ==> (#[trigger] self.children@[k]).same_tree(children@[k]),
            decreases self.children@.len() - i,
        {
            assert(decreases_to!(*self => self.children@[i as int]));
            children.push(self.children[i].clone());
            i += 1;
        }
        AxNode {
            role: self.role.clone(),
            label: copy_opt(&self.label),
            frame: self.frame,
            focusable: self.focusable,
            interactive: self.interactive,
            enabled: self.enabled,
            subrole: copy_opt(&self.subrole),
            role_description: copy_opt(&self.role_description),
            identifier: copy_opt(&self.identifier),
            help: copy_opt(&self.help),
            actions: crate::text::copy_all(&self.actions),
            children,
        }
    }
}

/// One node of a tree in a pre-order list, with its depth.
#[derive(Debug, Clone, PartialEq, Eq)]
pub struct FlatAxNode {
    /// How many ancestors the node has.
    pub depth: usize,
    pub role: String,
    pub label: Option<String>,
    pub frame: NormalizedFrame,
    pub focusable: bool,
    pub interactive: bool,
}

// ---- the walk ---------------------------------------------------------------

/// The nodes of a tree in pre-order, each with the child indices that lead
/// to it. A node comes before its descendants, and its children come in
/// their own order.
pub open spec fn walk(node: AxNode, path: Seq<usize>) -> Seq<(Seq<usize>, AxNode)>
    decreases node, 0int,
{
    seq![(path, node)] + walk_children(node.children@, path, node.children@.len() as int)
}

/// The walks of the first `n` children, one after the other.
pub open spec fn walk_children(children: Seq<AxNode>, path: Seq<usize>, n: int) -> Seq<
    (Seq<usize>, AxNode),
>
    decreases children, n,
{
    if n <= 0 || n > children.len() {
        seq![]
    } else {
        walk_children(children, path, n - 1) + walk(children[n - 1], path.push((n - 1) as usize))
    }
}

/// The node that a path of child indices leads to.
pub open spec fn node_along(root: AxNode, path: Seq<usize>) -> Option<AxNode>
    decreases path.len(),
{
    if path.len() == 0 {
        Some(root)
    } else if path[0] < root.children@.len() {
        node_along(root.children@[path[0] as int], path.skip(1))
    } else {
        None
    }
}

/// Whether a flat node describes `node` at `depth`.
pub open spec fn describes(flat: FlatAxNode, depth: nat, node: AxNode) -> bool {
    &&& flat.depth == depth
    &&& flat.role@ == node.role@
    &&& opt_view(flat.label) == opt_view(node.label)
    &&& flat.frame == node.frame
    &&& flat.focusable == node.focusable
    &&& flat.interactive == node.interactive
}

/// Whether a list of flat nodes describes a walk, node by node. The depth of
/// each one is the length of its path below `above` ancestors.
pub open spec fn describes_all(
    flats: Seq<FlatAxNode>,
    walked: Seq<(Seq<usize>, AxNode)>,
    above: int,
) -> bool {
    flats.len() == walked.len() && forall|i: int|
        #![trigger flats[i]]
        #![trigger walked[i]]
        0 <= i < flats.len() ==> {
            &&& walked[i].0.len() + above >= 0
            &&& describes(flats[i], (walked[i].0.len() + above) as nat, walked[i].1)
        }
}

/// Lists the nodes of a tree in pre-order, with their depths.
pub fn flatten(root: &AxNode) -> (out: Vec<FlatAxNode>)
    ensures
        describes_all(out@, walk(*root, seq![]), 0),
{
    let mut out: Vec<FlatAxNode> = Vec::new();
    flatten_into(root, 0, &mut out, Ghost(Seq::<usize>::empty()));
    assert(out@.skip(0) =~= out@);
    out
}

fn flatten_into(node: &AxNode, depth: usize, out: &mut Vec<FlatAxNode>, Ghost(path): Ghost<Seq<usize>>)
    requires
        depth <= old(out)@.len(),
    ensures
        final(out)@.len() >= old(out)@.len(),
        final(out)@.take(old(out)@.len() as int) == old(out)@,
        describes_all(
            final(out)@.skip(old(out)@.len() as int),
            walk(*node, path),
            depth - path.len(),
        ),
    decreases node,
{
    let ghost before = out@;
    out.push(
        FlatAxNode {
            depth,
            role: node.role.clone(),
            label: copy_opt(&node.label),
            frame: node.frame,
            focusable: node.focusable,
            interactive: node.interactive,
        },
    );
    let ghost above = depth - path.len();
    let ghost mut done: Seq<(Seq<usize>, AxNode)> = seq![(path, *node)];
    let mut i: usize = 0;
    assert(describes_all(out@.skip(before.len() as int), done, above));
    assert(done =~= seq![(path, *node)] + walk_children(node.children@, path, 0));
    while i < node.children.len()
        invariant
            i <= node.children@.len(),
            depth < out@.len(),
            above == depth - path.len(),
            out@.len() >= before.len(),
            out@.take(before.len() as int) == before,
            done == seq![(path, *node)] + walk_children(node.children@, path, i as int),
            describes_all(out@.skip(before.len() as int), done, above),
        decreases node.children@.len() - i,
    {
        let ghost middle = out@;
        let ghost below = path.push(i);
        assert(decreases_to!(*node => node.children@[i as int]));
        assert(out.len() > depth);
        flatten_into(&node.children[i], depth + 1, out, Ghost(below));
        proof {
            let part = walk(node.children@[i as int], below);
            let flats = out@.skip(before.len() as int);
            let first = middle.skip(before.len() as int);
            let second = out@.skip(middle.len() as int);
            assert(out@ =~= middle + second);
            assert(flats =~= first + second);
            assert(out@.take(before.len() as int) =~= before);
            assert(walk_children(node.children@, path, i + 1) == walk_children(
                node.children@,
                path,
                i as int,
            ) + part);
            let grown = done + part;
            assert(grown =~= seq![(path, *node)] + walk_children(node.children@, path, i + 1));
            assert forall|k: int|
                #![trigger flats[k]]
                0 <= k < flats.len() implies grown[k].0.len() + above >= 0 && describes(
                flats[k],
                (grown[k].0.len() + above) as nat,
                grown[k].1,
            ) by {
                if k < first.len() {
                    assert(flats[k] == first[k] && grown[k] == done[k]);
                } else {
                    let j = k - first.len();
                    assert(flats[k] == second[j] && grown[k] == part[j]);
                }
            }
            assert(describes_all(flats, grown, above));
            done = grown;
        }
        i += 1;
    }
}

// ---- the text rendering -----------------------------------------------------

/// Two spaces for each level of depth.
pub open spec fn indent(depth: nat) -> Seq<char> {
    Seq::new(2 * depth, |i: int| ' ')
}

/// The flags of a node, when it has any.
pub open spec fn flag_text(focusable: bool, interactive: bool) -> Seq<char> {
    if focusable && interactive {
        " [focusable,interactive]"@
    } else if focusable {
        " [focusable]"@
    } else if interactive {
        " [interactive]"@
    } else {
        ""@
    }
}

/// Whether `line` shows `node` at `depth`: indentation, role, quoted label,
/// frame to two decimals, flags.
pub open spec fn shows<N: Numbers>(
    numbers: &N,
    depth: nat,
    node: AxNode,
    line: Seq<char>,
) -> bool {
    exists|x: String, y: String, w: String, h: String|
        #[trigger] call_ensures(N::shown_to_hundredths, (numbers, node.frame.x), x)
            && #[trigger] call_ensures(N::shown_to_hundredths, (numbers, node.frame.y), y)
            && #[trigger] call_ensures(N::shown_to_hundredths, (numbers, node.frame.width), w)
            && #[trigger] call_ensures(N::shown_to_hundredths, (numbers, node.frame.height), h)
            && line == indent(depth) + node.role@ + " \""@ + (match opt_view(node.label) {
            Some(label) => label,
            None => seq![],
        }) + "\" ("@ + x@ + ","@ + y@ + ","@ + w@ + ","@ + h@ + ")"@ + flag_text(
            node.focusable,
            node.interactive,
        )
}

/// Whether the lines show the nodes of a tree, one each, in pre-order.
pub open spec fn rendered<N: Numbers>(numbers: &N, root: AxNode, lines: Seq<Seq<char>>) -> bool {
    lines.len() == walk(root, seq![]).len() && forall|i: int|
        0 <= i < lines.len() ==> #[trigger] shows(
            numbers,
            walk(root, seq![])[i].0.len(),
            walk(root, seq![])[i].1,
            lines[i],
        )
}

/// Renders a tree as one indented line per node, in pre-order.
pub fn format_tree<N: Numbers>(numbers: &N, root: &AxNode) -> (out: String)
    ensures
        exists|lines: Seq<Seq<char>>|
            #[trigger] rendered(numbers, *root, lines) && out@ == joined(lines, "\n"@),
{
    let flats = flatten(root);
    let ghost walked = walk(*root, seq![]);
    let mut lines: Vec<String> = Vec::new();
    let mut i: usize = 0;
    while i < flats.len()
        invariant
            i <= flats@.len(),
            lines@.len() == i,
            describes_all(flats@, walked, 0),
            forall|k: int|
                0 <= k < i ==> #[trigger] shows(
                    numbers,
                    walked[k].0.len(),
                    walked[k].1,
                    texts(lines@)[k],
                ),
        decreases flats@.len() - i,
    {
        let ghost before = lines@;
        assert(describes(flats@[i as int], walked[i as int].0.len(), walked[i as int].1));
        let line = format_flat_node(
            numbers,
            &flats[i],
            Ghost(walked[i as int].1),
        );
        lines.push(line);
        i += 1;
        proof {
            crate::text::lemma_texts_push(before, line);
            assert forall|k: int| 0 <= k < i implies #[trigger] shows(
                numbers,
                walked[k].0.len(),
                walked[k].1,
                texts(lines@)[k],
            ) by {
                if k < i - 1 {
                    assert(texts(lines@)[k] == texts(before)[k]);
                }
            }
        }
    }
    assert(rendered(numbers, *root, texts(lines@)));
    crate::text::join(&lines, "\n")
}

fn format_flat_node<N: Numbers>(numbers: &N, flat: &FlatAxNode, Ghost(node): Ghost<AxNode>) -> (line:
    String)
    requires
        describes(*flat, flat.depth as nat, node),
    ensures
        shows(numbers, flat.depth as nat, node, line@),
{
    let x = numbers.shown_to_hundredths(flat.frame.x);
    let y = numbers.shown_to_hundredths(flat.frame.y);
    let w = numbers.shown_to_hundredths(flat.frame.width);
    let h = numbers.shown_to_hundredths(flat.frame.height);
    let mut line = indentation(flat.depth);
    line.append(&flat.role);
    line.append(" \"");
    match &flat.label {
        Some(label) => line.append(label),
        None => {
            assert(line@ + seq![] =~= line@);
        },
    }
    line.append("\" (");
    line.append(&x);
    line.append(",");
    line.append(&y);
    line.append(",");
    line.append(&w);
    line.append(",");
    line.append(&h);
    line.append(")");
    if flat.focusable && flat.interactive {
        line.append(" [focusable,interactive]");
    } else if flat.focusable {
        line.append(" [focusable]");
    } else if flat.interactive {
        line.append(" [interactive]");
    } else {
        line.append("");
    }
    line
}

fn indentation(depth: usize) -> (out: String)
    ensures
        out@ == indent(depth as nat),
{
    let mut out = String::new();
    let mut i: usize = 0;
    while i < depth
        invariant
            i <= depth,
            out@ == indent(i as nat),
        decreases depth - i,
    {
        out.push(' ');
        out.push(' ');
        i += 1;
    }
    out
}

// ---- laws -------------------------------------------------------------------

/// Every entry of a walk is the node that its path leads to, below the path
/// that the walk started with.
pub proof fn walk_paths_resolve(node: AxNode, path: Seq<usize>, i: int)
    requires
        0 <= i < walk(node, path).len(),
    ensures
        walk(node, path)[i].0.len() >= path.len(),
        walk(node, path)[i].0.take(path.len() as int) == path,
        node_along(node, walk(node, path)[i].0.skip(path.len() as int)) == Some(
            walk(node, path)[i].1,
        ),
    decreases node, 0int,
{
    if i == 0 {
        assert(path.skip(path.len() as int) =~= seq![]);
        assert(path.take(path.len() as int) =~= path);
    } else {
        let n = node.children@.len() as int;
        assert(node.children.len() <= usize::MAX);
        walk_children_resolve(node.children@, path, n, i - 1);
        let k = i - 1;
        let entry = walk_children(node.children@, path, n)[k];
        assert(walk(node, path)[i] == entry);
        let c = choose|c: int|
            0 <= c < n && entry.0.len() > path.len() && entry.0[path.len() as int] == c
                && node_along(node.children@[c], entry.0.skip(path.len() as int + 1)) == Some(entry.1);
        let tail = entry.0.skip(path.len() as int);
        assert(tail.skip(1) =~= entry.0.skip(path.len() as int + 1));
        assert(tail[0] == c);
    }
}

proof fn walk_children_resolve(children: Seq<AxNode>, path: Seq<usize>, n: int, i: int)
    requires
        0 <= n <= children.len(),
        children.len() <= usize::MAX,
        0 <= i < walk_children(children, path, n).len(),
    ensures
        ({
            let entry = walk_children(children, path, n)[i];
            &&& entry.0.len() > path.len()
            &&& entry.0.take(path.len() as int) == path
            &&& exists|c: int|
                0 <= c < n && entry.0[path.len() as int] == c && #[trigger] node_along(
                    children[c],
                    entry.0.skip(path.len() as int + 1),
                ) == Some(entry.1)
        }),
    decreases children, n,
{
    let entry = walk_children(children, path, n)[i];
    let earlier = walk_children(children, path, n - 1);
    if i < earlier.len() {
        walk_children_resolve(children, path, n - 1, i);
        assert(entry == earlier[i]);
    } else {
        let below = path.push((n - 1) as usize);
        let j = i - earlier.len();
        walk_paths_resolve(children[n - 1], below, j);
        assert(entry == walk(children[n - 1], below)[j]);
        assert(entry.0.take(path.len() as int) =~= below.take(path.len() as int)) by {
            assert(entry.0.take(below.len() as int) == below);
            assert forall|q: int| 0 <= q < path.len() implies entry.0[q] == below[q] by {
                assert(entry.0.take(below.len() as int)[q] == below[q]);
            }
        }
        assert(below.take(path.len() as int) =~= path);
        assert(entry.0[path.len() as int] == n - 1) by {
            assert(entry.0.take(below.len() as int)[path.len() as int] == below[path.len() as int]);
        }
        assert(node_along(children[n - 1], entry.0.skip(path.len() as int + 1)) == Some(entry.1));
    }
}

/// Whether path `p` comes before path `q`: it is an ancestor's path, or it
/// turns to an earlier child where the two part.
pub open spec fn precedes(p: Seq<usize>, q: Seq<usize>) -> bool {
    exists|k: int| #[trigger] parts_at(p, q, k)
}

/// Whether `p` and `q` agree up to position `k`, and `p` is the earlier one
/// from there on.
pub open spec fn parts_at(p: Seq<usize>, q: Seq<usize>, k: int) -> bool {
    0 <= k <= p.len() && k < q.len() && p.take(k) == q.take(k) && (k == p.len() || p[k] < q[k])
}

/// A walk is in pre-order: of two entries, the earlier one is an ancestor of
/// the later one, or stands under an earlier child where the two part. So no
/// path occurs twice.
pub proof fn walk_is_preorder(node: AxNode, path: Seq<usize>, i: int, j: int)
    requires
        0 <= i < j < walk(node, path).len(),
    ensures
        precedes(walk(node, path)[i].0, walk(node, path)[j].0),
        walk(node, path)[i].0 != walk(node, path)[j].0,
    decreases node, 0int,
{
    let p = walk(node, path)[i].0;
    let q = walk(node, path)[j].0;
    let n = node.children@.len() as int;
    assert(node.children.len() <= usize::MAX);
    if i == 0 {
        walk_children_resolve(node.children@, path, n, j - 1);
        assert(walk(node, path)[j] == walk_children(node.children@, path, n)[j - 1]);
        assert(p.take(path.len() as int) =~= path);
        assert(parts_at(p, q, path.len() as int));
    } else {
        walk_children_preorder(node.children@, path, n, i - 1, j - 1);
        assert(walk(node, path)[i] == walk_children(node.children@, path, n)[i - 1]);
        assert(walk(node, path)[j] == walk_children(node.children@, path, n)[j - 1]);
    }
    let k = choose|k: int| parts_at(p, q, k);
    if p == q {
        assert(p[k] < q[k]);
    }
}

proof fn walk_children_preorder(children: Seq<AxNode>, path: Seq<usize>, n: int, i: int, j: int)
    requires
        0 <= n <= children.len(),
        children.len() <= usize::MAX,
        0 <= i < j < walk_children(children, path, n).len(),
    ensures
        precedes(walk_children(children, path, n)[i].0, walk_children(children, path, n)[j].0),
    decreases children, n,
{
    let walked = walk_children(children, path, n);
    let earlier = walk_children(children, path, n - 1);
    let below = path.push((n - 1) as usize);
    let last = walk(children[n - 1], below);
    assert(walked == earlier + last);
    if j < earlier.len() {
        walk_children_preorder(children, path, n - 1, i, j);
    } else if i >= earlier.len() {
        walk_is_preorder(children[n - 1], below, i - earlier.len(), j - earlier.len());
    } else {
        walk_children_resolve(children, path, n - 1, i);
        walk_paths_resolve(children[n - 1], below, j - earlier.len());
        let p = walked[i].0;
        let q = walked[j].0;
        let at = path.len() as int;
        assert(q.take(below.len() as int) == below);
        assert(q[at] == below[at]) by {
            assert(q.take(below.len() as int)[at] == below[at]);
        }
        assert(q.take(at) =~= path) by {
            assert forall|m: int| 0 <= m < at implies q[m] == path[m] by {
                assert(q.take(below.len() as int)[m] == below[m]);
            }
        }
        assert(parts_at(p, q, at));
    }
}

/// A walk misses nothing: every path that leads to a node occurs in it.
pub proof fn walk_is_complete(node: AxNode, path: Seq<usize>, below: Seq<usize>)
    requires
        node_along(node, below) is Some,
    ensures
        exists|i: int|
            0 <= i < walk(node, path).len() && #[trigger] walk(node, path)[i] == (
                path + below,
                node_along(node, below)->0,
            ),
    decreases below.len(),
{
    if below.len() == 0 {
        assert(path + below =~= path);
        assert(walk(node, path)[0] == (path, node));
    } else {
        let c = below[0] as int;
        let n = node.children@.len() as int;
        let rest = below.skip(1);
        let turned = path.push(below[0]);
        walk_is_complete(node.children@[c], turned, rest);
        let part = walk(node.children@[c], turned);
        let k = choose|k: int|
            0 <= k < part.len() && part[k] == (turned + rest, node_along(node, below)->0);
        assert(turned + rest =~= path + below);
        walk_children_hold(node.children@, path, n, c);
        let at = walk_children(node.children@, path, c).len() + k;
        assert(walk_children(node.children@, path, n)[at] == part[k]);
        assert(walk(node, path)[at + 1] == part[k]);
    }
}

proof fn walk_children_hold(children: Seq<AxNode>, path: Seq<usize>, n: int, c: int)
    requires
        0 <= c < n <= children.len(),
    ensures
        ({
            let start = walk_children(children, path, c).len();
            let part = walk(children[c], path.push(c as usize));
            let all = walk_children(children, path, n);
            start + part.len() <= all.len() && forall|k: int|
                0 <= k < part.len() ==> all[start + k] == #[trigger] part[k]
        }),
    decreases n,
{
    if c < n - 1 {
        walk_children_hold(children, path, n - 1, c);
    }
}

/// Pre-order is an order: no path comes before another that comes before it, nor
/// before itself.
pub proof fn preorder_has_no_cycle(p: Seq<usize>, q: Seq<usize>)
    ensures
        !(precedes(p, q) && precedes(q, p)),
{
    if precedes(p, q) && precedes(q, p) {
        let k = choose|k: int| parts_at(p, q, k);
        let m = choose|m: int| parts_at(q, p, m);
        if k < m {
            assert(q.take(m)[k] == p.take(m)[k]);
        } else if m < k {
            assert(p.take(k)[m] == q.take(k)[m]);
        }
    }
}

/// A text without a character holds no text that starts with it.
proof fn lemma_lacks(text: Seq<char>, needle: Seq<char>)
    requires
        needle.len() > 0,
        !text.contains(needle[0]),
    ensures
        !crate::text::contains(text, needle),
{
    assert forall|at: int| !crate::text::occurs_at(text, needle, at) by {
        if crate::text::occurs_at(text, needle, at) {
            assert(text.subrange(at, at + needle.len())[0] == text[at]);
        }
    }
}

/// The flags say what the node is: the word "focusable" shows exactly when it is
/// focusable, and the word "interactive" exactly when it is interactive.
proof fn lemma_flags(focusable: bool, interactive: bool)
    ensures
        crate::text::contains(flag_text(focusable, interactive), "focusable"@) <==> focusable,
        crate::text::contains(flag_text(focusable, interactive), "interactive"@) <==> interactive,
        !flag_text(focusable, interactive).contains(')'),
        flag_text(focusable, interactive).len() == 0 <==> !focusable && !interactive,
        flag_text(focusable, interactive).len() > 0 ==> flag_text(focusable, interactive)[0] == ' '
            && flag_text(focusable, interactive)[1] == '[' && flag_text(
            focusable,
            interactive,
        ).last() == ']',
{
    reveal_strlit(" [focusable,interactive]");
    reveal_strlit(" [focusable]");
    reveal_strlit(" [interactive]");
    reveal_strlit("");
    reveal_strlit("focusable");
    reveal_strlit("interactive");
    let flags = flag_text(focusable, interactive);
    if focusable {
        assert(flags.subrange(2, 11) =~= "focusable"@);
        assert(crate::text::occurs_at(flags, "focusable"@, 2));
        if interactive {
            assert(flags.subrange(12, 23) =~= "interactive"@);
            assert(crate::text::occurs_at(flags, "interactive"@, 12));
        } else {
            lemma_lacks(flags, "interactive"@);
        }
    } else {
        lemma_lacks(flags, "focusable"@);
        if interactive {
            assert(flags.subrange(2, 13) =~= "interactive"@);
            assert(crate::text::occurs_at(flags, "interactive"@, 2));
        } else {
            lemma_lacks(flags, "interactive"@);
        }
    }
}

/// The line of a node starts with two spaces for each level of its depth, and
/// then its role. Behind its frame, of which the place comes before the size,
/// stand its flags: the word "focusable" exactly when the node is focusable, and
/// the word "interactive" exactly when it is interactive.
pub proof fn lines_say_what_the_node_is<N: Numbers>(
    numbers: &N,
    depth: nat,
    node: AxNode,
    line: Seq<char>,
)
    requires
        shows(numbers, depth, node, line),
    ensures
        line.len() > 2 * depth + node.role@.len(),
        forall|i: int| 0 <= i < 2 * depth ==> #[trigger] line[i] == ' ',
        line.subrange((2 * depth) as int, (2 * depth + node.role@.len()) as int) == node.role@,
        exists|head: Seq<char>, flags: Seq<char>|
            {
                &&& line == #[trigger] (head + flags)
                &&& head.last() == ')'
                &&& !flags.contains(')')
                &&& crate::text::contains(flags, "focusable"@) <==> node.focusable
                &&& crate::text::contains(flags, "interactive"@) <==> node.interactive
                &&& exists|x: String, y: String, w: String, h: String|
                    {
                        &&& #[trigger] call_ensures(
                            N::shown_to_hundredths,
                            (numbers, node.frame.x),
                            x,
                        )
                        &&& #[trigger] call_ensures(
                            N::shown_to_hundredths,
                            (numbers, node.frame.y),
                            y,
                        )
                        &&& #[trigger] call_ensures(
                            N::shown_to_hundredths,
                            (numbers, node.frame.width),
                            w,
                        )
                        &&& #[trigger] call_ensures(
                            N::shown_to_hundredths,
                            (numbers, node.frame.height),
                            h,
                        )
                        &&& head.skip((2 * depth + node.role@.len()) as int) == seq![' ', '"'] + (
                        match node.label {
                            Some(label) => label@,
                            None => seq![],
                        }) + seq!['"', ' ', '('] + x@ + seq![','] + y@ + seq![','] + w@ + seq![',']
                            + h@ + seq![')']
                    }
            },
{
    reveal_strlit(" \"");
    reveal_strlit("\" (");
    reveal_strlit(",");
    reveal_strlit(")");
    let (x, y, w, h) = choose|x: String, y: String, w: String, h: String|
        #[trigger] call_ensures(N::shown_to_hundredths, (numbers, node.frame.x), x)
            && #[trigger] call_ensures(N::shown_to_hundredths, (numbers, node.frame.y), y)
            && #[trigger] call_ensures(N::shown_to_hundredths, (numbers, node.frame.width), w)
            && #[trigger] call_ensures(N::shown_to_hundredths, (numbers, node.frame.height), h)
            && line == indent(depth) + node.role@ + " \""@ + (match opt_view(node.label) {
            Some(label) => label,
            None => seq![],
        }) + "\" ("@ + x@ + ","@ + y@ + ","@ + w@ + ","@ + h@ + ")"@ + flag_text(
            node.focusable,
            node.interactive,
        );
    let shown = match opt_view(node.label) {
        Some(label) => label,
        None => seq![],
    };
    let flags = flag_text(node.focusable, node.interactive);
    let head = indent(depth) + node.role@ + " \""@ + shown + "\" ("@ + x@ + ","@ + y@ + ","@ + w@
        + ","@ + h@ + ")"@;
    lemma_flags(node.focusable, node.interactive);
    assert(line =~= head + flags);
    let front = indent(depth) + node.role@;
    let back = seq![' ', '"'] + shown + seq!['"', ' ', '('] + x@ + seq![','] + y@ + seq![','] + w@
        + seq![','] + h@ + seq![')'];
    assert(" \""@ =~= seq![' ', '"']);
    assert("\" ("@ =~= seq!['"', ' ', '(']);
    assert(","@ =~= seq![',']);
    assert(")"@ =~= seq![')']);
    assert(head =~= front + back);
    assert(head.skip((2 * depth + node.role@.len()) as int) =~= back);
    assert(head.last() == ')');
    assert(front.len() == (2 * depth + node.role@.len()) as int);
    assert forall|i: int| 0 <= i < 2 * depth implies #[trigger] line[i] == ' ' by {
        assert(line[i] == front[i]);
    }
    assert(line.subrange((2 * depth) as int, (2 * depth + node.role@.len()) as int) =~= node.role@);
}

/// A rendering has one line for each element of the tree, and no other. Each
/// element's line shows it at the depth of its path, and an element that comes
/// first in pre-order is shown first.
pub proof fn each_element_has_its_line<N: Numbers>(
    numbers: &N,
    root: AxNode,
    lines: Seq<Seq<char>>,
    p: Seq<usize>,
    q: Seq<usize>,
) -> (at: (int, int))
    requires
        rendered(numbers, root, lines),
        node_along(root, p) is Some,
        node_along(root, q) is Some,
    ensures
        0 <= at.0 < lines.len() && 0 <= at.1 < lines.len(),
        shows(numbers, p.len(), node_along(root, p)->0, lines[at.0]),
        shows(numbers, q.len(), node_along(root, q)->0, lines[at.1]),
        precedes(p, q) <==> at.0 < at.1,
        p == q <==> at.0 == at.1,
{
    let walked = walk(root, seq![]);
    let none: Seq<usize> = seq![];
    walk_is_complete(root, none, p);
    walk_is_complete(root, none, q);
    assert(none + p =~= p && none + q =~= q);
    let i = choose|i: int| 0 <= i < walked.len() && walked[i] == (p, node_along(root, p)->0);
    let j = choose|j: int| 0 <= j < walked.len() && walked[j] == (q, node_along(root, q)->0);
    if i < j {
        walk_is_preorder(root, none, i, j);
    } else if j < i {
        walk_is_preorder(root, none, j, i);
    }
    preorder_has_no_cycle(p, q);
    preorder_has_no_cycle(p, p);
    assert(shows(numbers, walked[i].0.len(), walked[i].1, lines[i]));
    assert(shows(numbers, walked[j].0.len(), walked[j].1, lines[j]));
    (i, j)
}

/// A flat list keeps every element: the entry of the element that a path leads
/// to has the length of that path as its depth, and the element's own role,
/// label, frame and flags.
pub proof fn flat_lists_keep_every_element(
    root: AxNode,
    flats: Seq<FlatAxNode>,
    path: Seq<usize>,
) -> (at: int)
    requires
        describes_all(flats, walk(root, seq![]), 0),
        node_along(root, path) is Some,
    ensures
        0 <= at < flats.len() == walk(root, seq![]).len(),
        flats[at].depth == path.len(),
        flats[at].role@ == node_along(root, path)->0.role@,
        flats[at].label is Some <==> node_along(root, path)->0.label is Some,
        flats[at].label matches Some(label) ==> label@ == node_along(root, path)->0.label->0@,
        flats[at].frame == node_along(root, path)->0.frame,
        flats[at].focusable == node_along(root, path)->0.focusable,
        flats[at].interactive == node_along(root, path)->0.interactive,
{
    let walked = walk(root, seq![]);
    let none: Seq<usize> = seq![];
    walk_is_complete(root, none, path);
    assert(none + path =~= path);
    let i = choose|i: int| 0 <= i < walked.len() && walked[i] == (path, node_along(root, path)->0);
    assert(describes(flats[i], walked[i].0.len(), walked[i].1));
    i
}

/// A copy of a tree has the same element along every path, with the same
/// attributes.
pub proof fn copies_keep_every_element(a: AxNode, b: AxNode, path: Seq<usize>)
    requires
        a.same_tree(b),
    ensures
        node_along(a, path) is Some <==> node_along(b, path) is Some,
        node_along(a, path) matches Some(m) ==> (node_along(b, path) matches Some(n) && {
            &&& m.role@ == n.role@
            &&& opt_view(m.label) == opt_view(n.label)
            &&& m.frame == n.frame
            &&& m.focusable == n.focusable && m.interactive == n.interactive && m.enabled
                == n.enabled
            &&& opt_view(m.subrole) == opt_view(n.subrole)
            &&& opt_view(m.role_description) == opt_view(n.role_description)
            &&& opt_view(m.identifier) == opt_view(n.identifier)
            &&& opt_view(m.help) == opt_view(n.help)
            &&& texts(m.actions@) == texts(n.actions@)
            &&& m.children@.len() == n.children@.len()
        }),
    decreases path.len(),
{
    if path.len() > 0 && path[0] < a.children@.len() {
        let i = path[0] as int;
        assert(a.children@[i].same_tree(b.children@[i]));
        copies_keep_every_element(a.children@[i], b.children@[i], path.skip(1));
    }
}

} // verus!
