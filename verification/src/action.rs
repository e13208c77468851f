//! Performing an element's own accessibility action.

use vstd::prelude::*;

use crate::ax::{node_along, AxNode};
use crate::error::PolarizeError;
use crate::platform::{Call, Platform};
use crate::schema::{app_view, as_opt_ref, opt_ref, AppIdentifier};
use crate::selector::{
    find_one, found_one, named_value, node_at_path, push_named, with_part, ElementPath,
    ElementSelector,
};
use crate::text::{any_same, copy_opt, decimal, join, joined, opt_view, quote, quoted, texts};
use crate::traits::{AccessibilityInspector, ActionPerformer, ResolvedApp};

verus! {

/// The action that a request asks for when it names none.
pub const DEFAULT_ACTION: &'static str = "AXPress";

/// Performs an action of one element.
#[derive(Debug, Clone, PartialEq, Eq)]
pub struct PerformActionRequest {
    /// `None` for the frontmost app.
    pub app: Option<AppIdentifier>,
    pub selector: ElementSelector,
    /// `None` for the default action.
    pub action: Option<String>,
}

impl Default for PerformActionRequest {
    /// The default action, on an element that no criterion names.
    fn default() -> (r: Self)
        ensures
            r.app is None,
            r.selector.names_nothing(),
            !r.selector.enabled_only,
            r.selector.index is None,
            r.action is None,
    {
        PerformActionRequest { app: None, selector: ElementSelector::default(), action: None }
    }
}

/// The element that performed its action.
#[derive(Debug, Clone, PartialEq, Eq)]
pub struct PerformActionResponse {
    pub performed: bool,
    pub action: String,
    /// The child indices of the element, from the tree's root.
    pub path: ElementPath,
    pub role: String,
    pub label: Option<String>,
}

/// Why an element was not asked to act.
#[derive(Debug, Clone, PartialEq, Eq)]
pub enum ActionError {
    /// The element does not offer the action.
    UnsupportedAction { element: String, action: String, offered: String },
    /// The element is disabled.
    Disabled { element: String, action: String },
    /// A resolved path leads to no node of the same tree.
    PathNotResolved { path: ElementPath },
}

/// The numbers of a path in square brackets.
pub open spec fn path_text(path: Seq<usize>) -> Seq<char> {
    "["@ + joined(path.map_values(|i: usize| decimal(i as nat)), ", "@) + "]"@
}

/// The numbers of a path in square brackets.
pub(crate) fn show_path(path: &[usize]) -> (out: String)
    ensures
        out@ == path_text(path@),
{
    let mut parts: Vec<String> = Vec::new();
    let ghost all = path@.map_values(|i: usize| decimal(i as nat));
    let mut i: usize = 0;
    while i < path.len()
        invariant
            i <= path@.len(),
            all == path@.map_values(|i: usize| decimal(i as nat)),
            texts(parts@) == all.take(i as int),
        decreases path@.len() - i,
    {
        let part = crate::text::decimal_text(path[i] as u64);
        proof {
            crate::text::lemma_texts_push(parts@, part);
            assert(all.take(i + 1) =~= all.take(i as int).push(part@));
        }
        parts.push(part);
        i += 1;
    }
    assert(texts(parts@) =~= all);
    let mut out = "[".to_owned();
    out.append(&join(&parts, ", "));
    out.append("]");
    out
}

impl ActionError {
    /// What the error says.
    pub open spec fn said(self) -> Seq<char> {
        match self {
            ActionError::UnsupportedAction { element, action, offered } => "element ("@ + element@
                + ") does not offer action "@ + quoted(action@) + "; it offers ["@ + offered@ + "]"@,
            ActionError::Disabled { element, action } => "element ("@ + element@
                + ") is disabled, so it cannot perform action "@ + quoted(action@),
            ActionError::PathNotResolved { path } => "element path "@ + path_text(path@)
                + " does not resolve to a node"@,
        }
    }

    /// The error in words.
    pub fn message(&self) -> (out: String)
        ensures
            out@ == self.said(),
    {
        match self {
            ActionError::UnsupportedAction { element, action, offered } => {
                let mut out = "element (".to_owned();
                out.append(element);
                out.append(") does not offer action ");
                out.append(&quote(action));
                out.append("; it offers [");
                out.append(offered);
                out.append("]");
                out
            },
            ActionError::Disabled { element, action } => {
                let mut out = "element (".to_owned();
                out.append(element);
                out.append(") is disabled, so it cannot perform action ");
                out.append(&quote(action));
                out
            },
            ActionError::PathNotResolved { path } => {
                let mut out = "element path ".to_owned();
                out.append(&show_path(path));
                out.append(" does not resolve to a node");
                out
            },
        }
    }
}

/// A node in words: its role, then its label and its identifier when it has
/// them.
pub open spec fn node_text(node: AxNode) -> Seq<char> {
    let p1 = seq!["role="@ + quoted(node.role@)];
    let p2 = with_part(p1, named_value("label="@, node.label));
    joined(with_part(p2, named_value("identifier="@, node.identifier)), ", "@)
}

/// A node in words, for an error message.
pub(crate) fn describe_node(node: &AxNode) -> (out: String)
    ensures
        out@ == node_text(*node),
{
    let mut first = "role=".to_owned();
    first.append(&quote(&node.role));
    let mut parts: Vec<String> = Vec::new();
    parts.push(first);
    assert(texts(parts@) =~= seq!["role="@ + quoted(node.role@)]);
    push_named(&mut parts, "label=", &node.label);
    push_named(&mut parts, "identifier=", &node.identifier);
    join(&parts, ", ")
}

/// The action that a request asks for.
pub open spec fn wanted_action(request: PerformActionRequest) -> Seq<char> {
    match request.action {
        Some(action) => action@,
        None => DEFAULT_ACTION@,
    }
}

/// What is decided about a request before the platform acts: the search's
/// error; the refusal of an element that does not offer the action, or else
/// of one that is disabled; or the element, as the answer will report it.
pub open spec fn planned(
    root: AxNode,
    request: PerformActionRequest,
    r: Result<PerformActionResponse, PolarizeError>,
) -> bool {
    exists|found: Result<ElementPath, crate::selector::SelectorError>|
        #[trigger] found_one(root, request.selector, found) && match found {
            Err(e) => r == Err::<PerformActionResponse, PolarizeError>(PolarizeError::Selector(e)),
            Ok(path) => {
                &&& node_along(root, path@) is Some
                &&& checked_element(node_along(root, path@)->0, path@, wanted_action(request), r)
            },
        }
}

/// What is decided about the element that was found.
pub open spec fn checked_element(
    node: AxNode,
    path: Seq<usize>,
    action: Seq<char>,
    r: Result<PerformActionResponse, PolarizeError>,
) -> bool {
    if !texts(node.actions@).contains(action) {
        r matches Err(PolarizeError::Action(ActionError::UnsupportedAction {
            element,
            action: a,
            offered,
        })) && element@ == node_text(node) && a@ == action && offered@ == joined(
            texts(node.actions@),
            ", "@,
        )
    } else if !node.enabled {
        r matches Err(PolarizeError::Action(ActionError::Disabled { element, action: a }))
            && element@ == node_text(node) && a@ == action
    } else {
        r matches Ok(response) && response.performed && response.action@ == action
            && response.path@ == path && response.role@ == node.role@ && opt_view(response.label)
            == opt_view(node.label)
    }
}

/// Finds the element of a request, and checks that it can act.
pub fn plan_action(root: &AxNode, request: &PerformActionRequest) -> (r: Result<
    PerformActionResponse,
    PolarizeError,
>)
    ensures
        planned(*root, *request, r),
{
    let found = find_one(root, &request.selector);
    let path = match found {
        Err(e) => {
            assert(found_one(
                *root,
                request.selector,
                Err::<ElementPath, crate::selector::SelectorError>(e),
            ));
            return Err(PolarizeError::Selector(e));
        },
        Ok(path) => path,
    };
    proof {
        crate::selector::matches_resolve(
            *root,
            request.selector,
            crate::selector::wanted_index(request.selector) as int,
        );
        assert(found_one(
            *root,
            request.selector,
            Ok::<ElementPath, crate::selector::SelectorError>(path),
        ));
    }
    let node = match node_at_path(root, &path) {
        Some(node) => node,
        None => return Err(PolarizeError::Action(ActionError::PathNotResolved { path })),
    };
    let action = match &request.action {
        Some(action) => action.clone(),
        None => DEFAULT_ACTION.to_owned(),
    };
    if !any_same(&node.actions, &action) {
        return Err(
            PolarizeError::Action(
                ActionError::UnsupportedAction {
                    element: describe_node(node),
                    action,
                    offered: join(&node.actions, ", "),
                },
            ),
        );
    }
    if !node.enabled {
        return Err(
            PolarizeError::Action(
                ActionError::Disabled { element: describe_node(node), action },
            ),
        );
    }
    Ok(
        PerformActionResponse {
            performed: true,
            action,
            path,
            role: node.role.clone(),
            label: copy_opt(&node.label),
        },
    )
}

/// What the platform is asked to do, and what is answered for what it said.
/// `before` and `after` are the calls that the platform had got before, and has
/// got in the end.
pub open spec fn acted<P: ActionPerformer>(
    performer: &P,
    request: PerformActionRequest,
    plan: PerformActionResponse,
    before: Seq<Call>,
    after: Seq<Call>,
    r: Result<PerformActionResponse, PolarizeError>,
) -> bool {
    exists|path: &[usize], action: &str, done: Result<(), PolarizeError>|
        {
            &&& path@ == plan.path@
            &&& action@ == plan.action@
            &&& #[trigger] call_ensures(
                P::perform_action_at_path,
                (performer, opt_ref(&request.app), path, action),
                done,
            )
            &&& after == before.push(
                Call::Performed {
                    app: app_view(request.app),
                    path: plan.path@,
                    action: plan.action@,
                    reply: done,
                },
            )
            &&& r == match done {
                Err(e) => Err::<PerformActionResponse, PolarizeError>(e),
                Ok(_) => Ok(plan),
            }
        }
}

/// The calls that a request makes, and what is answered: the tree is read once;
/// an element that is refused is never asked to act; one that is not refused is
/// asked once.
pub open spec fn performed<A: AccessibilityInspector, P: ActionPerformer>(
    inspector: &A,
    performer: &P,
    request: PerformActionRequest,
    before: Seq<Call>,
    after: Seq<Call>,
    r: Result<PerformActionResponse, PolarizeError>,
) -> bool {
    exists|tree: Result<(ResolvedApp, AxNode), PolarizeError>|
        #[trigger] call_ensures(A::describe, (inspector, opt_ref(&request.app)), tree) && {
            let read = before.push(Call::Described { app: app_view(request.app), reply: tree });
            match tree {
                Err(e) => after == read && r == Err::<PerformActionResponse, PolarizeError>(e),
                Ok((_, root)) => exists|plan: Result<PerformActionResponse, PolarizeError>|
                    #[trigger] planned(root, request, plan) && match plan {
                        Err(e) => after == read && r == Err::<
                            PerformActionResponse,
                            PolarizeError,
                        >(e),
                        Ok(p) => acted(performer, request, p, read, after, r),
                    },
            }
        }
}

/// Reads the tree, finds the element, checks it, and has it perform its
/// action.
pub fn perform_element_action_on<A: AccessibilityInspector, P: ActionPerformer>(
    platform: &mut Platform<A, P, ()>,
    request: &PerformActionRequest,
) -> (r: Result<PerformActionResponse, PolarizeError>)
    ensures
        final(platform).parts() == old(platform).parts(),
        performed(
            old(platform).reader(),
            old(platform).doer(),
            *request,
            old(platform).calls(),
            final(platform).calls(),
            r,
        ),
{
    let tree = platform.describe(as_opt_ref(&request.app));
    let (_resolved, root) = match tree {
        Err(e) => return Err(e),
        Ok(pair) => pair,
    };
    let plan = plan_action(&root, request);
    assert(planned(root, *request, plan));
    match plan {
        Err(e) => Err(e),
        Ok(p) => {
            let path = p.path.as_slice();
            let action = p.action.as_str();
            let done = platform.perform_action_at_path(as_opt_ref(&request.app), path, action);
            match done {
                Err(e) => Err(e),
                Ok(()) => Ok(p),
            }
        },
    }
}

/// Reads the tree, finds the element, checks it, and has it perform its
/// action. An element that was refused is never asked to act.
pub fn perform_element_action<A: AccessibilityInspector, P: ActionPerformer>(
    inspector: &A,
    performer: &P,
    request: &PerformActionRequest,
) -> (r: Result<PerformActionResponse, PolarizeError>)
    ensures
        exists|calls: Seq<Call>|
            #[trigger] performed(inspector, performer, *request, seq![], calls, r),
{
    let mut platform = Platform::new(inspector, performer, &());
    perform_element_action_on(&mut platform, request)
}

// ---- laws -------------------------------------------------------------------

/// An element that does not offer the action, or that is disabled, is always
/// refused, whatever else holds of it.
pub proof fn unfit_elements_are_refused(
    node: AxNode,
    path: Seq<usize>,
    action: Seq<char>,
    r: Result<PerformActionResponse, PolarizeError>,
)
    requires
        checked_element(node, path, action, r),
    ensures
        r is Ok <==> texts(node.actions@).contains(action) && node.enabled,
{
}

/// An element is asked to act at most once, after the tree was read, and only
/// when it offers the action and is enabled. A call that succeeds asked it.
pub proof fn only_fit_elements_act<A: AccessibilityInspector, P: ActionPerformer>(
    inspector: &A,
    performer: &P,
    request: PerformActionRequest,
    before: Seq<Call>,
    after: Seq<Call>,
    r: Result<PerformActionResponse, PolarizeError>,
)
    requires
        performed(inspector, performer, request, before, after, r),
    ensures
        before.len() < after.len() <= before.len() + 2,
        after.take(before.len() as int) == before,
        after[before.len() as int] is Described,
        after.len() == before.len() + 2 ==> ({
            let asked = after[before.len() as int + 1];
            &&& asked is Performed
            &&& after[before.len() as int]->Described_reply matches Ok((_, root)) && (node_along(
                root,
                asked->Performed_path,
            ) matches Some(node) && texts(node.actions@).contains(asked->Performed_action)
                && node.enabled)
        }),
        r is Ok ==> after.len() == before.len() + 2,
{
    assert(after.take(before.len() as int) =~= before);
}

/// An action is let through exactly when the element offers it and is enabled.
/// An action that is not offered is refused as such, on a disabled element too.
/// What is answered is the element's own path, role and label.
pub proof fn actions_are_offered_and_enabled(
    node: AxNode,
    path: Seq<usize>,
    action: Seq<char>,
    r: Result<PerformActionResponse, PolarizeError>,
)
    requires
        checked_element(node, path, action, r),
    ensures
        ({
            let offered = exists|i: int|
                0 <= i < node.actions@.len() && (#[trigger] node.actions@[i])@ == action;
            &&& r is Ok <==> offered && node.enabled
            &&& r is Err && r->Err_0 is Action && r->Err_0->Action_0 is UnsupportedAction
                <==> !offered
            &&& r is Err && r->Err_0 is Action && r->Err_0->Action_0 is Disabled <==> offered
                && !node.enabled
            &&& r matches Err(PolarizeError::Action(ActionError::UnsupportedAction {
                element,
                action: refused,
                offered: list,
            })) ==> element@ == node_text(node) && refused@ == action && list@ == joined(
                texts(node.actions@),
                ", "@,
            )
            &&& r matches Err(PolarizeError::Action(ActionError::Disabled {
                element,
                action: refused,
            })) ==> element@ == node_text(node) && refused@ == action
            &&& r matches Ok(response) ==> {
                &&& response.performed
                &&& response.action@ == action
                &&& response.path@ == path
                &&& response.role@ == node.role@
                &&& response.label is Some <==> node.label is Some
                &&& response.label matches Some(label) ==> label@ == node.label->0@
            }
        }),
{
    if texts(node.actions@).contains(action) {
        let i = choose|i: int|
            0 <= i < texts(node.actions@).len() && texts(node.actions@)[i] == action;
        assert(node.actions@[i]@ == action);
    }
    if exists|i: int| 0 <= i < node.actions@.len() && (#[trigger] node.actions@[i])@ == action {
        let i = choose|i: int|
            0 <= i < node.actions@.len() && (#[trigger] node.actions@[i])@ == action;
        assert(texts(node.actions@)[i] == action);
    }
}

/// What acts is the element that the selector finds, in the app that was asked
/// for, with the action that was asked for, a press where none was.
pub proof fn the_found_element_acts<A: AccessibilityInspector, P: ActionPerformer>(
    inspector: &A,
    performer: &P,
    request: PerformActionRequest,
    before: Seq<Call>,
    after: Seq<Call>,
    r: Result<PerformActionResponse, PolarizeError>,
)
    requires
        performed(inspector, performer, request, before, after, r),
        after.len() == before.len() + 2,
    ensures
        after[before.len() as int]->Described_app == app_view(request.app),
        after[before.len() as int]->Described_reply matches Ok((_, root)) && {
            let asked = after[before.len() as int + 1];
            &&& asked is Performed
            &&& asked->Performed_app == app_view(request.app)
            &&& exists|path: ElementPath|
                #[trigger] found_one(root, request.selector, Ok(path)) && path@
                    == asked->Performed_path
            &&& asked->Performed_action == match request.action {
                Some(action) => action@,
                None => "AXPress"@,
            }
            &&& r is Ok <==> asked->Performed_reply is Ok
            &&& r matches Ok(response) ==> response.path@ == asked->Performed_path
                && response.action@ == asked->Performed_action
        },
{
}

/// An element is named by its role, its label and its identifier, each in quotes
/// and in this order, without those that it lacks.
pub proof fn elements_are_named_by_what_they_have(node: AxNode)
    ensures
        node_text(node) == "role="@ + quoted(node.role@) + match node.label {
            Some(label) => ", "@ + ("label="@ + quoted(label@)),
            None => Seq::<char>::empty(),
        } + match node.identifier {
            Some(identifier) => ", "@ + ("identifier="@ + quoted(identifier@)),
            None => Seq::<char>::empty(),
        },
{
    let p1 = seq!["role="@ + quoted(node.role@)];
    let none = Seq::<Seq<char>>::empty();
    assert(p1 =~= none.push("role="@ + quoted(node.role@)));
    crate::text::lemma_joined_push(none, "role="@ + quoted(node.role@), ", "@);
    let p2 = with_part(p1, named_value("label="@, node.label));
    if let Some(label) = node.label {
        crate::text::lemma_joined_push(p1, "label="@ + quoted(label@), ", "@);
    }
    if let Some(identifier) = node.identifier {
        crate::text::lemma_joined_push(p2, "identifier="@ + quoted(identifier@), ", "@);
    }
    assert(node_text(node) =~= "role="@ + quoted(node.role@) + match node.label {
        Some(label) => ", "@ + ("label="@ + quoted(label@)),
        None => Seq::<char>::empty(),
    } + match node.identifier {
        Some(identifier) => ", "@ + ("identifier="@ + quoted(identifier@)),
        None => Seq::<char>::empty(),
    });
}

/// A path is shown as its numbers in their order, in brackets, with a comma and a
/// blank between two.
pub proof fn paths_are_shown_number_by_number(path: Seq<usize>, next: usize)
    ensures
        path.len() == 0 ==> path_text(path) == "[]"@ && path_text(path.push(next)) == "["@
            + decimal(next as nat) + "]"@,
        path.len() > 0 ==> path_text(path.push(next)) == path_text(path).drop_last() + ", "@
            + decimal(next as nat) + "]"@,
{
    reveal_strlit("[]");
    reveal_strlit("[");
    reveal_strlit("]");
    let shown = path.map_values(|i: usize| decimal(i as nat));
    let longer = path.push(next).map_values(|i: usize| decimal(i as nat));
    assert(longer =~= shown.push(decimal(next as nat)));
    crate::text::lemma_joined_push(shown, decimal(next as nat), ", "@);
    if path.len() == 0 {
        assert(joined(shown, ", "@) =~= Seq::<char>::empty());
        assert(path_text(path) =~= "[]"@);
        assert(path_text(path.push(next)) =~= "["@ + decimal(next as nat) + "]"@);
    } else {
        assert(path_text(path).drop_last() =~= "["@ + joined(shown, ", "@));
        assert(path_text(path.push(next)) =~= path_text(path).drop_last() + ", "@ + decimal(
            next as nat,
        ) + "]"@);
    }
}

/// What a refusal says tells which element was asked, for which action, and what
/// the element offers in its place.
pub proof fn refusals_say_what_was_asked(e: ActionError)
    ensures
        e matches ActionError::UnsupportedAction { element, action, offered } ==> e.said()
            == "element ("@ + element@ + ") does not offer action "@ + quoted(action@)
            + "; it offers ["@ + offered@ + "]"@,
        e matches ActionError::Disabled { element, action } ==> e.said() == "element ("@ + element@
            + ") is disabled, so it cannot perform action "@ + quoted(action@),
        e matches ActionError::PathNotResolved { path } ==> e.said() == "element path "@
            + path_text(path@) + " does not resolve to a node"@,
{
}

} // verus!
