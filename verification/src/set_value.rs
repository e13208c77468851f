//! Writing one accessibility attribute of one element.

use vstd::prelude::*;

use crate::action::{describe_node, node_text, path_text, show_path};
use crate::ax::{node_along, AxNode};
use crate::binary64::{Numbers, Real};
use crate::error::PolarizeError;
use crate::platform::{Call, Platform};
use crate::schema::{app_view, as_opt_ref, opt_ref, AppIdentifier};
use crate::selector::{
    copy_path, find_one, found_one, node_at_path, ElementPath, ElementSelector, SelectorError,
};
use crate::text::{copy_opt, join, joined, opt_view, quote, quoted, same, strs, texts};
use crate::traits::{AccessibilityInspector, ResolvedApp, ValueSetter};

verus! {

/// The attribute that a text or a number is written to.
pub const VALUE_ATTRIBUTE: &'static str = "AXValue";

/// The attribute that a selection is written to.
pub const SELECTED_TEXT_RANGE_ATTRIBUTE: &'static str = "AXSelectedTextRange";

/// The roles that accept a text.
pub const TEXT_VALUE_ROLES: [&'static str; 4] = [
    "AXTextField",
    "AXTextArea",
    "AXComboBox",
    "AXSearchField",
];

/// The roles that accept a selection.
pub const SELECTED_TEXT_RANGE_ROLES: [&'static str; 4] = TEXT_VALUE_ROLES;

/// The roles that accept a number.
pub const NUMBER_VALUE_ROLES: [&'static str; 5] = [
    "AXSlider",
    "AXStepper",
    "AXIncrementor",
    "AXScrollBar",
    "AXValueIndicator",
];

/// What a call writes.
#[derive(Debug, Clone, PartialEq, Eq)]
pub enum ValuePayload {
    Text { text: String },
    Number { number: Real },
    /// A caret position, and how much is selected from there.
    SelectedTextRange { location: usize, length: usize },
}

impl ValuePayload {
    /// The name of the attribute that the payload is written to.
    pub open spec fn attribute_name(self) -> Seq<char> {
        match self {
            ValuePayload::Text { .. } | ValuePayload::Number { .. } => VALUE_ATTRIBUTE@,
            ValuePayload::SelectedTextRange { .. } => SELECTED_TEXT_RANGE_ATTRIBUTE@,
        }
    }

    /// The roles that accept the payload.
    pub open spec fn roles(self) -> Seq<Seq<char>> {
        match self {
            ValuePayload::Text { .. } | ValuePayload::SelectedTextRange { .. } => seq![
                "AXTextField"@,
                "AXTextArea"@,
                "AXComboBox"@,
                "AXSearchField"@,
            ],
            ValuePayload::Number { .. } => seq![
                "AXSlider"@,
                "AXStepper"@,
                "AXIncrementor"@,
                "AXScrollBar"@,
                "AXValueIndicator"@,
            ],
        }
    }

    /// The attribute that the payload is written to.
    pub fn attribute(&self) -> (r: &'static str)
        ensures
            r@ == self.attribute_name(),
    {
        match self {
            ValuePayload::Text { .. } | ValuePayload::Number { .. } => VALUE_ATTRIBUTE,
            ValuePayload::SelectedTextRange { .. } => SELECTED_TEXT_RANGE_ATTRIBUTE,
        }
    }

    /// The roles that accept the payload.
    pub fn accepted_roles(&self) -> (r: Vec<&'static str>)
        ensures
            strs(r@) == self.roles(),
    {
        let mut r: Vec<&'static str> = Vec::new();
        match self {
            ValuePayload::Text { .. } => {
                let roles = TEXT_VALUE_ROLES;
                r.push(roles[0]);
                r.push(roles[1]);
                r.push(roles[2]);
                r.push(roles[3]);
            },
            ValuePayload::SelectedTextRange { .. } => {
                let roles = SELECTED_TEXT_RANGE_ROLES;
                r.push(roles[0]);
                r.push(roles[1]);
                r.push(roles[2]);
                r.push(roles[3]);
            },
            ValuePayload::Number { .. } => {
                let roles = NUMBER_VALUE_ROLES;
                r.push(roles[0]);
                r.push(roles[1]);
                r.push(roles[2]);
                r.push(roles[3]);
                r.push(roles[4]);
            },
        }
        assert(strs(r@) =~= self.roles());
        r
    }
}

/// Writes a value to one element.
#[derive(Debug, Clone, PartialEq, Eq)]
pub struct SetValueRequest {
    /// `None` for the frontmost app.
    pub app: Option<AppIdentifier>,
    pub selector: ElementSelector,
    pub value: ValuePayload,
}

/// The element that was written to.
#[derive(Debug, Clone, PartialEq, Eq)]
pub struct SetValueResponse {
    /// The app accepted the write; whether it ran its own handlers is not
    /// known.
    pub set: bool,
    pub app_name: String,
    pub attribute: String,
    /// The child indices of the element, from the tree's root.
    pub path: ElementPath,
    pub role: String,
    pub label: Option<String>,
}

/// Why an element was not written to.
#[derive(Debug, Clone, PartialEq, Eq)]
pub enum SetValueError {
    /// The element's role does not accept the payload.
    NotSettable { element: String, attribute: String, accepted: String },
    /// The element is disabled.
    Disabled { element: String, attribute: String },
    /// The number is not finite.
    NotFinite { number: Real, attribute: String },
    /// A resolved path leads to no node of the same tree.
    PathNotResolved { path: ElementPath },
}

impl SetValueError {
    /// Whether `text` is what the error says.
    pub open spec fn says<N: Numbers>(self, numbers: &N, text: Seq<char>) -> bool {
        match self {
            SetValueError::NotSettable { element, attribute, accepted } => text
                == "set_value refused: element ("@ + element@
                + ") has a role that does not accept a write to "@ + quoted(attribute@)
                + "; that write needs one of ["@ + accepted@ + "]"@,
            SetValueError::Disabled { element, attribute } => text
                == "set_value refused: element ("@ + element@
                + ") is disabled, so it cannot accept a write to "@ + quoted(attribute@),
            SetValueError::NotFinite { number, attribute } => exists|shown: String|
                #[trigger] call_ensures(N::shown, (numbers, number), shown) && text
                    == "set_value refused: "@ + shown@
                    + " is not a finite number, so it cannot reach "@ + quoted(attribute@),
            SetValueError::PathNotResolved { path } => text
                == "set_value refused: element path "@ + path_text(path@)
                + " does not resolve to a node"@,
        }
    }

    /// The error in words.
    pub fn message<N: Numbers>(&self, numbers: &N) -> (out: String)
        ensures
            self.says(numbers, out@),
    {
        match self {
            SetValueError::NotSettable { element, attribute, accepted } => {
                let mut out = "set_value refused: element (".to_owned();
                out.append(element);
                out.append(") has a role that does not accept a write to ");
                out.append(&quote(attribute));
                out.append("; that write needs one of [");
                out.append(accepted);
                out.append("]");
                out
            },
            SetValueError::Disabled { element, attribute } => {
                let mut out = "set_value refused: element (".to_owned();
                out.append(element);
                out.append(") is disabled, so it cannot accept a write to ");
                out.append(&quote(attribute));
                out
            },
            SetValueError::NotFinite { number, attribute } => {
                let shown = numbers.shown(*number);
                let mut out = "set_value refused: ".to_owned();
                out.append(&shown);
                out.append(" is not a finite number, so it cannot reach ");
                out.append(&quote(attribute));
                out
            },
            SetValueError::PathNotResolved { path } => {
                let mut out = "set_value refused: element path ".to_owned();
                out.append(&show_path(path));
                out.append(" does not resolve to a node");
                out
            },
        }
    }

    /// The error that a tool call reports; it keeps the whole message.
    pub fn into_error<N: Numbers>(self, numbers: &N) -> (r: PolarizeError)
        ensures
            r matches PolarizeError::Platform(s) && self.says(numbers, s@),
    {
        PolarizeError::Platform(self.message(numbers))
    }
}

/// One attribute write, ready for the platform.
#[derive(Debug, Clone, PartialEq, Eq)]
pub struct AttributeWrite {
    pub attribute: String,
    pub value: AttributeValue,
}

/// The value of an attribute write.
#[derive(Debug, Clone, PartialEq, Eq)]
pub enum AttributeValue {
    Text(String),
    Number(Real),
    Range { location: usize, length: usize },
}

impl AttributeWrite {
    /// Whether this is the write that a payload asks for. The value's type is
    /// the one that its attribute takes.
    pub open spec fn writes(self, payload: ValuePayload) -> bool {
        self.attribute@ == payload.attribute_name() && match payload {
            ValuePayload::Text { text } => self.value matches AttributeValue::Text(s) && s@
                == text@,
            ValuePayload::Number { number } => self.value == AttributeValue::Number(number),
            ValuePayload::SelectedTextRange { location, length } => self.value
                == (AttributeValue::Range { location, length }),
        }
    }

    /// The write that a payload asks for.
    pub fn from_payload(payload: &ValuePayload) -> (r: Self)
        ensures
            r.writes(*payload),
    {
        let attribute = payload.attribute().to_owned();
        let value = match payload {
            ValuePayload::Text { text } => AttributeValue::Text(text.clone()),
            ValuePayload::Number { number } => AttributeValue::Number(*number),
            ValuePayload::SelectedTextRange { location, length } => AttributeValue::Range {
                location: *location,
                length: *length,
            },
        };
        AttributeWrite { attribute, value }
    }
}

/// Whether one of the strings holds the same characters as `s`.
fn any_str(list: &Vec<&'static str>, s: &str) -> (r: bool)
    ensures
        r == strs(list@).contains(s@),
{
    let mut i: usize = 0;
    while i < list.len()
        invariant
            i <= list@.len(),
            forall|j: int| 0 <= j < i ==> (#[trigger] list@[j])@ != s@,
        decreases list@.len() - i,
    {
        if same(list[i], s) {
            assert(strs(list@)[i as int] == s@);
            return true;
        }
        i += 1;
    }
    assert forall|j: int| 0 <= j < strs(list@).len() implies strs(list@)[j] != s@ by {
        assert(strs(list@)[j] == list@[j]@);
    }
    false
}

/// Copies string slices into strings.
fn owned(list: &Vec<&'static str>) -> (out: Vec<String>)
    ensures
        texts(out@) == strs(list@),
{
    let mut out: Vec<String> = Vec::new();
    let mut i: usize = 0;
    while i < list.len()
        invariant
            i <= list@.len(),
            texts(out@) == strs(list@).take(i as int),
        decreases list@.len() - i,
    {
        let s = list[i].to_owned();
        proof {
            crate::text::lemma_texts_push(out@, s);
            assert(strs(list@)[i as int] == list@[i as int]@);
            assert(strs(list@).take(i + 1) =~= strs(list@).take(i as int).push(s@));
        }
        out.push(s);
        i += 1;
    }
    assert(strs(list@).take(i as int) =~= strs(list@));
    out
}

/// What is decided about the element that was found: the refusal of a role
/// that does not accept the payload, else of a disabled element, else of a
/// number that is not finite; or the element, as the answer will report it.
pub open spec fn checked_target(
    node: AxNode,
    path: Seq<usize>,
    payload: ValuePayload,
    app_name: Seq<char>,
    r: Result<SetValueResponse, SetValueError>,
) -> bool {
    let attribute = payload.attribute_name();
    if !payload.roles().contains(node.role@) {
        r matches Err(SetValueError::NotSettable { element, attribute: a, accepted }) && element@
            == node_text(node) && a@ == attribute && accepted@ == joined(payload.roles(), ", "@)
    } else if !node.enabled {
        r matches Err(SetValueError::Disabled { element, attribute: a }) && element@ == node_text(
            node,
        ) && a@ == attribute
    } else if payload matches ValuePayload::Number { number } && !number.finite() {
        r matches Err(SetValueError::NotFinite { number: n, attribute: a }) && ValuePayload::Number {
            number: n,
        } == payload && a@ == attribute
    } else {
        r matches Ok(response) && response.set && response.app_name@ == app_name
            && response.attribute@ == attribute && response.path@ == path && response.role@
            == node.role@ && opt_view(response.label) == opt_view(node.label)
    }
}

/// Checks the element that was found.
pub fn check_target(
    node: &AxNode,
    path: &[usize],
    payload: &ValuePayload,
    app_name: &str,
) -> (r: Result<SetValueResponse, SetValueError>)
    ensures
        checked_target(*node, path@, *payload, app_name@, r),
{
    let attribute = payload.attribute();
    let accepted = payload.accepted_roles();
    if !any_str(&accepted, &node.role) {
        return Err(
            SetValueError::NotSettable {
                element: describe_node(node),
                attribute: attribute.to_owned(),
                accepted: join(&owned(&accepted), ", "),
            },
        );
    }
    if !node.enabled {
        return Err(
            SetValueError::Disabled {
                element: describe_node(node),
                attribute: attribute.to_owned(),
            },
        );
    }
    if let ValuePayload::Number { number } = payload {
        if !number.is_finite() {
            return Err(
                SetValueError::NotFinite { number: *number, attribute: attribute.to_owned() },
            );
        }
    }
    Ok(
        SetValueResponse {
            set: true,
            app_name: app_name.to_owned(),
            attribute: attribute.to_owned(),
            path: copy_path(path),
            role: node.role.clone(),
            label: copy_opt(&node.label),
        },
    )
}

/// What is decided about a request before the platform writes.
pub open spec fn planned<N: Numbers>(
    numbers: &N,
    resolved: ResolvedApp,
    root: AxNode,
    request: SetValueRequest,
    r: Result<SetValueResponse, PolarizeError>,
) -> bool {
    exists|found: Result<ElementPath, SelectorError>|
        #[trigger] found_one(root, request.selector, found) && match found {
            Err(e) => r == Err::<SetValueResponse, PolarizeError>(PolarizeError::Selector(e)),
            Ok(path) => node_along(root, path@) is Some && exists|
                checked: Result<SetValueResponse, SetValueError>,
            |
                #[trigger] checked_target(
                    node_along(root, path@)->0,
                    path@,
                    request.value,
                    resolved.name@,
                    checked,
                ) && match checked {
                    Err(e) => r matches Err(PolarizeError::Platform(s)) && e.says(numbers, s@),
                    Ok(response) => r == Ok::<SetValueResponse, PolarizeError>(response),
                },
        }
}

/// Finds the element of a request, and checks that it accepts the write.
pub fn plan_write<N: Numbers>(
    numbers: &N,
    resolved: &ResolvedApp,
    root: &AxNode,
    request: &SetValueRequest,
) -> (r: Result<SetValueResponse, PolarizeError>)
    ensures
        planned(numbers, *resolved, *root, *request, r),
{
    let found = find_one(root, &request.selector);
    let path = match found {
        Err(e) => {
            assert(found_one(*root, request.selector, Err::<ElementPath, SelectorError>(e)));
            return Err(PolarizeError::Selector(e));
        },
        Ok(path) => path,
    };
    proof {
        crate::selector::matches_resolve(
            *root,
            request.selector,
            crate::selector::wanted_index(request.selector) as int,
        );
        assert(found_one(*root, request.selector, Ok::<ElementPath, SelectorError>(path)));
    }
    let node = match node_at_path(root, &path) {
        Some(node) => node,
        None => return Err(SetValueError::PathNotResolved { path }.into_error(numbers)),
    };
    let checked = check_target(node, &path, &request.value, &resolved.name);
    assert(checked_target(*node, path@, request.value, resolved.name@, checked));
    match checked {
        Err(e) => Err(e.into_error(numbers)),
        Ok(response) => Ok(response),
    }
}

/// The app that a write addresses: the one that the request names, else the
/// one that was read. Both calls then address one app.
pub open spec fn addressed(requested: Option<AppIdentifier>, resolved: ResolvedApp) -> Option<
    (Option<Seq<char>>, Option<Seq<char>>),
> {
    match requested {
        Some(app) => Some(app@),
        None => resolved.identified(),
    }
}

fn resolved_target(requested: &Option<AppIdentifier>, resolved: &ResolvedApp) -> (r: Option<
    AppIdentifier,
>)
    ensures
        app_view(r) == addressed(*requested, *resolved),
{
    match requested {
        Some(app) => Some(app.copy()),
        None => resolved.identifier(),
    }
}

/// What the platform is asked to write, and what is answered for what it
/// said. `before` and `after` are the calls that the platform had got before,
/// and has got in the end.
pub open spec fn written<S: ValueSetter>(
    setter: &S,
    request: SetValueRequest,
    resolved: ResolvedApp,
    plan: SetValueResponse,
    before: Seq<Call>,
    after: Seq<Call>,
    r: Result<SetValueResponse, PolarizeError>,
) -> bool {
    exists|
        app: Option<AppIdentifier>,
        path: &[usize],
        write: AttributeWrite,
        done: Result<(), PolarizeError>,
    |
        {
            &&& app_view(app) == addressed(request.app, resolved)
            &&& path@ == plan.path@
            &&& write.writes(request.value)
            &&& #[trigger] call_ensures(
                S::set_value_at_path,
                (setter, opt_ref(&app), path, &write),
                done,
            )
            &&& after == before.push(
                Call::Wrote {
                    app: addressed(request.app, resolved),
                    path: plan.path@,
                    write,
                    reply: done,
                },
            )
            &&& r == match done {
                Err(e) => Err::<SetValueResponse, PolarizeError>(e),
                Ok(_) => Ok(plan),
            }
        }
}

/// The calls that a request makes, and what is answered: the tree is read once;
/// an element that is refused is never written to; one that is not refused is
/// written to once.
pub open spec fn performed<N: Numbers, A: AccessibilityInspector, S: ValueSetter>(
    numbers: &N,
    inspector: &A,
    setter: &S,
    request: SetValueRequest,
    before: Seq<Call>,
    after: Seq<Call>,
    r: Result<SetValueResponse, PolarizeError>,
) -> bool {
    exists|tree: Result<(ResolvedApp, AxNode), PolarizeError>|
        #[trigger] call_ensures(A::describe, (inspector, opt_ref(&request.app)), tree) && {
            let read = before.push(Call::Described { app: app_view(request.app), reply: tree });
            match tree {
                Err(e) => after == read && r == Err::<SetValueResponse, PolarizeError>(e),
                Ok((resolved, root)) => exists|plan: Result<SetValueResponse, PolarizeError>|
                    #[trigger] planned(numbers, resolved, root, request, plan) && match plan {
                        Err(e) => after == read && r == Err::<SetValueResponse, PolarizeError>(e),
                        Ok(p) => written(setter, request, resolved, p, read, after, r),
                    },
            }
        }
}

/// Reads the tree, finds the element, checks it, and writes the value.
pub fn set_element_value_on<N: Numbers, A: AccessibilityInspector, S: ValueSetter>(
    numbers: &N,
    platform: &mut Platform<A, S, ()>,
    request: &SetValueRequest,
) -> (r: Result<SetValueResponse, PolarizeError>)
    ensures
        final(platform).parts() == old(platform).parts(),
        performed(
            numbers,
            old(platform).reader(),
            old(platform).doer(),
            *request,
            old(platform).calls(),
            final(platform).calls(),
            r,
        ),
{
    let tree = platform.describe(as_opt_ref(&request.app));
    let (resolved, root) = match tree {
        Err(e) => return Err(e),
        Ok(pair) => pair,
    };
    let plan = plan_write(numbers, &resolved, &root, request);
    assert(planned(numbers, resolved, root, *request, plan));
    match plan {
        Err(e) => Err(e),
        Ok(p) => {
            let app = resolved_target(&request.app, &resolved);
            let write = AttributeWrite::from_payload(&request.value);
            let path = p.path.as_slice();
            let done = platform.set_value_at_path(as_opt_ref(&app), path, &write);
            match done {
                Err(e) => Err(e),
                Ok(()) => Ok(p),
            }
        },
    }
}

/// Reads the tree, finds the element, checks it, and writes the value. An
/// element that was refused is never written to.
pub fn set_element_value<N: Numbers, A: AccessibilityInspector, S: ValueSetter>(
    numbers: &N,
    inspector: &A,
    setter: &S,
    request: &SetValueRequest,
) -> (r: Result<SetValueResponse, PolarizeError>)
    ensures
        exists|calls: Seq<Call>|
            #[trigger] performed(numbers, inspector, setter, *request, seq![], calls, r),
{
    let mut platform = Platform::new(inspector, setter, &());
    set_element_value_on(numbers, &mut platform, request)
}

// ---- laws -------------------------------------------------------------------

/// An element is written to exactly when its role accepts the payload, it is
/// enabled, and a number is finite.
pub proof fn unfit_elements_are_refused(
    node: AxNode,
    path: Seq<usize>,
    payload: ValuePayload,
    app_name: Seq<char>,
    r: Result<SetValueResponse, SetValueError>,
)
    requires
        checked_target(node, path, payload, app_name, r),
    ensures
        r is Ok <==> payload.roles().contains(node.role@) && node.enabled && !(payload matches
            ValuePayload::Number { number } && !number.finite()),
{
}

/// A text and a selection go to the same elements, and a number to others: no
/// role accepts both a text and a number.
pub proof fn no_role_takes_text_and_number(
    role: Seq<char>,
    text: ValuePayload,
    number: ValuePayload,
)
    requires
        text is Text || text is SelectedTextRange,
        number is Number,
    ensures
        !(text.roles().contains(role) && number.roles().contains(role)),
{
    reveal_strlit("AXTextField");
    reveal_strlit("AXTextArea");
    reveal_strlit("AXComboBox");
    reveal_strlit("AXSearchField");
    reveal_strlit("AXSlider");
    reveal_strlit("AXStepper");
    reveal_strlit("AXIncrementor");
    reveal_strlit("AXScrollBar");
    reveal_strlit("AXValueIndicator");
    if text.roles().contains(role) && number.roles().contains(role) {
        let i = choose|i: int| 0 <= i < text.roles().len() && text.roles()[i] == role;
        let j = choose|j: int| 0 <= j < number.roles().len() && number.roles()[j] == role;
        let t = text.roles()[i];
        let n = number.roles()[j];
        assert(t.len() == n.len() && t[2] == n[2] && t[3] == n[3]);
    }
}

/// An element is written to at most once, after the tree was read, and only
/// when its role accepts the payload, it is enabled, and a number is finite. A
/// call that succeeds wrote to it.
pub proof fn only_fit_elements_are_written<N: Numbers, A: AccessibilityInspector, S: ValueSetter>(
    numbers: &N,
    inspector: &A,
    setter: &S,
    request: SetValueRequest,
    before: Seq<Call>,
    after: Seq<Call>,
    r: Result<SetValueResponse, PolarizeError>,
)
    requires
        performed(numbers, inspector, setter, request, before, after, r),
    ensures
        before.len() < after.len() <= before.len() + 2,
        after.take(before.len() as int) == before,
        after[before.len() as int] is Described,
        after.len() == before.len() + 2 ==> ({
            let asked = after[before.len() as int + 1];
            &&& asked is Wrote
            &&& asked->Wrote_write.writes(request.value)
            &&& request.value matches ValuePayload::Number { number } ==> number.finite()
            &&& after[before.len() as int]->Described_reply matches Ok((_, root)) && (node_along(
                root,
                asked->Wrote_path,
            ) matches Some(node) && request.value.roles().contains(node.role@) && node.enabled)
        }),
        r is Ok ==> after.len() == before.len() + 2,
{
    assert(after.take(before.len() as int) =~= before);
}

/// The roles that take a text or a selection, and those that take a number.
proof fn lemma_roles(payload: ValuePayload, role: Seq<char>)
    ensures
        payload is Number ==> (payload.roles().contains(role) <==> role == "AXSlider"@ || role
            == "AXStepper"@ || role == "AXIncrementor"@ || role == "AXScrollBar"@ || role
            == "AXValueIndicator"@),
        !(payload is Number) ==> (payload.roles().contains(role) <==> role == "AXTextField"@ || role
            == "AXTextArea"@ || role == "AXComboBox"@ || role == "AXSearchField"@),
{
    let all = payload.roles();
    if payload is Number {
        assert(all[0] == "AXSlider"@ && all[1] == "AXStepper"@ && all[2] == "AXIncrementor"@);
        assert(all[3] == "AXScrollBar"@ && all[4] == "AXValueIndicator"@ && all.len() == 5);
    } else {
        assert(all[0] == "AXTextField"@ && all[1] == "AXTextArea"@ && all[2] == "AXComboBox"@);
        assert(all[3] == "AXSearchField"@ && all.len() == 4);
    }
}

proof fn lemma_listed_roles(payload: ValuePayload)
    ensures
        joined(payload.roles(), ", "@) == if payload is Number {
            "AXSlider, AXStepper, AXIncrementor, AXScrollBar, AXValueIndicator"@
        } else {
            "AXTextField, AXTextArea, AXComboBox, AXSearchField"@
        },
{
    reveal_strlit("AXSlider, AXStepper, AXIncrementor, AXScrollBar, AXValueIndicator");
    reveal_strlit("AXTextField, AXTextArea, AXComboBox, AXSearchField");
    reveal_strlit(", ");
    reveal_strlit("AXSlider");
    reveal_strlit("AXStepper");
    reveal_strlit("AXIncrementor");
    reveal_strlit("AXScrollBar");
    reveal_strlit("AXValueIndicator");
    reveal_strlit("AXTextField");
    reveal_strlit("AXTextArea");
    reveal_strlit("AXComboBox");
    reveal_strlit("AXSearchField");
    reveal_with_fuel(joined, 6);
    let roles = payload.roles();
    assert(roles.drop_last().drop_last().drop_last().drop_last().len() <= 1);
    assert(joined(roles, ", "@) =~= if payload is Number {
        "AXSlider, AXStepper, AXIncrementor, AXScrollBar, AXValueIndicator"@
    } else {
        "AXTextField, AXTextArea, AXComboBox, AXSearchField"@
    });
}

/// A write is let through exactly when the element is fit for it. Text and
/// selections go to text fields, text areas, combo boxes and search fields;
/// numbers go to sliders, steppers, incrementors, scroll bars and value
/// indicators. The element is enabled, and a number is finite. Of the reasons to
/// refuse, the first that holds is the one that is told.
pub proof fn writes_go_where_they_fit(
    node: AxNode,
    path: Seq<usize>,
    payload: ValuePayload,
    app_name: Seq<char>,
    r: Result<SetValueResponse, SetValueError>,
)
    requires
        checked_target(node, path, payload, app_name, r),
    ensures
        ({
            let role = node.role@;
            let fits = if payload is Number {
                role == "AXSlider"@ || role == "AXStepper"@ || role == "AXIncrementor"@ || role
                    == "AXScrollBar"@ || role == "AXValueIndicator"@
            } else {
                role == "AXTextField"@ || role == "AXTextArea"@ || role == "AXComboBox"@ || role
                    == "AXSearchField"@
            };
            let bad = payload is Number && (payload->number.magnitude() >= 0x7FF0_0000_0000_0000);
            &&& r is Ok <==> fits && node.enabled && !bad
            &&& r is Err && r->Err_0 is NotSettable <==> !fits
            &&& r is Err && r->Err_0 is Disabled <==> fits && !node.enabled
            &&& r is Err && r->Err_0 is NotFinite <==> fits && node.enabled && bad
            &&& r matches Err(SetValueError::NotSettable { element, accepted, .. }) ==> element@
                == node_text(node) && accepted@ == if payload is Number {
                "AXSlider, AXStepper, AXIncrementor, AXScrollBar, AXValueIndicator"@
            } else {
                "AXTextField, AXTextArea, AXComboBox, AXSearchField"@
            }
            &&& r matches Err(SetValueError::Disabled { element, .. }) ==> element@ == node_text(
                node,
            )
            &&& r matches Err(SetValueError::NotFinite { number, .. }) ==> number
                == payload->number
            &&& r matches Err(e) ==> (match e {
                SetValueError::NotSettable { attribute, .. } => attribute@,
                SetValueError::Disabled { attribute, .. } => attribute@,
                SetValueError::NotFinite { attribute, .. } => attribute@,
                SetValueError::PathNotResolved { .. } => Seq::<char>::empty(),
            }) == if payload is SelectedTextRange {
                "AXSelectedTextRange"@
            } else {
                "AXValue"@
            }
            &&& r matches Ok(response) ==> {
                &&& response.set
                &&& response.app_name@ == app_name
                &&& response.path@ == path
                &&& response.role@ == role
                &&& response.label is Some <==> node.label is Some
                &&& response.label matches Some(label) ==> label@ == node.label->0@
                &&& response.attribute@ == if payload is SelectedTextRange {
                    "AXSelectedTextRange"@
                } else {
                    "AXValue"@
                }
            }
        }),
{
    lemma_roles(payload, node.role@);
    lemma_listed_roles(payload);
}

/// What is written is what was asked for: a text or a number as the value, a
/// selection as the selected range, with its place and its length.
pub proof fn what_is_written_is_what_was_asked_for(write: AttributeWrite, payload: ValuePayload)
    requires
        write.writes(payload),
    ensures
        match payload {
            ValuePayload::Text { text } => write.attribute@ == "AXValue"@ && write.value is Text
                && write.value->Text_0@ == text@,
            ValuePayload::Number { number } => write.attribute@ == "AXValue"@ && write.value
                == AttributeValue::Number(number),
            ValuePayload::SelectedTextRange { location, length } => write.attribute@
                == "AXSelectedTextRange"@ && write.value == (AttributeValue::Range {
                location,
                length,
            }),
        },
{
}

/// A write goes to the element that the selector finds, in the app that was read:
/// the one that was named, or else the one that the platform resolved, by its
/// bundle where it has one and else by its name. What is answered is what was
/// found there.
pub proof fn writes_go_to_the_found_element<N: Numbers, A: AccessibilityInspector, S: ValueSetter>(
    numbers: &N,
    inspector: &A,
    setter: &S,
    request: SetValueRequest,
    before: Seq<Call>,
    after: Seq<Call>,
    r: Result<SetValueResponse, PolarizeError>,
)
    requires
        performed(numbers, inspector, setter, request, before, after, r),
        after.len() == before.len() + 2,
    ensures
        after[before.len() as int]->Described_app == app_view(request.app),
        after[before.len() as int]->Described_reply matches Ok((resolved, root)) && {
            let asked = after[before.len() as int + 1];
            &&& asked is Wrote
            &&& exists|path: ElementPath|
                #[trigger] found_one(root, request.selector, Ok(path)) && path@
                    == asked->Wrote_path
            &&& asked->Wrote_app == match request.app {
                Some(app) => Some(app@),
                None => if resolved.bundle_id is Some {
                    Some((Some(resolved.bundle_id->0@), None))
                } else if resolved.name@.len() > 0 {
                    Some((None, Some(resolved.name@)))
                } else {
                    None
                },
            }
            &&& r is Ok <==> asked->Wrote_reply is Ok
            &&& r matches Ok(response) ==> response.path@ == asked->Wrote_path
        },
{
}

/// What a refusal says tells which element was written to, which attribute, and
/// which roles would have taken it.
pub proof fn refusals_say_what_was_written<N: Numbers>(
    numbers: &N,
    e: SetValueError,
    text: Seq<char>,
)
    requires
        e.says(numbers, text),
    ensures
        e matches SetValueError::NotSettable { element, attribute, accepted } ==> text
            == "set_value refused: element ("@ + element@
            + ") has a role that does not accept a write to "@ + quoted(attribute@)
            + "; that write needs one of ["@ + accepted@ + "]"@,
        e matches SetValueError::Disabled { element, attribute } ==> text
            == "set_value refused: element ("@ + element@
            + ") is disabled, so it cannot accept a write to "@ + quoted(attribute@),
        e matches SetValueError::NotFinite { number, attribute } ==> exists|shown: String|
            #[trigger] call_ensures(N::shown, (numbers, number), shown) && text
                == "set_value refused: "@ + shown@ + " is not a finite number, so it cannot reach "@
                + quoted(attribute@),
        e matches SetValueError::PathNotResolved { path } ==> text
            == "set_value refused: element path "@ + path_text(path@)
            + " does not resolve to a node"@,
{
}

} // verus!
