//! Guiding a user through the permissions that are still missing.

use vstd::prelude::*;

use crate::script::AutomationCheck;
use crate::text::{join, joined, opt_view, same, texts};
use crate::waiting::{wait_watched, waited, Timing};

verus! {

/// A permission that is still missing.
#[derive(Debug, Clone, PartialEq, Eq)]
pub enum NeededPermission {
    Accessibility,
    ScreenRecording,
    /// Automation of one app.
    Automation { target: String },
}

/// A missing permission, with its target as a text.
pub enum NeededView {
    Accessibility,
    ScreenRecording,
    Automation { target: Seq<char> },
}

impl View for NeededPermission {
    type V = NeededView;

    open spec fn view(&self) -> NeededView {
        match self {
            NeededPermission::Accessibility => NeededView::Accessibility,
            NeededPermission::ScreenRecording => NeededView::ScreenRecording,
            NeededPermission::Automation { target } => NeededView::Automation { target: target@ },
        }
    }
}

/// The missing permissions, with their targets as texts.
pub open spec fn needed_views(needed: Seq<NeededPermission>) -> Seq<NeededView> {
    needed.map_values(|p: NeededPermission| p@)
}

/// What is missing, in the fixed order. Only a check that permits automation
/// counts as a grant.
pub open spec fn missing(
    accessibility_trusted: bool,
    screen_recording_trusted: bool,
    automation: AutomationCheck,
    automation_target: Seq<char>,
) -> Seq<NeededView> {
    let m0: Seq<NeededView> = seq![];
    let m1 = if accessibility_trusted {
        m0
    } else {
        m0.push(NeededView::Accessibility)
    };
    let m2 = if screen_recording_trusted {
        m1
    } else {
        m1.push(NeededView::ScreenRecording)
    };
    if automation == AutomationCheck::Permitted {
        m2
    } else {
        m2.push(NeededView::Automation { target: automation_target })
    }
}

/// Lists what is still missing. An inconclusive automation check counts as
/// missing.
pub fn needed_permissions(
    accessibility_trusted: bool,
    screen_recording_trusted: bool,
    automation: AutomationCheck,
    automation_target: &str,
) -> (needed: Vec<NeededPermission>)
    ensures
        needed_views(needed@) == missing(
            accessibility_trusted,
            screen_recording_trusted,
            automation,
            automation_target@,
        ),
        needed@.len() == missing(
            accessibility_trusted,
            screen_recording_trusted,
            automation,
            automation_target@,
        ).len(),
{
    let mut needed: Vec<NeededPermission> = Vec::new();
    if !accessibility_trusted {
        needed.push(NeededPermission::Accessibility);
    }
    if !screen_recording_trusted {
        needed.push(NeededPermission::ScreenRecording);
    }
    if automation != AutomationCheck::Permitted {
        needed.push(NeededPermission::Automation { target: automation_target.to_owned() });
    }
    assert(needed_views(needed@) =~= missing(
        accessibility_trusted,
        screen_recording_trusted,
        automation,
        automation_target@,
    ));
    needed
}

// ---- the helper's arguments ---------------------------------------------------

/// The name of a missing permission, as the helper takes it.
pub open spec fn helper_name(permission: NeededView) -> Seq<char> {
    match permission {
        NeededView::Accessibility => "accessibility"@,
        NeededView::ScreenRecording => "screen-recording"@,
        NeededView::Automation { target } => "automation:"@ + target,
    }
}

/// The arguments that name the missing permissions: a flag and a value each.
pub open spec fn needs_args(needed: Seq<NeededView>) -> Seq<Seq<char>>
    decreases needed.len(),
{
    if needed.len() == 0 {
        seq![]
    } else {
        needs_args(needed.drop_last()).push("--needs"@).push(helper_name(needed.last()))
    }
}

/// The arguments of the helper. The bundle is named only when it is known.
pub open spec fn args_of(needed: Seq<NeededView>, own_bundle: Option<Seq<char>>) -> Seq<Seq<char>> {
    match own_bundle {
        Some(bundle) => needs_args(needed).push("--for-bundle"@).push(bundle),
        None => needs_args(needed),
    }
}

/// Builds the arguments of the helper.
pub fn helper_args(needed: &[NeededPermission], own_bundle: Option<&str>) -> (args: Vec<String>)
    ensures
        texts(args@) == args_of(needed_views(needed@), crate::text::opt_str_view(own_bundle)),
{
    let ghost views = needed_views(needed@);
    let mut args: Vec<String> = Vec::new();
    let mut i: usize = 0;
    assert(texts(args@) =~= needs_args(views.take(0)));
    while i < needed.len()
        invariant
            i <= needed@.len(),
            views == needed_views(needed@),
            texts(args@) == needs_args(views.take(i as int)),
        decreases needed@.len() - i,
    {
        let name = match &needed[i] {
            NeededPermission::Accessibility => "accessibility".to_owned(),
            NeededPermission::ScreenRecording => "screen-recording".to_owned(),
            NeededPermission::Automation { target } => {
                let mut name = "automation:".to_owned();
                name.append(target);
                name
            },
        };
        let flag = "--needs".to_owned();
        proof {
            assert(views.take(i + 1).drop_last() =~= views.take(i as int));
            assert(views.take(i + 1).last() == needed@[i as int]@);
            crate::text::lemma_texts_push(args@, flag);
            crate::text::lemma_texts_push(args@.push(flag), name);
        }
        args.push(flag);
        args.push(name);
        i += 1;
    }
    assert(views.take(i as int) =~= views);
    if let Some(bundle) = own_bundle {
        let flag = "--for-bundle".to_owned();
        let value = bundle.to_owned();
        proof {
            crate::text::lemma_texts_push(args@, flag);
            crate::text::lemma_texts_push(args@.push(flag), value);
        }
        args.push(flag);
        args.push(value);
    }
    args
}

// ---- the report -----------------------------------------------------------------

/// The name of a missing permission, as a user reads it.
pub open spec fn shown_name(permission: NeededView) -> Seq<char> {
    match permission {
        NeededView::Accessibility => "Accessibility"@,
        NeededView::ScreenRecording => "Screen Recording"@,
        NeededView::Automation { target } => "Automation ("@ + target + ")"@,
    }
}

/// The name of a missing permission, as a user reads it.
pub fn describe_needed_permission(permission: &NeededPermission) -> (out: String)
    ensures
        out@ == shown_name(permission@),
{
    match permission {
        NeededPermission::Accessibility => "Accessibility".to_owned(),
        NeededPermission::ScreenRecording => "Screen Recording".to_owned(),
        NeededPermission::Automation { target } => {
            let mut out = "Automation (".to_owned();
            out.append(target);
            out.append(")");
            out
        },
    }
}

/// The names of the missing permissions, as a user reads them.
pub open spec fn shown_names(needed: Seq<NeededView>) -> Seq<char> {
    joined(needed.map_values(|p: NeededView| shown_name(p)), ", "@)
}

/// The names of the missing permissions, in one line.
pub fn describe_all_needed(needed: &[NeededPermission]) -> (out: String)
    ensures
        out@ == shown_names(needed_views(needed@)),
{
    let ghost all = needed_views(needed@).map_values(|p: NeededView| shown_name(p));
    let mut names: Vec<String> = Vec::new();
    let mut i: usize = 0;
    assert(texts(names@) =~= all.take(0));
    while i < needed.len()
        invariant
            i <= needed@.len(),
            all == needed_views(needed@).map_values(|p: NeededView| shown_name(p)),
            texts(names@) == all.take(i as int),
        decreases needed@.len() - i,
    {
        let name = describe_needed_permission(&needed[i]);
        proof {
            crate::text::lemma_texts_push(names@, name);
            assert(all.take(i + 1) =~= all.take(i as int).push(name@));
        }
        names.push(name);
        i += 1;
    }
    assert(all.take(i as int) =~= all);
    join(&names, ", ")
}

/// The closing line of a report: what is still missing, if anything is.
pub fn missing_line(needed: &[NeededPermission]) -> (line: Option<String>)
    ensures
        match line {
            None => needed@.len() == 0,
            Some(s) => needed@.len() > 0 && s@ == "Still missing: "@ + shown_names(
                needed_views(needed@),
            ) + "."@,
        },
{
    if needed.len() == 0 {
        return None;
    }
    let mut line = "Still missing: ".to_owned();
    line.append(&describe_all_needed(needed));
    line.append(".");
    Some(line)
}

/// The app that a run asks about when it names none. Every Mac has it.
pub const AUTOMATION_BOOTSTRAP_TARGET: &'static str = "Finder";

/// Whether a run only asks for permissions, by its arguments without the
/// program's own name, and which app it asks about.
pub open spec fn bootstrap_target(args: Seq<Seq<char>>) -> Option<Seq<char>> {
    if args.len() == 0 || args[0] != "--request-permissions"@ {
        None
    } else if args.len() == 1 {
        Some(AUTOMATION_BOOTSTRAP_TARGET@)
    } else {
        Some(args[1])
    }
}

/// Reads the arguments of a run, without the program's own name.
pub fn requested_target(args: &[String]) -> (target: Option<String>)
    ensures
        opt_view(target) == bootstrap_target(texts(args@)),
{
    if args.len() == 0 || !same(&args[0], "--request-permissions") {
        return None;
    }
    if args.len() == 1 {
        return Some(AUTOMATION_BOOTSTRAP_TARGET.to_owned());
    }
    Some(args[1].clone())
}

/// How to go on when something is still missing.
pub fn retry_hint(target: &str) -> (hint: String)
    ensures
        hint@ == "If a system dialog appeared, approve it, then run `./target/debug/polarize --request-permissions "@
            + target@
            + "` again to confirm.\n`run_applescript` against any other app (Mail, Safari, Music, Notes, …) needs its own bootstrap run first — `./target/debug/polarize --request-permissions <App Name>` — Automation is granted per target app, not once for the whole binary."@,
{
    let mut hint =
        "If a system dialog appeared, approve it, then run `./target/debug/polarize --request-permissions ".to_owned();
    hint.append(target);
    hint.append(
        "` again to confirm.\n`run_applescript` against any other app (Mail, Safari, Music, Notes, …) needs its own bootstrap run first — `./target/debug/polarize --request-permissions <App Name>` — Automation is granted per target app, not once for the whole binary.",
    );
    hint
}

// ---- waiting --------------------------------------------------------------------

pub const DEFAULT_WAIT_DEADLINE_MS: u64 = 300_000;

pub const DEFAULT_WAIT_POLL_INTERVAL_MS: u64 = 1_000;

/// How long the helper may show its success before it is ended.
pub const GRANT_SUCCESS_GRACE_MS: u64 = 1_500;

/// A running helper.
pub trait HelperChild {
    /// Whether the helper is still running.
    fn still_running(&mut self) -> bool;

    /// Tells the helper that everything is granted, so that it can say so.
    fn notify_all_granted(&mut self);

    /// Ends the helper, and waits for it to exit.
    fn terminate(&mut self);
}

/// Pauses the calling thread.
pub trait Sleeper {
    fn sleep_ms(&self, ms: u64);
}

/// Reads the time.
pub trait Clock {
    /// Milliseconds from some fixed start.
    fn now_ms(&self) -> u64;
}

/// Why a wait ended.
#[derive(Debug, Clone, Copy, PartialEq, Eq, Structural)]
pub enum WaitOutcome {
    /// The last poll found nothing missing.
    AllGranted,
    /// The helper exited first.
    HelperExited,
    /// The deadline passed first.
    TimedOut,
}

impl WaitOutcome {
    /// What a finished wait reports.
    pub fn line(self) -> (line: &'static str)
        ensures
            line@ == match self {
                WaitOutcome::AllGranted => "All requested permissions are now granted."@,
                WaitOutcome::HelperExited => "The guided setup helper window closed."@,
                WaitOutcome::TimedOut => "Timed out waiting for the guided setup helper."@,
            },
    {
        match self {
            WaitOutcome::AllGranted => "All requested permissions are now granted.",
            WaitOutcome::HelperExited => "The guided setup helper window closed.",
            WaitOutcome::TimedOut => "Timed out waiting for the guided setup helper.",
        }
    }
}

/// Why a wait ended, and what its last poll found missing.
#[derive(Debug, Clone, PartialEq, Eq)]
pub struct WaitResult {
    pub outcome: WaitOutcome,
    pub still_needed: Vec<NeededPermission>,
}

/// One step of a wait, and what it gave.
pub enum WaitStep {
    /// The missing permissions were polled.
    Polled { needed: Vec<NeededPermission> },
    /// The helper was asked whether it is running.
    Asked { running: bool },
    /// The clock was read.
    Read { now: u64 },
    /// The wait paused.
    Slept { ms: u64 },
    /// The helper was told that everything is granted.
    Notified,
    /// The helper was ended.
    Terminated,
}

/// What a wait works with, and the history of its steps. The parts are private:
/// a wait in another module has no way to a step that the history does not
/// show.
pub struct Watched<'a, C, S, H, F> {
    child: &'a mut H,
    clock: &'a C,
    sleeper: &'a S,
    poll: F,
    steps: Ghost<Seq<WaitStep>>,
}

impl<'a, C: Clock, S: Sleeper, H: HelperChild, F: Fn() -> Vec<NeededPermission>> Watched<
    'a,
    C,
    S,
    H,
    F,
> {
    /// The clock, what the wait pauses with, and the poll.
    pub closed spec fn parts(self) -> (&'a C, &'a S, F) {
        (self.clock, self.sleeper, self.poll)
    }

    /// The clock.
    pub open spec fn clock(self) -> &'a C {
        self.parts().0
    }

    /// What the wait pauses with.
    pub open spec fn sleeper(self) -> &'a S {
        self.parts().1
    }

    /// The poll.
    pub open spec fn poll(self) -> F {
        self.parts().2
    }

    /// The hold on the helper.
    pub closed spec fn hold(self) -> &'a mut H {
        self.child
    }

    /// The helper, as it is now.
    pub open spec fn child(self) -> H {
        *self.hold()
    }

    /// The steps of the wait, in order.
    pub closed spec fn steps(self) -> Seq<WaitStep> {
        self.steps@
    }

    /// Finds what is missing.
    pub(crate) fn poll_needed(&mut self) -> (needed: Vec<NeededPermission>)
        requires
            call_requires(old(self).poll(), ()),
        ensures
            final(self).parts() == old(self).parts(),
            *final(final(self).hold()) == *final(old(self).hold()),
            final(self).child() == old(self).child(),
            final(self).steps() == old(self).steps().push(WaitStep::Polled { needed }),
            call_ensures(old(self).poll(), (), needed),
    {
        let needed = (self.poll)();
        proof {
            self.steps@ = self.steps@.push(WaitStep::Polled { needed });
        }
        needed
    }

    /// Reads the time.
    pub(crate) fn now_ms(&mut self) -> (now: u64)
        ensures
            final(self).parts() == old(self).parts(),
            *final(final(self).hold()) == *final(old(self).hold()),
            final(self).child() == old(self).child(),
            final(self).steps() == old(self).steps().push(WaitStep::Read { now }),
            call_ensures(C::now_ms, (old(self).clock(),), now),
    {
        let now: u64 = self.clock.now_ms();
        proof {
            self.steps@ = self.steps@.push(WaitStep::Read { now });
        }
        now
    }

    /// Pauses.
    pub(crate) fn sleep_ms(&mut self, ms: u64)
        ensures
            final(self).parts() == old(self).parts(),
            *final(final(self).hold()) == *final(old(self).hold()),
            final(self).child() == old(self).child(),
            final(self).steps() == old(self).steps().push(WaitStep::Slept { ms }),
            call_ensures(S::sleep_ms, (old(self).sleeper(), ms), ()),
    {
        self.sleeper.sleep_ms(ms);
        proof {
            self.steps@ = self.steps@.push(WaitStep::Slept { ms });
        }
    }

    /// Asks the helper whether it is running.
    pub(crate) fn still_running(&mut self) -> (running: bool)
        ensures
            final(self).parts() == old(self).parts(),
            *final(final(self).hold()) == *final(old(self).hold()),
            final(self).steps() == old(self).steps().push(WaitStep::Asked { running }),
            exists|a: &mut H|
                #[trigger] call_ensures(H::still_running, (a,), running) && *a == old(self).child()
                    && *final(a) == final(self).child(),
    {
        let running = self.child.still_running();
        proof {
            self.steps@ = self.steps@.push(WaitStep::Asked { running });
        }
        running
    }

    /// Tells the helper that everything is granted.
    pub(crate) fn notify_all_granted(&mut self)
        ensures
            final(self).parts() == old(self).parts(),
            *final(final(self).hold()) == *final(old(self).hold()),
            final(self).steps() == old(self).steps().push(WaitStep::Notified),
            exists|a: &mut H|
                #[trigger] call_ensures(H::notify_all_granted, (a,), ()) && *a == old(
                    self,
                ).child() && *final(a) == final(self).child(),
    {
        self.child.notify_all_granted();
        proof {
            self.steps@ = self.steps@.push(WaitStep::Notified);
        }
    }

    /// Ends the helper.
    pub(crate) fn terminate(&mut self)
        ensures
            final(self).parts() == old(self).parts(),
            *final(final(self).hold()) == *final(old(self).hold()),
            final(self).steps() == old(self).steps().push(WaitStep::Terminated),
            exists|z: &mut H|
                #[trigger] call_ensures(H::terminate, (z,), ()) && *z == old(self).child()
                    && *final(z) == final(self).child(),
    {
        self.child.terminate();
        proof {
            self.steps@ = self.steps@.push(WaitStep::Terminated);
        }
    }
}

/// Waits until everything is granted, the helper exits, or the deadline passes;
/// and ends the helper in every case. The poll comes before the look at the
/// helper, so a helper that exits as the last grant lands is reported as a
/// grant. The result is that of the poll that decided it. A wait whose rounds
/// could not be counted any more counts as timed out.
pub fn wait_for_grants_or_close<C: Clock, S: Sleeper, H: HelperChild, F: Fn() -> Vec<
    NeededPermission,
>>(
    child: &mut H,
    clock: &C,
    sleeper: &S,
    deadline_ms: u64,
    poll_interval_ms: u64,
    grace_ms: u64,
    poll: F,
) -> (r: WaitResult)
    requires
        call_requires(poll, ()),
    ensures
        r.outcome == WaitOutcome::AllGranted <==> r.still_needed@.len() == 0,
        call_ensures(poll, (), r.still_needed),
        exists|steps: Seq<WaitStep>|
            #[trigger] waited(
                clock,
                poll,
                Timing { deadline_ms, poll_interval_ms, grace_ms },
                seq![],
                steps,
                r,
            ),
        r.outcome == WaitOutcome::AllGranted ==> call_ensures(
            S::sleep_ms,
            (sleeper, grace_ms),
            (),
        ) && exists|a: &mut H, z: &mut H|
            #[trigger] call_ensures(H::notify_all_granted, (a,), ()) && #[trigger] call_ensures(
                H::terminate,
                (z,),
                (),
            ) && *final(a) == *z && *final(z) == *final(child),
        r.outcome == WaitOutcome::HelperExited ==> exists|a: &mut H, z: &mut H|
            #[trigger] call_ensures(H::still_running, (a,), false) && #[trigger] call_ensures(
                H::terminate,
                (z,),
                (),
            ) && *final(a) == *z && *final(z) == *final(child),
        r.outcome == WaitOutcome::TimedOut ==> exists|a: &mut H, z: &mut H|
            #[trigger] call_ensures(H::still_running, (a,), true) && #[trigger] call_ensures(
                H::terminate,
                (z,),
                (),
            ) && *final(a) == *z && *final(z) == *final(child),
{
    let mut helper = Watched { child, clock, sleeper, poll, steps: Ghost(Seq::empty()) };
    let timing = Timing { deadline_ms, poll_interval_ms, grace_ms };
    wait_watched(&mut helper, timing)
}

// ---- laws -----------------------------------------------------------------------

/// The arguments of the helper are pairs of a flag and a value: one pair for
/// each missing permission, and one for the bundle when it is known. No flag
/// carries a state.
pub proof fn arguments_come_in_pairs(
    needed: Seq<NeededView>,
    own_bundle: Option<Seq<char>>,
    i: int,
)
    requires
        0 <= i < needed.len(),
    ensures
        args_of(needed, own_bundle).len() == 2 * needed.len() + if own_bundle is Some {
            2int
        } else {
            0
        },
        args_of(needed, own_bundle)[2 * i] == "--needs"@,
        args_of(needed, own_bundle)[2 * i + 1] == helper_name(needed[i]),
    decreases needed.len(),
{
    lemma_needs_len(needed);
    lemma_needs_at(needed, i);
}

proof fn lemma_needs_len(needed: Seq<NeededView>)
    ensures
        needs_args(needed).len() == 2 * needed.len(),
    decreases needed.len(),
{
    if needed.len() > 0 {
        lemma_needs_len(needed.drop_last());
    }
}

proof fn lemma_needs_at(needed: Seq<NeededView>, i: int)
    requires
        0 <= i < needed.len(),
    ensures
        needs_args(needed)[2 * i] == "--needs"@,
        needs_args(needed)[2 * i + 1] == helper_name(needed[i]),
    decreases needed.len(),
{
    lemma_needs_len(needed);
    lemma_needs_len(needed.drop_last());
    if i < needed.len() - 1 {
        lemma_needs_at(needed.drop_last(), i);
    }
}

/// Nothing is missing exactly when every permission is granted.
pub proof fn nothing_missing_means_all_granted(
    accessibility_trusted: bool,
    screen_recording_trusted: bool,
    automation: AutomationCheck,
    target: Seq<char>,
)
    ensures
        missing(accessibility_trusted, screen_recording_trusted, automation, target).len() == 0
            <==> accessibility_trusted && screen_recording_trusted && automation
            == AutomationCheck::Permitted,
{
}

/// What is missing is what was not granted: accessibility and screen recording
/// exactly when they are not trusted, and automation of the target exactly when
/// it is not known to be permitted; each once, in this order.
pub proof fn what_is_missing_was_not_granted(
    accessibility_trusted: bool,
    screen_recording_trusted: bool,
    automation: AutomationCheck,
    target: Seq<char>,
)
    ensures
        ({
            let found = missing(accessibility_trusted, screen_recording_trusted, automation, target);
            let a = if accessibility_trusted {
                0int
            } else {
                1
            };
            let s = if screen_recording_trusted {
                0int
            } else {
                1
            };
            let m = if automation == AutomationCheck::Permitted {
                0int
            } else {
                1
            };
            &&& found.len() == a + s + m
            &&& !accessibility_trusted ==> found[0] == NeededView::Accessibility
            &&& !screen_recording_trusted ==> found[a] == NeededView::ScreenRecording
            &&& automation != AutomationCheck::Permitted ==> found[a + s] == (
            NeededView::Automation { target })
        }),
{
}

/// The helper is told each missing permission by its own name, and automation
/// with its target; the bundle comes last.
pub proof fn the_helper_is_told_what_is_missing(
    needed: Seq<NeededView>,
    own_bundle: Option<Seq<char>>,
    i: int,
)
    requires
        0 <= i < needed.len(),
    ensures
        args_of(needed, own_bundle)[2 * i] == "--needs"@,
        args_of(needed, own_bundle)[2 * i + 1] == match needed[i] {
            NeededView::Accessibility => "accessibility"@,
            NeededView::ScreenRecording => "screen-recording"@,
            NeededView::Automation { target } => "automation:"@ + target,
        },
        own_bundle matches Some(bundle) ==> args_of(needed, own_bundle).last() == bundle && args_of(
            needed,
            own_bundle,
        )[2 * needed.len() as int] == "--for-bundle"@,
        args_of(needed, own_bundle).len() == 2 * needed.len() + if own_bundle is Some {
            2int
        } else {
            0
        },
{
    arguments_come_in_pairs(needed, own_bundle, i);
    lemma_needs_len(needed);
}

/// A user reads each missing permission by its name, and automation with its
/// target.
pub proof fn users_read_what_is_missing(permission: NeededView)
    ensures
        shown_name(permission) == match permission {
            NeededView::Accessibility => "Accessibility"@,
            NeededView::ScreenRecording => "Screen Recording"@,
            NeededView::Automation { target } => "Automation ("@ + target + ")"@,
        },
        shown_names(seq![permission]) == shown_name(permission),
{
    assert(seq![permission].map_values(|p: NeededView| shown_name(p)) =~= seq![
        shown_name(permission),
    ]);
}

/// A run asks for permissions exactly when its first argument says so, for the
/// app that the second one names, and for the Finder where there is none.
pub proof fn runs_ask_for_the_named_app(args: Seq<Seq<char>>)
    ensures
        bootstrap_target(args) is Some <==> args.len() > 0 && args[0] == "--request-permissions"@,
        bootstrap_target(args) matches Some(target) ==> target == if args.len() > 1 {
            args[1]
        } else {
            "Finder"@
        },
{
}

/// A report ends by saying what is missing exactly when something is missing.
pub proof fn reports_end_with_what_is_missing(needed: &[NeededPermission], line: Option<String>)
    requires
        call_ensures(missing_line, (needed,), line),
    ensures
        line is Some <==> needed@.len() > 0,
        line matches Some(s) ==> s@ == "Still missing: "@ + shown_names(needed_views(needed@))
            + "."@,
{
}

/// What is said of a wait is how it ended.
pub proof fn waits_say_how_they_ended(outcome: WaitOutcome, line: &'static str)
    requires
        call_ensures(WaitOutcome::line, (outcome,), line),
    ensures
        line@ == "All requested permissions are now granted."@ <==> outcome
            == WaitOutcome::AllGranted,
        line@ == "The guided setup helper window closed."@ <==> outcome
            == WaitOutcome::HelperExited,
        line@ == "Timed out waiting for the guided setup helper."@ <==> outcome
            == WaitOutcome::TimedOut,
{
    reveal_strlit("All requested permissions are now granted.");
    reveal_strlit("The guided setup helper window closed.");
    reveal_strlit("Timed out waiting for the guided setup helper.");
    assert("All requested permissions are now granted."@[0] == 'A');
    assert("The guided setup helper window closed."@[1] == 'h');
    assert("Timed out waiting for the guided setup helper."@[1] == 'i');
}

/// The names of what is missing are shown in order, with a comma and a blank
/// between two.
pub proof fn names_are_shown_one_by_one(needed: Seq<NeededView>, next: NeededView)
    ensures
        shown_names(needed.push(next)) == if needed.len() == 0 {
            shown_name(next)
        } else {
            shown_names(needed) + ", "@ + shown_name(next)
        },
{
    let names = needed.map_values(|p: NeededView| shown_name(p));
    assert(needed.push(next).map_values(|p: NeededView| shown_name(p)) =~= names.push(
        shown_name(next),
    ));
    crate::text::lemma_joined_push(names, shown_name(next), ", "@);
}

} // verus!
