//! One install or uninstall run, as a state machine: each step takes what
//! the last piece of outside work came to and says what to report and what
//! to do next.  The caller performs the work (running `reg`, `tasklist` and
//! `taskkill`, looking for the browsers, launching them) and feeds the
//! result back.

use vstd::prelude::*;
use crate::forcelist::{
    add_args, add_args_spec, addition_plan, listed_values, plan_addition_for_output,
    plan_removal_for_output, query_args, query_args_spec, removal_args, removal_args_spec, removal_plan,
    string_views, ubol_entry, ubol_entry_spec, has_entry, AdditionPlan, RemovalPlan,
    RemovalPlanView,
};
use crate::listing::law_removal_targets_the_entry;
use crate::strings::{decode_lossy, utf8_lossy};
use crate::text::{chars_of, find, find_chars, lemma_find_absent, lemma_find_occurs, occurs_at};

verus! {

broadcast use vstd::string::group_string_axioms;

/// Full uBlock Origin's page on addons.mozilla.org.
pub const AMO_UBO_PAGE: &'static str = "https://addons.mozilla.org/firefox/addon/ublock-origin/";

/// Firefox's add-on manager, where uBlock Origin is removed by hand.
pub const FIREFOX_ADDONS_PAGE: &'static str = "about:addons";

/// How long to wait after closing Chrome before starting it again.
pub const RESTART_DELAY_MS: u64 = 600;

pub const REG_PROGRAM: &'static str = "reg";

pub const TASKLIST_PROGRAM: &'static str = "tasklist";

pub const TASKKILL_PROGRAM: &'static str = "taskkill";

pub const MSG_CHROME_FOUND_INSTALL: &'static str =
    "Chrome found — writing extension policy (uBlock Origin Lite)";

pub const MSG_POLICY_WRITTEN: &'static str = "policy written — HKCU, no admin needed";

pub const MSG_RESTART_INSTALL: &'static str = "restarting Chrome so it installs now";

pub const MSG_CLOSED_INSTALL: &'static str = "Chrome closed — it installs on next launch";

pub const MSG_CHROME_MISSING: &'static str = "Chrome not found — skipped";

pub const MSG_FIREFOX_FOUND_INSTALL: &'static str =
    "Firefox found — opening the uBlock Origin add-on page";

pub const MSG_FIREFOX_CLICK: &'static str = "in Firefox: click “Add to Firefox”, then “Add”";

pub const MSG_FIREFOX_MISSING: &'static str = "Firefox not found — skipped";

pub const MSG_REMOVING_POLICY: &'static str = "removing the Chrome extension policy";

pub const MSG_POLICY_REMOVED: &'static str = "policy removed";

pub const MSG_RESTART_UNINSTALL: &'static str = "restarting Chrome to remove uBlock";

pub const MSG_CLOSED_UNINSTALL: &'static str = "Chrome closed — uBlock is removed on next launch";

pub const MSG_NOTHING_TO_REMOVE: &'static str =
    "no uBlock policy set for Chrome — nothing to remove";

pub const MSG_FIREFOX_FOUND_UNINSTALL: &'static str =
    "opening Firefox add-ons — click Remove on uBlock Origin";

pub const ERR_NO_BROWSER: &'static str = "Neither Chrome nor Firefox was found on this PC.";

pub const ERR_READ_POLICY: &'static str = "Failed to read Chrome's extension policy";

pub const ERR_WRITE_POLICY: &'static str = "Failed to write the Chrome extension policy";

pub const ERR_WRITE_REFUSED: &'static str =
    "Writing the Chrome policy failed. Please try running the installer again.";

pub const ERR_REMOVE_POLICY: &'static str = "Failed to remove the Chrome extension policy";

pub const ERR_REMOVE_REFUSED: &'static str = "Removing the Chrome policy failed.";

pub const ERR_LAUNCH_FIREFOX: &'static str = "Failed to launch Firefox";

/// What a run reports when it stops on a panic.
pub const ERR_CRASHED: &'static str = "The operation crashed unexpectedly (internal error).";

// ---------------------------------------------------------------------------
// Is Chrome running?

/// ASCII upper-case letters lowered, everything else kept
/// (`str::to_ascii_lowercase`).
pub open spec fn ascii_lower(s: Seq<char>) -> Seq<char> {
    s.map_values(|c: char| if 0x41 <= (c as u32) <= 0x5a { ((c as u32) + 32) as char } else { c })
}

pub open spec fn chrome_exe() -> Seq<char> {
    seq!['c', 'h', 'r', 'o', 'm', 'e', '.', 'e', 'x', 'e']
}

/// The process listing names `chrome.exe`, in any case.
pub open spec fn lists_chrome(listing: Seq<char>) -> bool {
    find(ascii_lower(listing), chrome_exe()) is Some
}

fn ascii_lower_chars(v: &Vec<char>) -> (r: Vec<char>)
    ensures
        r@ == ascii_lower(v@),
{
    let mut r: Vec<char> = Vec::new();
    let mut i: usize = 0;
    while i < v.len()
        invariant
            i <= v.len(),
            r@ == ascii_lower(v@.take(i as int)),
        decreases v.len() - i,
    {
        let c = v[i];
        let u = c as u32;
        let l = if 0x41 <= u && u <= 0x5a {
            ((u + 32) as u8) as char
        } else {
            c
        };
        proof {
            assert(v@.take(i + 1) =~= v@.take(i as int).push(c));
        }
        r.push(l);
        assert(r@ =~= ascii_lower(v@.take(i + 1)));
        i += 1;
    }
    assert(v@.take(v.len() as int) =~= v@);
    r
}

/// Whether a process listing names `chrome.exe`, in any case.
pub fn lists_chrome_text(listing: &str) -> (r: bool)
    ensures
        r == lists_chrome(listing@),
{
    let lower = ascii_lower_chars(&chars_of(listing));
    let pat = vec!['c', 'h', 'r', 'o', 'm', 'e', '.', 'e', 'x', 'e'];
    assert(pat@ =~= chrome_exe());
    find_chars(&lower, &pat).is_some()
}

/// Whether Chrome runs, from what `tasklist` wrote; `None` when `tasklist`
/// could not be run, which counts as not running.
pub fn chrome_is_running(stdout: Option<&[u8]>) -> (r: bool)
    ensures
        r == match stdout {
            Some(b) => lists_chrome(utf8_lossy(b@)),
            None => false,
        },
{
    match stdout {
        Some(bytes) => {
            let listing = decode_lossy(bytes);
            lists_chrome_text(listing.as_str())
        },
        None => false,
    }
}

pub open spec fn listing_args() -> Seq<Seq<char>> {
    seq!["/FI"@, "IMAGENAME eq chrome.exe"@, "/NH"@]
}

pub open spec fn kill_args() -> Seq<Seq<char>> {
    seq!["/IM"@, "chrome.exe"@, "/F"@, "/T"@]
}

/// `tasklist /FI "IMAGENAME eq chrome.exe" /NH`.
pub fn chrome_listing_args() -> (r: Vec<String>)
    ensures
        string_views(r@) == listing_args(),
{
    let r = vec!["/FI".to_string(), "IMAGENAME eq chrome.exe".to_string(), "/NH".to_string()];
    assert(string_views(r@) =~= listing_args());
    r
}

/// `taskkill /IM chrome.exe /F /T`.
pub fn close_chrome_args() -> (r: Vec<String>)
    ensures
        string_views(r@) == kill_args(),
{
    let r = vec!["/IM".to_string(), "chrome.exe".to_string(), "/F".to_string(), "/T".to_string()];
    assert(string_views(r@) =~= kill_args());
    r
}


// ---------------------------------------------------------------------------
// The run

/// Which of the two buttons started the run.
#[derive(Debug, Clone, Copy, PartialEq, Eq, Structural)]
pub enum Job {
    Install,
    Uninstall,
}

/// Where a run stands: what it waits for.  `P` is the caller's type for a
/// browser's executable path.
#[derive(Debug)]
pub enum Phase<P> {
    /// Waiting to learn where Chrome is.
    LocatingChrome,
    /// Waiting for `reg query` on the policy key.
    QueryingPolicy(P),
    /// Waiting for `reg add` (installing).
    WritingPolicy(P),
    /// Waiting for `reg delete` (uninstalling).
    DeletingPolicy(P),
    /// Waiting for `tasklist`.
    CheckingChrome(P),
    /// Waiting for Chrome to be closed and started again.
    RestartingChrome,
    /// Waiting to learn where Firefox is.
    LocatingFirefox,
    /// Waiting for Firefox to be launched.
    LaunchingFirefox,
    /// The run is over.
    Finished,
}

/// The state of a run: the job, the phase, and whether some browser has been
/// dealt with.
#[derive(Debug)]
pub struct TaskState<P> {
    pub job: Job,
    pub phase: Phase<P>,
    pub handled: bool,
}

/// What a piece of outside work came to.
pub enum Event<P> {
    /// Chrome's executable, if it was found.
    ChromeLocated(Option<P>),
    /// What `reg query` wrote, or why it could not be run.
    PolicyQueried(Result<Vec<u8>, String>),
    /// Whether `reg add` succeeded, or why it could not be run.
    PolicyWritten(Result<bool, String>),
    /// Whether `reg delete` succeeded, or why it could not be run.
    PolicyDeleted(Result<bool, String>),
    /// What `tasklist` wrote, `None` when it could not be run.
    ChromeListing(Option<Vec<u8>>),
    /// Chrome was closed and started again (whether those worked or not).
    ChromeRestarted,
    /// Firefox's executable, if it was found.
    FirefoxLocated(Option<P>),
    /// Whether Firefox could be launched.
    FirefoxLaunched(Result<(), String>),
}

pub enum EventView<P> {
    ChromeLocated(Option<P>),
    PolicyQueried(Result<Seq<u8>, Seq<char>>),
    PolicyWritten(Result<bool, Seq<char>>),
    PolicyDeleted(Result<bool, Seq<char>>),
    ChromeListing(Option<Seq<u8>>),
    ChromeRestarted,
    FirefoxLocated(Option<P>),
    FirefoxLaunched(Result<(), Seq<char>>),
}

impl<P> View for Event<P> {
    type V = EventView<P>;

    open spec fn view(&self) -> EventView<P> {
        match self {
            Event::ChromeLocated(p) => EventView::ChromeLocated(*p),
            Event::PolicyQueried(r) => EventView::PolicyQueried(
                match r {
                    Ok(b) => Ok(b@),
                    Err(e) => Err(e@),
                },
            ),
            Event::PolicyWritten(r) => EventView::PolicyWritten(
                match r {
                    Ok(b) => Ok(*b),
                    Err(e) => Err(e@),
                },
            ),
            Event::PolicyDeleted(r) => EventView::PolicyDeleted(
                match r {
                    Ok(b) => Ok(*b),
                    Err(e) => Err(e@),
                },
            ),
            Event::ChromeListing(o) => EventView::ChromeListing(
                match o {
                    Some(b) => Some(b@),
                    None => None,
                },
            ),
            Event::ChromeRestarted => EventView::ChromeRestarted,
            Event::FirefoxLocated(p) => EventView::FirefoxLocated(*p),
            Event::FirefoxLaunched(r) => EventView::FirefoxLaunched(
                match r {
                    Ok(()) => Ok(()),
                    Err(e) => Err(e@),
                },
            ),
        }
    }
}

/// The next piece of outside work.
pub enum Action<P> {
    /// Look for Chrome below the install roots (`find_chrome`).
    LocateChrome,
    /// Run `reg` with these arguments and report what it wrote.
    QueryPolicy(Vec<String>),
    /// Run `reg` with these arguments and report whether it succeeded.
    WritePolicy(Vec<String>),
    /// Run `reg` with these arguments and report whether it succeeded.
    DeletePolicy(Vec<String>),
    /// Run `tasklist` with these arguments and report what it wrote.
    ListChrome(Vec<String>),
    /// Run `taskkill` with these arguments, wait `RESTART_DELAY_MS`, start
    /// Chrome from this path; failures of either are ignored.
    RestartChrome(P, Vec<String>),
    /// Look for Firefox below the install roots (`find_firefox`).
    LocateFirefox,
    /// Start Firefox from this path with this argument.
    LaunchFirefox(P, String),
    /// The run is over, with this outcome.
    Finish(Result<(), String>),
}

pub enum ActionView<P> {
    LocateChrome,
    QueryPolicy(Seq<Seq<char>>),
    WritePolicy(Seq<Seq<char>>),
    DeletePolicy(Seq<Seq<char>>),
    ListChrome(Seq<Seq<char>>),
    RestartChrome(P, Seq<Seq<char>>),
    LocateFirefox,
    LaunchFirefox(P, Seq<char>),
    Finish(Result<(), Seq<char>>),
}

impl<P> View for Action<P> {
    type V = ActionView<P>;

    open spec fn view(&self) -> ActionView<P> {
        match self {
            Action::LocateChrome => ActionView::LocateChrome,
            Action::QueryPolicy(a) => ActionView::QueryPolicy(string_views(a@)),
            Action::WritePolicy(a) => ActionView::WritePolicy(string_views(a@)),
            Action::DeletePolicy(a) => ActionView::DeletePolicy(string_views(a@)),
            Action::ListChrome(a) => ActionView::ListChrome(string_views(a@)),
            Action::RestartChrome(p, a) => ActionView::RestartChrome(*p, string_views(a@)),
            Action::LocateFirefox => ActionView::LocateFirefox,
            Action::LaunchFirefox(p, a) => ActionView::LaunchFirefox(*p, a@),
            Action::Finish(r) => ActionView::Finish(
                match r {
                    Ok(()) => Ok(()),
                    Err(e) => Err(e@),
                },
            ),
        }
    }
}

/// A line to report (if any) and the next piece of work.
pub struct Step<P> {
    pub progress: Option<String>,
    pub action: Action<P>,
}

pub struct StepView<P> {
    pub progress: Option<Seq<char>>,
    pub action: ActionView<P>,
}

impl<P> View for Step<P> {
    type V = StepView<P>;

    open spec fn view(&self) -> StepView<P> {
        StepView {
            progress: match self.progress {
                Some(s) => Some(s@),
                None => None,
            },
            action: self.action@,
        }
    }
}

/// The phase is waiting for this kind of result.
pub open spec fn awaits<P>(phase: Phase<P>, event: EventView<P>) -> bool {
    match phase {
        Phase::LocatingChrome => event is ChromeLocated,
        Phase::QueryingPolicy(_) => event is PolicyQueried,
        Phase::WritingPolicy(_) => event is PolicyWritten,
        Phase::DeletingPolicy(_) => event is PolicyDeleted,
        Phase::CheckingChrome(_) => event is ChromeListing,
        Phase::RestartingChrome => event is ChromeRestarted,
        Phase::LocatingFirefox => event is FirefoxLocated,
        Phase::LaunchingFirefox => event is FirefoxLaunched,
        Phase::Finished => false,
    }
}

pub open spec fn detailed(context: Seq<char>, detail: Seq<char>) -> Seq<char> {
    context + ": "@ + detail
}

pub open spec fn move_to<P>(
    job: Job,
    phase: Phase<P>,
    handled: bool,
    progress: Option<Seq<char>>,
    action: ActionView<P>,
) -> (TaskState<P>, StepView<P>) {
    (TaskState { job, phase, handled }, StepView { progress, action })
}

pub open spec fn finish<P>(job: Job, handled: bool, progress: Option<Seq<char>>, outcome: Result<
    (),
    Seq<char>,
>) -> (TaskState<P>, StepView<P>) {
    move_to(job, Phase::Finished, handled, progress, ActionView::Finish(outcome))
}

/// One step of a run: from the state and what the awaited work came to, the
/// next state, the line to report and the next piece of work.
pub open spec fn transition<P>(s: TaskState<P>, e: EventView<P>) -> (TaskState<P>, StepView<P>) {
    let job = s.job;
    let h = s.handled;
    match (s.phase, e) {
        (Phase::LocatingChrome, EventView::ChromeLocated(Some(chrome))) => move_to(
            job,
            Phase::QueryingPolicy(chrome),
            h,
            Some(
                if job == Job::Install {
                    MSG_CHROME_FOUND_INSTALL@
                } else {
                    MSG_REMOVING_POLICY@
                },
            ),
            ActionView::QueryPolicy(query_args_spec()),
        ),
        (Phase::LocatingChrome, EventView::ChromeLocated(None)) => move_to(
            job,
            Phase::LocatingFirefox,
            h,
            Some(MSG_CHROME_MISSING@),
            ActionView::LocateFirefox,
        ),
        (Phase::QueryingPolicy(_), EventView::PolicyQueried(Err(err))) => finish(
            job,
            h,
            None,
            Err(detailed(ERR_READ_POLICY@, err)),
        ),
        (Phase::QueryingPolicy(chrome), EventView::PolicyQueried(Ok(out))) => {
            let vals = listed_values(utf8_lossy(out));
            if job == Job::Install {
                match addition_plan(vals, ubol_entry_spec()) {
                    AdditionPlan::AlreadyPresent => move_to(
                        job,
                        Phase::CheckingChrome(chrome),
                        h,
                        Some(MSG_POLICY_WRITTEN@),
                        ActionView::ListChrome(listing_args()),
                    ),
                    AdditionPlan::AddAt(slot) => move_to(
                        job,
                        Phase::WritingPolicy(chrome),
                        h,
                        None,
                        ActionView::WritePolicy(add_args_spec(slot, ubol_entry_spec())),
                    ),
                    AdditionPlan::NoFreeSlot => finish(job, h, None, Err(ERR_CRASHED@)),
                }
            } else {
                let plan = removal_plan(vals, ubol_entry_spec());
                match plan {
                    RemovalPlanView::NotPresent => move_to(
                        job,
                        Phase::LocatingFirefox,
                        true,
                        Some(MSG_NOTHING_TO_REMOVE@),
                        ActionView::LocateFirefox,
                    ),
                    RemovalPlanView::TooManyValues => finish(job, h, None, Err(ERR_CRASHED@)),
                    _ => move_to(
                        job,
                        Phase::DeletingPolicy(chrome),
                        h,
                        None,
                        ActionView::DeletePolicy(removal_args_spec(plan)->0),
                    ),
                }
            }
        },
        (Phase::WritingPolicy(_), EventView::PolicyWritten(Err(err))) => finish(
            job,
            h,
            None,
            Err(detailed(ERR_WRITE_POLICY@, err)),
        ),
        (Phase::WritingPolicy(_), EventView::PolicyWritten(Ok(false))) => finish(
            job,
            h,
            None,
            Err(ERR_WRITE_REFUSED@),
        ),
        (Phase::WritingPolicy(chrome), EventView::PolicyWritten(Ok(true))) => move_to(
            job,
            Phase::CheckingChrome(chrome),
            h,
            Some(MSG_POLICY_WRITTEN@),
            ActionView::ListChrome(listing_args()),
        ),
        (Phase::DeletingPolicy(_), EventView::PolicyDeleted(Err(err))) => finish(
            job,
            h,
            None,
            Err(detailed(ERR_REMOVE_POLICY@, err)),
        ),
        (Phase::DeletingPolicy(_), EventView::PolicyDeleted(Ok(false))) => finish(
            job,
            h,
            None,
            Err(ERR_REMOVE_REFUSED@),
        ),
        (Phase::DeletingPolicy(chrome), EventView::PolicyDeleted(Ok(true))) => move_to(
            job,
            Phase::CheckingChrome(chrome),
            h,
            Some(MSG_POLICY_REMOVED@),
            ActionView::ListChrome(listing_args()),
        ),
        (Phase::CheckingChrome(chrome), EventView::ChromeListing(out)) => {
            let running = match out {
                Some(b) => lists_chrome(utf8_lossy(b)),
                None => false,
            };
            if running {
                move_to(
                    job,
                    Phase::RestartingChrome,
                    h,
                    Some(
                        if job == Job::Install {
                            MSG_RESTART_INSTALL@
                        } else {
                            MSG_RESTART_UNINSTALL@
                        },
                    ),
                    ActionView::RestartChrome(chrome, kill_args()),
                )
            } else {
                move_to(
                    job,
                    Phase::LocatingFirefox,
                    true,
                    Some(
                        if job == Job::Install {
                            MSG_CLOSED_INSTALL@
                        } else {
                            MSG_CLOSED_UNINSTALL@
                        },
                    ),
                    ActionView::LocateFirefox,
                )
            }
        },
        (Phase::RestartingChrome, EventView::ChromeRestarted) => move_to(
            job,
            Phase::LocatingFirefox,
            true,
            None,
            ActionView::LocateFirefox,
        ),
        (Phase::LocatingFirefox, EventView::FirefoxLocated(Some(firefox))) => move_to(
            job,
            Phase::LaunchingFirefox,
            h,
            Some(
                if job == Job::Install {
                    MSG_FIREFOX_FOUND_INSTALL@
                } else {
                    MSG_FIREFOX_FOUND_UNINSTALL@
                },
            ),
            ActionView::LaunchFirefox(
                firefox,
                if job == Job::Install {
                    AMO_UBO_PAGE@
                } else {
                    FIREFOX_ADDONS_PAGE@
                },
            ),
        ),
        (Phase::LocatingFirefox, EventView::FirefoxLocated(None)) => finish(
            job,
            h,
            Some(MSG_FIREFOX_MISSING@),
            if h {
                Ok(())
            } else {
                Err(ERR_NO_BROWSER@)
            },
        ),
        (Phase::LaunchingFirefox, EventView::FirefoxLaunched(Err(err))) => finish(
            job,
            h,
            None,
            Err(detailed(ERR_LAUNCH_FIREFOX@, err)),
        ),
        (Phase::LaunchingFirefox, EventView::FirefoxLaunched(Ok(()))) => finish(
            job,
            true,
            if job == Job::Install {
                Some(MSG_FIREFOX_CLICK@)
            } else {
                None
            },
            Ok(()),
        ),
        // Outside `awaits`, which `advance` never meets.
        _ => (s, StepView { progress: None, action: ActionView::Finish(Err(ERR_CRASHED@)) }),
    }
}


fn say(msg: &str) -> (r: Option<String>)
    ensures
        r matches Some(t) && t@ == msg@,
{
    Some(msg.to_string())
}

fn detailed_exec(context: &str, detail: String) -> (r: String)
    ensures
        r@ == detailed(context@, detail@),
{
    let mut r = context.to_string();
    r.append(": ");
    r.append(detail.as_str());
    r
}

fn crashed<P>(job: Job, handled: bool) -> (r: (TaskState<P>, Step<P>))
    ensures
        (r.0, r.1@) == finish::<P>(job, handled, None, Err(ERR_CRASHED@)),
{
    (
        TaskState { job, phase: Phase::Finished, handled },
        Step { progress: None, action: Action::Finish(Err(ERR_CRASHED.to_string())) },
    )
}

/// A run of the given job, at its start: it looks for Chrome first.
pub fn start_run<P>(job: Job) -> (r: (TaskState<P>, Step<P>))
    ensures
        r.0 == (TaskState::<P> { job, phase: Phase::LocatingChrome, handled: false }),
        r.1@ == (StepView::<P> { progress: None, action: ActionView::LocateChrome }),
{
    (
        TaskState { job, phase: Phase::LocatingChrome, handled: false },
        Step { progress: None, action: Action::LocateChrome },
    )
}

/// An install run: uBlock Origin Lite into Chrome through the policy key,
/// full uBlock Origin into Firefox through its add-on page.
pub fn run_install<P>() -> (r: (TaskState<P>, Step<P>))
    ensures
        r.0 == (TaskState::<P> { job: Job::Install, phase: Phase::LocatingChrome, handled: false }),
        r.1@ == (StepView::<P> { progress: None, action: ActionView::LocateChrome }),
{
    start_run(Job::Install)
}

/// An uninstall run: the policy value out of Chrome's key, Firefox's add-on
/// manager opened.
pub fn run_uninstall<P>() -> (r: (TaskState<P>, Step<P>))
    ensures
        r.0 == (TaskState::<P> {
            job: Job::Uninstall,
            phase: Phase::LocatingChrome,
            handled: false,
        }),
        r.1@ == (StepView::<P> { progress: None, action: ActionView::LocateChrome }),
{
    start_run(Job::Uninstall)
}

impl<P> TaskState<P> {
    /// Whether the run waits for this kind of result.
    pub fn awaits_event(&self, event: &Event<P>) -> (r: bool)
        ensures
            r == awaits(self.phase, event@),
    {
        match (&self.phase, event) {
            (Phase::LocatingChrome, Event::ChromeLocated(_)) => true,
            (Phase::QueryingPolicy(_), Event::PolicyQueried(_)) => true,
            (Phase::WritingPolicy(_), Event::PolicyWritten(_)) => true,
            (Phase::DeletingPolicy(_), Event::PolicyDeleted(_)) => true,
            (Phase::CheckingChrome(_), Event::ChromeListing(_)) => true,
            (Phase::RestartingChrome, Event::ChromeRestarted) => true,
            (Phase::LocatingFirefox, Event::FirefoxLocated(_)) => true,
            (Phase::LaunchingFirefox, Event::FirefoxLaunched(_)) => true,
            _ => false,
        }
    }

    /// One step of the run.
    pub fn advance(self, event: Event<P>) -> (r: (TaskState<P>, Step<P>))
        requires
            awaits(self.phase, event@),
        ensures
            (r.0, r.1@) == transition(self, event@),
    {
        let TaskState { job, phase, handled } = self;
        let install = match job {
            Job::Install => true,
            Job::Uninstall => false,
        };
        match phase {
            Phase::LocatingChrome => match event {
                Event::ChromeLocated(Some(chrome)) => (
                    TaskState { job, phase: Phase::QueryingPolicy(chrome), handled },
                    Step {
                        progress: say(
                            if install {
                                MSG_CHROME_FOUND_INSTALL
                            } else {
                                MSG_REMOVING_POLICY
                            },
                        ),
                        action: Action::QueryPolicy(query_args()),
                    },
                ),
                _ => (
                    TaskState { job, phase: Phase::LocatingFirefox, handled },
                    Step { progress: say(MSG_CHROME_MISSING), action: Action::LocateFirefox },
                ),
            },
            Phase::QueryingPolicy(chrome) => match event {
                Event::PolicyQueried(Ok(out)) => {
                    let entry = ubol_entry();
                    if install {
                        match plan_addition_for_output(out.as_slice(), entry.as_str()) {
                            AdditionPlan::AlreadyPresent => (
                                TaskState { job, phase: Phase::CheckingChrome(chrome), handled },
                                Step {
                                    progress: say(MSG_POLICY_WRITTEN),
                                    action: Action::ListChrome(chrome_listing_args()),
                                },
                            ),
                            AdditionPlan::AddAt(slot) => (
                                TaskState { job, phase: Phase::WritingPolicy(chrome), handled },
                                Step {
                                    progress: None,
                                    action: Action::WritePolicy(add_args(slot, entry.as_str())),
                                },
                            ),
                            AdditionPlan::NoFreeSlot => crashed(job, handled),
                        }
                    } else {
                        let plan = plan_removal_for_output(out.as_slice(), entry.as_str());
                        match plan {
                            RemovalPlan::NotPresent => (
                                TaskState { job, phase: Phase::LocatingFirefox, handled: true },
                                Step {
                                    progress: say(MSG_NOTHING_TO_REMOVE),
                                    action: Action::LocateFirefox,
                                },
                            ),
                            RemovalPlan::TooManyValues => crashed(job, handled),
                            _ => match removal_args(&plan) {
                                Some(args) => (
                                    TaskState { job, phase: Phase::DeletingPolicy(chrome), handled },
                                    Step { progress: None, action: Action::DeletePolicy(args) },
                                ),
                                None => crashed(job, handled),
                            },
                        }
                    }
                },
                Event::PolicyQueried(Err(err)) => (
                    TaskState { job, phase: Phase::Finished, handled },
                    Step {
                        progress: None,
                        action: Action::Finish(Err(detailed_exec(ERR_READ_POLICY, err))),
                    },
                ),
                _ => crashed(job, handled),
            },
            Phase::WritingPolicy(chrome) => match event {
                Event::PolicyWritten(Ok(true)) => (
                    TaskState { job, phase: Phase::CheckingChrome(chrome), handled },
                    Step {
                        progress: say(MSG_POLICY_WRITTEN),
                        action: Action::ListChrome(chrome_listing_args()),
                    },
                ),
                Event::PolicyWritten(Ok(false)) => (
                    TaskState { job, phase: Phase::Finished, handled },
                    Step {
                        progress: None,
                        action: Action::Finish(Err(ERR_WRITE_REFUSED.to_string())),
                    },
                ),
                Event::PolicyWritten(Err(err)) => (
                    TaskState { job, phase: Phase::Finished, handled },
                    Step {
                        progress: None,
                        action: Action::Finish(Err(detailed_exec(ERR_WRITE_POLICY, err))),
                    },
                ),
                _ => crashed(job, handled),
            },
            Phase::DeletingPolicy(chrome) => match event {
                Event::PolicyDeleted(Ok(true)) => (
                    TaskState { job, phase: Phase::CheckingChrome(chrome), handled },
                    Step {
                        progress: say(MSG_POLICY_REMOVED),
                        action: Action::ListChrome(chrome_listing_args()),
                    },
                ),
                Event::PolicyDeleted(Ok(false)) => (
                    TaskState { job, phase: Phase::Finished, handled },
                    Step {
                        progress: None,
                        action: Action::Finish(Err(ERR_REMOVE_REFUSED.to_string())),
                    },
                ),
                Event::PolicyDeleted(Err(err)) => (
                    TaskState { job, phase: Phase::Finished, handled },
                    Step {
                        progress: None,
                        action: Action::Finish(Err(detailed_exec(ERR_REMOVE_POLICY, err))),
                    },
                ),
                _ => crashed(job, handled),
            },
            Phase::CheckingChrome(chrome) => match event {
                Event::ChromeListing(out) => {
                    let running = match &out {
                        Some(b) => chrome_is_running(Some(b.as_slice())),
                        None => chrome_is_running(None),
                    };
                    if running {
                        (
                            TaskState { job, phase: Phase::RestartingChrome, handled },
                            Step {
                                progress: say(
                                    if install {
                                        MSG_RESTART_INSTALL
                                    } else {
                                        MSG_RESTART_UNINSTALL
                                    },
                                ),
                                action: Action::RestartChrome(chrome, close_chrome_args()),
                            },
                        )
                    } else {
                        (
                            TaskState { job, phase: Phase::LocatingFirefox, handled: true },
                            Step {
                                progress: say(
                                    if install {
                                        MSG_CLOSED_INSTALL
                                    } else {
                                        MSG_CLOSED_UNINSTALL
                                    },
                                ),
                                action: Action::LocateFirefox,
                            },
                        )
                    }
                },
                _ => crashed(job, handled),
            },
            Phase::RestartingChrome => (
                TaskState { job, phase: Phase::LocatingFirefox, handled: true },
                Step { progress: None, action: Action::LocateFirefox },
            ),
            Phase::LocatingFirefox => match event {
                Event::FirefoxLocated(Some(firefox)) => (
                    TaskState { job, phase: Phase::LaunchingFirefox, handled },
                    Step {
                        progress: say(
                            if install {
                                MSG_FIREFOX_FOUND_INSTALL
                            } else {
                                MSG_FIREFOX_FOUND_UNINSTALL
                            },
                        ),
                        action: Action::LaunchFirefox(
                            firefox,
                            if install {
                                AMO_UBO_PAGE.to_string()
                            } else {
                                FIREFOX_ADDONS_PAGE.to_string()
                            },
                        ),
                    },
                ),
                _ => (
                    TaskState { job, phase: Phase::Finished, handled },
                    Step {
                        progress: say(MSG_FIREFOX_MISSING),
                        action: Action::Finish(
                            if handled {
                                Ok(())
                            } else {
                                Err(ERR_NO_BROWSER.to_string())
                            },
                        ),
                    },
                ),
            },
            Phase::LaunchingFirefox => match event {
                Event::FirefoxLaunched(Ok(())) => (
                    TaskState { job, phase: Phase::Finished, handled: true },
                    Step {
                        progress: if install {
                            say(MSG_FIREFOX_CLICK)
                        } else {
                            None
                        },
                        action: Action::Finish(Ok(())),
                    },
                ),
                Event::FirefoxLaunched(Err(err)) => (
                    TaskState { job, phase: Phase::Finished, handled },
                    Step {
                        progress: None,
                        action: Action::Finish(Err(detailed_exec(ERR_LAUNCH_FIREFOX, err))),
                    },
                ),
                _ => crashed(job, handled),
            },
            Phase::Finished => crashed(job, handled),
        }
    }
}


// ---------------------------------------------------------------------------
// Laws of a run

/// How many more results a run can wait for from this phase on.
pub open spec fn steps_left<P>(phase: Phase<P>) -> nat {
    match phase {
        Phase::LocatingChrome => 7,
        Phase::QueryingPolicy(_) => 6,
        Phase::WritingPolicy(_) => 5,
        Phase::DeletingPolicy(_) => 5,
        Phase::CheckingChrome(_) => 4,
        Phase::RestartingChrome => 3,
        Phase::LocatingFirefox => 2,
        Phase::LaunchingFirefox => 1,
        Phase::Finished => 0,
    }
}

/// Every run ends, and always with an outcome: each step leaves fewer
/// results to wait for (at most seven from the start), keeps the job, and
/// the step that ends the run is the one whose action is `Finish`.
pub proof fn law_run_always_finishes<P>(s: TaskState<P>, e: EventView<P>)
    requires
        awaits(s.phase, e),
    ensures
        steps_left(transition(s, e).0.phase) < steps_left(s.phase),
        transition(s, e).0.job == s.job,
        (transition(s, e).0.phase is Finished) <==> (transition(s, e).1.action is Finish),
{
}

/// Once a run has turned to Firefox it never acts on Chrome again, and a run
/// that finds no Chrome turns to Firefox at once.
pub proof fn law_no_chrome_no_chrome_actions<P>(s: TaskState<P>, e: EventView<P>)
    requires
        awaits(s.phase, e),
    ensures
        (s.phase is LocatingFirefox || s.phase is LaunchingFirefox) ==> {
            let (n, st) = transition(s, e);
            &&& (n.phase is LaunchingFirefox || n.phase is Finished)
            &&& (st.action is LaunchFirefox || st.action is Finish)
        },
        (s.phase is LocatingChrome && e == EventView::<P>::ChromeLocated(None)) ==> {
            let (n, st) = transition(s, e);
            &&& n.phase is LocatingFirefox
            &&& st.action is LocateFirefox
        },
{
}

/// A run succeeds only when it dealt with some browser: once dealt with, it
/// stays so, and a run that reaches the end without having dealt with either
/// browser fails with "neither was found".
pub proof fn law_success_needs_a_browser<P>(s: TaskState<P>, e: EventView<P>)
    requires
        awaits(s.phase, e),
    ensures
        s.handled ==> transition(s, e).0.handled,
        transition(s, e).1.action == ActionView::<P>::Finish(Ok(())) ==> transition(s, e).0.handled,
        (s.phase is LocatingFirefox && !s.handled && e == EventView::<P>::FirefoxLocated(None))
            ==> transition(s, e).1.action == ActionView::<P>::Finish(Err(ERR_NO_BROWSER@)),
{
}

/// A run changes the policy key only as the listing calls for: an install
/// run writes only when no listed value holds uBlock's entry, and then the
/// value that `addition_plan` picks; an uninstall run deletes only when some
/// listed value holds the entry.
pub proof fn law_policy_changes_follow_the_listing<P>(s: TaskState<P>, out: Seq<u8>)
    requires
        s.phase is QueryingPolicy,
    ensures
        ({
            let vals = listed_values(utf8_lossy(out));
            let step = transition(s, EventView::<P>::PolicyQueried(Ok(out))).1;
            &&& step.action is WritePolicy ==> {
                &&& s.job == Job::Install
                &&& !has_entry(vals, ubol_entry_spec())
                &&& addition_plan(vals, ubol_entry_spec()) matches AdditionPlan::AddAt(slot)
                    && step.action == ActionView::<P>::WritePolicy(
                    add_args_spec(slot, ubol_entry_spec()),
                )
            }
            &&& step.action is DeletePolicy ==> {
                &&& s.job == Job::Uninstall
                &&& has_entry(vals, ubol_entry_spec())
            }
        }),
{
    law_removal_targets_the_entry(utf8_lossy(out), ubol_entry_spec());
}

/// Launching Firefox is success: whatever came before (Chrome found or not),
/// a run whose Firefox launch worked ends well and counts as having dealt
/// with a browser.
pub proof fn law_firefox_launched_is_success<P>(s: TaskState<P>)
    requires
        s.phase is LaunchingFirefox,
    ensures
        ({
            let (n, st) = transition(s, EventView::<P>::FirefoxLaunched(Ok(())));
            &&& st.action == ActionView::<P>::Finish(Ok(()))
            &&& n.handled
            &&& n.phase is Finished
            &&& n.job == s.job
        }),
{
}

/// The phases in which a run has found Chrome and is dealing with it.
pub open spec fn chrome_phase<P>(p: Phase<P>) -> bool {
    ||| p is QueryingPolicy
    ||| p is WritingPolicy
    ||| p is DeletingPolicy
    ||| p is CheckingChrome
    ||| p is RestartingChrome
}

/// A run that found Chrome: still dealing with it, past it with Chrome
/// counted as dealt with, or over.
pub open spec fn found_chrome<P>(s: TaskState<P>) -> bool {
    ||| chrome_phase(s.phase)
    ||| (s.phase is LocatingFirefox || s.phase is LaunchingFirefox) && s.handled
    ||| s.phase is Finished
}

/// "Neither was found" is told apart from every other error by its first
/// character.
proof fn lemma_error_heads()
    ensures
        ERR_NO_BROWSER@.len() > 0 && ERR_NO_BROWSER@[0] == 'N',
        ERR_READ_POLICY@.len() > 0 && ERR_READ_POLICY@[0] == 'F',
        ERR_WRITE_POLICY@.len() > 0 && ERR_WRITE_POLICY@[0] == 'F',
        ERR_REMOVE_POLICY@.len() > 0 && ERR_REMOVE_POLICY@[0] == 'F',
        ERR_LAUNCH_FIREFOX@.len() > 0 && ERR_LAUNCH_FIREFOX@[0] == 'F',
        ERR_WRITE_REFUSED@.len() > 0 && ERR_WRITE_REFUSED@[0] == 'W',
        ERR_REMOVE_REFUSED@.len() > 0 && ERR_REMOVE_REFUSED@[0] == 'R',
        ERR_CRASHED@.len() > 0 && ERR_CRASHED@[0] == 'T',
{
    reveal_strlit("Neither Chrome nor Firefox was found on this PC.");
    reveal_strlit("Failed to read Chrome's extension policy");
    reveal_strlit("Failed to write the Chrome extension policy");
    reveal_strlit("Failed to remove the Chrome extension policy");
    reveal_strlit("Failed to launch Firefox");
    reveal_strlit("Writing the Chrome policy failed. Please try running the installer again.");
    reveal_strlit("Removing the Chrome policy failed.");
    reveal_strlit("The operation crashed unexpectedly (internal error).");
}

/// Finding Chrome counts: once Chrome is found, every later step keeps the
/// run in `found_chrome`, and no step of such a run ends it with "neither
/// Chrome nor Firefox was found", for either job.  Once the policy step is
/// behind it (written, found present, removed or found absent) and Chrome is
/// closed or restarted, the run counts as having dealt with a browser.
pub proof fn law_found_chrome_counts<P>(s: TaskState<P>, e: EventView<P>)
    requires
        awaits(s.phase, e),
    ensures
        ({
            let (n, st) = transition(s, e);
            &&& (s.phase is LocatingChrome && e matches EventView::ChromeLocated(Some(_)))
                ==> found_chrome(n)
            &&& found_chrome(s) ==> found_chrome(n)
            &&& found_chrome(s) ==> st.action != ActionView::<P>::Finish(Err(ERR_NO_BROWSER@))
            &&& (chrome_phase(s.phase) && n.phase is LocatingFirefox) ==> n.handled
            &&& s.phase is RestartingChrome ==> n.handled && n.phase is LocatingFirefox
        }),
{
    let (n, st) = transition(s, e);
    lemma_error_heads();
    if st.action is Finish {
        if let ActionView::Finish(Err(msg)) = st.action {
            if msg == ERR_NO_BROWSER@ {
                assert(msg[0] == 'N');
            }
        }
    }
}

/// Chrome is restarted exactly when the process listing names `chrome.exe`
/// somewhere, in any case; otherwise the run goes on to Firefox with Chrome
/// dealt with.  A listing that could not be had counts as Chrome closed.
pub proof fn law_restart_exactly_when_listed<P>(s: TaskState<P>, out: Option<Seq<u8>>)
    requires
        s.phase is CheckingChrome,
    ensures
        ({
            let (n, st) = transition(s, EventView::<P>::ChromeListing(out));
            let running = match out {
                Some(b) => exists|i: int| occurs_at(ascii_lower(utf8_lossy(b)), chrome_exe(), i),
                None => false,
            };
            &&& (n.phase is RestartingChrome) == running
            &&& running ==> st.action == ActionView::<P>::RestartChrome(s.phase->CheckingChrome_0, kill_args())
            &&& !running ==> n.handled && n.phase is LocatingFirefox && st.action
                == ActionView::<P>::LocateFirefox
        }),
{
    if let Some(b) = out {
        let t = ascii_lower(utf8_lossy(b));
        lemma_find_occurs(t, chrome_exe());
        lemma_find_absent(t, chrome_exe());
    }
}

/// An install run writes uBlock's entry whenever the key does not list it:
/// at the slot that `addition_plan` picks (the least free one, see
/// `law_added_slot_is_free`), with exactly the `reg add` arguments for that
/// slot; when the key lists it already, nothing is written.
pub proof fn law_install_writes_the_planned_slot<P>(s: TaskState<P>, out: Seq<u8>)
    requires
        s.job == Job::Install,
        s.phase is QueryingPolicy,
    ensures
        ({
            let vals = listed_values(utf8_lossy(out));
            let (n, st) = transition(s, EventView::<P>::PolicyQueried(Ok(out)));
            &&& addition_plan(vals, ubol_entry_spec()) matches AdditionPlan::AddAt(slot) ==> {
                &&& st.action == ActionView::<P>::WritePolicy(
                    seq![
                        "add"@,
                        crate::forcelist::FORCELIST_KEY@,
                        "/v"@,
                        crate::text::decimal(slot as nat),
                        "/t"@,
                        "REG_SZ"@,
                        "/d"@,
                        ubol_entry_spec(),
                        "/f"@,
                    ],
                )
                &&& n.phase == Phase::WritingPolicy(s.phase->QueryingPolicy_0)
            }
            &&& !has_entry(vals, ubol_entry_spec()) ==> (st.action is WritePolicy || st.action
                is Finish)
            &&& has_entry(vals, ubol_entry_spec()) ==> st.action == ActionView::<P>::ListChrome(
                listing_args(),
            ) && st.progress == Some(MSG_POLICY_WRITTEN@)
        }),
{
}

} // verus!
