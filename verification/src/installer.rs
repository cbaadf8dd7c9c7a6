//! The installer window's state: the console lines, whether a run is going
//! on, how it ended, and what the window shows for it.

use vstd::prelude::*;
use std::time::Instant;
use crate::forcelist::string_views;
use crate::text::{decimal, digit_char, push_decimal};
use crate::strings::string_of;

verus! {

broadcast use vstd::string::group_string_axioms;

#[verifier::external_type_specification]
#[verifier::external_body]
pub struct ExInstant(Instant);

/// Calls `Instant::now`; nothing is promised of the instant.
#[verifier::external_body]
fn clock_now() -> Instant {
    Instant::now()
}

/// Calls `Instant::elapsed` and counts the whole milliseconds of the
/// duration; the count depends on the clock, so nothing is promised of it.
#[verifier::external_body]
fn elapsed_millis(since: &Instant) -> u128 {
    since.elapsed().as_millis()
}

// ---------------------------------------------------------------------------
// Console lines

pub open spec fn spaces(n: nat) -> Seq<char> {
    Seq::new(n, |i: int| ' ')
}

/// `s` padded on the left with spaces to `width` characters (`{:>width}`).
pub open spec fn right_aligned(s: Seq<char>, width: nat) -> Seq<char> {
    if s.len() < width {
        spaces((width - s.len()) as nat) + s
    } else {
        s
    }
}

/// Seconds with one decimal, from tenths of a second (`{:.1}`).
pub open spec fn seconds_text(tenths: nat) -> Seq<char> {
    decimal(tenths / 10) + seq!['.', digit_char((tenths % 10) as int)]
}

/// A console line: the time since the run started, right-aligned in four
/// characters, then the message, as in `[ 1.5s] policy removed`.
pub open spec fn log_line(tenths: nat, message: Seq<char>) -> Seq<char> {
    seq!['['] + right_aligned(seconds_text(tenths), 4) + seq!['s', ']', ' '] + message
}

/// Milliseconds rounded to the nearest tenth of a second, halves up.  A
/// stamp formatted from the seconds as a 32-bit float with one decimal can
/// differ from this by a tenth when the time lies within a float's rounding
/// of a 50 ms boundary (250 ms shows as `0.2` there, here as `0.3`); this
/// library computes without floating point.
pub open spec fn rounded_tenths(millis: nat) -> nat {
    (millis + 50) / 100
}

/// The line is `text`, stamped with some time, which is zero when no run
/// start is recorded (`unclocked`).
pub open spec fn stamped(line: Seq<char>, text: Seq<char>, unclocked: bool) -> bool {
    exists|t: nat| line == #[trigger] log_line(t, text) && (unclocked ==> t == 0)
}

/// The time a stamp shows lies within half a tenth of a second of the time
/// elapsed: rounding moves it by at most 50 ms, and never backwards in time
/// as the elapsed time grows.
pub proof fn law_stamp_shows_elapsed_time(millis: nat, later: nat)
    ensures
        millis <= rounded_tenths(millis) * 100 + 50,
        rounded_tenths(millis) * 100 < millis + 50 + 1,
        millis <= later ==> rounded_tenths(millis) <= rounded_tenths(later),
{
    assert(millis <= rounded_tenths(millis) * 100 + 50) by (nonlinear_arith);
    assert(rounded_tenths(millis) * 100 < millis + 51) by (nonlinear_arith);
    if millis <= later {
        assert(rounded_tenths(millis) <= rounded_tenths(later)) by (nonlinear_arith)
            requires
                millis <= later,
        ;
    }
}

pub fn tenths_of_millis(millis: u128) -> (t: u128)
    ensures
        t == rounded_tenths(millis as nat),
{
    millis / 100 + if millis % 100 >= 50 {
        1
    } else {
        0
    }
}

/// The console line for `message` at `tenths` tenths of a second.
pub fn format_log_line(tenths: u128, message: &str) -> (r: String)
    ensures
        r@ == log_line(tenths as nat, message@),
{
    let mut secs: Vec<char> = Vec::new();
    push_decimal(&mut secs, tenths / 10);
    secs.push('.');
    let d = (tenths % 10) as u8;
    secs.push((0x30u8 + d) as char);
    assert(secs@ =~= seconds_text(tenths as nat));
    let mut v: Vec<char> = Vec::new();
    v.push('[');
    let n = secs.len();
    if n < 4 {
        let mut k: usize = 0;
        while k < 4 - n
            invariant
                n == secs.len(),
                n < 4,
                k <= 4 - n,
                v@ == seq!['['] + spaces(k as nat),
            decreases 4 - n - k,
        {
            v.push(' ');
            k += 1;
            assert(v@ =~= seq!['['] + spaces(k as nat));
        }
    }
    let mut i: usize = 0;
    let ghost pad = v@;
    while i < n
        invariant
            n == secs.len(),
            i <= n,
            v@ == pad + secs@.take(i as int),
        decreases n - i,
    {
        v.push(secs[i]);
        i += 1;
        assert(v@ =~= pad + secs@.take(i as int));
    }
    assert(secs@.take(n as int) =~= secs@);
    assert(v@ =~= seq!['['] + right_aligned(seconds_text(tenths as nat), 4));
    v.push('s');
    v.push(']');
    v.push(' ');
    let mut line = string_of(&v);
    line.append(message);
    assert(line@ =~= log_line(tenths as nat, message@));
    line
}

// ---------------------------------------------------------------------------
// The window's state

/// What the background run reports.
#[derive(Debug)]
pub enum WorkerMessage {
    /// A progress line.
    Status(String),
    /// The run is over, with this outcome.
    Done(Result<(), String>),
}

/// The console line that a message adds.
pub open spec fn message_text(m: WorkerMessage) -> Seq<char> {
    match m {
        WorkerMessage::Status(s) => s@,
        WorkerMessage::Done(Ok(())) => "done"@,
        WorkerMessage::Done(Err(e)) => "error: "@ + e@,
    }
}

pub open spec fn some_done(msgs: Seq<WorkerMessage>) -> bool {
    exists|i: int| 0 <= i < msgs.len() && #[trigger] msgs[i] is Done
}

pub open spec fn some_success(msgs: Seq<WorkerMessage>) -> bool {
    exists|i: int| 0 <= i < msgs.len() && #[trigger] msgs[i] matches WorkerMessage::Done(Ok(()))
}

/// The error of the last failed outcome among the messages, else `before`.
pub open spec fn last_error(msgs: Seq<WorkerMessage>, before: Option<Seq<char>>) -> Option<
    Seq<char>,
>
    decreases msgs.len(),
{
    if msgs.len() == 0 {
        before
    } else {
        match msgs.last() {
            WorkerMessage::Done(Err(e)) => Some(e@),
            _ => last_error(msgs.drop_last(), before),
        }
    }
}

/// What taking in `messages` does to the window's state, `keep` being the
/// answer whether the run goes on: each message adds its console line
/// (stamped zero when no run start is recorded), an outcome ends the run and
/// records success or the error; when no run is going on, nothing changes.
pub open spec fn received(
    before: InstallerApp,
    messages: Seq<WorkerMessage>,
    after: InstallerApp,
    keep: bool,
) -> bool {
    &&& !before.installing ==> {
        &&& !keep
        &&& string_views(after.logs@) == string_views(before.logs@)
        &&& after.finished == before.finished
        &&& after.error == before.error
    }
    &&& before.installing ==> {
        &&& keep == !some_done(messages)
        &&& after.logs@.len() == before.logs@.len() + messages.len()
        &&& forall|i: int|
            0 <= i < before.logs@.len() ==> #[trigger] after.logs@[i]@ == before.logs@[i]@
        &&& forall|i: int|
            0 <= i < messages.len() ==> stamped(
                #[trigger] after.logs@[before.logs@.len() + i]@,
                message_text(messages[i]),
                before.started is None,
            )
        &&& after.finished == (before.finished || some_success(messages))
        &&& opt_view(after.error) == last_error(messages, opt_view(before.error))
    }
    &&& after.installing == keep
    &&& after.busy_uninstall == before.busy_uninstall
    &&& after.started == before.started
}

pub open spec fn opt_view(o: Option<String>) -> Option<Seq<char>> {
    match o {
        Some(s) => Some(s@),
        None => None,
    }
}

/// The installer window's state.  The caller holds the receiving end of the
/// background run's messages exactly while `installing` is set.
pub struct InstallerApp {
    /// A run is going on.
    pub installing: bool,
    /// The run going on (or the last one) is an uninstall.
    pub busy_uninstall: bool,
    /// The console lines.
    pub logs: Vec<String>,
    /// When the current run started.
    pub started: Option<Instant>,
    /// The last run ended well.
    pub finished: bool,
    /// The error that the last run ended with.
    pub error: Option<String>,
}

impl InstallerApp {
    /// Idle, with an empty console.
    pub fn new() -> (app: InstallerApp)
        ensures
            !app.installing,
            !app.busy_uninstall,
            app.logs@.len() == 0,
            app.started is None,
            !app.finished,
            app.error is None,
    {
        InstallerApp {
            installing: false,
            busy_uninstall: false,
            logs: Vec::new(),
            started: None,
            finished: false,
            error: None,
        }
    }

    /// Adds a console line stamped `tenths` tenths of a second.
    pub fn log_at(&mut self, message: &str, tenths: u128)
        ensures
            string_views(final(self).logs@) == string_views(old(self).logs@).push(
                log_line(tenths as nat, message@),
            ),
            final(self).installing == old(self).installing,
            final(self).busy_uninstall == old(self).busy_uninstall,
            final(self).started == old(self).started,
            final(self).finished == old(self).finished,
            final(self).error == old(self).error,
    {
        let line = format_log_line(tenths, message);
        self.logs.push(line);
        assert(string_views(self.logs@) =~= string_views(old(self).logs@).push(
            log_line(tenths as nat, message@),
        ));
    }

    /// Adds a console line stamped with the time since the run started
    /// (rounded to tenths of a second), or `0.0` when no run has started.
    /// Answers the milliseconds read from the clock (0 when no run has
    /// started).
    pub fn log(&mut self, message: &str) -> (elapsed: u128)
        ensures
            string_views(final(self).logs@) == string_views(old(self).logs@).push(
                log_line(rounded_tenths(elapsed as nat), message@),
            ),
            old(self).started is None ==> elapsed == 0,
            exists|t: nat|
                {
                    &&& string_views(final(self).logs@) == string_views(old(self).logs@).push(
                        #[trigger] log_line(t, message@),
                    )
                    &&& old(self).started is None ==> t == 0
                },
            final(self).installing == old(self).installing,
            final(self).busy_uninstall == old(self).busy_uninstall,
            final(self).started == old(self).started,
            final(self).finished == old(self).finished,
            final(self).error == old(self).error,
    {
        let elapsed = match &self.started {
            Some(s) => elapsed_millis(s),
            None => 0,
        };
        self.log_at(message, tenths_of_millis(elapsed));
        elapsed
    }

    /// Starts a run: busy, console cleared to a single `starting` line, the
    /// outcome of the last run forgotten.
    pub fn start_task(&mut self)
        ensures
            final(self).installing,
            final(self).busy_uninstall == old(self).busy_uninstall,
            final(self).started is Some,
            !final(self).finished,
            final(self).error is None,
            final(self).logs@.len() == 1,
            stamped(final(self).logs@[0]@, "starting"@, false),
    {
        self.installing = true;
        self.logs = Vec::new();
        self.started = Some(clock_now());
        self.finished = false;
        self.error = None;
        let ghost cleared = self.logs@;
        assert(string_views(cleared) =~= Seq::<Seq<char>>::empty());
        self.log("starting");
        proof {
            let t = choose|t: nat|
                string_views(self.logs@) == string_views(cleared).push(
                    #[trigger] log_line(t, "starting"@),
                );
            assert(string_views(self.logs@).len() == self.logs@.len());
            assert(self.logs@[0]@ == string_views(self.logs@)[0]);
            assert(self.logs@[0]@ == log_line(t, "starting"@));
        }
    }

    /// Starts an install run.
    pub fn start_install(&mut self)
        ensures
            final(self).installing,
            !final(self).busy_uninstall,
            final(self).started is Some,
            !final(self).finished,
            final(self).error is None,
            final(self).logs@.len() == 1,
            stamped(final(self).logs@[0]@, "starting"@, false),
    {
        self.busy_uninstall = false;
        self.start_task();
    }

    /// Starts an uninstall run.
    pub fn start_uninstall(&mut self)
        ensures
            final(self).installing,
            final(self).busy_uninstall,
            final(self).started is Some,
            !final(self).finished,
            final(self).error is None,
            final(self).logs@.len() == 1,
            stamped(final(self).logs@[0]@, "starting"@, false),
    {
        self.busy_uninstall = true;
        self.start_task();
    }

    /// Takes in what the background run reported since the last frame, in
    /// order: each message adds its console line; the outcome ends the run,
    /// recording success or the error.  Answers whether the caller keeps the
    /// receiving end, that is, whether the run is still going on.  Nothing
    /// happens when no run is going on.
    pub fn receive_worker_messages(&mut self, messages: Vec<WorkerMessage>) -> (keep: bool)
        ensures
            received(*old(self), messages@, *final(self), keep),
    {
        if !self.installing {
            return false;
        }
        let ghost n0 = self.logs@.len();
        let ghost old_logs = self.logs@;
        let ghost msgs = messages@;
        let mut keep = true;
        let mut k: usize = 0;
        assert(msgs.take(0) =~= Seq::<WorkerMessage>::empty());
        while k < messages.len()
            invariant
                k <= messages.len(),
                msgs == messages@,
                self.installing == keep,
                keep == !some_done(msgs.take(k as int)),
                self.logs@.len() == n0 + k,
                forall|i: int| 0 <= i < n0 ==> #[trigger] self.logs@[i]@ == old_logs[i]@,
                forall|i: int|
                    0 <= i < k ==> stamped(
                        #[trigger] self.logs@[n0 + i]@,
                        message_text(msgs[i]),
                        old(self).started is None,
                    ),
                self.finished == (old(self).finished || some_success(msgs.take(k as int))),
                opt_view(self.error) == last_error(msgs.take(k as int), opt_view(old(self).error)),
                self.busy_uninstall == old(self).busy_uninstall,
                self.started == old(self).started,
                old_logs == old(self).logs@,
                n0 == old_logs.len(),
            decreases messages.len() - k,
        {
            let ghost before = self.logs@;
            let ghost taken = msgs.take(k as int);
            let ghost next = msgs.take(k + 1);
            assert(next.drop_last() =~= taken);
            assert(next.last() == msgs[k as int]);
            assert forall|i: int| 0 <= i < k implies #[trigger] next[i] == taken[i] by {}
            match &messages[k] {
                WorkerMessage::Status(status) => {
                    self.log(status.as_str());
                },
                WorkerMessage::Done(result) => {
                    self.installing = false;
                    keep = false;
                    match result {
                        Ok(()) => {
                            self.log("done");
                            self.finished = true;
                        },
                        Err(error) => {
                            let mut line = "error: ".to_string();
                            line.append(error.as_str());
                            self.log(line.as_str());
                            self.error = Some(error.clone());
                        },
                    }
                },
            }
            proof {
                assert(string_views(self.logs@).len() == self.logs@.len());
                assert(self.logs@[n0 + k]@ == string_views(self.logs@)[n0 + k]);
                assert forall|i: int| 0 <= i < n0 + k implies #[trigger] self.logs@[i]@
                    == before[i]@ by {
                    assert(self.logs@[i]@ == string_views(self.logs@)[i]);
                    assert(before[i]@ == string_views(before)[i]);
                }
                assert(some_done(next) == (some_done(taken) || msgs[k as int] is Done)) by {
                    if some_done(next) {
                        let j = choose|j: int| 0 <= j < next.len() && #[trigger] next[j] is Done;
                        if j < k {
                            assert(taken[j] is Done);
                        }
                    }
                    if some_done(taken) {
                        let j = choose|j: int| 0 <= j < taken.len() && #[trigger] taken[j] is Done;
                        assert(next[j] is Done);
                    }
                    if msgs[k as int] is Done {
                        assert(next[k as int] is Done);
                    }
                }
                assert(some_success(next) == (some_success(taken) || msgs[k as int] matches WorkerMessage::Done(Ok(())))) by {
                    if some_success(next) {
                        let j = choose|j: int| 0 <= j < next.len() && #[trigger] next[j] matches WorkerMessage::Done(Ok(()));
                        if j < k {
                            assert(taken[j] matches WorkerMessage::Done(Ok(())));
                        }
                    }
                    if some_success(taken) {
                        let j = choose|j: int| 0 <= j < taken.len() && #[trigger] taken[j] matches WorkerMessage::Done(Ok(()));
                        assert(next[j] matches WorkerMessage::Done(Ok(())));
                    }
                    if msgs[k as int] matches WorkerMessage::Done(Ok(())) {
                        assert(next[k as int] matches WorkerMessage::Done(Ok(())));
                    }
                }
            }
            k += 1;
        }
        assert(msgs.take(messages.len() as int) =~= msgs);
        keep
    }

    /// What the window shows.
    pub fn screen(&self) -> (s: Screen)
        ensures
            s.install_label@ == (if self.installing && !self.busy_uninstall {
                INSTALLING_LABEL@
            } else {
                INSTALL_LABEL@
            }),
            s.uninstall_label@ == (if self.installing && self.busy_uninstall {
                UNINSTALLING_LABEL@
            } else {
                UNINSTALL_LABEL@
            }),
            s.buttons_enabled == !self.installing,
            s.spinner == self.installing,
            s.ready_line == (self.logs@.len() == 0),
            s.encouragement == self.finished,
            opt_view(s.error) == opt_view(self.error),
            s.keep_repainting == self.installing,
    {
        Screen {
            install_label: (if self.installing && !self.busy_uninstall {
                INSTALLING_LABEL
            } else {
                INSTALL_LABEL
            }).to_string(),
            uninstall_label: (if self.installing && self.busy_uninstall {
                UNINSTALLING_LABEL
            } else {
                UNINSTALL_LABEL
            }).to_string(),
            buttons_enabled: !self.installing,
            spinner: self.installing,
            ready_line: self.logs.len() == 0,
            encouragement: self.finished,
            error: match &self.error {
                Some(e) => Some(e.clone()),
                None => None,
            },
            keep_repainting: self.installing,
        }
    }
}

pub const INSTALL_LABEL: &'static str = "Install";

pub const INSTALLING_LABEL: &'static str = "Installing…";

pub const UNINSTALL_LABEL: &'static str = "Uninstall";

pub const UNINSTALLING_LABEL: &'static str = "Uninstalling…";

/// What the window shows for the state.
pub struct Screen {
    /// The text of the install button.
    pub install_label: String,
    /// The text of the uninstall button.
    pub uninstall_label: String,
    /// Both buttons take clicks.
    pub buttons_enabled: bool,
    /// A spinner turns beside the console's title.
    pub spinner: bool,
    /// The console shows a `ready` line in place of an empty console.
    pub ready_line: bool,
    /// The encouraging line under the console is shown.
    pub encouragement: bool,
    /// The error shown under the console.
    pub error: Option<String>,
    /// The window asks to be drawn again at once.
    pub keep_repainting: bool,
}

// ---------------------------------------------------------------------------
// A run's messages, taken over several frames

/// The messages of a run: its progress lines, then its outcome.
pub open spec fn run_messages(statuses: Seq<String>, outcome: Result<(), String>) -> Seq<
    WorkerMessage,
> {
    statuses.map_values(|s: String| WorkerMessage::Status(s)) + seq![WorkerMessage::Done(outcome)]
}

/// The batches one after the other.
pub open spec fn concat_all(batches: Seq<Seq<WorkerMessage>>) -> Seq<WorkerMessage>
    decreases batches.len(),
{
    if batches.len() == 0 {
        Seq::empty()
    } else {
        concat_all(batches.drop_last()) + batches.last()
    }
}

pub open spec fn all_status(msgs: Seq<WorkerMessage>) -> bool {
    forall|i: int| 0 <= i < msgs.len() ==> #[trigger] msgs[i] is Status
}

proof fn lemma_all_status(msgs: Seq<WorkerMessage>, before: Option<Seq<char>>)
    requires
        all_status(msgs),
    ensures
        !some_done(msgs),
        !some_success(msgs),
        last_error(msgs, before) == before,
    decreases msgs.len(),
{
    if msgs.len() > 0 {
        let init = msgs.drop_last();
        assert forall|i: int| 0 <= i < init.len() implies #[trigger] init[i] is Status by {
            assert(init[i] == msgs[i]);
        }
        lemma_all_status(init, before);
        assert(msgs.last() is Status);
    }
}

proof fn lemma_ends_with_outcome(msgs: Seq<WorkerMessage>, outcome: Result<(), String>)
    requires
        msgs.len() >= 1,
        all_status(msgs.drop_last()),
        msgs.last() == WorkerMessage::Done(outcome),
    ensures
        some_done(msgs),
        some_success(msgs) == (outcome is Ok),
        last_error(msgs, None) == (match outcome {
            Ok(()) => None,
            Err(e) => Some(e@),
        }),
{
    let init = msgs.drop_last();
    lemma_all_status(init, None);
    assert(msgs[msgs.len() - 1] is Done);
    if some_success(msgs) {
        let j = choose|j: int|
            0 <= j < msgs.len() && #[trigger] msgs[j] matches WorkerMessage::Done(Ok(()));
        if j < msgs.len() - 1 {
            assert(init[j] == msgs[j]);
        }
    }
    if outcome is Ok {
        assert(msgs[msgs.len() - 1] matches WorkerMessage::Done(Ok(())));
    }
}

proof fn lemma_views_equal(a: Seq<String>, b: Seq<String>)
    requires
        string_views(a) == string_views(b),
    ensures
        a.len() == b.len(),
        forall|i: int| 0 <= i < a.len() ==> #[trigger] a[i]@ == b[i]@,
{
    assert(string_views(a).len() == a.len());
    assert(string_views(b).len() == b.len());
    assert forall|i: int| 0 <= i < a.len() implies #[trigger] a[i]@ == b[i]@ by {
        assert(string_views(a)[i] == a[i]@);
        assert(string_views(b)[i] == b[i]@);
    }
}

/// The state after some batches of a run's messages have been taken in.
proof fn lemma_batches(
    statuses: Seq<String>,
    outcome: Result<(), String>,
    batches: Seq<Seq<WorkerMessage>>,
    apps: Seq<InstallerApp>,
    keeps: Seq<bool>,
)
    requires
        apps.len() == batches.len() + 1,
        keeps.len() == batches.len(),
        apps[0].installing,
        !apps[0].finished,
        apps[0].error is None,
        apps[0].logs@.len() == 1,
        forall|i: int|
            0 <= i < batches.len() ==> received(apps[i], #[trigger] batches[i], apps[i + 1], keeps[i]),
        concat_all(batches).len() <= statuses.len() + 1,
        concat_all(batches) == run_messages(statuses, outcome).take(concat_all(batches).len() as int),
    ensures
        ({
            let msgs = run_messages(statuses, outcome);
            let c = concat_all(batches).len();
            let a = apps.last();
            let z = apps[0].started is None;
            &&& a.started == apps[0].started
            &&& a.logs@.len() == 1 + c
            &&& a.logs@[0]@ == apps[0].logs@[0]@
            &&& forall|i: int|
                0 <= i < c ==> stamped(#[trigger] a.logs@[i + 1]@, message_text(msgs[i]), z)
            &&& c <= statuses.len() ==> a.installing && !a.finished && a.error is None
            &&& c == statuses.len() + 1 ==> {
                &&& !a.installing
                &&& a.finished == (outcome is Ok)
                &&& opt_view(a.error) == (match outcome {
                    Ok(()) => None,
                    Err(e) => Some(e@),
                })
            }
        }),
    decreases batches.len(),
{
    let msgs = run_messages(statuses, outcome);
    let k = statuses.len();
    assert(msgs.len() == k + 1);
    assert forall|i: int| 0 <= i < k implies #[trigger] msgs[i] == WorkerMessage::Status(
        statuses[i],
    ) by {}
    assert(msgs[k as int] == WorkerMessage::Done(outcome));
    if batches.len() == 0 {
        assert(apps.last() == apps[0]);
    } else {
        let m = batches.len() - 1;
        let init = batches.drop_last();
        let b = batches.last();
        let before = apps[m];
        let a = apps[m + 1];
        assert(apps.last() == a);
        let c0 = concat_all(init).len();
        let c = concat_all(batches).len();
        assert(concat_all(batches) == concat_all(init) + b);
        assert(concat_all(init) =~= msgs.take(c0 as int)) by {
            assert forall|i: int| 0 <= i < c0 implies concat_all(init)[i] == msgs.take(
                c0 as int,
            )[i] by {
                assert(concat_all(batches)[i] == concat_all(init)[i]);
            }
        }
        assert(b =~= msgs.subrange(c0 as int, c as int)) by {
            assert forall|i: int| 0 <= i < b.len() implies b[i] == msgs.subrange(
                c0 as int,
                c as int,
            )[i] by {
                assert(concat_all(batches)[c0 + i] == b[i]);
            }
        }
        let apps0 = apps.drop_last();
        let keeps0 = keeps.drop_last();
        assert forall|i: int| 0 <= i < init.len() implies received(
            apps0[i],
            #[trigger] init[i],
            apps0[i + 1],
            keeps0[i],
        ) by {
            assert(init[i] == batches[i]);
            assert(received(apps[i], batches[i], apps[i + 1], keeps[i]));
        }
        lemma_batches(statuses, outcome, init, apps0, keeps0);
        assert(apps0.last() == before);
        assert(apps0[0] == apps[0]);
        assert(received(before, b, a, keeps[m]));
        if c0 == k + 1 {
            assert(b.len() == 0);
            lemma_views_equal(a.logs@, before.logs@);
        } else {
            let n0 = before.logs@.len();
            assert(n0 == 1 + c0);
            assert forall|i: int| 0 <= i < c implies stamped(
                #[trigger] a.logs@[i + 1]@,
                message_text(msgs[i]),
                apps[0].started is None,
            ) by {
                if i < c0 {
                    assert(a.logs@[i + 1]@ == before.logs@[i + 1]@);
                } else {
                    assert(b[i - c0] == msgs[i]);
                    assert(a.logs@[n0 + (i - c0)]@ == a.logs@[i + 1]@);
                }
            }
            assert(a.logs@[0]@ == before.logs@[0]@);
            if c == k + 1 {
                assert(b.len() >= 1);
                assert(b.last() == msgs[k as int]);
                assert forall|i: int| 0 <= i < b.drop_last().len() implies #[trigger] b.drop_last()[
                    i
                ] is Status by {
                    assert(b.drop_last()[i] == msgs[c0 + i]);
                }
                lemma_ends_with_outcome(b, outcome);
            } else {
                assert forall|i: int| 0 <= i < b.len() implies #[trigger] b[i] is Status by {
                    assert(b[i] == msgs[c0 + i]);
                }
                lemma_all_status(b, None);
            }
        }
    }
}

/// A run's messages reach the console whatever frames they arrive in: once
/// all of them have been taken in, over any number of calls, the run is no
/// longer going on; it counts as finished exactly when it ended well and
/// records its error exactly when it failed; and the console holds the
/// `starting` line, one line per progress message, then the outcome's line.
pub proof fn law_run_reaches_the_console(
    statuses: Seq<String>,
    outcome: Result<(), String>,
    batches: Seq<Seq<WorkerMessage>>,
    apps: Seq<InstallerApp>,
    keeps: Seq<bool>,
)
    requires
        apps.len() == batches.len() + 1,
        keeps.len() == batches.len(),
        apps[0].installing,
        !apps[0].finished,
        apps[0].error is None,
        apps[0].logs@.len() == 1,
        forall|i: int|
            0 <= i < batches.len() ==> received(apps[i], #[trigger] batches[i], apps[i + 1], keeps[i]),
        concat_all(batches) == run_messages(statuses, outcome),
    ensures
        ({
            let a = apps.last();
            let k = statuses.len();
            let z = apps[0].started is None;
            &&& !a.installing
            &&& a.finished == (outcome is Ok)
            &&& opt_view(a.error) == (match outcome {
                Ok(()) => None,
                Err(e) => Some(e@),
            })
            &&& a.logs@.len() == k + 2
            &&& a.logs@[0]@ == apps[0].logs@[0]@
            &&& forall|i: int| 0 <= i < k ==> stamped(#[trigger] a.logs@[i + 1]@, statuses[i]@, z)
            &&& stamped(a.logs@[k as int + 1]@, message_text(WorkerMessage::Done(outcome)), z)
        }),
{
    let msgs = run_messages(statuses, outcome);
    assert(msgs.take(msgs.len() as int) =~= msgs);
    lemma_batches(statuses, outcome, batches, apps, keeps);
    let a = apps.last();
    let k = statuses.len();
    assert forall|i: int| 0 <= i < k implies stamped(
        #[trigger] a.logs@[i + 1]@,
        statuses[i]@,
        apps[0].started is None,
    ) by {
        assert(msgs[i] == WorkerMessage::Status(statuses[i]));
        assert(stamped(a.logs@[i + 1]@, message_text(msgs[i]), apps[0].started is None));
    }
    assert(msgs[k as int] == WorkerMessage::Done(outcome));
    assert(stamped(a.logs@[k as int + 1]@, message_text(msgs[k as int]), apps[0].started is None));
}

} // verus!
