//! Watching a running `rclone mount`: what each line of its output, its end, and each
//! attempt to start it again mean for the mount, as a state machine. The caller runs
//! the loop: it hands each event to [`MountMonitor::step`] and carries out the actions
//! that come back, in order.
use vstd::prelude::*;
use crate::text::{has_infix, chars_of, contains};
use crate::rclone::{lossy_utf8, utf8_lossy};

verus! {

/// How many times a mount that went down is started again before giving up.
pub const MAX_RETRIES: u32 = 3;

/// Seconds to wait before each new start.
pub const RETRY_DELAY_SECS: u64 = 3;

/// A line by which rclone says that the mount is up.
pub open spec fn is_success_line(l: Seq<char>) -> bool {
    ||| has_infix(l, "The service rclone has started"@)
    ||| has_infix(l, "Serving remote"@)
    ||| (has_infix(l, "Mounting"@) && has_infix(l, "on"@))
}

/// A line by which rclone says that the mount failed.
pub open spec fn is_error_line(l: Seq<char>) -> bool {
    has_infix(l, "Fatal error"@) || has_infix(l, "Failed to mount"@)
}

/// Whether `line` says that the mount is up.
pub fn success_line(line: &str) -> (b: bool)
    ensures
        b == is_success_line(line@),
{
    let cs = chars_of(line);
    contains(&cs, &chars_of("The service rclone has started")) || contains(&cs, &chars_of("Serving remote"))
        || (contains(&cs, &chars_of("Mounting")) && contains(&cs, &chars_of("on")))
}

/// Whether `line` says that the mount failed.
pub fn error_line(line: &str) -> (b: bool)
    ensures
        b == is_error_line(line@),
{
    let cs = chars_of(line);
    contains(&cs, &chars_of("Fatal error")) || contains(&cs, &chars_of("Failed to mount"))
}

/// Where the watch stands.
#[derive(PartialEq, Eq, Structural, Clone, Copy, Debug)]
pub enum MonitorPhase {
    /// Reading the output of the running rclone.
    Watching,
    /// rclone ended after the mount was up; it is being started again.
    Reconnecting,
    /// Nothing more is done.
    Finished,
}

/// What happened to the watched rclone.
#[derive(Debug, PartialEq, Eq)]
pub enum MonitorEvent {
    /// It printed a line on its standard output.
    Stdout(Vec<u8>),
    /// It printed a line on its error output.
    Stderr(Vec<u8>),
    /// It ended; the text describes how, for the log, and `still_mounted` says whether
    /// the bucket is still mounted (it is not when it was unmounted on purpose).
    Terminated { how: String, still_mounted: bool },
    /// Its output ended without word of its end.
    Closed,
    /// A new rclone, started again, is running.
    RemountStarted,
    /// Starting rclone again failed; `still_mounted` says whether the bucket is still mounted.
    RemountFailed { still_mounted: bool },
}

/// What the caller is to do.
#[derive(Debug, PartialEq, Eq)]
pub enum MonitorAction {
    /// Write this line to the log.
    Log(String),
    /// Send the application event `event` with the text `payload`.
    Emit { event: String, payload: String },
    /// Set the status of the watched bucket's mount.
    SetStatus(String),
    /// Tell whoever waits for the mount whether it is up.
    Report(bool),
    /// Wait this many seconds.
    Wait(u64),
    /// Start rclone again for the watched mount.
    Remount,
    /// Hold the rclone just started as the watched bucket's process.
    KeepProcess,
}

/// [`MonitorEvent`] as values.
pub enum EventView {
    Stdout(Seq<u8>),
    Stderr(Seq<u8>),
    Terminated(Seq<char>, bool),
    Closed,
    RemountStarted,
    RemountFailed(bool),
}

/// [`MonitorAction`] as values.
pub enum ActionView {
    Log(Seq<char>),
    Emit(Seq<char>, Seq<char>),
    SetStatus(Seq<char>),
    Report(bool),
    Wait(nat),
    Remount,
    KeepProcess,
}

impl View for MonitorEvent {
    type V = EventView;

    open spec fn view(&self) -> EventView {
        match self {
            MonitorEvent::Stdout(b) => EventView::Stdout(b@),
            MonitorEvent::Stderr(b) => EventView::Stderr(b@),
            MonitorEvent::Terminated { how, still_mounted } => EventView::Terminated(how@, *still_mounted),
            MonitorEvent::Closed => EventView::Closed,
            MonitorEvent::RemountStarted => EventView::RemountStarted,
            MonitorEvent::RemountFailed { still_mounted } => EventView::RemountFailed(*still_mounted),
        }
    }
}

impl View for MonitorAction {
    type V = ActionView;

    open spec fn view(&self) -> ActionView {
        match self {
            MonitorAction::Log(s) => ActionView::Log(s@),
            MonitorAction::Emit { event, payload } => ActionView::Emit(event@, payload@),
            MonitorAction::SetStatus(s) => ActionView::SetStatus(s@),
            MonitorAction::Report(b) => ActionView::Report(*b),
            MonitorAction::Wait(n) => ActionView::Wait(*n as nat),
            MonitorAction::Remount => ActionView::Remount,
            MonitorAction::KeepProcess => ActionView::KeepProcess,
        }
    }
}

/// The actions as values.
pub open spec fn action_views(v: Seq<MonitorAction>) -> Seq<ActionView> {
    v.map_values(|a: MonitorAction| a@)
}

/// [`MountMonitor`] as values.
pub struct MonitorView {
    pub bucket: Seq<char>,
    pub mounted: bool,
    pub report_pending: bool,
    pub retries: nat,
    pub phase: MonitorPhase,
}

/// The watch over one mount's rclone.
pub struct MountMonitor {
    /// The mounted bucket.
    bucket: String,
    /// rclone has said that the mount is up.
    mounted: bool,
    /// Whoever waits for the mount has not been told yet.
    report_pending: bool,
    /// Attempts to start rclone again since it ended.
    retries: u32,
    phase: MonitorPhase,
}

impl View for MountMonitor {
    type V = MonitorView;

    closed spec fn view(&self) -> MonitorView {
        MonitorView {
            bucket: self.bucket@,
            mounted: self.mounted,
            report_pending: self.report_pending,
            retries: self.retries as nat,
            phase: self.phase,
        }
    }
}

/// The state of a watch: retries stay within the limit; a mount that is up has been
/// reported and starts no count of attempts; an ongoing reconnection has made at least
/// one attempt; and while attempts are counted no report is owed.
pub open spec fn monitor_inv(m: MonitorView) -> bool {
    &&& m.retries <= MAX_RETRIES
    &&& m.mounted ==> !m.report_pending && m.retries == 0 && m.phase != MonitorPhase::Reconnecting
    &&& m.phase == MonitorPhase::Reconnecting ==> m.retries >= 1 && !m.mounted
    &&& m.retries > 0 ==> !m.report_pending
}

/// `Report(b)` if a report is still owed, else nothing.
pub open spec fn report_if(pending: bool, b: bool) -> Seq<ActionView> {
    if pending {
        seq![ActionView::Report(b)]
    } else {
        Seq::empty()
    }
}

/// One more attempt to start rclone: the mount is shown as reconnecting, and rclone is
/// started after the delay.
pub open spec fn attempt_actions(bucket: Seq<char>) -> Seq<ActionView> {
    seq![
        ActionView::SetStatus("reconnecting"@),
        ActionView::Emit("rclone:status_changed"@, bucket),
        ActionView::Wait(RETRY_DELAY_SECS as nat),
        ActionView::Remount,
    ]
}

/// When the mount went down or an attempt failed: try again while attempts are left,
/// else give the mount up.
pub open spec fn retry_or_give_up(m: MonitorView) -> (MonitorView, Seq<ActionView>) {
    if m.retries < MAX_RETRIES {
        (
            MonitorView { mounted: false, retries: m.retries + 1, phase: MonitorPhase::Reconnecting, ..m },
            attempt_actions(m.bucket),
        )
    } else {
        (
            MonitorView { mounted: false, phase: MonitorPhase::Finished, ..m },
            seq![
                ActionView::SetStatus("error"@),
                ActionView::Emit("rclone:status_changed"@, m.bucket),
                ActionView::Emit("rclone:reconnect_failed"@, m.bucket),
            ],
        )
    }
}

/// What the watch does on event `e` in state `m`: its next state and its actions.
///
/// A success line marks the mount up and ends the count of attempts. When rclone ends
/// after the mount was up, or a restarted rclone ends before it came up, rclone is started
/// again, at most `MAX_RETRIES` times in a row; a restarted rclone is watched like the
/// first. A bucket that is no longer mounted is not started again: its watch ends.
pub open spec fn monitor_step(m: MonitorView, e: EventView) -> (MonitorView, Seq<ActionView>) {
    match m.phase {
        MonitorPhase::Finished => (m, Seq::empty()),
        MonitorPhase::Watching => match e {
            EventView::Stdout(bytes) => {
                let line = lossy_utf8(bytes);
                let log = seq![ActionView::Log("rclone stdout: "@ + line)];
                if !m.mounted && is_success_line(line) {
                    (
                        MonitorView { mounted: true, report_pending: false, retries: 0, ..m },
                        log + seq![
                            ActionView::Emit("rclone:mounted"@, m.bucket),
                            ActionView::SetStatus("connected"@),
                            ActionView::Emit("rclone:status_changed"@, m.bucket),
                        ] + report_if(m.report_pending, true),
                    )
                } else {
                    (m, log)
                }
            },
            EventView::Stderr(bytes) => {
                let line = lossy_utf8(bytes);
                let log = seq![ActionView::Log("rclone stderr: "@ + line)];
                if is_error_line(line) {
                    (
                        MonitorView { report_pending: false, ..m },
                        log + seq![ActionView::Emit("rclone:error"@, line)] + report_if(m.report_pending, false),
                    )
                } else {
                    (m, log)
                }
            },
            EventView::Terminated(how, still_mounted) => {
                let log = seq![ActionView::Log("rclone terminated: "@ + how)];
                if (m.mounted || m.retries > 0) && !still_mounted {
                    (
                        MonitorView { mounted: false, phase: MonitorPhase::Finished, ..m },
                        log + seq![ActionView::Emit("rclone:terminated"@, m.bucket)],
                    )
                } else if m.mounted {
                    let down = seq![
                        ActionView::SetStatus("disconnected"@),
                        ActionView::Emit("rclone:status_changed"@, m.bucket),
                        ActionView::Emit("rclone:terminated"@, m.bucket),
                    ];
                    let (next, more) = retry_or_give_up(m);
                    (next, log + down + more)
                } else if m.retries > 0 {
                    let (next, more) = retry_or_give_up(m);
                    (next, log + more)
                } else {
                    (
                        MonitorView { report_pending: false, phase: MonitorPhase::Finished, ..m },
                        log + seq![ActionView::Emit("rclone:terminated"@, m.bucket)] + report_if(
                            m.report_pending,
                            false,
                        ),
                    )
                }
            },
            EventView::Closed => (MonitorView { phase: MonitorPhase::Finished, ..m }, Seq::empty()),
            _ => (m, Seq::empty()),
        },
        MonitorPhase::Reconnecting => match e {
            EventView::RemountStarted => (
                MonitorView { phase: MonitorPhase::Watching, ..m },
                seq![
                    ActionView::SetStatus("connecting"@),
                    ActionView::Emit("rclone:status_changed"@, m.bucket),
                    ActionView::KeepProcess,
                ],
            ),
            EventView::RemountFailed(still_mounted) => if still_mounted {
                retry_or_give_up(m)
            } else {
                (MonitorView { phase: MonitorPhase::Finished, ..m }, Seq::empty())
            },
            _ => (m, Seq::empty()),
        },
    }
}

/// Builds the action that sends `event` with `payload`.
fn emit(event: &str, payload: &String) -> (a: MonitorAction)
    ensures
        a@ == ActionView::Emit(event@, payload@),
{
    MonitorAction::Emit { event: String::from_str(event), payload: payload.clone() }
}

/// Builds the log action for `prefix` followed by `text`.
fn log(prefix: &str, text: &String) -> (a: MonitorAction)
    ensures
        a@ == ActionView::Log(prefix@ + text@),
{
    let mut s = String::from_str(prefix);
    s.append(text.as_str());
    MonitorAction::Log(s)
}

impl MountMonitor {
    #[verifier::type_invariant]
    spec fn consistent(&self) -> bool {
        monitor_inv(self@)
    }

    /// The watched bucket.
    pub fn bucket(&self) -> (r: &String)
        ensures
            r@ == self@.bucket,
    {
        &self.bucket
    }

    /// Whether rclone has said that the mount is up.
    pub fn mounted(&self) -> (r: bool)
        ensures
            r == self@.mounted,
    {
        self.mounted
    }

    /// Whether a report on the mount is still owed.
    pub fn report_pending(&self) -> (r: bool)
        ensures
            r == self@.report_pending,
    {
        self.report_pending
    }

    /// Attempts to start rclone again since it ended.
    pub fn retries(&self) -> (r: u32)
        ensures
            r == self@.retries,
    {
        self.retries
    }

    /// Where the watch stands.
    pub fn phase(&self) -> (r: MonitorPhase)
        ensures
            r == self@.phase,
    {
        self.phase
    }

    /// A watch over the rclone that has just been started to mount `bucket`: the mount
    /// is not up yet and a report is owed.
    pub fn new(bucket: String) -> (m: Self)
        ensures
            m@ == (MonitorView {
                bucket: bucket@,
                mounted: false,
                report_pending: true,
                retries: 0,
                phase: MonitorPhase::Watching,
            }),
            monitor_inv(m@),
    {
        MountMonitor { bucket, mounted: false, report_pending: true, retries: 0, phase: MonitorPhase::Watching }
    }

    /// Whether the watch is over.
    pub fn is_finished(&self) -> (b: bool)
        ensures
            b == (self@.phase == MonitorPhase::Finished),
    {
        self.phase == MonitorPhase::Finished
    }

    /// Tries again or gives up, after rclone went down or an attempt failed.
    fn retry_or_give_up(&mut self, actions: &mut Vec<MonitorAction>)
        requires
            !old(self)@.report_pending,
        ensures
            final(self)@ == retry_or_give_up(old(self)@).0,
            action_views(final(actions)@) == action_views(old(actions)@) + retry_or_give_up(old(self)@).1,
    {
        proof {
            use_type_invariant(&*self);
        }
        let ghost before = action_views(actions@);
        if self.retries < MAX_RETRIES {
            self.mounted = false;
            self.retries = self.retries + 1;
            self.phase = MonitorPhase::Reconnecting;
            actions.push(MonitorAction::SetStatus(String::from_str("reconnecting")));
            actions.push(emit("rclone:status_changed", &self.bucket));
            actions.push(MonitorAction::Wait(RETRY_DELAY_SECS));
            actions.push(MonitorAction::Remount);
        } else {
            self.mounted = false;
            self.phase = MonitorPhase::Finished;
            actions.push(MonitorAction::SetStatus(String::from_str("error")));
            actions.push(emit("rclone:status_changed", &self.bucket));
            actions.push(emit("rclone:reconnect_failed", &self.bucket));
        }
        assert(action_views(actions@) =~= before + retry_or_give_up(old(self)@).1);
    }

    /// Handles `event`: updates the watch and returns what the caller is to do, in order.
    pub fn step(&mut self, event: MonitorEvent) -> (actions: Vec<MonitorAction>)
        ensures
            (final(self)@, action_views(actions@)) == monitor_step(old(self)@, event@),
    {
        proof {
            use_type_invariant(&*self);
        }
        let mut actions: Vec<MonitorAction> = Vec::new();
        match self.phase {
            MonitorPhase::Finished => {},
            MonitorPhase::Watching => match event {
                MonitorEvent::Stdout(bytes) => {
                    let line = utf8_lossy(&bytes);
                    actions.push(log("rclone stdout: ", &line));
                    if !self.mounted && success_line(line.as_str()) {
                        let owed = self.report_pending;
                        self.report_pending = false;
                        self.retries = 0;
                        self.mounted = true;
                        actions.push(emit("rclone:mounted", &self.bucket));
                        actions.push(MonitorAction::SetStatus(String::from_str("connected")));
                        actions.push(emit("rclone:status_changed", &self.bucket));
                        if owed {
                            actions.push(MonitorAction::Report(true));
                        }
                    }
                },
                MonitorEvent::Stderr(bytes) => {
                    let line = utf8_lossy(&bytes);
                    actions.push(log("rclone stderr: ", &line));
                    if error_line(line.as_str()) {
                        actions.push(emit("rclone:error", &line));
                        if self.report_pending {
                            self.report_pending = false;
                            actions.push(MonitorAction::Report(false));
                        }
                    }
                },
                MonitorEvent::Terminated { how, still_mounted } => {
                    actions.push(log("rclone terminated: ", &how));
                    if (self.mounted || self.retries > 0) && !still_mounted {
                        self.mounted = false;
                        self.phase = MonitorPhase::Finished;
                        actions.push(emit("rclone:terminated", &self.bucket));
                    } else if self.mounted {
                        actions.push(MonitorAction::SetStatus(String::from_str("disconnected")));
                        actions.push(emit("rclone:status_changed", &self.bucket));
                        actions.push(emit("rclone:terminated", &self.bucket));
                        self.retry_or_give_up(&mut actions);
                    } else if self.retries > 0 {
                        self.retry_or_give_up(&mut actions);
                    } else {
                        self.phase = MonitorPhase::Finished;
                        actions.push(emit("rclone:terminated", &self.bucket));
                        if self.report_pending {
                            self.report_pending = false;
                            actions.push(MonitorAction::Report(false));
                        }
                    }
                },
                MonitorEvent::Closed => {
                    self.phase = MonitorPhase::Finished;
                },
                _ => {},
            },
            MonitorPhase::Reconnecting => match event {
                MonitorEvent::RemountStarted => {
                    self.phase = MonitorPhase::Watching;
                    actions.push(MonitorAction::SetStatus(String::from_str("connecting")));
                    actions.push(emit("rclone:status_changed", &self.bucket));
                    actions.push(MonitorAction::KeepProcess);
                },
                MonitorEvent::RemountFailed { still_mounted } => {
                    if still_mounted {
                        self.retry_or_give_up(&mut actions);
                    } else {
                        self.phase = MonitorPhase::Finished;
                    }
                },
                _ => {},
            },
        }
        proof {
            assert(action_views(actions@) =~= monitor_step(old(self)@, event@).1);
        }
        actions
    }
}

/// The watch run on the events `evs` in turn from state `m`: its final state and all its
/// actions, in order.
pub open spec fn monitor_run(m: MonitorView, evs: Seq<EventView>) -> (MonitorView, Seq<ActionView>)
    decreases evs.len(),
{
    if evs.len() == 0 {
        (m, Seq::empty())
    } else {
        let (m1, a1) = monitor_run(m, evs.drop_last());
        let (m2, a2) = monitor_step(m1, evs.last());
        (m2, a1 + a2)
    }
}

/// How many reports `a` holds.
pub open spec fn report_count(a: Seq<ActionView>) -> nat
    decreases a.len(),
{
    if a.len() == 0 {
        0
    } else {
        report_count(a.drop_last()) + if a.last() is Report { 1nat } else { 0nat }
    }
}

/// How many new starts of rclone `a` holds.
pub open spec fn remount_count(a: Seq<ActionView>) -> nat
    decreases a.len(),
{
    if a.len() == 0 {
        0
    } else {
        remount_count(a.drop_last()) + if a.last() is Remount { 1nat } else { 0nat }
    }
}

/// 1 for a report still owed, else 0.
pub open spec fn owed(m: MonitorView) -> nat {
    if m.report_pending { 1 } else { 0 }
}

/// Counting actions adds up over concatenation.
pub proof fn lemma_counts_concat(a: Seq<ActionView>, b: Seq<ActionView>)
    ensures
        report_count(a + b) == report_count(a) + report_count(b),
        remount_count(a + b) == remount_count(a) + remount_count(b),
    decreases b.len(),
{
    if b.len() > 0 {
        lemma_counts_concat(a, b.drop_last());
        assert((a + b).drop_last() =~= a + b.drop_last());
        assert((a + b).last() == b.last());
    }
}

/// `report_if` holds at most the one owed report.
proof fn lemma_report_if(pending: bool, b: bool)
    ensures
        report_count(report_if(pending, b)) == if pending { 1nat } else { 0nat },
        remount_count(report_if(pending, b)) == 0,
{
    reveal_with_fuel(report_count, 2);
    reveal_with_fuel(remount_count, 2);
    if pending {
        assert(report_if(pending, b).drop_last() =~= Seq::<ActionView>::empty());
        assert(report_if(pending, b).last() == ActionView::Report(b));
    }
}

/// The counts of a few short action lists.
proof fn lemma_fixed_counts(bucket: Seq<char>)
    ensures
        report_count(attempt_actions(bucket)) == 0,
        remount_count(attempt_actions(bucket)) == 1,
{
    reveal_with_fuel(report_count, 5);
    reveal_with_fuel(remount_count, 5);
}

/// 1 when the step from `m` to `next` brings the mount up, else 0.
pub open spec fn came_up(m: MonitorView, next: MonitorView) -> nat {
    if !m.mounted && next.mounted { 1 } else { 0 }
}

/// One step keeps the state's invariant, emits a report only when one is owed and then
/// owes none, and starts rclone again at most once, and then only by counting one more
/// attempt; attempts are forgotten only when the mount comes up. A bucket that is no
/// longer mounted is never started again, and its watch ends; an ended watch stays ended.
pub proof fn lemma_monitor_step(m: MonitorView, e: EventView)
    requires
        monitor_inv(m),
    ensures
        monitor_inv(monitor_step(m, e).0),
        report_count(monitor_step(m, e).1) + owed(monitor_step(m, e).0) <= owed(m),
        remount_count(monitor_step(m, e).1) <= 1,
        remount_count(monitor_step(m, e).1) == 1 ==> monitor_step(m, e).0.retries == m.retries + 1
            && monitor_step(m, e).0.phase == MonitorPhase::Reconnecting,
        remount_count(monitor_step(m, e).1) + m.retries <= monitor_step(m, e).0.retries + MAX_RETRIES
            * came_up(m, monitor_step(m, e).0),
        m.phase == MonitorPhase::Finished ==> monitor_step(m, e) == (m, Seq::<ActionView>::empty()),
        e matches EventView::Terminated(_, false) ==> remount_count(monitor_step(m, e).1) == 0,
        e matches EventView::RemountFailed(false) ==> remount_count(monitor_step(m, e).1) == 0,
        m.phase == MonitorPhase::Watching && (e matches EventView::Terminated(_, false))
            ==> monitor_step(m, e).0.phase == MonitorPhase::Finished,
        m.phase == MonitorPhase::Reconnecting && (e matches EventView::RemountFailed(false))
            ==> monitor_step(m, e).0.phase == MonitorPhase::Finished,
{
    reveal_with_fuel(report_count, 8);
    reveal_with_fuel(remount_count, 8);
    lemma_fixed_counts(m.bucket);
    match m.phase {
        MonitorPhase::Finished => {},
        MonitorPhase::Watching => match e {
            EventView::Stdout(bytes) => {
                let line = lossy_utf8(bytes);
                let log = seq![ActionView::Log("rclone stdout: "@ + line)];
                if !m.mounted && is_success_line(line) {
                    let mid = seq![
                        ActionView::Emit("rclone:mounted"@, m.bucket),
                        ActionView::SetStatus("connected"@),
                        ActionView::Emit("rclone:status_changed"@, m.bucket),
                    ];
                    lemma_report_if(m.report_pending, true);
                    lemma_counts_concat(log, mid);
                    lemma_counts_concat(log + mid, report_if(m.report_pending, true));
                }
            },
            EventView::Stderr(bytes) => {
                let line = lossy_utf8(bytes);
                let log = seq![ActionView::Log("rclone stderr: "@ + line)];
                if is_error_line(line) {
                    let mid = seq![ActionView::Emit("rclone:error"@, line)];
                    lemma_report_if(m.report_pending, false);
                    lemma_counts_concat(log, mid);
                    lemma_counts_concat(log + mid, report_if(m.report_pending, false));
                }
            },
            EventView::Terminated(how, still_mounted) => {
                let log = seq![ActionView::Log("rclone terminated: "@ + how)];
                if (m.mounted || m.retries > 0) && !still_mounted {
                    let mid = seq![ActionView::Emit("rclone:terminated"@, m.bucket)];
                    lemma_counts_concat(log, mid);
                } else if m.mounted {
                    let down = seq![
                        ActionView::SetStatus("disconnected"@),
                        ActionView::Emit("rclone:status_changed"@, m.bucket),
                        ActionView::Emit("rclone:terminated"@, m.bucket),
                    ];
                    let more = retry_or_give_up(m).1;
                    lemma_counts_concat(log, down);
                    lemma_counts_concat(log + down, more);
                } else if m.retries > 0 {
                    lemma_counts_concat(log, retry_or_give_up(m).1);
                } else {
                    let mid = seq![ActionView::Emit("rclone:terminated"@, m.bucket)];
                    lemma_report_if(m.report_pending, false);
                    lemma_counts_concat(log, mid);
                    lemma_counts_concat(log + mid, report_if(m.report_pending, false));
                }
            },
            _ => {},
        },
        MonitorPhase::Reconnecting => {},
    }
}

/// How many times the mount comes up over the run of the watch on `evs` from `m`.
pub open spec fn up_count(m: MonitorView, evs: Seq<EventView>) -> nat
    decreases evs.len(),
{
    if evs.len() == 0 {
        0
    } else {
        let m1 = monitor_run(m, evs.drop_last()).0;
        up_count(m, evs.drop_last()) + came_up(m1, monitor_step(m1, evs.last()).0)
    }
}

/// Over any run of a watch, whoever waits for the mount is told at most once, and rclone
/// is started again at most `MAX_RETRIES` times for each time the mount was up: at most
/// `MAX_RETRIES` times before it first comes up, and as many again after each time it
/// comes up.
pub proof fn lemma_monitor_run(m: MonitorView, evs: Seq<EventView>)
    requires
        monitor_inv(m),
    ensures
        monitor_inv(monitor_run(m, evs).0),
        report_count(monitor_run(m, evs).1) + owed(monitor_run(m, evs).0) <= owed(m),
        report_count(monitor_run(m, evs).1) <= 1,
        remount_count(monitor_run(m, evs).1) + m.retries <= monitor_run(m, evs).0.retries + MAX_RETRIES
            * up_count(m, evs),
        remount_count(monitor_run(m, evs).1) + m.retries <= MAX_RETRIES * (1 + up_count(m, evs)),
    decreases evs.len(),
{
    if evs.len() > 0 {
        lemma_monitor_run(m, evs.drop_last());
        let (m1, a1) = monitor_run(m, evs.drop_last());
        lemma_monitor_step(m1, evs.last());
        let (m2, a2) = monitor_step(m1, evs.last());
        lemma_counts_concat(a1, a2);
    }
}

/// When rclone ends before the mount ever came up (no attempt counted yet), the start
/// has failed, whether or not the bucket is in the mount table: the watch ends, and
/// whoever waits for the mount is told, last, that it failed, so that no report is owed
/// any more; nothing is started again.
pub proof fn lemma_early_end_reports_failure(m: MonitorView, how: Seq<char>, still_mounted: bool)
    requires
        monitor_inv(m),
        m.phase == MonitorPhase::Watching,
        !m.mounted,
        m.retries == 0,
    ensures
        ({
            let (next, a) = monitor_step(m, EventView::Terminated(how, still_mounted));
            &&& next.phase == MonitorPhase::Finished
            &&& !next.report_pending
            &&& report_count(a) == owed(m)
            &&& m.report_pending ==> a.len() > 0 && a.last() == ActionView::Report(false)
            &&& a.len() >= 2
            &&& a[0] == ActionView::Log("rclone terminated: "@ + how)
            &&& a[1] == ActionView::Emit("rclone:terminated"@, m.bucket)
            &&& remount_count(a) == 0
        }),
{
    let e = EventView::Terminated(how, still_mounted);
    lemma_monitor_step(m, e);
    let log = seq![ActionView::Log("rclone terminated: "@ + how)];
    let mid = seq![ActionView::Emit("rclone:terminated"@, m.bucket)];
    lemma_report_if(m.report_pending, false);
    reveal_with_fuel(report_count, 3);
    lemma_counts_concat(log, mid);
    lemma_counts_concat(log + mid, report_if(m.report_pending, false));
}

/// A line by which rclone says that the mount is up, read while the mount is not up yet,
/// brings it up: its status becomes "connected", the attempts are forgotten, whoever
/// waits for the mount is told, last, that it is up, and no report is owed afterwards.
pub proof fn lemma_success_line_reports_up(m: MonitorView, bytes: Seq<u8>)
    requires
        monitor_inv(m),
        m.phase == MonitorPhase::Watching,
        !m.mounted,
        is_success_line(lossy_utf8(bytes)),
    ensures
        ({
            let (next, a) = monitor_step(m, EventView::Stdout(bytes));
            &&& next.mounted
            &&& next.retries == 0
            &&& next.phase == MonitorPhase::Watching
            &&& !next.report_pending
            &&& report_count(a) == owed(m)
            &&& m.report_pending ==> a.last() == ActionView::Report(true)
            &&& a.contains(ActionView::SetStatus("connected"@))
            &&& remount_count(a) == 0
        }),
{
    let line = lossy_utf8(bytes);
    let log = seq![ActionView::Log("rclone stdout: "@ + line)];
    let mid = seq![
        ActionView::Emit("rclone:mounted"@, m.bucket),
        ActionView::SetStatus("connected"@),
        ActionView::Emit("rclone:status_changed"@, m.bucket),
    ];
    reveal_with_fuel(report_count, 4);
    reveal_with_fuel(remount_count, 4);
    lemma_report_if(m.report_pending, true);
    lemma_counts_concat(log, mid);
    lemma_counts_concat(log + mid, report_if(m.report_pending, true));
    let a = monitor_step(m, EventView::Stdout(bytes)).1;
    assert(a[2] == ActionView::SetStatus("connected"@));
}

/// A line by which rclone says that the mount failed tells whoever still waits for the
/// mount that it failed, and then no report is owed; the mount's state is otherwise kept.
pub proof fn lemma_error_line_reports_failure(m: MonitorView, bytes: Seq<u8>)
    requires
        monitor_inv(m),
        m.phase == MonitorPhase::Watching,
        is_error_line(lossy_utf8(bytes)),
    ensures
        ({
            let (next, a) = monitor_step(m, EventView::Stderr(bytes));
            &&& next == MonitorView { report_pending: false, ..m }
            &&& report_count(a) == owed(m)
            &&& m.report_pending ==> a.last() == ActionView::Report(false)
            &&& a.contains(ActionView::Emit("rclone:error"@, lossy_utf8(bytes)))
            &&& remount_count(a) == 0
        }),
{
    let line = lossy_utf8(bytes);
    let log = seq![ActionView::Log("rclone stderr: "@ + line)];
    let mid = seq![ActionView::Emit("rclone:error"@, line)];
    reveal_with_fuel(report_count, 3);
    reveal_with_fuel(remount_count, 3);
    lemma_report_if(m.report_pending, false);
    lemma_counts_concat(log, mid);
    lemma_counts_concat(log + mid, report_if(m.report_pending, false));
    let a = monitor_step(m, EventView::Stderr(bytes)).1;
    assert(a[1] == ActionView::Emit("rclone:error"@, line));
}

} // verus!
