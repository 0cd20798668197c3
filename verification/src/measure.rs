//! The scripts of a measurement: what is typed when, what is waited for, and
//! what is booked of it.
use crate::clock::{
    elapsed, millis, seconds, Duration, Instant, MAX_DURATION_NANOS, NANOS_PER_SEC,
};
use crate::metrics::ArmMetrics;
use crate::screen::{digit_marker, MARKER_LENGTH};
use crate::script::{
    arm_plan, flap_steps, keystrokes_of, law_every_flap_is_followed_by_keystrokes,
    law_every_keystroke_is_typed, ArmStep,
};
use crate::text::zero_padded;
use vstd::prelude::*;
use vstd::string::StrSliceExecFns;
use vstd::utf8::encode_utf8;

verus! {

/// Gap between markers, so each measurement starts from an idle link.
pub const KEYSTROKE_GAP_MS: u64 = 250;

/// A marker not echoed inside this window counts as a lost keystroke.
pub const ECHO_TIMEOUT_SECS: u64 = 10;

/// A keystroke sent into a dead path is echoed once the path recovers, which
/// costs the outage plus a loss-recovery round; it gets its own budget.
pub const RECOVERY_ECHO_TIMEOUT_SECS: u64 = 30;

/// Ceiling on the time from the path reopening to the next frame.
pub const RECOVERY_TIMEOUT_SECS: u64 = 30;

/// How long a path is dead before anything is typed into it.
pub const DEAD_PATH_SETTLE_MS: u64 = 500;

/// `^U`: erases the marker the shell just echoed, so the prompt line never wraps
/// and every marker is measured on a clean line.
pub const KILL_LINE: u8 = 0x15;

/// What to do next with the terminal.
pub enum TypingAction {
    /// Forget the text shown so far, then send these bytes.
    SendAfresh(Vec<u8>),
    Send(Vec<u8>),
    AwaitMarker { marker: String, deadline: Instant },
    AwaitFrame(Instant),
    DrainUntil(Instant),
    /// Make the path dead.
    CutPath,
    /// Bring the path back.
    RestorePath,
    Done,
}

/// What the last action brought.
#[derive(Clone, Copy, Debug, PartialEq, Eq, Structural)]
pub enum TypingEvent {
    /// It is done, at this point.
    Performed(Instant),
    /// When the awaited frame or marker was seen, if it was.
    Seen(Option<Instant>),
}

/// Whether the action is to send exactly the bytes of `text`.
pub open spec fn sends_text(action: TypingAction, text: Seq<char>) -> bool {
    action matches TypingAction::Send(data) && data@ == encode_utf8(text)
}

pub open spec fn erases_line(action: TypingAction) -> bool {
    action matches TypingAction::Send(data) && data@ == seq![KILL_LINE]
}

pub open spec fn awaits_marker(action: TypingAction, text: Seq<char>, deadline: int) -> bool {
    action matches TypingAction::AwaitMarker { marker, deadline: until } && marker@ == text
        && until.nanos == deadline
}

pub open spec fn awaits_frame(action: TypingAction, deadline: int) -> bool {
    action matches TypingAction::AwaitFrame(until) && until.nanos == deadline
}

pub open spec fn drains_until(action: TypingAction, deadline: int) -> bool {
    action matches TypingAction::DrainUntil(until) && until.nanos == deadline
}

fn erase_line() -> (action: TypingAction)
    ensures
        erases_line(action),
{
    let mut data: Vec<u8> = Vec::new();
    data.push(KILL_LINE);
    assert(data@ =~= seq![KILL_LINE]);
    TypingAction::Send(data)
}

/// How far one keystroke's measurement has come.
#[derive(Clone, Copy, Debug, PartialEq, Eq, Structural)]
pub enum KeystrokeStage {
    Typing,
    Waiting { sent: Instant },
    Erasing,
    Resting,
    Done,
}

/// Types one marker, waits for it to come back on a frame, then clears the line.
pub struct Keystroke {
    pub marker: String,
    pub stage: KeystrokeStage,
}

impl Keystroke {
    /// Whether the event is one that the stage can bring, and all that follows
    /// from it can be counted.
    pub open spec fn expects(self, event: TypingEvent, metrics: ArmMetrics) -> bool {
        match self.stage {
            KeystrokeStage::Typing => event matches TypingEvent::Performed(now) && now.reaches(
                seconds(ECHO_TIMEOUT_SECS as int),
            ),
            KeystrokeStage::Waiting { sent } => event matches TypingEvent::Seen(seen) && (seen
                is None ==> metrics.lost < u64::MAX),
            KeystrokeStage::Erasing => event matches TypingEvent::Performed(now) && now.reaches(
                millis(KEYSTROKE_GAP_MS as int),
            ),
            KeystrokeStage::Resting => event is Performed,
            KeystrokeStage::Done => false,
        }
    }

    /// Begins by typing the marker. Only this keystroke's frames may satisfy it.
    pub fn begin(marker: String) -> (begun: (Keystroke, TypingAction))
        ensures
            begun.0.marker@ == marker@,
            begun.0.stage == KeystrokeStage::Typing,
            begun.1 matches TypingAction::SendAfresh(data) && data@ == encode_utf8(marker@),
    {
        let data = marker.as_str().as_bytes_vec();
        (Keystroke { marker, stage: KeystrokeStage::Typing }, TypingAction::SendAfresh(data))
    }

    /// The script, stage by stage: where `event` leads, and what is booked.
    pub open spec fn leads_to(
        self,
        event: TypingEvent,
        before: ArmMetrics,
        after: Keystroke,
        booked: ArmMetrics,
        action: TypingAction,
    ) -> bool {
        match (self.stage, event) {
            (KeystrokeStage::Typing, TypingEvent::Performed(now)) => {
                &&& after == Keystroke { stage: KeystrokeStage::Waiting { sent: now }, ..self }
                &&& awaits_marker(
                    action,
                    self.marker@,
                    now.nanos + seconds(ECHO_TIMEOUT_SECS as int),
                )
                &&& booked.same_score(before)
            },
            (KeystrokeStage::Waiting { sent }, TypingEvent::Seen(Some(at))) => {
                &&& after == Keystroke { stage: KeystrokeStage::Erasing, ..self }
                &&& erases_line(action)
                &&& booked.latencies@ == before.latencies@.push(elapsed(sent, at))
                &&& booked.lost == before.lost
            },
            (KeystrokeStage::Waiting { sent }, TypingEvent::Seen(None)) => {
                &&& after == Keystroke { stage: KeystrokeStage::Erasing, ..self }
                &&& erases_line(action)
                &&& booked.latencies@ == before.latencies@
                &&& booked.lost == before.lost + 1
            },
            (KeystrokeStage::Erasing, TypingEvent::Performed(now)) => {
                &&& after == Keystroke { stage: KeystrokeStage::Resting, ..self }
                &&& drains_until(action, now.nanos + millis(KEYSTROKE_GAP_MS as int))
                &&& booked.same_score(before)
            },
            _ => {
                &&& after == Keystroke { stage: KeystrokeStage::Done, ..self }
                &&& action is Done
                &&& booked.same_score(before)
            },
        }
    }

    /// Takes in what the last action brought, books it, and says what is next.
    /// The gap at the end runs from the echo, not from the keystroke: it is what
    /// gives the server an idle window to paint the erased line on its own frame.
    pub fn step(&mut self, event: TypingEvent, metrics: &mut ArmMetrics) -> (action: TypingAction)
        requires
            old(self).expects(event, *old(metrics)),
        ensures
            old(self).leads_to(event, *old(metrics), *final(self), *final(metrics), action),
            final(metrics).same_frames(*old(metrics)),
    {
        match (self.stage, event) {
            (KeystrokeStage::Typing, TypingEvent::Performed(now)) => {
                self.stage = KeystrokeStage::Waiting { sent: now };
                TypingAction::AwaitMarker {
                    marker: self.marker.clone(),
                    deadline: now.plus(Duration::from_secs(ECHO_TIMEOUT_SECS)),
                }
            },
            (KeystrokeStage::Waiting { sent }, TypingEvent::Seen(seen)) => {
                metrics.record_echo(sent, seen);
                self.stage = KeystrokeStage::Erasing;
                erase_line()
            },
            (KeystrokeStage::Erasing, TypingEvent::Performed(now)) => {
                self.stage = KeystrokeStage::Resting;
                TypingAction::DrainUntil(now.plus(Duration::from_millis(KEYSTROKE_GAP_MS)))
            },
            _ => {
                self.stage = KeystrokeStage::Done;
                TypingAction::Done
            },
        }
    }
}

/// How far the probe of a dead path has come.
#[derive(Clone, Copy, Debug, PartialEq, Eq, Structural)]
pub enum ProbeStage {
    Cutting,
    Settling,
    Typing,
    Dark,
    Restoring,
    Recovering,
    Echoing,
    Erasing,
    Resting,
    Done,
}

/// Makes the path dead for a window, types a marker into the dark, and times
/// both the first frame after the path is back and that marker's echo.
pub struct PathProbe {
    pub marker: String,
    pub window: Duration,
    pub stage: ProbeStage,
    pub cut_at: Instant,
    pub restored_at: Instant,
    /// Path back to first frame.
    pub recovery: Option<Duration>,
    /// Path back to echo of the marker.
    pub echo: Option<Duration>,
}

/// How long after `from` something was seen, if it was.
pub open spec fn seen_after(from: Instant, seen: Option<Instant>) -> Option<Duration> {
    match seen {
        Some(at) => Some(elapsed(from, at)),
        None => None,
    }
}

fn since(from: Instant, seen: Option<Instant>) -> (span: Option<Duration>)
    ensures
        span == seen_after(from, seen),
{
    match seen {
        Some(at) => Some(at.saturating_duration_since(from)),
        None => None,
    }
}

impl PathProbe {
    /// Whether the event is one that the stage can bring, and all that follows
    /// from it can be counted.
    pub open spec fn expects(self, event: TypingEvent, metrics: ArmMetrics) -> bool {
        match self.stage {
            ProbeStage::Cutting => event matches TypingEvent::Performed(now) && now.reaches(
                millis(DEAD_PATH_SETTLE_MS as int),
            ),
            ProbeStage::Typing => event is Performed && self.cut_at.reaches(
                self.window.nanos as int,
            ),
            ProbeStage::Restoring => event matches TypingEvent::Performed(now) && now.reaches(
                seconds(RECOVERY_TIMEOUT_SECS as int),
            ),
            ProbeStage::Recovering => event is Seen && self.restored_at.reaches(
                seconds(RECOVERY_ECHO_TIMEOUT_SECS as int),
            ),
            ProbeStage::Echoing => event matches TypingEvent::Seen(seen) && (seen is None
                ==> metrics.lost < u64::MAX),
            ProbeStage::Erasing => event matches TypingEvent::Performed(now) && now.reaches(
                millis(KEYSTROKE_GAP_MS as int),
            ),
            ProbeStage::Done => false,
            _ => event is Performed,
        }
    }

    /// The script, stage by stage: where `event` leads.
    pub open spec fn leads_to(
        self,
        event: TypingEvent,
        after: PathProbe,
        action: TypingAction,
    ) -> bool {
        match (self.stage, event) {
            // The outage takes hold before anything is typed into it, so the
            // keystroke cannot slip out on a datagram already in flight.
            (ProbeStage::Cutting, TypingEvent::Performed(now)) => {
                &&& after == PathProbe { stage: ProbeStage::Settling, cut_at: now, ..self }
                &&& drains_until(action, now.nanos + millis(DEAD_PATH_SETTLE_MS as int))
            },
            (ProbeStage::Settling, _) => {
                &&& after == PathProbe { stage: ProbeStage::Typing, ..self }
                &&& sends_text(action, self.marker@)
            },
            (ProbeStage::Typing, _) => {
                &&& after == PathProbe { stage: ProbeStage::Dark, ..self }
                &&& drains_until(action, self.cut_at.nanos + self.window.nanos)
            },
            (ProbeStage::Dark, _) => {
                &&& after == PathProbe { stage: ProbeStage::Restoring, ..self }
                &&& action is RestorePath
            },
            (ProbeStage::Restoring, TypingEvent::Performed(now)) => {
                &&& after == PathProbe { stage: ProbeStage::Recovering, restored_at: now, ..self }
                &&& awaits_frame(action, now.nanos + seconds(RECOVERY_TIMEOUT_SECS as int))
            },
            (ProbeStage::Recovering, TypingEvent::Seen(seen)) => {
                &&& after == PathProbe {
                    stage: ProbeStage::Echoing,
                    recovery: seen_after(self.restored_at, seen),
                    ..self
                }
                &&& awaits_marker(
                    action,
                    self.marker@,
                    self.restored_at.nanos + seconds(RECOVERY_ECHO_TIMEOUT_SECS as int),
                )
            },
            (ProbeStage::Echoing, TypingEvent::Seen(seen)) => {
                &&& after == PathProbe {
                    stage: ProbeStage::Erasing,
                    echo: seen_after(self.restored_at, seen),
                    ..self
                }
                &&& erases_line(action)
            },
            (ProbeStage::Erasing, TypingEvent::Performed(now)) => {
                &&& after == PathProbe { stage: ProbeStage::Resting, ..self }
                &&& drains_until(action, now.nanos + millis(KEYSTROKE_GAP_MS as int))
            },
            _ => {
                &&& after == PathProbe { stage: ProbeStage::Done, ..self }
                &&& action is Done
            },
        }
    }

    /// How many keystrokes `event` shows to be lost.
    pub open spec fn loses(self, event: TypingEvent) -> int {
        if self.stage == ProbeStage::Echoing && event == TypingEvent::Seen(None) {
            1
        } else {
            0
        }
    }

    /// Begins by making the path dead.
    pub fn begin(marker: String, window: Duration) -> (begun: (PathProbe, TypingAction))
        ensures
            begun.0.marker@ == marker@,
            begun.0.window == window,
            begun.0.stage == ProbeStage::Cutting,
            begun.0.recovery is None,
            begun.0.echo is None,
            begun.1 is CutPath,
    {
        let origin = Instant { nanos: 0 };
        let probe = PathProbe {
            marker,
            window,
            stage: ProbeStage::Cutting,
            cut_at: origin,
            restored_at: origin,
            recovery: None,
            echo: None,
        };
        (probe, TypingAction::CutPath)
    }

    /// Begins the probe of an outage of this length. Its marker is made of
    /// digits, so it can never be confused with the letter markers of the
    /// ordinary keystrokes around it.
    pub fn blackout(window: Duration) -> (begun: (PathProbe, TypingAction))
        requires
            window.nanos <= MAX_DURATION_NANOS,
        ensures
            begun.0.marker@ == zero_padded(
                (window.nanos / NANOS_PER_SEC) as nat,
                MARKER_LENGTH as nat,
            ),
            begun.0.window == window,
            begun.0.stage == ProbeStage::Cutting,
            begun.0.recovery is None,
            begun.0.echo is None,
            begun.1 is CutPath,
    {
        PathProbe::begin(digit_marker(window.as_secs()), window)
    }

    /// Takes in what the last action brought and says what is next. A marker
    /// that never comes back counts as a lost keystroke.
    pub fn step(&mut self, event: TypingEvent, metrics: &mut ArmMetrics) -> (action: TypingAction)
        requires
            old(self).expects(event, *old(metrics)),
        ensures
            old(self).leads_to(event, *final(self), action),
            final(metrics).same_frames(*old(metrics)),
            final(metrics).latencies@ == old(metrics).latencies@,
            final(metrics).lost == old(metrics).lost + old(self).loses(event),
    {
        match (self.stage, event) {
            (ProbeStage::Cutting, TypingEvent::Performed(now)) => {
                self.stage = ProbeStage::Settling;
                self.cut_at = now;
                TypingAction::DrainUntil(now.plus(Duration::from_millis(DEAD_PATH_SETTLE_MS)))
            },
            (ProbeStage::Settling, _) => {
                self.stage = ProbeStage::Typing;
                TypingAction::Send(self.marker.as_str().as_bytes_vec())
            },
            (ProbeStage::Typing, _) => {
                self.stage = ProbeStage::Dark;
                TypingAction::DrainUntil(self.cut_at.plus(self.window))
            },
            (ProbeStage::Dark, _) => {
                self.stage = ProbeStage::Restoring;
                TypingAction::RestorePath
            },
            (ProbeStage::Restoring, TypingEvent::Performed(now)) => {
                self.stage = ProbeStage::Recovering;
                self.restored_at = now;
                TypingAction::AwaitFrame(now.plus(Duration::from_secs(RECOVERY_TIMEOUT_SECS)))
            },
            (ProbeStage::Recovering, TypingEvent::Seen(seen)) => {
                self.recovery = since(self.restored_at, seen);
                self.stage = ProbeStage::Echoing;
                TypingAction::AwaitMarker {
                    marker: self.marker.clone(),
                    deadline: self.restored_at.plus(
                        Duration::from_secs(RECOVERY_ECHO_TIMEOUT_SECS),
                    ),
                }
            },
            (ProbeStage::Echoing, TypingEvent::Seen(seen)) => {
                self.echo = since(self.restored_at, seen);
                if seen.is_none() {
                    metrics.record_lost();
                }
                self.stage = ProbeStage::Erasing;
                erase_line()
            },
            (ProbeStage::Erasing, TypingEvent::Performed(now)) => {
                self.stage = ProbeStage::Resting;
                TypingAction::DrainUntil(now.plus(Duration::from_millis(KEYSTROKE_GAP_MS)))
            },
            _ => {
                self.stage = ProbeStage::Done;
                TypingAction::Done
            },
        }
    }
}

/// What one outage showed.
#[derive(Clone, Copy, Debug, PartialEq, Eq, Structural)]
pub struct BlackoutRecord {
    pub window: Duration,
    pub recovery: Option<Duration>,
    pub echoed: bool,
}

impl PathProbe {
    /// The probe's findings as those of an outage.
    pub fn blackout_record(&self) -> (record: BlackoutRecord)
        ensures
            record.window == self.window,
            record.recovery == self.recovery,
            record.echoed == (self.echo is Some),
    {
        BlackoutRecord {
            window: self.window,
            recovery: self.recovery,
            echoed: self.echo.is_some(),
        }
    }
}

/// A keystroke's measurement from its first stage on: the stages gone through,
/// what each action brought, the metrics around each step and the actions asked
/// for. Between two steps frames may be accounted, nothing else.
pub open spec fn is_keystroke_run(
    stages: Seq<Keystroke>,
    events: Seq<TypingEvent>,
    before: Seq<ArmMetrics>,
    booked: Seq<ArmMetrics>,
    actions: Seq<TypingAction>,
) -> bool {
    &&& stages.len() == events.len() + 1
    &&& before.len() == events.len()
    &&& booked.len() == events.len()
    &&& actions.len() == events.len()
    &&& stages[0].stage == KeystrokeStage::Typing
    &&& forall|i: int|
        0 <= i < events.len() ==> (#[trigger] stages[i]).expects(events[i], before[i])
            && stages[i].leads_to(events[i], before[i], stages[i + 1], booked[i], actions[i])
    &&& forall|i: int|
        0 < i < events.len() ==> (#[trigger] before[i]).same_score(booked[i - 1])
}

/// A finished measurement took four steps and booked exactly one keystroke: its
/// latency from the moment it was sent if its echo was seen, else as lost. It
/// left the line erased.
pub proof fn law_keystroke_is_booked_once(
    stages: Seq<Keystroke>,
    events: Seq<TypingEvent>,
    before: Seq<ArmMetrics>,
    booked: Seq<ArmMetrics>,
    actions: Seq<TypingAction>,
)
    requires
        is_keystroke_run(stages, events, before, booked, actions),
        stages.last().stage == KeystrokeStage::Done,
    ensures
        events.len() == 4,
        match events[1]->Seen_0 {
            Some(at) => {
                &&& booked.last().latencies@ == before[0].latencies@.push(
                    elapsed(events[0]->Performed_0, at),
                )
                &&& booked.last().lost == before[0].lost
            },
            None => {
                &&& booked.last().latencies@ == before[0].latencies@
                &&& booked.last().lost == before[0].lost + 1
            },
        },
        erases_line(actions[1]),
{
    let n = events.len();
    if n > 0 {
        assert(stages[0].expects(events[0], before[0]));
    }
    if n > 1 {
        assert(stages[1].expects(events[1], before[1]));
        assert(before[1].same_score(booked[0]));
    }
    if n > 2 {
        assert(stages[2].expects(events[2], before[2]));
        assert(before[2].same_score(booked[1]));
    }
    if n > 3 {
        assert(stages[3].expects(events[3], before[3]));
        assert(before[3].same_score(booked[2]));
    }
    if n > 4 {
        assert(stages[4].expects(events[4], before[4]));
    }
}

/// A probe of a dead path from its first stage on: the stages gone through, what
/// each action brought, the metrics around each step and the actions asked for.
/// Between two steps frames may be accounted, nothing else.
pub open spec fn is_probe_run(
    stages: Seq<PathProbe>,
    events: Seq<TypingEvent>,
    before: Seq<ArmMetrics>,
    booked: Seq<ArmMetrics>,
    actions: Seq<TypingAction>,
) -> bool {
    &&& stages.len() == events.len() + 1
    &&& before.len() == events.len()
    &&& booked.len() == events.len()
    &&& actions.len() == events.len()
    &&& stages[0].stage == ProbeStage::Cutting
    &&& forall|i: int|
        0 <= i < events.len() ==> {
            &&& (#[trigger] stages[i]).expects(events[i], before[i])
            &&& stages[i].leads_to(events[i], stages[i + 1], actions[i])
            &&& booked[i].latencies@ == before[i].latencies@
            &&& booked[i].lost == before[i].lost + stages[i].loses(events[i])
        }
    &&& forall|i: int| 0 < i < events.len() ==> (#[trigger] before[i]).same_score(booked[i - 1])
}

/// A finished probe typed its marker once, after the path was cut and before it
/// was restored. Both of its times run from the moment the path was back, and
/// each is there exactly if what it times was seen. It left the line erased, and
/// booked a lost keystroke exactly if the marker never came back.
pub proof fn law_probe_times_the_recovery(
    stages: Seq<PathProbe>,
    events: Seq<TypingEvent>,
    before: Seq<ArmMetrics>,
    booked: Seq<ArmMetrics>,
    actions: Seq<TypingAction>,
)
    requires
        is_probe_run(stages, events, before, booked, actions),
        stages.last().stage == ProbeStage::Done,
    ensures
        events.len() == 9,
        sends_text(actions[1], stages[0].marker@),
        drains_until(actions[2], events[0]->Performed_0.nanos + stages[0].window.nanos),
        actions[3] is RestorePath,
        erases_line(actions[6]),
        stages.last().marker == stages[0].marker,
        stages.last().window == stages[0].window,
        stages.last().recovery == seen_after(events[4]->Performed_0, events[5]->Seen_0),
        stages.last().echo == seen_after(events[4]->Performed_0, events[6]->Seen_0),
        booked.last().latencies@ == before[0].latencies@,
        booked.last().lost == before[0].lost + if stages.last().echo is None {
            1int
        } else {
            0int
        },
{
    lemma_probe_positions(stages, events, before, booked, actions, events.len() as int);
    assert(stages[0].leads_to(events[0], stages[1], actions[0]));
    assert(stages[1].leads_to(events[1], stages[2], actions[1]));
    assert(stages[2].leads_to(events[2], stages[3], actions[2]));
    assert(stages[3].leads_to(events[3], stages[4], actions[3]));
    assert(stages[4].leads_to(events[4], stages[5], actions[4]));
    assert(stages[5].leads_to(events[5], stages[6], actions[5]));
    assert(stages[6].leads_to(events[6], stages[7], actions[6]));
    assert(stages[7].leads_to(events[7], stages[8], actions[7]));
    assert(stages[8].leads_to(events[8], stages[9], actions[8]));
    assert(before[1].same_score(booked[0]));
    assert(before[2].same_score(booked[1]));
    assert(before[3].same_score(booked[2]));
    assert(before[4].same_score(booked[3]));
    assert(before[5].same_score(booked[4]));
    assert(before[6].same_score(booked[5]));
    assert(before[7].same_score(booked[6]));
    assert(before[8].same_score(booked[7]));
}

/// How many steps lead to a stage of a probe.
pub open spec fn probe_position(stage: ProbeStage) -> int {
    match stage {
        ProbeStage::Cutting => 0,
        ProbeStage::Settling => 1,
        ProbeStage::Typing => 2,
        ProbeStage::Dark => 3,
        ProbeStage::Restoring => 4,
        ProbeStage::Recovering => 5,
        ProbeStage::Echoing => 6,
        ProbeStage::Erasing => 7,
        ProbeStage::Resting => 8,
        ProbeStage::Done => 9,
    }
}

proof fn lemma_probe_positions(
    stages: Seq<PathProbe>,
    events: Seq<TypingEvent>,
    before: Seq<ArmMetrics>,
    booked: Seq<ArmMetrics>,
    actions: Seq<TypingAction>,
    i: int,
)
    requires
        is_probe_run(stages, events, before, booked, actions),
        0 <= i < stages.len(),
    ensures
        probe_position(stages[i].stage) == i,
        i < events.len() ==> i < 9,
    decreases i,
{
    if i > 0 {
        lemma_probe_positions(stages, events, before, booked, actions, i - 1);
        assert(stages[i - 1].leads_to(events[i - 1], stages[i], actions[i - 1]));
    }
    if i < events.len() {
        assert(stages[i].leads_to(events[i], stages[i + 1], actions[i]));
    }
}

/// How one step of an arm went.
pub enum StepRun {
    Keystroke {
        stages: Seq<Keystroke>,
        events: Seq<TypingEvent>,
        before: Seq<ArmMetrics>,
        booked: Seq<ArmMetrics>,
        actions: Seq<TypingAction>,
    },
    Outage {
        probes: Seq<PathProbe>,
        events: Seq<TypingEvent>,
        before: Seq<ArmMetrics>,
        booked: Seq<ArmMetrics>,
        actions: Seq<TypingAction>,
    },
}

impl StepRun {
    /// Whether this is a finished run of `step`, from the score of `from` to that
    /// of `to`.
    pub open spec fn finishes(self, step: ArmStep, from: ArmMetrics, to: ArmMetrics) -> bool {
        match (self, step) {
            (
                StepRun::Keystroke { stages, events, before, booked, actions },
                ArmStep::Keystroke(_),
            ) => {
                &&& is_keystroke_run(stages, events, before, booked, actions)
                &&& stages.last().stage == KeystrokeStage::Done
                &&& before[0].same_score(from)
                &&& to.same_score(booked.last())
            },
            (
                StepRun::Outage { probes, events, before, booked, actions },
                ArmStep::Outage(_),
            ) => {
                &&& is_probe_run(probes, events, before, booked, actions)
                &&& probes.last().stage == ProbeStage::Done
                &&& before[0].same_score(from)
                &&& to.same_score(booked.last())
            },
            _ => false,
        }
    }

    /// Whether this is an outage whose keystroke never came back.
    pub open spec fn is_unechoed(self) -> bool {
        self matches StepRun::Outage { probes, .. } && probes.last().echo is None
    }
}

/// Number of outages among the runs whose keystroke never came back.
pub open spec fn unechoed(runs: Seq<StepRun>) -> nat
    decreases runs.len(),
{
    if runs.len() == 0 {
        0
    } else {
        unechoed(runs.drop_last()) + if runs.last().is_unechoed() {
            1nat
        } else {
            0nat
        }
    }
}

/// The steps of an arm, each run to its end, with the metrics in between.
pub open spec fn is_arm_run(
    steps: Seq<ArmStep>,
    runs: Seq<StepRun>,
    scores: Seq<ArmMetrics>,
) -> bool {
    &&& runs.len() == steps.len()
    &&& scores.len() == steps.len() + 1
    &&& forall|i: int|
        0 <= i < steps.len() ==> (#[trigger] runs[i]).finishes(steps[i], scores[i], scores[i + 1])
}

/// Keystrokes that were booked, back or lost.
pub open spec fn booked_keystrokes(metrics: ArmMetrics) -> int {
    metrics.latencies@.len() + metrics.lost
}

/// Whatever an arm's script is, each of its keystrokes is booked once, as a
/// latency or as lost, and each outage books one more lost keystroke exactly if
/// what was typed into it never came back.
pub proof fn law_script_books_every_keystroke(
    steps: Seq<ArmStep>,
    runs: Seq<StepRun>,
    scores: Seq<ArmMetrics>,
)
    requires
        is_arm_run(steps, runs, scores),
    ensures
        booked_keystrokes(scores.last()) == booked_keystrokes(scores[0]) + keystrokes_of(
            steps,
        ).len() + unechoed(runs),
    decreases steps.len(),
{
    if steps.len() > 0 {
        let last = steps.len() - 1;
        let fewer = steps.drop_last();
        let earlier = scores.drop_last();
        assert forall|i: int| 0 <= i < fewer.len() implies (#[trigger] runs.drop_last()[i]).finishes(
            fewer[i],
            earlier[i],
            earlier[i + 1],
        ) by {
            assert(runs[i].finishes(steps[i], scores[i], scores[i + 1]));
        }
        law_script_books_every_keystroke(fewer, runs.drop_last(), earlier);
        assert(runs[last].finishes(steps[last], scores[last], scores[last + 1]));
        match runs[last] {
            StepRun::Keystroke { stages, events, before, booked, actions } => {
                law_keystroke_is_booked_once(stages, events, before, booked, actions);
            },
            StepRun::Outage { probes, events, before, booked, actions } => {
                law_probe_times_the_recovery(probes, events, before, booked, actions);
            },
        }
    }
}

/// An arm of `count` keystrokes that starts with nothing booked ends with `count`
/// latencies and lost keystrokes, plus one lost keystroke for every outage whose
/// keystroke never came back.
pub proof fn law_arm_books_every_keystroke(
    count: nat,
    outages: nat,
    runs: Seq<StepRun>,
    scores: Seq<ArmMetrics>,
)
    requires
        is_arm_run(arm_plan(count, outages), runs, scores),
        scores[0].latencies@.len() == 0,
        scores[0].lost == 0,
    ensures
        scores.last().latencies@.len() + scores.last().lost == count + unechoed(runs),
{
    law_script_books_every_keystroke(arm_plan(count, outages), runs, scores);
    law_every_keystroke_is_typed(count, outages);
}

/// The same of an arm of the address-change scenario.
pub proof fn law_flap_arm_books_every_keystroke(
    flaps: nat,
    per_flap: nat,
    runs: Seq<StepRun>,
    scores: Seq<ArmMetrics>,
)
    requires
        is_arm_run(flap_steps(flaps, per_flap), runs, scores),
        scores[0].latencies@.len() == 0,
        scores[0].lost == 0,
    ensures
        scores.last().latencies@.len() + scores.last().lost == per_flap * (flaps + 1) + unechoed(
            runs,
        ),
{
    law_script_books_every_keystroke(flap_steps(flaps, per_flap), runs, scores);
    law_every_flap_is_followed_by_keystrokes(flaps, per_flap);
}

} // verus!
