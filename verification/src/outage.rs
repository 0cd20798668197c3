//! A full outage under a live connection: when the relay closes and reopens, and
//! what is booked until the client is connected again.
use crate::clock::{elapsed, millis, seconds, Duration, Instant};
use crate::idle::SETTLE_MS;
use crate::profile::ClientEndpointStatus;
use crate::supervised::SupervisedEvent;
use vstd::prelude::*;
use vstd::string::StringExecFns;

verus! {

/// Length of the outage unless the caller asks for another.
pub const DEFAULT_OUTAGE_SECONDS: u64 = 200;

/// How long the whole scenario may take on top of the outage itself.
pub const OUTAGE_SLACK_SECS: u64 = 120;

/// What an outage showed.
pub struct OutageRecord {
    pub outage: Duration,
    /// From the start of the outage to the bridge closing the local socket.
    pub lost_after: Option<Duration>,
    /// Transport status states the bridge sent on the connection it closed.
    pub hints: Vec<String>,
    /// Reconnect attempts that failed, as time after the connection was lost.
    pub failed_attempts: Vec<Duration>,
    /// From the relay reopening to the supervisor reporting a connection.
    pub restore_to_connected: Option<Duration>,
}

/// How far the scenario has come.
#[derive(Clone, Copy, Debug, PartialEq, Eq, Structural)]
pub enum OutagePhase {
    Live { since: Instant },
    Outage { started: Instant },
    Restored { at: Instant },
    Done,
}

/// Why the scenario failed.
pub enum OutageFault {
    TimedOut(OutagePhase),
    /// The connection closed outside the outage.
    ClosedOutside(OutagePhase),
    /// The supervisor gave up, with these words.
    GaveUp(String),
    /// A connection was made where none is expected.
    ConnectedDuring(OutagePhase),
}

/// What to do with the relay.
pub enum OutageAction {
    Nothing,
    CloseRelay,
    ReopenRelay,
    Fail(OutageFault),
}

/// When the scenario must be over that started at `started`.
pub fn outage_deadline(started: Instant, outage: Duration) -> (deadline: Instant)
    requires
        started.reaches(outage.nanos + seconds(OUTAGE_SLACK_SECS as int)),
    ensures
        deadline.nanos == started.nanos + outage.nanos + seconds(OUTAGE_SLACK_SECS as int),
{
    started.plus(outage).plus(Duration::from_secs(OUTAGE_SLACK_SECS))
}

/// The scenario, from the first connection on.
pub struct OutageRun {
    /// Generation of the connection that is to be lost.
    pub first: u64,
    pub deadline: Instant,
    pub phase: OutagePhase,
    pub lost_at: Option<Instant>,
    pub record: OutageRecord,
}

/// A hint as it is kept: marked if the supervisor took it.
pub open spec fn noted_hint(state: Seq<char>, applied: bool) -> Seq<char> {
    if applied {
        state + " (applied)"@
    } else {
        state
    }
}

/// Whether `later` is `earlier` and one more text behind it.
pub open spec fn one_more(later: Seq<String>, earlier: Seq<String>, text: Seq<char>) -> bool {
    &&& later.len() == earlier.len() + 1
    &&& later.take(earlier.len() as int) == earlier
    &&& later.last()@ == text
}

/// Whether at least `span` lies between the two points.
pub open spec fn lies_after(later: Instant, earlier: Instant, span: int) -> bool {
    later.nanos >= earlier.nanos + span
}

impl OutageRun {
    /// A connection that was lost was lost in the outage, failed attempts are
    /// counted from its loss, and the scenario is done exactly when the client
    /// has been connected again.
    pub open spec fn wf(self) -> bool {
        &&& self.lost_at is Some == self.record.lost_after is Some
        &&& self.record.failed_attempts@.len() > 0 ==> self.lost_at is Some
        &&& self.phase is Live ==> self.lost_at is None
        &&& self.phase is Done == self.record.restore_to_connected is Some
    }

    pub fn begin(first: u64, outage: Duration, deadline: Instant, now: Instant) -> (run: OutageRun)
        ensures
            run.wf(),
            run.first == first,
            run.deadline == deadline,
            run.phase == (OutagePhase::Live { since: now }),
            run.lost_at is None,
            run.record.outage == outage,
            run.record.lost_after is None,
            run.record.hints@.len() == 0,
            run.record.failed_attempts@.len() == 0,
            run.record.restore_to_connected is None,
    {
        OutageRun {
            first,
            deadline,
            phase: OutagePhase::Live { since: now },
            lost_at: None,
            record: OutageRecord {
                outage,
                lost_after: None,
                hints: Vec::new(),
                failed_attempts: Vec::new(),
                restore_to_connected: None,
            },
        }
    }

    pub fn is_done(&self) -> (done: bool)
        ensures
            done == (self.phase == OutagePhase::Done),
    {
        self.phase == OutagePhase::Done
    }

    /// The phase at `now`: the outage starts once the connection has settled, and
    /// ends after its length.
    pub open spec fn phase_at(self, now: Instant) -> OutagePhase {
        match self.phase {
            OutagePhase::Live { since } => if lies_after(now, since, millis(SETTLE_MS as int)) {
                OutagePhase::Outage { started: now }
            } else {
                self.phase
            },
            OutagePhase::Outage { started } => if lies_after(
                now,
                started,
                self.record.outage.nanos as int,
            ) {
                OutagePhase::Restored { at: now }
            } else {
                self.phase
            },
            _ => self.phase,
        }
    }

    /// Moves on with the clock, and says what to do with the relay.
    pub fn advance(&mut self, now: Instant) -> (action: OutageAction)
        requires
            old(self).wf(),
        ensures
            final(self).wf(),
            if now.nanos >= old(self).deadline.nanos {
                &&& action == OutageAction::Fail(OutageFault::TimedOut(old(self).phase))
                &&& *final(self) == *old(self)
            } else {
                &&& *final(self) == (OutageRun { phase: old(self).phase_at(now), ..*old(self) })
                &&& action == if old(self).phase_at(now) == old(self).phase {
                    OutageAction::Nothing
                } else if old(self).phase is Live {
                    OutageAction::CloseRelay
                } else {
                    OutageAction::ReopenRelay
                }
            },
    {
        if now.nanos >= self.deadline.nanos {
            return OutageAction::Fail(OutageFault::TimedOut(self.phase));
        }
        match self.phase {
            OutagePhase::Live { since } => {
                let settle = Duration::from_millis(SETTLE_MS);
                if now.nanos >= since.nanos && now.nanos - since.nanos >= settle.nanos {
                    self.phase = OutagePhase::Outage { started: now };
                    return OutageAction::CloseRelay;
                }
            },
            OutagePhase::Outage { started } => {
                if now.nanos >= started.nanos && now.nanos - started.nanos
                    >= self.record.outage.nanos {
                    self.phase = OutagePhase::Restored { at: now };
                    return OutageAction::ReopenRelay;
                }
            },
            _ => {},
        }
        OutageAction::Nothing
    }

    /// What the event books, or why it fails the scenario.
    pub open spec fn leads_to(
        self,
        event: SupervisedEvent,
        now: Instant,
        after: OutageRun,
        outcome: Result<(), OutageFault>,
    ) -> bool {
        match event {
            SupervisedEvent::Hint { generation, state, applied } => {
                &&& outcome is Ok
                &&& if generation == self.first {
                    &&& one_more(
                        after.record.hints@,
                        self.record.hints@,
                        noted_hint(state@, applied),
                    )
                    &&& after == OutageRun {
                        record: OutageRecord { hints: after.record.hints, ..self.record },
                        ..self
                    }
                } else {
                    after == self
                }
            },
            SupervisedEvent::Closed { generation } => if generation != self.first {
                outcome is Ok && after == self
            } else {
                match self.phase {
                    OutagePhase::Outage { started } => {
                        &&& outcome is Ok
                        &&& after == OutageRun {
                            lost_at: Some(now),
                            record: OutageRecord {
                                lost_after: Some(elapsed(started, now)),
                                ..self.record
                            },
                            ..self
                        }
                    },
                    _ => outcome == Err::<(), OutageFault>(OutageFault::ClosedOutside(self.phase))
                        && after == self,
                }
            },
            SupervisedEvent::Failed { status, message } => if status
                == ClientEndpointStatus::Attention {
                &&& outcome matches Err(OutageFault::GaveUp(words)) && words@ == message@
                &&& after == self
            } else {
                &&& outcome is Ok
                &&& match self.lost_at {
                    Some(lost_at) => {
                        &&& after.record.failed_attempts@ == self.record.failed_attempts@.push(
                            elapsed(lost_at, now),
                        )
                        &&& after == OutageRun {
                            record: OutageRecord {
                                failed_attempts: after.record.failed_attempts,
                                ..self.record
                            },
                            ..self
                        }
                    },
                    None => after == self,
                }
            },
            SupervisedEvent::Connected { .. } => match self.phase {
                OutagePhase::Restored { at } => {
                    &&& outcome is Ok
                    &&& after == OutageRun {
                        phase: OutagePhase::Done,
                        record: OutageRecord {
                            restore_to_connected: Some(elapsed(at, now)),
                            ..self.record
                        },
                        ..self
                    }
                },
                _ => outcome == Err::<(), OutageFault>(OutageFault::ConnectedDuring(self.phase))
                    && after == self,
            },
        }
    }

    /// Books what happened to the endpoint.
    pub fn event(&mut self, event: SupervisedEvent, now: Instant) -> (outcome: Result<
        (),
        OutageFault,
    >)
        requires
            old(self).wf(),
        ensures
            final(self).wf(),
            old(self).leads_to(event, now, *final(self), outcome),
    {
        match event {
            SupervisedEvent::Hint { generation, state, applied } => {
                if generation == self.first {
                    let mut noted = state;
                    if applied {
                        noted.append(" (applied)");
                    }
                    let ghost before = self.record.hints@;
                    self.record.hints.push(noted);
                    assert(self.record.hints@.take(before.len() as int) =~= before);
                }
            },
            SupervisedEvent::Closed { generation } => {
                if generation == self.first {
                    match self.phase {
                        OutagePhase::Outage { started } => {
                            self.lost_at = Some(now);
                            self.record.lost_after = Some(now.saturating_duration_since(started));
                        },
                        phase => {
                            return Err(OutageFault::ClosedOutside(phase));
                        },
                    }
                }
            },
            SupervisedEvent::Failed { status, message } => {
                if status == ClientEndpointStatus::Attention {
                    return Err(OutageFault::GaveUp(message));
                }
                if let Some(lost_at) = self.lost_at {
                    self.record.failed_attempts.push(now.saturating_duration_since(lost_at));
                }
            },
            SupervisedEvent::Connected { .. } => match self.phase {
                OutagePhase::Restored { at } => {
                    self.record.restore_to_connected = Some(now.saturating_duration_since(at));
                    self.phase = OutagePhase::Done;
                },
                phase => {
                    return Err(OutageFault::ConnectedDuring(phase));
                },
            },
        }
        Ok(())
    }
}

/// What the scenario was to show and did not.
#[derive(Clone, Copy, Debug, PartialEq, Eq, Structural)]
pub enum OutageShortfall {
    /// The bridge never gave the connection up during the outage.
    NeverLost,
    /// The client never reconnected after the relay reopened.
    NeverReconnected,
}

impl OutageRecord {
    pub fn shortfall(&self) -> (shortfall: Option<OutageShortfall>)
        ensures
            shortfall == if self.lost_after is None {
                Some(OutageShortfall::NeverLost)
            } else if self.restore_to_connected is None {
                Some(OutageShortfall::NeverReconnected)
            } else {
                None
            },
    {
        if self.lost_after.is_none() {
            Some(OutageShortfall::NeverLost)
        } else if self.restore_to_connected.is_none() {
            Some(OutageShortfall::NeverReconnected)
        } else {
            None
        }
    }
}

/// How far a phase is from the start.
pub open spec fn phase_rank(phase: OutagePhase) -> int {
    match phase {
        OutagePhase::Live { .. } => 0,
        OutagePhase::Outage { .. } => 1,
        OutagePhase::Restored { .. } => 2,
        OutagePhase::Done => 3,
    }
}

/// The clock moves the scenario at most one phase on, never back and never to
/// its end: the relay closes no sooner than the settling time after the
/// connection, and reopens no sooner than the outage's length after it closed.
pub proof fn law_relay_follows_the_clock(run: OutageRun, now: Instant)
    ensures
        phase_rank(run.phase) <= phase_rank(run.phase_at(now)) <= phase_rank(run.phase) + 1,
        run.phase_at(now) is Done ==> run.phase is Done,
        run.phase is Live && run.phase_at(now) != run.phase ==> run.phase_at(now) == (
        OutagePhase::Outage { started: now }) && lies_after(
            now,
            run.phase->since,
            millis(SETTLE_MS as int),
        ),
        run.phase is Outage && run.phase_at(now) != run.phase ==> run.phase_at(now) == (
        OutagePhase::Restored { at: now }) && lies_after(
            now,
            run.phase->started,
            run.record.outage.nanos as int,
        ),
{
}

/// Only a connection made after the relay reopened ends the scenario, and its
/// time is measured from the reopening. No other event moves it on.
pub proof fn law_only_a_reconnect_ends_the_outage(
    run: OutageRun,
    event: SupervisedEvent,
    now: Instant,
    after: OutageRun,
    outcome: Result<(), OutageFault>,
)
    requires
        run.leads_to(event, now, after, outcome),
        after.phase != run.phase,
    ensures
        event is Connected,
        run.phase matches OutagePhase::Restored { at } && after.phase is Done
            && after.record.restore_to_connected == Some(elapsed(at, now)),
{
}

/// An event that fails the scenario books nothing.
pub proof fn law_faults_book_nothing(
    run: OutageRun,
    event: SupervisedEvent,
    now: Instant,
    after: OutageRun,
    outcome: Result<(), OutageFault>,
)
    requires
        run.leads_to(event, now, after, outcome),
        outcome is Err,
    ensures
        after == run,
{
}

/// Once lost, a connection stays booked as lost, hints and failed attempts only
/// grow, and what was asked for never changes.
pub proof fn law_books_only_grow(
    run: OutageRun,
    event: SupervisedEvent,
    now: Instant,
    after: OutageRun,
    outcome: Result<(), OutageFault>,
)
    requires
        run.leads_to(event, now, after, outcome),
    ensures
        after.first == run.first,
        after.deadline == run.deadline,
        after.record.outage == run.record.outage,
        run.record.lost_after is Some ==> after.record.lost_after is Some,
        run.record.hints@.is_prefix_of(after.record.hints@),
        run.record.failed_attempts@.is_prefix_of(after.record.failed_attempts@),
{
    assert(run.record.hints@.take(run.record.hints@.len() as int) =~= run.record.hints@);
    assert(run.record.failed_attempts@.is_prefix_of(run.record.failed_attempts@));
    if after.record.hints@ != run.record.hints@ {
        assert(after.record.hints@.take(run.record.hints@.len() as int) == run.record.hints@);
    }
}

} // verus!
