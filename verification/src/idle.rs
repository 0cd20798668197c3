//! Holding a connection idle: the thin client's health pings and what an idle
//! connection costs.
use crate::clock::{elapsed, seconds, Duration, Instant};
use crate::relay::PacketCount;
use crate::supervised::SupervisedEvent;
use vstd::prelude::*;

verus! {

/// How long a connection is held idle unless the caller asks for another time.
pub const DEFAULT_IDLE_SECONDS: u64 = 60;

/// A ping goes out this long after the last message received.
pub const HEARTBEAT_INTERVAL_SECS: u64 = 5;

/// Frames the server paints on attach are not a measurement.
pub const SETTLE_MS: u64 = 1500;

/// How long the last pong may take to land before the pongs are counted.
pub const LAST_PONG_MS: u64 = 500;

/// How long the first connection may take.
pub const CONNECT_TIMEOUT_SECS: u64 = 30;

/// The thin client's health pings, one outstanding at a time.
#[derive(Clone, Copy, Debug, PartialEq, Eq, Structural)]
pub struct HealthPings {
    /// When the outstanding ping was sent.
    pub sent_at: Option<Instant>,
    pub count: u64,
}

impl HealthPings {
    /// Whether a ping is still unanswered by anything received since.
    pub open spec fn outstanding(self, last_received: Instant) -> bool {
        self.sent_at matches Some(at) && last_received.nanos <= at.nanos
    }

    /// Whether the connection has been silent for long enough to ask after it.
    pub open spec fn due(self, last_received: Instant, now: Instant) -> bool {
        !self.outstanding(last_received) && elapsed(last_received, now).nanos >= seconds(
            HEARTBEAT_INTERVAL_SECS as int,
        )
    }

    pub fn new() -> (pings: HealthPings)
        ensures
            pings.sent_at is None,
            pings.count == 0,
    {
        HealthPings { sent_at: None, count: 0 }
    }

    /// Whether to ping now. Anything received after a ping answers it.
    pub fn poll(&mut self, last_received: Instant, now: Instant) -> (due: bool)
        ensures
            due == old(self).due(last_received, now),
            final(self).count == old(self).count,
            final(self).sent_at == if old(self).outstanding(last_received) {
                old(self).sent_at
            } else {
                None
            },
    {
        if let Some(at) = self.sent_at {
            if last_received.nanos > at.nanos {
                self.sent_at = None;
            }
        }
        self.sent_at.is_none() && now.saturating_duration_since(last_received).nanos
            >= Duration::from_secs(HEARTBEAT_INTERVAL_SECS).nanos
    }

    /// A ping was sent.
    pub fn sent(&mut self, now: Instant)
        requires
            old(self).count < u64::MAX,
        ensures
            final(self).sent_at == Some(now),
            final(self).count == old(self).count + 1,
    {
        self.sent_at = Some(now);
        self.count = self.count + 1;
    }
}

/// While a ping is outstanding no other is sent, however long the silence.
pub proof fn law_one_ping_outstanding(pings: HealthPings, last_received: Instant, now: Instant)
    requires
        pings.outstanding(last_received),
    ensures
        !pings.due(last_received, now),
{
}

/// Why an idle hold failed.
#[derive(Clone, Copy, Debug, PartialEq, Eq, Structural)]
pub enum IdleFault {
    /// The idle connection closed.
    Closed,
    /// A second connection was made.
    SecondConnection,
}

/// What to do next while the connection is held.
#[derive(Clone, Copy, Debug, PartialEq, Eq, Structural)]
pub enum IdleAction {
    Wait,
    Ping,
    Fail(IdleFault),
}

/// What is wrong with the event for a connection of `generation` held idle.
pub open spec fn fault_of(event: SupervisedEvent, generation: u64) -> Option<IdleFault> {
    match event {
        SupervisedEvent::Closed { generation: closed } => if closed == generation {
            Some(IdleFault::Closed)
        } else {
            None
        },
        SupervisedEvent::Connected { .. } => Some(IdleFault::SecondConnection),
        _ => None,
    }
}

/// The first thing wrong among the events.
pub open spec fn first_fault(events: Seq<SupervisedEvent>, generation: u64) -> Option<IdleFault>
    decreases events.len(),
{
    if events.len() == 0 {
        None
    } else if first_fault(events.drop_last(), generation) is Some {
        first_fault(events.drop_last(), generation)
    } else {
        fault_of(events.last(), generation)
    }
}

/// A connection held idle, from `started` on.
#[derive(Clone, Copy, Debug, PartialEq, Eq, Structural)]
pub struct IdleHold {
    pub generation: u64,
    pub held: Duration,
    pub started: Instant,
    pub pings: HealthPings,
    /// What the relay had seen and how many pongs had come when it started.
    pub packets_before: PacketCount,
    pub pongs_before: u64,
}

/// What an idle connection cost.
#[derive(Clone, Copy, Debug, PartialEq, Eq, Structural)]
pub struct IdleRecord {
    pub held: Duration,
    pub packets: PacketCount,
    pub client_pings: u64,
    pub pongs: u64,
}

impl IdleHold {
    pub fn begin(
        generation: u64,
        held: Duration,
        now: Instant,
        packets: PacketCount,
        pongs: u64,
    ) -> (hold: IdleHold)
        ensures
            hold.generation == generation,
            hold.held == held,
            hold.started == now,
            hold.pings == (HealthPings { sent_at: None, count: 0 }),
            hold.packets_before == packets,
            hold.pongs_before == pongs,
    {
        IdleHold {
            generation,
            held,
            started: now,
            pings: HealthPings::new(),
            packets_before: packets,
            pongs_before: pongs,
        }
    }

    /// Whether the connection is still to be held.
    pub fn holding(&self, now: Instant) -> (holding: bool)
        ensures
            holding == (elapsed(self.started, now).nanos < self.held.nanos),
    {
        now.saturating_duration_since(self.started).nanos < self.held.nanos
    }

    /// The hold after a tick, and what it asks for: a fault leaves everything as
    /// it is, and anything received since the outstanding ping answers it.
    pub open spec fn ticked(
        self,
        events: Seq<SupervisedEvent>,
        last_received: Instant,
        now: Instant,
    ) -> (IdleHold, IdleAction) {
        match first_fault(events, self.generation) {
            Some(fault) => (self, IdleAction::Fail(fault)),
            None => (
                IdleHold {
                    pings: HealthPings {
                        sent_at: if self.pings.outstanding(last_received) {
                            self.pings.sent_at
                        } else {
                            None
                        },
                        count: self.pings.count,
                    },
                    ..self
                },
                if self.pings.due(last_received, now) {
                    IdleAction::Ping
                } else {
                    IdleAction::Wait
                },
            ),
        }
    }

    /// The hold once the ping that was asked for is sent.
    pub open spec fn pinged(self, now: Instant) -> IdleHold {
        IdleHold {
            pings: HealthPings { sent_at: Some(now), count: (self.pings.count + 1) as u64 },
            ..self
        }
    }

    /// Takes in what a tick produced, then says whether to ping.
    pub fn tick(
        &mut self,
        events: &[SupervisedEvent],
        last_received: Instant,
        now: Instant,
    ) -> (action: IdleAction)
        ensures
            (*final(self), action) == old(self).ticked(events@, last_received, now),
    {
        let generation: u64 = self.generation;
        let mut index: usize = 0;
        assert(events@.take(0) =~= Seq::<SupervisedEvent>::empty());
        while index < events.len()
            invariant
                index <= events@.len(),
                generation == self.generation,
                *self == *old(self),
                first_fault(events@.take(index as int), generation) is None,
            decreases events@.len() - index,
        {
            proof {
                let longer = events@.take(index + 1);
                assert(longer.drop_last() =~= events@.take(index as int));
                assert(longer.last() == events@[index as int]);
            }
            match &events[index] {
                SupervisedEvent::Closed { generation: closed } => {
                    if *closed == generation {
                        proof {
                            lemma_fault_stands(events@, generation, index + 1);
                        }
                        return IdleAction::Fail(IdleFault::Closed);
                    }
                },
                SupervisedEvent::Connected { .. } => {
                    proof {
                        lemma_fault_stands(events@, generation, index + 1);
                    }
                    return IdleAction::Fail(IdleFault::SecondConnection);
                },
                _ => {},
            }
            index = index + 1;
        }
        assert(events@.take(index as int) =~= events@);
        if self.pings.poll(last_received, now) {
            IdleAction::Ping
        } else {
            IdleAction::Wait
        }
    }

    /// The ping that was asked for is sent.
    pub fn ping_sent(&mut self, now: Instant)
        requires
            old(self).pings.count < u64::MAX,
        ensures
            *final(self) == old(self).pinged(now),
    {
        self.pings.sent(now);
    }

    /// What the hold cost.
    pub fn finish(&self, now: Instant, packets: PacketCount, pongs: u64) -> (record: IdleRecord)
        requires
            self.pongs_before <= pongs,
        ensures
            record.held == elapsed(self.started, now),
            record.packets == packets.minus(self.packets_before),
            record.client_pings == self.pings.count,
            record.pongs == pongs - self.pongs_before,
    {
        IdleRecord {
            held: now.saturating_duration_since(self.started),
            packets: packets.since(self.packets_before),
            client_pings: self.pings.count,
            pongs: pongs - self.pongs_before,
        }
    }
}

/// A fault among the first events is the first one among all of them.
proof fn lemma_fault_stands(events: Seq<SupervisedEvent>, generation: u64, i: int)
    requires
        0 <= i <= events.len(),
        first_fault(events.take(i), generation) is Some,
    ensures
        first_fault(events, generation) == first_fault(events.take(i), generation),
    decreases events.len() - i,
{
    if i == events.len() {
        assert(events.take(i) =~= events);
    } else {
        assert(events.take(i + 1).drop_last() =~= events.take(i));
        lemma_fault_stands(events, generation, i + 1);
    }
}

/// What an idle connection fell short of.
#[derive(Clone, Copy, Debug, PartialEq, Eq, Structural)]
pub enum IdleShortfall {
    /// The idle hold sent no client ping.
    NoPing,
    /// Not every client ping was answered while idle.
    Unanswered,
}

impl IdleRecord {
    /// What is wrong with the record: every client ping must be answered, and
    /// there must be at least one.
    pub fn shortfall(&self) -> (shortfall: Option<IdleShortfall>)
        ensures
            shortfall == if self.client_pings == 0 {
                Some(IdleShortfall::NoPing)
            } else if self.pongs != self.client_pings {
                Some(IdleShortfall::Unanswered)
            } else {
                None
            },
    {
        if self.client_pings == 0 {
            Some(IdleShortfall::NoPing)
        } else if self.pongs != self.client_pings {
            Some(IdleShortfall::Unanswered)
        } else {
            None
        }
    }
}

/// One thing that happens to a connection held idle.
pub enum IdleStep {
    Tick { events: Seq<SupervisedEvent>, last_received: Instant, now: Instant },
    /// The ping that the tick before asked for is sent.
    Sent { now: Instant },
}

impl IdleStep {
    pub open spec fn time(self) -> Instant {
        match self {
            IdleStep::Tick { now, .. } => now,
            IdleStep::Sent { now } => now,
        }
    }

    /// Whether this is a tick that found something received after `at`.
    pub open spec fn received_after(self, at: Instant) -> bool {
        self matches IdleStep::Tick { last_received, .. } && last_received.nanos > at.nanos
    }
}

/// Whether the ticks of an idle hold, and the pings sent where a tick asked for
/// one, lead through `holds`.
pub open spec fn is_idle_run(holds: Seq<IdleHold>, steps: Seq<IdleStep>) -> bool {
    &&& holds.len() == steps.len() + 1
    &&& forall|i: int|
        0 <= i < steps.len() ==> match #[trigger] steps[i] {
            IdleStep::Tick { events, last_received, now } => holds[i + 1] == holds[i].ticked(
                events,
                last_received,
                now,
            ).0,
            IdleStep::Sent { now } => {
                &&& holds[i + 1] == holds[i].pinged(now)
                &&& i > 0 && asks_for_ping(holds[i - 1], steps[i - 1])
            },
        }
}

/// Whether the step is a tick that asks for a ping.
pub open spec fn asks_for_ping(hold: IdleHold, step: IdleStep) -> bool {
    step matches IdleStep::Tick { events, last_received, now } && hold.ticked(
        events,
        last_received,
        now,
    ).1 == IdleAction::Ping
}

/// Whether neither the time nor the time of the last message goes back.
pub open spec fn idle_time_goes_on(steps: Seq<IdleStep>) -> bool {
    &&& forall|i: int, j: int|
        0 <= i <= j < steps.len() ==> (#[trigger] steps[i]).time().nanos <= (
        #[trigger] steps[j]).time().nanos
    &&& forall|i: int, j: int|
        0 <= i <= j < steps.len() && steps[i] is Tick && steps[j] is Tick ==> (
        #[trigger] steps[i])->last_received.nanos <= (#[trigger] steps[j])->last_received.nanos
}

/// After a ping at step `i` the hold either waits for the answer to that ping or
/// a later one, or something was received since.
proof fn lemma_ping_is_remembered(holds: Seq<IdleHold>, steps: Seq<IdleStep>, i: int, m: int)
    requires
        is_idle_run(holds, steps),
        idle_time_goes_on(steps),
        0 <= i < m <= steps.len(),
        steps[i] is Sent,
    ensures
        match holds[m].pings.sent_at {
            Some(at) => at.nanos >= steps[i].time().nanos,
            None => exists|k: int| i < k < m && (#[trigger] steps[k]).received_after(
                steps[i].time(),
            ),
        },
    decreases m,
{
    if m == i + 1 {
        assert(holds[i + 1] == holds[i].pinged(steps[i].time()));
    } else {
        let sent = steps[i].time();
        lemma_ping_is_remembered(holds, steps, i, m - 1);
        match steps[m - 1] {
            IdleStep::Tick { events, last_received, now } => {
                if holds[m].pings.sent_at is None {
                    if holds[m - 1].pings.sent_at is Some {
                        assert(steps[m - 1].received_after(sent));
                    } else {
                        let k = choose|k: int|
                            i < k < m - 1 && (#[trigger] steps[k]).received_after(sent);
                        assert(steps[k].received_after(sent));
                    }
                }
            },
            IdleStep::Sent { now } => {
                assert(steps[i].time().nanos <= steps[m - 1].time().nanos);
            },
        }
    }
}

/// Any two pings of an idle hold are more than the heartbeat interval apart, and
/// something was received between them.
pub proof fn law_pings_are_spaced(holds: Seq<IdleHold>, steps: Seq<IdleStep>, i: int, j: int)
    requires
        is_idle_run(holds, steps),
        idle_time_goes_on(steps),
        0 <= i < j < steps.len(),
        steps[i] is Sent,
        steps[j] is Sent,
    ensures
        steps[j].time().nanos > steps[i].time().nanos + seconds(HEARTBEAT_INTERVAL_SECS as int),
        exists|k: int| i < k < j && (#[trigger] steps[k]).received_after(steps[i].time()),
{
    let sent = steps[i].time();
    let asking = steps[j - 1];
    assert(asks_for_ping(holds[j - 1], asking));
    assert(i < j - 1);
    lemma_ping_is_remembered(holds, steps, i, j - 1);
    if holds[j - 1].pings.sent_at is Some {
        assert(steps[j - 1].received_after(sent));
    } else {
        let k = choose|k: int| i < k < j - 1 && (#[trigger] steps[k]).received_after(sent);
        assert(steps[k]->last_received.nanos <= steps[j - 1]->last_received.nanos);
        assert(steps[k].received_after(sent));
    }
    assert(steps[j - 1].time().nanos <= steps[j].time().nanos);
}

} // verus!
