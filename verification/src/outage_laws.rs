//! What holds of a whole run of the outage scenario, from what the loop of the
//! supervised endpoint produces.
use crate::clock::{elapsed, Duration, Instant};
use crate::outage::{OutageFault, OutageRun};
use crate::profile::EndpointKey;
use crate::supervised::{
    after_all_told, after_reported, all_told, live_as, reported, told, with, EndpointReaderEvent,
    SupervisedEndpoint, SupervisedEvent, SupervisorReport,
};
use crate::supervisor::{after_spawn, due_keys, generation_after};
use crate::table::ReconnectState;
use vstd::prelude::*;

verus! {

/// One turn of the loop: what is due starts, then a tick takes in what the
/// readers had queued and what the supervisor reported.
pub struct LoopTurn {
    pub started: Instant,
    pub queued: Seq<EndpointReaderEvent>,
    pub read: Instant,
    pub report: Option<SupervisorReport>,
    pub at: Instant,
}

impl LoopTurn {
    /// The endpoints once what is due has started.
    pub open spec fn spawned(self, before: SupervisedEndpoint) -> Map<
        EndpointKey,
        ReconnectState,
    > {
        after_spawn(
            before.supervisors.endpoints.keys(),
            before.states(),
            self.started,
            before.supervisors.next_generation,
        )
    }

    /// The endpoints once the readers' reports were taken in, too.
    pub open spec fn collected(self, before: SupervisedEndpoint) -> Map<
        EndpointKey,
        ReconnectState,
    > {
        after_all_told(self.spawned(before), before.endpoint_id@, self.queued, self.read)
    }

    /// What the turn produces.
    pub open spec fn produced(self, before: SupervisedEndpoint) -> Seq<SupervisedEvent> {
        with(
            all_told(self.spawned(before), before.endpoint_id@, self.queued, self.read),
            reported(self.collected(before), before.endpoint_id@, self.report),
        )
    }

    /// Whether the turn leads to `after`.
    pub open spec fn leads_to(self, before: SupervisedEndpoint, after: SupervisedEndpoint) -> bool {
        &&& after.same_setup(&before)
        &&& after.states() == after_reported(
            self.collected(before),
            before.endpoint_id@,
            self.report,
            self.at,
        )
        &&& after.supervisors.next_generation == generation_after(
            before.supervisors.next_generation,
            due_keys(
                before.supervisors.endpoints.keys(),
                before.states(),
                self.started,
            ).len() as int,
        )
    }

    /// Whether the turn starts an attempt for the endpoint.
    pub open spec fn starts(self, before: SupervisedEndpoint) -> bool {
        before.states()[before.endpoint_id@].due(self.started)
    }
}

/// Whether the turns lead through `endpoints`.
pub open spec fn is_loop_run(endpoints: Seq<SupervisedEndpoint>, turns: Seq<LoopTurn>) -> bool {
    &&& endpoints.len() == turns.len() + 1
    &&& forall|i: int|
        0 <= i < turns.len() ==> (#[trigger] turns[i]).leads_to(endpoints[i], endpoints[i + 1])
}

/// All that the turns produce, in order.
pub open spec fn all_produced(
    endpoints: Seq<SupervisedEndpoint>,
    turns: Seq<LoopTurn>,
) -> Seq<SupervisedEvent>
    decreases turns.len(),
{
    if turns.len() == 0 {
        Seq::empty()
    } else {
        all_produced(endpoints.drop_last(), turns.drop_last()) + turns.last().produced(
            endpoints[turns.len() - 1],
        )
    }
}

/// All that the readers queued, in order.
pub open spec fn all_queued(turns: Seq<LoopTurn>) -> Seq<EndpointReaderEvent>
    decreases turns.len(),
{
    if turns.len() == 0 {
        Seq::empty()
    } else {
        all_queued(turns.drop_last()) + turns.last().queued
    }
}

/// Whether the supervisor reports only of attempts that were started.
pub open spec fn reports_follow_attempts(
    endpoints: Seq<SupervisedEndpoint>,
    turns: Seq<LoopTurn>,
) -> bool {
    forall|i: int|
        0 <= i < turns.len() && (#[trigger] turns[i]).report is Some ==> exists|j: int|
            0 <= j <= i && (#[trigger] turns[j]).starts(endpoints[j])
}

/// How often the events tell the end of the connection of this generation.
pub open spec fn ends(events: Seq<SupervisedEvent>, generation: u64) -> nat
    decreases events.len(),
{
    if events.len() == 0 {
        0
    } else {
        ends(events.drop_last(), generation) + if events.last() == (SupervisedEvent::Closed {
            generation,
        }) {
            1nat
        } else {
            0nat
        }
    }
}

/// How often the readers report the end of the connection of this generation.
pub open spec fn ends_queued(events: Seq<EndpointReaderEvent>, generation: u64) -> nat
    decreases events.len(),
{
    if events.len() == 0 {
        0
    } else {
        ends_queued(events.drop_last(), generation) + if events.last() == (
        EndpointReaderEvent::Closed { generation }) {
            1nat
        } else {
            0nat
        }
    }
}

/// Whether the end of the first connection is told at most once, and before any
/// connection is made.
pub open spec fn end_is_told_first(events: Seq<SupervisedEvent>, first: u64) -> bool {
    &&& ends(events, first) <= 1
    &&& forall|j: int|
        0 <= j < events.len() && (#[trigger] events[j]) is Connected ==> ends(
            events.take(j),
            first,
        ) >= 1
}

proof fn lemma_ends_concatenate(
    first: Seq<SupervisedEvent>,
    second: Seq<SupervisedEvent>,
    generation: u64,
)
    ensures
        ends(first + second, generation) == ends(first, generation) + ends(second, generation),
    decreases second.len(),
{
    if second.len() == 0 {
        assert(first + second =~= first);
    } else {
        lemma_ends_concatenate(first, second.drop_last(), generation);
        assert((first + second).drop_last() =~= first + second.drop_last());
    }
}

proof fn lemma_ends_queued_concatenate(
    first: Seq<EndpointReaderEvent>,
    second: Seq<EndpointReaderEvent>,
    generation: u64,
)
    ensures
        ends_queued(first + second, generation) == ends_queued(first, generation) + ends_queued(
            second,
            generation,
        ),
    decreases second.len(),
{
    if second.len() == 0 {
        assert(first + second =~= first);
    } else {
        lemma_ends_queued_concatenate(first, second.drop_last(), generation);
        assert((first + second).drop_last() =~= first + second.drop_last());
    }
}

/// What is told first of all events is told first of those before any point.
proof fn lemma_told_first_of_prefix(
    events: Seq<SupervisedEvent>,
    all: Seq<SupervisedEvent>,
    first: u64,
)
    requires
        end_is_told_first(all, first),
        events.is_prefix_of(all),
    ensures
        end_is_told_first(events, first),
{
    let rest = all.skip(events.len() as int);
    assert(all =~= events + rest);
    lemma_ends_concatenate(events, rest, first);
    assert forall|j: int| 0 <= j < events.len() && (#[trigger] events[j]) is Connected implies ends(
        events.take(j),
        first,
    ) >= 1 by {
        assert(all[j] is Connected);
        assert(all.take(j) =~= events.take(j));
    }
}

/// Readers tell no connections, and an end only where one was queued. A
/// connection whose end was not told stands as before.
proof fn lemma_readers(
    states: Map<EndpointKey, ReconnectState>,
    key: EndpointKey,
    queued: Seq<EndpointReaderEvent>,
    now: Instant,
    first: u64,
)
    ensures
        ({
            let events = all_told(states, key, queued, now);
            &&& ends(events, first) <= ends_queued(queued, first)
            &&& forall|j: int| 0 <= j < events.len() ==> !((#[trigger] events[j]) is Connected)
            &&& live_as(states, key, first) && ends(events, first) == 0 ==> live_as(
                after_all_told(states, key, queued, now),
                key,
                first,
            )
        }),
    decreases queued.len(),
{
    if queued.len() > 0 {
        let earlier = queued.drop_last();
        lemma_readers(states, key, earlier, now, first);
        let before = all_told(states, key, earlier, now);
        let events = all_told(states, key, queued, now);
        if let Some(event) = told(
            after_all_told(states, key, earlier, now),
            key,
            queued.last(),
        ) {
            assert(events.drop_last() =~= before);
        }
    }
}

/// What one turn does to a connection that stands: without a report its end is
/// all that can replace it.
proof fn lemma_turn(before: SupervisedEndpoint, turn: LoopTurn, first: u64)
    ensures
        ({
            let events = turn.produced(before);
            let key = before.endpoint_id@;
            &&& ends(events, first) <= ends_queued(turn.queued, first)
            &&& live_as(before.states(), key, first) ==> !turn.starts(before)
            &&& turn.report is None ==> forall|j: int|
                0 <= j < events.len() ==> !((#[trigger] events[j]) is Connected)
            &&& turn.report is None && live_as(before.states(), key, first) && ends(events, first)
                == 0 ==> live_as(turn.collected(before), key, first)
        }),
{
    let key = before.endpoint_id@;
    let spawned = turn.spawned(before);
    let heard = all_told(spawned, key, turn.queued, turn.read);
    lemma_readers(spawned, key, turn.queued, turn.read, first);
    if let Some(event) = reported(turn.collected(before), key, turn.report) {
        assert(turn.produced(before).drop_last() =~= heard);
    }
}

proof fn lemma_loop(endpoints: Seq<SupervisedEndpoint>, turns: Seq<LoopTurn>, first: u64)
    requires
        is_loop_run(endpoints, turns),
        live_as(endpoints[0].states(), endpoints[0].endpoint_id@, first),
        reports_follow_attempts(endpoints, turns),
    ensures
        ({
            let events = all_produced(endpoints, turns);
            &&& endpoints.last().endpoint_id == endpoints[0].endpoint_id
            &&& ends(events, first) <= ends_queued(all_queued(turns), first)
            &&& ends(events, first) == 0 ==> live_as(
                endpoints.last().states(),
                endpoints[0].endpoint_id@,
                first,
            ) && forall|j: int|
                0 <= j < turns.len() ==> !(#[trigger] turns[j]).starts(endpoints[j])
            &&& forall|j: int|
                0 <= j < events.len() && (#[trigger] events[j]) is Connected ==> ends(
                    events.take(j),
                    first,
                ) >= 1
        }),
    decreases turns.len(),
{
    if turns.len() > 0 {
        let last = turns.len() - 1;
        let turn = turns[last];
        let before = endpoints[last];
        let some = turns.drop_last();
        let through = endpoints.drop_last();
        assert forall|i: int| 0 <= i < some.len() implies (#[trigger] some[i]).leads_to(
            through[i],
            through[i + 1],
        ) by {
            assert(turns[i].leads_to(endpoints[i], endpoints[i + 1]));
        }
        assert forall|i: int| 0 <= i < some.len() && (#[trigger] some[i]).report is Some implies
            exists|j: int| 0 <= j <= i && (#[trigger] some[j]).starts(through[j]) by {
            assert(turns[i].report is Some);
            let j = choose|j: int| 0 <= j <= i && (#[trigger] turns[j]).starts(endpoints[j]);
            assert(some[j].starts(through[j]));
        }
        lemma_loop(through, some, first);
        assert(turn.leads_to(before, endpoints[last + 1]));
        let earlier = all_produced(through, some);
        let now = turn.produced(before);
        let events = all_produced(endpoints, turns);
        lemma_turn(before, turn, first);
        lemma_ends_concatenate(earlier, now, first);
        lemma_ends_queued_concatenate(all_queued(some), turn.queued, first);
        if ends(earlier, first) == 0 {
            assert(turn.report is None) by {
                if turn.report is Some {
                    let j = choose|j: int|
                        0 <= j <= last && (#[trigger] turns[j]).starts(endpoints[j]);
                    if j < last {
                        assert(some[j].starts(through[j]));
                    }
                }
            }
            assert forall|j: int| 0 <= j < turns.len() implies !(#[trigger] turns[j]).starts(
                endpoints[j],
            ) by {
                if j < last {
                    assert(!some[j].starts(through[j]));
                }
            }
        }
        assert forall|j: int| 0 <= j < events.len() && (#[trigger] events[j]) is Connected implies
            ends(events.take(j), first) >= 1 by {
            if j < earlier.len() {
                assert(earlier[j] is Connected);
                assert(events.take(j) =~= earlier.take(j));
            } else {
                assert(now[j - earlier.len()] is Connected);
                assert(events.take(j) =~= earlier + now.take(j - earlier.len()));
                lemma_ends_concatenate(earlier, now.take(j - earlier.len()), first);
            }
        }
    }
}

/// While a connection stands nothing is due, so the loop starts no attempt and
/// makes no other connection before it has told the end of that one. It tells it
/// at most once, if the connection's reader reports it at most once.
pub proof fn law_end_is_told_first(
    endpoints: Seq<SupervisedEndpoint>,
    turns: Seq<LoopTurn>,
    first: u64,
)
    requires
        is_loop_run(endpoints, turns),
        live_as(endpoints[0].states(), endpoints[0].endpoint_id@, first),
        reports_follow_attempts(endpoints, turns),
        ends_queued(all_queued(turns), first) <= 1,
    ensures
        end_is_told_first(all_produced(endpoints, turns), first),
{
    lemma_loop(endpoints, turns, first);
}

/// One thing that happens to a run of the scenario.
pub enum OutageStep {
    /// The clock is looked at.
    Clock(Instant),
    /// Something happened to the endpoint.
    Event(SupervisedEvent, Instant),
}

impl OutageStep {
    pub open spec fn time(self) -> Instant {
        match self {
            OutageStep::Clock(now) => now,
            OutageStep::Event(_, now) => now,
        }
    }
}

/// What happened to the endpoint, in order.
pub open spec fn events_of(steps: Seq<OutageStep>) -> Seq<SupervisedEvent>
    decreases steps.len(),
{
    if steps.len() == 0 {
        Seq::empty()
    } else {
        match steps.last() {
            OutageStep::Clock(_) => events_of(steps.drop_last()),
            OutageStep::Event(event, _) => events_of(steps.drop_last()).push(event),
        }
    }
}

impl OutageRun {
    /// Whether the step leads to `after` without failing the scenario.
    pub open spec fn takes(self, step: OutageStep, after: OutageRun) -> bool {
        match step {
            OutageStep::Clock(now) => {
                &&& now.nanos < self.deadline.nanos
                &&& after == OutageRun { phase: self.phase_at(now), ..self }
            },
            OutageStep::Event(event, now) => self.leads_to(
                event,
                now,
                after,
                Ok::<(), OutageFault>(()),
            ),
        }
    }

    /// Whether nothing has been booked yet.
    pub open spec fn is_fresh(self) -> bool {
        &&& self.phase is Live
        &&& self.lost_at is None
        &&& self.record.lost_after is None
        &&& self.record.failed_attempts@.len() == 0
        &&& self.record.restore_to_connected is None
    }
}

/// A run of the scenario from its first connection on, without a fault.
pub open spec fn is_outage_run(runs: Seq<OutageRun>, steps: Seq<OutageStep>) -> bool {
    &&& runs.len() == steps.len() + 1
    &&& runs[0].is_fresh()
    &&& forall|i: int|
        0 <= i < steps.len() ==> runs[i].takes(#[trigger] steps[i], runs[i + 1])
}

/// Whether time does not go back.
pub open spec fn time_goes_on(steps: Seq<OutageStep>) -> bool {
    forall|i: int, j: int|
        0 <= i <= j < steps.len() ==> (#[trigger] steps[i]).time().nanos <= (
        #[trigger] steps[j]).time().nanos
}

/// Whether no span is shorter than one before it.
pub open spec fn never_decrease(spans: Seq<Duration>) -> bool {
    forall|i: int, j: int|
        0 <= i <= j < spans.len() ==> (#[trigger] spans[i]).nanos <= (#[trigger] spans[j]).nanos
}

proof fn lemma_outage_books(runs: Seq<OutageRun>, steps: Seq<OutageStep>)
    requires
        is_outage_run(runs, steps),
        time_goes_on(steps),
        end_is_told_first(events_of(steps), runs[0].first),
    ensures
        ({
            let run = runs.last();
            &&& run.wf()
            &&& run.first == runs[0].first
            &&& run.lost_at is Some <==> ends(events_of(steps), run.first) >= 1
            &&& run.lost_at matches Some(lost_at) ==> steps.len() > 0 && lost_at.nanos
                <= steps.last().time().nanos
            &&& run.phase is Done ==> run.lost_at is Some
            &&& never_decrease(run.record.failed_attempts@)
            &&& run.record.failed_attempts@.len() > 0 ==> run.lost_at is Some
                && run.record.failed_attempts@.last().nanos <= elapsed(
                run.lost_at->0,
                steps.last().time(),
            ).nanos
        }),
    decreases steps.len(),
{
    if steps.len() > 0 {
        let last = steps.len() - 1;
        let before = runs[last];
        let step = steps[last];
        let fewer = steps.drop_last();
        let through = runs.drop_last();
        let events = events_of(steps);
        let earlier = events_of(fewer);
        assert forall|i: int| 0 <= i < fewer.len() implies through[i].takes(
            #[trigger] fewer[i],
            through[i + 1],
        ) by {
            assert(runs[i].takes(steps[i], runs[i + 1]));
        }
        assert forall|i: int, j: int| 0 <= i <= j < fewer.len() implies (
        #[trigger] fewer[i]).time().nanos <= (#[trigger] fewer[j]).time().nanos by {
            assert(steps[i].time().nanos <= steps[j].time().nanos);
        }
        lemma_told_first_of_prefix(earlier, events, runs[0].first);
        lemma_outage_books(through, fewer);
        assert(before.takes(step, runs[last + 1]));
        if last > 0 {
            assert(steps[last - 1].time().nanos <= steps[last].time().nanos);
        }
        if let OutageStep::Event(event, now) = step {
            assert(events.drop_last() =~= earlier);
            if event is Connected {
                assert(events[earlier.len() as int] is Connected);
                assert(events.take(earlier.len() as int) =~= earlier);
            }
        }
    }
}

/// An outage under a connection that stands, with every event that the loop
/// produces booked in order and no time going back: a scenario that comes to its
/// end has booked the loss and the way back, so nothing is missing from its
/// record; and the failed attempts are booked in the order of time. Of the
/// outside it asks that the supervisor reports only of attempts that were
/// started, and that the connection's reader reports its end at most once.
pub proof fn law_outage_books_the_loss(
    endpoints: Seq<SupervisedEndpoint>,
    turns: Seq<LoopTurn>,
    runs: Seq<OutageRun>,
    steps: Seq<OutageStep>,
)
    requires
        is_loop_run(endpoints, turns),
        is_outage_run(runs, steps),
        live_as(endpoints[0].states(), endpoints[0].endpoint_id@, runs[0].first),
        reports_follow_attempts(endpoints, turns),
        ends_queued(all_queued(turns), runs[0].first) <= 1,
        events_of(steps).is_prefix_of(all_produced(endpoints, turns)),
        time_goes_on(steps),
    ensures
        runs.last().phase is Done ==> runs.last().record.lost_after is Some
            && runs.last().record.restore_to_connected is Some,
        never_decrease(runs.last().record.failed_attempts@),
{
    law_end_is_told_first(endpoints, turns, runs[0].first);
    lemma_told_first_of_prefix(
        events_of(steps),
        all_produced(endpoints, turns),
        runs[0].first,
    );
    lemma_outage_books(runs, steps);
}

} // verus!
