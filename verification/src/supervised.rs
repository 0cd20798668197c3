//! One supervised endpoint at a bridge's socket: what the thin client's loop
//! does with the frames it reads and the reports it gets.
use crate::clock::{millis, Instant};
use crate::connect::{ClientSurfaceSize, EndpointConnectOptions, StatusReport};
use crate::profile::{ClientEndpointId, ClientEndpointStatus, EndpointKey, SavedSshEndpoint};
use crate::supervisor::{
    after_hint, after_report, after_spawn, is_current, joined, retries, EndpointSupervisors,
    MAX_RETRY_DELAY_MS,
};
use crate::table::ReconnectState;
use crate::text::same_text;
use std::path::PathBuf;
use vstd::prelude::*;

verus! {

pub const CLIENT_COLS: u16 = 100;

pub const CLIENT_ROWS: u16 = 30;

pub const CELL_WIDTH_PX: u32 = 8;

pub const CELL_HEIGHT_PX: u32 = 16;

/// The thin client's loop tick, which bounds how late its health ping goes.
pub const CLIENT_LOOP_TICK_MS: u64 = 100;

/// The transport status with which a bridge says that the connection it closes
/// can be dialed again quickly.
pub open spec fn fast_reconnect_hint() -> Seq<char> {
    "reconnect-fast"@
}

/// What the thin client's loop does with a transport status hint: only the
/// reconnect hint reaches the supervisor. The result says whether it did and was
/// accepted.
pub fn apply_transport_hint(
    supervisors: &mut EndpointSupervisors,
    endpoint_id: &ClientEndpointId,
    generation: u64,
    state: &str,
) -> (applied: bool)
    requires
        old(supervisors).wf(),
    ensures
        final(supervisors).wf(),
        final(supervisors).endpoints.keys() == old(supervisors).endpoints.keys(),
        final(supervisors).next_generation == old(supervisors).next_generation,
        applied == (state@ == fast_reconnect_hint() && is_current(
            old(supervisors).endpoints@,
            endpoint_id@,
            generation,
        )),
        final(supervisors).endpoints@ == if state@ == fast_reconnect_hint() {
            after_hint(old(supervisors).endpoints@, endpoint_id@, generation)
        } else {
            old(supervisors).endpoints@
        },
{
    same_text(state, "reconnect-fast") && supervisors.expect_fast_reconnect(
        endpoint_id,
        generation,
    )
}

/// The kinds of control message that the two sides agree on.
pub struct ControlKinds {
    pub health_pong: String,
    pub transport_status: String,
}

/// What a control message is about.
#[derive(Clone, Copy, Debug, PartialEq, Eq, Structural)]
pub enum ControlKind {
    Pong,
    TransportStatus,
    Other,
}

impl ControlKinds {
    pub fn classify(&self, kind: &str) -> (control: ControlKind)
        ensures
            control == if kind@ == self.health_pong@ {
                ControlKind::Pong
            } else if kind@ == self.transport_status@ {
                ControlKind::TransportStatus
            } else {
                ControlKind::Other
            },
    {
        if same_text(kind, self.health_pong.as_str()) {
            ControlKind::Pong
        } else if same_text(kind, self.transport_status.as_str()) {
            ControlKind::TransportStatus
        } else {
            ControlKind::Other
        }
    }
}

/// What one read from an endpoint brought.
pub enum Received {
    Pong,
    /// A transport status, and the state it names if it could be parsed.
    TransportStatus(Option<String>),
    /// Any other message.
    Message,
    /// The stream ended.
    End,
}

/// What a connection's reader tells the loop.
pub enum EndpointReaderEvent {
    TransportStatus { generation: u64, state: String },
    Closed { generation: u64 },
}

/// What a connection's reader keeps books of.
#[derive(Clone, Copy, Debug, PartialEq, Eq, Structural)]
pub struct ConnectionLedger {
    pub generation: u64,
    pub last_received: Instant,
    pub pongs: u64,
}

impl ConnectionLedger {
    pub fn new(generation: u64, now: Instant) -> (ledger: ConnectionLedger)
        ensures
            ledger.generation == generation,
            ledger.last_received == now,
            ledger.pongs == 0,
    {
        ConnectionLedger { generation, last_received: now, pongs: 0 }
    }

    /// Books what was read. Any message is a sign of life; pongs are counted;
    /// transport hints that could be parsed and the end of the stream are told.
    pub fn received(&mut self, received: Received, now: Instant) -> (told: Option<
        EndpointReaderEvent,
    >)
        ensures
            *final(self) == (ConnectionLedger {
                generation: old(self).generation,
                last_received: if received is End {
                    old(self).last_received
                } else {
                    now
                },
                pongs: if received is Pong {
                    old(self).pongs.wrapping_add(1)
                } else {
                    old(self).pongs
                },
            }),
            match received {
                Received::TransportStatus(Some(named)) => told matches Some(
                    EndpointReaderEvent::TransportStatus { generation, state },
                ) && generation == old(self).generation && state@ == named@,
                Received::End => told == Some(
                    EndpointReaderEvent::Closed { generation: old(self).generation },
                ),
                _ => told is None,
            },
    {
        let generation: u64 = self.generation;
        match received {
            Received::End => Some(EndpointReaderEvent::Closed { generation }),
            Received::Pong => {
                self.last_received = now;
                self.pongs = self.pongs.wrapping_add(1);
                None
            },
            Received::TransportStatus(named) => {
                self.last_received = now;
                match named {
                    Some(state) => Some(EndpointReaderEvent::TransportStatus { generation, state }),
                    None => None,
                }
            },
            Received::Message => {
                self.last_received = now;
                None
            },
        }
    }
}

/// What a supervised endpoint went through.
pub enum SupervisedEvent {
    Connected { generation: u64 },
    Failed { status: ClientEndpointStatus, message: String },
    Hint { generation: u64, state: String, applied: bool },
    Closed { generation: u64 },
}

/// The thin client's supervisor driving one local endpoint at a bridge's socket.
pub struct SupervisedEndpoint {
    pub started: Instant,
    pub endpoint_id: ClientEndpointId,
    pub options: EndpointConnectOptions,
    pub supervisors: EndpointSupervisors,
}

/// What the endpoint asks for when it connects.
pub open spec fn bench_options() -> EndpointConnectOptions {
    EndpointConnectOptions {
        cols: CLIENT_COLS,
        rows: CLIENT_ROWS,
        cell_width_px: CELL_WIDTH_PX,
        cell_height_px: CELL_HEIGHT_PX,
        pixel_geometry_exact: false,
        surface_size: ClientSurfaceSize { cols: CLIENT_COLS, rows: CLIENT_ROWS },
        endpoint_keybindings: false,
        mouse_capture: false,
    }
}

/// What the loop makes of a reader's report about the endpoint `key`.
pub open spec fn told(
    states: Map<EndpointKey, ReconnectState>,
    key: EndpointKey,
    event: EndpointReaderEvent,
) -> Option<SupervisedEvent> {
    match event {
        EndpointReaderEvent::TransportStatus { generation, state } => {
            let applied = state@ == fast_reconnect_hint() && is_current(states, key, generation);
            Some(SupervisedEvent::Hint { generation, state, applied })
        },
        EndpointReaderEvent::Closed { generation } => if is_current(states, key, generation) {
            Some(SupervisedEvent::Closed { generation })
        } else {
            None
        },
    }
}

/// The endpoints after a reader's report.
pub open spec fn after_told(
    states: Map<EndpointKey, ReconnectState>,
    key: EndpointKey,
    event: EndpointReaderEvent,
    now: Instant,
) -> Map<EndpointKey, ReconnectState> {
    match event {
        EndpointReaderEvent::TransportStatus { generation, state } => if state@
            == fast_reconnect_hint() {
            after_hint(states, key, generation)
        } else {
            states
        },
        EndpointReaderEvent::Closed { generation } => after_report(
            states,
            key,
            generation,
            ClientEndpointStatus::Reconnecting,
            now,
        ),
    }
}

/// The endpoints after the readers' reports, one after another.
pub open spec fn after_all_told(
    states: Map<EndpointKey, ReconnectState>,
    key: EndpointKey,
    events: Seq<EndpointReaderEvent>,
    now: Instant,
) -> Map<EndpointKey, ReconnectState>
    decreases events.len(),
{
    if events.len() == 0 {
        states
    } else {
        after_told(after_all_told(states, key, events.drop_last(), now), key, events.last(), now)
    }
}

/// A sequence with one more item, if there is one.
pub open spec fn with(events: Seq<SupervisedEvent>, more: Option<SupervisedEvent>) -> Seq<
    SupervisedEvent,
> {
    match more {
        Some(event) => events.push(event),
        None => events,
    }
}

/// What the loop makes of the readers' reports, in their order: each is judged by
/// the endpoints as the ones before it left them.
pub open spec fn all_told(
    states: Map<EndpointKey, ReconnectState>,
    key: EndpointKey,
    events: Seq<EndpointReaderEvent>,
    now: Instant,
) -> Seq<SupervisedEvent>
    decreases events.len(),
{
    if events.len() == 0 {
        Seq::empty()
    } else {
        let earlier = events.drop_last();
        with(
            all_told(states, key, earlier, now),
            told(after_all_told(states, key, earlier, now), key, events.last()),
        )
    }
}

/// What an attempt reports to the loop.
pub enum SupervisorReport {
    /// It handed over a connection.
    Connected { generation: u64 },
    /// It brought none.
    Ended(StatusReport),
}

/// What the loop makes of the supervisor's report.
pub open spec fn reported(
    states: Map<EndpointKey, ReconnectState>,
    key: EndpointKey,
    report: Option<SupervisorReport>,
) -> Option<SupervisedEvent> {
    match report {
        Some(SupervisorReport::Connected { generation }) => Some(
            SupervisedEvent::Connected { generation },
        ),
        Some(SupervisorReport::Ended(ended)) => if is_current(states, key, ended.generation) {
            Some(SupervisedEvent::Failed { status: ended.status, message: ended.message })
        } else {
            None
        },
        None => None,
    }
}

/// The endpoints after the supervisor's report.
pub open spec fn after_reported(
    states: Map<EndpointKey, ReconnectState>,
    key: EndpointKey,
    report: Option<SupervisorReport>,
    now: Instant,
) -> Map<EndpointKey, ReconnectState> {
    match report {
        Some(SupervisorReport::Connected { generation }) => after_report(
            states,
            key,
            generation,
            ClientEndpointStatus::Online,
            now,
        ),
        Some(SupervisorReport::Ended(ended)) => after_report(
            states,
            key,
            ended.generation,
            ended.status,
            now,
        ),
        None => states,
    }
}

/// Whether the report leads to another attempt.
pub open spec fn asks_for_retry(report: Option<SupervisorReport>) -> bool {
    report matches Some(SupervisorReport::Ended(ended)) && retries(ended.status)
}

impl SupervisedEndpoint {
    pub open spec fn wf(&self) -> bool {
        self.supervisors.wf()
    }

    /// The endpoints under supervision.
    pub open spec fn states(&self) -> Map<EndpointKey, ReconnectState> {
        self.supervisors.endpoints@
    }

    /// Everything but the states of the endpoints is as it was.
    pub open spec fn same_setup(&self, other: &SupervisedEndpoint) -> bool {
        &&& self.started == other.started
        &&& self.endpoint_id == other.endpoint_id
        &&& self.options == other.options
        &&& self.supervisors.endpoints.keys() == other.supervisors.endpoints.keys()
    }

    /// Supervises the local endpoint at `socket`, which is due at once.
    pub fn new(socket: PathBuf, now: Instant) -> (endpoint: SupervisedEndpoint)
        ensures
            endpoint.wf(),
            endpoint.started == now,
            endpoint.endpoint_id == ClientEndpointId::Local,
            endpoint.options == bench_options(),
            endpoint.supervisors.next_generation == 2,
            endpoint.states() == Map::<EndpointKey, ReconnectState>::empty().insert(
                EndpointKey::Local,
                joined(socket, None, now),
            ),
    {
        let machines: Vec<SavedSshEndpoint> = Vec::new();
        let mut supervisors = EndpointSupervisors::new(machines.as_slice(), now);
        supervisors.add_local(socket, None, now);
        SupervisedEndpoint {
            started: now,
            endpoint_id: ClientEndpointId::Local,
            options: EndpointConnectOptions {
                cols: CLIENT_COLS,
                rows: CLIENT_ROWS,
                cell_width_px: CELL_WIDTH_PX,
                cell_height_px: CELL_HEIGHT_PX,
                pixel_geometry_exact: false,
                surface_size: ClientSurfaceSize { cols: CLIENT_COLS, rows: CLIENT_ROWS },
                endpoint_keybindings: false,
                mouse_capture: false,
            },
            supervisors,
        }
    }

    /// Takes in what a connection's reader told. A hint is passed on with
    /// whether it was applied; the end of a connection only if it is the current
    /// one.
    pub fn reader_event(&mut self, event: EndpointReaderEvent, now: Instant) -> (produced: Option<
        SupervisedEvent,
    >)
        requires
            old(self).wf(),
            event is Closed ==> now.reaches(millis(MAX_RETRY_DELAY_MS as int)),
        ensures
            final(self).wf(),
            final(self).same_setup(old(self)),
            final(self).supervisors.next_generation == old(self).supervisors.next_generation,
            produced == told(old(self).states(), old(self).endpoint_id@, event),
            final(self).states() == after_told(
                old(self).states(),
                old(self).endpoint_id@,
                event,
                now,
            ),
    {
        match event {
            EndpointReaderEvent::TransportStatus { generation, state } => {
                let applied = apply_transport_hint(
                    &mut self.supervisors,
                    &self.endpoint_id,
                    generation,
                    state.as_str(),
                );
                Some(SupervisedEvent::Hint { generation, state, applied })
            },
            EndpointReaderEvent::Closed { generation } => {
                if self.supervisors.disconnected(&self.endpoint_id, generation, now) {
                    Some(SupervisedEvent::Closed { generation })
                } else {
                    None
                }
            },
        }
    }

    /// Takes in a connection that an attempt handed over.
    pub fn connected(&mut self, generation: u64, now: Instant) -> (produced: SupervisedEvent)
        requires
            old(self).wf(),
        ensures
            final(self).wf(),
            final(self).same_setup(old(self)),
            final(self).supervisors.next_generation == old(self).supervisors.next_generation,
            produced == (SupervisedEvent::Connected { generation }),
            final(self).states() == after_report(
                old(self).states(),
                old(self).endpoint_id@,
                generation,
                ClientEndpointStatus::Online,
                now,
            ),
    {
        let _ = self.supervisors.record_status(
            &self.endpoint_id,
            generation,
            ClientEndpointStatus::Online,
            now,
        );
        SupervisedEvent::Connected { generation }
    }

    /// Takes in the report of an attempt that brought no connection. It counts,
    /// and is passed on, only if it is of the current attempt.
    pub fn attempt_ended(&mut self, report: StatusReport, now: Instant) -> (produced: Option<
        SupervisedEvent,
    >)
        requires
            old(self).wf(),
            retries(report.status) ==> now.reaches(millis(MAX_RETRY_DELAY_MS as int)),
        ensures
            final(self).wf(),
            final(self).same_setup(old(self)),
            final(self).supervisors.next_generation == old(self).supervisors.next_generation,
            produced == if is_current(
                old(self).states(),
                old(self).endpoint_id@,
                report.generation,
            ) {
                Some(SupervisedEvent::Failed { status: report.status, message: report.message })
            } else {
                None
            },
            final(self).states() == after_report(
                old(self).states(),
                old(self).endpoint_id@,
                report.generation,
                report.status,
                now,
            ),
    {
        if self.supervisors.record_status(
            &self.endpoint_id,
            report.generation,
            report.status,
            now,
        ) {
            Some(SupervisedEvent::Failed { status: report.status, message: report.message })
        } else {
            None
        }
    }
}

impl SupervisedEndpoint {
    /// Takes in what the readers told, one report after another.
    pub fn reader_events(&mut self, events: Vec<EndpointReaderEvent>, now: Instant) -> (produced:
        Vec<SupervisedEvent>)
        requires
            old(self).wf(),
            now.reaches(millis(MAX_RETRY_DELAY_MS as int)),
        ensures
            final(self).wf(),
            final(self).same_setup(old(self)),
            final(self).supervisors.next_generation == old(self).supervisors.next_generation,
            produced@ == all_told(old(self).states(), old(self).endpoint_id@, events@, now),
            final(self).states() == after_all_told(
                old(self).states(),
                old(self).endpoint_id@,
                events@,
                now,
            ),
    {
        let mut produced: Vec<SupervisedEvent> = Vec::new();
        let ghost states = self.states();
        let ghost key = self.endpoint_id@;
        let ghost reports = events@;
        assert(reports.take(0) =~= Seq::<EndpointReaderEvent>::empty());
        for event in iter: events
            invariant
                iter.seq() == reports,
                self.wf(),
                self.same_setup(old(self)),
                self.supervisors.next_generation == old(self).supervisors.next_generation,
                now.reaches(millis(MAX_RETRY_DELAY_MS as int)),
                key == old(self).endpoint_id@,
                produced@ == all_told(states, key, reports.take(iter.index() as int), now),
                self.states() == after_all_told(
                    states,
                    key,
                    reports.take(iter.index() as int),
                    now,
                ),
        {
            let ghost index = iter.index() as int;
            proof {
                assert(reports.take(index + 1).drop_last() =~= reports.take(index));
                assert(reports.take(index + 1).last() == event);
            }
            if let Some(made) = self.reader_event(event, now) {
                produced.push(made);
            }
        }
        assert(reports.take(reports.len() as int) =~= reports);
        produced
    }

    /// One loop tick behind the start of the due attempts: collects what the
    /// reader threads had queued at `read`, in order, and then what the
    /// supervisor reported at `at`, if it did.
    pub fn tick(
        &mut self,
        queued: Vec<EndpointReaderEvent>,
        read: Instant,
        report: Option<SupervisorReport>,
        at: Instant,
    ) -> (produced: Vec<SupervisedEvent>)
        requires
            old(self).wf(),
            read.reaches(millis(MAX_RETRY_DELAY_MS as int)),
            asks_for_retry(report) ==> at.reaches(millis(MAX_RETRY_DELAY_MS as int)),
        ensures
            final(self).wf(),
            final(self).same_setup(old(self)),
            final(self).supervisors.next_generation == old(self).supervisors.next_generation,
            ({
                let key = old(self).endpoint_id@;
                let collected = after_all_told(old(self).states(), key, queued@, read);
                &&& produced@ == with(
                    all_told(old(self).states(), key, queued@, read),
                    reported(collected, key, report),
                )
                &&& final(self).states() == after_reported(collected, key, report, at)
            }),
    {
        let mut produced = self.reader_events(queued, read);
        match report {
            Some(SupervisorReport::Connected { generation }) => {
                produced.push(self.connected(generation, at));
            },
            Some(SupervisorReport::Ended(ended)) => {
                if let Some(event) = self.attempt_ended(ended, at) {
                    produced.push(event);
                }
            },
            None => {},
        }
        produced
    }
}

/// Whether the connection of this generation stands: it is the current one, and
/// nothing is under way or planned to replace it.
pub open spec fn live_as(
    states: Map<EndpointKey, ReconnectState>,
    key: EndpointKey,
    generation: u64,
) -> bool {
    &&& is_current(states, key, generation)
    &&& states[key].next_attempt is None
    &&& !states[key].in_flight
}

/// A whole tick, from `states` with `first` as the next generation: every due
/// attempt starts, then the queued reports of the readers are taken in, then at
/// most one report of the supervisor.
pub open spec fn after_tick(
    keys: Seq<EndpointKey>,
    states: Map<EndpointKey, ReconnectState>,
    first: u64,
    key: EndpointKey,
    started: Instant,
    queued: Seq<EndpointReaderEvent>,
    read: Instant,
    report: Option<SupervisorReport>,
    at: Instant,
) -> Map<EndpointKey, ReconnectState> {
    let spawned = after_spawn(keys, states, started, first);
    after_reported(after_all_told(spawned, key, queued, read), key, report, at)
}

/// The readers' reports are told in their order: those of a first batch come
/// first, and the second batch is judged by what the first left behind.
pub proof fn law_reports_are_told_in_order(
    states: Map<EndpointKey, ReconnectState>,
    key: EndpointKey,
    first: Seq<EndpointReaderEvent>,
    second: Seq<EndpointReaderEvent>,
    now: Instant,
)
    ensures
        after_all_told(states, key, first + second, now) == after_all_told(
            after_all_told(states, key, first, now),
            key,
            second,
            now,
        ),
        all_told(states, key, first + second, now) == all_told(states, key, first, now) + all_told(
            after_all_told(states, key, first, now),
            key,
            second,
            now,
        ),
    decreases second.len(),
{
    let both = first + second;
    if second.len() == 0 {
        assert(both =~= first);
        assert(all_told(states, key, first, now) + Seq::<SupervisedEvent>::empty() =~= all_told(
            states,
            key,
            first,
            now,
        ));
    } else {
        law_reports_are_told_in_order(states, key, first, second.drop_last(), now);
        assert(both.drop_last() =~= first + second.drop_last());
        assert(both.last() == second.last());
        assert(all_told(states, key, both, now) =~= all_told(states, key, first, now) + all_told(
            after_all_told(states, key, first, now),
            key,
            second,
            now,
        ));
    }
}

/// A tick is the start of what is due, then the readers' reports, then at most
/// one report of the supervisor. The last of what it produces is that report: a
/// connection always, which also forgets the failures of the endpoint whose
/// current attempt made it; the end of an attempt only if it was the current one.
/// Without a report nothing is added.
pub proof fn law_tick_ends_with_the_supervisor(
    keys: Seq<EndpointKey>,
    states: Map<EndpointKey, ReconnectState>,
    first: u64,
    key: EndpointKey,
    started: Instant,
    queued: Seq<EndpointReaderEvent>,
    read: Instant,
    report: Option<SupervisorReport>,
    at: Instant,
)
    ensures
        ({
            let spawned = after_spawn(keys, states, started, first);
            let before = all_told(spawned, key, queued, read);
            let collected = after_all_told(spawned, key, queued, read);
            let produced = with(before, reported(collected, key, report));
            let after = after_tick(keys, states, first, key, started, queued, read, report, at);
            match report {
                None => produced == before && after == collected,
                Some(SupervisorReport::Connected { generation }) => {
                    &&& produced == before.push(SupervisedEvent::Connected { generation })
                    &&& is_current(collected, key, generation) ==> after[key].attempts == 0
                        && live_as(after, key, generation)
                },
                Some(SupervisorReport::Ended(ended)) => if is_current(
                    collected,
                    key,
                    ended.generation,
                ) {
                    produced == before.push(
                        SupervisedEvent::Failed { status: ended.status, message: ended.message },
                    )
                } else {
                    produced == before && after == collected
                },
            }
        }),
{
}

/// How the wait for a connection goes on.
pub enum ConnectedWait {
    Connected(u64),
    /// The supervisor gave up, with these words.
    GaveUp(String),
    Waiting,
}

/// Whether the event ends the wait for a connection.
pub open spec fn decides(event: SupervisedEvent) -> bool {
    ||| event is Connected
    ||| event matches SupervisedEvent::Failed { status, .. } && status
        == ClientEndpointStatus::Attention
}

/// How the wait for a connection goes on after a tick that produced `events`: a
/// connection or the need for attention ends it, whichever came first.
pub fn await_connection(events: Vec<SupervisedEvent>) -> (wait: ConnectedWait)
    ensures
        match wait {
            ConnectedWait::Waiting => forall|i: int|
                0 <= i < events@.len() ==> !decides(#[trigger] events@[i]),
            ConnectedWait::Connected(generation) => exists|i: int|
                {
                    &&& 0 <= i < events@.len()
                    &&& #[trigger] events@[i] == SupervisedEvent::Connected { generation }
                    &&& forall|j: int| 0 <= j < i ==> !decides(#[trigger] events@[j])
                },
            ConnectedWait::GaveUp(words) => exists|i: int|
                {
                    &&& 0 <= i < events@.len()
                    &&& #[trigger] events@[i] matches SupervisedEvent::Failed { status, message }
                        && status == ClientEndpointStatus::Attention && message@ == words@
                    &&& forall|j: int| 0 <= j < i ==> !decides(#[trigger] events@[j])
                },
        },
{
    let mut index: usize = 0;
    while index < events.len()
        invariant
            index <= events@.len(),
            forall|j: int| 0 <= j < index ==> !decides(#[trigger] events@[j]),
        decreases events@.len() - index,
    {
        let event = &events[index];
        assert(*event == events@[index as int]);
        match event {
            SupervisedEvent::Connected { generation } => {
                return ConnectedWait::Connected(*generation);
            },
            SupervisedEvent::Failed { status, message } => {
                if *status == ClientEndpointStatus::Attention {
                    return ConnectedWait::GaveUp(message.clone());
                }
            },
            _ => {},
        }
        index = index + 1;
    }
    ConnectedWait::Waiting
}

} // verus!
