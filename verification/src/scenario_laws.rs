//! What one connection, its loop and its scenarios do, event by event.
use crate::bench::{
    arm_trouble, arms_fine, bench_target, blackout_trouble, blackouts_fine, dials_planted, setting,
    BenchKind, BenchShortfall, QuicBridgeConfig, RemoteTransport,
};
use crate::clock::Instant;
use crate::connect::{
    dials, ConnectAction, ConnectEvent, ConnectOnce, ConnectStage, EndpointConnectOptions,
    Handshake, RenderEncoding,
};
use crate::failure::{
    handshake_failure, needs_attention, ClientError, Failure, FailureKind, FramingError,
};
use crate::idle::{first_fault, HealthPings, IdleAction, IdleFault, IdleHold};
use crate::measure::BlackoutRecord;
use crate::metrics::{ArmMetrics, MarkerWait, Screen};
use crate::outage::{OutageFault, OutagePhase, OutageRun};
use crate::profile::{ClientEndpointStatus, ConnectTarget, EndpointKey};
use crate::screen::{occurs, FrameEvent};
use crate::supervised::{
    after_all_told, after_reported, after_told, all_told, bench_options, reported, told,
    EndpointReaderEvent, SupervisedEvent, SupervisorReport,
};
use crate::supervisor::after_report;
use crate::table::ReconnectState;
use crate::text::{decimal, law_numbers_read_back};
use vstd::prelude::*;

verus! {

/// A ping is due exactly if nothing has been received for five seconds, and no
/// ping is out that nothing was received after.
pub proof fn law_ping_is_due_after_silence(
    pings: HealthPings,
    last_received: Instant,
    now: Instant,
)
    ensures
        pings.due(last_received, now) <==> now.nanos >= last_received.nanos + 5_000_000_000 && (
        pings.sent_at is None || pings.sent_at->0.nanos < last_received.nanos),
{
}

/// Whether the event fails a connection of this generation that is held idle: its
/// own end, or any connection.
pub open spec fn spoils(event: SupervisedEvent, generation: u64) -> bool {
    event is Connected || event == (SupervisedEvent::Closed { generation })
}

/// The first event that spoils an idle hold says why it failed, and a hold that
/// nothing spoils goes on.
pub proof fn law_first_spoiling_event_counts(
    events: Seq<SupervisedEvent>,
    generation: u64,
    i: int,
)
    ensures
        (forall|k: int| 0 <= k < events.len() ==> !spoils(#[trigger] events[k], generation))
            ==> first_fault(events, generation) is None,
        0 <= i < events.len() && spoils(events[i], generation) && (forall|k: int|
            0 <= k < i ==> !spoils(#[trigger] events[k], generation)) ==> first_fault(
            events,
            generation,
        ) == Some(
            if events[i] is Connected {
                IdleFault::SecondConnection
            } else {
                IdleFault::Closed
            },
        ),
    decreases events.len(),
{
    if events.len() > 0 {
        let earlier = events.drop_last();
        assert(events.last() == events[events.len() - 1]);
        if forall|k: int| 0 <= k < events.len() ==> !spoils(#[trigger] events[k], generation) {
            assert forall|k: int| 0 <= k < earlier.len() implies !spoils(
                #[trigger] earlier[k],
                generation,
            ) by {
                assert(!spoils(events[k], generation));
            }
        }
        if 0 <= i < events.len() && spoils(events[i], generation) && (forall|k: int|
            0 <= k < i ==> !spoils(#[trigger] events[k], generation)) {
            assert forall|k: int| 0 <= k < i && k < earlier.len() implies !spoils(
                #[trigger] earlier[k],
                generation,
            ) by {
                assert(!spoils(events[k], generation));
            }
            if i < earlier.len() {
                assert(earlier[i] == events[i]);
            }
        }
        law_first_spoiling_event_counts(earlier, generation, i);
    }
}

/// A tick that nothing spoils asks for a ping exactly if one is due, and forgets
/// the last ping exactly if something was received after it. It changes nothing
/// else.
pub proof fn law_idle_tick(
    hold: IdleHold,
    events: Seq<SupervisedEvent>,
    last_received: Instant,
    now: Instant,
)
    requires
        forall|k: int| 0 <= k < events.len() ==> !spoils(#[trigger] events[k], hold.generation),
    ensures
        ({
            let (after, action) = hold.ticked(events, last_received, now);
            let out = hold.pings.sent_at is Some && last_received.nanos
                <= hold.pings.sent_at->0.nanos;
            &&& action == if !out && now.nanos >= last_received.nanos + 5_000_000_000 {
                IdleAction::Ping
            } else {
                IdleAction::Wait
            }
            &&& after.pings.sent_at == if out {
                hold.pings.sent_at
            } else {
                None
            }
            &&& after.pings.count == hold.pings.count
            &&& after.generation == hold.generation
            &&& after.held == hold.held
            &&& after.started == hold.started
            &&& after.packets_before == hold.packets_before
            &&& after.pongs_before == hold.pongs_before
        }),
{
    law_first_spoiling_event_counts(events, hold.generation, 0);
}

/// The relay closes a second and a half after the connection, no sooner and no
/// later than the clock is looked at, and reopens after the length of the outage;
/// the clock does nothing else.
pub proof fn law_outage_by_the_clock(run: OutageRun, now: Instant)
    ensures
        match run.phase {
            OutagePhase::Live { since } => run.phase_at(now) == if now.nanos >= since.nanos
                + 1_500_000_000 {
                OutagePhase::Outage { started: now }
            } else {
                run.phase
            },
            OutagePhase::Outage { started } => run.phase_at(now) == if now.nanos >= started.nanos
                + run.record.outage.nanos {
                OutagePhase::Restored { at: now }
            } else {
                run.phase
            },
            _ => run.phase_at(now) == run.phase,
        },
{
}

/// What an outage books. The end of the first connection counts in the outage,
/// from its start, and fails the scenario elsewhere. An attempt that fails counts
/// from the loss, if there was one, and fails the scenario if it needs the user. A
/// connection ends the scenario once the relay is back, counted from then, and
/// fails it before. Hints count if they are the first connection's. What is about
/// another connection changes nothing.
pub proof fn law_outage_event_by_event(
    run: OutageRun,
    event: SupervisedEvent,
    now: Instant,
    after: OutageRun,
    outcome: Result<(), OutageFault>,
)
    requires
        run.leads_to(event, now, after, outcome),
    ensures
        match event {
            SupervisedEvent::Closed { generation } => {
                &&& generation != run.first ==> after == run && outcome is Ok
                &&& generation == run.first ==> match run.phase {
                    OutagePhase::Outage { started } => {
                        &&& outcome is Ok
                        &&& after.lost_at == Some(now)
                        &&& after.record.lost_after is Some
                        &&& now.nanos >= started.nanos ==> after.record.lost_after->0.nanos
                            == now.nanos - started.nanos
                    },
                    _ => outcome is Err && after == run,
                }
                &&& after.phase == run.phase
                &&& after.record.hints@ == run.record.hints@
                &&& after.record.failed_attempts@ == run.record.failed_attempts@
                &&& after.record.restore_to_connected == run.record.restore_to_connected
            },
            SupervisedEvent::Failed { status, message } => {
                &&& (outcome is Err <==> status == ClientEndpointStatus::Attention)
                &&& status != ClientEndpointStatus::Attention && run.lost_at is Some ==> {
                    let failed = after.record.failed_attempts@;
                    &&& failed.len() == run.record.failed_attempts@.len() + 1
                    &&& failed.drop_last() == run.record.failed_attempts@
                    &&& now.nanos >= run.lost_at->0.nanos ==> failed.last().nanos == now.nanos
                        - run.lost_at->0.nanos
                }
                &&& status == ClientEndpointStatus::Attention || run.lost_at is None ==> after
                    == run
                &&& after.phase == run.phase
                &&& after.lost_at == run.lost_at
            },
            SupervisedEvent::Connected { generation } => match run.phase {
                OutagePhase::Restored { at } => {
                    &&& outcome is Ok
                    &&& after.phase == OutagePhase::Done
                    &&& after.record.restore_to_connected is Some
                    &&& now.nanos >= at.nanos ==> after.record.restore_to_connected->0.nanos
                        == now.nanos - at.nanos
                    &&& after.lost_at == run.lost_at
                },
                _ => outcome is Err && after == run,
            },
            SupervisedEvent::Hint { generation, state, applied } => {
                &&& outcome is Ok
                &&& generation != run.first ==> after == run
                &&& generation == run.first ==> {
                    let hints = after.record.hints@;
                    &&& hints.len() == run.record.hints@.len() + 1
                    &&& hints.take(run.record.hints@.len() as int) == run.record.hints@
                    &&& state@.is_prefix_of(hints.last()@)
                    &&& applied <==> hints.last()@.len() > state@.len()
                }
                &&& after.phase == run.phase
                &&& after.lost_at == run.lost_at
            },
        },
{
    reveal_strlit(" (applied)");
    match event {
        SupervisedEvent::Failed { status, message } => {
            if status != ClientEndpointStatus::Attention && run.lost_at is Some {
                assert(after.record.failed_attempts@.drop_last()
                    =~= run.record.failed_attempts@);
            }
        },
        SupervisedEvent::Hint { generation, state, applied } => {
            if generation == run.first {
                let noted = after.record.hints@.last()@;
                if applied {
                    assert(noted == state@ + " (applied)"@);
                    assert(state@.is_prefix_of(noted));
                } else {
                    assert(noted == state@);
                    assert(state@.is_prefix_of(noted));
                }
            }
        },
        _ => {},
    }
}

/// What the loop makes of a reader's report. A status is always passed on, as
/// applied exactly if it is the reconnect hint of the current connection, and
/// then sets the short pace of that endpoint and nothing else. An end is passed on
/// exactly if it is the current connection's.
pub proof fn law_reader_reports(
    states: Map<EndpointKey, ReconnectState>,
    key: EndpointKey,
    generation: u64,
    state: String,
    now: Instant,
)
    ensures
        ({
            let current = states.contains_key(key) && states[key].generation == Some(generation);
            let status = EndpointReaderEvent::TransportStatus { generation, state };
            let end = EndpointReaderEvent::Closed { generation };
            let hinted = after_told(states, key, status, now);
            &&& told(states, key, status) matches Some(
                SupervisedEvent::Hint { generation: of, state: said, applied },
            ) && of == generation && said@ == state@ && applied == (current && state@
                == "reconnect-fast"@)
            &&& state@ != "reconnect-fast"@ || !current ==> hinted == states
            &&& state@ == "reconnect-fast"@ && current ==> hinted == states.insert(
                key,
                ReconnectState { fast_reconnect: true, ..states[key] },
            )
            &&& told(states, key, end) == if current {
                Some(SupervisedEvent::Closed { generation })
            } else {
                None
            }
            &&& !current ==> after_told(states, key, end, now) == states
            &&& current ==> !after_told(states, key, end, now)[key].in_flight && after_told(
                states,
                key,
                end,
                now,
            )[key].next_attempt is Some
        }),
{
}

/// What the loop makes of the supervisor's report: a connection is always passed
/// on, the end of an attempt exactly if it carries the current generation, with
/// its status and its words.
pub proof fn law_supervisor_reports(
    states: Map<EndpointKey, ReconnectState>,
    key: EndpointKey,
    report: SupervisorReport,
)
    ensures
        match report {
            SupervisorReport::Connected { generation } => reported(states, key, Some(report))
                == Some(SupervisedEvent::Connected { generation }),
            SupervisorReport::Ended(ended) => {
                let current = states.contains_key(key) && states[key].generation == Some(
                    ended.generation,
                );
                &&& !current ==> reported(states, key, Some(report)) is None
                &&& current ==> reported(states, key, Some(report)) == Some(
                    SupervisedEvent::Failed { status: ended.status, message: ended.message },
                )
            },
        },
        reported(states, key, None) is None,
{
}

/// What the handshake is made with is what the client asked for, field by field,
/// with its last switch off.
pub proof fn law_handshake_asks_for_the_options(options: EndpointConnectOptions)
    ensures
        ({
            let request = crate::connect::request_for(options);
            &&& request.cols == options.cols
            &&& request.rows == options.rows
            &&& request.cell_width_px == options.cell_width_px
            &&& request.cell_height_px == options.cell_height_px
            &&& request.pixel_geometry_exact == options.pixel_geometry_exact
            &&& request.surface_size == Some(options.surface_size)
            &&& request.endpoint_keybindings == options.endpoint_keybindings
            &&& request.mouse_capture == options.mouse_capture
            &&& !request.last_switch
        }),
{
}

/// Who is admitted: a server that renders semantic frames and lets clients say
/// what they show, and, unless it is the local one, answers health pings. A server
/// that renders otherwise is refused as making no sense, any other as unsupported.
pub proof fn law_who_is_admitted(
    once: ConnectOnce,
    handshake: Handshake,
    stage: ConnectStage,
    action: ConnectAction,
)
    requires
        once.leads_to(ConnectEvent::HandshakeDone(handshake), stage, action),
    ensures
        ({
            let local = once.endpoint_id@ == EndpointKey::Local;
            let semantic = handshake.encoding == RenderEncoding::SemanticFrame;
            let able = handshake.surface_interest && (local || handshake.health_check);
            &&& semantic && able <==> action is CloneReader
            &&& semantic && able ==> stage == (ConnectStage::CloningReader { handshake })
            &&& !(semantic && able) ==> stage == ConnectStage::Ended && action is Failed
            &&& !semantic ==> action->Failed_0.kind == FailureKind::InvalidData
            &&& semantic && !able ==> action->Failed_0.kind == FailureKind::Unsupported
        }),
{
}

/// What an attempt does with a failure to dial. An absent local socket counts as a
/// refused connection; every other failure keeps its kind. A saved machine's
/// failure keeps its words, and where the user has to act, and only there, more
/// words follow, which name the command that sets the machine up.
pub proof fn law_dial_failures(
    once: ConnectOnce,
    error: Failure,
    said: bool,
    bootstrap_command: String,
    stage: ConnectStage,
    action: ConnectAction,
)
    requires
        once.leads_to(
            ConnectEvent::DialFailed { error, told: said, bootstrap_command },
            stage,
            action,
        ),
    ensures
        stage == ConnectStage::Ended,
        action is Failed,
        ({
            let failure = action->Failed_0;
            match once.target {
                ConnectTarget::Local(_) => {
                    &&& error.kind == FailureKind::NotFound ==> failure.kind
                        == FailureKind::ConnectionRefused
                    &&& error.kind != FailureKind::NotFound ==> failure.kind == error.kind
                        && failure.message@ == error.message@
                },
                ConnectTarget::Ssh(_) => {
                    let attention = error.kind == FailureKind::Unsupported || (error.kind
                        != FailureKind::TimedOut && said);
                    &&& failure.kind == error.kind
                    &&& error.message@.is_prefix_of(failure.message@)
                    &&& !attention ==> failure.message@ == error.message@
                    &&& attention ==> exists|i: int|
                        {
                            &&& error.message@.len() <= i
                            &&& i + bootstrap_command@.len() < failure.message@.len()
                            &&& #[trigger] failure.message@.subrange(
                                i,
                                i + bootstrap_command@.len(),
                            ) == bootstrap_command@
                        }
                },
            }
        }),
{
    let failure = action->Failed_0;
    if once.target is Ssh {
        let attention = needs_attention(error.kind, said);
        if attention {
            reveal_strlit(". Run `");
            reveal_strlit("` interactively to approve setup, then restart this client");
            let i = (error.message@.len() + ". Run `"@.len()) as int;
            assert(error.message@.is_prefix_of(failure.message@));
            assert(failure.message@.subrange(i, i + bootstrap_command@.len())
                =~= bootstrap_command@);
        } else {
            assert(error.message@.is_prefix_of(failure.message@));
        }
    }
}

/// What is left of an attempt: failures of the stream and of the handshake are
/// passed on, the rest goes on step by step.
pub proof fn law_attempt_step_by_step(
    once: ConnectOnce,
    event: ConnectEvent,
    stage: ConnectStage,
    action: ConnectAction,
)
    requires
        once.leads_to(event, stage, action),
    ensures
        event is Dialed ==> stage == ConnectStage::ShakingHands && action is ShakeHands,
        event is ReaderCloned ==> action is WrapWriter && stage is WrappingWriter
            && once.stage is CloningReader,
        event is WriterWrapped ==> stage == ConnectStage::Ended && action is Connected
            && action->generation == once.generation && action->endpoint_id == once.endpoint_id,
        event matches ConnectEvent::StreamFailed(error) ==> stage == ConnectStage::Ended
            && action is Failed && action->Failed_0.kind == error.kind
            && action->Failed_0.message@ == error.message@,
        event is HandshakeFailed ==> stage == ConnectStage::Ended && action is Failed,
{
}

/// A refusal of this version needs the user, a slow peer does not, and of any
/// other failure the transport decides.
pub proof fn law_who_has_to_act(kind: FailureKind, said: bool)
    ensures
        kind == FailureKind::Unsupported ==> needs_attention(kind, said),
        kind == FailureKind::TimedOut ==> !needs_attention(kind, said),
        kind != FailureKind::Unsupported && kind != FailureKind::TimedOut ==> needs_attention(
            kind,
            said,
        ) == said,
{
}

/// What a failed handshake comes down to: an I/O failure is itself, wherever it was
/// met; a rejection is unsupported, in the peer's words; what makes no sense is
/// invalid data; a shutdown aborts the connection, in the server's words if it
/// gave any.
pub proof fn law_handshake_failures(
    failure: Failure,
    version: u32,
    words: String,
)
    ensures
        handshake_failure(ClientError::ConnectionFailed(failure)) == (
            failure.kind,
            failure.message@,
        ),
        handshake_failure(ClientError::ConnectionLost(failure)) == (
            failure.kind,
            failure.message@,
        ),
        handshake_failure(ClientError::Protocol(FramingError::Io(failure))) == (
            failure.kind,
            failure.message@,
        ),
        handshake_failure(ClientError::HandshakeRejected { version, error: words }) == (
            FailureKind::Unsupported,
            words@,
        ),
        handshake_failure(ClientError::Protocol(FramingError::Malformed(words))) == (
            FailureKind::InvalidData,
            words@,
        ),
        handshake_failure(ClientError::ServerShutdown { reason: Some(words) }) == (
            FailureKind::ConnectionAborted,
            words@,
        ),
        handshake_failure(ClientError::ServerShutdown { reason: None }).0
            == FailureKind::ConnectionAborted,
{
}

/// A setting that writes a positive number within the limit is that number, with
/// zeros in front or not. One that is missing, zero, above the limit, or holds
/// anything but digits, is the default.
pub proof fn law_settings(n: nat, width: nat, max: int, default: int, text: Seq<char>, i: int)
    requires
        max >= 0,
        0 <= i < text.len(),
        !('0' <= text[i] && text[i] <= '9'),
        i == 0 ==> text[i] != '+',
    ensures
        1 <= n <= max ==> setting(Some(crate::text::zero_padded(n, width)), max, default) == n,
        1 <= n <= max ==> setting(Some(decimal(n)), max, default) == n,
        setting(Some(decimal(0)), max, default) == default,
        n > max ==> setting(Some(decimal(n)), max, default) == default,
        setting(Some(text), max, default) == default,
        setting(None, max, default) == default,
{
    if n <= max {
        law_numbers_read_back(n, width, max);
    } else {
        law_numbers_read_back(n, 0, n as int);
        crate::text::lemma_limit_only_refuses(decimal(n), 10, n as int, max);
    }
    law_numbers_read_back(0, 0, max);
    crate::text::lemma_bad_digit_spoils(text, max, i);
}

/// Different processes plant their credentials under different names, and the two
/// kinds of run of one process do too.
pub proof fn law_credentials_do_not_meet(kind: BenchKind, process: u32, other: u32)
    ensures
        process != other ==> bench_target(kind, process) != bench_target(kind, other),
        bench_target(BenchKind::Bench, process) != bench_target(BenchKind::Scenario, process),
{
    reveal_strlit("quic-bench-");
    reveal_strlit("quic-scenario-");
    let prefix = match kind {
        BenchKind::Bench => "quic-bench-"@,
        BenchKind::Scenario => "quic-scenario-"@,
    };
    let one = bench_target(kind, process);
    let two = bench_target(kind, other);
    law_numbers_read_back(process as nat, 0, u32::MAX as int);
    law_numbers_read_back(other as nat, 0, u32::MAX as int);
    assert(one.skip(prefix.len() as int) =~= decimal(process as nat));
    assert(two.skip(prefix.len() as int) =~= decimal(other as nat));
    assert(bench_target(BenchKind::Bench, process)[5] == 'b');
    assert(bench_target(BenchKind::Scenario, process)[5] == 's');
}

/// An arm is in order exactly if it lost nothing and measured something; an outage
/// exactly if a frame came and the keystroke was echoed. What was lost is named
/// before what was not measured, and a missing frame before a missing echo.
pub proof fn law_what_is_in_order(arm: ArmMetrics, blackout: BlackoutRecord, index: usize)
    ensures
        arm_trouble(arm, index as int) == if arm.lost > 0 {
            Some(BenchShortfall::LostKeystrokes(index))
        } else if arm.latencies@.len() == 0 {
            Some(BenchShortfall::NothingMeasured(index))
        } else {
            None
        },
        blackout_trouble(blackout, index as int) == if blackout.recovery is None {
            Some(BenchShortfall::NoFrame(index))
        } else if blackout.echoed {
            None
        } else {
            Some(BenchShortfall::NoEcho(index))
        },
{
}

/// All arms are in order exactly if each lost nothing and measured something, and
/// all outages exactly if each showed a frame and an echo.
pub proof fn law_all_in_order(arms: Seq<ArmMetrics>, blackouts: Seq<BlackoutRecord>, n: int)
    requires
        0 <= n,
    ensures
        n <= arms.len() ==> (arms_fine(arms, n) <==> forall|i: int|
            0 <= i < n ==> (#[trigger] arms[i]).lost == 0 && arms[i].latencies@.len() > 0),
        n <= blackouts.len() ==> (blackouts_fine(blackouts, n) <==> forall|i: int|
            0 <= i < n ==> (#[trigger] blackouts[i]).recovery is Some && blackouts[i].echoed),
{
    if n <= arms.len() && arms_fine(arms, n) {
        assert forall|i: int| 0 <= i < n implies (#[trigger] arms[i]).lost == 0
            && arms[i].latencies@.len() > 0 by {
            assert(arm_trouble(arms[i], i) is None);
        }
    }
    if n <= blackouts.len() && blackouts_fine(blackouts, n) {
        assert forall|i: int| 0 <= i < n implies (#[trigger] blackouts[i]).recovery is Some
            && blackouts[i].echoed by {
            assert(blackout_trouble(blackouts[i], i) is None);
        }
    }
}

/// A bridge whose credential is planted dials by itself, asks nobody, and has
/// nothing that SSH could run.
pub proof fn law_planted_bridges(config: QuicBridgeConfig)
    ensures
        dials_planted(config) <==> config.remote_herdr@ == "/nonexistent/herdr"@
            && config.ssh_options is None && config.noninteractive && config.transport
            == RemoteTransport::Auto,
{
}

/// What an attempt dials is its target: the local socket at its path, or the saved
/// machine of its profile.
pub proof fn law_what_is_dialed(target: ConnectTarget, action: ConnectAction)
    requires
        dials(action, target),
    ensures
        match target {
            ConnectTarget::Local(path) => action == ConnectAction::DialLocal(path),
            ConnectTarget::Ssh(profile) => action == ConnectAction::DialSsh(profile),
        },
{
}

/// A benchmark's client is a plain terminal of 100 by 30 cells of 8 by 16 pixels,
/// all of it its surface, with nothing else switched on.
pub proof fn law_bench_client()
    ensures
        bench_options().cols == 100,
        bench_options().rows == 30,
        bench_options().cell_width_px == 8,
        bench_options().cell_height_px == 16,
        bench_options().surface_size.cols == 100,
        bench_options().surface_size.rows == 30,
        !bench_options().pixel_geometry_exact,
        !bench_options().endpoint_keybindings,
        !bench_options().mouse_capture,
{
}

/// Of a queue of one report the loop makes what it makes of that report, of an
/// empty one nothing.
pub proof fn law_one_report(
    states: Map<EndpointKey, ReconnectState>,
    key: EndpointKey,
    event: EndpointReaderEvent,
    now: Instant,
)
    ensures
        all_told(states, key, seq![event], now) == match told(states, key, event) {
            Some(made) => seq![made],
            None => Seq::empty(),
        },
        after_all_told(states, key, seq![event], now) == after_told(states, key, event, now),
        all_told(states, key, Seq::empty(), now).len() == 0,
        after_all_told(states, key, Seq::empty(), now) == states,
{
    let one = seq![event];
    assert(one.drop_last() =~= Seq::<EndpointReaderEvent>::empty());
    assert(all_told(states, key, Seq::empty(), now).len() == 0);
    assert(after_all_told(states, key, Seq::empty(), now) == states);
    assert(all_told(states, key, one, now) =~= match told(states, key, event) {
        Some(made) => seq![made],
        None => Seq::empty(),
    });
}

/// What the supervisor reports is booked: a connection as online, an end with its
/// status, both under their generation; without a report nothing is.
pub proof fn law_supervisor_reports_are_booked(
    states: Map<EndpointKey, ReconnectState>,
    key: EndpointKey,
    report: SupervisorReport,
    now: Instant,
)
    ensures
        after_reported(states, key, Some(report), now) == match report {
            SupervisorReport::Connected { generation } => after_report(
                states,
                key,
                generation,
                ClientEndpointStatus::Online,
                now,
            ),
            SupervisorReport::Ended(ended) => after_report(
                states,
                key,
                ended.generation,
                ended.status,
                now,
            ),
        },
        after_reported(states, key, None, now) == states,
{
}

/// A frame that is accounted adds one to the frames and its length to the bytes,
/// and changes nothing else of the arm.
pub proof fn law_frames_are_accounted(before: ArmMetrics, after: ArmMetrics, event: FrameEvent)
    requires
        after.counts_one_more(before, event),
    ensures
        after.frames == before.frames + 1,
        after.frame_bytes == before.frame_bytes + event.bytes,
        after.latencies@ == before.latencies@,
        after.lost == before.lost,
        after.name == before.name,
        after.wall == before.wall,
        after.packets == before.packets,
{
}

/// A search finds a marker exactly if the visible text holds it, and then uses the
/// text up; else it waits and leaves the text alone.
pub proof fn law_search(
    screen: Screen,
    marker: Seq<u8>,
    seen: Instant,
    deadline: Instant,
    wait: MarkerWait,
    after: Screen,
)
    requires
        screen.searched(marker, seen, deadline, wait, after),
    ensures
        occurs(screen.visible@, marker) <==> wait is Seen,
        wait is Seen ==> wait == MarkerWait::Seen(seen) && after.visible@.len() == 0,
        wait is AwaitFrame ==> wait == MarkerWait::AwaitFrame(deadline) && after.visible@
            == screen.visible@,
{
}

} // verus!
