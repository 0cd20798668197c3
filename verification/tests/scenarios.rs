use herdr::clock::{Duration, Instant};
use herdr::connect::StatusReport;
use herdr::idle::{
    HealthPings, IdleAction, IdleFault, IdleHold, IdleRecord, IdleShortfall,
};
use herdr::outage::{
    outage_deadline, OutageAction, OutageFault, OutagePhase, OutageRun, OutageShortfall,
};
use herdr::profile::{ClientEndpointId, ClientEndpointStatus, ConnectTarget};
use herdr::relay::PacketCount;
use herdr::supervised::{
    apply_transport_hint, await_connection, ConnectedWait, ConnectionLedger, ControlKind,
    ControlKinds, EndpointReaderEvent, Received, SupervisedEndpoint, SupervisedEvent,
    SupervisorReport,
};
use std::path::PathBuf;

fn at(ms: u64) -> Instant {
    Instant { nanos: ms as u128 * 1_000_000 }
}

fn ms(ms: u64) -> Duration {
    Duration::from_millis(ms)
}

fn endpoint() -> SupervisedEndpoint {
    SupervisedEndpoint::new(PathBuf::from("bridge.sock"), at(0))
}

/// An endpoint connected as generation 2.
fn connected() -> SupervisedEndpoint {
    let mut endpoint = endpoint();
    let attempts = endpoint.supervisors.spawn_due(at(0));
    assert_eq!(attempts.len(), 1);
    assert_eq!(attempts[0].generation, 2);
    assert_eq!(attempts[0].target, ConnectTarget::Local(PathBuf::from("bridge.sock")));
    assert!(matches!(
        endpoint.connected(2, at(10)),
        SupervisedEvent::Connected { generation: 2 }
    ));
    endpoint
}

fn next_attempt(endpoint: &SupervisedEndpoint) -> Option<Instant> {
    let state = endpoint.supervisors.endpoints.get(&ClientEndpointId::Local);
    state.unwrap().next_attempt
}

fn closed(generation: u64) -> SupervisedEvent {
    SupervisedEvent::Closed { generation }
}

fn hint(generation: u64, state: &str, applied: bool) -> SupervisedEvent {
    SupervisedEvent::Hint { generation, state: state.to_string(), applied }
}

fn attempt_failed(status: ClientEndpointStatus, message: &str) -> SupervisedEvent {
    SupervisedEvent::Failed { status, message: message.to_string() }
}

#[test]
fn a_supervised_endpoint_starts_local_and_due() {
    let endpoint = endpoint();
    assert_eq!(endpoint.endpoint_id, ClientEndpointId::Local);
    assert_eq!(endpoint.started, at(0));
    assert_eq!((endpoint.options.cols, endpoint.options.rows), (100, 30));
    assert_eq!((endpoint.options.cell_width_px, endpoint.options.cell_height_px), (8, 16));
    assert_eq!(endpoint.options.surface_size.cols, 100);
    assert!(!endpoint.options.mouse_capture);
    assert_eq!(next_attempt(&endpoint), Some(at(0)));
}

#[test]
fn only_the_reconnect_hint_reaches_the_supervisor() {
    let mut endpoint = connected();
    let id = ClientEndpointId::Local;
    let supervisors = &mut endpoint.supervisors;
    assert!(!apply_transport_hint(supervisors, &id, 2, "reconnect-slow"));
    assert!(!apply_transport_hint(supervisors, &id, 1, "reconnect-fast"));
    assert!(!supervisors.endpoints.get(&id).unwrap().fast_reconnect);
    assert!(apply_transport_hint(supervisors, &id, 2, "reconnect-fast"));
    assert!(supervisors.endpoints.get(&id).unwrap().fast_reconnect);
}

#[test]
fn a_hinted_loss_is_redialed_within_four_seconds() {
    let mut endpoint = connected();
    let id = ClientEndpointId::Local;
    endpoint.supervisors.endpoints.get_mut(&id).unwrap().attempts = 20;
    let told = EndpointReaderEvent::TransportStatus {
        generation: 2,
        state: "reconnect-fast".to_string(),
    };
    assert!(matches!(
        endpoint.reader_event(told, at(50)),
        Some(SupervisedEvent::Hint { generation: 2, applied: true, .. })
    ));
    let ended = EndpointReaderEvent::Closed { generation: 2 };
    assert!(matches!(
        endpoint.reader_event(ended, at(100)),
        Some(SupervisedEvent::Closed { generation: 2 })
    ));
    assert_eq!(next_attempt(&endpoint), Some(at(4_100)));
}

#[test]
fn stale_reports_are_not_passed_on() {
    let mut endpoint = connected();
    assert!(endpoint
        .reader_event(EndpointReaderEvent::Closed { generation: 1 }, at(20))
        .is_none());
    assert_eq!(next_attempt(&endpoint), None);
    let report = |generation| StatusReport {
        endpoint_id: ClientEndpointId::Local,
        generation,
        status: ClientEndpointStatus::Reconnecting,
        message: "timed out".to_string(),
    };
    assert!(endpoint.attempt_ended(report(1), at(20)).is_none());
    assert!(matches!(
        endpoint.attempt_ended(report(2), at(20)),
        Some(SupervisedEvent::Failed { status: ClientEndpointStatus::Reconnecting, message })
            if message == "timed out"
    ));
    assert_eq!(next_attempt(&endpoint), Some(at(520)));
}

#[test]
fn a_tick_tells_the_readers_in_order_and_then_the_supervisor() {
    let mut endpoint = connected();
    let queue = || {
        vec![
            EndpointReaderEvent::Closed { generation: 1 },
            EndpointReaderEvent::TransportStatus {
                generation: 2,
                state: "reconnect-fast".to_string(),
            },
            EndpointReaderEvent::Closed { generation: 2 },
        ]
    };
    let produced = endpoint.tick(queue(), at(100), None, at(200));
    assert_eq!(produced.len(), 2);
    assert!(matches!(&produced[0], SupervisedEvent::Hint { generation: 2, applied: true, .. }));
    assert!(matches!(&produced[1], SupervisedEvent::Closed { generation: 2 }));
    assert_eq!(next_attempt(&endpoint), Some(at(600)));

    let attempts = endpoint.supervisors.spawn_due(at(600));
    assert_eq!(attempts[0].generation, 3);
    let stale = StatusReport {
        endpoint_id: ClientEndpointId::Local,
        generation: 2,
        status: ClientEndpointStatus::Reconnecting,
        message: "late".to_string(),
    };
    let told = vec![EndpointReaderEvent::TransportStatus {
        generation: 2,
        state: "gone".to_string(),
    }];
    let produced = endpoint.tick(told, at(610), Some(SupervisorReport::Ended(stale)), at(620));
    assert_eq!(produced.len(), 1);
    assert!(matches!(&produced[0], SupervisedEvent::Hint { applied: false, .. }));

    let ended = StatusReport {
        endpoint_id: ClientEndpointId::Local,
        generation: 3,
        status: ClientEndpointStatus::Reconnecting,
        message: "no route".to_string(),
    };
    let report = Some(SupervisorReport::Ended(ended));
    let produced = endpoint.tick(Vec::new(), at(630), report, at(640));
    assert!(matches!(
        &produced[..],
        [SupervisedEvent::Failed { status: ClientEndpointStatus::Reconnecting, message }]
            if message == "no route"
    ));
    assert_eq!(next_attempt(&endpoint), Some(at(1_640)));

    endpoint.supervisors.spawn_due(at(1_640));
    let report = Some(SupervisorReport::Connected { generation: 4 });
    let produced = endpoint.tick(
        vec![EndpointReaderEvent::Closed { generation: 2 }],
        at(1_650),
        report,
        at(1_660),
    );
    assert!(matches!(&produced[..], [SupervisedEvent::Connected { generation: 4 }]));
    assert_eq!(next_attempt(&endpoint), None);
}

#[test]
fn nothing_is_dialed_before_the_end_of_a_connection_is_told() {
    let mut endpoint = connected();
    let hinted = vec![EndpointReaderEvent::TransportStatus {
        generation: 2,
        state: "reconnect-fast".to_string(),
    }];
    for (second, queued) in [(1, Vec::new()), (2, hinted), (3_600, Vec::new())] {
        let moment = at(second * 1_000);
        assert!(endpoint.supervisors.spawn_due(moment).is_empty());
        let produced = endpoint.tick(queued, moment, None, moment);
        assert!(!produced.iter().any(|event| matches!(event, SupervisedEvent::Connected { .. })));
    }
    let ended = vec![EndpointReaderEvent::Closed { generation: 2 }];
    let produced = endpoint.tick(ended, at(3_700_000), None, at(3_700_000));
    assert!(matches!(&produced[..], [SupervisedEvent::Closed { generation: 2 }]));
    assert_eq!(endpoint.supervisors.spawn_due(at(3_700_500)).len(), 1);
}

#[test]
fn an_idle_hold_spaces_its_pings() {
    let mut hold = IdleHold::begin(2, ms(60_000), at(0), PacketCount::none(), 0);
    let mut received = at(0);
    let mut sent: Vec<Instant> = Vec::new();
    for tick in 0..600u64 {
        let now = at(tick * 100);
        // Each ping is answered 300 ms later.
        if let Some(last) = sent.last() {
            let answer = last.plus(ms(300));
            if answer.nanos <= now.nanos && received.nanos < answer.nanos {
                received = answer;
            }
        }
        if hold.tick(&[], received, now) == IdleAction::Ping {
            hold.ping_sent(now);
            sent.push(now);
        }
    }
    assert_eq!(sent[..3], [at(5_000), at(10_300), at(15_600)]);
    for pair in sent.windows(2) {
        assert!(pair[1].saturating_duration_since(pair[0]).nanos > ms(5_000).nanos);
    }
}

#[test]
fn batches_of_reports_are_told_as_one() {
    let told = |generation, state: &str| EndpointReaderEvent::TransportStatus {
        generation,
        state: state.to_string(),
    };
    let mut apart = connected();
    let mut produced = apart.reader_events(vec![told(2, "a")], at(20));
    produced.extend(apart.reader_events(
        vec![EndpointReaderEvent::Closed { generation: 2 }, told(2, "b")],
        at(20),
    ));
    let mut together = connected();
    let batch = vec![
        told(2, "a"),
        EndpointReaderEvent::Closed { generation: 2 },
        told(2, "b"),
    ];
    assert_eq!(together.reader_events(batch, at(20)).len(), produced.len());
    assert_eq!(produced.len(), 3);
    assert!(matches!(&produced[1], SupervisedEvent::Closed { generation: 2 }));
    assert_eq!(next_attempt(&apart), next_attempt(&together));
}

#[test]
fn a_reader_books_life_pongs_hints_and_the_end() {
    let kinds = ControlKinds {
        health_pong: "pong".to_string(),
        transport_status: "transport".to_string(),
    };
    assert_eq!(kinds.classify("pong"), ControlKind::Pong);
    assert_eq!(kinds.classify("transport"), ControlKind::TransportStatus);
    assert_eq!(kinds.classify("ping"), ControlKind::Other);
    let mut ledger = ConnectionLedger::new(7, at(0));
    assert!(ledger.received(Received::Message, at(1)).is_none());
    assert_eq!((ledger.last_received, ledger.pongs), (at(1), 0));
    assert!(ledger.received(Received::Pong, at(2)).is_none());
    assert_eq!((ledger.last_received, ledger.pongs), (at(2), 1));
    assert!(ledger.received(Received::TransportStatus(None), at(3)).is_none());
    assert_eq!(ledger.last_received, at(3));
    assert!(matches!(
        ledger.received(Received::TransportStatus(Some("up".to_string())), at(4)),
        Some(EndpointReaderEvent::TransportStatus { generation: 7, state }) if state == "up"
    ));
    assert!(matches!(
        ledger.received(Received::End, at(5)),
        Some(EndpointReaderEvent::Closed { generation: 7 })
    ));
    assert_eq!((ledger.last_received, ledger.pongs), (at(4), 1));
}

#[test]
fn the_wait_for_a_connection_ends_with_the_first_decision() {
    assert!(matches!(await_connection(Vec::new()), ConnectedWait::Waiting));
    let undecided = vec![
        attempt_failed(ClientEndpointStatus::Reconnecting, "later"),
        closed(2),
        hint(2, "x", false),
    ];
    assert!(matches!(await_connection(undecided), ConnectedWait::Waiting));
    let connects = vec![
        attempt_failed(ClientEndpointStatus::Reconnecting, "later"),
        SupervisedEvent::Connected { generation: 5 },
        attempt_failed(ClientEndpointStatus::Attention, "never"),
    ];
    assert!(matches!(await_connection(connects), ConnectedWait::Connected(5)));
    let gives_up = vec![
        attempt_failed(ClientEndpointStatus::Attention, "never"),
        SupervisedEvent::Connected { generation: 5 },
    ];
    assert!(matches!(await_connection(gives_up), ConnectedWait::GaveUp(words) if words == "never"));
}

#[test]
fn one_ping_is_outstanding_at_a_time() {
    let mut pings = HealthPings::new();
    assert!(!pings.poll(at(0), at(4_999)));
    assert!(pings.poll(at(0), at(5_000)));
    pings.sent(at(5_000));
    assert!(!pings.poll(at(0), at(60_000)));
    // Only what comes after the ping answers it.
    assert!(!pings.poll(at(5_000), at(60_000)));
    assert!(!pings.poll(at(5_200), at(10_199)));
    assert_eq!(pings.sent_at, None);
    assert!(pings.poll(at(5_200), at(10_200)));
    pings.sent(at(10_200));
    assert_eq!(pings.count, 2);
}

#[test]
fn an_idle_hold_pings_and_books() {
    let before = PacketCount { up_packets: 5, up_bytes: 50, down_packets: 4, down_bytes: 40 };
    let after = PacketCount { up_packets: 15, up_bytes: 150, down_packets: 9, down_bytes: 45 };
    let mut hold = IdleHold::begin(2, ms(60_000), at(1_000), before, 3);
    assert!(hold.holding(at(60_999)));
    assert!(!hold.holding(at(61_000)));
    assert_eq!(hold.tick(&[], at(1_000), at(5_999)), IdleAction::Wait);
    let harmless = [closed(1), hint(2, "x", false)];
    assert_eq!(hold.tick(&harmless, at(1_000), at(6_000)), IdleAction::Ping);
    hold.ping_sent(at(6_001));
    assert_eq!(hold.tick(&[], at(1_000), at(9_000)), IdleAction::Wait);
    let record = hold.finish(at(61_500), after, 4);
    assert_eq!(
        record,
        IdleRecord {
            held: ms(60_500),
            packets: PacketCount { up_packets: 10, up_bytes: 100, down_packets: 5, down_bytes: 5 },
            client_pings: 1,
            pongs: 1,
        }
    );
    assert_eq!(record.shortfall(), None);
}

#[test]
fn an_idle_hold_fails_with_its_connection() {
    let mut hold = IdleHold::begin(2, ms(60_000), at(0), PacketCount::none(), 0);
    assert_eq!(
        hold.tick(&[hint(2, "x", false), closed(2)], at(0), at(9_000)),
        IdleAction::Fail(IdleFault::Closed)
    );
    let second = [SupervisedEvent::Connected { generation: 3 }, closed(2)];
    assert_eq!(
        hold.tick(&second, at(0), at(9_000)),
        IdleAction::Fail(IdleFault::SecondConnection)
    );
}

#[test]
fn an_idle_record_must_have_every_ping_answered() {
    let record = |client_pings, pongs| IdleRecord {
        held: ms(1),
        packets: PacketCount::none(),
        client_pings,
        pongs,
    };
    assert_eq!(record(0, 0).shortfall(), Some(IdleShortfall::NoPing));
    assert_eq!(record(3, 2).shortfall(), Some(IdleShortfall::Unanswered));
    assert_eq!(record(3, 4).shortfall(), Some(IdleShortfall::Unanswered));
    assert_eq!(record(3, 3).shortfall(), None);
}

fn outage_run() -> OutageRun {
    let outage = Duration::from_secs(200);
    let deadline = outage_deadline(at(0), outage);
    assert_eq!(deadline, at(320_000));
    OutageRun::begin(2, outage, deadline, at(1_000))
}

#[test]
fn an_outage_runs_its_course() {
    let mut run = outage_run();
    assert!(matches!(run.advance(at(2_499)), OutageAction::Nothing));
    assert!(matches!(run.advance(at(2_500)), OutageAction::CloseRelay));
    assert!(run.event(hint(2, "reconnect-fast", true), at(100_000)).is_ok());
    assert!(run.event(hint(2, "probing", false), at(100_001)).is_ok());
    assert!(run.event(hint(1, "other", true), at(100_002)).is_ok());
    let early = attempt_failed(ClientEndpointStatus::Reconnecting, "no route");
    assert!(run.event(early, at(150_000)).is_ok());
    assert!(run.record.failed_attempts.is_empty());
    assert!(run.event(closed(2), at(152_500)).is_ok());
    assert!(run.event(closed(9), at(152_600)).is_ok());
    let again = attempt_failed(ClientEndpointStatus::Reconnecting, "no route");
    assert!(run.event(again, at(154_500)).is_ok());
    let once_more = attempt_failed(ClientEndpointStatus::Reconnecting, "no route");
    assert!(run.event(once_more, at(158_000)).is_ok());
    assert!(matches!(run.advance(at(202_499)), OutageAction::Nothing));
    assert!(matches!(run.advance(at(202_500)), OutageAction::ReopenRelay));
    assert!(!run.is_done());
    assert!(run
        .event(SupervisedEvent::Connected { generation: 9 }, at(204_000))
        .is_ok());
    assert!(run.is_done());
    assert_eq!(run.record.lost_after, Some(ms(150_000)));
    assert_eq!(
        run.record.hints,
        vec!["reconnect-fast (applied)".to_string(), "probing".to_string()]
    );
    assert_eq!(run.record.failed_attempts, vec![ms(2_000), ms(5_500)]);
    assert_eq!(run.record.restore_to_connected, Some(ms(1_500)));
    assert_eq!(run.record.shortfall(), None);
}

#[test]
fn an_outage_fails_for_cause_and_books_nothing_then() {
    let mut run = outage_run();
    assert!(matches!(
        run.event(closed(2), at(1_100)),
        Err(OutageFault::ClosedOutside(OutagePhase::Live { .. }))
    ));
    assert!(matches!(
        run.event(SupervisedEvent::Connected { generation: 3 }, at(1_100)),
        Err(OutageFault::ConnectedDuring(OutagePhase::Live { .. }))
    ));
    assert!(matches!(
        run.event(attempt_failed(ClientEndpointStatus::Attention, "old"), at(1_100)),
        Err(OutageFault::GaveUp(words)) if words == "old"
    ));
    assert_eq!(run.record.lost_after, None);
    assert!(!run.is_done());
    assert_eq!(run.record.shortfall(), Some(OutageShortfall::NeverLost));
    assert!(matches!(run.advance(at(320_000)), OutageAction::Fail(OutageFault::TimedOut(_))));
    run.record.lost_after = Some(ms(1));
    assert_eq!(run.record.shortfall(), Some(OutageShortfall::NeverReconnected));
}
