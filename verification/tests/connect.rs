use herdr::connect::{
    attempt_report, AttemptOutcome, ClientSurfaceSize, ConnectAction, ConnectEvent, ConnectOnce,
    ConnectStage, EndpointConnectOptions, Handshake, HandshakeRequest, RenderEncoding,
};
use herdr::failure::{
    failure_needs_attention, handshake_error, local_connect_failure, ssh_connect_failure,
    ClientError, Failure, FailureKind, FramingError,
};
use herdr::profile::{
    ClientEndpointId, ClientEndpointStatus, ConnectTarget, ProfileId, SavedSshEndpoint,
};
use std::path::PathBuf;

fn options() -> EndpointConnectOptions {
    EndpointConnectOptions {
        cols: 100,
        rows: 30,
        cell_width_px: 8,
        cell_height_px: 16,
        pixel_geometry_exact: true,
        surface_size: ClientSurfaceSize { cols: 98, rows: 28 },
        endpoint_keybindings: false,
        mouse_capture: true,
    }
}

fn machine() -> SavedSshEndpoint {
    SavedSshEndpoint {
        id: ProfileId::new("m1".to_string()),
        label: "Build".into(),
        target: "build".into(),
        session: "agents".into(),
        enabled: true,
    }
}

fn local() -> (ConnectOnce, ConnectAction) {
    let target = ConnectTarget::Local(PathBuf::from("/run/herdr.sock"));
    ConnectOnce::begin(target, options(), ClientEndpointId::Local, 6)
}

fn remote() -> (ConnectOnce, ConnectAction) {
    ConnectOnce::begin(
        ConnectTarget::Ssh(machine()),
        options(),
        ClientEndpointId::Ssh(machine().id),
        7,
    )
}

fn failure(kind: FailureKind, words: &str) -> Failure {
    Failure::new(kind, words.to_string())
}

fn failed(action: ConnectAction) -> Failure {
    match action {
        ConnectAction::Failed(failure) => failure,
        _ => panic!("expected a failure"),
    }
}

fn agreed() -> Handshake {
    Handshake {
        encoding: RenderEncoding::SemanticFrame,
        surface_interest: true,
        health_check: true,
    }
}

#[test]
fn an_attempt_dials_shakes_hands_and_hands_over() {
    let (mut attempt, action) = local();
    assert!(matches!(
        action,
        ConnectAction::DialLocal(path) if path == PathBuf::from("/run/herdr.sock")
    ));
    let request = match attempt.step(ConnectEvent::Dialed) {
        ConnectAction::ShakeHands(request) => request,
        _ => panic!("expected the handshake"),
    };
    assert_eq!(
        request,
        HandshakeRequest {
            cols: 100,
            rows: 30,
            cell_width_px: 8,
            cell_height_px: 16,
            pixel_geometry_exact: true,
            surface_size: Some(ClientSurfaceSize { cols: 98, rows: 28 }),
            endpoint_keybindings: false,
            mouse_capture: true,
            last_switch: false,
        }
    );
    // The local server need not answer health pings.
    let handshake = Handshake { health_check: false, ..agreed() };
    assert!(matches!(
        attempt.step(ConnectEvent::HandshakeDone(handshake)),
        ConnectAction::CloneReader
    ));
    assert!(matches!(attempt.step(ConnectEvent::ReaderCloned), ConnectAction::WrapWriter));
    assert!(matches!(
        attempt.step(ConnectEvent::WriterWrapped),
        ConnectAction::Connected { endpoint_id: ClientEndpointId::Local, generation: 6, handshake: had }
            if had == handshake
    ));
    assert_eq!(attempt.stage, ConnectStage::Ended);
}

#[test]
fn an_absent_local_socket_is_transient() {
    let (mut attempt, _) = local();
    let ended = failed(attempt.step(ConnectEvent::DialFailed {
        error: failure(FailureKind::NotFound, "no such file"),
        told: false,
        bootstrap_command: String::new(),
    }));
    assert_eq!(ended.kind(), FailureKind::ConnectionRefused);
    assert_eq!(ended.message, "Local is unavailable; start its server to reconnect");
    assert!(!failure_needs_attention(&ended, false));
    assert_eq!(attempt.stage, ConnectStage::Ended);
    let other = local_connect_failure(failure(FailureKind::PermissionDenied, "denied"));
    assert_eq!(other, failure(FailureKind::PermissionDenied, "denied"));
}

#[test]
fn a_missing_install_says_how_to_set_the_machine_up() {
    let (mut attempt, action) = remote();
    assert!(matches!(action, ConnectAction::DialSsh(profile) if profile == machine()));
    let ended = failed(attempt.step(ConnectEvent::DialFailed {
        error: failure(FailureKind::NotFound, "herdr is not installed"),
        told: true,
        bootstrap_command: "herdr remote build".to_string(),
    }));
    assert_eq!(ended.kind(), FailureKind::NotFound);
    assert_eq!(
        ended.message,
        "herdr is not installed. Run `herdr remote build` interactively to approve setup, then restart this client"
    );
    let slow = failure(FailureKind::TimedOut, "timed out");
    let passing = ssh_connect_failure(slow, true, "setup");
    assert_eq!(passing, failure(FailureKind::TimedOut, "timed out"));
    let denied = || failure(FailureKind::PermissionDenied, "denied");
    assert_eq!(ssh_connect_failure(denied(), false, "setup"), denied());
    assert_eq!(
        ssh_connect_failure(denied(), true, "setup").message,
        "denied. Run `setup` interactively to approve setup, then restart this client"
    );
}

#[test]
fn another_encoding_is_refused() {
    let (mut attempt, _) = local();
    attempt.step(ConnectEvent::Dialed);
    let handshake = Handshake { encoding: RenderEncoding::Other, ..agreed() };
    let ended = failed(attempt.step(ConnectEvent::HandshakeDone(handshake)));
    assert_eq!(ended.kind(), FailureKind::InvalidData);
    assert_eq!(ended.message, "endpoint did not negotiate the semantic client shell");
}

#[test]
fn an_outdated_server_needs_an_update() {
    for (surface_interest, health_check) in [(false, true), (true, false)] {
        let (mut attempt, _) = remote();
        attempt.step(ConnectEvent::Dialed);
        let handshake = Handshake { surface_interest, health_check, ..agreed() };
        let ended = failed(attempt.step(ConnectEvent::HandshakeDone(handshake)));
        assert_eq!(ended.kind(), FailureKind::Unsupported);
        assert_eq!(
            ended.message,
            "this machine needs a server update before it can participate in multi-machine viewing"
        );
        assert!(failure_needs_attention(&ended, false));
    }
    let (mut attempt, _) = remote();
    attempt.step(ConnectEvent::Dialed);
    assert!(matches!(
        attempt.step(ConnectEvent::HandshakeDone(agreed())),
        ConnectAction::CloneReader
    ));
    attempt.step(ConnectEvent::ReaderCloned);
    assert!(matches!(
        attempt.step(ConnectEvent::WriterWrapped),
        ConnectAction::Connected { endpoint_id, generation: 7, .. }
            if endpoint_id == ClientEndpointId::Ssh(machine().id)
    ));
}

#[test]
fn a_stream_that_breaks_ends_the_attempt() {
    let (mut attempt, _) = local();
    attempt.step(ConnectEvent::Dialed);
    attempt.step(ConnectEvent::HandshakeDone(agreed()));
    let broken = failure(FailureKind::BrokenPipe, "gone");
    assert_eq!(
        failed(attempt.step(ConnectEvent::StreamFailed(broken))),
        failure(FailureKind::BrokenPipe, "gone")
    );
    let (mut attempt, _) = local();
    attempt.step(ConnectEvent::Dialed);
    let lost = ClientError::ConnectionFailed(failure(FailureKind::ConnectionReset, "reset"));
    assert_eq!(
        failed(attempt.step(ConnectEvent::HandshakeFailed(lost))),
        failure(FailureKind::ConnectionReset, "reset")
    );
}

#[test]
fn every_handshake_error_becomes_a_failure() {
    let inner = || failure(FailureKind::UnexpectedEof, "eof");
    assert_eq!(handshake_error(ClientError::ConnectionFailed(inner())), inner());
    assert_eq!(handshake_error(ClientError::ConnectionLost(inner())), inner());
    assert_eq!(handshake_error(ClientError::Protocol(FramingError::Io(inner()))), inner());
    assert_eq!(
        handshake_error(ClientError::Protocol(FramingError::Malformed("too long".into()))),
        failure(FailureKind::InvalidData, "too long")
    );
    assert_eq!(
        handshake_error(ClientError::HandshakeRejected { version: 3, error: "old".into() }),
        failure(FailureKind::Unsupported, "old")
    );
    assert_eq!(
        handshake_error(ClientError::ServerShutdown { reason: Some("bye".into()) }),
        failure(FailureKind::ConnectionAborted, "bye")
    );
    assert_eq!(
        handshake_error(ClientError::ServerShutdown { reason: None }),
        failure(FailureKind::ConnectionAborted, "server shut down during handshake")
    );
}

#[test]
fn attempts_report_how_they_ended() {
    let id = ClientEndpointId::Ssh(machine().id);
    assert!(attempt_report(id.clone(), 4, AttemptOutcome::Connected).is_none());
    let failed = |kind, words, told| AttemptOutcome::Failed { failure: failure(kind, words), told };
    let outcome = failed(FailureKind::Unsupported, "old", false);
    let report = attempt_report(id.clone(), 4, outcome).unwrap();
    assert_eq!(report.endpoint_id, id);
    assert_eq!(report.generation, 4);
    assert_eq!(report.status, ClientEndpointStatus::Attention);
    assert_eq!(report.message, "old");
    for (told, status) in [
        (false, ClientEndpointStatus::Reconnecting),
        (true, ClientEndpointStatus::Attention),
    ] {
        for kind in [
            FailureKind::PermissionDenied,
            FailureKind::NotFound,
            FailureKind::ConnectionRefused,
        ] {
            let outcome = failed(kind, "what the transport says", told);
            assert_eq!(attempt_report(id.clone(), 4, outcome).unwrap().status, status);
        }
    }
    let outcome = failed(FailureKind::TimedOut, "timed out", true);
    let report = attempt_report(id.clone(), 5, outcome).unwrap();
    assert_eq!(report.status, ClientEndpointStatus::Reconnecting);
    assert_eq!(report.message, "timed out");
    let outcome = AttemptOutcome::Crashed("panicked".to_string());
    let report = attempt_report(id, 6, outcome).unwrap();
    assert_eq!(report.status, ClientEndpointStatus::Reconnecting);
    assert_eq!(report.message, "endpoint connection task stopped unexpectedly: panicked");
}
