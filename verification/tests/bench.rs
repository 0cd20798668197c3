use herdr::bench::{
    bench_bridge_config, bench_root_name, bench_shortfall, bootstrap_outcome, bridge_arm,
    env_seconds, keystrokes, BenchKind, BenchShortfall, BootstrapReply, BootstrapWait,
    QuicBridgeConfig, RemoteTransport,
};
use herdr::clock::{Duration, Instant};
use herdr::measure::BlackoutRecord;
use herdr::metrics::ArmMetrics;

fn at(ms: u64) -> Instant {
    Instant { nanos: ms as u128 * 1_000_000 }
}

#[test]
fn settings_fall_back_to_their_defaults() {
    assert_eq!(keystrokes(None), 60);
    assert_eq!(keystrokes(Some("200")), 200);
    assert_eq!(keystrokes(Some("0")), 60);
    assert_eq!(keystrokes(Some("many")), 60);
    assert_eq!(keystrokes(Some("")), 60);
    assert_eq!(keystrokes(Some("99999999999999999999")), 60);
    assert_eq!(env_seconds(None, 200), 200);
    assert_eq!(env_seconds(Some("600"), 200), 600);
    assert_eq!(env_seconds(Some("+5"), 200), 5);
    assert_eq!(env_seconds(Some("-5"), 200), 200);
    assert_eq!(env_seconds(Some("0"), 200), 200);
    assert_eq!(env_seconds(Some("18446744073709551615"), 200), u64::MAX);
}

#[test]
fn a_benchmark_writes_below_a_name_of_its_own() {
    assert_eq!(bench_root_name(42, 1_700_000_000), "herdr-quic-bench-42-1700000000");
    assert_eq!(bench_root_name(0, 0), "herdr-quic-bench-0-0");
}

#[test]
fn an_arm_keeps_what_the_credential_is_planted_for() {
    let config =
        bench_bridge_config(BenchKind::Bench, 42, "default".to_string(), vec![1, 2, 3]);
    assert_eq!(config.target, "quic-bench-42");
    assert_eq!(config.remote_herdr, "/nonexistent/herdr");
    let changed = QuicBridgeConfig {
        ssh_options: Some("-4".to_string()),
        noninteractive: false,
        transport: RemoteTransport::Other,
        remote_herdr: "herdr".to_string(),
        ..config
    };
    let arm = bridge_arm(&changed);
    assert_eq!(arm.target, "quic-bench-42");
    assert_eq!(arm.session, "default");
    assert_eq!(arm.logical_client_id, vec![1, 2, 3]);
    assert_eq!(arm.remote_herdr, "/nonexistent/herdr");
    assert_eq!(arm.ssh_options, None);
    assert!(arm.noninteractive);
    assert_eq!(arm.transport, RemoteTransport::Auto);
    let scenario =
        bench_bridge_config(BenchKind::Scenario, 7, "default".to_string(), Vec::new());
    assert_eq!(scenario.target, "quic-scenario-7");
}

#[test]
fn a_bootstrap_reply_is_a_record_or_a_reason() {
    assert_eq!(bootstrap_outcome(BootstrapReply::Record(48_200u16)), Ok(48_200));
    let refused = BootstrapReply::<u16>::Refused(Some("no quic".to_string()));
    assert_eq!(bootstrap_outcome(refused), Err("no quic".to_string()));
    let silent = BootstrapReply::<u16>::Refused(None);
    assert_eq!(bootstrap_outcome(silent), Err("bootstrap refused".to_string()));
    let other = BootstrapReply::<u16>::Other("Welcome".to_string());
    assert_eq!(
        bootstrap_outcome(other),
        Err("unexpected bootstrap response: Welcome".to_string())
    );
}

#[test]
fn a_bootstrap_is_asked_for_until_its_deadline() {
    let mut wait = BootstrapWait::begin(at(0));
    assert!(wait.goes_on(at(29_999)));
    assert!(!wait.goes_on(at(30_000)));
    assert_eq!(
        wait.complaint(),
        "remote bootstrap never succeeded: server never accepted a connection"
    );
    wait.failed("bootstrap refused".to_string());
    assert_eq!(wait.complaint(), "remote bootstrap never succeeded: bootstrap refused");
    assert!(wait.goes_on(at(0)));
}

fn arm(echoes: usize, lost: usize) -> ArmMetrics {
    let mut arm = ArmMetrics::new("arm");
    for _ in 0..echoes {
        arm.record_echo(at(0), Some(at(1)));
    }
    for _ in 0..lost {
        arm.record_lost();
    }
    arm
}

fn blackout(recovery: Option<u64>, echoed: bool) -> BlackoutRecord {
    BlackoutRecord {
        window: Duration::from_secs(5),
        recovery: recovery.map(Duration::from_millis),
        echoed,
    }
}

#[test]
fn a_benchmark_names_its_first_shortfall() {
    let fine = || vec![blackout(Some(1), true), blackout(Some(2), true)];
    assert_eq!(bench_shortfall(&vec![arm(60, 0)], &fine()), None);
    assert_eq!(
        bench_shortfall(&vec![arm(60, 0), arm(59, 1)], &fine()),
        Some(BenchShortfall::LostKeystrokes(1))
    );
    assert_eq!(
        bench_shortfall(&vec![arm(0, 0), arm(59, 1)], &fine()),
        Some(BenchShortfall::NothingMeasured(0))
    );
    assert_eq!(
        bench_shortfall(&vec![arm(60, 0)], &vec![blackout(None, false)]),
        Some(BenchShortfall::UnmeasuredBlackouts)
    );
    assert_eq!(
        bench_shortfall(
            &vec![arm(60, 0)],
            &vec![blackout(Some(1), true), blackout(None, false)]
        ),
        Some(BenchShortfall::NoFrame(1))
    );
    assert_eq!(
        bench_shortfall(
            &vec![arm(60, 0)],
            &vec![blackout(Some(1), false), blackout(None, false)]
        ),
        Some(BenchShortfall::NoEcho(0))
    );
}
