use herdr::bench::{keystrokes, BLACKOUTS};
use herdr::clock::{Duration, Instant};
use herdr::measure::{
    BlackoutRecord, Keystroke, KeystrokeStage, PathProbe, ProbeStage, TypingAction, TypingEvent,
};
use herdr::metrics::ArmMetrics;
use herdr::screen::marker_for;
use herdr::script::{arm_script, flap_script, ArmStep, FLAPS, KEYSTROKES_PER_FLAP};

fn at(ms: u64) -> Instant {
    Instant { nanos: ms as u128 * 1_000_000 }
}

fn done(ms: u64) -> TypingEvent {
    TypingEvent::Performed(at(ms))
}

fn seen(ms: u64) -> TypingEvent {
    TypingEvent::Seen(Some(at(ms)))
}

fn sent(action: TypingAction) -> Vec<u8> {
    match action {
        TypingAction::Send(data) => data,
        _ => panic!("expected to send"),
    }
}

fn drains(action: TypingAction) -> Instant {
    match action {
        TypingAction::DrainUntil(deadline) => deadline,
        _ => panic!("expected to drain"),
    }
}

fn awaited(action: TypingAction) -> (String, Instant) {
    match action {
        TypingAction::AwaitMarker { marker, deadline } => (marker, deadline),
        _ => panic!("expected to wait for a marker"),
    }
}

#[test]
fn a_keystroke_is_typed_timed_and_erased() {
    let mut metrics = ArmMetrics::new("arm");
    let (mut keystroke, action) = Keystroke::begin("aaaaa".to_string());
    assert!(matches!(action, TypingAction::SendAfresh(data) if data == b"aaaaa".to_vec()));
    let action = keystroke.step(done(100), &mut metrics);
    assert_eq!(awaited(action), ("aaaaa".to_string(), at(10_100)));
    let action = keystroke.step(seen(142), &mut metrics);
    assert_eq!(sent(action), vec![0x15]);
    let action = keystroke.step(done(150), &mut metrics);
    assert_eq!(drains(action), at(400));
    assert!(matches!(keystroke.step(done(400), &mut metrics), TypingAction::Done));
    assert_eq!(keystroke.stage, KeystrokeStage::Done);
    assert_eq!(metrics.latencies, vec![Duration::from_millis(42)]);
    assert_eq!(metrics.lost, 0);
}

#[test]
fn a_keystroke_without_echo_is_lost() {
    let mut metrics = ArmMetrics::new("arm");
    let (mut keystroke, _) = Keystroke::begin("bbbbb".to_string());
    keystroke.step(done(0), &mut metrics);
    let action = keystroke.step(TypingEvent::Seen(None), &mut metrics);
    assert_eq!(sent(action), vec![0x15]);
    assert_eq!(metrics.lost, 1);
    assert!(metrics.latencies.is_empty());
}

#[test]
fn a_blackout_is_probed_and_timed_from_its_end() {
    let mut metrics = ArmMetrics::new("arm");
    let window = Duration::from_secs(5);
    let (mut probe, action) = PathProbe::blackout(window);
    assert!(matches!(action, TypingAction::CutPath));
    assert_eq!(probe.marker, "00005");
    assert_eq!(drains(probe.step(done(1_000), &mut metrics)), at(1_500));
    assert_eq!(sent(probe.step(done(1_500), &mut metrics)), b"00005".to_vec());
    assert_eq!(drains(probe.step(done(1_501), &mut metrics)), at(6_000));
    assert!(matches!(probe.step(done(6_000), &mut metrics), TypingAction::RestorePath));
    assert!(matches!(
        probe.step(done(6_010), &mut metrics),
        TypingAction::AwaitFrame(deadline) if deadline == at(36_010)
    ));
    assert_eq!(
        awaited(probe.step(seen(6_310), &mut metrics)),
        ("00005".to_string(), at(36_010))
    );
    assert_eq!(sent(probe.step(seen(6_510), &mut metrics)), vec![0x15]);
    assert_eq!(drains(probe.step(done(6_600), &mut metrics)), at(6_850));
    assert!(matches!(probe.step(done(6_850), &mut metrics), TypingAction::Done));
    assert_eq!(probe.stage, ProbeStage::Done);
    assert_eq!(probe.echo, Some(Duration::from_millis(500)));
    assert_eq!(
        probe.blackout_record(),
        BlackoutRecord {
            window,
            recovery: Some(Duration::from_millis(300)),
            echoed: true,
        }
    );
    assert_eq!(metrics.lost, 0);
    assert!(metrics.latencies.is_empty());
}

#[test]
fn a_path_that_stays_dead_loses_the_keystroke() {
    let mut metrics = ArmMetrics::new("arm");
    let (mut probe, _) = PathProbe::begin("00001".to_string(), Duration::from_secs(1));
    for moment in [0, 500, 501, 1_000, 1_001] {
        probe.step(done(moment), &mut metrics);
    }
    probe.step(TypingEvent::Seen(None), &mut metrics);
    assert_eq!(metrics.lost, 0);
    probe.step(TypingEvent::Seen(None), &mut metrics);
    assert_eq!(metrics.lost, 1);
    assert_eq!(probe.recovery, None);
    assert!(!probe.blackout_record().echoed);
}

#[test]
fn an_arm_books_every_keystroke() {
    let mut metrics = ArmMetrics::new("arm");
    for step in arm_script(3, 2) {
        match step {
            ArmStep::Keystroke(index) => {
                let (mut keystroke, _) = Keystroke::begin(marker_for(index));
                keystroke.step(done(0), &mut metrics);
                let echo = if index == 1 { TypingEvent::Seen(None) } else { seen(5) };
                keystroke.step(echo, &mut metrics);
                keystroke.step(done(6), &mut metrics);
                keystroke.step(done(300), &mut metrics);
            }
            ArmStep::Outage(index) => {
                let (mut probe, _) = PathProbe::begin("00001".to_string(), Duration::from_secs(1));
                for moment in [0, 500, 501, 1_000, 1_001] {
                    probe.step(done(moment), &mut metrics);
                }
                probe.step(seen(1_100), &mut metrics);
                let echo = if index == 0 { TypingEvent::Seen(None) } else { seen(1_200) };
                probe.step(echo, &mut metrics);
                probe.step(done(1_300), &mut metrics);
                probe.step(done(1_550), &mut metrics);
            }
        }
    }
    // Three keystrokes, one of them lost, and one outage without an echo.
    assert_eq!(metrics.latencies.len(), 2);
    assert_eq!(metrics.lost, 2);
}

#[test]
fn latencies_are_ranked() {
    let mut metrics = ArmMetrics::new("arm");
    assert_eq!(metrics.ranked_latency(1), None);
    for ms in [30u64, 10, 20, 10] {
        metrics.record_echo(at(0), Some(at(ms)));
    }
    let ranked: Vec<u128> = (0..6)
        .map(|rank| metrics.ranked_latency(rank).unwrap().nanos / 1_000_000)
        .collect();
    assert_eq!(ranked, vec![10, 10, 10, 20, 30, 30]);
    metrics.record_echo(at(9), Some(at(5)));
    assert_eq!(metrics.ranked_latency(1), Some(Duration::zero()));
    metrics.record_echo(at(0), None);
    metrics.record_lost();
    assert_eq!(metrics.lost, 2);
    assert_eq!(metrics.name, "arm");
    assert_eq!(metrics.latencies.len(), 5);
}

#[test]
fn two_blackouts_are_spaced_through_sixty_keystrokes() {
    let steps = arm_script(60, 2);
    assert_eq!(steps.len(), 62);
    assert_eq!(steps[19], ArmStep::Keystroke(19));
    assert_eq!(steps[20], ArmStep::Outage(0));
    assert_eq!(steps[21], ArmStep::Keystroke(20));
    assert_eq!(steps[41], ArmStep::Outage(1));
    assert_eq!(steps[61], ArmStep::Keystroke(59));
}

#[test]
fn every_outage_lies_between_keystrokes() {
    for count in 0..20 {
        for outages in 0..5 {
            let steps = arm_script(count, outages);
            let typed: Vec<usize> = steps
                .iter()
                .filter_map(|step| match step {
                    ArmStep::Keystroke(index) => Some(*index),
                    ArmStep::Outage(_) => None,
                })
                .collect();
            assert_eq!(typed, (0..count).collect::<Vec<_>>());
            let run: Vec<usize> = steps
                .iter()
                .filter_map(|step| match step {
                    ArmStep::Keystroke(_) => None,
                    ArmStep::Outage(index) => Some(*index),
                })
                .collect();
            let expected = if count > 0 { outages } else { 0 };
            assert_eq!(run, (0..expected).collect::<Vec<_>>());
            if count > 1 {
                assert!(matches!(steps[0], ArmStep::Keystroke(_)));
                assert!(matches!(steps[steps.len() - 1], ArmStep::Keystroke(_)));
            }
            for (place, step) in steps.iter().enumerate() {
                if count > outages && matches!(step, ArmStep::Outage(_)) {
                    assert!(matches!(steps[place - 1], ArmStep::Keystroke(_)));
                    assert!(matches!(steps[place + 1], ArmStep::Keystroke(_)));
                }
            }
        }
    }
}

#[test]
fn both_windows_are_measured_with_few_keystrokes() {
    for setting in ["1", "2", "3"] {
        let count = keystrokes(Some(setting));
        let steps = arm_script(count, BLACKOUTS);
        let outages = steps.iter().filter(|step| matches!(step, ArmStep::Outage(_)));
        assert_eq!(outages.count(), 2, "{setting} keystrokes");
    }
    assert_eq!(
        arm_script(2, 2),
        vec![
            ArmStep::Keystroke(0),
            ArmStep::Outage(0),
            ArmStep::Outage(1),
            ArmStep::Keystroke(1),
        ]
    );
    assert_eq!(arm_script(0, 2), vec![]);
}

#[test]
fn flaps_alternate_with_runs_of_keystrokes() {
    let steps = flap_script(FLAPS, KEYSTROKES_PER_FLAP);
    assert_eq!(steps.len(), 44);
    assert_eq!(steps[7], ArmStep::Keystroke(7));
    assert_eq!(steps[8], ArmStep::Outage(0));
    assert_eq!(steps[9], ArmStep::Keystroke(8));
    assert_eq!(steps[17], ArmStep::Outage(1));
    assert_eq!(steps[43], ArmStep::Keystroke(39));
    assert_eq!(flap_script(0, 2), vec![ArmStep::Keystroke(0), ArmStep::Keystroke(1)]);
    assert_eq!(flap_script(2, 0), vec![ArmStep::Outage(0), ArmStep::Outage(1)]);
}
