use herdr::clock::{Duration, Instant};
use herdr::failure::{
    failure_needs_attention, handshake_error, ClientError, Failure, FailureKind,
};
use herdr::profile::{
    ClientEndpointId, ClientEndpointStatus, ConnectTarget, ProfileId, SavedSshEndpoint,
};
use herdr::supervisor::{
    retry_delay, EndpointSupervisors, FAST_RECONNECT_MAX_DELAY_MS, INITIAL_RETRY_DELAY_MS,
    MAX_RETRY_DELAY_MS,
};
use std::path::PathBuf;

fn now() -> Instant {
    Instant { nanos: 7_000_000_000 }
}

fn profile() -> SavedSshEndpoint {
    SavedSshEndpoint {
        id: ProfileId::new("0123456789abcdef0123456789abcdef".to_string()),
        label: "Build".into(),
        target: "build".into(),
        session: "agents".into(),
        enabled: true,
    }
}

fn other_profile() -> SavedSshEndpoint {
    SavedSshEndpoint {
        id: ProfileId::new("fedcba9876543210fedcba9876543210".to_string()),
        label: "Other".into(),
        target: "other".into(),
        session: "main".into(),
        enabled: true,
    }
}

#[test]
fn live_catalog_preserves_renamed_connections_and_local_recovery() {
    let now = now();
    let mut profile = profile();
    let id = ClientEndpointId::Ssh(profile.id.clone());
    let mut supervisors = EndpointSupervisors::new(&[profile.clone()], now);
    supervisors.add_local(PathBuf::from("local"), Some(1), now);
    let state = supervisors.endpoints.get_mut(&id).unwrap();
    state.generation = Some(7);
    state.attempts = 3;
    state.next_attempt = Some(now.plus(Duration::from_secs(4)));
    profile.label = "Renamed".into();
    assert!(supervisors.reconcile_profiles(&[profile], now).is_empty());
    let state = supervisors.endpoints.get(&id).unwrap();
    assert_eq!(state.generation, Some(7));
    assert_eq!(state.attempts, 3);
    assert_eq!(state.next_attempt, Some(now.plus(Duration::from_secs(4))));
    assert_eq!(
        supervisors
            .endpoints
            .get(&ClientEndpointId::Local)
            .unwrap()
            .generation,
        Some(1)
    );
}

#[test]
fn live_catalog_add_disable_enable_and_remove_fence_late_connections() {
    let now = now();
    let mut profile = profile();
    let id = ClientEndpointId::Ssh(profile.id.clone());
    let mut supervisors = EndpointSupervisors::new(&[], now);
    assert!(supervisors
        .reconcile_profiles(&[profile.clone()], now)
        .is_empty());
    assert_eq!(
        supervisors.endpoints.get(&id).unwrap().next_attempt,
        Some(now)
    );
    supervisors.endpoints.get_mut(&id).unwrap().generation = Some(7);
    supervisors.next_generation = 8;
    profile.enabled = false;
    assert_eq!(
        supervisors.reconcile_profiles(&[profile.clone()], now),
        vec![id.clone()]
    );
    assert!(!supervisors.record_status(&id, 7, ClientEndpointStatus::Online, now));
    profile.enabled = true;
    assert!(supervisors
        .reconcile_profiles(&[profile.clone()], now)
        .is_empty());
    assert!(!supervisors.record_status(&id, 7, ClientEndpointStatus::Online, now));
    assert_eq!(supervisors.next_generation, 8);
    assert_eq!(supervisors.reconcile_profiles(&[], now), vec![id.clone()]);
    assert!(!supervisors.record_status(&id, 7, ClientEndpointStatus::Online, now));
}

#[test]
fn live_catalog_destination_change_retires_only_that_machine() {
    let now = now();
    let mut changed = profile();
    let other = other_profile();
    let id = ClientEndpointId::Ssh(changed.id.clone());
    let other_id = ClientEndpointId::Ssh(other.id.clone());
    let mut supervisors = EndpointSupervisors::new(&[changed.clone(), other.clone()], now);
    supervisors.endpoints.get_mut(&id).unwrap().generation = Some(2);
    supervisors
        .endpoints
        .get_mut(&other_id)
        .unwrap()
        .generation = Some(3);
    changed.session = "another-session".into();
    assert_eq!(
        supervisors.reconcile_profiles(&[changed, other], now),
        vec![id.clone()]
    );
    assert_eq!(supervisors.endpoints.get(&id).unwrap().generation, None);
    assert_eq!(
        supervisors.endpoints.get(&other_id).unwrap().generation,
        Some(3)
    );
}

#[test]
fn retry_backoff_is_bounded() {
    assert_eq!(
        retry_delay(1),
        Duration::from_millis(INITIAL_RETRY_DELAY_MS)
    );
    assert_eq!(retry_delay(100), Duration::from_millis(MAX_RETRY_DELAY_MS));
}

/// Worst-case wait after the network returns, over the whole ladder: the
/// bridge's hint has to bring it from the 30 s cap to the 4 s one, and only for
/// the connection generation that sent it.
#[test]
fn a_bridge_reconnect_hint_caps_the_backoff_until_the_endpoint_is_online() {
    let now = now();
    let id = ClientEndpointId::Local;
    let mut supervisors = EndpointSupervisors::new(&[], now);
    supervisors.add_local(PathBuf::from("local"), Some(1), now);

    // A stale generation's hint is refused.
    assert!(!supervisors.expect_fast_reconnect(&id, 2));
    assert!(supervisors.expect_fast_reconnect(&id, 1));
    assert!(supervisors.disconnected(&id, 1, now));
    let mut delays = Vec::new();
    for attempt in 2..=8 {
        let state = supervisors.endpoints.get_mut(&id).unwrap();
        delays.push(
            state
                .next_attempt
                .unwrap()
                .saturating_duration_since(now),
        );
        state.generation = Some(attempt);
        state.in_flight = true;
        assert!(supervisors.record_status(
            &id,
            attempt,
            ClientEndpointStatus::Reconnecting,
            now
        ));
    }
    assert_eq!(
        delays,
        [500, 1000, 2000, 4000, 4000, 4000, 4000]
            .map(Duration::from_millis)
            .to_vec()
    );
    assert!(supervisors.endpoints.get(&id).unwrap().fast_reconnect);

    // Online consumes the hint: the next episode is paced by the full ladder
    // again unless the bridge sends another one.
    assert!(supervisors.record_status(&id, 8, ClientEndpointStatus::Online, now));
    assert!(!supervisors.endpoints.get(&id).unwrap().fast_reconnect);
    let state = supervisors.endpoints.get_mut(&id).unwrap();
    state.attempts = 6;
    state.in_flight = true;
    assert!(supervisors.disconnected(&id, 8, now));
    assert_eq!(
        supervisors.endpoints.get(&id).unwrap().next_attempt,
        Some(now.plus(Duration::from_millis(MAX_RETRY_DELAY_MS)))
    );
}

#[test]
fn the_fast_reconnect_cap_is_shorter_than_the_transport_dial() {
    // A reconnect attempt is a 2 s dial; capping the pause between attempts
    // keeps the client dialing more than it waits.
    assert!(FAST_RECONNECT_MAX_DELAY_MS < MAX_RETRY_DELAY_MS);
    assert!(
        Duration::from_millis(FAST_RECONNECT_MAX_DELAY_MS).nanos >= retry_delay(4).nanos
    );
}

#[test]
fn handshake_network_failures_retry_but_incompatibility_needs_attention() {
    let timeout = handshake_error(ClientError::ConnectionLost(Failure::new(
        FailureKind::TimedOut,
        "timed out".to_string(),
    )));
    for told in [false, true] {
        assert!(!failure_needs_attention(&timeout, told));
    }
    let rejected = handshake_error(ClientError::HandshakeRejected {
        version: 1,
        error: "surface capability missing".into(),
    });
    assert_eq!(rejected.kind(), FailureKind::Unsupported);
    for told in [false, true] {
        assert!(failure_needs_attention(&rejected, told));
    }
}

#[test]
fn healthy_local_only_retries_after_its_connection_fails() {
    let now = now();
    let mut supervisors = EndpointSupervisors::new(&[profile()], now);
    supervisors.add_local(PathBuf::from("local.sock"), Some(1), now);
    let next = |supervisors: &EndpointSupervisors, id: &ClientEndpointId| {
        supervisors.endpoints.get(id).unwrap().next_attempt
    };
    assert!(next(&supervisors, &ClientEndpointId::Local).is_none());
    assert!(!supervisors.disconnected(&ClientEndpointId::Local, 0, now));
    assert!(next(&supervisors, &ClientEndpointId::Local).is_none());
    assert!(supervisors.disconnected(&ClientEndpointId::Local, 1, now));
    assert_eq!(
        next(&supervisors, &ClientEndpointId::Local),
        Some(now.plus(Duration::from_millis(INITIAL_RETRY_DELAY_MS)))
    );
    assert_eq!(
        next(&supervisors, &ClientEndpointId::Ssh(profile().id)),
        Some(now)
    );
}

#[test]
fn ssh_recovery_rejects_stale_generations_and_stops_retries_for_attention() {
    let now = now();
    let mut supervisors = EndpointSupervisors::new(&[profile()], now);
    let endpoint_id = ClientEndpointId::Ssh(profile().id);
    supervisors
        .endpoints
        .get_mut(&endpoint_id)
        .unwrap()
        .generation = Some(4);
    assert!(supervisors.record_status(&endpoint_id, 4, ClientEndpointStatus::Online, now));
    assert!(!supervisors.disconnected(&endpoint_id, 3, now));
    assert!(supervisors
        .endpoints
        .get(&endpoint_id)
        .unwrap()
        .next_attempt
        .is_none());
    assert!(supervisors.disconnected(&endpoint_id, 4, now));
    assert_eq!(
        supervisors.endpoints.get(&endpoint_id).unwrap().next_attempt,
        Some(now.plus(Duration::from_millis(INITIAL_RETRY_DELAY_MS)))
    );
    assert!(supervisors.record_status(&endpoint_id, 4, ClientEndpointStatus::Attention, now));
    assert!(supervisors
        .endpoints
        .get(&endpoint_id)
        .unwrap()
        .next_attempt
        .is_none());
}

#[test]
fn due_attempts_start_once_with_fresh_generations() {
    let now = now();
    let later = now.plus(Duration::from_secs(600));
    let mut supervisors = EndpointSupervisors::new(&[profile(), other_profile()], now);
    supervisors.add_local(PathBuf::from("local"), None, later);
    let attempts = supervisors.spawn_due(now);
    let started: Vec<(ClientEndpointId, u64)> = attempts
        .iter()
        .map(|attempt| (attempt.endpoint_id.clone(), attempt.generation))
        .collect();
    assert_eq!(
        started,
        vec![
            (ClientEndpointId::Ssh(profile().id), 2),
            (ClientEndpointId::Ssh(other_profile().id), 3),
        ]
    );
    assert_eq!(attempts[0].target, ConnectTarget::Ssh(profile()));
    assert_eq!(supervisors.next_generation, 4);
    let state = supervisors
        .endpoints
        .get(&ClientEndpointId::Ssh(profile().id))
        .unwrap();
    assert!(state.in_flight);
    assert_eq!(state.next_attempt, None);
    assert_eq!(state.generation, Some(2));
    assert!(supervisors.spawn_due(now).is_empty());
    let local = supervisors.spawn_due(later);
    assert_eq!(local.len(), 1);
    assert_eq!(local[0].endpoint_id, ClientEndpointId::Local);
    assert_eq!(local[0].target, ConnectTarget::Local(PathBuf::from("local")));
    assert_eq!(local[0].generation, 4);
}

#[test]
fn generations_stay_at_the_last_one() {
    let now = now();
    let mut supervisors = EndpointSupervisors::new(&[profile(), other_profile()], now);
    supervisors.next_generation = u64::MAX;
    let attempts = supervisors.spawn_due(now);
    assert_eq!(attempts.len(), 2);
    assert_eq!(attempts[0].generation, u64::MAX);
    assert_eq!(attempts[1].generation, u64::MAX);
    assert_eq!(supervisors.next_generation, u64::MAX);
}

#[test]
fn the_last_of_two_profiles_with_one_name_is_followed() {
    let now = now();
    let mut moved = profile();
    moved.target = "elsewhere".into();
    let mut supervisors = EndpointSupervisors::new(&[profile(), moved.clone()], now);
    assert_eq!(supervisors.endpoints.len(), 1);
    let id = ClientEndpointId::Ssh(profile().id);
    assert_eq!(
        supervisors.endpoints.get(&id).unwrap().target,
        ConnectTarget::Ssh(moved.clone())
    );
    assert!(supervisors
        .reconcile_profiles(&[profile(), moved], now)
        .is_empty());
}

#[test]
fn following_the_catalog_twice_changes_nothing() {
    let now = now();
    let later = now.plus(Duration::from_secs(1));
    let mut supervisors = EndpointSupervisors::new(&[profile()], now);
    assert_eq!(
        supervisors.reconcile_profiles(&[other_profile()], now),
        vec![ClientEndpointId::Ssh(profile().id)]
    );
    assert!(supervisors
        .reconcile_profiles(&[other_profile()], later)
        .is_empty());
    let state = supervisors
        .endpoints
        .get(&ClientEndpointId::Ssh(other_profile().id))
        .unwrap();
    assert_eq!(state.next_attempt, Some(now));
    assert_eq!(supervisors.endpoints.len(), 1);
}

#[test]
fn the_ladder_doubles_from_half_a_second_to_thirty() {
    let ladder: Vec<u128> = (0..=9)
        .map(|attempt| retry_delay(attempt).nanos / 1_000_000)
        .collect();
    assert_eq!(
        ladder,
        vec![500, 500, 1000, 2000, 4000, 8000, 16000, 30000, 30000, 30000]
    );
    assert_eq!(
        retry_delay(u32::MAX),
        Duration::from_millis(MAX_RETRY_DELAY_MS)
    );
}
