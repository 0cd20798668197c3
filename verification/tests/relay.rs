use herdr::clock::{Duration, Instant};
use herdr::relay::{
    three_g_profile, Arrival, NetworkMode, PacketCount, Relay, RelayCounters, ShapingProfile,
};

const SERVER: u8 = 1;
const CLIENT: u8 = 2;

fn ms(ms: u64) -> Duration {
    Duration::from_millis(ms)
}

fn at(ms: u64) -> Instant {
    Instant { nanos: ms as u128 * 1_000_000 }
}

fn up(now: Instant, length: usize, serialization: Duration) -> Arrival<u8> {
    Arrival { from_server: false, source: CLIENT, length, at: now, serialization }
}

fn down(now: Instant, length: usize, serialization: Duration) -> Arrival<u8> {
    Arrival { from_server: true, source: SERVER, length, at: now, serialization }
}

#[test]
fn counters_tell_the_directions_apart() {
    let mut counters = RelayCounters::new();
    let before = counters.snapshot();
    assert_eq!(before, PacketCount::none());
    counters.record(false, 100);
    counters.record(true, 30);
    counters.record(true, 7);
    let after = counters.snapshot();
    let expected = PacketCount { up_packets: 1, up_bytes: 100, down_packets: 2, down_bytes: 37 };
    assert_eq!(after, expected);
    assert_eq!(after.since(before), expected);
    assert_eq!(after.since(after), PacketCount::none());
    assert_eq!(before.since(after), PacketCount::none());
}

#[test]
fn counters_wrap_around() {
    let mut counters = RelayCounters {
        up_packets: u64::MAX,
        up_bytes: u64::MAX - 1,
        down_packets: 0,
        down_bytes: 0,
    };
    counters.record(false, 3);
    assert_eq!(counters.up_packets, 0);
    assert_eq!(counters.up_bytes, 1);
}

#[test]
fn the_server_is_answered_at_the_last_client() {
    let profile = three_g_profile();
    let mut relay = Relay::new(SERVER, at(0));
    // Nobody to pass it on to yet; it is counted and has no number.
    assert!(relay.forward(&profile, NetworkMode::Online, down(at(0), 10, ms(0))).is_none());
    assert_eq!(relay.packet_index, 0);
    assert_eq!(relay.counters.snapshot().down_packets, 1);
    let onward = relay.forward(&profile, NetworkMode::Online, up(at(1), 10, ms(9))).unwrap();
    assert_eq!(onward.target, SERVER);
    assert_eq!(onward.delay, ms(0));
    let back = relay.forward(&profile, NetworkMode::Online, down(at(2), 10, ms(9))).unwrap();
    assert_eq!(back.target, CLIENT);
    assert_eq!(back.delay, ms(0));
    assert_eq!(relay.packet_index, 2);
}

#[test]
fn an_outage_drops_both_directions_and_still_counts() {
    let profile = three_g_profile();
    let mut relay = Relay::new(SERVER, at(0));
    assert!(relay.forward(&profile, NetworkMode::Blackhole, up(at(1), 10, ms(1))).is_none());
    assert!(relay.forward(&profile, NetworkMode::Blackhole, down(at(1), 20, ms(1))).is_none());
    assert_eq!(
        relay.counters.snapshot(),
        PacketCount { up_packets: 1, up_bytes: 10, down_packets: 1, down_bytes: 20 }
    );
    assert_eq!(relay.next_upstream, at(0));
    assert_eq!(relay.next_downstream, at(0));
    assert_eq!(relay.packet_index, 2);
}

#[test]
fn a_shaped_burst_pays_for_itself() {
    let profile = three_g_profile();
    let mut relay = Relay::new(SERVER, at(0));
    // Latency of datagram n is 130 ms and 17 n modulo 41 of jitter.
    let first = relay.forward(&profile, NetworkMode::ThreeG, up(at(10), 938, ms(10))).unwrap();
    assert_eq!(first.delay, ms(10 + 130 + 17));
    let second = relay.forward(&profile, NetworkMode::ThreeG, up(at(10), 938, ms(10))).unwrap();
    assert_eq!(second.delay, ms(20 + 130 + 34));
    assert_eq!(relay.next_upstream, at(30));
    assert_eq!(relay.next_downstream, at(0));
    let third = relay.forward(&profile, NetworkMode::ThreeG, down(at(10), 100, ms(1))).unwrap();
    assert_eq!(third.delay, ms(1 + 130 + 10));
    assert_eq!(third.target, CLIENT);
    // An idle link has nothing queued.
    let later = relay.forward(&profile, NetworkMode::ThreeG, up(at(500), 938, ms(10))).unwrap();
    assert_eq!(later.delay, ms(10 + 130 + 27));
}

#[test]
fn one_in_a_hundred_and_one_is_lost_when_shaped() {
    let profile = three_g_profile();
    let mut relay = Relay::new(SERVER, at(0));
    let mut lost = Vec::new();
    for number in 1..=202u64 {
        if relay
            .forward(&profile, NetworkMode::ThreeG, up(at(number), 1, ms(0)))
            .is_none()
        {
            lost.push(number);
        }
    }
    assert_eq!(lost, vec![101, 202]);
    // Online nothing is lost, whatever its number.
    let mut relay = Relay::new(SERVER, at(0));
    for number in 1..=202u64 {
        assert!(relay
            .forward(&profile, NetworkMode::Online, up(at(number), 1, ms(0)))
            .is_some());
    }
}

#[test]
fn the_latency_stays_in_its_span() {
    let profile = ShapingProfile { loss_every_nth: None, ..three_g_profile() };
    let mut relay = Relay::new(SERVER, at(0));
    let mut shortest = ms(1_000);
    let mut longest = ms(0);
    for number in 1..=41u64 {
        let onward = relay
            .forward(&profile, NetworkMode::ThreeG, up(at(number), 1, ms(0)))
            .unwrap();
        if onward.delay.nanos < shortest.nanos {
            shortest = onward.delay;
        }
        if onward.delay.nanos > longest.nanos {
            longest = onward.delay;
        }
    }
    assert_eq!(shortest, ms(130));
    assert_eq!(longest, ms(170));
}

#[test]
fn each_direction_has_its_rate() {
    let profile = three_g_profile();
    assert_eq!(profile.bytes_per_second(true), 200_000);
    assert_eq!(profile.bytes_per_second(false), 93_750);
}
