//! The shaped hop between client and server: what it counts, drops and delays.
use crate::clock::{millis, Duration, Instant, MAX_DURATION_NANOS};
use vstd::prelude::*;

verus! {

/// How the hop treats datagrams.
#[derive(Clone, Copy, Debug, PartialEq, Eq, Structural)]
pub enum NetworkMode {
    /// Forwards immediately: measures the bridge, not the link.
    Online,
    ThreeG,
    /// Drops every datagram, in both directions.
    Blackhole,
}

/// Delay, jitter, bandwidth and loss of a shaped link.
#[derive(Clone, Copy, Debug, PartialEq, Eq, Structural)]
pub struct ShapingProfile {
    pub down_bytes_per_second: u64,
    pub up_bytes_per_second: u64,
    pub base_latency_ms: u64,
    pub jitter_span_ms: u64,
    /// `Some(n)` drops 1-in-`n` datagrams deterministically.
    pub loss_every_nth: Option<u64>,
}

/// 1.6 Mbit/s down, 0.75 Mbit/s up, 260-340 ms RTT, ~0.99% loss.
pub open spec fn three_g() -> ShapingProfile {
    ShapingProfile {
        down_bytes_per_second: 200_000,
        up_bytes_per_second: 93_750,
        base_latency_ms: 130,
        jitter_span_ms: 41,
        loss_every_nth: Some(101),
    }
}

pub fn three_g_profile() -> (profile: ShapingProfile)
    ensures
        profile == three_g(),
        profile.wf(),
{
    ShapingProfile {
        down_bytes_per_second: 200_000,
        up_bytes_per_second: 93_750,
        base_latency_ms: 130,
        jitter_span_ms: 41,
        loss_every_nth: Some(101),
    }
}

impl ShapingProfile {
    /// There is jitter to spread over, and the latest delivery can be counted.
    pub open spec fn wf(self) -> bool {
        &&& self.jitter_span_ms > 0
        &&& self.base_latency_ms + self.jitter_span_ms - 1 <= u64::MAX
    }

    /// Whether the shaped link loses the `index`-th datagram.
    pub open spec fn loses(self, index: u64) -> bool {
        self.loss_every_nth matches Some(n) && index.is_multiple_of(n)
    }

    /// One-way latency of the `index`-th datagram, without queueing.
    pub open spec fn latency_ms(self, index: u64) -> int {
        self.base_latency_ms + index.wrapping_mul(17) % self.jitter_span_ms
    }

    /// Bandwidth in the given direction.
    pub fn bytes_per_second(&self, from_server: bool) -> (rate: u64)
        ensures
            rate == if from_server {
                self.down_bytes_per_second
            } else {
                self.up_bytes_per_second
            },
    {
        if from_server {
            self.down_bytes_per_second
        } else {
            self.up_bytes_per_second
        }
    }
}

/// Wire traffic. `up` is client to server.
#[derive(Clone, Copy, Debug, PartialEq, Eq, Structural)]
pub struct PacketCount {
    pub up_packets: u64,
    pub up_bytes: u64,
    pub down_packets: u64,
    pub down_bytes: u64,
}

impl PacketCount {
    pub fn none() -> (count: PacketCount)
        ensures
            count == (PacketCount { up_packets: 0, up_bytes: 0, down_packets: 0, down_bytes: 0 }),
    {
        PacketCount { up_packets: 0, up_bytes: 0, down_packets: 0, down_bytes: 0 }
    }

    /// The traffic between an earlier snapshot and this one.
    pub fn since(self, earlier: PacketCount) -> (count: PacketCount)
        ensures
            count == self.minus(earlier),
    {
        PacketCount {
            up_packets: self.up_packets.saturating_sub(earlier.up_packets),
            up_bytes: self.up_bytes.saturating_sub(earlier.up_bytes),
            down_packets: self.down_packets.saturating_sub(earlier.down_packets),
            down_bytes: self.down_bytes.saturating_sub(earlier.down_bytes),
        }
    }

    /// Each count less the earlier one, and none where that one was higher.
    pub open spec fn minus(self, earlier: PacketCount) -> PacketCount {
        PacketCount {
            up_packets: self.up_packets.saturating_sub(earlier.up_packets),
            up_bytes: self.up_bytes.saturating_sub(earlier.up_bytes),
            down_packets: self.down_packets.saturating_sub(earlier.down_packets),
            down_bytes: self.down_bytes.saturating_sub(earlier.down_bytes),
        }
    }
}

/// Datagrams and bytes seen per direction, counted on arrival, before shaping
/// and loss: what each end put on the wire, not what the other end received.
#[derive(Clone, Copy, Debug, PartialEq, Eq, Structural)]
pub struct RelayCounters {
    pub up_packets: u64,
    pub up_bytes: u64,
    pub down_packets: u64,
    pub down_bytes: u64,
}

impl RelayCounters {
    /// The counters with one more datagram; they wrap around at the end.
    pub open spec fn counting(self, from_server: bool, bytes: usize) -> RelayCounters {
        if from_server {
            RelayCounters {
                down_packets: self.down_packets.wrapping_add(1),
                down_bytes: self.down_bytes.wrapping_add(bytes as u64),
                ..self
            }
        } else {
            RelayCounters {
                up_packets: self.up_packets.wrapping_add(1),
                up_bytes: self.up_bytes.wrapping_add(bytes as u64),
                ..self
            }
        }
    }

    pub open spec fn totals(self) -> PacketCount {
        PacketCount {
            up_packets: self.up_packets,
            up_bytes: self.up_bytes,
            down_packets: self.down_packets,
            down_bytes: self.down_bytes,
        }
    }

    pub fn new() -> (counters: RelayCounters)
        ensures
            counters.totals() == (PacketCount {
                up_packets: 0,
                up_bytes: 0,
                down_packets: 0,
                down_bytes: 0,
            }),
    {
        RelayCounters { up_packets: 0, up_bytes: 0, down_packets: 0, down_bytes: 0 }
    }

    pub fn record(&mut self, from_server: bool, bytes: usize)
        ensures
            *final(self) == old(self).counting(from_server, bytes),
    {
        if from_server {
            self.down_packets = self.down_packets.wrapping_add(1);
            self.down_bytes = self.down_bytes.wrapping_add(bytes as u64);
        } else {
            self.up_packets = self.up_packets.wrapping_add(1);
            self.up_bytes = self.up_bytes.wrapping_add(bytes as u64);
        }
    }

    pub fn snapshot(&self) -> (count: PacketCount)
        ensures
            count == self.totals(),
    {
        PacketCount {
            up_packets: self.up_packets,
            up_bytes: self.up_bytes,
            down_packets: self.down_packets,
            down_bytes: self.down_bytes,
        }
    }
}

/// A datagram as it arrives.
pub struct Arrival<A: Copy> {
    pub from_server: bool,
    pub source: A,
    pub length: usize,
    pub at: Instant,
    /// How long the link of this direction is busy with it when shaped.
    pub serialization: Duration,
}

/// Where and how much later a datagram goes on.
pub struct Delivery<A: Copy> {
    pub target: A,
    pub delay: Duration,
}

/// The hop's memory: one client at a time, and a queue per direction.
pub struct Relay<A: Copy> {
    pub server: A,
    /// The last sender that was not the server.
    pub client: Option<A>,
    pub packet_index: u64,
    /// When the upward link has sent all that was given to it.
    pub next_upstream: Instant,
    pub next_downstream: Instant,
    pub counters: RelayCounters,
}

impl<A: Copy> Relay<A> {
    /// When the link of the given direction is free.
    pub open spec fn free_at(self, from_server: bool) -> Instant {
        if from_server {
            self.next_downstream
        } else {
            self.next_upstream
        }
    }

    /// Nanosecond at which the arrival has left the link if it is shaped.
    pub open spec fn sent_at(self, arrival: Arrival<A>) -> int {
        let free = self.free_at(arrival.from_server).nanos;
        let start = if free >= arrival.at.nanos {
            free
        } else {
            arrival.at.nanos
        };
        start + arrival.serialization.nanos
    }

    /// Whether there is somebody to send the arrival to: a reply that comes
    /// before any request has nowhere to go.
    pub open spec fn addressed(self, arrival: Arrival<A>) -> bool {
        arrival.from_server ==> self.client is Some
    }

    /// Number of the arrival among those with somewhere to go.
    pub open spec fn index_of(self) -> u64 {
        self.packet_index.saturating_add(1)
    }

    /// Whether the arrival goes on.
    pub open spec fn passes(
        self,
        profile: ShapingProfile,
        mode: NetworkMode,
        arrival: Arrival<A>,
    ) -> bool {
        &&& self.addressed(arrival)
        &&& mode != NetworkMode::Blackhole
        &&& !(mode == NetworkMode::ThreeG && profile.loses(self.index_of()))
    }

    /// The hop after the arrival.
    pub open spec fn after(
        self,
        profile: ShapingProfile,
        mode: NetworkMode,
        arrival: Arrival<A>,
    ) -> Relay<A> {
        let queued = Instant { nanos: self.sent_at(arrival) as u128 };
        let shaped = self.passes(profile, mode, arrival) && mode == NetworkMode::ThreeG;
        Relay {
            client: if arrival.from_server {
                self.client
            } else {
                Some(arrival.source)
            },
            packet_index: if self.addressed(arrival) {
                self.index_of()
            } else {
                self.packet_index
            },
            next_upstream: if shaped && !arrival.from_server {
                queued
            } else {
                self.next_upstream
            },
            next_downstream: if shaped && arrival.from_server {
                queued
            } else {
                self.next_downstream
            },
            counters: self.counters.counting(arrival.from_server, arrival.length),
            ..self
        }
    }

    /// How much later a passing arrival goes on, in nanoseconds: the time until
    /// its link has sent it and the link's latency, or not at all unshaped.
    pub open spec fn delay_of(
        self,
        profile: ShapingProfile,
        mode: NetworkMode,
        arrival: Arrival<A>,
    ) -> int {
        if mode == NetworkMode::ThreeG {
            let total = self.sent_at(arrival) - arrival.at.nanos + millis(
                profile.latency_ms(self.index_of()),
            );
            if total <= MAX_DURATION_NANOS {
                total
            } else {
                MAX_DURATION_NANOS as int
            }
        } else {
            0
        }
    }

    pub fn new(server: A, now: Instant) -> (relay: Relay<A>)
        ensures
            relay.server == server,
            relay.client is None,
            relay.packet_index == 0,
            relay.next_upstream == now,
            relay.next_downstream == now,
            relay.counters.totals() == (PacketCount {
                up_packets: 0,
                up_bytes: 0,
                down_packets: 0,
                down_bytes: 0,
            }),
    {
        Relay {
            server,
            client: None,
            packet_index: 0,
            next_upstream: now,
            next_downstream: now,
            counters: RelayCounters::new(),
        }
    }

    /// Takes a datagram in and says where it goes on, if it does.
    pub fn forward(
        &mut self,
        profile: &ShapingProfile,
        mode: NetworkMode,
        arrival: Arrival<A>,
    ) -> (delivery: Option<Delivery<A>>)
        requires
            mode == NetworkMode::ThreeG && old(self).passes(*profile, mode, arrival)
                ==> profile.wf() && old(self).sent_at(arrival) <= u128::MAX,
        ensures
            *final(self) == old(self).after(*profile, mode, arrival),
            delivery is Some <==> old(self).passes(*profile, mode, arrival),
            delivery matches Some(onward) ==> {
                &&& onward.target == if arrival.from_server {
                    old(self).client->0
                } else {
                    old(self).server
                }
                &&& onward.delay.nanos == old(self).delay_of(*profile, mode, arrival)
            },
    {
        self.counters.record(arrival.from_server, arrival.length);
        let target = if arrival.from_server {
            match self.client {
                Some(client) => client,
                None => {
                    return None;
                },
            }
        } else {
            self.client = Some(arrival.source);
            self.server
        };
        self.packet_index = self.packet_index.saturating_add(1);
        let lose_packet = match profile.loss_every_nth {
            Some(n) => self.packet_index.is_multiple_of(n),
            None => false,
        };
        match mode {
            NetworkMode::Blackhole => None,
            NetworkMode::Online => Some(Delivery { target, delay: Duration::zero() }),
            NetworkMode::ThreeG => {
                if lose_packet {
                    return None;
                }
                let free = if arrival.from_server {
                    self.next_downstream
                } else {
                    self.next_upstream
                };
                let sent = free.max(arrival.at).plus(arrival.serialization);
                if arrival.from_server {
                    self.next_downstream = sent;
                } else {
                    self.next_upstream = sent;
                }
                let jitter_ms: u64 = self.packet_index.wrapping_mul(17) % profile.jitter_span_ms;
                let latency = Duration::from_millis(profile.base_latency_ms + jitter_ms);
                let delay = sent.saturating_duration_since(arrival.at).saturating_add(latency);
                Some(Delivery { target, delay })
            },
        }
    }
}

/// During an outage nothing gets through in either direction, yet all of it is
/// counted.
pub proof fn law_blackhole_drops_and_counts<A: Copy>(
    relay: Relay<A>,
    profile: ShapingProfile,
    arrival: Arrival<A>,
)
    ensures
        !relay.passes(profile, NetworkMode::Blackhole, arrival),
        relay.after(profile, NetworkMode::Blackhole, arrival).counters == relay.counters.counting(
            arrival.from_server,
            arrival.length,
        ),
        relay.after(profile, NetworkMode::Blackhole, arrival).next_upstream == relay.next_upstream,
        relay.after(profile, NetworkMode::Blackhole, arrival).next_downstream
            == relay.next_downstream,
{
}

/// Unshaped, all that has somewhere to go passes at once.
pub proof fn law_online_passes_at_once<A: Copy>(
    relay: Relay<A>,
    profile: ShapingProfile,
    arrival: Arrival<A>,
)
    requires
        relay.addressed(arrival),
    ensures
        relay.passes(profile, NetworkMode::Online, arrival),
        relay.delay_of(profile, NetworkMode::Online, arrival) == 0,
{
}

/// A burst pays for itself: a shaped datagram keeps its link busy for its whole
/// serialization on top of what was queued, leaves the other direction alone,
/// and arrives no earlier than the link's latency after that.
pub proof fn law_bursts_queue_up<A: Copy>(
    relay: Relay<A>,
    profile: ShapingProfile,
    arrival: Arrival<A>,
)
    requires
        profile.wf(),
        relay.passes(profile, NetworkMode::ThreeG, arrival),
        relay.sent_at(arrival) <= u128::MAX,
        relay.sent_at(arrival) + millis(u64::MAX as int) <= MAX_DURATION_NANOS,
    ensures
        ({
            let after = relay.after(profile, NetworkMode::ThreeG, arrival);
            let before = relay.free_at(arrival.from_server);
            let busy_until = after.free_at(arrival.from_server);
            &&& busy_until.nanos >= before.nanos + arrival.serialization.nanos
            &&& busy_until.nanos >= arrival.at.nanos + arrival.serialization.nanos
            &&& after.free_at(!arrival.from_server) == relay.free_at(!arrival.from_server)
            &&& arrival.at.nanos + relay.delay_of(profile, NetworkMode::ThreeG, arrival)
                >= busy_until.nanos + millis(profile.base_latency_ms as int)
        }),
{
}

/// The 3G link's latency is 130 to 170 milliseconds each way, so a round trip
/// takes 260 to 340.
pub proof fn law_three_g_latency(up: u64, down: u64)
    ensures
        130 <= three_g().latency_ms(up) <= 170,
        130 <= three_g().latency_ms(down) <= 170,
        260 <= three_g().latency_ms(up) + three_g().latency_ms(down) <= 340,
{
    assert(0 <= up.wrapping_mul(17) % 41 < 41);
    assert(0 <= down.wrapping_mul(17) % 41 < 41);
}

/// Of any `n` datagrams in a row, a link that drops one in `n` drops exactly
/// one.
pub proof fn law_loses_exactly_one_in_n(profile: ShapingProfile, n: u64, first: u64)
    requires
        profile.loss_every_nth == Some(n),
        n > 0,
        first + n <= u64::MAX,
    ensures
        exists|lost: u64|
            {
                &&& first <= lost < first + n
                &&& #[trigger] profile.loses(lost)
                &&& forall|other: u64|
                    first <= other < first + n && #[trigger] profile.loses(other) ==> other
                        == lost
            },
{
    let n_int = n as int;
    let quotient = (first + n - 1) as int / n_int;
    let lost_int = quotient * n_int;
    assert(first <= lost_int < first + n && lost_int % n_int == 0) by (nonlinear_arith)
        requires
            n_int > 0,
            n_int == n as int,
            quotient == (first + n - 1) as int / n_int,
            lost_int == quotient * n_int,
    ;
    let lost = lost_int as u64;
    assert(profile.loses(lost));
    assert forall|other: u64| first <= other < first + n && #[trigger] profile.loses(
        other,
    ) implies other == lost by {
        let a = other as int / n_int;
        assert(other as int == a * n_int) by (nonlinear_arith)
            requires
                n_int > 0,
                a == other as int / n_int,
                other as int % n_int == 0,
        ;
        assert(a == quotient) by (nonlinear_arith)
            requires
                n_int > 0,
                first <= a * n_int < first + n_int,
                first <= quotient * n_int < first + n_int,
        ;
    }
}

/// The counters after each of the datagrams `seen` in turn, given by direction
/// and length.
pub open spec fn counted(counters: RelayCounters, seen: Seq<(bool, usize)>) -> RelayCounters
    decreases seen.len(),
{
    if seen.len() == 0 {
        counters
    } else {
        counted(counters, seen.drop_last()).counting(seen.last().0, seen.last().1)
    }
}

/// How many of the datagrams went in the given direction.
pub open spec fn packets_in(seen: Seq<(bool, usize)>, from_server: bool) -> nat
    decreases seen.len(),
{
    if seen.len() == 0 {
        0
    } else {
        packets_in(seen.drop_last(), from_server) + if seen.last().0 == from_server {
            1nat
        } else {
            0nat
        }
    }
}

/// How many bytes they carried.
pub open spec fn bytes_in(seen: Seq<(bool, usize)>, from_server: bool) -> nat
    decreases seen.len(),
{
    if seen.len() == 0 {
        0
    } else {
        bytes_in(seen.drop_last(), from_server) + if seen.last().0 == from_server {
            seen.last().1 as nat
        } else {
            0
        }
    }
}

/// The difference of two snapshots is the traffic between them, per direction,
/// as long as no counter has wrapped around.
pub proof fn law_snapshots_account_traffic(counters: RelayCounters, seen: Seq<(bool, usize)>)
    requires
        counters.up_packets + packets_in(seen, false) <= u64::MAX,
        counters.up_bytes + bytes_in(seen, false) <= u64::MAX,
        counters.down_packets + packets_in(seen, true) <= u64::MAX,
        counters.down_bytes + bytes_in(seen, true) <= u64::MAX,
    ensures
        counted(counters, seen).totals().minus(counters.totals()) == (PacketCount {
            up_packets: packets_in(seen, false) as u64,
            up_bytes: bytes_in(seen, false) as u64,
            down_packets: packets_in(seen, true) as u64,
            down_bytes: bytes_in(seen, true) as u64,
        }),
{
    lemma_counted(counters, seen);
}

proof fn lemma_counted(counters: RelayCounters, seen: Seq<(bool, usize)>)
    requires
        counters.up_packets + packets_in(seen, false) <= u64::MAX,
        counters.up_bytes + bytes_in(seen, false) <= u64::MAX,
        counters.down_packets + packets_in(seen, true) <= u64::MAX,
        counters.down_bytes + bytes_in(seen, true) <= u64::MAX,
    ensures
        ({
            let after = counted(counters, seen);
            &&& after.up_packets == counters.up_packets + packets_in(seen, false)
            &&& after.up_bytes == counters.up_bytes + bytes_in(seen, false)
            &&& after.down_packets == counters.down_packets + packets_in(seen, true)
            &&& after.down_bytes == counters.down_bytes + bytes_in(seen, true)
        }),
    decreases seen.len(),
{
    if seen.len() > 0 {
        lemma_counted(counters, seen.drop_last());
    }
}

} // verus!
