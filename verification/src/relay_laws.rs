//! What the shaped hop does for the two ends, over any run of datagrams.
use crate::clock::MAX_DURATION_NANOS;
use crate::relay::{
    three_g, Arrival, NetworkMode, PacketCount, Relay, RelayCounters, ShapingProfile,
};
use vstd::prelude::*;

verus! {

/// How many values a counter has before it starts over.
pub open spec fn counter_values() -> int {
    0x1_0000_0000_0000_0000
}

/// Number of the next datagram for somebody; it stays at the last one.
pub open spec fn next_number<A: Copy>(relay: Relay<A>) -> int {
    if relay.packet_index < u64::MAX {
        relay.packet_index + 1
    } else {
        u64::MAX as int
    }
}

/// The hop after a run of arrivals, each in the mode of its time.
pub open spec fn after_arrivals<A: Copy>(
    relay: Relay<A>,
    profile: ShapingProfile,
    arrivals: Seq<(NetworkMode, Arrival<A>)>,
) -> Relay<A>
    decreases arrivals.len(),
{
    if arrivals.len() == 0 {
        relay
    } else {
        after_arrivals(relay, profile, arrivals.drop_last()).after(
            profile,
            arrivals.last().0,
            arrivals.last().1,
        )
    }
}

/// A datagram that is not from the server makes its sender the client, whoever
/// was before, and whether or not it goes on itself. One from the server does not.
pub proof fn law_every_sender_becomes_the_client<A: Copy>(
    relay: Relay<A>,
    profile: ShapingProfile,
    mode: NetworkMode,
    arrival: Arrival<A>,
)
    ensures
        !arrival.from_server ==> relay.after(profile, mode, arrival).client == Some(
            arrival.source,
        ),
        arrival.from_server ==> relay.after(profile, mode, arrival).client == relay.client,
        relay.after(profile, mode, arrival).server == relay.server,
{
}

/// After any run of arrivals the client, which the server's datagrams are sent on
/// to, is the sender of the last arrival that was not from the server.
pub proof fn law_replies_go_to_the_last_sender<A: Copy>(
    relay: Relay<A>,
    profile: ShapingProfile,
    arrivals: Seq<(NetworkMode, Arrival<A>)>,
    last: int,
)
    requires
        0 <= last < arrivals.len(),
        !arrivals[last].1.from_server,
        forall|i: int|
            last < i < arrivals.len() ==> (#[trigger] arrivals[i]).1.from_server,
    ensures
        after_arrivals(relay, profile, arrivals).client == Some(arrivals[last].1.source),
        after_arrivals(relay, profile, arrivals).server == relay.server,
    decreases arrivals.len(),
{
    let earlier = arrivals.drop_last();
    if last < arrivals.len() - 1 {
        assert(arrivals[arrivals.len() - 1].1.from_server);
        assert forall|i: int| last < i < earlier.len() implies (
        #[trigger] earlier[i]).1.from_server by {
            assert(arrivals[i].1.from_server);
        }
        law_replies_go_to_the_last_sender(relay, profile, earlier, last);
    } else {
        lemma_server_stays(relay, profile, earlier);
    }
}

proof fn lemma_server_stays<A: Copy>(
    relay: Relay<A>,
    profile: ShapingProfile,
    arrivals: Seq<(NetworkMode, Arrival<A>)>,
)
    ensures
        after_arrivals(relay, profile, arrivals).server == relay.server,
    decreases arrivals.len(),
{
    if arrivals.len() > 0 {
        lemma_server_stays(relay, profile, arrivals.drop_last());
    }
}

/// What goes on: nothing in an outage; unshaped, all that is for somebody; shaped,
/// all of that but every `n`-th datagram, counting those for somebody.
pub proof fn law_what_goes_on<A: Copy>(
    relay: Relay<A>,
    profile: ShapingProfile,
    arrival: Arrival<A>,
    n: u64,
)
    requires
        n > 0,
    ensures
        ({
            let for_somebody = !arrival.from_server || relay.client is Some;
            let number = next_number(relay);
            &&& !relay.passes(profile, NetworkMode::Blackhole, arrival)
            &&& relay.passes(profile, NetworkMode::Online, arrival) == for_somebody
            &&& profile.loss_every_nth == Some(n) ==> relay.passes(
                profile,
                NetworkMode::ThreeG,
                arrival,
            ) == (for_somebody && number % (n as int) != 0)
            &&& profile.loss_every_nth == Some(0u64) ==> relay.passes(
                profile,
                NetworkMode::ThreeG,
                arrival,
            ) == for_somebody
            &&& profile.loss_every_nth is None ==> relay.passes(
                profile,
                NetworkMode::ThreeG,
                arrival,
            ) == for_somebody
            &&& forall|mode: NetworkMode|
                (#[trigger] relay.after(profile, mode, arrival)).packet_index == if for_somebody {
                    number
                } else {
                    relay.packet_index as int
                }
        }),
{
}

/// Every arrival is counted in its own direction, one datagram and its length,
/// and in no other, whatever the mode and whether or not it goes on. The counters
/// start over behind their last value.
pub proof fn law_every_arrival_is_counted<A: Copy>(
    relay: Relay<A>,
    profile: ShapingProfile,
    mode: NetworkMode,
    arrival: Arrival<A>,
)
    ensures
        ({
            let before = relay.counters.totals();
            let after = relay.after(profile, mode, arrival).counters.totals();
            if arrival.from_server {
                &&& after.down_packets == (before.down_packets + 1) % counter_values()
                &&& after.down_bytes == (before.down_bytes + arrival.length) % counter_values()
                &&& after.up_packets == before.up_packets
                &&& after.up_bytes == before.up_bytes
            } else {
                &&& after.up_packets == (before.up_packets + 1) % counter_values()
                &&& after.up_bytes == (before.up_bytes + arrival.length) % counter_values()
                &&& after.down_packets == before.down_packets
                &&& after.down_bytes == before.down_bytes
            }
        }),
{
}

/// The difference of two counts is what came in between, count by count.
pub proof fn law_counts_subtract(earlier: PacketCount, later: PacketCount)
    ensures
        earlier.up_packets <= later.up_packets ==> later.minus(earlier).up_packets
            == later.up_packets - earlier.up_packets,
        earlier.up_bytes <= later.up_bytes ==> later.minus(earlier).up_bytes == later.up_bytes
            - earlier.up_bytes,
        earlier.down_packets <= later.down_packets ==> later.minus(earlier).down_packets
            == later.down_packets - earlier.down_packets,
        earlier.down_bytes <= later.down_bytes ==> later.minus(earlier).down_bytes
            == later.down_bytes - earlier.down_bytes,
        earlier.up_packets > later.up_packets ==> later.minus(earlier).up_packets == 0,
        earlier.up_bytes > later.up_bytes ==> later.minus(earlier).up_bytes == 0,
        earlier.down_packets > later.down_packets ==> later.minus(earlier).down_packets == 0,
        earlier.down_bytes > later.down_bytes ==> later.minus(earlier).down_bytes == 0,
{
}

/// A snapshot shows each counter as it stands.
pub proof fn law_snapshot_shows_the_counters(counters: RelayCounters)
    ensures
        counters.totals().up_packets == counters.up_packets,
        counters.totals().up_bytes == counters.up_bytes,
        counters.totals().down_packets == counters.down_packets,
        counters.totals().down_bytes == counters.down_bytes,
{
}

/// A shaped datagram leaves its link when the link has sent what was queued before
/// it and then the datagram itself. It arrives one latency after that: the base
/// and 17 milliseconds of jitter per number, modulo the span. Only its own link is
/// busy longer.
pub proof fn law_shaped_delay<A: Copy>(
    relay: Relay<A>,
    profile: ShapingProfile,
    arrival: Arrival<A>,
)
    requires
        relay.passes(profile, NetworkMode::ThreeG, arrival),
        profile.jitter_span_ms > 0,
        relay.next_upstream.nanos + arrival.serialization.nanos <= u128::MAX,
        relay.next_downstream.nanos + arrival.serialization.nanos <= u128::MAX,
        arrival.at.nanos + arrival.serialization.nanos <= u128::MAX,
    ensures
        ({
            let busy = if arrival.from_server {
                relay.next_downstream.nanos
            } else {
                relay.next_upstream.nanos
            };
            let start = if busy <= arrival.at.nanos {
                arrival.at.nanos
            } else {
                busy
            };
            let sent = start + arrival.serialization.nanos;
            let latency_ms = profile.base_latency_ms + ((17 * next_number(relay))
                % counter_values()) % (profile.jitter_span_ms as int);
            let due = sent - arrival.at.nanos + latency_ms * 1_000_000;
            let after = relay.after(profile, NetworkMode::ThreeG, arrival);
            &&& relay.delay_of(profile, NetworkMode::ThreeG, arrival) == if due
                <= MAX_DURATION_NANOS {
                due
            } else {
                MAX_DURATION_NANOS as int
            }
            &&& arrival.from_server ==> after.next_downstream.nanos == sent && after.next_upstream
                == relay.next_upstream
            &&& !arrival.from_server ==> after.next_upstream.nanos == sent && after.next_downstream
                == relay.next_downstream
        }),
{
}

/// What is dropped, or passes unshaped, keeps no link busy and is not delayed.
pub proof fn law_links_are_busy_with_shaped_traffic_only<A: Copy>(
    relay: Relay<A>,
    profile: ShapingProfile,
    mode: NetworkMode,
    arrival: Arrival<A>,
)
    requires
        mode != NetworkMode::ThreeG || !relay.passes(profile, mode, arrival),
    ensures
        relay.after(profile, mode, arrival).next_upstream == relay.next_upstream,
        relay.after(profile, mode, arrival).next_downstream == relay.next_downstream,
        mode != NetworkMode::ThreeG ==> relay.delay_of(profile, mode, arrival) == 0,
{
}

/// The 3G link: 1.6 Mbit/s down and 0.75 Mbit/s up in bytes per second, and one
/// datagram in 101 lost.
pub proof fn law_three_g_link(number: u64)
    requires
        number > 0,
    ensures
        8 * three_g().down_bytes_per_second == 1_600_000,
        8 * three_g().up_bytes_per_second == 750_000,
        three_g().loses(number) <==> number % 101 == 0,
{
}

} // verus!
