//! What one arm of a benchmark measured.
use crate::clock::{elapsed, Duration, Instant};
use crate::relay::PacketCount;
use crate::screen::{contains, append_visible, occurs, windowed, FrameEvent};
use vstd::prelude::*;
use vstd::relations::{sorted_by, total_ordering};
use vstd::seq_lib::{lemma_sorted_unique, to_multiset_insert};
use vstd::utf8::encode_utf8;

verus! {

/// Measurements of one arm.
#[derive(Debug)]
pub struct ArmMetrics {
    pub name: &'static str,
    /// Input to visible echo, one per keystroke that was echoed.
    pub latencies: Vec<Duration>,
    pub frames: u64,
    pub frame_bytes: u64,
    /// Keystrokes that were never echoed.
    pub lost: u64,
    pub wall: Duration,
    /// Datagrams the relay saw during the measured part of the arm. None for an
    /// arm without a relay.
    pub packets: PacketCount,
}

/// Orders spans by length.
pub open spec fn no_longer() -> spec_fn(Duration, Duration) -> bool {
    |a: Duration, b: Duration| a.nanos <= b.nanos
}

/// The spans from the shortest to the longest.
pub open spec fn in_order(spans: Seq<Duration>) -> Seq<Duration> {
    spans.sort_by(no_longer())
}

/// Position of the `rank`-th of `count` items, ranks counted from one; ranks
/// beyond either end mean the item at that end.
pub open spec fn rank_index(rank: int, count: int) -> int {
    if rank <= 1 {
        0
    } else if rank <= count {
        rank - 1
    } else {
        count - 1
    }
}

proof fn lemma_no_longer_is_total()
    ensures
        total_ordering(no_longer()),
{
}

/// The spans of `spans`, from the shortest to the longest.
fn sorted(spans: &Vec<Duration>) -> (ordered: Vec<Duration>)
    ensures
        ordered@ == in_order(spans@),
{
    let mut ordered: Vec<Duration> = Vec::new();
    let mut taken: usize = 0;
    assert(ordered@ =~= spans@.take(0));
    while taken < spans.len()
        invariant
            taken <= spans@.len(),
            sorted_by(ordered@, no_longer()),
            ordered@.to_multiset() == spans@.take(taken as int).to_multiset(),
        decreases spans@.len() - taken,
    {
        let span = spans[taken];
        let mut place: usize = 0;
        while place < ordered.len() && ordered[place].nanos <= span.nanos
            invariant
                place <= ordered@.len(),
                forall|i: int| 0 <= i < place ==> (#[trigger] ordered@[i]).nanos <= span.nanos,
            decreases ordered@.len() - place,
        {
            place = place + 1;
        }
        let ghost before = ordered@;
        ordered.insert(place, span);
        proof {
            to_multiset_insert(before, place as int, span);
            let taken_now = spans@.take(taken + 1);
            assert(taken_now =~= spans@.take(taken as int).push(span));
            spans@.take(taken as int).to_multiset_ensures();
            let leq = no_longer();
            assert forall|i: int, j: int| 0 <= i < j < ordered@.len() implies #[trigger] leq(
                ordered@[i],
                ordered@[j],
            ) by {
                let a = if i < place {
                    i
                } else {
                    i - 1
                };
                let b = if j < place {
                    j
                } else {
                    j - 1
                };
                if i != place && j != place {
                    assert(leq(before[a], before[b]));
                } else if i == place && place < before.len() {
                    if place < b {
                        assert(leq(before[place as int], before[b]));
                    }
                }
            }
        }
        taken = taken + 1;
    }
    proof {
        assert(spans@.take(taken as int) =~= spans@);
        lemma_no_longer_is_total();
        spans@.lemma_sort_by_ensures(no_longer());
        lemma_sorted_unique(ordered@, in_order(spans@), no_longer());
    }
    ordered
}

impl ArmMetrics {
    pub fn new(name: &'static str) -> (metrics: ArmMetrics)
        ensures
            metrics.name == name,
            metrics.latencies@.len() == 0,
            metrics.frames == 0,
            metrics.frame_bytes == 0,
            metrics.lost == 0,
            metrics.wall.nanos == 0,
            metrics.packets == (PacketCount {
                up_packets: 0,
                up_bytes: 0,
                down_packets: 0,
                down_bytes: 0,
            }),
    {
        ArmMetrics {
            name,
            latencies: Vec::new(),
            frames: 0,
            frame_bytes: 0,
            lost: 0,
            wall: Duration::zero(),
            packets: PacketCount::none(),
        }
    }

    /// The latency of the given rank, counted from one, if any was measured.
    pub fn ranked_latency(&self, rank: usize) -> (latency: Option<Duration>)
        ensures
            match latency {
                None => self.latencies@.len() == 0,
                Some(span) => self.latencies@.len() > 0 && span == in_order(
                    self.latencies@,
                )[rank_index(rank as int, self.latencies@.len() as int)],
            },
    {
        if self.latencies.len() == 0 {
            return None;
        }
        let ordered = sorted(&self.latencies);
        proof {
            lemma_in_order(self.latencies@);
        }
        let last: usize = ordered.len() - 1;
        let wanted: usize = rank.saturating_sub(1);
        let index: usize = if wanted <= last {
            wanted
        } else {
            last
        };
        Some(ordered[index])
    }

    /// Everything but the counts of frames and lost keystrokes and the
    /// latencies is as it was.
    pub open spec fn same_arm(self, other: ArmMetrics) -> bool {
        &&& self.name == other.name
        &&& self.wall == other.wall
        &&& self.packets == other.packets
    }

    /// The same keystrokes came back, after the same time, and the same number
    /// did not.
    pub open spec fn same_score(self, other: ArmMetrics) -> bool {
        &&& self.latencies@ == other.latencies@
        &&& self.lost == other.lost
    }

    /// No frame was accounted in between.
    pub open spec fn same_frames(self, other: ArmMetrics) -> bool {
        &&& self.same_arm(other)
        &&& self.frames == other.frames
        &&& self.frame_bytes == other.frame_bytes
    }

    /// Whether this is `earlier` with one more frame accounted.
    pub open spec fn counts_one_more(self, earlier: ArmMetrics, event: FrameEvent) -> bool {
        &&& self.same_arm(earlier)
        &&& self.same_score(earlier)
        &&& self.frames == earlier.frames + 1
        &&& self.frame_bytes == earlier.frame_bytes + event.bytes
    }

    /// Counts a frame and its payload.
    pub fn account_frame(&mut self, event: &FrameEvent)
        requires
            old(self).frames < u64::MAX,
            old(self).frame_bytes + event.bytes <= u64::MAX,
        ensures
            final(self).counts_one_more(*old(self), *event),
    {
        self.frames = self.frames + 1;
        self.frame_bytes = self.frame_bytes + event.bytes as u64;
    }

    /// Books a keystroke sent at `sent`: its latency if its echo was seen, one
    /// more lost keystroke if not.
    pub fn record_echo(&mut self, sent: Instant, seen: Option<Instant>)
        requires
            seen is None ==> old(self).lost < u64::MAX,
        ensures
            final(self).same_arm(*old(self)),
            final(self).frames == old(self).frames,
            final(self).frame_bytes == old(self).frame_bytes,
            match seen {
                Some(at) => {
                    &&& final(self).latencies@ == old(self).latencies@.push(elapsed(sent, at))
                    &&& final(self).lost == old(self).lost
                },
                None => {
                    &&& final(self).latencies@ == old(self).latencies@
                    &&& final(self).lost == old(self).lost + 1
                },
            },
    {
        match seen {
            Some(at) => {
                self.latencies.push(at.saturating_duration_since(sent));
            },
            None => {
                self.lost = self.lost + 1;
            },
        }
    }

    /// Books a marker that was never echoed.
    pub fn record_lost(&mut self)
        requires
            old(self).lost < u64::MAX,
        ensures
            final(self).same_arm(*old(self)),
            final(self).latencies@ == old(self).latencies@,
            final(self).frames == old(self).frames,
            final(self).frame_bytes == old(self).frame_bytes,
            final(self).lost == old(self).lost + 1,
    {
        self.lost = self.lost + 1;
    }
}

/// Ordering the spans keeps their number, and puts no longer one first.
pub proof fn lemma_in_order(spans: Seq<Duration>)
    ensures
        in_order(spans).len() == spans.len(),
        forall|i: int, j: int|
            0 <= i <= j < spans.len() ==> (#[trigger] in_order(spans)[i]).nanos <= (
            #[trigger] in_order(spans)[j]).nanos,
        forall|i: int| 0 <= i < spans.len() ==> spans.contains(#[trigger] in_order(spans)[i]),
{
    let leq = no_longer();
    let ordered = in_order(spans);
    lemma_no_longer_is_total();
    spans.lemma_sort_by_ensures(leq);
    spans.to_multiset_ensures();
    ordered.to_multiset_ensures();
    assert forall|i: int, j: int| 0 <= i <= j < spans.len() implies (#[trigger] ordered[i]).nanos
        <= (#[trigger] ordered[j]).nanos by {
        if i < j {
            assert(leq(ordered[i], ordered[j]));
        }
    }
    assert forall|i: int| 0 <= i < spans.len() implies spans.contains(#[trigger] ordered[i]) by {
        if !spans.contains(ordered[i]) {
            assert(!ordered.contains(ordered[i]));
        }
    }
}

/// Ordering the spans loses none and adds none.
pub proof fn lemma_order_keeps_the_spans(spans: Seq<Duration>)
    ensures
        spans.to_multiset() == in_order(spans).to_multiset(),
{
    lemma_no_longer_is_total();
    spans.lemma_sort_by_ensures(no_longer());
}

/// A higher rank never has a shorter latency, and every rank has one that was
/// measured.
pub proof fn law_ranks_are_monotone(spans: Seq<Duration>, lower: int, higher: int)
    requires
        spans.len() > 0,
        lower <= higher,
    ensures
        ({
            let count = spans.len() as int;
            let low = in_order(spans)[rank_index(lower, count)];
            let high = in_order(spans)[rank_index(higher, count)];
            low.nanos <= high.nanos && spans.contains(low) && spans.contains(high)
        }),
{
    lemma_in_order(spans);
}

/// The visible text of a terminal, as far back as an echo is looked for.
pub struct Screen {
    pub visible: Vec<u8>,
}

/// How the search for a marker goes on.
#[derive(Clone, Copy, Debug, PartialEq, Eq, Structural)]
pub enum MarkerWait {
    /// The marker is on screen since this point.
    Seen(Instant),
    /// Wait for a frame until this point.
    AwaitFrame(Instant),
}

impl Screen {
    /// Whether showing a frame leads to `after`.
    pub open spec fn shows(self, event: FrameEvent, after: Screen) -> bool {
        after.visible@ == windowed(self.visible@ + event.visible@)
    }

    /// Whether looking for `marker`, with the last text shown at `seen`, gives
    /// `wait` and leads to `after`.
    pub open spec fn searched(
        self,
        marker: Seq<u8>,
        seen: Instant,
        deadline: Instant,
        wait: MarkerWait,
        after: Screen,
    ) -> bool {
        if occurs(self.visible@, marker) {
            wait == MarkerWait::Seen(seen) && after.visible@.len() == 0
        } else {
            wait == MarkerWait::AwaitFrame(deadline) && after.visible@ == self.visible@
        }
    }

    pub fn new() -> (screen: Screen)
        ensures
            screen.visible@.len() == 0,
    {
        Screen { visible: Vec::new() }
    }

    pub fn clear(&mut self)
        ensures
            final(self).visible@.len() == 0,
    {
        self.visible.clear();
    }

    /// Shows a frame and accounts it.
    pub fn next_frame(&mut self, event: &FrameEvent, metrics: &mut ArmMetrics)
        requires
            old(metrics).frames < u64::MAX,
            old(metrics).frame_bytes + event.bytes <= u64::MAX,
        ensures
            old(self).shows(*event, *final(self)),
            final(metrics).counts_one_more(*old(metrics), *event),
    {
        metrics.account_frame(event);
        append_visible(&mut self.visible, event.visible.as_slice());
    }

    /// Looks for `marker` in the text shown so far, the last of it at `seen`. A
    /// frame drained earlier can already carry the echo, so the text is searched
    /// before another frame is waited for. Once found the text is used up.
    pub fn wait_for_marker(
        &mut self,
        marker: &str,
        seen: Instant,
        deadline: Instant,
    ) -> (wait: MarkerWait)
        requires
            marker@.len() > 0,
        ensures
            old(self).searched(encode_utf8(marker@), seen, deadline, wait, *final(self)),
    {
        assert(encode_utf8(marker@).len() > 0);
        if contains(self.visible.as_slice(), marker.as_bytes()) {
            self.visible.clear();
            MarkerWait::Seen(seen)
        } else {
            MarkerWait::AwaitFrame(deadline)
        }
    }
}

/// What is visible once the frames were shown one after another.
pub open spec fn shown(visible: Seq<u8>, frames: Seq<FrameEvent>) -> Seq<u8>
    decreases frames.len(),
{
    if frames.len() == 0 {
        visible
    } else {
        windowed(shown(visible, frames.drop_last()) + frames.last().visible@)
    }
}

/// Length of the frames' payloads in all.
pub open spec fn payload(frames: Seq<FrameEvent>) -> nat
    decreases frames.len(),
{
    if frames.len() == 0 {
        0
    } else {
        payload(frames.drop_last()) + frames.last().bytes as nat
    }
}

/// When the text that stands behind `taken` frames was shown.
pub open spec fn shown_at(started: Instant, frames: Seq<FrameEvent>, taken: int) -> Instant {
    if taken == 0 {
        started
    } else {
        frames[taken - 1].at
    }
}

/// A search for `marker` that began at `started` and took `frames`: the text is
/// searched, and as long as the marker is not there another frame is shown.
/// `screens[i]` and `metrics[i]` are what stands behind `i` frames, `waits[i]` is
/// what the search says of it, and `left[i]` is the screen it leaves.
pub open spec fn is_search(
    marker: Seq<u8>,
    started: Instant,
    deadline: Instant,
    frames: Seq<FrameEvent>,
    screens: Seq<Screen>,
    left: Seq<Screen>,
    waits: Seq<MarkerWait>,
    metrics: Seq<ArmMetrics>,
) -> bool {
    &&& screens.len() == frames.len() + 1
    &&& left.len() == frames.len() + 1
    &&& waits.len() == frames.len() + 1
    &&& metrics.len() == frames.len() + 1
    &&& forall|i: int|
        0 <= i <= frames.len() ==> (#[trigger] screens[i]).searched(
            marker,
            shown_at(started, frames, i),
            deadline,
            waits[i],
            left[i],
        )
    &&& forall|i: int|
        0 <= i < frames.len() ==> {
            &&& waits[i] is AwaitFrame
            &&& (#[trigger] left[i]).shows(frames[i], screens[i + 1])
            &&& metrics[i + 1].counts_one_more(metrics[i], frames[i])
        }
}

proof fn lemma_search(
    marker: Seq<u8>,
    started: Instant,
    deadline: Instant,
    frames: Seq<FrameEvent>,
    screens: Seq<Screen>,
    left: Seq<Screen>,
    waits: Seq<MarkerWait>,
    metrics: Seq<ArmMetrics>,
    i: int,
)
    requires
        is_search(marker, started, deadline, frames, screens, left, waits, metrics),
        0 <= i <= frames.len(),
    ensures
        screens[i].visible@ == shown(screens[0].visible@, frames.take(i)),
        metrics[i].frames == metrics[0].frames + i,
        metrics[i].frame_bytes == metrics[0].frame_bytes + payload(frames.take(i)),
        metrics[i].same_score(metrics[0]),
    decreases i,
{
    if i > 0 {
        lemma_search(marker, started, deadline, frames, screens, left, waits, metrics, i - 1);
        assert(screens[i - 1].searched(
            marker,
            shown_at(started, frames, i - 1),
            deadline,
            waits[i - 1],
            left[i - 1],
        ));
        assert(left[i - 1].shows(frames[i - 1], screens[i]));
        assert(frames.take(i).drop_last() =~= frames.take(i - 1));
    }
}

/// A search finds the marker with the first frame after which the visible text
/// holds it, or at once if the text held it before, and says when that frame
/// arrived. Every frame it took is accounted, and nothing else is booked.
pub proof fn law_search_finds_the_first_echo(
    marker: Seq<u8>,
    started: Instant,
    deadline: Instant,
    frames: Seq<FrameEvent>,
    screens: Seq<Screen>,
    left: Seq<Screen>,
    waits: Seq<MarkerWait>,
    metrics: Seq<ArmMetrics>,
)
    requires
        is_search(marker, started, deadline, frames, screens, left, waits, metrics),
    ensures
        forall|i: int|
            0 <= i < frames.len() ==> !occurs(
                #[trigger] shown(screens[0].visible@, frames.take(i)),
                marker,
            ),
        match waits.last() {
            MarkerWait::Seen(at) => {
                &&& occurs(shown(screens[0].visible@, frames), marker)
                &&& at == shown_at(started, frames, frames.len() as int)
                &&& left.last().visible@.len() == 0
            },
            MarkerWait::AwaitFrame(until) => {
                &&& !occurs(shown(screens[0].visible@, frames), marker)
                &&& until == deadline
            },
        },
        metrics.last().frames == metrics[0].frames + frames.len(),
        metrics.last().frame_bytes == metrics[0].frame_bytes + payload(frames),
        metrics.last().same_score(metrics[0]),
{
    let n = frames.len() as int;
    assert forall|i: int| 0 <= i < n implies !occurs(
        #[trigger] shown(screens[0].visible@, frames.take(i)),
        marker,
    ) by {
        lemma_search(marker, started, deadline, frames, screens, left, waits, metrics, i);
        assert(screens[i].searched(
            marker,
            shown_at(started, frames, i),
            deadline,
            waits[i],
            left[i],
        ));
        assert(left[i].shows(frames[i], screens[i + 1]));
    }
    lemma_search(marker, started, deadline, frames, screens, left, waits, metrics, n);
    assert(frames.take(n) =~= frames);
    assert(screens[n].searched(
        marker,
        shown_at(started, frames, n),
        deadline,
        waits[n],
        left[n],
    ));
}

} // verus!
