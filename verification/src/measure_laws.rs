//! What a measurement types, waits for and books, in bytes and nanoseconds.
use crate::clock::{elapsed, Duration, Instant};
use crate::measure::{
    is_keystroke_run, is_probe_run, law_keystroke_is_booked_once, law_probe_times_the_recovery,
    Keystroke, KeystrokeStage, PathProbe, ProbeStage, TypingAction, TypingEvent,
};
use crate::metrics::{in_order, lemma_in_order, rank_index, ArmMetrics};
use crate::script::{
    arm_plan, arm_steps, flap_steps, keystrokes_of, law_every_flap_is_followed_by_keystrokes,
    numbers, outage_run, stride_of, typed_run, ArmStep,
};
use vstd::prelude::*;
use vstd::utf8::encode_utf8;

verus! {

/// The span from one point to a later one is their distance, and none if it is
/// not later.
pub proof fn law_elapsed(earlier: Instant, later: Instant)
    ensures
        earlier.nanos <= later.nanos ==> elapsed(earlier, later).nanos == later.nanos
            - earlier.nanos,
        later.nanos <= earlier.nanos ==> elapsed(earlier, later).nanos == 0,
{
}

/// A thousand milliseconds are a second, and a second a thousand million
/// nanoseconds.
pub proof fn law_units(n: int)
    ensures
        crate::clock::millis(n) == n * 1_000_000,
        crate::clock::seconds(n) == n * 1_000_000_000,
        crate::clock::millis(1000 * n) == crate::clock::seconds(n),
{
}

/// A finished keystroke waited ten seconds at most for its own marker from when it
/// was sent, then erased the line with `^U`, then left the link idle for a quarter
/// of a second. It booked the time from sending to seeing, or one lost keystroke.
pub proof fn law_keystroke_step_by_step(
    stages: Seq<Keystroke>,
    events: Seq<TypingEvent>,
    before: Seq<ArmMetrics>,
    booked: Seq<ArmMetrics>,
    actions: Seq<TypingAction>,
)
    requires
        is_keystroke_run(stages, events, before, booked, actions),
        stages.last().stage == KeystrokeStage::Done,
    ensures
        actions.len() == 4,
        actions[0] matches TypingAction::AwaitMarker { marker, deadline } && marker@
            == stages[0].marker@ && deadline.nanos == events[0]->Performed_0.nanos
            + 10_000_000_000,
        actions[1] matches TypingAction::Send(data) && data@ == seq![0x15u8],
        actions[2] matches TypingAction::DrainUntil(until) && until.nanos
            == events[2]->Performed_0.nanos + 250_000_000,
        actions[3] is Done,
        match events[1]->Seen_0 {
            Some(at) => {
                &&& booked.last().latencies@.len() == before[0].latencies@.len() + 1
                &&& booked.last().latencies@.drop_last() == before[0].latencies@
                &&& at.nanos >= events[0]->Performed_0.nanos
                    ==> booked.last().latencies@.last().nanos == at.nanos
                    - events[0]->Performed_0.nanos
                &&& booked.last().lost == before[0].lost
            },
            None => {
                &&& booked.last().latencies@ == before[0].latencies@
                &&& booked.last().lost == before[0].lost + 1
            },
        },
{
    law_keystroke_is_booked_once(stages, events, before, booked, actions);
    assert(stages[0].expects(events[0], before[0]));
    assert(stages[1].expects(events[1], before[1]));
    assert(stages[2].expects(events[2], before[2]));
    assert(stages[3].expects(events[3], before[3]));
    if events[1]->Seen_0 is Some {
        assert(booked.last().latencies@.drop_last() =~= before[0].latencies@);
    }
}

/// A finished probe let the cut take hold for half a second, typed its marker,
/// stayed in the dark until its window was over, brought the path back, waited
/// thirty seconds at most for a frame and for its marker, both from then on,
/// erased the line with `^U` and left the link idle for a quarter of a second.
pub proof fn law_probe_step_by_step(
    stages: Seq<PathProbe>,
    events: Seq<TypingEvent>,
    before: Seq<ArmMetrics>,
    booked: Seq<ArmMetrics>,
    actions: Seq<TypingAction>,
)
    requires
        is_probe_run(stages, events, before, booked, actions),
        stages.last().stage == ProbeStage::Done,
    ensures
        actions.len() == 9,
        ({
            let cut = events[0]->Performed_0.nanos;
            let back = events[4]->Performed_0.nanos;
            let last = stages.last();
            &&& actions[0] matches TypingAction::DrainUntil(until) && until.nanos == cut
                + 500_000_000
            &&& actions[1] matches TypingAction::Send(data) && data@ == encode_utf8(
                stages[0].marker@,
            )
            &&& actions[2] matches TypingAction::DrainUntil(until) && until.nanos == cut
                + stages[0].window.nanos
            &&& actions[3] is RestorePath
            &&& actions[4] matches TypingAction::AwaitFrame(until) && until.nanos == back
                + 30_000_000_000
            &&& actions[5] matches TypingAction::AwaitMarker { marker, deadline } && marker@
                == stages[0].marker@ && deadline.nanos == back + 30_000_000_000
            &&& actions[6] matches TypingAction::Send(data) && data@ == seq![0x15u8]
            &&& actions[7] matches TypingAction::DrainUntil(until) && until.nanos
                == events[7]->Performed_0.nanos + 250_000_000
            &&& actions[8] is Done
            &&& match events[5]->Seen_0 {
                Some(at) => last.recovery is Some && (at.nanos >= back
                    ==> last.recovery->0.nanos == at.nanos - back),
                None => last.recovery is None,
            }
            &&& match events[6]->Seen_0 {
                Some(at) => last.echo is Some && (at.nanos >= back ==> last.echo->0.nanos
                    == at.nanos - back) && booked.last().lost == before[0].lost,
                None => last.echo is None && booked.last().lost == before[0].lost + 1,
            }
        }),
{
    law_probe_times_the_recovery(stages, events, before, booked, actions);
    assert(stages[0].expects(events[0], before[0]));
    assert(stages[1].expects(events[1], before[1]));
    assert(stages[2].expects(events[2], before[2]));
    assert(stages[3].expects(events[3], before[3]));
    assert(stages[4].expects(events[4], before[4]));
    assert(stages[5].expects(events[5], before[5]));
    assert(stages[6].expects(events[6], before[6]));
    assert(stages[7].expects(events[7], before[7]));
    assert(stages[8].expects(events[8], before[8]));
}

/// How many of the spans are shorter than `bound` nanoseconds.
pub open spec fn shorter_than(spans: Seq<Duration>, bound: int) -> nat
    decreases spans.len(),
{
    if spans.len() == 0 {
        0
    } else {
        shorter_than(spans.drop_last(), bound) + if spans.last().nanos < bound {
            1nat
        } else {
            0nat
        }
    }
}

proof fn lemma_shorter_without(spans: Seq<Duration>, bound: int, i: int)
    requires
        0 <= i < spans.len(),
    ensures
        shorter_than(spans, bound) == shorter_than(spans.remove(i), bound) + if spans[i].nanos
            < bound {
            1nat
        } else {
            0nat
        },
    decreases spans.len(),
{
    if i == spans.len() - 1 {
        assert(spans.remove(i) =~= spans.drop_last());
    } else {
        lemma_shorter_without(spans.drop_last(), bound, i);
        assert(spans.remove(i).drop_last() =~= spans.drop_last().remove(i));
        assert(spans.remove(i).last() == spans.last());
    }
}

proof fn lemma_shorter_in_any_order(one: Seq<Duration>, other: Seq<Duration>, bound: int)
    requires
        one.to_multiset() == other.to_multiset(),
    ensures
        shorter_than(one, bound) == shorter_than(other, bound),
    decreases one.len(),
{
    one.to_multiset_ensures();
    other.to_multiset_ensures();
    assert(one.len() == other.len());
    if one.len() > 0 {
        let last = one.last();
        assert(one.contains(last));
        assert(other.contains(last)) by {
            assert(other.to_multiset().count(last) > 0);
        }
        let i = other.index_of(last);
        let rest = other.remove(i);
        assert(one.drop_last() =~= one.remove(one.len() - 1));
        assert(rest.to_multiset() =~= one.drop_last().to_multiset());
        lemma_shorter_without(other, bound, i);
        lemma_shorter_in_any_order(one.drop_last(), rest, bound);
    }
}

proof fn lemma_shorter_at_most(spans: Seq<Duration>, bound: int, k: int)
    requires
        0 <= k,
        forall|j: int| k <= j < spans.len() ==> (#[trigger] spans[j]).nanos >= bound,
    ensures
        shorter_than(spans, bound) <= k,
        shorter_than(spans, bound) <= spans.len(),
    decreases spans.len(),
{
    if spans.len() > 0 {
        let rest = spans.drop_last();
        assert(spans.last() == spans[spans.len() - 1]);
        let below = if spans.len() <= k {
            spans.len() - 1
        } else {
            k
        };
        lemma_shorter_at_most(rest, bound, below);
    }
}

proof fn lemma_shorter_at_least(spans: Seq<Duration>, bound: int, k: int)
    requires
        0 <= k <= spans.len(),
        forall|j: int| 0 <= j < k ==> (#[trigger] spans[j]).nanos < bound,
    ensures
        shorter_than(spans, bound) >= k,
    decreases spans.len(),
{
    if k > 0 {
        let rest = spans.drop_last();
        assert(spans.last() == spans[spans.len() - 1]);
        let below = if k == spans.len() {
            k - 1
        } else {
            k
        };
        lemma_shorter_at_least(rest, bound, below);
    }
}

/// The latency of a rank is one that was measured, fewer than that many are
/// shorter, and that many at least are no longer. Ranks below the first mean the
/// shortest latency, ranks beyond the last the longest.
pub proof fn law_rank_counts_the_latencies(spans: Seq<Duration>, rank: int)
    requires
        spans.len() > 0,
    ensures
        ({
            let found = in_order(spans)[rank_index(rank, spans.len() as int)];
            &&& spans.contains(found)
            &&& 1 <= rank <= spans.len() ==> shorter_than(spans, found.nanos as int) < rank
                <= shorter_than(spans, found.nanos + 1)
            &&& rank <= 1 ==> shorter_than(spans, found.nanos as int) == 0
            &&& rank >= spans.len() ==> shorter_than(spans, found.nanos + 1) == spans.len()
        }),
{
    let ordered = in_order(spans);
    let index = rank_index(rank, spans.len() as int);
    let found = ordered[index];
    lemma_in_order(spans);
    crate::metrics::lemma_order_keeps_the_spans(spans);
    lemma_shorter_in_any_order(spans, ordered, found.nanos as int);
    lemma_shorter_in_any_order(spans, ordered, found.nanos + 1);
    lemma_shorter_at_most(ordered, found.nanos as int, index);
    lemma_shorter_at_least(ordered, found.nanos + 1, index + 1);
    if rank >= spans.len() {
        lemma_shorter_at_most(ordered, found.nanos + 1, ordered.len() as int);
    }
}

proof fn lemma_spaced_positions(typed: nat, stride: nat, outages: nat, p: int)
    requires
        typed <= usize::MAX,
        0 <= p < arm_steps(typed, stride, outages).len(),
        arm_steps(typed, stride, outages)[p] is Outage,
    ensures
        stride > 0,
        keystrokes_of(arm_steps(typed, stride, outages).take(p)).len() == stride * (
        arm_steps(typed, stride, outages)[p]->Outage_0 + 1),
    decreases typed,
{
    let steps = arm_steps(typed, stride, outages);
    let fewer = (typed - 1) as nat;
    let shorter = arm_steps(fewer, stride, outages);
    if p < shorter.len() {
        lemma_spaced_positions(fewer, stride, outages, p);
        assert(steps.take(p) =~= shorter.take(p));
        assert(steps[p] == shorter[p]);
    } else {
        let keystroke = shorter.push(ArmStep::Keystroke(fewer as usize));
        assert(steps.take(p) =~= keystroke);
        crate::script::lemma_spaced_keystrokes(fewer, stride, outages);
        assert(keystroke.drop_last() =~= shorter);
        assert(keystrokes_of(keystroke) == keystrokes_of(shorter).push(fewer as usize));
        vstd::arithmetic::div_mod::lemma_fundamental_div_mod(typed as int, stride as int);
        assert(typed / stride <= typed && typed / stride >= 1) by (nonlinear_arith)
            requires
                typed == stride * (typed / stride) + typed % stride,
                typed % stride == 0,
                typed > 0,
                stride > 0,
        ;
    }
}

/// In an arm with enough keystrokes to fill every gap the gaps are of one length:
/// before the outage of number `k` stand `k + 1` times the keystrokes of one gap,
/// and a gap is the keystrokes divided among the gaps. With too few, the outages
/// stand behind the first keystroke.
pub proof fn law_outages_are_evenly_spaced(count: nat, outages: nat, p: int)
    requires
        count <= usize::MAX,
        outages <= usize::MAX,
        0 <= p < arm_plan(count, outages).len(),
        arm_plan(count, outages)[p] is Outage,
    ensures
        count > outages ==> keystrokes_of(arm_plan(count, outages).take(p)).len() == (count / (
        outages + 1)) * (arm_plan(count, outages)[p]->Outage_0 + 1),
        count <= outages ==> keystrokes_of(arm_plan(count, outages).take(p)).len() == 1,
{
    let plan = arm_plan(count, outages);
    if count > outages {
        lemma_spaced_positions(count, stride_of(count, outages), outages, p);
    } else {
        let head = typed_run(0, 1) + outage_run(outages);
        if p >= head.len() {
            assert(plan[p] == typed_run(1, count)[p - head.len()]);
        }
        assert(1 <= p < head.len());
        assert(plan.take(p) =~= typed_run(0, 1) + outage_run((p - 1) as nat));
        crate::script::lemma_typed_run(0, 1);
        crate::script::lemma_outage_run((p - 1) as nat);
        crate::script::lemma_keystrokes_concatenate(
            typed_run(0, 1),
            outage_run((p - 1) as nat),
        );
    }
}

/// Before the flap of number `k` stand `k + 1` runs of keystrokes.
pub proof fn law_flaps_are_evenly_spaced(flaps: nat, per_flap: nat, p: int)
    requires
        flaps <= usize::MAX,
        0 <= p < flap_steps(flaps, per_flap).len(),
        flap_steps(flaps, per_flap)[p] is Outage,
    ensures
        keystrokes_of(flap_steps(flaps, per_flap).take(p)).len() == per_flap * (flap_steps(
            flaps,
            per_flap,
        )[p]->Outage_0 + 1),
    decreases flaps,
{
    let steps = flap_steps(flaps, per_flap);
    if flaps == 0 {
        assert(steps[p] is Keystroke);
    } else {
        let last = (flaps - 1) as nat;
        let earlier = flap_steps(last, per_flap);
        if p < earlier.len() {
            law_flaps_are_evenly_spaced(last, per_flap, p);
            assert(steps.take(p) =~= earlier.take(p));
            assert(steps[p] == earlier[p]);
        } else if p == earlier.len() {
            assert(steps.take(p) =~= earlier);
            law_every_flap_is_followed_by_keystrokes(last, per_flap);
            assert(numbers(per_flap * (last + 1)).len() == per_flap * (last + 1));
        } else {
            let run = typed_run(per_flap * flaps, per_flap * (flaps + 1));
            assert(steps[p] == run[p - earlier.len() - 1]);
        }
    }
}

} // verus!
