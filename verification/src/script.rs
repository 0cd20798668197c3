//! The order of keystrokes and outages in an arm of a benchmark.
use vstd::arithmetic::div_mod::{
    lemma_basic_div, lemma_div_pos_is_pos, lemma_fundamental_div_mod,
    lemma_fundamental_div_mod_converse, lemma_mod_bound,
};
use vstd::prelude::*;

verus! {

/// Markers typed per arm unless the caller asks for another number.
pub const DEFAULT_KEYSTROKES: usize = 60;

/// Flaps per variant of the address-change scenario.
pub const FLAPS: usize = 4;

/// Ordinary keystrokes measured after every flap, and before the first one.
pub const KEYSTROKES_PER_FLAP: usize = 8;

/// One thing to do in an arm, by its number.
#[derive(Clone, Copy, Debug, PartialEq, Eq, Structural)]
pub enum ArmStep {
    /// Measure the keystroke of this number.
    Keystroke(usize),
    /// Run the outage of this number.
    Outage(usize),
}

/// The first `typed` keystrokes of an arm that spaces `outages` outages
/// `stride` keystrokes apart, each outage right after the keystroke that is due
/// before it.
pub open spec fn arm_steps(typed: nat, stride: nat, outages: nat) -> Seq<ArmStep>
    decreases typed,
{
    if typed == 0 {
        Seq::empty()
    } else {
        let last = (typed - 1) as nat;
        let keystroke = arm_steps(last, stride, outages).push(ArmStep::Keystroke(last as usize));
        if stride > 0 && typed % stride == 0 && typed / stride <= outages {
            keystroke.push(ArmStep::Outage((typed / stride - 1) as usize))
        } else {
            keystroke
        }
    }
}

/// Number of keystrokes from one outage to the next, with some left for after the
/// last one.
pub open spec fn stride_of(count: nat, outages: nat) -> nat {
    count / (outages + 1)
}

/// Outages `0` to `outages`, in order.
pub open spec fn outage_run(outages: nat) -> Seq<ArmStep> {
    Seq::new(outages, |i: int| ArmStep::Outage(i as usize))
}

/// The steps of an arm of `count` keystrokes. With enough keystrokes to fill
/// every gap the outages are spaced through the run. With fewer they all take
/// place behind the first keystroke. Without any there is nothing to measure.
pub open spec fn arm_plan(count: nat, outages: nat) -> Seq<ArmStep> {
    if count > outages {
        arm_steps(count, stride_of(count, outages), outages)
    } else if count > 0 {
        typed_run(0, 1) + outage_run(outages) + typed_run(1, count)
    } else {
        Seq::empty()
    }
}

/// The steps of an arm of `count` keystrokes. Outages are spaced through the run
/// so each is preceded and followed by ordinary measured keystrokes, and every
/// outage is measured as soon as anything is typed.
pub fn arm_script(count: usize, outages: usize) -> (steps: Vec<ArmStep>)
    requires
        outages < usize::MAX,
    ensures
        steps@ == arm_plan(count as nat, outages as nat),
        keystrokes_of(steps@) == numbers(count as nat),
        count > 0 ==> outages_of(steps@) == numbers(outages as nat),
        count > outages ==> steps@ == arm_steps(
            count as nat,
            stride_of(count as nat, outages as nat),
            outages as nat,
        ),
{
    proof {
        law_every_keystroke_is_typed(count as nat, outages as nat);
        law_outages_run_in_order(count as nat, outages as nat);
    }
    if count > outages {
        return spaced_script(count, outages);
    }
    let mut steps: Vec<ArmStep> = Vec::new();
    if count == 0 {
        return steps;
    }
    type_run(&mut steps, 0, 1);
    let mut outage: usize = 0;
    assert(steps@ =~= typed_run(0, 1) + outage_run(0));
    while outage < outages
        invariant
            outage <= outages,
            steps@ == typed_run(0, 1) + outage_run(outage as nat),
        decreases outages - outage,
    {
        steps.push(ArmStep::Outage(outage));
        outage = outage + 1;
        assert(steps@ =~= typed_run(0, 1) + outage_run(outage as nat));
    }
    type_run(&mut steps, 1, count);
    steps
}

fn spaced_script(count: usize, outages: usize) -> (steps: Vec<ArmStep>)
    requires
        outages < usize::MAX,
    ensures
        steps@ == arm_steps(count as nat, stride_of(count as nat, outages as nat), outages as nat),
{
    let stride: usize = count / (outages + 1);
    let mut steps: Vec<ArmStep> = Vec::new();
    let mut next: usize = 0;
    let mut index: usize = 0;
    assert(steps@ =~= arm_steps(0, stride as nat, outages as nat));
    proof {
        lemma_product_fits(stride as int, count as int, outages as int);
        assert(stride > 0 ==> 0int / (stride as int) == 0) by {
            if stride > 0 {
                lemma_basic_div(0, stride as int);
            }
        }
    }
    while index < count
        invariant
            index <= count,
            next <= outages,
            outages < usize::MAX,
            stride == count as int / (outages + 1),
            steps@ == arm_steps(index as nat, stride as nat, outages as nat),
            stride == 0 ==> next == 0,
            stride > 0 ==> next == if index as int / stride as int <= outages {
                index as int / stride as int
            } else {
                outages as int
            },
        decreases count - index,
    {
        steps.push(ArmStep::Keystroke(index));
        proof {
            lemma_product_fits(stride as int, count as int, outages as int);
            if stride > 0 {
                lemma_next_outage(index as int, stride as int, next as int, outages as int);
            }
            assert(stride * (next + 1) <= count || next == outages) by (nonlinear_arith)
                requires
                    stride * (outages + 1) <= count,
                    0 <= next <= outages,
                    0 <= stride,
            ;
        }
        if next < outages && index + 1 == stride * (next + 1) {
            steps.push(ArmStep::Outage(next));
            next = next + 1;
        }
        index = index + 1;
    }
    steps
}

proof fn lemma_product_fits(stride: int, count: int, outages: int)
    requires
        count >= 0,
        outages >= 0,
        stride == count / (outages + 1),
    ensures
        stride * (outages + 1) <= count,
        stride >= 0,
{
    lemma_fundamental_div_mod(count, outages + 1);
    lemma_div_pos_is_pos(count, outages + 1);
    assert(stride * (outages + 1) == (outages + 1) * stride) by (nonlinear_arith);
}

/// With `next` outages behind it, keystroke `index` is followed by one exactly
/// if it fills the next gap.
proof fn lemma_next_outage(index: int, stride: int, next: int, outages: int)
    requires
        index >= 0,
        stride > 0,
        outages >= 0,
        next == if index / stride <= outages {
            index / stride
        } else {
            outages
        },
    ensures
        ({
            let typed = index + 1;
            let due = next < outages && typed == stride * (next + 1);
            &&& due == (typed % stride == 0 && typed / stride <= outages)
            &&& due ==> typed / stride == next + 1
            &&& (if due {
                next + 1
            } else {
                next
            }) == (if typed / stride <= outages {
                typed / stride
            } else {
                outages
            })
        }),
{
    let q = index / stride;
    let r = index % stride;
    lemma_fundamental_div_mod(index, stride);
    lemma_mod_bound(index, stride);
    let typed = index + 1;
    if r + 1 == stride {
        assert(typed == stride * (q + 1) + 0) by (nonlinear_arith)
            requires
                index == stride * q + r,
                r + 1 == stride,
                typed == index + 1,
        ;
        lemma_fundamental_div_mod_converse(typed, stride, q + 1, 0);
        if next == outages && q > outages {
            assert(typed != stride * (next + 1)) by (nonlinear_arith)
                requires
                    typed == stride * (q + 1),
                    q > next,
                    stride > 0,
            ;
        }
    } else {
        assert(typed == stride * q + (r + 1));
        lemma_fundamental_div_mod_converse(typed, stride, q, r + 1);
        if q <= outages {
            assert(typed < stride * (next + 1)) by (nonlinear_arith)
                requires
                    typed == stride * q + (r + 1),
                    r + 1 < stride,
                    next == q,
            ;
        }
    }
}

/// The keystrokes `from` to `to`, in order.
pub open spec fn typed_run(from: nat, to: nat) -> Seq<ArmStep> {
    Seq::new((to - from) as nat, |i: int| ArmStep::Keystroke((from + i) as usize))
}

/// `per_flap` keystrokes, then `flaps` times a flap and `per_flap` more.
pub open spec fn flap_steps(flaps: nat, per_flap: nat) -> Seq<ArmStep>
    decreases flaps,
{
    if flaps == 0 {
        typed_run(0, per_flap)
    } else {
        flap_steps((flaps - 1) as nat, per_flap).push(ArmStep::Outage((flaps - 1) as usize))
            + typed_run(per_flap * flaps, per_flap * (flaps + 1))
    }
}

/// Appends the keystrokes `from` to `to`.
fn type_run(steps: &mut Vec<ArmStep>, from: usize, to: usize)
    requires
        from <= to,
    ensures
        final(steps)@ == old(steps)@ + typed_run(from as nat, to as nat),
{
    let ghost before = steps@;
    let mut index: usize = from;
    assert(before =~= before + typed_run(from as nat, from as nat));
    while index < to
        invariant
            from <= index <= to,
            steps@ == before + typed_run(from as nat, index as nat),
        decreases to - index,
    {
        steps.push(ArmStep::Keystroke(index));
        index = index + 1;
        assert(steps@ =~= before + typed_run(from as nat, index as nat));
    }
}

/// The steps of an arm of the address-change scenario.
pub fn flap_script(flaps: usize, per_flap: usize) -> (steps: Vec<ArmStep>)
    requires
        per_flap * (flaps + 1) <= usize::MAX,
    ensures
        steps@ == flap_steps(flaps as nat, per_flap as nat),
{
    let mut steps: Vec<ArmStep> = Vec::new();
    type_run(&mut steps, 0, per_flap);
    assert(steps@ =~= flap_steps(0, per_flap as nat));
    let mut flap: usize = 0;
    let mut typed: usize = per_flap;
    while flap < flaps
        invariant
            flap <= flaps,
            per_flap * (flaps + 1) <= usize::MAX,
            typed == per_flap * (flap + 1),
            steps@ == flap_steps(flap as nat, per_flap as nat),
        decreases flaps - flap,
    {
        assert(per_flap * (flap + 2) == per_flap * (flap + 1) + per_flap && per_flap * (flap + 2)
            <= per_flap * (flaps + 1)) by (nonlinear_arith)
            requires
                flap < flaps,
                per_flap >= 0,
        ;
        steps.push(ArmStep::Outage(flap));
        type_run(&mut steps, typed, typed + per_flap);
        typed = typed + per_flap;
        flap = flap + 1;
        assert(steps@ =~= flap_steps(flap as nat, per_flap as nat));
    }
    steps
}

/// The numbers of the keystrokes among the steps, in the order they are typed.
pub open spec fn keystrokes_of(steps: Seq<ArmStep>) -> Seq<usize>
    decreases steps.len(),
{
    if steps.len() == 0 {
        Seq::empty()
    } else {
        match steps.last() {
            ArmStep::Keystroke(index) => keystrokes_of(steps.drop_last()).push(index),
            ArmStep::Outage(_) => keystrokes_of(steps.drop_last()),
        }
    }
}

/// The numbers of the outages among the steps, in the order they take place.
pub open spec fn outages_of(steps: Seq<ArmStep>) -> Seq<usize>
    decreases steps.len(),
{
    if steps.len() == 0 {
        Seq::empty()
    } else {
        match steps.last() {
            ArmStep::Keystroke(_) => outages_of(steps.drop_last()),
            ArmStep::Outage(index) => outages_of(steps.drop_last()).push(index),
        }
    }
}

/// The numbers below `count`, in order.
pub open spec fn numbers(count: nat) -> Seq<usize> {
    Seq::new(count, |i: int| i as usize)
}

proof fn lemma_arm_step(typed: nat, stride: nat, outages: nat)
    requires
        typed > 0,
    ensures
        ({
            let shorter = arm_steps((typed - 1) as nat, stride, outages);
            let steps = arm_steps(typed, stride, outages);
            let due = stride > 0 && typed % stride == 0 && typed / stride <= outages;
            &&& keystrokes_of(steps) == keystrokes_of(shorter).push((typed - 1) as usize)
            &&& outages_of(steps) == if due {
                outages_of(shorter).push((typed / stride - 1) as usize)
            } else {
                outages_of(shorter)
            }
        }),
{
    let shorter = arm_steps((typed - 1) as nat, stride, outages);
    let keystroke = shorter.push(ArmStep::Keystroke((typed - 1) as usize));
    assert(keystroke.drop_last() =~= shorter);
    assert(keystrokes_of(keystroke) == keystrokes_of(shorter).push((typed - 1) as usize));
    assert(outages_of(keystroke) == outages_of(shorter));
    let steps = arm_steps(typed, stride, outages);
    if stride > 0 && typed % stride == 0 && typed / stride <= outages {
        assert(steps.drop_last() =~= keystroke);
    }
}

pub(crate) proof fn lemma_spaced_keystrokes(count: nat, stride: nat, outages: nat)
    ensures
        keystrokes_of(arm_steps(count, stride, outages)) == numbers(count),
    decreases count,
{
    if count == 0 {
        assert(keystrokes_of(arm_steps(count, stride, outages)) =~= numbers(count));
    } else {
        lemma_spaced_keystrokes((count - 1) as nat, stride, outages);
        lemma_arm_step(count, stride, outages);
        assert(numbers(count) =~= numbers((count - 1) as nat).push((count - 1) as usize));
    }
}

proof fn lemma_outages_so_far(typed: nat, stride: nat, outages: nat)
    requires
        stride > 0,
    ensures
        outages_of(arm_steps(typed, stride, outages)) == numbers(
            if typed / stride <= outages {
                typed / stride
            } else {
                outages
            },
        ),
    decreases typed,
{
    if typed == 0 {
        lemma_basic_div(0, stride as int);
        assert(outages_of(arm_steps(typed, stride, outages)) =~= numbers(0));
    } else {
        let last = (typed - 1) as nat;
        lemma_outages_so_far(last, stride, outages);
        lemma_arm_step(typed, stride, outages);
        let next = if last / stride <= outages {
            last / stride
        } else {
            outages
        };
        lemma_next_outage(last as int, stride as int, next as int, outages as int);
        assert(numbers(next + 1) =~= numbers(next).push(next as usize));
    }
}

proof fn lemma_spaced_outages(count: nat, outages: nat)
    requires
        count > outages,
    ensures
        stride_of(count, outages) > 0,
        outages_of(arm_steps(count, stride_of(count, outages), outages)) == numbers(outages),
{
    let stride = stride_of(count, outages);
    lemma_product_fits(stride as int, count as int, outages as int);
    lemma_fundamental_div_mod(count as int, outages as int + 1);
    lemma_mod_bound(count as int, outages as int + 1);
    assert(stride > 0) by {
        if stride == 0 {
            assert((outages + 1) * stride == 0) by (nonlinear_arith)
                requires
                    stride == 0,
            ;
        }
    }
    lemma_outages_so_far(count, stride, outages);
    lemma_fundamental_div_mod(count as int, stride as int);
    lemma_mod_bound(count as int, stride as int);
    assert(count / stride >= outages) by (nonlinear_arith)
        requires
            stride * (outages + 1) <= count,
            count == stride * (count / stride) + count % stride,
            count % stride < stride,
            stride > 0,
    ;
}

pub(crate) proof fn lemma_outage_run(outages: nat)
    ensures
        keystrokes_of(outage_run(outages)) == numbers(0),
        outages_of(outage_run(outages)) == numbers(outages),
    decreases outages,
{
    let run = outage_run(outages);
    if outages > 0 {
        let fewer = (outages - 1) as nat;
        lemma_outage_run(fewer);
        assert(run.drop_last() =~= outage_run(fewer));
    }
    assert(keystrokes_of(run) =~= numbers(0));
    assert(outages_of(run) =~= numbers(outages));
}

/// What an arm with too few keystrokes to fill every gap types and loses.
proof fn lemma_bunched(count: nat, outages: nat)
    requires
        0 < count <= outages,
    ensures
        keystrokes_of(arm_plan(count, outages)) == numbers(count),
        outages_of(arm_plan(count, outages)) == numbers(outages),
{
    let first = typed_run(0, 1);
    let dark = outage_run(outages);
    let rest = typed_run(1, count);
    lemma_typed_run(0, 1);
    lemma_outage_run(outages);
    lemma_typed_run(1, count);
    lemma_keystrokes_concatenate(first, dark);
    lemma_keystrokes_concatenate(first + dark, rest);
    assert(keystrokes_of(arm_plan(count, outages)) =~= numbers(count));
    assert(outages_of(arm_plan(count, outages)) =~= numbers(outages));
}

/// Every keystroke of an arm is typed once, in order, outages or not.
pub proof fn law_every_keystroke_is_typed(count: nat, outages: nat)
    ensures
        keystrokes_of(arm_plan(count, outages)) == numbers(count),
{
    if count > outages {
        lemma_spaced_keystrokes(count, stride_of(count, outages), outages);
    } else if count > 0 {
        lemma_bunched(count, outages);
    } else {
        assert(keystrokes_of(arm_plan(count, outages)) =~= numbers(count));
    }
}

/// An arm that types anything runs every outage once, in order.
pub proof fn law_outages_run_in_order(count: nat, outages: nat)
    ensures
        count > 0 ==> outages_of(arm_plan(count, outages)) == numbers(outages),
        count == 0 ==> arm_plan(count, outages).len() == 0,
{
    if count > outages {
        lemma_spaced_outages(count, outages);
    } else if count > 0 {
        lemma_bunched(count, outages);
    }
}

proof fn lemma_outage_neighbours(typed: nat, stride: nat, outages: nat, p: int)
    requires
        0 <= p < arm_steps(typed, stride, outages).len(),
        arm_steps(typed, stride, outages)[p] is Outage,
    ensures
        ({
            let steps = arm_steps(typed, stride, outages);
            &&& stride > 0
            &&& 0 < p
            &&& steps[p - 1] is Keystroke
            &&& p + 1 < steps.len() ==> steps[p + 1] is Keystroke
            &&& p + 1 == steps.len() ==> typed % stride == 0 && typed / stride <= outages
        }),
    decreases typed,
{
    let shorter = arm_steps((typed - 1) as nat, stride, outages);
    if p < shorter.len() {
        lemma_outage_neighbours((typed - 1) as nat, stride, outages, p);
    }
}

/// In an arm with enough keystrokes to fill every gap, each outage is right
/// behind one ordinary keystroke and right before another.
pub proof fn law_outages_are_surrounded(count: nat, outages: nat, p: int)
    requires
        count > outages,
        0 <= p < arm_plan(count, outages).len(),
        arm_plan(count, outages)[p] is Outage,
    ensures
        0 < p < arm_plan(count, outages).len() - 1,
        arm_plan(count, outages)[p - 1] is Keystroke,
        arm_plan(count, outages)[p + 1] is Keystroke,
{
    let stride = stride_of(count, outages);
    let steps = arm_plan(count, outages);
    lemma_outage_neighbours(count, stride, outages, p);
    if p + 1 == steps.len() {
        lemma_product_fits(stride as int, count as int, outages as int);
        lemma_fundamental_div_mod(count as int, stride as int);
        assert(false) by (nonlinear_arith)
            requires
                stride > 0,
                stride * (outages + 1) <= count,
                count == stride * (count / stride) + count % stride,
                count % stride == 0,
                count / stride <= outages,
        ;
    }
}

/// An arm of two keystrokes or more begins and ends with one, so every outage
/// has ordinary keystrokes before and after it.
pub proof fn law_outages_lie_between_keystrokes(count: nat, outages: nat)
    requires
        count >= 2,
    ensures
        arm_plan(count, outages).len() >= 2,
        arm_plan(count, outages).first() is Keystroke,
        arm_plan(count, outages).last() is Keystroke,
{
    let steps = arm_plan(count, outages);
    if count > outages {
        let stride = stride_of(count, outages);
        lemma_arm_length(count, stride, outages);
        if steps.last() is Outage {
            law_outages_are_surrounded(count, outages, steps.len() - 1);
        }
        if steps.first() is Outage {
            law_outages_are_surrounded(count, outages, 0);
        }
    } else {
        assert(steps.last() == typed_run(1, count).last());
    }
}

proof fn lemma_arm_length(typed: nat, stride: nat, outages: nat)
    ensures
        arm_steps(typed, stride, outages).len() >= typed,
    decreases typed,
{
    if typed > 0 {
        lemma_arm_length((typed - 1) as nat, stride, outages);
    }
}

pub(crate) proof fn lemma_keystrokes_concatenate(first: Seq<ArmStep>, second: Seq<ArmStep>)
    ensures
        keystrokes_of(first + second) == keystrokes_of(first) + keystrokes_of(second),
        outages_of(first + second) == outages_of(first) + outages_of(second),
    decreases second.len(),
{
    if second.len() == 0 {
        assert(first + second =~= first);
        assert(keystrokes_of(first) + keystrokes_of(second) =~= keystrokes_of(first));
        assert(outages_of(first) + outages_of(second) =~= outages_of(first));
    } else {
        lemma_keystrokes_concatenate(first, second.drop_last());
        assert((first + second).drop_last() =~= first + second.drop_last());
        assert(keystrokes_of(first + second) =~= keystrokes_of(first) + keystrokes_of(second));
        assert(outages_of(first + second) =~= outages_of(first) + outages_of(second));
    }
}

pub(crate) proof fn lemma_typed_run(from: nat, to: nat)
    requires
        from <= to,
    ensures
        keystrokes_of(typed_run(from, to)) == Seq::new(
            (to - from) as nat,
            |i: int| (from + i) as usize,
        ),
        outages_of(typed_run(from, to)) == numbers(0),
    decreases to - from,
{
    let run = typed_run(from, to);
    let written = Seq::new((to - from) as nat, |i: int| (from + i) as usize);
    if from < to {
        lemma_typed_run(from, (to - 1) as nat);
        assert(run.drop_last() =~= typed_run(from, (to - 1) as nat));
    }
    assert(keystrokes_of(run) =~= written);
    assert(outages_of(run) =~= numbers(0));
}

/// Every flap takes place once, in order, and every keystroke is typed once, in
/// order: `per_flap` of them before the first flap and after each one.
pub proof fn law_every_flap_is_followed_by_keystrokes(flaps: nat, per_flap: nat)
    ensures
        keystrokes_of(flap_steps(flaps, per_flap)) == numbers(per_flap * (flaps + 1)),
        outages_of(flap_steps(flaps, per_flap)) == numbers(flaps),
    decreases flaps,
{
    let steps = flap_steps(flaps, per_flap);
    if flaps == 0 {
        lemma_typed_run(0, per_flap);
        assert(per_flap * 1 == per_flap);
        assert(keystrokes_of(steps) =~= numbers(per_flap));
    } else {
        let last = (flaps - 1) as nat;
        let earlier = flap_steps(last, per_flap);
        let flap = earlier.push(ArmStep::Outage(last as usize));
        law_every_flap_is_followed_by_keystrokes(last, per_flap);
        assert(per_flap * (flaps + 1) == per_flap * flaps + per_flap) by (nonlinear_arith);
        lemma_typed_run(per_flap * flaps, per_flap * (flaps + 1));
        lemma_keystrokes_concatenate(flap, typed_run(per_flap * flaps, per_flap * (flaps + 1)));
        assert(flap.drop_last() =~= earlier);
        assert(keystrokes_of(steps) =~= numbers(per_flap * (flaps + 1)));
        assert(outages_of(steps) =~= numbers(flaps));
    }
}

} // verus!
