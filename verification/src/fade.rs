//! Fading the windows of a workspace out and in.

use vstd::prelude::*;

use crate::tree::{wf, Nodes, Tree};
use crate::window_lists::{lemma_windows_below, windows_below};

verus! {

/// How many steps a fade takes.
pub const FADE_STEPS: u64 = 15;

/// How long after a fade out the windows become opaque again, in milliseconds.
pub const RESTORE_DELAY: u64 = 100;

/// How long after they became transparent a fade in starts, in milliseconds,
/// unless it is shorter than that.
pub const START_DELAY: u64 = 16;

/// The handles of the windows of a workspace.
pub open spec fn handles_below(m: Nodes, ws: u128) -> Seq<isize> {
    windows_below(m, ws).map_values(|w: u128| m[w].handle)
}

/// The handles of the windows of a workspace, from the outside in.
pub fn collect_fade_in_windows(tree: &Tree, ws: u128) -> (result: Vec<isize>)
    requires
        wf(tree@),
        tree@.contains_key(ws),
    ensures
        result@ == handles_below(tree@, ws),
{
    let windows = tree.windows_below(ws);
    let mut handles: Vec<isize> = Vec::new();
    let mut i: usize = 0;
    while i < windows.len()
        invariant
            wf(tree@),
            tree@.contains_key(ws),
            i <= windows@.len(),
            windows@ == windows_below(tree@, ws),
            handles@ =~= handles_below(tree@, ws).subrange(0, i as int),
        decreases windows@.len() - i,
    {
        proof {
            lemma_windows_below(tree@, ws, i as int);
        }
        handles.push(tree.get(windows[i]).handle);
        i = i + 1;
    }
    proof {
        assert(handles@ =~= handles_below(tree@, ws));
    }
    handles
}

/// One step of a fade: `step` of `FADE_STEPS` parts of the way to opaque, and
/// how long to wait after it, in milliseconds.
#[derive(Clone, Copy, Debug, PartialEq, Eq, Structural)]
pub struct FadeStep {
    pub step: u64,
    pub wait: u64,
}

/// The part number `i` of a duration that is parted into `n` whole numbers of
/// milliseconds, as even as can be.
pub open spec fn part_of(duration_ms: int, i: int, n: int) -> int {
    (i + 1) * duration_ms / n - i * duration_ms / n
}

proof fn lemma_part(duration_ms: int, i: int, n: int)
    requires
        0 <= duration_ms,
        0 <= i < n,
    ensures
        0 <= i * duration_ms / n <= (i + 1) * duration_ms / n <= duration_ms,
        0 <= part_of(duration_ms, i, n) <= duration_ms,
{
    assert(0 <= i * duration_ms <= (i + 1) * duration_ms <= n * duration_ms) by (nonlinear_arith)
        requires
            0 <= duration_ms,
            0 <= i < n,
    ;
    vstd::arithmetic::div_mod::lemma_div_is_ordered(0, i * duration_ms, n);
    vstd::arithmetic::div_mod::lemma_div_is_ordered(i * duration_ms, (i + 1) * duration_ms, n);
    vstd::arithmetic::div_mod::lemma_div_is_ordered((i + 1) * duration_ms, n * duration_ms, n);
    vstd::arithmetic::div_mod::lemma_div_multiples_vanish(duration_ms, n);
    assert(0int / n == 0) by (nonlinear_arith)
        requires
            n > 0,
    ;
}

fn part(duration_ms: u64, i: u64, n: u64) -> (result: u64)
    requires
        i < n <= FADE_STEPS,
    ensures
        result == part_of(duration_ms as int, i as int, n as int),
{
    proof {
        lemma_part(duration_ms as int, i as int, n as int);
        assert(0 <= i * duration_ms <= (i + 1) * duration_ms <= 15 * u64::MAX) by (nonlinear_arith)
            requires
                0 <= duration_ms <= u64::MAX,
                0 <= i < 15,
        ;
    }
    let before: u128 = i as u128 * duration_ms as u128 / n as u128;
    let after: u128 = (i as u128 + 1) * duration_ms as u128 / n as u128;
    (after - before) as u64
}

/// The steps of a fade out, from opaque to transparent. The time is parted
/// among the steps, with no wait after the last.
pub open spec fn fade_out_steps(duration_ms: u64) -> Seq<FadeStep> {
    Seq::new(
        (FADE_STEPS + 1) as nat,
        |i: int|
            FadeStep {
                step: (FADE_STEPS - i) as u64,
                wait: if i < FADE_STEPS {
                    part_of(duration_ms as int, i, FADE_STEPS as int) as u64
                } else {
                    0
                },
            },
    )
}

/// How long windows stay transparent before a fade in.
pub open spec fn start_wait(duration_ms: u64) -> u64 {
    if duration_ms < START_DELAY {
        duration_ms
    } else {
        START_DELAY
    }
}

/// The steps of a fade in, from almost transparent to opaque. What the start
/// leaves of the time is parted among the steps, with no wait after the last.
pub open spec fn fade_in_steps(duration_ms: u64) -> Seq<FadeStep> {
    Seq::new(
        FADE_STEPS as nat,
        |i: int|
            FadeStep {
                step: (i + 1) as u64,
                wait: if i + 1 < FADE_STEPS {
                    part_of(duration_ms - start_wait(duration_ms), i, FADE_STEPS - 1) as u64
                } else {
                    0
                },
            },
    )
}

/// The steps of a fade out of that many windows. Without windows, or without
/// time, there is none.
pub fn fade_out_workspace(windows: usize, duration_ms: u64) -> (result: Option<Vec<FadeStep>>)
    ensures
        match result {
            Some(steps) => windows > 0 && duration_ms > 0 && steps@ == fade_out_steps(duration_ms),
            None => windows == 0 || duration_ms == 0,
        },
{
    if duration_ms == 0 || windows == 0 {
        return None;
    }
    let mut steps: Vec<FadeStep> = Vec::new();
    let mut i: u64 = 0;
    while i <= FADE_STEPS
        invariant
            i <= FADE_STEPS + 1,
            steps@ =~= fade_out_steps(duration_ms).subrange(0, i as int),
        decreases FADE_STEPS + 1 - i,
    {
        let wait: u64 = if i < FADE_STEPS {
            part(duration_ms, i, FADE_STEPS)
        } else {
            0
        };
        steps.push(FadeStep { step: FADE_STEPS - i, wait });
        i = i + 1;
    }
    proof {
        assert(steps@ =~= fade_out_steps(duration_ms));
    }
    Some(steps)
}

/// How windows come in.
#[derive(Debug)]
pub enum FadeIn {
    Nothing,
    /// They become opaque at once.
    Instant,
    /// They become transparent, and after the first wait go through the steps.
    Steps { start: u64, steps: Vec<FadeStep> },
}

/// Decides how that many windows come in.
pub fn schedule_fade_in(windows: usize, duration_ms: u64) -> (result: FadeIn)
    ensures
        if windows == 0 {
            result is Nothing
        } else if duration_ms == 0 {
            result is Instant
        } else {
            result matches FadeIn::Steps { start, steps } && start == start_wait(duration_ms)
                && steps@ == fade_in_steps(duration_ms)
        },
{
    if windows == 0 {
        return FadeIn::Nothing;
    }
    if duration_ms == 0 {
        return FadeIn::Instant;
    }
    let start: u64 = if duration_ms < START_DELAY {
        duration_ms
    } else {
        START_DELAY
    };
    let left: u64 = duration_ms - start;
    let mut steps: Vec<FadeStep> = Vec::new();
    let mut i: u64 = 0;
    while i < FADE_STEPS
        invariant
            i <= FADE_STEPS,
            left == duration_ms - start_wait(duration_ms),
            steps@ =~= fade_in_steps(duration_ms).subrange(0, i as int),
        decreases FADE_STEPS - i,
    {
        let wait: u64 = if i + 1 < FADE_STEPS {
            part(left, i, FADE_STEPS - 1)
        } else {
            0
        };
        steps.push(FadeStep { step: i + 1, wait });
        i = i + 1;
    }
    proof {
        assert(steps@ =~= fade_in_steps(duration_ms));
    }
    FadeIn::Steps { start, steps }
}

/// How long the steps wait in all.
pub open spec fn total_wait(steps: Seq<FadeStep>) -> int
    decreases steps.len(),
{
    if steps.len() == 0 {
        0
    } else {
        total_wait(steps.drop_last()) + steps.last().wait
    }
}

proof fn lemma_parts_add_up(steps: Seq<FadeStep>, duration_ms: u64, n: int)
    requires
        0 <= steps.len() <= n,
        n > 0,
        forall|i: int|
            0 <= i < steps.len() ==> (#[trigger] steps[i]).wait == part_of(
                duration_ms as int,
                i,
                n,
            ) as u64,
    ensures
        total_wait(steps) == steps.len() * duration_ms / n,
    decreases steps.len(),
{
    if steps.len() == 0 {
        assert(0 * duration_ms == 0);
        assert(0int / n == 0) by (nonlinear_arith)
            requires
                n > 0,
        ;
    } else {
        let k = steps.len() - 1;
        let rest = steps.drop_last();
        assert forall|i: int| 0 <= i < rest.len() implies (#[trigger] rest[i]).wait == part_of(
            duration_ms as int,
            i,
            n,
        ) as u64 by {
            assert(rest[i] == steps[i]);
        }
        lemma_parts_add_up(rest, duration_ms, n);
        lemma_part(duration_ms as int, k, n);
        assert(steps[k].wait == part_of(duration_ms as int, k, n) as u64);
    }
}

/// A fade lasts as long as it is asked to: the waits of a fade out, and the
/// start and the waits of a fade in, add up to its duration.
pub proof fn fades_take_their_time(duration_ms: u64)
    ensures
        total_wait(fade_out_steps(duration_ms)) == duration_ms,
        start_wait(duration_ms) + total_wait(fade_in_steps(duration_ms)) == duration_ms,
{
    let n = FADE_STEPS as int;
    let out = fade_out_steps(duration_ms);
    assert(out.last().wait == 0);
    lemma_parts_add_up(out.drop_last(), duration_ms, n);
    vstd::arithmetic::div_mod::lemma_div_multiples_vanish(duration_ms as int, n);
    let left = (duration_ms - start_wait(duration_ms)) as u64;
    let into = fade_in_steps(duration_ms);
    assert(into.last().wait == 0);
    lemma_parts_add_up(into.drop_last(), left, n - 1);
    vstd::arithmetic::div_mod::lemma_div_multiples_vanish(left as int, n - 1);
}

/// A fade out ends transparent, a fade in ends opaque, and no step of either is
/// brighter or darker than it should be on the way.
pub proof fn fades_are_steady(duration_ms: u64, i: int, j: int)
    requires
        0 <= i < j < FADE_STEPS,
    ensures
        fade_out_steps(duration_ms)[FADE_STEPS as int].step == 0,
        fade_out_steps(duration_ms)[0].step == FADE_STEPS,
        fade_out_steps(duration_ms)[i].step > fade_out_steps(duration_ms)[j].step,
        fade_in_steps(duration_ms)[FADE_STEPS - 1].step == FADE_STEPS,
        fade_in_steps(duration_ms)[i].step < fade_in_steps(duration_ms)[j].step,
{
}

/// A fade out starts opaque and takes fifteen equal steps down; a fade in takes
/// the same steps up, after at most sixteen milliseconds. No two waits of a fade
/// differ by more than a millisecond, and none comes after the last step.
pub proof fn fades_have_even_steps(duration_ms: u64, i: int)
    ensures
        fade_out_steps(duration_ms).len() == 16,
        fade_in_steps(duration_ms).len() == 15,
        0 <= i < 16 ==> fade_out_steps(duration_ms)[i].step == 15 - i,
        0 <= i < 15 ==> fade_in_steps(duration_ms)[i].step == i + 1,
        fade_out_steps(duration_ms)[15].wait == 0,
        fade_in_steps(duration_ms)[14].wait == 0,
        0 <= i < 15 ==> duration_ms / 15 <= fade_out_steps(duration_ms)[i].wait <= duration_ms / 15
            + 1,
        0 <= i < 14 ==> (duration_ms - start_wait(duration_ms)) / 14 <= fade_in_steps(
            duration_ms,
        )[i].wait <= (duration_ms - start_wait(duration_ms)) / 14 + 1,
        duration_ms < 16 ==> start_wait(duration_ms) == duration_ms,
        duration_ms >= 16 ==> start_wait(duration_ms) == 16,
        RESTORE_DELAY == 100,
{
    let left = duration_ms - start_wait(duration_ms);
    assert((i + 1) * duration_ms == i * duration_ms + duration_ms) by (nonlinear_arith);
    assert((i + 1) * left == i * left + left) by (nonlinear_arith);
    if 0 <= i < 15 {
        lemma_part(duration_ms as int, i, 15);
    }
    if 0 <= i < 14 {
        lemma_part(left, i, 14);
    }
}

/// The windows of a workspace fade by their handles, one for each window.
pub proof fn fades_take_the_handles(m: Nodes, ws: u128, i: int)
    ensures
        handles_below(m, ws).len() == windows_below(m, ws).len(),
        0 <= i < handles_below(m, ws).len() ==> handles_below(m, ws)[i] == m[windows_below(
            m,
            ws,
        )[i]].handle,
{
}

} // verus!
