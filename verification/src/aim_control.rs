//! Aim-control bookkeeping over classified movement vectors.
//!
//! Movements are first put into velocity, angle and alignment buckets (a
//! floating-point step done by the caller). Within each window of eight
//! consecutive movements this module counts the switches between buckets,
//! and over all windows it builds the histogram of switch counts.

use vstd::prelude::*;

use crate::transitions::count_where;

verus! {

/// Velocity of a movement relative to its window's mean and spread.
#[derive(Clone, Copy, PartialEq, Eq, Debug, Structural)]
pub enum RelativeVelocityBucket {
    SignificantlySlower,
    Slower,
    Mean,
    Faster,
    SignificantlyFaster,
}

/// Deflection angle class of a movement.
#[derive(Clone, Copy, PartialEq, Eq, Debug, Structural)]
pub enum AngleBucket {
    /// At most 45 degrees.
    Sharp,
    /// At most 90 degrees.
    Wide,
    /// At most 135 degrees.
    Linear,
    /// Above 135 degrees.
    Flow,
    /// No deflection angle (first movement or a zero-length neighbour).
    Absent,
}

/// Alignment class of a movement against the one two steps back.
#[derive(Clone, Copy, PartialEq, Eq, Debug, Structural)]
pub enum AlignmentBucket {
    Linear,
    Orthogonal,
    AntiSymmetry,
    Absent,
}

/// Switch counts within one window of movements.
#[derive(Clone, Copy, PartialEq, Eq, Debug, Structural)]
pub struct WindowVolatility {
    pub velocity_switches: u8,
    pub angle_switches: u8,
    pub alignment_switches: u8,
}

/// Directional mechanics counted over a sequence of movements.
#[derive(Clone, Copy, PartialEq, Eq, Debug, Structural)]
pub struct VectorData {
    pub flips: usize,
    pub chirps: usize,
    pub alignment_parallel: usize,
    pub alignment_orthogonal: usize,
    pub alignment_anti_symmetric: usize,
}

/// Number of movements in a volatility window.
pub const WINDOW_SIZE: usize = 8;

/// A velocity switch between movements `i` and `i + 1`.
pub open spec fn velocity_switch(v: Seq<RelativeVelocityBucket>, i: int) -> bool {
    v[i] != v[i + 1]
}

/// An angle switch between movements `i` and `i + 1`; transitions to or from
/// a missing angle do not count.
pub open spec fn angle_switch(a: Seq<AngleBucket>, i: int) -> bool {
    a[i] != a[i + 1] && a[i] != AngleBucket::Absent && a[i + 1] != AngleBucket::Absent
}

/// An alignment switch between movements `i` and `i + 1`; transitions to or
/// from a missing alignment do not count.
pub open spec fn alignment_switch(a: Seq<AlignmentBucket>, i: int) -> bool {
    a[i] != a[i + 1] && a[i] != AlignmentBucket::Absent && a[i + 1] != AlignmentBucket::Absent
}

proof fn lemma_count_bound(n: int, pred: spec_fn(int) -> bool)
    ensures
        count_where(n, pred) <= if n < 0 { 0 } else { n },
    decreases n,
{
    if n > 0 {
        lemma_count_bound(n - 1, pred);
    }
}

/// Counts the switches between the buckets of one window of eight movements.
pub fn window_switches(
    velocity: &[RelativeVelocityBucket],
    angle: &[AngleBucket],
    alignment: &[AlignmentBucket],
) -> (w: WindowVolatility)
    requires
        velocity.len() == WINDOW_SIZE,
        angle.len() == WINDOW_SIZE,
        alignment.len() == WINDOW_SIZE,
    ensures
        w.velocity_switches == count_where(WINDOW_SIZE - 1, |i: int| velocity_switch(velocity@, i)),
        w.angle_switches == count_where(WINDOW_SIZE - 1, |i: int| angle_switch(angle@, i)),
        w.alignment_switches == count_where(WINDOW_SIZE - 1, |i: int| alignment_switch(alignment@, i)),
{
    let mut vel_switches: u8 = 0;
    let mut ang_switches: u8 = 0;
    let mut align_switches: u8 = 0;
    let mut i: usize = 0;
    while i < WINDOW_SIZE - 1
        invariant
            velocity.len() == WINDOW_SIZE,
            angle.len() == WINDOW_SIZE,
            alignment.len() == WINDOW_SIZE,
            i <= WINDOW_SIZE - 1,
            vel_switches == count_where(i as int, |k: int| velocity_switch(velocity@, k)),
            ang_switches == count_where(i as int, |k: int| angle_switch(angle@, k)),
            align_switches == count_where(i as int, |k: int| alignment_switch(alignment@, k)),
        decreases WINDOW_SIZE - 1 - i,
    {
        proof {
            lemma_count_bound(i as int, |k: int| velocity_switch(velocity@, k));
            lemma_count_bound(i as int, |k: int| angle_switch(angle@, k));
            lemma_count_bound(i as int, |k: int| alignment_switch(alignment@, k));
        }
        if velocity[i] != velocity[i + 1] {
            vel_switches = vel_switches + 1;
        }
        if angle[i] != angle[i + 1] && angle[i] != AngleBucket::Absent && angle[i + 1] != AngleBucket::Absent {
            ang_switches = ang_switches + 1;
        }
        if alignment[i] != alignment[i + 1] && alignment[i] != AlignmentBucket::Absent
            && alignment[i + 1] != AlignmentBucket::Absent {
            align_switches = align_switches + 1;
        }
        i = i + 1;
    }
    WindowVolatility {
        velocity_switches: vel_switches,
        angle_switches: ang_switches,
        alignment_switches: align_switches,
    }
}

/// Histogram bin of a switch count: 0, 1, 2, 3, and everything above 3.
pub open spec fn switch_bin(switches: u8) -> int {
    if switches >= 4 { 4 } else { switches as int }
}

/// Histograms of switch counts over all windows, one per bucket family.
#[derive(PartialEq, Eq, Debug)]
pub struct SwitchHistograms {
    pub relative_velocity: Vec<usize>,
    pub angle: Vec<usize>,
    pub direction: Vec<usize>,
}

/// Counts, for each bin of five, the windows whose switch count falls in it.
pub fn switch_histograms(volatilities: &[WindowVolatility]) -> (h: SwitchHistograms)
    ensures
        h.relative_velocity.len() == 5,
        h.angle.len() == 5,
        h.direction.len() == 5,
        forall|b: int|
            0 <= b < 5 ==> #[trigger] h.relative_velocity[b] == count_where(
                volatilities.len() as int,
                |k: int| switch_bin(volatilities@[k].velocity_switches) == b,
            ),
        forall|b: int|
            0 <= b < 5 ==> #[trigger] h.angle[b] == count_where(
                volatilities.len() as int,
                |k: int| switch_bin(volatilities@[k].angle_switches) == b,
            ),
        forall|b: int|
            0 <= b < 5 ==> #[trigger] h.direction[b] == count_where(
                volatilities.len() as int,
                |k: int| switch_bin(volatilities@[k].alignment_switches) == b,
            ),
{
    let mut vel: Vec<usize> = vec![0, 0, 0, 0, 0];
    let mut ang: Vec<usize> = vec![0, 0, 0, 0, 0];
    let mut dir: Vec<usize> = vec![0, 0, 0, 0, 0];
    let ghost v = volatilities@;
    let mut i: usize = 0;
    while i < volatilities.len()
        invariant
            v == volatilities@,
            i <= volatilities.len(),
            vel.len() == 5,
            ang.len() == 5,
            dir.len() == 5,
            forall|b: int|
                0 <= b < 5 ==> #[trigger] vel[b] == count_where(
                    i as int,
                    |k: int| switch_bin(v[k].velocity_switches) == b,
                ),
            forall|b: int|
                0 <= b < 5 ==> #[trigger] ang[b] == count_where(
                    i as int,
                    |k: int| switch_bin(v[k].angle_switches) == b,
                ),
            forall|b: int|
                0 <= b < 5 ==> #[trigger] dir[b] == count_where(
                    i as int,
                    |k: int| switch_bin(v[k].alignment_switches) == b,
                ),
        decreases volatilities.len() - i,
    {
        let w = volatilities[i];
        let bv: usize = if w.velocity_switches >= 4 { 4 } else { w.velocity_switches as usize };
        let ba: usize = if w.angle_switches >= 4 { 4 } else { w.angle_switches as usize };
        let bd: usize = if w.alignment_switches >= 4 { 4 } else { w.alignment_switches as usize };
        proof {
            lemma_count_bound(i as int, |k: int| switch_bin(v[k].velocity_switches) == bv as int);
            lemma_count_bound(i as int, |k: int| switch_bin(v[k].angle_switches) == ba as int);
            lemma_count_bound(i as int, |k: int| switch_bin(v[k].alignment_switches) == bd as int);
        }
        vel.set(bv, vel[bv] + 1);
        ang.set(ba, ang[ba] + 1);
        dir.set(bd, dir[bd] + 1);
        i = i + 1;
    }
    SwitchHistograms { relative_velocity: vel, angle: ang, direction: dir }
}

} // verus!
