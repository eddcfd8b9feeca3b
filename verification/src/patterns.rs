//! Action-based patterns: runs of notes joined by short gaps.
//!
//! Consecutive notes whose gap is short (at most 150 ms, decided by the
//! caller) form one run; a run of two to six notes is a burst, seven or more
//! a stream, and a single note is a slider or a jump by its own kind.

use std::ops::Range;
use vstd::prelude::*;

use crate::rhythm_segmentation::{boundary_ranges, partitions, range_bounds};
use crate::text::{decimal, push_decimal, push_str_chars, string_from_chars};

verus! {

#[derive(Clone, Copy, PartialEq, Eq, Debug, Structural)]
pub enum PatternType {
    Jump,
    Slider,
    /// Two to six notes.
    Burst(u32),
    /// Seven or more notes.
    Stream,
}

impl PatternType {
    /// The display label of a pattern type.
    pub open spec fn label(self) -> Seq<char> {
        match self {
            PatternType::Jump => "Jump"@,
            PatternType::Slider => "Slider"@,
            PatternType::Burst(n) => decimal(n as nat) + "n Burst"@,
            PatternType::Stream => "Stream"@,
        }
    }

    /// The number of notes a pattern type stands for; streams count as seven.
    pub open spec fn notes(self) -> u32 {
        match self {
            PatternType::Jump | PatternType::Slider => 1,
            PatternType::Burst(n) => n,
            PatternType::Stream => 7,
        }
    }

    pub fn as_str(&self) -> (s: String)
        ensures
            s@ == self.label(),
    {
        match self {
            PatternType::Jump => "Jump".to_owned(),
            PatternType::Slider => "Slider".to_owned(),
            PatternType::Burst(n) => {
                let mut v: Vec<char> = Vec::new();
                push_decimal(*n as u64, &mut v);
                push_str_chars(&mut v, "n Burst");
                string_from_chars(&v)
            },
            PatternType::Stream => "Stream".to_owned(),
        }
    }

    pub fn note_count(&self) -> (n: u32)
        ensures
            n == self.notes(),
    {
        match self {
            PatternType::Jump | PatternType::Slider => 1,
            PatternType::Burst(n) => *n,
            PatternType::Stream => 7,
        }
    }

    /// True exactly for bursts with an odd note count.
    pub fn is_odd(&self) -> (b: bool)
        ensures
            b == (*self matches PatternType::Burst(n) && n % 2 != 0),
    {
        match self {
            PatternType::Burst(n) => *n % 2 != 0,
            _ => false,
        }
    }

    /// True exactly for bursts with an even note count.
    pub fn is_even(&self) -> (b: bool)
        ensures
            b == (*self matches PatternType::Burst(n) && n % 2 == 0),
    {
        match self {
            PatternType::Burst(n) => *n % 2 == 0,
            _ => false,
        }
    }
}

/// A run starts at note `j` when `j` is the first note or the gap before it
/// is not short.
pub open spec fn run_starts(close: Seq<bool>, n: int) -> Seq<bool> {
    Seq::new(n as nat, |j: int| j == 0 || !close[j - 1])
}

/// Classification of the run `start..end`.
pub open spec fn run_type(is_slider: Seq<bool>, start: int, end: int) -> PatternType {
    let count = end - start;
    if count >= 7 {
        PatternType::Stream
    } else if count >= 2 {
        PatternType::Burst(count as u32)
    } else if is_slider[start] {
        PatternType::Slider
    } else {
        PatternType::Jump
    }
}

/// Splits notes into runs: `close[i]` tells whether the gap between notes
/// `i` and `i + 1` is short; `is_slider[i]` whether note `i` is a slider.
/// Each run is returned with its classification and its note range.
pub fn pattern_runs(close: &[bool], is_slider: &[bool]) -> (out: Vec<(PatternType, Range<usize>)>)
    requires
        close.len() + 1 >= is_slider.len(),
    ensures
        partitions(
            out@.map_values(|item: (PatternType, Range<usize>)| range_bounds(item.1)),
            run_starts(close@, is_slider.len() as int),
            is_slider.len() as int,
        ),
        forall|r: int|
            0 <= r < out.len() ==> #[trigger] out[r].0 == run_type(
                is_slider@,
                out[r].1.start as int,
                out[r].1.end as int,
            ),
{
    let n = is_slider.len();
    let mut starts: Vec<bool> = Vec::new();
    let mut j: usize = 0;
    while j < n
        invariant
            n == is_slider.len(),
            close.len() + 1 >= n,
            j <= n,
            starts@ == run_starts(close@, n as int).take(j as int),
        decreases n - j,
    {
        starts.push(j == 0 || !close[j - 1]);
        j = j + 1;
        assert(starts@ =~= run_starts(close@, n as int).take(j as int));
    }
    assert(starts@ =~= run_starts(close@, n as int));
    let ranges = boundary_ranges(starts.as_slice(), n);
    let ghost gb = ranges@.map_values(|r: Range<usize>| range_bounds(r));
    let mut out: Vec<(PatternType, Range<usize>)> = Vec::new();
    let mut r: usize = 0;
    while r < ranges.len()
        invariant
            r <= ranges.len(),
            n == is_slider.len(),
            gb == ranges@.map_values(|r: Range<usize>| range_bounds(r)),
            forall|q: int| 0 <= q < ranges.len() ==> #[trigger] ranges[q].start < ranges[q].end <= n,
            out.len() == r,
            forall|q: int| 0 <= q < r ==> #[trigger] range_bounds(out[q].1) == gb[q],
            forall|q: int|
                0 <= q < r ==> #[trigger] out[q].0 == run_type(
                    is_slider@,
                    out[q].1.start as int,
                    out[q].1.end as int,
                ),
        decreases ranges.len() - r,
    {
        let start = ranges[r].start;
        let end = ranges[r].end;
        let count = end - start;
        let p = if count >= 7 {
            PatternType::Stream
        } else if count >= 2 {
            PatternType::Burst(count as u32)
        } else if is_slider[start] {
            PatternType::Slider
        } else {
            PatternType::Jump
        };
        out.push((p, start..end));
        r = r + 1;
    }
    assert(out@.map_values(|item: (PatternType, Range<usize>)| range_bounds(item.1)) =~= gb);
    out
}

/// A run of two or more notes is a burst of its length (two to six notes)
/// or a stream (seven or more), whatever kind its first note is; only a
/// single note is a slider or a jump, by its own kind. The type's note
/// count is the run's length, capped at seven.
pub proof fn law_runs_are_classified_by_length(is_slider: Seq<bool>, start: int, end: int)
    requires
        0 <= start < end <= is_slider.len(),
        end - start <= u32::MAX,
    ensures
        end - start >= 7 ==> run_type(is_slider, start, end) == PatternType::Stream,
        2 <= end - start < 7 ==> run_type(is_slider, start, end) == PatternType::Burst((end - start) as u32),
        end - start == 1 ==> (run_type(is_slider, start, end) == PatternType::Slider <==> is_slider[start]),
        end - start == 1 ==> (run_type(is_slider, start, end) == PatternType::Jump <==> !is_slider[start]),
        run_type(is_slider, start, end).notes() == if end - start >= 7 {
            7
        } else {
            end - start
        },
{
}

} // verus!
