//! Rhythm-based pattern segmentation: the integer core.
//!
//! Hit objects are split into patterns by boundary flags that combine three
//! signals: a gap threshold between consecutive notes, a rhythm (or temporal)
//! discontinuity at a middle note, and asymmetric type-boundary rules between
//! circles and sliders. The floating-point measurements (gaps, snap ratios and
//! distances) are reduced to booleans by the caller; this module decides the
//! boundaries, groups the notes into contiguous patterns and classifies each
//! pattern by its composition.

use std::ops::Range;
use vstd::prelude::*;

use crate::text::{decimal, push_decimal, push_str_chars, string_from_chars};

verus! {

/// Kind of a hit object as seen by the type-boundary rules.
#[derive(Clone, Copy, PartialEq, Eq, Debug, Structural)]
pub enum ObjKind {
    Circle,
    Slider,
    /// Spinners, holds and anything else that is neither circle nor slider.
    Other,
}

/// Pattern classification by composition.
#[derive(Clone, Copy, PartialEq, Eq, Debug, Structural)]
pub enum PatternType {
    Jump,
    Slider,
    /// Two to six notes.
    Burst(u32),
    /// Seven or more notes.
    Stream,
    /// A pure run of two or more sliders.
    SliderChain,
}

impl PatternType {
    /// The display label of a pattern type.
    pub open spec fn label(self) -> Seq<char> {
        match self {
            PatternType::Jump => "Jump"@,
            PatternType::Slider => "Slider"@,
            PatternType::Burst(n) => decimal(n as nat) + "n Burst"@,
            PatternType::Stream => "Stream"@,
            PatternType::SliderChain => "SliderChain"@,
        }
    }

    /// The number of notes a pattern type stands for; long runs count as seven.
    pub open spec fn notes(self) -> u32 {
        match self {
            PatternType::Jump | PatternType::Slider => 1,
            PatternType::Burst(n) => n,
            PatternType::Stream | PatternType::SliderChain => 7,
        }
    }

    pub fn as_str(&self) -> (s: String)
        ensures
            s@ == self.label(),
    {
        match self {
            PatternType::Jump => "Jump".to_owned(),
            PatternType::Slider => "Slider".to_owned(),
            PatternType::Burst(n) => {
                let mut v: Vec<char> = Vec::new();
                push_decimal(*n as u64, &mut v);
                push_str_chars(&mut v, "n Burst");
                string_from_chars(&v)
            },
            PatternType::Stream => "Stream".to_owned(),
            PatternType::SliderChain => "SliderChain".to_owned(),
        }
    }

    pub fn note_count(&self) -> (n: u32)
        ensures
            n == self.notes(),
    {
        match self {
            PatternType::Jump | PatternType::Slider => 1,
            PatternType::Burst(n) => *n,
            PatternType::Stream | PatternType::SliderChain => 7,
        }
    }

    /// True exactly for bursts with an odd note count.
    pub fn is_odd(&self) -> (b: bool)
        ensures
            b == (self matches PatternType::Burst(n) && n % 2 != 0),
    {
        match self {
            PatternType::Burst(n) => *n % 2 != 0,
            _ => false,
        }
    }

    /// True exactly for bursts with an even note count.
    pub fn is_even(&self) -> (b: bool)
        ensures
            b == (self matches PatternType::Burst(n) && n % 2 == 0),
    {
        match self {
            PatternType::Burst(n) => *n % 2 == 0,
            _ => false,
        }
    }
}

/// Length of the run of consecutive sliders starting at index `i`.
pub open spec fn slider_run(kinds: Seq<ObjKind>, i: int) -> nat
    decreases kinds.len() - i,
{
    if 0 <= i < kinds.len() && kinds[i] == ObjKind::Slider {
        1 + slider_run(kinds, i + 1)
    } else {
        0
    }
}

/// Consecutive sliders starting at index `i`.
pub fn slider_run_from(kinds: &[ObjKind], i: usize) -> (n: usize)
    ensures
        n == slider_run(kinds@, i as int),
{
    let mut n: usize = 0;
    while n < kinds.len() && i < kinds.len() - n && kinds[i + n] == ObjKind::Slider
        invariant
            n == 0 || i + n <= kinds.len(),
            slider_run(kinds@, i as int) == n + slider_run(kinds@, i + n),
        decreases kinds.len() - n,
    {
        n = n + 1;
    }
    n
}

/// The discontinuity signal at middle note `k` is suppressed when the window
/// `(k - 1, k, k + 1)` straddles a slider-to-circle transition.
pub open spec fn skips_discontinuity(kinds: Seq<ObjKind>, k: int) -> bool {
    (kinds[k - 1] == ObjKind::Slider && kinds[k] == ObjKind::Circle)
        || (kinds[k] == ObjKind::Slider && kinds[k + 1] == ObjKind::Circle)
}

/// Whether the discontinuity signal is skipped at middle note `k`: the window
/// around `k` straddles a slider-to-circle type transition. Circle-to-slider
/// windows keep the signal.
pub fn skip_discontinuity(kinds: &[ObjKind], k: usize) -> (b: bool)
    requires
        1 <= k < kinds.len(),
        kinds[k as int] == ObjKind::Slider ==> k + 1 < kinds.len(),
    ensures
        b == skips_discontinuity(kinds@, k as int),
{
    (kinds[k - 1] == ObjKind::Slider && kinds[k] == ObjKind::Circle)
        || (kinds[k] == ObjKind::Slider && kinds[k + 1] == ObjKind::Circle)
}

/// The distance flag between objects `i` and `i + 1` is consulted: a circle
/// followed by a lone slider.
pub open spec fn needs_distance(kinds: Seq<ObjKind>, i: int) -> bool {
    kinds[i] == ObjKind::Circle && kinds[i + 1] == ObjKind::Slider && slider_run(kinds, i + 1) < 2
}

/// `far` holds a flag for every adjacent pair whose distance the rules consult.
pub open spec fn far_covers(kinds: Seq<ObjKind>, far: Seq<bool>) -> bool {
    forall|i: int| 0 <= i < kinds.len() - 1 && #[trigger] needs_distance(kinds, i) ==> i < far.len()
}

/// The type rules put a boundary before note `j` (for `1 <= j < len`):
/// never merge across a spinner or hold, always split slider-to-circle, and
/// split circle-to-slider unless a lone slider lies within engulf distance.
pub open spec fn type_boundary(kinds: Seq<ObjKind>, far: Seq<bool>, j: int) -> bool {
    let a = kinds[j - 1];
    let b = kinds[j];
    ||| a == ObjKind::Other
    ||| b == ObjKind::Other
    ||| (a == ObjKind::Slider && b == ObjKind::Circle)
    ||| (a == ObjKind::Circle && b == ObjKind::Slider && (slider_run(kinds, j) >= 2 || far[j - 1]))
}

/// Applies the asymmetric type-boundary rules on top of existing boundaries.
/// `far[i]` tells whether objects `i` and `i + 1` lie farther apart than the
/// engulf proximity.
pub fn apply_type_rules(kinds: &[ObjKind], far: &[bool], is_boundary: &mut Vec<bool>)
    requires
        kinds.len() <= 1 || old(is_boundary).len() >= kinds.len(),
        far_covers(kinds@, far@),
    ensures
        final(is_boundary).len() == old(is_boundary).len(),
        forall|j: int|
            0 <= j < old(is_boundary).len() ==> #[trigger] final(is_boundary)[j] == (old(
                is_boundary,
            )[j] || (1 <= j < kinds.len() && type_boundary(kinds@, far@, j))),
{
    let n = kinds.len();
    if n <= 1 {
        return;
    }
    let mut i: usize = 0;
    while i < n - 1
        invariant
            n == kinds.len(),
            2 <= n <= is_boundary.len(),
            i <= n - 1,
            far_covers(kinds@, far@),
            is_boundary.len() == old(is_boundary).len(),
            forall|j: int|
                0 <= j < is_boundary.len() ==> #[trigger] is_boundary[j] == (old(is_boundary)[j] || (
                1 <= j <= i && type_boundary(kinds@, far@, j))),
        decreases n - 1 - i,
    {
        let a = kinds[i];
        let b = kinds[i + 1];
        let split = if a == ObjKind::Other || b == ObjKind::Other {
            true
        } else if a == ObjKind::Slider && b == ObjKind::Circle {
            true
        } else if a == ObjKind::Circle && b == ObjKind::Slider {
            let run = slider_run_from(kinds, i + 1);
            if run >= 2 {
                true
            } else {
                assert(needs_distance(kinds@, i as int));
                far[i]
            }
        } else {
            false
        };
        assert(split == type_boundary(kinds@, far@, i + 1));
        if split {
            is_boundary.set(i + 1, true);
        }
        i = i + 1;
    }
}

/// Boundary detection for segmentation: note 0 starts a pattern; a gap break
/// `gap_breaks[i]` between notes `i` and `i + 1` starts one at `i + 1`; a
/// discontinuity at middle note `k` (`1 <= k <= len - 2`) starts one at
/// `k + 1` unless the window straddles a slider-to-circle transition; and the
/// type rules add theirs.
pub open spec fn segment_boundary(
    kinds: Seq<ObjKind>,
    gap_breaks: Seq<bool>,
    discontinuities: Seq<bool>,
    far: Seq<bool>,
    j: int,
) -> bool {
    ||| j == 0
    ||| (1 <= j && gap_breaks[j - 1])
    ||| (2 <= j && discontinuities[j - 1] && !skips_discontinuity(kinds, j - 1))
    ||| (1 <= j && type_boundary(kinds, far, j))
}

/// Boundary flags for notes of the given kinds.
///
/// `gap_breaks[i]`: the gap between notes `i` and `i + 1` exceeds half a beat
/// (plus tolerance) of the active timing point. `discontinuities[k]`: the
/// rhythm (or temporal) discontinuity at middle note `k` exceeds its
/// threshold. `far[i]`: notes `i` and `i + 1` lie beyond engulf proximity.
pub fn segment_boundaries(
    kinds: &[ObjKind],
    gap_breaks: &[bool],
    discontinuities: &[bool],
    far: &[bool],
) -> (is_boundary: Vec<bool>)
    requires
        gap_breaks.len() + 1 >= kinds.len(),
        discontinuities.len() + 1 >= kinds.len(),
        far_covers(kinds@, far@),
    ensures
        is_boundary.len() == kinds.len(),
        forall|j: int|
            0 <= j < kinds.len() ==> #[trigger] is_boundary[j] == segment_boundary(
                kinds@,
                gap_breaks@,
                discontinuities@,
                far@,
                j,
            ),
{
    let n = kinds.len();
    let mut is_boundary: Vec<bool> = Vec::new();
    let mut j: usize = 0;
    while j < n
        invariant
            n == kinds.len(),
            j <= n,
            gap_breaks.len() + 1 >= n,
            discontinuities.len() + 1 >= n,
            is_boundary.len() == j,
            forall|m: int|
                0 <= m < j ==> #[trigger] is_boundary[m] == (m == 0 || gap_breaks[m - 1] || (2 <= m
                    && discontinuities[m - 1] && !skips_discontinuity(kinds@, m - 1))),
        decreases n - j,
    {
        let flag = if j == 0 {
            true
        } else if gap_breaks[j - 1] {
            true
        } else if j >= 2 && discontinuities[j - 1] {
            !skip_discontinuity(kinds, j - 1)
        } else {
            false
        };
        is_boundary.push(flag);
        j = j + 1;
    }
    let ghost before = is_boundary@;
    apply_type_rules(kinds, far, &mut is_boundary);
    is_boundary
}

/// Every note of `kinds[start..end]` is a slider.
pub open spec fn all_sliders(kinds: Seq<ObjKind>, start: int, end: int) -> bool {
    forall|j: int| start <= j < end ==> kinds[j] == ObjKind::Slider
}

/// Classification of the pattern `kinds[start..end]` by composition: pure
/// slider runs of two or more are slider chains, then seven or more notes are
/// a stream, two to six a burst, and a single note a slider or a jump.
pub open spec fn classification(kinds: Seq<ObjKind>, start: int, end: int) -> PatternType {
    let len = end - start;
    if len >= 2 && all_sliders(kinds, start, end) {
        PatternType::SliderChain
    } else if len >= 7 {
        PatternType::Stream
    } else if len >= 2 {
        PatternType::Burst(len as u32)
    } else if kinds[start] == ObjKind::Slider {
        PatternType::Slider
    } else {
        PatternType::Jump
    }
}

/// Classifies the pattern covering `range` by its composition.
pub fn classify(kinds: &[ObjKind], range: &Range<usize>) -> (p: PatternType)
    requires
        range.start <= range.end <= kinds.len(),
        range.start < kinds.len(),
    ensures
        p == classification(kinds@, range.start as int, range.end as int),
{
    let start = range.start;
    let end = range.end;
    let len = end - start;
    let mut all = true;
    let mut j = start;
    while j < end
        invariant
            start <= j <= end <= kinds.len(),
            all == all_sliders(kinds@, start as int, j as int),
        decreases end - j,
    {
        if kinds[j] != ObjKind::Slider {
            all = false;
        }
        j = j + 1;
    }
    if len >= 2 && all {
        PatternType::SliderChain
    } else if len >= 7 {
        PatternType::Stream
    } else if len >= 2 {
        PatternType::Burst(len as u32)
    } else if kinds[start] == ObjKind::Slider {
        PatternType::Slider
    } else {
        PatternType::Jump
    }
}

/// `ranges` split the notes `0..end` into consecutive non-empty patterns:
/// the first starts at 0, the last ends at `end`, each starts where the
/// previous ended, every later start is a boundary, and no boundary lies
/// strictly inside a pattern.
pub open spec fn covers_prefix(ranges: Seq<(int, int)>, is_boundary: Seq<bool>, end: int) -> bool {
    &&& ranges.len() == 0 ==> end == 0
    &&& ranges.len() > 0 ==> ranges[0].0 == 0 && ranges.last().1 == end
    &&& forall|r: int| 0 <= r < ranges.len() ==> 0 <= #[trigger] ranges[r].0 < ranges[r].1
    &&& forall|r: int| 0 < r < ranges.len() ==> #[trigger] ranges[r].0 == ranges[r - 1].1
    &&& forall|r: int| 0 < r < ranges.len() ==> is_boundary[#[trigger] ranges[r].0]
    &&& forall|r: int, j: int|
        #![trigger ranges[r], is_boundary[j]]
        0 <= r < ranges.len() && ranges[r].0 < j < ranges[r].1 ==> !is_boundary[j]
}

/// The patterns partition all `n` notes at the boundary flags.
pub open spec fn partitions(ranges: Seq<(int, int)>, is_boundary: Seq<bool>, n: int) -> bool {
    covers_prefix(ranges, is_boundary, n)
}

proof fn lemma_covers_push(ranges: Seq<(int, int)>, is_boundary: Seq<bool>, start: int, i: int)
    requires
        covers_prefix(ranges, is_boundary, start),
        start < i,
        start > 0 ==> is_boundary[start],
        forall|j: int| start < j < i ==> !is_boundary[j],
    ensures
        covers_prefix(ranges.push((start, i)), is_boundary, i),
{
    let rs = ranges.push((start, i));
    assert forall|r: int, j: int|
        #![trigger rs[r], is_boundary[j]]
        0 <= r < rs.len() && rs[r].0 < j < rs[r].1 implies !is_boundary[j] by {
        if r < ranges.len() {
            assert(rs[r] == ranges[r]);
        }
    }
    assert forall|r: int| 0 < r < rs.len() implies is_boundary[#[trigger] rs[r].0] by {
        if r < ranges.len() {
            assert(rs[r] == ranges[r]);
        } else {
            assert(ranges.len() > 0);
            assert(ranges[ranges.len() - 1].0 >= 0);
        }
    }
}

/// The bounds of a classified range.
pub open spec fn bounds(item: (PatternType, Range<usize>)) -> (int, int) {
    (item.1.start as int, item.1.end as int)
}

/// The bounds of a range.
pub open spec fn range_bounds(range: Range<usize>) -> (int, int) {
    (range.start as int, range.end as int)
}

/// Splits the notes `0..n` into the contiguous ranges delimited by the
/// boundary flags (a pattern starts at every flagged note after the first).
pub fn boundary_ranges(is_boundary: &[bool], n: usize) -> (out: Vec<Range<usize>>)
    requires
        n <= 1 || is_boundary.len() >= n,
    ensures
        partitions(out@.map_values(|r: Range<usize>| range_bounds(r)), is_boundary@, n as int),
        forall|r: int| 0 <= r < out.len() ==> #[trigger] out[r].start < out[r].end <= n,
{
    let mut out: Vec<Range<usize>> = Vec::new();
    let ghost mut gb: Seq<(int, int)> = Seq::empty();
    if n == 0 {
        assert(out@.map_values(|r: Range<usize>| range_bounds(r)) =~= gb);
        return out;
    }
    let mut start: usize = 0;
    let mut i: usize = 1;
    while i < n
        invariant
            1 <= n,
            n <= 1 || is_boundary.len() >= n,
            start < i <= n,
            start > 0 ==> is_boundary[start as int],
            forall|j: int| start < j < i ==> !is_boundary[j],
            covers_prefix(gb, is_boundary@, start as int),
            out@.map_values(|r: Range<usize>| range_bounds(r)) == gb,
            forall|r: int| 0 <= r < out.len() ==> #[trigger] out[r].start < out[r].end <= start,
        decreases n - i,
    {
        if is_boundary[i] {
            proof {
                lemma_covers_push(gb, is_boundary@, start as int, i as int);
                gb = gb.push((start as int, i as int));
            }
            out.push(start..i);
            assert(out@.map_values(|r: Range<usize>| range_bounds(r)) =~= gb);
            start = i;
        }
        i = i + 1;
    }
    proof {
        lemma_covers_push(gb, is_boundary@, start as int, n as int);
        gb = gb.push((start as int, n as int));
    }
    out.push(start..n);
    assert(out@.map_values(|r: Range<usize>| range_bounds(r)) =~= gb);
    out
}

/// Groups the notes into patterns at the boundary flags and classifies each.
pub fn classified_ranges(kinds: &[ObjKind], is_boundary: &[bool]) -> (out: Vec<(PatternType, Range<usize>)>)
    requires
        kinds.len() <= 1 || is_boundary.len() >= kinds.len(),
    ensures
        partitions(out@.map_values(|item: (PatternType, Range<usize>)| bounds(item)), is_boundary@, kinds.len() as int),
        forall|r: int|
            0 <= r < out.len() ==> #[trigger] out[r].0 == classification(
                kinds@,
                out[r].1.start as int,
                out[r].1.end as int,
            ),
{
    let ranges = boundary_ranges(is_boundary, kinds.len());
    let ghost gb = ranges@.map_values(|r: Range<usize>| range_bounds(r));
    let mut out: Vec<(PatternType, Range<usize>)> = Vec::new();
    let mut r: usize = 0;
    while r < ranges.len()
        invariant
            r <= ranges.len(),
            gb == ranges@.map_values(|r: Range<usize>| range_bounds(r)),
            forall|q: int| 0 <= q < ranges.len() ==> #[trigger] ranges[q].start < ranges[q].end <= kinds.len(),
            out.len() == r,
            forall|q: int| 0 <= q < r ==> #[trigger] bounds(out[q]) == gb[q],
            forall|q: int|
                0 <= q < r ==> #[trigger] out[q].0 == classification(
                    kinds@,
                    out[q].1.start as int,
                    out[q].1.end as int,
                ),
        decreases ranges.len() - r,
    {
        let range = ranges[r].start..ranges[r].end;
        let p = classify(kinds, &range);
        out.push((p, range));
        r = r + 1;
    }
    assert(out@.map_values(|item: (PatternType, Range<usize>)| bounds(item)) =~= gb);
    out
}

/// A rhythm discontinuity at the first circle after a slider does not split
/// the circles that follow: where notes `j - 2`, `j - 1` and `j` are a
/// slider and two circles and no gap break comes before `j`, note `j`
/// starts no pattern, whatever the discontinuity flags say.
pub proof fn law_discontinuity_after_a_slider_is_skipped(
    kinds: Seq<ObjKind>,
    gap_breaks: Seq<bool>,
    discontinuities: Seq<bool>,
    far: Seq<bool>,
    j: int,
)
    requires
        2 <= j < kinds.len(),
        gap_breaks.len() + 1 >= kinds.len(),
        discontinuities.len() + 1 >= kinds.len(),
        kinds[j - 2] == ObjKind::Slider,
        kinds[j - 1] == ObjKind::Circle,
        kinds[j] == ObjKind::Circle,
        !gap_breaks[j - 1],
    ensures
        !segment_boundary(kinds, gap_breaks, discontinuities, far, j),
{
}

/// Away from a slider-to-circle change the discontinuity signal splits: a
/// discontinuity at a circle that does not follow a slider, or at a slider
/// that is not followed by a circle, starts a pattern at the next note.
pub proof fn law_discontinuity_splits_elsewhere(
    kinds: Seq<ObjKind>,
    gap_breaks: Seq<bool>,
    discontinuities: Seq<bool>,
    far: Seq<bool>,
    j: int,
)
    requires
        2 <= j < kinds.len(),
        discontinuities.len() + 1 >= kinds.len(),
        discontinuities[j - 1],
        (kinds[j - 1] == ObjKind::Circle && kinds[j - 2] != ObjKind::Slider) || (kinds[j - 1] == ObjKind::Slider
            && kinds[j] != ObjKind::Circle),
    ensures
        segment_boundary(kinds, gap_breaks, discontinuities, far, j),
{
}

/// A slider followed by a circle always starts a new pattern at the circle.
pub proof fn law_slider_to_circle_splits(
    kinds: Seq<ObjKind>,
    gap_breaks: Seq<bool>,
    discontinuities: Seq<bool>,
    far: Seq<bool>,
    j: int,
)
    requires
        1 <= j < kinds.len(),
        kinds[j - 1] == ObjKind::Slider,
        kinds[j] == ObjKind::Circle,
    ensures
        segment_boundary(kinds, gap_breaks, discontinuities, far, j),
{
}

} // verus!
