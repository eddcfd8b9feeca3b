//! Helpers of the segmentation prototypes: labelled grouping used for the
//! pattern dumps and the pattern filters of the spacing-demand study.

use std::ops::Range;
use vstd::prelude::*;

pub use crate::rhythm_segmentation::{
    apply_type_rules, classify, skip_discontinuity, slider_run_from, ObjKind, PatternType,
};
use crate::rhythm_segmentation::{bounds, classification, classified_ranges, partitions};
use crate::text::str_eq;

verus! {

/// The bounds of a labelled range.
pub open spec fn label_bounds(item: (String, Range<usize>)) -> (int, int) {
    (item.1.start as int, item.1.end as int)
}

/// Groups the notes at the boundary flags and labels each pattern with the
/// display label of its classification.
pub fn group_and_classify(kinds: &[ObjKind], is_boundary: &[bool]) -> (out: Vec<(String, Range<usize>)>)
    requires
        kinds.len() <= 1 || is_boundary.len() >= kinds.len(),
    ensures
        partitions(out@.map_values(|item: (String, Range<usize>)| label_bounds(item)), is_boundary@, kinds.len() as int),
        forall|r: int|
            0 <= r < out.len() ==> #[trigger] out[r].0@ == classification(
                kinds@,
                out[r].1.start as int,
                out[r].1.end as int,
            ).label(),
{
    let classified = classified_ranges(kinds, is_boundary);
    let ghost gb = classified@.map_values(|item: (PatternType, Range<usize>)| bounds(item));
    let mut out: Vec<(String, Range<usize>)> = Vec::new();
    let mut r: usize = 0;
    while r < classified.len()
        invariant
            r <= classified.len(),
            gb == classified@.map_values(|item: (PatternType, Range<usize>)| bounds(item)),
            out.len() == r,
            forall|q: int| 0 <= q < r ==> #[trigger] label_bounds(out[q]) == gb[q],
            forall|q: int|
                0 <= q < r ==> #[trigger] out[q].0@ == classified[q].0.label(),
            forall|q: int| 0 <= q < r ==> (#[trigger] out[q]).1 == classified[q].1,
        decreases classified.len() - r,
    {
        let label = classified[r].0.as_str();
        let range = classified[r].1.start..classified[r].1.end;
        out.push((label, range));
        r = r + 1;
    }
    assert(out@.map_values(|item: (String, Range<usize>)| label_bounds(item)) =~= gb);
    out
}

/// The spacing-demand study targets bursts of two to four notes.
pub fn is_target_pattern(p_type: &PatternType) -> (b: bool)
    ensures
        b == (*p_type matches PatternType::Burst(n) && 2 <= n <= 4),
{
    match p_type {
        PatternType::Burst(n) => 2 <= *n && *n <= 4,
        _ => false,
    }
}

/// Full-beat and half-beat snaps are excluded from the study.
pub fn is_excluded_snap(snap: &str) -> (b: bool)
    ensures
        b == (snap@ == "1/1"@ || snap@ == "1/2"@),
{
    str_eq(snap, "1/1") || str_eq(snap, "1/2")
}

/// Display label of a pattern type.
pub fn fmt_pattern_type(pt: &PatternType) -> (s: String)
    ensures
        s@ == pt.label(),
{
    pt.as_str()
}

} // verus!
