use std::ops::Range;

use map_analyzer::prototype;
use map_analyzer::rhythm_segmentation::{
    apply_type_rules, boundary_ranges, classified_ranges, classify, segment_boundaries,
    skip_discontinuity, slider_run_from, ObjKind, PatternType,
};

/// 'c' is a circle, 's' a slider, anything else another object.
fn kinds_from(desc: &[char]) -> Vec<ObjKind> {
    desc.iter()
        .map(|c| match c {
            'c' => ObjKind::Circle,
            's' => ObjKind::Slider,
            _ => ObjKind::Other,
        })
        .collect()
}

/// Segments with only the type rules active, then groups and labels;
/// `dists[i]` is the distance between objects `i` and `i + 1`.
fn segment(desc: &[char], dists: &[f64], engulf_px: f64) -> Vec<(String, Range<usize>)> {
    let kinds = kinds_from(desc);
    let far: Vec<bool> = dists.iter().map(|d| *d > engulf_px).collect();
    let mut is_boundary = vec![false; kinds.len()];
    is_boundary[0] = true;
    apply_type_rules(&kinds, &far, &mut is_boundary);
    prototype::group_and_classify(&kinds, &is_boundary)
}

fn labelled(expected: &[(&str, Range<usize>)]) -> Vec<(String, Range<usize>)> {
    expected.iter().map(|(l, r)| (l.to_string(), r.clone())).collect()
}

#[test]
fn rhythm_segmentation_pure_slider_chain_is_slider_chain() {
    let desc: Vec<char> = ['s'; 8].to_vec();
    let pats = segment(&desc, &vec![10.0; 7], 146.0);
    assert_eq!(pats, labelled(&[("SliderChain", 0..8)]));
}

#[test]
fn rhythm_segmentation_lone_slider_engulfs_into_circle_group() {
    let desc: Vec<char> = vec!['c', 'c', 'c', 's', 'c', 'c'];
    let pats = segment(&desc, &vec![10.0; 5], 146.0);
    assert_eq!(pats, labelled(&[("4n Burst", 0..4), ("2n Burst", 4..6)]));
}

#[test]
fn rhythm_segmentation_trailing_slider_engulfs_within_two_diameters() {
    let desc: Vec<char> = vec!['c', 'c', 'c', 's', 'c', 'c'];
    let pats = segment(&desc, &vec![10.0, 10.0, 100.0, 10.0, 10.0], 146.0);
    assert_eq!(pats, labelled(&[("4n Burst", 0..4), ("2n Burst", 4..6)]));
}

#[test]
fn rhythm_segmentation_far_slider_does_not_engulf() {
    let desc: Vec<char> = vec!['c', 'c', 'c', 's', 'c', 'c'];
    let pats = segment(&desc, &vec![10.0, 10.0, 40.0, 10.0, 10.0], 25.0);
    assert_eq!(pats, labelled(&[("3n Burst", 0..3), ("Slider", 3..4), ("2n Burst", 4..6)]));
}

#[test]
fn rhythm_segmentation_alternation_yields_doubles() {
    let desc: Vec<char> = vec!['c', 's', 'c', 's', 'c', 's'];
    let pats = segment(&desc, &vec![10.0; 5], 146.0);
    assert_eq!(pats, labelled(&[("2n Burst", 0..2), ("2n Burst", 2..4), ("2n Burst", 4..6)]));
}

#[test]
fn rhythm_segmentation_slider_to_circle_always_splits() {
    let desc: Vec<char> = vec!['s'; 10].into_iter().chain(vec!['c'; 8]).collect::<Vec<char>>();
    let pats = segment(&desc, &vec![10.0; 17], 146.0);
    assert_eq!(pats, labelled(&[("SliderChain", 0..10), ("Stream", 10..18)]));
}

#[test]
fn rhythm_segmentation_slider_run_of_two_splits() {
    let desc: Vec<char> = vec!['c', 'c', 's', 's', 'c'];
    let pats = segment(&desc, &vec![10.0; 4], 146.0);
    assert_eq!(pats, labelled(&[("2n Burst", 0..2), ("SliderChain", 2..4), ("Jump", 4..5)]));
}

#[test]
fn rhythm_segmentation_discontinuity_skipped_at_slider_to_circle_first_pair() {
    let kinds = kinds_from(&['s', 'c', 'c']);
    assert!(skip_discontinuity(&kinds, 1));
}

#[test]
fn rhythm_segmentation_discontinuity_skipped_at_slider_to_circle_second_pair() {
    let kinds = kinds_from(&['s', 's', 'c']);
    assert!(skip_discontinuity(&kinds, 1));
}

#[test]
fn rhythm_segmentation_discontinuity_kept_at_circle_to_slider_window() {
    let kinds = kinds_from(&['c', 'c', 's']);
    assert!(!skip_discontinuity(&kinds, 1));
}

#[test]
fn rhythm_segmentation_discontinuity_kept_for_pure_circles() {
    let kinds = kinds_from(&['c', 'c', 'c']);
    assert!(!skip_discontinuity(&kinds, 1));
}

#[test]
fn prototype_sequence_motor_pure_slider_chain_is_slider_chain() {
    let desc: Vec<char> = ['s'; 8].to_vec();
    let pats = segment(&desc, &vec![10.0; 7], 146.0);
    assert_eq!(pats, labelled(&[("SliderChain", 0..8)]));
}

#[test]
fn prototype_sequence_motor_lone_slider_engulfs_into_circle_group() {
    let desc: Vec<char> = vec!['c', 'c', 'c', 's', 'c', 'c'];
    let pats = segment(&desc, &vec![10.0; 5], 146.0);
    assert_eq!(pats, labelled(&[("4n Burst", 0..4), ("2n Burst", 4..6)]));
}

#[test]
fn prototype_sequence_motor_trailing_slider_engulfs_within_two_diameters() {
    let desc: Vec<char> = vec!['c', 'c', 'c', 's', 'c', 'c'];
    let pats = segment(&desc, &vec![10.0, 10.0, 100.0, 10.0, 10.0], 146.0);
    assert_eq!(pats, labelled(&[("4n Burst", 0..4), ("2n Burst", 4..6)]));
}

#[test]
fn prototype_sequence_motor_far_slider_does_not_engulf() {
    let desc: Vec<char> = vec!['c', 'c', 'c', 's', 'c', 'c'];
    let pats = segment(&desc, &vec![10.0, 10.0, 40.0, 10.0, 10.0], 25.0);
    assert_eq!(pats, labelled(&[("3n Burst", 0..3), ("Slider", 3..4), ("2n Burst", 4..6)]));
}

#[test]
fn prototype_sequence_motor_alternation_yields_doubles() {
    let desc: Vec<char> = vec!['c', 's', 'c', 's', 'c', 's'];
    let pats = segment(&desc, &vec![10.0; 5], 146.0);
    assert_eq!(pats, labelled(&[("2n Burst", 0..2), ("2n Burst", 2..4), ("2n Burst", 4..6)]));
}

#[test]
fn prototype_sequence_motor_slider_to_circle_always_splits() {
    let desc: Vec<char> = vec!['s'; 10].into_iter().chain(vec!['c'; 8]).collect::<Vec<char>>();
    let pats = segment(&desc, &vec![10.0; 17], 146.0);
    assert_eq!(pats, labelled(&[("SliderChain", 0..10), ("Stream", 10..18)]));
}

#[test]
fn prototype_sequence_motor_slider_run_of_two_splits() {
    let desc: Vec<char> = vec!['c', 'c', 's', 's', 'c'];
    let pats = segment(&desc, &vec![10.0; 4], 146.0);
    assert_eq!(pats, labelled(&[("2n Burst", 0..2), ("SliderChain", 2..4), ("Jump", 4..5)]));
}

#[test]
fn prototype_sequence_motor_discontinuity_skipped_at_slider_to_circle_first_pair() {
    let kinds = kinds_from(&['s', 'c', 'c']);
    assert!(prototype::skip_discontinuity(&kinds, 1));
}

#[test]
fn prototype_sequence_motor_discontinuity_skipped_at_slider_to_circle_second_pair() {
    let kinds = kinds_from(&['s', 's', 'c']);
    assert!(prototype::skip_discontinuity(&kinds, 1));
}

#[test]
fn prototype_sequence_motor_discontinuity_kept_at_circle_to_slider_window() {
    let kinds = kinds_from(&['c', 'c', 's']);
    assert!(!prototype::skip_discontinuity(&kinds, 1));
}

#[test]
fn prototype_sequence_motor_discontinuity_kept_for_pure_circles() {
    let kinds = kinds_from(&['c', 'c', 'c']);
    assert!(!prototype::skip_discontinuity(&kinds, 1));
}

#[test]
fn slider_run_counts_consecutive_sliders() {
    let kinds = kinds_from(&['c', 's', 's', 's', 'c', 's']);
    assert_eq!(slider_run_from(&kinds, 1), 3);
    assert_eq!(slider_run_from(&kinds, 0), 0);
    assert_eq!(slider_run_from(&kinds, 5), 1);
    assert_eq!(slider_run_from(&kinds, 6), 0);
}

#[test]
fn classify_by_composition() {
    let kinds = kinds_from(&['c', 'c', 'c', 'c', 'c', 'c', 'c', 's', 's', 'o']);
    assert_eq!(classify(&kinds, &(0..7)), PatternType::Stream);
    assert_eq!(classify(&kinds, &(0..6)), PatternType::Burst(6));
    assert_eq!(classify(&kinds, &(7..9)), PatternType::SliderChain);
    assert_eq!(classify(&kinds, &(7..8)), PatternType::Slider);
    assert_eq!(classify(&kinds, &(0..1)), PatternType::Jump);
}

#[test]
fn pattern_type_labels_and_counts() {
    assert_eq!(PatternType::Burst(3).as_str(), "3n Burst");
    assert_eq!(PatternType::SliderChain.as_str(), "SliderChain");
    assert_eq!(PatternType::Stream.note_count(), 7);
    assert!(PatternType::Burst(3).is_odd());
    assert!(PatternType::Burst(4).is_even());
    assert!(!PatternType::Burst(4).is_odd());
}

#[test]
fn boundary_ranges_partition_the_notes() {
    let ranges = boundary_ranges(&[true, false, true, false, false], 5);
    assert_eq!(ranges, vec![0..2, 2..5]);
    let ranges = boundary_ranges(&[false, false, false], 3);
    assert_eq!(ranges, vec![0..3]);
    assert_eq!(boundary_ranges(&[], 0), Vec::<Range<usize>>::new());
}

#[test]
fn classified_ranges_label_each_group() {
    let kinds = kinds_from(&['c', 'c', 's', 's']);
    let out = classified_ranges(&kinds, &[true, false, true, false]);
    assert_eq!(out, vec![(PatternType::Burst(2), 0..2), (PatternType::SliderChain, 2..4)]);
}

#[test]
fn type_rules_split_at_other_objects() {
    let kinds = kinds_from(&['c', 'o', 'c']);
    let mut is_boundary = vec![true, false, false];
    apply_type_rules(&kinds, &[false, false], &mut is_boundary);
    assert_eq!(is_boundary, vec![true, true, true]);
}

#[test]
fn type_rules_only_add_boundaries() {
    let kinds = kinds_from(&['c', 'c', 'c']);
    let mut is_boundary = vec![true, false, true];
    apply_type_rules(&kinds, &[false, false], &mut is_boundary);
    assert_eq!(is_boundary, vec![true, false, true]);
}

#[test]
fn segment_boundaries_combine_the_signals() {
    let kinds = kinds_from(&['c', 'c', 'c', 'c']);
    let b = segment_boundaries(&kinds, &[false, true, false], &[false, false, false], &[false; 3]);
    assert_eq!(b, vec![true, false, true, false]);
    let b = segment_boundaries(&kinds, &[false, false, false], &[false, true, false], &[false; 3]);
    assert_eq!(b, vec![true, false, true, false]);
    let kinds = kinds_from(&['s', 'c', 'c', 'c']);
    let b = segment_boundaries(&kinds, &[false, false, false], &[true, false, false], &[false; 3]);
    assert_eq!(b, vec![true, true, false, false]);
}

#[test]
fn prototype_filters() {
    assert!(prototype::is_target_pattern(&PatternType::Burst(2)));
    assert!(prototype::is_target_pattern(&PatternType::Burst(4)));
    assert!(!prototype::is_target_pattern(&PatternType::Burst(5)));
    assert!(!prototype::is_target_pattern(&PatternType::Stream));
    assert!(prototype::is_excluded_snap("1/1"));
    assert!(prototype::is_excluded_snap("1/2"));
    assert!(!prototype::is_excluded_snap("1/4"));
    assert_eq!(prototype::fmt_pattern_type(&PatternType::Burst(3)), "3n Burst");
    assert_eq!(prototype::fmt_pattern_type(&PatternType::Jump), "Jump");
}
