use map_analyzer::aim_control::{
    switch_histograms, window_switches, AlignmentBucket, AngleBucket, RelativeVelocityBucket,
    WindowVolatility,
};
use map_analyzer::bot::parse_beatmap_id;
use map_analyzer::patterns::{pattern_runs, PatternType};
use map_analyzer::transitions::{category_counts, get_bpm_category, transition_counts};

#[test]
fn beatmap_ids_from_numbers_and_urls() {
    assert_eq!(parse_beatmap_id("123456"), Some(123456));
    assert_eq!(parse_beatmap_id("+42"), Some(42));
    assert_eq!(parse_beatmap_id("https://osu.ppy.sh/b/123456"), Some(123456));
    assert_eq!(parse_beatmap_id("https://osu.ppy.sh/b/77?m=0"), Some(77));
    assert_eq!(parse_beatmap_id("https://osu.ppy.sh/beatmapsets/1#osu/555/x"), Some(555));
    assert_eq!(parse_beatmap_id("https://osu.ppy.sh/b/"), None);
    assert_eq!(parse_beatmap_id("4294967296"), None);
    assert_eq!(parse_beatmap_id("not a map"), None);
}

#[test]
fn bpm_categories() {
    assert_eq!(get_bpm_category("1/1", "1/2"), "Ordinary");
    assert_eq!(get_bpm_category("1/4", "1/2"), "Ordinary");
    assert_eq!(get_bpm_category("1/3", "1/4"), "Minor");
    assert_eq!(get_bpm_category("1/6", "1/4"), "Minor");
    assert_eq!(get_bpm_category("1/4", "1/8"), "Major");
    assert_eq!(get_bpm_category("1/4", "1/4"), "Major");
    for a in ["1/1", "1/2", "1/3", "1/4", "1/6", "1/8"] {
        for b in ["1/1", "1/2", "1/3", "1/4", "1/6", "1/8"] {
            assert_eq!(get_bpm_category(a, b), get_bpm_category(b, a));
        }
    }
}

#[test]
fn pattern_type_parity() {
    assert!(PatternType::Burst(3).is_odd());
    assert!(PatternType::Burst(2).is_even());
    assert!(!PatternType::Jump.is_odd());
    assert!(!PatternType::Stream.is_even());
    assert_eq!(PatternType::Burst(5).as_str(), "5n Burst");
    assert_eq!(PatternType::Slider.note_count(), 1);
}

#[test]
fn runs_of_short_gaps() {
    let close = [true, false, true, true, true, true, true, true, false];
    let sliders = [false, false, false, false, false, false, false, false, false, true];
    let runs = pattern_runs(&close, &sliders);
    assert_eq!(
        runs,
        vec![
            (PatternType::Burst(2), 0..2),
            (PatternType::Stream, 2..9),
            (PatternType::Slider, 9..10),
        ]
    );
    assert_eq!(pattern_runs(&[], &[false]), vec![(PatternType::Jump, 0..1)]);
}

#[test]
fn transition_counters() {
    let types = [
        PatternType::Burst(3),
        PatternType::Burst(3),
        PatternType::Burst(2),
        PatternType::Burst(4),
        PatternType::Jump,
    ];
    let snaps: Vec<String> = ["1/4", "1/4", "1/4", "1/6", "1/6"].iter().map(|s| s.to_string()).collect();
    let c = category_counts(&types, &snaps);
    assert_eq!(c.odd_to_odd, 1);
    assert_eq!(c.even_to_even, 1);
    assert_eq!(c.odd_to_even, 1);
    assert_eq!(c.rhythmic_resets, 0);
    let c = category_counts(&types[..2], &snaps[..2]);
    assert_eq!(c.rhythmic_resets, 0);
    let c = category_counts(&[PatternType::Jump, PatternType::Slider], &["1/1".to_string(), "1/2".to_string()]);
    assert_eq!(c.rhythmic_resets, 1);
}

#[test]
fn window_switch_counts() {
    let velocity = [
        RelativeVelocityBucket::Mean,
        RelativeVelocityBucket::Mean,
        RelativeVelocityBucket::Faster,
        RelativeVelocityBucket::Mean,
        RelativeVelocityBucket::Mean,
        RelativeVelocityBucket::Slower,
        RelativeVelocityBucket::Slower,
        RelativeVelocityBucket::Mean,
    ];
    let angle = [
        AngleBucket::Absent,
        AngleBucket::Sharp,
        AngleBucket::Wide,
        AngleBucket::Wide,
        AngleBucket::Flow,
        AngleBucket::Absent,
        AngleBucket::Flow,
        AngleBucket::Linear,
    ];
    let alignment = [AlignmentBucket::Linear; 8];
    let w = window_switches(&velocity, &angle, &alignment);
    assert_eq!(w.velocity_switches, 4);
    assert_eq!(w.angle_switches, 3);
    assert_eq!(w.alignment_switches, 0);
}

#[test]
fn switch_histogram_bins() {
    let w = |v: u8, a: u8, d: u8| WindowVolatility {
        velocity_switches: v,
        angle_switches: a,
        alignment_switches: d,
    };
    let h = switch_histograms(&[w(0, 1, 7), w(4, 1, 2), w(6, 3, 2)]);
    assert_eq!(h.relative_velocity, vec![1, 0, 0, 0, 2]);
    assert_eq!(h.angle, vec![0, 2, 0, 1, 0]);
    assert_eq!(h.direction, vec![0, 0, 2, 0, 1]);
}

fn sorted_counts(v: &[((String, String), u32)]) -> Vec<(String, String, u32)> {
    let mut out: Vec<(String, String, u32)> = v.iter().map(|((a, b), c)| (a.clone(), b.clone(), *c)).collect();
    out.sort();
    out
}

fn entry(a: &str, b: &str, c: u32) -> (String, String, u32) {
    (a.to_string(), b.to_string(), c)
}

#[test]
fn transition_tables_count_snap_and_label_pairs() {
    let types = [PatternType::Burst(3), PatternType::Burst(3), PatternType::Burst(5), PatternType::Jump];
    let snaps: Vec<String> = ["1/4", "1/3", "1/4", "1/4"].iter().map(|s| s.to_string()).collect();
    let r = transition_counts(&types, &snaps);
    assert_eq!(sorted_counts(&r.bpm_transitions), vec![entry("1/3", "1/4", 2), entry("1/4", "1/4", 1)]);
    assert_eq!(sorted_counts(&r.bpm_minor), vec![entry("1/3", "1/4", 2)]);
    assert!(r.bpm_ordinary.is_empty() && r.bpm_major.is_empty());
    assert_eq!(
        sorted_counts(&r.top_transitions),
        vec![
            entry("3n Burst (1/3)", "3n Burst (1/4)", 1),
            entry("3n Burst (1/3)", "5n Burst (1/4)", 1),
            entry("5n Burst (1/4)", "Jump (1/4)", 1),
        ]
    );
    assert_eq!(sorted_counts(&r.rhythmic_resets), vec![entry("3n Burst (1/3)", "3n Burst (1/4)", 1)]);
    assert_eq!(r.delta_groups.len(), 1);
    assert_eq!(r.delta_groups[0].0, 2);
    assert_eq!(sorted_counts(&r.delta_groups[0].1), vec![entry("3n Burst (1/3)", "5n Burst (1/4)", 1)]);
    assert_eq!(
        (r.category_counts.odd_to_odd, r.category_counts.even_to_even, r.category_counts.odd_to_even, r.category_counts.rhythmic_resets),
        (2, 0, 0, 1)
    );
    let repeated = [PatternType::Jump, PatternType::Jump, PatternType::Jump];
    let same: Vec<String> = ["1/2", "1/2", "End"].iter().map(|s| s.to_string()).collect();
    let q = transition_counts(&repeated, &same);
    assert_eq!(sorted_counts(&q.bpm_transitions), vec![entry("1/2", "1/2", 1)]);
    assert_eq!(sorted_counts(&q.top_transitions), vec![entry("Jump (1/2)", "Jump (1/2)", 1), entry("Jump (1/2)", "Jump (End)", 1)]);
    assert_eq!(q.delta_groups.len(), 1);
    assert_eq!(sorted_counts(&q.delta_groups[0].1), vec![entry("Jump (1/2)", "Jump (1/2)", 1)]);
    assert!(transition_counts(&[], &[]).top_transitions.is_empty());
}
