//! Transitions between consecutive action-based patterns: the BPM-shift
//! category of a pair of snaps, the tables that count how often each pair
//! of snaps and of pattern labels occurs, and the parity and reset
//! counters. Turning counts into percentages is left to the caller.

use vstd::prelude::*;

use crate::patterns::PatternType;
use crate::okf::registries::{text_less, text_less_exec};
use crate::text::{push_str_chars, str_eq, string_from_chars};

verus! {

/// Counters over the transitions between consecutive patterns.
#[derive(Clone, Copy, PartialEq, Eq, Debug, Structural)]
pub struct CategoryCounts {
    pub odd_to_odd: u32,
    pub even_to_even: u32,
    pub odd_to_even: u32,
    pub rhythmic_resets: u32,
}

/// `{a, b}` is the unordered pair `{x, y}`.
pub open spec fn is_pair(a: Seq<char>, b: Seq<char>, x: Seq<char>, y: Seq<char>) -> bool {
    (a == x && b == y) || (a == y && b == x)
}

/// BPM-shift category of two snaps, independent of their order: 1/1, 1/2 and
/// 1/4 shifts among themselves are ordinary; 1/2-1/3, 1/3-1/4 and 1/4-1/6
/// are minor; everything else (including 1/4-1/8, 1/3-1/6 and unknown or
/// equal snaps) is major.
pub open spec fn bpm_category(a: Seq<char>, b: Seq<char>) -> Seq<char> {
    if is_pair(a, b, "1/1"@, "1/2"@) || is_pair(a, b, "1/1"@, "1/4"@) || is_pair(a, b, "1/2"@, "1/4"@) {
        "Ordinary"@
    } else if is_pair(a, b, "1/2"@, "1/3"@) || is_pair(a, b, "1/3"@, "1/4"@) || is_pair(a, b, "1/4"@, "1/6"@) {
        "Minor"@
    } else {
        "Major"@
    }
}

fn pair_is(s1: &str, s2: &str, x: &str, y: &str) -> (b: bool)
    ensures
        b == is_pair(s1@, s2@, x@, y@),
{
    (str_eq(s1, x) && str_eq(s2, y)) || (str_eq(s1, y) && str_eq(s2, x))
}

/// Categorizes a BPM shift between two snaps.
pub fn get_bpm_category(s1: &str, s2: &str) -> (c: &'static str)
    ensures
        c@ == bpm_category(s1@, s2@),
{
    if pair_is(s1, s2, "1/1", "1/2") || pair_is(s1, s2, "1/1", "1/4") || pair_is(s1, s2, "1/2", "1/4") {
        "Ordinary"
    } else if pair_is(s1, s2, "1/2", "1/3") || pair_is(s1, s2, "1/3", "1/4") || pair_is(s1, s2, "1/4", "1/6") {
        "Minor"
    } else {
        "Major"
    }
}

/// The category of a shift does not depend on the order of the two snaps.
pub proof fn bpm_category_is_symmetric(a: Seq<char>, b: Seq<char>)
    ensures
        bpm_category(a, b) == bpm_category(b, a),
{
}

/// Number of indices `i` in `0..n` at which `pred` holds.
pub open spec fn count_where(n: int, pred: spec_fn(int) -> bool) -> nat
    decreases n,
{
    if n <= 0 {
        0
    } else {
        count_where(n - 1, pred) + if pred(n - 1) { 1nat } else { 0nat }
    }
}

proof fn lemma_count_where_bound(n: int, pred: spec_fn(int) -> bool)
    ensures
        count_where(n, pred) <= if n < 0 { 0 } else { n },
    decreases n,
{
    if n > 0 {
        lemma_count_where_bound(n - 1, pred);
    }
}

/// Transition `i -> i + 1` is between two odd bursts.
pub open spec fn odd_odd(t: Seq<PatternType>, i: int) -> bool {
    (t[i] matches PatternType::Burst(a) && a % 2 != 0) && (t[i + 1] matches PatternType::Burst(b) && b % 2 != 0)
}

/// Transition `i -> i + 1` is between two even bursts.
pub open spec fn even_even(t: Seq<PatternType>, i: int) -> bool {
    (t[i] matches PatternType::Burst(a) && a % 2 == 0) && (t[i + 1] matches PatternType::Burst(b) && b % 2 == 0)
}

/// Transition `i -> i + 1` is between two bursts of different parity.
pub open spec fn mixed_parity(t: Seq<PatternType>, i: int) -> bool {
    t[i] is Burst && t[i + 1] is Burst && !odd_odd(t, i) && !even_even(t, i)
}

/// Transition `i -> i + 1` keeps the note count but changes the snap.
pub open spec fn rhythmic_reset(t: Seq<PatternType>, snaps: Seq<Seq<char>>, i: int) -> bool {
    t[i].notes() == t[i + 1].notes() && snaps[i] != snaps[i + 1]
}

/// Counts the burst-parity transitions and the rhythmic resets over the
/// consecutive pairs of patterns with the given types and snap labels.
pub fn category_counts(types: &[PatternType], snaps: &[String]) -> (c: CategoryCounts)
    requires
        snaps.len() == types.len(),
        types.len() <= u32::MAX,
    ensures
        c.odd_to_odd == count_where(types.len() - 1, |i: int| odd_odd(types@, i)),
        c.even_to_even == count_where(types.len() - 1, |i: int| even_even(types@, i)),
        c.odd_to_even == count_where(types.len() - 1, |i: int| mixed_parity(types@, i)),
        c.rhythmic_resets == count_where(
            types.len() - 1,
            |i: int| rhythmic_reset(types@, snaps@.map_values(|s: String| s@), i),
        ),
{
    let ghost t = types@;
    let ghost sv = snaps@.map_values(|s: String| s@);
    let mut c = CategoryCounts { odd_to_odd: 0, even_to_even: 0, odd_to_even: 0, rhythmic_resets: 0 };
    if types.len() < 2 {
        return c;
    }
    let mut i: usize = 0;
    while i + 1 < types.len()
        invariant
            t == types@,
            sv == snaps@.map_values(|s: String| s@),
            snaps.len() == types.len() <= u32::MAX,
            i + 1 <= types.len(),
            c.odd_to_odd == count_where(i as int, |k: int| odd_odd(t, k)),
            c.even_to_even == count_where(i as int, |k: int| even_even(t, k)),
            c.odd_to_even == count_where(i as int, |k: int| mixed_parity(t, k)),
            c.rhythmic_resets == count_where(i as int, |k: int| rhythmic_reset(t, sv, k)),
        decreases types.len() - i,
    {
        proof {
            lemma_count_where_bound(i as int, |k: int| odd_odd(t, k));
            lemma_count_where_bound(i as int, |k: int| even_even(t, k));
            lemma_count_where_bound(i as int, |k: int| mixed_parity(t, k));
            lemma_count_where_bound(i as int, |k: int| rhythmic_reset(t, sv, k));
        }
        let p1 = &types[i];
        let p2 = &types[i + 1];
        let n1 = p1.note_count();
        let n2 = p2.note_count();
        if n1 == n2 && snaps[i] != snaps[i + 1] {
            c.rhythmic_resets = c.rhythmic_resets + 1;
        }
        match (p1, p2) {
            (PatternType::Burst(_), PatternType::Burst(_)) => {
                if p1.is_odd() && p2.is_odd() {
                    c.odd_to_odd = c.odd_to_odd + 1;
                } else if p1.is_even() && p2.is_even() {
                    c.even_to_even = c.even_to_even + 1;
                } else {
                    c.odd_to_even = c.odd_to_even + 1;
                }
            },
            _ => {},
        }
        i = i + 1;
    }
    c
}

/// The view of a pair of strings.
pub open spec fn pair_view(p: (String, String)) -> (Seq<char>, Seq<char>) {
    (p.0@, p.1@)
}

/// `out` counts the keys `keys[i]` at the indices `i` where `selected(i)`
/// holds: one entry per such key, no other, each with its number of
/// occurrences.
pub open spec fn counts_of(
    out: Seq<((String, String), u32)>,
    keys: Seq<(Seq<char>, Seq<char>)>,
    selected: spec_fn(int) -> bool,
) -> bool {
    &&& forall|e: int|
        #![trigger out[e]]
        0 <= e < out.len() ==> out[e].1 == count_where(
            keys.len() as int,
            |j: int| selected(j) && keys[j] == pair_view(out[e].0),
        ) && out[e].1 > 0
    &&& forall|e1: int, e2: int|
        0 <= e1 < out.len() && 0 <= e2 < out.len() && e1 != e2 ==> pair_view(#[trigger] out[e1].0) != pair_view(
            #[trigger] out[e2].0,
        )
    &&& forall|j: int|
        0 <= j < keys.len() && #[trigger] selected(j) ==> exists|e: int|
            #![trigger out[e]]
            0 <= e < out.len() && pair_view(out[e].0) == keys[j]
}

proof fn lemma_count_where_step(n: int, pred: spec_fn(int) -> bool)
    requires
        n >= 0,
    ensures
        count_where(n + 1, pred) == count_where(n, pred) + if pred(n) { 1nat } else { 0nat },
{
}

proof fn lemma_count_where_none(n: int, pred: spec_fn(int) -> bool)
    requires
        forall|j: int| 0 <= j < n ==> !#[trigger] pred(j),
    ensures
        count_where(n, pred) == 0,
    decreases n,
{
    if n > 0 {
        lemma_count_where_none(n - 1, pred);
    }
}

fn pair_eq(a: &(String, String), b: &(String, String)) -> (r: bool)
    ensures
        r == (pair_view(*a) == pair_view(*b)),
{
    str_eq(a.0.as_str(), b.0.as_str()) && str_eq(a.1.as_str(), b.1.as_str())
}

/// Counts the keys at the included indices.
pub fn count_keys(keys: &Vec<(String, String)>, selected: &Vec<bool>) -> (out: Vec<((String, String), u32)>)
    requires
        keys.len() == selected.len(),
        keys.len() <= u32::MAX,
    ensures
        counts_of(
            out@,
            keys@.map_values(|p: (String, String)| pair_view(p)),
            |j: int| 0 <= j < selected@.len() && selected@[j],
        ),
{
    let ghost kv = keys@.map_values(|p: (String, String)| pair_view(p));
    let ghost inc = |j: int| 0 <= j < selected@.len() && selected@[j];
    let mut out: Vec<((String, String), u32)> = Vec::new();
    let mut i: usize = 0;
    while i < keys.len()
        invariant
            kv == keys@.map_values(|p: (String, String)| pair_view(p)),
            inc == (|j: int| 0 <= j < selected@.len() && selected@[j]),
            keys.len() == selected.len() <= u32::MAX,
            i <= keys.len(),
            forall|e: int|
                #![trigger out@[e]]
                0 <= e < out.len() ==> out@[e].1 == count_where(i as int, |j: int| inc(j) && kv[j] == pair_view(out@[e].0))
                    && out@[e].1 > 0,
            forall|e1: int, e2: int|
                0 <= e1 < out.len() && 0 <= e2 < out.len() && e1 != e2 ==> pair_view(#[trigger] out@[e1].0) != pair_view(
                    #[trigger] out@[e2].0,
                ),
            forall|j: int|
                0 <= j < i && #[trigger] inc(j) ==> exists|e: int|
                    #![trigger out@[e]]
                    0 <= e < out.len() && pair_view(out@[e].0) == kv[j],
        decreases keys.len() - i,
    {
        assert(kv[i as int] == pair_view(keys@[i as int]));
        proof {
            assert forall|e: int| #![trigger out@[e]] 0 <= e < out.len() implies out@[e].1 <= i by {
                lemma_count_where_bound(i as int, |j: int| inc(j) && kv[j] == pair_view(out@[e].0));
            }
        }
        if selected[i] {
            let mut e: usize = 0;
            while e < out.len() && !pair_eq(&out[e].0, &keys[i])
                invariant
                    e <= out.len(),
                    i < keys.len(),
                    forall|f: int| 0 <= f < e ==> pair_view(#[trigger] out@[f].0) != pair_view(keys@[i as int]),
                decreases out.len() - e,
            {
                e = e + 1;
            }
            let ghost before = out@;
            if e < out.len() {
                let key = (out[e].0.0.clone(), out[e].0.1.clone());
                let count = out[e].1;
                proof {
                    assert(pair_view(out@[e as int].0) == pair_view(keys@[i as int]));
                    assert(count <= i);
                }
                out.set(e, (key, count + 1));
                proof {
                    assert forall|f: int| #![trigger out@[f]] 0 <= f < out.len() implies out@[f].1 == count_where(
                        i + 1,
                        |j: int| inc(j) && kv[j] == pair_view(out@[f].0),
                    ) && out@[f].1 > 0 by {
                        lemma_count_where_step(i as int, |j: int| inc(j) && kv[j] == pair_view(out@[f].0));
                        if f != e as int {
                            assert(out@[f] == before[f]);
                            assert(pair_view(before[f].0) != pair_view(before[e as int].0));
                        }
                    }
                    assert forall|j: int| 0 <= j < i + 1 && #[trigger] inc(j) implies exists|f: int|
                        #![trigger out@[f]]
                        0 <= f < out.len() && pair_view(out@[f].0) == kv[j] by {
                        if j < i {
                            let f = choose|f: int| #![trigger before[f]] 0 <= f < before.len() && pair_view(before[f].0) == kv[j];
                            assert(pair_view(out@[f].0) == pair_view(before[f].0));
                        } else {
                            assert(pair_view(out@[e as int].0) == kv[j]);
                        }
                    }
                }
            } else {
                let key = (keys[i].0.clone(), keys[i].1.clone());
                proof {
                    let fresh = |j: int| inc(j) && kv[j] == pair_view(keys@[i as int]);
                    assert forall|j: int| 0 <= j < i implies !#[trigger] fresh(j) by {
                        if inc(j) && kv[j] == pair_view(keys@[i as int]) {
                            let f = choose|f: int| #![trigger out@[f]] 0 <= f < out.len() && pair_view(out@[f].0) == kv[j];
                            assert(pair_view(out@[f].0) != pair_view(keys@[i as int]));
                        }
                    }
                    lemma_count_where_none(i as int, fresh);
                }
                out.push((key, 1));
                proof {
                    assert(pair_view(out@[e as int].0) == pair_view(keys@[i as int]));
                    assert forall|f: int| #![trigger out@[f]] 0 <= f < out.len() implies out@[f].1 == count_where(
                        i + 1,
                        |j: int| inc(j) && kv[j] == pair_view(out@[f].0),
                    ) && out@[f].1 > 0 by {
                        lemma_count_where_step(i as int, |j: int| inc(j) && kv[j] == pair_view(out@[f].0));
                        if f < e as int {
                            assert(out@[f] == before[f]);
                        }
                    }
                    assert forall|j: int| 0 <= j < i + 1 && #[trigger] inc(j) implies exists|f: int|
                        #![trigger out@[f]]
                        0 <= f < out.len() && pair_view(out@[f].0) == kv[j] by {
                        if j < i {
                            let f = choose|f: int| #![trigger before[f]] 0 <= f < before.len() && pair_view(before[f].0) == kv[j];
                            assert(out@[f] == before[f]);
                        } else {
                            assert(pair_view(out@[e as int].0) == kv[j]);
                        }
                    }
                }
            }
        } else {
            proof {
                assert forall|f: int| #![trigger out@[f]] 0 <= f < out.len() implies out@[f].1 == count_where(
                    i + 1,
                    |j: int| inc(j) && kv[j] == pair_view(out@[f].0),
                ) && out@[f].1 > 0 by {
                    lemma_count_where_step(i as int, |j: int| inc(j) && kv[j] == pair_view(out@[f].0));
                }
            }
        }
        i = i + 1;
    }
    out
}

/// The two texts in ascending order.
pub open spec fn sorted_pair(a: Seq<char>, b: Seq<char>) -> (Seq<char>, Seq<char>) {
    if text_less(b, a) {
        (b, a)
    } else {
        (a, b)
    }
}

fn sorted_pair_exec(a: &String, b: &String) -> (r: (String, String))
    ensures
        pair_view(r) == sorted_pair(a@, b@),
{
    if text_less_exec(b.as_str(), a.as_str()) {
        (b.clone(), a.clone())
    } else {
        (a.clone(), b.clone())
    }
}

/// The number of consecutive pairs among `n` patterns.
pub open spec fn pairs(n: int) -> int {
    if n <= 0 {
        0
    } else {
        n - 1
    }
}

/// The label of pattern `k`: its type and snap, as in `Jump (1/4)`.
pub open spec fn pattern_label(t: Seq<PatternType>, sv: Seq<Seq<char>>, k: int) -> Seq<char> {
    t[k].label() + " ("@ + sv[k] + ")"@
}

/// The snap pair of each transition, in ascending order.
pub open spec fn snap_keys(sv: Seq<Seq<char>>) -> Seq<(Seq<char>, Seq<char>)> {
    Seq::new(pairs(sv.len() as int) as nat, |i: int| sorted_pair(sv[i], sv[i + 1]))
}

/// The label pair of each transition, in ascending order.
pub open spec fn label_keys(t: Seq<PatternType>, sv: Seq<Seq<char>>) -> Seq<(Seq<char>, Seq<char>)> {
    Seq::new(
        pairs(t.len() as int) as nat,
        |i: int| sorted_pair(pattern_label(t, sv, i), pattern_label(t, sv, i + 1)),
    )
}

/// Both snaps of transition `i` are timed (neither `End` nor `Unstable`).
pub open spec fn timed_snaps(sv: Seq<Seq<char>>, i: int) -> bool {
    sv[i] != "End"@ && sv[i + 1] != "End"@ && sv[i] != "Unstable"@ && sv[i + 1] != "Unstable"@
}

/// Transition `i` shifts between two timed snaps in category `cat`.
pub open spec fn shift_in(sv: Seq<Seq<char>>, i: int, cat: Seq<char>) -> bool {
    timed_snaps(sv, i) && sv[i] != sv[i + 1] && bpm_category(sorted_pair(sv[i], sv[i + 1]).0, sorted_pair(
        sv[i],
        sv[i + 1],
    ).1) == cat
}

/// The difference of the note counts across transition `i`.
pub open spec fn note_delta(t: Seq<PatternType>, i: int) -> int {
    let a = t[i].notes() as int;
    let b = t[i + 1].notes() as int;
    if a >= b {
        a - b
    } else {
        b - a
    }
}

/// Transition `i` belongs to the group of note difference `d`: a
/// difference of zero counts only where the snap stays the same.
pub open spec fn in_delta_group(t: Seq<PatternType>, sv: Seq<Seq<char>>, i: int, d: int) -> bool {
    note_delta(t, i) == d && (d != 0 || sv[i] == sv[i + 1])
}

/// The counts behind a transition matrix: how often each pair of snaps and
/// each pair of labels occurs between consecutive patterns. Each list holds
/// one entry per pair that occurs, with its number of occurrences.
pub struct TransitionCounts {
    /// Snap pairs of the transitions between timed snaps.
    pub bpm_transitions: Vec<((String, String), u32)>,
    /// Snap pairs of ordinary BPM shifts.
    pub bpm_ordinary: Vec<((String, String), u32)>,
    /// Snap pairs of minor BPM shifts.
    pub bpm_minor: Vec<((String, String), u32)>,
    /// Snap pairs of major BPM shifts.
    pub bpm_major: Vec<((String, String), u32)>,
    /// Label pairs of all transitions.
    pub top_transitions: Vec<((String, String), u32)>,
    /// Label pairs of the rhythmic resets.
    pub rhythmic_resets: Vec<((String, String), u32)>,
    /// For each note difference from 0 to 3 that occurs, in ascending order,
    /// the label pairs of its transitions.
    pub delta_groups: Vec<(u32, Vec<((String, String), u32)>)>,
    pub category_counts: CategoryCounts,
}

/// `groups` holds, in ascending order of difference, the label counts of
/// each note difference from 0 to 3 that occurs.
pub open spec fn delta_groups_of(
    groups: Seq<(u32, Vec<((String, String), u32)>)>,
    t: Seq<PatternType>,
    sv: Seq<Seq<char>>,
) -> bool {
    &&& forall|k: int|
        #![trigger groups[k]]
        0 <= k < groups.len() ==> groups[k].0 <= 3 && groups[k].1.len() > 0 && counts_of(
            groups[k].1@,
            label_keys(t, sv),
            |i: int| 0 <= i < pairs(t.len() as int) && in_delta_group(t, sv, i, groups[k].0 as int),
        )
    &&& forall|k: int, l: int| 0 <= k < l < groups.len() ==> #[trigger] groups[k].0 < #[trigger] groups[l].0
    &&& forall|d: int|
        0 <= d <= 3 && #[trigger] delta_occurs(t, sv, d) ==> exists|k: int|
            #![trigger groups[k]]
            0 <= k < groups.len() && groups[k].0 == d
}

/// Some transition belongs to the group of note difference `d`.
pub open spec fn delta_occurs(t: Seq<PatternType>, sv: Seq<Seq<char>>, d: int) -> bool {
    exists|i: int| 0 <= i < pairs(t.len() as int) && #[trigger] in_delta_group(t, sv, i, d)
}

fn label_text(p: &PatternType, snap: &String) -> (s: String)
    ensures
        s@ == p.label() + " ("@ + snap@ + ")"@,
{
    let mut v: Vec<char> = Vec::new();
    let name = p.as_str();
    push_str_chars(&mut v, name.as_str());
    push_str_chars(&mut v, " (");
    push_str_chars(&mut v, snap.as_str());
    push_str_chars(&mut v, ")");
    string_from_chars(&v)
}

fn transition_keys(types: &[PatternType], snaps: &[String]) -> (r: (Vec<(String, String)>, Vec<(String, String)>))
    requires
        snaps.len() == types.len(),
    ensures
        r.0@.map_values(|p: (String, String)| pair_view(p)) == snap_keys(snaps@.map_values(|s: String| s@)),
        r.1@.map_values(|p: (String, String)| pair_view(p)) == label_keys(types@, snaps@.map_values(|s: String| s@)),
{
    let ghost sv = snaps@.map_values(|s: String| s@);
    let mut sk: Vec<(String, String)> = Vec::new();
    let mut lk: Vec<(String, String)> = Vec::new();
    let mut i: usize = 0;
    while i + 1 < types.len()
        invariant
            sv == snaps@.map_values(|s: String| s@),
            snaps.len() == types.len(),
            i <= pairs(types.len() as int),
            sk.len() == i,
            lk.len() == i,
            forall|j: int| 0 <= j < i ==> pair_view(#[trigger] sk@[j]) == sorted_pair(sv[j], sv[j + 1]),
            forall|j: int|
                0 <= j < i ==> pair_view(#[trigger] lk@[j]) == sorted_pair(
                    pattern_label(types@, sv, j),
                    pattern_label(types@, sv, j + 1),
                ),
        decreases types.len() - i,
    {
        assert(sv[i as int] == snaps[i as int]@ && sv[i + 1] == snaps[i + 1]@);
        sk.push(sorted_pair_exec(&snaps[i], &snaps[i + 1]));
        let l1 = label_text(&types[i], &snaps[i]);
        let l2 = label_text(&types[i + 1], &snaps[i + 1]);
        lk.push(sorted_pair_exec(&l1, &l2));
        i = i + 1;
    }
    assert(sk@.map_values(|p: (String, String)| pair_view(p)) =~= snap_keys(sv));
    assert(lk@.map_values(|p: (String, String)| pair_view(p)) =~= label_keys(types@, sv));
    (sk, lk)
}

fn timed_exec(a: &str, b: &str) -> (r: bool)
    ensures
        r == (a@ != "End"@ && b@ != "End"@ && a@ != "Unstable"@ && b@ != "Unstable"@),
{
    !str_eq(a, "End") && !str_eq(b, "End") && !str_eq(a, "Unstable") && !str_eq(b, "Unstable")
}

/// Which transitions each table counts: timed snaps, the three kinds of
/// BPM shift, every transition, rhythmic resets, and the four note
/// differences.
fn transition_selections(types: &[PatternType], snaps: &[String]) -> (r: Vec<Vec<bool>>)
    requires
        snaps.len() == types.len(),
    ensures
        r.len() == 10,
        forall|k: int| 0 <= k < 10 ==> #[trigger] r@[k].len() == pairs(types.len() as int),
        forall|j: int|
            #![trigger r@[0]@[j]]
            #![trigger r@[1]@[j]]
            #![trigger r@[2]@[j]]
            #![trigger r@[3]@[j]]
            #![trigger r@[4]@[j]]
            #![trigger r@[5]@[j]]
            #![trigger r@[6]@[j]]
            #![trigger r@[7]@[j]]
            #![trigger r@[8]@[j]]
            #![trigger r@[9]@[j]]
            0 <= j < pairs(types.len() as int) ==> {
                let sv = snaps@.map_values(|s: String| s@);
                &&& r@[0]@[j] == timed_snaps(sv, j)
                &&& r@[1]@[j] == shift_in(sv, j, "Ordinary"@)
                &&& r@[2]@[j] == shift_in(sv, j, "Minor"@)
                &&& r@[3]@[j] == shift_in(sv, j, "Major"@)
                &&& r@[4]@[j]
                &&& r@[5]@[j] == rhythmic_reset(types@, sv, j)
                &&& r@[6]@[j] == in_delta_group(types@, sv, j, 0)
                &&& r@[7]@[j] == in_delta_group(types@, sv, j, 1)
                &&& r@[8]@[j] == in_delta_group(types@, sv, j, 2)
                &&& r@[9]@[j] == in_delta_group(types@, sv, j, 3)
            },
{
    let ghost sv = snaps@.map_values(|s: String| s@);
    let mut r: Vec<Vec<bool>> = Vec::new();
    let mut k: usize = 0;
    while k < 10
        invariant
            r.len() == k,
            k <= 10,
            forall|m: int| 0 <= m < k ==> #[trigger] r@[m].len() == 0,
        decreases 10 - k,
    {
        r.push(Vec::new());
        k = k + 1;
    }
    let mut timed: Vec<bool> = Vec::new();
    let mut ordinary: Vec<bool> = Vec::new();
    let mut minor: Vec<bool> = Vec::new();
    let mut major: Vec<bool> = Vec::new();
    let mut all: Vec<bool> = Vec::new();
    let mut resets: Vec<bool> = Vec::new();
    let mut d0: Vec<bool> = Vec::new();
    let mut d1: Vec<bool> = Vec::new();
    let mut d2: Vec<bool> = Vec::new();
    let mut d3: Vec<bool> = Vec::new();
    let mut i: usize = 0;
    while i + 1 < types.len()
        invariant
            sv == snaps@.map_values(|s: String| s@),
            snaps.len() == types.len(),
            i <= pairs(types.len() as int),
            timed.len() == i && ordinary.len() == i && minor.len() == i && major.len() == i && all.len() == i,
            resets.len() == i && d0.len() == i && d1.len() == i && d2.len() == i && d3.len() == i,
            forall|j: int|
                0 <= j < i ==> {
                    &&& #[trigger] timed@[j] == timed_snaps(sv, j)
                    &&& ordinary@[j] == shift_in(sv, j, "Ordinary"@)
                    &&& minor@[j] == shift_in(sv, j, "Minor"@)
                    &&& major@[j] == shift_in(sv, j, "Major"@)
                    &&& all@[j]
                    &&& resets@[j] == rhythmic_reset(types@, sv, j)
                    &&& d0@[j] == in_delta_group(types@, sv, j, 0)
                    &&& d1@[j] == in_delta_group(types@, sv, j, 1)
                    &&& d2@[j] == in_delta_group(types@, sv, j, 2)
                    &&& d3@[j] == in_delta_group(types@, sv, j, 3)
                },
        decreases types.len() - i,
    {
        let a = snaps[i].as_str();
        let b = snaps[i + 1].as_str();
        assert(sv[i as int] == a@ && sv[i + 1] == b@);
        let tm = timed_exec(a, b);
        let shift = tm && !str_eq(a, b);
        let sorted = sorted_pair_exec(&snaps[i], &snaps[i + 1]);
        let cat = get_bpm_category(sorted.0.as_str(), sorted.1.as_str());
        let o = shift && str_eq(cat, "Ordinary");
        let mi = shift && str_eq(cat, "Minor");
        let ma = shift && str_eq(cat, "Major");
        let n1 = types[i].note_count();
        let n2 = types[i + 1].note_count();
        let same_snap = str_eq(a, b);
        let rs = n1 == n2 && !same_snap;
        let delta: u32 = if n1 >= n2 {
            n1 - n2
        } else {
            n2 - n1
        };
        let z0 = delta == 0 && same_snap;
        let z1 = delta == 1;
        let z2 = delta == 2;
        let z3 = delta == 3;
        let ghost j0 = i as int;
        assert(tm == timed_snaps(sv, j0));
        assert(o == shift_in(sv, j0, "Ordinary"@));
        assert(mi == shift_in(sv, j0, "Minor"@));
        assert(ma == shift_in(sv, j0, "Major"@));
        assert(rs == rhythmic_reset(types@, sv, j0));
        assert(delta as int == note_delta(types@, j0));
        assert(z0 == in_delta_group(types@, sv, j0, 0));
        assert(z1 == in_delta_group(types@, sv, j0, 1));
        assert(z2 == in_delta_group(types@, sv, j0, 2));
        assert(z3 == in_delta_group(types@, sv, j0, 3));
        let ghost ot = timed@;
        let ghost oo = ordinary@;
        let ghost omi = minor@;
        let ghost oma = major@;
        let ghost oa = all@;
        let ghost ors = resets@;
        let ghost o0 = d0@;
        let ghost o1 = d1@;
        let ghost o2 = d2@;
        let ghost o3 = d3@;
        timed.push(tm);
        ordinary.push(o);
        minor.push(mi);
        major.push(ma);
        all.push(true);
        resets.push(rs);
        d0.push(z0);
        d1.push(z1);
        d2.push(z2);
        d3.push(z3);
        assert forall|j: int| 0 <= j < i + 1 implies {
            &&& #[trigger] timed@[j] == timed_snaps(sv, j)
            &&& ordinary@[j] == shift_in(sv, j, "Ordinary"@)
            &&& minor@[j] == shift_in(sv, j, "Minor"@)
            &&& major@[j] == shift_in(sv, j, "Major"@)
            &&& all@[j]
            &&& resets@[j] == rhythmic_reset(types@, sv, j)
            &&& d0@[j] == in_delta_group(types@, sv, j, 0)
            &&& d1@[j] == in_delta_group(types@, sv, j, 1)
            &&& d2@[j] == in_delta_group(types@, sv, j, 2)
            &&& d3@[j] == in_delta_group(types@, sv, j, 3)
        } by {
            if j < i {
                assert(ot[j] == timed_snaps(sv, j));
                assert(timed@[j] == ot[j] && ordinary@[j] == oo[j] && minor@[j] == omi[j] && major@[j] == oma[j]
                    && all@[j] == oa[j] && resets@[j] == ors[j] && d0@[j] == o0[j] && d1@[j] == o1[j] && d2@[j]
                    == o2[j] && d3@[j] == o3[j]);
            }
        }
        i = i + 1;
    }
    let ghost vs = seq![timed@, ordinary@, minor@, major@, all@, resets@, d0@, d1@, d2@, d3@];
    assert forall|j: int| 0 <= j < pairs(types.len() as int) implies {
        &&& vs[0][j] == timed_snaps(sv, j)
        &&& vs[1][j] == shift_in(sv, j, "Ordinary"@)
        &&& vs[2][j] == shift_in(sv, j, "Minor"@)
        &&& vs[3][j] == shift_in(sv, j, "Major"@)
        &&& vs[4][j]
        &&& vs[5][j] == rhythmic_reset(types@, sv, j)
        &&& vs[6][j] == in_delta_group(types@, sv, j, 0)
        &&& vs[7][j] == in_delta_group(types@, sv, j, 1)
        &&& vs[8][j] == in_delta_group(types@, sv, j, 2)
        &&& vs[9][j] == in_delta_group(types@, sv, j, 3)
    } by {
        assert(timed@[j] == timed_snaps(sv, j));
    }
    r.set(0, timed);
    r.set(1, ordinary);
    r.set(2, minor);
    r.set(3, major);
    r.set(4, all);
    r.set(5, resets);
    r.set(6, d0);
    r.set(7, d1);
    r.set(8, d2);
    r.set(9, d3);
    assert forall|k: int| 0 <= k < 10 implies #[trigger] r@[k]@ == vs[k] by {}
    r
}

/// The views of snap labels.
pub open spec fn snap_views(snaps: Seq<String>) -> Seq<Seq<char>> {
    snaps.map_values(|s: String| s@)
}

/// Counts the transitions between consecutive patterns with the given types
/// and snap labels: the snap pairs of the transitions between timed snaps,
/// split by BPM-shift category where the snap changes; the label pairs of
/// all transitions, of the rhythmic resets and of each note difference up
/// to three; and the parity and reset counters.
pub fn transition_counts(types: &[PatternType], snaps: &[String]) -> (r: TransitionCounts)
    requires
        snaps.len() == types.len(),
        types.len() <= u32::MAX,
    ensures
        counts_of(
            r.bpm_transitions@,
            snap_keys(snap_views(snaps@)),
            |i: int| 0 <= i < pairs(types.len() as int) && timed_snaps(snap_views(snaps@), i),
        ),
        counts_of(
            r.bpm_ordinary@,
            snap_keys(snap_views(snaps@)),
            |i: int| 0 <= i < pairs(types.len() as int) && shift_in(snap_views(snaps@), i, "Ordinary"@),
        ),
        counts_of(
            r.bpm_minor@,
            snap_keys(snap_views(snaps@)),
            |i: int| 0 <= i < pairs(types.len() as int) && shift_in(snap_views(snaps@), i, "Minor"@),
        ),
        counts_of(
            r.bpm_major@,
            snap_keys(snap_views(snaps@)),
            |i: int| 0 <= i < pairs(types.len() as int) && shift_in(snap_views(snaps@), i, "Major"@),
        ),
        counts_of(
            r.top_transitions@,
            label_keys(types@, snap_views(snaps@)),
            |i: int| 0 <= i < pairs(types.len() as int),
        ),
        counts_of(
            r.rhythmic_resets@,
            label_keys(types@, snap_views(snaps@)),
            |i: int| 0 <= i < pairs(types.len() as int) && rhythmic_reset(types@, snap_views(snaps@), i),
        ),
        delta_groups_of(r.delta_groups@, types@, snap_views(snaps@)),
        r.category_counts.odd_to_odd == count_where(types.len() - 1, |i: int| odd_odd(types@, i)),
        r.category_counts.even_to_even == count_where(types.len() - 1, |i: int| even_even(types@, i)),
        r.category_counts.odd_to_even == count_where(types.len() - 1, |i: int| mixed_parity(types@, i)),
        r.category_counts.rhythmic_resets == count_where(
            types.len() - 1,
            |i: int| rhythmic_reset(types@, snap_views(snaps@), i),
        ),
{
    let ghost sv = snap_views(snaps@);
    let ghost t = types@;
    let ghost m = pairs(types.len() as int);
    let (sk, lk) = transition_keys(types, snaps);
    let sel = transition_selections(types, snaps);
    assert(sk@.map_values(|p: (String, String)| pair_view(p)).len() == m);
    assert(lk@.map_values(|p: (String, String)| pair_view(p)).len() == m);
    assert(sel@[0].len() == m && sel@[1].len() == m && sel@[2].len() == m && sel@[3].len() == m);
    assert(sel@[4].len() == m && sel@[5].len() == m && sel@[6].len() == m && sel@[7].len() == m);
    assert(sel@[8].len() == m && sel@[9].len() == m);
    let bpm_transitions = count_keys(&sk, &sel[0]);
    assert((|j: int| 0 <= j < sel@[0]@.len() && sel@[0]@[j]) =~= (|i: int| 0 <= i < m && timed_snaps(sv, i)));
    let bpm_ordinary = count_keys(&sk, &sel[1]);
    assert((|j: int| 0 <= j < sel@[1]@.len() && sel@[1]@[j]) =~= (|i: int| 0 <= i < m && shift_in(sv, i, "Ordinary"@)));
    let bpm_minor = count_keys(&sk, &sel[2]);
    assert((|j: int| 0 <= j < sel@[2]@.len() && sel@[2]@[j]) =~= (|i: int| 0 <= i < m && shift_in(sv, i, "Minor"@)));
    let bpm_major = count_keys(&sk, &sel[3]);
    assert((|j: int| 0 <= j < sel@[3]@.len() && sel@[3]@[j]) =~= (|i: int| 0 <= i < m && shift_in(sv, i, "Major"@)));
    let top_transitions = count_keys(&lk, &sel[4]);
    assert((|j: int| 0 <= j < sel@[4]@.len() && sel@[4]@[j]) =~= (|i: int| 0 <= i < m));
    let rhythmic_resets = count_keys(&lk, &sel[5]);
    assert((|j: int| 0 <= j < sel@[5]@.len() && sel@[5]@[j]) =~= (|i: int| 0 <= i < m && rhythmic_reset(t, sv, i)));
    let mut groups: Vec<(u32, Vec<((String, String), u32)>)> = Vec::new();
    let mut d: u32 = 0;
    while d < 4
        invariant
            d <= 4,
            sv == snap_views(snaps@),
            t == types@,
            m == pairs(types.len() as int),
            types.len() <= u32::MAX,
            sel.len() == 10,
            lk@.map_values(|p: (String, String)| pair_view(p)) == label_keys(t, sv),
            lk.len() == m,
            sel@[6].len() == m && sel@[7].len() == m && sel@[8].len() == m && sel@[9].len() == m,
            forall|j: int|
                0 <= j < m ==> {
                    &&& #[trigger] sel@[6]@[j] == in_delta_group(t, sv, j, 0)
                    &&& sel@[7]@[j] == in_delta_group(t, sv, j, 1)
                    &&& sel@[8]@[j] == in_delta_group(t, sv, j, 2)
                    &&& sel@[9]@[j] == in_delta_group(t, sv, j, 3)
                },
            forall|k: int|
                #![trigger groups@[k]]
                0 <= k < groups.len() ==> groups@[k].0 < d && groups@[k].1.len() > 0 && counts_of(
                    groups@[k].1@,
                    label_keys(t, sv),
                    |i: int| 0 <= i < pairs(t.len() as int) && in_delta_group(t, sv, i, groups@[k].0 as int),
                ),
            forall|k: int, l: int| 0 <= k < l < groups.len() ==> #[trigger] groups@[k].0 < #[trigger] groups@[l].0,
            forall|e: int|
                0 <= e < d && #[trigger] delta_occurs(t, sv, e) ==> exists|k: int|
                    #![trigger groups@[k]]
                    0 <= k < groups.len() && groups@[k].0 == e,
        decreases 4 - d,
    {
        let idx: usize = 6 + d as usize;
        let g = count_keys(&lk, &sel[idx]);
        let ghost wanted = |i: int| 0 <= i < pairs(t.len() as int) && in_delta_group(t, sv, i, d as int);
        proof {
            assert forall|j: int| 0 <= j < m implies #[trigger] sel@[idx as int]@[j] == in_delta_group(t, sv, j, d as int) by {
                assert(sel@[6]@[j] == in_delta_group(t, sv, j, 0));
            }
            assert((|j: int| 0 <= j < sel@[idx as int]@.len() && sel@[idx as int]@[j]) =~= wanted);
        }
        let ghost before = groups@;
        if g.len() > 0 {
            groups.push((d, g));
        }
        proof {
            if delta_occurs(t, sv, d as int) {
                let w = choose|i: int| 0 <= i < pairs(t.len() as int) && #[trigger] in_delta_group(t, sv, i, d as int);
                assert(wanted(w));
                assert(before.len() < groups.len());
                assert(groups@[before.len() as int].0 == d);
            }
            assert forall|e: int| 0 <= e < d + 1 && #[trigger] delta_occurs(t, sv, e) implies exists|k: int|
                #![trigger groups@[k]]
                0 <= k < groups.len() && groups@[k].0 == e by {
                if e < d {
                    let k = choose|k: int| #![trigger before[k]] 0 <= k < before.len() && before[k].0 == e;
                    assert(groups@[k] == before[k]);
                } else {
                    assert(groups@[before.len() as int].0 == d);
                }
            }
        }
        d = d + 1;
    }
    let category_counts = category_counts(types, snaps);
    TransitionCounts {
        bpm_transitions,
        bpm_ordinary,
        bpm_minor,
        bpm_major,
        top_transitions,
        rhythmic_resets,
        delta_groups: groups,
        category_counts,
    }
}

/// The snap names differ in their last character.
proof fn lemma_snap_names_differ()
    ensures
        "1/1"@[2] == '1',
        "1/2"@[2] == '2',
        "1/3"@[2] == '3',
        "1/4"@[2] == '4',
        "1/6"@[2] == '6',
        "1/8"@[2] == '8',
{
    reveal_strlit("1/1");
    reveal_strlit("1/2");
    reveal_strlit("1/3");
    reveal_strlit("1/4");
    reveal_strlit("1/6");
    reveal_strlit("1/8");
}

/// The BPM-shift categories of the listed snap pairs, in either order:
/// 1/1-1/2, 1/1-1/4 and 1/2-1/4 are ordinary; 1/2-1/3, 1/3-1/4 and
/// 1/4-1/6 minor; 1/4-1/8 and 1/3-1/6 major.
pub proof fn law_bpm_categories_of_snap_pairs()
    ensures
        bpm_category("1/1"@, "1/2"@) == "Ordinary"@,
        bpm_category("1/2"@, "1/1"@) == "Ordinary"@,
        bpm_category("1/1"@, "1/4"@) == "Ordinary"@,
        bpm_category("1/4"@, "1/1"@) == "Ordinary"@,
        bpm_category("1/2"@, "1/4"@) == "Ordinary"@,
        bpm_category("1/4"@, "1/2"@) == "Ordinary"@,
        bpm_category("1/2"@, "1/3"@) == "Minor"@,
        bpm_category("1/3"@, "1/2"@) == "Minor"@,
        bpm_category("1/3"@, "1/4"@) == "Minor"@,
        bpm_category("1/4"@, "1/3"@) == "Minor"@,
        bpm_category("1/4"@, "1/6"@) == "Minor"@,
        bpm_category("1/6"@, "1/4"@) == "Minor"@,
        bpm_category("1/4"@, "1/8"@) == "Major"@,
        bpm_category("1/3"@, "1/6"@) == "Major"@,
{
    lemma_snap_names_differ();
}

/// Two equal snaps are no listed shift: their category is major.
pub proof fn law_equal_snaps_are_major(a: Seq<char>)
    ensures
        bpm_category(a, a) == "Major"@,
{
    lemma_snap_names_differ();
}

} // verus!
