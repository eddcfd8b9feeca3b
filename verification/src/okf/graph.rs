//! Cycle detection over relation edges written `source>target`.

use vstd::prelude::*;

use crate::text::{char_index, chars_eq, find_char, slice_chars, str_chars};

verus! {

/// The two ends of an edge `source>target`, split at its first `>`; an
/// edge string without `>` names no edge.
pub open spec fn endpoints(e: Seq<char>) -> Option<(Seq<char>, Seq<char>)> {
    match char_index(e, '>') {
        Some(i) => Some((e.take(i as int), e.skip(i as int + 1))),
        None => None,
    }
}

/// Edge `k` starts where edge `j` ends.
pub open spec fn follows(edges: Seq<Seq<char>>, j: int, k: int) -> bool {
    &&& 0 <= j < edges.len()
    &&& 0 <= k < edges.len()
    &&& endpoints(edges[j]) is Some
    &&& endpoints(edges[k]) is Some
    &&& endpoints(edges[j]).unwrap().1 == endpoints(edges[k]).unwrap().0
}

/// `ks` is a non-empty list of edge indices, each edge starting where the
/// previous one ends.
pub open spec fn is_chain(edges: Seq<Seq<char>>, ks: Seq<int>) -> bool {
    &&& ks.len() >= 1
    &&& 0 <= ks[0] < edges.len()
    &&& forall|i: int| 0 <= i < ks.len() - 1 ==> #[trigger] follows(edges, ks[i], ks[i + 1])
}

/// Some chain starts with edge `s` and ends with edge `k`.
pub open spec fn reached(edges: Seq<Seq<char>>, s: int, k: int) -> bool {
    exists|ks: Seq<int>| #[trigger] is_chain(edges, ks) && ks[0] == s && ks.last() == k
}

/// Some chain starting with edge `s` comes back to where `s` starts.
pub open spec fn closes_at(edges: Seq<Seq<char>>, s: int) -> bool {
    exists|ks: Seq<int>| #[trigger] is_chain(edges, ks) && ks[0] == s && follows(edges, ks.last(), s)
}

/// The directed graph of the edges has a cycle: some chain of edges returns
/// to the node it started from.
pub open spec fn cyclic(edges: Seq<Seq<char>>) -> bool {
    exists|ks: Seq<int>| #[trigger] is_chain(edges, ks) && follows(edges, ks.last(), ks[0])
}

/// The views of the edge strings.
pub open spec fn edge_views(edges: Seq<String>) -> Seq<Seq<char>> {
    edges.map_values(|e: String| e@)
}

proof fn lemma_extend(edges: Seq<Seq<char>>, s: int, j: int, k: int)
    requires
        reached(edges, s, j),
        follows(edges, j, k),
    ensures
        reached(edges, s, k),
{
    let ks = choose|ks: Seq<int>| #[trigger] is_chain(edges, ks) && ks[0] == s && ks.last() == j;
    let ext = ks.push(k);
    assert forall|i: int| 0 <= i < ext.len() - 1 implies #[trigger] follows(edges, ext[i], ext[i + 1]) by {
        if i < ks.len() - 1 {
            assert(ext[i] == ks[i] && ext[i + 1] == ks[i + 1]);
        } else {
            assert(ext[i] == j && ext[i + 1] == k);
        }
    }
    assert(is_chain(edges, ext));
}

proof fn lemma_start(edges: Seq<Seq<char>>, s: int)
    requires
        0 <= s < edges.len(),
    ensures
        reached(edges, s, s),
{
    let ks = seq![s];
    assert(is_chain(edges, ks));
}

/// The marked edges are closed under `follows`.
pub open spec fn closed(edges: Seq<Seq<char>>, marked: Seq<bool>) -> bool {
    forall|j: int, k: int|
        0 <= j < marked.len() && 0 <= k < marked.len() && #[trigger] marked[j] && #[trigger] follows(
            edges,
            j,
            k,
        ) ==> marked[k]
}

proof fn lemma_closed_covers(edges: Seq<Seq<char>>, marked: Seq<bool>, ks: Seq<int>)
    requires
        marked.len() == edges.len(),
        closed(edges, marked),
        is_chain(edges, ks),
        marked[ks[0]],
    ensures
        marked[ks.last()],
    decreases ks.len(),
{
    if ks.len() > 1 {
        let prefix = ks.drop_last();
        assert forall|i: int| 0 <= i < prefix.len() - 1 implies #[trigger] follows(
            edges,
            prefix[i],
            prefix[i + 1],
        ) by {
            assert(follows(edges, ks[i], ks[i + 1]));
        }
        assert(is_chain(edges, prefix));
        lemma_closed_covers(edges, marked, prefix);
        let n = ks.len() - 2;
        assert(follows(edges, ks[n], ks[n + 1]));
        assert(prefix.last() == ks[n]);
    }
}

/// The number of `true` entries.
pub open spec fn count_true(s: Seq<bool>) -> nat
    decreases s.len(),
{
    if s.len() == 0 {
        0
    } else {
        count_true(s.drop_last()) + if s.last() {
            1nat
        } else {
            0nat
        }
    }
}

proof fn lemma_count_bound(s: Seq<bool>)
    ensures
        count_true(s) <= s.len(),
    decreases s.len(),
{
    if s.len() > 0 {
        lemma_count_bound(s.drop_last());
    }
}

proof fn lemma_count_set(s: Seq<bool>, i: int)
    requires
        0 <= i < s.len(),
        !s[i],
    ensures
        count_true(s.update(i, true)) == count_true(s) + 1,
    decreases s.len(),
{
    let t = s.update(i, true);
    if i == s.len() - 1 {
        assert(t.drop_last() =~= s.drop_last());
    } else {
        assert(t.drop_last() =~= s.drop_last().update(i, true));
        lemma_count_set(s.drop_last(), i);
    }
}

/// The two ends of an edge string, as `str::split_once('>')` gives them.
fn edge_endpoints(e: &str) -> (r: Option<(Vec<char>, Vec<char>)>)
    ensures
        match r {
            Some((a, b)) => endpoints(e@) == Some((a@, b@)),
            None => endpoints(e@) is None,
        },
{
    let cs = str_chars(e);
    match find_char(cs.as_slice(), '>') {
        Some(i) => {
            let a = slice_chars(cs.as_slice(), 0, i);
            let b = slice_chars(cs.as_slice(), i + 1, cs.len());
            assert(a@ == cs@.take(i as int));
            assert(b@ == cs@.skip(i + 1));
            Some((a, b))
        },
        None => None,
    }
}

/// `m[j][k]` tells whether edge `k` follows edge `j`.
fn follows_matrix(edges: &[String]) -> (m: Vec<Vec<bool>>)
    ensures
        m.len() == edges.len(),
        forall|j: int| 0 <= j < m.len() ==> #[trigger] m[j].len() == m.len(),
        forall|j: int, k: int|
            0 <= j < m.len() && 0 <= k < m.len() ==> #[trigger] m[j][k] == follows(
                edge_views(edges@),
                j,
                k,
            ),
{
    let ghost views = edge_views(edges@);
    let n = edges.len();
    let mut ends: Vec<Option<(Vec<char>, Vec<char>)>> = Vec::new();
    let mut i: usize = 0;
    while i < n
        invariant
            n == edges.len(),
            views == edge_views(edges@),
            i <= n,
            ends.len() == i,
            forall|k: int|
                0 <= k < i ==> match #[trigger] ends[k] {
                    Some((a, b)) => endpoints(views[k]) == Some((a@, b@)),
                    None => endpoints(views[k]) is None,
                },
        decreases n - i,
    {
        let e = edge_endpoints(edges[i].as_str());
        ends.push(e);
        i = i + 1;
    }
    let mut m: Vec<Vec<bool>> = Vec::new();
    let mut j: usize = 0;
    while j < n
        invariant
            n == edges.len(),
            views == edge_views(edges@),
            ends.len() == n,
            forall|k: int|
                0 <= k < n ==> match #[trigger] ends[k] {
                    Some((a, b)) => endpoints(views[k]) == Some((a@, b@)),
                    None => endpoints(views[k]) is None,
                },
            j <= n,
            m.len() == j,
            forall|x: int| 0 <= x < j ==> #[trigger] m[x].len() == n,
            forall|x: int, y: int|
                0 <= x < j && 0 <= y < n ==> #[trigger] m[x][y] == follows(views, x, y),
        decreases n - j,
    {
        let mut row: Vec<bool> = Vec::new();
        let mut k: usize = 0;
        while k < n
            invariant
                n == edges.len(),
                views == edge_views(edges@),
                ends.len() == n,
                forall|x: int|
                    0 <= x < n ==> match #[trigger] ends[x] {
                        Some((a, b)) => endpoints(views[x]) == Some((a@, b@)),
                        None => endpoints(views[x]) is None,
                    },
                j < n,
                k <= n,
                row.len() == k,
                forall|y: int| 0 <= y < k ==> #[trigger] row[y] == follows(views, j as int, y),
            decreases n - k,
        {
            let linked = match (&ends[j], &ends[k]) {
                (Some((_, to)), Some((from, _))) => chars_eq(to.as_slice(), from.as_slice()),
                _ => false,
            };
            proof {
                let _ = ends[j as int];
                let _ = ends[k as int];
            }
            row.push(linked);
            k = k + 1;
        }
        m.push(row);
        j = j + 1;
    }
    m
}

/// Whether some chain starting with edge `s` comes back to where `s` starts:
/// the edges reachable from `s` are marked until nothing changes, then one
/// of them must lead back.
fn returns_to_start(m: &Vec<Vec<bool>>, s: usize, Ghost(edges): Ghost<Seq<Seq<char>>>) -> (r: bool)
    requires
        m.len() == edges.len(),
        forall|j: int| 0 <= j < m.len() ==> #[trigger] m[j].len() == m.len(),
        forall|j: int, k: int|
            0 <= j < m.len() && 0 <= k < m.len() ==> #[trigger] m[j][k] == follows(edges, j, k),
        s < m.len(),
    ensures
        r == closes_at(edges, s as int),
{
    let n = m.len();
    let mut marked: Vec<bool> = Vec::new();
    let mut i: usize = 0;
    while i < n
        invariant
            i <= n,
            marked.len() == i,
            forall|k: int| 0 <= k < i ==> !#[trigger] marked[k],
        decreases n - i,
    {
        marked.push(false);
        i = i + 1;
    }
    marked.set(s, true);
    proof { lemma_start(edges, s as int); }
    let mut done = false;
    while !done
        invariant
            n == m.len(),
            m.len() == edges.len(),
            forall|j: int| 0 <= j < m.len() ==> #[trigger] m[j].len() == m.len(),
            forall|j: int, k: int|
                0 <= j < m.len() && 0 <= k < m.len() ==> #[trigger] m[j][k] == follows(edges, j, k),
            s < n,
            marked.len() == n,
            marked[s as int],
            forall|k: int| 0 <= k < n && #[trigger] marked[k] ==> reached(edges, s as int, k),
            done ==> closed(edges, marked@),
        decreases (if done { 0int } else { 1int }) + n - count_true(marked@),
    {
        proof { lemma_count_bound(marked@); }
        let ghost start_count = count_true(marked@);
        let ghost start_marks = marked@;
        let mut changed = false;
        let mut k: usize = 0;
        while k < n
            invariant
                n == m.len(),
                m.len() == edges.len(),
                forall|j: int| 0 <= j < m.len() ==> #[trigger] m[j].len() == m.len(),
                forall|j: int, x: int|
                    0 <= j < m.len() && 0 <= x < m.len() ==> #[trigger] m[j][x] == follows(edges, j, x),
                s < n,
                k <= n,
                marked.len() == n,
                marked[s as int],
                forall|x: int| 0 <= x < n && #[trigger] marked[x] ==> reached(edges, s as int, x),
                count_true(marked@) >= start_count,
                changed ==> count_true(marked@) > start_count,
                !changed ==> marked@ == start_marks,
                !changed ==> forall|x: int, j: int|
                    0 <= x < k && 0 <= j < n && #[trigger] marked[j] && #[trigger] follows(edges, j, x)
                        ==> marked[x],
            decreases n - k,
        {
            if !marked[k] {
                let mut j: usize = 0;
                let mut via: Option<usize> = None;
                while j < n
                    invariant
                        n == m.len(),
                        forall|y: int| 0 <= y < m.len() ==> #[trigger] m[y].len() == m.len(),
                        k < n,
                        j <= n,
                        marked.len() == n,
                        match via {
                            Some(p) => p < n && marked[p as int] && m[p as int][k as int],
                            None => forall|y: int| 0 <= y < j ==> !(#[trigger] marked[y] && m[y][k as int]),
                        },
                    decreases n - j,
                {
                    assert(m[j as int].len() == n);
                    if via.is_none() && marked[j] && m[j][k] {
                        via = Some(j);
                    }
                    j = j + 1;
                }
                match via {
                    Some(p) => {
                        proof {
                            lemma_extend(edges, s as int, p as int, k as int);
                            lemma_count_set(marked@, k as int);
                        }
                        marked.set(k, true);
                        changed = true;
                    },
                    None => {
                        assert forall|j2: int|
                            0 <= j2 < n && #[trigger] marked[j2] implies !follows(edges, j2, k as int) by {
                            assert(!(marked[j2] && m[j2][k as int]));
                        }
                    },
                }
            }
            k = k + 1;
        }
        if !changed {
            done = true;
        }
        proof { lemma_count_bound(marked@); }
    }
    let mut j: usize = 0;
    while j < n
        invariant
            n == m.len(),
            m.len() == edges.len(),
            forall|y: int| 0 <= y < m.len() ==> #[trigger] m[y].len() == m.len(),
            forall|y: int, x: int|
                0 <= y < m.len() && 0 <= x < m.len() ==> #[trigger] m[y][x] == follows(edges, y, x),
            s < n,
            j <= n,
            marked.len() == n,
            marked[s as int],
            forall|x: int| 0 <= x < n && #[trigger] marked[x] ==> reached(edges, s as int, x),
            closed(edges, marked@),
            forall|y: int| 0 <= y < j ==> !(#[trigger] marked[y] && follows(edges, y, s as int)),
        decreases n - j,
    {
        assert(m[j as int].len() == n);
        if marked[j] && m[j][s] {
            proof {
                assert(reached(edges, s as int, j as int));
                let ks = choose|ks: Seq<int>|
                    #[trigger] is_chain(edges, ks) && ks[0] == s && ks.last() == j;
                assert(is_chain(edges, ks) && ks[0] == s && follows(edges, ks.last(), s as int));
            }
            return true;
        }
        j = j + 1;
    }
    proof {
        if closes_at(edges, s as int) {
            let ks = choose|ks: Seq<int>|
                #[trigger] is_chain(edges, ks) && ks[0] == s && follows(edges, ks.last(), s as int);
            lemma_closed_covers(edges, marked@, ks);
            let l = ks.last();
            assert(marked[l] && follows(edges, l, s as int));
        }
    }
    false
}

/// Whether the graph of the `source>target` edges has a cycle; strings
/// without `>` add no edge.
pub fn has_cycle(edges: &[String]) -> (r: bool)
    ensures
        r == cyclic(edge_views(edges@)),
{
    let ghost views = edge_views(edges@);
    let m = follows_matrix(edges);
    let n = m.len();
    let mut s: usize = 0;
    while s < n
        invariant
            views == edge_views(edges@),
            n == m.len(),
            m.len() == views.len(),
            forall|j: int| 0 <= j < m.len() ==> #[trigger] m[j].len() == m.len(),
            forall|j: int, k: int|
                0 <= j < m.len() && 0 <= k < m.len() ==> #[trigger] m[j][k] == follows(views, j, k),
            s <= n,
            forall|t: int| 0 <= t < s ==> !#[trigger] closes_at(views, t),
        decreases n - s,
    {
        if returns_to_start(&m, s, Ghost(views)) {
            proof {
                let ks = choose|ks: Seq<int>|
                    #[trigger] is_chain(views, ks) && ks[0] == s && follows(views, ks.last(), s as int);
                assert(is_chain(views, ks) && follows(views, ks.last(), ks[0]));
            }
            return true;
        }
        s = s + 1;
    }
    proof {
        if cyclic(views) {
            let ks = choose|ks: Seq<int>| #[trigger] is_chain(views, ks) && follows(views, ks.last(), ks[0]);
            let t = ks[0];
            assert(closes_at(views, t));
        }
    }
    false
}

/// An index of `x` in `edges`, when it occurs there.
pub open spec fn index_of(edges: Seq<Seq<char>>, x: Seq<char>) -> int {
    choose|j: int| 0 <= j < edges.len() && edges[j] == x
}

proof fn lemma_cyclic_subset(e1: Seq<Seq<char>>, e2: Seq<Seq<char>>)
    requires
        forall|x: Seq<char>| #[trigger] e1.contains(x) ==> e2.contains(x),
    ensures
        cyclic(e1) ==> cyclic(e2),
{
    if cyclic(e1) {
        let ks = choose|ks: Seq<int>| #[trigger] is_chain(e1, ks) && follows(e1, ks.last(), ks[0]);
        assert forall|i: int| 0 <= i < ks.len() implies 0 <= #[trigger] ks[i] < e1.len() by {
            if i > 0 {
                let j = i - 1;
                assert(follows(e1, ks[j], ks[j + 1]));
            } else {
                assert(0 <= ks[0] < e1.len());
            }
        }
        let ks2 = Seq::new(ks.len(), |i: int| index_of(e2, e1[ks[i]]));
        assert forall|i: int| 0 <= i < ks.len() implies 0 <= #[trigger] ks2[i] < e2.len() && e2[ks2[i]] == e1[ks[i]] by {
            assert(0 <= ks[i] < e1.len());
            assert(e1.contains(e1[ks[i]]));
            assert(e2.contains(e1[ks[i]]));
        }
        assert forall|i: int| 0 <= i < ks2.len() - 1 implies #[trigger] follows(e2, ks2[i], ks2[i + 1]) by {
            assert(follows(e1, ks[i], ks[i + 1]));
            assert(0 <= ks2[i] < e2.len() && e2[ks2[i]] == e1[ks[i]]);
            assert(0 <= ks2[i + 1] < e2.len() && e2[ks2[i + 1]] == e1[ks[i + 1]]);
        }
        assert(0 <= ks2[0] < e2.len() && e2[ks2[0]] == e1[ks[0]]);
        assert(0 <= ks2[ks.len() - 1] < e2.len() && e2[ks2[ks.len() - 1]] == e1[ks[ks.len() - 1]]);
        assert(is_chain(e2, ks2));
        assert(follows(e2, ks2.last(), ks2[0]));
    }
}

/// Whether the edges have a cycle depends only on which edges there are:
/// neither their order nor repetitions change the answer.
pub proof fn law_cycles_ignore_edge_order(e1: Seq<Seq<char>>, e2: Seq<Seq<char>>)
    requires
        forall|x: Seq<char>| e1.contains(x) <==> e2.contains(x),
    ensures
        cyclic(e1) == cyclic(e2),
{
    assert forall|x: Seq<char>| #[trigger] e1.contains(x) implies e2.contains(x) by {}
    assert forall|x: Seq<char>| #[trigger] e2.contains(x) implies e1.contains(x) by {}
    lemma_cyclic_subset(e1, e2);
    lemma_cyclic_subset(e2, e1);
}

/// `has_cycle` gives the same answer for any two lists of the same edges,
/// in whatever order and with whatever repetitions.
pub proof fn law_has_cycle_ignores_edge_order(e1: Seq<String>, e2: Seq<String>)
    requires
        forall|x: Seq<char>| edge_views(e1).contains(x) <==> edge_views(e2).contains(x),
    ensures
        cyclic(edge_views(e1)) == cyclic(edge_views(e2)),
{
    law_cycles_ignore_edge_order(edge_views(e1), edge_views(e2));
}

} // verus!
