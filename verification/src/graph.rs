//! The path graph between the world's hotspots: a minimum spanning forest by
//! Kruskal's algorithm over distance-sorted edges, and the extra edges that
//! give outer hotspots a second connection.

use vstd::prelude::*;

verus! {

/// `comp` with every vertex labelled `from` relabelled `to`.
pub open spec fn relabel(comp: Seq<int>, from: int, to: int) -> Seq<int> {
    Seq::new(comp.len(), |i: int| if comp[i] == from { to } else { comp[i] })
}

/// Kruskal's algorithm over `edges` in the given order, on `n` vertices.
/// Each vertex carries the label of its component, at first itself; an edge
/// is accepted when both ends are vertices and lie in different components,
/// whose labels are then merged (the second end's component takes the
/// first end's label). Returns the final labels and the accepted edges.
pub open spec fn kruskal_run(n: nat, edges: Seq<(usize, usize)>) -> (Seq<int>, Seq<(usize, usize)>)
    decreases edges.len(),
{
    if edges.len() == 0 {
        (Seq::new(n, |i: int| i), Seq::empty())
    } else {
        let (comp, acc) = kruskal_run(n, edges.drop_last());
        let (u, v) = edges.last();
        if u < n && v < n && comp[u as int] != comp[v as int] {
            (relabel(comp, comp[v as int], comp[u as int]), acc.push((u, v)))
        } else {
            (comp, acc)
        }
    }
}

proof fn lemma_kruskal_len(n: nat, edges: Seq<(usize, usize)>)
    ensures
        kruskal_run(n, edges).0.len() == n,
    decreases edges.len(),
{
    if edges.len() > 0 {
        lemma_kruskal_len(n, edges.drop_last());
    }
}

/// The edges of a minimum spanning forest of the `n` vertices, from
/// `sorted_edges` sorted by length: Kruskal's algorithm, accepting in order
/// each edge whose ends (both below `n`) lie in different components of the
/// edges accepted before it.
pub fn kruskals_edges(n: usize, sorted_edges: Vec<(usize, usize)>) -> (result: Vec<(usize, usize)>)
    ensures
        result@ == kruskal_run(n as nat, sorted_edges@).1,
{
    let mut comp: Vec<usize> = Vec::new();
    let mut i: usize = 0;
    while i < n
        invariant
            i <= n,
            comp@.len() == i,
            forall|k: int| 0 <= k < i ==> comp@[k] == k,
        decreases n - i,
    {
        comp.push(i);
        i = i + 1;
    }
    assert(comp@.map_values(|l: usize| l as int) =~= kruskal_run(n as nat, sorted_edges@.take(0)).0);
    let mut result: Vec<(usize, usize)> = Vec::new();
    let mut e: usize = 0;
    while e < sorted_edges.len()
        invariant
            e <= sorted_edges@.len(),
            comp@.len() == n,
            comp@.map_values(|l: usize| l as int) == kruskal_run(n as nat, sorted_edges@.take(e as int)).0,
            result@ == kruskal_run(n as nat, sorted_edges@.take(e as int)).1,
        decreases sorted_edges@.len() - e,
    {
        let (u, v) = sorted_edges[e];
        let ghost before = comp@.map_values(|l: usize| l as int);
        assert(sorted_edges@.take(e + 1).drop_last() =~= sorted_edges@.take(e as int));
        if u < n && v < n && comp[u] != comp[v] {
            result.push((u, v));
            let from = comp[v];
            let to = comp[u];
            let mut k: usize = 0;
            while k < n
                invariant
                    k <= n,
                    comp@.len() == n,
                    before.len() == n,
                    from == before[v as int],
                    to == before[u as int],
                    forall|j: int| 0 <= j < k ==> comp@[j] as int == relabel(before, from as int, to as int)[j],
                    forall|j: int| k <= j < n ==> comp@[j] as int == before[j],
                decreases n - k,
            {
                if comp[k] == from {
                    comp.set(k, to);
                }
                k = k + 1;
            }
            assert(comp@.map_values(|l: usize| l as int) =~= relabel(before, from as int, to as int));
        }
        e = e + 1;
    }
    assert(sorted_edges@.take(sorted_edges@.len() as int) =~= sorted_edges@);
    result
}

/// Kruskal's result spans: once all edges are processed, the two ends of
/// every edge between vertices lie in one component, and so do the two ends
/// of every accepted edge; no edge is accepted twice.
pub proof fn lemma_kruskal_spanning(n: nat, edges: Seq<(usize, usize)>)
    ensures
        ({
            let (comp, acc) = kruskal_run(n, edges);
            &&& forall|k: int|
                0 <= k < edges.len() && (#[trigger] edges[k]).0 < n && edges[k].1 < n ==> comp[edges[k].0 as int]
                    == comp[edges[k].1 as int]
            &&& forall|k: int|
                0 <= k < acc.len() ==> (#[trigger] acc[k]).0 < n && acc[k].1 < n && comp[acc[k].0 as int]
                    == comp[acc[k].1 as int]
            &&& forall|a: int, b: int| 0 <= a < b < acc.len() ==> acc[a] != acc[b]
        }),
    decreases edges.len(),
{
    lemma_kruskal_len(n, edges);
    if edges.len() > 0 {
        let prefix = edges.drop_last();
        lemma_kruskal_spanning(n, prefix);
        lemma_kruskal_len(n, prefix);
        let (comp0, acc0) = kruskal_run(n, prefix);
        let (comp, acc) = kruskal_run(n, edges);
        let (u, v) = edges.last();
        if u < n && v < n && comp0[u as int] != comp0[v as int] {
            let from = comp0[v as int];
            let to = comp0[u as int];
            assert forall|a: int, b: int|
                0 <= a < n && 0 <= b < n && comp0[a] == comp0[b] implies comp[a] == comp[b] by {}
            assert(comp[u as int] == comp[v as int]);
            assert forall|k: int|
                0 <= k < edges.len() && (#[trigger] edges[k]).0 < n && edges[k].1 < n implies comp[edges[k].0 as int]
                    == comp[edges[k].1 as int] by {
                if k < prefix.len() {
                    assert(edges[k] == prefix[k]);
                }
            }
            assert forall|k: int| 0 <= k < acc0.len() implies acc0[k] != (u, v) by {
                assert(comp0[acc0[k].0 as int] == comp0[acc0[k].1 as int]);
            }
            assert forall|k: int|
                0 <= k < acc.len() implies (#[trigger] acc[k]).0 < n && acc[k].1 < n && comp[acc[k].0 as int]
                    == comp[acc[k].1 as int] by {
                if k < acc0.len() {
                    assert(acc[k] == acc0[k]);
                }
            }
        } else {
            assert forall|k: int|
                0 <= k < edges.len() && (#[trigger] edges[k]).0 < n && edges[k].1 < n implies comp[edges[k].0 as int]
                    == comp[edges[k].1 as int] by {
                if k < prefix.len() {
                    assert(edges[k] == prefix[k]);
                }
            }
        }
    }
}

/// Kruskal's result is a forest: the accepted edges and the components
/// (the distinct labels) together number the vertices, so on `n >= 1`
/// vertices at most `n - 1` edges are accepted.
pub proof fn lemma_kruskal_forest(n: nat, edges: Seq<(usize, usize)>)
    ensures
        ({
            let (comp, acc) = kruskal_run(n, edges);
            &&& comp.to_set().finite()
            &&& acc.len() + comp.to_set().len() == n
            &&& forall|i: int| 0 <= i < n ==> 0 <= #[trigger] comp[i] < n
            &&& n >= 1 ==> acc.len() <= n - 1
        }),
    decreases edges.len(),
{
    broadcast use vstd::seq_lib::seq_to_set_is_finite;

    lemma_kruskal_len(n, edges);
    let (comp, acc) = kruskal_run(n, edges);
    if edges.len() == 0 {
        assert forall|l: int| vstd::set_lib::set_int_range(0, n as int).contains(l) implies comp.to_set().contains(l) by {
            assert(comp[l] == l);
        }
        assert(comp.to_set() =~= vstd::set_lib::set_int_range(0, n as int));
        vstd::set_lib::lemma_int_range(0, n as int);
    } else {
        let prefix = edges.drop_last();
        lemma_kruskal_forest(n, prefix);
        lemma_kruskal_len(n, prefix);
        let (comp0, acc0) = kruskal_run(n, prefix);
        let (u, v) = edges.last();
        if u < n && v < n && comp0[u as int] != comp0[v as int] {
            let from = comp0[v as int];
            let to = comp0[u as int];
            assert(comp0.to_set().contains(from));
            assert(comp0.to_set().contains(to));
            assert(comp.to_set() =~= comp0.to_set().remove(from)) by {
                assert forall|l: int| comp.to_set().contains(l) implies comp0.to_set().remove(from).contains(l) by {
                    let i = choose|i: int| 0 <= i < comp.len() && comp[i] == l;
                }
                assert forall|l: int| comp0.to_set().remove(from).contains(l) implies comp.to_set().contains(l) by {
                    let i = choose|i: int| 0 <= i < comp0.len() && comp0[i] == l;
                    assert(comp[i] == l);
                }
            }
        }
    }
    if n >= 1 {
        assert(comp.to_set().contains(comp[0]));
        vstd::set_lib::lemma_set_empty_equivalency_len(comp.to_set());
    }
}

} // verus!

verus! {

/// How many of `edges` touch `vertex`.
pub open spec fn degree(edges: Seq<(usize, usize)>, vertex: int) -> nat
    decreases edges.len(),
{
    if edges.len() == 0 {
        0
    } else {
        degree(edges.drop_last(), vertex) + if edges.last().0 == vertex || edges.last().1 == vertex {
            1nat
        } else {
            0nat
        }
    }
}

/// How many of `edges` touch `vertex_index`.
pub fn number_of_edges(vertex_index: usize, edges: &Vec<(usize, usize)>) -> (n: usize)
    ensures
        n == degree(edges@, vertex_index as int),
{
    let mut n: usize = 0;
    let mut k: usize = 0;
    while k < edges.len()
        invariant
            k <= edges@.len(),
            n == degree(edges@.take(k as int), vertex_index as int),
            n <= k,
        decreases edges@.len() - k,
    {
        assert(edges@.take(k + 1).drop_last() =~= edges@.take(k as int));
        let (a, b) = edges[k];
        if a == vertex_index || b == vertex_index {
            n = n + 1;
        }
        k = k + 1;
    }
    assert(edges@.take(k as int) =~= edges@);
    n
}

/// Whether `edges` join `i` and `j`, in either direction.
pub open spec fn joined(edges: Seq<(usize, usize)>, i: int, j: int) -> bool {
    edges.contains((i as usize, j as usize)) || edges.contains((j as usize, i as usize))
}

/// The first of `candidates` that is not `i` and not yet joined to `i`.
pub open spec fn first_free(edges: Seq<(usize, usize)>, i: int, candidates: Seq<usize>) -> Option<usize>
    decreases candidates.len(),
{
    if candidates.len() == 0 {
        None
    } else if candidates[0] != i && !joined(edges, i, candidates[0] as int) {
        Some(candidates[0])
    } else {
        first_free(edges, i, candidates.drop_first())
    }
}

/// The partner found among the candidates is a new neighbour: it is one of
/// the candidates, not `i` itself, and no edge joins it to `i` in either
/// direction; where none is found, every candidate is `i` or already
/// joined to `i` one way or the other.
pub proof fn lemma_first_free_is_new(edges: Seq<(usize, usize)>, i: usize, candidates: Seq<usize>)
    ensures
        match first_free(edges, i as int, candidates) {
            Some(j) => candidates.contains(j) && j != i && !edges.contains((i, j)) && !edges.contains(
                (j, i),
            ),
            None => forall|k: int|
                0 <= k < candidates.len() ==> #[trigger] candidates[k] == i || edges.contains(
                    (i, candidates[k]),
                ) || edges.contains((candidates[k], i)),
        },
    decreases candidates.len(),
{
    if candidates.len() > 0 {
        lemma_first_free_is_new(edges, i, candidates.drop_first());
        if !(candidates[0] != i && !joined(edges, i as int, candidates[0] as int)) {
            match first_free(edges, i as int, candidates) {
                Some(j) => {
                    let k = choose|k: int| 0 <= k < candidates.drop_first().len() && candidates.drop_first()[k] == j;
                    assert(candidates[k + 1] == j);
                },
                None => {
                    assert forall|k: int| 0 <= k < candidates.len() implies #[trigger] candidates[k] == i
                        || edges.contains((i, candidates[k])) || edges.contains((candidates[k], i)) by {
                        if k > 0 {
                            assert(candidates[k] == candidates.drop_first()[k - 1]);
                        }
                    }
                },
            }
        }
    }
}

/// The partner chosen for vertex `i`: the first free of its candidates,
/// else vertex 1 for vertex 0 and vertex 0 for the others.
pub open spec fn partner(edges: Seq<(usize, usize)>, i: int, candidates: Seq<usize>) -> usize {
    match first_free(edges, i, candidates) {
        Some(j) => j,
        None => if i == 0 {
            1
        } else {
            0
        },
    }
}

/// `edges` as a set: with `e` added unless it is there.
pub open spec fn with_edge(edges: Seq<(usize, usize)>, e: (usize, usize)) -> Seq<(usize, usize)> {
    if edges.contains(e) {
        edges
    } else {
        edges.push(e)
    }
}

/// The edges after the vertices below `upto` were looked at: a vertex with
/// fewer than two edges gains one to its partner.
pub open spec fn connected_outer(
    edges: Seq<(usize, usize)>,
    preferences: Seq<Seq<usize>>,
    upto: int,
) -> Seq<(usize, usize)>
    decreases upto,
{
    if upto <= 0 {
        edges
    } else {
        let before = connected_outer(edges, preferences, upto - 1);
        let i = upto - 1;
        if degree(before, i) > 1 {
            before
        } else {
            with_edge(before, (i as usize, partner(before, i, preferences[i])))
        }
    }
}

/// Whether `edges` hold no edge twice.
pub open spec fn no_repeats(edges: Seq<(usize, usize)>) -> bool {
    forall|a: int, b: int| 0 <= a < b < edges.len() ==> edges[a] != edges[b]
}

/// Whether `edges` joins `i` and `j` in either direction.
fn is_joined(edges: &Vec<(usize, usize)>, i: usize, j: usize) -> (b: bool)
    ensures
        b == joined(edges@, i as int, j as int),
{
    let mut k: usize = 0;
    while k < edges.len()
        invariant
            k <= edges@.len(),
            forall|m: int| 0 <= m < k ==> edges@[m] != (i, j) && edges@[m] != (j, i),
        decreases edges@.len() - k,
    {
        let (a, b) = edges[k];
        if (a == i && b == j) || (a == j && b == i) {
            assert(edges@[k as int] == (i, j) || edges@[k as int] == (j, i));
            return true;
        }
        k = k + 1;
    }
    false
}

/// Gives every vertex with fewer than two edges a second connection. For
/// vertex `i`, `preferences[i]` lists the other vertices from the most to
/// the least fitting (by squared distance over the partner's squared
/// distance from the origin, where that is finite); the first one that is
/// not yet joined to `i` is taken, else vertex 1 for vertex 0 and vertex 0
/// for the others. With fewer than two vertices nothing changes.
pub fn connect_outer_vertices(
    vertex_count: usize,
    preferences: &Vec<Vec<usize>>,
    edges: &mut Vec<(usize, usize)>,
)
    requires
        vertex_count >= 2 ==> preferences@.len() >= vertex_count,
        no_repeats(old(edges)@),
    ensures
        vertex_count < 2 ==> final(edges)@ == old(edges)@,
        vertex_count >= 2 ==> final(edges)@ == connected_outer(
            old(edges)@,
            preferences@.map_values(|p: Vec<usize>| p@),
            vertex_count as int,
        ),
        no_repeats(final(edges)@),
{
    if vertex_count < 2 {
        return;
    }
    let ghost prefs = preferences@.map_values(|p: Vec<usize>| p@);
    let mut i: usize = 0;
    while i < vertex_count
        invariant
            i <= vertex_count,
            preferences@.len() >= vertex_count,
            prefs == preferences@.map_values(|p: Vec<usize>| p@),
            edges@ == connected_outer(old(edges)@, prefs, i as int),
            no_repeats(edges@),
        decreases vertex_count - i,
    {
        if number_of_edges(i, edges) > 1 {
            i = i + 1;
            continue;
        }
        let candidates = &preferences[i];
        assert(prefs[i as int] == candidates@);
        let mut best: usize = if i == 0 {
            1
        } else {
            0
        };
        let mut k: usize = 0;
        let mut found = false;
        assert(candidates@.skip(0) =~= candidates@);
        while k < candidates.len() && !found
            invariant
                k <= candidates@.len(),
                found ==> first_free(edges@, i as int, candidates@) == Some(best),
                !found ==> first_free(edges@, i as int, candidates@) == first_free(
                    edges@,
                    i as int,
                    candidates@.skip(k as int),
                ),
                !found ==> best == if i == 0 {
                    1usize
                } else {
                    0usize
                },
            decreases candidates@.len() - k + if found {
                0int
            } else {
                1int
            },
        {
            let j = candidates[k];
            assert(candidates@.skip(k as int)[0] == j);
            assert(candidates@.skip(k as int).drop_first() =~= candidates@.skip(k + 1));
            if j != i && !is_joined(edges, i, j) {
                best = j;
                found = true;
            } else {
                k = k + 1;
            }
        }
        if !found {
            assert(candidates@.skip(k as int) =~= Seq::<usize>::empty());
        }
        assert(best == partner(edges@, i as int, prefs[i as int]));
        if !is_joined_directed(edges, i, best) {
            let ghost before = edges@;
            edges.push((i, best));
            assert forall|a: int, b: int| 0 <= a < b < edges@.len() implies edges@[a] != edges@[b] by {
                if b == before.len() {
                    assert(edges@[a] == before[a]);
                    assert(before.contains(before[a]));
                }
            }
        }
        i = i + 1;
    }
}

/// Whether `edges` holds the edge `(i, j)` as it is.
fn is_joined_directed(edges: &Vec<(usize, usize)>, i: usize, j: usize) -> (b: bool)
    ensures
        b == edges@.contains((i, j)),
{
    let mut k: usize = 0;
    while k < edges.len()
        invariant
            k <= edges@.len(),
            forall|m: int| 0 <= m < k ==> edges@[m] != (i, j),
        decreases edges@.len() - k,
    {
        let (a, b) = edges[k];
        if a == i && b == j {
            assert(edges@[k as int] == (i, j));
            return true;
        }
        k = k + 1;
    }
    false
}

} // verus!

verus! {

proof fn lemma_with_edge(edges: Seq<(usize, usize)>, e: (usize, usize), v: int)
    ensures
        degree(with_edge(edges, e), v) >= degree(edges, v),
        with_edge(edges, e).len() >= edges.len(),
        with_edge(edges, e).take(edges.len() as int) == edges,
        with_edge(edges, e).contains(e),
{
    if !edges.contains(e) {
        assert(edges.push(e).drop_last() =~= edges);
        assert(edges.push(e).take(edges.len() as int) =~= edges);
        assert(edges.push(e)[edges.len() as int] == e);
    } else {
        assert(edges.take(edges.len() as int) =~= edges);
    }
}

/// Connecting outer vertices only adds edges: the edges before stay, in
/// their order, no vertex loses an edge, and each vertex looked at that had
/// fewer than two edges is then joined to its partner.
pub proof fn lemma_connect_only_adds(
    edges: Seq<(usize, usize)>,
    preferences: Seq<Seq<usize>>,
    upto: int,
    v: int,
)
    requires
        0 <= upto,
    ensures
        connected_outer(edges, preferences, upto).len() >= edges.len(),
        connected_outer(edges, preferences, upto).take(edges.len() as int) == edges,
        degree(connected_outer(edges, preferences, upto), v) >= degree(edges, v),
        0 <= v < upto && degree(connected_outer(edges, preferences, v), v) <= 1 ==> connected_outer(
            edges,
            preferences,
            v + 1,
        ).contains(
            (
                v as usize,
                partner(connected_outer(edges, preferences, v), v, preferences[v]),
            ),
        ),
    decreases upto,
{
    if upto > 0 {
        lemma_connect_only_adds(edges, preferences, upto - 1, v);
        let before = connected_outer(edges, preferences, upto - 1);
        let i = upto - 1;
        if degree(before, i) <= 1 {
            let e = (i as usize, partner(before, i, preferences[i]));
            lemma_with_edge(before, e, v);
            assert(with_edge(before, e).take(edges.len() as int) =~= before.take(
                edges.len() as int,
            ));
        }
        if 0 <= v < upto - 1 {
            lemma_connect_only_adds(edges, preferences, v + 1, v);
        }
        if v == upto - 1 && degree(before, v) <= 1 {
            let e = (v as usize, partner(before, v, preferences[v]));
            lemma_with_edge(before, e, v);
        }
    } else {
        assert(edges.take(edges.len() as int) =~= edges);
    }
}

} // verus!
