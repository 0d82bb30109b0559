//! Building the similarity graph, closeness centrality, and the
//! high-centrality selector.
use crate::customer::Customer;
use crate::graph::{
    graph_edge_set, graph_node_count, graph_wf, has_edge, is_shortest_dist, lemma_adjacent_dist,
    lemma_disconnected_symmetric, lemma_self_dist, lemma_shortest_dist_unique,
    lemma_shortest_symmetric, norm_pair, spec_connected, spec_dist, CustomerGraph,
};
use crate::similarity::{determine_neighbor, lemma_is_neighbor_symmetric, spec_is_neighbor};
use vstd::arithmetic::div_mod::{lemma_div_multiples_vanish, lemma_div_nonincreasing};
use vstd::arithmetic::div_mod::lemma_div_is_ordered_by_denominator;
use vstd::arithmetic::mul::{lemma_mul_nonnegative, lemma_mul_upper_bound};
use vstd::prelude::*;
use vstd::set_lib::{lemma_len_subset, lemma_set_disjoint_lens};

verus! {

/// The edges the similarity graph over a customer list must hold: one
/// normalized pair for every two distinct customers the predicate judges
/// neighbors.
pub open spec fn spec_edge_set(cs: Seq<Customer>) -> Set<(usize, usize)> {
    Set::new(
        |p: (usize, usize)|
            p.0 < p.1 < cs.len() && spec_is_neighbor(cs[p.0 as int], cs[p.1 as int]),
    )
}

/// All normalized pairs over n nodes.
pub open spec fn all_pairs(n: nat) -> Set<(usize, usize)> {
    Set::new(|p: (usize, usize)| p.0 < p.1 < n)
}

spec fn row_upto(m: usize, k: nat) -> Set<(usize, usize)> {
    Set::new(|p: (usize, usize)| p.0 < k && p.1 == m)
}

proof fn lemma_row_card(m: usize, k: nat)
    requires
        k <= m,
    ensures
        row_upto(m, k).finite(),
        row_upto(m, k).len() == k,
    decreases k,
{
    if k == 0 {
        assert(row_upto(m, 0) =~= Set::<(usize, usize)>::empty());
    } else {
        lemma_row_card(m, (k - 1) as nat);
        let e = (((k - 1) as usize), m);
        assert(row_upto(m, k) =~= row_upto(m, (k - 1) as nat).insert(e));
        assert(!row_upto(m, (k - 1) as nat).contains(e));
    }
}

/// There are n(n-1)/2 normalized pairs over n nodes.
pub proof fn lemma_all_pairs_card(n: nat)
    requires
        n <= 0xFFFF_FFFF,
    ensures
        all_pairs(n).finite(),
        all_pairs(n).len() * 2 == n * (n - 1),
    decreases n,
{
    if n == 0 {
        assert(all_pairs(0) =~= Set::<(usize, usize)>::empty());
    } else {
        let m = (n - 1) as nat;
        let mu = m as usize;
        lemma_all_pairs_card(m);
        lemma_row_card(mu, m);
        assert(all_pairs(n) =~= all_pairs(m) + row_upto(mu, m));
        assert(all_pairs(m).disjoint(row_upto(mu, m)));
        lemma_set_disjoint_lens(all_pairs(m), row_upto(mu, m));
        assert((all_pairs(m) + row_upto(mu, m)).len() == all_pairs(m).len() + m);
        assert(m * (m - 1) + 2 * m == n * (n - 1)) by (nonlinear_arith)
            requires
                n >= 1,
                m == n - 1,
        ;
    }
}

/// The similarity graph's edges number at most n(n-1)/2 over n customers.
pub proof fn lemma_edge_count_bound(cs: Seq<Customer>)
    requires
        cs.len() <= 0xFFFF_FFFF,
    ensures
        spec_edge_set(cs).finite(),
        spec_edge_set(cs).len() * 2 <= cs.len() * (cs.len() - 1),
        spec_edge_set(cs).len() <= cs.len() * (cs.len() - 1) / 2,
{
    lemma_all_pairs_card(cs.len());
    assert(spec_edge_set(cs).subset_of(all_pairs(cs.len())));
    lemma_len_subset(spec_edge_set(cs), all_pairs(cs.len()));
}

/// Which unordered pairs the doubly nested build loop has visited when the
/// outer index is at i and the inner at j: every ordered visit (x, y) with
/// x < i, or x == i and y < j, in either orientation.
spec fn pair_done(p: (usize, usize), i: int, j: int) -> bool {
    ||| (p.0 as int) < i
    ||| (p.0 as int == i && (p.1 as int) < j)
    ||| (p.1 as int) < i
    ||| (p.1 as int == i && (p.0 as int) < j)
}

spec fn edges_partial(cs: Seq<Customer>, i: int, j: int) -> Set<(usize, usize)> {
    Set::new(|p: (usize, usize)| spec_edge_set(cs).contains(p) && pair_done(p, i, j))
}

/// Build the similarity graph: one node per customer in order, one edge for
/// every pair of distinct customers the predicate judges neighbors. Every
/// ordered pair is tested, and the underlying graph deduplicates the two
/// visits of each unordered pair.
pub fn construct_graph(customers: &Vec<Customer>) -> (g: CustomerGraph)
    requires
        customers@.len() <= 1000,
    ensures
        graph_wf(g),
        graph_node_count(g) == customers@.len(),
        graph_edge_set(g) == spec_edge_set(customers@),
{
    let n = customers.len();
    let mut g = CustomerGraph::new();
    let mut i: usize = 0;
    while i < n
        invariant
            i <= n,
            n == customers@.len() <= 1000,
            graph_node_count(g) == i,
            graph_edge_set(g) == Set::<(usize, usize)>::empty(),
        decreases n - i,
    {
        let _ix = g.add_node();
        i += 1;
    }
    proof {
        lemma_edge_count_bound(customers@);
        assert(graph_edge_set(g) =~= edges_partial(customers@, 0, 0));
    }
    let mut i: usize = 0;
    while i < n
        invariant
            i <= n,
            n == customers@.len() <= 1000,
            graph_node_count(g) == n,
            graph_edge_set(g) == edges_partial(customers@, i as int, 0),
        decreases n - i,
    {
        let mut j: usize = 0;
        while j < n
            invariant
                j <= n,
                i < n,
                n == customers@.len() <= 1000,
                graph_node_count(g) == n,
                graph_edge_set(g) == edges_partial(customers@, i as int, j as int),
            decreases n - j,
        {
            let ghost cs = customers@;
            let ghost prev = edges_partial(cs, i as int, j as int);
            let ghost next = edges_partial(cs, i as int, j as int + 1);
            if i != j && determine_neighbor(&customers[i], &customers[j]) {
                proof {
                    lemma_edge_count_bound(cs);
                    assert(prev.subset_of(spec_edge_set(cs)));
                    lemma_len_subset(prev, spec_edge_set(cs));
                    lemma_mul_upper_bound(cs.len() as int, 1000, (cs.len() - 1) as int, 999);
                }
                g.update_edge(i, j);
                proof {
                    lemma_is_neighbor_symmetric(cs[i as int], cs[j as int]);
                    let e = norm_pair(i, j);
                    assert(spec_edge_set(cs).contains(e));
                    assert(pair_done(e, i as int, j as int + 1));
                    assert forall|p: (usize, usize)| next.contains(p) implies prev.insert(
                        e,
                    ).contains(p) by {
                        if p != e {
                            assert(pair_done(p, i as int, j as int));
                        }
                    }
                    assert(graph_edge_set(g) =~= next);
                }
            } else {
                proof {
                    if i != j {
                        lemma_is_neighbor_symmetric(cs[i as int], cs[j as int]);
                    }
                    assert forall|p: (usize, usize)| next.contains(p) implies prev.contains(
                        p,
                    ) by {
                        if !pair_done(p, i as int, j as int) {
                            assert(p == norm_pair(i, j) || (p.0 == i && p.1 == j) || (p.0 == j
                                && p.1 == i));
                        }
                    }
                    assert(graph_edge_set(g) =~= next);
                }
            }
            j += 1;
        }
        proof {
            assert(edges_partial(customers@, i as int, n as int) =~= edges_partial(
                customers@,
                i as int + 1,
                0,
            ));
        }
        i += 1;
    }
    proof {
        assert(edges_partial(customers@, n as int, 0) =~= spec_edge_set(customers@));
        lemma_edge_count_bound(customers@);
    }
    g
}

/// Scale of the fixed-point centrality values: a closeness centrality c is
/// reported as the integer part of c times this constant.
pub const CENTRALITY_SCALE: u64 = 1000000;

/// The sum of shortest-path distances from a to every member of s other
/// than a itself; None as soon as some member is unreachable.
pub open spec fn spec_dist_sum(es: Set<(usize, usize)>, s: Seq<usize>, a: usize) -> Option<int>
    decreases s.len(),
{
    if s.len() == 0 {
        Some(0)
    } else {
        let rest = spec_dist_sum(es, s.drop_last(), a);
        if s.last() == a {
            rest
        } else {
            match (rest, spec_dist(es, a, s.last())) {
                (Some(x), Some(d)) => Some(x + d),
                _ => None,
            }
        }
    }
}

/// Closeness centrality of a within the member list s, in units of
/// 1/CENTRALITY_SCALE: (|s| - 1) * CENTRALITY_SCALE / (sum of distances),
/// and 0 when some member is unreachable or the sum is zero.
pub open spec fn spec_centrality(es: Set<(usize, usize)>, s: Seq<usize>, a: usize) -> int {
    match spec_dist_sum(es, s, a) {
        Some(sum) => if sum > 0 {
            (s.len() - 1) * (CENTRALITY_SCALE as int) / sum
        } else {
            0
        },
        None => 0,
    }
}

/// What one stored distance-table entry means.
spec fn dist_entry_ok(es: Set<(usize, usize)>, x: usize, y: usize, e: Option<u64>) -> bool {
    match e {
        Some(d) => is_shortest_dist(es, x, y, d as int),
        None => !spec_connected(es, x, y),
    }
}

/// Closeness centrality for every member of the subset, over the full
/// graph's connectivity. Each unordered pair's distance is computed once and
/// reused for the symmetric lookup.
pub fn calculate_centrality(graph: &CustomerGraph, subset: &Vec<usize>) -> (r: Vec<(usize, u64)>)
    requires
        graph_wf(*graph),
        subset@.len() <= 0xFFFF_FFFF,
        forall|k: int| 0 <= k < subset@.len() ==> (#[trigger] subset@[k]) < graph_node_count(*graph),
    ensures
        r@.len() == subset@.len(),
        forall|k: int|
            0 <= k < r@.len() ==> (#[trigger] r@[k]).0 == subset@[k] && r@[k].1 as int
                == spec_centrality(graph_edge_set(*graph), subset@, subset@[k]),
{
    let ghost es = graph_edge_set(*graph);
    let k = subset.len();
    let mut table: Vec<Vec<Option<u64>>> = Vec::new();
    let mut i: usize = 0;
    while i < k
        invariant
            i <= k,
            k == subset@.len() <= 0xFFFF_FFFF,
            graph_wf(*graph),
            es == graph_edge_set(*graph),
            forall|x: int|
                0 <= x < subset@.len() ==> (#[trigger] subset@[x]) < graph_node_count(*graph),
            table@.len() == i,
            forall|x: int| 0 <= x < i ==> (#[trigger] table@[x])@.len() == k,
            forall|x: int, y: int|
                0 <= x < i && 0 <= y < k ==> dist_entry_ok(
                    es,
                    subset@[x],
                    subset@[y],
                    #[trigger] table@[x]@[y],
                ),
        decreases k - i,
    {
        let mut row: Vec<Option<u64>> = Vec::new();
        let mut j: usize = 0;
        while j < k
            invariant
                j <= k,
                i < k,
                k == subset@.len() <= 0xFFFF_FFFF,
                graph_wf(*graph),
                es == graph_edge_set(*graph),
                forall|x: int|
                    0 <= x < subset@.len() ==> (#[trigger] subset@[x]) < graph_node_count(*graph),
                table@.len() == i,
                forall|x: int| 0 <= x < i ==> (#[trigger] table@[x])@.len() == k,
                forall|x: int, y: int|
                    0 <= x < i && 0 <= y < k ==> dist_entry_ok(
                        es,
                        subset@[x],
                        subset@[y],
                        #[trigger] table@[x]@[y],
                    ),
                row@.len() == j,
                forall|y: int|
                    0 <= y < j ==> dist_entry_ok(es, subset@[i as int], subset@[y], #[trigger] row@[y]),
            decreases k - j,
        {
            if j == i {
                proof {
                    lemma_self_dist(es, subset@[i as int]);
                }
                row.push(Some(0u64));
            } else if j < i {
                let e = table[j][i];
                proof {
                    match e {
                        Some(d) => lemma_shortest_symmetric(
                            es,
                            subset@[j as int],
                            subset@[i as int],
                            d as int,
                        ),
                        None => lemma_disconnected_symmetric(
                            es,
                            subset@[j as int],
                            subset@[i as int],
                        ),
                    }
                }
                row.push(e);
            } else {
                let e = graph.shortest_distance(subset[i], subset[j]);
                row.push(e);
            }
            j += 1;
        }
        table.push(row);
        i += 1;
    }
    let mut r: Vec<(usize, u64)> = Vec::new();
    let mut i: usize = 0;
    while i < k
        invariant
            i <= k,
            k == subset@.len() <= 0xFFFF_FFFF,
            es == graph_edge_set(*graph),
            table@.len() == k,
            forall|x: int| 0 <= x < k ==> (#[trigger] table@[x])@.len() == k,
            forall|x: int, y: int|
                0 <= x < k && 0 <= y < k ==> dist_entry_ok(
                    es,
                    subset@[x],
                    subset@[y],
                    #[trigger] table@[x]@[y],
                ),
            r@.len() == i,
            forall|x: int|
                0 <= x < i ==> (#[trigger] r@[x]).0 == subset@[x] && r@[x].1 as int
                    == spec_centrality(es, subset@, subset@[x]),
        decreases k - i,
    {
        let node = subset[i];
        let ghost a = subset@[i as int];
        let mut acc: Option<u128> = Some(0);
        let mut j: usize = 0;
        while j < k
            invariant
                j <= k,
                i < k,
                node == subset@[i as int],
                a == subset@[i as int],
                k == subset@.len() <= 0xFFFF_FFFF,
                es == graph_edge_set(*graph),
                table@.len() == k,
                forall|x: int| 0 <= x < k ==> (#[trigger] table@[x])@.len() == k,
                forall|x: int, y: int|
                    0 <= x < k && 0 <= y < k ==> dist_entry_ok(
                        es,
                        subset@[x],
                        subset@[y],
                        #[trigger] table@[x]@[y],
                    ),
                match acc {
                    Some(x) => Some(x as int) == spec_dist_sum(es, subset@.take(j as int), a) && x
                        <= (j as u128) * 0xFFFF_FFFF_FFFF_FFFFu128,
                    None => spec_dist_sum(es, subset@.take(j as int), a) is None,
                },
            decreases k - j,
        {
            proof {
                assert(subset@.take(j as int + 1).drop_last() =~= subset@.take(j as int));
                assert(subset@.take(j as int + 1).last() == subset@[j as int]);
            }
            if j == i {
                // the member itself: its zero self-distance is excluded
            } else {
                let e = table[i][j];
                match e {
                    Some(d) => {
                        proof {
                            lemma_shortest_dist_unique(es, a, subset@[j as int], d as int);
                            if subset@[j as int] == a {
                                lemma_self_dist(es, a);
                                lemma_shortest_dist_unique(es, a, a, 0);
                            }
                        }
                        match acc {
                            Some(x) => {
                                acc = Some(x + d as u128);
                            },
                            None => {},
                        }
                    },
                    None => {
                        proof {
                            if subset@[j as int] == a {
                                lemma_self_dist(es, a);
                                let p = choose|p: Seq<usize>|
                                    crate::graph::connects(es, p, a, a) && p.len() == 0 + 1;
                                assert(spec_connected(es, a, a));
                            }
                        }
                        acc = None;
                    },
                }
            }
            j += 1;
        }
        proof {
            assert(subset@.take(k as int) =~= subset@);
        }
        match acc {
            None => {
                r.push((node, 0u64));
            },
            Some(sum) => {
                if sum == 0 {
                    r.push((node, 0u64));
                } else {
                    let num: u128 = ((k - 1) as u128) * (CENTRALITY_SCALE as u128);
                    let c128: u128 = num / sum;
                    proof {
                        lemma_mul_upper_bound(
                            (k - 1) as int,
                            0xFFFF_FFFFint,
                            CENTRALITY_SCALE as int,
                            CENTRALITY_SCALE as int,
                        );
                        lemma_div_nonincreasing(num as int, sum as int);
                    }
                    r.push((node, c128 as u64));
                }
            },
        }
        i += 1;
    }
    r
}

/// The total of the centrality values in a centrality map.
pub open spec fn cent_total(m: Seq<(usize, u64)>) -> int
    decreases m.len(),
{
    if m.len() == 0 {
        0
    } else {
        cent_total(m.drop_last()) + m.last().1
    }
}

/// Whether a centrality value c lies strictly above threshold_num /
/// threshold_den times the mean of the map, stated without division:
/// c > (tn/td) * (total/len)  iff  c * len * td > tn * total.
pub open spec fn spec_is_high(m: Seq<(usize, u64)>, tn: int, td: int, c: int) -> bool {
    c * m.len() * td > tn * cent_total(m)
}

pub open spec fn spec_select_upto(m: Seq<(usize, u64)>, tn: int, td: int, n: int) -> Seq<usize>
    decreases n,
{
    if n <= 0 {
        Seq::empty()
    } else {
        let pre = spec_select_upto(m, tn, td, n - 1);
        if spec_is_high(m, tn, td, m[n - 1].1 as int) {
            pre.push(m[n - 1].0)
        } else {
            pre
        }
    }
}

/// The nodes whose centrality lies strictly above threshold_num /
/// threshold_den times the mean, in map order. Empty input gives an empty
/// selection.
pub open spec fn spec_select(m: Seq<(usize, u64)>, tn: int, td: int) -> Seq<usize> {
    spec_select_upto(m, tn, td, m.len() as int)
}

/// Select the nodes whose centrality exceeds threshold_num / threshold_den
/// times the mean centrality. The comparison is exact rational arithmetic:
/// c > (tn/td) * (total/len) decided as c * len * td > tn * total.
pub fn identify_high_centrality_nodes(
    centrality: &Vec<(usize, u64)>,
    threshold_num: u64,
    threshold_den: u64,
) -> (r: Vec<usize>)
    requires
        1 <= threshold_den <= 0xFFFF_FFFF,
        threshold_num <= 0xFFFF_FFFF,
        centrality@.len() <= 0xFFFF_FFFF,
    ensures
        r@ == spec_select(centrality@, threshold_num as int, threshold_den as int),
        r@.len() <= centrality@.len(),
{
    let ghost tn = threshold_num as int;
    let ghost td = threshold_den as int;
    let n = centrality.len();
    let mut total: u128 = 0;
    let mut i: usize = 0;
    while i < n
        invariant
            i <= n,
            n == centrality@.len() <= 0xFFFF_FFFF,
            total as int == cent_total(centrality@.take(i as int)),
            total <= (i as u128) * 0xFFFF_FFFF_FFFF_FFFFu128,
        decreases n - i,
    {
        proof {
            assert(centrality@.take(i as int + 1).drop_last() =~= centrality@.take(i as int));
        }
        total += centrality[i].1 as u128;
        i += 1;
    }
    proof {
        assert(centrality@.take(n as int) =~= centrality@);
    }
    let mut r: Vec<usize> = Vec::new();
    let mut i: usize = 0;
    while i < n
        invariant
            i <= n,
            n == centrality@.len() <= 0xFFFF_FFFF,
            tn == threshold_num as int,
            td == threshold_den as int,
            1 <= td <= 0xFFFF_FFFF,
            0 <= tn <= 0xFFFF_FFFF,
            total as int == cent_total(centrality@),
            total <= (n as u128) * 0xFFFF_FFFF_FFFF_FFFFu128,
            r@ == spec_select_upto(centrality@, tn, td, i as int),
            r@.len() <= i,
        decreases n - i,
    {
        let c = centrality[i].1;
        proof {
            lemma_mul_upper_bound(c as int, 0xFFFF_FFFF_FFFF_FFFFint, n as int, 0xFFFF_FFFFint);
            lemma_mul_nonnegative(c as int, n as int);
            lemma_mul_upper_bound(
                (c as int) * (n as int),
                0xFFFF_FFFF_FFFF_FFFFint * 0xFFFF_FFFFint,
                td,
                0xFFFF_FFFFint,
            );
            lemma_mul_upper_bound(
                n as int,
                0xFFFF_FFFFint,
                0xFFFF_FFFF_FFFF_FFFFint,
                0xFFFF_FFFF_FFFF_FFFFint,
            );
            lemma_mul_upper_bound(
                tn,
                0xFFFF_FFFFint,
                total as int,
                0xFFFF_FFFFint * 0xFFFF_FFFF_FFFF_FFFFint,
            );
        }
        let lhs: u128 = (c as u128) * (n as u128) * (threshold_den as u128);
        let rhs: u128 = (threshold_num as u128) * total;
        if lhs > rhs {
            r.push(centrality[i].0);
        }
        i += 1;
    }
    r
}


/// How often a value occurs in a member list.
spec fn occ(s: Seq<usize>, a: usize) -> int
    decreases s.len(),
{
    if s.len() == 0 {
        0
    } else {
        occ(s.drop_last(), a) + if s.last() == a {
            1int
        } else {
            0
        }
    }
}

proof fn lemma_occ_no_dup(s: Seq<usize>, a: usize)
    requires
        s.no_duplicates(),
    ensures
        occ(s, a) == if s.contains(a) {
            1int
        } else {
            0
        },
    decreases s.len(),
{
    if s.len() == 0 {
    } else {
        let front = s.drop_last();
        assert(front.no_duplicates());
        lemma_occ_no_dup(front, a);
        if s.last() == a {
            if front.contains(a) {
                let y = choose|y: int| 0 <= y < front.len() && front[y] == a;
                assert(s[y] == s[s.len() - 1]);
                assert(false);
            }
        } else {
            if s.contains(a) {
                let y = choose|y: int| 0 <= y < s.len() && s[y] == a;
                assert(front[y] == a);
            }
            if front.contains(a) {
                let y = choose|y: int| 0 <= y < front.len() && front[y] == a;
                assert(s[y] == a);
            }
        }
    }
}

/// When a is adjacent to every other member, the distance sum counts one
/// step per member other than a.
proof fn lemma_dist_sum_adjacent(es: Set<(usize, usize)>, s: Seq<usize>, a: usize)
    requires
        forall|y: int| 0 <= y < s.len() && s[y] != a ==> has_edge(es, a, #[trigger] s[y]),
    ensures
        spec_dist_sum(es, s, a) == Some(s.len() - occ(s, a)),
    decreases s.len(),
{
    if s.len() == 0 {
    } else {
        let front = s.drop_last();
        assert forall|y: int| 0 <= y < front.len() && front[y] != a implies has_edge(
            es,
            a,
            #[trigger] front[y],
        ) by {
            assert(front[y] == s[y]);
        }
        lemma_dist_sum_adjacent(es, front, a);
        if s.last() == a {
        } else {
            lemma_adjacent_dist(es, a, s.last());
            lemma_shortest_dist_unique(es, a, s.last(), 1);
        }
    }
}

/// Monotonicity of closeness centrality: of two members whose distance sums
/// are finite, the closer one (smaller sum) scores at least as high. In
/// particular a node directly connected to everything beats any other.
pub proof fn lemma_centrality_antitone(
    es: Set<(usize, usize)>,
    s: Seq<usize>,
    a: usize,
    b: usize,
    da: int,
    db: int,
)
    requires
        spec_dist_sum(es, s, a) == Some(da),
        spec_dist_sum(es, s, b) == Some(db),
        0 < da <= db,
    ensures
        spec_centrality(es, s, a) >= spec_centrality(es, s, b),
{
    assert(s.len() >= 1);
    let num = (s.len() - 1) * (CENTRALITY_SCALE as int);
    lemma_mul_nonnegative(s.len() - 1, CENTRALITY_SCALE as int);
    lemma_div_is_ordered_by_denominator(num, da, db);
}

/// In a fully connected member list every member is one step from every
/// other, so every member's distance sum is |s| - 1 and every centrality is
/// exactly the scale (the maximum a connected subset can reach).
pub proof fn lemma_fully_connected_centrality(es: Set<(usize, usize)>, s: Seq<usize>, a: usize)
    requires
        s.no_duplicates(),
        s.contains(a),
        s.len() >= 2,
        forall|x: int, y: int|
            0 <= x < s.len() && 0 <= y < s.len() && s[x] != s[y] ==> has_edge(
                es,
                #[trigger] s[x],
                #[trigger] s[y],
            ),
    ensures
        spec_dist_sum(es, s, a) == Some(s.len() - 1),
        spec_centrality(es, s, a) == CENTRALITY_SCALE as int,
{
    let ai = choose|ai: int| 0 <= ai < s.len() && s[ai] == a;
    assert forall|y: int| 0 <= y < s.len() && s[y] != a implies has_edge(
        es,
        a,
        #[trigger] s[y],
    ) by {
        assert(has_edge(es, s[ai], s[y]));
    }
    lemma_dist_sum_adjacent(es, s, a);
    lemma_occ_no_dup(s, a);
    let sum = s.len() - 1;
    assert(sum > 0);
    lemma_div_multiples_vanish(CENTRALITY_SCALE as int, sum);
    assert((s.len() - 1) * (CENTRALITY_SCALE as int) == sum * (CENTRALITY_SCALE as int));
}

proof fn lemma_cent_total_const(m: Seq<(usize, u64)>, c: u64)
    requires
        forall|k: int| 0 <= k < m.len() ==> (#[trigger] m[k]).1 == c,
    ensures
        cent_total(m) == m.len() * c,
    decreases m.len(),
{
    if m.len() == 0 {
    } else {
        let front = m.drop_last();
        assert forall|k: int| 0 <= k < front.len() implies (#[trigger] front[k]).1 == c by {
            assert(front[k] == m[k]);
        }
        lemma_cent_total_const(front, c);
        assert(m.last().1 == c);
        assert((m.len() - 1) * (c as int) + c == m.len() * c) by (nonlinear_arith)
            requires
                m.len() >= 1,
        ;
    }
}

proof fn lemma_select_upto_empty(m: Seq<(usize, u64)>, tn: int, td: int, n: int)
    requires
        n <= m.len(),
        forall|k: int| 0 <= k < n ==> !spec_is_high(m, tn, td, (#[trigger] m[k]).1 as int),
    ensures
        spec_select_upto(m, tn, td, n) == Seq::<usize>::empty(),
    decreases n,
{
    if n <= 0 {
    } else {
        lemma_select_upto_empty(m, tn, td, n - 1);
    }
}

/// When every node has the same centrality, none lies strictly above the
/// scaled mean (for a threshold factor of at least one), so the selection is
/// empty.
pub proof fn lemma_identical_centrality_selects_none(
    m: Seq<(usize, u64)>,
    tn: int,
    td: int,
    c: u64,
)
    requires
        1 <= td <= tn,
        forall|k: int| 0 <= k < m.len() ==> (#[trigger] m[k]).1 == c,
    ensures
        spec_select(m, tn, td) == Seq::<usize>::empty(),
{
    lemma_cent_total_const(m, c);
    let len = m.len() as int;
    assert(!((c as int) * len * td > tn * (len * (c as int)))) by (nonlinear_arith)
        requires
            1 <= td <= tn,
            c >= 0,
            len >= 0,
    ;
    assert forall|k: int| 0 <= k < m.len() implies !spec_is_high(
        m,
        tn,
        td,
        (#[trigger] m[k]).1 as int,
    ) by {
        assert(m[k].1 == c);
    }
    lemma_select_upto_empty(m, tn, td, m.len() as int);
}

} // verus!
