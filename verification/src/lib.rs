//! Analysis of a customer similarity graph: records are compared attribute by
//! attribute, customers sharing enough attributes become neighbors in an
//! undirected graph, closeness centrality singles out well-connected
//! customers, and the traits they share with their neighbors are aggregated
//! into a category/value breakdown.
pub mod aggregate;
pub mod customer;
pub mod decimal;
pub mod graph;
pub mod graph_utils;
pub mod similarity;
pub mod text;

use crate::aggregate::{build_report, report_matches, Report};
use crate::customer::Customer;
use crate::graph_utils::{
    calculate_centrality, construct_graph, identify_high_centrality_nodes, spec_centrality,
    spec_edge_set, spec_select,
};
use crate::text::str_eq;
use vstd::prelude::*;

verus! {

/// Whether a customer record is an active ("Existing Customer") one.
pub open spec fn spec_is_existing(c: Customer) -> bool {
    c.churn_status@ == "Existing Customer"@
}

/// The customers of cs whose activity status equals keep, in order.
pub open spec fn filter_by_churn(cs: Seq<Customer>, keep: bool) -> Seq<Customer>
    decreases cs.len(),
{
    if cs.len() == 0 {
        Seq::empty()
    } else {
        let pre = filter_by_churn(cs.drop_last(), keep);
        if spec_is_existing(cs.last()) == keep {
            pre.push(cs.last())
        } else {
            pre
        }
    }
}

/// Split the customers into the active ones and the churned ones, keeping
/// order within each group.
pub fn partition_by_churn(customers: &Vec<Customer>) -> (r: (Vec<Customer>, Vec<Customer>))
    ensures
        r.0@ == filter_by_churn(customers@, true),
        r.1@ == filter_by_churn(customers@, false),
{
    let mut existing: Vec<Customer> = Vec::new();
    let mut attrited: Vec<Customer> = Vec::new();
    let mut i: usize = 0;
    while i < customers.len()
        invariant
            i <= customers@.len(),
            existing@ == filter_by_churn(customers@.take(i as int), true),
            attrited@ == filter_by_churn(customers@.take(i as int), false),
        decreases customers@.len() - i,
    {
        proof {
            assert(customers@.take(i as int + 1).drop_last() =~= customers@.take(i as int));
            assert(customers@.take(i as int + 1).last() == customers@[i as int]);
        }
        let c = customers[i].clone();
        if str_eq(c.churn_status.as_str(), "Existing Customer") {
            existing.push(c);
        } else {
            attrited.push(c);
        }
        i += 1;
    }
    proof {
        assert(customers@.take(customers@.len() as int) =~= customers@);
    }
    (existing, attrited)
}

/// The node list 0..n: each customer of a group is a node of its group's
/// graph, at its own position.
pub open spec fn id_seq(n: nat) -> Seq<usize> {
    Seq::new(n, |i: int| i as usize)
}

/// The centrality map a group's graph yields: every node with its closeness
/// centrality over the whole group.
pub open spec fn spec_centrality_map(cs: Seq<Customer>) -> Seq<(usize, u64)> {
    Seq::new(
        cs.len(),
        |i: int|
            (
                i as usize,
                spec_centrality(spec_edge_set(cs), id_seq(cs.len()), i as usize) as u64,
            ),
    )
}

/// One churn group's analysis: the selected high-centrality nodes and the
/// aggregated report of the traits they share with their neighbors.
pub struct GroupAnalysis {
    pub high_centrality_nodes: Vec<usize>,
    pub report: Report,
}

/// Analyze one churn group end to end: build the similarity graph over the
/// group, compute every node's closeness centrality, select the nodes that
/// lie strictly above threshold_num/threshold_den times the mean, and
/// aggregate the traits they share with their neighbors.
pub fn analyze_group(customers: &Vec<Customer>, threshold_num: u64, threshold_den: u64) -> (r:
    GroupAnalysis)
    requires
        customers@.len() <= 1000,
        1 <= threshold_den <= 0xFFFF_FFFF,
        threshold_num <= 0xFFFF_FFFF,
    ensures
        r.high_centrality_nodes@ == spec_select(
            spec_centrality_map(customers@),
            threshold_num as int,
            threshold_den as int,
        ),
        report_matches(
            r.report,
            spec_edge_set(customers@),
            customers@.len(),
            customers@,
            r.high_centrality_nodes@,
        ),
{
    let graph = construct_graph(customers);
    let n = customers.len();
    let mut ids: Vec<usize> = Vec::new();
    let mut i: usize = 0;
    while i < n
        invariant
            i <= n,
            n == customers@.len(),
            ids@.len() == i,
            forall|k: int| 0 <= k < i ==> (#[trigger] ids@[k]) == k as usize,
        decreases n - i,
    {
        ids.push(i);
        i += 1;
    }
    proof {
        assert(ids@ =~= id_seq(customers@.len()));
    }
    let centrality = calculate_centrality(&graph, &ids);
    proof {
        assert(centrality@ =~= spec_centrality_map(customers@));
    }
    let high_centrality_nodes = identify_high_centrality_nodes(
        &centrality,
        threshold_num,
        threshold_den,
    );
    let report = build_report(&high_centrality_nodes, customers, &graph);
    GroupAnalysis { high_centrality_nodes, report }
}

} // verus!
