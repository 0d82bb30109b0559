use churn_graph::aggregate::{
    build_report, find_top_shared_characteristics, split_category_value, Report,
};
use churn_graph::customer::{map_category, Customer, OneHotEncoding};
use churn_graph::graph_utils::{
    calculate_centrality, construct_graph, identify_high_centrality_nodes,
};
use churn_graph::similarity::{determine_neighbor, get_shared_characteristics};
use churn_graph::{analyze_group, partition_by_churn};

fn create_sample_customer1() -> Customer {
    Customer {
        churn_status: "Existing Customer".to_string(),
        age: 25,
        one_hot_encoding: OneHotEncoding {
            education_level: "Graduate".to_string(),
            marital_status: "Single".to_string(),
            income_range: "$40K - $60K".to_string(),
            card_type: "Silver".to_string(),
        },
        mon_w_bank: 12,
        num_product_purchased: 5,
        mon_inactive: 2,
        num_contact: 8,
        card_credit_limit: Some(15000),
        evolving_bal: Some(1200),
        transactions_amount: 5000,
        num_transctions: 25,
        avg_card_utilize: "0.4".to_string(),
    }
}

fn create_sample_customer2() -> Customer {
    Customer {
        churn_status: "Attrited Customer".to_string(),
        age: 30,
        one_hot_encoding: OneHotEncoding {
            education_level: "Graduate".to_string(),
            marital_status: "Single".to_string(),
            income_range: "$40K - $60K".to_string(),
            card_type: "Silver".to_string(),
        },
        mon_w_bank: 8,
        num_product_purchased: 3,
        mon_inactive: 3,
        num_contact: 12,
        card_credit_limit: Some(12000),
        evolving_bal: Some(800),
        transactions_amount: 3000,
        num_transctions: 15,
        avg_card_utilize: "0.3".to_string(),
    }
}

/// A customer with every field distinct from the others built here, except
/// where the arguments say otherwise.
fn path_customer(
    age: u32,
    edu: &str,
    mar: &str,
    inc: &str,
    card: &str,
    products: u32,
    inactive: u32,
    contacts: u32,
) -> Customer {
    Customer {
        churn_status: "Existing Customer".to_string(),
        age,
        one_hot_encoding: OneHotEncoding {
            education_level: edu.to_string(),
            marital_status: mar.to_string(),
            income_range: inc.to_string(),
            card_type: card.to_string(),
        },
        mon_w_bank: 10 + age,
        num_product_purchased: products,
        mon_inactive: inactive,
        num_contact: contacts,
        card_credit_limit: None,
        evolving_bal: None,
        transactions_amount: 100 + age,
        num_transctions: 200 + age,
        avg_card_utilize: format!("0.{}", age),
    }
}

/// Three customers forming a path: 0-1 share education and marital status,
/// 1-2 share income and card type, 0-2 share nothing.
fn path_customers() -> Vec<Customer> {
    vec![
        path_customer(1, "Graduate", "Single", "$120K +", "Blue", 1, 1, 1),
        path_customer(2, "Graduate", "Single", "Less than $40K", "Gold", 2, 2, 2),
        path_customer(3, "Doctorate", "Married", "Less than $40K", "Gold", 3, 3, 3),
    ]
}

#[test]
fn test_shared_characteristics() {
    let customer1 = create_sample_customer1();
    let customer2 = create_sample_customer2();
    let shared_characteristics = get_shared_characteristics(&customer1, &customer2);
    let correct_shared_characteristics = [
        "Education Level: Graduate",
        "Marital Status: Single",
        "Income Range: $40K - $60K",
        "Card Type: Silver",
    ];
    assert_eq!(shared_characteristics, correct_shared_characteristics);
}

#[test]
fn test_determine_neighbor() {
    let customer1 = create_sample_customer1();
    let customer2 = create_sample_customer2();
    let test_neighbor = determine_neighbor(&customer1, &customer2);
    let correct_neighbor = true;
    assert_eq!(test_neighbor, correct_neighbor);
}

#[test]
fn neighbor_is_symmetric() {
    let a = create_sample_customer1();
    let b = create_sample_customer2();
    assert_eq!(determine_neighbor(&a, &b), determine_neighbor(&b, &a));
    let cs = path_customers();
    for x in &cs {
        for y in &cs {
            assert_eq!(determine_neighbor(x, y), determine_neighbor(y, x));
        }
    }
}

#[test]
fn self_similarity_has_all_exact_matches() {
    let a = create_sample_customer1();
    let shared = get_shared_characteristics(&a, &a);
    let expected = [
        "Age: 25",
        "Education Level: Graduate",
        "Marital Status: Single",
        "Income Range: $40K - $60K",
        "Card Type: Silver",
        "Number of Products Purchased: 5",
        "Month inactive: 2",
        "Number of Contacts from Bank (past 12 months): 8",
    ];
    assert_eq!(shared, expected);
    assert!(determine_neighbor(&a, &a));
}

#[test]
fn map_category_known_and_unknown() {
    assert_eq!(map_category("Graduate"), "Graduate");
    assert_eq!(map_category("Platinum"), "Platinum");
    assert_eq!(map_category("$40K - $60K"), "$40K - $60K");
    assert_eq!(map_category("Unknown"), "Unknown");
    assert_eq!(map_category("Wizard"), "Unknown");
    assert_eq!(map_category(""), "Unknown");
}

#[test]
fn graph_deduplicates_edges() {
    let cs = path_customers();
    let g = construct_graph(&cs);
    assert_eq!(g.node_count(), 3);
    // both ordered visits of each neighboring pair leave a single edge
    assert_eq!(g.edge_count(), 2);
    let n = cs.len();
    assert!(g.edge_count() <= n * (n - 1) / 2);
}

#[test]
fn centrality_on_a_path() {
    let cs = path_customers();
    let g = construct_graph(&cs);
    let cent = calculate_centrality(&g, &vec![0, 1, 2]);
    // distances: 0-1 = 1, 1-2 = 1, 0-2 = 2
    assert_eq!(cent, vec![(0, 666666), (1, 1000000), (2, 666666)]);
}

#[test]
fn centrality_of_disconnected_node_is_zero() {
    let mut cs = path_customers();
    cs.push(path_customer(4, "Uneducated", "Divorced", "$80K - $120K", "Platinum", 9, 9, 9));
    let g = construct_graph(&cs);
    let cent = calculate_centrality(&g, &vec![0, 1, 2, 3]);
    assert_eq!(cent[3], (3, 0));
    assert_eq!(cent[0], (0, 0)); // node 3 is unreachable from node 0 too
}

#[test]
fn selector_picks_strictly_above_scaled_mean() {
    let cent = vec![(0usize, 666666u64), (1, 1000000), (2, 666666)];
    let high = identify_high_centrality_nodes(&cent, 11, 10);
    assert_eq!(high, vec![1]);
}

#[test]
fn selector_on_identical_centralities_is_empty() {
    let cent = vec![(0usize, 500u64), (1, 500), (2, 500), (3, 500)];
    assert_eq!(identify_high_centrality_nodes(&cent, 11, 10), Vec::<usize>::new());
    // even at exactly the mean, nothing is strictly above it
    assert_eq!(identify_high_centrality_nodes(&cent, 1, 1), Vec::<usize>::new());
}

#[test]
fn selector_empty_input_gives_empty_output() {
    let cent: Vec<(usize, u64)> = vec![];
    assert_eq!(identify_high_centrality_nodes(&cent, 11, 10), Vec::<usize>::new());
}

#[test]
fn find_top_ranks_shared_traits() {
    let cs = path_customers();
    let g = construct_graph(&cs);
    let top = find_top_shared_characteristics(&g, 1, &cs);
    assert_eq!(
        top,
        vec![
            ("Education Level: Graduate".to_string(), 1u64),
            ("Marital Status: Single".to_string(), 1),
            ("Income Range: Less than $40K".to_string(), 1),
            ("Card Type: Gold".to_string(), 1),
        ]
    );
}

#[test]
fn split_trait_text() {
    assert_eq!(
        split_category_value("Education Level: Graduate"),
        Some(("Education Level".to_string(), "Graduate".to_string()))
    );
    assert_eq!(
        split_category_value("Income Range: $40K - $60K"),
        Some(("Income Range".to_string(), "$40K - $60K".to_string()))
    );
    assert_eq!(split_category_value("no colon here"), None);
}

#[test]
fn report_percentages() {
    let cs = vec![create_sample_customer1(), {
        let mut b = create_sample_customer2();
        b.churn_status = "Existing Customer".to_string();
        b
    }];
    let g = construct_graph(&cs);
    let report = build_report(&vec![0], &cs, &g);
    match report {
        Report::Breakdown { invalid_nodes, trait_totals, categories, grand_total } => {
            assert!(invalid_nodes.is_empty());
            assert_eq!(grand_total, 4);
            assert_eq!(trait_totals.len(), 4);
            assert_eq!(categories.len(), 4);
            let mut pct_sum = 0u64;
            for cat in &categories {
                assert_eq!(cat.total, 1);
                // each category holds a quarter of the grand total: 25.0%
                assert_eq!(cat.pct_tenths, 250);
                pct_sum += cat.pct_tenths;
                assert_eq!(cat.values.len(), 1);
                assert_eq!(cat.values[0].count, 1);
                // the single value is all of its category: 100.0%
                assert_eq!(cat.values[0].pct_tenths, 1000);
            }
            assert_eq!(pct_sum, 1000);
            assert_eq!(categories[0].category, "Education Level");
            assert_eq!(categories[0].values[0].value, "Graduate");
        },
        Report::NoHighCentralityNodes => panic!("expected a breakdown"),
    }
}

#[test]
fn report_empty_selection_is_explicit() {
    let cs = path_customers();
    let g = construct_graph(&cs);
    let report = build_report(&vec![], &cs, &g);
    assert!(matches!(report, Report::NoHighCentralityNodes));
}

#[test]
fn report_flags_invalid_nodes() {
    let cs = path_customers();
    let g = construct_graph(&cs);
    // an index beyond the customer list is reported, not fatal
    match build_report(&vec![7], &cs, &g) {
        Report::Breakdown { invalid_nodes, categories, grand_total, .. } => {
            assert_eq!(invalid_nodes, vec![7]);
            assert!(categories.is_empty());
            assert_eq!(grand_total, 0);
        },
        Report::NoHighCentralityNodes => panic!("expected a breakdown"),
    }
}

#[test]
fn partition_splits_by_churn_status() {
    let mut cs = path_customers();
    cs.push(create_sample_customer2());
    let (existing, attrited) = partition_by_churn(&cs);
    assert_eq!(existing.len(), 3);
    assert_eq!(attrited.len(), 1);
    assert_eq!(attrited[0].age, 30);
}

#[test]
fn analyze_group_end_to_end() {
    let cs = path_customers();
    let analysis = analyze_group(&cs, 11, 10);
    assert_eq!(analysis.high_centrality_nodes, vec![1]);
    match analysis.report {
        Report::Breakdown { invalid_nodes, categories, grand_total, .. } => {
            assert!(invalid_nodes.is_empty());
            assert_eq!(grand_total, 4);
            assert_eq!(categories.len(), 4);
            for cat in &categories {
                assert_eq!(cat.total, 1);
                assert_eq!(cat.pct_tenths, 250);
            }
        },
        Report::NoHighCentralityNodes => panic!("expected a breakdown"),
    }
}
