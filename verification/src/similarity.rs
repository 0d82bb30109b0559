//! The similarity predicate: which attributes two customers share, and
//! whether they share enough of them to count as neighbors.
//!
//! Exact-match attributes are shared iff the raw values are identical.
//! Bucketed attributes carry a fixed list of named range labels; two values
//! are shared only when both rendered values literally equal the same label.
//! The label lists never classify a number into its range: a decimal
//! rendering of an integer is never itself a label, so those checks can only
//! succeed for the utilization ratio, whose rendering is free-form text.
use crate::customer::Customer;
use crate::decimal::{lemma_decimal_ne, spec_decimal, u32_to_string};
use crate::text::str_eq;
use vstd::prelude::*;
use vstd::string::StringExecFns;

verus! {

/// How many of the twelve checked attributes two customers must share to be
/// connected in the similarity graph.
pub const NEIGHBOR_THRESHOLD: u32 = 2;

/// Range labels for the months-with-bank attribute (tenure).
pub open spec fn tenure_groups() -> Seq<Seq<char>> {
    seq!["20-30"@, "30-40"@, "40-50"@, ">50"@]
}

/// Range labels for the credit limit.
pub open spec fn credit_limit_groups() -> Seq<Seq<char>> {
    seq![
        "5000<"@,
        "5000-10000"@,
        "10000-15000"@,
        "15000-20000"@,
        "20000-25000"@,
        "25000-30000"@,
        ">30000"@,
    ]
}

/// Range labels shared by the evolving balance and the transaction amount.
pub open spec fn amount_groups() -> Seq<Seq<char>> {
    seq!["500<"@, "500-1000"@, "1000-1500"@, "1500-2000"@, ">2000"@]
}

/// Range labels for the transaction count.
pub open spec fn tx_count_groups() -> Seq<Seq<char>> {
    seq!["<10"@, "10-20"@, "20-30"@, "30-40"@, ">40"@]
}

/// Range labels for the utilization ratio.
pub open spec fn utilization_groups() -> Seq<Seq<char>> {
    seq!["<0.100"@, "0.100-0.200"@, "0.200-0.300"@, "0.300-0.400"@, ">0.400"@]
}

/// Two rendered values are shared under a label list iff they are the same
/// text and that text is literally one of the labels.
pub open spec fn group_match(a: Seq<char>, b: Seq<char>, groups: Seq<Seq<char>>) -> bool {
    a == b && groups.contains(a)
}

/// Literal membership in the tenure labels, written out so that contracts
/// stay quantifier-free.
pub open spec fn is_tenure_label(s: Seq<char>) -> bool {
    s == "20-30"@ || s == "30-40"@ || s == "40-50"@ || s == ">50"@
}

/// Literal membership in the credit-limit labels.
pub open spec fn is_credit_limit_label(s: Seq<char>) -> bool {
    s == "5000<"@ || s == "5000-10000"@ || s == "10000-15000"@ || s == "15000-20000"@
        || s == "20000-25000"@ || s == "25000-30000"@ || s == ">30000"@
}

/// Literal membership in the labels shared by the evolving balance and the
/// transaction amount.
pub open spec fn is_amount_label(s: Seq<char>) -> bool {
    s == "500<"@ || s == "500-1000"@ || s == "1000-1500"@ || s == "1500-2000"@ || s == ">2000"@
}

/// Literal membership in the transaction-count labels.
pub open spec fn is_tx_count_label(s: Seq<char>) -> bool {
    s == "<10"@ || s == "10-20"@ || s == "20-30"@ || s == "30-40"@ || s == ">40"@
}

/// Literal membership in the utilization labels.
pub open spec fn is_utilization_label(s: Seq<char>) -> bool {
    s == "<0.100"@ || s == "0.100-0.200"@ || s == "0.200-0.300"@ || s == "0.300-0.400"@
        || s == ">0.400"@
}

fn amount_groups_vec() -> (r: Vec<String>)
    ensures
        r.deep_view() =~= amount_groups(),
{
    let mut v: Vec<String> = Vec::new();
    v.push(String::from_str("500<"));
    v.push(String::from_str("500-1000"));
    v.push(String::from_str("1000-1500"));
    v.push(String::from_str("1500-2000"));
    v.push(String::from_str(">2000"));
    v
}

fn tenure_groups_vec() -> (r: Vec<String>)
    ensures
        r.deep_view() =~= tenure_groups(),
{
    let mut v: Vec<String> = Vec::new();
    v.push(String::from_str("20-30"));
    v.push(String::from_str("30-40"));
    v.push(String::from_str("40-50"));
    v.push(String::from_str(">50"));
    v
}

fn credit_limit_groups_vec() -> (r: Vec<String>)
    ensures
        r.deep_view() =~= credit_limit_groups(),
{
    let mut v: Vec<String> = Vec::new();
    v.push(String::from_str("5000<"));
    v.push(String::from_str("5000-10000"));
    v.push(String::from_str("10000-15000"));
    v.push(String::from_str("15000-20000"));
    v.push(String::from_str("20000-25000"));
    v.push(String::from_str("25000-30000"));
    v.push(String::from_str(">30000"));
    v
}

fn tx_count_groups_vec() -> (r: Vec<String>)
    ensures
        r.deep_view() =~= tx_count_groups(),
{
    let mut v: Vec<String> = Vec::new();
    v.push(String::from_str("<10"));
    v.push(String::from_str("10-20"));
    v.push(String::from_str("20-30"));
    v.push(String::from_str("30-40"));
    v.push(String::from_str(">40"));
    v
}

fn utilization_groups_vec() -> (r: Vec<String>)
    ensures
        r.deep_view() =~= utilization_groups(),
{
    let mut v: Vec<String> = Vec::new();
    v.push(String::from_str("<0.100"));
    v.push(String::from_str("0.100-0.200"));
    v.push(String::from_str("0.200-0.300"));
    v.push(String::from_str("0.300-0.400"));
    v.push(String::from_str(">0.400"));
    v
}

fn string_in_group(a: &String, b: &String, groups: &Vec<String>) -> (r: bool)
    ensures
        r == group_match(a@, b@, groups.deep_view()),
{
    let mut i: usize = 0;
    while i < groups.len()
        invariant
            i <= groups.len(),
            forall|j: int|
                0 <= j < i ==> !(a@ == #[trigger] groups.deep_view()[j]
                    && b@ == groups.deep_view()[j]),
        decreases groups.len() - i,
    {
        if str_eq(a.as_str(), groups[i].as_str()) && str_eq(b.as_str(), groups[i].as_str()) {
            assert(groups.deep_view()[i as int] == groups@[i as int]@);
            return true;
        }
        assert(groups.deep_view()[i as int] == groups@[i as int]@);
        i += 1;
    }
    assert(!(a@ == b@ && groups.deep_view().contains(a@)));
    false
}

proof fn lemma_group_match_tenure(x: Seq<char>, y: Seq<char>)
    ensures
        group_match(x, y, tenure_groups()) == (x == y && is_tenure_label(x)),
{
    if tenure_groups().contains(x) {
        let i = choose|i: int| 0 <= i < tenure_groups().len() && tenure_groups()[i] == x;
        assert(is_tenure_label(x));
    }
    if is_tenure_label(x) {
        if x == "20-30"@ {
            assert(tenure_groups()[0] == x);
        } else if x == "30-40"@ {
            assert(tenure_groups()[1] == x);
        } else if x == "40-50"@ {
            assert(tenure_groups()[2] == x);
        } else {
            assert(tenure_groups()[3] == x);
        }
        assert(tenure_groups().contains(x));
    }
}

proof fn lemma_group_match_credit(x: Seq<char>, y: Seq<char>)
    ensures
        group_match(x, y, credit_limit_groups()) == (x == y && is_credit_limit_label(x)),
{
    if credit_limit_groups().contains(x) {
        let i = choose|i: int|
            0 <= i < credit_limit_groups().len() && credit_limit_groups()[i] == x;
        assert(is_credit_limit_label(x));
    }
    if is_credit_limit_label(x) {
        if x == "5000<"@ {
            assert(credit_limit_groups()[0] == x);
        } else if x == "5000-10000"@ {
            assert(credit_limit_groups()[1] == x);
        } else if x == "10000-15000"@ {
            assert(credit_limit_groups()[2] == x);
        } else if x == "15000-20000"@ {
            assert(credit_limit_groups()[3] == x);
        } else if x == "20000-25000"@ {
            assert(credit_limit_groups()[4] == x);
        } else if x == "25000-30000"@ {
            assert(credit_limit_groups()[5] == x);
        } else {
            assert(credit_limit_groups()[6] == x);
        }
        assert(credit_limit_groups().contains(x));
    }
}

proof fn lemma_group_match_amount(x: Seq<char>, y: Seq<char>)
    ensures
        group_match(x, y, amount_groups()) == (x == y && is_amount_label(x)),
{
    if amount_groups().contains(x) {
        let i = choose|i: int| 0 <= i < amount_groups().len() && amount_groups()[i] == x;
        assert(is_amount_label(x));
    }
    if is_amount_label(x) {
        if x == "500<"@ {
            assert(amount_groups()[0] == x);
        } else if x == "500-1000"@ {
            assert(amount_groups()[1] == x);
        } else if x == "1000-1500"@ {
            assert(amount_groups()[2] == x);
        } else if x == "1500-2000"@ {
            assert(amount_groups()[3] == x);
        } else {
            assert(amount_groups()[4] == x);
        }
        assert(amount_groups().contains(x));
    }
}

proof fn lemma_group_match_tx_count(x: Seq<char>, y: Seq<char>)
    ensures
        group_match(x, y, tx_count_groups()) == (x == y && is_tx_count_label(x)),
{
    if tx_count_groups().contains(x) {
        let i = choose|i: int| 0 <= i < tx_count_groups().len() && tx_count_groups()[i] == x;
        assert(is_tx_count_label(x));
    }
    if is_tx_count_label(x) {
        if x == "<10"@ {
            assert(tx_count_groups()[0] == x);
        } else if x == "10-20"@ {
            assert(tx_count_groups()[1] == x);
        } else if x == "20-30"@ {
            assert(tx_count_groups()[2] == x);
        } else if x == "30-40"@ {
            assert(tx_count_groups()[3] == x);
        } else {
            assert(tx_count_groups()[4] == x);
        }
        assert(tx_count_groups().contains(x));
    }
}

proof fn lemma_group_match_utilization(x: Seq<char>, y: Seq<char>)
    ensures
        group_match(x, y, utilization_groups()) == (x == y && is_utilization_label(x)),
{
    if utilization_groups().contains(x) {
        let i = choose|i: int|
            0 <= i < utilization_groups().len() && utilization_groups()[i] == x;
        assert(is_utilization_label(x));
    }
    if is_utilization_label(x) {
        if x == "<0.100"@ {
            assert(utilization_groups()[0] == x);
        } else if x == "0.100-0.200"@ {
            assert(utilization_groups()[1] == x);
        } else if x == "0.200-0.300"@ {
            assert(utilization_groups()[2] == x);
        } else if x == "0.300-0.400"@ {
            assert(utilization_groups()[3] == x);
        } else {
            assert(utilization_groups()[4] == x);
        }
        assert(utilization_groups().contains(x));
    }
}

/// One formatted trait entry when a check holds, nothing when it does not.
pub open spec fn entry_if(cond: bool, text: Seq<char>) -> Seq<Seq<char>> {
    if cond {
        seq![text]
    } else {
        Seq::empty()
    }
}

pub open spec fn age_text(a: Customer) -> Seq<char> {
    "Age: "@ + spec_decimal(a.age as int)
}

pub open spec fn education_text(a: Customer) -> Seq<char> {
    "Education Level: "@ + a.one_hot_encoding.education_level@
}

pub open spec fn marital_text(a: Customer) -> Seq<char> {
    "Marital Status: "@ + a.one_hot_encoding.marital_status@
}

pub open spec fn income_text(a: Customer) -> Seq<char> {
    "Income Range: "@ + a.one_hot_encoding.income_range@
}

pub open spec fn card_type_text(a: Customer) -> Seq<char> {
    "Card Type: "@ + a.one_hot_encoding.card_type@
}

pub open spec fn tenure_text(a: Customer) -> Seq<char> {
    "Mon W Bank: "@ + spec_decimal(a.mon_w_bank as int)
}

pub open spec fn products_text(a: Customer) -> Seq<char> {
    "Number of Products Purchased: "@ + spec_decimal(a.num_product_purchased as int)
}

pub open spec fn inactive_text(a: Customer) -> Seq<char> {
    "Month inactive: "@ + spec_decimal(a.mon_inactive as int)
}

pub open spec fn contacts_text(a: Customer) -> Seq<char> {
    "Number of Contacts from Bank (past 12 months): "@ + spec_decimal(a.num_contact as int)
}

pub open spec fn credit_limit_text(x: u32) -> Seq<char> {
    "Card's Credit Limit: "@ + spec_decimal(x as int)
}

pub open spec fn balance_text(x: u32) -> Seq<char> {
    "Evolving Balance on Card: "@ + spec_decimal(x as int)
}

pub open spec fn tx_amount_text(a: Customer) -> Seq<char> {
    "Total Dollar Amount of Transaction via Card: "@ + spec_decimal(a.transactions_amount as int)
}

pub open spec fn tx_count_text(a: Customer) -> Seq<char> {
    "Total Number of Transactions via Card: "@ + spec_decimal(a.num_transctions as int)
}

pub open spec fn utilization_text(a: Customer) -> Seq<char> {
    "Average Card Utilization Ratio: "@ + a.avg_card_utilize@
}

/// Whether the tenure check holds between two customers.
pub open spec fn tenure_shared(a: Customer, b: Customer) -> bool {
    spec_decimal(a.mon_w_bank as int) == spec_decimal(b.mon_w_bank as int) && is_tenure_label(
        spec_decimal(a.mon_w_bank as int),
    )
}

/// Whether the credit-limit check holds: both values must be present, and
/// their renderings must literally equal the same group label.
pub open spec fn credit_shared(a: Customer, b: Customer) -> bool {
    match (a.card_credit_limit, b.card_credit_limit) {
        (Some(x), Some(y)) => spec_decimal(x as int) == spec_decimal(y as int)
            && is_credit_limit_label(spec_decimal(x as int)),
        _ => false,
    }
}

/// Whether the evolving-balance check holds (optional, like the credit
/// limit).
pub open spec fn balance_shared(a: Customer, b: Customer) -> bool {
    match (a.evolving_bal, b.evolving_bal) {
        (Some(x), Some(y)) => spec_decimal(x as int) == spec_decimal(y as int)
            && is_amount_label(spec_decimal(x as int)),
        _ => false,
    }
}

pub open spec fn amount_shared(a: Customer, b: Customer) -> bool {
    spec_decimal(a.transactions_amount as int) == spec_decimal(b.transactions_amount as int)
        && is_amount_label(spec_decimal(a.transactions_amount as int))
}

pub open spec fn tx_count_shared(a: Customer, b: Customer) -> bool {
    spec_decimal(a.num_transctions as int) == spec_decimal(b.num_transctions as int)
        && is_tx_count_label(spec_decimal(a.num_transctions as int))
}

pub open spec fn utilization_shared(a: Customer, b: Customer) -> bool {
    a.avg_card_utilize@ == b.avg_card_utilize@ && is_utilization_label(a.avg_card_utilize@)
}

pub open spec fn credit_entry(a: Customer, b: Customer) -> Seq<Seq<char>> {
    match a.card_credit_limit {
        Some(x) => entry_if(credit_shared(a, b), credit_limit_text(x)),
        None => Seq::empty(),
    }
}

pub open spec fn balance_entry(a: Customer, b: Customer) -> Seq<Seq<char>> {
    match a.evolving_bal {
        Some(x) => entry_if(balance_shared(a, b), balance_text(x)),
        None => Seq::empty(),
    }
}

/// The five exact-match categorical/age entries.
pub open spec fn spec_traits_exact(a: Customer, b: Customer) -> Seq<Seq<char>> {
    entry_if(a.age == b.age, age_text(a)) + entry_if(
        a.one_hot_encoding.education_level@ == b.one_hot_encoding.education_level@,
        education_text(a),
    ) + entry_if(
        a.one_hot_encoding.marital_status@ == b.one_hot_encoding.marital_status@,
        marital_text(a),
    ) + entry_if(
        a.one_hot_encoding.income_range@ == b.one_hot_encoding.income_range@,
        income_text(a),
    ) + entry_if(a.one_hot_encoding.card_type@ == b.one_hot_encoding.card_type@, card_type_text(a))
}

/// The tenure, count and optional-money entries.
pub open spec fn spec_traits_mid(a: Customer, b: Customer) -> Seq<Seq<char>> {
    entry_if(tenure_shared(a, b), tenure_text(a)) + entry_if(
        a.num_product_purchased == b.num_product_purchased,
        products_text(a),
    ) + entry_if(a.mon_inactive == b.mon_inactive, inactive_text(a)) + entry_if(
        a.num_contact == b.num_contact,
        contacts_text(a),
    ) + credit_entry(a, b) + balance_entry(a, b)
}

/// The transaction and utilization entries.
pub open spec fn spec_traits_tail(a: Customer, b: Customer) -> Seq<Seq<char>> {
    entry_if(amount_shared(a, b), tx_amount_text(a)) + entry_if(
        tx_count_shared(a, b),
        tx_count_text(a),
    ) + entry_if(utilization_shared(a, b), utilization_text(a))
}

/// The formatted traits two customers share, one entry per shared attribute,
/// in the fixed attribute order.
pub open spec fn spec_traits(a: Customer, b: Customer) -> Seq<Seq<char>> {
    spec_traits_exact(a, b) + spec_traits_mid(a, b) + spec_traits_tail(a, b)
}

pub open spec fn count1(shared: bool) -> int {
    if shared {
        1
    } else {
        0
    }
}

/// How many of the twelve checked attributes two customers share. The credit
/// limit and the evolving balance do not take part in the neighbor test.
pub open spec fn spec_shared_count(a: Customer, b: Customer) -> int {
    count1(a.age == b.age) + count1(
        a.one_hot_encoding.education_level@ == b.one_hot_encoding.education_level@,
    ) + count1(a.one_hot_encoding.marital_status@ == b.one_hot_encoding.marital_status@) + count1(
        a.one_hot_encoding.income_range@ == b.one_hot_encoding.income_range@,
    ) + count1(a.one_hot_encoding.card_type@ == b.one_hot_encoding.card_type@) + count1(
        tenure_shared(a, b),
    ) + count1(a.num_product_purchased == b.num_product_purchased) + count1(
        a.mon_inactive == b.mon_inactive,
    ) + count1(a.num_contact == b.num_contact) + count1(amount_shared(a, b)) + count1(
        tx_count_shared(a, b),
    ) + count1(utilization_shared(a, b))
}

/// Two customers are neighbors iff they share at least
/// [`NEIGHBOR_THRESHOLD`] of the twelve checked attributes.
pub open spec fn spec_is_neighbor(a: Customer, b: Customer) -> bool {
    spec_shared_count(a, b) >= NEIGHBOR_THRESHOLD as int
}

fn make_entry(label: &str, value: &str) -> (r: String)
    ensures
        r@ == label@ + value@,
{
    let mut s = label.to_owned();
    s.append(value);
    s
}

fn shared_exact(customer_a: &Customer, customer_b: &Customer) -> (r: Vec<String>)
    ensures
        r.deep_view() == spec_traits_exact(*customer_a, *customer_b),
{
    let mut shared: Vec<String> = Vec::new();
    if customer_a.age == customer_b.age {
        let t = u32_to_string(customer_a.age);
        shared.push(make_entry("Age: ", t.as_str()));
    }
    let ghost mut done: Seq<Seq<char>> = entry_if(
        customer_a.age == customer_b.age,
        age_text(*customer_a),
    );
    proof {
        assert(shared.deep_view() =~= done);
    }
    if str_eq(
        customer_a.one_hot_encoding.education_level.as_str(),
        customer_b.one_hot_encoding.education_level.as_str(),
    ) {
        shared.push(
            make_entry("Education Level: ", customer_a.one_hot_encoding.education_level.as_str()),
        );
    }
    proof {
        done = done + entry_if(
            customer_a.one_hot_encoding.education_level@
                == customer_b.one_hot_encoding.education_level@,
            education_text(*customer_a),
        );
        assert(shared.deep_view() =~= done);
    }
    if str_eq(
        customer_a.one_hot_encoding.marital_status.as_str(),
        customer_b.one_hot_encoding.marital_status.as_str(),
    ) {
        shared.push(
            make_entry("Marital Status: ", customer_a.one_hot_encoding.marital_status.as_str()),
        );
    }
    proof {
        done = done + entry_if(
            customer_a.one_hot_encoding.marital_status@
                == customer_b.one_hot_encoding.marital_status@,
            marital_text(*customer_a),
        );
        assert(shared.deep_view() =~= done);
    }
    if str_eq(
        customer_a.one_hot_encoding.income_range.as_str(),
        customer_b.one_hot_encoding.income_range.as_str(),
    ) {
        shared.push(
            make_entry("Income Range: ", customer_a.one_hot_encoding.income_range.as_str()),
        );
    }
    proof {
        done = done + entry_if(
            customer_a.one_hot_encoding.income_range@ == customer_b.one_hot_encoding.income_range@,
            income_text(*customer_a),
        );
        assert(shared.deep_view() =~= done);
    }
    if str_eq(
        customer_a.one_hot_encoding.card_type.as_str(),
        customer_b.one_hot_encoding.card_type.as_str(),
    ) {
        shared.push(make_entry("Card Type: ", customer_a.one_hot_encoding.card_type.as_str()));
    }
    proof {
        done = done + entry_if(
            customer_a.one_hot_encoding.card_type@ == customer_b.one_hot_encoding.card_type@,
            card_type_text(*customer_a),
        );
        assert(shared.deep_view() =~= done);
        assert(done == spec_traits_exact(*customer_a, *customer_b));
    }
    shared
}

fn shared_mid(customer_a: &Customer, customer_b: &Customer) -> (r: Vec<String>)
    ensures
        r.deep_view() == spec_traits_mid(*customer_a, *customer_b),
{
    let mut shared: Vec<String> = Vec::new();
    let ta = u32_to_string(customer_a.mon_w_bank);
    let tb = u32_to_string(customer_b.mon_w_bank);
    let groups = tenure_groups_vec();
    proof {
        lemma_group_match_tenure(ta@, tb@);
    }
    if string_in_group(&ta, &tb, &groups) {
        shared.push(make_entry("Mon W Bank: ", ta.as_str()));
    }
    let ghost mut done: Seq<Seq<char>> = entry_if(
        tenure_shared(*customer_a, *customer_b),
        tenure_text(*customer_a),
    );
    proof {
        assert(shared.deep_view() =~= done);
    }
    if customer_a.num_product_purchased == customer_b.num_product_purchased {
        let t = u32_to_string(customer_a.num_product_purchased);
        shared.push(make_entry("Number of Products Purchased: ", t.as_str()));
    }
    proof {
        done = done + entry_if(
            customer_a.num_product_purchased == customer_b.num_product_purchased,
            products_text(*customer_a),
        );
        assert(shared.deep_view() =~= done);
    }
    if customer_a.mon_inactive == customer_b.mon_inactive {
        let t = u32_to_string(customer_a.mon_inactive);
        shared.push(make_entry("Month inactive: ", t.as_str()));
    }
    proof {
        done = done + entry_if(
            customer_a.mon_inactive == customer_b.mon_inactive,
            inactive_text(*customer_a),
        );
        assert(shared.deep_view() =~= done);
    }
    if customer_a.num_contact == customer_b.num_contact {
        let t = u32_to_string(customer_a.num_contact);
        shared.push(make_entry("Number of Contacts from Bank (past 12 months): ", t.as_str()));
    }
    proof {
        done = done + entry_if(
            customer_a.num_contact == customer_b.num_contact,
            contacts_text(*customer_a),
        );
        assert(shared.deep_view() =~= done);
    }
    match (customer_a.card_credit_limit, customer_b.card_credit_limit) {
        (Some(x), Some(y)) => {
            let tx = u32_to_string(x);
            let ty = u32_to_string(y);
            let cg = credit_limit_groups_vec();
            proof {
                lemma_group_match_credit(tx@, ty@);
            }
            if string_in_group(&tx, &ty, &cg) {
                shared.push(make_entry("Card's Credit Limit: ", tx.as_str()));
            }
        },
        _ => {},
    }
    proof {
        done = done + credit_entry(*customer_a, *customer_b);
        assert(shared.deep_view() =~= done);
    }
    match (customer_a.evolving_bal, customer_b.evolving_bal) {
        (Some(x), Some(y)) => {
            let tx = u32_to_string(x);
            let ty = u32_to_string(y);
            let bg = amount_groups_vec();
            proof {
                lemma_group_match_amount(tx@, ty@);
            }
            if string_in_group(&tx, &ty, &bg) {
                shared.push(make_entry("Evolving Balance on Card: ", tx.as_str()));
            }
        },
        _ => {},
    }
    proof {
        done = done + balance_entry(*customer_a, *customer_b);
        assert(shared.deep_view() =~= done);
        assert(done == spec_traits_mid(*customer_a, *customer_b));
    }
    shared
}

fn shared_tail(customer_a: &Customer, customer_b: &Customer) -> (r: Vec<String>)
    ensures
        r.deep_view() == spec_traits_tail(*customer_a, *customer_b),
{
    let mut shared: Vec<String> = Vec::new();
    let ta = u32_to_string(customer_a.transactions_amount);
    let tb = u32_to_string(customer_b.transactions_amount);
    let groups = amount_groups_vec();
    proof {
        lemma_group_match_amount(ta@, tb@);
    }
    if string_in_group(&ta, &tb, &groups) {
        shared.push(make_entry("Total Dollar Amount of Transaction via Card: ", ta.as_str()));
    }
    let ghost mut done: Seq<Seq<char>> = entry_if(
        amount_shared(*customer_a, *customer_b),
        tx_amount_text(*customer_a),
    );
    proof {
        assert(shared.deep_view() =~= done);
    }
    let ta = u32_to_string(customer_a.num_transctions);
    let tb = u32_to_string(customer_b.num_transctions);
    let groups = tx_count_groups_vec();
    proof {
        lemma_group_match_tx_count(ta@, tb@);
    }
    if string_in_group(&ta, &tb, &groups) {
        shared.push(make_entry("Total Number of Transactions via Card: ", ta.as_str()));
    }
    proof {
        done = done + entry_if(
            tx_count_shared(*customer_a, *customer_b),
            tx_count_text(*customer_a),
        );
        assert(shared.deep_view() =~= done);
    }
    let groups = utilization_groups_vec();
    proof {
        lemma_group_match_utilization(customer_a.avg_card_utilize@, customer_b.avg_card_utilize@);
    }
    if string_in_group(&customer_a.avg_card_utilize, &customer_b.avg_card_utilize, &groups) {
        shared.push(
            make_entry("Average Card Utilization Ratio: ", customer_a.avg_card_utilize.as_str()),
        );
    }
    proof {
        done = done + entry_if(
            utilization_shared(*customer_a, *customer_b),
            utilization_text(*customer_a),
        );
        assert(shared.deep_view() =~= done);
        assert(done == spec_traits_tail(*customer_a, *customer_b));
    }
    shared
}

/// The list of formatted traits two customers share, one entry per shared
/// attribute, in the fixed attribute order.
pub fn get_shared_characteristics(customer_a: &Customer, customer_b: &Customer) -> (r: Vec<String>)
    ensures
        r.deep_view() == spec_traits(*customer_a, *customer_b),
{
    let mut shared = shared_exact(customer_a, customer_b);
    let mut mid = shared_mid(customer_a, customer_b);
    let mut tail = shared_tail(customer_a, customer_b);
    shared.append(&mut mid);
    shared.append(&mut tail);
    proof {
        assert(shared.deep_view() =~= spec_traits(*customer_a, *customer_b));
    }
    shared
}

/// Whether two customers share enough checked attributes to be connected in
/// the similarity graph.
#[verifier::rlimit(100)]
pub fn determine_neighbor(customer_a: &Customer, customer_b: &Customer) -> (r: bool)
    ensures
        r == spec_is_neighbor(*customer_a, *customer_b),
{
    let mut count: u32 = 0;
    if customer_a.age == customer_b.age {
        count += 1;
    }
    if str_eq(
        customer_a.one_hot_encoding.education_level.as_str(),
        customer_b.one_hot_encoding.education_level.as_str(),
    ) {
        count += 1;
    }
    if str_eq(
        customer_a.one_hot_encoding.marital_status.as_str(),
        customer_b.one_hot_encoding.marital_status.as_str(),
    ) {
        count += 1;
    }
    if str_eq(
        customer_a.one_hot_encoding.income_range.as_str(),
        customer_b.one_hot_encoding.income_range.as_str(),
    ) {
        count += 1;
    }
    if str_eq(
        customer_a.one_hot_encoding.card_type.as_str(),
        customer_b.one_hot_encoding.card_type.as_str(),
    ) {
        count += 1;
    }
    let ta = u32_to_string(customer_a.mon_w_bank);
    let tb = u32_to_string(customer_b.mon_w_bank);
    let groups = tenure_groups_vec();
    proof {
        lemma_group_match_tenure(ta@, tb@);
    }
    if string_in_group(&ta, &tb, &groups) {
        count += 1;
    }
    if customer_a.num_product_purchased == customer_b.num_product_purchased {
        count += 1;
    }
    if customer_a.mon_inactive == customer_b.mon_inactive {
        count += 1;
    }
    if customer_a.num_contact == customer_b.num_contact {
        count += 1;
    }
    let ta = u32_to_string(customer_a.transactions_amount);
    let tb = u32_to_string(customer_b.transactions_amount);
    let groups = amount_groups_vec();
    proof {
        lemma_group_match_amount(ta@, tb@);
    }
    if string_in_group(&ta, &tb, &groups) {
        count += 1;
    }
    let ta = u32_to_string(customer_a.num_transctions);
    let tb = u32_to_string(customer_b.num_transctions);
    let groups = tx_count_groups_vec();
    proof {
        lemma_group_match_tx_count(ta@, tb@);
    }
    if string_in_group(&ta, &tb, &groups) {
        count += 1;
    }
    let groups = utilization_groups_vec();
    proof {
        lemma_group_match_utilization(customer_a.avg_card_utilize@, customer_b.avg_card_utilize@);
    }
    if string_in_group(&customer_a.avg_card_utilize, &customer_b.avg_card_utilize, &groups) {
        count += 1;
    }
    count >= NEIGHBOR_THRESHOLD
}

/// The neighbor relation is symmetric: every per-attribute check compares
/// its two values symmetrically, so the shared count is too.
pub proof fn lemma_is_neighbor_symmetric(a: Customer, b: Customer)
    ensures
        spec_is_neighbor(a, b) == spec_is_neighbor(b, a),
{
    assert(spec_shared_count(a, b) == spec_shared_count(b, a));
}

/// What a customer shares with itself: every exact-match attribute, always,
/// plus the utilization entry exactly when that rendering is itself a group
/// label. The bucketed integer attributes never contribute, because the
/// decimal rendering of an integer is never one of their labels.
pub open spec fn spec_self_traits(a: Customer) -> Seq<Seq<char>> {
    seq![
        age_text(a),
        education_text(a),
        marital_text(a),
        income_text(a),
        card_type_text(a),
        products_text(a),
        inactive_text(a),
        contacts_text(a),
    ] + entry_if(is_utilization_label(a.avg_card_utilize@), utilization_text(a))
}

proof fn lemma_not_tenure_label(x: int)
    ensures
        !is_tenure_label(spec_decimal(x)),
{
    reveal_strlit("20-30");
    reveal_strlit("30-40");
    reveal_strlit("40-50");
    reveal_strlit(">50");
    lemma_decimal_ne(x, "20-30"@, 2);
    lemma_decimal_ne(x, "30-40"@, 2);
    lemma_decimal_ne(x, "40-50"@, 2);
    lemma_decimal_ne(x, ">50"@, 0);
}

proof fn lemma_not_credit_limit_label(x: int)
    ensures
        !is_credit_limit_label(spec_decimal(x)),
{
    reveal_strlit("5000<");
    reveal_strlit("5000-10000");
    reveal_strlit("10000-15000");
    reveal_strlit("15000-20000");
    reveal_strlit("20000-25000");
    reveal_strlit("25000-30000");
    reveal_strlit(">30000");
    lemma_decimal_ne(x, "5000<"@, 4);
    lemma_decimal_ne(x, "5000-10000"@, 4);
    lemma_decimal_ne(x, "10000-15000"@, 5);
    lemma_decimal_ne(x, "15000-20000"@, 5);
    lemma_decimal_ne(x, "20000-25000"@, 5);
    lemma_decimal_ne(x, "25000-30000"@, 5);
    lemma_decimal_ne(x, ">30000"@, 0);
}

proof fn lemma_not_amount_label(x: int)
    ensures
        !is_amount_label(spec_decimal(x)),
{
    reveal_strlit("500<");
    reveal_strlit("500-1000");
    reveal_strlit("1000-1500");
    reveal_strlit("1500-2000");
    reveal_strlit(">2000");
    lemma_decimal_ne(x, "500<"@, 3);
    lemma_decimal_ne(x, "500-1000"@, 3);
    lemma_decimal_ne(x, "1000-1500"@, 4);
    lemma_decimal_ne(x, "1500-2000"@, 4);
    lemma_decimal_ne(x, ">2000"@, 0);
}

proof fn lemma_not_tx_count_label(x: int)
    ensures
        !is_tx_count_label(spec_decimal(x)),
{
    reveal_strlit("<10");
    reveal_strlit("10-20");
    reveal_strlit("20-30");
    reveal_strlit("30-40");
    reveal_strlit(">40");
    lemma_decimal_ne(x, "<10"@, 0);
    lemma_decimal_ne(x, "10-20"@, 2);
    lemma_decimal_ne(x, "20-30"@, 2);
    lemma_decimal_ne(x, "30-40"@, 2);
    lemma_decimal_ne(x, ">40"@, 0);
}

/// Self-similarity: a customer compared with itself shares exactly the eight
/// exact-match attributes, plus the utilization entry when its rendering is
/// literally a group label; and a customer is always its own neighbor.
pub proof fn lemma_traits_shared_self(a: Customer)
    ensures
        spec_traits(a, a) =~= spec_self_traits(a),
        spec_is_neighbor(a, a),
{
    lemma_not_tenure_label(a.mon_w_bank as int);
    lemma_not_amount_label(a.transactions_amount as int);
    lemma_not_tx_count_label(a.num_transctions as int);
    match a.card_credit_limit {
        Some(x) => {
            lemma_not_credit_limit_label(x as int);
        },
        None => {},
    }
    match a.evolving_bal {
        Some(x) => {
            lemma_not_amount_label(x as int);
        },
        None => {},
    }
    assert(spec_traits(a, a) =~= spec_self_traits(a));
}

proof fn lemma_traits_exact_len(a: Customer, b: Customer)
    ensures
        spec_traits_exact(a, b).len() <= 5,
{
}

proof fn lemma_traits_mid_len(a: Customer, b: Customer)
    ensures
        spec_traits_mid(a, b).len() <= 6,
{
}

proof fn lemma_traits_tail_len(a: Customer, b: Customer)
    ensures
        spec_traits_tail(a, b).len() <= 3,
{
}

/// A trait list never holds more than the fourteen possible entries.
pub proof fn lemma_traits_len(a: Customer, b: Customer)
    ensures
        spec_traits(a, b).len() <= 14,
{
    lemma_traits_exact_len(a, b);
    lemma_traits_mid_len(a, b);
    lemma_traits_tail_len(a, b);
}

} // verus!

