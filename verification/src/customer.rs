//! The customer record and the normalization of its categorical fields.
use crate::text::str_eq;
use vstd::prelude::*;
use vstd::string::StringExecFns;

verus! {

/// The four categorical attributes of a customer. Each value is drawn from a
/// fixed closed vocabulary, with "Unknown" as the fallback (see
/// [`map_category`]).
#[derive(Debug)]
pub struct OneHotEncoding {
    pub education_level: String,
    pub marital_status: String,
    pub income_range: String,
    pub card_type: String,
}

impl Clone for OneHotEncoding {
    fn clone(&self) -> (r: Self)
        ensures
            r == *self,
    {
        OneHotEncoding {
            education_level: self.education_level.clone(),
            marital_status: self.marital_status.clone(),
            income_range: self.income_range.clone(),
            card_type: self.card_type.clone(),
        }
    }
}

/// One customer record. All numeric attributes are non-negative counts or
/// amounts. The credit limit and the evolving balance are optional: when a
/// record source does not supply them, every check that would read them is
/// skipped. The utilization ratio is carried as its decimal rendering (for
/// example "0.4"), which is the only form the analysis ever reads.
#[derive(Debug)]
pub struct Customer {
    /// "Existing Customer" for an active customer, "Attrited Customer" for a
    /// churned one.
    pub churn_status: String,
    pub age: u32,
    pub one_hot_encoding: OneHotEncoding,
    /// Months the customer has been with the bank (tenure).
    pub mon_w_bank: u32,
    pub num_product_purchased: u32,
    /// Months the card has been inactive.
    pub mon_inactive: u32,
    /// Times the bank contacted the customer in the past 12 months.
    pub num_contact: u32,
    /// Credit limit in dollars, when the record source supplies it.
    pub card_credit_limit: Option<u32>,
    /// Evolving (available) balance in dollars, when the record source
    /// supplies it.
    pub evolving_bal: Option<u32>,
    /// Dollar amount of card transactions.
    pub transactions_amount: u32,
    /// Number of card transactions in the past 12 months.
    pub num_transctions: u32,
    /// Average card utilization ratio, as its decimal rendering.
    pub avg_card_utilize: String,
}

impl Clone for Customer {
    fn clone(&self) -> (r: Self)
        ensures
            r == *self,
    {
        Customer {
            churn_status: self.churn_status.clone(),
            age: self.age,
            one_hot_encoding: self.one_hot_encoding.clone(),
            mon_w_bank: self.mon_w_bank,
            num_product_purchased: self.num_product_purchased,
            mon_inactive: self.mon_inactive,
            num_contact: self.num_contact,
            card_credit_limit: self.card_credit_limit,
            evolving_bal: self.evolving_bal,
            transactions_amount: self.transactions_amount,
            num_transctions: self.num_transctions,
            avg_card_utilize: self.avg_card_utilize.clone(),
        }
    }
}

/// The closed vocabulary accepted by [`map_category`]: the education levels,
/// the marital statuses, the income brackets, the card types, and the
/// sentinel "Unknown" itself.
pub open spec fn spec_known_category(v: Seq<char>) -> bool {
    ||| v == "Unknown"@
    ||| v == "High School"@
    ||| v == "Graduate"@
    ||| v == "Uneducated"@
    ||| v == "College"@
    ||| v == "Post-Graduate"@
    ||| v == "Doctorate"@
    ||| v == "Married"@
    ||| v == "Single"@
    ||| v == "Divorced"@
    ||| v == "Less than $40K"@
    ||| v == "$40K - $60K"@
    ||| v == "$60K - $80K"@
    ||| v == "$80K - $120K"@
    ||| v == "$120K +"@
    ||| v == "Blue"@
    ||| v == "Silver"@
    ||| v == "Gold"@
    ||| v == "Platinum"@
}

/// What categorical normalization returns: a known value passes through
/// unchanged, anything else falls back to "Unknown".
pub open spec fn spec_map_category(v: Seq<char>) -> Seq<char> {
    if spec_known_category(v) {
        v
    } else {
        "Unknown"@
    }
}

/// Normalize a categorical value against the fixed closed vocabulary.
pub fn map_category(value: &str) -> (r: String)
    ensures
        r@ == spec_map_category(value@),
{
    if str_eq(value, "Unknown") || str_eq(value, "High School") || str_eq(value, "Graduate")
        || str_eq(value, "Uneducated") || str_eq(value, "College") || str_eq(
        value,
        "Post-Graduate",
    ) || str_eq(value, "Doctorate") || str_eq(value, "Married") || str_eq(value, "Single")
        || str_eq(value, "Divorced") || str_eq(value, "Less than $40K") || str_eq(
        value,
        "$40K - $60K",
    ) || str_eq(value, "$60K - $80K") || str_eq(value, "$80K - $120K") || str_eq(value, "$120K +")
        || str_eq(value, "Blue") || str_eq(value, "Silver") || str_eq(value, "Gold") || str_eq(
        value,
        "Platinum",
    ) {
        value.to_owned()
    } else {
        String::from_str("Unknown")
    }
}

} // verus!
