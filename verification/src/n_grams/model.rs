//! Query parameters shared by every n-gram arity.

use vstd::prelude::*;

use crate::n_grams::three_grams::model::ThreeGramInput;
use crate::n_grams::two_grams::model::TwoGramInput;
use crate::n_grams::word_freq_pair::DEFAULT_AMOUNT_OF_WORD_FREQ_PAIRS;
use crate::n_grams::Queryable;
use crate::text::{comma_seq, i32_of_str, split_on};
use crate::{all_parse_i32, parse_amount, parse_varying_indexes, parsed_values, valid_indexes,
    QueryMap};

verus! {

/// Whether direct queries support n-grams of arity `n`.
pub open spec fn spec_supported_n(n: int) -> bool {
    n == 2 || n == 3
}

/// Whether direct queries support n-grams of arity `n`.
pub fn is_supported_n(n: i32) -> (r: bool)
    ensures
        r == spec_supported_n(n as int),
{
    n == 2 || n == 3
}

/// The parameters of one direct n-gram query.
pub struct NgramQueryParams<T: Queryable> {
    pub n_gram: T,
    pub varying_indexes: Option<Vec<i32>>,
    pub amount: i32,
}

/// The varying indexes and amount a query map carries, read the same way for
/// every arity.
pub open spec fn vary_amount_post<T: Queryable>(
    query: &QueryMap,
    arity: int,
    r: Result<NgramQueryParams<T>, String>,
) -> bool {
    let vary = query.spec_get("vary"@);
    let amount = query.spec_get("amount"@);
    if vary matches Some(v) && !(all_parse_i32(split_on(v, comma_seq())) && valid_indexes(
        parsed_values(split_on(v, comma_seq())),
        arity,
    )) {
        r matches Err(e) && e@ == "Invalid index"@
    } else if amount matches Some(a) && i32_of_str(a) is None {
        r matches Err(e) && e@ == "Invalid amount"@
    } else {
        r matches Ok(p) && (match vary {
            None => p.varying_indexes is None,
            Some(v) => p.varying_indexes matches Some(ix) && ix@ == parsed_values(
                split_on(v, comma_seq()),
            ),
        }) && p.amount == (match amount {
            None => DEFAULT_AMOUNT_OF_WORD_FREQ_PAIRS as int,
            Some(a) => i32_of_str(a).unwrap() as int,
        })
    }
}

/// Creation of query parameters from a query map.
pub trait FromQueryParams: Sized {
    /// Whether the query map describes a well-formed request of this shape.
    spec fn create_post(query: &QueryMap, r: Result<Self, String>) -> bool;

    /// Reads the full request out of the query map.
    fn create(query: &QueryMap) -> (r: Result<Self, String>)
        ensures
            Self::create_post(query, r),
    ;
}

impl FromQueryParams for NgramQueryParams<ThreeGramInput> {
    /// Vary indexes are read against arity 3, the amount defaults, and the
    /// three words must all be present.
    open spec fn create_post(
        query: &QueryMap,
        r: Result<NgramQueryParams<ThreeGramInput>, String>,
    ) -> bool {
        let w1 = query.spec_get("word1"@);
        let w2 = query.spec_get("word2"@);
        let w3 = query.spec_get("word3"@);
        let vary = query.spec_get("vary"@);
        if vary matches Some(v) && !(all_parse_i32(split_on(v, comma_seq())) && valid_indexes(
            parsed_values(split_on(v, comma_seq())),
            3,
        )) {
            r matches Err(e) && e@ == "Invalid index"@
        } else if query.spec_get("amount"@) matches Some(a) && i32_of_str(a) is None {
            r matches Err(e) && e@ == "Invalid amount"@
        } else if w1 is None {
            r matches Err(e) && e@ == "word1 is required"@
        } else if w2 is None {
            r matches Err(e) && e@ == "word2 is required"@
        } else if w3 is None {
            r matches Err(e) && e@ == "word3 is required"@
        } else {
            vary_amount_post(query, 3, r) && (r matches Ok(p) ==> p.n_gram.word1@ == w1.unwrap()
                && p.n_gram.word2@ == w2.unwrap() && p.n_gram.word3@ == w3.unwrap())
        }
    }

    fn create(query: &QueryMap) -> (r: Result<NgramQueryParams<ThreeGramInput>, String>) {
        let varying_indexes = match query.get("vary") {
            Some(vary) => match parse_varying_indexes(vary.as_str(), 3) {
                Ok(indexes) => Some(indexes),
                Err(e) => {
                    return Err(e);
                },
            },
            None => None,
        };
        let amount = match query.get("amount") {
            Some(amount) => match parse_amount(amount.as_str()) {
                Ok(amount) => amount,
                Err(e) => {
                    return Err(e);
                },
            },
            None => DEFAULT_AMOUNT_OF_WORD_FREQ_PAIRS,
        };
        let three_gram = match ThreeGramInput::from(query) {
            Ok(three_gram) => three_gram,
            Err(e) => {
                return Err(e);
            },
        };
        Ok(NgramQueryParams { n_gram: three_gram, varying_indexes, amount })
    }
}

impl FromQueryParams for NgramQueryParams<TwoGramInput> {
    /// Vary indexes are read against arity 2, the amount defaults, and both
    /// words must be present.
    open spec fn create_post(
        query: &QueryMap,
        r: Result<NgramQueryParams<TwoGramInput>, String>,
    ) -> bool {
        let w1 = query.spec_get("word1"@);
        let w2 = query.spec_get("word2"@);
        let vary = query.spec_get("vary"@);
        if vary matches Some(v) && !(all_parse_i32(split_on(v, comma_seq())) && valid_indexes(
            parsed_values(split_on(v, comma_seq())),
            2,
        )) {
            r matches Err(e) && e@ == "Invalid index"@
        } else if query.spec_get("amount"@) matches Some(a) && i32_of_str(a) is None {
            r matches Err(e) && e@ == "Invalid amount"@
        } else if w1 is None {
            r matches Err(e) && e@ == "word1 is required"@
        } else if w2 is None {
            r matches Err(e) && e@ == "word2 is required"@
        } else {
            vary_amount_post(query, 2, r) && (r matches Ok(p) ==> p.n_gram.word1@ == w1.unwrap()
                && p.n_gram.word2@ == w2.unwrap())
        }
    }

    fn create(query: &QueryMap) -> (r: Result<NgramQueryParams<TwoGramInput>, String>) {
        let varying_indexes = match query.get("vary") {
            Some(vary) => match parse_varying_indexes(vary.as_str(), 2) {
                Ok(indexes) => Some(indexes),
                Err(e) => {
                    return Err(e);
                },
            },
            None => None,
        };
        let amount = match query.get("amount") {
            Some(amount) => match parse_amount(amount.as_str()) {
                Ok(amount) => amount,
                Err(e) => {
                    return Err(e);
                },
            },
            None => DEFAULT_AMOUNT_OF_WORD_FREQ_PAIRS,
        };
        let two_gram = match TwoGramInput::from(query) {
            Ok(two_gram) => two_gram,
            Err(e) => {
                return Err(e);
            },
        };
        Ok(NgramQueryParams { n_gram: two_gram, varying_indexes, amount })
    }
}

} // verus!
