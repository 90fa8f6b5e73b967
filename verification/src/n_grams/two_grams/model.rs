//! The two-gram input: its construction from query parameters, its lookup
//! planning and the validation of varying indexes against it.

use vstd::prelude::*;

use crate::db::{GET_BY_FIRST_2, GET_BY_SECOND_2, GET_FREQ_2};
use crate::n_grams::word_freq_pair::DEFAULT_AMOUNT_OF_WORD_FREQ_PAIRS;
use crate::n_grams::{Printable, Queryable};
use crate::text::{comma_seq, i32_of_str, split_on};
use crate::{all_parse_i32, parse_amount, parse_varying_indexes, parsed_values, valid_indexes,
    validate_indexes, QueryMap};

verus! {

/// A two-gram given as input.
pub struct TwoGramInput {
    pub word1: String,
    pub word2: String,
}

impl TwoGramInput {
    /// Reads the two words out of the query parameters.
    pub fn from(query: &QueryMap) -> (r: Result<TwoGramInput, String>)
        ensures
            match (query.spec_get("word1"@), query.spec_get("word2"@)) {
                (Some(w1), Some(w2)) => r matches Ok(g) && g.word1@ == w1 && g.word2@ == w2,
                (None, _) => r matches Err(e) && e@ == "word1 is required"@,
                (Some(_), None) => r matches Err(e) && e@ == "word2 is required"@,
            },
    {
        let word1 = match query.get("word1") {
            Some(word1) => word1,
            None => {
                return Err("word1 is required".to_owned());
            },
        };
        let word2 = match query.get("word2") {
            Some(word2) => word2,
            None => {
                return Err("word2 is required".to_owned());
            },
        };
        Ok(TwoGramInput { word1: word1.clone(), word2: word2.clone() })
    }
}

impl Queryable for TwoGramInput {
    open spec fn words(&self) -> Seq<Seq<char>> {
        seq![self.word1@, self.word2@]
    }

    open spec fn arity(&self) -> int {
        2
    }

    open spec fn query_template(&self, index: Option<i32>) -> Seq<char> {
        match index {
            None => GET_FREQ_2@,
            Some(i) => if i == 1 {
                GET_BY_SECOND_2@
            } else {
                GET_BY_FIRST_2@
            },
        }
    }

    proof fn arity_is_len(&self) {
    }

    fn to_vec(&self) -> (r: Vec<&str>) {
        let mut v: Vec<&str> = Vec::new();
        v.push(self.word1.as_str());
        v.push(self.word2.as_str());
        proof {
            assert(v@.map_values(|s: &str| s@) =~= self.words());
        }
        v
    }

    fn get_query(&self, index: Option<i32>) -> (r: Result<&'static str, String>) {
        match index {
            Some(index) => {
                if index == 1 {
                    Ok(GET_BY_SECOND_2)
                } else if index == 2 {
                    Ok(GET_BY_FIRST_2)
                } else {
                    Err("Invalid index".to_owned())
                }
            },
            None => Ok(GET_FREQ_2),
        }
    }

    fn get_input(&self, index: i32) -> (r: Result<Vec<&String>, String>) {
        if index == 1 {
            let mut v: Vec<&String> = Vec::new();
            v.push(&self.word2);
            proof {
                assert(v.deep_view() =~= self.words().remove(0));
            }
            Ok(v)
        } else if index == 2 {
            let mut v: Vec<&String> = Vec::new();
            v.push(&self.word1);
            proof {
                assert(v.deep_view() =~= self.words().remove(1));
            }
            Ok(v)
        } else {
            Err("Invalid index".to_owned())
        }
    }

    fn get_word(&self, index: i32) -> (r: Result<&String, String>) {
        if index == 1 {
            Ok(&self.word1)
        } else if index == 2 {
            Ok(&self.word2)
        } else {
            Err("Invalid index".to_owned())
        }
    }
}

impl Printable for TwoGramInput {
    open spec fn text(&self) -> Seq<char> {
        self.word1@ + seq![' '] + self.word2@
    }

    fn print(&self) -> (r: String) {
        let mut out = String::new();
        out.append(self.word1.as_str());
        out.append(" ");
        out.append(self.word2.as_str());
        proof {
            reveal_strlit(" ");
            assert(" "@ =~= seq![' ']);
        }
        out
    }
}

/// The query parameters of a two-gram request.
pub struct TwoGramQueryParams {
    pub two_gram: TwoGramInput,
    pub varying_indexes: Option<Vec<i32>>,
    pub amount: i32,
}

impl TwoGramQueryParams {
    /// Reads a full two-gram request out of the query parameters: the
    /// two-gram itself, the varying indexes and the truncation amount.
    pub fn from(query: &QueryMap) -> (r: Result<TwoGramQueryParams, String>)
        ensures
            ({
                let w1 = query.spec_get("word1"@);
                let w2 = query.spec_get("word2"@);
                let vary = query.spec_get("vary"@);
                let amount = query.spec_get("amount"@);
                if w1 is None {
                    r matches Err(e) && e@ == "word1 is required"@
                } else if w2 is None {
                    r matches Err(e) && e@ == "word2 is required"@
                } else if vary matches Some(v) && !(all_parse_i32(split_on(v, comma_seq()))
                    && valid_indexes(parsed_values(split_on(v, comma_seq())), 2)) {
                    r matches Err(e) && e@ == "Invalid index"@
                } else if amount matches Some(a) && i32_of_str(a) is None {
                    r matches Err(e) && e@ == "Invalid amount"@
                } else {
                    r matches Ok(p) && p.two_gram.word1@ == w1.unwrap() && p.two_gram.word2@
                        == w2.unwrap() && (match vary {
                        None => p.varying_indexes is None,
                        Some(v) => p.varying_indexes matches Some(ix) && ix@ == parsed_values(
                            split_on(v, comma_seq()),
                        ),
                    }) && p.amount == (match amount {
                        None => DEFAULT_AMOUNT_OF_WORD_FREQ_PAIRS as int,
                        Some(a) => i32_of_str(a).unwrap() as int,
                    })
                }
            }),
    {
        let two_gram = match TwoGramInput::from(query) {
            Ok(two_gram) => two_gram,
            Err(error) => {
                return Err(error);
            },
        };
        let varying_indexes = match query.get("vary") {
            Some(vary) => match parse_varying_indexes(vary.as_str(), 2) {
                Ok(indexes) => Some(indexes),
                Err(err) => {
                    return Err(err);
                },
            },
            None => None,
        };
        let amount = match query.get("amount") {
            Some(amount) => match parse_amount(amount.as_str()) {
                Ok(amount) => amount,
                Err(err) => {
                    return Err(err);
                },
            },
            None => DEFAULT_AMOUNT_OF_WORD_FREQ_PAIRS,
        };
        Ok(TwoGramQueryParams { two_gram, varying_indexes, amount })
    }
}

/// Checks that the given varying indexes fit a two-gram: within 1..=2 and
/// pairwise distinct.
pub fn validate(indexes: &Vec<i32>) -> (r: Result<(), String>)
    ensures
        r is Ok <==> valid_indexes(indexes@, 2),
        r matches Err(e) ==> e@ == "Invalid index"@,
{
    validate_indexes(indexes, 2)
}

} // verus!
