//! The three-gram input: its construction from query parameters, its lookup
//! planning and the validation of varying indexes against it.

use vstd::prelude::*;

use crate::db::{
    GET_BY_FIRST_AND_SECOND_3, GET_BY_FIRST_AND_THIRD_3, GET_BY_SECOND_AND_THIRD_3, GET_FREQ_3,
};
use crate::n_grams::{Printable, Queryable};
use crate::{valid_indexes, validate_indexes, QueryMap};

verus! {

/// A three-gram given as input.
pub struct ThreeGramInput {
    pub word1: String,
    pub word2: String,
    pub word3: String,
}

impl ThreeGramInput {
    /// Reads the three words out of the query parameters.
    pub fn from(query: &QueryMap) -> (r: Result<ThreeGramInput, String>)
        ensures
            match (query.spec_get("word1"@), query.spec_get("word2"@), query.spec_get("word3"@)) {
                (Some(w1), Some(w2), Some(w3)) => r matches Ok(g) && g.word1@ == w1 && g.word2@
                    == w2 && g.word3@ == w3,
                (None, _, _) => r matches Err(e) && e@ == "word1 is required"@,
                (Some(_), None, _) => r matches Err(e) && e@ == "word2 is required"@,
                (Some(_), Some(_), None) => r matches Err(e) && e@ == "word3 is required"@,
            },
    {
        let word1 = match query.get("word1") {
            Some(word1) => word1,
            None => {
                return Err("word1 is required".to_owned());
            },
        };
        let word2 = match query.get("word2") {
            Some(word2) => word2,
            None => {
                return Err("word2 is required".to_owned());
            },
        };
        let word3 = match query.get("word3") {
            Some(word3) => word3,
            None => {
                return Err("word3 is required".to_owned());
            },
        };
        Ok(ThreeGramInput { word1: word1.clone(), word2: word2.clone(), word3: word3.clone() })
    }
}

impl Queryable for ThreeGramInput {
    open spec fn words(&self) -> Seq<Seq<char>> {
        seq![self.word1@, self.word2@, self.word3@]
    }

    open spec fn arity(&self) -> int {
        3
    }

    open spec fn query_template(&self, index: Option<i32>) -> Seq<char> {
        match index {
            None => GET_FREQ_3@,
            Some(i) => if i == 1 {
                GET_BY_SECOND_AND_THIRD_3@
            } else if i == 2 {
                GET_BY_FIRST_AND_THIRD_3@
            } else {
                GET_BY_FIRST_AND_SECOND_3@
            },
        }
    }

    proof fn arity_is_len(&self) {
    }

    fn to_vec(&self) -> (r: Vec<&str>) {
        let mut v: Vec<&str> = Vec::new();
        v.push(self.word1.as_str());
        v.push(self.word2.as_str());
        v.push(self.word3.as_str());
        proof {
            assert(v@.map_values(|s: &str| s@) =~= self.words());
        }
        v
    }

    fn get_query(&self, index: Option<i32>) -> (r: Result<&'static str, String>) {
        match index {
            Some(index) => {
                if index == 1 {
                    Ok(GET_BY_SECOND_AND_THIRD_3)
                } else if index == 2 {
                    Ok(GET_BY_FIRST_AND_THIRD_3)
                } else if index == 3 {
                    Ok(GET_BY_FIRST_AND_SECOND_3)
                } else {
                    Err("Invalid index".to_owned())
                }
            },
            None => Ok(GET_FREQ_3),
        }
    }

    fn get_input(&self, index: i32) -> (r: Result<Vec<&String>, String>) {
        if index == 1 {
            let mut v: Vec<&String> = Vec::new();
            v.push(&self.word2);
            v.push(&self.word3);
            proof {
                assert(v.deep_view() =~= self.words().remove(0));
            }
            Ok(v)
        } else if index == 2 {
            let mut v: Vec<&String> = Vec::new();
            v.push(&self.word1);
            v.push(&self.word3);
            proof {
                assert(v.deep_view() =~= self.words().remove(1));
            }
            Ok(v)
        } else if index == 3 {
            let mut v: Vec<&String> = Vec::new();
            v.push(&self.word1);
            v.push(&self.word2);
            proof {
                assert(v.deep_view() =~= self.words().remove(2));
            }
            Ok(v)
        } else {
            Err("Invalid index".to_owned())
        }
    }

    fn get_word(&self, index: i32) -> (r: Result<&String, String>) {
        if index == 1 {
            Ok(&self.word1)
        } else if index == 2 {
            Ok(&self.word2)
        } else if index == 3 {
            Ok(&self.word3)
        } else {
            Err("Invalid index".to_owned())
        }
    }
}

impl Printable for ThreeGramInput {
    open spec fn text(&self) -> Seq<char> {
        self.word1@ + seq![' '] + self.word2@ + seq![' '] + self.word3@
    }

    fn print(&self) -> (r: String) {
        let mut out = String::new();
        out.append(self.word1.as_str());
        out.append(" ");
        out.append(self.word2.as_str());
        out.append(" ");
        out.append(self.word3.as_str());
        proof {
            reveal_strlit(" ");
            assert(" "@ =~= seq![' ']);
        }
        out
    }
}

/// Checks that the given varying indexes fit a three-gram: within 1..=3 and
/// pairwise distinct.
pub fn validate(indexes: &Vec<i32>) -> (r: Result<(), String>)
    ensures
        r is Ok <==> valid_indexes(indexes@, 3),
        r matches Err(e) ==> e@ == "Invalid index"@,
{
    validate_indexes(indexes, 3)
}

} // verus!
