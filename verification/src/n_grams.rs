//! The n-gram input model: a common interface over two- and three-gram
//! inputs, their lookup planning and the shared varying-query machinery.

pub mod model;
pub mod solver;
pub mod three_grams;
pub mod two_grams;
pub mod vary_n_gram;
pub mod word_freq_pair;

use vstd::prelude::*;

verus! {

/// Behavior needed for querying the corpus: an ordered list of words, a
/// lookup template per varying position, and the remaining words once one
/// position varies.
pub trait Queryable: Sized {
    /// The words of the n-gram, in order.
    spec fn words(&self) -> Seq<Seq<char>>;

    /// How many words the n-gram has.
    spec fn arity(&self) -> int;

    /// The template chosen for an exact lookup (no index) or for varying the
    /// given position.
    spec fn query_template(&self, index: Option<i32>) -> Seq<char>;

    /// The arity is the number of words, and is 2 or 3.
    proof fn arity_is_len(&self)
        ensures
            self.arity() == self.words().len(),
            2 <= self.arity() <= 3,
    ;

    /// The words as string slices, in order.
    fn to_vec(&self) -> (r: Vec<&str>)
        ensures
            r@.map_values(|s: &str| s@) == self.words(),
    ;

    /// The lookup template: the exact-match one when no index is given, else
    /// the one varying the given position.
    fn get_query(&self, index: Option<i32>) -> (r: Result<&'static str, String>)
        ensures
            match index {
                None => r is Ok,
                Some(i) => r is Ok <==> 1 <= i <= self.arity(),
            },
            r matches Ok(q) ==> q@ == self.query_template(index),
            r matches Err(e) ==> e@ == "Invalid index"@,
    ;

    /// The words that stay fixed when the given position varies.
    fn get_input(&self, index: i32) -> (r: Result<Vec<&String>, String>)
        ensures
            r is Ok <==> 1 <= index <= self.arity(),
            r matches Ok(v) ==> v.deep_view() == self.words().remove(index - 1),
            r matches Err(e) ==> e@ == "Invalid index"@,
    ;

    /// The word at the given 1-based position.
    fn get_word(&self, index: i32) -> (r: Result<&String, String>)
        ensures
            r is Ok <==> 1 <= index <= self.arity(),
            r matches Ok(w) ==> w@ == self.words()[index - 1],
            r matches Err(e) ==> e@ == "Invalid index"@,
    ;
}

/// Behavior needed for printing an n-gram as text.
pub trait Printable {
    /// The printed text.
    spec fn text(&self) -> Seq<char>;

    /// Writes the n-gram as space-separated words.
    fn print(&self) -> (r: String)
        ensures
            r@ == self.text(),
    ;
}

} // verus!
