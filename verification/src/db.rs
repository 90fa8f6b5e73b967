//! The query catalog: one lookup template per (arity, varying position), laid
//! out over the redundantly partitioned physical tables, and the
//! reconstruction of an n-gram's text from a template and its parameters.

use vstd::prelude::*;

use crate::text::str_starts_with;

verus! {

/// Frequency of one exact three-gram.
pub const GET_FREQ_3: &'static str =
    "SELECT freq FROM n_grams.three_grams_1_2_pk WHERE word_1 = ? AND word_2 = ? AND word_3 = ?";

/// All columns of one exact three-gram.
pub const GET_ALL_3: &'static str =
    "SELECT * FROM n_grams.three_grams_1_2_pk where word_1 = ? AND word_2 = ? AND word_3 = ?";

/// Three-grams varying the third word over a candidate list.
pub const GET_ALL_VARYING_3_3: &'static str =
    "SELECT word_3, freq FROM n_grams.three_grams_1_2_pk WHERE word_1 = ? AND word_2 = ? AND word_3 IN ";

/// Three-grams varying the first word over a candidate list.
pub const GET_ALL_VARYING_3_1: &'static str =
    "SELECT word_1, freq FROM n_grams.three_grams_2_3_pk WHERE word_2 = ? AND word_3 = ? AND word_1 IN ";

/// Three-grams varying the first word freely.
pub const GET_BY_SECOND_AND_THIRD_3: &'static str =
    "SELECT word_1, freq FROM n_grams.three_grams_2_3_pk WHERE word_2 = ? AND word_3 = ?";

/// Three-grams varying the second word freely.
pub const GET_BY_FIRST_AND_THIRD_3: &'static str =
    "SELECT word_2, freq FROM n_grams.three_grams_1_3_pk WHERE word_1 = ? AND word_3 = ?";

/// Three-grams varying the third word freely.
pub const GET_BY_FIRST_AND_SECOND_3: &'static str =
    "SELECT word_3, freq FROM n_grams.three_grams_1_2_pk WHERE word_1 = ? AND word_2 = ?";

/// Frequency of one exact two-gram.
pub const GET_FREQ_2: &'static str =
    "SELECT freq FROM n_grams.two_grams_1_pk WHERE word_1 = ? AND word_2 = ?";

/// All columns of one exact two-gram.
pub const GET_ALL_2: &'static str =
    "SELECT * FROM n_grams.two_grams_1_pk WHERE word_1 = ? AND word_2 = ?";

/// Two-grams varying the second word over a candidate list.
pub const GET_ALL_VARYING_2_2: &'static str =
    "SELECT word_2, freq FROM n_grams.two_grams_1_pk WHERE word_1 = ? AND word_2 IN ";

/// Two-grams varying the first word over a candidate list.
pub const GET_ALL_VARYING_2_1: &'static str =
    "SELECT word_1, freq FROM n_grams.two_grams_2_pk WHERE word_2 = ? AND word_1 IN ";

/// Two-grams varying the first word freely.
pub const GET_BY_SECOND_2: &'static str =
    "SELECT word_1, freq FROM n_grams.two_grams_2_pk WHERE word_2 = ?";

/// Two-grams varying the second word freely.
pub const GET_BY_FIRST_2: &'static str =
    "SELECT word_2, freq FROM n_grams.two_grams_1_pk WHERE word_1 = ?";

/// One exact one-gram.
pub const GET_ALL_1: &'static str = "SELECT word, freq FROM n_grams.one_grams WHERE word = ?";

/// One-grams over a candidate list.
pub const GET_ALL_VARYING_1: &'static str = "SELECT * FROM n_grams.one_grams WHERE word IN ";

/// The errors a corpus lookup can produce: a failed execution, or a result
/// that is absent.
pub enum QueryError {
    ScyllaError,
    NotFound,
}

/// `p` is a prefix of `s`.
pub open spec fn has_prefix(s: Seq<char>, p: Seq<char>) -> bool {
    p.len() <= s.len() && s.subrange(0, p.len() as int) == p
}

/// The views of a list of string slices.
pub open spec fn slice_views(v: Seq<&str>) -> Seq<Seq<char>> {
    v.map_values(|s: &str| s@)
}

/// The rendered query is one of the five candidate-list templates, with
/// enough static parameters for it.
pub open spec fn valid_varying_query(query: Seq<char>, n_static: int) -> bool {
    ||| (has_prefix(query, GET_ALL_VARYING_3_3@) && n_static >= 2)
    ||| (has_prefix(query, GET_ALL_VARYING_3_1@) && n_static >= 2)
    ||| (has_prefix(query, GET_ALL_VARYING_2_2@) && n_static >= 1)
    ||| (has_prefix(query, GET_ALL_VARYING_2_1@) && n_static >= 1)
    ||| has_prefix(query, GET_ALL_VARYING_1@)
}

/// The text of the n-gram a row of `query` stands for: the static words with
/// the varying word put back in the position the template varies.
pub open spec fn n_gram_text(query: Seq<char>, sp: Seq<Seq<char>>, vp: Seq<char>) -> Seq<char> {
    let space = seq![' '];
    if has_prefix(query, GET_ALL_VARYING_3_3@) {
        sp[0] + space + sp[1] + space + vp
    } else if has_prefix(query, GET_ALL_VARYING_3_1@) {
        vp + space + sp[0] + space + sp[1]
    } else if has_prefix(query, GET_ALL_VARYING_2_2@) {
        sp[0] + space + vp
    } else if has_prefix(query, GET_ALL_VARYING_2_1@) {
        vp + space + sp[0]
    } else {
        vp
    }
}

/// A prefix fixes the characters it covers.
proof fn lemma_prefix_char(q: Seq<char>, p: Seq<char>, i: int)
    requires
        has_prefix(q, p),
        0 <= i < p.len(),
    ensures
        q[i] == p[i],
{
    assert(q.subrange(0, p.len() as int)[i] == p[i]);
}

/// The five candidate-list templates differ pairwise, so a rendered query
/// matches at most one of them, which fixes how many static parameters it
/// carries.
proof fn lemma_varying_static_arity(q: Seq<char>, n: int)
    requires
        valid_varying_query(q, n),
    ensures
        has_prefix(q, GET_ALL_VARYING_3_3@) ==> n >= 2,
        has_prefix(q, GET_ALL_VARYING_3_1@) ==> n >= 2,
        has_prefix(q, GET_ALL_VARYING_2_2@) ==> n >= 1,
        has_prefix(q, GET_ALL_VARYING_2_1@) ==> n >= 1,
{
    reveal_strlit(
        "SELECT word_3, freq FROM n_grams.three_grams_1_2_pk WHERE word_1 = ? AND word_2 = ? AND word_3 IN ",
    );
    reveal_strlit(
        "SELECT word_1, freq FROM n_grams.three_grams_2_3_pk WHERE word_2 = ? AND word_3 = ? AND word_1 IN ",
    );
    reveal_strlit("SELECT word_2, freq FROM n_grams.two_grams_1_pk WHERE word_1 = ? AND word_2 IN ");
    reveal_strlit("SELECT word_1, freq FROM n_grams.two_grams_2_pk WHERE word_2 = ? AND word_1 IN ");
    reveal_strlit("SELECT * FROM n_grams.one_grams WHERE word IN ");
    let v33 = GET_ALL_VARYING_3_3@;
    let v31 = GET_ALL_VARYING_3_1@;
    let v22 = GET_ALL_VARYING_2_2@;
    let v21 = GET_ALL_VARYING_2_1@;
    let v1 = GET_ALL_VARYING_1@;
    if has_prefix(q, v33) {
        if has_prefix(q, v31) {
            lemma_prefix_char(q, v33, 12);
            lemma_prefix_char(q, v31, 12);
        }
        if has_prefix(q, v22) {
            lemma_prefix_char(q, v33, 12);
            lemma_prefix_char(q, v22, 12);
        }
        if has_prefix(q, v21) {
            lemma_prefix_char(q, v33, 12);
            lemma_prefix_char(q, v21, 12);
        }
        if has_prefix(q, v1) {
            lemma_prefix_char(q, v33, 7);
            lemma_prefix_char(q, v1, 7);
        }
    }
    if has_prefix(q, v31) {
        if has_prefix(q, v22) {
            lemma_prefix_char(q, v31, 12);
            lemma_prefix_char(q, v22, 12);
        }
        if has_prefix(q, v21) {
            lemma_prefix_char(q, v31, 34);
            lemma_prefix_char(q, v21, 34);
        }
        if has_prefix(q, v1) {
            lemma_prefix_char(q, v31, 7);
            lemma_prefix_char(q, v1, 7);
        }
    }
    if has_prefix(q, v22) {
        if has_prefix(q, v21) {
            lemma_prefix_char(q, v22, 12);
            lemma_prefix_char(q, v21, 12);
        }
        if has_prefix(q, v1) {
            lemma_prefix_char(q, v22, 7);
            lemma_prefix_char(q, v1, 7);
        }
    }
    if has_prefix(q, v21) {
        if has_prefix(q, v1) {
            lemma_prefix_char(q, v21, 7);
            lemma_prefix_char(q, v1, 7);
        }
    }
}

/// Rebuilds the n-gram a returned row stands for from the rendered query, its
/// static parameters and the row's word.
pub fn get_n_gram_string(query: &str, static_params: &Vec<&str>, varying_param: &str) -> (r:
    String)
    requires
        valid_varying_query(query@, static_params@.len() as int),
    ensures
        r@ == n_gram_text(query@, slice_views(static_params@), varying_param@),
{
    let space = " ";
    proof {
        reveal_strlit(" ");
        assert(space@ =~= seq![' ']);
        lemma_varying_static_arity(query@, static_params@.len() as int);
    }
    if str_starts_with(query, GET_ALL_VARYING_3_3) {
        let mut out = String::new();
        out.append(static_params[0]);
        out.append(space);
        out.append(static_params[1]);
        out.append(space);
        out.append(varying_param);
        proof {
            assert(slice_views(static_params@)[0] == static_params@[0]@);
            assert(slice_views(static_params@)[1] == static_params@[1]@);
        }
        out
    } else if str_starts_with(query, GET_ALL_VARYING_3_1) {
        let mut out = String::new();
        out.append(varying_param);
        out.append(space);
        out.append(static_params[0]);
        out.append(space);
        out.append(static_params[1]);
        proof {
            assert(slice_views(static_params@)[0] == static_params@[0]@);
            assert(slice_views(static_params@)[1] == static_params@[1]@);
        }
        out
    } else if str_starts_with(query, GET_ALL_VARYING_2_2) {
        let mut out = String::new();
        out.append(static_params[0]);
        out.append(space);
        out.append(varying_param);
        proof {
            assert(slice_views(static_params@)[0] == static_params@[0]@);
        }
        out
    } else if str_starts_with(query, GET_ALL_VARYING_2_1) {
        let mut out = String::new();
        out.append(varying_param);
        out.append(space);
        out.append(static_params[0]);
        proof {
            assert(slice_views(static_params@)[0] == static_params@[0]@);
        }
        out
    } else {
        let mut out = String::new();
        out.append(varying_param);
        out
    }
}

} // verus!
