//! The integer core of the Laplace-smoothed predictor: partitioning the
//! merged rows per candidate, additive-one smoothing, and each candidate's
//! exact score fractions under the max- and sum-ranking rules. Only the final
//! logarithm is left to the caller.

use vstd::prelude::*;

use crate::n_grams::solver::model::{QueryResult, SentenceResult, TimedSentenceResults};
use crate::text::{count_tokens, lower_of, lowercase, occurs, split_ws, str_contains, str_eq};
use crate::NGramCounts;

verus! {

/// The content of a candidate bucket: each n-gram text seen for the
/// candidate, with its accumulated count.
pub open spec fn bucket_view(b: Seq<(String, i128)>) -> Seq<(Seq<char>, int)> {
    b.map_values(|e: (String, i128)| (e.0@, e.1 as int))
}

/// The content of the per-candidate bucket table.
pub open spec fn d_view(d: Seq<(String, Vec<(String, i128)>)>) -> Seq<
    (Seq<char>, Seq<(Seq<char>, int)>),
> {
    d.map_values(|e: (String, Vec<(String, i128)>)| (e.0@, bucket_view(e.1@)))
}

/// Whether a bucket already holds the n-gram, compared case-insensitively.
pub open spec fn bucket_has(b: Seq<(Seq<char>, int)>, input: Seq<char>) -> bool {
    exists|i: int| 0 <= i < b.len() && lower_of((#[trigger] b[i]).0) == lower_of(input)
}

/// Accumulates a row into a bucket: every case-insensitive match gains the
/// frequency; an unseen n-gram starts a new entry.
pub open spec fn bucket_add(b: Seq<(Seq<char>, int)>, input: Seq<char>, freq: int) -> Seq<
    (Seq<char>, int),
> {
    if bucket_has(b, input) {
        b.map_values(
            |e: (Seq<char>, int)|
                if lower_of(e.0) == lower_of(input) {
                    (e.0, e.1 + freq)
                } else {
                    e
                },
        )
    } else {
        b.push((input, freq))
    }
}

/// Whether the table has a bucket for the candidate.
pub open spec fn d_has_key(d: Seq<(Seq<char>, Seq<(Seq<char>, int)>)>, w: Seq<char>) -> bool {
    exists|i: int| 0 <= i < d.len() && (#[trigger] d[i]).0 == w
}

/// Index of the candidate's bucket, the earliest when several exist.
pub open spec fn d_key_index(d: Seq<(Seq<char>, Seq<(Seq<char>, int)>)>, w: Seq<char>) -> int
    decreases d.len(),
{
    if d.len() == 0 {
        0
    } else if d[0].0 == w {
        0
    } else {
        1 + d_key_index(d.drop_first(), w)
    }
}

proof fn lemma_d_key_index_at(d: Seq<(Seq<char>, Seq<(Seq<char>, int)>)>, w: Seq<char>, i: int)
    requires
        0 <= i < d.len(),
        forall|a: int| 0 <= a < i ==> (#[trigger] d[a]).0 != w,
        d[i].0 == w,
    ensures
        d_key_index(d, w) == i,
    decreases i,
{
    if i > 0 {
        lemma_d_key_index_at(d.drop_first(), w, i - 1);
    }
}

proof fn lemma_d_key_index_range(d: Seq<(Seq<char>, Seq<(Seq<char>, int)>)>, w: Seq<char>)
    requires
        d_has_key(d, w),
    ensures
        0 <= d_key_index(d, w) < d.len(),
        d[d_key_index(d, w)].0 == w,
        forall|a: int| 0 <= a < d_key_index(d, w) ==> (#[trigger] d[a]).0 != w,
    decreases d.len(),
{
    if d.len() > 0 && d[0].0 != w {
        assert(d_has_key(d.drop_first(), w)) by {
            let i = choose|i: int| 0 <= i < d.len() && d[i].0 == w;
            assert(d.drop_first()[i - 1].0 == w);
        }
        lemma_d_key_index_range(d.drop_first(), w);
        assert forall|a: int| 0 <= a < d_key_index(d, w) implies (#[trigger] d[a]).0 != w by {
            if a > 0 {
                assert(d.drop_first()[a - 1].0 != w);
            }
        }
    }
}

/// Routes a row into the candidate's earliest bucket, creating one when the
/// candidate has none.
pub open spec fn d_update(
    d: Seq<(Seq<char>, Seq<(Seq<char>, int)>)>,
    w: Seq<char>,
    input: Seq<char>,
    freq: int,
) -> Seq<(Seq<char>, Seq<(Seq<char>, int)>)> {
    if d_has_key(d, w) {
        let i = d_key_index(d, w);
        d.update(i, (w, bucket_add(d[i].1, input, freq)))
    } else {
        d.push((w, seq![(input, freq)]))
    }
}

/// One row routed to every candidate of the group whose text occurs in it,
/// for the first `k` candidates.
pub open spec fn fill_words(
    d: Seq<(Seq<char>, Seq<(Seq<char>, int)>)>,
    input: Seq<char>,
    freq: int,
    cs: Seq<Seq<char>>,
    k: int,
) -> Seq<(Seq<char>, Seq<(Seq<char>, int)>)>
    decreases k,
{
    if k <= 0 {
        d
    } else {
        let d2 = fill_words(d, input, freq, cs, k - 1);
        if occurs(input, cs[k - 1]) {
            d_update(d2, cs[k - 1], input, freq)
        } else {
            d2
        }
    }
}

/// Every accumulated count stays within `bound` in magnitude.
pub open spec fn d_values_bounded(d: Seq<(Seq<char>, Seq<(Seq<char>, int)>)>, bound: int) -> bool {
    forall|i: int, j: int|
        0 <= i < d.len() && 0 <= j < d[i].1.len() ==> -bound <= (#[trigger] d[i].1[j]).1 <= bound
}

/// Accumulated counts stay comfortably inside the 128-bit range, leaving room
/// for further accumulation.
pub const D_VALUE_BOUND: i128 = 0x4000_0000_0000_0000_0000_0000_0000_0000;

/// Room left for one whole group's worth of accumulation on top of the bound.
pub const D_VALUE_HEADROOM: i128 = 0x7000_0000_0000_0000_0000_0000_0000_0000;

proof fn lemma_bucket_add_bounded(
    b: Seq<(Seq<char>, int)>,
    input: Seq<char>,
    freq: int,
    bound: int,
)
    requires
        forall|j: int| 0 <= j < b.len() ==> -bound <= (#[trigger] b[j]).1 <= bound,
        -0x1_0000_0000 <= freq <= 0x1_0000_0000,
        bound >= 0x1_0000_0000,
    ensures
        forall|j: int|
            0 <= j < bucket_add(b, input, freq).len() ==> -(bound + 0x1_0000_0000) <= (
            #[trigger] bucket_add(b, input, freq)[j]).1 <= bound + 0x1_0000_0000,
{
    assert forall|j: int|
        0 <= j < bucket_add(b, input, freq).len() implies -(bound + 0x1_0000_0000) <= (
    #[trigger] bucket_add(b, input, freq)[j]).1 <= bound + 0x1_0000_0000 by {
        if bucket_has(b, input) {
            assert(bucket_add(b, input, freq)[j] == (if lower_of(b[j].0) == lower_of(input) {
                (b[j].0, b[j].1 + freq)
            } else {
                b[j]
            }));
        } else {
            if j < b.len() {
                assert(bucket_add(b, input, freq)[j] == b[j]);
            }
        }
    }
}

/// Routing rows grows every count by at most the frequency per candidate.
proof fn lemma_fill_words_bounded(
    d: Seq<(Seq<char>, Seq<(Seq<char>, int)>)>,
    input: Seq<char>,
    freq: int,
    cs: Seq<Seq<char>>,
    k: int,
    bound: int,
)
    requires
        d_values_bounded(d, bound),
        -0x1_0000_0000 <= freq <= 0x1_0000_0000,
        bound >= 0x1_0000_0000,
        k >= 0,
    ensures
        d_values_bounded(fill_words(d, input, freq, cs, k), bound + k * 0x1_0000_0000),
    decreases k,
{
    if k == 0 {
        assert(fill_words(d, input, freq, cs, 0) == d);
    } else {
        lemma_fill_words_bounded(d, input, freq, cs, k - 1, bound);
        let prior = bound + (k - 1) * 0x1_0000_0000;
        let d2 = fill_words(d, input, freq, cs, k - 1);
        let d3 = fill_words(d, input, freq, cs, k);
        if occurs(input, cs[k - 1]) {
            let w = cs[k - 1];
            assert(d3 == d_update(d2, w, input, freq));
            if d_has_key(d2, w) {
                lemma_d_key_index_range(d2, w);
            }
            assert forall|i: int, j: int|
                0 <= i < d3.len() && 0 <= j < d3[i].1.len() implies -(prior + 0x1_0000_0000) <= (
            #[trigger] d3[i].1[j]).1 <= prior + 0x1_0000_0000 by {
                if d_has_key(d2, w) {
                    let x = d_key_index(d2, w);
                    if i == x {
                        assert(d3[i] == (w, bucket_add(d2[x].1, input, freq)));
                        assert forall|m: int|
                            0 <= m < d2[x].1.len() implies -prior <= (#[trigger] d2[x].1[m]).1
                            <= prior by {}
                        lemma_bucket_add_bounded(d2[x].1, input, freq, prior);
                    } else {
                        assert(d3[i] == d2[i]);
                    }
                } else {
                    if i < d2.len() {
                        assert(d3[i] == d2[i]);
                    } else {
                        assert(d3[i] == (w, seq![(input, freq)]));
                    }
                }
            }
            assert(d_values_bounded(d3, prior + 0x1_0000_0000));
        } else {
            assert(d3 == d2);
        }
        assert(prior + 0x1_0000_0000 <= bound + k * 0x1_0000_0000);
        assert forall|i: int, j: int|
            0 <= i < d3.len() && 0 <= j < d3[i].1.len() implies -(bound + k * 0x1_0000_0000) <= (
        #[trigger] d3[i].1[j]).1 <= bound + k * 0x1_0000_0000 by {}
    }
}

/// Routes one non-unigram row into the buckets of every candidate whose text
/// occurs in the row's n-gram.
#[verifier::loop_isolation(false)]
#[verifier::rlimit(100)]
pub fn fill_results(
    d: &mut Vec<(String, Vec<(String, i128)>)>,
    qr: &QueryResult,
    cs: &Vec<String>,
)
    requires
        d_values_bounded(d_view(old(d)@), D_VALUE_BOUND as int),
        cs@.len() <= 0x1_0000_0000,
    ensures
        d_view(final(d)@) == fill_words(
            d_view(old(d)@),
            qr.input@,
            qr.frequency as int,
            crate::text::views_of(cs@),
            cs@.len() as int,
        ),
{
    let ghost csviews = crate::text::views_of(cs@);
    let ghost freq = qr.frequency as int;
    let mut k: usize = 0;
    while k < cs.len()
        invariant
            k <= cs@.len(),
            d_view(d@) == fill_words(d_view(old(d)@), qr.input@, freq, csviews, k as int),
        decreases cs@.len() - k,
    {
        proof {
            lemma_fill_words_bounded(
                d_view(old(d)@),
                qr.input@,
                freq,
                csviews,
                k as int,
                D_VALUE_BOUND as int,
            );
            assert(d_values_bounded(d_view(d@), D_VALUE_HEADROOM as int));
        }
        let w = &cs[k];
        proof {
            assert(w@ == csviews[k as int]);
        }
        if str_contains(qr.input.as_str(), w.as_str()) {
            d_route(d, w, &qr.input, qr.frequency);
        }
        k += 1;
    }
}

/// Accumulates one row into the candidate's bucket, creating the bucket when
/// the candidate has none yet.
#[verifier::loop_isolation(false)]
#[verifier::rlimit(100)]
fn d_route(d: &mut Vec<(String, Vec<(String, i128)>)>, w: &String, input: &String, freq: i32)
    requires
        d_values_bounded(d_view(old(d)@), D_VALUE_HEADROOM as int),
    ensures
        d_view(final(d)@) == d_update(d_view(old(d)@), w@, input@, freq as int),
{
    let ghost dv0 = d_view(old(d)@);
    let mut i: usize = 0;
    while i < d.len()
        invariant
            i <= d@.len(),
            d@ == old(d)@,
            forall|m: int| 0 <= m < i ==> (#[trigger] dv0[m]).0 != w@,
        decreases d@.len() - i,
    {
        if str_eq(d[i].0.as_str(), w.as_str()) {
            proof {
                assert(dv0[i as int].0 == w@);
                assert(d_has_key(dv0, w@));
            }
            let ghost b0 = bucket_view(d@[i as int].1@);
            proof {
                assert(b0 == dv0[i as int].1);
                assert forall|j: int|
                    0 <= j < b0.len() implies -(D_VALUE_HEADROOM as int) <= (#[trigger] b0[j]).1
                    <= D_VALUE_HEADROOM as int by {
                    assert(-(D_VALUE_HEADROOM as int) <= dv0[i as int].1[j].1 <= D_VALUE_HEADROOM
                        as int);
                }
            }
            let entry = &mut d[i].1;
            bucket_accumulate(entry, input, freq);
            proof {
                assert(bucket_view(d@[i as int].1@) == bucket_add(b0, input@, freq as int));
                let dv = d_view(d@);
                let target = d_update(dv0, w@, input@, freq as int);
                lemma_d_key_index_at(dv0, w@, i as int);
                assert(target == dv0.update(
                    i as int,
                    (w@, bucket_add(dv0[i as int].1, input@, freq as int)),
                ));
                assert(d@[i as int].0 == old(d)@[i as int].0);
                assert(dv[i as int] == (w@, bucket_add(b0, input@, freq as int)));
                assert forall|m: int| 0 <= m < dv.len() implies dv[m] == target[m] by {
                    if m != i {
                        assert(d@[m] == old(d)@[m]);
                        assert(target[m] == dv0[m]);
                    }
                }
                assert(dv =~= target);
            }
            return ;
        }
        i += 1;
    }
    proof {
        assert(!d_has_key(dv0, w@));
    }
    let mut bucket: Vec<(String, i128)> = Vec::new();
    bucket.push((input.clone(), freq as i128));
    let ghost prev = d@;
    d.push((w.clone(), bucket));
    proof {
        assert(bucket_view(d@.last().1@) =~= seq![(input@, freq as int)]);
        assert forall|m: int|
            0 <= m < d@.len() implies d_view(d@)[m] == dv0.push(
            (w@, seq![(input@, freq as int)]),
        )[m] by {
            if m < prev.len() {
                assert(d@[m] == prev[m]);
            }
        }
        assert(d_view(d@) =~= dv0.push((w@, seq![(input@, freq as int)])));
    }
}

/// Accumulates one row into a single bucket: every case-insensitive match
/// gains the frequency, an unseen n-gram starts a new entry.
#[verifier::loop_isolation(false)]
#[verifier::rlimit(100)]
fn bucket_accumulate(b: &mut Vec<(String, i128)>, input: &String, freq: i32)
    requires
        forall|j: int|
            0 <= j < bucket_view(old(b)@).len() ==> -(D_VALUE_HEADROOM as int) <= (
            #[trigger] bucket_view(old(b)@)[j]).1 <= D_VALUE_HEADROOM as int,
    ensures
        bucket_view(final(b)@) == bucket_add(bucket_view(old(b)@), input@, freq as int),
{
    let ghost b0 = bucket_view(old(b)@);
    let input_lower = lowercase(input.as_str());
    let mut found = false;
    let mut j: usize = 0;
    while j < b.len()
        invariant
            j <= b@.len(),
            b@.len() == old(b)@.len(),
            found == exists|m: int|
                0 <= m < j && lower_of((#[trigger] b0[m]).0) == lower_of(input@),
            forall|m: int| j <= m < b@.len() ==> #[trigger] b@[m] == old(b)@[m],
            forall|m: int|
                0 <= m < j ==> #[trigger] bucket_view(b@)[m] == (if lower_of(b0[m].0) == lower_of(
                    input@,
                ) {
                    (b0[m].0, b0[m].1 + freq as int)
                } else {
                    b0[m]
                }),
        decreases b@.len() - j,
    {
        let ghost prevb = b@;
        proof {
            assert(b@[j as int] == old(b)@[j as int]);
            assert(b0[j as int] == (old(b)@[j as int].0@, old(b)@[j as int].1 as int));
        }
        let entry_lower = lowercase(b[j].0.as_str());
        if str_eq(entry_lower.as_str(), input_lower.as_str()) {
            proof {
                assert(lower_of(b0[j as int].0) == lower_of(input@));
                assert(-(D_VALUE_HEADROOM as int) <= b0[j as int].1 <= D_VALUE_HEADROOM as int);
            }
            let updated = b[j].1 + freq as i128;
            let word = b[j].0.clone();
            b[j] = (word, updated);
            found = true;
            proof {
                assert(b@ =~= prevb.update(j as int, (word, updated)));
                assert(b@[j as int].0 == old(b)@[j as int].0);
                assert(bucket_view(b@)[j as int] == (b0[j as int].0, b0[j as int].1 + freq as int));
                assert forall|m: int|
                    0 <= m < j + 1 implies #[trigger] bucket_view(b@)[m] == (if lower_of(b0[m].0)
                    == lower_of(input@) {
                    (b0[m].0, b0[m].1 + freq as int)
                } else {
                    b0[m]
                }) by {
                    if m < j {
                        assert(b@[m] == prevb[m]);
                        assert(bucket_view(prevb)[m] == bucket_view(b@)[m]);
                    }
                }
                assert forall|m: int| j + 1 <= m < b@.len() implies #[trigger] b@[m] == old(
                    b,
                )@[m] by {
                    assert(b@[m] == prevb[m]);
                }
            }
        } else {
            proof {
                assert(lower_of(b0[j as int].0) != lower_of(input@));
                assert(bucket_view(b@)[j as int] == b0[j as int]);
            }
        }
        j += 1;
    }
    if !found {
        let ghost prev = b@;
        b.push((input.clone(), freq as i128));
        proof {
            assert(!bucket_has(b0, input@));
            assert forall|m: int|
                0 <= m < b@.len() implies bucket_view(b@)[m] == b0.push(
                (input@, freq as int),
            )[m] by {
                if m < prev.len() {
                    assert(b@[m] == prev[m]);
                    assert(bucket_view(prev)[m] == bucket_view(b@)[m]);
                }
            }
            assert(bucket_view(b@) =~= b0.push((input@, freq as int)));
        }
    } else {
        proof {
            assert(bucket_has(b0, input@));
            let target = b0.map_values(
                |e: (Seq<char>, int)|
                    if lower_of(e.0) == lower_of(input@) {
                        (e.0, e.1 + freq as int)
                    } else {
                        e
                    },
            );
            assert forall|m: int| 0 <= m < b@.len() implies bucket_view(b@)[m] == target[m] by {}
            assert(bucket_view(b@) =~= target);
        }
    }
}

/// Corpus totals after additive-one smoothing: each arity's total plus its
/// distinct-type count.
pub struct SmoothedCounts {
    pub one: i128,
    pub two: i128,
    pub three: i128,
}

impl SmoothedCounts {
    /// The smoothed total for arity `n`, when `n` is one of 1, 2, 3.
    pub open spec fn spec_get(&self, n: int) -> Option<i128> {
        if n == 1 {
            Some(self.one)
        } else if n == 2 {
            Some(self.two)
        } else if n == 3 {
            Some(self.three)
        } else {
            None
        }
    }
}

/// A candidate's observations after Laplace smoothing: every count raised by
/// one, every total raised by its distinct-type count.
pub struct LaplaceSmoothingResult {
    pub results: Vec<(String, i128)>,
    pub n_gram_counts: SmoothedCounts,
}

impl LaplaceSmoothingResult {
    /// Applies additive-one smoothing to a candidate's counts and to the
    /// corpus totals.
    #[verifier::loop_isolation(false)]
    pub fn get(
        results: Vec<(String, i128)>,
        n_gram_counts: &NGramCounts,
        distinct_n_gram_counts: &NGramCounts,
    ) -> (r: LaplaceSmoothingResult)
        requires
            forall|i: int| 0 <= i < results@.len() ==> (#[trigger] results@[i]).1 < i128::MAX,
        ensures
            r.results@.len() == results@.len(),
            forall|i: int|
                0 <= i < results@.len() ==> (#[trigger] r.results@[i]).0 == results@[i].0
                    && r.results@[i].1 == results@[i].1 + 1,
            r.n_gram_counts.one == n_gram_counts.one + distinct_n_gram_counts.one,
            r.n_gram_counts.two == n_gram_counts.two + distinct_n_gram_counts.two,
            r.n_gram_counts.three == n_gram_counts.three + distinct_n_gram_counts.three,
    {
        let ghost orig = results@;
        let mut results = results;
        let mut i: usize = 0;
        while i < results.len()
            invariant
                i <= results@.len(),
                results@.len() == orig.len(),
                forall|m: int| i <= m < orig.len() ==> #[trigger] results@[m] == orig[m],
                forall|m: int|
                    0 <= m < i ==> (#[trigger] results@[m]).0 == orig[m].0 && results@[m].1
                        == orig[m].1 + 1,
            decreases results@.len() - i,
        {
            let bumped = results[i].1 + 1;
            let word = results[i].0.clone();
            results[i] = (word, bumped);
            i += 1;
        }
        let n_gram_counts = SmoothedCounts {
            one: n_gram_counts.one as i128 + distinct_n_gram_counts.one as i128,
            two: n_gram_counts.two as i128 + distinct_n_gram_counts.two as i128,
            three: n_gram_counts.three as i128 + distinct_n_gram_counts.three as i128,
        };
        LaplaceSmoothingResult { results, n_gram_counts }
    }
}

/// The frequency the unigram rows record for `key`: the last length-one row
/// whose n-gram is exactly `key`.
pub open spec fn uni_lookup(rs: Seq<QueryResult>, key: Seq<char>) -> Option<i32>
    decreases rs.len(),
{
    if rs.len() == 0 {
        None
    } else if rs.last().length == 1 && rs.last().input@ == key {
        Some(rs.last().frequency)
    } else {
        uni_lookup(rs.drop_last(), key)
    }
}

/// Looks the candidate up among the unigram rows.
#[verifier::loop_isolation(false)]
fn uni_lookup_exec(rs: &Vec<QueryResult>, key: &str) -> (r: Option<i32>)
    ensures
        r == uni_lookup(rs@, key@),
{
    proof {
        assert(rs@.take(rs@.len() as int) =~= rs@);
    }
    let mut i: usize = rs.len();
    while i > 0
        invariant
            i <= rs@.len(),
            uni_lookup(rs@, key@) == uni_lookup(rs@.take(i as int), key@),
        decreases i,
    {
        i -= 1;
        let qr = &rs[i];
        proof {
            assert(rs@.take(i + 1).last() == rs@[i as int]);
            assert(rs@.take(i + 1).drop_last() =~= rs@.take(i as int));
        }
        if qr.length == 1 && str_eq(qr.input.as_str(), key) {
            return Some(qr.frequency);
        }
    }
    proof {
        assert(rs@.take(0) =~= Seq::<QueryResult>::empty());
    }
    None
}

/// The exact score fraction one smoothed observation yields:
/// p = (uf / N'1) * (c / N'len), kept as a numerator and denominator. Data
/// whose counts fall outside the representable guards, an unknown arity, or a
/// non-positive total is refused.
pub open spec fn term_of(uf: int, s1: int, s2: int, s3: int, entry: (Seq<char>, int)) -> Option<
    (int, int),
> {
    let l = split_ws(entry.0).len() as int;
    let nl_opt: Option<int> = if l == 1 {
        Some(s1)
    } else if l == 2 {
        Some(s2)
    } else if l == 3 {
        Some(s3)
    } else {
        None
    };
    match nl_opt {
        None => None,
        Some(nl) => {
            if !(0 < nl <= i64::MAX) {
                None
            } else if !(0 < s1 <= i64::MAX) {
                None
            } else if !(-i64::MAX <= entry.1 <= i64::MAX) {
                None
            } else {
                Some((uf * entry.1, s1 * nl))
            }
        },
    }
}

/// The score fractions of a candidate's first `k` smoothed observations, or
/// nothing when any observation is refused.
pub open spec fn terms_list(
    uf: int,
    s1: int,
    s2: int,
    s3: int,
    bucket: Seq<(Seq<char>, int)>,
    k: int,
) -> Option<Seq<(int, int)>>
    decreases k,
{
    if k <= 0 {
        Some(Seq::empty())
    } else {
        match terms_list(uf, s1, s2, s3, bucket, k - 1) {
            None => None,
            Some(ts) => match term_of(uf, s1, s2, s3, bucket[k - 1]) {
                None => None,
                Some(t) => Some(ts.push(t)),
            },
        }
    }
}

/// The first maximizer among score fractions with positive denominators.
pub open spec fn best_of(terms: Seq<(int, int)>, k: int) -> int
    decreases k,
{
    if k <= 1 {
        0
    } else {
        let b = best_of(terms, k - 1);
        if terms[k - 1].0 * terms[b].1 > terms[b].0 * terms[k - 1].1 {
            k - 1
        } else {
            b
        }
    }
}

/// The content of a list of score terms.
pub open spec fn term_views(ts: Seq<ScoreTerm>) -> Seq<(int, int)> {
    ts.map_values(|t: ScoreTerm| (t.numerator as int, t.denominator as int))
}

/// One exact score fraction.
pub struct ScoreTerm {
    pub numerator: i128,
    pub denominator: i128,
    pub count: i128,
    pub arity_total: i128,
    pub length: i32,
}

/// Every score fraction a candidate's terms list carries has a positive
/// denominator: the caller's division meets no zero, which is the integer
/// half of keeping the final scores finite.
pub proof fn lemma_terms_positive_denominator(
    uf: int,
    s1: int,
    s2: int,
    s3: int,
    bucket: Seq<(Seq<char>, int)>,
    k: int,
)
    requires
        terms_list(uf, s1, s2, s3, bucket, k) is Some,
    ensures
        forall|i: int|
            0 <= i < terms_list(uf, s1, s2, s3, bucket, k).unwrap().len() ==> (
            #[trigger] terms_list(uf, s1, s2, s3, bucket, k).unwrap()[i]).1 > 0,
    decreases k,
{
    if k > 0 {
        lemma_terms_positive_denominator(uf, s1, s2, s3, bucket, k - 1);
        let prev = terms_list(uf, s1, s2, s3, bucket, k - 1).unwrap();
        let t = term_of(uf, s1, s2, s3, bucket[k - 1]).unwrap();
        let l = split_ws(bucket[k - 1].0).len() as int;
        let nl = if l == 1 {
            s1
        } else if l == 2 {
            s2
        } else {
            s3
        };
        assert(t.1 == s1 * nl);
        assert(s1 * nl > 0) by (nonlinear_arith)
            requires
                s1 > 0,
                nl > 0,
        ;
        assert forall|i: int|
            0 <= i < terms_list(uf, s1, s2, s3, bucket, k).unwrap().len() implies (
        #[trigger] terms_list(uf, s1, s2, s3, bucket, k).unwrap()[i]).1 > 0 by {
            if i < prev.len() {
                assert(terms_list(uf, s1, s2, s3, bucket, k).unwrap()[i] == prev[i]);
            }
        }
    }
}

/// The index of the first confusion group holding `word` exactly, from
/// position `i` on.
pub open spec fn first_group(cs: Seq<Seq<Seq<char>>>, word: Seq<char>, i: int) -> Option<int>
    decreases cs.len() - i,
{
    if i < 0 || i >= cs.len() {
        None
    } else if cs[i].contains(word) {
        Some(i)
    } else {
        first_group(cs, word, i + 1)
    }
}

/// The buckets the first `i` rows build: unigram rows are set aside, every
/// other row is routed to its matching candidates.
pub open spec fn buckets_upto(rs: Seq<QueryResult>, cs: Seq<Seq<char>>, i: int) -> Seq<
    (Seq<char>, Seq<(Seq<char>, int)>),
>
    decreases i,
{
    if i <= 0 {
        Seq::empty()
    } else {
        let d = buckets_upto(rs, cs, i - 1);
        let qr = rs[i - 1];
        if qr.length == 1 {
            d
        } else {
            fill_words(d, qr.input@, qr.frequency as int, cs, cs.len() as int)
        }
    }
}

/// A candidate's bucket after additive-one smoothing.
pub open spec fn smoothed_bucket(b: Seq<(Seq<char>, int)>) -> Seq<(Seq<char>, int)> {
    b.map_values(|e: (Seq<char>, int)| (e.0, e.1 + 1))
}

/// The per-candidate score fractions of the first `k` buckets: each
/// candidate's unigram frequency and smoothed observations, reduced to the
/// chosen term under max ranking or kept whole under sum ranking.
pub open spec fn cand_results(
    rs: Seq<QueryResult>,
    s1: int,
    s2: int,
    s3: int,
    d: Seq<(Seq<char>, Seq<(Seq<char>, int)>)>,
    k: int,
    use_max: bool,
) -> Option<Seq<(Seq<char>, Seq<(int, int)>)>>
    decreases k,
{
    if k <= 0 {
        Some(Seq::empty())
    } else {
        match cand_results(rs, s1, s2, s3, d, k - 1, use_max) {
            None => None,
            Some(cc) => {
                let w = d[k - 1].0;
                match uni_lookup(rs, w) {
                    None => None,
                    Some(uf) => {
                        let sb = smoothed_bucket(d[k - 1].1);
                        match terms_list(uf as int, s1, s2, s3, sb, sb.len() as int) {
                            None => None,
                            Some(ts) => {
                                let chosen = if use_max && ts.len() > 0 {
                                    seq![ts[best_of(ts, ts.len() as int)]]
                                } else {
                                    ts
                                };
                                Some(cc.push((w, chosen)))
                            },
                        }
                    },
                }
            },
        }
    }
}

/// The prediction of one sentence result: nothing when no confusion group
/// holds the examined word, an error on inconsistent data, otherwise each
/// candidate's score fractions.
pub open spec fn sentence_prediction(
    sentence: Seq<char>,
    word: Seq<char>,
    rs: Seq<QueryResult>,
    cs: Seq<Seq<Seq<char>>>,
    counts: NGramCounts,
    distinct: NGramCounts,
    use_max: bool,
) -> Option<Option<(Seq<char>, Seq<char>, Seq<(Seq<char>, Seq<(int, int)>)>)>> {
    if rs.len() > 0x4000_0000 {
        None
    } else {
        match first_group(cs, word, 0) {
            None => Some(None),
            Some(g) => {
                if cs[g].len() > 0x4000_0000 {
                    None
                } else {
                    let d = buckets_upto(rs, cs[g], rs.len() as int);
                    let s1 = counts.one + distinct.one;
                    let s2 = counts.two + distinct.two;
                    let s3 = counts.three + distinct.three;
                    match cand_results(rs, s1, s2, s3, d, d.len() as int, use_max) {
                        None => None,
                        Some(cc) => Some(Some((sentence, word, cc))),
                    }
                }
            },
        }
    }
}

/// The predictions of the first `i` sentence results, in order, skipping the
/// sentences no confusion group covers.
pub open spec fn predictions_upto(
    results: Seq<SentenceResult>,
    cs: Seq<Seq<Seq<char>>>,
    counts: NGramCounts,
    distinct: NGramCounts,
    use_max: bool,
    i: int,
) -> Option<Seq<(Seq<char>, Seq<char>, Seq<(Seq<char>, Seq<(int, int)>)>)>>
    decreases i,
{
    if i <= 0 {
        Some(Seq::empty())
    } else {
        match predictions_upto(results, cs, counts, distinct, use_max, i - 1) {
            None => None,
            Some(ps) => match sentence_prediction(
                results[i - 1].sentence@,
                results[i - 1].word@,
                results[i - 1].results@,
                cs,
                counts,
                distinct,
                use_max,
            ) {
                None => None,
                Some(None) => Some(ps),
                Some(Some(pv)) => Some(ps.push(pv)),
            },
        }
    }
}

/// One sentence's per-candidate score fractions.
pub struct PredictionTerms {
    pub context: String,
    pub word_examined: String,
    pub results: Vec<(String, Vec<ScoreTerm>)>,
}

/// The content of a candidate list.
pub open spec fn cand_views(s: Seq<(String, Vec<ScoreTerm>)>) -> Seq<(Seq<char>, Seq<(int, int)>)> {
    s.map_values(|e: (String, Vec<ScoreTerm>)| (e.0@, term_views(e.1@)))
}

/// The content of one prediction.
pub open spec fn prediction_view(p: PredictionTerms) -> (
    Seq<char>,
    Seq<char>,
    Seq<(Seq<char>, Seq<(int, int)>)>,
) {
    (p.context@, p.word_examined@, cand_views(p.results@))
}

/// The contents of a list of predictions.
pub open spec fn prediction_views(s: Seq<PredictionTerms>) -> Seq<
    (Seq<char>, Seq<char>, Seq<(Seq<char>, Seq<(int, int)>)>),
> {
    s.map_values(|p: PredictionTerms| prediction_view(p))
}

proof fn lemma_terms_list_none(
    uf: int,
    s1: int,
    s2: int,
    s3: int,
    bucket: Seq<(Seq<char>, int)>,
    k: int,
    k2: int,
)
    requires
        terms_list(uf, s1, s2, s3, bucket, k) is None,
        k <= k2,
    ensures
        terms_list(uf, s1, s2, s3, bucket, k2) is None,
    decreases k2 - k,
{
    if k < k2 {
        lemma_terms_list_none(uf, s1, s2, s3, bucket, k, k2 - 1);
    }
}

proof fn lemma_cand_results_none(
    rs: Seq<QueryResult>,
    s1: int,
    s2: int,
    s3: int,
    d: Seq<(Seq<char>, Seq<(Seq<char>, int)>)>,
    k: int,
    k2: int,
    use_max: bool,
)
    requires
        cand_results(rs, s1, s2, s3, d, k, use_max) is None,
        k <= k2,
    ensures
        cand_results(rs, s1, s2, s3, d, k2, use_max) is None,
    decreases k2 - k,
{
    if k < k2 {
        lemma_cand_results_none(rs, s1, s2, s3, d, k, k2 - 1, use_max);
    }
}

/// Finds the first confusion group holding `word` exactly.
#[verifier::loop_isolation(false)]
fn find_group(confusion_set: &Vec<Vec<String>>, word: &str) -> (r: Option<usize>)
    ensures
        match r {
            Some(g) => first_group(confusion_set.deep_view(), word@, 0) == Some(g as int) && g
                < confusion_set@.len(),
            None => first_group(confusion_set.deep_view(), word@, 0) is None,
        },
{
    let ghost cs = confusion_set.deep_view();
    let mut g: usize = 0;
    while g < confusion_set.len()
        invariant
            g <= cs.len(),
            first_group(cs, word@, 0) == first_group(cs, word@, g as int),
        decreases cs.len() - g,
    {
        let group = &confusion_set[g];
        proof {
            assert(group.deep_view() =~= crate::text::views_of(group@));
            assert(group.deep_view() == cs[g as int]);
        }
        if crate::text::vec_contains_str(group, word) {
            return Some(g);
        }
        g += 1;
    }
    None
}

/// Copies one candidate's bucket.
fn clone_bucket(b: &Vec<(String, i128)>) -> (r: Vec<(String, i128)>)
    ensures
        r@ == b@,
{
    let mut out: Vec<(String, i128)> = Vec::new();
    let mut i: usize = 0;
    while i < b.len()
        invariant
            i <= b@.len(),
            out@ =~= b@.take(i as int),
        decreases b@.len() - i,
    {
        out.push((b[i].0.clone(), b[i].1));
        proof {
            assert(out@ =~= b@.take(i + 1));
        }
        i += 1;
    }
    proof {
        assert(b@.take(b@.len() as int) =~= b@);
    }
    out
}

/// Fraction comparison reduces to the candidate counts and totals: with a
/// positive common denominator factor, the sign of the shared unigram factor
/// decides the direction.
proof fn lemma_fraction_compare(uf: int, s1: int, cj: int, nlb: int, cb: int, nlj: int)
    requires
        s1 > 0,
    ensures
        ((uf * cj) * (s1 * nlb) > (uf * cb) * (s1 * nlj)) == (if uf > 0 {
            cj * nlb > cb * nlj
        } else if uf < 0 {
            cj * nlb < cb * nlj
        } else {
            false
        }),
{
    assert(((uf * cj) * (s1 * nlb) > (uf * cb) * (s1 * nlj)) == (if uf > 0 {
        cj * nlb > cb * nlj
    } else if uf < 0 {
        cj * nlb < cb * nlj
    } else {
        false
    })) by (nonlinear_arith)
        requires
            s1 > 0,
    ;
}

/// Builds one sentence result's prediction: the candidates of the first
/// group holding the examined word, each with its exact score fractions.
#[verifier::loop_isolation(false)]
#[verifier::rlimit(100)]
fn predict_sentence(
    r: &SentenceResult,
    confusion_set: &Vec<Vec<String>>,
    number_of_ngrams: &NGramCounts,
    number_of_distinct_ngrams: &NGramCounts,
    use_max: bool,
) -> (res: Result<Option<PredictionTerms>, String>)
    ensures
        match sentence_prediction(
            r.sentence@,
            r.word@,
            r.results@,
            confusion_set.deep_view(),
            *number_of_ngrams,
            *number_of_distinct_ngrams,
            use_max,
        ) {
            None => res matches Err(e) && e@ == "Data integrity error"@,
            Some(None) => res == Ok::<Option<PredictionTerms>, String>(None),
            Some(Some(pv)) => res matches Ok(Some(pt)) && prediction_view(pt) == pv,
        },
{
    let ghost cs = confusion_set.deep_view();
    if r.results.len() > 0x4000_0000 {
        return Err("Data integrity error".to_owned());
    }
    let g = match find_group(confusion_set, r.word.as_str()) {
        Some(g) => g,
        None => {
            return Ok(None);
        },
    };
    let group = &confusion_set[g];
    proof {
        assert(group.deep_view() =~= crate::text::views_of(group@));
        assert(group.deep_view() == cs[g as int]);
    }
    if group.len() > 0x4000_0000 {
        return Err("Data integrity error".to_owned());
    }
    let ghost csg = cs[g as int];
    let mut d: Vec<(String, Vec<(String, i128)>)> = Vec::new();
    proof {
        assert(d_view(d@) =~= buckets_upto(r.results@, csg, 0));
    }
    let mut m: usize = 0;
    while m < r.results.len()
        invariant
            m <= r.results@.len(),
            r.results@.len() <= 0x4000_0000,
            d_view(d@) == buckets_upto(r.results@, csg, m as int),
            d_values_bounded(d_view(d@), (m as int) * 0x1_0000_0000_0000_0000),
        decreases r.results@.len() - m,
    {
        let qr = &r.results[m];
        if qr.length != 1 {
            proof {
                assert((m as int) * 0x1_0000_0000_0000_0000 <= 0x4000_0000
                    * 0x1_0000_0000_0000_0000);
                assert(d_values_bounded(d_view(d@), D_VALUE_BOUND as int));
            }
            fill_results(&mut d, qr, group);
            proof {
                lemma_fill_words_bounded(
                    buckets_upto(r.results@, csg, m as int),
                    qr.input@,
                    qr.frequency as int,
                    csg,
                    csg.len() as int,
                    (m as int) * 0x1_0000_0000_0000_0000 + 0x1_0000_0000,
                );
                assert(csg.len() * 0x1_0000_0000 <= 0x1_0000_0000 * 0x1_0000_0000) by (nonlinear_arith)
                    requires
                        0 <= csg.len() <= 0x1_0000_0000,
                ;
                assert(d_values_bounded(
                    d_view(d@),
                    (m + 1) * 0x1_0000_0000_0000_0000,
                ));
            }
        } else {
            proof {
                assert(d_values_bounded(d_view(d@), (m + 1) * 0x1_0000_0000_0000_0000));
            }
        }
        m += 1;
    }
    let ghost dv = d_view(d@);
    let ghost s1 = number_of_ngrams.one + number_of_distinct_ngrams.one;
    let ghost s2 = number_of_ngrams.two + number_of_distinct_ngrams.two;
    let ghost s3 = number_of_ngrams.three + number_of_distinct_ngrams.three;
    let mut out: Vec<(String, Vec<ScoreTerm>)> = Vec::new();
    let mut k: usize = 0;
    while k < d.len()
        invariant
            k <= d@.len(),
            dv == d_view(d@),
            d_values_bounded(dv, (r.results@.len() as int) * 0x1_0000_0000_0000_0000),
            r.results@.len() <= 0x4000_0000,
            cand_results(r.results@, s1, s2, s3, dv, k as int, use_max) == Some(cand_views(out@)),
        decreases d@.len() - k,
    {
        let w = &d[k].0;
        proof {
            assert(dv[k as int].0 == w@);
        }
        let uf = match uni_lookup_exec(&r.results, w.as_str()) {
            Some(uf) => uf,
            None => {
                proof {
                    assert(cand_results(r.results@, s1, s2, s3, dv, k + 1, use_max) is None);
                    lemma_cand_results_none(
                        r.results@,
                        s1,
                        s2,
                        s3,
                        dv,
                        k + 1,
                        dv.len() as int,
                        use_max,
                    );
                }
                return Err("Data integrity error".to_owned());
            },
        };
        let bucket = clone_bucket(&d[k].1);
        proof {
            assert(bucket_view(bucket@) == dv[k as int].1);
            assert forall|j: int|
                0 <= j < bucket@.len() implies (#[trigger] bucket@[j]).1 < i128::MAX by {
                assert(-((r.results@.len() as int) * 0x1_0000_0000_0000_0000) <= dv[k as int].1[j].1
                    <= (r.results@.len() as int) * 0x1_0000_0000_0000_0000);
                assert((r.results@.len() as int) * 0x1_0000_0000_0000_0000 <= 0x4000_0000
                    * 0x1_0000_0000_0000_0000);
            }
        }
        let lap = LaplaceSmoothingResult::get(bucket, number_of_ngrams, number_of_distinct_ngrams);
        let ghost sb = smoothed_bucket(dv[k as int].1);
        proof {
            assert(bucket_view(lap.results@) =~= sb);
            assert(lap.n_gram_counts.one == s1);
            assert(lap.n_gram_counts.two == s2);
            assert(lap.n_gram_counts.three == s3);
        }
        let mut terms: Vec<ScoreTerm> = Vec::new();
        let mut pairs: Vec<(i128, i128)> = Vec::new();
        let mut e: usize = 0;
        while e < lap.results.len()
            invariant
                e <= lap.results@.len(),
                bucket_view(lap.results@) == sb,
                lap.n_gram_counts.one == s1,
                lap.n_gram_counts.two == s2,
                lap.n_gram_counts.three == s3,
                terms@.len() == e,
                pairs@.len() == e,
                terms_list(uf as int, s1, s2, s3, sb, e as int) == Some(term_views(terms@)),
                forall|a: int|
                    0 <= a < e ==> (#[trigger] terms@[a]).numerator == uf * pairs@[a].0
                        && terms@[a].denominator == s1 * pairs@[a].1 && 0 < pairs@[a].1
                        <= i64::MAX && -i64::MAX <= pairs@[a].0 <= i64::MAX && 0 < s1 <= i64::MAX,
            decreases lap.results@.len() - e,
        {
            let entry = &lap.results[e];
            proof {
                assert(sb[e as int] == (entry.0@, entry.1 as int));
            }
            let l = count_tokens(entry.0.as_str());
            let nl: i128 = if l == 1 {
                lap.n_gram_counts.one
            } else if l == 2 {
                lap.n_gram_counts.two
            } else if l == 3 {
                lap.n_gram_counts.three
            } else {
                proof {
                    assert(term_of(uf as int, s1, s2, s3, sb[e as int]) is None);
                    assert(terms_list(uf as int, s1, s2, s3, sb, e + 1) is None);
                    lemma_terms_list_none(uf as int, s1, s2, s3, sb, e + 1, sb.len() as int);
                    assert(cand_results(r.results@, s1, s2, s3, dv, k + 1, use_max) is None);
                    lemma_cand_results_none(
                        r.results@,
                        s1,
                        s2,
                        s3,
                        dv,
                        k + 1,
                        dv.len() as int,
                        use_max,
                    );
                }
                return Err("Data integrity error".to_owned());
            };
            if !(0 < nl && nl <= i64::MAX as i128) || !(0 < lap.n_gram_counts.one
                && lap.n_gram_counts.one <= i64::MAX as i128) || !(-(i64::MAX as i128) <= entry.1
                && entry.1 <= i64::MAX as i128) {
                proof {
                    assert(term_of(uf as int, s1, s2, s3, sb[e as int]) is None);
                    assert(terms_list(uf as int, s1, s2, s3, sb, e + 1) is None);
                    lemma_terms_list_none(uf as int, s1, s2, s3, sb, e + 1, sb.len() as int);
                    assert(cand_results(r.results@, s1, s2, s3, dv, k + 1, use_max) is None);
                    lemma_cand_results_none(
                        r.results@,
                        s1,
                        s2,
                        s3,
                        dv,
                        k + 1,
                        dv.len() as int,
                        use_max,
                    );
                }
                return Err("Data integrity error".to_owned());
            }
            proof {
                assert((uf as int) * (entry.1 as int) <= 0x8000_0000 * 0x7fff_ffff_ffff_ffff
                    && (uf as int) * (entry.1 as int) >= -0x8000_0000 * 0x7fff_ffff_ffff_ffff)
                    by (nonlinear_arith)
                    requires
                        -0x8000_0000 <= uf as int <= 0x8000_0000,
                        -0x7fff_ffff_ffff_ffff <= entry.1 as int <= 0x7fff_ffff_ffff_ffff,
                ;
                assert(0 < s1 * (nl as int) <= 0x7fff_ffff_ffff_ffff * 0x7fff_ffff_ffff_ffff)
                    by (nonlinear_arith)
                    requires
                        0 < s1 <= 0x7fff_ffff_ffff_ffff,
                        0 < nl as int <= 0x7fff_ffff_ffff_ffff,
                ;
            }
            let ghost prev_terms = terms@;
            let num = (uf as i128) * entry.1;
            let den = lap.n_gram_counts.one * nl;
            terms.push(
                ScoreTerm {
                    numerator: num,
                    denominator: den,
                    count: entry.1,
                    arity_total: nl,
                    length: l as i32,
                },
            );
            pairs.push((entry.1, nl));
            proof {
                assert(term_of(uf as int, s1, s2, s3, sb[e as int]) == Some(
                    (uf * (entry.1 as int), s1 * (nl as int)),
                ));
                assert forall|a: int|
                    0 <= a < terms@.len() implies term_views(terms@)[a] == term_views(
                    prev_terms,
                ).push((num as int, den as int))[a] by {
                    if a < prev_terms.len() {
                        assert(terms@[a] == prev_terms[a]);
                    }
                }
                assert(term_views(terms@) =~= term_views(prev_terms).push(
                    (num as int, den as int),
                ));
            }
            e += 1;
        }
        proof {
            assert(sb.len() == lap.results@.len());
        }
        let chosen: Vec<ScoreTerm> = if use_max && terms.len() > 0 {
            let mut best: usize = 0;
            let mut b: usize = 1;
            while b < terms.len()
                invariant
                    1 <= b <= terms@.len(),
                    best < b,
                    terms@.len() == pairs@.len(),
                    forall|a: int|
                        0 <= a < terms@.len() ==> (#[trigger] terms@[a]).numerator == uf
                            * pairs@[a].0 && terms@[a].denominator == s1 * pairs@[a].1 && 0
                            < pairs@[a].1 <= i64::MAX && -i64::MAX <= pairs@[a].0 <= i64::MAX && 0
                            < s1 <= i64::MAX,
                    best == best_of(term_views(terms@), b as int),
                decreases terms@.len() - b,
            {
                proof {
                    assert(terms@[b as int].numerator == uf * pairs@[b as int].0);
                    assert(terms@[best as int].numerator == uf * pairs@[best as int].0);
                    assert((pairs@[b as int].0) * (pairs@[best as int].1) <= 0x7fff_ffff_ffff_ffff
                        * 0x7fff_ffff_ffff_ffff && (pairs@[b as int].0) * (pairs@[best as int].1)
                        >= -0x7fff_ffff_ffff_ffff * 0x7fff_ffff_ffff_ffff) by (nonlinear_arith)
                        requires
                            -0x7fff_ffff_ffff_ffff <= pairs@[b as int].0 <= 0x7fff_ffff_ffff_ffff,
                            0 < pairs@[best as int].1 <= 0x7fff_ffff_ffff_ffff,
                    ;
                    assert((pairs@[best as int].0) * (pairs@[b as int].1) <= 0x7fff_ffff_ffff_ffff
                        * 0x7fff_ffff_ffff_ffff && (pairs@[best as int].0) * (pairs@[b as int].1)
                        >= -0x7fff_ffff_ffff_ffff * 0x7fff_ffff_ffff_ffff) by (nonlinear_arith)
                        requires
                            -0x7fff_ffff_ffff_ffff <= pairs@[best as int].0
                                <= 0x7fff_ffff_ffff_ffff,
                            0 < pairs@[b as int].1 <= 0x7fff_ffff_ffff_ffff,
                    ;
                }
                let lhs = pairs[b].0 * pairs[best].1;
                let rhs = pairs[best].0 * pairs[b].1;
                let better = if uf > 0 {
                    lhs > rhs
                } else if uf < 0 {
                    lhs < rhs
                } else {
                    false
                };
                proof {
                    lemma_fraction_compare(
                        uf as int,
                        s1,
                        pairs@[b as int].0 as int,
                        pairs@[best as int].1 as int,
                        pairs@[best as int].0 as int,
                        pairs@[b as int].1 as int,
                    );
                    assert(better == (term_views(terms@)[b as int].0 * term_views(terms@)[
                        best as int].1 > term_views(terms@)[best as int].0 * term_views(terms@)[
                        b as int].1));
                }
                if better {
                    best = b;
                }
                b += 1;
            }
            let mut single: Vec<ScoreTerm> = Vec::new();
            single.push(
                ScoreTerm {
                    numerator: terms[best].numerator,
                    denominator: terms[best].denominator,
                    count: terms[best].count,
                    arity_total: terms[best].arity_total,
                    length: terms[best].length,
                },
            );
            proof {
                assert(term_views(single@) =~= seq![
                    term_views(terms@)[best_of(
                        term_views(terms@),
                        term_views(terms@).len() as int,
                    )],
                ]);
            }
            single
        } else {
            terms
        };
        let ghost prevout = out@;
        let ghost chosen_view = term_views(chosen@);
        let wkey = w.clone();
        out.push((wkey, chosen));
        proof {
            assert forall|a: int|
                0 <= a < out@.len() implies #[trigger] cand_views(out@)[a] == cand_views(
                prevout,
            ).push((dv[k as int].0, chosen_view))[a] by {
                if a < prevout.len() {
                    assert(out@[a] == prevout[a]);
                }
            }
            assert(cand_views(out@) =~= cand_views(prevout).push((dv[k as int].0, chosen_view)));
        }
        k += 1;
    }
    Ok(
        Some(
            PredictionTerms {
                context: r.sentence.clone(),
                word_examined: r.word.clone(),
                results: out,
            },
        ),
    )
}

proof fn lemma_predictions_none(
    results: Seq<SentenceResult>,
    cs: Seq<Seq<Seq<char>>>,
    counts: NGramCounts,
    distinct: NGramCounts,
    use_max: bool,
    i: int,
    i2: int,
)
    requires
        predictions_upto(results, cs, counts, distinct, use_max, i) is None,
        i <= i2,
    ensures
        predictions_upto(results, cs, counts, distinct, use_max, i2) is None,
    decreases i2 - i,
{
    if i < i2 {
        lemma_predictions_none(results, cs, counts, distinct, use_max, i, i2 - 1);
    }
}

/// Shared driver of both ranking rules: one prediction per covered sentence
/// result, in order.
#[verifier::loop_isolation(false)]
fn predict_all(
    data: &TimedSentenceResults,
    confusion_set: &Vec<Vec<String>>,
    number_of_ngrams: &NGramCounts,
    number_of_distinct_ngrams: &NGramCounts,
    use_max: bool,
) -> (r: Result<Vec<PredictionTerms>, String>)
    ensures
        ({
            let folded = predictions_upto(
                data.results@,
                confusion_set.deep_view(),
                *number_of_ngrams,
                *number_of_distinct_ngrams,
                use_max,
                data.results@.len() as int,
            );
            &&& (r is Ok <==> folded is Some)
            &&& (r matches Ok(out) ==> Some(prediction_views(out@)) == folded)
            &&& (r matches Err(e) ==> e@ == "Data integrity error"@)
        }),
{
    let ghost cs = confusion_set.deep_view();
    let ghost counts = *number_of_ngrams;
    let ghost distinct = *number_of_distinct_ngrams;
    let mut out: Vec<PredictionTerms> = Vec::new();
    proof {
        assert(prediction_views(out@) =~= Seq::<
            (Seq<char>, Seq<char>, Seq<(Seq<char>, Seq<(int, int)>)>),
        >::empty());
    }
    let mut i: usize = 0;
    while i < data.results.len()
        invariant
            i <= data.results@.len(),
            predictions_upto(data.results@, cs, counts, distinct, use_max, i as int) == Some(
                prediction_views(out@),
            ),
        decreases data.results@.len() - i,
    {
        let r = &data.results[i];
        match predict_sentence(
            r,
            confusion_set,
            number_of_ngrams,
            number_of_distinct_ngrams,
            use_max,
        ) {
            Ok(Some(pt)) => {
                let ghost pv = prediction_view(pt);
                let ghost prev = out@;
                out.push(pt);
                proof {
                    assert forall|a: int|
                        0 <= a < out@.len() implies #[trigger] prediction_views(out@)[a]
                        == prediction_views(prev).push(pv)[a] by {
                        if a < prev.len() {
                            assert(out@[a] == prev[a]);
                        }
                    }
                    assert(prediction_views(out@) =~= prediction_views(prev).push(pv));
                }
            },
            Ok(None) => {},
            Err(e) => {
                proof {
                    assert(predictions_upto(
                        data.results@,
                        cs,
                        counts,
                        distinct,
                        use_max,
                        i + 1,
                    ) is None);
                    lemma_predictions_none(
                        data.results@,
                        cs,
                        counts,
                        distinct,
                        use_max,
                        i + 1,
                        data.results@.len() as int,
                    );
                }
                return Err(e);
            },
        }
        i += 1;
    }
    Ok(out)
}

/// The max-likelihood ranking rule: each candidate keeps the single highest
/// score fraction.
pub struct MaxPredictor {}

impl MaxPredictor {
    /// Predicts per sentence result: each candidate of the covering group
    /// gets its single best smoothed score fraction.
    pub fn predict(
        &self,
        data: &TimedSentenceResults,
        confusion_set: &Vec<Vec<String>>,
        number_of_ngrams: &NGramCounts,
        number_of_distinct_ngrams: &NGramCounts,
    ) -> (r: Result<Vec<PredictionTerms>, String>)
        ensures
            ({
                let folded = predictions_upto(
                    data.results@,
                    confusion_set.deep_view(),
                    *number_of_ngrams,
                    *number_of_distinct_ngrams,
                    true,
                    data.results@.len() as int,
                );
                &&& (r is Ok <==> folded is Some)
                &&& (r matches Ok(out) ==> Some(prediction_views(out@)) == folded)
                &&& (r matches Err(e) ==> e@ == "Data integrity error"@)
            }),
    {
        predict_all(data, confusion_set, number_of_ngrams, number_of_distinct_ngrams, true)
    }
}

/// The summed-likelihood ranking rule: each candidate keeps every score
/// fraction, for the caller to sum.
pub struct SumPredictor {}

impl SumPredictor {
    /// Predicts per sentence result: each candidate of the covering group
    /// gets all its smoothed score fractions.
    pub fn predict(
        &self,
        data: &TimedSentenceResults,
        confusion_set: &Vec<Vec<String>>,
        number_of_ngrams: &NGramCounts,
        number_of_distinct_ngrams: &NGramCounts,
    ) -> (r: Result<Vec<PredictionTerms>, String>)
        ensures
            ({
                let folded = predictions_upto(
                    data.results@,
                    confusion_set.deep_view(),
                    *number_of_ngrams,
                    *number_of_distinct_ngrams,
                    false,
                    data.results@.len() as int,
                );
                &&& (r is Ok <==> folded is Some)
                &&& (r matches Ok(out) ==> Some(prediction_views(out@)) == folded)
                &&& (r matches Err(e) ==> e@ == "Data integrity error"@)
            }),
    {
        predict_all(data, confusion_set, number_of_ngrams, number_of_distinct_ngrams, false)
    }
}

} // verus!
