//! Varying n-grams: one slot per varied position with its ranked candidate
//! solutions, and the merged result of a direct n-gram query.

use vstd::prelude::*;

use crate::n_grams::word_freq_pair::{
    find_pair, insert_by_freq, ranked, rows_pairs, sorted_desc, WordFreqPair,
};
use crate::n_grams::{Printable, Queryable};
use crate::text::{count_tokens, lemma_split_ws_len, split_ws};

verus! {

/// One varied position: its index, the word the caller supplied there, and
/// the ranked candidate solutions.
pub struct VaryingNGram {
    pub index: i32,
    pub word: String,
    pub solutions: Vec<WordFreqPair>,
}

impl VaryingNGram {
    /// Builds a slot from its parts.
    pub fn new(index: &i32, word: String, solutions: Vec<WordFreqPair>) -> (r: VaryingNGram)
        ensures
            r.index == *index,
            r.word == word,
            r.solutions == solutions,
    {
        VaryingNGram { index: *index, word, solutions }
    }

    /// The frequency recorded for `word` among a slot's solutions.
    pub fn find_freq(vary: &VaryingNGram, word: &String) -> (r: Result<i32, String>)
        ensures
            match find_pair(vary.solutions@, word@) {
                Some(p) => r == Ok::<i32, String>(p.frequency),
                None => r matches Err(e) && e@ == "No pair found"@,
            },
    {
        let pair = WordFreqPair::find(&vary.solutions, word.as_str());
        match pair {
            Some(pair) => Ok(pair.frequency),
            None => Err("No pair found".to_owned()),
        }
    }
}

/// A solutions list cut down to `amount` entries, when `amount` asks for it.
pub open spec fn truncated(s: Seq<WordFreqPair>, amount: int) -> Seq<WordFreqPair> {
    if 0 <= amount < s.len() {
        s.take(amount)
    } else {
        s
    }
}

/// The ranked solutions a slot's fetched rows yield, before truncation.
pub open spec fn slot_solutions(rows: Seq<(String, i32)>) -> Seq<WordFreqPair> {
    ranked(rows_pairs(rows))
}

/// The frequency reported for the provided n-gram itself: the entry its own
/// word has among the first slot's untruncated solutions, or zero.
pub open spec fn provided_frequency_of(
    word0: Seq<char>,
    fetched: Seq<Vec<(String, i32)>>,
) -> i32 {
    if fetched.len() == 0 {
        0
    } else {
        match find_pair(slot_solutions(fetched[0]@), word0) {
            Some(p) => p.frequency,
            None => 0,
        }
    }
}

proof fn lemma_insert_by_freq_sorted(s: Seq<WordFreqPair>, p: WordFreqPair)
    requires
        sorted_desc(s),
    ensures
        sorted_desc(insert_by_freq(s, p)),
        insert_by_freq(s, p).len() == s.len() + 1,
        forall|x: int|
            0 <= x < insert_by_freq(s, p).len() ==> (#[trigger] insert_by_freq(s, p)[x]) == p
                || exists|y: int| 0 <= y < s.len() && s[y] == insert_by_freq(s, p)[x],
    decreases s.len(),
{
    let r = insert_by_freq(s, p);
    if s.len() == 0 {
    } else if s[0].frequency >= p.frequency {
        assert(sorted_desc(s.drop_first()));
        lemma_insert_by_freq_sorted(s.drop_first(), p);
        let tail = insert_by_freq(s.drop_first(), p);
        assert forall|i: int, j: int| 0 <= i < j < r.len() implies r[i].frequency
            >= r[j].frequency by {
            if i == 0 {
                assert(r[j] == tail[j - 1]);
                if tail[j - 1] == p {
                } else {
                    let y = choose|y: int|
                        0 <= y < s.drop_first().len() && s.drop_first()[y] == tail[j - 1];
                    assert(s[y + 1] == tail[j - 1]);
                }
            } else {
                assert(r[i] == tail[i - 1] && r[j] == tail[j - 1]);
            }
        }
        assert forall|x: int|
            0 <= x < r.len() implies r[x] == p || exists|y: int|
            0 <= y < s.len() && s[y] == r[x] by {
            if x == 0 {
                assert(s[0] == r[0]);
            } else {
                if tail[x - 1] == p {
                } else {
                    let y = choose|y: int|
                        0 <= y < s.drop_first().len() && s.drop_first()[y] == tail[x - 1];
                    assert(s[y + 1] == r[x]);
                }
            }
        }
    } else {
        assert forall|i: int, j: int| 0 <= i < j < r.len() implies r[i].frequency
            >= r[j].frequency by {
            if i == 0 {
                if j == 1 {
                    assert(r[j] == s[0]);
                } else {
                    assert(r[j] == s[j - 1]);
                    assert(s[0].frequency >= s[j - 1].frequency);
                }
            } else {
                assert(r[i] == s[i - 1] && r[j] == s[j - 1]);
            }
        }
        assert forall|x: int|
            0 <= x < r.len() implies r[x] == p || exists|y: int|
            0 <= y < s.len() && s[y] == r[x] by {
            if x > 0 {
                assert(s[x - 1] == r[x]);
            }
        }
    }
}

/// A ranked solutions list is sorted non-increasing by frequency.
pub proof fn lemma_ranked_sorted(s: Seq<WordFreqPair>)
    ensures
        sorted_desc(ranked(s)),
    decreases s.len(),
{
    if s.len() > 0 {
        lemma_ranked_sorted(s.drop_last());
        lemma_insert_by_freq_sorted(ranked(s.drop_last()), s.last());
    }
}

/// Every varying slot's solutions come out sorted non-increasing by
/// frequency, truncated or not.
pub proof fn lemma_slot_solutions_sorted(rows: Seq<(String, i32)>, amount: int)
    ensures
        sorted_desc(truncated(slot_solutions(rows), amount)),
{
    lemma_ranked_sorted(rows_pairs(rows));
    let full = slot_solutions(rows);
    let cut = truncated(full, amount);
    assert forall|i: int, j: int| 0 <= i < j < cut.len() implies cut[i].frequency
        >= cut[j].frequency by {
        assert(cut[i] == full[i] && cut[j] == full[j]);
    }
}

/// A truncated solutions list never exceeds the requested amount.
pub proof fn lemma_truncated_len(s: Seq<WordFreqPair>, amount: int)
    requires
        amount >= 0,
    ensures
        truncated(s, amount).len() <= amount,
{
}

/// Whether two slots record the provided n-gram's own word consistently:
/// present in both with one frequency, or absent from both.
pub open spec fn lookup_agrees(a: VaryingNGram, b: VaryingNGram) -> bool {
    match (find_pair(a.solutions@, a.word@), find_pair(b.solutions@, b.word@)) {
        (Some(x), Some(y)) => x.frequency == y.frequency,
        (None, None) => true,
        _ => false,
    }
}

/// When every slot records the provided n-gram consistently — which the
/// redundant table layout guarantees, since the same n-gram is stored under
/// each partitioning — the frequency reported from the first slot matches the
/// entry of every slot where the provided word appears.
pub proof fn lemma_provided_frequency_agrees(vary: Seq<VaryingNGram>, provided: i32)
    requires
        vary.len() > 0,
        match find_pair(vary[0].solutions@, vary[0].word@) {
            Some(p) => provided == p.frequency,
            None => provided == 0,
        },
        forall|k: int, l: int|
            0 <= k < vary.len() && 0 <= l < vary.len() ==> #[trigger] lookup_agrees(
                vary[k],
                vary[l],
            ),
    ensures
        forall|k: int|
            0 <= k < vary.len() ==> match #[trigger] find_pair(vary[k].solutions@, vary[k].word@) {
                Some(p) => p.frequency == provided,
                None => true,
            },
{
    assert forall|k: int|
        0 <= k < vary.len() implies match #[trigger] find_pair(
        vary[k].solutions@,
        vary[k].word@,
    ) {
        Some(p) => p.frequency == provided,
        None => true,
    } by {
        assert(lookup_agrees(vary[k], vary[0]));
    }
}

/// The merged answer to a direct n-gram query.
pub struct VaryingQueryResult {
    pub time_taken: String,
    pub n_gram_length: i32,
    pub provided_n_gram: String,
    pub provided_n_gram_frequency: i32,
    pub varying_indexes: Vec<i32>,
    pub vary: Vec<VaryingNGram>,
}

impl VaryingQueryResult {
    /// Merges an exact-match lookup: the row's frequency when the corpus has
    /// the n-gram, zero otherwise, with no varying slots.
    pub fn get_one<T: Queryable + Printable>(
        input: &T,
        frequency_row: Option<i32>,
        time_taken: String,
    ) -> (r: VaryingQueryResult)
        requires
            input.text().len() <= i32::MAX,
        ensures
            r.time_taken == time_taken,
            r.n_gram_length == split_ws(input.text()).len(),
            r.provided_n_gram@ == input.text(),
            r.provided_n_gram_frequency == (match frequency_row {
                Some(f) => f,
                None => 0,
            }),
            r.varying_indexes@.len() == 0,
            r.vary@.len() == 0,
    {
        let provided = input.print();
        proof {
            lemma_split_ws_len(input.text());
        }
        let length = count_tokens(provided.as_str());
        let frequency = match frequency_row {
            Some(f) => f,
            None => 0,
        };
        VaryingQueryResult {
            time_taken,
            n_gram_length: length as i32,
            provided_n_gram: provided,
            provided_n_gram_frequency: frequency,
            varying_indexes: Vec::new(),
            vary: Vec::new(),
        }
    }

    /// Merges the per-index fetches of a varying query: one slot per
    /// requested index, in request order, each ranked most-frequent-first and
    /// cut to `amount` entries; the provided n-gram's own frequency is read
    /// from the first slot before truncation. A negative `amount` keeps every
    /// entry. Any index outside the n-gram fails the whole call.
    pub fn get_varying<T: Queryable + Printable>(
        input: &T,
        varying_indexes: Vec<i32>,
        amount: i32,
        fetched: Vec<Vec<(String, i32)>>,
        time_taken: String,
    ) -> (r: Result<VaryingQueryResult, String>)
        requires
            fetched@.len() == varying_indexes@.len(),
            input.text().len() <= i32::MAX,
        ensures
            r is Ok <==> (forall|k: int|
                0 <= k < varying_indexes@.len() ==> 1 <= #[trigger] varying_indexes@[k]
                    <= input.arity()),
            r matches Err(e) ==> e@ == "Invalid index"@,
            r matches Ok(res) ==> ({
                let n = varying_indexes@.len();
                &&& res.time_taken == time_taken
                &&& res.n_gram_length == split_ws(input.text()).len()
                &&& res.provided_n_gram@ == input.text()
                &&& res.varying_indexes == varying_indexes
                &&& res.vary@.len() == n
                &&& forall|k: int|
                    0 <= k < n ==> (#[trigger] res.vary@[k]).index == varying_indexes@[k]
                &&& forall|k: int|
                    0 <= k < n ==> (#[trigger] res.vary@[k]).word@ == input.words()[
                        varying_indexes@[k] - 1]
                &&& forall|k: int|
                    0 <= k < n ==> (#[trigger] res.vary@[k]).solutions@ == truncated(
                        slot_solutions(fetched@[k]@),
                        amount as int,
                    )
                &&& res.provided_n_gram_frequency == provided_frequency_of(
                    input.words()[varying_indexes@[0] - 1],
                    fetched@,
                )
            }),
    {
        proof {
            input.arity_is_len();
            lemma_split_ws_len(input.text());
        }
        let ghost all_fetched = fetched@;
        let mut fetched = fetched;
        let provided = input.print();
        let length = count_tokens(provided.as_str());
        let mut vary: Vec<VaryingNGram> = Vec::new();
        let mut provided_n_gram_frequency: i32 = 0;
        let mut k: usize = 0;
        while k < varying_indexes.len()
            invariant
                k <= varying_indexes@.len(),
                fetched@ =~= all_fetched.skip(k as int),
                all_fetched.len() == varying_indexes@.len(),
                vary@.len() == k,
                forall|m: int| 0 <= m < k ==> 1 <= #[trigger] varying_indexes@[m] <= input.arity(),
                forall|m: int|
                    0 <= m < k ==> (#[trigger] vary@[m]).index == varying_indexes@[m],
                forall|m: int|
                    0 <= m < k ==> (#[trigger] vary@[m]).word@ == input.words()[varying_indexes@[m]
                        - 1],
                forall|m: int|
                    0 <= m < k ==> (#[trigger] vary@[m]).solutions@ == truncated(
                        slot_solutions(all_fetched[m]@),
                        amount as int,
                    ),
                k == 0 ==> provided_n_gram_frequency == 0,
                k > 0 ==> provided_n_gram_frequency == provided_frequency_of(
                    input.words()[varying_indexes@[0] - 1],
                    all_fetched,
                ),
            decreases varying_indexes@.len() - k,
        {
            let index = varying_indexes[k];
            let word = match input.get_word(index) {
                Ok(w) => w.clone(),
                Err(e) => {
                    return Err(e);
                },
            };
            let rows = fetched.remove(0);
            proof {
                assert(all_fetched.skip(k as int)[0] == all_fetched[k as int]);
                assert(all_fetched.skip(k as int).remove(0) =~= all_fetched.skip(k + 1));
            }
            let solutions_full = WordFreqPair::from_rows(rows);
            if k == 0 {
                provided_n_gram_frequency = match WordFreqPair::find(
                    &solutions_full,
                    word.as_str(),
                ) {
                    Some(p) => p.frequency,
                    None => 0,
                };
            }
            let mut solutions = solutions_full;
            if amount >= 0 {
                solutions.truncate(amount as usize);
            }
            proof {
                assert(solutions@ == truncated(slot_solutions(all_fetched[k as int]@), amount as int));
            }
            vary.push(VaryingNGram { index, word, solutions });
            k += 1;
        }
        Ok(
            VaryingQueryResult {
                time_taken,
                n_gram_length: length as i32,
                provided_n_gram: provided,
                provided_n_gram_frequency,
                varying_indexes,
                vary,
            },
        )
    }
}

} // verus!
