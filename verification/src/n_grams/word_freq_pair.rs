//! Candidate words and their corpus frequencies, ordered most frequent
//! first.

use vstd::prelude::*;

verus! {

broadcast use vstd::seq_lib::group_to_multiset_ensures;

/// How many word-frequency pairs a varying slot keeps by default.
pub const DEFAULT_AMOUNT_OF_WORD_FREQ_PAIRS: i32 = 50;

/// A candidate word and its corpus frequency.
pub struct WordFreqPair {
    pub word: String,
    pub frequency: i32,
}

/// Frequencies never increase along the list.
pub open spec fn sorted_desc(s: Seq<WordFreqPair>) -> bool {
    forall|i: int, j: int| 0 <= i < j < s.len() ==> s[i].frequency >= s[j].frequency
}

/// The earliest pair whose word is `w`, if any.
pub open spec fn find_pair(pairs: Seq<WordFreqPair>, w: Seq<char>) -> Option<WordFreqPair>
    decreases pairs.len(),
{
    if pairs.len() == 0 {
        None
    } else if pairs[0].word@ == w {
        Some(pairs[0])
    } else {
        find_pair(pairs.drop_first(), w)
    }
}

/// The pair a returned row denotes.
pub open spec fn pair_of_row(row: (String, i32)) -> WordFreqPair {
    WordFreqPair { word: row.0, frequency: row.1 }
}

/// The pairs a list of returned rows denotes.
pub open spec fn rows_pairs(rows: Seq<(String, i32)>) -> Seq<WordFreqPair> {
    rows.map_values(|row: (String, i32)| pair_of_row(row))
}

/// Inserts `p` behind every pair at least as frequent.
pub open spec fn insert_by_freq(s: Seq<WordFreqPair>, p: WordFreqPair) -> Seq<WordFreqPair>
    decreases s.len(),
{
    if s.len() == 0 {
        seq![p]
    } else if s[0].frequency >= p.frequency {
        seq![s[0]] + insert_by_freq(s.drop_first(), p)
    } else {
        seq![p] + s
    }
}

/// The stable descending-frequency ordering of `s`: pairs of equal frequency
/// keep their relative order.
pub open spec fn ranked(s: Seq<WordFreqPair>) -> Seq<WordFreqPair>
    decreases s.len(),
{
    if s.len() == 0 {
        Seq::empty()
    } else {
        insert_by_freq(ranked(s.drop_last()), s.last())
    }
}

proof fn lemma_insert_by_freq_at(s: Seq<WordFreqPair>, p: WordFreqPair, pos: int)
    requires
        0 <= pos <= s.len(),
        forall|k: int| 0 <= k < pos ==> s[k].frequency >= p.frequency,
        pos < s.len() ==> s[pos].frequency < p.frequency,
    ensures
        insert_by_freq(s, p) == s.insert(pos, p),
    decreases pos,
{
    if pos == 0 {
        if s.len() == 0 {
            assert(insert_by_freq(s, p) =~= s.insert(0, p));
        } else {
            assert(s[0].frequency < p.frequency);
            assert(seq![p] + s =~= s.insert(0, p));
        }
    } else {
        assert(s[0].frequency >= p.frequency);
        lemma_insert_by_freq_at(s.drop_first(), p, pos - 1);
        assert(seq![s[0]] + s.drop_first().insert(pos - 1, p) =~= s.insert(pos, p));
    }
}

proof fn lemma_find_pair_at(pairs: Seq<WordFreqPair>, w: Seq<char>, i: int)
    requires
        0 <= i < pairs.len(),
        forall|j: int| 0 <= j < i ==> pairs[j].word@ != w,
        pairs[i].word@ == w,
    ensures
        find_pair(pairs, w) == Some(pairs[i]),
    decreases i,
{
    if i > 0 {
        lemma_find_pair_at(pairs.drop_first(), w, i - 1);
    }
}

proof fn lemma_find_pair_none(pairs: Seq<WordFreqPair>, w: Seq<char>)
    requires
        forall|j: int| 0 <= j < pairs.len() ==> pairs[j].word@ != w,
    ensures
        find_pair(pairs, w) is None,
    decreases pairs.len(),
{
    if pairs.len() > 0 {
        lemma_find_pair_none(pairs.drop_first(), w);
    }
}

impl WordFreqPair {
    /// Builds a pair from a word and its frequency.
    pub fn new(word: String, frequency: i32) -> (r: WordFreqPair)
        ensures
            r.word == word,
            r.frequency == frequency,
    {
        WordFreqPair { word, frequency }
    }

    /// Materializes returned rows into pairs, most frequent first; rows of
    /// equal frequency keep their arrival order.
    pub fn from_rows(rows: Vec<(String, i32)>) -> (r: Vec<WordFreqPair>)
        ensures
            r@ == ranked(rows_pairs(rows@)),
            r@.len() == rows@.len(),
            sorted_desc(r@),
            r@.to_multiset() == rows_pairs(rows@).to_multiset(),
    {
        let ghost mapped = rows@.map_values(|row: (String, i32)| pair_of_row(row));
        let mut out: Vec<WordFreqPair> = Vec::new();
        let mut i: usize = 0;
        proof {
            assert(mapped.take(0) =~= Seq::<WordFreqPair>::empty());
            assert(out@.to_multiset() =~= mapped.take(0).to_multiset());
        }
        while i < rows.len()
            invariant
                i <= rows@.len(),
                mapped == rows@.map_values(|row: (String, i32)| pair_of_row(row)),
                out@.len() == i,
                sorted_desc(out@),
                out@ == ranked(mapped.take(i as int)),
                out@.to_multiset() == mapped.take(i as int).to_multiset(),
            decreases rows@.len() - i,
        {
            let (word, frequency) = (rows[i].0.clone(), rows[i].1);
            let pair = WordFreqPair { word, frequency };
            proof {
                assert(pair == mapped[i as int]);
                assert(mapped.take(i + 1).drop_last() =~= mapped.take(i as int));
                assert(mapped.take(i + 1) =~= mapped.take(i as int).push(mapped[i as int]));
            }
            insert_sorted(&mut out, pair);
            proof {
                assert(mapped.take(i + 1).to_multiset() =~= mapped.take(
                    i as int,
                ).to_multiset().insert(mapped[i as int]));
                assert(out@ == ranked(mapped.take(i + 1)));
            }
            i += 1;
        }
        proof {
            assert(mapped.take(rows@.len() as int) =~= mapped);
            assert(mapped == rows_pairs(rows@));
        }
        out
    }

    /// Finds the pair for `word`, if the list holds one.
    pub fn find<'a>(pairs: &'a Vec<WordFreqPair>, word: &str) -> (r: Option<&'a WordFreqPair>)
        ensures
            match r {
                Some(p) => find_pair(pairs@, word@) == Some(*p),
                None => find_pair(pairs@, word@) is None,
            },
    {
        let mut i: usize = 0;
        while i < pairs.len()
            invariant
                i <= pairs@.len(),
                forall|j: int| 0 <= j < i ==> pairs@[j].word@ != word@,
            decreases pairs@.len() - i,
        {
            if crate::text::str_eq(pairs[i].word.as_str(), word) {
                proof {
                    lemma_find_pair_at(pairs@, word@, i as int);
                }
                return Some(&pairs[i]);
            }
            i += 1;
        }
        proof {
            lemma_find_pair_none(pairs@, word@);
        }
        None
    }
}

/// Inserts a pair behind every at-least-as-frequent one, keeping the list
/// sorted by descending frequency.
fn insert_sorted(out: &mut Vec<WordFreqPair>, pair: WordFreqPair)
    requires
        sorted_desc(old(out)@),
    ensures
        final(out)@.len() == old(out)@.len() + 1,
        sorted_desc(final(out)@),
        final(out)@ == insert_by_freq(old(out)@, pair),
        final(out)@.to_multiset() == old(out)@.to_multiset().insert(pair),
{
    let mut pos: usize = 0;
    while pos < out.len() && out[pos].frequency >= pair.frequency
        invariant
            pos <= out@.len(),
            out@ == old(out)@,
            forall|k: int| 0 <= k < pos ==> out@[k].frequency >= pair.frequency,
        decreases out@.len() - pos,
    {
        pos += 1;
    }
    proof {
        if pos < out@.len() {
            assert(out@[pos as int].frequency < pair.frequency);
        }
    }
    let ghost prev = out@;
    out.insert(pos, pair);
    proof {
        assert(out@ == prev.insert(pos as int, pair));
        lemma_insert_by_freq_at(prev, pair, pos as int);
        vstd::seq_lib::to_multiset_insert(prev, pos as int, pair);
        assert forall|i: int, j: int| 0 <= i < j < out@.len() implies out@[i].frequency
            >= out@[j].frequency by {
            assert(out@[i] == if i < pos {
                prev[i]
            } else if i == pos {
                pair
            } else {
                prev[i - 1]
            });
            assert(out@[j] == if j < pos {
                prev[j]
            } else if j == pos {
                pair
            } else {
                prev[j - 1]
            });
            if j > pos {
                assert(prev[j - 1].frequency <= pair.frequency) by {
                    if pos < prev.len() {
                        assert(prev[pos as int].frequency < pair.frequency);
                    }
                }
            }
        }
    }
}

} // verus!
