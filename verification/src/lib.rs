//! Context-sensitive word-choice scoring over a precomputed n-gram corpus:
//! request parsing, query planning, result merging and the integer core of
//! the Laplace-smoothed predictor.

pub mod db;
pub mod error_handler;
pub mod n_grams;
pub mod text;

use vstd::prelude::*;

use crate::text::{
    comma_seq, confusion_set_of, i32_of_str, i64_of_str, lines_of, lines_str, parse_i32, parse_i64,
    split_on, split_str, split_ws, split_ws_str, str_eq, views_of,
};

verus! {

/// Key/value pairs of a request's query string; the earliest entry for a key
/// wins.
pub struct QueryMap {
    pub entries: Vec<(String, String)>,
}

/// The value the earliest entry with key `k` holds, if any.
pub open spec fn map_get(entries: Seq<(String, String)>, k: Seq<char>) -> Option<Seq<char>>
    decreases entries.len(),
{
    if entries.len() == 0 {
        None
    } else if entries[0].0@ == k {
        Some(entries[0].1@)
    } else {
        map_get(entries.drop_first(), k)
    }
}

proof fn lemma_map_get_at(entries: Seq<(String, String)>, k: Seq<char>, i: int)
    requires
        0 <= i < entries.len(),
        forall|j: int| 0 <= j < i ==> entries[j].0@ != k,
        entries[i].0@ == k,
    ensures
        map_get(entries, k) == Some(entries[i].1@),
    decreases i,
{
    if i > 0 {
        lemma_map_get_at(entries.drop_first(), k, i - 1);
    }
}

proof fn lemma_map_get_none(entries: Seq<(String, String)>, k: Seq<char>)
    requires
        forall|j: int| 0 <= j < entries.len() ==> entries[j].0@ != k,
    ensures
        map_get(entries, k) is None,
    decreases entries.len(),
{
    if entries.len() > 0 {
        lemma_map_get_none(entries.drop_first(), k);
    }
}

impl QueryMap {
    /// The value stored under key `k`, if any.
    pub open spec fn spec_get(&self, k: Seq<char>) -> Option<Seq<char>> {
        map_get(self.entries@, k)
    }

    /// An empty map.
    pub fn new() -> (r: QueryMap)
        ensures
            r.entries@.len() == 0,
            forall|k: Seq<char>| #[trigger] r.spec_get(k) is None,
    {
        QueryMap { entries: Vec::new() }
    }

    /// Stores `value` under `key`, hiding any earlier entry for it.
    pub fn insert(&mut self, key: String, value: String)
        ensures
            final(self).entries@ == seq![(key, value)] + old(self).entries@,
            final(self).spec_get(key@) == Some(value@),
            forall|k2: Seq<char>| k2 != key@ ==> #[trigger] final(self).spec_get(k2) == old(
                self,
            ).spec_get(k2),
    {
        self.entries.insert(0, (key, value));
        proof {
            assert(self.entries@ =~= seq![(key, value)] + old(self).entries@);
            assert forall|k2: Seq<char>| k2 != key@ implies #[trigger] self.spec_get(k2) == old(
                self,
            ).spec_get(k2) by {
                assert(self.entries@.drop_first() =~= old(self).entries@);
            }
            assert(self.entries@.drop_first() =~= old(self).entries@);
        }
    }

    /// Looks the key up.
    pub fn get(&self, key: &str) -> (r: Option<&String>)
        ensures
            match r {
                Some(v) => self.spec_get(key@) == Some(v@),
                None => self.spec_get(key@) is None,
            },
    {
        let mut i: usize = 0;
        while i < self.entries.len()
            invariant
                i <= self.entries@.len(),
                forall|j: int| 0 <= j < i ==> self.entries@[j].0@ != key@,
            decreases self.entries@.len() - i,
        {
            if str_eq(self.entries[i].0.as_str(), key) {
                proof {
                    lemma_map_get_at(self.entries@, key@, i as int);
                }
                return Some(&self.entries[i].1);
            }
            i += 1;
        }
        proof {
            lemma_map_get_none(self.entries@, key@);
        }
        None
    }
}

/// A request body carrying the text to check.
pub struct FormData {
    pub text: String,
}

/// Corpus-wide totals for the three n-gram arities.
#[derive(Clone, Copy, PartialEq, Eq, Structural, Debug)]
pub struct NGramCounts {
    pub one: i64,
    pub two: i64,
    pub three: i64,
}

impl NGramCounts {
    /// The total for arity `n`, when `n` is one of 1, 2, 3.
    pub open spec fn spec_get(&self, n: int) -> Option<i64> {
        if n == 1 {
            Some(self.one)
        } else if n == 2 {
            Some(self.two)
        } else if n == 3 {
            Some(self.three)
        } else {
            None
        }
    }

    /// The total for arity `n`, when `n` is one of 1, 2, 3.
    pub fn get(&self, n: i32) -> (r: Option<i64>)
        ensures
            r == self.spec_get(n as int),
    {
        if n == 1 {
            Some(self.one)
        } else if n == 2 {
            Some(self.two)
        } else if n == 3 {
            Some(self.three)
        } else {
            None
        }
    }
}

/// Well-parsed varying indexes: each part a number.
pub open spec fn all_parse_i32(parts: Seq<Seq<char>>) -> bool {
    forall|i: int| 0 <= i < parts.len() ==> (#[trigger] i32_of_str(parts[i])) is Some
}

/// The numbers the parts denote.
pub open spec fn parsed_values(parts: Seq<Seq<char>>) -> Seq<i32> {
    Seq::new(parts.len(), |i: int| i32_of_str(parts[i]).unwrap())
}

/// All indexes lie in 1..=n and are pairwise distinct.
pub open spec fn valid_indexes(s: Seq<i32>, n: int) -> bool {
    &&& forall|i: int| 0 <= i < s.len() ==> 1 <= #[trigger] s[i] <= n
    &&& forall|i: int, j: int| 0 <= i < j < s.len() ==> s[i] != s[j]
}

/// Checks that the indexes fall in 1..=n without repetition.
pub fn validate_indexes(indexes: &Vec<i32>, n: i32) -> (r: Result<(), String>)
    ensures
        r is Ok <==> valid_indexes(indexes@, n as int),
        r matches Err(e) ==> e@ == "Invalid index"@,
{
    let mut i: usize = 0;
    while i < indexes.len()
        invariant
            i <= indexes@.len(),
            forall|a: int| 0 <= a < i ==> 1 <= #[trigger] indexes@[a] <= n,
            forall|a: int, b: int| 0 <= a < b < i ==> indexes@[a] != indexes@[b],
        decreases indexes@.len() - i,
    {
        let v = indexes[i];
        if v < 1 || v > n {
            return Err("Invalid index".to_owned());
        }
        let mut j: usize = 0;
        while j < i
            invariant
                j <= i < indexes@.len(),
                v == indexes@[i as int],
                forall|a: int| 0 <= a < j ==> indexes@[a] != v,
            decreases i - j,
        {
            if indexes[j] == v {
                return Err("Invalid index".to_owned());
            }
            j += 1;
        }
        i += 1;
    }
    Ok(())
}

/// Parses a comma-separated list of varying indexes and validates it against
/// an n-gram of arity `n`. Any failure reports an invalid index.
pub fn parse_varying_indexes(vary: &str, n: i32) -> (r: Result<Vec<i32>, String>)
    ensures
        ({
            let parts = split_on(vary@, comma_seq());
            &&& (r is Ok <==> all_parse_i32(parts) && valid_indexes(
                parsed_values(parts),
                n as int,
            ))
            &&& (r matches Ok(v) ==> v@ == parsed_values(parts))
            &&& (r matches Err(e) ==> e@ == "Invalid index"@)
        }),
{
    let sep = ",";
    proof {
        reveal_strlit(",");
        assert(sep@ =~= comma_seq());
    }
    let parts = split_str(vary, sep);
    let ghost pviews = views_of(parts@);
    let mut indexes: Vec<i32> = Vec::new();
    let mut i: usize = 0;
    while i < parts.len()
        invariant
            i <= parts@.len(),
            pviews == views_of(parts@),
            pviews == split_on(vary@, comma_seq()),
            indexes@.len() == i,
            forall|j: int| 0 <= j < i ==> (#[trigger] i32_of_str(pviews[j])) is Some,
            forall|j: int| 0 <= j < i ==> indexes@[j] == i32_of_str(pviews[j]).unwrap(),
        decreases parts@.len() - i,
    {
        let part = parts[i].as_str();
        proof {
            assert(part@ == pviews[i as int]);
        }
        match parse_i32(part) {
            Some(v) => {
                indexes.push(v);
            },
            None => {
                proof {
                    assert(!((#[trigger] i32_of_str(pviews[i as int])) is Some));
                }
                return Err("Invalid index".to_owned());
            },
        }
        i += 1;
    }
    proof {
        assert(indexes@ =~= parsed_values(pviews));
        assert(all_parse_i32(pviews));
    }
    match validate_indexes(&indexes, n) {
        Ok(_) => Ok(indexes),
        Err(e) => Err(e),
    }
}

/// The single-digit text of a varying index.
pub open spec fn index_digits(v: i32) -> Seq<char> {
    if v == 1 {
        seq!['1']
    } else if v == 2 {
        seq!['2']
    } else {
        seq!['3']
    }
}

/// The comma-separated text of a list of varying indexes.
pub open spec fn formatted_indexes(s: Seq<i32>) -> Seq<char> {
    crate::text::join_with(s.map_values(|v: i32| index_digits(v)), comma_seq())
}

/// Writes a list of varying indexes as comma-separated digits.
pub fn format_varying_indexes(indexes: &Vec<i32>) -> (r: String)
    requires
        forall|i: int| 0 <= i < indexes@.len() ==> 1 <= #[trigger] indexes@[i] <= 3,
    ensures
        r@ == formatted_indexes(indexes@),
{
    proof {
        reveal_strlit(",");
        reveal_strlit("1");
        reveal_strlit("2");
        reveal_strlit("3");
    }
    let mut out = String::new();
    let mut i: usize = 0;
    while i < indexes.len()
        invariant
            i <= indexes@.len(),
            forall|k: int| 0 <= k < indexes@.len() ==> 1 <= #[trigger] indexes@[k] <= 3,
            out@ == crate::text::join_with(
                indexes@.take(i as int).map_values(|v: i32| index_digits(v)),
                comma_seq(),
            ),
        decreases indexes@.len() - i,
    {
        if i > 0 {
            out.append(",");
            proof {
                reveal_strlit(",");
            }
        }
        let v = indexes[i];
        if v == 1 {
            out.append("1");
        } else if v == 2 {
            out.append("2");
        } else {
            out.append("3");
        }
        proof {
            reveal_strlit(",");
            reveal_strlit("1");
            reveal_strlit("2");
            reveal_strlit("3");
            assert("1"@ =~= seq!['1']);
            assert("2"@ =~= seq!['2']);
            assert("3"@ =~= seq!['3']);
            assert(","@ =~= comma_seq());
            let prefix = indexes@.take(i as int).map_values(|v2: i32| index_digits(v2));
            crate::text::lemma_join_with_push(prefix, comma_seq(), index_digits(indexes@[i as int]));
            assert(indexes@.take(i + 1).map_values(|v2: i32| index_digits(v2)) =~= prefix.push(
                index_digits(indexes@[i as int]),
            ));
        }
        i += 1;
    }
    proof {
        assert(indexes@.take(indexes@.len() as int) =~= indexes@);
    }
    out
}

proof fn lemma_digit_value(v: i32)
    requires
        1 <= v <= 3,
    ensures
        i32_of_str(index_digits(v)) == Some(v),
{
    let s = index_digits(v);
    assert(s.len() == 1);
    assert(s.drop_last() =~= Seq::<char>::empty());
    assert(crate::text::dec_val(s.drop_last()) == 0);
    assert(crate::text::all_digits(s)) by {
        assert(crate::text::is_digit(s[0]));
    }
    assert(crate::text::int_of_str(s) == Some(v as int));
}

/// Parsing a formatted list of varying indexes yields the list back: for
/// every list of distinct indexes in 1..=n, the comma-separated text those
/// indexes produce parses to the same values, and they validate against `n`.
pub proof fn lemma_parse_format_roundtrip(indexes: Seq<i32>, n: int)
    requires
        1 <= n <= 3,
        indexes.len() >= 1,
        forall|i: int| 0 <= i < indexes.len() ==> 1 <= #[trigger] indexes[i] <= n,
        forall|i: int, j: int| 0 <= i < j < indexes.len() ==> indexes[i] != indexes[j],
    ensures
        ({
            let parts = split_on(formatted_indexes(indexes), comma_seq());
            &&& all_parse_i32(parts)
            &&& parsed_values(parts) == indexes
            &&& valid_indexes(parsed_values(parts), n)
        }),
{
    let digit_parts = indexes.map_values(|v: i32| index_digits(v));
    assert forall|i: int, j: int|
        0 <= i < digit_parts.len() && 0 <= j < digit_parts[i].len() implies (
    #[trigger] digit_parts[i][j]) != ',' by {
        assert(digit_parts[i] == index_digits(indexes[i]));
    }
    crate::text::lemma_split_join_single(digit_parts, ',');
    assert(comma_seq() =~= seq![',']);
    let parts = split_on(formatted_indexes(indexes), comma_seq());
    assert(parts == digit_parts);
    assert forall|i: int|
        0 <= i < parts.len() implies (#[trigger] i32_of_str(parts[i])) == Some(indexes[i]) by {
        assert(parts[i] == index_digits(indexes[i]));
        lemma_digit_value(indexes[i]);
    }
    assert(parsed_values(parts) =~= indexes);
}

/// Parses the per-slot truncation amount.
pub fn parse_amount(amount: &str) -> (r: Result<i32, String>)
    ensures
        r is Ok <==> i32_of_str(amount@) is Some,
        r matches Ok(v) ==> Some(v) == i32_of_str(amount@),
        r matches Err(e) ==> e@ == "Invalid amount"@,
{
    match parse_i32(amount) {
        Some(v) => Ok(v),
        None => Err("Invalid amount".to_owned()),
    }
}

/// Reads the requested arity `n` out of the query.
pub fn parse_n(query: &QueryMap) -> (r: Result<i32, String>)
    ensures
        match query.spec_get("n"@) {
            None => r matches Err(e) && e@ == "Missing n"@,
            Some(nv) => match i32_of_str(nv) {
                Some(v) => r == Ok::<i32, String>(v),
                None => r matches Err(e) && e@ == "Invalid n"@,
            },
        },
{
    match query.get("n") {
        Some(nstr) => match parse_i32(nstr.as_str()) {
            Some(v) => Ok(v),
            None => Err("Invalid n".to_owned()),
        },
        None => Err("Missing n".to_owned()),
    }
}

/// Reads a confusion set: one group of whitespace-separated candidate words
/// per line.
pub fn parse_confusion_set(contents: String) -> (r: Vec<Vec<String>>)
    ensures
        r.deep_view() == confusion_set_of(contents@),
{
    let lines = lines_str(contents.as_str());
    let ghost lviews = views_of(lines@);
    let mut set: Vec<Vec<String>> = Vec::new();
    let mut i: usize = 0;
    while i < lines.len()
        invariant
            i <= lines@.len(),
            lviews == views_of(lines@),
            set.deep_view() =~= lviews.take(i as int).map_values(|l: Seq<char>| split_ws(l)),
        decreases lines@.len() - i,
    {
        let words = split_ws_str(lines[i].as_str());
        proof {
            assert(words.deep_view() =~= views_of(words@));
            assert(words.deep_view() == split_ws(lviews[i as int]));
        }
        let ghost prev = set@;
        let ghost dvprev = set.deep_view();
        set.push(words);
        proof {
            assert(lviews.len() == lines@.len());
            assert(lviews.take(i as int).len() == i);
            assert(dvprev.len() == i);
            assert(prev.len() == i);
            assert(set@ == prev.push(words));
            assert forall|j: int| 0 <= j < i + 1 implies set.deep_view()[j] == lviews.take(
                i + 1,
            ).map_values(|l: Seq<char>| split_ws(l))[j] by {
                assert(lviews.take(i + 1)[j] == lviews[j]);
                if j < i {
                    assert(set@[j] == prev[j]);
                    assert(set.deep_view()[j] == prev[j].deep_view());
                    assert(dvprev[j] == prev[j].deep_view());
                    assert(dvprev[j] == lviews.take(i as int).map_values(
                        |l: Seq<char>| split_ws(l),
                    )[j]);
                    assert(lviews.take(i as int)[j] == lviews[j]);
                } else {
                    assert(set@[j] == words);
                    assert(set.deep_view()[j] == words.deep_view());
                }
            }
            assert(set.deep_view().len() == i + 1);
            assert(set.deep_view() =~= lviews.take(i + 1).map_values(|l: Seq<char>| split_ws(l)));
        }
        i += 1;
    }
    proof {
        assert(lviews.take(lines@.len() as int) =~= lviews);
        assert(set.deep_view() =~= confusion_set_of(contents@));
    }
    set
}

/// Folds the lines of an n-gram totals file over an accumulator: each line an
/// arity in 1..=3 and its count, later lines overriding earlier ones.
pub open spec fn counts_from_lines(acc: NGramCounts, ls: Seq<Seq<char>>) -> Option<NGramCounts>
    decreases ls.len(),
{
    if ls.len() == 0 {
        Some(acc)
    } else {
        let ws = split_ws(ls[0]);
        if ws.len() < 2 {
            None
        } else {
            match (i32_of_str(ws[0]), i64_of_str(ws[1])) {
                (Some(n), Some(c)) => if n == 1 {
                    counts_from_lines(
                        NGramCounts { one: c, two: acc.two, three: acc.three },
                        ls.drop_first(),
                    )
                } else if n == 2 {
                    counts_from_lines(
                        NGramCounts { one: acc.one, two: c, three: acc.three },
                        ls.drop_first(),
                    )
                } else if n == 3 {
                    counts_from_lines(
                        NGramCounts { one: acc.one, two: acc.two, three: c },
                        ls.drop_first(),
                    )
                } else {
                    None
                },
                _ => None,
            }
        }
    }
}

/// The totals an n-gram counts file denotes, starting from zero.
pub open spec fn counts_of(text: Seq<char>) -> Option<NGramCounts> {
    counts_from_lines(NGramCounts { one: 0, two: 0, three: 0 }, lines_of(text))
}

/// Reads the n-gram totals file: each line an arity in 1..=3 and its count.
pub fn parse_number_of_ngrams(contents: String) -> (r: Result<NGramCounts, String>)
    ensures
        r is Ok <==> counts_of(contents@) is Some,
        r matches Ok(c) ==> Some(c) == counts_of(contents@),
        r matches Err(e) ==> e@ == "Invalid number of ngrams file"@,
{
    let lines = lines_str(contents.as_str());
    let ghost lviews = views_of(lines@);
    let mut acc = NGramCounts { one: 0, two: 0, three: 0 };
    proof {
        assert(lviews.skip(0) =~= lviews);
    }
    let mut i: usize = 0;
    while i < lines.len()
        invariant
            i <= lines@.len(),
            lviews == views_of(lines@),
            lviews == lines_of(contents@),
            counts_from_lines(acc, lviews.skip(i as int)) == counts_of(contents@),
        decreases lines@.len() - i,
    {
        let ghost rest = lviews.skip(i as int);
        proof {
            assert(rest[0] == lviews[i as int]);
            assert(rest.drop_first() =~= lviews.skip(i + 1));
        }
        let words = split_ws_str(lines[i].as_str());
        if words.len() < 2 {
            return Err("Invalid number of ngrams file".to_owned());
        }
        let n = match parse_i32(words[0].as_str()) {
            Some(n) => n,
            None => {
                return Err("Invalid number of ngrams file".to_owned());
            },
        };
        let count = match parse_i64(words[1].as_str()) {
            Some(c) => c,
            None => {
                return Err("Invalid number of ngrams file".to_owned());
            },
        };
        proof {
            assert(views_of(words@)[0] == split_ws(rest[0])[0]);
            assert(views_of(words@)[1] == split_ws(rest[0])[1]);
        }
        if n == 1 {
            acc = NGramCounts { one: count, two: acc.two, three: acc.three };
        } else if n == 2 {
            acc = NGramCounts { one: acc.one, two: count, three: acc.three };
        } else if n == 3 {
            acc = NGramCounts { one: acc.one, two: acc.two, three: count };
        } else {
            return Err("Invalid number of ngrams file".to_owned());
        }
        i += 1;
    }
    proof {
        assert(lviews.skip(lines@.len() as int) =~= Seq::<Seq<char>>::empty());
    }
    Ok(acc)
}

} // verus!
