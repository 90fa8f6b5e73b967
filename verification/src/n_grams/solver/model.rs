//! The confusion-set scanner: locating suspect words in a text and building
//! the batch of candidate-list probes for each occurrence, and the merging
//! of the executed probes' results.

use vstd::prelude::*;

use crate::db::{
    n_gram_text, slice_views, valid_varying_query, GET_ALL_VARYING_1, GET_ALL_VARYING_2_1,
    GET_ALL_VARYING_2_2, GET_ALL_VARYING_3_1, GET_ALL_VARYING_3_3,
};
use crate::text::{join_with, lower_of, lowercase, str_eq, str_starts_with, views_of};

verus! {

/// One probe to run against the corpus: a rendered candidate-list query, the
/// words that stay fixed, and the candidate words to substitute.
pub struct QueryBuilder {
    pub query: String,
    pub static_params: Vec<String>,
    pub varying_params: Vec<String>,
}

/// The mathematical content of a probe.
pub struct ProbeView {
    pub query: Seq<char>,
    pub static_params: Seq<Seq<char>>,
    pub varying_params: Seq<Seq<char>>,
}

/// The content of a probe value.
pub open spec fn probe_view(qb: QueryBuilder) -> ProbeView {
    ProbeView {
        query: qb.query@,
        static_params: views_of(qb.static_params@),
        varying_params: views_of(qb.varying_params@),
    }
}

/// The contents of a list of probes.
pub open spec fn probe_views(s: Seq<QueryBuilder>) -> Seq<ProbeView> {
    s.map_values(|qb: QueryBuilder| probe_view(qb))
}

/// The probes of one suspect occurrence, with the occurrence's word.
pub struct Queries {
    pub queries: Vec<QueryBuilder>,
    pub word: String,
}

/// The mathematical content of one occurrence's probes.
pub struct QueriesView {
    pub queries: Seq<ProbeView>,
    pub word: Seq<char>,
}

/// The content of a `Queries` value.
pub open spec fn queries_view(q: Queries) -> QueriesView {
    QueriesView { queries: probe_views(q.queries@), word: q.word@ }
}

/// The content of the scanner's context-keyed list.
pub open spec fn scan_view(m: Seq<(String, Queries)>) -> Seq<(Seq<char>, QueriesView)> {
    m.map_values(|e: (String, Queries)| (e.0@, queries_view(e.1)))
}

/// Whether a context key was already produced.
pub open spec fn key_present(m: Seq<(Seq<char>, QueriesView)>, key: Seq<char>) -> bool {
    exists|i: int| 0 <= i < m.len() && (#[trigger] m[i]).0 == key
}

/// The placeholders of an `IN` list of `k` candidates, after its opening
/// parenthesis.
pub open spec fn qmarks(k: nat) -> Seq<char>
    decreases k,
{
    if k <= 1 {
        seq!['?', ')']
    } else {
        seq!['?', ',', ' '] + qmarks((k - 1) as nat)
    }
}

/// A rendered `IN` list for `k` candidates.
pub open spec fn in_list(k: nat) -> Seq<char> {
    seq!['('] + qmarks(k)
}

fn qmarks_str(k: usize) -> (r: String)
    requires
        k >= 1,
    ensures
        r@ == qmarks(k as nat),
    decreases k,
{
    if k == 1 {
        let s = "?)".to_owned();
        proof {
            reveal_strlit("?)");
            assert(s@ =~= qmarks(1));
        }
        s
    } else {
        let mut s = "?, ".to_owned();
        let tail = qmarks_str(k - 1);
        s.append(tail.as_str());
        proof {
            reveal_strlit("?, ");
            assert("?, "@ =~= seq!['?', ',', ' ']);
        }
        s
    }
}

/// Renders a candidate-list template for `k` candidates by expanding its
/// `IN` clause.
pub fn render_query(template: &str, k: usize) -> (r: String)
    requires
        k >= 1,
    ensures
        r@ == template@ + in_list(k as nat),
{
    let mut out = template.to_owned();
    out.append("(");
    let marks = qmarks_str(k);
    out.append(marks.as_str());
    proof {
        reveal_strlit("(");
        assert("("@ =~= seq!['(']);
        assert(out@ =~= template@ + in_list(k as nat));
    }
    out
}

/// The five-word window around position `j`, joined with single spaces.
pub open spec fn context_of(j: int, words: Seq<Seq<char>>) -> Seq<char> {
    let lo = if j >= 2 {
        j - 2
    } else {
        0
    };
    let hi = if j + 2 < words.len() {
        j + 2
    } else {
        words.len() - 1
    };
    join_with(words.subrange(lo, hi + 1), seq![' '])
}

/// Extracts the context key of position `index`: the surrounding window of
/// up to five words, space-joined.
#[verifier::loop_isolation(false)]
pub fn extract_context(index: usize, words: &Vec<&str>) -> (r: String)
    requires
        index < words@.len(),
    ensures
        r@ == context_of(index as int, slice_views(words@)),
{
    let lo: usize = if index >= 2 {
        index - 2
    } else {
        0
    };
    let hi: usize = if words.len() - index > 2 {
        index + 2
    } else {
        words.len() - 1
    };
    let ghost window = slice_views(words@).subrange(lo as int, hi + 1);
    let mut out = String::new();
    let mut i: usize = lo;
    while i <= hi
        invariant
            lo <= i <= hi + 1,
            lo <= index < words@.len(),
            hi < words@.len(),
            window == slice_views(words@).subrange(lo as int, hi + 1),
            out@ == join_with(window.take(i - lo), seq![' ']),
        decreases hi + 1 - i,
    {
        if i > lo {
            out.append(" ");
        }
        out.append(words[i]);
        proof {
            reveal_strlit(" ");
            assert(" "@ =~= seq![' ']);
            let prefix = window.take(i - lo);
            crate::text::lemma_join_with_push(prefix, seq![' '], window[i - lo]);
            assert(window[i - lo] == slice_views(words@)[i as int]);
            assert(window.take(i - lo + 1) =~= prefix.push(window[i - lo]));
        }
        i += 1;
    }
    proof {
        assert(window.take(hi + 1 - lo) =~= window);
    }
    out
}

/// Copies the candidate words of a confusion group.
fn clone_words(v: &Vec<String>) -> (r: Vec<String>)
    ensures
        r@ == v@,
{
    let mut out: Vec<String> = Vec::new();
    let mut i: usize = 0;
    while i < v.len()
        invariant
            i <= v@.len(),
            out@ =~= v@.take(i as int),
        decreases v@.len() - i,
    {
        out.push(v[i].clone());
        proof {
            assert(out@ =~= v@.take(i + 1));
        }
        i += 1;
    }
    proof {
        assert(v@.take(v@.len() as int) =~= v@);
    }
    out
}

/// The probe one window yields: the rendered template, the window with the
/// varied slot removed, and the candidate list.
pub open spec fn probe_of(
    template: Seq<char>,
    window: Seq<Seq<char>>,
    cs: Seq<Seq<char>>,
    index: int,
) -> ProbeView {
    ProbeView {
        query: template + in_list(cs.len() as nat),
        static_params: window.remove(index),
        varying_params: cs,
    }
}

/// Renders one window's probe and appends it: the candidate list expands the
/// template's `IN` clause, and the varied slot leaves the static parameters.
#[verifier::loop_isolation(false)]
pub fn add_to_query(
    query_str: &str,
    window: &Vec<&str>,
    confusion_set: &Vec<String>,
    queries: &mut Vec<QueryBuilder>,
    index: usize,
)
    requires
        index < window@.len(),
        confusion_set@.len() >= 1,
    ensures
        probe_views(final(queries)@) == probe_views(old(queries)@).push(
            probe_of(
                query_str@,
                slice_views(window@),
                views_of(confusion_set@),
                index as int,
            ),
        ),
{
    let mut static_params: Vec<String> = Vec::new();
    let mut i: usize = 0;
    while i < index
        invariant
            i <= index < window@.len(),
            views_of(static_params@) =~= slice_views(window@).subrange(0, i as int),
        decreases index - i,
    {
        crate::text::push_owned(&mut static_params, window[i]);
        proof {
            assert(window@[i as int]@ == slice_views(window@)[i as int]);
            assert(slice_views(window@).subrange(0, i + 1) =~= slice_views(window@).subrange(
                0,
                i as int,
            ).push(slice_views(window@)[i as int]));
        }
        i += 1;
    }
    let wlen = window.len();
    proof {
        assert(index < wlen);
    }
    let mut i: usize = index + 1;
    while i < wlen
        invariant
            index < i <= window@.len(),
            views_of(static_params@) =~= slice_views(window@).subrange(0, index as int)
                + slice_views(window@).subrange(index + 1, i as int),
        decreases window@.len() - i,
    {
        crate::text::push_owned(&mut static_params, window[i]);
        proof {
            assert(window@[i as int]@ == slice_views(window@)[i as int]);
            assert(slice_views(window@).subrange(0, index as int) + slice_views(window@).subrange(
                index + 1,
                i + 1,
            ) =~= (slice_views(window@).subrange(0, index as int) + slice_views(window@).subrange(
                index + 1,
                i as int,
            )).push(slice_views(window@)[i as int]));
        }
        i += 1;
    }
    proof {
        assert(views_of(static_params@) =~= slice_views(window@).remove(index as int));
    }
    let varying_params = clone_words(confusion_set);
    let query = render_query(query_str, confusion_set.len());
    let ghost before = queries@;
    queries.push(QueryBuilder { query, static_params, varying_params });
    proof {
        let built = probe_of(
            query_str@,
            slice_views(window@),
            views_of(confusion_set@),
            index as int,
        );
        assert(probe_view(queries@.last()) == built);
        assert forall|m: int|
            0 <= m < queries@.len() implies probe_views(queries@)[m] == probe_views(before).push(
            built,
        )[m] by {
            if m < before.len() {
                assert(queries@[m] == before[m]);
            }
        }
        assert(probe_views(queries@) =~= probe_views(before).push(built));
    }
}

/// The 1-gram probe of an occurrence: no static words, every candidate.
pub open spec fn unigram_probe(cs: Seq<Seq<char>>) -> ProbeView {
    ProbeView {
        query: GET_ALL_VARYING_1@ + in_list(cs.len() as nat),
        static_params: Seq::empty(),
        varying_params: cs,
    }
}

/// The 2-gram probes over the left neighbour, the lowercased variant first
/// when the neighbour carries upper case.
pub open spec fn left2_probes(j: int, words: Seq<Seq<char>>, cs: Seq<Seq<char>>) -> Seq<
    ProbeView,
> {
    if j >= 1 {
        let raw = probe_of(GET_ALL_VARYING_2_2@, seq![words[j - 1], words[j]], cs, 1);
        if lower_of(words[j - 1]) != words[j - 1] {
            seq![
                probe_of(GET_ALL_VARYING_2_2@, seq![lower_of(words[j - 1]), words[j]], cs, 1),
                raw,
            ]
        } else {
            seq![raw]
        }
    } else {
        Seq::empty()
    }
}

/// The 2-gram probes over the right neighbour.
pub open spec fn right2_probes(j: int, words: Seq<Seq<char>>, cs: Seq<Seq<char>>) -> Seq<
    ProbeView,
> {
    if j + 1 < words.len() {
        let raw = probe_of(GET_ALL_VARYING_2_1@, seq![words[j], words[j + 1]], cs, 0);
        if lower_of(words[j + 1]) != words[j + 1] {
            seq![
                probe_of(GET_ALL_VARYING_2_1@, seq![words[j], lower_of(words[j + 1])], cs, 0),
                raw,
            ]
        } else {
            seq![raw]
        }
    } else {
        Seq::empty()
    }
}

/// The 3-gram probes over the two left neighbours.
pub open spec fn left3_probes(j: int, words: Seq<Seq<char>>, cs: Seq<Seq<char>>) -> Seq<
    ProbeView,
> {
    if j >= 2 {
        let raw = probe_of(
            GET_ALL_VARYING_3_3@,
            seq![words[j - 2], words[j - 1], words[j]],
            cs,
            2,
        );
        if lower_of(words[j - 2]) != words[j - 2] || lower_of(words[j - 1]) != words[j - 1] {
            seq![
                probe_of(
                    GET_ALL_VARYING_3_3@,
                    seq![lower_of(words[j - 2]), lower_of(words[j - 1]), words[j]],
                    cs,
                    2,
                ),
                raw,
            ]
        } else {
            seq![raw]
        }
    } else {
        Seq::empty()
    }
}

/// The 3-gram probes over the two right neighbours.
pub open spec fn right3_probes(j: int, words: Seq<Seq<char>>, cs: Seq<Seq<char>>) -> Seq<
    ProbeView,
> {
    if j + 2 < words.len() {
        let raw = probe_of(
            GET_ALL_VARYING_3_1@,
            seq![words[j], words[j + 1], words[j + 2]],
            cs,
            0,
        );
        if lower_of(words[j + 1]) != words[j + 1] || lower_of(words[j + 2]) != words[j + 2] {
            seq![
                probe_of(
                    GET_ALL_VARYING_3_1@,
                    seq![words[j], lower_of(words[j + 1]), lower_of(words[j + 2])],
                    cs,
                    0,
                ),
                raw,
            ]
        } else {
            seq![raw]
        }
    } else {
        Seq::empty()
    }
}

/// Every probe one occurrence at position `j` yields: the 1-gram probe, then
/// each present neighbour window's 2- and 3-gram probes.
pub open spec fn probes_for(j: int, words: Seq<Seq<char>>, cs: Seq<Seq<char>>) -> Seq<ProbeView> {
    seq![unigram_probe(cs)] + left2_probes(j, words, cs) + right2_probes(j, words, cs)
        + left3_probes(j, words, cs) + right3_probes(j, words, cs)
}

/// The scan of one suspect word over the first `upto` positions of a
/// sentence: each position whose token matches the word case-insensitively
/// contributes its probes, unless its context key was already produced.
pub open spec fn scan_positions(
    m0: Seq<(Seq<char>, QueriesView)>,
    words: Seq<Seq<char>>,
    word: Seq<char>,
    cs: Seq<Seq<char>>,
    upto: int,
) -> Seq<(Seq<char>, QueriesView)>
    decreases upto,
{
    if upto <= 0 {
        m0
    } else {
        let m = scan_positions(m0, words, word, cs, upto - 1);
        let j = upto - 1;
        if lower_of(words[j]) == lower_of(word) && !key_present(m, context_of(j, words)) {
            m.push(
                (context_of(j, words), QueriesView { queries: probes_for(j, words, cs), word }),
            )
        } else {
            m
        }
    }
}

/// Whether the context-keyed list already holds `key`.
fn assoc_key_present(queries: &Vec<(String, Queries)>, key: &str) -> (r: bool)
    ensures
        r == key_present(scan_view(queries@), key@),
{
    let mut i: usize = 0;
    while i < queries.len()
        invariant
            i <= queries@.len(),
            forall|m: int| 0 <= m < i ==> (#[trigger] scan_view(queries@)[m]).0 != key@,
        decreases queries@.len() - i,
    {
        if str_eq(queries[i].0.as_str(), key) {
            proof {
                assert((scan_view(queries@)[i as int]).0 == key@);
            }
            return true;
        }
        i += 1;
    }
    proof {
        assert(!key_present(scan_view(queries@), key@));
    }
    false
}

/// Scans a sentence's tokens for one suspect word: each case-insensitive
/// match contributes its window probes under its context key, first match
/// per context winning.
#[verifier::loop_isolation(false)]
#[verifier::rlimit(100)]
pub fn process_word_in_sentence(
    word: &str,
    words: &Vec<&str>,
    confusion_set: &Vec<String>,
    queries: &mut Vec<(String, Queries)>,
)
    requires
        confusion_set@.len() >= 1,
    ensures
        scan_view(final(queries)@) == scan_positions(
            scan_view(old(queries)@),
            slice_views(words@),
            word@,
            views_of(confusion_set@),
            words@.len() as int,
        ),
{
    let ghost init = scan_view(old(queries)@);
    let ghost wviews = slice_views(words@);
    let ghost csviews = views_of(confusion_set@);
    let word_lower = lowercase(word);
    let mut j: usize = 0;
    while j < words.len()
        invariant
            j <= words@.len(),
            scan_view(queries@) == scan_positions(init, wviews, word@, csviews, j as int),
        decreases words@.len() - j,
    {
        let token_lower = lowercase(words[j]);
        if str_eq(token_lower.as_str(), word_lower.as_str()) {
            let context = extract_context(j, words);
            if !assoc_key_present(queries, context.as_str()) {
                let q = build_probes(j, words, confusion_set);
                let ghost prevm = queries@;
                queries.push(
                    (context, Queries { queries: q, word: word.to_owned() }),
                );
                proof {
                    assert(scan_view(prevm).len() == prevm.len());
                    let pushed = (
                        context_of(j as int, wviews),
                        QueriesView { queries: probes_for(j as int, wviews, csviews), word: word@ },
                    );
                    assert(queries_view(queries@.last().1) == pushed.1);
                    assert forall|m: int|
                        0 <= m < queries@.len() implies scan_view(queries@)[m] == scan_view(
                        prevm,
                    ).push(pushed)[m] by {
                        if m < prevm.len() {
                            assert(queries@[m] == prevm[m]);
                        }
                    }
                    assert(scan_view(queries@) =~= scan_view(prevm).push(pushed));
                }
            }
        }
        j += 1;
    }
}


/// Appends the left-neighbour 2-gram probes of position `j`.
fn push_left2(j: usize, words: &Vec<&str>, confusion_set: &Vec<String>, q: &mut Vec<QueryBuilder>)
    requires
        j < words@.len(),
        confusion_set@.len() >= 1,
    ensures
        probe_views(final(q)@) == probe_views(old(q)@) + left2_probes(
            j as int,
            slice_views(words@),
            views_of(confusion_set@),
        ),
{
    let ghost wviews = slice_views(words@);
    let ghost csviews = views_of(confusion_set@);
    let ghost start = probe_views(q@);
    if j >= 1 {
        let lower_left = lowercase(words[j - 1]);
        if !str_eq(words[j - 1], lower_left.as_str()) {
            let mut window: Vec<&str> = Vec::new();
            window.push(lower_left.as_str());
            window.push(words[j]);
            proof {
                assert(slice_views(window@) =~= seq![lower_of(wviews[j - 1]), wviews[j as int]]);
            }
            add_to_query(GET_ALL_VARYING_2_2, &window, confusion_set, q, 1);
        }
        let mut window: Vec<&str> = Vec::new();
        window.push(words[j - 1]);
        window.push(words[j]);
        proof {
            assert(slice_views(window@) =~= seq![wviews[j - 1], wviews[j as int]]);
        }
        add_to_query(GET_ALL_VARYING_2_2, &window, confusion_set, q, 1);
    }
    proof {
        assert(probe_views(q@) =~= start + left2_probes(j as int, wviews, csviews));
    }
}

/// Appends the right-neighbour 2-gram probes of position `j`.
fn push_right2(j: usize, words: &Vec<&str>, confusion_set: &Vec<String>, q: &mut Vec<QueryBuilder>)
    requires
        j < words@.len(),
        confusion_set@.len() >= 1,
    ensures
        probe_views(final(q)@) == probe_views(old(q)@) + right2_probes(
            j as int,
            slice_views(words@),
            views_of(confusion_set@),
        ),
{
    let ghost wviews = slice_views(words@);
    let ghost csviews = views_of(confusion_set@);
    let ghost start = probe_views(q@);
    let wlen = words.len();
    if wlen - j > 1 {
        let lower_right = lowercase(words[j + 1]);
        if !str_eq(words[j + 1], lower_right.as_str()) {
            let mut window: Vec<&str> = Vec::new();
            window.push(words[j]);
            window.push(lower_right.as_str());
            proof {
                assert(slice_views(window@) =~= seq![wviews[j as int], lower_of(wviews[j + 1])]);
            }
            add_to_query(GET_ALL_VARYING_2_1, &window, confusion_set, q, 0);
        }
        let mut window: Vec<&str> = Vec::new();
        window.push(words[j]);
        window.push(words[j + 1]);
        proof {
            assert(slice_views(window@) =~= seq![wviews[j as int], wviews[j + 1]]);
        }
        add_to_query(GET_ALL_VARYING_2_1, &window, confusion_set, q, 0);
    }
    proof {
        assert(probe_views(q@) =~= start + right2_probes(j as int, wviews, csviews));
    }
}

/// Appends the left-window 3-gram probes of position `j`.
fn push_left3(j: usize, words: &Vec<&str>, confusion_set: &Vec<String>, q: &mut Vec<QueryBuilder>)
    requires
        j < words@.len(),
        confusion_set@.len() >= 1,
    ensures
        probe_views(final(q)@) == probe_views(old(q)@) + left3_probes(
            j as int,
            slice_views(words@),
            views_of(confusion_set@),
        ),
{
    let ghost wviews = slice_views(words@);
    let ghost csviews = views_of(confusion_set@);
    let ghost start = probe_views(q@);
    if j >= 2 {
        let lower_a = lowercase(words[j - 2]);
        let lower_b = lowercase(words[j - 1]);
        if !str_eq(words[j - 2], lower_a.as_str()) || !str_eq(words[j - 1], lower_b.as_str()) {
            let mut window: Vec<&str> = Vec::new();
            window.push(lower_a.as_str());
            window.push(lower_b.as_str());
            window.push(words[j]);
            proof {
                assert(slice_views(window@) =~= seq![
                    lower_of(wviews[j - 2]),
                    lower_of(wviews[j - 1]),
                    wviews[j as int],
                ]);
            }
            add_to_query(GET_ALL_VARYING_3_3, &window, confusion_set, q, 2);
        }
        let mut window: Vec<&str> = Vec::new();
        window.push(words[j - 2]);
        window.push(words[j - 1]);
        window.push(words[j]);
        proof {
            assert(slice_views(window@) =~= seq![wviews[j - 2], wviews[j - 1], wviews[j as int]]);
        }
        add_to_query(GET_ALL_VARYING_3_3, &window, confusion_set, q, 2);
    }
    proof {
        assert(probe_views(q@) =~= start + left3_probes(j as int, wviews, csviews));
    }
}

/// Appends the right-window 3-gram probes of position `j`.
fn push_right3(j: usize, words: &Vec<&str>, confusion_set: &Vec<String>, q: &mut Vec<QueryBuilder>)
    requires
        j < words@.len(),
        confusion_set@.len() >= 1,
    ensures
        probe_views(final(q)@) == probe_views(old(q)@) + right3_probes(
            j as int,
            slice_views(words@),
            views_of(confusion_set@),
        ),
{
    let ghost wviews = slice_views(words@);
    let ghost csviews = views_of(confusion_set@);
    let ghost start = probe_views(q@);
    let wlen = words.len();
    if wlen - j > 2 {
        let lower_a = lowercase(words[j + 1]);
        let lower_b = lowercase(words[j + 2]);
        if !str_eq(words[j + 1], lower_a.as_str()) || !str_eq(words[j + 2], lower_b.as_str()) {
            let mut window: Vec<&str> = Vec::new();
            window.push(words[j]);
            window.push(lower_a.as_str());
            window.push(lower_b.as_str());
            proof {
                assert(slice_views(window@) =~= seq![
                    wviews[j as int],
                    lower_of(wviews[j + 1]),
                    lower_of(wviews[j + 2]),
                ]);
            }
            add_to_query(GET_ALL_VARYING_3_1, &window, confusion_set, q, 0);
        }
        let mut window: Vec<&str> = Vec::new();
        window.push(words[j]);
        window.push(words[j + 1]);
        window.push(words[j + 2]);
        proof {
            assert(slice_views(window@) =~= seq![wviews[j as int], wviews[j + 1], wviews[j + 2]]);
        }
        add_to_query(GET_ALL_VARYING_3_1, &window, confusion_set, q, 0);
    }
    proof {
        assert(probe_views(q@) =~= start + right3_probes(j as int, wviews, csviews));
    }
}

/// Builds the probes of one occurrence at position `j`, in template order.
fn build_probes(j: usize, words: &Vec<&str>, confusion_set: &Vec<String>) -> (q: Vec<QueryBuilder>)
    requires
        j < words@.len(),
        confusion_set@.len() >= 1,
    ensures
        probe_views(q@) == probes_for(j as int, slice_views(words@), views_of(confusion_set@)),
{
    let ghost wviews = slice_views(words@);
    let ghost csviews = views_of(confusion_set@);
    let mut q: Vec<QueryBuilder> = Vec::new();
    let rendered = render_query(GET_ALL_VARYING_1, confusion_set.len());
    q.push(
        QueryBuilder {
            query: rendered,
            static_params: Vec::new(),
            varying_params: clone_words(confusion_set),
        },
    );
    proof {
        assert(views_of(q@[0].static_params@) =~= Seq::<Seq<char>>::empty());
        assert(probe_view(q@[0]).query =~= unigram_probe(csviews).query);
        assert(probe_view(q@[0]).varying_params =~= unigram_probe(csviews).varying_params);
        assert(probe_views(q@) =~= seq![unigram_probe(csviews)]);
    }
    push_left2(j, words, confusion_set, &mut q);
    push_right2(j, words, confusion_set, &mut q);
    push_left3(j, words, confusion_set, &mut q);
    push_right3(j, words, confusion_set, &mut q);
    proof {
        assert(probe_views(q@) =~= probes_for(j as int, wviews, csviews));
    }
    q
}


/// The scan of one confusion group over a sentence, word by word: a member
/// that occurs in the lowercased sentence has its token matches processed.
pub open spec fn scan_group(
    m0: Seq<(Seq<char>, QueriesView)>,
    sentence: Seq<char>,
    words: Seq<Seq<char>>,
    group: Seq<Seq<char>>,
    upto: int,
) -> Seq<(Seq<char>, QueriesView)>
    decreases upto,
{
    if upto <= 0 {
        m0
    } else {
        let m = scan_group(m0, sentence, words, group, upto - 1);
        let w = group[upto - 1];
        if crate::text::occurs(lower_of(sentence), w) {
            scan_positions(m, words, w, group, words.len() as int)
        } else {
            m
        }
    }
}

/// The scan of every confusion group over a sentence, in order.
pub open spec fn scan_groups(
    m0: Seq<(Seq<char>, QueriesView)>,
    sentence: Seq<char>,
    words: Seq<Seq<char>>,
    cs: Seq<Seq<Seq<char>>>,
    upto: int,
) -> Seq<(Seq<char>, QueriesView)>
    decreases upto,
{
    if upto <= 0 {
        m0
    } else {
        let m = scan_groups(m0, sentence, words, cs, upto - 1);
        scan_group(m, sentence, words, cs[upto - 1], cs[upto - 1].len() as int)
    }
}

/// The scan of a list of sentences, in order, each tokenized on whitespace.
pub open spec fn scan_sentences(
    m0: Seq<(Seq<char>, QueriesView)>,
    sentences: Seq<Seq<char>>,
    cs: Seq<Seq<Seq<char>>>,
    upto: int,
) -> Seq<(Seq<char>, QueriesView)>
    decreases upto,
{
    if upto <= 0 {
        m0
    } else {
        let m = scan_sentences(m0, sentences, cs, upto - 1);
        let sentence = sentences[upto - 1];
        scan_groups(m, sentence, crate::text::split_ws(sentence), cs, cs.len() as int)
    }
}

/// The full scan of a text against a confusion set.
pub open spec fn scan_of(text: Seq<char>, cs: Seq<Seq<Seq<char>>>) -> Seq<
    (Seq<char>, QueriesView),
> {
    let sentences = crate::n_grams::solver::sentences_of(text);
    scan_sentences(Seq::empty(), sentences, cs, sentences.len() as int)
}

/// The words of a group as string slices.
fn as_slices(v: &Vec<String>) -> (r: Vec<&str>)
    ensures
        slice_views(r@) == views_of(v@),
{
    let mut out: Vec<&str> = Vec::new();
    let mut i: usize = 0;
    while i < v.len()
        invariant
            i <= v@.len(),
            slice_views(out@) =~= views_of(v@).take(i as int),
        decreases v@.len() - i,
    {
        let ghost prev = out@;
        out.push(v[i].as_str());
        proof {
            assert(slice_views(prev).len() == prev.len());
            assert(views_of(v@).take(i as int).len() == i);
            assert(prev.len() == i);
            assert forall|m: int|
                0 <= m < i + 1 implies slice_views(out@)[m] == views_of(v@).take(i + 1)[m] by {
                if m < i {
                    assert(out@[m] == prev[m]);
                    assert(slice_views(prev)[m] == views_of(v@).take(i as int)[m]);
                } else {
                    assert(out@[m]@ == v@[m]@);
                }
            }
            assert(slice_views(out@) =~= views_of(v@).take(i + 1));
        }
        i += 1;
    }
    proof {
        assert(views_of(v@).take(v@.len() as int) =~= views_of(v@));
    }
    out
}

/// A text to check against the confusion set.
pub struct TextExtractor {
    pub text: String,
}

/// The solver of one text-check request: the text and the confusion set it
/// is scanned against.
pub struct SolverWithConfusionSet {
    pub confusion_set: Vec<Vec<String>>,
    pub text: String,
}

impl SolverWithConfusionSet {
    /// Builds a solver; an empty confusion set is rejected.
    pub fn new(text: String, confusion_set: &Vec<Vec<String>>) -> (r: Result<Self, String>)
        ensures
            confusion_set@.len() == 0 ==> (r matches Err(e) && e@ == "Confusion set is empty"@),
            confusion_set@.len() > 0 ==> (r matches Ok(s) && s.text == text
                && s.confusion_set.deep_view() == confusion_set.deep_view()),
    {
        if confusion_set.len() == 0 {
            return Err("Confusion set is empty".to_owned());
        }
        let mut groups: Vec<Vec<String>> = Vec::new();
        let mut i: usize = 0;
        while i < confusion_set.len()
            invariant
                i <= confusion_set@.len(),
                groups.deep_view() =~= confusion_set.deep_view().take(i as int),
            decreases confusion_set@.len() - i,
        {
            let group = clone_words(&confusion_set[i]);
            let ghost prev = groups@;
            groups.push(group);
            proof {
                assert(groups.deep_view().len() == prev.len() + 1);
                assert(confusion_set.deep_view().take(i as int).len() == i);
                assert forall|m: int|
                    0 <= m < i + 1 implies groups.deep_view()[m] == confusion_set.deep_view().take(
                    i + 1,
                )[m] by {
                    if m < i {
                        assert(groups@[m] == prev[m]);
                        assert(prev.map_values(|g: Vec<String>| g.deep_view())[m]
                            == confusion_set.deep_view().take(i as int)[m]);
                    } else {
                        assert(groups@[m] == group);
                        assert(group.deep_view() =~= confusion_set@[i as int].deep_view());
                    }
                }
                assert(groups.deep_view() =~= confusion_set.deep_view().take(i + 1));
            }
            i += 1;
        }
        proof {
            assert(confusion_set.deep_view().take(confusion_set@.len() as int)
                =~= confusion_set.deep_view());
        }
        Ok(Self { confusion_set: groups, text })
    }

    /// Scans the text: every occurrence of a confusion-set member yields its
    /// probes under its context key, in the order contexts first appear.
    #[verifier::loop_isolation(false)]
    pub fn find_queries(&self) -> (r: Vec<(String, Queries)>)
        ensures
            scan_view(r@) == scan_of(self.text@, self.confusion_set.deep_view()),
    {
        let ghost csdeep = self.confusion_set.deep_view();
        let sentences = crate::n_grams::solver::parse_text_to_sentences(self.text.as_str());
        let ghost sviews = views_of(sentences@);
        let mut queries: Vec<(String, Queries)> = Vec::new();
        proof {
            assert(scan_view(queries@) =~= Seq::<(Seq<char>, QueriesView)>::empty());
        }
        let mut i: usize = 0;
        while i < sentences.len()
            invariant
                i <= sentences@.len(),
                scan_view(queries@) == scan_sentences(
                    Seq::empty(),
                    sviews,
                    csdeep,
                    i as int,
                ),
            decreases sentences@.len() - i,
        {
            let ghost m_sentence = scan_view(queries@);
            let sentence = &sentences[i];
            let words_owned = crate::text::split_ws_str(sentence.as_str());
            let words = as_slices(&words_owned);
            proof {
                assert(slice_views(words@) == crate::text::split_ws(sviews[i as int]));
            }
            let lower_sentence = lowercase(sentence.as_str());
            let mut g: usize = 0;
            while g < self.confusion_set.len()
                invariant
                    g <= self.confusion_set@.len(),
                    scan_view(queries@) == scan_groups(
                        m_sentence,
                        sviews[i as int],
                        slice_views(words@),
                        csdeep,
                        g as int,
                    ),
                decreases self.confusion_set@.len() - g,
            {
                let ghost m_group = scan_view(queries@);
                let group = &self.confusion_set[g];
                proof {
                    assert(views_of(group@) == csdeep[g as int]);
                }
                let mut w: usize = 0;
                while w < group.len()
                    invariant
                        w <= group@.len(),
                        scan_view(queries@) == scan_group(
                            m_group,
                            sviews[i as int],
                            slice_views(words@),
                            csdeep[g as int],
                            w as int,
                        ),
                    decreases group@.len() - w,
                {
                    let word = &group[w];
                    proof {
                        assert(word@ == csdeep[g as int][w as int]);
                    }
                    if crate::text::str_contains(lower_sentence.as_str(), word.as_str()) {
                        process_word_in_sentence(word.as_str(), &words, group, &mut queries);
                    }
                    w += 1;
                }
                g += 1;
            }
            i += 1;
        }
        proof {
            assert(scan_view(queries@) == scan_of(self.text@, csdeep));
        }
        queries
    }
}

/// Pairwise distinct context keys.
pub open spec fn keys_unique(m: Seq<(Seq<char>, QueriesView)>) -> bool {
    forall|i: int, j: int| 0 <= i < j < m.len() ==> (#[trigger] m[i]).0 != (#[trigger] m[j]).0
}

proof fn lemma_scan_positions_unique(
    m0: Seq<(Seq<char>, QueriesView)>,
    words: Seq<Seq<char>>,
    word: Seq<char>,
    cs: Seq<Seq<char>>,
    upto: int,
)
    requires
        keys_unique(m0),
    ensures
        keys_unique(scan_positions(m0, words, word, cs, upto)),
    decreases upto,
{
    if upto > 0 {
        lemma_scan_positions_unique(m0, words, word, cs, upto - 1);
        let m = scan_positions(m0, words, word, cs, upto - 1);
        let j = upto - 1;
        let ctx = context_of(j, words);
        if lower_of(words[j]) == lower_of(word) && !key_present(m, ctx) {
            let pushed = m.push(
                (ctx, QueriesView { queries: probes_for(j, words, cs), word }),
            );
            assert forall|a: int, b: int|
                0 <= a < b < pushed.len() implies (#[trigger] pushed[a]).0 != (
            #[trigger] pushed[b]).0 by {
                if b == m.len() {
                    assert(!(m[a].0 == ctx));
                }
            }
        }
    }
}

proof fn lemma_scan_group_unique(
    m0: Seq<(Seq<char>, QueriesView)>,
    sentence: Seq<char>,
    words: Seq<Seq<char>>,
    group: Seq<Seq<char>>,
    upto: int,
)
    requires
        keys_unique(m0),
    ensures
        keys_unique(scan_group(m0, sentence, words, group, upto)),
    decreases upto,
{
    if upto > 0 {
        lemma_scan_group_unique(m0, sentence, words, group, upto - 1);
        let m = scan_group(m0, sentence, words, group, upto - 1);
        if crate::text::occurs(lower_of(sentence), group[upto - 1]) {
            lemma_scan_positions_unique(m, words, group[upto - 1], group, words.len() as int);
        }
    }
}

proof fn lemma_scan_groups_unique(
    m0: Seq<(Seq<char>, QueriesView)>,
    sentence: Seq<char>,
    words: Seq<Seq<char>>,
    cs: Seq<Seq<Seq<char>>>,
    upto: int,
)
    requires
        keys_unique(m0),
    ensures
        keys_unique(scan_groups(m0, sentence, words, cs, upto)),
    decreases upto,
{
    if upto > 0 {
        lemma_scan_groups_unique(m0, sentence, words, cs, upto - 1);
        let m = scan_groups(m0, sentence, words, cs, upto - 1);
        lemma_scan_group_unique(m, sentence, words, cs[upto - 1], cs[upto - 1].len() as int);
    }
}

proof fn lemma_scan_sentences_unique(
    m0: Seq<(Seq<char>, QueriesView)>,
    sentences: Seq<Seq<char>>,
    cs: Seq<Seq<Seq<char>>>,
    upto: int,
)
    requires
        keys_unique(m0),
    ensures
        keys_unique(scan_sentences(m0, sentences, cs, upto)),
    decreases upto,
{
    if upto > 0 {
        lemma_scan_sentences_unique(m0, sentences, cs, upto - 1);
        let m = scan_sentences(m0, sentences, cs, upto - 1);
        lemma_scan_groups_unique(
            m,
            sentences[upto - 1],
            crate::text::split_ws(sentences[upto - 1]),
            cs,
            cs.len() as int,
        );
    }
}

/// The scanner coalesces duplicate context keys: a full scan's context keys
/// are pairwise distinct, the first emission per context winning.
pub proof fn lemma_scan_keys_unique(text: Seq<char>, cs: Seq<Seq<Seq<char>>>)
    ensures
        keys_unique(scan_of(text, cs)),
{
    let sentences = crate::n_grams::solver::sentences_of(text);
    lemma_scan_sentences_unique(Seq::empty(), sentences, cs, sentences.len() as int);
}
/// One attributed probe row: the reconstructed n-gram, its frequency and its
/// token count.
pub struct QueryResult {
    pub input: String,
    pub frequency: i32,
    pub length: i32,
}

/// The content of a probe row.
pub open spec fn qr_view(qr: QueryResult) -> (Seq<char>, i32, i32) {
    (qr.input@, qr.frequency, qr.length)
}

/// The contents of a list of probe rows.
pub open spec fn qr_views(s: Seq<QueryResult>) -> Seq<(Seq<char>, i32, i32)> {
    s.map_values(|qr: QueryResult| qr_view(qr))
}

/// The row a candidate's returned frequency yields.
pub open spec fn result_entry(
    q: Seq<char>,
    sp: Seq<Seq<char>>,
    word: Seq<char>,
    freq: i32,
) -> (Seq<char>, i32, i32) {
    let input = n_gram_text(q, sp, word);
    (input, freq, crate::text::split_ws(input).len() as i32)
}

/// The rows the store returned, attributed to their n-grams.
pub open spec fn row_entries(q: Seq<char>, sp: Seq<Seq<char>>, rows: Seq<(String, i32)>) -> Seq<
    (Seq<char>, i32, i32),
> {
    rows.map_values(|row: (String, i32)| result_entry(q, sp, row.0@, row.1))
}

/// The words the store returned.
pub open spec fn row_words(rows: Seq<(String, i32)>) -> Seq<Seq<char>> {
    rows.map_values(|row: (String, i32)| row.0@)
}

/// The synthetic zero-frequency rows for candidates from position `i` on
/// that the store did not return.
pub open spec fn zero_from(
    q: Seq<char>,
    sp: Seq<Seq<char>>,
    vp: Seq<Seq<char>>,
    rows: Seq<(String, i32)>,
    i: int,
) -> Seq<(Seq<char>, i32, i32)>
    decreases vp.len() - i,
{
    if i < 0 || i >= vp.len() {
        Seq::empty()
    } else {
        let head = if !row_words(rows).contains(vp[i]) {
            seq![result_entry(q, sp, vp[i], 0)]
        } else {
            Seq::<(Seq<char>, i32, i32)>::empty()
        };
        head + zero_from(q, sp, vp, rows, i + 1)
    }
}

/// Whether some returned row carries exactly the word `w`.
fn rows_contain_word(rows: &Vec<(String, i32)>, w: &str) -> (r: bool)
    ensures
        r == row_words(rows@).contains(w@),
{
    let mut i: usize = 0;
    while i < rows.len()
        invariant
            i <= rows@.len(),
            forall|j: int| 0 <= j < i ==> row_words(rows@)[j] != w@,
        decreases rows@.len() - i,
    {
        if str_eq(rows[i].0.as_str(), w) {
            proof {
                assert(row_words(rows@)[i as int] == w@);
            }
            return true;
        }
        i += 1;
    }
    proof {
        assert forall|j: int| 0 <= j < row_words(rows@).len() implies row_words(rows@)[j]
            != w@ by {}
    }
    false
}

/// Attributes a probe's returned rows to their n-grams and zero-fills every
/// candidate the store did not return, so each candidate always appears.
#[verifier::loop_isolation(false)]
#[verifier::rlimit(100)]
pub fn collect_probe_results(builder: &QueryBuilder, rows: Vec<(String, i32)>) -> (r: Result<
    Vec<QueryResult>,
    String,
>)
    requires
        forall|i: int|
            0 <= i < rows@.len() ==> crate::text::split_ws(
                n_gram_text(builder.query@, views_of(builder.static_params@), rows@[i].0@),
            ).len() <= i32::MAX,
        forall|i: int|
            0 <= i < builder.varying_params@.len() ==> crate::text::split_ws(
                n_gram_text(
                    builder.query@,
                    views_of(builder.static_params@),
                    builder.varying_params@[i]@,
                ),
            ).len() <= i32::MAX,
    ensures
        r is Ok <==> valid_varying_query(builder.query@, builder.static_params@.len() as int),
        r matches Err(e) ==> e@ == "Invalid query"@,
        r matches Ok(out) ==> qr_views(out@) == row_entries(
            builder.query@,
            views_of(builder.static_params@),
            rows@,
        ) + zero_from(
            builder.query@,
            views_of(builder.static_params@),
            views_of(builder.varying_params@),
            rows@,
            0,
        ),
{
    let ghost q = builder.query@;
    let ghost sp = views_of(builder.static_params@);
    let ghost vp = views_of(builder.varying_params@);
    let query = builder.query.as_str();
    let ns = builder.static_params.len();
    let valid = (str_starts_with(query, GET_ALL_VARYING_3_3) && ns >= 2) || (str_starts_with(
        query,
        GET_ALL_VARYING_3_1,
    ) && ns >= 2) || (str_starts_with(query, GET_ALL_VARYING_2_2) && ns >= 1) || (str_starts_with(
        query,
        GET_ALL_VARYING_2_1,
    ) && ns >= 1) || str_starts_with(query, GET_ALL_VARYING_1);
    if !valid {
        return Err("Invalid query".to_owned());
    }
    let statics = as_slices(&builder.static_params);
    proof {
        assert(slice_views(statics@).len() == views_of(builder.static_params@).len());
        assert(statics@.len() == builder.static_params@.len());
        assert(valid_varying_query(q, statics@.len() as int));
    }
    let mut out: Vec<QueryResult> = Vec::new();
    let mut i: usize = 0;
    while i < rows.len()
        invariant
            i <= rows@.len(),
            qr_views(out@) =~= row_entries(q, sp, rows@.take(i as int)),
        decreases rows@.len() - i,
    {
        let input = crate::db::get_n_gram_string(query, &statics, rows[i].0.as_str());
        let length = crate::text::count_tokens(input.as_str());
        let ghost prev = out@;
        out.push(QueryResult { input, frequency: rows[i].1, length: length as i32 });
        proof {
            assert(qr_views(prev).len() == prev.len());
            assert(row_entries(q, sp, rows@.take(i as int)).len() == i);
            assert(qr_view(out@[i as int]) == result_entry(
                q,
                sp,
                rows@[i as int].0@,
                rows@[i as int].1,
            ));
            assert forall|m: int|
                0 <= m < i + 1 implies qr_views(out@)[m] == row_entries(
                q,
                sp,
                rows@.take(i + 1),
            )[m] by {
                assert(rows@.take(i + 1)[m] == rows@[m]);
                if m < i {
                    assert(out@[m] == prev[m]);
                    assert(qr_views(prev)[m] == row_entries(q, sp, rows@.take(i as int))[m]);
                    assert(rows@.take(i as int)[m] == rows@[m]);
                }
            }
            assert(qr_views(out@) =~= row_entries(q, sp, rows@.take(i + 1)));
        }
        i += 1;
    }
    proof {
        assert(rows@.take(rows@.len() as int) =~= rows@);
    }
    let ghost store_part = row_entries(q, sp, rows@);
    let mut i: usize = 0;
    while i < builder.varying_params.len()
        invariant
            i <= builder.varying_params@.len(),
            qr_views(out@) + zero_from(q, sp, vp, rows@, i as int) =~= store_part + zero_from(
                q,
                sp,
                vp,
                rows@,
                0,
            ),
        decreases builder.varying_params@.len() - i,
    {
        let w = &builder.varying_params[i];
        proof {
            assert(w@ == vp[i as int]);
        }
        if !rows_contain_word(&rows, w.as_str()) {
            let input = crate::db::get_n_gram_string(query, &statics, w.as_str());
            let length = crate::text::count_tokens(input.as_str());
            let ghost prev = out@;
            out.push(QueryResult { input, frequency: 0, length: length as i32 });
            proof {
                assert(qr_view(out@.last()) == result_entry(q, sp, vp[i as int], 0));
                assert forall|m: int|
                    0 <= m < out@.len() implies qr_views(out@)[m] == qr_views(prev).push(
                    result_entry(q, sp, vp[i as int], 0),
                )[m] by {
                    if m < prev.len() {
                        assert(out@[m] == prev[m]);
                    }
                }
                assert(qr_views(out@) =~= qr_views(prev).push(
                    result_entry(q, sp, vp[i as int], 0),
                ));
                assert(zero_from(q, sp, vp, rows@, i as int) =~= seq![
                    result_entry(q, sp, vp[i as int], 0),
                ] + zero_from(q, sp, vp, rows@, i + 1));
                assert(qr_views(out@) + zero_from(q, sp, vp, rows@, i + 1) =~= (qr_views(prev)
                    + zero_from(q, sp, vp, rows@, i as int)));
            }
        } else {
            proof {
                assert(zero_from(q, sp, vp, rows@, i as int) =~= zero_from(
                    q,
                    sp,
                    vp,
                    rows@,
                    i + 1,
                ));
            }
        }
        i += 1;
    }
    proof {
        assert(zero_from(q, sp, vp, rows@, vp.len() as int) =~= Seq::<
            (Seq<char>, i32, i32),
        >::empty());
        assert(qr_views(out@) =~= qr_views(out@) + zero_from(q, sp, vp, rows@, vp.len() as int));
        assert(qr_views(out@) =~= store_part + zero_from(q, sp, vp, rows@, 0));
    }
    Ok(out)
}

proof fn lemma_zero_from_covers(
    q: Seq<char>,
    sp: Seq<Seq<char>>,
    vp: Seq<Seq<char>>,
    rows: Seq<(String, i32)>,
    k: int,
    i: int,
)
    requires
        0 <= k <= i < vp.len(),
        !row_words(rows).contains(vp[i]),
    ensures
        exists|m: int|
            0 <= m < zero_from(q, sp, vp, rows, k).len() && (#[trigger] zero_from(
                q,
                sp,
                vp,
                rows,
                k,
            )[m]) == result_entry(q, sp, vp[i], 0),
    decreases i - k,
{
    let z = zero_from(q, sp, vp, rows, k);
    if k == i {
        assert(z[0] == result_entry(q, sp, vp[i], 0));
    } else {
        lemma_zero_from_covers(q, sp, vp, rows, k + 1, i);
        let zt = zero_from(q, sp, vp, rows, k + 1);
        let m = choose|m: int| 0 <= m < zt.len() && zt[m] == result_entry(q, sp, vp[i], 0);
        let head = if !row_words(rows).contains(vp[k]) {
            seq![result_entry(q, sp, vp[k], 0)]
        } else {
            Seq::<(Seq<char>, i32, i32)>::empty()
        };
        assert(z[head.len() + m] == result_entry(q, sp, vp[i], 0));
    }
}

/// The merged rows hold an entry whose n-gram is candidate `i`'s.
pub open spec fn candidate_covered(
    q: Seq<char>,
    sp: Seq<Seq<char>>,
    vp: Seq<Seq<char>>,
    rows: Seq<(String, i32)>,
    i: int,
) -> bool {
    exists|m: int|
        0 <= m < (row_entries(q, sp, rows) + zero_from(q, sp, vp, rows, 0)).len() && (#[trigger] (
        row_entries(q, sp, rows) + zero_from(q, sp, vp, rows, 0))[m]).0 == n_gram_text(
            q,
            sp,
            vp[i],
        )
}

/// Every candidate of a probe appears in the merged rows: as a store row, or
/// as the synthetic zero-frequency row, never neither.
pub proof fn lemma_zero_fill_complete(
    q: Seq<char>,
    sp: Seq<Seq<char>>,
    vp: Seq<Seq<char>>,
    rows: Seq<(String, i32)>,
)
    ensures
        forall|i: int| 0 <= i < vp.len() ==> #[trigger] candidate_covered(q, sp, vp, rows, i),
{
    let whole = row_entries(q, sp, rows) + zero_from(q, sp, vp, rows, 0);
    assert forall|i: int|
        0 <= i < vp.len() implies #[trigger] candidate_covered(q, sp, vp, rows, i) by {
        if row_words(rows).contains(vp[i]) {
            let j = choose|j: int| 0 <= j < row_words(rows).len() && row_words(rows)[j] == vp[i];
            assert(row_entries(q, sp, rows)[j].0 == n_gram_text(q, sp, rows[j].0@));
            assert(whole[j].0 == n_gram_text(q, sp, vp[i]));
        } else {
            lemma_zero_from_covers(q, sp, vp, rows, 0, i);
            let m = choose|m: int|
                0 <= m < zero_from(q, sp, vp, rows, 0).len() && zero_from(q, sp, vp, rows, 0)[m]
                    == result_entry(q, sp, vp[i], 0);
            assert(whole[row_entries(q, sp, rows).len() + m].0 == n_gram_text(q, sp, vp[i]));
        }
    }
}

/// One sentence context's merged results.
pub struct SentenceResult {
    pub sentence: String,
    pub word: String,
    pub results: Vec<QueryResult>,
}

/// Sentence results with the time the batch took.
pub struct TimedSentenceResults {
    pub time_taken: String,
    pub results: Vec<SentenceResult>,
}

/// The messages attributed to `key`, from position `i` on, in arrival order.
pub open spec fn msgs_for_from(
    messages: Seq<(String, QueryResult)>,
    key: Seq<char>,
    i: int,
) -> Seq<QueryResult>
    decreases messages.len() - i,
{
    if i < 0 || i >= messages.len() {
        Seq::empty()
    } else {
        let head = if messages[i].0@ == key {
            seq![messages[i].1]
        } else {
            Seq::<QueryResult>::empty()
        };
        head + msgs_for_from(messages, key, i + 1)
    }
}

/// Groups the executed probes' messages by sentence context, preserving the
/// order contexts were enqueued in and each context's message arrival order.
#[verifier::loop_isolation(false)]
pub fn assemble_sentence_results(
    queries: &Vec<(String, Queries)>,
    messages: &Vec<(String, QueryResult)>,
) -> (r: Vec<SentenceResult>)
    ensures
        r@.len() == queries@.len(),
        forall|i: int|
            0 <= i < queries@.len() ==> (#[trigger] r@[i]).sentence@ == scan_view(queries@)[i].0
                && r@[i].word@ == scan_view(queries@)[i].1.word && r@[i].results@ == msgs_for_from(
                messages@,
                scan_view(queries@)[i].0,
                0,
            ),
{
    let mut out: Vec<SentenceResult> = Vec::new();
    let mut i: usize = 0;
    while i < queries.len()
        invariant
            i <= queries@.len(),
            out@.len() == i,
            forall|m: int|
                0 <= m < i ==> (#[trigger] out@[m]).sentence@ == scan_view(queries@)[m].0
                    && out@[m].word@ == scan_view(queries@)[m].1.word && out@[m].results@
                    == msgs_for_from(messages@, scan_view(queries@)[m].0, 0),
        decreases queries@.len() - i,
    {
        let key = &queries[i].0;
        let mut results: Vec<QueryResult> = Vec::new();
        let mut j: usize = 0;
        while j < messages.len()
            invariant
                j <= messages@.len(),
                results@ + msgs_for_from(messages@, key@, j as int) =~= msgs_for_from(
                    messages@,
                    key@,
                    0,
                ),
            decreases messages@.len() - j,
        {
            let m = &messages[j];
            if str_eq(m.0.as_str(), key.as_str()) {
                let copy = QueryResult {
                    input: m.1.input.clone(),
                    frequency: m.1.frequency,
                    length: m.1.length,
                };
                proof {
                    assert(copy == messages@[j as int].1);
                }
                results.push(copy);
                proof {
                    assert(msgs_for_from(messages@, key@, j as int) =~= seq![
                        messages@[j as int].1,
                    ] + msgs_for_from(messages@, key@, j + 1));
                }
            } else {
                proof {
                    assert(msgs_for_from(messages@, key@, j as int) =~= msgs_for_from(
                        messages@,
                        key@,
                        j + 1,
                    ));
                }
            }
            j += 1;
        }
        proof {
            assert(msgs_for_from(messages@, key@, messages@.len() as int) =~= Seq::<
                QueryResult,
            >::empty());
            assert(results@ =~= results@ + msgs_for_from(messages@, key@, messages@.len() as int));
        }
        out.push(
            SentenceResult { sentence: key.clone(), word: queries[i].1.word.clone(), results },
        );
        i += 1;
    }
    out
}

} // verus!
