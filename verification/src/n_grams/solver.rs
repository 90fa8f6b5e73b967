//! The confusion-set solver: sentence splitting, probe construction and the
//! integer core of the predictor.

pub mod model;
pub mod predictor;

use vstd::prelude::*;

use crate::text::{lines_of, split_on, split_str, strip_cr, views_of};

verus! {

/// The sentences of a text: split on ". ", then each fragment on ", ", then
/// a trailing period removed.
pub open spec fn sentences_of(text: Seq<char>) -> Seq<Seq<char>> {
    let frags = split_on(text, ". "@).flat_map(|f: Seq<char>| split_on(f, ", "@));
    frags.map_values(|f: Seq<char>| strip_period(f))
}

/// A fragment with one trailing period removed.
pub open spec fn strip_period(f: Seq<char>) -> Seq<char> {
    if f.len() > 0 && f.last() == '.' {
        f.drop_last()
    } else {
        f
    }
}

/// Splits a text into sentence contexts: first on ". ", then on ", ", with a
/// trailing period removed from each piece.
#[verifier::loop_isolation(false)]
pub fn parse_text_to_sentences(text: &str) -> (r: Vec<String>)
    ensures
        views_of(r@) == sentences_of(text@),
{
    proof {
        reveal_strlit(". ");
        reveal_strlit(", ");
    }
    let outer = split_str(text, ". ");
    let mut result: Vec<String> = Vec::new();
    let ghost oviews = views_of(outer@);
    let mut i: usize = 0;
    while i < outer.len()
        invariant
            i <= outer@.len(),
            oviews == views_of(outer@),
            views_of(result@) =~= oviews.take(i as int).flat_map(
                |f: Seq<char>| split_on(f, ", "@),
            ),
        decreases outer@.len() - i,
    {
        let inner = split_str(outer[i].as_str(), ", ");
        let ghost iviews = views_of(inner@);
        let ghost before = result@;
        let mut j: usize = 0;
        while j < inner.len()
            invariant
                j <= inner@.len(),
                iviews == views_of(inner@),
                iviews == split_on(oviews[i as int], ", "@),
                0 <= i < oviews.len(),
                oviews == views_of(outer@),
                views_of(result@) =~= views_of(before) + iviews.take(j as int),
            decreases inner@.len() - j,
        {
            let ghost rprev = result@;
            result.push(inner[j].clone());
            proof {
                assert(iviews.take(j + 1) =~= iviews.take(j as int).push(iviews[j as int]));
                assert(result@ == rprev.push(result@[rprev.len() as int]));
                assert(views_of(rprev).len() == rprev.len());
                assert(result@.last()@ == iviews[j as int]);
                assert forall|m: int|
                    0 <= m < result@.len() implies views_of(result@)[m] == (views_of(before)
                    + iviews.take(j + 1))[m] by {
                    if m < rprev.len() {
                        assert(result@[m] == rprev[m]);
                        assert(views_of(rprev)[m] == (views_of(before) + iviews.take(j as int))[m]);
                    }
                }
                assert(views_of(result@) =~= views_of(before) + iviews.take(j + 1));
            }
            j += 1;
        }
        proof {
            assert(iviews.take(inner@.len() as int) =~= iviews);
            assert(oviews.take(i + 1) =~= oviews.take(i as int).push(oviews[i as int]));
            oviews.take(i as int).lemma_flat_map_push(
                |f: Seq<char>| split_on(f, ", "@),
                oviews[i as int],
            );
            assert(views_of(result@) =~= oviews.take(i + 1).flat_map(
                |f: Seq<char>| split_on(f, ", "@),
            ));
        }
        i += 1;
    }
    proof {
        assert(oviews.take(outer@.len() as int) =~= oviews);
    }
    let ghost flat = oviews.flat_map(|f: Seq<char>| split_on(f, ", "@));
    let mut out: Vec<String> = Vec::new();
    let mut k: usize = 0;
    while k < result.len()
        invariant
            k <= result@.len(),
            flat == views_of(result@),
            views_of(out@) =~= flat.take(k as int).map_values(|f: Seq<char>| strip_period(f)),
        decreases result@.len() - k,
    {
        let line = &result[k];
        let llen = line.as_str().unicode_len();
        let stripped: String = if llen > 0 && line.as_str().get_char(llen - 1) == '.' {
            proof {
                assert(line@.last() == '.');
                assert(line@.drop_last() =~= line@.subrange(0, llen - 1));
            }
            line.as_str().substring_char(0, llen - 1).to_owned()
        } else {
            line.clone()
        };
        proof {
            assert(flat[k as int] == line@);
            assert(stripped@ == strip_period(flat[k as int]));
        }
        let ghost prev = out@;
        out.push(stripped);
        proof {
            assert(views_of(prev).len() == prev.len());
            assert(flat.take(k as int).len() == k);
            assert(prev.len() == k);
            assert forall|m: int| 0 <= m < k + 1 implies views_of(out@)[m] == flat.take(
                k + 1,
            ).map_values(|f: Seq<char>| strip_period(f))[m] by {
                assert(flat.take(k + 1)[m] == flat[m]);
                if m < k {
                    assert(out@[m] == prev[m]);
                    assert(views_of(prev)[m] == flat.take(k as int).map_values(
                        |f: Seq<char>| strip_period(f),
                    )[m]);
                    assert(flat.take(k as int)[m] == flat[m]);
                } else {
                    assert(out@[m] == stripped);
                }
            }
            assert(views_of(out@) =~= flat.take(k + 1).map_values(|f: Seq<char>| strip_period(f)));
        }
        k += 1;
    }
    proof {
        assert(flat.take(result@.len() as int) =~= flat);
        assert(views_of(out@) =~= sentences_of(text@));
    }
    out
}

} // verus!
