//! Character-level text utilities: substring search, splitting, joining,
//! whitespace tokenization and decimal parsing, with exact specifications.

use vstd::prelude::*;

verus! {

broadcast use vstd::string::group_string_axioms;

/// A pattern `pat` occurs in `s` at position `i`.
pub open spec fn match_at(s: Seq<char>, pat: Seq<char>, i: int) -> bool {
    &&& 0 <= i
    &&& i + pat.len() <= s.len()
    &&& s.subrange(i, i + pat.len() as int) == pat
}

/// `pat` occurs somewhere in `s`.
pub open spec fn occurs(s: Seq<char>, pat: Seq<char>) -> bool {
    exists|i: int| match_at(s, pat, i)
}

/// Index of the leftmost occurrence of `pat` in `s`, or -1 when there is none.
pub open spec fn first_occurrence(s: Seq<char>, pat: Seq<char>) -> int
    decreases s.len(),
{
    if pat.len() > s.len() {
        -1
    } else if s.subrange(0, pat.len() as int) == pat {
        0
    } else if s.len() == 0 {
        -1
    } else {
        let r = first_occurrence(s.drop_first(), pat);
        if r < 0 {
            -1
        } else {
            r + 1
        }
    }
}

/// Shifting a match across `drop_first`.
proof fn lemma_match_at_shift(s: Seq<char>, pat: Seq<char>, i: int)
    requires
        s.len() > 0,
        1 <= i,
    ensures
        match_at(s, pat, i) <==> match_at(s.drop_first(), pat, i - 1),
{
    if match_at(s, pat, i) {
        assert(s.drop_first().subrange(i - 1, i - 1 + pat.len() as int) =~= s.subrange(
            i,
            i + pat.len() as int,
        ));
    } else if match_at(s.drop_first(), pat, i - 1) {
        assert(s.subrange(i, i + pat.len() as int) =~= s.drop_first().subrange(
            i - 1,
            i - 1 + pat.len() as int,
        ));
    }
}

/// What `first_occurrence` returns: -1 exactly when there is no occurrence,
/// otherwise the leftmost occurrence.
pub proof fn lemma_first_occurrence(s: Seq<char>, pat: Seq<char>)
    ensures
        first_occurrence(s, pat) == -1 <==> !occurs(s, pat),
        first_occurrence(s, pat) >= 0 ==> match_at(s, pat, first_occurrence(s, pat)) && (forall|
            j: int,
        | 0 <= j < first_occurrence(s, pat) ==> !match_at(s, pat, j)),
        first_occurrence(s, pat) >= -1,
    decreases s.len(),
{
    let fo = first_occurrence(s, pat);
    if pat.len() > s.len() {
        assert(forall|i: int| match_at(s, pat, i) ==> i + pat.len() <= s.len());
        assert(!occurs(s, pat));
    } else if s.subrange(0, pat.len() as int) == pat {
        assert(match_at(s, pat, 0));
    } else if s.len() == 0 {
        assert(pat.len() == 0);
        assert(s.subrange(0, pat.len() as int) =~= pat);
    } else {
        lemma_first_occurrence(s.drop_first(), pat);
        let r = first_occurrence(s.drop_first(), pat);
        assert(!match_at(s, pat, 0));
        assert forall|j: int| 1 <= j implies (match_at(s, pat, j) <==> match_at(
            s.drop_first(),
            pat,
            j - 1,
        )) by {
            lemma_match_at_shift(s, pat, j);
        }
        if r < 0 {
            assert(forall|j: int| 1 <= j ==> !match_at(s, pat, j));
            assert(!occurs(s, pat));
        } else {
            assert(match_at(s, pat, r + 1));
            assert forall|j: int| 0 <= j < r + 1 implies !match_at(s, pat, j) by {
                if j >= 1 {
                    assert(!match_at(s.drop_first(), pat, j - 1));
                }
            }
        }
    }
}

/// Splitting `s` on every occurrence of `pat`, leftmost first.
pub open spec fn split_on(s: Seq<char>, pat: Seq<char>) -> Seq<Seq<char>>
    decreases s.len(),
{
    let i = first_occurrence(s, pat);
    if pat.len() == 0 || i < 0 || i + pat.len() > s.len() {
        seq![s]
    } else {
        seq![s.subrange(0, i)] + split_on(s.subrange(i + pat.len() as int, s.len() as int), pat)
    }
}

/// Joining a list of parts with a separator.
pub open spec fn join_with(parts: Seq<Seq<char>>, sep: Seq<char>) -> Seq<char>
    decreases parts.len(),
{
    if parts.len() == 0 {
        Seq::empty()
    } else if parts.len() == 1 {
        parts[0]
    } else {
        parts[0] + sep + join_with(parts.drop_first(), sep)
    }
}

/// Appending one more part to a join.
pub proof fn lemma_join_with_push(parts: Seq<Seq<char>>, sep: Seq<char>, part: Seq<char>)
    ensures
        join_with(parts.push(part), sep) == if parts.len() == 0 {
            part
        } else {
            join_with(parts, sep) + sep + part
        },
    decreases parts.len(),
{
    let whole = parts.push(part);
    if parts.len() == 0 {
        assert(whole =~= seq![part]);
        assert(join_with(seq![part], sep) == part);
    } else if parts.len() == 1 {
        assert(whole.drop_first() =~= seq![part]);
        assert(whole[0] == parts[0]);
        assert(join_with(whole, sep) == whole[0] + sep + join_with(whole.drop_first(), sep));
        assert(join_with(whole, sep) =~= join_with(parts, sep) + sep + part);
    } else {
        lemma_join_with_push(parts.drop_first(), sep, part);
        assert(whole.drop_first() =~= parts.drop_first().push(part));
        assert(whole[0] == parts[0]);
        assert(join_with(whole, sep) == whole[0] + sep + join_with(whole.drop_first(), sep));
        assert(join_with(whole.drop_first(), sep) == join_with(parts.drop_first(), sep) + sep
            + part);
        assert(join_with(whole, sep) =~= (parts[0] + sep + join_with(parts.drop_first(), sep))
            + sep + part);
        assert(join_with(parts, sep) == parts[0] + sep + join_with(parts.drop_first(), sep));
    }
}

/// Character equality of two string slices.
pub fn str_eq(a: &str, b: &str) -> (r: bool)
    ensures
        r == (a@ == b@),
{
    let alen = a.unicode_len();
    let blen = b.unicode_len();
    if alen != blen {
        assert(a@ != b@);
        return false;
    }
    let mut i: usize = 0;
    while i < alen
        invariant
            i <= alen,
            alen == a@.len(),
            alen == b@.len(),
            forall|j: int| 0 <= j < i ==> a@[j] == b@[j],
        decreases alen - i,
    {
        if a.get_char(i) != b.get_char(i) {
            return false;
        }
        i += 1;
    }
    proof {
        assert(a@ =~= b@);
    }
    true
}

/// Whether `s` starts with `pat`, by characters.
pub fn str_starts_with(s: &str, pat: &str) -> (r: bool)
    ensures
        r == (pat@.len() <= s@.len() && s@.subrange(0, pat@.len() as int) == pat@),
{
    let slen = s.unicode_len();
    let plen = pat.unicode_len();
    if plen > slen {
        return false;
    }
    let mut i: usize = 0;
    while i < plen
        invariant
            i <= plen,
            plen == pat@.len(),
            slen == s@.len(),
            plen <= slen,
            forall|j: int| 0 <= j < i ==> s@[j] == pat@[j],
        decreases plen - i,
    {
        if s.get_char(i) != pat.get_char(i) {
            assert(s@.subrange(0, pat@.len() as int)[i as int] != pat@[i as int]);
            return false;
        }
        i += 1;
    }
    proof {
        assert(s@.subrange(0, pat@.len() as int) =~= pat@);
    }
    true
}

/// Index of the leftmost occurrence of `pat` in `s`, if any.
pub fn find_first(s: &str, pat: &str) -> (r: Option<usize>)
    ensures
        match r {
            Some(i) => i == first_occurrence(s@, pat@) && match_at(s@, pat@, i as int),
            None => first_occurrence(s@, pat@) == -1 && !occurs(s@, pat@),
        },
{
    proof {
        lemma_first_occurrence(s@, pat@);
    }
    let slen = s.unicode_len();
    let plen = pat.unicode_len();
    if plen > slen {
        return None;
    }
    if plen == 0 {
        proof {
            assert(s@.subrange(0, 0) =~= pat@);
            assert(match_at(s@, pat@, 0));
        }
        return Some(0);
    }
    let end = slen - plen;
    let mut i: usize = 0;
    while i <= end
        invariant
            1 <= plen <= slen,
            end == slen - plen,
            slen == s@.len(),
            plen == pat@.len(),
            i <= end + 1,
            forall|j: int| 0 <= j < i ==> !match_at(s@, pat@, j),
        decreases end + 1 - i,
    {
        let mut k: usize = 0;
        let mut ok: bool = true;
        while k < plen && ok
            invariant
                i + plen <= slen,
                slen == s@.len(),
                plen == pat@.len(),
                k <= plen,
                ok ==> forall|j: int| 0 <= j < k ==> s@[i + j] == pat@[j],
                !ok ==> s@.subrange(i as int, i + plen as int) != pat@,
            decreases plen - k,
        {
            if s.get_char(i + k) != pat.get_char(k) {
                proof {
                    assert(s@.subrange(i as int, i + plen as int)[k as int] != pat@[k as int]);
                }
                ok = false;
            }
            k += 1;
        }
        if ok {
            proof {
                assert(s@.subrange(i as int, i + plen as int) =~= pat@);
                assert(match_at(s@, pat@, i as int));
                lemma_first_occurrence(s@, pat@);
                let fo = first_occurrence(s@, pat@);
                assert(occurs(s@, pat@));
                assert(fo >= 0);
                if fo < i {
                    assert(match_at(s@, pat@, fo));
                    assert(false);
                } else if fo > i {
                    assert(!match_at(s@, pat@, i as int));
                    assert(false);
                }
            }
            return Some(i);
        }
        proof {
            assert(!match_at(s@, pat@, i as int));
        }
        i += 1;
    }
    proof {
        assert forall|j: int| !match_at(s@, pat@, j) by {
            if match_at(s@, pat@, j) {
                assert(0 <= j && j + plen <= slen);
                assert(j < i);
            }
        }
        assert(!occurs(s@, pat@));
    }
    None
}

/// The views of a list of strings.
pub open spec fn views_of(v: Seq<String>) -> Seq<Seq<char>> {
    v.map_values(|t: String| t@)
}

/// Splits `s` at every occurrence of `pat`, leftmost first.
pub fn split_str(s: &str, pat: &str) -> (r: Vec<String>)
    requires
        pat@.len() > 0,
    ensures
        views_of(r@) == split_on(s@, pat@),
    decreases s@.len(),
{
    proof {
        lemma_first_occurrence(s@, pat@);
    }
    match find_first(s, pat) {
        None => {
            let mut v: Vec<String> = Vec::new();
            v.push(s.to_owned());
            proof {
                assert(views_of(v@) =~= seq![s@]);
            }
            v
        },
        Some(i) => {
            let plen = pat.unicode_len();
            let slen = s.unicode_len();
            let head = s.substring_char(0, i).to_owned();
            let rest = s.substring_char(i + plen, slen);
            let mut tail = split_str(rest, pat);
            tail.insert(0, head);
            proof {
                assert(views_of(tail@) =~= seq![s@.subrange(0, i as int)] + split_on(
                    rest@,
                    pat@,
                ));
            }
            tail
        },
    }
}

/// Unicode whitespace, as used for word tokenization.
pub open spec fn is_ws_char(c: char) -> bool {
    ||| (c as u32) == 0x9
    ||| (c as u32) == 0xa
    ||| (c as u32) == 0xb
    ||| (c as u32) == 0xc
    ||| (c as u32) == 0xd
    ||| (c as u32) == 0x20
    ||| (c as u32) == 0x85
    ||| (c as u32) == 0xa0
    ||| (c as u32) == 0x1680
    ||| (0x2000 <= (c as u32) && (c as u32) <= 0x200a)
    ||| (c as u32) == 0x2028
    ||| (c as u32) == 0x2029
    ||| (c as u32) == 0x202f
    ||| (c as u32) == 0x205f
    ||| (c as u32) == 0x3000
}

/// Whether `c` is whitespace.
pub fn is_whitespace_char(c: char) -> (r: bool)
    ensures
        r == is_ws_char(c),
{
    let u = c as u32;
    u == 0x9 || u == 0xa || u == 0xb || u == 0xc || u == 0xd || u == 0x20 || u == 0x85 || u == 0xa0
        || u == 0x1680 || (0x2000 <= u && u <= 0x200a) || u == 0x2028 || u == 0x2029 || u == 0x202f
        || u == 0x205f || u == 0x3000
}

/// Index of the first whitespace character of `s`, or `s.len()` when none.
pub open spec fn first_ws(s: Seq<char>) -> int
    decreases s.len(),
{
    if s.len() == 0 {
        0
    } else if is_ws_char(s[0]) {
        0
    } else {
        1 + first_ws(s.drop_first())
    }
}

/// Basic facts about `first_ws`.
pub proof fn lemma_first_ws(s: Seq<char>)
    ensures
        0 <= first_ws(s) <= s.len(),
        forall|j: int| 0 <= j < first_ws(s) ==> !is_ws_char(s[j]),
        first_ws(s) < s.len() ==> is_ws_char(s[first_ws(s)]),
    decreases s.len(),
{
    if s.len() == 0 || is_ws_char(s[0]) {
    } else {
        lemma_first_ws(s.drop_first());
        assert forall|j: int| 0 <= j < first_ws(s) implies !is_ws_char(s[j]) by {
            if j >= 1 {
                assert(!is_ws_char(s.drop_first()[j - 1]));
            }
        }
    }
}

/// The whitespace-delimited words of `s`, in order, without empties.
pub open spec fn split_ws(s: Seq<char>) -> Seq<Seq<char>>
    decreases s.len(),
{
    if s.len() == 0 {
        Seq::empty()
    } else if is_ws_char(s[0]) {
        split_ws(s.drop_first())
    } else {
        let j = if 1 <= first_ws(s) && first_ws(s) <= s.len() {
            first_ws(s)
        } else {
            1
        };
        seq![s.subrange(0, j)] + split_ws(s.subrange(j, s.len() as int))
    }
}

/// Index of the first whitespace character, or the length when none.
pub fn find_first_ws(s: &str) -> (r: usize)
    ensures
        r == first_ws(s@),
{
    proof {
        lemma_first_ws(s@);
    }
    let len = s.unicode_len();
    let mut i: usize = 0;
    while i < len
        invariant
            i <= len,
            len == s@.len(),
            forall|j: int| 0 <= j < i ==> !is_ws_char(s@[j]),
        decreases len - i,
    {
        if is_whitespace_char(s.get_char(i)) {
            proof {
                let fw = first_ws(s@);
                lemma_first_ws(s@);
                if fw < i {
                    assert(is_ws_char(s@[fw]));
                    assert(false);
                } else if fw > i {
                    assert(!is_ws_char(s@[i as int]));
                    assert(false);
                }
            }
            return i;
        }
        i += 1;
    }
    proof {
        let fw = first_ws(s@);
        if fw < len {
            assert(is_ws_char(s@[fw]));
            assert(false);
        }
    }
    len
}

/// Splits `s` into its whitespace-delimited words.
pub fn split_ws_str(s: &str) -> (r: Vec<String>)
    ensures
        views_of(r@) == split_ws(s@),
    decreases s@.len(),
{
    let len = s.unicode_len();
    if len == 0 {
        let v: Vec<String> = Vec::new();
        proof {
            assert(views_of(v@) =~= split_ws(s@));
        }
        v
    } else if is_whitespace_char(s.get_char(0)) {
        let rest = s.substring_char(1, len);
        proof {
            assert(rest@ =~= s@.drop_first());
        }
        split_ws_str(rest)
    } else {
        proof {
            lemma_first_ws(s@);
            assert(first_ws(s@) != 0);
        }
        let j = find_first_ws(s);
        let head = s.substring_char(0, j).to_owned();
        let rest = s.substring_char(j, len);
        let mut tail = split_ws_str(rest);
        tail.insert(0, head);
        proof {
            assert(views_of(tail@) =~= seq![s@.subrange(0, j as int)] + split_ws(rest@));
        }
        tail
    }
}

/// Joins the given parts with `sep` between consecutive parts.
pub fn join_with_sep(parts: &Vec<String>, sep: &str) -> (r: String)
    ensures
        r@ == join_with(views_of(parts@), sep@),
{
    let mut out = String::new();
    let mut i: usize = 0;
    while i < parts.len()
        invariant
            i <= parts.len(),
            out@ == join_with(views_of(parts@).take(i as int), sep@),
        decreases parts.len() - i,
    {
        if i > 0 {
            out.append(sep);
        }
        out.append(parts[i].as_str());
        proof {
            let prefix = views_of(parts@).take(i as int);
            lemma_join_with_push(prefix, sep@, parts@[i as int]@);
            assert(views_of(parts@).take(i + 1) =~= prefix.push(parts@[i as int]@));
        }
        i += 1;
    }
    proof {
        assert(views_of(parts@).take(parts@.len() as int) =~= views_of(parts@));
    }
    out
}

/// Lowercased form of a character sequence, as Unicode case mapping defines it.
pub uninterp spec fn lower_of(s: Seq<char>) -> Seq<char>;

/// Relies on str::to_lowercase: the lowercased text depends on the characters alone.
#[verifier::external_body]
pub(crate) fn lowercase(s: &str) -> (r: String)
    ensures
        r@ == lower_of(s@),
{
    s.to_lowercase()
}

/// Decimal digit.
pub open spec fn is_digit(c: char) -> bool {
    0x30 <= (c as u32) && (c as u32) <= 0x39
}

/// Value of a decimal digit.
pub open spec fn digit_val(c: char) -> int {
    (c as u32) - 0x30
}

/// Every character of `s` is a decimal digit.
pub open spec fn all_digits(s: Seq<char>) -> bool {
    forall|i: int| 0 <= i < s.len() ==> is_digit(s[i])
}

/// Value of a digit string read in base ten.
pub open spec fn dec_val(s: Seq<char>) -> int
    decreases s.len(),
{
    if s.len() == 0 {
        0
    } else {
        dec_val(s.drop_last()) * 10 + digit_val(s.last())
    }
}

/// Ten to the power `n`.
pub open spec fn pow10(n: nat) -> int
    decreases n,
{
    if n == 0 {
        1
    } else {
        10 * pow10((n - 1) as nat)
    }
}

/// The integer denoted by `s`: an optional sign followed by one or more digits.
pub open spec fn int_of_str(s: Seq<char>) -> Option<int> {
    let ds = if s.len() > 0 && (s[0] == '-' || s[0] == '+') {
        s.drop_first()
    } else {
        s
    };
    let sign: int = if s.len() > 0 && s[0] == '-' {
        -1
    } else {
        1
    };
    if ds.len() > 0 && all_digits(ds) {
        Some(sign * dec_val(ds))
    } else {
        None
    }
}

/// The value of `s` as an i64, when it denotes one in range.
pub open spec fn i64_of_str(s: Seq<char>) -> Option<i64> {
    match int_of_str(s) {
        None => None,
        Some(v) => if i64::MIN <= v <= i64::MAX {
            Some(v as i64)
        } else {
            None
        },
    }
}

/// The value of `s` as an i32, when it denotes one in range.
pub open spec fn i32_of_str(s: Seq<char>) -> Option<i32> {
    match int_of_str(s) {
        None => None,
        Some(v) => if i32::MIN <= v <= i32::MAX {
            Some(v as i32)
        } else {
            None
        },
    }
}

/// A digit string's value is non-negative and below ten to its length.
pub proof fn lemma_dec_val_bound(s: Seq<char>)
    requires
        all_digits(s),
    ensures
        0 <= dec_val(s) < pow10(s.len()),
    decreases s.len(),
{
    if s.len() > 0 {
        assert(all_digits(s.drop_last()));
        lemma_dec_val_bound(s.drop_last());
        assert(is_digit(s.last()));
    }
}

/// A leading zero does not change a digit string's value.
pub proof fn lemma_dec_val_leading_zero(s: Seq<char>)
    requires
        s.len() >= 1,
        (s[0] as u32) == 0x30,
    ensures
        dec_val(s) == dec_val(s.drop_first()),
    decreases s.len(),
{
    if s.len() == 1 {
        assert(s.drop_last() =~= Seq::<char>::empty());
        assert(s.drop_first() =~= Seq::<char>::empty());
    } else {
        let dl = s.drop_last();
        lemma_dec_val_leading_zero(dl);
        assert(s.drop_first().drop_last() =~= dl.drop_first());
        assert(s.drop_first().last() == s.last());
    }
}

/// A digit string with a non-zero first digit is at least ten to one less
/// than its length.
pub proof fn lemma_dec_val_lower(s: Seq<char>)
    requires
        all_digits(s),
        s.len() >= 1,
        (s[0] as u32) != 0x30,
    ensures
        dec_val(s) >= pow10((s.len() - 1) as nat),
    decreases s.len(),
{
    if s.len() == 1 {
        assert(s.drop_last() =~= Seq::<char>::empty());
        assert(is_digit(s[0]));
        assert(digit_val(s[0]) >= 1);
        assert(dec_val(s.drop_last()) == 0);
        assert(s.last() == s[0]);
        assert(dec_val(s) == digit_val(s[0]));
        assert(pow10((s.len() - 1) as nat) == 1);
    } else {
        let dl = s.drop_last();
        assert(all_digits(dl));
        lemma_dec_val_lower(dl);
        assert(dec_val(dl) >= pow10((dl.len() - 1) as nat));
        assert(pow10((s.len() - 1) as nat) == 10 * pow10((s.len() - 2) as nat));
        assert(is_digit(s.last()));
        assert(digit_val(s.last()) >= 0);
        assert(dec_val(s) == dec_val(dl) * 10 + digit_val(s.last()));
        assert(dec_val(dl) * 10 >= pow10((s.len() - 2) as nat) * 10);
    }
}

/// Whether `c` is a decimal digit.
pub fn is_digit_char(c: char) -> (r: bool)
    ensures
        r == is_digit(c),
{
    let u = c as u32;
    0x30 <= u && u <= 0x39
}

/// Parses `s` as a base-ten i64: an optional sign and one or more digits.
#[verifier::loop_isolation(false)]
#[verifier::rlimit(100)]
#[verifier::spinoff_prover]
pub fn parse_i64(s: &str) -> (r: Option<i64>)
    ensures
        r == i64_of_str(s@),
{
    let len = s.unicode_len();
    if len == 0 {
        return None;
    }
    let c0 = s.get_char(0);
    let neg = c0 == '-';
    let has_sign = neg || c0 == '+';
    let start: usize = if has_sign {
        1
    } else {
        0
    };
    let ghost ds = if has_sign {
        s@.drop_first()
    } else {
        s@
    };
    proof {
        assert(ds =~= s@.subrange(start as int, len as int));
    }
    if start == len {
        return None;
    }
    let mut i: usize = start;
    while i < len
        invariant
            start <= i <= len,
            len == s@.len(),
            ds == s@.subrange(start as int, len as int),
            forall|j: int| start <= j < i ==> is_digit(s@[j]),
        decreases len - i,
    {
        if !is_digit_char(s.get_char(i)) {
            proof {
                assert(ds.len() == len - start);
                assert(0 <= i - start < ds.len());
                assert(!is_digit(ds[i - start]));
                assert(!all_digits(ds));
            }
            return None;
        }
        i += 1;
    }
    proof {
        assert forall|j: int| 0 <= j < ds.len() implies is_digit(ds[j]) by {
            assert(ds[j] == s@[start + j]);
        }
    }
    let mut z: usize = start;
    while z < len && (s.get_char(z) as u32) == 0x30
        invariant
            start <= z <= len,
            len == s@.len(),
            ds == s@.subrange(start as int, len as int),
            all_digits(ds),
            dec_val(s@.subrange(z as int, len as int)) == dec_val(ds),
        decreases len - z,
    {
        proof {
            let cur = s@.subrange(z as int, len as int);
            lemma_dec_val_leading_zero(cur);
            assert(cur.drop_first() =~= s@.subrange(z + 1, len as int));
        }
        z += 1;
    }
    let ghost rest = s@.subrange(z as int, len as int);
    proof {
        assert(all_digits(rest)) by {
            assert(forall|j: int|
                0 <= j < rest.len() ==> rest[j] == ds[j + (z - start)] && is_digit(
                    ds[j + (z - start)],
                ));
        }
        lemma_dec_val_bound(rest);
    }
    if len - z > 19 {
        proof {
            lemma_dec_val_lower(rest);
            assert(rest.len() - 1 >= 19);
            reveal_with_fuel(pow10, 21);
            assert(pow10(19) == 10_000_000_000_000_000_000);
            lemma_pow10_mono(19, (rest.len() - 1) as nat);
            assert(dec_val(ds) >= pow10(19));
        }
        return None;
    }
    let mut acc: i128 = 0;
    let mut i: usize = z;
    while i < len
        invariant
            z <= i <= len,
            len == s@.len(),
            len - z <= 19,
            rest == s@.subrange(z as int, len as int),
            all_digits(rest),
            acc == dec_val(rest.take(i - z)),
            0 <= acc < pow10((i - z) as nat),
        decreases len - i,
    {
        let c = s.get_char(i);
        proof {
            assert(rest[i - z] == s@[i as int]);
            assert(rest.take(i - z + 1).drop_last() =~= rest.take(i - z));
            assert(rest.take(i - z + 1).last() == rest[i - z]);
            reveal_with_fuel(pow10, 21);
            assert(pow10((i - z) as nat) <= pow10(19)) by {
                lemma_pow10_mono((i - z) as nat, 19);
            }
        }
        acc = acc * 10 + ((c as u32) - 0x30) as i128;
        i += 1;
    }
    proof {
        assert(rest.take(len - z) =~= rest);
        reveal_with_fuel(pow10, 21);
        assert(pow10((len - z) as nat) <= pow10(19)) by {
            lemma_pow10_mono((len - z) as nat, 19);
        }
    }
    let v: i128 = if neg {
        -acc
    } else {
        acc
    };
    proof {
        assert(dec_val(rest) == dec_val(ds));
        assert(acc == dec_val(rest.take(len - z)));
        assert(rest.take(len - z) =~= rest);
        assert(acc == dec_val(ds));
        if neg {
            assert(int_of_str(s@) == Some(-1 * dec_val(ds)));
        } else {
            assert(int_of_str(s@) == Some(1 * dec_val(ds)));
        }
        assert(v == int_of_str(s@).unwrap());
    }
    if v < i64::MIN as i128 || v > i64::MAX as i128 {
        None
    } else {
        Some(v as i64)
    }
}

/// Ten to the power is monotone in the exponent.
pub proof fn lemma_pow10_mono(a: nat, b: nat)
    requires
        a <= b,
    ensures
        pow10(a) <= pow10(b),
        pow10(a) >= 1,
    decreases b,
{
    if b > 0 {
        if a == b {
            lemma_pow10_mono((a - 1) as nat, (b - 1) as nat);
        } else {
            lemma_pow10_mono(a, (b - 1) as nat);
        }
    }
}

/// Parses `s` as a base-ten i32: an optional sign and one or more digits.
pub fn parse_i32(s: &str) -> (r: Option<i32>)
    ensures
        r == i32_of_str(s@),
{
    match parse_i64(s) {
        None => None,
        Some(v) => {
            if v < i32::MIN as i64 || v > i32::MAX as i64 {
                None
            } else {
                Some(v as i32)
            }
        },
    }
}

/// Whether some element of `v` has exactly the characters of `w`.
pub fn vec_contains_str(v: &Vec<String>, w: &str) -> (r: bool)
    ensures
        r == views_of(v@).contains(w@),
{
    let mut i: usize = 0;
    while i < v.len()
        invariant
            i <= v.len(),
            forall|j: int| 0 <= j < i ==> views_of(v@)[j] != w@,
        decreases v.len() - i,
    {
        if str_eq(v[i].as_str(), w) {
            proof {
                assert(views_of(v@)[i as int] == w@);
            }
            return true;
        }
        i += 1;
    }
    proof {
        assert forall|j: int| 0 <= j < views_of(v@).len() implies views_of(v@)[j] != w@ by {}
    }
    false
}

/// A text has at most as many words as characters.
pub proof fn lemma_split_ws_len(s: Seq<char>)
    ensures
        split_ws(s).len() <= s.len(),
    decreases s.len(),
{
    if s.len() == 0 {
    } else if is_ws_char(s[0]) {
        lemma_split_ws_len(s.drop_first());
    } else {
        lemma_first_ws(s);
        let j = if 1 <= first_ws(s) && first_ws(s) <= s.len() {
            first_ws(s)
        } else {
            1
        };
        lemma_split_ws_len(s.subrange(j, s.len() as int));
    }
}

/// Appends an owned copy of `s`.
pub fn push_owned(dst: &mut Vec<String>, s: &str)
    ensures
        views_of(final(dst)@) == views_of(old(dst)@).push(s@),
{
    let ghost prev = dst@;
    dst.push(s.to_owned());
    proof {
        assert(views_of(prev).len() == prev.len());
        assert forall|m: int|
            0 <= m < dst@.len() implies views_of(dst@)[m] == views_of(prev).push(s@)[m] by {
            if m < prev.len() {
                assert(dst@[m] == prev[m]);
            } else {
                assert(dst@[m]@ == s@);
            }
        }
        assert(views_of(dst@) =~= views_of(prev).push(s@));
    }
}

/// Number of whitespace-delimited words of `s`.
pub fn count_tokens(s: &str) -> (r: usize)
    ensures
        r == split_ws(s@).len(),
{
    let words = split_ws_str(s);
    words.len()
}

/// A single comma, the separator of varying-index lists.
pub open spec fn comma_seq() -> Seq<char> {
    seq![',']
}

/// The confusion set a file's text denotes: one group of whitespace-separated
/// candidate words per line.
pub open spec fn confusion_set_of(text: Seq<char>) -> Seq<Seq<Seq<char>>> {
    lines_of(text).map_values(|l: Seq<char>| split_ws(l))
}

/// Splitting a single-character join recovers the parts, when no part holds
/// the separator.
pub proof fn lemma_split_join_single(parts: Seq<Seq<char>>, c: char)
    requires
        parts.len() >= 1,
        forall|i: int, j: int|
            0 <= i < parts.len() && 0 <= j < parts[i].len() ==> (#[trigger] parts[i][j]) != c,
    ensures
        split_on(join_with(parts, seq![c]), seq![c]) == parts,
    decreases parts.len(),
{
    let sep = seq![c];
    let s = join_with(parts, sep);
    lemma_first_occurrence(s, sep);
    if parts.len() == 1 {
        assert(s == parts[0]);
        assert forall|i: int| !match_at(s, sep, i) by {
            if match_at(s, sep, i) {
                assert(s.subrange(i, i + 1)[0] == c);
                assert(parts[0][i] != c);
            }
        }
        assert(!occurs(s, sep));
        assert(first_occurrence(s, sep) == -1);
        assert(split_on(s, sep) =~= seq![s]);
        assert(split_on(s, sep) =~= parts);
    } else {
        let rest = parts.drop_first();
        assert(s == parts[0] + sep + join_with(rest, sep));
        let p0 = parts[0].len() as int;
        assert(s.subrange(p0, p0 + 1) =~= sep);
        assert(match_at(s, sep, p0));
        assert forall|j: int| 0 <= j < p0 implies !match_at(s, sep, j) by {
            if match_at(s, sep, j) {
                assert(s.subrange(j, j + 1)[0] == c);
                assert(s[j] == parts[0][j]);
                assert(parts[0][j] != c);
            }
        }
        let fo = first_occurrence(s, sep);
        assert(occurs(s, sep));
        assert(fo >= 0);
        if fo < p0 {
            assert(match_at(s, sep, fo));
            assert(false);
        } else if fo > p0 {
            assert(!match_at(s, sep, p0));
            assert(false);
        }
        assert(fo == p0);
        assert(s.subrange(0, p0) =~= parts[0]);
        assert(s.subrange(p0 + 1, s.len() as int) =~= join_with(rest, sep));
        assert forall|i: int, j: int|
            0 <= i < rest.len() && 0 <= j < rest[i].len() implies (#[trigger] rest[i][j])
            != c by {
            assert(rest[i] == parts[i + 1]);
        }
        lemma_split_join_single(rest, c);
        assert(split_on(s, sep) =~= seq![parts[0]] + rest);
        assert(seq![parts[0]] + rest =~= parts);
    }
}

/// A line with a trailing carriage return removed.
pub open spec fn strip_cr(l: Seq<char>) -> Seq<char> {
    if l.len() > 0 && l.last() == '\r' {
        l.drop_last()
    } else {
        l
    }
}

/// The lines of `s`: newline-separated, a final empty fragment dropped,
/// trailing carriage returns removed.
pub open spec fn lines_of(s: Seq<char>) -> Seq<Seq<char>> {
    let parts = split_on(s, seq!['\n']);
    let kept = if parts.len() > 0 && parts.last().len() == 0 {
        parts.drop_last()
    } else {
        parts
    };
    kept.map_values(|l: Seq<char>| strip_cr(l))
}

/// Splits `s` into lines as `lines_of` describes.
pub fn lines_str(s: &str) -> (r: Vec<String>)
    ensures
        views_of(r@) == lines_of(s@),
{
    let nl = "\n";
    proof {
        reveal_strlit("\n");
        assert(nl@ =~= seq!['\n']);
    }
    let mut parts = split_str(s, nl);
    let ghost raw = views_of(parts@);
    if parts.len() > 0 {
        let last_is_empty = parts[parts.len() - 1].as_str().unicode_len() == 0;
        if last_is_empty {
            parts.pop();
            proof {
                assert(views_of(parts@) =~= raw.drop_last());
            }
        }
    }
    let ghost kept = views_of(parts@);
    let mut out: Vec<String> = Vec::new();
    let mut i: usize = 0;
    while i < parts.len()
        invariant
            i <= parts.len(),
            kept == views_of(parts@),
            views_of(out@) =~= kept.take(i as int).map_values(|l: Seq<char>| strip_cr(l)),
        decreases parts.len() - i,
    {
        let line = &parts[i];
        let llen = line.as_str().unicode_len();
        let stripped: String = if llen > 0 && line.as_str().get_char(llen - 1) == '\r' {
            proof {
                assert(line@.last() == '\r');
                assert(line@.drop_last() =~= line@.subrange(0, llen - 1));
            }
            line.as_str().substring_char(0, llen - 1).to_owned()
        } else {
            line.clone()
        };
        proof {
            assert(kept[i as int] == line@);
            assert(stripped@ == strip_cr(kept[i as int]));
        }
        let ghost prev = out@;
        out.push(stripped);
        proof {
            let lhs = views_of(out@);
            let rhs = kept.take(i + 1).map_values(|l: Seq<char>| strip_cr(l));
            assert(views_of(prev).len() == prev.len());
            assert(kept.take(i as int).len() == i);
            assert(prev.len() == i);
            assert(out@.len() == prev.len() + 1);
            assert(lhs.len() == i + 1);
            assert(rhs.len() == i + 1);
            assert forall|j: int| 0 <= j < i + 1 implies lhs[j] == rhs[j] by {
                assert(lhs[j] == out@[j]@);
                assert(rhs[j] == strip_cr(kept.take(i + 1)[j]));
                if j < i {
                    assert(out@[j] == prev[j]);
                    assert(views_of(prev)[j] == strip_cr(kept.take(i as int)[j]));
                }
            }
            assert(lhs =~= rhs);
        }
        i += 1;
    }
    proof {
        assert(kept.take(parts@.len() as int) =~= kept);
        assert(views_of(out@) =~= lines_of(s@));
    }
    out
}

/// Whether `pat` occurs anywhere in `s`.
pub fn str_contains(s: &str, pat: &str) -> (r: bool)
    ensures
        r == occurs(s@, pat@),
{
    proof {
        lemma_first_occurrence(s@, pat@);
    }
    match find_first(s, pat) {
        Some(_) => true,
        None => false,
    }
}

} // verus!
