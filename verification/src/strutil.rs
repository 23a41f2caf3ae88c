//! String scanning helpers shared by the passphrase extractor and the
//! input normalizer: substring search, whitespace trimming, and prefix
//! tests, each with an exact specification over `Seq<char>`.

use vstd::prelude::*;

verus! {

/// The pattern `pat` occurs in `s` starting at index `i`.
pub open spec fn matches_at(s: Seq<char>, pat: Seq<char>, i: int) -> bool {
    &&& 0 <= i
    &&& i + pat.len() <= s.len()
    &&& forall|k: int| 0 <= k < pat.len() ==> s[i + k] == pat[k]
}

/// The least index `j >= from` at which `pat` occurs in `s`, if any.
pub open spec fn find_from(s: Seq<char>, pat: Seq<char>, from: int) -> Option<int>
    decreases s.len() - from when 0 <= from
{
    if from + pat.len() > s.len() {
        None
    } else if matches_at(s, pat, from) {
        Some(from)
    } else {
        find_from(s, pat, from + 1)
    }
}

pub open spec fn contains_seq(s: Seq<char>, pat: Seq<char>) -> bool {
    exists|i: int| matches_at(s, pat, i)
}

/// Skipping over positions without a match leaves the search result unchanged.
pub proof fn lemma_find_skip(s: Seq<char>, pat: Seq<char>, from: int, to: int)
    requires
        0 <= from <= to,
        forall|j: int| from <= j < to ==> !matches_at(s, pat, j),
    ensures
        find_from(s, pat, from) == find_from(s, pat, to),
    decreases to - from,
{
    if from < to {
        lemma_find_skip(s, pat, from + 1, to);
    }
}

/// A successful search returns the least matching index.
pub proof fn lemma_find_from_some(s: Seq<char>, pat: Seq<char>, from: int, j: int)
    requires
        0 <= from <= j,
        matches_at(s, pat, j),
        forall|k: int| from <= k < j ==> !matches_at(s, pat, k),
    ensures
        find_from(s, pat, from) == Some(j),
{
    lemma_find_skip(s, pat, from, j);
}

/// Whatever `find_from` returns is a match, and the least one.
pub proof fn lemma_find_from_is_first(s: Seq<char>, pat: Seq<char>, from: int)
    requires
        0 <= from,
        find_from(s, pat, from) is Some,
    ensures
        matches_at(s, pat, find_from(s, pat, from)->Some_0),
        from <= find_from(s, pat, from)->Some_0,
        forall|k: int|
            from <= k < find_from(s, pat, from)->Some_0 ==> !matches_at(s, pat, k),
    decreases s.len() - from,
{
    if !(from + pat.len() > s.len()) && !matches_at(s, pat, from) {
        lemma_find_from_is_first(s, pat, from + 1);
    }
}

/// Exact occurrence search: returns the least index at or after `from`
/// where `pat` occurs in `s`, and `None` when there is none.
pub fn find_str_from(s: &str, pat: &str, from: usize) -> (r: Option<usize>)
    ensures
        match r {
            Some(i) => find_from(s@, pat@, from as int) == Some(i as int),
            None => find_from(s@, pat@, from as int) is None,
        },
{
    let n = s.unicode_len();
    let m = pat.unicode_len();
    if from > n {
        proof {
            if find_from(s@, pat@, from as int) is Some {
                lemma_find_from_is_first(s@, pat@, from as int);
            }
        }
        return None;
    }
    let mut i = from;
    while m <= n - i
        invariant
            from <= i <= n,
            n == s@.len(),
            m == pat@.len(),
            forall|j: int| from <= j < i ==> !matches_at(s@, pat@, j),
        decreases n - i,
    {
        let mut k: usize = 0;
        let mut all_eq = true;
        while k < m
            invariant
                0 <= k <= m,
                i + m <= n,
                n == s@.len(),
                m == pat@.len(),
                all_eq ==> forall|q: int| 0 <= q < k ==> s@[i + q] == pat@[q],
                !all_eq ==> !matches_at(s@, pat@, i as int),
            decreases m - k,
        {
            if s.get_char(i + k) != pat.get_char(k) {
                all_eq = false;
            }
            k += 1;
        }
        if all_eq {
            proof {
                lemma_find_from_some(s@, pat@, from as int, i as int);
            }
            return Some(i);
        }
        i += 1;
    }
    proof {
        if find_from(s@, pat@, from as int) is Some {
            lemma_find_from_is_first(s@, pat@, from as int);
        }
    }
    None
}

/// `pre` is a prefix of `s`.
pub open spec fn starts_with(s: Seq<char>, pre: Seq<char>) -> bool {
    matches_at(s, pre, 0)
}

/// Exact prefix test.
pub fn str_starts_with(s: &str, pre: &str) -> (r: bool)
    ensures
        r == starts_with(s@, pre@),
{
    let n = s.unicode_len();
    let m = pre.unicode_len();
    if m > n {
        return false;
    }
    let mut k: usize = 0;
    while k < m
        invariant
            0 <= k <= m,
            m <= n,
            n == s@.len(),
            m == pre@.len(),
            forall|q: int| 0 <= q < k ==> s@[q] == pre@[q],
        decreases m - k,
    {
        if s.get_char(k) != pre.get_char(k) {
            proof {
                assert(!matches_at(s@, pre@, 0));
            }
            return false;
        }
        k += 1;
    }
    true
}

/// Exact string equality, by characters.
pub fn str_eq(a: &str, b: &str) -> (r: bool)
    ensures
        r == (a@ == b@),
{
    let n = a.unicode_len();
    let m = b.unicode_len();
    if n != m {
        return false;
    }
    let mut k: usize = 0;
    while k < n
        invariant
            0 <= k <= n,
            n == a@.len(),
            n == b@.len(),
            forall|q: int| 0 <= q < k ==> a@[q] == b@[q],
        decreases n - k,
    {
        if a.get_char(k) != b.get_char(k) {
            return false;
        }
        k += 1;
    }
    proof {
        assert(a@ =~= b@);
    }
    true
}

pub open spec fn is_space_char(c: char) -> bool {
    c == ' ' || c == '\t' || c == '\r' || c == '\n'
}

/// `s` with leading whitespace removed.
pub open spec fn trim_start(s: Seq<char>) -> Seq<char>
    decreases s.len(),
{
    if s.len() > 0 && is_space_char(s[0]) {
        trim_start(s.drop_first())
    } else {
        s
    }
}

/// `s` with trailing whitespace removed.
pub open spec fn trim_end(s: Seq<char>) -> Seq<char>
    decreases s.len(),
{
    if s.len() > 0 && is_space_char(s.last()) {
        trim_end(s.drop_last())
    } else {
        s
    }
}

/// `s` with leading and trailing whitespace removed.
pub open spec fn trim(s: Seq<char>) -> Seq<char> {
    trim_end(trim_start(s))
}

/// `trim_start` keeps the suffix that begins at the first non-space character.
pub proof fn lemma_trim_start_subrange(s: Seq<char>, k: int)
    requires
        0 <= k <= s.len(),
        forall|i: int| 0 <= i < k ==> is_space_char(s[i]),
        k < s.len() ==> !is_space_char(s[k]),
    ensures
        trim_start(s) =~= s.subrange(k, s.len() as int),
    decreases s.len(),
{
    if s.len() > 0 && is_space_char(s[0]) {
        assert(k > 0) by {
            if k == 0 {
                assert(!is_space_char(s[0]));
            }
        }
        lemma_trim_start_subrange(s.drop_first(), k - 1);
        assert(s.drop_first().subrange(k - 1, s.drop_first().len() as int) =~= s.subrange(
            k,
            s.len() as int,
        ));
    } else {
        assert(k == 0);
    }
}

/// `trim_end` keeps the prefix that ends at the last non-space character.
pub proof fn lemma_trim_end_subrange(s: Seq<char>, k: int)
    requires
        0 <= k <= s.len(),
        forall|i: int| k <= i < s.len() ==> is_space_char(s[i]),
        k > 0 ==> !is_space_char(s[k - 1]),
    ensures
        trim_end(s) =~= s.subrange(0, k),
    decreases s.len(),
{
    if s.len() > 0 && is_space_char(s.last()) {
        assert(k < s.len()) by {
            if k == s.len() {
                assert(!is_space_char(s[k - 1]));
            }
        }
        lemma_trim_end_subrange(s.drop_last(), k);
        assert(s.drop_last().subrange(0, k) =~= s.subrange(0, k));
    } else {
        assert(k == s.len());
    }
}

/// Relies on `String::push`: appends one character at the end of the string.
#[verifier::external_body]
pub(crate) fn push_char(s: &mut String, c: char)
    ensures
        final(s)@ == old(s)@.push(c),
{
    s.push(c);
}

} // verus!
