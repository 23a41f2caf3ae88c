//! Extraction of a one-time passphrase from an email body, and
//! normalization of user-supplied passphrase input.
//!
//! An OTP arrives either as a login URL carrying `otp=<value>&`, or as a
//! bare passphrase whose words are separated by spaces. Normalization
//! turns both into the hyphenated form the login endpoint expects; the
//! URL test is the first discriminator.

use vstd::prelude::*;

use crate::strutil::{
    contains_seq, find_from, find_str_from, is_space_char, lemma_find_from_is_first,
    lemma_find_from_some, lemma_trim_end_subrange, lemma_trim_start_subrange, matches_at,
    push_char, starts_with, str_starts_with, trim, trim_end, trim_start,
};

verus! {

/// The literal phrase announcing the passphrase in the provider's mail.
pub open spec fn marker() -> Seq<char> {
    "one-time passphrase"@
}

/// A blank line in a CRLF-terminated body.
pub open spec fn blank_line() -> Seq<char> {
    "\r\n\r\n"@
}

/// A character that may appear in a word of the passphrase.
pub open spec fn is_word_char(c: char) -> bool {
    ('a' <= c && c <= 'z') || ('A' <= c && c <= 'Z') || ('0' <= c && c <= '9') || c == '_'
}

/// A character that may appear anywhere in a passphrase block: word
/// characters, hyphens, and whitespace.
pub open spec fn is_phrase_char(c: char) -> bool {
    is_word_char(c) || c == '-' || is_space_char(c)
}

/// A non-empty run of words, hyphens and whitespace.
pub open spec fn is_passphrase_block(b: Seq<char>) -> bool {
    b.len() > 0 && (forall|k: int| 0 <= k < b.len() ==> is_phrase_char(b[k]))
}

/// Scan the blank-line-delimited blocks of `body` from `start` on and
/// return the first one that looks like a passphrase, trimmed. `None`
/// when no such block is closed by a blank line.
pub open spec fn extract_from_blocks(body: Seq<char>, start: int) -> Option<Seq<char>>
    decreases body.len() - start when 0 <= start via extract_from_blocks_decreases
{
    match find_from(body, blank_line(), start) {
        None => None,
        Some(b1) => {
            let bs = b1 + blank_line().len();
            match find_from(body, blank_line(), bs) {
                None => None,
                Some(b2) => {
                    let block = body.subrange(bs, b2);
                    if is_passphrase_block(block) {
                        Some(trim(block))
                    } else {
                        extract_from_blocks(body, b2)
                    }
                },
            }
        },
    }
}

#[via_fn]
proof fn extract_from_blocks_decreases(body: Seq<char>, start: int) {
    if let Some(b1) = find_from(body, blank_line(), start) {
        lemma_find_from_is_first(body, blank_line(), start);
        let bs = b1 + blank_line().len();
        if let Some(b2) = find_from(body, blank_line(), bs) {
            lemma_find_from_is_first(body, blank_line(), bs);
            reveal_strlit("\r\n\r\n");
        }
    }
}

/// What extraction returns: after the first occurrence of the marker
/// phrase, the first blank-line-delimited passphrase block, trimmed;
/// `None` when the marker is absent or no such block follows it.
pub open spec fn spec_extract(body: Seq<char>) -> Option<Seq<char>> {
    match find_from(body, marker(), 0) {
        None => None,
        Some(m) => extract_from_blocks(body, m + marker().len()),
    }
}

/// A body without the marker phrase yields nothing.
pub proof fn lemma_extract_none_without_marker(body: Seq<char>)
    requires
        !contains_seq(body, marker()),
    ensures
        spec_extract(body) is None,
{
    if find_from(body, marker(), 0) is Some {
        lemma_find_from_is_first(body, marker(), 0);
        assert(contains_seq(body, marker()));
    }
}

/// A body holding the marker, then a blank line, then a well-formed
/// passphrase block closed by a blank line, yields exactly that block's
/// content, trimmed. `m`, `b1` and `b2` locate the first marker and the
/// first two blank lines after it.
pub proof fn lemma_extract_finds_block(body: Seq<char>, m: int, b1: int, b2: int)
    requires
        matches_at(body, marker(), m),
        forall|j: int| 0 <= j < m ==> !matches_at(body, marker(), j),
        matches_at(body, blank_line(), b1),
        m + marker().len() <= b1,
        forall|j: int|
            m + marker().len() <= j < b1 ==> !matches_at(body, blank_line(), j),
        matches_at(body, blank_line(), b2),
        b1 + blank_line().len() <= b2,
        forall|j: int|
            b1 + blank_line().len() <= j < b2 ==> !matches_at(body, blank_line(), j),
        is_passphrase_block(body.subrange(b1 + blank_line().len(), b2)),
    ensures
        spec_extract(body) == Some(trim(body.subrange(b1 + blank_line().len(), b2))),
{
    lemma_find_from_some(body, marker(), 0, m);
    lemma_find_from_some(body, blank_line(), m + marker().len(), b1);
    lemma_find_from_some(body, blank_line(), b1 + blank_line().len(), b2);
}

/// Every character of `s` in `[from, to)` may appear in a passphrase.
fn all_phrase_chars(s: &str, from: usize, to: usize) -> (r: bool)
    requires
        from <= to <= s@.len(),
    ensures
        r == (forall|q: int| from <= q < to ==> is_phrase_char(s@[q])),
{
    let mut k = from;
    while k < to
        invariant
            from <= k <= to <= s@.len(),
            forall|q: int| from <= q < k ==> is_phrase_char(s@[q]),
        decreases to - k,
    {
        let c = s.get_char(k);
        let word = ('a' <= c && c <= 'z') || ('A' <= c && c <= 'Z') || ('0' <= c && c <= '9')
            || c == '_';
        let phrase = word || c == '-' || c == ' ' || c == '\t' || c == '\r' || c == '\n';
        if !phrase {
            assert(!is_phrase_char(s@[k as int]));
            return false;
        }
        k += 1;
    }
    true
}

/// Extract the one-time passphrase from an email body: after the first
/// occurrence of the marker phrase `one-time passphrase`, the content of
/// the first blank-line-delimited block of words, hyphens and spaces,
/// trimmed of surrounding whitespace. `None` when the marker is absent
/// or no such block follows it.
pub fn get_otp_via_mail(mail: &str) -> (r: Option<String>)
    ensures
        match r {
            Some(s) => spec_extract(mail@) == Some(s@),
            None => spec_extract(mail@) is None,
        },
{
    let n = mail.unicode_len();
    let m = match find_str_from(mail, "one-time passphrase", 0) {
        None => {
            return None;
        },
        Some(m) => m,
    };
    proof {
        reveal_strlit("one-time passphrase");
        lemma_find_from_is_first(mail@, marker(), 0);
    }
    let mut start = m + 19;
    loop
        invariant
            0 <= start <= n,
            n == mail@.len(),
            extract_from_blocks(mail@, start as int) == spec_extract(mail@),
        decreases n - start,
    {
        let b1 = match find_str_from(mail, "\r\n\r\n", start) {
            None => {
                return None;
            },
            Some(b1) => b1,
        };
        proof {
            reveal_strlit("\r\n\r\n");
            lemma_find_from_is_first(mail@, blank_line(), start as int);
        }
        let bs = b1 + 4;
        let b2 = match find_str_from(mail, "\r\n\r\n", bs) {
            None => {
                return None;
            },
            Some(b2) => b2,
        };
        proof {
            lemma_find_from_is_first(mail@, blank_line(), bs as int);
        }
        let ghost block = mail@.subrange(bs as int, b2 as int);
        if bs < b2 && all_phrase_chars(mail, bs, b2) {
            proof {
                assert forall|k: int| 0 <= k < block.len() implies is_phrase_char(block[k]) by {
                    assert(block[k] == mail@[bs + k]);
                }
                assert(is_passphrase_block(block));
            }
            // Trim the block: find its first and last non-space characters.
            let mut a = bs;
            loop
                invariant
                    bs <= a <= b2 <= n,
                    n == mail@.len(),
                    forall|q: int| bs <= q < a ==> is_space_char(mail@[q]),
                ensures
                    bs <= a <= b2,
                    forall|q: int| bs <= q < a ==> is_space_char(mail@[q]),
                    a < b2 ==> !is_space_char(mail@[a as int]),
                decreases b2 - a,
            {
                if a == b2 {
                    break;
                }
                let c = mail.get_char(a);
                if !(c == ' ' || c == '\t' || c == '\r' || c == '\n') {
                    break;
                }
                a += 1;
            }
            if a == b2 {
                proof {
                    lemma_trim_start_subrange(block, block.len() as int);
                    assert(trim_start(block) =~= Seq::<char>::empty());
                    assert(trim(block) =~= Seq::<char>::empty());
                }
                return Some(String::new());
            }
            let mut e = b2;
            loop
                invariant
                    a <= e <= b2 <= n,
                    a < b2,
                    n == mail@.len(),
                    !is_space_char(mail@[a as int]),
                    forall|q: int| e <= q < b2 ==> is_space_char(mail@[q]),
                ensures
                    a <= e <= b2,
                    forall|q: int| e <= q < b2 ==> is_space_char(mail@[q]),
                    e > a ==> !is_space_char(mail@[e - 1]),
                decreases e - a,
            {
                if e == a {
                    break;
                }
                let c = mail.get_char(e - 1);
                if !(c == ' ' || c == '\t' || c == '\r' || c == '\n') {
                    break;
                }
                e -= 1;
            }
            proof {
                lemma_trim_start_subrange(block, a - bs);
                let t = block.subrange(a - bs, block.len() as int);
                lemma_trim_end_subrange(t, e - a);
                assert(trim(block) =~= mail@.subrange(a as int, e as int));
            }
            let picked = mail.substring_char(a, e);
            return Some(picked.to_owned());
        } else {
            proof {
                if bs < b2 {
                    assert(exists|q: int|
                        bs <= q < b2 && !is_phrase_char(mail@[q]));
                    let q0 = choose|q: int| bs <= q < b2 && !is_phrase_char(mail@[q]);
                    assert(block[q0 - bs] == mail@[q0]);
                    assert(!is_passphrase_block(block));
                } else {
                    assert(block.len() == 0);
                }
            }
            start = b2;
        }
    }
}

/// What normalization returns: the `otp` query value for URL-form input
/// (`None` when a URL lacks the `otp=` key), and the input with every
/// space replaced by a hyphen otherwise.
pub open spec fn spec_normalize_otp(s: Seq<char>) -> Option<Seq<char>> {
    if starts_with(s, "https://"@) {
        match find_from(s, "otp="@, 0) {
            Some(i) => {
                let vstart = i + "otp="@.len();
                let vend = match find_from(s, "&"@, vstart) {
                    Some(j) => j,
                    None => s.len() as int,
                };
                Some(s.subrange(vstart, vend))
            },
            None => None,
        }
    } else {
        Some(Seq::new(s.len(), |k: int| if s[k] == ' ' { '-' } else { s[k] }))
    }
}

/// Normalize raw OTP input into the hyphenated form submitted to the
/// login endpoint. URL-form input (a scheme prefix) is tried first and
/// yields the `otp` query value; otherwise spaces become hyphens.
/// Returns `None` exactly when a URL-form input has no `otp=` key.
pub fn normalize_otp(otp: &str) -> (r: Option<String>)
    ensures
        match r {
            Some(t) => spec_normalize_otp(otp@) == Some(t@),
            None => spec_normalize_otp(otp@) is None,
        },
{
    let n = otp.unicode_len();
    if str_starts_with(otp, "https://") {
        match find_str_from(otp, "otp=", 0) {
            Some(i) => {
                proof {
                    reveal_strlit("otp=");
                    lemma_find_from_is_first(otp@, "otp="@, 0);
                }
                let vstart = i + 4;
                let vend = match find_str_from(otp, "&", vstart) {
                    Some(j) => {
                        proof {
                            reveal_strlit("&");
                            lemma_find_from_is_first(otp@, "&"@, vstart as int);
                        }
                        j
                    },
                    None => n,
                };
                Some(otp.substring_char(vstart, vend).to_owned())
            },
            None => None,
        }
    } else {
        let mut out = String::new();
        let mut i: usize = 0;
        while i < n
            invariant
                0 <= i <= n,
                n == otp@.len(),
                out@.len() == i,
                forall|k: int|
                    0 <= k < i ==> out@[k] == (if otp@[k] == ' ' {
                        '-'
                    } else {
                        otp@[k]
                    }),
            decreases n - i,
        {
            let c = otp.get_char(i);
            if c == ' ' {
                push_char(&mut out, '-');
            } else {
                push_char(&mut out, c);
            }
            i += 1;
        }
        proof {
            assert(out@ =~= Seq::new(otp@.len(), |k: int| if otp@[k] == ' ' { '-' } else { otp@[k] }));
        }
        Some(out)
    }
}

} // verus!
