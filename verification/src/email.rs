//! The mail-side data model: a plain-text email, assembly of its body
//! from MIME parts, the IMAP account settings, and the parsing of the
//! `<addr>:<port>` server string.
//!
//! The mail transport and the MIME decoder are outside collaborators;
//! they hand the library the sender, the subject, and the declared
//! content type and text of each part as plain strings.

use vstd::prelude::*;

use crate::strutil::{find_from, find_str_from, lemma_find_from_is_first, starts_with, str_starts_with};

verus! {

/// A text email, as the polling loop returns it.
pub struct Email {
    /// The sender, from the `From` header.
    pub from: String,
    /// The subject line.
    pub subject: String,
    /// The assembled plain-text body.
    pub body: String,
}

/// One MIME part: its declared content type and its decoded text.
pub struct MimePart {
    /// The declared content type, such as `text/plain; charset=utf-8`.
    pub mimetype: String,
    /// The decoded text of the part.
    pub body: String,
}

/// A content type that declares plain text.
pub open spec fn is_plain_text(mimetype: Seq<char>) -> bool {
    starts_with(mimetype, "text/plain"@)
}

/// The text of the plain-text parts of `parts`, concatenated in
/// document order.
pub open spec fn spec_concat_plain(parts: Seq<MimePart>) -> Seq<char>
    decreases parts.len(),
{
    if parts.len() == 0 {
        Seq::empty()
    } else {
        spec_concat_plain(parts.drop_last()) + (if is_plain_text(parts.last().mimetype@) {
            parts.last().body@
        } else {
            Seq::<char>::empty()
        })
    }
}

/// The body of a message: the top-level part's own text when it is
/// plain text, else the concatenated text of its plain-text subparts.
pub open spec fn spec_assembled_body(top: MimePart, subparts: Seq<MimePart>) -> Seq<char> {
    if is_plain_text(top.mimetype@) {
        top.body@
    } else {
        spec_concat_plain(subparts)
    }
}

impl Email {
    /// Build an email from decoded MIME parts. When the top-level part
    /// is itself plain text its text is the body, without descending
    /// into subparts; otherwise the body is the text of every plain-text
    /// subpart, concatenated in document order.
    pub fn from_parts(from: String, subject: String, top: &MimePart, subparts: &Vec<MimePart>) -> (r:
        Email)
        ensures
            r.from@ == from@,
            r.subject@ == subject@,
            r.body@ == spec_assembled_body(*top, subparts@),
    {
        let body: String;
        if str_starts_with(top.mimetype.as_str(), "text/plain") {
            body = top.body.clone();
        } else {
            let mut out = String::new();
            let mut i: usize = 0;
            while i < subparts.len()
                invariant
                    0 <= i <= subparts@.len(),
                    out@ == spec_concat_plain(subparts@.subrange(0, i as int)),
                decreases subparts@.len() - i,
            {
                let part = &subparts[i];
                if str_starts_with(part.mimetype.as_str(), "text/plain") {
                    out.append(part.body.as_str());
                }
                proof {
                    let pre = subparts@.subrange(0, i as int);
                    let cur = subparts@.subrange(0, i + 1);
                    assert(cur.drop_last() =~= pre);
                    assert(cur.last() == subparts@[i as int]);
                }
                i += 1;
            }
            proof {
                assert(subparts@.subrange(0, subparts@.len() as int) =~= subparts@);
            }
            body = out;
        }
        Email { from, subject, body }
    }
}

/// The IMAP account settings: address, password, and the server string
/// in the form `<addr>:<port>`.
pub struct EmailConfig {
    /// The mailbox address used to log in.
    pub email: String,
    /// The account password.
    pub pwd: String,
    /// The server, written `<addr>:<port>`.
    pub smtp: String,
}

impl EmailConfig {
    /// Bundle the account settings.
    pub fn new(email: String, pwd: String, smtp: String) -> (r: EmailConfig)
        ensures
            r.email@ == email@,
            r.pwd@ == pwd@,
            r.smtp@ == smtp@,
    {
        EmailConfig { email, pwd, smtp }
    }
}

/// Why a server string could not be split into address and port.
#[derive(Debug, PartialEq, Eq, Structural)]
pub enum SmtpSplitError {
    /// Not exactly one `:` separator.
    BadFormat,
    /// The part after `:` is not a decimal port below 65536.
    BadPort,
}

pub open spec fn is_digit_char(c: char) -> bool {
    '0' <= c && c <= '9'
}

/// The value of a string of decimal digits.
pub open spec fn digits_value(s: Seq<char>) -> int
    decreases s.len(),
{
    if s.len() == 0 {
        0
    } else {
        digits_value(s.drop_last()) * 10 + (s.last() as int - '0' as int)
    }
}

/// A digit string's value is not negative.
proof fn lemma_digits_value_nonneg(s: Seq<char>)
    requires
        forall|k: int| 0 <= k < s.len() ==> is_digit_char(s[k]),
    ensures
        digits_value(s) >= 0,
    decreases s.len(),
{
    if s.len() > 0 {
        lemma_digits_value_nonneg(s.drop_last());
    }
}

/// A digit string is worth at least any of its prefixes.
proof fn lemma_digits_value_prefix_le(s: Seq<char>, i: int)
    requires
        0 <= i <= s.len(),
        forall|k: int| 0 <= k < s.len() ==> is_digit_char(s[k]),
    ensures
        digits_value(s.subrange(0, i)) <= digits_value(s),
    decreases s.len(),
{
    if i < s.len() {
        lemma_digits_value_prefix_le(s.drop_last(), i);
        lemma_digits_value_nonneg(s.drop_last());
        assert(s.drop_last().subrange(0, i) =~= s.subrange(0, i));
    } else {
        assert(s.subrange(0, i) =~= s);
    }
}

/// The server string `<addr>:<port>` has exactly one colon, and its
/// port part is a non-empty string of decimal digits below 65536.
pub open spec fn spec_split_smtp(s: Seq<char>) -> Option<(Seq<char>, u16)> {
    match find_from(s, ":"@, 0) {
        None => None,
        Some(ci) => {
            let host = s.subrange(0, ci);
            let port = s.subrange(ci + 1, s.len() as int);
            if find_from(s, ":"@, ci + 1) is Some {
                None
            } else if port.len() > 0 && (forall|k: int| 0 <= k < port.len() ==> is_digit_char(port[k]))
                && digits_value(port) <= 65535 {
                Some((host, digits_value(port) as u16))
            } else {
                None
            }
        },
    }
}

/// Split a server string `<addr>:<port>` into the address and the
/// numeric port. Fails with `BadFormat` unless the string holds exactly
/// one `:`, and with `BadPort` unless what follows it is a non-empty
/// run of decimal digits naming a port below 65536.
pub fn split_smtp(smtp: &str) -> (r: Result<(String, u16), SmtpSplitError>)
    ensures
        match r {
            Ok(p) => spec_split_smtp(smtp@) == Some((p.0@, p.1)),
            Err(e) => {
                &&& spec_split_smtp(smtp@) is None
                &&& (e == SmtpSplitError::BadFormat) == (find_from(smtp@, ":"@, 0) is None
                    || {
                    let ci = find_from(smtp@, ":"@, 0)->Some_0;
                    find_from(smtp@, ":"@, ci + 1) is Some
                })
            },
        },
{
    let n = smtp.unicode_len();
    let ci = match find_str_from(smtp, ":", 0) {
        None => {
            return Err(SmtpSplitError::BadFormat);
        },
        Some(ci) => ci,
    };
    proof {
        reveal_strlit(":");
        lemma_find_from_is_first(smtp@, ":"@, 0);
    }
    if let Some(_c2) = find_str_from(smtp, ":", ci + 1) {
        return Err(SmtpSplitError::BadFormat);
    }
    let ghost port = smtp@.subrange(ci + 1, n as int);
    if ci + 1 == n {
        return Err(SmtpSplitError::BadPort);
    }
    let mut v: u32 = 0;
    let mut k = ci + 1;
    while k < n
        invariant
            ci + 1 <= k <= n,
            n == smtp@.len(),
            port == smtp@.subrange(ci + 1, n as int),
            find_from(smtp@, ":"@, 0) == Some(ci as int),
            find_from(smtp@, ":"@, ci as int + 1) is None,
            forall|q: int| ci + 1 <= q < k ==> is_digit_char(smtp@[q]),
            v == digits_value(smtp@.subrange(ci + 1, k as int)),
            v <= 65535,
        decreases n - k,
    {
        let c = smtp.get_char(k);
        if !('0' <= c && c <= '9') {
            proof {
                assert(port[k - (ci + 1)] == smtp@[k as int]);
                assert(!is_digit_char(port[k - (ci + 1)]));
            }
            return Err(SmtpSplitError::BadPort);
        }
        let d = (c as u32) - ('0' as u32);
        let w = v * 10 + d;
        proof {
            let pre = smtp@.subrange(ci + 1, k as int);
            let cur = smtp@.subrange(ci + 1, k + 1);
            assert(cur.drop_last() =~= pre);
            assert(cur.last() == smtp@[k as int]);
        }
        if w > 65535 {
            proof {
                if forall|q: int| 0 <= q < port.len() ==> is_digit_char(port[q]) {
                    assert forall|q: int| 0 <= q < port.len() implies is_digit_char(port[q]) by {}
                    lemma_digits_value_prefix_le(port, k + 1 - (ci + 1));
                    assert(smtp@.subrange(ci + 1, k + 1) =~= port.subrange(0, k + 1 - (ci + 1)));
                    assert(digits_value(port) > 65535);
                }
                assert(spec_split_smtp(smtp@) is None);
            }
            return Err(SmtpSplitError::BadPort);
        }
        v = w;
        k += 1;
    }
    proof {
        assert(smtp@.subrange(ci + 1, n as int) =~= port);
        assert forall|q: int| 0 <= q < port.len() implies is_digit_char(port[q]) by {
            assert(port[q] == smtp@[ci + 1 + q]);
        }
    }
    let host = smtp.substring_char(0, ci).to_owned();
    Ok((host, v as u16))
}

} // verus!
