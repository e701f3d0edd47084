//! Parsing of HTTP basic credentials.
//!
//! A redirect request may carry `Authorization: Basic <base64(key:secret)>`.
//! This module turns such a header value into the credential pair that the
//! access policy compares: strip the `Basic ` prefix, decode the base64
//! payload, require it to be UTF-8, and split it at the first colon. A value
//! that fails any of these steps yields no credentials, which the policy
//! then treats as absent.

use vstd::prelude::*;

use crate::directive::{auth_option_view, DirectiveACLAuth, DirectiveACLAuthView};

verus! {

/// What `base64::decode` yields on this input: `None` where the input is
/// not valid base64, the decoded bytes otherwise. The decoding is a pure
/// function of the input characters; its value is not axiomatized further.
pub uninterp spec fn base64_decoding(s: Seq<char>) -> Option<Seq<u8>>;

/// Relies on `base64::decode` (standard alphabet, padding accepted): it
/// succeeds and returns bytes depending on the input alone, here named
/// `base64_decoding`.
#[verifier::external_body]
fn base64_decode(s: &str) -> (r: Option<Vec<u8>>)
    ensures
        r is Some <==> base64_decoding(s@) is Some,
        r matches Some(v) ==> base64_decoding(s@) == Some(v@),
{
    match base64::decode(s) {
        Ok(v) => Some(v),
        Err(_) => None,
    }
}

/// Relies on `String::from_utf8`: it succeeds exactly on valid UTF-8 and
/// yields its decoding, in the sense of vstd's UTF-8 specification.
#[verifier::external_body]
fn utf8_string(bytes: Vec<u8>) -> (r: Option<String>)
    ensures
        r is Some <==> vstd::utf8::valid_utf8(bytes@),
        r matches Some(s) ==> s@ == vstd::utf8::decode_utf8(bytes@),
{
    match String::from_utf8(bytes) {
        Ok(s) => Some(s),
        Err(_) => None,
    }
}

/// Splits a character sequence at its first colon: what precedes it and
/// what follows it. `None` where no colon occurs.
pub open spec fn split_colon(s: Seq<char>) -> Option<(Seq<char>, Seq<char>)>
    decreases s.len(),
{
    if s.len() == 0 {
        None
    } else if s[0] == ':' {
        Some((Seq::empty(), s.drop_first()))
    } else {
        match split_colon(s.drop_first()) {
            Some(p) => Some((seq![s[0]] + p.0, p.1)),
            None => None,
        }
    }
}

/// At the first colon index, `split_colon` cuts exactly there.
proof fn lemma_split_colon_at(s: Seq<char>, i: int)
    requires
        0 <= i < s.len(),
        s[i] == ':',
        forall|j: int| 0 <= j < i ==> s[j] != ':',
    ensures
        split_colon(s) == Some((s.subrange(0, i), s.subrange(i + 1, s.len() as int))),
    decreases i,
{
    if i == 0 {
        assert(s.subrange(0, 0) =~= Seq::<char>::empty());
        assert(s.drop_first() =~= s.subrange(1, s.len() as int));
    } else {
        let rest = s.drop_first();
        assert(forall|j: int| 0 <= j < rest.len() ==> rest[j] == s[j + 1]);
        lemma_split_colon_at(rest, i - 1);
        assert(seq![s[0]] + rest.subrange(0, i - 1) =~= s.subrange(0, i));
        assert(rest.subrange(i, rest.len() as int) =~= s.subrange(i + 1, s.len() as int));
    }
}

/// Without a colon, `split_colon` yields nothing.
proof fn lemma_split_colon_none(s: Seq<char>)
    requires
        forall|j: int| 0 <= j < s.len() ==> s[j] != ':',
    ensures
        split_colon(s) is None,
    decreases s.len(),
{
    if s.len() > 0 {
        let rest = s.drop_first();
        assert(forall|j: int| 0 <= j < rest.len() ==> rest[j] == s[j + 1]);
        lemma_split_colon_none(rest);
    }
}

/// The credentials denoted by an `Authorization` header value, if any: the
/// `Basic ` prefix, then base64, then UTF-8, then a colon-separated pair.
pub open spec fn spec_parse_basic(h: Seq<char>) -> Option<DirectiveACLAuthView> {
    if !(h.len() >= 6 && h.subrange(0, 6) == "Basic "@) {
        None
    } else {
        match base64_decoding(h.skip(6)) {
            None => None,
            Some(bs) => if !vstd::utf8::valid_utf8(bs) {
                None
            } else {
                match split_colon(vstd::utf8::decode_utf8(bs)) {
                    Some(p) => Some(DirectiveACLAuthView { key: p.0, secret: p.1 }),
                    None => None,
                }
            },
        }
    }
}

/// Parses an `Authorization` header value into basic credentials. Anything
/// but `Basic ` followed by base64-encoded UTF-8 of the form `key:secret`
/// yields `None`; the secret is everything after the first colon.
pub fn parse_basic_credentials(header: &str) -> (r: Option<DirectiveACLAuth>)
    ensures
        auth_option_view(r) == spec_parse_basic(header@),
{
    let n = header.unicode_len();
    if n < 6 {
        return None;
    }
    let prefix_ok = header.get_char(0) == 'B' && header.get_char(1) == 'a' && header.get_char(2)
        == 's' && header.get_char(3) == 'i' && header.get_char(4) == 'c' && header.get_char(5)
        == ' ';
    if !prefix_ok {
        proof {
            reveal_strlit("Basic ");
            if header@.subrange(0, 6) == "Basic "@ {
                assert(header@[0] == header@.subrange(0, 6)[0]);
                assert(header@[1] == header@.subrange(0, 6)[1]);
                assert(header@[2] == header@.subrange(0, 6)[2]);
                assert(header@[3] == header@.subrange(0, 6)[3]);
                assert(header@[4] == header@.subrange(0, 6)[4]);
                assert(header@[5] == header@.subrange(0, 6)[5]);
                assert(false);
            }
        }
        return None;
    }
    proof {
        reveal_strlit("Basic ");
        assert(header@.subrange(0, 6) =~= "Basic "@);
        assert(header@.subrange(6, header@.len() as int) =~= header@.skip(6));
    }
    let rest = header.substring_char(6, n);
    let bytes = match base64_decode(rest) {
        Some(b) => b,
        None => {
            return None;
        },
    };
    let stext = match utf8_string(bytes) {
        Some(s) => s,
        None => {
            return None;
        },
    };
    let st = stext.as_str();
    let m = st.unicode_len();
    let mut i: usize = 0;
    while i < m && st.get_char(i) != ':'
        invariant
            i <= m,
            m == st@.len(),
            forall|j: int| 0 <= j < i ==> st@[j] != ':',
        decreases m - i,
    {
        i = i + 1;
    }
    if i < m {
        proof {
            lemma_split_colon_at(st@, i as int);
        }
        let key = st.substring_char(0, i).to_owned();
        let secret = st.substring_char(i + 1, m).to_owned();
        let r = Some(DirectiveACLAuth { key, secret });
        proof {
            assert(auth_option_view(r) =~= spec_parse_basic(header@));
        }
        r
    } else {
        proof {
            lemma_split_colon_none(st@);
        }
        None
    }
}

} // verus!
