//! Bearer token authentication.

use vstd::prelude::*;
use vstd::slice::slice_subrange;
#[allow(unused_imports)]
use vstd::utf8::encode_utf8;

verus! {

/// Compares two byte strings in time that depends on their lengths alone.
pub fn constant_time_eq(a: &[u8], b: &[u8]) -> (r: bool)
    ensures
        r == (a@ == b@),
{
    if a.len() != b.len() {
        return false;
    }
    let mut diff: u8 = 0;
    let mut i: usize = 0;
    proof {
        assert(a@.take(0) == b@.take(0));
    }
    while i < a.len()
        invariant
            a@.len() == b@.len(),
            i <= a@.len(),
            diff == 0 <==> a@.take(i as int) == b@.take(i as int),
        decreases a@.len() - i,
    {
        let x: u8 = a[i];
        let y: u8 = b[i];
        proof {
            assert((diff | (x ^ y)) == 0 <==> diff == 0 && x == y) by (bit_vector);
            let s = a@.take(i + 1);
            let t = b@.take(i + 1);
            assert(s == a@.take(i as int).push(x));
            assert(t == b@.take(i as int).push(y));
            if s == t {
                assert(s[i as int] == t[i as int]);
                assert(s.drop_last() == a@.take(i as int));
                assert(t.drop_last() == b@.take(i as int));
            }
        }
        diff = diff | (x ^ y);
        i += 1;
    }
    proof {
        assert(a@.take(a@.len() as int) == a@);
        assert(b@.take(b@.len() as int) == b@);
    }
    diff == 0
}

/// A byte that a header is read as text with: printable ASCII or a tab.
pub open spec fn is_visible_ascii(b: u8) -> bool {
    (32 <= b && b < 127) || b == 9
}

/// `Bearer `, in bytes.
pub open spec fn bearer_mark() -> Seq<u8> {
    seq![66u8, 101u8, 97u8, 114u8, 101u8, 114u8, 32u8]
}

/// The header is text and starts with `Bearer `.
pub open spec fn is_bearer(header: Seq<u8>) -> bool {
    &&& forall|i: int| 0 <= i < header.len() ==> is_visible_ascii(#[trigger] header[i])
    &&& bearer_mark().is_prefix_of(header)
}

/// The token that an `Authorization` header presents. There is none where the header is
/// absent, is not text or does not start with `Bearer `.
pub open spec fn presented_token(header: Option<Seq<u8>>) -> Option<Seq<u8>> {
    match header {
        Some(h) => if is_bearer(h) {
            Some(h.skip(7))
        } else {
            None
        },
        None => None,
    }
}

/// The bytes of an optional header.
pub open spec fn header_bytes(header: Option<&[u8]>) -> Option<Seq<u8>> {
    match header {
        Some(h) => Some(h@),
        None => None,
    }
}

/// Tells whether a header is text that starts with `Bearer `.
fn carries_bearer(header: &[u8]) -> (r: bool)
    ensures
        r == is_bearer(header@),
{
    let mut i: usize = 0;
    while i < header.len()
        invariant
            i <= header@.len(),
            forall|j: int| 0 <= j < i ==> is_visible_ascii(#[trigger] header@[j]),
        decreases header@.len() - i,
    {
        let b: u8 = header[i];
        if !((32 <= b && b < 127) || b == 9) {
            assert(!is_visible_ascii(header@[i as int]));
            return false;
        }
        i += 1;
    }
    let r: bool = header.len() >= 7 && header[0] == 66 && header[1] == 101 && header[2] == 97
        && header[3] == 114 && header[4] == 101 && header[5] == 114 && header[6] == 32;
    proof {
        let mark = bearer_mark();
        if r {
            assert(header@.subrange(0, 7) =~= mark);
        }
        if mark.is_prefix_of(header@) {
            let front = header@.subrange(0, 7);
            assert(front =~= mark);
            assert(header@[0] == front[0]);
            assert(header@[1] == front[1]);
            assert(header@[2] == front[2]);
            assert(header@[3] == front[3]);
            assert(header@[4] == front[4]);
            assert(header@[5] == front[5]);
            assert(header@[6] == front[6]);
        }
    }
    r
}

/// Tells whether a request with the given `Authorization` header is let in: it presents
/// a token, and that is the expected one.
pub fn is_authorized(header: Option<&[u8]>, expected: &str) -> (r: bool)
    ensures
        r == (presented_token(header_bytes(header)) == Some(encode_utf8(expected@))),
{
    match header {
        Some(h) => {
            if carries_bearer(h) {
                let token: &[u8] = slice_subrange(h, 7, h.len());
                assert(token@ == h@.skip(7));
                constant_time_eq(token, expected.as_bytes())
            } else {
                false
            }
        },
        None => false,
    }
}

/// The answer to a request that is not let in.
#[derive(Debug)]
pub struct Refusal {
    pub status: u16,
    pub www_authenticate: String,
    pub body: String,
}

impl Refusal {
    /// The refusal is the one that every refused request gets: 401 Unauthorized,
    /// with the challenge of the bearer scheme.
    pub open spec fn is_unauthorized(self) -> bool {
        &&& self.status == 401
        &&& self.www_authenticate@ == "Bearer realm=\"xdf-mcp\""@
        &&& self.body@ == "Unauthorized: missing or invalid Bearer token\n"@
    }
}

/// Lets a request in, or answers it.
pub fn check_request(header: Option<&[u8]>, expected: &str) -> (r: Result<(), Refusal>)
    ensures
        match r {
            Ok(_) => presented_token(header_bytes(header)) == Some(encode_utf8(expected@)),
            Err(refusal) => {
                &&& presented_token(header_bytes(header)) != Some(encode_utf8(expected@))
                &&& refusal.is_unauthorized()
            },
        },
{
    if is_authorized(header, expected) {
        Ok(())
    } else {
        Err(
            Refusal {
                status: 401,
                www_authenticate: "Bearer realm=\"xdf-mcp\"".to_owned(),
                body: "Unauthorized: missing or invalid Bearer token\n".to_owned(),
            },
        )
    }
}

/// Exactly one header opens the door: a request is let in if and only if its header is
/// `Bearer ` followed by the token, and the token is printable.
pub proof fn law_only_the_exact_header_is_let_in(header: Option<Seq<u8>>, token: Seq<u8>)
    ensures
        (presented_token(header) == Some(token)) == (header == Some(bearer_mark() + token) && (forall|
            i: int,
        |
            0 <= i < token.len() ==> is_visible_ascii(#[trigger] token[i]))),
{
    let mark = bearer_mark();
    if presented_token(header) == Some(token) {
        let h = header->0;
        assert(is_bearer(h));
        assert(h =~= mark + h.skip(7)) by {
            assert(h.subrange(0, 7) =~= mark);
            assert forall|i: int| 0 <= i < h.len() implies h[i] == (mark + h.skip(7))[i] by {
                if i < 7 {
                    assert(h.subrange(0, 7)[i] == h[i]);
                }
            }
        }
        assert forall|i: int| 0 <= i < token.len() implies is_visible_ascii(#[trigger] token[i]) by {
            assert(token[i] == h[i + 7]);
        }
    }
    if header == Some(mark + token) && (forall|i: int|
        0 <= i < token.len() ==> is_visible_ascii(#[trigger] token[i])) {
        let h = header->0;
        assert(h.subrange(0, 7) =~= mark);
        assert forall|i: int| 0 <= i < h.len() implies is_visible_ascii(#[trigger] h[i]) by {
            if i < 7 {
                assert(h[i] == mark[i]);
            } else {
                assert(h[i] == token[i - 7]);
            }
        }
        assert(h.skip(7) =~= token);
    }
}

/// A request without an `Authorization` header is refused, whatever the token.
pub proof fn law_missing_header_is_refused(token: Seq<u8>)
    ensures
        presented_token(None) != Some(token),
{
}

/// The right token is let in: a header of the bytes of `Bearer `, 0x42 0x65 0x61 0x72 0x65
/// 0x72 0x20, and a token whose bytes lie between 32 and 126 or are 9 presents that token.
pub proof fn law_the_right_token_is_let_in(token: Seq<u8>)
    requires
        forall|i: int|
            0 <= i < token.len() ==> (32 <= #[trigger] token[i] && token[i] <= 126) || token[i]
                == 9,
    ensures
        presented_token(
            Some(seq![0x42u8, 0x65u8, 0x61u8, 0x72u8, 0x65u8, 0x72u8, 0x20u8] + token),
        ) == Some(token),
{
    let mark = seq![0x42u8, 0x65u8, 0x61u8, 0x72u8, 0x65u8, 0x72u8, 0x20u8];
    assert(mark =~= bearer_mark());
    law_only_the_exact_header_is_let_in(Some(mark + token), token);
}

/// A header presents a token only where its first seven bytes are those of `Bearer `, all
/// its bytes lie between 32 and 126 or are 9, and the token is the rest of it.
pub proof fn law_a_token_stands_behind_bearer(header: Seq<u8>, token: Seq<u8>)
    requires
        presented_token(Some(header)) == Some(token),
    ensures
        header == seq![0x42u8, 0x65u8, 0x61u8, 0x72u8, 0x65u8, 0x72u8, 0x20u8] + token,
        forall|i: int|
            0 <= i < header.len() ==> (32 <= #[trigger] header[i] && header[i] <= 126)
                || header[i] == 9,
{
    let mark = seq![0x42u8, 0x65u8, 0x61u8, 0x72u8, 0x65u8, 0x72u8, 0x20u8];
    assert(mark =~= bearer_mark());
    law_only_the_exact_header_is_let_in(Some(header), token);
    assert forall|i: int| 0 <= i < header.len() implies (32 <= #[trigger] header[i] && header[i]
        <= 126) || header[i] == 9 by {
        assert(is_visible_ascii(header[i]));
    }
}

/// A header is read as text by the bytes from 32 to 126 and by the tab.
pub proof fn law_visible_bytes(b: u8)
    ensures
        is_visible_ascii(b) <==> (32 <= b && b <= 126) || b == 9,
{
}

/// A header is taken for what it holds.
pub proof fn law_headers_are_taken_as_they_are(header: &[u8])
    ensures
        header_bytes(Some(header)) == Some(header@),
        header_bytes(None) == None::<Seq<u8>>,
{
}

/// A refused request is answered 401, with the challenge and the reason.
pub proof fn law_refusals_are_challenges(r: Refusal)
    ensures
        r.is_unauthorized() <==> {
            &&& r.status == 401
            &&& r.www_authenticate@ == "Bearer realm=\"xdf-mcp\""@
            &&& r.body@ == "Unauthorized: missing or invalid Bearer token\n"@
        },
{
}

} // verus!
