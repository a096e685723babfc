//! Which protocol version a session speaks.

use vstd::prelude::*;

use crate::text::{comes_before, same_text};
#[allow(unused_imports)]
use crate::text::{differ_first, text_less, texts};

verus! {

/// The version of a session: the one that the client asks for where it is known and
/// older than the one that the server offers, else the server's.
pub open spec fn negotiated(
    client: Seq<char>,
    offered: Seq<char>,
    known: Seq<Seq<char>>,
) -> Seq<char> {
    if known.contains(client) && text_less(client, offered) {
        client
    } else {
        offered
    }
}

/// Tells whether a version is known.
fn is_known(version: &str, known: &Vec<String>) -> (r: bool)
    ensures
        r == texts(known@).contains(version@),
{
    let mut i: usize = 0;
    while i < known.len()
        invariant
            i <= known@.len(),
            forall|j: int| 0 <= j < i ==> texts(known@)[j] != version@,
        decreases known@.len() - i,
    {
        if same_text(known[i].as_str(), version) {
            assert(texts(known@)[i as int] == version@);
            return true;
        }
        i += 1;
    }
    false
}

/// Settles the version of a session. Versions are dates, so the older one comes
/// first in the order of texts.
pub fn negotiate(client: &str, offered: &str, known: &Vec<String>) -> (r: String)
    ensures
        r@ == negotiated(client@, offered@, texts(known@)),
{
    if is_known(client, known) && comes_before(client, offered) {
        client.to_owned()
    } else {
        offered.to_owned()
    }
}

/// The server never goes beyond what it offers, and it speaks nothing but the
/// client's version or its own.
pub proof fn law_version_is_not_newer_than_offered(
    client: Seq<char>,
    offered: Seq<char>,
    known: Seq<Seq<char>>,
)
    ensures
        negotiated(client, offered, known) == client || negotiated(client, offered, known)
            == offered,
        !text_less(offered, negotiated(client, offered, known)),
{
    lemma_text_less_is_strict(client, offered);
    lemma_text_less_is_strict(offered, offered);
}

/// A client whose version is known is never answered with a newer one than it asked
/// for.
pub proof fn law_known_client_is_not_outrun(
    client: Seq<char>,
    offered: Seq<char>,
    known: Seq<Seq<char>>,
)
    requires
        known.contains(client),
    ensures
        !text_less(client, negotiated(client, offered, known)),
{
    lemma_text_less_is_strict(client, client);
}

/// A version that is not known is answered with the server's own.
pub proof fn law_unknown_version_gets_the_offer(
    client: Seq<char>,
    offered: Seq<char>,
    known: Seq<Seq<char>>,
)
    requires
        !known.contains(client),
    ensures
        negotiated(client, offered, known) == offered,
{
}

/// Of two texts at most one comes before the other.
proof fn lemma_text_less_is_strict(a: Seq<char>, b: Seq<char>)
    ensures
        !(text_less(a, b) && text_less(b, a)),
{
    if text_less(a, b) && text_less(b, a) {
        let j = choose|j: int| #[trigger] differ_first(a, b, j);
        let k = choose|k: int| #[trigger] differ_first(b, a, k);
        if j < k {
            assert(b.take(k)[j] == b[j]);
            assert(a.take(k)[j] == a[j]);
        } else if k < j {
            assert(b.take(j)[k] == b[k]);
            assert(a.take(j)[k] == a[k]);
        }
    }
}

/// A known version that comes before the one offered is spoken, and every other one is
/// answered with the offer.
pub proof fn law_older_known_versions_are_spoken(
    client: Seq<char>,
    offered: Seq<char>,
    known: Seq<Seq<char>>,
)
    ensures
        known.contains(client) && text_less(client, offered) ==> negotiated(client, offered, known)
            == client,
        !text_less(client, offered) ==> negotiated(client, offered, known) == offered,
{
}

} // verus!
