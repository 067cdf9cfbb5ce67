//! What the tracker is asked and what it answers, and the percent-encoding of
//! the info hash in the request's URL.

use vstd::prelude::*;
use vstd::string::StringExecFns;
use crate::peers::Peers;

verus! {

/// The lowercase hexadecimal digits.
pub open spec fn hex_chars() -> Seq<char> {
    seq!['0', '1', '2', '3', '4', '5', '6', '7', '8', '9', 'a', 'b', 'c', 'd', 'e', 'f']
}

/// The two lowercase hex digits of a byte, high nibble first.
pub open spec fn hex_pair(b: u8) -> Seq<char> {
    seq![hex_chars()[b as int / 16], hex_chars()[b as int % 16]]
}

/// A byte percent-encoded: `%` and its two hex digits.
pub open spec fn pct_byte(b: u8) -> Seq<char> {
    seq!['%'] + hex_pair(b)
}

/// Every byte percent-encoded, in order.
pub open spec fn pct_encode(s: Seq<u8>) -> Seq<char>
    decreases s.len(),
{
    if s.len() == 0 {
        Seq::empty()
    } else {
        pct_encode(s.drop_last()) + pct_byte(s.last())
    }
}

/// Relies on `hex::encode`: a byte becomes its two lowercase hex digits,
/// high nibble first.
#[verifier::external_body]
fn hex_of_byte(b: u8) -> (r: String)
    ensures
        r@ == hex_pair(b),
{
    hex::encode([b])
}

/// Percent-encodes every byte of an info hash, as the tracker's query wants it.
pub fn urlencode(t: &[u8; 20]) -> (r: String)
    ensures
        r@ == pct_encode(t@),
{
    let mut encoded = String::new();
    let mut i: usize = 0;
    while i < 20
        invariant
            i <= 20,
            t@.len() == 20,
            encoded@ == pct_encode(t@.take(i as int)),
        decreases 20 - i,
    {
        proof {
            reveal_strlit("%");
        }
        encoded.append("%");
        let h = hex_of_byte(t[i]);
        encoded.append(h.as_str());
        assert(t@.take(i + 1int).drop_last() =~= t@.take(i as int));
        assert(encoded@ =~= pct_encode(t@.take(i + 1int)));
        i += 1;
    }
    assert(t@.take(20) =~= t@);
    encoded
}

/// Percent-encoding gives three characters for each byte: `%` and the byte's
/// two lowercase hex digits, in the bytes' order; a 20-byte info hash gives 60.
pub proof fn lemma_pct_encode_shape(s: Seq<u8>)
    ensures
        pct_encode(s).len() == 3 * s.len(),
        forall|k: int|
            0 <= k < s.len() ==> #[trigger] pct_encode(s).subrange(3 * k, 3 * k + 3) == pct_byte(s[k]),
    decreases s.len(),
{
    if s.len() > 0 {
        lemma_pct_encode_shape(s.drop_last());
        let p = pct_encode(s.drop_last());
        assert forall|k: int| 0 <= k < s.len() implies #[trigger] pct_encode(s).subrange(3 * k, 3 * k + 3)
            == pct_byte(s[k]) by {
            if k < s.len() - 1 {
                assert(pct_encode(s).subrange(3 * k, 3 * k + 3) =~= p.subrange(3 * k, 3 * k + 3));
                assert(s.drop_last()[k] == s[k]);
            } else {
                assert(pct_encode(s).subrange(3 * k, 3 * k + 3) =~= pct_byte(s.last()));
            }
        }
    }
}

/// The URL of a tracker query: the announce URL, the other parameters, and
/// the percent-encoded info hash.
pub fn tracker_url(announce: &str, query: &str, info_hash: &[u8; 20]) -> (r: String)
    ensures
        r@ == announce@ + seq!['?'] + query@ + seq!['&', 'i', 'n', 'f', 'o', '_', 'h', 'a', 's', 'h', '=']
            + pct_encode(info_hash@),
{
    let mut url = String::from_str(announce);
    proof {
        reveal_strlit("?");
        reveal_strlit("&info_hash=");
    }
    url.append("?");
    url.append(query);
    url.append("&info_hash=");
    let enc = urlencode(info_hash);
    url.append(enc.as_str());
    url
}

/// The parameters of a tracker query besides the info hash.
#[derive(Debug, Clone)]
pub struct TrackerRequest {
    /// Twenty characters that name this client.
    pub peer_id: String,
    /// The port this client listens on.
    pub port: u16,
    pub uploaded: usize,
    pub downloaded: usize,
    /// The bytes still to download.
    pub left: usize,
    /// 1: the peers come back in the six-byte form.
    pub compact: usize,
}

impl TrackerRequest {
    /// The query of a client that has `left` bytes to fetch and nothing yet.
    pub fn new(peer_id: String, port: u16, left: usize) -> (r: Self)
        ensures
            r.peer_id == peer_id,
            r.port == port,
            r.uploaded == 0,
            r.downloaded == 0,
            r.left == left,
            r.compact == 1,
    {
        TrackerRequest { peer_id, port, uploaded: 0, downloaded: 0, left, compact: 1 }
    }
}

/// The tracker's answer.
#[derive(Debug, Clone)]
pub struct TrackerResponse {
    /// How often to ask again, in seconds; the download does not use it.
    pub interval: usize,
    pub peers: Peers,
}

} // verus!
