//! SHA-1 digests: the digest function itself, and the list of piece digests
//! that a metainfo file carries.

use vstd::prelude::*;
use sha1::{Digest, Sha1};

verus! {

/// The SHA-1 digest of a byte sequence.
pub uninterp spec fn sha1_of(data: Seq<u8>) -> Seq<u8>;

/// Relies on `sha1::Sha1` through the `Digest` trait (`new`, `update`,
/// `finalize`): the 20-byte SHA-1 digest of `data`, which depends on `data`
/// alone.
#[verifier::external_body]
pub(crate) fn sha1_digest(data: &[u8]) -> (r: [u8; 20])
    ensures
        r@ == sha1_of(data@),
{
    let mut hasher = Sha1::new();
    hasher.update(data);
    hasher.finalize().into()
}

/// The digests of the pieces, in piece order.
#[derive(Debug, Clone)]
pub struct Hashes(pub Vec<[u8; 20]>);

/// The bytes of a digest list: the digests one after another.
pub open spec fn hashes_bytes(h: Seq<[u8; 20]>) -> Seq<u8>
    decreases h.len(),
{
    if h.len() == 0 {
        Seq::empty()
    } else {
        hashes_bytes(h.drop_last()) + h.last()@
    }
}

impl Hashes {
    /// The digests concatenated, as a metainfo file holds them.
    pub fn to_bytes(&self) -> (r: Vec<u8>)
        ensures
            r@ == hashes_bytes(self.0@),
    {
        let mut v: Vec<u8> = Vec::new();
        let mut i: usize = 0;
        while i < self.0.len()
            invariant
                i <= self.0@.len(),
                v@ == hashes_bytes(self.0@.take(i as int)),
            decreases self.0@.len() - i,
        {
            v.extend_from_slice(self.0[i].as_slice());
            assert(self.0@.take(i + 1int).drop_last() =~= self.0@.take(i as int));
            i += 1;
        }
        assert(self.0@.take(i as int) =~= self.0@);
        v
    }
}

#[derive(Debug, Clone, Copy, PartialEq, Eq, Structural)]
pub enum HashesError {
    /// The byte string's length is not a multiple of 20.
    BadLength { len: usize },
}

/// Reads the digest list of a metainfo file.
pub struct HashStrVisitor;

impl HashStrVisitor {
    /// Cuts a byte string into 20-byte digests.
    pub fn visit_bytes(&self, v: &[u8]) -> (r: Result<Hashes, HashesError>)
        ensures
            v@.len() % 20 != 0 ==> r == Err::<Hashes, HashesError>(
                HashesError::BadLength { len: v@.len() as usize },
            ),
            v@.len() % 20 == 0 ==> (r matches Ok(h) && h.0@.len() == v@.len() / 20 && forall|k: int|
                0 <= k < h.0@.len() ==> #[trigger] h.0@[k]@ == v@.subrange(20 * k, 20 * k + 20)),
    {
        let n = v.len();
        if n % 20 != 0 {
            return Err(HashesError::BadLength { len: n });
        }
        let mut out: Vec<[u8; 20]> = Vec::new();
        let mut i: usize = 0;
        while i < n / 20
            invariant
                n == v@.len(),
                n % 20 == 0,
                i <= n / 20,
                out@.len() == i,
                forall|k: int| 0 <= k < i ==> #[trigger] out@[k]@ == v@.subrange(20 * k, 20 * k + 20),
            decreases n / 20 - i,
        {
            out.push(crate::peers::copy20(v, 20 * i));
            i += 1;
        }
        Ok(Hashes(out))
    }
}

} // verus!
