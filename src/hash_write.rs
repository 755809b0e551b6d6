//! A running SHA-256 digest and byte count over the bytes of an archive as
//! they are written out, so that a layer is hashed in the same single pass
//! that stores it.
use crate::digest::{
    digest_string, digest_text, is_digest_text, lemma_digest_text_is_valid, sha256_input, sha256_new, sha256_of, sha256_result, sha256_taken,
    SHA256_MAX_INPUT,
};
use crypto::sha2::Sha256;
use vstd::prelude::*;

verus! {

/// Follows the bytes handed to a writer: their digest and their number.
pub struct HashAndWrite {
    digest: Sha256,
    size: usize,
}

impl View for HashAndWrite {
    type V = Seq<u8>;

    /// The bytes written so far, in order.
    closed spec fn view(&self) -> Seq<u8> {
        sha256_taken(self.digest)
    }
}

impl HashAndWrite {
    /// The byte count agrees with the bytes taken in.
    pub closed spec fn wf(&self) -> bool {
        self.size as int == self@.len()
    }

    /// The largest total that can be followed.
    pub open spec fn capacity() -> int {
        if SHA256_MAX_INPUT < usize::MAX {
            SHA256_MAX_INPUT as int
        } else {
            usize::MAX as int
        }
    }

    pub fn new() -> (r: HashAndWrite)
        ensures
            r.wf(),
            r@ == Seq::<u8>::empty(),
    {
        HashAndWrite { digest: sha256_new(), size: 0 }
    }

    /// Takes in bytes that were written.
    pub fn write(&mut self, buf: &[u8])
        requires
            old(self).wf(),
            old(self)@.len() + buf@.len() <= Self::capacity(),
        ensures
            final(self).wf(),
            final(self)@ == old(self)@ + buf@,
    {
        sha256_input(&mut self.digest, buf);
        self.size = self.size + buf.len();
    }

    /// `sha256:<hex>` of the bytes written so far.
    pub fn get_digest(&self) -> (r: String)
        ensures
            r@ == digest_text(sha256_of(self@)),
            is_digest_text(r@),
    {
        let d = sha256_result(self.digest);
        proof {
            lemma_digest_text_is_valid(d@);
        }
        digest_string(d.as_slice())
    }

    /// The number of bytes written so far.
    pub fn get_size(&self) -> (r: usize)
        requires
            self.wf(),
        ensures
            r as int == self@.len(),
    {
        self.size
    }
}

/// The SHA-256 digest text of a whole byte sequence.
pub fn digest_of_bytes(data: &[u8]) -> (r: String)
    requires
        data@.len() <= SHA256_MAX_INPUT,
    ensures
        r@ == digest_text(sha256_of(data@)),
        is_digest_text(r@),
{
    let mut h = sha256_new();
    sha256_input(&mut h, data);
    assert(Seq::<u8>::empty() + data@ == data@);
    let d = sha256_result(h);
    proof {
        lemma_digest_text_is_valid(d@);
    }
    digest_string(d.as_slice())
}

} // verus!
