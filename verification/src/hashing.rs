//! The content hasher: SHA-256 digests rendered as lower-case hex strings.
//! Deduplication keys every stored object by `(owner, content hash)`.

use vstd::prelude::*;

use crate::hex::{hex_of, to_hex};
use sha2::Digest;

verus! {

/// The 32-byte SHA-256 digest of a byte sequence. The digest is a function
/// of the bytes alone; its value is stated nowhere in this crate and comes
/// only from the `sha2` crate.
pub uninterp spec fn sha256_of(data: Seq<u8>) -> Seq<u8>;

/// The hex string under which a content digest is recorded in the catalog.
pub open spec fn sha256_hex_of(data: Seq<u8>) -> Seq<char> {
    hex_of(sha256_of(data))
}

/// The concatenation of a sequence of byte chunks.
pub open spec fn concat_of(chunks: Seq<Seq<u8>>) -> Seq<u8>
    decreases chunks.len(),
{
    if chunks.len() == 0 {
        Seq::<u8>::empty()
    } else {
        concat_of(chunks.drop_last()) + chunks.last()
    }
}

pub proof fn lemma_concat_of_push(chunks: Seq<Seq<u8>>, c: Seq<u8>)
    ensures
        concat_of(chunks.push(c)) == concat_of(chunks) + c,
{
    assert(chunks.push(c).drop_last() =~= chunks);
    assert(chunks.push(c).last() == c);
}

/// Relies on sha2::Sha256 (through the one-shot `Digest::digest` interface):
/// returns the 32-byte SHA-256 digest of the input.
#[verifier::external_body]
fn sha256_digest(data: &[u8]) -> (r: Vec<u8>)
    ensures
        r@ == sha256_of(data@),
        r@.len() == 32,
{
    sha2::Sha256::digest(data).as_slice().to_vec()
}

/// The SHA-256 digest of `data`, rendered as 64 lower-case hex characters.
pub fn sha256_hex(data: &[u8]) -> (r: String)
    ensures
        r@ == sha256_hex_of(data@),
{
    let digest = sha256_digest(data);
    to_hex(digest.as_slice())
}

/// Hashes a file presented as a sequence of read chunks, as a streaming
/// reader hands them out, and returns the hex digest of their concatenation.
pub fn compute_sha256(chunks: &Vec<Vec<u8>>) -> (r: String)
    ensures
        r@ == sha256_hex_of(concat_of(chunks@.map_values(|c: Vec<u8>| c@))),
{
    let mut buf: Vec<u8> = Vec::new();
    let n = chunks.len();
    let mut i: usize = 0;
    while i < n
        invariant
            n == chunks@.len(),
            i <= n,
            buf@ == concat_of(chunks@.take(i as int).map_values(|c: Vec<u8>| c@)),
        decreases n - i,
    {
        let chunk = &chunks[i];
        let m = chunk.len();
        let mut j: usize = 0;
        while j < m
            invariant
                m == chunk@.len(),
                j <= m,
                buf@ == concat_of(chunks@.take(i as int).map_values(|c: Vec<u8>| c@)) + chunk@.take(
                    j as int,
                ),
            decreases m - j,
        {
            buf.push(chunk[j]);
            j = j + 1;
            proof {
                assert(chunk@.take(j as int) =~= chunk@.take(j - 1).push(chunk@[j - 1]));
            }
        }
        i = i + 1;
        proof {
            let f = |c: Vec<u8>| c@;
            assert(chunk@.take(m as int) =~= chunk@);
            assert(chunks@.take(i as int).map_values(f) =~= chunks@.take(i - 1).map_values(f).push(
                chunks@[i - 1]@,
            ));
            lemma_concat_of_push(chunks@.take(i - 1).map_values(f), chunks@[i - 1]@);
        }
    }
    proof {
        assert(chunks@.take(n as int) =~= chunks@);
    }
    sha256_hex(buf.as_slice())
}

} // verus!
