//! The checkpoint digest that guards the sections of the container.

use vstd::prelude::*;

verus! {

/// The MD5 digest of `data`: sixteen bytes that depend on `data` alone.
pub uninterp spec fn md5_digest(data: Seq<u8>) -> Seq<u8>;

/// `md5::compute`: the sixteen bytes of the MD5 digest of `data`. Nothing is
/// proved of the digest but that equal data gives equal digests.
#[verifier::external_body]
pub(crate) fn md5_compute(data: &[u8]) -> (digest: [u8; 16])
    ensures
        digest@ == md5_digest(data@),
{
    md5::compute(data).0
}

/// What is mixed into byte 5 of a checkpoint digest.
pub const DIGEST_MASK: u8 = 0x2d;

/// A digest with its two halves exchanged and the mask mixed into byte 5.
pub open spec fn fold_digest(d: Seq<u8>) -> Seq<u8> {
    Seq::new(
        16,
        |i: int|
            if i == 5 {
                d[13] ^ DIGEST_MASK
            } else if i < 8 {
                d[i + 8]
            } else {
                d[i - 8]
            },
    )
}

/// The checkpoint digest of `buffer` for the position `pos` and the byte
/// `swap`: the folded MD5 digest of the buffer with `swap` mixed into the
/// byte at `pos`.
pub open spec fn checkpoint_hash(buffer: Seq<u8>, pos: int, swap: u8) -> Seq<u8> {
    fold_digest(md5_digest(buffer.update(pos, buffer[pos] ^ swap)))
}

/// Exchanges the halves of `digest` and mixes the mask into byte 5.
pub fn finish_digest(digest: [u8; 16]) -> (hash: [u8; 16])
    ensures
        hash@ == fold_digest(digest@),
{
    let mut hash = digest;
    let mut i: usize = 0;
    while i < 8
        invariant
            i <= 8,
            forall|k: int| 0 <= k < i ==> hash@[k] == digest@[k + 8],
            forall|k: int| 8 <= k < 8 + i ==> hash@[k] == digest@[k - 8],
            forall|k: int| i <= k < 8 ==> hash@[k] == digest@[k],
            forall|k: int| 8 + i <= k < 16 ==> hash@[k] == digest@[k],
        decreases 8 - i,
    {
        let a = hash[i];
        hash[i] = hash[i + 8];
        hash[i + 8] = a;
        i += 1;
    }
    hash[5] = hash[5] ^ DIGEST_MASK;
    assert(hash@ =~= fold_digest(digest@));
    hash
}

/// The checkpoint digest of `buffer` for the position `pos` and the byte
/// `swap`. The byte at `pos` is changed while the digest is taken and put
/// back after: the buffer leaves as it came. The result depends on the
/// three inputs alone, so two calls on equal inputs give equal digests.
pub fn calc_osz2_hash(buffer: &mut [u8], pos: usize, swap: u8) -> (hash: [u8; 16])
    requires
        pos < old(buffer)@.len(),
    ensures
        final(buffer)@ == old(buffer)@,
        hash@ == checkpoint_hash(old(buffer)@, pos as int, swap),
{
    let kept = buffer[pos];
    buffer[pos] = kept ^ swap;
    let digest = md5_compute(buffer);
    assert((kept ^ swap) ^ swap == kept) by (bit_vector);
    buffer[pos] = buffer[pos] ^ swap;
    assert(buffer@ =~= old(buffer)@);
    finish_digest(digest)
}

/// Whether two digests are the same.
pub fn digests_match(a: &[u8; 16], b: &[u8; 16]) -> (same: bool)
    ensures
        same == (a@ == b@),
{
    let mut i: usize = 0;
    while i < 16
        invariant
            i <= 16,
            forall|k: int| 0 <= k < i ==> a@[k] == b@[k],
        decreases 16 - i,
    {
        if a[i] != b[i] {
            return false;
        }
        i += 1;
    }
    assert(a@ =~= b@);
    true
}

} // verus!
