//! The cipher key: how it is derived from the metadata and how it is
//! checked against the known block.

use crate::bytes::{lemma_bytes_of_le_u32, read_u32_le};
use crate::digest::{md5_compute, md5_digest};
use crate::error::DecodeError;
use crate::ext::{ByteReader, ReadExt};
use crate::fastrandom::{output_bytes, seeded, FastRandom};
use crate::xxtea::{bytes_of, key_to_bytes, words_of};
use vstd::arithmetic::div_mod::lemma_fundamental_div_mod_converse;
use vstd::prelude::*;
use vstd::slice::slice_subrange;
use vstd::utf8::encode_utf8;
use xtea::cipher::array::Array;
use xtea::cipher::{BlockCipherDecrypt, KeyInit};
use xtea::Xtea;

verus! {

/// The salt that stands between the two metadata texts in the key seed:
/// the ASCII text `yhxyfjo5`.
pub const KEY_SALT: [u8; 8] = [0x79, 0x68, 0x78, 0x79, 0x66, 0x6a, 0x6f, 0x35];

/// The bytes whose digest is the key: the creator, the salt and the set
/// identifier, each in its UTF-8 form.
pub open spec fn key_seed(creator: Seq<char>, beatmapset_id: Seq<char>) -> Seq<u8> {
    encode_utf8(creator) + KEY_SALT@ + encode_utf8(beatmapset_id)
}

/// The sixteen key bytes for a creator and a set identifier.
pub fn generate_key(creator: &str, beatmapset_id: &str) -> (key: [u8; 16])
    ensures
        key@ == md5_digest(key_seed(creator@, beatmapset_id@)),
{
    let mut seed: Vec<u8> = Vec::new();
    seed.extend_from_slice(creator.as_bytes());
    seed.extend_from_slice(KEY_SALT.as_slice());
    seed.extend_from_slice(beatmapset_id.as_bytes());
    assert(seed@ =~= key_seed(creator@, beatmapset_id@));
    md5_compute(seed.as_slice())
}

/// The cipher key for a creator and a set identifier: the four words that
/// the key bytes hold.
pub open spec fn spec_derive_key(creator: Seq<char>, beatmapset_id: Seq<char>) -> Seq<u32> {
    words_of(md5_digest(key_seed(creator, beatmapset_id)))
}

/// The cipher key for a creator and a set identifier.
pub fn derive_key(creator: &str, beatmapset_id: &str) -> (key: [u32; 4])
    ensures
        key@ == spec_derive_key(creator@, beatmapset_id@),
{
    let bytes = generate_key(creator, beatmapset_id);
    key_words(&bytes)
}

/// The four key words that sixteen key bytes hold, each word low byte first.
pub fn key_words(key: &[u8; 16]) -> (words: [u32; 4])
    ensures
        words@ == words_of(key@),
{
    let mut words = [0u32; 4];
    let mut i: usize = 0;
    while i < 4
        invariant
            i <= 4,
            forall|k: int| 0 <= k < i ==> words@[k] == words_of(key@)[k],
        decreases 4 - i,
    {
        let part = slice_subrange(key.as_slice(), 4 * i, 4 * i + 4);
        proof {
            lemma_bytes_of_le_u32(part@);
        }
        words[i] = read_u32_le(part);
        i += 1;
    }
    assert(words@ =~= words_of(key@));
    words
}

/// The plain text of one eight-byte XTEA block under sixteen key bytes:
/// eight bytes that depend on the key and the block alone.
pub uninterp spec fn xtea_block_plain(key: Seq<u8>, block: Seq<u8>) -> Seq<u8>;

/// `xtea::Xtea` made by `KeyInit::new` from the key bytes, then
/// `BlockCipherDecrypt::decrypt_block` on a copy of the block: the block
/// deciphered with the standard XTEA rounds, key words and block words
/// stored low byte first. Nothing is proved of the plain text but that an
/// equal key and block give an equal result.
#[verifier::external_body]
pub(crate) fn xtea_decrypt_block(key: &[u8; 16], block: &[u8; 8]) -> (plain: [u8; 8])
    ensures
        plain@ == xtea_block_plain(key@, block@),
{
    let cipher = Xtea::new(&Array(*key));
    let mut data = Array(*block);
    cipher.decrypt_block(&mut data);
    data.0
}

/// The plain text of a run of whole XTEA blocks, each deciphered on its own.
pub open spec fn xtea_plain(key: Seq<u8>, cipher: Seq<u8>) -> Seq<u8> {
    Seq::new(
        cipher.len(),
        |i: int| xtea_block_plain(key, cipher.subrange(8 * (i / 8), 8 * (i / 8) + 8))[i % 8],
    )
}

/// The seed of the generator that makes the known block.
pub const KNOWN_PLAIN_SEED: u32 = 1990;

/// The size of the known block.
pub const KNOWN_PLAIN_LEN: usize = 64;

/// The known block: what the right key deciphers the stored block to.
pub open spec fn known_plain() -> Seq<u8> {
    output_bytes(seeded(KNOWN_PLAIN_SEED), KNOWN_PLAIN_LEN as nat)
}

/// Deciphers the stored block with XTEA, eight bytes at a time.
pub fn decipher_check_block(key: &[u32; 4], stored: &[u8; 64]) -> (plain: [u8; 64])
    ensures
        plain@ == xtea_plain(bytes_of(key@), stored@),
{
    let key_b = key_to_bytes(key);
    let mut plain = [0u8; 64];
    let mut b: usize = 0;
    while b < 8
        invariant
            b <= 8,
            key_b@ == bytes_of(key@),
            forall|k: int| 0 <= k < 8 * b ==> plain@[k] == xtea_plain(key_b@, stored@)[k],
        decreases 8 - b,
    {
        let mut block = [0u8; 8];
        let mut j: usize = 0;
        while j < 8
            invariant
                j <= 8,
                b < 8,
                forall|k: int| 0 <= k < j ==> block@[k] == stored@[8 * b + k],
            decreases 8 - j,
        {
            block[j] = stored[8 * b + j];
            j += 1;
        }
        assert(block@ =~= stored@.subrange(8 * b as int, 8 * b + 8));
        let out = xtea_decrypt_block(&key_b, &block);
        let mut j: usize = 0;
        while j < 8
            invariant
                j <= 8,
                b < 8,
                key_b@ == bytes_of(key@),
                forall|k: int| 0 <= k < 8 * b ==> plain@[k] == xtea_plain(key_b@, stored@)[k],
                forall|k: int| 8 * b <= k < 8 * b + j ==> plain@[k] == out@[k - 8 * b],
            decreases 8 - j,
        {
            plain[8 * b + j] = out[j];
            j += 1;
        }
        assert forall|k: int| 8 * b <= k < 8 * b + 8 implies plain@[k] == xtea_plain(
            key_b@,
            stored@,
        )[k] by {
            lemma_fundamental_div_mod_converse(k, 8, b as int, k - 8 * b);
        }
        b += 1;
    }
    assert(plain@ =~= xtea_plain(key_b@, stored@));
    plain
}

/// Holds a deciphered block against the known block.
pub fn check_known_plain(plain: &[u8; 64]) -> (r: Result<(), DecodeError>)
    ensures
        r == if plain@ == known_plain() {
            Ok::<(), DecodeError>(())
        } else {
            Err::<(), DecodeError>(DecodeError::KeyMismatch)
        },
{
    let mut fastrandom = FastRandom::new(KNOWN_PLAIN_SEED);
    let known: [u8; 64] = fastrandom.next_bytes();
    let mut i: usize = 0;
    while i < 64
        invariant
            i <= 64,
            known@ == known_plain(),
            forall|k: int| 0 <= k < i ==> plain@[k] == known@[k],
        decreases 64 - i,
    {
        if plain[i] != known[i] {
            return Err(DecodeError::KeyMismatch);
        }
        i += 1;
    }
    assert(plain@ =~= known@);
    Ok(())
}

/// What the key check does on the input `s`: it takes 64 bytes, and the key
/// must decipher them to the known block.
pub open spec fn spec_check_key(s: Seq<u8>, key: Seq<u32>) -> Result<(), DecodeError> {
    if s.len() < KNOWN_PLAIN_LEN {
        Err(DecodeError::Truncated)
    } else if xtea_plain(bytes_of(key), s.subrange(0, KNOWN_PLAIN_LEN as int)) != known_plain() {
        Err(DecodeError::KeyMismatch)
    } else {
        Ok(())
    }
}

/// Reads the stored block and checks the key against it. The 64 bytes are
/// read whenever they are there, whether the key fits or not.
pub fn read_check_key(reader: &mut ByteReader, key: &[u32; 4]) -> (r: Result<(), DecodeError>)
    ensures
        r == spec_check_key(old(reader)@, key@),
        r != Err::<(), DecodeError>(DecodeError::Truncated) ==> final(reader).advanced_from(
            old(reader),
            KNOWN_PLAIN_LEN as int,
        ),
{
    let stored: [u8; 64] = match reader.read_n() {
        Ok(stored) => stored,
        Err(e) => {
            return Err(e);
        },
    };
    let plain = decipher_check_block(key, &stored);
    check_known_plain(&plain)
}

} // verus!
