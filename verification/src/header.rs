//! The header of the container and the fields that are recovered from it.

use crate::bytes::le_i32;
use crate::error::DecodeError;
use crate::ext::{ByteReader, ReadExt};
use vstd::prelude::*;

verus! {

/// The signature that a package begins with.
pub const MAGIC: [u8; 3] = [0xEC, 0x48, 0x4F];

/// The size of the header: signature, version and four 16-byte fields.
pub const HEADER_LEN: usize = 68;

/// What reading the signature from `s` gives: whether the first three
/// bytes are the signature, where there are three.
pub open spec fn spec_read_magic(s: Seq<u8>) -> Result<bool, DecodeError> {
    if s.len() < 3 {
        Err(DecodeError::Truncated)
    } else {
        Ok(s.subrange(0, 3) == MAGIC@)
    }
}

/// Reads three bytes and says whether they are the signature.
pub fn read_magic(reader: &mut ByteReader) -> (r: Result<bool, DecodeError>)
    ensures
        r == spec_read_magic(old(reader)@),
        r is Ok ==> final(reader).advanced_from(old(reader), 3),
        r is Err ==> *final(reader) == *old(reader),
{
    let magic: [u8; 3] = match reader.read_n() {
        Ok(magic) => magic,
        Err(e) => {
            return Err(e);
        },
    };
    let same = magic[0] == MAGIC[0] && magic[1] == MAGIC[1] && magic[2] == MAGIC[2];
    if same {
        assert(magic@ =~= MAGIC@);
    }
    Ok(same)
}

/// The fields of the header after the signature.
#[derive(Debug, Clone, Copy)]
pub struct Header {
    /// The format version. Every value is accepted.
    pub version: u8,
    /// The field that the body initialisation vector is recovered from.
    pub xor_iv: [u8; 16],
    /// The checkpoint digest of the metadata section.
    pub hash_meta: [u8; 16],
    /// The checkpoint digest of the file-info block.
    pub hash_info: [u8; 16],
    /// The checkpoint digest of the body, which the decoder does not verify.
    pub hash_body: [u8; 16],
}

/// The header as plain values.
pub struct HeaderView {
    pub version: u8,
    pub xor_iv: Seq<u8>,
    pub hash_meta: Seq<u8>,
    pub hash_info: Seq<u8>,
    pub hash_body: Seq<u8>,
}

impl View for Header {
    type V = HeaderView;

    open spec fn view(&self) -> HeaderView {
        HeaderView {
            version: self.version,
            xor_iv: self.xor_iv@,
            hash_meta: self.hash_meta@,
            hash_info: self.hash_info@,
            hash_body: self.hash_body@,
        }
    }
}

/// The header at the start of `s`: the signature is checked as soon as its
/// three bytes are there, before the rest is asked for.
pub open spec fn spec_read_header(s: Seq<u8>) -> Result<HeaderView, DecodeError> {
    if s.len() < 3 {
        Err(DecodeError::Truncated)
    } else if s.subrange(0, 3) != MAGIC@ {
        Err(DecodeError::BadMagic)
    } else if s.len() < HEADER_LEN {
        Err(DecodeError::Truncated)
    } else {
        Ok(
            HeaderView {
                version: s[3],
                xor_iv: s.subrange(4, 20),
                hash_meta: s.subrange(20, 36),
                hash_info: s.subrange(36, 52),
                hash_body: s.subrange(52, 68),
            },
        )
    }
}

/// Reads the header.
pub fn read_header(reader: &mut ByteReader) -> (r: Result<Header, DecodeError>)
    ensures
        match r {
            Ok(header) => spec_read_header(old(reader)@) == Ok::<HeaderView, DecodeError>(header@)
                && final(reader).advanced_from(old(reader), HEADER_LEN as int),
            Err(e) => spec_read_header(old(reader)@) == Err::<HeaderView, DecodeError>(e),
        },
{
    match read_magic(reader) {
        Ok(true) => {},
        Ok(false) => {
            return Err(DecodeError::BadMagic);
        },
        Err(e) => {
            return Err(e);
        },
    }
    let ghost s = old(reader)@;
    if reader.remaining_len() < HEADER_LEN - 3 {
        return Err(DecodeError::Truncated);
    }
    let version = match reader.read_u8() {
        Ok(v) => v,
        Err(e) => {
            return Err(e);
        },
    };
    assert(reader@ =~= s.skip(4));
    let xor_iv: [u8; 16] = match reader.read_n() {
        Ok(v) => v,
        Err(e) => {
            return Err(e);
        },
    };
    assert(reader@ =~= s.skip(20));
    assert(xor_iv@ =~= s.subrange(4, 20));
    let hash_meta: [u8; 16] = match reader.read_n() {
        Ok(v) => v,
        Err(e) => {
            return Err(e);
        },
    };
    assert(reader@ =~= s.skip(36));
    assert(hash_meta@ =~= s.subrange(20, 36));
    let hash_info: [u8; 16] = match reader.read_n() {
        Ok(v) => v,
        Err(e) => {
            return Err(e);
        },
    };
    assert(reader@ =~= s.skip(52));
    assert(hash_info@ =~= s.subrange(36, 52));
    let hash_body: [u8; 16] = match reader.read_n() {
        Ok(v) => v,
        Err(e) => {
            return Err(e);
        },
    };
    assert(reader@ =~= s.skip(68));
    assert(hash_body@ =~= s.subrange(52, 68));
    Ok(Header { version, xor_iv, hash_meta, hash_info, hash_body })
}

/// The initialisation vector of the body section: the header's XOR-IV field
/// with the body digest mixed in, byte by byte.
pub open spec fn spec_decode_iv(xor_iv: Seq<u8>, hash_body: Seq<u8>) -> Seq<u8> {
    Seq::new(16, |i: int| xor_iv[i] ^ hash_body[i])
}

/// Recovers the body initialisation vector from the two header fields.
pub fn decode_iv(xor_iv: [u8; 16], hash_body: &[u8; 16]) -> (iv: [u8; 16])
    ensures
        iv@ == spec_decode_iv(xor_iv@, hash_body@),
{
    let mut iv = xor_iv;
    let mut i: usize = 0;
    while i < 16
        invariant
            i <= 16,
            forall|j: int| 0 <= j < i ==> iv@[j] == xor_iv@[j] ^ hash_body@[j],
            forall|j: int| i <= j < 16 ==> iv@[j] == xor_iv@[j],
        decreases 16 - i,
    {
        iv[i] = iv[i] ^ hash_body[i];
        i += 1;
    }
    assert(iv@ =~= spec_decode_iv(xor_iv@, hash_body@));
    iv
}

/// The size of the field that holds the length of the file-info block.
pub const LENGTH_FIELD_LEN: usize = 4;

/// What the first `pairs` byte pairs of the info digest take off the stored
/// length: for each pair its first byte, and its second byte 17 bits up.
pub open spec fn length_mask(hash_info: Seq<u8>, pairs: int) -> int
    decreases pairs,
{
    if pairs <= 0 {
        0
    } else {
        length_mask(hash_info, pairs - 1) + hash_info[2 * (pairs - 1)] + 0x2_0000
            * hash_info[2 * (pairs - 1) + 1]
    }
}

/// The length of the file-info block that the length field at the start of
/// `s` stands for: the stored number less what the eight pairs of the info
/// digest take off. A length below zero is refused.
pub open spec fn spec_read_data_length(s: Seq<u8>, hash_info: Seq<u8>) -> Result<
    nat,
    DecodeError,
> {
    if s.len() < LENGTH_FIELD_LEN {
        Err(DecodeError::Truncated)
    } else if le_i32(s) - length_mask(hash_info, 8) < 0 {
        Err(DecodeError::Truncated)
    } else {
        Ok((le_i32(s) - length_mask(hash_info, 8)) as nat)
    }
}

/// Reads the length field and recovers the length of the file-info block.
pub fn read_data_length(reader: &mut ByteReader, hash_info: &[u8; 16]) -> (r: Result<
    usize,
    DecodeError,
>)
    ensures
        match r {
            Ok(length) => spec_read_data_length(old(reader)@, hash_info@) == Ok::<
                nat,
                DecodeError,
            >(length as nat) && final(reader).advanced_from(old(reader), LENGTH_FIELD_LEN as int),
            Err(e) => spec_read_data_length(old(reader)@, hash_info@) == Err::<nat, DecodeError>(
                e,
            ),
        },
{
    let stored = match reader.read_i32() {
        Ok(v) => v,
        Err(e) => {
            return Err(e);
        },
    };
    let mut length: i64 = stored as i64;
    let mut pair: usize = 0;
    while pair < 8
        invariant
            pair <= 8,
            length == stored - length_mask(hash_info@, pair as int),
            0 <= length_mask(hash_info@, pair as int) <= pair * 0x200_0000,
        decreases 8 - pair,
    {
        let low = hash_info[2 * pair];
        let high = hash_info[2 * pair + 1];
        let part: i32 = low as i32 | (high as i32) << 17;
        assert((low as i32 | (high as i32) << 17) == low as i32 + 0x2_0000 * (high as i32))
            by (bit_vector);
        length = length - part as i64;
        pair += 1;
    }
    if length < 0 {
        return Err(DecodeError::Truncated);
    }
    Ok(length as usize)
}

} // verus!
