//! The metadata section and its checkpoint digest.

use crate::bytes::{
    i32_le_bytes, le_i32, le_u16, le_u32, lemma_le_i32_roundtrip, lemma_le_u16_of_bytes,
    u16_le_bytes,
};
use crate::digest::{calc_osz2_hash, checkpoint_hash};
use crate::error::DecodeError;
use crate::ext::{
    lemma_net_string_roundtrip, lemma_read_text_is_short, net_string_bytes, spec_net_string,
    ByteReader, ReadExt, MAX_ROUNDTRIP_LEN,
};
use crate::types::{MapMetaType, Metadata};
use vstd::prelude::*;
use vstd::utf8::encode_utf8;

verus! {

/// The byte that is mixed in for the metadata checkpoint.
pub const METADATA_SWAP: u8 = 0xa7;

/// One metadata entry at the start of `s`, with the number of bytes it
/// takes: a 16-bit code and a string.
#[verifier::opaque]
pub open spec fn spec_meta_entry(s: Seq<u8>) -> Result<((u16, Seq<char>), nat), DecodeError> {
    if s.len() < 2 {
        Err(DecodeError::Truncated)
    } else {
        match spec_net_string(s.skip(2)) {
            Err(e) => Err(e),
            Ok((text, used)) => Ok(((le_u16(s) as u16, text), used + 2)),
        }
    }
}

/// The first `count` metadata entries at the start of `s`, in the order in
/// which they stand, with the number of bytes they take together; none for
/// a count below one.
pub open spec fn spec_meta_entries(s: Seq<u8>, count: int) -> Result<
    (Seq<(u16, Seq<char>)>, nat),
    DecodeError,
>
    decreases count,
{
    if count <= 0 {
        Ok((Seq::empty(), 0))
    } else {
        match spec_meta_entries(s, count - 1) {
            Err(e) => Err(e),
            Ok((before, used)) => match spec_meta_entry(s.skip(used as int)) {
                Err(e) => Err(e),
                Ok((entry, more)) => Ok((before.push(entry), used + more)),
            },
        }
    }
}

/// The metadata that a run of entries gives: each text filed under the kind
/// that its code stands for, a later entry of a kind in place of an earlier.
pub open spec fn meta_map(entries: Seq<(u16, Seq<char>)>) -> Map<MapMetaType, Seq<char>>
    decreases entries.len(),
{
    if entries.len() == 0 {
        Map::empty()
    } else {
        meta_map(entries.drop_last()).insert(
            MapMetaType::spec_from_code(entries.last().0),
            entries.last().1,
        )
    }
}

/// The bytes that are written for a run of entries: each code in two
/// bytes and each text in the form that `write_net_string` gives it.
pub open spec fn meta_entries_bytes(entries: Seq<(u16, Seq<char>)>) -> Seq<u8>
    decreases entries.len(),
{
    if entries.len() == 0 {
        Seq::empty()
    } else {
        meta_entries_bytes(entries.drop_last()) + u16_le_bytes(entries.last().0)
            + net_string_bytes(entries.last().1)
    }
}

/// The bytes that are written for a metadata section: the count and the
/// entries.
pub open spec fn meta_shadow(count: i32, entries: Seq<(u16, Seq<char>)>) -> Seq<u8> {
    i32_le_bytes(count) + meta_entries_bytes(entries)
}

/// The metadata section at the start of `s`: the metadata, its checkpoint
/// digest, and the number of bytes of the section. The digest is taken over
/// the bytes of the section as they stand in `s`, at three times the
/// number of entries, which is the count where the count is not below
/// zero.
pub open spec fn spec_read_metadata(s: Seq<u8>) -> Result<
    (Map<MapMetaType, Seq<char>>, Seq<u8>, nat),
    DecodeError,
> {
    if s.len() < 4 {
        Err(DecodeError::Truncated)
    } else {
        match spec_meta_entries(s.skip(4), le_i32(s)) {
            Err(e) => Err(e),
            Ok((entries, used)) => Ok(
                (
                    meta_map(entries),
                    checkpoint_hash(
                        s.subrange(0, 4 + used as int),
                        3 * entries.len() as int,
                        METADATA_SWAP,
                    ),
                    used + 4,
                ),
            ),
        }
    }
}

/// A run of entries that is read well has as many entries as were asked
/// for, none where fewer than one were asked for; every entry takes three
/// bytes or more, and all of them stand within the input.
pub proof fn lemma_meta_entries_len(s: Seq<u8>, count: int)
    requires
        spec_meta_entries(s, count) is Ok,
    ensures
        spec_meta_entries(s, count) matches Ok((entries, used)) && entries.len() == (if count
            > 0 {
            count
        } else {
            0
        }) && 3 * entries.len() <= used <= s.len(),
    decreases count,
{
    if count > 0 {
        lemma_meta_entries_len(s, count - 1);
        let (before, used) = spec_meta_entries(s, count - 1)->Ok_0;
        let at = s.skip(used as int);
        reveal(spec_meta_entry);
        lemma_read_text_is_short(at.skip(2));
    }
}

/// Once an entry fails, every longer run of entries fails in the same way.
proof fn lemma_meta_entries_error(s: Seq<u8>, k: int, count: int)
    requires
        k <= count,
        spec_meta_entries(s, k) is Err,
    ensures
        spec_meta_entries(s, count) == spec_meta_entries(s, k),
    decreases count - k,
{
    if k < count {
        lemma_meta_entries_error(s, k, count - 1);
    }
}

/// Reads one metadata entry: its code, its text and the number of bytes
/// that it took.
fn read_meta_entry(reader: &mut ByteReader) -> (r: Result<(u16, String, Ghost<nat>), DecodeError>)
    ensures
        match r {
            Ok((code, text, used)) => spec_meta_entry(old(reader)@) == Ok::<
                ((u16, Seq<char>), nat),
                DecodeError,
            >(((code, text@), used@)) && final(reader).advanced_from(old(reader), used@ as int),
            Err(e) => spec_meta_entry(old(reader)@) == Err::<((u16, Seq<char>), nat), DecodeError>(
                e,
            ),
        },
{
    proof {
        reveal(spec_meta_entry);
    }
    let code = match reader.read_u16() {
        Ok(v) => v,
        Err(e) => {
            return Err(e);
        },
    };
    let text = match reader.read_net_string() {
        Ok(v) => v,
        Err(e) => {
            return Err(e);
        },
    };
    let ghost used = (old(reader)@.len() - reader@.len()) as nat;
    assert(reader@ =~= old(reader)@.skip(used as int));
    Ok((code, text, Ghost(used)))
}

/// Where the reading of a metadata section stands after `i` entries: what
/// the reader, the bytes kept for the digest and the metadata hold.
#[verifier::opaque]
spec fn meta_progress(
    reader: ByteReader,
    start: ByteReader,
    shadow: Seq<u8>,
    metadata: Metadata,
    i: int,
    entries: Seq<(u16, Seq<char>)>,
    used: nat,
) -> bool {
    &&& 0 <= i
    &&& entries.len() == i
    &&& 4 + used <= start@.len()
    &&& 3 * i <= used
    &&& spec_meta_entries(start@.skip(4), i) == Ok::<(Seq<(u16, Seq<char>)>, nat), DecodeError>(
        (entries, used),
    )
    &&& reader.advanced_from(&start, 4 + used as int)
    &&& shadow == start@.subrange(0, 4 + used as int)
    &&& metadata.wf()
    &&& metadata@ == meta_map(entries)
}

/// Reads the next metadata entry, files it, and keeps its bytes for the
/// digest.
fn read_next_meta(
    reader: &mut ByteReader,
    shadow: &mut Vec<u8>,
    metadata: &mut Metadata,
    Ghost(start): Ghost<ByteReader>,
    Ghost(i): Ghost<int>,
    Ghost(entries): Ghost<Seq<(u16, Seq<char>)>>,
    Ghost(used): Ghost<nat>,
) -> (r: Result<Ghost<(Seq<(u16, Seq<char>)>, nat)>, DecodeError>)
    requires
        meta_progress(*old(reader), start, old(shadow)@, *old(metadata), i, entries, used),
    ensures
        match r {
            Ok(next) => meta_progress(
                *final(reader),
                start,
                final(shadow)@,
                *final(metadata),
                i + 1,
                next@.0,
                next@.1,
            ),
            Err(e) => spec_meta_entries(start@.skip(4), i + 1) == Err::<
                (Seq<(u16, Seq<char>)>, nat),
                DecodeError,
            >(e),
        },
{
    proof {
        reveal(meta_progress);
    }
    let ghost body = start@.skip(4);
    assert(reader@ =~= body.skip(used as int));
    let mut mark = *reader;
    let (code, text, Ghost(more)) = match read_meta_entry(reader) {
        Ok(entry) => entry,
        Err(e) => {
            return Err(e);
        },
    };
    let taken = reader.stream_position() - mark.stream_position();
    let bytes = match mark.take(taken) {
        Ok(bytes) => bytes,
        Err(e) => {
            return Err(e);
        },
    };
    shadow.extend_from_slice(bytes);
    let ghost entry = (code, text@);
    metadata.insert(MapMetaType::from_code(code), text);
    proof {
        assert(entries.push(entry).drop_last() =~= entries);
        assert(reader@ =~= start@.skip(4 + (used + more) as int));
        assert(shadow@ =~= start@.subrange(0, 4 + (used + more) as int));
        lemma_meta_entries_len(body, i + 1);
    }
    Ok(Ghost((entries.push(entry), used + more)))
}

/// Reads the metadata section: the metadata and the checkpoint digest of
/// the bytes read, which the caller holds against the header.
pub fn read_metadata(reader: &mut ByteReader) -> (r: Result<(Metadata, [u8; 16]), DecodeError>)
    ensures
        match r {
            Ok((metadata, hash)) => metadata.wf() && (spec_read_metadata(old(reader)@) matches Ok(
                (map, digest, used),
            ) && metadata@ == map && hash@ == digest && final(reader).advanced_from(
                old(reader),
                used as int,
            )),
            Err(e) => spec_read_metadata(old(reader)@) == Err::<
                (Map<MapMetaType, Seq<char>>, Seq<u8>, nat),
                DecodeError,
            >(e) && (e == DecodeError::Truncated || e == DecodeError::InvalidUtf8),
        },
{
    let ghost start = *old(reader);
    let mut mark = *reader;
    let count = match reader.read_i32() {
        Ok(v) => v,
        Err(e) => {
            return Err(e);
        },
    };
    let count_bytes = match mark.take(4) {
        Ok(bytes) => bytes,
        Err(e) => {
            return Err(e);
        },
    };
    let mut shadow: Vec<u8> = Vec::new();
    shadow.extend_from_slice(count_bytes);
    let mut metadata = Metadata::new();
    let ghost mut entries: Seq<(u16, Seq<char>)> = Seq::empty();
    let ghost mut used: nat = 0;
    assert(shadow@ =~= start@.subrange(0, 4));
    assert(meta_progress(*reader, start, shadow@, metadata, 0, entries, used)) by {
        reveal(meta_progress);
    }
    let mut i: i32 = 0;
    while i < count
        invariant
            i == 0 || i <= count,
            count == le_i32(start@),
            start@.len() >= 4,
            start == *old(reader),
            meta_progress(*reader, start, shadow@, metadata, i as int, entries, used),
        decreases count - i,
    {
        match read_next_meta(
            reader,
            &mut shadow,
            &mut metadata,
            Ghost(start),
            Ghost(i as int),
            Ghost(entries),
            Ghost(used),
        ) {
            Ok(next) => {
                proof {
                    entries = next@.0;
                    used = next@.1;
                }
            },
            Err(e) => {
                proof {
                    lemma_meta_entries_error(start@.skip(4), i + 1, count as int);
                    lemma_meta_entries_kinds(start@.skip(4), i + 1);
                }
                return Err(e);
            },
        }
        i += 1;
    }
    proof {
        reveal(meta_progress);
        if count <= 0 {
            assert(entries =~= Seq::<(u16, Seq<char>)>::empty());
        }
    }
    let shadow_len = shadow.len();
    let pos = (i as usize) * 3;
    let hash = calc_osz2_hash(shadow.as_mut_slice(), pos, METADATA_SWAP);
    Ok((metadata, hash))
}

/// The only errors of a metadata section are an input that ends early and
/// a text that is not UTF-8.
pub proof fn lemma_metadata_errors(s: Seq<u8>)
    ensures
        spec_read_metadata(s) matches Err(e) ==> e == DecodeError::Truncated || e
            == DecodeError::InvalidUtf8,
{
    lemma_meta_entries_kinds(s.skip(4), le_i32(s));
}

proof fn lemma_meta_entries_kinds(s: Seq<u8>, count: int)
    ensures
        spec_meta_entries(s, count) matches Err(e) ==> e == DecodeError::Truncated || e
            == DecodeError::InvalidUtf8,
    decreases count,
{
    if count > 0 {
        lemma_meta_entries_kinds(s, count - 1);
        reveal(spec_meta_entry);
        reveal(spec_net_string);
    }
}

/// Whether every text of the entries can be written: none is longer than
/// a length prefix can say.
pub open spec fn texts_read_back(entries: Seq<(u16, Seq<char>)>) -> bool {
    forall|i: int|
        0 <= i < entries.len() ==> encode_utf8((#[trigger] entries[i]).1).len()
            <= MAX_ROUNDTRIP_LEN
}

/// Entries whose texts can be written are read from their written bytes
/// as they are, whatever follows.
proof fn lemma_meta_entries_roundtrip(entries: Seq<(u16, Seq<char>)>, rest: Seq<u8>)
    requires
        texts_read_back(entries),
    ensures
        spec_meta_entries(meta_entries_bytes(entries) + rest, entries.len() as int) == Ok::<
            (Seq<(u16, Seq<char>)>, nat),
            DecodeError,
        >((entries, meta_entries_bytes(entries).len())),
    decreases entries.len(),
{
    if entries.len() == 0 {
        assert(meta_entries_bytes(entries) =~= Seq::<u8>::empty());
        assert(entries =~= Seq::<(u16, Seq<char>)>::empty());
    } else {
        let before = entries.drop_last();
        let last = entries.last();
        let code = u16_le_bytes(last.0);
        let text = net_string_bytes(last.1);
        let written = meta_entries_bytes(before);
        let tail = code + text + rest;
        let whole = meta_entries_bytes(entries) + rest;
        assert forall|i: int| 0 <= i < before.len() implies encode_utf8(
            (#[trigger] before[i]).1,
        ).len() <= MAX_ROUNDTRIP_LEN by {
            assert(before[i] == entries[i]);
        }
        lemma_le_u16_of_bytes(last.0);
        assert(meta_entries_bytes(entries) == written + code + text);
        assert(whole =~= written + tail);
        lemma_meta_entries_roundtrip(before, tail);
        let at = whole.skip(written.len() as int);
        assert(at =~= tail);
        assert(spec_meta_entry(at) == Ok::<((u16, Seq<char>), nat), DecodeError>(
            (last, text.len() + 2),
        )) by {
            reveal(spec_meta_entry);
            assert(at[0] == code[0] && at[1] == code[1]);
            assert(le_u16(at) == le_u16(code));
            assert(at.skip(2) =~= text + rest);
            lemma_net_string_roundtrip(last.1, rest);
        }
        assert(before.push(last) =~= entries);
        assert(written.len() + (text.len() + 2) == meta_entries_bytes(entries).len());
    }
}

/// A metadata section as it is written: the count, then each code and
/// text. Where the count is the number of entries and every text can be
/// written, the section is read as it was written: the entries come back,
/// and the digest is the digest over the very bytes written, at three
/// times the count.
pub proof fn lemma_metadata_section_roundtrip(
    count: i32,
    entries: Seq<(u16, Seq<char>)>,
    rest: Seq<u8>,
)
    requires
        count == entries.len(),
        texts_read_back(entries),
    ensures
        spec_read_metadata(meta_shadow(count, entries) + rest) == Ok::<
            (Map<MapMetaType, Seq<char>>, Seq<u8>, nat),
            DecodeError,
        >(
            (
                meta_map(entries),
                checkpoint_hash(meta_shadow(count, entries), 3 * count, METADATA_SWAP),
                meta_shadow(count, entries).len(),
            ),
        ),
{
    let written = meta_shadow(count, entries);
    let section = written + rest;
    let head = i32_le_bytes(count);
    assert(le_i32(section) == count) by {
        lemma_le_i32_roundtrip(count, head);
        assert(section[0] == head[0] && section[1] == head[1] && section[2] == head[2]
            && section[3] == head[3]);
        assert(le_u32(section) == le_u32(head));
    }
    assert(head.len() == 4);
    assert(section.skip(4) =~= meta_entries_bytes(entries) + rest);
    lemma_meta_entries_roundtrip(entries, rest);
    assert(written.len() == meta_entries_bytes(entries).len() + 4);
    assert(section.subrange(0, written.len() as int) =~= written);
}

} // verus!
