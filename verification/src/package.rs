//! The container as a whole: the sections in their order.

use crate::assoc::{distinct_keys, pairs_map};
use crate::bytes::le_i32;
use crate::difficulty::{
    lemma_difficulty_entries_len, read_difficulty_data, spec_read_difficulty_data,
};
use crate::digest::{calc_osz2_hash, checkpoint_hash, digests_match};
use crate::error::{Checkpoint, DecodeError};
use crate::ext::ByteReader;
use crate::file_table::{
    first_offset, lemma_distinct_records_are_the_table, lemma_file_info_is_verified,
    lemma_files_reach_the_end, lemma_table_length_of_records, read_file_info, spec_read_file_info,
    table_length, total_length, FileRecords, FILE_INFO_SWAP,
};
use crate::header::{
    read_data_length, read_header, spec_read_data_length, spec_read_header, HeaderView, HEADER_LEN,
    LENGTH_FIELD_LEN,
};
use crate::key::{
    derive_key, known_plain, read_check_key, spec_check_key, spec_derive_key, xtea_plain,
    KNOWN_PLAIN_LEN,
};
use crate::metadata::{lemma_meta_entries_len, read_metadata, spec_read_metadata};
use crate::types::{
    files_view, BeatmapPackage, MapMetaType, Metadata, NameTable, PackageFile, PackageView,
};
use crate::xxtea::bytes_of;
use vstd::prelude::*;
use vstd::slice::slice_to_vec;

verus! {

/// The cipher key that the metadata give: it is derived from the creator
/// and the set identifier, and both must be there.
pub open spec fn spec_key_from_metadata(metadata: Map<MapMetaType, Seq<char>>) -> Result<
    Seq<u32>,
    DecodeError,
> {
    if !metadata.contains_key(MapMetaType::Creator) {
        Err(DecodeError::MissingMetadataField { field: MapMetaType::Creator })
    } else if !metadata.contains_key(MapMetaType::BeatmapSetId) {
        Err(DecodeError::MissingMetadataField { field: MapMetaType::BeatmapSetId })
    } else {
        Ok(spec_derive_key(metadata[MapMetaType::Creator], metadata[MapMetaType::BeatmapSetId]))
    }
}

/// Derives the cipher key from the metadata.
pub fn key_from_metadata(metadata: &Metadata) -> (r: Result<[u32; 4], DecodeError>)
    requires
        metadata.wf(),
    ensures
        match r {
            Ok(key) => spec_key_from_metadata(metadata@) == Ok::<Seq<u32>, DecodeError>(key@),
            Err(e) => spec_key_from_metadata(metadata@) == Err::<Seq<u32>, DecodeError>(e),
        },
{
    let creator = match metadata.get(MapMetaType::Creator) {
        Some(text) => text,
        None => {
            return Err(DecodeError::MissingMetadataField { field: MapMetaType::Creator });
        },
    };
    let beatmapset_id = match metadata.get(MapMetaType::BeatmapSetId) {
        Some(text) => text,
        None => {
            return Err(DecodeError::MissingMetadataField { field: MapMetaType::BeatmapSetId });
        },
    };
    Ok(derive_key(creator.as_str(), beatmapset_id.as_str()))
}

/// How long the data section is in a package of `reader_len` bytes whose
/// data section begins at `data_offset`; nothing where the package is too
/// short to reach that offset.
pub open spec fn data_section_len(reader_len: u32, data_offset: int) -> Option<u32> {
    if data_offset <= reader_len {
        Some((reader_len - data_offset) as u32)
    } else {
        None
    }
}

/// What follows the difficulty table, read from `s`, which stands at
/// position `at` of a package of `reader_len` bytes: the key check, the
/// length of the file-info block, and the block with the file table.
pub open spec fn spec_read_files(
    s: Seq<u8>,
    at: int,
    reader_len: u32,
    hash_info: Seq<u8>,
    key: Seq<u32>,
) -> Result<FileRecords, DecodeError> {
    let length_at = KNOWN_PLAIN_LEN as int;
    let block_at = length_at + LENGTH_FIELD_LEN;
    match spec_check_key(s, key) {
        Err(e) => Err(e),
        Ok(checked) => match spec_read_data_length(s.skip(length_at), hash_info) {
            Err(e) => Err(e),
            Ok(length) => {
                if s.len() < block_at + length {
                    Err(DecodeError::Truncated)
                } else {
                    spec_read_file_info(
                        s.subrange(block_at, block_at + length),
                        key,
                        hash_info,
                        data_section_len(reader_len, at + block_at + length),
                    )
                }
            },
        },
    }
}

/// Checks the key, then reads and verifies the file-info block.
pub fn read_files(reader: &mut ByteReader, reader_len: u32, hash_info: &[u8; 16], key: &[u32; 4])
    -> (r: Result<NameTable<PackageFile>, DecodeError>)
    ensures
        match r {
            Ok(files) => files.wf() && (spec_read_files(
                old(reader)@,
                old(reader).spec_position() as int,
                reader_len,
                hash_info@,
                key@,
            ) matches Ok(records) && files_view(files@) == pairs_map(records)),
            Err(e) => spec_read_files(
                old(reader)@,
                old(reader).spec_position() as int,
                reader_len,
                hash_info@,
                key@,
            ) == Err::<FileRecords, DecodeError>(e),
        },
        r is Ok ==> (spec_read_data_length(
            old(reader)@.skip(KNOWN_PLAIN_LEN as int),
            hash_info@,
        ) matches Ok(length) && final(reader).advanced_from(
            old(reader),
            KNOWN_PLAIN_LEN + LENGTH_FIELD_LEN + length,
        )),
        r == Err::<NameTable<PackageFile>, DecodeError>(DecodeError::KeyMismatch) ==> final(reader).advanced_from(old(reader), KNOWN_PLAIN_LEN as int),
{
    let ghost start = *old(reader);
    let ghost s = start@;
    match read_check_key(reader, key) {
        Ok(checked) => {},
        Err(e) => {
            return Err(e);
        },
    }
    let ghost at_length = *reader;
    let data_length = match read_data_length(reader, hash_info) {
        Ok(v) => v,
        Err(e) => {
            return Err(e);
        },
    };
    let ghost at_block = *reader;
    proof {
        at_block.lemma_advanced_on(
            &start,
            &at_length,
            KNOWN_PLAIN_LEN as int,
            LENGTH_FIELD_LEN as int,
        );
    }
    let block = match reader.take(data_length) {
        Ok(v) => v,
        Err(e) => {
            return Err(e);
        },
    };
    proof {
        reader.lemma_advanced_on(
            &start,
            &at_block,
            KNOWN_PLAIN_LEN + LENGTH_FIELD_LEN,
            data_length as int,
        );
        assert(block@ =~= s.subrange(
            KNOWN_PLAIN_LEN + LENGTH_FIELD_LEN,
            KNOWN_PLAIN_LEN + LENGTH_FIELD_LEN + data_length,
        ));
    }
    let data_offset = reader.stream_position();
    let end = if data_offset <= reader_len as usize {
        Some(reader_len - data_offset as u32)
    } else {
        None
    };
    read_file_info(block, key, hash_info, end)
}

/// What follows the header, read from `s`, which stands at position `at`
/// of a package of `reader_len` bytes. In the file table a later record of
/// a name stands in place of an earlier.
pub open spec fn spec_read_sections(s: Seq<u8>, at: int, reader_len: u32, header: HeaderView)
    -> Result<PackageView, DecodeError> {
    match spec_read_metadata(s) {
        Err(e) => Err(e),
        Ok((metadata, metadata_hash, meta_used)) => {
            if metadata_hash != header.hash_meta {
                Err(DecodeError::DigestMismatch { which: Checkpoint::Metadata })
            } else {
                match spec_read_difficulty_data(s.skip(meta_used as int)) {
                    Err(e) => Err(e),
                    Ok((difficulties, diff_used)) => match spec_key_from_metadata(metadata) {
                        Err(e) => Err(e),
                        Ok(key) => match spec_read_files(
                            s.skip((meta_used + diff_used) as int),
                            at + meta_used + diff_used,
                            reader_len,
                            header.hash_info,
                            key,
                        ) {
                            Err(e) => Err(e),
                            Ok(records) => Ok(
                                PackageView {
                                    metadata,
                                    metadata_hash,
                                    difficulties,
                                    files: pairs_map(records),
                                },
                            ),
                        },
                    },
                }
            }
        },
    }
}

/// Where the known block stands in `s`: after the header, the metadata
/// and the difficulty table, where all three are read well.
pub open spec fn spec_known_block_at(s: Seq<u8>) -> Option<nat> {
    match spec_read_header(s) {
        Err(e) => None,
        Ok(header) => match spec_read_metadata(s.skip(HEADER_LEN as int)) {
            Err(e) => None,
            Ok((metadata, metadata_hash, meta_used)) => match spec_read_difficulty_data(
                s.skip(HEADER_LEN as int).skip(meta_used as int),
            ) {
                Err(e) => None,
                Ok((difficulties, diff_used)) => Some(HEADER_LEN as nat + meta_used + diff_used),
            },
        },
    }
}

/// Where the data section begins in `s`: after the known block, the length
/// field and the file-info block, where all that stands before is read
/// well.
pub open spec fn spec_data_offset(s: Seq<u8>) -> Option<nat> {
    match (spec_read_header(s), spec_known_block_at(s)) {
        (Ok(header), Some(at)) => match spec_read_data_length(
            s.skip(at as int).skip(KNOWN_PLAIN_LEN as int),
            header.hash_info,
        ) {
            Ok(length) => Some(at + KNOWN_PLAIN_LEN as nat + LENGTH_FIELD_LEN as nat + length),
            Err(e) => None,
        },
        _ => None,
    }
}

/// The package that the bytes `s` hold, where `s` begins at position
/// `start` of a package of `reader_len` bytes in all; or the first thing
/// that is wrong with them.
///
/// The sections are read in order: the header; the metadata, held against
/// the metadata checkpoint; the difficulty table; the key, derived from the
/// metadata and checked against the known block; the file-info block, held
/// against the info checkpoint and deciphered. The body checkpoint is not
/// verified.
pub open spec fn spec_parse(s: Seq<u8>, start: int, reader_len: u32) -> Result<
    PackageView,
    DecodeError,
> {
    match spec_read_header(s) {
        Err(e) => Err(e),
        Ok(header) => spec_read_sections(
            s.skip(HEADER_LEN as int),
            start + HEADER_LEN,
            reader_len,
            header,
        ),
    }
}

/// Decodes a package from `reader`, which stands at the beginning of a
/// package of `reader_len` bytes in all. The data section itself is not
/// read: the reader need not hold more than what stands before it.
///
/// Either the whole package is returned, every checkpoint but the body's
/// verified, or the first error; never a part of a package. After a
/// package the reader stands at the data section. After a key that does
/// not fit it stands behind the known block: nothing after it was read.
pub fn parse(reader: &mut ByteReader, reader_len: u32) -> (r: Result<BeatmapPackage, DecodeError>)
    ensures
        match r {
            Ok(package) => package.wf() && spec_parse(
                old(reader)@,
                old(reader).spec_position() as int,
                reader_len,
            ) == Ok::<PackageView, DecodeError>(package@),
            Err(e) => spec_parse(
                old(reader)@,
                old(reader).spec_position() as int,
                reader_len,
            ) == Err::<PackageView, DecodeError>(e),
        },
        r is Ok ==> (spec_data_offset(old(reader)@) matches Some(offset) && final(reader).advanced_from(old(reader), offset as int)),
        r matches Err(e) && e == DecodeError::KeyMismatch ==> (spec_known_block_at(
            old(reader)@,
        ) matches Some(at) && final(reader).advanced_from(old(reader), at + KNOWN_PLAIN_LEN)),
{
    let ghost start = *old(reader);
    let ghost s = start@;
    let header = match read_header(reader) {
        Ok(v) => v,
        Err(e) => {
            return Err(e);
        },
    };
    let ghost at_metadata = *reader;
    let (metadata, meta_hash) = match read_metadata(reader) {
        Ok(v) => v,
        Err(e) => {
            return Err(e);
        },
    };
    if !digests_match(&meta_hash, &header.hash_meta) {
        return Err(DecodeError::DigestMismatch { which: Checkpoint::Metadata });
    }
    let ghost at_difficulties = *reader;
    let ghost meta_used = spec_read_metadata(at_metadata@)->Ok_0.2;
    proof {
        at_difficulties.lemma_advanced_on(
            &start,
            &at_metadata,
            HEADER_LEN as int,
            meta_used as int,
        );
    }
    let difficulties = match read_difficulty_data(reader) {
        Ok(v) => v,
        Err(e) => {
            return Err(e);
        },
    };
    let ghost at_key = *reader;
    let ghost diff_used = spec_read_difficulty_data(at_difficulties@)->Ok_0.1;
    proof {
        at_key.lemma_advanced_on(
            &start,
            &at_difficulties,
            HEADER_LEN + meta_used,
            diff_used as int,
        );
        assert(at_key@ == s.skip(HEADER_LEN as int).skip(meta_used as int).skip(
            diff_used as int,
        ));
        assert(s.skip(HEADER_LEN as int).skip(meta_used as int).skip(diff_used as int) =~= s.skip(
            HEADER_LEN as int,
        ).skip((meta_used + diff_used) as int));
    }
    let key = match key_from_metadata(&metadata) {
        Ok(v) => v,
        Err(e) => {
            return Err(e);
        },
    };
    let files = match read_files(reader, reader_len, &header.hash_info, &key) {
        Ok(v) => v,
        Err(e) => {
            proof {
                if e == DecodeError::KeyMismatch {
                    reader.lemma_advanced_on(
                        &start,
                        &at_key,
                        HEADER_LEN + meta_used + diff_used,
                        KNOWN_PLAIN_LEN as int,
                    );
                }
            }
            return Err(e);
        },
    };
    proof {
        let length = spec_read_data_length(
            at_key@.skip(KNOWN_PLAIN_LEN as int),
            header.hash_info@,
        )->Ok_0;
        reader.lemma_advanced_on(
            &start,
            &at_key,
            HEADER_LEN + meta_used + diff_used,
            KNOWN_PLAIN_LEN + LENGTH_FIELD_LEN + length,
        );
    }
    Ok(BeatmapPackage { metadata, metadata_hash: meta_hash, difficulties, files })
}

/// A package whose metadata section reads well but gives another digest
/// than the header holds is refused at the metadata checkpoint, whatever
/// stands after the section.
pub proof fn lemma_metadata_mismatch_is_fatal(s: Seq<u8>, start: int, reader_len: u32)
    requires
        spec_read_header(s) matches Ok(header) && (spec_read_metadata(
            s.skip(HEADER_LEN as int),
        ) matches Ok((metadata, digest, used)) && digest != header.hash_meta),
    ensures
        spec_parse(s, start, reader_len) == Err::<PackageView, DecodeError>(
            DecodeError::DigestMismatch { which: Checkpoint::Metadata },
        ),
{
}

/// A package is decoded only if its metadata section gives the digest that
/// the header holds, and then the package carries that digest.
pub proof fn lemma_decoded_metadata_is_verified(s: Seq<u8>, start: int, reader_len: u32)
    requires
        spec_parse(s, start, reader_len) is Ok,
    ensures
        spec_read_header(s) matches Ok(header) && (spec_read_metadata(
            s.skip(HEADER_LEN as int),
        ) matches Ok((metadata, digest, used)) && digest == header.hash_meta && spec_parse(
            s,
            start,
            reader_len,
        )->Ok_0.metadata_hash == digest && spec_parse(s, start, reader_len)->Ok_0.metadata
            == metadata),
{
}

/// A package whose metadata give a key that does not decipher the stored
/// block to the known block is refused at the key check, whatever stands
/// after the block: the file table is not looked at.
pub proof fn lemma_wrong_key_is_fatal(s: Seq<u8>, start: int, reader_len: u32)
    requires
        spec_read_header(s) matches Ok(header) && (spec_read_metadata(
            s.skip(HEADER_LEN as int),
        ) matches Ok((metadata, digest, meta_used)) && digest == header.hash_meta && (
        spec_read_difficulty_data(s.skip(HEADER_LEN + meta_used)) matches Ok(
            (difficulties, diff_used),
        ) && (spec_key_from_metadata(metadata) matches Ok(key) && s.len() >= HEADER_LEN + meta_used
            + diff_used + KNOWN_PLAIN_LEN && xtea_plain(
            bytes_of(key),
            s.subrange(
                HEADER_LEN + meta_used + diff_used,
                HEADER_LEN + meta_used + diff_used + KNOWN_PLAIN_LEN,
            ),
        ) != known_plain()))),
    ensures
        spec_parse(s, start, reader_len) == Err::<PackageView, DecodeError>(
            DecodeError::KeyMismatch,
        ),
{
    let header = spec_read_header(s)->Ok_0;
    let body = s.skip(HEADER_LEN as int);
    let (metadata, digest, meta_used) = spec_read_metadata(body)->Ok_0;
    assert(body.skip(meta_used as int) =~= s.skip(HEADER_LEN + meta_used));
    let (difficulties, diff_used) = spec_read_difficulty_data(body.skip(meta_used as int))->Ok_0;
    let rest = body.skip((meta_used + diff_used) as int);
    assert(rest.subrange(0, KNOWN_PLAIN_LEN as int) =~= s.subrange(
        HEADER_LEN + meta_used + diff_used,
        HEADER_LEN + meta_used + diff_used + KNOWN_PLAIN_LEN,
    ));
}

/// The checkpoint digest of the body: of the bytes from where `reader`
/// stands to the end of a package of `data_len` bytes, for the position
/// `pos` in them and the byte `swap`. The body is read whole.
///
/// The decoder does not call this: for which position and byte the header's
/// body digest was taken is not known. Metadata that point to video data
/// mark a body of another layout, which is left out.
pub fn body_hash(reader: &mut ByteReader, metadata: &Metadata, data_len: u64, pos: u64, swap: u8)
    -> (r: Result<[u8; 16], DecodeError>)
    requires
        metadata.wf(),
        !metadata@.contains_key(MapMetaType::VideoDataOffset),
        old(reader).spec_position() + pos < data_len,
    ensures
        match r {
            Ok(hash) => data_len - old(reader).spec_position() <= old(reader)@.len() && hash@
                == checkpoint_hash(
                old(reader)@.subrange(0, data_len - old(reader).spec_position()),
                pos as int,
                swap,
            ) && final(reader).advanced_from(
                old(reader),
                data_len - old(reader).spec_position(),
            ),
            Err(e) => e == DecodeError::Truncated && old(reader)@.len() < data_len - old(
                reader,
            ).spec_position(),
        },
{
    let stream_pos = reader.stream_position();
    let remaining_bytes = data_len - stream_pos as u64;
    if (reader.remaining_len() as u64) < remaining_bytes {
        return Err(DecodeError::Truncated);
    }
    let body = match reader.take(remaining_bytes as usize) {
        Ok(v) => v,
        Err(e) => {
            return Err(e);
        },
    };
    let mut data = slice_to_vec(body);
    Ok(calc_osz2_hash(data.as_mut_slice(), pos as usize, swap))
}

/// The records of the file table of a package that decodes, in the order
/// of the table, with the offset of the first file.
pub open spec fn spec_decoded_records(s: Seq<u8>, start: int, reader_len: u32) -> Option<
    (FileRecords, int),
> {
    match (
        spec_read_header(s),
        spec_read_metadata(s.skip(HEADER_LEN as int)),
        spec_known_block_at(s),
        spec_data_offset(s),
    ) {
        (Ok(header), Ok((metadata, metadata_hash, meta_used)), Some(at), Some(offset)) => {
            match spec_key_from_metadata(metadata) {
                Ok(key) => {
                    let block = s.subrange(
                        at + KNOWN_PLAIN_LEN + LENGTH_FIELD_LEN,
                        offset as int,
                    );
                    match spec_read_file_info(
                        block,
                        key,
                        header.hash_info,
                        data_section_len(reader_len, start + offset),
                    ) {
                        Ok(records) => Some((records, first_offset(block, key))),
                        Err(e) => None,
                    }
                },
                Err(e) => None,
            }
        },
        _ => None,
    }
}

/// Where the header, the metadata and the difficulty table are read well,
/// they stand within the input, and the known block follows them.
proof fn lemma_sections_within(s: Seq<u8>)
    requires
        spec_known_block_at(s) is Some,
    ensures
        spec_known_block_at(s) matches Some(at) && at <= s.len() && (spec_read_metadata(
            s.skip(HEADER_LEN as int),
        ) matches Ok((metadata, digest, meta_used)) && (spec_read_difficulty_data(
            s.skip(HEADER_LEN as int).skip(meta_used as int),
        ) matches Ok((difficulties, diff_used)) && at == HEADER_LEN + meta_used + diff_used
            && s.skip(HEADER_LEN as int).skip((meta_used + diff_used) as int) == s.skip(
            at as int,
        ))),
{
    let body = s.skip(HEADER_LEN as int);
    lemma_meta_entries_len(body.skip(4), le_i32(body));
    let meta_used = spec_read_metadata(body)->Ok_0.2;
    let table = body.skip(meta_used as int);
    lemma_difficulty_entries_len(table.skip(4), le_i32(table));
    let diff_used = spec_read_difficulty_data(table)->Ok_0.1;
    assert(body.skip((meta_used + diff_used) as int) =~= s.skip(
        HEADER_LEN + meta_used + diff_used,
    ));
}

/// A package that decodes has read its files behind the difficulty table,
/// with the key that its metadata give.
proof fn lemma_decoded_read_files(s: Seq<u8>, start: int, reader_len: u32)
    requires
        spec_parse(s, start, reader_len) is Ok,
    ensures
        spec_read_header(s) matches Ok(header) && (spec_known_block_at(s) matches Some(at) && (
        spec_read_metadata(s.skip(HEADER_LEN as int)) matches Ok((metadata, digest, meta_used)) && (
        spec_key_from_metadata(metadata) matches Ok(key) && (spec_read_files(
            s.skip(at as int),
            start + at,
            reader_len,
            header.hash_info,
            key,
        ) matches Ok(records) && spec_parse(s, start, reader_len)->Ok_0.files == pairs_map(
            records,
        ))))),
{
    lemma_sections_within(s);
}

/// Files that are read well are the records of the block that stands
/// behind the known block and the length field.
proof fn lemma_read_files_block(
    s: Seq<u8>,
    at: int,
    reader_len: u32,
    hash_info: Seq<u8>,
    key: Seq<u32>,
)
    requires
        spec_read_files(s, at, reader_len, hash_info, key) is Ok,
    ensures
        spec_read_data_length(s.skip(KNOWN_PLAIN_LEN as int), hash_info) matches Ok(length)
            && KNOWN_PLAIN_LEN + LENGTH_FIELD_LEN + length <= s.len() && spec_read_files(
            s,
            at,
            reader_len,
            hash_info,
            key,
        ) == spec_read_file_info(
            s.subrange(
                KNOWN_PLAIN_LEN + LENGTH_FIELD_LEN,
                KNOWN_PLAIN_LEN + LENGTH_FIELD_LEN + length,
            ),
            key,
            hash_info,
            data_section_len(reader_len, at + KNOWN_PLAIN_LEN + LENGTH_FIELD_LEN + length),
        ),
{
}

/// What stands between two places behind a place of `s` stands between
/// the same places of `s`, counted from its beginning.
proof fn lemma_subrange_of_skip(s: Seq<u8>, at: int, from: int, to: int)
    requires
        0 <= at <= s.len(),
        0 <= from <= to <= s.len() - at,
    ensures
        s.skip(at).subrange(from, to) == s.subrange(at + from, at + to),
{
    assert(s.skip(at).subrange(from, to) =~= s.subrange(at + from, at + to));
}

/// In a package that decodes, the file table is what the records of its
/// file-info block give, a later record of a name in place of an earlier.
pub proof fn lemma_decoded_files(s: Seq<u8>, start: int, reader_len: u32)
    requires
        spec_parse(s, start, reader_len) is Ok,
    ensures
        spec_decoded_records(s, start, reader_len) matches Some((records, first)) && spec_parse(
            s,
            start,
            reader_len,
        )->Ok_0.files == pairs_map(records),
{
    lemma_decoded_read_files(s, start, reader_len);
    lemma_sections_within(s);
    let header = spec_read_header(s)->Ok_0;
    let at = spec_known_block_at(s)->Some_0;
    let key = spec_key_from_metadata(spec_read_metadata(s.skip(HEADER_LEN as int))->Ok_0.0)->Ok_0;
    let rest = s.skip(at as int);
    lemma_read_files_block(rest, start + at, reader_len, header.hash_info, key);
    let length = spec_read_data_length(rest.skip(KNOWN_PLAIN_LEN as int), header.hash_info)->Ok_0;
    lemma_subrange_of_skip(
        s,
        at as int,
        KNOWN_PLAIN_LEN + LENGTH_FIELD_LEN,
        KNOWN_PLAIN_LEN + LENGTH_FIELD_LEN + length,
    );
}

/// Where a file-info block that holds a record is read in a package of
/// `reader_len` bytes whose data section begins at `begin`, the offset of
/// the first file and the lengths of the records add up to what is left of
/// the package from `begin`.
proof fn lemma_files_fill_from(
    block: Seq<u8>,
    key: Seq<u32>,
    hash_info: Seq<u8>,
    reader_len: u32,
    begin: int,
)
    requires
        spec_read_file_info(block, key, hash_info, data_section_len(reader_len, begin)) is Ok,
        spec_read_file_info(block, key, hash_info, data_section_len(reader_len, begin))->Ok_0.len()
            > 0,
        0 <= begin,
    ensures
        first_offset(block, key) + total_length(
            spec_read_file_info(block, key, hash_info, data_section_len(reader_len, begin))->Ok_0,
        ) == reader_len - begin,
{
    lemma_files_reach_the_end(block, key, hash_info, data_section_len(reader_len, begin));
}

/// Where the file-info block of a package holds a record, the files lie
/// end to end in the data section and reach its end: the offset of the
/// first file and the lengths of the records add up to the length of the
/// data section, which is the length of the package less the position at
/// which the data section begins.
pub proof fn lemma_decoded_files_reach_the_end(s: Seq<u8>, start: int, reader_len: u32)
    requires
        0 <= start,
        spec_decoded_records(s, start, reader_len) matches Some((records, first)) && records.len()
            > 0,
    ensures
        spec_decoded_records(s, start, reader_len) matches Some((records, first)) && (
        spec_data_offset(s) matches Some(offset) && first + total_length(records) == reader_len - (
        start + offset)),
{
    let header = spec_read_header(s)->Ok_0;
    let at = spec_known_block_at(s)->Some_0;
    let offset = spec_data_offset(s)->Some_0;
    let key = spec_key_from_metadata(spec_read_metadata(s.skip(HEADER_LEN as int))->Ok_0.0)->Ok_0;
    let block = s.subrange(at + KNOWN_PLAIN_LEN + LENGTH_FIELD_LEN, offset as int);
    lemma_files_fill_from(block, key, header.hash_info, reader_len, start + offset);
}

/// Where no name stands twice in the file table of a package that decodes,
/// the returned table has one file for each record, under the record's
/// name, with its length and its digest as they are stored; and where it
/// has a file at all, the offset of the first file and the lengths of the
/// files of the table add up to the length of the data section.
pub proof fn lemma_decoded_table_fills_the_data_section(s: Seq<u8>, start: int, reader_len: u32)
    requires
        0 <= start,
        spec_parse(s, start, reader_len) is Ok,
        spec_decoded_records(s, start, reader_len) matches Some((records, first)) && distinct_keys(
            records,
        ),
    ensures
        spec_decoded_records(s, start, reader_len) matches Some((records, first)) && ({
            let files = spec_parse(s, start, reader_len)->Ok_0.files;
            &&& files.dom().finite()
            &&& files.len() == records.len()
            &&& forall|i: int|
                0 <= i < records.len() ==> files.contains_key((#[trigger] records[i]).0)
                    && files[records[i].0] == records[i].1
            &&& records.len() > 0 ==> (spec_data_offset(s) matches Some(offset) && first
                + table_length(files) == reader_len - (start + offset))
        }),
{
    lemma_decoded_files(s, start, reader_len);
    let records = spec_decoded_records(s, start, reader_len)->Some_0.0;
    lemma_distinct_records_are_the_table(records);
    lemma_table_length_of_records(records);
    if records.len() > 0 {
        lemma_decoded_files_reach_the_end(s, start, reader_len);
    }
}

/// The file-info block of a package that decodes meets the info
/// checkpoint of the header, at four times the number of its records.
pub proof fn lemma_decoded_file_info_is_verified(s: Seq<u8>, start: int, reader_len: u32)
    requires
        spec_decoded_records(s, start, reader_len) is Some,
    ensures
        spec_decoded_records(s, start, reader_len) matches Some((records, first)) && (
        spec_read_header(s) matches Ok(header) && (spec_known_block_at(s) matches Some(at) && (
        spec_data_offset(s) matches Some(offset) && checkpoint_hash(
            s.subrange(at + KNOWN_PLAIN_LEN + LENGTH_FIELD_LEN, offset as int),
            4 * records.len() as int,
            FILE_INFO_SWAP,
        ) == header.hash_info))),
{
    let header = spec_read_header(s)->Ok_0;
    let at = spec_known_block_at(s)->Some_0;
    let offset = spec_data_offset(s)->Some_0;
    let key = spec_key_from_metadata(spec_read_metadata(s.skip(HEADER_LEN as int))->Ok_0.0)->Ok_0;
    let block = s.subrange(at + KNOWN_PLAIN_LEN + LENGTH_FIELD_LEN, offset as int);
    lemma_file_info_is_verified(
        block,
        key,
        header.hash_info,
        data_section_len(reader_len, start + offset),
    );
}

} // verus!
