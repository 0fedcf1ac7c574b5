//! The file-info block: its checkpoint, and the file table that it holds
//! in cipher text.

use crate::assoc::{
    distinct_keys, has_key, lemma_pairs_map_distinct, lemma_pairs_map_keys, lemma_pairs_map_push,
    pairs_map,
};
use crate::bytes::{le_i32, le_u32, read_i32_le};
use crate::decryptor_stream::DecryptorStream;
use crate::digest::{calc_osz2_hash, checkpoint_hash, digests_match};
use crate::error::{Checkpoint, DecodeError};
use crate::ext::{spec_net_string, ByteReader, ReadExt};
use crate::types::{files_view, NameTable, PackageFile, PackageFileView};
use crate::xxtea::decrypt_spec;
use vstd::prelude::*;
use vstd::slice::{slice_subrange, slice_to_vec};

verus! {

/// The byte that is mixed in for the file-info checkpoint.
pub const FILE_INFO_SWAP: u8 = 0xd1;

/// The part of a file record that stands before the offset that follows
/// it: the name, the 16-byte content digest, and two 8-byte time stamps that
/// are passed over. With it the number of bytes that the part takes.
#[verifier::opaque]
pub open spec fn spec_file_record(s: Seq<u8>) -> Result<((Seq<char>, Seq<u8>), nat), DecodeError> {
    match spec_net_string(s) {
        Err(e) => Err(e),
        Ok((name, used)) => {
            if s.len() < used + 32 {
                Err(DecodeError::Truncated)
            } else {
                Ok(((name, s.subrange(used as int, used as int + 16)), used + 32))
            }
        },
    }
}

/// Where the file after a record begins, and how many bytes say so: while
/// records follow, the four bytes after the record; after the last record,
/// the end of the data section, which takes no bytes and must be known.
pub open spec fn spec_next_offset(s: Seq<u8>, records_follow: bool, end: Option<u32>) -> Result<
    (u32, nat),
    DecodeError,
> {
    if records_follow {
        if s.len() < 4 {
            Err(DecodeError::Truncated)
        } else {
            Ok((le_u32(s) as u32, 4))
        }
    } else {
        match end {
            Some(offset) => Ok((offset, 0)),
            None => Err(DecodeError::Truncated),
        }
    }
}

/// A run of file records as plain values: names with their files, in the
/// order of the table.
pub type FileRecords = Seq<(Seq<char>, PackageFileView)>;

/// The file table after the first `done` of its `count` records: the
/// records so far, the number of bytes read, and the offset at which the
/// next file begins. The table opens with the offset of the first file.
/// Each file reaches to where the next begins, which may not be before its
/// own beginning.
pub open spec fn spec_file_table(s: Seq<u8>, count: int, end: Option<u32>, done: int) -> Result<
    (FileRecords, nat, u32),
    DecodeError,
>
    decreases done,
{
    if done <= 0 {
        if s.len() < 4 {
            Err(DecodeError::Truncated)
        } else {
            Ok((Seq::empty(), 4, le_u32(s) as u32))
        }
    } else {
        match spec_file_table(s, count, end, done - 1) {
            Err(e) => Err(e),
            Ok((records, used, current)) => match spec_file_record(s.skip(used as int)) {
                Err(e) => Err(e),
                Ok(((name, hash), more)) => match spec_next_offset(
                    s.skip((used + more) as int),
                    done < count,
                    end,
                ) {
                    Err(e) => Err(e),
                    Ok((next, extra)) => {
                        if next < current {
                            Err(DecodeError::Truncated)
                        } else {
                            Ok(
                                (
                                    records.push(
                                        (
                                            name,
                                            PackageFileView {
                                                length: (next - current) as u32,
                                                hash,
                                            },
                                        ),
                                    ),
                                    used + more + extra,
                                    next,
                                ),
                            )
                        }
                    },
                },
            },
        }
    }
}

/// The lengths of the files of a run of records, added up.
pub open spec fn total_length(records: FileRecords) -> int
    decreases records.len(),
{
    if records.len() == 0 {
        0
    } else {
        total_length(records.drop_last()) + records.last().1.length
    }
}

/// The files of a table lie end to end: after any number of records, the
/// lengths so far add up to the way from the first offset to the offset at
/// which the next file begins; after the last record that is the end of
/// the data section.
pub proof fn lemma_file_lengths_add_up(s: Seq<u8>, count: int, end: Option<u32>, done: int)
    requires
        0 <= done,
        spec_file_table(s, count, end, done) is Ok,
    ensures
        spec_file_table(s, count, end, done) matches Ok((records, used, current)) && records.len()
            == done && total_length(records) == current - le_u32(s) && (done >= count && done > 0
            ==> end == Some(current)),
    decreases done,
{
    if done > 0 {
        lemma_file_lengths_add_up(s, count, end, done - 1);
        let (records, used, current) = spec_file_table(s, count, end, done)->Ok_0;
        let (before, before_used, before_offset) = spec_file_table(s, count, end, done - 1)->Ok_0;
        assert(records.drop_last() =~= before);
    }
}

/// Once a record fails, every longer run of records fails in the same way.
proof fn lemma_file_table_error(s: Seq<u8>, count: int, end: Option<u32>, k: int, done: int)
    requires
        k <= done,
        spec_file_table(s, count, end, k) is Err,
    ensures
        spec_file_table(s, count, end, done) == spec_file_table(s, count, end, k),
    decreases done - k,
{
    if k < done {
        lemma_file_table_error(s, count, end, k, done - 1);
    }
}

/// Reads the part of a file record that stands before the offset that
/// follows it.
fn read_file_record(reader: &mut ByteReader) -> (r: Result<
    (String, [u8; 16], Ghost<nat>),
    DecodeError,
>)
    ensures
        match r {
            Ok((name, hash, used)) => spec_file_record(old(reader)@) == Ok::<
                ((Seq<char>, Seq<u8>), nat),
                DecodeError,
            >(((name@, hash@), used@)) && final(reader).advanced_from(old(reader), used@ as int),
            Err(e) => spec_file_record(old(reader)@) == Err::<
                ((Seq<char>, Seq<u8>), nat),
                DecodeError,
            >(e),
        },
{
    proof {
        reveal(spec_file_record);
    }
    let name = match reader.read_net_string() {
        Ok(v) => v,
        Err(e) => {
            return Err(e);
        },
    };
    let ghost name_used = (old(reader)@.len() - reader@.len()) as nat;
    assert(reader@ =~= old(reader)@.skip(name_used as int));
    if reader.remaining_len() < 32 {
        return Err(DecodeError::Truncated);
    }
    let file_hash: [u8; 16] = match reader.read_n() {
        Ok(v) => v,
        Err(e) => {
            return Err(e);
        },
    };
    assert(file_hash@ =~= old(reader)@.subrange(name_used as int, name_used as int + 16));
    let _file_date_created = match reader.read_u64() {
        Ok(v) => v,
        Err(e) => {
            return Err(e);
        },
    };
    let _file_date_modified = match reader.read_u64() {
        Ok(v) => v,
        Err(e) => {
            return Err(e);
        },
    };
    assert(reader@ =~= old(reader)@.skip(name_used as int + 32));
    Ok((name, file_hash, Ghost((name_used + 32) as nat)))
}

/// Reads where the file after a record begins.
fn read_next_offset(reader: &mut ByteReader, records_follow: bool, end: Option<u32>) -> (r: Result<
    (u32, Ghost<nat>),
    DecodeError,
>)
    ensures
        match r {
            Ok((next, used)) => spec_next_offset(old(reader)@, records_follow, end) == Ok::<
                (u32, nat),
                DecodeError,
            >((next, used@)) && final(reader).advanced_from(old(reader), used@ as int),
            Err(e) => spec_next_offset(old(reader)@, records_follow, end) == Err::<
                (u32, nat),
                DecodeError,
            >(e),
        },
{
    if records_follow {
        match reader.read_u32() {
            Ok(v) => Ok((v, Ghost(4))),
            Err(e) => Err(e),
        }
    } else {
        match end {
            Some(offset) => {
                assert(reader@ =~= old(reader)@.skip(0));
                Ok((offset, Ghost(0)))
            },
            None => Err(DecodeError::Truncated),
        }
    }
}

/// Where the reading of a file table stands after `done` records.
#[verifier::opaque]
spec fn table_progress(
    reader: ByteReader,
    start: ByteReader,
    files: Map<Seq<char>, PackageFile>,
    count: int,
    end: Option<u32>,
    done: int,
    records: FileRecords,
    used: nat,
    current: u32,
) -> bool {
    &&& 0 <= done
    &&& used <= start@.len()
    &&& spec_file_table(start@, count, end, done) == Ok::<(FileRecords, nat, u32), DecodeError>(
        (records, used, current),
    )
    &&& files_view(files) == pairs_map(records)
    &&& reader.advanced_from(&start, used as int)
}

/// Reads the next file record and files it.
fn read_next_file(
    reader: &mut ByteReader,
    files: &mut NameTable<PackageFile>,
    Ghost(start): Ghost<ByteReader>,
    count: i32,
    end: Option<u32>,
    done: i32,
    Ghost(records): Ghost<FileRecords>,
    Ghost(used): Ghost<nat>,
    current: u32,
) -> (r: Result<(u32, Ghost<(FileRecords, nat)>), DecodeError>)
    requires
        0 <= done < count,
        old(files).wf(),
        table_progress(
            *old(reader),
            start,
            old(files)@,
            count as int,
            end,
            done as int,
            records,
            used,
            current,
        ),
    ensures
        final(files).wf(),
        match r {
            Ok((next, state)) => table_progress(
                *final(reader),
                start,
                final(files)@,
                count as int,
                end,
                done + 1,
                state@.0,
                state@.1,
                next,
            ),
            Err(e) => spec_file_table(start@, count as int, end, done + 1) == Err::<
                (FileRecords, nat, u32),
                DecodeError,
            >(e),
        },
{
    proof {
        reveal(table_progress);
    }
    assert(reader@ =~= start@.skip(used as int));
    let (name, file_hash, Ghost(more)) = match read_file_record(reader) {
        Ok(v) => v,
        Err(e) => {
            return Err(e);
        },
    };
    assert(reader@ =~= start@.skip((used + more) as int));
    let (offset_next, Ghost(extra)) = match read_next_offset(reader, done + 1 < count, end) {
        Ok(v) => v,
        Err(e) => {
            return Err(e);
        },
    };
    if offset_next < current {
        return Err(DecodeError::Truncated);
    }
    let file = PackageFile { length: offset_next - current, hash: file_hash };
    let ghost before = files@;
    let ghost key = name@;
    files.insert(name, file);
    proof {
        assert(files_view(before.insert(key, file)) =~= files_view(before).insert(key, file@));
        lemma_pairs_map_push(records, key, file@);
        assert(reader@ =~= start@.skip((used + more + extra) as int));
    }
    Ok((offset_next, Ghost((records.push((key, file@)), used + more + extra))))
}

/// Reads the file table from its plain text: `count` records, the last of
/// which reaches to `end`. A later record of a name stands in place of an
/// earlier.
pub fn read_file_table(plain: &[u8], count: i32, end: Option<u32>) -> (r: Result<
    NameTable<PackageFile>,
    DecodeError,
>)
    requires
        0 <= count,
    ensures
        match r {
            Ok(files) => files.wf() && (spec_file_table(
                plain@,
                count as int,
                end,
                count as int,
            ) matches Ok((records, used, last)) && files_view(files@) == pairs_map(records)),
            Err(e) => spec_file_table(plain@, count as int, end, count as int) == Err::<
                (FileRecords, nat, u32),
                DecodeError,
            >(e),
        },
{
    let mut reader = ByteReader::new(plain);
    let ghost start = reader;
    let mut files: NameTable<PackageFile> = NameTable::new();
    let mut offset_current = match reader.read_u32() {
        Ok(v) => v,
        Err(e) => {
            proof {
                lemma_file_table_error(plain@, count as int, end, 0, count as int);
            }
            return Err(e);
        },
    };
    let ghost mut records: FileRecords = Seq::empty();
    let ghost mut used: nat = 4;
    assert(table_progress(
        reader,
        start,
        files@,
        count as int,
        end,
        0,
        records,
        used,
        offset_current,
    )) by {
        reveal(table_progress);
        assert(files_view(files@) =~= Map::<Seq<char>, PackageFileView>::empty());
    }
    let mut i: i32 = 0;
    while i < count
        invariant
            0 <= i <= count,
            start@ == plain@,
            files.wf(),
            table_progress(
                reader,
                start,
                files@,
                count as int,
                end,
                i as int,
                records,
                used,
                offset_current,
            ),
        decreases count - i,
    {
        match read_next_file(
            &mut reader,
            &mut files,
            Ghost(start),
            count,
            end,
            i,
            Ghost(records),
            Ghost(used),
            offset_current,
        ) {
            Ok((next, state)) => {
                offset_current = next;
                proof {
                    records = state@.0;
                    used = state@.1;
                }
            },
            Err(e) => {
                proof {
                    lemma_file_table_error(plain@, count as int, end, i + 1, count as int);
                }
                return Err(e);
            },
        }
        i += 1;
    }
    proof {
        reveal(table_progress);
    }
    Ok(files)
}

/// The file-info block: its first four bytes, deciphered on their own,
/// hold the number of records; the block as it stands, still enciphered,
/// must meet the info checkpoint at four times that number; what follows
/// the first four bytes, deciphered as one chunk, is the file table. The
/// result is the records of the table in their order.
pub open spec fn spec_read_file_info(
    block: Seq<u8>,
    key: Seq<u32>,
    hash_info: Seq<u8>,
    end: Option<u32>,
) -> Result<FileRecords, DecodeError> {
    if block.len() < 4 {
        Err(DecodeError::Truncated)
    } else {
        let count = le_i32(decrypt_spec(key, block.subrange(0, 4)));
        if count < 0 || 4 * count >= block.len() {
            Err(DecodeError::Truncated)
        } else if checkpoint_hash(block, 4 * count, FILE_INFO_SWAP) != hash_info {
            Err(DecodeError::DigestMismatch { which: Checkpoint::FileInfo })
        } else {
            match spec_file_table(decrypt_spec(key, block.skip(4)), count, end, count) {
                Err(e) => Err(e),
                Ok((records, used, last)) => Ok(records),
            }
        }
    }
}

/// The only errors of a file table are an input that ends early, which
/// stands for an offset out of order too, and a name that is not UTF-8.
pub proof fn lemma_file_table_errors(s: Seq<u8>, count: int, end: Option<u32>, done: int)
    ensures
        spec_file_table(s, count, end, done) matches Err(e) ==> e == DecodeError::Truncated || e
            == DecodeError::InvalidUtf8,
    decreases done,
{
    if done > 0 {
        lemma_file_table_errors(s, count, end, done - 1);
        reveal(spec_file_record);
        reveal(spec_net_string);
    }
}

/// A file-info block is refused for an input that ends early, for the info
/// checkpoint, or for a name that is not UTF-8, and for nothing else.
pub proof fn lemma_file_info_errors(
    block: Seq<u8>,
    key: Seq<u32>,
    hash_info: Seq<u8>,
    end: Option<u32>,
)
    ensures
        spec_read_file_info(block, key, hash_info, end) matches Err(e) ==> e
            == DecodeError::Truncated || e == DecodeError::InvalidUtf8 || e
            == (DecodeError::DigestMismatch { which: Checkpoint::FileInfo }),
{
    let count = le_i32(decrypt_spec(key, block.subrange(0, 4)));
    lemma_file_table_errors(decrypt_spec(key, block.skip(4)), count, end, count);
}

/// Where no name stands twice among the records, the table has exactly
/// one entry for each record, and the entry of a name is the record of
/// that name: its length, and its sixteen digest bytes as they are stored.
pub proof fn lemma_distinct_records_are_the_table(records: FileRecords)
    requires
        distinct_keys(records),
    ensures
        pairs_map(records).dom().finite(),
        pairs_map(records).len() == records.len(),
        forall|i: int|
            0 <= i < records.len() ==> pairs_map(records).contains_key((#[trigger] records[i]).0)
                && pairs_map(records)[records[i].0] == records[i].1,
{
    lemma_pairs_map_distinct(records);
}

/// The lengths of the files of a table, added up.
pub open spec fn table_length(files: Map<Seq<char>, PackageFileView>) -> int
    decreases files.dom().len(),
    when files.dom().finite()
{
    if files.dom().len() == 0 {
        0
    } else {
        let name = files.dom().choose();
        files[name].length + table_length(files.remove(name))
    }
}

/// The lengths of a table add up to the length of any one of its files and
/// the lengths of the others.
pub proof fn lemma_table_length_without(files: Map<Seq<char>, PackageFileView>, name: Seq<char>)
    requires
        files.dom().finite(),
        files.contains_key(name),
    ensures
        table_length(files) == files[name].length + table_length(files.remove(name)),
    decreases files.dom().len(),
{
    let first = files.dom().choose();
    if first != name {
        lemma_table_length_without(files.remove(first), name);
        lemma_table_length_without(files.remove(name), first);
        assert(files.remove(first).remove(name) =~= files.remove(name).remove(first));
    }
}

/// Where no name stands twice among the records, the lengths of the table
/// add up to the lengths of the records.
pub proof fn lemma_table_length_of_records(records: FileRecords)
    requires
        distinct_keys(records),
    ensures
        table_length(pairs_map(records)) == total_length(records),
    decreases records.len(),
{
    if records.len() > 0 {
        let before = records.drop_last();
        let last = records.last();
        assert forall|i: int, j: int| 0 <= i < j < before.len() implies (#[trigger] before[i]).0
            != (#[trigger] before[j]).0 by {
            assert(before[i] == records[i] && before[j] == records[j]);
        }
        lemma_table_length_of_records(before);
        lemma_pairs_map_keys(before, last.0);
        if has_key(before, last.0) {
            let i = choose|i: int| 0 <= i < before.len() && (#[trigger] before[i]).0 == last.0;
            assert(records[i].0 == records[records.len() - 1].0);
        }
        lemma_pairs_map_keys(records, last.0);
        lemma_table_length_without(pairs_map(records), last.0);
        assert(pairs_map(records).remove(last.0) =~= pairs_map(before));
    }
}

/// A file-info block that is read well gives as many records as its count
/// says, and meets the info checkpoint at four times that number.
pub proof fn lemma_file_info_is_verified(
    block: Seq<u8>,
    key: Seq<u32>,
    hash_info: Seq<u8>,
    end: Option<u32>,
)
    requires
        spec_read_file_info(block, key, hash_info, end) is Ok,
    ensures
        spec_read_file_info(block, key, hash_info, end)->Ok_0.len() == le_i32(
            decrypt_spec(key, block.subrange(0, 4)),
        ),
        checkpoint_hash(
            block,
            4 * spec_read_file_info(block, key, hash_info, end)->Ok_0.len() as int,
            FILE_INFO_SWAP,
        ) == hash_info,
{
    let count = le_i32(decrypt_spec(key, block.subrange(0, 4)));
    lemma_file_lengths_add_up(decrypt_spec(key, block.skip(4)), count, end, count);
}

/// The offset of the first file, which the deciphered file table of a
/// file-info block opens with.
pub open spec fn first_offset(block: Seq<u8>, key: Seq<u32>) -> int {
    le_u32(decrypt_spec(key, block.skip(4)))
}

/// Where a file-info block is read well and holds a record, the lengths of
/// its files and the offset of the first add up to the length of the data
/// section: the files lie end to end and reach its end.
pub proof fn lemma_files_reach_the_end(
    block: Seq<u8>,
    key: Seq<u32>,
    hash_info: Seq<u8>,
    end: Option<u32>,
)
    requires
        spec_read_file_info(block, key, hash_info, end) is Ok,
        spec_read_file_info(block, key, hash_info, end)->Ok_0.len() > 0,
    ensures
        end matches Some(data_len) && first_offset(block, key) + total_length(
            spec_read_file_info(block, key, hash_info, end)->Ok_0,
        ) == data_len,
{
    let count = le_i32(decrypt_spec(key, block.subrange(0, 4)));
    lemma_file_lengths_add_up(decrypt_spec(key, block.skip(4)), count, end, count);
}

/// Deciphers `cipher` as one chunk through a decrypting stream.
fn decipher_chunk(cipher: &[u8], key: &[u32; 4]) -> (plain: Vec<u8>)
    ensures
        plain@ == decrypt_spec(key@, cipher@),
{
    let mut plain: Vec<u8> = vec![0u8; cipher.len()];
    let mut stream = DecryptorStream::new(ByteReader::new(cipher), *key);
    let count = stream.read(plain.as_mut_slice());
    assert(cipher@.subrange(0, count as int) =~= cipher@);
    assert(plain@ =~= decrypt_spec(key@, cipher@));
    plain
}

/// Verifies the file-info block and reads the file table from it.
pub fn read_file_info(block: &[u8], key: &[u32; 4], hash_info: &[u8; 16], end: Option<u32>) -> (r:
    Result<NameTable<PackageFile>, DecodeError>)
    ensures
        match r {
            Ok(files) => files.wf() && (spec_read_file_info(
                block@,
                key@,
                hash_info@,
                end,
            ) matches Ok(records) && files_view(files@) == pairs_map(records)),
            Err(e) => spec_read_file_info(block@, key@, hash_info@, end) == Err::<
                FileRecords,
                DecodeError,
            >(e) && e != DecodeError::KeyMismatch,
        },
{
    proof {
        lemma_file_info_errors(block@, key@, hash_info@, end);
    }
    let len = block.len();
    if len < 4 {
        return Err(DecodeError::Truncated);
    }
    let count_plain = decipher_chunk(slice_subrange(block, 0, 4), key);
    let count = read_i32_le(count_plain.as_slice());
    if count < 0 || (count as u64) * 4 >= len as u64 {
        return Err(DecodeError::Truncated);
    }
    let mut file_info_data = slice_to_vec(block);
    let info_hash = calc_osz2_hash(
        file_info_data.as_mut_slice(),
        (count as usize) * 4,
        FILE_INFO_SWAP,
    );
    if !digests_match(&info_hash, hash_info) {
        return Err(DecodeError::DigestMismatch { which: Checkpoint::FileInfo });
    }
    let plain = decipher_chunk(slice_subrange(block, 4, len), key);
    assert(block@.subrange(4, len as int) =~= block@.skip(4));
    read_file_table(plain.as_slice(), count, end)
}

} // verus!
