//! The difficulty section: an identifier for each difficulty name.

use crate::bytes::{le_i32, le_u32};
use crate::error::DecodeError;
use crate::ext::{lemma_read_text_is_short, spec_net_string, ByteReader, ReadExt};
use crate::types::NameTable;
use vstd::prelude::*;

verus! {

/// One difficulty entry at the start of `s`, with the number of bytes it
/// takes: a name and a 32-bit identifier.
#[verifier::opaque]
pub open spec fn spec_difficulty_entry(s: Seq<u8>) -> Result<((Seq<char>, u32), nat), DecodeError> {
    match spec_net_string(s) {
        Err(e) => Err(e),
        Ok((name, used)) => {
            if s.len() < used + 4 {
                Err(DecodeError::Truncated)
            } else {
                Ok(((name, le_u32(s.skip(used as int)) as u32), used + 4))
            }
        },
    }
}

/// The first `count` difficulty entries at the start of `s`, in the order in
/// which they stand, with the number of bytes they take together; none for
/// a count below one.
pub open spec fn spec_difficulty_entries(s: Seq<u8>, count: int) -> Result<
    (Seq<(Seq<char>, u32)>, nat),
    DecodeError,
>
    decreases count,
{
    if count <= 0 {
        Ok((Seq::empty(), 0))
    } else {
        match spec_difficulty_entries(s, count - 1) {
            Err(e) => Err(e),
            Ok((before, used)) => match spec_difficulty_entry(s.skip(used as int)) {
                Err(e) => Err(e),
                Ok((entry, more)) => Ok((before.push(entry), used + more)),
            },
        }
    }
}

/// The difficulty table that a run of entries gives: a later entry of a
/// name in place of an earlier.
pub open spec fn difficulty_map(entries: Seq<(Seq<char>, u32)>) -> Map<Seq<char>, u32>
    decreases entries.len(),
{
    if entries.len() == 0 {
        Map::empty()
    } else {
        difficulty_map(entries.drop_last()).insert(entries.last().0, entries.last().1)
    }
}

/// The difficulty section at the start of `s`: the table and the number of
/// bytes of the section.
pub open spec fn spec_read_difficulty_data(s: Seq<u8>) -> Result<
    (Map<Seq<char>, u32>, nat),
    DecodeError,
> {
    if s.len() < 4 {
        Err(DecodeError::Truncated)
    } else {
        match spec_difficulty_entries(s.skip(4), le_i32(s)) {
            Err(e) => Err(e),
            Ok((entries, used)) => Ok((difficulty_map(entries), used + 4)),
        }
    }
}

/// A run of entries that is read well has as many entries as were asked
/// for, none where fewer than one were asked for; every entry takes five
/// bytes or more, and all of them stand within the input.
pub proof fn lemma_difficulty_entries_len(s: Seq<u8>, count: int)
    requires
        spec_difficulty_entries(s, count) is Ok,
    ensures
        spec_difficulty_entries(s, count) matches Ok((entries, used)) && entries.len() == (if count
            > 0 {
            count
        } else {
            0
        }) && 5 * entries.len() <= used <= s.len(),
    decreases count,
{
    if count > 0 {
        lemma_difficulty_entries_len(s, count - 1);
        let (before, used) = spec_difficulty_entries(s, count - 1)->Ok_0;
        reveal(spec_difficulty_entry);
        lemma_read_text_is_short(s.skip(used as int));
    }
}

/// Once an entry fails, every longer run of entries fails in the same way.
proof fn lemma_difficulty_entries_error(s: Seq<u8>, k: int, count: int)
    requires
        k <= count,
        spec_difficulty_entries(s, k) is Err,
    ensures
        spec_difficulty_entries(s, count) == spec_difficulty_entries(s, k),
    decreases count - k,
{
    if k < count {
        lemma_difficulty_entries_error(s, k, count - 1);
    }
}

/// The only errors of a difficulty section are an input that ends early
/// and a name that is not UTF-8.
pub proof fn lemma_difficulty_errors(s: Seq<u8>)
    ensures
        spec_read_difficulty_data(s) matches Err(e) ==> e == DecodeError::Truncated || e
            == DecodeError::InvalidUtf8,
{
    lemma_difficulty_entries_errors(s.skip(4), le_i32(s));
}

proof fn lemma_difficulty_entries_errors(s: Seq<u8>, count: int)
    ensures
        spec_difficulty_entries(s, count) matches Err(e) ==> e == DecodeError::Truncated || e
            == DecodeError::InvalidUtf8,
    decreases count,
{
    if count > 0 {
        lemma_difficulty_entries_errors(s, count - 1);
        reveal(spec_difficulty_entry);
        reveal(spec_net_string);
    }
}

/// Reads one difficulty entry: its name, its identifier and the number of
/// bytes that it took.
fn read_difficulty_entry(reader: &mut ByteReader) -> (r: Result<
    (String, u32, Ghost<nat>),
    DecodeError,
>)
    ensures
        match r {
            Ok((name, id, used)) => spec_difficulty_entry(old(reader)@) == Ok::<
                ((Seq<char>, u32), nat),
                DecodeError,
            >(((name@, id), used@)) && final(reader).advanced_from(old(reader), used@ as int),
            Err(e) => spec_difficulty_entry(old(reader)@) == Err::<
                ((Seq<char>, u32), nat),
                DecodeError,
            >(e),
        },
{
    proof {
        reveal(spec_difficulty_entry);
    }
    let name = match reader.read_net_string() {
        Ok(v) => v,
        Err(e) => {
            return Err(e);
        },
    };
    let id = match reader.read_u32() {
        Ok(v) => v,
        Err(e) => {
            return Err(e);
        },
    };
    let ghost used = (old(reader)@.len() - reader@.len()) as nat;
    assert(reader@ =~= old(reader)@.skip(used as int));
    Ok((name, id, Ghost(used)))
}

/// Where the reading of a difficulty section stands after `i` entries.
#[verifier::opaque]
spec fn difficulty_progress(
    reader: ByteReader,
    start: ByteReader,
    table: Map<Seq<char>, u32>,
    i: int,
    entries: Seq<(Seq<char>, u32)>,
    used: nat,
) -> bool {
    &&& 0 <= i
    &&& 4 + used <= start@.len()
    &&& spec_difficulty_entries(start@.skip(4), i) == Ok::<
        (Seq<(Seq<char>, u32)>, nat),
        DecodeError,
    >((entries, used))
    &&& reader.advanced_from(&start, 4 + used as int)
    &&& table == difficulty_map(entries)
}

/// Reads the next difficulty entry and files it.
fn read_next_difficulty(
    reader: &mut ByteReader,
    table: &mut NameTable<u32>,
    Ghost(start): Ghost<ByteReader>,
    Ghost(i): Ghost<int>,
    Ghost(entries): Ghost<Seq<(Seq<char>, u32)>>,
    Ghost(used): Ghost<nat>,
) -> (r: Result<Ghost<(Seq<(Seq<char>, u32)>, nat)>, DecodeError>)
    requires
        old(table).wf(),
        difficulty_progress(*old(reader), start, old(table)@, i, entries, used),
    ensures
        final(table).wf(),
        match r {
            Ok(next) => difficulty_progress(
                *final(reader),
                start,
                final(table)@,
                i + 1,
                next@.0,
                next@.1,
            ),
            Err(e) => spec_difficulty_entries(start@.skip(4), i + 1) == Err::<
                (Seq<(Seq<char>, u32)>, nat),
                DecodeError,
            >(e),
        },
{
    proof {
        reveal(difficulty_progress);
    }
    let ghost body = start@.skip(4);
    assert(reader@ =~= body.skip(used as int));
    let (name, id, Ghost(more)) = match read_difficulty_entry(reader) {
        Ok(entry) => entry,
        Err(e) => {
            return Err(e);
        },
    };
    let ghost entry = (name@, id);
    table.insert(name, id);
    proof {
        assert(entries.push(entry).drop_last() =~= entries);
        assert(reader@ =~= start@.skip(4 + (used + more) as int));
    }
    Ok(Ghost((entries.push(entry), used + more)))
}

/// Reads the difficulty section: an identifier for each difficulty name.
pub fn read_difficulty_data(reader: &mut ByteReader) -> (r: Result<
    NameTable<u32>,
    DecodeError,
>)
    ensures
        match r {
            Ok(table) => table.wf() && (spec_read_difficulty_data(old(reader)@) matches Ok(
                (map, used),
            ) && table@ == map && final(reader).advanced_from(old(reader), used as int)),
            Err(e) => spec_read_difficulty_data(old(reader)@) == Err::<
                (Map<Seq<char>, u32>, nat),
                DecodeError,
            >(e) && (e == DecodeError::Truncated || e == DecodeError::InvalidUtf8),
        },
{
    let ghost start = *old(reader);
    let count = match reader.read_i32() {
        Ok(v) => v,
        Err(e) => {
            return Err(e);
        },
    };
    let mut table: NameTable<u32> = NameTable::new();
    let ghost mut entries: Seq<(Seq<char>, u32)> = Seq::empty();
    let ghost mut used: nat = 0;
    assert(difficulty_progress(*reader, start, table@, 0, entries, used)) by {
        reveal(difficulty_progress);
    }
    let mut i: i32 = 0;
    while i < count
        invariant
            i == 0 || i <= count,
            count == le_i32(start@),
            start@.len() >= 4,
            start == *old(reader),
            table.wf(),
            difficulty_progress(*reader, start, table@, i as int, entries, used),
        decreases count - i,
    {
        match read_next_difficulty(
            reader,
            &mut table,
            Ghost(start),
            Ghost(i as int),
            Ghost(entries),
            Ghost(used),
        ) {
            Ok(next) => {
                proof {
                    entries = next@.0;
                    used = next@.1;
                }
            },
            Err(e) => {
                proof {
                    lemma_difficulty_entries_error(start@.skip(4), i + 1, count as int);
                    lemma_difficulty_errors(start@);
                }
                return Err(e);
            },
        }
        i += 1;
    }
    proof {
        reveal(difficulty_progress);
    }
    Ok(table)
}

} // verus!
