//! Reading from and writing to byte buffers: fixed-width fields and the
//! length-prefixed strings of the container.

use crate::bytes::{
    le_i32, le_u16, le_u32, le_u64, read_i32_le, read_u16_le, read_u32_le, read_u64_le,
};
use crate::error::DecodeError;
use vstd::prelude::*;
use vstd::slice::{slice_subrange, slice_to_vec};
use vstd::utf8::{decode_utf8, encode_utf8, valid_utf8};

verus! {

/// What a length prefix at the start of `s` says, and how many bytes it
/// takes, if `s` holds all of it. Every byte adds its low seven bits to the
/// length; a byte with the high bit clear is the last one, and so is the
/// `budget`-th byte, whatever its high bit.
pub open spec fn spec_length_prefix(s: Seq<u8>, budget: nat) -> Option<(nat, nat)>
    decreases budget,
{
    if budget == 0 {
        Some((0, 0))
    } else if s.len() == 0 {
        None
    } else if s[0] < 0x80 {
        Some((s[0] as nat, 1))
    } else {
        match spec_length_prefix(s.skip(1), (budget - 1) as nat) {
            Some((length, used)) => Some((length + (s[0] - 0x80) as nat, used + 1)),
            None => None,
        }
    }
}

/// The most bytes that a length prefix takes.
pub const MAX_PREFIX_BYTES: usize = 4;

/// The string at the start of `s` and the number of bytes it takes there,
/// or why there is none: the input ends inside the prefix or before the
/// text does, or the text is not valid UTF-8.
#[verifier::opaque]
pub open spec fn spec_net_string(s: Seq<u8>) -> Result<(Seq<char>, nat), DecodeError> {
    match spec_length_prefix(s, MAX_PREFIX_BYTES as nat) {
        None => Err(DecodeError::Truncated),
        Some((length, used)) => {
            if s.len() < used + length {
                Err(DecodeError::Truncated)
            } else if !valid_utf8(s.subrange(used as int, (used + length) as int)) {
                Err(DecodeError::InvalidUtf8)
            } else {
                Ok((decode_utf8(s.subrange(used as int, (used + length) as int)), used + length))
            }
        },
    }
}

/// The prefix bytes that are written for a text of `len` bytes: a byte
/// that says 127 and goes on, while more than 127 is left to say, then a
/// last byte that says what is left. The low seven bits of the bytes add up
/// to `len`. A length above 508 takes more bytes than a prefix may have.
pub open spec fn length_prefix_bytes(len: nat) -> Seq<u8>
    decreases len,
{
    if len <= 127 {
        seq![len as u8]
    } else {
        seq![0xFFu8] + length_prefix_bytes((len - 127) as nat)
    }
}

/// The bytes that are written for the string `s`: the prefix for the
/// length of its UTF-8 form, then that form.
pub open spec fn net_string_bytes(s: Seq<char>) -> Seq<u8> {
    length_prefix_bytes(encode_utf8(s).len()) + encode_utf8(s)
}

/// The largest text length that a prefix can say: 127 in each of its four
/// bytes.
pub const MAX_ROUNDTRIP_LEN: usize = 508;

/// A prefix never says more than 127 for each byte it may take, and it
/// takes a byte where it may take one.
pub proof fn lemma_length_prefix_bound(s: Seq<u8>, budget: nat)
    ensures
        match spec_length_prefix(s, budget) {
            Some((length, used)) => length <= 127 * budget && used <= budget && used <= s.len()
                && (budget > 0 ==> used >= 1),
            None => true,
        },
    decreases budget,
{
    if budget > 0 && s.len() > 0 && s[0] >= 0x80 {
        lemma_length_prefix_bound(s.skip(1), (budget - 1) as nat);
    }
}

/// The prefix written for a length that `budget` bytes can say is read
/// back as that length, within `budget` bytes, whatever follows.
pub proof fn lemma_length_prefix_within(len: nat, budget: nat, rest: Seq<u8>)
    requires
        budget >= 1,
        len <= 127 * budget,
    ensures
        spec_length_prefix(length_prefix_bytes(len) + rest, budget) == Some(
            (len, length_prefix_bytes(len).len()),
        ),
        1 <= length_prefix_bytes(len).len() <= budget,
    decreases budget,
{
    let written = length_prefix_bytes(len) + rest;
    if len <= 127 {
        assert(length_prefix_bytes(len) =~= seq![len as u8]);
        assert(written[0] == len);
    } else {
        let more = length_prefix_bytes((len - 127) as nat);
        assert(length_prefix_bytes(len) =~= seq![0xFFu8] + more);
        assert(written[0] == 0xFF);
        assert(written.skip(1) =~= more + rest);
        lemma_length_prefix_within((len - 127) as nat, (budget - 1) as nat, rest);
    }
}

/// The prefix written for a length reads back as that length exactly when
/// the length is at most 508; a longer text reads back shorter than it is.
pub proof fn lemma_length_prefix_roundtrip(len: nat, rest: Seq<u8>)
    ensures
        len <= MAX_ROUNDTRIP_LEN ==> spec_length_prefix(
            length_prefix_bytes(len) + rest,
            MAX_PREFIX_BYTES as nat,
        ) == Some((len, length_prefix_bytes(len).len())),
        len > MAX_ROUNDTRIP_LEN ==> match spec_length_prefix(
            length_prefix_bytes(len) + rest,
            MAX_PREFIX_BYTES as nat,
        ) {
            Some((length, used)) => length < len,
            None => true,
        },
{
    assert(MAX_PREFIX_BYTES == 4 && MAX_ROUNDTRIP_LEN == 508);
    if len <= 508 {
        lemma_length_prefix_within(len, 4, rest);
    } else {
        lemma_length_prefix_bound(length_prefix_bytes(len) + rest, 4);
    }
}

/// What is read as a string can be written: its UTF-8 form has at most 508
/// bytes.
pub proof fn lemma_read_text_is_short(s: Seq<u8>)
    requires
        spec_net_string(s) is Ok,
    ensures
        encode_utf8(spec_net_string(s)->Ok_0.0).len() <= MAX_ROUNDTRIP_LEN,
        spec_net_string(s)->Ok_0.1 >= 1,
        spec_net_string(s)->Ok_0.1 <= s.len(),
{
    reveal(spec_net_string);
    lemma_length_prefix_bound(s, MAX_PREFIX_BYTES as nat);
    let (length, used) = spec_length_prefix(s, MAX_PREFIX_BYTES as nat)->0;
    vstd::utf8::decode_utf8_encode_utf8(s.subrange(used as int, (used + length) as int));
}

/// A string whose UTF-8 form has at most 508 bytes reads back from what is
/// written for it, whatever follows, and takes exactly the bytes written.
pub proof fn lemma_net_string_roundtrip(s: Seq<char>, rest: Seq<u8>)
    requires
        encode_utf8(s).len() <= MAX_ROUNDTRIP_LEN,
    ensures
        spec_net_string(net_string_bytes(s) + rest) == Ok::<(Seq<char>, nat), DecodeError>(
            (s, net_string_bytes(s).len()),
        ),
{
    reveal(spec_net_string);
    let text = encode_utf8(s);
    let prefix = length_prefix_bytes(text.len());
    let written = net_string_bytes(s) + rest;
    assert(written =~= prefix + (text + rest));
    lemma_length_prefix_roundtrip(text.len(), text + rest);
    assert(written.subrange(prefix.len() as int, (prefix.len() + text.len()) as int) =~= text);
    vstd::utf8::encode_utf8_valid_utf8(s);
    vstd::utf8::encode_utf8_decode_utf8(s);
}

/// `String::from_utf8`: the string that the bytes encode, or nothing where
/// they are not valid UTF-8.
#[verifier::external_body]
pub(crate) fn string_from_utf8(bytes: Vec<u8>) -> (r: Option<String>)
    ensures
        r is Some <==> valid_utf8(bytes@),
        r matches Some(s) ==> s@ == decode_utf8(bytes@),
{
    String::from_utf8(bytes).ok()
}

/// A forward-only reader over a byte buffer.
#[derive(Debug, Clone, Copy)]
pub struct ByteReader<'a> {
    data: &'a [u8],
    pos: usize,
}

impl<'a> View for ByteReader<'a> {
    type V = Seq<u8>;

    /// The bytes not read yet.
    closed spec fn view(&self) -> Seq<u8> {
        self.data@.subrange(self.pos as int, self.data@.len() as int)
    }
}

impl<'a> ByteReader<'a> {
    #[verifier::type_invariant]
    spec fn in_bounds(self) -> bool {
        self.pos <= self.data@.len()
    }

    /// How many bytes have been read.
    pub closed spec fn spec_position(&self) -> nat {
        self.pos as nat
    }

    /// The whole buffer, read or not.
    pub closed spec fn source(&self) -> Seq<u8> {
        self.data@
    }

    /// Whether this reader is `before` after `n` more bytes were read.
    pub open spec fn advanced_from(&self, before: &Self, n: int) -> bool {
        &&& 0 <= n <= before@.len()
        &&& self@ == before@.skip(n)
        &&& self.source() == before.source()
        &&& self.spec_position() == before.spec_position() + n
    }

    /// Reading on from where a reader stands adds up: `n` bytes and then
    /// `m` bytes are `n + m` bytes.
    pub proof fn lemma_advanced_on(&self, before: &Self, first: &Self, n: int, m: int)
        requires
            first.advanced_from(before, n),
            self.advanced_from(first, m),
        ensures
            self.advanced_from(before, n + m),
    {
        assert(before@.skip(n).skip(m) =~= before@.skip(n + m));
    }

    /// A reader at the start of `data`.
    pub fn new(data: &'a [u8]) -> (r: Self)
        ensures
            r@ == data@,
            r.source() == data@,
            r.spec_position() == 0,
    {
        let r = ByteReader { data, pos: 0 };
        assert(r@ =~= data@);
        r
    }

    /// How many bytes have been read: what has been read is followed by
    /// what has not.
    pub fn stream_position(&self) -> (p: usize)
        ensures
            p == self.spec_position(),
            p + self@.len() == self.source().len(),
            self@ == self.source().skip(p as int),
    {
        proof {
            use_type_invariant(self);
        }
        self.pos
    }

    /// How many bytes are left to read.
    pub fn remaining_len(&self) -> (n: usize)
        ensures
            n == self@.len(),
    {
        proof {
            use_type_invariant(self);
        }
        self.data.len() - self.pos
    }

    /// Fills `buffer` from the front with as many unread bytes as there are
    /// and as it has room for, and says how many those were.
    pub fn read(&mut self, buffer: &mut [u8]) -> (count: usize)
        ensures
            count == if old(self)@.len() < old(buffer)@.len() {
                old(self)@.len()
            } else {
                old(buffer)@.len()
            },
            final(buffer)@ == old(self)@.subrange(0, count as int) + old(buffer)@.subrange(
                count as int,
                old(buffer)@.len() as int,
            ),
            final(self).advanced_from(old(self), count as int),
    {
        proof {
            use_type_invariant(&*self);
        }
        let avail = self.data.len() - self.pos;
        let count = if avail < buffer.len() {
            avail
        } else {
            buffer.len()
        };
        let start = self.pos;
        let total = self.data.len();
        let mut i: usize = 0;
        while i < count
            invariant
                i <= count,
                count <= buffer@.len(),
                buffer@.len() == old(buffer)@.len(),
                total == self.data@.len(),
                start + count <= total,
                self.pos == start,
                forall|k: int| 0 <= k < i ==> buffer@[k] == self.data@[start + k],
                forall|k: int| i <= k < buffer@.len() ==> buffer@[k] == old(buffer)@[k],
            decreases count - i,
        {
            buffer[i] = self.data[start + i];
            i += 1;
        }
        self.pos = start + count;
        assert(buffer@ =~= old(self)@.subrange(0, count as int) + old(buffer)@.subrange(
            count as int,
            old(buffer)@.len() as int,
        ));
        assert(self@ =~= old(self)@.skip(count as int));
        count
    }

    /// Takes the next `n` bytes.
    pub fn take(&mut self, n: usize) -> (r: Result<&'a [u8], DecodeError>)
        ensures
            match r {
                Ok(bytes) => n <= old(self)@.len() && bytes@ == old(self)@.subrange(0, n as int)
                    && final(self).advanced_from(old(self), n as int),
                Err(e) => e == DecodeError::Truncated && old(self)@.len() < n && *final(self)
                    == *old(self),
            },
    {
        proof {
            use_type_invariant(&*self);
        }
        if self.data.len() - self.pos < n {
            return Err(DecodeError::Truncated);
        }
        let bytes = slice_subrange(self.data, self.pos, self.pos + n);
        self.pos = self.pos + n;
        assert(bytes@ =~= old(self)@.subrange(0, n as int));
        assert(self@ =~= old(self)@.skip(n as int));
        Ok(bytes)
    }

    /// Reads one byte.
    pub fn read_u8(&mut self) -> (r: Result<u8, DecodeError>)
        ensures
            match r {
                Ok(v) => old(self)@.len() >= 1 && v == old(self)@[0]
                    && final(self).advanced_from(old(self), 1),
                Err(e) => e == DecodeError::Truncated && old(self)@.len() < 1 && *final(self)
                    == *old(self),
            },
    {
        let bytes = self.take(1)?;
        Ok(bytes[0])
    }

    /// Reads an unsigned 16-bit number, low byte first.
    pub fn read_u16(&mut self) -> (r: Result<u16, DecodeError>)
        ensures
            match r {
                Ok(v) => old(self)@.len() >= 2 && v == le_u16(old(self)@)
                    && final(self).advanced_from(old(self), 2),
                Err(e) => e == DecodeError::Truncated && old(self)@.len() < 2 && *final(self)
                    == *old(self),
            },
    {
        let bytes = self.take(2)?;
        Ok(read_u16_le(bytes))
    }

    /// Reads a signed 32-bit number, low byte first.
    pub fn read_i32(&mut self) -> (r: Result<i32, DecodeError>)
        ensures
            match r {
                Ok(v) => old(self)@.len() >= 4 && v == le_i32(old(self)@)
                    && final(self).advanced_from(old(self), 4),
                Err(e) => e == DecodeError::Truncated && old(self)@.len() < 4 && *final(self)
                    == *old(self),
            },
    {
        let bytes = self.take(4)?;
        Ok(read_i32_le(bytes))
    }

    /// Reads an unsigned 32-bit number, low byte first.
    pub fn read_u32(&mut self) -> (r: Result<u32, DecodeError>)
        ensures
            match r {
                Ok(v) => old(self)@.len() >= 4 && v == le_u32(old(self)@)
                    && final(self).advanced_from(old(self), 4),
                Err(e) => e == DecodeError::Truncated && old(self)@.len() < 4 && *final(self)
                    == *old(self),
            },
    {
        let bytes = self.take(4)?;
        Ok(read_u32_le(bytes))
    }

    /// Reads an unsigned 64-bit number, low byte first.
    pub fn read_u64(&mut self) -> (r: Result<u64, DecodeError>)
        ensures
            match r {
                Ok(v) => old(self)@.len() >= 8 && v == le_u64(old(self)@)
                    && final(self).advanced_from(old(self), 8),
                Err(e) => e == DecodeError::Truncated && old(self)@.len() < 8 && *final(self)
                    == *old(self),
            },
    {
        let bytes = self.take(8)?;
        assert(bytes@.skip(4) =~= old(self)@.skip(4).subrange(0, 4));
        Ok(read_u64_le(bytes))
    }
}

/// Reading the container's two variable-size field kinds from a byte
/// source.
pub trait ReadExt {
    /// The bytes of the source that have not been read yet.
    spec fn unread(&self) -> Seq<u8>;

    /// Reads exactly `N` bytes, or fails and reads nothing where fewer are
    /// left.
    fn read_n<const N: usize>(&mut self) -> (r: Result<[u8; N], DecodeError>)
        ensures
            match r {
                Ok(bytes) => N <= old(self).unread().len() && bytes@ == old(self).unread().subrange(
                    0,
                    N as int,
                ) && final(self).unread() == old(self).unread().skip(N as int),
                Err(e) => e == DecodeError::Truncated && old(self).unread().len() < N
                    && final(self).unread() == old(self).unread(),
            },
    ;

    /// Reads a length-prefixed string, or fails and reads nothing.
    fn read_net_string(&mut self) -> (r: Result<String, DecodeError>)
        ensures
            match r {
                Ok(s) => spec_net_string(old(self).unread()) matches Ok((text, used)) && s@ == text
                    && final(self).unread() == old(self).unread().skip(used as int),
                Err(e) => spec_net_string(old(self).unread()) == Err::<
                    (Seq<char>, nat),
                    DecodeError,
                >(e) && final(self).unread() == old(self).unread(),
            },
    ;
}

impl<'a> ByteReader<'a> {
    /// Reads the length prefix of a string: the length it says.
    fn read_length_prefix(&mut self) -> (r: Result<usize, DecodeError>)
        ensures
            match r {
                Ok(length) => spec_length_prefix(old(self)@, MAX_PREFIX_BYTES as nat) matches Some(
                    (said, used),
                ) && length == said && final(self).advanced_from(old(self), used as int),
                Err(e) => e == DecodeError::Truncated && spec_length_prefix(
                    old(self)@,
                    MAX_PREFIX_BYTES as nat,
                ) is None && *final(self) == *old(self),
            },
    {
        proof {
            use_type_invariant(&*self);
        }
        let total = self.data.len();
        let start = self.pos;
        let mut at = start;
        let mut length: usize = 0;
        let mut read: usize = 0;
        let mut last = false;
        assert(self@.skip(0) =~= self@);
        while read < MAX_PREFIX_BYTES && !last
            invariant
                read <= MAX_PREFIX_BYTES,
                total == self.data@.len(),
                start <= at <= total,
                at == start + read,
                self.pos == start,
                *self == *old(self),
                length <= 127 * read,
                last ==> spec_length_prefix(self@, MAX_PREFIX_BYTES as nat) == Some(
                    (length as nat, read as nat),
                ),
                !last ==> spec_length_prefix(self@, MAX_PREFIX_BYTES as nat) == match spec_length_prefix(
                    self@.skip(read as int),
                    (MAX_PREFIX_BYTES - read) as nat,
                ) {
                    Some((said, used)) => Some((said + length as nat, used + read as nat)),
                    None => None,
                },
            decreases MAX_PREFIX_BYTES - read + if last { 0int } else { 1int },
        {
            if at >= total {
                return Err(DecodeError::Truncated);
            }
            let b = self.data[at];
            let ghost rest = self@.skip(read as int);
            assert(rest[0] == b);
            assert(rest.skip(1) =~= self@.skip(read + 1));
            assert(b & 0x7f == if b >= 0x80 { (b - 0x80) as u8 } else { b }) by (bit_vector);
            assert((b >> 7 == 0) == (b < 0x80)) by (bit_vector);
            length += (b & 0x7f) as usize;
            at += 1;
            read += 1;
            if b >> 7 == 0 {
                last = true;
            }
        }
        self.pos = at;
        assert(self@ =~= old(self)@.skip(read as int));
        Ok(length)
    }
}

impl<'a> ReadExt for ByteReader<'a> {
    open spec fn unread(&self) -> Seq<u8> {
        self@
    }

    fn read_n<const N: usize>(&mut self) -> (r: Result<[u8; N], DecodeError>)
        ensures
            r is Ok ==> final(self).advanced_from(old(self), N as int),
            r is Err ==> *final(self) == *old(self),
    {
        let bytes = match self.take(N) {
            Ok(bytes) => bytes,
            Err(e) => {
                return Err(e);
            },
        };
        let mut out = [0u8; N];
        let mut i: usize = 0;
        while i < N
            invariant
                i <= N,
                bytes@.len() == N,
                forall|k: int| 0 <= k < i ==> out@[k] == bytes@[k],
            decreases N - i,
        {
            out[i] = bytes[i];
            i += 1;
        }
        assert(out@ =~= bytes@);
        Ok(out)
    }

    fn read_net_string(&mut self) -> (r: Result<String, DecodeError>)
        ensures
            r is Ok ==> (spec_net_string(old(self)@) matches Ok((text, used)) && final(
                self).advanced_from(old(self), used as int)),
            r is Err ==> *final(self) == *old(self),
    {
        proof {
            reveal(spec_net_string);
        }
        let start = *self;
        let length = match self.read_length_prefix() {
            Ok(length) => length,
            Err(e) => {
                return Err(e);
            },
        };
        let ghost used = old(self)@.len() - self@.len();
        let bytes = match self.take(length) {
            Ok(bytes) => bytes,
            Err(e) => {
                *self = start;
                return Err(e);
            },
        };
        assert(bytes@ =~= old(self)@.subrange(used as int, used + length));
        match string_from_utf8(slice_to_vec(bytes)) {
            Some(s) => {
                assert(self@ =~= old(self)@.skip(used + length));
                Ok(s)
            },
            None => {
                *self = start;
                Err(DecodeError::InvalidUtf8)
            },
        }
    }
}

/// Writing the container's strings to a byte sink.
pub trait WriteExt {
    /// The bytes that the sink holds.
    spec fn written(&self) -> Seq<u8>;

    /// Appends the length-prefixed form of `s`. The UTF-8 form of `s` may
    /// have at most 508 bytes: a longer text has no prefix.
    fn write_net_string(&mut self, s: &str)
        requires
            encode_utf8(s@).len() <= MAX_ROUNDTRIP_LEN,
        ensures
            final(self).written() == old(self).written() + net_string_bytes(s@),
    ;
}

impl WriteExt for Vec<u8> {
    open spec fn written(&self) -> Seq<u8> {
        self@
    }

    fn write_net_string(&mut self, s: &str) {
        let text = s.as_bytes();
        let mut len: usize = text.len();
        let ghost mut prefix: Seq<u8> = Seq::empty();
        while len > 127
            invariant
                self@ == old(self)@ + prefix,
                length_prefix_bytes(text@.len()) == prefix + length_prefix_bytes(len as nat),
            decreases len,
        {
            self.push(0xFF);
            proof {
                let more = length_prefix_bytes((len - 127) as nat);
                assert(prefix + (seq![0xFFu8] + more) =~= prefix.push(0xFFu8) + more);
                prefix = prefix.push(0xFFu8);
            }
            len = len - 127;
        }
        self.push(len as u8);
        proof {
            prefix = prefix.push(len as u8);
            assert(length_prefix_bytes(text@.len()) =~= prefix);
        }
        self.extend_from_slice(text);
        assert(self@ =~= old(self)@ + net_string_bytes(s@));
    }
}

} // verus!
