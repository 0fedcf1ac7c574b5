//! Decrypt-on-read over a byte source.

use crate::ext::ByteReader;
use crate::xxtea::{decrypt, decrypt_spec};
use vstd::prelude::*;

verus! {

/// A byte source whose bytes are decrypted as they are read.
///
/// Each read is deciphered on its own: what one call returns must be what
/// was encrypted as one chunk. Read a section in one call, with a buffer of
/// the section's size.
pub struct DecryptorStream<T> {
    /// The key that reads are deciphered with.
    pub key: [u32; 4],
    /// The source of the cipher text.
    pub inner: T,
}

impl<T> DecryptorStream<T> {
    /// Wraps `inner`; reads will be deciphered with `key`.
    pub fn new(inner: T, key: [u32; 4]) -> (stream: Self)
        ensures
            stream.inner == inner,
            stream.key == key,
    {
        DecryptorStream { key, inner }
    }
}

impl<'a> DecryptorStream<ByteReader<'a>> {
    /// Fills `buffer` from the source as `ByteReader::read` does, deciphers
    /// as one chunk exactly the bytes that this call put there, and says how
    /// many those were.
    pub fn read(&mut self, buffer: &mut [u8]) -> (count: usize)
        ensures
            count == if old(self).inner@.len() < old(buffer)@.len() {
                old(self).inner@.len()
            } else {
                old(buffer)@.len()
            },
            final(buffer)@ == decrypt_spec(
                old(self).key@,
                old(self).inner@.subrange(0, count as int),
            ) + old(buffer)@.subrange(count as int, old(buffer)@.len() as int),
            final(self).inner.advanced_from(&old(self).inner, count as int),
            final(self).key == old(self).key,
    {
        let count = self.inner.read(buffer);
        let ghost filled = buffer@;
        let (chunk, _) = buffer.split_at_mut(count);
        assert(chunk@ =~= old(self).inner@.subrange(0, count as int));
        decrypt(&self.key, chunk);
        assert(filled.subrange(count as int, filled.len() as int) =~= old(buffer)@.subrange(
            count as int,
            old(buffer)@.len() as int,
        ));
        count
    }
}

} // verus!
