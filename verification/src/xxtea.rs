//! The corrected block TEA variant that protects the file table.
//!
//! Words are 32 bits, stored little-endian. All word arithmetic wraps.

use crate::bytes::{
    le_u32, lemma_bytes_of_le_u32, lemma_le_u32_of_bytes, read_u32_le, u32_le_bytes, write_u32_le,
};
use vstd::arithmetic::div_mod::{
    lemma_fundamental_div_mod, lemma_fundamental_div_mod_converse,
};
use vstd::prelude::*;
use vstd::slice::slice_subrange;

verus! {

/// The additive round constant.
pub const DELTA: u32 = 0x9e3779b9;

/// Rounds run over a group of `n` words.
pub open spec fn rounds_for(n: int) -> nat {
    (6 + 52int / n) as nat
}

/// The running sum while `r` rounds of a decryption remain, which is also
/// the sum of the `r`-th round of an encryption.
pub open spec fn sum_at(r: nat) -> u32 {
    (r as u32).wrapping_mul(DELTA)
}

/// Which key word mixes into position `p` under the running sum `sum`.
pub open spec fn key_index(p: u32, sum: u32) -> int {
    ((p & 3) ^ ((sum >> 2) & 3)) as int
}

/// The mixing value for a word with right neighbour `y`, left neighbour `z`
/// and key word `k`.
pub open spec fn mx(sum: u32, y: u32, z: u32, k: u32) -> u32 {
    ((z >> 5) ^ (y << 2)).wrapping_add((y >> 3) ^ (z << 4)) ^ (sum ^ y).wrapping_add(k ^ z)
}

/// The mixing value for position `p` of the first `n` words of `v`, whose
/// neighbours are taken cyclically.
pub open spec fn mx_at(v: Seq<u32>, n: int, p: int, sum: u32, key: Seq<u32>) -> u32 {
    let z = v[if p == 0 { n - 1 } else { p - 1 }];
    let y = v[if p == n - 1 { 0 } else { p + 1 }];
    mx(sum, y, z, key[key_index(p as u32, sum)])
}

/// One inverse step: position `p` loses its mixing value.
pub open spec fn dec_step(v: Seq<u32>, n: int, p: int, sum: u32, key: Seq<u32>) -> Seq<u32> {
    v.update(p, v[p].wrapping_sub(mx_at(v, n, p, sum, key)))
}

/// One forward step: position `p` gains its mixing value.
pub open spec fn enc_step(v: Seq<u32>, n: int, p: int, sum: u32, key: Seq<u32>) -> Seq<u32> {
    v.update(p, v[p].wrapping_add(mx_at(v, n, p, sum, key)))
}

/// The inverse steps at positions `p - 1`, `p - 2`, down to `0`, in that order.
pub open spec fn dec_sweep(v: Seq<u32>, n: int, p: int, sum: u32, key: Seq<u32>) -> Seq<u32>
    decreases p,
{
    if p <= 0 {
        v
    } else {
        dec_sweep(dec_step(v, n, p - 1, sum, key), n, p - 1, sum, key)
    }
}

/// The forward steps at positions `0`, `1`, up to `p - 1`, in that order.
pub open spec fn enc_sweep(v: Seq<u32>, n: int, p: int, sum: u32, key: Seq<u32>) -> Seq<u32>
    decreases p,
{
    if p <= 0 {
        v
    } else {
        enc_step(enc_sweep(v, n, p - 1, sum, key), n, p - 1, sum, key)
    }
}

/// The last `r` rounds of a decryption of the first `n` words of `v`: a full
/// downward sweep under each of the sums `sum_at(r)` down to `sum_at(1)`.
pub open spec fn dec_rounds(v: Seq<u32>, n: int, r: nat, key: Seq<u32>) -> Seq<u32>
    decreases r,
{
    if r == 0 {
        v
    } else {
        dec_rounds(dec_sweep(v, n, n, sum_at(r), key), n, (r - 1) as nat, key)
    }
}

/// The first `r` rounds of an encryption of the first `n` words of `v`: a
/// full upward sweep under each of the sums `sum_at(1)` up to `sum_at(r)`.
pub open spec fn enc_rounds(v: Seq<u32>, n: int, r: nat, key: Seq<u32>) -> Seq<u32>
    decreases r,
{
    if r == 0 {
        v
    } else {
        enc_sweep(enc_rounds(v, n, (r - 1) as nat, key), n, n, sum_at(r), key)
    }
}

/// The first `n` words of `v` decrypted as one group; the others unchanged.
pub open spec fn dec_words(v: Seq<u32>, n: int, key: Seq<u32>) -> Seq<u32> {
    dec_rounds(v, n, rounds_for(n), key)
}

/// The first `n` words of `v` encrypted as one group; the others unchanged.
pub open spec fn enc_words(v: Seq<u32>, n: int, key: Seq<u32>) -> Seq<u32> {
    enc_rounds(v, n, rounds_for(n), key)
}

proof fn lemma_key_index_bound(p: u32, sum: u32)
    ensures
        0 <= key_index(p, sum) < 4,
{
    assert(((p & 3) ^ ((sum >> 2) & 3)) < 4) by (bit_vector);
}

proof fn lemma_sum_prev(r: u32)
    requires
        0 < r <= 58,
    ensures
        sum_at(r as nat).wrapping_sub(DELTA) == sum_at((r - 1) as nat),
        sum_at((r - 1) as nat).wrapping_add(DELTA) == sum_at(r as nat),
{
    let m = 0x1_0000_0000int;
    let a = (r - 1) * (DELTA as int);
    let b = r * (DELTA as int);
    assert(b == a + DELTA) by (nonlinear_arith)
        requires
            a == (r - 1) * (DELTA as int),
            b == r * (DELTA as int),
    ;
    assert(a >= 0) by (nonlinear_arith)
        requires
            a == (r - 1) * (DELTA as int),
            r >= 1,
    ;
    let q = a / m;
    let s = a % m;
    lemma_fundamental_div_mod(a, m);
    if s + DELTA < m {
        lemma_fundamental_div_mod_converse(b, m, q, s + DELTA);
    } else {
        lemma_fundamental_div_mod_converse(b, m, q + 1, s + DELTA - m);
    }
    assert(sum_at((r - 1) as nat) == s);
    assert(sum_at(r as nat) == b % m);
}

/// A sweep keeps the length of the sequence.
pub proof fn lemma_sweep_len(v: Seq<u32>, n: int, p: int, sum: u32, key: Seq<u32>)
    requires
        0 <= p <= n <= v.len(),
    ensures
        dec_sweep(v, n, p, sum, key).len() == v.len(),
        enc_sweep(v, n, p, sum, key).len() == v.len(),
    decreases p,
{
    if p > 0 {
        lemma_sweep_len(dec_step(v, n, p - 1, sum, key), n, p - 1, sum, key);
        lemma_sweep_len(v, n, p - 1, sum, key);
    }
}

/// Rounds keep the length of the sequence.
pub proof fn lemma_rounds_len(v: Seq<u32>, n: int, r: nat, key: Seq<u32>)
    requires
        0 <= n <= v.len(),
    ensures
        dec_rounds(v, n, r, key).len() == v.len(),
        enc_rounds(v, n, r, key).len() == v.len(),
    decreases r,
{
    if r > 0 {
        lemma_sweep_len(v, n, n, sum_at(r), key);
        lemma_rounds_len(dec_sweep(v, n, n, sum_at(r), key), n, (r - 1) as nat, key);
        lemma_rounds_len(v, n, (r - 1) as nat, key);
        lemma_sweep_len(enc_rounds(v, n, (r - 1) as nat, key), n, n, sum_at(r), key);
    }
}

/// An inverse step undoes the forward step at the same position, and the
/// other way round, as long as the position has neighbours other than itself.
pub proof fn lemma_step_inverse(v: Seq<u32>, n: int, p: int, sum: u32, key: Seq<u32>)
    requires
        2 <= n <= v.len(),
        0 <= p < n,
    ensures
        dec_step(enc_step(v, n, p, sum, key), n, p, sum, key) == v,
        enc_step(dec_step(v, n, p, sum, key), n, p, sum, key) == v,
{
    let e = enc_step(v, n, p, sum, key);
    assert(mx_at(e, n, p, sum, key) == mx_at(v, n, p, sum, key));
    assert(dec_step(e, n, p, sum, key) =~= v);
    let d = dec_step(v, n, p, sum, key);
    assert(mx_at(d, n, p, sum, key) == mx_at(v, n, p, sum, key));
    assert(enc_step(d, n, p, sum, key) =~= v);
}

/// A downward sweep undoes the upward sweep over the same positions.
pub proof fn lemma_sweep_inverse(v: Seq<u32>, n: int, p: int, sum: u32, key: Seq<u32>)
    requires
        2 <= n <= v.len(),
        0 <= p <= n,
    ensures
        dec_sweep(enc_sweep(v, n, p, sum, key), n, p, sum, key) == v,
    decreases p,
{
    if p > 0 {
        let u = enc_sweep(v, n, p - 1, sum, key);
        lemma_sweep_len(v, n, p - 1, sum, key);
        lemma_step_inverse(u, n, p - 1, sum, key);
        lemma_sweep_inverse(v, n, p - 1, sum, key);
    }
}

/// Decrypting `r` rounds undoes encrypting `r` rounds.
pub proof fn lemma_rounds_inverse(v: Seq<u32>, n: int, r: nat, key: Seq<u32>)
    requires
        2 <= n <= v.len(),
    ensures
        dec_rounds(enc_rounds(v, n, r, key), n, r, key) == v,
    decreases r,
{
    if r > 0 {
        let u = enc_rounds(v, n, (r - 1) as nat, key);
        lemma_rounds_len(v, n, (r - 1) as nat, key);
        lemma_sweep_inverse(u, n, n, sum_at(r), key);
        lemma_rounds_inverse(v, n, (r - 1) as nat, key);
    }
}

/// Decrypts the first `n` words of `word_buffer` in place as one group.
pub fn decrypt_words(word_buffer: &mut [u32], n: u32, key: &[u32; 4])
    requires
        1 <= n <= old(word_buffer)@.len(),
    ensures
        final(word_buffer)@ == dec_words(old(word_buffer)@, n as int, key@),
{
    let rounds: u32 = 6 + 52 / n;
    let mut sum: u32 = rounds.wrapping_mul(DELTA);
    let mut r: u32 = rounds;
    while r > 0
        invariant
            1 <= n <= word_buffer@.len(),
            word_buffer@.len() == old(word_buffer)@.len(),
            r <= rounds <= 58,
            sum == sum_at(r as nat),
            dec_rounds(word_buffer@, n as int, r as nat, key@) == dec_words(
                old(word_buffer)@,
                n as int,
                key@,
            ),
        decreases r,
    {
        let ghost start = word_buffer@;
        let mut p: u32 = n;
        while p > 0
            invariant
                1 <= n <= word_buffer@.len(),
                word_buffer@.len() == start.len(),
                p <= n,
                dec_sweep(word_buffer@, n as int, p as int, sum, key@) == dec_sweep(
                    start,
                    n as int,
                    n as int,
                    sum,
                    key@,
                ),
            decreases p,
        {
            p -= 1;
            let z = word_buffer[(if p == 0 { n - 1 } else { p - 1 }) as usize];
            let y = word_buffer[(if p == n - 1 { 0 } else { p + 1 }) as usize];
            proof {
                lemma_key_index_bound(p, sum);
            }
            let k = key[((p & 3) ^ ((sum >> 2) & 3)) as usize];
            let shifted = ((z >> 5) ^ (y << 2)).wrapping_add((y >> 3) ^ (z << 4));
            let m = shifted ^ (sum ^ y).wrapping_add(k ^ z);
            word_buffer[p as usize] = word_buffer[p as usize].wrapping_sub(m);
        }
        proof {
            lemma_sum_prev(r);
        }
        sum = sum.wrapping_sub(DELTA);
        r -= 1;
    }
}

/// Encrypts the first `n` words of `word_buffer` in place as one group.
pub fn encrypt_words(word_buffer: &mut [u32], n: u32, key: &[u32; 4])
    requires
        1 <= n <= old(word_buffer)@.len(),
    ensures
        final(word_buffer)@ == enc_words(old(word_buffer)@, n as int, key@),
{
    let rounds: u32 = 6 + 52 / n;
    let mut sum: u32 = 0;
    let mut r: u32 = 0;
    while r < rounds
        invariant
            1 <= n <= word_buffer@.len(),
            word_buffer@.len() == old(word_buffer)@.len(),
            r <= rounds <= 58,
            rounds == rounds_for(n as int),
            sum == sum_at(r as nat),
            word_buffer@ == enc_rounds(old(word_buffer)@, n as int, r as nat, key@),
        decreases rounds - r,
    {
        r += 1;
        proof {
            lemma_sum_prev(r);
        }
        sum = sum.wrapping_add(DELTA);
        let ghost start = word_buffer@;
        let mut p: u32 = 0;
        while p < n
            invariant
                1 <= n <= word_buffer@.len(),
                word_buffer@.len() == start.len(),
                p <= n,
                word_buffer@ == enc_sweep(start, n as int, p as int, sum, key@),
            decreases n - p,
        {
            let z = word_buffer[(if p == 0 { n - 1 } else { p - 1 }) as usize];
            let y = word_buffer[(if p == n - 1 { 0 } else { p + 1 }) as usize];
            proof {
                lemma_key_index_bound(p, sum);
            }
            let k = key[((p & 3) ^ ((sum >> 2) & 3)) as usize];
            let shifted = ((z >> 5) ^ (y << 2)).wrapping_add((y >> 3) ^ (z << 4));
            let m = shifted ^ (sum ^ y).wrapping_add(k ^ z);
            word_buffer[p as usize] = word_buffer[p as usize].wrapping_add(m);
            p += 1;
        }
    }
}

/// The words that a run of bytes holds, four bytes to a word; bytes beyond
/// the last whole word are left out.
pub open spec fn words_of(b: Seq<u8>) -> Seq<u32> {
    Seq::new((b.len() / 4) as nat, |i: int| le_u32(b.subrange(4 * i, 4 * i + 4)) as u32)
}

/// The bytes that store a run of words.
pub open spec fn bytes_of(w: Seq<u32>) -> Seq<u8> {
    Seq::new(w.len() * 4, |i: int| u32_le_bytes(w[i / 4])[i % 4])
}

/// A run of whole words, decrypted as one group.
#[verifier::opaque]
pub open spec fn decrypt_group(key: Seq<u32>, g: Seq<u8>) -> Seq<u8> {
    bytes_of(dec_words(words_of(g), g.len() as int / 4, key))
}

/// A run of whole words, encrypted as one group.
#[verifier::opaque]
pub open spec fn encrypt_group(key: Seq<u32>, g: Seq<u8>) -> Seq<u8> {
    bytes_of(enc_words(words_of(g), g.len() as int / 4, key))
}

/// `val` turned left by `n` bits within its eight.
pub open spec fn rotl8(val: u8, n: u8) -> u8 {
    (val << n) | (val >> ((8 - n) as u8))
}

/// By how much a byte is turned, given the cipher byte before it.
pub open spec fn turn_amount(prev: u8) -> u8 {
    ((u32::MAX - prev) % 7) as u8
}

/// By how much the key byte is turned for position `i` of `len`, given the
/// cipher byte before it.
pub open spec fn key_turn_amount(prev: u8, i: int, len: int) -> u8 {
    ((prev + len - i) % 7) as u8
}

/// The plain byte at position `i` of a byte-wise tail of `len` bytes: the
/// cipher byte `c` is turned by an amount that the cipher byte before it
/// gives (`prev`, zero at the start), mixed with a turned key byte, and
/// lowered by a quarter of another key byte.
pub open spec fn decrypt_byte(c: u8, prev: u8, i: int, len: int, kb: Seq<u8>) -> u8 {
    let turned = rotl8(c, turn_amount(prev));
    let mixed = turned ^ rotl8(kb[15 - i % 16], key_turn_amount(prev, i, len));
    ((mixed - kb[i % 16] / 4) % 256) as u8
}

/// The cipher byte at position `i` that `decrypt_byte` takes back to `o`.
pub open spec fn encrypt_byte(o: u8, prev: u8, i: int, len: int, kb: Seq<u8>) -> u8 {
    let mixed = ((o + kb[i % 16] / 4) % 256) as u8;
    let turned = mixed ^ rotl8(kb[15 - i % 16], key_turn_amount(prev, i, len));
    rotl8(turned, ((8 - turn_amount(prev)) % 8) as u8)
}

/// The cipher byte before position `i`, zero at the start.
pub open spec fn prev_byte(t: Seq<u8>, i: int) -> u8 {
    if i == 0 {
        0
    } else {
        t[i - 1]
    }
}

/// A run of bytes decrypted one by one.
pub open spec fn decrypt_bytes(key: Seq<u32>, t: Seq<u8>) -> Seq<u8> {
    Seq::new(
        t.len(),
        |i: int| decrypt_byte(t[i], prev_byte(t, i), i, t.len() as int, bytes_of(key)),
    )
}

/// The first `k` cipher bytes of a run of bytes encrypted one by one.
pub open spec fn encrypt_bytes_upto(key: Seq<u32>, t: Seq<u8>, k: int) -> Seq<u8>
    decreases k,
{
    if k <= 0 {
        Seq::empty()
    } else {
        let before = encrypt_bytes_upto(key, t, k - 1);
        before.push(
            encrypt_byte(t[k - 1], prev_byte(before, k - 1), k - 1, t.len() as int, bytes_of(key)),
        )
    }
}

/// A run of bytes encrypted one by one.
pub open spec fn encrypt_bytes(key: Seq<u32>, t: Seq<u8>) -> Seq<u8> {
    encrypt_bytes_upto(key, t, t.len() as int)
}

/// What is left after the full groups, fewer than 64 bytes: with two whole
/// words or more, those words form one group and only the bytes after them
/// go one by one; otherwise every byte goes one by one.
pub open spec fn decrypt_tail(key: Seq<u32>, t: Seq<u8>) -> Seq<u8> {
    let n = t.len() as int / 4;
    if n > 1 {
        decrypt_group(key, t.subrange(0, 4 * n)) + decrypt_bytes(
            key,
            t.subrange(4 * n, t.len() as int),
        )
    } else {
        decrypt_bytes(key, t)
    }
}

/// The inverse of `decrypt_tail`.
pub open spec fn encrypt_tail(key: Seq<u32>, t: Seq<u8>) -> Seq<u8> {
    let n = t.len() as int / 4;
    if n > 1 {
        encrypt_group(key, t.subrange(0, 4 * n)) + encrypt_bytes(
            key,
            t.subrange(4 * n, t.len() as int),
        )
    } else {
        encrypt_bytes(key, t)
    }
}

/// The plain text of one chunk of cipher text: each full 64-byte group is
/// decrypted on its own, then the tail.
pub open spec fn decrypt_spec(key: Seq<u32>, buf: Seq<u8>) -> Seq<u8>
    decreases buf.len(),
{
    if buf.len() >= 64 {
        decrypt_group(key, buf.subrange(0, 64)) + decrypt_spec(
            key,
            buf.subrange(64, buf.len() as int),
        )
    } else {
        decrypt_tail(key, buf)
    }
}

/// The cipher text of one chunk of plain text, the inverse of `decrypt_spec`.
pub open spec fn encrypt_spec(key: Seq<u32>, buf: Seq<u8>) -> Seq<u8>
    decreases buf.len(),
{
    if buf.len() >= 64 {
        encrypt_group(key, buf.subrange(0, 64)) + encrypt_spec(
            key,
            buf.subrange(64, buf.len() as int),
        )
    } else {
        encrypt_tail(key, buf)
    }
}

/// Byte `4 * i + j` of a run belongs to word `i` and is its byte `j`.
proof fn lemma_word_position(i: int, j: int)
    requires
        0 <= j < 4,
    ensures
        (4 * i + j) / 4 == i,
        (4 * i + j) % 4 == j,
{
    lemma_fundamental_div_mod_converse(4 * i + j, 4, i, j);
}

/// Storing words and reading them back gives the same words.
pub proof fn lemma_words_of_bytes_of(w: Seq<u32>)
    ensures
        bytes_of(w).len() == 4 * w.len(),
        words_of(bytes_of(w)) == w,
{
    let b = bytes_of(w);
    assert(words_of(b).len() == w.len());
    assert forall|i: int| 0 <= i < w.len() implies #[trigger] words_of(b)[i] == w[i] by {
        let part = b.subrange(4 * i, 4 * i + 4);
        lemma_word_position(i, 0);
        lemma_word_position(i, 1);
        lemma_word_position(i, 2);
        lemma_word_position(i, 3);
        assert(part[0] == u32_le_bytes(w[i])[0]);
        assert(part[1] == u32_le_bytes(w[i])[1]);
        assert(part[2] == u32_le_bytes(w[i])[2]);
        assert(part[3] == u32_le_bytes(w[i])[3]);
        lemma_le_u32_of_bytes(w[i]);
    }
    assert(words_of(b) =~= w);
}

/// Reading whole words and storing them again gives the same bytes.
pub proof fn lemma_bytes_of_words_of(b: Seq<u8>)
    requires
        b.len() % 4 == 0,
    ensures
        words_of(b).len() * 4 == b.len(),
        bytes_of(words_of(b)) == b,
{
    let w = words_of(b);
    assert forall|k: int| 0 <= k < b.len() implies #[trigger] bytes_of(w)[k] == b[k] by {
        let i = k / 4;
        let part = b.subrange(4 * i, 4 * i + 4);
        lemma_bytes_of_le_u32(part);
        assert(part[k % 4] == b[k]);
    }
    assert(bytes_of(w) =~= b);
}

/// Turns `val` left by `n` bits within its eight.
pub fn rotate_left(val: u8, n: u8) -> (r: u8)
    requires
        n < 8,
    ensures
        r == rotl8(val, n),
{
    let wide: u32 = (val << n) as u32 | ((val as u32) >> (8 - n as u32));
    assert(((val << n) as u32 | ((val as u32) >> ((8 - n) as u32))) == ((val << n) | (val >> ((8
        - n) as u8))) as u32) by (bit_vector)
        requires
            n < 8,
    ;
    wide as u8
}

/// The sixteen bytes that store the key, in the layout the words have in a
/// buffer.
pub fn key_to_bytes(key: &[u32; 4]) -> (kb: [u8; 16])
    ensures
        kb@ == bytes_of(key@),
{
    let mut kb = [0u8; 16];
    let mut i: usize = 0;
    while i < 4
        invariant
            i <= 4,
            forall|k: int| 0 <= k < 4 * i ==> kb@[k] == bytes_of(key@)[k],
        decreases 4 - i,
    {
        let w = write_u32_le(key[i]);
        kb[4 * i] = w[0];
        kb[4 * i + 1] = w[1];
        kb[4 * i + 2] = w[2];
        kb[4 * i + 3] = w[3];
        i += 1;
    }
    assert(kb@ =~= bytes_of(key@));
    kb
}

/// The plain byte at position `i` of a byte-wise tail of `len` bytes, from
/// the cipher byte `c`, the cipher byte before it and the key bytes.
fn decrypt_one_byte(c: u8, prev: u8, i: usize, len: usize, key_b: &[u8; 16]) -> (o: u8)
    requires
        i < len <= 0xFFFF_FF00,
    ensures
        o == decrypt_byte(c, prev, i as int, len as int, key_b@),
{
    let not_prev: u32 = !(prev as u32);
    assert(!(prev as u32) == (0xFFFF_FFFFu32 - prev as u32) as u32) by (bit_vector);
    let turned = rotate_left(c, (not_prev % 7) as u8);
    let amount: u32 = (prev as usize + len - i) as u32;
    let mixed = turned ^ rotate_left(key_b[15 - i % 16], (amount % 7) as u8);
    let low_key: u8 = key_b[i % 16];
    let quarter: u32 = (low_key as u32) >> 2;
    assert((low_key as u32) >> 2 == (low_key as u32) / 4) by (bit_vector);
    let lowered: u32 = (mixed as u32).wrapping_sub(quarter) % 256;
    lowered as u8
}

/// Decrypts `buffer` in place, byte by byte. Positions are counted in 32
/// bits, which bounds the length of the run.
pub fn simple_decrypt_bytes(buffer: &mut [u8], key: &[u32; 4])
    requires
        old(buffer)@.len() <= 0xFFFF_FF00,
    ensures
        final(buffer)@ == decrypt_bytes(key@, old(buffer)@),
{
    let key_b = key_to_bytes(key);
    let len = buffer.len();
    let mut prev_e: u8 = 0;
    let mut i: usize = 0;
    while i < len
        invariant
            i <= len,
            len == buffer@.len(),
            len == old(buffer)@.len(),
            len <= 0xFFFF_FF00,
            key_b@ == bytes_of(key@),
            prev_e == prev_byte(old(buffer)@, i as int),
            forall|k: int| 0 <= k < i ==> buffer@[k] == decrypt_bytes(key@, old(buffer)@)[k],
            forall|k: int| i <= k < len ==> buffer@[k] == old(buffer)@[k],
        decreases len - i,
    {
        let tmp_e = buffer[i];
        buffer[i] = decrypt_one_byte(tmp_e, prev_e, i, len, &key_b);
        prev_e = tmp_e;
        i += 1;
    }
    assert(buffer@ =~= decrypt_bytes(key@, old(buffer)@));
}

/// Whether `now` is `before` with the bytes from `start` on replaced by
/// `piece`, as many as `piece` has.
spec fn replaced(before: Seq<u8>, now: Seq<u8>, start: int, piece: Seq<u8>) -> bool {
    now == before.subrange(0, start) + piece + before.subrange(
        start + piece.len(),
        before.len() as int,
    )
}

/// Reads the `n` words that start at byte `start` of `buffer`.
fn load_words(buffer: &[u8], start: usize, n: usize) -> (words: Vec<u32>)
    requires
        n <= 16,
        start + 4 * n <= buffer@.len(),
    ensures
        words@ == words_of(buffer@.subrange(start as int, start + 4 * n)),
{
    let ghost run = buffer@.subrange(start as int, start + 4 * n);
    let len = buffer.len();
    let mut words: Vec<u32> = Vec::new();
    let mut i: usize = 0;
    while i < n
        invariant
            i <= n <= 16,
            len == buffer@.len(),
            start + 4 * n <= len,
            run == buffer@.subrange(start as int, start + 4 * n),
            words@.len() == i,
            forall|k: int| 0 <= k < i ==> words@[k] == words_of(run)[k],
        decreases n - i,
    {
        let at = start + 4 * i;
        let part = slice_subrange(buffer, at, at + 4);
        assert(part@ =~= run.subrange(4 * i, 4 * i + 4));
        proof {
            lemma_bytes_of_le_u32(part@);
        }
        words.push(read_u32_le(part));
        i += 1;
    }
    assert(words@ =~= words_of(run));
    words
}

/// Stores `words` into `buffer` from byte `start` on.
fn store_words(buffer: &mut [u8], start: usize, words: &Vec<u32>)
    requires
        words@.len() <= 16,
        start + 4 * words@.len() <= old(buffer)@.len(),
    ensures
        replaced(old(buffer)@, final(buffer)@, start as int, bytes_of(words@)),
{
    let n = words.len();
    let len = buffer.len();
    let mut i: usize = 0;
    while i < n
        invariant
            i <= n <= 16,
            n == words@.len(),
            len == buffer@.len(),
            start + 4 * n <= len,
            buffer@.len() == old(buffer)@.len(),
            forall|k: int| 0 <= k < start ==> buffer@[k] == old(buffer)@[k],
            forall|k: int| 0 <= k < 4 * i ==> buffer@[start + k] == bytes_of(words@)[k],
            forall|k: int| start + 4 * i <= k < buffer@.len() ==> buffer@[k] == old(buffer)@[k],
        decreases n - i,
    {
        let w = write_u32_le(words[i]);
        let at = start + 4 * i;
        buffer[at] = w[0];
        buffer[at + 1] = w[1];
        buffer[at + 2] = w[2];
        buffer[at + 3] = w[3];
        i += 1;
    }
    assert(buffer@ =~= old(buffer)@.subrange(0, start as int) + bytes_of(words@) + old(
        buffer,
    )@.subrange(start + bytes_of(words@).len(), old(buffer)@.len() as int));
}

/// Decrypts in place, as one group, the `n` words that start at byte `start`
/// of `buffer`.
fn decrypt_group_at(buffer: &mut [u8], start: usize, n: usize, key: &[u32; 4])
    requires
        1 <= n <= 16,
        start + 4 * n <= old(buffer)@.len(),
    ensures
        replaced(
            old(buffer)@,
            final(buffer)@,
            start as int,
            decrypt_group(key@, old(buffer)@.subrange(start as int, start + 4 * n)),
        ),
        decrypt_group(key@, old(buffer)@.subrange(start as int, start + 4 * n)).len() == 4 * n,
{
    let mut words = load_words(buffer, start, n);
    let ghost loaded = words@;
    decrypt_words(words.as_mut_slice(), n as u32, key);
    proof {
        reveal(decrypt_group);
        lemma_rounds_len(loaded, n as int, rounds_for(n as int), key@);
        lemma_words_of_bytes_of(words@);
    }
    store_words(buffer, start, &words);
}

/// Decrypts in place what follows the full groups: the fewer than 64
/// bytes from `start` to the end of `buffer`.
fn decrypt_tail_from(buffer: &mut [u8], start: usize, key: &[u32; 4])
    requires
        start <= old(buffer)@.len(),
        old(buffer)@.len() - start < 64,
    ensures
        final(buffer)@ == old(buffer)@.subrange(0, start as int) + decrypt_tail(
            key@,
            old(buffer)@.subrange(start as int, old(buffer)@.len() as int),
        ),
{
    let len = buffer.len();
    let leftover = len - start;
    let ghost tail = old(buffer)@.subrange(start as int, len as int);
    let n = leftover / 4;
    if n > 1 {
        decrypt_group_at(buffer, start, n, key);
        let ghost mid = buffer@;
        let (_, bytes) = buffer.split_at_mut(start + 4 * n);
        simple_decrypt_bytes(bytes, key);
        proof {
            assert(old(buffer)@.subrange(start as int, start + 4 * n) =~= tail.subrange(0, 4 * n));
            assert(mid.subrange(start + 4 * n, len as int) =~= tail.subrange(
                4 * n,
                tail.len() as int,
            ));
            assert(buffer@ =~= old(buffer)@.subrange(0, start as int) + decrypt_tail(key@, tail));
        }
    } else {
        let (_, bytes) = buffer.split_at_mut(start);
        simple_decrypt_bytes(bytes, key);
        assert(buffer@ =~= old(buffer)@.subrange(0, start as int) + decrypt_tail(key@, tail));
    }
}

/// Unfolds `decrypt_spec` once for a chunk that begins with a full group.
proof fn lemma_decrypt_spec_step(key: Seq<u32>, whole: Seq<u8>, done: Seq<u8>, at: int)
    requires
        0 <= at,
        at + 64 <= whole.len(),
        decrypt_spec(key, whole) == done + decrypt_spec(key, whole.subrange(at, whole.len() as int)),
    ensures
        decrypt_spec(key, whole) == done + decrypt_group(key, whole.subrange(at, at + 64))
            + decrypt_spec(key, whole.subrange(at + 64, whole.len() as int)),
{
    let rest = whole.subrange(at, whole.len() as int);
    assert(rest.subrange(0, 64) =~= whole.subrange(at, at + 64));
    assert(rest.subrange(64, rest.len() as int) =~= whole.subrange(at + 64, whole.len() as int));
    let head = decrypt_group(key, rest.subrange(0, 64));
    let more = decrypt_spec(key, rest.subrange(64, rest.len() as int));
    assert(done + (head + more) =~= done + head + more);
}

/// Decrypts one chunk of cipher text in place: every full 64-byte group on
/// its own, then the tail. The chunk must be the one that was encrypted as a
/// whole; how the bytes are grouped depends on its length.
pub fn decrypt(key: &[u32; 4], buffer: &mut [u8])
    ensures
        final(buffer)@ == decrypt_spec(key@, old(buffer)@),
{
    let len = buffer.len();
    let full_groups = len / 64;
    let leftover = len % 64;
    let ghost mut done: Seq<u8> = Seq::empty();
    let mut g: usize = 0;
    assert(old(buffer)@.subrange(0, len as int) =~= old(buffer)@);
    assert(decrypt_spec(key@, old(buffer)@) =~= done + decrypt_spec(key@, old(buffer)@));
    while g < full_groups
        invariant
            g <= full_groups,
            full_groups == len / 64,
            len == buffer@.len(),
            len == old(buffer)@.len(),
            done.len() == 64 * g,
            buffer@ == done + old(buffer)@.subrange(64 * g, len as int),
            decrypt_spec(key@, old(buffer)@) == done + decrypt_spec(
                key@,
                old(buffer)@.subrange(64 * g, len as int),
            ),
        decreases full_groups - g,
    {
        let ghost before = buffer@;
        decrypt_group_at(buffer, 64 * g, 16, key);
        proof {
            let cipher = old(buffer)@.subrange(64 * g, 64 * g + 64);
            assert(before.subrange(64 * g, 64 * g + 64) =~= cipher);
            let plain = decrypt_group(key@, cipher);
            lemma_decrypt_spec_step(key@, old(buffer)@, done, 64 * g);
            assert(buffer@ =~= done + plain + old(buffer)@.subrange(64 * g + 64, len as int));
            done = done + plain;
        }
        g += 1;
    }
    let ghost before = buffer@;
    decrypt_tail_from(buffer, len - leftover, key);
    assert(before.subrange(0, 64 * g) =~= done);
    assert(before.subrange(64 * g, len as int) =~= old(buffer)@.subrange(64 * g, len as int));
}

/// The cipher byte at position `i` of a byte-wise tail of `len` bytes, from
/// the plain byte `o`, the cipher byte before it and the key bytes.
fn encrypt_one_byte(o: u8, prev: u8, i: usize, len: usize, key_b: &[u8; 16]) -> (c: u8)
    requires
        i < len <= 0xFFFF_FF00,
    ensures
        c == encrypt_byte(o, prev, i as int, len as int, key_b@),
{
    let not_prev: u32 = !(prev as u32);
    assert(!(prev as u32) == (0xFFFF_FFFFu32 - prev as u32) as u32) by (bit_vector);
    let low_key: u8 = key_b[i % 16];
    let quarter: u32 = (low_key as u32) >> 2;
    assert((low_key as u32) >> 2 == (low_key as u32) / 4) by (bit_vector);
    let raised: u32 = (o as u32 + quarter) % 256;
    let amount: u32 = (prev as usize + len - i) as u32;
    let turned = (raised as u8) ^ rotate_left(key_b[15 - i % 16], (amount % 7) as u8);
    rotate_left(turned, ((8 - not_prev % 7) % 8) as u8)
}

/// Encrypts `buffer` in place, byte by byte. Positions are counted in 32
/// bits, which bounds the length of the run.
pub fn simple_encrypt_bytes(buffer: &mut [u8], key: &[u32; 4])
    requires
        old(buffer)@.len() <= 0xFFFF_FF00,
    ensures
        final(buffer)@ == encrypt_bytes(key@, old(buffer)@),
{
    let key_b = key_to_bytes(key);
    let len = buffer.len();
    let mut prev_e: u8 = 0;
    let mut i: usize = 0;
    while i < len
        invariant
            i <= len,
            len == buffer@.len(),
            len == old(buffer)@.len(),
            len <= 0xFFFF_FF00,
            key_b@ == bytes_of(key@),
            buffer@.subrange(0, i as int) == encrypt_bytes_upto(key@, old(buffer)@, i as int),
            prev_e == prev_byte(buffer@, i as int),
            forall|k: int| i <= k < len ==> buffer@[k] == old(buffer)@[k],
        decreases len - i,
    {
        let ghost before = buffer@.subrange(0, i as int);
        let c = encrypt_one_byte(buffer[i], prev_e, i, len, &key_b);
        buffer[i] = c;
        prev_e = c;
        i += 1;
        assert(buffer@.subrange(0, i as int) =~= before.push(c));
    }
    assert(buffer@ =~= buffer@.subrange(0, len as int));
}

/// Encrypts in place, as one group, the `n` words that start at byte `start`
/// of `buffer`.
fn encrypt_group_at(buffer: &mut [u8], start: usize, n: usize, key: &[u32; 4])
    requires
        1 <= n <= 16,
        start + 4 * n <= old(buffer)@.len(),
    ensures
        replaced(
            old(buffer)@,
            final(buffer)@,
            start as int,
            encrypt_group(key@, old(buffer)@.subrange(start as int, start + 4 * n)),
        ),
        encrypt_group(key@, old(buffer)@.subrange(start as int, start + 4 * n)).len() == 4 * n,
{
    let mut words = load_words(buffer, start, n);
    let ghost loaded = words@;
    encrypt_words(words.as_mut_slice(), n as u32, key);
    proof {
        reveal(encrypt_group);
        lemma_rounds_len(loaded, n as int, rounds_for(n as int), key@);
        lemma_words_of_bytes_of(words@);
    }
    store_words(buffer, start, &words);
}

/// Encrypts in place what follows the full groups: the fewer than 64
/// bytes from `start` to the end of `buffer`.
fn encrypt_tail_from(buffer: &mut [u8], start: usize, key: &[u32; 4])
    requires
        start <= old(buffer)@.len(),
        old(buffer)@.len() - start < 64,
    ensures
        final(buffer)@ == old(buffer)@.subrange(0, start as int) + encrypt_tail(
            key@,
            old(buffer)@.subrange(start as int, old(buffer)@.len() as int),
        ),
{
    let len = buffer.len();
    let leftover = len - start;
    let ghost tail = old(buffer)@.subrange(start as int, len as int);
    let n = leftover / 4;
    if n > 1 {
        encrypt_group_at(buffer, start, n, key);
        let ghost mid = buffer@;
        let (_, bytes) = buffer.split_at_mut(start + 4 * n);
        simple_encrypt_bytes(bytes, key);
        proof {
            assert(old(buffer)@.subrange(start as int, start + 4 * n) =~= tail.subrange(0, 4 * n));
            assert(mid.subrange(start + 4 * n, len as int) =~= tail.subrange(
                4 * n,
                tail.len() as int,
            ));
            assert(buffer@ =~= old(buffer)@.subrange(0, start as int) + encrypt_tail(key@, tail));
        }
    } else {
        let (_, bytes) = buffer.split_at_mut(start);
        simple_encrypt_bytes(bytes, key);
        assert(buffer@ =~= old(buffer)@.subrange(0, start as int) + encrypt_tail(key@, tail));
    }
}

/// Unfolds `encrypt_spec` once for a chunk that begins with a full group.
proof fn lemma_encrypt_spec_step(key: Seq<u32>, whole: Seq<u8>, done: Seq<u8>, at: int)
    requires
        0 <= at,
        at + 64 <= whole.len(),
        encrypt_spec(key, whole) == done + encrypt_spec(key, whole.subrange(at, whole.len() as int)),
    ensures
        encrypt_spec(key, whole) == done + encrypt_group(key, whole.subrange(at, at + 64))
            + encrypt_spec(key, whole.subrange(at + 64, whole.len() as int)),
{
    let rest = whole.subrange(at, whole.len() as int);
    assert(rest.subrange(0, 64) =~= whole.subrange(at, at + 64));
    assert(rest.subrange(64, rest.len() as int) =~= whole.subrange(at + 64, whole.len() as int));
    let head = encrypt_group(key, rest.subrange(0, 64));
    let more = encrypt_spec(key, rest.subrange(64, rest.len() as int));
    assert(done + (head + more) =~= done + head + more);
}

/// Encrypts one chunk of plain text in place, so that `decrypt` on the whole
/// chunk gives the plain text back.
pub fn encrypt(key: &[u32; 4], buffer: &mut [u8])
    ensures
        final(buffer)@ == encrypt_spec(key@, old(buffer)@),
{
    let len = buffer.len();
    let full_groups = len / 64;
    let leftover = len % 64;
    let ghost mut done: Seq<u8> = Seq::empty();
    let mut g: usize = 0;
    assert(old(buffer)@.subrange(0, len as int) =~= old(buffer)@);
    assert(encrypt_spec(key@, old(buffer)@) =~= done + encrypt_spec(key@, old(buffer)@));
    while g < full_groups
        invariant
            g <= full_groups,
            full_groups == len / 64,
            len == buffer@.len(),
            len == old(buffer)@.len(),
            done.len() == 64 * g,
            buffer@ == done + old(buffer)@.subrange(64 * g, len as int),
            encrypt_spec(key@, old(buffer)@) == done + encrypt_spec(
                key@,
                old(buffer)@.subrange(64 * g, len as int),
            ),
        decreases full_groups - g,
    {
        let ghost before = buffer@;
        encrypt_group_at(buffer, 64 * g, 16, key);
        proof {
            let plain = old(buffer)@.subrange(64 * g, 64 * g + 64);
            assert(before.subrange(64 * g, 64 * g + 64) =~= plain);
            let cipher = encrypt_group(key@, plain);
            lemma_encrypt_spec_step(key@, old(buffer)@, done, 64 * g);
            assert(buffer@ =~= done + cipher + old(buffer)@.subrange(64 * g + 64, len as int));
            done = done + cipher;
        }
        g += 1;
    }
    let ghost before = buffer@;
    encrypt_tail_from(buffer, len - leftover, key);
    assert(before.subrange(0, 64 * g) =~= done);
    assert(before.subrange(64 * g, len as int) =~= old(buffer)@.subrange(64 * g, len as int));
}

/// Turning a byte right and then left by the same amount gives it back.
proof fn lemma_turn_back(x: u8, n: u8)
    requires
        n < 8,
    ensures
        rotl8(rotl8(x, ((8 - n) % 8) as u8), n) == x,
{
    let m: u8 = ((8 - n) % 8) as u8;
    assert(m == if n == 0 { 0u8 } else { (8 - n) as u8 });
    let y: u8 = (x << m) | (x >> ((8 - m) as u8));
    let back: u8 = (8 - n) as u8;
    let fwd: u8 = (8 - m) as u8;
    assert(((((x << m) | (x >> fwd)) << n) | (((x << m) | (x >> fwd)) >> back)) == x)
        by (bit_vector)
        requires
            n < 8,
            m == (if n == 0 { 0u8 } else { (8u8 - n) as u8 }),
            fwd == (8u8 - m) as u8,
            back == (8u8 - n) as u8,
    ;
}

/// Mixing the same value in twice leaves a byte as it was.
proof fn lemma_mix_twice(a: u8, k: u8)
    ensures
        (a ^ k) ^ k == a,
{
    assert((a ^ k) ^ k == a) by (bit_vector);
}

/// `decrypt_byte` takes the byte that `encrypt_byte` made back to the plain
/// byte, given the same cipher byte before it.
pub proof fn lemma_byte_inverse(o: u8, prev: u8, i: int, len: int, kb: Seq<u8>)
    ensures
        decrypt_byte(encrypt_byte(o, prev, i, len, kb), prev, i, len, kb) == o,
{
    let q = kb[i % 16] / 4;
    let key_turned = rotl8(kb[15 - i % 16], key_turn_amount(prev, i, len));
    let raised = ((o + q) % 256) as u8;
    let turned = raised ^ key_turned;
    lemma_turn_back(turned, turn_amount(prev));
    lemma_mix_twice(raised, key_turned);
}

/// The first `k` bytes of a byte-wise encryption: how many they are, and
/// what each of them is.
pub proof fn lemma_encrypt_bytes_upto(key: Seq<u32>, t: Seq<u8>, k: int)
    requires
        0 <= k <= t.len(),
    ensures
        encrypt_bytes_upto(key, t, k).len() == k,
        forall|j: int|
            0 <= j < k ==> #[trigger] encrypt_bytes_upto(key, t, k)[j] == encrypt_byte(
                t[j],
                prev_byte(encrypt_bytes_upto(key, t, k), j),
                j,
                t.len() as int,
                bytes_of(key),
            ),
    decreases k,
{
    if k > 0 {
        lemma_encrypt_bytes_upto(key, t, k - 1);
        let before = encrypt_bytes_upto(key, t, k - 1);
        let now = encrypt_bytes_upto(key, t, k);
        assert forall|j: int| 0 <= j < k implies #[trigger] now[j] == encrypt_byte(
            t[j],
            prev_byte(now, j),
            j,
            t.len() as int,
            bytes_of(key),
        ) by {
            assert(prev_byte(now, j) == prev_byte(before, j));
            if j < k - 1 {
                assert(now[j] == before[j]);
            }
        }
    }
}

/// Decrypting byte by byte undoes encrypting byte by byte.
pub proof fn lemma_bytes_inverse(key: Seq<u32>, t: Seq<u8>)
    ensures
        encrypt_bytes(key, t).len() == t.len(),
        decrypt_bytes(key, encrypt_bytes(key, t)) == t,
{
    let c = encrypt_bytes(key, t);
    lemma_encrypt_bytes_upto(key, t, t.len() as int);
    assert forall|i: int| 0 <= i < t.len() implies #[trigger] decrypt_bytes(key, c)[i] == t[i] by {
        lemma_byte_inverse(t[i], prev_byte(c, i), i, t.len() as int, bytes_of(key));
    }
    assert(decrypt_bytes(key, c) =~= t);
}

/// Decrypting a group undoes encrypting it, for a group of two whole words
/// or more.
pub proof fn lemma_group_inverse(key: Seq<u32>, g: Seq<u8>)
    requires
        g.len() % 4 == 0,
        g.len() >= 8,
    ensures
        encrypt_group(key, g).len() == g.len(),
        decrypt_group(key, encrypt_group(key, g)) == g,
{
    reveal(encrypt_group);
    reveal(decrypt_group);
    let n = g.len() as int / 4;
    let w = words_of(g);
    let e = enc_words(w, n, key);
    lemma_rounds_len(w, n, rounds_for(n), key);
    lemma_words_of_bytes_of(e);
    lemma_rounds_inverse(w, n, rounds_for(n), key);
    lemma_bytes_of_words_of(g);
}

/// Decrypting a tail undoes encrypting it.
pub proof fn lemma_tail_inverse(key: Seq<u32>, t: Seq<u8>)
    ensures
        encrypt_tail(key, t).len() == t.len(),
        decrypt_tail(key, encrypt_tail(key, t)) == t,
{
    let n = t.len() as int / 4;
    if n > 1 {
        let words = t.subrange(0, 4 * n);
        let bytes = t.subrange(4 * n, t.len() as int);
        lemma_group_inverse(key, words);
        lemma_bytes_inverse(key, bytes);
        let c = encrypt_tail(key, t);
        assert(c.subrange(0, 4 * n) =~= encrypt_group(key, words));
        assert(c.subrange(4 * n, c.len() as int) =~= encrypt_bytes(key, bytes));
        assert(words + bytes =~= t);
    } else {
        lemma_bytes_inverse(key, t);
    }
}

/// Decrypting a chunk undoes encrypting it, whatever the key and whatever
/// the length of the chunk.
pub proof fn lemma_decrypt_encrypt(key: Seq<u32>, plain: Seq<u8>)
    ensures
        encrypt_spec(key, plain).len() == plain.len(),
        decrypt_spec(key, encrypt_spec(key, plain)) == plain,
    decreases plain.len(),
{
    if plain.len() >= 64 {
        let head = plain.subrange(0, 64);
        let rest = plain.subrange(64, plain.len() as int);
        lemma_group_inverse(key, head);
        lemma_decrypt_encrypt(key, rest);
        let c = encrypt_spec(key, plain);
        assert(c.subrange(0, 64) =~= encrypt_group(key, head));
        assert(c.subrange(64, c.len() as int) =~= encrypt_spec(key, rest));
        assert(head + rest =~= plain);
    } else {
        lemma_tail_inverse(key, plain);
    }
}

} // verus!
