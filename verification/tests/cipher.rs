use osz2::decryptor_stream::DecryptorStream;
use osz2::ext::ByteReader;
use osz2::xxtea::{
    decrypt, decrypt_words, encrypt, encrypt_words, key_to_bytes, rotate_left,
    simple_decrypt_bytes, simple_encrypt_bytes,
};

const KEY: [u32; 4] = [0x0123_4567, 0x89ab_cdef, 0xfedc_ba98, 0x7654_3210];

fn cipher_text(len: usize) -> Vec<u8> {
    (0..len).map(|i| (i * 7 + 3) as u8).collect()
}

#[test]
fn encrypt_then_decrypt_gives_the_plain_text_back() {
    for len in 0..200usize {
        let plain: Vec<u8> = (0..len).map(|i| (i * 37 + len * 11 + 5) as u8).collect();
        let mut buffer = plain.clone();
        encrypt(&KEY, &mut buffer);
        assert_eq!(buffer.len(), len);
        if len >= 8 {
            assert_ne!(buffer, plain);
        }
        decrypt(&KEY, &mut buffer);
        assert_eq!(buffer, plain);
    }
}

#[test]
fn a_random_looking_64_byte_block_survives_the_round_trip() {
    let plain: [u8; 64] = [
        85, 170, 116, 16, 43, 86, 179, 158, 37, 158, 254, 183, 190, 6, 252, 242, 182, 60, 111, 71,
        126, 56, 105, 67, 128, 137, 37, 0, 204, 182, 254, 18, 169, 178, 74, 44, 150, 213, 234, 38,
        66, 49, 175, 10, 13, 174, 0, 237, 254, 150, 166, 148, 153, 167, 144, 228, 104, 191, 198,
        151, 91, 27, 94, 127,
    ];
    let mut buffer = plain;
    encrypt(&KEY, &mut buffer);
    assert_ne!(buffer, plain);
    decrypt(&KEY, &mut buffer);
    assert_eq!(buffer, plain);
}

#[test]
fn decrypt_of_four_bytes_goes_byte_by_byte() {
    let mut buffer = cipher_text(4);
    decrypt(&KEY, &mut buffer);
    assert_eq!(buffer, vec![102, 14, 79, 25]);
}

#[test]
fn decrypt_of_five_bytes_goes_byte_by_byte() {
    let mut buffer = cipher_text(5);
    decrypt(&KEY, &mut buffer);
    assert_eq!(buffer, vec![189, 77, 149, 26, 181]);
}

#[test]
fn decrypt_of_two_words_is_one_group() {
    let mut buffer = cipher_text(8);
    decrypt(&KEY, &mut buffer);
    assert_eq!(buffer, vec![45, 121, 244, 153, 229, 21, 10, 71]);
}

#[test]
fn decrypt_of_two_words_and_three_bytes() {
    let mut buffer = cipher_text(11);
    decrypt(&KEY, &mut buffer);
    assert_eq!(buffer, vec![45, 121, 244, 153, 229, 21, 10, 71, 81, 183, 98]);
}

const PLAIN_64: [u8; 64] = [
    39, 185, 50, 193, 36, 2, 22, 244, 178, 215, 139, 141, 119, 179, 66, 234, 44, 159, 194, 255, 93,
    213, 7, 158, 164, 33, 223, 12, 57, 188, 56, 169, 53, 98, 186, 110, 143, 134, 227, 164, 84, 233,
    77, 213, 214, 144, 147, 38, 2, 118, 53, 39, 54, 194, 181, 164, 33, 31, 109, 169, 148, 168, 149,
    140,
];

#[test]
fn decrypt_of_a_full_group() {
    let mut buffer = cipher_text(64);
    decrypt(&KEY, &mut buffer);
    assert_eq!(buffer, PLAIN_64.to_vec());
}

#[test]
fn decrypt_of_a_full_group_and_a_tail() {
    let mut buffer = cipher_text(77);
    decrypt(&KEY, &mut buffer);
    let mut expected = PLAIN_64.to_vec();
    expected.extend_from_slice(&[42, 56, 226, 37, 133, 94, 41, 100, 112, 81, 103, 146, 59]);
    assert_eq!(buffer, expected);
}

#[test]
fn decrypt_of_nothing_is_nothing() {
    let mut buffer: Vec<u8> = Vec::new();
    decrypt(&KEY, &mut buffer);
    assert!(buffer.is_empty());
}

#[test]
fn how_a_chunk_is_split_changes_the_plain_text() {
    let cipher = cipher_text(77);
    let mut whole = cipher.clone();
    decrypt(&KEY, &mut whole);
    let mut parts = cipher.clone();
    let (head, tail) = parts.split_at_mut(40);
    decrypt(&KEY, head);
    decrypt(&KEY, tail);
    assert_ne!(whole, parts);
}

#[test]
fn encrypt_words_matches_the_reference_vector() {
    let mut words: Vec<u32> = (1..=16).collect();
    encrypt_words(&mut words, 16, &KEY);
    assert_eq!(
        words,
        vec![
            0x9e87ff79, 0x1dd003d5, 0x52e6c0d6, 0xc20406dd, 0x98b4e4e4, 0x70c4abfe, 0xe798e5ea,
            0x9951f895, 0x50bc2dc1, 0xfa3b18d0, 0xd723b40e, 0xb516df91, 0x0f8d3d6b, 0xf42da32b,
            0x21fd75d3, 0xecc7688e,
        ]
    );
    decrypt_words(&mut words, 16, &KEY);
    assert_eq!(words, (1..=16).collect::<Vec<u32>>());
}

#[test]
fn decrypt_words_leaves_the_words_after_the_group_alone() {
    let mut words: Vec<u32> = vec![10, 20, 30, 40, 50];
    decrypt_words(&mut words, 3, &KEY);
    assert_eq!(&words[3..], &[40, 50]);
    assert_ne!(&words[..3], &[10, 20, 30]);
    encrypt_words(&mut words, 3, &KEY);
    assert_eq!(words, vec![10, 20, 30, 40, 50]);
}

#[test]
fn rotate_left_turns_within_eight_bits() {
    assert_eq!(rotate_left(0b1000_0001, 1), 0b0000_0011);
    assert_eq!(rotate_left(0b1000_0001, 0), 0b1000_0001);
    assert_eq!(rotate_left(0b0000_0001, 7), 0b1000_0000);
    assert_eq!(rotate_left(0xf0, 4), 0x0f);
    for n in 0..8u8 {
        for val in [0u8, 1, 0x5a, 0xff, 0x80] {
            assert_eq!(rotate_left(val, n), val.rotate_left(n as u32));
        }
    }
}

#[test]
fn key_bytes_are_the_words_low_byte_first() {
    assert_eq!(
        key_to_bytes(&KEY),
        [
            0x67, 0x45, 0x23, 0x01, 0xef, 0xcd, 0xab, 0x89, 0x98, 0xba, 0xdc, 0xfe, 0x10, 0x32,
            0x54, 0x76
        ]
    );
}

#[test]
fn byte_wise_encrypt_and_decrypt_are_inverse() {
    for len in 0..20usize {
        let plain: Vec<u8> = (0..len).map(|i| (i * 91 + 17) as u8).collect();
        let mut buffer = plain.clone();
        simple_encrypt_bytes(&mut buffer, &KEY);
        simple_decrypt_bytes(&mut buffer, &KEY);
        assert_eq!(buffer, plain);
    }
}

#[test]
fn stream_deciphers_exactly_what_one_read_returns() {
    let cipher = cipher_text(11);
    let mut stream = DecryptorStream::new(ByteReader::new(&cipher), KEY);
    let mut buffer = [0xaau8; 16];
    let count = stream.read(&mut buffer);
    assert_eq!(count, 11);
    assert_eq!(&buffer[..11], &[45, 121, 244, 153, 229, 21, 10, 71, 81, 183, 98]);
    assert_eq!(&buffer[11..], &[0xaa; 5]);
    assert_eq!(stream.read(&mut buffer), 0);
}

#[test]
fn stream_reads_are_chunks_of_their_own() {
    let cipher = cipher_text(11);
    let mut stream = DecryptorStream::new(ByteReader::new(&cipher), KEY);
    let mut first = [0u8; 4];
    let mut rest = [0u8; 7];
    assert_eq!(stream.read(&mut first), 4);
    assert_eq!(stream.read(&mut rest), 7);
    assert_eq!(first, [102, 14, 79, 25]);
    let mut expected = cipher[4..].to_vec();
    decrypt(&KEY, &mut expected);
    assert_eq!(rest.to_vec(), expected);
}
